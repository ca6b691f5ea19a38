use vstd::prelude::*;

use crate::merged_replay::{read_end, MergedReplay};

verus! {

/// Largest piece handed to a reader at once.
pub const SEND_CHUNK: usize = 4096;

/// What a reader's connection does next.
#[derive(Debug)]
pub enum SendStep {
    /// Write these bytes, which start at the reader's position.
    Send(Vec<u8>),
    /// Nothing new is visible yet: wait for the replay to publish more.
    Wait,
    /// The reader has everything: flush and close.
    Done,
}

/// Decides the next step for a reader that has received the first `position`
/// visible bytes of the replay.
pub fn next_send(replay: &MergedReplay, position: usize) -> (r: SendStep)
    requires
        replay@.wf(),
    ensures
        r is Done <==> replay@.finished && position >= replay@.visible().len(),
        r is Wait <==> !replay@.finished && position >= replay@.visible().len(),
        r matches SendStep::Send(b) ==> {
            &&& position < replay@.visible().len()
            &&& b@ == replay@.visible().subrange(position as int, read_end(replay@, position as int, SEND_CHUNK as int))
            &&& b@.len() > 0
        },
{
    if position >= replay.delayed_len() {
        if replay.is_finished() {
            SendStep::Done
        } else {
            SendStep::Wait
        }
    } else {
        let b = replay.read_at(position, SEND_CHUNK);
        proof {
            let e = read_end(replay@, position as int, SEND_CHUNK as int);
            assert(e > position);
        }
        SendStep::Send(b)
    }
}

} // verus!
