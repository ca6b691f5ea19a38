use vstd::prelude::*;

use crate::header::ConnectionType;

verus! {

/// What the registry does with a connection.
#[derive(Clone, Copy, Debug, PartialEq, Eq, Structural)]
pub enum Assignment {
    /// Start a replay for the match, then hand the connection to it.
    CreateAndHand,
    /// Hand the connection to the match's replay.
    Hand,
    /// Drop the connection: the replay no longer takes writers.
    Reject,
}

/// Decides where a connection of kind `kind` goes. `existing` is `None` when
/// its match has no live replay, else whether that replay still takes writers.
pub fn assign_connection(existing: Option<bool>, kind: ConnectionType) -> (r: Assignment)
    ensures
        r == match existing {
            None => Assignment::CreateAndHand,
            Some(accepting) => if !accepting && kind == ConnectionType::WRITER {
                Assignment::Reject
            } else {
                Assignment::Hand
            },
        },
{
    match existing {
        None => Assignment::CreateAndHand,
        Some(accepting) => {
            if !accepting && kind == ConnectionType::WRITER {
                Assignment::Reject
            } else {
                Assignment::Hand
            }
        },
    }
}

} // verus!
