use vstd::prelude::*;

use crate::merged_replay::MergedReplay;

verus! {

/// The zlib stream that flate2 produces for `b` at the default level.
pub uninterp spec fn zlib_of(b: Seq<u8>) -> Seq<u8>;

/// Relies on flate2's `ZlibEncoder` (write side, default level): the bytes it
/// hands back after `finish` are the zlib stream of what was written. With a
/// `Vec` as the sink neither `write_all` nor `finish` fails: writing into a
/// `Vec` never errs, and the compressor only errs when called after it
/// finished or when a custom output callback fails, neither of which happens
/// here. So the result is always `Some`.
#[verifier::external_body]
fn zlib_compress(b: &[u8]) -> (r: Option<Vec<u8>>)
    ensures
        r is Some,
        r matches Some(v) ==> v@ == zlib_of(b@),
{
    let mut e = flate2::write::ZlibEncoder::new(Vec::new(), flate2::Compression::default());
    match std::io::Write::write_all(&mut e, b) {
        Ok(()) => e.finish().ok(),
        Err(_) => None,
    }
}

/// A saved replay file: the metadata line, a newline, then the compressed body.
pub open spec fn saved_replay(json: Seq<u8>, compressed: Seq<u8>) -> Seq<u8> {
    json + seq![10u8] + compressed
}

/// Lays out a saved replay file from its metadata line and compressed body.
pub fn frame_saved_replay(json: &[u8], compressed: &[u8]) -> (r: Vec<u8>)
    ensures
        r@ == saved_replay(json@, compressed@),
{
    let mut r: Vec<u8> = Vec::new();
    let mut i: usize = 0;
    while i < json.len()
        invariant
            i <= json@.len(),
            r@ == json@.subrange(0, i as int),
        decreases json@.len() - i,
    {
        r.push(json[i]);
        i = i + 1;
        assert(r@ =~= json@.subrange(0, i as int));
    }
    r.push(10);
    let ghost head = r@;
    let mut j: usize = 0;
    while j < compressed.len()
        invariant
            j <= compressed@.len(),
            r@ == head + compressed@.subrange(0, j as int),
        decreases compressed@.len() - j,
    {
        r.push(compressed[j]);
        j = j + 1;
        assert(r@ =~= head + compressed@.subrange(0, j as int));
    }
    assert(json@.subrange(0, json@.len() as int) =~= json@);
    assert(compressed@.subrange(0, compressed@.len() as int) =~= compressed@);
    assert(r@ =~= saved_replay(json@, compressed@));
    r
}

/// The file to save for a finished replay: the metadata line, then the
/// compressed merged body.
pub fn saved_replay_bytes(json: &[u8], replay: &MergedReplay) -> (r: Vec<u8>)
    ensures
        r@ == saved_replay(json@, zlib_of(replay@.data)),
{
    match zlib_compress(replay.get_data().as_slice()) {
        Some(c) => frame_saved_replay(json, c.as_slice()),
        None => {
            proof {
                assert(false);
            }
            Vec::new()
        },
    }
}

} // verus!
