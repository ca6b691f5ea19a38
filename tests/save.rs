use std::io::Read;

use replay_server::merge_strategy::QuorumMergeStrategy;
use replay_server::merged_replay::ReplayHeader;
use replay_server::save::{frame_saved_replay, saved_replay_bytes};

#[test]
fn frame_puts_metadata_line_first() {
    assert_eq!(frame_saved_replay(b"{\"a\":1}", b"xyz"), b"{\"a\":1}\nxyz".to_vec());
    assert_eq!(frame_saved_replay(b"", b""), b"\n".to_vec());
}

#[test]
fn test_server_one_writer_one_reader() {
    let body: Vec<u8> = b"example".iter().cycle().take(37 * 1024).copied().collect();
    let mut s = QuorumMergeStrategy::new(2, 4096);
    let t = s.replay_added();
    s.replay_header_added(t, ReplayHeader { data: Vec::new() });
    s.replay_new_data(t, &body);
    s.replay_new_delayed_data(t, body.len());
    s.replay_removed(t);
    s.finalize();
    let json = b"{\"uid\":2}".to_vec();
    let file = saved_replay_bytes(&json, s.get_merged_replay());
    assert_eq!(file[0], b'{');
    let newline = file.iter().position(|&b| b == b'\n').unwrap();
    assert_eq!(&file[..newline], &json[..]);
    let compressed = &file[newline + 1..];
    // The body is stored compressed, not as it is.
    assert_ne!(compressed, &body[..]);
    assert!(compressed.len() < body.len());
    let mut unpacked = Vec::new();
    flate2::read::ZlibDecoder::new(compressed).read_to_end(&mut unpacked).unwrap();
    assert_eq!(unpacked, body);
}

#[test]
fn empty_body_round_trips() {
    let mut s = QuorumMergeStrategy::new(2, 4096);
    let t = s.replay_added();
    s.replay_header_added(t, ReplayHeader { data: b"HDR".to_vec() });
    s.replay_removed(t);
    s.finalize();
    let file = saved_replay_bytes(b"{}", s.get_merged_replay());
    let mut unpacked = Vec::new();
    flate2::read::ZlibDecoder::new(&file[3..]).read_to_end(&mut unpacked).unwrap();
    assert!(unpacked.is_empty());
}
