use replay_server::delay::{track_replay, DelayTracker};
use replay_server::merge_strategy::{MergeStrategy, NullMergeStrategy, QuorumMergeStrategy};
use replay_server::merged_replay::{MergedReplay, ReplayHeader};
use replay_server::sender::{next_send, SendStep};

fn example_bytes(len: usize) -> Vec<u8> {
    b"example".iter().cycle().take(len).copied().collect()
}

fn header() -> ReplayHeader {
    ReplayHeader { data: b"HDR".to_vec() }
}

fn read_all(m: &MergedReplay) -> Vec<u8> {
    let mut got = Vec::new();
    loop {
        match next_send(m, got.len()) {
            SendStep::Send(b) => got.extend_from_slice(&b),
            SendStep::Wait | SendStep::Done => return got,
        }
    }
}

#[test]
fn null_strategy_keeps_an_empty_replay() {
    let mut s = NullMergeStrategy::new();
    let t = s.replay_added();
    s.replay_header_added(t, header());
    s.replay_new_data(t, b"abc");
    s.replay_new_delayed_data(t, 3);
    s.replay_removed(t);
    assert_eq!(s.get_merged_replay().delayed_len(), 0);
}

#[test]
fn test_replay_one_writer_one_reader() {
    let body = example_bytes(37 * 1024);
    let mut s = QuorumMergeStrategy::new(2, 4096);
    let t = s.replay_added();
    s.replay_header_added(t, header());
    for chunk in body.chunks(100) {
        s.replay_new_data(t, chunk);
    }
    // Nothing of the body is visible before the delay has passed.
    assert_eq!(s.get_merged_replay().delayed_data_len(), 0);
    assert_eq!(read_all(s.get_merged_replay()), b"HDR".to_vec());
    s.replay_new_delayed_data(t, body.len());
    s.replay_removed(t);
    s.finalize();
    let got = read_all(s.get_merged_replay());
    assert_eq!(&got[..3], b"HDR");
    assert_eq!(got[3..].to_vec(), body);
    assert!(matches!(next_send(s.get_merged_replay(), got.len()), SendStep::Done));
}

#[test]
fn header_only_writer_gives_empty_body() {
    let mut s = QuorumMergeStrategy::new(2, 4096);
    let t = s.replay_added();
    s.replay_header_added(t, header());
    s.replay_removed(t);
    s.finalize();
    let m = s.get_merged_replay();
    assert!(m.is_finished());
    assert!(m.get_data().is_empty());
    assert_eq!(read_all(m), b"HDR".to_vec());
}

#[test]
fn reader_after_finish_gets_the_whole_stream() {
    let body = example_bytes(5000);
    let mut s = QuorumMergeStrategy::new(2, 1000);
    let t = s.replay_added();
    s.replay_header_added(t, header());
    s.replay_new_data(t, &body);
    s.replay_new_delayed_data(t, 5000);
    s.replay_removed(t);
    s.finalize();
    let got = read_all(s.get_merged_replay());
    assert_eq!(got.len(), 5003);
    assert_eq!(got[3..].to_vec(), body);
}

#[test]
fn two_writers_agreeing_then_diverging() {
    let common = example_bytes(10 * 1024);
    let mut a = common.clone();
    a.extend(std::iter::repeat(b'X').take(1024));
    let mut b = common.clone();
    b.extend(std::iter::repeat(b'Y').take(1024));
    let mut s = QuorumMergeStrategy::new(2, 4096);
    let ta = s.replay_added();
    let tb = s.replay_added();
    s.replay_header_added(ta, header());
    s.replay_header_added(tb, header());
    s.replay_new_data(ta, &a);
    s.replay_new_data(tb, &b);
    s.replay_new_delayed_data(ta, a.len());
    s.replay_new_delayed_data(tb, b.len());
    s.replay_removed(ta);
    s.replay_removed(tb);
    s.finalize();
    let m = s.get_merged_replay();
    assert_eq!(m.get_data(), &common);
    assert_eq!(read_all(m)[3..].to_vec(), common);
}

#[test]
fn one_delayed_writer_waits_for_quorum() {
    let body = example_bytes(3000);
    let mut s = QuorumMergeStrategy::new(2, 4096);
    let ta = s.replay_added();
    let tb = s.replay_added();
    s.replay_header_added(ta, header());
    s.replay_header_added(tb, header());
    s.replay_new_data(ta, &body);
    s.replay_new_data(tb, &body[..1000]);
    s.replay_new_delayed_data(ta, 3000);
    // Only one writer has delayed bytes: no quorum yet.
    assert_eq!(s.get_merged_replay().get_data().len(), 0);
    s.replay_new_delayed_data(tb, 1000);
    // Both agree on the first 1000 bytes.
    assert_eq!(s.get_merged_replay().get_data(), &body[..1000].to_vec());
    assert_eq!(s.get_merged_replay().delayed_data_len(), 1000);
    // Once the slower writer has finished with nothing more, the other is quorum alone.
    s.replay_removed(tb);
    assert_eq!(s.get_merged_replay().get_data(), &body);
}

#[test]
fn majority_wins_over_a_corrupt_writer() {
    let good = example_bytes(2000);
    let mut bad = good.clone();
    bad[10] = b'!';
    let mut s = QuorumMergeStrategy::new(2, 4096);
    let t0 = s.replay_added();
    let t1 = s.replay_added();
    let t2 = s.replay_added();
    for (t, d) in [(t0, &bad), (t1, &good), (t2, &good)] {
        s.replay_header_added(t, header());
        s.replay_new_data(t, d);
    }
    for t in [t0, t1, t2] {
        s.replay_new_delayed_data(t, 2000);
    }
    assert_eq!(s.get_merged_replay().get_data(), &good);
}

#[test]
fn window_limits_each_step_and_unknown_tokens_are_ignored() {
    let body = example_bytes(100);
    let mut s = QuorumMergeStrategy::new(0, 0);
    let t = s.replay_added();
    s.replay_new_data(99, b"zzz");
    s.replay_new_delayed_data(99, 3);
    s.replay_removed(99);
    s.replay_header_added(t, header());
    s.replay_new_data(t, &body);
    s.replay_new_delayed_data(t, 40);
    assert_eq!(s.get_merged_replay().get_data(), &body[..40].to_vec());
    // A delayed length past what was received is ignored.
    s.replay_new_delayed_data(t, 500);
    assert_eq!(s.get_merged_replay().get_data().len(), 40);
}

#[test]
fn tokens_and_lengths_are_visible() {
    let mut s = QuorumMergeStrategy::new(2, 4096);
    assert_eq!(s.next_token(), 0);
    let t = s.replay_added();
    assert_eq!(s.next_token(), t + 1);
    assert_eq!(s.writer_data_len(t), Some(0));
    assert_eq!(s.writer_data_len(t + 5), None);
    s.replay_header_added(t, header());
    s.replay_new_data(t, b"abcdef");
    assert_eq!(s.writer_data_len(t), Some(6));
}

#[test]
fn track_replay_passes_delayed_lengths_and_ends() {
    let body = example_bytes(300);
    let mut s = QuorumMergeStrategy::new(2, 4096);
    let t = s.replay_added();
    s.replay_header_added(t, header());
    let mut d = DelayTracker::new(100);
    s.replay_new_data(t, &body[..100]);
    d.record(0, 100);
    s.replay_new_data(t, &body[100..]);
    d.record(50, 300);
    assert!(!track_replay(&mut s, t, &mut d, 99, true));
    assert_eq!(s.get_merged_replay().get_data().len(), 0);
    assert!(!track_replay(&mut s, t, &mut d, 100, true));
    assert_eq!(s.get_merged_replay().get_data(), &body[..100].to_vec());
    assert_eq!(d.last_len(), 300);
    assert!(track_replay(&mut s, t, &mut d, 150, true));
    assert_eq!(s.get_merged_replay().get_data(), &body);
}
