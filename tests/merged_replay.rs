use replay_server::merged_replay::{MergedReplay, ReplayHeader};
use replay_server::position::StreamPosition;
use replay_server::sender::{next_send, SendStep, SEND_CHUNK};
use replay_server::writer_replay::WriterReplay;

fn writer_with(header: &[u8], body: &[u8]) -> WriterReplay {
    let mut w = WriterReplay::new();
    w.add_header(ReplayHeader { data: header.to_vec() });
    w.add_data(body);
    w
}

#[test]
fn merged_replay_starts_empty() {
    let m = MergedReplay::new();
    assert_eq!(m.header_len(), 0);
    assert_eq!(m.delayed_data_len(), 0);
    assert_eq!(m.delayed_len(), 0);
    assert!(!m.is_finished());
    assert!(m.get_header().is_none());
    assert!(m.get_data().is_empty());
    assert!(m.read_at(0, 10).is_empty());
}

#[test]
fn merged_replay_publishes_only_the_delayed_prefix() {
    let w = writer_with(b"HDR", b"abcdefgh");
    let mut m = MergedReplay::new();
    m.add_header(ReplayHeader { data: b"HDR".to_vec() });
    m.add_data(&w, 5);
    assert_eq!(m.get_data(), &b"abcde".to_vec());
    assert_eq!(m.delayed_len(), 3);
    m.advance_delayed_data(2);
    assert_eq!(m.delayed_data_len(), 2);
    assert_eq!(m.delayed_len(), 5);
    // A read that starts in the header stops at the header's end.
    assert_eq!(m.read_at(0, 100), b"HDR".to_vec());
    assert_eq!(m.read_at(1, 1), b"D".to_vec());
    // Body reads never pass the published prefix.
    assert_eq!(m.read_at(3, 100), b"ab".to_vec());
    assert_eq!(m.read_at(4, 100), b"b".to_vec());
    assert!(m.read_at(5, 100).is_empty());
    assert!(m.read_at(50, 100).is_empty());
}

#[test]
fn merged_replay_finish_publishes_everything_and_freezes() {
    let w = writer_with(b"H", b"xyz");
    let mut m = MergedReplay::new();
    m.add_header(ReplayHeader { data: b"H".to_vec() });
    m.add_data(&w, 3);
    m.advance_delayed_data(1);
    m.finish();
    assert!(m.is_finished());
    assert_eq!(m.delayed_data_len(), 3);
    assert_eq!(m.delayed_len(), 4);
    assert_eq!(m.read_at(1, 10), b"xyz".to_vec());
}

#[test]
fn merged_replay_lengths_never_decrease() {
    let w = writer_with(b"H", b"0123456789");
    let mut m = MergedReplay::new();
    m.add_header(ReplayHeader { data: b"H".to_vec() });
    let mut last_len = 0;
    let mut last_delayed = 0;
    for until in [2usize, 2, 5, 9, 10] {
        m.add_data(&w, until);
        m.advance_delayed_data(until - 1);
        assert!(m.get_data().len() >= last_len);
        assert!(m.delayed_data_len() >= last_delayed);
        assert!(m.delayed_data_len() <= m.get_data().len());
        last_len = m.get_data().len();
        last_delayed = m.delayed_data_len();
    }
    assert_eq!(m.get_data(), &b"0123456789".to_vec());
}

#[test]
fn writer_position_moves_forward() {
    let mut w = WriterReplay::new();
    assert_eq!(w.position(), StreamPosition::START);
    // Bytes before the header are not taken.
    w.add_data(b"zz");
    assert_eq!(w.position(), StreamPosition::START);
    w.add_header(ReplayHeader { data: b"h".to_vec() });
    assert_eq!(w.position(), StreamPosition::HEADER);
    w.add_data(b"abc");
    assert_eq!(w.position(), StreamPosition::DATA(3));
    w.add_data(b"de");
    assert_eq!(w.position(), StreamPosition::DATA(5));
    w.finish();
    assert_eq!(w.position(), StreamPosition::FINISHED(5));
    assert!(w.position().is_finished());
    assert_eq!(w.position().len(), 5);
    // A finished stream takes no more bytes.
    w.add_data(b"late");
    assert_eq!(w.position(), StreamPosition::FINISHED(5));
    assert_eq!(w.get_data(), &b"abcde".to_vec());
}

#[test]
fn sender_streams_header_then_published_body() {
    let body: Vec<u8> = (0..10000u32).map(|i| (i % 251) as u8).collect();
    let w = writer_with(b"HEAD", &body);
    let mut m = MergedReplay::new();
    assert!(matches!(next_send(&m, 0), SendStep::Wait));
    m.add_header(ReplayHeader { data: b"HEAD".to_vec() });
    m.add_data(&w, body.len());
    m.advance_delayed_data(6000);
    let mut got = Vec::new();
    loop {
        match next_send(&m, got.len()) {
            SendStep::Send(b) => {
                assert!(b.len() <= SEND_CHUNK);
                got.extend_from_slice(&b);
            }
            SendStep::Wait => break,
            SendStep::Done => panic!("replay is not finished"),
        }
    }
    assert_eq!(got.len(), 4 + 6000);
    m.finish();
    loop {
        match next_send(&m, got.len()) {
            SendStep::Send(b) => got.extend_from_slice(&b),
            SendStep::Wait => panic!("a finished replay never waits"),
            SendStep::Done => break,
        }
    }
    let mut expected = b"HEAD".to_vec();
    expected.extend_from_slice(&body);
    assert_eq!(got, expected);
}
