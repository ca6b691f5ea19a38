use replay_server::delay::DelayTracker;
use replay_server::header::ConnectionType;
use replay_server::lifecycle::{ReplayLifecycle, ReplayPhase};
use replay_server::replays::{assign_connection, Assignment};

const S: u64 = 1000;

#[test]
fn test_replay_forced_timeout() {
    let mut l = ReplayLifecycle::new(0, 3600 * S, 10 * S);
    assert!(l.writer_joined());
    l.tick(3599 * S);
    assert_eq!(l.phase(), ReplayPhase::Accepting);
    l.tick(3601 * S);
    assert_eq!(l.phase(), ReplayPhase::Cancelled);
    // The cancelled writer connection returns; the replay terminates.
    l.writer_left(3601 * S);
    assert_eq!(l.phase(), ReplayPhase::Terminated);
}

#[test]
fn late_writer_is_rejected() {
    let mut l = ReplayLifecycle::new(0, 3600 * S, 10 * S);
    assert!(l.writer_joined());
    l.writer_left(S);
    l.tick(10 * S);
    assert_eq!(l.phase(), ReplayPhase::Accepting);
    l.tick(12 * S);
    assert_eq!(l.phase(), ReplayPhase::Finalizing);
    assert!(!l.is_accepting());
    assert!(!l.writer_joined());
    assert_eq!(l.writer_count(), 0);
    // Readers may still attach.
    assert!(l.reader_joined());
    assert_eq!(l.reader_count(), 1);
}

#[test]
fn full_lifecycle() {
    let mut l = ReplayLifecycle::new(0, 3600 * S, 10 * S);
    assert!(l.writer_joined());
    assert!(l.reader_joined());
    l.writer_left(5 * S);
    l.tick(15 * S);
    assert_eq!(l.phase(), ReplayPhase::Finalizing);
    l.merge_finalized(15 * S);
    assert_eq!(l.phase(), ReplayPhase::Saving);
    l.save_finished(16 * S);
    assert_eq!(l.phase(), ReplayPhase::DrainingReaders);
    assert!(l.reader_joined());
    l.reader_left(17 * S);
    assert_eq!(l.phase(), ReplayPhase::DrainingReaders);
    l.reader_left(18 * S);
    assert_eq!(l.phase(), ReplayPhase::Terminated);
    assert!(!l.reader_joined());
}

#[test]
fn idle_timer_rearms_when_writers_return() {
    let mut l = ReplayLifecycle::new(0, 3600 * S, 10 * S);
    assert!(l.writer_joined());
    l.writer_left(5 * S);
    l.tick(14 * S);
    assert!(l.writer_joined());
    l.tick(30 * S);
    assert_eq!(l.phase(), ReplayPhase::Accepting);
    l.writer_left(31 * S);
    l.tick(40 * S);
    assert_eq!(l.phase(), ReplayPhase::Accepting);
    l.tick(41 * S);
    assert_eq!(l.phase(), ReplayPhase::Finalizing);
}

#[test]
fn shutdown_cancels_and_terminates_once_connections_close() {
    let mut l = ReplayLifecycle::new(0, 3600 * S, 10 * S);
    assert!(l.writer_joined());
    assert!(l.reader_joined());
    l.shutdown();
    assert_eq!(l.phase(), ReplayPhase::Cancelled);
    assert!(!l.writer_joined());
    l.writer_left(S);
    assert_eq!(l.phase(), ReplayPhase::Cancelled);
    l.reader_left(S);
    assert_eq!(l.phase(), ReplayPhase::Terminated);
    let mut empty = ReplayLifecycle::new(0, 3600 * S, 10 * S);
    empty.shutdown();
    assert_eq!(empty.phase(), ReplayPhase::Terminated);
}

#[test]
fn delay_tracker_reports_old_lengths() {
    let mut d = DelayTracker::new(300);
    assert_eq!(d.delayed_len(0), 0);
    d.record(100, 10);
    d.record(200, 50);
    d.record(150, 60); // back in time: ignored
    d.record(250, 40); // shorter: ignored
    d.record(350, 70);
    assert_eq!(d.delayed_len(399), 0);
    assert_eq!(d.delayed_len(400), 10);
    assert_eq!(d.delayed_len(550), 50);
    assert_eq!(d.delayed_len(560), 50);
    assert_eq!(d.delayed_len(10_000), 70);
}

#[test]
fn registry_assignment() {
    assert_eq!(assign_connection(None, ConnectionType::WRITER), Assignment::CreateAndHand);
    assert_eq!(assign_connection(None, ConnectionType::READER), Assignment::CreateAndHand);
    assert_eq!(assign_connection(Some(true), ConnectionType::WRITER), Assignment::Hand);
    assert_eq!(assign_connection(Some(false), ConnectionType::WRITER), Assignment::Reject);
    assert_eq!(assign_connection(Some(false), ConnectionType::READER), Assignment::Hand);
}
