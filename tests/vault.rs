use replay_server::config::Settings;
use replay_server::vault::replay_path;

#[test]
fn vault_path_pads_short_ids() {
    assert_eq!(replay_path(2), b"0/0/0/0/2.fafreplay".to_vec());
    assert_eq!(replay_path(0), b"0/0/0/0/0.fafreplay".to_vec());
    assert_eq!(replay_path(987), b"0/0/0/9/987.fafreplay".to_vec());
}

#[test]
fn vault_path_shards_long_ids() {
    assert_eq!(replay_path(1234), b"0/0/0/12/1234.fafreplay".to_vec());
    assert_eq!(replay_path(123456), b"0/0/12/34/123456.fafreplay".to_vec());
    assert_eq!(replay_path(100000000), b"1/0/0/0/100000000.fafreplay".to_vec());
    assert_eq!(replay_path(4294967295), b"42/94/96/72/4294967295.fafreplay".to_vec());
}

#[test]
fn default_settings() {
    let s = Settings::default();
    assert_eq!(s.server.port, 15000);
    assert_eq!(s.server.worker_threads, 8);
    assert_eq!(s.server.connection_accept_timeout_s, 7200);
    assert_eq!(s.database.host, "localhost");
    assert_eq!(s.database.port, 3306);
    assert_eq!(s.database.user, "root");
    assert_eq!(s.database.password, "banana");
    assert_eq!(s.database.name, "faf");
    assert_eq!(s.storage.vault_path, "/tmp/foo");
    assert_eq!(s.replay.forced_timeout_s, 21600);
    assert_eq!(s.replay.time_with_zero_writers_to_end_replay_s, 10);
    assert_eq!(s.replay.delay_s, 300);
    assert_eq!(s.replay.update_interval_ms, 1000);
    assert_eq!(s.replay.merge_quorum_size, 2);
    assert_eq!(s.replay.stream_comparison_distance_b, 4096);
}
