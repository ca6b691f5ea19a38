use vstd::prelude::*;
use vstd::string::*;

verus! {

#[derive(Debug, Clone)]
pub struct ServerSettings {
    pub port: u16,
    pub worker_threads: u32,
    pub connection_accept_timeout_s: u64,
}

#[derive(Debug, Clone)]
pub struct DatabaseSettings {
    pub host: String,
    pub port: u16,
    pub user: String,
    pub password: String,
    pub name: String,
}

#[derive(Debug, Clone)]
pub struct StorageSettings {
    pub vault_path: String,
}

#[derive(Debug, Clone)]
pub struct ReplaySettings {
    pub forced_timeout_s: u64,
    pub time_with_zero_writers_to_end_replay_s: u64,
    pub delay_s: u64,
    pub update_interval_ms: u64,
    pub merge_quorum_size: usize,
    pub stream_comparison_distance_b: usize,
}

/// The server's configuration.
#[derive(Debug, Clone)]
pub struct Settings {
    pub server: ServerSettings,
    pub database: DatabaseSettings,
    pub storage: StorageSettings,
    pub replay: ReplaySettings,
}

impl Settings {
    /// The settings used when nothing else is configured.
    pub fn default() -> (r: Self)
        ensures
            r.server.port == 15000,
            r.server.worker_threads == 8,
            r.server.connection_accept_timeout_s == 7200,
            r.database.host@ == "localhost"@,
            r.database.port == 3306,
            r.database.user@ == "root"@,
            r.database.password@ == "banana"@,
            r.database.name@ == "faf"@,
            r.storage.vault_path@ == "/tmp/foo"@,
            r.replay.forced_timeout_s == 3600 * 6,
            r.replay.time_with_zero_writers_to_end_replay_s == 10,
            r.replay.delay_s == 60 * 5,
            r.replay.update_interval_ms == 1000,
            r.replay.merge_quorum_size == 2,
            r.replay.stream_comparison_distance_b == 4096,
    {
        Settings {
            server: ServerSettings { port: 15000, worker_threads: 8, connection_accept_timeout_s: 7200 },
            database: DatabaseSettings {
                host: String::from_str("localhost"),
                port: 3306,
                user: String::from_str("root"),
                password: String::from_str("banana"),
                name: String::from_str("faf"),
            },
            storage: StorageSettings { vault_path: String::from_str("/tmp/foo") },
            replay: ReplaySettings {
                forced_timeout_s: 3600 * 6,
                time_with_zero_writers_to_end_replay_s: 10,
                delay_s: 60 * 5,
                update_interval_ms: 1000,
                merge_quorum_size: 2,
                stream_comparison_distance_b: 4096,
            },
        }
    }
}

} // verus!
