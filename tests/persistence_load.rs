use mycelium_bridge::config::{BridgeConfig, DiscoveryConfig};
use mycelium_bridge::persistence::PersistenceManager;
use mycelium_bridge::types::{ServerCapacity, ServerInfo, ServerStatus};

fn record(name: &str, last_seen: i64) -> ServerInfo {
    ServerInfo {
        server_name: name.to_string(),
        mycelium_address: "addr".to_string(),
        public_key: String::new(),
        capabilities: vec![],
        capacity: ServerCapacity { max_users: 1, current_users: 0, available: true },
        last_seen,
        status: ServerStatus::Online,
    }
}

#[test]
fn save_then_load_keeps_records_inside_the_window() {
    let now: i64 = 10_000_000;
    let records = vec![record("a", now - 60), record("b", now - 25 * 3600), record("c", now - 24 * 3600), record("d", now)];
    let snap = PersistenceManager::make_snapshot(records, now);
    assert_eq!(snap.format_version, "1");
    assert_eq!(snap.saved_at, now);
    let loaded = PersistenceManager::load_outcome(Some(snap), now, 24);
    let names: Vec<&str> = loaded.records.iter().map(|r| r.server_name.as_str()).collect();
    assert_eq!(names, vec!["a", "d"]);
    assert_eq!(loaded.dropped, 2);
}

#[test]
fn unreadable_snapshot_loads_empty() {
    let loaded = PersistenceManager::load_outcome(None, 5, 24);
    assert!(loaded.records.is_empty());
    assert_eq!(loaded.dropped, 0);
}

#[test]
fn restore_fills_a_directory_up_to_its_bound() {
    let reg = PersistenceManager::restore(vec![record("a", 1), record("b", 2), record("a", 3), record("c", 4)], 2);
    assert_eq!(reg.len(), 2);
    assert_eq!(reg.get("a").unwrap().last_seen, 3);
    assert!(reg.get("c").is_none());
}

#[test]
fn manager_keeps_its_settings() {
    let m = PersistenceManager::new(Some("servers.json".to_string()), 60);
    assert_eq!(m.path().as_deref(), Some("servers.json"));
    assert_eq!(m.save_interval_seconds(), 60);
}

#[test]
fn defaults() {
    let b = BridgeConfig::default();
    assert_eq!(b.server_name, "matrix.localhost");
    assert_eq!(b.max_users, 1000);
    let d = DiscoveryConfig::default();
    assert_eq!(d.server.port, 3000);
    assert_eq!(d.cleanup.stale_threshold_minutes, 10);
    assert_eq!(d.cleanup.max_offline_duration_hours, 24);
    assert_eq!(d.persistence.file_path.as_deref(), Some("servers.json"));
}
