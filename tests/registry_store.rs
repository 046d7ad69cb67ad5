use mycelium_bridge::registry::{RegistryError, ServerRegistry};
use mycelium_bridge::types::{ServerCapacity, ServerInfo, ServerStatus};

fn record(name: &str, current: u32, available: bool, last_seen: i64) -> ServerInfo {
    ServerInfo {
        server_name: name.to_string(),
        mycelium_address: format!("addr-{}", name),
        public_key: String::new(),
        capabilities: vec!["matrix_federation".to_string()],
        capacity: ServerCapacity { max_users: 100, current_users: current, available },
        last_seen,
        status: ServerStatus::Online,
    }
}

#[test]
fn upserts_on_one_name_keep_the_last() {
    let mut reg = ServerRegistry::new(10);
    assert_eq!(reg.upsert(record("a", 1, true, 10)), Ok(false));
    assert_eq!(reg.upsert(record("a", 2, true, 20)), Ok(true));
    assert_eq!(reg.upsert(record("a", 3, false, 30)), Ok(true));
    assert_eq!(reg.len(), 1);
    let got = reg.get("a").unwrap();
    assert_eq!(got.capacity.current_users, 3);
    assert!(!got.capacity.available);
    assert_eq!(got.last_seen, 30);
}

#[test]
fn new_name_at_capacity_is_refused_existing_name_is_not() {
    let mut reg = ServerRegistry::new(2);
    assert_eq!(reg.upsert(record("a", 1, true, 10)), Ok(false));
    assert_eq!(reg.upsert(record("b", 1, true, 10)), Ok(false));
    assert_eq!(reg.upsert(record("c", 1, true, 10)), Err(RegistryError::CapacityExceeded));
    assert!(reg.get("c").is_none());
    assert_eq!(reg.upsert(record("b", 7, true, 11)), Ok(true));
    assert_eq!(reg.get("b").unwrap().capacity.current_users, 7);
    assert_eq!(reg.len(), 2);
}

#[test]
fn empty_name_or_address_is_a_validation_error() {
    let mut reg = ServerRegistry::new(2);
    assert_eq!(reg.upsert(record("", 1, true, 10)), Err(RegistryError::ValidationError));
    let mut r = record("a", 1, true, 10);
    r.mycelium_address = String::new();
    assert_eq!(reg.upsert(r), Err(RegistryError::ValidationError));
    assert_eq!(reg.len(), 0);
}

#[test]
fn select_picks_least_loaded_available_peer() {
    let mut reg = ServerRegistry::new(10);
    reg.upsert(record("A", 5, true, 10)).unwrap();
    reg.upsert(record("B", 2, true, 10)).unwrap();
    reg.upsert(record("C", 0, false, 10)).unwrap();
    assert_eq!(reg.select_server(None).unwrap().server_name, "B");
}

#[test]
fn select_breaks_ties_by_name() {
    let mut reg = ServerRegistry::new(10);
    reg.upsert(record("zeta", 2, true, 10)).unwrap();
    reg.upsert(record("alpha", 2, true, 10)).unwrap();
    reg.upsert(record("mid", 2, true, 10)).unwrap();
    assert_eq!(reg.select_server(None).unwrap().server_name, "alpha");
}

#[test]
fn select_over_empty_or_unavailable_is_none() {
    let reg = ServerRegistry::new(10);
    assert!(reg.select_server(None).is_none());
    let mut reg = ServerRegistry::new(10);
    reg.upsert(record("a", 0, false, 10)).unwrap();
    reg.upsert(record("b", 0, false, 10)).unwrap();
    assert!(reg.select_server(None).is_none());
}

#[test]
fn select_skips_offline_and_filters_by_capability() {
    let mut reg = ServerRegistry::new(10);
    let mut off = record("off", 0, true, 10);
    off.status = ServerStatus::Offline;
    reg.upsert(off).unwrap();
    let mut special = record("special", 9, true, 10);
    special.capabilities.push("tf_connect_auth".to_string());
    reg.upsert(special).unwrap();
    reg.upsert(record("plain", 1, true, 10)).unwrap();
    assert_eq!(reg.select_server(None).unwrap().server_name, "plain");
    let cap = "tf_connect_auth".to_string();
    assert_eq!(reg.select_server(Some(&cap)).unwrap().server_name, "special");
    let missing = "nothing".to_string();
    assert!(reg.select_server(Some(&missing)).is_none());
}

#[test]
fn list_filters_by_availability_and_capability() {
    let mut reg = ServerRegistry::new(10);
    reg.upsert(record("a", 0, true, 10)).unwrap();
    reg.upsert(record("b", 0, false, 10)).unwrap();
    let mut c = record("c", 0, true, 10);
    c.capabilities = vec!["other".to_string()];
    reg.upsert(c).unwrap();
    assert_eq!(reg.list(false, None).len(), 3);
    let mut names: Vec<String> = reg.list(true, None).iter().map(|r| r.server_name.clone()).collect();
    names.sort();
    assert_eq!(names, vec!["a".to_string(), "c".to_string()]);
    let cap = "matrix_federation".to_string();
    let mut names: Vec<String> = reg.list(false, Some(&cap)).iter().map(|r| r.server_name.clone()).collect();
    names.sort();
    assert_eq!(names, vec!["a".to_string(), "b".to_string()]);
    assert_eq!(reg.list(true, Some(&cap)).len(), 1);
}

#[test]
fn remove_reports_whether_a_record_existed() {
    let mut reg = ServerRegistry::new(10);
    reg.upsert(record("a", 0, true, 10)).unwrap();
    assert!(reg.remove("a"));
    assert!(!reg.remove("a"));
    assert!(reg.get("a").is_none());
    assert_eq!(reg.len(), 0);
}

#[test]
fn sweeper_evicts_only_stale_records_and_counts_them() {
    let mut reg = ServerRegistry::new(10);
    let now: i64 = 1_000_000;
    reg.upsert(record("old1", 0, true, now - 11 * 60)).unwrap();
    reg.upsert(record("old2", 0, true, now - 3600)).unwrap();
    reg.upsert(record("edge", 0, true, now - 10 * 60)).unwrap();
    reg.upsert(record("fresh", 0, true, now - 5)).unwrap();
    let evicted = reg.cleanup_stale_servers(now, 10);
    assert_eq!(evicted, 2);
    assert!(reg.get("old1").is_none());
    assert!(reg.get("old2").is_none());
    assert_eq!(reg.get("edge").unwrap().last_seen, now - 10 * 60);
    assert_eq!(reg.get("fresh").unwrap().last_seen, now - 5);
    assert_eq!(reg.cleanup_stale_servers(now, 10), 0);
}

#[test]
fn stats_count_and_sum() {
    let mut reg = ServerRegistry::new(10);
    reg.upsert(record("a", 30, true, 10)).unwrap();
    reg.upsert(record("b", 70, false, 10)).unwrap();
    let mut c = record("c", 1, true, 10);
    c.status = ServerStatus::Unknown;
    reg.upsert(c).unwrap();
    let s = reg.stats();
    assert_eq!(s.total_servers, 3);
    assert_eq!(s.online_servers, 2);
    assert_eq!(s.available_servers, 2);
    assert_eq!(s.total_capacity, 300);
    assert_eq!(s.total_users, 101);
    assert_eq!(s.utilization_percent, 34);
    assert_eq!(ServerRegistry::new(3).stats().utilization_percent, 0);
}

fn versioned(i: u32) -> ServerInfo {
    let mut r = record("peer", i, true, i as i64);
    r.mycelium_address = format!("addr-{}", i);
    r.capabilities = vec![format!("v{}", i)];
    r
}

#[test]
fn readers_never_see_a_torn_record() {
    let rt = tokio::runtime::Builder::new_multi_thread().worker_threads(4).build().unwrap();
    rt.block_on(async {
        let reg = std::sync::Arc::new(tokio::sync::RwLock::new(ServerRegistry::new(4)));
        reg.write().await.upsert(versioned(0)).unwrap();
        let writer = {
            let reg = reg.clone();
            tokio::spawn(async move {
                for i in 1..2000u32 {
                    assert_eq!(reg.write().await.upsert(versioned(i)), Ok(true));
                    tokio::task::yield_now().await;
                }
            })
        };
        let mut readers = Vec::new();
        for _ in 0..4 {
            let reg = reg.clone();
            readers.push(tokio::spawn(async move {
                for _ in 0..2000 {
                    let guard = reg.read().await;
                    let r = guard.get("peer").unwrap();
                    let v = r.last_seen;
                    assert_eq!(r.capacity.current_users as i64, v);
                    assert_eq!(r.mycelium_address, format!("addr-{}", v));
                    assert_eq!(r.capabilities, vec![format!("v{}", v)]);
                    drop(guard);
                    tokio::task::yield_now().await;
                }
            }));
        }
        writer.await.unwrap();
        for r in readers {
            r.await.unwrap();
        }
        assert_eq!(reg.read().await.len(), 1);
    });
}

#[test]
fn last_seen_never_moves_backward() {
    let mut reg = ServerRegistry::new(4);
    reg.upsert(record("a", 1, true, 500)).unwrap();
    assert_eq!(reg.upsert(record("a", 9, false, 100)), Ok(true));
    let got = reg.get("a").unwrap();
    assert_eq!(got.last_seen, 500);
    assert_eq!(got.capacity.current_users, 9);
    assert!(!got.capacity.available);
    reg.upsert(record("a", 2, true, 700)).unwrap();
    assert_eq!(reg.get("a").unwrap().last_seen, 700);
}
