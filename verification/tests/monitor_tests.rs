use tracker::monitor::{due_for_probe, probe_decision, sweep_outcome, COOLDOWN_PERIOD};
use tracker::store::DirectoryStore;
use tracker::types::{DbRequest, ServerInfo};

fn record(addr: &str, cooldown: u64, stale: bool) -> ServerInfo {
    ServerInfo {
        onion_address: addr.to_string(),
        cooldown,
        stale,
    }
}

#[test]
fn test_due_for_probe_boundary() {
    let info = record("a.onion:1", 100, false);
    // elapsed exactly the cooldown window: not yet due
    assert!(!due_for_probe(&info, 100 + COOLDOWN_PERIOD));
    // one second past: due
    assert!(due_for_probe(&info, 100 + COOLDOWN_PERIOD + 1));
    // clock behind the record: not due
    assert!(!due_for_probe(&info, 99));
}

#[test]
fn test_sweep_outcome_first_pong_wins() {
    assert_eq!(sweep_outcome(&vec![None, None, None]), None);
    assert_eq!(
        sweep_outcome(&vec![None, Some("a.onion:1".to_string()), Some("b.onion:2".to_string())]),
        Some("a.onion:1".to_string())
    );
    assert_eq!(sweep_outcome(&vec![]), None);
}

#[test]
fn test_stale_marked_exactly_once() {
    // a non-stale record fails all three attempts: the store is told once,
    // and a later failed sweep is silent
    let mut store = DirectoryStore::new();
    let addr = "slow.onion:1".to_string();
    store.add(addr.clone(), record(&addr, 0, false));

    let outcome = sweep_outcome(&vec![None, None, None]);
    let info = store.query(&addr).unwrap();
    let req = probe_decision(&addr, &info, &outcome, 50).expect("first failed sweep writes");
    match req {
        DbRequest::Update(a, cmd) => {
            assert_eq!(a, addr);
            store.update(&a, cmd);
        }
        other => panic!("unexpected request: {:?}", other),
    }
    let info = store.query(&addr).unwrap();
    assert!(info.stale);

    // a fourth sweep with no successes must not write again
    let again = probe_decision(&addr, &info, &None, 60);
    assert!(again.is_none());
    let info = store.query(&addr).unwrap();
    assert!(info.stale);
}

#[test]
fn test_pong_refreshes_record() {
    let mut store = DirectoryStore::new();
    let addr = "up.onion:1".to_string();
    store.add(addr.clone(), record(&addr, 0, true));

    let outcome = Some(addr.clone());
    let info = store.query(&addr).unwrap();
    let req = probe_decision(&addr, &info, &outcome, 500).expect("a pong writes an update");
    match req {
        DbRequest::Update(a, cmd) => {
            assert_eq!(a, addr);
            store.update(&a, cmd);
        }
        other => panic!("unexpected request: {:?}", other),
    }
    let info = store.query(&addr).unwrap();
    assert_eq!(info.cooldown, 500);
    assert!(!info.stale);
}

#[test]
fn test_pong_claiming_other_address_refreshes_probed_record() {
    // the pong's claimed address does not pick which record is refreshed:
    // the update is keyed on the directory address that was probed
    let mut store = DirectoryStore::new();
    let addr = "up.onion:1".to_string();
    store.add(addr.clone(), record(&addr, 0, false));

    let outcome = Some("impostor.onion:9".to_string());
    let info = store.query(&addr).unwrap();
    let req = probe_decision(&addr, &info, &outcome, 700).expect("a pong writes an update");
    match req {
        DbRequest::Update(a, cmd) => {
            assert_eq!(a, addr);
            store.update(&a, cmd);
        }
        other => panic!("unexpected request: {:?}", other),
    }
    let info = store.query(&addr).unwrap();
    assert_eq!(info.cooldown, 700);
    assert!(!info.stale);
    // and no record appears for the claimed address
    assert!(store.query("impostor.onion:9").is_none());
}
