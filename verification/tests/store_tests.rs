use tracker::model::OutPoint;
use tracker::model::Utxo;
use tracker::store::DirectoryStore;
use tracker::types::{DbRequest, DbResponse, ServerInfo, UpdateCmd};

fn record(addr: &str, cooldown: u64, stale: bool) -> ServerInfo {
    ServerInfo {
        onion_address: addr.to_string(),
        cooldown,
        stale,
    }
}

fn utxo(txid: &str, vout: u32, confirmed: bool) -> Utxo {
    Utxo {
        txid: txid.to_string(),
        vout,
        value: 1000,
        script_pubkey: vec![0x51],
        confirmed,
        spent: false,
        spent_by_txid: None,
        block_height: if confirmed { Some(7) } else { None },
    }
}

#[test]
fn test_point_query_reflects_last_write() {
    let mut store = DirectoryStore::new();
    store.add("a.onion:1".to_string(), record("a.onion:1", 10, false));
    let got = store.query("a.onion:1").unwrap();
    assert_eq!(got.cooldown, 10);
    assert!(!got.stale);

    // overwrite by a later Add
    store.add("a.onion:1".to_string(), record("a.onion:1", 20, true));
    let got = store.query("a.onion:1").unwrap();
    assert_eq!(got.cooldown, 20);
    assert!(got.stale);

    // field-level update wins over the Add before it
    store.update("a.onion:1", UpdateCmd::SetBoth(30, false));
    let got = store.query("a.onion:1").unwrap();
    assert_eq!(got.cooldown, 30);
    assert!(!got.stale);

    store.update("a.onion:1", UpdateCmd::SetStale(true));
    let got = store.query("a.onion:1").unwrap();
    assert_eq!(got.cooldown, 30);
    assert!(got.stale);

    store.update("a.onion:1", UpdateCmd::SetLastSeen(44));
    let got = store.query("a.onion:1").unwrap();
    assert_eq!(got.cooldown, 44);
    assert!(got.stale);
}

#[test]
fn test_update_on_missing_address_is_noop() {
    let mut store = DirectoryStore::new();
    store.add("known.onion:1".to_string(), record("known.onion:1", 1, false));
    store.update("ghost.onion:9", UpdateCmd::SetStale(true));
    assert!(store.query("ghost.onion:9").is_none());
    // and nothing else moved
    let got = store.query("known.onion:1").unwrap();
    assert_eq!(got.cooldown, 1);
    assert!(!got.stale);
}

#[test]
fn test_query_all_and_active() {
    let mut store = DirectoryStore::new();
    store.add("a.onion:1".to_string(), record("a.onion:1", 1, false));
    store.add("b.onion:2".to_string(), record("b.onion:2", 2, true));
    store.add("c.onion:3".to_string(), record("c.onion:3", 3, false));

    let all = store.query_all();
    assert_eq!(all.len(), 3);

    let mut active = store.query_active();
    active.sort();
    assert_eq!(active, vec!["a.onion:1".to_string(), "c.onion:3".to_string()]);
}

#[test]
fn test_confirmed_utxo_never_downgraded() {
    let mut store = DirectoryStore::new();
    store.insert_utxo_if_absent(utxo("tx1", 0, true));
    // a later mempool reprocessing tries to re-insert the same outpoint
    // unconfirmed: the confirmed row must stand
    store.insert_utxo_if_absent(utxo("tx1", 0, false));
    let row = store.get_utxo("tx1", 0).unwrap();
    assert!(row.confirmed);
    assert_eq!(row.block_height, Some(7));

    // a different outpoint of the same transaction is a fresh row
    store.insert_utxo_if_absent(utxo("tx1", 1, false));
    let row = store.get_utxo("tx1", 1).unwrap();
    assert!(!row.confirmed);
}

#[test]
fn test_watch_utxo_sees_edge_once_recorded() {
    let mut store = DirectoryStore::new();
    let outpoint = OutPoint {
        txid: "funding".to_string(),
        vout: 1,
    };
    // before any edge exists: nothing
    assert!(store.watch_utxo(&outpoint).is_empty());

    store.insert_mempool_tx("spender".to_string(), 99);
    assert!(store.watch_utxo(&outpoint).is_empty());

    store.insert_mempool_input(tracker::model::MempoolInput {
        txid: "spender".to_string(),
        input_txid: "funding".to_string(),
        input_vout: 1,
    });
    let watched = store.watch_utxo(&outpoint);
    assert_eq!(watched.len(), 1);
    assert_eq!(watched[0].txid, "spender");
    assert_eq!(watched[0].seen_at, 99);

    // an edge for another outpoint is not reported
    let other = OutPoint {
        txid: "funding".to_string(),
        vout: 2,
    };
    assert!(store.watch_utxo(&other).is_empty());
}

#[test]
fn test_mark_utxo_spent_transitions() {
    let mut store = DirectoryStore::new();
    store.insert_utxo_if_absent(utxo("tx1", 0, true));

    // a mempool spend: spent, spend not confirmed
    store.mark_utxo_spent("tx1", 0, Some("spender"), false);
    let row = store.get_utxo("tx1", 0).unwrap();
    assert!(row.spent);
    assert!(!row.confirmed);
    assert_eq!(row.spent_by_txid, Some("spender".to_string()));

    // the block spend overwrites the unconfirmed-spend projection
    store.mark_utxo_spent("tx1", 0, Some("spender"), true);
    let row = store.get_utxo("tx1", 0).unwrap();
    assert!(row.spent);
    assert!(row.confirmed);

    // marking an unknown outpoint changes nothing
    store.mark_utxo_spent("ghost", 3, Some("x"), true);
    assert!(store.get_utxo("ghost", 3).is_none());
}

#[test]
fn test_handle_processes_each_request_kind() {
    let mut store = DirectoryStore::new();

    let resp = store.handle(DbRequest::Add(
        "a.onion:1".to_string(),
        record("a.onion:1", 5, false),
    ));
    assert!(matches!(resp, DbResponse::Done));

    let resp = store.handle(DbRequest::Query("a.onion:1".to_string()));
    match resp {
        DbResponse::Record(Some(info)) => {
            assert_eq!(info.onion_address, "a.onion:1");
            assert_eq!(info.cooldown, 5);
        }
        other => panic!("unexpected response: {:?}", other),
    }

    let resp = store.handle(DbRequest::Update(
        "a.onion:1".to_string(),
        UpdateCmd::SetStale(true),
    ));
    assert!(matches!(resp, DbResponse::Done));

    let resp = store.handle(DbRequest::QueryActive);
    match resp {
        DbResponse::Active(addrs) => assert!(addrs.is_empty()),
        other => panic!("unexpected response: {:?}", other),
    }

    let resp = store.handle(DbRequest::QueryAll);
    match resp {
        DbResponse::All(rows) => assert_eq!(rows.len(), 1),
        other => panic!("unexpected response: {:?}", other),
    }

    let resp = store.handle(DbRequest::WatchUtxo(OutPoint {
        txid: "none".to_string(),
        vout: 0,
    }));
    match resp {
        DbResponse::Watch(txs) => assert!(txs.is_empty()),
        other => panic!("unexpected response: {:?}", other),
    }
}
