use tracker::announce::encode_push_direct;
use tracker::indexer::{
    process_block_tx, process_mempool_tx, scan_tx_for_announcement, Indexer, TxData, TxOut,
};
use tracker::model::OutPoint;
use tracker::store::DirectoryStore;

fn announcement_output(addr: &str) -> TxOut {
    TxOut {
        value: 0,
        script_pubkey: encode_push_direct(&addr.as_bytes().to_vec()),
    }
}

fn plain_output(value: u64) -> TxOut {
    TxOut {
        value,
        script_pubkey: vec![0x51],
    }
}

fn tx_with_outputs(txid: &str, lock_time: u32, outputs: Vec<TxOut>) -> TxData {
    TxData {
        txid: txid.to_string(),
        lock_time,
        inputs: vec![],
        outputs,
    }
}

#[test]
fn test_output_count_bounds_gate_the_scan() {
    let addr = "abc123.example:9001";
    // counts 1 and 6: never scanned, whatever the scripts hold
    let t1 = tx_with_outputs("t1", 5, vec![announcement_output(addr)]);
    assert_eq!(scan_tx_for_announcement(&t1), None);
    let t6 = tx_with_outputs(
        "t6",
        5,
        (0..6).map(|_| announcement_output(addr)).collect(),
    );
    assert_eq!(scan_tx_for_announcement(&t6), None);

    // counts 2 and 5: scanned
    let t2 = tx_with_outputs("t2", 5, vec![announcement_output(addr), plain_output(1)]);
    assert_eq!(scan_tx_for_announcement(&t2), Some(addr.to_string()));
    let mut outs = vec![announcement_output(addr)];
    outs.extend((0..4).map(|_| plain_output(1)));
    let t5 = tx_with_outputs("t5", 5, outs);
    assert_eq!(scan_tx_for_announcement(&t5), Some(addr.to_string()));
}

#[test]
fn test_zero_lock_time_is_never_scanned() {
    let addr = "abc123.example:9001";
    let tx = tx_with_outputs("t", 0, vec![announcement_output(addr), plain_output(1)]);
    assert_eq!(scan_tx_for_announcement(&tx), None);
}

#[test]
fn test_first_qualifying_output_wins() {
    let tx = tx_with_outputs(
        "t",
        5,
        vec![
            plain_output(1),
            announcement_output("first.example:1"),
            announcement_output("second.example:2"),
        ],
    );
    assert_eq!(scan_tx_for_announcement(&tx), Some("first.example:1".to_string()));
}

#[test]
fn test_block_ingestion_adds_directory_record() {
    // a block transaction with outputs [announcement, plain] in the valid
    // count range: the directory gains a fresh, non-stale record
    let mut store = DirectoryStore::new();
    let addr = "abc123.example:9001";
    let tx = TxData {
        txid: "blocktx".to_string(),
        lock_time: 100,
        inputs: vec![],
        outputs: vec![announcement_output(addr), plain_output(3)],
    };
    process_block_tx(&mut store, &tx, 42, 1700);

    let rec = store.query(addr).expect("directory record for the announced address");
    assert_eq!(rec.onion_address, addr);
    assert_eq!(rec.cooldown, 1700);
    assert!(!rec.stale);

    // and its outputs are confirmed rows at the block height
    let row = store.get_utxo("blocktx", 0).unwrap();
    assert!(row.confirmed);
    assert_eq!(row.block_height, Some(42));
    let row = store.get_utxo("blocktx", 1).unwrap();
    assert_eq!(row.value, 3);
}

#[test]
fn test_mempool_ingestion_records_everything_once() {
    let mut store = DirectoryStore::new();
    store.insert_utxo_if_absent(tracker::model::Utxo {
        txid: "funding".to_string(),
        vout: 0,
        value: 5000,
        script_pubkey: vec![0x51],
        confirmed: true,
        spent: false,
        spent_by_txid: None,
        block_height: Some(1),
    });

    let tx = TxData {
        txid: "spender".to_string(),
        lock_time: 9,
        inputs: vec![OutPoint {
            txid: "funding".to_string(),
            vout: 0,
        }],
        outputs: vec![plain_output(4000)],
    };
    process_mempool_tx(&mut store, &tx, 555);

    // the consumed row is spent-but-unconfirmed
    let row = store.get_utxo("funding", 0).unwrap();
    assert!(row.spent);
    assert!(!row.confirmed);
    assert_eq!(row.spent_by_txid, Some("spender".to_string()));

    // the new output is an unconfirmed row
    let row = store.get_utxo("spender", 0).unwrap();
    assert!(!row.confirmed);

    // the watch query sees the spend edge
    let watched = store.watch_utxo(&OutPoint {
        txid: "funding".to_string(),
        vout: 0,
    });
    assert_eq!(watched.len(), 1);
    assert_eq!(watched[0].txid, "spender");
    assert_eq!(watched[0].seen_at, 555);

    // re-ingesting the same transaction changes nothing: no second edge
    process_mempool_tx(&mut store, &tx, 777);
    let watched = store.watch_utxo(&OutPoint {
        txid: "funding".to_string(),
        vout: 0,
    });
    assert_eq!(watched.len(), 1);
    assert_eq!(watched[0].seen_at, 555);
}

#[test]
fn test_block_spend_confirms_mempool_projection() {
    let mut store = DirectoryStore::new();
    store.insert_utxo_if_absent(tracker::model::Utxo {
        txid: "funding".to_string(),
        vout: 0,
        value: 5000,
        script_pubkey: vec![0x51],
        confirmed: true,
        spent: false,
        spent_by_txid: None,
        block_height: Some(1),
    });
    let tx = TxData {
        txid: "spender".to_string(),
        lock_time: 9,
        inputs: vec![OutPoint {
            txid: "funding".to_string(),
            vout: 0,
        }],
        outputs: vec![plain_output(4000)],
    };
    // first seen in the mempool, then mined
    process_mempool_tx(&mut store, &tx, 555);
    process_block_tx(&mut store, &tx, 50, 600);

    let row = store.get_utxo("funding", 0).unwrap();
    assert!(row.spent);
    assert!(row.confirmed);
    // the spender's output row was created unconfirmed and is not
    // overwritten by the block pass
    let row = store.get_utxo("spender", 0).unwrap();
    assert!(!row.confirmed);
}

#[test]
fn test_mempool_reprocessing_never_downgrades_confirmation() {
    // a transaction is mined first, then shows up again in a mempool
    // snapshot: its confirmed output rows must keep their confirmation
    let mut store = DirectoryStore::new();
    let tx = TxData {
        txid: "mined".to_string(),
        lock_time: 9,
        inputs: vec![],
        outputs: vec![plain_output(1), plain_output(2)],
    };
    process_block_tx(&mut store, &tx, 30, 100);
    let row = store.get_utxo("mined", 0).unwrap();
    assert!(row.confirmed);

    process_mempool_tx(&mut store, &tx, 200);
    let row = store.get_utxo("mined", 0).unwrap();
    assert!(row.confirmed);
    assert_eq!(row.block_height, Some(30));
    let row = store.get_utxo("mined", 1).unwrap();
    assert!(row.confirmed);
}

#[test]
fn test_indexer_batches_and_watermark() {
    let mut store = DirectoryStore::new();
    let mut indexer = Indexer::new();
    assert_eq!(indexer.last_tip, 0);

    let (start, end) = indexer.cycle_range(10);
    assert_eq!((start, end), (0, 11));

    let block = vec![
        tx_with_outputs("a", 1, vec![plain_output(1), plain_output(2)]),
        tx_with_outputs("b", 1, vec![plain_output(3)]),
    ];
    indexer.process_block(&mut store, &block, 5, 100);
    assert!(store.get_utxo("a", 1).is_some());
    assert!(store.get_utxo("b", 0).is_some());

    let mempool = vec![tx_with_outputs("m", 1, vec![plain_output(9)])];
    indexer.process_mempool(&mut store, &mempool, 101);
    let row = store.get_utxo("m", 0).unwrap();
    assert!(!row.confirmed);

    indexer.commit(end);
    assert_eq!(indexer.last_tip, 11);
    let (start, _) = indexer.cycle_range(12);
    assert_eq!(start, 11);
}
