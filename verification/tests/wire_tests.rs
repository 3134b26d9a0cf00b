use tracker::server::{handle_request, HandleOutcome};
use tracker::store::DirectoryStore;
use tracker::types::{ServerInfo, TrackerClientToServer, TrackerServerToClient, UpdateCmd};
use tracker::wire::{
    frame_len_ok, frame_message, parse_frame, parse_frame_header, MAX_FRAME_LEN, TRACKER_TAG,
};

#[test]
fn test_frame_round_trip() {
    let body = vec![1u8, 2, 3, 4, 5];
    let frame = frame_message(TRACKER_TAG, &body).unwrap();
    assert_eq!(frame.len(), body.len() + 5);
    let (tag, parsed) = parse_frame(&frame).unwrap();
    assert_eq!(tag, TRACKER_TAG);
    assert_eq!(parsed, body);
}

#[test]
fn test_frame_round_trip_empty_body() {
    let frame = frame_message(0x07, &vec![]).unwrap();
    assert_eq!(frame, vec![0, 0, 0, 1, 0x07]);
    let (tag, parsed) = parse_frame(&frame).unwrap();
    assert_eq!(tag, 0x07);
    assert!(parsed.is_empty());
}

#[test]
fn test_frame_header_is_big_endian() {
    assert_eq!(parse_frame_header(&[0, 1, 2, 3]), 0x00010203);
    assert_eq!(parse_frame_header(&[0xff, 0, 0, 1]), 0xff000001);
}

#[test]
fn test_frame_length_bound() {
    assert!(frame_len_ok(1));
    assert!(frame_len_ok(MAX_FRAME_LEN));
    assert!(!frame_len_ok(0));
    assert!(!frame_len_ok(MAX_FRAME_LEN + 1));

    // a body that would push the frame over the bound is refused
    let oversize = vec![0u8; MAX_FRAME_LEN as usize];
    assert!(frame_message(TRACKER_TAG, &oversize).is_none());
    let largest = vec![0u8; MAX_FRAME_LEN as usize - 1];
    assert!(frame_message(TRACKER_TAG, &largest).is_some());
}

#[test]
fn test_parse_frame_rejects_malformed() {
    // too short for header and tag
    assert!(parse_frame(&vec![0, 0, 0, 1]).is_none());
    // length prefix does not match what follows
    assert!(parse_frame(&vec![0, 0, 0, 5, 2, 9]).is_none());
    // length prefix smaller than the payload present
    assert!(parse_frame(&vec![0, 0, 0, 1, 2, 9]).is_none());
}

#[test]
fn test_get_lists_exactly_the_active_addresses() {
    // the directory holds two active records and one stale one: the reply
    // to Get lists exactly the two active addresses, as a set
    let mut store = DirectoryStore::new();
    for addr in ["one.onion:1", "two.onion:2", "down.onion:3"] {
        store.add(
            addr.to_string(),
            ServerInfo {
                onion_address: addr.to_string(),
                cooldown: 0,
                stale: false,
            },
        );
    }
    store.update("down.onion:3", UpdateCmd::SetStale(true));

    let outcome = handle_request(&store, &TrackerClientToServer::Get);
    match outcome {
        HandleOutcome::Reply(TrackerServerToClient::Address { mut addresses }) => {
            addresses.sort();
            assert_eq!(
                addresses,
                vec!["one.onion:1".to_string(), "two.onion:2".to_string()]
            );
        }
        _ => panic!("Get must be answered with an address list"),
    }
}

#[test]
fn test_watch_request_answers_from_spend_graph() {
    let mut store = DirectoryStore::new();
    store.insert_mempool_tx("spender".to_string(), 12);
    store.insert_mempool_input(tracker::model::MempoolInput {
        txid: "spender".to_string(),
        input_txid: "escrow".to_string(),
        input_vout: 0,
    });

    let req = TrackerClientToServer::Watch {
        outpoint: tracker::model::OutPoint {
            txid: "escrow".to_string(),
            vout: 0,
        },
    };
    match handle_request(&store, &req) {
        HandleOutcome::Reply(TrackerServerToClient::WatchResponse { mempool_tx }) => {
            assert_eq!(mempool_tx.len(), 1);
            assert_eq!(mempool_tx[0].txid, "spender");
        }
        _ => panic!("Watch must be answered with a watch response"),
    }

    // an unspent outpoint gets an empty list, not an error
    let req = TrackerClientToServer::Watch {
        outpoint: tracker::model::OutPoint {
            txid: "escrow".to_string(),
            vout: 9,
        },
    };
    match handle_request(&store, &req) {
        HandleOutcome::Reply(TrackerServerToClient::WatchResponse { mempool_tx }) => {
            assert!(mempool_tx.is_empty());
        }
        _ => panic!("Watch must be answered with a watch response"),
    }
}

#[test]
fn test_reserved_requests_are_not_implemented() {
    let store = DirectoryStore::new();
    let post = TrackerClientToServer::Post {
        metadata: "m".to_string(),
    };
    assert!(matches!(
        handle_request(&store, &post),
        HandleOutcome::NotImplemented
    ));
    let pong = TrackerClientToServer::Pong {
        address: "a.onion:1".to_string(),
    };
    assert!(matches!(
        handle_request(&store, &pong),
        HandleOutcome::NotImplemented
    ));
}
