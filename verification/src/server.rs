//! The protocol server's dispatch: what one decoded client request is
//! answered with, against the directory state as of one serialization
//! point.
//!
//! The surrounding process accepts connections, reads and decodes one
//! frame at a time, and writes the reply back; a decode or transport
//! failure ends only that connection.

use vstd::prelude::*;
use crate::store::{active_response_ok, spender_txids, DirectoryStore};
use crate::types::{TrackerClientToServer, TrackerServerToClient};
use crate::model::MempoolTx;

verus! {

/// What dispatching one request yields: a reply to send back, or the
/// admission that the request kind is reserved and unimplemented, which
/// the caller reports without aborting the connection.
pub enum HandleOutcome {
    Reply(TrackerServerToClient),
    NotImplemented,
}

/// Answers one decoded client request: `Get` lists the active addresses,
/// `Watch` lists the mempool transactions spending the outpoint, and the
/// reserved `Post` and `Pong` kinds are unimplemented.
pub fn handle_request(store: &DirectoryStore, req: &TrackerClientToServer) -> (r: HandleOutcome)
    requires
        store.wf(),
    ensures
        req is Get ==> (r matches HandleOutcome::Reply(resp) && resp
            matches TrackerServerToClient::Address { addresses } && active_response_ok(
            store.servers_map(),
            addresses@,
        )),
        req matches TrackerClientToServer::Watch { outpoint } ==> (r
            matches HandleOutcome::Reply(resp) && resp
            matches TrackerServerToClient::WatchResponse { mempool_tx } && mempool_tx@.map_values(
            |t: MempoolTx| t@.txid,
        ) == spender_txids(store.mempool_inputs_seq(), outpoint@) && (forall|i: int|
            0 <= i < mempool_tx@.len() ==> store.mempool_map().contains_key(
                (#[trigger] mempool_tx@[i])@.txid,
            ) && mempool_tx@[i]@.seen_at == store.mempool_map()[mempool_tx@[i]@.txid])),
        req is Post || req is Pong ==> r is NotImplemented,
{
    match req {
        TrackerClientToServer::Get => {
            let addresses = store.query_active();
            HandleOutcome::Reply(TrackerServerToClient::Address { addresses })
        },
        TrackerClientToServer::Watch { outpoint } => {
            let mempool_tx = store.watch_utxo(outpoint);
            HandleOutcome::Reply(TrackerServerToClient::WatchResponse { mempool_tx })
        },
        TrackerClientToServer::Post { metadata: _ } => HandleOutcome::NotImplemented,
        TrackerClientToServer::Pong { address: _ } => HandleOutcome::NotImplemented,
    }
}

} // verus!
