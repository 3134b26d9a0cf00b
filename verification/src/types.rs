//! Core data types of the tracker: provider records, the directory store's
//! request/response unions, and the framed-protocol message unions.

use vstd::prelude::*;
use vstd::slice::slice_index_get;
use vstd::string::StringSliceAdditionalSpecFns;
use vstd::utf8::encode_utf8_decode_utf8;
use crate::model::{MempoolTx, OutPoint};

verus! {

/// Whether two strings read the same, decided byte by byte.
pub fn str_eq(a: &str, b: &str) -> (r: bool)
    ensures
        r == (a@ == b@),
{
    let ab = a.as_bytes();
    let bb = b.as_bytes();
    proof {
        if a@ == b@ {
            assert(a.spec_bytes() == b.spec_bytes());
        }
    }
    if ab.len() != bb.len() {
        return false;
    }
    let n = ab.len();
    let mut i: usize = 0;
    while i < n
        invariant
            i <= n,
            n == ab@.len() && n == bb@.len(),
            ab@ == a.spec_bytes(),
            bb@ == b.spec_bytes(),
            forall|j: int| 0 <= j < i ==> ab@[j] == bb@[j],
        decreases n - i,
    {
        if *slice_index_get(ab, i) != *slice_index_get(bb, i) {
            proof {
                if a@ == b@ {
                    assert(a.spec_bytes() == b.spec_bytes());
                }
            }
            return false;
        }
        i += 1;
    }
    proof {
        assert(a.spec_bytes() =~= b.spec_bytes());
        encode_utf8_decode_utf8(a@);
        encode_utf8_decode_utf8(b@);
    }
    true
}

/// Liveness record for one provider: the rendezvous address it announced,
/// the timestamp (in seconds) of the last successful contact, and whether
/// recent probing has marked it stale.
#[derive(Clone, Debug)]
pub struct ServerInfo {
    pub onion_address: String,
    pub cooldown: u64,
    pub stale: bool,
}

/// Mathematical value of a `ServerInfo`.
pub struct ServerInfoV {
    pub onion_address: Seq<char>,
    pub cooldown: u64,
    pub stale: bool,
}

impl View for ServerInfo {
    type V = ServerInfoV;

    open spec fn view(&self) -> ServerInfoV {
        ServerInfoV { onion_address: self.onion_address@, cooldown: self.cooldown, stale: self.stale }
    }
}

impl ServerInfo {
    /// A field-for-field copy whose value equals this record's.
    pub fn duplicate(&self) -> (r: ServerInfo)
        ensures
            r@ == self@,
    {
        ServerInfo { onion_address: self.onion_address.clone(), cooldown: self.cooldown, stale: self.stale }
    }
}

/// A field-level change to an existing directory record, carried as plain
/// data so the store alone applies it.
#[derive(Clone, Debug)]
pub enum UpdateCmd {
    SetLastSeen(u64),
    SetStale(bool),
    SetBoth(u64, bool),
}

/// What applying an update command to a record's value yields.
pub open spec fn apply_update(v: ServerInfoV, cmd: UpdateCmd) -> ServerInfoV {
    match cmd {
        UpdateCmd::SetLastSeen(t) => ServerInfoV { cooldown: t, ..v },
        UpdateCmd::SetStale(s) => ServerInfoV { stale: s, ..v },
        UpdateCmd::SetBoth(t, s) => ServerInfoV { cooldown: t, stale: s, ..v },
    }
}

/// The directory store's mailbox message: one request, processed to
/// completion before the next.
#[derive(Debug)]
pub enum DbRequest {
    /// Insert or overwrite the record for an address.
    Add(String, ServerInfo),
    /// Look up one address.
    Query(String),
    /// Snapshot of all (address, record) pairs.
    QueryAll,
    /// All addresses whose record is not stale.
    QueryActive,
    /// Apply a field-level change to an existing record; a no-op for an
    /// address never added.
    Update(String, UpdateCmd),
    /// The mempool transactions whose input edges spend this outpoint.
    WatchUtxo(OutPoint),
}

/// The store's answer to one `DbRequest`.
#[derive(Debug)]
pub enum DbResponse {
    /// Answer to a mutation: nothing to report.
    Done,
    /// Answer to `Query`.
    Record(Option<ServerInfo>),
    /// Answer to `QueryAll`.
    All(Vec<(String, ServerInfo)>),
    /// Answer to `QueryActive`.
    Active(Vec<String>),
    /// Answer to `WatchUtxo`.
    Watch(Vec<MempoolTx>),
}

/// Requests a client (or a probed peer) sends over the framed protocol.
#[derive(Clone, Debug)]
pub enum TrackerClientToServer {
    /// Ask for the active (non-stale) provider addresses.
    Get,
    /// Reserved for future metadata submission; answered "not implemented".
    Post { metadata: String },
    /// A peer's answer to a liveness ping, carrying its claimed address.
    Pong { address: String },
    /// Ask which mempool transactions spend the given outpoint.
    Watch { outpoint: OutPoint },
}

/// Responses the tracker sends over the framed protocol.
#[derive(Clone, Debug)]
pub enum TrackerServerToClient {
    /// The active provider addresses.
    Address { addresses: Vec<String> },
    /// The mempool transactions spending a watched outpoint.
    WatchResponse { mempool_tx: Vec<MempoolTx> },
    /// The liveness probe request, carrying this tracker's own address.
    Ping { address: String, port: u16 },
}

} // verus!
