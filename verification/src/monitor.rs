//! The liveness monitor's decisions: which records a sweep probes, what a
//! record's attempts amount to, and what the store is told afterwards.
//!
//! The surrounding process opens the proxied connections and exchanges the
//! ping/pong pair; each attempt's result comes back here as the pong's
//! claimed address, or nothing.

use vstd::prelude::*;
use crate::store::apply_request;
use crate::types::{DbRequest, ServerInfo, ServerInfoV, UpdateCmd};

verus! {

/// Seconds since the last successful contact under which a record is left
/// alone.
pub const COOLDOWN_PERIOD: u64 = 5;

/// How many connection attempts one sweep makes for one record.
pub const PROBE_ATTEMPTS: usize = 3;

/// Seconds between attempts for one record.
pub const RETRY_BACKOFF_SECS: u64 = 1;

/// Seconds between full directory sweeps.
pub const SWEEP_INTERVAL_SECS: u64 = 4;

/// Whether a record's time since last success exceeds the cooldown window,
/// so this sweep probes it.
pub fn due_for_probe(info: &ServerInfo, now: u64) -> (r: bool)
    ensures
        r == (now - info.cooldown > COOLDOWN_PERIOD),
{
    now > info.cooldown && now - info.cooldown > COOLDOWN_PERIOD
}

/// The first pong among a record's attempt results, if any attempt got one.
pub open spec fn spec_first_pong(attempts: Seq<Option<String>>) -> Option<Seq<char>>
    decreases attempts.len(),
{
    if attempts.len() == 0 {
        None
    } else {
        match attempts.first() {
            Some(peer) => Some(peer@),
            None => spec_first_pong(attempts.drop_first()),
        }
    }
}

/// Folds one record's attempt results: the first successful pong wins and
/// later attempts are not consulted.
pub fn sweep_outcome(attempts: &Vec<Option<String>>) -> (r: Option<String>)
    ensures
        r is Some <==> spec_first_pong(attempts@) is Some,
        r matches Some(peer) ==> spec_first_pong(attempts@) == Some(peer@),
{
    let n = attempts.len();
    let mut i: usize = 0;
    while i < n
        invariant
            i <= n,
            n == attempts@.len(),
            forall|j: int| 0 <= j < i ==> (#[trigger] attempts@[j]) is None,
        decreases n - i,
    {
        match &attempts[i] {
            Some(peer) => {
                proof {
                    lemma_first_pong_skip(attempts@, i as int);
                    assert(attempts@.skip(i as int).first() == attempts@[i as int]);
                }
                return Some(peer.clone());
            },
            None => {
            },
        }
        i += 1;
    }
    proof {
        lemma_first_pong_skip(attempts@, n as int);
    }
    None
}

/// The fold starts at the first attempt whose predecessors all failed.
proof fn lemma_first_pong_skip(attempts: Seq<Option<String>>, k: int)
    requires
        0 <= k <= attempts.len(),
        forall|j: int| 0 <= j < k ==> (#[trigger] attempts[j]) is None,
    ensures
        spec_first_pong(attempts) == spec_first_pong(attempts.skip(k)),
    decreases k,
{
    if k > 0 {
        lemma_first_pong_skip(attempts, k - 1);
        let tail = attempts.skip(k - 1);
        assert(tail.first() == attempts[k - 1]);
        assert(tail.drop_first() =~= attempts.skip(k));
    } else {
        assert(attempts.skip(0) =~= attempts);
    }
}

/// Whether a failed sweep writes a stale mark: only a record not already
/// stale is marked, so the store hears about a provider going stale
/// exactly once.
pub open spec fn sends_stale_update(stale: bool, got_pong: bool) -> bool {
    !got_pong && !stale
}

/// What the store is told after one record's sweep: a pong refreshes the
/// probed record's timestamp and clears its stale mark, all attempts
/// failing marks a non-stale record stale, and an already-stale record is
/// left alone. The update is keyed on the directory address that was
/// probed, whatever address the pong claims.
pub fn probe_decision(
    address: &String,
    info: &ServerInfo,
    outcome: &Option<String>,
    now: u64,
) -> (r: Option<DbRequest>)
    ensures
        outcome is Some ==> ({
            &&& r matches Some(req)
            &&& req matches DbRequest::Update(a, cmd)
            &&& a@ == address@
            &&& cmd matches UpdateCmd::SetBoth(t, s)
            &&& t == now
            &&& s == false
        }),
        outcome is None ==> (r is Some <==> sends_stale_update(info.stale, false)),
        outcome is None && !info.stale ==> ({
            &&& r matches Some(req)
            &&& req matches DbRequest::Update(a, cmd)
            &&& a@ == address@
            &&& cmd matches UpdateCmd::SetStale(s)
            &&& s == true
        }),
        outcome is None && info.stale ==> r is None,
{
    match outcome {
        Some(_) => Some(
            DbRequest::Update(address.clone(), UpdateCmd::SetBoth(now, false)),
        ),
        None => {
            if !info.stale {
                Some(DbRequest::Update(address.clone(), UpdateCmd::SetStale(true)))
            } else {
                None
            }
        },
    }
}

/// A provider that stops answering is marked stale exactly once: the sweep
/// that sees a non-stale record fail all attempts writes the stale mark,
/// and a later failed sweep, seeing the record already stale, writes
/// nothing more.
pub proof fn lemma_stale_marked_once(m: Map<Seq<char>, ServerInfoV>, addr: String)
    requires
        m.contains_key(addr@),
        !m[addr@].stale,
    ensures
        sends_stale_update(m[addr@].stale, false),
        ({
            let after = apply_request(m, DbRequest::Update(addr, UpdateCmd::SetStale(true)));
            &&& after.contains_key(addr@)
            &&& after[addr@].stale
            &&& !sends_stale_update(after[addr@].stale, false)
        }),
{
}

} // verus!
