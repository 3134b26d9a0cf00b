//! The directory store: single owner of the provider directory and of the
//! UTXO/mempool tables. It processes one request at a time to completion,
//! so every reader observes a consistent state.

use vstd::prelude::*;
use crate::model::{MempoolInput, MempoolTx, OutPoint, OutPointV, Utxo, UtxoV};
use crate::types::{apply_update, str_eq, DbRequest, DbResponse, ServerInfo, ServerInfoV, UpdateCmd};

verus! {

/// All state the tracker keeps: the directory of provider records, the
/// UTXO ledger, and the mempool tables. The directory is a map from
/// address to record, held as rows with pairwise-distinct keys; the UTXO
/// table is a map keyed by (txid, vout) in the same way.
pub struct DirectoryStore {
    pub servers: Vec<(String, ServerInfo)>,
    pub utxos: Vec<Utxo>,
    pub mempool_txs: Vec<MempoolTx>,
    pub mempool_inputs: Vec<MempoolInput>,
}


/// What a correct answer to `QueryActive` looks like against a directory
/// map: every listed address is active in the map, every active address is
/// listed, and no address is listed twice.
pub open spec fn active_response_ok(m: Map<Seq<char>, ServerInfoV>, v: Seq<String>) -> bool {
    &&& forall|i: int|
        0 <= i < v.len() ==> m.contains_key((#[trigger] v[i])@) && !m[v[i]@].stale
    &&& forall|k: Seq<char>|
        m.contains_key(k) && !m[k].stale ==> exists|i: int| 0 <= i < v.len() && (#[trigger] v[i])@ == k
    &&& forall|i: int, j: int| 0 <= i < j < v.len() ==> (#[trigger] v[i])@ != (#[trigger] v[j])@
}

/// Replacing one directory row under its own key reads as a map insert,
/// and keeps the keys pairwise distinct.
proof fn lemma_servers_map_after_replace(pre: DirectoryStore, post: DirectoryStore, i: int)
    requires
        forall|x: int, y: int|
            0 <= x < y < pre.servers@.len() ==> (#[trigger] pre.servers@[x]).0@ != (
            #[trigger] pre.servers@[y]).0@,
        0 <= i < pre.servers@.len(),
        post.servers@.len() == pre.servers@.len(),
        forall|j: int|
            0 <= j < pre.servers@.len() && j != i ==> #[trigger] post.servers@[j]
                == pre.servers@[j],
        post.servers@[i].0@ == pre.servers@[i].0@,
    ensures
        forall|x: int, y: int|
            0 <= x < y < post.servers@.len() ==> (#[trigger] post.servers@[x]).0@ != (
            #[trigger] post.servers@[y]).0@,
        post.servers_map() == pre.servers_map().insert(post.servers@[i].0@, post.servers@[i].1@),
{
    let k = post.servers@[i].0@;
    let v = post.servers@[i].1@;
    assert forall|x: int, y: int|
        0 <= x < y < post.servers@.len() implies (#[trigger] post.servers@[x]).0@ != (
    #[trigger] post.servers@[y]).0@ by {
        assert(pre.servers@[x].0@ != pre.servers@[y].0@);
    }
    let m1 = post.servers_map();
    let m2 = pre.servers_map().insert(k, v);
    assert forall|k2: Seq<char>| m1.contains_key(k2) implies m2.contains_key(k2) && m1[k2]
        == m2[k2] by {
        let j = choose|j: int|
            0 <= j < post.servers@.len() && (#[trigger] post.servers@[j]).0@ == k2;
        post.lemma_server_row(j);
        if j != i {
            assert(post.servers@[j] == pre.servers@[j]);
            pre.lemma_server_row(j);
            assert(k2 != k) by {
                if k2 == k {
                    if j < i {
                        assert(pre.servers@[j].0@ != pre.servers@[i].0@);
                    } else {
                        assert(pre.servers@[i].0@ != pre.servers@[j].0@);
                    }
                }
            }
        }
    }
    assert forall|k2: Seq<char>| m2.contains_key(k2) implies m1.contains_key(k2) by {
        if k2 == k {
            assert((#[trigger] post.servers@[i]).0@ == k2);
        } else {
            let j = choose|j: int|
                0 <= j < pre.servers@.len() && (#[trigger] pre.servers@[j]).0@ == k2;
            assert((#[trigger] post.servers@[j]).0@ == k2);
        }
    }
    assert(m1 =~= m2);
}

/// Appending one directory row under a fresh key reads as a map insert,
/// and keeps the keys pairwise distinct.
proof fn lemma_servers_map_after_push(pre: DirectoryStore, post: DirectoryStore)
    requires
        forall|x: int, y: int|
            0 <= x < y < pre.servers@.len() ==> (#[trigger] pre.servers@[x]).0@ != (
            #[trigger] pre.servers@[y]).0@,
        post.servers@.len() == pre.servers@.len() + 1,
        forall|j: int|
            0 <= j < pre.servers@.len() ==> #[trigger] post.servers@[j] == pre.servers@[j],
        !pre.servers_map().contains_key(post.servers@.last().0@),
    ensures
        forall|x: int, y: int|
            0 <= x < y < post.servers@.len() ==> (#[trigger] post.servers@[x]).0@ != (
            #[trigger] post.servers@[y]).0@,
        post.servers_map() == pre.servers_map().insert(
            post.servers@.last().0@,
            post.servers@.last().1@,
        ),
{
    let last = post.servers@.len() - 1;
    let k = post.servers@[last].0@;
    let v = post.servers@[last].1@;
    assert forall|x: int, y: int|
        0 <= x < y < post.servers@.len() implies (#[trigger] post.servers@[x]).0@ != (
    #[trigger] post.servers@[y]).0@ by {
        if y < last {
            assert(pre.servers@[x].0@ != pre.servers@[y].0@);
        } else {
            assert((#[trigger] pre.servers@[x]).0@ != k);
        }
    }
    let m1 = post.servers_map();
    let m2 = pre.servers_map().insert(k, v);
    assert forall|k2: Seq<char>| m1.contains_key(k2) implies m2.contains_key(k2) && m1[k2]
        == m2[k2] by {
        let j = choose|j: int|
            0 <= j < post.servers@.len() && (#[trigger] post.servers@[j]).0@ == k2;
        post.lemma_server_row(j);
        if j != last {
            assert(post.servers@[j] == pre.servers@[j]);
            pre.lemma_server_row(j);
        }
    }
    assert forall|k2: Seq<char>| m2.contains_key(k2) implies m1.contains_key(k2) by {
        if k2 == k {
            assert((#[trigger] post.servers@[last]).0@ == k2);
        } else {
            let j = choose|j: int|
                0 <= j < pre.servers@.len() && (#[trigger] pre.servers@[j]).0@ == k2;
            assert((#[trigger] post.servers@[j]).0@ == k2);
        }
    }
    assert(m1 =~= m2);
}

/// Replacing one UTXO row under its own key reads as a map insert, and
/// keeps the keys pairwise distinct.
proof fn lemma_utxos_map_after_replace(pre: DirectoryStore, post: DirectoryStore, i: int)
    requires
        forall|x: int, y: int|
            0 <= x < y < pre.utxos@.len() ==> ((#[trigger] pre.utxos@[x]).txid@,
            pre.utxos@[x].vout) != ((#[trigger] pre.utxos@[y]).txid@, pre.utxos@[y].vout),
        0 <= i < pre.utxos@.len(),
        post.utxos@.len() == pre.utxos@.len(),
        forall|j: int|
            0 <= j < pre.utxos@.len() && j != i ==> #[trigger] post.utxos@[j] == pre.utxos@[j],
        post.utxos@[i].txid@ == pre.utxos@[i].txid@,
        post.utxos@[i].vout == pre.utxos@[i].vout,
    ensures
        forall|x: int, y: int|
            0 <= x < y < post.utxos@.len() ==> ((#[trigger] post.utxos@[x]).txid@,
            post.utxos@[x].vout) != ((#[trigger] post.utxos@[y]).txid@, post.utxos@[y].vout),
        post.utxos_map() == pre.utxos_map().insert(
            (post.utxos@[i].txid@, post.utxos@[i].vout),
            post.utxos@[i]@,
        ),
{
    let k = (post.utxos@[i].txid@, post.utxos@[i].vout);
    assert forall|x: int, y: int|
        0 <= x < y < post.utxos@.len() implies ((#[trigger] post.utxos@[x]).txid@,
    post.utxos@[x].vout) != ((#[trigger] post.utxos@[y]).txid@, post.utxos@[y].vout) by {
        assert((pre.utxos@[x].txid@, pre.utxos@[x].vout) != (pre.utxos@[y].txid@,
        pre.utxos@[y].vout));
    }
    let m1 = post.utxos_map();
    let m2 = pre.utxos_map().insert(k, post.utxos@[i]@);
    assert forall|k2: (Seq<char>, u32)| m1.contains_key(k2) implies m2.contains_key(k2) && m1[k2]
        == m2[k2] by {
        let j = choose|j: int|
            0 <= j < post.utxos@.len() && ((#[trigger] post.utxos@[j]).txid@, post.utxos@[j].vout)
                == k2;
        post.lemma_utxo_row(j);
        if j != i {
            assert(post.utxos@[j] == pre.utxos@[j]);
            pre.lemma_utxo_row(j);
            assert(k2 != k) by {
                if k2 == k {
                    if j < i {
                        assert((pre.utxos@[j].txid@, pre.utxos@[j].vout) != (pre.utxos@[i].txid@,
                        pre.utxos@[i].vout));
                    } else {
                        assert((pre.utxos@[i].txid@, pre.utxos@[i].vout) != (pre.utxos@[j].txid@,
                        pre.utxos@[j].vout));
                    }
                }
            }
        }
    }
    assert forall|k2: (Seq<char>, u32)| m2.contains_key(k2) implies m1.contains_key(k2) by {
        if k2 == k {
            assert(((#[trigger] post.utxos@[i]).txid@, post.utxos@[i].vout) == k2);
        } else {
            let j = choose|j: int|
                0 <= j < pre.utxos@.len() && ((#[trigger] pre.utxos@[j]).txid@,
                pre.utxos@[j].vout) == k2;
            assert(((#[trigger] post.utxos@[j]).txid@, post.utxos@[j].vout) == k2);
        }
    }
    assert(m1 =~= m2);
}

/// Appending one UTXO row under a fresh key reads as a map insert, and
/// keeps the keys pairwise distinct.
proof fn lemma_utxos_map_after_push(pre: DirectoryStore, post: DirectoryStore)
    requires
        forall|x: int, y: int|
            0 <= x < y < pre.utxos@.len() ==> ((#[trigger] pre.utxos@[x]).txid@,
            pre.utxos@[x].vout) != ((#[trigger] pre.utxos@[y]).txid@, pre.utxos@[y].vout),
        post.utxos@.len() == pre.utxos@.len() + 1,
        forall|j: int| 0 <= j < pre.utxos@.len() ==> #[trigger] post.utxos@[j] == pre.utxos@[j],
        !pre.utxos_map().contains_key(
            (post.utxos@.last().txid@, post.utxos@.last().vout),
        ),
    ensures
        forall|x: int, y: int|
            0 <= x < y < post.utxos@.len() ==> ((#[trigger] post.utxos@[x]).txid@,
            post.utxos@[x].vout) != ((#[trigger] post.utxos@[y]).txid@, post.utxos@[y].vout),
        post.utxos_map() == pre.utxos_map().insert(
            (post.utxos@.last().txid@, post.utxos@.last().vout),
            post.utxos@.last()@,
        ),
{
    let last = post.utxos@.len() - 1;
    let k = (post.utxos@[last].txid@, post.utxos@[last].vout);
    assert forall|x: int, y: int|
        0 <= x < y < post.utxos@.len() implies ((#[trigger] post.utxos@[x]).txid@,
    post.utxos@[x].vout) != ((#[trigger] post.utxos@[y]).txid@, post.utxos@[y].vout) by {
        if y < last {
            assert((pre.utxos@[x].txid@, pre.utxos@[x].vout) != (pre.utxos@[y].txid@,
            pre.utxos@[y].vout));
        } else {
            assert(((#[trigger] pre.utxos@[x]).txid@, pre.utxos@[x].vout) != k);
        }
    }
    let m1 = post.utxos_map();
    let m2 = pre.utxos_map().insert(k, post.utxos@[last]@);
    assert forall|k2: (Seq<char>, u32)| m1.contains_key(k2) implies m2.contains_key(k2) && m1[k2]
        == m2[k2] by {
        let j = choose|j: int|
            0 <= j < post.utxos@.len() && ((#[trigger] post.utxos@[j]).txid@, post.utxos@[j].vout)
                == k2;
        post.lemma_utxo_row(j);
        if j != last {
            assert(post.utxos@[j] == pre.utxos@[j]);
            pre.lemma_utxo_row(j);
        }
    }
    assert forall|k2: (Seq<char>, u32)| m2.contains_key(k2) implies m1.contains_key(k2) by {
        if k2 == k {
            assert(((#[trigger] post.utxos@[last]).txid@, post.utxos@[last].vout) == k2);
        } else {
            let j = choose|j: int|
                0 <= j < pre.utxos@.len() && ((#[trigger] pre.utxos@[j]).txid@,
                pre.utxos@[j].vout) == k2;
            assert(((#[trigger] post.utxos@[j]).txid@, post.utxos@[j].vout) == k2);
        }
    }
    assert(m1 =~= m2);
}

/// Appending one mempool row under a fresh txid reads as a map insert,
/// and keeps the txids pairwise distinct.
proof fn lemma_mempool_map_after_push(pre: DirectoryStore, post: DirectoryStore)
    requires
        forall|x: int, y: int|
            0 <= x < y < pre.mempool_txs@.len() ==> (#[trigger] pre.mempool_txs@[x]).txid@ != (
            #[trigger] pre.mempool_txs@[y]).txid@,
        post.mempool_txs@.len() == pre.mempool_txs@.len() + 1,
        forall|j: int|
            0 <= j < pre.mempool_txs@.len() ==> #[trigger] post.mempool_txs@[j]
                == pre.mempool_txs@[j],
        !pre.mempool_map().contains_key(post.mempool_txs@.last().txid@),
    ensures
        forall|x: int, y: int|
            0 <= x < y < post.mempool_txs@.len() ==> (#[trigger] post.mempool_txs@[x]).txid@ != (
            #[trigger] post.mempool_txs@[y]).txid@,
        post.mempool_map() == pre.mempool_map().insert(
            post.mempool_txs@.last().txid@,
            post.mempool_txs@.last().seen_at,
        ),
{
    let last = post.mempool_txs@.len() - 1;
    let k = post.mempool_txs@[last].txid@;
    assert forall|x: int, y: int|
        0 <= x < y < post.mempool_txs@.len() implies (#[trigger] post.mempool_txs@[x]).txid@ != (
    #[trigger] post.mempool_txs@[y]).txid@ by {
        if y < last {
            assert(pre.mempool_txs@[x].txid@ != pre.mempool_txs@[y].txid@);
        } else {
            assert((#[trigger] pre.mempool_txs@[x]).txid@ != k);
        }
    }
    let m1 = post.mempool_map();
    let m2 = pre.mempool_map().insert(k, post.mempool_txs@[last].seen_at);
    assert forall|k2: Seq<char>| m1.contains_key(k2) implies m2.contains_key(k2) && m1[k2]
        == m2[k2] by {
        let j = choose|j: int|
            0 <= j < post.mempool_txs@.len() && (#[trigger] post.mempool_txs@[j]).txid@ == k2;
        post.lemma_mempool_row(j);
        if j != last {
            assert(post.mempool_txs@[j] == pre.mempool_txs@[j]);
            pre.lemma_mempool_row(j);
        }
    }
    assert forall|k2: Seq<char>| m2.contains_key(k2) implies m1.contains_key(k2) by {
        if k2 == k {
            assert((#[trigger] post.mempool_txs@[last]).txid@ == k2);
        } else {
            let j = choose|j: int|
                0 <= j < pre.mempool_txs@.len() && (#[trigger] pre.mempool_txs@[j]).txid@ == k2;
            assert((#[trigger] post.mempool_txs@[j]).txid@ == k2);
        }
    }
    assert(m1 =~= m2);
}

impl DirectoryStore {
    /// The directory rows, in insertion order.
    pub open spec fn servers_seq(&self) -> Seq<(String, ServerInfo)> {
        self.servers@
    }

    /// The UTXO rows, in insertion order.
    pub open spec fn utxos_seq(&self) -> Seq<Utxo> {
        self.utxos@
    }

    /// The mempool transaction rows, in insertion order.
    pub open spec fn mempool_txs_seq(&self) -> Seq<MempoolTx> {
        self.mempool_txs@
    }

    /// The spend-graph edges, in insertion order.
    pub open spec fn mempool_inputs_seq(&self) -> Seq<MempoolInput> {
        self.mempool_inputs@
    }

    /// The directory as a map from address to record value.
    pub open spec fn servers_map(&self) -> Map<Seq<char>, ServerInfoV> {
        Map::new(
            |k: Seq<char>|
                exists|i: int| 0 <= i < self.servers@.len() && (#[trigger] self.servers@[i]).0@ == k,
            |k: Seq<char>|
                self.servers@[choose|i: int|
                    0 <= i < self.servers@.len() && (#[trigger] self.servers@[i]).0@ == k].1@,
        )
    }

    /// The UTXO ledger as a map keyed by (txid, vout).
    pub open spec fn utxos_map(&self) -> Map<(Seq<char>, u32), UtxoV> {
        Map::new(
            |k: (Seq<char>, u32)|
                exists|i: int|
                    0 <= i < self.utxos@.len() && ((#[trigger] self.utxos@[i]).txid@, self.utxos@[i].vout)
                        == k,
            |k: (Seq<char>, u32)|
                self.utxos@[choose|i: int|
                    0 <= i < self.utxos@.len() && ((#[trigger] self.utxos@[i]).txid@, self.utxos@[i].vout)
                        == k]@,
        )
    }

    /// The mempool as a map from txid to first-seen time.
    pub open spec fn mempool_map(&self) -> Map<Seq<char>, u64> {
        Map::new(
            |k: Seq<char>|
                exists|i: int|
                    0 <= i < self.mempool_txs@.len() && (#[trigger] self.mempool_txs@[i]).txid@ == k,
            |k: Seq<char>|
                self.mempool_txs@[choose|i: int|
                    0 <= i < self.mempool_txs@.len() && (#[trigger] self.mempool_txs@[i]).txid@
                        == k].seen_at,
        )
    }

    /// Well-formedness: every table's keys are pairwise distinct, and every
    /// spend-graph edge belongs to a recorded mempool transaction.
    pub open spec fn wf(&self) -> bool {
        &&& forall|i: int, j: int|
            0 <= i < j < self.servers@.len() ==> (#[trigger] self.servers@[i]).0@ != (
            #[trigger] self.servers@[j]).0@
        &&& forall|i: int, j: int|
            0 <= i < j < self.utxos@.len() ==> ((#[trigger] self.utxos@[i]).txid@, self.utxos@[i].vout)
                != ((#[trigger] self.utxos@[j]).txid@, self.utxos@[j].vout)
        &&& forall|i: int, j: int|
            0 <= i < j < self.mempool_txs@.len() ==> (#[trigger] self.mempool_txs@[i]).txid@ != (
            #[trigger] self.mempool_txs@[j]).txid@
        &&& forall|i: int|
            0 <= i < self.mempool_inputs@.len() ==> self.mempool_map().contains_key(
                (#[trigger] self.mempool_inputs@[i]).txid@,
            )
    }

    /// An empty store.
    pub fn new() -> (r: DirectoryStore)
        ensures
            r.wf(),
            r.servers_map() == Map::<Seq<char>, ServerInfoV>::empty(),
            r.utxos_map() == Map::<(Seq<char>, u32), UtxoV>::empty(),
            r.mempool_map() == Map::<Seq<char>, u64>::empty(),
            r.mempool_inputs_seq().len() == 0,
    {
        let r = DirectoryStore {
            servers: Vec::new(),
            utxos: Vec::new(),
            mempool_txs: Vec::new(),
            mempool_inputs: Vec::new(),
        };
        proof {
            assert(r.servers_map() =~= Map::<Seq<char>, ServerInfoV>::empty());
            assert(r.utxos_map() =~= Map::<(Seq<char>, u32), UtxoV>::empty());
            assert(r.mempool_map() =~= Map::<Seq<char>, u64>::empty());
        }
        r
    }

    /// Each directory row is in the directory map under its own key.
    pub proof fn lemma_server_row(&self, i: int)
        requires
            forall|x: int, y: int|
                0 <= x < y < self.servers_seq().len() ==> (#[trigger] self.servers_seq()[x]).0@
                    != (#[trigger] self.servers_seq()[y]).0@,
            0 <= i < self.servers_seq().len(),
        ensures
            self.servers_map().contains_key(self.servers_seq()[i].0@),
            self.servers_map()[self.servers_seq()[i].0@] == self.servers_seq()[i].1@,
    {
        let k = self.servers@[i].0@;
        assert(exists|j: int|
            0 <= j < self.servers@.len() && (#[trigger] self.servers@[j]).0@ == k);
        let j = choose|j: int|
            0 <= j < self.servers@.len() && (#[trigger] self.servers@[j]).0@ == k;
        if i != j {
            if i < j {
                assert(self.servers@[i].0@ != self.servers@[j].0@);
            } else {
                assert(self.servers@[j].0@ != self.servers@[i].0@);
            }
        }
    }

    /// Finds the row index for an address.
    fn find_server(&self, addr: &str) -> (r: Option<usize>)
        requires
            self.wf(),
        ensures
            r matches Some(i) ==> i < self.servers_seq().len() && self.servers_seq()[i as int].0@
                == addr@,
            r is None ==> !self.servers_map().contains_key(addr@),
    {
        let n = self.servers.len();
        let mut i: usize = 0;
        while i < n
            invariant
                i <= n,
                n == self.servers@.len(),
                forall|j: int| 0 <= j < i ==> (#[trigger] self.servers@[j]).0@ != addr@,
            decreases n - i,
        {
            if str_eq(self.servers[i].0.as_str(), addr) {
                return Some(i);
            }
            i += 1;
        }
        None
    }

    /// Inserts or overwrites the record for an address.
    pub fn add(&mut self, addr: String, info: ServerInfo)
        requires
            old(self).wf(),
        ensures
            final(self).wf(),
            final(self).servers_map() == old(self).servers_map().insert(addr@, info@),
            final(self).utxos_seq() == old(self).utxos_seq(),
            final(self).mempool_txs_seq() == old(self).mempool_txs_seq(),
            final(self).mempool_inputs_seq() == old(self).mempool_inputs_seq(),
    {
        let found = self.find_server(addr.as_str());
        match found {
            Some(i) => {
                self.servers[i] = (addr, info);
                proof {
                    lemma_servers_map_after_replace(*old(self), *self, i as int);
                }
            },
            None => {
                self.servers.push((addr, info));
                proof {
                    lemma_servers_map_after_push(*old(self), *self);
                }
            },
        }
    }

    /// Applies a field-level change to the record for an address; for an
    /// address never added this is a no-op.
    pub fn update(&mut self, addr: &str, cmd: UpdateCmd)
        requires
            old(self).wf(),
        ensures
            final(self).wf(),
            old(self).servers_map().contains_key(addr@) ==> final(self).servers_map() == old(
                self,
            ).servers_map().insert(addr@, apply_update(old(self).servers_map()[addr@], cmd)),
            !old(self).servers_map().contains_key(addr@) ==> final(self).servers_map() == old(
                self,
            ).servers_map(),
            final(self).utxos_seq() == old(self).utxos_seq(),
            final(self).mempool_txs_seq() == old(self).mempool_txs_seq(),
            final(self).mempool_inputs_seq() == old(self).mempool_inputs_seq(),
    {
        let found = self.find_server(addr);
        match found {
            Some(i) => {
                proof {
                    self.lemma_server_row(i as int);
                }
                let key = self.servers[i].0.clone();
                let prev = self.servers[i].1.duplicate();
                let next = match cmd {
                    UpdateCmd::SetLastSeen(t) => ServerInfo { cooldown: t, ..prev },
                    UpdateCmd::SetStale(s) => ServerInfo { stale: s, ..prev },
                    UpdateCmd::SetBoth(t, s) => ServerInfo { cooldown: t, stale: s, ..prev },
                };
                self.servers[i] = (key, next);
                proof {
                    lemma_servers_map_after_replace(*old(self), *self, i as int);
                }
            },
            None => {
            },
        }
    }

    /// Looks one address up in the directory.
    pub fn query(&self, addr: &str) -> (r: Option<ServerInfo>)
        requires
            self.wf(),
        ensures
            r is Some <==> self.servers_map().contains_key(addr@),
            r matches Some(info) ==> info@ == self.servers_map()[addr@],
    {
        let found = self.find_server(addr);
        match found {
            Some(i) => {
                proof {
                    self.lemma_server_row(i as int);
                }
                Some(self.servers[i].1.duplicate())
            },
            None => None,
        }
    }

    /// A snapshot of every (address, record) pair, in row order.
    pub fn query_all(&self) -> (r: Vec<(String, ServerInfo)>)
        requires
            self.wf(),
        ensures
            r@.len() == self.servers_seq().len(),
            forall|i: int|
                0 <= i < r@.len() ==> (#[trigger] r@[i]).0@ == self.servers_seq()[i].0@ && r@[i].1@
                    == self.servers_seq()[i].1@,
    {
        let n = self.servers.len();
        let mut r: Vec<(String, ServerInfo)> = Vec::new();
        let mut i: usize = 0;
        while i < n
            invariant
                i <= n,
                n == self.servers@.len(),
                r@.len() == i,
                forall|j: int|
                    0 <= j < i ==> (#[trigger] r@[j]).0@ == self.servers@[j].0@ && r@[j].1@
                        == self.servers@[j].1@,
            decreases n - i,
        {
            let key = self.servers[i].0.clone();
            let info = self.servers[i].1.duplicate();
            r.push((key, info));
            i += 1;
        }
        r
    }

    /// The addresses whose record is not stale, in row order and without
    /// repetition.
    pub fn query_active(&self) -> (r: Vec<String>)
        requires
            self.wf(),
        ensures
            active_response_ok(self.servers_map(), r@),
    {
        let n = self.servers.len();
        let mut r: Vec<String> = Vec::new();
        let ghost mut idxs: Seq<int> = Seq::empty();
        let mut i: usize = 0;
        while i < n
            invariant
                i <= n,
                n == self.servers@.len(),
                self.wf(),
                idxs.len() == r@.len(),
                forall|x: int|
                    0 <= x < r@.len() ==> 0 <= #[trigger] idxs[x] < i && r@[x]@
                        == self.servers@[idxs[x]].0@ && !self.servers@[idxs[x]].1@.stale,
                forall|x: int, y: int| 0 <= x < y < idxs.len() ==> idxs[x] < idxs[y],
                forall|j: int|
                    0 <= j < i && !(#[trigger] self.servers@[j]).1@.stale ==> exists|x: int|
                        0 <= x < idxs.len() && #[trigger] idxs[x] == j,
            decreases n - i,
        {
            if !self.servers[i].1.stale {
                r.push(self.servers[i].0.clone());
                proof {
                    let idxs_old = idxs;
                    idxs = idxs.push(i as int);
                    assert forall|j: int|
                        0 <= j < i + 1 && !(#[trigger] self.servers@[j]).1@.stale implies exists|x: int|
                        0 <= x < idxs.len() && #[trigger] idxs[x] == j by {
                        if j == i {
                            assert(idxs[idxs.len() - 1] == j);
                        } else {
                            let x = choose|x: int|
                                0 <= x < idxs_old.len() && #[trigger] idxs_old[x] == j;
                            assert(idxs[x] == j);
                        }
                    }
                }
            }
            i += 1;
        }
        proof {
            assert forall|x: int|
                0 <= x < r@.len() implies self.servers_map().contains_key((#[trigger] r@[x])@)
                && !self.servers_map()[r@[x]@].stale by {
                self.lemma_server_row(idxs[x]);
            }
            assert forall|x: int, y: int|
                0 <= x < y < r@.len() implies (#[trigger] r@[x])@ != (#[trigger] r@[y])@ by {
                assert(self.servers@[idxs[x]].0@ != self.servers@[idxs[y]].0@);
            }
            assert forall|k: Seq<char>|
                self.servers_map().contains_key(k) && !self.servers_map()[k].stale implies exists|x: int|
                0 <= x < r@.len() && (#[trigger] r@[x])@ == k by {
                let j = choose|j: int|
                    0 <= j < self.servers@.len() && (#[trigger] self.servers@[j]).0@ == k;
                self.lemma_server_row(j);
                assert(!self.servers@[j].1@.stale);
                let x = choose|x: int| 0 <= x < idxs.len() && #[trigger] idxs[x] == j;
                assert(0 <= x < r@.len() && (#[trigger] r@[x])@ == k);
            }
            assert(active_response_ok(self.servers_map(), r@));
        }
        r
    }

    /// Each UTXO row is in the UTXO map under its own key.
    pub proof fn lemma_utxo_row(&self, i: int)
        requires
            forall|x: int, y: int|
                0 <= x < y < self.utxos_seq().len() ==> ((#[trigger] self.utxos_seq()[x]).txid@,
                self.utxos_seq()[x].vout) != ((#[trigger] self.utxos_seq()[y]).txid@,
                self.utxos_seq()[y].vout),
            0 <= i < self.utxos_seq().len(),
        ensures
            self.utxos_map().contains_key((self.utxos_seq()[i].txid@, self.utxos_seq()[i].vout)),
            self.utxos_map()[(self.utxos_seq()[i].txid@, self.utxos_seq()[i].vout)]
                == self.utxos_seq()[i]@,
    {
        let k = (self.utxos@[i].txid@, self.utxos@[i].vout);
        assert(exists|j: int|
            0 <= j < self.utxos@.len() && ((#[trigger] self.utxos@[j]).txid@, self.utxos@[j].vout)
                == k);
        let j = choose|j: int|
            0 <= j < self.utxos@.len() && ((#[trigger] self.utxos@[j]).txid@, self.utxos@[j].vout)
                == k;
        if i != j {
            if i < j {
                assert((self.utxos@[i].txid@, self.utxos@[i].vout) != (self.utxos@[j].txid@,
                self.utxos@[j].vout));
            } else {
                assert((self.utxos@[j].txid@, self.utxos@[j].vout) != (self.utxos@[i].txid@,
                self.utxos@[i].vout));
            }
        }
    }

    /// Each mempool row is in the mempool map under its own txid.
    pub proof fn lemma_mempool_row(&self, i: int)
        requires
            forall|x: int, y: int|
                0 <= x < y < self.mempool_txs_seq().len() ==> (
                #[trigger] self.mempool_txs_seq()[x]).txid@ != (
                #[trigger] self.mempool_txs_seq()[y]).txid@,
            0 <= i < self.mempool_txs_seq().len(),
        ensures
            self.mempool_map().contains_key(self.mempool_txs_seq()[i].txid@),
            self.mempool_map()[self.mempool_txs_seq()[i].txid@]
                == self.mempool_txs_seq()[i].seen_at,
    {
        let k = self.mempool_txs@[i].txid@;
        assert(exists|j: int|
            0 <= j < self.mempool_txs@.len() && (#[trigger] self.mempool_txs@[j]).txid@ == k);
        let j = choose|j: int|
            0 <= j < self.mempool_txs@.len() && (#[trigger] self.mempool_txs@[j]).txid@ == k;
        if i != j {
            if i < j {
                assert(self.mempool_txs@[i].txid@ != self.mempool_txs@[j].txid@);
            } else {
                assert(self.mempool_txs@[j].txid@ != self.mempool_txs@[i].txid@);
            }
        }
    }

    /// Finds the row index for a UTXO key.
    fn find_utxo(&self, txid: &str, vout: u32) -> (r: Option<usize>)
        requires
            self.wf(),
        ensures
            r matches Some(i) ==> i < self.utxos_seq().len() && self.utxos_seq()[i as int].txid@
                == txid@ && self.utxos_seq()[i as int].vout == vout,
            r is None ==> !self.utxos_map().contains_key((txid@, vout)),
    {
        let n = self.utxos.len();
        let mut i: usize = 0;
        while i < n
            invariant
                i <= n,
                n == self.utxos@.len(),
                forall|j: int|
                    0 <= j < i ==> ((#[trigger] self.utxos@[j]).txid@, self.utxos@[j].vout) != (
                    txid@, vout),
            decreases n - i,
        {
            if self.utxos[i].vout == vout && str_eq(self.utxos[i].txid.as_str(), txid) {
                return Some(i);
            }
            i += 1;
        }
        None
    }

    /// Finds the row index for a mempool txid.
    fn find_mempool_tx(&self, txid: &str) -> (r: Option<usize>)
        requires
            self.wf(),
        ensures
            r matches Some(i) ==> i < self.mempool_txs_seq().len()
                && self.mempool_txs_seq()[i as int].txid@ == txid@,
            r is None ==> !self.mempool_map().contains_key(txid@),
    {
        let n = self.mempool_txs.len();
        let mut i: usize = 0;
        while i < n
            invariant
                i <= n,
                n == self.mempool_txs@.len(),
                forall|j: int| 0 <= j < i ==> (#[trigger] self.mempool_txs@[j]).txid@ != txid@,
            decreases n - i,
        {
            if str_eq(self.mempool_txs[i].txid.as_str(), txid) {
                return Some(i);
            }
            i += 1;
        }
        None
    }

    /// Whether a mempool transaction is already recorded.
    pub fn contains_mempool_tx(&self, txid: &str) -> (r: bool)
        requires
            self.wf(),
        ensures
            r == self.mempool_map().contains_key(txid@),
    {
        let found = self.find_mempool_tx(txid);
        match found {
            Some(i) => {
                proof {
                    self.lemma_mempool_row(i as int);
                }
                true
            },
            None => false,
        }
    }

    /// Looks one UTXO row up: the read path through which a confirmed
    /// spend's `spent_by_txid` is exposed.
    pub fn get_utxo(&self, txid: &str, vout: u32) -> (r: Option<Utxo>)
        requires
            self.wf(),
        ensures
            r is Some <==> self.utxos_map().contains_key((txid@, vout)),
            r matches Some(row) ==> row@ == self.utxos_map()[(txid@, vout)],
    {
        let found = self.find_utxo(txid, vout);
        match found {
            Some(i) => {
                proof {
                    self.lemma_utxo_row(i as int);
                }
                Some(self.utxos[i].duplicate())
            },
            None => None,
        }
    }

    /// Records a UTXO row unless its (txid, vout) is already present: an
    /// already-known row is never overwritten, so a confirmed row is never
    /// downgraded by later mempool reprocessing.
    pub fn insert_utxo_if_absent(&mut self, u: Utxo)
        requires
            old(self).wf(),
        ensures
            final(self).wf(),
            final(self).utxos_map() == utxo_insert_if_absent(old(self).utxos_map(), u@),
            old(self).utxos_map().contains_key((u.txid@, u.vout)) ==> final(self).utxos_seq()
                == old(self).utxos_seq(),
            final(self).servers_seq() == old(self).servers_seq(),
            final(self).mempool_txs_seq() == old(self).mempool_txs_seq(),
            final(self).mempool_inputs_seq() == old(self).mempool_inputs_seq(),
    {
        let found = self.find_utxo(u.txid.as_str(), u.vout);
        match found {
            Some(i) => {
                proof {
                    self.lemma_utxo_row(i as int);
                }
            },
            None => {
                self.utxos.push(u);
                proof {
                    lemma_utxos_map_after_push(*old(self), *self);
                }
            },
        }
    }

    /// Marks the referenced UTXO row spent by the given transaction; a
    /// block spend stamps the spend confirmed, a mempool spend records it
    /// unconfirmed. A row never seen is left alone.
    pub fn mark_utxo_spent(
        &mut self,
        txid: &str,
        vout: u32,
        spent_by: Option<&str>,
        confirmed_spend: bool,
    )
        requires
            old(self).wf(),
        ensures
            final(self).wf(),
            final(self).utxos_map() == utxo_mark_spent(
                old(self).utxos_map(),
                txid@,
                vout,
                match spent_by {
                    Some(s) => Some(s@),
                    None => None,
                },
                confirmed_spend,
            ),
            final(self).servers_seq() == old(self).servers_seq(),
            final(self).mempool_txs_seq() == old(self).mempool_txs_seq(),
            final(self).mempool_inputs_seq() == old(self).mempool_inputs_seq(),
    {
        let found = self.find_utxo(txid, vout);
        match found {
            Some(i) => {
                proof {
                    self.lemma_utxo_row(i as int);
                }
                let prev = self.utxos[i].duplicate();
                let newrow = Utxo {
                    spent: true,
                    confirmed: confirmed_spend,
                    spent_by_txid: match spent_by {
                        Some(s) => Some(s.to_owned()),
                        None => None,
                    },
                    ..prev
                };
                self.utxos[i] = newrow;
                proof {
                    lemma_utxos_map_after_replace(*old(self), *self, i as int);
                }
            },
            None => {
            },
        }
    }

    /// Records a mempool transaction unless its txid is already known.
    pub fn insert_mempool_tx(&mut self, txid: String, seen_at: u64)
        requires
            old(self).wf(),
        ensures
            final(self).wf(),
            old(self).mempool_map().contains_key(txid@) ==> final(self).mempool_map() == old(
                self,
            ).mempool_map() && final(self).mempool_txs_seq() == old(self).mempool_txs_seq(),
            !old(self).mempool_map().contains_key(txid@) ==> final(self).mempool_map() == old(
                self,
            ).mempool_map().insert(txid@, seen_at),
            final(self).servers_seq() == old(self).servers_seq(),
            final(self).utxos_seq() == old(self).utxos_seq(),
            final(self).mempool_inputs_seq() == old(self).mempool_inputs_seq(),
    {
        let found = self.find_mempool_tx(txid.as_str());
        match found {
            Some(i) => {
                proof {
                    self.lemma_mempool_row(i as int);
                }
            },
            None => {
                self.mempool_txs.push(MempoolTx { txid, seen_at });
                proof {
                    lemma_mempool_map_after_push(*old(self), *self);
                    assert forall|e: int|
                        0 <= e < self.mempool_inputs@.len() implies self.mempool_map().contains_key(
                        (#[trigger] self.mempool_inputs@[e]).txid@,
                    ) by {
                        assert(old(self).mempool_map().contains_key(
                            old(self).mempool_inputs@[e].txid@,
                        ));
                    }
                }
            },
        }
    }

    /// Records one spend-graph edge for an already-recorded mempool
    /// transaction.
    pub fn insert_mempool_input(&mut self, edge: MempoolInput)
        requires
            old(self).wf(),
            old(self).mempool_map().contains_key(edge.txid@),
        ensures
            final(self).wf(),
            final(self).mempool_inputs_seq() == old(self).mempool_inputs_seq().push(edge),
            final(self).servers_seq() == old(self).servers_seq(),
            final(self).utxos_seq() == old(self).utxos_seq(),
            final(self).mempool_txs_seq() == old(self).mempool_txs_seq(),
    {
        self.mempool_inputs.push(edge);
        proof {
            assert(self.mempool_map() =~= old(self).mempool_map());
        }
    }

    /// The mempool transactions whose recorded input edges spend the given
    /// outpoint, one entry per matching edge, in edge order.
    pub fn watch_utxo(&self, o: &OutPoint) -> (r: Vec<MempoolTx>)
        requires
            self.wf(),
        ensures
            r@.map_values(|t: MempoolTx| t@.txid) == spender_txids(self.mempool_inputs_seq(), o@),
            forall|i: int|
                0 <= i < r@.len() ==> self.mempool_map().contains_key((#[trigger] r@[i])@.txid)
                    && r@[i]@.seen_at == self.mempool_map()[r@[i]@.txid],
    {
        let n = self.mempool_inputs.len();
        let mut r: Vec<MempoolTx> = Vec::new();
        let mut k: usize = 0;
        while k < n
            invariant
                k <= n,
                n == self.mempool_inputs@.len(),
                self.wf(),
                r@.map_values(|t: MempoolTx| t@.txid) == spender_txids(
                    self.mempool_inputs@.take(k as int),
                    o@,
                ),
                forall|i: int|
                    0 <= i < r@.len() ==> self.mempool_map().contains_key((#[trigger] r@[i])@.txid)
                        && r@[i]@.seen_at == self.mempool_map()[r@[i]@.txid],
            decreases n - k,
        {
            let ghost taken = self.mempool_inputs@.take(k as int);
            let ghost taken_next = self.mempool_inputs@.take(k + 1int);
            proof {
                assert(taken_next.drop_last() =~= taken);
                assert(taken_next.last() == self.mempool_inputs@[k as int]);
            }
            let edge_vout = self.mempool_inputs[k].input_vout;
            if edge_vout == o.vout && str_eq(
                self.mempool_inputs[k].input_txid.as_str(),
                o.txid.as_str(),
            ) {
                let found = self.find_mempool_tx(self.mempool_inputs[k].txid.as_str());
                match found {
                    Some(j) => {
                        proof {
                            self.lemma_mempool_row(j as int);
                        }
                        let ghost r_old = r@;
                        r.push(self.mempool_txs[j].duplicate());
                        proof {
                            assert(r@.map_values(|t: MempoolTx| t@.txid) =~= r_old.map_values(
                                |t: MempoolTx| t@.txid,
                            ).push(self.mempool_txs@[j as int].txid@));
                        }
                    },
                    None => {
                        proof {
                            assert(self.mempool_map().contains_key(
                                self.mempool_inputs@[k as int].txid@,
                            ));
                            assert(false);
                        }
                    },
                }
            }
            k += 1;
        }
        proof {
            assert(self.mempool_inputs@.take(n as int) =~= self.mempool_inputs@);
        }
        r
    }

    /// Processes one mailbox request to completion: mutations change the
    /// directory exactly as `apply_request` says, queries answer from the
    /// state as of this serialization point, and the ledger tables are
    /// untouched.
    #[verifier::rlimit(80)]
    #[verifier::spinoff_prover]
    pub fn handle(&mut self, req: DbRequest) -> (resp: DbResponse)
        requires
            old(self).wf(),
        ensures
            final(self).wf(),
            final(self).servers_map() == apply_request(old(self).servers_map(), req),
            final(self).utxos_seq() == old(self).utxos_seq(),
            final(self).mempool_txs_seq() == old(self).mempool_txs_seq(),
            final(self).mempool_inputs_seq() == old(self).mempool_inputs_seq(),
            req is Add || req is Update ==> resp is Done,
            req matches DbRequest::Query(a) ==> (resp matches DbResponse::Record(r) && (r is Some
                <==> old(self).servers_map().contains_key(a@)) && (r matches Some(info) ==> info@
                == old(self).servers_map()[a@])),
            req is QueryAll ==> (resp matches DbResponse::All(v) && v@.len() == old(
                self,
            ).servers_seq().len() && (forall|i: int|
                0 <= i < v@.len() ==> (#[trigger] v@[i]).0@ == old(self).servers_seq()[i].0@
                    && v@[i].1@ == old(self).servers_seq()[i].1@)),
            req is QueryActive ==> (resp matches DbResponse::Active(v) && active_response_ok(
                old(self).servers_map(),
                v@,
            )),
            req matches DbRequest::WatchUtxo(o) ==> (resp matches DbResponse::Watch(v)
                && v@.map_values(|t: MempoolTx| t@.txid) == spender_txids(
                old(self).mempool_inputs_seq(),
                o@,
            ) && (forall|i: int|
                0 <= i < v@.len() ==> old(self).mempool_map().contains_key(
                    (#[trigger] v@[i])@.txid,
                ) && v@[i]@.seen_at == old(self).mempool_map()[v@[i]@.txid])),
    {
        match req {
            DbRequest::Add(addr, info) => {
                self.add(addr, info);
                DbResponse::Done
            },
            DbRequest::Query(addr) => DbResponse::Record(self.query(addr.as_str())),
            DbRequest::QueryAll => DbResponse::All(self.query_all()),
            DbRequest::QueryActive => {
                let v = self.query_active();
                proof {
                    assert(self.servers_map() =~= old(self).servers_map());
                    assert(active_response_ok(old(self).servers_map(), v@));
                }
                DbResponse::Active(v)
            },
            DbRequest::Update(addr, cmd) => {
                self.update(addr.as_str(), cmd);
                DbResponse::Done
            },
            DbRequest::WatchUtxo(o) => DbResponse::Watch(self.watch_utxo(&o)),
        }
    }
}

/// The directory map after one request: `Add` inserts or overwrites,
/// `Update` changes an existing record and ignores a missing one, queries
/// change nothing.
pub open spec fn apply_request(m: Map<Seq<char>, ServerInfoV>, req: DbRequest) -> Map<
    Seq<char>,
    ServerInfoV,
> {
    match req {
        DbRequest::Add(a, info) => m.insert(a@, info@),
        DbRequest::Update(a, cmd) => if m.contains_key(a@) {
            m.insert(a@, apply_update(m[a@], cmd))
        } else {
            m
        },
        _ => m,
    }
}

/// The directory map after a sequence of requests, applied in order.
pub open spec fn apply_requests(m: Map<Seq<char>, ServerInfoV>, reqs: Seq<DbRequest>) -> Map<
    Seq<char>,
    ServerInfoV,
>
    decreases reqs.len(),
{
    if reqs.len() == 0 {
        m
    } else {
        apply_request(apply_requests(m, reqs.drop_last()), reqs.last())
    }
}

/// What one address reads after a sequence of requests, from what it read
/// before: the last applied `Add` or `Update` for that address wins.
pub open spec fn last_written(
    prev: Option<ServerInfoV>,
    reqs: Seq<DbRequest>,
    a: Seq<char>,
) -> Option<ServerInfoV>
    decreases reqs.len(),
{
    if reqs.len() == 0 {
        prev
    } else {
        let before = last_written(prev, reqs.drop_last(), a);
        match reqs.last() {
            DbRequest::Add(a2, info) => if a2@ == a {
                Some(info@)
            } else {
                before
            },
            DbRequest::Update(a2, cmd) => if a2@ == a && before is Some {
                Some(apply_update(before->0, cmd))
            } else {
                before
            },
            _ => before,
        }
    }
}

/// Linearizability of the directory: after any sequence of requests,
/// processed one at a time, a point query for an address reads exactly
/// the last value applied for that address.
pub proof fn lemma_directory_linearizable(
    m: Map<Seq<char>, ServerInfoV>,
    reqs: Seq<DbRequest>,
    a: Seq<char>,
)
    ensures
        apply_requests(m, reqs).get(a) == last_written(m.get(a), reqs, a),
    decreases reqs.len(),
{
    if reqs.len() > 0 {
        lemma_directory_linearizable(m, reqs.drop_last(), a);
    }
}

/// An `Update` for an address never added changes nothing: a point query
/// for it still reads nothing afterwards.
pub proof fn lemma_update_never_added_noop(
    m: Map<Seq<char>, ServerInfoV>,
    a: String,
    cmd: UpdateCmd,
)
    requires
        !m.contains_key(a@),
    ensures
        apply_request(m, DbRequest::Update(a, cmd)) == m,
        apply_request(m, DbRequest::Update(a, cmd)).get(a@) is None,
{
}

/// The UTXO map after an insert-if-absent of one row.
pub open spec fn utxo_insert_if_absent(m: Map<(Seq<char>, u32), UtxoV>, u: UtxoV) -> Map<
    (Seq<char>, u32),
    UtxoV,
> {
    if m.contains_key((u.txid, u.vout)) {
        m
    } else {
        m.insert((u.txid, u.vout), u)
    }
}

/// The UTXO map after marking one outpoint spent.
pub open spec fn utxo_mark_spent(
    m: Map<(Seq<char>, u32), UtxoV>,
    txid: Seq<char>,
    vout: u32,
    spent_by: Option<Seq<char>>,
    confirmed_spend: bool,
) -> Map<(Seq<char>, u32), UtxoV> {
    if m.contains_key((txid, vout)) {
        m.insert(
            (txid, vout),
            UtxoV { spent: true, spent_by_txid: spent_by, confirmed: confirmed_spend, ..m[(
                txid,
                vout,
            )] },
        )
    } else {
        m
    }
}

/// The txids of the edges that spend an outpoint, in edge order.
pub open spec fn spender_txids(edges: Seq<MempoolInput>, o: OutPointV) -> Seq<Seq<char>>
    decreases edges.len(),
{
    if edges.len() == 0 {
        Seq::empty()
    } else {
        let rest = spender_txids(edges.drop_last(), o);
        if edges.last()@.spends(o) {
            rest.push(edges.last()@.txid)
        } else {
            rest
        }
    }
}

/// A transaction is among an outpoint's watchers exactly when one of the
/// recorded edges says it spends that outpoint.
pub proof fn lemma_watch_sees_recorded_edge(edges: Seq<MempoolInput>, o: OutPointV, t: Seq<char>)
    ensures
        spender_txids(edges, o).contains(t) <==> exists|i: int|
            0 <= i < edges.len() && (#[trigger] edges[i])@.spends(o) && edges[i]@.txid == t,
    decreases edges.len(),
{
    if edges.len() > 0 {
        lemma_watch_sees_recorded_edge(edges.drop_last(), o, t);
        let rest = spender_txids(edges.drop_last(), o);
        let last = edges.len() - 1;
        if edges.last()@.spends(o) {
            assert(spender_txids(edges, o) == rest.push(edges.last()@.txid));
            if spender_txids(edges, o).contains(t) {
                let x = choose|x: int|
                    0 <= x < spender_txids(edges, o).len() && spender_txids(edges, o)[x] == t;
                if x < rest.len() {
                    assert(rest[x] == t);
                    assert(rest.contains(t));
                    let i = choose|i: int|
                        0 <= i < edges.drop_last().len() && (#[trigger] edges.drop_last()[i])@.spends(
                            o,
                        ) && edges.drop_last()[i]@.txid == t;
                    assert((#[trigger] edges[i])@.spends(o) && edges[i]@.txid == t);
                } else {
                    assert((#[trigger] edges[last])@.spends(o) && edges[last]@.txid == t);
                }
            }
            if exists|i: int|
                0 <= i < edges.len() && (#[trigger] edges[i])@.spends(o) && edges[i]@.txid == t {
                let i = choose|i: int|
                    0 <= i < edges.len() && (#[trigger] edges[i])@.spends(o) && edges[i]@.txid == t;
                if i < last {
                    assert((#[trigger] edges.drop_last()[i])@.spends(o) && edges.drop_last()[i]@.txid
                        == t);
                    assert(rest.contains(t));
                    let x = choose|x: int| 0 <= x < rest.len() && rest[x] == t;
                    assert(spender_txids(edges, o)[x] == t);
                } else {
                    assert(spender_txids(edges, o)[rest.len() as int] == t);
                }
            }
        } else {
            assert(spender_txids(edges, o) == rest);
            if spender_txids(edges, o).contains(t) {
                let i = choose|i: int|
                    0 <= i < edges.drop_last().len() && (#[trigger] edges.drop_last()[i])@.spends(o)
                        && edges.drop_last()[i]@.txid == t;
                assert((#[trigger] edges[i])@.spends(o) && edges[i]@.txid == t);
            }
            if exists|i: int|
                0 <= i < edges.len() && (#[trigger] edges[i])@.spends(o) && edges[i]@.txid == t {
                let i = choose|i: int|
                    0 <= i < edges.len() && (#[trigger] edges[i])@.spends(o) && edges[i]@.txid == t;
                assert(i != last);
                assert((#[trigger] edges.drop_last()[i])@.spends(o) && edges.drop_last()[i]@.txid
                    == t);
            }
        }
    }
}

/// Before any edge spending an outpoint is recorded, that outpoint has no
/// watchers.
pub proof fn lemma_watch_empty_before_edge(edges: Seq<MempoolInput>, o: OutPointV)
    requires
        forall|i: int| 0 <= i < edges.len() ==> !(#[trigger] edges[i])@.spends(o),
    ensures
        spender_txids(edges, o) == Seq::<Seq<char>>::empty(),
    decreases edges.len(),
{
    if edges.len() > 0 {
        assert forall|i: int|
            0 <= i < edges.drop_last().len() implies !(#[trigger] edges.drop_last()[i])@.spends(
            o,
        ) by {
            assert(!edges[i]@.spends(o));
        }
        lemma_watch_empty_before_edge(edges.drop_last(), o);
    }
}

/// Re-inserting a known key never changes its row: in particular a
/// confirmed row stays confirmed whatever confirmation value a later
/// reprocessing carries.
pub proof fn lemma_utxo_confirmation_monotone(m: Map<(Seq<char>, u32), UtxoV>, u: UtxoV)
    requires
        m.contains_key((u.txid, u.vout)),
    ensures
        utxo_insert_if_absent(m, u) == m,
        utxo_insert_if_absent(m, u)[(u.txid, u.vout)].confirmed == m[(u.txid, u.vout)].confirmed,
{
}
} // verus!
