//! The chain indexer's ingestion rules: how one mempool or block
//! transaction changes the store, which transactions are scanned for
//! announcements, and the confirmed-height watermark.
//!
//! The surrounding process polls the node, converts each transaction to a
//! `TxData`, and drives these functions; every rule about what gets
//! recorded lives here.

use vstd::prelude::*;
use crate::announce::{extract_onion_address_from_script, extracted_addr};
use crate::model::{copy_bytes, MempoolInput, MempoolInputV, OutPoint, OutPointV, Utxo, UtxoV};
use crate::store::{
    utxo_insert_if_absent, utxo_mark_spent, DirectoryStore,
};
use crate::types::{ServerInfo, ServerInfoV};

verus! {

/// One transaction output as the indexer reads it.
pub struct TxOut {
    pub value: u64,
    pub script_pubkey: Vec<u8>,
}

/// Mathematical value of a `TxOut`.
pub struct TxOutV {
    pub value: u64,
    pub script_pubkey: Seq<u8>,
}

impl View for TxOut {
    type V = TxOutV;

    open spec fn view(&self) -> TxOutV {
        TxOutV { value: self.value, script_pubkey: self.script_pubkey@ }
    }
}

/// One transaction as the indexer reads it: its id, its lock time, the
/// outpoints it consumes and the outputs it creates.
pub struct TxData {
    pub txid: String,
    pub lock_time: u32,
    pub inputs: Vec<OutPoint>,
    pub outputs: Vec<TxOut>,
}

/// Mathematical value of a `TxData`.
pub struct TxDataV {
    pub txid: Seq<char>,
    pub lock_time: u32,
    pub inputs: Seq<OutPointV>,
    pub outputs: Seq<TxOutV>,
}

impl View for TxData {
    type V = TxDataV;

    open spec fn view(&self) -> TxDataV {
        TxDataV {
            txid: self.txid@,
            lock_time: self.lock_time,
            inputs: self.inputs@.map_values(|p: OutPoint| p@),
            outputs: self.outputs@.map_values(|o: TxOut| o@),
        }
    }
}

/// The whole store as one mathematical value.
#[verifier::ext_equal]
pub struct StoreModel {
    pub servers: Map<Seq<char>, ServerInfoV>,
    pub utxos: Map<(Seq<char>, u32), UtxoV>,
    pub mempool: Map<Seq<char>, u64>,
    pub edges: Seq<MempoolInputV>,
}

/// The mathematical value of a store.
pub open spec fn model_of(s: DirectoryStore) -> StoreModel {
    StoreModel {
        servers: s.servers_map(),
        utxos: s.utxos_map(),
        mempool: s.mempool_map(),
        edges: s.mempool_inputs_seq().map_values(|e: MempoolInput| e@),
    }
}

/// The locking scripts of a transaction's outputs, in order.
pub open spec fn scripts_of(outputs: Seq<TxOutV>) -> Seq<Seq<u8>> {
    outputs.map_values(|o: TxOutV| o.script_pubkey)
}

/// The spend-graph edges one transaction contributes.
pub open spec fn edges_of(txid: Seq<char>, inputs: Seq<OutPointV>) -> Seq<MempoolInputV> {
    inputs.map_values(
        |p: OutPointV| MempoolInputV { txid: txid, input_txid: p.txid, input_vout: p.vout },
    )
}

/// The UTXO map after marking every outpoint a transaction consumes as
/// spent by it.
pub open spec fn mark_inputs(
    m: Map<(Seq<char>, u32), UtxoV>,
    spender: Seq<char>,
    inputs: Seq<OutPointV>,
    confirmed_spend: bool,
) -> Map<(Seq<char>, u32), UtxoV>
    decreases inputs.len(),
{
    if inputs.len() == 0 {
        m
    } else {
        utxo_mark_spent(
            mark_inputs(m, spender, inputs.drop_last(), confirmed_spend),
            inputs.last().txid,
            inputs.last().vout,
            Some(spender),
            confirmed_spend,
        )
    }
}

/// The UTXO map after inserting a transaction's outputs, insert-if-absent,
/// with output index `i` at vout `i`.
pub open spec fn insert_outputs(
    m: Map<(Seq<char>, u32), UtxoV>,
    txid: Seq<char>,
    outputs: Seq<TxOutV>,
    confirmed: bool,
    height: Option<u64>,
) -> Map<(Seq<char>, u32), UtxoV>
    decreases outputs.len(),
{
    if outputs.len() == 0 {
        m
    } else {
        utxo_insert_if_absent(
            insert_outputs(m, txid, outputs.drop_last(), confirmed, height),
            UtxoV {
                txid: txid,
                vout: (outputs.len() - 1) as u32,
                value: outputs.last().value,
                script_pubkey: outputs.last().script_pubkey,
                confirmed: confirmed,
                spent: false,
                spent_by_txid: None,
                block_height: height,
            },
        )
    }
}

/// The first announcement among a transaction's output scripts.
pub open spec fn first_announcement(scripts: Seq<Seq<u8>>) -> Option<Seq<char>>
    decreases scripts.len(),
{
    if scripts.len() == 0 {
        None
    } else if extracted_addr(scripts.first()) is Some {
        extracted_addr(scripts.first())
    } else {
        first_announcement(scripts.drop_first())
    }
}

/// The announcement a whole transaction yields: nothing when the
/// transaction carries the reserved all-zero lock time, or when its output
/// count falls outside the announcement format's range of 2 to 5; the
/// first qualifying output's address otherwise.
pub open spec fn scanned_announcement(lock_time: u32, scripts: Seq<Seq<u8>>) -> Option<Seq<char>> {
    if lock_time == 0 || scripts.len() < 2 || scripts.len() > 5 {
        None
    } else {
        first_announcement(scripts)
    }
}

/// A transaction whose output count is outside the announcement range is
/// never scanned, whatever its scripts hold.
pub proof fn lemma_out_of_range_never_scanned(lock_time: u32, scripts: Seq<Seq<u8>>)
    ensures
        scripts.len() < 2 || scripts.len() > 5 ==> scanned_announcement(lock_time, scripts) is None,
{
}

/// The store after ingesting one mempool transaction: a transaction
/// already recorded changes nothing; a new one is recorded with its spend
/// edges, the outputs it consumes are marked spent-but-unconfirmed, and
/// its own outputs appear as unconfirmed rows, insert-if-absent.
pub open spec fn mempool_apply_tx(s: StoreModel, tx: TxDataV, now: u64) -> StoreModel {
    if s.mempool.contains_key(tx.txid) {
        s
    } else {
        StoreModel {
            servers: s.servers,
            utxos: insert_outputs(
                mark_inputs(s.utxos, tx.txid, tx.inputs, false),
                tx.txid,
                tx.outputs,
                false,
                None,
            ),
            mempool: s.mempool.insert(tx.txid, now),
            edges: s.edges + edges_of(tx.txid, tx.inputs),
        }
    }
}

/// Marking a transaction's spends touches no outpoint the transaction
/// does not consume.
proof fn lemma_mark_inputs_preserves_other(
    m: Map<(Seq<char>, u32), UtxoV>,
    spender: Seq<char>,
    inputs: Seq<OutPointV>,
    confirmed_spend: bool,
    k0: Seq<char>,
    k1: u32,
)
    requires
        forall|i: int|
            0 <= i < inputs.len() ==> !((#[trigger] inputs[i]).txid == k0 && inputs[i].vout == k1),
    ensures
        mark_inputs(m, spender, inputs, confirmed_spend).contains_key((k0, k1))
            == m.contains_key((k0, k1)),
        m.contains_key((k0, k1)) ==> mark_inputs(m, spender, inputs, confirmed_spend)[(k0, k1)]
            == m[(k0, k1)],
    decreases inputs.len(),
{
    if inputs.len() > 0 {
        assert forall|i: int|
            0 <= i < inputs.drop_last().len() implies !((#[trigger] inputs.drop_last()[i]).txid
            == k0 && inputs.drop_last()[i].vout == k1) by {
            assert(inputs.drop_last()[i] == inputs[i]);
        }
        lemma_mark_inputs_preserves_other(m, spender, inputs.drop_last(), confirmed_spend, k0, k1);
        assert(!(inputs.last().txid == k0 && inputs.last().vout == k1));
    }
}

/// Inserting a transaction's outputs insert-if-absent changes no row that
/// already exists.
proof fn lemma_insert_outputs_preserves_existing(
    m: Map<(Seq<char>, u32), UtxoV>,
    txid: Seq<char>,
    outputs: Seq<TxOutV>,
    confirmed: bool,
    height: Option<u64>,
    k0: Seq<char>,
    k1: u32,
)
    requires
        m.contains_key((k0, k1)),
    ensures
        insert_outputs(m, txid, outputs, confirmed, height).contains_key((k0, k1)),
        insert_outputs(m, txid, outputs, confirmed, height)[(k0, k1)] == m[(k0, k1)],
    decreases outputs.len(),
{
    if outputs.len() > 0 {
        lemma_insert_outputs_preserves_existing(
            m,
            txid,
            outputs.drop_last(),
            confirmed,
            height,
            k0,
            k1,
        );
    }
}

/// Confirmation is monotone under mempool reprocessing: when a mempool
/// transaction is ingested while one of its outputs already stands as a
/// confirmed row, the row keeps its confirmation — the ingest inserts
/// if-absent and never overwrites. This holds of every transaction that
/// does not list that same outpoint among its own inputs.
pub proof fn lemma_mempool_reprocessing_keeps_confirmation(
    s: StoreModel,
    tx: TxDataV,
    now: u64,
    v: u32,
)
    requires
        s.utxos.contains_key((tx.txid, v)),
        s.utxos[(tx.txid, v)].confirmed,
        forall|i: int|
            0 <= i < tx.inputs.len() ==> !((#[trigger] tx.inputs[i]).txid == tx.txid
                && tx.inputs[i].vout == v),
    ensures
        mempool_apply_tx(s, tx, now).utxos.contains_key((tx.txid, v)),
        mempool_apply_tx(s, tx, now).utxos[(tx.txid, v)].confirmed,
{
    if !s.mempool.contains_key(tx.txid) {
        lemma_mark_inputs_preserves_other(s.utxos, tx.txid, tx.inputs, false, tx.txid, v);
        lemma_insert_outputs_preserves_existing(
            mark_inputs(s.utxos, tx.txid, tx.inputs, false),
            tx.txid,
            tx.outputs,
            false,
            None,
            tx.txid,
            v,
        );
    }
}

/// The store after ingesting a whole mempool snapshot, one transaction at
/// a time, in order.
pub open spec fn mempool_apply(s: StoreModel, txs: Seq<TxDataV>, now: u64) -> StoreModel
    decreases txs.len(),
{
    if txs.len() == 0 {
        s
    } else {
        mempool_apply_tx(mempool_apply(s, txs.drop_last(), now), txs.last(), now)
    }
}

/// The store after processing one block transaction: the outputs it
/// consumes are marked spent-and-confirmed (overwriting a prior
/// unconfirmed-spend projection), its own outputs appear as confirmed rows
/// with the block height, insert-if-absent, and a qualifying announcement
/// yields a fresh directory record, not stale, with its timer reset.
pub open spec fn block_apply_tx(s: StoreModel, tx: TxDataV, height: u64, now: u64) -> StoreModel {
    let utxos = insert_outputs(
        mark_inputs(s.utxos, tx.txid, tx.inputs, true),
        tx.txid,
        tx.outputs,
        true,
        Some(height),
    );
    let servers = match scanned_announcement(tx.lock_time, scripts_of(tx.outputs)) {
        Some(a) => s.servers.insert(
            a,
            ServerInfoV { onion_address: a, cooldown: now, stale: false },
        ),
        None => s.servers,
    };
    StoreModel { servers: servers, utxos: utxos, mempool: s.mempool, edges: s.edges }
}

/// The store after processing every transaction of one block, in order.
pub open spec fn block_apply(s: StoreModel, txs: Seq<TxDataV>, height: u64, now: u64) -> StoreModel
    decreases txs.len(),
{
    if txs.len() == 0 {
        s
    } else {
        block_apply_tx(block_apply(s, txs.drop_last(), height, now), txs.last(), height, now)
    }
}

/// Scans one transaction's outputs for an announcement; the first
/// qualifying output wins, and a transaction with the reserved lock time
/// or an output count outside 2 to 5 is never scanned.
pub fn scan_tx_for_announcement(tx: &TxData) -> (r: Option<String>)
    ensures
        r is Some <==> scanned_announcement(tx.lock_time, scripts_of(tx@.outputs)) is Some,
        r matches Some(s) ==> scanned_announcement(tx.lock_time, scripts_of(tx@.outputs)) == Some(
            s@,
        ),
{
    let ghost scripts = scripts_of(tx@.outputs);
    if tx.lock_time == 0 || tx.outputs.len() < 2 || tx.outputs.len() > 5 {
        return None;
    }
    let n = tx.outputs.len();
    let mut i: usize = 0;
    while i < n
        invariant
            i <= n,
            n == scripts.len(),
            scripts == scripts_of(tx@.outputs),
            n == tx.outputs@.len(),
            tx.lock_time != 0,
            2 <= n <= 5,
            forall|j: int| 0 <= j < i ==> extracted_addr(#[trigger] scripts[j]) is None,
        decreases n - i,
    {
        let out = &tx.outputs[i];
        proof {
            assert(out.script_pubkey@ == scripts[i as int]);
        }
        let found = extract_onion_address_from_script(out.script_pubkey.as_slice());
        match found {
            Some(s) => {
                proof {
                    lemma_first_announcement_skip(scripts, i as int);
                    assert(scripts.skip(i as int).first() == scripts[i as int]);
                    assert(first_announcement(scripts) == Some(s@));
                }
                return Some(s);
            },
            None => {
            },
        }
        i += 1;
    }
    proof {
        lemma_first_announcement_skip(scripts, n as int);
        assert(scripts.skip(n as int).len() == 0);
    }
    None
}

/// Scanning starts at the first script whose predecessors all failed to
/// extract.
proof fn lemma_first_announcement_skip(scripts: Seq<Seq<u8>>, k: int)
    requires
        0 <= k <= scripts.len(),
        forall|j: int| 0 <= j < k ==> extracted_addr(#[trigger] scripts[j]) is None,
    ensures
        first_announcement(scripts) == first_announcement(scripts.skip(k)),
    decreases k,
{
    if k > 0 {
        lemma_first_announcement_skip(scripts, k - 1);
        let tail = scripts.skip(k - 1);
        assert(tail.first() == scripts[k - 1]);
        assert(extracted_addr(tail.first()) is None);
        assert(tail.drop_first() =~= scripts.skip(k));
        assert(first_announcement(tail) == first_announcement(scripts.skip(k)));
    } else {
        assert(scripts.skip(0) =~= scripts);
    }
}

/// Ingests one mempool transaction.
pub fn process_mempool_tx(store: &mut DirectoryStore, tx: &TxData, now: u64)
    requires
        old(store).wf(),
        tx.outputs@.len() <= u32::MAX,
    ensures
        final(store).wf(),
        model_of(*final(store)) == mempool_apply_tx(model_of(*old(store)), tx@, now),
{
    if store.contains_mempool_tx(tx.txid.as_str()) {
        return ;
    }
    store.insert_mempool_tx(tx.txid.clone(), now);
    let ghost edges0 = store.mempool_inputs_seq().map_values(|e: MempoolInput| e@);
    let ghost utxos0 = store.utxos_map();
    let ghost inputs = tx@.inputs;
    let n = tx.inputs.len();
    let mut i: usize = 0;
    while i < n
        invariant
            i <= n,
            n == tx.inputs@.len(),
            inputs == tx@.inputs,
            store.wf(),
            store.mempool_map().contains_key(tx.txid@),
            store.servers_seq() == old(store).servers_seq(),
            store.mempool_map() == old(store).mempool_map().insert(tx.txid@, now),
            store.utxos_map() == mark_inputs(utxos0, tx.txid@, inputs.take(i as int), false),
            store.mempool_inputs_seq().map_values(|e: MempoolInput| e@) == edges0 + edges_of(
                tx.txid@,
                inputs.take(i as int),
            ),
        decreases n - i,
    {
        let ghost taken = inputs.take(i as int);
        let ghost taken_next = inputs.take(i + 1int);
        proof {
            assert(taken_next.drop_last() =~= taken);
            assert(taken_next.last() == inputs[i as int]);
        }
        let prev = &tx.inputs[i];
        proof {
            assert(prev@ == inputs[i as int]);
        }
        let ghost edges_before = store.mempool_inputs_seq().map_values(|e: MempoolInput| e@);
        let edge = MempoolInput {
            txid: tx.txid.clone(),
            input_txid: prev.txid.clone(),
            input_vout: prev.vout,
        };
        store.insert_mempool_input(edge);
        proof {
            assert(store.mempool_inputs_seq().map_values(|e: MempoolInput| e@) =~= edges_before.push(
                MempoolInputV {
                    txid: tx.txid@,
                    input_txid: inputs[i as int].txid,
                    input_vout: inputs[i as int].vout,
                },
            ));
            assert(edges0 + edges_of(tx.txid@, taken_next) =~= (edges0 + edges_of(
                tx.txid@,
                taken,
            )).push(
                MempoolInputV {
                    txid: tx.txid@,
                    input_txid: inputs[i as int].txid,
                    input_vout: inputs[i as int].vout,
                },
            ));
        }
        store.mark_utxo_spent(prev.txid.as_str(), prev.vout, Some(tx.txid.as_str()), false);
        i += 1;
    }
    proof {
        assert(inputs.take(n as int) =~= inputs);
    }
    insert_tx_outputs(store, tx, false, None);
    proof {
        assert(model_of(*final(store)) =~= mempool_apply_tx(model_of(*old(store)), tx@, now));
    }
}

/// Records a transaction's outputs as fresh UTXO rows, insert-if-absent.
fn insert_tx_outputs(store: &mut DirectoryStore, tx: &TxData, confirmed: bool, height: Option<u64>)
    requires
        old(store).wf(),
        tx.outputs@.len() <= u32::MAX,
    ensures
        final(store).wf(),
        final(store).utxos_map() == insert_outputs(
            old(store).utxos_map(),
            tx.txid@,
            tx@.outputs,
            confirmed,
            height,
        ),
        final(store).servers_seq() == old(store).servers_seq(),
        final(store).mempool_txs_seq() == old(store).mempool_txs_seq(),
        final(store).mempool_inputs_seq() == old(store).mempool_inputs_seq(),
{
    let ghost outs = tx@.outputs;
    let n = tx.outputs.len();
    let mut i: usize = 0;
    while i < n
        invariant
            i <= n,
            n == tx.outputs@.len(),
            n <= u32::MAX,
            outs == tx@.outputs,
            store.wf(),
            store.servers_seq() == old(store).servers_seq(),
            store.mempool_txs_seq() == old(store).mempool_txs_seq(),
            store.mempool_inputs_seq() == old(store).mempool_inputs_seq(),
            store.utxos_map() == insert_outputs(
                old(store).utxos_map(),
                tx.txid@,
                outs.take(i as int),
                confirmed,
                height,
            ),
        decreases n - i,
    {
        let ghost taken = outs.take(i as int);
        let ghost taken_next = outs.take(i + 1int);
        proof {
            assert(taken_next.drop_last() =~= taken);
            assert(taken_next.last() == outs[i as int]);
        }
        let out = &tx.outputs[i];
        proof {
            assert(out@ == outs[i as int]);
        }
        let row = Utxo {
            txid: tx.txid.clone(),
            vout: i as u32,
            value: out.value,
            script_pubkey: copy_bytes(&out.script_pubkey),
            confirmed: confirmed,
            spent: false,
            spent_by_txid: None,
            block_height: height,
        };
        store.insert_utxo_if_absent(row);
        i += 1;
    }
    proof {
        assert(outs.take(n as int) =~= outs);
    }
}

/// Processes one block transaction: spends, fresh confirmed rows, and the
/// announcement scan.
pub fn process_block_tx(store: &mut DirectoryStore, tx: &TxData, height: u64, now: u64)
    requires
        old(store).wf(),
        tx.outputs@.len() <= u32::MAX,
    ensures
        final(store).wf(),
        model_of(*final(store)) == block_apply_tx(model_of(*old(store)), tx@, height, now),
{
    let ghost utxos0 = store.utxos_map();
    let ghost inputs = tx@.inputs;
    let n = tx.inputs.len();
    let mut i: usize = 0;
    while i < n
        invariant
            i <= n,
            n == tx.inputs@.len(),
            inputs == tx@.inputs,
            store.wf(),
            store.servers_seq() == old(store).servers_seq(),
            store.mempool_txs_seq() == old(store).mempool_txs_seq(),
            store.mempool_inputs_seq() == old(store).mempool_inputs_seq(),
            store.utxos_map() == mark_inputs(utxos0, tx.txid@, inputs.take(i as int), true),
        decreases n - i,
    {
        let ghost taken = inputs.take(i as int);
        let ghost taken_next = inputs.take(i + 1int);
        proof {
            assert(taken_next.drop_last() =~= taken);
            assert(taken_next.last() == inputs[i as int]);
        }
        let prev = &tx.inputs[i];
        proof {
            assert(prev@ == inputs[i as int]);
        }
        store.mark_utxo_spent(prev.txid.as_str(), prev.vout, Some(tx.txid.as_str()), true);
        i += 1;
    }
    proof {
        assert(inputs.take(n as int) =~= inputs);
    }
    insert_tx_outputs(store, tx, true, Some(height));
    let found = scan_tx_for_announcement(tx);
    match found {
        Some(addr) => {
            let info = ServerInfo { onion_address: addr.clone(), cooldown: now, stale: false };
            store.add(addr, info);
            proof {
                assert(model_of(*final(store)) =~= block_apply_tx(
                    model_of(*old(store)),
                    tx@,
                    height,
                    now,
                ));
            }
        },
        None => {
            proof {
                assert(model_of(*final(store)) =~= block_apply_tx(
                    model_of(*old(store)),
                    tx@,
                    height,
                    now,
                ));
            }
        },
    }
}

/// The chain indexer's cursor: the watermark below which every block is
/// fully processed.
pub struct Indexer {
    pub last_tip: u64,
}

impl Indexer {
    /// A fresh indexer that has processed nothing.
    pub fn new() -> (r: Indexer)
        ensures
            r.last_tip == 0,
    {
        Indexer { last_tip: 0 }
    }

    /// Ingests one mempool snapshot, one transaction at a time, in order.
    pub fn process_mempool(&self, store: &mut DirectoryStore, txs: &Vec<TxData>, now: u64)
        requires
            old(store).wf(),
            forall|i: int| 0 <= i < txs@.len() ==> (#[trigger] txs@[i]).outputs@.len() <= u32::MAX,
        ensures
            final(store).wf(),
            model_of(*final(store)) == mempool_apply(
                model_of(*old(store)),
                txs@.map_values(|t: TxData| t@),
                now,
            ),
    {
        let ghost txviews = txs@.map_values(|t: TxData| t@);
        let n = txs.len();
        let mut i: usize = 0;
        while i < n
            invariant
                i <= n,
                n == txs@.len(),
                txviews == txs@.map_values(|t: TxData| t@),
                forall|j: int| 0 <= j < n ==> (#[trigger] txs@[j]).outputs@.len() <= u32::MAX,
                store.wf(),
                model_of(*store) == mempool_apply(
                    model_of(*old(store)),
                    txviews.take(i as int),
                    now,
                ),
            decreases n - i,
        {
            let ghost taken = txviews.take(i as int);
            let ghost taken_next = txviews.take(i + 1int);
            proof {
                assert(taken_next.drop_last() =~= taken);
                assert(taken_next.last() == txviews[i as int]);
                assert(txviews[i as int] == txs@[i as int]@);
            }
            process_mempool_tx(store, &txs[i], now);
            i += 1;
        }
        proof {
            assert(txviews.take(n as int) =~= txviews);
        }
    }

    /// Processes every transaction of one block, in order. The caller
    /// advances the watermark with `commit` only after this returns, so a
    /// crash mid-block replays from the last committed height.
    pub fn process_block(
        &self,
        store: &mut DirectoryStore,
        txs: &Vec<TxData>,
        height: u64,
        now: u64,
    )
        requires
            old(store).wf(),
            forall|i: int| 0 <= i < txs@.len() ==> (#[trigger] txs@[i]).outputs@.len() <= u32::MAX,
        ensures
            final(store).wf(),
            model_of(*final(store)) == block_apply(
                model_of(*old(store)),
                txs@.map_values(|t: TxData| t@),
                height,
                now,
            ),
    {
        let ghost txviews = txs@.map_values(|t: TxData| t@);
        let n = txs.len();
        let mut i: usize = 0;
        while i < n
            invariant
                i <= n,
                n == txs@.len(),
                txviews == txs@.map_values(|t: TxData| t@),
                forall|j: int| 0 <= j < n ==> (#[trigger] txs@[j]).outputs@.len() <= u32::MAX,
                store.wf(),
                model_of(*store) == block_apply(
                    model_of(*old(store)),
                    txviews.take(i as int),
                    height,
                    now,
                ),
            decreases n - i,
        {
            let ghost taken = txviews.take(i as int);
            let ghost taken_next = txviews.take(i + 1int);
            proof {
                assert(taken_next.drop_last() =~= taken);
                assert(taken_next.last() == txviews[i as int]);
                assert(txviews[i as int] == txs@[i as int]@);
            }
            process_block_tx(store, &txs[i], height, now);
            i += 1;
        }
        proof {
            assert(txviews.take(n as int) =~= txviews);
        }
    }

    /// The half-open range of heights one cycle must process: from the
    /// watermark up to and including the node's reported tip.
    pub fn cycle_range(&self, node_blocks: u64) -> (r: (u64, u64))
        requires
            node_blocks < u64::MAX,
        ensures
            r.0 == self.last_tip,
            r.1 == node_blocks + 1,
    {
        (self.last_tip, node_blocks + 1)
    }

    /// Commits the watermark once every block of the cycle's range is
    /// fully processed.
    pub fn commit(&mut self, tip_height: u64)
        ensures
            final(self).last_tip == tip_height,
    {
        self.last_tip = tip_height;
    }
}

} // verus!
