//! Rows of the tracker's ledger projection: UTXOs, mempool transactions,
//! and the pre-confirmation spend edges between them.

use vstd::prelude::*;

verus! {

/// A reference to one output of one transaction.
#[derive(Clone, Debug)]
pub struct OutPoint {
    pub txid: String,
    pub vout: u32,
}

/// Mathematical value of an `OutPoint`.
pub struct OutPointV {
    pub txid: Seq<char>,
    pub vout: u32,
}

impl View for OutPoint {
    type V = OutPointV;

    open spec fn view(&self) -> OutPointV {
        OutPointV { txid: self.txid@, vout: self.vout }
    }
}

/// One row of the UTXO ledger, keyed by (txid, vout).
///
/// A row is created unconfirmed when first seen in the mempool, or confirmed
/// when first seen in a block; it is never deleted. `confirmed` records
/// whether the latest event touching the row (creation or spend) was seen in
/// a block; `spent_by_txid` records the transaction believed to consume it.
#[derive(Clone, Debug)]
pub struct Utxo {
    pub txid: String,
    pub vout: u32,
    pub value: u64,
    pub script_pubkey: Vec<u8>,
    pub confirmed: bool,
    pub spent: bool,
    pub spent_by_txid: Option<String>,
    pub block_height: Option<u64>,
}

/// Mathematical value of a `Utxo` row.
pub struct UtxoV {
    pub txid: Seq<char>,
    pub vout: u32,
    pub value: u64,
    pub script_pubkey: Seq<u8>,
    pub confirmed: bool,
    pub spent: bool,
    pub spent_by_txid: Option<Seq<char>>,
    pub block_height: Option<u64>,
}

impl View for Utxo {
    type V = UtxoV;

    open spec fn view(&self) -> UtxoV {
        UtxoV {
            txid: self.txid@,
            vout: self.vout,
            value: self.value,
            script_pubkey: self.script_pubkey@,
            confirmed: self.confirmed,
            spent: self.spent,
            spent_by_txid: match self.spent_by_txid {
                Some(ref t) => Some(t@),
                None => None,
            },
            block_height: self.block_height,
        }
    }
}

/// A transaction currently believed unconfirmed, with the time (in seconds)
/// it was first observed in the mempool.
#[derive(Clone, Debug)]
pub struct MempoolTx {
    pub txid: String,
    pub seen_at: u64,
}

/// Mathematical value of a `MempoolTx`.
pub struct MempoolTxV {
    pub txid: Seq<char>,
    pub seen_at: u64,
}

impl View for MempoolTx {
    type V = MempoolTxV;

    open spec fn view(&self) -> MempoolTxV {
        MempoolTxV { txid: self.txid@, seen_at: self.seen_at }
    }
}

/// An edge of the pre-confirmation spend graph: `txid` is a mempool
/// transaction that consumes the output (`input_txid`, `input_vout`).
#[derive(Clone, Debug)]
pub struct MempoolInput {
    pub txid: String,
    pub input_txid: String,
    pub input_vout: u32,
}

/// Mathematical value of a `MempoolInput`.
pub struct MempoolInputV {
    pub txid: Seq<char>,
    pub input_txid: Seq<char>,
    pub input_vout: u32,
}

impl View for MempoolInput {
    type V = MempoolInputV;

    open spec fn view(&self) -> MempoolInputV {
        MempoolInputV { txid: self.txid@, input_txid: self.input_txid@, input_vout: self.input_vout }
    }
}

impl MempoolInputV {
    /// True when this edge spends the given outpoint.
    pub open spec fn spends(self, o: OutPointV) -> bool {
        self.input_txid == o.txid && self.input_vout == o.vout
    }
}

/// A byte-for-byte copy of a byte vector.
pub fn copy_bytes(v: &Vec<u8>) -> (r: Vec<u8>)
    ensures
        r@ == v@,
{
    let mut r: Vec<u8> = Vec::new();
    let mut i: usize = 0;
    while i < v.len()
        invariant
            i <= v@.len(),
            r@ == v@.take(i as int),
        decreases v@.len() - i,
    {
        r.push(v[i]);
        proof {
            assert(v@.take(i + 1int) =~= v@.take(i as int).push(v@[i as int]));
        }
        i += 1;
    }
    proof {
        assert(v@.take(v@.len() as int) =~= v@);
    }
    r
}

impl Utxo {
    /// A field-for-field copy whose value equals this row's.
    pub fn duplicate(&self) -> (r: Utxo)
        ensures
            r@ == self@,
    {
        Utxo {
            txid: self.txid.clone(),
            vout: self.vout,
            value: self.value,
            script_pubkey: copy_bytes(&self.script_pubkey),
            confirmed: self.confirmed,
            spent: self.spent,
            spent_by_txid: match &self.spent_by_txid {
                Some(s) => Some(s.clone()),
                None => None,
            },
            block_height: self.block_height,
        }
    }
}

impl MempoolTx {
    /// A field-for-field copy whose value equals this row's.
    pub fn duplicate(&self) -> (r: MempoolTx)
        ensures
            r@ == self@,
    {
        MempoolTx { txid: self.txid.clone(), seen_at: self.seen_at }
    }
}

} // verus!
