//! The drivers: a whole ledger, or one replayed transaction.
use vstd::prelude::*;
use crate::val::bytes_eq;
use crate::keys::{KeyDecode, KeyDecodeV, KeyV, StorageKey, decode_key, decode_key_spec, copy_bytes};
use crate::ledger::{LedgerChange, OpResult, OpBody, Transaction, TxResult, TxEnvelope, TxMeta, op_results, op_changes, op_selected, selected_upto, selected_ops, seq_num_of};
use crate::decode::DecodeError;
use crate::types::{Body, Data, Event, events_of};
use crate::owners::OwnerBook;
use crate::events::{change_events_spec, change_events};
use crate::store::{RowStore, apply_all};

verus! {

/// A storage change that could not be turned into events, and where it stood.
#[derive(Clone, Copy, Debug, PartialEq, Eq, Structural)]
pub struct Fault {
    /// Index of the transaction in its ledger.
    pub tx: usize,
    /// Index of the operation in its transaction.
    pub op: usize,
    /// Index of the change in the operation's change list.
    pub change: usize,
    pub error: DecodeError,
}

/// Events and faults of a run over storage changes; `stopped` once an offer
/// list held an item of no known variant, which ends its change list.
pub struct Run {
    pub events: Seq<Event>,
    pub faults: Seq<Fault>,
    pub stopped: bool,
}

/// The run over the first `n` changes of the change list `all` of operation
/// `op` of transaction `tx`. A change whose value does not decode is recorded
/// as a fault and the list goes on; an invalid offer ends the list.
pub open spec fn list_run(all: Seq<LedgerChange>, owners: OwnerBook, tx: usize, op: usize, n: int) -> Run
    decreases n,
{
    if n <= 0 {
        Run { events: Seq::empty(), faults: Seq::empty(), stopped: false }
    } else {
        let r = list_run(all, owners, tx, op, n - 1);
        if r.stopped {
            r
        } else {
            match change_events_spec(all[n - 1], all, owners) {
                Ok(e) => Run { events: r.events + e, faults: r.faults, stopped: false },
                Err(error) => Run {
                    events: r.events,
                    faults: r.faults.push(Fault { tx, op, change: (n - 1) as usize, error }),
                    stopped: error == DecodeError::InvalidOffer,
                },
            }
        }
    }
}

/// The events and faults of the change lists of the operations `sel` of
/// transaction `tx_index`.
pub open spec fn ops_run(tx: Transaction, tx_index: usize, owners: OwnerBook, sel: Seq<usize>) -> Run
    decreases sel.len(),
{
    if sel.len() == 0 {
        Run { events: Seq::empty(), faults: Seq::empty(), stopped: false }
    } else {
        let p = ops_run(tx, tx_index, owners, sel.drop_last());
        let all = op_changes(tx)[sel.last() as int]@;
        let l = list_run(all, owners, tx_index, sel.last(), all.len() as int);
        Run { events: p.events + l.events, faults: p.faults + l.faults, stopped: false }
    }
}

/// The events and faults of one transaction.
pub open spec fn tx_run(target: Seq<u8>, tx: Transaction, tx_index: usize, owners: OwnerBook) -> Run {
    ops_run(tx, tx_index, owners, selected_ops(target, tx))
}

/// The events, faults and sequence number of the first `n` transactions of a ledger.
pub struct LedgerRun {
    pub events: Seq<Event>,
    pub faults: Seq<Fault>,
    pub seq_num: i64,
}

/// The run over the first `n` transactions of a ledger. The sequence number is
/// that of the last transaction with an operation that concerns `target`.
pub open spec fn ledger_run(target: Seq<u8>, txs: Seq<Transaction>, owners: OwnerBook, n: int) -> LedgerRun
    decreases n,
{
    if n <= 0 {
        LedgerRun { events: Seq::empty(), faults: Seq::empty(), seq_num: 0 }
    } else {
        let p = ledger_run(target, txs, owners, n - 1);
        let t = tx_run(target, txs[n - 1], (n - 1) as usize, owners);
        LedgerRun {
            events: p.events + t.events,
            faults: p.faults + t.faults,
            seq_num: if selected_ops(target, txs[n - 1]).len() > 0 {
                seq_num_of(txs[n - 1])
            } else {
                p.seq_num
            },
        }
    }
}

/// The glyph hash whose current owner a change consults, if any: the change
/// writes or removes a glyph's offer slot.
pub open spec fn owner_query(c: LedgerChange) -> Option<Seq<u8>> {
    let k = match c {
        LedgerChange::Created(d) => decode_key_spec(d.key),
        LedgerChange::Updated(d) => decode_key_spec(d.key),
        LedgerChange::Removed(k) => decode_key_spec(k),
        _ => KeyDecodeV::NotApplicable,
    };
    match k {
        KeyDecodeV::Key(KeyV::GlyphOffer(h)) => Some(h),
        _ => None,
    }
}

/// The owner queries of a change list, in order.
pub open spec fn list_queries(all: Seq<LedgerChange>) -> Seq<Seq<u8>>
    decreases all.len(),
{
    if all.len() == 0 {
        Seq::empty()
    } else {
        match owner_query(all.last()) {
            Some(h) => list_queries(all.drop_last()).push(h),
            None => list_queries(all.drop_last()),
        }
    }
}

/// The owner queries of the operations `sel` of a transaction.
pub open spec fn ops_queries(tx: Transaction, sel: Seq<usize>) -> Seq<Seq<u8>>
    decreases sel.len(),
{
    if sel.len() == 0 {
        Seq::empty()
    } else {
        ops_queries(tx, sel.drop_last()) + list_queries(op_changes(tx)[sel.last() as int]@)
    }
}

/// The owner queries of the first `n` transactions of a ledger.
pub open spec fn ledger_queries(target: Seq<u8>, txs: Seq<Transaction>, n: int) -> Seq<Seq<u8>>
    decreases n,
{
    if n <= 0 {
        Seq::empty()
    } else {
        ledger_queries(target, txs, n - 1) + ops_queries(txs[n - 1], selected_ops(target, txs[n - 1]))
    }
}

/// The byte strings that a sequence of byte vectors stands for.
pub open spec fn byte_views(v: Seq<Vec<u8>>) -> Seq<Seq<u8>> {
    v.map_values(|b: Vec<u8>| b@)
}

/// What one ledger or one transaction gave: its events, and the changes
/// that could not be decoded.
#[derive(Debug)]
pub struct Outcome {
    pub body: Body,
    pub faults: Vec<Fault>,
}

/// The pipeline for one contract.
#[derive(Debug)]
pub struct Projector {
    /// The id of the contract whose storage is projected.
    pub contract: Vec<u8>,
}

impl Projector {
    /// A pipeline for the contract with this id.
    pub fn new(contract: Vec<u8>) -> (r: Projector)
        ensures
            r.contract@ == contract@,
    {
        Projector { contract }
    }

    /// Whether operation `i` of `tx` is a successful invocation of this
    /// pipeline's contract whose storage changes are known.
    pub fn is_selected(&self, tx: &Transaction, i: usize) -> (r: bool)
        ensures
            r == op_selected(self.contract@, *tx, i as int),
    {
        let results = match &tx.result {
            TxResult::Success(r) => r,
            TxResult::FeeBumpInnerSuccess(r) => r,
            TxResult::Failed => {
                return false;
            },
        };
        let body = match &tx.envelope {
            TxEnvelope::Tx(b) => b,
            TxEnvelope::FeeBump(b) => b,
            TxEnvelope::Other => {
                return false;
            },
        };
        let metas = match &tx.meta {
            TxMeta::V3(m) => m,
            TxMeta::Other => {
                return false;
            },
        };
        if i >= results.len() || i >= body.operations.len() || i >= metas.len() {
            return false;
        }
        if results[i] != OpResult::InvokeSuccess {
            return false;
        }
        match &body.operations[i] {
            OpBody::InvokeContract(c) => bytes_eq(c, &self.contract),
            OpBody::Other => false,
        }
    }

    /// The operations of `tx` whose storage changes concern this pipeline's
    /// contract: for a transaction (or a fee-bump's inner transaction) that
    /// succeeded, each operation that is a successful invocation of the
    /// contract, paired by position with its change list.
    pub fn invoked_operations(&self, tx: &Transaction) -> (r: Vec<usize>)
        ensures
            r@ == selected_ops(self.contract@, *tx),
    {
        let n = match &tx.result {
            TxResult::Success(r) => r.len(),
            TxResult::FeeBumpInnerSuccess(r) => r.len(),
            TxResult::Failed => 0,
        };
        let mut out: Vec<usize> = Vec::new();
        let mut i: usize = 0;
        while i < n
            invariant
                i <= n,
                n == op_results(*tx).len(),
                out@ == selected_upto(self.contract@, *tx, i as int),
            decreases n - i,
        {
            if self.is_selected(tx, i) {
                out.push(i);
            }
            i = i + 1;
        }
        out
    }

    /// The events of the change list `all` of operation `op` of transaction
    /// `tx`, in the order of the list, with the changes that failed to decode.
    pub fn change_list_events(all: &Vec<LedgerChange>, owners: &OwnerBook, tx: usize, op: usize) -> (r: (
        Vec<Data>,
        Vec<Fault>,
    ))
        ensures
            events_of(r.0@) == list_run(all@, *owners, tx, op, all@.len() as int).events,
            r.1@ == list_run(all@, *owners, tx, op, all@.len() as int).faults,
    {
        let mut events: Vec<Data> = Vec::new();
        let mut faults: Vec<Fault> = Vec::new();
        let mut stopped = false;
        let mut i: usize = 0;
        assert(events_of(events@) =~= Seq::<Event>::empty());
        while i < all.len()
            invariant
                i <= all.len(),
                events_of(events@) == list_run(all@, *owners, tx, op, i as int).events,
                faults@ == list_run(all@, *owners, tx, op, i as int).faults,
                stopped == list_run(all@, *owners, tx, op, i as int).stopped,
            decreases all.len() - i,
        {
            if !stopped {
                match change_events(&all[i], all, owners) {
                    Ok(mut e) => {
                        let ghost prev = events@;
                        let ghost new = e@;
                        events.append(&mut e);
                        assert(events_of(events@) =~= events_of(prev) + events_of(new));
                    },
                    Err(error) => {
                        faults.push(Fault { tx, op, change: i, error });
                        stopped = error == DecodeError::InvalidOffer;
                    },
                }
            }
            i = i + 1;
        }
        (events, faults)
    }

    /// The events of one transaction, whose index in its ledger is `tx_index`.
    pub fn transaction_events(&self, tx: &Transaction, tx_index: usize, owners: &OwnerBook) -> (r: (
        Vec<Data>,
        Vec<Fault>,
    ))
        ensures
            events_of(r.0@) == tx_run(self.contract@, *tx, tx_index, *owners).events,
            r.1@ == tx_run(self.contract@, *tx, tx_index, *owners).faults,
    {
        let sel = self.invoked_operations(tx);
        let mut events: Vec<Data> = Vec::new();
        let mut faults: Vec<Fault> = Vec::new();
        assert(events_of(events@) =~= Seq::<Event>::empty());
        let mut k: usize = 0;
        while k < sel.len()
            invariant
                k <= sel.len(),
                sel@ == selected_ops(self.contract@, *tx),
                events_of(events@) == ops_run(*tx, tx_index, *owners, sel@.subrange(0, k as int)).events,
                faults@ == ops_run(*tx, tx_index, *owners, sel@.subrange(0, k as int)).faults,
            decreases sel.len() - k,
        {
            let i = sel[k];
            proof {
                lemma_selected_upto_valid(self.contract@, *tx, op_results(*tx).len() as int, k as int);
                assert(sel@.subrange(0, k + 1).drop_last() =~= sel@.subrange(0, k as int));
            }
            let metas = match &tx.meta {
                TxMeta::V3(m) => m,
                TxMeta::Other => {
                    proof { assert(false); }
                    return (events, faults);
                },
            };
            let (mut e, mut f) = Self::change_list_events(&metas[i], owners, tx_index, i);
            let ghost pe = events@;
            let ghost ne = e@;
            let ghost pf = faults@;
            let ghost nf = f@;
            events.append(&mut e);
            faults.append(&mut f);
            assert(events_of(events@) =~= events_of(pe) + events_of(ne));
            assert(faults@ =~= pf + nf);
            k = k + 1;
        }
        assert(sel@.subrange(0, k as int) =~= sel@);
        (events, faults)
    }

    /// The events of a whole ledger, transaction by transaction, each
    /// transaction's storage changes in the order the chain emitted them.
    pub fn ledger_events(&self, txs: &Vec<Transaction>, owners: &OwnerBook) -> (r: Outcome)
        ensures
            events_of(r.body.data@) == ledger_run(self.contract@, txs@, *owners, txs@.len() as int).events,
            r.faults@ == ledger_run(self.contract@, txs@, *owners, txs@.len() as int).faults,
            r.body.seq_num == ledger_run(self.contract@, txs@, *owners, txs@.len() as int).seq_num,
    {
        let mut data: Vec<Data> = Vec::new();
        let mut faults: Vec<Fault> = Vec::new();
        let mut seq_num: i64 = 0;
        assert(events_of(data@) =~= Seq::<Event>::empty());
        let mut i: usize = 0;
        while i < txs.len()
            invariant
                i <= txs.len(),
                events_of(data@) == ledger_run(self.contract@, txs@, *owners, i as int).events,
                faults@ == ledger_run(self.contract@, txs@, *owners, i as int).faults,
                seq_num == ledger_run(self.contract@, txs@, *owners, i as int).seq_num,
            decreases txs.len() - i,
        {
            let tx = &txs[i];
            let (mut e, mut f) = self.transaction_events(tx, i, owners);
            if self.invoked_operations(tx).len() > 0 {
                seq_num = match &tx.envelope {
                    TxEnvelope::Tx(b) => b.seq_num,
                    TxEnvelope::FeeBump(b) => b.seq_num,
                    TxEnvelope::Other => 0,
                };
            }
            let ghost pe = data@;
            let ghost ne = e@;
            let ghost pf = faults@;
            let ghost nf = f@;
            data.append(&mut e);
            faults.append(&mut f);
            assert(events_of(data@) =~= events_of(pe) + events_of(ne));
            assert(faults@ =~= pf + nf);
            i = i + 1;
        }
        Outcome { body: Body { seq_num, data }, faults }
    }

    /// Appends the glyph hashes whose owner the change list `all` consults.
    fn push_list_queries(out: &mut Vec<Vec<u8>>, all: &Vec<LedgerChange>)
        ensures
            byte_views(final(out)@) == byte_views(old(out)@) + list_queries(all@),
    {
        let ghost start = byte_views(out@);
        let mut i: usize = 0;
        assert(all@.subrange(0, 0) =~= Seq::<LedgerChange>::empty());
        assert(start + Seq::<Seq<u8>>::empty() =~= start);
        while i < all.len()
            invariant
                i <= all.len(),
                byte_views(out@) == start + list_queries(all@.subrange(0, i as int)),
            decreases all.len() - i,
        {
            let ghost prev = out@;
            assert(all@.subrange(0, i + 1).drop_last() =~= all@.subrange(0, i as int));
            assert(all@.subrange(0, i + 1).last() == all@[i as int]);
            let k = match &all[i] {
                LedgerChange::Created(d) => decode_key(&d.key),
                LedgerChange::Updated(d) => decode_key(&d.key),
                LedgerChange::Removed(k) => decode_key(k),
                _ => KeyDecode::NotApplicable,
            };
            if let KeyDecode::Key(StorageKey::GlyphOffer(h)) = &k {
                out.push(copy_bytes(h));
                assert(byte_views(out@) =~= byte_views(prev).push(h@));
            }
            i = i + 1;
        }
        assert(all@.subrange(0, i as int) =~= all@);
    }

    /// The glyph hashes whose current owner processing `txs` consults, in
    /// the order it consults them. The contract-state reader is asked for
    /// these before the ledger is processed.
    pub fn owner_lookups(&self, txs: &Vec<Transaction>) -> (r: Vec<Vec<u8>>)
        ensures
            byte_views(r@) == ledger_queries(self.contract@, txs@, txs@.len() as int),
    {
        let mut out: Vec<Vec<u8>> = Vec::new();
        assert(byte_views(out@) =~= Seq::<Seq<u8>>::empty());
        let mut t: usize = 0;
        while t < txs.len()
            invariant
                t <= txs.len(),
                byte_views(out@) == ledger_queries(self.contract@, txs@, t as int),
            decreases txs.len() - t,
        {
            let tx = &txs[t];
            let sel = self.invoked_operations(tx);
            let ghost base = byte_views(out@);
            let mut k: usize = 0;
            assert(base + ops_queries(*tx, sel@.subrange(0, 0)) =~= base);
            while k < sel.len()
                invariant
                    k <= sel.len(),
                    sel@ == selected_ops(self.contract@, *tx),
                    tx == &txs@[t as int],
                    byte_views(out@) == base + ops_queries(*tx, sel@.subrange(0, k as int)),
                decreases sel.len() - k,
            {
                let i = sel[k];
                proof {
                    lemma_selected_upto_valid(self.contract@, *tx, op_results(*tx).len() as int, k as int);
                    assert(sel@.subrange(0, k + 1).drop_last() =~= sel@.subrange(0, k as int));
                }
                let metas = match &tx.meta {
                    TxMeta::V3(m) => m,
                    TxMeta::Other => {
                        proof { assert(false); }
                        return out;
                    },
                };
                let ghost before = byte_views(out@);
                Self::push_list_queries(&mut out, &metas[i]);
                assert(base + ops_queries(*tx, sel@.subrange(0, k + 1)) =~= before + list_queries(metas@[i as int]@));
                k = k + 1;
            }
            assert(sel@.subrange(0, k as int) =~= sel@);
            t = t + 1;
        }
        out
    }

    /// Processes one ledger: the events of every transaction, in order,
    /// applied to the row store.
    pub fn process_ledger(&self, store: &mut RowStore, txs: &Vec<Transaction>, owners: &OwnerBook) -> (r: Outcome)
        requires
            old(store).wf(),
        ensures
            final(store).wf(),
            events_of(r.body.data@) == ledger_run(self.contract@, txs@, *owners, txs@.len() as int).events,
            r.faults@ == ledger_run(self.contract@, txs@, *owners, txs@.len() as int).faults,
            r.body.seq_num == ledger_run(self.contract@, txs@, *owners, txs@.len() as int).seq_num,
            final(store)@ == apply_all(old(store)@, events_of(r.body.data@)),
    {
        let r = self.ledger_events(txs, owners);
        store.apply_all(&r.body.data);
        r
    }

    /// Replays one transaction, supplied on its own, through the same
    /// pipeline, and applies its events to the row store.
    pub fn replay_transaction(&self, store: &mut RowStore, tx: &Transaction, owners: &OwnerBook) -> (r: Outcome)
        requires
            old(store).wf(),
        ensures
            final(store).wf(),
            events_of(r.body.data@) == tx_run(self.contract@, *tx, 0, *owners).events,
            r.faults@ == tx_run(self.contract@, *tx, 0, *owners).faults,
            r.body.seq_num == (if selected_ops(self.contract@, *tx).len() > 0 {
                seq_num_of(*tx)
            } else {
                0
            }),
            final(store)@ == apply_all(old(store)@, events_of(r.body.data@)),
    {
        let (data, faults) = self.transaction_events(tx, 0, owners);
        let seq_num = if self.invoked_operations(tx).len() > 0 {
            match &tx.envelope {
                TxEnvelope::Tx(b) => b.seq_num,
                TxEnvelope::FeeBump(b) => b.seq_num,
                TxEnvelope::Other => 0,
            }
        } else {
            0
        };
        store.apply_all(&data);
        Outcome { body: Body { seq_num, data }, faults }
    }
}

/// Every operation that the walk selects is selected, and lies within the
/// transaction's change lists.
proof fn lemma_selected_upto_valid(target: Seq<u8>, tx: Transaction, n: int, k: int)
    requires
        0 <= k < selected_upto(target, tx, n).len(),
    ensures
        op_selected(target, tx, selected_upto(target, tx, n)[k] as int),
    decreases n,
{
    if n > 0 {
        if op_selected(target, tx, n - 1) && k == selected_upto(target, tx, n - 1).len() {
            match tx.result {
                TxResult::Success(r) => assert(r@.len() == r.len()),
                TxResult::FeeBumpInnerSuccess(r) => assert(r@.len() == r.len()),
                TxResult::Failed => {},
            }
        } else {
            lemma_selected_upto_valid(target, tx, n - 1, k);
        }
    }
}

} // verus!
