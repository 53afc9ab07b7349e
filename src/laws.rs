//! Properties that relate the pipeline's parts.
use vstd::prelude::*;
use crate::keys::{KeyDecodeV, decode_key_spec};
use crate::ledger::{LedgerChange, Transaction, op_changes, selected_ops};
use crate::decode::DecodeError;
use crate::types::Event;
use crate::owners::OwnerBook;
use crate::events::change_events_spec;
use crate::pipeline::{list_run, ops_run, tx_run, ledger_run};
use crate::store::{StoreV, apply_event, apply_all, unique_keys};
use crate::idempotence::{patches_follow_bodies, lemma_apply_twice};

verus! {

/// The events of one transaction, wherever it stands in its ledger.
pub open spec fn tx_events(target: Seq<u8>, tx: Transaction, owners: OwnerBook) -> Seq<Event> {
    tx_run(target, tx, 0, owners).events
}

/// The events of a sequence of transactions, one transaction after another.
pub open spec fn txs_events(target: Seq<u8>, txs: Seq<Transaction>, owners: OwnerBook) -> Seq<Event>
    decreases txs.len(),
{
    if txs.len() == 0 {
        Seq::empty()
    } else {
        txs_events(target, txs.drop_last(), owners) + tx_events(target, txs.last(), owners)
    }
}

/// Where a change list stands does not change its events.
proof fn lemma_list_run_events(
    all: Seq<LedgerChange>,
    owners: OwnerBook,
    tx: usize,
    op: usize,
    tx2: usize,
    op2: usize,
    n: int,
)
    ensures
        list_run(all, owners, tx, op, n).events == list_run(all, owners, tx2, op2, n).events,
        list_run(all, owners, tx, op, n).stopped == list_run(all, owners, tx2, op2, n).stopped,
    decreases n,
{
    if n > 0 {
        lemma_list_run_events(all, owners, tx, op, tx2, op2, n - 1);
    }
}

/// Where a transaction stands in its ledger does not change its events.
proof fn lemma_ops_run_events(tx: Transaction, k: usize, owners: OwnerBook, sel: Seq<usize>)
    ensures
        ops_run(tx, k, owners, sel).events == ops_run(tx, 0, owners, sel).events,
    decreases sel.len(),
{
    if sel.len() > 0 {
        lemma_ops_run_events(tx, k, owners, sel.drop_last());
        let all = op_changes(tx)[sel.last() as int]@;
        lemma_list_run_events(all, owners, k, sel.last(), 0, sel.last(), all.len() as int);
    }
}

/// The events of the first `n` transactions of a ledger.
proof fn lemma_ledger_run_events(target: Seq<u8>, txs: Seq<Transaction>, owners: OwnerBook, n: int)
    requires
        0 <= n <= txs.len(),
    ensures
        ledger_run(target, txs, owners, n).events == txs_events(target, txs.subrange(0, n), owners),
    decreases n,
{
    if n > 0 {
        lemma_ledger_run_events(target, txs, owners, n - 1);
        assert(txs.subrange(0, n).drop_last() =~= txs.subrange(0, n - 1));
        lemma_ops_run_events(txs[n - 1], (n - 1) as usize, owners, selected_ops(target, txs[n - 1]));
    } else {
        assert(txs.subrange(0, n) =~= Seq::<Transaction>::empty());
    }
}

/// The events of two runs of transactions, one after the other.
proof fn lemma_txs_events_concat(
    target: Seq<u8>,
    a: Seq<Transaction>,
    b: Seq<Transaction>,
    owners: OwnerBook,
)
    ensures
        txs_events(target, a + b, owners) == txs_events(target, a, owners) + txs_events(
            target,
            b,
            owners,
        ),
    decreases b.len(),
{
    if b.len() == 0 {
        assert(a + b =~= a);
        assert(txs_events(target, a, owners) + Seq::<Event>::empty() =~= txs_events(target, a, owners));
    } else {
        assert((a + b).drop_last() =~= a + b.drop_last());
        lemma_txs_events_concat(target, a, b.drop_last(), owners);
        assert(txs_events(target, a, owners) + txs_events(target, b.drop_last(), owners) + tx_events(
            target,
            b.last(),
            owners,
        ) =~= txs_events(target, a, owners) + (txs_events(target, b.drop_last(), owners) + tx_events(
            target,
            b.last(),
            owners,
        )));
    }
}

/// Applying two runs of events is applying the first, then the second.
pub proof fn lemma_apply_all_concat(s: StoreV, a: Seq<Event>, b: Seq<Event>)
    ensures
        apply_all(s, a + b) == apply_all(apply_all(s, a), b),
    decreases b.len(),
{
    if b.len() == 0 {
        assert(a + b =~= a);
    } else {
        assert((a + b).drop_last() =~= a + b.drop_last());
        lemma_apply_all_concat(s, a, b.drop_last());
    }
}

/// Replaying transaction `i` of a ledger on its own gives exactly the events
/// that processing the whole ledger attributes to it: the ledger's events are
/// those of the transactions before it, then the replay's, then those of the
/// transactions after it. So the row store ends the same whether the ledger
/// is processed at once, or its transactions are replayed one by one.
pub proof fn lemma_replay_equivalence(
    target: Seq<u8>,
    txs: Seq<Transaction>,
    owners: OwnerBook,
    i: int,
    s: StoreV,
)
    requires
        0 <= i < txs.len(),
    ensures
        ledger_run(target, txs, owners, txs.len() as int).events == txs_events(
            target,
            txs.subrange(0, i),
            owners,
        ) + tx_run(target, txs[i], 0, owners).events + txs_events(
            target,
            txs.subrange(i + 1, txs.len() as int),
            owners,
        ),
        apply_all(s, ledger_run(target, txs, owners, txs.len() as int).events) == apply_all(
            apply_all(
                apply_all(s, txs_events(target, txs.subrange(0, i), owners)),
                tx_run(target, txs[i], 0, owners).events,
            ),
            txs_events(target, txs.subrange(i + 1, txs.len() as int), owners),
        ),
{
    let n = txs.len() as int;
    let pre = txs.subrange(0, i);
    let post = txs.subrange(i + 1, n);
    lemma_ledger_run_events(target, txs, owners, n);
    assert(txs.subrange(0, n) =~= pre + seq![txs[i]] + post);
    lemma_txs_events_concat(target, pre + seq![txs[i]], post, owners);
    lemma_txs_events_concat(target, pre, seq![txs[i]], owners);
    assert(seq![txs[i]].drop_last() =~= Seq::<Transaction>::empty());
    assert(txs_events(target, Seq::<Transaction>::empty(), owners) == Seq::<Event>::empty());
    assert(Seq::<Event>::empty() + tx_events(target, txs[i], owners) =~= tx_events(target, txs[i], owners));
    assert(txs_events(target, seq![txs[i]], owners) == tx_events(target, txs[i], owners));
    let e_pre = txs_events(target, pre, owners);
    let e_tx = tx_events(target, txs[i], owners);
    let e_post = txs_events(target, post, owners);
    lemma_apply_all_concat(s, e_pre + e_tx, e_post);
    lemma_apply_all_concat(s, e_pre, e_tx);
}

/// An owner event for a glyph that has no row changes nothing, and creates
/// no row.
pub proof fn lemma_owner_without_glyph_dropped(s: StoreV, e: Event)
    requires
        e matches Event::GlyphOwner { .. } || e matches Event::GlyphMinter { .. },
        forall|i: int|
            0 <= i < s.glyphs.len() ==> (#[trigger] s.glyphs[i]).hash != match e {
                Event::GlyphOwner { hash, .. } => hash,
                Event::GlyphMinter { hash, .. } => hash,
                _ => Seq::empty(),
            },
    ensures
        apply_event(s, e) == s,
{
    match e {
        Event::GlyphOwner { hash, .. } => {
            crate::store::lemma_first_index(s.glyphs, crate::store::glyph_key(hash));
            if let Some(i) = crate::store::first_index(s.glyphs, crate::store::glyph_key(hash)) {
                assert(s.glyphs[i].hash == hash);
            }
        },
        Event::GlyphMinter { hash, .. } => {
            crate::store::lemma_first_index(s.glyphs, crate::store::glyph_key(hash));
            if let Some(i) = crate::store::first_index(s.glyphs, crate::store::glyph_key(hash)) {
                assert(s.glyphs[i].hash == hash);
            }
        },
        _ => {},
    }
}

/// A storage change whose key is none of the contract's gives no event and
/// no error, and so leaves the row store as it is.
pub proof fn lemma_non_domain_key(c: LedgerChange, all: Seq<LedgerChange>, owners: OwnerBook, s: StoreV)
    requires
        match c {
            LedgerChange::Created(d) => decode_key_spec(d.key) == KeyDecodeV::NotApplicable,
            LedgerChange::Updated(d) => decode_key_spec(d.key) == KeyDecodeV::NotApplicable,
            LedgerChange::Removed(k) => decode_key_spec(k) == KeyDecodeV::NotApplicable,
            _ => true,
        },
    ensures
        change_events_spec(c, all, owners) == Ok::<Seq<Event>, DecodeError>(Seq::empty()),
        apply_all(s, Seq::<Event>::empty()) == s,
{
}

/// Processing the same ledger twice leaves the row store as processing it
/// once: no colour, glyph or offer row is inserted a second time, and no
/// column ends otherwise. This holds where an owner or minter event of the
/// ledger that precedes the body event of its glyph concerns a glyph that
/// already had a row (the first time such an event is dropped, the second
/// time it applies).
pub proof fn lemma_process_ledger_idempotent(
    target: Seq<u8>,
    txs: Seq<Transaction>,
    owners: OwnerBook,
    s: StoreV,
)
    requires
        unique_keys(s),
        patches_follow_bodies(s, ledger_run(target, txs, owners, txs.len() as int).events),
    ensures
        apply_all(
            apply_all(s, ledger_run(target, txs, owners, txs.len() as int).events),
            ledger_run(target, txs, owners, txs.len() as int).events,
        ) == apply_all(s, ledger_run(target, txs, owners, txs.len() as int).events),
{
    lemma_apply_twice(s, ledger_run(target, txs, owners, txs.len() as int).events);
}

} // verus!
