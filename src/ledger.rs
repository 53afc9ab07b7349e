//! A plain model of transactions, their results and their storage changes.
use vstd::prelude::*;
use crate::val::Val;

verus! {

/// A contract-data ledger entry: a storage key and its value.
#[derive(Debug)]
pub struct ContractData {
    pub key: Val,
    pub val: Val,
}

/// One entry of a storage-change list.
#[derive(Debug)]
pub enum LedgerChange {
    /// The slot was created.
    Created(ContractData),
    /// The slot was overwritten.
    Updated(ContractData),
    /// The slot was removed; only its key is known.
    Removed(Val),
    /// The slot's value before this ledger (its pre-image).
    State(ContractData),
    /// A change to a ledger entry that is not contract data.
    Unrelated,
}

/// The result of one operation.
#[derive(Clone, Copy, Debug, PartialEq, Eq, Structural)]
pub enum OpResult {
    /// A host-function invocation that succeeded.
    InvokeSuccess,
    /// Any other operation result.
    Other,
}

/// The result of a transaction, fee-bump wrapping included.
#[derive(Debug)]
pub enum TxResult {
    /// The transaction succeeded, with one result per operation.
    Success(Vec<OpResult>),
    /// A fee-bump transaction whose inner transaction succeeded.
    FeeBumpInnerSuccess(Vec<OpResult>),
    /// The transaction (or its inner transaction) failed.
    Failed,
}

/// The static body of one operation.
#[derive(Debug)]
pub enum OpBody {
    /// Invokes a function of the contract with this id.
    InvokeContract(Vec<u8>),
    /// Any other operation.
    Other,
}

/// A transaction's sequence number and operations.
#[derive(Debug)]
pub struct TxBody {
    pub seq_num: i64,
    pub operations: Vec<OpBody>,
}

/// A transaction envelope.
#[derive(Debug)]
pub enum TxEnvelope {
    /// A plain transaction.
    Tx(TxBody),
    /// A fee-bump wrapping of an inner transaction.
    FeeBump(TxBody),
    /// An envelope of another (legacy) shape.
    Other,
}

/// A transaction's application metadata.
#[derive(Debug)]
pub enum TxMeta {
    /// One storage-change list per operation.
    V3(Vec<Vec<LedgerChange>>),
    /// Metadata of another version.
    Other,
}

/// One transaction of a ledger, with its result and metadata.
#[derive(Debug)]
pub struct Transaction {
    pub envelope: TxEnvelope,
    pub result: TxResult,
    pub meta: TxMeta,
}

/// The per-operation results of a transaction that succeeded; none otherwise.
pub open spec fn op_results(tx: Transaction) -> Seq<OpResult> {
    match tx.result {
        TxResult::Success(r) => r@,
        TxResult::FeeBumpInnerSuccess(r) => r@,
        TxResult::Failed => Seq::empty(),
    }
}

/// The operations of a transaction, a fee-bump's inner transaction unwrapped.
pub open spec fn op_bodies(tx: Transaction) -> Seq<OpBody> {
    match tx.envelope {
        TxEnvelope::Tx(b) => b.operations@,
        TxEnvelope::FeeBump(b) => b.operations@,
        TxEnvelope::Other => Seq::empty(),
    }
}

/// The sequence number of a transaction, a fee-bump's inner transaction unwrapped.
pub open spec fn seq_num_of(tx: Transaction) -> i64 {
    match tx.envelope {
        TxEnvelope::Tx(b) => b.seq_num,
        TxEnvelope::FeeBump(b) => b.seq_num,
        TxEnvelope::Other => 0,
    }
}

/// The per-operation storage-change lists of a transaction.
pub open spec fn op_changes(tx: Transaction) -> Seq<Vec<LedgerChange>> {
    match tx.meta {
        TxMeta::V3(m) => m@,
        TxMeta::Other => Seq::empty(),
    }
}

/// Operation `i` of `tx` is a successful invocation of the contract `target`
/// whose storage changes are known.
pub open spec fn op_selected(target: Seq<u8>, tx: Transaction, i: int) -> bool {
    &&& 0 <= i < op_results(tx).len()
    &&& op_results(tx)[i] == OpResult::InvokeSuccess
    &&& i < op_bodies(tx).len()
    &&& match op_bodies(tx)[i] {
        OpBody::InvokeContract(c) => c@ == target,
        OpBody::Other => false,
    }
    &&& i < op_changes(tx).len()
}

/// The selected operations among the first `n` results, in order.
pub open spec fn selected_upto(target: Seq<u8>, tx: Transaction, n: int) -> Seq<usize>
    decreases n,
{
    if n <= 0 {
        Seq::empty()
    } else if op_selected(target, tx, n - 1) {
        selected_upto(target, tx, n - 1).push((n - 1) as usize)
    } else {
        selected_upto(target, tx, n - 1)
    }
}

/// The operations of `tx` whose storage changes concern the contract `target`.
pub open spec fn selected_ops(target: Seq<u8>, tx: Transaction) -> Seq<usize> {
    selected_upto(target, tx, op_results(tx).len() as int)
}

} // verus!
