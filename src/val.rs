//! A plain model of the chain's structured storage values.
use vstd::prelude::*;

verus! {

/// A structured storage value, as the chain encodes keys and values.
///
/// Addresses are given in their textual (strkey) form. A map carries both its
/// entries and its canonical encoding, so that a map that is stored as-is can
/// be handed on without being re-encoded.
#[derive(Debug)]
pub enum Val {
    Void,
    Bool(bool),
    U32(u32),
    I128(i128),
    Bytes(Vec<u8>),
    Symbol(String),
    Address(String),
    List(Vec<Val>),
    Mapping { entries: Vec<(Val, Val)>, encoded: String },
    Other,
}

/// The value is the symbol `lit`.
pub open spec fn is_symbol(v: Val, lit: Seq<char>) -> bool {
    match v {
        Val::Symbol(s) => s@ == lit,
        _ => false,
    }
}

/// Compares a string with a literal, character by character.
pub fn str_eq(s: &str, lit: &str) -> (r: bool)
    ensures
        r == (s@ == lit@),
{
    let n = s.unicode_len();
    let m = lit.unicode_len();
    if n != m {
        return false;
    }
    let mut i: usize = 0;
    while i < n
        invariant
            n == s@.len(),
            m == lit@.len(),
            n == m,
            i <= n,
            forall|j: int| 0 <= j < i ==> s@[j] == lit@[j],
        decreases n - i,
    {
        if s.get_char(i) != lit.get_char(i) {
            return false;
        }
        i = i + 1;
    }
    assert(s@ =~= lit@);
    true
}

/// Whether `v` is the symbol `lit`.
pub fn symbol_is(v: &Val, lit: &str) -> (r: bool)
    ensures
        r == is_symbol(*v, lit@),
{
    match v {
        Val::Symbol(s) => str_eq(s.as_str(), lit),
        _ => false,
    }
}

/// Compares two byte strings.
pub fn bytes_eq(a: &Vec<u8>, b: &Vec<u8>) -> (r: bool)
    ensures
        r == (a@ == b@),
{
    if a.len() != b.len() {
        return false;
    }
    let mut i: usize = 0;
    while i < a.len()
        invariant
            a.len() == b.len(),
            i <= a.len(),
            forall|j: int| 0 <= j < i ==> a@[j] == b@[j],
        decreases a.len() - i,
    {
        if a[i] != b[i] {
            return false;
        }
        i = i + 1;
    }
    assert(a@ =~= b@);
    true
}

} // verus!
