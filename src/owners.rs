//! The current owners of glyphs, as read from the contract's state.
use vstd::prelude::*;
use crate::val::bytes_eq;
use crate::keys::copy_bytes;

verus! {

/// Answers of the contract-state reader to "who owns this glyph now",
/// by glyph hash. Where a hash is listed twice, its first entry counts.
#[derive(Debug)]
pub struct OwnerBook {
    pub entries: Vec<(Vec<u8>, String)>,
}

/// The owner that the first entry for `hash` gives, if any.
pub open spec fn owner_in(entries: Seq<(Vec<u8>, String)>, hash: Seq<u8>) -> Option<Seq<char>>
    decreases entries.len(),
{
    if entries.len() == 0 {
        None
    } else if entries[0].0@ == hash {
        Some(entries[0].1@)
    } else {
        owner_in(entries.drop_first(), hash)
    }
}

impl OwnerBook {
    /// The owner of the glyph `hash`, if known.
    pub open spec fn owner_spec(&self, hash: Seq<u8>) -> Option<Seq<char>> {
        owner_in(self.entries@, hash)
    }

    /// A book that knows no owner.
    pub fn new() -> (r: OwnerBook)
        ensures
            r.entries@.len() == 0,
            forall|h: Seq<u8>| r.owner_spec(h).is_none(),
    {
        OwnerBook { entries: Vec::new() }
    }

    /// Records `owner` as the owner of `hash`, unless the book already
    /// knows an owner for it.
    pub fn record(&mut self, hash: &Vec<u8>, owner: String)
        ensures
            forall|h: Seq<u8>|
                #[trigger] final(self).owner_spec(h) == if old(self).owner_spec(h).is_some() {
                    old(self).owner_spec(h)
                } else if h == hash@ {
                    Some(owner@)
                } else {
                    None
                },
    {
        let ghost prev = self.entries@;
        self.entries.push((copy_bytes(hash), owner));
        proof {
            assert forall|h: Seq<u8>| #[trigger]
                owner_in(self.entries@, h) == if owner_in(prev, h).is_some() {
                    owner_in(prev, h)
                } else if h == hash@ {
                    Some(owner@)
                } else {
                    None
                } by {
                lemma_owner_in_push(prev, (self.entries@.last().0, self.entries@.last().1), h);
            }
        }
    }

    /// The owner of the glyph `hash`, if known.
    pub fn owner_of(&self, hash: &Vec<u8>) -> (r: Option<String>)
        ensures
            r.is_some() == self.owner_spec(hash@).is_some(),
            r.is_some() ==> r.unwrap()@ == self.owner_spec(hash@).unwrap(),
    {
        let mut i: usize = 0;
        assert(self.entries@.subrange(0, self.entries@.len() as int) =~= self.entries@);
        while i < self.entries.len()
            invariant
                i <= self.entries.len(),
                owner_in(self.entries@, hash@) == owner_in(
                    self.entries@.subrange(i as int, self.entries@.len() as int),
                    hash@,
                ),
            decreases self.entries.len() - i,
        {
            let ghost rest = self.entries@.subrange(i as int, self.entries@.len() as int);
            assert(rest.drop_first() =~= self.entries@.subrange(
                i + 1,
                self.entries@.len() as int,
            ));
            if bytes_eq(&self.entries[i].0, hash) {
                return Some(self.entries[i].1.clone());
            }
            i = i + 1;
        }
        None
    }
}

/// Appending an entry changes only the answer for a hash that had none.
proof fn lemma_owner_in_push(s: Seq<(Vec<u8>, String)>, e: (Vec<u8>, String), h: Seq<u8>)
    ensures
        owner_in(s.push(e), h) == if owner_in(s, h).is_some() {
            owner_in(s, h)
        } else if h == e.0@ {
            Some(e.1@)
        } else {
            None
        },
    decreases s.len(),
{
    if s.len() > 0 {
        assert(s.push(e).drop_first() =~= s.drop_first().push(e));
        lemma_owner_in_push(s.drop_first(), e, h);
    } else {
        assert(s.push(e).drop_first() =~= s);
    }
}

} // verus!
