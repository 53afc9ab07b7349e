//! Removals implied by the new contents of a vector-valued slot.
use vstd::prelude::*;
use crate::val::Val;
use crate::keys::{StorageKey, KeyV, KeyDecode, KeyDecodeV, Offer, decode_key, decode_key_spec, same_key, same_offer, copy_bytes};
use crate::ledger::LedgerChange;
use crate::decode::{DecodeError, offers_of, addresses_of, decode_offers, decode_addresses};
use crate::types::{Offers, OffersV, offer_views, address_views};

verus! {

/// The items of `before` that `after` does not contain, in order.
pub open spec fn removed<T>(before: Seq<T>, after: Seq<T>) -> Seq<T>
    decreases before.len(),
{
    if before.len() == 0 {
        Seq::empty()
    } else if after.contains(before.last()) {
        removed(before.drop_last(), after)
    } else {
        removed(before.drop_last(), after).push(before.last())
    }
}

/// The change is the pre-image of the slot `key`.
pub open spec fn is_state_of(c: LedgerChange, key: KeyV) -> bool {
    match c {
        LedgerChange::State(d) => decode_key_spec(d.key) == KeyDecodeV::Key(key),
        _ => false,
    }
}

/// The value of the first pre-image of the slot `key` in a change list.
pub open spec fn pre_image(changes: Seq<LedgerChange>, key: KeyV) -> Option<Val>
    decreases changes.len(),
{
    if changes.len() == 0 {
        None
    } else if is_state_of(changes[0], key) {
        match changes[0] {
            LedgerChange::State(d) => Some(d.val),
            _ => None,
        }
    } else {
        pre_image(changes.drop_first(), key)
    }
}

/// What a slot's reconciliation reports: `None` where there is no pre-image
/// (the slot is new, or the change list is not available), otherwise the
/// items of the pre-image that the new contents `after` no longer hold.
pub open spec fn diff_spec(
    key: KeyV,
    changes: Option<Seq<LedgerChange>>,
    after: OffersV,
) -> Result<Option<OffersV>, DecodeError> {
    match changes {
        None => Ok(None),
        Some(cs) => match pre_image(cs, key) {
            None => Ok(None),
            Some(v) => match v {
                Val::List(items) => match after {
                    OffersV::Offers(a) => match offers_of(items@) {
                        Some(b) => Ok(Some(OffersV::Offers(removed(b, a)))),
                        None => Err(DecodeError::InvalidOffer),
                    },
                    OffersV::Addresses(a) => match addresses_of(items@) {
                        Some(b) => Ok(Some(OffersV::Addresses(removed(b, a)))),
                        None => Err(DecodeError::ValueShape),
                    },
                },
                _ => Err(DecodeError::ValueShape),
            },
        },
    }
}

/// The mathematical form of a change list that may be absent.
pub open spec fn changes_view(c: Option<&Vec<LedgerChange>>) -> Option<Seq<LedgerChange>> {
    match c {
        Some(v) => Some(v@),
        None => None,
    }
}

/// The mathematical form of a reconciliation outcome.
pub open spec fn diff_view(r: Result<Option<Offers>, DecodeError>) -> Result<
    Option<OffersV>,
    DecodeError,
> {
    match r {
        Ok(Some(o)) => Ok(Some(o@)),
        Ok(None) => Ok(None),
        Err(e) => Err(e),
    }
}

/// Finds the first pre-image of the slot `key` in a change list.
pub fn find_pre_image<'a>(changes: &'a Vec<LedgerChange>, key: &StorageKey) -> (r: Option<&'a Val>)
    ensures
        r.is_some() == pre_image(changes@, key@).is_some(),
        r.is_some() ==> *r.unwrap() == pre_image(changes@, key@).unwrap(),
{
    let mut i: usize = 0;
    assert(changes@.subrange(0, changes@.len() as int) =~= changes@);
    while i < changes.len()
        invariant
            i <= changes.len(),
            pre_image(changes@, key@) == pre_image(
                changes@.subrange(i as int, changes@.len() as int),
                key@,
            ),
        decreases changes.len() - i,
    {
        let ghost rest = changes@.subrange(i as int, changes@.len() as int);
        assert(rest.drop_first() =~= changes@.subrange(i + 1, changes@.len() as int));
        assert(rest[0] == changes@[i as int]);
        if let LedgerChange::State(d) = &changes[i] {
            if let KeyDecode::Key(k) = decode_key(&d.key) {
                if same_key(&k, key) {
                    return Some(&d.val);
                }
            }
        }
        i = i + 1;
    }
    None
}

/// Copies an offer.
pub fn copy_offer(o: &Offer) -> (r: Offer)
    ensures
        r@ == o@,
{
    match o {
        Offer::Glyph(h) => Offer::Glyph(copy_bytes(h)),
        Offer::Asset(a, n) => Offer::Asset(a.clone(), *n),
    }
}

/// Whether `v` holds the offer `o`.
pub fn contains_offer(v: &Vec<Offer>, o: &Offer) -> (r: bool)
    ensures
        r == offer_views(v@).contains(o@),
{
    let mut i: usize = 0;
    while i < v.len()
        invariant
            i <= v.len(),
            forall|j: int| 0 <= j < i ==> v@[j]@ != o@,
        decreases v.len() - i,
    {
        if same_offer(&v[i], o) {
            assert(offer_views(v@)[i as int] == o@);
            return true;
        }
        i = i + 1;
    }
    assert(!offer_views(v@).contains(o@)) by {
        if offer_views(v@).contains(o@) {
            let j = choose|j: int| 0 <= j < offer_views(v@).len() && offer_views(v@)[j] == o@;
            assert(v@[j]@ == o@);
        }
    }
    false
}

/// Whether `v` holds the address `a`.
pub fn contains_address(v: &Vec<String>, a: &String) -> (r: bool)
    ensures
        r == address_views(v@).contains(a@),
{
    let mut i: usize = 0;
    while i < v.len()
        invariant
            i <= v.len(),
            forall|j: int| 0 <= j < i ==> v@[j]@ != a@,
        decreases v.len() - i,
    {
        if v[i] == *a {
            assert(address_views(v@)[i as int] == a@);
            return true;
        }
        i = i + 1;
    }
    assert(!address_views(v@).contains(a@)) by {
        if address_views(v@).contains(a@) {
            let j = choose|j: int| 0 <= j < address_views(v@).len() && address_views(v@)[j] == a@;
            assert(v@[j]@ == a@);
        }
    }
    false
}

/// The offers of `before` that `after` no longer holds.
pub fn removed_offers(before: &Vec<Offer>, after: &Vec<Offer>) -> (r: Vec<Offer>)
    ensures
        offer_views(r@) == removed(offer_views(before@), offer_views(after@)),
{
    let ghost bv = offer_views(before@);
    let ghost av = offer_views(after@);
    let mut out: Vec<Offer> = Vec::new();
    let mut i: usize = 0;
    while i < before.len()
        invariant
            i <= before.len(),
            bv == offer_views(before@),
            av == offer_views(after@),
            offer_views(out@) == removed(bv.subrange(0, i as int), av),
        decreases before.len() - i,
    {
        let ghost prev = out@;
        assert(bv.subrange(0, i + 1).drop_last() =~= bv.subrange(0, i as int));
        assert(bv.subrange(0, i + 1).last() == before@[i as int]@);
        if !contains_offer(after, &before[i]) {
            out.push(copy_offer(&before[i]));
            assert(offer_views(out@) =~= offer_views(prev).push(before@[i as int]@));
        }
        i = i + 1;
    }
    assert(bv.subrange(0, i as int) =~= bv);
    out
}

/// The addresses of `before` that `after` no longer holds.
pub fn removed_addresses(before: &Vec<String>, after: &Vec<String>) -> (r: Vec<String>)
    ensures
        address_views(r@) == removed(address_views(before@), address_views(after@)),
{
    let ghost bv = address_views(before@);
    let ghost av = address_views(after@);
    let mut out: Vec<String> = Vec::new();
    let mut i: usize = 0;
    while i < before.len()
        invariant
            i <= before.len(),
            bv == address_views(before@),
            av == address_views(after@),
            address_views(out@) == removed(bv.subrange(0, i as int), av),
        decreases before.len() - i,
    {
        let ghost prev = out@;
        assert(bv.subrange(0, i + 1).drop_last() =~= bv.subrange(0, i as int));
        assert(bv.subrange(0, i + 1).last() == before@[i as int]@);
        if !contains_address(after, &before[i]) {
            out.push(before[i].clone());
            assert(address_views(out@) =~= address_views(prev).push(before@[i as int]@));
        }
        i = i + 1;
    }
    assert(bv.subrange(0, i as int) =~= bv);
    out
}

/// Reconciles a vector-valued slot: finds the slot's pre-image in the change
/// list, decodes it as the same kind of list as `offers`, and reports the
/// items that `offers` no longer holds.
pub fn get_diff_offers(
    key: &StorageKey,
    changes: Option<&Vec<LedgerChange>>,
    offers: &Offers,
) -> (r: Result<Option<Offers>, DecodeError>)
    ensures
        diff_view(r) == diff_spec(key@, changes_view(changes), offers@),
{
    let changes = match changes {
        Some(c) => c,
        None => {
            return Ok(None);
        },
    };
    let prior = match find_pre_image(changes, key) {
        Some(v) => v,
        None => {
            return Ok(None);
        },
    };
    let items = match prior {
        Val::List(items) => items,
        _ => {
            return Err(DecodeError::ValueShape);
        },
    };
    match offers {
        Offers::Offers(after) => match decode_offers(items) {
            Some(before) => Ok(Some(Offers::Offers(removed_offers(&before, after)))),
            None => Err(DecodeError::InvalidOffer),
        },
        Offers::Addresses(after) => match decode_addresses(items) {
            Some(before) => Ok(Some(Offers::Addresses(removed_addresses(&before, after)))),
            None => Err(DecodeError::ValueShape),
        },
    }
}

} // verus!
