//! Decoding of the values that the contract's keys hold.
use vstd::prelude::*;
use crate::val::{Val, is_symbol, symbol_is};
use crate::keys::{Offer, OfferV, offer_of, address_of, u32_of, decode_offer, take_address, take_u32};
use crate::types::{offer_views, address_views};

verus! {

/// Why a storage change could not be turned into events.
#[derive(Clone, Copy, Debug, PartialEq, Eq, Structural)]
pub enum DecodeError {
    /// The value does not have the shape that its key calls for.
    ValueShape,
    /// An item of an offer list is no known offer variant.
    InvalidOffer,
}

/// A decoded glyph body.
pub struct GlyphBody {
    pub width: u32,
    pub length: u32,
    pub colors: Seq<char>,
}

/// The encoding of a map value.
pub open spec fn encoded_of(v: Val) -> Option<Seq<char>> {
    match v {
        Val::Mapping { encoded, .. } => Some(encoded@),
        _ => None,
    }
}

/// What a glyph value decodes to: a map with the fields `colors` (a map),
/// `length` and `width`, in that order.
pub open spec fn glyph_of(v: Val) -> Option<GlyphBody> {
    match v {
        Val::Mapping { entries, .. } => {
            let e = entries@;
            if e.len() == 3 && is_symbol(e[0].0, "colors"@) && is_symbol(e[1].0, "length"@)
                && is_symbol(e[2].0, "width"@) && encoded_of(e[0].1).is_some() && u32_of(
                e[1].1,
            ).is_some() && u32_of(e[2].1).is_some() {
                Some(
                    GlyphBody {
                        width: u32_of(e[2].1).unwrap(),
                        length: u32_of(e[1].1).unwrap(),
                        colors: encoded_of(e[0].1).unwrap(),
                    },
                )
            } else {
                None
            }
        },
        _ => None,
    }
}

/// What a list of offers decodes to: every item must be an offer.
pub open spec fn offers_of(s: Seq<Val>) -> Option<Seq<OfferV>> {
    if forall|i: int| 0 <= i < s.len() ==> #[trigger] offer_of(s[i]).is_some() {
        Some(s.map_values(|v: Val| offer_of(v).unwrap()))
    } else {
        None
    }
}

/// What a list of addresses decodes to: every item must be an address.
pub open spec fn addresses_of(s: Seq<Val>) -> Option<Seq<Seq<char>>> {
    if forall|i: int| 0 <= i < s.len() ==> #[trigger] address_of(s[i]).is_some() {
        Some(s.map_values(|v: Val| address_of(v).unwrap()))
    } else {
        None
    }
}

/// Decodes a glyph value into width, length and the colour map's encoding.
pub fn decode_glyph(v: &Val) -> (r: Option<(u32, u32, String)>)
    ensures
        r.is_some() == glyph_of(*v).is_some(),
        r.is_some() ==> ({
            let g = glyph_of(*v).unwrap();
            &&& r.unwrap().0 == g.width
            &&& r.unwrap().1 == g.length
            &&& r.unwrap().2@ == g.colors
        }),
{
    let entries = match v {
        Val::Mapping { entries, .. } => entries,
        _ => {
            return None;
        },
    };
    if entries.len() != 3 {
        return None;
    }
    if !(symbol_is(&entries[0].0, "colors") && symbol_is(&entries[1].0, "length") && symbol_is(
        &entries[2].0,
        "width",
    )) {
        return None;
    }
    let colors = match &entries[0].1 {
        Val::Mapping { encoded, .. } => encoded.clone(),
        _ => {
            return None;
        },
    };
    let length = take_u32(&entries[1].1);
    let width = take_u32(&entries[2].1);
    match (width, length) {
        (Some(w), Some(l)) => Some((w, l, colors)),
        _ => None,
    }
}

/// Decodes a list of offers; `None` if an item is no known offer.
pub fn decode_offers(items: &Vec<Val>) -> (r: Option<Vec<Offer>>)
    ensures
        r.is_some() == offers_of(items@).is_some(),
        r.is_some() ==> offer_views(r.unwrap()@) == offers_of(items@).unwrap(),
{
    let mut out: Vec<Offer> = Vec::new();
    let mut i: usize = 0;
    while i < items.len()
        invariant
            i <= items.len(),
            forall|j: int| 0 <= j < i ==> #[trigger] offer_of(items@[j]).is_some(),
            offer_views(out@) == items@.subrange(0, i as int).map_values(
                |v: Val| offer_of(v).unwrap(),
            ),
        decreases items.len() - i,
    {
        let ghost prev = out@;
        match decode_offer(&items[i]) {
            Some(o) => {
                out.push(o);
            },
            None => {
                return None;
            },
        }
        proof {
            let f = |v: Val| offer_of(v).unwrap();
            assert(offer_views(out@) =~= offer_views(prev).push(offer_views(out@).last()));
            assert(items@.subrange(0, i + 1).map_values(f) =~= items@.subrange(0, i as int).map_values(f).push(f(items@[i as int])));
        }
        i = i + 1;
    }
    assert(items@.subrange(0, i as int) =~= items@);
    Some(out)
}

/// Decodes a list of addresses; `None` if an item is no address.
pub fn decode_addresses(items: &Vec<Val>) -> (r: Option<Vec<String>>)
    ensures
        r.is_some() == addresses_of(items@).is_some(),
        r.is_some() ==> address_views(r.unwrap()@) == addresses_of(items@).unwrap(),
{
    let mut out: Vec<String> = Vec::new();
    let mut i: usize = 0;
    while i < items.len()
        invariant
            i <= items.len(),
            forall|j: int| 0 <= j < i ==> #[trigger] address_of(items@[j]).is_some(),
            address_views(out@) == items@.subrange(0, i as int).map_values(
                |v: Val| address_of(v).unwrap(),
            ),
        decreases items.len() - i,
    {
        let ghost prev = out@;
        match take_address(&items[i]) {
            Some(o) => {
                out.push(o);
            },
            None => {
                return None;
            },
        }
        proof {
            let f = |v: Val| address_of(v).unwrap();
            assert(address_views(out@) =~= address_views(prev).push(address_views(out@).last()));
            assert(items@.subrange(0, i + 1).map_values(f) =~= items@.subrange(0, i as int).map_values(f).push(f(items@[i as int])));
        }
        i = i + 1;
    }
    assert(items@.subrange(0, i as int) =~= items@);
    Some(out)
}

} // verus!
