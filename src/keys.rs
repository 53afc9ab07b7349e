//! The contract's storage keys and offers, decoded from structured values.
use vstd::prelude::*;
use crate::val::{Val, is_symbol, symbol_is, bytes_eq};

verus! {

/// Length of a glyph hash in bytes.
pub const HASH_LEN: usize = 32;

/// A storage key of the contract.
#[derive(Debug)]
pub enum StorageKey {
    /// Colour balance: miner, owner, colour index.
    Color(String, String, u32),
    /// Glyph body by hash.
    Glyph(Vec<u8>),
    /// Owner of a glyph.
    GlyphOwner(Vec<u8>),
    /// Minter of a glyph.
    GlyphMinter(Vec<u8>),
    /// Offers that the owner of a glyph makes for it.
    GlyphOffer(Vec<u8>),
    /// Buyers of a glyph for an amount of an asset: glyph hash, asset, amount.
    AssetOffer(Vec<u8>, String, i128),
}

/// The mathematical form of a storage key.
pub enum KeyV {
    Color(Seq<char>, Seq<char>, u32),
    Glyph(Seq<u8>),
    GlyphOwner(Seq<u8>),
    GlyphMinter(Seq<u8>),
    GlyphOffer(Seq<u8>),
    AssetOffer(Seq<u8>, Seq<char>, i128),
}

impl View for StorageKey {
    type V = KeyV;

    open spec fn view(&self) -> KeyV {
        match self {
            StorageKey::Color(m, o, c) => KeyV::Color(m@, o@, *c),
            StorageKey::Glyph(h) => KeyV::Glyph(h@),
            StorageKey::GlyphOwner(h) => KeyV::GlyphOwner(h@),
            StorageKey::GlyphMinter(h) => KeyV::GlyphMinter(h@),
            StorageKey::GlyphOffer(h) => KeyV::GlyphOffer(h@),
            StorageKey::AssetOffer(h, a, n) => KeyV::AssetOffer(h@, a@, *n),
        }
    }
}

/// An offer that the owner of a glyph makes for it.
#[derive(Debug)]
pub enum Offer {
    /// Wants another glyph, by hash.
    Glyph(Vec<u8>),
    /// Wants an amount of an asset.
    Asset(String, i128),
}

/// The mathematical form of an offer.
pub enum OfferV {
    Glyph(Seq<u8>),
    Asset(Seq<char>, i128),
}

impl View for Offer {
    type V = OfferV;

    open spec fn view(&self) -> OfferV {
        match self {
            Offer::Glyph(h) => OfferV::Glyph(h@),
            Offer::Asset(a, n) => OfferV::Asset(a@, *n),
        }
    }
}

/// Outcome of decoding a raw storage key.
#[derive(Debug)]
pub enum KeyDecode {
    /// Not one of the contract's key variants: not relevant here.
    NotApplicable,
    /// Names a key variant, with fields of the wrong shape.
    Invalid,
    /// A key of the contract.
    Key(StorageKey),
}

/// The mathematical form of a key decode outcome.
pub enum KeyDecodeV {
    NotApplicable,
    Invalid,
    Key(KeyV),
}

impl View for KeyDecode {
    type V = KeyDecodeV;

    open spec fn view(&self) -> KeyDecodeV {
        match self {
            KeyDecode::NotApplicable => KeyDecodeV::NotApplicable,
            KeyDecode::Invalid => KeyDecodeV::Invalid,
            KeyDecode::Key(k) => KeyDecodeV::Key(k@),
        }
    }
}

/// The address that a value holds.
pub open spec fn address_of(v: Val) -> Option<Seq<char>> {
    match v {
        Val::Address(a) => Some(a@),
        _ => None,
    }
}

/// The glyph hash that a value holds: exactly `HASH_LEN` bytes.
pub open spec fn hash_of(v: Val) -> Option<Seq<u8>> {
    match v {
        Val::Bytes(b) => if b@.len() == HASH_LEN { Some(b@) } else { None },
        _ => None,
    }
}

/// The `u32` that a value holds.
pub open spec fn u32_of(v: Val) -> Option<u32> {
    match v {
        Val::U32(n) => Some(n),
        _ => None,
    }
}

/// The `i128` that a value holds.
pub open spec fn i128_of(v: Val) -> Option<i128> {
    match v {
        Val::I128(n) => Some(n),
        _ => None,
    }
}

/// A key variant with a single hash field.
pub open spec fn hash_key(s: Seq<Val>, mk: spec_fn(Seq<u8>) -> KeyV) -> KeyDecodeV {
    if s.len() == 2 && hash_of(s[1]).is_some() {
        KeyDecodeV::Key(mk(hash_of(s[1]).unwrap()))
    } else {
        KeyDecodeV::Invalid
    }
}

/// What a raw storage key decodes to. A key is a list whose first item is the
/// variant's name as a symbol, followed by the variant's fields.
pub open spec fn decode_key_spec(k: Val) -> KeyDecodeV {
    match k {
        Val::List(items) => {
            let s = items@;
            if s.len() == 0 {
                KeyDecodeV::NotApplicable
            } else if is_symbol(s[0], "Color"@) {
                if s.len() == 4 && address_of(s[1]).is_some() && address_of(s[2]).is_some()
                    && u32_of(s[3]).is_some() {
                    KeyDecodeV::Key(
                        KeyV::Color(
                            address_of(s[1]).unwrap(),
                            address_of(s[2]).unwrap(),
                            u32_of(s[3]).unwrap(),
                        ),
                    )
                } else {
                    KeyDecodeV::Invalid
                }
            } else if is_symbol(s[0], "Glyph"@) {
                hash_key(s, |h| KeyV::Glyph(h))
            } else if is_symbol(s[0], "GlyphOwner"@) {
                hash_key(s, |h| KeyV::GlyphOwner(h))
            } else if is_symbol(s[0], "GlyphMinter"@) {
                hash_key(s, |h| KeyV::GlyphMinter(h))
            } else if is_symbol(s[0], "GlyphOffer"@) {
                hash_key(s, |h| KeyV::GlyphOffer(h))
            } else if is_symbol(s[0], "AssetOffer"@) {
                if s.len() == 4 && hash_of(s[1]).is_some() && address_of(s[2]).is_some()
                    && i128_of(s[3]).is_some() {
                    KeyDecodeV::Key(
                        KeyV::AssetOffer(
                            hash_of(s[1]).unwrap(),
                            address_of(s[2]).unwrap(),
                            i128_of(s[3]).unwrap(),
                        ),
                    )
                } else {
                    KeyDecodeV::Invalid
                }
            } else {
                KeyDecodeV::NotApplicable
            }
        },
        _ => KeyDecodeV::NotApplicable,
    }
}

/// What an item of an offer list decodes to.
pub open spec fn offer_of(v: Val) -> Option<OfferV> {
    match v {
        Val::List(items) => {
            let s = items@;
            if s.len() == 2 && is_symbol(s[0], "Glyph"@) && hash_of(s[1]).is_some() {
                Some(OfferV::Glyph(hash_of(s[1]).unwrap()))
            } else if s.len() == 3 && is_symbol(s[0], "Asset"@) && address_of(s[1]).is_some()
                && i128_of(s[2]).is_some() {
                Some(OfferV::Asset(address_of(s[1]).unwrap(), i128_of(s[2]).unwrap()))
            } else {
                None
            }
        },
        _ => None,
    }
}

/// Copies a byte string.
pub fn copy_bytes(b: &Vec<u8>) -> (r: Vec<u8>)
    ensures
        r@ == b@,
{
    let mut r: Vec<u8> = Vec::new();
    let mut i: usize = 0;
    while i < b.len()
        invariant
            i <= b.len(),
            r@ == b@.subrange(0, i as int),
        decreases b.len() - i,
    {
        r.push(b[i]);
        i = i + 1;
        assert(r@ =~= b@.subrange(0, i as int));
    }
    assert(b@.subrange(0, b.len() as int) =~= b@);
    r
}

/// The address that a value holds.
pub fn take_address(v: &Val) -> (r: Option<String>)
    ensures
        r.is_some() == address_of(*v).is_some(),
        r.is_some() ==> r.unwrap()@ == address_of(*v).unwrap(),
{
    match v {
        Val::Address(a) => Some(a.clone()),
        _ => None,
    }
}

/// The glyph hash that a value holds.
pub fn take_hash(v: &Val) -> (r: Option<Vec<u8>>)
    ensures
        r.is_some() == hash_of(*v).is_some(),
        r.is_some() ==> r.unwrap()@ == hash_of(*v).unwrap(),
{
    match v {
        Val::Bytes(b) => {
            if b.len() == HASH_LEN {
                Some(copy_bytes(b))
            } else {
                None
            }
        },
        _ => None,
    }
}

/// The `u32` that a value holds.
pub fn take_u32(v: &Val) -> (r: Option<u32>)
    ensures
        r == u32_of(*v),
{
    match v {
        Val::U32(n) => Some(*n),
        _ => None,
    }
}

/// The `i128` that a value holds.
pub fn take_i128(v: &Val) -> (r: Option<i128>)
    ensures
        r == i128_of(*v),
{
    match v {
        Val::I128(n) => Some(*n),
        _ => None,
    }
}

/// The names of the key variants are pairwise distinct.
proof fn lemma_key_tags_distinct()
    ensures
        "Glyph"@ != "Color"@,
        "GlyphOwner"@ != "Color"@,
        "GlyphOwner"@ != "Glyph"@,
        "GlyphMinter"@ != "Color"@,
        "GlyphMinter"@ != "Glyph"@,
        "GlyphMinter"@ != "GlyphOwner"@,
        "GlyphOffer"@ != "Color"@,
        "GlyphOffer"@ != "Glyph"@,
        "GlyphOffer"@ != "GlyphOwner"@,
        "GlyphOffer"@ != "GlyphMinter"@,
        "AssetOffer"@ != "Color"@,
        "AssetOffer"@ != "Glyph"@,
        "AssetOffer"@ != "GlyphOwner"@,
        "AssetOffer"@ != "GlyphMinter"@,
        "AssetOffer"@ != "GlyphOffer"@,
{
    reveal_strlit("Color");
    reveal_strlit("Glyph");
    reveal_strlit("GlyphOwner");
    reveal_strlit("GlyphMinter");
    reveal_strlit("GlyphOffer");
    reveal_strlit("AssetOffer");
    assert("Color"@.len() == 5);
    assert("Glyph"@.len() == 5);
    assert("GlyphOwner"@.len() == 10);
    assert("GlyphMinter"@.len() == 11);
    assert("GlyphOffer"@.len() == 10);
    assert("AssetOffer"@.len() == 10);
    assert("Glyph"@[0] != "Color"@[0]);
    assert("GlyphOffer"@[6] != "GlyphOwner"@[6]);
    assert("AssetOffer"@[0] != "GlyphOwner"@[0]);
    assert("AssetOffer"@[0] != "GlyphOffer"@[0]);
}

/// Decodes a raw storage key into one of the contract's key variants.
pub fn decode_key(k: &Val) -> (r: KeyDecode)
    ensures
        r@ == decode_key_spec(*k),
{
    proof {
        lemma_key_tags_distinct();
    }
    let items = match k {
        Val::List(items) => items,
        _ => {
            return KeyDecode::NotApplicable;
        },
    };
    if items.len() == 0 {
        return KeyDecode::NotApplicable;
    }
    let tag = &items[0];
    if symbol_is(tag, "Color") {
        if items.len() == 4 {
            let m = take_address(&items[1]);
            let o = take_address(&items[2]);
            let c = take_u32(&items[3]);
            if let (Some(m), Some(o), Some(c)) = (m, o, c) {
                return KeyDecode::Key(StorageKey::Color(m, o, c));
            }
        }
        KeyDecode::Invalid
    } else if symbol_is(tag, "AssetOffer") {
        if items.len() == 4 {
            let h = take_hash(&items[1]);
            let a = take_address(&items[2]);
            let n = take_i128(&items[3]);
            if let (Some(h), Some(a), Some(n)) = (h, a, n) {
                return KeyDecode::Key(StorageKey::AssetOffer(h, a, n));
            }
        }
        KeyDecode::Invalid
    } else {
        let is_glyph = symbol_is(tag, "Glyph");
        let is_owner = symbol_is(tag, "GlyphOwner");
        let is_minter = symbol_is(tag, "GlyphMinter");
        let is_offer = symbol_is(tag, "GlyphOffer");
        if !(is_glyph || is_owner || is_minter || is_offer) {
            return KeyDecode::NotApplicable;
        }
        let h = if items.len() == 2 {
            take_hash(&items[1])
        } else {
            None
        };
        match h {
            None => KeyDecode::Invalid,
            Some(h) => {
                if is_glyph {
                    KeyDecode::Key(StorageKey::Glyph(h))
                } else if is_owner {
                    KeyDecode::Key(StorageKey::GlyphOwner(h))
                } else if is_minter {
                    KeyDecode::Key(StorageKey::GlyphMinter(h))
                } else {
                    KeyDecode::Key(StorageKey::GlyphOffer(h))
                }
            },
        }
    }
}

/// Decodes one item of an offer list.
pub fn decode_offer(v: &Val) -> (r: Option<Offer>)
    ensures
        r.is_some() == offer_of(*v).is_some(),
        r.is_some() ==> r.unwrap()@ == offer_of(*v).unwrap(),
{
    proof {
        reveal_strlit("Glyph");
        reveal_strlit("Asset");
        assert("Glyph"@[0] != "Asset"@[0]);
    }
    let items = match v {
        Val::List(items) => items,
        _ => {
            return None;
        },
    };
    if items.len() == 2 && symbol_is(&items[0], "Glyph") {
        if let Some(h) = take_hash(&items[1]) {
            return Some(Offer::Glyph(h));
        }
    }
    if items.len() == 3 && symbol_is(&items[0], "Asset") {
        let a = take_address(&items[1]);
        let n = take_i128(&items[2]);
        if let (Some(a), Some(n)) = (a, n) {
            return Some(Offer::Asset(a, n));
        }
    }
    None
}

/// Whether two keys are the same key.
pub fn same_key(a: &StorageKey, b: &StorageKey) -> (r: bool)
    ensures
        r == (a@ == b@),
{
    match (a, b) {
        (StorageKey::Color(m1, o1, c1), StorageKey::Color(m2, o2, c2)) => {
            *m1 == *m2 && *o1 == *o2 && *c1 == *c2
        },
        (StorageKey::Glyph(h1), StorageKey::Glyph(h2)) => bytes_eq(h1, h2),
        (StorageKey::GlyphOwner(h1), StorageKey::GlyphOwner(h2)) => bytes_eq(h1, h2),
        (StorageKey::GlyphMinter(h1), StorageKey::GlyphMinter(h2)) => bytes_eq(h1, h2),
        (StorageKey::GlyphOffer(h1), StorageKey::GlyphOffer(h2)) => bytes_eq(h1, h2),
        (StorageKey::AssetOffer(h1, a1, n1), StorageKey::AssetOffer(h2, a2, n2)) => {
            bytes_eq(h1, h2) && *a1 == *a2 && *n1 == *n2
        },
        _ => false,
    }
}

/// Whether two offers are the same offer.
pub fn same_offer(a: &Offer, b: &Offer) -> (r: bool)
    ensures
        r == (a@ == b@),
{
    match (a, b) {
        (Offer::Glyph(h1), Offer::Glyph(h2)) => bytes_eq(h1, h2),
        (Offer::Asset(a1, n1), Offer::Asset(a2, n2)) => *a1 == *a2 && *n1 == *n2,
        _ => false,
    }
}

} // verus!
