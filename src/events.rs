//! Events produced by one storage change.
use vstd::prelude::*;
use crate::val::Val;
use crate::hexfmt::{hex_text, encode_hex};
use crate::keys::{StorageKey, KeyV, KeyDecode, KeyDecodeV, Offer, OfferV, address_of, u32_of, decode_key, decode_key_spec, take_address, take_u32};
use crate::ledger::LedgerChange;
use crate::decode::{DecodeError, glyph_of, offers_of, addresses_of, decode_glyph, decode_offers, decode_addresses};
use crate::types::{Change, Data, DataColor, DataGlyph, DataGlyphOwner, DataGlyphMinter, DataOffer, DataOfferSellerSelling, DataOfferSellingBuyingAmount, Event, Offers, OffersV, events_of, offer_views, address_views};
use crate::owners::OwnerBook;
use crate::reconcile::{diff_spec, changes_view, get_diff_offers};

verus! {

/// The event for one offer that a glyph's owner makes.
pub open spec fn offer_event(change: Change, seller: Seq<char>, selling: Seq<char>, o: OfferV) -> Event {
    match o {
        OfferV::Glyph(h) => Event::Offer { change, seller, selling, buying: hex_text(h), amount: None },
        OfferV::Asset(a, n) => Event::Offer { change, seller, selling, buying: a, amount: Some(n) },
    }
}

/// The events for the offers that a glyph's owner makes.
pub open spec fn glyph_offer_events(
    change: Change,
    seller: Seq<char>,
    selling: Seq<char>,
    os: Seq<OfferV>,
) -> Seq<Event> {
    os.map_values(|o: OfferV| offer_event(change, seller, selling, o))
}

/// The events for the buyers that want a glyph for an amount of an asset.
pub open spec fn asset_offer_events(
    change: Change,
    buyers: Seq<Seq<char>>,
    selling: Seq<char>,
    buying: Seq<char>,
    amount: i128,
) -> Seq<Event> {
    buyers.map_values(
        |b: Seq<char>| Event::Offer { change, seller: b, selling, buying, amount: Some(amount) },
    )
}

/// The offers that a reconciliation reports as removed.
pub open spec fn removed_offer_items(d: Option<OffersV>) -> Seq<OfferV> {
    match d {
        Some(OffersV::Offers(s)) => s,
        _ => Seq::empty(),
    }
}

/// The buyers that a reconciliation reports as removed.
pub open spec fn removed_address_items(d: Option<OffersV>) -> Seq<Seq<char>> {
    match d {
        Some(OffersV::Addresses(s)) => s,
        _ => Seq::empty(),
    }
}

/// The events for a written slot `key` holding `val`. `changes` is the
/// operation's change list where a pre-image may be found (for updates).
/// Offers of a glyph whose owner is unknown are dropped.
pub open spec fn entry_events_spec(
    key: KeyV,
    val: Val,
    changes: Option<Seq<LedgerChange>>,
    change: Change,
    owners: OwnerBook,
) -> Result<Seq<Event>, DecodeError> {
    match key {
        KeyV::Color(m, o, c) => match u32_of(val) {
            Some(a) => Ok(seq![Event::Color { change, miner: m, owner: o, color: c, amount: a }]),
            None => Err(DecodeError::ValueShape),
        },
        KeyV::Glyph(h) => match glyph_of(val) {
            Some(g) => Ok(
                seq![
                    Event::Glyph {
                        change,
                        hash: hex_text(h),
                        width: g.width,
                        length: g.length,
                        colors: g.colors,
                    },
                ],
            ),
            None => Err(DecodeError::ValueShape),
        },
        KeyV::GlyphOwner(h) => match address_of(val) {
            Some(a) => Ok(seq![Event::GlyphOwner { change, hash: hex_text(h), owner: a }]),
            None => Err(DecodeError::ValueShape),
        },
        KeyV::GlyphMinter(h) => match address_of(val) {
            Some(a) => Ok(seq![Event::GlyphMinter { change, hash: hex_text(h), minter: a }]),
            None => Err(DecodeError::ValueShape),
        },
        KeyV::GlyphOffer(h) => match val {
            Val::List(items) => match offers_of(items@) {
                None => Err(DecodeError::InvalidOffer),
                Some(after) => match diff_spec(key, changes, OffersV::Offers(after)) {
                    Err(e) => Err(e),
                    Ok(d) => match owners.owner_spec(h) {
                        None => Ok(Seq::empty()),
                        Some(o) => Ok(
                            glyph_offer_events(change, o, hex_text(h), after) + glyph_offer_events(
                                Change::Remove,
                                o,
                                hex_text(h),
                                removed_offer_items(d),
                            ),
                        ),
                    },
                },
            },
            _ => Err(DecodeError::ValueShape),
        },
        KeyV::AssetOffer(h, sac, n) => match val {
            Val::List(items) => match addresses_of(items@) {
                None => Err(DecodeError::ValueShape),
                Some(after) => match diff_spec(key, changes, OffersV::Addresses(after)) {
                    Err(e) => Err(e),
                    Ok(d) => Ok(
                        asset_offer_events(change, after, sac, hex_text(h), n) + asset_offer_events(
                            Change::Remove,
                            removed_address_items(d),
                            sac,
                            hex_text(h),
                            n,
                        ),
                    ),
                },
            },
            _ => Err(DecodeError::ValueShape),
        },
    }
}

/// The events for a removed slot `key`: only offer slots have a removal
/// path. Offers of a glyph whose owner is unknown are dropped.
pub open spec fn removed_key_events_spec(key: KeyV, owners: OwnerBook) -> Seq<Event> {
    match key {
        KeyV::GlyphOffer(h) => match owners.owner_spec(h) {
            Some(o) => seq![
                Event::OfferSellerSelling { change: Change::Remove, seller: o, selling: hex_text(h) },
            ],
            None => Seq::empty(),
        },
        KeyV::AssetOffer(h, sac, n) => seq![
            Event::OfferSellingBuyingAmount {
                change: Change::Remove,
                selling: sac,
                buying: hex_text(h),
                amount: Some(n),
            },
        ],
        _ => Seq::empty(),
    }
}

/// The events for one entry of an operation's change list `all`. Keys that
/// are none of the contract's, and pre-images, give no event.
pub open spec fn change_events_spec(
    c: LedgerChange,
    all: Seq<LedgerChange>,
    owners: OwnerBook,
) -> Result<Seq<Event>, DecodeError> {
    match c {
        LedgerChange::Created(d) => match decode_key_spec(d.key) {
            KeyDecodeV::Key(k) => entry_events_spec(k, d.val, None, Change::Create, owners),
            _ => Ok(Seq::empty()),
        },
        LedgerChange::Updated(d) => match decode_key_spec(d.key) {
            KeyDecodeV::Key(k) => entry_events_spec(k, d.val, Some(all), Change::Update, owners),
            _ => Ok(Seq::empty()),
        },
        LedgerChange::Removed(k) => match decode_key_spec(k) {
            KeyDecodeV::Key(k) => Ok(removed_key_events_spec(k, owners)),
            _ => Ok(Seq::empty()),
        },
        _ => Ok(Seq::empty()),
    }
}

/// The mathematical form of an outcome that is a list of events.
pub open spec fn events_result(r: Result<Vec<Data>, DecodeError>) -> Result<Seq<Event>, DecodeError> {
    match r {
        Ok(v) => Ok(events_of(v@)),
        Err(e) => Err(e),
    }
}

/// Appends the events for the offers that a glyph's owner makes.
fn push_glyph_offers(
    out: &mut Vec<Data>,
    change: Change,
    seller: &String,
    selling: &String,
    offers: &Vec<Offer>,
)
    ensures
        events_of(final(out)@) == events_of(old(out)@) + glyph_offer_events(
            change,
            seller@,
            selling@,
            offer_views(offers@),
        ),
{
    let ghost start = events_of(out@);
    let ghost ov = offer_views(offers@);
    let mut i: usize = 0;
    while i < offers.len()
        invariant
            i <= offers.len(),
            ov == offer_views(offers@),
            events_of(out@) == start + glyph_offer_events(
                change,
                seller@,
                selling@,
                ov.subrange(0, i as int),
            ),
        decreases offers.len() - i,
    {
        let ghost prev = out@;
        let (buying, amount) = match &offers[i] {
            Offer::Glyph(h) => (encode_hex(h), None),
            Offer::Asset(a, n) => (a.clone(), Some(*n)),
        };
        out.push(
            Data::Offer(
                DataOffer {
                    change,
                    seller: seller.clone(),
                    selling: selling.clone(),
                    buying,
                    amount,
                },
            ),
        );
        proof {
            assert(events_of(out@) =~= events_of(prev).push(
                offer_event(change, seller@, selling@, ov[i as int]),
            ));
            assert(ov.subrange(0, i + 1) =~= ov.subrange(0, i as int).push(ov[i as int]));
            assert(glyph_offer_events(change, seller@, selling@, ov.subrange(0, i + 1))
                =~= glyph_offer_events(change, seller@, selling@, ov.subrange(0, i as int)).push(
                offer_event(change, seller@, selling@, ov[i as int]),
            ));
        }
        i = i + 1;
    }
    assert(ov.subrange(0, i as int) =~= ov);
}

/// Appends the events for the buyers that want a glyph for an amount of an asset.
fn push_asset_offers(
    out: &mut Vec<Data>,
    change: Change,
    buyers: &Vec<String>,
    selling: &String,
    buying: &String,
    amount: i128,
)
    ensures
        events_of(final(out)@) == events_of(old(out)@) + asset_offer_events(
            change,
            address_views(buyers@),
            selling@,
            buying@,
            amount,
        ),
{
    let ghost start = events_of(out@);
    let ghost bv = address_views(buyers@);
    let mut i: usize = 0;
    while i < buyers.len()
        invariant
            i <= buyers.len(),
            bv == address_views(buyers@),
            events_of(out@) == start + asset_offer_events(
                change,
                bv.subrange(0, i as int),
                selling@,
                buying@,
                amount,
            ),
        decreases buyers.len() - i,
    {
        let ghost prev = out@;
        out.push(
            Data::Offer(
                DataOffer {
                    change,
                    seller: buyers[i].clone(),
                    selling: selling.clone(),
                    buying: buying.clone(),
                    amount: Some(amount),
                },
            ),
        );
        proof {
            let e = Event::Offer {
                change,
                seller: bv[i as int],
                selling: selling@,
                buying: buying@,
                amount: Some(amount),
            };
            assert(events_of(out@) =~= events_of(prev).push(e));
            assert(bv.subrange(0, i + 1) =~= bv.subrange(0, i as int).push(bv[i as int]));
            assert(asset_offer_events(change, bv.subrange(0, i + 1), selling@, buying@, amount)
                =~= asset_offer_events(change, bv.subrange(0, i as int), selling@, buying@, amount).push(e));
        }
        i = i + 1;
    }
    assert(bv.subrange(0, i as int) =~= bv);
}

/// The events for a written slot `key` holding `val`.
pub fn entry_events(
    key: &StorageKey,
    val: &Val,
    changes: Option<&Vec<LedgerChange>>,
    change: Change,
    owners: &OwnerBook,
) -> (r: Result<Vec<Data>, DecodeError>)
    ensures
        events_result(r) == entry_events_spec(key@, *val, changes_view(changes), change, *owners),
{
    let mut out: Vec<Data> = Vec::new();
    assert(events_of(out@) =~= Seq::<Event>::empty());
    match key {
        StorageKey::Color(m, o, c) => match take_u32(val) {
            Some(a) => {
                out.push(
                    Data::Color(
                        DataColor { change, miner: m.clone(), owner: o.clone(), color: *c, amount: a },
                    ),
                );
            },
            None => {
                return Err(DecodeError::ValueShape);
            },
        },
        StorageKey::Glyph(h) => match decode_glyph(val) {
            Some((width, length, colors)) => {
                out.push(
                    Data::Glyph(DataGlyph { change, hash: encode_hex(h), width, length, colors }),
                );
            },
            None => {
                return Err(DecodeError::ValueShape);
            },
        },
        StorageKey::GlyphOwner(h) => match take_address(val) {
            Some(a) => {
                out.push(Data::GlyphOwner(DataGlyphOwner { change, hash: encode_hex(h), owner: a }));
            },
            None => {
                return Err(DecodeError::ValueShape);
            },
        },
        StorageKey::GlyphMinter(h) => match take_address(val) {
            Some(a) => {
                out.push(
                    Data::GlyphMinter(DataGlyphMinter { change, hash: encode_hex(h), minter: a }),
                );
            },
            None => {
                return Err(DecodeError::ValueShape);
            },
        },
        StorageKey::GlyphOffer(h) => {
            let items = match val {
                Val::List(items) => items,
                _ => {
                    return Err(DecodeError::ValueShape);
                },
            };
            let after = match decode_offers(items) {
                Some(a) => a,
                None => {
                    return Err(DecodeError::InvalidOffer);
                },
            };
            let after = Offers::Offers(after);
            let diff = get_diff_offers(key, changes, &after);
            let diff = match diff {
                Ok(d) => d,
                Err(e) => {
                    return Err(e);
                },
            };
            let owner = match owners.owner_of(h) {
                Some(o) => o,
                None => {
                    assert(events_of(out@) =~= Seq::<Event>::empty());
                    return Ok(out);
                },
            };
            let selling = encode_hex(h);
            if let Offers::Offers(after) = &after {
                push_glyph_offers(&mut out, change, &owner, &selling, after);
            }
            if let Some(Offers::Offers(gone)) = &diff {
                push_glyph_offers(&mut out, Change::Remove, &owner, &selling, gone);
            } else {
                assert(glyph_offer_events(Change::Remove, owner@, selling@, Seq::empty()) =~= Seq::empty());
                assert(events_of(out@) =~= events_of(out@) + Seq::<Event>::empty());
            }
        },
        StorageKey::AssetOffer(h, sac, n) => {
            let items = match val {
                Val::List(items) => items,
                _ => {
                    return Err(DecodeError::ValueShape);
                },
            };
            let after = match decode_addresses(items) {
                Some(a) => a,
                None => {
                    return Err(DecodeError::ValueShape);
                },
            };
            let after = Offers::Addresses(after);
            let diff = get_diff_offers(key, changes, &after);
            let diff = match diff {
                Ok(d) => d,
                Err(e) => {
                    return Err(e);
                },
            };
            let buying = encode_hex(h);
            if let Offers::Addresses(after) = &after {
                push_asset_offers(&mut out, change, after, sac, &buying, *n);
            }
            if let Some(Offers::Addresses(gone)) = &diff {
                push_asset_offers(&mut out, Change::Remove, gone, sac, &buying, *n);
            } else {
                assert(asset_offer_events(Change::Remove, Seq::empty(), sac@, buying@, *n) =~= Seq::empty());
                assert(events_of(out@) =~= events_of(out@) + Seq::<Event>::empty());
            }
        },
    }
    proof {
        if out@.len() == 1 {
            assert(events_of(out@) =~= seq![out@[0]@]);
        }
    }
    Ok(out)
}

/// The events for a removed slot `key`.
pub fn removed_key_events(key: &StorageKey, owners: &OwnerBook) -> (r: Vec<Data>)
    ensures
        events_of(r@) == removed_key_events_spec(key@, *owners),
{
    let mut out: Vec<Data> = Vec::new();
    match key {
        StorageKey::GlyphOffer(h) => {
            if let Some(o) = owners.owner_of(h) {
                out.push(
                    Data::OfferSellerSelling(
                        DataOfferSellerSelling {
                            change: Change::Remove,
                            seller: o,
                            selling: encode_hex(h),
                        },
                    ),
                );
            }
        },
        StorageKey::AssetOffer(h, sac, n) => {
            out.push(
                Data::OfferSellingBuyingAmount(
                    DataOfferSellingBuyingAmount {
                        change: Change::Remove,
                        selling: sac.clone(),
                        buying: encode_hex(h),
                        amount: Some(*n),
                    },
                ),
            );
        },
        _ => {},
    }
    assert(events_of(out@) =~= removed_key_events_spec(key@, *owners));
    out
}

/// The events for one entry of an operation's change list `all`.
pub fn change_events(c: &LedgerChange, all: &Vec<LedgerChange>, owners: &OwnerBook) -> (r: Result<
    Vec<Data>,
    DecodeError,
>)
    ensures
        events_result(r) == change_events_spec(*c, all@, *owners),
{
    match c {
        LedgerChange::Created(d) => match decode_key(&d.key) {
            KeyDecode::Key(k) => entry_events(&k, &d.val, None, Change::Create, owners),
            _ => {
                let out: Vec<Data> = Vec::new();
                assert(events_of(out@) =~= Seq::empty());
                Ok(out)
            },
        },
        LedgerChange::Updated(d) => match decode_key(&d.key) {
            KeyDecode::Key(k) => entry_events(&k, &d.val, Some(all), Change::Update, owners),
            _ => {
                let out: Vec<Data> = Vec::new();
                assert(events_of(out@) =~= Seq::empty());
                Ok(out)
            },
        },
        LedgerChange::Removed(key) => match decode_key(key) {
            KeyDecode::Key(k) => Ok(removed_key_events(&k, owners)),
            _ => {
                let out: Vec<Data> = Vec::new();
                assert(events_of(out@) =~= Seq::empty());
                Ok(out)
            },
        },
        _ => {
            let out: Vec<Data> = Vec::new();
            assert(events_of(out@) =~= Seq::empty());
            Ok(out)
        },
    }
}

} // verus!
