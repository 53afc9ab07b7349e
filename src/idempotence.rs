//! Processing the same events twice leaves the row store as processing them once.
use vstd::prelude::*;
use crate::types::Event;
use crate::store::{
    StoreV, OfferRowV, apply_event, apply_all, unique_keys, first_index, lemma_first_index,
    color_key, glyph_key, offer_key, seller_selling, selling_buying_amount, color_row_key,
    offer_row_key,
};

verus! {

/// Some event of `es` satisfies `p`.
pub open spec fn writes(es: Seq<Event>, p: spec_fn(Event) -> bool) -> bool {
    exists|i: int| 0 <= i < es.len() && #[trigger] p(es[i])
}

/// The event sets the amount of the colour row with key `k`.
pub open spec fn amount_writer(k: (Seq<char>, Seq<char>, u32)) -> spec_fn(Event) -> bool {
    |e: Event|
        match e {
            Event::Color { miner, owner, color, .. } => (miner, owner, color) == k,
            _ => false,
        }
}

/// The event sets the body (width, length, colours) of the glyph `h`.
pub open spec fn body_writer(h: Seq<char>) -> spec_fn(Event) -> bool {
    |e: Event|
        match e {
            Event::Glyph { hash, .. } => hash == h,
            _ => false,
        }
}

/// The event sets the owner of the glyph `h`.
pub open spec fn owner_writer(h: Seq<char>) -> spec_fn(Event) -> bool {
    |e: Event|
        match e {
            Event::GlyphOwner { hash, .. } => hash == h,
            _ => false,
        }
}

/// The event sets the minter of the glyph `h`.
pub open spec fn minter_writer(h: Seq<char>) -> spec_fn(Event) -> bool {
    |e: Event|
        match e {
            Event::GlyphMinter { hash, .. } => hash == h,
            _ => false,
        }
}

/// The event may set the `active` flag of an offer row with the key of `r`.
pub open spec fn active_writer(r: OfferRowV) -> spec_fn(Event) -> bool {
    |e: Event|
        match e {
            Event::Offer { seller, selling, buying, amount, .. } => (seller, selling, buying, amount)
                == offer_row_key(r),
            Event::OfferSellerSelling { seller, selling, .. } => seller_selling(seller, selling)(r),
            Event::OfferSellingBuyingAmount { selling, buying, amount, .. } => selling_buying_amount(
                selling,
                buying,
                amount,
            )(r),
            _ => false,
        }
}

/// The glyph whose owner or minter the event sets.
pub open spec fn patched_glyph(e: Event) -> Option<Seq<char>> {
    match e {
        Event::GlyphOwner { hash, .. } => Some(hash),
        Event::GlyphMinter { hash, .. } => Some(hash),
        _ => None,
    }
}

/// The glyph whose body the event sets.
pub open spec fn body_glyph(e: Event) -> Option<Seq<char>> {
    match e {
        Event::Glyph { hash, .. } => Some(hash),
        _ => None,
    }
}

/// The store has a row for the glyph `h`.
pub open spec fn has_glyph(s: StoreV, h: Seq<char>) -> bool {
    exists|j: int| 0 <= j < s.glyphs.len() && (#[trigger] s.glyphs[j]).hash == h
}

/// An owner or minter event that comes before the body event of the same
/// glyph concerns a glyph that already has a row.
pub open spec fn patches_follow_bodies(s: StoreV, es: Seq<Event>) -> bool {
    forall|i: int, j: int|
        0 <= i < j < es.len() && #[trigger] patched_glyph(es[i]).is_some() && patched_glyph(es[i])
            == #[trigger] body_glyph(es[j]) ==> has_glyph(s, patched_glyph(es[i]).unwrap())
}

/// The rows of `u` stand, with the same keys, at the same places in `f`.
pub open spec fn extends(f: StoreV, u: StoreV) -> bool {
    &&& u.colors.len() <= f.colors.len()
    &&& forall|j: int|
        #![trigger u.colors[j]]
        #![trigger f.colors[j]]
        0 <= j < u.colors.len() ==> color_row_key(f.colors[j]) == color_row_key(u.colors[j])
    &&& u.glyphs.len() <= f.glyphs.len()
    &&& forall|j: int|
        #![trigger u.glyphs[j]]
        #![trigger f.glyphs[j]]
        0 <= j < u.glyphs.len() ==> f.glyphs[j].hash == u.glyphs[j].hash
    &&& u.offers.len() <= f.offers.len()
    &&& forall|j: int|
        #![trigger u.offers[j]]
        #![trigger f.offers[j]]
        0 <= j < u.offers.len() ==> offer_row_key(f.offers[j]) == offer_row_key(u.offers[j])
}

/// A column of a row of `u` that no event of `rest` sets has in `f` the
/// value it has in `u`.
pub open spec fn frame(u: StoreV, rest: Seq<Event>, f: StoreV) -> bool {
    &&& forall|j: int|
        #![trigger u.colors[j]]
        0 <= j < u.colors.len() && !writes(rest, amount_writer(color_row_key(u.colors[j])))
            ==> f.colors[j].amount == u.colors[j].amount
    &&& forall|j: int|
        #![trigger u.glyphs[j]]
        0 <= j < u.glyphs.len() && !writes(rest, body_writer(u.glyphs[j].hash)) ==> f.glyphs[j].width
            == u.glyphs[j].width && f.glyphs[j].length == u.glyphs[j].length && f.glyphs[j].colors
            == u.glyphs[j].colors
    &&& forall|j: int|
        #![trigger u.glyphs[j]]
        0 <= j < u.glyphs.len() && !writes(rest, owner_writer(u.glyphs[j].hash)) ==> f.glyphs[j].owner
            == u.glyphs[j].owner
    &&& forall|j: int|
        #![trigger u.glyphs[j]]
        0 <= j < u.glyphs.len() && !writes(rest, minter_writer(u.glyphs[j].hash))
            ==> f.glyphs[j].minter == u.glyphs[j].minter
    &&& forall|j: int|
        #![trigger u.offers[j]]
        0 <= j < u.offers.len() && !writes(rest, active_writer(u.offers[j])) ==> f.offers[j].active
            == u.offers[j].active
}

/// The colour rows of the second pass `t` agree with those of the first
/// pass `u`, but where an event of `rest` will set them.
pub open spec fn sim_colors(t: StoreV, u: StoreV, rest: Seq<Event>) -> bool {
    forall|j: int|
        #![trigger u.colors[j]]
        0 <= j < u.colors.len() ==> t.colors[j].amount == u.colors[j].amount || writes(
            rest,
            amount_writer(color_row_key(u.colors[j])),
        )
}

/// The glyph rows of `t` agree with those of `u`, but where an event of
/// `rest` will set them; a row that `u` has not yet has its final owner and
/// minter in `t`.
pub open spec fn sim_glyphs(t: StoreV, u: StoreV, f: StoreV, rest: Seq<Event>) -> bool {
    &&& forall|j: int|
        #![trigger u.glyphs[j]]
        0 <= j < u.glyphs.len() ==> (t.glyphs[j].width == u.glyphs[j].width && t.glyphs[j].length
            == u.glyphs[j].length && t.glyphs[j].colors == u.glyphs[j].colors) || writes(
            rest,
            body_writer(u.glyphs[j].hash),
        )
    &&& forall|j: int|
        #![trigger u.glyphs[j]]
        0 <= j < u.glyphs.len() ==> t.glyphs[j].owner == u.glyphs[j].owner || writes(
            rest,
            owner_writer(u.glyphs[j].hash),
        )
    &&& forall|j: int|
        #![trigger u.glyphs[j]]
        0 <= j < u.glyphs.len() ==> t.glyphs[j].minter == u.glyphs[j].minter || writes(
            rest,
            minter_writer(u.glyphs[j].hash),
        )
    &&& forall|j: int|
        #![trigger t.glyphs[j]]
        u.glyphs.len() <= j < f.glyphs.len() ==> t.glyphs[j].owner == f.glyphs[j].owner
            && t.glyphs[j].minter == f.glyphs[j].minter
}

/// The offer rows of `t` agree with those of `u`, but where an event of
/// `rest` may set them.
pub open spec fn sim_offers(t: StoreV, u: StoreV, rest: Seq<Event>) -> bool {
    forall|j: int|
        #![trigger u.offers[j]]
        0 <= j < u.offers.len() ==> t.offers[j].active == u.offers[j].active || writes(
            rest,
            active_writer(u.offers[j]),
        )
}

/// Relates the second pass `t` to the first pass `u`, part way through,
/// where `f` is the end of the first pass and `rest` the events still to come.
pub open spec fn sim(t: StoreV, u: StoreV, f: StoreV, rest: Seq<Event>) -> bool {
    &&& extends(f, u)
    &&& extends(f, t)
    &&& extends(t, f)
    &&& sim_colors(t, u, rest)
    &&& sim_glyphs(t, u, f, rest)
    &&& sim_offers(t, u, rest)
}

/// An owner or minter event for a glyph that the first pass has no row for
/// yet concerns a glyph that the first pass never creates.
pub open spec fn patch_cond(u: StoreV, f: StoreV, e: Event) -> bool {
    patched_glyph(e).is_some() && !has_glyph(u, patched_glyph(e).unwrap()) ==> !has_glyph(
        f,
        patched_glyph(e).unwrap(),
    )
}

/// An event of `es` satisfies `p` if and only if its first does, or one of the others.
pub proof fn lemma_writes_first(es: Seq<Event>, p: spec_fn(Event) -> bool)
    requires
        es.len() > 0,
    ensures
        writes(es, p) == (p(es[0]) || writes(es.drop_first(), p)),
{
    if writes(es, p) && !p(es[0]) {
        let i = choose|i: int| 0 <= i < es.len() && #[trigger] p(es[i]);
        assert(es.drop_first()[i - 1] == es[i]);
    }
    if writes(es.drop_first(), p) {
        let i = choose|i: int| 0 <= i < es.len() - 1 && #[trigger] p(es.drop_first()[i]);
        assert(es[i + 1] == es.drop_first()[i]);
    }
}

/// An event of `es` satisfies `p` if and only if its last does, or one of the others.
pub proof fn lemma_writes_last(es: Seq<Event>, p: spec_fn(Event) -> bool)
    requires
        es.len() > 0,
    ensures
        writes(es, p) == (p(es.last()) || writes(es.drop_last(), p)),
{
    if writes(es, p) && !p(es.last()) {
        let i = choose|i: int| 0 <= i < es.len() && #[trigger] p(es[i]);
        assert(es.drop_last()[i] == es[i]);
    }
    if writes(es.drop_last(), p) {
        let i = choose|i: int| 0 <= i < es.len() - 1 && #[trigger] p(es.drop_last()[i]);
        assert(es[i] == es.drop_last()[i]);
    }
}

/// `first_index` is the one index whose item matches with none before it.
pub proof fn lemma_first_index_at<T>(s: Seq<T>, p: spec_fn(T) -> bool, i: int)
    requires
        0 <= i < s.len(),
        p(s[i]),
        forall|j: int| 0 <= j < i ==> !p(#[trigger] s[j]),
    ensures
        first_index(s, p) == Some(i),
{
    lemma_first_index(s, p);
}

/// One event keeps every row where it was, with its key.
pub proof fn lemma_apply_event_extends(u: StoreV, e: Event)
    ensures
        extends(apply_event(u, e), u),
{
    let v = apply_event(u, e);
    match e {
        Event::Color { miner, owner, color, .. } => {
            lemma_first_index(u.colors, color_key(miner, owner, color));
        },
        Event::Offer { seller, selling, buying, amount, .. } => {
            lemma_first_index(u.offers, offer_key(seller, selling, buying, amount));
        },
        Event::Glyph { hash, .. } => {
            lemma_first_index(u.glyphs, glyph_key(hash));
        },
        Event::GlyphOwner { hash, .. } => {
            lemma_first_index(u.glyphs, glyph_key(hash));
        },
        Event::GlyphMinter { hash, .. } => {
            lemma_first_index(u.glyphs, glyph_key(hash));
        },
        _ => {},
    }
    assert forall|j: int| 0 <= j < u.offers.len() implies offer_row_key(v.offers[j]) == offer_row_key(
        u.offers[j],
    ) by {}
}

/// Extending is transitive.
pub proof fn lemma_extends_trans(a: StoreV, b: StoreV, c: StoreV)
    requires
        extends(a, b),
        extends(b, c),
    ensures
        extends(a, c),
{
    assert forall|j: int| 0 <= j < c.colors.len() implies color_row_key(a.colors[j]) == color_row_key(
        c.colors[j],
    ) by {
        assert(color_row_key(a.colors[j]) == color_row_key(b.colors[j]));
    }
    assert forall|j: int| 0 <= j < c.glyphs.len() implies a.glyphs[j].hash == c.glyphs[j].hash by {
        assert(a.glyphs[j].hash == b.glyphs[j].hash);
    }
    assert forall|j: int| 0 <= j < c.offers.len() implies offer_row_key(a.offers[j]) == offer_row_key(
        c.offers[j],
    ) by {
        assert(offer_row_key(a.offers[j]) == offer_row_key(b.offers[j]));
    }
}

/// A run of events keeps every row where it was, with its key.
pub proof fn lemma_apply_all_extends(u: StoreV, es: Seq<Event>)
    ensures
        extends(apply_all(u, es), u),
    decreases es.len(),
{
    if es.len() == 0 {
        assert forall|j: int| 0 <= j < u.offers.len() implies offer_row_key(u.offers[j])
            == offer_row_key(u.offers[j]) by {}
    } else {
        lemma_apply_all_extends(u, es.drop_last());
        lemma_apply_event_extends(apply_all(u, es.drop_last()), es.last());
        lemma_extends_trans(apply_all(u, es), apply_all(u, es.drop_last()), u);
    }
}

/// One event keeps the keys of each table unique.
pub proof fn lemma_apply_event_unique(u: StoreV, e: Event)
    requires
        unique_keys(u),
    ensures
        unique_keys(apply_event(u, e)),
{
    let v = apply_event(u, e);
    lemma_apply_event_extends(u, e);
    match e {
        Event::Color { miner, owner, color, .. } => {
            lemma_first_index(u.colors, color_key(miner, owner, color));
            assert forall|i: int, j: int| 0 <= i < j < v.colors.len() implies color_row_key(
                #[trigger] v.colors[i],
            ) != color_row_key(#[trigger] v.colors[j]) by {
                if j < u.colors.len() {
                    assert(color_row_key(v.colors[i]) == color_row_key(u.colors[i]));
                    assert(color_row_key(v.colors[j]) == color_row_key(u.colors[j]));
                } else {
                    assert(color_row_key(v.colors[i]) == color_row_key(u.colors[i]));
                    assert(!color_key(miner, owner, color)(u.colors[i]));
                }
            }
        },
        Event::Glyph { hash, .. } => {
            lemma_first_index(u.glyphs, glyph_key(hash));
            assert forall|i: int, j: int| 0 <= i < j < v.glyphs.len() implies (
            #[trigger] v.glyphs[i]).hash != (#[trigger] v.glyphs[j]).hash by {
                assert(v.glyphs[i].hash == u.glyphs[i].hash);
                if j < u.glyphs.len() {
                    assert(v.glyphs[j].hash == u.glyphs[j].hash);
                } else {
                    assert(!glyph_key(hash)(u.glyphs[i]));
                }
            }
        },
        Event::GlyphOwner { hash, .. } => {
            lemma_first_index(u.glyphs, glyph_key(hash));
            assert forall|i: int, j: int| 0 <= i < j < v.glyphs.len() implies (
            #[trigger] v.glyphs[i]).hash != (#[trigger] v.glyphs[j]).hash by {
                assert(v.glyphs[i].hash == u.glyphs[i].hash);
                assert(v.glyphs[j].hash == u.glyphs[j].hash);
            }
        },
        Event::GlyphMinter { hash, .. } => {
            lemma_first_index(u.glyphs, glyph_key(hash));
            assert forall|i: int, j: int| 0 <= i < j < v.glyphs.len() implies (
            #[trigger] v.glyphs[i]).hash != (#[trigger] v.glyphs[j]).hash by {
                assert(v.glyphs[i].hash == u.glyphs[i].hash);
                assert(v.glyphs[j].hash == u.glyphs[j].hash);
            }
        },
        Event::Offer { seller, selling, buying, amount, .. } => {
            lemma_first_index(u.offers, offer_key(seller, selling, buying, amount));
            assert forall|i: int, j: int| 0 <= i < j < v.offers.len() implies offer_row_key(
                #[trigger] v.offers[i],
            ) != offer_row_key(#[trigger] v.offers[j]) by {
                assert(offer_row_key(v.offers[i]) == offer_row_key(u.offers[i]));
                if j < u.offers.len() {
                    assert(offer_row_key(v.offers[j]) == offer_row_key(u.offers[j]));
                } else {
                    assert(!offer_key(seller, selling, buying, amount)(u.offers[i]));
                }
            }
        },
        _ => {
            assert forall|i: int, j: int| 0 <= i < j < v.offers.len() implies offer_row_key(
                #[trigger] v.offers[i],
            ) != offer_row_key(#[trigger] v.offers[j]) by {
                assert(offer_row_key(v.offers[i]) == offer_row_key(u.offers[i]));
                assert(offer_row_key(v.offers[j]) == offer_row_key(u.offers[j]));
            }
        },
    }
}

/// A run of events keeps the keys of each table unique.
pub proof fn lemma_apply_all_unique(u: StoreV, es: Seq<Event>)
    requires
        unique_keys(u),
    ensures
        unique_keys(apply_all(u, es)),
    decreases es.len(),
{
    if es.len() > 0 {
        lemma_apply_all_unique(u, es.drop_last());
        lemma_apply_event_unique(apply_all(u, es.drop_last()), es.last());
    }
}

/// What one event leaves alone: each column of each row that it does not set.
pub proof fn lemma_event_keeps(u: StoreV, e: Event)
    ensures
        ({
            let v = apply_event(u, e);
            &&& forall|j: int|
                #![trigger u.colors[j]]
                0 <= j < u.colors.len() && !amount_writer(color_row_key(u.colors[j]))(e)
                    ==> v.colors[j].amount == u.colors[j].amount
            &&& forall|j: int|
                #![trigger u.glyphs[j]]
                0 <= j < u.glyphs.len() && !body_writer(u.glyphs[j].hash)(e) ==> v.glyphs[j].width
                    == u.glyphs[j].width && v.glyphs[j].length == u.glyphs[j].length
                    && v.glyphs[j].colors == u.glyphs[j].colors
            &&& forall|j: int|
                #![trigger u.glyphs[j]]
                0 <= j < u.glyphs.len() && !owner_writer(u.glyphs[j].hash)(e) ==> v.glyphs[j].owner
                    == u.glyphs[j].owner
            &&& forall|j: int|
                #![trigger u.glyphs[j]]
                0 <= j < u.glyphs.len() && !minter_writer(u.glyphs[j].hash)(e)
                    ==> v.glyphs[j].minter == u.glyphs[j].minter
            &&& forall|j: int|
                #![trigger u.offers[j]]
                0 <= j < u.offers.len() && !active_writer(u.offers[j])(e) ==> v.offers[j].active
                    == u.offers[j].active
        }),
{
    match e {
        Event::Color { miner, owner, color, .. } => {
            lemma_first_index(u.colors, color_key(miner, owner, color));
        },
        Event::Offer { seller, selling, buying, amount, .. } => {
            lemma_first_index(u.offers, offer_key(seller, selling, buying, amount));
        },
        Event::Glyph { hash, .. } => {
            lemma_first_index(u.glyphs, glyph_key(hash));
        },
        Event::GlyphOwner { hash, .. } => {
            lemma_first_index(u.glyphs, glyph_key(hash));
        },
        Event::GlyphMinter { hash, .. } => {
            lemma_first_index(u.glyphs, glyph_key(hash));
        },
        _ => {},
    }
}

/// Each column of a row of `u` that no event of `es` sets keeps its value.
pub proof fn lemma_frame(u: StoreV, es: Seq<Event>)
    ensures
        frame(u, es, apply_all(u, es)),
    decreases es.len(),
{
    if es.len() > 0 {
        let mid = apply_all(u, es.drop_last());
        let e = es.last();
        let f = apply_all(u, es);
        lemma_frame(u, es.drop_last());
        lemma_apply_all_extends(u, es.drop_last());
        lemma_event_keeps(mid, e);
        assert forall|j: int| #![trigger u.colors[j]]
            0 <= j < u.colors.len() && !writes(es, amount_writer(color_row_key(u.colors[j])))
            implies f.colors[j].amount == u.colors[j].amount by {
            lemma_writes_last(es, amount_writer(color_row_key(u.colors[j])));
            assert(color_row_key(mid.colors[j]) == color_row_key(u.colors[j]));
        }
        assert forall|j: int| #![trigger u.glyphs[j]]
            0 <= j < u.glyphs.len() && !writes(es, body_writer(u.glyphs[j].hash)) implies f.glyphs[j].width
            == u.glyphs[j].width && f.glyphs[j].length == u.glyphs[j].length && f.glyphs[j].colors
            == u.glyphs[j].colors by {
            lemma_writes_last(es, body_writer(u.glyphs[j].hash));
            assert(mid.glyphs[j].hash == u.glyphs[j].hash);
        }
        assert forall|j: int| #![trigger u.glyphs[j]]
            0 <= j < u.glyphs.len() && !writes(es, owner_writer(u.glyphs[j].hash)) implies f.glyphs[j].owner
            == u.glyphs[j].owner by {
            lemma_writes_last(es, owner_writer(u.glyphs[j].hash));
            assert(mid.glyphs[j].hash == u.glyphs[j].hash);
        }
        assert forall|j: int| #![trigger u.glyphs[j]]
            0 <= j < u.glyphs.len() && !writes(es, minter_writer(u.glyphs[j].hash))
            implies f.glyphs[j].minter == u.glyphs[j].minter by {
            lemma_writes_last(es, minter_writer(u.glyphs[j].hash));
            assert(mid.glyphs[j].hash == u.glyphs[j].hash);
        }
        assert forall|j: int| #![trigger u.offers[j]]
            0 <= j < u.offers.len() && !writes(es, active_writer(u.offers[j])) implies f.offers[j].active
            == u.offers[j].active by {
            lemma_writes_last(es, active_writer(u.offers[j]));
            assert(offer_row_key(mid.offers[j]) == offer_row_key(u.offers[j]));
            assert(active_writer(mid.offers[j])(e) == active_writer(u.offers[j])(e));
        }
    }
}

/// Without a body event for the glyph `h`, no row for it appears.
pub proof fn lemma_no_body_no_row(u: StoreV, es: Seq<Event>, h: Seq<char>)
    requires
        !has_glyph(u, h),
        !writes(es, body_writer(h)),
    ensures
        !has_glyph(apply_all(u, es), h),
    decreases es.len(),
{
    if es.len() > 0 {
        lemma_writes_last(es, body_writer(h));
        lemma_no_body_no_row(u, es.drop_last(), h);
        let mid = apply_all(u, es.drop_last());
        let f = apply_all(u, es);
        lemma_apply_event_extends(mid, es.last());
        if has_glyph(f, h) {
            let j = choose|j: int| 0 <= j < f.glyphs.len() && (#[trigger] f.glyphs[j]).hash == h;
            if j < mid.glyphs.len() {
                assert(mid.glyphs[j].hash == h);
            } else {
                match es.last() {
                    Event::Glyph { hash, .. } => {
                        lemma_first_index(mid.glyphs, glyph_key(hash));
                    },
                    Event::GlyphOwner { hash, .. } => {
                        lemma_first_index(mid.glyphs, glyph_key(hash));
                    },
                    Event::GlyphMinter { hash, .. } => {
                        lemma_first_index(mid.glyphs, glyph_key(hash));
                    },
                    _ => {},
                }
            }
        }
    }
}

/// The colour tables stay related across an event that sets no colour.
proof fn lemma_colors_carry(t: StoreV, u: StoreV, rest: Seq<Event>)
    requires
        rest.len() > 0,
        sim_colors(t, u, rest),
        !(rest[0] matches Event::Color { .. }),
    ensures
        sim_colors(t, u, rest.drop_first()),
{
    assert forall|j: int| #![trigger u.colors[j]] 0 <= j < u.colors.len() implies t.colors[j].amount
        == u.colors[j].amount || writes(rest.drop_first(), amount_writer(color_row_key(u.colors[j]))) by {
        lemma_writes_first(rest, amount_writer(color_row_key(u.colors[j])));
    }
}

/// The glyph tables stay related across an event that sets no glyph.
proof fn lemma_glyphs_carry(t: StoreV, u: StoreV, f: StoreV, rest: Seq<Event>)
    requires
        rest.len() > 0,
        sim_glyphs(t, u, f, rest),
        !(rest[0] matches Event::Glyph { .. }),
        !(rest[0] matches Event::GlyphOwner { .. }),
        !(rest[0] matches Event::GlyphMinter { .. }),
    ensures
        sim_glyphs(t, u, f, rest.drop_first()),
{
    assert forall|j: int| #![trigger u.glyphs[j]] 0 <= j < u.glyphs.len() implies (t.glyphs[j].width
        == u.glyphs[j].width && t.glyphs[j].length == u.glyphs[j].length && t.glyphs[j].colors
        == u.glyphs[j].colors) || writes(rest.drop_first(), body_writer(u.glyphs[j].hash)) by {
        lemma_writes_first(rest, body_writer(u.glyphs[j].hash));
    }
    assert forall|j: int| #![trigger u.glyphs[j]] 0 <= j < u.glyphs.len() implies t.glyphs[j].owner
        == u.glyphs[j].owner || writes(rest.drop_first(), owner_writer(u.glyphs[j].hash)) by {
        lemma_writes_first(rest, owner_writer(u.glyphs[j].hash));
    }
    assert forall|j: int| #![trigger u.glyphs[j]] 0 <= j < u.glyphs.len() implies t.glyphs[j].minter
        == u.glyphs[j].minter || writes(rest.drop_first(), minter_writer(u.glyphs[j].hash)) by {
        lemma_writes_first(rest, minter_writer(u.glyphs[j].hash));
    }
}

/// The offer tables stay related across an event that sets no offer.
proof fn lemma_offers_carry(t: StoreV, u: StoreV, rest: Seq<Event>)
    requires
        rest.len() > 0,
        sim_offers(t, u, rest),
        !(rest[0] matches Event::Offer { .. }),
        !(rest[0] matches Event::OfferSellerSelling { .. }),
        !(rest[0] matches Event::OfferSellingBuyingAmount { .. }),
    ensures
        sim_offers(t, u, rest.drop_first()),
{
    assert forall|j: int| #![trigger u.offers[j]] 0 <= j < u.offers.len() implies t.offers[j].active
        == u.offers[j].active || writes(rest.drop_first(), active_writer(u.offers[j])) by {
        lemma_writes_first(rest, active_writer(u.offers[j]));
    }
}

/// The relation survives a colour event.
proof fn lemma_step_color(t: StoreV, u: StoreV, f: StoreV, rest: Seq<Event>)
    requires
        rest.len() > 0,
        rest[0] matches Event::Color { .. },
        sim(t, u, f, rest),
        unique_keys(u),
        extends(f, apply_event(u, rest[0])),
    ensures
        sim(apply_event(t, rest[0]), apply_event(u, rest[0]), f, rest.drop_first()),
{
    let e = rest[0];
    let r2 = rest.drop_first();
    let t2 = apply_event(t, e);
    let u2 = apply_event(u, e);
    if let Event::Color { miner, owner, color, amount, .. } = e {
        let ck = color_key(miner, owner, color);
        lemma_first_index(u.colors, ck);
        let ti: int = match first_index(u.colors, ck) {
            Some(i) => i,
            None => u.colors.len() as int,
        };
        assert forall|j: int| 0 <= j < ti implies !ck(#[trigger] t.colors[j]) by {
            assert(color_row_key(t.colors[j]) == color_row_key(f.colors[j]));
            assert(color_row_key(f.colors[j]) == color_row_key(u.colors[j]));
        }
        if first_index(u.colors, ck).is_none() {
            assert(color_row_key(f.colors[ti]) == color_row_key(u2.colors[ti]));
        } else {
            assert(color_row_key(f.colors[ti]) == color_row_key(u.colors[ti]));
        }
        assert(color_row_key(t.colors[ti]) == color_row_key(f.colors[ti]));
        lemma_first_index_at(t.colors, ck, ti);
        lemma_apply_event_extends(t, e);
        assert(t2.colors.len() == t.colors.len());
        assert forall|j: int| #![trigger u2.colors[j]] 0 <= j < u2.colors.len() implies t2.colors[j].amount
            == u2.colors[j].amount || writes(r2, amount_writer(color_row_key(u2.colors[j]))) by {
            if j != ti {
                assert(u2.colors[j] == u.colors[j]);
                assert(t2.colors[j] == t.colors[j]);
                lemma_writes_first(rest, amount_writer(color_row_key(u.colors[j])));
                if j > ti {
                    assert(color_row_key(u.colors[ti]) != color_row_key(u.colors[j]));
                }
            }
        }
        lemma_glyphs_carry(t, u, f, rest);
        lemma_offers_carry(t, u, rest);
        lemma_extends_trans(f, t, t2);
        assert forall|j: int| 0 <= j < f.colors.len() implies color_row_key(t2.colors[j])
            == color_row_key(f.colors[j]) by {
            assert(color_row_key(t2.colors[j]) == color_row_key(t.colors[j]));
        }
        assert forall|j: int| 0 <= j < f.offers.len() implies offer_row_key(t2.offers[j])
            == offer_row_key(f.offers[j]) by {
            assert(offer_row_key(t2.offers[j]) == offer_row_key(t.offers[j]));
        }
    }
}

/// The relation survives a glyph body event.
proof fn lemma_step_glyph(t: StoreV, u: StoreV, f: StoreV, rest: Seq<Event>)
    requires
        rest.len() > 0,
        rest[0] matches Event::Glyph { .. },
        sim(t, u, f, rest),
        unique_keys(u),
        extends(f, apply_event(u, rest[0])),
        frame(apply_event(u, rest[0]), rest.drop_first(), f),
    ensures
        sim(apply_event(t, rest[0]), apply_event(u, rest[0]), f, rest.drop_first()),
{
    let e = rest[0];
    let r2 = rest.drop_first();
    let t2 = apply_event(t, e);
    let u2 = apply_event(u, e);
    if let Event::Glyph { hash, .. } = e {
        let gk = glyph_key(hash);
        lemma_first_index(u.glyphs, gk);
        let ti: int = match first_index(u.glyphs, gk) {
            Some(i) => i,
            None => u.glyphs.len() as int,
        };
        assert forall|j: int| 0 <= j < ti implies !gk(#[trigger] t.glyphs[j]) by {
            assert(t.glyphs[j].hash == f.glyphs[j].hash);
            assert(f.glyphs[j].hash == u.glyphs[j].hash);
        }
        if first_index(u.glyphs, gk).is_none() {
            assert(f.glyphs[ti].hash == u2.glyphs[ti].hash);
        } else {
            assert(f.glyphs[ti].hash == u.glyphs[ti].hash);
        }
        assert(t.glyphs[ti].hash == f.glyphs[ti].hash);
        lemma_first_index_at(t.glyphs, gk, ti);
        lemma_apply_event_extends(t, e);
        assert(t2.glyphs.len() == t.glyphs.len());
        assert forall|j: int| #![trigger u2.glyphs[j]] 0 <= j < u2.glyphs.len() && j != ti
            implies u2.glyphs[j] == u.glyphs[j] && t2.glyphs[j] == t.glyphs[j] && hash
            != u.glyphs[j].hash by {
            if j > ti {
                assert(u.glyphs[ti].hash != u.glyphs[j].hash);
            }
        }
        assert forall|j: int| #![trigger u2.glyphs[j]] 0 <= j < u2.glyphs.len() implies (
        t2.glyphs[j].width == u2.glyphs[j].width && t2.glyphs[j].length == u2.glyphs[j].length
            && t2.glyphs[j].colors == u2.glyphs[j].colors) || writes(
            r2,
            body_writer(u2.glyphs[j].hash),
        ) by {
            if j != ti {
                lemma_writes_first(rest, body_writer(u.glyphs[j].hash));
            }
        }
        assert forall|j: int| #![trigger u2.glyphs[j]] 0 <= j < u2.glyphs.len() implies t2.glyphs[j].owner
            == u2.glyphs[j].owner || writes(r2, owner_writer(u2.glyphs[j].hash)) by {
            if j != ti {
                lemma_writes_first(rest, owner_writer(u.glyphs[j].hash));
            } else if ti < u.glyphs.len() {
                lemma_writes_first(rest, owner_writer(u.glyphs[j].hash));
            } else {
                assert(t.glyphs[ti].owner == f.glyphs[ti].owner);
            }
        }
        assert forall|j: int| #![trigger u2.glyphs[j]] 0 <= j < u2.glyphs.len() implies t2.glyphs[j].minter
            == u2.glyphs[j].minter || writes(r2, minter_writer(u2.glyphs[j].hash)) by {
            if j != ti {
                lemma_writes_first(rest, minter_writer(u.glyphs[j].hash));
            } else if ti < u.glyphs.len() {
                lemma_writes_first(rest, minter_writer(u.glyphs[j].hash));
            } else {
                assert(t.glyphs[ti].minter == f.glyphs[ti].minter);
            }
        }
        assert forall|j: int| #![trigger t2.glyphs[j]] u2.glyphs.len() <= j < f.glyphs.len()
            implies t2.glyphs[j].owner == f.glyphs[j].owner && t2.glyphs[j].minter
            == f.glyphs[j].minter by {
            assert(t2.glyphs[j] == t.glyphs[j]);
            assert(t.glyphs[j].owner == f.glyphs[j].owner);
        }
        lemma_colors_carry(t, u, rest);
        lemma_offers_carry(t, u, rest);
        assert forall|j: int| 0 <= j < f.glyphs.len() implies t2.glyphs[j].hash == f.glyphs[j].hash by {
            assert(t2.glyphs[j].hash == t.glyphs[j].hash);
        }
        assert forall|j: int| 0 <= j < f.offers.len() implies offer_row_key(t2.offers[j])
            == offer_row_key(f.offers[j]) by {
            assert(offer_row_key(t2.offers[j]) == offer_row_key(t.offers[j]));
        }
    }
}

/// The relation survives a glyph owner event.
proof fn lemma_step_owner(t: StoreV, u: StoreV, f: StoreV, rest: Seq<Event>)
    requires
        rest.len() > 0,
        rest[0] matches Event::GlyphOwner { .. },
        sim(t, u, f, rest),
        unique_keys(u),
        patch_cond(u, f, rest[0]),
    ensures
        sim(apply_event(t, rest[0]), apply_event(u, rest[0]), f, rest.drop_first()),
{
    let e = rest[0];
    let r2 = rest.drop_first();
    let t2 = apply_event(t, e);
    let u2 = apply_event(u, e);
    if let Event::GlyphOwner { hash, .. } = e {
        let gk = glyph_key(hash);
        lemma_first_index(u.glyphs, gk);
        lemma_first_index(t.glyphs, gk);
        lemma_apply_event_extends(t, e);
        match first_index(u.glyphs, gk) {
            Some(ti) => {
                assert forall|j: int| 0 <= j < ti implies !gk(#[trigger] t.glyphs[j]) by {
                    assert(t.glyphs[j].hash == f.glyphs[j].hash);
                    assert(f.glyphs[j].hash == u.glyphs[j].hash);
                }
                assert(t.glyphs[ti].hash == f.glyphs[ti].hash);
                lemma_first_index_at(t.glyphs, gk, ti);
                assert forall|j: int| #![trigger u2.glyphs[j]] 0 <= j < u2.glyphs.len() && j != ti
                    implies u2.glyphs[j] == u.glyphs[j] && t2.glyphs[j] == t.glyphs[j] && hash
                    != u.glyphs[j].hash by {
                    if j > ti {
                        assert(u.glyphs[ti].hash != u.glyphs[j].hash);
                    }
                }
                assert forall|j: int| #![trigger u2.glyphs[j]] 0 <= j < u2.glyphs.len() implies t2.glyphs[j].owner
                    == u2.glyphs[j].owner || writes(r2, owner_writer(u2.glyphs[j].hash)) by {
                    if j != ti {
                        lemma_writes_first(rest, owner_writer(u.glyphs[j].hash));
                    }
                }
                assert forall|j: int| #![trigger u2.glyphs[j]] 0 <= j < u2.glyphs.len() implies t2.glyphs[j].minter
                    == u2.glyphs[j].minter || writes(r2, minter_writer(u2.glyphs[j].hash)) by {
                    lemma_writes_first(rest, minter_writer(u.glyphs[j].hash));
                }
                assert forall|j: int| #![trigger u2.glyphs[j]] 0 <= j < u2.glyphs.len() implies (
                t2.glyphs[j].width == u2.glyphs[j].width && t2.glyphs[j].length == u2.glyphs[j].length
                    && t2.glyphs[j].colors == u2.glyphs[j].colors) || writes(
                    r2,
                    body_writer(u2.glyphs[j].hash),
                ) by {
                    lemma_writes_first(rest, body_writer(u.glyphs[j].hash));
                }
                assert forall|j: int| #![trigger t2.glyphs[j]] u2.glyphs.len() <= j < f.glyphs.len()
                    implies t2.glyphs[j].owner == f.glyphs[j].owner && t2.glyphs[j].minter
                    == f.glyphs[j].minter by {
                    assert(t2.glyphs[j] == t.glyphs[j]);
                    assert(t.glyphs[j].owner == f.glyphs[j].owner);
                }
            },
            None => {
                assert(!has_glyph(u, hash));
                assert(!has_glyph(f, hash));
                assert forall|j: int| 0 <= j < t.glyphs.len() implies !gk(#[trigger] t.glyphs[j]) by {
                    assert(t.glyphs[j].hash == f.glyphs[j].hash);
                }
                assert(t2 == t);
                assert forall|j: int| #![trigger u.glyphs[j]] 0 <= j < u.glyphs.len() implies hash
                    != u.glyphs[j].hash by {}
                assert forall|j: int| #![trigger u.glyphs[j]] 0 <= j < u.glyphs.len() implies t.glyphs[j].owner
                    == u.glyphs[j].owner || writes(r2, owner_writer(u.glyphs[j].hash)) by {
                    lemma_writes_first(rest, owner_writer(u.glyphs[j].hash));
                }
                assert forall|j: int| #![trigger u.glyphs[j]] 0 <= j < u.glyphs.len() implies t.glyphs[j].minter
                    == u.glyphs[j].minter || writes(r2, minter_writer(u.glyphs[j].hash)) by {
                    lemma_writes_first(rest, minter_writer(u.glyphs[j].hash));
                }
                assert forall|j: int| #![trigger u.glyphs[j]] 0 <= j < u.glyphs.len() implies (
                t.glyphs[j].width == u.glyphs[j].width && t.glyphs[j].length == u.glyphs[j].length
                    && t.glyphs[j].colors == u.glyphs[j].colors) || writes(
                    r2,
                    body_writer(u.glyphs[j].hash),
                ) by {
                    lemma_writes_first(rest, body_writer(u.glyphs[j].hash));
                }
            },
        }
        lemma_colors_carry(t, u, rest);
        lemma_offers_carry(t, u, rest);
        assert forall|j: int| 0 <= j < f.glyphs.len() implies t2.glyphs[j].hash == f.glyphs[j].hash by {
            assert(t2.glyphs[j].hash == t.glyphs[j].hash);
        }
    }
}

/// The relation survives a glyph minter event.
proof fn lemma_step_minter(t: StoreV, u: StoreV, f: StoreV, rest: Seq<Event>)
    requires
        rest.len() > 0,
        rest[0] matches Event::GlyphMinter { .. },
        sim(t, u, f, rest),
        unique_keys(u),
        patch_cond(u, f, rest[0]),
    ensures
        sim(apply_event(t, rest[0]), apply_event(u, rest[0]), f, rest.drop_first()),
{
    let e = rest[0];
    let r2 = rest.drop_first();
    let t2 = apply_event(t, e);
    let u2 = apply_event(u, e);
    if let Event::GlyphMinter { hash, .. } = e {
        let gk = glyph_key(hash);
        lemma_first_index(u.glyphs, gk);
        lemma_first_index(t.glyphs, gk);
        lemma_apply_event_extends(t, e);
        match first_index(u.glyphs, gk) {
            Some(ti) => {
                assert forall|j: int| 0 <= j < ti implies !gk(#[trigger] t.glyphs[j]) by {
                    assert(t.glyphs[j].hash == f.glyphs[j].hash);
                    assert(f.glyphs[j].hash == u.glyphs[j].hash);
                }
                assert(t.glyphs[ti].hash == f.glyphs[ti].hash);
                lemma_first_index_at(t.glyphs, gk, ti);
                assert forall|j: int| #![trigger u2.glyphs[j]] 0 <= j < u2.glyphs.len() && j != ti
                    implies u2.glyphs[j] == u.glyphs[j] && t2.glyphs[j] == t.glyphs[j] && hash
                    != u.glyphs[j].hash by {
                    if j > ti {
                        assert(u.glyphs[ti].hash != u.glyphs[j].hash);
                    }
                }
                assert forall|j: int| #![trigger u2.glyphs[j]] 0 <= j < u2.glyphs.len() implies t2.glyphs[j].minter
                    == u2.glyphs[j].minter || writes(r2, minter_writer(u2.glyphs[j].hash)) by {
                    if j != ti {
                        lemma_writes_first(rest, minter_writer(u.glyphs[j].hash));
                    }
                }
                assert forall|j: int| #![trigger u2.glyphs[j]] 0 <= j < u2.glyphs.len() implies t2.glyphs[j].owner
                    == u2.glyphs[j].owner || writes(r2, owner_writer(u2.glyphs[j].hash)) by {
                    lemma_writes_first(rest, owner_writer(u.glyphs[j].hash));
                }
                assert forall|j: int| #![trigger u2.glyphs[j]] 0 <= j < u2.glyphs.len() implies (
                t2.glyphs[j].width == u2.glyphs[j].width && t2.glyphs[j].length == u2.glyphs[j].length
                    && t2.glyphs[j].colors == u2.glyphs[j].colors) || writes(
                    r2,
                    body_writer(u2.glyphs[j].hash),
                ) by {
                    lemma_writes_first(rest, body_writer(u.glyphs[j].hash));
                }
                assert forall|j: int| #![trigger t2.glyphs[j]] u2.glyphs.len() <= j < f.glyphs.len()
                    implies t2.glyphs[j].owner == f.glyphs[j].owner && t2.glyphs[j].minter
                    == f.glyphs[j].minter by {
                    assert(t2.glyphs[j] == t.glyphs[j]);
                    assert(t.glyphs[j].owner == f.glyphs[j].owner);
                }
            },
            None => {
                assert(!has_glyph(u, hash));
                assert(!has_glyph(f, hash));
                assert forall|j: int| 0 <= j < t.glyphs.len() implies !gk(#[trigger] t.glyphs[j]) by {
                    assert(t.glyphs[j].hash == f.glyphs[j].hash);
                }
                assert(t2 == t);
                assert forall|j: int| #![trigger u.glyphs[j]] 0 <= j < u.glyphs.len() implies hash
                    != u.glyphs[j].hash by {}
                assert forall|j: int| #![trigger u.glyphs[j]] 0 <= j < u.glyphs.len() implies t.glyphs[j].minter
                    == u.glyphs[j].minter || writes(r2, minter_writer(u.glyphs[j].hash)) by {
                    lemma_writes_first(rest, minter_writer(u.glyphs[j].hash));
                }
                assert forall|j: int| #![trigger u.glyphs[j]] 0 <= j < u.glyphs.len() implies t.glyphs[j].owner
                    == u.glyphs[j].owner || writes(r2, owner_writer(u.glyphs[j].hash)) by {
                    lemma_writes_first(rest, owner_writer(u.glyphs[j].hash));
                }
                assert forall|j: int| #![trigger u.glyphs[j]] 0 <= j < u.glyphs.len() implies (
                t.glyphs[j].width == u.glyphs[j].width && t.glyphs[j].length == u.glyphs[j].length
                    && t.glyphs[j].colors == u.glyphs[j].colors) || writes(
                    r2,
                    body_writer(u.glyphs[j].hash),
                ) by {
                    lemma_writes_first(rest, body_writer(u.glyphs[j].hash));
                }
            },
        }
        lemma_colors_carry(t, u, rest);
        lemma_offers_carry(t, u, rest);
        assert forall|j: int| 0 <= j < f.glyphs.len() implies t2.glyphs[j].hash == f.glyphs[j].hash by {
            assert(t2.glyphs[j].hash == t.glyphs[j].hash);
        }
    }
}

/// The relation survives an offer event.
proof fn lemma_step_offer(t: StoreV, u: StoreV, f: StoreV, rest: Seq<Event>)
    requires
        rest.len() > 0,
        rest[0] matches Event::Offer { .. },
        sim(t, u, f, rest),
        unique_keys(u),
        extends(f, apply_event(u, rest[0])),
    ensures
        sim(apply_event(t, rest[0]), apply_event(u, rest[0]), f, rest.drop_first()),
{
    let e = rest[0];
    let r2 = rest.drop_first();
    let t2 = apply_event(t, e);
    let u2 = apply_event(u, e);
    if let Event::Offer { change, seller, selling, buying, amount } = e {
        let ok = offer_key(seller, selling, buying, amount);
        lemma_first_index(u.offers, ok);
        lemma_first_index(t.offers, ok);
        lemma_apply_event_extends(t, e);
        assert forall|j: int| #![trigger u.offers[j]] 0 <= j < u.offers.len() implies offer_row_key(
            t.offers[j],
        ) == offer_row_key(u.offers[j]) by {
            assert(offer_row_key(t.offers[j]) == offer_row_key(f.offers[j]));
        }
        let ti: int = match first_index(u.offers, ok) {
            Some(i) => i,
            None => u.offers.len() as int,
        };
        assert forall|j: int| 0 <= j < ti implies !ok(#[trigger] t.offers[j]) by {
            assert(offer_row_key(t.offers[j]) == offer_row_key(u.offers[j]));
        }
        if first_index(u.offers, ok).is_some() || u2.offers.len() > u.offers.len() {
            if first_index(u.offers, ok).is_none() {
                assert(offer_row_key(f.offers[ti]) == offer_row_key(u2.offers[ti]));
            } else {
                assert(offer_row_key(f.offers[ti]) == offer_row_key(u.offers[ti]));
            }
            assert(offer_row_key(t.offers[ti]) == offer_row_key(f.offers[ti]));
            lemma_first_index_at(t.offers, ok, ti);
        }
        assert(t2.offers.len() == t.offers.len());
        assert forall|j: int| #![trigger u2.offers[j]] 0 <= j < u2.offers.len() implies t2.offers[j].active
            == u2.offers[j].active || writes(r2, active_writer(u2.offers[j])) by {
            if j != ti {
                assert(u2.offers[j] == u.offers[j]);
                if j < ti || first_index(u.offers, ok).is_some() {
                    assert(t2.offers[j] == t.offers[j]);
                }
                lemma_writes_first(rest, active_writer(u.offers[j]));
                if j > ti {
                    assert(offer_row_key(u.offers[ti]) != offer_row_key(u.offers[j]));
                }
            }
        }
        lemma_colors_carry(t, u, rest);
        lemma_glyphs_carry(t, u, f, rest);
        assert forall|j: int| 0 <= j < f.offers.len() implies offer_row_key(t2.offers[j])
            == offer_row_key(f.offers[j]) by {
            assert(offer_row_key(t2.offers[j]) == offer_row_key(t.offers[j]));
        }
        assert forall|j: int| 0 <= j < f.colors.len() implies color_row_key(t2.colors[j])
            == color_row_key(f.colors[j]) by {
            assert(color_row_key(t2.colors[j]) == color_row_key(t.colors[j]));
        }
    }
}

/// The relation survives the removal of a whole offer slot.
proof fn lemma_step_deactivate(t: StoreV, u: StoreV, f: StoreV, rest: Seq<Event>)
    requires
        rest.len() > 0,
        rest[0] matches Event::OfferSellerSelling { .. } || rest[0] matches Event::OfferSellingBuyingAmount { .. },
        sim(t, u, f, rest),
    ensures
        sim(apply_event(t, rest[0]), apply_event(u, rest[0]), f, rest.drop_first()),
{
    let e = rest[0];
    let r2 = rest.drop_first();
    let t2 = apply_event(t, e);
    let u2 = apply_event(u, e);
    lemma_apply_event_extends(t, e);
    lemma_apply_event_extends(u, e);
    assert forall|j: int| #![trigger u2.offers[j]] 0 <= j < u2.offers.len() implies t2.offers[j].active
        == u2.offers[j].active || writes(r2, active_writer(u2.offers[j])) by {
        assert(offer_row_key(t.offers[j]) == offer_row_key(f.offers[j]));
        assert(offer_row_key(f.offers[j]) == offer_row_key(u.offers[j]));
        assert(offer_row_key(u2.offers[j]) == offer_row_key(u.offers[j]));
        assert(active_writer(u2.offers[j])(e) == active_writer(u.offers[j])(e));
        lemma_writes_first(rest, active_writer(u.offers[j]));
        assert(active_writer(u2.offers[j]) == active_writer(u.offers[j])) by {
            assert(u2.offers[j].seller == u.offers[j].seller);
        }
    }
    lemma_colors_carry(t, u, rest);
    lemma_glyphs_carry(t, u, f, rest);
    assert forall|j: int| 0 <= j < f.offers.len() implies offer_row_key(t2.offers[j]) == offer_row_key(
        f.offers[j],
    ) by {
        assert(offer_row_key(t2.offers[j]) == offer_row_key(t.offers[j]));
    }
    assert forall|j: int| 0 <= j < u2.offers.len() implies offer_row_key(f.offers[j]) == offer_row_key(
        u2.offers[j],
    ) by {
        assert(offer_row_key(u2.offers[j]) == offer_row_key(u.offers[j]));
    }
}

/// The relation survives any event.
proof fn lemma_sim_step(t: StoreV, u: StoreV, f: StoreV, rest: Seq<Event>)
    requires
        rest.len() > 0,
        sim(t, u, f, rest),
        unique_keys(u),
        extends(f, apply_event(u, rest[0])),
        frame(apply_event(u, rest[0]), rest.drop_first(), f),
        patch_cond(u, f, rest[0]),
    ensures
        sim(apply_event(t, rest[0]), apply_event(u, rest[0]), f, rest.drop_first()),
{
    match rest[0] {
        Event::Color { .. } => lemma_step_color(t, u, f, rest),
        Event::Glyph { .. } => lemma_step_glyph(t, u, f, rest),
        Event::GlyphOwner { .. } => lemma_step_owner(t, u, f, rest),
        Event::GlyphMinter { .. } => lemma_step_minter(t, u, f, rest),
        Event::Offer { .. } => lemma_step_offer(t, u, f, rest),
        _ => lemma_step_deactivate(t, u, f, rest),
    }
}

/// A store extends itself.
proof fn lemma_extends_refl(s: StoreV)
    ensures
        extends(s, s),
{
    assert forall|j: int| 0 <= j < s.offers.len() implies offer_row_key(s.offers[j]) == offer_row_key(
        s.offers[j],
    ) by {}
}

/// After `k` events of the second pass, it stands in the relation to the
/// first pass after the same `k` events.
proof fn lemma_sim_upto(s: StoreV, es: Seq<Event>, k: int)
    requires
        unique_keys(s),
        patches_follow_bodies(s, es),
        0 <= k <= es.len(),
    ensures
        sim(
            apply_all(apply_all(s, es), es.subrange(0, k)),
            apply_all(s, es.subrange(0, k)),
            apply_all(s, es),
            es.subrange(k, es.len() as int),
        ),
    decreases k,
{
    let f = apply_all(s, es);
    let n = es.len() as int;
    if k == 0 {
        assert(es.subrange(0, 0) =~= Seq::<Event>::empty());
        assert(es.subrange(0, n) =~= es);
        lemma_apply_all_extends(s, es);
        lemma_extends_refl(f);
        lemma_frame(s, es);
    } else {
        lemma_sim_upto(s, es, k - 1);
        let pre = es.subrange(0, k - 1);
        let rest = es.subrange(k - 1, n);
        let r2 = es.subrange(k, n);
        let u = apply_all(s, pre);
        let t = apply_all(f, pre);
        let e = es[k - 1];
        assert(es.subrange(0, k).drop_last() =~= pre);
        assert(rest[0] == e);
        assert(rest.drop_first() =~= r2);
        let u2 = apply_event(u, e);
        assert(apply_all(s, es.subrange(0, k)) == u2);
        crate::laws::lemma_apply_all_concat(s, es.subrange(0, k), r2);
        assert(es.subrange(0, k) + r2 =~= es);
        lemma_apply_all_extends(u2, r2);
        lemma_frame(u2, r2);
        lemma_apply_all_unique(s, pre);
        crate::laws::lemma_apply_all_concat(s, pre, rest);
        assert(pre + rest =~= es);
        if patched_glyph(e).is_some() && !has_glyph(u, patched_glyph(e).unwrap()) && has_glyph(
            f,
            patched_glyph(e).unwrap(),
        ) {
            let h = patched_glyph(e).unwrap();
            if !writes(rest, body_writer(h)) {
                lemma_no_body_no_row(u, rest, h);
            }
            let c = choose|c: int| 0 <= c < rest.len() && #[trigger] body_writer(h)(rest[c]);
            assert(rest[c] == es[k - 1 + c]);
            assert(body_glyph(es[k - 1 + c]) == Some(h));
            assert(has_glyph(s, h));
            lemma_apply_all_extends(s, pre);
            let j = choose|j: int| 0 <= j < s.glyphs.len() && (#[trigger] s.glyphs[j]).hash == h;
            assert(u.glyphs[j].hash == h);
        }
        lemma_sim_step(t, u, f, rest);
    }
}

/// Applying the same events a second time changes nothing: each write is an
/// insert-if-absent-else-patch or a soft delete, so no row is inserted twice.
/// This holds where an owner or minter event that precedes the body event of
/// its glyph concerns a glyph that already had a row (an earlier such event
/// is dropped the first time, and applied the second).
pub proof fn lemma_apply_twice(s: StoreV, es: Seq<Event>)
    requires
        unique_keys(s),
        patches_follow_bodies(s, es),
    ensures
        apply_all(apply_all(s, es), es) == apply_all(s, es),
{
    let n = es.len() as int;
    lemma_sim_upto(s, es, n);
    assert(es.subrange(0, n) =~= es);
    assert(es.subrange(n, n) =~= Seq::<Event>::empty());
    let f = apply_all(s, es);
    let t = apply_all(f, es);
    assert forall|j: int| 0 <= j < f.colors.len() implies t.colors[j] == f.colors[j] by {
        assert(color_row_key(t.colors[j]) == color_row_key(f.colors[j]));
    }
    assert forall|j: int| 0 <= j < f.glyphs.len() implies t.glyphs[j] == f.glyphs[j] by {
        assert(t.glyphs[j].hash == f.glyphs[j].hash);
    }
    assert forall|j: int| 0 <= j < f.offers.len() implies t.offers[j] == f.offers[j] by {
        assert(offer_row_key(t.offers[j]) == offer_row_key(f.offers[j]));
    }
    assert(t.colors =~= f.colors);
    assert(t.glyphs =~= f.glyphs);
    assert(t.offers =~= f.offers);
}

} // verus!
