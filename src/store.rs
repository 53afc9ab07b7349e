//! The relational projections: colours, glyphs and offers.
use vstd::prelude::*;
use crate::types::{Change, Data, DataColor, DataGlyph, DataOffer, Event, events_of};

verus! {

/// A colour balance, unique by (miner, owner, color).
#[derive(Debug)]
pub struct ColorRow {
    pub miner: String,
    pub owner: String,
    pub color: u32,
    pub amount: u32,
}

/// A glyph, unique by hash. Owner and minter stay `None` until their own
/// storage keys are seen: `None` means unknown, not absent.
#[derive(Debug)]
pub struct GlyphRow {
    pub hash: String,
    pub owner: Option<String>,
    pub minter: Option<String>,
    pub width: u32,
    pub length: u32,
    pub colors: String,
}

/// An offer, unique by (seller, selling, buying, amount). Withdrawn offers
/// stay, with `active` false.
#[derive(Debug)]
pub struct OfferRow {
    pub seller: String,
    pub selling: String,
    pub buying: String,
    pub amount: Option<i128>,
    pub active: bool,
}

pub struct ColorRowV {
    pub miner: Seq<char>,
    pub owner: Seq<char>,
    pub color: u32,
    pub amount: u32,
}

pub struct GlyphRowV {
    pub hash: Seq<char>,
    pub owner: Option<Seq<char>>,
    pub minter: Option<Seq<char>>,
    pub width: u32,
    pub length: u32,
    pub colors: Seq<char>,
}

pub struct OfferRowV {
    pub seller: Seq<char>,
    pub selling: Seq<char>,
    pub buying: Seq<char>,
    pub amount: Option<i128>,
    pub active: bool,
}

/// The mathematical form of the row store: one sequence of rows per table.
pub struct StoreV {
    pub colors: Seq<ColorRowV>,
    pub glyphs: Seq<GlyphRowV>,
    pub offers: Seq<OfferRowV>,
}

/// The string that an optional string stands for.
pub open spec fn opt_view(o: Option<String>) -> Option<Seq<char>> {
    match o {
        Some(s) => Some(s@),
        None => None,
    }
}

impl View for ColorRow {
    type V = ColorRowV;

    open spec fn view(&self) -> ColorRowV {
        ColorRowV { miner: self.miner@, owner: self.owner@, color: self.color, amount: self.amount }
    }
}

impl View for GlyphRow {
    type V = GlyphRowV;

    open spec fn view(&self) -> GlyphRowV {
        GlyphRowV {
            hash: self.hash@,
            owner: opt_view(self.owner),
            minter: opt_view(self.minter),
            width: self.width,
            length: self.length,
            colors: self.colors@,
        }
    }
}

impl View for OfferRow {
    type V = OfferRowV;

    open spec fn view(&self) -> OfferRowV {
        OfferRowV {
            seller: self.seller@,
            selling: self.selling@,
            buying: self.buying@,
            amount: self.amount,
            active: self.active,
        }
    }
}

/// The index of the first item of `s` that satisfies `p`.
pub open spec fn first_index<T>(s: Seq<T>, p: spec_fn(T) -> bool) -> Option<int>
    decreases s.len(),
{
    if s.len() == 0 {
        None
    } else {
        match first_index(s.drop_last(), p) {
            Some(i) => Some(i),
            None => if p(s.last()) {
                Some(s.len() - 1)
            } else {
                None
            },
        }
    }
}

/// The colour row has the key (miner, owner, color).
pub open spec fn color_key(miner: Seq<char>, owner: Seq<char>, color: u32) -> spec_fn(ColorRowV) -> bool {
    |r: ColorRowV| r.miner == miner && r.owner == owner && r.color == color
}

/// The glyph row has the key `hash`.
pub open spec fn glyph_key(hash: Seq<char>) -> spec_fn(GlyphRowV) -> bool {
    |r: GlyphRowV| r.hash == hash
}

/// The offer row has the key (seller, selling, buying, amount).
pub open spec fn offer_key(
    seller: Seq<char>,
    selling: Seq<char>,
    buying: Seq<char>,
    amount: Option<i128>,
) -> spec_fn(OfferRowV) -> bool {
    |r: OfferRowV| r.seller == seller && r.selling == selling && r.buying == buying && r.amount == amount
}

/// The offer row is one of `seller`'s selling `selling`.
pub open spec fn seller_selling(seller: Seq<char>, selling: Seq<char>) -> spec_fn(OfferRowV) -> bool {
    |r: OfferRowV| r.seller == seller && r.selling == selling
}

/// The offer row sells `selling` for `amount` of `buying`.
pub open spec fn selling_buying_amount(
    selling: Seq<char>,
    buying: Seq<char>,
    amount: Option<i128>,
) -> spec_fn(OfferRowV) -> bool {
    |r: OfferRowV| r.selling == selling && r.buying == buying && r.amount == amount
}

/// Marks inactive every offer row that satisfies `p`; the other rows and
/// all other columns stay as they are.
pub open spec fn deactivate(rows: Seq<OfferRowV>, p: spec_fn(OfferRowV) -> bool) -> Seq<OfferRowV> {
    rows.map_values(
        |r: OfferRowV|
            if p(r) {
                OfferRowV { active: false, ..r }
            } else {
                r
            },
    )
}

/// The store with its offer table replaced.
pub open spec fn with_offers(s: StoreV, offers: Seq<OfferRowV>) -> StoreV {
    StoreV { offers, ..s }
}

/// The row store after one event:
/// - a colour is inserted, or its amount patched;
/// - a glyph body is inserted with unknown owner and minter, or its width,
///   length and colours patched;
/// - a glyph's owner or minter is patched, and dropped where the glyph has
///   no row;
/// - an offer posted is inserted active, or patched active; an offer
///   withdrawn is patched inactive, and dropped where it has no row;
/// - a removed offer slot marks all its matching rows inactive.
pub open spec fn apply_event(s: StoreV, e: Event) -> StoreV {
    match e {
        Event::Color { miner, owner, color, amount, .. } => match first_index(
            s.colors,
            color_key(miner, owner, color),
        ) {
            Some(i) => StoreV { colors: s.colors.update(i, ColorRowV { amount, ..s.colors[i] }), ..s },
            None => StoreV { colors: s.colors.push(ColorRowV { miner, owner, color, amount }), ..s },
        },
        Event::Glyph { hash, width, length, colors, .. } => match first_index(s.glyphs, glyph_key(hash)) {
            Some(i) => StoreV {
                glyphs: s.glyphs.update(i, GlyphRowV { width, length, colors, ..s.glyphs[i] }),
                ..s
            },
            None => StoreV {
                glyphs: s.glyphs.push(
                    GlyphRowV { hash, owner: None, minter: None, width, length, colors },
                ),
                ..s
            },
        },
        Event::GlyphOwner { hash, owner, .. } => match first_index(s.glyphs, glyph_key(hash)) {
            Some(i) => StoreV {
                glyphs: s.glyphs.update(i, GlyphRowV { owner: Some(owner), ..s.glyphs[i] }),
                ..s
            },
            None => s,
        },
        Event::GlyphMinter { hash, minter, .. } => match first_index(s.glyphs, glyph_key(hash)) {
            Some(i) => StoreV {
                glyphs: s.glyphs.update(i, GlyphRowV { minter: Some(minter), ..s.glyphs[i] }),
                ..s
            },
            None => s,
        },
        Event::Offer { change, seller, selling, buying, amount } => {
            let active = change != Change::Remove;
            match first_index(s.offers, offer_key(seller, selling, buying, amount)) {
                Some(i) => StoreV {
                    offers: s.offers.update(i, OfferRowV { active, ..s.offers[i] }),
                    ..s
                },
                None => if active {
                    StoreV {
                        offers: s.offers.push(OfferRowV { seller, selling, buying, amount, active }),
                        ..s
                    }
                } else {
                    s
                },
            }
        },
        Event::OfferSellerSelling { seller, selling, .. } => StoreV {
            offers: deactivate(s.offers, seller_selling(seller, selling)),
            ..s
        },
        Event::OfferSellingBuyingAmount { selling, buying, amount, .. } => StoreV {
            offers: deactivate(s.offers, selling_buying_amount(selling, buying, amount)),
            ..s
        },
    }
}

/// The row store after a sequence of events, applied in order.
pub open spec fn apply_all(s: StoreV, es: Seq<Event>) -> StoreV
    decreases es.len(),
{
    if es.len() == 0 {
        s
    } else {
        apply_event(apply_all(s, es.drop_last()), es.last())
    }
}

/// The key of a colour row.
pub open spec fn color_row_key(r: ColorRowV) -> (Seq<char>, Seq<char>, u32) {
    (r.miner, r.owner, r.color)
}

/// The key of an offer row.
pub open spec fn offer_row_key(r: OfferRowV) -> (Seq<char>, Seq<char>, Seq<char>, Option<i128>) {
    (r.seller, r.selling, r.buying, r.amount)
}

/// No two rows of a table share their key.
pub open spec fn unique_keys(s: StoreV) -> bool {
    &&& forall|i: int, j: int|
        0 <= i < j < s.colors.len() ==> color_row_key(#[trigger] s.colors[i]) != color_row_key(
            #[trigger] s.colors[j],
        )
    &&& forall|i: int, j: int|
        0 <= i < j < s.glyphs.len() ==> (#[trigger] s.glyphs[i]).hash != (#[trigger] s.glyphs[j]).hash
    &&& forall|i: int, j: int|
        0 <= i < j < s.offers.len() ==> offer_row_key(#[trigger] s.offers[i]) != offer_row_key(
            #[trigger] s.offers[j],
        )
}

/// Where `first_index` points, and that nothing before it matches.
pub proof fn lemma_first_index<T>(s: Seq<T>, p: spec_fn(T) -> bool)
    ensures
        match first_index(s, p) {
            Some(i) => 0 <= i < s.len() && p(s[i]) && forall|j: int| 0 <= j < i ==> !p(#[trigger] s[j]),
            None => forall|j: int| 0 <= j < s.len() ==> !p(#[trigger] s[j]),
        },
    decreases s.len(),
{
    if s.len() > 0 {
        lemma_first_index(s.drop_last(), p);
        assert forall|j: int| 0 <= j < s.len() - 1 implies #[trigger] s[j] == s.drop_last()[j] by {}
    }
}

/// The first match in a prefix is the first match in the whole sequence.
pub proof fn lemma_first_index_prefix<T>(s: Seq<T>, p: spec_fn(T) -> bool, n: int)
    requires
        0 <= n <= s.len(),
        first_index(s.subrange(0, n), p).is_some(),
    ensures
        first_index(s, p) == first_index(s.subrange(0, n), p),
    decreases s.len(),
{
    if n < s.len() {
        assert(s.drop_last().subrange(0, n) =~= s.subrange(0, n));
        lemma_first_index_prefix(s.drop_last(), p, n);
    } else {
        assert(s.subrange(0, n) =~= s);
    }
}

/// The rows of a colour table.
pub open spec fn color_views(s: Seq<ColorRow>) -> Seq<ColorRowV> {
    s.map_values(|r: ColorRow| r@)
}

/// The rows of a glyph table.
pub open spec fn glyph_views(s: Seq<GlyphRow>) -> Seq<GlyphRowV> {
    s.map_values(|r: GlyphRow| r@)
}

/// The rows of an offer table.
pub open spec fn offer_row_views(s: Seq<OfferRow>) -> Seq<OfferRowV> {
    s.map_values(|r: OfferRow| r@)
}

/// The row store: three tables, each with unique keys.
#[derive(Debug)]
pub struct RowStore {
    colors: Vec<ColorRow>,
    glyphs: Vec<GlyphRow>,
    offers: Vec<OfferRow>,
}

impl View for RowStore {
    type V = StoreV;

    closed spec fn view(&self) -> StoreV {
        StoreV {
            colors: color_views(self.colors@),
            glyphs: glyph_views(self.glyphs@),
            offers: offer_row_views(self.offers@),
        }
    }
}

/// Finds the first colour row with the key (miner, owner, color).
fn find_color(rows: &Vec<ColorRow>, miner: &String, owner: &String, color: u32) -> (r: Option<usize>)
    ensures
        match r {
            Some(i) => first_index(color_views(rows@), color_key(miner@, owner@, color)) == Some(i as int),
            None => first_index(color_views(rows@), color_key(miner@, owner@, color)).is_none(),
        },
{
    let ghost v = color_views(rows@);
    let ghost p = color_key(miner@, owner@, color);
    let mut i: usize = 0;
    while i < rows.len()
        invariant
            i <= rows.len(),
            v == color_views(rows@),
            p == color_key(miner@, owner@, color),
            first_index(v.subrange(0, i as int), p).is_none(),
        decreases rows.len() - i,
    {
        assert(v.subrange(0, i + 1).drop_last() =~= v.subrange(0, i as int));
        if rows[i].miner == *miner && rows[i].owner == *owner && rows[i].color == color {
            proof {
                lemma_first_index_prefix(v, p, i + 1);
            }
            return Some(i);
        }
        i = i + 1;
    }
    assert(v.subrange(0, i as int) =~= v);
    None
}

/// Finds the first glyph row with the key `hash`.
fn find_glyph(rows: &Vec<GlyphRow>, hash: &String) -> (r: Option<usize>)
    ensures
        match r {
            Some(i) => first_index(glyph_views(rows@), glyph_key(hash@)) == Some(i as int),
            None => first_index(glyph_views(rows@), glyph_key(hash@)).is_none(),
        },
{
    let ghost v = glyph_views(rows@);
    let ghost p = glyph_key(hash@);
    let mut i: usize = 0;
    while i < rows.len()
        invariant
            i <= rows.len(),
            v == glyph_views(rows@),
            p == glyph_key(hash@),
            first_index(v.subrange(0, i as int), p).is_none(),
        decreases rows.len() - i,
    {
        assert(v.subrange(0, i + 1).drop_last() =~= v.subrange(0, i as int));
        if rows[i].hash == *hash {
            proof {
                lemma_first_index_prefix(v, p, i + 1);
            }
            return Some(i);
        }
        i = i + 1;
    }
    assert(v.subrange(0, i as int) =~= v);
    None
}

/// Finds the first offer row with the key (seller, selling, buying, amount).
fn find_offer(
    rows: &Vec<OfferRow>,
    seller: &String,
    selling: &String,
    buying: &String,
    amount: Option<i128>,
) -> (r: Option<usize>)
    ensures
        match r {
            Some(i) => first_index(offer_row_views(rows@), offer_key(seller@, selling@, buying@, amount))
                == Some(i as int),
            None => first_index(
                offer_row_views(rows@),
                offer_key(seller@, selling@, buying@, amount),
            ).is_none(),
        },
{
    let ghost v = offer_row_views(rows@);
    let ghost p = offer_key(seller@, selling@, buying@, amount);
    let mut i: usize = 0;
    while i < rows.len()
        invariant
            i <= rows.len(),
            v == offer_row_views(rows@),
            p == offer_key(seller@, selling@, buying@, amount),
            first_index(v.subrange(0, i as int), p).is_none(),
        decreases rows.len() - i,
    {
        assert(v.subrange(0, i + 1).drop_last() =~= v.subrange(0, i as int));
        if rows[i].seller == *seller && rows[i].selling == *selling && rows[i].buying == *buying
            && rows[i].amount == amount {
            proof {
                lemma_first_index_prefix(v, p, i + 1);
            }
            return Some(i);
        }
        i = i + 1;
    }
    assert(v.subrange(0, i as int) =~= v);
    None
}

impl RowStore {
    /// The store's tables have unique keys.
    pub open spec fn wf(&self) -> bool {
        unique_keys(self@)
    }

    /// An empty store.
    pub fn new() -> (r: RowStore)
        ensures
            r.wf(),
            r@.colors.len() == 0,
            r@.glyphs.len() == 0,
            r@.offers.len() == 0,
    {
        RowStore { colors: Vec::new(), glyphs: Vec::new(), offers: Vec::new() }
    }

    /// The colour rows.
    pub fn colors(&self) -> (r: &Vec<ColorRow>)
        ensures
            color_views(r@) == self@.colors,
    {
        &self.colors
    }

    /// The glyph rows.
    pub fn glyphs(&self) -> (r: &Vec<GlyphRow>)
        ensures
            glyph_views(r@) == self@.glyphs,
    {
        &self.glyphs
    }

    /// The offer rows, withdrawn ones included.
    pub fn offers(&self) -> (r: &Vec<OfferRow>)
        ensures
            offer_row_views(r@) == self@.offers,
    {
        &self.offers
    }

    fn upsert_color(&mut self, d: &DataColor)
        requires
            old(self).wf(),
        ensures
            final(self).wf(),
            final(self)@ == apply_event(old(self)@, Data::Color(*d)@),
    {
        let ghost s = self@;
        proof {
            lemma_first_index(s.colors, color_key(d.miner@, d.owner@, d.color));
        }
        match find_color(&self.colors, &d.miner, &d.owner, d.color) {
            Some(i) => {
                self.colors[i].amount = d.amount;
                assert(color_views(self.colors@) =~= s.colors.update(
                    i as int,
                    ColorRowV { amount: d.amount, ..s.colors[i as int] },
                ));
            },
            None => {
                self.colors.push(
                    ColorRow {
                        miner: d.miner.clone(),
                        owner: d.owner.clone(),
                        color: d.color,
                        amount: d.amount,
                    },
                );
                assert(color_views(self.colors@) =~= s.colors.push(
                    ColorRowV { miner: d.miner@, owner: d.owner@, color: d.color, amount: d.amount },
                ));
            },
        }
        assert(self@.glyphs == s.glyphs && self@.offers == s.offers);
        proof {
            let c = self@.colors;
            assert forall|i: int, j: int| 0 <= i < j < c.len() implies color_row_key(
                #[trigger] c[i],
            ) != color_row_key(#[trigger] c[j]) by {
                if j < s.colors.len() {
                    assert(color_row_key(c[i]) == color_row_key(s.colors[i]));
                    assert(color_row_key(c[j]) == color_row_key(s.colors[j]));
                }
            }
        }
    }

    fn upsert_glyph(&mut self, d: &DataGlyph)
        requires
            old(self).wf(),
        ensures
            final(self).wf(),
            final(self)@ == apply_event(old(self)@, Data::Glyph(*d)@),
    {
        let ghost s = self@;
        proof {
            lemma_first_index(s.glyphs, glyph_key(d.hash@));
        }
        match find_glyph(&self.glyphs, &d.hash) {
            Some(i) => {
                self.glyphs[i].width = d.width;
                self.glyphs[i].length = d.length;
                self.glyphs[i].colors = d.colors.clone();
                assert(glyph_views(self.glyphs@) =~= s.glyphs.update(
                    i as int,
                    GlyphRowV {
                        width: d.width,
                        length: d.length,
                        colors: d.colors@,
                        ..s.glyphs[i as int]
                    },
                ));
            },
            None => {
                self.glyphs.push(
                    GlyphRow {
                        hash: d.hash.clone(),
                        owner: None,
                        minter: None,
                        width: d.width,
                        length: d.length,
                        colors: d.colors.clone(),
                    },
                );
                assert(glyph_views(self.glyphs@) =~= s.glyphs.push(
                    GlyphRowV {
                        hash: d.hash@,
                        owner: None,
                        minter: None,
                        width: d.width,
                        length: d.length,
                        colors: d.colors@,
                    },
                ));
            },
        }
        assert(self@.colors == s.colors && self@.offers == s.offers);
        proof {
            let g = self@.glyphs;
            assert forall|i: int, j: int| 0 <= i < j < g.len() implies (#[trigger] g[i]).hash != (
            #[trigger] g[j]).hash by {
                if j < s.glyphs.len() {
                    assert(g[i].hash == s.glyphs[i].hash);
                    assert(g[j].hash == s.glyphs[j].hash);
                }
            }
        }
    }

    fn patch_glyph_owner(&mut self, hash: &String, owner: &String)
        requires
            old(self).wf(),
        ensures
            final(self).wf(),
            final(self)@ == apply_event(
                old(self)@,
                (Event::GlyphOwner { change: Change::Update, hash: hash@, owner: owner@ }),
            ),
    {
        let ghost s = self@;
        proof {
            lemma_first_index(s.glyphs, glyph_key(hash@));
        }
        if let Some(i) = find_glyph(&self.glyphs, hash) {
            self.glyphs[i].owner = Some(owner.clone());
            assert(glyph_views(self.glyphs@) =~= s.glyphs.update(
                i as int,
                GlyphRowV { owner: Some(owner@), ..s.glyphs[i as int] },
            ));
            assert(self@.colors == s.colors && self@.offers == s.offers);
            proof {
                let g = self@.glyphs;
                assert forall|a: int, b: int| 0 <= a < b < g.len() implies (#[trigger] g[a]).hash != (
                #[trigger] g[b]).hash by {
                    assert(g[a].hash == s.glyphs[a].hash);
                    assert(g[b].hash == s.glyphs[b].hash);
                }
            }
        }
    }

    fn patch_glyph_minter(&mut self, hash: &String, minter: &String)
        requires
            old(self).wf(),
        ensures
            final(self).wf(),
            final(self)@ == apply_event(
                old(self)@,
                (Event::GlyphMinter { change: Change::Update, hash: hash@, minter: minter@ }),
            ),
    {
        let ghost s = self@;
        proof {
            lemma_first_index(s.glyphs, glyph_key(hash@));
        }
        if let Some(i) = find_glyph(&self.glyphs, hash) {
            self.glyphs[i].minter = Some(minter.clone());
            assert(glyph_views(self.glyphs@) =~= s.glyphs.update(
                i as int,
                GlyphRowV { minter: Some(minter@), ..s.glyphs[i as int] },
            ));
            assert(self@.colors == s.colors && self@.offers == s.offers);
            proof {
                let g = self@.glyphs;
                assert forall|a: int, b: int| 0 <= a < b < g.len() implies (#[trigger] g[a]).hash != (
                #[trigger] g[b]).hash by {
                    assert(g[a].hash == s.glyphs[a].hash);
                    assert(g[b].hash == s.glyphs[b].hash);
                }
            }
        }
    }

    fn upsert_offer(&mut self, d: &DataOffer)
        requires
            old(self).wf(),
        ensures
            final(self).wf(),
            final(self)@ == apply_event(old(self)@, Data::Offer(*d)@),
    {
        let ghost s = self@;
        let active = d.change != Change::Remove;
        proof {
            lemma_first_index(s.offers, offer_key(d.seller@, d.selling@, d.buying@, d.amount));
        }
        match find_offer(&self.offers, &d.seller, &d.selling, &d.buying, d.amount) {
            Some(i) => {
                self.offers[i].active = active;
                assert(offer_row_views(self.offers@) =~= s.offers.update(
                    i as int,
                    OfferRowV { active, ..s.offers[i as int] },
                ));
            },
            None => {
                if active {
                    self.offers.push(
                        OfferRow {
                            seller: d.seller.clone(),
                            selling: d.selling.clone(),
                            buying: d.buying.clone(),
                            amount: d.amount,
                            active,
                        },
                    );
                    assert(offer_row_views(self.offers@) =~= s.offers.push(
                        OfferRowV {
                            seller: d.seller@,
                            selling: d.selling@,
                            buying: d.buying@,
                            amount: d.amount,
                            active,
                        },
                    ));
                }
            },
        }
        assert(self@.colors == s.colors && self@.glyphs == s.glyphs);
        proof {
            let o = self@.offers;
            assert forall|i: int, j: int| 0 <= i < j < o.len() implies offer_row_key(
                #[trigger] o[i],
            ) != offer_row_key(#[trigger] o[j]) by {
                if j < s.offers.len() {
                    assert(offer_row_key(o[i]) == offer_row_key(s.offers[i]));
                    assert(offer_row_key(o[j]) == offer_row_key(s.offers[j]));
                }
            }
        }
    }

    /// Marks inactive the offer rows that match; `by_seller` selects the
    /// (seller, selling) match, otherwise the (selling, buying, amount) one.
    fn deactivate_offers(
        &mut self,
        by_seller: bool,
        seller: &String,
        selling: &String,
        buying: &String,
        amount: Option<i128>,
    )
        requires
            old(self).wf(),
        ensures
            final(self).wf(),
            final(self)@ == with_offers(
                old(self)@,
                deactivate(
                    old(self)@.offers,
                    if by_seller {
                        seller_selling(seller@, selling@)
                    } else {
                        selling_buying_amount(selling@, buying@, amount)
                    },
                ),
            ),
    {
        let ghost s = self@;
        let ghost p = if by_seller {
            seller_selling(seller@, selling@)
        } else {
            selling_buying_amount(selling@, buying@, amount)
        };
        let mut i: usize = 0;
        while i < self.offers.len()
            invariant
                i <= self.offers.len(),
                self.offers@.len() == s.offers.len(),
                self@.colors == s.colors,
                self@.glyphs == s.glyphs,
                p == (if by_seller {
                    seller_selling(seller@, selling@)
                } else {
                    selling_buying_amount(selling@, buying@, amount)
                }),
                forall|j: int|
                    0 <= j < i ==> #[trigger] self.offers@[j]@ == (if p(s.offers[j]) {
                        OfferRowV { active: false, ..s.offers[j] }
                    } else {
                        s.offers[j]
                    }),
                forall|j: int| i <= j < self.offers@.len() ==> #[trigger] self.offers@[j]@ == s.offers[j],
            decreases self.offers.len() - i,
        {
            assert(self.offers@[i as int]@ == s.offers[i as int]);
            let hit = if by_seller {
                self.offers[i].seller == *seller && self.offers[i].selling == *selling
            } else {
                self.offers[i].selling == *selling && self.offers[i].buying == *buying
                    && self.offers[i].amount == amount
            };
            if hit {
                self.offers[i].active = false;
            }
            i = i + 1;
        }
        assert(offer_row_views(self.offers@) =~= deactivate(s.offers, p));
        proof {
            let o = self@.offers;
            assert forall|a: int, b: int| 0 <= a < b < o.len() implies offer_row_key(
                #[trigger] o[a],
            ) != offer_row_key(#[trigger] o[b]) by {
                assert(offer_row_key(o[a]) == offer_row_key(s.offers[a]));
                assert(offer_row_key(o[b]) == offer_row_key(s.offers[b]));
            }
        }
    }

    /// Applies one event to the store (see `apply_event`).
    pub fn apply(&mut self, d: &Data)
        requires
            old(self).wf(),
        ensures
            final(self).wf(),
            final(self)@ == apply_event(old(self)@, d@),
    {
        match d {
            Data::Color(c) => self.upsert_color(c),
            Data::Glyph(g) => self.upsert_glyph(g),
            Data::GlyphOwner(g) => self.patch_glyph_owner(&g.hash, &g.owner),
            Data::GlyphMinter(g) => self.patch_glyph_minter(&g.hash, &g.minter),
            Data::Offer(o) => self.upsert_offer(o),
            Data::OfferSellerSelling(o) => {
                self.deactivate_offers(true, &o.seller, &o.selling, &o.selling, None)
            },
            Data::OfferSellingBuyingAmount(o) => {
                self.deactivate_offers(false, &o.selling, &o.selling, &o.buying, o.amount)
            },
        }
    }

    /// Applies events in order.
    pub fn apply_all(&mut self, ds: &Vec<Data>)
        requires
            old(self).wf(),
        ensures
            final(self).wf(),
            final(self)@ == apply_all(old(self)@, events_of(ds@)),
    {
        let ghost s = self@;
        let ghost es = events_of(ds@);
        let mut i: usize = 0;
        while i < ds.len()
            invariant
                i <= ds.len(),
                self.wf(),
                es == events_of(ds@),
                self@ == apply_all(s, es.subrange(0, i as int)),
            decreases ds.len() - i,
        {
            assert(es.subrange(0, i + 1).drop_last() =~= es.subrange(0, i as int));
            self.apply(&ds[i]);
            i = i + 1;
        }
        assert(es.subrange(0, i as int) =~= es);
    }
}

} // verus!
