//! Domain events produced from storage changes.
use vstd::prelude::*;
use crate::keys::{Offer, OfferV};

verus! {

/// How a storage slot changed.
#[derive(Clone, Copy, Debug, PartialEq, Eq, Structural)]
pub enum Change {
    Create,
    Update,
    Remove,
}

/// A colour balance was written.
#[derive(Debug)]
pub struct DataColor {
    pub change: Change,
    pub miner: String,
    pub owner: String,
    pub color: u32,
    pub amount: u32,
}

/// A glyph body was written; `colors` is the colour map's encoding, kept as-is.
#[derive(Debug)]
pub struct DataGlyph {
    pub change: Change,
    pub hash: String,
    pub width: u32,
    pub length: u32,
    pub colors: String,
}

/// The owner of a glyph was written.
#[derive(Debug)]
pub struct DataGlyphOwner {
    pub change: Change,
    pub hash: String,
    pub owner: String,
}

/// The minter of a glyph was written.
#[derive(Debug)]
pub struct DataGlyphMinter {
    pub change: Change,
    pub hash: String,
    pub minter: String,
}

/// One offer was posted (create, update) or withdrawn (remove).
#[derive(Debug)]
pub struct DataOffer {
    pub change: Change,
    pub seller: String,
    pub selling: String,
    pub buying: String,
    pub amount: Option<i128>,
}

/// Every offer of `seller` selling `selling` was withdrawn.
#[derive(Debug)]
pub struct DataOfferSellerSelling {
    pub change: Change,
    pub seller: String,
    pub selling: String,
}

/// Every offer selling `selling` for `amount` of `buying` was withdrawn.
#[derive(Debug)]
pub struct DataOfferSellingBuyingAmount {
    pub change: Change,
    pub selling: String,
    pub buying: String,
    pub amount: Option<i128>,
}

/// A domain event.
#[derive(Debug)]
pub enum Data {
    Color(DataColor),
    Glyph(DataGlyph),
    GlyphOwner(DataGlyphOwner),
    GlyphMinter(DataGlyphMinter),
    Offer(DataOffer),
    OfferSellerSelling(DataOfferSellerSelling),
    OfferSellingBuyingAmount(DataOfferSellingBuyingAmount),
}

/// The mathematical form of a domain event.
#[allow(inconsistent_fields)]
pub enum Event {
    Color { change: Change, miner: Seq<char>, owner: Seq<char>, color: u32, amount: u32 },
    Glyph { change: Change, hash: Seq<char>, width: u32, length: u32, colors: Seq<char> },
    GlyphOwner { change: Change, hash: Seq<char>, owner: Seq<char> },
    GlyphMinter { change: Change, hash: Seq<char>, minter: Seq<char> },
    Offer {
        change: Change,
        seller: Seq<char>,
        selling: Seq<char>,
        buying: Seq<char>,
        amount: Option<i128>,
    },
    OfferSellerSelling { change: Change, seller: Seq<char>, selling: Seq<char> },
    OfferSellingBuyingAmount {
        change: Change,
        selling: Seq<char>,
        buying: Seq<char>,
        amount: Option<i128>,
    },
}

impl View for Data {
    type V = Event;

    open spec fn view(&self) -> Event {
        match self {
            Data::Color(d) => Event::Color {
                change: d.change,
                miner: d.miner@,
                owner: d.owner@,
                color: d.color,
                amount: d.amount,
            },
            Data::Glyph(d) => Event::Glyph {
                change: d.change,
                hash: d.hash@,
                width: d.width,
                length: d.length,
                colors: d.colors@,
            },
            Data::GlyphOwner(d) => Event::GlyphOwner {
                change: d.change,
                hash: d.hash@,
                owner: d.owner@,
            },
            Data::GlyphMinter(d) => Event::GlyphMinter {
                change: d.change,
                hash: d.hash@,
                minter: d.minter@,
            },
            Data::Offer(d) => Event::Offer {
                change: d.change,
                seller: d.seller@,
                selling: d.selling@,
                buying: d.buying@,
                amount: d.amount,
            },
            Data::OfferSellerSelling(d) => Event::OfferSellerSelling {
                change: d.change,
                seller: d.seller@,
                selling: d.selling@,
            },
            Data::OfferSellingBuyingAmount(d) => Event::OfferSellingBuyingAmount {
                change: d.change,
                selling: d.selling@,
                buying: d.buying@,
                amount: d.amount,
            },
        }
    }
}

/// The events that a sequence of domain events stands for.
pub open spec fn events_of(v: Seq<Data>) -> Seq<Event> {
    v.map_values(|d: Data| d@)
}

/// The events of one ledger, under the sequence number of the last
/// transaction that contributed to them.
#[derive(Debug)]
pub struct Body {
    pub seq_num: i64,
    pub data: Vec<Data>,
}

/// The decoded contents of a vector-valued slot.
#[derive(Debug)]
pub enum Offers {
    /// The offers that a glyph's owner makes for it.
    Offers(Vec<Offer>),
    /// The buyers that want a glyph for an amount of an asset.
    Addresses(Vec<String>),
}

/// The mathematical form of a vector-valued slot.
pub enum OffersV {
    Offers(Seq<OfferV>),
    Addresses(Seq<Seq<char>>),
}

/// The offers that a sequence of offers stands for.
pub open spec fn offer_views(v: Seq<Offer>) -> Seq<OfferV> {
    v.map_values(|o: Offer| o@)
}

/// The addresses that a sequence of strings stands for.
pub open spec fn address_views(v: Seq<String>) -> Seq<Seq<char>> {
    v.map_values(|a: String| a@)
}

impl View for Offers {
    type V = OffersV;

    open spec fn view(&self) -> OffersV {
        match self {
            Offers::Offers(v) => OffersV::Offers(offer_views(v@)),
            Offers::Addresses(v) => OffersV::Addresses(address_views(v@)),
        }
    }
}

} // verus!
