use glyph_projector::decode::DecodeError;
use glyph_projector::events::{change_events, entry_events, removed_key_events};
use glyph_projector::keys::{decode_key, decode_offer, KeyDecode, Offer, StorageKey};
use glyph_projector::ledger::{
    ContractData, LedgerChange, OpBody, OpResult, Transaction, TxBody, TxEnvelope, TxMeta,
    TxResult,
};
use glyph_projector::owners::OwnerBook;
use glyph_projector::pipeline::Projector;
use glyph_projector::reconcile::get_diff_offers;
use glyph_projector::store::RowStore;
use glyph_projector::types::{Change, Data, Offers};
use glyph_projector::val::Val;

const CONTRACT: u8 = 7;
const MINER: &str = "GMINER";
const OWNER: &str = "GOWNER";
const ASSET: &str = "CASSET";

fn sym(s: &str) -> Val {
    Val::Symbol(s.to_string())
}

fn addr(s: &str) -> Val {
    Val::Address(s.to_string())
}

fn hash(b: u8) -> Vec<u8> {
    vec![b; 32]
}

fn hex_of(b: u8) -> String {
    format!("{:02x}", b).repeat(32)
}

fn color_key(miner: &str, owner: &str, color: u32) -> Val {
    Val::List(vec![sym("Color"), addr(miner), addr(owner), Val::U32(color)])
}

fn hash_key(tag: &str, b: u8) -> Val {
    Val::List(vec![sym(tag), Val::Bytes(hash(b))])
}

fn asset_offer_key(b: u8, asset: &str, amount: i128) -> Val {
    Val::List(vec![sym("AssetOffer"), Val::Bytes(hash(b)), addr(asset), Val::I128(amount)])
}

fn glyph_val(width: u32, length: u32, colors: &str) -> Val {
    Val::Mapping {
        entries: vec![
            (
                sym("colors"),
                Val::Mapping { entries: vec![], encoded: colors.to_string() },
            ),
            (sym("length"), Val::U32(length)),
            (sym("width"), Val::U32(width)),
        ],
        encoded: String::new(),
    }
}

fn asset_offer(asset: &str, amount: i128) -> Val {
    Val::List(vec![sym("Asset"), addr(asset), Val::I128(amount)])
}

fn glyph_offer(b: u8) -> Val {
    Val::List(vec![sym("Glyph"), Val::Bytes(hash(b))])
}

fn data(key: Val, val: Val) -> ContractData {
    ContractData { key, val }
}

fn invoke(changes: Vec<LedgerChange>) -> Transaction {
    Transaction {
        envelope: TxEnvelope::Tx(TxBody {
            seq_num: 42,
            operations: vec![OpBody::InvokeContract(vec![CONTRACT; 32])],
        }),
        result: TxResult::Success(vec![OpResult::InvokeSuccess]),
        meta: TxMeta::V3(vec![changes]),
    }
}

fn projector() -> Projector {
    Projector::new(vec![CONTRACT; 32])
}

fn owners_with(b: u8, owner: &str) -> OwnerBook {
    let mut book = OwnerBook::new();
    book.record(&hash(b), owner.to_string());
    book
}

fn offer_rows(store: &RowStore) -> Vec<(String, String, String, Option<i128>, bool)> {
    store
        .offers()
        .iter()
        .map(|r| (r.seller.clone(), r.selling.clone(), r.buying.clone(), r.amount, r.active))
        .collect()
}

#[test]
fn decodes_color_key() {
    match decode_key(&color_key(MINER, OWNER, 3)) {
        KeyDecode::Key(StorageKey::Color(m, o, c)) => {
            assert_eq!(m, MINER);
            assert_eq!(o, OWNER);
            assert_eq!(c, 3);
        }
        other => panic!("unexpected {:?}", other),
    }
}

#[test]
fn decodes_asset_offer_key() {
    match decode_key(&asset_offer_key(1, ASSET, 100)) {
        KeyDecode::Key(StorageKey::AssetOffer(h, a, n)) => {
            assert_eq!(h, hash(1));
            assert_eq!(a, ASSET);
            assert_eq!(n, 100);
        }
        other => panic!("unexpected {:?}", other),
    }
}

#[test]
fn unknown_key_is_not_applicable() {
    assert!(matches!(decode_key(&hash_key("Admin", 1)), KeyDecode::NotApplicable));
    assert!(matches!(decode_key(&Val::U32(1)), KeyDecode::NotApplicable));
    assert!(matches!(decode_key(&Val::List(vec![])), KeyDecode::NotApplicable));
}

#[test]
fn malformed_key_is_invalid() {
    let short_hash = Val::List(vec![sym("Glyph"), Val::Bytes(vec![1; 31])]);
    assert!(matches!(decode_key(&short_hash), KeyDecode::Invalid));
    let bad_color = Val::List(vec![sym("Color"), addr(MINER), addr(OWNER)]);
    assert!(matches!(decode_key(&bad_color), KeyDecode::Invalid));
}

#[test]
fn decodes_offers() {
    assert!(matches!(decode_offer(&glyph_offer(2)), Some(Offer::Glyph(h)) if h == hash(2)));
    assert!(
        matches!(decode_offer(&asset_offer(ASSET, 5)), Some(Offer::Asset(a, 5)) if a == ASSET)
    );
    assert!(decode_offer(&Val::List(vec![sym("Barter"), Val::U32(1)])).is_none());
}

#[test]
fn glyph_owner_event_carries_hex_hash() {
    let key = StorageKey::GlyphOwner(vec![0xab, 0x01]);
    let r = entry_events(&key, &addr(OWNER), None, Change::Create, &OwnerBook::new()).unwrap();
    assert_eq!(r.len(), 1);
    match &r[0] {
        Data::GlyphOwner(d) => {
            assert_eq!(d.hash, "ab01");
            assert_eq!(d.owner, OWNER);
            assert!(matches!(d.change, Change::Create));
        }
        other => panic!("unexpected {:?}", other),
    }
}

#[test]
fn glyph_body_event() {
    let key = StorageKey::Glyph(hash(0x0f));
    let r = entry_events(&key, &glyph_val(4, 16, "AAAA"), None, Change::Update, &OwnerBook::new())
        .unwrap();
    match &r[0] {
        Data::Glyph(g) => {
            assert_eq!(g.hash, hex_of(0x0f));
            assert_eq!(g.width, 4);
            assert_eq!(g.length, 16);
            assert_eq!(g.colors, "AAAA");
        }
        other => panic!("unexpected {:?}", other),
    }
}

#[test]
fn wrong_value_shape_is_an_error() {
    let key = StorageKey::Color(MINER.to_string(), OWNER.to_string(), 1);
    let r = entry_events(&key, &addr(OWNER), None, Change::Create, &OwnerBook::new());
    assert!(matches!(r, Err(DecodeError::ValueShape)));
}

#[test]
fn invalid_offer_item_is_an_error() {
    let key = StorageKey::GlyphOffer(hash(1));
    let val = Val::List(vec![Val::U32(3)]);
    let r = entry_events(&key, &val, None, Change::Create, &owners_with(1, OWNER));
    assert!(matches!(r, Err(DecodeError::InvalidOffer)));
}

#[test]
fn offer_removal_via_diff() {
    let key = StorageKey::GlyphOffer(hash(1));
    let changes = vec![LedgerChange::State(data(
        hash_key("GlyphOffer", 1),
        Val::List(vec![asset_offer(ASSET, 100)]),
    ))];
    let r = get_diff_offers(&key, Some(&changes), &Offers::Offers(vec![])).unwrap();
    match r {
        Some(Offers::Offers(gone)) => {
            assert_eq!(gone.len(), 1);
            assert!(matches!(&gone[0], Offer::Asset(a, 100) if a == ASSET));
        }
        other => panic!("unexpected {:?}", other),
    }
}

#[test]
fn offer_removal_flips_row_inactive() {
    let p = projector();
    let owners = owners_with(1, OWNER);
    let mut store = RowStore::new();
    let first = invoke(vec![LedgerChange::Created(data(
        hash_key("GlyphOffer", 1),
        Val::List(vec![asset_offer(ASSET, 100)]),
    ))]);
    p.process_ledger(&mut store, &vec![first], &owners);
    assert_eq!(
        offer_rows(&store),
        vec![(OWNER.to_string(), hex_of(1), ASSET.to_string(), Some(100), true)]
    );
    let second = invoke(vec![
        LedgerChange::State(data(
            hash_key("GlyphOffer", 1),
            Val::List(vec![asset_offer(ASSET, 100)]),
        )),
        LedgerChange::Updated(data(hash_key("GlyphOffer", 1), Val::List(vec![]))),
    ]);
    let out = p.process_ledger(&mut store, &vec![second], &owners);
    assert!(out.faults.is_empty());
    assert_eq!(
        offer_rows(&store),
        vec![(OWNER.to_string(), hex_of(1), ASSET.to_string(), Some(100), false)]
    );
}

#[test]
fn offer_addition_with_prior_reports_no_removal() {
    let key = StorageKey::GlyphOffer(hash(1));
    let changes = vec![LedgerChange::State(data(
        hash_key("GlyphOffer", 1),
        Val::List(vec![glyph_offer(2)]),
    ))];
    let after = Offers::Offers(vec![Offer::Glyph(hash(2)), Offer::Asset(ASSET.to_string(), 7)]);
    match get_diff_offers(&key, Some(&changes), &after).unwrap() {
        Some(Offers::Offers(gone)) => assert!(gone.is_empty()),
        other => panic!("unexpected {:?}", other),
    }

    let p = projector();
    let owners = owners_with(1, OWNER);
    let mut store = RowStore::new();
    p.process_ledger(
        &mut store,
        &vec![invoke(vec![LedgerChange::Created(data(
            hash_key("GlyphOffer", 1),
            Val::List(vec![glyph_offer(2)]),
        ))])],
        &owners,
    );
    p.process_ledger(
        &mut store,
        &vec![invoke(vec![
            LedgerChange::State(data(hash_key("GlyphOffer", 1), Val::List(vec![glyph_offer(2)]))),
            LedgerChange::Updated(data(
                hash_key("GlyphOffer", 1),
                Val::List(vec![glyph_offer(2), asset_offer(ASSET, 7)]),
            )),
        ])],
        &owners,
    );
    assert_eq!(
        offer_rows(&store),
        vec![
            (OWNER.to_string(), hex_of(1), hex_of(2), None, true),
            (OWNER.to_string(), hex_of(1), ASSET.to_string(), Some(7), true),
        ]
    );
}

#[test]
fn owner_event_without_glyph_is_dropped() {
    let p = projector();
    let mut store = RowStore::new();
    let out = p.process_ledger(
        &mut store,
        &vec![invoke(vec![LedgerChange::Updated(data(hash_key("GlyphOwner", 9), addr(OWNER)))])],
        &OwnerBook::new(),
    );
    assert!(out.faults.is_empty());
    assert_eq!(out.body.data.len(), 1);
    assert!(store.glyphs().is_empty());
    assert!(store.colors().is_empty());
    assert!(store.offers().is_empty());
}

#[test]
fn owner_and_minter_patch_existing_glyph() {
    let p = projector();
    let mut store = RowStore::new();
    p.process_ledger(
        &mut store,
        &vec![invoke(vec![
            LedgerChange::Created(data(hash_key("Glyph", 3), glyph_val(2, 4, "CC"))),
            LedgerChange::Created(data(hash_key("GlyphOwner", 3), addr(OWNER))),
            LedgerChange::Created(data(hash_key("GlyphMinter", 3), addr(MINER))),
            LedgerChange::Updated(data(hash_key("Glyph", 3), glyph_val(5, 6, "DD"))),
        ])],
        &OwnerBook::new(),
    );
    let g = store.glyphs();
    assert_eq!(g.len(), 1);
    assert_eq!(g[0].hash, hex_of(3));
    assert_eq!(g[0].owner.as_deref(), Some(OWNER));
    assert_eq!(g[0].minter.as_deref(), Some(MINER));
    assert_eq!((g[0].width, g[0].length, g[0].colors.as_str()), (5, 6, "DD"));
}

#[test]
fn non_domain_key_has_no_effect() {
    let p = projector();
    let mut store = RowStore::new();
    let out = p.process_ledger(
        &mut store,
        &vec![invoke(vec![
            LedgerChange::Created(data(hash_key("Admin", 1), Val::U32(5))),
            LedgerChange::Removed(sym("Paused")),
            LedgerChange::Unrelated,
        ])],
        &OwnerBook::new(),
    );
    assert!(out.faults.is_empty());
    assert!(out.body.data.is_empty());
    assert!(store.colors().is_empty() && store.glyphs().is_empty() && store.offers().is_empty());
}

#[test]
fn end_to_end_color_insert_then_patch() {
    let p = projector();
    let mut store = RowStore::new();
    p.process_ledger(
        &mut store,
        &vec![invoke(vec![LedgerChange::Created(data(color_key(MINER, OWNER, 3), Val::U32(5)))])],
        &OwnerBook::new(),
    );
    let c = store.colors();
    assert_eq!(c.len(), 1);
    assert_eq!((c[0].miner.as_str(), c[0].owner.as_str(), c[0].color, c[0].amount), (MINER, OWNER, 3, 5));
    p.process_ledger(
        &mut store,
        &vec![invoke(vec![LedgerChange::Updated(data(color_key(MINER, OWNER, 3), Val::U32(9)))])],
        &OwnerBook::new(),
    );
    let c = store.colors();
    assert_eq!(c.len(), 1);
    assert_eq!(c[0].amount, 9);
}

#[test]
fn processing_a_ledger_twice_changes_nothing_more() {
    let p = projector();
    let owners = owners_with(1, OWNER);
    let ledger = vec![invoke(vec![
        LedgerChange::Created(data(color_key(MINER, OWNER, 1), Val::U32(2))),
        LedgerChange::Created(data(hash_key("Glyph", 1), glyph_val(1, 1, "EE"))),
        LedgerChange::Created(data(hash_key("GlyphOwner", 1), addr(OWNER))),
        LedgerChange::Created(data(hash_key("GlyphOffer", 1), Val::List(vec![glyph_offer(2)]))),
    ])];
    let mut store = RowStore::new();
    p.process_ledger(&mut store, &ledger, &owners);
    let once = format!("{:?}", store);
    p.process_ledger(&mut store, &ledger, &owners);
    assert_eq!(format!("{:?}", store), once);
    assert_eq!(store.colors().len(), 1);
    assert_eq!(store.glyphs().len(), 1);
    assert_eq!(store.offers().len(), 1);
}

#[test]
fn replay_matches_ledger_portion() {
    let p = projector();
    let owners = OwnerBook::new();
    let t0 = invoke(vec![LedgerChange::Created(data(color_key(MINER, OWNER, 1), Val::U32(2)))]);
    let t1 = invoke(vec![LedgerChange::Created(data(color_key(MINER, OWNER, 2), Val::U32(3)))]);
    let mut whole = RowStore::new();
    let out = p.process_ledger(&mut whole, &vec![t0, t1], &owners);
    let t0 = invoke(vec![LedgerChange::Created(data(color_key(MINER, OWNER, 1), Val::U32(2)))]);
    let t1 = invoke(vec![LedgerChange::Created(data(color_key(MINER, OWNER, 2), Val::U32(3)))]);
    let mut replayed = RowStore::new();
    let a = p.replay_transaction(&mut replayed, &t0, &owners);
    let b = p.replay_transaction(&mut replayed, &t1, &owners);
    assert_eq!(format!("{:?}", replayed), format!("{:?}", whole));
    assert_eq!(a.body.data.len() + b.body.data.len(), out.body.data.len());
    assert_eq!(b.body.seq_num, 42);
}

#[test]
fn walker_skips_failed_and_foreign_transactions() {
    let p = projector();
    let mut failed = invoke(vec![]);
    failed.result = TxResult::Failed;
    assert!(p.invoked_operations(&failed).is_empty());
    let mut foreign = invoke(vec![]);
    foreign.envelope = TxEnvelope::Tx(TxBody {
        seq_num: 1,
        operations: vec![OpBody::InvokeContract(vec![8; 32])],
    });
    assert!(p.invoked_operations(&foreign).is_empty());
    let mut op_failed = invoke(vec![]);
    op_failed.result = TxResult::Success(vec![OpResult::Other]);
    assert!(p.invoked_operations(&op_failed).is_empty());
    let mut bumped = invoke(vec![]);
    bumped.envelope = TxEnvelope::FeeBump(TxBody {
        seq_num: 5,
        operations: vec![OpBody::InvokeContract(vec![CONTRACT; 32])],
    });
    bumped.result = TxResult::FeeBumpInnerSuccess(vec![OpResult::InvokeSuccess]);
    assert_eq!(p.invoked_operations(&bumped), vec![0]);
}

#[test]
fn value_fault_does_not_stop_the_list() {
    let p = projector();
    let mut store = RowStore::new();
    let out = p.process_ledger(
        &mut store,
        &vec![invoke(vec![
            LedgerChange::Created(data(color_key(MINER, OWNER, 1), addr(OWNER))),
            LedgerChange::Created(data(color_key(MINER, OWNER, 2), Val::U32(8))),
        ])],
        &OwnerBook::new(),
    );
    assert_eq!(out.faults.len(), 1);
    assert_eq!((out.faults[0].tx, out.faults[0].op, out.faults[0].change), (0, 0, 0));
    assert_eq!(out.faults[0].error, DecodeError::ValueShape);
    assert_eq!(store.colors().len(), 1);
    assert_eq!(store.colors()[0].color, 2);
}

#[test]
fn invalid_offer_stops_the_list() {
    let p = projector();
    let mut store = RowStore::new();
    let out = p.process_ledger(
        &mut store,
        &vec![invoke(vec![
            LedgerChange::Created(data(hash_key("GlyphOffer", 1), Val::List(vec![Val::Void]))),
            LedgerChange::Created(data(color_key(MINER, OWNER, 2), Val::U32(8))),
        ])],
        &owners_with(1, OWNER),
    );
    assert_eq!(out.faults.len(), 1);
    assert_eq!(out.faults[0].error, DecodeError::InvalidOffer);
    assert!(store.colors().is_empty());
}

#[test]
fn glyph_offers_without_owner_are_dropped() {
    let changes = vec![LedgerChange::Created(data(
        hash_key("GlyphOffer", 1),
        Val::List(vec![glyph_offer(2)]),
    ))];
    let r = change_events(&changes[0], &changes, &OwnerBook::new()).unwrap();
    assert!(r.is_empty());
}

#[test]
fn asset_offer_slot_lifecycle() {
    let p = projector();
    let owners = OwnerBook::new();
    let mut store = RowStore::new();
    p.process_ledger(
        &mut store,
        &vec![invoke(vec![LedgerChange::Created(data(
            asset_offer_key(4, ASSET, 50),
            Val::List(vec![addr("GBUYER1"), addr("GBUYER2")]),
        ))])],
        &owners,
    );
    assert_eq!(
        offer_rows(&store),
        vec![
            ("GBUYER1".to_string(), ASSET.to_string(), hex_of(4), Some(50), true),
            ("GBUYER2".to_string(), ASSET.to_string(), hex_of(4), Some(50), true),
        ]
    );
    p.process_ledger(
        &mut store,
        &vec![invoke(vec![
            LedgerChange::State(data(
                asset_offer_key(4, ASSET, 50),
                Val::List(vec![addr("GBUYER1"), addr("GBUYER2")]),
            )),
            LedgerChange::Updated(data(asset_offer_key(4, ASSET, 50), Val::List(vec![addr("GBUYER2")]))),
        ])],
        &owners,
    );
    assert_eq!(offer_rows(&store)[0].4, false);
    assert_eq!(offer_rows(&store)[1].4, true);
    p.process_ledger(
        &mut store,
        &vec![invoke(vec![LedgerChange::Removed(asset_offer_key(4, ASSET, 50))])],
        &owners,
    );
    assert!(offer_rows(&store).iter().all(|r| !r.4));
}

#[test]
fn glyph_offer_slot_removed() {
    let owners = owners_with(1, OWNER);
    let r = removed_key_events(&StorageKey::GlyphOffer(hash(1)), &owners);
    match &r[..] {
        [Data::OfferSellerSelling(d)] => {
            assert_eq!(d.seller, OWNER);
            assert_eq!(d.selling, hex_of(1));
            assert!(matches!(d.change, Change::Remove));
        }
        other => panic!("unexpected {:?}", other),
    }
    let p = projector();
    let mut store = RowStore::new();
    p.process_ledger(
        &mut store,
        &vec![invoke(vec![LedgerChange::Created(data(
            hash_key("GlyphOffer", 1),
            Val::List(vec![glyph_offer(2), asset_offer(ASSET, 3)]),
        ))])],
        &owners,
    );
    p.process_ledger(
        &mut store,
        &vec![invoke(vec![LedgerChange::Removed(hash_key("GlyphOffer", 1))])],
        &owners,
    );
    assert_eq!(store.offers().len(), 2);
    assert!(offer_rows(&store).iter().all(|r| !r.4));
}

#[test]
fn owner_book_keeps_first_answer() {
    let mut book = OwnerBook::new();
    book.record(&hash(1), "GA".to_string());
    book.record(&hash(1), "GB".to_string());
    assert_eq!(book.owner_of(&hash(1)).as_deref(), Some("GA"));
    assert!(book.owner_of(&hash(2)).is_none());
}

#[test]
fn owner_before_glyph_body_applies_only_on_second_pass() {
    let p = projector();
    let ledger = vec![invoke(vec![
        LedgerChange::Created(data(hash_key("GlyphOwner", 6), addr(OWNER))),
        LedgerChange::Created(data(hash_key("Glyph", 6), glyph_val(1, 2, "FF"))),
    ])];
    let mut store = RowStore::new();
    p.process_ledger(&mut store, &ledger, &OwnerBook::new());
    assert_eq!(store.glyphs().len(), 1);
    assert!(store.glyphs()[0].owner.is_none());
    p.process_ledger(&mut store, &ledger, &OwnerBook::new());
    assert_eq!(store.glyphs().len(), 1);
    assert_eq!(store.glyphs()[0].owner.as_deref(), Some(OWNER));
}

#[test]
fn asset_offer_with_non_address_item_is_a_value_error() {
    let key = StorageKey::AssetOffer(hash(1), ASSET.to_string(), 10);
    let r = entry_events(&key, &Val::List(vec![Val::U32(1)]), None, Change::Create, &OwnerBook::new());
    assert!(matches!(r, Err(DecodeError::ValueShape)));
}

#[test]
fn glyph_value_of_wrong_shape_is_a_value_error() {
    let key = StorageKey::Glyph(hash(1));
    let bad = Val::Mapping {
        entries: vec![(sym("width"), Val::U32(1))],
        encoded: String::new(),
    };
    let r = entry_events(&key, &bad, None, Change::Create, &OwnerBook::new());
    assert!(matches!(r, Err(DecodeError::ValueShape)));
}

#[test]
fn pre_image_of_wrong_shape_is_an_error() {
    let key = StorageKey::GlyphOffer(hash(1));
    let changes = vec![LedgerChange::State(data(hash_key("GlyphOffer", 1), Val::U32(0)))];
    let r = get_diff_offers(&key, Some(&changes), &Offers::Offers(vec![]));
    assert!(matches!(r, Err(DecodeError::ValueShape)));
    let changes = vec![LedgerChange::State(data(
        hash_key("GlyphOffer", 1),
        Val::List(vec![Val::Void]),
    ))];
    let r = get_diff_offers(&key, Some(&changes), &Offers::Offers(vec![]));
    assert!(matches!(r, Err(DecodeError::InvalidOffer)));
}

#[test]
fn no_pre_image_reports_nothing() {
    let key = StorageKey::GlyphOffer(hash(1));
    let changes = vec![LedgerChange::State(data(
        hash_key("GlyphOffer", 2),
        Val::List(vec![glyph_offer(3)]),
    ))];
    assert!(matches!(get_diff_offers(&key, Some(&changes), &Offers::Offers(vec![])), Ok(None)));
    assert!(matches!(get_diff_offers(&key, None, &Offers::Offers(vec![])), Ok(None)));
}

#[test]
fn fault_names_its_transaction() {
    let p = projector();
    let mut store = RowStore::new();
    let out = p.process_ledger(
        &mut store,
        &vec![
            invoke(vec![LedgerChange::Created(data(color_key(MINER, OWNER, 1), Val::U32(1)))]),
            invoke(vec![
                LedgerChange::Unrelated,
                LedgerChange::Created(data(hash_key("GlyphMinter", 1), Val::U32(1))),
            ]),
        ],
        &OwnerBook::new(),
    );
    assert_eq!(out.faults.len(), 1);
    assert_eq!((out.faults[0].tx, out.faults[0].op, out.faults[0].change), (1, 0, 1));
    assert_eq!(store.colors().len(), 1);
}

#[test]
fn asset_offer_amount_is_carried_exactly() {
    let big: i128 = (1i128 << 100) + 7;
    let key = StorageKey::AssetOffer(hash(2), ASSET.to_string(), big);
    let r = entry_events(&key, &Val::List(vec![addr("GBUYER")]), None, Change::Create, &OwnerBook::new())
        .unwrap();
    match &r[..] {
        [Data::Offer(d)] => {
            assert_eq!(d.seller, "GBUYER");
            assert_eq!(d.selling, ASSET);
            assert_eq!(d.buying, hex_of(2));
            assert_eq!(d.amount, Some(big));
        }
        other => panic!("unexpected {:?}", other),
    }
}
