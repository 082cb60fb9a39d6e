use gsx_dag::indexer::backfill::{
    block_from_view, strip_hex_prefix, Action, Backfill, BlockView, DEFAULT_MAX_PER_ITER,
};
use gsx_dag::indexer::frames::{
    block_from_committed_event, frame_action, EventView, FrameAction, LaggedNotice,
};
use gsx_dag::indexer::store::{InMemoryStore, IndexedBlock, Store, MAX_BLOCKS_PER_QUERY};

fn mk_event(round: u64, cert: &str, txs: Vec<&str>) -> EventView {
    EventView {
        t_ms: 1,
        region: "v0".into(),
        lane: "main".into(),
        event: "committed".into(),
        round: Some(round),
        cert_hash: Some(cert.into()),
        tx_hash: None,
        peer: None,
        intent_hashes: Some(txs.into_iter().map(String::from).collect()),
        authority_id: None,
        kind: None,
        received_60s: None,
    }
}

fn block(round: u64) -> IndexedBlock {
    IndexedBlock {
        round,
        indexed_at_ms: 100,
        cert_hash: format!("0x{:02x}", round),
        tx_hashes: vec![],
    }
}

fn handle(store: &mut InMemoryStore, notice: Option<LaggedNotice>, event: Option<EventView>) {
    if let FrameAction::Ingest(b) = frame_action(&notice, &event, 9) {
        store.ingest_committed_block(b);
    }
}

#[test]
fn block_from_committed_event_extracts_fields() {
    let ev = mk_event(42, "0xab", vec!["0xcd", "0xef"]);
    let block = block_from_committed_event(&ev, 77).unwrap();
    assert_eq!(block.round, 42);
    assert_eq!(block.cert_hash, "0xab");
    assert_eq!(
        block.tx_hashes,
        vec!["0xcd".to_string(), "0xef".to_string()]
    );
    assert_eq!(block.indexed_at_ms, 77);
}

#[test]
fn block_from_committed_event_rejects_non_committed() {
    let mut ev = mk_event(42, "0xab", vec![]);
    ev.event = "proposed".into();
    assert!(block_from_committed_event(&ev, 1).is_none());
}

#[test]
fn block_from_committed_event_rejects_off_lane() {
    let mut ev = mk_event(42, "0xab", vec![]);
    ev.lane = "fastpath".into();
    assert!(block_from_committed_event(&ev, 1).is_none());
}

#[test]
fn committed_event_needs_round_and_certificate() {
    let mut ev = mk_event(42, "0xab", vec![]);
    ev.round = None;
    assert!(block_from_committed_event(&ev, 1).is_none());
    let mut ev = mk_event(42, "0xab", vec![]);
    ev.cert_hash = None;
    assert!(block_from_committed_event(&ev, 1).is_none());
    let mut ev = mk_event(42, "0xab", vec![]);
    ev.intent_hashes = None;
    assert_eq!(
        block_from_committed_event(&ev, 1).unwrap().tx_hashes,
        Vec::<String>::new()
    );
}

#[test]
fn ingest_is_idempotent() {
    let mut store = InMemoryStore::new();
    let block = IndexedBlock {
        round: 7,
        indexed_at_ms: 100,
        cert_hash: "0xab".into(),
        tx_hashes: vec!["0xcd".into()],
    };
    store.ingest_committed_block(block.clone());
    store.ingest_committed_block(block.clone());
    assert_eq!(store.latest_round(), Some(7));
    assert_eq!(store.get_block(7), Some(block));
}

#[test]
fn the_first_block_of_a_round_stays() {
    let mut store = InMemoryStore::new();
    let mut first = block(7);
    first.tx_hashes = vec!["aa".into()];
    let mut second = block(7);
    second.cert_hash = "other".into();
    second.tx_hashes = vec!["bb".into()];
    store.ingest_committed_block(first.clone());
    store.ingest_committed_block(second);
    assert_eq!(store.get_block(7), Some(first));
    assert_eq!(store.round_of_tx("aa"), Some(7));
    assert_eq!(store.round_of_tx("bb"), None);
}

#[test]
fn transactions_are_found_by_hash() {
    let mut store = InMemoryStore::default();
    let mut b = block(3);
    b.tx_hashes = vec!["aa".into(), "bb".into()];
    store.ingest_committed_block(b);
    let mut b = block(4);
    b.tx_hashes = vec!["bb".into()];
    store.ingest_committed_block(b);
    assert_eq!(store.round_of_tx("aa"), Some(3));
    assert_eq!(store.round_of_tx("bb"), Some(4));
    assert_eq!(store.round_of_tx("cc"), None);
}

#[test]
fn range_query_is_inclusive() {
    let mut store = InMemoryStore::new();
    for r in 0..10u64 {
        store.ingest_committed_block(block(r));
    }
    let blocks = store.get_blocks(3, 6);
    assert_eq!(blocks.len(), 4);
    assert_eq!(blocks.first().unwrap().round, 3);
    assert_eq!(blocks.last().unwrap().round, 6);
}

#[test]
fn range_query_gives_one_page_in_order() {
    let mut store = InMemoryStore::new();
    for r in (0..1100u64).rev() {
        store.ingest_committed_block(block(r));
    }
    let blocks = store.get_blocks(10, 1099);
    assert_eq!(blocks.len(), MAX_BLOCKS_PER_QUERY);
    assert_eq!(MAX_BLOCKS_PER_QUERY, 1024);
    for (i, b) in blocks.iter().enumerate() {
        assert_eq!(b.round, 10 + i as u64);
    }
}

#[test]
fn latest_round_empty_is_none() {
    let store = InMemoryStore::new();
    assert_eq!(store.latest_round(), None);
    assert_eq!(store.get_block(0), None);
    assert!(store.get_blocks(0, 10).is_empty());
}

#[test]
fn handle_frame_ingests_committed_event() {
    let mut store = InMemoryStore::new();
    handle(
        &mut store,
        None,
        Some(mk_event(42, "0xab", vec!["0xcd", "0xef"])),
    );
    let got = store.get_block(42).unwrap();
    assert_eq!(got.round, 42);
    assert_eq!(got.cert_hash, "0xab");
    assert_eq!(got.tx_hashes.len(), 2);
}

#[test]
fn handle_frame_ignores_lagged_notice() {
    let mut store = InMemoryStore::new();
    let notice = LaggedNotice {
        error: "lagged".into(),
        skipped: 3,
    };
    assert_eq!(
        frame_action(&Some(notice), &None, 1),
        FrameAction::Lagged { skipped: 3 }
    );
    let notice = LaggedNotice {
        error: "lagged".into(),
        skipped: 3,
    };
    handle(&mut store, Some(notice), None);
    assert_eq!(store.latest_round(), None);
}

#[test]
fn another_notice_is_read_as_an_event() {
    let notice = || {
        Some(LaggedNotice {
            error: "busy".into(),
            skipped: 0,
        })
    };
    assert_eq!(frame_action(&notice(), &None, 1), FrameAction::Malformed);
    assert!(matches!(
        frame_action(&notice(), &Some(mk_event(1, "0x", vec![])), 1),
        FrameAction::Ingest(_)
    ));
}

#[test]
fn handle_frame_skips_non_committed() {
    let mut store = InMemoryStore::new();
    let mut ev = mk_event(1, "0xab", vec![]);
    ev.event = "proposed".into();
    ev.cert_hash = None;
    ev.intent_hashes = None;
    handle(&mut store, None, Some(ev));
    assert_eq!(store.latest_round(), None);
    let mut ev = mk_event(1, "0xab", vec![]);
    ev.event = "proposed".into();
    assert_eq!(frame_action(&None, &Some(ev), 1), FrameAction::Ignore);
}

#[test]
fn handle_frame_skips_malformed() {
    let mut store = InMemoryStore::new();
    handle(&mut store, None, None);
    assert_eq!(store.latest_round(), None);
    assert_eq!(frame_action(&None, &None, 1), FrameAction::Malformed);
}

fn bounds<S: Store>() {}

#[test]
fn unused_warn_imports_compile_cleanly() {
    bounds::<InMemoryStore>();
    let _ = IndexedBlock {
        round: 0,
        indexed_at_ms: 0,
        cert_hash: String::new(),
        tx_hashes: vec![],
    };
}

#[test]
fn block_from_view_strips_tx_hash_prefix() {
    let bv = BlockView {
        round: 7,
        cert_hash: "0xab".into(),
        tx_hashes: vec!["0xdeadbeef".into(), "feedface".into()],
    };
    let block = block_from_view(&bv, 5);
    assert_eq!(block.round, 7);
    assert_eq!(block.cert_hash, "0xab");
    assert_eq!(block.tx_hashes, vec!["deadbeef", "feedface"]);
    assert_eq!(block.indexed_at_ms, 5);
}

#[test]
fn block_from_view_handles_empty_intents() {
    let mut store = InMemoryStore::new();
    let bv = BlockView {
        round: 7,
        cert_hash: "0xab".into(),
        tx_hashes: vec![],
    };
    store.ingest_committed_block(block_from_view(&bv, 5));
    assert_eq!(store.latest_round(), Some(7));
}

#[test]
fn only_one_leading_prefix_is_stripped() {
    assert_eq!(strip_hex_prefix("0x0x12"), "0x12");
    assert_eq!(strip_hex_prefix("0x"), "");
    assert_eq!(strip_hex_prefix("0"), "0");
    assert_eq!(strip_hex_prefix(""), "");
    assert_eq!(strip_hex_prefix("X0x"), "X0x");
    assert_eq!(strip_hex_prefix("0xß"), "ß");
}

fn walk(latest: Option<u64>, head: u64, max: u64, gaps: &[u64]) -> (Vec<u64>, usize, u64) {
    let mut walk = Backfill::new(latest, head, max);
    let mut fetched = vec![];
    let mut yields = 0;
    loop {
        match walk.next_action() {
            Action::Fetch(round) => {
                fetched.push(round);
                let view = if gaps.contains(&round) {
                    None
                } else {
                    Some(BlockView {
                        round,
                        cert_hash: "0xab".into(),
                        tx_hashes: vec![],
                    })
                };
                let present = view.is_some();
                assert_eq!(walk.answer(&view, 1).is_some(), present);
            }
            Action::Yield => yields += 1,
            Action::Done(ingested) => return (fetched, yields, ingested),
        }
    }
}

#[test]
fn backfill_walks_the_gap_once_in_order() {
    assert_eq!(DEFAULT_MAX_PER_ITER, 256);
    let (fetched, yields, ingested) = walk(Some(4), 14, 4, &[7, 9]);
    assert_eq!(fetched, (5..=14).collect::<Vec<u64>>());
    assert_eq!(yields, 3);
    assert_eq!(ingested, 8);
}

#[test]
fn backfill_of_an_empty_store_starts_at_zero() {
    assert_eq!(walk(None, 0, 256, &[]), (vec![0], 1, 1));
    assert_eq!(walk(None, 2, 0, &[]), (vec![0, 1, 2], 3, 3));
}

#[test]
fn backfill_has_nothing_to_do_at_or_past_the_head() {
    assert_eq!(walk(Some(9), 9, 256, &[]), (vec![], 0, 0));
    assert_eq!(walk(Some(u64::MAX), 9, 256, &[]), (vec![], 0, 0));
}
