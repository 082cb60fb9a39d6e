//! Events of the node's stream and what the index does with them.

use vstd::prelude::*;

use crate::indexer::store::{copy_texts, texts, BlockModel, IndexedBlock};

verus! {

/// One event of the node's stream.
#[derive(Debug, PartialEq, Eq)]
pub struct EventView {
    /// Unix time in milliseconds.
    pub t_ms: u64,
    /// Region of the node.
    pub region: String,
    /// Lane of the event.
    pub lane: String,
    /// Kind of event.
    pub event: String,
    /// Consensus round.
    pub round: Option<u64>,
    /// Certificate hash.
    pub cert_hash: Option<String>,
    /// Transaction hash.
    pub tx_hash: Option<String>,
    /// Peer that took part.
    pub peer: Option<String>,
    /// Hashes of the intents of a committed block.
    pub intent_hashes: Option<Vec<String>>,
    /// Authority that took part.
    pub authority_id: Option<u32>,
    /// Further kind of the event.
    pub kind: Option<String>,
    /// Messages received in the last minute.
    pub received_60s: Option<u64>,
}

/// Notice of the node that a subscriber fell behind.
#[derive(Debug, PartialEq, Eq)]
pub struct LaggedNotice {
    /// Says `lagged` for such a notice.
    pub error: String,
    /// Events that were passed over.
    pub skipped: u64,
}

/// The block that an event announces, if it commits one on the main lane.
pub open spec fn announced(ev: EventView, now_ms: u64) -> Option<BlockModel> {
    if ev.event@ != "committed"@ || ev.lane@ != "main"@ {
        None
    } else {
        match (ev.round, ev.cert_hash) {
            (Some(round), Some(cert_hash)) => Some(
                BlockModel {
                    round,
                    indexed_at_ms: now_ms,
                    cert_hash: cert_hash@,
                    tx_hashes: match ev.intent_hashes {
                        Some(hashes) => texts(hashes@),
                        None => seq![],
                    },
                },
            ),
            _ => None,
        }
    }
}

/// The block of a committed event on the main lane, indexed at `now_ms`. There
/// is none for any other event, nor without a round or a certificate hash.
pub fn block_from_committed_event(ev: &EventView, now_ms: u64) -> (r: Option<IndexedBlock>)
    ensures
        match r {
            Some(b) => announced(*ev, now_ms) == Some(b@),
            None => announced(*ev, now_ms) is None,
        },
{
    let committed: String = "committed".to_owned();
    let main: String = "main".to_owned();
    if !(ev.event == committed) || !(ev.lane == main) {
        return None;
    }
    match (&ev.round, &ev.cert_hash) {
        (Some(round), Some(cert_hash)) => {
            let tx_hashes: Vec<String> = match &ev.intent_hashes {
                Some(hashes) => copy_texts(hashes),
                None => Vec::new(),
            };
            let b = IndexedBlock {
                round: *round,
                indexed_at_ms: now_ms,
                cert_hash: cert_hash.clone(),
                tx_hashes,
            };
            proof {
                if ev.intent_hashes is None {
                    assert(texts(b.tx_hashes@) =~= seq![]);
                }
            }
            Some(b)
        },
        _ => None,
    }
}

/// What to do with one text frame.
#[derive(Debug, PartialEq, Eq)]
pub enum FrameAction {
    /// The subscriber fell behind.
    Lagged {
        /// Events that were passed over.
        skipped: u64,
    },
    /// The frame is no event.
    Malformed,
    /// The event commits no block.
    Ignore,
    /// Put the block into the store.
    Ingest(IndexedBlock),
}

/// Decides what to do with a frame: `notice` and `event` are what it reads as,
/// if it does. A notice that says `lagged` comes first.
pub fn frame_action(
    notice: &Option<LaggedNotice>,
    event: &Option<EventView>,
    now_ms: u64,
) -> (a: FrameAction)
    ensures
        match a {
            FrameAction::Lagged { skipped } => notice matches Some(n) && n.error@ == "lagged"@
                && skipped == n.skipped,
            FrameAction::Malformed => !(notice matches Some(n) && n.error@ == "lagged"@)
                && event is None,
            FrameAction::Ignore => !(notice matches Some(n) && n.error@ == "lagged"@) && (
            event matches Some(ev) && announced(*ev, now_ms) is None),
            FrameAction::Ingest(b) => !(notice matches Some(n) && n.error@ == "lagged"@) && (
            event matches Some(ev) && announced(*ev, now_ms) == Some(b@)),
        },
{
    let lagged: String = "lagged".to_owned();
    if let Some(n) = notice {
        if n.error == lagged {
            return FrameAction::Lagged { skipped: n.skipped };
        }
    }
    match event {
        None => FrameAction::Malformed,
        Some(ev) => match block_from_committed_event(ev, now_ms) {
            Some(b) => FrameAction::Ingest(b),
            None => FrameAction::Ignore,
        },
    }
}

} // verus!
