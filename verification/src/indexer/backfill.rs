//! Catching up with the chain before the live stream takes over.
//!
//! The rounds after the latest one in the store, up to the chain head at the
//! start, are fetched in batches. A round without a block is a legitimate gap.

use vstd::prelude::*;

use vstd::string::StrSliceExecFns;

use crate::indexer::store::{texts, BlockModel, IndexedBlock};

verus! {

/// Rounds in one batch, unless told otherwise.
pub const DEFAULT_MAX_PER_ITER: u64 = 256;

/// A block as the node hands it out.
#[derive(Debug, PartialEq, Eq)]
pub struct BlockView {
    /// Consensus round of the block.
    pub round: u64,
    /// Certificate hash in hexadecimal.
    pub cert_hash: String,
    /// Intent hashes in commit order.
    pub tx_hashes: Vec<String>,
}

/// `s` without a leading `0x`.
pub open spec fn without_prefix(s: Seq<char>) -> Seq<char> {
    if s.len() >= 2 && s[0] == '0' && s[1] == 'x' {
        s.skip(2)
    } else {
        s
    }
}

/// `v` with a leading `0x` taken off every text.
pub open spec fn bare_hashes(v: Seq<String>) -> Seq<Seq<char>> {
    Seq::new(v.len(), |i: int| without_prefix(v[i]@))
}

/// The block that the index keeps of a block from the node.
pub open spec fn kept(view: BlockView, now_ms: u64) -> BlockModel {
    BlockModel {
        round: view.round,
        indexed_at_ms: now_ms,
        cert_hash: view.cert_hash@,
        tx_hashes: bare_hashes(view.tx_hashes@),
    }
}

/// A copy of `s` without a leading `0x`.
pub fn strip_hex_prefix(s: &str) -> (r: String)
    ensures
        r@ == without_prefix(s@),
{
    let n: usize = s.unicode_len();
    if n >= 2 && s.get_char(0) == '0' && s.get_char(1) == 'x' {
        assert(s@.subrange(2, n as int) =~= s@.skip(2));
        s.substring_char(2, n).to_owned()
    } else {
        s.to_owned()
    }
}

/// The block that the index keeps of a block from the node, indexed at `now_ms`.
/// The certificate hash stays as it is; the transaction hashes lose their `0x`.
pub fn block_from_view(view: &BlockView, now_ms: u64) -> (b: IndexedBlock)
    ensures
        b@ == kept(*view, now_ms),
{
    let n: usize = view.tx_hashes.len();
    let mut tx_hashes: Vec<String> = Vec::new();
    let mut i: usize = 0;
    while i < n
        invariant
            i <= n,
            n == view.tx_hashes@.len(),
            tx_hashes@.len() == i,
            forall|j: int|
                0 <= j < i ==> (#[trigger] tx_hashes@[j])@ == without_prefix(view.tx_hashes@[j]@),
        decreases n - i,
    {
        tx_hashes.push(strip_hex_prefix(view.tx_hashes[i].as_str()));
        i = i + 1;
    }
    assert(texts(tx_hashes@) =~= bare_hashes(view.tx_hashes@));
    IndexedBlock {
        round: view.round,
        indexed_at_ms: now_ms,
        cert_hash: view.cert_hash.clone(),
        tx_hashes,
    }
}

/// The round after the latest one in the store.
pub open spec fn first_missing(latest: Option<u64>) -> u64 {
    match latest {
        Some(r) => if r < u64::MAX {
            (r + 1) as u64
        } else {
            u64::MAX
        },
        None => 0,
    }
}

/// Where a batch that starts at `next` ends, not included.
pub open spec fn batch_end(next: int, head: int, max_per_iter: int) -> int {
    if next + max_per_iter <= head + 1 {
        next + max_per_iter
    } else {
        head + 1
    }
}

/// What the walk does next.
#[derive(Debug, Clone, Copy, PartialEq, Eq, Structural)]
pub enum Action {
    /// Fetch the block of a round.
    Fetch(u64),
    /// Let other tasks run: a batch is complete.
    Yield,
    /// The walk is over; so many blocks came in.
    Done(u64),
}

/// How far a walk is.
pub struct WalkModel {
    /// First round that is not walked yet.
    pub next: int,
    /// Last round to walk.
    pub head: int,
    /// Rounds in one batch.
    pub max_per_iter: int,
    /// Where the current batch ends; none between batches.
    pub end: Option<int>,
    /// Blocks that came in.
    pub ingested: int,
}

/// What a walk does next.
pub open spec fn action_of(w: WalkModel) -> Action {
    match w.end {
        Some(end) => if w.next < end {
            Action::Fetch(w.next as u64)
        } else {
            Action::Yield
        },
        None => if w.next <= w.head {
            Action::Fetch(w.next as u64)
        } else {
            Action::Done(w.ingested as u64)
        },
    }
}

/// The walk once it does what it does next.
pub open spec fn after_action(w: WalkModel) -> WalkModel {
    match w.end {
        Some(end) => if w.next < end {
            w
        } else {
            WalkModel { end: None, ..w }
        },
        None => if w.next <= w.head {
            WalkModel { end: Some(batch_end(w.next, w.head, w.max_per_iter)), ..w }
        } else {
            w
        },
    }
}

/// The walk once the round that it fetches is answered.
pub open spec fn after_answer(w: WalkModel, found: bool) -> WalkModel {
    WalkModel {
        next: w.next + 1,
        ingested: if found {
            w.ingested + 1
        } else {
            w.ingested
        },
        ..w
    }
}

/// A walk over the rounds that the store lacks.
#[derive(Debug, PartialEq, Eq)]
pub struct Backfill {
    next: u64,
    head: u64,
    max_per_iter: u64,
    end: Option<u64>,
    ingested: u64,
}

impl View for Backfill {
    type V = WalkModel;

    closed spec fn view(&self) -> WalkModel {
        WalkModel {
            next: self.next as int,
            head: self.head as int,
            max_per_iter: self.max_per_iter as int,
            end: match self.end {
                Some(e) => Some(e as int),
                None => None,
            },
            ingested: self.ingested as int,
        }
    }
}

impl Backfill {
    #[verifier::type_invariant]
    spec fn wf(&self) -> bool {
        &&& self.head < u64::MAX
        &&& self.max_per_iter >= 1
        &&& self.ingested <= self.next
        &&& match self.end {
            Some(e) => self.next <= e <= self.head + 1,
            None => true,
        }
    }

    /// The walk from the round after `latest` through `head`. A batch has at
    /// least one round.
    pub fn new(latest: Option<u64>, head: u64, max_per_iter: u64) -> (b: Backfill)
        requires
            head < u64::MAX,
        ensures
            b@ == (WalkModel {
                next: first_missing(latest) as int,
                head: head as int,
                max_per_iter: if max_per_iter == 0 {
                    1
                } else {
                    max_per_iter as int
                },
                end: None,
                ingested: 0,
            }),
    {
        let next: u64 = match latest {
            Some(r) => r.saturating_add(1),
            None => 0,
        };
        let max_per_iter: u64 = if max_per_iter == 0 {
            1
        } else {
            max_per_iter
        };
        Backfill { next, head, max_per_iter, end: None, ingested: 0 }
    }

    /// What to do next.
    pub fn next_action(&mut self) -> (a: Action)
        ensures
            a == action_of(old(self)@),
            final(self)@ == after_action(old(self)@),
    {
        proof {
            use_type_invariant(&*self);
        }
        match self.end {
            Some(end) => {
                if self.next < end {
                    Action::Fetch(self.next)
                } else {
                    self.end = None;
                    Action::Yield
                }
            },
            None => {
                if self.next <= self.head {
                    let past: u64 = self.next.saturating_add(self.max_per_iter);
                    let end: u64 = if past <= self.head + 1 {
                        past
                    } else {
                        self.head + 1
                    };
                    self.end = Some(end);
                    Action::Fetch(self.next)
                } else {
                    Action::Done(self.ingested)
                }
            },
        }
    }

    /// Takes the node's answer for the round that is being fetched and gives the
    /// block for the store, if there is one.
    pub fn answer(&mut self, view: &Option<BlockView>, now_ms: u64) -> (r: Option<IndexedBlock>)
        requires
            old(self)@.end matches Some(e) && old(self)@.next < e,
        ensures
            final(self)@ == after_answer(old(self)@, view is Some),
            match r {
                Some(b) => view matches Some(v) && b@ == kept(*v, now_ms),
                None => view is None,
            },
    {
        proof {
            use_type_invariant(&*self);
        }
        self.next = self.next + 1;
        match view {
            Some(v) => {
                self.ingested = self.ingested + 1;
                Some(block_from_view(v, now_ms))
            },
            None => None,
        }
    }
}

/// Whether a walk is in order: its batch lies between where it is and its head.
pub open spec fn in_course(w: WalkModel) -> bool {
    &&& 0 <= w.next
    &&& 0 <= w.head < u64::MAX
    &&& w.max_per_iter >= 1
    &&& match w.end {
        Some(end) => w.next <= end <= w.head + 1,
        None => true,
    }
}

/// The rounds that a walk fetches from here to its end, in order, where `found`
/// says which rounds have a block.
pub open spec fn rounds_walked(w: WalkModel, found: spec_fn(int) -> bool) -> Seq<int>
    recommends
        in_course(w),
    decreases
            w.head + 1 - w.next,
            if w.end is Some {
                1nat
            } else {
                0
            },
    when in_course(w)
{
    match action_of(w) {
        Action::Fetch(_) => seq![w.next] + rounds_walked(
            after_answer(after_action(w), found(w.next)),
            found,
        ),
        Action::Yield => rounds_walked(after_action(w), found),
        Action::Done(_) => seq![],
    }
}

/// How many blocks a walk reports at its end.
pub open spec fn blocks_walked(w: WalkModel, found: spec_fn(int) -> bool) -> int
    recommends
        in_course(w),
    decreases
            w.head + 1 - w.next,
            if w.end is Some {
                1nat
            } else {
                0
            },
    when in_course(w)
{
    match action_of(w) {
        Action::Fetch(_) => blocks_walked(after_answer(after_action(w), found(w.next)), found),
        Action::Yield => blocks_walked(after_action(w), found),
        Action::Done(_) => w.ingested,
    }
}

/// How many rounds in `[next, head]` have a block.
pub open spec fn blocks_between(next: int, head: int, found: spec_fn(int) -> bool) -> int
    decreases head + 1 - next,
{
    if next > head {
        0
    } else {
        (if found(next) {
            1int
        } else {
            0
        }) + blocks_between(next + 1, head, found)
    }
}

/// Whatever the batch size, a walk comes to its end, has then fetched every
/// round from its start through the head once and in ascending order, and
/// reports how many of them have a block.
pub proof fn law_walk_covers_the_gap(w: WalkModel, found: spec_fn(int) -> bool)
    requires
        in_course(w),
        w.next <= w.head + 1,
    ensures
        rounds_walked(w, found) == Seq::new(
            (w.head + 1 - w.next) as nat,
            |i: int| w.next + i,
        ),
        blocks_walked(w, found) == w.ingested + blocks_between(w.next, w.head, found),
    decreases
            w.head + 1 - w.next,
            if w.end is Some {
                1nat
            } else {
                0
            },
{
    match action_of(w) {
        Action::Fetch(_) => {
            law_walk_covers_the_gap(after_answer(after_action(w), found(w.next)), found);
        },
        Action::Yield => {
            law_walk_covers_the_gap(after_action(w), found);
        },
        Action::Done(_) => {},
    }
    assert(rounds_walked(w, found) =~= Seq::new(
        (w.head + 1 - w.next) as nat,
        |i: int| w.next + i,
    ));
}

} // verus!
