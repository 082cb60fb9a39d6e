//! The block index.

use vstd::prelude::*;

use crate::indexer::backfill::{
    action_of, after_action, after_answer, first_missing, in_course, kept, without_prefix, Action,
    BlockView, WalkModel,
};
use crate::indexer::frames::{announced, EventView};
use crate::indexer::store::{in_range, ingested, one_page, BlockModel, StoreModel};
use crate::ordered::{
    ascending, lemma_rows_map_dom, lemma_rows_map_get, lemma_sorted_rows, sorted_rows, OrderedKey,
};

verus! {

/// Taking the same block in twice is taking it in once, and so is taking in any
/// other block of a round that is there.
pub proof fn law_ingestion_is_idempotent(s: StoreModel, first: BlockModel, second: BlockModel)
    requires
        second.round == first.round,
    ensures
        ingested(ingested(s, first), second) == ingested(s, first),
{
}

/// A block that is taken in can be read; all other rounds stay as they are.
pub proof fn law_ingested_blocks_are_read_back(s: StoreModel, b: BlockModel, round: u64)
    ensures
        ({
            let t = ingested(s, b);
            &&& t.blocks.dom().contains(b.round)
            &&& !s.blocks.dom().contains(b.round) ==> t.blocks[b.round] == b
            &&& s.blocks.dom().contains(round) ==> t.blocks.dom().contains(round)
                && t.blocks[round] == s.blocks[round]
        }),
{
}

/// Whether every transaction points to a block that carries it, and every
/// transaction of a block is known.
pub open spec fn index_is_sound(s: StoreModel) -> bool {
    &&& forall|h: Seq<char>| #[trigger]
        s.tx_index.dom().contains(h) ==> s.blocks.dom().contains(s.tx_index[h])
            && s.blocks[s.tx_index[h]].tx_hashes.contains(h)
    &&& forall|r: u64, h: Seq<char>|
        s.blocks.dom().contains(r) && #[trigger] s.blocks[r].tx_hashes.contains(h)
            ==> s.tx_index.dom().contains(h)
}

/// The transaction index stays sound.
pub proof fn law_index_stays_sound(s: StoreModel, b: BlockModel)
    requires
        index_is_sound(s),
    ensures
        index_is_sound(ingested(s, b)),
{
    let t = ingested(s, b);
    if !s.blocks.dom().contains(b.round) {
        assert forall|h: Seq<char>| #[trigger] t.tx_index.dom().contains(h) implies (
        t.blocks.dom().contains(t.tx_index[h]) && t.blocks[t.tx_index[h]].tx_hashes.contains(
            h,
        )) by {
            if !b.tx_hashes.contains(h) {
                assert(s.tx_index.dom().contains(h));
            }
        }
        assert forall|r: u64, h: Seq<char>|
            t.blocks.dom().contains(r) && #[trigger] t.blocks[r].tx_hashes.contains(
                h,
            ) implies t.tx_index.dom().contains(h) by {
            if r != b.round {
                assert(s.blocks[r].tx_hashes.contains(h));
            }
        }
    }
}

/// Blocks of different rounds can be taken in in any order.
pub proof fn law_blocks_are_order_independent(s: StoreModel, a: BlockModel, b: BlockModel)
    requires
        a.round != b.round,
    ensures
        ingested(ingested(s, a), b).blocks == ingested(ingested(s, b), a).blocks,
{
    assert(ingested(ingested(s, a), b).blocks =~= ingested(ingested(s, b), a).blocks);
}

/// The rounds among `rows` in `[from, to]`, in their order.
proof fn lemma_rounds_in_range(
    rows: Seq<(u64, BlockModel)>,
    from: u64,
    to: u64,
) -> (rounds: Seq<u64>)
    requires
        ascending(rows),
    ensures
        rounds.len() == in_range(rows, from, to).len(),
        forall|i: int|
            0 <= i < rounds.len() ==> from <= #[trigger] rounds[i] <= to && rows.contains(
                (rounds[i], in_range(rows, from, to)[i]),
            ),
        forall|i: int, j: int| 0 <= i < j < rounds.len() ==> #[trigger] rounds[i] < #[trigger] rounds[j],
        forall|i: int|
            0 <= i < rows.len() && from <= (#[trigger] rows[i]).0 <= to ==> rounds.contains(
                rows[i].0,
            ),
    decreases rows.len(),
{
    if rows.len() == 0 {
        Seq::empty()
    } else {
        let init = rows.drop_last();
        assert(ascending(init)) by {
            assert forall|a: int, b: int|
                #![trigger init[a], init[b]]
                0 <= a < b < init.len() implies init[a].0.before(init[b].0) by {
                assert(rows[a].0.before(rows[b].0));
            }
        }
        let below = lemma_rounds_in_range(init, from, to);
        let (k, b) = rows.last();
        let blocks = in_range(init, from, to);
        assert forall|i: int| 0 <= i < below.len() implies from <= #[trigger] below[i] <= to
            && rows.contains((below[i], blocks[i])) && below[i] < k by {
            let row = (below[i], blocks[i]);
            assert(init.contains(row));
            let j = choose|j: int| 0 <= j < init.len() && init[j] == row;
            assert(rows[j] == row);
            assert(rows[j].0.before(rows[rows.len() - 1].0));
        }
        let rounds = if from <= k <= to {
            below.push(k)
        } else {
            below
        };
        assert(rows[rows.len() - 1] == (k, b));
        assert forall|i: int| 0 <= i < rows.len() && from <= (
        #[trigger] rows[i]).0 <= to implies rounds.contains(rows[i].0) by {
            if i < init.len() {
                assert(init[i] == rows[i]);
                let j = choose|j: int| 0 <= j < below.len() && below[j] == rows[i].0;
                assert(rounds[j] == rows[i].0);
            } else {
                assert(rounds[rounds.len() - 1] == k);
            }
        }
        rounds
    }
}

/// Whether `rounds` are the stored rounds in `[from, to]`, in ascending order.
pub open spec fn rounds_between(
    blocks: Map<u64, BlockModel>,
    from: u64,
    to: u64,
    rounds: Seq<u64>,
) -> bool {
    &&& forall|i: int|
        0 <= i < rounds.len() ==> from <= #[trigger] rounds[i] <= to && blocks.dom().contains(
            rounds[i],
        )
    &&& forall|i: int, j: int|
        0 <= i < j < rounds.len() ==> #[trigger] rounds[i] < #[trigger] rounds[j]
    &&& forall|k: u64|
        from <= k <= to && #[trigger] blocks.dom().contains(k) ==> rounds.contains(k)
}

/// A range query gives the stored blocks of all rounds in the range, each as it
/// is stored, by ascending round.
pub proof fn law_ranges_give_the_stored_blocks(
    blocks: Map<u64, BlockModel>,
    from: u64,
    to: u64,
) -> (rounds: Seq<u64>)
    requires
        blocks.dom().finite(),
    ensures
        rounds_between(blocks, from, to, rounds),
        in_range(sorted_rows(blocks), from, to).len() == rounds.len(),
        forall|i: int|
            0 <= i < rounds.len() ==> #[trigger] in_range(sorted_rows(blocks), from, to)[i]
                == blocks[rounds[i]],
{
    let rows = sorted_rows(blocks);
    lemma_sorted_rows(blocks);
    lemma_rows_map_dom(rows);
    let rounds = lemma_rounds_in_range(rows, from, to);
    let found = in_range(rows, from, to);
    assert forall|i: int| 0 <= i < rounds.len() implies from <= #[trigger] rounds[i] <= to
        && blocks.dom().contains(rounds[i]) && found[i] == blocks[rounds[i]] by {
        let row = (rounds[i], found[i]);
        assert(rows.contains(row));
        let j = choose|j: int| 0 <= j < rows.len() && rows[j] == row;
        lemma_rows_map_get(rows, j);
    }
    assert forall|k: u64| from <= k <= to && #[trigger] blocks.dom().contains(
        k,
    ) implies rounds.contains(k) by {
        let j = choose|j: int| 0 <= j < rows.len() && (#[trigger] rows[j]).0 == k;
        assert(rounds.contains(rows[j].0));
    }
    rounds
}

/// A page is the first 1,024 blocks of its range, or all of them where there are
/// no more; every block in it is the stored one of its round.
pub proof fn law_pages_give_the_first_blocks(
    blocks: Map<u64, BlockModel>,
    from: u64,
    to: u64,
    k: u64,
) -> (rounds: Seq<u64>)
    requires
        blocks.dom().finite(),
    ensures
        rounds_between(blocks, from, to, rounds),
        ({
            let page = one_page(in_range(sorted_rows(blocks), from, to));
            &&& page.len() <= 1_024
            &&& page.len() == 1_024 || page.len() == rounds.len()
            &&& page.len() <= rounds.len()
            &&& forall|i: int| 0 <= i < page.len() ==> #[trigger] page[i] == blocks[rounds[i]]
            &&& from <= k <= to && blocks.dom().contains(k) && page.len() < 1_024 ==> page.contains(
                blocks[k],
            )
        }),
{
    let rounds = law_ranges_give_the_stored_blocks(blocks, from, to);
    let all = in_range(sorted_rows(blocks), from, to);
    let page = one_page(all);
    assert forall|i: int| 0 <= i < page.len() implies #[trigger] page[i] == blocks[rounds[i]] by {
        assert(page[i] == all[i]);
    }
    if from <= k <= to && blocks.dom().contains(k) && page.len() < 1_024 {
        let i = choose|i: int| 0 <= i < rounds.len() && rounds[i] == k;
        assert(page[i] == blocks[k]);
    }
    rounds
}

/// A block that is taken in is found by every range that holds its round, field
/// by field as it came, and a transaction of it leads to its round.
pub proof fn law_ingested_blocks_are_found(
    s: StoreModel,
    b: BlockModel,
    from: u64,
    to: u64,
    h: Seq<char>,
)
    requires
        s.blocks.dom().finite(),
        !s.blocks.dom().contains(b.round),
        from <= b.round <= to,
    ensures
        ({
            let t = ingested(s, b);
            &&& in_range(sorted_rows(t.blocks), from, to).contains(b)
            &&& b.tx_hashes.contains(h) ==> t.tx_index.dom().contains(h) && t.tx_index[h] == b.round
            &&& !b.tx_hashes.contains(h) ==> t.tx_index.dom().contains(h)
                == s.tx_index.dom().contains(h)
            &&& !b.tx_hashes.contains(h) && s.tx_index.dom().contains(h) ==> t.tx_index[h]
                == s.tx_index[h]
        }),
{
    let t = ingested(s, b);
    assert(t.blocks.dom() =~= s.blocks.dom().insert(b.round));
    let rounds = law_ranges_give_the_stored_blocks(t.blocks, from, to);
    assert(t.blocks.dom().contains(b.round));
    let i = choose|i: int| 0 <= i < rounds.len() && rounds[i] == b.round;
    assert(in_range(sorted_rows(t.blocks), from, to)[i] == b);
}

/// An event announces a block exactly where it is a commit on the main lane with a
/// round and a certificate hash. The block carries both as they are, the intent
/// hashes in their order, none where the event has none, and the time of indexing.
pub proof fn law_commits_on_the_main_lane_announce_blocks(ev: EventView, now_ms: u64)
    ensures
        announced(ev, now_ms) is Some <==> {
            &&& ev.event@ == "committed"@
            &&& ev.lane@ == "main"@
            &&& ev.round is Some
            &&& ev.cert_hash is Some
        },
        announced(ev, now_ms) matches Some(b) ==> {
            &&& Some(b.round) == ev.round
            &&& b.indexed_at_ms == now_ms
            &&& b.cert_hash == ev.cert_hash->Some_0@
            &&& ev.intent_hashes is None ==> b.tx_hashes.len() == 0
            &&& ev.intent_hashes matches Some(h) ==> {
                &&& b.tx_hashes.len() == h@.len()
                &&& forall|i: int| 0 <= i < h@.len() ==> #[trigger] b.tx_hashes[i] == h@[i]@
            }
        },
{
}

/// A leading `0x` is taken off once, and nothing else is.
pub proof fn law_prefixes_come_off_once(s: Seq<char>)
    ensures
        seq!['0', 'x'] + without_prefix(seq!['0', 'x'] + s) == seq!['0', 'x'] + s,
        without_prefix(seq!['0', 'x'] + s) == s,
        s.len() < 2 || s[0] != '0' || s[1] != 'x' ==> without_prefix(s) == s,
{
    let whole = seq!['0', 'x'] + s;
    assert(whole[0] == '0' && whole[1] == 'x');
    assert(whole.skip(2) =~= s);
}

/// The index keeps of a fetched block its round, its certificate hash as it is, its
/// transaction hashes in their order without a leading `0x`, and the time of
/// indexing.
pub proof fn law_fetched_blocks_are_kept(view: BlockView, now_ms: u64)
    ensures
        ({
            let b = kept(view, now_ms);
            &&& b.round == view.round
            &&& b.indexed_at_ms == now_ms
            &&& b.cert_hash == view.cert_hash@
            &&& b.tx_hashes.len() == view.tx_hashes@.len()
            &&& forall|i: int|
                0 <= i < view.tx_hashes@.len() ==> {
                    let h = view.tx_hashes@[i]@;
                    &&& h.len() >= 2 && h[0] == '0' && h[1] == 'x' ==> h == seq!['0', 'x']
                        + #[trigger] b.tx_hashes[i]
                    &&& h.len() < 2 || h[0] != '0' || h[1] != 'x' ==> h == b.tx_hashes[i]
                }
        }),
{
    let b = kept(view, now_ms);
    assert forall|i: int| 0 <= i < view.tx_hashes@.len() implies {
        let h = view.tx_hashes@[i]@;
        &&& h.len() >= 2 && h[0] == '0' && h[1] == 'x' ==> h == seq!['0', 'x']
            + #[trigger] b.tx_hashes[i]
        &&& h.len() < 2 || h[0] != '0' || h[1] != 'x' ==> h == b.tx_hashes[i]
    } by {
        let h = view.tx_hashes@[i]@;
        assert(b.tx_hashes[i] == without_prefix(h));
        if h.len() >= 2 && h[0] == '0' && h[1] == 'x' {
            assert(seq!['0', 'x'] + h.skip(2) =~= h);
        }
    }
}

/// A walk starts at round zero for an empty store and right after the latest round
/// for any other.
pub proof fn law_walks_start_after_the_latest_round(r: u64)
    ensures
        first_missing(None) == 0,
        r < u64::MAX ==> first_missing(Some(r)) == r + 1,
        first_missing(Some(u64::MAX)) == u64::MAX,
{
}

/// A batch begins between batches while rounds are left, has as many rounds as were
/// asked for or all that are left where these are fewer, and is followed by one
/// pause.
pub proof fn law_batches_are_as_large_as_asked_for(w: WalkModel, next: int)
    requires
        in_course(w),
        w.end is None,
        w.next <= w.head,
    ensures
        ({
            let begun = after_action(w);
            let rounds = begun.end->Some_0 - w.next;
            let later = WalkModel { next, ..begun };
            &&& action_of(w) == Action::Fetch(w.next as u64)
            &&& begun.end is Some
            &&& rounds <= w.max_per_iter
            &&& rounds <= w.head + 1 - w.next
            &&& rounds == w.max_per_iter || rounds == w.head + 1 - w.next
            &&& w.next <= next < w.next + rounds ==> action_of(later) == Action::Fetch(next as u64)
                && after_action(later) == later
            &&& next == w.next + rounds ==> action_of(later) == Action::Yield && after_action(
                later,
            ) == (WalkModel { next, ..w })
        }),
{
}

/// Each answer moves a walk on by one round, and counts it where it has a block.
pub proof fn law_answers_move_the_walk_on(w: WalkModel)
    ensures
        after_answer(w, true).next == w.next + 1,
        after_answer(w, false).next == w.next + 1,
        after_answer(w, true).ingested == w.ingested + 1,
        after_answer(w, false).ingested == w.ingested,
        after_answer(w, true).head == w.head && after_answer(w, true).end == w.end,
        after_answer(w, false).head == w.head && after_answer(w, false).end == w.end,
{
}

/// A walk that caught up is over and reports the blocks that came in.
pub proof fn law_finished_walks_report_their_blocks(w: WalkModel)
    requires
        w.end is None,
        w.next > w.head,
    ensures
        action_of(w) == Action::Done(w.ingested as u64),
        after_action(w) == w,
{
}

} // verus!
