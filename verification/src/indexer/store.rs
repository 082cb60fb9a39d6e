//! The store of committed blocks.

use vstd::prelude::*;

use vstd::hash_map::StringHashMap;

use crate::ordered::{
    lemma_rows_map_dom, lemma_view_rows, row_views, rows_map, sorted_rows, value_views, OrderedMap,
};

verus! {

/// Most blocks that one range query gives.
pub const MAX_BLOCKS_PER_QUERY: usize = 1024;

/// One committed block.
#[derive(Debug, PartialEq, Eq)]
pub struct IndexedBlock {
    /// Consensus round of the block.
    pub round: u64,
    /// Unix time in milliseconds at which the block was indexed.
    pub indexed_at_ms: u64,
    /// Certificate hash in hexadecimal.
    pub cert_hash: String,
    /// Intent hashes in commit order, in hexadecimal.
    pub tx_hashes: Vec<String>,
}

/// What an indexed block holds.
pub struct BlockModel {
    pub round: u64,
    pub indexed_at_ms: u64,
    pub cert_hash: Seq<char>,
    pub tx_hashes: Seq<Seq<char>>,
}

/// The texts that `v` holds.
pub open spec fn texts(v: Seq<String>) -> Seq<Seq<char>> {
    Seq::new(v.len(), |i: int| v[i]@)
}

impl View for IndexedBlock {
    type V = BlockModel;

    open spec fn view(&self) -> BlockModel {
        BlockModel {
            round: self.round,
            indexed_at_ms: self.indexed_at_ms,
            cert_hash: self.cert_hash@,
            tx_hashes: texts(self.tx_hashes@),
        }
    }
}

/// A copy of the texts in `v`.
pub(crate) fn copy_texts(v: &Vec<String>) -> (out: Vec<String>)
    ensures
        texts(out@) == texts(v@),
{
    let n: usize = v.len();
    let mut out: Vec<String> = Vec::new();
    let mut i: usize = 0;
    while i < n
        invariant
            i <= n,
            n == v@.len(),
            out@.len() == i,
            forall|j: int| 0 <= j < i ==> (#[trigger] out@[j])@ == v@[j]@,
        decreases n - i,
    {
        out.push(v[i].clone());
        i = i + 1;
    }
    assert(texts(out@) =~= texts(v@));
    out
}

impl Clone for IndexedBlock {
    fn clone(&self) -> (b: IndexedBlock)
        ensures
            b@ == self@,
    {
        IndexedBlock {
            round: self.round,
            indexed_at_ms: self.indexed_at_ms,
            cert_hash: self.cert_hash.clone(),
            tx_hashes: copy_texts(&self.tx_hashes),
        }
    }
}

/// What a store holds: the blocks by round, and the round of every transaction.
#[verifier::ext_equal]
pub struct StoreModel {
    pub blocks: Map<u64, BlockModel>,
    pub tx_index: Map<Seq<char>, u64>,
}

/// `index` with every one of `hashes` pointing to `round`.
pub open spec fn indexed(
    index: Map<Seq<char>, u64>,
    hashes: Seq<Seq<char>>,
    round: u64,
) -> Map<Seq<char>, u64> {
    Map::new(
        |h: Seq<char>| index.dom().contains(h) || hashes.contains(h),
        |h: Seq<char>|
            if hashes.contains(h) {
                round
            } else {
                index[h]
            },
    )
}

/// The store after a block came in. A round that is already there stays as it is.
pub open spec fn ingested(s: StoreModel, b: BlockModel) -> StoreModel {
    if s.blocks.dom().contains(b.round) {
        s
    } else {
        StoreModel {
            blocks: s.blocks.insert(b.round, b),
            tx_index: indexed(s.tx_index, b.tx_hashes, b.round),
        }
    }
}

/// The blocks among `rows` with a round in `[from, to]`.
pub open spec fn in_range(rows: Seq<(u64, BlockModel)>, from: u64, to: u64) -> Seq<BlockModel>
    decreases rows.len(),
{
    if rows.len() == 0 {
        seq![]
    } else if from <= rows.last().0 <= to {
        in_range(rows.drop_last(), from, to).push(rows.last().1)
    } else {
        in_range(rows.drop_last(), from, to)
    }
}

/// The first blocks, no more than one query gives.
pub open spec fn one_page(blocks: Seq<BlockModel>) -> Seq<BlockModel> {
    if blocks.len() > MAX_BLOCKS_PER_QUERY {
        blocks.take(MAX_BLOCKS_PER_QUERY as int)
    } else {
        blocks
    }
}

/// What the blocks of `v` hold.
pub open spec fn block_views(v: Seq<IndexedBlock>) -> Seq<BlockModel> {
    Seq::new(v.len(), |i: int| v[i]@)
}

/// A store of committed blocks.
pub trait Store {
    /// What the store holds.
    spec fn contents(&self) -> StoreModel;

    /// Adds a block. A round that is already there stays as it is.
    fn ingest_committed_block(&mut self, block: IndexedBlock)
        ensures
            final(self).contents() == ingested(old(self).contents(), block@),
    ;

    /// The highest round in the store.
    fn latest_round(&self) -> (r: Option<u64>)
        ensures
            match r {
                Some(top) => {
                    &&& self.contents().blocks.dom().contains(top)
                    &&& forall|k: u64| #[trigger]
                        self.contents().blocks.dom().contains(k) ==> k <= top
                },
                None => self.contents().blocks == Map::<u64, BlockModel>::empty(),
            },
    ;

    /// The block of a round.
    fn get_block(&self, round: u64) -> (r: Option<IndexedBlock>)
        ensures
            match r {
                Some(b) => self.contents().blocks.dom().contains(round) && b@
                    == self.contents().blocks[round],
                None => !self.contents().blocks.dom().contains(round),
            },
    ;

    /// The first blocks with a round in `[from, to]`, in ascending order.
    fn get_blocks(&self, from: u64, to: u64) -> (r: Vec<IndexedBlock>)
        requires
            from <= to,
        ensures
            block_views(r@) == one_page(
                in_range(sorted_rows(self.contents().blocks), from, to),
            ),
    ;

    /// The round whose block carries a transaction.
    fn round_of_tx(&self, hash: &str) -> (r: Option<u64>)
        ensures
            match r {
                Some(round) => self.contents().tx_index.dom().contains(hash@) && round
                    == self.contents().tx_index[hash@],
                None => !self.contents().tx_index.dom().contains(hash@),
            },
    ;
}

/// A store in memory.
pub struct InMemoryStore {
    blocks: OrderedMap<u64, IndexedBlock>,
    tx_index: StringHashMap<u64>,
}

impl InMemoryStore {
    /// An empty store.
    pub fn new() -> (s: InMemoryStore)
        ensures
            s.contents() == (StoreModel { blocks: Map::empty(), tx_index: Map::empty() }),
    {
        let s = InMemoryStore { blocks: OrderedMap::new(), tx_index: StringHashMap::new() };
        assert(s.contents() =~= StoreModel { blocks: Map::empty(), tx_index: Map::empty() });
        s
    }
}

impl Default for InMemoryStore {
    fn default() -> (s: InMemoryStore)
        ensures
            s.contents() == (StoreModel { blocks: Map::empty(), tx_index: Map::empty() }),
    {
        InMemoryStore::new()
    }
}

impl Store for InMemoryStore {
    closed spec fn contents(&self) -> StoreModel {
        StoreModel { blocks: value_views(self.blocks@), tx_index: self.tx_index@ }
    }

    fn ingest_committed_block(&mut self, block: IndexedBlock) {
        if self.blocks.contains_key(&block.round) {
            return;
        }
        let ghost start = self.tx_index@;
        let ghost hashes = texts(block.tx_hashes@);
        let n: usize = block.tx_hashes.len();
        let mut i: usize = 0;
        assert(start =~= indexed(start, hashes.take(0), block.round));
        while i < n
            invariant
                i <= n,
                n == block.tx_hashes@.len(),
                hashes == texts(block.tx_hashes@),
                self.blocks == old(self).blocks,
                self.tx_index@ == indexed(start, hashes.take(i as int), block.round),
            decreases n - i,
        {
            let hash = block.tx_hashes[i].clone();
            proof {
                let prev = hashes.take(i as int);
                let next = hashes.take(i + 1);
                assert(hash@ == hashes[i as int]);
                assert forall|h: Seq<char>| #[trigger] next.contains(h) <==> prev.contains(h) || h
                    == hash@ by {
                    if next.contains(h) {
                        let j = choose|j: int| 0 <= j < next.len() && next[j] == h;
                        if j < i {
                            assert(prev[j] == h);
                        }
                    }
                    if prev.contains(h) {
                        let j = choose|j: int| 0 <= j < prev.len() && prev[j] == h;
                        assert(next[j] == h);
                    }
                    assert(next[i as int] == hash@);
                }
                assert(indexed(start, prev, block.round).insert(hash@, block.round) =~= indexed(
                    start,
                    next,
                    block.round,
                ));
            }
            self.tx_index.insert(hash, block.round);
            i = i + 1;
        }
        assert(hashes.take(n as int) =~= hashes);
        let ghost b = block;
        let _ = self.blocks.insert(block.round, block);
        assert(value_views(self.blocks@) =~= value_views(old(self).blocks@).insert(b.round, b@));
    }

    fn latest_round(&self) -> (r: Option<u64>) {
        let rows = self.blocks.entries();
        let n: usize = rows.len();
        proof {
            lemma_rows_map_dom(rows@);
        }
        if n == 0 {
            assert(self.contents().blocks =~= Map::empty());
            None
        } else {
            let top: u64 = rows[n - 1].0;
            proof {
                assert(rows@[n - 1].0 == top);
                assert forall|k: u64| #[trigger]
                    self.contents().blocks.dom().contains(k) implies k <= top by {
                    assert(rows_map(rows@).dom().contains(k));
                    let j = choose|j: int| 0 <= j < rows@.len() && (#[trigger] rows@[j]).0 == k;
                    if j < n - 1 {
                        assert(rows@[j].0 < rows@[n - 1].0);
                    }
                }
            }
            Some(top)
        }
    }

    fn get_block(&self, round: u64) -> (r: Option<IndexedBlock>) {
        match self.blocks.get(&round) {
            Some(b) => Some(b.clone()),
            None => None,
        }
    }

    fn get_blocks(&self, from: u64, to: u64) -> (r: Vec<IndexedBlock>) {
        let rows = self.blocks.entries();
        let n: usize = rows.len();
        let ghost model = row_views(rows@);
        proof {
            lemma_view_rows(rows@);
        }
        let mut out: Vec<IndexedBlock> = Vec::new();
        let mut i: usize = 0;
        assert(block_views(out@) =~= one_page(in_range(model.take(0), from, to)));
        while i < n
            invariant
                i <= n,
                n == rows@.len(),
                model == row_views(rows@),
                block_views(out@) == one_page(in_range(model.take(i as int), from, to)),
            decreases n - i,
        {
            let round: u64 = rows[i].0;
            let ghost prev = in_range(model.take(i as int), from, to);
            proof {
                let next = model.take(i + 1);
                assert(next.drop_last() =~= model.take(i as int));
                assert(next.last() == model[i as int]);
            }
            if from <= round && round <= to {
                let ghost before = out@;
                proof {
                    assert(block_views(before).len() == before.len());
                    assert(in_range(model.take(i + 1), from, to) == prev.push(model[i as int].1));
                }
                if out.len() < MAX_BLOCKS_PER_QUERY {
                    let b = rows[i].1.clone();
                    out.push(b);
                    assert(block_views(out@) =~= block_views(before).push(model[i as int].1));
                } else {
                    assert(prev.push(model[i as int].1).take(MAX_BLOCKS_PER_QUERY as int)
                        =~= prev.take(MAX_BLOCKS_PER_QUERY as int));
                }
            }
            i = i + 1;
        }
        assert(model.take(n as int) =~= model);
        out
    }

    fn round_of_tx(&self, hash: &str) -> (r: Option<u64>) {
        match self.tx_index.get(hash) {
            Some(round) => Some(*round),
            None => None,
        }
    }
}

} // verus!
