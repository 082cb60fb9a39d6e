//! Burn proofs are accepted exactly where they lead through a tree of hashes.

use vstd::prelude::*;

use crate::bridge::{
    bit_weight, climb, inclusion, node_hash, padding_clear, sibling_at, sibling_left, BridgeError,
};
use crate::bytes::{field, lemma_array_of};

verus! {

/// A binary tree of hashes.
pub enum HashTree {
    /// A hash without anything below it.
    Leaf([u8; 32]),
    /// An inner node over its left and its right child.
    Node(Box<HashTree>, Box<HashTree>),
}

/// The hash at the top of a tree.
pub open spec fn top_hash(t: HashTree) -> [u8; 32]
    decreases t,
{
    match t {
        HashTree::Leaf(h) => h,
        HashTree::Node(left, right) => node_hash(top_hash(*left), top_hash(*right)),
    }
}

/// The hash that `turns` lead to, the topmost turn last: a turn goes to the right
/// child where it is set.
pub open spec fn hash_at(t: HashTree, turns: Seq<bool>) -> Option<[u8; 32]>
    decreases turns.len(),
{
    if turns.len() == 0 {
        Some(top_hash(t))
    } else {
        match t {
            HashTree::Leaf(_) => None,
            HashTree::Node(left, right) => if turns.last() {
                hash_at(*right, turns.drop_last())
            } else {
                hash_at(*left, turns.drop_last())
            },
        }
    }
}

/// The hash beside the way of `turns` at a level, counted from below.
pub open spec fn hash_beside(t: HashTree, turns: Seq<bool>, level: int) -> [u8; 32]
    decreases turns.len(),
{
    match t {
        HashTree::Leaf(h) => h,
        HashTree::Node(left, right) => if turns.len() == 0 || level >= turns.len() - 1 {
            if turns.len() > 0 && turns.last() {
                top_hash(*left)
            } else {
                top_hash(*right)
            }
        } else if turns.last() {
            hash_beside(*right, turns.drop_last(), level)
        } else {
            hash_beside(*left, turns.drop_last(), level)
        },
    }
}

/// Bit `level` of packed bits, eight to a byte, lowest first.
pub open spec fn packed_bit(bits: Seq<u8>, level: int) -> bool {
    (bits[level / 8] >> ((level % 8) as u8)) & 1 == 1
}

/// Whether `bits` are `turns` packed into as few bytes as hold them, with clear
/// bits after the last turn.
pub open spec fn packs(bits: Seq<u8>, turns: Seq<bool>) -> bool {
    &&& turns.len() <= 8 * bits.len() < turns.len() + 8
    &&& forall|level: int|
        0 <= level < turns.len() ==> #[trigger] packed_bit(bits, level) == turns[level]
    &&& forall|level: int|
        turns.len() <= level < 8 * bits.len() ==> !#[trigger] packed_bit(bits, level)
}

/// Whether `path` lists the hashes beside the way of `turns`, from below.
pub open spec fn lists_siblings(path: Seq<u8>, t: HashTree, turns: Seq<bool>) -> bool {
    &&& path.len() == 32 * turns.len()
    &&& forall|level: int|
        0 <= level < turns.len() ==> #[trigger] path.subrange(32 * level, 32 * level + 32)
            == hash_beside(t, turns, level)@
}

proof fn lemma_weights(b: u8, k: u8)
    requires
        k < 8,
    ensures
        (b as int / bit_weight(k as int)) % 2 == 1 <==> (b >> k) & 1 == 1,
        (b as int) < bit_weight(k as int) <==> b >> k == 0,
{
    assert(((b / 1) % 2 == 1) == ((b >> 0) & 1 == 1)) by (bit_vector);
    assert(((b / 2) % 2 == 1) == ((b >> 1) & 1 == 1)) by (bit_vector);
    assert(((b / 4) % 2 == 1) == ((b >> 2) & 1 == 1)) by (bit_vector);
    assert(((b / 8) % 2 == 1) == ((b >> 3) & 1 == 1)) by (bit_vector);
    assert(((b / 16) % 2 == 1) == ((b >> 4) & 1 == 1)) by (bit_vector);
    assert(((b / 32) % 2 == 1) == ((b >> 5) & 1 == 1)) by (bit_vector);
    assert(((b / 64) % 2 == 1) == ((b >> 6) & 1 == 1)) by (bit_vector);
    assert(((b / 128) % 2 == 1) == ((b >> 7) & 1 == 1)) by (bit_vector);
    assert((b < 1) == (b >> 0 == 0)) by (bit_vector);
    assert((b < 2) == (b >> 1 == 0)) by (bit_vector);
    assert((b < 4) == (b >> 2 == 0)) by (bit_vector);
    assert((b < 8) == (b >> 3 == 0)) by (bit_vector);
    assert((b < 16) == (b >> 4 == 0)) by (bit_vector);
    assert((b < 32) == (b >> 5 == 0)) by (bit_vector);
    assert((b < 64) == (b >> 6 == 0)) by (bit_vector);
    assert((b < 128) == (b >> 7 == 0)) by (bit_vector);
}

/// The sibling at a level is the left child exactly where the bit of that level
/// is set, counting eight bits to a byte, lowest first.
pub proof fn law_direction_bits_name_the_side(directions: Seq<u8>, level: int)
    requires
        0 <= level < 8 * directions.len(),
    ensures
        sibling_left(directions, level) <==> (directions[level / 8] >> ((level % 8) as u8)) & 1
            == 1,
{
    lemma_weights(directions[level / 8], (level % 8) as u8);
}

/// No bit above place `k` of a byte is set exactly where nothing is left of it
/// after a shift by `k`.
proof fn lemma_high_bits(b: u8, k: u8)
    requires
        0 < k < 8,
    ensures
        b >> k == 0 <==> forall|j: u8| k <= j < 8 ==> (#[trigger] (b >> j)) & 1 != 1,
{
    if b >> k == 0 {
        assert forall|j: u8| k <= j < 8 implies (#[trigger] (b >> j)) & 1 != 1 by {
            assert((b >> j) & 1 != 1) by (bit_vector)
                requires
                    b >> k == 0,
                    k <= j < 8,
            ;
        }
    } else {
        assert(k <= 1 && (b >> 1) & 1 == 1 || k <= 2 && (b >> 2) & 1 == 1 || k <= 3 && (b >> 3) & 1
            == 1 || k <= 4 && (b >> 4) & 1 == 1 || k <= 5 && (b >> 5) & 1 == 1 || k <= 6 && (b >> 6)
            & 1 == 1 || k <= 7 && (b >> 7) & 1 == 1) by (bit_vector)
            requires
                b >> k != 0,
                0 < k < 8,
        ;
    }
}

/// The bits past the last level count as clear exactly where each of them is.
pub proof fn law_padding_is_every_bit_past_the_last(directions: Seq<u8>, levels: int)
    requires
        0 <= levels,
        levels <= 8 * directions.len() < levels + 8,
    ensures
        padding_clear(directions, levels) <==> forall|level: int|
            levels <= level < 8 * directions.len() ==> !#[trigger] packed_bit(directions, level),
{
    let at = levels / 8;
    if levels % 8 != 0 {
        let b = directions[at];
        let k = (levels % 8) as u8;
        assert(directions.len() == at + 1);
        lemma_weights(b, k);
        lemma_high_bits(b, k);
        if b >> k == 0 {
            assert forall|level: int|
                levels <= level < 8 * directions.len() implies !#[trigger] packed_bit(
                directions,
                level,
            ) by {
                let j = (level % 8) as u8;
                assert(level / 8 == at);
                assert(k <= j < 8);
                assert((b >> j) & 1 != 1);
            }
        } else {
            let j = choose|j: u8| k <= j < 8 && (#[trigger] (b >> j)) & 1 == 1;
            let level = 8 * at + j;
            assert(level / 8 == at && level % 8 == j);
            assert(packed_bit(directions, level));
        }
    }
}

/// A climb goes from the hash that the turns lead to up to the top of the tree.
proof fn lemma_climb_goes_up(
    leaf: [u8; 32],
    path: Seq<u8>,
    directions: Seq<u8>,
    t: HashTree,
    turns: Seq<bool>,
)
    requires
        hash_at(t, turns) == Some(leaf),
        path.len() >= 32 * turns.len(),
        8 * directions.len() >= turns.len(),
        forall|level: int|
            0 <= level < turns.len() ==> #[trigger] path.subrange(32 * level, 32 * level + 32)
                == hash_beside(t, turns, level)@,
        forall|level: int|
            0 <= level < turns.len() ==> #[trigger] packed_bit(directions, level) == turns[level],
    ensures
        climb(leaf, path, directions, turns.len()) == top_hash(t),
    decreases turns.len(),
{
    if turns.len() > 0 {
        let rest = turns.drop_last();
        let last = turns.len() - 1;
        if let HashTree::Node(left, right) = t {
            let below = if turns.last() {
                *right
            } else {
                *left
            };
            let beside = hash_beside(t, turns, last);
            assert forall|level: int| 0 <= level < rest.len() implies #[trigger] path.subrange(
                32 * level,
                32 * level + 32,
            ) == hash_beside(below, rest, level)@ by {
                assert(hash_beside(t, turns, level) == hash_beside(below, rest, level));
            }
            assert forall|level: int| 0 <= level < rest.len() implies #[trigger] packed_bit(
                directions,
                level,
            ) == rest[level] by {
                assert(packed_bit(directions, level) == turns[level]);
            }
            lemma_climb_goes_up(leaf, path, directions, below, rest);
            assert(path.subrange(32 * last, 32 * last + 32) == beside@);
            lemma_array_of(beside);
            assert(field(path, last * 32, 32) == beside@);
            assert(sibling_at(path, last) == beside);
            law_direction_bits_name_the_side(directions, last);
            assert(packed_bit(directions, last) == turns[last]);
        }
    }
}

/// Every hash in a tree is proved under the top of the tree by the hashes beside
/// its way up, with the turns of the way as direction bits.
pub proof fn law_every_leaf_has_a_proof(
    t: HashTree,
    turns: Seq<bool>,
    leaf: [u8; 32],
    path: Seq<u8>,
    directions: Seq<u8>,
)
    requires
        hash_at(t, turns) == Some(leaf),
        lists_siblings(path, t, turns),
        packs(directions, turns),
    ensures
        inclusion(leaf, path, directions, top_hash(t)) is Ok,
{
    let levels = turns.len() as int;
    law_padding_is_every_bit_past_the_last(directions, levels);
    lemma_climb_goes_up(leaf, path, directions, t, turns);
}

/// The tree that a path of `levels` levels draws over `leaf`.
spec fn drawn(leaf: [u8; 32], path: Seq<u8>, directions: Seq<u8>, levels: nat) -> HashTree
    decreases levels,
{
    if levels == 0 {
        HashTree::Leaf(leaf)
    } else {
        let below = drawn(leaf, path, directions, (levels - 1) as nat);
        let beside = HashTree::Leaf(sibling_at(path, levels - 1));
        if sibling_left(directions, levels - 1) {
            HashTree::Node(Box::new(beside), Box::new(below))
        } else {
            HashTree::Node(Box::new(below), Box::new(beside))
        }
    }
}

spec fn turns_of(directions: Seq<u8>, levels: nat) -> Seq<bool> {
    Seq::new(levels, |level: int| sibling_left(directions, level))
}

proof fn lemma_drawn(leaf: [u8; 32], path: Seq<u8>, directions: Seq<u8>, levels: nat)
    requires
        32 * levels <= path.len(),
    ensures
        ({
            let t = drawn(leaf, path, directions, levels);
            let turns = turns_of(directions, levels);
            &&& top_hash(t) == climb(leaf, path, directions, levels)
            &&& hash_at(t, turns) == Some(leaf)
            &&& forall|level: int|
                0 <= level < levels ==> #[trigger] hash_beside(t, turns, level) == sibling_at(
                    path,
                    level,
                )
        }),
    decreases levels,
{
    if levels > 0 {
        let turns = turns_of(directions, levels);
        let fewer = (levels - 1) as nat;
        lemma_drawn(leaf, path, directions, fewer);
        assert(turns.drop_last() =~= turns_of(directions, fewer));
        let t = drawn(leaf, path, directions, levels);
        let below = drawn(leaf, path, directions, fewer);
        let beside = HashTree::Leaf(sibling_at(path, levels - 1));
        assert(top_hash(beside) == sibling_at(path, levels - 1));
        assert forall|level: int| 0 <= level < levels implies #[trigger] hash_beside(
            t,
            turns,
            level,
        ) == sibling_at(path, level) by {
            if level < fewer {
                assert(hash_beside(below, turns_of(directions, fewer), level) == sibling_at(
                    path,
                    level,
                ));
            }
        }
    }
}

/// A proof is accepted only where it lists the way through some tree with that
/// root, from the leaf up.
pub proof fn law_accepted_proofs_lead_through_a_tree(
    leaf: [u8; 32],
    siblings: Seq<[u8; 32]>,
    path: Seq<u8>,
    directions: Seq<u8>,
    root: [u8; 32],
) -> (way: (HashTree, Seq<bool>))
    requires
        path.len() == 32 * siblings.len(),
        forall|level: int|
            0 <= level < siblings.len() ==> #[trigger] path.subrange(32 * level, 32 * level + 32)
                == siblings[level]@,
        inclusion(leaf, path, directions, root) is Ok,
    ensures
        top_hash(way.0) == root,
        hash_at(way.0, way.1) == Some(leaf),
        lists_siblings(path, way.0, way.1),
        packs(directions, way.1),
{
    let levels = path.len() / 32;
    let t = drawn(leaf, path, directions, levels);
    let turns = turns_of(directions, levels);
    lemma_drawn(leaf, path, directions, levels);
    law_padding_is_every_bit_past_the_last(directions, levels as int);
    assert forall|level: int| 0 <= level < levels implies #[trigger] packed_bit(directions, level)
        == turns[level] by {
        law_direction_bits_name_the_side(directions, level);
    }
    assert forall|level: int| 0 <= level < levels implies #[trigger] path.subrange(
        32 * level,
        32 * level + 32,
    ) == hash_beside(t, turns, level)@ by {
        assert(hash_beside(t, turns, level) == sibling_at(path, level));
        lemma_array_of(siblings[level]);
        assert(path.subrange(32 * level, 32 * level + 32) == siblings[level]@);
        assert(field(path, level * 32, 32) == siblings[level]@);
    }
    (t, turns)
}

/// A proof that is not accepted is refused for its first flaw: a path that is not
/// made of digests, a wrong number of direction bytes, a bit set past the last
/// level, or another root.
pub proof fn law_flawed_proofs_are_named(
    leaf: [u8; 32],
    path: Seq<u8>,
    directions: Seq<u8>,
    root: [u8; 32],
)
    requires
        path.len() <= usize::MAX,
        directions.len() <= usize::MAX,
    ensures
        ({
            let r = inclusion(leaf, path, directions, root);
            let levels = path.len() / 32;
            let aligned = path.len() == 32 * levels;
            let sized = levels <= 8 * directions.len() < levels + 8;
            let clear = forall|level: int|
                levels <= level < 8 * directions.len() ==> !#[trigger] packed_bit(
                    directions,
                    level,
                );
            &&& !aligned <==> (r matches Err(BridgeError::MerklePathAlignment { got }) && got
                == path.len())
            &&& aligned && !sized <==> (r matches Err(
                BridgeError::PathDirectionsLength { expected, got },
            ) && levels <= 8 * expected < levels + 8 && got == directions.len())
            &&& aligned && sized && !clear <==> r == Err::<(), BridgeError>(
                BridgeError::PathDirectionsPadding,
            )
            &&& r is Ok || (aligned && sized && clear ==> r == Err::<(), BridgeError>(
                BridgeError::MerkleRootMismatch,
            ))
        }),
{
    let levels = (path.len() / 32) as int;
    if directions.len() == (levels + 7) / 8 {
        law_padding_is_every_bit_past_the_last(directions, levels);
    }
}

/// The hash of node `j` on a level of the full tree over `leaves`.
pub open spec fn level_hash(leaves: Seq<[u8; 32]>, level: nat, j: int) -> [u8; 32]
    decreases level,
{
    if level == 0 {
        leaves[j]
    } else {
        node_hash(
            level_hash(leaves, (level - 1) as nat, 2 * j),
            level_hash(leaves, (level - 1) as nat, 2 * j + 1),
        )
    }
}

/// The node beside node `j`.
pub open spec fn neighbour(j: int) -> int {
    if j % 2 == 0 {
        j + 1
    } else {
        j - 1
    }
}

proof fn lemma_halves(index: u64, level: u64)
    requires
        level < 63,
    ensures
        index >> ((level + 1) as u64) == (index >> level) / 2,
        (index >> level) & 1 == (index >> level) % 2,
{
    assert(index >> ((level + 1) as u64) == (index >> level) / 2) by (bit_vector)
        requires
            level < 63,
    ;
    assert((index >> level) & 1 == (index >> level) % 2) by (bit_vector);
}

proof fn lemma_index_climbs(
    leaves: Seq<[u8; 32]>,
    index: u64,
    path: Seq<u8>,
    directions: Seq<u8>,
    levels: u64,
)
    requires
        levels <= 63,
        32 * levels <= path.len(),
        levels <= 8 * directions.len(),
        forall|level: u64|
            level < levels ==> path.subrange(32 * level, 32 * level + 32) == level_hash(
                leaves,
                level as nat,
                neighbour((#[trigger] (index >> level)) as int),
            )@,
        forall|level: u64|
            level < levels ==> packed_bit(directions, level as int) == ((#[trigger] (index
                >> level)) & 1 == 1),
    ensures
        climb(leaves[index as int], path, directions, levels as nat) == level_hash(
            leaves,
            levels as nat,
            (index >> levels) as int,
        ),
    decreases levels,
{
    if levels == 0 {
        assert(index >> 0 == index) by (bit_vector);
    } else {
        let last = (levels - 1) as u64;
        lemma_index_climbs(leaves, index, path, directions, last);
        lemma_halves(index, last);
        let j = (index >> last) as int;
        let beside = level_hash(leaves, last as nat, neighbour(j));
        assert(path.subrange(32 * last, 32 * last + 32) == beside@);
        lemma_array_of(beside);
        assert(field(path, last * 32, 32) == beside@);
        law_direction_bits_name_the_side(directions, last as int);
    }
}

/// Every leaf of the full tree over `leaves` is proved under its root by the
/// hashes beside its way up, with the bits of its index as direction bits.
pub proof fn law_leaves_are_proved_by_their_index(
    leaves: Seq<[u8; 32]>,
    depth: u64,
    index: u64,
    path: Seq<u8>,
    directions: Seq<u8>,
)
    requires
        depth <= 63,
        index >> depth == 0,
        path.len() == 32 * depth,
        depth <= 8 * directions.len() < depth + 8,
        forall|level: u64|
            level < depth ==> path.subrange(32 * level, 32 * level + 32) == level_hash(
                leaves,
                level as nat,
                neighbour((#[trigger] (index >> level)) as int),
            )@,
        forall|level: u64|
            level < depth ==> packed_bit(directions, level as int) == ((#[trigger] (index
                >> level)) & 1 == 1),
        forall|level: int|
            depth <= level < 8 * directions.len() ==> !#[trigger] packed_bit(directions, level),
    ensures
        inclusion(
            leaves[index as int],
            path,
            directions,
            level_hash(leaves, depth as nat, 0),
        ) is Ok,
{
    law_padding_is_every_bit_past_the_last(directions, depth as int);
    lemma_index_climbs(leaves, index, path, directions, depth);
}

} // verus!
