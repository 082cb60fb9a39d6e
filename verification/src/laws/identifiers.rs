//! Identifiers tell apart what they stand for, short of a digest collision.

use vstd::prelude::*;
use vstd::string::StringSliceAdditionalSpecFns;

use crate::asset_registry::{asset_preimage, ASSET_DOMAIN};
use crate::bridge::{
    climb, inclusion, leaf_hash, leaf_preimage, node_hash, sibling_at, sibling_left,
    BURN_LEAF_DOMAIN, BURN_NODE_DOMAIN,
};
use crate::burn_nullifier::{asset_bytes, burn_id_of, burn_preimage, BURN_DOMAIN};
use crate::bytes::{be_bytes, lemma_be_bytes_len, lemma_be_limits, lemma_be_round_trip};
use crate::force_include::{obligation_preimage, OBLIGATION_DOMAIN};
use crate::hash::digest_of;
use crate::laws::roots::collide;
use crate::substrate::{Address, Balance};

verus! {

proof fn lemma_number_bytes(a: nat, b: nat, width: nat)
    requires
        a < crate::bytes::be_limit(width),
        b < crate::bytes::be_limit(width),
        be_bytes(a, width) == be_bytes(b, width),
    ensures
        a == b,
{
    lemma_be_round_trip(a, width);
    lemma_be_round_trip(b, width);
}

proof fn lemma_asset_bytes(a: Option<[u8; 32]>, b: Option<[u8; 32]>)
    requires
        asset_bytes(a) == asset_bytes(b),
    ensures
        a == b,
{
    assert(asset_bytes(a).len() == asset_bytes(b).len());
    match (a, b) {
        (Some(x), Some(y)) => {
            assert(asset_bytes(a).subrange(1, 33) =~= x@);
            assert(asset_bytes(b).subrange(1, 33) =~= y@);
            assert(x =~= y);
        },
        (None, None) => {},
        (Some(x), None) => {
            assert(asset_bytes(a).len() == 33);
        },
        (None, Some(y)) => {
            assert(asset_bytes(b).len() == 33);
        },
    }
}

/// Burns that differ in their chain, batch, recipient, amount, path or asset have
/// different ids, unless two different inputs have the same digest.
pub proof fn law_burn_ids_tell_burns_apart(
    chain: [u8; 32],
    batch: u64,
    to: Address,
    amount: Balance,
    path: Seq<u8>,
    asset: Option<[u8; 32]>,
    chain2: [u8; 32],
    batch2: u64,
    to2: Address,
    amount2: Balance,
    path2: Seq<u8>,
    asset2: Option<[u8; 32]>,
)
    requires
        path.len() <= u32::MAX,
        path2.len() <= u32::MAX,
        burn_id_of(chain, batch, to, amount, path, asset) == burn_id_of(
            chain2,
            batch2,
            to2,
            amount2,
            path2,
            asset2,
        ),
    ensures
        (chain == chain2 && batch == batch2 && to == to2 && amount == amount2 && path == path2
            && asset == asset2) || exists|x: Seq<u8>, y: Seq<u8>| collide(x, y),
{
    let x = burn_preimage(chain, batch, to, amount, path, asset);
    let y = burn_preimage(chain2, batch2, to2, amount2, path2, asset2);
    if x != y {
        assert(collide(x, y));
    } else {
        let d = BURN_DOMAIN.spec_bytes().len() as int;
        let n = path.len() as int;
        lemma_be_limits();
        lemma_be_bytes_len(batch as nat, 8);
        lemma_be_bytes_len(batch2 as nat, 8);
        lemma_be_bytes_len(amount as nat, 16);
        lemma_be_bytes_len(amount2 as nat, 16);
        lemma_be_bytes_len(path.len(), 4);
        lemma_be_bytes_len(path2.len(), 4);
        assert(x.subrange(d, d + 32) =~= chain@);
        assert(y.subrange(d, d + 32) =~= chain2@);
        assert(chain =~= chain2);
        assert(x.subrange(d + 32, d + 40) =~= be_bytes(batch as nat, 8));
        assert(y.subrange(d + 32, d + 40) =~= be_bytes(batch2 as nat, 8));
        lemma_number_bytes(batch as nat, batch2 as nat, 8);
        assert(x.subrange(d + 40, d + 60) =~= to@);
        assert(y.subrange(d + 40, d + 60) =~= to2@);
        assert(to =~= to2);
        assert(x.subrange(d + 60, d + 76) =~= be_bytes(amount as nat, 16));
        assert(y.subrange(d + 60, d + 76) =~= be_bytes(amount2 as nat, 16));
        lemma_number_bytes(amount as nat, amount2 as nat, 16);
        assert(x.subrange(d + 76, d + 80) =~= be_bytes(path.len(), 4));
        assert(y.subrange(d + 76, d + 80) =~= be_bytes(path2.len(), 4));
        lemma_number_bytes(path.len(), path2.len(), 4);
        assert(x.subrange(d + 80, d + 80 + n) =~= path);
        assert(y.subrange(d + 80, d + 80 + n) =~= path2);
        assert(x.subrange(d + 80 + n, x.len() as int) =~= asset_bytes(asset));
        assert(y.subrange(d + 80 + n, y.len() as int) =~= asset_bytes(asset2));
        lemma_asset_bytes(asset, asset2);
    }
}

/// Obligations that differ in their transaction, deadline, submitter or nonce have
/// different ids, unless two different inputs have the same digest.
pub proof fn law_obligation_ids_tell_obligations_apart(
    tx: Seq<u8>,
    deadline: u64,
    submitter: Address,
    nonce: u64,
    tx2: Seq<u8>,
    deadline2: u64,
    submitter2: Address,
    nonce2: u64,
)
    requires
        tx.len() <= u32::MAX,
        tx2.len() <= u32::MAX,
        digest_of(obligation_preimage(tx, deadline, submitter, nonce)) == digest_of(
            obligation_preimage(tx2, deadline2, submitter2, nonce2),
        ),
    ensures
        (tx == tx2 && deadline == deadline2 && submitter == submitter2 && nonce == nonce2)
            || exists|x: Seq<u8>, y: Seq<u8>| collide(x, y),
{
    let x = obligation_preimage(tx, deadline, submitter, nonce);
    let y = obligation_preimage(tx2, deadline2, submitter2, nonce2);
    if x != y {
        assert(collide(x, y));
    } else {
        let d = OBLIGATION_DOMAIN.spec_bytes().len() as int;
        let n = tx.len() as int;
        lemma_be_limits();
        lemma_be_bytes_len(tx.len(), 4);
        lemma_be_bytes_len(tx2.len(), 4);
        lemma_be_bytes_len(deadline as nat, 8);
        lemma_be_bytes_len(deadline2 as nat, 8);
        lemma_be_bytes_len(nonce as nat, 8);
        lemma_be_bytes_len(nonce2 as nat, 8);
        assert(x.subrange(d, d + 4) =~= be_bytes(tx.len(), 4));
        assert(y.subrange(d, d + 4) =~= be_bytes(tx2.len(), 4));
        lemma_number_bytes(tx.len(), tx2.len(), 4);
        assert(x.subrange(d + 4, d + 4 + n) =~= tx);
        assert(y.subrange(d + 4, d + 4 + n) =~= tx2);
        assert(x.subrange(d + 4 + n, d + 12 + n) =~= be_bytes(deadline as nat, 8));
        assert(y.subrange(d + 4 + n, d + 12 + n) =~= be_bytes(deadline2 as nat, 8));
        lemma_number_bytes(deadline as nat, deadline2 as nat, 8);
        assert(x.subrange(d + 12 + n, d + 32 + n) =~= submitter@);
        assert(y.subrange(d + 12 + n, d + 32 + n) =~= submitter2@);
        assert(submitter =~= submitter2);
        assert(x.subrange(d + 32 + n, d + 40 + n) =~= be_bytes(nonce as nat, 8));
        assert(y.subrange(d + 32 + n, d + 40 + n) =~= be_bytes(nonce2 as nat, 8));
        lemma_number_bytes(nonce as nat, nonce2 as nat, 8);
    }
}

/// Assets of different chains or contracts have different ids, unless two
/// different inputs have the same digest.
pub proof fn law_asset_ids_tell_assets_apart(
    chain: u64,
    contract: Seq<u8>,
    chain2: u64,
    contract2: Seq<u8>,
)
    requires
        contract.len() <= u32::MAX,
        contract2.len() <= u32::MAX,
        digest_of(asset_preimage(chain, contract)) == digest_of(
            asset_preimage(chain2, contract2),
        ),
    ensures
        (chain == chain2 && contract == contract2) || exists|x: Seq<u8>, y: Seq<u8>| collide(
            x,
            y,
        ),
{
    let x = asset_preimage(chain, contract);
    let y = asset_preimage(chain2, contract2);
    if x != y {
        assert(collide(x, y));
    } else {
        let d = ASSET_DOMAIN.spec_bytes().len() as int;
        let n = contract.len() as int;
        lemma_be_limits();
        lemma_be_bytes_len(chain as nat, 8);
        lemma_be_bytes_len(chain2 as nat, 8);
        lemma_be_bytes_len(contract.len(), 4);
        lemma_be_bytes_len(contract2.len(), 4);
        assert(x.subrange(d, d + 8) =~= be_bytes(chain as nat, 8));
        assert(y.subrange(d, d + 8) =~= be_bytes(chain2 as nat, 8));
        lemma_number_bytes(chain as nat, chain2 as nat, 8);
        assert(x.subrange(d + 8, d + 12) =~= be_bytes(contract.len(), 4));
        assert(y.subrange(d + 8, d + 12) =~= be_bytes(contract2.len(), 4));
        lemma_number_bytes(contract.len(), contract2.len(), 4);
        assert(x.subrange(d + 12, d + 12 + n) =~= contract);
        assert(y.subrange(d + 12, d + 12 + n) =~= contract2);
    }
}

/// Burn leaves that differ in their chain, batch, recipient, amount or asset have
/// different hashes, unless two different inputs have the same digest.
pub proof fn law_leaves_tell_burns_apart(
    chain: [u8; 32],
    batch: u64,
    to: Address,
    amount: Balance,
    asset: Option<[u8; 32]>,
    chain2: [u8; 32],
    batch2: u64,
    to2: Address,
    amount2: Balance,
    asset2: Option<[u8; 32]>,
)
    requires
        leaf_hash(chain, batch, to, amount, asset) == leaf_hash(
            chain2,
            batch2,
            to2,
            amount2,
            asset2,
        ),
    ensures
        (chain == chain2 && batch == batch2 && to == to2 && amount == amount2 && asset == asset2)
            || exists|x: Seq<u8>, y: Seq<u8>| collide(x, y),
{
    let x = leaf_preimage(chain, batch, to, amount, asset);
    let y = leaf_preimage(chain2, batch2, to2, amount2, asset2);
    if x != y {
        assert(collide(x, y));
    } else {
        let d = BURN_LEAF_DOMAIN.spec_bytes().len() as int;
        lemma_be_limits();
        lemma_be_bytes_len(batch as nat, 8);
        lemma_be_bytes_len(batch2 as nat, 8);
        lemma_be_bytes_len(amount as nat, 16);
        lemma_be_bytes_len(amount2 as nat, 16);
        assert(x.subrange(d, d + 32) =~= chain@);
        assert(y.subrange(d, d + 32) =~= chain2@);
        assert(chain =~= chain2);
        assert(x.subrange(d + 32, d + 40) =~= be_bytes(batch as nat, 8));
        assert(y.subrange(d + 32, d + 40) =~= be_bytes(batch2 as nat, 8));
        lemma_number_bytes(batch as nat, batch2 as nat, 8);
        assert(x.subrange(d + 40, d + 60) =~= to@);
        assert(y.subrange(d + 40, d + 60) =~= to2@);
        assert(to =~= to2);
        assert(x.subrange(d + 60, d + 76) =~= be_bytes(amount as nat, 16));
        assert(y.subrange(d + 60, d + 76) =~= be_bytes(amount2 as nat, 16));
        lemma_number_bytes(amount as nat, amount2 as nat, 16);
        assert(x.subrange(d + 76, x.len() as int) =~= asset_bytes(asset));
        assert(y.subrange(d + 76, y.len() as int) =~= asset_bytes(asset2));
        lemma_asset_bytes(asset, asset2);
    }
}

proof fn lemma_nodes(a: [u8; 32], b: [u8; 32], a2: [u8; 32], b2: [u8; 32])
    requires
        node_hash(a, b) == node_hash(a2, b2),
    ensures
        (a == a2 && b == b2) || exists|x: Seq<u8>, y: Seq<u8>| collide(x, y),
{
    let d = BURN_NODE_DOMAIN.spec_bytes();
    let x = d + a@ + b@;
    let y = d + a2@ + b2@;
    if x != y {
        assert(collide(x, y));
    } else {
        let n = d.len() as int;
        assert(x.subrange(n, n + 32) =~= a@);
        assert(y.subrange(n, n + 32) =~= a2@);
        assert(x.subrange(n + 32, n + 64) =~= b@);
        assert(y.subrange(n + 32, n + 64) =~= b2@);
        assert(a =~= a2);
        assert(b =~= b2);
    }
}

proof fn lemma_climbs(
    leaf: [u8; 32],
    other: [u8; 32],
    path: Seq<u8>,
    directions: Seq<u8>,
    levels: nat,
)
    requires
        climb(leaf, path, directions, levels) == climb(other, path, directions, levels),
    ensures
        leaf == other || exists|x: Seq<u8>, y: Seq<u8>| collide(x, y),
    decreases levels,
{
    if levels > 0 {
        let m = (levels - 1) as nat;
        let a = climb(leaf, path, directions, m);
        let b = climb(other, path, directions, m);
        let s = sibling_at(path, levels - 1);
        if sibling_left(directions, levels - 1) {
            lemma_nodes(s, a, s, b);
        } else {
            lemma_nodes(a, s, b, s);
        }
        if a == b {
            lemma_climbs(leaf, other, path, directions, m);
        }
    }
}

/// One path and one root prove the inclusion of one leaf only, unless two
/// different inputs have the same digest.
pub proof fn law_paths_prove_one_leaf(
    leaf: [u8; 32],
    other: [u8; 32],
    path: Seq<u8>,
    directions: Seq<u8>,
    root: [u8; 32],
)
    requires
        inclusion(leaf, path, directions, root) is Ok,
        inclusion(other, path, directions, root) is Ok,
    ensures
        leaf == other || exists|x: Seq<u8>, y: Seq<u8>| collide(x, y),
{
    lemma_climbs(leaf, other, path, directions, path.len() / 32);
}

} // verus!
