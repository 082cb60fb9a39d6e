//! L1-L2 bridge: payload checks and burn inclusion.
//!
//! Payload checks catch malformed deposits and withdrawals before they are
//! submitted. Burn inclusion binds a withdrawal to a committed L2 state root: the
//! leaf hashes everything that identifies the burn, and the path climbs from the
//! leaf to the root, one 32-byte sibling per level. Direction bits are packed
//! eight to a byte, lowest bit first; a clear bit says that the sibling is the
//! right child.

use vstd::prelude::*;
use vstd::string::StringSliceAdditionalSpecFns;

use crate::burn_nullifier::{asset_bytes, push_asset};
use crate::bytes::{array_of, be_bytes, field, push_all, push_be, read_array, same_array};
use crate::hash::{digest, digest_of};
use crate::substrate::{Address, Balance};

verus! {

/// Longest path accepted, in bytes.
pub const MAX_MERKLE_PATH_BYTES: usize = 4096;

/// Deposits below this are not worth their fees.
pub const DUST_THRESHOLD_GSX: Balance = 100;

/// Domain tag of burn leaves.
pub const BURN_LEAF_DOMAIN: &'static str = "gsx-burn-leaf-v1";

/// Domain tag of inner nodes.
pub const BURN_NODE_DOMAIN: &'static str = "gsx-burn-node-v1";

/// What is wrong with a bridge payload or a burn proof.
#[derive(Debug, Clone, Copy, PartialEq, Eq, Structural)]
pub enum BridgeError {
    /// The amount is zero.
    ZeroAmount,
    /// The amount is below the dust threshold.
    BelowDustThreshold {
        /// Amount of the payload.
        amount: Balance,
        /// The threshold.
        threshold: Balance,
    },
    /// The path is empty.
    EmptyMerklePath,
    /// The path is too long.
    MerklePathTooLong {
        /// The longest accepted.
        max: usize,
        /// Its length.
        got: usize,
    },
    /// The path is not made of 32-byte digests.
    MerklePathAlignment {
        /// Its length.
        got: usize,
    },
    /// The direction bits do not match the number of levels.
    PathDirectionsLength {
        /// Bytes that the levels ask for.
        expected: usize,
        /// Bytes that are there.
        got: usize,
    },
    /// A direction bit past the last level is set.
    PathDirectionsPadding,
    /// The path does not lead to the committed root.
    MerkleRootMismatch,
}

/// A deposit that is about to be submitted.
#[derive(Debug, Clone, PartialEq, Eq)]
pub struct L1LockPayload {
    /// L1 address that pays.
    pub user_address: Address,
    /// L2 address that is credited.
    pub l2_recipient: Address,
    /// Amount to bridge.
    pub amount: Balance,
}

impl L1LockPayload {
    /// Checks the shape of the payload: an error where it must be rejected, a
    /// warning where it should be.
    pub fn validate(&self) -> (r: Result<Option<BridgeError>, BridgeError>)
        ensures
            r == (if self.amount == 0 {
                Err::<Option<BridgeError>, BridgeError>(BridgeError::ZeroAmount)
            } else if self.amount < DUST_THRESHOLD_GSX {
                Ok(
                    Some(
                        BridgeError::BelowDustThreshold {
                            amount: self.amount,
                            threshold: DUST_THRESHOLD_GSX,
                        },
                    ),
                )
            } else {
                Ok(None)
            }),
            r is Err <==> self.amount == 0,
            (r matches Ok(Some(_))) <==> 0 < self.amount < 100,
            (r matches Ok(None)) <==> self.amount >= 100,
    {
        if self.amount == 0 {
            return Err(BridgeError::ZeroAmount);
        }
        if self.amount < DUST_THRESHOLD_GSX {
            return Ok(
                Some(
                    BridgeError::BelowDustThreshold {
                        amount: self.amount,
                        threshold: DUST_THRESHOLD_GSX,
                    },
                ),
            );
        }
        Ok(None)
    }
}

/// A withdrawal that is about to be submitted.
#[derive(Debug, Clone, PartialEq, Eq)]
pub struct L2BurnProvenPayload {
    /// Batch whose state root proves the burn.
    pub batch_id: u64,
    /// L1 address that is paid.
    pub recipient: Address,
    /// Amount to unlock.
    pub amount: Balance,
    /// Siblings from the leaf upward.
    pub merkle_path: Vec<u8>,
}

impl L2BurnProvenPayload {
    /// Checks the shape of the payload.
    pub fn validate(&self) -> (r: Result<(), BridgeError>)
        ensures
            r == (if self.amount == 0 {
                Err::<(), BridgeError>(BridgeError::ZeroAmount)
            } else if self.merkle_path@.len() == 0 {
                Err(BridgeError::EmptyMerklePath)
            } else if self.merkle_path@.len() > MAX_MERKLE_PATH_BYTES {
                Err(
                    BridgeError::MerklePathTooLong {
                        max: MAX_MERKLE_PATH_BYTES,
                        got: self.merkle_path@.len() as usize,
                    },
                )
            } else if self.merkle_path@.len() % 32 != 0 {
                Err(BridgeError::MerklePathAlignment { got: self.merkle_path@.len() as usize })
            } else {
                Ok(())
            }),
            r is Ok <==> self.amount > 0 && 0 < self.merkle_path@.len() <= 4_096
                && self.merkle_path@.len() % 32 == 0,
    {
        let n: usize = self.merkle_path.len();
        if self.amount == 0 {
            return Err(BridgeError::ZeroAmount);
        }
        if n == 0 {
            return Err(BridgeError::EmptyMerklePath);
        }
        if n > MAX_MERKLE_PATH_BYTES {
            return Err(BridgeError::MerklePathTooLong { max: MAX_MERKLE_PATH_BYTES, got: n });
        }
        if n % 32 != 0 {
            return Err(BridgeError::MerklePathAlignment { got: n });
        }
        Ok(())
    }
}

/// Everything that identifies a burn.
#[derive(Debug, Clone, Copy)]
pub struct BurnLeaf<'a> {
    /// Chain identifier hash.
    pub l2_chain_id_hash: &'a [u8; 32],
    /// Batch identifier.
    pub batch_id: u64,
    /// L1 address that is paid.
    pub recipient: &'a Address,
    /// Amount burned.
    pub amount: Balance,
    /// Asset burned, the native one if absent.
    pub asset_id: Option<&'a [u8; 32]>,
}

/// What is hashed into a burn leaf.
pub open spec fn leaf_preimage(
    l2_chain_id_hash: [u8; 32],
    batch_id: u64,
    recipient: Address,
    amount: Balance,
    asset_id: Option<[u8; 32]>,
) -> Seq<u8> {
    BURN_LEAF_DOMAIN.spec_bytes() + l2_chain_id_hash@ + be_bytes(batch_id as nat, 8) + recipient@
        + be_bytes(amount as nat, 16) + asset_bytes(asset_id)
}

/// The hash of a burn leaf.
pub open spec fn leaf_hash(
    l2_chain_id_hash: [u8; 32],
    batch_id: u64,
    recipient: Address,
    amount: Balance,
    asset_id: Option<[u8; 32]>,
) -> [u8; 32] {
    digest_of(leaf_preimage(l2_chain_id_hash, batch_id, recipient, amount, asset_id))
}

impl BurnLeaf<'_> {
    /// The asset that the leaf names.
    pub open spec fn asset(self) -> Option<[u8; 32]> {
        match self.asset_id {
            Some(id) => Some(*id),
            None => None,
        }
    }

    /// The hash that the leaf stands for.
    pub open spec fn spec_hash(self) -> [u8; 32] {
        leaf_hash(
            *self.l2_chain_id_hash,
            self.batch_id,
            *self.recipient,
            self.amount,
            self.asset(),
        )
    }

    /// The hash of the leaf.
    pub fn hash(&self) -> (h: [u8; 32])
        ensures
            h == self.spec_hash(),
    {
        let asset: Option<[u8; 32]> = match self.asset_id {
            Some(id) => Some(*id),
            None => None,
        };
        let mut buf: Vec<u8> = Vec::new();
        push_all(&mut buf, BURN_LEAF_DOMAIN.as_bytes());
        push_all(&mut buf, self.l2_chain_id_hash.as_slice());
        push_be(&mut buf, self.batch_id as u128, 8);
        push_all(&mut buf, self.recipient.as_slice());
        push_be(&mut buf, self.amount, 16);
        push_asset(&mut buf, &asset);
        assert(buf@ =~= leaf_preimage(
            *self.l2_chain_id_hash,
            self.batch_id,
            *self.recipient,
            self.amount,
            self.asset(),
        ));
        digest(buf.as_slice())
    }
}

/// The hash of an inner node.
pub open spec fn node_hash(left: [u8; 32], right: [u8; 32]) -> [u8; 32] {
    digest_of(BURN_NODE_DOMAIN.spec_bytes() + left@ + right@)
}

/// The hash of an inner node over its two children.
pub fn hash_inner_node(left: &[u8; 32], right: &[u8; 32]) -> (h: [u8; 32])
    ensures
        h == node_hash(*left, *right),
{
    let mut buf: Vec<u8> = Vec::new();
    push_all(&mut buf, BURN_NODE_DOMAIN.as_bytes());
    push_all(&mut buf, left.as_slice());
    push_all(&mut buf, right.as_slice());
    assert(buf@ =~= BURN_NODE_DOMAIN.spec_bytes() + left@ + right@);
    digest(buf.as_slice())
}

/// The value of bit `k` of a byte.
pub open spec fn bit_weight(k: int) -> int {
    if k == 0 {
        1
    } else if k == 1 {
        2
    } else if k == 2 {
        4
    } else if k == 3 {
        8
    } else if k == 4 {
        16
    } else if k == 5 {
        32
    } else if k == 6 {
        64
    } else {
        128
    }
}

/// Whether the direction bit of a level is set: the sibling is the left child.
pub open spec fn sibling_left(directions: Seq<u8>, level: int) -> bool {
    (directions[level / 8] as int / bit_weight(level % 8)) % 2 == 1
}

/// The sibling at a level.
pub open spec fn sibling_at(path: Seq<u8>, level: int) -> [u8; 32] {
    array_of::<32>(field(path, level * 32, 32))
}

/// The hash reached from `leaf` after the first `levels` levels.
pub open spec fn climb(leaf: [u8; 32], path: Seq<u8>, directions: Seq<u8>, levels: nat) -> [u8; 32]
    decreases levels,
{
    if levels == 0 {
        leaf
    } else {
        let below = climb(leaf, path, directions, (levels - 1) as nat);
        let sibling = sibling_at(path, levels - 1);
        if sibling_left(directions, levels - 1) {
            node_hash(sibling, below)
        } else {
            node_hash(below, sibling)
        }
    }
}

/// Whether all direction bits past the last level are clear.
pub open spec fn padding_clear(directions: Seq<u8>, levels: int) -> bool {
    levels % 8 == 0 || directions[levels / 8] < bit_weight(levels % 8)
}

/// What is wrong with a burn proof, if anything.
pub open spec fn inclusion(
    leaf: [u8; 32],
    path: Seq<u8>,
    directions: Seq<u8>,
    root: [u8; 32],
) -> Result<(), BridgeError> {
    let levels = (path.len() / 32) as int;
    if path.len() % 32 != 0 {
        Err(BridgeError::MerklePathAlignment { got: path.len() as usize })
    } else if directions.len() != (levels + 7) / 8 {
        Err(
            BridgeError::PathDirectionsLength {
                expected: ((levels + 7) / 8) as usize,
                got: directions.len() as usize,
            },
        )
    } else if !padding_clear(directions, levels) {
        Err(BridgeError::PathDirectionsPadding)
    } else if climb(leaf, path, directions, levels as nat) != root {
        Err(BridgeError::MerkleRootMismatch)
    } else {
        Ok(())
    }
}

fn weight_of(k: usize) -> (w: u8)
    requires
        k < 8,
    ensures
        w == bit_weight(k as int),
{
    match k {
        0 => 1,
        1 => 2,
        2 => 4,
        3 => 8,
        4 => 16,
        5 => 32,
        6 => 64,
        _ => 128,
    }
}

/// Checks that a burn is included under `root`.
pub fn verify_burn_inclusion(
    leaf: &BurnLeaf,
    path: &[u8],
    directions: &[u8],
    root: &[u8; 32],
) -> (r: Result<(), BridgeError>)
    ensures
        r == inclusion(leaf.spec_hash(), path@, directions@, *root),
{
    let n: usize = path.len();
    if n % 32 != 0 {
        return Err(BridgeError::MerklePathAlignment { got: n });
    }
    let levels: usize = n / 32;
    let expected: usize = (levels + 7) / 8;
    if directions.len() != expected {
        return Err(BridgeError::PathDirectionsLength { expected, got: directions.len() });
    }
    if levels % 8 != 0 && directions[levels / 8] >= weight_of(levels % 8) {
        return Err(BridgeError::PathDirectionsPadding);
    }
    let mut h: [u8; 32] = leaf.hash();
    let mut i: usize = 0;
    while i < levels
        invariant
            i <= levels,
            levels * 32 == n,
            n == path@.len(),
            directions@.len() == (levels + 7) / 8,
            h == climb(leaf.spec_hash(), path@, directions@, i as nat),
        decreases levels - i,
    {
        let sibling: [u8; 32] = read_array::<32>(path, i * 32);
        let bit: u8 = (directions[i / 8] / weight_of(i % 8)) % 2;
        if bit == 1 {
            h = hash_inner_node(&sibling, &h);
        } else {
            h = hash_inner_node(&h, &sibling);
        }
        i = i + 1;
    }
    if same_array(&h, root) {
        Ok(())
    } else {
        Err(BridgeError::MerkleRootMismatch)
    }
}

} // verus!
