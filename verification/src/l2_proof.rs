//! Gates on the proof of an L2 batch.
//!
//! A proof must have the right shape before it is worth a pairing check. The
//! check itself is made by the host, which hands in what it found.

use vstd::prelude::*;

use crate::bytes::{array_of, be_value, field, same_array, zero_hash};

verus! {

/// Bytes of a proof.
pub const L2_PROOF_BYTES: usize = 260;

/// Bytes of the public inputs.
pub const L2_PUBLIC_INPUT_BYTES: usize = 240;

/// Where the data-availability commitment stands in the public inputs.
pub const DA_COMMITMENT_OFFSET: usize = 72;

/// Where the L1 anchor height stands in the public inputs.
pub const L1_ANCHOR_HEIGHT_OFFSET: usize = 104;

/// Where the chain identifier hash stands in the public inputs.
pub const L2_CHAIN_ID_HASH_OFFSET: usize = 176;

/// What is said of a proof of the wrong length.
pub const PROOF_LENGTH_REASON: &'static str = "proof must be 260 bytes";

/// What is said of public inputs of the wrong length.
pub const PUBLIC_INPUTS_LENGTH_REASON: &'static str = "public inputs must be 240 bytes";

/// What is said of an unset verifying key.
pub const VK_HASH_UNSET_REASON: &'static str = "vk_hash must not be all zeros";

/// The data-availability commitment in the public inputs.
pub open spec fn da_commitment(public_inputs: Seq<u8>) -> [u8; 32] {
    array_of::<32>(field(public_inputs, DA_COMMITMENT_OFFSET as int, 32))
}

/// The L1 anchor height in the public inputs.
pub open spec fn l1_anchor_height(public_inputs: Seq<u8>) -> u64 {
    be_value(field(public_inputs, L1_ANCHOR_HEIGHT_OFFSET as int, 8)) as u64
}

/// The chain identifier hash in the public inputs.
pub open spec fn l2_chain_id_hash(public_inputs: Seq<u8>) -> [u8; 32] {
    array_of::<32>(field(public_inputs, L2_CHAIN_ID_HASH_OFFSET as int, 32))
}

/// What is wrong with the shape of a proof, if anything.
pub open spec fn format_flaw(
    proof_bytes: Seq<u8>,
    public_inputs: Seq<u8>,
    vk_hash: [u8; 32],
) -> Option<&'static str> {
    if proof_bytes.len() != L2_PROOF_BYTES {
        Some(PROOF_LENGTH_REASON)
    } else if public_inputs.len() != L2_PUBLIC_INPUT_BYTES {
        Some(PUBLIC_INPUTS_LENGTH_REASON)
    } else if vk_hash == zero_hash() {
        Some(VK_HASH_UNSET_REASON)
    } else {
        None
    }
}

/// Why a batch is rejected, if it is: the flaw in its shape, or else what the
/// pairing check said.
pub open spec fn rejection(
    proof_bytes: Seq<u8>,
    public_inputs: Seq<u8>,
    vk_hash: [u8; 32],
    verdict: Result<(), Seq<char>>,
) -> Option<Seq<char>> {
    match format_flaw(proof_bytes, public_inputs, vk_hash) {
        Some(flaw) => Some(flaw@),
        None => match verdict {
            Ok(_) => None,
            Err(reason) => Some(reason),
        },
    }
}

/// What a verdict says.
pub open spec fn verdict_view(verdict: Result<(), String>) -> Result<(), Seq<char>> {
    match verdict {
        Ok(_) => Ok(()),
        Err(reason) => Err(reason@),
    }
}

/// Checks the shape of a proof.
pub fn check_format(proof_bytes: &[u8], public_inputs: &[u8], vk_hash: &[u8; 32]) -> (r: Option<
    &'static str,
>)
    ensures
        r == format_flaw(proof_bytes@, public_inputs@, *vk_hash),
{
    if proof_bytes.len() != L2_PROOF_BYTES {
        return Some(PROOF_LENGTH_REASON);
    }
    if public_inputs.len() != L2_PUBLIC_INPUT_BYTES {
        return Some(PUBLIC_INPUTS_LENGTH_REASON);
    }
    if same_array(vk_hash, &zero_hash()) {
        return Some(VK_HASH_UNSET_REASON);
    }
    None
}

/// Decides on a batch: its shape first, then what the pairing check said.
pub fn verify_l2_batch(
    proof_bytes: &[u8],
    public_inputs: &[u8],
    vk_hash: &[u8; 32],
    verdict: &Result<(), String>,
) -> (r: Result<(), String>)
    ensures
        match r {
            Ok(_) => rejection(
                proof_bytes@,
                public_inputs@,
                *vk_hash,
                verdict_view(*verdict),
            ) is None,
            Err(e) => rejection(proof_bytes@, public_inputs@, *vk_hash, verdict_view(*verdict))
                == Some(e@),
        },
        r is Ok ==> public_inputs@.len() == L2_PUBLIC_INPUT_BYTES,
{
    match check_format(proof_bytes, public_inputs, vk_hash) {
        Some(flaw) => Err(flaw.to_owned()),
        None => match verdict {
            Ok(_) => Ok(()),
            Err(reason) => Err(reason.clone()),
        },
    }
}

} // verus!
