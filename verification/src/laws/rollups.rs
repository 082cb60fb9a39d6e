//! L2 batches: what a commit needs, what it leaves, and what a burn claim needs.

use vstd::prelude::*;

use crate::apply::{applied, no_evidence, noted};
use crate::bridge::{inclusion, leaf_hash};
use crate::error::ExecutionError;
use crate::findings::ProofId;
use crate::intent::Intent;
use crate::l2_proof::{da_commitment, format_flaw, l1_anchor_height, l2_chain_id_hash};
use crate::l2_state::{ChainVks, L2BatchKey, L2StateRootRecord, L2View};
use crate::laws::registries::{l2_fits, law_l2_registry_reads_back};
use crate::ledger::Ledger;
use crate::reserved;
use crate::rollup::{bridge_gate, burn_step, commit_step, l2_contents, l2_or_empty, pin_step};
use crate::substrate::{Address, Balance};

verus! {

/// A commit succeeds only with a well-formed proof that passed its pairing, under
/// the verifying key that is pinned for the chain of its public inputs.
pub proof fn law_commits_need_a_proof_under_the_pinned_key(
    l: Ledger,
    batch_id: u64,
    root: [u8; 32],
    proof_bytes: Seq<u8>,
    inputs: Seq<u8>,
    vk: [u8; 32],
    verdict: Result<(), Seq<char>>,
)
    ensures
        commit_step(l, batch_id, root, proof_bytes, inputs, vk, verdict).answer is Ok <==> {
            &&& format_flaw(proof_bytes, inputs, vk) is None
            &&& verdict is Ok
            &&& l2_contents(l) matches Ok(v) && v.vks(
                l2_chain_id_hash(inputs),
            ).aggregation_vk_hash == vk
        },
{
}

/// A batch whose proof the host has said nothing of is not committed, and nothing
/// changes.
pub proof fn law_nothing_is_committed_without_evidence(l: Ledger, intent: Intent)
    requires
        intent is CommitL2StateRoot,
    ensures
        applied(l, intent, no_evidence()).answer is Err,
        applied(l, intent, no_evidence()).ledger == l,
{
}

/// The registry after a commit.
pub open spec fn after_commit(v: L2View, batch_id: u64, root: [u8; 32], inputs: Seq<u8>, vk: [u8;
    32]) -> L2View {
    L2View {
        state_roots: v.state_roots.insert(
            L2BatchKey { l2_chain_id_hash: l2_chain_id_hash(inputs), batch_id },
            L2StateRootRecord {
                state_root: root,
                committed_at_l1_height: l1_anchor_height(inputs),
                vk_hash: vk,
                da_commitment: da_commitment(inputs),
            },
        ),
        ..v
    }
}

/// A batch is committed under the key that is pinned for its chain. It is found
/// under its chain and number with what its public inputs say, and all other batches
/// and all pinned keys stay.
pub proof fn law_commits_are_read_back(
    l: Ledger,
    v: L2View,
    batch_id: u64,
    root: [u8; 32],
    proof_bytes: Seq<u8>,
    inputs: Seq<u8>,
    vk: [u8; 32],
    verdict: Result<(), Seq<char>>,
)
    requires
        l2_contents(l) == Ok::<L2View, ExecutionError>(v),
        l2_fits(after_commit(v, batch_id, root, inputs, vk)),
        commit_step(l, batch_id, root, proof_bytes, inputs, vk, verdict).answer is Ok,
    ensures
        l2_or_empty(
            commit_step(l, batch_id, root, proof_bytes, inputs, vk, verdict).ledger,
        ) == after_commit(v, batch_id, root, inputs, vk),
        v.vks(l2_chain_id_hash(inputs)).aggregation_vk_hash == vk,
{
    law_l2_registry_reads_back(l, after_commit(v, batch_id, root, inputs, vk));
}

/// A commit goes by what was found of its own proof: it succeeds exactly where the
/// proof is well-formed, its pairing was found to hold, and its key is the one that
/// is pinned for the chain. It is then found under its chain and number with what its
/// public inputs say, and all other batches stay. Otherwise nothing changes.
pub proof fn law_commits_follow_the_findings(l: Ledger, intent: Intent)
    requires
        intent is CommitL2StateRoot,
    ensures
        match intent {
            Intent::CommitL2StateRoot {
                batch_id,
                new_state_root,
                proof_bytes,
                public_inputs,
                vk_hash,
            } => {
                let s = applied(l, intent, noted(l, intent));
                let p = ProofId {
                    proof_bytes: proof_bytes@,
                    public_inputs: public_inputs@,
                    vk_hash,
                };
                let next = after_commit(
                    l2_or_empty(l),
                    batch_id,
                    new_state_root,
                    public_inputs@,
                    vk_hash,
                );
                &&& s.answer is Ok <==> {
                    &&& format_flaw(proof_bytes@, public_inputs@, vk_hash) is None
                    &&& l.pairings.dom().contains(p)
                    &&& l.pairings[p] is Ok
                    &&& l2_contents(l) matches Ok(v) && v.vks(
                        l2_chain_id_hash(public_inputs@),
                    ).aggregation_vk_hash == vk_hash
                }
                &&& s.answer is Ok && l2_fits(next) ==> l2_or_empty(s.ledger) == next
                &&& s.answer is Err ==> s.ledger == l
            },
            _ => true,
        },
{
    match intent {
        Intent::CommitL2StateRoot {
            batch_id,
            new_state_root,
            proof_bytes,
            public_inputs,
            vk_hash,
        } => {
            let verdict = noted(l, intent).pairing;
            let (proof, inputs) = (proof_bytes@, public_inputs@);
            let s = commit_step(l, batch_id, new_state_root, proof, inputs, vk_hash, verdict);
            law_commits_need_a_proof_under_the_pinned_key(
                l,
                batch_id,
                new_state_root,
                proof,
                inputs,
                vk_hash,
                verdict,
            );
            if s.answer is Ok && l2_fits(
                after_commit(l2_or_empty(l), batch_id, new_state_root, inputs, vk_hash),
            ) {
                law_commits_are_read_back(
                    l,
                    l2_or_empty(l),
                    batch_id,
                    new_state_root,
                    proof,
                    inputs,
                    vk_hash,
                    verdict,
                );
            }
        },
        _ => {},
    }
}

/// A rotation replaces the keys of its chain and of no other, and leaves all
/// committed batches.
pub proof fn law_rotations_touch_one_chain(
    l: Ledger,
    v: L2View,
    chain: [u8; 32],
    vk: [u8; 32],
    range: [u8; 32],
    other: [u8; 32],
)
    requires
        l2_contents(l) == Ok::<L2View, ExecutionError>(v),
        l2_fits(
            L2View {
                chain_vks: v.chain_vks.insert(
                    chain,
                    ChainVks { aggregation_vk_hash: vk, range_vk_commitment: range },
                ),
                ..v
            },
        ),
        pin_step(l, chain, vk, range).answer is Ok,
    ensures
        ({
            let w = l2_or_empty(pin_step(l, chain, vk, range).ledger);
            &&& w.vks(chain) == (ChainVks {
                aggregation_vk_hash: vk,
                range_vk_commitment: range,
            })
            &&& other != chain ==> w.vks(other) == v.vks(other)
            &&& w.state_roots == v.state_roots
        }),
{
    law_l2_registry_reads_back(
        l,
        L2View {
            chain_vks: v.chain_vks.insert(
                chain,
                ChainVks { aggregation_vk_hash: vk, range_vk_commitment: range },
            ),
            ..v
        },
    );
}

/// After a rotation the key that was pinned before no longer commits batches of
/// the chain.
pub proof fn law_old_keys_commit_nothing(
    l: Ledger,
    v: L2View,
    vk: [u8; 32],
    range: [u8; 32],
    batch_id: u64,
    root: [u8; 32],
    proof_bytes: Seq<u8>,
    inputs: Seq<u8>,
    old_vk: [u8; 32],
    verdict: Result<(), Seq<char>>,
)
    requires
        l2_contents(l) == Ok::<L2View, ExecutionError>(v),
        l2_fits(
            L2View {
                chain_vks: v.chain_vks.insert(
                    l2_chain_id_hash(inputs),
                    ChainVks { aggregation_vk_hash: vk, range_vk_commitment: range },
                ),
                ..v
            },
        ),
        pin_step(l, l2_chain_id_hash(inputs), vk, range).answer is Ok,
        old_vk != vk,
    ensures
        ({
            let l2 = pin_step(l, l2_chain_id_hash(inputs), vk, range).ledger;
            let s = commit_step(l2, batch_id, root, proof_bytes, inputs, old_vk, verdict);
            s.answer is Err && s.ledger == l2
        }),
{
    law_rotations_touch_one_chain(
        l,
        v,
        l2_chain_id_hash(inputs),
        vk,
        range,
        l2_chain_id_hash(inputs),
    );
}

/// A burn is paid only to a user account, out of a committed batch, for an asset
/// that the bridge accepts, and with a valid inclusion proof unless the host
/// vouches for it. Otherwise not even the claim is recorded.
pub proof fn law_burns_need_a_committed_batch(
    l: Ledger,
    batch_id: u64,
    to: Address,
    amount: Balance,
    path: Seq<u8>,
    directions: Seq<u8>,
    asset: Option<[u8; 32]>,
    chain: [u8; 32],
    vouched: bool,
)
    requires
        amount != 0,
    ensures
        ({
            let s = burn_step(l, batch_id, to, amount, path, directions, asset, chain, vouched);
            let key = L2BatchKey { l2_chain_id_hash: chain, batch_id };
            let roots = l2_or_empty(l).state_roots;
            s.ledger == l || {
                &&& !reserved::is_reserved(&to)
                &&& bridge_gate(l, asset) is Ok
                &&& roots.dom().contains(key)
                &&& vouched || inclusion(
                    leaf_hash(chain, batch_id, to, amount, asset),
                    path,
                    directions,
                    roots[key].state_root,
                ) is Ok
            }
        }),
{
}

} // verus!
