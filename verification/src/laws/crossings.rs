//! What the bridge, the rollup and the asset listings are answered, and what they
//! leave in their registries.

use vstd::prelude::*;

use crate::apply::{applied, EvidenceView};
use crate::asset_registry::{
    asset_preimage, lemma_parsed_assets_fit, AssetStatus, AssetView,
};
use crate::assets::{asset_gate, listed};
use crate::bridge::{inclusion, leaf_hash};
use crate::burn_nullifier::{burn_id_of, NullifierTable};
use crate::bytes::{
    be_value, field, lemma_array_of, lemma_be_limits, lemma_be_value_bound, zero_hash,
};
use crate::da_anchor_registry::AnchorTable;
use crate::error::{ErrorView, ExecutionError};
use crate::hash::digest_of;
use crate::intent::Intent;
use crate::l2_proof::{da_commitment, l1_anchor_height, l2_chain_id_hash};
use crate::l2_state::{L2BatchKey, L2StateRootRecord, L2View};
use crate::laws::answers::only_paid;
use crate::laws::payments::{
    at, can_pay, law_payment_moves_the_amount, law_payments_need_funds,
};
use crate::laws::registries::{
    l2_fits, law_anchors_read_back, law_assets_read_back, law_claims_read_back,
    law_l2_registry_reads_back,
};
use crate::laws::stake::lemma_row_added;
use crate::ledger::{refused, Ledger};
use crate::ordered::unit_map;
use crate::reserved;
use crate::rollup::{anchors, bridge_gate, claimed, l2_contents};
use crate::substrate::{Address, Balance};
use crate::table::{has_room, lemma_parsed_table_fits};

verus! {

/// Whether the bridge takes an asset: the native one always, any other where it is
/// listed and active.
pub open spec fn crosses(l: Ledger, asset_id: Option<[u8; 32]>) -> bool {
    asset_id matches Some(id) ==> (listed(l) matches Ok(m) && m.dom().contains(id) && m[id].status
        == AssetStatus::Active)
}

/// The bridge accepts an asset exactly where it is listed and active.
/// Otherwise it is refused as unknown or with its status.
pub proof fn law_active_assets_cross(l: Ledger, asset_id: Option<[u8; 32]>)
    ensures
        bridge_gate(l, asset_id) is Ok <==> crosses(l, asset_id),
        asset_id matches Some(id) ==> {
            &&& bridge_gate(l, asset_id) == asset_gate(l, id)
            &&& listed(l) is Err || !listed(l)->Ok_0.dom().contains(id) ==> asset_gate(l, id)
                == Err::<(), ExecutionError>(
                ExecutionError::BridgeAssetNotFound { asset_id: id },
            )
            &&& listed(l) matches Ok(m) ==> (m.dom().contains(id) && m[id].status
                != AssetStatus::Active ==> asset_gate(l, id) == Err::<(), ExecutionError>(
                ExecutionError::BridgeAssetNotActive { asset_id: id, status: m[id].status },
            ))
        },
{
}

/// A lock succeeds exactly where the bridge takes the asset and the user can pay
/// the amount into the escrow. It moves the amount and changes nothing else,
/// whoever is to be credited on the other side.
pub proof fn law_locks_are_answered(
    l: Ledger,
    user_address: Address,
    l2_recipient: Address,
    amount: Balance,
    asset_id: Option<[u8; 32]>,
    evidence: EvidenceView,
)
    ensures
        ({
            let s = applied(
                l,
                Intent::L1Lock { user_address, l2_recipient, amount, asset_id },
                evidence,
            );
            let escrow = reserved::bridge_escrow_address();
            &&& s.answer is Ok <==> amount == 0 || crosses(l, asset_id) && can_pay(
                l.balances,
                user_address,
                escrow,
                amount,
            )
            &&& s.answer is Ok ==> only_paid(l, s, user_address, escrow, amount as int)
            &&& s.answer is Err ==> s.ledger == l
            &&& crosses(l, asset_id) && l.balance(user_address) < amount ==> s == refused(
                l,
                ExecutionError::InsufficientBalance {
                    from: user_address,
                    have: l.balance(user_address),
                    need: amount,
                },
            )
        }),
{
    let escrow = reserved::bridge_escrow_address();
    let e = ExecutionError::DistributionOverflow { to: escrow };
    law_payments_need_funds(l.balances, user_address, escrow, amount, e);
    law_payment_moves_the_amount(l.balances, user_address, escrow, amount, e);
}

/// A claim on a burn is paid exactly where the recipient is a user, the bridge
/// takes the asset, the batch is committed, the burn is proved under its state
/// root, it was not claimed before, the escrow holds the amount and the recipient
/// can hold it too. It moves the amount out of the escrow.
pub proof fn law_burns_are_answered(
    l: Ledger,
    batch_id: u64,
    recipient: Address,
    amount: Balance,
    merkle_path: Vec<u8>,
    path_directions: Vec<u8>,
    asset_id: Option<[u8; 32]>,
    chain: [u8; 32],
    evidence: EvidenceView,
)
    ensures
        ({
            let s = applied(
                l,
                Intent::L2BurnProven {
                    batch_id,
                    recipient,
                    amount,
                    merkle_path,
                    path_directions,
                    asset_id,
                    l2_chain_id_hash: chain,
                },
                evidence,
            );
            let escrow = reserved::bridge_escrow_address();
            let key = L2BatchKey { l2_chain_id_hash: chain, batch_id };
            let id = burn_id_of(chain, batch_id, recipient, amount, merkle_path@, asset_id);
            let proved = l2_contents(l) matches Ok(v) && v.state_roots.dom().contains(key) && (
            evidence.burn_included || inclusion(
                leaf_hash(chain, batch_id, recipient, amount, asset_id),
                merkle_path@,
                path_directions@,
                v.state_roots[key].state_root,
            ) is Ok);
            let fresh = claimed(l) matches Ok(c) && !c.contains(id);
            let user = !reserved::is_reserved(&recipient);
            &&& s.answer is Ok <==> amount == 0 || user && crosses(l, asset_id) && proved && fresh
                && l.balance(escrow) >= amount && l.balance(recipient) + amount <= Balance::MAX
            &&& s.answer is Ok ==> forall|x: Address| #[trigger]
                s.ledger.balance(x) == l.balance(x) - at(x, escrow, amount as int) + at(
                    x,
                    recipient,
                    amount as int,
                )
            &&& s.answer is Err ==> s.ledger.balances == l.balances
            &&& s.answer is Err && s.ledger != l ==> user && crosses(l, asset_id) && proved && fresh
                && l.balance(escrow) < amount
            &&& amount == 0 ==> s.ledger == l
            &&& amount != 0 && !user ==> s == refused(
                l,
                ExecutionError::ReservedAddressTransferDenied { addr: recipient },
            )
            &&& amount != 0 && user && crosses(l, asset_id) && !(l2_contents(l) matches Ok(v)
                && v.state_roots.dom().contains(key)) ==> s == refused(
                l,
                ExecutionError::L2BatchNotCommitted { l2_chain_id_hash: chain, batch_id },
            )
            &&& amount != 0 && user ==> (bridge_gate(l, asset_id) matches Err(e) ==> s == refused(
                l,
                e,
            ))
            &&& amount != 0 && user && crosses(l, asset_id) && !evidence.burn_included ==> (
            l2_contents(l) matches Ok(v) ==> (v.state_roots.dom().contains(key) ==> (inclusion(
                leaf_hash(chain, batch_id, recipient, amount, asset_id),
                merkle_path@,
                path_directions@,
                v.state_roots[key].state_root,
            ) matches Err(reason) ==> s == refused(
                l,
                ExecutionError::L2BurnMerkleProofRejected { reason },
            ))))
            &&& user && crosses(l, asset_id) && proved && fresh && l.balance(escrow) < amount
                ==> s.answer == Err::<(), ErrorView>(
                ErrorView::Plain(
                    ExecutionError::InsufficientBalance {
                        from: escrow,
                        have: l.balance(escrow),
                        need: amount,
                    },
                ),
            )
            &&& amount != 0 && user && crosses(l, asset_id) && proved && (claimed(l) matches Ok(c)
                && c.contains(id)) ==> s == refused(
                l,
                ExecutionError::L2BurnAlreadyClaimed { burn_id: id },
            )
        }),
{
    let escrow = reserved::bridge_escrow_address();
    let e = ExecutionError::DistributionOverflow { to: recipient };
    reveal(reserved::protocol_owned);
    assert(reserved::is_reserved(&escrow));
    law_active_assets_cross(l, asset_id);
    law_payments_need_funds(l.balances, escrow, recipient, amount, e);
    law_payment_moves_the_amount(l.balances, escrow, recipient, amount, e);
}

/// A claim is recorded where it is paid, and also where only the escrow is short of
/// the amount. Every other burn stays claimed or unclaimed as it was, and no other
/// record changes. Any other claim changes nothing.
pub proof fn law_burns_are_recorded(
    l: Ledger,
    c: Set<[u8; 32]>,
    batch_id: u64,
    recipient: Address,
    amount: Balance,
    merkle_path: Vec<u8>,
    path_directions: Vec<u8>,
    asset_id: Option<[u8; 32]>,
    chain: [u8; 32],
    evidence: EvidenceView,
)
    requires
        claimed(l) == Ok::<Set<[u8; 32]>, ExecutionError>(c),
        has_room::<NullifierTable>(unit_map(c)),
        amount != 0,
    ensures
        ({
            let s = applied(
                l,
                Intent::L2BurnProven {
                    batch_id,
                    recipient,
                    amount,
                    merkle_path,
                    path_directions,
                    asset_id,
                    l2_chain_id_hash: chain,
                },
                evidence,
            );
            let id = burn_id_of(chain, batch_id, recipient, amount, merkle_path@, asset_id);
            let registry = reserved::burn_nullifier_registry_address();
            let escrow = reserved::bridge_escrow_address();
            let key = L2BatchKey { l2_chain_id_hash: chain, batch_id };
            let proved = l2_contents(l) matches Ok(v) && v.state_roots.dom().contains(key) && (
            evidence.burn_included || inclusion(
                leaf_hash(chain, batch_id, recipient, amount, asset_id),
                merkle_path@,
                path_directions@,
                v.state_roots[key].state_root,
            ) is Ok);
            let recorded = !reserved::is_reserved(&recipient) && crosses(l, asset_id) && proved
                && !c.contains(id) && (l.balance(escrow) < amount || l.balance(recipient) + amount
                <= Balance::MAX);
            &&& !recorded ==> s.ledger == l && s.answer is Err
            &&& recorded ==> {
                &&& claimed(s.ledger) matches Ok(d) && forall|other: [u8; 32]| #[trigger]
                    d.contains(other) <==> other == id || c.contains(other)
                &&& forall|a: Address| a != registry ==> #[trigger] s.ledger.record(a) == l.record(
                    a,
                )
                &&& s.ledger.height == l.height
            }
        }),
{
    let id = burn_id_of(chain, batch_id, recipient, amount, merkle_path@, asset_id);
    let m = unit_map(c);
    lemma_parsed_table_fits::<NullifierTable>(
        l.record(reserved::burn_nullifier_registry_address()),
    );
    assert(m.dom() =~= c);
    lemma_row_added::<NullifierTable>(m, id, ());
    assert(m.insert(id, ()) =~= unit_map(c.insert(id)));
    law_claims_read_back(l, c.insert(id));
    reveal(reserved::protocol_owned);
    assert(reserved::is_reserved(&reserved::bridge_escrow_address()));
    law_active_assets_cross(l, asset_id);
}

/// A batch is committed exactly where its proof has 260 bytes, its public inputs
/// have 240, the key is not all zeros, the pairing holds, and the key is the one
/// that is pinned for the chain named in bytes 176 to 207 of the public inputs.
/// Otherwise nothing changes.
pub proof fn law_commits_are_answered(
    l: Ledger,
    batch_id: u64,
    new_state_root: [u8; 32],
    proof_bytes: Vec<u8>,
    public_inputs: Vec<u8>,
    vk_hash: [u8; 32],
    chain: [u8; 32],
    evidence: EvidenceView,
)
    requires
        chain@ == public_inputs@.subrange(176, 208),
    ensures
        ({
            let s = applied(
                l,
                Intent::CommitL2StateRoot {
                    batch_id,
                    new_state_root,
                    proof_bytes,
                    public_inputs,
                    vk_hash,
                },
                evidence,
            );
            let formed = proof_bytes@.len() == 260 && public_inputs@.len() == 240 && vk_hash
                != zero_hash();
            &&& s.answer is Ok <==> {
                &&& formed
                &&& evidence.pairing is Ok
                &&& l2_contents(l) matches Ok(v) && v.chain_vks.dom().contains(chain)
                    && v.chain_vks[chain].aggregation_vk_hash == vk_hash
            }
            &&& s.answer is Err ==> s.ledger == l
            &&& s.ledger.balances == l.balances
            &&& proof_bytes@.len() != 260 ==> s.answer == Err::<(), ErrorView>(
                ErrorView::VerifierRejected("proof must be 260 bytes"@),
            )
            &&& proof_bytes@.len() == 260 && public_inputs@.len() != 240 ==> s.answer == Err::<
                (),
                ErrorView,
            >(ErrorView::VerifierRejected("public inputs must be 240 bytes"@))
            &&& proof_bytes@.len() == 260 && public_inputs@.len() == 240 && vk_hash == zero_hash()
                ==> s.answer == Err::<(), ErrorView>(
                ErrorView::VerifierRejected("vk_hash must not be all zeros"@),
            )
            &&& formed && evidence.pairing is Ok ==> (l2_contents(l) matches Err(e) ==> s
                == refused(l, e))
            &&& formed && evidence.pairing is Ok ==> (l2_contents(l) matches Ok(v) ==> (
            !v.chain_vks.dom().contains(chain) ==> s == refused(
                l,
                ExecutionError::L2VkPinMismatch { expected: zero_hash(), got: vk_hash },
            )))
            &&& formed ==> (evidence.pairing matches Err(reason) ==> s.answer == Err::<
                (),
                ErrorView,
            >(ErrorView::VerifierRejected(reason)))
            &&& formed && evidence.pairing is Ok ==> (l2_contents(l) matches Ok(v) ==> (
            v.chain_vks.dom().contains(chain) && v.chain_vks[chain].aggregation_vk_hash != vk_hash
                ==> s == refused(
                l,
                ExecutionError::L2VkPinMismatch {
                    expected: v.chain_vks[chain].aggregation_vk_hash,
                    got: vk_hash,
                },
            )))
        }),
{
    lemma_array_of(chain);
    assert(field(public_inputs@, 176, 32) == chain@);
}

/// The key that counts as unset is the one of 32 zero bytes.
pub proof fn law_unset_keys_are_zero(vk_hash: [u8; 32])
    requires
        forall|i: int| 0 <= i < 32 ==> #[trigger] vk_hash@[i] == 0,
    ensures
        vk_hash == zero_hash(),
{
    lemma_array_of(vk_hash);
    assert(vk_hash@ =~= Seq::new(32, |i: int| 0u8));
}

/// A committed batch is found under the chain in bytes 176 to 207 of its public
/// inputs and its number, with its state root, its key, the data commitment in
/// bytes 72 to 103 and the L1 height in bytes 104 to 111. All other batches, all
/// pinned keys and all other records stay.
pub proof fn law_commits_are_found(
    l: Ledger,
    v: L2View,
    batch_id: u64,
    new_state_root: [u8; 32],
    proof_bytes: Vec<u8>,
    public_inputs: Vec<u8>,
    vk_hash: [u8; 32],
    chain: [u8; 32],
    commitment: [u8; 32],
    evidence: EvidenceView,
)
    requires
        l2_contents(l) == Ok::<L2View, ExecutionError>(v),
        chain@ == public_inputs@.subrange(176, 208),
        commitment@ == public_inputs@.subrange(72, 104),
        l2_fits(
            L2View {
                state_roots: v.state_roots.insert(
                    L2BatchKey { l2_chain_id_hash: chain, batch_id },
                    L2StateRootRecord {
                        state_root: new_state_root,
                        committed_at_l1_height: be_value(
                            public_inputs@.subrange(104, 112),
                        ) as u64,
                        vk_hash,
                        da_commitment: commitment,
                    },
                ),
                ..v
            },
        ),
    ensures
        ({
            let s = applied(
                l,
                Intent::CommitL2StateRoot {
                    batch_id,
                    new_state_root,
                    proof_bytes,
                    public_inputs,
                    vk_hash,
                },
                evidence,
            );
            let key = L2BatchKey { l2_chain_id_hash: chain, batch_id };
            s.answer is Ok ==> {
                &&& l2_contents(s.ledger) matches Ok(w) && {
                    &&& w.chain_vks == v.chain_vks
                    &&& w.state_roots.dom().contains(key)
                    &&& w.state_roots[key].state_root == new_state_root
                    &&& w.state_roots[key].committed_at_l1_height == be_value(
                        public_inputs@.subrange(104, 112),
                    )
                    &&& w.state_roots[key].vk_hash == vk_hash
                    &&& w.state_roots[key].da_commitment == commitment
                    &&& forall|other: L2BatchKey|
                        other != key ==> #[trigger] w.state_roots.dom().contains(other)
                            == v.state_roots.dom().contains(other)
                    &&& forall|other: L2BatchKey| #[trigger]
                        v.state_roots.dom().contains(other) && other != key
                            ==> w.state_roots[other] == v.state_roots[other]
                }
                &&& forall|a: Address|
                    a != reserved::l2_registry_address() ==> #[trigger] s.ledger.record(a)
                        == l.record(a)
                &&& s.ledger.height == l.height
            }
        }),
{
    let inputs = public_inputs@;
    lemma_array_of(chain);
    lemma_array_of(commitment);
    assert(field(inputs, 176, 32) == chain@);
    assert(field(inputs, 72, 32) == commitment@);
    assert(l2_chain_id_hash(inputs) == chain);
    assert(da_commitment(inputs) == commitment);
    let s = applied(
        l,
        Intent::CommitL2StateRoot { batch_id, new_state_root, proof_bytes, public_inputs, vk_hash },
        evidence,
    );
    if s.answer is Ok {
        let part = field(inputs, 104, 8);
        lemma_be_value_bound(part);
        lemma_be_limits();
        assert(l1_anchor_height(inputs) == be_value(part));
        let w = L2View {
            state_roots: v.state_roots.insert(
                L2BatchKey { l2_chain_id_hash: chain, batch_id },
                L2StateRootRecord {
                    state_root: new_state_root,
                    committed_at_l1_height: be_value(part) as u64,
                    vk_hash,
                    da_commitment: commitment,
                },
            ),
            ..v
        };
        law_l2_registry_reads_back(l, w);
    }
}

/// A rotation succeeds exactly where not both keys are all zeros and the registry
/// can be read. It pins both keys for its chain; all other chains, all batches and
/// all other records stay.
pub proof fn law_rotations_are_answered(
    l: Ledger,
    chain_id_hash: [u8; 32],
    new_aggregation_vk: [u8; 32],
    new_range_commitment: [u8; 32],
    evidence: EvidenceView,
)
    ensures
        ({
            let s = applied(
                l,
                Intent::SetL2VerifyingKey {
                    chain_id_hash,
                    new_aggregation_vk,
                    new_range_commitment,
                },
                evidence,
            );
            let both_zero = new_aggregation_vk == zero_hash() && new_range_commitment
                == zero_hash();
            &&& s.answer is Ok <==> !both_zero && l2_contents(l) is Ok
            &&& both_zero ==> s == refused(l, ExecutionError::SetL2VkAllZeros)
            &&& s.answer is Err ==> s.ledger == l
            &&& s.ledger.balances == l.balances
            &&& s.ledger.height == l.height
            &&& forall|a: Address|
                a != reserved::l2_registry_address() ==> #[trigger] s.ledger.record(a) == l.record(
                    a,
                )
        }),
{
}

/// An anchor is set exactly where the registry can be read and the batch has none.
pub proof fn law_anchors_are_answered(
    l: Ledger,
    batch_id: u64,
    da_blob: Vec<u8>,
    chain: [u8; 32],
    evidence: EvidenceView,
)
    ensures
        ({
            let s = applied(
                l,
                Intent::PostL2DAv2 { batch_id, da_blob, l2_chain_id_hash: chain },
                evidence,
            );
            let key = L2BatchKey { l2_chain_id_hash: chain, batch_id };
            &&& s.answer is Ok <==> (anchors(l) matches Ok(m) && !m.dom().contains(key))
            &&& s.answer is Err ==> s.ledger == l
            &&& s.ledger.balances == l.balances
            &&& anchors(l) matches Ok(m) ==> (m.dom().contains(key) ==> s == refused(
                l,
                ExecutionError::DaAnchorAlreadyRecorded { l2_chain_id_hash: chain, batch_id },
            ))
        }),
{
}

/// An anchor is the digest of the blob, found under its chain and batch; all other
/// anchors and all other records stay.
pub proof fn law_anchors_are_found(
    l: Ledger,
    m: Map<L2BatchKey, [u8; 32]>,
    batch_id: u64,
    da_blob: Vec<u8>,
    chain: [u8; 32],
    evidence: EvidenceView,
)
    requires
        anchors(l) == Ok::<Map<L2BatchKey, [u8; 32]>, ExecutionError>(m),
        has_room::<AnchorTable>(m),
    ensures
        ({
            let s = applied(
                l,
                Intent::PostL2DAv2 { batch_id, da_blob, l2_chain_id_hash: chain },
                evidence,
            );
            let key = L2BatchKey { l2_chain_id_hash: chain, batch_id };
            let registry = reserved::da_anchor_registry_address();
            s.answer is Ok ==> {
                &&& anchors(s.ledger) matches Ok(n) && {
                    &&& n.dom().contains(key) && n[key] == digest_of(da_blob@)
                    &&& forall|other: L2BatchKey|
                        other != key ==> #[trigger] n.dom().contains(other) == m.dom().contains(
                            other,
                        )
                    &&& forall|other: L2BatchKey| #[trigger]
                        m.dom().contains(other) && other != key ==> n[other] == m[other]
                }
                &&& forall|a: Address| a != registry ==> #[trigger] s.ledger.record(a) == l.record(
                    a,
                )
                &&& s.ledger.height == l.height
            }
        }),
{
    let key = L2BatchKey { l2_chain_id_hash: chain, batch_id };
    let h = digest_of(da_blob@);
    lemma_parsed_table_fits::<AnchorTable>(l.record(reserved::da_anchor_registry_address()));
    lemma_row_added::<AnchorTable>(m, key, h);
    law_anchors_read_back(l, m.insert(key, h));
}

/// An asset is listed exactly where its contract and name have at most 64 bytes,
/// its symbol at most 16, the registry can be read, and its id is free.
pub proof fn law_listings_are_answered(
    l: Ledger,
    source_chain: u64,
    source_contract: Vec<u8>,
    decimals: u8,
    name: Vec<u8>,
    symbol: Vec<u8>,
    evidence: EvidenceView,
)
    ensures
        ({
            let s = applied(
                l,
                Intent::AddBridgeAsset { source_chain, source_contract, decimals, name, symbol },
                evidence,
            );
            let id = digest_of(asset_preimage(source_chain, source_contract@));
            let short = source_contract@.len() <= 64 && name@.len() <= 64 && symbol@.len() <= 16;
            &&& s.answer is Ok <==> short && (listed(l) matches Ok(m) && !m.dom().contains(id))
            &&& s.answer is Err ==> s.ledger == l
            &&& s.ledger.balances == l.balances
            &&& short ==> (listed(l) matches Ok(m) ==> (m.dom().contains(id) ==> s == refused(
                l,
                ExecutionError::BridgeAssetAlreadyRegistered { asset_id: id },
            )))
            &&& short ==> (listed(l) matches Err(e) ==> s == refused(l, e))
            &&& source_contract@.len() > 64 ==> s == refused(
                l,
                ExecutionError::BridgeAssetFieldTooLong {
                    field: "source_contract",
                    got: source_contract@.len() as usize,
                    max: 64,
                },
            )
            &&& source_contract@.len() <= 64 && name@.len() > 64 ==> s == refused(
                l,
                ExecutionError::BridgeAssetFieldTooLong {
                    field: "name",
                    got: name@.len() as usize,
                    max: 64,
                },
            )
            &&& source_contract@.len() <= 64 && name@.len() <= 64 && symbol@.len() > 16 ==> s
                == refused(
                l,
                ExecutionError::BridgeAssetFieldTooLong {
                    field: "symbol",
                    got: symbol@.len() as usize,
                    max: 16,
                },
            )
        }),
{
}

/// Whether asset `id` became `asset`, and nothing else of the records changed.
pub open spec fn only_asset_set(
    l: Ledger,
    l2: Ledger,
    m: Map<[u8; 32], AssetView>,
    id: [u8; 32],
    asset: AssetView,
) -> bool {
    &&& l2.height == l.height
    &&& l2.balances == l.balances
    &&& forall|a: Address|
        a != reserved::asset_registry_address() ==> #[trigger] l2.record(a) == l.record(a)
    &&& listed(l2) matches Ok(n) && {
        &&& forall|other: [u8; 32]| #[trigger]
            n.dom().contains(other) <==> other == id || m.dom().contains(other)
        &&& forall|other: [u8; 32]| #[trigger]
            m.dom().contains(other) && other != id ==> n[other] == m[other]
        &&& n[id] == asset
    }
}

/// A listed asset is active and says what was given for it; all other assets and
/// all other records stay.
pub proof fn law_listings_are_found(
    l: Ledger,
    m: Map<[u8; 32], AssetView>,
    source_chain: u64,
    source_contract: Vec<u8>,
    decimals: u8,
    name: Vec<u8>,
    symbol: Vec<u8>,
    evidence: EvidenceView,
)
    requires
        listed(l) == Ok::<Map<[u8; 32], AssetView>, ExecutionError>(m),
        m.dom().len() < u32::MAX,
    ensures
        ({
            let s = applied(
                l,
                Intent::AddBridgeAsset { source_chain, source_contract, decimals, name, symbol },
                evidence,
            );
            s.answer is Ok ==> only_asset_set(
                l,
                s.ledger,
                m,
                digest_of(asset_preimage(source_chain, source_contract@)),
                AssetView {
                    source_chain,
                    source_contract: source_contract@,
                    decimals,
                    name: name@,
                    symbol: symbol@,
                    status: AssetStatus::Active,
                },
            )
        }),
{
    let id = digest_of(asset_preimage(source_chain, source_contract@));
    let asset = AssetView {
        source_chain,
        source_contract: source_contract@,
        decimals,
        name: name@,
        symbol: symbol@,
        status: AssetStatus::Active,
    };
    let s = applied(
        l,
        Intent::AddBridgeAsset { source_chain, source_contract, decimals, name, symbol },
        evidence,
    );
    lemma_parsed_assets_fit(l.record(reserved::asset_registry_address()));
    if s.answer is Ok {
        assert(m.insert(id, asset).dom() =~= m.dom().insert(id));
        law_assets_read_back(l, m.insert(id, asset));
    }
}

/// A pause or a removal succeeds exactly where the asset is listed. A pause makes it
/// paused unless it was removed, a removal makes it removed; everything else about
/// it, all other assets and all other records stay.
pub proof fn law_retirements_are_answered(
    l: Ledger,
    asset_id: [u8; 32],
    evidence: EvidenceView,
)
    ensures
        ({
            let p = applied(l, Intent::PauseBridgeAsset { asset_id }, evidence);
            let r = applied(l, Intent::RemoveBridgeAsset { asset_id }, evidence);
            let there = listed(l) matches Ok(m) && m.dom().contains(asset_id);
            &&& p.answer is Ok <==> there
            &&& r.answer is Ok <==> there
            &&& !there ==> p.ledger == l && r.ledger == l
            &&& listed(l) matches Ok(m) ==> {
                &&& !there ==> p == refused(l, ExecutionError::BridgeAssetNotFound { asset_id })
                &&& !there ==> r == refused(l, ExecutionError::BridgeAssetNotFound { asset_id })
                &&& there ==> only_asset_set(
                    l,
                    r.ledger,
                    m,
                    asset_id,
                    AssetView { status: AssetStatus::Removed, ..m[asset_id] },
                )
                &&& there && m[asset_id].status != AssetStatus::Removed ==> only_asset_set(
                    l,
                    p.ledger,
                    m,
                    asset_id,
                    AssetView { status: AssetStatus::Paused, ..m[asset_id] },
                )
                &&& there && m[asset_id].status == AssetStatus::Removed ==> only_asset_set(
                    l,
                    p.ledger,
                    m,
                    asset_id,
                    m[asset_id],
                )
            }
        }),
{
    if let Ok(m) = listed(l) {
        if m.dom().contains(asset_id) {
            lemma_parsed_assets_fit(l.record(reserved::asset_registry_address()));
            let paused = m.insert(
                asset_id,
                AssetView { status: AssetStatus::Paused, ..m[asset_id] },
            );
            let removed = m.insert(
                asset_id,
                AssetView { status: AssetStatus::Removed, ..m[asset_id] },
            );
            assert(paused.dom() =~= m.dom());
            assert(removed.dom() =~= m.dom());
            law_assets_read_back(l, paused);
            law_assets_read_back(l, removed);
            if m[asset_id].status == AssetStatus::Removed {
                assert(removed =~= m);
            }
        }
    }
}

} // verus!
