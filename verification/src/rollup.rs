//! L2 commits, verifying keys, bridge locks, burn claims and blob anchors.

use vstd::prelude::*;

use crate::assets::asset_gate;
use crate::bridge::{inclusion, leaf_hash, verify_burn_inclusion, BridgeError, BurnLeaf};
use crate::burn_nullifier::{self, burn_id, burn_id_of, nullifier_bytes};
use crate::bytes::{filled, lemma_be_limits, read_array, read_be, same_array, zero_hash};
use crate::da_anchor_registry::{self, da_blob_hash, AnchorTable};
use crate::error::{ErrorView, ExecutionError};
use crate::hash::digest_of;
use crate::l2_proof::{
    da_commitment, l1_anchor_height, l2_chain_id_hash, rejection, verdict_view, verify_l2_batch,
    DA_COMMITMENT_OFFSET, L1_ANCHOR_HEIGHT_OFFSET, L2_CHAIN_ID_HASH_OFFSET,
};
use crate::l2_state::{
    self, registry_bytes, ChainVks, L2BatchKey, L2Registry, L2StateRootRecord, L2View,
};
use crate::ledger::{agrees, done, moved, refused, settled, Ledger, Step};
use crate::reserved;
use crate::substrate::{Address, Balance, InMemorySubstrate};
use crate::table::table_bytes;

verus! {

/// The L2 registry in a state.
pub open spec fn l2_contents(l: Ledger) -> Result<L2View, ExecutionError> {
    l2_state::parse(l.record(reserved::l2_registry_address()))
}

/// The L2 registry in a state, empty where it cannot be read.
pub open spec fn l2_or_empty(l: Ledger) -> L2View {
    match l2_contents(l) {
        Ok(v) => v,
        Err(_) => L2View::empty(),
    }
}

/// The state with another L2 registry.
pub open spec fn with_l2(l: Ledger, v: L2View) -> Ledger {
    l.with_record(reserved::l2_registry_address(), registry_bytes(v))
}

/// The commit of a proven batch, given what the pairing check said.
pub open spec fn commit_step(
    l: Ledger,
    batch_id: u64,
    new_state_root: [u8; 32],
    proof_bytes: Seq<u8>,
    public_inputs: Seq<u8>,
    vk_hash: [u8; 32],
    verdict: Result<(), Seq<char>>,
) -> Step {
    match rejection(proof_bytes, public_inputs, vk_hash, verdict) {
        Some(reason) => Step { ledger: l, answer: Err(ErrorView::VerifierRejected(reason)) },
        None => match l2_contents(l) {
            Err(e) => refused(l, e),
            Ok(v) => {
                let chain = l2_chain_id_hash(public_inputs);
                let pinned = v.vks(chain).aggregation_vk_hash;
                if pinned != vk_hash {
                    refused(l, ExecutionError::L2VkPinMismatch { expected: pinned, got: vk_hash })
                } else {
                    done(
                        with_l2(
                            l,
                            L2View {
                                state_roots: v.state_roots.insert(
                                    L2BatchKey { l2_chain_id_hash: chain, batch_id },
                                    L2StateRootRecord {
                                        state_root: new_state_root,
                                        committed_at_l1_height: l1_anchor_height(public_inputs),
                                        vk_hash,
                                        da_commitment: da_commitment(public_inputs),
                                    },
                                ),
                                ..v
                            },
                        ),
                    )
                }
            },
        },
    }
}

/// A rotation of verifying keys.
pub open spec fn pin_step(
    l: Ledger,
    chain_id_hash: [u8; 32],
    aggregation_vk_hash: [u8; 32],
    range_vk_commitment: [u8; 32],
) -> Step {
    if aggregation_vk_hash == zero_hash() && range_vk_commitment == zero_hash() {
        refused(l, ExecutionError::SetL2VkAllZeros)
    } else {
        match l2_contents(l) {
            Err(e) => refused(l, e),
            Ok(v) => done(
                with_l2(
                    l,
                    L2View {
                        chain_vks: v.chain_vks.insert(
                            chain_id_hash,
                            ChainVks { aggregation_vk_hash, range_vk_commitment },
                        ),
                        ..v
                    },
                ),
            ),
        }
    }
}

/// Why the asset of a bridge operation is not accepted, if so.
pub open spec fn bridge_gate(l: Ledger, asset_id: Option<[u8; 32]>) -> Result<(), ExecutionError> {
    match asset_id {
        Some(id) => asset_gate(l, id),
        None => Ok(()),
    }
}

/// A deposit into the bridge escrow.
pub open spec fn lock_step(
    l: Ledger,
    user_address: Address,
    amount: Balance,
    asset_id: Option<[u8; 32]>,
) -> Step {
    if amount == 0 {
        done(l)
    } else {
        match bridge_gate(l, asset_id) {
            Err(e) => refused(l, e),
            Ok(_) => settled(
                l,
                moved(l.balances, user_address, reserved::bridge_escrow_address(), amount),
            ),
        }
    }
}

/// What is wrong with the inclusion proof of a burn that the host does not vouch
/// for.
pub open spec fn burn_proof(
    vouched: bool,
    leaf: [u8; 32],
    merkle_path: Seq<u8>,
    path_directions: Seq<u8>,
    root: [u8; 32],
) -> Result<(), BridgeError> {
    if vouched {
        Ok(())
    } else {
        inclusion(leaf, merkle_path, path_directions, root)
    }
}

/// The claimed burns in a state.
pub open spec fn claimed(l: Ledger) -> Result<Set<[u8; 32]>, ExecutionError> {
    burn_nullifier::parse(l.record(reserved::burn_nullifier_registry_address()))
}

/// The state with other claimed burns.
pub open spec fn with_claimed(l: Ledger, s: Set<[u8; 32]>) -> Ledger {
    l.with_record(reserved::burn_nullifier_registry_address(), nullifier_bytes(s))
}

/// A claim on a burn. Once it passes all gates it is paid and recorded. Where the
/// escrow is short of the amount it is recorded without being paid; where the
/// recipient cannot hold the amount nothing changes.
pub open spec fn burn_step(
    l: Ledger,
    batch_id: u64,
    recipient: Address,
    amount: Balance,
    merkle_path: Seq<u8>,
    path_directions: Seq<u8>,
    asset_id: Option<[u8; 32]>,
    chain: [u8; 32],
    vouched: bool,
) -> Step {
    let key = L2BatchKey { l2_chain_id_hash: chain, batch_id };
    let roots = l2_or_empty(l).state_roots;
    let leaf = leaf_hash(chain, batch_id, recipient, amount, asset_id);
    let id = burn_id_of(chain, batch_id, recipient, amount, merkle_path, asset_id);
    if amount == 0 {
        done(l)
    } else if reserved::is_reserved(&recipient) {
        refused(l, ExecutionError::ReservedAddressTransferDenied { addr: recipient })
    } else {
        match bridge_gate(l, asset_id) {
            Err(e) => refused(l, e),
            Ok(_) => if !roots.dom().contains(key) {
                refused(
                    l,
                    ExecutionError::L2BatchNotCommitted { l2_chain_id_hash: chain, batch_id },
                )
            } else {
                match burn_proof(
                    vouched,
                    leaf,
                    merkle_path,
                    path_directions,
                    roots[key].state_root,
                ) {
                    Err(reason) => refused(
                        l,
                        ExecutionError::L2BurnMerkleProofRejected { reason },
                    ),
                    Ok(_) => match claimed(l) {
                        Err(e) => refused(l, e),
                        Ok(s) => if s.contains(id) {
                            refused(l, ExecutionError::L2BurnAlreadyClaimed { burn_id: id })
                        } else {
                            match moved(
                                l.balances,
                                reserved::bridge_escrow_address(),
                                recipient,
                                amount,
                            ) {
                                Ok(b) => done(with_claimed(l, s.insert(id)).with_balances(b)),
                                Err(e) => if l.balance(reserved::bridge_escrow_address())
                                    < amount {
                                    refused(with_claimed(l, s.insert(id)), e)
                                } else {
                                    refused(l, e)
                                },
                            }
                        },
                    },
                }
            },
        }
    }
}

/// The anchored blobs in a state.
pub open spec fn anchors(l: Ledger) -> Result<Map<L2BatchKey, [u8; 32]>, ExecutionError> {
    da_anchor_registry::parse(l.record(reserved::da_anchor_registry_address()))
}

/// An anchor, set once per batch.
pub open spec fn anchor_step(l: Ledger, batch_id: u64, da_blob: Seq<u8>, chain: [u8; 32]) -> Step {
    let key = L2BatchKey { l2_chain_id_hash: chain, batch_id };
    match anchors(l) {
        Err(e) => refused(l, e),
        Ok(m) => if m.dom().contains(key) {
            refused(
                l,
                ExecutionError::DaAnchorAlreadyRecorded { l2_chain_id_hash: chain, batch_id },
            )
        } else {
            done(
                l.with_record(
                    reserved::da_anchor_registry_address(),
                    table_bytes::<AnchorTable>(m.insert(key, digest_of(da_blob))),
                ),
            )
        },
    }
}

impl InMemorySubstrate {
    /// Reads the L2 registry.
    fn load_l2(&self) -> (r: Result<L2Registry, ExecutionError>)
        ensures
            match r {
                Ok(reg) => l2_contents(self@) == Ok::<L2View, ExecutionError>(reg@),
                Err(e) => l2_contents(self@) == Err::<L2View, ExecutionError>(e),
            },
    {
        let bytes: Vec<u8> = self.record_or_empty(&reserved::l2_registry_address());
        l2_state::decode(bytes.as_slice())
    }

    /// The L2 registry, empty where it cannot be read.
    pub fn l2_registry(&self) -> (r: L2Registry)
        ensures
            r@ == l2_or_empty(self@),
    {
        self.stored_l2_registry()
    }

    pub(crate) fn stored_l2_registry(&self) -> (r: L2Registry)
        ensures
            r@ == l2_or_empty(self@),
    {
        match self.load_l2() {
            Ok(reg) => reg,
            Err(_) => L2Registry::default(),
        }
    }

    /// The number of committed state roots.
    pub fn l2_commit_count(&self) -> (n: usize)
        ensures
            n == l2_or_empty(self@).state_roots.dom().len(),
    {
        self.l2_registry().state_roots.len()
    }

    /// The committed state root of a batch.
    pub fn l2_state_root_record(&self, key: &L2BatchKey) -> (r: Option<L2StateRootRecord>)
        ensures
            r == (if l2_or_empty(self@).state_roots.dom().contains(*key) {
                Some(l2_or_empty(self@).state_roots[*key])
            } else {
                None
            }),
    {
        match self.l2_registry().state_roots.get(key) {
            Some(rec) => Some(*rec),
            None => None,
        }
    }

    /// The aggregation verifying-key hash pinned for a chain, all zeros if none is.
    pub fn l2_aggregation_vk_hash(&self, chain_id_hash: &[u8; 32]) -> (h: [u8; 32])
        ensures
            h == l2_or_empty(self@).vks(*chain_id_hash).aggregation_vk_hash,
    {
        self.l2_registry().aggregation_vk_hash(chain_id_hash)
    }

    /// The range-program commitment pinned for a chain, all zeros if none is.
    pub fn l2_range_vk_commitment(&self, chain_id_hash: &[u8; 32]) -> (h: [u8; 32])
        ensures
            h == l2_or_empty(self@).vks(*chain_id_hash).range_vk_commitment,
    {
        self.l2_registry().range_vk_commitment(chain_id_hash)
    }

    /// Pins a state root for a batch without a proof, for setting up a scenario.
    pub fn pin_l2_state_root_for_test_with_root(
        &mut self,
        l2_chain_id_hash: [u8; 32],
        batch_id: u64,
        state_root: [u8; 32],
    )
        ensures
            final(self)@ == with_l2(
                old(self)@,
                L2View {
                    state_roots: l2_or_empty(old(self)@).state_roots.insert(
                        L2BatchKey { l2_chain_id_hash, batch_id },
                        sample_record(state_root),
                    ),
                    ..l2_or_empty(old(self)@)
                },
            ),
    {
        let mut reg = self.l2_registry();
        reg.state_roots.insert(
            L2BatchKey { l2_chain_id_hash, batch_id },
            sample(state_root),
        );
        let out: Vec<u8> = l2_state::encode(&reg);
        self.write_bytes_unchecked(reserved::l2_registry_address(), out);
    }

    /// Pins a placeholder state root for a batch without a proof, for setting up a
    /// scenario. No burn is included under that root.
    pub fn pin_l2_state_root_for_test(&mut self, l2_chain_id_hash: [u8; 32], batch_id: u64)
        ensures
            final(self)@ == with_l2(
                old(self)@,
                L2View {
                    state_roots: l2_or_empty(old(self)@).state_roots.insert(
                        L2BatchKey { l2_chain_id_hash, batch_id },
                        sample_record(filled(0xab)),
                    ),
                    ..l2_or_empty(old(self)@)
                },
            ),
    {
        self.pin_l2_state_root_for_test_with_root(l2_chain_id_hash, batch_id, filled(0xab));
    }

    pub(crate) fn apply_commit(
        &mut self,
        batch_id: u64,
        new_state_root: [u8; 32],
        proof_bytes: &Vec<u8>,
        public_inputs: &Vec<u8>,
        vk_hash: [u8; 32],
        verdict: &Result<(), String>,
    ) -> (r: Result<(), ExecutionError>)
        ensures
            agrees(
                commit_step(
                    old(self)@,
                    batch_id,
                    new_state_root,
                    proof_bytes@,
                    public_inputs@,
                    vk_hash,
                    verdict_view(*verdict),
                ),
                final(self)@,
                r,
            ),
    {
        let inputs: &[u8] = public_inputs.as_slice();
        match verify_l2_batch(proof_bytes.as_slice(), inputs, &vk_hash, verdict) {
            Err(reason) => {
                return Err(ExecutionError::L2VerifierRejected { reason });
            },
            Ok(()) => {},
        }
        let mut reg = match self.load_l2() {
            Err(e) => {
                return Err(e);
            },
            Ok(reg) => reg,
        };
        proof {
            lemma_be_limits();
        }
        let height: u64 = read_be(inputs, L1_ANCHOR_HEIGHT_OFFSET, 8) as u64;
        let chain: [u8; 32] = read_array::<32>(inputs, L2_CHAIN_ID_HASH_OFFSET);
        let da: [u8; 32] = read_array::<32>(inputs, DA_COMMITMENT_OFFSET);
        let pinned: [u8; 32] = reg.aggregation_vk_hash(&chain);
        if !same_array(&pinned, &vk_hash) {
            return Err(ExecutionError::L2VkPinMismatch { expected: pinned, got: vk_hash });
        }
        reg.state_roots.insert(
            L2BatchKey { l2_chain_id_hash: chain, batch_id },
            L2StateRootRecord {
                state_root: new_state_root,
                committed_at_l1_height: height,
                vk_hash,
                da_commitment: da,
            },
        );
        let out: Vec<u8> = l2_state::encode(&reg);
        self.write_bytes_unchecked(reserved::l2_registry_address(), out);
        Ok(())
    }

    pub(crate) fn apply_pin(
        &mut self,
        chain_id_hash: [u8; 32],
        aggregation_vk_hash: [u8; 32],
        range_vk_commitment: [u8; 32],
    ) -> (r: Result<(), ExecutionError>)
        ensures
            agrees(
                pin_step(old(self)@, chain_id_hash, aggregation_vk_hash, range_vk_commitment),
                final(self)@,
                r,
            ),
    {
        let zero: [u8; 32] = zero_hash();
        if same_array(&aggregation_vk_hash, &zero) && same_array(&range_vk_commitment, &zero) {
            return Err(ExecutionError::SetL2VkAllZeros);
        }
        let mut reg = match self.load_l2() {
            Err(e) => {
                return Err(e);
            },
            Ok(reg) => reg,
        };
        reg.set_chain_vks(chain_id_hash, aggregation_vk_hash, range_vk_commitment);
        let out: Vec<u8> = l2_state::encode(&reg);
        self.write_bytes_unchecked(reserved::l2_registry_address(), out);
        Ok(())
    }

    fn check_bridge_gate(&self, asset_id: &Option<[u8; 32]>) -> (r: Result<(), ExecutionError>)
        ensures
            r == bridge_gate(self@, *asset_id),
    {
        match asset_id {
            Some(id) => self.assert_bridge_asset_active(id),
            None => Ok(()),
        }
    }

    pub(crate) fn apply_lock(
        &mut self,
        user_address: Address,
        amount: Balance,
        asset_id: &Option<[u8; 32]>,
    ) -> (r: Result<(), ExecutionError>)
        ensures
            agrees(lock_step(old(self)@, user_address, amount, *asset_id), final(self)@, r),
    {
        if amount == 0 {
            return Ok(());
        }
        match self.check_bridge_gate(asset_id) {
            Err(e) => Err(e),
            Ok(()) => self.transfer_internal(
                user_address,
                reserved::bridge_escrow_address(),
                amount,
            ),
        }
    }

    pub(crate) fn apply_burn(
        &mut self,
        batch_id: u64,
        recipient: Address,
        amount: Balance,
        merkle_path: &Vec<u8>,
        path_directions: &Vec<u8>,
        asset_id: &Option<[u8; 32]>,
        chain: [u8; 32],
        vouched: bool,
    ) -> (r: Result<(), ExecutionError>)
        ensures
            agrees(
                burn_step(
                    old(self)@,
                    batch_id,
                    recipient,
                    amount,
                    merkle_path@,
                    path_directions@,
                    *asset_id,
                    chain,
                    vouched,
                ),
                final(self)@,
                r,
            ),
    {
        if amount == 0 {
            return Ok(());
        }
        if reserved::is_reserved(&recipient) {
            return Err(ExecutionError::ReservedAddressTransferDenied { addr: recipient });
        }
        match self.check_bridge_gate(asset_id) {
            Err(e) => {
                return Err(e);
            },
            Ok(()) => {},
        }
        let key = L2BatchKey { l2_chain_id_hash: chain, batch_id };
        let record = match self.l2_state_root_record(&key) {
            None => {
                return Err(
                    ExecutionError::L2BatchNotCommitted { l2_chain_id_hash: chain, batch_id },
                );
            },
            Some(rec) => rec,
        };
        if !vouched {
            let leaf = BurnLeaf {
                l2_chain_id_hash: &chain,
                batch_id,
                recipient: &recipient,
                amount,
                asset_id: asset_id.as_ref(),
            };
            assert(leaf.asset() == *asset_id);
            match verify_burn_inclusion(
                &leaf,
                merkle_path.as_slice(),
                path_directions.as_slice(),
                &record.state_root,
            ) {
                Err(reason) => {
                    return Err(ExecutionError::L2BurnMerkleProofRejected { reason });
                },
                Ok(()) => {},
            }
        }
        let id: [u8; 32] = burn_id(
            &chain,
            batch_id,
            &recipient,
            amount,
            merkle_path.as_slice(),
            asset_id,
        );
        let addr: Address = reserved::burn_nullifier_registry_address();
        let bytes: Vec<u8> = self.record_or_empty(&addr);
        let mut set = match burn_nullifier::decode(bytes.as_slice()) {
            Err(e) => {
                return Err(e);
            },
            Ok(s) => s,
        };
        if set.contains(&id) {
            return Err(ExecutionError::L2BurnAlreadyClaimed { burn_id: id });
        }
        set.insert(id);
        let out: Vec<u8> = burn_nullifier::encode(&set);
        let escrow: Address = reserved::bridge_escrow_address();
        let short: bool = self.balance_at(&escrow) < amount;
        let paid = self.transfer_internal(escrow, recipient, amount);
        if paid.is_ok() || short {
            self.write_bytes_unchecked(addr, out);
        }
        paid
    }

    pub(crate) fn apply_anchor(
        &mut self,
        batch_id: u64,
        da_blob: &Vec<u8>,
        chain: [u8; 32],
    ) -> (r: Result<(), ExecutionError>)
        ensures
            agrees(anchor_step(old(self)@, batch_id, da_blob@, chain), final(self)@, r),
    {
        let addr: Address = reserved::da_anchor_registry_address();
        let bytes: Vec<u8> = self.record_or_empty(&addr);
        let mut map = match da_anchor_registry::decode(bytes.as_slice()) {
            Err(e) => {
                return Err(e);
            },
            Ok(m) => m,
        };
        let key = L2BatchKey { l2_chain_id_hash: chain, batch_id };
        if map.contains_key(&key) {
            return Err(
                ExecutionError::DaAnchorAlreadyRecorded { l2_chain_id_hash: chain, batch_id },
            );
        }
        map.insert(key, da_blob_hash(da_blob.as_slice()));
        let out: Vec<u8> = da_anchor_registry::encode(&map);
        self.write_bytes_unchecked(addr, out);
        Ok(())
    }
}

/// A state-root record with placeholder key and commitment.
pub open spec fn sample_record(state_root: [u8; 32]) -> L2StateRootRecord {
    L2StateRootRecord {
        state_root,
        committed_at_l1_height: 0,
        vk_hash: filled(0xcd),
        da_commitment: filled(0xef),
    }
}

fn sample(state_root: [u8; 32]) -> (r: L2StateRootRecord)
    ensures
        r == sample_record(state_root),
{
    L2StateRootRecord {
        state_root,
        committed_at_l1_height: 0,
        vk_hash: filled(0xcd),
        da_commitment: filled(0xef),
    }
}

} // verus!
