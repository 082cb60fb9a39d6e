//! What is written into a registry is read out of it again.

use vstd::prelude::*;

use crate::asset_registry::{self, strings_fit, AssetView};
use crate::assets::{listed, with_assets};
use crate::authority_registry::SlotView;
use crate::burn_nullifier::NullifierTable;
use crate::bytes::lemma_be_bytes_len;
use crate::da_anchor_registry::AnchorTable;
use crate::delegating::{delegations, unbondings, with_delegations, with_unbondings};
use crate::delegation_registry::DelegationTable;
use crate::eject_registry::{EjectionRecord, EjectionTable};
use crate::equivocation_registry::{EquivocationRecord, OffenseTable};
use crate::error::ExecutionError;
use crate::force_include::{ForceIncludeObligation, ObligationTable};
use crate::intent::RewardsRing;
use crate::l2_state::{self, L2BatchKey, L2View};
use crate::ledger::Ledger;
use crate::ordered::unit_map;
use crate::reserved;
use crate::rollup::{anchors, claimed, l2_contents, with_claimed, with_l2};
use crate::sequencing::{
    ejections, obligations, offenses, with_ejections, with_obligations, with_offenses,
};
use crate::slots::{self, keys_fit, lemma_ring_round_trip, ring_bytes};
use crate::staking::{ring_slots, with_slots};
use crate::substrate::Address;
use crate::table::{
    fits, lemma_all_stored, lemma_fitting_table_round_trip, stored_part, table_bytes, Table,
};

verus! {

/// Two registries with the same encoding have the same rows: the encoding of a
/// table determines it.
pub proof fn law_encodings_are_unambiguous<T: Table>(
    a: Map<T::Key, T::Value>,
    b: Map<T::Key, T::Value>,
)
    requires
        fits::<T>(a),
        fits::<T>(b),
        table_bytes::<T>(a) == table_bytes::<T>(b),
    ensures
        stored_part::<T>(a) == stored_part::<T>(b),
{
    lemma_fitting_table_round_trip::<T>(a);
    lemma_fitting_table_round_trip::<T>(b);
}

/// Written obligations are read back.
pub proof fn law_obligations_read_back(l: Ledger, m: Map<[u8; 32], ForceIncludeObligation>)
    requires
        fits::<ObligationTable>(m),
    ensures
        obligations(with_obligations(l, m)) == Ok::<
            Map<[u8; 32], ForceIncludeObligation>,
            ExecutionError,
        >(m),
{
    lemma_fitting_table_round_trip::<ObligationTable>(m);
    lemma_all_stored::<ObligationTable>(m);
}

/// Written ejections are read back.
pub proof fn law_ejections_read_back(l: Ledger, m: Map<[u8; 32], EjectionRecord>)
    requires
        fits::<EjectionTable>(m),
    ensures
        ejections(with_ejections(l, m)) == Ok::<Map<[u8; 32], EjectionRecord>, ExecutionError>(m),
{
    lemma_fitting_table_round_trip::<EjectionTable>(m);
    lemma_all_stored::<EjectionTable>(m);
}

/// Written offenses are read back.
pub proof fn law_offenses_read_back(l: Ledger, m: Map<[u8; 32], EquivocationRecord>)
    requires
        fits::<OffenseTable>(m),
    ensures
        offenses(with_offenses(l, m)) == Ok::<Map<[u8; 32], EquivocationRecord>, ExecutionError>(
            m,
        ),
{
    lemma_fitting_table_round_trip::<OffenseTable>(m);
    lemma_all_stored::<OffenseTable>(m);
}

/// Written anchors are read back.
pub proof fn law_anchors_read_back(l: Ledger, m: Map<L2BatchKey, [u8; 32]>)
    requires
        fits::<AnchorTable>(m),
    ensures
        anchors(
            l.with_record(
                reserved::da_anchor_registry_address(),
                table_bytes::<AnchorTable>(m),
            ),
        ) == Ok::<Map<L2BatchKey, [u8; 32]>, ExecutionError>(m),
{
    lemma_fitting_table_round_trip::<AnchorTable>(m);
    lemma_all_stored::<AnchorTable>(m);
}

/// Written claims are read back.
pub proof fn law_claims_read_back(l: Ledger, s: Set<[u8; 32]>)
    requires
        fits::<NullifierTable>(unit_map(s)),
    ensures
        claimed(with_claimed(l, s)) == Ok::<Set<[u8; 32]>, ExecutionError>(s),
{
    let m = unit_map(s);
    lemma_fitting_table_round_trip::<NullifierTable>(m);
    lemma_all_stored::<NullifierTable>(m);
    assert(m.dom() =~= s);
}

/// Written delegations are read back, but for those of nothing.
pub proof fn law_delegations_read_back(l: Ledger, m: Map<(u32, Address), u64>)
    requires
        fits::<DelegationTable>(m),
    ensures
        delegations(with_delegations(l, m)) == Ok::<Map<(u32, Address), u64>, ExecutionError>(
            stored_part::<DelegationTable>(m),
        ),
{
    lemma_fitting_table_round_trip::<DelegationTable>(m);
}

/// Written unbonding stake is read back, but for that of nothing.
pub proof fn law_unbondings_read_back(l: Ledger, m: Map<(u32, Address, u64), u64>)
    requires
        fits::<crate::unbonding_registry::UnbondingTable>(m),
    ensures
        unbondings(with_unbondings(l, m)) == Ok::<
            Map<(u32, Address, u64), u64>,
            ExecutionError,
        >(stored_part::<crate::unbonding_registry::UnbondingTable>(m)),
{
    lemma_fitting_table_round_trip::<crate::unbonding_registry::UnbondingTable>(m);
}

/// Whether the slots of a ring can be written.
pub open spec fn ring_fits(m: Map<u32, SlotView>) -> bool {
    m.dom().finite() && m.dom().len() <= u32::MAX && keys_fit(m)
}

/// Written slots are read back.
pub proof fn law_slots_read_back(l: Ledger, ring: RewardsRing, m: Map<u32, SlotView>)
    requires
        ring_fits(m),
    ensures
        ring_slots(with_slots(l, ring, m), ring) == Ok::<Map<u32, SlotView>, ExecutionError>(m),
{
    lemma_ring_round_trip(m);
    lemma_be_bytes_len(slots::version_for(slots::tracks_stake(m)) as nat, 4);
    assert(ring_bytes(m).len() > 0);
}

/// Whether listed assets can be written.
pub open spec fn assets_fit(m: Map<[u8; 32], AssetView>) -> bool {
    &&& m.dom().finite()
    &&& m.dom().len() <= u32::MAX
    &&& forall|id: [u8; 32]| #[trigger] m.dom().contains(id) ==> strings_fit(m[id])
}

/// Written assets are read back.
pub proof fn law_assets_read_back(l: Ledger, m: Map<[u8; 32], AssetView>)
    requires
        assets_fit(m),
    ensures
        listed(with_assets(l, m)) == Ok::<Map<[u8; 32], AssetView>, ExecutionError>(m),
{
    asset_registry::lemma_registry_round_trip(m);
    lemma_be_bytes_len(asset_registry::ASSET_REGISTRY_VERSION as nat, 4);
    assert(asset_registry::registry_bytes(m).len() > 0);
}

/// Whether an L2 registry can be written.
pub open spec fn l2_fits(v: L2View) -> bool {
    &&& v.chain_vks.dom().finite()
    &&& v.state_roots.dom().finite()
    &&& v.chain_vks.dom().len() <= u32::MAX
    &&& v.state_roots.dom().len() <= u32::MAX
    &&& l2_state::registry_bytes(v).len() <= usize::MAX
}

/// A written L2 registry is read back.
pub proof fn law_l2_registry_reads_back(l: Ledger, v: L2View)
    requires
        l2_fits(v),
    ensures
        l2_contents(with_l2(l, v)) == Ok::<L2View, ExecutionError>(v),
{
    l2_state::lemma_registry_round_trip(v);
    lemma_be_bytes_len(l2_state::L2_REGISTRY_VERSION as nat, 4);
    assert(l2_state::registry_bytes(v).len() > 0);
}

} // verus!
