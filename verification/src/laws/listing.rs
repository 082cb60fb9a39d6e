//! Listed assets: a listing stays, and an asset that was taken off the bridge
//! does not come back.

use vstd::prelude::*;

use crate::apply::{applied, EvidenceView};
use crate::asset_registry::{self, asset_preimage, strings_fit, AssetStatus, AssetView};
use crate::assets::{asset_gate, list_step, listed, restatus_step, settled_status};
use crate::error::ExecutionError;
use crate::hash::digest_of;
use crate::intent::Intent;
use crate::laws::registries::law_assets_read_back;
use crate::laws::writers::{law_only_writers_change_assets, writes_assets};
use crate::ledger::Ledger;
use crate::reserved;

verus! {

/// Whether one step may turn asset `a` into `b`: only the status changes, an asset
/// that is not active does not become active, and a removed one stays removed.
pub open spec fn asset_follows(a: AssetView, b: AssetView) -> bool {
    &&& b == (AssetView { status: b.status, ..a })
    &&& a.status != AssetStatus::Active ==> b.status != AssetStatus::Active
    &&& a.status == AssetStatus::Removed ==> b.status == AssetStatus::Removed
}

/// Whether every asset of `m` is still listed in the state `l`, and at most one is
/// new.
pub open spec fn assets_kept(m: Map<[u8; 32], AssetView>, l: Ledger) -> bool {
    listed(l) matches Ok(n) && n.dom().len() <= m.dom().len() + 1 && forall|id: [u8; 32]|
        #[trigger]
        m.dom().contains(id) ==> n.dom().contains(id) && asset_follows(m[id], n[id])
}

/// A change of status keeps every listing, and the asset gets its status.
pub proof fn lemma_restatus_keeps(
    l: Ledger,
    m: Map<[u8; 32], AssetView>,
    id: [u8; 32],
    status: AssetStatus,
)
    requires
        listed(l) == Ok::<Map<[u8; 32], AssetView>, ExecutionError>(m),
        status != AssetStatus::Active,
    ensures
        assets_kept(m, restatus_step(l, id, status).ledger),
        m.dom().contains(id) ==> (listed(restatus_step(l, id, status).ledger) matches Ok(n)
            && n.dom().contains(id) && n[id].status == settled_status(m[id].status, status)),
{
    asset_registry::lemma_parsed_assets_fit(l.record(reserved::asset_registry_address()));
    if m.dom().contains(id) {
        let n = m.insert(
            id,
            AssetView { status: settled_status(m[id].status, status), ..m[id] },
        );
        assert(n.dom() =~= m.dom());
        law_assets_read_back(l, n);
    }
}

proof fn lemma_list_keeps(
    l: Ledger,
    m: Map<[u8; 32], AssetView>,
    chain: u64,
    contract: Seq<u8>,
    decimals: u8,
    name: Seq<u8>,
    symbol: Seq<u8>,
)
    requires
        listed(l) == Ok::<Map<[u8; 32], AssetView>, ExecutionError>(m),
        m.dom().len() < u32::MAX,
    ensures
        assets_kept(m, list_step(l, chain, contract, decimals, name, symbol).ledger),
{
    asset_registry::lemma_parsed_assets_fit(l.record(reserved::asset_registry_address()));
    let id = digest_of(asset_preimage(chain, contract));
    let a = AssetView {
        source_chain: chain,
        source_contract: contract,
        decimals,
        name,
        symbol,
        status: AssetStatus::Active,
    };
    if strings_fit(a) && !m.dom().contains(id) {
        assert(m.insert(id, a).dom() =~= m.dom().insert(id));
        law_assets_read_back(l, m.insert(id, a));
    }
}

/// A listed asset stays listed as it is but for its status. One that is paused or
/// removed never becomes active again, and one that is removed stays removed.
pub proof fn law_retired_assets_stay_retired(
    l: Ledger,
    m: Map<[u8; 32], AssetView>,
    intent: Intent,
    evidence: EvidenceView,
)
    requires
        listed(l) == Ok::<Map<[u8; 32], AssetView>, ExecutionError>(m),
        intent is AddBridgeAsset ==> m.dom().len() < u32::MAX,
    ensures
        reserved::apart() ==> assets_kept(m, applied(l, intent, evidence).ledger),
{
    if !writes_assets(intent) {
        law_only_writers_change_assets(l, intent, evidence);
    }
    match intent {
        Intent::AddBridgeAsset { source_chain, source_contract, decimals, name, symbol } => {
            lemma_list_keeps(l, m, source_chain, source_contract@, decimals, name@, symbol@);
        },
        Intent::PauseBridgeAsset { asset_id } => {
            lemma_restatus_keeps(l, m, asset_id, AssetStatus::Paused);
        },
        Intent::RemoveBridgeAsset { asset_id } => {
            lemma_restatus_keeps(l, m, asset_id, AssetStatus::Removed);
        },
        _ => {},
    }
}

/// After an asset was paused or removed, the bridge does not accept it.
pub proof fn law_retired_assets_do_not_cross(
    l: Ledger,
    m: Map<[u8; 32], AssetView>,
    id: [u8; 32],
    status: AssetStatus,
)
    requires
        listed(l) == Ok::<Map<[u8; 32], AssetView>, ExecutionError>(m),
        m.dom().contains(id),
        status != AssetStatus::Active,
    ensures
        asset_gate(restatus_step(l, id, status).ledger, id) == Err::<(), ExecutionError>(
            ExecutionError::BridgeAssetNotActive {
                asset_id: id,
                status: settled_status(m[id].status, status),
            },
        ),
{
    lemma_restatus_keeps(l, m, id, status);
}

} // verus!
