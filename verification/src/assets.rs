//! Bridge-asset listing.

use vstd::prelude::*;

use crate::asset_registry::{
    self, asset_id, asset_preimage, registry_bytes, AssetRecord, AssetRegistry, AssetStatus,
    AssetView, MAX_ASSET_NAME_BYTES, MAX_ASSET_SYMBOL_BYTES, MAX_SOURCE_CONTRACT_BYTES,
};
use crate::bytes::copy_bytes;
use crate::error::ExecutionError;
use crate::hash::digest_of;
use crate::ledger::{agrees, done, refused, Ledger, Step};
use crate::reserved;
use crate::substrate::InMemorySubstrate;

verus! {

/// The listed assets in a state.
pub open spec fn listed(l: Ledger) -> Result<Map<[u8; 32], AssetView>, ExecutionError> {
    asset_registry::parse(l.record(reserved::asset_registry_address()))
}

/// The state with other listed assets.
pub open spec fn with_assets(l: Ledger, m: Map<[u8; 32], AssetView>) -> Ledger {
    l.with_record(reserved::asset_registry_address(), registry_bytes(m))
}

/// The listed assets, none where they cannot be read.
pub open spec fn assets_or_none(l: Ledger) -> Map<[u8; 32], AssetView> {
    match listed(l) {
        Ok(m) => m,
        Err(_) => Map::empty(),
    }
}

/// Why an asset may not cross the bridge, if so.
pub open spec fn asset_gate(l: Ledger, asset_id: [u8; 32]) -> Result<(), ExecutionError> {
    let m = assets_or_none(l);
    if !m.dom().contains(asset_id) {
        Err(ExecutionError::BridgeAssetNotFound { asset_id })
    } else if m[asset_id].status != AssetStatus::Active {
        Err(ExecutionError::BridgeAssetNotActive { asset_id, status: m[asset_id].status })
    } else {
        Ok(())
    }
}

/// The error for a field that is too long.
pub open spec fn field_too_long(field: &'static str, got: nat, max: usize) -> ExecutionError {
    ExecutionError::BridgeAssetFieldTooLong { field, got: got as usize, max }
}

/// A new listing.
pub open spec fn list_step(
    l: Ledger,
    source_chain: u64,
    source_contract: Seq<u8>,
    decimals: u8,
    name: Seq<u8>,
    symbol: Seq<u8>,
) -> Step {
    let id = digest_of(asset_preimage(source_chain, source_contract));
    if source_contract.len() > MAX_SOURCE_CONTRACT_BYTES {
        refused(
            l,
            field_too_long("source_contract", source_contract.len(), MAX_SOURCE_CONTRACT_BYTES),
        )
    } else if name.len() > MAX_ASSET_NAME_BYTES {
        refused(l, field_too_long("name", name.len(), MAX_ASSET_NAME_BYTES))
    } else if symbol.len() > MAX_ASSET_SYMBOL_BYTES {
        refused(l, field_too_long("symbol", symbol.len(), MAX_ASSET_SYMBOL_BYTES))
    } else {
        match listed(l) {
            Err(e) => refused(l, e),
            Ok(m) => if m.dom().contains(id) {
                refused(l, ExecutionError::BridgeAssetAlreadyRegistered { asset_id: id })
            } else {
                done(
                    with_assets(
                        l,
                        m.insert(
                            id,
                            AssetView {
                                source_chain,
                                source_contract,
                                decimals,
                                name,
                                symbol,
                                status: AssetStatus::Active,
                            },
                        ),
                    ),
                )
            },
        }
    }
}

/// The status of an asset with status `old` once it is paused or removed. A
/// removal is final.
pub open spec fn settled_status(old: AssetStatus, status: AssetStatus) -> AssetStatus {
    if old == AssetStatus::Removed {
        AssetStatus::Removed
    } else {
        status
    }
}

/// A change of status.
pub open spec fn restatus_step(l: Ledger, asset_id: [u8; 32], status: AssetStatus) -> Step {
    match listed(l) {
        Err(e) => refused(l, e),
        Ok(m) => if !m.dom().contains(asset_id) {
            refused(l, ExecutionError::BridgeAssetNotFound { asset_id })
        } else {
            let status = settled_status(m[asset_id].status, status);
            done(with_assets(l, m.insert(asset_id, AssetView { status, ..m[asset_id] })))
        },
    }
}

impl InMemorySubstrate {
    /// Reads the listed assets.
    fn load_assets(&self) -> (r: Result<AssetRegistry, ExecutionError>)
        ensures
            match r {
                Ok(reg) => listed(self@) == Ok::<Map<[u8; 32], AssetView>, ExecutionError>(reg@),
                Err(e) => listed(self@) == Err::<Map<[u8; 32], AssetView>, ExecutionError>(e),
            },
    {
        let bytes: Vec<u8> = self.record_or_empty(&reserved::asset_registry_address());
        asset_registry::decode(bytes.as_slice())
    }

    /// The listed assets, none where they cannot be read.
    pub fn asset_registry(&self) -> (r: AssetRegistry)
        ensures
            r@ == assets_or_none(self@),
    {
        match self.load_assets() {
            Ok(reg) => reg,
            Err(_) => AssetRegistry::default(),
        }
    }

    /// The listing of an asset.
    pub fn bridge_asset(&self, asset_id: &[u8; 32]) -> (r: Option<AssetRecord>)
        ensures
            match r {
                Some(a) => assets_or_none(self@).dom().contains(*asset_id) && a@ == assets_or_none(
                    self@,
                )[*asset_id],
                None => !assets_or_none(self@).dom().contains(*asset_id),
            },
    {
        let mut reg = self.asset_registry();
        let ghost m = reg@;
        match reg.assets.remove(asset_id) {
            Some(a) => {
                assert(m.dom().contains(*asset_id) && m[*asset_id] == a@);
                Some(a)
            },
            None => {
                assert(!m.dom().contains(*asset_id));
                None
            },
        }
    }

    /// The number of listed assets of any status.
    pub fn bridge_asset_count(&self) -> (n: usize)
        ensures
            n == assets_or_none(self@).dom().len(),
    {
        let reg = self.asset_registry();
        assert(reg@.dom() =~= reg.assets@.dom());
        reg.assets.len()
    }

    /// Checks that an asset is listed and active.
    pub(crate) fn assert_bridge_asset_active(&self, asset_id: &[u8; 32]) -> (r: Result<
        (),
        ExecutionError,
    >)
        ensures
            r == asset_gate(self@, *asset_id),
    {
        match self.bridge_asset(asset_id) {
            None => Err(ExecutionError::BridgeAssetNotFound { asset_id: *asset_id }),
            Some(a) => match a.status {
                AssetStatus::Active => Ok(()),
                status => Err(
                    ExecutionError::BridgeAssetNotActive { asset_id: *asset_id, status },
                ),
            },
        }
    }

    pub(crate) fn apply_list(
        &mut self,
        source_chain: u64,
        source_contract: &Vec<u8>,
        decimals: u8,
        name: &Vec<u8>,
        symbol: &Vec<u8>,
    ) -> (r: Result<(), ExecutionError>)
        ensures
            agrees(
                list_step(
                    old(self)@,
                    source_chain,
                    source_contract@,
                    decimals,
                    name@,
                    symbol@,
                ),
                final(self)@,
                r,
            ),
    {
        if source_contract.len() > MAX_SOURCE_CONTRACT_BYTES {
            return Err(
                ExecutionError::BridgeAssetFieldTooLong {
                    field: "source_contract",
                    got: source_contract.len(),
                    max: MAX_SOURCE_CONTRACT_BYTES,
                },
            );
        }
        if name.len() > MAX_ASSET_NAME_BYTES {
            return Err(
                ExecutionError::BridgeAssetFieldTooLong {
                    field: "name",
                    got: name.len(),
                    max: MAX_ASSET_NAME_BYTES,
                },
            );
        }
        if symbol.len() > MAX_ASSET_SYMBOL_BYTES {
            return Err(
                ExecutionError::BridgeAssetFieldTooLong {
                    field: "symbol",
                    got: symbol.len(),
                    max: MAX_ASSET_SYMBOL_BYTES,
                },
            );
        }
        let id: [u8; 32] = asset_id(source_chain, source_contract.as_slice());
        let mut reg = match self.load_assets() {
            Err(e) => {
                return Err(e);
            },
            Ok(reg) => reg,
        };
        let ghost m = reg@;
        if reg.assets.contains_key(&id) {
            assert(m.dom().contains(id));
            return Err(ExecutionError::BridgeAssetAlreadyRegistered { asset_id: id });
        }
        assert(!m.dom().contains(id));
        let rec = AssetRecord {
            source_chain,
            source_contract: copy_bytes(source_contract.as_slice()),
            decimals,
            name: copy_bytes(name.as_slice()),
            symbol: copy_bytes(symbol.as_slice()),
            status: AssetStatus::Active,
        };
        let ghost view = rec@;
        reg.assets.insert(id, rec);
        assert(reg@ =~= m.insert(id, view));
        let out: Vec<u8> = asset_registry::encode(&reg);
        self.write_bytes_unchecked(reserved::asset_registry_address(), out);
        Ok(())
    }

    pub(crate) fn apply_restatus(&mut self, asset_id: [u8; 32], status: AssetStatus) -> (r: Result<
        (),
        ExecutionError,
    >)
        ensures
            agrees(restatus_step(old(self)@, asset_id, status), final(self)@, r),
    {
        let mut reg = match self.load_assets() {
            Err(e) => {
                return Err(e);
            },
            Ok(reg) => reg,
        };
        let ghost m = reg@;
        match reg.assets.remove(&asset_id) {
            None => {
                assert(!m.dom().contains(asset_id));
                Err(ExecutionError::BridgeAssetNotFound { asset_id })
            },
            Some(mut rec) => {
                assert(m.dom().contains(asset_id) && m[asset_id] == rec@);
                if rec.status != AssetStatus::Removed {
                    rec.status = status;
                }
                let ghost view = rec@;
                reg.assets.insert(asset_id, rec);
                assert(reg@ =~= m.insert(asset_id, view));
                let out: Vec<u8> = asset_registry::encode(&reg);
                self.write_bytes_unchecked(reserved::asset_registry_address(), out);
                Ok(())
            },
        }
    }
}

} // verus!
