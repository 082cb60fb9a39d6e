//! Ring membership and bonded stake.
//!
//! Both rings follow the same rules at their own registry and stake pool.

use vstd::prelude::*;

use crate::authority_registry::{
    self, AuthorityRecord, AuthorityStatus, SlotView, MAX_BLS_PK_BYTES, MAX_MLDSA_PK_BYTES,
};
use crate::bytes::copy_bytes;
use crate::error::ExecutionError;
use crate::intent::{ring_name, RewardsRing};
use crate::ledger::{agrees, done, drained, moved, refused, Ledger, Step};
use crate::ordered::OrderedMap;
use crate::reserved;
use crate::slots::{ring_bytes, views};
use crate::substrate::{Address, Balance, InMemorySubstrate};
use crate::validator_registry;

verus! {

/// Blocks between the start of an exit and the first withdrawal.
pub const EXIT_COOLDOWN_BLOCKS: u64 = 2_419_200;

/// The registry of a ring.
pub open spec fn ring_registry(ring: RewardsRing) -> Address {
    match ring {
        RewardsRing::Authority => reserved::authority_registry_address(),
        RewardsRing::Validator => reserved::validator_registry_address(),
    }
}

/// The stake pool of a ring.
pub open spec fn stake_pool(ring: RewardsRing) -> Address {
    match ring {
        RewardsRing::Authority => reserved::authority_stake_pool_address(),
        RewardsRing::Validator => reserved::validator_stake_pool_address(),
    }
}

/// The slots that a ring record spells, or the error that reading it gives.
pub open spec fn parse_ring(ring: RewardsRing, b: Seq<u8>) -> Result<
    Map<u32, SlotView>,
    ExecutionError,
> {
    match ring {
        RewardsRing::Authority => authority_registry::parse(b),
        RewardsRing::Validator => validator_registry::parse(b),
    }
}

/// The slots of a ring in a state.
pub open spec fn ring_slots(l: Ledger, ring: RewardsRing) -> Result<
    Map<u32, SlotView>,
    ExecutionError,
> {
    parse_ring(ring, l.record(ring_registry(ring)))
}

/// The state with other slots in a ring.
pub open spec fn with_slots(l: Ledger, ring: RewardsRing, m: Map<u32, SlotView>) -> Ledger {
    l.with_record(ring_registry(ring), ring_bytes(m))
}

/// The error for a slot that is not occupied.
pub open spec fn slot_missing(ring: RewardsRing, id: u32) -> ExecutionError {
    match ring {
        RewardsRing::Authority => ExecutionError::AuthorityNotFound { authority_id: id },
        RewardsRing::Validator => ExecutionError::ValidatorNotFound { validator_id: id },
    }
}

/// The error for a slot that is occupied.
pub open spec fn slot_occupied(ring: RewardsRing, id: u32) -> ExecutionError {
    match ring {
        RewardsRing::Authority => ExecutionError::AuthoritySlotAlreadyOccupied { authority_id: id },
        RewardsRing::Validator => ExecutionError::ValidatorSlotAlreadyOccupied { validator_id: id },
    }
}

/// The error for a slot that is not active.
pub open spec fn slot_inactive(
    ring: RewardsRing,
    id: u32,
    status: AuthorityStatus,
) -> ExecutionError {
    match ring {
        RewardsRing::Authority => ExecutionError::AuthorityNotActive { authority_id: id, status },
        RewardsRing::Validator => ExecutionError::ValidatorNotActive { validator_id: id, status },
    }
}

/// The error for a public key that is too long.
pub open spec fn key_too_long(
    ring: RewardsRing,
    field: &'static str,
    got: nat,
    max: usize,
) -> ExecutionError {
    match ring {
        RewardsRing::Authority => ExecutionError::AuthorityFieldTooLong {
            field,
            got: got as usize,
            max,
        },
        RewardsRing::Validator => ExecutionError::ValidatorFieldTooLong {
            field,
            got: got as usize,
            max,
        },
    }
}

/// The name of a status.
pub open spec fn status_name(status: AuthorityStatus) -> &'static str {
    match status {
        AuthorityStatus::Active => "Active",
        AuthorityStatus::Exiting => "Exiting",
        AuthorityStatus::Ejected => "Ejected",
    }
}

/// The insurance pool's part of slashed funds, seven tenths rounded down.
pub open spec fn insurance_part(amount: Balance) -> Balance {
    (amount as int * 70 / 100) as Balance
}

/// The credits that split slashed funds between insurance pool and treasury.
pub open spec fn waterfall(amount: Balance) -> Seq<(Address, Balance)> {
    seq![
        (reserved::insurance_pool_address(), insurance_part(amount)),
        (reserved::treasury_address(), (amount - insurance_part(amount)) as Balance),
    ]
}

/// The first height at which a slot that began to exit at `exit_height` pays out.
pub open spec fn cooldown_end(exit_height: u64) -> u64 {
    if exit_height + EXIT_COOLDOWN_BLOCKS > u64::MAX {
        u64::MAX
    } else {
        (exit_height + EXIT_COOLDOWN_BLOCKS) as u64
    }
}

/// Admission into a free slot.
pub open spec fn admit_step(
    l: Ledger,
    ring: RewardsRing,
    id: u32,
    stake: u64,
    mldsa: Seq<u8>,
    bls: Seq<u8>,
) -> Step {
    if mldsa.len() > MAX_MLDSA_PK_BYTES {
        refused(l, key_too_long(ring, "mldsa_pk", mldsa.len(), MAX_MLDSA_PK_BYTES))
    } else if bls.len() > MAX_BLS_PK_BYTES {
        refused(l, key_too_long(ring, "bls_pk", bls.len(), MAX_BLS_PK_BYTES))
    } else {
        match ring_slots(l, ring) {
            Err(e) => refused(l, e),
            Ok(m) => if m.dom().contains(id) {
                refused(l, slot_occupied(ring, id))
            } else {
                done(
                    with_slots(
                        l,
                        ring,
                        m.insert(
                            id,
                            SlotView {
                                mldsa,
                                bls,
                                stake,
                                deposited: 0,
                                exit_height: 0,
                                status: AuthorityStatus::Active,
                            },
                        ),
                    ),
                )
            },
        }
    }
}

/// The start of a voluntary exit.
pub open spec fn exit_step(l: Ledger, ring: RewardsRing, id: u32) -> Step {
    match ring_slots(l, ring) {
        Err(e) => refused(l, e),
        Ok(m) => if !m.dom().contains(id) {
            refused(l, slot_missing(ring, id))
        } else if m[id].status != AuthorityStatus::Active {
            refused(l, slot_inactive(ring, id, m[id].status))
        } else {
            done(
                with_slots(
                    l,
                    ring,
                    m.insert(
                        id,
                        SlotView {
                            status: AuthorityStatus::Exiting,
                            exit_height: l.height,
                            ..m[id]
                        },
                    ),
                ),
            )
        },
    }
}

/// What an ejection takes from the stake pool.
pub open spec fn forfeit(l: Ledger, ring: RewardsRing, slot: SlotView) -> Balance {
    if (slot.deposited as Balance) < l.balance(stake_pool(ring)) {
        slot.deposited as Balance
    } else {
        l.balance(stake_pool(ring))
    }
}

/// An ejection: the bonded stake goes to insurance pool and treasury.
pub open spec fn eject_step(l: Ledger, ring: RewardsRing, id: u32) -> Step {
    match ring_slots(l, ring) {
        Err(e) => refused(l, e),
        Ok(m) => if !m.dom().contains(id) {
            refused(l, slot_missing(ring, id))
        } else {
            match drained(l.balances, stake_pool(ring), waterfall(forfeit(l, ring, m[id]))) {
                Err(e) => refused(l, e),
                Ok(b) => done(
                    with_slots(
                        l.with_balances(b),
                        ring,
                        m.insert(
                            id,
                            SlotView { status: AuthorityStatus::Ejected, deposited: 0, ..m[id] },
                        ),
                    ),
                ),
            }
        },
    }
}

/// A stake deposit behind an active slot.
pub open spec fn deposit_step(
    l: Ledger,
    ring: RewardsRing,
    from: Address,
    id: u32,
    amount: Balance,
) -> Step {
    if amount == 0 {
        done(l)
    } else if reserved::is_reserved(&from) {
        refused(l, ExecutionError::ReservedAddressTransferDenied { addr: from })
    } else {
        match ring_slots(l, ring) {
            Err(e) => refused(l, e),
            Ok(m) => if !m.dom().contains(id) {
                refused(l, slot_missing(ring, id))
            } else if m[id].status != AuthorityStatus::Active {
                refused(l, slot_inactive(ring, id, m[id].status))
            } else if m[id].deposited + amount > u64::MAX {
                refused(
                    l,
                    ExecutionError::DepositedStakeOverflow { ring: ring_name(ring), slot_id: id },
                )
            } else {
                match moved(l.balances, from, stake_pool(ring), amount) {
                    Err(e) => refused(l, e),
                    Ok(b) => done(
                        with_slots(
                            l.with_balances(b),
                            ring,
                            m.insert(
                                id,
                                SlotView { deposited: (m[id].deposited + amount) as u64, ..m[id] },
                            ),
                        ),
                    ),
                }
            },
        }
    }
}

/// A stake withdrawal from an exiting slot after its cooldown.
pub open spec fn withdraw_step(
    l: Ledger,
    ring: RewardsRing,
    to: Address,
    id: u32,
    amount: Balance,
) -> Step {
    if amount == 0 {
        done(l)
    } else if reserved::is_reserved(&to) {
        refused(l, ExecutionError::ReservedAddressTransferDenied { addr: to })
    } else {
        match ring_slots(l, ring) {
            Err(e) => refused(l, e),
            Ok(m) => if !m.dom().contains(id) {
                refused(l, slot_missing(ring, id))
            } else if m[id].status != AuthorityStatus::Exiting {
                refused(
                    l,
                    ExecutionError::SlotNotExiting {
                        ring: ring_name(ring),
                        slot_id: id,
                        status: status_name(m[id].status),
                    },
                )
            } else if l.height < cooldown_end(m[id].exit_height) {
                refused(
                    l,
                    ExecutionError::ExitCooldownNotElapsed {
                        ring: ring_name(ring),
                        slot_id: id,
                        required_block_height: cooldown_end(m[id].exit_height),
                        current_block_height: l.height,
                    },
                )
            } else if amount > m[id].deposited {
                refused(
                    l,
                    ExecutionError::WithdrawalExceedsDeposit {
                        ring: ring_name(ring),
                        slot_id: id,
                        want: amount,
                        have: m[id].deposited as Balance,
                    },
                )
            } else {
                match moved(l.balances, stake_pool(ring), to, amount) {
                    Err(e) => refused(l, e),
                    Ok(b) => done(
                        with_slots(
                            l.with_balances(b),
                            ring,
                            m.insert(
                                id,
                                SlotView { deposited: (m[id].deposited - amount) as u64, ..m[id] },
                            ),
                        ),
                    ),
                }
            },
        }
    }
}

/// Works out the insurance pool's part of slashed funds.
pub fn split_insurance(amount: Balance) -> (p: Balance)
    ensures
        p == insurance_part(amount),
        p <= amount,
{
    let q: Balance = amount / 100;
    let m: Balance = amount % 100;
    assert(q * 70 + m * 70 / 100 == amount as int * 70 / 100) by {
        assert(amount as int == 100 * q + m);
        assert((100 * q + m) * 70 / 100 == q * 70 + m * 70 / 100) by (nonlinear_arith);
    }
    q * 70 + m * 70 / 100
}

/// The first height at which a slot that began to exit at `exit_height` pays out.
pub fn cooldown_over_at(exit_height: u64) -> (h: u64)
    ensures
        h == cooldown_end(exit_height),
{
    match exit_height.checked_add(EXIT_COOLDOWN_BLOCKS) {
        Some(h) => h,
        None => u64::MAX,
    }
}

fn registry_address(ring: RewardsRing) -> (a: Address)
    ensures
        a == ring_registry(ring),
{
    match ring {
        RewardsRing::Authority => reserved::authority_registry_address(),
        RewardsRing::Validator => reserved::validator_registry_address(),
    }
}

fn pool_address(ring: RewardsRing) -> (a: Address)
    ensures
        a == stake_pool(ring),
{
    match ring {
        RewardsRing::Authority => reserved::authority_stake_pool_address(),
        RewardsRing::Validator => reserved::validator_stake_pool_address(),
    }
}

fn missing(ring: RewardsRing, id: u32) -> (e: ExecutionError)
    ensures
        e == slot_missing(ring, id),
{
    match ring {
        RewardsRing::Authority => ExecutionError::AuthorityNotFound { authority_id: id },
        RewardsRing::Validator => ExecutionError::ValidatorNotFound { validator_id: id },
    }
}

fn occupied(ring: RewardsRing, id: u32) -> (e: ExecutionError)
    ensures
        e == slot_occupied(ring, id),
{
    match ring {
        RewardsRing::Authority => ExecutionError::AuthoritySlotAlreadyOccupied { authority_id: id },
        RewardsRing::Validator => ExecutionError::ValidatorSlotAlreadyOccupied { validator_id: id },
    }
}

fn inactive(ring: RewardsRing, id: u32, status: AuthorityStatus) -> (e: ExecutionError)
    ensures
        e == slot_inactive(ring, id, status),
{
    match ring {
        RewardsRing::Authority => ExecutionError::AuthorityNotActive { authority_id: id, status },
        RewardsRing::Validator => ExecutionError::ValidatorNotActive { validator_id: id, status },
    }
}

fn too_long(ring: RewardsRing, field: &'static str, got: usize, max: usize) -> (e: ExecutionError)
    ensures
        e == key_too_long(ring, field, got as nat, max),
{
    match ring {
        RewardsRing::Authority => ExecutionError::AuthorityFieldTooLong { field, got, max },
        RewardsRing::Validator => ExecutionError::ValidatorFieldTooLong { field, got, max },
    }
}

fn name_of(status: AuthorityStatus) -> (s: &'static str)
    ensures
        s == status_name(status),
{
    match status {
        AuthorityStatus::Active => "Active",
        AuthorityStatus::Exiting => "Exiting",
        AuthorityStatus::Ejected => "Ejected",
    }
}

/// The credits that split slashed funds between insurance pool and treasury.
pub(crate) fn waterfall_credits(amount: Balance) -> (c: [(Address, Balance); 2])
    ensures
        c@ == waterfall(amount),
{
    let insurance: Balance = split_insurance(amount);
    let c = [
        (reserved::insurance_pool_address(), insurance),
        (reserved::treasury_address(), amount - insurance),
    ];
    assert(c@ =~= waterfall(amount));
    c
}

impl InMemorySubstrate {
    /// Reads the slots of a ring.
    pub(crate) fn load_ring(&self, ring: RewardsRing) -> (r: Result<
        OrderedMap<u32, AuthorityRecord>,
        ExecutionError,
    >)
        ensures
            match r {
                Ok(m) => ring_slots(self@, ring) == Ok::<Map<u32, SlotView>, ExecutionError>(
                    views(m@),
                ),
                Err(e) => ring_slots(self@, ring) == Err::<Map<u32, SlotView>, ExecutionError>(e),
            },
    {
        let bytes: Vec<u8> = self.record_or_empty(&registry_address(ring));
        match ring {
            RewardsRing::Authority => authority_registry::decode(bytes.as_slice()),
            RewardsRing::Validator => validator_registry::decode(bytes.as_slice()),
        }
    }

    /// Writes the slots of a ring with `rec` put back under `id`.
    fn save_slot(
        &mut self,
        ring: RewardsRing,
        map: OrderedMap<u32, AuthorityRecord>,
        id: u32,
        rec: AuthorityRecord,
        Ghost(m): Ghost<Map<u32, SlotView>>,
    )
        requires
            views(map@) == m.remove(id),
        ensures
            final(self)@ == with_slots(old(self)@, ring, m.insert(id, rec@)),
    {
        let mut map = map;
        let ghost before = map@;
        let ghost slot = rec@;
        map.insert(id, rec);
        assert(views(map@) =~= views(before).insert(id, slot));
        assert(m.remove(id).insert(id, slot) =~= m.insert(id, slot));
        let out: Vec<u8> = authority_registry::encode(&map);
        self.write_bytes_unchecked(registry_address(ring), out);
    }

    pub(crate) fn apply_admit(
        &mut self,
        ring: RewardsRing,
        id: u32,
        stake: u64,
        mldsa: &Vec<u8>,
        bls: &Vec<u8>,
    ) -> (r: Result<(), ExecutionError>)
        ensures
            agrees(admit_step(old(self)@, ring, id, stake, mldsa@, bls@), final(self)@, r),
    {
        if mldsa.len() > MAX_MLDSA_PK_BYTES {
            return Err(too_long(ring, "mldsa_pk", mldsa.len(), MAX_MLDSA_PK_BYTES));
        }
        if bls.len() > MAX_BLS_PK_BYTES {
            return Err(too_long(ring, "bls_pk", bls.len(), MAX_BLS_PK_BYTES));
        }
        let map = match self.load_ring(ring) {
            Err(e) => {
                return Err(e);
            },
            Ok(m) => m,
        };
        let ghost m = views(map@);
        if map.contains_key(&id) {
            assert(m.dom().contains(id));
            return Err(occupied(ring, id));
        }
        let rec = AuthorityRecord {
            mldsa_public_key: copy_bytes(mldsa.as_slice()),
            bls_public_key: copy_bytes(bls.as_slice()),
            stake_gsx: stake,
            deposited_stake: 0,
            exit_block_height: 0,
            status: AuthorityStatus::Active,
        };
        assert(!m.dom().contains(id));
        assert(m.remove(id) =~= m);
        self.save_slot(ring, map, id, rec, Ghost(m));
        Ok(())
    }

    pub(crate) fn apply_exit(&mut self, ring: RewardsRing, id: u32) -> (r: Result<
        (),
        ExecutionError,
    >)
        ensures
            agrees(exit_step(old(self)@, ring, id), final(self)@, r),
    {
        let height: u64 = self.height();
        let mut map = match self.load_ring(ring) {
            Err(e) => {
                return Err(e);
            },
            Ok(m) => m,
        };
        let ghost m = views(map@);
        let ghost before = map@;
        match map.remove(&id) {
            None => {
                assert(!m.dom().contains(id));
                Err(missing(ring, id))
            },
            Some(mut rec) => {
                assert(m.dom().contains(id) && m[id] == rec@);
                match rec.status {
                    AuthorityStatus::Active => {
                        rec.status = AuthorityStatus::Exiting;
                        rec.exit_block_height = height;
                        assert(views(map@) =~= m.remove(id));
                        self.save_slot(ring, map, id, rec, Ghost(m));
                        Ok(())
                    },
                    status => Err(inactive(ring, id, status)),
                }
            },
        }
    }

    pub(crate) fn apply_eject(&mut self, ring: RewardsRing, id: u32) -> (r: Result<
        (),
        ExecutionError,
    >)
        ensures
            agrees(eject_step(old(self)@, ring, id), final(self)@, r),
    {
        let mut map = match self.load_ring(ring) {
            Err(e) => {
                return Err(e);
            },
            Ok(m) => m,
        };
        let ghost m = views(map@);
        match map.remove(&id) {
            None => {
                assert(!m.dom().contains(id));
                Err(missing(ring, id))
            },
            Some(mut rec) => {
                assert(m.dom().contains(id) && m[id] == rec@);
                let pool: Address = pool_address(ring);
                let held: Balance = self.balance_at(&pool);
                let bonded: Balance = rec.deposited_stake as Balance;
                let taken: Balance = if bonded < held {
                    bonded
                } else {
                    held
                };
                let credits = waterfall_credits(taken);
                match self.drain_and_credit_atomic(pool, credits.as_slice()) {
                    Err(e) => Err(e),
                    Ok(()) => {
                        rec.deposited_stake = 0;
                        rec.status = AuthorityStatus::Ejected;
                        assert(views(map@) =~= m.remove(id));
                        self.save_slot(ring, map, id, rec, Ghost(m));
                        Ok(())
                    },
                }
            },
        }
    }

    pub(crate) fn apply_deposit(
        &mut self,
        ring: RewardsRing,
        from: Address,
        id: u32,
        amount: Balance,
    ) -> (r: Result<(), ExecutionError>)
        ensures
            agrees(deposit_step(old(self)@, ring, from, id, amount), final(self)@, r),
    {
        if amount == 0 {
            return Ok(());
        }
        if reserved::is_reserved(&from) {
            return Err(ExecutionError::ReservedAddressTransferDenied { addr: from });
        }
        let mut map = match self.load_ring(ring) {
            Err(e) => {
                return Err(e);
            },
            Ok(m) => m,
        };
        let ghost m = views(map@);
        match map.remove(&id) {
            None => {
                assert(!m.dom().contains(id));
                Err(missing(ring, id))
            },
            Some(mut rec) => {
                assert(m.dom().contains(id) && m[id] == rec@);
                match rec.status {
                    AuthorityStatus::Active => {
                        if amount > (u64::MAX - rec.deposited_stake) as Balance {
                            return Err(
                                ExecutionError::DepositedStakeOverflow {
                                    ring: ring.as_str(),
                                    slot_id: id,
                                },
                            );
                        }
                        match self.transfer_internal(from, pool_address(ring), amount) {
                            Err(e) => Err(e),
                            Ok(()) => {
                                rec.deposited_stake = rec.deposited_stake + amount as u64;
                                assert(views(map@) =~= m.remove(id));
                                self.save_slot(ring, map, id, rec, Ghost(m));
                                Ok(())
                            },
                        }
                    },
                    status => Err(inactive(ring, id, status)),
                }
            },
        }
    }

    pub(crate) fn apply_withdraw(
        &mut self,
        ring: RewardsRing,
        to: Address,
        id: u32,
        amount: Balance,
    ) -> (r: Result<(), ExecutionError>)
        ensures
            agrees(withdraw_step(old(self)@, ring, to, id, amount), final(self)@, r),
    {
        if amount == 0 {
            return Ok(());
        }
        if reserved::is_reserved(&to) {
            return Err(ExecutionError::ReservedAddressTransferDenied { addr: to });
        }
        let height: u64 = self.height();
        let mut map = match self.load_ring(ring) {
            Err(e) => {
                return Err(e);
            },
            Ok(m) => m,
        };
        let ghost m = views(map@);
        match map.remove(&id) {
            None => {
                assert(!m.dom().contains(id));
                Err(missing(ring, id))
            },
            Some(mut rec) => {
                assert(m.dom().contains(id) && m[id] == rec@);
                match rec.status {
                    AuthorityStatus::Exiting => {},
                    status => {
                        return Err(
                            ExecutionError::SlotNotExiting {
                                ring: ring.as_str(),
                                slot_id: id,
                                status: name_of(status),
                            },
                        );
                    },
                }
                let required: u64 = cooldown_over_at(rec.exit_block_height);
                if height < required {
                    return Err(
                        ExecutionError::ExitCooldownNotElapsed {
                            ring: ring.as_str(),
                            slot_id: id,
                            required_block_height: required,
                            current_block_height: height,
                        },
                    );
                }
                let have: Balance = rec.deposited_stake as Balance;
                if amount > have {
                    return Err(
                        ExecutionError::WithdrawalExceedsDeposit {
                            ring: ring.as_str(),
                            slot_id: id,
                            want: amount,
                            have,
                        },
                    );
                }
                match self.transfer_internal(pool_address(ring), to, amount) {
                    Err(e) => Err(e),
                    Ok(()) => {
                        rec.deposited_stake = rec.deposited_stake - amount as u64;
                        assert(views(map@) =~= m.remove(id));
                        self.save_slot(ring, map, id, rec, Ghost(m));
                        Ok(())
                    },
                }
            },
        }
    }
}

} // verus!
