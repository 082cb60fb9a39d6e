//! Intents that move, mint and pay out balances.

use vstd::prelude::*;

use crate::bytes::{be_bytes, be_value, field, push_be, read_be, lemma_be_limits};
use crate::error::ExecutionError;
use crate::intent::{ring_name, RewardsRing};
use crate::ledger::{
    agrees, credited, done, drained, moved, moved_or, refused, settled, Ledger, Step,
};
use crate::reserved;
use crate::substrate::{Address, Balance, InMemorySubstrate};

verus! {

/// A transfer between user accounts.
pub open spec fn transfer_step(l: Ledger, from: Address, to: Address, amount: Balance) -> Step {
    if reserved::is_reserved(&from) {
        refused(l, ExecutionError::ReservedAddressTransferDenied { addr: from })
    } else if reserved::is_reserved(&to) {
        refused(l, ExecutionError::ReservedAddressTransferDenied { addr: to })
    } else {
        settled(
            l,
            moved_or(l.balances, from, to, amount, ExecutionError::BalanceOverflow { to }),
        )
    }
}

/// A payment from a user account into a protocol-owned one.
pub open spec fn pay_in_step(l: Ledger, from: Address, pool: Address, amount: Balance) -> Step {
    if amount == 0 {
        done(l)
    } else if reserved::is_reserved(&from) {
        refused(l, ExecutionError::ReservedAddressTransferDenied { addr: from })
    } else {
        settled(l, moved(l.balances, from, pool, amount))
    }
}

/// A payment from a protocol-owned account to a user one.
pub open spec fn pay_out_step(l: Ledger, pool: Address, to: Address, amount: Balance) -> Step {
    if amount == 0 {
        done(l)
    } else if reserved::is_reserved(&to) {
        refused(l, ExecutionError::ReservedAddressTransferDenied { addr: to })
    } else {
        settled(l, moved(l.balances, pool, to, amount))
    }
}

/// The initial supply.
pub open spec fn genesis_step(l: Ledger, allocations: Seq<(Address, Balance)>) -> Step {
    if l.height != 0 {
        refused(l, ExecutionError::GenesisAfterBootstrap { current_block_height: l.height })
    } else {
        settled(l, credited(l.balances, allocations))
    }
}

/// The last minted epoch that a record holds, zero for none.
pub open spec fn minted_epoch(b: Seq<u8>) -> u64 {
    if b.len() == 8 {
        be_value(b) as u64
    } else {
        0
    }
}

/// The credits of an inflation tranche.
pub open spec fn inflation_credits(
    authority_share: Balance,
    validator_share: Balance,
    treasury_share: Balance,
) -> Seq<(Address, Balance)> {
    seq![
        (reserved::authority_rewards_pool_address(), authority_share),
        (reserved::validator_rewards_pool_address(), validator_share),
        (reserved::treasury_address(), treasury_share),
    ]
}

/// The inflation of one epoch.
pub open spec fn mint_step(
    l: Ledger,
    epoch: u64,
    authority_share: Balance,
    validator_share: Balance,
    treasury_share: Balance,
) -> Step {
    let addr = reserved::inflation_registry_address();
    let bytes = l.record(addr);
    let last = minted_epoch(bytes);
    if bytes.len() != 0 && bytes.len() != 8 {
        refused(
            l,
            ExecutionError::CorruptStateRecord { addr, reason: "inflation registry size mismatch" },
        )
    } else if epoch <= last {
        refused(
            l,
            ExecutionError::InflationEpochAlreadyMinted {
                attempted_epoch: epoch,
                last_minted_epoch: last,
            },
        )
    } else {
        match credited(
            l.balances,
            inflation_credits(authority_share, validator_share, treasury_share),
        ) {
            Err(e) => refused(l, e),
            Ok(b) => done(l.with_balances(b).with_record(addr, be_bytes(epoch as nat, 8))),
        }
    }
}

/// The last paid epoch of a ring that a record holds, zero for none.
pub open spec fn paid_epoch(b: Seq<u8>, ring: RewardsRing) -> u64 {
    if b.len() == 16 {
        match ring {
            RewardsRing::Authority => be_value(field(b, 0, 8)) as u64,
            RewardsRing::Validator => be_value(field(b, 8, 8)) as u64,
        }
    } else {
        0
    }
}

/// The rewards pool of a ring.
pub open spec fn rewards_pool(ring: RewardsRing) -> Address {
    match ring {
        RewardsRing::Authority => reserved::authority_rewards_pool_address(),
        RewardsRing::Validator => reserved::validator_rewards_pool_address(),
    }
}

/// The record of the last paid epochs with that of one ring replaced.
pub open spec fn paid_epochs_bytes(b: Seq<u8>, ring: RewardsRing, epoch: u64) -> Seq<u8> {
    let auth = if ring == RewardsRing::Authority {
        epoch
    } else {
        paid_epoch(b, RewardsRing::Authority)
    };
    let val = if ring == RewardsRing::Validator {
        epoch
    } else {
        paid_epoch(b, RewardsRing::Validator)
    };
    be_bytes(auth as nat, 8) + be_bytes(val as nat, 8)
}

/// The first protocol-owned account among `payees`.
pub open spec fn first_reserved(payees: Seq<(Address, Balance)>) -> Option<Address>
    decreases payees.len(),
{
    if payees.len() == 0 {
        None
    } else {
        match first_reserved(payees.drop_last()) {
            Some(a) => Some(a),
            None => if reserved::is_reserved(&payees.last().0) {
                Some(payees.last().0)
            } else {
                None
            },
        }
    }
}

/// The rewards of one epoch.
pub open spec fn rewards_step(
    l: Ledger,
    epoch: u64,
    ring: RewardsRing,
    recipients: Seq<(Address, Balance)>,
) -> Step {
    let addr = reserved::rewards_distribution_registry_address();
    let bytes = l.record(addr);
    let last = paid_epoch(bytes, ring);
    if bytes.len() != 0 && bytes.len() != 16 {
        refused(
            l,
            ExecutionError::CorruptStateRecord {
                addr,
                reason: "rewards distribution registry size mismatch",
            },
        )
    } else if epoch <= last {
        refused(
            l,
            ExecutionError::RewardsEpochAlreadyDistributed {
                ring: ring_name(ring),
                attempted_epoch: epoch,
                last_distributed_epoch: last,
            },
        )
    } else {
        match first_reserved(recipients) {
            Some(a) => refused(l, ExecutionError::ReservedAddressTransferDenied { addr: a }),
            None => match drained(l.balances, rewards_pool(ring), recipients) {
                Err(e) => refused(l, e),
                Ok(b) => done(
                    l.with_balances(b).with_record(addr, paid_epochs_bytes(bytes, ring, epoch)),
                ),
            },
        }
    }
}

/// The credits of a slashing distribution.
pub open spec fn slashing_credits(
    counterparties: Seq<(Address, Balance)>,
    insurance_share: Balance,
    treasury_share: Balance,
) -> Seq<(Address, Balance)> {
    counterparties.push((reserved::insurance_pool_address(), insurance_share)).push(
        (reserved::treasury_address(), treasury_share),
    )
}

/// A slashing distribution.
pub open spec fn slashed_funds_step(
    l: Ledger,
    counterparties: Seq<(Address, Balance)>,
    insurance_share: Balance,
    treasury_share: Balance,
) -> Step {
    match first_reserved(counterparties) {
        Some(a) => refused(l, ExecutionError::ReservedAddressInCounterparties { addr: a }),
        None => settled(
            l,
            credited(
                l.balances,
                slashing_credits(counterparties, insurance_share, treasury_share),
            ),
        ),
    }
}

proof fn lemma_first_reserved_prefix(payees: Seq<(Address, Balance)>, i: int, a: Address)
    requires
        0 <= i <= payees.len(),
        first_reserved(payees.take(i)) == Some(a),
    ensures
        first_reserved(payees) == Some(a),
    decreases payees.len() - i,
{
    if i < payees.len() {
        assert(payees.take(i + 1).drop_last() =~= payees.take(i));
        lemma_first_reserved_prefix(payees, i + 1, a);
    } else {
        assert(payees.take(i) =~= payees);
    }
}

/// Finds the first protocol-owned account among `payees`.
pub fn find_reserved(payees: &[(Address, Balance)]) -> (r: Option<Address>)
    ensures
        r == first_reserved(payees@),
{
    let n: usize = payees.len();
    let mut i: usize = 0;
    assert(payees@.take(0) =~= Seq::empty());
    while i < n
        invariant
            i <= n,
            n == payees@.len(),
            first_reserved(payees@.take(i as int)) is None,
        decreases n - i,
    {
        let (a, _) = payees[i];
        assert(payees@.take(i + 1).drop_last() =~= payees@.take(i as int));
        if reserved::is_reserved(&a) {
            proof {
                lemma_first_reserved_prefix(payees@, i + 1, a);
            }
            return Some(a);
        }
        i = i + 1;
    }
    assert(payees@.take(n as int) =~= payees@);
    None
}

/// Reads the last minted epoch out of a record.
pub fn read_minted_epoch(b: &[u8]) -> (e: u64)
    ensures
        e == minted_epoch(b@),
{
    if b.len() == 8 {
        proof {
            lemma_be_limits();
            assert(field(b@, 0, 8) =~= b@);
        }
        read_be(b, 0, 8) as u64
    } else {
        0
    }
}

/// Reads the last paid epoch of a ring out of a record.
pub fn read_paid_epoch(b: &[u8], ring: RewardsRing) -> (e: u64)
    ensures
        e == paid_epoch(b@, ring),
{
    if b.len() == 16 {
        proof {
            lemma_be_limits();
        }
        match ring {
            RewardsRing::Authority => read_be(b, 0, 8) as u64,
            RewardsRing::Validator => read_be(b, 8, 8) as u64,
        }
    } else {
        0
    }
}

impl InMemorySubstrate {
    pub(crate) fn apply_transfer(&mut self, from: Address, to: Address, amount: Balance) -> (r:
        Result<(), ExecutionError>)
        ensures
            agrees(transfer_step(old(self)@, from, to, amount), final(self)@, r),
    {
        if reserved::is_reserved(&from) {
            return Err(ExecutionError::ReservedAddressTransferDenied { addr: from });
        }
        if reserved::is_reserved(&to) {
            return Err(ExecutionError::ReservedAddressTransferDenied { addr: to });
        }
        self.move_or(from, to, amount, ExecutionError::BalanceOverflow { to })
    }

    pub(crate) fn apply_pay_in(&mut self, from: Address, pool: Address, amount: Balance) -> (r:
        Result<(), ExecutionError>)
        ensures
            agrees(pay_in_step(old(self)@, from, pool, amount), final(self)@, r),
    {
        if amount == 0 {
            return Ok(());
        }
        if reserved::is_reserved(&from) {
            return Err(ExecutionError::ReservedAddressTransferDenied { addr: from });
        }
        self.transfer_internal(from, pool, amount)
    }

    pub(crate) fn apply_pay_out(&mut self, pool: Address, to: Address, amount: Balance) -> (r:
        Result<(), ExecutionError>)
        ensures
            agrees(pay_out_step(old(self)@, pool, to, amount), final(self)@, r),
    {
        if amount == 0 {
            return Ok(());
        }
        if reserved::is_reserved(&to) {
            return Err(ExecutionError::ReservedAddressTransferDenied { addr: to });
        }
        self.transfer_internal(pool, to, amount)
    }

    pub(crate) fn apply_genesis(&mut self, allocations: &[(Address, Balance)]) -> (r: Result<
        (),
        ExecutionError,
    >)
        ensures
            agrees(genesis_step(old(self)@, allocations@), final(self)@, r),
    {
        let height: u64 = self.height();
        if height != 0 {
            return Err(ExecutionError::GenesisAfterBootstrap { current_block_height: height });
        }
        self.credit_many_atomic(allocations)
    }

    pub(crate) fn apply_mint(
        &mut self,
        epoch: u64,
        authority_share: Balance,
        validator_share: Balance,
        treasury_share: Balance,
    ) -> (r: Result<(), ExecutionError>)
        ensures
            agrees(
                mint_step(old(self)@, epoch, authority_share, validator_share, treasury_share),
                final(self)@,
                r,
            ),
    {
        let addr: Address = reserved::inflation_registry_address();
        let bytes: Vec<u8> = self.record_or_empty(&addr);
        if bytes.len() != 0 && bytes.len() != 8 {
            return Err(
                ExecutionError::CorruptStateRecord {
                    addr,
                    reason: "inflation registry size mismatch",
                },
            );
        }
        let last: u64 = read_minted_epoch(bytes.as_slice());
        if epoch <= last {
            return Err(
                ExecutionError::InflationEpochAlreadyMinted {
                    attempted_epoch: epoch,
                    last_minted_epoch: last,
                },
            );
        }
        let credits = [
            (reserved::authority_rewards_pool_address(), authority_share),
            (reserved::validator_rewards_pool_address(), validator_share),
            (reserved::treasury_address(), treasury_share),
        ];
        assert(credits@ =~= inflation_credits(authority_share, validator_share, treasury_share));
        match self.credit_many_atomic(credits.as_slice()) {
            Err(e) => Err(e),
            Ok(()) => {
                let mut out: Vec<u8> = Vec::new();
                push_be(&mut out, epoch as u128, 8);
                assert(out@ =~= be_bytes(epoch as nat, 8));
                self.write_bytes_unchecked(addr, out);
                Ok(())
            },
        }
    }

    pub(crate) fn apply_rewards(
        &mut self,
        epoch: u64,
        ring: RewardsRing,
        recipients: &[(Address, Balance)],
    ) -> (r: Result<(), ExecutionError>)
        ensures
            agrees(rewards_step(old(self)@, epoch, ring, recipients@), final(self)@, r),
    {
        let addr: Address = reserved::rewards_distribution_registry_address();
        let bytes: Vec<u8> = self.record_or_empty(&addr);
        if bytes.len() != 0 && bytes.len() != 16 {
            return Err(
                ExecutionError::CorruptStateRecord {
                    addr,
                    reason: "rewards distribution registry size mismatch",
                },
            );
        }
        let last: u64 = read_paid_epoch(bytes.as_slice(), ring);
        if epoch <= last {
            return Err(
                ExecutionError::RewardsEpochAlreadyDistributed {
                    ring: ring.as_str(),
                    attempted_epoch: epoch,
                    last_distributed_epoch: last,
                },
            );
        }
        match find_reserved(recipients) {
            Some(a) => {
                return Err(ExecutionError::ReservedAddressTransferDenied { addr: a });
            },
            None => {},
        }
        let pool: Address = match ring {
            RewardsRing::Authority => reserved::authority_rewards_pool_address(),
            RewardsRing::Validator => reserved::validator_rewards_pool_address(),
        };
        match self.drain_and_credit_atomic(pool, recipients) {
            Err(e) => Err(e),
            Ok(()) => {
                let mut auth: u64 = read_paid_epoch(bytes.as_slice(), RewardsRing::Authority);
                let mut val: u64 = read_paid_epoch(bytes.as_slice(), RewardsRing::Validator);
                match ring {
                    RewardsRing::Authority => {
                        auth = epoch;
                    },
                    RewardsRing::Validator => {
                        val = epoch;
                    },
                }
                let mut out: Vec<u8> = Vec::new();
                push_be(&mut out, auth as u128, 8);
                push_be(&mut out, val as u128, 8);
                assert(out@ =~= paid_epochs_bytes(bytes@, ring, epoch));
                self.write_bytes_unchecked(addr, out);
                Ok(())
            },
        }
    }

    pub(crate) fn apply_slashed_funds(
        &mut self,
        counterparties: &[(Address, Balance)],
        insurance_share: Balance,
        treasury_share: Balance,
    ) -> (r: Result<(), ExecutionError>)
        ensures
            agrees(
                slashed_funds_step(
                    old(self)@,
                    counterparties@,
                    insurance_share,
                    treasury_share,
                ),
                final(self)@,
                r,
            ),
    {
        match find_reserved(counterparties) {
            Some(a) => {
                return Err(ExecutionError::ReservedAddressInCounterparties { addr: a });
            },
            None => {},
        }
        let mut credits: Vec<(Address, Balance)> = Vec::new();
        let n: usize = counterparties.len();
        let mut i: usize = 0;
        while i < n
            invariant
                i <= n,
                n == counterparties@.len(),
                credits@ == counterparties@.take(i as int),
            decreases n - i,
        {
            credits.push(counterparties[i]);
            i = i + 1;
            assert(credits@ =~= counterparties@.take(i as int));
        }
        credits.push((reserved::insurance_pool_address(), insurance_share));
        credits.push((reserved::treasury_address(), treasury_share));
        assert(credits@ =~= slashing_credits(counterparties@, insurance_share, treasury_share));
        self.credit_many_atomic(credits.as_slice())
    }
}

} // verus!
