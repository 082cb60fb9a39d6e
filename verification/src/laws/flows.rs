//! Which accounts an intent debits and credits, and by how much.

use vstd::prelude::*;

use crate::apply::{applied, EvidenceView};
use crate::asset_registry::AssetStatus;
use crate::assets::{list_step, restatus_step};
use crate::delegating::{
    claim_step, delegate_step, matured_sum, unbondings, undelegate_step,
};
use crate::equivocation_registry::OffenseKind;
use crate::error::ExecutionError;
use crate::intent::{Intent, RewardsRing, SlashReason};
use crate::laws::payments::{
    at, credit_to, law_credits_add_up, law_drain_pays_the_credits, law_payment_moves_the_amount,
    lemma_one, lemma_push, lemma_still, tip_paid,
};
use crate::ledger::{
    balance_of, credit_sum, drained, moved, moved_or, no_zeros, supply, Ledger, Step,
};
use crate::ordered::sorted_rows;
use crate::readers::{readable, row_at};
use crate::reserved;
use crate::rollup::{anchor_step, burn_step, commit_step, lock_step, pin_step};
use crate::sequencing::{
    honor_step, liveness_slash, missed_step, oblige_step, obligations, offense_step, oust_step,
    snitch_bounty,
};
use crate::staking::{
    admit_step, deposit_step, eject_step, exit_step, forfeit, insurance_part, ring_slots,
    stake_pool, waterfall, withdraw_step,
};
use crate::substrate::{Address, Balance};
use crate::transfers::{
    genesis_step, inflation_credits, mint_step, pay_in_step, pay_out_step, rewards_pool,
    rewards_step, slashed_funds_step, slashing_credits, transfer_step,
};

verus! {

/// What an intent takes from accounts and gives to accounts.
pub struct Flow {
    pub debits: Seq<(Address, Balance)>,
    pub credits: Seq<(Address, Balance)>,
}

/// Nothing moves.
pub open spec fn still() -> Flow {
    Flow { debits: seq![], credits: seq![] }
}

/// One amount moves.
pub open spec fn paid(from: Address, to: Address, amount: Balance) -> Flow {
    Flow { debits: seq![(from, amount)], credits: seq![(to, amount)] }
}

/// New money comes in.
pub open spec fn issued(credits: Seq<(Address, Balance)>) -> Flow {
    Flow { debits: seq![], credits }
}

/// One account pays all credits.
pub open spec fn shared(from: Address, credits: Seq<(Address, Balance)>) -> Flow {
    Flow { debits: seq![(from, credit_sum(credits) as Balance)], credits }
}

/// What the slash for a missed deadline moves.
pub open spec fn missed_flow(l: Ledger, id: [u8; 32]) -> Flow {
    let bond = reserved::sequencer_bond_address();
    let treasury = reserved::treasury_address();
    let slash = liveness_slash(l.balance(bond));
    match (row_at(readable(obligations(l)), id), drained(l.balances, bond, waterfall(slash))) {
        (Some(ob), Ok(b)) => if reserved::is_reserved(&ob.submitter) {
            shared(bond, waterfall(slash))
        } else {
            let tip = tip_paid(b, treasury, snitch_bounty(slash));
            Flow {
                debits: seq![(bond, slash), (treasury, tip)],
                credits: waterfall(slash).push((ob.submitter, tip)),
            }
        },
        _ => still(),
    }
}

/// What an ejection from a ring moves.
pub open spec fn eject_flow(l: Ledger, ring: RewardsRing, id: u32) -> Flow {
    match row_at(readable(ring_slots(l, ring)), id) {
        Some(slot) => shared(stake_pool(ring), waterfall(forfeit(l, ring, slot))),
        None => still(),
    }
}

/// What a claim of unbonded stake moves.
pub open spec fn claim_flow(l: Ledger, from: Address, validator_id: u32) -> Flow {
    match unbondings(l) {
        Ok(u) => paid(
            reserved::validator_stake_pool_address(),
            from,
            matured_sum(sorted_rows(u), from, validator_id, l.height) as Balance,
        ),
        Err(_) => still(),
    }
}

/// What the slash for a proven offense moves.
pub open spec fn offense_flow(l: Ledger) -> Flow {
    let bond = reserved::safety_bond_address();
    shared(bond, waterfall(l.balance(bond)))
}

/// What the ejection of the sequencer moves.
pub open spec fn oust_flow(l: Ledger, ejector: Address) -> Flow {
    let treasury = reserved::treasury_address();
    let bounty = snitch_bounty(liveness_slash(l.balance(reserved::sequencer_bond_address())));
    paid(treasury, ejector, tip_paid(l.balances, treasury, bounty))
}

/// What an intent moves when it succeeds.
pub open spec fn flow(l: Ledger, intent: Intent) -> Flow {
    match intent {
        Intent::Transfer { from, to, amount } => paid(from, to, amount),
        Intent::GenesisAllocation { allocations } => issued(allocations@),
        Intent::DistributeRewards { epoch: _, ring, recipients } => shared(
            rewards_pool(ring),
            recipients@,
        ),
        Intent::Delegate { from, validator_id: _, amount } => paid(
            from,
            reserved::validator_stake_pool_address(),
            amount,
        ),
        Intent::UndelegateClaim { from, validator_id } => claim_flow(l, from, validator_id),
        Intent::MintInflation { epoch: _, authority_share, validator_share, treasury_share } => {
            issued(inflation_credits(authority_share, validator_share, treasury_share))
        },
        Intent::EjectAuthority { authority_id, proof_ref: _ } => eject_flow(
            l,
            RewardsRing::Authority,
            authority_id,
        ),
        Intent::EjectValidator { validator_id, proof_ref: _ } => eject_flow(
            l,
            RewardsRing::Validator,
            validator_id,
        ),
        Intent::L1Lock { user_address, l2_recipient: _, amount, asset_id: _ } => paid(
            user_address,
            reserved::bridge_escrow_address(),
            amount,
        ),
        Intent::L2BurnProven {
            batch_id: _,
            recipient,
            amount,
            merkle_path: _,
            path_directions: _,
            asset_id: _,
            l2_chain_id_hash: _,
        } => paid(reserved::bridge_escrow_address(), recipient, amount),
        Intent::SlashSequencer { reason, intent_hash } => match reason {
            SlashReason::MissedForceInclude => missed_flow(l, intent_hash),
            SlashReason::Equivocation | SlashReason::InvalidBatch => offense_flow(l),
            SlashReason::Downtime => still(),
        },
        Intent::EjectSequencer { obligation_id: _, ejector } => oust_flow(l, ejector),
        Intent::DepositSequencerBond { from, amount } => paid(
            from,
            reserved::sequencer_bond_address(),
            amount,
        ),
        Intent::DepositSafetyBond { from, amount } => paid(
            from,
            reserved::safety_bond_address(),
            amount,
        ),
        Intent::DepositAuthorityStake { from, authority_id: _, amount } => paid(
            from,
            stake_pool(RewardsRing::Authority),
            amount,
        ),
        Intent::DepositValidatorStake { from, validator_id: _, amount } => paid(
            from,
            stake_pool(RewardsRing::Validator),
            amount,
        ),
        Intent::WithdrawAuthorityStake { to, authority_id: _, amount } => paid(
            stake_pool(RewardsRing::Authority),
            to,
            amount,
        ),
        Intent::WithdrawValidatorStake { to, validator_id: _, amount } => paid(
            stake_pool(RewardsRing::Validator),
            to,
            amount,
        ),
        Intent::DisburseTreasury { recipient, amount, purpose_tag: _ } => paid(
            reserved::treasury_address(),
            recipient,
            amount,
        ),
        Intent::ClaimInsurance { claimant, amount, claim_reference: _ } => paid(
            reserved::insurance_pool_address(),
            claimant,
            amount,
        ),
        Intent::DistributeSlashedFunds {
            slash_event_id: _,
            counterparties,
            insurance_share,
            treasury_share,
        } => issued(slashing_credits(counterparties@, insurance_share, treasury_share)),
        _ => still(),
    }
}

/// Whether a step changes balances by exactly `f` where it succeeds and not at
/// all where it fails. What is debited is then credited; without a debit, the
/// credits are new money.
pub open spec fn follows(l: Ledger, s: Step, f: Flow) -> bool {
    match s.answer {
        Ok(_) => {
            &&& forall|x: Address| #[trigger]
                s.ledger.balance(x) == l.balance(x) - credit_to(f.debits, x) + credit_to(
                    f.credits,
                    x,
                )
            &&& f.debits.len() == 0 || credit_sum(f.debits) == credit_sum(f.credits)
            &&& l.wf() ==> {
                &&& no_zeros(s.ledger.balances)
                &&& s.ledger.balances.dom().finite()
                &&& supply(s.ledger.balances) == supply(l.balances) - credit_sum(f.debits)
                    + credit_sum(f.credits)
            }
        },
        Err(_) => s.ledger.balances == l.balances,
    }
}

/// The two parts of slashed funds are all of them.
pub proof fn law_waterfall_splits_everything(amount: Balance)
    ensures
        credit_sum(waterfall(amount)) == amount,
        insurance_part(amount) <= amount,
        insurance_part(amount) as int == amount as int * 70 / 100,
{
    let i = insurance_part(amount);
    let t = (amount - i) as Balance;
    assert(0 <= amount as int * 70 / 100 <= amount) by (nonlinear_arith)
        requires
            amount >= 0,
    ;
    lemma_one(reserved::insurance_pool_address(), i);
    lemma_push(seq![(reserved::insurance_pool_address(), i)], reserved::treasury_address(), t);
    assert(waterfall(amount) =~= seq![(reserved::insurance_pool_address(), i)].push(
        (reserved::treasury_address(), t),
    ));
}

proof fn lemma_paid(l: Ledger, s: Step, from: Address, to: Address, amount: Balance)
    requires
        s.answer is Ok ==> (exists|e: ExecutionError| #[trigger]
            moved_or(l.balances, from, to, amount, e) == Ok::<
                Map<Address, Balance>,
                ExecutionError,
            >(s.ledger.balances)) || (amount == 0 && s.ledger.balances == l.balances),
        s.answer is Err ==> s.ledger.balances == l.balances,
    ensures
        follows(l, s, paid(from, to, amount)),
{
    lemma_one(from, amount);
    lemma_one(to, amount);
    if s.answer is Ok {
        if amount == 0 && s.ledger.balances == l.balances {
        } else {
            let e = choose|e: ExecutionError| #[trigger]
                moved_or(l.balances, from, to, amount, e) == Ok::<
                    Map<Address, Balance>,
                    ExecutionError,
                >(s.ledger.balances);
            law_payment_moves_the_amount(l.balances, from, to, amount, e);
        }
    }
}

proof fn lemma_shared(l: Ledger, s: Step, from: Address, credits: Seq<(Address, Balance)>)
    requires
        s.answer is Ok ==> drained(l.balances, from, credits) == Ok::<
            Map<Address, Balance>,
            ExecutionError,
        >(s.ledger.balances),
        s.answer is Err ==> s.ledger.balances == l.balances,
    ensures
        follows(l, s, shared(from, credits)),
{
    law_drain_pays_the_credits(l.balances, from, credits);
    if s.answer is Ok {
        let m = s.ledger.balances;
        assert(drained(l.balances, from, credits) matches Ok(n) && n == m);
        assert(credit_sum(credits) <= Balance::MAX);
        lemma_one(from, credit_sum(credits) as Balance);
        let f = shared(from, credits);
        assert forall|x: Address| #[trigger]
            s.ledger.balance(x) == l.balance(x) - credit_to(f.debits, x) + credit_to(
                f.credits,
                x,
            ) by {
            assert(credit_to(f.debits, x) == at(x, from, credit_sum(credits) as int));
            assert(balance_of(m, x) == balance_of(l.balances, x) - at(
                x,
                from,
                credit_sum(credits) as int,
            ) + credit_to(credits, x));
        }
    }
}

proof fn lemma_missed(l: Ledger, id: [u8; 32])
    ensures
        follows(l, missed_step(l, id), missed_flow(l, id)),
{
    let bond = reserved::sequencer_bond_address();
    let treasury = reserved::treasury_address();
    let slash = liveness_slash(l.balance(bond));
    let s = missed_step(l, id);
    law_waterfall_splits_everything(slash);
    if let Ok(m) = obligations(l) {
        if m.dom().contains(id) && s.answer is Ok {
            let ob = m[id];
            if reserved::is_reserved(&ob.submitter) {
                lemma_shared(l, s, bond, waterfall(slash));
            } else {
                law_drain_pays_the_credits(l.balances, bond, waterfall(slash));
                if let Ok(b) = drained(l.balances, bond, waterfall(slash)) {
                    let tip = tip_paid(b, treasury, snitch_bounty(slash));
                    law_payment_moves_the_amount(
                        b,
                        treasury,
                        ob.submitter,
                        tip,
                        ExecutionError::DistributionOverflow { to: ob.submitter },
                    );
                    lemma_one(bond, slash);
                    lemma_push(seq![(bond, slash)], treasury, tip);
                    assert(seq![(bond, slash), (treasury, tip)] =~= seq![(bond, slash)].push(
                        (treasury, tip),
                    ));
                    lemma_push(waterfall(slash), ob.submitter, tip);
                    assert(moved(b, treasury, ob.submitter, tip) == Ok::<
                        Map<Address, Balance>,
                        ExecutionError,
                    >(s.ledger.balances));
                    assert forall|x: Address| #[trigger]
                        s.ledger.balance(x) == l.balance(x) - credit_to(
                            missed_flow(l, id).debits,
                            x,
                        ) + credit_to(missed_flow(l, id).credits, x) by {
                        assert(balance_of(s.ledger.balances, x) == balance_of(b, x) - at(
                            x,
                            treasury,
                            tip as int,
                        ) + at(x, ob.submitter, tip as int));
                    }
                }
            }
        }
    }
}

proof fn lemma_transfer(
    l: Ledger,
    from: Address,
    to: Address,
    amount: Balance,
)
    ensures
        follows(l, transfer_step(l, from, to, amount), paid(from, to, amount)),
{
    let s = transfer_step(l, from, to, amount);
    lemma_paid(l, s, from, to, amount);
}

proof fn lemma_pay_in(
    l: Ledger,
    from: Address,
    pool: Address,
    amount: Balance,
)
    ensures
        follows(l, pay_in_step(l, from, pool, amount), paid(from, pool, amount)),
{
    let s = pay_in_step(l, from, pool, amount);
    lemma_paid(l, s, from, pool, amount);
}

proof fn lemma_pay_out(
    l: Ledger,
    pool: Address,
    to: Address,
    amount: Balance,
)
    ensures
        follows(l, pay_out_step(l, pool, to, amount), paid(pool, to, amount)),
{
    let s = pay_out_step(l, pool, to, amount);
    lemma_paid(l, s, pool, to, amount);
}

proof fn lemma_genesis(
    l: Ledger,
    allocations: Seq<(Address, Balance)>,
)
    ensures
        follows(l, genesis_step(l, allocations), issued(allocations)),
{
    lemma_still();
    law_credits_add_up(l.balances, allocations);
}

proof fn lemma_mint(
    l: Ledger,
    epoch: u64,
    authority: Balance,
    validator: Balance,
    treasury: Balance,
)
    ensures
        follows(
            l,
            mint_step(l, epoch, authority, validator, treasury),
            issued(inflation_credits(authority, validator, treasury)),
        ),
{
    lemma_still();
    law_credits_add_up(l.balances, inflation_credits(authority, validator, treasury));
}

proof fn lemma_rewards(
    l: Ledger,
    epoch: u64,
    ring: RewardsRing,
    recipients: Seq<(Address, Balance)>,
)
    ensures
        follows(
            l,
            rewards_step(l, epoch, ring, recipients),
            shared(rewards_pool(ring), recipients),
        ),
{
    let s = rewards_step(l, epoch, ring, recipients);
    lemma_shared(l, s, rewards_pool(ring), recipients);
}

proof fn lemma_slashed_funds(
    l: Ledger,
    counterparties: Seq<(Address, Balance)>,
    insurance: Balance,
    treasury: Balance,
)
    ensures
        follows(
            l,
            slashed_funds_step(l, counterparties, insurance, treasury),
            issued(slashing_credits(counterparties, insurance, treasury)),
        ),
{
    lemma_still();
    law_credits_add_up(l.balances, slashing_credits(counterparties, insurance, treasury));
}

proof fn lemma_delegate(
    l: Ledger,
    from: Address,
    id: u32,
    amount: Balance,
)
    ensures
        follows(
            l,
            delegate_step(l, from, id, amount),
            paid(from, reserved::validator_stake_pool_address(), amount),
        ),
{
    let s = delegate_step(l, from, id, amount);
    lemma_paid(l, s, from, reserved::validator_stake_pool_address(), amount);
}

proof fn lemma_undelegate(
    l: Ledger,
    from: Address,
    id: u32,
    amount: Balance,
)
    ensures
        follows(l, undelegate_step(l, from, id, amount), still()),
{
    lemma_still();
}

proof fn lemma_claim(
    l: Ledger,
    from: Address,
    id: u32,
)
    ensures
        follows(l, claim_step(l, from, id), claim_flow(l, from, id)),
{
    let s = claim_step(l, from, id);
    lemma_still();
    if let Ok(u) = unbondings(l) {
        let total = matured_sum(sorted_rows(u), from, id, l.height) as Balance;
        lemma_paid(l, s, reserved::validator_stake_pool_address(), from, total);
    }
}

proof fn lemma_admit(
    l: Ledger,
    ring: RewardsRing,
    id: u32,
    stake: u64,
    mldsa: Seq<u8>,
    bls: Seq<u8>,
)
    ensures
        follows(l, admit_step(l, ring, id, stake, mldsa, bls), still()),
{
    lemma_still();
}

proof fn lemma_exit(
    l: Ledger,
    ring: RewardsRing,
    id: u32,
)
    ensures
        follows(l, exit_step(l, ring, id), still()),
{
    lemma_still();
}

proof fn lemma_eject(
    l: Ledger,
    ring: RewardsRing,
    id: u32,
)
    ensures
        follows(l, eject_step(l, ring, id), eject_flow(l, ring, id)),
{
    let s = eject_step(l, ring, id);
    lemma_still();
    if let Some(slot) = row_at(readable(ring_slots(l, ring)), id) {
        lemma_shared(l, s, stake_pool(ring), waterfall(forfeit(l, ring, slot)));
    }
}

proof fn lemma_deposit(
    l: Ledger,
    ring: RewardsRing,
    from: Address,
    id: u32,
    amount: Balance,
)
    ensures
        follows(l, deposit_step(l, ring, from, id, amount), paid(from, stake_pool(ring), amount)),
{
    let s = deposit_step(l, ring, from, id, amount);
    lemma_paid(l, s, from, stake_pool(ring), amount);
}

proof fn lemma_withdraw(
    l: Ledger,
    ring: RewardsRing,
    to: Address,
    id: u32,
    amount: Balance,
)
    ensures
        follows(l, withdraw_step(l, ring, to, id, amount), paid(stake_pool(ring), to, amount)),
{
    let s = withdraw_step(l, ring, to, id, amount);
    lemma_paid(l, s, stake_pool(ring), to, amount);
}

proof fn lemma_commit(
    l: Ledger,
    batch_id: u64,
    root: [u8; 32],
    proof_bytes: Seq<u8>,
    inputs: Seq<u8>,
    vk: [u8; 32],
    verdict: Result<(), Seq<char>>,
)
    ensures
        follows(l, commit_step(l, batch_id, root, proof_bytes, inputs, vk, verdict), still()),
{
    lemma_still();
}

proof fn lemma_pin(
    l: Ledger,
    chain: [u8; 32],
    vk: [u8; 32],
    range: [u8; 32],
)
    ensures
        follows(l, pin_step(l, chain, vk, range), still()),
{
    lemma_still();
}

proof fn lemma_lock(
    l: Ledger,
    user: Address,
    amount: Balance,
    asset: Option<[u8; 32]>,
)
    ensures
        follows(
            l,
            lock_step(l, user, amount, asset),
            paid(user, reserved::bridge_escrow_address(), amount),
        ),
{
    let s = lock_step(l, user, amount, asset);
    lemma_paid(l, s, user, reserved::bridge_escrow_address(), amount);
}

proof fn lemma_burn(
    l: Ledger,
    batch_id: u64,
    to: Address,
    amount: Balance,
    path: Seq<u8>,
    directions: Seq<u8>,
    asset: Option<[u8; 32]>,
    chain: [u8; 32],
    vouched: bool,
)
    ensures
        follows(
            l,
            burn_step(l, batch_id, to, amount, path, directions, asset, chain, vouched),
            paid(reserved::bridge_escrow_address(), to, amount),
        ),
{
    let s = burn_step(l, batch_id, to, amount, path, directions, asset, chain, vouched);
    lemma_paid(l, s, reserved::bridge_escrow_address(), to, amount);
}

proof fn lemma_anchor(
    l: Ledger,
    batch_id: u64,
    blob: Seq<u8>,
    chain: [u8; 32],
)
    ensures
        follows(l, anchor_step(l, batch_id, blob, chain), still()),
{
    lemma_still();
}

proof fn lemma_oblige(
    l: Ledger,
    tx: Seq<u8>,
    deadline: u64,
    submitter: Address,
    nonce: u64,
)
    ensures
        follows(l, oblige_step(l, tx, deadline, submitter, nonce), still()),
{
    lemma_still();
}

proof fn lemma_honor(
    l: Ledger,
    id: [u8; 32],
)
    ensures
        follows(l, honor_step(l, id), still()),
{
    lemma_still();
}

proof fn lemma_offense(
    l: Ledger,
    kind: OffenseKind,
    id: [u8; 32],
)
    ensures
        follows(l, offense_step(l, kind, id), offense_flow(l)),
{
    let s = offense_step(l, kind, id);
    let bond = reserved::safety_bond_address();
    lemma_shared(l, s, bond, waterfall(l.balance(bond)));
}

proof fn lemma_oust(
    l: Ledger,
    id: [u8; 32],
    ejector: Address,
)
    ensures
        follows(l, oust_step(l, id, ejector), oust_flow(l, ejector)),
{
    let s = oust_step(l, id, ejector);
    let treasury = reserved::treasury_address();
    let bounty = snitch_bounty(liveness_slash(l.balance(reserved::sequencer_bond_address())));
    lemma_paid(l, s, treasury, ejector, tip_paid(l.balances, treasury, bounty));
}

proof fn lemma_list(
    l: Ledger,
    chain: u64,
    contract: Seq<u8>,
    decimals: u8,
    name: Seq<u8>,
    symbol: Seq<u8>,
)
    ensures
        follows(l, list_step(l, chain, contract, decimals, name, symbol), still()),
{
    lemma_still();
}

proof fn lemma_restatus(
    l: Ledger,
    id: [u8; 32],
    status: AssetStatus,
)
    ensures
        follows(l, restatus_step(l, id, status), still()),
{
    lemma_still();
}

/// An intent that succeeds changes every balance by exactly what it debits and
/// credits; one that fails changes no balance.
pub proof fn law_balances_follow_the_flow(l: Ledger, intent: Intent, evidence: EvidenceView)
    ensures
        follows(l, applied(l, intent, evidence), flow(l, intent)),
{
    lemma_still();
    match intent {
        Intent::Transfer { from, to, amount } => lemma_transfer(l, from, to, amount),
        Intent::GenesisAllocation { allocations } => lemma_genesis(l, allocations@),
        Intent::DistributeRewards { epoch, ring, recipients } => {
            lemma_rewards(l, epoch, ring, recipients@)
        },
        Intent::Delegate { from, validator_id, amount } => {
            lemma_delegate(l, from, validator_id, amount)
        },
        Intent::UndelegateBegin { from, validator_id, amount } => {
            lemma_undelegate(l, from, validator_id, amount)
        },
        Intent::UndelegateClaim { from, validator_id } => lemma_claim(l, from, validator_id),
        Intent::MintInflation { epoch, authority_share, validator_share, treasury_share } => {
            lemma_mint(l, epoch, authority_share, validator_share, treasury_share)
        },
        Intent::AdmitAuthority { authority_id, stake_gsx, mldsa_public_key, bls_public_key } => {
            lemma_admit(
                l,
                RewardsRing::Authority,
                authority_id,
                stake_gsx,
                mldsa_public_key@,
                bls_public_key@,
            )
        },
        Intent::ExitAuthority { authority_id } => {
            lemma_exit(l, RewardsRing::Authority, authority_id)
        },
        Intent::EjectAuthority { authority_id, proof_ref } => {
            lemma_eject(l, RewardsRing::Authority, authority_id)
        },
        Intent::AdmitValidator { validator_id, stake_gsx, mldsa_public_key, bls_public_key } => {
            lemma_admit(
                l,
                RewardsRing::Validator,
                validator_id,
                stake_gsx,
                mldsa_public_key@,
                bls_public_key@,
            )
        },
        Intent::ExitValidator { validator_id } => {
            lemma_exit(l, RewardsRing::Validator, validator_id)
        },
        Intent::EjectValidator { validator_id, proof_ref } => {
            lemma_eject(l, RewardsRing::Validator, validator_id)
        },
        Intent::CommitL2StateRoot {
            batch_id,
            new_state_root,
            proof_bytes,
            public_inputs,
            vk_hash,
        } => {
            lemma_commit(
                l,
                batch_id,
                new_state_root,
                proof_bytes@,
                public_inputs@,
                vk_hash,
                evidence.pairing,
            )
        },
        Intent::SetL2VerifyingKey { chain_id_hash, new_aggregation_vk, new_range_commitment } => {
            lemma_pin(l, chain_id_hash, new_aggregation_vk, new_range_commitment)
        },
        Intent::L1Lock { user_address, l2_recipient, amount, asset_id } => {
            lemma_lock(l, user_address, amount, asset_id)
        },
        Intent::L2BurnProven {
            batch_id,
            recipient,
            amount,
            merkle_path,
            path_directions,
            asset_id,
            l2_chain_id_hash,
        } => {
            lemma_burn(
                l,
                batch_id,
                recipient,
                amount,
                merkle_path@,
                path_directions@,
                asset_id,
                l2_chain_id_hash,
                evidence.burn_included,
            )
        },
        Intent::L2ForceInclude { tx, deadline_l1_height, submitter, l2_nonce } => {
            lemma_oblige(l, tx@, deadline_l1_height, submitter, l2_nonce)
        },
        Intent::SlashSequencer { reason, intent_hash } => {
            match reason {
                SlashReason::MissedForceInclude => lemma_missed(l, intent_hash),
                SlashReason::Equivocation => {
                    lemma_offense(l, OffenseKind::Equivocation, intent_hash)
                },
                SlashReason::InvalidBatch => {
                    lemma_offense(l, OffenseKind::InvalidBatch, intent_hash)
                },
                SlashReason::Downtime => {},
            }
        },
        Intent::MarkForceIncludeHonored { obligation_id } => lemma_honor(l, obligation_id),
        Intent::EjectSequencer { obligation_id, ejector } => {
            lemma_oust(l, obligation_id, ejector)
        },
        Intent::DepositSequencerBond { from, amount } => {
            lemma_pay_in(l, from, reserved::sequencer_bond_address(), amount)
        },
        Intent::DepositSafetyBond { from, amount } => {
            lemma_pay_in(l, from, reserved::safety_bond_address(), amount)
        },
        Intent::DepositAuthorityStake { from, authority_id, amount } => {
            lemma_deposit(l, RewardsRing::Authority, from, authority_id, amount)
        },
        Intent::DepositValidatorStake { from, validator_id, amount } => {
            lemma_deposit(l, RewardsRing::Validator, from, validator_id, amount)
        },
        Intent::WithdrawAuthorityStake { to, authority_id, amount } => {
            lemma_withdraw(l, RewardsRing::Authority, to, authority_id, amount)
        },
        Intent::WithdrawValidatorStake { to, validator_id, amount } => {
            lemma_withdraw(l, RewardsRing::Validator, to, validator_id, amount)
        },
        Intent::DisburseTreasury { recipient, amount, purpose_tag } => {
            lemma_pay_out(l, reserved::treasury_address(), recipient, amount)
        },
        Intent::ClaimInsurance { claimant, amount, claim_reference } => {
            lemma_pay_out(l, reserved::insurance_pool_address(), claimant, amount)
        },
        Intent::PostL2DA { batch_id, da_blob } => {},
        Intent::DistributeSlashedFunds {
            slash_event_id,
            counterparties,
            insurance_share,
            treasury_share,
        } => lemma_slashed_funds(l, counterparties@, insurance_share, treasury_share),
        Intent::AddBridgeAsset { source_chain, source_contract, decimals, name, symbol } => {
            lemma_list(l, source_chain, source_contract@, decimals, name@, symbol@)
        },
        Intent::PauseBridgeAsset { asset_id } => {
            lemma_restatus(l, asset_id, AssetStatus::Paused)
        },
        Intent::RemoveBridgeAsset { asset_id } => {
            lemma_restatus(l, asset_id, AssetStatus::Removed)
        },
        Intent::PostL2DAv2 { batch_id, da_blob, l2_chain_id_hash } => {
            lemma_anchor(l, batch_id, da_blob@, l2_chain_id_hash)
        },
    }
}

} // verus!
