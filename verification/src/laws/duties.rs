//! What slashing, ejection and the duties of the sequencer are answered, and what
//! they pay to whom.

use vstd::prelude::*;

use crate::apply::{applied, EvidenceView};
use crate::eject_registry::{EjectionRecord, EjectionTable};
use crate::equivocation_registry::{EquivocationRecord, OffenseKind, OffenseTable};
use crate::error::ExecutionError;
use crate::force_include::{
    obligation_preimage, ForceIncludeObligation, ObligationStatus, ObligationTable,
};
use crate::hash::digest_of;
use crate::intent::{Intent, RewardsRing, SlashReason};
use crate::laws::answers::{ejection_of, pool_of};
use crate::laws::flows::law_waterfall_splits_everything;
use crate::laws::payments::{
    at, credit_to, law_drain_pays_the_credits, law_drains_need_funds, law_tips_pay_what_is_there,
    lemma_one, lemma_push,
};
use crate::laws::registries::{
    law_ejections_read_back, law_obligations_read_back, law_offenses_read_back,
};
use crate::laws::stake::lemma_row_added;
use crate::laws::writers::lemma_owned_differ;
use crate::ledger::{
    balance_of, credit_sum, credited, credited_one, drained, lemma_with_balance, refused,
    with_balance, Ledger,
};
use crate::reserved;
use crate::sequencing::{
    ejections, liveness_slash, missed_step, obligations, offenses, snitch_bounty,
    with_obligations,
};
use crate::staking::{insurance_part, ring_slots, slot_missing, stake_pool, waterfall};
use crate::substrate::{Address, Balance};
use crate::table::{has_room, lemma_parsed_table_fits};

verus! {

/// Seven tenths of slashed funds, rounded down, go to the insurance pool.
pub open spec fn insured(amount: Balance) -> int {
    amount as int * 7 / 10
}

/// The insurance pool gets seven tenths of slashed funds rounded down, the
/// treasury the rest.
pub proof fn law_slashed_funds_are_split(amount: Balance)
    ensures
        10 * insurance_part(amount) <= 7 * amount < 10 * insurance_part(amount) + 10,
        insurance_part(amount) == insured(amount),
        credit_to(waterfall(amount), reserved::insurance_pool_address()) + credit_to(
            waterfall(amount),
            reserved::treasury_address(),
        ) >= amount,
        forall|x: Address| #[trigger]
            credit_to(waterfall(amount), x) == at(
                x,
                reserved::insurance_pool_address(),
                insured(amount),
            ) + at(x, reserved::treasury_address(), amount - insured(amount)),
        credit_sum(waterfall(amount)) == amount,
{
    let i = insurance_part(amount);
    let t = (amount - i) as Balance;
    law_waterfall_splits_everything(amount);
    let one = seq![(reserved::insurance_pool_address(), i)];
    lemma_one(reserved::insurance_pool_address(), i);
    lemma_push(one, reserved::treasury_address(), t);
    assert(waterfall(amount) =~= one.push((reserved::treasury_address(), t)));
}

/// One missed deadline costs a twentieth of the bond, and its report a tenth of
/// that up to a million, both rounded down.
pub proof fn law_missed_deadlines_cost_a_twentieth(bond: Balance)
    ensures
        20 * liveness_slash(bond) <= bond < 20 * liveness_slash(bond) + 20,
        forall|slash: Balance| #[trigger]
            snitch_bounty(slash) == (if slash / 10 < 1_000_000 {
                slash / 10
            } else {
                1_000_000
            }),
{
    assert(bond as int * 500 / 10_000 == bond as int / 20) by {
        let q = bond as int / 20;
        let m = bond as int % 20;
        assert(bond as int == 20 * q + m);
        assert((20 * q + m) * 500 / 10_000 == q) by (nonlinear_arith)
            requires
                0 <= m < 20,
        ;
    }
    assert forall|slash: Balance| #[trigger]
        snitch_bounty(slash) == (if slash / 10 < 1_000_000 {
            slash / 10
        } else {
            1_000_000
        }) by {
        assert(slash as int * 1_000 / 10_000 == slash as int / 10) by {
            let q = slash as int / 10;
            let m = slash as int % 10;
            assert(slash as int == 10 * q + m);
            assert((10 * q + m) * 1_000 / 10_000 == q) by (nonlinear_arith)
                requires
                    0 <= m < 10,
            ;
        }
    }
}

/// Whether insurance pool and treasury can hold their parts of `amount`.
pub open spec fn can_share(l: Ledger, amount: Balance) -> bool {
    &&& l.balance(reserved::insurance_pool_address()) + insured(amount) <= Balance::MAX
    &&& l.balance(reserved::treasury_address()) + (amount - insured(amount)) <= Balance::MAX
}

/// The error where insurance pool and treasury cannot hold their parts: it names the
/// insurance pool where that is too full, and otherwise the treasury.
pub open spec fn cannot_share(l: Ledger, amount: Balance) -> ExecutionError {
    if l.balance(reserved::insurance_pool_address()) + insured(amount) > Balance::MAX {
        ExecutionError::DistributionOverflow { to: reserved::insurance_pool_address() }
    } else {
        ExecutionError::DistributionOverflow { to: reserved::treasury_address() }
    }
}

/// What sharing out `amount` of `from` leaves every account.
pub open spec fn shared_out(l: Ledger, from: Address, amount: Balance, x: Address) -> int {
    l.balance(x) - at(x, from, amount as int) + at(
        x,
        reserved::insurance_pool_address(),
        insured(amount),
    ) + at(x, reserved::treasury_address(), amount - insured(amount))
}

proof fn lemma_shared_out(l: Ledger, from: Address, amount: Balance)
    requires
        from != reserved::insurance_pool_address(),
        from != reserved::treasury_address(),
        reserved::insurance_pool_address() != reserved::treasury_address(),
        amount <= l.balance(from),
    ensures
        drained(l.balances, from, waterfall(amount)) is Ok <==> amount == 0 || can_share(l, amount),
        drained(l.balances, from, waterfall(amount)) matches Ok(m) ==> forall|x: Address| #[trigger]
            balance_of(m, x) == shared_out(l, from, amount, x),
        drained(l.balances, from, waterfall(amount)) matches Err(e) ==> e == cannot_share(l, amount),
{
    let credits = waterfall(amount);
    law_slashed_funds_are_split(amount);
    law_drains_need_funds(l.balances, from, credits);
    law_drain_pays_the_credits(l.balances, from, credits);
    if amount != 0 {
        let i = reserved::insurance_pool_address();
        let t = reserved::treasury_address();
        if drained(l.balances, from, credits) is Ok {
            assert(l.balance(i) - at(i, from, amount as int) + credit_to(credits, i)
                <= Balance::MAX);
            assert(l.balance(t) - at(t, from, amount as int) + credit_to(credits, t)
                <= Balance::MAX);
        }
        if can_share(l, amount) {
            assert forall|x: Address|
                balance_of(l.balances, x) - at(x, from, amount as int) + #[trigger] credit_to(
                    credits,
                    x,
                ) <= Balance::MAX by {}
        } else {
            lemma_cannot_share(l, from, amount);
        }
    }
}

proof fn lemma_cannot_share(l: Ledger, from: Address, amount: Balance)
    requires
        from != reserved::insurance_pool_address(),
        from != reserved::treasury_address(),
        reserved::insurance_pool_address() != reserved::treasury_address(),
        0 < amount <= l.balance(from),
        !can_share(l, amount),
    ensures
        drained(l.balances, from, waterfall(amount)) == Err::<
            Map<Address, Balance>,
            ExecutionError,
        >(cannot_share(l, amount)),
{
    let i = reserved::insurance_pool_address();
    let t = reserved::treasury_address();
    let p = insurance_part(amount);
    let q = (amount - p) as Balance;
    let credits = waterfall(amount);
    law_slashed_funds_are_split(amount);
    let less = with_balance(l.balances, from, (l.balance(from) - amount) as Balance);
    lemma_with_balance(l.balances, from, (l.balance(from) - amount) as Balance);
    let one = seq![(i, p)];
    assert(credits.drop_last() =~= one);
    assert(one.drop_last() =~= Seq::empty());
    assert(credited(less, one.drop_last()) == Ok::<Map<Address, Balance>, ExecutionError>(less));
    assert(credited(less, one) == credited_one(less, i, p));
    assert(balance_of(less, i) == l.balance(i));
    assert(balance_of(less, t) == l.balance(t));
    if l.balance(i) + p <= Balance::MAX {
        lemma_with_balance(less, i, (l.balance(i) + p) as Balance);
        assert(credits.last() == (t, q));
    }
}

/// The protocol accounts that take part in slashing are different accounts.
proof fn lemma_slashing_accounts()
    requires
        reserved::apart(),
    ensures
        reserved::insurance_pool_address() != reserved::treasury_address(),
        reserved::sequencer_bond_address() != reserved::insurance_pool_address(),
        reserved::sequencer_bond_address() != reserved::treasury_address(),
        reserved::safety_bond_address() != reserved::insurance_pool_address(),
        reserved::safety_bond_address() != reserved::treasury_address(),
        reserved::authority_stake_pool_address() != reserved::insurance_pool_address(),
        reserved::authority_stake_pool_address() != reserved::treasury_address(),
        reserved::validator_stake_pool_address() != reserved::insurance_pool_address(),
        reserved::validator_stake_pool_address() != reserved::treasury_address(),
{
    let all = reserved::all_owned();
    lemma_owned_differ(1, 2);
    lemma_owned_differ(5, 1);
    lemma_owned_differ(5, 2);
    lemma_owned_differ(6, 1);
    lemma_owned_differ(6, 2);
    lemma_owned_differ(13, 1);
    lemma_owned_differ(13, 2);
    lemma_owned_differ(14, 1);
    lemma_owned_differ(14, 2);
    assert(all[1] == reserved::insurance_pool_address());
    assert(all[2] == reserved::treasury_address());
    assert(all[5] == reserved::sequencer_bond_address());
    assert(all[6] == reserved::safety_bond_address());
    assert(all[13] == reserved::authority_stake_pool_address());
    assert(all[14] == reserved::validator_stake_pool_address());
}

proof fn lemma_owned_are_reserved()
    ensures
        reserved::is_reserved(&reserved::insurance_pool_address()),
        reserved::is_reserved(&reserved::treasury_address()),
        reserved::is_reserved(&reserved::sequencer_bond_address()),
{
    reveal(reserved::protocol_owned);
}

/// An ejection succeeds exactly where the slot is taken, whatever its status, and
/// insurance pool and treasury can hold their parts of its bond. The bond, as far
/// as the ring's stake pool can pay it, leaves the pool: seven tenths go to the
/// insurance pool and the rest to the treasury.
pub proof fn law_ejections_are_answered(
    l: Ledger,
    ring: RewardsRing,
    id: u32,
    proof_ref: [u8; 32],
    evidence: EvidenceView,
)
    ensures
        reserved::apart() ==> ({
            let s = applied(l, ejection_of(ring, id, proof_ref), evidence);
            let pool = pool_of(ring);
            &&& ring_slots(l, ring) is Err ==> s.answer is Err
            &&& ring_slots(l, ring) matches Ok(m) ==> {
                let lost = if m[id].deposited <= l.balance(pool) {
                    m[id].deposited as Balance
                } else {
                    l.balance(pool)
                };
                &&& s.answer is Ok <==> m.dom().contains(id) && (lost == 0 || can_share(l, lost))
                &&& s.answer is Ok ==> forall|x: Address| #[trigger]
                    s.ledger.balance(x) == shared_out(l, pool, lost, x)
                &&& !m.dom().contains(id) ==> s == refused(l, slot_missing(ring, id))
                &&& m.dom().contains(id) && lost != 0 && !can_share(l, lost) ==> s == refused(
                    l,
                    cannot_share(l, lost),
                )
            }
            &&& ring_slots(l, ring) matches Err(e) ==> s == refused(l, e)
            &&& s.answer is Err ==> s.ledger == l
        }),
{
    if reserved::apart() {
        lemma_slashing_accounts();
        if let Ok(m) = ring_slots(l, ring) {
            let pool = stake_pool(ring);
            let lost = if m[id].deposited <= l.balance(pool) {
                m[id].deposited as Balance
            } else {
                l.balance(pool)
            };
            lemma_shared_out(l, pool, lost);
        }
    }
}

/// A proven offense is slashed exactly where it was not before, and insurance pool
/// and treasury can hold their parts of the safety bond. All of the safety bond
/// goes: seven tenths to the insurance pool and the rest to the treasury.
pub proof fn law_offenses_are_answered(
    l: Ledger,
    reason: SlashReason,
    intent_hash: [u8; 32],
    evidence: EvidenceView,
)
    requires
        reason == SlashReason::Equivocation || reason == SlashReason::InvalidBatch,
    ensures
        reserved::apart() ==> ({
            let s = applied(l, Intent::SlashSequencer { reason, intent_hash }, evidence);
            let bond = reserved::safety_bond_address();
            let fresh = offenses(l) matches Ok(m) && !m.dom().contains(intent_hash);
            &&& s.answer is Ok <==> fresh && (l.balance(bond) == 0 || can_share(
                l,
                l.balance(bond),
            ))
            &&& s.answer is Ok ==> forall|x: Address| #[trigger]
                s.ledger.balance(x) == shared_out(l, bond, l.balance(bond), x)
            &&& s.answer is Ok ==> s.ledger.balance(bond) == 0
            &&& s.answer is Err ==> s.ledger == l
            &&& fresh && l.balance(bond) != 0 && !can_share(l, l.balance(bond)) ==> s == refused(
                l,
                cannot_share(l, l.balance(bond)),
            )
            &&& offenses(l) matches Err(e) ==> s == refused(l, e)
            &&& offenses(l) matches Ok(m) ==> (m.dom().contains(intent_hash) ==> s == refused(
                l,
                ExecutionError::EquivocationAlreadyRecorded {
                    proof_hash: intent_hash,
                    kind: m[intent_hash].kind,
                },
            ))
        }),
{
    if reserved::apart() {
        lemma_slashing_accounts();
        let bond = reserved::safety_bond_address();
        lemma_shared_out(l, bond, l.balance(bond));
    }
}

/// A slash for downtime succeeds and changes nothing, and so does a blob that is
/// posted without a chain.
pub proof fn law_downtime_and_blobs_change_nothing(
    l: Ledger,
    intent_hash: [u8; 32],
    batch_id: u64,
    da_blob: Vec<u8>,
    evidence: EvidenceView,
)
    ensures
        ({
            let down = applied(
                l,
                Intent::SlashSequencer { reason: SlashReason::Downtime, intent_hash },
                evidence,
            );
            let blob = applied(l, Intent::PostL2DA { batch_id, da_blob }, evidence);
            &&& down.answer is Ok && down.ledger == l
            &&& blob.answer is Ok && blob.ledger == l
        }),
{
}

/// A tenth of `slash`, rounded down, up to a million.
pub open spec fn reward(slash: Balance) -> Balance {
    if slash / 10 < 1_000_000 {
        slash / 10
    } else {
        1_000_000
    }
}

/// A missed deadline is slashed exactly where the obligation is pending and all
/// accounts can hold their parts. A twentieth of the liveness bond leaves it:
/// seven tenths of that go to the insurance pool and the rest to the treasury,
/// which pays a tenth, up to a million, on to the submitter. A protocol account
/// as submitter is paid nothing.
pub proof fn law_missed_deadlines_are_answered(
    l: Ledger,
    intent_hash: [u8; 32],
    evidence: EvidenceView,
)
    ensures
        reserved::apart() ==> ({
            let s = applied(
                l,
                Intent::SlashSequencer { reason: SlashReason::MissedForceInclude, intent_hash },
                evidence,
            );
            let bond = reserved::sequencer_bond_address();
            let slash = l.balance(bond) / 20;
            &&& obligations(l) is Err ==> s.answer is Err
            &&& obligations(l) matches Ok(m) ==> {
                let submitter = m[intent_hash].submitter;
                let tip = if reserved::is_reserved(&submitter) {
                    0
                } else {
                    reward(slash)
                };
                &&& s.answer is Ok <==> {
                    &&& m.dom().contains(intent_hash)
                    &&& m[intent_hash].status == ObligationStatus::Pending
                    &&& slash == 0 || can_share(l, slash)
                    &&& tip == 0 || l.balance(submitter) + tip <= Balance::MAX
                }
                &&& s.answer is Ok ==> forall|x: Address| #[trigger]
                    s.ledger.balance(x) == shared_out(l, bond, slash, x) - at(
                        x,
                        reserved::treasury_address(),
                        tip as int,
                    ) + at(x, submitter, tip as int)
                &&& !m.dom().contains(intent_hash) ==> s == refused(
                    l,
                    ExecutionError::ForceIncludeNotFound { obligation_id: intent_hash },
                )
                &&& m.dom().contains(intent_hash) && m[intent_hash].status
                    != ObligationStatus::Pending ==> s == refused(
                    l,
                    ExecutionError::ForceIncludeNotPending {
                        obligation_id: intent_hash,
                        status: m[intent_hash].status,
                    },
                )
            }
            &&& s.answer is Err ==> s.ledger == l
        }),
{
    if reserved::apart() {
        lemma_slashing_accounts();
        lemma_owned_are_reserved();
        let bond = reserved::sequencer_bond_address();
        let slash = liveness_slash(l.balance(bond));
        law_missed_deadlines_cost_a_twentieth(l.balance(bond));
        assert(slash == l.balance(bond) / 20);
        lemma_shared_out(l, bond, slash);
        assert(snitch_bounty(slash) == reward(slash));
        assert(10 * (slash / 10) <= slash);
        assert(reward(slash) <= slash - insured(slash));
        if let Ok(m) = obligations(l) {
            if let Ok(b) = drained(l.balances, bond, waterfall(slash)) {
                let t = reserved::treasury_address();
                let submitter = m[intent_hash].submitter;
                assert(balance_of(b, t) == shared_out(l, bond, slash, t));
                assert(balance_of(b, submitter) == shared_out(l, bond, slash, submitter));
                law_tips_pay_what_is_there(b, t, submitter, snitch_bounty(slash));
            }
        }
    }
}

/// The sequencer is ejected over an obligation exactly where the ejector is a
/// user, the obligation was slashed, nobody was paid for it yet, and the ejector
/// can hold the bounty: a tenth of a twentieth of the liveness bond, up to a
/// million, as far as the treasury can pay it.
pub proof fn law_sequencer_ejections_are_answered(
    l: Ledger,
    obligation_id: [u8; 32],
    ejector: Address,
    evidence: EvidenceView,
)
    ensures
        ({
            let s = applied(l, Intent::EjectSequencer { obligation_id, ejector }, evidence);
            let treasury = reserved::treasury_address();
            let bounty = reward((l.balance(reserved::sequencer_bond_address()) / 20) as Balance);
            let paid = if bounty <= l.balance(treasury) {
                bounty
            } else {
                l.balance(treasury)
            };
            let slashed = obligations(l) matches Ok(m) && m.dom().contains(obligation_id)
                && m[obligation_id].status == ObligationStatus::Slashed;
            let fresh = ejections(l) matches Ok(j) && !j.dom().contains(obligation_id);
            &&& s.answer is Ok <==> {
                &&& !reserved::is_reserved(&ejector)
                &&& slashed
                &&& fresh
                &&& paid == 0 || l.balance(ejector) + paid <= Balance::MAX
            }
            &&& s.answer is Ok ==> forall|x: Address| #[trigger]
                s.ledger.balance(x) == l.balance(x) - at(x, treasury, paid as int) + at(
                    x,
                    ejector,
                    paid as int,
                )
            &&& s.answer is Err ==> s.ledger == l
            &&& reserved::is_reserved(&ejector) ==> s == refused(
                l,
                ExecutionError::ReservedAddressTransferDenied { addr: ejector },
            )
            &&& !reserved::is_reserved(&ejector) ==> (obligations(l) matches Ok(m) ==> {
                &&& !m.dom().contains(obligation_id) ==> s == refused(
                    l,
                    ExecutionError::ForceIncludeNotFound { obligation_id },
                )
                &&& m.dom().contains(obligation_id) && m[obligation_id].status
                    != ObligationStatus::Slashed ==> s == refused(
                    l,
                    ExecutionError::ForceIncludeNotSlashed {
                        obligation_id,
                        status: m[obligation_id].status,
                    },
                )
            })
            &&& !reserved::is_reserved(&ejector) && slashed && (ejections(l) matches Ok(j)
                && j.dom().contains(obligation_id)) ==> s == refused(
                l,
                ExecutionError::SequencerEjectionAlreadyRecorded { obligation_id },
            )
        }),
{
    let bond = l.balance(reserved::sequencer_bond_address());
    lemma_owned_are_reserved();
    law_missed_deadlines_cost_a_twentieth(bond);
    assert(liveness_slash(bond) == bond / 20);
    assert(snitch_bounty(liveness_slash(bond)) == reward((bond / 20) as Balance));
    law_tips_pay_what_is_there(
        l.balances,
        reserved::treasury_address(),
        ejector,
        snitch_bounty(liveness_slash(bond)),
    );
}

/// An obligation is registered exactly where the registry can be read and its id
/// is free, and is settled as honored exactly where it is pending. Neither moves
/// a balance.
pub proof fn law_obligations_are_answered(
    l: Ledger,
    tx: Vec<u8>,
    deadline_l1_height: u64,
    submitter: Address,
    l2_nonce: u64,
    obligation_id: [u8; 32],
    evidence: EvidenceView,
)
    ensures
        ({
            let id = digest_of(obligation_preimage(tx@, deadline_l1_height, submitter, l2_nonce));
            let s = applied(
                l,
                Intent::L2ForceInclude { tx, deadline_l1_height, submitter, l2_nonce },
                evidence,
            );
            let h = applied(l, Intent::MarkForceIncludeHonored { obligation_id }, evidence);
            &&& s.answer is Ok <==> (obligations(l) matches Ok(m) && !m.dom().contains(id))
            &&& h.answer is Ok <==> (obligations(l) matches Ok(m) && m.dom().contains(
                obligation_id,
            ) && m[obligation_id].status == ObligationStatus::Pending)
            &&& s.ledger.balances == l.balances && h.ledger.balances == l.balances
            &&& s.answer is Err ==> s.ledger == l
            &&& h.answer is Err ==> h.ledger == l
            &&& obligations(l) matches Ok(m) ==> {
                &&& m.dom().contains(id) ==> s == refused(
                    l,
                    ExecutionError::ForceIncludeAlreadyRegistered { obligation_id: id },
                )
                &&& !m.dom().contains(obligation_id) ==> h == refused(
                    l,
                    ExecutionError::ForceIncludeNotFound { obligation_id },
                )
                &&& m.dom().contains(obligation_id) && m[obligation_id].status
                    != ObligationStatus::Pending ==> h == refused(
                    l,
                    ExecutionError::ForceIncludeNotPending {
                        obligation_id,
                        status: m[obligation_id].status,
                    },
                )
            }
        }),
{
}

/// Whether obligation `id` became `o`, and nothing else of the records changed.
pub open spec fn only_obligation_set(
    l: Ledger,
    l2: Ledger,
    m: Map<[u8; 32], ForceIncludeObligation>,
    id: [u8; 32],
    o: ForceIncludeObligation,
) -> bool {
    &&& l2.height == l.height
    &&& forall|a: Address|
        a != reserved::force_include_registry_address() ==> #[trigger] l2.record(a) == l.record(a)
    &&& obligations(l2) matches Ok(n) && {
        &&& forall|other: [u8; 32]| #[trigger]
            n.dom().contains(other) <==> other == id || m.dom().contains(other)
        &&& forall|other: [u8; 32]| #[trigger]
            m.dom().contains(other) && other != id ==> n[other] == m[other]
        &&& n[id] == o
    }
}

proof fn lemma_obligation_set(
    l: Ledger,
    l1: Ledger,
    m: Map<[u8; 32], ForceIncludeObligation>,
    id: [u8; 32],
    o: ForceIncludeObligation,
)
    requires
        obligations(l) == Ok::<Map<[u8; 32], ForceIncludeObligation>, ExecutionError>(m),
        l1.records == l.records,
        l1.height == l.height,
        m.dom().contains(id) || has_room::<ObligationTable>(m),
    ensures
        only_obligation_set(l, with_obligations(l1, m.insert(id, o)), m, id, o),
{
    lemma_parsed_table_fits::<ObligationTable>(
        l.record(reserved::force_include_registry_address()),
    );
    if m.dom().contains(id) {
        assert(m.insert(id, o).dom() =~= m.dom());
    } else {
        lemma_row_added::<ObligationTable>(m, id, o);
    }
    law_obligations_read_back(l1, m.insert(id, o));
}

/// A registered obligation is pending and says what was given for it: the digest of
/// the transaction, its deadline, its submitter and its nonce. All other
/// obligations and all other records stay.
pub proof fn law_obligations_are_found(
    l: Ledger,
    m: Map<[u8; 32], ForceIncludeObligation>,
    tx: Vec<u8>,
    deadline_l1_height: u64,
    submitter: Address,
    l2_nonce: u64,
    evidence: EvidenceView,
)
    requires
        obligations(l) == Ok::<Map<[u8; 32], ForceIncludeObligation>, ExecutionError>(m),
        has_room::<ObligationTable>(m),
    ensures
        ({
            let s = applied(
                l,
                Intent::L2ForceInclude { tx, deadline_l1_height, submitter, l2_nonce },
                evidence,
            );
            s.answer is Ok ==> only_obligation_set(
                l,
                s.ledger,
                m,
                digest_of(obligation_preimage(tx@, deadline_l1_height, submitter, l2_nonce)),
                ForceIncludeObligation {
                    tx_hash: digest_of(tx@),
                    deadline_l1_height,
                    submitter,
                    l2_nonce,
                    status: ObligationStatus::Pending,
                },
            )
        }),
{
    let id = digest_of(obligation_preimage(tx@, deadline_l1_height, submitter, l2_nonce));
    let o = ForceIncludeObligation {
        tx_hash: digest_of(tx@),
        deadline_l1_height,
        submitter,
        l2_nonce,
        status: ObligationStatus::Pending,
    };
    lemma_obligation_set(l, l, m, id, o);
}

/// An obligation that is honored gets that status, one whose deadline was missed
/// gets the status slashed; everything else about it, all other obligations and
/// all other records stay.
pub proof fn law_settlements_change_the_status(
    l: Ledger,
    m: Map<[u8; 32], ForceIncludeObligation>,
    id: [u8; 32],
    evidence: EvidenceView,
)
    requires
        obligations(l) == Ok::<Map<[u8; 32], ForceIncludeObligation>, ExecutionError>(m),
        m.dom().contains(id),
    ensures
        ({
            let h = applied(l, Intent::MarkForceIncludeHonored { obligation_id: id }, evidence);
            let s = applied(
                l,
                Intent::SlashSequencer {
                    reason: SlashReason::MissedForceInclude,
                    intent_hash: id,
                },
                evidence,
            );
            let o = m[id];
            &&& h.answer is Ok ==> only_obligation_set(
                l,
                h.ledger,
                m,
                id,
                ForceIncludeObligation {
                    tx_hash: o.tx_hash,
                    deadline_l1_height: o.deadline_l1_height,
                    submitter: o.submitter,
                    l2_nonce: o.l2_nonce,
                    status: ObligationStatus::Honored,
                },
            )
            &&& s.answer is Ok ==> only_obligation_set(
                l,
                s.ledger,
                m,
                id,
                ForceIncludeObligation {
                    tx_hash: o.tx_hash,
                    deadline_l1_height: o.deadline_l1_height,
                    submitter: o.submitter,
                    l2_nonce: o.l2_nonce,
                    status: ObligationStatus::Slashed,
                },
            )
        }),
{
    let s = missed_step(l, id);
    let paid = Ledger { balances: s.ledger.balances, ..l };
    lemma_obligation_set(
        l,
        l,
        m,
        id,
        ForceIncludeObligation { status: ObligationStatus::Honored, ..m[id] },
    );
    lemma_obligation_set(
        l,
        paid,
        m,
        id,
        ForceIncludeObligation { status: ObligationStatus::Slashed, ..m[id] },
    );
}

/// A slashed offense is found under its proof with its kind, equivocation or
/// invalid batch as the reason says, and without a height; all other offenses and
/// all other records stay.
pub proof fn law_offenses_are_found(
    l: Ledger,
    m: Map<[u8; 32], EquivocationRecord>,
    reason: SlashReason,
    intent_hash: [u8; 32],
    evidence: EvidenceView,
)
    requires
        offenses(l) == Ok::<Map<[u8; 32], EquivocationRecord>, ExecutionError>(m),
        has_room::<OffenseTable>(m),
        reason == SlashReason::Equivocation || reason == SlashReason::InvalidBatch,
    ensures
        ({
            let s = applied(l, Intent::SlashSequencer { reason, intent_hash }, evidence);
            let registry = reserved::equivocation_registry_address();
            s.answer is Ok ==> {
                &&& offenses(s.ledger) matches Ok(n) && {
                    &&& n.dom().contains(intent_hash)
                    &&& n[intent_hash].kind == OffenseKind::Equivocation <==> reason
                        == SlashReason::Equivocation
                    &&& n[intent_hash].kind == OffenseKind::InvalidBatch <==> reason
                        == SlashReason::InvalidBatch
                    &&& n[intent_hash].slashed_at_l1_height == 0
                    &&& forall|other: [u8; 32]|
                        other != intent_hash ==> #[trigger] n.dom().contains(other)
                            == m.dom().contains(other)
                    &&& forall|other: [u8; 32]| #[trigger]
                        m.dom().contains(other) && other != intent_hash ==> n[other] == m[other]
                }
                &&& forall|a: Address| a != registry ==> #[trigger] s.ledger.record(a) == l.record(
                    a,
                )
                &&& s.ledger.height == l.height
            }
        }),
{
    let s = applied(l, Intent::SlashSequencer { reason, intent_hash }, evidence);
    let kind = if reason == SlashReason::Equivocation {
        OffenseKind::Equivocation
    } else {
        OffenseKind::InvalidBatch
    };
    let r = EquivocationRecord { kind, slashed_at_l1_height: 0 };
    lemma_parsed_table_fits::<OffenseTable>(l.record(reserved::equivocation_registry_address()));
    lemma_row_added::<OffenseTable>(m, intent_hash, r);
    law_offenses_read_back(l.with_balances(s.ledger.balances), m.insert(intent_hash, r));
}

/// A sequencer ejection is found under its obligation with its ejector; all other
/// ejections and all other records stay.
pub proof fn law_sequencer_ejections_are_found(
    l: Ledger,
    j: Map<[u8; 32], EjectionRecord>,
    obligation_id: [u8; 32],
    ejector: Address,
    evidence: EvidenceView,
)
    requires
        ejections(l) == Ok::<Map<[u8; 32], EjectionRecord>, ExecutionError>(j),
        has_room::<EjectionTable>(j),
    ensures
        ({
            let s = applied(l, Intent::EjectSequencer { obligation_id, ejector }, evidence);
            let registry = reserved::ejection_registry_address();
            s.answer is Ok ==> {
                &&& ejections(s.ledger) matches Ok(n) && {
                    &&& n.dom().contains(obligation_id) && n[obligation_id].ejector == ejector
                    &&& forall|other: [u8; 32]|
                        other != obligation_id ==> #[trigger] n.dom().contains(other)
                            == j.dom().contains(other)
                    &&& forall|other: [u8; 32]| #[trigger]
                        j.dom().contains(other) && other != obligation_id ==> n[other] == j[other]
                }
                &&& forall|a: Address| a != registry ==> #[trigger] s.ledger.record(a) == l.record(
                    a,
                )
                &&& s.ledger.height == l.height
            }
        }),
{
    let s = applied(l, Intent::EjectSequencer { obligation_id, ejector }, evidence);
    let r = EjectionRecord { ejector };
    lemma_parsed_table_fits::<EjectionTable>(l.record(reserved::ejection_registry_address()));
    lemma_row_added::<EjectionTable>(j, obligation_id, r);
    law_ejections_read_back(l.with_balances(s.ledger.balances), j.insert(obligation_id, r));
}

} // verus!
