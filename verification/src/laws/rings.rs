//! Ring slots: a slot stays taken, its status goes one way, and an exit waits
//! for its cooldown.

use vstd::prelude::*;

use crate::apply::{applied, EvidenceView};
use crate::authority_registry::{AuthorityStatus, SlotView, MAX_BLS_PK_BYTES, MAX_MLDSA_PK_BYTES};
use crate::error::ExecutionError;
use crate::intent::{ring_name, Intent, RewardsRing};
use crate::laws::answers::{
    admission, deposit_for, ejection_of, exit_of, law_admissions_are_answered,
    law_deposits_are_answered, law_exits_are_answered, law_withdrawals_are_answered, pool_of,
    withdrawal_from,
};
use crate::laws::payments::can_pay;
use crate::laws::registries::{law_slots_read_back, ring_fits};
use crate::laws::writers::{
    law_only_writers_change_authorities, law_only_writers_change_validators, writes_authorities,
    writes_validators,
};
use crate::ledger::{refused, Ledger, Step};
use crate::reserved;
use crate::slots::lemma_parse_keys_fit;
use crate::staking::{
    admit_step, cooldown_end, deposit_step, eject_step, exit_step, ring_registry, ring_slots,
    slot_occupied, withdraw_step, with_slots,
};
use crate::substrate::{Address, Balance};

verus! {

/// How far a slot is on its way out.
pub open spec fn stage(status: AuthorityStatus) -> int {
    match status {
        AuthorityStatus::Active => 0,
        AuthorityStatus::Exiting => 1,
        AuthorityStatus::Ejected => 2,
    }
}

/// Whether one step may turn slot `a` into `b`: its keys and declared stake stay,
/// its status never goes back, and once it is left, its exit height stays.
pub open spec fn slot_follows(a: SlotView, b: SlotView) -> bool {
    &&& b.mldsa == a.mldsa
    &&& b.bls == a.bls
    &&& b.stake == a.stake
    &&& stage(a.status) <= stage(b.status)
    &&& a.status != AuthorityStatus::Active ==> b.exit_height == a.exit_height
}

/// Whether every slot of `m` is kept in the state `l`.
pub open spec fn slots_kept(m: Map<u32, SlotView>, ring: RewardsRing, l: Ledger) -> bool {
    ring_slots(l, ring) matches Ok(n) && forall|id: u32| #[trigger]
        m.dom().contains(id) ==> n.dom().contains(id) && slot_follows(m[id], n[id])
}

proof fn lemma_ring_fits(l: Ledger, ring: RewardsRing, m: Map<u32, SlotView>)
    requires
        ring_slots(l, ring) == Ok::<Map<u32, SlotView>, ExecutionError>(m),
    ensures
        ring_fits(m),
{
    lemma_parse_keys_fit(l.record(ring_registry(ring)));
}

proof fn lemma_same_ring(l: Ledger, l2: Ledger, ring: RewardsRing, m: Map<u32, SlotView>)
    requires
        ring_slots(l, ring) == Ok::<Map<u32, SlotView>, ExecutionError>(m),
        l2.record(ring_registry(ring)) == l.record(ring_registry(ring)),
    ensures
        slots_kept(m, ring, l2),
{
}

proof fn lemma_slot_replaced(
    l: Ledger,
    l2: Ledger,
    ring: RewardsRing,
    m: Map<u32, SlotView>,
    id: u32,
    slot: SlotView,
)
    requires
        ring_slots(l, ring) == Ok::<Map<u32, SlotView>, ExecutionError>(m),
        m.dom().contains(id),
        slot_follows(m[id], slot),
    ensures
        slots_kept(m, ring, with_slots(l2, ring, m.insert(id, slot))),
        ring_slots(with_slots(l2, ring, m.insert(id, slot)), ring) == Ok::<
            Map<u32, SlotView>,
            ExecutionError,
        >(m.insert(id, slot)),
{
    lemma_ring_fits(l, ring, m);
    assert(m.insert(id, slot).dom() =~= m.dom());
    law_slots_read_back(l2, ring, m.insert(id, slot));
}

proof fn lemma_admit_keeps(
    l: Ledger,
    ring: RewardsRing,
    m: Map<u32, SlotView>,
    id: u32,
    stake: u64,
    mldsa: Seq<u8>,
    bls: Seq<u8>,
)
    requires
        ring_slots(l, ring) == Ok::<Map<u32, SlotView>, ExecutionError>(m),
        m.dom().len() < u32::MAX,
    ensures
        slots_kept(m, ring, admit_step(l, ring, id, stake, mldsa, bls).ledger),
        admit_step(l, ring, id, stake, mldsa, bls).answer is Ok ==> (ring_slots(
            admit_step(l, ring, id, stake, mldsa, bls).ledger,
            ring,
        ) matches Ok(n) && n.dom().contains(id)),
{
    lemma_ring_fits(l, ring, m);
    let slot = SlotView {
        mldsa,
        bls,
        stake,
        deposited: 0,
        exit_height: 0,
        status: AuthorityStatus::Active,
    };
    if mldsa.len() <= MAX_MLDSA_PK_BYTES && bls.len() <= MAX_BLS_PK_BYTES && !m.dom().contains(
        id,
    ) {
        assert(m.insert(id, slot).dom() =~= m.dom().insert(id));
        law_slots_read_back(l, ring, m.insert(id, slot));
    }
}

proof fn lemma_exit_keeps(l: Ledger, ring: RewardsRing, m: Map<u32, SlotView>, id: u32)
    requires
        ring_slots(l, ring) == Ok::<Map<u32, SlotView>, ExecutionError>(m),
    ensures
        slots_kept(m, ring, exit_step(l, ring, id).ledger),
{
    if m.dom().contains(id) && m[id].status == AuthorityStatus::Active {
        lemma_slot_replaced(
            l,
            l,
            ring,
            m,
            id,
            SlotView { status: AuthorityStatus::Exiting, exit_height: l.height, ..m[id] },
        );
    }
}

proof fn lemma_eject_keeps(l: Ledger, ring: RewardsRing, m: Map<u32, SlotView>, id: u32)
    requires
        ring_slots(l, ring) == Ok::<Map<u32, SlotView>, ExecutionError>(m),
    ensures
        slots_kept(m, ring, eject_step(l, ring, id).ledger),
{
    let s = eject_step(l, ring, id);
    if m.dom().contains(id) {
        lemma_slot_replaced(
            l,
            Ledger { balances: s.ledger.balances, ..l },
            ring,
            m,
            id,
            SlotView { status: AuthorityStatus::Ejected, deposited: 0, ..m[id] },
        );
    }
}

proof fn lemma_deposit_keeps(
    l: Ledger,
    ring: RewardsRing,
    m: Map<u32, SlotView>,
    from: Address,
    id: u32,
    amount: Balance,
)
    requires
        ring_slots(l, ring) == Ok::<Map<u32, SlotView>, ExecutionError>(m),
    ensures
        slots_kept(m, ring, deposit_step(l, ring, from, id, amount).ledger),
{
    let s = deposit_step(l, ring, from, id, amount);
    if m.dom().contains(id) {
        lemma_slot_replaced(
            l,
            Ledger { balances: s.ledger.balances, ..l },
            ring,
            m,
            id,
            SlotView { deposited: (m[id].deposited + amount) as u64, ..m[id] },
        );
    }
}

proof fn lemma_withdraw_keeps(
    l: Ledger,
    ring: RewardsRing,
    m: Map<u32, SlotView>,
    to: Address,
    id: u32,
    amount: Balance,
)
    requires
        ring_slots(l, ring) == Ok::<Map<u32, SlotView>, ExecutionError>(m),
    ensures
        slots_kept(m, ring, withdraw_step(l, ring, to, id, amount).ledger),
{
    let s = withdraw_step(l, ring, to, id, amount);
    if m.dom().contains(id) {
        lemma_slot_replaced(
            l,
            Ledger { balances: s.ledger.balances, ..l },
            ring,
            m,
            id,
            SlotView { deposited: (m[id].deposited - amount) as u64, ..m[id] },
        );
    }
}

/// A slot stays taken under its keys, and its status goes from active over
/// exiting to ejected and never back.
pub proof fn law_slots_go_one_way(
    l: Ledger,
    ring: RewardsRing,
    m: Map<u32, SlotView>,
    intent: Intent,
    evidence: EvidenceView,
)
    requires
        ring_slots(l, ring) == Ok::<Map<u32, SlotView>, ExecutionError>(m),
        m.dom().len() < u32::MAX,
    ensures
        reserved::apart() ==> slots_kept(m, ring, applied(l, intent, evidence).ledger),
{
    let l2 = applied(l, intent, evidence).ledger;
    if reserved::apart() {
        match ring {
            RewardsRing::Authority => {
                if !writes_authorities(intent) {
                    law_only_writers_change_authorities(l, intent, evidence);
                    lemma_same_ring(l, l2, ring, m);
                } else {
                    lemma_authority_writers(l, m, intent, evidence);
                }
            },
            RewardsRing::Validator => {
                if !writes_validators(intent) {
                    law_only_writers_change_validators(l, intent, evidence);
                    lemma_same_ring(l, l2, ring, m);
                } else {
                    lemma_validator_writers(l, m, intent, evidence);
                }
            },
        }
    }
}

proof fn lemma_authority_writers(
    l: Ledger,
    m: Map<u32, SlotView>,
    intent: Intent,
    evidence: EvidenceView,
)
    requires
        ring_slots(l, RewardsRing::Authority) == Ok::<Map<u32, SlotView>, ExecutionError>(m),
        m.dom().len() < u32::MAX,
        writes_authorities(intent),
    ensures
        slots_kept(m, RewardsRing::Authority, applied(l, intent, evidence).ledger),
{
    let ring = RewardsRing::Authority;
    match intent {
        Intent::AdmitAuthority { authority_id, stake_gsx, mldsa_public_key, bls_public_key } => {
            lemma_admit_keeps(
                l,
                ring,
                m,
                authority_id,
                stake_gsx,
                mldsa_public_key@,
                bls_public_key@,
            );
        },
        Intent::ExitAuthority { authority_id } => lemma_exit_keeps(l, ring, m, authority_id),
        Intent::EjectAuthority { authority_id, proof_ref } => {
            lemma_eject_keeps(l, ring, m, authority_id)
        },
        Intent::DepositAuthorityStake { from, authority_id, amount } => {
            lemma_deposit_keeps(l, ring, m, from, authority_id, amount)
        },
        Intent::WithdrawAuthorityStake { to, authority_id, amount } => {
            lemma_withdraw_keeps(l, ring, m, to, authority_id, amount)
        },
        _ => {},
    }
}

proof fn lemma_validator_writers(
    l: Ledger,
    m: Map<u32, SlotView>,
    intent: Intent,
    evidence: EvidenceView,
)
    requires
        ring_slots(l, RewardsRing::Validator) == Ok::<Map<u32, SlotView>, ExecutionError>(m),
        m.dom().len() < u32::MAX,
        writes_validators(intent),
    ensures
        slots_kept(m, RewardsRing::Validator, applied(l, intent, evidence).ledger),
{
    let ring = RewardsRing::Validator;
    match intent {
        Intent::AdmitValidator { validator_id, stake_gsx, mldsa_public_key, bls_public_key } => {
            lemma_admit_keeps(
                l,
                ring,
                m,
                validator_id,
                stake_gsx,
                mldsa_public_key@,
                bls_public_key@,
            );
        },
        Intent::ExitValidator { validator_id } => lemma_exit_keeps(l, ring, m, validator_id),
        Intent::EjectValidator { validator_id, proof_ref } => {
            lemma_eject_keeps(l, ring, m, validator_id)
        },
        Intent::DepositValidatorStake { from, validator_id, amount } => {
            lemma_deposit_keeps(l, ring, m, from, validator_id, amount)
        },
        Intent::WithdrawValidatorStake { to, validator_id, amount } => {
            lemma_withdraw_keeps(l, ring, m, to, validator_id, amount)
        },
        _ => {},
    }
}

/// A slot is taken once: after an admission, another one into the same slot is
/// refused, whoever asks.
pub proof fn law_slots_are_taken_once(
    l: Ledger,
    ring: RewardsRing,
    m: Map<u32, SlotView>,
    id: u32,
    stake: u64,
    mldsa: Seq<u8>,
    bls: Seq<u8>,
    other_stake: u64,
    other_mldsa: Seq<u8>,
    other_bls: Seq<u8>,
)
    requires
        ring_slots(l, ring) == Ok::<Map<u32, SlotView>, ExecutionError>(m),
        m.dom().len() < u32::MAX,
        admit_step(l, ring, id, stake, mldsa, bls).answer is Ok,
        other_mldsa.len() <= MAX_MLDSA_PK_BYTES,
        other_bls.len() <= MAX_BLS_PK_BYTES,
    ensures
        ({
            let l2 = admit_step(l, ring, id, stake, mldsa, bls).ledger;
            admit_step(l2, ring, id, other_stake, other_mldsa, other_bls) == refused(
                l2,
                slot_occupied(ring, id),
            )
        }),
{
    lemma_admit_keeps(l, ring, m, id, stake, mldsa, bls);
}

/// A withdrawal after an exit is refused at every height before the cooldown is
/// over. At and after that height the cooldown does not stand in its way: what is
/// bonded can be withdrawn as far as the pool can pay it.
pub proof fn law_exits_wait_for_the_cooldown(
    l: Ledger,
    ring: RewardsRing,
    m: Map<u32, SlotView>,
    id: u32,
    height: u64,
    to: Address,
    amount: Balance,
)
    requires
        ring_slots(l, ring) == Ok::<Map<u32, SlotView>, ExecutionError>(m),
        exit_step(l, ring, id).answer is Ok,
        amount != 0,
        !reserved::is_reserved(&to),
    ensures
        ({
            let l2 = Ledger { height, ..exit_step(l, ring, id).ledger };
            let s = withdraw_step(l2, ring, to, id, amount);
            let open = cooldown_end(l.height);
            &&& height < open ==> s == refused(
                l2,
                ExecutionError::ExitCooldownNotElapsed {
                    ring: ring_name(ring),
                    slot_id: id,
                    required_block_height: open,
                    current_block_height: height,
                },
            )
            &&& height >= open && amount <= m[id].deposited && (crate::ledger::moved(
                l.balances,
                crate::staking::stake_pool(ring),
                to,
                amount,
            ) is Ok) ==> s.answer is Ok
        }),
{
    lemma_slot_replaced(
        l,
        l,
        ring,
        m,
        id,
        SlotView { status: AuthorityStatus::Exiting, exit_height: l.height, ..m[id] },
    );
    let l1 = exit_step(l, ring, id).ledger;
    let l2 = Ledger { height, ..l1 };
    assert(ring_slots(l2, ring) == ring_slots(l1, ring));
}

/// Whether slot `id` of a ring became `slot`, and nothing else of the records
/// changed.
pub open spec fn only_slot_set(
    l: Ledger,
    l2: Ledger,
    ring: RewardsRing,
    m: Map<u32, SlotView>,
    id: u32,
    slot: SlotView,
) -> bool {
    &&& l2.height == l.height
    &&& l2.pairings == l.pairings
    &&& forall|a: Address| a != ring_registry(ring) ==> #[trigger] l2.record(a) == l.record(a)
    &&& ring_slots(l2, ring) matches Ok(n) && {
        &&& forall|other: u32| #[trigger]
            n.dom().contains(other) <==> other == id || m.dom().contains(other)
        &&& forall|other: u32| #[trigger]
            m.dom().contains(other) && other != id ==> n[other] == m[other]
        &&& n[id] == slot
    }
}

/// An admission takes the slot with the given keys and declared stake. The slot is
/// active, without a bond and without an exit height; no other slot changes.
pub proof fn law_admissions_fill_the_slot(
    l: Ledger,
    ring: RewardsRing,
    m: Map<u32, SlotView>,
    id: u32,
    stake: u64,
    mldsa: Vec<u8>,
    bls: Vec<u8>,
    evidence: EvidenceView,
)
    requires
        ring_slots(l, ring) == Ok::<Map<u32, SlotView>, ExecutionError>(m),
        m.dom().len() < u32::MAX,
    ensures
        ({
            let s = applied(l, admission(ring, id, stake, mldsa, bls), evidence);
            s.answer is Ok ==> only_slot_set(
                l,
                s.ledger,
                ring,
                m,
                id,
                SlotView {
                    mldsa: mldsa@,
                    bls: bls@,
                    stake,
                    deposited: 0,
                    exit_height: 0,
                    status: AuthorityStatus::Active,
                },
            )
        }),
{
    lemma_ring_fits(l, ring, m);
    let slot = SlotView {
        mldsa: mldsa@,
        bls: bls@,
        stake,
        deposited: 0,
        exit_height: 0,
        status: AuthorityStatus::Active,
    };
    if mldsa@.len() <= MAX_MLDSA_PK_BYTES && bls@.len() <= MAX_BLS_PK_BYTES && !m.dom().contains(
        id,
    ) {
        assert(m.insert(id, slot).dom() =~= m.dom().insert(id));
        law_slots_read_back(l, ring, m.insert(id, slot));
    }
}

/// An exit turns the slot exiting at the current height and leaves its keys, its
/// declared stake and its bond as they are; no other slot changes.
pub proof fn law_exits_note_the_height(
    l: Ledger,
    ring: RewardsRing,
    m: Map<u32, SlotView>,
    id: u32,
    evidence: EvidenceView,
)
    requires
        ring_slots(l, ring) == Ok::<Map<u32, SlotView>, ExecutionError>(m),
    ensures
        ({
            let s = applied(l, exit_of(ring, id), evidence);
            s.answer is Ok ==> only_slot_set(
                l,
                s.ledger,
                ring,
                m,
                id,
                SlotView {
                    mldsa: m[id].mldsa,
                    bls: m[id].bls,
                    stake: m[id].stake,
                    deposited: m[id].deposited,
                    exit_height: l.height,
                    status: AuthorityStatus::Exiting,
                },
            )
        }),
{
    if m.dom().contains(id) && m[id].status == AuthorityStatus::Active {
        lemma_slot_replaced(
            l,
            l,
            ring,
            m,
            id,
            SlotView { status: AuthorityStatus::Exiting, exit_height: l.height, ..m[id] },
        );
    }
}

/// An ejection turns the slot ejected and takes all of its bond; its keys, its
/// declared stake and its exit height stay, and no other slot changes.
pub proof fn law_ejections_empty_the_bond(
    l: Ledger,
    ring: RewardsRing,
    m: Map<u32, SlotView>,
    id: u32,
    proof_ref: [u8; 32],
    evidence: EvidenceView,
)
    requires
        ring_slots(l, ring) == Ok::<Map<u32, SlotView>, ExecutionError>(m),
    ensures
        ({
            let s = applied(l, ejection_of(ring, id, proof_ref), evidence);
            s.answer is Ok ==> only_slot_set(
                l,
                s.ledger,
                ring,
                m,
                id,
                SlotView {
                    mldsa: m[id].mldsa,
                    bls: m[id].bls,
                    stake: m[id].stake,
                    deposited: 0,
                    exit_height: m[id].exit_height,
                    status: AuthorityStatus::Ejected,
                },
            )
        }),
{
    let s = eject_step(l, ring, id);
    if m.dom().contains(id) {
        lemma_slot_replaced(
            l,
            Ledger { balances: s.ledger.balances, ..l },
            ring,
            m,
            id,
            SlotView { status: AuthorityStatus::Ejected, deposited: 0, ..m[id] },
        );
    }
}

/// A deposit raises the slot's bond by the amount and leaves everything else about
/// it as it is; no other slot changes.
pub proof fn law_deposits_raise_the_bond(
    l: Ledger,
    ring: RewardsRing,
    m: Map<u32, SlotView>,
    from: Address,
    id: u32,
    amount: Balance,
    evidence: EvidenceView,
)
    requires
        ring_slots(l, ring) == Ok::<Map<u32, SlotView>, ExecutionError>(m),
        amount != 0,
    ensures
        ({
            let s = applied(l, deposit_for(ring, from, id, amount), evidence);
            s.answer is Ok ==> m[id].deposited + amount <= u64::MAX && only_slot_set(
                l,
                s.ledger,
                ring,
                m,
                id,
                SlotView {
                    mldsa: m[id].mldsa,
                    bls: m[id].bls,
                    stake: m[id].stake,
                    deposited: (m[id].deposited + amount) as u64,
                    exit_height: m[id].exit_height,
                    status: AuthorityStatus::Active,
                },
            )
        }),
{
    let s = deposit_step(l, ring, from, id, amount);
    if m.dom().contains(id) {
        lemma_slot_replaced(
            l,
            Ledger { balances: s.ledger.balances, ..l },
            ring,
            m,
            id,
            SlotView { deposited: (m[id].deposited + amount) as u64, ..m[id] },
        );
    }
}

/// A withdrawal lowers the slot's bond by the amount and leaves everything else
/// about it as it is: the slot is exiting before and after, from the same height.
/// No other slot changes.
pub proof fn law_withdrawals_lower_the_bond(
    l: Ledger,
    ring: RewardsRing,
    m: Map<u32, SlotView>,
    to: Address,
    id: u32,
    amount: Balance,
    evidence: EvidenceView,
)
    requires
        ring_slots(l, ring) == Ok::<Map<u32, SlotView>, ExecutionError>(m),
        amount != 0,
    ensures
        ({
            let s = applied(l, withdrawal_from(ring, to, id, amount), evidence);
            s.answer is Ok ==> m[id].status == AuthorityStatus::Exiting && amount
                <= m[id].deposited && only_slot_set(
                l,
                s.ledger,
                ring,
                m,
                id,
                SlotView {
                    mldsa: m[id].mldsa,
                    bls: m[id].bls,
                    stake: m[id].stake,
                    deposited: (m[id].deposited - amount) as u64,
                    exit_height: m[id].exit_height,
                    status: AuthorityStatus::Exiting,
                },
            )
        }),
{
    let s = withdraw_step(l, ring, to, id, amount);
    if m.dom().contains(id) {
        lemma_slot_replaced(
            l,
            Ledger { balances: s.ledger.balances, ..l },
            ring,
            m,
            id,
            SlotView { deposited: (m[id].deposited - amount) as u64, ..m[id] },
        );
    }
}

/// After a withdrawal, what is left of the bond can be withdrawn too, at once and
/// in any parts, as far as the pool can pay it.
pub proof fn law_withdrawals_can_go_on(
    l: Ledger,
    ring: RewardsRing,
    m: Map<u32, SlotView>,
    to: Address,
    id: u32,
    amount: Balance,
    next_to: Address,
    next: Balance,
    evidence: EvidenceView,
)
    requires
        ring_slots(l, ring) == Ok::<Map<u32, SlotView>, ExecutionError>(m),
        amount != 0,
        next != 0,
        !reserved::is_reserved(&next_to),
        applied(l, withdrawal_from(ring, to, id, amount), evidence).answer is Ok,
    ensures
        ({
            let l2 = applied(l, withdrawal_from(ring, to, id, amount), evidence).ledger;
            applied(l2, withdrawal_from(ring, next_to, id, next), evidence).answer is Ok <==> amount
                + next <= m[id].deposited && can_pay(l2.balances, pool_of(ring), next_to, next)
        }),
{
    let l2 = applied(l, withdrawal_from(ring, to, id, amount), evidence).ledger;
    law_withdrawals_are_answered(l, ring, to, id, amount, evidence);
    law_withdrawals_lower_the_bond(l, ring, m, to, id, amount, evidence);
    law_withdrawals_are_answered(l2, ring, next_to, id, next, evidence);
}

/// Whether `intent` explains that slot `a` became `b`: only an exit turns a slot
/// exiting, only an ejection turns it ejected, and only deposits, withdrawals and
/// ejections of that slot change its bond.
pub open spec fn explains(
    intent: Intent,
    ring: RewardsRing,
    id: u32,
    height: u64,
    a: SlotView,
    b: SlotView,
) -> bool {
    ||| b == a
    ||| intent == exit_of(ring, id) && b == (SlotView {
        status: AuthorityStatus::Exiting,
        exit_height: height,
        ..a
    })
    ||| (exists|r: [u8; 32]| intent == #[trigger] ejection_of(ring, id, r)) && b == (SlotView {
        status: AuthorityStatus::Ejected,
        deposited: 0,
        ..a
    })
    ||| (exists|from: Address, amount: Balance|
        intent == #[trigger] deposit_for(ring, from, id, amount) && b.deposited == a.deposited
            + amount) && b == (SlotView { deposited: b.deposited, ..a })
    ||| (exists|to: Address, amount: Balance|
        intent == #[trigger] withdrawal_from(ring, to, id, amount) && b.deposited == a.deposited
            - amount) && b == (SlotView { deposited: b.deposited, ..a })
}

/// Whether every change of a ring's slots is explained by `intent`; a slot that
/// was free is taken only by an admission into it.
pub open spec fn slots_explained(
    l: Ledger,
    l2: Ledger,
    ring: RewardsRing,
    m: Map<u32, SlotView>,
    intent: Intent,
) -> bool {
    ring_slots(l2, ring) matches Ok(n) && {
        &&& forall|id: u32| #[trigger]
            m.dom().contains(id) ==> n.dom().contains(id) && explains(
                intent,
                ring,
                id,
                l.height,
                m[id],
                n[id],
            )
        &&& forall|id: u32| #[trigger]
            n.dom().contains(id) && !m.dom().contains(id) ==> exists|
                stake: u64,
                mldsa: Vec<u8>,
                bls: Vec<u8>,
            |
                intent == #[trigger] admission(ring, id, stake, mldsa, bls)
    }
}

proof fn lemma_explained(
    l: Ledger,
    s: Step,
    ring: RewardsRing,
    m: Map<u32, SlotView>,
    intent: Intent,
    id: u32,
    slot: SlotView,
)
    requires
        ring_slots(l, ring) == Ok::<Map<u32, SlotView>, ExecutionError>(m),
        s.ledger == l || only_slot_set(l, s.ledger, ring, m, id, slot),
        m.dom().contains(id) ==> s.ledger == l || explains(intent, ring, id, l.height, m[id], slot),
        !m.dom().contains(id) ==> s.ledger == l || exists|
            stake: u64,
            mldsa: Vec<u8>,
            bls: Vec<u8>,
        |
            intent == #[trigger] admission(ring, id, stake, mldsa, bls),
    ensures
        slots_explained(l, s.ledger, ring, m, intent),
{
}

proof fn lemma_admission_explained(
    l: Ledger,
    ring: RewardsRing,
    m: Map<u32, SlotView>,
    id: u32,
    stake: u64,
    mldsa: Vec<u8>,
    bls: Vec<u8>,
    evidence: EvidenceView,
)
    requires
        ring_slots(l, ring) == Ok::<Map<u32, SlotView>, ExecutionError>(m),
        m.dom().len() < u32::MAX,
    ensures
        ({
            let intent = admission(ring, id, stake, mldsa, bls);
            slots_explained(l, applied(l, intent, evidence).ledger, ring, m, intent)
        }),
{
    let intent = admission(ring, id, stake, mldsa, bls);
    law_admissions_are_answered(l, ring, id, stake, mldsa, bls, evidence);
    law_admissions_fill_the_slot(l, ring, m, id, stake, mldsa, bls, evidence);
    let slot = SlotView {
        mldsa: mldsa@,
        bls: bls@,
        stake,
        deposited: 0,
        exit_height: 0,
        status: AuthorityStatus::Active,
    };
    lemma_explained(l, applied(l, intent, evidence), ring, m, intent, id, slot);
}

proof fn lemma_exit_explained(
    l: Ledger,
    ring: RewardsRing,
    m: Map<u32, SlotView>,
    id: u32,
    evidence: EvidenceView,
)
    requires
        ring_slots(l, ring) == Ok::<Map<u32, SlotView>, ExecutionError>(m),
    ensures
        slots_explained(
            l,
            applied(l, exit_of(ring, id), evidence).ledger,
            ring,
            m,
            exit_of(ring, id),
        ),
{
    let intent = exit_of(ring, id);
    law_exits_are_answered(l, ring, id, evidence);
    law_exits_note_the_height(l, ring, m, id, evidence);
    let slot = SlotView { status: AuthorityStatus::Exiting, exit_height: l.height, ..m[id] };
    lemma_explained(l, applied(l, intent, evidence), ring, m, intent, id, slot);
}

proof fn lemma_ejection_explained(
    l: Ledger,
    ring: RewardsRing,
    m: Map<u32, SlotView>,
    id: u32,
    proof_ref: [u8; 32],
    evidence: EvidenceView,
)
    requires
        ring_slots(l, ring) == Ok::<Map<u32, SlotView>, ExecutionError>(m),
    ensures
        slots_explained(
            l,
            applied(l, ejection_of(ring, id, proof_ref), evidence).ledger,
            ring,
            m,
            ejection_of(ring, id, proof_ref),
        ),
{
    let intent = ejection_of(ring, id, proof_ref);
    law_ejections_empty_the_bond(l, ring, m, id, proof_ref, evidence);
    let slot = SlotView { status: AuthorityStatus::Ejected, deposited: 0, ..m[id] };
    lemma_explained(l, applied(l, intent, evidence), ring, m, intent, id, slot);
}

proof fn lemma_deposit_explained(
    l: Ledger,
    ring: RewardsRing,
    m: Map<u32, SlotView>,
    from: Address,
    id: u32,
    amount: Balance,
    evidence: EvidenceView,
)
    requires
        ring_slots(l, ring) == Ok::<Map<u32, SlotView>, ExecutionError>(m),
    ensures
        slots_explained(
            l,
            applied(l, deposit_for(ring, from, id, amount), evidence).ledger,
            ring,
            m,
            deposit_for(ring, from, id, amount),
        ),
{
    let intent = deposit_for(ring, from, id, amount);
    law_deposits_are_answered(l, ring, from, id, amount, evidence);
    if amount != 0 {
        law_deposits_raise_the_bond(l, ring, m, from, id, amount, evidence);
    }
    let slot = SlotView { deposited: (m[id].deposited + amount) as u64, ..m[id] };
    lemma_explained(l, applied(l, intent, evidence), ring, m, intent, id, slot);
}

proof fn lemma_withdrawal_explained(
    l: Ledger,
    ring: RewardsRing,
    m: Map<u32, SlotView>,
    to: Address,
    id: u32,
    amount: Balance,
    evidence: EvidenceView,
)
    requires
        ring_slots(l, ring) == Ok::<Map<u32, SlotView>, ExecutionError>(m),
    ensures
        slots_explained(
            l,
            applied(l, withdrawal_from(ring, to, id, amount), evidence).ledger,
            ring,
            m,
            withdrawal_from(ring, to, id, amount),
        ),
{
    let intent = withdrawal_from(ring, to, id, amount);
    law_withdrawals_are_answered(l, ring, to, id, amount, evidence);
    if amount != 0 {
        law_withdrawals_lower_the_bond(l, ring, m, to, id, amount, evidence);
    }
    let slot = SlotView { deposited: (m[id].deposited - amount) as u64, ..m[id] };
    lemma_explained(l, applied(l, intent, evidence), ring, m, intent, id, slot);
}

/// A slot changes only as its own intents say: an exit turns it exiting at the
/// current height, an ejection turns it ejected and empties its bond, deposits and
/// withdrawals change its bond alone, and only an admission takes a free slot.
pub proof fn law_slots_change_by_their_own_intents(
    l: Ledger,
    ring: RewardsRing,
    m: Map<u32, SlotView>,
    intent: Intent,
    evidence: EvidenceView,
)
    requires
        ring_slots(l, ring) == Ok::<Map<u32, SlotView>, ExecutionError>(m),
        m.dom().len() < u32::MAX,
    ensures
        reserved::apart() ==> slots_explained(
            l,
            applied(l, intent, evidence).ledger,
            ring,
            m,
            intent,
        ),
{
    if reserved::apart() {
        match ring {
            RewardsRing::Authority => {
                if writes_authorities(intent) {
                    lemma_authority_intents(l, m, intent, evidence);
                } else {
                    law_only_writers_change_authorities(l, intent, evidence);
                }
            },
            RewardsRing::Validator => {
                if writes_validators(intent) {
                    lemma_validator_intents(l, m, intent, evidence);
                } else {
                    law_only_writers_change_validators(l, intent, evidence);
                }
            },
        }
    }
}

proof fn lemma_authority_intents(
    l: Ledger,
    m: Map<u32, SlotView>,
    intent: Intent,
    evidence: EvidenceView,
)
    requires
        ring_slots(l, RewardsRing::Authority) == Ok::<Map<u32, SlotView>, ExecutionError>(m),
        m.dom().len() < u32::MAX,
        writes_authorities(intent),
    ensures
        slots_explained(
            l,
            applied(l, intent, evidence).ledger,
            RewardsRing::Authority,
            m,
            intent,
        ),
{
    let ring = RewardsRing::Authority;
    match intent {
        Intent::AdmitAuthority { authority_id, stake_gsx, mldsa_public_key, bls_public_key } => {
            lemma_admission_explained(
                l,
                ring,
                m,
                authority_id,
                stake_gsx,
                mldsa_public_key,
                bls_public_key,
                evidence,
            );
        },
        Intent::ExitAuthority { authority_id } => {
            lemma_exit_explained(l, ring, m, authority_id, evidence);
        },
        Intent::EjectAuthority { authority_id, proof_ref } => {
            lemma_ejection_explained(l, ring, m, authority_id, proof_ref, evidence);
        },
        Intent::DepositAuthorityStake { from, authority_id, amount } => {
            lemma_deposit_explained(l, ring, m, from, authority_id, amount, evidence);
        },
        Intent::WithdrawAuthorityStake { to, authority_id, amount } => {
            lemma_withdrawal_explained(l, ring, m, to, authority_id, amount, evidence);
        },
        _ => {},
    }
}

proof fn lemma_validator_intents(
    l: Ledger,
    m: Map<u32, SlotView>,
    intent: Intent,
    evidence: EvidenceView,
)
    requires
        ring_slots(l, RewardsRing::Validator) == Ok::<Map<u32, SlotView>, ExecutionError>(m),
        m.dom().len() < u32::MAX,
        writes_validators(intent),
    ensures
        slots_explained(
            l,
            applied(l, intent, evidence).ledger,
            RewardsRing::Validator,
            m,
            intent,
        ),
{
    let ring = RewardsRing::Validator;
    match intent {
        Intent::AdmitValidator { validator_id, stake_gsx, mldsa_public_key, bls_public_key } => {
            lemma_admission_explained(
                l,
                ring,
                m,
                validator_id,
                stake_gsx,
                mldsa_public_key,
                bls_public_key,
                evidence,
            );
        },
        Intent::ExitValidator { validator_id } => {
            lemma_exit_explained(l, ring, m, validator_id, evidence);
        },
        Intent::EjectValidator { validator_id, proof_ref } => {
            lemma_ejection_explained(l, ring, m, validator_id, proof_ref, evidence);
        },
        Intent::DepositValidatorStake { from, validator_id, amount } => {
            lemma_deposit_explained(l, ring, m, from, validator_id, amount, evidence);
        },
        Intent::WithdrawValidatorStake { to, validator_id, amount } => {
            lemma_withdrawal_explained(l, ring, m, to, validator_id, amount, evidence);
        },
        _ => {},
    }
}

} // verus!
