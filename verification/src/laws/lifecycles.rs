//! Records that are made once stay made, and states that are left are not
//! entered again.

use vstd::prelude::*;

use crate::apply::{applied, EvidenceView};
use crate::burn_nullifier::{burn_id_of, NullifierTable};
use crate::da_anchor_registry::AnchorTable;
use crate::eject_registry::{EjectionRecord, EjectionTable};
use crate::equivocation_registry::{EquivocationRecord, OffenseKind, OffenseTable};
use crate::error::{ErrorView, ExecutionError};
use crate::force_include::{ForceIncludeObligation, ObligationStatus, ObligationTable};
use crate::hash::digest_of;
use crate::intent::{Intent, SlashReason};
use crate::l2_state::L2BatchKey;
use crate::laws::registries::{
    law_anchors_read_back, law_claims_read_back, law_ejections_read_back, law_obligations_read_back,
    law_offenses_read_back,
};
use crate::laws::writers::{
    law_only_writers_change_anchors, law_only_writers_change_claims,
    law_only_writers_change_ejections, law_only_writers_change_obligations,
    law_only_writers_change_offenses, lemma_registries_differ, registries, writes_anchors,
    writes_claims, writes_ejections, writes_obligations, writes_offenses,
};
use crate::ledger::Ledger;
use crate::ordered::unit_map;
use crate::reserved;
use crate::rollup::{anchor_step, anchors, bridge_gate, burn_step, claimed, l2_or_empty};
use crate::sequencing::{
    ejections, honor_step, missed_step, oblige_step, obligations, offense_step, offenses,
    oust_step,
};
use crate::substrate::{Address, Balance};
use crate::table::{fits, has_room, lemma_parsed_table_fits, Table};

verus! {

/// A table with room for one more row can take a row under any key.
proof fn lemma_room<T: Table>(m: Map<T::Key, T::Value>, k: T::Key, v: T::Value)
    requires
        fits::<T>(m),
        m.dom().contains(k) || has_room::<T>(m),
    ensures
        fits::<T>(m.insert(k, v)),
{
    if m.dom().contains(k) {
        assert(m.insert(k, v).dom() =~= m.dom());
    } else {
        assert(m.insert(k, v).dom() =~= m.dom().insert(k));
    }
}

/// Whether one step may turn obligation `a` into `b`: a pending one may be settled
/// as honored or slashed, and a settled one stays as it is.
pub open spec fn settles(a: ForceIncludeObligation, b: ForceIncludeObligation) -> bool {
    ||| b == a
    ||| a.status == ObligationStatus::Pending && b == (ForceIncludeObligation {
        status: ObligationStatus::Honored,
        ..a
    })
    ||| a.status == ObligationStatus::Pending && b == (ForceIncludeObligation {
        status: ObligationStatus::Slashed,
        ..a
    })
}

/// Whether every obligation of `m` is kept or settled in the state `l`, and at
/// most one is new.
pub open spec fn all_settle(m: Map<[u8; 32], ForceIncludeObligation>, l: Ledger) -> bool {
    obligations(l) matches Ok(n) && n.dom().len() <= m.dom().len() + 1 && forall|id: [u8; 32]|
        #[trigger]
        m.dom().contains(id) ==> n.dom().contains(id) && settles(m[id], n[id])
}

proof fn lemma_obligation_steps(l: Ledger, m: Map<[u8; 32], ForceIncludeObligation>, id: [u8; 32])
    requires
        obligations(l) == Ok::<Map<[u8; 32], ForceIncludeObligation>, ExecutionError>(m),
    ensures
        all_settle(m, honor_step(l, id).ledger),
        all_settle(m, missed_step(l, id).ledger),
{
    lemma_parsed_table_fits::<ObligationTable>(
        l.record(reserved::force_include_registry_address()),
    );
    let honored = ForceIncludeObligation { status: ObligationStatus::Honored, ..m[id] };
    let slashed = ForceIncludeObligation { status: ObligationStatus::Slashed, ..m[id] };
    if m.dom().contains(id) {
        lemma_room::<ObligationTable>(m, id, honored);
        law_obligations_read_back(l, m.insert(id, honored));
        lemma_room::<ObligationTable>(m, id, slashed);
        let s = missed_step(l, id);
        law_obligations_read_back(
            Ledger { balances: s.ledger.balances, ..l },
            m.insert(id, slashed),
        );
    }
}

proof fn lemma_oblige_keeps(
    l: Ledger,
    m: Map<[u8; 32], ForceIncludeObligation>,
    tx: Seq<u8>,
    deadline: u64,
    submitter: Address,
    nonce: u64,
)
    requires
        obligations(l) == Ok::<Map<[u8; 32], ForceIncludeObligation>, ExecutionError>(m),
        has_room::<ObligationTable>(m),
    ensures
        all_settle(m, oblige_step(l, tx, deadline, submitter, nonce).ledger),
{
    lemma_parsed_table_fits::<ObligationTable>(
        l.record(reserved::force_include_registry_address()),
    );
    let id = digest_of(
        crate::force_include::obligation_preimage(tx, deadline, submitter, nonce),
    );
    let ob = ForceIncludeObligation {
        tx_hash: digest_of(tx),
        deadline_l1_height: deadline,
        submitter,
        l2_nonce: nonce,
        status: ObligationStatus::Pending,
    };
    lemma_room::<ObligationTable>(m, id, ob);
    law_obligations_read_back(l, m.insert(id, ob));
}

/// An obligation never disappears, is settled at most once, and keeps all else
/// that it says.
pub proof fn law_obligations_settle_once(
    l: Ledger,
    m: Map<[u8; 32], ForceIncludeObligation>,
    intent: Intent,
    evidence: EvidenceView,
)
    requires
        obligations(l) == Ok::<Map<[u8; 32], ForceIncludeObligation>, ExecutionError>(m),
        intent is L2ForceInclude ==> has_room::<ObligationTable>(m),
    ensures
        reserved::apart() ==> all_settle(m, applied(l, intent, evidence).ledger),
{
    lemma_parsed_table_fits::<ObligationTable>(
        l.record(reserved::force_include_registry_address()),
    );
    if !writes_obligations(intent) {
        law_only_writers_change_obligations(l, intent, evidence);
    }
    match intent {
        Intent::L2ForceInclude { tx, deadline_l1_height, submitter, l2_nonce } => {
            lemma_oblige_keeps(l, m, tx@, deadline_l1_height, submitter, l2_nonce);
        },
        Intent::MarkForceIncludeHonored { obligation_id } => {
            lemma_obligation_steps(l, m, obligation_id);
        },
        Intent::SlashSequencer { reason, intent_hash } => {
            if reason == SlashReason::MissedForceInclude {
                lemma_obligation_steps(l, m, intent_hash);
            }
        },
        _ => {},
    }
}

/// A settled obligation can neither be honored nor slashed, and a registered one
/// cannot be registered again: each answer names the reason and nothing changes.
pub proof fn law_settled_obligations_reject_replays(
    l: Ledger,
    m: Map<[u8; 32], ForceIncludeObligation>,
    id: [u8; 32],
)
    requires
        obligations(l) == Ok::<Map<[u8; 32], ForceIncludeObligation>, ExecutionError>(m),
        m.dom().contains(id),
        m[id].status != ObligationStatus::Pending,
    ensures
        ({
            let e = ExecutionError::ForceIncludeNotPending {
                obligation_id: id,
                status: m[id].status,
            };
            &&& honor_step(l, id) == crate::ledger::refused(l, e)
            &&& missed_step(l, id) == crate::ledger::refused(l, e)
        }),
{
}

/// Whether every ejection of `m` is kept in the state `l`.
pub open spec fn ejections_kept(m: Map<[u8; 32], EjectionRecord>, l: Ledger) -> bool {
    ejections(l) matches Ok(n) && m.submap_of(n)
}

/// A recorded ejection stays as it is.
pub proof fn law_ejections_are_permanent(
    l: Ledger,
    m: Map<[u8; 32], EjectionRecord>,
    intent: Intent,
    evidence: EvidenceView,
)
    requires
        ejections(l) == Ok::<Map<[u8; 32], EjectionRecord>, ExecutionError>(m),
        writes_ejections(intent) ==> has_room::<EjectionTable>(m),
    ensures
        reserved::apart() ==> ejections_kept(m, applied(l, intent, evidence).ledger),
{
    if !writes_ejections(intent) {
        law_only_writers_change_ejections(l, intent, evidence);
    }
    match intent {
        Intent::EjectSequencer { obligation_id, ejector } => {
            lemma_oust_keeps(l, m, obligation_id, ejector);
        },
        _ => {},
    }
}

proof fn lemma_oust_keeps(
    l: Ledger,
    m: Map<[u8; 32], EjectionRecord>,
    id: [u8; 32],
    ejector: Address,
)
    requires
        ejections(l) == Ok::<Map<[u8; 32], EjectionRecord>, ExecutionError>(m),
        has_room::<EjectionTable>(m),
    ensures
        ejections_kept(m, oust_step(l, id, ejector).ledger),
{
    lemma_parsed_table_fits::<EjectionTable>(l.record(reserved::ejection_registry_address()));
    lemma_room::<EjectionTable>(m, id, EjectionRecord { ejector });
    let s = oust_step(l, id, ejector);
    law_ejections_read_back(
        Ledger { balances: s.ledger.balances, ..l },
        m.insert(id, EjectionRecord { ejector }),
    );
}

/// Whether every offense of `m` is kept in the state `l`.
pub open spec fn offenses_kept(m: Map<[u8; 32], EquivocationRecord>, l: Ledger) -> bool {
    offenses(l) matches Ok(n) && m.submap_of(n)
}

proof fn lemma_offense_keeps(
    l: Ledger,
    m: Map<[u8; 32], EquivocationRecord>,
    kind: OffenseKind,
    id: [u8; 32],
)
    requires
        offenses(l) == Ok::<Map<[u8; 32], EquivocationRecord>, ExecutionError>(m),
        has_room::<OffenseTable>(m),
    ensures
        offenses_kept(m, offense_step(l, kind, id).ledger),
        offense_step(l, kind, id).answer is Ok ==> (offenses(
            offense_step(l, kind, id).ledger,
        ) matches Ok(n) && n.dom().contains(id)),
{
    let rec = EquivocationRecord { kind, slashed_at_l1_height: 0 };
    lemma_parsed_table_fits::<OffenseTable>(l.record(reserved::equivocation_registry_address()));
    lemma_room::<OffenseTable>(m, id, rec);
    let s = offense_step(l, kind, id);
    law_offenses_read_back(Ledger { balances: s.ledger.balances, ..l }, m.insert(id, rec));
}

/// A slashed offense stays recorded.
pub proof fn law_offenses_are_permanent(
    l: Ledger,
    m: Map<[u8; 32], EquivocationRecord>,
    intent: Intent,
    evidence: EvidenceView,
)
    requires
        offenses(l) == Ok::<Map<[u8; 32], EquivocationRecord>, ExecutionError>(m),
        writes_offenses(intent) ==> has_room::<OffenseTable>(m),
    ensures
        reserved::apart() ==> offenses_kept(m, applied(l, intent, evidence).ledger),
{
    if !writes_offenses(intent) {
        law_only_writers_change_offenses(l, intent, evidence);
    }
    match intent {
        Intent::SlashSequencer { reason, intent_hash } => {
            if reason == SlashReason::Equivocation {
                lemma_offense_keeps(l, m, OffenseKind::Equivocation, intent_hash);
            } else if reason == SlashReason::InvalidBatch {
                lemma_offense_keeps(l, m, OffenseKind::InvalidBatch, intent_hash);
            }
        },
        _ => {},
    }
}

/// An offense is slashed once: after the first slash, whatever the kind, a second
/// one over the same evidence is refused and changes nothing.
pub proof fn law_offenses_are_slashed_once(
    l: Ledger,
    m: Map<[u8; 32], EquivocationRecord>,
    first: OffenseKind,
    second: OffenseKind,
    id: [u8; 32],
)
    requires
        offenses(l) == Ok::<Map<[u8; 32], EquivocationRecord>, ExecutionError>(m),
        has_room::<OffenseTable>(m),
        offense_step(l, first, id).answer is Ok,
    ensures
        ({
            let l2 = offense_step(l, first, id).ledger;
            offense_step(l2, second, id) == crate::ledger::refused(
                l2,
                ExecutionError::EquivocationAlreadyRecorded { proof_hash: id, kind: first },
            )
        }),
{
    let rec = EquivocationRecord { kind: first, slashed_at_l1_height: 0 };
    lemma_parsed_table_fits::<OffenseTable>(l.record(reserved::equivocation_registry_address()));
    lemma_room::<OffenseTable>(m, id, rec);
    let s = offense_step(l, first, id);
    law_offenses_read_back(Ledger { balances: s.ledger.balances, ..l }, m.insert(id, rec));
}

/// Whether every anchor of `m` is kept in the state `l`.
pub open spec fn anchors_kept(m: Map<L2BatchKey, [u8; 32]>, l: Ledger) -> bool {
    anchors(l) matches Ok(n) && m.submap_of(n)
}

proof fn lemma_anchor_keeps(
    l: Ledger,
    m: Map<L2BatchKey, [u8; 32]>,
    batch_id: u64,
    blob: Seq<u8>,
    chain: [u8; 32],
)
    requires
        anchors(l) == Ok::<Map<L2BatchKey, [u8; 32]>, ExecutionError>(m),
        has_room::<AnchorTable>(m),
    ensures
        anchors_kept(m, anchor_step(l, batch_id, blob, chain).ledger),
        anchors(anchor_step(l, batch_id, blob, chain).ledger) matches Ok(n) && n.dom().contains(
            L2BatchKey { l2_chain_id_hash: chain, batch_id },
        ),
{
    let key = L2BatchKey { l2_chain_id_hash: chain, batch_id };
    lemma_parsed_table_fits::<AnchorTable>(l.record(reserved::da_anchor_registry_address()));
    lemma_room::<AnchorTable>(m, key, digest_of(blob));
    law_anchors_read_back(l, m.insert(key, digest_of(blob)));
}

/// The anchor of a batch is set once and stays as it is.
pub proof fn law_anchors_are_permanent(
    l: Ledger,
    m: Map<L2BatchKey, [u8; 32]>,
    intent: Intent,
    evidence: EvidenceView,
)
    requires
        anchors(l) == Ok::<Map<L2BatchKey, [u8; 32]>, ExecutionError>(m),
        writes_anchors(intent) ==> has_room::<AnchorTable>(m),
    ensures
        reserved::apart() ==> anchors_kept(m, applied(l, intent, evidence).ledger),
{
    if !writes_anchors(intent) {
        law_only_writers_change_anchors(l, intent, evidence);
    }
    match intent {
        Intent::PostL2DAv2 { batch_id, da_blob, l2_chain_id_hash } => {
            lemma_anchor_keeps(l, m, batch_id, da_blob@, l2_chain_id_hash);
        },
        _ => {},
    }
}

/// Once a batch has an anchor, whatever the blob, another one is refused.
pub proof fn law_batches_are_anchored_once(
    l: Ledger,
    m: Map<L2BatchKey, [u8; 32]>,
    batch_id: u64,
    first: Seq<u8>,
    second: Seq<u8>,
    chain: [u8; 32],
)
    requires
        anchors(l) == Ok::<Map<L2BatchKey, [u8; 32]>, ExecutionError>(m),
        has_room::<AnchorTable>(m),
    ensures
        ({
            let l2 = anchor_step(l, batch_id, first, chain).ledger;
            anchor_step(l2, batch_id, second, chain) == crate::ledger::refused(
                l2,
                ExecutionError::DaAnchorAlreadyRecorded { l2_chain_id_hash: chain, batch_id },
            )
        }),
{
    lemma_anchor_keeps(l, m, batch_id, first, chain);
}

/// Whether every claimed burn of `s` is still claimed in the state `l`.
pub open spec fn claims_kept(s: Set<[u8; 32]>, l: Ledger) -> bool {
    claimed(l) matches Ok(n) && s.subset_of(n)
}

/// A claimed burn stays claimed.
pub proof fn law_claims_are_permanent(
    l: Ledger,
    s: Set<[u8; 32]>,
    intent: Intent,
    evidence: EvidenceView,
)
    requires
        claimed(l) == Ok::<Set<[u8; 32]>, ExecutionError>(s),
        writes_claims(intent) ==> has_room::<NullifierTable>(unit_map(s)),
    ensures
        reserved::apart() ==> claims_kept(s, applied(l, intent, evidence).ledger),
{
    if !writes_claims(intent) {
        law_only_writers_change_claims(l, intent, evidence);
    }
    match intent {
        Intent::L2BurnProven {
            batch_id,
            recipient,
            amount,
            merkle_path,
            path_directions,
            asset_id,
            l2_chain_id_hash,
        } => {
            lemma_burn_keeps(
                l,
                s,
                batch_id,
                recipient,
                amount,
                merkle_path@,
                path_directions@,
                asset_id,
                l2_chain_id_hash,
                evidence.burn_included,
            );
        },
        _ => {},
    }
}

proof fn lemma_burn_keeps(
    l: Ledger,
    s: Set<[u8; 32]>,
    batch_id: u64,
    to: Address,
    amount: Balance,
    path: Seq<u8>,
    directions: Seq<u8>,
    asset: Option<[u8; 32]>,
    chain: [u8; 32],
    vouched: bool,
)
    requires
        claimed(l) == Ok::<Set<[u8; 32]>, ExecutionError>(s),
        has_room::<NullifierTable>(unit_map(s)),
    ensures
        ({
            let r = burn_step(l, batch_id, to, amount, path, directions, asset, chain, vouched);
            let id = burn_id_of(chain, batch_id, to, amount, path, asset);
            &&& s.finite()
            &&& claims_kept(s, r.ledger)
            &&& r.answer is Ok && amount != 0 ==> !s.contains(id) && claimed(r.ledger) == Ok::<
                Set<[u8; 32]>,
                ExecutionError,
            >(s.insert(id))
            &&& r.answer is Ok && amount == 0 ==> r.ledger == l
            &&& r.answer is Err ==> r.ledger == l || {
                &&& r.answer == short_of(l, amount)
                &&& claimed(r.ledger) == Ok::<Set<[u8; 32]>, ExecutionError>(s.insert(id))
            }
        }),
{
    let id = burn_id_of(chain, batch_id, to, amount, path, asset);
    let r = burn_step(l, batch_id, to, amount, path, directions, asset, chain, vouched);
    let b = l.record(reserved::burn_nullifier_registry_address());
    lemma_parsed_table_fits::<NullifierTable>(b);
    if let Ok(m) = crate::table::parse_table::<NullifierTable>(b) {
        assert(m =~= unit_map(s));
    }
    assert(unit_map(s).dom() =~= s);
    lemma_room::<NullifierTable>(unit_map(s), id, ());
    assert(unit_map(s).insert(id, ()) =~= unit_map(s.insert(id)));
    law_claims_read_back(Ledger { balances: r.ledger.balances, ..l }, s.insert(id));
}

/// The answer where the escrow is short of `amount`.
pub open spec fn short_of(l: Ledger, amount: Balance) -> Result<(), ErrorView> {
    Err(
        ExecutionError::InsufficientBalance {
            from: reserved::bridge_escrow_address(),
            have: l.balance(reserved::bridge_escrow_address()),
            need: amount,
        }@,
    )
}

/// Whether an intent claims a burn of something.
pub open spec fn claims_a_burn(intent: Intent) -> bool {
    match intent {
        Intent::L2BurnProven { amount, .. } => amount != 0,
        _ => false,
    }
}

/// The number of claimed burns grows by one with every burn that is paid and never
/// falls. No other intent changes what is claimed, nor does a refused claim, unless
/// it is refused because the escrow is short.
pub proof fn law_claims_are_counted(
    l: Ledger,
    s: Set<[u8; 32]>,
    intent: Intent,
    evidence: EvidenceView,
)
    requires
        claimed(l) == Ok::<Set<[u8; 32]>, ExecutionError>(s),
        writes_claims(intent) ==> has_room::<NullifierTable>(unit_map(s)),
    ensures
        reserved::apart() ==> ({
            let r = applied(l, intent, evidence);
            &&& claimed(r.ledger) matches Ok(t)
            &&& s.len() <= t.len() <= s.len() + 1
            &&& claims_a_burn(intent) && r.answer is Ok ==> t.len() == s.len() + 1
            &&& !claims_a_burn(intent) ==> t == s
            &&& r.answer matches Err(e) ==> t == s || e matches ErrorView::Plain(
                ExecutionError::InsufficientBalance { .. },
            )
        }),
{
    if !writes_claims(intent) {
        law_only_writers_change_claims(l, intent, evidence);
    }
    match intent {
        Intent::L2BurnProven {
            batch_id,
            recipient,
            amount,
            merkle_path,
            path_directions,
            asset_id,
            l2_chain_id_hash,
        } => {
            lemma_burn_keeps(
                l,
                s,
                batch_id,
                recipient,
                amount,
                merkle_path@,
                path_directions@,
                asset_id,
                l2_chain_id_hash,
                evidence.burn_included,
            );
            if let Ok(t) = claimed(applied(l, intent, evidence).ledger) {
                lemma_parsed_table_fits::<NullifierTable>(
                    applied(l, intent, evidence).ledger.record(
                        reserved::burn_nullifier_registry_address(),
                    ),
                );
                vstd::set_lib::lemma_len_subset(s, t);
            }
        },
        _ => {},
    }
}

/// A burn that was claimed is refused, whatever else holds, and nothing changes.
pub proof fn law_claimed_burns_are_not_paid(
    l: Ledger,
    s: Set<[u8; 32]>,
    batch_id: u64,
    to: Address,
    amount: Balance,
    path: Seq<u8>,
    directions: Seq<u8>,
    asset: Option<[u8; 32]>,
    chain: [u8; 32],
    vouched: bool,
)
    requires
        claimed(l) == Ok::<Set<[u8; 32]>, ExecutionError>(s),
        s.contains(burn_id_of(chain, batch_id, to, amount, path, asset)),
        amount != 0,
    ensures
        ({
            let r = burn_step(l, batch_id, to, amount, path, directions, asset, chain, vouched);
            r.answer is Err && r.ledger == l
        }),
{
}

/// A burn is paid once. It is paid out of a committed batch, to a user account, for
/// an asset that the bridge accepts, and where it was not claimed before; the
/// escrow falls and the recipient rises by the amount, and the burn is claimed. A
/// second claim of the same burn is refused and changes nothing; with evidence that
/// is no weaker the answer is that the burn was already claimed.
pub proof fn law_burns_are_paid_once(
    l: Ledger,
    s: Set<[u8; 32]>,
    batch_id: u64,
    to: Address,
    amount: Balance,
    path: Seq<u8>,
    directions: Seq<u8>,
    asset: Option<[u8; 32]>,
    chain: [u8; 32],
    vouched: bool,
    again: bool,
)
    requires
        claimed(l) == Ok::<Set<[u8; 32]>, ExecutionError>(s),
        has_room::<NullifierTable>(unit_map(s)),
        amount != 0,
        burn_step(l, batch_id, to, amount, path, directions, asset, chain, vouched).answer is Ok,
    ensures
        ({
            let l2 = burn_step(
                l,
                batch_id,
                to,
                amount,
                path,
                directions,
                asset,
                chain,
                vouched,
            ).ledger;
            let id = burn_id_of(chain, batch_id, to, amount, path, asset);
            let escrow = reserved::bridge_escrow_address();
            let r = burn_step(l2, batch_id, to, amount, path, directions, asset, chain, again);
            &&& l2_or_empty(l).state_roots.dom().contains(
                L2BatchKey { l2_chain_id_hash: chain, batch_id },
            )
            &&& !reserved::is_reserved(&to)
            &&& bridge_gate(l, asset) is Ok
            &&& !s.contains(id)
            &&& claimed(l2) == Ok::<Set<[u8; 32]>, ExecutionError>(s.insert(id))
            &&& l2.balance(escrow) == l.balance(escrow) - amount
            &&& l2.balance(to) == l.balance(to) + amount
            &&& r.answer is Err && r.ledger == l2
            &&& reserved::apart() && (vouched ==> again) ==> r == crate::ledger::refused(
                l2,
                ExecutionError::L2BurnAlreadyClaimed { burn_id: id },
            )
        }),
{
    let l2 = burn_step(
        l,
        batch_id,
        to,
        amount,
        path,
        directions,
        asset,
        chain,
        vouched,
    ).ledger;
    let id = burn_id_of(chain, batch_id, to, amount, path, asset);
    lemma_burn_keeps(l, s, batch_id, to, amount, path, directions, asset, chain, vouched);
    law_claimed_burns_are_not_paid(
        l2,
        s.insert(id),
        batch_id,
        to,
        amount,
        path,
        directions,
        asset,
        chain,
        again,
    );
    reveal(reserved::protocol_owned);
    assert(reserved::is_reserved(&reserved::bridge_escrow_address()));
    if reserved::apart() {
        lemma_registries_differ(4);
        assert(registries()[4] == reserved::burn_nullifier_registry_address());
        assert(l2.record(reserved::l2_registry_address()) == l.record(
            reserved::l2_registry_address(),
        ));
        assert(l2.record(reserved::asset_registry_address()) == l.record(
            reserved::asset_registry_address(),
        ));
    }
}

} // verus!
