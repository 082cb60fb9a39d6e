//! What holds over any sequence of intents: settled obligations, removed assets and
//! claimed burns stay as they are.

use vstd::prelude::*;

use crate::apply::{applied, EvidenceView};
use crate::asset_registry::{AssetStatus, AssetView};
use crate::assets::{listed, restatus_step};
use crate::block::{after, answer_to};
use crate::burn_nullifier::NullifierTable;
use crate::error::{ErrorView, ExecutionError};
use crate::force_include::{ForceIncludeObligation, ObligationStatus, ObligationTable};
use crate::intent::{Intent, SlashReason};
use crate::laws::lifecycles::{
    law_claims_are_counted, law_claims_are_permanent, law_obligations_settle_once,
    law_settled_obligations_reject_replays, settles,
};
use crate::laws::listing::{
    asset_follows, law_retired_assets_stay_retired, lemma_restatus_keeps,
};
use crate::ledger::Ledger;
use crate::ordered::unit_map;
use crate::reserved;
use crate::rollup::claimed;
use crate::sequencing::obligations;
use crate::table::{has_room, RowFormat, TABLE_HEADER_BYTES};

verus! {

/// Whether `m` has room for `n` more rows.
pub open spec fn room_for<T: RowFormat>(m: Map<T::Key, T::Value>, n: nat) -> bool {
    &&& m.dom().len() + n <= u32::MAX
    &&& TABLE_HEADER_BYTES + (m.dom().len() + n) * T::width() <= usize::MAX
}

/// A table that grew by less than what there was room for has room for one more.
proof fn lemma_room_left<T: RowFormat>(
    m: Map<T::Key, T::Value>,
    k: Map<T::Key, T::Value>,
    n: nat,
)
    requires
        n > 0,
        room_for::<T>(m, n),
        k.dom().len() < m.dom().len() + n,
    ensures
        has_room::<T>(k),
        room_for::<T>(m, (n - 1) as nat),
{
    let (a, b, w) = (k.dom().len(), m.dom().len() + n, T::width());
    assert((a + 1) * w <= b * w && (b - 1) * w <= b * w) by (nonlinear_arith)
        requires
            a + 1 <= b,
            w >= 0,
    ;
}

/// Whether an intent would settle obligation `id`.
pub open spec fn would_settle(intent: Intent, id: [u8; 32]) -> bool {
    match intent {
        Intent::MarkForceIncludeHonored { obligation_id } => obligation_id == id,
        Intent::SlashSequencer { reason, intent_hash } => {
            reason == SlashReason::MissedForceInclude && intent_hash == id
        },
        _ => false,
    }
}

/// Over any sequence of intents an obligation never disappears, is settled at most
/// once, and keeps all else that it says.
pub proof fn law_sequences_settle_once(
    l: Ledger,
    m: Map<[u8; 32], ForceIncludeObligation>,
    intents: Seq<Intent>,
    evidence: Seq<EvidenceView>,
    n: nat,
)
    requires
        obligations(l) == Ok::<Map<[u8; 32], ForceIncludeObligation>, ExecutionError>(m),
        room_for::<ObligationTable>(m, n),
    ensures
        reserved::apart() ==> ({
            &&& obligations(after(l, intents, evidence, n)) matches Ok(k)
            &&& k.dom().len() <= m.dom().len() + n
            &&& forall|id: [u8; 32]| #[trigger]
                m.dom().contains(id) ==> k.dom().contains(id) && settles(m[id], k[id])
        }),
    decreases n,
{
    if n > 0 && reserved::apart() {
        let before = after(l, intents, evidence, (n - 1) as nat);
        assert(room_for::<ObligationTable>(m, (n - 1) as nat)) by {
            lemma_room_left::<ObligationTable>(m, m, n);
        }
        law_sequences_settle_once(l, m, intents, evidence, (n - 1) as nat);
        let k = obligations(before)->Ok_0;
        lemma_room_left::<ObligationTable>(m, k, n);
        law_obligations_settle_once(before, k, intents[n - 1], evidence[n - 1]);
        let j = obligations(after(l, intents, evidence, n))->Ok_0;
        assert forall|id: [u8; 32]| #[trigger] m.dom().contains(id) implies j.dom().contains(id)
            && settles(m[id], j[id]) by {
            assert(k.dom().contains(id));
        }
    }
}

proof fn lemma_settling_again(
    l: Ledger,
    m: Map<[u8; 32], ForceIncludeObligation>,
    id: [u8; 32],
    intent: Intent,
    evidence: EvidenceView,
)
    requires
        obligations(l) == Ok::<Map<[u8; 32], ForceIncludeObligation>, ExecutionError>(m),
        m.dom().contains(id),
        m[id].status != ObligationStatus::Pending,
        would_settle(intent, id),
    ensures
        applied(l, intent, evidence).answer == Err::<(), ErrorView>(
            ExecutionError::ForceIncludeNotPending { obligation_id: id, status: m[id].status }@,
        ),
{
    law_settled_obligations_reject_replays(l, m, id);
}

/// An obligation that is honored or slashed stays exactly as it is over any
/// sequence of intents, and every attempt to settle it again is answered with its
/// status.
pub proof fn law_settled_obligations_stay_settled(
    l: Ledger,
    m: Map<[u8; 32], ForceIncludeObligation>,
    id: [u8; 32],
    intents: Seq<Intent>,
    evidence: Seq<EvidenceView>,
    n: nat,
)
    requires
        obligations(l) == Ok::<Map<[u8; 32], ForceIncludeObligation>, ExecutionError>(m),
        room_for::<ObligationTable>(m, n),
        m.dom().contains(id),
        m[id].status != ObligationStatus::Pending,
    ensures
        reserved::apart() ==> ({
            &&& obligations(after(l, intents, evidence, n)) matches Ok(k)
            &&& k.dom().contains(id)
            &&& k[id] == m[id]
            &&& forall|i: int|
                0 <= i < n && would_settle(#[trigger] intents[i], id) ==> answer_to(
                    l,
                    intents,
                    evidence,
                    i,
                ) == Err::<(), ErrorView>(
                    ExecutionError::ForceIncludeNotPending {
                        obligation_id: id,
                        status: m[id].status,
                    }@,
                )
        }),
    decreases n,
{
    if reserved::apart() {
        law_sequences_settle_once(l, m, intents, evidence, n);
        if n > 0 {
            lemma_room_left::<ObligationTable>(m, m, n);
            law_settled_obligations_stay_settled(l, m, id, intents, evidence, (n - 1) as nat);
            let before = after(l, intents, evidence, (n - 1) as nat);
            let e = Err::<(), ErrorView>(
                ExecutionError::ForceIncludeNotPending {
                    obligation_id: id,
                    status: m[id].status,
                }@,
            );
            assert forall|i: int| 0 <= i < n && would_settle(#[trigger] intents[i], id) implies
                answer_to(l, intents, evidence, i) == e by {
                if i == n - 1 {
                    lemma_settling_again(
                        before,
                        obligations(before)->Ok_0,
                        id,
                        intents[i],
                        evidence[i],
                    );
                }
            }
        }
    }
}

/// Over any sequence of intents a listed asset stays listed as it is but for its
/// status, an asset that is not active does not become active, and a removed one
/// stays removed.
pub proof fn law_sequences_keep_assets(
    l: Ledger,
    m: Map<[u8; 32], AssetView>,
    intents: Seq<Intent>,
    evidence: Seq<EvidenceView>,
    n: nat,
)
    requires
        listed(l) == Ok::<Map<[u8; 32], AssetView>, ExecutionError>(m),
        m.dom().len() + n <= u32::MAX,
    ensures
        reserved::apart() ==> ({
            &&& listed(after(l, intents, evidence, n)) matches Ok(k)
            &&& k.dom().len() <= m.dom().len() + n
            &&& forall|id: [u8; 32]| #[trigger]
                m.dom().contains(id) ==> k.dom().contains(id) && asset_follows(m[id], k[id])
        }),
    decreases n,
{
    if n > 0 && reserved::apart() {
        let before = after(l, intents, evidence, (n - 1) as nat);
        law_sequences_keep_assets(l, m, intents, evidence, (n - 1) as nat);
        let k = listed(before)->Ok_0;
        law_retired_assets_stay_retired(before, k, intents[n - 1], evidence[n - 1]);
        let j = listed(after(l, intents, evidence, n))->Ok_0;
        assert forall|id: [u8; 32]| #[trigger] m.dom().contains(id) implies j.dom().contains(id)
            && asset_follows(m[id], j[id]) by {
            assert(k.dom().contains(id));
        }
    }
}

/// An asset that was removed stays removed, with everything else as it was listed,
/// over any sequence of intents.
pub proof fn law_removals_are_final(
    l: Ledger,
    m: Map<[u8; 32], AssetView>,
    id: [u8; 32],
    intents: Seq<Intent>,
    evidence: Seq<EvidenceView>,
    n: nat,
)
    requires
        listed(l) == Ok::<Map<[u8; 32], AssetView>, ExecutionError>(m),
        m.dom().contains(id),
        m.dom().len() + n < u32::MAX,
    ensures
        reserved::apart() ==> ({
            let removed = restatus_step(l, id, AssetStatus::Removed).ledger;
            &&& listed(after(removed, intents, evidence, n)) matches Ok(k)
            &&& k.dom().contains(id)
            &&& k[id] == (AssetView { status: AssetStatus::Removed, ..m[id] })
        }),
{
    let removed = restatus_step(l, id, AssetStatus::Removed).ledger;
    lemma_restatus_keeps(l, m, id, AssetStatus::Removed);
    law_sequences_keep_assets(removed, listed(removed)->Ok_0, intents, evidence, n);
}

/// Over any sequence of intents a claimed burn stays claimed, and the number of
/// claims never falls.
pub proof fn law_sequences_keep_claims(
    l: Ledger,
    s: Set<[u8; 32]>,
    intents: Seq<Intent>,
    evidence: Seq<EvidenceView>,
    n: nat,
)
    requires
        claimed(l) == Ok::<Set<[u8; 32]>, ExecutionError>(s),
        room_for::<NullifierTable>(unit_map(s), n),
    ensures
        reserved::apart() ==> ({
            &&& claimed(after(l, intents, evidence, n)) matches Ok(t)
            &&& s.subset_of(t)
            &&& s.len() <= t.len() <= s.len() + n
        }),
    decreases n,
{
    if n > 0 && reserved::apart() {
        let before = after(l, intents, evidence, (n - 1) as nat);
        lemma_room_left::<NullifierTable>(unit_map(s), unit_map(s), n);
        law_sequences_keep_claims(l, s, intents, evidence, (n - 1) as nat);
        let t = claimed(before)->Ok_0;
        assert(unit_map(s).dom() =~= s);
        assert(unit_map(t).dom() =~= t);
        lemma_room_left::<NullifierTable>(unit_map(s), unit_map(t), n);
        law_claims_are_permanent(before, t, intents[n - 1], evidence[n - 1]);
        law_claims_are_counted(before, t, intents[n - 1], evidence[n - 1]);
    }
}

} // verus!
