//! Block execution as a sequence of steps.

use vstd::prelude::*;

use crate::apply::{applied, noted, EvidenceView};
use crate::block::{after, answer_to, noted_all, place_in, spans};
use crate::error::ExecutionError;
use crate::findings::{findings_map, PairingFinding, ProofId};
use crate::intent::Intent;
use crate::laws::conduct::law_intents_are_confined;
use crate::laws::money::{law_states_stay_canonical, law_supply_is_conserved, new_money};
use crate::ledger::{answer_of, supply, Ledger};
use crate::substrate::{InMemorySubstrate, Substrate};

verus! {

/// The state after some intents depends on those intents and their evidence
/// alone: what comes later in the sequence does not matter.
pub proof fn law_prefixes_decide(
    l: Ledger,
    a: Seq<Intent>,
    ea: Seq<EvidenceView>,
    b: Seq<Intent>,
    eb: Seq<EvidenceView>,
    n: nat,
)
    requires
        n <= a.len(),
        n <= b.len(),
        forall|i: int| 0 <= i < n ==> #[trigger] a[i] == b[i],
        forall|i: int| 0 <= i < n ==> #[trigger] ea[i] == eb[i],
    ensures
        after(l, a, ea, n) == after(l, b, eb, n),
    decreases n,
{
    if n > 0 {
        law_prefixes_decide(l, a, ea, b, eb, (n - 1) as nat);
        assert(a[n - 1] == b[n - 1]);
        assert(ea[n - 1] == eb[n - 1]);
    }
}

/// Two sequences of intents one after the other leave what both leave as one.
pub proof fn law_sequences_compose(
    l: Ledger,
    a: Seq<Intent>,
    ea: Seq<EvidenceView>,
    b: Seq<Intent>,
    eb: Seq<EvidenceView>,
    n: nat,
)
    requires
        ea.len() == a.len(),
        n <= b.len(),
        n <= eb.len(),
    ensures
        after(l, a + b, ea + eb, a.len() + n) == after(after(l, a, ea, a.len()), b, eb, n),
    decreases n,
{
    if n == 0 {
        law_prefixes_decide(l, a + b, ea + eb, a, ea, a.len());
    } else {
        law_sequences_compose(l, a, ea, b, eb, (n - 1) as nat);
        assert((a + b)[a.len() + n - 1] == b[n - 1]);
        assert((ea + eb)[a.len() + n - 1] == eb[n - 1]);
    }
}

/// A sequence of intents keeps the height, keeps the state free of zero balances
/// and empty records, and keeps the supply unless it brings in new money.
pub proof fn law_sequences_conserve(
    l: Ledger,
    intents: Seq<Intent>,
    evidence: Seq<EvidenceView>,
    n: nat,
)
    requires
        l.wf(),
        n <= intents.len(),
    ensures
        after(l, intents, evidence, n).wf(),
        after(l, intents, evidence, n).height == l.height,
        (forall|i: int| 0 <= i < n ==> new_money(#[trigger] intents[i]) == 0) ==> supply(
            after(l, intents, evidence, n).balances,
        ) == supply(l.balances),
    decreases n,
{
    if n > 0 {
        let m = (n - 1) as nat;
        law_sequences_conserve(l, intents, evidence, m);
        let l2 = after(l, intents, evidence, m);
        law_states_stay_canonical(l2, intents[n - 1], evidence[n - 1]);
        law_supply_is_conserved(l2, intents[n - 1], evidence[n - 1]);
        law_intents_are_confined(l2, intents[n - 1], evidence[n - 1]);
    }
}

/// On the substrate in memory the steps of an execution are the steps of the model:
/// whatever states it leads through, the last one is what the intents leave with the
/// findings of the first, and the answers are those of the model.
pub proof fn law_any_execution_follows_the_model(
    states: Seq<InMemorySubstrate>,
    intents: Seq<Intent>,
    results: Seq<Result<(), ExecutionError>>,
    n: nat,
)
    requires
        n <= intents.len(),
        n < states.len(),
        n <= results.len(),
        forall|i: int| #[trigger]
            place_in(i, n as int) ==> exists|s: &mut InMemorySubstrate| #[trigger]
                call_ensures(
                    InMemorySubstrate::apply_intent,
                    (s, &intents[i]),
                    results[i],
                ) && *s == states[i] && *final(s) == states[i + 1],
    ensures
        states[n as int]@.pairings == states[0]@.pairings,
        states[n as int]@ == after(states[0]@, intents, noted_all(states[0]@, intents), n),
        forall|i: int|
            0 <= i < n ==> answer_of(#[trigger] results[i]) == answer_to(
                states[0]@,
                intents,
                noted_all(states[0]@, intents),
                i,
            ),
    decreases n,
{
    if n > 0 {
        let m = (n - 1) as nat;
        assert forall|i: int| #[trigger] place_in(i, m as int) implies exists|
            s: &mut InMemorySubstrate,
        | #[trigger]
            call_ensures(InMemorySubstrate::apply_intent, (s, &intents[i]), results[i]) && *s
                == states[i] && *final(s) == states[i + 1] by {
            assert(place_in(i, n as int));
        }
        law_any_execution_follows_the_model(states, intents, results, m);
        assert(place_in(m as int, n as int));
        law_intents_are_confined(
            states[m as int]@,
            intents[m as int],
            noted(states[m as int]@, intents[m as int]),
        );
    }
}

/// Every intent of a sequence is applied to what the ones before it left, whatever
/// those were answered.
pub proof fn law_every_intent_is_applied(
    l: Ledger,
    intents: Seq<Intent>,
    evidence: Seq<EvidenceView>,
    i: int,
)
    requires
        0 <= i < intents.len(),
    ensures
        ({
            let before = after(l, intents, evidence, i as nat);
            let s = applied(before, intents[i], evidence[i]);
            &&& after(l, intents, evidence, (i + 1) as nat) == s.ledger
            &&& answer_to(l, intents, evidence, i) == s.answer
            &&& after(l, intents, evidence, 0) == l
        }),
{
}

/// What is known of an intent is what the pairing check said of its own proof, where
/// it is a commit and was checked. Nothing else counts as proved.
pub proof fn law_evidence_is_what_was_found(l: Ledger, intent: Intent)
    ensures
        !noted(l, intent).burn_included,
        noted(l, intent).pairing is Ok <==> (intent matches Intent::CommitL2StateRoot {
            proof_bytes,
            public_inputs,
            vk_hash,
            ..
        } && ({
            let p = ProofId {
                proof_bytes: proof_bytes@,
                public_inputs: public_inputs@,
                vk_hash,
            };
            l.pairings.dom().contains(p) && l.pairings[p] is Ok
        })),
{
}

/// A finding counts until a later one on the same proof replaces it; findings on
/// other proofs stay.
pub proof fn law_later_findings_replace_earlier_ones(
    v: Seq<PairingFinding>,
    f: PairingFinding,
    p: ProofId,
)
    ensures
        ({
            let m = findings_map(v.push(f));
            let s = ProofId {
                proof_bytes: f.proof_bytes@,
                public_inputs: f.public_inputs@,
                vk_hash: f.vk_hash,
            };
            &&& m.dom().contains(s)
            &&& m[s] is Ok <==> f.verdict is Ok
            &&& p != s ==> m.dom().contains(p) == findings_map(v).dom().contains(p)
            &&& p != s && m.dom().contains(p) ==> m[p] == findings_map(v)[p]
            &&& findings_map(Seq::empty()).dom().len() == 0
        }),
{
    assert(v.push(f).drop_last() =~= v);
}

/// The evidence of a block is what was found of each of its intents when the block
/// began; states and places run over all of its intents.
pub proof fn law_blocks_cover_all_intents<S>(
    l: Ledger,
    intents: Seq<Intent>,
    states: Seq<S>,
    n: nat,
    i: int,
)
    ensures
        noted_all(l, intents).len() == intents.len(),
        0 <= i < intents.len() ==> noted_all(l, intents)[i] == noted(l, intents[i]),
        spans(states, n) <==> states.len() == n + 1,
        place_in(i, n as int) <==> 0 <= i < n,
{
}

} // verus!
