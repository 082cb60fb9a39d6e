//! Block execution.

use vstd::prelude::*;

use crate::apply::{applied, noted, EvidenceView, HostEvidence};
use crate::error::{ErrorView, ExecutionError};
use crate::intent::Intent;
use crate::ledger::{answer_of, Ledger};
use crate::state_root::root_of;
use crate::substrate::{InMemorySubstrate, Substrate};

verus! {

/// A linearized block of intents.
#[derive(Debug, Clone, PartialEq, Eq)]
pub struct Block {
    /// Consensus round of the block.
    pub round: u64,
    /// Intents in commit order.
    pub intents: Vec<Intent>,
}

/// What the execution of a block gave.
#[derive(Debug, PartialEq, Eq)]
pub struct ExecutionReport {
    /// Round of the block.
    pub round: u64,
    /// Answer to each intent, in commit order.
    pub results: Vec<Result<(), ExecutionError>>,
    /// State root after the block.
    pub state_root: [u8; 32],
}

/// The state after the first `n` intents, each applied with its evidence.
pub open spec fn after(
    l: Ledger,
    intents: Seq<Intent>,
    evidence: Seq<EvidenceView>,
    n: nat,
) -> Ledger
    decreases n,
{
    if n == 0 {
        l
    } else {
        applied(
            after(l, intents, evidence, (n - 1) as nat),
            intents[n - 1],
            evidence[n - 1],
        ).ledger
    }
}

/// The answer to intent `i`.
pub open spec fn answer_to(
    l: Ledger,
    intents: Seq<Intent>,
    evidence: Seq<EvidenceView>,
    i: int,
) -> Result<(), ErrorView> {
    applied(after(l, intents, evidence, i as nat), intents[i], evidence[i]).answer
}

/// What the evidence in `v` holds.
pub open spec fn evidence_views(v: Seq<HostEvidence>) -> Seq<EvidenceView> {
    Seq::new(v.len(), |i: int| v[i]@)
}

/// What the findings in a state say of each of `intents`.
pub open spec fn noted_all(l: Ledger, intents: Seq<Intent>) -> Seq<EvidenceView> {
    Seq::new(intents.len(), |i: int| noted(l, intents[i]))
}

/// Executes a block with what the host found out about each of its intents: the
/// round becomes the ambient height, and the intents are applied in order. An
/// intent that fails does not stop the block.
pub fn execute_block_with(
    substrate: &mut InMemorySubstrate,
    block: &Block,
    evidence: &Vec<HostEvidence>,
) -> (report: ExecutionReport)
    requires
        evidence@.len() == block.intents@.len(),
    ensures
        final(substrate)@ == after(
            (Ledger { height: block.round, ..old(substrate)@ }),
            block.intents@,
            evidence_views(evidence@),
            block.intents@.len(),
        ),
        report.round == block.round,
        report.results@.len() == block.intents@.len(),
        forall|i: int|
            0 <= i < block.intents@.len() ==> answer_of(#[trigger] report.results@[i])
                == answer_to(
                (Ledger { height: block.round, ..old(substrate)@ }),
                block.intents@,
                evidence_views(evidence@),
                i,
            ),
        report.state_root == root_of(final(substrate)@.balances, final(substrate)@.records),
{
    substrate.set_current_block_height(block.round);
    let ghost start = substrate@;
    let ghost known = evidence_views(evidence@);
    let mut results: Vec<Result<(), ExecutionError>> = Vec::new();
    let n: usize = block.intents.len();
    let mut i: usize = 0;
    while i < n
        invariant
            i <= n,
            n == block.intents@.len(),
            n == evidence@.len(),
            known == evidence_views(evidence@),
            substrate@ == after(start, block.intents@, known, i as nat),
            results@.len() == i,
            forall|j: int|
                0 <= j < i ==> answer_of(#[trigger] results@[j]) == answer_to(
                    start,
                    block.intents@,
                    known,
                    j,
                ),
        decreases n - i,
    {
        let r = substrate.apply_intent_with(&block.intents[i], &evidence[i]);
        results.push(r);
        i = i + 1;
    }
    let state_root: [u8; 32] = substrate.state_root();
    ExecutionReport { round: block.round, results, state_root }
}

/// Executes a block with what the substrate knows of its proofs.
pub fn execute_block(substrate: &mut InMemorySubstrate, block: &Block) -> (report: ExecutionReport)
    ensures
        final(substrate)@ == after(
            (Ledger { height: block.round, ..old(substrate)@ }),
            block.intents@,
            noted_all(old(substrate)@, block.intents@),
            block.intents@.len(),
        ),
        report.round == block.round,
        report.results@.len() == block.intents@.len(),
        forall|i: int|
            0 <= i < block.intents@.len() ==> answer_of(#[trigger] report.results@[i])
                == answer_to(
                (Ledger { height: block.round, ..old(substrate)@ }),
                block.intents@,
                noted_all(old(substrate)@, block.intents@),
                i,
            ),
        report.state_root == root_of(final(substrate)@.balances, final(substrate)@.records),
{
    let n: usize = block.intents.len();
    let mut evidence: Vec<HostEvidence> = Vec::new();
    let mut i: usize = 0;
    while i < n
        invariant
            i <= n,
            n == block.intents@.len(),
            *substrate == *old(substrate),
            evidence@.len() == i,
            forall|j: int|
                0 <= j < i ==> (#[trigger] evidence@[j])@ == noted(
                    old(substrate)@,
                    block.intents@[j],
                ),
        decreases n - i,
    {
        evidence.push(substrate.noted_evidence(&block.intents[i]));
        i = i + 1;
    }
    assert(evidence_views(evidence@) =~= noted_all(old(substrate)@, block.intents@));
    execute_block_with(substrate, block, &evidence)
}

/// Whether `states` are the states before, between and after `n` intents.
pub open spec fn spans<S>(states: Seq<S>, n: nat) -> bool {
    states.len() == n + 1
}

/// Whether `i` is the place of one of `n` intents.
pub open spec fn place_in(i: int, n: int) -> bool {
    0 <= i < n
}

fn apply_one<S: Substrate>(substrate: &mut S, intent: &Intent) -> (r: Result<(), ExecutionError>)
    ensures
        exists|s: &mut S| #[trigger]
            call_ensures(S::apply_intent, (s, intent), r) && *s == *old(substrate) && *final(s)
                == *final(substrate),
{
    substrate.apply_intent(intent)
}

/// Executes a block on any substrate, a boxed one included, as that substrate
/// applies intents: the round becomes the ambient height, the intents are applied
/// in order, and an intent that fails does not stop the block.
pub fn execute_block_on<S: Substrate>(substrate: &mut S, block: &Block) -> (report:
    ExecutionReport)
    ensures
        report.round == block.round,
        report.results@.len() == block.intents@.len(),
        exists|states: Seq<S>|
            {
                &&& #[trigger] spans(states, block.intents@.len())
                &&& exists|s: &mut S| #[trigger]
                    call_ensures(S::set_current_block_height, (s, block.round), ()) && *s
                        == *old(substrate) && *final(s) == states[0]
                &&& forall|i: int| #[trigger]
                    place_in(i, block.intents@.len() as int) ==> exists|s: &mut S| #[trigger]
                        call_ensures(
                            S::apply_intent,
                            (s, &block.intents@[i]),
                            report.results@[i],
                        ) && *s == states[i] && *final(s) == states[i + 1]
                &&& states.last() == *final(substrate)
            },
        call_ensures(S::state_root, (final(substrate),), report.state_root),
{
    substrate.set_current_block_height(block.round);
    let ghost mut states: Seq<S> = seq![*substrate];
    let mut results: Vec<Result<(), ExecutionError>> = Vec::new();
    let n: usize = block.intents.len();
    let mut i: usize = 0;
    while i < n
        invariant
            i <= n,
            n == block.intents@.len(),
            results@.len() == i,
            spans(states, i as nat),
            states.last() == *substrate,
            exists|s: &mut S| #[trigger]
                call_ensures(S::set_current_block_height, (s, block.round), ()) && *s
                    == *old(substrate) && *final(s) == states[0],
            forall|j: int| #[trigger]
                place_in(j, i as int) ==> exists|s: &mut S| #[trigger]
                    call_ensures(
                        S::apply_intent,
                        (s, &block.intents@[j]),
                        results@[j],
                    ) && *s == states[j] && *final(s) == states[j + 1],
        decreases n - i,
    {
        let ghost so_far = states;
        let ghost answered = results@;
        let ghost before = *substrate;
        let r = apply_one(substrate, &block.intents[i]);
        results.push(r);
        proof {
            states = states.push(*substrate);
            assert(states[i as int] == before && states[i + 1] == *substrate);
            assert forall|j: int| #[trigger] place_in(j, i + 1) implies exists|s: &mut S|
                #[trigger]
                call_ensures(S::apply_intent, (s, &block.intents@[j]), results@[j]) && *s
                    == states[j] && *final(s) == states[j + 1] by {
                if j < i {
                    assert(place_in(j, i as int));
                    assert(results@[j] == answered[j]);
                    let s = choose|s: &mut S| #[trigger]
                        call_ensures(S::apply_intent, (s, &block.intents@[j]), answered[j]) && *s
                            == so_far[j] && *final(s) == so_far[j + 1];
                    assert(call_ensures(S::apply_intent, (s, &block.intents@[j]), results@[j]));
                } else {
                    let s = choose|s: &mut S| #[trigger]
                        call_ensures(S::apply_intent, (s, &block.intents@[j]), r) && *s == before
                            && *final(s) == *substrate;
                    assert(call_ensures(S::apply_intent, (s, &block.intents@[j]), results@[j]));
                }
            }
        }
        i = i + 1;
    }
    let state_root: [u8; 32] = substrate.state_root();
    let ghost answers = results@;
    let report = ExecutionReport { round: block.round, results, state_root };
    proof {
        assert forall|j: int| #[trigger]
            place_in(j, block.intents@.len() as int) implies exists|s: &mut S| #[trigger]
            call_ensures(S::apply_intent, (s, &block.intents@[j]), report.results@[j]) && *s
                == states[j] && *final(s) == states[j + 1] by {
            let s = choose|s: &mut S| #[trigger]
                call_ensures(S::apply_intent, (s, &block.intents@[j]), answers[j]) && *s
                    == states[j] && *final(s) == states[j + 1];
            assert(place_in(j, i as int));
            assert(call_ensures(S::apply_intent, (s, &block.intents@[j]), report.results@[j]));
        }
    }
    report
}

} // verus!
