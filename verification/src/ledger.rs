//! The mathematical model of the substrate's state.

use vstd::prelude::*;

use crate::error::{ErrorView, ExecutionError};
use crate::findings::ProofId;
use crate::substrate::{Address, Balance};

verus! {

/// The state of the substrate.
#[verifier::ext_equal]
pub struct Ledger {
    /// Balances that are not zero.
    pub balances: Map<Address, Balance>,
    /// Byte records that are not empty.
    pub records: Map<Address, Seq<u8>>,
    /// Height of the block whose intents are applied.
    pub height: u64,
    /// What the pairing check said of the proofs of L2 batches.
    pub pairings: Map<ProofId, Result<(), Seq<char>>>,
}

/// The state that holds `balances` and nothing else.
pub open spec fn seeded_with(balances: Map<Address, Balance>) -> Ledger {
    Ledger { balances, records: Map::empty(), height: 0, pairings: Map::empty() }
}

/// The balance of `a`, zero where none is held.
pub open spec fn balance_of(b: Map<Address, Balance>, a: Address) -> Balance {
    if b.dom().contains(a) {
        b[a]
    } else {
        0
    }
}

/// The balances with `a` at `v`.
pub open spec fn with_balance(b: Map<Address, Balance>, a: Address, v: Balance) -> Map<
    Address,
    Balance,
> {
    if v == 0 {
        b.remove(a)
    } else {
        b.insert(a, v)
    }
}

/// Whether only balances that are not zero are held.
pub open spec fn no_zeros(b: Map<Address, Balance>) -> bool {
    forall|a: Address| #[trigger] b.dom().contains(a) ==> b[a] != 0
}

/// Whether only records that are not empty are held.
pub open spec fn no_empties(r: Map<Address, Seq<u8>>) -> bool {
    forall|a: Address| #[trigger] r.dom().contains(a) ==> r[a].len() != 0
}

impl Ledger {
    /// Whether the state holds no zero balance and no empty record.
    pub open spec fn wf(self) -> bool {
        &&& no_zeros(self.balances)
        &&& no_empties(self.records)
        &&& self.balances.dom().finite()
        &&& self.records.dom().finite()
    }

    /// The balance of `a`.
    pub open spec fn balance(self, a: Address) -> Balance {
        balance_of(self.balances, a)
    }

    /// The record at `a`, empty where there is none.
    pub open spec fn record(self, a: Address) -> Seq<u8> {
        if self.records.dom().contains(a) {
            self.records[a]
        } else {
            Seq::empty()
        }
    }

    /// The state with other balances.
    pub open spec fn with_balances(self, balances: Map<Address, Balance>) -> Ledger {
        Ledger { balances, ..self }
    }

    /// The state with `bytes` as the record at `a`.
    pub open spec fn with_record(self, a: Address, bytes: Seq<u8>) -> Ledger {
        Ledger {
            records: if bytes.len() == 0 {
                self.records.remove(a)
            } else {
                self.records.insert(a, bytes)
            },
            ..self
        }
    }
}

/// What an operation leaves behind and answers.
#[verifier::ext_equal]
pub struct Step {
    /// The state afterwards.
    pub ledger: Ledger,
    /// The answer.
    pub answer: Result<(), ErrorView>,
}

/// Success, leaving `l`.
pub open spec fn done(l: Ledger) -> Step {
    Step { ledger: l, answer: Ok(()) }
}

/// Failure with `e`, leaving `l`.
pub open spec fn refused(l: Ledger, e: ExecutionError) -> Step {
    Step { ledger: l, answer: Err(e@) }
}

/// Success with other balances, or failure with nothing changed.
pub open spec fn settled(l: Ledger, r: Result<Map<Address, Balance>, ExecutionError>) -> Step {
    match r {
        Ok(b) => done(l.with_balances(b)),
        Err(e) => refused(l, e),
    }
}

/// What a result answers.
pub open spec fn answer_of(r: Result<(), ExecutionError>) -> Result<(), ErrorView> {
    match r {
        Ok(_) => Ok(()),
        Err(e) => Err(e@),
    }
}

/// Whether an operation left `l` and answered `r` as `s` says.
pub open spec fn agrees(s: Step, l: Ledger, r: Result<(), ExecutionError>) -> bool {
    s.ledger == l && s.answer == answer_of(r)
}

/// The balances after `amount` went from `from` to `to`, with `overflow` as the
/// error where the receiver cannot hold it.
pub open spec fn moved_or(
    b: Map<Address, Balance>,
    from: Address,
    to: Address,
    amount: Balance,
    overflow: ExecutionError,
) -> Result<Map<Address, Balance>, ExecutionError> {
    if amount == 0 {
        Ok(b)
    } else if balance_of(b, from) < amount {
        Err(
            ExecutionError::InsufficientBalance { from, have: balance_of(b, from), need: amount },
        )
    } else if from == to {
        Ok(b)
    } else if balance_of(b, to) + amount > Balance::MAX {
        Err(overflow)
    } else {
        Ok(
            with_balance(
                with_balance(b, from, (balance_of(b, from) - amount) as Balance),
                to,
                (balance_of(b, to) + amount) as Balance,
            ),
        )
    }
}

/// The balances after a protocol transfer.
pub open spec fn moved(
    b: Map<Address, Balance>,
    from: Address,
    to: Address,
    amount: Balance,
) -> Result<Map<Address, Balance>, ExecutionError> {
    moved_or(b, from, to, amount, ExecutionError::DistributionOverflow { to })
}

/// The balances after one credit.
pub open spec fn credited_one(b: Map<Address, Balance>, to: Address, amount: Balance) -> Result<
    Map<Address, Balance>,
    ExecutionError,
> {
    if amount == 0 {
        Ok(b)
    } else if balance_of(b, to) + amount > Balance::MAX {
        Err(ExecutionError::DistributionOverflow { to })
    } else {
        Ok(with_balance(b, to, (balance_of(b, to) + amount) as Balance))
    }
}

/// The balances after all credits, one after the other. The first credit that
/// does not fit is the error.
pub open spec fn credited(b: Map<Address, Balance>, credits: Seq<(Address, Balance)>) -> Result<
    Map<Address, Balance>,
    ExecutionError,
>
    decreases credits.len(),
{
    if credits.len() == 0 {
        Ok(b)
    } else {
        match credited(b, credits.drop_last()) {
            Err(e) => Err(e),
            Ok(m) => credited_one(m, credits.last().0, credits.last().1),
        }
    }
}

/// The sum of the credited amounts.
pub open spec fn credit_sum(credits: Seq<(Address, Balance)>) -> nat
    decreases credits.len(),
{
    if credits.len() == 0 {
        0
    } else {
        credit_sum(credits.drop_last()) + credits.last().1 as nat
    }
}

/// The balances after `from` paid all credits.
pub open spec fn drained(
    b: Map<Address, Balance>,
    from: Address,
    credits: Seq<(Address, Balance)>,
) -> Result<Map<Address, Balance>, ExecutionError> {
    let total = credit_sum(credits);
    if total > Balance::MAX {
        Err(ExecutionError::DistributionOverflow { to: from })
    } else if total == 0 {
        Ok(b)
    } else if balance_of(b, from) < total {
        Err(
            ExecutionError::InsufficientBalance {
                from,
                have: balance_of(b, from),
                need: total as Balance,
            },
        )
    } else {
        credited(with_balance(b, from, (balance_of(b, from) - total) as Balance), credits)
    }
}

/// The balances after `from` paid all credits and `payer` then tipped `payee` as
/// far as its balance goes.
pub open spec fn drained_and_tipped(
    b: Map<Address, Balance>,
    from: Address,
    credits: Seq<(Address, Balance)>,
    payer: Address,
    payee: Address,
    tip: Balance,
) -> Result<Map<Address, Balance>, ExecutionError> {
    match drained(b, from, credits) {
        Err(e) => Err(e),
        Ok(m) => tipped(m, payer, payee, tip),
    }
}

/// The balances after `payer` tipped `payee` as far as its balance goes.
pub open spec fn tipped(
    b: Map<Address, Balance>,
    payer: Address,
    payee: Address,
    tip: Balance,
) -> Result<Map<Address, Balance>, ExecutionError> {
    let paid = if tip < balance_of(b, payer) {
        tip
    } else {
        balance_of(b, payer)
    };
    moved(b, payer, payee, paid)
}

/// Balances without zeros are determined by what every account holds.
pub proof fn lemma_same_balances(a: Map<Address, Balance>, b: Map<Address, Balance>)
    requires
        no_zeros(a),
        no_zeros(b),
        forall|x: Address| #[trigger] balance_of(a, x) == balance_of(b, x),
    ensures
        a == b,
{
    assert forall|x: Address| a.dom().contains(x) <==> b.dom().contains(x) by {
        assert(balance_of(a, x) == balance_of(b, x));
    }
    assert forall|x: Address| #[trigger] a.dom().contains(x) implies a[x] == b[x] by {
        assert(balance_of(a, x) == balance_of(b, x));
    }
    assert(a =~= b);
}

/// Setting a balance changes that balance alone and keeps zeros out.
pub proof fn lemma_with_balance(b: Map<Address, Balance>, a: Address, v: Balance)
    ensures
        forall|x: Address| #[trigger]
            balance_of(with_balance(b, a, v), x) == (if x == a {
                v
            } else {
                balance_of(b, x)
            }),
        no_zeros(b) ==> no_zeros(with_balance(b, a, v)),
        b.dom().finite() ==> with_balance(b, a, v).dom().finite(),
{
}

/// Credits keep zeros out.
pub proof fn lemma_credited_no_zeros(b: Map<Address, Balance>, credits: Seq<(Address, Balance)>)
    requires
        no_zeros(b),
    ensures
        credited(b, credits) matches Ok(m) ==> no_zeros(m),
    decreases credits.len(),
{
    if credits.len() > 0 {
        lemma_credited_no_zeros(b, credits.drop_last());
        if let Ok(m) = credited(b, credits.drop_last()) {
            let (to, amount) = credits.last();
            if balance_of(m, to) + amount <= Balance::MAX {
                lemma_with_balance(m, to, (balance_of(m, to) + amount) as Balance);
            }
        }
    }
}

/// A credit that does not fit is the error of all the credits.
pub proof fn lemma_credited_error(
    b: Map<Address, Balance>,
    credits: Seq<(Address, Balance)>,
    i: int,
    e: ExecutionError,
)
    requires
        0 <= i <= credits.len(),
        credited(b, credits.take(i)) == Err::<Map<Address, Balance>, ExecutionError>(e),
    ensures
        credited(b, credits) == Err::<Map<Address, Balance>, ExecutionError>(e),
    decreases credits.len() - i,
{
    if i < credits.len() {
        assert(credits.take(i + 1).drop_last() =~= credits.take(i));
        lemma_credited_error(b, credits, i + 1, e);
    } else {
        assert(credits.take(i) =~= credits);
    }
}

/// The sum over the first credits is at most the sum over all of them.
pub proof fn lemma_credit_sum_prefix(credits: Seq<(Address, Balance)>, i: int)
    requires
        0 <= i <= credits.len(),
    ensures
        credit_sum(credits.take(i)) <= credit_sum(credits),
    decreases credits.len() - i,
{
    if i < credits.len() {
        assert(credits.take(i + 1).drop_last() =~= credits.take(i));
        lemma_credit_sum_prefix(credits, i + 1);
    } else {
        assert(credits.take(i) =~= credits);
    }
}

/// The sum of all balances.
pub open spec fn supply(b: Map<Address, Balance>) -> nat
    decreases b.dom().len(),
    when b.dom().finite()
{
    if b.dom().len() == 0 {
        0
    } else {
        let a = b.dom().choose();
        b[a] as nat + supply(b.remove(a))
    }
}

/// Any account can be counted first.
pub proof fn lemma_supply_remove(b: Map<Address, Balance>, a: Address)
    requires
        b.dom().finite(),
    ensures
        supply(b) == balance_of(b, a) as nat + supply(b.remove(a)),
    decreases b.dom().len(),
{
    if b.dom().contains(a) {
        let c = b.dom().choose();
        if c != a {
            lemma_supply_remove(b.remove(c), a);
            lemma_supply_remove(b.remove(a), c);
            assert(b.remove(c).remove(a) =~= b.remove(a).remove(c));
        }
    } else {
        assert(b.remove(a) =~= b);
    }
}

/// Setting a balance changes the supply by the difference.
pub proof fn lemma_supply_with_balance(b: Map<Address, Balance>, a: Address, v: Balance)
    requires
        b.dom().finite(),
    ensures
        supply(with_balance(b, a, v)) + balance_of(b, a) == supply(b) + v,
{
    lemma_supply_remove(b, a);
    lemma_supply_remove(with_balance(b, a, v), a);
    assert(with_balance(b, a, v).remove(a) =~= b.remove(a));
}

} // verus!
