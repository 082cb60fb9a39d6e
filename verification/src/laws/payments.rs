//! What payments do to every account and to the supply.

use vstd::prelude::*;

use crate::error::ExecutionError;
use crate::ledger::{
    balance_of, credit_sum, credited, credited_one, drained, lemma_credited_error, lemma_supply_with_balance,
    lemma_with_balance, moved_or, no_zeros, supply, tipped, with_balance,
};
use crate::substrate::{Address, Balance};

verus! {

/// `v` where the accounts are the same, otherwise zero.
pub open spec fn at(x: Address, a: Address, v: int) -> int {
    if x == a {
        v
    } else {
        0
    }
}

/// What `credits` give to `x`.
pub open spec fn credit_to(credits: Seq<(Address, Balance)>, x: Address) -> int
    decreases credits.len(),
{
    if credits.len() == 0 {
        0
    } else {
        credit_to(credits.drop_last(), x) + at(x, credits.last().0, credits.last().1 as int)
    }
}

/// One credit gives its account its amount.
pub proof fn lemma_one(a: Address, v: Balance)
    ensures
        forall|x: Address| #[trigger] credit_to(seq![(a, v)], x) == at(x, a, v as int),
        credit_sum(seq![(a, v)]) == v,
{
    let s = seq![(a, v)];
    assert(s.drop_last() =~= Seq::empty());
    assert forall|x: Address| #[trigger] credit_to(s, x) == at(x, a, v as int) by {
        assert(credit_to(s.drop_last(), x) == 0);
    }
    assert(credit_sum(s.drop_last()) == 0);
}

/// A further credit adds its amount to its account.
pub proof fn lemma_push(s: Seq<(Address, Balance)>, a: Address, v: Balance)
    ensures
        forall|x: Address| #[trigger]
            credit_to(s.push((a, v)), x) == credit_to(s, x) + at(x, a, v as int),
        credit_sum(s.push((a, v))) == credit_sum(s) + v,
{
    assert(s.push((a, v)).drop_last() =~= s);
}

/// No credits give nothing.
pub proof fn lemma_still()
    ensures
        forall|x: Address| #[trigger] credit_to(Seq::<(Address, Balance)>::empty(), x) == 0,
        credit_sum(Seq::<(Address, Balance)>::empty()) == 0,
{
}

/// A payment takes the amount from the payer, gives it to the payee, and changes
/// no other account nor the supply. Paying oneself changes nothing.
pub proof fn law_payment_moves_the_amount(
    b: Map<Address, Balance>,
    from: Address,
    to: Address,
    amount: Balance,
    overflow: ExecutionError,
)
    ensures
        moved_or(b, from, to, amount, overflow) matches Ok(m) ==> {
            &&& forall|x: Address| #[trigger]
                balance_of(m, x) == balance_of(b, x) - at(x, from, amount as int) + at(
                    x,
                    to,
                    amount as int,
                )
            &&& no_zeros(b) ==> no_zeros(m)
            &&& b.dom().finite() ==> m.dom().finite() && supply(m) == supply(b)
        },
{
    if amount != 0 && balance_of(b, from) >= amount && from != to && balance_of(b, to) + amount
        <= Balance::MAX {
        let less = (balance_of(b, from) - amount) as Balance;
        let more = (balance_of(b, to) + amount) as Balance;
        let half = with_balance(b, from, less);
        lemma_with_balance(b, from, less);
        lemma_with_balance(half, to, more);
        if b.dom().finite() {
            lemma_supply_with_balance(b, from, less);
            lemma_supply_with_balance(half, to, more);
        }
    }
}

/// Credits give every account what they list for it, and the supply grows by
/// their sum.
pub proof fn law_credits_add_up(b: Map<Address, Balance>, credits: Seq<(Address, Balance)>)
    ensures
        credited(b, credits) matches Ok(m) ==> {
            &&& forall|x: Address| #[trigger]
                balance_of(m, x) == balance_of(b, x) + credit_to(credits, x)
            &&& no_zeros(b) ==> no_zeros(m)
            &&& b.dom().finite() ==> m.dom().finite() && supply(m) == supply(b) + credit_sum(
                credits,
            )
        },
    decreases credits.len(),
{
    if credits.len() > 0 {
        law_credits_add_up(b, credits.drop_last());
        if let Ok(half) = credited(b, credits.drop_last()) {
            let (to, amount) = credits.last();
            if amount != 0 && balance_of(half, to) + amount <= Balance::MAX {
                let more = (balance_of(half, to) + amount) as Balance;
                lemma_with_balance(half, to, more);
                if b.dom().finite() {
                    lemma_supply_with_balance(half, to, more);
                }
            }
        }
    }
}

proof fn lemma_no_credit(credits: Seq<(Address, Balance)>, x: Address)
    requires
        credit_sum(credits) == 0,
    ensures
        credit_to(credits, x) == 0,
    decreases credits.len(),
{
    if credits.len() > 0 {
        lemma_no_credit(credits.drop_last(), x);
    }
}

/// A drain takes the sum of its credits from one account, gives every account
/// what is listed for it, and leaves the supply as it is.
pub proof fn law_drain_pays_the_credits(
    b: Map<Address, Balance>,
    from: Address,
    credits: Seq<(Address, Balance)>,
)
    ensures
        drained(b, from, credits) matches Ok(m) ==> {
            &&& forall|x: Address| #[trigger]
                balance_of(m, x) == balance_of(b, x) - at(x, from, credit_sum(credits) as int)
                    + credit_to(credits, x)
            &&& no_zeros(b) ==> no_zeros(m)
            &&& b.dom().finite() ==> m.dom().finite() && supply(m) == supply(b)
        },
{
    let total = credit_sum(credits);
    if total == 0 {
        assert forall|x: Address| credit_to(credits, x) == 0 by {
            lemma_no_credit(credits, x);
        }
    } else if total <= Balance::MAX && balance_of(b, from) >= total {
        let less = (balance_of(b, from) - total) as Balance;
        lemma_with_balance(b, from, less);
        if b.dom().finite() {
            lemma_supply_with_balance(b, from, less);
        }
        law_credits_add_up(with_balance(b, from, less), credits);
    }
}

/// What a tip pays: no more than the payer holds.
pub open spec fn tip_paid(b: Map<Address, Balance>, payer: Address, tip: Balance) -> Balance {
    if tip < balance_of(b, payer) {
        tip
    } else {
        balance_of(b, payer)
    }
}

/// Whether `from` can pay `amount` to `to`: it holds the amount, and the payee can
/// hold it too. Nothing can always be paid.
pub open spec fn can_pay(
    b: Map<Address, Balance>,
    from: Address,
    to: Address,
    amount: Balance,
) -> bool {
    amount == 0 || balance_of(b, from) >= amount && (from == to || balance_of(b, to) + amount
        <= Balance::MAX)
}

/// A payment succeeds exactly where the payer holds the amount and the payee can
/// hold it too. Otherwise it is refused for what the payer lacks, and failing that
/// for what the payee cannot hold.
pub proof fn law_payments_need_funds(
    b: Map<Address, Balance>,
    from: Address,
    to: Address,
    amount: Balance,
    overflow: ExecutionError,
)
    ensures
        moved_or(b, from, to, amount, overflow) is Ok <==> can_pay(b, from, to, amount),
        !can_pay(b, from, to, amount) ==> moved_or(b, from, to, amount, overflow) == Err::<
            Map<Address, Balance>,
            ExecutionError,
        >(
            if balance_of(b, from) < amount {
                ExecutionError::InsufficientBalance {
                    from,
                    have: balance_of(b, from),
                    need: amount,
                }
            } else {
                overflow
            },
        ),
{
}

/// Whether every account can hold what `credits` give it on top of its balance.
pub open spec fn can_hold(b: Map<Address, Balance>, credits: Seq<(Address, Balance)>) -> bool {
    forall|x: Address| balance_of(b, x) + #[trigger] credit_to(credits, x) <= Balance::MAX
}

/// Credits succeed exactly where every account can hold all that they give it.
pub proof fn law_credits_need_room(b: Map<Address, Balance>, credits: Seq<(Address, Balance)>)
    ensures
        credited(b, credits) is Ok <==> can_hold(b, credits),
    decreases credits.len(),
{
    if credits.len() == 0 {
        assert forall|x: Address| balance_of(b, x) + #[trigger] credit_to(credits, x)
            <= Balance::MAX by {}
    } else {
        let init = credits.drop_last();
        let (to, amount) = credits.last();
        law_credits_need_room(b, init);
        law_credits_add_up(b, init);
        if can_hold(b, credits) {
            assert forall|x: Address| balance_of(b, x) + #[trigger] credit_to(init, x)
                <= Balance::MAX by {
                assert(credit_to(credits, x) >= credit_to(init, x));
            }
            assert(balance_of(b, to) + credit_to(credits, to) <= Balance::MAX);
        }
        if credited(b, credits) is Ok {
            let half = credited(b, init)->Ok_0;
            assert forall|x: Address| balance_of(b, x) + #[trigger] credit_to(credits, x)
                <= Balance::MAX by {
                assert(balance_of(half, x) == balance_of(b, x) + credit_to(init, x));
            }
        }
    }
}

/// Where credits fail, the error names the account of the first credit that does
/// not fit.
pub proof fn law_credits_fail_at_the_first_that_does_not_fit(
    b: Map<Address, Balance>,
    credits: Seq<(Address, Balance)>,
    i: int,
)
    requires
        0 <= i < credits.len(),
        can_hold(b, credits.take(i)),
        !can_hold(b, credits.take(i + 1)),
    ensures
        credited(b, credits) == Err::<Map<Address, Balance>, ExecutionError>(
            ExecutionError::DistributionOverflow { to: credits[i].0 },
        ),
{
    let next = credits.take(i + 1);
    law_credits_need_room(b, credits.take(i));
    law_credits_need_room(b, next);
    assert(next.drop_last() =~= credits.take(i));
    assert(next.last() == credits[i]);
    lemma_credited_error(
        b,
        credits,
        i + 1,
        ExecutionError::DistributionOverflow { to: credits[i].0 },
    );
}

/// A drain succeeds exactly where the payer holds the sum of the credits and
/// every account can hold what it is then left with. A drain of nothing always
/// succeeds.
pub proof fn law_drains_need_funds(
    b: Map<Address, Balance>,
    from: Address,
    credits: Seq<(Address, Balance)>,
)
    ensures
        ({
            let sum = credit_sum(credits);
            &&& drained(b, from, credits) is Ok <==> sum == 0 || balance_of(b, from) >= sum && (
            forall|x: Address|
                balance_of(b, x) - at(x, from, sum as int) + #[trigger] credit_to(credits, x)
                    <= Balance::MAX)
            &&& sum > Balance::MAX ==> drained(b, from, credits) == Err::<
                Map<Address, Balance>,
                ExecutionError,
            >(ExecutionError::DistributionOverflow { to: from })
            &&& balance_of(b, from) < sum <= Balance::MAX ==> drained(b, from, credits) == Err::<
                Map<Address, Balance>,
                ExecutionError,
            >(
                ExecutionError::InsufficientBalance {
                    from,
                    have: balance_of(b, from),
                    need: sum as Balance,
                },
            )
        }),
{
    let sum = credit_sum(credits);
    if 0 < sum <= balance_of(b, from) {
        let less = with_balance(b, from, (balance_of(b, from) - sum) as Balance);
        lemma_with_balance(b, from, (balance_of(b, from) - sum) as Balance);
        law_credits_need_room(less, credits);
        assert forall|x: Address| balance_of(less, x) + #[trigger] credit_to(credits, x)
            == balance_of(b, x) - at(x, from, sum as int) + credit_to(credits, x) by {}
        if can_hold(less, credits) {
            assert forall|x: Address|
                balance_of(b, x) - at(x, from, sum as int) + #[trigger] credit_to(credits, x)
                    <= Balance::MAX by {
                assert(balance_of(less, x) + credit_to(credits, x) <= Balance::MAX);
            }
        } else {
            let x = choose|x: Address|
                balance_of(less, x) + #[trigger] credit_to(credits, x) > Balance::MAX;
            assert(balance_of(b, x) - at(x, from, sum as int) + credit_to(credits, x)
                > Balance::MAX);
        }
    }
}

/// A tip pays what is asked for as far as the payer's balance goes, and succeeds
/// exactly where the payee can hold that.
pub proof fn law_tips_pay_what_is_there(
    b: Map<Address, Balance>,
    payer: Address,
    payee: Address,
    tip: Balance,
)
    ensures
        ({
            let paid = if tip <= balance_of(b, payer) {
                tip
            } else {
                balance_of(b, payer)
            };
            &&& tipped(b, payer, payee, tip) is Ok <==> paid == 0 || payer == payee || balance_of(
                b,
                payee,
            ) + paid <= Balance::MAX
            &&& tipped(b, payer, payee, tip) matches Ok(m) ==> forall|x: Address| #[trigger]
                balance_of(m, x) == balance_of(b, x) - at(x, payer, paid as int) + at(
                    x,
                    payee,
                    paid as int,
                )
            &&& tipped(b, payer, payee, tip) matches Err(e) ==> e
                == (ExecutionError::DistributionOverflow { to: payee })
        }),
{
    let paid = if tip <= balance_of(b, payer) {
        tip
    } else {
        balance_of(b, payer)
    };
    let e = ExecutionError::DistributionOverflow { to: payee };
    law_payment_moves_the_amount(b, payer, payee, paid, e);
}

/// The sum of credits is what they give to all accounts: a further credit adds
/// its amount to the sum and to its account alone.
pub proof fn law_credits_are_summed(credits: Seq<(Address, Balance)>, to: Address, amount: Balance)
    ensures
        credit_sum(credits.push((to, amount))) == credit_sum(credits) + amount,
        forall|x: Address| #[trigger]
            credit_to(credits.push((to, amount)), x) == credit_to(credits, x) + (if x == to {
                amount as int
            } else {
                0
            }),
        credit_sum(Seq::<(Address, Balance)>::empty()) == 0,
{
    lemma_push(credits, to, amount);
    lemma_still();
}

/// One credit succeeds exactly where the account can hold it, and adds its amount to
/// that account alone.
pub proof fn law_one_credit_needs_room(b: Map<Address, Balance>, to: Address, amount: Balance)
    ensures
        credited_one(b, to, amount) is Ok <==> balance_of(b, to) + amount <= Balance::MAX,
        credited_one(b, to, amount) matches Ok(m) ==> forall|x: Address| #[trigger]
            balance_of(m, x) == balance_of(b, x) + (if x == to {
                amount as int
            } else {
                0
            }),
        credited_one(b, to, amount) matches Err(e) ==> e == (ExecutionError::DistributionOverflow {
            to,
        }),
{
}

} // verus!
