//! The execution substrate.
//!
//! Two maps make up the state: balances by address, and byte records by address.
//! Zero balances and empty records are absent. The ambient block height is kept
//! beside them and is no part of the state root.

use vstd::prelude::*;

use crate::apply::{applied, noted};
use crate::bytes::copy_bytes;
use crate::error::ExecutionError;
use crate::findings::{copy_findings, find, finding_on, findings_map, PairingFinding, ProofId};
use crate::intent::Intent;
use crate::l2_proof::verdict_view;
use crate::l2_state::{self, L2Registry, L2View};
use crate::ledger::{
    agrees, balance_of, credit_sum, credited, credited_one, drained, drained_and_tipped,
    lemma_credit_sum_prefix, lemma_credited_error, lemma_credited_no_zeros, lemma_same_balances,
    lemma_supply_remove, lemma_with_balance, moved, moved_or, no_zeros, seeded_with, supply,
    with_balance, Ledger,
};
use crate::ordered::{
    ascending, lemma_rows_map_dom, lemma_rows_map_get, lemma_view_rows, row_views, rows_map,
    sorted_rows, value_views, OrderedKey, OrderedMap,
};
use crate::reserved;
use crate::rollup::l2_or_empty;
use crate::state_root::{compute_root, root_of};

verus! {

/// 20-byte account address.
pub type Address = [u8; 20];

/// Account balance in base units.
pub type Balance = u128;

/// Balances and byte records in memory.
#[derive(Debug, PartialEq, Eq)]
pub struct InMemorySubstrate {
    balances: OrderedMap<Address, Balance>,
    bytes_state: OrderedMap<Address, Vec<u8>>,
    current_block_height: u64,
    pairings: Vec<PairingFinding>,
}

impl View for InMemorySubstrate {
    type V = Ledger;

    closed spec fn view(&self) -> Ledger {
        Ledger {
            balances: self.balances@,
            records: value_views(self.bytes_state@),
            height: self.current_block_height,
            pairings: findings_map(self.pairings@),
        }
    }
}

/// The balances that `entries` seed: zero amounts are left out, and a later
/// entry replaces an earlier one.
pub open spec fn seeded(entries: Seq<(Address, Balance)>) -> Map<Address, Balance>
    decreases entries.len(),
{
    if entries.len() == 0 {
        Map::empty()
    } else {
        let (a, v) = entries.last();
        let init = seeded(entries.drop_last());
        if v > 0 {
            init.insert(a, v)
        } else {
            init
        }
    }
}

/// The balance of `a` once `staged` is written over `b`.
spec fn staged_balance(
    b: Map<Address, Balance>,
    staged: Map<Address, Balance>,
    a: Address,
) -> Balance {
    if staged.dom().contains(a) {
        staged[a]
    } else {
        balance_of(b, a)
    }
}

/// A row adds its balance to the supply of the rows before it.
proof fn lemma_supply_row(rows: Seq<(Address, Balance)>, i: int)
    requires
        ascending(rows),
        0 <= i < rows.len(),
    ensures
        supply(rows_map(rows.take(i + 1))) == supply(rows_map(rows.take(i))) + rows[i].1,
{
    let before = rows_map(rows.take(i));
    let (a, v) = rows[i];
    assert(rows.take(i + 1).drop_last() =~= rows.take(i));
    lemma_rows_map_dom(rows.take(i));
    lemma_rows_map_dom(rows.take(i + 1));
    assert(!before.dom().contains(a)) by {
        if before.dom().contains(a) {
            let j = choose|j: int|
                0 <= j < rows.take(i).len() && (#[trigger] rows.take(i)[j]).0 == a;
            assert(rows[j].0.before(rows[i].0));
            <Address>::lemma_irreflexive(a);
        }
    }
    lemma_supply_remove(before.insert(a, v), a);
    assert(before.insert(a, v).remove(a) =~= before);
}

/// The supply of the first rows is at most the supply of all of them.
proof fn lemma_supply_prefix(rows: Seq<(Address, Balance)>, i: int)
    requires
        ascending(rows),
        0 <= i <= rows.len(),
    ensures
        supply(rows_map(rows.take(i))) <= supply(rows_map(rows)),
    decreases rows.len() - i,
{
    if i < rows.len() {
        lemma_supply_row(rows, i);
        lemma_supply_prefix(rows, i + 1);
    } else {
        assert(rows.take(i) =~= rows);
    }
}

impl InMemorySubstrate {
    #[verifier::type_invariant]
    spec fn wf(&self) -> bool {
        self@.wf()
    }

    /// An empty substrate.
    pub fn new() -> (s: Self)
        ensures
            s@ == seeded_with(Map::empty()),
            s@.wf(),
    {
        let bytes_state = OrderedMap::<Address, Vec<u8>>::new();
        assert(value_views(bytes_state@) =~= Map::empty());
        InMemorySubstrate {
            balances: OrderedMap::new(),
            bytes_state,
            current_block_height: 0,
            pairings: Vec::new(),
        }
    }

    /// A substrate with initial balances.
    pub fn from_balances(entries: &[(Address, Balance)]) -> (s: Self)
        ensures
            s@ == seeded_with(seeded(entries@)),
            s@.wf(),
    {
        let mut s = Self::new();
        let n: usize = entries.len();
        let mut i: usize = 0;
        while i < n
            invariant
                i <= n,
                n == entries@.len(),
                s@.balances == seeded(entries@.take(i as int)),
                s@.records == Map::<Address, Seq<u8>>::empty(),
                s@.height == 0,
                s@.pairings == Map::<ProofId, Result<(), Seq<char>>>::empty(),
            decreases n - i,
        {
            assert(entries@.take(i + 1).drop_last() =~= entries@.take(i as int));
            let (a, v) = entries[i];
            if v > 0 {
                s.set_balance(a, v);
            }
            i = i + 1;
        }
        assert(entries@.take(n as int) =~= entries@);
        proof {
            use_type_invariant(&s);
        }
        s
    }

    /// The sum of all balances.
    pub fn total_supply(&self) -> (total: Balance)
        requires
            supply(self@.balances) <= Balance::MAX,
        ensures
            total == supply(self@.balances),
    {
        let rows = self.balances.entries();
        let n: usize = rows.len();
        let mut i: usize = 0;
        let mut total: Balance = 0;
        assert(rows_map(rows@.take(0)) =~= Map::empty());
        while i < n
            invariant
                i <= n,
                n == rows@.len(),
                ascending(rows@),
                rows_map(rows@) == self@.balances,
                supply(self@.balances) <= Balance::MAX,
                total == supply(rows_map(rows@.take(i as int))),
            decreases n - i,
        {
            proof {
                lemma_supply_row(rows@, i as int);
                lemma_supply_prefix(rows@, i + 1);
            }
            total = total + rows[i].1;
            i = i + 1;
        }
        assert(rows@.take(n as int) =~= rows@);
        total
    }

    /// All balances in ascending address order. The state holds no zero balance and
    /// no empty record, so exactly the balances that are not zero are listed.
    pub fn entries(&self) -> (r: &Vec<(Address, Balance)>)
        ensures
            self@.wf(),
            r@ == sorted_rows(self@.balances),
            ascending(r@),
            rows_map(r@) == self@.balances,
            forall|a: Address, b: Balance| #[trigger]
                r@.contains((a, b)) <==> self@.balance(a) == b && b > 0,
    {
        let r = self.balances.entries();
        proof {
            use_type_invariant(self);
            lemma_rows_map_dom(r@);
            assert forall|a: Address, b: Balance| #[trigger]
                r@.contains((a, b)) <==> self@.balance(a) == b && b > 0 by {
                if r@.contains((a, b)) {
                    let j = choose|j: int| 0 <= j < r@.len() && r@[j] == (a, b);
                    lemma_rows_map_get(r@, j);
                }
                if self@.balance(a) == b && b > 0 {
                    let j = choose|j: int| 0 <= j < r@.len() && (#[trigger] r@[j]).0 == a;
                    lemma_rows_map_get(r@, j);
                    assert(r@[j] == (a, b));
                }
            }
        }
        r
    }

    /// All byte records in ascending address order.
    pub(crate) fn record_rows(&self) -> (r: &Vec<(Address, Vec<u8>)>)
        ensures
            row_views(r@) == sorted_rows(self@.records),
    {
        let r = self.bytes_state.entries();
        proof {
            lemma_view_rows(r@);
        }
        r
    }

    /// The balance of `addr`, zero where none is held.
    pub(crate) fn balance_at(&self, addr: &Address) -> (v: Balance)
        ensures
            v == self@.balance(*addr),
    {
        match self.balances.get(addr) {
            Some(v) => *v,
            None => 0,
        }
    }

    /// A copy of the record at `addr`.
    pub(crate) fn record_at(&self, addr: &Address) -> (r: Option<Vec<u8>>)
        ensures
            match r {
                Some(v) => self@.records.dom().contains(*addr) && v@ == self@.records[*addr],
                None => !self@.records.dom().contains(*addr),
            },
    {
        match self.bytes_state.get(addr) {
            Some(v) => Some(copy_bytes(v.as_slice())),
            None => None,
        }
    }

    /// A copy of the record at `addr`, empty where there is none.
    pub(crate) fn record_or_empty(&self, addr: &Address) -> (r: Vec<u8>)
        ensures
            r@ == self@.record(*addr),
    {
        match self.record_at(addr) {
            Some(v) => v,
            None => Vec::new(),
        }
    }

    /// The ambient block height.
    pub(crate) fn height(&self) -> (h: u64)
        ensures
            h == self@.height,
    {
        self.current_block_height
    }

    /// Sets the ambient block height.
    pub(crate) fn set_height(&mut self, height: u64)
        ensures
            final(self)@ == (Ledger { height, ..old(self)@ }),
    {
        proof {
            use_type_invariant(&*self);
        }
        self.current_block_height = height;
    }

    /// Replaces what is known of the proofs of L2 batches. A commit is decided by
    /// what the last finding on its own proof, public inputs and key says.
    pub fn set_pairings(&mut self, findings: Vec<PairingFinding>)
        ensures
            final(self)@ == (Ledger { pairings: findings_map(findings@), ..old(self)@ }),
    {
        proof {
            use_type_invariant(&*self);
        }
        self.pairings = findings;
    }

    /// What is known of the proof of an L2 batch.
    pub(crate) fn pairing_of(
        &self,
        proof_bytes: &[u8],
        public_inputs: &[u8],
        vk_hash: &[u8; 32],
    ) -> (r: Result<(), String>)
        ensures
            verdict_view(r) == finding_on(
                self@.pairings,
                (ProofId {
                    proof_bytes: proof_bytes@,
                    public_inputs: public_inputs@,
                    vk_hash: *vk_hash,
                }),
            ),
    {
        find(&self.pairings, proof_bytes, public_inputs, vk_hash)
    }

    /// Sets a balance; zero removes it.
    fn set_balance(&mut self, addr: Address, v: Balance)
        ensures
            final(self)@ == old(self)@.with_balances(with_balance(old(self)@.balances, addr, v)),
    {
        proof {
            use_type_invariant(&*self);
            lemma_with_balance(self.balances@, addr, v);
        }
        let mut balances = OrderedMap::<Address, Balance>::new();
        std::mem::swap(&mut balances, &mut self.balances);
        if v == 0 {
            balances.remove(&addr);
        } else {
            balances.insert(addr, v);
        }
        self.balances = balances;
    }

    /// Writes a record; an empty one removes it.
    pub(crate) fn write_bytes_unchecked(&mut self, addr: Address, bytes: Vec<u8>)
        ensures
            final(self)@ == old(self)@.with_record(addr, bytes@),
    {
        proof {
            use_type_invariant(&*self);
        }
        let mut records = OrderedMap::<Address, Vec<u8>>::new();
        assert(value_views(records@) =~= Map::empty());
        std::mem::swap(&mut records, &mut self.bytes_state);
        let ghost before = records@;
        let ghost data = bytes@;
        if bytes.len() == 0 {
            records.remove(&addr);
            assert(value_views(records@) =~= value_views(before).remove(addr));
        } else {
            records.insert(addr, bytes);
            assert(value_views(records@) =~= value_views(before).insert(addr, data));
        }
        self.bytes_state = records;
    }

    /// Credits an account, protocol-owned or not. A zero credit does nothing.
    pub fn credit_unchecked(&mut self, addr: Address, amount: Balance) -> (r: Result<
        (),
        ExecutionError,
    >)
        ensures
            match credited_one(old(self)@.balances, addr, amount) {
                Ok(b) => r is Ok && final(self)@ == old(self)@.with_balances(b),
                Err(e) => r == Err::<(), ExecutionError>(e) && final(self)@ == old(self)@,
            },
    {
        if amount == 0 {
            return Ok(());
        }
        match self.balance_at(&addr).checked_add(amount) {
            Some(v) => {
                self.set_balance(addr, v);
                Ok(())
            },
            None => Err(ExecutionError::DistributionOverflow { to: addr }),
        }
    }

    /// Moves `amount` between two accounts, or does nothing and says why.
    pub(crate) fn move_or(
        &mut self,
        from: Address,
        to: Address,
        amount: Balance,
        overflow: ExecutionError,
    ) -> (r: Result<(), ExecutionError>)
        ensures
            match moved_or(old(self)@.balances, from, to, amount, overflow) {
                Ok(b) => r is Ok && final(self)@ == old(self)@.with_balances(b),
                Err(e) => r == Err::<(), ExecutionError>(e) && final(self)@ == old(self)@,
            },
    {
        if amount == 0 {
            return Ok(());
        }
        let source: Balance = self.balance_at(&from);
        if source < amount {
            return Err(
                ExecutionError::InsufficientBalance { from, have: source, need: amount },
            );
        }
        if crate::bytes::same_array(&from, &to) {
            return Ok(());
        }
        match self.balance_at(&to).checked_add(amount) {
            Some(v) => {
                self.set_balance(from, source - amount);
                self.set_balance(to, v);
                Ok(())
            },
            None => Err(overflow),
        }
    }

    /// Moves `amount` between two accounts of the protocol or its users. Both the
    /// source and the destination are checked before anything changes.
    pub fn transfer_internal(&mut self, from: Address, to: Address, amount: Balance) -> (r: Result<
        (),
        ExecutionError,
    >)
        ensures
            match moved(old(self)@.balances, from, to, amount) {
                Ok(b) => r is Ok && final(self)@ == old(self)@.with_balances(b),
                Err(e) => r == Err::<(), ExecutionError>(e) && final(self)@ == old(self)@,
            },
    {
        self.move_or(from, to, amount, ExecutionError::DistributionOverflow { to })
    }

    /// Works out the balances after `credits` on top of `staged`.
    fn stage_credits(
        &self,
        staged: &mut OrderedMap<Address, Balance>,
        credits: &[(Address, Balance)],
        Ghost(base): Ghost<Map<Address, Balance>>,
    ) -> (r: Result<(), ExecutionError>)
        requires
            no_zeros(base),
            forall|a: Address| #[trigger]
                staged_balance(self@.balances, old(staged)@, a) == balance_of(base, a),
        ensures
            match credited(base, credits@) {
                Ok(b) => r is Ok && no_zeros(b) && forall|a: Address| #[trigger]
                    staged_balance(self@.balances, final(staged)@, a) == balance_of(b, a),
                Err(e) => r == Err::<(), ExecutionError>(e),
            },
    {
        let n: usize = credits.len();
        let mut i: usize = 0;
        let ghost mut now = base;
        assert(credits@.take(0) =~= Seq::empty());
        while i < n
            invariant
                i <= n,
                n == credits@.len(),
                no_zeros(base),
                credited(base, credits@.take(i as int)) == Ok::<
                    Map<Address, Balance>,
                    ExecutionError,
                >(now),
                forall|a: Address| #[trigger]
                    staged_balance(self@.balances, staged@, a) == balance_of(now, a),
            decreases n - i,
        {
            let (to, amount) = credits[i];
            assert(credits@.take(i + 1).drop_last() =~= credits@.take(i as int));
            assert(credits@.take(i + 1).last() == (to, amount));
            if amount != 0 {
                let have: Balance = match staged.get(&to) {
                    Some(v) => *v,
                    None => self.balance_at(&to),
                };
                assert(staged_balance(self@.balances, staged@, to) == balance_of(now, to));
                match have.checked_add(amount) {
                    None => {
                        proof {
                            lemma_credited_error(
                                base,
                                credits@,
                                i + 1,
                                ExecutionError::DistributionOverflow { to },
                            );
                        }
                        return Err(ExecutionError::DistributionOverflow { to });
                    },
                    Some(v) => {
                        proof {
                            lemma_with_balance(now, to, v);
                        }
                        let ghost before = staged@;
                        staged.insert(to, v);
                        proof {
                            let next = with_balance(now, to, v);
                            assert forall|a: Address| #[trigger]
                                staged_balance(self@.balances, staged@, a) == balance_of(
                                next,
                                a,
                            ) by {
                                assert(staged_balance(self@.balances, before, a) == balance_of(
                                    now,
                                    a,
                                ));
                            }
                            now = next;
                        }
                    },
                }
            }
            i = i + 1;
        }
        assert(credits@.take(n as int) =~= credits@);
        proof {
            lemma_credited_no_zeros(base, credits@);
        }
        Ok(())
    }

    /// Writes staged balances.
    fn commit_staged(
        &mut self,
        staged: &OrderedMap<Address, Balance>,
        Ghost(target): Ghost<Map<Address, Balance>>,
    )
        requires
            no_zeros(target),
            forall|a: Address| #[trigger]
                staged_balance(old(self)@.balances, staged@, a) == balance_of(target, a),
        ensures
            final(self)@ == old(self)@.with_balances(target),
    {
        let rows = staged.entries();
        let n: usize = rows.len();
        let mut i: usize = 0;
        let ghost start = self@;
        assert(rows_map(rows@.take(0)) =~= Map::empty());
        while i < n
            invariant
                i <= n,
                n == rows@.len(),
                self@ == start.with_balances(self@.balances),
                forall|a: Address| #[trigger]
                    balance_of(self@.balances, a) == staged_balance(
                        start.balances,
                        rows_map(rows@.take(i as int)),
                        a,
                    ),
            decreases n - i,
        {
            let (a, v) = rows[i];
            proof {
                lemma_with_balance(self@.balances, a, v);
                assert(rows@.take(i + 1).drop_last() =~= rows@.take(i as int));
                assert(rows@.take(i + 1).last() == (a, v));
            }
            let ghost before = self@;
            self.set_balance(a, v);
            proof {
                assert forall|x: Address| #[trigger]
                    balance_of(self@.balances, x) == staged_balance(
                        start.balances,
                        rows_map(rows@.take(i + 1)),
                        x,
                    ) by {
                    assert(balance_of(before.balances, x) == staged_balance(
                        start.balances,
                        rows_map(rows@.take(i as int)),
                        x,
                    ));
                }
            }
            i = i + 1;
        }
        proof {
            assert(rows@.take(n as int) =~= rows@);
            use_type_invariant(&*self);
            assert forall|a: Address| #[trigger]
                balance_of(self@.balances, a) == balance_of(target, a) by {
                assert(staged_balance(start.balances, staged@, a) == balance_of(target, a));
            }
            lemma_same_balances(self@.balances, target);
        }
    }

    /// Credits many accounts, all or none. Credits to one account add up.
    pub fn credit_many_atomic(&mut self, credits: &[(Address, Balance)]) -> (r: Result<
        (),
        ExecutionError,
    >)
        ensures
            match credited(old(self)@.balances, credits@) {
                Ok(b) => r is Ok && final(self)@ == old(self)@.with_balances(b),
                Err(e) => r == Err::<(), ExecutionError>(e) && final(self)@ == old(self)@,
            },
    {
        proof {
            use_type_invariant(&*self);
        }
        let ghost base = self@.balances;
        let mut staged = OrderedMap::<Address, Balance>::new();
        match self.stage_credits(&mut staged, credits, Ghost(base)) {
            Err(e) => Err(e),
            Ok(()) => {
                let ghost target = credited(base, credits@)->Ok_0;
                self.commit_staged(&staged, Ghost(target));
                Ok(())
            },
        }
    }

    /// The balance of `addr` once `staged` is written.
    fn staged_at(&self, staged: &OrderedMap<Address, Balance>, addr: &Address) -> (v: Balance)
        ensures
            v == staged_balance(self@.balances, staged@, *addr),
    {
        match staged.get(addr) {
            Some(v) => *v,
            None => self.balance_at(addr),
        }
    }

    /// Works out the balances after `from` paid all credits.
    fn stage_drain(
        &self,
        staged: &mut OrderedMap<Address, Balance>,
        from: Address,
        credits: &[(Address, Balance)],
    ) -> (r: Result<(), ExecutionError>)
        requires
            old(staged)@ == Map::<Address, Balance>::empty(),
        ensures
            match drained(self@.balances, from, credits@) {
                Ok(b) => r is Ok && no_zeros(b) && forall|a: Address| #[trigger]
                    staged_balance(self@.balances, final(staged)@, a) == balance_of(b, a),
                Err(e) => r == Err::<(), ExecutionError>(e),
            },
    {
        proof {
            use_type_invariant(self);
        }
        let n: usize = credits.len();
        let mut i: usize = 0;
        let mut total: Balance = 0;
        assert(credits@.take(0) =~= Seq::empty());
        while i < n
            invariant
                i <= n,
                n == credits@.len(),
                total == credit_sum(credits@.take(i as int)),
            decreases n - i,
        {
            let (_, amount) = credits[i];
            assert(credits@.take(i + 1).drop_last() =~= credits@.take(i as int));
            match total.checked_add(amount) {
                None => {
                    proof {
                        lemma_credit_sum_prefix(credits@, i + 1);
                    }
                    return Err(ExecutionError::DistributionOverflow { to: from });
                },
                Some(t) => {
                    total = t;
                },
            }
            i = i + 1;
        }
        assert(credits@.take(n as int) =~= credits@);
        if total == 0 {
            return Ok(());
        }
        let source: Balance = self.balance_at(&from);
        if source < total {
            return Err(ExecutionError::InsufficientBalance { from, have: source, need: total });
        }
        let ghost base = with_balance(self@.balances, from, (source - total) as Balance);
        proof {
            lemma_with_balance(self@.balances, from, (source - total) as Balance);
        }
        staged.insert(from, source - total);
        self.stage_credits(staged, credits, Ghost(base))
    }

    /// Pays many accounts out of one, all or none.
    pub fn drain_and_credit_atomic(&mut self, from: Address, credits: &[(Address, Balance)]) -> (r:
        Result<(), ExecutionError>)
        ensures
            match drained(old(self)@.balances, from, credits@) {
                Ok(b) => r is Ok && final(self)@ == old(self)@.with_balances(b),
                Err(e) => r == Err::<(), ExecutionError>(e) && final(self)@ == old(self)@,
            },
    {
        let mut staged = OrderedMap::<Address, Balance>::new();
        match self.stage_drain(&mut staged, from, credits) {
            Err(e) => Err(e),
            Ok(()) => {
                let ghost target = drained(self@.balances, from, credits@)->Ok_0;
                self.commit_staged(&staged, Ghost(target));
                Ok(())
            },
        }
    }

    /// Pays many accounts out of one and then tips `payee` out of `payer` as far
    /// as its balance goes, all or nothing.
    pub(crate) fn drain_and_tip(
        &mut self,
        from: Address,
        credits: &[(Address, Balance)],
        payer: Address,
        payee: Address,
        tip: Balance,
    ) -> (r: Result<(), ExecutionError>)
        ensures
            match drained_and_tipped(old(self)@.balances, from, credits@, payer, payee, tip) {
                Ok(b) => r is Ok && final(self)@ == old(self)@.with_balances(b),
                Err(e) => r == Err::<(), ExecutionError>(e) && final(self)@ == old(self)@,
            },
    {
        let mut staged = OrderedMap::<Address, Balance>::new();
        match self.stage_drain(&mut staged, from, credits) {
            Err(e) => {
                return Err(e);
            },
            Ok(()) => {},
        }
        let ghost b = drained(self@.balances, from, credits@)->Ok_0;
        let purse: Balance = self.staged_at(&staged, &payer);
        assert(purse == balance_of(b, payer));
        let paid: Balance = if tip < purse {
            tip
        } else {
            purse
        };
        if paid == 0 || crate::bytes::same_array(&payer, &payee) {
            self.commit_staged(&staged, Ghost(b));
            return Ok(());
        }
        let have: Balance = self.staged_at(&staged, &payee);
        assert(have == balance_of(b, payee));
        match have.checked_add(paid) {
            None => Err(ExecutionError::DistributionOverflow { to: payee }),
            Some(v) => {
                let ghost c = with_balance(b, payer, (purse - paid) as Balance);
                let ghost d = with_balance(c, payee, v);
                proof {
                    lemma_with_balance(b, payer, (purse - paid) as Balance);
                    lemma_with_balance(c, payee, v);
                }
                let ghost before = staged@;
                staged.insert(payer, purse - paid);
                staged.insert(payee, v);
                proof {
                    assert forall|a: Address| #[trigger]
                        staged_balance(self@.balances, staged@, a) == balance_of(d, a) by {
                        assert(staged_balance(self@.balances, before, a) == balance_of(b, a));
                        assert(balance_of(c, a) == (if a == payer {
                            (purse - paid) as Balance
                        } else {
                            balance_of(b, a)
                        }));
                    }
                }
                self.commit_staged(&staged, Ghost(d));
                Ok(())
            },
        }
    }

    /// Debits an account, protocol-owned or not. A zero debit does nothing.
    pub fn debit_unchecked(&mut self, addr: Address, amount: Balance) -> (r: Result<
        (),
        ExecutionError,
    >)
        ensures
            if amount == 0 {
                r is Ok && final(self)@ == old(self)@
            } else if old(self)@.balance(addr) < amount {
                r == Err::<(), ExecutionError>(
                    ExecutionError::InsufficientBalance {
                        from: addr,
                        have: old(self)@.balance(addr),
                        need: amount,
                    },
                ) && final(self)@ == old(self)@
            } else {
                r is Ok && final(self)@ == old(self)@.with_balances(
                    with_balance(
                        old(self)@.balances,
                        addr,
                        (old(self)@.balance(addr) - amount) as Balance,
                    ),
                )
            },
    {
        if amount == 0 {
            return Ok(());
        }
        let source: Balance = self.balance_at(&addr);
        if source < amount {
            return Err(
                ExecutionError::InsufficientBalance { from: addr, have: source, need: amount },
            );
        }
        self.set_balance(addr, source - amount);
        Ok(())
    }
}

impl Clone for InMemorySubstrate {
    fn clone(&self) -> (s: Self)
        ensures
            s@ == self@,
    {
        proof {
            use_type_invariant(self);
        }
        let balances = self.balances.clone();
        let bytes_state = self.bytes_state.clone();
        proof {
            assert(balances@ =~= self.balances@);
            assert forall|a: Address| #[trigger] self.bytes_state@.dom().contains(
                a,
            ) implies bytes_state@[a]@ == self.bytes_state@[a]@ by {
                assert(bytes_state@[a]@ =~= self.bytes_state@[a]@);
            }
            assert(value_views(bytes_state@) =~= value_views(self.bytes_state@));
        }
        InMemorySubstrate {
            balances,
            bytes_state,
            current_block_height: self.current_block_height,
            pairings: copy_findings(&self.pairings),
        }
    }
}

impl Default for InMemorySubstrate {
    fn default() -> (s: Self)
        ensures
            s@ == seeded_with(Map::empty()),
            s@.wf(),
    {
        Self::new()
    }
}

/// The L2 registry that a record holds, empty where it is absent or cannot be read.
pub open spec fn registry_in(record: Option<Vec<u8>>) -> L2View {
    let bytes = match record {
        Some(b) => b@,
        None => seq![],
    };
    match l2_state::parse(bytes) {
        Ok(v) => v,
        Err(_) => L2View::empty(),
    }
}

/// The execution substrate as the block executor sees it.
///
/// Applying an intent that fails leaves the state as it was, but for a burn claim
/// that the escrow is short of, which stays recorded. The state root depends on
/// nothing but balances and records.
pub trait Substrate {
    /// The balance of `addr`, zero for an unseen address.
    fn balance(&self, addr: &Address) -> Balance;

    /// The byte record at `addr`. Implementations without records have none.
    fn read_bytes(&self, _addr: &Address) -> (r: Option<Vec<u8>>)
        default_ensures
            r is None,
    {
        None
    }

    /// The L2 registry, empty where it is absent or cannot be read.
    fn l2_registry(&self) -> (r: L2Registry)
        default_ensures
            exists|b: Option<Vec<u8>>| #[trigger]
                call_ensures(Self::read_bytes, (self, &reserved::l2_registry_address()), b)
                    && r@ == registry_in(b),
    {
        let bytes: Vec<u8> = match self.read_bytes(&reserved::l2_registry_address()) {
            Some(b) => b,
            None => Vec::new(),
        };
        match l2_state::decode(bytes.as_slice()) {
            Ok(reg) => reg,
            Err(_) => L2Registry::default(),
        }
    }

    /// Applies one intent. Where a commit of an L2 batch needs the pairing check of
    /// its proof, it goes by what the host said of that proof beforehand; a proof that
    /// nothing was said of does not pass.
    fn apply_intent(&mut self, intent: &Intent) -> Result<(), ExecutionError>;

    /// The ambient block height. Implementations without block context stay at
    /// zero, which keeps cooldown-gated intents blocked.
    fn current_block_height(&self) -> (h: u64)
        default_ensures
            h == 0,
    {
        0
    }

    /// Sets the ambient block height. Implementations without block context ignore
    /// it.
    fn set_current_block_height(&mut self, _height: u64)
        default_ensures
            &*final(self) == &*old(self),
    {
    }

    /// The canonical state root.
    fn state_root(&self) -> [u8; 32];
}

impl Substrate for InMemorySubstrate {
    fn balance(&self, addr: &Address) -> (v: Balance)
        ensures
            v == self@.balance(*addr),
    {
        self.balance_at(addr)
    }

    fn read_bytes(&self, addr: &Address) -> (r: Option<Vec<u8>>)
        ensures
            match r {
                Some(v) => self@.records.dom().contains(*addr) && v@ == self@.records[*addr],
                None => !self@.records.dom().contains(*addr),
            },
    {
        self.record_at(addr)
    }

    fn l2_registry(&self) -> (r: L2Registry)
        ensures
            r@ == l2_or_empty(self@),
    {
        self.stored_l2_registry()
    }

    fn apply_intent(&mut self, intent: &Intent) -> (r: Result<(), ExecutionError>)
        ensures
            agrees(applied(old(self)@, *intent, noted(old(self)@, *intent)), final(self)@, r),
    {
        let evidence = self.noted_evidence(intent);
        self.apply_intent_with(intent, &evidence)
    }

    fn current_block_height(&self) -> (h: u64)
        ensures
            h == self@.height,
    {
        self.height()
    }

    fn set_current_block_height(&mut self, height: u64)
        ensures
            final(self)@ == (Ledger { height, ..old(self)@ }),
    {
        self.set_height(height);
    }

    fn state_root(&self) -> (root: [u8; 32])
        ensures
            root == root_of(self@.balances, self@.records),
    {
        compute_root(self)
    }
}

/// A boxed substrate is a substrate: every question and every change goes to what
/// is in the box.
impl<S: Substrate + ?Sized> Substrate for Box<S> {
    fn balance(&self, addr: &Address) -> (r: Balance)
        ensures
            call_ensures(S::balance, (&**self, addr), r),
    {
        (**self).balance(addr)
    }

    fn read_bytes(&self, addr: &Address) -> (r: Option<Vec<u8>>)
        ensures
            call_ensures(S::read_bytes, (&**self, addr), r),
    {
        (**self).read_bytes(addr)
    }

    fn apply_intent(&mut self, intent: &Intent) -> (r: Result<(), ExecutionError>)
        ensures
            exists|inner: &mut S| #[trigger]
                call_ensures(S::apply_intent, (inner, intent), r) && &*inner == &**old(self)
                    && &*final(inner) == &**final(self),
    {
        let inner: &mut S = &mut **self;
        inner.apply_intent(intent)
    }

    fn current_block_height(&self) -> (r: u64)
        ensures
            call_ensures(S::current_block_height, (&**self,), r),
    {
        (**self).current_block_height()
    }

    fn set_current_block_height(&mut self, height: u64)
        ensures
            exists|inner: &mut S| #[trigger]
                call_ensures(S::set_current_block_height, (inner, height), ()) && &*inner
                    == &**old(self) && &*final(inner) == &**final(self),
    {
        let inner: &mut S = &mut **self;
        inner.set_current_block_height(height)
    }

    fn state_root(&self) -> (r: [u8; 32])
        ensures
            call_ensures(S::state_root, (&**self,), r),
    {
        (**self).state_root()
    }
}

} // verus!
