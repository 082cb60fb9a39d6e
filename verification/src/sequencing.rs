//! Force-include obligations, sequencer slashing and ejection.

use vstd::prelude::*;

use crate::eject_registry::{self, EjectionRecord, EjectionTable};
use crate::equivocation_registry::{self, EquivocationRecord, OffenseKind, OffenseTable};
use crate::error::ExecutionError;
use crate::force_include::{
    self, obligation_id, obligation_preimage, tx_hash, ForceIncludeObligation, ObligationStatus,
    ObligationTable,
};
use crate::hash::digest_of;
use crate::ledger::{agrees, done, drained, drained_and_tipped, refused, tipped, Ledger, Step};
use crate::ordered::OrderedMap;
use crate::reserved;
use crate::staking::{waterfall, waterfall_credits};
use crate::substrate::{Address, Balance, InMemorySubstrate};
use crate::table::table_bytes;

verus! {

/// Part of the liveness bond that one missed deadline costs, in basis points.
pub const LIVENESS_SLASH_BPS: u128 = 500;

/// Part of a slash that is paid to the reporter, in basis points.
pub const SNITCH_BOUNTY_BPS: u128 = 1_000;

/// The most that is paid to a reporter.
pub const SNITCH_BOUNTY_CAP: Balance = 1_000_000;

/// What one missed deadline costs, given the bond.
pub open spec fn liveness_slash(bond: Balance) -> Balance {
    (bond as int * LIVENESS_SLASH_BPS as int / 10_000) as Balance
}

/// What a reporter is paid for a slash.
pub open spec fn snitch_bounty(slash: Balance) -> Balance {
    let part = slash as int * SNITCH_BOUNTY_BPS as int / 10_000;
    if part < SNITCH_BOUNTY_CAP {
        part as Balance
    } else {
        SNITCH_BOUNTY_CAP
    }
}

/// The obligations in a state.
pub open spec fn obligations(l: Ledger) -> Result<
    Map<[u8; 32], ForceIncludeObligation>,
    ExecutionError,
> {
    force_include::parse(l.record(reserved::force_include_registry_address()))
}

/// The state with other obligations.
pub open spec fn with_obligations(l: Ledger, m: Map<[u8; 32], ForceIncludeObligation>) -> Ledger {
    l.with_record(
        reserved::force_include_registry_address(),
        table_bytes::<ObligationTable>(m),
    )
}

/// The ejections in a state.
pub open spec fn ejections(l: Ledger) -> Result<Map<[u8; 32], EjectionRecord>, ExecutionError> {
    eject_registry::parse(l.record(reserved::ejection_registry_address()))
}

/// The state with other ejections.
pub open spec fn with_ejections(l: Ledger, m: Map<[u8; 32], EjectionRecord>) -> Ledger {
    l.with_record(reserved::ejection_registry_address(), table_bytes::<EjectionTable>(m))
}

/// The slashed offenses in a state.
pub open spec fn offenses(l: Ledger) -> Result<Map<[u8; 32], EquivocationRecord>, ExecutionError> {
    equivocation_registry::parse(l.record(reserved::equivocation_registry_address()))
}

/// The state with other slashed offenses.
pub open spec fn with_offenses(l: Ledger, m: Map<[u8; 32], EquivocationRecord>) -> Ledger {
    l.with_record(reserved::equivocation_registry_address(), table_bytes::<OffenseTable>(m))
}

/// The registration of an obligation.
pub open spec fn oblige_step(
    l: Ledger,
    tx: Seq<u8>,
    deadline_l1_height: u64,
    submitter: Address,
    l2_nonce: u64,
) -> Step {
    let id = digest_of(obligation_preimage(tx, deadline_l1_height, submitter, l2_nonce));
    match obligations(l) {
        Err(e) => refused(l, e),
        Ok(m) => if m.dom().contains(id) {
            refused(l, ExecutionError::ForceIncludeAlreadyRegistered { obligation_id: id })
        } else {
            done(
                with_obligations(
                    l,
                    m.insert(
                        id,
                        ForceIncludeObligation {
                            tx_hash: digest_of(tx),
                            deadline_l1_height,
                            submitter,
                            l2_nonce,
                            status: ObligationStatus::Pending,
                        },
                    ),
                ),
            )
        },
    }
}

/// The settlement of a pending obligation as honored.
pub open spec fn honor_step(l: Ledger, id: [u8; 32]) -> Step {
    match obligations(l) {
        Err(e) => refused(l, e),
        Ok(m) => if !m.dom().contains(id) {
            refused(l, ExecutionError::ForceIncludeNotFound { obligation_id: id })
        } else if m[id].status != ObligationStatus::Pending {
            refused(
                l,
                ExecutionError::ForceIncludeNotPending { obligation_id: id, status: m[id].status },
            )
        } else {
            done(
                with_obligations(
                    l,
                    m.insert(
                        id,
                        ForceIncludeObligation { status: ObligationStatus::Honored, ..m[id] },
                    ),
                ),
            )
        },
    }
}

/// The slash for a missed deadline: part of the liveness bond goes to insurance
/// pool and treasury, and the treasury tips the submitter as far as it can.
pub open spec fn missed_step(l: Ledger, id: [u8; 32]) -> Step {
    let bond = reserved::sequencer_bond_address();
    let slash = liveness_slash(l.balance(bond));
    match obligations(l) {
        Err(e) => refused(l, e),
        Ok(m) => if !m.dom().contains(id) {
            refused(l, ExecutionError::ForceIncludeNotFound { obligation_id: id })
        } else if m[id].status != ObligationStatus::Pending {
            refused(
                l,
                ExecutionError::ForceIncludeNotPending { obligation_id: id, status: m[id].status },
            )
        } else {
            let paid = if reserved::is_reserved(&m[id].submitter) {
                drained(l.balances, bond, waterfall(slash))
            } else {
                drained_and_tipped(
                    l.balances,
                    bond,
                    waterfall(slash),
                    reserved::treasury_address(),
                    m[id].submitter,
                    snitch_bounty(slash),
                )
            };
            match paid {
                Err(e) => refused(l, e),
                Ok(b) => done(
                    with_obligations(
                        l.with_balances(b),
                        m.insert(
                            id,
                            ForceIncludeObligation { status: ObligationStatus::Slashed, ..m[id] },
                        ),
                    ),
                ),
            }
        },
    }
}

/// The slash for a proven offense: all of the safety bond goes to insurance pool
/// and treasury.
pub open spec fn offense_step(l: Ledger, kind: OffenseKind, proof_hash: [u8; 32]) -> Step {
    let bond = reserved::safety_bond_address();
    match offenses(l) {
        Err(e) => refused(l, e),
        Ok(m) => if m.dom().contains(proof_hash) {
            refused(
                l,
                ExecutionError::EquivocationAlreadyRecorded {
                    proof_hash,
                    kind: m[proof_hash].kind,
                },
            )
        } else {
            match drained(l.balances, bond, waterfall(l.balance(bond))) {
                Err(e) => refused(l, e),
                Ok(b) => done(
                    with_offenses(
                        l.with_balances(b),
                        m.insert(
                            proof_hash,
                            EquivocationRecord { kind, slashed_at_l1_height: 0 },
                        ),
                    ),
                ),
            }
        },
    }
}

/// The ejection of the sequencer over a slashed obligation.
pub open spec fn oust_step(l: Ledger, id: [u8; 32], ejector: Address) -> Step {
    let bounty = snitch_bounty(liveness_slash(l.balance(reserved::sequencer_bond_address())));
    if reserved::is_reserved(&ejector) {
        refused(l, ExecutionError::ReservedAddressTransferDenied { addr: ejector })
    } else {
        match obligations(l) {
            Err(e) => refused(l, e),
            Ok(m) => if !m.dom().contains(id) {
                refused(l, ExecutionError::ForceIncludeNotFound { obligation_id: id })
            } else if m[id].status != ObligationStatus::Slashed {
                refused(
                    l,
                    ExecutionError::ForceIncludeNotSlashed {
                        obligation_id: id,
                        status: m[id].status,
                    },
                )
            } else {
                match ejections(l) {
                    Err(e) => refused(l, e),
                    Ok(j) => if j.dom().contains(id) {
                        refused(
                            l,
                            ExecutionError::SequencerEjectionAlreadyRecorded { obligation_id: id },
                        )
                    } else {
                        match tipped(
                            l.balances,
                            reserved::treasury_address(),
                            ejector,
                            bounty,
                        ) {
                            Err(e) => refused(l, e),
                            Ok(b) => done(
                                with_ejections(
                                    l.with_balances(b),
                                    j.insert(id, EjectionRecord { ejector }),
                                ),
                            ),
                        }
                    },
                }
            },
        }
    }
}

/// What one missed deadline costs: five percent of the bond, rounded down.
pub fn liveness_slash_amount(bond_balance: Balance) -> (s: Balance)
    ensures
        s == liveness_slash(bond_balance),
        s == bond_balance as int * LIVENESS_SLASH_BPS as int / 10_000,
{
    assert(bond_balance as int * 500 / 10_000 == bond_balance as int / 20) by {
        let q = bond_balance as int / 20;
        let m = bond_balance as int % 20;
        assert(bond_balance as int == 20 * q + m);
        assert((20 * q + m) * 500 / 10_000 == q) by (nonlinear_arith)
            requires
                0 <= m < 20,
        ;
    }
    bond_balance / 20
}

/// What a reporter is paid for a slash: ten percent, rounded down, up to the cap.
pub fn snitch_bounty_amount(slash_amount: Balance) -> (b: Balance)
    ensures
        b == snitch_bounty(slash_amount),
{
    assert(slash_amount as int * 1_000 / 10_000 == slash_amount as int / 10) by {
        let q = slash_amount as int / 10;
        let m = slash_amount as int % 10;
        assert(slash_amount as int == 10 * q + m);
        assert((10 * q + m) * 1_000 / 10_000 == q) by (nonlinear_arith)
            requires
                0 <= m < 10,
        ;
    }
    let part: Balance = slash_amount / 10;
    if part < SNITCH_BOUNTY_CAP {
        part
    } else {
        SNITCH_BOUNTY_CAP
    }
}

impl InMemorySubstrate {
    /// Reads the obligations.
    pub(crate) fn load_obligations(&self) -> (r: Result<
        OrderedMap<[u8; 32], ForceIncludeObligation>,
        ExecutionError,
    >)
        ensures
            match r {
                Ok(m) => obligations(self@) == Ok::<
                    Map<[u8; 32], ForceIncludeObligation>,
                    ExecutionError,
                >(m@),
                Err(e) => obligations(self@) == Err::<
                    Map<[u8; 32], ForceIncludeObligation>,
                    ExecutionError,
                >(e),
            },
    {
        let bytes: Vec<u8> = self.record_or_empty(&reserved::force_include_registry_address());
        force_include::decode_map(bytes.as_slice())
    }

    /// Writes the obligations.
    fn save_obligations(&mut self, map: &OrderedMap<[u8; 32], ForceIncludeObligation>)
        ensures
            final(self)@ == with_obligations(old(self)@, map@),
    {
        let out: Vec<u8> = force_include::encode_map(map);
        self.write_bytes_unchecked(reserved::force_include_registry_address(), out);
    }

    /// Reads the ejections.
    pub(crate) fn load_ejections(&self) -> (r: Result<
        OrderedMap<[u8; 32], EjectionRecord>,
        ExecutionError,
    >)
        ensures
            match r {
                Ok(m) => ejections(self@) == Ok::<
                    Map<[u8; 32], EjectionRecord>,
                    ExecutionError,
                >(m@),
                Err(e) => ejections(self@) == Err::<
                    Map<[u8; 32], EjectionRecord>,
                    ExecutionError,
                >(e),
            },
    {
        let bytes: Vec<u8> = self.record_or_empty(&reserved::ejection_registry_address());
        eject_registry::decode(bytes.as_slice())
    }

    /// Reads the slashed offenses.
    pub(crate) fn load_offenses(&self) -> (r: Result<
        OrderedMap<[u8; 32], EquivocationRecord>,
        ExecutionError,
    >)
        ensures
            match r {
                Ok(m) => offenses(self@) == Ok::<
                    Map<[u8; 32], EquivocationRecord>,
                    ExecutionError,
                >(m@),
                Err(e) => offenses(self@) == Err::<
                    Map<[u8; 32], EquivocationRecord>,
                    ExecutionError,
                >(e),
            },
    {
        let bytes: Vec<u8> = self.record_or_empty(&reserved::equivocation_registry_address());
        equivocation_registry::decode(bytes.as_slice())
    }

    pub(crate) fn apply_oblige(
        &mut self,
        tx: &Vec<u8>,
        deadline_l1_height: u64,
        submitter: Address,
        l2_nonce: u64,
    ) -> (r: Result<(), ExecutionError>)
        ensures
            agrees(
                oblige_step(old(self)@, tx@, deadline_l1_height, submitter, l2_nonce),
                final(self)@,
                r,
            ),
    {
        let id: [u8; 32] = obligation_id(tx.as_slice(), deadline_l1_height, &submitter, l2_nonce);
        let mut map = match self.load_obligations() {
            Err(e) => {
                return Err(e);
            },
            Ok(m) => m,
        };
        if map.contains_key(&id) {
            return Err(ExecutionError::ForceIncludeAlreadyRegistered { obligation_id: id });
        }
        map.insert(
            id,
            ForceIncludeObligation {
                tx_hash: tx_hash(tx.as_slice()),
                deadline_l1_height,
                submitter,
                l2_nonce,
                status: ObligationStatus::Pending,
            },
        );
        self.save_obligations(&map);
        Ok(())
    }

    pub(crate) fn apply_honor(&mut self, id: [u8; 32]) -> (r: Result<(), ExecutionError>)
        ensures
            agrees(honor_step(old(self)@, id), final(self)@, r),
    {
        let mut map = match self.load_obligations() {
            Err(e) => {
                return Err(e);
            },
            Ok(m) => m,
        };
        let ob = match map.get(&id) {
            None => {
                return Err(ExecutionError::ForceIncludeNotFound { obligation_id: id });
            },
            Some(ob) => *ob,
        };
        match ob.status {
            ObligationStatus::Pending => {},
            status => {
                return Err(ExecutionError::ForceIncludeNotPending { obligation_id: id, status });
            },
        }
        map.insert(id, ForceIncludeObligation { status: ObligationStatus::Honored, ..ob });
        self.save_obligations(&map);
        Ok(())
    }

    pub(crate) fn apply_missed(&mut self, id: [u8; 32]) -> (r: Result<(), ExecutionError>)
        ensures
            agrees(missed_step(old(self)@, id), final(self)@, r),
    {
        let mut map = match self.load_obligations() {
            Err(e) => {
                return Err(e);
            },
            Ok(m) => m,
        };
        let ob = match map.get(&id) {
            None => {
                return Err(ExecutionError::ForceIncludeNotFound { obligation_id: id });
            },
            Some(ob) => *ob,
        };
        match ob.status {
            ObligationStatus::Pending => {},
            status => {
                return Err(ExecutionError::ForceIncludeNotPending { obligation_id: id, status });
            },
        }
        let bond: Address = reserved::sequencer_bond_address();
        let slash: Balance = liveness_slash_amount(self.balance_at(&bond));
        let credits = waterfall_credits(slash);
        let paid = if reserved::is_reserved(&ob.submitter) {
            self.drain_and_credit_atomic(bond, credits.as_slice())
        } else {
            self.drain_and_tip(
                bond,
                credits.as_slice(),
                reserved::treasury_address(),
                ob.submitter,
                snitch_bounty_amount(slash),
            )
        };
        match paid {
            Err(e) => Err(e),
            Ok(()) => {
                map.insert(
                    id,
                    ForceIncludeObligation { status: ObligationStatus::Slashed, ..ob },
                );
                self.save_obligations(&map);
                Ok(())
            },
        }
    }

    pub(crate) fn apply_offense(&mut self, kind: OffenseKind, proof_hash: [u8; 32]) -> (r: Result<
        (),
        ExecutionError,
    >)
        ensures
            agrees(offense_step(old(self)@, kind, proof_hash), final(self)@, r),
    {
        let mut map = match self.load_offenses() {
            Err(e) => {
                return Err(e);
            },
            Ok(m) => m,
        };
        match map.get(&proof_hash) {
            Some(prior) => {
                return Err(
                    ExecutionError::EquivocationAlreadyRecorded { proof_hash, kind: prior.kind },
                );
            },
            None => {},
        }
        let bond: Address = reserved::safety_bond_address();
        let credits = waterfall_credits(self.balance_at(&bond));
        match self.drain_and_credit_atomic(bond, credits.as_slice()) {
            Err(e) => Err(e),
            Ok(()) => {
                map.insert(proof_hash, EquivocationRecord { kind, slashed_at_l1_height: 0 });
                let out: Vec<u8> = equivocation_registry::encode(&map);
                self.write_bytes_unchecked(reserved::equivocation_registry_address(), out);
                Ok(())
            },
        }
    }

    pub(crate) fn apply_oust(&mut self, id: [u8; 32], ejector: Address) -> (r: Result<
        (),
        ExecutionError,
    >)
        ensures
            agrees(oust_step(old(self)@, id, ejector), final(self)@, r),
    {
        if reserved::is_reserved(&ejector) {
            return Err(ExecutionError::ReservedAddressTransferDenied { addr: ejector });
        }
        let obligations = match self.load_obligations() {
            Err(e) => {
                return Err(e);
            },
            Ok(m) => m,
        };
        match obligations.get(&id) {
            None => {
                return Err(ExecutionError::ForceIncludeNotFound { obligation_id: id });
            },
            Some(ob) => match ob.status {
                ObligationStatus::Slashed => {},
                status => {
                    return Err(
                        ExecutionError::ForceIncludeNotSlashed { obligation_id: id, status },
                    );
                },
            },
        }
        let mut map = match self.load_ejections() {
            Err(e) => {
                return Err(e);
            },
            Ok(m) => m,
        };
        if map.contains_key(&id) {
            return Err(ExecutionError::SequencerEjectionAlreadyRecorded { obligation_id: id });
        }
        let treasury: Address = reserved::treasury_address();
        let slash: Balance = liveness_slash_amount(
            self.balance_at(&reserved::sequencer_bond_address()),
        );
        let bounty: Balance = snitch_bounty_amount(slash);
        let purse: Balance = self.balance_at(&treasury);
        let paid: Balance = if bounty < purse {
            bounty
        } else {
            purse
        };
        match self.transfer_internal(treasury, ejector, paid) {
            Err(e) => Err(e),
            Ok(()) => {
                map.insert(id, EjectionRecord { ejector });
                let out: Vec<u8> = eject_registry::encode(&map);
                self.write_bytes_unchecked(reserved::ejection_registry_address(), out);
                Ok(())
            },
        }
    }
}

} // verus!
