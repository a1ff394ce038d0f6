//! The currency ledger capability consumed by the order lifecycle.
//!
//! The marketplace never manipulates balances directly: it places a hold on a
//! buyer's funds when an order is placed, and releases the hold into a
//! transfer to the publisher when the order is fulfilled. The [`Ledger`] trait
//! is that capability; [`BalanceLedger`] is a verified in-memory ledger
//! implementing it.

use crate::store::AccountMap;
use crate::types::{AccountId, Balance};
use vstd::prelude::*;

verus! {

/// A reason for placing a hold on funds.
#[derive(Clone, Copy, PartialEq, Eq, Structural, Debug)]
pub enum HoldReason {
    /// The game payment.
    GamePayment,
}

/// A failure reported by the ledger.
#[derive(Clone, Copy, PartialEq, Eq, Structural, Debug)]
pub enum LedgerError {
    /// The account does not have the funds (free or on hold) asked for.
    FundsUnavailable,
    /// The operation would push a balance past the largest representable
    /// amount.
    Overflow,
}

/// The ledger capability: free and held funds per account, a hold operation,
/// and a release-into-transfer operation. Every account that was never
/// touched has zero free and zero held funds.
pub trait Ledger: Sized {
    /// The ledger's internal invariant.
    spec fn wf(&self) -> bool;

    /// The funds of `who` that are free to be held.
    spec fn free(&self, who: AccountId) -> int;

    /// The funds of `who` currently on hold.
    spec fn held(&self, who: AccountId) -> int;

    /// The free balance of `who`.
    fn balance(&self, who: AccountId) -> (r: Balance)
        requires
            self.wf(),
        ensures
            r as int == self.free(who),
    ;

    /// The funds of `who` currently on hold.
    fn balance_on_hold(&self, reason: HoldReason, who: AccountId) -> (r: Balance)
        requires
            self.wf(),
        ensures
            r as int == self.held(who),
    ;

    /// Moves `amount` of `who`'s free funds onto hold. Succeeds exactly when
    /// the free funds suffice and the held funds stay representable; a
    /// failure changes nothing.
    fn hold(&mut self, reason: HoldReason, who: AccountId, amount: Balance) -> (r: Result<
        (),
        LedgerError,
    >)
        requires
            old(self).wf(),
        ensures
            final(self).wf(),
            r is Ok <==> (old(self).free(who) >= amount && old(self).held(who) + amount
                <= u64::MAX),
            r == Err::<(), LedgerError>(LedgerError::FundsUnavailable) <==> old(self).free(who)
                < amount,
            r == Err::<(), LedgerError>(LedgerError::Overflow) <==> (old(self).free(who) >= amount
                && old(self).held(who) + amount > u64::MAX),
            r is Ok ==> final(self).free(who) == old(self).free(who) - amount && final(self).held(
                who,
            ) == old(self).held(who) + amount,
            r is Ok ==> forall|a: AccountId|
                a != who ==> #[trigger] final(self).free(a) == old(self).free(a),
            r is Ok ==> forall|a: AccountId|
                a != who ==> #[trigger] final(self).held(a) == old(self).held(a),
            r is Err ==> *final(self) == *old(self),
    ;

    /// Releases `amount` of `from`'s held funds and transfers it to `to`'s
    /// free funds. Succeeds exactly when the held funds suffice and the
    /// recipient's free funds stay representable; a failure changes nothing.
    fn release_and_transfer(
        &mut self,
        reason: HoldReason,
        from: AccountId,
        to: AccountId,
        amount: Balance,
    ) -> (r: Result<(), LedgerError>)
        requires
            old(self).wf(),
        ensures
            final(self).wf(),
            r is Ok <==> (old(self).held(from) >= amount && old(self).free(to) + amount
                <= u64::MAX),
            r == Err::<(), LedgerError>(LedgerError::FundsUnavailable) <==> old(self).held(from)
                < amount,
            r == Err::<(), LedgerError>(LedgerError::Overflow) <==> (old(self).held(from) >= amount
                && old(self).free(to) + amount > u64::MAX),
            r is Ok ==> final(self).held(from) == old(self).held(from) - amount,
            r is Ok ==> final(self).free(to) == old(self).free(to) + amount,
            r is Ok ==> forall|a: AccountId|
                a != from ==> #[trigger] final(self).held(a) == old(self).held(a),
            r is Ok ==> forall|a: AccountId|
                a != to ==> #[trigger] final(self).free(a) == old(self).free(a),
            r is Err ==> *final(self) == *old(self),
    ;
}

/// One account's funds: the free part and the part on hold.
#[derive(Clone, Copy, PartialEq, Eq, Structural, Debug)]
pub struct AccountRecord {
    /// Funds free to be spent or held.
    pub free: Balance,
    /// Funds on hold for a pending order.
    pub held: Balance,
}

/// A verified in-memory ledger: a map from accounts to their funds.
pub struct BalanceLedger {
    accounts: AccountMap<AccountRecord>,
}

impl BalanceLedger {
    /// Creates a ledger where every account has zero funds.
    pub fn new() -> (r: Self)
        ensures
            r.wf(),
            forall|a: AccountId| #[trigger] r.free(a) == 0,
            forall|a: AccountId| #[trigger] r.held(a) == 0,
    {
        BalanceLedger { accounts: AccountMap::new() }
    }

    /// Sets the free funds of `who`, leaving its held funds alone.
    pub fn set_balance(&mut self, who: AccountId, amount: Balance)
        requires
            old(self).wf(),
        ensures
            final(self).wf(),
            final(self).free(who) == amount as int,
            final(self).held(who) == old(self).held(who),
            forall|a: AccountId| a != who ==> #[trigger] final(self).free(a) == old(self).free(a),
            forall|a: AccountId| a != who ==> #[trigger] final(self).held(a) == old(self).held(a),
    {
        let held = match self.accounts.get(who) {
            Some(rec) => rec.held,
            None => 0,
        };
        self.accounts.set(who, AccountRecord { free: amount, held });
    }
}

impl Ledger for BalanceLedger {
    closed spec fn wf(&self) -> bool {
        self.accounts.wf()
    }

    closed spec fn free(&self, who: AccountId) -> int {
        if self.accounts@.contains_key(who as int) {
            self.accounts@[who as int].free as int
        } else {
            0
        }
    }

    closed spec fn held(&self, who: AccountId) -> int {
        if self.accounts@.contains_key(who as int) {
            self.accounts@[who as int].held as int
        } else {
            0
        }
    }

    fn balance(&self, who: AccountId) -> (r: Balance) {
        match self.accounts.get(who) {
            Some(rec) => rec.free,
            None => 0,
        }
    }

    fn balance_on_hold(&self, reason: HoldReason, who: AccountId) -> (r: Balance) {
        match self.accounts.get(who) {
            Some(rec) => rec.held,
            None => 0,
        }
    }

    fn hold(&mut self, reason: HoldReason, who: AccountId, amount: Balance) -> (r: Result<
        (),
        LedgerError,
    >) {
        let rec = match self.accounts.get(who) {
            Some(rec) => *rec,
            None => AccountRecord { free: 0, held: 0 },
        };
        if rec.free < amount {
            return Err(LedgerError::FundsUnavailable);
        }
        if amount > u64::MAX - rec.held {
            return Err(LedgerError::Overflow);
        }
        self.accounts.set(who, AccountRecord { free: rec.free - amount, held: rec.held + amount });
        Ok(())
    }

    fn release_and_transfer(
        &mut self,
        reason: HoldReason,
        from: AccountId,
        to: AccountId,
        amount: Balance,
    ) -> (r: Result<(), LedgerError>) {
        let from_rec = match self.accounts.get(from) {
            Some(rec) => *rec,
            None => AccountRecord { free: 0, held: 0 },
        };
        if from_rec.held < amount {
            return Err(LedgerError::FundsUnavailable);
        }
        if from == to {
            if amount > u64::MAX - from_rec.free {
                return Err(LedgerError::Overflow);
            }
            self.accounts.set(
                from,
                AccountRecord { free: from_rec.free + amount, held: from_rec.held - amount },
            );
            return Ok(());
        }
        let to_rec = match self.accounts.get(to) {
            Some(rec) => *rec,
            None => AccountRecord { free: 0, held: 0 },
        };
        if amount > u64::MAX - to_rec.free {
            return Err(LedgerError::Overflow);
        }
        self.accounts.set(
            from,
            AccountRecord { free: from_rec.free, held: from_rec.held - amount },
        );
        self.accounts.set(to, AccountRecord { free: to_rec.free + amount, held: to_rec.held });
        Ok(())
    }
}

} // verus!
