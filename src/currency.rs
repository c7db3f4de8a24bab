//! The stake ledger that the registry reserves against.

use std::collections::HashMap;
use vstd::prelude::*;

verus! {

broadcast use vstd::std_specs::hash::group_hash_axioms;

/// The free balance that remains after `moved` comes back from reserve to a
/// free balance of `free`: it saturates at the largest balance.
pub open spec fn saturated_free(free: nat, moved: nat) -> nat {
    if free + moved > u64::MAX {
        u64::MAX as nat
    } else {
        free + moved
    }
}

/// The runtime that a registry serves: it keeps a free and a reserved
/// balance per account, and lets the registry move funds between the two.
pub trait Trait {
    /// What `who` holds and can still reserve.
    spec fn free_balance(&self, who: u64) -> nat;

    /// What is held in reserve for `who`.
    spec fn reserved_balance(&self, who: u64) -> nat;

    /// Moves `amount` of `who`'s free balance into reserve and returns true,
    /// or declines and changes nothing. It declines whenever the free
    /// balance is short.
    fn reserve(&mut self, who: u64, amount: u64) -> (r: bool)
        ensures
            old(self).free_balance(who) < amount ==> !r,
            r ==> final(self).free_balance(who) == old(self).free_balance(who) - amount,
            r ==> final(self).reserved_balance(who) == old(self).reserved_balance(who) + amount,
            !r ==> final(self).free_balance(who) == old(self).free_balance(who),
            !r ==> final(self).reserved_balance(who) == old(self).reserved_balance(who),
            forall|a: u64|
                a != who ==> #[trigger] final(self).free_balance(a) == old(self).free_balance(a),
            forall|a: u64|
                a != who ==> #[trigger] final(self).reserved_balance(a) == old(
                    self,
                ).reserved_balance(a),
    ;

    /// Moves up to `amount` of `who`'s reserve back to the free balance and
    /// returns the part of `amount` that was not in reserve.
    fn unreserve(&mut self, who: u64, amount: u64) -> (leftover: u64)
        ensures
            leftover == if old(self).reserved_balance(who) >= amount {
                0
            } else {
                amount - old(self).reserved_balance(who)
            },
            final(self).reserved_balance(who) == old(self).reserved_balance(who) - (amount
                - leftover),
            final(self).free_balance(who) == saturated_free(
                old(self).free_balance(who),
                (amount - leftover) as nat,
            ),
            forall|a: u64|
                a != who ==> #[trigger] final(self).free_balance(a) == old(self).free_balance(a),
            forall|a: u64|
                a != who ==> #[trigger] final(self).reserved_balance(a) == old(
                    self,
                ).reserved_balance(a),
    ;
}

/// `post` is `pre` with `amount` moved from the free balance of `who` into
/// reserve, and every other account as it was.
pub open spec fn stake_reserved<T: Trait>(pre: T, post: T, who: u64, amount: u64) -> bool {
    &&& post.free_balance(who) == pre.free_balance(who) - amount
    &&& post.reserved_balance(who) == pre.reserved_balance(who) + amount
    &&& forall|a: u64| a != who ==> #[trigger] post.free_balance(a) == pre.free_balance(a)
    &&& forall|a: u64| a != who ==> #[trigger] post.reserved_balance(a) == pre.reserved_balance(a)
}

/// `post` holds the same balances as `pre` for every account.
pub open spec fn ledger_unchanged<T: Trait>(pre: T, post: T) -> bool {
    &&& forall|a: u64| #[trigger] post.free_balance(a) == pre.free_balance(a)
    &&& forall|a: u64| #[trigger] post.reserved_balance(a) == pre.reserved_balance(a)
}

/// A plain in-memory ledger of free and reserved balances.
pub struct Balances {
    free: HashMap<u64, u64>,
    reserved: HashMap<u64, u64>,
}

/// The balance that `m` records for `who`, zero where it records none.
pub open spec fn balance_in(m: Map<u64, u64>, who: u64) -> nat {
    if m.contains_key(who) {
        m[who] as nat
    } else {
        0
    }
}

impl Balances {
    /// An empty ledger: every account holds nothing.
    pub fn new() -> (r: Balances)
        ensures
            forall|a: u64| #[trigger] r.free_balance(a) == 0 && r.reserved_balance(a) == 0,
    {
        Balances { free: HashMap::new(), reserved: HashMap::new() }
    }

    /// Sets the free balance of `who`.
    pub fn set_balance(&mut self, who: u64, amount: u64)
        ensures
            final(self).free_balance(who) == amount,
            forall|a: u64| a != who ==> #[trigger] final(self).free_balance(a) == old(self).free_balance(a),
            forall|a: u64| #[trigger] final(self).reserved_balance(a) == old(self).reserved_balance(a),
    {
        self.free.insert(who, amount);
    }

    /// The free balance of `who`.
    pub fn free_of(&self, who: u64) -> (r: u64)
        ensures
            r == self.free_balance(who),
    {
        match self.free.get(&who) {
            Some(v) => *v,
            None => 0,
        }
    }

    /// The reserved balance of `who`.
    pub fn reserved_of(&self, who: u64) -> (r: u64)
        ensures
            r == self.reserved_balance(who),
    {
        match self.reserved.get(&who) {
            Some(v) => *v,
            None => 0,
        }
    }
}

impl Trait for Balances {
    closed spec fn free_balance(&self, who: u64) -> nat {
        balance_in(self.free@, who)
    }

    closed spec fn reserved_balance(&self, who: u64) -> nat {
        balance_in(self.reserved@, who)
    }

    fn reserve(&mut self, who: u64, amount: u64) -> (r: bool) {
        let free = self.free_of(who);
        let reserved = self.reserved_of(who);
        if free < amount || reserved > u64::MAX - amount {
            return false;
        }
        self.free.insert(who, free - amount);
        self.reserved.insert(who, reserved + amount);
        true
    }

    fn unreserve(&mut self, who: u64, amount: u64) -> (leftover: u64) {
        let free = self.free_of(who);
        let reserved = self.reserved_of(who);
        let moved: u64 = if reserved >= amount {
            amount
        } else {
            reserved
        };
        self.reserved.insert(who, reserved - moved);
        let new_free: u64 = if free > u64::MAX - moved {
            u64::MAX
        } else {
            free + moved
        };
        self.free.insert(who, new_free);
        amount - moved
    }
}

} // verus!
