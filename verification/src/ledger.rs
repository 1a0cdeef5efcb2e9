//! Balances of the accounts and escrows that the marketplace moves funds
//! between, with the transfer rule of a currency whose existential deposit is
//! one unit: a transfer fails when the sender lacks the funds, when the
//! receiver's balance would overflow, or when a sender that must be kept
//! alive would be left with nothing.

use vstd::prelude::*;
use crate::milestone_id::MilestoneKey;
use crate::table::{unique_keys, seq_map, seq_has_key, lemma_seq_map_at, lemma_seq_map_update, lemma_seq_map_push};

verus! {

/// Identifier of a user's account.
pub type AccountId = u64;

/// An amount of the currency.
pub type Balance = u128;

/// Whoever can hold funds: a user's account or an escrow account.
#[derive(Clone, Copy, PartialEq, Eq, Structural, Debug)]
pub enum Holder {
    /// A user's own account.
    Account(AccountId),
    /// The escrow of a milestone, holding the publisher's cost and the bidders' stakes.
    MilestoneEscrow(MilestoneKey),
    /// The escrow of a task.
    TaskEscrow(u128),
}

impl crate::table::TableKey for Holder {
    fn same(&self, other: &Self) -> (b: bool) {
        *self == *other
    }
}

/// Whether the sender of a transfer must keep a non-zero balance.
#[derive(Clone, Copy, PartialEq, Eq, Structural, Debug)]
pub enum ExistenceRequirement {
    KeepAlive,
    AllowDeath,
}

/// Why a transfer was refused.
#[derive(Clone, Copy, PartialEq, Eq, Structural, Debug)]
pub enum TransferError {
    /// The sender holds less than the amount.
    InsufficientBalance,
    /// The receiver's balance would exceed the largest balance.
    Overflow,
    /// The sender must stay alive and would be left with nothing.
    KeepAlive,
}

/// Balance of `h` in a ledger view: zero where it holds nothing.
pub open spec fn balance_in(m: Map<Holder, Balance>, h: Holder) -> Balance {
    if m.contains_key(h) {
        m[h]
    } else {
        0
    }
}

/// What a transfer of `amount` from `from` to `to` does to the balances.
pub open spec fn transfer_result(
    m: Map<Holder, Balance>,
    from: Holder,
    to: Holder,
    amount: Balance,
    requirement: ExistenceRequirement,
) -> Result<Map<Holder, Balance>, TransferError> {
    if amount == 0 || from == to {
        Ok(m)
    } else if balance_in(m, from) < amount {
        Err(TransferError::InsufficientBalance)
    } else if balance_in(m, to) + amount > u128::MAX {
        Err(TransferError::Overflow)
    } else if requirement == ExistenceRequirement::KeepAlive && balance_in(m, from) == amount {
        Err(TransferError::KeepAlive)
    } else {
        Ok(
            m.insert(from, (balance_in(m, from) - amount) as Balance).insert(
                to,
                (balance_in(m, to) + amount) as Balance,
            ),
        )
    }
}

pub open spec fn amounts_sum(s: Seq<(Holder, Balance)>) -> int
    decreases s.len(),
{
    if s.len() == 0 {
        0
    } else {
        amounts_sum(s.drop_last()) + s.last().1
    }
}

proof fn lemma_amounts_sum_update(s: Seq<(Holder, Balance)>, i: int, x: (Holder, Balance))
    requires
        0 <= i < s.len(),
    ensures
        amounts_sum(s.update(i, x)) == amounts_sum(s) - s[i].1 + x.1,
    decreases s.len(),
{
    let t = s.update(i, x);
    if i == s.len() - 1 {
        assert(t.drop_last() =~= s.drop_last());
    } else {
        lemma_amounts_sum_update(s.drop_last(), i, x);
        assert(t.drop_last() =~= s.drop_last().update(i, x));
    }
}

proof fn lemma_amounts_sum_push(s: Seq<(Holder, Balance)>, x: (Holder, Balance))
    ensures
        amounts_sum(s.push(x)) == amounts_sum(s) + x.1,
{
    assert(s.push(x).drop_last() =~= s);
}

/// The balances of all holders.
pub struct Ledger {
    entries: Vec<(Holder, Balance)>,
}

impl View for Ledger {
    type V = Map<Holder, Balance>;

    closed spec fn view(&self) -> Map<Holder, Balance> {
        seq_map(self.entries@)
    }
}

impl Ledger {
    #[verifier::type_invariant]
    closed spec fn holders_distinct(self) -> bool {
        unique_keys(self.entries@)
    }

    /// The sum of all balances.
    pub closed spec fn total(&self) -> int {
        amounts_sum(self.entries@)
    }

    /// A ledger in which nobody holds anything.
    pub fn new() -> (l: Self)
        ensures
            l@ == Map::<Holder, Balance>::empty(),
            l.total() == 0,
    {
        let l = Ledger { entries: Vec::new() };
        assert(l@ =~= Map::<Holder, Balance>::empty());
        l
    }

    /// A copy of the ledger.
    pub fn duplicate(&self) -> (l: Self)
        ensures
            l@ == self@,
            l.total() == self.total(),
    {
        proof {
            use_type_invariant(self);
        }
        let mut entries: Vec<(Holder, Balance)> = Vec::new();
        let mut i: usize = 0;
        while i < self.entries.len()
            invariant
                i <= self.entries@.len(),
                entries@ == self.entries@.take(i as int),
            decreases self.entries@.len() - i,
        {
            entries.push(self.entries[i]);
            assert(self.entries@.take(i + 1) =~= self.entries@.take(i as int).push(self.entries@[i as int]));
            i = i + 1;
        }
        assert(self.entries@.take(i as int) =~= self.entries@);
        Ledger { entries }
    }

    fn find(&self, h: Holder) -> (r: Option<usize>)
        ensures
            match r {
                Some(i) => i < self.entries@.len() && self.entries@[i as int].0 == h,
                None => !seq_has_key(self.entries@, h),
            },
    {
        let mut i: usize = 0;
        while i < self.entries.len()
            invariant
                i <= self.entries@.len(),
                forall|j: int| 0 <= j < i ==> self.entries@[j].0 != h,
            decreases self.entries@.len() - i,
        {
            if self.entries[i].0 == h {
                return Some(i);
            }
            i = i + 1;
        }
        None
    }

    /// The funds `h` holds.
    pub fn free_balance(&self, h: Holder) -> (b: Balance)
        ensures
            b == balance_in(self@, h),
    {
        proof {
            use_type_invariant(self);
        }
        match self.find(h) {
            Some(i) => {
                proof {
                    lemma_seq_map_at(self.entries@, i as int);
                }
                self.entries[i].1
            },
            None => 0,
        }
    }

    /// The funds `h` holds; nothing is reserved or locked in this ledger, so
    /// this is the free balance.
    pub fn total_balance(&self, h: Holder) -> (b: Balance)
        ensures
            b == balance_in(self@, h),
    {
        self.free_balance(h)
    }

    /// Sets the balance of `h`.
    fn set_balance(&mut self, h: Holder, amount: Balance)
        ensures
            final(self)@ == old(self)@.insert(h, amount),
            final(self).total() == old(self).total() - balance_in(old(self)@, h) + amount,
    {
        proof {
            use_type_invariant(&*self);
        }
        match self.find(h) {
            Some(i) => {
                proof {
                    lemma_seq_map_at(self.entries@, i as int);
                    lemma_seq_map_update(self.entries@, i as int, amount);
                    lemma_amounts_sum_update(self.entries@, i as int, (h, amount));
                }
                let mut entries: Vec<(Holder, Balance)> = Vec::new();
                std::mem::swap(&mut entries, &mut self.entries);
                entries.set(i, (h, amount));
                self.entries = entries;
            },
            None => {
                proof {
                    lemma_seq_map_push(self.entries@, h, amount);
                    lemma_amounts_sum_push(self.entries@, (h, amount));
                }
                let mut entries: Vec<(Holder, Balance)> = Vec::new();
                std::mem::swap(&mut entries, &mut self.entries);
                entries.push((h, amount));
                self.entries = entries;
            },
        }
    }

    /// Credits `amount` to `h` out of nothing, as an endowment does.
    pub fn deposit_creating(&mut self, h: Holder, amount: Balance) -> (r: Result<(), TransferError>)
        ensures
            r is Err <==> balance_in(old(self)@, h) + amount > u128::MAX,
            r is Err ==> *final(self) == *old(self),
            r is Ok ==> final(self)@ == old(self)@.insert(h, (balance_in(old(self)@, h) + amount) as Balance),
            r is Ok ==> final(self).total() == old(self).total() + amount,
    {
        let b = self.free_balance(h);
        match b.checked_add(amount) {
            None => Err(TransferError::Overflow),
            Some(nb) => {
                self.set_balance(h, nb);
                Ok(())
            },
        }
    }

    /// Moves `amount` from `from` to `to`.
    pub fn transfer(
        &mut self,
        from: Holder,
        to: Holder,
        amount: Balance,
        requirement: ExistenceRequirement,
    ) -> (r: Result<(), TransferError>)
        ensures
            match transfer_result(old(self)@, from, to, amount, requirement) {
                Ok(m) => r is Ok && final(self)@ == m,
                Err(e) => r == Err::<(), TransferError>(e) && *final(self) == *old(self),
            },
            final(self).total() == old(self).total(),
    {
        if amount == 0 || from == to {
            return Ok(());
        }
        let from_balance = self.free_balance(from);
        if from_balance < amount {
            return Err(TransferError::InsufficientBalance);
        }
        let to_balance = self.free_balance(to);
        if to_balance > u128::MAX - amount {
            return Err(TransferError::Overflow);
        }
        if requirement == ExistenceRequirement::KeepAlive && from_balance == amount {
            return Err(TransferError::KeepAlive);
        }
        self.set_balance(from, from_balance - amount);
        proof {
            assert(balance_in(self@, to) == to_balance);
        }
        self.set_balance(to, to_balance + amount);
        Ok(())
    }
}

} // verus!
