//! The balance store: a sparse table from account identifiers to amounts,
//! together with the owner's distinguished account.
//!
//! Amounts are non-negative integers counted in the smallest token unit
//! (e8s, 1e-8 of a token). Absence of a key means a zero balance.

use vstd::prelude::*;

verus! {

use vstd::pervasive::VecAdditionalExecFns;

use crate::account::{account_id_of, account_identifier, default_subaccount, zero_subaccount,
    AccountId};

/// The receipt acknowledging a successfully applied transfer. A full ledger
/// would assign a monotonically increasing block index; this core returns the
/// placeholder index zero.
pub type BlockIndex = u64;

/// Why a wallet operation was rejected. Every rejection leaves the store
/// exactly as it was.
#[derive(Clone, Copy, Debug, PartialEq, Eq, Structural)]
pub enum WalletError {
    /// The sender's balance is smaller than the requested transfer amount.
    InsufficientBalance,
    /// A balance addition would exceed the representable range.
    Overflow,
    /// An input fails basic validity constraints before any lookup occurs.
    MalformedInput,
}

/// The balance of `a` in the table `entries`: the value of the first entry
/// whose key is `a`, or zero when no entry has that key.
spec fn balance_in(entries: Seq<(AccountId, u64)>, a: Seq<u8>) -> u64
    decreases entries.len(),
{
    if entries.len() == 0 {
        0
    } else if entries.first().0@ == a {
        entries.first().1
    } else {
        balance_in(entries.drop_first(), a)
    }
}

/// The sum of all amounts stored in the table `entries`.
spec fn total_of(entries: Seq<(AccountId, u64)>) -> int
    decreases entries.len(),
{
    if entries.len() == 0 {
        0
    } else {
        entries.first().1 + total_of(entries.drop_first())
    }
}

/// No two entries of `entries` share a key.
pub open spec fn distinct_keys(entries: Seq<(AccountId, u64)>) -> bool {
    forall|i: int, j: int|
        0 <= i < j < entries.len() ==> entries[i].0@ != entries[j].0@
}

/// A balance table with a distinguished owner account.
pub struct WalletState {
    owner: AccountId,
    entries: Vec<(AccountId, u64)>,
}

impl WalletState {
    /// The owner's account identifier.
    pub closed spec fn owner_id(self) -> Seq<u8> {
        self.owner@
    }

    /// The balance of account `a`; zero when `a` was never stored.
    pub closed spec fn balance(self, a: Seq<u8>) -> u64 {
        balance_in(self.entries@, a)
    }

    /// The sum of all balances held in the table.
    pub closed spec fn total(self) -> int {
        total_of(self.entries@)
    }

    /// Well-formedness: the table never stores two entries for one account.
    pub closed spec fn wf(self) -> bool {
        distinct_keys(self.entries@)
    }

    /// Creates a store with the given owner and an empty table.
    pub fn new(owner: AccountId) -> (s: WalletState)
        ensures
            s.wf(),
            s.owner_id() == owner@,
            forall|a: Seq<u8>| #[trigger] s.balance(a) == 0,
            s.total() == 0,
    {
        WalletState { owner, entries: Vec::new() }
    }

    /// The index of the entry holding `account`, if the table has one.
    fn find_index(&self, account: &AccountId) -> (r: Option<usize>)
        ensures
            match r {
                Some(i) => i < self.entries@.len() && self.entries@[i as int].0@ == account@
                    && forall|j: int| 0 <= j < i ==> self.entries@[j].0@ != account@,
                None => forall|j: int|
                    0 <= j < self.entries@.len() ==> self.entries@[j].0@ != account@,
            },
    {
        let mut i: usize = 0;
        while i < self.entries.len()
            invariant
                i <= self.entries@.len(),
                forall|j: int| 0 <= j < i ==> self.entries@[j].0@ != account@,
            decreases self.entries@.len() - i,
        {
            if self.entries[i].0 == *account {
                return Some(i);
            }
            i = i + 1;
        }
        None
    }

    /// Returns the stored amount for `account`, or zero if absent.
    /// A pure read: the store is untouched.
    pub fn get_balance(&self, account: &AccountId) -> (r: u64)
        ensures
            r == self.balance(account@),
    {
        match self.find_index(account) {
            Some(i) => {
                proof {
                    lemma_balance_first_match(self.entries@, account@, i as int);
                }
                self.entries[i].1
            },
            None => {
                proof {
                    lemma_balance_absent(self.entries@, account@);
                }
                0
            },
        }
    }

    /// Stores `v` as the balance of `account`, leaving every other balance
    /// and the owner untouched.
    fn set_balance(&mut self, account: &AccountId, v: u64)
        requires
            old(self).wf(),
        ensures
            final(self).wf(),
            final(self).owner_id() == old(self).owner_id(),
            final(self).balance(account@) == v,
            forall|b: Seq<u8>|
                b != account@ ==> #[trigger] final(self).balance(b) == old(self).balance(b),
            final(self).total() == old(self).total() - old(self).balance(account@) + v,
    {
        let ghost pre = self.entries@;
        match self.find_index(account) {
            Some(i) => {
                let key = self.entries[i].0;
                proof {
                    lemma_balance_first_match(pre, account@, i as int);
                }
                self.entries.set(i, (key, v));
                proof {
                    lemma_balance_update_hit(pre, i as int, v);
                    lemma_total_update(pre, i as int, v);
                    assert forall|b: Seq<u8>| b != account@ implies #[trigger] self.balance(b)
                        == old(self).balance(b) by {
                        lemma_balance_update_other(pre, i as int, v, b);
                    };
                    assert forall|p: int, q: int|
                        0 <= p < q < self.entries@.len() implies self.entries@[p].0@
                        != self.entries@[q].0@ by {
                        assert(self.entries@[p].0 == pre[p].0);
                        assert(self.entries@[q].0 == pre[q].0);
                    };
                }
            },
            None => {
                self.entries.push((*account, v));
                proof {
                    let e = (*account, v);
                    lemma_balance_absent(pre, account@);
                    lemma_balance_push_new(pre, e);
                    lemma_total_push(pre, e);
                    assert forall|b: Seq<u8>| b != account@ implies #[trigger] self.balance(b)
                        == old(self).balance(b) by {
                        lemma_balance_push_other(pre, e, b);
                    };
                    assert forall|p: int, q: int|
                        0 <= p < q < self.entries@.len() implies self.entries@[p].0@
                        != self.entries@[q].0@ by {
                        if q < pre.len() {
                            assert(self.entries@[p].0 == pre[p].0);
                            assert(self.entries@[q].0 == pre[q].0);
                        } else {
                            assert(self.entries@[p].0 == pre[p].0);
                            assert(self.entries@[q].0 == e.0);
                        }
                    };
                }
            },
        }
    }

    /// Moves `amount` from the owner's account to `to`, both mutations in one
    /// atomic step, and acknowledges success with a receipt. A transfer that
    /// the owner's balance cannot cover is rejected with
    /// [`WalletError::InsufficientBalance`]; one that would push the
    /// recipient's balance past the representable range is rejected with
    /// [`WalletError::Overflow`]. A rejected transfer leaves the store
    /// exactly as it was. A self-transfer succeeds and nets to zero.
    pub fn transfer(&mut self, to: &AccountId, amount: u64) -> (r: Result<BlockIndex, WalletError>)
        requires
            old(self).wf(),
        ensures
            final(self).wf(),
            r is Ok <==> transfer_allowed(*old(self), to@, amount),
            r is Ok ==> r == Ok::<BlockIndex, WalletError>(0)
                && transfer_applied(*old(self), *final(self), to@, amount),
            r == Err::<BlockIndex, WalletError>(WalletError::InsufficientBalance)
                <==> old(self).balance(old(self).owner_id()) < amount,
            r == Err::<BlockIndex, WalletError>(WalletError::Overflow)
                <==> (old(self).balance(old(self).owner_id()) >= amount
                    && to@ != old(self).owner_id()
                    && old(self).balance(to@) + amount > u64::MAX),
            r is Err ==> *final(self) == *old(self),
    {
        let owner = self.owner;
        let sender_balance = self.get_balance(&owner);
        if sender_balance < amount {
            return Err(WalletError::InsufficientBalance);
        }
        if *to == owner {
            return Ok(0);
        }
        let recipient_balance = self.get_balance(to);
        if recipient_balance > u64::MAX - amount {
            return Err(WalletError::Overflow);
        }
        self.set_balance(&owner, sender_balance - amount);
        self.set_balance(to, recipient_balance + amount);
        Ok(0)
    }

    /// Records a credit of `amount` to the owner's account, reflecting value
    /// received from an external source. A credit that would push the
    /// owner's balance past the representable range is rejected with
    /// [`WalletError::Overflow`] and leaves the store exactly as it was.
    pub fn receive_tokens(&mut self, amount: u64) -> (r: Result<(), WalletError>)
        requires
            old(self).wf(),
        ensures
            final(self).wf(),
            final(self).owner_id() == old(self).owner_id(),
            r is Ok <==> old(self).balance(old(self).owner_id()) + amount <= u64::MAX,
            r is Ok ==> final(self).balance(old(self).owner_id())
                == old(self).balance(old(self).owner_id()) + amount,
            r is Ok ==> forall|a: Seq<u8>|
                a != old(self).owner_id() ==> #[trigger] final(self).balance(a)
                    == old(self).balance(a),
            r is Ok ==> final(self).total() == old(self).total() + amount,
            r is Err ==> r == Err::<(), WalletError>(WalletError::Overflow)
                && *final(self) == *old(self),
    {
        let owner = self.owner;
        let current_balance = self.get_balance(&owner);
        if current_balance > u64::MAX - amount {
            return Err(WalletError::Overflow);
        }
        self.set_balance(&owner, current_balance + amount);
        Ok(())
    }

    /// The owner's account identifier.
    pub fn owner_account(&self) -> (r: AccountId)
        ensures
            r@ == self.owner_id(),
    {
        self.owner
    }

    /// A plain snapshot of the table, for a host that persists and restores
    /// the store: one pair per stored account, each carrying that account's
    /// balance, no key twice, and no account with a nonzero balance missing.
    pub fn snapshot(&self) -> (r: Vec<(AccountId, u64)>)
        requires
            self.wf(),
        ensures
            distinct_keys(r@),
            forall|i: int| 0 <= i < r@.len() ==> #[trigger] r@[i].1 == self.balance(r@[i].0@),
            forall|a: Seq<u8>|
                self.balance(a) != 0 ==> exists|i: int|
                    0 <= i < r@.len() && #[trigger] r@[i].0@ == a,
    {
        let mut out: Vec<(AccountId, u64)> = Vec::new();
        let mut i: usize = 0;
        while i < self.entries.len()
            invariant
                i <= self.entries@.len(),
                out@ == self.entries@.subrange(0, i as int),
            decreases self.entries@.len() - i,
        {
            let e = self.entries[i];
            out.push(e);
            proof {
                assert(out@ =~= self.entries@.subrange(0, i + 1));
            }
            i = i + 1;
        }
        proof {
            assert(out@ =~= self.entries@);
            assert forall|k: int| 0 <= k < out@.len() implies #[trigger] out@[k].1 == self.balance(
                out@[k].0@,
            ) by {
                lemma_balance_first_match(self.entries@, self.entries@[k].0@, k);
            };
            assert forall|a: Seq<u8>| self.balance(a) != 0 implies exists|k: int|
                0 <= k < out@.len() && #[trigger] out@[k].0@ == a by {
                if forall|k: int| 0 <= k < out@.len() ==> #[trigger] out@[k].0@ != a {
                    lemma_balance_absent(self.entries@, a);
                }
            };
        }
        out
    }

    /// Creates a store for the principal with the given bytes: the owner is
    /// the principal's default account (all-zero subaccount) and the table
    /// starts empty. A principal longer than 29 bytes is rejected as
    /// malformed.
    pub fn for_principal(principal: &Vec<u8>) -> (r: Result<WalletState, WalletError>)
        ensures
            r is Ok <==> principal@.len() <= 29,
            r matches Ok(s) ==> s.wf() && s.owner_id() == account_id_of(
                principal@,
                zero_subaccount(),
            ) && (forall|a: Seq<u8>| #[trigger] s.balance(a) == 0) && s.total() == 0,
            r matches Err(e) ==> e == WalletError::MalformedInput,
    {
        let sub = default_subaccount();
        match account_identifier(principal, &sub) {
            Ok(owner) => Ok(WalletState::new(owner)),
            Err(e) => Err(e),
        }
    }
}

/// A transfer of `amount` from the owner of `pre` to `to` must succeed: the
/// owner's balance covers the amount, and crediting the recipient stays
/// representable (a self-transfer nets to zero and cannot overflow).
pub open spec fn transfer_allowed(pre: WalletState, to: Seq<u8>, amount: u64) -> bool {
    &&& pre.balance(pre.owner_id()) >= amount
    &&& (to == pre.owner_id() || pre.balance(to) + amount <= u64::MAX)
}

/// What a successful transfer of `amount` to `to` does to the store: the
/// owner is debited and the recipient credited in one atomic step, every
/// other balance is untouched, the owner identity is kept, and the total held
/// in the table is conserved.
pub open spec fn transfer_applied(
    pre: WalletState,
    post: WalletState,
    to: Seq<u8>,
    amount: u64,
) -> bool {
    &&& post.owner_id() == pre.owner_id()
    &&& if to == pre.owner_id() {
        forall|a: Seq<u8>| #[trigger] post.balance(a) == pre.balance(a)
    } else {
        &&& post.balance(pre.owner_id()) == pre.balance(pre.owner_id()) - amount
        &&& post.balance(to) == pre.balance(to) + amount
        &&& forall|a: Seq<u8>|
            a != pre.owner_id() && a != to ==> #[trigger] post.balance(a) == pre.balance(a)
    }
    &&& post.total() == pre.total()
}

/// Replacing the amount of the entry at `i` sets the balance of that entry's
/// key, provided no earlier entry shares the key.
proof fn lemma_balance_update_hit(entries: Seq<(AccountId, u64)>, i: int, v: u64)
    requires
        0 <= i < entries.len(),
        forall|j: int| 0 <= j < i ==> entries[j].0@ != entries[i].0@,
    ensures
        balance_in(entries.update(i, (entries[i].0, v)), entries[i].0@) == v,
    decreases i,
{
    let t = entries.update(i, (entries[i].0, v));
    if i == 0 {
        assert(t.first() == (entries[i].0, v));
    } else {
        assert(t.first() == entries.first());
        assert(t.drop_first() =~= entries.drop_first().update(i - 1, (entries[i].0, v)));
        lemma_balance_update_hit(entries.drop_first(), i - 1, v);
    }
}

/// Replacing the amount of the entry at `i` leaves every other key's balance
/// as it was.
proof fn lemma_balance_update_other(entries: Seq<(AccountId, u64)>, i: int, v: u64, b: Seq<u8>)
    requires
        0 <= i < entries.len(),
        b != entries[i].0@,
    ensures
        balance_in(entries.update(i, (entries[i].0, v)), b) == balance_in(entries, b),
    decreases entries.len(),
{
    let t = entries.update(i, (entries[i].0, v));
    if i == 0 {
        assert(t.first() == (entries[i].0, v));
        assert(t.drop_first() =~= entries.drop_first());
    } else {
        assert(t.first() == entries.first());
        if entries.first().0@ != b {
            assert(t.drop_first() =~= entries.drop_first().update(i - 1, (entries[i].0, v)));
            lemma_balance_update_other(entries.drop_first(), i - 1, v, b);
        }
    }
}

/// Replacing the amount of the entry at `i` changes the table's total by the
/// difference of the new and old amounts.
proof fn lemma_total_update(entries: Seq<(AccountId, u64)>, i: int, v: u64)
    requires
        0 <= i < entries.len(),
    ensures
        total_of(entries.update(i, (entries[i].0, v))) == total_of(entries) - entries[i].1 + v,
    decreases i,
{
    let t = entries.update(i, (entries[i].0, v));
    if i == 0 {
        assert(t.first() == (entries[i].0, v));
        assert(t.drop_first() =~= entries.drop_first());
    } else {
        assert(t.first() == entries.first());
        assert(t.drop_first() =~= entries.drop_first().update(i - 1, (entries[i].0, v)));
        lemma_total_update(entries.drop_first(), i - 1, v);
    }
}

/// Appending an entry whose key the table lacks sets that key's balance to
/// the appended amount.
proof fn lemma_balance_push_new(entries: Seq<(AccountId, u64)>, e: (AccountId, u64))
    requires
        forall|j: int| 0 <= j < entries.len() ==> entries[j].0@ != e.0@,
    ensures
        balance_in(entries.push(e), e.0@) == e.1,
    decreases entries.len(),
{
    let t = entries.push(e);
    if entries.len() == 0 {
        assert(t.first() == e);
    } else {
        assert(t.first() == entries.first());
        assert(t.drop_first() =~= entries.drop_first().push(e));
        lemma_balance_push_new(entries.drop_first(), e);
    }
}

/// Appending an entry leaves every other key's balance as it was.
proof fn lemma_balance_push_other(entries: Seq<(AccountId, u64)>, e: (AccountId, u64), b: Seq<u8>)
    requires
        b != e.0@,
    ensures
        balance_in(entries.push(e), b) == balance_in(entries, b),
    decreases entries.len(),
{
    let t = entries.push(e);
    if entries.len() == 0 {
        assert(t.first() == e);
        assert(t.drop_first() =~= entries);
    } else {
        assert(t.first() == entries.first());
        if entries.first().0@ != b {
            assert(t.drop_first() =~= entries.drop_first().push(e));
            lemma_balance_push_other(entries.drop_first(), e, b);
        }
    }
}

/// Appending an entry grows the table's total by the appended amount.
proof fn lemma_total_push(entries: Seq<(AccountId, u64)>, e: (AccountId, u64))
    ensures
        total_of(entries.push(e)) == total_of(entries) + e.1,
    decreases entries.len(),
{
    let t = entries.push(e);
    if entries.len() == 0 {
        assert(t.first() == e);
        assert(t.drop_first() =~= entries);
    } else {
        assert(t.first() == entries.first());
        assert(t.drop_first() =~= entries.drop_first().push(e));
        lemma_total_push(entries.drop_first(), e);
    }
}

/// Conservation: across any chain of states linked by successful transfers,
/// the total held in the table never changes.
pub proof fn lemma_transfer_chain_conserves_total(
    states: Seq<WalletState>,
    tos: Seq<Seq<u8>>,
    amounts: Seq<u64>,
)
    requires
        states.len() >= 1,
        tos.len() == states.len() - 1,
        amounts.len() == states.len() - 1,
        forall|i: int|
            0 <= i < states.len() - 1 ==> #[trigger] transfer_applied(
                states[i],
                states[i + 1],
                tos[i],
                amounts[i],
            ),
    ensures
        forall|i: int| 0 <= i < states.len() ==> #[trigger] states[i].total() == states[0].total(),
{
    assert forall|i: int| 0 <= i < states.len() implies #[trigger] states[i].total()
        == states[0].total() by {
        lemma_total_constant_upto(states, tos, amounts, i);
    };
}

/// The total of the state at index `i` of a transfer chain equals the total
/// of the initial state.
proof fn lemma_total_constant_upto(
    states: Seq<WalletState>,
    tos: Seq<Seq<u8>>,
    amounts: Seq<u64>,
    i: int,
)
    requires
        0 <= i < states.len(),
        tos.len() == states.len() - 1,
        amounts.len() == states.len() - 1,
        forall|j: int|
            0 <= j < states.len() - 1 ==> #[trigger] transfer_applied(
                states[j],
                states[j + 1],
                tos[j],
                amounts[j],
            ),
    ensures
        states[i].total() == states[0].total(),
    decreases i,
{
    if i > 0 {
        lemma_total_constant_upto(states, tos, amounts, i - 1);
        let j = i - 1;
        assert(transfer_applied(states[j], states[j + 1], tos[j], amounts[j]));
    }
}

/// No negative balances: every balance a store reports is a non-negative
/// amount, whatever the account.
pub proof fn lemma_balance_nonnegative(s: WalletState, a: Seq<u8>)
    ensures
        s.balance(a) >= 0,
{
}

/// Self-transfer neutrality: a successful transfer from the owner to the
/// owner leaves every balance, the owner's included, unchanged.
pub proof fn lemma_self_transfer_neutral(
    pre: WalletState,
    post: WalletState,
    amount: u64,
)
    requires
        transfer_applied(pre, post, pre.owner_id(), amount),
    ensures
        forall|a: Seq<u8>| #[trigger] post.balance(a) == pre.balance(a),
        post.balance(pre.owner_id()) == pre.balance(pre.owner_id()),
{
}

/// Idempotent reads: two reads of the same account on the same state agree,
/// since a read reports exactly the stored balance and mutates nothing.
pub proof fn lemma_reads_idempotent(s: WalletState, a: Seq<u8>, r1: u64, r2: u64)
    requires
        r1 == s.balance(a),
        r2 == s.balance(a),
    ensures
        r1 == r2,
{
}

/// When the first entry for `a` stands at index `i`, the balance of `a` is
/// that entry's amount.
proof fn lemma_balance_first_match(entries: Seq<(AccountId, u64)>, a: Seq<u8>, i: int)
    requires
        0 <= i < entries.len(),
        entries[i].0@ == a,
        forall|j: int| 0 <= j < i ==> entries[j].0@ != a,
    ensures
        balance_in(entries, a) == entries[i].1,
    decreases i,
{
    if i > 0 {
        lemma_balance_first_match(entries.drop_first(), a, i - 1);
    }
}

/// When no entry holds `a`, the balance of `a` is zero.
proof fn lemma_balance_absent(entries: Seq<(AccountId, u64)>, a: Seq<u8>)
    requires
        forall|j: int| 0 <= j < entries.len() ==> entries[j].0@ != a,
    ensures
        balance_in(entries, a) == 0,
    decreases entries.len(),
{
    if entries.len() > 0 {
        lemma_balance_absent(entries.drop_first(), a);
    }
}

} // verus!
