//! The credit ledger: account balances and the running total supply.
//!
//! The balance set is a vector of `(account, balance)` pairs with unique
//! accounts; an account absent from the vector has an implicit balance of
//! zero. The well-formedness invariant ties the total supply to the sum of
//! all balances, which is the conservation law of the ledger.
use crate::AccountId;
use crate::Error;
use vstd::pervasive::VecAdditionalExecFns;
use vstd::prelude::*;

verus! {

/// An observable fact emitted by a ledger mutation, kept in the order the
/// mutations committed.
#[derive(Clone, Copy, Debug, PartialEq, Eq, Structural)]
pub enum TokenEvent {
    Minted { recipient: AccountId, amount: u128 },
    Transferred { sender: AccountId, recipient: AccountId, amount: u128 },
}

/// Persisted state of one ledger instance.
#[derive(Debug)]
pub struct TokenData {
    pub total_supply: u128,
    pub balances: Vec<(AccountId, u128)>,
}

/// One ledger instance: its persisted state plus the log of facts it has
/// emitted so far.
#[derive(Debug)]
pub struct TokenContract {
    pub data: TokenData,
    pub events: Vec<TokenEvent>,
}

/// Sum of the balances of a balance sequence.
pub open spec fn sum_of_balances(s: Seq<(AccountId, u128)>) -> int
    decreases s.len(),
{
    if s.len() == 0 {
        0
    } else {
        s.first().1 + sum_of_balances(s.drop_first())
    }
}

/// Balance of `account` in a balance sequence: the amount stored at its
/// first occurrence, or zero when it is absent.
pub open spec fn balance_in(s: Seq<(AccountId, u128)>, account: AccountId) -> u128
    decreases s.len(),
{
    if s.len() == 0 {
        0
    } else if s.first().0 == account {
        s.first().1
    } else {
        balance_in(s.drop_first(), account)
    }
}

/// No account occurs twice in the balance sequence.
pub open spec fn unique_accounts(s: Seq<(AccountId, u128)>) -> bool {
    forall|i: int, j: int| 0 <= i < j < s.len() ==> s[i].0 != s[j].0
}

/// `account` is absent from the balance sequence.
pub open spec fn absent_from(s: Seq<(AccountId, u128)>, account: AccountId) -> bool {
    forall|j: int| 0 <= j < s.len() ==> s[j].0 != account
}

proof fn lemma_sum_nonneg(s: Seq<(AccountId, u128)>)
    ensures
        sum_of_balances(s) >= 0,
    decreases s.len(),
{
    if s.len() > 0 {
        lemma_sum_nonneg(s.drop_first());
    }
}

/// An entry's balance is bounded by the sum of all balances.
proof fn lemma_entry_le_sum(s: Seq<(AccountId, u128)>, i: int)
    requires
        0 <= i < s.len(),
    ensures
        s[i].1 <= sum_of_balances(s),
    decreases s.len(),
{
    if i == 0 {
        lemma_sum_nonneg(s.drop_first());
    } else {
        lemma_entry_le_sum(s.drop_first(), i - 1);
    }
}

/// In a sequence with unique accounts, the balance of the account stored at
/// index `i` is exactly the amount stored there.
proof fn lemma_balance_at_index(s: Seq<(AccountId, u128)>, i: int)
    requires
        unique_accounts(s),
        0 <= i < s.len(),
    ensures
        balance_in(s, s[i].0) == s[i].1,
    decreases s.len(),
{
    if i > 0 {
        assert(s[0].0 != s[i].0);
        assert(s.drop_first()[i - 1] == s[i]);
        lemma_balance_at_index(s.drop_first(), i - 1);
    }
}

/// An absent account has balance zero.
proof fn lemma_balance_absent(s: Seq<(AccountId, u128)>, account: AccountId)
    requires
        absent_from(s, account),
    ensures
        balance_in(s, account) == 0,
    decreases s.len(),
{
    if s.len() > 0 {
        lemma_balance_absent(s.drop_first(), account);
    }
}

/// Replacing the amount stored at index `i` (keeping its account) moves the
/// sum by the difference and the account's balance to the new amount, while
/// every other account's balance and the uniqueness of accounts are kept.
proof fn lemma_update_amount(s: Seq<(AccountId, u128)>, i: int, v: u128)
    requires
        unique_accounts(s),
        0 <= i < s.len(),
    ensures
        unique_accounts(s.update(i, (s[i].0, v))),
        sum_of_balances(s.update(i, (s[i].0, v))) == sum_of_balances(s) - s[i].1 + v,
        balance_in(s.update(i, (s[i].0, v)), s[i].0) == v,
        forall|a: AccountId|
            a != s[i].0 ==> balance_in(s.update(i, (s[i].0, v)), a) == balance_in(s, a),
    decreases s.len(),
{
    let t = s.update(i, (s[i].0, v));
    assert(forall|k: int| 0 <= k < s.len() ==> t[k].0 == s[k].0);
    if i == 0 {
        assert(t.drop_first() =~= s.drop_first());
    } else {
        let u = s.drop_first();
        assert(unique_accounts(u)) by {
            assert forall|x: int, y: int| 0 <= x < y < u.len() implies u[x].0 != u[y].0 by {
                assert(u[x] == s[x + 1]);
                assert(u[y] == s[y + 1]);
            }
        };
        assert(t.first() == s.first());
        assert(u[i - 1] == s[i]);
        assert(t.drop_first() =~= u.update(i - 1, (s[i].0, v)));
        lemma_update_amount(u, i - 1, v);
        assert(sum_of_balances(t) == t.first().1 + sum_of_balances(t.drop_first()));
        assert(sum_of_balances(s) == s.first().1 + sum_of_balances(u));
        assert(s.first().0 != s[i].0);
        assert(balance_in(t, s[i].0) == balance_in(t.drop_first(), s[i].0));
        assert forall|a: AccountId| a != s[i].0 implies balance_in(t, a) == balance_in(s, a) by {
            if s.first().0 != a {
                assert(balance_in(t, a) == balance_in(t.drop_first(), a));
                assert(balance_in(s, a) == balance_in(u, a));
            }
        };
    }
}

/// Appending an entry for an absent account adds its amount to the sum,
/// gives that account exactly that balance, and leaves every other
/// account's balance and the uniqueness of accounts intact.
proof fn lemma_append_entry(s: Seq<(AccountId, u128)>, account: AccountId, v: u128)
    requires
        unique_accounts(s),
        absent_from(s, account),
    ensures
        unique_accounts(s.push((account, v))),
        sum_of_balances(s.push((account, v))) == sum_of_balances(s) + v,
        balance_in(s.push((account, v)), account) == v,
        forall|a: AccountId|
            a != account ==> balance_in(s.push((account, v)), a) == balance_in(s, a),
    decreases s.len(),
{
    let t = s.push((account, v));
    if s.len() == 0 {
        assert(t.drop_first() =~= Seq::<(AccountId, u128)>::empty());
        assert(sum_of_balances(t) == t.first().1 + sum_of_balances(t.drop_first()));
        assert forall|a: AccountId| a != account implies balance_in(t, a) == balance_in(s, a) by {
            assert(balance_in(t, a) == balance_in(t.drop_first(), a));
        };
    } else {
        let u = s.drop_first();
        assert(unique_accounts(u)) by {
            assert forall|x: int, y: int| 0 <= x < y < u.len() implies u[x].0 != u[y].0 by {
                assert(u[x] == s[x + 1]);
                assert(u[y] == s[y + 1]);
            }
        };
        assert(absent_from(u, account)) by {
            assert forall|j: int| 0 <= j < u.len() implies u[j].0 != account by {
                assert(u[j] == s[j + 1]);
            }
        };
        assert(t.first() == s.first());
        assert(t.drop_first() =~= u.push((account, v)));
        lemma_append_entry(u, account, v);
        assert(unique_accounts(t)) by {
            assert forall|x: int, y: int| 0 <= x < y < t.len() implies t[x].0 != t[y].0 by {
                if y < s.len() {
                    assert(t[x] == s[x]);
                    assert(t[y] == s[y]);
                } else {
                    assert(t[x] == s[x]);
                    assert(t[y].0 == account);
                }
            }
        };
        assert(sum_of_balances(t) == t.first().1 + sum_of_balances(t.drop_first()));
        assert(sum_of_balances(s) == s.first().1 + sum_of_balances(u));
        assert(s.first().0 != account);
        assert(balance_in(t, account) == balance_in(t.drop_first(), account));
        assert forall|a: AccountId| a != account implies balance_in(t, a) == balance_in(s, a) by {
            if s.first().0 != a {
                assert(balance_in(t, a) == balance_in(t.drop_first(), a));
                assert(balance_in(s, a) == balance_in(u, a));
            }
        };
    }
}

/// The balance of any account is bounded by the sum of all balances.
proof fn lemma_balance_le_sum(s: Seq<(AccountId, u128)>, account: AccountId)
    ensures
        balance_in(s, account) <= sum_of_balances(s),
    decreases s.len(),
{
    if s.len() == 0 {
    } else if s.first().0 == account {
        lemma_sum_nonneg(s.drop_first());
    } else {
        lemma_balance_le_sum(s.drop_first(), account);
    }
}

/// Conservation law: in every well-formed ledger state the total supply
/// equals the sum over all accounts of their balances. Every ledger
/// operation requires and re-establishes well-formedness, so this holds
/// after every sequence of mint, transfer and burn calls.
pub proof fn lemma_conservation(t: TokenContract)
    requires
        t.wf(),
    ensures
        sum_of_balances(t.balances()) == t.supply() as int,
{
}

/// Non-negativity law: in every well-formed ledger state each balance and
/// the total supply are non-negative, and no single balance exceeds the
/// total supply.
pub proof fn lemma_non_negativity(t: TokenContract, account: AccountId)
    requires
        t.wf(),
    ensures
        t.balance(account) >= 0,
        t.supply() >= 0,
        t.balance(account) <= t.supply(),
{
    lemma_balance_le_sum(t.balances(), account);
}

/// Index of the entry holding `account`, if one exists.
fn find_account(balances: &Vec<(AccountId, u128)>, account: AccountId) -> (r: Option<usize>)
    ensures
        match r {
            Some(i) => i < balances@.len() && balances@[i as int].0 == account,
            None => absent_from(balances@, account),
        },
{
    let n = balances.len();
    let mut i: usize = 0;
    while i < n
        invariant
            n == balances@.len(),
            i <= n,
            forall|j: int| 0 <= j < i ==> balances@[j].0 != account,
        decreases n - i,
    {
        if balances[i].0 == account {
            return Some(i);
        }
        i += 1;
    }
    None
}

impl TokenContract {
    /// Total supply of this ledger.
    pub open spec fn supply(self) -> u128 {
        self.data.total_supply
    }

    /// The balance sequence of this ledger.
    pub open spec fn balances(self) -> Seq<(AccountId, u128)> {
        self.data.balances@
    }

    /// Balance of `account`, zero when the account is unknown.
    pub open spec fn balance(self, account: AccountId) -> u128 {
        balance_in(self.balances(), account)
    }

    /// Facts emitted so far, in order.
    pub open spec fn log(self) -> Seq<TokenEvent> {
        self.events@
    }

    /// Well-formedness: accounts are unique and the total supply equals the
    /// sum of all balances (conservation).
    pub open spec fn wf(self) -> bool {
        &&& unique_accounts(self.balances())
        &&& sum_of_balances(self.balances()) == self.supply() as int
    }

    /// A fresh, empty ledger: no accounts, zero supply, no facts emitted.
    pub fn new() -> (r: TokenContract)
        ensures
            r.wf(),
            r.supply() == 0,
            r.balances() == Seq::<(AccountId, u128)>::empty(),
            r.log() == Seq::<TokenEvent>::empty(),
    {
        let r = TokenContract {
            data: TokenData { total_supply: 0, balances: Vec::new() },
            events: Vec::new(),
        };
        proof {
            assert(r.balances() =~= Seq::<(AccountId, u128)>::empty());
            assert(r.log() =~= Seq::<TokenEvent>::empty());
        }
        r
    }

    /// Total supply. A pure read: `self` is only borrowed.
    pub fn total_supply(&self) -> (r: u128)
        ensures
            r == self.supply(),
    {
        self.data.total_supply
    }

    /// Mint `amount` new credits to `recipient`, growing the total supply.
    ///
    /// Fails with `InvalidAmount` on a zero amount and with `Overflow` when
    /// the supply would exceed the representable range; a failed call
    /// leaves the state unchanged.
    pub fn mint(&mut self, recipient: AccountId, amount: u128) -> (r: Result<(), Error>)
        requires
            old(self).wf(),
        ensures
            final(self).wf(),
            r == (if amount == 0 {
                Err::<(), Error>(Error::InvalidAmount)
            } else if old(self).supply() + amount > u128::MAX {
                Err::<(), Error>(Error::Overflow)
            } else {
                Ok::<(), Error>(())
            }),
            r is Err ==> final(self).supply() == old(self).supply() && final(self).balances()
                == old(self).balances() && final(self).log() == old(self).log(),
            r is Ok ==> final(self).supply() == old(self).supply() + amount,
            r is Ok ==> final(self).balance(recipient) == old(self).balance(recipient) + amount,
            r is Ok ==> forall|a: AccountId|
                a != recipient ==> final(self).balance(a) == old(self).balance(a),
            r is Ok ==> final(self).log() == old(self).log().push(
                (TokenEvent::Minted { recipient, amount }),
            ),
    {
        if amount == 0 {
            return Err(Error::InvalidAmount);
        }
        if amount > u128::MAX - self.data.total_supply {
            return Err(Error::Overflow);
        }
        let ghost s0 = self.data.balances@;
        match find_account(&self.data.balances, recipient) {
            Some(i) => {
                proof {
                    lemma_balance_at_index(s0, i as int);
                    lemma_entry_le_sum(s0, i as int);
                }
                let prev = self.data.balances[i].1;
                self.data.balances.set(i, (recipient, prev + amount));
                proof {
                    lemma_update_amount(s0, i as int, (prev + amount) as u128);
                }
            },
            None => {
                proof {
                    lemma_balance_absent(s0, recipient);
                    lemma_append_entry(s0, recipient, amount);
                }
                self.data.balances.push((recipient, amount));
            },
        }
        self.data.total_supply = self.data.total_supply + amount;
        self.events.push(TokenEvent::Minted { recipient, amount });
        Ok(())
    }

    /// Move `amount` credits from `caller` to `recipient`. The total supply
    /// is never changed by a transfer.
    ///
    /// Fails with `InvalidAmount` on a zero amount and with
    /// `InsufficientBalance` when the caller's balance is too small; a
    /// failed call leaves every balance unchanged.
    pub fn transfer(&mut self, caller: AccountId, recipient: AccountId, amount: u128) -> (r:
        Result<(), Error>)
        requires
            old(self).wf(),
        ensures
            final(self).wf(),
            r == (if amount == 0 {
                Err::<(), Error>(Error::InvalidAmount)
            } else if old(self).balance(caller) < amount {
                Err::<(), Error>(Error::InsufficientBalance)
            } else {
                Ok::<(), Error>(())
            }),
            final(self).supply() == old(self).supply(),
            r is Err ==> final(self).balances() == old(self).balances() && final(self).log()
                == old(self).log(),
            r is Ok ==> forall|a: AccountId|
                final(self).balance(a) == old(self).balance(a) - (if a == caller {
                    amount as int
                } else {
                    0
                }) + (if a == recipient {
                    amount as int
                } else {
                    0
                }),
            r is Ok ==> final(self).log() == old(self).log().push(
                (TokenEvent::Transferred { sender: caller, recipient, amount }),
            ),
    {
        if amount == 0 {
            return Err(Error::InvalidAmount);
        }
        let ghost s0 = self.data.balances@;
        let i = match find_account(&self.data.balances, caller) {
            Some(i) => i,
            None => {
                proof {
                    lemma_balance_absent(s0, caller);
                }
                return Err(Error::InsufficientBalance);
            },
        };
        proof {
            lemma_balance_at_index(s0, i as int);
        }
        let caller_balance = self.data.balances[i].1;
        if caller_balance < amount {
            return Err(Error::InsufficientBalance);
        }
        self.data.balances.set(i, (caller, caller_balance - amount));
        proof {
            lemma_update_amount(s0, i as int, (caller_balance - amount) as u128);
        }
        let ghost s1 = self.data.balances@;
        match find_account(&self.data.balances, recipient) {
            Some(j) => {
                proof {
                    lemma_balance_at_index(s1, j as int);
                    lemma_entry_le_sum(s1, j as int);
                }
                let prev = self.data.balances[j].1;
                self.data.balances.set(j, (recipient, prev + amount));
                proof {
                    lemma_update_amount(s1, j as int, (prev + amount) as u128);
                }
            },
            None => {
                proof {
                    lemma_balance_absent(s1, recipient);
                    lemma_append_entry(s1, recipient, amount);
                }
                self.data.balances.push((recipient, amount));
            },
        }
        self.events.push(TokenEvent::Transferred { sender: caller, recipient, amount });
        Ok(())
    }

    /// Burn `amount` credits held by `holder`, removing them from
    /// circulation: the holder's balance and the total supply both shrink.
    ///
    /// Fails with `InvalidAmount` on a zero amount and with
    /// `InsufficientBalance` when the holder's balance is too small; a
    /// failed call leaves the state unchanged.
    pub fn burn(&mut self, holder: AccountId, amount: u128) -> (r: Result<(), Error>)
        requires
            old(self).wf(),
        ensures
            final(self).wf(),
            r == (if amount == 0 {
                Err::<(), Error>(Error::InvalidAmount)
            } else if old(self).balance(holder) < amount {
                Err::<(), Error>(Error::InsufficientBalance)
            } else {
                Ok::<(), Error>(())
            }),
            final(self).log() == old(self).log(),
            r is Err ==> final(self).supply() == old(self).supply() && final(self).balances()
                == old(self).balances(),
            r is Ok ==> final(self).supply() == old(self).supply() - amount,
            r is Ok ==> final(self).balance(holder) == old(self).balance(holder) - amount,
            r is Ok ==> forall|a: AccountId|
                a != holder ==> final(self).balance(a) == old(self).balance(a),
    {
        if amount == 0 {
            return Err(Error::InvalidAmount);
        }
        let ghost s0 = self.data.balances@;
        let i = match find_account(&self.data.balances, holder) {
            Some(i) => i,
            None => {
                proof {
                    lemma_balance_absent(s0, holder);
                }
                return Err(Error::InsufficientBalance);
            },
        };
        proof {
            lemma_balance_at_index(s0, i as int);
            lemma_entry_le_sum(s0, i as int);
        }
        let holder_balance = self.data.balances[i].1;
        if holder_balance < amount {
            return Err(Error::InsufficientBalance);
        }
        self.data.balances.set(i, (holder, holder_balance - amount));
        proof {
            lemma_update_amount(s0, i as int, (holder_balance - amount) as u128);
        }
        self.data.total_supply = self.data.total_supply - amount;
        Ok(())
    }

    /// Set up a fresh ledger whose whole initial supply is minted to
    /// `caller`. Fails with `InvalidAmount` when the initial supply is
    /// zero, as minting zero credits would.
    pub fn initialise(caller: AccountId, initial_supply: u128) -> (r: Result<
        TokenContract,
        Error,
    >)
        ensures
            initial_supply == 0 ==> r is Err && r->Err_0 == Error::InvalidAmount,
            initial_supply > 0 ==> r is Ok && {
                let t = r->Ok_0;
                &&& t.wf()
                &&& t.supply() == initial_supply
                &&& t.balance(caller) == initial_supply
                &&& forall|a: AccountId| a != caller ==> t.balance(a) == 0
                &&& t.log() == Seq::<TokenEvent>::empty().push(
                    (TokenEvent::Minted { recipient: caller, amount: initial_supply }),
                )
            },
    {
        let mut ledger = TokenContract::new();
        match ledger.mint(caller, initial_supply) {
            Ok(()) => Ok(ledger),
            Err(e) => Err(e),
        }
    }

    /// Balance of `account`, zero for an unknown account. A pure read.
    pub fn balance_of(&self, account: AccountId) -> (r: u128)
        requires
            self.wf(),
        ensures
            r == self.balance(account),
    {
        match find_account(&self.data.balances, account) {
            Some(i) => {
                proof {
                    lemma_balance_at_index(self.balances(), i as int);
                }
                self.data.balances[i].1
            },
            None => {
                proof {
                    lemma_balance_absent(self.balances(), account);
                }
                0
            },
        }
    }
}

} // verus!
