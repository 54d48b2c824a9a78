//! The wallet store: every account keyed by its derived id, and one
//! subaccount counter per environment.

use vstd::prelude::*;

use crate::account::WalletAccount;
use crate::errors::WalletError;
use crate::subaccount::{derived_seq, Environment, Subaccount};

verus! {

/// One subaccount counter per environment: the nonce the next account in
/// that environment receives.
#[derive(Clone, Copy, PartialEq, Eq, Structural, Debug)]
pub struct WalletAccountsNonce {
    pub development: u64,
    pub production: u64,
    pub staging: u64,
}

impl WalletAccountsNonce {
    pub fn new() -> (r: WalletAccountsNonce)
        ensures
            r.development == 0 && r.production == 0 && r.staging == 0,
    {
        WalletAccountsNonce { development: 0, production: 0, staging: 0 }
    }

    /// The counter for an environment.
    pub open spec fn spec_account(&self, environment: Environment) -> u64 {
        match environment {
            Environment::Production => self.production,
            Environment::Staging => self.staging,
            Environment::Development => self.development,
        }
    }

    pub fn account(&self, environment: Environment) -> (r: u64)
        ensures
            r == self.spec_account(environment),
    {
        match environment {
            Environment::Production => self.production,
            Environment::Staging => self.staging,
            Environment::Development => self.development,
        }
    }

    /// Advances the counter for an environment by one.
    pub fn increment(&mut self, environment: Environment)
        requires
            old(self).spec_account(environment) < u64::MAX,
        ensures
            final(self).spec_account(environment) == old(self).spec_account(environment) + 1,
            forall|e: Environment|
                e != environment ==> final(self).spec_account(e) == old(self).spec_account(e),
    {
        match environment {
            Environment::Production => {
                self.production = self.production + 1;
            },
            Environment::Staging => {
                self.staging = self.staging + 1;
            },
            Environment::Development => {
                self.development = self.development + 1;
            },
        }
    }
}

/// Whether some account carries the given id.
pub open spec fn contains_account(s: Seq<WalletAccount>, id: Seq<char>) -> bool {
    exists|i: int| 0 <= i < s.len() && s[i].id@ == id
}

/// The index of the account carrying the given id.
pub open spec fn index_of_account(s: Seq<WalletAccount>, id: Seq<char>) -> int {
    choose|i: int| 0 <= i < s.len() && s[i].id@ == id
}

/// A mutable borrow of one stored account.
fn account_mut(v: &mut Vec<WalletAccount>, i: usize) -> (e: &mut WalletAccount)
    requires
        i < old(v)@.len(),
    ensures
        *e == old(v)@[i as int],
        final(v)@ == old(v)@.update(i as int, *final(e)),
{
    &mut v[i]
}

/// The wallet store: accounts with unique ids, and the per-environment
/// subaccount counters.
#[derive(Debug)]
pub struct WalletState {
    pub accounts: Vec<WalletAccount>,
    pub counters: WalletAccountsNonce,
}

impl WalletState {
    /// Well-formed: ids are unique and every account is well formed.
    pub open spec fn wf(&self) -> bool {
        &&& forall|i: int, j: int|
            0 <= i < j < self.accounts@.len() ==> self.accounts@[i].id@ != self.accounts@[j].id@
        &&& forall|i: int| 0 <= i < self.accounts@.len() ==> #[trigger] self.accounts@[i].wf()
    }

    /// The stored account with the given id, if any.
    pub open spec fn spec_account(&self, id: Seq<char>) -> Option<WalletAccount> {
        if contains_account(self.accounts@, id) {
            Some(self.accounts@[index_of_account(self.accounts@, id)])
        } else {
            None
        }
    }

    /// Any stored account carrying an id is the one `spec_account` reads.
    pub proof fn lemma_id_pins_account(&self, id: Seq<char>, i: int)
        requires
            self.wf(),
            0 <= i < self.accounts@.len(),
            self.accounts@[i].id@ == id,
        ensures
            contains_account(self.accounts@, id),
            index_of_account(self.accounts@, id) == i,
            self.spec_account(id) == Some(self.accounts@[i]),
    {
        assert(contains_account(self.accounts@, id));
        let j = index_of_account(self.accounts@, id);
        if j != i {
            if j < i {
                assert(self.accounts@[j].id@ != self.accounts@[i].id@);
            } else {
                assert(self.accounts@[i].id@ != self.accounts@[j].id@);
            }
        }
    }

    /// An empty store with zeroed counters.
    pub fn new() -> (r: WalletState)
        ensures
            r.wf(),
            r.accounts@.len() == 0,
            r.counters == (WalletAccountsNonce { development: 0, production: 0, staging: 0 }),
    {
        WalletState { accounts: Vec::new(), counters: WalletAccountsNonce::new() }
    }

    /// The number of stored accounts.
    pub fn accounts_len(&self) -> (r: usize)
        ensures
            r == self.accounts@.len(),
    {
        self.accounts.len()
    }

    /// The per-environment counters.
    pub fn counters(&self) -> (r: WalletAccountsNonce)
        ensures
            r == self.counters,
    {
        self.counters
    }

    /// The next subaccount for an environment: derived from the current
    /// counter, which `insert_account` advances. A missing environment
    /// selects production.
    pub fn new_subaccount(&self, environment: Option<Environment>) -> (r: Subaccount)
        ensures
            r.wf(),
            r.0@ == derived_seq(
                match environment {
                    Some(e) => e,
                    None => Environment::Production,
                },
                self.counters.spec_account(
                    match environment {
                        Some(e) => e,
                        None => Environment::Production,
                    },
                ),
            ),
    {
        let env = match environment {
            Some(e) => e,
            None => Environment::Production,
        };
        Subaccount::new(env, self.counters.account(env))
    }

    /// The index of the account for an id, if one exists.
    fn find(&self, id: &String) -> (r: Option<usize>)
        ensures
            r matches Some(i) ==> i < self.accounts@.len() && self.accounts@[i as int].id@ == id@,
            r is None ==> !contains_account(self.accounts@, id@),
    {
        let mut i: usize = 0;
        while i < self.accounts.len()
            invariant
                i <= self.accounts@.len(),
                forall|j: int| 0 <= j < i ==> self.accounts@[j].id@ != id@,
            decreases self.accounts@.len() - i,
        {
            let k: &String = &self.accounts[i].id;
            if *k == *id {
                return Some(i);
            }
            i = i + 1;
        }
        None
    }

    /// The stored account with the given id, if any.
    pub fn account(&self, id: &String) -> (r: Option<&WalletAccount>)
        requires
            self.wf(),
        ensures
            (r is Some) == contains_account(self.accounts@, id@),
            r matches Some(a) ==> self.spec_account(id@) == Some(*a),
    {
        match self.find(id) {
            Some(i) => {
                proof {
                    self.lemma_id_pins_account(id@, i as int);
                }
                Some(&self.accounts[i])
            },
            None => None,
        }
    }

    /// Stores an account under its derived id, renaming it when a name is
    /// given, and advances the counter of the account's environment. An
    /// account already stored under the same id is replaced.
    pub fn insert_account(&mut self, account: WalletAccount, name: Option<String>) -> (r: String)
        requires
            old(self).wf(),
            account.wf(),
            old(self).counters.spec_account(account.ledger.subaccount.spec_environment())
                < u64::MAX,
        ensures
            final(self).wf(),
            r@ == account.id@,
            final(self).spec_account(account.id@) matches Some(a) && a.id == account.id
                && a.ledger == account.ledger && a.metadata == account.metadata && a.hidden
                == account.hidden && a.name@ == (
            match name {
                Some(n) => n@,
                None => account.name@,
            }),
            forall|x: Seq<char>|
                x != account.id@ ==> final(self).spec_account(x) == old(self).spec_account(x),
            final(self).counters.spec_account(account.ledger.subaccount.spec_environment()) == old(self).counters.spec_account(account.ledger.subaccount.spec_environment()) + 1,
            forall|e: Environment|
                e != account.ledger.subaccount.spec_environment() ==> final(self).counters.spec_account(e) == old(self).counters.spec_account(e),
    {
        let mut account = account;
        match name {
            Some(n) => {
                account.rename(n);
            },
            None => {},
        }
        let id = account.id();
        let environment = account.ledger.subaccount.environment();
        let ghost stored = account;
        match self.find(&id) {
            Some(i) => {
                let ghost olds = self.accounts@;
                self.accounts[i] = account;
                proof {
                    let news = self.accounts@;
                    let ii = i as int;
                    assert(news =~= olds.update(ii, news[ii]));
                    assert forall|a: int, b: int|
                        0 <= a < b < news.len() implies news[a].id@ != news[b].id@ by {
                        assert(olds[a].id@ != olds[b].id@);
                    }
                    self.lemma_id_pins_account(stored.id@, ii);
                    assert forall|x: Seq<char>| x != stored.id@ implies self.spec_account(x) == old(self).spec_account(x) by {
                        if contains_account(olds, x) {
                            let j = index_of_account(olds, x);
                            assert(news[j].id@ == x);
                            self.lemma_id_pins_account(x, j);
                            old(self).lemma_id_pins_account(x, j);
                        } else {
                            if contains_account(news, x) {
                                let j = index_of_account(news, x);
                                assert(olds[j].id@ == x);
                            }
                        }
                    }
                }
            },
            None => {
                let ghost olds = self.accounts@;
                self.accounts.push(account);
                proof {
                    let news = self.accounts@;
                    let n = olds.len() as int;
                    assert forall|a: int, b: int|
                        0 <= a < b < news.len() implies news[a].id@ != news[b].id@ by {
                        if b < n {
                            assert(olds[a].id@ != olds[b].id@);
                        } else {
                            assert(news[a].id@ == olds[a].id@);
                            if news[a].id@ == stored.id@ {
                                assert(contains_account(olds, stored.id@));
                            }
                        }
                    }
                    self.lemma_id_pins_account(stored.id@, n);
                    assert forall|x: Seq<char>| x != stored.id@ implies self.spec_account(x) == old(self).spec_account(x) by {
                        if contains_account(olds, x) {
                            let j = index_of_account(olds, x);
                            assert(news[j].id@ == x);
                            self.lemma_id_pins_account(x, j);
                            old(self).lemma_id_pins_account(x, j);
                        } else {
                            if contains_account(news, x) {
                                let j = index_of_account(news, x);
                                assert(j != n);
                                assert(olds[j].id@ == x);
                            }
                        }
                    }
                }
            },
        }
        self.counters.increment(environment);
        id
    }

    /// Removes the account with the given id; fails with `AccountNotFound`
    /// when none is stored. Every other account is untouched.
    pub fn remove_account(&mut self, id: &String) -> (r: Result<(), WalletError>)
        requires
            old(self).wf(),
        ensures
            final(self).wf(),
            final(self).counters == old(self).counters,
            (r is Ok) == contains_account(old(self).accounts@, id@),
            r is Err ==> r == Err::<(), WalletError>(WalletError::AccountNotFound) && *final(self)
                == *old(self),
            final(self).spec_account(id@) == None::<WalletAccount>,
            forall|x: Seq<char>|
                x != id@ ==> final(self).spec_account(x) == old(self).spec_account(x),
    {
        match self.find(id) {
            Some(i) => {
                let ghost olds = self.accounts@;
                self.accounts.remove(i);
                proof {
                    let news = self.accounts@;
                    let ii = i as int;
                    assert(news =~= olds.subrange(0, ii) + olds.subrange(
                        ii + 1,
                        olds.len() as int,
                    ));
                    assert forall|a: int, b: int|
                        0 <= a < b < news.len() implies news[a].id@ != news[b].id@ by {
                        let oa = if a < ii { a } else { a + 1 };
                        let ob = if b < ii { b } else { b + 1 };
                        assert(olds[oa].id@ != olds[ob].id@);
                    }
                    assert forall|a: int| 0 <= a < news.len() implies #[trigger] news[a].wf() by {
                        let oa = if a < ii { a } else { a + 1 };
                        assert(olds[oa].wf());
                    }
                    old(self).lemma_id_pins_account(id@, ii);
                    assert forall|a: int| 0 <= a < news.len() implies news[a].id@ != id@ by {
                        let oa = if a < ii { a } else { a + 1 };
                        if olds[oa].id@ == id@ {
                            old(self).lemma_id_pins_account(id@, oa);
                        }
                    }
                    assert(!contains_account(news, id@));
                    assert forall|x: Seq<char>| x != id@ implies self.spec_account(x) == old(self).spec_account(x) by {
                        if contains_account(olds, x) {
                            let j = index_of_account(olds, x);
                            assert(olds[j].id@ == x);
                            assert(j != ii);
                            let nj = if j < ii { j } else { j - 1 };
                            assert(news[nj].id@ == x);
                            self.lemma_id_pins_account(x, nj);
                            old(self).lemma_id_pins_account(x, j);
                        } else {
                            if contains_account(news, x) {
                                let nj = index_of_account(news, x);
                                let oj = if nj < ii { nj } else { nj + 1 };
                                assert(olds[oj].id@ == x);
                            }
                        }
                    }
                }
                Ok(())
            },
            None => Err(WalletError::AccountNotFound),
        }
    }

    /// Renames the account with the given id and returns the new name;
    /// fails with `AccountNotFound` when none is stored.
    pub fn rename_account(&mut self, id: &String, name: String) -> (r: Result<String, WalletError>)
        requires
            old(self).wf(),
        ensures
            final(self).wf(),
            final(self).counters == old(self).counters,
            (r is Ok) == contains_account(old(self).accounts@, id@),
            r is Err ==> r == Err::<String, WalletError>(WalletError::AccountNotFound) && *final(self) == *old(self),
            r is Ok ==> ({
                let oa = old(self).spec_account(id@)->Some_0;
                &&& r matches Ok(n) && n@ == name@
                &&& final(self).spec_account(id@) matches Some(a) && a.name@ == name@ && a.id
                    == oa.id && a.ledger == oa.ledger && a.metadata == oa.metadata && a.hidden
                    == oa.hidden
                &&& forall|x: Seq<char>|
                    x != id@ ==> final(self).spec_account(x) == old(self).spec_account(x)
            }),
    {
        match self.find(id) {
            Some(i) => {
                proof {
                    old(self).lemma_id_pins_account(id@, i as int);
                }
                let ghost olds = self.accounts@;
                let e = account_mut(&mut self.accounts, i);
                let r = e.update_name(name);
                proof {
                    assert(old(self).accounts@[i as int].wf());
                    assert(self.accounts@[i as int].wf());
                    self.lemma_update_account(*old(self), id@, i as int);
                }
                Ok(r)
            },
            None => Err(WalletError::AccountNotFound),
        }
    }

    /// Marks the account with the given id hidden; fails with
    /// `AccountNotFound` when none is stored.
    pub fn hide_account(&mut self, id: &String) -> (r: Result<(), WalletError>)
        requires
            old(self).wf(),
        ensures
            final(self).wf(),
            final(self).counters == old(self).counters,
            (r is Ok) == contains_account(old(self).accounts@, id@),
            r is Err ==> r == Err::<(), WalletError>(WalletError::AccountNotFound) && *final(self)
                == *old(self),
            r is Ok ==> ({
                let oa = old(self).spec_account(id@)->Some_0;
                &&& final(self).spec_account(id@) matches Some(a) && a.hidden && a.id == oa.id
                    && a.name == oa.name && a.ledger == oa.ledger && a.metadata == oa.metadata
                &&& forall|x: Seq<char>|
                    x != id@ ==> final(self).spec_account(x) == old(self).spec_account(x)
            }),
    {
        match self.find(id) {
            Some(i) => {
                proof {
                    old(self).lemma_id_pins_account(id@, i as int);
                }
                let e = account_mut(&mut self.accounts, i);
                e.hide_account();
                proof {
                    assert(old(self).accounts@[i as int].wf());
                    assert(self.accounts@[i as int].wf());
                    self.lemma_update_account(*old(self), id@, i as int);
                }
                Ok(())
            },
            None => Err(WalletError::AccountNotFound),
        }
    }

    /// Marks the account with the given id visible; fails with
    /// `AccountNotFound` when none is stored.
    pub fn unhide_account(&mut self, id: &String) -> (r: Result<(), WalletError>)
        requires
            old(self).wf(),
        ensures
            final(self).wf(),
            final(self).counters == old(self).counters,
            (r is Ok) == contains_account(old(self).accounts@, id@),
            r is Err ==> r == Err::<(), WalletError>(WalletError::AccountNotFound) && *final(self)
                == *old(self),
            r is Ok ==> ({
                let oa = old(self).spec_account(id@)->Some_0;
                &&& final(self).spec_account(id@) matches Some(a) && !a.hidden && a.id == oa.id
                    && a.name == oa.name && a.ledger == oa.ledger && a.metadata == oa.metadata
                &&& forall|x: Seq<char>|
                    x != id@ ==> final(self).spec_account(x) == old(self).spec_account(x)
            }),
    {
        match self.find(id) {
            Some(i) => {
                proof {
                    old(self).lemma_id_pins_account(id@, i as int);
                }
                let e = account_mut(&mut self.accounts, i);
                e.unhide();
                proof {
                    assert(old(self).accounts@[i as int].wf());
                    assert(self.accounts@[i as int].wf());
                    self.lemma_update_account(*old(self), id@, i as int);
                }
                Ok(())
            },
            None => Err(WalletError::AccountNotFound),
        }
    }

    /// Replacing the account at an id's index, keeping its id and
    /// well-formedness, pins the new account at that id and leaves every
    /// other id's account unchanged.
    proof fn lemma_update_account(&self, old_s: WalletState, id: Seq<char>, i: int)
        requires
            old_s.wf(),
            0 <= i < old_s.accounts@.len(),
            old_s.accounts@[i].id@ == id,
            self.accounts@ == old_s.accounts@.update(i, self.accounts@[i]),
            self.accounts@.len() == old_s.accounts@.len(),
            self.accounts@[i].id@ == id,
            self.accounts@[i].wf(),
        ensures
            self.wf(),
            self.spec_account(id) == Some(self.accounts@[i]),
            old_s.spec_account(id) == Some(old_s.accounts@[i]),
            forall|x: Seq<char>| x != id ==> self.spec_account(x) == old_s.spec_account(x),
    {
        let olds = old_s.accounts@;
        let news = self.accounts@;
        assert forall|a: int, b: int|
            0 <= a < b < news.len() implies news[a].id@ != news[b].id@ by {
            assert(olds[a].id@ != olds[b].id@);
        }
        assert forall|a: int| 0 <= a < news.len() implies #[trigger] news[a].wf() by {
            if a != i {
                assert(olds[a].wf());
            }
        }
        self.lemma_id_pins_account(id, i);
        old_s.lemma_id_pins_account(id, i);
        assert forall|x: Seq<char>| x != id implies self.spec_account(x) == old_s.spec_account(
            x,
        ) by {
            if contains_account(olds, x) {
                let j = index_of_account(olds, x);
                assert(news[j].id@ == x);
                self.lemma_id_pins_account(x, j);
                old_s.lemma_id_pins_account(x, j);
            } else {
                if contains_account(news, x) {
                    let j = index_of_account(news, x);
                    assert(olds[j].id@ == x);
                }
            }
        }
    }

    /// Recreates the account for a previously derived subaccount; fails
    /// with `AccountAlreadyExists` when its id is already stored. The
    /// counter of the subaccount's environment advances by one, as it does
    /// for any insertion.
    pub fn restore_account(&mut self, subaccount: Subaccount, owner: &Vec<u8>) -> (r: Result<
        (),
        WalletError,
    >)
        requires
            old(self).wf(),
            subaccount.wf(),
            subaccount.spec_nonce() < u64::MAX,
            old(self).counters.spec_account(subaccount.spec_environment()) < u64::MAX,
        ensures
            final(self).wf(),
            contains_account(old(self).accounts@, subaccount.spec_id()) ==> r == Err::<
                (),
                WalletError,
            >(WalletError::AccountAlreadyExists) && *final(self) == *old(self),
            !contains_account(old(self).accounts@, subaccount.spec_id()) ==> ({
                &&& r is Ok
                &&& final(self).spec_account(subaccount.spec_id()) matches Some(a)
                    && a.ledger.subaccount == subaccount && !a.hidden
                &&& forall|x: Seq<char>|
                    x != subaccount.spec_id() ==> final(self).spec_account(x) == old(self).spec_account(x)
            }),
    {
        let id = subaccount.id();
        match self.find(&id) {
            Some(_) => Err(WalletError::AccountAlreadyExists),
            None => {
                let account = WalletAccount::from_subaccount(subaccount, owner);
                self.insert_account(account, None);
                Ok(())
            },
        }
    }

    /// Clears every account and resets the counters.
    pub fn reset(&mut self)
        ensures
            final(self).wf(),
            final(self).accounts@.len() == 0,
            final(self).counters == (WalletAccountsNonce {
                development: 0,
                production: 0,
                staging: 0,
            }),
    {
        self.accounts = Vec::new();
        self.counters = WalletAccountsNonce::new();
    }
}

} // verus!
