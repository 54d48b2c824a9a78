//! The signer registry: one signer record per user, the controller list,
//! and the ordered release history.

use vstd::prelude::*;

use crate::errors::SystemError;
use crate::subaccount::clone_bytes;

verus! {

/// One provisioned signer: the canister that hosts it, once known.
#[derive(Debug)]
pub struct SignerCanister {
    pub canister_id: Option<Vec<u8>>,
}

impl SignerCanister {
    /// A signer not yet tied to a canister.
    pub fn new() -> (r: SignerCanister)
        ensures
            r.canister_id is None,
    {
        SignerCanister { canister_id: None }
    }

    /// A signer tied to an existing canister.
    pub fn from_canister(canister_id: Vec<u8>) -> (r: SignerCanister)
        ensures
            r.canister_id matches Some(c) && c@ == canister_id@,
    {
        SignerCanister { canister_id: Some(canister_id) }
    }

    /// A copy of this record.
    pub fn dup(&self) -> (r: SignerCanister)
        ensures
            r.spec_canister_id() == self.spec_canister_id(),
    {
        match &self.canister_id {
            Some(c) => SignerCanister { canister_id: Some(clone_bytes(c)) },
            None => SignerCanister { canister_id: None },
        }
    }

    /// The canister bytes, if any.
    pub open spec fn spec_canister_id(&self) -> Option<Seq<u8>> {
        match self.canister_id {
            Some(c) => Some(c@),
            None => None,
        }
    }
}

/// One published wallet release.
#[derive(Debug)]
pub struct Release {
    pub version: String,
}

/// One registered user and the signer provisioned for them.
#[derive(Debug)]
pub struct UserEntry {
    pub user: Vec<u8>,
    pub canister: SignerCanister,
}

/// Whether some entry carries the given user.
pub open spec fn contains_user(s: Seq<UserEntry>, u: Seq<u8>) -> bool {
    exists|i: int| 0 <= i < s.len() && s[i].user@ == u
}

/// The index of the entry carrying the given user.
pub open spec fn index_of_user(s: Seq<UserEntry>, u: Seq<u8>) -> int {
    choose|i: int| 0 <= i < s.len() && s[i].user@ == u
}

/// The registry state: users with unique principal bytes, controllers, and
/// releases in publication order.
#[derive(Debug)]
pub struct State {
    pub users: Vec<UserEntry>,
    pub controllers: Vec<Vec<u8>>,
    pub releases: Vec<Release>,
}

impl State {
    /// Each user is registered at most once.
    pub open spec fn wf(&self) -> bool {
        forall|i: int, j: int|
            0 <= i < j < self.users@.len() ==> self.users@[i].user@ != self.users@[j].user@
    }

    /// The signer recorded for a user, if any.
    pub open spec fn spec_user(&self, u: Seq<u8>) -> Option<Option<Seq<u8>>> {
        if contains_user(self.users@, u) {
            Some(self.users@[index_of_user(self.users@, u)].canister.spec_canister_id())
        } else {
            None
        }
    }

    /// Any entry carrying a user is the one `spec_user` reads.
    pub proof fn lemma_user_pins(&self, u: Seq<u8>, i: int)
        requires
            self.wf(),
            0 <= i < self.users@.len(),
            self.users@[i].user@ == u,
        ensures
            contains_user(self.users@, u),
            index_of_user(self.users@, u) == i,
            self.spec_user(u) == Some(self.users@[i].canister.spec_canister_id()),
    {
        assert(contains_user(self.users@, u));
        let j = index_of_user(self.users@, u);
        if j != i {
            if j < i {
                assert(self.users@[j].user@ != self.users@[i].user@);
            } else {
                assert(self.users@[i].user@ != self.users@[j].user@);
            }
        }
    }

    /// An empty registry.
    pub fn new() -> (r: State)
        ensures
            r.wf(),
            r.users@.len() == 0,
            r.controllers@.len() == 0,
            r.releases@.len() == 0,
    {
        State { users: Vec::new(), controllers: Vec::new(), releases: Vec::new() }
    }

    /// The index of the entry for a user, if one exists.
    fn find_user(&self, user: &Vec<u8>) -> (r: Option<usize>)
        ensures
            r matches Some(i) ==> i < self.users@.len() && self.users@[i as int].user@ == user@,
            r is None ==> !contains_user(self.users@, user@),
    {
        let mut i: usize = 0;
        while i < self.users.len()
            invariant
                i <= self.users@.len(),
                forall|j: int| 0 <= j < i ==> self.users@[j].user@ != user@,
            decreases self.users@.len() - i,
        {
            if crate::encoding::bytes_eq(&self.users[i].user, user) {
                return Some(i);
            }
            i = i + 1;
        }
        None
    }

    /// Registers a fresh signer for a user; fails with `UserAlreadyExists`
    /// when one is registered. Every other user is untouched.
    pub fn init_user(&mut self, user: Vec<u8>) -> (r: Result<SignerCanister, SystemError>)
        requires
            old(self).wf(),
        ensures
            final(self).wf(),
            final(self).controllers == old(self).controllers,
            final(self).releases == old(self).releases,
            contains_user(old(self).users@, user@) ==> r == Err::<SignerCanister, SystemError>(
                SystemError::UserAlreadyExists,
            ) && *final(self) == *old(self),
            !contains_user(old(self).users@, user@) ==> ({
                &&& r matches Ok(c) && c.spec_canister_id() is None
                &&& final(self).spec_user(user@) == Some(None::<Seq<u8>>)
                &&& forall|x: Seq<u8>|
                    x != user@ ==> final(self).spec_user(x) == old(self).spec_user(x)
            }),
    {
        match self.find_user(&user) {
            Some(_) => Err(SystemError::UserAlreadyExists),
            None => {
                let canister = SignerCanister::new();
                self.push_user(user, canister.dup());
                Ok(canister)
            },
        }
    }

    /// Returns the signer registered for a user, registering one first when
    /// none is: a given canister id seeds the fresh record, otherwise the
    /// record starts empty. Every other user is untouched.
    pub fn get_or_init_user(&mut self, user: Vec<u8>, opt_canister_id: Option<Vec<u8>>) -> (r:
        Result<SignerCanister, SystemError>)
        requires
            old(self).wf(),
        ensures
            final(self).wf(),
            final(self).controllers == old(self).controllers,
            final(self).releases == old(self).releases,
            r is Ok,
            old(self).spec_user(user@) matches Some(c) ==> (r matches Ok(rc)
                && rc.spec_canister_id() == c) && *final(self) == *old(self),
            old(self).spec_user(user@) is None ==> ({
                let seeded = match opt_canister_id {
                    Some(c) => Some(c@),
                    None => None::<Seq<u8>>,
                };
                &&& r matches Ok(rc) && rc.spec_canister_id() == seeded
                &&& final(self).spec_user(user@) == Some(seeded)
                &&& forall|x: Seq<u8>|
                    x != user@ ==> final(self).spec_user(x) == old(self).spec_user(x)
            }),
    {
        match self.find_user(&user) {
            Some(i) => {
                proof {
                    self.lemma_user_pins(user@, i as int);
                }
                Ok(self.users[i].canister.dup())
            },
            None => {
                let canister = match opt_canister_id {
                    Some(c) => SignerCanister::from_canister(c),
                    None => SignerCanister::new(),
                };
                let r = canister.dup();
                self.push_user(user, canister);
                Ok(r)
            },
        }
    }

    /// Appends an entry for a user not yet registered.
    fn push_user(&mut self, user: Vec<u8>, canister: SignerCanister)
        requires
            old(self).wf(),
            !contains_user(old(self).users@, user@),
        ensures
            final(self).wf(),
            final(self).controllers == old(self).controllers,
            final(self).releases == old(self).releases,
            final(self).spec_user(user@) == Some(canister.spec_canister_id()),
            forall|x: Seq<u8>| x != user@ ==> final(self).spec_user(x) == old(self).spec_user(x),
            final(self).users@.len() == old(self).users@.len() + 1,
    {
        let ghost olds = self.users@;
        let ghost u = user@;
        self.users.push(UserEntry { user, canister });
        proof {
            let news = self.users@;
            let n = olds.len() as int;
            assert(news[n].user@ == u);
            assert forall|a: int, b: int|
                0 <= a < b < news.len() implies news[a].user@ != news[b].user@ by {
                if b < n {
                    assert(olds[a].user@ != olds[b].user@);
                } else {
                    assert(news[a].user@ == olds[a].user@);
                    if news[a].user@ == u {
                        assert(contains_user(olds, u));
                    }
                }
            }
            self.lemma_user_pins(u, n);
            assert forall|x: Seq<u8>| x != u implies self.spec_user(x) == old(self).spec_user(
                x,
            ) by {
                if contains_user(olds, x) {
                    let j = index_of_user(olds, x);
                    assert(news[j].user@ == x);
                    self.lemma_user_pins(x, j);
                    old(self).lemma_user_pins(x, j);
                } else {
                    if contains_user(news, x) {
                        let j = index_of_user(news, x);
                        assert(j != n);
                        assert(olds[j].user@ == x);
                    }
                }
            }
        }
    }

    /// Registers or replaces the signer for a user.
    pub fn add_user(&mut self, user: Vec<u8>, signer_canister: SignerCanister)
        requires
            old(self).wf(),
        ensures
            final(self).wf(),
            final(self).spec_user(user@) == Some(signer_canister.spec_canister_id()),
            forall|x: Seq<u8>| x != user@ ==> final(self).spec_user(x) == old(self).spec_user(x),
    {
        match self.find_user(&user) {
            Some(i) => {
                let ghost olds = self.users@;
                let ghost u = user@;
                self.users[i] = UserEntry { user, canister: signer_canister };
                proof {
                    let news = self.users@;
                    let ii = i as int;
                    assert(news =~= olds.update(ii, news[ii]));
                    assert forall|a: int, b: int|
                        0 <= a < b < news.len() implies news[a].user@ != news[b].user@ by {
                        assert(olds[a].user@ != olds[b].user@);
                    }
                    self.lemma_user_pins(u, ii);
                    assert forall|x: Seq<u8>| x != u implies self.spec_user(x) == old(
                        self,
                    ).spec_user(x) by {
                        if contains_user(olds, x) {
                            let j = index_of_user(olds, x);
                            assert(news[j].user@ == x);
                            self.lemma_user_pins(x, j);
                            old(self).lemma_user_pins(x, j);
                        } else {
                            if contains_user(news, x) {
                                let j = index_of_user(news, x);
                                assert(olds[j].user@ == x);
                            }
                        }
                    }
                }
            },
            None => {
                self.push_user(user, signer_canister);
            },
        }
    }

    /// Removes the signer registered for a user; a no-op when none is.
    pub fn remove_user(&mut self, user: &Vec<u8>)
        requires
            old(self).wf(),
        ensures
            final(self).wf(),
            final(self).spec_user(user@) == None::<Option<Seq<u8>>>,
            forall|x: Seq<u8>| x != user@ ==> final(self).spec_user(x) == old(self).spec_user(x),
    {
        match self.find_user(user) {
            Some(i) => {
                let ghost olds = self.users@;
                self.users.remove(i);
                proof {
                    let news = self.users@;
                    let ii = i as int;
                    assert(news =~= olds.subrange(0, ii) + olds.subrange(
                        ii + 1,
                        olds.len() as int,
                    ));
                    assert forall|a: int, b: int|
                        0 <= a < b < news.len() implies news[a].user@ != news[b].user@ by {
                        let oa = if a < ii { a } else { a + 1 };
                        let ob = if b < ii { b } else { b + 1 };
                        assert(olds[oa].user@ != olds[ob].user@);
                    }
                    old(self).lemma_user_pins(user@, ii);
                    assert forall|a: int| 0 <= a < news.len() implies news[a].user@ != user@ by {
                        let oa = if a < ii { a } else { a + 1 };
                        if olds[oa].user@ == user@ {
                            old(self).lemma_user_pins(user@, oa);
                        }
                    }
                    assert(!contains_user(news, user@));
                    assert forall|x: Seq<u8>| x != user@ implies self.spec_user(x) == old(
                        self,
                    ).spec_user(x) by {
                        if contains_user(olds, x) {
                            let j = index_of_user(olds, x);
                            assert(olds[j].user@ == x);
                            assert(j != ii);
                            let nj = if j < ii { j } else { j - 1 };
                            assert(news[nj].user@ == x);
                            self.lemma_user_pins(x, nj);
                            old(self).lemma_user_pins(x, j);
                        } else {
                            if contains_user(news, x) {
                                let nj = index_of_user(news, x);
                                let oj = if nj < ii { nj } else { nj + 1 };
                                assert(olds[oj].user@ == x);
                            }
                        }
                    }
                }
            },
            None => {
                proof {
                    assert forall|x: Seq<u8>| x != user@ implies self.spec_user(x) == old(
                        self,
                    ).spec_user(x) by {}
                }
            },
        }
    }

    /// The registered users, in registration order.
    pub fn user_ids(&self) -> (r: Vec<Vec<u8>>)
        ensures
            r@.len() == self.users@.len(),
            forall|i: int| 0 <= i < r@.len() ==> #[trigger] r@[i]@ == self.users@[i].user@,
    {
        let mut r: Vec<Vec<u8>> = Vec::new();
        let mut i: usize = 0;
        while i < self.users.len()
            invariant
                i <= self.users@.len(),
                r@.len() == i,
                forall|j: int| 0 <= j < i ==> #[trigger] r@[j]@ == self.users@[j].user@,
            decreases self.users@.len() - i,
        {
            r.push(clone_bytes(&self.users[i].user));
            i = i + 1;
        }
        r
    }

    /// The registered signers, in registration order.
    pub fn signer_canisters(&self) -> (r: Vec<SignerCanister>)
        ensures
            r@.len() == self.users@.len(),
            forall|i: int|
                0 <= i < r@.len() ==> #[trigger] r@[i].spec_canister_id()
                    == self.users@[i].canister.spec_canister_id(),
    {
        let mut r: Vec<SignerCanister> = Vec::new();
        let mut i: usize = 0;
        while i < self.users.len()
            invariant
                i <= self.users@.len(),
                r@.len() == i,
                forall|j: int|
                    0 <= j < i ==> #[trigger] r@[j].spec_canister_id()
                        == self.users@[j].canister.spec_canister_id(),
            decreases self.users@.len() - i,
        {
            r.push(self.users[i].canister.dup());
            i = i + 1;
        }
        r
    }

    /// How many signers are registered.
    pub fn number_of_signers(&self) -> (r: usize)
        ensures
            r == self.users@.len(),
    {
        self.users.len()
    }

    /// The controller list, in insertion order.
    pub fn get_controllers(&self) -> (r: Vec<Vec<u8>>)
        ensures
            r.deep_view() == self.controllers.deep_view(),
    {
        let mut r: Vec<Vec<u8>> = Vec::new();
        let mut i: usize = 0;
        while i < self.controllers.len()
            invariant
                i <= self.controllers@.len(),
                r@.len() == i,
                forall|j: int| 0 <= j < i ==> #[trigger] r@[j]@ == self.controllers@[j]@,
            decreases self.controllers@.len() - i,
        {
            r.push(clone_bytes(&self.controllers[i]));
            i = i + 1;
        }
        proof {
            assert(r.deep_view() =~= self.controllers.deep_view());
        }
        r
    }

    /// Appends a controller.
    pub fn add_controller(&mut self, controller_id: Vec<u8>)
        ensures
            final(self).controllers.deep_view() == old(self).controllers.deep_view().push(
                controller_id@,
            ),
            final(self).users == old(self).users,
            final(self).releases == old(self).releases,
    {
        self.controllers.push(controller_id);
        proof {
            assert(self.controllers.deep_view() =~~= old(self).controllers.deep_view().push(
                self.controllers@.last()@,
            ));
        }
    }

    /// Removes every occurrence of a controller; a no-op when it is absent.
    pub fn remove_controller(&mut self, controller_id: &Vec<u8>)
        ensures
            final(self).controllers.deep_view() == old(self).controllers.deep_view().filter(
                keep_other_controller_pred(controller_id@),
            ),
            final(self).users == old(self).users,
            final(self).releases == old(self).releases,
    {
        let ghost keep_pred = keep_other_controller_pred(controller_id@);
        let ghost all = self.controllers.deep_view();
        let mut kept: Vec<Vec<u8>> = Vec::new();
        let mut i: usize = 0;
        proof {
            reveal(Seq::filter);
            assert(all.subrange(0, 0) =~= Seq::<Seq<u8>>::empty());
        }
        while i < self.controllers.len()
            invariant
                i <= self.controllers@.len(),
                all == self.controllers.deep_view(),
                all.len() == self.controllers@.len(),
                kept.deep_view() == all.subrange(0, i as int).filter(keep_pred),
                keep_pred == keep_other_controller_pred(controller_id@),
                self.users == old(self).users,
                self.releases == old(self).releases,
                self.controllers == old(self).controllers,
            decreases self.controllers@.len() - i,
        {
            let ghost pre = all.subrange(0, i as int);
            let ghost cur = all.subrange(0, i + 1);
            proof {
                reveal(Seq::filter);
                assert(cur.drop_last() =~= pre);
                assert(cur.last() == all[i as int]);
                assert(all[i as int] =~= self.controllers@[i as int]@);
            }
            if !crate::encoding::bytes_eq(&self.controllers[i], controller_id) {
                let ghost before = kept.deep_view();
                kept.push(clone_bytes(&self.controllers[i]));
                proof {
                    assert(kept.deep_view() =~~= before.push(all[i as int]));
                    assert(cur.filter(keep_pred) =~= pre.filter(keep_pred).push(all[i as int]));
                }
            } else {
                proof {
                    assert(cur.filter(keep_pred) =~= pre.filter(keep_pred));
                }
            }
            i = i + 1;
        }
        proof {
            assert(all.subrange(0, all.len() as int) =~= all);
        }
        self.controllers = kept;
    }

    /// The most recently published release; fails with `ReleaseNotFound`
    /// when none has been published.
    pub fn latest_release(&self) -> (r: Result<&Release, SystemError>)
        ensures
            self.releases@.len() == 0 ==> r == Err::<&Release, SystemError>(
                SystemError::ReleaseNotFound,
            ),
            self.releases@.len() > 0 ==> (r matches Ok(rel) && rel == &self.releases@.last()),
    {
        let n = self.releases.len();
        if n == 0 {
            Err(SystemError::ReleaseNotFound)
        } else {
            Ok(&self.releases[n - 1])
        }
    }

    /// Publishes a release after every earlier one.
    pub fn add_release(&mut self, release: Release)
        ensures
            final(self).releases@ == old(self).releases@.push(release),
            final(self).users == old(self).users,
            final(self).controllers == old(self).controllers,
    {
        self.releases.push(release);
    }
}

/// Keeps the controllers other than the one being removed.
pub open spec fn keep_other_controller_pred(id: Seq<u8>) -> spec_fn(Seq<u8>) -> bool {
    (|c: Seq<u8>| c != id)
}

} // verus!
