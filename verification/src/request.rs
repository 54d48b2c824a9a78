//! The request engine: every privileged operation becomes a durable,
//! role-checked, deadline-bounded unit of work that is validated on
//! submission, queued under a strictly increasing id, and executed at most
//! once.

use vstd::prelude::*;

use crate::chain::{ChainKind, ChainKindView};
use crate::errors::RequestError;
use crate::ledger::Ledger;
use crate::subaccount::clone_bytes;

verus! {

/// An authorization level; administrators satisfy every requirement.
#[derive(Clone, Copy, PartialEq, Eq, Structural, Debug)]
pub enum Roles {
    Admin,
    Signer,
}

/// Whether a caller's role satisfies a request's required role.
pub open spec fn spec_role_satisfies(caller: Roles, required: Roles) -> bool {
    caller == Roles::Admin || required == Roles::Signer
}

pub fn role_satisfies(caller: Roles, required: Roles) -> (r: bool)
    ensures
        r == spec_role_satisfies(caller, required),
{
    match caller {
        Roles::Admin => true,
        Roles::Signer => match required {
            Roles::Signer => true,
            Roles::Admin => false,
        },
    }
}

/// A privileged operation payload.
#[derive(Debug)]
pub enum RequestOp {
    RenameAccount { account_id: String, new_name: String },
    UpdateSettings { canister_id: Vec<u8> },
    DeployContract { account_id: String, chain_id: u64, nonce: u64, byte_code: Vec<u8> },
}

/// The mathematical shape of an operation payload.
#[verifier::ext_equal]
pub enum RequestOpView {
    RenameAccount { account_id: Seq<char>, new_name: Seq<char> },
    UpdateSettings { canister_id: Seq<u8> },
    DeployContract { account_id: Seq<char>, chain_id: u64, nonce: u64, byte_code: Seq<u8> },
}

impl View for RequestOp {
    type V = RequestOpView;

    open spec fn view(&self) -> RequestOpView {
        match self {
            RequestOp::RenameAccount { account_id, new_name } => RequestOpView::RenameAccount {
                account_id: account_id@,
                new_name: new_name@,
            },
            RequestOp::UpdateSettings { canister_id } => RequestOpView::UpdateSettings {
                canister_id: canister_id@,
            },
            RequestOp::DeployContract {
                account_id,
                chain_id,
                nonce,
                byte_code,
            } => RequestOpView::DeployContract {
                account_id: account_id@,
                chain_id: *chain_id,
                nonce: *nonce,
                byte_code: byte_code@,
            },
        }
    }
}

impl RequestOp {
    /// A copy denoting the same operation.
    pub fn dup(&self) -> (r: RequestOp)
        ensures
            r@ == self@,
    {
        let r = match self {
            RequestOp::RenameAccount { account_id, new_name } => RequestOp::RenameAccount {
                account_id: account_id.clone(),
                new_name: new_name.clone(),
            },
            RequestOp::UpdateSettings { canister_id } => RequestOp::UpdateSettings {
                canister_id: clone_bytes(canister_id),
            },
            RequestOp::DeployContract {
                account_id,
                chain_id,
                nonce,
                byte_code,
            } => RequestOp::DeployContract {
                account_id: account_id.clone(),
                chain_id: *chain_id,
                nonce: *nonce,
                byte_code: clone_bytes(byte_code),
            },
        };
        proof {
            assert(r@ =~= self@);
        }
        r
    }

    /// Checks the operation's synchronous precondition against the target
    /// account's ledger: a contract deployment requires the EVM binding for
    /// its chain id to exist already.
    pub fn validate(&self, ledger: &Ledger) -> (r: Result<(), RequestError>)
        requires
            ledger.wf(),
        ensures
            self@ matches RequestOpView::DeployContract { chain_id, .. } ==> (r is Ok)
                == (ledger.spec_binding(ChainKindView::Evm(chain_id)) is Some) && (r is Err ==> r
                == Err::<(), RequestError>(RequestError::ChainNotInitialized)),
            !(self@ is DeployContract) ==> r == Ok::<(), RequestError>(()),
    {
        match self {
            RequestOp::DeployContract { chain_id, .. } => {
                match ledger.binding(&ChainKind::Evm(*chain_id)) {
                    Some(_) => Ok(()),
                    None => Err(RequestError::ChainNotInitialized),
                }
            },
            _ => Ok(()),
        }
    }
}

/// The lifecycle of a queued request. Completed and Failed are terminal;
/// expired requests are evicted rather than stored.
#[derive(Clone, Copy, PartialEq, Eq, Structural, Debug)]
pub enum RequestStatus {
    Pending,
    Executing,
    Completed,
    Failed,
}

/// What a caller supplies on submission.
#[derive(Debug)]
pub struct RequestArgs {
    pub role: Roles,
    pub deadline: Option<u64>,
    pub op: RequestOp,
}

/// One queued request.
#[derive(Debug)]
pub struct PendingRequest {
    pub id: u64,
    pub role: Roles,
    pub deadline: Option<u64>,
    pub op: RequestOp,
    pub status: RequestStatus,
}

/// The mathematical shape of one queued request.
#[verifier::ext_equal]
pub struct RequestView {
    pub id: u64,
    pub role: Roles,
    pub deadline: Option<u64>,
    pub op: RequestOpView,
    pub status: RequestStatus,
}

impl View for PendingRequest {
    type V = RequestView;

    open spec fn view(&self) -> RequestView {
        RequestView {
            id: self.id,
            role: self.role,
            deadline: self.deadline,
            op: self.op@,
            status: self.status,
        }
    }
}

impl PendingRequest {
    /// A copy denoting the same request.
    pub fn dup(&self) -> (r: PendingRequest)
        ensures
            r@ == self@,
    {
        let r = PendingRequest {
            id: self.id,
            role: self.role,
            deadline: self.deadline,
            op: self.op.dup(),
            status: self.status,
        };
        proof {
            assert(r@ =~= self@);
        }
        r
    }
}

/// Whether some queued request carries the given id.
pub open spec fn contains_id(s: Seq<PendingRequest>, id: u64) -> bool {
    exists|i: int| 0 <= i < s.len() && s[i].id == id
}

/// The index of the request carrying the given id.
pub open spec fn index_of_id(s: Seq<PendingRequest>, id: u64) -> int {
    choose|i: int| 0 <= i < s.len() && s[i].id == id
}

/// Whether a request still awaits completion: pending or executing, not yet
/// terminal.
pub open spec fn spec_is_active(status: RequestStatus) -> bool {
    status == RequestStatus::Pending || status == RequestStatus::Executing
}

/// Keeps the requests that still await completion.
pub open spec fn active_pred() -> spec_fn(RequestView) -> bool {
    (|v: RequestView| spec_is_active(v.status))
}

/// The views of a request queue, in queue order.
pub open spec fn views_of_requests(s: Seq<PendingRequest>) -> Seq<RequestView> {
    s.map_values(|r: PendingRequest| r@)
}

/// The request queue: requests ordered by strictly increasing id, and the
/// next id to assign, never reused.
#[derive(Debug)]
pub struct RequestEngine {
    pub requests: Vec<PendingRequest>,
    pub next_id: u64,
}

impl RequestEngine {
    /// Ids strictly increase in queue order and stay below the next id.
    pub open spec fn wf(&self) -> bool {
        &&& forall|i: int, j: int|
            0 <= i < j < self.requests@.len() ==> self.requests@[i].id < self.requests@[j].id
        &&& forall|i: int|
            0 <= i < self.requests@.len() ==> #[trigger] self.requests@[i].id < self.next_id
    }

    /// The queued request with the given id, if any.
    pub open spec fn spec_find(&self, id: u64) -> Option<RequestView> {
        if contains_id(self.requests@, id) {
            Some(self.requests@[index_of_id(self.requests@, id)]@)
        } else {
            None
        }
    }

    /// Any entry carrying an id is the entry `spec_find` reads.
    pub proof fn lemma_id_pins_find(&self, id: u64, i: int)
        requires
            self.wf(),
            0 <= i < self.requests@.len(),
            self.requests@[i].id == id,
        ensures
            contains_id(self.requests@, id),
            index_of_id(self.requests@, id) == i,
            self.spec_find(id) == Some(self.requests@[i]@),
    {
        assert(contains_id(self.requests@, id));
        let j = index_of_id(self.requests@, id);
        if j != i {
            if j < i {
                assert(self.requests@[j].id < self.requests@[i].id);
            } else {
                assert(self.requests@[i].id < self.requests@[j].id);
            }
        }
    }

    /// An empty queue.
    pub fn new() -> (r: RequestEngine)
        ensures
            r.wf(),
            r.requests@.len() == 0,
            r.next_id == 0,
    {
        RequestEngine { requests: Vec::new(), next_id: 0 }
    }

    /// Every id already queued is smaller than the next id to assign, and
    /// queued ids strictly increase in submission order: each submission's
    /// id exceeds every id queued before it.
    pub proof fn lemma_submitted_ids_monotone(&self)
        requires
            self.wf(),
        ensures
            forall|i: int, j: int|
                0 <= i < j < self.requests@.len() ==> self.requests@[i].id < self.requests@[j].id,
            forall|i: int|
                0 <= i < self.requests@.len() ==> #[trigger] self.requests@[i].id < self.next_id,
    {
    }

    /// Enqueues a request under the next id, with `Pending` status. The id
    /// is strictly greater than every previously assigned id.
    pub fn submit(&mut self, args: RequestArgs) -> (id: u64)
        requires
            old(self).wf(),
            old(self).next_id < u64::MAX,
        ensures
            final(self).wf(),
            id == old(self).next_id,
            final(self).next_id == old(self).next_id + 1,
            final(self).requests@.len() == old(self).requests@.len() + 1,
            final(self).spec_find(id) == Some(
                RequestView {
                    id,
                    role: args.role,
                    deadline: args.deadline,
                    op: args.op@,
                    status: RequestStatus::Pending,
                },
            ),
            forall|x: u64| x != id ==> final(self).spec_find(x) == old(self).spec_find(x),
    {
        let id = self.next_id;
        let ghost olds = self.requests@;
        let request = PendingRequest {
            id,
            role: args.role,
            deadline: args.deadline,
            op: args.op,
            status: RequestStatus::Pending,
        };
        self.requests.push(request);
        self.next_id = self.next_id + 1;
        proof {
            let news = self.requests@;
            let n = olds.len() as int;
            assert(news[n].id == id);
            self.lemma_id_pins_find(id, n);
            assert(self.spec_find(id) matches Some(v) && v =~= RequestView {
                id,
                role: args.role,
                deadline: args.deadline,
                op: args.op@,
                status: RequestStatus::Pending,
            });
            assert forall|x: u64| x != id implies self.spec_find(x) == old(self).spec_find(x) by {
                if contains_id(olds, x) {
                    let j = index_of_id(olds, x);
                    assert(news[j].id == x);
                    self.lemma_id_pins_find(x, j);
                    old(self).lemma_id_pins_find(x, j);
                } else {
                    if contains_id(news, x) {
                        let j = index_of_id(news, x);
                        assert(j != n);
                        assert(olds[j].id == x);
                    }
                }
            }
        }
        id
    }

    /// Validates an operation against the target ledger, then enqueues it:
    /// an invalid operation is rejected synchronously and nothing is queued.
    pub fn submit_validated(&mut self, args: RequestArgs, ledger: &Ledger) -> (r: Result<
        u64,
        RequestError,
    >)
        requires
            old(self).wf(),
            old(self).next_id < u64::MAX,
            ledger.wf(),
        ensures
            final(self).wf(),
            (args.op@ matches RequestOpView::DeployContract { chain_id, .. } && ledger.spec_binding(
                ChainKindView::Evm(chain_id),
            ) is None) ==> r == Err::<u64, RequestError>(RequestError::ChainNotInitialized)
                && *final(self) == *old(self),
            (!(args.op@ is DeployContract) || (args.op@ matches RequestOpView::DeployContract {
                chain_id,
                ..
            } && ledger.spec_binding(ChainKindView::Evm(chain_id)) is Some)) ==> ({
                &&& r matches Ok(id) && id == old(self).next_id
                &&& final(self).next_id == old(self).next_id + 1
                &&& final(self).spec_find(old(self).next_id) == Some(
                    RequestView {
                        id: old(self).next_id,
                        role: args.role,
                        deadline: args.deadline,
                        op: args.op@,
                        status: RequestStatus::Pending,
                    },
                )
                &&& forall|x: u64|
                    x != old(self).next_id ==> final(self).spec_find(x) == old(self).spec_find(x)
            }),
    {
        match args.op.validate(ledger) {
            Ok(_) => Ok(self.submit(args)),
            Err(e) => Err(e),
        }
    }

    /// A read-only snapshot of the pending requests: exactly the queued
    /// requests that have not reached a terminal status, ordered by id
    /// ascending. Terminal records stay queued (so re-execution still fails
    /// with `AlreadyExecuted`) but do not appear here.
    pub fn requests(&self) -> (r: Vec<PendingRequest>)
        requires
            self.wf(),
        ensures
            views_of_requests(r@) == views_of_requests(self.requests@).filter(active_pred()),
            forall|i: int| 0 <= i < r@.len() ==> spec_is_active(#[trigger] r@[i]@.status),
            forall|i: int, j: int| 0 <= i < j < r@.len() ==> r@[i]@.id < r@[j]@.id,
    {
        let ghost all = views_of_requests(self.requests@);
        let mut r: Vec<PendingRequest> = Vec::new();
        let mut i: usize = 0;
        proof {
            reveal(Seq::filter);
            assert(all.subrange(0, 0) =~= Seq::<RequestView>::empty());
            assert(views_of_requests(r@) =~= all.subrange(0, 0).filter(active_pred()));
        }
        while i < self.requests.len()
            invariant
                self.wf(),
                i <= self.requests@.len(),
                all == views_of_requests(self.requests@),
                all.len() == self.requests@.len(),
                views_of_requests(r@) == all.subrange(0, i as int).filter(active_pred()),
                forall|j: int| 0 <= j < r@.len() ==> spec_is_active(#[trigger] r@[j]@.status),
                forall|j: int|
                    0 <= j < r@.len() ==> exists|m: int|
                        0 <= m < i && #[trigger] r@[j]@.id == self.requests@[m].id,
                forall|a: int, b: int| 0 <= a < b < r@.len() ==> r@[a]@.id < r@[b]@.id,
            decreases self.requests@.len() - i,
        {
            let ghost pre = all.subrange(0, i as int);
            let ghost cur = all.subrange(0, i + 1);
            proof {
                reveal(Seq::filter);
                assert(cur.drop_last() =~= pre);
                assert(cur.last() == all[i as int]);
            }
            let active = match self.requests[i].status {
                RequestStatus::Pending => true,
                RequestStatus::Executing => true,
                _ => false,
            };
            if active {
                let ghost before = views_of_requests(r@);
                proof {
                    assert forall|a: int| 0 <= a < r@.len() implies r@[a]@.id
                        < self.requests@[i as int].id by {
                        let m = choose|m: int|
                            0 <= m < i && r@[a]@.id == self.requests@[m].id;
                        assert(self.requests@[m].id < self.requests@[i as int].id);
                    }
                }
                r.push(self.requests[i].dup());
                proof {
                    assert(views_of_requests(r@) =~= before.push(all[i as int]));
                    assert(cur.filter(active_pred()) =~= pre.filter(active_pred()).push(
                        all[i as int],
                    ));
                    assert(r@[r@.len() - 1]@.id == self.requests@[i as int].id);
                }
            } else {
                proof {
                    assert(!spec_is_active(all[i as int].status));
                    assert(cur.filter(active_pred()) =~= pre.filter(active_pred()));
                }
            }
            i = i + 1;
        }
        proof {
            assert(all.subrange(0, all.len() as int) =~= all);
        }
        r
    }

    /// Starts executing a pending request: checks the id is queued, the
    /// caller's role suffices, and the deadline has not passed. An expired
    /// request is evicted and never executed; a request that already left
    /// `Pending` fails with `AlreadyExecuted`. On success the request is
    /// marked `Executing` and its operation is returned for dispatch.
    pub fn execute(&mut self, id: u64, caller_role: Roles, now: u64) -> (r: Result<
        RequestOp,
        RequestError,
    >)
        requires
            old(self).wf(),
        ensures
            final(self).wf(),
            old(self).spec_find(id) is None ==> r == Err::<RequestOp, RequestError>(
                RequestError::RequestNotFound,
            ) && *final(self) == *old(self),
            old(self).spec_find(id) matches Some(v) ==> {
                &&& v.status != RequestStatus::Pending ==> r == Err::<RequestOp, RequestError>(
                    RequestError::AlreadyExecuted,
                ) && *final(self) == *old(self)
                &&& (v.status == RequestStatus::Pending && !spec_role_satisfies(
                    caller_role,
                    v.role,
                )) ==> r == Err::<RequestOp, RequestError>(RequestError::Forbidden) && *final(self)
                    == *old(self)
                &&& (v.status == RequestStatus::Pending && spec_role_satisfies(caller_role, v.role)
                    && (v.deadline matches Some(d) && now > d)) ==> ({
                    &&& r == Err::<RequestOp, RequestError>(RequestError::Expired)
                    &&& final(self).spec_find(id) is None
                    &&& forall|x: u64| x != id ==> final(self).spec_find(x) == old(self).spec_find(
                        x,
                    )
                    &&& final(self).next_id == old(self).next_id
                })
                &&& (v.status == RequestStatus::Pending && spec_role_satisfies(caller_role, v.role)
                    && !(v.deadline matches Some(d) && now > d)) ==> ({
                    &&& r matches Ok(op) && op@ == v.op
                    &&& final(self).spec_find(id) == Some(
                        RequestView { status: RequestStatus::Executing, ..v },
                    )
                    &&& forall|x: u64| x != id ==> final(self).spec_find(x) == old(self).spec_find(
                        x,
                    )
                    &&& final(self).next_id == old(self).next_id
                })
            },
    {
        let n = self.requests.len();
        let mut i: usize = 0;
        while i < n
            invariant
                n == self.requests@.len(),
                i <= n,
                forall|j: int| 0 <= j < i ==> self.requests@[j].id != id,
                *self == *old(self),
                old(self).wf(),
            decreases n - i,
        {
            if self.requests[i].id == id {
                proof {
                    old(self).lemma_id_pins_find(id, i as int);
                }
                match self.requests[i].status {
                    RequestStatus::Pending => {},
                    _ => {
                        return Err(RequestError::AlreadyExecuted);
                    },
                }
                if !role_satisfies(caller_role, self.requests[i].role) {
                    return Err(RequestError::Forbidden);
                }
                let expired = match self.requests[i].deadline {
                    Some(d) => now > d,
                    None => false,
                };
                if expired {
                    let ghost olds = self.requests@;
                    self.requests.remove(i);
                    proof {
                        let news = self.requests@;
                        let ii = i as int;
                        assert(news =~= olds.subrange(0, ii) + olds.subrange(
                            ii + 1,
                            olds.len() as int,
                        ));
                        assert forall|a2: int, b2: int|
                            0 <= a2 < b2 < news.len() implies news[a2].id < news[b2].id by {
                            let oa = if a2 < ii { a2 } else { a2 + 1 };
                            let ob = if b2 < ii { b2 } else { b2 + 1 };
                            assert(olds[oa].id < olds[ob].id);
                        }
                        assert forall|a2: int| 0 <= a2 < news.len() implies news[a2].id != id by {
                            let oa = if a2 < ii { a2 } else { a2 + 1 };
                            if olds[oa].id == id {
                                old(self).lemma_id_pins_find(id, oa);
                            }
                        }
                        assert(!contains_id(news, id));
                        assert forall|x: u64| x != id implies self.spec_find(x) == old(
                            self,
                        ).spec_find(x) by {
                            if contains_id(olds, x) {
                                let j = index_of_id(olds, x);
                                assert(olds[j].id == x);
                                assert(j != ii);
                                let nj = if j < ii { j } else { j - 1 };
                                assert(news[nj].id == x);
                                self.lemma_id_pins_find(x, nj);
                                old(self).lemma_id_pins_find(x, j);
                            } else {
                                if contains_id(news, x) {
                                    let nj = index_of_id(news, x);
                                    let oj = if nj < ii { nj } else { nj + 1 };
                                    assert(olds[oj].id == x);
                                }
                            }
                        }
                    }
                    return Err(RequestError::Expired);
                }
                let op = self.requests[i].op.dup();
                let ghost olds = self.requests@;
                let e = request_mut(&mut self.requests, i);
                e.status = RequestStatus::Executing;
                proof {
                    let news = self.requests@;
                    let ii = i as int;
                    assert(news =~= olds.update(ii, news[ii]));
                    assert forall|a2: int, b2: int|
                        0 <= a2 < b2 < news.len() implies news[a2].id < news[b2].id by {
                        assert(olds[a2].id < olds[b2].id);
                    }
                    self.lemma_id_pins_find(id, ii);
                    assert(self.spec_find(id) matches Some(v2) && v2 =~= RequestView {
                        status: RequestStatus::Executing,
                        ..old(self).spec_find(id)->Some_0
                    });
                    assert forall|x: u64| x != id implies self.spec_find(x) == old(self).spec_find(
                        x,
                    ) by {
                        if contains_id(olds, x) {
                            let j = index_of_id(olds, x);
                            assert(news[j].id == x);
                            self.lemma_id_pins_find(x, j);
                            old(self).lemma_id_pins_find(x, j);
                        } else {
                            if contains_id(news, x) {
                                let j = index_of_id(news, x);
                                assert(olds[j].id == x);
                            }
                        }
                    }
                }
                return Ok(op);
            }
            i = i + 1;
        }
        proof {
            if contains_id(old(self).requests@, id) {
                let j = index_of_id(old(self).requests@, id);
                assert(old(self).requests@[j].id == id);
            }
        }
        Err(RequestError::RequestNotFound)
    }

    /// Records the outcome of a dispatched request: `Completed` on success,
    /// `Failed` on error. Only a request in `Executing` accepts an outcome;
    /// it then reaches its terminal status exactly once.
    pub fn record_outcome(&mut self, id: u64, success: bool) -> (r: Result<(), RequestError>)
        requires
            old(self).wf(),
        ensures
            final(self).wf(),
            old(self).spec_find(id) is None ==> r == Err::<(), RequestError>(
                RequestError::RequestNotFound,
            ) && *final(self) == *old(self),
            old(self).spec_find(id) matches Some(v) ==> {
                &&& v.status != RequestStatus::Executing ==> r == Err::<(), RequestError>(
                    RequestError::AlreadyExecuted,
                ) && *final(self) == *old(self)
                &&& v.status == RequestStatus::Executing ==> ({
                    &&& r == Ok::<(), RequestError>(())
                    &&& final(self).spec_find(id) == Some(
                        RequestView {
                            status: if success {
                                RequestStatus::Completed
                            } else {
                                RequestStatus::Failed
                            },
                            ..v
                        },
                    )
                    &&& forall|x: u64| x != id ==> final(self).spec_find(x) == old(self).spec_find(
                        x,
                    )
                    &&& final(self).next_id == old(self).next_id
                })
            },
    {
        let n = self.requests.len();
        let mut i: usize = 0;
        while i < n
            invariant
                n == self.requests@.len(),
                i <= n,
                forall|j: int| 0 <= j < i ==> self.requests@[j].id != id,
                *self == *old(self),
                old(self).wf(),
            decreases n - i,
        {
            if self.requests[i].id == id {
                proof {
                    old(self).lemma_id_pins_find(id, i as int);
                }
                match self.requests[i].status {
                    RequestStatus::Executing => {},
                    _ => {
                        return Err(RequestError::AlreadyExecuted);
                    },
                }
                let ghost olds = self.requests@;
                let e = request_mut(&mut self.requests, i);
                e.status = if success {
                    RequestStatus::Completed
                } else {
                    RequestStatus::Failed
                };
                proof {
                    let news = self.requests@;
                    let ii = i as int;
                    assert(news =~= olds.update(ii, news[ii]));
                    assert forall|a2: int, b2: int|
                        0 <= a2 < b2 < news.len() implies news[a2].id < news[b2].id by {
                        assert(olds[a2].id < olds[b2].id);
                    }
                    self.lemma_id_pins_find(id, ii);
                    assert(self.spec_find(id) matches Some(v2) && v2 =~= RequestView {
                        status: if success {
                            RequestStatus::Completed
                        } else {
                            RequestStatus::Failed
                        },
                        ..old(self).spec_find(id)->Some_0
                    });
                    assert forall|x: u64| x != id implies self.spec_find(x) == old(self).spec_find(
                        x,
                    ) by {
                        if contains_id(olds, x) {
                            let j = index_of_id(olds, x);
                            assert(news[j].id == x);
                            self.lemma_id_pins_find(x, j);
                            old(self).lemma_id_pins_find(x, j);
                        } else {
                            if contains_id(news, x) {
                                let j = index_of_id(news, x);
                                assert(olds[j].id == x);
                            }
                        }
                    }
                }
                return Ok(());
            }
            i = i + 1;
        }
        proof {
            if contains_id(old(self).requests@, id) {
                let j = index_of_id(old(self).requests@, id);
                assert(old(self).requests@[j].id == id);
            }
        }
        Err(RequestError::RequestNotFound)
    }
}

/// A mutable borrow of one queued request.
fn request_mut(v: &mut Vec<PendingRequest>, i: usize) -> (e: &mut PendingRequest)
    requires
        i < old(v)@.len(),
    ensures
        *e == old(v)@[i as int],
        final(v)@ == old(v)@.update(i as int, *final(e)),
{
    &mut v[i]
}

} // verus!
