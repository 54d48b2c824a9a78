//! The chain ledger: per-account chain bindings, each owning its derived
//! address and the in-flight bridge-transfer lists, reconciled only by
//! explicit confirmation or explicit manual clearing.

use vstd::prelude::*;

use crate::chain::{ChainKind, ChainKindView};
use crate::encoding::hex_seq;
use crate::errors::WalletError;
use crate::hashes::uncompressed_of;
use crate::public_keys::{btc_address_of, eth_address_of, PublicKeys};
use crate::subaccount::Subaccount;

verus! {

/// Keeps the handles that the confirmed set does not name.
pub open spec fn unconfirmed_pred(confirmed: Seq<Seq<char>>) -> spec_fn(Seq<char>) -> bool {
    (|h: Seq<char>| !confirmed.contains(h))
}

/// Keeps the handles that the confirmed set names.
pub open spec fn confirmed_pred(confirmed: Seq<Seq<char>>) -> spec_fn(Seq<char>) -> bool {
    (|h: Seq<char>| confirmed.contains(h))
}

/// Keeps the handles other than the one being cleared.
pub open spec fn keep_other_pred(handle: Seq<char>) -> spec_fn(Seq<char>) -> bool {
    (|h: Seq<char>| h != handle)
}

/// Copies a list of handles.
pub fn clone_strings(v: &Vec<String>) -> (r: Vec<String>)
    ensures
        r.deep_view() == v.deep_view(),
        r@.len() == v@.len(),
{
    let mut r: Vec<String> = Vec::new();
    let mut i: usize = 0;
    while i < v.len()
        invariant
            i <= v@.len(),
            r@.len() == i,
            forall|j: int| 0 <= j < i ==> #[trigger] r@[j]@ == v@[j]@,
        decreases v@.len() - i,
    {
        r.push(v[i].clone());
        i = i + 1;
    }
    proof {
        assert(r.deep_view() =~= v.deep_view());
    }
    r
}

/// Whether a handle occurs in a list.
pub fn contains_string(v: &Vec<String>, x: &String) -> (r: bool)
    ensures
        r == v.deep_view().contains(x@),
{
    let mut i: usize = 0;
    while i < v.len()
        invariant
            i <= v@.len(),
            forall|j: int| 0 <= j < i ==> #[trigger] v@[j]@ != x@,
        decreases v@.len() - i,
    {
        let a: &String = &v[i];
        if *a == *x {
            proof {
                assert(v.deep_view()[i as int] == x@);
            }
            return true;
        }
        i = i + 1;
    }
    proof {
        if v.deep_view().contains(x@) {
            let j = choose|j: int| 0 <= j < v.deep_view().len() && v.deep_view()[j] == x@;
            assert(v@[j]@ == x@);
        }
    }
    false
}

/// Splits a pending list: handles in the confirmed set are removed and
/// returned, handles outside it stay, in order.
fn partition_handles(pending: &mut Vec<String>, confirmed: &Vec<String>) -> (removed: Vec<String>)
    ensures
        final(pending).deep_view() == old(pending).deep_view().filter(
            unconfirmed_pred(confirmed.deep_view()),
        ),
        removed.deep_view() == old(pending).deep_view().filter(
            confirmed_pred(confirmed.deep_view()),
        ),
{
    let ghost keep_pred = unconfirmed_pred(confirmed.deep_view());
    let ghost drop_pred = confirmed_pred(confirmed.deep_view());
    let ghost all = pending.deep_view();
    let mut kept: Vec<String> = Vec::new();
    let mut removed: Vec<String> = Vec::new();
    let mut i: usize = 0;
    proof {
        reveal(Seq::filter);
        assert(all.subrange(0, 0) =~= Seq::<Seq<char>>::empty());
    }
    while i < pending.len()
        invariant
            i <= pending@.len(),
            all == pending.deep_view(),
            all.len() == pending@.len(),
            kept.deep_view() == all.subrange(0, i as int).filter(keep_pred),
            removed.deep_view() == all.subrange(0, i as int).filter(drop_pred),
            keep_pred == unconfirmed_pred(confirmed.deep_view()),
            drop_pred == confirmed_pred(confirmed.deep_view()),
        decreases pending@.len() - i,
    {
        let ghost pre = all.subrange(0, i as int);
        let ghost cur = all.subrange(0, i + 1);
        proof {
            reveal(Seq::filter);
            assert(cur.drop_last() =~= pre);
            assert(cur.last() == all[i as int]);
        }
        let h = pending[i].clone();
        if contains_string(confirmed, &h) {
            let ghost before = removed.deep_view();
            removed.push(h);
            proof {
                assert(removed.deep_view() =~= before.push(all[i as int]));
                assert(cur.filter(drop_pred) =~= pre.filter(drop_pred).push(all[i as int]));
                assert(cur.filter(keep_pred) =~= pre.filter(keep_pred));
            }
        } else {
            let ghost before = kept.deep_view();
            kept.push(h);
            proof {
                assert(kept.deep_view() =~= before.push(all[i as int]));
                assert(cur.filter(keep_pred) =~= pre.filter(keep_pred).push(all[i as int]));
                assert(cur.filter(drop_pred) =~= pre.filter(drop_pred));
            }
        }
        i = i + 1;
    }
    proof {
        assert(all.subrange(0, all.len() as int) =~= all);
    }
    *pending = kept;
    removed
}

/// Removes every occurrence of one handle; a no-op when it is absent.
fn remove_handle(pending: &mut Vec<String>, handle: &String)
    ensures
        final(pending).deep_view() == old(pending).deep_view().filter(keep_other_pred(handle@)),
{
    let ghost keep_pred = keep_other_pred(handle@);
    let ghost all = pending.deep_view();
    let mut kept: Vec<String> = Vec::new();
    let mut i: usize = 0;
    proof {
        reveal(Seq::filter);
        assert(all.subrange(0, 0) =~= Seq::<Seq<char>>::empty());
    }
    while i < pending.len()
        invariant
            i <= pending@.len(),
            all == pending.deep_view(),
            all.len() == pending@.len(),
            kept.deep_view() == all.subrange(0, i as int).filter(keep_pred),
            keep_pred == keep_other_pred(handle@),
        decreases pending@.len() - i,
    {
        let ghost pre = all.subrange(0, i as int);
        let ghost cur = all.subrange(0, i + 1);
        proof {
            reveal(Seq::filter);
            assert(cur.drop_last() =~= pre);
            assert(cur.last() == all[i as int]);
        }
        let h: &String = &pending[i];
        if !(*h == *handle) {
            let ghost before = kept.deep_view();
            kept.push(h.clone());
            proof {
                assert(kept.deep_view() =~= before.push(all[i as int]));
                assert(cur.filter(keep_pred) =~= pre.filter(keep_pred).push(all[i as int]));
            }
        } else {
            proof {
                assert(cur.filter(keep_pred) =~= pre.filter(keep_pred));
            }
        }
        i = i + 1;
    }
    proof {
        assert(all.subrange(0, all.len() as int) =~= all);
    }
    *pending = kept;
}

/// A handle stays after settling exactly when it was pending and is not
/// confirmed; a handle is returned exactly when it was pending and is
/// confirmed. Unconfirmed handles are untouched.
pub proof fn lemma_settle_partitions(pending: Seq<Seq<char>>, confirmed: Seq<Seq<char>>)
    ensures
        forall|x: Seq<char>|
            #[trigger] pending.filter(unconfirmed_pred(confirmed)).contains(x) <==> (
            pending.contains(x) && !confirmed.contains(x)),
        forall|x: Seq<char>|
            #[trigger] pending.filter(confirmed_pred(confirmed)).contains(x) <==> (
            pending.contains(x) && confirmed.contains(x)),
{
    let keep = unconfirmed_pred(confirmed);
    let drop = confirmed_pred(confirmed);
    assert forall|x: Seq<char>| #[trigger]
        pending.filter(keep).contains(x) implies pending.contains(x) && !confirmed.contains(x) by {
        lemma_filter_element_provenance(pending, keep, x);
    }
    assert forall|x: Seq<char>|
        pending.contains(x) && !confirmed.contains(x) implies #[trigger] pending.filter(
        keep,
    ).contains(x) by {
        let i = choose|i: int| 0 <= i < pending.len() && pending[i] == x;
        pending.lemma_filter_contains(keep, i);
    }
    assert forall|x: Seq<char>| #[trigger]
        pending.filter(drop).contains(x) implies pending.contains(x) && confirmed.contains(x) by {
        lemma_filter_element_provenance(pending, drop, x);
    }
    assert forall|x: Seq<char>|
        pending.contains(x) && confirmed.contains(x) implies #[trigger] pending.filter(
        drop,
    ).contains(x) by {
        let i = choose|i: int| 0 <= i < pending.len() && pending[i] == x;
        pending.lemma_filter_contains(drop, i);
    }
}

/// Every element of a filtered sequence comes from the original and
/// satisfies the predicate.
pub proof fn lemma_filter_element_provenance(
    s: Seq<Seq<char>>,
    pred: spec_fn(Seq<char>) -> bool,
    x: Seq<char>,
)
    requires
        s.filter(pred).contains(x),
    ensures
        s.contains(x),
        pred(x),
    decreases s.len(),
{
    reveal(Seq::filter);
    if s.len() > 0 {
        if pred(s.last()) && x == s.last() {
            assert(s[s.len() - 1] == x);
        } else {
            if pred(s.last()) {
                let f = s.filter(pred);
                let fd = s.drop_last().filter(pred);
                let i = choose|i: int| 0 <= i < f.len() && f[i] == x;
                assert(fd.push(s.last())[i] == x);
                assert(fd.contains(x));
            }
            lemma_filter_element_provenance(s.drop_last(), pred, x);
            let j = choose|j: int| 0 <= j < s.drop_last().len() && s.drop_last()[j] == x;
            assert(s[j] == x);
        }
    }
}

/// Clearing a handle that is not pending leaves the list unchanged.
pub proof fn lemma_clear_absent_is_noop(pending: Seq<Seq<char>>, handle: Seq<char>)
    requires
        !pending.contains(handle),
    ensures
        pending.filter(keep_other_pred(handle)) == pending,
    decreases pending.len(),
{
    reveal(Seq::filter);
    if pending.len() > 0 {
        assert(pending[pending.len() - 1] == pending.last());
        assert forall|i: int| 0 <= i < pending.drop_last().len() implies pending.drop_last()[i]
            != handle by {
            assert(pending[i] == pending.drop_last()[i]);
        }
        lemma_clear_absent_is_noop(pending.drop_last(), handle);
        assert(pending.filter(keep_other_pred(handle)) =~= pending);
    } else {
        assert(pending.filter(keep_other_pred(handle)) =~= pending);
    }
}

/// The mathematical shape of one chain binding.
#[verifier::ext_equal]
pub struct BindingView {
    pub address: Seq<char>,
    pub pending_receive: Seq<Seq<char>>,
    pub pending_send: Seq<Seq<char>>,
}

/// One bound chain: the derived address and the in-flight bridge transfers.
#[derive(Debug)]
pub struct ChainBinding {
    pub address: String,
    pub pending_receive: Vec<String>,
    pub pending_send: Vec<String>,
}

impl View for ChainBinding {
    type V = BindingView;

    open spec fn view(&self) -> BindingView {
        BindingView {
            address: self.address@,
            pending_receive: self.pending_receive.deep_view(),
            pending_send: self.pending_send.deep_view(),
        }
    }
}

impl ChainBinding {
    /// A fresh binding: the derived address and no in-flight transfers.
    pub fn new(address: String) -> (r: ChainBinding)
        ensures
            r@.address == address@,
            r@.pending_receive == Seq::<Seq<char>>::empty(),
            r@.pending_send == Seq::<Seq<char>>::empty(),
    {
        let r = ChainBinding { address, pending_receive: Vec::new(), pending_send: Vec::new() };
        proof {
            assert(r@.pending_receive =~= Seq::<Seq<char>>::empty());
            assert(r@.pending_send =~= Seq::<Seq<char>>::empty());
        }
        r
    }

    /// A copy of this binding.
    pub fn dup(&self) -> (r: ChainBinding)
        ensures
            r@ == self@,
    {
        let r = ChainBinding {
            address: self.address.clone(),
            pending_receive: clone_strings(&self.pending_receive),
            pending_send: clone_strings(&self.pending_send),
        };
        proof {
            assert(r@ =~= self@);
        }
        r
    }

    /// Records a bridge-in handle returned by the external backend.
    pub fn add_pending_receive(&mut self, tx_id: String)
        ensures
            final(self)@.pending_receive == old(self)@.pending_receive.push(tx_id@),
            final(self)@.pending_send == old(self)@.pending_send,
            final(self)@.address == old(self)@.address,
    {
        self.pending_receive.push(tx_id);
        proof {
            assert(self@.pending_receive =~= old(self)@.pending_receive.push(
                self.pending_receive@.last()@,
            ));
        }
    }

    /// Records a bridge-out handle returned by the external backend.
    pub fn add_pending_send(&mut self, tx_id: String)
        ensures
            final(self)@.pending_send == old(self)@.pending_send.push(tx_id@),
            final(self)@.pending_receive == old(self)@.pending_receive,
            final(self)@.address == old(self)@.address,
    {
        self.pending_send.push(tx_id);
        proof {
            assert(self@.pending_send =~= old(self)@.pending_send.push(
                self.pending_send@.last()@,
            ));
        }
    }

    /// Manually clears a bridge-in handle; a no-op when it is absent.
    pub fn remove_pending_receive(&mut self, tx_id: &String)
        ensures
            final(self)@.pending_receive == old(self)@.pending_receive.filter(
                keep_other_pred(tx_id@),
            ),
            final(self)@.pending_send == old(self)@.pending_send,
            final(self)@.address == old(self)@.address,
    {
        remove_handle(&mut self.pending_receive, tx_id);
    }

    /// Manually clears a bridge-out handle; a no-op when it is absent.
    pub fn remove_pending_send(&mut self, tx_id: &String)
        ensures
            final(self)@.pending_send == old(self)@.pending_send.filter(
                keep_other_pred(tx_id@),
            ),
            final(self)@.pending_receive == old(self)@.pending_receive,
            final(self)@.address == old(self)@.address,
    {
        remove_handle(&mut self.pending_send, tx_id);
    }

    /// Reconciles bridge-in transfers: removes exactly the handles the
    /// backend confirmed and returns them; unconfirmed handles stay for the
    /// next poll.
    pub fn settle_receive(&mut self, confirmed: &Vec<String>) -> (removed: Vec<String>)
        ensures
            final(self)@.pending_receive == old(self)@.pending_receive.filter(
                unconfirmed_pred(confirmed.deep_view()),
            ),
            removed.deep_view() == old(self)@.pending_receive.filter(
                confirmed_pred(confirmed.deep_view()),
            ),
            final(self)@.pending_send == old(self)@.pending_send,
            final(self)@.address == old(self)@.address,
    {
        partition_handles(&mut self.pending_receive, confirmed)
    }

    /// Reconciles bridge-out transfers, symmetric to `settle_receive`.
    pub fn settle_send(&mut self, confirmed: &Vec<String>) -> (removed: Vec<String>)
        ensures
            final(self)@.pending_send == old(self)@.pending_send.filter(
                unconfirmed_pred(confirmed.deep_view()),
            ),
            removed.deep_view() == old(self)@.pending_send.filter(
                confirmed_pred(confirmed.deep_view()),
            ),
            final(self)@.pending_receive == old(self)@.pending_receive,
            final(self)@.address == old(self)@.address,
    {
        partition_handles(&mut self.pending_send, confirmed)
    }
}

/// One bound chain of a ledger, keyed by its chain kind.
#[derive(Debug)]
pub struct ChainEntry {
    pub kind: ChainKind,
    pub binding: ChainBinding,
}

/// Whether some entry carries the given chain kind.
pub open spec fn contains_chain(s: Seq<ChainEntry>, k: ChainKindView) -> bool {
    exists|i: int| 0 <= i < s.len() && s[i].kind@ == k
}

/// The index of the entry carrying the given chain kind.
pub open spec fn index_of_chain(s: Seq<ChainEntry>, k: ChainKindView) -> int {
    choose|i: int| 0 <= i < s.len() && s[i].kind@ == k
}

/// A mutable borrow of one chain entry.
fn chain_entry_mut(v: &mut Vec<ChainEntry>, i: usize) -> (e: &mut ChainEntry)
    requires
        i < old(v)@.len(),
    ensures
        *e == old(v)@[i as int],
        final(v)@ == old(v)@.update(i as int, *final(e)),
{
    &mut v[i]
}

/// The address a ledger can derive for a chain kind right now: the
/// identifier text for ledger-style kinds; the key-derived address for
/// Bitcoin and EVM kinds, available only once a valid key is set.
pub open spec fn spec_address_of_kind(pk: PublicKeys, k: ChainKindView) -> Option<Seq<char>> {
    match k {
        ChainKindView::Bitcoin(n) => if pk.spec_is_ecdsa_set() {
            Some(btc_address_of(pk.spec_ecdsa()->Some_0, n))
        } else {
            None
        },
        ChainKindView::Evm(_) => if pk.spec_is_ecdsa_set() && uncompressed_of(
            pk.spec_ecdsa()->Some_0,
        ) is Some {
            Some(eth_address_of(pk.spec_ecdsa()->Some_0))
        } else {
            None
        },
        _ => Some(hex_seq(pk.identifier.0@)),
    }
}

/// The per-account chain ledger: the owning subaccount, the address book
/// with its set-once key, and one binding per bound chain kind.
#[derive(Debug)]
pub struct Ledger {
    pub subaccount: Subaccount,
    pub public_keys: PublicKeys,
    pub chains: Vec<ChainEntry>,
}

impl Ledger {
    /// Well-formed: the subaccount and address book are, each chain kind is
    /// bound at most once, and no binding for a key-dependent kind exists
    /// before the public key is set.
    pub open spec fn wf(&self) -> bool {
        &&& self.subaccount.wf()
        &&& self.public_keys.wf()
        &&& forall|i: int, j: int|
            0 <= i < j < self.chains@.len() ==> self.chains@[i].kind@ != self.chains@[j].kind@
        &&& forall|i: int|
            0 <= i < self.chains@.len() && #[trigger] crate::chain::view_requires_public_key(
                self.chains@[i].kind@,
            ) ==> self.public_keys.spec_is_ecdsa_set()
    }

    /// The binding stored for a chain kind, if any.
    pub open spec fn spec_binding(&self, k: ChainKindView) -> Option<BindingView> {
        if contains_chain(self.chains@, k) {
            Some(self.chains@[index_of_chain(self.chains@, k)].binding@)
        } else {
            None
        }
    }

    /// Any entry carrying kind `k` is the entry `spec_binding` reads.
    pub proof fn lemma_chain_pins_binding(&self, k: ChainKindView, i: int)
        requires
            self.wf(),
            0 <= i < self.chains@.len(),
            self.chains@[i].kind@ == k,
        ensures
            contains_chain(self.chains@, k),
            index_of_chain(self.chains@, k) == i,
            self.spec_binding(k) == Some(self.chains@[i].binding@),
    {
        assert(contains_chain(self.chains@, k));
        let j = index_of_chain(self.chains@, k);
        if j != i {
            if j < i {
                assert(self.chains@[j].kind@ != self.chains@[i].kind@);
            } else {
                assert(self.chains@[i].kind@ != self.chains@[j].kind@);
            }
        }
    }

    /// A fresh ledger for a subaccount under an owner: no key, no bound
    /// chains, and the native-ledger address precomputed in the address
    /// book.
    pub fn new(subaccount: Subaccount, owner: &Vec<u8>) -> (r: Ledger)
        requires
            subaccount.wf(),
        ensures
            r.wf(),
            r.subaccount == subaccount,
            !r.public_keys.spec_is_ecdsa_set(),
            r.public_keys.identifier.0@ == crate::identifier::identifier_seq(
                owner@,
                subaccount.0@,
            ),
            r.chains@.len() == 0,
            forall|k: ChainKindView| r.spec_binding(k) == None::<BindingView>,
    {
        let public_keys = PublicKeys::from_subaccount(&subaccount, owner);
        Ledger { subaccount, public_keys, chains: Vec::new() }
    }

    /// Whether the set-once public key has been set.
    pub fn is_public_key_set(&self) -> (r: bool)
        ensures
            r == self.public_keys.spec_is_ecdsa_set(),
    {
        self.public_keys.is_ecdsa_set()
    }

    /// Sets the public key, with the address book's set-once contract; the
    /// bound chains are untouched.
    pub fn set_ecdsa_public_key(&mut self, ecdsa: Vec<u8>) -> (r: Result<
        crate::chain::AddressMap,
        WalletError,
    >)
        requires
            old(self).wf(),
        ensures
            final(self).wf(),
            final(self).subaccount == old(self).subaccount,
            final(self).chains == old(self).chains,
            old(self).public_keys.spec_is_ecdsa_set() ==> r == Err::<
                crate::chain::AddressMap,
                WalletError,
            >(WalletError::AlreadySet) && *final(self) == *old(self),
            !old(self).public_keys.spec_is_ecdsa_set() && ecdsa@.len() != 33 ==> r == Err::<
                crate::chain::AddressMap,
                WalletError,
            >(WalletError::InvalidKeyLength) && *final(self) == *old(self),
            !old(self).public_keys.spec_is_ecdsa_set() && ecdsa@.len() == 33 ==> {
                &&& (uncompressed_of(ecdsa@) is Some ==> r is Ok && final(self).public_keys.spec_ecdsa() == Some(ecdsa@) && final(self).public_keys.addresses.spec_get(ChainKindView::Evm(0)) == Some(
                    eth_address_of(ecdsa@),
                ) && final(self).public_keys.addresses.spec_get(
                    ChainKindView::Bitcoin(crate::chain::BtcNetwork::Mainnet),
                ) == Some(btc_address_of(ecdsa@, crate::chain::BtcNetwork::Mainnet)))
                &&& (uncompressed_of(ecdsa@) is None ==> r == Err::<
                    crate::chain::AddressMap,
                    WalletError,
                >(WalletError::GenerateError) && *final(self) == *old(self))
            },
    {
        self.public_keys.set_ecdsa(ecdsa)
    }

    /// Binds a chain kind: derives its address, creates an empty transfer
    /// ledger for a fresh kind, and preserves the existing transfer lists
    /// when re-binding a bound kind. Fails with `MissingPublicKey` for a
    /// key-dependent kind before the key is set, and with `GenerateError`
    /// when the set key decodes to no curve point.
    pub fn bind_chain(&mut self, kind: &ChainKind) -> (r: Result<(), WalletError>)
        requires
            old(self).wf(),
        ensures
            final(self).wf(),
            final(self).subaccount == old(self).subaccount,
            final(self).public_keys.ecdsa == old(self).public_keys.ecdsa,
            final(self).public_keys.identifier == old(self).public_keys.identifier,
            (r is Ok) == (spec_address_of_kind(old(self).public_keys, kind@) is Some),
            r is Ok ==> ({
                let a = spec_address_of_kind(old(self).public_keys, kind@)->Some_0;
                &&& final(self).spec_binding(kind@) matches Some(b) && b.address == a
                    && b.pending_receive == (if old(self).spec_binding(kind@) is Some {
                    (old(self).spec_binding(kind@)->Some_0).pending_receive
                } else {
                    Seq::<Seq<char>>::empty()
                }) && b.pending_send == (if old(self).spec_binding(kind@) is Some {
                    (old(self).spec_binding(kind@)->Some_0).pending_send
                } else {
                    Seq::<Seq<char>>::empty()
                })
                &&& forall|x: ChainKindView|
                    x != kind@ ==> final(self).spec_binding(x) == old(self).spec_binding(x)
            }),
            r is Err ==> *final(self) == *old(self) && (r == Err::<(), WalletError>(
                WalletError::MissingPublicKey,
            ) || r == Err::<(), WalletError>(WalletError::GenerateError)),
            !old(self).public_keys.spec_is_ecdsa_set() && kind.spec_requires_public_key() ==> r
                == Err::<(), WalletError>(WalletError::MissingPublicKey),
    {
        let address = match self.public_keys.generate_address(kind.dup()) {
            Ok(a) => a,
            Err(e) => {
                return Err(e);
            },
        };
        proof {
            let k = kind@;
            let pk = old(self).public_keys;
            if k is Bitcoin {
                assert(pk.spec_is_ecdsa_set());
            } else if k is Evm {
                assert(pk.spec_is_ecdsa_set());
                assert(uncompressed_of(pk.spec_ecdsa()->Some_0) is Some);
            }
            assert(spec_address_of_kind(pk, k) is Some);
            assert(address@ == spec_address_of_kind(pk, k)->Some_0);
        }
        let ghost pk_now = self.public_keys;
        let n = self.chains.len();
        let mut i: usize = 0;
        while i < n
            invariant
                n == self.chains@.len(),
                i <= n,
                forall|j: int| 0 <= j < i ==> self.chains@[j].kind@ != kind@,
                old(self).wf(),
                self.subaccount == old(self).subaccount,
                self.public_keys == pk_now,
                pk_now.wf(),
                pk_now.ecdsa == old(self).public_keys.ecdsa,
                pk_now.identifier == old(self).public_keys.identifier,
                self.chains == old(self).chains,
                spec_address_of_kind(old(self).public_keys, kind@) is Some,
                address@ == spec_address_of_kind(old(self).public_keys, kind@)->Some_0,
            decreases n - i,
        {
            let hit = self.chains[i].kind.kind_eq(kind);
            if hit {
                let ghost olds = self.chains@;
                let e = chain_entry_mut(&mut self.chains, i);
                e.binding.set_address(address);
                proof {
                    let news = self.chains@;
                    let ii = i as int;
                    assert(news =~= olds.update(ii, news[ii]));
                    assert(news[ii].kind@ == kind@);
                    assert forall|a2: int, b2: int|
                        0 <= a2 < b2 < news.len() implies news[a2].kind@ != news[b2].kind@ by {
                        assert(olds[a2].kind@ != olds[b2].kind@);
                    }
                    self.lemma_chain_pins_binding(kind@, ii);
                    old(self).lemma_chain_pins_binding(kind@, ii);
                    assert forall|x: ChainKindView| x != kind@ implies self.spec_binding(x) == old(self).spec_binding(x) by {
                        if contains_chain(olds, x) {
                            let j = index_of_chain(olds, x);
                            assert(news[j].kind@ == x);
                            self.lemma_chain_pins_binding(x, j);
                            old(self).lemma_chain_pins_binding(x, j);
                        } else {
                            if contains_chain(news, x) {
                                let j = index_of_chain(news, x);
                                assert(olds[j].kind@ == x);
                            }
                        }
                    }
                }
                return Ok(());
            }
            i = i + 1;
        }
        let ghost olds = self.chains@;
        self.chains.push(ChainEntry { kind: kind.dup(), binding: ChainBinding::new(address) });
        proof {
            let news = self.chains@;
            let m = olds.len() as int;
            assert(news[m].kind@ == kind@);
            assert(!contains_chain(olds, kind@));
            assert forall|a2: int, b2: int|
                0 <= a2 < b2 < news.len() implies news[a2].kind@ != news[b2].kind@ by {
                if b2 < m {
                    assert(olds[a2].kind@ != olds[b2].kind@);
                } else {
                    assert(news[a2].kind@ == olds[a2].kind@);
                    if news[a2].kind@ == kind@ {
                        assert(contains_chain(olds, kind@));
                    }
                }
            }
            self.lemma_chain_pins_binding(kind@, m);
            assert(old(self).spec_binding(kind@) is None);
            assert forall|x: ChainKindView| x != kind@ implies self.spec_binding(x) == old(self).spec_binding(x) by {
                if contains_chain(olds, x) {
                    let j = index_of_chain(olds, x);
                    assert(news[j].kind@ == x);
                    self.lemma_chain_pins_binding(x, j);
                    old(self).lemma_chain_pins_binding(x, j);
                } else {
                    if contains_chain(news, x) {
                        let j = index_of_chain(news, x);
                        assert(j != m);
                        assert(olds[j].kind@ == x);
                    }
                }
            }
        }
        Ok(())
    }

    /// Removes the binding for a chain kind; fails with `ChainNotFound`
    /// when the kind is not bound. Every other binding is untouched.
    pub fn remove_binding(&mut self, kind: &ChainKind) -> (r: Result<(), WalletError>)
        requires
            old(self).wf(),
        ensures
            final(self).wf(),
            final(self).subaccount == old(self).subaccount,
            final(self).public_keys == old(self).public_keys,
            (r is Ok) == old(self).spec_binding(kind@) is Some,
            r is Err ==> r == Err::<(), WalletError>(WalletError::ChainNotFound) && *final(self)
                == *old(self),
            final(self).spec_binding(kind@) == None::<BindingView>,
            forall|x: ChainKindView|
                x != kind@ ==> final(self).spec_binding(x) == old(self).spec_binding(x),
    {
        let n = self.chains.len();
        let mut i: usize = 0;
        while i < n
            invariant
                n == self.chains@.len(),
                i <= n,
                forall|j: int| 0 <= j < i ==> self.chains@[j].kind@ != kind@,
                *self == *old(self),
                old(self).wf(),
            decreases n - i,
        {
            if self.chains[i].kind.kind_eq(kind) {
                let ghost olds = self.chains@;
                self.chains.remove(i);
                proof {
                    let news = self.chains@;
                    let ii = i as int;
                    assert(news =~= olds.subrange(0, ii) + olds.subrange(
                        ii + 1,
                        olds.len() as int,
                    ));
                    assert forall|a2: int|
                        0 <= a2 < news.len() implies news[a2] == (if a2 < ii {
                        olds[a2]
                    } else {
                        olds[a2 + 1]
                    }) by {}
                    assert forall|a2: int, b2: int|
                        0 <= a2 < b2 < news.len() implies news[a2].kind@ != news[b2].kind@ by {
                        let oa = if a2 < ii { a2 } else { a2 + 1 };
                        let ob = if b2 < ii { b2 } else { b2 + 1 };
                        assert(olds[oa].kind@ != olds[ob].kind@);
                    }
                    old(self).lemma_chain_pins_binding(kind@, ii);
                    assert forall|a2: int| 0 <= a2 < news.len() implies news[a2].kind@ != kind@ by {
                        let oa = if a2 < ii { a2 } else { a2 + 1 };
                        if olds[oa].kind@ == kind@ {
                            old(self).lemma_chain_pins_binding(kind@, oa);
                        }
                    }
                    assert(!contains_chain(news, kind@));
                    assert forall|x: ChainKindView| x != kind@ implies self.spec_binding(x) == old(self).spec_binding(x) by {
                        if contains_chain(olds, x) {
                            let j = index_of_chain(olds, x);
                            assert(olds[j].kind@ == x);
                            assert(j != ii);
                            let nj = if j < ii { j } else { j - 1 };
                            assert(news[nj].kind@ == x);
                            self.lemma_chain_pins_binding(x, nj);
                            old(self).lemma_chain_pins_binding(x, j);
                        } else {
                            if contains_chain(news, x) {
                                let nj = index_of_chain(news, x);
                                let oj = if nj < ii { nj } else { nj + 1 };
                                assert(olds[oj].kind@ == x);
                            }
                        }
                    }
                }
                return Ok(());
            }
            i = i + 1;
        }
        Err(WalletError::ChainNotFound)
    }

    /// A copy of the binding for a chain kind, if one exists.
    pub fn binding(&self, kind: &ChainKind) -> (r: Option<ChainBinding>)
        requires
            self.wf(),
        ensures
            (r is Some) == self.spec_binding(kind@) is Some,
            r matches Some(b) ==> self.spec_binding(kind@) == Some(b@),
    {
        let n = self.chains.len();
        let mut i: usize = 0;
        while i < n
            invariant
                n == self.chains@.len(),
                i <= n,
                forall|j: int| 0 <= j < i ==> self.chains@[j].kind@ != kind@,
                self.wf(),
            decreases n - i,
        {
            if self.chains[i].kind.kind_eq(kind) {
                proof {
                    self.lemma_chain_pins_binding(kind@, i as int);
                }
                return Some(self.chains[i].binding.dup());
            }
            i = i + 1;
        }
        None
    }
}

impl ChainBinding {
    /// Replaces the derived address, preserving the transfer lists.
    pub fn set_address(&mut self, address: String)
        ensures
            final(self)@.address == address@,
            final(self)@.pending_receive == old(self)@.pending_receive,
            final(self)@.pending_send == old(self)@.pending_send,
    {
        self.address = address;
    }
}

/// Replacing the entry at a kind's index, keeping its kind, pins the new
/// binding at that kind and leaves every other kind's binding unchanged.
proof fn lemma_update_binding(old_l: Ledger, new_l: Ledger, k: ChainKindView, i: int)
    requires
        old_l.wf(),
        new_l.subaccount.wf(),
        new_l.public_keys == old_l.public_keys,
        0 <= i < old_l.chains@.len(),
        old_l.chains@[i].kind@ == k,
        new_l.chains@ == old_l.chains@.update(i, new_l.chains@[i]),
        new_l.chains@.len() == old_l.chains@.len(),
        new_l.chains@[i].kind@ == k,
    ensures
        new_l.wf(),
        new_l.spec_binding(k) == Some(new_l.chains@[i].binding@),
        old_l.spec_binding(k) == Some(old_l.chains@[i].binding@),
        forall|x: ChainKindView| x != k ==> new_l.spec_binding(x) == old_l.spec_binding(x),
{
    let olds = old_l.chains@;
    let news = new_l.chains@;
    assert forall|a2: int, b2: int|
        0 <= a2 < b2 < news.len() implies news[a2].kind@ != news[b2].kind@ by {
        assert(olds[a2].kind@ != olds[b2].kind@);
    }
    assert forall|a2: int|
        0 <= a2 < news.len() && #[trigger] crate::chain::view_requires_public_key(
            news[a2].kind@,
        ) implies new_l.public_keys.spec_is_ecdsa_set() by {
        assert(news[a2].kind@ == olds[a2].kind@);
        assert(crate::chain::view_requires_public_key(olds[a2].kind@));
    }
    new_l.lemma_chain_pins_binding(k, i);
    old_l.lemma_chain_pins_binding(k, i);
    assert forall|x: ChainKindView| x != k implies new_l.spec_binding(x) == old_l.spec_binding(
        x,
    ) by {
        if contains_chain(olds, x) {
            let j = index_of_chain(olds, x);
            assert(news[j].kind@ == x);
            new_l.lemma_chain_pins_binding(x, j);
            old_l.lemma_chain_pins_binding(x, j);
        } else {
            if contains_chain(news, x) {
                let j = index_of_chain(news, x);
                assert(olds[j].kind@ == x);
            }
        }
    }
}

impl Ledger {
    /// Records a bridge-in handle that the external backend accepted, on
    /// the binding for the given kind. Nothing is recorded for an unbound
    /// kind: the call fails with `ChainNotFound` and the ledger is
    /// unchanged.
    pub fn initiate_receive(&mut self, kind: &ChainKind, handle: String) -> (r: Result<
        (),
        WalletError,
    >)
        requires
            old(self).wf(),
        ensures
            final(self).wf(),
            final(self).subaccount == old(self).subaccount,
            final(self).public_keys == old(self).public_keys,
            (r is Ok) == old(self).spec_binding(kind@) is Some,
            r is Err ==> r == Err::<(), WalletError>(WalletError::ChainNotFound) && *final(self)
                == *old(self),
            r is Ok ==> ({
                let ob = old(self).spec_binding(kind@)->Some_0;
                &&& final(self).spec_binding(kind@) matches Some(b) && b.address == ob.address
                    && b.pending_send == ob.pending_send && b.pending_receive
                    == ob.pending_receive.push(handle@)
                &&& forall|x: ChainKindView|
                    x != kind@ ==> final(self).spec_binding(x) == old(self).spec_binding(x)
            }),
    {
        let n = self.chains.len();
        let mut i: usize = 0;
        while i < n
            invariant
                n == self.chains@.len(),
                i <= n,
                forall|j: int| 0 <= j < i ==> self.chains@[j].kind@ != kind@,
                *self == *old(self),
                old(self).wf(),
            decreases n - i,
        {
            if self.chains[i].kind.kind_eq(kind) {
                let e = chain_entry_mut(&mut self.chains, i);
                e.binding.add_pending_receive(handle);
                proof {
                    lemma_update_binding(*old(self), *self, kind@, i as int);
                }
                return Ok(());
            }
            i = i + 1;
        }
        Err(WalletError::ChainNotFound)
    }

    /// Records a bridge-out handle that the external backend accepted,
    /// symmetric to `initiate_receive`.
    pub fn initiate_send(&mut self, kind: &ChainKind, handle: String) -> (r: Result<
        (),
        WalletError,
    >)
        requires
            old(self).wf(),
        ensures
            final(self).wf(),
            final(self).subaccount == old(self).subaccount,
            final(self).public_keys == old(self).public_keys,
            (r is Ok) == old(self).spec_binding(kind@) is Some,
            r is Err ==> r == Err::<(), WalletError>(WalletError::ChainNotFound) && *final(self)
                == *old(self),
            r is Ok ==> ({
                let ob = old(self).spec_binding(kind@)->Some_0;
                &&& final(self).spec_binding(kind@) matches Some(b) && b.address == ob.address
                    && b.pending_receive == ob.pending_receive && b.pending_send
                    == ob.pending_send.push(handle@)
                &&& forall|x: ChainKindView|
                    x != kind@ ==> final(self).spec_binding(x) == old(self).spec_binding(x)
            }),
    {
        let n = self.chains.len();
        let mut i: usize = 0;
        while i < n
            invariant
                n == self.chains@.len(),
                i <= n,
                forall|j: int| 0 <= j < i ==> self.chains@[j].kind@ != kind@,
                *self == *old(self),
                old(self).wf(),
            decreases n - i,
        {
            if self.chains[i].kind.kind_eq(kind) {
                let e = chain_entry_mut(&mut self.chains, i);
                e.binding.add_pending_send(handle);
                proof {
                    lemma_update_binding(*old(self), *self, kind@, i as int);
                }
                return Ok(());
            }
            i = i + 1;
        }
        Err(WalletError::ChainNotFound)
    }

    /// Reconciles bridge-in transfers for a kind: removes exactly the
    /// handles the backend confirmed and returns them; unconfirmed handles
    /// stay for the next poll.
    pub fn settle_receive(&mut self, kind: &ChainKind, confirmed: &Vec<String>) -> (r: Result<
        Vec<String>,
        WalletError,
    >)
        requires
            old(self).wf(),
        ensures
            final(self).wf(),
            final(self).subaccount == old(self).subaccount,
            final(self).public_keys == old(self).public_keys,
            (r is Ok) == old(self).spec_binding(kind@) is Some,
            r is Err ==> r == Err::<Vec<String>, WalletError>(WalletError::ChainNotFound) && *final(self) == *old(self),
            r is Ok ==> ({
                let ob = old(self).spec_binding(kind@)->Some_0;
                &&& final(self).spec_binding(kind@) matches Some(b) && b.address == ob.address
                    && b.pending_send == ob.pending_send && b.pending_receive
                    == ob.pending_receive.filter(unconfirmed_pred(confirmed.deep_view()))
                &&& r matches Ok(removed) && removed.deep_view() == ob.pending_receive.filter(
                    confirmed_pred(confirmed.deep_view()),
                )
                &&& forall|x: ChainKindView|
                    x != kind@ ==> final(self).spec_binding(x) == old(self).spec_binding(x)
            }),
    {
        let n = self.chains.len();
        let mut i: usize = 0;
        while i < n
            invariant
                n == self.chains@.len(),
                i <= n,
                forall|j: int| 0 <= j < i ==> self.chains@[j].kind@ != kind@,
                *self == *old(self),
                old(self).wf(),
            decreases n - i,
        {
            if self.chains[i].kind.kind_eq(kind) {
                let e = chain_entry_mut(&mut self.chains, i);
                let removed = e.binding.settle_receive(confirmed);
                proof {
                    lemma_update_binding(*old(self), *self, kind@, i as int);
                }
                return Ok(removed);
            }
            i = i + 1;
        }
        Err(WalletError::ChainNotFound)
    }

    /// Reconciles bridge-out transfers, symmetric to `settle_receive`.
    pub fn settle_send(&mut self, kind: &ChainKind, confirmed: &Vec<String>) -> (r: Result<
        Vec<String>,
        WalletError,
    >)
        requires
            old(self).wf(),
        ensures
            final(self).wf(),
            final(self).subaccount == old(self).subaccount,
            final(self).public_keys == old(self).public_keys,
            (r is Ok) == old(self).spec_binding(kind@) is Some,
            r is Err ==> r == Err::<Vec<String>, WalletError>(WalletError::ChainNotFound) && *final(self) == *old(self),
            r is Ok ==> ({
                let ob = old(self).spec_binding(kind@)->Some_0;
                &&& final(self).spec_binding(kind@) matches Some(b) && b.address == ob.address
                    && b.pending_receive == ob.pending_receive && b.pending_send
                    == ob.pending_send.filter(unconfirmed_pred(confirmed.deep_view()))
                &&& r matches Ok(removed) && removed.deep_view() == ob.pending_send.filter(
                    confirmed_pred(confirmed.deep_view()),
                )
                &&& forall|x: ChainKindView|
                    x != kind@ ==> final(self).spec_binding(x) == old(self).spec_binding(x)
            }),
    {
        let n = self.chains.len();
        let mut i: usize = 0;
        while i < n
            invariant
                n == self.chains@.len(),
                i <= n,
                forall|j: int| 0 <= j < i ==> self.chains@[j].kind@ != kind@,
                *self == *old(self),
                old(self).wf(),
            decreases n - i,
        {
            if self.chains[i].kind.kind_eq(kind) {
                let e = chain_entry_mut(&mut self.chains, i);
                let removed = e.binding.settle_send(confirmed);
                proof {
                    lemma_update_binding(*old(self), *self, kind@, i as int);
                }
                return Ok(removed);
            }
            i = i + 1;
        }
        Err(WalletError::ChainNotFound)
    }

    /// Manually clears a bridge-in handle on the binding for a kind; always
    /// succeeds on a bound kind, as a no-op when the handle is absent.
    pub fn clear_pending_receive(&mut self, kind: &ChainKind, handle: &String) -> (r: Result<
        (),
        WalletError,
    >)
        requires
            old(self).wf(),
        ensures
            final(self).wf(),
            final(self).subaccount == old(self).subaccount,
            final(self).public_keys == old(self).public_keys,
            (r is Ok) == old(self).spec_binding(kind@) is Some,
            r is Err ==> r == Err::<(), WalletError>(WalletError::ChainNotFound) && *final(self)
                == *old(self),
            r is Ok ==> ({
                let ob = old(self).spec_binding(kind@)->Some_0;
                &&& final(self).spec_binding(kind@) matches Some(b) && b.address == ob.address
                    && b.pending_send == ob.pending_send && b.pending_receive
                    == ob.pending_receive.filter(keep_other_pred(handle@))
                &&& forall|x: ChainKindView|
                    x != kind@ ==> final(self).spec_binding(x) == old(self).spec_binding(x)
            }),
    {
        let n = self.chains.len();
        let mut i: usize = 0;
        while i < n
            invariant
                n == self.chains@.len(),
                i <= n,
                forall|j: int| 0 <= j < i ==> self.chains@[j].kind@ != kind@,
                *self == *old(self),
                old(self).wf(),
            decreases n - i,
        {
            if self.chains[i].kind.kind_eq(kind) {
                let e = chain_entry_mut(&mut self.chains, i);
                e.binding.remove_pending_receive(handle);
                proof {
                    lemma_update_binding(*old(self), *self, kind@, i as int);
                }
                return Ok(());
            }
            i = i + 1;
        }
        Err(WalletError::ChainNotFound)
    }

    /// Manually clears a bridge-out handle, symmetric to
    /// `clear_pending_receive`.
    pub fn clear_pending_send(&mut self, kind: &ChainKind, handle: &String) -> (r: Result<
        (),
        WalletError,
    >)
        requires
            old(self).wf(),
        ensures
            final(self).wf(),
            final(self).subaccount == old(self).subaccount,
            final(self).public_keys == old(self).public_keys,
            (r is Ok) == old(self).spec_binding(kind@) is Some,
            r is Err ==> r == Err::<(), WalletError>(WalletError::ChainNotFound) && *final(self)
                == *old(self),
            r is Ok ==> ({
                let ob = old(self).spec_binding(kind@)->Some_0;
                &&& final(self).spec_binding(kind@) matches Some(b) && b.address == ob.address
                    && b.pending_receive == ob.pending_receive && b.pending_send
                    == ob.pending_send.filter(keep_other_pred(handle@))
                &&& forall|x: ChainKindView|
                    x != kind@ ==> final(self).spec_binding(x) == old(self).spec_binding(x)
            }),
    {
        let n = self.chains.len();
        let mut i: usize = 0;
        while i < n
            invariant
                n == self.chains@.len(),
                i <= n,
                forall|j: int| 0 <= j < i ==> self.chains@[j].kind@ != kind@,
                *self == *old(self),
                old(self).wf(),
            decreases n - i,
        {
            if self.chains[i].kind.kind_eq(kind) {
                let e = chain_entry_mut(&mut self.chains, i);
                e.binding.remove_pending_send(handle);
                proof {
                    lemma_update_binding(*old(self), *self, kind@, i as int);
                }
                return Ok(());
            }
            i = i + 1;
        }
        Err(WalletError::ChainNotFound)
    }
}

} // verus!
