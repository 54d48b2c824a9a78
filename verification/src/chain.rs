//! Chain kinds and the per-account address map: a closed tagged-variant type
//! for every supported chain family, and an association map from chain kind
//! to derived address with unique keys.

use vstd::prelude::*;

verus! {

/// A Bitcoin network selection.
#[derive(Clone, Copy, PartialEq, Eq, Structural, Debug)]
pub enum BtcNetwork {
    Mainnet,
    Testnet,
    Regtest,
}

/// The chain family a binding targets.
#[derive(Debug)]
pub enum ChainKind {
    NativeLedger,
    Bitcoin(BtcNetwork),
    Evm(u64),
    WrappedBitcoin(BtcNetwork),
    GenericToken(u64),
    NamedToken(String),
}

/// The mathematical shape of a chain kind: token names as character
/// sequences.
#[verifier::ext_equal]
pub enum ChainKindView {
    NativeLedger,
    Bitcoin(BtcNetwork),
    Evm(u64),
    WrappedBitcoin(BtcNetwork),
    GenericToken(u64),
    NamedToken(Seq<char>),
}

impl View for ChainKind {
    type V = ChainKindView;

    open spec fn view(&self) -> ChainKindView {
        match self {
            ChainKind::NativeLedger => ChainKindView::NativeLedger,
            ChainKind::Bitcoin(n) => ChainKindView::Bitcoin(*n),
            ChainKind::Evm(c) => ChainKindView::Evm(*c),
            ChainKind::WrappedBitcoin(n) => ChainKindView::WrappedBitcoin(*n),
            ChainKind::GenericToken(t) => ChainKindView::GenericToken(*t),
            ChainKind::NamedToken(s) => ChainKindView::NamedToken(s@),
        }
    }
}

/// Whether an address for this kind is derived from the ECDSA public key;
/// the other kinds derive from the account identifier.
pub open spec fn view_requires_public_key(k: ChainKindView) -> bool {
    k is Bitcoin || k is Evm
}

impl ChainKind {
    /// Whether two chain kinds denote the same chain.
    pub fn kind_eq(&self, other: &ChainKind) -> (r: bool)
        ensures
            r == (self@ == other@),
    {
        match self {
            ChainKind::NativeLedger => match other {
                ChainKind::NativeLedger => true,
                _ => false,
            },
            ChainKind::Bitcoin(a) => match other {
                ChainKind::Bitcoin(b) => *a == *b,
                _ => false,
            },
            ChainKind::Evm(a) => match other {
                ChainKind::Evm(b) => *a == *b,
                _ => false,
            },
            ChainKind::WrappedBitcoin(a) => match other {
                ChainKind::WrappedBitcoin(b) => *a == *b,
                _ => false,
            },
            ChainKind::GenericToken(a) => match other {
                ChainKind::GenericToken(b) => *a == *b,
                _ => false,
            },
            ChainKind::NamedToken(a) => match other {
                ChainKind::NamedToken(b) => {
                    let r = *a == *b;
                    proof {
                        if a@ == b@ {
                            assert(self@ =~= other@);
                        }
                    }
                    r
                },
                _ => false,
            },
        }
    }

    /// A copy denoting the same chain.
    pub fn dup(&self) -> (r: ChainKind)
        ensures
            r@ == self@,
    {
        match self {
            ChainKind::NativeLedger => ChainKind::NativeLedger,
            ChainKind::Bitcoin(n) => ChainKind::Bitcoin(*n),
            ChainKind::Evm(c) => ChainKind::Evm(*c),
            ChainKind::WrappedBitcoin(n) => ChainKind::WrappedBitcoin(*n),
            ChainKind::GenericToken(t) => ChainKind::GenericToken(*t),
            ChainKind::NamedToken(s) => ChainKind::NamedToken(s.clone()),
        }
    }

    /// Whether an address for this kind is derived from the ECDSA public
    /// key; the other kinds derive from the account identifier.
    pub open spec fn spec_requires_public_key(&self) -> bool {
        view_requires_public_key(self@)
    }

    pub fn requires_public_key(&self) -> (r: bool)
        ensures
            r == self.spec_requires_public_key(),
    {
        match self {
            ChainKind::Bitcoin(_) => true,
            ChainKind::Evm(_) => true,
            _ => false,
        }
    }
}

/// One derived address, keyed by its chain kind.
#[derive(Debug)]
pub struct AddressEntry {
    pub kind: ChainKind,
    pub address: String,
}

/// Whether some entry carries the given chain kind.
pub open spec fn contains_kind(s: Seq<AddressEntry>, k: ChainKindView) -> bool {
    exists|i: int| 0 <= i < s.len() && s[i].kind@ == k
}

/// The index of the entry carrying the given chain kind.
pub open spec fn index_of_kind(s: Seq<AddressEntry>, k: ChainKindView) -> int {
    choose|i: int| 0 <= i < s.len() && s[i].kind@ == k
}

/// A map from chain kind to derived address; each kind occurs at most once.
#[derive(Debug)]
pub struct AddressMap {
    pub entries: Vec<AddressEntry>,
}

impl AddressMap {
    /// Each chain kind occurs at most once.
    pub open spec fn wf(&self) -> bool {
        forall|i: int, j: int|
            0 <= i < j < self.entries@.len() ==> self.entries@[i].kind@ != self.entries@[j].kind@
    }

    /// The address stored for a chain kind, if any.
    pub open spec fn spec_get(&self, k: ChainKindView) -> Option<Seq<char>> {
        if contains_kind(self.entries@, k) {
            Some(self.entries@[index_of_kind(self.entries@, k)].address@)
        } else {
            None
        }
    }

    /// Whether an address is stored for a chain kind.
    pub open spec fn spec_contains(&self, k: ChainKindView) -> bool {
        contains_kind(self.entries@, k)
    }

    /// Any entry carrying kind `k` is the entry `spec_get` reads.
    pub proof fn lemma_entry_pins_get(&self, k: ChainKindView, i: int)
        requires
            self.wf(),
            0 <= i < self.entries@.len(),
            self.entries@[i].kind@ == k,
        ensures
            self.spec_contains(k),
            index_of_kind(self.entries@, k) == i,
            self.spec_get(k) == Some(self.entries@[i].address@),
    {
        assert(contains_kind(self.entries@, k));
        let j = index_of_kind(self.entries@, k);
        if j != i {
            if j < i {
                assert(self.entries@[j].kind@ != self.entries@[i].kind@);
            } else {
                assert(self.entries@[i].kind@ != self.entries@[j].kind@);
            }
        }
    }

    /// An empty map.
    pub fn new() -> (r: AddressMap)
        ensures
            r.wf(),
            r.entries@.len() == 0,
            forall|k: ChainKindView| r.spec_get(k) == None::<Seq<char>>,
    {
        AddressMap { entries: Vec::new() }
    }

    /// The number of stored addresses.
    pub fn len(&self) -> (r: usize)
        ensures
            r == self.entries@.len(),
    {
        self.entries.len()
    }

    /// The index of the entry for a kind, if one exists.
    fn find(&self, kind: &ChainKind) -> (r: Option<usize>)
        ensures
            r matches Some(i) ==> i < self.entries@.len() && self.entries@[i as int].kind@
                == kind@,
            r is None ==> !contains_kind(self.entries@, kind@),
    {
        let mut i: usize = 0;
        while i < self.entries.len()
            invariant
                i <= self.entries@.len(),
                forall|j: int| 0 <= j < i ==> self.entries@[j].kind@ != kind@,
            decreases self.entries@.len() - i,
        {
            if self.entries[i].kind.kind_eq(kind) {
                return Some(i);
            }
            i = i + 1;
        }
        None
    }

    /// The stored address for a kind, if any.
    pub fn get(&self, kind: &ChainKind) -> (r: Option<&String>)
        requires
            self.wf(),
        ensures
            (r is Some) == self.spec_contains(kind@),
            r matches Some(a) ==> self.spec_get(kind@) == Some(a@),
    {
        match self.find(kind) {
            Some(i) => {
                proof {
                    self.lemma_entry_pins_get(kind@, i as int);
                }
                Some(&self.entries[i].address)
            },
            None => None,
        }
    }

    /// Stores an address for a kind, replacing any previous address for the
    /// same kind and leaving every other kind untouched.
    pub fn insert(&mut self, kind: ChainKind, address: String)
        requires
            old(self).wf(),
        ensures
            final(self).wf(),
            final(self).spec_get(kind@) == Some(address@),
            forall|x: ChainKindView| x != kind@ ==> final(self).spec_get(x) == old(self).spec_get(
                x,
            ),
            final(self).entries@.len() == if old(self).spec_contains(kind@) {
                old(self).entries@.len()
            } else {
                old(self).entries@.len() + 1
            },
    {
        let ghost k = kind@;
        match self.find(&kind) {
            Some(i) => {
                let ghost olds = self.entries@;
                self.entries[i] = AddressEntry { kind, address };
                proof {
                    let news = self.entries@;
                    assert(news =~= olds.update(i as int, news[i as int]));
                    assert(news[i as int].kind@ == k);
                    assert forall|a: int, b: int|
                        0 <= a < b < news.len() implies news[a].kind@ != news[b].kind@ by {
                        assert(olds[a].kind@ != olds[b].kind@);
                    }
                    self.lemma_entry_pins_get(k, i as int);
                    old(self).lemma_entry_pins_get(k, i as int);
                    assert forall|x: ChainKindView| x != k implies self.spec_get(x) == old(
                        self,
                    ).spec_get(x) by {
                        if contains_kind(olds, x) {
                            let j = index_of_kind(olds, x);
                            assert(news[j].kind@ == x);
                            self.lemma_entry_pins_get(x, j);
                            old(self).lemma_entry_pins_get(x, j);
                        } else {
                            if contains_kind(news, x) {
                                let j = index_of_kind(news, x);
                                assert(olds[j].kind@ == x);
                            }
                        }
                    }
                }
            },
            None => {
                let ghost olds = self.entries@;
                self.entries.push(AddressEntry { kind, address });
                proof {
                    let news = self.entries@;
                    let n = olds.len() as int;
                    assert(news[n].kind@ == k);
                    assert(!contains_kind(olds, k));
                    assert forall|a: int, b: int|
                        0 <= a < b < news.len() implies news[a].kind@ != news[b].kind@ by {
                        if b < n {
                            assert(olds[a].kind@ != olds[b].kind@);
                        } else {
                            assert(news[a].kind@ == olds[a].kind@);
                            if news[a].kind@ == k {
                                assert(contains_kind(olds, k));
                            }
                        }
                    }
                    self.lemma_entry_pins_get(k, n);
                    assert forall|x: ChainKindView| x != k implies self.spec_get(x) == old(
                        self,
                    ).spec_get(x) by {
                        if contains_kind(olds, x) {
                            let j = index_of_kind(olds, x);
                            assert(news[j].kind@ == x);
                            self.lemma_entry_pins_get(x, j);
                            old(self).lemma_entry_pins_get(x, j);
                        } else {
                            if contains_kind(news, x) {
                                let j = index_of_kind(news, x);
                                assert(0 <= j < news.len() && news[j].kind@ == x);
                                assert(j != n);
                                assert(olds[j].kind@ == x);
                            }
                        }
                    }
                }
            },
        }
    }

    /// Removes the entry for a kind if one exists; reports whether one did.
    /// Every other kind is untouched.
    pub fn remove_kind(&mut self, kind: &ChainKind) -> (r: bool)
        requires
            old(self).wf(),
        ensures
            final(self).wf(),
            r == old(self).spec_contains(kind@),
            final(self).spec_get(kind@) == None::<Seq<char>>,
            forall|x: ChainKindView| x != kind@ ==> final(self).spec_get(x) == old(self).spec_get(
                x,
            ),
    {
        let ghost k = kind@;
        match self.find(kind) {
            Some(i) => {
                let ghost olds = self.entries@;
                self.entries.remove(i);
                proof {
                    let news = self.entries@;
                    let ii = i as int;
                    assert(news =~= olds.subrange(0, ii) + olds.subrange(ii + 1, olds.len() as int));
                    assert forall|a: int|
                        0 <= a < news.len() implies news[a] == (if a < ii {
                        olds[a]
                    } else {
                        olds[a + 1]
                    }) by {}
                    assert forall|a: int, b: int|
                        0 <= a < b < news.len() implies news[a].kind@ != news[b].kind@ by {
                        let oa = if a < ii { a } else { a + 1 };
                        let ob = if b < ii { b } else { b + 1 };
                        assert(olds[oa].kind@ != olds[ob].kind@);
                    }
                    old(self).lemma_entry_pins_get(k, ii);
                    assert forall|a: int| 0 <= a < news.len() implies news[a].kind@ != k by {
                        let oa = if a < ii { a } else { a + 1 };
                        if olds[oa].kind@ == k {
                            old(self).lemma_entry_pins_get(k, oa);
                        }
                    }
                    assert(!contains_kind(news, k));
                    assert forall|x: ChainKindView| x != k implies self.spec_get(x) == old(
                        self,
                    ).spec_get(x) by {
                        if contains_kind(olds, x) {
                            let j = index_of_kind(olds, x);
                            assert(olds[j].kind@ == x);
                            assert(j != ii);
                            let nj = if j < ii { j } else { j - 1 };
                            assert(news[nj].kind@ == x);
                            self.lemma_entry_pins_get(x, nj);
                            old(self).lemma_entry_pins_get(x, j);
                        } else {
                            if contains_kind(news, x) {
                                let nj = index_of_kind(news, x);
                                let oj = if nj < ii { nj } else { nj + 1 };
                                assert(olds[oj].kind@ == x);
                            }
                        }
                    }
                }
                true
            },
            None => {
                proof {
                    assert forall|x: ChainKindView| x != k implies self.spec_get(x) == old(
                        self,
                    ).spec_get(x) by {}
                }
                false
            },
        }
    }

    /// A copy holding the same addresses for the same kinds.
    pub fn dup(&self) -> (r: AddressMap)
        requires
            self.wf(),
        ensures
            r.wf(),
            r.entries@.len() == self.entries@.len(),
            forall|k: ChainKindView| r.spec_get(k) == self.spec_get(k),
    {
        let mut entries: Vec<AddressEntry> = Vec::new();
        let mut i: usize = 0;
        while i < self.entries.len()
            invariant
                i <= self.entries@.len(),
                entries@.len() == i,
                forall|j: int|
                    0 <= j < i ==> entries@[j].kind@ == self.entries@[j].kind@ && entries@[j].address@
                        == self.entries@[j].address@,
            decreases self.entries@.len() - i,
        {
            entries.push(
                AddressEntry {
                    kind: self.entries[i].kind.dup(),
                    address: self.entries[i].address.clone(),
                },
            );
            i = i + 1;
        }
        let r = AddressMap { entries };
        proof {
            assert forall|a: int, b: int|
                0 <= a < b < r.entries@.len() implies r.entries@[a].kind@ != r.entries@[b].kind@ by {
                assert(self.entries@[a].kind@ != self.entries@[b].kind@);
            }
            assert forall|k: ChainKindView| r.spec_get(k) == self.spec_get(k) by {
                if contains_kind(self.entries@, k) {
                    let j = index_of_kind(self.entries@, k);
                    assert(r.entries@[j].kind@ == k);
                    r.lemma_entry_pins_get(k, j);
                    self.lemma_entry_pins_get(k, j);
                } else {
                    if contains_kind(r.entries@, k) {
                        let j = index_of_kind(r.entries@, k);
                        assert(self.entries@[j].kind@ == k);
                    }
                }
            }
        }
        r
    }
}

} // verus!
