//! Wallet accounts: a display name, a hidden flag, a string metadata map
//! with unique keys, and the account's chain ledger.

use vstd::prelude::*;

use crate::ledger::Ledger;
use crate::subaccount::{Environment, Subaccount};

verus! {

/// One metadata entry.
#[derive(Debug)]
pub struct MetadataEntry {
    pub key: String,
    pub value: String,
}

/// Whether some entry carries the given key.
pub open spec fn contains_key(s: Seq<MetadataEntry>, k: Seq<char>) -> bool {
    exists|i: int| 0 <= i < s.len() && s[i].key@ == k
}

/// The index of the entry carrying the given key.
pub open spec fn index_of_key(s: Seq<MetadataEntry>, k: Seq<char>) -> int {
    choose|i: int| 0 <= i < s.len() && s[i].key@ == k
}

/// A string-to-string map with unique keys; insertion order carries no
/// meaning.
#[derive(Debug)]
pub struct Metadata {
    pub entries: Vec<MetadataEntry>,
}

impl Metadata {
    /// Each key occurs at most once.
    pub open spec fn wf(&self) -> bool {
        forall|i: int, j: int|
            0 <= i < j < self.entries@.len() ==> self.entries@[i].key@ != self.entries@[j].key@
    }

    /// The value stored under a key, if any.
    pub open spec fn spec_get(&self, k: Seq<char>) -> Option<Seq<char>> {
        if contains_key(self.entries@, k) {
            Some(self.entries@[index_of_key(self.entries@, k)].value@)
        } else {
            None
        }
    }

    /// Any entry carrying a key is the entry `spec_get` reads.
    pub proof fn lemma_key_pins_get(&self, k: Seq<char>, i: int)
        requires
            self.wf(),
            0 <= i < self.entries@.len(),
            self.entries@[i].key@ == k,
        ensures
            contains_key(self.entries@, k),
            index_of_key(self.entries@, k) == i,
            self.spec_get(k) == Some(self.entries@[i].value@),
    {
        assert(contains_key(self.entries@, k));
        let j = index_of_key(self.entries@, k);
        if j != i {
            if j < i {
                assert(self.entries@[j].key@ != self.entries@[i].key@);
            } else {
                assert(self.entries@[i].key@ != self.entries@[j].key@);
            }
        }
    }

    /// An empty map.
    pub fn new() -> (r: Metadata)
        ensures
            r.wf(),
            r.entries@.len() == 0,
            forall|k: Seq<char>| r.spec_get(k) == None::<Seq<char>>,
    {
        Metadata { entries: Vec::new() }
    }

    /// The index of the entry for a key, if one exists.
    fn find(&self, key: &String) -> (r: Option<usize>)
        ensures
            r matches Some(i) ==> i < self.entries@.len() && self.entries@[i as int].key@ == key@,
            r is None ==> !contains_key(self.entries@, key@),
    {
        let mut i: usize = 0;
        while i < self.entries.len()
            invariant
                i <= self.entries@.len(),
                forall|j: int| 0 <= j < i ==> self.entries@[j].key@ != key@,
            decreases self.entries@.len() - i,
        {
            let k: &String = &self.entries[i].key;
            if *k == *key {
                return Some(i);
            }
            i = i + 1;
        }
        None
    }

    /// The value stored under a key, if any.
    pub fn get(&self, key: &String) -> (r: Option<&String>)
        requires
            self.wf(),
        ensures
            (r is Some) == contains_key(self.entries@, key@),
            r matches Some(v) ==> self.spec_get(key@) == Some(v@),
    {
        match self.find(key) {
            Some(i) => {
                proof {
                    self.lemma_key_pins_get(key@, i as int);
                }
                Some(&self.entries[i].value)
            },
            None => None,
        }
    }

    /// Stores a value under a key, replacing any previous value and leaving
    /// every other key untouched.
    pub fn insert(&mut self, key: String, value: String)
        requires
            old(self).wf(),
        ensures
            final(self).wf(),
            final(self).spec_get(key@) == Some(value@),
            forall|x: Seq<char>|
                x != key@ ==> final(self).spec_get(x) == old(self).spec_get(x),
    {
        match self.find(&key) {
            Some(i) => {
                let ghost olds = self.entries@;
                self.entries[i] = MetadataEntry { key, value };
                proof {
                    let news = self.entries@;
                    let ii = i as int;
                    assert(news =~= olds.update(ii, news[ii]));
                    assert forall|a: int, b: int|
                        0 <= a < b < news.len() implies news[a].key@ != news[b].key@ by {
                        assert(olds[a].key@ != olds[b].key@);
                    }
                    self.lemma_key_pins_get(news[ii].key@, ii);
                    assert forall|x: Seq<char>| x != news[ii].key@ implies self.spec_get(x) == old(
                        self,
                    ).spec_get(x) by {
                        if contains_key(olds, x) {
                            let j = index_of_key(olds, x);
                            assert(news[j].key@ == x);
                            self.lemma_key_pins_get(x, j);
                            old(self).lemma_key_pins_get(x, j);
                        } else {
                            if contains_key(news, x) {
                                let j = index_of_key(news, x);
                                assert(olds[j].key@ == x);
                            }
                        }
                    }
                }
            },
            None => {
                let ghost olds = self.entries@;
                self.entries.push(MetadataEntry { key, value });
                proof {
                    let news = self.entries@;
                    let n = olds.len() as int;
                    assert forall|a: int, b: int|
                        0 <= a < b < news.len() implies news[a].key@ != news[b].key@ by {
                        if b < n {
                            assert(olds[a].key@ != olds[b].key@);
                        } else {
                            assert(news[a].key@ == olds[a].key@);
                            if news[a].key@ == news[n].key@ {
                                assert(contains_key(olds, news[n].key@));
                            }
                        }
                    }
                    self.lemma_key_pins_get(news[n].key@, n);
                    assert forall|x: Seq<char>| x != news[n].key@ implies self.spec_get(x) == old(
                        self,
                    ).spec_get(x) by {
                        if contains_key(olds, x) {
                            let j = index_of_key(olds, x);
                            assert(news[j].key@ == x);
                            self.lemma_key_pins_get(x, j);
                            old(self).lemma_key_pins_get(x, j);
                        } else {
                            if contains_key(news, x) {
                                let j = index_of_key(news, x);
                                assert(j != n);
                                assert(olds[j].key@ == x);
                            }
                        }
                    }
                }
            },
        }
    }

    /// Removes the entry under a key if one exists; every other key is
    /// untouched.
    pub fn remove(&mut self, key: &String) -> (r: bool)
        requires
            old(self).wf(),
        ensures
            final(self).wf(),
            r == contains_key(old(self).entries@, key@),
            final(self).spec_get(key@) == None::<Seq<char>>,
            forall|x: Seq<char>|
                x != key@ ==> final(self).spec_get(x) == old(self).spec_get(x),
    {
        match self.find(key) {
            Some(i) => {
                let ghost olds = self.entries@;
                self.entries.remove(i);
                proof {
                    let news = self.entries@;
                    let ii = i as int;
                    assert(news =~= olds.subrange(0, ii) + olds.subrange(
                        ii + 1,
                        olds.len() as int,
                    ));
                    assert forall|a: int, b: int|
                        0 <= a < b < news.len() implies news[a].key@ != news[b].key@ by {
                        let oa = if a < ii { a } else { a + 1 };
                        let ob = if b < ii { b } else { b + 1 };
                        assert(olds[oa].key@ != olds[ob].key@);
                    }
                    old(self).lemma_key_pins_get(key@, ii);
                    assert forall|a: int| 0 <= a < news.len() implies news[a].key@ != key@ by {
                        let oa = if a < ii { a } else { a + 1 };
                        if olds[oa].key@ == key@ {
                            old(self).lemma_key_pins_get(key@, oa);
                        }
                    }
                    assert(!contains_key(news, key@));
                    assert forall|x: Seq<char>| x != key@ implies self.spec_get(x) == old(
                        self,
                    ).spec_get(x) by {
                        if contains_key(olds, x) {
                            let j = index_of_key(olds, x);
                            assert(olds[j].key@ == x);
                            assert(j != ii);
                            let nj = if j < ii { j } else { j - 1 };
                            assert(news[nj].key@ == x);
                            self.lemma_key_pins_get(x, nj);
                            old(self).lemma_key_pins_get(x, j);
                        } else {
                            if contains_key(news, x) {
                                let nj = index_of_key(news, x);
                                let oj = if nj < ii { nj } else { nj + 1 };
                                assert(olds[oj].key@ == x);
                            }
                        }
                    }
                }
                true
            },
            None => {
                proof {
                    assert forall|x: Seq<char>| x != key@ implies self.spec_get(x) == old(
                        self,
                    ).spec_get(x) by {}
                }
                false
            },
        }
    }
}

/// One wallet account: its derived id, display name, hidden flag, metadata,
/// and chain ledger.
#[derive(Debug)]
pub struct WalletAccount {
    pub id: String,
    pub name: String,
    pub hidden: bool,
    pub ledger: Ledger,
    pub metadata: Metadata,
}

impl WalletAccount {
    /// Well-formed: the metadata map and the ledger are.
    pub open spec fn wf(&self) -> bool {
        &&& self.metadata.wf()
        &&& self.ledger.wf()
    }

    /// A fresh account for a subaccount under an owner: the id derived from
    /// the subaccount, no name, visible, empty metadata, fresh ledger.
    pub fn from_subaccount(subaccount: Subaccount, owner: &Vec<u8>) -> (r: WalletAccount)
        requires
            subaccount.wf(),
        ensures
            r.wf(),
            r.id@ == subaccount.spec_id(),
            r.name@ == Seq::<char>::empty(),
            !r.hidden,
            r.ledger.subaccount == subaccount,
            r.ledger.chains@.len() == 0,
            !r.ledger.public_keys.spec_is_ecdsa_set(),
            r.metadata.entries@.len() == 0,
    {
        let id = subaccount.id();
        let ledger = Ledger::new(subaccount, owner);
        let name = String::new();
        proof {
            assert(name@ =~= Seq::<char>::empty());
        }
        WalletAccount { id, name, hidden: false, ledger, metadata: Metadata::new() }
    }

    /// Stores a metadata value under a key.
    pub fn add_metadata(&mut self, key: String, value: String)
        requires
            old(self).wf(),
        ensures
            final(self).wf(),
            final(self).metadata.spec_get(key@) == Some(value@),
            forall|x: Seq<char>|
                x != key@ ==> final(self).metadata.spec_get(x) == old(self).metadata.spec_get(x),
            final(self).id == old(self).id,
            final(self).name == old(self).name,
            final(self).hidden == old(self).hidden,
            final(self).ledger == old(self).ledger,
    {
        self.metadata.insert(key, value);
    }

    /// Replaces a metadata value under a key; the same operation as
    /// `add_metadata`, kept for callers that phrase it as an update.
    pub fn update_metadata(&mut self, key: String, value: String)
        requires
            old(self).wf(),
        ensures
            final(self).wf(),
            final(self).metadata.spec_get(key@) == Some(value@),
            forall|x: Seq<char>|
                x != key@ ==> final(self).metadata.spec_get(x) == old(self).metadata.spec_get(x),
            final(self).ledger == old(self).ledger,
    {
        self.metadata.insert(key, value);
    }

    /// Removes a metadata key; a no-op when it is absent.
    pub fn remove_metadata(&mut self, key: &String)
        requires
            old(self).wf(),
        ensures
            final(self).wf(),
            final(self).metadata.spec_get(key@) == None::<Seq<char>>,
            forall|x: Seq<char>|
                x != key@ ==> final(self).metadata.spec_get(x) == old(self).metadata.spec_get(x),
            final(self).ledger == old(self).ledger,
    {
        self.metadata.remove(key);
    }

    /// The metadata map.
    pub fn metadata(&self) -> (r: &Metadata)
        ensures
            r == &self.metadata,
    {
        &self.metadata
    }

    /// A mutable borrow of the metadata map.
    pub fn metadata_mut(&mut self) -> (r: &mut Metadata)
        ensures
            *r == old(self).metadata,
            final(self).metadata == *final(r),
            final(self).id == old(self).id,
            final(self).name == old(self).name,
            final(self).hidden == old(self).hidden,
            final(self).ledger == old(self).ledger,
    {
        &mut self.metadata
    }

    /// Replaces the display name and returns the new name.
    pub fn update_name(&mut self, name: String) -> (r: String)
        ensures
            final(self).name@ == name@,
            r@ == name@,
            final(self).id == old(self).id,
            final(self).hidden == old(self).hidden,
            final(self).ledger == old(self).ledger,
            final(self).metadata == old(self).metadata,
    {
        let r = name.clone();
        self.name = name;
        r
    }

    /// Marks the account hidden.
    pub fn hide_account(&mut self)
        ensures
            final(self).hidden,
            final(self).id == old(self).id,
            final(self).name == old(self).name,
            final(self).ledger == old(self).ledger,
            final(self).metadata == old(self).metadata,
    {
        self.hidden = true;
    }

    /// Marks the account visible.
    pub fn unhide(&mut self)
        ensures
            !final(self).hidden,
            final(self).id == old(self).id,
            final(self).name == old(self).name,
            final(self).ledger == old(self).ledger,
            final(self).metadata == old(self).metadata,
    {
        self.hidden = false;
    }

    /// A copy of the account's address book.
    pub fn public_keys(&self) -> (r: crate::public_keys::PublicKeys)
        requires
            self.wf(),
        ensures
            r.spec_ecdsa() == self.ledger.public_keys.spec_ecdsa(),
            r.spec_is_ecdsa_set() == self.ledger.public_keys.spec_is_ecdsa_set(),
            r.identifier.0@ == self.ledger.public_keys.identifier.0@,
            forall|k: crate::chain::ChainKindView|
                r.addresses.spec_get(k) == self.ledger.public_keys.addresses.spec_get(k),
    {
        let pk = &self.ledger.public_keys;
        crate::public_keys::PublicKeys {
            ecdsa: match &pk.ecdsa {
                Some(k) => Some(crate::subaccount::clone_bytes(k)),
                None => None,
            },
            addresses: pk.addresses.dup(),
            identifier: pk.identifier(),
        }
    }

    /// The account's environment, read from its subaccount.
    pub fn environment(&self) -> (r: Environment)
        requires
            self.wf(),
        ensures
            r == self.ledger.subaccount.spec_environment(),
    {
        self.ledger.subaccount.environment()
    }

    /// The display name.
    pub fn name(&self) -> (r: String)
        ensures
            r@ == self.name@,
    {
        self.name.clone()
    }

    /// The derived account id.
    pub fn id(&self) -> (r: String)
        ensures
            r@ == self.id@,
    {
        self.id.clone()
    }

    /// Renames the account; the same operation as `update_name` without
    /// returning the name.
    pub fn rename(&mut self, name: String)
        ensures
            final(self).name@ == name@,
            final(self).id == old(self).id,
            final(self).hidden == old(self).hidden,
            final(self).ledger == old(self).ledger,
            final(self).metadata == old(self).metadata,
    {
        self.name = name;
    }
}

} // verus!
