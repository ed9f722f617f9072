//! The key-value domain type and its operation enumerations.
//!
//! The engine is generic over a domain type; this module provides the one the
//! crate ships: a string-to-string map with insert, checked insert and get.
//! The operation enumerations and the capability impls are written out by
//! hand, one constructor per operation, dispatched exhaustively.

use vstd::prelude::*;

use crate::names::str_eq;
use crate::traits::{Readable, Updateable};

verus! {

/// The abstract state: key/value pairs in insertion order, keys unique.
pub type KvPairs = Seq<(Seq<char>, Seq<char>)>;

/// The first value bound to `k`, if any.
pub open spec fn kv_lookup(s: KvPairs, k: Seq<char>) -> Option<Seq<char>>
    decreases s.len(),
{
    if s.len() == 0 {
        None
    } else if s[0].0 == k {
        Some(s[0].1)
    } else {
        kv_lookup(s.skip(1), k)
    }
}

/// Whether some pair is keyed by `k`.
pub open spec fn kv_contains(s: KvPairs, k: Seq<char>) -> bool {
    exists|i: int| 0 <= i < s.len() && s[i].0 == k
}

/// Binds `k` to `v`: replaces the first pair keyed by `k`, or appends one.
pub open spec fn kv_insert(s: KvPairs, k: Seq<char>, v: Seq<char>) -> KvPairs
    decreases s.len(),
{
    if s.len() == 0 {
        seq![(k, v)]
    } else if s[0].0 == k {
        seq![(k, v)] + s.skip(1)
    } else {
        seq![s[0]] + kv_insert(s.skip(1), k, v)
    }
}

proof fn lemma_kv_lookup_at(s: KvPairs, k: Seq<char>, i: int)
    requires
        0 <= i < s.len(),
        s[i].0 == k,
        forall|j: int| 0 <= j < i ==> s[j].0 != k,
    ensures
        kv_lookup(s, k) == Some(s[i].1),
    decreases i,
{
    if i > 0 {
        assert(forall|j: int| 0 <= j < i - 1 ==> s.skip(1)[j] == s[j + 1]);
        lemma_kv_lookup_at(s.skip(1), k, i - 1);
    }
}

proof fn lemma_kv_lookup_none(s: KvPairs, k: Seq<char>)
    requires
        forall|j: int| 0 <= j < s.len() ==> s[j].0 != k,
    ensures
        kv_lookup(s, k) is None,
    decreases s.len(),
{
    if s.len() > 0 {
        assert(forall|j: int| 0 <= j < s.len() - 1 ==> s.skip(1)[j] == s[j + 1]);
        lemma_kv_lookup_none(s.skip(1), k);
    }
}

proof fn lemma_kv_insert_at(s: KvPairs, k: Seq<char>, v: Seq<char>, i: int)
    requires
        0 <= i < s.len(),
        s[i].0 == k,
        forall|j: int| 0 <= j < i ==> s[j].0 != k,
    ensures
        kv_insert(s, k, v) =~= s.update(i, (k, v)),
    decreases i,
{
    if i == 0 {
        assert(kv_insert(s, k, v) =~= s.update(0, (k, v)));
    } else {
        assert(forall|j: int| 0 <= j < i - 1 ==> s.skip(1)[j] == s[j + 1]);
        lemma_kv_insert_at(s.skip(1), k, v, i - 1);
        assert(kv_insert(s, k, v) =~= seq![s[0]] + s.skip(1).update(i - 1, (k, v)));
        assert(seq![s[0]] + s.skip(1).update(i - 1, (k, v)) =~= s.update(i, (k, v)));
    }
}

proof fn lemma_kv_insert_absent(s: KvPairs, k: Seq<char>, v: Seq<char>)
    requires
        forall|j: int| 0 <= j < s.len() ==> s[j].0 != k,
    ensures
        kv_insert(s, k, v) =~= s.push((k, v)),
    decreases s.len(),
{
    if s.len() > 0 {
        assert(forall|j: int| 0 <= j < s.len() - 1 ==> s.skip(1)[j] == s[j + 1]);
        lemma_kv_insert_absent(s.skip(1), k, v);
        assert(kv_insert(s, k, v) =~= seq![s[0]] + s.skip(1).push((k, v)));
        assert(seq![s[0]] + s.skip(1).push((k, v)) =~= s.push((k, v)));
    }
}

/// A string-to-string map, the crate's example domain type.
#[derive(Debug)]
pub struct KeyValueStore {
    store: Vec<(String, String)>,
}

impl View for KeyValueStore {
    type V = KvPairs;

    closed spec fn view(&self) -> KvPairs {
        self.store.deep_view()
    }
}

impl KeyValueStore {
    /// Each pair of the view is the view of the pair.
    proof fn lemma_view_index(&self)
        ensures
            self@.len() == self.store@.len(),
            forall|j: int|
                0 <= j < self.store@.len() ==> #[trigger] self@[j] == (
                    self.store@[j].0@,
                    self.store@[j].1@,
                ),
    {
    }

    /// The index of the first pair keyed by `key`, if any.
    fn find_key(&self, key: &str) -> (r: Option<usize>)
        ensures
            match r {
                Some(i) => 0 <= i < self@.len() && self@[i as int].0 == key@ && forall|j: int|
                    0 <= j < i ==> self@[j].0 != key@,
                None => forall|j: int| 0 <= j < self@.len() ==> self@[j].0 != key@,
            },
    {
        proof {
            self.lemma_view_index();
        }
        let mut i: usize = 0;
        while i < self.store.len()
            invariant
                0 <= i <= self.store@.len(),
                self@.len() == self.store@.len(),
                forall|j: int|
                    0 <= j < self.store@.len() ==> #[trigger] self@[j] == (
                        self.store@[j].0@,
                        self.store@[j].1@,
                    ),
                forall|j: int| 0 <= j < i ==> self@[j].0 != key@,
            decreases self.store@.len() - i,
        {
            if str_eq(self.store[i].0.as_str(), key) {
                return Some(i);
            }
            i = i + 1;
        }
        None
    }

    /// Binds `key` to `value`, replacing any previous binding.
    pub fn insert(&mut self, key: String, value: String)
        ensures
            final(self)@ == kv_insert(old(self)@, key@, value@),
    {
        match self.find_key(key.as_str()) {
            Some(i) => {
                self.store.remove(i);
                self.store.insert(i, (key, value));
                proof {
                    lemma_kv_insert_at(old(self)@, key@, value@, i as int);
                    old(self).lemma_view_index();
                    self.lemma_view_index();
                    assert(self@ =~= old(self)@.update(i as int, (key@, value@)));
                }
            },
            None => {
                self.store.push((key, value));
                proof {
                    lemma_kv_insert_absent(old(self)@, key@, value@);
                    old(self).lemma_view_index();
                    self.lemma_view_index();
                    assert(self@ =~= old(self)@.push((key@, value@)));
                }
            },
        }
    }

    /// Binds `key` to `value` only if `key` is unbound; reports whether it
    /// inserted.
    pub fn insert_with_check(&mut self, key: String, value: String) -> (r: bool)
        ensures
            r == !kv_contains(old(self)@, key@),
            final(self)@ == (if kv_contains(old(self)@, key@) {
                old(self)@
            } else {
                kv_insert(old(self)@, key@, value@)
            }),
    {
        match self.find_key(key.as_str()) {
            Some(i) => {
                proof {
                    assert(0 <= i < self@.len() && self@[i as int].0 == key@);
                }
                false
            },
            None => {
                self.insert(key, value);
                true
            },
        }
    }

    /// The value bound to `key`, if any.
    pub fn get(&self, key: &str) -> (r: Option<String>)
        ensures
            match r {
                Some(v) => kv_lookup(self@, key@) == Some(v@),
                None => kv_lookup(self@, key@) is None,
            },
    {
        match self.find_key(key) {
            Some(i) => {
                proof {
                    lemma_kv_lookup_at(self@, key@, i as int);
                    self.lemma_view_index();
                }
                Some(self.store[i].1.clone())
            },
            None => {
                proof {
                    lemma_kv_lookup_none(self@, key@);
                }
                None
            },
        }
    }

    /// The pairs of the store, as plain values, in insertion order; this is
    /// what the serialization strategy writes to a checkpoint.
    pub fn pairs(&self) -> (r: &Vec<(String, String)>)
        ensures
            r.deep_view() == self@,
    {
        &self.store
    }

    /// Rebuilds a store from plain pairs, as parsed from a checkpoint.
    pub fn from_pairs(pairs: Vec<(String, String)>) -> (r: KeyValueStore)
        ensures
            r@ == pairs.deep_view(),
    {
        KeyValueStore { store: pairs }
    }
}

impl Clone for KeyValueStore {
    /// Clones the store; the copy has the same abstract state.
    fn clone(&self) -> (r: Self)
        ensures
            r@ == self@,
    {
        let mut store: Vec<(String, String)> = Vec::new();
        let mut i: usize = 0;
        while i < self.store.len()
            invariant
                0 <= i <= self.store@.len(),
                store@.len() == i,
                forall|j: int|
                    0 <= j < i ==> #[trigger] store@[j].0@ == self.store@[j].0@ && store@[j].1@
                        == self.store@[j].1@,
            decreases self.store@.len() - i,
        {
            store.push((self.store[i].0.clone(), self.store[i].1.clone()));
            i = i + 1;
        }
        let r = KeyValueStore { store };
        proof {
            r.lemma_view_index();
            self.lemma_view_index();
            assert(r@ =~= self@);
        }
        r
    }
}

impl PartialEq for KeyValueStore {
    /// Two stores are equal when they hold the same pairs in the same order.
    fn eq(&self, other: &KeyValueStore) -> (r: bool)
    {
        proof {
            self.lemma_view_index();
            other.lemma_view_index();
        }
        if self.store.len() != other.store.len() {
            assert(self@.len() != other@.len());
            return false;
        }
        let mut i: usize = 0;
        while i < self.store.len()
            invariant
                0 <= i <= self.store@.len(),
                self@.len() == self.store@.len(),
                other@.len() == other.store@.len(),
                self.store@.len() == other.store@.len(),
                forall|j: int|
                    0 <= j < self.store@.len() ==> #[trigger] self@[j] == (
                        self.store@[j].0@,
                        self.store@[j].1@,
                    ),
                forall|j: int|
                    0 <= j < other.store@.len() ==> #[trigger] other@[j] == (
                        other.store@[j].0@,
                        other.store@[j].1@,
                    ),
                forall|j: int| 0 <= j < i ==> self@[j] == other@[j],
            decreases self.store@.len() - i,
        {
            if !str_eq(self.store[i].0.as_str(), other.store[i].0.as_str()) {
                assert(self@[i as int] != other@[i as int]);
                return false;
            }
            if !str_eq(self.store[i].1.as_str(), other.store[i].1.as_str()) {
                assert(self@[i as int] != other@[i as int]);
                return false;
            }
            i = i + 1;
        }
        proof {
            assert(self@ =~= other@);
        }
        true
    }
}

impl vstd::std_specs::cmp::PartialEqSpecImpl for KeyValueStore {
    open spec fn obeys_eq_spec() -> bool {
        true
    }

    open spec fn eq_spec(&self, other: &KeyValueStore) -> bool {
        self@ == other@
    }
}

impl Default for KeyValueStore {
    /// The empty store.
    fn default() -> (r: Self)
        ensures
            r@ == Seq::<(Seq<char>, Seq<char>)>::empty(),
    {
        KeyValueStore::initial_state()
    }
}

/// The read operations, one constructor per operation.
#[derive(Debug)]
pub enum KeyValueStoreReadParams {
    Get(String),
}

/// The read results, one constructor per operation.
#[derive(Debug, PartialEq)]
pub enum KeyValueStoreReadReturn {
    Get(Option<String>),
}

/// The update operations, one constructor per operation; these are what the
/// log records.
#[derive(Debug)]
pub enum KeyValueStoreUpdateParams {
    Insert(String, String),
    InsertWithCheck(String, String),
}

/// The update results, one constructor per operation.
#[derive(Debug, PartialEq)]
pub enum KeyValueStoreUpdateReturn {
    Insert(()),
    InsertWithCheck(bool),
}

/// The abstract form of a read operation.
pub enum KvReadOp {
    Get(Seq<char>),
}

/// The abstract form of a read result.
pub enum KvReadRet {
    Get(Option<Seq<char>>),
}

/// The abstract form of an update operation.
pub enum KvUpdateOp {
    Insert(Seq<char>, Seq<char>),
    InsertWithCheck(Seq<char>, Seq<char>),
}

impl View for KeyValueStoreReadParams {
    type V = KvReadOp;

    open spec fn view(&self) -> KvReadOp {
        match self {
            KeyValueStoreReadParams::Get(k) => KvReadOp::Get(k@),
        }
    }
}

impl View for KeyValueStoreReadReturn {
    type V = KvReadRet;

    open spec fn view(&self) -> KvReadRet {
        match self {
            KeyValueStoreReadReturn::Get(v) => KvReadRet::Get(
                match v {
                    Some(s) => Some(s@),
                    None => None,
                },
            ),
        }
    }
}

impl View for KeyValueStoreUpdateParams {
    type V = KvUpdateOp;

    open spec fn view(&self) -> KvUpdateOp {
        match self {
            KeyValueStoreUpdateParams::Insert(k, v) => KvUpdateOp::Insert(k@, v@),
            KeyValueStoreUpdateParams::InsertWithCheck(k, v) => KvUpdateOp::InsertWithCheck(
                k@,
                v@,
            ),
        }
    }
}

impl View for KeyValueStoreUpdateReturn {
    type V = KeyValueStoreUpdateReturn;

    open spec fn view(&self) -> KeyValueStoreUpdateReturn {
        *self
    }
}

impl Readable for KeyValueStore {
    type Args = KeyValueStoreReadParams;

    type ReturnType = KeyValueStoreReadReturn;

    open spec fn read_spec(s: KvPairs, a: KvReadOp) -> KvReadRet {
        match a {
            KvReadOp::Get(k) => KvReadRet::Get(kv_lookup(s, k)),
        }
    }

    fn read(&self, args: &KeyValueStoreReadParams) -> (r: KeyValueStoreReadReturn)
        ensures
            r@ == <KeyValueStore as Readable>::read_spec(self@, args@),
    {
        match args {
            KeyValueStoreReadParams::Get(k) => KeyValueStoreReadReturn::Get(self.get(k.as_str())),
        }
    }
}

impl Updateable for KeyValueStore {
    type Args = KeyValueStoreUpdateParams;

    type ReturnType = KeyValueStoreUpdateReturn;

    open spec fn init_spec() -> KvPairs {
        Seq::empty()
    }

    open spec fn apply_spec(s: KvPairs, a: KvUpdateOp) -> KvPairs {
        match a {
            KvUpdateOp::Insert(k, v) => kv_insert(s, k, v),
            KvUpdateOp::InsertWithCheck(k, v) => if kv_contains(s, k) {
                s
            } else {
                kv_insert(s, k, v)
            },
        }
    }

    open spec fn ret_spec(s: KvPairs, a: KvUpdateOp) -> KeyValueStoreUpdateReturn {
        match a {
            KvUpdateOp::Insert(k, v) => KeyValueStoreUpdateReturn::Insert(()),
            KvUpdateOp::InsertWithCheck(k, v) => KeyValueStoreUpdateReturn::InsertWithCheck(
                !kv_contains(s, k),
            ),
        }
    }

    fn initial_state() -> (r: Self)
        ensures
            r@ == <KeyValueStore as Updateable>::init_spec(),
    {
        let r = KeyValueStore { store: Vec::new() };
        proof {
            assert(r@ =~= Seq::<(Seq<char>, Seq<char>)>::empty());
        }
        r
    }

    fn update(&mut self, args: &KeyValueStoreUpdateParams) -> (r: KeyValueStoreUpdateReturn)
        ensures
            final(self)@ == <KeyValueStore as Updateable>::apply_spec(old(self)@, args@),
            r@ == <KeyValueStore as Updateable>::ret_spec(old(self)@, args@),
    {
        match args {
            KeyValueStoreUpdateParams::Insert(k, v) => {
                self.insert(k.clone(), v.clone());
                KeyValueStoreUpdateReturn::Insert(())
            },
            KeyValueStoreUpdateParams::InsertWithCheck(k, v) => {
                let inserted = self.insert_with_check(k.clone(), v.clone());
                KeyValueStoreUpdateReturn::InsertWithCheck(inserted)
            },
        }
    }
}

} // verus!
