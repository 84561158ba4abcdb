//! Maps that keep their entries in the order of insertion.
use vstd::prelude::*;
use crate::error::Error;
use crate::name::{
    Name,
    PathName,
    lemma_text_lt_irreflexive,
    lemma_text_lt_total,
    lemma_text_lt_transitive,
    text_lt,
};

verus! {

/// Keys of an `InsertionOrderedMap`: compared by their spelling.
pub trait MapKey: Sized {
    spec fn key(&self) -> Seq<Seq<char>>;

    fn key_eq(&self, other: &Self) -> (r: bool)
        ensures
            r == (self.key() == other.key()),
    ;

    /// Whether this key comes strictly before `other` (see `key_before`).
    fn comes_before(&self, other: &Self) -> (r: bool)
        ensures
            r == key_before(self.key(), other.key()),
    ;
}

/// The order of keys: name by name, each in the order of `text_lt`, a
/// key before every longer key that starts with it.
pub open spec fn key_before(a: Seq<Seq<char>>, b: Seq<Seq<char>>) -> bool
    decreases a.len(),
{
    if b.len() == 0 {
        false
    } else if a.len() == 0 {
        true
    } else if a[0] != b[0] {
        text_lt(a[0], b[0])
    } else {
        key_before(a.drop_first(), b.drop_first())
    }
}

/// Of two different keys, one comes before the other, and not both; no key
/// comes before itself.
pub proof fn lemma_key_before_total(a: Seq<Seq<char>>, b: Seq<Seq<char>>)
    ensures
        a != b ==> (key_before(a, b) || key_before(b, a)),
        !(key_before(a, b) && key_before(b, a)),
        !key_before(a, a),
    decreases a.len(),
{
    if a.len() > 0 && b.len() > 0 {
        lemma_text_lt_total(a[0], b[0]);
        lemma_text_lt_irreflexive(a[0]);
        lemma_key_before_total(a.drop_first(), b.drop_first());
        lemma_key_before_total(a.drop_first(), a.drop_first());
        if a[0] == b[0] && a.drop_first() == b.drop_first() {
            assert(a =~= seq![a[0]] + a.drop_first());
            assert(b =~= seq![b[0]] + b.drop_first());
        }
    } else if a.len() == 0 && b.len() == 0 {
        assert(a =~= b);
    } else if a.len() > 0 {
        lemma_text_lt_irreflexive(a[0]);
        lemma_key_before_total(a.drop_first(), a.drop_first());
    }
}

/// The order of keys is transitive.
pub proof fn lemma_key_before_transitive(a: Seq<Seq<char>>, b: Seq<Seq<char>>, c: Seq<Seq<char>>)
    requires
        key_before(a, b),
        key_before(b, c),
    ensures
        key_before(a, c),
    decreases a.len(),
{
    if a.len() > 0 {
        if a[0] != b[0] && b[0] != c[0] {
            lemma_text_lt_transitive(a[0], b[0], c[0]);
            lemma_text_lt_total(a[0], b[0]);
        } else if a[0] == b[0] && b[0] == c[0] {
            lemma_key_before_transitive(a.drop_first(), b.drop_first(), c.drop_first());
        }
    }
}

impl MapKey for Name {
    open spec fn key(&self) -> Seq<Seq<char>> {
        seq![self@]
    }

    fn comes_before(&self, other: &Self) -> (r: bool) {
        let r = self.name_lt(other);
        proof {
            lemma_text_lt_irreflexive(self@);
            let ka = seq![self@];
            let kb = seq![other@];
            assert(ka[0] == self@ && kb[0] == other@);
            assert(ka.drop_first() =~= Seq::<Seq<char>>::empty());
            assert(kb.drop_first() =~= Seq::<Seq<char>>::empty());
            assert(!key_before(Seq::<Seq<char>>::empty(), Seq::<Seq<char>>::empty()));
            assert(self.key() == ka && other.key() == kb);
        }
        r
    }

    fn key_eq(&self, other: &Self) -> (r: bool) {
        let r = self.name_eq(other);
        proof {
            if !r {
                assert(seq![self@][0] != seq![other@][0]);
            } else {
                assert(seq![self@] =~= seq![other@]);
            }
        }
        r
    }
}

impl MapKey for PathName {
    open spec fn key(&self) -> Seq<Seq<char>> {
        self@
    }

    fn key_eq(&self, other: &Self) -> (r: bool) {
        self.path_eq(other)
    }

    fn comes_before(&self, other: &Self) -> (r: bool) {
        let ghost a = self@;
        let ghost b = other@;
        let n = self.len();
        let m = other.len();
        let mut i: usize = 0;
        proof {
            assert(a.skip(0) =~= a);
            assert(b.skip(0) =~= b);
        }
        while i < n && i < m
            invariant
                n == a.len(),
                m == b.len(),
                a == self@,
                b == other@,
                i <= n,
                i <= m,
                key_before(a, b) == key_before(a.skip(i as int), b.skip(i as int)),
            decreases n - i,
        {
            let x = self.get(i);
            let y = other.get(i);
            proof {
                assert(a.skip(i as int)[0] == a[i as int]);
                assert(b.skip(i as int)[0] == b[i as int]);
                assert(a.skip(i as int).drop_first() =~= a.skip(i + 1));
                assert(b.skip(i as int).drop_first() =~= b.skip(i + 1));
            }
            if x.name_lt(y) {
                proof {
                    lemma_text_lt_irreflexive(x@);
                }
                return true;
            }
            if !x.name_eq(y) {
                return false;
            }
            i = i + 1;
        }
        i < m
    }
}

/// The keys of a sequence of entries are pairwise distinct.
pub open spec fn keys_distinct<K: MapKey, V>(s: Seq<(K, V)>) -> bool {
    forall|i: int, j: int|
        0 <= i < s.len() && 0 <= j < s.len() && i != j ==> #[trigger] s[i].0.key() != #[trigger] s[j].0.key()
}

/// The index of the entry with the given key, if any.
pub open spec fn key_index<K: MapKey, V>(s: Seq<(K, V)>, key: Seq<Seq<char>>) -> Option<int> {
    if exists|i: int| 0 <= i < s.len() && #[trigger] s[i].0.key() == key {
        Some(choose|i: int| 0 <= i < s.len() && #[trigger] s[i].0.key() == key)
    } else {
        None
    }
}

/// The keys of the entries come in strictly increasing order.
pub open spec fn keys_sorted<K: MapKey, V>(s: Seq<(K, V)>) -> bool {
    forall|i: int, j: int|
        0 <= i < j < s.len() ==> key_before(#[trigger] s[i].0.key(), #[trigger] s[j].0.key())
}

/// Inserting the key `k` at position `p` keeps the keys sorted: the keys
/// before `p` come before `k`, and `k` before the keys from `p` on.
pub open spec fn fits_at<K: MapKey, V>(s: Seq<(K, V)>, k: Seq<Seq<char>>, p: int) -> bool {
    &&& 0 <= p <= s.len()
    &&& forall|i: int| 0 <= i < p ==> key_before(#[trigger] s[i].0.key(), k)
    &&& forall|i: int| p <= i < s.len() ==> key_before(k, #[trigger] s[i].0.key())
}

/// The position at which the key `k` belongs among sorted entries.
pub open spec fn sorted_position<K: MapKey, V>(s: Seq<(K, V)>, k: Seq<Seq<char>>) -> int {
    choose|p: int| fits_at(s, k, p)
}

proof fn lemma_fits_unique<K: MapKey, V>(s: Seq<(K, V)>, k: Seq<Seq<char>>, p: int, q: int)
    requires
        fits_at(s, k, p),
        fits_at(s, k, q),
    ensures
        p == q,
{
    if p < q {
        lemma_key_before_total(k, s[p].0.key());
    } else if q < p {
        lemma_key_before_total(k, s[q].0.key());
    }
}

/// Among sorted entries, a key that none of them has belongs at exactly
/// one position.
pub proof fn lemma_sorted_position<K: MapKey, V>(s: Seq<(K, V)>, k: Seq<Seq<char>>)
    requires
        keys_sorted(s),
        forall|i: int| 0 <= i < s.len() ==> #[trigger] s[i].0.key() != k,
    ensures
        fits_at(s, k, sorted_position(s, k)),
        forall|p: int| fits_at(s, k, p) ==> p == sorted_position(s, k),
    decreases s.len(),
{
    let n = s.len() as int;
    let w: int = if n == 0 {
        0
    } else {
        let t = s.drop_last();
        assert forall|i: int, j: int| 0 <= i < j < t.len() implies key_before(
            #[trigger] t[i].0.key(),
            #[trigger] t[j].0.key(),
        ) by {
            assert(t[i] == s[i] && t[j] == s[j]);
        }
        assert forall|i: int| 0 <= i < t.len() implies #[trigger] t[i].0.key() != k by {
            assert(t[i] == s[i]);
        }
        lemma_sorted_position(t, k);
        let q = sorted_position(t, k);
        let last = s[n - 1].0.key();
        lemma_key_before_total(last, k);
        if key_before(last, k) {
            assert forall|i: int| 0 <= i < n implies key_before(#[trigger] s[i].0.key(), k) by {
                if i < q {
                    assert(t[i] == s[i]);
                } else if i < n - 1 {
                    assert(t[i] == s[i]);
                    lemma_key_before_transitive(k, s[i].0.key(), last);
                    lemma_key_before_total(k, last);
                }
            }
            n
        } else {
            assert forall|i: int| 0 <= i < q implies key_before(#[trigger] s[i].0.key(), k) by {
                assert(t[i] == s[i]);
            }
            assert forall|i: int| q <= i < n implies key_before(k, #[trigger] s[i].0.key()) by {
                if i < n - 1 {
                    assert(t[i] == s[i]);
                }
            }
            q
        }
    };
    assert(fits_at(s, k, w));
    assert forall|p: int| fits_at(s, k, p) implies p == sorted_position(s, k) by {
        lemma_fits_unique(s, k, p, sorted_position(s, k));
    }
}

/// A map whose entries keep an order of their own, with distinct keys:
/// the order in which they were inserted, or, where every insertion goes
/// through `try_insert_sorted`, the order of their keys.
#[derive(Debug, PartialEq, Eq, Hash)]
pub struct InsertionOrderedMap<K: MapKey, V> {
    pub(crate) entries: Vec<(K, V)>,
}

impl<K: MapKey, V> InsertionOrderedMap<K, V> {
    #[verifier::type_invariant]
    closed spec fn wf(self) -> bool {
        keys_distinct(self.entries@)
    }

    /// The entries, in order of insertion.
    pub closed spec fn entries(self) -> Seq<(K, V)> {
        self.entries@
    }

    /// The entries are those of the underlying vector.
    pub(crate) proof fn lemma_entries(self)
        ensures
            self.entries() == self.entries@,
    {
    }

    /// A map is larger than its entries, for recursion through maps.
    pub proof fn lemma_entries_decrease(self)
        ensures
            decreases_to!(self => self.entries()),
    {
        assert(decreases_to!(self => self.entries));
        assert(decreases_to!(self.entries => self.entries@));
    }

    pub fn new() -> (r: Self)
        ensures
            r.entries() == Seq::<(K, V)>::empty(),
    {
        InsertionOrderedMap { entries: Vec::new() }
    }

    /// The keys of the entries are pairwise distinct.
    pub fn lemma_distinct(&self)
        ensures
            keys_distinct(self.entries()),
    {
        proof {
            use_type_invariant(self);
        }
    }

    pub fn len(&self) -> (r: usize)
        ensures
            r == self.entries().len(),
    {
        self.entries.len()
    }

    pub fn key_at(&self, i: usize) -> (r: &K)
        requires
            i < self.entries().len(),
        ensures
            *r == self.entries()[i as int].0,
    {
        &self.entries[i].0
    }

    pub fn value_at(&self, i: usize) -> (r: &V)
        requires
            i < self.entries().len(),
        ensures
            *r == self.entries()[i as int].1,
    {
        &self.entries[i].1
    }

    /// The position of the entry with the given key, if any.
    pub fn index_of(&self, key: &K) -> (r: Option<usize>)
        ensures
            r matches Some(i) ==> i < self.entries().len() && self.entries()[i as int].0.key()
                == key.key(),
            r is None ==> forall|i: int|
                0 <= i < self.entries().len() ==> #[trigger] self.entries()[i].0.key() != key.key(),
    {
        let mut i: usize = 0;
        while i < self.entries.len()
            invariant
                i <= self.entries@.len(),
                forall|j: int| 0 <= j < i ==> #[trigger] self.entries@[j].0.key() != key.key(),
            decreases self.entries@.len() - i,
        {
            if self.entries[i].0.key_eq(key) {
                return Some(i);
            }
            i = i + 1;
        }
        None
    }

    /// The value stored under the given key, if any.
    pub fn get(&self, key: &K) -> (r: Option<&V>)
        ensures
            r is Some <==> exists|i: int|
                0 <= i < self.entries().len() && #[trigger] self.entries()[i].0.key() == key.key(),
            r matches Some(v) ==> exists|i: int|
                0 <= i < self.entries().len() && #[trigger] self.entries()[i].0.key() == key.key()
                    && self.entries()[i].1 == *v,
    {
        match self.index_of(key) {
            Some(i) => Some(&self.entries[i].1),
            None => None,
        }
    }

    /// The value stored under the given key, or an `InvalidArgument` error
    /// when there is none.
    pub fn try_get(&self, key: &K) -> (r: Result<&V, Error>)
        ensures
            match key_index(self.entries(), key.key()) {
                Some(i) => r matches Ok(v) && *v == self.entries()[i].1,
                None => r matches Err(e) && e is InvalidArgument,
            },
    {
        proof {
            use_type_invariant(self);
        }
        match self.index_of(key) {
            Some(i) => {
                proof {
                    let j = choose|j: int|
                        0 <= j < self.entries@.len() && #[trigger] self.entries@[j].0.key()
                            == key.key();
                    assert(self.entries@[i as int].0.key() == key.key());
                    if j != i {
                        assert(self.entries@[j].0.key() != self.entries@[i as int].0.key());
                    }
                }
                Ok(&self.entries[i].1)
            },
            None => Err(
                crate::error::invalid_argument("no value exists for the given key"),
            ),
        }
    }

    pub fn contains(&self, key: &K) -> (r: bool)
        ensures
            r == exists|i: int|
                0 <= i < self.entries().len() && #[trigger] self.entries()[i].0.key() == key.key(),
    {
        self.index_of(key).is_some()
    }

    /// The entries, in order of insertion.
    pub fn into_entries(self) -> (r: Vec<(K, V)>)
        ensures
            r@ == self.entries(),
            keys_distinct(r@),
    {
        proof {
            use_type_invariant(&self);
        }
        self.entries
    }

    /// Replaces the value of the entry at position `i`, keeping its key and
    /// place.
    pub fn replace_at(&mut self, i: usize, value: V)
        requires
            i < old(self).entries().len(),
        ensures
            final(self).entries() == old(self).entries().update(
                i as int,
                (old(self).entries()[i as int].0, value),
            ),
    {
        proof {
            use_type_invariant(&*self);
        }
        let mut entries = Vec::new();
        std::mem::swap(&mut entries, &mut self.entries);
        let (k, _) = entries.remove(i);
        entries.insert(i, (k, value));
        proof {
            assert(entries@ =~= old(self).entries@.update(
                i as int,
                (old(self).entries@[i as int].0, value),
            ));
            assert forall|a: int, b: int|
                0 <= a < entries@.len() && 0 <= b < entries@.len() && a != b implies #[trigger] entries@[a].0.key()
                != #[trigger] entries@[b].0.key() by {
                assert(entries@[a].0 == old(self).entries@[a].0);
                assert(entries@[b].0 == old(self).entries@[b].0);
            }
        }
        self.entries = entries;
    }

    /// Appends an entry, or reports `UnexpectedDuplicate` when the key is
    /// already present (the map is then unchanged).
    pub fn try_insert(&mut self, key: K, value: V) -> (r: Result<(), Error>)
        ensures
            r is Ok <==> forall|i: int|
                0 <= i < old(self).entries().len() ==> #[trigger] old(self).entries()[i].0.key()
                    != key.key(),
            r is Ok ==> final(self).entries() == old(self).entries().push((key, value)),
            r matches Err(e) ==> e is UnexpectedDuplicate && final(self).entries() == old(
                self,
            ).entries(),
    {
        proof {
            use_type_invariant(&*self);
        }
        match self.index_of(&key) {
            Some(_) => Err(Error::UnexpectedDuplicate),
            None => {
                let mut entries = Vec::new();
                std::mem::swap(&mut entries, &mut self.entries);
                entries.push((key, value));
                self.entries = entries;
                Ok(())
            },
        }
    }
}

impl<K: MapKey, V> InsertionOrderedMap<K, V> {
    /// In a map whose keys are sorted, inserts an entry where its key
    /// belongs, or reports `UnexpectedDuplicate` when the key is already
    /// present (the map is then unchanged).
    pub fn try_insert_sorted(&mut self, key: K, value: V) -> (r: Result<(), Error>)
        requires
            keys_sorted(old(self).entries()),
        ensures
            keys_sorted(final(self).entries()),
            r is Ok <==> forall|i: int|
                0 <= i < old(self).entries().len() ==> #[trigger] old(self).entries()[i].0.key()
                    != key.key(),
            r is Ok ==> final(self).entries() == old(self).entries().insert(
                sorted_position(old(self).entries(), key.key()),
                (key, value),
            ),
            r matches Err(e) ==> e is UnexpectedDuplicate && final(self).entries() == old(
                self,
            ).entries(),
    {
        proof {
            use_type_invariant(&*self);
        }
        let ghost s = self.entries@;
        let ghost k = key.key();
        let n = self.entries.len();
        let mut i: usize = 0;
        while i < n
            invariant
                n == s.len(),
                s == self.entries@,
                k == key.key(),
                i <= n,
                forall|j: int| 0 <= j < i ==> key_before(#[trigger] s[j].0.key(), k),
            ensures
                i <= n,
                forall|j: int| 0 <= j < i ==> key_before(#[trigger] s[j].0.key(), k),
                i < n ==> !key_before(s[i as int].0.key(), k),
            decreases n - i,
        {
            let entry = &self.entries[i];
            assert(entry.0 == s[i as int].0);
            let c = entry.0.comes_before(&key);
            assert(c == key_before(s[i as int].0.key(), k));
            if !c {
                break;
            }
            i = i + 1;
        }
        if i < n && self.entries[i].0.key_eq(&key) {
            return Err(Error::UnexpectedDuplicate);
        }
        proof {
            assert forall|j: int| 0 <= j < n implies #[trigger] s[j].0.key() != k by {
                lemma_key_before_total(k, k);
                if j > i {
                    lemma_key_before_total(s[i as int].0.key(), k);
                    lemma_key_before_transitive(k, s[i as int].0.key(), s[j].0.key());
                }
            }
            assert forall|j: int| i <= j < n implies key_before(k, #[trigger] s[j].0.key()) by {
                lemma_key_before_total(s[i as int].0.key(), k);
                if j > i {
                    lemma_key_before_transitive(k, s[i as int].0.key(), s[j].0.key());
                }
            }
            assert(fits_at(s, k, i as int));
            lemma_sorted_position(s, k);
        }
        let mut entries = Vec::new();
        std::mem::swap(&mut entries, &mut self.entries);
        entries.insert(i, (key, value));
        proof {
            let t = entries@;
            assert(t == s.insert(i as int, (key, value)));
            assert forall|a: int, b: int| 0 <= a < b < t.len() implies key_before(
                #[trigger] t[a].0.key(),
                #[trigger] t[b].0.key(),
            ) by {
                if b < i {
                    assert(t[a] == s[a] && t[b] == s[b]);
                } else if b == i {
                    assert(t[a] == s[a]);
                } else if a < i {
                    assert(t[a] == s[a] && t[b] == s[b - 1]);
                    lemma_key_before_transitive(s[a].0.key(), k, s[b - 1].0.key());
                } else if a == i {
                    assert(t[b] == s[b - 1]);
                } else {
                    assert(t[a] == s[a - 1] && t[b] == s[b - 1]);
                }
            }
            assert forall|a: int, b: int|
                0 <= a < t.len() && 0 <= b < t.len() && a != b implies #[trigger] t[a].0.key()
                != #[trigger] t[b].0.key() by {
                if a < b {
                    lemma_key_before_total(t[a].0.key(), t[b].0.key());
                } else {
                    lemma_key_before_total(t[b].0.key(), t[a].0.key());
                }
            }
        }
        self.entries = entries;
        Ok(())
    }

    /// The map with `f` applied to each value, keys and order kept.
    pub fn map_values<R, F: Fn(V) -> R>(self, f: F) -> (r: InsertionOrderedMap<K, R>)
        requires
            forall|i: int, x: V|
                0 <= i < self.entries().len() && self.entries()[i].1 == x ==> call_requires(f, (x,)),
        ensures
            r.entries().len() == self.entries().len(),
            forall|i: int|
                0 <= i < r.entries().len() ==> #[trigger] r.entries()[i].0 == self.entries()[i].0
                    && call_ensures(f, (self.entries()[i].1,), r.entries()[i].1),
    {
        proof {
            use_type_invariant(&self);
        }
        let ghost all = self.entries();
        let mut rest = self.into_entries();
        let _n = rest.len();
        let mut map: InsertionOrderedMap<K, R> = InsertionOrderedMap::new();
        let mut i: usize = 0;
        proof {
            assert(rest@ =~= all.skip(0));
        }
        while rest.len() > 0
            invariant
                i + rest@.len() == all.len(),
                all.len() <= usize::MAX,
                rest@ == all.skip(i as int),
                keys_distinct(all),
                forall|j: int, x: V| 0 <= j < all.len() && all[j].1 == x ==> call_requires(f, (x,)),
                map.entries().len() == i,
                forall|j: int|
                    0 <= j < i ==> #[trigger] map.entries()[j].0 == all[j].0 && call_ensures(
                        f,
                        (all[j].1,),
                        map.entries()[j].1,
                    ),
            decreases rest@.len(),
        {
            let (k, v) = rest.remove(0);
            proof {
                assert(all.skip(i + 1) =~= all.skip(i as int).drop_first());
            }
            let ghost vv = v;
            let y = f(v);
            let ghost before = map.entries();
            let ghost kv = k;
            let ghost yv = y;
            proof {
                assert(all[i as int] == (kv, vv));
                assert(call_ensures(f, (vv,), y));
                assert forall|j: int| 0 <= j < before.len() implies #[trigger] before[j].0.key()
                    != k.key() by {
                    assert(before[j].0 == all[j].0);
                    assert(all[j].0.key() != all[i as int].0.key());
                }
            }
            let res = map.try_insert(k, y);
            assert(res is Ok);
            proof {
                assert(map.entries() == before.push((kv, yv)));
                assert forall|j: int| 0 <= j < i + 1 implies #[trigger] map.entries()[j].0 == all[j].0
                    && call_ensures(f, (all[j].1,), map.entries()[j].1) by {
                    if j < i {
                        assert(map.entries()[j] == before[j]);
                    } else {
                        assert(map.entries()[j] == (kv, yv));
                        assert(all[j].1 == vv);
                    }
                }
            }
            i = i + 1;
        }
        map
    }
}

/// What is inserted under a new key is found again under it, and every
/// other key is found where it was.
pub proof fn lemma_insert_then_find<K: MapKey, V>(s: Seq<(K, V)>, key: K, value: V)
    requires
        keys_distinct(s),
        forall|i: int| 0 <= i < s.len() ==> #[trigger] s[i].0.key() != key.key(),
    ensures
        keys_distinct(s.push((key, value))),
        key_index(s.push((key, value)), key.key()) == Some(s.len() as int),
        forall|other: Seq<Seq<char>>|
            other != key.key() ==> #[trigger] key_index(s.push((key, value)), other) == key_index(
                s,
                other,
            ),
{
    let t = s.push((key, value));
    assert(t[s.len() as int].0.key() == key.key());
    assert forall|other: Seq<Seq<char>>| other != key.key() implies #[trigger] key_index(t, other)
        == key_index(s, other) by {
        if exists|i: int| 0 <= i < s.len() && #[trigger] s[i].0.key() == other {
            let i = choose|i: int| 0 <= i < s.len() && #[trigger] s[i].0.key() == other;
            assert(t[i] == s[i]);
            let j = choose|j: int| 0 <= j < t.len() && #[trigger] t[j].0.key() == other;
            let k = choose|k: int| 0 <= k < s.len() && #[trigger] s[k].0.key() == other;
            if j != k {
                assert(t[k] == s[k]);
                if j < s.len() {
                    assert(t[j] == s[j]);
                }
            }
        } else {
            assert forall|j: int| 0 <= j < t.len() implies #[trigger] t[j].0.key() != other by {
                if j < s.len() {
                    assert(t[j] == s[j]);
                }
            }
        }
    }
    let j = choose|j: int| 0 <= j < t.len() && #[trigger] t[j].0.key() == key.key();
    if j != s.len() {
        assert(t[j] == s[j]);
    }
    assert forall|a: int, b: int|
        0 <= a < t.len() && 0 <= b < t.len() && a != b implies #[trigger] t[a].0.key()
        != #[trigger] t[b].0.key() by {
        if a < s.len() {
            assert(t[a] == s[a]);
        }
        if b < s.len() {
            assert(t[b] == s[b]);
        }
    }
}

} // verus!
