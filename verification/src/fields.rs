//! The named fields of a physical element, in the order they were added.
use vstd::prelude::*;
use crate::error::Error;
use crate::name::PathName;
use crate::ordered_map::{InsertionOrderedMap, MapKey, key_index, keys_distinct};

verus! {

/// Fields by path, in the order they were added; no path occurs twice.
#[derive(Debug, PartialEq, Eq, Hash)]
pub struct Fields<T> {
    fields: InsertionOrderedMap<PathName, T>,
}

impl<T> Fields<T> {
    /// The fields, in order.
    pub closed spec fn entries(&self) -> Seq<(PathName, T)> {
        self.fields.entries()
    }

    /// The given fields in order, or an `UnexpectedDuplicate` error when a
    /// path occurs twice.
    pub fn new(fields: Vec<(PathName, T)>) -> (r: Result<Fields<T>, Error>)
        ensures
            r is Ok <==> keys_distinct(fields@),
            r matches Ok(f) ==> f.entries() == fields@,
            r matches Err(e) ==> e is UnexpectedDuplicate,
    {
        let ghost all = fields@;
        let _n = fields.len();
        let mut map: InsertionOrderedMap<PathName, T> = InsertionOrderedMap::new();
        let mut rest = fields;
        proof {
            assert(rest@ =~= all.skip(0));
            assert(all.take(0) =~= Seq::<(PathName, T)>::empty());
        }
        let mut i: usize = 0;
        while rest.len() > 0
            invariant
                i + rest@.len() == all.len(),
                all.len() <= usize::MAX,
                all == fields@,
                rest@ == all.skip(i as int),
                map.entries() == all.take(i as int),
                keys_distinct(all.take(i as int)),
            decreases rest@.len(),
        {
            let (k, v) = rest.remove(0);
            proof {
                assert(all.skip(i + 1) =~= all.skip(i as int).drop_first());
            }
            let ghost before = map.entries();
            match map.try_insert(k, v) {
                Ok(()) => {
                    proof {
                        assert(all.take(i + 1) =~= before.push(all[i as int]));
                    }
                },
                Err(e) => {
                    proof {
                        let j = choose|j: int| 0 <= j < before.len() && #[trigger] before[j].0.key()
                            == all[i as int].0.key();
                        assert(all[j] == before[j]);
                        assert(all[j].0.key() == all[i as int].0.key());
                        assert(!keys_distinct(all));
                    }
                    return Err(e);
                },
            }
            i = i + 1;
        }
        proof {
            assert(all.take(i as int) =~= all);
        }
        Ok(Fields { fields: map })
    }

    /// No fields.
    pub fn new_empty() -> (r: Fields<T>)
        ensures
            r.entries() == Seq::<(PathName, T)>::empty(),
    {
        Fields { fields: InsertionOrderedMap::new() }
    }

    /// The fields as a map.
    pub fn indexed(&self) -> (r: &InsertionOrderedMap<PathName, T>)
        ensures
            r.entries() == self.entries(),
    {
        &self.fields
    }

    /// Adds a field. For a path already present, its value is replaced in
    /// place and an `UnexpectedDuplicate` error is reported.
    pub fn insert(&mut self, path_name: PathName, bit_count: T) -> (r: Result<(), Error>)
        ensures
            match key_index(old(self).entries(), path_name@) {
                Some(i) => r matches Err(e) && e is UnexpectedDuplicate && final(self).entries()
                    == old(self).entries().update(i, (old(self).entries()[i].0, bit_count)),
                None => r is Ok && final(self).entries() == old(self).entries().push(
                    (path_name, bit_count),
                ),
            },
    {
        self.fields.lemma_distinct();
        match self.fields.index_of(&path_name) {
            Some(i) => {
                proof {
                    let e = old(self).entries();
                    let j = choose|j: int| 0 <= j < e.len() && #[trigger] e[j].0.key() == path_name@;
                    if j != i {
                        assert(e[j].0.key() != e[i as int].0.key());
                    }
                }
                self.fields.replace_at(i, bit_count);
                Err(Error::UnexpectedDuplicate)
            },
            None => {
                let res = self.fields.try_insert(path_name, bit_count);
                assert(res is Ok);
                Ok(())
            },
        }
    }

    /// The paths of the fields, in order.
    pub fn keys(&self) -> (r: Vec<PathName>)
        ensures
            r@.len() == self.entries().len(),
            forall|i: int| 0 <= i < r@.len() ==> #[trigger] r@[i]@ == self.entries()[i].0@,
    {
        let mut r: Vec<PathName> = Vec::new();
        let mut i: usize = 0;
        while i < self.fields.len()
            invariant
                i <= self.entries().len(),
                r@.len() == i,
                forall|j: int| 0 <= j < i ==> #[trigger] r@[j]@ == self.entries()[j].0@,
            decreases self.entries().len() - i,
        {
            r.push(self.fields.key_at(i).clone());
            i = i + 1;
        }
        r
    }

    /// The values of the fields, in order.
    pub fn values(&self) -> (r: Vec<&T>)
        ensures
            r@.len() == self.entries().len(),
            forall|i: int| 0 <= i < r@.len() ==> *#[trigger] r@[i] == self.entries()[i].1,
    {
        let mut r: Vec<&T> = Vec::new();
        let mut i: usize = 0;
        while i < self.fields.len()
            invariant
                i <= self.entries().len(),
                r@.len() == i,
                forall|j: int| 0 <= j < i ==> *#[trigger] r@[j] == self.entries()[j].1,
            decreases self.entries().len() - i,
        {
            r.push(self.fields.value_at(i));
            i = i + 1;
        }
        r
    }

    /// The fields with `f` applied to each value, paths and order kept.
    pub fn map<R, F: Fn(T) -> R>(self, f: F) -> (r: Fields<R>)
        requires
            forall|i: int, x: T|
                0 <= i < self.entries().len() && self.entries()[i].1 == x ==> call_requires(f, (x,)),
        ensures
            r.entries().len() == self.entries().len(),
            forall|i: int|
                0 <= i < r.entries().len() ==> #[trigger] r.entries()[i].0 == self.entries()[i].0
                    && call_ensures(f, (self.entries()[i].1,), r.entries()[i].1),
    {
        let ghost all = self.entries();
        let mut rest = self.fields.into_entries();
        let _n = rest.len();
        let mut map: InsertionOrderedMap<PathName, R> = InsertionOrderedMap::new();
        let mut i: usize = 0;
        proof {
            assert(rest@ =~= all.skip(0));
        }
        while rest.len() > 0
            invariant
                i + rest@.len() == all.len(),
                all.len() <= usize::MAX,
                rest@ == all.skip(i as int),
                keys_distinct(all),
                forall|j: int, x: T| 0 <= j < all.len() && all[j].1 == x ==> call_requires(f, (x,)),
                map.entries().len() == i,
                forall|j: int|
                    0 <= j < i ==> #[trigger] map.entries()[j].0 == all[j].0 && call_ensures(
                        f,
                        (all[j].1,),
                        map.entries()[j].1,
                    ),
            decreases rest@.len(),
        {
            let (k, v) = rest.remove(0);
            proof {
                assert(all.skip(i + 1) =~= all.skip(i as int).drop_first());
            }
            let y = f(v);
            let ghost before = map.entries();
            proof {
                assert forall|j: int| 0 <= j < before.len() implies #[trigger] before[j].0.key()
                    != k.key() by {
                    assert(before[j].0 == all[j].0);
                }
            }
            let res = map.try_insert(k, y);
            assert(res is Ok);
            i = i + 1;
        }
        Fields { fields: map }
    }
}

} // verus!
