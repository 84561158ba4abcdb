//! A tree of named scopes holding values, and lookups along a path that
//! collect the values of the scopes passed through.
use vstd::prelude::*;
use crate::error::Error;
use crate::name::{Name, PathName};
use crate::ordered_map::{MapKey, key_index, keys_distinct};

verus! {

/// A scope with an optional name, a value, whether it is synchronized with
/// its parent scope, and its named child scopes.
#[derive(Debug, PartialEq, Eq, Hash)]
pub struct ScopeStore<T> {
    name: Option<Name>,
    value: T,
    synched: bool,
    child_scopes: Vec<(Name, ScopeStore<T>)>,
}

/// The result of a lookup: the selected scope's value and the values of the
/// scopes passed through on the way, outermost first.
#[derive(Debug, PartialEq, Eq, Hash)]
pub struct ScopeResult<T> {
    selection: T,
    synched_parents: Vec<T>,
}

/// The child of `s` named `name`, if any.
pub open spec fn child_named<T>(s: ScopeStore<T>, name: Seq<char>) -> Option<ScopeStore<T>> {
    match key_index(s.spec_children(), seq![name]) {
        Some(i) => Some(s.spec_children()[i].1),
        None => None,
    }
}

/// Walks from `s` along the names of `path`: the values of the scopes passed
/// through (`s` first) and the value of the scope reached, or `None` when a
/// name has no child scope.
pub open spec fn walk<T>(s: ScopeStore<T>, path: Seq<Seq<char>>) -> Option<(Seq<T>, T)>
    decreases path.len(),
{
    if path.len() == 0 {
        Some((Seq::empty(), s.spec_value()))
    } else {
        match child_named(s, path[0]) {
            Some(c) => match walk(c, path.drop_first()) {
                Some((ps, v)) => Some((seq![s.spec_value()] + ps, v)),
                None => None,
            },
            None => None,
        }
    }
}

/// The position of the child named `name`, if any.
fn child_index<T>(children: &Vec<(Name, ScopeStore<T>)>, name: &Name) -> (r: Option<usize>)
    ensures
        r matches Some(i) ==> i < children@.len() && children@[i as int].0.key() == name.key(),
        r is None ==> forall|i: int|
            0 <= i < children@.len() ==> #[trigger] children@[i].0.key() != name.key(),
{
    let mut i: usize = 0;
    while i < children.len()
        invariant
            i <= children@.len(),
            forall|j: int| 0 <= j < i ==> #[trigger] children@[j].0.key() != name.key(),
        decreases children@.len() - i,
    {
        if children[i].0.key_eq(name) {
            return Some(i);
        }
        i = i + 1;
    }
    None
}

impl<T> ScopeStore<T> {
    pub closed spec fn spec_value(self) -> T {
        self.value
    }

    /// The child scopes and their names, in order of addition.
    pub closed spec fn spec_children(self) -> Seq<(Name, ScopeStore<T>)> {
        self.child_scopes@
    }

    #[verifier::type_invariant]
    closed spec fn wf(self) -> bool {
        keys_distinct(self.child_scopes@)
    }

    /// The child scopes have distinct names.
    pub fn lemma_distinct(&self)
        ensures
            keys_distinct(self.spec_children()),
    {
        proof {
            use_type_invariant(self);
        }
    }

    pub closed spec fn spec_name(self) -> Option<Seq<char>> {
        match self.name {
            Some(n) => Some(n@),
            None => None,
        }
    }

    pub closed spec fn spec_synched(self) -> bool {
        self.synched
    }

    /// A scope without children.
    pub fn new(name: Option<Name>, value: T, synched: bool) -> (r: ScopeStore<T>)
        ensures
            r.spec_name() == match name {
                Some(n) => Some(n@),
                None => None::<Seq<char>>,
            },
            r.spec_value() == value,
            r.spec_synched() == synched,
            r.spec_children() == Seq::<(Name, ScopeStore<T>)>::empty(),
    {
        ScopeStore { name, value, synched, child_scopes: Vec::new() }
    }

    /// A scope without children.
    pub fn try_new(name: Option<Name>, value: T, synched: bool) -> (r: Result<ScopeStore<T>, Error>)
        ensures
            r matches Ok(s) && s.spec_value() == value && s.spec_synched() == synched
                && s.spec_children().len() == 0 && s.spec_name() == match name {
                Some(n) => Some(n@),
                None => None::<Seq<char>>,
            },
    {
        Ok(ScopeStore::new(name, value, synched))
    }

    pub fn name(&self) -> (r: Option<&Name>)
        ensures
            match r {
                Some(n) => self.spec_name() == Some(n@),
                None => self.spec_name() is None,
            },
    {
        match &self.name {
            Some(n) => Some(n),
            None => None,
        }
    }

    pub fn value(&self) -> (r: &T)
        ensures
            *r == self.spec_value(),
    {
        &self.value
    }

    /// Whether this scope is synchronized with its parent scope.
    pub fn synched(&self) -> (r: bool)
        ensures
            r == self.spec_synched(),
    {
        self.synched
    }

    pub fn child_scopes(&self) -> (r: &Vec<(Name, ScopeStore<T>)>)
        ensures
            r@ == self.spec_children(),
    {
        &self.child_scopes
    }

    /// Adds a child scope under `name`, or reports `UnexpectedDuplicate`
    /// when there already is one.
    pub fn try_add_child(&mut self, name: Name, child: ScopeStore<T>) -> (r: Result<(), Error>)
        ensures
            r is Ok <==> forall|i: int|
                0 <= i < old(self).spec_children().len()
                    ==> #[trigger] old(self).spec_children()[i].0.key() != name.key(),
            r is Ok ==> final(self).spec_children() == old(self).spec_children().push((name, child)),
            r matches Err(e) ==> e is UnexpectedDuplicate,
            r is Err ==> final(self).spec_children() == old(self).spec_children(),
            final(self).spec_value() == old(self).spec_value(),
            final(self).spec_name() == old(self).spec_name(),
            final(self).spec_synched() == old(self).spec_synched(),
    {
        proof {
            use_type_invariant(&*self);
        }
        match child_index(&self.child_scopes, &name) {
            Some(k) => {
                assert(old(self).spec_children()[k as int].0.key() == name.key());
                Err(Error::UnexpectedDuplicate)
            },
            None => {
                let mut children = Vec::new();
                std::mem::swap(&mut children, &mut self.child_scopes);
                children.push((name, child));
                self.child_scopes = children;
                Ok(())
            },
        }
    }
}

impl<T: Clone> ScopeStore<T> {
    /// Looks up the scope at `path` below this one: its value and the values
    /// of the scopes passed through (this one first), each cloned; an
    /// `InvalidArgument` error when a name on the path has no child scope.
    pub fn try_get(&self, path: &PathName) -> (r: Result<ScopeResult<T>, Error>)
        ensures
            match walk(*self, path@) {
                Some((ps, v)) => r matches Ok(res) && cloned::<T>(v, res.spec_selection())
                    && res.spec_parents().len() == ps.len() && forall|j: int|
                    0 <= j < ps.len() ==> cloned::<T>(ps[j], #[trigger] res.spec_parents()[j]),
                None => r matches Err(e) && e is InvalidArgument,
            },
    {
        let ghost p = path@;
        let mut cur: &ScopeStore<T> = self;
        let mut parents: Vec<T> = Vec::new();
        let ghost mut orig: Seq<T> = Seq::empty();
        let mut i: usize = 0;
        let n = path.len();
        proof {
            assert(p.skip(0) =~= p);
            match walk(*self, p) {
                Some((ps, v)) => {
                    assert(Seq::<T>::empty() + ps =~= ps);
                },
                None => {},
            }
        }
        while i < n
            invariant
                n == p.len(),
                p == path@,
                i <= n,
                parents@.len() == orig.len(),
                forall|j: int| 0 <= j < orig.len() ==> cloned::<T>(orig[j], #[trigger] parents@[j]),
                walk(*self, p) == match walk(*cur, p.skip(i as int)) {
                    Some((ps, v)) => Some((orig + ps, v)),
                    None => None,
                },
            decreases n - i,
        {
            let name = path.get(i);
            let ghost rest = p.skip(i as int);
            assert(rest[0] == p[i as int]);
            assert(rest.drop_first() =~= p.skip(i + 1));
            assert(name.key() == seq![rest[0]]);
            let v = cur.value.clone();
            let ghost old_cur = *cur;
            let ghost old_orig = orig;
            proof {
                use_type_invariant(cur);
            }
            match child_index(&cur.child_scopes, name) {
                Some(k) => {
                    let child = &cur.child_scopes[k].1;
                    proof {
                        let j = choose|j: int|
                            0 <= j < old_cur.child_scopes@.len()
                                && #[trigger] old_cur.child_scopes@[j].0.key() == name.key();
                        if j != k {
                            assert(old_cur.child_scopes@[j].0.key()
                                != old_cur.child_scopes@[k as int].0.key());
                        }
                        assert(child_named(old_cur, p[i as int]) == Some(*child));
                    }
                    parents.push(v);
                    proof {
                        orig = orig.push(old_cur.value);
                        assert forall|j: int| 0 <= j < orig.len() implies cloned::<T>(
                            orig[j],
                            #[trigger] parents@[j],
                        ) by {
                            if j < old_orig.len() {
                                assert(orig[j] == old_orig[j]);
                            }
                        }
                        match walk(*child, p.skip(i + 1)) {
                            Some((ps, w)) => {
                                assert(old_orig + (seq![old_cur.value] + ps) =~= orig + ps);
                            },
                            None => {},
                        }
                    }
                    cur = child;
                },
                None => {
                    proof {
                        assert(child_named(old_cur, p[i as int]) is None);
                    }
                    return Err(
                        crate::error::invalid_argument("no scope exists for a name in the path"),
                    );
                },
            }
            i = i + 1;
        }
        proof {
            assert(p.skip(n as int) =~= Seq::<Seq<char>>::empty());
            assert(orig + Seq::<T>::empty() =~= orig);
        }
        let selection = cur.value.clone();
        Ok(ScopeResult { selection, synched_parents: parents })
    }
}

impl<T> ScopeResult<T> {
    pub closed spec fn spec_selection(self) -> T {
        self.selection
    }

    pub closed spec fn spec_parents(self) -> Seq<T> {
        self.synched_parents@
    }

    /// A result without parents.
    pub fn new(selection: T) -> (r: ScopeResult<T>)
        ensures
            r.spec_selection() == selection,
            r.spec_parents() == Seq::<T>::empty(),
    {
        ScopeResult { selection, synched_parents: Vec::new() }
    }

    pub fn set_synched_parents(&mut self, synched_parents: Vec<T>)
        ensures
            final(self).spec_selection() == old(self).spec_selection(),
            final(self).spec_parents() == synched_parents@,
    {
        self.synched_parents = synched_parents;
    }

    pub fn with_synched_parents(self, synched_parents: Vec<T>) -> (r: ScopeResult<T>)
        ensures
            r.spec_selection() == self.spec_selection(),
            r.spec_parents() == synched_parents@,
    {
        let mut s = self;
        s.set_synched_parents(synched_parents);
        s
    }

    /// The selected scope's value.
    pub fn selection(&self) -> (r: &T)
        ensures
            *r == self.spec_selection(),
    {
        &self.selection
    }

    /// The values of the scopes passed through, outermost first.
    pub fn synched_parents(&self) -> (r: &[T])
        ensures
            r@ == self.spec_parents(),
    {
        self.synched_parents.as_slice()
    }
}

} // verus!
