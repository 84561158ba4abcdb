//! The generic parameters that a logical type uses, by name and kind.
use vstd::prelude::*;
use crate::error::{Error, ErrorKind};
use crate::generic_property::{GenericProperty, PropertyView};
use crate::generics::{ConditionView, GenericKind, InterfaceGenericKind, KindView};
use crate::logical_type::TypeView;
use crate::messages::concat;
use crate::name::Name;
use crate::ordered_map::{InsertionOrderedMap, MapKey};

verus! {

/// The models of parameter kinds by name.
pub open spec fn kind_entries(s: Seq<(Name, GenericKind)>) -> Seq<(Seq<char>, KindView)> {
    s.map_values(|e: (Name, GenericKind)| (e.0@, e.1@))
}

/// The kind recorded last under the name `n`, if any.
pub open spec fn kind_named(s: Seq<(Seq<char>, KindView)>, n: Seq<char>) -> Option<KindView>
    decreases s.len(),
{
    if s.len() == 0 {
        None
    } else if s.last().0 == n {
        Some(s.last().1)
    } else {
        kind_named(s.drop_last(), n)
    }
}

/// Records that the parameter `n` has the kind `k`: a name already recorded
/// with another kind is a project error.
pub open spec fn add_kind(
    acc: Result<Seq<(Seq<char>, KindView)>, ErrorKind>,
    n: Seq<char>,
    k: KindView,
) -> Result<Seq<(Seq<char>, KindView)>, ErrorKind> {
    match acc {
        Err(e) => Err(e),
        Ok(s) => match kind_named(s, n) {
            Some(x) => if x == k {
                Ok(s)
            } else {
                Err(ErrorKind::ProjectError)
            },
            None => Ok(s.push((n, k))),
        },
    }
}

/// Records the kinds `ks` in order (see `add_kind`).
pub open spec fn merge_kinds(
    acc: Result<Seq<(Seq<char>, KindView)>, ErrorKind>,
    ks: Seq<(Seq<char>, KindView)>,
) -> Result<Seq<(Seq<char>, KindView)>, ErrorKind>
    decreases ks.len(),
{
    if ks.len() == 0 {
        acc
    } else {
        add_kind(merge_kinds(acc, ks.drop_last()), ks.last().0, ks.last().1)
    }
}

/// The kind of a dimensionality parameter.
pub open spec fn dimensionality_kind() -> KindView {
    KindView::Dimensionality(ConditionView::NoCondition)
}

/// Records each parameter of the property `p`, from left to right, as a
/// dimensionality.
pub open spec fn dim_kinds(
    acc: Result<Seq<(Seq<char>, KindView)>, ErrorKind>,
    p: PropertyView,
) -> Result<Seq<(Seq<char>, KindView)>, ErrorKind>
    decreases p,
{
    match p {
        PropertyView::Combination(l, _, r) => dim_kinds(dim_kinds(acc, *l), *r),
        PropertyView::Fixed(_) => acc,
        PropertyView::Parameterized(n) => add_kind(acc, n, dimensionality_kind()),
    }
}

/// The parameters a logical type uses: none for null and bits; those of
/// the fields in order for groups and unions, a clash between fields being
/// a project error; for a stream, those of its data type and then the
/// parameters of its dimensionality.
pub open spec fn type_kinds(t: TypeView) -> Result<Seq<(Seq<char>, KindView)>, ErrorKind>
    decreases t,
{
    match t {
        TypeView::Null => Ok(Seq::empty()),
        TypeView::Bits(_) => Ok(Seq::empty()),
        TypeView::Group(fs) => field_kinds(fs),
        TypeView::Union(fs) => field_kinds(fs),
        TypeView::Stream(s) => dim_kinds(type_kinds(*s.data), s.dimensionality),
    }
}

/// The parameters the fields `fs` use, in order (see `type_kinds`).
pub open spec fn field_kinds(fs: Seq<(Seq<Seq<char>>, TypeView)>) -> Result<
    Seq<(Seq<char>, KindView)>,
    ErrorKind,
>
    decreases fs,
{
    if fs.len() == 0 {
        Ok(Seq::empty())
    } else {
        match field_kinds(fs.drop_last()) {
            Err(k) => Err(k),
            Ok(acc) => match type_kinds(fs.last().1) {
                Err(k) => Err(k),
                Ok(fk) => match merge_kinds(Ok(acc), fk) {
                    Err(_) => Err(ErrorKind::ProjectError),
                    Ok(x) => Ok(x),
                },
            },
        }
    }
}

/// No two parameters share a name.
pub open spec fn kinds_distinct(s: Seq<(Seq<char>, KindView)>) -> bool {
    forall|i: int, j: int| 0 <= i < j < s.len() ==> #[trigger] s[i].0 != #[trigger] s[j].0
}

proof fn lemma_kind_named_none(s: Seq<(Seq<char>, KindView)>, n: Seq<char>)
    requires
        kind_named(s, n) is None,
    ensures
        forall|i: int| 0 <= i < s.len() ==> #[trigger] s[i].0 != n,
    decreases s.len(),
{
    if s.len() > 0 {
        lemma_kind_named_none(s.drop_last(), n);
        assert forall|i: int| 0 <= i < s.len() implies #[trigger] s[i].0 != n by {
            if i < s.len() - 1 {
                assert(s[i] == s.drop_last()[i]);
            }
        }
    }
}

proof fn lemma_add_kind_distinct(acc: Result<Seq<(Seq<char>, KindView)>, ErrorKind>, n: Seq<char>, k: KindView)
    requires
        acc matches Ok(s) ==> kinds_distinct(s),
    ensures
        add_kind(acc, n, k) matches Ok(t) ==> kinds_distinct(t),
{
    if let Ok(s) = acc {
        if kind_named(s, n) is None {
            lemma_kind_named_none(s, n);
            let t = s.push((n, k));
            assert forall|i: int, j: int| 0 <= i < j < t.len() implies #[trigger] t[i].0 != #[trigger] t[j].0 by {
                if j == s.len() {
                    assert(t[i] == s[i]);
                } else {
                    assert(t[i] == s[i]);
                    assert(t[j] == s[j]);
                }
            }
        }
    }
}

proof fn lemma_merge_distinct(acc: Result<Seq<(Seq<char>, KindView)>, ErrorKind>, ks: Seq<(Seq<char>, KindView)>)
    requires
        acc matches Ok(s) ==> kinds_distinct(s),
    ensures
        merge_kinds(acc, ks) matches Ok(t) ==> kinds_distinct(t),
    decreases ks.len(),
{
    if ks.len() > 0 {
        lemma_merge_distinct(acc, ks.drop_last());
        lemma_add_kind_distinct(merge_kinds(acc, ks.drop_last()), ks.last().0, ks.last().1);
    }
}

proof fn lemma_dim_distinct(acc: Result<Seq<(Seq<char>, KindView)>, ErrorKind>, p: PropertyView)
    requires
        acc matches Ok(s) ==> kinds_distinct(s),
    ensures
        dim_kinds(acc, p) matches Ok(t) ==> kinds_distinct(t),
    decreases p,
{
    match p {
        PropertyView::Combination(l, _, r) => {
            lemma_dim_distinct(acc, *l);
            lemma_dim_distinct(dim_kinds(acc, *l), *r);
        },
        PropertyView::Fixed(_) => {},
        PropertyView::Parameterized(n) => {
            lemma_add_kind_distinct(acc, n, dimensionality_kind());
        },
    }
}

/// The parameters a type uses are listed under distinct names.
pub proof fn lemma_kinds_distinct(t: TypeView)
    ensures
        type_kinds(t) matches Ok(s) ==> kinds_distinct(s),
    decreases t,
{
    match t {
        TypeView::Group(fs) => lemma_field_kinds_distinct(fs),
        TypeView::Union(fs) => lemma_field_kinds_distinct(fs),
        TypeView::Stream(sv) => {
            lemma_kinds_distinct(*sv.data);
            lemma_dim_distinct(type_kinds(*sv.data), sv.dimensionality);
        },
        _ => {},
    }
}

proof fn lemma_field_kinds_distinct(fs: Seq<(Seq<Seq<char>>, TypeView)>)
    ensures
        field_kinds(fs) matches Ok(s) ==> kinds_distinct(s),
    decreases fs,
{
    if fs.len() > 0 {
        lemma_field_kinds_distinct(fs.drop_last());
        if let Ok(acc) = field_kinds(fs.drop_last()) {
            if let Ok(fk) = type_kinds(fs.last().1) {
                lemma_merge_distinct(Ok(acc), fk);
            }
        }
    }
}

/// Once the kinds of a prefix of the fields fail, those of all fail alike.
pub(crate) proof fn lemma_field_kinds_err(fs: Seq<(Seq<Seq<char>>, TypeView)>, k: int)
    requires
        0 <= k <= fs.len(),
        field_kinds(fs.take(k)) is Err,
    ensures
        field_kinds(fs) == field_kinds(fs.take(k)),
    decreases fs.len() - k,
{
    if k < fs.len() {
        assert(fs.take(k + 1).drop_last() =~= fs.take(k));
        lemma_field_kinds_err(fs, k + 1);
    } else {
        assert(fs.take(k) =~= fs);
    }
}

/// Records that the parameter `name` has the kind `kind` (see `add_kind`).
pub fn add_param_kind(
    result: &mut InsertionOrderedMap<Name, GenericKind>,
    name: Name,
    kind: GenericKind,
) -> (r: Result<(), Error>)
    ensures
        match add_kind(Ok(kind_entries(old(result).entries())), name@, kind@) {
            Ok(s) => r is Ok && kind_entries(final(result).entries()) == s,
            Err(k) => r matches Err(e) && e.kind() == k,
        },
{
    let ghost s = kind_entries(result.entries());
    let mut j: usize = result.len();
    proof {
        assert(s.take(j as int) =~= s);
    }
    while j > 0
        invariant
            j <= result.entries().len(),
            s == kind_entries(result.entries()),
            kind_named(s, name@) == kind_named(s.take(j as int), name@),
        decreases j,
    {
        let k = j - 1;
        proof {
            assert(s.take(j as int).drop_last() =~= s.take(k as int));
            assert(s.take(j as int).last() == s[k as int]);
        }
        if result.key_at(k).name_eq(&name) {
            let existing = result.value_at(k);
            if existing.same_as(&kind) {
                return Ok(());
            }
            let a = existing.text();
            let b = kind.text();
            return Err(
                Error::ProjectError(
                    concat(
                        &[
                            "Duplicate parameter name: \"",
                            name.as_str(),
                            "\" is both a ",
                            a.as_str(),
                            " and a ",
                            b.as_str(),
                        ],
                    ),
                ),
            );
        }
        j = k;
    }
    let ghost before = result.entries();
    let ghost entry = (name, kind);
    proof {
        assert(s.take(0) =~= Seq::<(Seq<char>, KindView)>::empty());
        assert forall|i: int| 0 <= i < before.len() implies #[trigger] before[i].0.key()
            != name.key() by {
            if before[i].0.key() == name.key() {
                assert(before[i].0.key()[0] == name.key()[0]);
                lemma_named_found(s, name@, i);
            }
        }
    }
    let r = result.try_insert(name, kind);
    proof {
        assert(r is Ok);
        assert(kind_entries(result.entries()) =~= s.push((entry.0@, entry.1@)));
    }
    r
}

proof fn lemma_named_found(s: Seq<(Seq<char>, KindView)>, n: Seq<char>, i: int)
    requires
        0 <= i < s.len(),
        s[i].0 == n,
    ensures
        kind_named(s, n) is Some,
    decreases s.len(),
{
    if s.last().0 != n {
        assert(s.drop_last()[i] == s[i]);
        lemma_named_found(s.drop_last(), n, i);
    }
}

/// Records the kinds of `kinds` in order (see `merge_kinds`).
pub fn merge_param_kinds(
    result: &mut InsertionOrderedMap<Name, GenericKind>,
    kinds: InsertionOrderedMap<Name, GenericKind>,
) -> (r: Result<(), Error>)
    ensures
        match merge_kinds(Ok(kind_entries(old(result).entries())), kind_entries(kinds.entries())) {
            Ok(s) => r is Ok && kind_entries(final(result).entries()) == s,
            Err(k) => r matches Err(e) && e.kind() == k,
        },
{
    let ghost start = kind_entries(result.entries());
    let ghost ks = kind_entries(kinds.entries());
    let entries = kinds.into_entries();
    let n: usize = entries.len();
    let mut rest = entries;
    let mut i: usize = 0;
    proof {
        assert(ks.take(0) =~= Seq::<(Seq<char>, KindView)>::empty());
    }
    while i < n
        invariant
            i <= n,
            rest@.len() == n - i,
            ks.len() == n,
            start == kind_entries(old(result).entries()),
            ks == kind_entries(kinds.entries()),
            forall|j: int| 0 <= j < rest@.len() ==> (#[trigger] rest@[j].0@, rest@[j].1@) == ks[i + j],
            merge_kinds(Ok(start), ks.take(i as int)) == Ok::<
                Seq<(Seq<char>, KindView)>,
                ErrorKind,
            >(kind_entries(result.entries())),
        decreases n - i,
    {
        let ghost r0 = rest@;
        let (name, kind) = rest.remove(0);
        proof {
            assert(ks.take(i + 1).drop_last() =~= ks.take(i as int));
            assert((r0[0].0@, r0[0].1@) == ks[i as int]);
            assert(ks.take(i + 1).last() == (name@, kind@));
            assert forall|j: int| 0 <= j < rest@.len() implies (#[trigger] rest@[j].0@, rest@[j].1@)
                == ks[i + 1 + j] by {
                assert(rest@[j] == r0[j + 1]);
            }
        }
        let ghost cur = kind_entries(result.entries());
        let ghost nk = (name@, kind@);
        proof {
            assert(merge_kinds(Ok(start), ks.take(i + 1)) == add_kind(Ok(cur), nk.0, nk.1));
        }
        match add_param_kind(result, name, kind) {
            Ok(()) => {},
            Err(e) => {
                proof {
                    lemma_merge_err(start, ks, i + 1);
                }
                return Err(e);
            },
        }
        i = i + 1;
    }
    proof {
        assert(ks.take(n as int) =~= ks);
    }
    Ok(())
}

proof fn lemma_merge_err(
    start: Seq<(Seq<char>, KindView)>,
    ks: Seq<(Seq<char>, KindView)>,
    k: int,
)
    requires
        0 <= k <= ks.len(),
        merge_kinds(Ok(start), ks.take(k)) is Err,
    ensures
        merge_kinds(Ok(start), ks) == merge_kinds(Ok(start), ks.take(k)),
    decreases ks.len() - k,
{
    if k < ks.len() {
        assert(ks.take(k + 1).drop_last() =~= ks.take(k));
        lemma_merge_err(start, ks, k + 1);
    } else {
        assert(ks.take(k) =~= ks);
    }
}

pub(crate) proof fn lemma_dim_err(k: ErrorKind, p: PropertyView)
    ensures
        dim_kinds(Err(k), p) == Err::<Seq<(Seq<char>, KindView)>, ErrorKind>(k),
    decreases p,
{
    match p {
        PropertyView::Combination(l, _, r) => {
            lemma_dim_err(k, *l);
            lemma_dim_err(k, *r);
        },
        _ => {},
    }
}

/// Records each parameter of `p`, from left to right, as a dimensionality
/// (see `dim_kinds`).
pub fn add_dimension_kinds(result: &mut InsertionOrderedMap<Name, GenericKind>, p: &GenericProperty) -> (r:
    Result<(), Error>)
    ensures
        match dim_kinds(Ok(kind_entries(old(result).entries())), p@) {
            Ok(s) => r is Ok && kind_entries(final(result).entries()) == s,
            Err(k) => r matches Err(e) && e.kind() == k,
        },
    decreases p,
{
    match p {
        GenericProperty::Combination(l, _, r) => {
            match add_dimension_kinds(result, l) {
                Ok(()) => {},
                Err(e) => {
                    proof {
                        lemma_dim_err(e.kind(), r@);
                    }
                    return Err(e);
                },
            }
            add_dimension_kinds(result, r)
        },
        GenericProperty::Fixed(_) => Ok(()),
        GenericProperty::Parameterized(n) => {
            let k = GenericKind::Interface(InterfaceGenericKind::dimensionality());
            add_param_kind(result, n.clone(), k)
        },
    }
}

} // verus!
