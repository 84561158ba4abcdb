//! The values assigned to the generic parameters of a streamlet instance.
use vstd::prelude::*;
use crate::error::{Error, ErrorKind};
use crate::generics::{GenericKind, GenericParameter, GenericParameterView, kind_accepts};
use crate::messages::concat;
use crate::name::Name;
use crate::ordered_map::{InsertionOrderedMap, MapKey, key_index, keys_distinct};
use crate::param_value::{GenericParamValue, Reduction, ValueView, strip_parens, value_reduction};

verus! {

/// A parameter of a streamlet instance: left at its default, or assigned a
/// value.
#[derive(Debug, PartialEq, Eq, Hash)]
pub enum GenericParameterAssignment {
    Default(GenericParameter),
    Assigned(GenericParameter, GenericParamValue),
}

/// The model of a `GenericParameterAssignment`.
pub enum AssignmentView {
    Default(GenericParameterView),
    Assigned(GenericParameterView, ValueView),
}

impl View for GenericParameterAssignment {
    type V = AssignmentView;

    open spec fn view(&self) -> AssignmentView {
        match self {
            GenericParameterAssignment::Default(p) => AssignmentView::Default(p@),
            GenericParameterAssignment::Assigned(p, v) => AssignmentView::Assigned(p@, v@),
        }
    }
}

/// A value simplified as `reduce` does, without parentheses around it.
pub open spec fn simplified(v: ValueView) -> ValueView {
    let r = value_reduction(v)->Value_0;
    match r {
        ValueView::Math(m) => strip_parens(m),
        _ => r,
    }
}

/// Assigning `v` to a parameter: a parameter at its default takes the
/// simplified value when its kind accepts it; otherwise, and for a
/// parameter already assigned, an invalid target.
pub open spec fn assign(a: AssignmentView, v: ValueView) -> Result<AssignmentView, ErrorKind> {
    match a {
        AssignmentView::Default(p) => if kind_accepts(p.kind, simplified(v)) {
            Ok(AssignmentView::Assigned(p, simplified(v)))
        } else {
            Err(ErrorKind::InvalidTarget)
        },
        AssignmentView::Assigned(_, _) => Err(ErrorKind::InvalidTarget),
    }
}

impl GenericParameterAssignment {
    /// Assigns `param_value` (see `assign`).
    pub fn try_assign(&self, param_value: GenericParamValue) -> (r: Result<
        GenericParameterAssignment,
        Error,
    >)
        requires
            !(value_reduction(param_value@) is Panics),
        ensures
            match assign(self@, param_value@) {
                Ok(x) => r matches Ok(y) && y@ == x,
                Err(k) => r matches Err(e) && e.kind() == k,
            },
    {
        match self {
            GenericParameterAssignment::Default(param) => {
                let v = param_value.reduce().remove_outer_parens();
                match param.valid_value(&v) {
                    Ok(true) => Ok(GenericParameterAssignment::Assigned(param.clone(), v)),
                    _ => {
                        let t = v.text();
                        let c = param.describe_condition();
                        Err(
                            Error::InvalidTarget(
                                concat(
                                    &[
                                        "Value ",
                                        t.as_str(),
                                        " is not a valid value for parameter ",
                                        param.name().as_str(),
                                        " with condition: ",
                                        c.as_str(),
                                    ],
                                ),
                            ),
                        )
                    },
                }
            },
            GenericParameterAssignment::Assigned(param, _) => Err(
                Error::InvalidTarget(
                    concat(&["Parameter ", param.name().as_str(), " was already assigned."]),
                ),
            ),
        }
    }

    /// The kind of the parameter.
    pub fn kind(&self) -> (r: &GenericKind)
        ensures
            r@ == match self@ {
                AssignmentView::Default(p) => p.kind,
                AssignmentView::Assigned(p, _) => p.kind,
            },
    {
        match self {
            GenericParameterAssignment::Default(p) => p.kind(),
            GenericParameterAssignment::Assigned(p, _) => p.kind(),
        }
    }

    /// The value of the parameter: the assigned one, else the default.
    pub fn value(&self) -> (r: &GenericParamValue)
        ensures
            r@ == match self@ {
                AssignmentView::Default(p) => p.default_value,
                AssignmentView::Assigned(_, v) => v,
            },
    {
        match self {
            GenericParameterAssignment::Default(p) => p.default_value(),
            GenericParameterAssignment::Assigned(_, v) => v,
        }
    }

    /// The value of the parameter, taken out.
    pub fn value_take(self) -> (r: GenericParamValue)
        ensures
            r@ == match self@ {
                AssignmentView::Default(p) => p.default_value,
                AssignmentView::Assigned(_, v) => v,
            },
    {
        match self {
            GenericParameterAssignment::Default(p) => p.default_value_take(),
            GenericParameterAssignment::Assigned(_, v) => v,
        }
    }
}

/// A parameter takes a value once: whatever was assigned, a second
/// assignment is refused as an invalid target.
pub proof fn lemma_assigned_once(a: AssignmentView, v: ValueView, w: ValueView)
    requires
        assign(a, v) is Ok,
    ensures
        assign(assign(a, v)->Ok_0, w) == Err::<AssignmentView, ErrorKind>(ErrorKind::InvalidTarget),
{
}

/// An assignment by position keeps the order and names of the parameters,
/// and assigns the first parameters the values in turn.
pub proof fn lemma_initial_assignments(
    base: Seq<(Seq<char>, GenericParameterView)>,
    ordered: Seq<ValueView>,
)
    requires
        ordered.len() <= base.len(),
    ensures
        initial_assignments(base, ordered).len() == base.len(),
        forall|k: int|
            0 <= k < base.len() ==> (#[trigger] initial_assignments(base, ordered)[k]).0 == base[k].0,
        forall|k: int|
            0 <= k < ordered.len() ==> #[trigger] initial_assignments(base, ordered)[k].1
                == AssignmentView::Assigned(base[k].1, ordered[k]),
{
}

/// The models of attempted assignments: an optional parameter name and a
/// value.
pub open spec fn attempt_views(a: Seq<(Option<Name>, GenericParamValue)>) -> Seq<
    (Option<Seq<char>>, ValueView),
> {
    a.map_values(
        |x: (Option<Name>, GenericParamValue)|
            (
                match x.0 {
                    Some(n) => Some(n@),
                    None => None,
                },
                x.1@,
            ),
    )
}

/// The models of parameters by name.
pub open spec fn parameter_entries(s: Seq<(Name, GenericParameter)>) -> Seq<
    (Seq<char>, GenericParameterView),
> {
    s.map_values(|x: (Name, GenericParameter)| (x.0@, x.1@))
}

/// The models of assignments by name.
pub open spec fn assignment_entries(s: Seq<(Name, GenericParameterAssignment)>) -> Seq<
    (Seq<char>, AssignmentView),
> {
    s.map_values(|x: (Name, GenericParameterAssignment)| (x.0@, x.1@))
}

/// Attempted assignments read in order: those by position, and those by
/// name.
pub struct Attempts {
    pub ordered: Seq<ValueView>,
    pub named: Seq<(Seq<char>, ValueView)>,
}

/// Splits attempted assignments into those by position and those by name;
/// one by position after one by name is an invalid argument.
pub open spec fn split_attempts(a: Seq<(Option<Seq<char>>, ValueView)>) -> Result<
    Attempts,
    ErrorKind,
>
    decreases a.len(),
{
    if a.len() == 0 {
        Ok(Attempts { ordered: Seq::empty(), named: Seq::empty() })
    } else {
        match split_attempts(a.drop_last()) {
            Err(k) => Err(k),
            Ok(st) => match a.last().0 {
                Some(n) => Ok(Attempts { named: st.named.push((n, a.last().1)), ..st }),
                None => if st.named.len() > 0 {
                    Err(ErrorKind::InvalidArgument)
                } else {
                    Ok(Attempts { ordered: st.ordered.push(a.last().1), ..st })
                },
            },
        }
    }
}

/// The parameters in order, the first taking the values by position as
/// they are, the others at their defaults.
pub open spec fn initial_assignments(
    base: Seq<(Seq<char>, GenericParameterView)>,
    ordered: Seq<ValueView>,
) -> Seq<(Seq<char>, AssignmentView)> {
    Seq::new(
        base.len(),
        |k: int|
            (
                base[k].0,
                if k < ordered.len() {
                    AssignmentView::Assigned(base[k].1, ordered[k])
                } else {
                    AssignmentView::Default(base[k].1)
                },
            ),
    )
}

/// The position of the parameter named `n`, if any.
pub open spec fn index_named(s: Seq<(Seq<char>, AssignmentView)>, n: Seq<char>) -> Option<int> {
    if exists|i: int| 0 <= i < s.len() && #[trigger] s[i].0 == n {
        Some(choose|i: int| 0 <= i < s.len() && #[trigger] s[i].0 == n)
    } else {
        None
    }
}

/// Applies the assignments by name in order (see `assign`); a name that is
/// no parameter is a `missing` error.
pub open spec fn apply_named(
    s: Seq<(Seq<char>, AssignmentView)>,
    named: Seq<(Seq<char>, ValueView)>,
    missing: ErrorKind,
) -> Result<Seq<(Seq<char>, AssignmentView)>, ErrorKind>
    decreases named.len(),
{
    if named.len() == 0 {
        Ok(s)
    } else {
        match apply_named(s, named.drop_last(), missing) {
            Err(k) => Err(k),
            Ok(t) => match index_named(t, named.last().0) {
                None => Err(missing),
                Some(i) => match assign(t[i].1, named.last().1) {
                    Err(k) => Err(k),
                    Ok(x) => Ok(t.update(i, (t[i].0, x))),
                },
            },
        }
    }
}

/// The assignment of the parameters `base` by the attempts `a`: by
/// position first (no more than there are parameters, else an invalid
/// argument), then by name.
pub open spec fn parameter_assignments(
    base: Seq<(Seq<char>, GenericParameterView)>,
    a: Seq<(Option<Seq<char>>, ValueView)>,
) -> Result<Seq<(Seq<char>, AssignmentView)>, ErrorKind> {
    match split_attempts(a) {
        Err(k) => Err(k),
        Ok(st) => if st.ordered.len() > base.len() {
            Err(ErrorKind::InvalidArgument)
        } else {
            apply_named(initial_assignments(base, st.ordered), st.named, ErrorKind::InvalidTarget)
        },
    }
}

/// Every value assigned by name can be simplified.
pub open spec fn named_values_reduce(a: Seq<(Option<Name>, GenericParamValue)>) -> bool {
    forall|i: int|
        0 <= i < a.len() && (#[trigger] a[i]).0 is Some ==> !(value_reduction(a[i].1@) is Panics)
}

pub(crate) proof fn lemma_apply_named_err(
    s: Seq<(Seq<char>, AssignmentView)>,
    named: Seq<(Seq<char>, ValueView)>,
    missing: ErrorKind,
    k: int,
)
    requires
        0 <= k <= named.len(),
        apply_named(s, named.take(k), missing) is Err,
    ensures
        apply_named(s, named, missing) == apply_named(s, named.take(k), missing),
    decreases named.len() - k,
{
    if k < named.len() {
        assert(named.take(k + 1).drop_last() =~= named.take(k));
        lemma_apply_named_err(s, named, missing, k + 1);
    } else {
        assert(named.take(k) =~= named);
    }
}

pub(crate) proof fn lemma_split_err(a: Seq<(Option<Seq<char>>, ValueView)>, k: int)
    requires
        0 <= k <= a.len(),
        split_attempts(a.take(k)) is Err,
    ensures
        split_attempts(a) == split_attempts(a.take(k)),
    decreases a.len() - k,
{
    if k < a.len() {
        assert(a.take(k + 1).drop_last() =~= a.take(k));
        lemma_split_err(a, k + 1);
    } else {
        assert(a.take(k) =~= a);
    }
}

/// The position of the parameter named `n` in `m`, as `index_named` finds it.
pub(crate) fn find_parameter(m: &InsertionOrderedMap<Name, GenericParameterAssignment>, n: &Name) -> (r: Option<
    usize,
>)
    ensures
        r matches Some(x) ==> index_named(assignment_entries(m.entries()), n@) == Some(x as int)
            && x < m.entries().len(),
        r is None ==> index_named(assignment_entries(m.entries()), n@) is None,
{
    m.lemma_distinct();
    let ghost e = m.entries();
    let ghost v = assignment_entries(e);
    let r = m.index_of(n);
    proof {
        match r {
            Some(i) => {
                assert(seq![e[i as int].0@][0] == seq![n@][0]);
                assert(v[i as int].0 == n@);
                let j = choose|j: int| 0 <= j < v.len() && #[trigger] v[j].0 == n@;
                if j != i {
                    assert(e[j].0.key() =~= e[i as int].0.key());
                }
            },
            None => {
                assert forall|j: int| 0 <= j < v.len() implies #[trigger] v[j].0 != n@ by {
                    if v[j].0 == n@ {
                        assert(e[j].0.key() =~= n.key());
                    }
                }
            },
        }
    }
    r
}

/// The attempted assignments split into the values by position and the
/// values by name (see `split_attempts`).
pub(crate) fn split_assignments(attempted: Vec<(Option<Name>, GenericParamValue)>) -> (r: Result<
    (Vec<GenericParamValue>, Vec<(Name, GenericParamValue)>),
    Error,
>)
    ensures
        match split_attempts(attempt_views(attempted@)) {
            Ok(st) => r matches Ok(x) && x.0@.map_values(|v: GenericParamValue| v@) == st.ordered
                && x.1@.map_values(|e: (Name, GenericParamValue)| (e.0@, e.1@)) == st.named,
            Err(k) => r matches Err(e) && e.kind() == k,
        },
        r matches Ok(x) ==> (named_values_reduce(attempted@) ==> forall|j: int|
            0 <= j < x.1@.len() ==> !(value_reduction(#[trigger] x.1@[j].1@) is Panics)),
        r matches Ok(x) ==> (values_reduce(attempted@) ==> (forall|j: int|
            0 <= j < x.1@.len() ==> !(value_reduction(#[trigger] x.1@[j].1@) is Panics)) && (
        forall|j: int| 0 <= j < x.0@.len() ==> !(value_reduction(#[trigger] x.0@[j]@) is Panics))),
{
    let ghost av = attempt_views(attempted@);
    let ghost all = attempted@;
    let n_attempts: usize = attempted.len();
    let mut rest = attempted;
    let mut ordered: Vec<GenericParamValue> = Vec::new();
    let mut named: Vec<(Name, GenericParamValue)> = Vec::new();
    let mut i: usize = 0;
    proof {
        assert(rest@ =~= all.skip(0));
        assert(av.take(0) =~= Seq::<(Option<Seq<char>>, ValueView)>::empty());
        assert(ordered@.map_values(|x: GenericParamValue| x@) =~= Seq::<ValueView>::empty());
        assert(named@.map_values(|x: (Name, GenericParamValue)| (x.0@, x.1@)) =~= Seq::<
            (Seq<char>, ValueView),
        >::empty());
    }
    while rest.len() > 0
        invariant
            i + rest@.len() == all.len(),
            all.len() == n_attempts,
            all == attempted@,
            rest@ == all.skip(i as int),
            av == attempt_views(all),
            named_values_reduce(all) ==> forall|j: int|
                0 <= j < named@.len() ==> !(value_reduction(#[trigger] named@[j].1@) is Panics),
            values_reduce(all) ==> forall|j: int|
                0 <= j < named@.len() ==> !(value_reduction(#[trigger] named@[j].1@) is Panics),
            values_reduce(all) ==> forall|j: int|
                0 <= j < ordered@.len() ==> !(value_reduction(#[trigger] ordered@[j]@) is Panics),
            split_attempts(av.take(i as int)) == Ok::<Attempts, ErrorKind>(
                Attempts {
                    ordered: ordered@.map_values(|x: GenericParamValue| x@),
                    named: named@.map_values(|x: (Name, GenericParamValue)| (x.0@, x.1@)),
                },
            ),
        decreases rest@.len(),
    {
        let ghost before_o = ordered@.map_values(|x: GenericParamValue| x@);
        let ghost before_n = named@.map_values(|x: (Name, GenericParamValue)| (x.0@, x.1@));
        let (name, value) = rest.remove(0);
        proof {
            assert(all.skip(i + 1) =~= all.skip(i as int).drop_first());
            assert(av.take(i + 1).drop_last() =~= av.take(i as int));
            assert(all[i as int] == (name, value));
        }
        match name {
            Some(n) => {
                let ghost nv = n@;
                let ghost vv = value@;
                proof {
                    assert(all[i as int].0 is Some);
                }
                named.push((n, value));
                proof {
                    assert(named@.map_values(|x: (Name, GenericParamValue)| (x.0@, x.1@))
                        =~= before_n.push((nv, vv)));
                }
            },
            None => {
                if named.len() > 0 {
                    proof {
                        assert(before_n.len() > 0);
                        lemma_split_err(av, i + 1);
                    }
                    return Err(
                        Error::InvalidArgument(
                            String::from_str(
                                "Ordered parameter assignment must precede named assignments",
                            ),
                        ),
                    );
                }
                let ghost vv = value@;
                ordered.push(value);
                proof {
                    assert(ordered@.map_values(|x: GenericParamValue| x@) =~= before_o.push(vv));
                }
            },
        }
        i = i + 1;
    }
    proof {
        assert(av.take(all.len() as int) =~= av);
    }
    Ok((ordered, named))
}

/// Every attempted value can be simplified.
pub open spec fn values_reduce(a: Seq<(Option<Name>, GenericParamValue)>) -> bool {
    forall|i: int| 0 <= i < a.len() ==> !(value_reduction((#[trigger] a[i]).1@) is Panics)
}

/// Each parameter of `base` at its default.
pub open spec fn default_parameters(base: Seq<(Seq<char>, GenericParameterView)>) -> Seq<
    (Seq<char>, AssignmentView),
> {
    base.map_values(|x: (Seq<char>, GenericParameterView)| (x.0, AssignmentView::Default(x.1)))
}

/// The assignment of the parameters `base`: by the attempts `a` when there
/// are any (see `parameter_assignments`), else each at its default.
pub open spec fn parameters_for(
    base: Seq<(Seq<char>, GenericParameterView)>,
    a: Seq<(Option<Seq<char>>, ValueView)>,
) -> Result<Seq<(Seq<char>, AssignmentView)>, ErrorKind> {
    if a.len() > 0 {
        parameter_assignments(base, a)
    } else {
        Ok(default_parameters(base))
    }
}

/// Each parameter of `base` at its default, in the order of `base`.
pub fn set_parameters_default(base: &InsertionOrderedMap<Name, GenericParameter>) -> (r:
    InsertionOrderedMap<Name, GenericParameterAssignment>)
    ensures
        assignment_entries(r.entries()) == default_parameters(parameter_entries(base.entries())),
{
    base.lemma_distinct();
    let ghost pb = parameter_entries(base.entries());
    let mut m: InsertionOrderedMap<Name, GenericParameterAssignment> = InsertionOrderedMap::new();
    let mut k: usize = 0;
    proof {
        assert(assignment_entries(m.entries()) =~= default_parameters(pb).take(0));
    }
    while k < base.len()
        invariant
            k <= base.entries().len(),
            pb == parameter_entries(base.entries()),
            keys_distinct(base.entries()),
            m.entries().len() == k,
            forall|j: int| 0 <= j < k ==> #[trigger] m.entries()[j].0 == base.entries()[j].0,
            assignment_entries(m.entries()) == default_parameters(pb).take(k as int),
        decreases base.entries().len() - k,
    {
        let a = GenericParameterAssignment::Default(base.value_at(k).clone());
        let key = base.key_at(k).clone();
        let ghost before = m.entries();
        let ghost entry = (key, a);
        proof {
            assert forall|j: int| 0 <= j < before.len() implies #[trigger] before[j].0.key()
                != key.key() by {
                assert(before[j].0 == base.entries()[j].0);
            }
        }
        let res = m.try_insert(key, a);
        assert(res is Ok);
        proof {
            assert(m.entries() == before.push(entry));
            assert(pb[k as int] == (base.entries()[k as int].0@, base.entries()[k as int].1@));
            let now = assignment_entries(m.entries());
            let want = default_parameters(pb).take(k + 1);
            assert forall|j: int| 0 <= j < k + 1 implies #[trigger] now[j] == want[j] by {
                if j < k {
                    assert(assignment_entries(before)[j] == default_parameters(pb).take(k as int)[j]);
                    assert(m.entries()[j] == before[j]);
                }
            }
            assert(now =~= want);
        }
        k = k + 1;
    }
    proof {
        assert(default_parameters(pb).take(base.entries().len() as int) =~= default_parameters(pb));
    }
    m
}

/// The assignment of the parameters `base` by the attempts `attempted` (see
/// `parameter_assignments`), the errors of `assign` included.
pub fn set_parameter_assignments(
    base: &InsertionOrderedMap<Name, GenericParameter>,
    attempted: Vec<(Option<Name>, GenericParamValue)>,
) -> (r: Result<InsertionOrderedMap<Name, GenericParameterAssignment>, Error>)
    requires
        named_values_reduce(attempted@),
    ensures
        match parameter_assignments(parameter_entries(base.entries()), attempt_views(attempted@)) {
            Ok(s) => r matches Ok(m) && assignment_entries(m.entries()) == s,
            Err(k) => r matches Err(e) && e.kind() == k,
        },
{
    let (ordered, named) = match split_assignments(attempted) {
        Ok(x) => x,
        Err(e) => {
            return Err(e);
        },
    };
    let ghost av = attempt_views(attempted@);
    let ghost st = Attempts {
        ordered: ordered@.map_values(|x: GenericParamValue| x@),
        named: named@.map_values(|x: (Name, GenericParamValue)| (x.0@, x.1@)),
    };
    let ghost pb = parameter_entries(base.entries());
    if ordered.len() > base.len() {
        return Err(
            Error::InvalidArgument(
                String::from_str("More parameter assignments than there are parameters."),
            ),
        );
    }
    base.lemma_distinct();
    let ghost init = initial_assignments(pb, st.ordered);
    let mut m: InsertionOrderedMap<Name, GenericParameterAssignment> = InsertionOrderedMap::new();
    let mut k: usize = 0;
    proof {
        assert(assignment_entries(m.entries()) =~= init.take(0));
    }
    while k < base.len()
        invariant
            k <= base.entries().len(),
            pb == parameter_entries(base.entries()),
            keys_distinct(base.entries()),
            st.ordered == ordered@.map_values(|x: GenericParamValue| x@),
            ordered@.len() <= base.entries().len(),
            init == initial_assignments(pb, st.ordered),
            m.entries().len() == k,
            forall|j: int| 0 <= j < k ==> #[trigger] m.entries()[j].0 == base.entries()[j].0,
            assignment_entries(m.entries()) == init.take(k as int),
        decreases base.entries().len() - k,
    {
        let p = base.value_at(k).clone();
        let a = if k < ordered.len() {
            GenericParameterAssignment::Assigned(p, ordered[k].clone())
        } else {
            GenericParameterAssignment::Default(p)
        };
        let key = base.key_at(k).clone();
        let ghost before = m.entries();
        let ghost entry = (key, a);
        proof {
            assert forall|j: int| 0 <= j < before.len() implies #[trigger] before[j].0.key()
                != key.key() by {
                assert(before[j].0 == base.entries()[j].0);
            }
        }
        let res = m.try_insert(key, a);
        assert(res is Ok);
        proof {
            assert(m.entries() == before.push(entry));
            assert(pb[k as int] == (base.entries()[k as int].0@, base.entries()[k as int].1@));
            let now = assignment_entries(m.entries());
            assert forall|j: int| 0 <= j < k + 1 implies #[trigger] now[j] == init.take(k + 1)[j] by {
                if j < k {
                    assert(assignment_entries(before)[j] == init.take(k as int)[j]);
                    assert(m.entries()[j] == before[j]);
                }
            }
            assert(now =~= init.take(k + 1));
        }
        k = k + 1;
    }
    proof {
        assert(init.take(base.entries().len() as int) =~= init);
    }
    proof {
        assert(parameter_assignments(pb, av) == apply_named(init, st.named, ErrorKind::InvalidTarget));
    }
    match assign_named(&mut m, named, None) {
        Ok(()) => {},
        Err(e) => {
            return Err(e);
        },
    }
    Ok(m)
}

/// The kind of error for an assignment by name to no parameter: an invalid
/// target for an instance, an invalid argument for a type declaration.
pub open spec fn missing_kind(declared_type: Option<&str>) -> ErrorKind {
    match declared_type {
        None => ErrorKind::InvalidTarget,
        Some(_) => ErrorKind::InvalidArgument,
    }
}

/// Applies the assignments by name `named` to `m` in order (see
/// `apply_named`); `declared_type` names the declared type they are for, if
/// any.
pub(crate) fn assign_named(
    m: &mut InsertionOrderedMap<Name, GenericParameterAssignment>,
    named: Vec<(Name, GenericParamValue)>,
    declared_type: Option<&str>,
) -> (r: Result<(), Error>)
    requires
        forall|q: int| 0 <= q < named@.len() ==> !(value_reduction(#[trigger] named@[q].1@) is Panics),
    ensures
        match apply_named(
            assignment_entries(old(m).entries()),
            named@.map_values(|x: (Name, GenericParamValue)| (x.0@, x.1@)),
            missing_kind(declared_type),
        ) {
            Ok(s) => r is Ok && assignment_entries(final(m).entries()) == s,
            Err(k) => r matches Err(e) && e.kind() == k,
        },
{
    let ghost init = assignment_entries(m.entries());
    let ghost mk = missing_kind(declared_type);
    let ghost nm = named@.map_values(|x: (Name, GenericParamValue)| (x.0@, x.1@));
    let n_named: usize = named.len();
    let mut rest_named = named;
    let mut j: usize = 0;
    proof {
        assert(rest_named@.map_values(|x: (Name, GenericParamValue)| (x.0@, x.1@)) =~= nm.skip(0));
        assert(nm.take(0) =~= Seq::<(Seq<char>, ValueView)>::empty());
    }
    while rest_named.len() > 0
        invariant
            j + rest_named@.len() == nm.len(),
            nm.len() == n_named,
            init == assignment_entries(old(m).entries()),
            mk == missing_kind(declared_type),
            nm == named@.map_values(|x: (Name, GenericParamValue)| (x.0@, x.1@)),
            rest_named@.map_values(|x: (Name, GenericParamValue)| (x.0@, x.1@)) == nm.skip(j as int),
            forall|q: int| 0 <= q < rest_named@.len() ==> !(value_reduction(#[trigger] rest_named@[q].1@) is Panics),
            apply_named(init, nm.take(j as int), mk) == Ok::<
                Seq<(Seq<char>, AssignmentView)>,
                ErrorKind,
            >(assignment_entries(m.entries())),
        decreases rest_named@.len(),
    {
        let ghost rv = rest_named@.map_values(|x: (Name, GenericParamValue)| (x.0@, x.1@));
        let ghost r0 = rest_named@;
        let (n, v) = rest_named.remove(0);
        proof {
            assert(r0[0] == (n, v));
            assert(rv[0] == nm.skip(j as int)[0]);
            assert(nm.skip(j as int)[0] == nm[j as int]);
            let after = rest_named@.map_values(|x: (Name, GenericParamValue)| (x.0@, x.1@));
            assert(rest_named@ =~= r0.drop_first());
            assert forall|q: int| 0 <= q < after.len() implies #[trigger] after[q] == nm.skip(j + 1)[q] by {
                assert(rest_named@[q] == r0[q + 1]);
                assert(after[q] == rv[q + 1]);
                assert(rv[q + 1] == nm.skip(j as int)[q + 1]);
            }
            assert(after =~= nm.skip(j + 1));
            assert(nm.take(j + 1).drop_last() =~= nm.take(j as int));
            assert(nm.take(j + 1).last() == nm[j as int]);
            assert(nm[j as int] == (n@, v@));
        }
        let ghost t = assignment_entries(m.entries());
        match find_parameter(m, &n) {
            None => {
                proof {
                    assert(index_named(t, n@) is None);
                    assert(apply_named(init, nm.take(j + 1), mk) == Err::<
                        Seq<(Seq<char>, AssignmentView)>,
                        ErrorKind,
                    >(mk));
                    lemma_apply_named_err(init, nm, mk, j + 1);
                }
                return match declared_type {
                    None => Err(
                        Error::InvalidTarget(concat(&["No parameter with identifier: ", n.as_str()])),
                    ),
                    Some(t) => Err(
                        Error::InvalidArgument(
                            concat(&["No parameter with name ", n.as_str(), " on type ", t]),
                        ),
                    ),
                };
            },
            Some(idx) => {
                let x = match m.value_at(idx).try_assign(v) {
                    Ok(x) => x,
                    Err(e) => {
                        proof {
                            assert(t[idx as int].1 == m.entries()[idx as int].1@);
                            assert(index_named(t, n@) == Some(idx as int));
                            assert(assign(t[idx as int].1, v@) is Err);
                            assert(apply_named(init, nm.take(j + 1), mk) is Err);
                            lemma_apply_named_err(init, nm, mk, j + 1);
                        }
                        return Err(e);
                    },
                };
                let ghost xv = x@;
                proof {
                    assert(t[idx as int].1 == m.entries()[idx as int].1@);
                    assert(index_named(t, n@) == Some(idx as int));
                    assert(assign(t[idx as int].1, v@) == Ok::<AssignmentView, ErrorKind>(xv));
                    assert(apply_named(init, nm.take(j + 1), mk) == Ok::<
                        Seq<(Seq<char>, AssignmentView)>,
                        ErrorKind,
                    >(t.update(idx as int, (t[idx as int].0, xv))));
                }
                m.replace_at(idx, x);
                proof {
                    assert(assignment_entries(m.entries()) =~= t.update(
                        idx as int,
                        (t[idx as int].0, xv),
                    ));
                }
            },
        }
        j = j + 1;
    }
    proof {
        assert(nm.take(nm.len() as int) =~= nm);
    }
    Ok(())
}

} // verus!
