//! Declarations of named types, with the generic parameters they declare
//! and the values assigned to them.
use vstd::prelude::*;
use crate::error::{Error, ErrorKind};
use crate::generics::{GenericKind, GenericParameter, GenericParameterView, KindView, kind_satisfies};
use crate::interface::parameters_of;
use crate::logical_type::{LogicalType, TypeView};
use crate::messages::concat;
use crate::name::{Name, PathName};
use crate::ordered_map::{InsertionOrderedMap, MapKey, keys_distinct};
use crate::param_value::{GenericParamValue, ValueView, value_reduction};
use crate::parameter_kinds::{kind_entries, type_kinds};
use crate::parameters::{
    AssignmentView, GenericParameterAssignment, apply_named, assign, assign_named,
    assignment_entries, attempt_views, default_parameters, find_parameter, index_named,
    missing_kind, parameter_entries, split_assignments, split_attempts, values_reduce,
};

verus! {

/// A named type and the generic parameters it declares (`None` when it
/// declares none), each at its default or assigned a value.
#[derive(Debug, PartialEq, Eq, Hash)]
pub struct TypeDeclaration {
    name: PathName,
    typ: LogicalType,
    parameter_assignments: Option<InsertionOrderedMap<Name, GenericParameterAssignment>>,
}

/// The model of a `TypeDeclaration`.
pub struct TypeDeclarationView {
    pub name: Seq<Seq<char>>,
    pub typ: TypeView,
    pub parameters: Option<Seq<(Seq<char>, AssignmentView)>>,
}

impl View for TypeDeclaration {
    type V = TypeDeclarationView;

    closed spec fn view(&self) -> TypeDeclarationView {
        TypeDeclarationView {
            name: self.name@,
            typ: self.typ@,
            parameters: match self.parameter_assignments {
                Some(m) => Some(assignment_entries(m.entries())),
                None => None,
            },
        }
    }
}

/// The kind of the parameter of an assignment.
pub open spec fn assignment_kind(a: AssignmentView) -> KindView {
    match a {
        AssignmentView::Default(p) => p.kind,
        AssignmentView::Assigned(p, _) => p.kind,
    }
}

/// Each parameter the type expects (`ex`, in order) is declared in `d` with
/// a kind that satisfies the expected one: the first that is not declared is
/// an interface error, the first whose kind does not satisfy an invalid
/// argument.
pub open spec fn check_expected(
    d: Seq<(Seq<char>, AssignmentView)>,
    ex: Seq<(Seq<char>, KindView)>,
) -> Result<(), ErrorKind>
    decreases ex.len(),
{
    if ex.len() == 0 {
        Ok(())
    } else {
        match check_expected(d, ex.drop_last()) {
            Err(k) => Err(k),
            Ok(()) => match index_named(d, ex.last().0) {
                Some(i) => if kind_satisfies(assignment_kind(d[i].1), ex.last().1) {
                    Ok(())
                } else {
                    Err(ErrorKind::InvalidArgument)
                },
                None => Err(ErrorKind::InterfaceError),
            },
        }
    }
}

/// The declared parameters `d` match those the type uses (`expected`):
/// parameters declared for a type that uses none, or none declared for a
/// type that uses some, are invalid arguments; else see `check_expected`.
pub open spec fn parameters_match(
    d: Option<Seq<(Seq<char>, AssignmentView)>>,
    expected: Result<Seq<(Seq<char>, KindView)>, ErrorKind>,
) -> Result<(), ErrorKind> {
    match expected {
        Err(k) => Err(k),
        Ok(ex) => match d {
            Some(d) => if ex.len() == 0 {
                Err(ErrorKind::InvalidArgument)
            } else {
                check_expected(d, ex)
            },
            None => if ex.len() > 0 {
                Err(ErrorKind::InvalidArgument)
            } else {
                Ok(())
            },
        },
    }
}

/// The declaration named `name` of the type `typ` with the parameters `ps`
/// at their defaults (a name declared twice is an unexpected duplicate),
/// when they match those the type uses (see `parameters_match`).
pub open spec fn declaration(
    name: Seq<Seq<char>>,
    typ: TypeView,
    ps: Seq<GenericParameterView>,
) -> Result<TypeDeclarationView, ErrorKind> {
    match parameters_of(ps) {
        Err(k) => Err(k),
        Ok(e) => {
            let d = default_parameters(e);
            let opt = if d.len() > 0 {
                Some(d)
            } else {
                None
            };
            match parameters_match(opt, type_kinds(typ)) {
                Err(k) => Err(k),
                Ok(_) => Ok(TypeDeclarationView { name, typ, parameters: opt }),
            }
        },
    }
}

/// The first parameters assigned the values `ordered` in turn (see
/// `assign`), the others as they are.
pub open spec fn apply_ordered(s: Seq<(Seq<char>, AssignmentView)>, ordered: Seq<ValueView>) -> Result<
    Seq<(Seq<char>, AssignmentView)>,
    ErrorKind,
>
    decreases s.len(),
{
    if s.len() == 0 {
        Ok(Seq::empty())
    } else {
        match apply_ordered(s.drop_last(), ordered) {
            Err(k) => Err(k),
            Ok(t) => if s.len() - 1 < ordered.len() {
                match assign(s.last().1, ordered[s.len() - 1]) {
                    Err(k) => Err(k),
                    Ok(x) => Ok(t.push((s.last().0, x))),
                }
            } else {
                Ok(t.push(s.last()))
            },
        }
    }
}

/// The declaration `v` with the attempts `a` applied: by position first (no
/// more than there are parameters), then by name, where a name that is no
/// parameter is an invalid argument; a declaration without parameters
/// takes no assignments.
pub open spec fn assigned_declaration(
    v: TypeDeclarationView,
    a: Seq<(Option<Seq<char>>, ValueView)>,
) -> Result<TypeDeclarationView, ErrorKind> {
    match v.parameters {
        None => Err(ErrorKind::InvalidArgument),
        Some(pa) => match split_attempts(a) {
            Err(k) => Err(k),
            Ok(st) => if st.ordered.len() > pa.len() {
                Err(ErrorKind::InvalidArgument)
            } else {
                match apply_ordered(pa, st.ordered) {
                    Err(k) => Err(k),
                    Ok(t) => match apply_named(t, st.named, ErrorKind::InvalidArgument) {
                        Err(k) => Err(k),
                        Ok(u) => Ok(TypeDeclarationView { parameters: Some(u), ..v }),
                    },
                }
            },
        },
    }
}

/// The parameters of `s` still at their defaults, in order.
pub open spec fn defaults_of(s: Seq<(Seq<char>, AssignmentView)>) -> Seq<(Seq<char>, GenericParameterView)>
    decreases s.len(),
{
    if s.len() == 0 {
        Seq::empty()
    } else {
        match s.last().1 {
            AssignmentView::Default(p) => defaults_of(s.drop_last()).push((s.last().0, p)),
            AssignmentView::Assigned(_, _) => defaults_of(s.drop_last()),
        }
    }
}

proof fn lemma_check_err(d: Seq<(Seq<char>, AssignmentView)>, ex: Seq<(Seq<char>, KindView)>, k: int)
    requires
        0 <= k <= ex.len(),
        check_expected(d, ex.take(k)) is Err,
    ensures
        check_expected(d, ex) == check_expected(d, ex.take(k)),
    decreases ex.len() - k,
{
    if k < ex.len() {
        assert(ex.take(k + 1).drop_last() =~= ex.take(k));
        lemma_check_err(d, ex, k + 1);
    } else {
        assert(ex.take(k) =~= ex);
    }
}

proof fn lemma_ordered_err(s: Seq<(Seq<char>, AssignmentView)>, ordered: Seq<ValueView>, k: int)
    requires
        0 <= k <= s.len(),
        apply_ordered(s.take(k), ordered) is Err,
    ensures
        apply_ordered(s, ordered) == apply_ordered(s.take(k), ordered),
    decreases s.len() - k,
{
    if k < s.len() {
        assert(s.take(k + 1).drop_last() =~= s.take(k));
        lemma_ordered_err(s, ordered, k + 1);
    } else {
        assert(s.take(k) =~= s);
    }
}

/// The message of an error; an unexpected duplicate, which carries none,
/// reads `Unexpected duplicate`.
pub open spec fn error_message(e: Error) -> Seq<char> {
    match e {
        Error::InvalidArgument(m) => m@,
        Error::InvalidTarget(m) => m@,
        Error::ProjectError(m) => m@,
        Error::BackEndError(m) => m@,
        Error::FileIOError(m) => m@,
        Error::InterfaceError(m) => m@,
        Error::UnexpectedDuplicate => "Unexpected duplicate"@,
    }
}

/// The text of an error's message (see `error_message`).
fn message_of(e: Error) -> (r: String)
    ensures
        r@ == error_message(e),
{
    match e {
        Error::InvalidArgument(m) => m,
        Error::InvalidTarget(m) => m,
        Error::ProjectError(m) => m,
        Error::BackEndError(m) => m,
        Error::FileIOError(m) => m,
        Error::InterfaceError(m) => m,
        Error::UnexpectedDuplicate => String::from_str("Unexpected duplicate"),
    }
}

impl TypeDeclaration {
    /// A declaration of `typ` named `name` with the parameters `parameters`
    /// at their defaults (see `declaration`).
    pub fn try_new(name: PathName, typ: LogicalType, parameters: Vec<GenericParameter>) -> (r: Result<
        TypeDeclaration,
        Error,
    >)
        ensures
            match declaration(
                name@,
                typ@,
                parameters@.map_values(|p: GenericParameter| p@),
            ) {
                Ok(v) => r matches Ok(t) && t@ == v,
                Err(k) => r matches Err(e) && e.kind() == k,
            },
    {
        let ghost pv = parameters@.map_values(|p: GenericParameter| p@);
        let ghost names = pv.map_values(|p: GenericParameterView| p.name);
        let ghost want = default_parameters(pv.map_values(|p: GenericParameterView| (p.name, p)));
        let n: usize = parameters.len();
        let mut rest = parameters;
        let mut m: InsertionOrderedMap<Name, GenericParameterAssignment> = InsertionOrderedMap::new();
        let mut i: usize = 0;
        proof {
            assert(assignment_entries(m.entries()) =~= want.take(0));
        }
        while i < n
            invariant
                i <= n,
                pv.len() == n,
                pv == parameters@.map_values(|p: GenericParameter| p@),
                rest@.len() == n - i,
                forall|j: int| 0 <= j < rest@.len() ==> (#[trigger] rest@[j])@ == pv[i + j],
                names == pv.map_values(|p: GenericParameterView| p.name),
                want == default_parameters(pv.map_values(|p: GenericParameterView| (p.name, p))),
                crate::structure::texts_distinct(names.take(i as int)),
                m.entries().len() == i,
                forall|j: int| 0 <= j < i ==> (#[trigger] m.entries()[j]).0@ == names[j],
                assignment_entries(m.entries()) == want.take(i as int),
            decreases n - i,
        {
            let ghost r0 = rest@;
            let p = rest.remove(0);
            let key = p.name().clone();
            let ghost before = m.entries();
            let ghost pview = p@;
            proof {
                assert(r0[0] == p);
                assert(pview == pv[i as int]);
                assert(key@ == names[i as int]);
                assert forall|j: int| 0 <= j < rest@.len() implies (#[trigger] rest@[j])@ == pv[i + 1
                    + j] by {
                    assert(rest@[j] == r0[j + 1]);
                }
            }
            match m.try_insert(key, GenericParameterAssignment::Default(p)) {
                Ok(()) => {},
                Err(e) => {
                    proof {
                        let j = choose|j: int|
                            0 <= j < before.len() && #[trigger] before[j].0.key() == key.key();
                        assert(before[j].0.key()[0] == key.key()[0]);
                        assert(names[j] == names[i as int]);
                        assert(!crate::structure::texts_distinct(names));
                    }
                    return Err(e);
                },
            }
            proof {
                assert forall|j: int| 0 <= j < before.len() implies #[trigger] names[j]
                    != names[i as int] by {
                    if names[j] == names[i as int] {
                        assert(before[j].0.key() =~= key.key());
                    }
                }
                let t = names.take(i + 1);
                assert forall|a: int, b: int| 0 <= a < b < t.len() implies #[trigger] t[a]
                    != #[trigger] t[b] by {
                    if b < i {
                        assert(names.take(i as int)[a] == t[a]);
                        assert(names.take(i as int)[b] == t[b]);
                    } else {
                        assert(t[a] == names[a]);
                    }
                }
                let now = assignment_entries(m.entries());
                assert forall|j: int| 0 <= j < i + 1 implies #[trigger] now[j] == want.take(
                    i + 1,
                )[j] by {
                    if j < i {
                        assert(m.entries()[j] == before[j]);
                        assert(assignment_entries(before)[j] == want.take(i as int)[j]);
                    }
                }
                assert(now =~= want.take(i + 1));
            }
            i = i + 1;
        }
        proof {
            assert(names.take(n as int) =~= names);
            assert(want.take(n as int) =~= want);
        }
        let result = if m.len() > 0 {
            TypeDeclaration { name, typ, parameter_assignments: Some(m) }
        } else {
            TypeDeclaration { name, typ, parameter_assignments: None }
        };
        match result.verify_parameters() {
            Ok(()) => Ok(result),
            Err(e) => Err(e),
        }
    }

    /// A declaration of `typ` named `name` without parameters.
    pub fn try_new_no_params(name: PathName, typ: LogicalType) -> (r: Result<TypeDeclaration, Error>)
        ensures
            match declaration(name@, typ@, Seq::empty()) {
                Ok(v) => r matches Ok(t) && t@ == v,
                Err(k) => r matches Err(e) && e.kind() == k,
            },
    {
        let none: Vec<GenericParameter> = Vec::new();
        proof {
            assert(none@.map_values(|p: GenericParameter| p@) =~= Seq::<GenericParameterView>::empty());
        }
        Self::try_new(name, typ, none)
    }

    /// `Ok` where the declared parameters match those the type uses (see
    /// `parameters_match`).
    fn verify_parameters(&self) -> (r: Result<(), Error>)
        ensures
            match parameters_match(self@.parameters, type_kinds(self@.typ)) {
                Ok(_) => r is Ok,
                Err(k) => r matches Err(e) && e.kind() == k,
            },
    {
        let expected = match self.typ.parameter_kinds() {
            Ok(x) => x,
            Err(e) => {
                return Err(e);
            },
        };
        let path = self.name.text();
        let ghost ex = kind_entries(expected.entries());
        match &self.parameter_assignments {
            Some(parameters) => {
                if expected.len() == 0 {
                    return Err(
                        Error::InvalidArgument(
                            concat(
                                &["Type ", path.as_str(), " declares parameters, but none are used."],
                            ),
                        ),
                    );
                }
                let ghost d = assignment_entries(parameters.entries());
                let mut i: usize = 0;
                proof {
                    assert(ex.take(0) =~= Seq::<(Seq<char>, KindView)>::empty());
                }
                while i < expected.len()
                    invariant
                        i <= expected.entries().len(),
                        ex == kind_entries(expected.entries()),
                        ex.len() > 0,
                        type_kinds(self@.typ) == Ok::<Seq<(Seq<char>, KindView)>, ErrorKind>(ex),
                        self@.parameters == Some(d),
                        d == assignment_entries(parameters.entries()),
                        check_expected(d, ex.take(i as int)) == Ok::<(), ErrorKind>(()),
                    decreases expected.entries().len() - i,
                {
                    let n = expected.key_at(i);
                    let k = expected.value_at(i);
                    proof {
                        assert(ex.take(i + 1).drop_last() =~= ex.take(i as int));
                        assert(ex.take(i + 1).last() == (n@, k@));
                    }
                    match find_parameter(parameters, n) {
                        Some(j) => {
                            let a = parameters.value_at(j);
                            proof {
                                assert(d[j as int].1 == a@);
                            }
                            match a.kind().satisfies(k) {
                                Ok(()) => {},
                                Err(e) => {
                                    proof {
                                        lemma_check_err(d, ex, i + 1);
                                    }
                                    let inner = message_of(e);
                                    return Err(
                                        Error::InvalidArgument(
                                            concat(
                                                &[
                                                    "Parameter ",
                                                    n.as_str(),
                                                    " does not satisfy the parameter expected the type defined by ",
                                                    path.as_str(),
                                                    ": ",
                                                    inner.as_str(),
                                                ],
                                            ),
                                        ),
                                    );
                                },
                            }
                        },
                        None => {
                            proof {
                                lemma_check_err(d, ex, i + 1);
                            }
                            return Err(
                                Error::InterfaceError(
                                    concat(
                                        &[
                                            "The type defined by ",
                                            path.as_str(),
                                            " expects a parameter with name ",
                                            n.as_str(),
                                            ", but none exists.",
                                        ],
                                    ),
                                ),
                            );
                        },
                    }
                    i = i + 1;
                }
                proof {
                    assert(ex.take(ex.len() as int) =~= ex);
                }
                Ok(())
            },
            None => {
                if expected.len() > 0 {
                    Err(
                        Error::InvalidArgument(
                            concat(
                                &[
                                    "Type defined by ",
                                    path.as_str(),
                                    " expects parameters, but none are declared.",
                                ],
                            ),
                        ),
                    )
                } else {
                    Ok(())
                }
            },
        }
    }

    /// This declaration with the values `attempted` assigned to its
    /// parameters (see `assigned_declaration`).
    pub fn with_assignments(self, attempted: Vec<(Option<Name>, GenericParamValue)>) -> (r: Result<
        TypeDeclaration,
        Error,
    >)
        requires
            values_reduce(attempted@),
        ensures
            match assigned_declaration(self@, attempt_views(attempted@)) {
                Ok(v) => r matches Ok(t) && t@ == v,
                Err(k) => r matches Err(e) && e.kind() == k,
            },
    {
        let ghost sv = self@;
        let TypeDeclaration { name, typ, parameter_assignments } = self;
        let declared_type = name.text();
        let pa = match parameter_assignments {
            Some(pa) => pa,
            None => {
                return Err(
                    Error::InvalidArgument(
                        concat(&["No parameters on type ", declared_type.as_str()]),
                    ),
                );
            },
        };
        let ghost pav = assignment_entries(pa.entries());
        let ghost av = attempt_views(attempted@);
        let (ordered, named) = match split_assignments(attempted) {
            Ok(x) => x,
            Err(e) => {
                return Err(e);
            },
        };
        let ghost ov = ordered@.map_values(|x: GenericParamValue| x@);
        if ordered.len() > pa.len() {
            return Err(
                Error::InvalidArgument(
                    String::from_str("More parameter assignments than there are parameters."),
                ),
            );
        }
        let ghost pe = pa.entries();
        let entries = pa.into_entries();
        let total: usize = entries.len();
        let mut rest = entries;
        let mut m: InsertionOrderedMap<Name, GenericParameterAssignment> = InsertionOrderedMap::new();
        let mut k: usize = 0;
        proof {
            assert(pav.take(0) =~= Seq::<(Seq<char>, AssignmentView)>::empty());
            assert(assignment_entries(m.entries()) =~= Seq::<(Seq<char>, AssignmentView)>::empty());
            assert(sv.parameters == Some(pav));
            assert forall|ek: ErrorKind|
                apply_ordered(pav, ov) == Err::<Seq<(Seq<char>, AssignmentView)>, ErrorKind>(
                    ek,
                ) implies #[trigger] assigned_declaration(sv, av) == Err::<
                TypeDeclarationView,
                ErrorKind,
            >(ek) by {}
        }
        while k < total
            invariant
                k <= total,
                total == pe.len(),
                pav == assignment_entries(pe),
                keys_distinct(pe),
                ov == ordered@.map_values(|x: GenericParamValue| x@),
                ordered@.len() <= total,
                forall|j: int| 0 <= j < ordered@.len() ==> !(value_reduction(#[trigger] ordered@[j]@) is Panics),
                rest@.len() == total - k,
                forall|j: int| 0 <= j < rest@.len() ==> #[trigger] rest@[j] == pe[k + j],
                m.entries().len() == k,
                forall|j: int| 0 <= j < k ==> #[trigger] m.entries()[j].0 == pe[j].0,
                sv == self@,
                av == attempt_views(attempted@),
                forall|ek: ErrorKind|
                    apply_ordered(pav, ov) == Err::<Seq<(Seq<char>, AssignmentView)>, ErrorKind>(
                        ek,
                    ) ==> #[trigger] assigned_declaration(sv, av) == Err::<
                        TypeDeclarationView,
                        ErrorKind,
                    >(ek),
                apply_ordered(pav.take(k as int), ov) == Ok::<
                    Seq<(Seq<char>, AssignmentView)>,
                    ErrorKind,
                >(assignment_entries(m.entries())),
            decreases total - k,
        {
            let ghost r0 = rest@;
            let (key, a) = rest.remove(0);
            let ghost acc = assignment_entries(m.entries());
            proof {
                assert(r0[0] == pe[k as int]);
                assert((key, a) == pe[k as int]);
                assert forall|j: int| 0 <= j < rest@.len() implies #[trigger] rest@[j] == pe[k + 1 + j] by {
                    assert(rest@[j] == r0[j + 1]);
                }
                assert(pav.take(k + 1).drop_last() =~= pav.take(k as int));
                assert(pav.take(k + 1).last() == (key@, a@));
                assert(pav.take(k + 1).len() - 1 == k);
            }
            let na = if k < ordered.len() {
                match a.try_assign(ordered[k].clone()) {
                    Ok(x) => x,
                    Err(e) => {
                        proof {
                            assert(ov[k as int] == ordered@[k as int]@);
                            assert(apply_ordered(pav.take(k + 1), ov) == Err::<
                                Seq<(Seq<char>, AssignmentView)>,
                                ErrorKind,
                            >(e.kind()));
                            lemma_ordered_err(pav, ov, k + 1);
                            assert(assigned_declaration(sv, av) == Err::<
                                TypeDeclarationView,
                                ErrorKind,
                            >(e.kind()));
                        }
                        return Err(e);
                    },
                }
            } else {
                a
            };
            proof {
                if k < ordered@.len() {
                    assert(ov[k as int] == ordered@[k as int]@);
                }
                assert(apply_ordered(pav.take(k + 1), ov) == Ok::<
                    Seq<(Seq<char>, AssignmentView)>,
                    ErrorKind,
                >(acc.push((key@, na@))));
            }
            let ghost before = m.entries();
            let ghost entry = (key, na);
            proof {
                assert forall|j: int| 0 <= j < before.len() implies #[trigger] before[j].0.key()
                    != key.key() by {
                    assert(before[j].0 == pe[j].0);
                }
            }
            let res = m.try_insert(key, na);
            proof {
                assert(res is Ok);
                assert(assignment_entries(m.entries()) =~= acc.push((entry.0@, entry.1@)));
            }
            k = k + 1;
        }
        proof {
            assert(pav.take(total as int) =~= pav);
        }
        match assign_named(&mut m, named, Some(declared_type.as_str())) {
            Ok(()) => {},
            Err(e) => {
                return Err(e);
            },
        }
        Ok(TypeDeclaration { name, typ, parameter_assignments: Some(m) })
    }

    /// The parameters still at their defaults (see `defaults_of`), in
    /// order.
    pub fn parameters(&self) -> (r: InsertionOrderedMap<Name, GenericParameter>)
        ensures
            parameter_entries(r.entries()) == match self@.parameters {
                Some(s) => defaults_of(s),
                None => Seq::empty(),
            },
    {
        let mut result: InsertionOrderedMap<Name, GenericParameter> = InsertionOrderedMap::new();
        proof {
            assert(parameter_entries(result.entries()) =~= Seq::<(Seq<char>, GenericParameterView)>::empty());
        }
        match &self.parameter_assignments {
            Some(m) => {
                m.lemma_distinct();
                let ghost pe = m.entries();
                let ghost pav = assignment_entries(pe);
                let mut i: usize = 0;
                proof {
                    assert(pav.take(0) =~= Seq::<(Seq<char>, AssignmentView)>::empty());
                }
                while i < m.len()
                    invariant
                        i <= pe.len(),
                        pe == m.entries(),
                        pav == assignment_entries(pe),
                        keys_distinct(pe),
                        parameter_entries(result.entries()) == defaults_of(pav.take(i as int)),
                        forall|a: int|
                            0 <= a < result.entries().len() ==> exists|j: int|
                                0 <= j < i && #[trigger] pe[j].0 == #[trigger] result.entries()[a].0,
                    decreases pe.len() - i,
                {
                    let ghost before = result.entries();
                    proof {
                        assert(pav.take(i + 1).drop_last() =~= pav.take(i as int));
                        assert(pav.take(i + 1).last() == pav[i as int]);
                    }
                    match m.value_at(i) {
                        GenericParameterAssignment::Default(p) => {
                            let key = m.key_at(i).clone();
                            let pc = p.clone();
                            proof {
                                assert forall|a: int| 0 <= a < before.len() implies #[trigger] before[a].0.key()
                                    != key.key() by {
                                    let j = choose|j: int|
                                        0 <= j < i && #[trigger] pe[j].0 == #[trigger] before[a].0;
                                    assert(pe[j].0.key() != pe[i as int].0.key());
                                }
                            }
                            let res = result.try_insert(key, pc);
                            proof {
                                assert(res is Ok);
                                assert(parameter_entries(result.entries()) =~= parameter_entries(
                                    before,
                                ).push((key@, pc@)));
                                assert forall|a: int|
                                    0 <= a < result.entries().len() implies exists|j: int|
                                        0 <= j < i + 1 && #[trigger] pe[j].0
                                            == #[trigger] result.entries()[a].0 by {
                                    if a < before.len() {
                                        assert(result.entries()[a] == before[a]);
                                        let j = choose|j: int|
                                            0 <= j < i && #[trigger] pe[j].0 == #[trigger] before[a].0;
                                        assert(pe[j].0 == result.entries()[a].0);
                                    } else {
                                        assert(pe[i as int].0 == result.entries()[a].0);
                                    }
                                }
                            }
                        },
                        GenericParameterAssignment::Assigned(_, _) => {},
                    }
                    i = i + 1;
                }
                proof {
                    assert(pav.take(pe.len() as int) =~= pav);
                }
            },
            None => {},
        }
        result
    }

    /// The declared parameters (`None` when there are none).
    pub fn parameter_assignments(&self) -> (r: &Option<
        InsertionOrderedMap<Name, GenericParameterAssignment>,
    >)
        ensures
            match r {
                Some(m) => self@.parameters == Some(assignment_entries(m.entries())),
                None => self@.parameters is None,
            },
    {
        &self.parameter_assignments
    }

    /// The name of the declaration.
    pub fn path_name(&self) -> (r: &PathName)
        ensures
            r@ == self@.name,
    {
        &self.name
    }

    /// This declaration under another name.
    pub fn with_name(self, name: PathName) -> (r: Result<TypeDeclaration, Error>)
        ensures
            r matches Ok(t) && t@ == (TypeDeclarationView { name: name@, ..self@ }),
    {
        Ok(TypeDeclaration { name, typ: self.typ, parameter_assignments: self.parameter_assignments })
    }
}

} // verus!
