//! Logical stream types: null, bits, groups, unions and streams, with the
//! functions of the logical stream specification on them (null detection,
//! field conversion, stream splitting).
use vstd::prelude::*;
use crate::complexity::Complexity;
use crate::directions::{Direction, Synchronicity};
use crate::error::{Error, ErrorKind};
use crate::messages::concat;
use crate::parameter_kinds::{
    add_dimension_kinds, dim_kinds, field_kinds, kind_entries, lemma_dim_err, lemma_field_kinds_err,
    merge_param_kinds, type_kinds,
};
use crate::generic_property::{GenericProperty, PropertyView, pcomb};
use crate::generics::{GenericKind, KindView, MathOperator};
use crate::name::{Name, PathName};
use crate::numbers::{Positive, ceil_log2, lemma_ceil_log2_unique, log2_ceil};
use crate::ordered_map::{InsertionOrderedMap, MapKey};
use crate::type_reference::{
    TypeHierarchy,
    hier_entries_view,
    hier_fields_named,
    hier_named,
    hierarchy_fields,
    hierarchy_of,
    stream_hierarchy,
};

verus! {

/// The throughput of a stream: a positive rational number of elements per
/// element of the parent stream (or per clock cycle without a parent).
#[derive(Debug, Clone, Copy, PartialEq, Eq, Hash)]
pub struct Throughput {
    numerator: u64,
    denominator: u64,
}

impl Throughput {
    #[verifier::type_invariant]
    closed spec fn wf(self) -> bool {
        self.numerator > 0 && self.denominator > 0
    }

    pub closed spec fn spec_numerator(self) -> u64 {
        self.numerator
    }

    pub closed spec fn spec_denominator(self) -> u64 {
        self.denominator
    }

    /// The throughput `numerator / denominator`, or an `InvalidArgument`
    /// error when either is zero.
    pub fn try_new(numerator: u64, denominator: u64) -> (r: Result<Throughput, Error>)
        ensures
            r is Ok <==> numerator > 0 && denominator > 0,
            r matches Ok(t) ==> t.spec_numerator() == numerator && t.spec_denominator()
                == denominator,
            r matches Err(e) ==> e is InvalidArgument,
    {
        if numerator > 0 && denominator > 0 {
            Ok(Throughput { numerator, denominator })
        } else {
            Err(crate::error::invalid_argument("throughput must be positive"))
        }
    }

    /// A throughput of one element.
    pub fn default() -> (r: Throughput)
        ensures
            r.spec_numerator() == 1 && r.spec_denominator() == 1,
    {
        Throughput { numerator: 1, denominator: 1 }
    }

    pub fn numerator(&self) -> (r: u64)
        ensures
            r == self.spec_numerator(),
            r > 0,
    {
        proof {
            use_type_invariant(self);
        }
        self.numerator
    }

    pub fn denominator(&self) -> (r: u64)
        ensures
            r == self.spec_denominator(),
            r > 0,
    {
        proof {
            use_type_invariant(self);
        }
        self.denominator
    }

    /// The product of two throughputs, or an `InvalidArgument` error when
    /// its numerator or denominator does not fit in 64 bits.
    pub fn try_mul(&self, other: &Throughput) -> (r: Result<Throughput, Error>)
        ensures
            match (
                self.spec_numerator().checked_mul(other.spec_numerator()),
                self.spec_denominator().checked_mul(other.spec_denominator()),
            ) {
                (Some(n), Some(d)) => r matches Ok(t) && t.spec_numerator() == n
                    && t.spec_denominator() == d,
                _ => r matches Err(e) && e is InvalidArgument,
            },
    {
        let a = self.numerator();
        let b = other.numerator();
        let c = self.denominator();
        let d = other.denominator();
        match (a.checked_mul(b), c.checked_mul(d)) {
            (Some(n), Some(m)) => {
                assert(n > 0 && m > 0) by (nonlinear_arith)
                    requires
                        n == a * b,
                        m == c * d,
                        a > 0,
                        b > 0,
                        c > 0,
                        d > 0,
                ;
                Ok(Throughput { numerator: n, denominator: m })
            },
            _ => Err(crate::error::invalid_argument("throughput is out of range")),
        }
    }

    /// The number of element lanes this throughput asks for: its ceiling,
    /// at most `u32::MAX`.
    pub fn positive(&self) -> (r: Positive)
        ensures
            r.spec_value() == lanes_for(self.spec_numerator(), self.spec_denominator()),
    {
        let n = self.numerator();
        let d = self.denominator();
        let q = n / d;
        let rem = n % d;
        if rem != 0 {
            assert(q < u64::MAX) by (nonlinear_arith)
                requires
                    q == n / d,
                    rem == n % d,
                    rem != 0,
                    d > 0,
            ;
        }
        let c = if rem == 0 {
            q
        } else {
            q + 1
        };
        assert(c >= 1) by (nonlinear_arith)
            requires
                q == n / d,
                rem == n % d,
                n > 0,
                d > 0,
                rem == 0 ==> c == q,
                rem != 0 ==> c == q + 1,
        ;
        let v: u32 = if c > u32::MAX as u64 {
            u32::MAX
        } else {
            c as u32
        };
        Positive::new(v).unwrap()
    }
}

/// The ceiling of `n / d`, at most `u32::MAX`.
pub open spec fn lanes_for(n: u64, d: u64) -> u32 {
    let c: int = if n % d == 0 {
        (n / d) as int
    } else {
        n / d + 1
    };
    if c > u32::MAX {
        u32::MAX
    } else {
        c as u32
    }
}

/// A logical stream type.
#[derive(Debug, PartialEq, Eq, Hash)]
pub enum LogicalType {
    /// One-valued data: no signals.
    Null,
    /// `2^b`-valued data carried by `b` bits.
    Bits(Positive),
    /// A product of named fields.
    Group(Group),
    /// A sum of named fields.
    Union(Union),
    /// A new physical stream.
    Stream(Stream),
}

/// The named fields of a group.
#[derive(Debug, PartialEq, Eq, Hash)]
pub struct Group {
    pub(crate) fields: Vec<(PathName, LogicalType)>,
}

/// The named fields of a union.
#[derive(Debug, PartialEq, Eq, Hash)]
pub struct Union {
    pub(crate) fields: Vec<(PathName, LogicalType)>,
}

/// A stream type: its data, throughput, dimensionality, synchronicity,
/// complexity, direction, user data and whether it is kept when it carries
/// nothing.
#[derive(Debug, PartialEq, Eq, Hash)]
pub struct Stream {
    data: Box<LogicalType>,
    throughput: Throughput,
    dimensionality: GenericProperty,
    synchronicity: Synchronicity,
    complexity: Complexity,
    direction: Direction,
    user: Box<LogicalType>,
    keep: bool,
}

/// The model of a logical type: fields by path.
pub enum TypeView {
    Null,
    Bits(u32),
    Group(Seq<(Seq<Seq<char>>, TypeView)>),
    Union(Seq<(Seq<Seq<char>>, TypeView)>),
    Stream(StreamView),
}

/// The model of a stream type.
pub struct StreamView {
    pub data: Box<TypeView>,
    pub throughput: (u64, u64),
    pub dimensionality: PropertyView,
    pub synchronicity: Synchronicity,
    pub complexity: Seq<u32>,
    pub direction: Direction,
    pub user: Box<TypeView>,
    pub keep: bool,
}

pub closed spec fn type_view(t: LogicalType) -> TypeView
    decreases t,
{
    match t {
        LogicalType::Null => TypeView::Null,
        LogicalType::Bits(b) => TypeView::Bits(b.spec_value()),
        LogicalType::Group(g) => TypeView::Group(fields_view(g.fields@)),
        LogicalType::Union(u) => TypeView::Union(fields_view(u.fields@)),
        LogicalType::Stream(s) => TypeView::Stream(
            StreamView {
                data: Box::new(type_view(*s.data)),
                throughput: (s.throughput.spec_numerator(), s.throughput.spec_denominator()),
                dimensionality: s.dimensionality@,
                synchronicity: s.synchronicity,
                complexity: s.complexity@,
                direction: s.direction,
                user: Box::new(type_view(*s.user)),
                keep: s.keep,
            },
        ),
    }
}

pub closed spec fn fields_view(s: Seq<(PathName, LogicalType)>) -> Seq<(Seq<Seq<char>>, TypeView)>
    decreases s,
{
    if s.len() == 0 {
        Seq::empty()
    } else {
        fields_view(s.drop_last()).push((s.last().0@, type_view(s.last().1)))
    }
}

impl View for LogicalType {
    type V = TypeView;

    closed spec fn view(&self) -> TypeView {
        type_view(*self)
    }
}

impl View for Stream {
    type V = StreamView;

    closed spec fn view(&self) -> StreamView {
        StreamView {
            data: Box::new(type_view(*self.data)),
            throughput: (self.throughput.spec_numerator(), self.throughput.spec_denominator()),
            dimensionality: self.dimensionality@,
            synchronicity: self.synchronicity,
            complexity: self.complexity@,
            direction: self.direction,
            user: Box::new(type_view(*self.user)),
            keep: self.keep,
        }
    }
}

/// The paths of the fields are pairwise distinct.
pub open spec fn paths_distinct(s: Seq<(Seq<Seq<char>>, TypeView)>) -> bool {
    forall|i: int, j: int| 0 <= i < j < s.len() ==> #[trigger] s[i].0 != #[trigger] s[j].0
}

proof fn lemma_fields_view(s: Seq<(PathName, LogicalType)>)
    ensures
        fields_view(s).len() == s.len(),
        forall|i: int| 0 <= i < s.len() ==> #[trigger] fields_view(s)[i] == (s[i].0@, type_view(s[i].1)),
    decreases s.len(),
{
    if s.len() > 0 {
        lemma_fields_view(s.drop_last());
        assert forall|i: int| 0 <= i < s.len() implies #[trigger] fields_view(s)[i] == (
            s[i].0@,
            type_view(s[i].1),
        ) by {
            if i < s.len() - 1 {
                assert(s.drop_last()[i] == s[i]);
            }
        }
    }
}


/// The paths of a field list are pairwise distinct.
pub open spec fn field_paths_distinct(s: Seq<(PathName, LogicalType)>) -> bool {
    forall|i: int, j: int| 0 <= i < j < s.len() ==> #[trigger] s[i].0@ != #[trigger] s[j].0@
}

/// Every field path ends in a name, and those last names are pairwise
/// distinct.
pub open spec fn field_paths_named(s: Seq<(PathName, LogicalType)>) -> bool {
    &&& forall|i: int| 0 <= i < s.len() ==> #[trigger] s[i].0@.len() > 0
    &&& forall|i: int, j: int|
        0 <= i < j < s.len() ==> #[trigger] s[i].0@.last() != #[trigger] s[j].0@.last()
}

impl Group {
    #[verifier::type_invariant]
    pub(crate) open spec fn wf(self) -> bool {
        field_paths_distinct(self.fields@) && field_paths_named(self.fields@)
    }

    pub closed spec fn spec_fields(self) -> Seq<(Seq<Seq<char>>, TypeView)> {
        fields_view(self.fields@)
    }
}

impl Union {
    #[verifier::type_invariant]
    pub(crate) open spec fn wf(self) -> bool {
        field_paths_distinct(self.fields@) && field_paths_named(self.fields@)
            && self.fields@.len() <= u32::MAX
    }

    pub closed spec fn spec_fields(self) -> Seq<(Seq<Seq<char>>, TypeView)> {
        fields_view(self.fields@)
    }
}

impl Group {
    /// The model of the fields is that of the field list.
    pub(crate) proof fn lemma_spec_fields(self)
        ensures
            self.spec_fields() == fields_view(self.fields@),
    {
    }
}

impl Union {
    /// The model of the fields is that of the field list.
    pub(crate) proof fn lemma_spec_fields(self)
        ensures
            self.spec_fields() == fields_view(self.fields@),
    {
    }
}

proof fn lemma_distinct_view(s: Seq<(PathName, LogicalType)>)
    requires
        field_paths_distinct(s),
    ensures
        paths_distinct(fields_view(s)),
{
    lemma_fields_view(s);
    assert forall|i: int, j: int| 0 <= i < j < fields_view(s).len() implies #[trigger] fields_view(
        s,
    )[i].0 != #[trigger] fields_view(s)[j].0 by {
        assert(fields_view(s)[i].0 == s[i].0@);
        assert(fields_view(s)[j].0 == s[j].0@);
    }
}

impl Clone for LogicalType {
    fn clone(&self) -> (r: Self)
        ensures
            r@ == self@,
        decreases self,
    {
        match self {
            LogicalType::Null => LogicalType::Null,
            LogicalType::Bits(b) => LogicalType::Bits(*b),
            LogicalType::Group(g) => {
                proof {
                    use_type_invariant(g);
                }
                let mut out: Vec<(PathName, LogicalType)> = Vec::new();
                let mut i: usize = 0;
                while i < g.fields.len()
                    invariant
                        i <= g.fields@.len(),
                        *self is Group,
                        (*self)->Group_0 == *g,
                        field_paths_distinct(g.fields@),
                        field_paths_named(g.fields@),
                        out@.len() == i,
                        fields_view(out@) == fields_view(g.fields@.take(i as int)),
                        forall|j: int| 0 <= j < i ==> #[trigger] out@[j].0@ == g.fields@[j].0@,
                    decreases g.fields@.len() - i,
                {
                    proof {
                        assert(decreases_to!(*self => (*self)->Group_0));
                        assert(decreases_to!(*g => g.fields));
                        assert(decreases_to!(g.fields => g.fields@));
                        assert(decreases_to!(g.fields@ => g.fields@[i as int]));
                        assert(decreases_to!(g.fields@[i as int] => g.fields@[i as int].1));
                    }
                    let p = g.fields[i].0.clone();
                    let t = g.fields[i].1.clone();
                    let ghost before = out@;
                    out.push((p, t));
                    proof {
                        assert(out@.drop_last() =~= before);
                        assert(g.fields@.take(i + 1).drop_last() =~= g.fields@.take(i as int));
                    }
                    i = i + 1;
                }
                proof {
                    assert(g.fields@.take(g.fields@.len() as int) =~= g.fields@);
                }
                LogicalType::Group(Group { fields: out })
            },
            LogicalType::Union(g) => {
                proof {
                    use_type_invariant(g);
                }
                let mut out: Vec<(PathName, LogicalType)> = Vec::new();
                let mut i: usize = 0;
                while i < g.fields.len()
                    invariant
                        i <= g.fields@.len(),
                        *self is Union,
                        (*self)->Union_0 == *g,
                        field_paths_distinct(g.fields@),
                        field_paths_named(g.fields@),
                        out@.len() == i,
                        fields_view(out@) == fields_view(g.fields@.take(i as int)),
                        forall|j: int| 0 <= j < i ==> #[trigger] out@[j].0@ == g.fields@[j].0@,
                    decreases g.fields@.len() - i,
                {
                    proof {
                        assert(decreases_to!(*self => (*self)->Union_0));
                        assert(decreases_to!(*g => g.fields));
                        assert(decreases_to!(g.fields => g.fields@));
                        assert(decreases_to!(g.fields@ => g.fields@[i as int]));
                        assert(decreases_to!(g.fields@[i as int] => g.fields@[i as int].1));
                    }
                    let p = g.fields[i].0.clone();
                    let t = g.fields[i].1.clone();
                    let ghost before = out@;
                    out.push((p, t));
                    proof {
                        assert(out@.drop_last() =~= before);
                        assert(g.fields@.take(i + 1).drop_last() =~= g.fields@.take(i as int));
                    }
                    i = i + 1;
                }
                proof {
                    assert(g.fields@.take(g.fields@.len() as int) =~= g.fields@);
                }
                LogicalType::Union(Union { fields: out })
            },
            LogicalType::Stream(st) => {
                proof {
                    assert(decreases_to!(*self => (*self)->Stream_0));
                    assert(decreases_to!(*st => st.data));
                    assert(decreases_to!(*st => st.user));
                }
                let data = (*st.data).clone();
                let user = (*st.user).clone();
                LogicalType::Stream(
                    Stream {
                        data: Box::new(data),
                        throughput: st.throughput,
                        dimensionality: st.dimensionality.clone(),
                        synchronicity: st.synchronicity,
                        complexity: st.complexity.clone(),
                        direction: st.direction,
                        user: Box::new(user),
                        keep: st.keep,
                    },
                )
            },
        }
    }
}


/// A type consists of element-manipulating types only: no streams.
pub open spec fn element_only(t: TypeView) -> bool
    decreases t,
{
    match t {
        TypeView::Group(f) => all_element_only(f),
        TypeView::Union(f) => all_element_only(f),
        TypeView::Stream(_) => false,
        _ => true,
    }
}

pub open spec fn all_element_only(f: Seq<(Seq<Seq<char>>, TypeView)>) -> bool
    decreases f,
{
    if f.len() == 0 {
        true
    } else {
        all_element_only(f.drop_last()) && element_only(f[f.len() - 1].1)
    }
}

/// A type results in no signals: null, groups of null types, unions of at
/// most one null type, and streams whose data and user types are null and
/// that are not kept.
pub open spec fn null_type(t: TypeView) -> bool
    decreases t,
{
    match t {
        TypeView::Null => true,
        TypeView::Bits(_) => false,
        TypeView::Group(f) => all_null(f),
        TypeView::Union(f) => f.len() <= 1 && all_null(f),
        TypeView::Stream(s) => null_type(*s.data) && null_type(*s.user) && !s.keep,
    }
}

pub open spec fn all_null(f: Seq<(Seq<Seq<char>>, TypeView)>) -> bool
    decreases f,
{
    if f.len() == 0 {
        true
    } else {
        all_null(f.drop_last()) && null_type(f[f.len() - 1].1)
    }
}

/// The fields `s` with `p` in front of each path.
pub open spec fn prefixed(p: Seq<Seq<char>>, s: Seq<(Seq<Seq<char>>, u32)>) -> Seq<(Seq<Seq<char>>, u32)> {
    s.map_values(|e: (Seq<Seq<char>>, u32)| (p + e.0, e.1))
}

/// The width of the tag of a union with `n` fields, none for one field or
/// fewer.
pub open spec fn union_tag(n: nat) -> Option<u32> {
    if n > 1 {
        Some(ceil_log2(n) as u32)
    } else {
        None
    }
}

/// The field conversion function: the fields (paths and widths) that carry
/// a type's element data. Bits give one field with the empty path; a group
/// gives the fields of its members, each path led by the member's path; a
/// union gives a `tag` field (with more than one member) and a `union`
/// field as wide as the widest member, a member being as wide as all its
/// fields together; null and streams give none.
pub open spec fn type_fields(t: TypeView) -> Seq<(Seq<Seq<char>>, u32)>
    decreases t,
{
    match t {
        TypeView::Bits(b) => seq![(Seq::<Seq<char>>::empty(), b)],
        TypeView::Group(f) => group_fields(f),
        TypeView::Union(f) => (match union_tag(f.len()) {
            Some(w) => seq![(seq!["tag"@], w)],
            None => Seq::empty(),
        }) + if widest(f) > 0 {
            seq![(seq!["union"@], widest(f) as u32)]
        } else {
            Seq::empty()
        },
        _ => Seq::empty(),
    }
}

pub open spec fn group_fields(f: Seq<(Seq<Seq<char>>, TypeView)>) -> Seq<(Seq<Seq<char>>, u32)>
    decreases f,
{
    if f.len() == 0 {
        Seq::empty()
    } else {
        group_fields(f.drop_last()) + prefixed(f[f.len() - 1].0, type_fields(f[f.len() - 1].1))
    }
}

/// The total width of the fields `s`.
pub open spec fn total_width(s: Seq<(Seq<Seq<char>>, u32)>) -> nat
    decreases s.len(),
{
    if s.len() == 0 {
        0
    } else {
        total_width(s.drop_last()) + s.last().1 as nat
    }
}

/// The width of the widest member: the largest total width of the fields
/// of one member.
pub open spec fn widest(f: Seq<(Seq<Seq<char>>, TypeView)>) -> nat
    decreases f,
{
    if f.len() == 0 {
        0
    } else {
        let m = widest(f.drop_last());
        let w = total_width(type_fields(f[f.len() - 1].1));
        if w > m {
            w
        } else {
            m
        }
    }
}

proof fn lemma_total_prefix(s: Seq<(Seq<Seq<char>>, u32)>, i: int)
    requires
        0 <= i <= s.len(),
    ensures
        total_width(s.take(i)) <= total_width(s),
    decreases s.len() - i,
{
    if i < s.len() {
        lemma_total_prefix(s, i + 1);
        assert(s.take(i + 1).drop_last() =~= s.take(i));
    } else {
        assert(s.take(i) =~= s);
    }
}

proof fn lemma_widest_prefix(f: Seq<(Seq<Seq<char>>, TypeView)>, i: int)
    requires
        0 <= i < f.len(),
    ensures
        widest(f.take(i)) <= widest(f),
        total_width(type_fields(f[i].1)) <= widest(f),
    decreases f.len() - i,
{
    assert(f.take(i + 1).drop_last() =~= f.take(i));
    assert(f.take(i + 1)[i] == f[i]);
    if i + 1 < f.len() {
        lemma_widest_prefix(f, i + 1);
        assert(f.take(i + 1)[i] == f[i]);
    } else {
        assert(f.take(i + 1) =~= f);
    }
}

proof fn lemma_all_fields_ok(f: Seq<(Seq<Seq<char>>, TypeView)>, i: int)
    requires
        all_fields_ok(f),
        0 <= i < f.len(),
    ensures
        fields_ok(f[i].1),
    decreases f.len(),
{
    if i < f.len() - 1 {
        lemma_all_fields_ok(f.drop_last(), i);
    }
}

/// Every field conversion on the way gives distinct paths.
pub open spec fn fields_ok(t: TypeView) -> bool
    decreases t,
{
    match t {
        TypeView::Group(f) => all_fields_ok(f) && field_paths_unique(type_fields(t)),
        TypeView::Union(f) => all_fields_ok(f) && widest(f) <= u32::MAX,
        _ => true,
    }
}

pub open spec fn all_fields_ok(f: Seq<(Seq<Seq<char>>, TypeView)>) -> bool
    decreases f,
{
    if f.len() == 0 {
        true
    } else {
        all_fields_ok(f.drop_last()) && fields_ok(f[f.len() - 1].1)
    }
}

pub open spec fn field_paths_unique(s: Seq<(Seq<Seq<char>>, u32)>) -> bool {
    forall|i: int, j: int| 0 <= i < j < s.len() ==> #[trigger] s[i].0 != #[trigger] s[j].0
}

pub open spec fn field_list_view(v: Seq<(PathName, Positive)>) -> Seq<(Seq<Seq<char>>, u32)> {
    v.map_values(|e: (PathName, Positive)| (e.0@, e.1.spec_value()))
}

proof fn lemma_fields_view_step(s: Seq<(PathName, LogicalType)>, i: int)
    requires
        0 <= i < s.len(),
    ensures
        fields_view(s.take(i + 1)).drop_last() == fields_view(s.take(i)),
        fields_view(s.take(i + 1)).len() == i + 1,
        fields_view(s.take(i + 1))[i] == (s[i].0@, type_view(s[i].1)),
{
    assert(s.take(i + 1).drop_last() =~= s.take(i));
    lemma_fields_view(s.take(i + 1));
}

impl LogicalType {
    /// The bits type of `bit_count` bits, or an `InvalidArgument` error for 0.
    pub fn try_new_bits(bit_count: u32) -> (r: Result<LogicalType, Error>)
        ensures
            r is Ok <==> bit_count > 0,
            r matches Ok(t) ==> t@ == TypeView::Bits(bit_count),
            r matches Err(e) ==> e is InvalidArgument && e->InvalidArgument_0@
                == "bit count cannot be zero"@,
    {
        match Positive::new(bit_count) {
            Some(p) => Ok(LogicalType::Bits(p)),
            None => Err(crate::error::invalid_argument("bit count cannot be zero")),
        }
    }

    /// Whether this type holds element-manipulating types only (see
    /// `element_only`).
    pub fn is_element_only(&self) -> (r: bool)
        ensures
            r == element_only(self@),
        decreases self,
    {
        match self {
            LogicalType::Null => true,
            LogicalType::Bits(_) => true,
            LogicalType::Group(g) => {
                let mut all = true;
                let mut i: usize = 0;
                while i < g.fields.len()
                    invariant
                        i <= g.fields@.len(),
                        *self is Group,
                        (*self)->Group_0 == *g,
                        all == all_element_only(fields_view(g.fields@.take(i as int))),
                    decreases g.fields@.len() - i,
                {
                    proof {
                        assert(decreases_to!(*self => (*self)->Group_0));
                        assert(decreases_to!(*g => g.fields));
                        assert(decreases_to!(g.fields => g.fields@));
                        assert(decreases_to!(g.fields@ => g.fields@[i as int]));
                        assert(decreases_to!(g.fields@[i as int] => g.fields@[i as int].1));
                        lemma_fields_view_step(g.fields@, i as int);
                    }
                    let e = g.fields[i].1.is_element_only();
                    all = all && e;
                    i = i + 1;
                }
                proof {
                    assert(g.fields@.take(g.fields@.len() as int) =~= g.fields@);
                }
                all
            },
            LogicalType::Union(g) => {
                let mut all = true;
                let mut i: usize = 0;
                while i < g.fields.len()
                    invariant
                        i <= g.fields@.len(),
                        *self is Union,
                        (*self)->Union_0 == *g,
                        all == all_element_only(fields_view(g.fields@.take(i as int))),
                    decreases g.fields@.len() - i,
                {
                    proof {
                        assert(decreases_to!(*self => (*self)->Union_0));
                        assert(decreases_to!(*g => g.fields));
                        assert(decreases_to!(g.fields => g.fields@));
                        assert(decreases_to!(g.fields@ => g.fields@[i as int]));
                        assert(decreases_to!(g.fields@[i as int] => g.fields@[i as int].1));
                        lemma_fields_view_step(g.fields@, i as int);
                    }
                    let e = g.fields[i].1.is_element_only();
                    all = all && e;
                    i = i + 1;
                }
                proof {
                    assert(g.fields@.take(g.fields@.len() as int) =~= g.fields@);
                }
                all
            },
            LogicalType::Stream(_) => false,
        }
    }

    /// Whether this type results in no signals (see `null_type`).
    pub fn is_null(&self) -> (r: bool)
        ensures
            r == null_type(self@),
        decreases self,
    {
        match self {
            LogicalType::Null => true,
            LogicalType::Bits(_) => false,
            LogicalType::Group(g) => {
                let mut all = true;
                let mut i: usize = 0;
                while i < g.fields.len()
                    invariant
                        i <= g.fields@.len(),
                        *self is Group,
                        (*self)->Group_0 == *g,
                        all == all_null(fields_view(g.fields@.take(i as int))),
                    decreases g.fields@.len() - i,
                {
                    proof {
                        assert(decreases_to!(*self => (*self)->Group_0));
                        assert(decreases_to!(*g => g.fields));
                        assert(decreases_to!(g.fields => g.fields@));
                        assert(decreases_to!(g.fields@ => g.fields@[i as int]));
                        assert(decreases_to!(g.fields@[i as int] => g.fields@[i as int].1));
                        lemma_fields_view_step(g.fields@, i as int);
                    }
                    let e = g.fields[i].1.is_null();
                    all = all && e;
                    i = i + 1;
                }
                proof {
                    assert(g.fields@.take(g.fields@.len() as int) =~= g.fields@);
                }
                all
            },
            LogicalType::Union(g) => {
                proof {
                    lemma_fields_view(g.fields@);
                }
                if g.fields.len() > 1 {
                    return false;
                }
                let mut all = true;
                let mut i: usize = 0;
                while i < g.fields.len()
                    invariant
                        i <= g.fields@.len(),
                        g.fields@.len() <= 1,
                        *self is Union,
                        (*self)->Union_0 == *g,
                        all == all_null(fields_view(g.fields@.take(i as int))),
                    decreases g.fields@.len() - i,
                {
                    proof {
                        assert(decreases_to!(*self => (*self)->Union_0));
                        assert(decreases_to!(*g => g.fields));
                        assert(decreases_to!(g.fields => g.fields@));
                        assert(decreases_to!(g.fields@ => g.fields@[i as int]));
                        assert(decreases_to!(g.fields@[i as int] => g.fields@[i as int].1));
                        lemma_fields_view_step(g.fields@, i as int);
                    }
                    let e = g.fields[i].1.is_null();
                    all = all && e;
                    i = i + 1;
                }
                proof {
                    assert(g.fields@.take(g.fields@.len() as int) =~= g.fields@);
                }
                all
            },
            LogicalType::Stream(st) => {
                proof {
                    assert(decreases_to!(*self => (*self)->Stream_0));
                    assert(decreases_to!(*st => st.data));
                    assert(decreases_to!(*st => st.user));
                }
                (*st.data).is_null() && (*st.user).is_null() && !st.keep
            },
        }
    }
}


fn total_width_exec(v: &Vec<(PathName, Positive)>) -> (r: u32)
    requires
        total_width(field_list_view(v@)) <= u32::MAX,
    ensures
        r == total_width(field_list_view(v@)),
{
    let ghost fl = field_list_view(v@);
    let mut m: u32 = 0;
    let mut i: usize = 0;
    while i < v.len()
        invariant
            i <= v@.len(),
            fl == field_list_view(v@),
            total_width(fl) <= u32::MAX,
            m == total_width(fl.take(i as int)),
        decreases v@.len() - i,
    {
        proof {
            assert(fl.take(i + 1).drop_last() =~= fl.take(i as int));
            assert(fl.take(i + 1).last() == fl[i as int]);
            lemma_total_prefix(fl, i + 1);
        }
        let c = v[i].1.get();
        m = m + c;
        i = i + 1;
    }
    proof {
        assert(fl.take(v@.len() as int) =~= fl);
    }
    m
}

impl LogicalType {
    /// The fields (paths and widths) of this type, in order (see
    /// `type_fields`).
    pub fn field_list(&self) -> (r: Vec<(PathName, Positive)>)
        requires
            fields_ok(self@),
        ensures
            field_list_view(r@) == type_fields(self@),
        decreases self,
    {
        match self {
            LogicalType::Null => {
                let r: Vec<(PathName, Positive)> = Vec::new();
                assert(field_list_view(r@) =~= type_fields(self@));
                r
            },
            LogicalType::Stream(_) => {
                let r: Vec<(PathName, Positive)> = Vec::new();
                assert(field_list_view(r@) =~= type_fields(self@));
                r
            },
            LogicalType::Bits(b) => {
                let mut r: Vec<(PathName, Positive)> = Vec::new();
                r.push((PathName::new_empty(), *b));
                assert(field_list_view(r@) =~= type_fields(self@));
                r
            },
            LogicalType::Group(g) => {
                let mut out: Vec<(PathName, Positive)> = Vec::new();
                let mut i: usize = 0;
                proof {
                    assert(g.fields@.take(0) =~= Seq::<(PathName, LogicalType)>::empty());
                    assert(field_list_view(out@) =~= Seq::<(Seq<Seq<char>>, u32)>::empty());
                }
                while i < g.fields.len()
                    invariant
                        i <= g.fields@.len(),
                        *self is Group,
                        (*self)->Group_0 == *g,
                        fields_ok(self@),
                        field_list_view(out@) == group_fields(fields_view(g.fields@.take(i as int))),
                    decreases g.fields@.len() - i,
                {
                    proof {
                        lemma_fields_view(g.fields@);
                        lemma_all_fields_ok(fields_view(g.fields@), i as int);
                        assert(decreases_to!(*self => (*self)->Group_0));
                        assert(decreases_to!(*g => g.fields));
                        assert(decreases_to!(g.fields => g.fields@));
                        assert(decreases_to!(g.fields@ => g.fields@[i as int]));
                        assert(decreases_to!(g.fields@[i as int] => g.fields@[i as int].1));
                        lemma_fields_view_step(g.fields@, i as int);
                    }
                    let name = &g.fields[i].0;
                    let sub = g.fields[i].1.field_list();
                    let ghost base = field_list_view(out@);
                    let ghost subv = field_list_view(sub@);
                    let mut j: usize = 0;
                    while j < sub.len()
                        invariant
                            j <= sub@.len(),
                            subv == field_list_view(sub@),
                            field_list_view(out@) == base + prefixed(name@, subv.take(j as int)),
                        decreases sub@.len() - j,
                    {
                        let p = sub[j].0.with_parents(name);
                        let ghost before = out@;
                        out.push((p, sub[j].1));
                        proof {
                            assert(field_list_view(out@) =~= field_list_view(before).push(
                                (name@ + sub@[j as int].0@, sub@[j as int].1.spec_value()),
                            ));
                            assert(prefixed(name@, subv.take(j + 1)) =~= prefixed(
                                name@,
                                subv.take(j as int),
                            ).push((name@ + subv[j as int].0, subv[j as int].1)));
                        }
                        j = j + 1;
                    }
                    proof {
                        assert(subv.take(sub@.len() as int) =~= subv);
                        let fv = fields_view(g.fields@.take(i + 1));
                        assert(fv[fv.len() - 1] == (name@, type_view(g.fields@[i as int].1)));
                    }
                    i = i + 1;
                }
                proof {
                    assert(g.fields@.take(g.fields@.len() as int) =~= g.fields@);
                }
                out
            },
            LogicalType::Union(g) => {
                proof {
                    use_type_invariant(g);
                    lemma_fields_view(g.fields@);
                    reveal_strlit("tag");
                    reveal_strlit("union");
                }
                let mut out: Vec<(PathName, Positive)> = Vec::new();
                let n = g.fields.len();
                if n > 1 {
                    let count = Positive::new(n as u32).unwrap();
                    let k = log2_ceil(count);
                    proof {
                        lemma_ceil_log2_unique(n as nat, k as nat);
                    }
                    let tw = Positive::new(k).unwrap();
                    let parts: [&str; 1] = ["tag"];
                    let tag = PathName::try_new(&parts).unwrap();
                    assert(tag@ =~= seq!["tag"@]);
                    out.push((tag, tw));
                }
                let ghost tag_part = match union_tag(n as nat) {
                    Some(w) => seq![(seq!["tag"@], w)],
                    None => Seq::<(Seq<Seq<char>>, u32)>::empty(),
                };
                assert(field_list_view(out@) =~= tag_part);
                let ghost fv = fields_view(g.fields@);
                let mut m: u32 = 0;
                let mut i: usize = 0;
                while i < g.fields.len()
                    invariant
                        i <= g.fields@.len(),
                        *self is Union,
                        (*self)->Union_0 == *g,
                        fv == fields_view(g.fields@),
                        fields_ok(self@),
                        self@ == TypeView::Union(fv),
                        m == widest(fields_view(g.fields@.take(i as int))),
                    decreases g.fields@.len() - i,
                {
                    proof {
                        lemma_fields_view(g.fields@);
                        lemma_all_fields_ok(fv, i as int);
                        lemma_widest_prefix(fv, i as int);
                        assert(decreases_to!(*self => (*self)->Union_0));
                        assert(decreases_to!(*g => g.fields));
                        assert(decreases_to!(g.fields => g.fields@));
                        assert(decreases_to!(g.fields@ => g.fields@[i as int]));
                        assert(decreases_to!(g.fields@[i as int] => g.fields@[i as int].1));
                        lemma_fields_view_step(g.fields@, i as int);
                    }
                    let sub = g.fields[i].1.field_list();
                    proof {
                        assert(fv[i as int].1 == g.fields@[i as int].1@);
                        lemma_field_kinds_prefix(g.fields@, i + 1);
                        lemma_widest_prefix(fv, i as int);
                        if i + 1 < fv.len() {
                            lemma_widest_prefix(fv, i + 1);
                        } else {
                            assert(fv.take(i + 1) =~= fv);
                        }
                    }
                    let w = total_width_exec(&sub);
                    if w > m {
                        m = w;
                    }
                    i = i + 1;
                }
                proof {
                    assert(g.fields@.take(g.fields@.len() as int) =~= g.fields@);
                }
                assert(m == widest(fv));
                if m > 0 {
                    let parts: [&str; 1] = ["union"];
                    let u = PathName::try_new(&parts).unwrap();
                    assert(u@ =~= seq!["union"@]);
                    out.push((u, Positive::new(m).unwrap()));
                    assert(field_list_view(out@) =~= tag_part + seq![
                        (seq!["union"@], widest(fv) as u32),
                    ]);
                } else {
                    assert(field_list_view(out@) =~= tag_part + Seq::<(Seq<Seq<char>>, u32)>::empty());
                }
                assert(self@ == TypeView::Union(fv));
                assert(field_list_view(out@) =~= type_fields(self@));
                out
            },
        }
    }

    /// The fields of this type as a map from paths to widths (see
    /// `type_fields`).
    pub fn fields(&self) -> (r: crate::ordered_map::InsertionOrderedMap<PathName, Positive>)
        requires
            fields_ok(self@),
        ensures
            field_list_view(r.entries()) == type_fields(self@),
    {
        let list = self.field_list();
        proof {
            reveal_strlit("tag");
            reveal_strlit("union");
            assert(field_paths_unique(type_fields(self@))) by {
                match self@ {
                    TypeView::Union(f) => {
                        assert("tag"@ != "union"@) by {
                            assert("tag"@.len() != "union"@.len());
                        }
                        assert(seq!["tag"@] != seq!["union"@]) by {
                            assert(seq!["tag"@][0] != seq!["union"@][0]);
                        }
                    },
                    _ => {},
                }
            }
        }
        let ghost lv = field_list_view(list@);
        let mut m: crate::ordered_map::InsertionOrderedMap<PathName, Positive> =
            crate::ordered_map::InsertionOrderedMap::new();
        let mut i: usize = 0;
        while i < list.len()
            invariant
                i <= list@.len(),
                lv == field_list_view(list@),
                field_paths_unique(lv),
                field_list_view(m.entries()) == lv.take(i as int),
            decreases list@.len() - i,
        {
            let p = list[i].0.clone();
            let ghost before = m.entries();
            proof {
                assert(p.key() == lv[i as int].0);
                assert forall|j: int| 0 <= j < before.len() implies #[trigger] before[j].0.key()
                    != p.key() by {
                    assert(field_list_view(before).len() == i);
                    assert(field_list_view(before)[j] == lv.take(i as int)[j]);
                    assert(lv.take(i as int)[j] == lv[j]);
                    assert(lv[j].0 != lv[i as int].0);
                }
            }
            let ghost pv = p@;
            let c = list[i].1;
            let res = m.try_insert(p, c);
            assert(res is Ok);
            proof {
                assert(m.entries().len() == before.len() + 1);
                assert(m.entries().last().0@ == pv);
                assert(field_list_view(m.entries()) =~= field_list_view(before).push(
                    (pv, c.spec_value()),
                ));
                assert(lv[i as int] == (pv, c.spec_value()));
                assert(lv.take(i + 1) =~= lv.take(i as int).push(lv[i as int]));
            }
            i = i + 1;
        }
        proof {
            assert(lv.take(list@.len() as int) =~= lv);
        }
        m
    }
}


/// The fields named by `names` under `base`, with the given types.
pub open spec fn named_fields(base: Seq<Seq<char>>, fields: Seq<(&str, LogicalType)>) -> Seq<
    (Seq<Seq<char>>, TypeView),
> {
    Seq::new(fields.len(), |i: int| (base.push(fields[i].0@), type_view(fields[i].1)))
}

pub open spec fn all_names_valid(fields: Seq<(&str, LogicalType)>) -> bool {
    forall|i: int| 0 <= i < fields.len() ==> crate::name::valid_name(#[trigger] fields[i].0@)
}

pub open spec fn names_distinct(fields: Seq<(&str, LogicalType)>) -> bool {
    forall|i: int, j: int| 0 <= i < j < fields.len() ==> #[trigger] fields[i].0@ != #[trigger] fields[j].0@
}

/// The fields named by `fields` under `parent_id` (the empty path when
/// none): an `InvalidArgument` error for an invalid name, an
/// `UnexpectedDuplicate` error for a repeated one.
fn collect_named_fields(parent_id: Option<PathName>, fields: &Vec<(&str, LogicalType)>) -> (r: Result<
    Vec<(PathName, LogicalType)>,
    Error,
>)
    ensures
        ({
            let base = match parent_id {
                Some(p) => p@,
                None => Seq::<Seq<char>>::empty(),
            };
            if !all_names_valid(fields@) {
                r matches Err(e) && e is InvalidArgument
            } else if !names_distinct(fields@) {
                r matches Err(e) && e is UnexpectedDuplicate
            } else {
                r matches Ok(v) && fields_view(v@) == named_fields(base, fields@)
                    && field_paths_distinct(v@) && field_paths_named(v@)
            }
        }),
{
    let base = match parent_id {
        Some(p) => p,
        None => PathName::new_empty(),
    };
    let mut names: Vec<Name> = Vec::new();
    let mut i: usize = 0;
    while i < fields.len()
        invariant
            i <= fields@.len(),
            names@.len() == i,
            forall|j: int| 0 <= j < i ==> crate::name::valid_name(#[trigger] fields@[j].0@),
            forall|j: int| 0 <= j < i ==> #[trigger] names@[j]@ == fields@[j].0@,
        decreases fields@.len() - i,
    {
        match Name::try_new(fields[i].0) {
            Ok(n) => names.push(n),
            Err(e) => {
                return Err(e);
            },
        }
        i = i + 1;
    }
    let mut out: Vec<(PathName, LogicalType)> = Vec::new();
    let mut k: usize = 0;
    while k < fields.len()
        invariant
            k <= fields@.len(),
            names@.len() == fields@.len(),
            all_names_valid(fields@),
            forall|j: int| 0 <= j < fields@.len() ==> #[trigger] names@[j]@ == fields@[j].0@,
            forall|a: int, b: int| 0 <= a < b < k ==> #[trigger] fields@[a].0@ != #[trigger] fields@[b].0@,
            out@.len() == k,
            fields_view(out@) == named_fields(base@, fields@.take(k as int)),
            field_paths_distinct(out@),
            field_paths_named(out@),
            forall|j: int| 0 <= j < k ==> #[trigger] out@[j].0@ == base@.push(fields@[j].0@),
        decreases fields@.len() - k,
    {
        let path = base.with_child(names[k].clone());
        let mut dup = false;
        let mut j: usize = 0;
        while j < k
            invariant
                j <= k,
                k < fields@.len(),
                out@.len() == k,
                names@.len() == fields@.len(),
                forall|x: int| 0 <= x < fields@.len() ==> #[trigger] names@[x]@ == fields@[x].0@,
                !dup ==> forall|x: int| 0 <= x < j ==> #[trigger] fields@[x].0@ != fields@[k as int].0@,
                dup ==> exists|x: int| 0 <= x < k && #[trigger] fields@[x].0@ == fields@[k as int].0@,
            decreases k - j,
        {
            if names[j].name_eq(&names[k]) {
                dup = true;
            }
            j = j + 1;
        }
        if dup {
            return Err(Error::UnexpectedDuplicate);
        }
        let t = fields[k].1.clone();
        let ghost before = out@;
        out.push((path, t));
        proof {
            assert(out@.drop_last() =~= before);
            assert(fields@.take(k + 1).drop_last() =~= fields@.take(k as int));
            assert(named_fields(base@, fields@.take(k + 1)) =~= named_fields(
                base@,
                fields@.take(k as int),
            ).push((base@.push(fields@[k as int].0@), type_view(fields@[k as int].1))));
            assert forall|a: int, b: int| 0 <= a < b < out@.len() implies #[trigger] out@[a].0@
                != #[trigger] out@[b].0@ by {
                if b == k {
                    assert(out@[a].0@ == base@.push(fields@[a].0@));
                    assert(out@[a].0@.last() == fields@[a].0@);
                    assert(out@[b].0@.last() == fields@[k as int].0@);
                }
            }
            assert forall|a: int, b: int| 0 <= a < b < out@.len() implies #[trigger] out@[a].0@.last()
                != #[trigger] out@[b].0@.last() by {
                assert(out@[a].0@ == base@.push(fields@[a].0@));
                assert(out@[b].0@ == base@.push(fields@[b].0@));
            }
            assert(out@[k as int].0@ == base@.push(fields@[k as int].0@));
        }
        k = k + 1;
    }
    proof {
        assert(fields@.take(fields@.len() as int) =~= fields@);
    }
    Ok(out)
}

impl Group {
    /// A group of the fields named by `fields` under `parent_id` (see
    /// `named_fields`): an `InvalidArgument` error for an invalid name, an
    /// `UnexpectedDuplicate` error for a repeated one.
    pub fn try_new(parent_id: Option<PathName>, fields: &Vec<(&str, LogicalType)>) -> (r: Result<
        Group,
        Error,
    >)
        ensures
            ({
                let base = match parent_id {
                    Some(p) => p@,
                    None => Seq::<Seq<char>>::empty(),
                };
                if !all_names_valid(fields@) {
                    r matches Err(e) && e is InvalidArgument
                } else if !names_distinct(fields@) {
                    r matches Err(e) && e is UnexpectedDuplicate
                } else {
                    r matches Ok(g) && g.spec_fields() == named_fields(base, fields@)
                }
            }),
    {
        match collect_named_fields(parent_id, fields) {
            Ok(v) => Ok(Group { fields: v }),
            Err(e) => Err(e),
        }
    }

    /// The fields of the group: paths and types.
    pub fn field_ids(&self) -> (r: &Vec<(PathName, LogicalType)>)
        ensures
            fields_view(r@) == self.spec_fields(),
    {
        &self.fields
    }

    /// The type of the field at `name`, if there is one.
    pub fn get_field(&self, name: &PathName) -> (r: Option<LogicalType>)
        ensures
            match field_named(self.spec_fields(), name@) {
                Some(t) => r matches Some(x) && x@ == t,
                None => r is None,
            },
    {
        proof {
            use_type_invariant(self);
        }
        find_field(&self.fields, name)
    }
}

impl Union {
    /// A union of the fields named by `fields` under `parent_id` (see
    /// `named_fields`): an `InvalidArgument` error for an invalid name or
    /// for more than `u32::MAX` fields, an `UnexpectedDuplicate` error for a
    /// repeated name.
    pub fn try_new(parent_id: Option<PathName>, fields: &Vec<(&str, LogicalType)>) -> (r: Result<
        Union,
        Error,
    >)
        ensures
            ({
                let base = match parent_id {
                    Some(p) => p@,
                    None => Seq::<Seq<char>>::empty(),
                };
                if !all_names_valid(fields@) {
                    r matches Err(e) && e is InvalidArgument
                } else if !names_distinct(fields@) {
                    r matches Err(e) && e is UnexpectedDuplicate
                } else if fields@.len() > u32::MAX {
                    r matches Err(e) && e is InvalidArgument
                } else {
                    r matches Ok(u) && u.spec_fields() == named_fields(base, fields@)
                }
            }),
    {
        match collect_named_fields(parent_id, fields) {
            Ok(v) => {
                proof {
                    lemma_fields_view(v@);
                }
                if v.len() > u32::MAX as usize {
                    Err(crate::error::invalid_argument("a union holds at most u32::MAX fields"))
                } else {
                    Ok(Union { fields: v })
                }
            },
            Err(e) => Err(e),
        }
    }

    /// The fields of the union: paths and types.
    pub fn field_ids(&self) -> (r: &Vec<(PathName, LogicalType)>)
        ensures
            fields_view(r@) == self.spec_fields(),
    {
        &self.fields
    }

    /// The type of the field at `name`, if there is one.
    pub fn get_field(&self, name: &PathName) -> (r: Option<LogicalType>)
        ensures
            match field_named(self.spec_fields(), name@) {
                Some(t) => r matches Some(x) && x@ == t,
                None => r is None,
            },
    {
        proof {
            use_type_invariant(self);
        }
        find_field(&self.fields, name)
    }

    /// The width of the tag: `ceil(log2(n))` for `n > 1` fields, else none.
    pub fn tag(&self) -> (r: Option<Positive>)
        ensures
            match union_tag(self.spec_fields().len()) {
                Some(w) => r matches Some(p) && p.spec_value() == w,
                None => r is None,
            },
    {
        proof {
            use_type_invariant(self);
            lemma_fields_view(self.fields@);
        }
        let n = self.fields.len();
        if n > 1 {
            let count = Positive::new(n as u32).unwrap();
            let k = log2_ceil(count);
            proof {
                lemma_ceil_log2_unique(n as nat, k as nat);
            }
            Positive::new(k)
        } else {
            None
        }
    }
}

/// The type of the field at `path`, if any.
pub open spec fn field_named(f: Seq<(Seq<Seq<char>>, TypeView)>, path: Seq<Seq<char>>) -> Option<TypeView> {
    if exists|i: int| 0 <= i < f.len() && #[trigger] f[i].0 == path {
        Some(f[choose|i: int| 0 <= i < f.len() && #[trigger] f[i].0 == path].1)
    } else {
        None
    }
}

fn find_field(fields: &Vec<(PathName, LogicalType)>, name: &PathName) -> (r: Option<LogicalType>)
    requires
        field_paths_distinct(fields@),
    ensures
        match field_named(fields_view(fields@), name@) {
            Some(t) => r matches Some(x) && x@ == t,
            None => r is None,
        },
{
    proof {
        lemma_fields_view(fields@);
    }
    let ghost fv = fields_view(fields@);
    let mut i: usize = 0;
    while i < fields.len()
        invariant
            i <= fields@.len(),
            field_paths_distinct(fields@),
            fv == fields_view(fields@),
            fv.len() == fields@.len(),
            forall|j: int| 0 <= j < fields@.len() ==> #[trigger] fv[j] == (fields@[j].0@, type_view(fields@[j].1)),
            forall|j: int| 0 <= j < i ==> #[trigger] fields@[j].0@ != name@,
        decreases fields@.len() - i,
    {
        if fields[i].0.path_eq(name) {
            proof {
                assert(fv[i as int].0 == name@);
                let c = choose|j: int| 0 <= j < fv.len() && #[trigger] fv[j].0 == name@;
                if c != i {
                    assert(fields@[c].0@ == fields@[i as int].0@);
                    if c < i {
                        assert(fields@[c].0@ != fields@[i as int].0@);
                    } else {
                        assert(fields@[i as int].0@ != fields@[c].0@);
                    }
                }
            }
            return Some(fields[i].1.clone());
        }
        i = i + 1;
    }
    proof {
        assert forall|j: int| 0 <= j < fv.len() implies #[trigger] fv[j].0 != name@ by {
            assert(fv[j].0 == fields@[j].0@);
        }
    }
    None
}

impl LogicalType {
    /// A group type (see `Group::try_new`).
    pub fn try_new_group(parent_id: Option<PathName>, group: &Vec<(&str, LogicalType)>) -> (r: Result<
        LogicalType,
        Error,
    >)
        ensures
            ({
                let base = match parent_id {
                    Some(p) => p@,
                    None => Seq::<Seq<char>>::empty(),
                };
                if !all_names_valid(group@) {
                    r matches Err(e) && e is InvalidArgument
                } else if !names_distinct(group@) {
                    r matches Err(e) && e is UnexpectedDuplicate
                } else {
                    r matches Ok(t) && t@ == TypeView::Group(named_fields(base, group@))
                }
            }),
    {
        match Group::try_new(parent_id, group) {
            Ok(g) => Ok(LogicalType::Group(g)),
            Err(e) => Err(e),
        }
    }

    /// A union type (see `Union::try_new`).
    pub fn try_new_union(parent_id: Option<PathName>, union: &Vec<(&str, LogicalType)>) -> (r: Result<
        LogicalType,
        Error,
    >)
        ensures
            ({
                let base = match parent_id {
                    Some(p) => p@,
                    None => Seq::<Seq<char>>::empty(),
                };
                if !all_names_valid(union@) {
                    r matches Err(e) && e is InvalidArgument
                } else if !names_distinct(union@) {
                    r matches Err(e) && e is UnexpectedDuplicate
                } else if union@.len() > u32::MAX {
                    r matches Err(e) && e is InvalidArgument
                } else {
                    r matches Ok(t) && t@ == TypeView::Union(named_fields(base, union@))
                }
            }),
    {
        match Union::try_new(parent_id, union) {
            Ok(u) => Ok(LogicalType::Union(u)),
            Err(e) => Err(e),
        }
    }
}


impl Stream {
    /// A stream type: an `InvalidArgument` error when the user type holds a
    /// stream (it must be element-manipulating only).
    pub fn try_new(
        data: LogicalType,
        throughput: Throughput,
        dimensionality: GenericProperty,
        synchronicity: Synchronicity,
        complexity: Complexity,
        direction: Direction,
        user: LogicalType,
        keep: bool,
    ) -> (r: Result<Stream, Error>)
        ensures
            element_only(user@) ==> (r matches Ok(s) && s@ == StreamView {
                data: Box::new(data@),
                throughput: (throughput.spec_numerator(), throughput.spec_denominator()),
                dimensionality: dimensionality@,
                synchronicity,
                complexity: complexity@,
                direction,
                user: Box::new(user@),
                keep,
            }),
            !element_only(user@) ==> (r matches Err(e) && e is InvalidArgument),
    {
        if user.is_element_only() {
            Ok(
                Stream {
                    data: Box::new(data),
                    throughput,
                    dimensionality,
                    synchronicity,
                    complexity,
                    direction,
                    user: Box::new(user),
                    keep,
                },
            )
        } else {
            let t = user.text();
            Err(
                Error::InvalidArgument(
                    crate::messages::concat(
                        &[
                            "User field must only contain element-manipulating types, and cannot contain Stream types. Is: ",
                            t.as_str(),
                        ],
                    ),
                ),
            )
        }
    }

    pub fn data(&self) -> (r: &LogicalType)
        ensures
            r@ == *self@.data,
    {
        &self.data
    }

    pub fn user(&self) -> (r: &LogicalType)
        ensures
            r@ == *self@.user,
    {
        &self.user
    }

    pub fn direction(&self) -> (r: Direction)
        ensures
            r == self@.direction,
    {
        self.direction
    }

    pub fn synchronicity(&self) -> (r: Synchronicity)
        ensures
            r == self@.synchronicity,
    {
        self.synchronicity
    }

    /// Whether the parent's dimensionality is left out of this stream
    /// (`Flatten` or `FlatDesync`).
    pub fn flattens(&self) -> (r: bool)
        ensures
            r == flattens(self@.synchronicity),
    {
        self.synchronicity == Synchronicity::Flatten || self.synchronicity
            == Synchronicity::FlatDesync
    }

    pub fn dimensionality(&self) -> (r: &GenericProperty)
        ensures
            r@ == self@.dimensionality,
    {
        &self.dimensionality
    }

    pub fn throughput(&self) -> (r: Throughput)
        ensures
            (r.spec_numerator(), r.spec_denominator()) == self@.throughput,
    {
        self.throughput
    }

    pub fn complexity(&self) -> (r: &Complexity)
        ensures
            r@ == self@.complexity,
    {
        &self.complexity
    }

    pub fn keep(&self) -> (r: bool)
        ensures
            r == self@.keep,
    {
        self.keep
    }

    /// Reverses the direction of this stream.
    pub fn reverse(&mut self)
        ensures
            final(self)@ == (StreamView { direction: reversed(old(self)@.direction), ..old(self)@ }),
    {
        self.direction = match self.direction {
            Direction::Forward => Direction::Reverse,
            Direction::Reverse => Direction::Forward,
        };
    }

    pub fn set_throughput(&mut self, throughput: Throughput)
        ensures
            final(self)@ == (StreamView {
                throughput: (throughput.spec_numerator(), throughput.spec_denominator()),
                ..old(self)@
            }),
    {
        self.throughput = throughput;
    }

    pub fn set_synchronicity(&mut self, synchronicity: Synchronicity)
        ensures
            final(self)@ == (StreamView { synchronicity, ..old(self)@ }),
    {
        self.synchronicity = synchronicity;
    }

    pub fn set_dimensionality(&mut self, dimensionality: GenericProperty)
        ensures
            final(self)@ == (StreamView { dimensionality: dimensionality@, ..old(self)@ }),
    {
        self.dimensionality = dimensionality;
    }

    /// The physical stream of this stream: the fields of its data, as many
    /// element lanes as its throughput asks for, its dimensionality and
    /// complexity, the fields of its user type, and its direction.
    pub fn physical(&self) -> (r: crate::physical_stream::PhysicalStream)
        requires
            fields_ok(*self@.data),
            fields_ok(*self@.user),
        ensures
            field_list_view(r@.element_fields) == type_fields(*self@.data),
            r@.element_lanes == lanes_for(self@.throughput.0, self@.throughput.1),
            r@.dimensionality == self@.dimensionality,
            r@.complexity == self@.complexity,
            field_list_view(r@.user) == type_fields(*self@.user),
            r@.stream_direction == match self@.direction {
                Direction::Forward => crate::directions::StreamDirection::Forward,
                Direction::Reverse => crate::directions::StreamDirection::Reverse,
            },
    {
        let ef = self.data.fields();
        let uf = self.user.fields();
        let dir = match self.direction {
            Direction::Forward => crate::directions::StreamDirection::Forward,
            Direction::Reverse => crate::directions::StreamDirection::Reverse,
        };
        crate::physical_stream::PhysicalStream::new(
            ef,
            self.throughput.positive(),
            self.dimensionality.clone(),
            self.complexity.clone(),
            uf,
            dir,
        )
    }
}

pub open spec fn flattens(s: Synchronicity) -> bool {
    s == Synchronicity::Flatten || s == Synchronicity::FlatDesync
}

pub open spec fn reversed(d: Direction) -> Direction {
    match d {
        Direction::Forward => Direction::Reverse,
        Direction::Reverse => Direction::Forward,
    }
}

/// Reversing a direction twice gives it back, and reversing changes it.
pub proof fn lemma_reversed_twice(d: Direction)
    ensures
        reversed(reversed(d)) == d,
        reversed(d) != d,
{
}

impl LogicalType {
    /// The type in words (see `type_text`).
    pub fn text(&self) -> (r: String)
        ensures
            r@ == type_text(self@),
        decreases self,
    {
        match self {
            LogicalType::Null => String::from_str("Null"),
            LogicalType::Bits(b) => {
                let d = crate::messages::decimal(b.get() as u64);
                let mut r = String::from_str("Bits(");
                r.append(d.as_str());
                r.append(")");
                r
            },
            LogicalType::Group(g) => {
                proof {
                    assert(decreases_to!(*self => (*self)->Group_0));
                    assert(decreases_to!(*g => g.fields));
                }
                let f = fields_text_of(&g.fields);
                let mut r = String::from_str("Group(");
                r.append(f.as_str());
                r.append(")");
                r
            },
            LogicalType::Union(g) => {
                proof {
                    assert(decreases_to!(*self => (*self)->Union_0));
                    assert(decreases_to!(*g => g.fields));
                }
                let f = fields_text_of(&g.fields);
                let mut r = String::from_str("Union(");
                r.append(f.as_str());
                r.append(")");
                r
            },
            LogicalType::Stream(st) => {
                proof {
                    assert(decreases_to!(*self => (*self)->Stream_0));
                    assert(decreases_to!(*st => st.data));
                    assert(decreases_to!(*st => st.user));
                }
                let d = (*st.data).text();
                let u = (*st.user).text();
                let mut r = String::from_str("Stream(data: ");
                r.append(d.as_str());
                r.append(", user: ");
                r.append(u.as_str());
                r.append(")");
                r
            },
        }
    }
}

/// A field in words: its path, then its type.
pub open spec fn field_text(f: (Seq<Seq<char>>, TypeView)) -> Seq<char>
    decreases f,
{
    crate::messages::join_spec(f.0, "__"@) + ": "@ + type_text(f.1)
}

/// A type in words: `Null`, `Bits(8)`, `Group(a: .., b: ..)`,
/// `Union(..)` or `Stream(data: .., user: ..)`.
pub open spec fn type_text(t: TypeView) -> Seq<char>
    decreases t,
{
    match t {
        TypeView::Null => "Null"@,
        TypeView::Bits(b) => "Bits("@ + crate::messages::decimal_spec(b as nat) + ")"@,
        TypeView::Group(fs) => "Group("@ + fields_text(fs) + ")"@,
        TypeView::Union(fs) => "Union("@ + fields_text(fs) + ")"@,
        TypeView::Stream(s) => "Stream(data: "@ + type_text(*s.data) + ", user: "@ + type_text(*s.user)
            + ")"@,
    }
}

/// Fields in words, separated by commas.
pub open spec fn fields_text(fs: Seq<(Seq<Seq<char>>, TypeView)>) -> Seq<char>
    decreases fs,
{
    if fs.len() == 0 {
        Seq::empty()
    } else if fs.len() == 1 {
        field_text(fs[0])
    } else {
        fields_text(fs.drop_last()) + ", "@ + field_text(fs.last())
    }
}

/// The fields in words (see `fields_text`).
fn fields_text_of(fields: &Vec<(PathName, LogicalType)>) -> (r: String)
    ensures
        r@ == fields_text(fields_view(fields@)),
    decreases fields,
{
    let mut r = String::new();
    let mut i: usize = 0;
    proof {
        assert(fields_view(fields@.take(0)) =~= Seq::<(Seq<Seq<char>>, TypeView)>::empty());
    }
    while i < fields.len()
        invariant
            i <= fields@.len(),
            r@ == fields_text(fields_view(fields@.take(i as int))),
        decreases fields@.len() - i,
    {
        proof {
            assert(decreases_to!(*fields => fields@));
            assert(decreases_to!(fields@ => fields@[i as int]));
            assert(decreases_to!(fields@[i as int] => fields@[i as int].1));
            lemma_fields_view_step(fields@, i as int);
        }
        if i > 0 {
            r.append(", ");
        }
        let n = fields[i].0.text();
        r.append(n.as_str());
        r.append(": ");
        let t = fields[i].1.text();
        r.append(t.as_str());
        proof {
            let fv = fields_view(fields@.take(i + 1));
            assert(fv[i as int] == (fields@[i as int].0@, type_view(fields@[i as int].1)));
            assert(field_text(fv[i as int]) == n@ + ": "@ + t@);
            if i == 0 {
                assert(fv.len() == 1);
                assert(fields_text(fv) == field_text(fv[0]));
            } else {
                assert(fv.last() == fv[i as int]);
                assert(fields_text(fv) == fields_text(fv.drop_last()) + ", "@ + field_text(fv.last()));
            }
            assert(r@ =~= fields_text(fv));
        }
        i = i + 1;
    }
    proof {
        assert(fields@.take(fields@.len() as int) =~= fields@);
    }
    r
}

impl Clone for Stream {
    fn clone(&self) -> (r: Self)
        ensures
            r@ == self@,
    {
        Stream {
            data: Box::new((*self.data).clone()),
            throughput: self.throughput,
            dimensionality: self.dimensionality.clone(),
            synchronicity: self.synchronicity,
            complexity: self.complexity.clone(),
            direction: self.direction,
            user: Box::new((*self.user).clone()),
            keep: self.keep,
        }
    }
}

/// The model of a split: the signals that stay with the parent, and the
/// streams split off, by path.
pub struct SplitView {
    pub signals: TypeView,
    pub streams: Seq<(Seq<Seq<char>>, StreamView)>,
}

/// A logical type split into the signals that stay with it and the streams
/// it holds, by path.
#[derive(Debug, PartialEq, Eq, Hash)]
pub struct SplitStreams {
    signals: LogicalType,
    streams: crate::ordered_map::InsertionOrderedMap<PathName, Stream>,
}

pub open spec fn streams_view(e: Seq<(PathName, Stream)>) -> Seq<(Seq<Seq<char>>, StreamView)> {
    e.map_values(|x: (PathName, Stream)| (x.0@, x.1@))
}

impl View for SplitStreams {
    type V = SplitView;

    closed spec fn view(&self) -> SplitView {
        SplitView { signals: self.signals@, streams: streams_view(self.streams.entries()) }
    }
}

impl SplitStreams {
    pub fn signals(&self) -> (r: &LogicalType)
        ensures
            r@ == self@.signals,
    {
        &self.signals
    }

    pub fn streams_map(&self) -> (r: &crate::ordered_map::InsertionOrderedMap<PathName, Stream>)
        ensures
            streams_view(r.entries()) == self@.streams,
    {
        &self.streams
    }
}

pub open spec fn has_path(a: Seq<(Seq<Seq<char>>, StreamView)>, p: Seq<Seq<char>>) -> bool {
    exists|i: int| 0 <= i < a.len() && #[trigger] a[i].0 == p
}

/// Inserts the streams of `new` after those of `acc`, one by one; none when
/// a path is already taken.
pub open spec fn insert_all(
    acc: Seq<(Seq<Seq<char>>, StreamView)>,
    new: Seq<(Seq<Seq<char>>, StreamView)>,
) -> Option<Seq<(Seq<Seq<char>>, StreamView)>>
    decreases new.len(),
{
    if new.len() == 0 {
        Some(acc)
    } else {
        match insert_all(acc, new.drop_last()) {
            Some(a) => if has_path(a, new.last().0) {
                None
            } else {
                Some(a.push(new.last()))
            },
            None => None,
        }
    }
}

/// The streams `s` with `p` in front of each path.
pub open spec fn prefix_streams(p: Seq<Seq<char>>, s: Seq<(Seq<Seq<char>>, StreamView)>) -> Seq<
    (Seq<Seq<char>>, StreamView),
> {
    s.map_values(|e: (Seq<Seq<char>>, StreamView)| (p + e.0, e.1))
}

/// A stream split off from the data of `parent`, as it stands after the
/// split: reversed under a reverse parent; desynchronized and flat under a
/// flattening parent, otherwise with the parent's dimensionality added; its
/// throughput multiplied by the parent's (none on overflow).
pub open spec fn adjust(st: StreamView, parent: StreamView) -> Option<StreamView> {
    match (
        st.throughput.0.checked_mul(parent.throughput.0),
        st.throughput.1.checked_mul(parent.throughput.1),
    ) {
        (Some(n), Some(d)) => Some(
            StreamView {
                direction: if parent.direction == Direction::Reverse {
                    reversed(st.direction)
                } else {
                    st.direction
                },
                synchronicity: if flattens(parent.synchronicity) {
                    Synchronicity::FlatDesync
                } else {
                    st.synchronicity
                },
                dimensionality: if flattens(parent.synchronicity) {
                    st.dimensionality
                } else {
                    pcomb(st.dimensionality, MathOperator::Add, parent.dimensionality)
                },
                throughput: (n, d),
                ..st
            },
        ),
        _ => None,
    }
}

/// Adds the streams of `sts`, adjusted to `parent`, after those of `acc`.
pub open spec fn merge(
    acc: Seq<(Seq<Seq<char>>, StreamView)>,
    parent: StreamView,
    sts: Seq<(Seq<Seq<char>>, StreamView)>,
) -> Option<Seq<(Seq<Seq<char>>, StreamView)>>
    decreases sts.len(),
{
    if sts.len() == 0 {
        Some(acc)
    } else {
        match merge(acc, parent, sts.drop_last()) {
            Some(a) => match adjust(sts.last().1, parent) {
                Some(st2) => if has_path(a, sts.last().0) {
                    None
                } else {
                    Some(a.push((sts.last().0, st2)))
                },
                None => None,
            },
            None => None,
        }
    }
}

/// The split function of the logical stream specification: element types
/// keep their signals and hold no streams; a group or union splits each
/// member, keeps the members' signals and takes their streams with the
/// member's path in front; a stream splits its data, becomes a stream of the
/// data's signals (at the empty path, unless it would carry nothing and is
/// not kept) followed by the data's streams adjusted to it, and leaves null
/// signals. None when two streams get the same path, or a throughput
/// overflows.
pub open spec fn split_type(t: TypeView) -> Option<SplitView>
    decreases t,
{
    match t {
        TypeView::Group(f) => match split_fields(f) {
            Some((sigs, sts)) => Some(SplitView { signals: TypeView::Group(sigs), streams: sts }),
            None => None,
        },
        TypeView::Union(f) => match split_fields(f) {
            Some((sigs, sts)) => Some(SplitView { signals: TypeView::Union(sigs), streams: sts }),
            None => None,
        },
        TypeView::Stream(s) => split_stream(s),
        _ => Some(SplitView { signals: t, streams: Seq::empty() }),
    }
}

pub open spec fn split_fields(f: Seq<(Seq<Seq<char>>, TypeView)>) -> Option<
    (Seq<(Seq<Seq<char>>, TypeView)>, Seq<(Seq<Seq<char>>, StreamView)>),
>
    decreases f,
{
    if f.len() == 0 {
        Some((Seq::empty(), Seq::empty()))
    } else {
        match split_fields(f.drop_last()) {
            Some((sigs, sts)) => match split_type(f[f.len() - 1].1) {
                Some(sp) => match insert_all(sts, prefix_streams(f[f.len() - 1].0, sp.streams)) {
                    Some(sts2) => Some((sigs.push((f[f.len() - 1].0, sp.signals)), sts2)),
                    None => None,
                },
                None => None,
            },
            None => None,
        }
    }
}

pub open spec fn split_stream(s: StreamView) -> Option<SplitView>
    decreases s,
{
    match split_type(*s.data) {
        Some(sp) => {
            let first = if s.keep || !null_type(sp.signals) || !null_type(*s.user) {
                seq![(Seq::<Seq<char>>::empty(), StreamView { data: Box::new(sp.signals), ..s })]
            } else {
                Seq::empty()
            };
            match merge(first, s, sp.streams) {
                Some(sts) => Some(SplitView { signals: TypeView::Null, streams: sts }),
                None => None,
            }
        },
        None => None,
    }
}


/// A type that only manipulates elements splits into itself and no streams.
pub proof fn lemma_split_element_only(t: TypeView)
    requires
        element_only(t),
    ensures
        split_type(t) == Some(SplitView { signals: t, streams: Seq::empty() }),
    decreases t,
{
    match t {
        TypeView::Group(f) => {
            lemma_split_fields_element_only(f);
        },
        TypeView::Union(f) => {
            lemma_split_fields_element_only(f);
        },
        _ => {},
    }
}

/// Fields that only manipulate elements split into themselves and no
/// streams.
pub proof fn lemma_split_fields_element_only(f: Seq<(Seq<Seq<char>>, TypeView)>)
    requires
        all_element_only(f),
    ensures
        split_fields(f) == Some((f, Seq::<(Seq<Seq<char>>, StreamView)>::empty())),
    decreases f,
{
    if f.len() > 0 {
        let last = f[f.len() - 1];
        lemma_split_fields_element_only(f.drop_last());
        lemma_split_element_only(last.1);
        let none = Seq::<(Seq<Seq<char>>, StreamView)>::empty();
        assert(prefix_streams(last.0, none) =~= none);
        assert(insert_all(none, none) == Some(none));
        assert(f.drop_last().push(last) =~= f);
    }
}

proof fn lemma_insert_all_none(
    acc: Seq<(Seq<Seq<char>>, StreamView)>,
    new: Seq<(Seq<Seq<char>>, StreamView)>,
    k: int,
)
    requires
        0 <= k <= new.len(),
        insert_all(acc, new.take(k)) is None,
    ensures
        insert_all(acc, new) is None,
    decreases new.len(),
{
    if k == new.len() {
        assert(new.take(k) =~= new);
    } else {
        assert(new.drop_last().take(k) =~= new.take(k));
        lemma_insert_all_none(acc, new.drop_last(), k);
    }
}

proof fn lemma_merge_none(
    acc: Seq<(Seq<Seq<char>>, StreamView)>,
    parent: StreamView,
    sts: Seq<(Seq<Seq<char>>, StreamView)>,
    k: int,
)
    requires
        0 <= k <= sts.len(),
        merge(acc, parent, sts.take(k)) is None,
    ensures
        merge(acc, parent, sts) is None,
    decreases sts.len(),
{
    if k == sts.len() {
        assert(sts.take(k) =~= sts);
    } else {
        assert(sts.drop_last().take(k) =~= sts.take(k));
        lemma_merge_none(acc, parent, sts.drop_last(), k);
    }
}

proof fn lemma_split_fields_none(f: Seq<(Seq<Seq<char>>, TypeView)>, k: int)
    requires
        0 <= k <= f.len(),
        split_fields(f.take(k)) is None,
    ensures
        split_fields(f) is None,
    decreases f.len(),
{
    if k == f.len() {
        assert(f.take(k) =~= f);
    } else {
        assert(f.drop_last().take(k) =~= f.take(k));
        lemma_split_fields_none(f.drop_last(), k);
    }
}

proof fn lemma_fields_view_take(s: Seq<(PathName, LogicalType)>, k: int)
    requires
        0 <= k <= s.len(),
    ensures
        fields_view(s.take(k)) == fields_view(s).take(k),
{
    lemma_fields_view(s);
    lemma_fields_view(s.take(k));
    assert(fields_view(s.take(k)) =~= fields_view(s).take(k));
}

/// Adds the streams of `sub`, each path led by `prefix`, to `streams`
/// (see `insert_all`).
fn insert_prefixed(
    streams: &mut crate::ordered_map::InsertionOrderedMap<PathName, Stream>,
    prefix: &PathName,
    sub: &crate::ordered_map::InsertionOrderedMap<PathName, Stream>,
) -> (r: Result<(), Error>)
    ensures
        match insert_all(
            streams_view(old(streams).entries()),
            prefix_streams(prefix@, streams_view(sub.entries())),
        ) {
            Some(a) => r is Ok && streams_view(final(streams).entries()) == a,
            None => r is Err,
        },
{
    let ghost acc0 = streams_view(streams.entries());
    let ghost new = prefix_streams(prefix@, streams_view(sub.entries()));
    let mut j: usize = 0;
    proof {
        assert(new.take(0) =~= Seq::<(Seq<Seq<char>>, StreamView)>::empty());
    }
    while j < sub.len()
        invariant
            j <= sub.entries().len(),
            acc0 == streams_view(old(streams).entries()),
            new == prefix_streams(prefix@, streams_view(sub.entries())),
            new.len() == sub.entries().len(),
            insert_all(acc0, new.take(j as int)) == Some(streams_view(streams.entries())),
        decreases sub.entries().len() - j,
    {
        let path = sub.key_at(j).with_parents(prefix);
        let v = sub.value_at(j).clone();
        let ghost before = streams.entries();
        let ghost item = (path@, v@);
        proof {
            assert(new[j as int] == item);
            assert(new.take(j + 1).drop_last() =~= new.take(j as int));
            assert(new.take(j + 1).last() == item);
        }
        match streams.try_insert(path, v) {
            Ok(()) => {
                proof {
                    assert(!has_path(streams_view(before), item.0)) by {
                        if has_path(streams_view(before), item.0) {
                            let i = choose|i: int|
                                0 <= i < streams_view(before).len() && #[trigger] streams_view(
                                    before,
                                )[i].0 == item.0;
                            assert(before[i].0.key() == item.0);
                        }
                    }
                    assert(streams_view(streams.entries()) =~= streams_view(before).push(item));
                }
            },
            Err(e) => {
                proof {
                    let i = choose|i: int|
                        0 <= i < before.len() && #[trigger] before[i].0.key() == item.0;
                    assert(streams_view(before)[i].0 == item.0);
                    assert(has_path(streams_view(before), item.0));
                    lemma_insert_all_none(acc0, new, j + 1);
                }
                return Err(e);
            },
        }
        j = j + 1;
    }
    proof {
        assert(new.take(sub.entries().len() as int) =~= new);
    }
    Ok(())
}


/// `st` adjusted to its parent stream `parent` (see `adjust`), or an
/// `InvalidArgument` error when the throughput overflows.
fn adjust_stream(st: &Stream, parent: &Stream) -> (r: Result<Stream, Error>)
    ensures
        match adjust(st@, parent@) {
            Some(v) => r matches Ok(x) && x@ == v,
            None => r matches Err(e) && e is InvalidArgument,
        },
{
    let mut s2 = st.clone();
    if parent.direction == Direction::Reverse {
        s2.reverse();
    }
    if parent.flattens() {
        s2.set_synchronicity(Synchronicity::FlatDesync);
    } else {
        let d = GenericProperty::combine(
            s2.dimensionality.clone(),
            MathOperator::Add,
            parent.dimensionality.clone(),
        );
        s2.set_dimensionality(d);
    }
    match s2.throughput.try_mul(&parent.throughput) {
        Ok(t) => {
            s2.set_throughput(t);
            Ok(s2)
        },
        Err(e) => Err(e),
    }
}

/// Adds the streams of `rest`, adjusted to `parent`, to `streams` (see
/// `merge`).
fn merge_streams(
    streams: &mut crate::ordered_map::InsertionOrderedMap<PathName, Stream>,
    parent: &Stream,
    rest: &crate::ordered_map::InsertionOrderedMap<PathName, Stream>,
) -> (r: Result<(), Error>)
    ensures
        match merge(streams_view(old(streams).entries()), parent@, streams_view(rest.entries())) {
            Some(a) => r is Ok && streams_view(final(streams).entries()) == a,
            None => r is Err,
        },
{
    let ghost acc0 = streams_view(streams.entries());
    let ghost sts = streams_view(rest.entries());
    let mut j: usize = 0;
    proof {
        assert(sts.take(0) =~= Seq::<(Seq<Seq<char>>, StreamView)>::empty());
    }
    while j < rest.len()
        invariant
            j <= rest.entries().len(),
            acc0 == streams_view(old(streams).entries()),
            sts == streams_view(rest.entries()),
            sts.len() == rest.entries().len(),
            merge(acc0, parent@, sts.take(j as int)) == Some(streams_view(streams.entries())),
        decreases rest.entries().len() - j,
    {
        proof {
            assert(sts.take(j + 1).drop_last() =~= sts.take(j as int));
            assert(sts.take(j + 1).last() == sts[j as int]);
        }
        let s2 = match adjust_stream(rest.value_at(j), parent) {
            Ok(x) => x,
            Err(e) => {
                proof {
                    lemma_merge_none(acc0, parent@, sts, j + 1);
                }
                return Err(e);
            },
        };
        let path = rest.key_at(j).clone();
        let ghost before = streams.entries();
        let ghost item = (path@, s2@);
        match streams.try_insert(path, s2) {
            Ok(()) => {
                proof {
                    assert(!has_path(streams_view(before), item.0)) by {
                        if has_path(streams_view(before), item.0) {
                            let i = choose|i: int|
                                0 <= i < streams_view(before).len() && #[trigger] streams_view(
                                    before,
                                )[i].0 == item.0;
                            assert(before[i].0.key() == item.0);
                        }
                    }
                    assert(streams_view(streams.entries()) =~= streams_view(before).push(item));
                }
            },
            Err(_) => {
                proof {
                    let i = choose|i: int|
                        0 <= i < before.len() && #[trigger] before[i].0.key() == item.0;
                    assert(streams_view(before)[i].0 == item.0);
                    assert(has_path(streams_view(before), item.0));
                    lemma_merge_none(acc0, parent@, sts, j + 1);
                }
                return Err(
                    crate::error::invalid_argument(
                        "An error occurred during the SplitStreams function due to overlapping Stream names.\nThis is usually because a Stream contains another Stream as its Data type, and the Streams cannot be flattened.\nYou must ensure that only one Stream has a Keep and/or User property.",
                    ),
                );
            },
        }
        j = j + 1;
    }
    proof {
        assert(sts.take(rest.entries().len() as int) =~= sts);
    }
    Ok(())
}

impl LogicalType {
    /// Splits this type into the signals that stay with it and the streams
    /// it holds (see `split_type`); an error when two streams get the same
    /// path or a throughput overflows.
    pub fn split_streams(&self) -> (r: Result<SplitStreams, Error>)
        ensures
            match split_type(self@) {
                Some(v) => r matches Ok(x) && x@ == v,
                None => r is Err,
            },
        decreases self,
    {
        match self {
            LogicalType::Null => {
                let r = SplitStreams {
                    signals: LogicalType::Null,
                    streams: crate::ordered_map::InsertionOrderedMap::new(),
                };
                assert(r@.streams =~= Seq::<(Seq<Seq<char>>, StreamView)>::empty());
                Ok(r)
            },
            LogicalType::Bits(b) => {
                let r = SplitStreams {
                    signals: LogicalType::Bits(*b),
                    streams: crate::ordered_map::InsertionOrderedMap::new(),
                };
                assert(r@.streams =~= Seq::<(Seq<Seq<char>>, StreamView)>::empty());
                Ok(r)
            },
            LogicalType::Group(g) => {
                proof {
                    use_type_invariant(g);
                }
                let mut sigs: Vec<(PathName, LogicalType)> = Vec::new();
                let mut streams: crate::ordered_map::InsertionOrderedMap<PathName, Stream> =
                    crate::ordered_map::InsertionOrderedMap::new();
                let ghost f = fields_view(g.fields@);
                let mut i: usize = 0;
                proof {
                    lemma_fields_view_take(g.fields@, 0);
                    assert(streams_view(streams.entries()) =~= Seq::<
                        (Seq<Seq<char>>, StreamView),
                    >::empty());
                }
                while i < g.fields.len()
                    invariant
                        i <= g.fields@.len(),
                        *self is Group,
                        (*self)->Group_0 == *g,
                        f == fields_view(g.fields@),
                        field_paths_distinct(g.fields@),
                        sigs@.len() == i,
                        forall|j: int| 0 <= j < i ==> #[trigger] sigs@[j].0@ == g.fields@[j].0@,
                        split_fields(f.take(i as int)) == Some(
                            (fields_view(sigs@), streams_view(streams.entries())),
                        ),
                    decreases g.fields@.len() - i,
                {
                    proof {
                        assert(decreases_to!(*self => (*self)->Group_0));
                        assert(decreases_to!(*g => g.fields));
                        assert(decreases_to!(g.fields => g.fields@));
                        assert(decreases_to!(g.fields@ => g.fields@[i as int]));
                        assert(decreases_to!(g.fields@[i as int] => g.fields@[i as int].1));
                        lemma_fields_view(g.fields@);
                        assert(f.take(i + 1).drop_last() =~= f.take(i as int));
                        assert(f.take(i + 1)[i as int] == (
                            g.fields@[i as int].0@,
                            type_view(g.fields@[i as int].1),
                        ));
                    }
                    let sp = match g.fields[i].1.split_streams() {
                        Ok(x) => x,
                        Err(e) => {
                            proof {
                                lemma_split_fields_none(f, i + 1);
                                assert(f.take(g.fields@.len() as int) =~= f);
                            }
                            return Err(e);
                        },
                    };
                    let name = &g.fields[i].0;
                    let ghost before_sigs = sigs@;
                    match insert_prefixed(&mut streams, name, &sp.streams) {
                        Ok(()) => {},
                        Err(e) => {
                            proof {
                                lemma_split_fields_none(f, i + 1);
                                assert(f.take(g.fields@.len() as int) =~= f);
                            }
                            return Err(e);
                        },
                    }
                    let SplitStreams { signals: sig, streams: _ } = sp;
                    sigs.push((name.clone(), sig));
                    proof {
                        assert(sigs@.drop_last() =~= before_sigs);
                        lemma_fields_view(sigs@);
                        lemma_fields_view(before_sigs);
                        assert(fields_view(sigs@) =~= fields_view(before_sigs).push(
                            (g.fields@[i as int].0@, sp@.signals),
                        ));
                    }
                    i = i + 1;
                }
                proof {
                    lemma_fields_view(g.fields@);
                    assert(f.take(g.fields@.len() as int) =~= f);
                    assert forall|a: int, b: int| 0 <= a < b < sigs@.len() implies #[trigger] sigs@[a].0@
                        != #[trigger] sigs@[b].0@ by {
                        assert(sigs@[a].0@ == g.fields@[a].0@);
                        assert(sigs@[b].0@ == g.fields@[b].0@);
                    }
                }
                Ok(SplitStreams { signals: LogicalType::Group(Group { fields: sigs }), streams })
            },
            LogicalType::Union(g) => {
                proof {
                    use_type_invariant(g);
                }
                let mut sigs: Vec<(PathName, LogicalType)> = Vec::new();
                let mut streams: crate::ordered_map::InsertionOrderedMap<PathName, Stream> =
                    crate::ordered_map::InsertionOrderedMap::new();
                let ghost f = fields_view(g.fields@);
                let mut i: usize = 0;
                proof {
                    lemma_fields_view_take(g.fields@, 0);
                    assert(streams_view(streams.entries()) =~= Seq::<
                        (Seq<Seq<char>>, StreamView),
                    >::empty());
                }
                while i < g.fields.len()
                    invariant
                        i <= g.fields@.len(),
                        *self is Union,
                        (*self)->Union_0 == *g,
                        f == fields_view(g.fields@),
                        field_paths_distinct(g.fields@),
                        g.fields@.len() <= u32::MAX,
                        sigs@.len() == i,
                        forall|j: int| 0 <= j < i ==> #[trigger] sigs@[j].0@ == g.fields@[j].0@,
                        split_fields(f.take(i as int)) == Some(
                            (fields_view(sigs@), streams_view(streams.entries())),
                        ),
                    decreases g.fields@.len() - i,
                {
                    proof {
                        assert(decreases_to!(*self => (*self)->Union_0));
                        assert(decreases_to!(*g => g.fields));
                        assert(decreases_to!(g.fields => g.fields@));
                        assert(decreases_to!(g.fields@ => g.fields@[i as int]));
                        assert(decreases_to!(g.fields@[i as int] => g.fields@[i as int].1));
                        lemma_fields_view(g.fields@);
                        assert(f.take(i + 1).drop_last() =~= f.take(i as int));
                        assert(f.take(i + 1)[i as int] == (
                            g.fields@[i as int].0@,
                            type_view(g.fields@[i as int].1),
                        ));
                    }
                    let sp = match g.fields[i].1.split_streams() {
                        Ok(x) => x,
                        Err(e) => {
                            proof {
                                lemma_split_fields_none(f, i + 1);
                                assert(f.take(g.fields@.len() as int) =~= f);
                            }
                            return Err(e);
                        },
                    };
                    let name = &g.fields[i].0;
                    let ghost before_sigs = sigs@;
                    match insert_prefixed(&mut streams, name, &sp.streams) {
                        Ok(()) => {},
                        Err(e) => {
                            proof {
                                lemma_split_fields_none(f, i + 1);
                                assert(f.take(g.fields@.len() as int) =~= f);
                            }
                            return Err(e);
                        },
                    }
                    let SplitStreams { signals: sig, streams: _ } = sp;
                    sigs.push((name.clone(), sig));
                    proof {
                        assert(sigs@.drop_last() =~= before_sigs);
                        lemma_fields_view(sigs@);
                        lemma_fields_view(before_sigs);
                        assert(fields_view(sigs@) =~= fields_view(before_sigs).push(
                            (g.fields@[i as int].0@, sp@.signals),
                        ));
                    }
                    i = i + 1;
                }
                proof {
                    lemma_fields_view(g.fields@);
                    assert(f.take(g.fields@.len() as int) =~= f);
                    assert forall|a: int, b: int| 0 <= a < b < sigs@.len() implies #[trigger] sigs@[a].0@
                        != #[trigger] sigs@[b].0@ by {
                        assert(sigs@[a].0@ == g.fields@[a].0@);
                        assert(sigs@[b].0@ == g.fields@[b].0@);
                    }
                }
                Ok(SplitStreams { signals: LogicalType::Union(Union { fields: sigs }), streams })
            },
            LogicalType::Stream(st) => {
                proof {
                    assert(decreases_to!(*self => (*self)->Stream_0));
                    assert(decreases_to!(*st => st.data));
                }
                let sp = match (*st.data).split_streams() {
                    Ok(x) => x,
                    Err(e) => {
                        return Err(e);
                    },
                };
                let SplitStreams { signals: element, streams: rest } = sp;
                let mut streams: crate::ordered_map::InsertionOrderedMap<PathName, Stream> =
                    crate::ordered_map::InsertionOrderedMap::new();
                if st.keep || !element.is_null() || !(*st.user).is_null() {
                    let first = Stream {
                        data: Box::new(element.clone()),
                        throughput: st.throughput,
                        dimensionality: st.dimensionality.clone(),
                        synchronicity: st.synchronicity,
                        complexity: st.complexity.clone(),
                        direction: st.direction,
                        user: Box::new((*st.user).clone()),
                        keep: st.keep,
                    };
                    let res = streams.try_insert(PathName::new_empty(), first);
                    assert(res is Ok);
                }
                proof {
                    let first = if st@.keep || !null_type(element@) || !null_type(*st@.user) {
                        seq![
                            (
                                Seq::<Seq<char>>::empty(),
                                StreamView { data: Box::new(element@), ..st@ },
                            ),
                        ]
                    } else {
                        Seq::empty()
                    };
                    assert(streams_view(streams.entries()) =~= first);
                }
                match merge_streams(&mut streams, st, &rest) {
                    Ok(()) => {},
                    Err(e) => {
                        return Err(e);
                    },
                }
                let r = SplitStreams { signals: LogicalType::Null, streams };
                assert(self@ == TypeView::Stream(st@));
                assert(r@.signals == TypeView::Null);
                Ok(r)
            },
        }
    }
}


/// How the model of a type follows from its variant.
pub proof fn lemma_type_view(t: LogicalType)
    ensures
        match t {
            LogicalType::Null => t@ == TypeView::Null,
            LogicalType::Bits(b) => t@ == TypeView::Bits(b.spec_value()),
            LogicalType::Group(g) => t@ == TypeView::Group(g.spec_fields()),
            LogicalType::Union(u) => t@ == TypeView::Union(u.spec_fields()),
            LogicalType::Stream(s) => t@ == TypeView::Stream(s@),
        },
{
}

/// The model of a field list, field by field.
pub proof fn lemma_field_list(s: Seq<(PathName, LogicalType)>)
    ensures
        fields_view(s).len() == s.len(),
        forall|i: int| 0 <= i < s.len() ==> #[trigger] fields_view(s)[i] == (s[i].0@, s[i].1@),
{
    lemma_fields_view(s);
}


proof fn lemma_hierarchy_fields_step(f: Seq<(Seq<Seq<char>>, TypeView)>, i: int)
    requires
        0 <= i < f.len(),
    ensures
        hierarchy_fields(f.take(i + 1)) == hierarchy_fields(f.take(i)).push(
            (f[i].0, hierarchy_of(f[i].1)),
        ),
{
    assert(f.take(i + 1).drop_last() =~= f.take(i));
}

proof fn lemma_hier_entries_push(s: Seq<(PathName, TypeHierarchy)>, e: (PathName, TypeHierarchy))
    ensures
        hier_entries_view(s.push(e)) == hier_entries_view(s).push((e.0@, e.1@)),
{
    assert(s.push(e).drop_last() =~= s);
}

impl TypeHierarchy {
    /// The hierarchy of a type (see `hierarchy_of`).
    pub fn from_logical_type(t: &LogicalType) -> (r: Result<TypeHierarchy, Error>)
        ensures
            r matches Ok(h) && h@ == hierarchy_of(t@) && hier_named(h@),
        decreases t,
    {
        match t {
            LogicalType::Null => Ok(TypeHierarchy::Null),
            LogicalType::Bits(b) => Ok(TypeHierarchy::Bits(*b)),
            LogicalType::Stream(s) => {
                proof {
                    assert(decreases_to!(*t => (*t)->Stream_0));
                }
                Self::from_stream(s)
            },
            _ => {
                let is_group = match t {
                    LogicalType::Group(_) => true,
                    _ => false,
                };
                let fields = match t {
                    LogicalType::Group(g) => {
                        proof {
                            use_type_invariant(g);
                        }
                        &g.fields
                    },
                    LogicalType::Union(g) => {
                        proof {
                            use_type_invariant(g);
                        }
                        &g.fields
                    },
                    _ => {
                        proof {
                            assert(false);
                        }
                        return Ok(TypeHierarchy::Null);
                    },
                };
                proof {
                    lemma_fields_view(fields@);
                }
                let ghost f = fields_view(fields@);
                let mut m: InsertionOrderedMap<PathName, TypeHierarchy> = InsertionOrderedMap::new();
                let mut i: usize = 0;
                proof {
                    assert(f.take(0) =~= Seq::<(Seq<Seq<char>>, TypeView)>::empty());
                    assert(m.entries() =~= Seq::<(PathName, TypeHierarchy)>::empty());
                    assert(hier_entries_view(m.entries()) =~= Seq::empty());
                }
                while i < fields.len()
                    invariant
                        i <= fields@.len(),
                        is_group == (*t is Group),
                        is_group ==> *t is Group && fields@ == (*t)->Group_0.fields@,
                        !is_group ==> *t is Union && fields@ == (*t)->Union_0.fields@,
                        f == fields_view(fields@),
                        f.len() == fields@.len(),
                        forall|j: int|
                            0 <= j < fields@.len() ==> #[trigger] f[j] == (
                                fields@[j].0@,
                                type_view(fields@[j].1),
                            ),
                        field_paths_distinct(fields@),
                        m.entries().len() == i,
                        forall|j: int| 0 <= j < i ==> #[trigger] m.entries()[j].0@ == fields@[j].0@,
                        hier_entries_view(m.entries()) == hierarchy_fields(f.take(i as int)),
                        hier_fields_named(hier_entries_view(m.entries())),
                        field_paths_named(fields@),
                    decreases fields@.len() - i,
                {
                    proof {
                        if is_group {
                            let g = (*t)->Group_0;
                            assert(decreases_to!(*t => g));
                            assert(decreases_to!(g => g.fields));
                            assert(decreases_to!(g.fields => g.fields@));
                            assert(decreases_to!(g.fields@ => g.fields@[i as int]));
                            assert(decreases_to!(g.fields@[i as int] => g.fields@[i as int].1));
                        } else {
                            let g = (*t)->Union_0;
                            assert(decreases_to!(*t => g));
                            assert(decreases_to!(g => g.fields));
                            assert(decreases_to!(g.fields => g.fields@));
                            assert(decreases_to!(g.fields@ => g.fields@[i as int]));
                            assert(decreases_to!(g.fields@[i as int] => g.fields@[i as int].1));
                        }
                        lemma_hierarchy_fields_step(f, i as int);
                    }
                    let h = match Self::from_logical_type(&fields[i].1) {
                        Ok(h) => h,
                        Err(e) => {
                            return Err(e);
                        },
                    };
                    let p = fields[i].0.clone();
                    let ghost before = m.entries();
                    let ghost entry = (p, h);
                    proof {
                        assert forall|j: int| 0 <= j < before.len() implies #[trigger] before[j].0.key()
                            != p.key() by {
                            assert(before[j].0@ == fields@[j].0@);
                        }
                    }
                    let res = m.try_insert(p, h);
                    assert(res is Ok);
                    proof {
                        lemma_hier_entries_push(before, entry);
                        let hs = hier_entries_view(m.entries());
                        assert(hs.drop_last() =~= hier_entries_view(before));
                        assert(hs[hs.len() - 1].0 == fields@[i as int].0@);
                    }
                    i = i + 1;
                }
                proof {
                    assert(f.take(fields@.len() as int) =~= f);
                }
                if is_group {
                    Ok(TypeHierarchy::Group(m))
                } else {
                    Ok(TypeHierarchy::Union(m))
                }
            },
        }
    }

    /// The hierarchy of a stream (see `stream_hierarchy`).
    pub fn from_stream(s: &Stream) -> (r: Result<TypeHierarchy, Error>)
        ensures
            r matches Ok(h) && h@ == stream_hierarchy(s@) && hier_named(h@),
        decreases s,
    {
        proof {
            assert(decreases_to!(*s => s.data));
        }
        match &*s.data {
            LogicalType::Stream(inner) => {
                proof {
                    assert(decreases_to!(*s.data => (*s.data)->Stream_0));
                }
                Self::from_stream(inner)
            },
            _ => match Self::from_logical_type(&*s.data) {
                Ok(h) => Ok(TypeHierarchy::Stream(Box::new(h))),
                Err(e) => Err(e),
            },
        }
    }
}

impl LogicalType {
    /// The generic parameters this type uses, by name and kind (see
    /// `type_kinds`).
    pub fn parameter_kinds(&self) -> (r: Result<InsertionOrderedMap<Name, GenericKind>, Error>)
        ensures
            match type_kinds(self@) {
                Ok(s) => r matches Ok(m) && kind_entries(m.entries()) == s,
                Err(k) => r matches Err(e) && e.kind() == k,
            },
        decreases self,
    {
        match self {
            LogicalType::Null | LogicalType::Bits(_) => {
                let m: InsertionOrderedMap<Name, GenericKind> = InsertionOrderedMap::new();
                proof {
                    assert(kind_entries(m.entries()) =~= Seq::<(Seq<char>, KindView)>::empty());
                }
                Ok(m)
            },
            LogicalType::Group(g) => {
                proof {
                    assert(decreases_to!(*self => (*self)->Group_0));
                    assert(decreases_to!(*g => g.fields));
                }
                fields_parameter_kinds(&g.fields)
            },
            LogicalType::Union(u) => {
                proof {
                    assert(decreases_to!(*self => (*self)->Union_0));
                    assert(decreases_to!(*u => u.fields));
                }
                fields_parameter_kinds(&u.fields)
            },
            LogicalType::Stream(s) => {
                proof {
                    assert(decreases_to!(*self => (*self)->Stream_0));
                    assert(decreases_to!(*s => s.data));
                }
                let mut m = match s.data.parameter_kinds() {
                    Ok(m) => m,
                    Err(e) => {
                        proof {
                            lemma_dim_err(e.kind(), s.dimensionality@);
                        }
                        return Err(e);
                    },
                };
                match add_dimension_kinds(&mut m, &s.dimensionality) {
                    Ok(()) => Ok(m),
                    Err(e) => Err(e),
                }
            },
        }
    }
}

/// The generic parameters the fields use, by name and kind (see
/// `field_kinds`).
fn fields_parameter_kinds(fields: &Vec<(PathName, LogicalType)>) -> (r: Result<
    InsertionOrderedMap<Name, GenericKind>,
    Error,
>)
    ensures
        match field_kinds(fields_view(fields@)) {
            Ok(s) => r matches Ok(m) && kind_entries(m.entries()) == s,
            Err(k) => r matches Err(e) && e.kind() == k,
        },
    decreases fields,
{
    let ghost fv = fields_view(fields@);
    let mut result: InsertionOrderedMap<Name, GenericKind> = InsertionOrderedMap::new();
    let mut i: usize = 0;
    proof {
        lemma_fields_view(fields@);
        assert(fields_view(fields@.take(0)) =~= Seq::<(Seq<Seq<char>>, TypeView)>::empty());
        assert(kind_entries(result.entries()) =~= Seq::<(Seq<char>, KindView)>::empty());
    }
    while i < fields.len()
        invariant
            i <= fields@.len(),
            fv == fields_view(fields@),
            field_kinds(fields_view(fields@.take(i as int))) == Ok::<
                Seq<(Seq<char>, KindView)>,
                ErrorKind,
            >(kind_entries(result.entries())),
        decreases fields@.len() - i,
    {
        proof {
            assert(decreases_to!(*fields => fields@));
            assert(decreases_to!(fields@ => fields@[i as int]));
            assert(decreases_to!(fields@[i as int] => fields@[i as int].1));
            lemma_fields_view_step(fields@, i as int);
            lemma_fields_view(fields@);
            assert(fields@.take(i as int) =~= fields@.take(i + 1).drop_last());
        }
        let ghost acc = kind_entries(result.entries());
        let ghost step = fields_view(fields@.take(i + 1));
        let fk = match fields[i].1.parameter_kinds() {
            Ok(m) => m,
            Err(e) => {
                proof {
                    assert(field_kinds(step) == Err::<Seq<(Seq<char>, KindView)>, ErrorKind>(e.kind()));
                    lemma_field_kinds_prefix(fields@, i + 1);
                    lemma_field_kinds_err(fv, i + 1);
                }
                return Err(e);
            },
        };
        match merge_param_kinds(&mut result, fk) {
            Ok(()) => {},
            Err(e) => {
                let inner = match e {
                    Error::ProjectError(m) => m,
                    _ => String::new(),
                };
                let path = fields[i].0.text();
                proof {
                    assert(field_kinds(step) == Err::<Seq<(Seq<char>, KindView)>, ErrorKind>(
                        ErrorKind::ProjectError,
                    ));
                    lemma_field_kinds_prefix(fields@, i + 1);
                    lemma_field_kinds_err(fv, i + 1);
                }
                return Err(
                    Error::ProjectError(
                        concat(&["Issue with field ", path.as_str(), ": ", inner.as_str()]),
                    ),
                );
            },
        }
        i = i + 1;
    }
    proof {
        assert(fields@.take(fields@.len() as int) =~= fields@);
    }
    Ok(result)
}

/// The models of a prefix of the fields are a prefix of their models.
proof fn lemma_field_kinds_prefix(s: Seq<(PathName, LogicalType)>, k: int)
    requires
        0 <= k <= s.len(),
    ensures
        fields_view(s.take(k)) == fields_view(s).take(k),
{
    lemma_fields_view(s);
    lemma_fields_view(s.take(k));
    assert(fields_view(s.take(k)) =~= fields_view(s).take(k));
}

impl Stream {
    /// The generic parameters this stream uses: those of its data type,
    /// then the parameters of its dimensionality (see `dim_kinds`).
    pub fn parameter_kinds(&self) -> (r: Result<InsertionOrderedMap<Name, GenericKind>, Error>)
        ensures
            match dim_kinds(type_kinds(*self@.data), self@.dimensionality) {
                Ok(s) => r matches Ok(m) && kind_entries(m.entries()) == s,
                Err(k) => r matches Err(e) && e.kind() == k,
            },
    {
        let mut m = match self.data.parameter_kinds() {
            Ok(m) => m,
            Err(e) => {
                proof {
                    lemma_dim_err(e.kind(), self.dimensionality@);
                }
                return Err(e);
            },
        };
        match add_dimension_kinds(&mut m, &self.dimensionality) {
            Ok(()) => Ok(m),
            Err(e) => Err(e),
        }
    }
}

} // verus!
