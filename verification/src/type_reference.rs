//! References from logical types to the physical streams and signals they
//! give: the hierarchy of a type, and where its streams end up after
//! splitting.
use vstd::prelude::*;
use crate::complexity::Complexity;
use crate::directions::{Direction, Synchronicity};
use crate::error::Error;
use crate::generic_property::{GenericProperty, PropertyView, property_text};
use crate::logical_type::{
    LogicalType,
    field_paths_named,
    fields_view,
    lemma_field_list,
    lemma_type_view,
    SplitStreams,
    Stream,
    StreamView,
    TypeView,
    lanes_for,
};
use crate::name::{Name, PathName};
use crate::messages::{concat, decimal, decimal_spec, indent, indented, join, join_spec};
use crate::numbers::Positive;
use crate::ordered_map::{InsertionOrderedMap, MapKey};

verus! {

/// The shape of a logical type, streams nested in streams taken as one.
#[derive(Debug, PartialEq, Eq, Hash)]
pub enum TypeHierarchy {
    Null,
    Bits(Positive),
    Group(InsertionOrderedMap<PathName, TypeHierarchy>),
    Union(InsertionOrderedMap<PathName, TypeHierarchy>),
    Stream(Box<TypeHierarchy>),
}

/// The model of a `TypeHierarchy`.
pub enum HierarchyView {
    Null,
    Bits(u32),
    Group(Seq<(Seq<Seq<char>>, HierarchyView)>),
    Union(Seq<(Seq<Seq<char>>, HierarchyView)>),
    Stream(Box<HierarchyView>),
}

pub open spec fn hierarchy_view(h: TypeHierarchy) -> HierarchyView
    decreases h,
{
    match h {
        TypeHierarchy::Null => HierarchyView::Null,
        TypeHierarchy::Bits(b) => HierarchyView::Bits(b.spec_value()),
        TypeHierarchy::Group(m) => {
            proof {
                m.lemma_entries_decrease();
            }
            HierarchyView::Group(hier_entries_view(m.entries()))
        },
        TypeHierarchy::Union(m) => {
            proof {
                m.lemma_entries_decrease();
            }
            HierarchyView::Union(hier_entries_view(m.entries()))
        },
        TypeHierarchy::Stream(b) => HierarchyView::Stream(Box::new(hierarchy_view(*b))),
    }
}

pub open spec fn hier_entries_view(s: Seq<(PathName, TypeHierarchy)>) -> Seq<
    (Seq<Seq<char>>, HierarchyView),
>
    decreases s,
{
    if s.len() == 0 {
        Seq::empty()
    } else {
        hier_entries_view(s.drop_last()).push((s.last().0@, hierarchy_view(s.last().1)))
    }
}

impl View for TypeHierarchy {
    type V = HierarchyView;

    open spec fn view(&self) -> HierarchyView {
        hierarchy_view(*self)
    }
}

/// The hierarchy of a type: element types as they are, groups and unions
/// member by member, and a stream as the hierarchy of its data, a stream
/// whose data is a stream being taken as that inner stream.
pub open spec fn hierarchy_of(t: TypeView) -> HierarchyView
    decreases t,
{
    match t {
        TypeView::Null => HierarchyView::Null,
        TypeView::Bits(b) => HierarchyView::Bits(b),
        TypeView::Group(f) => HierarchyView::Group(hierarchy_fields(f)),
        TypeView::Union(f) => HierarchyView::Union(hierarchy_fields(f)),
        TypeView::Stream(s) => stream_hierarchy(s),
    }
}

pub open spec fn hierarchy_fields(f: Seq<(Seq<Seq<char>>, TypeView)>) -> Seq<
    (Seq<Seq<char>>, HierarchyView),
>
    decreases f,
{
    if f.len() == 0 {
        Seq::empty()
    } else {
        hierarchy_fields(f.drop_last()).push((f[f.len() - 1].0, hierarchy_of(f[f.len() - 1].1)))
    }
}

pub open spec fn stream_hierarchy(s: StreamView) -> HierarchyView
    decreases s,
{
    match *s.data {
        TypeView::Stream(inner) => stream_hierarchy(inner),
        _ => HierarchyView::Stream(Box::new(hierarchy_of(*s.data))),
    }
}

/// Every field of every group and union in the hierarchy has a path that
/// ends in a name.
pub open spec fn hier_named(h: HierarchyView) -> bool
    decreases h,
{
    match h {
        HierarchyView::Group(f) => hier_fields_named(f),
        HierarchyView::Union(f) => hier_fields_named(f),
        HierarchyView::Stream(b) => hier_named(*b),
        _ => true,
    }
}

pub open spec fn hier_fields_named(f: Seq<(Seq<Seq<char>>, HierarchyView)>) -> bool
    decreases f,
{
    if f.len() == 0 {
        true
    } else {
        hier_fields_named(f.drop_last()) && f[f.len() - 1].0.len() > 0 && hier_named(
            f[f.len() - 1].1,
        )
    }
}

/// Why a reference could not be built: an argument that does not fit, or a
/// field name met twice.
pub enum Failure {
    Invalid,
    Duplicate,
}

/// The error `e` is of the kind `f` names.
pub open spec fn fails_as(e: Error, f: Failure) -> bool {
    match f {
        Failure::Invalid => e is InvalidArgument,
        Failure::Duplicate => e is UnexpectedDuplicate,
    }
}

/// Where transfers on a stream are scoped.
#[derive(Debug, PartialEq, Eq, Hash)]
pub enum TransferScope {
    /// The stream is at the root of an interface, or desynchronized from
    /// its parent: its transfers scope those of its synchronized children.
    Root,
    /// The stream is synchronized with the stream at the given path:
    /// exactly one transfer on it per transfer on that parent.
    Sync(PathName),
}

/// The model of a `TransferScope`.
pub enum ScopeView {
    Root,
    Sync(Seq<Seq<char>>),
}

impl View for TransferScope {
    type V = ScopeView;

    open spec fn view(&self) -> ScopeView {
        match self {
            TransferScope::Root => ScopeView::Root,
            TransferScope::Sync(p) => ScopeView::Sync(p@),
        }
    }
}

impl Clone for TransferScope {
    fn clone(&self) -> (r: Self)
        ensures
            r@ == self@,
    {
        match self {
            TransferScope::Root => TransferScope::Root,
            TransferScope::Sync(p) => TransferScope::Sync(p.clone()),
        }
    }
}

/// The selection of a field of a group or of a union, by name.
#[derive(Debug, PartialEq, Eq, Hash)]
pub enum FieldSelect {
    Group(Name),
    Union(Name),
}

/// The model of a `FieldSelect`.
pub enum SelectView {
    Group(Seq<char>),
    Union(Seq<char>),
}

impl View for FieldSelect {
    type V = SelectView;

    open spec fn view(&self) -> SelectView {
        match self {
            FieldSelect::Group(n) => SelectView::Group(n@),
            FieldSelect::Union(n) => SelectView::Union(n@),
        }
    }
}

impl Clone for FieldSelect {
    fn clone(&self) -> (r: Self)
        ensures
            r@ == self@,
    {
        match self {
            FieldSelect::Group(n) => FieldSelect::Group(n.clone()),
            FieldSelect::Union(n) => FieldSelect::Union(n.clone()),
        }
    }
}

/// A reference that manipulates elements only: it refers to the `data`
/// signal, and through its fields possibly to streams.
#[derive(Debug, PartialEq, Eq, Hash)]
pub enum ElementManipulatingReference {
    /// No physical signal.
    Null,
    /// That many bits of a `data` signal.
    Bits(Positive),
    /// Distinct fields, each an element-manipulating reference or a stream.
    Group(InsertionOrderedMap<Name, TypeReference>),
    /// Overlapping fields, the active one selected by the `tag` signal.
    Union(InsertionOrderedMap<Name, TypeReference>),
}

/// A reference from a logical type to its physical signals and streams.
#[derive(Debug, PartialEq, Eq, Hash)]
pub enum TypeReference {
    /// Manipulates the `data` signal only.
    ElementManipulating(ElementManipulatingReference),
    /// A physical stream and its signals.
    Stream(StreamReference),
    /// A stream that was flattened into its children: a scope in name only.
    ScopeStream(ScopeStream),
}

/// A physical stream: its path, what its data refers to, its properties,
/// its transfer scope, its number of element lanes and its user signal.
#[derive(Debug, PartialEq, Eq, Hash)]
pub struct StreamReference {
    physical_stream: PathName,
    data: Box<TypeReference>,
    direction: Direction,
    complexity: Complexity,
    dimensionality: GenericProperty,
    transfer_scope: TransferScope,
    element_lanes: Positive,
    user: ElementManipulatingReference,
}

/// A stream flattened into its children, by name.
#[derive(Debug, PartialEq, Eq, Hash)]
pub struct ScopeStream {
    name: PathName,
    child: Box<TypeReference>,
}

/// The model of a `TypeReference`.
pub enum RefView {
    Element(ElementRefView),
    Stream(StreamRefView),
    Scope(Seq<Seq<char>>, Box<RefView>),
}

/// The model of an `ElementManipulatingReference`: fields by name.
pub enum ElementRefView {
    Null,
    Bits(u32),
    Group(Seq<(Seq<char>, RefView)>),
    Union(Seq<(Seq<char>, RefView)>),
}

/// The model of a `StreamReference`.
pub struct StreamRefView {
    pub physical_stream: Seq<Seq<char>>,
    pub data: Box<RefView>,
    pub direction: Direction,
    pub complexity: Seq<u32>,
    pub dimensionality: PropertyView,
    pub transfer_scope: ScopeView,
    pub element_lanes: u32,
    pub user: ElementRefView,
}

pub closed spec fn ref_view(r: TypeReference) -> RefView
    decreases r,
{
    match r {
        TypeReference::ElementManipulating(e) => RefView::Element(element_ref_view(e)),
        TypeReference::Stream(s) => RefView::Stream(stream_ref_view(s)),
        TypeReference::ScopeStream(s) => RefView::Scope(s.name@, Box::new(ref_view(*s.child))),
    }
}

pub closed spec fn element_ref_view(e: ElementManipulatingReference) -> ElementRefView
    decreases e,
{
    match e {
        ElementManipulatingReference::Null => ElementRefView::Null,
        ElementManipulatingReference::Bits(b) => ElementRefView::Bits(b.spec_value()),
        ElementManipulatingReference::Group(m) => {
            proof {
                m.lemma_entries_decrease();
            }
            ElementRefView::Group(ref_entries_view(m.entries()))
        },
        ElementManipulatingReference::Union(m) => {
            proof {
                m.lemma_entries_decrease();
            }
            ElementRefView::Union(ref_entries_view(m.entries()))
        },
    }
}

pub closed spec fn ref_entries_view(s: Seq<(Name, TypeReference)>) -> Seq<(Seq<char>, RefView)>
    decreases s,
{
    if s.len() == 0 {
        Seq::empty()
    } else {
        ref_entries_view(s.drop_last()).push((s.last().0@, ref_view(s.last().1)))
    }
}

pub closed spec fn stream_ref_view(s: StreamReference) -> StreamRefView
    decreases s,
{
    StreamRefView {
        physical_stream: s.physical_stream@,
        data: Box::new(ref_view(*s.data)),
        direction: s.direction,
        complexity: s.complexity@,
        dimensionality: s.dimensionality@,
        transfer_scope: s.transfer_scope@,
        element_lanes: s.element_lanes.spec_value(),
        user: element_ref_view(s.user),
    }
}

impl View for TypeReference {
    type V = RefView;

    open spec fn view(&self) -> RefView {
        ref_view(*self)
    }
}

impl View for ElementManipulatingReference {
    type V = ElementRefView;

    open spec fn view(&self) -> ElementRefView {
        element_ref_view(*self)
    }
}

impl View for StreamReference {
    type V = StreamRefView;

    open spec fn view(&self) -> StreamRefView {
        stream_ref_view(*self)
    }
}

impl View for ScopeStream {
    type V = (Seq<Seq<char>>, RefView);

    closed spec fn view(&self) -> (Seq<Seq<char>>, RefView) {
        (self.name@, ref_view(*self.child))
    }
}

/// The model of a reference by its variant.
pub proof fn lemma_ref_view(r: TypeReference)
    ensures
        match r {
            TypeReference::ElementManipulating(e) => r@ == RefView::Element(e@),
            TypeReference::Stream(s) => r@ == RefView::Stream(s@),
            TypeReference::ScopeStream(s) => r@ == RefView::Scope(s@.0, Box::new(s@.1)),
        },
{
}

/// The model of a field map, entry by entry.
pub proof fn lemma_ref_entries(s: Seq<(Name, TypeReference)>)
    ensures
        ref_entries_view(s).len() == s.len(),
        forall|i: int| 0 <= i < s.len() ==> #[trigger] ref_entries_view(s)[i] == (s[i].0@, s[i].1@),
    decreases s.len(),
{
    if s.len() > 0 {
        lemma_ref_entries(s.drop_last());
        assert forall|i: int| 0 <= i < s.len() implies #[trigger] ref_entries_view(s)[i] == (
            s[i].0@,
            s[i].1@,
        ) by {
            if i < s.len() - 1 {
                assert(s.drop_last()[i] == s[i]);
            }
        }
    }
}

/// The model of an element reference by its variant.
pub proof fn lemma_element_ref_view(e: ElementManipulatingReference)
    ensures
        match e {
            ElementManipulatingReference::Null => e@ == ElementRefView::Null,
            ElementManipulatingReference::Bits(b) => e@ == ElementRefView::Bits(b.spec_value()),
            ElementManipulatingReference::Group(m) => e@ == ElementRefView::Group(
                ref_entries_view(m.entries()),
            ),
            ElementManipulatingReference::Union(m) => e@ == ElementRefView::Union(
                ref_entries_view(m.entries()),
            ),
        },
{
}

/// The entries of `s` hold a field named `n`.
pub open spec fn has_name(s: Seq<(Seq<char>, RefView)>, n: Seq<char>) -> bool {
    exists|j: int| 0 <= j < s.len() && #[trigger] s[j].0 == n
}

/// The element reference of a type: element types field by field, each
/// field named by the last name of its path; a stream anywhere is an
/// invalid argument, a last name met twice a duplicate.
pub open spec fn element_ref(t: TypeView) -> Result<ElementRefView, Failure>
    decreases t,
{
    match t {
        TypeView::Null => Ok(ElementRefView::Null),
        TypeView::Bits(b) => Ok(ElementRefView::Bits(b)),
        TypeView::Group(f) => match element_fields(f) {
            Ok(s) => Ok(ElementRefView::Group(s)),
            Err(x) => Err(x),
        },
        TypeView::Union(f) => match element_fields(f) {
            Ok(s) => Ok(ElementRefView::Union(s)),
            Err(x) => Err(x),
        },
        TypeView::Stream(_) => Err(Failure::Invalid),
    }
}

/// The fields of an element reference, in order; the first field that
/// fails decides the failure.
pub open spec fn element_fields(f: Seq<(Seq<Seq<char>>, TypeView)>) -> Result<
    Seq<(Seq<char>, RefView)>,
    Failure,
>
    decreases f,
{
    if f.len() == 0 {
        Ok(Seq::empty())
    } else {
        match element_fields(f.drop_last()) {
            Err(x) => Err(x),
            Ok(s) => match element_ref(f[f.len() - 1].1) {
                Err(x) => Err(x),
                Ok(e) => {
                    let n = f[f.len() - 1].0.last();
                    if has_name(s, n) {
                        Err(Failure::Duplicate)
                    } else {
                        Ok(s.push((n, RefView::Element(e))))
                    }
                },
            },
        }
    }
}

/// The stream at path `p` among the split streams, if any.
pub open spec fn stream_at(s: Seq<(Seq<Seq<char>>, StreamView)>, p: Seq<Seq<char>>) -> Option<
    StreamView,
> {
    if exists|i: int| 0 <= i < s.len() && #[trigger] s[i].0 == p {
        Some(s[choose|i: int| 0 <= i < s.len() && #[trigger] s[i].0 == p].1)
    } else {
        None
    }
}

/// The transfer scope of a stream at path `p`: the root for the empty path
/// and for desynchronized streams, else synchronized with the first name of
/// the path.
pub open spec fn transfer_scope_of(p: Seq<Seq<char>>, s: Synchronicity) -> ScopeView {
    if p.len() == 0 {
        ScopeView::Root
    } else {
        match s {
            Synchronicity::Sync | Synchronicity::Flatten => ScopeView::Sync(seq![p[0]]),
            Synchronicity::Desync | Synchronicity::FlatDesync => ScopeView::Root,
        }
    }
}

/// The reference of a hierarchy at path `p`, given the split streams:
/// element types as they are, groups and unions field by field (each field
/// at its own path, named by its last name), and a stream as the physical
/// stream at `p` when there is one, else as a scope around its data.
pub open spec fn collect(
    streams: Seq<(Seq<Seq<char>>, StreamView)>,
    h: HierarchyView,
    p: Seq<Seq<char>>,
) -> Result<RefView, Failure>
    decreases h, 1int,
{
    match h {
        HierarchyView::Null => Ok(RefView::Element(ElementRefView::Null)),
        HierarchyView::Bits(n) => Ok(RefView::Element(ElementRefView::Bits(n))),
        HierarchyView::Group(f) => match collect_fields(streams, f) {
            Ok(s) => Ok(RefView::Element(ElementRefView::Group(s))),
            Err(x) => Err(x),
        },
        HierarchyView::Union(f) => match collect_fields(streams, f) {
            Ok(s) => Ok(RefView::Element(ElementRefView::Union(s))),
            Err(x) => Err(x),
        },
        HierarchyView::Stream(d) => match stream_at(streams, p) {
            Some(st) => match stream_ref(streams, st, p, *d) {
                Ok(r) => Ok(RefView::Stream(r)),
                Err(x) => Err(x),
            },
            None => match collect(streams, *d, p) {
                Ok(c) => Ok(RefView::Scope(p, Box::new(c))),
                Err(x) => Err(x),
            },
        },
    }
}

/// The fields of a collected group or union, in order; the first field
/// that fails decides the failure.
pub open spec fn collect_fields(
    streams: Seq<(Seq<Seq<char>>, StreamView)>,
    f: Seq<(Seq<Seq<char>>, HierarchyView)>,
) -> Result<Seq<(Seq<char>, RefView)>, Failure>
    decreases f, 0int,
{
    if f.len() == 0 {
        Ok(Seq::empty())
    } else {
        match collect_fields(streams, f.drop_last()) {
            Err(x) => Err(x),
            Ok(s) => match collect(streams, f[f.len() - 1].1, f[f.len() - 1].0) {
                Err(x) => Err(x),
                Ok(r) => {
                    let n = f[f.len() - 1].0.last();
                    if has_name(s, n) {
                        Err(Failure::Duplicate)
                    } else {
                        Ok(s.push((n, r)))
                    }
                },
            },
        }
    }
}

/// The reference of the physical stream `st` at path `p` whose data has
/// hierarchy `d`: its user signal first, then its data.
pub open spec fn stream_ref(
    streams: Seq<(Seq<Seq<char>>, StreamView)>,
    st: StreamView,
    p: Seq<Seq<char>>,
    d: HierarchyView,
) -> Result<StreamRefView, Failure>
    decreases d, 2int,
{
    match element_ref(*st.user) {
        Err(x) => Err(x),
        Ok(u) => match collect(streams, d, p) {
            Err(x) => Err(x),
            Ok(data) => Ok(
                StreamRefView {
                    physical_stream: p,
                    data: Box::new(data),
                    direction: st.direction,
                    complexity: st.complexity,
                    dimensionality: st.dimensionality,
                    transfer_scope: transfer_scope_of(p, st.synchronicity),
                    element_lanes: lanes_for(st.throughput.0, st.throughput.1),
                    user: u,
                },
            ),
        },
    }
}

/// The field named `n` among `f`, if any.
pub open spec fn field_of(f: Seq<(Seq<char>, RefView)>, n: Seq<char>) -> Option<RefView> {
    if has_name(f, n) {
        Some(f[choose|j: int| 0 <= j < f.len() && #[trigger] f[j].0 == n].1)
    } else {
        None
    }
}

/// The physical stream reached by following `path` from `r`: a selection
/// enters the named field of a group or union of the same kind, no
/// selection enters the data of a stream or the child of a scope; the end
/// must be a physical stream.
pub open spec fn walk(r: RefView, path: Seq<Option<SelectView>>) -> Option<StreamRefView>
    decreases path.len(),
{
    if path.len() == 0 {
        match r {
            RefView::Stream(s) => Some(s),
            _ => None,
        }
    } else {
        match path[0] {
            Some(sel) => match (r, sel) {
                (RefView::Element(ElementRefView::Group(f)), SelectView::Group(n)) => match field_of(f, n) {
                    Some(c) => walk(c, path.drop_first()),
                    None => None,
                },
                (RefView::Element(ElementRefView::Union(f)), SelectView::Union(n)) => match field_of(f, n) {
                    Some(c) => walk(c, path.drop_first()),
                    None => None,
                },
                _ => None,
            },
            None => match r {
                RefView::Stream(s) => walk(*s.data, path.drop_first()),
                RefView::Scope(_, c) => walk(*c, path.drop_first()),
                RefView::Element(_) => None,
            },
        }
    }
}

/// The last name of a field path.
fn field_name(p: &PathName) -> (r: Name)
    requires
        p@.len() > 0,
    ensures
        r@ == p@.last(),
{
    p.last().unwrap().clone()
}

proof fn lemma_ref_entries_push(s: Seq<(Name, TypeReference)>, e: (Name, TypeReference))
    ensures
        ref_entries_view(s.push(e)) == ref_entries_view(s).push((e.0@, e.1@)),
{
    assert(s.push(e).drop_last() =~= s);
}

/// A name can be added to a field map exactly when no field has it yet.
proof fn lemma_name_key(s: Seq<(Name, TypeReference)>, n: Name)
    ensures
        (forall|i: int| 0 <= i < s.len() ==> #[trigger] s[i].0.key() != n.key()) <==> !has_name(
            ref_entries_view(s),
            n@,
        ),
{
    lemma_ref_entries(s);
    let v = ref_entries_view(s);
    if exists|i: int| 0 <= i < s.len() && #[trigger] s[i].0.key() == n.key() {
        let i = choose|i: int| 0 <= i < s.len() && #[trigger] s[i].0.key() == n.key();
        assert(seq![s[i].0@][0] == seq![n@][0]);
        assert(v[i].0 == n@);
    }
    if has_name(v, n@) {
        let j = choose|j: int| 0 <= j < v.len() && #[trigger] v[j].0 == n@;
        assert(s[j].0.key() =~= n.key());
    }
}

/// Once a prefix of the fields fails, all of them fail the same way.
proof fn lemma_element_fields_err(f: Seq<(Seq<Seq<char>>, TypeView)>, k: int)
    requires
        0 <= k <= f.len(),
        element_fields(f.take(k)) is Err,
    ensures
        element_fields(f) == element_fields(f.take(k)),
    decreases f.len() - k,
{
    if k < f.len() {
        assert(f.take(k + 1).drop_last() =~= f.take(k));
        lemma_element_fields_err(f, k + 1);
    } else {
        assert(f.take(k) =~= f);
    }
}

/// The element references of a field list (see `element_fields`).
fn element_field_refs(fields: &Vec<(PathName, LogicalType)>) -> (r: Result<
    InsertionOrderedMap<Name, TypeReference>,
    Error,
>)
    requires
        field_paths_named(fields@),
    ensures
        match element_fields(fields_view(fields@)) {
            Ok(v) => r matches Ok(m) && ref_entries_view(m.entries()) == v,
            Err(x) => r matches Err(e) && fails_as(e, x),
        },
    decreases fields,
{
    let ghost f = fields_view(fields@);
    proof {
        lemma_field_list(fields@);
        assert(f.take(0) =~= Seq::<(Seq<Seq<char>>, TypeView)>::empty());
    }
    let mut m: InsertionOrderedMap<Name, TypeReference> = InsertionOrderedMap::new();
    let mut i: usize = 0;
    while i < fields.len()
        invariant
            i <= fields@.len(),
            field_paths_named(fields@),
            f == fields_view(fields@),
            f.len() == fields@.len(),
            forall|j: int| 0 <= j < fields@.len() ==> #[trigger] f[j] == (fields@[j].0@, fields@[j].1@),
            element_fields(f.take(i as int)) == Ok::<Seq<(Seq<char>, RefView)>, Failure>(
                ref_entries_view(m.entries()),
            ),
        decreases fields@.len() - i,
    {
        proof {
            assert(decreases_to!(fields => fields@));
            assert(decreases_to!(fields@ => fields@[i as int]));
            assert(decreases_to!(fields@[i as int] => fields@[i as int].1));
            assert(f.take(i + 1).drop_last() =~= f.take(i as int));
            assert(f.take(i + 1)[i as int] == f[i as int]);
        }
        let sub = match ElementManipulatingReference::from_logical_type_id(&fields[i].1) {
            Ok(x) => x,
            Err(e) => {
                proof {
                    lemma_element_fields_err(f, i + 1);
                }
                return Err(e);
            },
        };
        let name = field_name(&fields[i].0);
        let ghost before = m.entries();
        let ghost entry = (name, TypeReference::ElementManipulating(sub));
        proof {
            lemma_name_key(before, name);
            lemma_ref_view(entry.1);
        }
        match m.try_insert(name, TypeReference::ElementManipulating(sub)) {
            Ok(()) => {},
            Err(e) => {
                proof {
                    lemma_element_fields_err(f, i + 1);
                }
                return Err(e);
            },
        }
        proof {
            lemma_ref_entries_push(before, entry);
        }
        i = i + 1;
    }
    proof {
        assert(f.take(fields@.len() as int) =~= f);
    }
    Ok(m)
}

impl ElementManipulatingReference {
    /// The element reference of a type (see `element_ref`): an
    /// `InvalidArgument` error where the type holds a stream.
    pub fn from_logical_type_id(logical_type: &LogicalType) -> (r: Result<
        ElementManipulatingReference,
        Error,
    >)
        ensures
            match element_ref(logical_type@) {
                Ok(v) => r matches Ok(x) && x@ == v,
                Err(f) => r matches Err(e) && fails_as(e, f),
            },
        decreases logical_type,
    {
        proof {
            lemma_type_view(*logical_type);
        }
        match logical_type {
            LogicalType::Null => Ok(ElementManipulatingReference::Null),
            LogicalType::Bits(b) => Ok(ElementManipulatingReference::Bits(*b)),
            LogicalType::Group(g) => {
                proof {
                    use_type_invariant(g);
                    g.lemma_spec_fields();
                    assert(decreases_to!(*logical_type => *g));
                    assert(decreases_to!(*g => g.fields));
                }
                match element_field_refs(&g.fields) {
                    Ok(m) => {
                        let r = ElementManipulatingReference::Group(m);
                        proof {
                            lemma_element_ref_view(r);
                        }
                        Ok(r)
                    },
                    Err(e) => Err(e),
                }
            },
            LogicalType::Union(g) => {
                proof {
                    use_type_invariant(g);
                    g.lemma_spec_fields();
                    assert(decreases_to!(*logical_type => *g));
                    assert(decreases_to!(*g => g.fields));
                }
                match element_field_refs(&g.fields) {
                    Ok(m) => {
                        let r = ElementManipulatingReference::Union(m);
                        proof {
                            lemma_element_ref_view(r);
                        }
                        Ok(r)
                    },
                    Err(e) => Err(e),
                }
            },
            LogicalType::Stream(_) => Err(
                crate::error::invalid_argument(
                    "The user signal should only carry element-manipulating types",
                ),
            ),
        }
    }
}

/// The model of a hierarchy's field map, entry by entry.
pub proof fn lemma_hier_entries(s: Seq<(PathName, TypeHierarchy)>)
    ensures
        hier_entries_view(s).len() == s.len(),
        forall|i: int| 0 <= i < s.len() ==> #[trigger] hier_entries_view(s)[i] == (s[i].0@, s[i].1@),
    decreases s.len(),
{
    if s.len() > 0 {
        lemma_hier_entries(s.drop_last());
        assert forall|i: int| 0 <= i < s.len() implies #[trigger] hier_entries_view(s)[i] == (
            s[i].0@,
            s[i].1@,
        ) by {
            if i < s.len() - 1 {
                assert(s.drop_last()[i] == s[i]);
            }
        }
    }
}

/// The fields of a hierarchy are named when each of them is.
pub proof fn lemma_hier_fields_named(f: Seq<(Seq<Seq<char>>, HierarchyView)>)
    ensures
        hier_fields_named(f) <==> forall|i: int|
            0 <= i < f.len() ==> #[trigger] f[i].0.len() > 0 && hier_named(f[i].1),
    decreases f.len(),
{
    if f.len() > 0 {
        lemma_hier_fields_named(f.drop_last());
        if hier_fields_named(f) {
            assert forall|i: int| 0 <= i < f.len() implies #[trigger] f[i].0.len() > 0 && hier_named(
                f[i].1,
            ) by {
                if i < f.len() - 1 {
                    assert(f.drop_last()[i] == f[i]);
                }
            }
        }
        if forall|i: int| 0 <= i < f.len() ==> #[trigger] f[i].0.len() > 0 && hier_named(f[i].1) {
            assert forall|i: int| 0 <= i < f.len() - 1 implies #[trigger] f.drop_last()[i].0.len() > 0
                && hier_named(f.drop_last()[i].1) by {
                assert(f.drop_last()[i] == f[i]);
                assert(f[i].0.len() > 0 && hier_named(f[i].1));
            }
            assert(f[f.len() - 1].0.len() > 0 && hier_named(f[f.len() - 1].1));
        }
    }
}

/// Once a prefix of the fields fails, all of them fail the same way.
proof fn lemma_collect_fields_err(
    streams: Seq<(Seq<Seq<char>>, StreamView)>,
    f: Seq<(Seq<Seq<char>>, HierarchyView)>,
    k: int,
)
    requires
        0 <= k <= f.len(),
        collect_fields(streams, f.take(k)) is Err,
    ensures
        collect_fields(streams, f) == collect_fields(streams, f.take(k)),
    decreases f.len() - k,
{
    if k < f.len() {
        assert(f.take(k + 1).drop_last() =~= f.take(k));
        lemma_collect_fields_err(streams, f, k + 1);
    } else {
        assert(f.take(k) =~= f);
    }
}

/// The references of the fields of a group or union of a hierarchy (see
/// `collect_fields`).
#[verifier::spinoff_prover]
#[verifier::rlimit(40)]
fn collect_field_refs(
    split_streams: &SplitStreams,
    fields: &InsertionOrderedMap<PathName, TypeHierarchy>,
) -> (r: Result<InsertionOrderedMap<Name, TypeReference>, Error>)
    requires
        hier_fields_named(hier_entries_view(fields.entries())),
    ensures
        match collect_fields(split_streams@.streams, hier_entries_view(fields.entries())) {
            Ok(v) => r matches Ok(m) && ref_entries_view(m.entries()) == v,
            Err(x) => r matches Err(e) && fails_as(e, x),
        },
    decreases fields, 0int,
{
    let ghost f = hier_entries_view(fields.entries());
    let ghost streams = split_streams@.streams;
    proof {
        lemma_hier_entries(fields.entries());
        lemma_hier_fields_named(f);
        assert(f.take(0) =~= Seq::<(Seq<Seq<char>>, HierarchyView)>::empty());
    }
    let mut m: InsertionOrderedMap<Name, TypeReference> = InsertionOrderedMap::new();
    let mut i: usize = 0;
    while i < fields.len()
        invariant
            i <= fields.entries().len(),
            streams == split_streams@.streams,
            f == hier_entries_view(fields.entries()),
            f.len() == fields.entries().len(),
            forall|j: int|
                0 <= j < fields.entries().len() ==> #[trigger] f[j] == (
                    fields.entries()[j].0@,
                    fields.entries()[j].1@,
                ),
            forall|j: int| 0 <= j < f.len() ==> #[trigger] f[j].0.len() > 0 && hier_named(f[j].1),
            collect_fields(streams, f.take(i as int)) == Ok::<Seq<(Seq<char>, RefView)>, Failure>(
                ref_entries_view(m.entries()),
            ),
        decreases fields.entries().len() - i,
    {
        proof {
            fields.lemma_entries_decrease();
            assert(decreases_to!(fields.entries() => fields.entries()[i as int]));
            assert(decreases_to!(fields.entries()[i as int] => fields.entries()[i as int].1));
            assert(f.take(i + 1).drop_last() =~= f.take(i as int));
            assert(f.take(i + 1)[i as int] == f[i as int]);
            assert(f[i as int].0.len() > 0 && hier_named(f[i as int].1));
        }
        let path = fields.key_at(i);
        let sub = match TypeReference::collect_reference_from_split_streams(
            split_streams,
            fields.value_at(i),
            path,
        ) {
            Ok(x) => x,
            Err(e) => {
                proof {
                    lemma_collect_fields_err(streams, f, i + 1);
                }
                return Err(e);
            },
        };
        let name = field_name(path);
        let ghost before = m.entries();
        let ghost entry = (name, sub);
        proof {
            lemma_name_key(before, name);
        }
        match m.try_insert(name, sub) {
            Ok(()) => {},
            Err(e) => {
                proof {
                    lemma_collect_fields_err(streams, f, i + 1);
                }
                return Err(e);
            },
        }
        proof {
            lemma_ref_entries_push(before, entry);
        }
        i = i + 1;
    }
    proof {
        assert(f.take(fields.entries().len() as int) =~= f);
    }
    Ok(m)
}

/// The stream stored under `path` in the split streams, as `stream_at`
/// finds it.
fn find_stream<'a>(split_streams: &'a SplitStreams, path: &PathName) -> (r: Option<&'a Stream>)
    ensures
        match stream_at(split_streams@.streams, path@) {
            Some(st) => r matches Some(x) && x@ == st,
            None => r is None,
        },
{
    let streams = split_streams.streams_map();
    streams.lemma_distinct();
    let ghost e = streams.entries();
    let ghost sv = split_streams@.streams;
    proof {
        assert(sv.len() == e.len());
        assert(forall|j: int| 0 <= j < e.len() ==> #[trigger] sv[j] == (e[j].0@, e[j].1@));
    }
    let r = streams.get(path);
    proof {
        match r {
            Some(x) => {
                let i = choose|i: int|
                    0 <= i < e.len() && #[trigger] e[i].0.key() == path.key() && e[i].1 == *x;
                assert(sv[i].0 == path@);
                let j = choose|j: int| 0 <= j < sv.len() && #[trigger] sv[j].0 == path@;
                if j != i {
                    assert(e[j].0.key() != e[i].0.key());
                }
            },
            None => {
                assert forall|j: int| 0 <= j < sv.len() implies #[trigger] sv[j].0 != path@ by {
                    assert(e[j].0.key() != path.key());
                }
            },
        }
    }
    r
}

impl TypeReference {
    /// The reference of `hierarchy` at `path_name`, given the streams that
    /// splitting the type gave (see `collect`).
    pub fn collect_reference_from_split_streams(
        split_streams: &SplitStreams,
        hierarchy: &TypeHierarchy,
        path_name: &PathName,
    ) -> (r: Result<TypeReference, Error>)
        requires
            hier_named(hierarchy@),
        ensures
            match collect(split_streams@.streams, hierarchy@, path_name@) {
                Ok(v) => r matches Ok(x) && x@ == v,
                Err(f) => r matches Err(e) && fails_as(e, f),
            },
        decreases hierarchy, 1int,
    {
        match hierarchy {
            TypeHierarchy::Null => {
                let r = TypeReference::ElementManipulating(ElementManipulatingReference::Null);
                proof {
                    lemma_ref_view(r);
                    lemma_element_ref_view(ElementManipulatingReference::Null);
                }
                Ok(r)
            },
            TypeHierarchy::Bits(n) => {
                let e = ElementManipulatingReference::Bits(*n);
                proof {
                    lemma_element_ref_view(e);
                }
                let r = TypeReference::ElementManipulating(e);
                proof {
                    lemma_ref_view(r);
                }
                Ok(r)
            },
            TypeHierarchy::Group(fields) => match collect_field_refs(split_streams, fields) {
                Ok(m) => {
                    let e = ElementManipulatingReference::Group(m);
                    proof {
                        lemma_element_ref_view(e);
                    }
                    let r = TypeReference::ElementManipulating(e);
                    proof {
                        lemma_ref_view(r);
                    }
                    Ok(r)
                },
                Err(e) => Err(e),
            },
            TypeHierarchy::Union(fields) => match collect_field_refs(split_streams, fields) {
                Ok(m) => {
                    let e = ElementManipulatingReference::Union(m);
                    proof {
                        lemma_element_ref_view(e);
                    }
                    let r = TypeReference::ElementManipulating(e);
                    proof {
                        lemma_ref_view(r);
                    }
                    Ok(r)
                },
                Err(e) => Err(e),
            },
            TypeHierarchy::Stream(d) => match find_stream(split_streams, path_name) {
                Some(st) => match StreamReference::from_stream_id(
                    st,
                    path_name,
                    split_streams,
                    &**d,
                ) {
                    Ok(s) => {
                        let r = TypeReference::Stream(s);
                        proof {
                            lemma_ref_view(r);
                        }
                        Ok(r)
                    },
                    Err(e) => Err(e),
                },
                None => match TypeReference::collect_reference_from_split_streams(
                    split_streams,
                    &**d,
                    path_name,
                ) {
                    Ok(c) => {
                        let r = TypeReference::ScopeStream(
                            ScopeStream::new(path_name.clone(), Box::new(c)),
                        );
                        proof {
                            lemma_ref_view(r);
                        }
                        Ok(r)
                    },
                    Err(e) => Err(e),
                },
            },
        }
    }
}

impl StreamReference {
    /// The reference of the physical stream `stream` at `path_name`, whose
    /// data has the hierarchy `hierarchy` (see `stream_ref`).
    pub fn from_stream_id(
        stream: &Stream,
        path_name: &PathName,
        split_streams: &SplitStreams,
        hierarchy: &TypeHierarchy,
    ) -> (r: Result<StreamReference, Error>)
        requires
            hier_named(hierarchy@),
        ensures
            match stream_ref(split_streams@.streams, stream@, path_name@, hierarchy@) {
                Ok(v) => r matches Ok(x) && x@ == v,
                Err(f) => r matches Err(e) && fails_as(e, f),
            },
        decreases hierarchy, 2int,
    {
        let physical_stream = path_name.clone();
        let direction = stream.direction();
        let complexity = stream.complexity().clone();
        let dimensionality = stream.dimensionality().clone();
        let transfer_scope = if path_name.is_empty() {
            TransferScope::Root
        } else {
            match stream.synchronicity() {
                Synchronicity::Sync | Synchronicity::Flatten => TransferScope::Sync(
                    PathName::new_name(path_name.root().unwrap()),
                ),
                Synchronicity::Desync | Synchronicity::FlatDesync => TransferScope::Root,
            }
        };
        let element_lanes = stream.throughput().positive();
        let user = match ElementManipulatingReference::from_logical_type_id(stream.user()) {
            Ok(u) => u,
            Err(e) => {
                return Err(e);
            },
        };
        let data = match TypeReference::collect_reference_from_split_streams(
            split_streams,
            hierarchy,
            path_name,
        ) {
            Ok(d) => d,
            Err(e) => {
                return Err(e);
            },
        };
        Ok(
            StreamReference {
                physical_stream,
                data: Box::new(data),
                direction,
                complexity,
                dimensionality,
                transfer_scope,
                element_lanes,
                user,
            },
        )
    }

    /// The path of the physical stream.
    pub fn physical_stream(&self) -> (r: &PathName)
        ensures
            r@ == self@.physical_stream,
    {
        &self.physical_stream
    }

    /// What the data of the stream refers to.
    pub fn data(&self) -> (r: &TypeReference)
        ensures
            r@ == *self@.data,
    {
        &self.data
    }

    pub fn direction(&self) -> (r: Direction)
        ensures
            r == self@.direction,
    {
        self.direction
    }

    pub fn complexity(&self) -> (r: &Complexity)
        ensures
            r@ == self@.complexity,
    {
        &self.complexity
    }

    pub fn dimensionality(&self) -> (r: &GenericProperty)
        ensures
            r@ == self@.dimensionality,
    {
        &self.dimensionality
    }

    pub fn transfer_scope(&self) -> (r: &TransferScope)
        ensures
            r@ == self@.transfer_scope,
    {
        &self.transfer_scope
    }

    pub fn element_lanes(&self) -> (r: Positive)
        ensures
            r.spec_value() == self@.element_lanes,
    {
        self.element_lanes
    }

    pub fn user(&self) -> (r: &ElementManipulatingReference)
        ensures
            r@ == self@.user,
    {
        &self.user
    }
}

impl ScopeStream {
    pub fn new(name: PathName, child: Box<TypeReference>) -> (r: ScopeStream)
        ensures
            r@ == (name@, child@),
    {
        ScopeStream { name, child }
    }

    pub fn name(&self) -> (r: &PathName)
        ensures
            r@ == self@.0,
    {
        &self.name
    }

    pub fn child(&self) -> (r: &TypeReference)
        ensures
            r@ == self@.1,
    {
        &self.child
    }
}

fn clone_entries(m: &InsertionOrderedMap<Name, TypeReference>) -> (r: InsertionOrderedMap<
    Name,
    TypeReference,
>)
    ensures
        ref_entries_view(r.entries()) == ref_entries_view(m.entries()),
    decreases m, 0int,
{
    m.lemma_distinct();
    let ghost e = m.entries();
    proof {
        lemma_ref_entries(e);
        assert(e.take(0) =~= Seq::<(Name, TypeReference)>::empty());
    }
    let mut out: InsertionOrderedMap<Name, TypeReference> = InsertionOrderedMap::new();
    let mut i: usize = 0;
    while i < m.len()
        invariant
            i <= e.len(),
            e == m.entries(),
            crate::ordered_map::keys_distinct(e),
            out.entries().len() == i,
            forall|j: int| 0 <= j < i ==> #[trigger] out.entries()[j].0 == e[j].0,
            ref_entries_view(out.entries()) == ref_entries_view(e.take(i as int)),
        decreases e.len() - i,
    {
        proof {
            m.lemma_entries_decrease();
            assert(decreases_to!(m.entries() => m.entries()[i as int]));
            assert(decreases_to!(m.entries()[i as int] => m.entries()[i as int].1));
        }
        let n = m.key_at(i).clone();
        let v = clone_ref(m.value_at(i));
        let ghost before = out.entries();
        let ghost entry = (n, v);
        proof {
            assert forall|j: int| 0 <= j < before.len() implies #[trigger] before[j].0.key()
                != n.key() by {
                assert(before[j].0 == e[j].0);
            }
        }
        let res = out.try_insert(n, v);
        assert(res is Ok);
        proof {
            lemma_ref_entries_push(before, entry);
            lemma_ref_entries_push(e.take(i as int), e[i as int]);
            assert(e.take(i + 1) =~= e.take(i as int).push(e[i as int]));
        }
        i = i + 1;
    }
    proof {
        assert(e.take(e.len() as int) =~= e);
    }
    out
}

fn clone_element(e: &ElementManipulatingReference) -> (r: ElementManipulatingReference)
    ensures
        r@ == e@,
    decreases e, 1int,
{
    proof {
        lemma_element_ref_view(*e);
    }
    let r = match e {
        ElementManipulatingReference::Null => ElementManipulatingReference::Null,
        ElementManipulatingReference::Bits(b) => ElementManipulatingReference::Bits(*b),
        ElementManipulatingReference::Group(m) => ElementManipulatingReference::Group(
            clone_entries(m),
        ),
        ElementManipulatingReference::Union(m) => ElementManipulatingReference::Union(
            clone_entries(m),
        ),
    };
    proof {
        lemma_element_ref_view(r);
    }
    r
}

fn clone_stream(s: &StreamReference) -> (r: StreamReference)
    ensures
        r@ == s@,
    decreases s, 1int,
{
    StreamReference {
        physical_stream: s.physical_stream.clone(),
        data: Box::new(clone_ref(&s.data)),
        direction: s.direction,
        complexity: s.complexity.clone(),
        dimensionality: s.dimensionality.clone(),
        transfer_scope: s.transfer_scope.clone(),
        element_lanes: s.element_lanes,
        user: clone_element(&s.user),
    }
}

fn clone_ref(t: &TypeReference) -> (r: TypeReference)
    ensures
        r@ == t@,
    decreases t, 1int,
{
    let r = match t {
        TypeReference::ElementManipulating(e) => TypeReference::ElementManipulating(
            clone_element(e),
        ),
        TypeReference::Stream(s) => TypeReference::Stream(clone_stream(s)),
        TypeReference::ScopeStream(s) => TypeReference::ScopeStream(
            ScopeStream { name: s.name.clone(), child: Box::new(clone_ref(&s.child)) },
        ),
    };
    proof {
        lemma_ref_view(*t);
        lemma_ref_view(r);
    }
    r
}

impl Clone for TypeReference {
    fn clone(&self) -> (r: Self)
        ensures
            r@ == self@,
    {
        clone_ref(self)
    }
}

impl Clone for ElementManipulatingReference {
    fn clone(&self) -> (r: Self)
        ensures
            r@ == self@,
    {
        clone_element(self)
    }
}

impl Clone for StreamReference {
    fn clone(&self) -> (r: Self)
        ensures
            r@ == self@,
    {
        clone_stream(self)
    }
}

impl Clone for ScopeStream {
    fn clone(&self) -> (r: Self)
        ensures
            r@ == self@,
    {
        ScopeStream { name: self.name.clone(), child: Box::new(clone_ref(&self.child)) }
    }
}

/// A transfer scope in words: `Root`, or `Sync(path)`.
pub open spec fn scope_text(s: ScopeView) -> Seq<char> {
    match s {
        ScopeView::Root => "Root"@,
        ScopeView::Sync(p) => "Sync("@ + join_spec(p, "__"@) + ")"@,
    }
}

/// A reference in words: elements as `element_ref_text` gives them,
/// streams as `stream_ref_text` gives them, and a scope as `Scope (`, its
/// name and child indented by two spaces, and `)`.
pub open spec fn ref_text_spec(r: RefView) -> Seq<char>
    decreases r,
{
    match r {
        RefView::Element(e) => element_ref_text(e),
        RefView::Stream(s) => stream_ref_text(s),
        RefView::Scope(n, c) => "Scope (\n"@ + indented(
            "name:  "@ + join_spec(n, "__"@) + ",\nchild: "@ + ref_text_spec(*c),
            "  "@,
        ) + "\n)"@,
    }
}

/// An element reference in words: `Null`, `Bits(n)`, or a group or union
/// with its fields (see `entries_text_spec`) indented by two spaces.
pub open spec fn element_ref_text(e: ElementRefView) -> Seq<char>
    decreases e,
{
    match e {
        ElementRefView::Null => "Null"@,
        ElementRefView::Bits(b) => "Bits("@ + decimal_spec(b as nat) + ")"@,
        ElementRefView::Group(fs) => "Group (\n"@ + indented(entries_text_spec(fs), "  "@) + ")"@,
        ElementRefView::Union(fs) => "Union (\n"@ + indented(entries_text_spec(fs), "  "@) + ")"@,
    }
}

/// Fields in words, one `name: reference` line each.
pub open spec fn entries_text_spec(fs: Seq<(Seq<char>, RefView)>) -> Seq<char>
    decreases fs,
{
    if fs.len() == 0 {
        Seq::empty()
    } else {
        entries_text_spec(fs.drop_last()) + fs.last().0 + ": "@ + ref_text_spec(fs.last().1) + "\n"@
    }
}

/// A stream reference in words: `Stream (`, its properties one per line
/// indented by two spaces, and `)`.
pub open spec fn stream_ref_text(s: StreamRefView) -> Seq<char>
    decreases s,
{
    "Stream (\n"@ + indented(
        "physical_stream: "@ + join_spec(s.physical_stream, "__"@) + ",\ndata: "@ + ref_text_spec(
            *s.data,
        ) + ",\ndirection: "@ + match s.direction {
            Direction::Forward => "Forward"@,
            Direction::Reverse => "Reverse"@,
        } + ",\ncomplexity: "@ + join_spec(
            s.complexity.map_values(|l: u32| decimal_spec(l as nat)),
            "."@,
        ) + ",\ndimensionality: "@ + property_text(s.dimensionality) + ",\ntransfer_scope: "@
            + scope_text(s.transfer_scope) + ",\nelement_lanes: "@ + decimal_spec(
            s.element_lanes as nat,
        ) + ",\nuser: "@ + element_ref_text(s.user),
        "  "@,
    ) + "\n)"@
}

fn entries_text(m: &InsertionOrderedMap<Name, TypeReference>) -> (r: String)
    ensures
        r@ == entries_text_spec(ref_entries_view(m.entries())),
    decreases m, 0int,
{
    let ghost fs = ref_entries_view(m.entries());
    let mut r = String::new();
    let mut i: usize = 0;
    proof {
        lemma_ref_entries(m.entries());
        assert(fs.take(0) =~= Seq::<(Seq<char>, RefView)>::empty());
    }
    while i < m.len()
        invariant
            i <= m.entries().len(),
            fs == ref_entries_view(m.entries()),
            fs.len() == m.entries().len(),
            forall|k: int| 0 <= k < m.entries().len() ==> #[trigger] fs[k] == (
                m.entries()[k].0@,
                m.entries()[k].1@,
            ),
            r@ == entries_text_spec(fs.take(i as int)),
        decreases m.entries().len() - i,
    {
        proof {
            m.lemma_entries_decrease();
            assert(decreases_to!(m.entries() => m.entries()[i as int]));
            assert(decreases_to!(m.entries()[i as int] => m.entries()[i as int].1));
        }
        let t = ref_text(m.value_at(i));
        r.append(m.key_at(i).as_str());
        r.append(": ");
        r.append(t.as_str());
        r.append("\n");
        proof {
            assert(fs.take(i + 1).drop_last() =~= fs.take(i as int));
            assert(fs.take(i + 1).last() == fs[i as int]);
            assert(r@ =~= entries_text_spec(fs.take(i + 1)));
        }
        i = i + 1;
    }
    proof {
        assert(fs.take(fs.len() as int) =~= fs);
    }
    r
}

fn element_text(e: &ElementManipulatingReference) -> (r: String)
    ensures
        r@ == element_ref_text(e@),
    decreases e, 1int,
{
    match e {
        ElementManipulatingReference::Null => String::from_str("Null"),
        ElementManipulatingReference::Bits(b) => {
            let n = decimal(b.get() as u64);
            let mut r = String::from_str("Bits(");
            r.append(n.as_str());
            r.append(")");
            r
        },
        ElementManipulatingReference::Group(m) => {
            let body = entries_text(m);
            let inner = indent(body.as_str(), "  ");
            let mut r = String::from_str("Group (\n");
            r.append(inner.as_str());
            r.append(")");
            r
        },
        ElementManipulatingReference::Union(m) => {
            let body = entries_text(m);
            let inner = indent(body.as_str(), "  ");
            let mut r = String::from_str("Union (\n");
            r.append(inner.as_str());
            r.append(")");
            r
        },
    }
}

fn stream_text(s: &StreamReference) -> (r: String)
    ensures
        r@ == stream_ref_text(s@),
    decreases s, 1int,
{
    let path = s.physical_stream.text();
    let data = ref_text(&s.data);
    let complexity = s.complexity.to_text();
    let dimensionality = s.dimensionality.text();
    let scope = s.transfer_scope.text();
    let lanes = decimal(s.element_lanes.get() as u64);
    let user = element_text(&s.user);
    let mut body = String::from_str("physical_stream: ");
    body.append(path.as_str());
    body.append(",\ndata: ");
    body.append(data.as_str());
    body.append(",\ndirection: ");
    body.append(s.direction.text());
    body.append(",\ncomplexity: ");
    body.append(complexity.as_str());
    body.append(",\ndimensionality: ");
    body.append(dimensionality.as_str());
    body.append(",\ntransfer_scope: ");
    body.append(scope.as_str());
    body.append(",\nelement_lanes: ");
    body.append(lanes.as_str());
    body.append(",\nuser: ");
    body.append(user.as_str());
    let inner = indent(body.as_str(), "  ");
    let mut r = String::from_str("Stream (\n");
    r.append(inner.as_str());
    r.append("\n)");
    r
}

/// A scope named `name` around the reference `child`, in words.
fn scope_text_of(name: &PathName, child: &TypeReference) -> (r: String)
    ensures
        r@ == ref_text_spec(RefView::Scope(name@, Box::new(child@))),
    decreases child, 2int,
{
    let n = name.text();
    let c = ref_text(child);
    let mut body = String::from_str("name:  ");
    body.append(n.as_str());
    body.append(",\nchild: ");
    body.append(c.as_str());
    let inner = indent(body.as_str(), "  ");
    let mut r = String::from_str("Scope (\n");
    r.append(inner.as_str());
    r.append("\n)");
    r
}

fn ref_text(t: &TypeReference) -> (r: String)
    ensures
        r@ == ref_text_spec(t@),
    decreases t, 1int,
{
    match t {
        TypeReference::ElementManipulating(e) => element_text(e),
        TypeReference::Stream(s) => stream_text(s),
        TypeReference::ScopeStream(s) => {
            proof {
                assert(decreases_to!(*t => (*t)->ScopeStream_0));
                assert(decreases_to!(*s => s.child));
            }
            scope_text_of(&s.name, &s.child)
        },
    }
}

/// The text `a`, `b` and `c` make together, as `concat` builds it.
fn concat3(a: &str, b: &str, c: &str) -> (r: String)
    ensures
        r@ == a@ + b@ + c@,
{
    let parts = [a, b, c];
    let r = concat(&parts);
    proof {
        let v = parts@.map_values(|p: &str| p@);
        assert(v =~= seq![a@, b@, c@]);
        assert(v.drop_last().drop_last() =~= seq![a@]);
        assert(v.drop_last().drop_last().drop_last() =~= Seq::<Seq<char>>::empty());
        reveal_with_fuel(crate::messages::concat_spec, 4);
    }
    r
}

impl TransferScope {
    /// `Root`, or `Sync(path)`.
    pub fn text(&self) -> (r: String)
        ensures
            r@ == scope_text(self@),
    {
        match self {
            TransferScope::Root => String::from_str("Root"),
            TransferScope::Sync(p) => {
                let t = p.text();
                concat3("Sync(", t.as_str(), ")")
            },
        }
    }
}

impl FieldSelect {
    /// `Group Field (name)` or `Union Field (name)`.
    pub fn text(&self) -> (r: String)
        ensures
            r@ == match self@ {
                SelectView::Group(n) => "Group Field ("@ + n + ")"@,
                SelectView::Union(n) => "Union Field ("@ + n + ")"@,
            },
    {
        match self {
            FieldSelect::Group(n) => concat3("Group Field (", n.as_str(), ")"),
            FieldSelect::Union(n) => concat3("Union Field (", n.as_str(), ")"),
        }
    }
}

impl ElementManipulatingReference {
    /// The reference in words, fields indented under their group or union
    /// (see `element_ref_text`).
    pub fn text(&self) -> (r: String)
        ensures
            r@ == element_ref_text(self@),
    {
        element_text(self)
    }
}

impl TypeReference {
    /// The reference in words (see `ref_text_spec`).
    pub fn text(&self) -> (r: String)
        ensures
            r@ == ref_text_spec(self@),
    {
        ref_text(self)
    }
}

impl StreamReference {
    /// The stream reference in words, its properties indented (see
    /// `stream_ref_text`).
    pub fn text(&self) -> (r: String)
        ensures
            r@ == stream_ref_text(self@),
    {
        stream_text(self)
    }
}

impl ScopeStream {
    /// The scope in words, its name and child indented (see
    /// `ref_text_spec`).
    pub fn text(&self) -> (r: String)
        ensures
            r@ == ref_text_spec(RefView::Scope(self@.0, Box::new(self@.1))),
    {
        let name = self.name.text();
        let child = ref_text(&self.child);
        let mut body = String::from_str("name:  ");
        body.append(name.as_str());
        body.append(",\nchild: ");
        body.append(child.as_str());
        let inner = indent(body.as_str(), "  ");
        let mut r = String::from_str("Scope (\n");
        r.append(inner.as_str());
        r.append("\n)");
        r
    }
}

/// The model of a selection path.
pub open spec fn select_path(p: Seq<Option<FieldSelect>>) -> Seq<Option<SelectView>> {
    p.map_values(
        |o: Option<FieldSelect>|
            match o {
                Some(f) => Some(f@),
                None => None,
            },
    )
}

/// The field of `m` named `n`, as `field_of` finds it.
fn field_ref<'a>(m: &'a InsertionOrderedMap<Name, TypeReference>, n: &Name) -> (r: Option<
    &'a TypeReference,
>)
    ensures
        match field_of(ref_entries_view(m.entries()), n@) {
            Some(v) => r matches Some(x) && x@ == v,
            None => r is None,
        },
{
    m.lemma_distinct();
    let ghost e = m.entries();
    let ghost v = ref_entries_view(e);
    proof {
        lemma_ref_entries(e);
    }
    let r = m.get(n);
    proof {
        match r {
            Some(x) => {
                let i = choose|i: int|
                    0 <= i < e.len() && #[trigger] e[i].0.key() == n.key() && e[i].1 == *x;
                assert(seq![e[i].0@][0] == seq![n@][0]);
                assert(v[i].0 == n@);
                assert(has_name(v, n@));
                let j = choose|j: int| 0 <= j < v.len() && #[trigger] v[j].0 == n@;
                if j != i {
                    assert(e[j].0.key() =~= e[i].0.key());
                }
            },
            None => {
                assert forall|j: int| 0 <= j < v.len() implies #[trigger] v[j].0 != n@ by {
                    if v[j].0 == n@ {
                        assert(e[j].0.key() =~= n.key());
                    }
                }
            },
        }
    }
    r
}

/// A field selection in words: `Group Field (a)` or `Union Field (b)`.
pub open spec fn select_text(s: SelectView) -> Seq<char> {
    match s {
        SelectView::Group(n) => "Group Field ("@ + n + ")"@,
        SelectView::Union(n) => "Union Field ("@ + n + ")"@,
    }
}

/// A scope entered on a path in words: `Scope (name)`.
pub open spec fn scope_step_text(name: Seq<Seq<char>>) -> Seq<char> {
    "Scope ("@ + join_spec(name, "__"@) + ")"@
}

/// Why following `path` from `r` finds no physical stream, where `at` are
/// the steps taken so far (joined by ` -> ` as the location): a field
/// selected on a type without fields, on a stream, or on a field that does
/// not exist; a group field selected on a union or the other way round; a
/// stream entered on an element type; or, at the end of the path, a type
/// that is not a stream.
pub open spec fn walk_message(r: RefView, path: Seq<Option<SelectView>>, at: Seq<Seq<char>>) -> Seq<char>
    decreases path.len(),
{
    let loc = join_spec(at, " -> "@);
    if path.len() == 0 {
        "There is no physical stream for path "@ + loc + ", found a "@ + ref_text_spec(r)
    } else {
        match path[0] {
            Some(sel) => match r {
                RefView::Element(ElementRefView::Null) => "Path refers to a field, but found a Null type at this location: "@
                    + loc,
                RefView::Element(ElementRefView::Bits(_)) => "Path refers to a field, but found a Bits type at this location: "@
                    + loc,
                RefView::Element(ElementRefView::Group(f)) => match sel {
                    SelectView::Group(n) => match field_of(f, n) {
                        Some(c) => walk_message(c, path.drop_first(), at.push(select_text(sel))),
                        None => "Field "@ + n + " does not exist in Group at location "@ + loc,
                    },
                    SelectView::Union(_) => "There is a Group at this location ("@ + loc
                        + "), but selection is a "@ + select_text(sel),
                },
                RefView::Element(ElementRefView::Union(f)) => match sel {
                    SelectView::Union(n) => match field_of(f, n) {
                        Some(c) => walk_message(c, path.drop_first(), at.push(select_text(sel))),
                        None => "Field "@ + n + " does not exist in Union at location "@ + loc,
                    },
                    SelectView::Group(_) => "There is a Union at this location ("@ + loc
                        + "), but selection is a "@ + select_text(sel),
                },
                _ => "Path refers to a field, but found a stream-manipulating type at this location: "@ + loc,
            },
            None => match r {
                RefView::Element(_) => "Path refers to a scope/stream, but found an element-manipulating type at this location: "@
                    + loc,
                RefView::Stream(st) => walk_message(
                    *st.data,
                    path.drop_first(),
                    at.push(scope_step_text(st.physical_stream)),
                ),
                RefView::Scope(n, c) => walk_message(*c, path.drop_first(), at.push(scope_step_text(n))),
            },
        }
    }
}

fn text3(a: &str, b: &str, c: &str) -> (r: String)
    ensures
        r@ == a@ + b@ + c@,
{
    let mut r = String::from_str(a);
    r.append(b);
    r.append(c);
    r
}

fn text4(a: &str, b: &str, c: &str, d: &str) -> (r: String)
    ensures
        r@ == a@ + b@ + c@ + d@,
{
    let mut r = String::from_str(a);
    r.append(b);
    r.append(c);
    r.append(d);
    r
}

fn location_error(what: &str, curr_path: &Vec<String>) -> (e: Error)
    ensures
        e is InvalidArgument,
        e->InvalidArgument_0@ == what@ + join_spec(curr_path@.map_values(|l: String| l@), " -> "@),
{
    let at = join(curr_path, " -> ");
    let mut m = String::from_str(what);
    m.append(at.as_str());
    Error::InvalidArgument(m)
}


impl TypeReference {
    /// The physical stream reached by following `path` (see `walk`), or an
    /// `InvalidArgument` error saying why the path does not lead to one
    /// (see `walk_message`).
    pub fn get(&self, path: &Vec<Option<FieldSelect>>) -> (r: Result<StreamReference, Error>)
        ensures
            match walk(self@, select_path(path@)) {
                Some(s) => r matches Ok(x) && x@ == s,
                None => r matches Err(e) && e is InvalidArgument,
            },
            r matches Err(e) ==> e->InvalidArgument_0@ == walk_message(
                self@,
                select_path(path@),
                Seq::empty(),
            ),
    {
        let ghost p = select_path(path@);
        let mut result: &TypeReference = self;
        let mut curr_path: Vec<String> = Vec::new();
        let mut i: usize = 0;
        proof {
            assert(p.skip(0) =~= p);
            assert(curr_path@.map_values(|l: String| l@) =~= Seq::<Seq<char>>::empty());
        }
        while i < path.len()
            invariant
                i <= path@.len(),
                p == select_path(path@),
                p.len() == path@.len(),
                walk(self@, p) == walk(result@, p.skip(i as int)),
                walk_message(self@, p, Seq::empty()) == walk_message(
                    result@,
                    p.skip(i as int),
                    curr_path@.map_values(|l: String| l@),
                ),
            decreases path@.len() - i,
        {
            proof {
                assert(p.skip(i as int).drop_first() =~= p.skip(i + 1));
                assert(p.skip(i as int)[0] == p[i as int]);
                lemma_ref_view(*result);
            }
            match &path[i] {
                Some(select) => {
                    match result {
                        TypeReference::ElementManipulating(el) => {
                            proof {
                                lemma_element_ref_view(*el);
                            }
                            match el {
                                ElementManipulatingReference::Null => {
                                    return Err(
                                        location_error(
                                            "Path refers to a field, but found a Null type at this location: ",
                                            &curr_path,
                                        ),
                                    );
                                },
                                ElementManipulatingReference::Bits(_) => {
                                    return Err(
                                        location_error(
                                            "Path refers to a field, but found a Bits type at this location: ",
                                            &curr_path,
                                        ),
                                    );
                                },
                                ElementManipulatingReference::Group(group) => match select {
                                    FieldSelect::Group(field) => match field_ref(group, field) {
                                        Some(t) => {
                                            result = t;
                                        },
                                        None => {
                                            let at = join(&curr_path, " -> ");
                                            return Err(
                                                Error::InvalidArgument(
                                                    text4(
                                                        "Field ",
                                                        field.as_str(),
                                                        " does not exist in Group at location ",
                                                        at.as_str(),
                                                    ),
                                                ),
                                            );
                                        },
                                    },
                                    FieldSelect::Union(_) => {
                                        let at = join(&curr_path, " -> ");
                                        let sel = select.text();
                                        return Err(
                                            Error::InvalidArgument(
                                                text4(
                                                    "There is a Group at this location (",
                                                    at.as_str(),
                                                    "), but selection is a ",
                                                    sel.as_str(),
                                                ),
                                            ),
                                        );
                                    },
                                },
                                ElementManipulatingReference::Union(union) => match select {
                                    FieldSelect::Union(field) => match field_ref(union, field) {
                                        Some(t) => {
                                            result = t;
                                        },
                                        None => {
                                            let at = join(&curr_path, " -> ");
                                            return Err(
                                                Error::InvalidArgument(
                                                    text4(
                                                        "Field ",
                                                        field.as_str(),
                                                        " does not exist in Union at location ",
                                                        at.as_str(),
                                                    ),
                                                ),
                                            );
                                        },
                                    },
                                    FieldSelect::Group(_) => {
                                        let at = join(&curr_path, " -> ");
                                        let sel = select.text();
                                        return Err(
                                            Error::InvalidArgument(
                                                text4(
                                                    "There is a Union at this location (",
                                                    at.as_str(),
                                                    "), but selection is a ",
                                                    sel.as_str(),
                                                ),
                                            ),
                                        );
                                    },
                                },
                            }
                        },
                        _ => {
                            return Err(
                                location_error(
                                    "Path refers to a field, but found a stream-manipulating type at this location: ",
                                    &curr_path,
                                ),
                            );
                        },
                    }
                    let st = select.text();
                    let ghost at0 = curr_path@.map_values(|l: String| l@);
                    curr_path.push(st);
                    proof {
                        assert(curr_path@.map_values(|l: String| l@) =~= at0.push(st@));
                    }
                },
                None => {
                    match result {
                        TypeReference::ElementManipulating(_) => {
                            return Err(
                                location_error(
                                    "Path refers to a scope/stream, but found an element-manipulating type at this location: ",
                                    &curr_path,
                                ),
                            );
                        },
                        TypeReference::Stream(stream) => {
                            let name = stream.physical_stream().text();
                            result = stream.data();
                            let st = text3("Scope (", name.as_str(), ")");
                            let ghost at0 = curr_path@.map_values(|l: String| l@);
                            curr_path.push(st);
                            proof {
                                assert(curr_path@.map_values(|l: String| l@) =~= at0.push(st@));
                            }
                        },
                        TypeReference::ScopeStream(scope) => {
                            let name = scope.name().text();
                            result = scope.child();
                            let st = text3("Scope (", name.as_str(), ")");
                            let ghost at0 = curr_path@.map_values(|l: String| l@);
                            curr_path.push(st);
                            proof {
                                assert(curr_path@.map_values(|l: String| l@) =~= at0.push(st@));
                            }
                        },
                    }
                },
            }
            i = i + 1;
        }
        proof {
            lemma_ref_view(*result);
        }
        match result {
            TypeReference::Stream(stream) => Ok(clone_stream(stream)),
            _ => {
                let at = join(&curr_path, " -> ");
                let found = ref_text(result);
                Err(
                    Error::InvalidArgument(
                        text4("There is no physical stream for path ", at.as_str(), ", found a ", found.as_str()),
                    ),
                )
            },
        }
    }
}

/// The signals that tell whether an element lane carries data in a
/// transfer: `strb`, `stai` and `endi`, where the stream has them.
#[derive(Debug, Clone, PartialEq, Eq, Hash)]
pub struct ElementActivityReference<F> {
    pub strb: Option<F>,
    pub stai: Option<F>,
    pub endi: Option<F>,
}

} // verus!
