//! Structural implementations: instances of streamlets, and the connections
//! between the ports of a structure and those of its instances.
use vstd::prelude::*;
use crate::directions::{InterfaceDirection, PhysicalProperties};
use crate::error::{Error, ErrorKind};
use crate::messages::concat;
use crate::name::{Name, lemma_text_lt_irreflexive, lemma_text_lt_total, lemma_text_lt_transitive, text_lt};
use crate::generics::{GenericParameter, GenericParameterView};
use crate::interface::{port_views, ports_in, ports_toward};
use crate::ordered_map::{InsertionOrderedMap, MapKey};
use crate::param_value::GenericParamValue;
use crate::parameters::{
    AssignmentView, GenericParameterAssignment, assignment_entries, attempt_views,
    default_parameters, named_values_reduce, parameter_entries, parameters_for,
    set_parameter_assignments, set_parameters_default,
};

verus! {

/// A port of an interface: its name, the stream it carries (by identity),
/// and its physical properties.
#[derive(Debug, PartialEq, Eq, Hash)]
pub struct InterfacePort {
    name: Name,
    stream: u64,
    physical_properties: PhysicalProperties,
    doc: Option<String>,
}

/// The model of an `InterfacePort`.
pub struct PortView {
    pub name: Seq<char>,
    pub stream: u64,
    pub domain: Option<Seq<char>>,
    pub direction: InterfaceDirection,
    pub doc: Option<Seq<char>>,
}

impl View for InterfacePort {
    type V = PortView;

    closed spec fn view(&self) -> PortView {
        PortView {
            name: self.name@,
            stream: self.stream,
            domain: self.physical_properties.spec_domain(),
            direction: self.physical_properties.direction(),
            doc: match self.doc {
                Some(d) => Some(d@),
                None => None,
            },
        }
    }
}

impl Clone for InterfacePort {
    fn clone(&self) -> (r: Self)
        ensures
            r@ == self@,
    {
        InterfacePort {
            name: self.name.clone(),
            stream: self.stream,
            physical_properties: self.physical_properties.clone(),
            doc: match &self.doc {
                Some(d) => Some(d.clone()),
                None => None,
            },
        }
    }
}

impl InterfacePort {
    /// A port named `name` carrying the stream `stream`, or an
    /// `InvalidArgument` error when `name` is not a valid name.
    pub fn try_new(name: &str, stream: u64, physical_properties: PhysicalProperties) -> (r: Result<
        InterfacePort,
        Error,
    >)
        ensures
            r is Ok <==> crate::name::valid_name(name@),
            r matches Ok(p) ==> p@ == (PortView {
                name: name@,
                stream,
                domain: physical_properties.spec_domain(),
                direction: physical_properties.direction(),
                doc: None,
            }),
            r matches Err(e) ==> e is InvalidArgument,
    {
        match Name::try_new(name) {
            Ok(n) => Ok(InterfacePort { name: n, stream, physical_properties, doc: None }),
            Err(e) => Err(e),
        }
    }

    pub fn name(&self) -> (r: &Name)
        ensures
            r@ == self@.name,
    {
        &self.name
    }

    /// The identity of the stream the port carries.
    pub fn stream_id(&self) -> (r: u64)
        ensures
            r == self@.stream,
    {
        self.stream
    }

    pub fn physical_properties(&self) -> (r: &PhysicalProperties)
        ensures
            r.spec_domain() == self@.domain,
            r.direction() == self@.direction,
    {
        &self.physical_properties
    }

    pub fn direction(&self) -> (r: InterfaceDirection)
        ensures
            r == self@.direction,
    {
        self.physical_properties.direction()
    }

    /// The clock domain of the port, `None` for the default domain.
    pub fn domain(&self) -> (r: Option<&Name>)
        ensures
            match r {
                Some(d) => self@.domain == Some(d@),
                None => self@.domain is None,
            },
    {
        self.physical_properties.domain()
    }

    /// Moves the port to the domain `domain` (the default domain for `None`).
    pub fn set_domain(&mut self, domain: Option<Name>)
        ensures
            final(self)@ == (PortView {
                domain: match domain {
                    Some(d) => Some(d@),
                    None => None,
                },
                ..old(self)@
            }),
    {
        match domain {
            Some(d) => self.physical_properties.set_domain(d),
            None => self.physical_properties.clear_domain(),
        }
    }

    pub fn doc(&self) -> (r: Option<&String>)
        ensures
            match r {
                Some(d) => self@.doc == Some(d@),
                None => self@.doc is None,
            },
    {
        self.doc.as_ref()
    }

    pub fn set_doc(&mut self, doc: String)
        ensures
            final(self)@ == (PortView { doc: Some(doc@), ..old(self)@ }),
    {
        self.doc = Some(doc);
    }
}

/// A port of a structure (`streamlet_instance` is `None`) or of one of
/// its streamlet instances, by name.
#[derive(Debug, PartialEq, Eq, Hash)]
pub struct InterfaceReference {
    streamlet_instance: Option<Name>,
    port: Name,
}

/// The model of an `InterfaceReference`.
pub struct PortRef {
    pub instance: Option<Seq<char>>,
    pub port: Seq<char>,
}

impl View for InterfaceReference {
    type V = PortRef;

    closed spec fn view(&self) -> PortRef {
        PortRef {
            instance: match self.streamlet_instance {
                Some(n) => Some(n@),
                None => None,
            },
            port: self.port@,
        }
    }
}

impl Clone for InterfaceReference {
    fn clone(&self) -> (r: Self)
        ensures
            r@ == self@,
    {
        InterfaceReference {
            streamlet_instance: match &self.streamlet_instance {
                Some(n) => Some(n.clone()),
                None => None,
            },
            port: self.port.clone(),
        }
    }
}

impl InterfaceReference {
    pub fn new(streamlet_instance: Option<Name>, port: Name) -> (r: InterfaceReference)
        ensures
            r@ == (PortRef {
                instance: match streamlet_instance {
                    Some(n) => Some(n@),
                    None => None,
                },
                port: port@,
            }),
    {
        InterfaceReference { streamlet_instance, port }
    }

    pub fn streamlet_instance(&self) -> (r: Option<&Name>)
        ensures
            match r {
                Some(n) => self@.instance == Some(n@),
                None => self@.instance is None,
            },
    {
        self.streamlet_instance.as_ref()
    }

    pub fn port(&self) -> (r: &Name)
        ensures
            r@ == self@.port,
    {
        &self.port
    }

    /// Whether both refer to the same port.
    pub fn same_as(&self, other: &InterfaceReference) -> (r: bool)
        ensures
            r == (self@ == other@),
    {
        let same_port = self.port.name_eq(&other.port);
        match (&self.streamlet_instance, &other.streamlet_instance) {
            (Some(a), Some(b)) => same_port && a.name_eq(b),
            (None, None) => same_port,
            _ => false,
        }
    }

    /// `port`, or `instance.port` for a port of an instance.
    pub fn text(&self) -> (r: String)
        ensures
            r@ == match self@.instance {
                Some(i) => i + "."@ + self@.port,
                None => self@.port,
            },
    {
        match &self.streamlet_instance {
            Some(i) => {
                let parts = [i.as_str(), ".", self.port.as_str()];
                let r = concat(&parts);
                proof {
                    let v = parts@.map_values(|p: &str| p@);
                    assert(v =~= seq![i@, "."@, self.port@]);
                    assert(v.drop_last().drop_last() =~= seq![i@]);
                    assert(v.drop_last().drop_last().drop_last() =~= Seq::<Seq<char>>::empty());
                    reveal_with_fuel(crate::messages::concat_spec, 4);
                }
                r
            },
            None => String::from_str(self.port.as_str()),
        }
    }
}

/// A connection from a source port to a sink port.
#[derive(Debug, PartialEq, Eq, Hash)]
pub struct Connection {
    source: InterfaceReference,
    sink: InterfaceReference,
}

impl View for Connection {
    type V = (PortRef, PortRef);

    closed spec fn view(&self) -> (PortRef, PortRef) {
        (self.source@, self.sink@)
    }
}

impl Clone for Connection {
    fn clone(&self) -> (r: Self)
        ensures
            r@ == self@,
    {
        Connection { source: self.source.clone(), sink: self.sink.clone() }
    }
}

impl Connection {
    pub fn new(source: InterfaceReference, sink: InterfaceReference) -> (r: Connection)
        ensures
            r@ == (source@, sink@),
    {
        Connection { source, sink }
    }

    pub fn source(&self) -> (r: &InterfaceReference)
        ensures
            r@ == self@.0,
    {
        &self.source
    }

    pub fn sink(&self) -> (r: &InterfaceReference)
        ensures
            r@ == self@.1,
    {
        &self.sink
    }
}

/// The model of an optional name.
pub open spec fn opt_name(o: Option<Name>) -> Option<Seq<char>> {
    match o {
        Some(n) => Some(n@),
        None => None,
    }
}

/// The domains assigned to the domains of a streamlet's definition: for a
/// definition with named domains, one entry per named domain; else the
/// domain assigned to its default domain. `None` stands for the default
/// domain of the structure.
#[derive(Debug, PartialEq, Eq, Hash)]
pub enum DomainAssignments {
    List(InsertionOrderedMap<Name, Option<Name>>),
    Default(Option<Name>),
}

/// The model of `DomainAssignments`.
pub enum DomainsView {
    List(Seq<(Seq<char>, Option<Seq<char>>)>),
    Default(Option<Seq<char>>),
}

pub open spec fn domain_entries(s: Seq<(Name, Option<Name>)>) -> Seq<(Seq<char>, Option<Seq<char>>)> {
    s.map_values(|e: (Name, Option<Name>)| (e.0@, opt_name(e.1)))
}

impl View for DomainAssignments {
    type V = DomainsView;

    open spec fn view(&self) -> DomainsView {
        match self {
            DomainAssignments::List(m) => DomainsView::List(domain_entries(m.entries())),
            DomainAssignments::Default(d) => DomainsView::Default(opt_name(*d)),
        }
    }
}

/// The entry for domain `b` in a list of assignments, if any.
pub open spec fn entry_for(s: Seq<(Seq<char>, Option<Seq<char>>)>, b: Seq<char>) -> Option<
    Option<Seq<char>>,
> {
    if exists|i: int| 0 <= i < s.len() && #[trigger] s[i].0 == b {
        Some(s[choose|i: int| 0 <= i < s.len() && #[trigger] s[i].0 == b].1)
    } else {
        None
    }
}

/// The domain assigned to the definition's domain `base` (`None` for its
/// default domain), if there is one: a named domain is looked up in the
/// list, and any domain of a definition with a default domain gets that
/// domain's assignment; the default domain of a definition with named
/// domains has none.
pub open spec fn assignment_of(d: DomainsView, base: Option<Seq<char>>) -> Option<
    Option<Seq<char>>,
> {
    match base {
        Some(b) => match d {
            DomainsView::List(s) => entry_for(s, b),
            DomainsView::Default(r) => Some(r),
        },
        None => match d {
            DomainsView::List(_) => None,
            DomainsView::Default(r) => Some(r),
        },
    }
}

/// The named domains among the assigned values, each once, in order of
/// first appearance.
pub open spec fn named_domains(v: Seq<Option<Seq<char>>>) -> Seq<Seq<char>>
    decreases v.len(),
{
    if v.len() == 0 {
        Seq::empty()
    } else {
        let r = named_domains(v.drop_last());
        match v.last() {
            Some(n) => if r.contains(n) {
                r
            } else {
                r.push(n)
            },
            None => r,
        }
    }
}

/// The domains assigned: `None` where everything is in the default domain,
/// else the named domains; `None` (an error) where the default domain and
/// named domains are mixed.
pub open spec fn assigned_of(d: DomainsView) -> Option<Option<Seq<Seq<char>>>> {
    match d {
        DomainsView::List(s) => {
            let values = s.map_values(|e: (Seq<char>, Option<Seq<char>>)| e.1);
            let named = named_domains(values);
            if exists|i: int| 0 <= i < values.len() && #[trigger] values[i] is None {
                if named.len() > 0 {
                    None
                } else {
                    Some(None)
                }
            } else {
                Some(Some(named))
            }
        },
        DomainsView::Default(Some(a)) => Some(Some(seq![a])),
        DomainsView::Default(None) => Some(None),
    }
}

/// The value stored under `key` in a map of domains, as `entry_for` finds it.
fn domain_entry<'a>(m: &'a InsertionOrderedMap<Name, Option<Name>>, key: &Name) -> (r: Option<
    &'a Option<Name>,
>)
    ensures
        match entry_for(domain_entries(m.entries()), key@) {
            Some(v) => r matches Some(x) && opt_name(*x) == v,
            None => r is None,
        },
{
    m.lemma_distinct();
    let ghost e = m.entries();
    let ghost v = domain_entries(e);
    let r = m.get(key);
    proof {
        match r {
            Some(x) => {
                let i = choose|i: int|
                    0 <= i < e.len() && #[trigger] e[i].0.key() == key.key() && e[i].1 == *x;
                assert(seq![e[i].0@][0] == seq![key@][0]);
                assert(v[i].0 == key@);
                let j = choose|j: int| 0 <= j < v.len() && #[trigger] v[j].0 == key@;
                if j != i {
                    assert(e[j].0.key() =~= e[i].0.key());
                }
            },
            None => {
                assert forall|j: int| 0 <= j < v.len() implies #[trigger] v[j].0 != key@ by {
                    if v[j].0 == key@ {
                        assert(e[j].0.key() =~= key.key());
                    }
                }
            },
        }
    }
    r
}

fn clone_opt_name(o: &Option<Name>) -> (r: Option<Name>)
    ensures
        opt_name(r) == opt_name(*o),
{
    match o {
        Some(n) => Some(n.clone()),
        None => None,
    }
}

impl DomainAssignments {
    /// The domain assigned to `base_domain` (see `assignment_of`), or a
    /// `ProjectError` where there is none.
    pub fn get_assignment(&self, base_domain: Option<&Name>) -> (r: Result<Option<&Name>, Error>)
        ensures
            match assignment_of(
                self@,
                match base_domain {
                    Some(b) => Some(b@),
                    None => None,
                },
            ) {
                Some(a) => r matches Ok(x) && match x {
                    Some(n) => a == Some(n@),
                    None => a is None,
                },
                None => r matches Err(e) && e is ProjectError,
            },
    {
        match base_domain {
            Some(b) => match self {
                DomainAssignments::List(m) => match domain_entry(m, b) {
                    Some(v) => Ok(v.as_ref()),
                    None => Err(
                        Error::ProjectError(
                            concat(
                                &[
                                    "Cannot find assigned domain for ",
                                    b.as_str(),
                                    ", no such domain on Interface",
                                ],
                            ),
                        ),
                    ),
                },
                DomainAssignments::Default(res) => Ok(res.as_ref()),
            },
            None => match self {
                DomainAssignments::List(_) => Err(
                    Error::ProjectError(
                        String::from_str(
                            "Attempting to determine domain for Default, but Streamlet has named Domains.",
                        ),
                    ),
                ),
                DomainAssignments::Default(res) => Ok(res.as_ref()),
            },
        }
    }

    /// The domains assigned (see `assigned_of`), or a `ProjectError` where
    /// the default domain and named domains are mixed.
    pub fn assigned_domains(&self) -> (r: Result<Option<Vec<Name>>, Error>)
        ensures
            match assigned_of(self@) {
                Some(a) => r matches Ok(x) && match x {
                    Some(v) => a == Some(v@.map_values(|n: Name| n@)),
                    None => a is None,
                },
                None => r matches Err(e) && e is ProjectError,
            },
    {
        match self {
            DomainAssignments::List(m) => {
                let ghost values = domain_entries(m.entries()).map_values(
                    |e: (Seq<char>, Option<Seq<char>>)| e.1,
                );
                let mut set: Vec<Name> = Vec::new();
                let mut has_default = false;
                let mut i: usize = 0;
                proof {
                    assert(values.take(0) =~= Seq::<Option<Seq<char>>>::empty());
                    assert(set@.map_values(|n: Name| n@) =~= Seq::<Seq<char>>::empty());
                }
                while i < m.len()
                    invariant
                        i <= m.entries().len(),
                        values == domain_entries(m.entries()).map_values(
                            |e: (Seq<char>, Option<Seq<char>>)| e.1,
                        ),
                        values.len() == m.entries().len(),
                        set@.map_values(|n: Name| n@) == named_domains(values.take(i as int)),
                        has_default == exists|j: int| 0 <= j < i && #[trigger] values[j] is None,
                    decreases m.entries().len() - i,
                {
                    let ghost before = set@.map_values(|n: Name| n@);
                    proof {
                        assert(values.take(i + 1).drop_last() =~= values.take(i as int));
                        assert(values[i as int] == opt_name(m.entries()[i as int].1));
                    }
                    match m.value_at(i) {
                        Some(n) => {
                            let mut found = false;
                            let mut k: usize = 0;
                            while k < set.len()
                                invariant
                                    k <= set@.len(),
                                    before == set@.map_values(|x: Name| x@),
                                    found == exists|j: int| 0 <= j < k && #[trigger] set@[j]@ == n@,
                                decreases set@.len() - k,
                            {
                                if set[k].name_eq(n) {
                                    found = true;
                                }
                                k = k + 1;
                            }
                            proof {
                                if found {
                                    let j = choose|j: int| 0 <= j < k && #[trigger] set@[j]@ == n@;
                                    assert(before[j] == n@);
                                } else {
                                    assert forall|j: int| 0 <= j < before.len() implies before[j] != n@ by {
                                        assert(before[j] == set@[j]@);
                                    }
                                }
                            }
                            if !found {
                                set.push(n.clone());
                                proof {
                                    assert(set@.map_values(|x: Name| x@) =~= before.push(n@));
                                }
                            }
                        },
                        None => {
                            has_default = true;
                        },
                    }
                    i = i + 1;
                }
                proof {
                    assert(values.take(m.entries().len() as int) =~= values);
                }
                if has_default {
                    if set.len() > 0 {
                        Err(
                            Error::ProjectError(
                                String::from_str(
                                    "Streamlet has both Default and named domains assigned.",
                                ),
                            ),
                        )
                    } else {
                        Ok(None)
                    }
                } else {
                    Ok(Some(set))
                }
            },
            DomainAssignments::Default(res) => match res {
                Some(a) => {
                    let mut set: Vec<Name> = Vec::new();
                    set.push(a.clone());
                    proof {
                        assert(set@.map_values(|n: Name| n@) =~= seq![a@]);
                    }
                    Ok(Some(set))
                },
                None => Ok(None),
            },
        }
    }
}

/// An instance of a streamlet in a structure: its name, the domains
/// assigned to the domains of its definition, the values assigned to the
/// parameters of its definition, and its ports (those of the definition, in
/// their assigned domains).
#[derive(Debug, PartialEq, Eq, Hash)]
pub struct StreamletInstance {
    name: Name,
    domain_assignments: DomainAssignments,
    parameter_assignments: InsertionOrderedMap<Name, GenericParameterAssignment>,
    ports: InsertionOrderedMap<Name, InterfacePort>,
    doc: Option<String>,
}

/// The model of a `StreamletInstance`.
pub struct InstanceView {
    pub name: Seq<char>,
    pub domains: DomainsView,
    pub parameters: Seq<(Seq<char>, AssignmentView)>,
    pub ports: Seq<(Seq<char>, PortView)>,
    pub doc: Option<Seq<char>>,
}

pub open spec fn port_entries(s: Seq<(Name, InterfacePort)>) -> Seq<(Seq<char>, PortView)> {
    s.map_values(|e: (Name, InterfacePort)| (e.0@, e.1@))
}

impl View for StreamletInstance {
    type V = InstanceView;

    closed spec fn view(&self) -> InstanceView {
        InstanceView {
            name: self.name@,
            domains: self.domain_assignments@,
            parameters: assignment_entries(self.parameter_assignments.entries()),
            ports: port_entries(self.ports.entries()),
            doc: match self.doc {
                Some(d) => Some(d@),
                None => None,
            },
        }
    }
}

/// The texts are pairwise distinct.
pub open spec fn texts_distinct(l: Seq<Seq<char>>) -> bool {
    forall|i: int, j: int| 0 <= i < j < l.len() ==> #[trigger] l[i] != #[trigger] l[j]
}

/// Each domain of `l`, unassigned.
pub open spec fn unassigned(l: Seq<Seq<char>>) -> Seq<(Seq<char>, Option<Seq<char>>)> {
    l.map_values(|n: Seq<char>| (n, None::<Seq<char>>))
}

/// The default assignment of a definition's domains (`None` for a
/// definition with a default domain only): each named domain, or the
/// default domain, assigned to the structure's default domain. An empty
/// list of named domains is a project error, a domain named twice a
/// duplicate.
pub open spec fn default_domains(base: Option<Seq<Seq<char>>>) -> Result<DomainsView, ErrorKind> {
    match base {
        Some(l) => if l.len() == 0 {
            Err(ErrorKind::ProjectError)
        } else if !texts_distinct(l) {
            Err(ErrorKind::UnexpectedDuplicate)
        } else {
            Ok(DomainsView::List(unassigned(l)))
        },
        None => Ok(DomainsView::Default(None)),
    }
}

/// Every port's domain has an assignment under `d`.
pub open spec fn ports_assigned(d: DomainsView, ps: Seq<(Seq<char>, PortView)>) -> bool {
    forall|i: int| 0 <= i < ps.len() ==> (#[trigger] assignment_of(d, ps[i].1.domain)) is Some
}

/// The ports, each moved to the domain assigned to its own.
pub open spec fn assign_ports(d: DomainsView, ps: Seq<(Seq<char>, PortView)>) -> Seq<
    (Seq<char>, PortView),
> {
    ps.map_values(
        |e: (Seq<char>, PortView)|
            (
                e.0,
                PortView {
                    domain: match assignment_of(d, e.1.domain) {
                        Some(a) => a,
                        None => None,
                    },
                    ..e.1
                },
            ),
    )
}

/// The port named `n` among `ps`, if any.
pub open spec fn port_named(ps: Seq<(Seq<char>, PortView)>, n: Seq<char>) -> Option<PortView> {
    if exists|i: int| 0 <= i < ps.len() && #[trigger] ps[i].0 == n {
        Some(ps[choose|i: int| 0 <= i < ps.len() && #[trigger] ps[i].0 == n].1)
    } else {
        None
    }
}

/// The port stored under `key`, as `port_named` finds it.
fn port_entry<'a>(m: &'a InsertionOrderedMap<Name, InterfacePort>, key: &Name) -> (r: Option<
    &'a InterfacePort,
>)
    ensures
        match port_named(port_entries(m.entries()), key@) {
            Some(v) => r matches Some(x) && x@ == v,
            None => r is None,
        },
{
    m.lemma_distinct();
    let ghost e = m.entries();
    let ghost v = port_entries(e);
    let r = m.get(key);
    proof {
        match r {
            Some(x) => {
                let i = choose|i: int|
                    0 <= i < e.len() && #[trigger] e[i].0.key() == key.key() && e[i].1 == *x;
                assert(seq![e[i].0@][0] == seq![key@][0]);
                assert(v[i].0 == key@);
                let j = choose|j: int| 0 <= j < v.len() && #[trigger] v[j].0 == key@;
                if j != i {
                    assert(e[j].0.key() =~= e[i].0.key());
                }
            },
            None => {
                assert forall|j: int| 0 <= j < v.len() implies #[trigger] v[j].0 != key@ by {
                    if v[j].0 == key@ {
                        assert(e[j].0.key() =~= key.key());
                    }
                }
            },
        }
    }
    r
}

/// The model of an optional list of names.
pub open spec fn opt_names(o: Option<Vec<Name>>) -> Option<Seq<Seq<char>>> {
    match o {
        Some(v) => Some(v@.map_values(|n: Name| n@)),
        None => None,
    }
}

fn default_assignments(base_domains: Option<Vec<Name>>) -> (r: Result<DomainAssignments, Error>)
    ensures
        match default_domains(opt_names(base_domains)) {
            Ok(d) => r matches Ok(x) && x@ == d,
            Err(k) => r matches Err(e) && e.kind() == k,
        },
{
    match base_domains {
        Some(named) => {
            let ghost l = named@.map_values(|n: Name| n@);
            if named.len() > 0 {
                let mut m: InsertionOrderedMap<Name, Option<Name>> = InsertionOrderedMap::new();
                let mut k: usize = 0;
                proof {
                    assert(domain_entries(m.entries()) =~= unassigned(l.take(0)));
                }
                while k < named.len()
                    invariant
                        k <= named@.len(),
                        l == named@.map_values(|n: Name| n@),
                        l.len() > 0,
                        opt_names(base_domains) == Some(l),
                        forall|j: int| 0 <= j < k ==> (#[trigger] m.entries()[j]).1 is None,
                        texts_distinct(l.take(k as int)),
                        m.entries().len() == k,
                        forall|j: int| 0 <= j < k ==> #[trigger] m.entries()[j].0@ == l[j],
                        domain_entries(m.entries()) == unassigned(l.take(k as int)),
                    decreases named@.len() - k,
                {
                    let n = named[k].clone();
                    let ghost before = m.entries();
                    let ghost ng = n;
                    proof {
                        assert(ng@ == l[k as int]);
                    }
                    match m.try_insert(n, None) {
                        Ok(()) => {
                            proof {
                                assert(m.entries() == before.push((ng, None::<Name>)));
                                assert(m.entries()[k as int].0@ == l[k as int]);
                                assert forall|a: int, b: int| 0 <= a < b < k + 1 implies #[trigger] l.take(
                                    k + 1,
                                )[a] != #[trigger] l.take(k + 1)[b] by {
                                    if b == k {
                                        assert(before[a].0.key() != n.key());
                                        assert(before[a].0@ == l[a]);
                                        if l[a] == l[b] {
                                            assert(before[a].0.key() =~= n.key());
                                        }
                                    } else {
                                        assert(l.take(k as int)[a] != l.take(k as int)[b]);
                                    }
                                }
                                assert forall|j: int| 0 <= j < k + 1 implies #[trigger] m.entries()[j].0@
                                    == l[j] && m.entries()[j].1 is None by {
                                    if j < k {
                                        assert(m.entries()[j] == before[j]);
                                    }
                                }
                                assert forall|j: int| 0 <= j < k + 1 implies #[trigger] domain_entries(
                                    m.entries(),
                                )[j] == unassigned(l.take(k + 1))[j] by {
                                    assert(m.entries()[j].0@ == l[j] && m.entries()[j].1 is None);
                                }
                                assert(domain_entries(m.entries()) =~= unassigned(l.take(k + 1)));
                            }
                        },
                        Err(e) => {
                            proof {
                                let j = choose|j: int|
                                    0 <= j < before.len() && #[trigger] before[j].0.key() == n.key();
                                assert(seq![before[j].0@][0] == seq![n@][0]);
                                assert(l[j] == l[k as int]);
                                assert(!texts_distinct(l));
                            }
                            return Err(e);
                        },
                    }
                    k = k + 1;
                }
                proof {
                    assert(l.take(named@.len() as int) =~= l);
                }
                Ok(DomainAssignments::List(m))
            } else {
                Err(
                    Error::ProjectError(
                        String::from_str(
                            "Streamlet has an empty named domain list. Should be None (= Default Domain).",
                        ),
                    ),
                )
            }
        },
        None => Ok(DomainAssignments::Default(None)),
    }
}

/// The instance named `name` of a definition whose ports are `ps`, with
/// the domain assignments `d` and the parameter assignments `p`: an invalid
/// name is an invalid argument, then come the failures of `d`, a port whose
/// domain has no assignment is a project error, and then come the failures
/// of `p`.
pub open spec fn instance_with(
    name: Seq<char>,
    d: Result<DomainsView, ErrorKind>,
    p: Result<Seq<(Seq<char>, AssignmentView)>, ErrorKind>,
    ps: Seq<(Seq<char>, PortView)>,
) -> Result<InstanceView, ErrorKind> {
    if !crate::name::valid_name(name) {
        Err(ErrorKind::InvalidArgument)
    } else {
        match d {
            Err(k) => Err(k),
            Ok(d) => if ports_assigned(d, ps) {
                match p {
                    Err(k) => Err(k),
                    Ok(p) => Ok(
                        InstanceView {
                            name,
                            domains: d,
                            parameters: p,
                            ports: assign_ports(d, ps),
                            doc: None,
                        },
                    ),
                }
            } else {
                Err(ErrorKind::ProjectError)
            },
        }
    }
}

/// The instance named `name` of a definition whose domains are `base`
/// (`None` for a default domain only), whose parameters are `params` and
/// whose ports are `ps`, every domain assigned the structure's default
/// domain (see `default_domains`) and every parameter at its default.
pub open spec fn default_instance(
    name: Seq<char>,
    base: Option<Seq<Seq<char>>>,
    params: Seq<(Seq<char>, GenericParameterView)>,
    ps: Seq<(Seq<char>, PortView)>,
) -> Result<InstanceView, ErrorKind> {
    instance_with(name, default_domains(base), Ok(default_parameters(params)), ps)
}

/// The assignment of a definition's domains `base`: the explicit one when
/// `a` holds assignments, else the default one.
pub open spec fn domains_for(
    base: Option<Seq<Seq<char>>>,
    a: Seq<(Option<Seq<char>>, Seq<char>)>,
) -> Result<DomainsView, ErrorKind> {
    if a.len() > 0 {
        explicit_domains(base, a)
    } else {
        default_domains(base)
    }
}

/// The ports, each moved to the domain assigned to its own (see
/// `assign_ports`), or a `ProjectError` where a port's domain has no
/// assignment.
fn assign_port_domains(
    domain_assignments: &DomainAssignments,
    ports: &InsertionOrderedMap<Name, InterfacePort>,
) -> (r: Result<InsertionOrderedMap<Name, InterfacePort>, Error>)
    ensures
        if ports_assigned(domain_assignments@, port_entries(ports.entries())) {
            r matches Ok(m) && port_entries(m.entries()) == assign_ports(
                domain_assignments@,
                port_entries(ports.entries()),
            )
        } else {
            r matches Err(e) && e is ProjectError
        },
{
    let ghost d = domain_assignments@;
    let ghost ps = port_entries(ports.entries());
        ports.lemma_distinct();
        let mut out: InsertionOrderedMap<Name, InterfacePort> = InsertionOrderedMap::new();
        let mut i: usize = 0;
        proof {
            assert(port_entries(out.entries()) =~= assign_ports(d, ps.take(0)));
        }
        while i < ports.len()
            invariant
                i <= ports.entries().len(),
                d == domain_assignments@,
                ps == port_entries(ports.entries()),
                crate::ordered_map::keys_distinct(ports.entries()),
                ports_assigned(d, ps.take(i as int)),
                out.entries().len() == i,
                forall|j: int| 0 <= j < i ==> #[trigger] out.entries()[j].0 == ports.entries()[j].0,
                port_entries(out.entries()) == assign_ports(d, ps.take(i as int)),
            decreases ports.entries().len() - i,
        {
            let ghost pv = ports.entries()[i as int].1@;
            let mut p = ports.value_at(i).clone();
            let dom = p.domain();
            proof {
                assert(ps[i as int].1 == pv);
                assert(match dom {
                    Some(b) => Some(b@),
                    None => None,
                } == pv.domain);
            }
            let a = match domain_assignments.get_assignment(dom) {
                Ok(a) => match a {
                    Some(x) => Some(x.clone()),
                    None => None,
                },
                Err(e) => {
                    proof {
                        assert(ps[i as int].1 == ports.entries()[i as int].1@);
                        assert(assignment_of(d, ps[i as int].1.domain) is None);
                    }
                    return Err(e);
                },
            };
            proof {
                assert(assignment_of(d, pv.domain) == Some(opt_name(a)));
            }
            p.set_domain(a);
            let key = ports.key_at(i).clone();
            let ghost before = out.entries();
            let ghost entry = (key, p);
            proof {
                assert forall|j: int| 0 <= j < before.len() implies #[trigger] before[j].0.key()
                    != key.key() by {
                    assert(before[j].0 == ports.entries()[j].0);
                }
            }
            let res = out.try_insert(key, p);
            assert(res is Ok);
            proof {
                assert(out.entries() == before.push(entry));
                assert(entry.1@ == (PortView { domain: opt_name(a), ..pv }));
                assert(entry.0 == ports.entries()[i as int].0);
                assert forall|j: int| 0 <= j < i + 1 implies #[trigger] port_entries(out.entries())[j]
                    == assign_ports(d, ps.take(i + 1))[j] by {
                    if j < i {
                        assert(port_entries(before)[j] == assign_ports(d, ps.take(i as int))[j]);
                        assert(out.entries()[j] == before[j]);
                        assert(ps.take(i + 1)[j] == ps.take(i as int)[j]);
                    } else {
                        assert(out.entries()[j] == entry);
                        assert(ps.take(i + 1)[j] == ps[i as int]);
                    }
                }
                assert(port_entries(out.entries()) =~= assign_ports(d, ps.take(i + 1)));
                assert forall|j: int| 0 <= j < i + 1 implies (#[trigger] assignment_of(
                    d,
                    ps.take(i + 1)[j].1.domain,
                )) is Some by {
                    if j < i {
                        assert(ps.take(i as int)[j] == ps.take(i + 1)[j]);
                    }
                }
            }
            i = i + 1;
        }
        proof {
            assert(ps.take(ports.entries().len() as int) =~= ps);
        }
    Ok(out)
}

/// The state of reading explicit domain assignments: whether a named
/// assignment was met, the assignments by position, and those by name.
pub struct ScanState {
    pub used_name: bool,
    pub ordered: Seq<Seq<char>>,
    pub named: Seq<(Seq<char>, Seq<char>)>,
}

/// Some assignment by name is for domain `n`.
pub open spec fn has_key(named: Seq<(Seq<char>, Seq<char>)>, n: Seq<char>) -> bool {
    exists|j: int| 0 <= j < named.len() && #[trigger] named[j].0 == n
}

/// The domain assigned by name to `n`, the last such assignment if any.
pub open spec fn lookup(named: Seq<(Seq<char>, Seq<char>)>, n: Seq<char>) -> Option<Seq<char>>
    decreases named.len(),
{
    if named.len() == 0 {
        None
    } else if named.last().0 == n {
        Some(named.last().1)
    } else {
        lookup(named.drop_last(), n)
    }
}

/// Reads explicit assignments `a` (an optional domain of the definition and
/// the domain assigned to it) for a definition with the named domains
/// `names`, in order: an assignment by name must be for one of them and
/// not repeat one (else an invalid argument), and an assignment by
/// position may not follow one by name (else an invalid argument).
pub open spec fn scan(names: Seq<Seq<char>>, a: Seq<(Option<Seq<char>>, Seq<char>)>) -> Result<
    ScanState,
    ErrorKind,
>
    decreases a.len(),
{
    if a.len() == 0 {
        Ok(ScanState { used_name: false, ordered: Seq::empty(), named: Seq::empty() })
    } else {
        match scan(names, a.drop_last()) {
            Err(k) => Err(k),
            Ok(st) => match a.last().0 {
                Some(x) => if !names.contains(x) || has_key(st.named, x) {
                    Err(ErrorKind::InvalidArgument)
                } else {
                    Ok(ScanState { used_name: true, named: st.named.push((x, a.last().1)), ..st })
                },
                None => if st.used_name {
                    Err(ErrorKind::InvalidArgument)
                } else {
                    Ok(ScanState { ordered: st.ordered.push(a.last().1), ..st })
                },
            },
        }
    }
}

/// Assigns each of the named domains `base`, in order: the assignments by
/// position first, then the one by name (else an invalid argument); a
/// domain named twice is a duplicate.
pub open spec fn fill(base: Seq<Seq<char>>, st: ScanState) -> Result<
    Seq<(Seq<char>, Option<Seq<char>>)>,
    ErrorKind,
>
    decreases base.len(),
{
    if base.len() == 0 {
        Ok(Seq::empty())
    } else {
        match fill(base.drop_last(), st) {
            Err(k) => Err(k),
            Ok(s) => {
                let k = base.len() - 1;
                let v = if k < st.ordered.len() {
                    Some(st.ordered[k])
                } else {
                    lookup(st.named, base[k])
                };
                match v {
                    None => Err(ErrorKind::InvalidArgument),
                    Some(v) => if s.map_values(|e: (Seq<char>, Option<Seq<char>>)| e.0).contains(
                        base[k],
                    ) {
                        Err(ErrorKind::UnexpectedDuplicate)
                    } else {
                        Ok(s.push((base[k], Some(v))))
                    },
                }
            },
        }
    }
}

/// The explicit assignment `a` of a definition's domains `base` (`None`
/// for a default domain only; `a` is not empty): for named domains, an
/// empty list is a project error and `a` must have one assignment per
/// domain (else an invalid argument), read by `scan` and `fill`; a default
/// domain takes the single assignment, more than one being a project
/// error.
pub open spec fn explicit_domains(
    base: Option<Seq<Seq<char>>>,
    a: Seq<(Option<Seq<char>>, Seq<char>)>,
) -> Result<DomainsView, ErrorKind> {
    match base {
        Some(l) => if l.len() == 0 {
            Err(ErrorKind::ProjectError)
        } else if l.len() != a.len() {
            Err(ErrorKind::InvalidArgument)
        } else {
            match scan(l, a) {
                Err(k) => Err(k),
                Ok(st) => match fill(l, st) {
                    Ok(s) => Ok(DomainsView::List(s)),
                    Err(k) => Err(k),
                },
            }
        },
        None => if a.len() > 1 {
            Err(ErrorKind::ProjectError)
        } else {
            Ok(DomainsView::Default(Some(a[0].1)))
        },
    }
}

/// The models of explicit domain assignments.
pub open spec fn assignment_views(a: Seq<(Option<Name>, Name)>) -> Seq<
    (Option<Seq<char>>, Seq<char>),
> {
    a.map_values(|x: (Option<Name>, Name)| (opt_name(x.0), x.1@))
}

proof fn lemma_scan_err(names: Seq<Seq<char>>, a: Seq<(Option<Seq<char>>, Seq<char>)>, k: int)
    requires
        0 <= k <= a.len(),
        scan(names, a.take(k)) is Err,
    ensures
        scan(names, a) == scan(names, a.take(k)),
    decreases a.len() - k,
{
    if k < a.len() {
        assert(a.take(k + 1).drop_last() =~= a.take(k));
        lemma_scan_err(names, a, k + 1);
    } else {
        assert(a.take(k) =~= a);
    }
}

proof fn lemma_fill_err(base: Seq<Seq<char>>, st: ScanState, k: int)
    requires
        0 <= k <= base.len(),
        fill(base.take(k), st) is Err,
    ensures
        fill(base, st) == fill(base.take(k), st),
    decreases base.len() - k,
{
    if k < base.len() {
        assert(base.take(k + 1).drop_last() =~= base.take(k));
        lemma_fill_err(base, st, k + 1);
    } else {
        assert(base.take(k) =~= base);
    }
}

/// Whether `n` is among the names of `v`.
fn contains_name(v: &Vec<Name>, n: &Name) -> (r: bool)
    ensures
        r == v@.map_values(|x: Name| x@).contains(n@),
{
    let ghost vv = v@.map_values(|x: Name| x@);
    let mut i: usize = 0;
    while i < v.len()
        invariant
            i <= v@.len(),
            vv == v@.map_values(|x: Name| x@),
            forall|j: int| 0 <= j < i ==> #[trigger] vv[j] != n@,
        decreases v@.len() - i,
    {
        if v[i].name_eq(n) {
            proof {
                assert(vv[i as int] == n@);
            }
            return true;
        }
        i = i + 1;
    }
    false
}

/// The domain assigned by name to `n` (see `lookup`).
fn lookup_named<'a>(named: &'a Vec<(Name, Name)>, n: &Name) -> (r: Option<&'a Name>)
    ensures
        match lookup(named@.map_values(|x: (Name, Name)| (x.0@, x.1@)), n@) {
            Some(v) => r matches Some(x) && x@ == v,
            None => r is None,
        },
{
    let ghost nv = named@.map_values(|x: (Name, Name)| (x.0@, x.1@));
    let mut i: usize = named.len();
    proof {
        assert(nv.take(i as int) =~= nv);
    }
    while i > 0
        invariant
            i <= named@.len(),
            nv == named@.map_values(|x: (Name, Name)| (x.0@, x.1@)),
            lookup(nv, n@) == lookup(nv.take(i as int), n@),
        decreases i,
    {
        proof {
            assert(nv.take(i as int).drop_last() =~= nv.take(i - 1));
        }
        if named[i - 1].0.name_eq(n) {
            return Some(&named[i - 1].1);
        }
        i = i - 1;
    }
    None
}

/// The explicit assignment of a definition's domains (see
/// `explicit_domains`).
fn explicit_assignments(base_domains: Option<Vec<Name>>, assignments: Vec<(Option<Name>, Name)>) -> (r:
    Result<DomainAssignments, Error>)
    requires
        assignments@.len() > 0,
    ensures
        match explicit_domains(opt_names(base_domains), assignment_views(assignments@)) {
            Ok(d) => r matches Ok(x) && x@ == d,
            Err(k) => r matches Err(e) && e.kind() == k,
        },
{
    let ghost av = assignment_views(assignments@);
    match base_domains {
        None => {
            if assignments.len() > 1 {
                return Err(
                    Error::ProjectError(
                        String::from_str(
                            "Attempting to assign multiple Domains, but Streamlet should only have one (Default) domain.",
                        ),
                    ),
                );
            }
            Ok(DomainAssignments::Default(Some(assignments[0].1.clone())))
        },
        Some(named_domains) => {
            let ghost l = named_domains@.map_values(|n: Name| n@);
            if named_domains.len() == 0 {
                return Err(
                    Error::ProjectError(
                        String::from_str(
                            "Streamlet has an empty named domain list. Should be None (= Default Domain).",
                        ),
                    ),
                );
            }
            if named_domains.len() != assignments.len() {
                return Err(
                    Error::InvalidArgument(
                        String::from_str(
                            "Domain assignment list does not match base domain list length.",
                        ),
                    ),
                );
            }
            let mut used_name = false;
            let mut ordered: Vec<Name> = Vec::new();
            let mut named: Vec<(Name, Name)> = Vec::new();
            let mut i: usize = 0;
            proof {
                assert(av.take(0) =~= Seq::<(Option<Seq<char>>, Seq<char>)>::empty());
                assert(ordered@.map_values(|x: Name| x@) =~= Seq::<Seq<char>>::empty());
                assert(named@.map_values(|x: (Name, Name)| (x.0@, x.1@)) =~= Seq::<
                    (Seq<char>, Seq<char>),
                >::empty());
            }
            while i < assignments.len()
                invariant
                    i <= assignments@.len(),
                    av == assignment_views(assignments@),
                    l == named_domains@.map_values(|n: Name| n@),
                    l.len() == av.len(),
                    l.len() > 0,
                    opt_names(base_domains) == Some(l),
                    scan(l, av.take(i as int)) == Ok::<ScanState, ErrorKind>(
                        ScanState {
                            used_name,
                            ordered: ordered@.map_values(|x: Name| x@),
                            named: named@.map_values(|x: (Name, Name)| (x.0@, x.1@)),
                        },
                    ),
                decreases assignments@.len() - i,
            {
                let ghost before_o = ordered@.map_values(|x: Name| x@);
                let ghost before_n = named@.map_values(|x: (Name, Name)| (x.0@, x.1@));
                proof {
                    assert(av.take(i + 1).drop_last() =~= av.take(i as int));
                    assert(av.take(i + 1).last() == av[i as int]);
                    assert(av[i as int] == (opt_name(assignments@[i as int].0), assignments@[i as int].1@));
                }
                match &assignments[i].0 {
                    Some(a_name) => {
                        used_name = true;
                        if !contains_name(&named_domains, a_name) {
                            proof {
                                lemma_scan_err(l, av, i + 1);
                            }
                            return Err(
                                Error::InvalidArgument(
                                    concat(&["No Domain named ", a_name.as_str(), " on Streamlet"]),
                                ),
                            );
                        }
                        match lookup_named(&named, a_name) {
                            Some(_) => {
                                proof {
                                    lemma_lookup_has_key(before_n, a_name@);
                                    lemma_scan_err(l, av, i + 1);
                                }
                                return Err(
                                    Error::InvalidArgument(
                                        String::from_str("Duplicate domain assignment"),
                                    ),
                                );
                            },
                            None => {
                                proof {
                                    lemma_lookup_has_key(before_n, a_name@);
                                }
                            },
                        }
                        named.push((a_name.clone(), assignments[i].1.clone()));
                        proof {
                            assert(named@.map_values(|x: (Name, Name)| (x.0@, x.1@)) =~= before_n.push(
                                (a_name@, assignments@[i as int].1@),
                            ));
                        }
                    },
                    None => {
                        if used_name {
                            proof {
                                lemma_scan_err(l, av, i + 1);
                            }
                            return Err(
                                Error::InvalidArgument(
                                    String::from_str(
                                        "Cannot use nameless Domain assignment after using a name.",
                                    ),
                                ),
                            );
                        }
                        ordered.push(assignments[i].1.clone());
                        proof {
                            assert(ordered@.map_values(|x: Name| x@) =~= before_o.push(
                                assignments@[i as int].1@,
                            ));
                        }
                    },
                }
                i = i + 1;
            }
            proof {
                assert(av.take(av.len() as int) =~= av);
            }
            let ghost st = ScanState {
                used_name,
                ordered: ordered@.map_values(|x: Name| x@),
                named: named@.map_values(|x: (Name, Name)| (x.0@, x.1@)),
            };
            let mut result: InsertionOrderedMap<Name, Option<Name>> = InsertionOrderedMap::new();
            let mut k: usize = 0;
            proof {
                assert(l.take(0) =~= Seq::<Seq<char>>::empty());
                assert(domain_entries(result.entries()) =~= Seq::<
                    (Seq<char>, Option<Seq<char>>),
                >::empty());
            }
            while k < named_domains.len()
                invariant
                    k <= named_domains@.len(),
                    l == named_domains@.map_values(|n: Name| n@),
                    l.len() == av.len(),
                    l.len() > 0,
                    opt_names(base_domains) == Some(l),
                    av == assignment_views(assignments@),
                    scan(l, av) == Ok::<ScanState, ErrorKind>(st),
                    st.ordered == ordered@.map_values(|x: Name| x@),
                    st.named == named@.map_values(|x: (Name, Name)| (x.0@, x.1@)),
                    result.entries().len() == k,
                    fill(l.take(k as int), st) == Ok::<
                        Seq<(Seq<char>, Option<Seq<char>>)>,
                        ErrorKind,
                    >(domain_entries(result.entries())),
                decreases named_domains@.len() - k,
            {
                proof {
                    assert(l.take(k + 1).drop_last() =~= l.take(k as int));
                    assert(l.take(k + 1)[k as int] == l[k as int]);
                }
                let v: Name = if k < ordered.len() {
                    ordered[k].clone()
                } else {
                    match lookup_named(&named, &named_domains[k]) {
                        Some(v) => v.clone(),
                        None => {
                            proof {
                                lemma_fill_err(l, st, k + 1);
                            }
                            return Err(
                                Error::InvalidArgument(String::from_str("Missing domain assignment")),
                            );
                        },
                    }
                };
                let key = named_domains[k].clone();
                let ghost before = result.entries();
                let ghost kg = key;
                let ghost vg = v;
                proof {
                    let keys = domain_entries(before).map_values(
                        |e: (Seq<char>, Option<Seq<char>>)| e.0,
                    );
                    if keys.contains(key@) {
                        let j = choose|j: int| 0 <= j < keys.len() && keys[j] == key@;
                        assert(before[j].0.key() =~= key.key());
                    } else {
                        assert forall|j: int| 0 <= j < before.len() implies #[trigger] before[j].0.key()
                            != key.key() by {
                            if before[j].0.key() == key.key() {
                                assert(seq![before[j].0@][0] == seq![key@][0]);
                                assert(keys[j] == key@);
                            }
                        }
                    }
                }
                match result.try_insert(key, Some(v)) {
                    Ok(()) => {},
                    Err(e) => {
                        proof {
                            lemma_fill_err(l, st, k + 1);
                        }
                        return Err(e);
                    },
                }
                proof {
                    assert(result.entries() == before.push((kg, Some(vg))));
                    assert(domain_entries(result.entries()) =~= domain_entries(before).push(
                        (l[k as int], Some(vg@)),
                    ));
                }
                k = k + 1;
            }
            proof {
                assert(l.take(l.len() as int) =~= l);
            }
            Ok(DomainAssignments::List(result))
        },
    }
}

/// A domain has an assignment by name exactly when looking it up finds one.
proof fn lemma_lookup_has_key(named: Seq<(Seq<char>, Seq<char>)>, n: Seq<char>)
    ensures
        (lookup(named, n) is Some) == has_key(named, n),
    decreases named.len(),
{
    if named.len() > 0 {
        lemma_lookup_has_key(named.drop_last(), n);
        if has_key(named.drop_last(), n) {
            let j = choose|j: int| 0 <= j < named.drop_last().len() && #[trigger] named.drop_last()[j].0 == n;
            assert(named[j].0 == n);
        }
        if has_key(named, n) && named.last().0 != n {
            let j = choose|j: int| 0 <= j < named.len() && #[trigger] named[j].0 == n;
            assert(named.drop_last()[j].0 == n);
        }
    }
}

impl StreamletInstance {
    /// An instance named `name` of a definition whose domains are
    /// `base_domains` (`None` for a default domain only), whose parameters
    /// are `parameters` and whose ports are `ports`: its domains assigned by
    /// `domain_assignments` (see `domains_for`) and its parameters by
    /// `parameter_assignments` (see `parameters_for`).
    pub fn new(
        name: &str,
        base_domains: Option<Vec<Name>>,
        parameters: &InsertionOrderedMap<Name, GenericParameter>,
        ports: &InsertionOrderedMap<Name, InterfacePort>,
        domain_assignments: Vec<(Option<Name>, Name)>,
        parameter_assignments: Vec<(Option<Name>, GenericParamValue)>,
    ) -> (r: Result<StreamletInstance, Error>)
        requires
            named_values_reduce(parameter_assignments@),
        ensures
            match instance_with(
                name@,
                domains_for(opt_names(base_domains), assignment_views(domain_assignments@)),
                parameters_for(
                    parameter_entries(parameters.entries()),
                    attempt_views(parameter_assignments@),
                ),
                port_entries(ports.entries()),
            ) {
                Ok(v) => r matches Ok(i) && i@ == v,
                Err(k) => r matches Err(e) && e.kind() == k,
            },
    {
        let n = match Name::try_new(name) {
            Ok(n) => n,
            Err(e) => {
                return Err(e);
            },
        };
        let assigned = if domain_assignments.len() > 0 {
            explicit_assignments(base_domains, domain_assignments)
        } else {
            default_assignments(base_domains)
        };
        let assigned = match assigned {
            Ok(d) => d,
            Err(e) => {
                return Err(e);
            },
        };
        let out = match assign_port_domains(&assigned, ports) {
            Ok(out) => out,
            Err(e) => {
                return Err(e);
            },
        };
        let params = if parameter_assignments.len() > 0 {
            match set_parameter_assignments(parameters, parameter_assignments) {
                Ok(m) => m,
                Err(e) => {
                    return Err(e);
                },
            }
        } else {
            set_parameters_default(parameters)
        };
        Ok(
            StreamletInstance {
                name: n,
                domain_assignments: assigned,
                parameter_assignments: params,
                ports: out,
                doc: None,
            },
        )
    }

    /// An instance named `name` of a definition whose domains are
    /// `base_domains` (`None` for a default domain only), whose parameters
    /// are `parameters` and whose ports are `ports`, every domain assigned
    /// the structure's default domain and every parameter at its default
    /// (see `default_instance`).
    pub fn new_assign_default(
        name: &str,
        base_domains: Option<Vec<Name>>,
        parameters: &InsertionOrderedMap<Name, GenericParameter>,
        ports: &InsertionOrderedMap<Name, InterfacePort>,
    ) -> (r: Result<StreamletInstance, Error>)
        ensures
            match default_instance(
                name@,
                opt_names(base_domains),
                parameter_entries(parameters.entries()),
                port_entries(ports.entries()),
            ) {
                Ok(v) => r matches Ok(i) && i@ == v,
                Err(k) => r matches Err(e) && e.kind() == k,
            },
    {
        let no_domains: Vec<(Option<Name>, Name)> = Vec::new();
        let no_values: Vec<(Option<Name>, GenericParamValue)> = Vec::new();
        proof {
            assert(assignment_views(no_domains@).len() == 0);
            assert(attempt_views(no_values@).len() == 0);
        }
        Self::new(name, base_domains, parameters, ports, no_domains, no_values)
    }

    /// An instance as `new` makes it, every parameter at its default.
    pub fn new_assign_parameters_default(
        name: &str,
        base_domains: Option<Vec<Name>>,
        parameters: &InsertionOrderedMap<Name, GenericParameter>,
        ports: &InsertionOrderedMap<Name, InterfacePort>,
        domain_assignments: Vec<(Option<Name>, Name)>,
    ) -> (r: Result<StreamletInstance, Error>)
        ensures
            match instance_with(
                name@,
                domains_for(opt_names(base_domains), assignment_views(domain_assignments@)),
                Ok(default_parameters(parameter_entries(parameters.entries()))),
                port_entries(ports.entries()),
            ) {
                Ok(v) => r matches Ok(i) && i@ == v,
                Err(k) => r matches Err(e) && e.kind() == k,
            },
    {
        let no_values: Vec<(Option<Name>, GenericParamValue)> = Vec::new();
        proof {
            assert(attempt_views(no_values@).len() == 0);
        }
        Self::new(name, base_domains, parameters, ports, domain_assignments, no_values)
    }

    /// An instance as `new` makes it, every domain assigned the structure's
    /// default domain.
    pub fn new_assign_domains_default(
        name: &str,
        base_domains: Option<Vec<Name>>,
        parameters: &InsertionOrderedMap<Name, GenericParameter>,
        ports: &InsertionOrderedMap<Name, InterfacePort>,
        parameter_assignments: Vec<(Option<Name>, GenericParamValue)>,
    ) -> (r: Result<StreamletInstance, Error>)
        requires
            named_values_reduce(parameter_assignments@),
        ensures
            match instance_with(
                name@,
                default_domains(opt_names(base_domains)),
                parameters_for(
                    parameter_entries(parameters.entries()),
                    attempt_views(parameter_assignments@),
                ),
                port_entries(ports.entries()),
            ) {
                Ok(v) => r matches Ok(i) && i@ == v,
                Err(k) => r matches Err(e) && e.kind() == k,
            },
    {
        let no_domains: Vec<(Option<Name>, Name)> = Vec::new();
        proof {
            assert(assignment_views(no_domains@).len() == 0);
        }
        Self::new(name, base_domains, parameters, ports, no_domains, parameter_assignments)
    }

    pub fn name(&self) -> (r: &Name)
        ensures
            r@ == self@.name,
    {
        &self.name
    }

    pub fn ports(&self) -> (r: &InsertionOrderedMap<Name, InterfacePort>)
        ensures
            port_entries(r.entries()) == self@.ports,
    {
        &self.ports
    }

    pub fn domain_assignments(&self) -> (r: &DomainAssignments)
        ensures
            r@ == self@.domains,
    {
        &self.domain_assignments
    }

    /// The input ports, in order.
    pub fn inputs(&self) -> (r: Vec<InterfacePort>)
        ensures
            port_views(r@) == ports_in(self@.ports, InterfaceDirection::In),
    {
        ports_toward(&self.ports, InterfaceDirection::In)
    }

    /// The output ports, in order.
    pub fn outputs(&self) -> (r: Vec<InterfacePort>)
        ensures
            port_views(r@) == ports_in(self@.ports, InterfaceDirection::Out),
    {
        ports_toward(&self.ports, InterfaceDirection::Out)
    }

    pub fn parameter_assignments(&self) -> (r: &InsertionOrderedMap<
        Name,
        GenericParameterAssignment,
    >)
        ensures
            assignment_entries(r.entries()) == self@.parameters,
    {
        &self.parameter_assignments
    }

    /// The domains assigned to the instance (see `assigned_of`).
    pub fn assigned_domains(&self) -> (r: Result<Option<Vec<Name>>, Error>)
        ensures
            match assigned_of(self@.domains) {
                Some(a) => r matches Ok(x) && opt_names(x) == a,
                None => r matches Err(e) && e is ProjectError,
            },
    {
        self.domain_assignments.assigned_domains()
    }

    /// The port named `name`, or an `InvalidArgument` error when the
    /// instance has none.
    pub fn try_get_port(&self, name: &Name) -> (r: Result<InterfacePort, Error>)
        ensures
            match port_named(self@.ports, name@) {
                Some(p) => r matches Ok(x) && x@ == p,
                None => r matches Err(e) && e is InvalidArgument,
            },
    {
        match port_entry(&self.ports, name) {
            Some(p) => Ok(p.clone()),
            None => Err(
                Error::InvalidArgument(
                    concat(
                        &[
                            "No port with name ",
                            name.as_str(),
                            " exists on this Streamlet instance",
                        ],
                    ),
                ),
            ),
        }
    }

    pub fn doc(&self) -> (r: Option<&String>)
        ensures
            match r {
                Some(d) => self@.doc == Some(d@),
                None => self@.doc is None,
            },
    {
        self.doc.as_ref()
    }

    pub fn set_doc(&mut self, doc: String)
        ensures
            final(self)@ == (InstanceView { doc: Some(doc@), ..old(self)@ }),
    {
        self.doc = Some(doc);
    }
}

/// A structural implementation: the ports of its interface, its streamlet
/// instances (in the order of their names), and the connections between
/// their ports.
#[derive(Debug, PartialEq, Eq, Hash)]
pub struct Structure {
    interface: InsertionOrderedMap<Name, InterfacePort>,
    streamlet_instances: Vec<StreamletInstance>,
    connections: Vec<Connection>,
}

/// The model of a `Structure`.
pub struct StructureView {
    pub ports: Seq<(Seq<char>, PortView)>,
    pub instances: Seq<InstanceView>,
    pub connections: Seq<(PortRef, PortRef)>,
}

/// The instances come in the strict order of their names.
pub open spec fn names_sorted(s: Seq<InstanceView>) -> bool {
    forall|i: int, j: int| 0 <= i < j < s.len() ==> text_lt(#[trigger] s[i].name, #[trigger] s[j].name)
}

impl View for Structure {
    type V = StructureView;

    closed spec fn view(&self) -> StructureView {
        StructureView {
            ports: port_entries(self.interface.entries()),
            instances: self.streamlet_instances@.map_values(|i: StreamletInstance| i@),
            connections: self.connections@.map_values(|c: Connection| c@),
        }
    }
}

/// The instance named `n`, if any.
pub open spec fn instance_named(s: Seq<InstanceView>, n: Seq<char>) -> Option<InstanceView> {
    if exists|i: int| 0 <= i < s.len() && #[trigger] s[i].name == n {
        Some(s[choose|i: int| 0 <= i < s.len() && #[trigger] s[i].name == n])
    } else {
        None
    }
}

/// The port a reference names, and whether it is on an instance; `None`
/// where there is no such instance or port.
pub open spec fn port_of(sv: StructureView, i: PortRef) -> Option<(bool, PortView)> {
    match i.instance {
        Some(n) => match instance_named(sv.instances, n) {
            Some(inst) => match port_named(inst.ports, i.port) {
                Some(p) => Some((true, p)),
                None => None,
            },
            None => None,
        },
        None => match port_named(sv.ports, i.port) {
            Some(p) => Some((false, p)),
            None => None,
        },
    }
}

/// The connection between `l` and `r`, as (source, sink): the two ports
/// must exist (else an invalid argument), carry the same stream, and have
/// opposite directions when both are on instances or both on the
/// structure, the same direction otherwise (else an invalid target). An
/// outgoing port of an instance, or an incoming port of the structure, is
/// the source.
pub open spec fn connection_of(sv: StructureView, l: PortRef, r: PortRef) -> Result<
    (PortRef, PortRef),
    ErrorKind,
> {
    match port_of(sv, l) {
        None => Err(ErrorKind::InvalidArgument),
        Some(li) => match port_of(sv, r) {
            None => Err(ErrorKind::InvalidArgument),
            Some(ri) => if li.1.stream == ri.1.stream && ((li.0 == ri.0) == (li.1.direction
                != ri.1.direction)) {
                match li.1.direction {
                    InterfaceDirection::Out => if li.0 {
                        Ok((l, r))
                    } else {
                        Ok((r, l))
                    },
                    InterfaceDirection::In => if li.0 {
                        Ok((r, l))
                    } else {
                        Ok((l, r))
                    },
                }
            } else {
                Err(ErrorKind::InvalidTarget)
            },
        },
    }
}

/// Whether data leaves a port (found as by `port_of`) into the connections
/// of the structure: an outgoing port of an instance, or an incoming port of
/// the structure itself.
pub open spec fn feeds(p: (bool, PortView)) -> bool {
    (p.0 && p.1.direction is Out) || (!p.0 && p.1.direction is In)
}

/// Which port of a connection is its source does not depend on the order
/// of the arguments: connecting `l` to `r` and `r` to `l` give the same
/// result. The source is the port of the two that feeds the connections
/// (an outgoing port of an instance or an incoming port of the structure),
/// the sink the one that does not (an incoming port of an instance or an
/// outgoing port of the structure).
pub proof fn lemma_connection_roles(sv: StructureView, l: PortRef, r: PortRef)
    ensures
        connection_of(sv, l, r) == connection_of(sv, r, l),
        connection_of(sv, l, r) is Ok <==> (port_of(sv, l) matches Some(pl) && port_of(sv, r) matches Some(
            pr,
        ) && pl.1.stream == pr.1.stream && feeds(pl) != feeds(pr)),
        (port_of(sv, l) is None || port_of(sv, r) is None) ==> connection_of(sv, l, r) == Err::<
            (PortRef, PortRef),
            ErrorKind,
        >(ErrorKind::InvalidArgument),
        connection_of(sv, l, r) matches Ok((a, b)) ==> {
            &&& (a == l && b == r) || (a == r && b == l)
            &&& port_of(sv, a) matches Some(pa) && feeds(pa)
            &&& port_of(sv, b) matches Some(pb) && !feeds(pb)
        },
{
}

/// The references to the ports `ps` of the instance named `inst` (of the
/// structure itself for `None`), in order.
pub open spec fn port_refs(inst: Option<Seq<char>>, ps: Seq<(Seq<char>, PortView)>) -> Seq<PortRef> {
    ps.map_values(|e: (Seq<char>, PortView)| PortRef { instance: inst, port: e.0 })
}

/// The models of a list of references.
pub open spec fn ref_views(v: Seq<InterfaceReference>) -> Seq<PortRef> {
    v.map_values(|x: InterfaceReference| x@)
}

/// The references to the ports of the structure itself, in order.
pub open spec fn local_refs(sv: StructureView) -> Seq<PortRef> {
    port_refs(None, sv.ports)
}

/// The references to the ports of the instances, instance by instance.
pub open spec fn instance_refs(s: Seq<InstanceView>) -> Seq<PortRef>
    decreases s.len(),
{
    if s.len() == 0 {
        Seq::empty()
    } else {
        instance_refs(s.drop_last()) + port_refs(Some(s.last().name), s.last().ports)
    }
}

/// Every port of the structure and of its instances.
pub open spec fn all_refs(sv: StructureView) -> Seq<PortRef> {
    local_refs(sv) + instance_refs(sv.instances)
}

/// Some port is the source of two connections.
pub open spec fn duplicate_source(c: Seq<(PortRef, PortRef)>) -> bool {
    exists|i: int, j: int| 0 <= i < j < c.len() && #[trigger] c[i].0 == #[trigger] c[j].0
}

/// Some port is the sink of two connections.
pub open spec fn duplicate_sink(c: Seq<(PortRef, PortRef)>) -> bool {
    exists|i: int, j: int| 0 <= i < j < c.len() && #[trigger] c[i].1 == #[trigger] c[j].1
}

/// A port reference in words: `instance.port`, or `port` for a port of
/// the structure itself.
pub open spec fn port_text(p: PortRef) -> Seq<char> {
    match p.instance {
        Some(i) => i + "."@ + p.port,
        None => p.port,
    }
}

/// Connection `i` reuses the source, or the sink, of an earlier one.
pub open spec fn clash(c: Seq<(PortRef, PortRef)>, i: int) -> bool {
    ||| exists|j: int| 0 <= j < i && #[trigger] c[j].0 == c[i].0
    ||| exists|j: int| 0 <= j < i && #[trigger] c[j].1 == c[i].1
}

/// Connection `i` is the first that reuses a source or a sink.
pub open spec fn first_clash(c: Seq<(PortRef, PortRef)>, i: int) -> bool {
    &&& 0 <= i < c.len()
    &&& clash(c, i)
    &&& forall|j: int| 0 <= j < i ==> !#[trigger] clash(c, j)
}

/// Port `k` (of `all_refs`) is the first that is not connected.
pub open spec fn first_unconnected(sv: StructureView, k: int) -> bool {
    &&& 0 <= k < all_refs(sv).len()
    &&& !connected(sv.connections, all_refs(sv)[k])
    &&& forall|j: int| 0 <= j < k ==> connected(sv.connections, #[trigger] all_refs(sv)[j])
}

/// Why the connections of `sv` are refused: the first connection that
/// reuses a source (or else a sink) of an earlier one; where none does, the
/// first port left unconnected.
pub open spec fn connections_message(sv: StructureView) -> Seq<char> {
    let c = sv.connections;
    if exists|i: int| first_clash(c, i) {
        let i = choose|i: int| first_clash(c, i);
        if exists|j: int| 0 <= j < i && #[trigger] c[j].0 == c[i].0 {
            "Duplicate use of Source "@ + port_text(c[i].0)
        } else {
            "Duplicate use of Sink "@ + port_text(c[i].1)
        }
    } else {
        let k = choose|k: int| first_unconnected(sv, k);
        "Port "@ + port_text(all_refs(sv)[k]) + " has not been connected"@
    }
}

proof fn lemma_first_clash_unique(c: Seq<(PortRef, PortRef)>, i: int)
    requires
        first_clash(c, i),
    ensures
        (choose|x: int| first_clash(c, x)) == i,
{
    let x = choose|x: int| first_clash(c, x);
    assert(first_clash(c, x));
    if x < i {
        assert(!clash(c, x));
    } else if x > i {
        assert(!clash(c, i));
    }
}

proof fn lemma_first_unconnected_unique(sv: StructureView, k: int)
    requires
        first_unconnected(sv, k),
    ensures
        (choose|x: int| first_unconnected(sv, x)) == k,
{
    let x = choose|x: int| first_unconnected(sv, x);
    assert(first_unconnected(sv, x));
    if x < k {
        assert(connected(sv.connections, all_refs(sv)[x]));
    } else if x > k {
        assert(connected(sv.connections, all_refs(sv)[k]));
    }
}

/// The port `x` is the source or the sink of a connection.
pub open spec fn connected(c: Seq<(PortRef, PortRef)>, x: PortRef) -> bool {
    exists|k: int| #![trigger c[k]] 0 <= k < c.len() && (c[k].0 == x || c[k].1 == x)
}

/// Every port is connected, and none twice as a source or as a sink.
pub open spec fn connections_valid(sv: StructureView) -> bool {
    &&& !duplicate_source(sv.connections)
    &&& !duplicate_sink(sv.connections)
    &&& forall|i: int| 0 <= i < all_refs(sv).len() ==> connected(sv.connections, #[trigger] all_refs(sv)[i])
}

impl Structure {
    #[verifier::type_invariant]
    closed spec fn wf(self) -> bool {
        names_sorted(self.streamlet_instances@.map_values(|i: StreamletInstance| i@))
    }

    /// The instances of a structure come in the strict order of their names.
    pub fn lemma_sorted(&self)
        ensures
            names_sorted(self@.instances),
    {
        proof {
            use_type_invariant(self);
        }
    }

    /// A structure with the given interface ports, and no instances or
    /// connections yet.
    pub fn new(interface: InsertionOrderedMap<Name, InterfacePort>) -> (r: Structure)
        ensures
            r@ == (StructureView {
                ports: port_entries(interface.entries()),
                instances: Seq::empty(),
                connections: Seq::empty(),
            }),
    {
        let r = Structure { interface, streamlet_instances: Vec::new(), connections: Vec::new() };
        proof {
            assert(r.streamlet_instances@.map_values(|i: StreamletInstance| i@) =~= Seq::empty());
            assert(r.connections@.map_values(|c: Connection| c@) =~= Seq::empty());
        }
        r
    }

    /// The ports of the structure's interface.
    pub fn ports(&self) -> (r: &InsertionOrderedMap<Name, InterfacePort>)
        ensures
            port_entries(r.entries()) == self@.ports,
    {
        &self.interface
    }

    pub fn streamlet_instances(&self) -> (r: &Vec<StreamletInstance>)
        ensures
            r@.map_values(|i: StreamletInstance| i@) == self@.instances,
    {
        &self.streamlet_instances
    }

    pub fn connections(&self) -> (r: &Vec<Connection>)
        ensures
            r@.map_values(|c: Connection| c@) == self@.connections,
    {
        &self.connections
    }

    /// The position of the instance named `name`, as `instance_named`
    /// finds it.
    fn find_instance(&self, name: &Name) -> (r: Option<usize>)
        ensures
            match instance_named(self@.instances, name@) {
                Some(v) => r matches Some(i) && i < self@.instances.len() && self@.instances[i as int]
                    == v,
                None => r is None,
            },
    {
        proof {
            use_type_invariant(self);
        }
        let ghost s = self@.instances;
        let mut i: usize = 0;
        while i < self.streamlet_instances.len()
            invariant
                i <= self.streamlet_instances@.len(),
                s == self.streamlet_instances@.map_values(|x: StreamletInstance| x@),
                names_sorted(s),
                forall|j: int| 0 <= j < i ==> #[trigger] s[j].name != name@,
            decreases self.streamlet_instances@.len() - i,
        {
            if self.streamlet_instances[i].name().name_eq(name) {
                proof {
                    assert(s[i as int].name == name@);
                    let j = choose|j: int| 0 <= j < s.len() && #[trigger] s[j].name == name@;
                    if j != i {
                        if j < i {
                            lemma_text_lt_irreflexive(name@);
                            assert(text_lt(s[j].name, s[i as int].name));
                        } else {
                            lemma_text_lt_irreflexive(name@);
                            assert(text_lt(s[i as int].name, s[j].name));
                        }
                    }
                }
                return Some(i);
            }
            i = i + 1;
        }
        None
    }

    /// The instance named `name`, or an `InvalidArgument` error when there
    /// is none.
    pub fn try_get_streamlet_instance(&self, name: &Name) -> (r: Result<&StreamletInstance, Error>)
        ensures
            match instance_named(self@.instances, name@) {
                Some(v) => r matches Ok(x) && x@ == v,
                None => r matches Err(e) && e is InvalidArgument,
            },
    {
        match self.find_instance(name) {
            Some(i) => Ok(&self.streamlet_instances[i]),
            None => Err(
                Error::InvalidArgument(
                    concat(
                        &[
                            "A streamlet instance with name ",
                            name.as_str(),
                            " does not exist in this structure",
                        ],
                    ),
                ),
            ),
        }
    }

    /// Adds an instance named `name` of a definition with domains
    /// `base_domains`, parameters `parameters` and ports `ports`, in its
    /// default assignments (see `default_instance`), as
    /// `try_add_streamlet_instance` does with no explicit assignments.
    pub fn try_add_streamlet_instance_default(
        &mut self,
        name: &str,
        base_domains: Option<Vec<Name>>,
        parameters: &InsertionOrderedMap<Name, GenericParameter>,
        ports: &InsertionOrderedMap<Name, InterfacePort>,
    ) -> (r: Result<(), Error>)
        ensures
            r is Err ==> final(self)@ == old(self)@,
            !crate::name::valid_name(name@) ==> (r matches Err(e) && e is InvalidArgument),
            crate::name::valid_name(name@) && instance_named(old(self)@.instances, name@) is Some ==> (
            r matches Err(e) && e is InvalidArgument),
            crate::name::valid_name(name@) && instance_named(old(self)@.instances, name@) is None
                ==> match default_instance(
                name@,
                opt_names(base_domains),
                parameter_entries(parameters.entries()),
                port_entries(ports.entries()),
            ) {
                Err(k) => r matches Err(e) && e.kind() == k,
                Ok(v) => r is Ok && final(self)@.ports == old(self)@.ports
                    && final(self)@.connections == old(self)@.connections && names_sorted(
                    final(self)@.instances,
                ) && exists|k: int|
                    0 <= k <= old(self)@.instances.len() && final(self)@.instances
                        == old(self)@.instances.insert(k, v),
            },
    {
        let none: Vec<(Option<Name>, Name)> = Vec::new();
        proof {
            assert(assignment_views(none@).len() == 0);
        }
        self.try_add_streamlet_instance(name, base_domains, parameters, ports, none)
    }

    /// Adds an instance named `name` of a definition with domains
    /// `base_domains`, parameters `parameters` and ports `ports`, its
    /// domains assigned by `domain_assignments` (see `domains_for`) and its
    /// parameters at their defaults, at its place in the order of names: an
    /// `InvalidArgument` error for an invalid name or for a name already
    /// taken; the structure is unchanged on any error.
    pub fn try_add_streamlet_instance(
        &mut self,
        name: &str,
        base_domains: Option<Vec<Name>>,
        parameters: &InsertionOrderedMap<Name, GenericParameter>,
        ports: &InsertionOrderedMap<Name, InterfacePort>,
        domain_assignments: Vec<(Option<Name>, Name)>,
    ) -> (r: Result<(), Error>)
        ensures
            r is Err ==> final(self)@ == old(self)@,
            !crate::name::valid_name(name@) ==> (r matches Err(e) && e is InvalidArgument),
            crate::name::valid_name(name@) && instance_named(old(self)@.instances, name@) is Some ==> (
            r matches Err(e) && e is InvalidArgument),
            crate::name::valid_name(name@) && instance_named(old(self)@.instances, name@) is None
                ==> match instance_with(
                name@,
                domains_for(opt_names(base_domains), assignment_views(domain_assignments@)),
                Ok(default_parameters(parameter_entries(parameters.entries()))),
                port_entries(ports.entries()),
            ) {
                Err(k) => r matches Err(e) && e.kind() == k,
                Ok(v) => r is Ok && final(self)@.ports == old(self)@.ports
                    && final(self)@.connections == old(self)@.connections && names_sorted(
                    final(self)@.instances,
                ) && exists|k: int|
                    0 <= k <= old(self)@.instances.len() && final(self)@.instances
                        == old(self)@.instances.insert(k, v),
            },
    {
        proof {
            use_type_invariant(&*self);
        }
        let n = match Name::try_new(name) {
            Ok(n) => n,
            Err(e) => {
                return Err(e);
            },
        };
        if self.find_instance(&n).is_some() {
            return Err(
                Error::InvalidArgument(
                    concat(
                        &[
                            "A streamlet instance with name ",
                            name,
                            " already exists in this structure",
                        ],
                    ),
                ),
            );
        }
        let inst = match StreamletInstance::new_assign_parameters_default(
            name,
            base_domains,
            parameters,
            ports,
            domain_assignments,
        ) {
            Ok(i) => i,
            Err(e) => {
                return Err(e);
            },
        };
        let ghost s = old(self)@.instances;
        let ghost nv = inst@;
        proof {
            assert(nv.name == name@);
            assert forall|j: int| 0 <= j < s.len() implies #[trigger] s[j].name != nv.name by {
                if s[j].name == nv.name {
                    assert(instance_named(s, name@) is Some);
                }
            }
        }
        let mut j: usize = 0;
        while j < self.streamlet_instances.len() && self.streamlet_instances[j].name().name_lt(
            inst.name(),
        )
            invariant
                j <= self.streamlet_instances@.len(),
                s == self.streamlet_instances@.map_values(|x: StreamletInstance| x@),
                nv == inst@,
                forall|k: int| 0 <= k < j ==> text_lt(#[trigger] s[k].name, nv.name),
            decreases self.streamlet_instances@.len() - j,
        {
            j = j + 1;
        }
        let mut v: Vec<StreamletInstance> = Vec::new();
        std::mem::swap(&mut v, &mut self.streamlet_instances);
        let ghost old_v = v@;
        v.insert(j, inst);
        proof {
            assert(s == old_v.map_values(|x: StreamletInstance| x@));
            assert(names_sorted(s));
            if j < s.len() {
                lemma_text_lt_total(s[j as int].name, nv.name);
                assert(text_lt(nv.name, s[j as int].name));
            }
            let t = v@.map_values(|x: StreamletInstance| x@);
            assert(t =~= s.insert(j as int, nv));
            assert forall|a: int, b: int| 0 <= a < b < t.len() implies text_lt(
                #[trigger] t[a].name,
                #[trigger] t[b].name,
            ) by {
                if b < j {
                    assert(text_lt(s[a].name, s[b].name));
                } else if b == j {
                    assert(text_lt(s[a].name, nv.name));
                } else if a < j {
                    assert(text_lt(s[a].name, nv.name));
                    assert(text_lt(nv.name, s[j as int].name));
                    if b - 1 > j {
                        assert(text_lt(s[j as int].name, s[b - 1].name));
                        lemma_text_lt_transitive(nv.name, s[j as int].name, s[b - 1].name);
                    }
                    lemma_text_lt_transitive(s[a].name, nv.name, s[b - 1].name);
                } else if a == j {
                    if b - 1 > j {
                        assert(text_lt(s[j as int].name, s[b - 1].name));
                        lemma_text_lt_transitive(nv.name, s[j as int].name, s[b - 1].name);
                    }
                } else {
                    assert(text_lt(s[a - 1].name, s[b - 1].name));
                }
            }
        }
        self.streamlet_instances = v;
        proof {
            assert(self@.instances == s.insert(j as int, nv));
        }
        Ok(())
    }

    /// The port a reference names and whether it is on an instance (see
    /// `port_of`), or an `InvalidArgument` error when there is none.
    fn get_port(&self, i: &InterfaceReference) -> (r: Result<(bool, InterfacePort), Error>)
        ensures
            match port_of(self@, i@) {
                Some(x) => r matches Ok(y) && y.0 == x.0 && y.1@ == x.1,
                None => r matches Err(e) && e is InvalidArgument,
            },
    {
        match i.streamlet_instance() {
            Some(inst) => match self.try_get_streamlet_instance(inst) {
                Ok(x) => match x.try_get_port(i.port()) {
                    Ok(p) => Ok((true, p)),
                    Err(e) => Err(e),
                },
                Err(e) => Err(e),
            },
            None => match port_entry(&self.interface, i.port()) {
                Some(p) => Ok((false, p.clone())),
                None => Err(
                    Error::InvalidArgument(
                        concat(
                            &[
                                "No port with name ",
                                i.port().as_str(),
                                " exists within this structure",
                            ],
                        ),
                    ),
                ),
            },
        }
    }

    /// Connects the ports `left` and `right` (see `connection_of`): an
    /// `InvalidArgument` error where a port does not exist, an
    /// `InvalidTarget` error where the two cannot be connected; the
    /// structure is unchanged on any error.
    pub fn try_add_connection(&mut self, left: InterfaceReference, right: InterfaceReference) -> (r:
        Result<(), Error>)
        ensures
            match connection_of(old(self)@, left@, right@) {
                Ok(c) => r is Ok && final(self)@ == (StructureView {
                    connections: old(self)@.connections.push(c),
                    ..old(self)@
                }),
                Err(k) => r matches Err(e) && e.kind() == k && final(self)@ == old(self)@,
            },
    {
        proof {
            use_type_invariant(&*self);
        }
        let left_i = match self.get_port(&left) {
            Ok(x) => x,
            Err(e) => {
                return Err(e);
            },
        };
        let right_i = match self.get_port(&right) {
            Ok(x) => x,
            Err(e) => {
                return Err(e);
            },
        };
        let same_layer = left_i.0 == right_i.0;
        let ld = left_i.1.direction();
        let rd = right_i.1.direction();
        let opposite = match (ld, rd) {
            (InterfaceDirection::In, InterfaceDirection::In) => false,
            (InterfaceDirection::Out, InterfaceDirection::Out) => false,
            _ => true,
        };
        if left_i.1.stream_id() == right_i.1.stream_id() && same_layer == opposite {
            let (source, sink) = match ld {
                InterfaceDirection::Out => if left_i.0 {
                    (left, right)
                } else {
                    (right, left)
                },
                InterfaceDirection::In => if left_i.0 {
                    (right, left)
                } else {
                    (left, right)
                },
            };
            let c = Connection::new(source, sink);
            let ghost before = self.connections@;
            let mut cs: Vec<Connection> = Vec::new();
            std::mem::swap(&mut cs, &mut self.connections);
            cs.push(c);
            self.connections = cs;
            proof {
                assert(self.connections@.map_values(|c: Connection| c@) =~= before.map_values(
                    |c: Connection| c@,
                ).push(c@));
            }
            Ok(())
        } else {
            let l = left.text();
            let r = right.text();
            Err(
                Error::InvalidTarget(
                    concat(&["The ports ", l.as_str(), " and ", r.as_str(), " are incompatible"]),
                ),
            )
        }
    }
}

/// Whether some reference in `v` names the same port as `x`.
fn contains_ref(v: &Vec<InterfaceReference>, x: &InterfaceReference) -> (r: bool)
    ensures
        r == exists|j: int| 0 <= j < v@.len() && #[trigger] v@[j]@ == x@,
{
    let mut i: usize = 0;
    while i < v.len()
        invariant
            i <= v@.len(),
            forall|j: int| 0 <= j < i ==> #[trigger] v@[j]@ != x@,
        decreases v@.len() - i,
    {
        if v[i].same_as(x) {
            return true;
        }
        i = i + 1;
    }
    false
}

proof fn lemma_instance_refs_step(s: Seq<InstanceView>, i: int)
    requires
        0 <= i < s.len(),
    ensures
        instance_refs(s.take(i + 1)) == instance_refs(s.take(i)) + port_refs(
            Some(s[i].name),
            s[i].ports,
        ),
{
    assert(s.take(i + 1).drop_last() =~= s.take(i));
}


/// References to the ports of `ports`, on the instance named `inst` (on the
/// structure itself for `None`), in order.
fn refs_to_ports(inst: Option<Name>, ports: &InsertionOrderedMap<Name, InterfacePort>) -> (r: Vec<
    InterfaceReference,
>)
    ensures
        ref_views(r@) == port_refs(opt_name(inst), port_entries(ports.entries())),
{
    let ghost ps = port_entries(ports.entries());
    let ghost iv = opt_name(inst);
    let mut r: Vec<InterfaceReference> = Vec::new();
    let mut i: usize = 0;
    proof {
        assert(ref_views(r@) =~= port_refs(iv, ps.take(0)));
    }
    while i < ports.len()
        invariant
            i <= ports.entries().len(),
            ps == port_entries(ports.entries()),
            iv == opt_name(inst),
            r@.len() == i,
            ref_views(r@) == port_refs(iv, ps.take(i as int)),
        decreases ports.entries().len() - i,
    {
        let ghost before = r@;
        let key = ports.key_at(i).clone();
        let x = InterfaceReference::new(clone_opt_name(&inst), key);
        proof {
            assert(x@ == PortRef { instance: iv, port: ps[i as int].0 });
        }
        r.push(x);
        proof {
            assert forall|j: int| 0 <= j < i + 1 implies #[trigger] ref_views(r@)[j] == port_refs(
                iv,
                ps.take(i + 1),
            )[j] by {
                if j < i {
                    assert(ref_views(before)[j] == port_refs(iv, ps.take(i as int))[j]);
                    assert(r@[j] == before[j]);
                    assert(ps.take(i + 1)[j] == ps.take(i as int)[j]);
                }
            }
            assert(ref_views(r@) =~= port_refs(iv, ps.take(i + 1)));
        }
        i = i + 1;
    }
    proof {
        assert(ps.take(ports.entries().len() as int) =~= ps);
    }
    r
}

impl Structure {
    /// References to the ports of the structure itself, in order.
    pub fn local_interface_references(&self) -> (r: Vec<InterfaceReference>)
        ensures
            ref_views(r@) == local_refs(self@),
    {
        refs_to_ports(None, &self.interface)
    }

    /// References to the ports of the instances, instance by instance in the
    /// order of their names.
    pub fn streamlet_instance_interface_references(&self) -> (r: Vec<InterfaceReference>)
        ensures
            ref_views(r@) == instance_refs(self@.instances),
    {
        let ghost s = self@.instances;
        let mut r: Vec<InterfaceReference> = Vec::new();
        let mut i: usize = 0;
        proof {
            assert(ref_views(r@) =~= instance_refs(s.take(0)));
        }
        while i < self.streamlet_instances.len()
            invariant
                i <= self.streamlet_instances@.len(),
                s == self.streamlet_instances@.map_values(|x: StreamletInstance| x@),
                ref_views(r@) == instance_refs(s.take(i as int)),
            decreases self.streamlet_instances@.len() - i,
        {
            let inst = &self.streamlet_instances[i];
            let mut more = refs_to_ports(Some(inst.name().clone()), inst.ports());
            let ghost a = r@;
            let ghost b = more@;
            r.append(&mut more);
            proof {
                assert(ref_views(r@) =~= ref_views(a) + ref_views(b));
                assert(s[i as int] == inst@);
                lemma_instance_refs_step(s, i as int);
            }
            i = i + 1;
        }
        proof {
            assert(s.take(self.streamlet_instances@.len() as int) =~= s);
        }
        r
    }

    /// References to every port: those of the structure, then those of the
    /// instances.
    pub fn interface_references(&self) -> (r: Vec<InterfaceReference>)
        ensures
            ref_views(r@) == all_refs(self@),
    {
        let mut r = self.local_interface_references();
        let mut more = self.streamlet_instance_interface_references();
        let ghost a = r@;
        let ghost b = more@;
        r.append(&mut more);
        proof {
            assert(ref_views(r@) =~= ref_views(a) + ref_views(b));
        }
        r
    }

    /// Checks that every port of the structure and of its instances is
    /// connected, and that no port is the source, or the sink, of two
    /// connections (see `connections_valid`); a `ProjectError` otherwise.
    pub fn validate_connections(&self) -> (r: Result<(), Error>)
        ensures
            r is Ok <==> connections_valid(self@),
            r matches Err(e) ==> e is ProjectError && e->ProjectError_0@ == connections_message(self@),
    {
        let ghost c = self@.connections;
        let mut sources: Vec<InterfaceReference> = Vec::new();
        let mut sinks: Vec<InterfaceReference> = Vec::new();
        let mut i: usize = 0;
        while i < self.connections.len()
            invariant
                i <= self.connections@.len(),
                c == self.connections@.map_values(|x: Connection| x@),
                sources@.len() == i,
                sinks@.len() == i,
                forall|j: int| 0 <= j < i ==> #[trigger] sources@[j]@ == c[j].0,
                forall|j: int| 0 <= j < i ==> #[trigger] sinks@[j]@ == c[j].1,
                !duplicate_source(c.take(i as int)),
                !duplicate_sink(c.take(i as int)),
                forall|j: int| 0 <= j < i ==> !#[trigger] clash(c, j),
            decreases self.connections@.len() - i,
        {
            let src = self.connections[i].source();
            let snk = self.connections[i].sink();
            if contains_ref(&sources, src) {
                proof {
                    let j = choose|j: int| 0 <= j < sources@.len() && #[trigger] sources@[j]@ == src@;
                    assert(c[j].0 == c[i as int].0);
                    assert(clash(c, i as int));
                    assert(first_clash(c, i as int));
                    lemma_first_clash_unique(c, i as int);
                }
                let t = src.text();
                let mut m = String::from_str("Duplicate use of Source ");
                m.append(t.as_str());
                return Err(Error::ProjectError(m));
            }
            sources.push(src.clone());
            if contains_ref(&sinks, snk) {
                proof {
                    let j = choose|j: int| 0 <= j < sinks@.len() && #[trigger] sinks@[j]@ == snk@;
                    assert(c[j].1 == c[i as int].1);
                    assert(clash(c, i as int));
                    assert(first_clash(c, i as int));
                    lemma_first_clash_unique(c, i as int);
                    assert forall|j: int| 0 <= j < i implies c[j].0 != c[i as int].0 by {
                        assert(sources@[j]@ == c[j].0);
                    }
                }
                let t = snk.text();
                let mut m = String::from_str("Duplicate use of Sink ");
                m.append(t.as_str());
                return Err(Error::ProjectError(m));
            }
            sinks.push(snk.clone());
            proof {
                assert forall|a: int, b: int| 0 <= a < b < i + 1 implies #[trigger] c.take(i + 1)[a].0
                    != #[trigger] c.take(i + 1)[b].0 by {
                    if b < i {
                        assert(c.take(i as int)[a].0 != c.take(i as int)[b].0);
                    } else {
                        assert(sources@[a]@ == c[a].0);
                    }
                }
                assert forall|a: int, b: int| 0 <= a < b < i + 1 implies #[trigger] c.take(i + 1)[a].1
                    != #[trigger] c.take(i + 1)[b].1 by {
                    if b < i {
                        assert(c.take(i as int)[a].1 != c.take(i as int)[b].1);
                    } else {
                        assert(sinks@[a]@ == c[a].1);
                    }
                }
                assert forall|j: int| 0 <= j < i + 1 implies !#[trigger] clash(c, j) by {
                    if j == i {
                        assert forall|a: int| 0 <= a < j implies c[a].0 != c[j].0 by {
                            assert(sources@[a]@ == c[a].0);
                        }
                        assert forall|a: int| 0 <= a < j implies c[a].1 != c[j].1 by {
                            assert(sinks@[a]@ == c[a].1);
                        }
                    }
                }
            }
            i = i + 1;
        }
        proof {
            assert(c.take(c.len() as int) =~= c);
        }
        let refs = self.interface_references();
        let ghost all = all_refs(self@);
        let mut k: usize = 0;
        while k < refs.len()
            invariant
                k <= refs@.len(),
                all == ref_views(refs@),
                all == all_refs(self@),
                c == self@.connections,
                sources@.len() == c.len(),
                sinks@.len() == c.len(),
                forall|j: int| 0 <= j < c.len() ==> #[trigger] sources@[j]@ == c[j].0,
                forall|j: int| 0 <= j < c.len() ==> #[trigger] sinks@[j]@ == c[j].1,
                forall|j: int| 0 <= j < k ==> connected(c, #[trigger] all[j]),
                forall|j: int| 0 <= j < c.len() ==> !#[trigger] clash(c, j),
            decreases refs@.len() - k,
        {
            let x = &refs[k];
            proof {
                assert(all[k as int] == x@);
            }
            if !(contains_ref(&sources, x) || contains_ref(&sinks, x)) {
                proof {
                    assert forall|m: int| 0 <= m < c.len() implies !(#[trigger] c[m].0 == x@ || c[m].1
                        == x@) by {
                        assert(sources@[m]@ == c[m].0);
                        assert(sinks@[m]@ == c[m].1);
                    }
                    assert(!connected(c, all[k as int]));
                    assert(first_unconnected(self@, k as int));
                    lemma_first_unconnected_unique(self@, k as int);
                    assert(!exists|i: int| first_clash(c, i));
                }
                let t = x.text();
                let mut m = String::from_str("Port ");
                m.append(t.as_str());
                m.append(" has not been connected");
                return Err(Error::ProjectError(m));
            }
            proof {
                if exists|j: int| 0 <= j < sources@.len() && #[trigger] sources@[j]@ == x@ {
                    let j = choose|j: int| 0 <= j < sources@.len() && #[trigger] sources@[j]@ == x@;
                    assert(c[j].0 == all[k as int]);
                    assert(connected(c, all[k as int]));
                } else {
                    let j = choose|j: int| 0 <= j < sinks@.len() && #[trigger] sinks@[j]@ == x@;
                    assert(c[j].1 == all[k as int]);
                    assert(connected(c, all[k as int]));
                }
            }
            k = k + 1;
        }
        Ok(())
    }
}

} // verus!
