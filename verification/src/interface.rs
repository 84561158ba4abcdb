//! The interface of a streamlet: its domains, its generic parameters and
//! its ports.
use vstd::prelude::*;
use crate::directions::InterfaceDirection;
use crate::error::{Error, ErrorKind};
use crate::generics::{GenericParameter, GenericParameterView};
use crate::messages::{concat, join};
use crate::name::Name;
use crate::ordered_map::{InsertionOrderedMap, MapKey};
use crate::parameters::parameter_entries;
use crate::structure::{InterfacePort, PortView, port_entries, port_named, texts_distinct};

verus! {

/// The interface of a streamlet. Without named domains (`None`) its ports
/// are in the default domain; with them, each port is in one of them.
#[derive(Debug, PartialEq, Eq, Hash)]
pub struct Interface {
    domains: Option<Vec<Name>>,
    parameters: InsertionOrderedMap<Name, GenericParameter>,
    ports: InsertionOrderedMap<Name, InterfacePort>,
}

/// The model of an `Interface`.
pub struct InterfaceView {
    pub domains: Option<Seq<Seq<char>>>,
    pub parameters: Seq<(Seq<char>, GenericParameterView)>,
    pub ports: Seq<(Seq<char>, PortView)>,
}

/// The texts of the names.
pub open spec fn name_texts(v: Seq<Name>) -> Seq<Seq<char>> {
    v.map_values(|n: Name| n@)
}

impl View for Interface {
    type V = InterfaceView;

    closed spec fn view(&self) -> InterfaceView {
        InterfaceView {
            domains: match self.domains {
                Some(d) => Some(name_texts(d@)),
                None => None,
            },
            parameters: parameter_entries(self.parameters.entries()),
            ports: port_entries(self.ports.entries()),
        }
    }
}

/// A port fits the domains of an interface: a named one of them, or the
/// default domain for an interface without named domains.
pub open spec fn port_fits(domains: Option<Seq<Seq<char>>>, p: PortView) -> bool {
    match domains {
        Some(ds) => p.domain matches Some(d) && ds.contains(d),
        None => p.domain is None,
    }
}

/// Whether an entry is named `n`.
pub open spec fn named<T>(s: Seq<(Seq<char>, T)>, n: Seq<char>) -> bool {
    exists|i: int| 0 <= i < s.len() && #[trigger] s[i].0 == n
}

/// The ports `ps` keyed by name, in order: the first port that does not fit
/// `domains` is an invalid argument, and a name that comes twice an
/// unexpected duplicate, whichever comes first.
pub open spec fn ports_of(domains: Option<Seq<Seq<char>>>, ps: Seq<PortView>) -> Result<
    Seq<(Seq<char>, PortView)>,
    ErrorKind,
>
    decreases ps.len(),
{
    if ps.len() == 0 {
        Ok(Seq::empty())
    } else {
        match ports_of(domains, ps.drop_last()) {
            Err(k) => Err(k),
            Ok(acc) => if !port_fits(domains, ps.last()) {
                Err(ErrorKind::InvalidArgument)
            } else if named(acc, ps.last().name) {
                Err(ErrorKind::UnexpectedDuplicate)
            } else {
                Ok(acc.push((ps.last().name, ps.last())))
            },
        }
    }
}

/// The parameters `ps` keyed by name, in order; a name that comes twice is
/// an unexpected duplicate.
pub open spec fn parameters_of(ps: Seq<GenericParameterView>) -> Result<
    Seq<(Seq<char>, GenericParameterView)>,
    ErrorKind,
> {
    if texts_distinct(ps.map_values(|p: GenericParameterView| p.name)) {
        Ok(ps.map_values(|p: GenericParameterView| (p.name, p)))
    } else {
        Err(ErrorKind::UnexpectedDuplicate)
    }
}

/// The ports of `ps` in the direction `d`, in order.
pub open spec fn ports_in(ps: Seq<(Seq<char>, PortView)>, d: InterfaceDirection) -> Seq<PortView>
    decreases ps.len(),
{
    if ps.len() == 0 {
        Seq::empty()
    } else if ps.last().1.direction == d {
        ports_in(ps.drop_last(), d).push(ps.last().1)
    } else {
        ports_in(ps.drop_last(), d)
    }
}

/// The parameter named `n` in `ps`, if any.
pub open spec fn parameter_named(ps: Seq<(Seq<char>, GenericParameterView)>, n: Seq<char>) -> Option<
    GenericParameterView,
> {
    if named(ps, n) {
        Some(ps[choose|i: int| 0 <= i < ps.len() && #[trigger] ps[i].0 == n].1)
    } else {
        None
    }
}

proof fn lemma_ports_of_err(domains: Option<Seq<Seq<char>>>, ps: Seq<PortView>, k: int)
    requires
        0 <= k <= ps.len(),
        ports_of(domains, ps.take(k)) is Err,
    ensures
        ports_of(domains, ps) == ports_of(domains, ps.take(k)),
    decreases ps.len() - k,
{
    if k < ps.len() {
        assert(ps.take(k + 1).drop_last() =~= ps.take(k));
        lemma_ports_of_err(domains, ps, k + 1);
    } else {
        assert(ps.take(k) =~= ps);
    }
}

/// The ports of an interface all fit its domains, each under its own name,
/// and no two share a name.
pub proof fn lemma_ports_fit(domains: Option<Seq<Seq<char>>>, ps: Seq<PortView>)
    requires
        ports_of(domains, ps) is Ok,
    ensures
        forall|i: int| 0 <= i < ports_of(domains, ps)->Ok_0.len() ==> port_fits(
            domains,
            (#[trigger] ports_of(domains, ps)->Ok_0[i]).1,
        ) && ports_of(domains, ps)->Ok_0[i].0 == ports_of(domains, ps)->Ok_0[i].1.name,
        forall|i: int, j: int|
            0 <= i < j < ports_of(domains, ps)->Ok_0.len() ==> (#[trigger] ports_of(
                domains,
                ps,
            )->Ok_0[i]).0 != (#[trigger] ports_of(domains, ps)->Ok_0[j]).0,
        ports_of(domains, ps)->Ok_0.len() == ps.len(),
    decreases ps.len(),
{
    if ps.len() > 0 {
        lemma_ports_fit(domains, ps.drop_last());
        let acc = ports_of(domains, ps.drop_last())->Ok_0;
        let s = ports_of(domains, ps)->Ok_0;
        assert(s == acc.push((ps.last().name, ps.last())));
        assert forall|i: int, j: int| 0 <= i < j < s.len() implies (#[trigger] s[i]).0 != (
        #[trigger] s[j]).0 by {
            if j == s.len() - 1 {
                assert(s[i] == acc[i]);
                if acc[i].0 == ps.last().name {
                    assert(named(acc, ps.last().name));
                }
            } else {
                assert(s[i] == acc[i]);
                assert(s[j] == acc[j]);
            }
        }
        assert forall|i: int| 0 <= i < s.len() implies port_fits(domains, (#[trigger] s[i]).1)
            && s[i].0 == s[i].1.name by {
            if i < s.len() - 1 {
                assert(s[i] == acc[i]);
            }
        }
    }
}

/// Every port is an input or an output: the inputs and the outputs
/// together are as many as the ports.
pub proof fn lemma_inputs_outputs_partition(ps: Seq<(Seq<char>, PortView)>)
    ensures
        ports_in(ps, InterfaceDirection::In).len() + ports_in(ps, InterfaceDirection::Out).len()
            == ps.len(),
    decreases ps.len(),
{
    if ps.len() > 0 {
        lemma_inputs_outputs_partition(ps.drop_last());
    }
}

/// The views of the ports.
pub open spec fn port_views(v: Seq<InterfacePort>) -> Seq<PortView> {
    v.map_values(|p: InterfacePort| p@)
}

/// The views of the parameters.
pub open spec fn parameter_views(v: Seq<GenericParameter>) -> Seq<GenericParameterView> {
    v.map_values(|p: GenericParameter| p@)
}

/// The ports of `ports` in the direction `d`, in order.
pub(crate) fn ports_toward(ports: &InsertionOrderedMap<Name, InterfacePort>, d: InterfaceDirection) -> (r:
    Vec<InterfacePort>)
    ensures
        port_views(r@) == ports_in(port_entries(ports.entries()), d),
{
    let ghost ps = port_entries(ports.entries());
    let mut out: Vec<InterfacePort> = Vec::new();
    let mut i: usize = 0;
    proof {
        assert(port_views(out@) =~= ports_in(ps.take(0), d));
    }
    while i < ports.len()
        invariant
            i <= ports.entries().len(),
            ps == port_entries(ports.entries()),
            port_views(out@) == ports_in(ps.take(i as int), d),
        decreases ports.entries().len() - i,
    {
        let p = ports.value_at(i);
        proof {
            assert(ps.take(i + 1).drop_last() =~= ps.take(i as int));
            assert(ps.take(i + 1).last() == ps[i as int]);
            assert(ps[i as int].1 == p@);
        }
        if p.direction() == d {
            let ghost before = out@;
            out.push(p.clone());
            proof {
                assert(port_views(out@) =~= port_views(before).push(p@));
            }
        }
        i = i + 1;
    }
    proof {
        assert(ps.take(ports.entries().len() as int) =~= ps);
    }
    out
}

impl Interface {
    #[verifier::type_invariant]
    closed spec fn wf(self) -> bool {
        match self.domains {
            Some(d) => d@.len() > 0 && texts_distinct(name_texts(d@)),
            None => true,
        }
    }

    /// An interface without named domains, parameters or ports.
    pub fn new_empty() -> (r: Interface)
        ensures
            r@ == (InterfaceView { domains: None, parameters: Seq::empty(), ports: Seq::empty() }),
    {
        let r = Interface {
            domains: None,
            parameters: InsertionOrderedMap::new(),
            ports: InsertionOrderedMap::new(),
        };
        proof {
            assert(r@.parameters =~= Seq::<(Seq<char>, GenericParameterView)>::empty());
            assert(r@.ports =~= Seq::<(Seq<char>, PortView)>::empty());
        }
        r
    }

    /// The domains given as names, in the model: `None` for none.
    pub open spec fn domains_model(domains: Seq<Name>) -> Option<Seq<Seq<char>>> {
        if domains.len() > 0 {
            Some(name_texts(domains))
        } else {
            None
        }
    }

    /// An interface with the domains `domains`, the parameters `parameters`
    /// and the ports `ports`, checked in that order (see `new_domains`,
    /// `with_parameters` and `with_ports`).
    pub fn new(domains: Vec<Name>, parameters: Vec<GenericParameter>, ports: Vec<InterfacePort>) -> (r:
        Result<Interface, Error>)
        ensures
            !texts_distinct(name_texts(domains@)) ==> (r matches Err(e) && e is UnexpectedDuplicate),
            texts_distinct(name_texts(domains@)) ==> match parameters_of(parameter_views(parameters@)) {
                Err(k) => r matches Err(e) && e.kind() == k,
                Ok(pm) => match ports_of(Self::domains_model(domains@), port_views(ports@)) {
                    Ok(po) => r matches Ok(i) && i@ == (InterfaceView {
                        domains: Self::domains_model(domains@),
                        parameters: pm,
                        ports: po,
                    }),
                    Err(k) => r matches Err(e) && e.kind() == k,
                },
            },
    {
        match Self::new_domains(domains) {
            Ok(i) => match i.with_parameters(parameters) {
                Ok(i) => i.with_ports(ports),
                Err(e) => Err(e),
            },
            Err(e) => Err(e),
        }
    }

    /// An interface with the domains `domains` and the ports `ports`, and no
    /// parameters.
    pub fn new_ports_domains(domains: Vec<Name>, ports: Vec<InterfacePort>) -> (r: Result<
        Interface,
        Error,
    >)
        ensures
            !texts_distinct(name_texts(domains@)) ==> (r matches Err(e) && e is UnexpectedDuplicate),
            texts_distinct(name_texts(domains@)) ==> match ports_of(
                Self::domains_model(domains@),
                port_views(ports@),
            ) {
                Ok(po) => r matches Ok(i) && i@ == (InterfaceView {
                    domains: Self::domains_model(domains@),
                    parameters: Seq::empty(),
                    ports: po,
                }),
                Err(k) => r matches Err(e) && e.kind() == k,
            },
    {
        match Self::new_domains(domains) {
            Ok(i) => i.with_ports(ports),
            Err(e) => Err(e),
        }
    }

    /// An interface with the ports `ports` in the default domain, and no
    /// parameters.
    pub fn new_ports(ports: Vec<InterfacePort>) -> (r: Result<Interface, Error>)
        ensures
            match ports_of(None, port_views(ports@)) {
                Ok(po) => r matches Ok(i) && i@ == (InterfaceView {
                    domains: None,
                    parameters: Seq::empty(),
                    ports: po,
                }),
                Err(k) => r matches Err(e) && e.kind() == k,
            },
    {
        Self::new_empty().with_ports(ports)
    }

    /// An interface with the named domains `domains` (none: the default
    /// domain only) and no parameters or ports; a domain named twice is an
    /// unexpected duplicate.
    pub fn new_domains(domains: Vec<Name>) -> (r: Result<Interface, Error>)
        ensures
            texts_distinct(name_texts(domains@)) ==> (r matches Ok(i) && i@ == (InterfaceView {
                domains: if domains@.len() > 0 {
                    Some(name_texts(domains@))
                } else {
                    None
                },
                parameters: Seq::empty(),
                ports: Seq::empty(),
            })),
            !texts_distinct(name_texts(domains@)) ==> (r matches Err(e) && e is UnexpectedDuplicate),
    {
        let mut i: usize = 0;
        while i < domains.len()
            invariant
                i <= domains@.len(),
                texts_distinct(name_texts(domains@.take(i as int))),
            decreases domains@.len() - i,
        {
            let mut j: usize = 0;
            while j < i
                invariant
                    j <= i < domains@.len(),
                    forall|k: int| 0 <= k < j ==> #[trigger] domains@[k]@ != domains@[i as int]@,
                decreases i - j,
            {
                if domains[j].name_eq(&domains[i]) {
                    proof {
                        assert(name_texts(domains@)[j as int] == name_texts(domains@)[i as int]);
                    }
                    return Err(Error::UnexpectedDuplicate);
                }
                j = j + 1;
            }
            proof {
                let t = name_texts(domains@.take(i + 1));
                assert forall|a: int, b: int| 0 <= a < b < t.len() implies #[trigger] t[a]
                    != #[trigger] t[b] by {
                    if b < i {
                        assert(t[a] == name_texts(domains@.take(i as int))[a]);
                        assert(t[b] == name_texts(domains@.take(i as int))[b]);
                    } else {
                        assert(t[a] == domains@[a]@);
                        assert(t[b] == domains@[i as int]@);
                    }
                }
            }
            i = i + 1;
        }
        proof {
            assert(domains@.take(domains@.len() as int) =~= domains@);
        }
        let r = if domains.len() > 0 {
            Interface {
                domains: Some(domains),
                parameters: InsertionOrderedMap::new(),
                ports: InsertionOrderedMap::new(),
            }
        } else {
            Interface {
                domains: None,
                parameters: InsertionOrderedMap::new(),
                ports: InsertionOrderedMap::new(),
            }
        };
        proof {
            assert(r@.parameters =~= Seq::<(Seq<char>, GenericParameterView)>::empty());
            assert(r@.ports =~= Seq::<(Seq<char>, PortView)>::empty());
        }
        Ok(r)
    }

    /// An interface with the parameters `parameters` (see `parameters_of`)
    /// only.
    pub fn new_parameters(parameters: Vec<GenericParameter>) -> (r: Result<Interface, Error>)
        ensures
            match parameters_of(parameter_views(parameters@)) {
                Ok(p) => r matches Ok(i) && i@ == (InterfaceView {
                    domains: None,
                    parameters: p,
                    ports: Seq::empty(),
                }),
                Err(k) => r matches Err(e) && e.kind() == k,
            },
    {
        Self::new_empty().with_parameters(parameters)
    }

    /// This interface with its parameters replaced by `parameters` (see
    /// `parameters_of`).
    pub fn with_parameters(self, parameters: Vec<GenericParameter>) -> (r: Result<
        Interface,
        Error,
    >)
        ensures
            match parameters_of(parameter_views(parameters@)) {
                Ok(p) => r matches Ok(i) && i@ == (InterfaceView { parameters: p, ..self@ }),
                Err(k) => r matches Err(e) && e.kind() == k,
            },
    {
        proof {
            use_type_invariant(&self);
        }
        let ghost pv = parameter_views(parameters@);
        let ghost names = pv.map_values(|p: GenericParameterView| p.name);
        let ghost want = pv.map_values(|p: GenericParameterView| (p.name, p));
        let mut m: InsertionOrderedMap<Name, GenericParameter> = InsertionOrderedMap::new();
        let mut i: usize = 0;
        proof {
            assert(parameter_entries(m.entries()) =~= want.take(0));
        }
        while i < parameters.len()
            invariant
                i <= parameters@.len(),
                pv == parameter_views(parameters@),
                names == pv.map_values(|p: GenericParameterView| p.name),
                want == pv.map_values(|p: GenericParameterView| (p.name, p)),
                texts_distinct(names.take(i as int)),
                m.entries().len() == i,
                forall|j: int| 0 <= j < i ==> (#[trigger] m.entries()[j]).0@ == names[j],
                parameter_entries(m.entries()) == want.take(i as int),
            decreases parameters@.len() - i,
        {
            let p = parameters[i].clone();
            let key = p.name().clone();
            let ghost before = m.entries();
            proof {
                assert(pv[i as int] == parameters@[i as int]@);
                assert(key@ == names[i as int]);
            }
            match m.try_insert(key, p) {
                Ok(()) => {},
                Err(e) => {
                    proof {
                        let j = choose|j: int|
                            0 <= j < before.len() && #[trigger] before[j].0.key() == key.key();
                        assert(before[j].0.key()[0] == key.key()[0]);
                        assert(names[j] == names[i as int]);
                        assert(!texts_distinct(names));
                    }
                    return Err(e);
                },
            }
            proof {
                assert forall|j: int| 0 <= j < before.len() implies #[trigger] names[j]
                    != names[i as int] by {
                    assert(before[j].0.key() != key.key());
                    if names[j] == names[i as int] {
                        assert(before[j].0.key() =~= key.key());
                    }
                }
                let t = names.take(i + 1);
                assert forall|a: int, b: int| 0 <= a < b < t.len() implies #[trigger] t[a]
                    != #[trigger] t[b] by {
                    if b < i {
                        assert(names.take(i as int)[a] == t[a]);
                        assert(names.take(i as int)[b] == t[b]);
                    } else {
                        assert(t[a] == names[a]);
                    }
                }
                let now = parameter_entries(m.entries());
                assert forall|j: int| 0 <= j < i + 1 implies #[trigger] now[j] == want.take(
                    i + 1,
                )[j] by {
                    if j < i {
                        assert(m.entries()[j] == before[j]);
                        assert(parameter_entries(before)[j] == want.take(i as int)[j]);
                    }
                }
                assert(now =~= want.take(i + 1));
            }
            i = i + 1;
        }
        proof {
            assert(names.take(parameters@.len() as int) =~= names);
            assert(want.take(parameters@.len() as int) =~= want);
        }
        Ok(Interface { domains: self.domains, parameters: m, ports: self.ports })
    }

    /// `Ok` where `port` fits the domains of this interface (see
    /// `port_fits`), else an `InvalidArgument` error.
    fn verify_domains(&self, port: &InterfacePort) -> (r: Result<(), Error>)
        ensures
            r is Ok <==> port_fits(self@.domains, port@),
            r matches Err(e) ==> e is InvalidArgument,
    {
        match &self.domains {
            Some(domains) => {
                let mut texts: Vec<String> = Vec::new();
                let mut k: usize = 0;
                while k < domains.len()
                    invariant
                        k <= domains@.len(),
                    decreases domains@.len() - k,
                {
                    texts.push(String::from_str(domains[k].as_str()));
                    k = k + 1;
                }
                let listed = join(&texts, ", ");
                match port.domain() {
                    Some(domain) => {
                        let mut i: usize = 0;
                        while i < domains.len()
                            invariant
                                i <= domains@.len(),
                                self@.domains == Some(name_texts(domains@)),
                                port@.domain == Some(domain@),
                                forall|j: int| 0 <= j < i ==> #[trigger] domains@[j]@ != domain@,
                            decreases domains@.len() - i,
                        {
                            if domains[i].name_eq(domain) {
                                proof {
                                    assert(name_texts(domains@)[i as int] == domain@);
                                    assert(name_texts(domains@).contains(domain@));
                                }
                                return Ok(());
                            }
                            i = i + 1;
                        }
                        proof {
                            if name_texts(domains@).contains(domain@) {
                                let j = choose|j: int|
                                    0 <= j < name_texts(domains@).len() && name_texts(
                                        domains@,
                                    )[j] == domain@;
                                assert(domains@[j]@ == domain@);
                            }
                        }
                        Err(
                            Error::InvalidArgument(
                                concat(
                                    &[
                                        "Port ",
                                        port.name().as_str(),
                                        " has domain ",
                                        domain.as_str(),
                                        ", but Interface has domains: ",
                                        listed.as_str(),
                                    ],
                                ),
                            ),
                        )
                    },
                    None => Err(
                        Error::InvalidArgument(
                            concat(
                                &[
                                    "Port ",
                                    port.name().as_str(),
                                    " has Default domain, but Interface has domains: ",
                                    listed.as_str(),
                                ],
                            ),
                        ),
                    ),
                }
            },
            None => match port.domain() {
                Some(domain) => Err(
                    Error::InvalidArgument(
                        concat(
                            &[
                                "Port ",
                                port.name().as_str(),
                                " has domain ",
                                domain.as_str(),
                                ", but Interface has Default domain",
                            ],
                        ),
                    ),
                ),
                None => Ok(()),
            },
        }
    }

    /// This interface with its ports replaced by `ports` (see `ports_of`).
    pub fn with_ports(self, ports: Vec<InterfacePort>) -> (r: Result<Interface, Error>)
        ensures
            match ports_of(self@.domains, port_views(ports@)) {
                Ok(p) => r matches Ok(i) && i@ == (InterfaceView { ports: p, ..self@ }),
                Err(k) => r matches Err(e) && e.kind() == k,
            },
    {
        proof {
            use_type_invariant(&self);
        }
        let ghost pv = port_views(ports@);
        let ghost d = self@.domains;
        let mut m: InsertionOrderedMap<Name, InterfacePort> = InsertionOrderedMap::new();
        let mut i: usize = 0;
        proof {
            assert(port_entries(m.entries()) =~= Seq::<(Seq<char>, PortView)>::empty());
            assert(pv.take(0) =~= Seq::<PortView>::empty());
        }
        while i < ports.len()
            invariant
                i <= ports@.len(),
                pv == port_views(ports@),
                d == self@.domains,
                ports_of(d, pv.take(i as int)) == Ok::<Seq<(Seq<char>, PortView)>, ErrorKind>(
                    port_entries(m.entries()),
                ),
                m.entries().len() == i,
            decreases ports@.len() - i,
        {
            let p = ports[i].clone();
            let ghost acc = port_entries(m.entries());
            proof {
                assert(pv.take(i + 1).drop_last() =~= pv.take(i as int));
                assert(pv.take(i + 1).last() == p@);
            }
            match self.verify_domains(&p) {
                Ok(()) => {},
                Err(e) => {
                    proof {
                        lemma_ports_of_err(d, pv, i + 1);
                    }
                    return Err(e);
                },
            }
            let key = p.name().clone();
            let ghost before = m.entries();
            match m.try_insert(key, p) {
                Ok(()) => {},
                Err(e) => {
                    proof {
                        let j = choose|j: int|
                            0 <= j < before.len() && #[trigger] before[j].0.key() == key.key();
                        assert(before[j].0.key()[0] == key.key()[0]);
                        assert(acc[j].0 == p@.name);
                        assert(named(acc, p@.name));
                        lemma_ports_of_err(d, pv, i + 1);
                    }
                    return Err(e);
                },
            }
            proof {
                assert(!named(acc, p@.name)) by {
                    if named(acc, p@.name) {
                        let j = choose|j: int| 0 <= j < acc.len() && #[trigger] acc[j].0 == p@.name;
                        assert(before[j].0.key() =~= key.key());
                    }
                }
                assert(port_entries(m.entries()) =~= acc.push((p@.name, p@)));
            }
            i = i + 1;
        }
        proof {
            assert(pv.take(ports@.len() as int) =~= pv);
        }
        Ok(Interface { domains: self.domains, parameters: self.parameters, ports: m })
    }

    /// Adds `port` (see `ports_of`); the interface is unchanged on an error.
    pub fn push_port(&mut self, port: InterfacePort) -> (r: Result<(), Error>)
        ensures
            match ports_of(old(self)@.domains, seq![port@]) {
                Ok(_) => if named(old(self)@.ports, port@.name) {
                    r matches Err(e) && e is UnexpectedDuplicate && final(self)@ == old(self)@
                } else {
                    r is Ok && final(self)@ == (InterfaceView {
                        ports: old(self)@.ports.push((port@.name, port@)),
                        ..old(self)@
                    })
                },
                Err(k) => r matches Err(e) && e.kind() == k && final(self)@ == old(self)@,
            },
    {
        proof {
            use_type_invariant(&*self);
            reveal_with_fuel(ports_of, 2);
            assert(seq![port@].drop_last() =~= Seq::<PortView>::empty());
        }
        match self.verify_domains(&port) {
            Ok(()) => {},
            Err(e) => {
                return Err(e);
            },
        }
        let ghost before = self.ports.entries();
        let ghost acc = port_entries(before);
        let key = port.name().clone();
        let ghost pv = port@;
        let mut ports: InsertionOrderedMap<Name, InterfacePort> = InsertionOrderedMap::new();
        std::mem::swap(&mut ports, &mut self.ports);
        let res = ports.try_insert(key, port);
        self.ports = ports;
        proof {
            if res is Ok {
                assert(!named(acc, pv.name)) by {
                    if named(acc, pv.name) {
                        let j = choose|j: int| 0 <= j < acc.len() && #[trigger] acc[j].0 == pv.name;
                        assert(before[j].0.key() =~= key.key());
                    }
                }
                assert(port_entries(self.ports.entries()) =~= acc.push((pv.name, pv)));
            } else {
                let j = choose|j: int|
                    0 <= j < before.len() && #[trigger] before[j].0.key() == key.key();
                assert(before[j].0.key()[0] == key.key()[0]);
                assert(acc[j].0 == pv.name);
            }
        }
        res
    }

    /// The named domains (`None`: the default domain only).
    pub fn domains(&self) -> (r: &Option<Vec<Name>>)
        ensures
            match r {
                Some(d) => self@.domains == Some(name_texts(d@)),
                None => self@.domains is None,
            },
    {
        &self.domains
    }

    pub fn parameters(&self) -> (r: &InsertionOrderedMap<Name, GenericParameter>)
        ensures
            parameter_entries(r.entries()) == self@.parameters,
    {
        &self.parameters
    }

    pub fn ports(&self) -> (r: &InsertionOrderedMap<Name, InterfacePort>)
        ensures
            port_entries(r.entries()) == self@.ports,
    {
        &self.ports
    }

    /// The input ports, in order.
    pub fn inputs(&self) -> (r: Vec<InterfacePort>)
        ensures
            port_views(r@) == ports_in(self@.ports, InterfaceDirection::In),
    {
        ports_toward(&self.ports, InterfaceDirection::In)
    }

    /// The output ports, in order.
    pub fn outputs(&self) -> (r: Vec<InterfacePort>)
        ensures
            port_views(r@) == ports_in(self@.ports, InterfaceDirection::Out),
    {
        ports_toward(&self.ports, InterfaceDirection::Out)
    }

    /// The port named `name`, or an `InvalidArgument` error when there is
    /// none.
    pub fn try_get_port(&self, name: &Name) -> (r: Result<InterfacePort, Error>)
        ensures
            match port_named(self@.ports, name@) {
                Some(p) => r matches Ok(x) && x@ == p,
                None => r matches Err(e) && e is InvalidArgument,
            },
    {
        self.ports.lemma_distinct();
        let ghost ps = self@.ports;
        let mut i: usize = 0;
        while i < self.ports.len()
            invariant
                i <= self.ports.entries().len(),
                ps == port_entries(self.ports.entries()),
                crate::ordered_map::keys_distinct(self.ports.entries()),
                forall|j: int| 0 <= j < i ==> #[trigger] ps[j].0 != name@,
            decreases self.ports.entries().len() - i,
        {
            if self.ports.key_at(i).name_eq(name) {
                proof {
                    assert(ps[i as int].0 == name@);
                    let c = choose|j: int| 0 <= j < ps.len() && #[trigger] ps[j].0 == name@;
                    if c != i {
                        assert(self.ports.entries()[c].0.key() =~= self.ports.entries()[i as int].0.key());
                    }
                }
                return Ok(self.ports.value_at(i).clone());
            }
            i = i + 1;
        }
        Err(
            Error::InvalidArgument(
                concat(&["No port with name ", name.as_str(), " exists on this interface"]),
            ),
        )
    }

    /// The parameter named `name`, or an `InvalidArgument` error when there
    /// is none.
    pub fn try_get_parameter(&self, name: &Name) -> (r: Result<GenericParameter, Error>)
        ensures
            match parameter_named(self@.parameters, name@) {
                Some(p) => r matches Ok(x) && x@ == p,
                None => r matches Err(e) && e is InvalidArgument,
            },
    {
        self.parameters.lemma_distinct();
        let ghost ps = self@.parameters;
        let mut i: usize = 0;
        while i < self.parameters.len()
            invariant
                i <= self.parameters.entries().len(),
                ps == parameter_entries(self.parameters.entries()),
                crate::ordered_map::keys_distinct(self.parameters.entries()),
                forall|j: int| 0 <= j < i ==> #[trigger] ps[j].0 != name@,
            decreases self.parameters.entries().len() - i,
        {
            if self.parameters.key_at(i).name_eq(name) {
                proof {
                    assert(ps[i as int].0 == name@);
                    let c = choose|j: int| 0 <= j < ps.len() && #[trigger] ps[j].0 == name@;
                    if c != i {
                        assert(self.parameters.entries()[c].0.key()
                            =~= self.parameters.entries()[i as int].0.key());
                    }
                }
                return Ok(self.parameters.value_at(i).clone());
            }
            i = i + 1;
        }
        Err(
            Error::InvalidArgument(
                concat(&["No parameter with name ", name.as_str(), " exists on this interface"]),
            ),
        )
    }
}

/// Port names that come once each.
pub open spec fn port_names_distinct(ps: Seq<PortView>) -> bool {
    forall|i: int, j: int| 0 <= i < j < ps.len() ==> #[trigger] ps[i].name != #[trigger] ps[j].name
}

/// Ports keyed by their names, in order.
pub open spec fn keyed_ports(ps: Seq<PortView>) -> Seq<(Seq<char>, PortView)> {
    ps.map_values(|p: PortView| (p.name, p))
}

/// A collection of ports with distinct names, in the order they were given.
#[derive(Debug, PartialEq, Eq, Hash)]
pub struct InterfaceCollection {
    ports: InsertionOrderedMap<Name, InterfacePort>,
}

impl InterfaceCollection {
    /// The ports by name, in order.
    pub closed spec fn spec_ports(&self) -> Seq<(Seq<char>, PortView)> {
        port_entries(self.ports.entries())
    }

    /// A collection without ports.
    pub fn new_empty() -> (r: InterfaceCollection)
        ensures
            r.spec_ports() == Seq::<(Seq<char>, PortView)>::empty(),
    {
        let r = InterfaceCollection { ports: InsertionOrderedMap::new() };
        assert(r.spec_ports() =~= Seq::<(Seq<char>, PortView)>::empty());
        r
    }

    /// The collection of `ports`, in order; `UnexpectedDuplicate` where two
    /// ports share a name.
    pub fn new(ports: Vec<InterfacePort>) -> (r: Result<InterfaceCollection, Error>)
        ensures
            r is Ok <==> port_names_distinct(port_views(ports@)),
            r matches Ok(c) ==> c.spec_ports() == keyed_ports(port_views(ports@)),
            r matches Err(e) ==> e is UnexpectedDuplicate,
    {
        let ghost pv = port_views(ports@);
        let mut m: InsertionOrderedMap<Name, InterfacePort> = InsertionOrderedMap::new();
        let mut i: usize = 0;
        proof {
            assert(port_entries(m.entries()) =~= keyed_ports(pv.take(0)));
        }
        while i < ports.len()
            invariant
                i <= ports@.len(),
                pv == port_views(ports@),
                pv.len() == ports@.len(),
                port_entries(m.entries()) == keyed_ports(pv.take(i as int)),
                m.entries().len() == i,
                port_names_distinct(pv.take(i as int)),
            decreases ports@.len() - i,
        {
            let p = ports[i].clone();
            let key = p.name().clone();
            let ghost before = m.entries();
            let ghost acc = port_entries(before);
            let ghost kv = key@;
            proof {
                assert(pv[i as int] == p@);
                assert(kv == p@.name);
                assert forall|j: int| 0 <= j < i implies #[trigger] before[j].0@ == pv[j].name by {
                    assert(acc[j] == keyed_ports(pv.take(i as int))[j]);
                }
            }
            match m.try_insert(key, p) {
                Ok(()) => {},
                Err(_) => {
                    proof {
                        let j = choose|j: int|
                            0 <= j < before.len() && #[trigger] before[j].0.key() == key.key();
                        assert(before[j].0.key()[0] == key.key()[0]);
                        assert(pv[j].name == pv[i as int].name);
                    }
                    return Err(Error::UnexpectedDuplicate);
                },
            }
            proof {
                assert forall|j: int| 0 <= j < i implies pv[j].name != pv[i as int].name by {
                    if pv[j].name == pv[i as int].name {
                        assert(before[j].0.key() =~= key.key());
                    }
                }
                let t = pv.take(i + 1);
                assert forall|a: int, b: int| 0 <= a < b < t.len() implies #[trigger] t[a].name
                    != #[trigger] t[b].name by {
                    if b < i {
                        assert(pv.take(i as int)[a] == t[a] && pv.take(i as int)[b] == t[b]);
                    }
                }
                let now = port_entries(m.entries());
                let want = keyed_ports(pv.take(i + 1));
                assert forall|j: int| 0 <= j < i + 1 implies #[trigger] now[j] == want[j] by {
                    if j < i {
                        assert(m.entries()[j] == before[j]);
                        assert(acc[j] == keyed_ports(pv.take(i as int))[j]);
                    } else {
                        assert(m.entries()[j].0@ == kv);
                    }
                }
                assert(now =~= want);
            }
            i = i + 1;
        }
        proof {
            assert(pv.take(ports@.len() as int) =~= pv);
        }
        Ok(InterfaceCollection { ports: m })
    }

    /// The ports, in order.
    pub fn ports(&self) -> (r: Vec<InterfacePort>)
        ensures
            port_views(r@) == self.spec_ports().map_values(|e: (Seq<char>, PortView)| e.1),
    {
        let ghost ps = self.spec_ports();
        let mut out: Vec<InterfacePort> = Vec::new();
        let mut i: usize = 0;
        while i < self.ports.len()
            invariant
                i <= ps.len(),
                ps == self.spec_ports(),
                ps.len() == self.ports.entries().len(),
                out@.len() == i,
                forall|j: int| 0 <= j < i ==> #[trigger] out@[j]@ == ps[j].1,
            decreases ps.len() - i,
        {
            let p = self.ports.value_at(i).clone();
            out.push(p);
            i = i + 1;
        }
        proof {
            assert(port_views(out@) =~= ps.map_values(|e: (Seq<char>, PortView)| e.1));
        }
        out
    }

    /// The input ports, in order.
    pub fn inputs(&self) -> (r: Vec<InterfacePort>)
        ensures
            port_views(r@) == ports_in(self.spec_ports(), InterfaceDirection::In),
    {
        ports_toward(&self.ports, InterfaceDirection::In)
    }

    /// The output ports, in order.
    pub fn outputs(&self) -> (r: Vec<InterfacePort>)
        ensures
            port_views(r@) == ports_in(self.spec_ports(), InterfaceDirection::Out),
    {
        ports_toward(&self.ports, InterfaceDirection::Out)
    }

    /// The port named `name`, or an `InvalidArgument` error saying that
    /// there is none.
    pub fn try_get_port(&self, name: &Name) -> (r: Result<InterfacePort, Error>)
        ensures
            match port_named(self.spec_ports(), name@) {
                Some(p) => r matches Ok(x) && x@ == p,
                None => r matches Err(e) && e == Error::InvalidArgument(e->InvalidArgument_0)
                    && e->InvalidArgument_0@ == "No port with name "@ + name@
                    + " exists on this interface collection"@,
            },
    {
        self.ports.lemma_distinct();
        let ghost ps = self.spec_ports();
        let mut i: usize = 0;
        while i < self.ports.len()
            invariant
                i <= self.ports.entries().len(),
                ps == port_entries(self.ports.entries()),
                crate::ordered_map::keys_distinct(self.ports.entries()),
                forall|j: int| 0 <= j < i ==> #[trigger] ps[j].0 != name@,
            decreases self.ports.entries().len() - i,
        {
            if self.ports.key_at(i).name_eq(name) {
                proof {
                    assert(ps[i as int].0 == name@);
                    let c = choose|j: int| 0 <= j < ps.len() && #[trigger] ps[j].0 == name@;
                    if c != i {
                        assert(self.ports.entries()[c].0.key() =~= self.ports.entries()[i as int].0.key());
                    }
                }
                return Ok(self.ports.value_at(i).clone());
            }
            i = i + 1;
        }
        let mut m = String::from_str("No port with name ");
        m.append(name.as_str());
        m.append(" exists on this interface collection");
        Err(Error::InvalidArgument(m))
    }
}

} // verus!
