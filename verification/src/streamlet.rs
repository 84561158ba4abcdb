//! Streamlets: named components with an interface and, possibly, an
//! implementation.
use vstd::prelude::*;
use crate::directions::InterfaceDirection;
use crate::error::Error;
use crate::generics::{GenericParameter, GenericParameterView};
use crate::implementation::Implementation;
use crate::interface::{
    Interface,
    InterfaceView,
    name_texts,
    parameter_named,
    parameter_views,
    parameters_of,
    port_views,
    ports_in,
    ports_of,
};
use crate::messages::join_spec;
use crate::name::{Name, PathName};
use crate::structure::{InterfacePort, PortView, port_named, texts_distinct};

verus! {

/// A streamlet: its name (empty until named), its interface and
/// implementation where it has them, and its documentation.
#[derive(Debug, PartialEq, Eq, Hash)]
pub struct Streamlet {
    name: PathName,
    implementation: Option<Implementation>,
    interface: Option<Interface>,
    doc: Option<String>,
}

/// The interface that an interface of `None` stands for: no domains,
/// parameters or ports.
pub open spec fn empty_interface() -> InterfaceView {
    InterfaceView { domains: None, parameters: Seq::empty(), ports: Seq::empty() }
}

/// The refusal of a lookup on a streamlet, such as `No port with name a
/// exists on Streamlet ns__s` (`opening` is `No port with name `).
pub open spec fn streamlet_missing(opening: Seq<char>, name: Seq<char>, streamlet: Seq<Seq<char>>) -> Seq<
    char,
> {
    opening + name + " exists on Streamlet "@ + join_spec(streamlet, "__"@)
}

impl Streamlet {
    pub closed spec fn spec_name(&self) -> Seq<Seq<char>> {
        self.name@
    }

    pub closed spec fn spec_interface(&self) -> Option<InterfaceView> {
        match self.interface {
            Some(i) => Some(i@),
            None => None,
        }
    }

    pub closed spec fn spec_implementation(&self) -> Option<Implementation> {
        self.implementation
    }

    pub closed spec fn spec_doc(&self) -> Option<Seq<char>> {
        match self.doc {
            Some(d) => Some(d@),
            None => None,
        }
    }

    /// The interface in effect: the streamlet's own, or an empty one.
    pub open spec fn interface_view(&self) -> InterfaceView {
        match self.spec_interface() {
            Some(i) => i,
            None => empty_interface(),
        }
    }

    /// An unnamed streamlet without interface, implementation or
    /// documentation.
    pub fn new() -> (r: Streamlet)
        ensures
            r.spec_name() == Seq::<Seq<char>>::empty(),
            r.spec_interface() is None,
            r.spec_implementation() is None,
            r.spec_doc() is None,
    {
        Streamlet { name: PathName::new_empty(), implementation: None, interface: None, doc: None }
    }

    /// This streamlet with the interface of the domains `domains` and the
    /// ports `ports` (see `Interface::new_ports_domains`).
    pub fn with_domains_ports(self, domains: Vec<Name>, ports: Vec<InterfacePort>) -> (r: Result<
        Streamlet,
        Error,
    >)
        ensures
            !texts_distinct(name_texts(domains@)) ==> (r matches Err(e) && e is UnexpectedDuplicate),
            texts_distinct(name_texts(domains@)) ==> match ports_of(
                Interface::domains_model(domains@),
                port_views(ports@),
            ) {
                Ok(po) => r matches Ok(s) && s.spec_interface() == Some(
                    InterfaceView {
                        domains: Interface::domains_model(domains@),
                        parameters: Seq::empty(),
                        ports: po,
                    },
                ) && s.spec_name() == self.spec_name() && s.spec_implementation()
                    == self.spec_implementation() && s.spec_doc() == self.spec_doc(),
                Err(k) => r matches Err(e) && e.kind() == k,
            },
    {
        match Interface::new_ports_domains(domains, ports) {
            Ok(i) => Ok(
                Streamlet {
                    name: self.name,
                    implementation: self.implementation,
                    interface: Some(i),
                    doc: self.doc,
                },
            ),
            Err(e) => Err(e),
        }
    }

    /// This streamlet with the ports of its interface (an empty one where
    /// it has none) replaced by `ports` (see `Interface::with_ports`).
    pub fn with_ports(self, ports: Vec<InterfacePort>) -> (r: Result<Streamlet, Error>)
        ensures
            match ports_of(self.interface_view().domains, port_views(ports@)) {
                Ok(po) => r matches Ok(s) && s.spec_interface() == Some(
                    InterfaceView { ports: po, ..self.interface_view() },
                ) && s.spec_name() == self.spec_name() && s.spec_implementation()
                    == self.spec_implementation() && s.spec_doc() == self.spec_doc(),
                Err(k) => r matches Err(e) && e.kind() == k,
            },
    {
        let Streamlet { name, implementation, interface, doc } = self;
        let base = match interface {
            Some(i) => i,
            None => Interface::new_empty(),
        };
        match base.with_ports(ports) {
            Ok(i) => Ok(Streamlet { name, implementation, interface: Some(i), doc }),
            Err(e) => Err(e),
        }
    }

    /// This streamlet with the parameters of its interface (an empty one
    /// where it has none) replaced by `parameters` (see
    /// `Interface::with_parameters`).
    pub fn with_parameters(self, parameters: Vec<GenericParameter>) -> (r: Result<Streamlet, Error>)
        ensures
            match parameters_of(parameter_views(parameters@)) {
                Ok(p) => r matches Ok(s) && s.spec_interface() == Some(
                    InterfaceView { parameters: p, ..self.interface_view() },
                ) && s.spec_name() == self.spec_name() && s.spec_implementation()
                    == self.spec_implementation() && s.spec_doc() == self.spec_doc(),
                Err(k) => r matches Err(e) && e.kind() == k,
            },
    {
        let Streamlet { name, implementation, interface, doc } = self;
        let base = match interface {
            Some(i) => i,
            None => Interface::new_empty(),
        };
        match base.with_parameters(parameters) {
            Ok(i) => Ok(Streamlet { name, implementation, interface: Some(i), doc }),
            Err(e) => Err(e),
        }
    }

    /// This streamlet with the interface `interface`.
    pub fn with_interface(self, interface: Interface) -> (r: Streamlet)
        ensures
            r.spec_interface() == Some(interface@),
            r.spec_name() == self.spec_name(),
            r.spec_implementation() == self.spec_implementation(),
            r.spec_doc() == self.spec_doc(),
    {
        Streamlet { interface: Some(interface), ..self }
    }

    /// This streamlet named `name`.
    pub fn with_name(self, name: PathName) -> (r: Streamlet)
        ensures
            r.spec_name() == name@,
            r.spec_interface() == self.spec_interface(),
            r.spec_implementation() == self.spec_implementation(),
            r.spec_doc() == self.spec_doc(),
    {
        Streamlet { name, ..self }
    }

    /// This streamlet with the implementation `implementation`.
    pub fn with_implementation(self, implementation: Option<Implementation>) -> (r: Streamlet)
        ensures
            r.spec_implementation() == implementation,
            r.spec_name() == self.spec_name(),
            r.spec_interface() == self.spec_interface(),
            r.spec_doc() == self.spec_doc(),
    {
        Streamlet { implementation, ..self }
    }

    pub fn path_name(&self) -> (r: &PathName)
        ensures
            r@ == self.spec_name(),
    {
        &self.name
    }

    pub fn implementation(&self) -> (r: Option<&Implementation>)
        ensures
            match r {
                Some(i) => self.spec_implementation() == Some(*i),
                None => self.spec_implementation() is None,
            },
    {
        match &self.implementation {
            Some(i) => Some(i),
            None => None,
        }
    }

    /// The streamlet's own interface, where it has one.
    pub fn interface(&self) -> (r: Option<&Interface>)
        ensures
            match r {
                Some(i) => self.spec_interface() == Some(i@),
                None => self.spec_interface() is None,
            },
    {
        match &self.interface {
            Some(i) => Some(i),
            None => None,
        }
    }

    /// The input ports, in order.
    pub fn inputs(&self) -> (r: Vec<InterfacePort>)
        ensures
            port_views(r@) == ports_in(self.interface_view().ports, InterfaceDirection::In),
    {
        match &self.interface {
            Some(i) => i.inputs(),
            None => {
                let v: Vec<InterfacePort> = Vec::new();
                assert(port_views(v@) =~= Seq::<PortView>::empty());
                v
            },
        }
    }

    /// The output ports, in order.
    pub fn outputs(&self) -> (r: Vec<InterfacePort>)
        ensures
            port_views(r@) == ports_in(self.interface_view().ports, InterfaceDirection::Out),
    {
        match &self.interface {
            Some(i) => i.outputs(),
            None => {
                let v: Vec<InterfacePort> = Vec::new();
                assert(port_views(v@) =~= Seq::<PortView>::empty());
                v
            },
        }
    }

    /// The port named `name`, or an `InvalidArgument` error naming the
    /// streamlet.
    pub fn try_get_port(&self, name: &Name) -> (r: Result<InterfacePort, Error>)
        ensures
            match port_named(self.interface_view().ports, name@) {
                Some(p) => r matches Ok(x) && x@ == p,
                None => r matches Err(e) && e == Error::InvalidArgument(e->InvalidArgument_0)
                    && e->InvalidArgument_0@ == streamlet_missing("No port with name "@, name@, self.spec_name()),
            },
    {
        let found = match &self.interface {
            Some(i) => match i.try_get_port(name) {
                Ok(p) => Some(p),
                Err(_) => None,
            },
            None => None,
        };
        match found {
            Some(p) => Ok(p),
            None => {
                let mut m = String::from_str("No port with name ");
                m.append(name.as_str());
                m.append(" exists on Streamlet ");
                let t = self.name.text();
                m.append(t.as_str());
                Err(Error::InvalidArgument(m))
            },
        }
    }

    /// The parameter named `name`, or an `InvalidArgument` error naming the
    /// streamlet.
    pub fn try_get_parameter(&self, name: &Name) -> (r: Result<GenericParameter, Error>)
        ensures
            match parameter_named(self.interface_view().parameters, name@) {
                Some(p) => r matches Ok(x) && x@ == p,
                None => r matches Err(e) && e == Error::InvalidArgument(e->InvalidArgument_0)
                    && e->InvalidArgument_0@ == streamlet_missing(
                    "No parameter with name "@,
                    name@,
                    self.spec_name(),
                ),
            },
    {
        let found = match &self.interface {
            Some(i) => match i.try_get_parameter(name) {
                Ok(p) => Some(p),
                Err(_) => None,
            },
            None => None,
        };
        match found {
            Some(p) => Ok(p),
            None => {
                let mut m = String::from_str("No parameter with name ");
                m.append(name.as_str());
                m.append(" exists on Streamlet ");
                let t = self.name.text();
                m.append(t.as_str());
                Err(Error::InvalidArgument(m))
            },
        }
    }

    pub fn doc(&self) -> (r: Option<&String>)
        ensures
            match r {
                Some(d) => self.spec_doc() == Some(d@),
                None => self.spec_doc() is None,
            },
    {
        match &self.doc {
            Some(d) => Some(d),
            None => None,
        }
    }

    pub fn set_doc(&mut self, doc: String)
        ensures
            final(self).spec_doc() == Some(doc@),
            final(self).spec_name() == old(self).spec_name(),
            final(self).spec_interface() == old(self).spec_interface(),
            final(self).spec_implementation() == old(self).spec_implementation(),
    {
        self.doc = Some(doc);
    }
}

} // verus!
