//! The implementation of a streamlet: a structure of instances and
//! connections, or a link to a behavioural implementation.
use vstd::prelude::*;
use crate::link::Link;
use crate::name::PathName;
use crate::structure::Structure;

verus! {

/// What implements a streamlet.
#[derive(Debug, PartialEq, Eq, Hash)]
pub enum ImplementationKind {
    Structured(Structure),
    Link(Link),
}

/// An implementation: its name (empty until named), its kind and its
/// documentation.
#[derive(Debug, PartialEq, Eq, Hash)]
pub struct Implementation {
    name: PathName,
    kind: ImplementationKind,
    doc: Option<String>,
}

impl Implementation {
    pub closed spec fn spec_name(&self) -> Seq<Seq<char>> {
        self.name@
    }

    pub closed spec fn spec_kind(&self) -> ImplementationKind {
        self.kind
    }

    pub closed spec fn spec_doc(&self) -> Option<Seq<char>> {
        match self.doc {
            Some(d) => Some(d@),
            None => None,
        }
    }

    /// A structural implementation, unnamed and undocumented.
    pub fn structural(structure: Structure) -> (r: Implementation)
        ensures
            r.spec_name() == Seq::<Seq<char>>::empty(),
            r.spec_kind() == ImplementationKind::Structured(structure),
            r.spec_doc() is None,
    {
        Implementation {
            name: PathName::new_empty(),
            kind: ImplementationKind::Structured(structure),
            doc: None,
        }
    }

    /// A linked implementation, unnamed and undocumented.
    pub fn link(link: Link) -> (r: Implementation)
        ensures
            r.spec_name() == Seq::<Seq<char>>::empty(),
            r.spec_kind() == ImplementationKind::Link(link),
            r.spec_doc() is None,
    {
        Implementation { name: PathName::new_empty(), kind: ImplementationKind::Link(link), doc: None }
    }

    pub fn set_doc(&mut self, doc: String)
        ensures
            final(self).spec_doc() == Some(doc@),
            final(self).spec_name() == old(self).spec_name(),
            final(self).spec_kind() == old(self).spec_kind(),
    {
        self.doc = Some(doc);
    }

    pub fn with_doc(self, doc: String) -> (r: Implementation)
        ensures
            r.spec_doc() == Some(doc@),
            r.spec_name() == self.spec_name(),
            r.spec_kind() == self.spec_kind(),
    {
        let mut r = self;
        r.set_doc(doc);
        r
    }

    pub fn with_name(self, name: PathName) -> (r: Implementation)
        ensures
            r.spec_name() == name@,
            r.spec_doc() == self.spec_doc(),
            r.spec_kind() == self.spec_kind(),
    {
        Implementation { name, kind: self.kind, doc: self.doc }
    }

    pub fn name(&self) -> (r: &PathName)
        ensures
            r@ == self.spec_name(),
    {
        &self.name
    }

    pub fn kind(&self) -> (r: &ImplementationKind)
        ensures
            *r == self.spec_kind(),
    {
        &self.kind
    }

    pub fn doc(&self) -> (r: Option<&String>)
        ensures
            match r {
                Some(d) => self.spec_doc() == Some(d@),
                None => self.spec_doc() is None,
            },
    {
        self.doc.as_ref()
    }
}

} // verus!
