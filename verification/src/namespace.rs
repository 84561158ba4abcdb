//! Projects and their namespaces: the named type, implementation and
//! interface declarations of each part of a project.
use vstd::prelude::*;
use crate::error::Error;
use crate::generics::GenericParameter;
use crate::implementation::Implementation;
use crate::interface::Interface;
use crate::logical_type::LogicalType;
use crate::messages::join_spec;
use crate::name::{Name, PathName};
use crate::streamlet::Streamlet;
use crate::ordered_map::{InsertionOrderedMap, MapKey, key_index, keys_sorted, sorted_position};
use crate::type_declaration::{TypeDeclaration, declaration};

verus! {

/// The declarations of a namespace, each kind under names of its own and
/// in the order of the names.
#[derive(Debug, PartialEq, Eq, Hash)]
pub struct Namespace {
    name: PathName,
    types: InsertionOrderedMap<Name, TypeDeclaration>,
    implementations: InsertionOrderedMap<Name, Implementation>,
    interfaces: InsertionOrderedMap<Name, Interface>,
    streamlets: InsertionOrderedMap<Name, Streamlet>,
}

/// The entries, sorted by key, after importing `value` under `name`:
/// inserted where the new name belongs; under a name already declared, the
/// value replaces the declared one in its place.
pub open spec fn imported<K: MapKey, V>(s: Seq<(K, V)>, name: K, value: V) -> Seq<(K, V)> {
    match key_index(s, name.key()) {
        Some(i) => s.update(i, (s[i].0, value)),
        None => s.insert(sorted_position(s, name.key()), (name, value)),
    }
}

/// Replacing a value keeps the keys, and so their order.
proof fn lemma_update_sorted<K: MapKey, V>(s: Seq<(K, V)>, i: int, v: V)
    requires
        keys_sorted(s),
        0 <= i < s.len(),
    ensures
        keys_sorted(s.update(i, (s[i].0, v))),
{
    let t = s.update(i, (s[i].0, v));
    assert forall|a: int, b: int| 0 <= a < b < t.len() implies crate::ordered_map::key_before(
        #[trigger] t[a].0.key(),
        #[trigger] t[b].0.key(),
    ) by {
        assert(t[a].0 == s[a].0 && t[b].0 == s[b].0);
    }
}

/// Whether `name` is declared among the entries.
pub open spec fn declares<V>(s: Seq<(Name, V)>, name: Seq<char>) -> bool {
    exists|i: int| 0 <= i < s.len() && #[trigger] s[i].0@ == name
}

/// The value declared under `name`.
pub open spec fn declared<V>(s: Seq<(Name, V)>, name: Seq<char>) -> V {
    s[choose|i: int| 0 <= i < s.len() && #[trigger] s[i].0@ == name].1
}

/// The refusal of a second declaration under one name, such as `A type
/// with name t already exists in namespace a__b.`
pub open spec fn duplicate_message(what: Seq<char>, name: Seq<char>, ns: Seq<Seq<char>>) -> Seq<char> {
    what + " with name "@ + name + " already exists in namespace "@ + join_spec(ns, "__"@) + "."@
}

/// The refusal of a lookup of an undeclared name.
pub open spec fn missing_message(what: Seq<char>, name: Seq<char>, ns: Seq<Seq<char>>) -> Seq<char> {
    what + " with name "@ + name + " does not exist in namespace "@ + join_spec(ns, "__"@)
}

proof fn lemma_name_key(a: Name, b: Name)
    ensures
        (a.key() == b.key()) == (a@ == b@),
{
    if a.key() == b.key() {
        assert(a.key()[0] == b.key()[0]);
    }
    if a@ == b@ {
        assert(a.key() =~= b.key());
    }
}

/// Imports `value` under `name` into `map`, refusing a name already there
/// (whose value is then replaced) with the message of `duplicate_message`.
fn import<V>(map: &mut InsertionOrderedMap<Name, V>, name: Name, value: V, what: &str, ns: &PathName) -> (r:
    Result<(), Error>)
    requires
        keys_sorted(old(map).entries()),
    ensures
        keys_sorted(final(map).entries()),
        r is Ok <==> !declares(old(map).entries(), name@),
        final(map).entries() == imported(old(map).entries(), name, value),
        r matches Err(e) ==> e == Error::InvalidArgument(e->InvalidArgument_0) && e->InvalidArgument_0@
            == duplicate_message(what@, name@, ns@),
{
    proof {
        assert forall|i: int| 0 <= i < old(map).entries().len() implies (#[trigger] old(map).entries()[i].0.key()
            == name.key()) == (old(map).entries()[i].0@ == name@) by {
            lemma_name_key(old(map).entries()[i].0, name);
        }
    }
    map.lemma_distinct();
    match map.index_of(&name) {
        Some(i) => {
            proof {
                let s = old(map).entries();
                assert(key_index(s, name.key()) == Some(i as int)) by {
                    assert(exists|j: int| 0 <= j < s.len() && #[trigger] s[j].0.key() == name.key()) by {
                        assert(s[i as int].0.key() == name.key());
                    }
                    let c = choose|j: int| 0 <= j < s.len() && #[trigger] s[j].0.key() == name.key();
                    if c != i as int {
                        assert(s[c].0.key() != s[i as int].0.key());
                    }
                }
                assert(s[i as int].0@ == name@);
            }
            let mut m = String::from_str(what);
            m.append(" with name ");
            m.append(name.as_str());
            m.append(" already exists in namespace ");
            let t = ns.text();
            m.append(t.as_str());
            m.append(".");
            proof {
                lemma_update_sorted(old(map).entries(), i as int, value);
            }
            map.replace_at(i, value);
            Err(Error::InvalidArgument(m))
        },
        None => {
            proof {
                let s = old(map).entries();
                assert(!(exists|j: int| 0 <= j < s.len() && #[trigger] s[j].0.key() == name.key()));
                assert forall|j: int| 0 <= j < s.len() implies #[trigger] s[j].0@ != name@ by {
                    lemma_name_key(s[j].0, name);
                }
            }
            let r = map.try_insert_sorted(name, value);
            match r {
                Ok(()) => Ok(()),
                Err(_) => {
                    proof {
                        assert(false);
                    }
                    Ok(())
                },
            }
        },
    }
}

/// Finds the value declared under `name` in `map`, or refuses with the
/// message of `missing_message`.
fn lookup<'a, V>(map: &'a InsertionOrderedMap<Name, V>, name: &Name, what: &str, ns: &PathName) -> (r: Result<
    &'a V,
    Error,
>)
    ensures
        r is Ok <==> declares(map.entries(), name@),
        r matches Ok(v) ==> *v == declared(map.entries(), name@),
        r matches Err(e) ==> e == Error::InvalidArgument(e->InvalidArgument_0) && e->InvalidArgument_0@
            == missing_message(what@, name@, ns@),
{
    map.lemma_distinct();
    proof {
        assert forall|i: int| 0 <= i < map.entries().len() implies (#[trigger] map.entries()[i].0.key()
            == name.key()) == (map.entries()[i].0@ == name@) by {
            lemma_name_key(map.entries()[i].0, *name);
        }
    }
    match map.index_of(name) {
        Some(i) => {
            proof {
                let s = map.entries();
                assert(s[i as int].0@ == name@);
                let c = choose|j: int| 0 <= j < s.len() && #[trigger] s[j].0@ == name@;
                assert(s[c].0@ == name@);
                if c != i as int {
                    assert(s[c].0.key() != s[i as int].0.key());
                }
            }
            Ok(map.value_at(i))
        },
        None => {
            proof {
                let s = map.entries();
                assert forall|j: int| 0 <= j < s.len() implies #[trigger] s[j].0@ != name@ by {
                    lemma_name_key(s[j].0, *name);
                }
            }
            let mut m = String::from_str(what);
            m.append(" with name ");
            m.append(name.as_str());
            m.append(" does not exist in namespace ");
            let t = ns.text();
            m.append(t.as_str());
            Err(Error::InvalidArgument(m))
        },
    }
}

impl Namespace {
    #[verifier::type_invariant]
    closed spec fn wf(self) -> bool {
        &&& keys_sorted(self.types.entries())
        &&& keys_sorted(self.implementations.entries())
        &&& keys_sorted(self.interfaces.entries())
        &&& keys_sorted(self.streamlets.entries())
    }

    /// Each kind of declaration comes in the order of the names.
    pub fn lemma_sorted(&self)
        ensures
            keys_sorted(self.spec_types()),
            keys_sorted(self.spec_implementations()),
            keys_sorted(self.spec_interfaces()),
            keys_sorted(self.spec_streamlets()),
    {
        proof {
            use_type_invariant(self);
        }
    }

    pub closed spec fn spec_name(&self) -> Seq<Seq<char>> {
        self.name@
    }

    pub closed spec fn spec_types(&self) -> Seq<(Name, TypeDeclaration)> {
        self.types.entries()
    }

    pub closed spec fn spec_implementations(&self) -> Seq<(Name, Implementation)> {
        self.implementations.entries()
    }

    pub closed spec fn spec_interfaces(&self) -> Seq<(Name, Interface)> {
        self.interfaces.entries()
    }

    pub closed spec fn spec_streamlets(&self) -> Seq<(Name, Streamlet)> {
        self.streamlets.entries()
    }

    /// An empty namespace named `name`.
    pub fn new(name: PathName) -> (r: Namespace)
        ensures
            r.spec_name() == name@,
            r.spec_types() == Seq::<(Name, TypeDeclaration)>::empty(),
            r.spec_implementations() == Seq::<(Name, Implementation)>::empty(),
            r.spec_interfaces() == Seq::<(Name, Interface)>::empty(),
            r.spec_streamlets() == Seq::<(Name, Streamlet)>::empty(),
    {
        Namespace {
            name,
            types: InsertionOrderedMap::new(),
            implementations: InsertionOrderedMap::new(),
            interfaces: InsertionOrderedMap::new(),
            streamlets: InsertionOrderedMap::new(),
        }
    }

    pub fn path_name(&self) -> (r: &PathName)
        ensures
            r@ == self.spec_name(),
    {
        &self.name
    }

    /// The type declarations, in the order they were made.
    pub fn type_decls(&self) -> (r: &InsertionOrderedMap<Name, TypeDeclaration>)
        ensures
            r.entries() == self.spec_types(),
    {
        &self.types
    }

    /// The implementations, in the order they were declared.
    pub fn implementations(&self) -> (r: &InsertionOrderedMap<Name, Implementation>)
        ensures
            r.entries() == self.spec_implementations(),
    {
        &self.implementations
    }

    /// The interfaces, in the order they were declared.
    pub fn interfaces(&self) -> (r: &InsertionOrderedMap<Name, Interface>)
        ensures
            r.entries() == self.spec_interfaces(),
    {
        &self.interfaces
    }

    /// Declares a type under `name`; a name already declared is refused
    /// (its declaration is then replaced) with `InvalidArgument`.
    pub fn import_type(&mut self, name: Name, type_decl: TypeDeclaration) -> (r: Result<(), Error>)
        ensures
            r is Ok <==> !declares(old(self).spec_types(), name@),
            final(self).spec_types() == imported(old(self).spec_types(), name, type_decl),
            final(self).spec_name() == old(self).spec_name(),
            final(self).spec_implementations() == old(self).spec_implementations(),
            final(self).spec_interfaces() == old(self).spec_interfaces(),
            final(self).spec_streamlets() == old(self).spec_streamlets(),
            r matches Err(e) ==> e == Error::InvalidArgument(e->InvalidArgument_0) && e->InvalidArgument_0@
                == duplicate_message("A type"@, name@, old(self).spec_name()),
    {
        proof {
            use_type_invariant(&*self);
        }
        let mut m = InsertionOrderedMap::new();
        std::mem::swap(&mut m, &mut self.types);
        let r = import(&mut m, name, type_decl, "A type", &self.name);
        self.types = m;
        r
    }

    /// Declares an implementation under `name`, refusing a name already
    /// declared as `import_type` does.
    pub fn import_implementation(&mut self, name: Name, implementation: Implementation) -> (r: Result<
        (),
        Error,
    >)
        ensures
            r is Ok <==> !declares(old(self).spec_implementations(), name@),
            final(self).spec_implementations() == imported(
                old(self).spec_implementations(),
                name,
                implementation,
            ),
            final(self).spec_name() == old(self).spec_name(),
            final(self).spec_types() == old(self).spec_types(),
            final(self).spec_interfaces() == old(self).spec_interfaces(),
            final(self).spec_streamlets() == old(self).spec_streamlets(),
            r matches Err(e) ==> e == Error::InvalidArgument(e->InvalidArgument_0) && e->InvalidArgument_0@
                == duplicate_message("An implementation"@, name@, old(self).spec_name()),
    {
        proof {
            use_type_invariant(&*self);
        }
        let mut m = InsertionOrderedMap::new();
        std::mem::swap(&mut m, &mut self.implementations);
        let r = import(&mut m, name, implementation, "An implementation", &self.name);
        self.implementations = m;
        r
    }

    /// Declares an interface under `name`, refusing a name already declared
    /// as `import_type` does.
    pub fn import_interface(&mut self, name: Name, interface: Interface) -> (r: Result<(), Error>)
        ensures
            r is Ok <==> !declares(old(self).spec_interfaces(), name@),
            final(self).spec_interfaces() == imported(old(self).spec_interfaces(), name, interface),
            final(self).spec_streamlets() == old(self).spec_streamlets(),
            final(self).spec_name() == old(self).spec_name(),
            final(self).spec_types() == old(self).spec_types(),
            final(self).spec_implementations() == old(self).spec_implementations(),
            r matches Err(e) ==> e == Error::InvalidArgument(e->InvalidArgument_0) && e->InvalidArgument_0@
                == duplicate_message("An interface"@, name@, old(self).spec_name()),
    {
        proof {
            use_type_invariant(&*self);
        }
        let mut m = InsertionOrderedMap::new();
        std::mem::swap(&mut m, &mut self.interfaces);
        let r = import(&mut m, name, interface, "An interface", &self.name);
        self.interfaces = m;
        r
    }

    /// Declares `typ`, without parameters, under `name`, its declaration
    /// named by the namespace's path and `name`. A type that uses
    /// parameters is refused as `TypeDeclaration::try_new_no_params` refuses
    /// it, and the namespace is then unchanged.
    pub fn define_type_no_params(&mut self, name: Name, typ: LogicalType) -> (r: Result<(), Error>)
        ensures
            match declaration(old(self).spec_name().push(name@), typ@, Seq::empty()) {
                Ok(v) => {
                    &&& (r is Ok <==> !declares(old(self).spec_types(), name@))
                    &&& exists|d: TypeDeclaration|
                        d@ == v && #[trigger] final(self).spec_types() == imported(
                            old(self).spec_types(),
                            name,
                            d,
                        )
                },
                Err(k) => r matches Err(e) && e.kind() == k && final(self).spec_types() == old(
                    self,
                ).spec_types(),
            },
            final(self).spec_name() == old(self).spec_name(),
            final(self).spec_implementations() == old(self).spec_implementations(),
            final(self).spec_interfaces() == old(self).spec_interfaces(),
            final(self).spec_streamlets() == old(self).spec_streamlets(),
    {
        let path = self.name.with_child(name.clone());
        match TypeDeclaration::try_new_no_params(path, typ) {
            Ok(d) => self.import_type(name, d),
            Err(e) => Err(e),
        }
    }

    /// Declares `typ` with the parameters `parameters` under `name`, its
    /// declaration named by the namespace's path and `name`; refused as
    /// `TypeDeclaration::try_new` refuses it (the namespace then unchanged),
    /// or as `import_type` refuses a name already declared.
    pub fn define_type(&mut self, name: Name, typ: LogicalType, parameters: Vec<GenericParameter>) -> (r:
        Result<(), Error>)
        ensures
            match declaration(
                old(self).spec_name().push(name@),
                typ@,
                parameters@.map_values(|p: GenericParameter| p@),
            ) {
                Ok(v) => {
                    &&& (r is Ok <==> !declares(old(self).spec_types(), name@))
                    &&& exists|d: TypeDeclaration|
                        d@ == v && #[trigger] final(self).spec_types() == imported(
                            old(self).spec_types(),
                            name,
                            d,
                        )
                },
                Err(k) => r matches Err(e) && e.kind() == k && final(self).spec_types() == old(
                    self,
                ).spec_types(),
            },
            final(self).spec_name() == old(self).spec_name(),
            final(self).spec_implementations() == old(self).spec_implementations(),
            final(self).spec_interfaces() == old(self).spec_interfaces(),
            final(self).spec_streamlets() == old(self).spec_streamlets(),
    {
        let path = self.name.with_child(name.clone());
        match TypeDeclaration::try_new(path, typ, parameters) {
            Ok(d) => self.import_type(name, d),
            Err(e) => Err(e),
        }
    }

    /// Declares `implementation` under `name`, renamed to the namespace's
    /// path and `name`; refused as `import_implementation` refuses.
    pub fn define_implementation(&mut self, name: Name, implementation: Implementation) -> (r: Result<
        (),
        Error,
    >)
        ensures
            r is Ok <==> !declares(old(self).spec_implementations(), name@),
            exists|d: Implementation|
                d.spec_name() == old(self).spec_name().push(name@) && d.spec_kind()
                    == implementation.spec_kind() && d.spec_doc() == implementation.spec_doc()
                    && #[trigger] final(self).spec_implementations() == imported(
                    old(self).spec_implementations(),
                    name,
                    d,
                ),
            final(self).spec_name() == old(self).spec_name(),
            final(self).spec_types() == old(self).spec_types(),
            final(self).spec_interfaces() == old(self).spec_interfaces(),
            final(self).spec_streamlets() == old(self).spec_streamlets(),
            r matches Err(e) ==> e == Error::InvalidArgument(e->InvalidArgument_0) && e->InvalidArgument_0@
                == duplicate_message("An implementation"@, name@, old(self).spec_name()),
    {
        let path = self.name.with_child(name.clone());
        let d = implementation.with_name(path);
        self.import_implementation(name, d)
    }

    /// The streamlets, in the order of their names.
    pub fn streamlets(&self) -> (r: &InsertionOrderedMap<Name, Streamlet>)
        ensures
            r.entries() == self.spec_streamlets(),
    {
        &self.streamlets
    }

    /// Declares a streamlet under `name`, refusing a name already declared
    /// as `import_type` does.
    pub fn import_streamlet(&mut self, name: Name, streamlet: Streamlet) -> (r: Result<(), Error>)
        ensures
            r is Ok <==> !declares(old(self).spec_streamlets(), name@),
            final(self).spec_streamlets() == imported(old(self).spec_streamlets(), name, streamlet),
            final(self).spec_name() == old(self).spec_name(),
            final(self).spec_types() == old(self).spec_types(),
            final(self).spec_implementations() == old(self).spec_implementations(),
            final(self).spec_interfaces() == old(self).spec_interfaces(),
            r matches Err(e) ==> e == Error::InvalidArgument(e->InvalidArgument_0) && e->InvalidArgument_0@
                == duplicate_message("A streamlet"@, name@, old(self).spec_name()),
    {
        proof {
            use_type_invariant(&*self);
        }
        let mut m = InsertionOrderedMap::new();
        std::mem::swap(&mut m, &mut self.streamlets);
        let r = import(&mut m, name, streamlet, "A streamlet", &self.name);
        self.streamlets = m;
        r
    }

    /// Declares `streamlet` under `name`, renamed to the namespace's path
    /// and `name`; refused as `import_streamlet` refuses.
    pub fn define_streamlet(&mut self, name: Name, streamlet: Streamlet) -> (r: Result<(), Error>)
        ensures
            r is Ok <==> !declares(old(self).spec_streamlets(), name@),
            exists|d: Streamlet|
                d.spec_name() == old(self).spec_name().push(name@) && d.spec_interface()
                    == streamlet.spec_interface() && d.spec_implementation()
                    == streamlet.spec_implementation() && d.spec_doc() == streamlet.spec_doc()
                    && #[trigger] final(self).spec_streamlets() == imported(
                    old(self).spec_streamlets(),
                    name,
                    d,
                ),
            final(self).spec_name() == old(self).spec_name(),
            final(self).spec_types() == old(self).spec_types(),
            final(self).spec_implementations() == old(self).spec_implementations(),
            final(self).spec_interfaces() == old(self).spec_interfaces(),
            r matches Err(e) ==> e == Error::InvalidArgument(e->InvalidArgument_0) && e->InvalidArgument_0@
                == duplicate_message("A streamlet"@, name@, old(self).spec_name()),
    {
        let path = self.name.with_child(name.clone());
        let d = streamlet.with_name(path);
        self.import_streamlet(name, d)
    }

    /// The streamlet `name`, or `InvalidArgument` where none is declared.
    pub fn get_streamlet(&self, name: &Name) -> (r: Result<&Streamlet, Error>)
        ensures
            r is Ok <==> declares(self.spec_streamlets(), name@),
            r matches Ok(d) ==> *d == declared(self.spec_streamlets(), name@),
            r matches Err(e) ==> e == Error::InvalidArgument(e->InvalidArgument_0) && e->InvalidArgument_0@
                == missing_message("A streamlet"@, name@, self.spec_name()),
    {
        lookup(&self.streamlets, name, "A streamlet", &self.name)
    }

    /// The declaration of the type `name`, or `InvalidArgument` where none
    /// is declared.
    pub fn get_type_decl(&self, name: &Name) -> (r: Result<&TypeDeclaration, Error>)
        ensures
            r is Ok <==> declares(self.spec_types(), name@),
            r matches Ok(d) ==> *d == declared(self.spec_types(), name@),
            r matches Err(e) ==> e == Error::InvalidArgument(e->InvalidArgument_0) && e->InvalidArgument_0@
                == missing_message("A type"@, name@, self.spec_name()),
    {
        lookup(&self.types, name, "A type", &self.name)
    }

    /// The implementation `name`, or `InvalidArgument` where none is
    /// declared.
    pub fn get_implementation(&self, name: &Name) -> (r: Result<&Implementation, Error>)
        ensures
            r is Ok <==> declares(self.spec_implementations(), name@),
            r matches Ok(d) ==> *d == declared(self.spec_implementations(), name@),
            r matches Err(e) ==> e == Error::InvalidArgument(e->InvalidArgument_0) && e->InvalidArgument_0@
                == missing_message("An implementation"@, name@, self.spec_name()),
    {
        lookup(&self.implementations, name, "An implementation", &self.name)
    }

    /// The interface `name`, or `InvalidArgument` where none is declared.
    pub fn get_interface(&self, name: &Name) -> (r: Result<&Interface, Error>)
        ensures
            r is Ok <==> declares(self.spec_interfaces(), name@),
            r matches Ok(d) ==> *d == declared(self.spec_interfaces(), name@),
            r matches Err(e) ==> e == Error::InvalidArgument(e->InvalidArgument_0) && e->InvalidArgument_0@
                == missing_message("An interface"@, name@, self.spec_name()),
    {
        lookup(&self.interfaces, name, "An interface", &self.name)
    }
}

/// What is declared under a new name is found again under it, and every
/// other name keeps what it had.
pub proof fn lemma_import_then_get<V>(s: Seq<(Name, V)>, name: Name, value: V, other: Seq<char>)
    requires
        keys_sorted(s),
        !declares(s, name@),
    ensures
        declares(imported(s, name, value), name@),
        declared(imported(s, name, value), name@) == value,
        other != name@ ==> declares(imported(s, name, value), other) == declares(s, other),
        other != name@ && declares(s, other) ==> declared(imported(s, name, value), other) == declared(s, other),
{
    assert forall|i: int| 0 <= i < s.len() implies #[trigger] s[i].0.key() != name.key() by {
        lemma_name_key(s[i].0, name);
    }
    assert(key_index(s, name.key()) is None);
    crate::ordered_map::lemma_sorted_position(s, name.key());
    let p = sorted_position(s, name.key());
    let t = s.insert(p, (name, value));
    assert(imported(s, name, value) == t);
    assert(t[p].0@ == name@);
    let c = choose|i: int| 0 <= i < t.len() && #[trigger] t[i].0@ == name@;
    if c < p {
        assert(t[c] == s[c]);
    } else if c > p {
        assert(t[c] == s[c - 1]);
    }
    assert(c == p);
    if other != name@ {
        if declares(s, other) {
            let k = choose|i: int| 0 <= i < s.len() && #[trigger] s[i].0@ == other;
            let kk = if k < p {
                k
            } else {
                k + 1
            };
            assert(t[kk] == s[k]);
            assert(t[kk].0@ == other);
            let kt = choose|i: int| 0 <= i < t.len() && #[trigger] t[i].0@ == other;
            let ks = if kt < p {
                kt
            } else {
                kt - 1
            };
            assert(kt != p);
            assert(t[kt] == s[ks]);
            assert(s[ks].0@ == other);
            assert forall|j: int| 0 <= j < s.len() && #[trigger] s[j].0@ == other implies j == k by {
                lemma_name_key(s[j].0, s[k].0);
                crate::ordered_map::lemma_key_before_total(s[k].0.key(), s[k].0.key());
                if j < k {
                    assert(crate::ordered_map::key_before(s[j].0.key(), s[k].0.key()));
                } else if k < j {
                    assert(crate::ordered_map::key_before(s[k].0.key(), s[j].0.key()));
                }
            }
            assert(ks == k);
            assert(t[kt].1 == s[k].1);
        } else {
            if declares(t, other) {
                let kt = choose|i: int| 0 <= i < t.len() && #[trigger] t[i].0@ == other;
                if kt < p {
                    assert(t[kt] == s[kt]);
                } else if kt > p {
                    assert(t[kt] == s[kt - 1]);
                }
            }
        }
    }
}

/// A project: its name, where its sources are, where its output goes, and
/// its namespaces in the order of their paths.
#[derive(Debug, PartialEq, Eq, Hash)]
pub struct Project {
    name: Name,
    location: String,
    output_path: Option<String>,
    namespaces: InsertionOrderedMap<PathName, Namespace>,
}

/// The refusal of a second namespace under one path.
pub open spec fn namespace_duplicate_message(path: Seq<Seq<char>>) -> Seq<char> {
    "A namespace with name "@ + join_spec(path, "__"@) + " was already declared"@
}

impl Project {
    #[verifier::type_invariant]
    closed spec fn wf(self) -> bool {
        keys_sorted(self.namespaces.entries())
    }

    /// The namespaces come in the order of their paths.
    pub fn lemma_sorted(&self)
        ensures
            keys_sorted(self.spec_namespaces()),
    {
        proof {
            use_type_invariant(self);
        }
    }

    pub closed spec fn spec_name(&self) -> Seq<char> {
        self.name@
    }

    pub closed spec fn spec_location(&self) -> Seq<char> {
        self.location@
    }

    pub closed spec fn spec_output_path(&self) -> Option<Seq<char>> {
        match self.output_path {
            Some(p) => Some(p@),
            None => None,
        }
    }

    pub closed spec fn spec_namespaces(&self) -> Seq<(PathName, Namespace)> {
        self.namespaces.entries()
    }

    /// A project without namespaces.
    pub fn new(name: Name, location: String, output_path: Option<String>) -> (r: Project)
        ensures
            r.spec_name() == name@,
            r.spec_location() == location@,
            r.spec_output_path() == match output_path {
                Some(p) => Some(p@),
                None => None::<Seq<char>>,
            },
            r.spec_namespaces() == Seq::<(PathName, Namespace)>::empty(),
    {
        Project { name, location, output_path, namespaces: InsertionOrderedMap::new() }
    }

    pub fn name(&self) -> (r: &Name)
        ensures
            r@ == self.spec_name(),
    {
        &self.name
    }

    pub fn location(&self) -> (r: &String)
        ensures
            r@ == self.spec_location(),
    {
        &self.location
    }

    pub fn output_path(&self) -> (r: &Option<String>)
        ensures
            self.spec_output_path() == match *r {
                Some(p) => Some(p@),
                None => None::<Seq<char>>,
            },
    {
        &self.output_path
    }

    /// The namespaces, in the order they were added.
    pub fn namespaces(&self) -> (r: &InsertionOrderedMap<PathName, Namespace>)
        ensures
            r.entries() == self.spec_namespaces(),
    {
        &self.namespaces
    }

    /// Adds a namespace under its path; a path already declared is refused
    /// with `InvalidArgument` (the namespace then replaces the one declared
    /// under it).
    pub fn add_namespace(&mut self, namespace: Namespace) -> (r: Result<(), Error>)
        ensures
            r is Ok <==> forall|i: int|
                0 <= i < old(self).spec_namespaces().len() ==> #[trigger] old(
                    self,
                ).spec_namespaces()[i].0@ != namespace.spec_name(),
            exists|p: PathName|
                p@ == namespace.spec_name() && #[trigger] final(self).spec_namespaces() == imported(
                    old(self).spec_namespaces(),
                    p,
                    namespace,
                ),
            final(self).spec_name() == old(self).spec_name(),
            final(self).spec_location() == old(self).spec_location(),
            final(self).spec_output_path() == old(self).spec_output_path(),
            r matches Err(e) ==> e == Error::InvalidArgument(e->InvalidArgument_0) && e->InvalidArgument_0@
                == namespace_duplicate_message(namespace.spec_name()),
    {
        proof {
            use_type_invariant(&*self);
        }
        let path = namespace.path_name().clone();
        let mut ns = InsertionOrderedMap::new();
        std::mem::swap(&mut ns, &mut self.namespaces);
        ns.lemma_distinct();
        let r = match ns.index_of(&path) {
            Some(i) => {
                proof {
                    let s = old(self).spec_namespaces();
                    assert(key_index(s, path.key()) == Some(i as int)) by {
                        assert(s[i as int].0.key() == path.key());
                        let c = choose|j: int| 0 <= j < s.len() && #[trigger] s[j].0.key() == path.key();
                        if c != i as int {
                            assert(s[c].0.key() != s[i as int].0.key());
                        }
                    }
                    assert(s[i as int].0@ == path@);
                }
                let t = path.text();
                let mut m = String::from_str("A namespace with name ");
                m.append(t.as_str());
                m.append(" was already declared");
                proof {
                    lemma_update_sorted(old(self).spec_namespaces(), i as int, namespace);
                }
                ns.replace_at(i, namespace);
                Err(Error::InvalidArgument(m))
            },
            None => {
                proof {
                    let s = old(self).spec_namespaces();
                    assert(!(exists|j: int| 0 <= j < s.len() && #[trigger] s[j].0.key() == path.key()));
                    assert forall|j: int| 0 <= j < s.len() implies #[trigger] s[j].0@ != path@ by {
                        assert(s[j].0.key() == s[j].0@);
                    }
                }
                match ns.try_insert_sorted(path, namespace) {
                    Ok(()) => Ok(()),
                    Err(_) => {
                        proof {
                            assert(false);
                        }
                        Ok(())
                    },
                }
            },
        };
        self.namespaces = ns;
        r
    }
}

} // verus!
