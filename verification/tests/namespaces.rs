use til_query::directions::{InterfaceDirection, PhysicalProperties};
use til_query::streamlet::Streamlet;
use til_query::structure::InterfacePort;
use til_query::error::Error;
use til_query::generics::{GenericKind, GenericParameter, InterfaceGenericKind};
use til_query::param_value::GenericParamValue;
use til_query::implementation::Implementation;
use til_query::interface::Interface;
use til_query::link::{Link, PathStatus};
use til_query::logical_type::LogicalType;
use til_query::name::{Name, PathName};
use til_query::namespace::{Namespace, Project};

fn name(s: &str) -> Name {
    Name::try_new(s).unwrap()
}

#[test]
fn types_are_declared_once_and_found_by_name() -> Result<(), Error> {
    let mut ns = Namespace::new(PathName::try_new(&["lib", "core"])?);
    ns.define_type_no_params(name("byte"), LogicalType::try_new_bits(8)?)?;
    let decl = ns.get_type_decl(&name("byte"))?;
    assert_eq!(decl.path_name().text(), "lib__core__byte");
    assert_eq!(
        ns.define_type_no_params(name("byte"), LogicalType::try_new_bits(4)?),
        Err(Error::InvalidArgument(
            "A type with name byte already exists in namespace lib__core.".to_string()
        ))
    );
    assert_eq!(ns.type_decls().len(), 1);
    assert_eq!(
        ns.get_type_decl(&name("word")).err(),
        Some(Error::InvalidArgument(
            "A type with name word does not exist in namespace lib__core".to_string()
        ))
    );
    Ok(())
}

#[test]
fn implementations_and_interfaces_have_their_own_names() -> Result<(), Error> {
    let mut ns = Namespace::new(PathName::try_new(&["ns"])?);
    let imp = Implementation::link(Link::try_new("../".to_string(), PathStatus::Directory)?);
    ns.define_implementation(name("x"), imp)?;
    assert_eq!(ns.get_implementation(&name("x"))?.name().text(), "ns__x");
    ns.import_interface(name("x"), Interface::new_empty())?;
    assert!(ns.get_interface(&name("x")).is_ok());
    assert_eq!(
        ns.import_interface(name("x"), Interface::new_empty()),
        Err(Error::InvalidArgument(
            "An interface with name x already exists in namespace ns.".to_string()
        ))
    );
    assert_eq!(
        ns.get_implementation(&name("y")).err(),
        Some(Error::InvalidArgument(
            "An implementation with name y does not exist in namespace ns".to_string()
        ))
    );
    Ok(())
}

#[test]
fn projects_hold_one_namespace_per_path() -> Result<(), Error> {
    let mut project = Project::new(name("proj"), "/tmp/proj".to_string(), None);
    assert_eq!(project.namespaces().len(), 0);
    project.add_namespace(Namespace::new(PathName::try_new(&["a", "b"])?))?;
    project.add_namespace(Namespace::new(PathName::try_new(&["a"])?))?;
    assert_eq!(project.namespaces().len(), 2);
    assert_eq!(
        project.add_namespace(Namespace::new(PathName::try_new(&["a", "b"])?)),
        Err(Error::InvalidArgument("A namespace with name a__b was already declared".to_string()))
    );
    assert_eq!(project.namespaces().len(), 2);
    assert_eq!(project.name().as_str(), "proj");
    assert_eq!(project.location(), "/tmp/proj");
    assert_eq!(project.output_path(), &None);
    Ok(())
}

#[test]
fn types_with_parameters_are_checked_before_they_are_declared() -> Result<(), Error> {
    let mut ns = Namespace::new(PathName::try_new(&["ns"])?);
    let d = GenericParameter::try_new(
        "d",
        GenericKind::from(InterfaceGenericKind::dimensionality()),
        GenericParamValue::Integer(2),
    )?;
    assert_eq!(
        ns.define_type(name("t"), LogicalType::try_new_bits(4)?, vec![d]),
        Err(Error::InvalidArgument("Type ns__t declares parameters, but none are used.".to_string()))
    );
    assert_eq!(ns.type_decls().len(), 0);
    ns.define_type(name("t"), LogicalType::try_new_bits(4)?, vec![])?;
    assert_eq!(ns.type_decls().len(), 1);
    Ok(())
}

#[test]
fn declarations_come_in_the_order_of_their_names() -> Result<(), Error> {
    let mut ns = Namespace::new(PathName::try_new(&["ns"])?);
    for n in ["zeta", "alpha", "mid"] {
        ns.define_type_no_params(name(n), LogicalType::try_new_bits(1)?)?;
    }
    let keys: Vec<&str> = (0..ns.type_decls().len()).map(|i| ns.type_decls().key_at(i).as_str()).collect();
    assert_eq!(keys, vec!["alpha", "mid", "zeta"]);
    let mut project = Project::new(name("p"), "/".to_string(), None);
    project.add_namespace(Namespace::new(PathName::try_new(&["b"])?))?;
    project.add_namespace(Namespace::new(PathName::try_new(&["a", "z"])?))?;
    project.add_namespace(Namespace::new(PathName::try_new(&["a"])?))?;
    let paths: Vec<String> =
        (0..project.namespaces().len()).map(|i| project.namespaces().key_at(i).text()).collect();
    assert_eq!(paths, vec!["a", "a__z", "b"]);
    Ok(())
}

#[test]
fn streamlets_are_declared_with_their_interface() -> Result<(), Error> {
    let port = |n: &str, d| InterfacePort::try_new(n, 1, PhysicalProperties::new_direction(d)).unwrap();
    let s = Streamlet::new()
        .with_ports(vec![port("a", InterfaceDirection::In), port("b", InterfaceDirection::Out)])?;
    assert_eq!(s.inputs().len(), 1);
    assert_eq!(s.try_get_port(&name("b"))?.name().as_str(), "b");
    let mut ns = Namespace::new(PathName::try_new(&["lib"])?);
    ns.define_streamlet(name("comp"), s)?;
    let found = ns.get_streamlet(&name("comp"))?;
    assert_eq!(found.path_name().text(), "lib__comp");
    assert_eq!(
        found.try_get_port(&name("c")).err(),
        Some(Error::InvalidArgument("No port with name c exists on Streamlet lib__comp".to_string()))
    );
    assert_eq!(
        ns.import_streamlet(name("comp"), Streamlet::new()),
        Err(Error::InvalidArgument("A streamlet with name comp already exists in namespace lib.".to_string()))
    );
    assert_eq!(
        ns.get_streamlet(&name("x")).err(),
        Some(Error::InvalidArgument("A streamlet with name x does not exist in namespace lib".to_string()))
    );
    assert_eq!(Streamlet::new().outputs().len(), 0);
    Ok(())
}
