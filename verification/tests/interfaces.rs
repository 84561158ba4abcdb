use til_query::directions::{InterfaceDirection, PhysicalProperties};
use til_query::error::Error;
use til_query::generics::{GenericKind, GenericParameter, IntegerGeneric};
use til_query::interface::{Interface, InterfaceCollection};
use til_query::name::Name;
use til_query::param_value::GenericParamValue;
use til_query::structure::InterfacePort;

fn name(n: &str) -> Name {
    Name::try_new(n).unwrap()
}

fn port(n: &str, d: InterfaceDirection) -> InterfacePort {
    InterfacePort::try_new(n, 1, PhysicalProperties::new_direction(d)).unwrap()
}

fn port_in(n: &str, domain: &str, d: InterfaceDirection) -> InterfacePort {
    InterfacePort::try_new(n, 1, PhysicalProperties::new(name(domain), d)).unwrap()
}

fn names(ports: &[InterfacePort]) -> Vec<String> {
    ports.iter().map(|p| p.name().as_str().to_string()).collect()
}

#[test]
fn domains_are_distinct_and_none_means_default() -> Result<(), Error> {
    assert_eq!(
        Interface::new_domains(vec![name("clk"), name("clk")]),
        Err(Error::UnexpectedDuplicate)
    );
    let i = Interface::new_domains(vec![])?;
    assert!(i.domains().is_none());
    let i = Interface::new_domains(vec![name("clk"), name("io")])?;
    assert_eq!(i.domains().as_ref().map(|d| d.len()), Some(2));
    Ok(())
}

#[test]
fn ports_must_fit_the_domains() -> Result<(), Error> {
    let r = Interface::new_empty().with_ports(vec![port_in("a", "clk", InterfaceDirection::In)]);
    assert_eq!(
        r,
        Err(Error::InvalidArgument(
            "Port a has domain clk, but Interface has Default domain".to_string()
        ))
    );
    let d = || Interface::new_domains(vec![name("clk"), name("io")]).unwrap();
    let r = d().with_ports(vec![port("a", InterfaceDirection::In)]);
    assert_eq!(
        r,
        Err(Error::InvalidArgument(
            "Port a has Default domain, but Interface has domains: clk, io".to_string()
        ))
    );
    let r = d().with_ports(vec![port_in("a", "x", InterfaceDirection::In)]);
    assert_eq!(
        r,
        Err(Error::InvalidArgument(
            "Port a has domain x, but Interface has domains: clk, io".to_string()
        ))
    );
    let i = d().with_ports(vec![
        port_in("a", "io", InterfaceDirection::In),
        port_in("b", "clk", InterfaceDirection::Out),
    ])?;
    assert_eq!(i.ports().len(), 2);
    Ok(())
}

#[test]
fn port_names_are_distinct() -> Result<(), Error> {
    let r = Interface::new_empty().with_ports(vec![
        port("a", InterfaceDirection::In),
        port("a", InterfaceDirection::Out),
    ]);
    assert_eq!(r, Err(Error::UnexpectedDuplicate));
    let mut i = Interface::new_empty().with_ports(vec![port("a", InterfaceDirection::In)])?;
    assert_eq!(i.push_port(port("a", InterfaceDirection::Out)), Err(Error::UnexpectedDuplicate));
    i.push_port(port("b", InterfaceDirection::Out))?;
    assert!(matches!(
        i.push_port(port_in("c", "clk", InterfaceDirection::Out)),
        Err(Error::InvalidArgument(_))
    ));
    assert_eq!(i.ports().len(), 2);
    Ok(())
}

#[test]
fn inputs_and_outputs_keep_their_order() -> Result<(), Error> {
    let i = Interface::new_empty().with_ports(vec![
        port("a", InterfaceDirection::In),
        port("b", InterfaceDirection::Out),
        port("c", InterfaceDirection::In),
    ])?;
    assert_eq!(names(&i.inputs()), vec!["a", "c"]);
    assert_eq!(names(&i.outputs()), vec!["b"]);
    assert_eq!(i.try_get_port(&name("b"))?.direction(), InterfaceDirection::Out);
    assert_eq!(
        i.try_get_port(&name("z")),
        Err(Error::InvalidArgument("No port with name z exists on this interface".to_string()))
    );
    Ok(())
}

#[test]
fn parameters_by_name() -> Result<(), Error> {
    let p = |n: &str| {
        GenericParameter::try_new(n, GenericKind::from(IntegerGeneric::natural()), GenericParamValue::Integer(0))
            .unwrap()
    };
    assert_eq!(Interface::new_parameters(vec![p("a"), p("a")]), Err(Error::UnexpectedDuplicate));
    let i = Interface::new_parameters(vec![p("a"), p("b")])?;
    assert_eq!(i.parameters().len(), 2);
    assert_eq!(i.try_get_parameter(&name("b"))?.name().as_str(), "b");
    assert_eq!(
        i.try_get_parameter(&name("c")),
        Err(Error::InvalidArgument(
            "No parameter with name c exists on this interface".to_string()
        ))
    );
    Ok(())
}

#[test]
fn interface_collections_keep_port_order_and_refuse_repeats() -> Result<(), Error> {
    assert_eq!(InterfaceCollection::new_empty().ports().len(), 0);
    let c = InterfaceCollection::new(vec![
        port("b", InterfaceDirection::Out),
        port("a", InterfaceDirection::In),
        port_in("c", "clk", InterfaceDirection::Out),
    ])?;
    assert_eq!(names(&c.ports()), vec!["b", "a", "c"]);
    assert_eq!(names(&c.inputs()), vec!["a"]);
    assert_eq!(names(&c.outputs()), vec!["b", "c"]);
    assert_eq!(c.try_get_port(&name("a"))?.name().as_str(), "a");
    assert_eq!(
        c.try_get_port(&name("x")).err(),
        Some(Error::InvalidArgument(
            "No port with name x exists on this interface collection".to_string()
        ))
    );
    assert_eq!(
        InterfaceCollection::new(vec![port("a", InterfaceDirection::In), port("a", InterfaceDirection::Out)]),
        Err(Error::UnexpectedDuplicate)
    );
    Ok(())
}

#[test]
fn interfaces_are_built_from_domains_parameters_and_ports() -> Result<(), Error> {
    let i = Interface::new(
        vec![name("clk")],
        vec![],
        vec![port_in("a", "clk", InterfaceDirection::In)],
    )?;
    assert_eq!(i.domains().as_ref().map(|d| d.len()), Some(1));
    assert_eq!(names(&i.inputs()), vec!["a"]);
    assert_eq!(
        Interface::new(vec![name("clk"), name("clk")], vec![], vec![]).err(),
        Some(Error::UnexpectedDuplicate)
    );
    assert!(matches!(
        Interface::new_ports_domains(vec![name("clk")], vec![port("a", InterfaceDirection::In)]),
        Err(Error::InvalidArgument(_))
    ));
    let p = Interface::new_ports(vec![port("a", InterfaceDirection::In), port("b", InterfaceDirection::Out)])?;
    assert_eq!(names(&p.outputs()), vec!["b"]);
    assert_eq!(
        Interface::new_ports(vec![port("a", InterfaceDirection::In), port("a", InterfaceDirection::Out)]).err(),
        Some(Error::UnexpectedDuplicate)
    );
    Ok(())
}
