use til_query::directions::{InterfaceDirection, PhysicalProperties};
use til_query::error::Error;
use til_query::generics::GenericParameter;
use til_query::name::Name;
use til_query::ordered_map::InsertionOrderedMap;
use til_query::structure::{InterfacePort, InterfaceReference, StreamletInstance, Structure};

fn ports(stream: u64) -> Result<InsertionOrderedMap<Name, InterfacePort>, Error> {
    let mut ports = InsertionOrderedMap::new();
    ports.try_insert(
        Name::try_new("a")?,
        InterfacePort::try_new("a", stream, PhysicalProperties::new_direction(InterfaceDirection::In))?,
    )?;
    ports.try_insert(
        Name::try_new("b")?,
        InterfacePort::try_new("b", stream, PhysicalProperties::new_direction(InterfaceDirection::Out))?,
    )?;
    Ok(ports)
}

fn no_params() -> InsertionOrderedMap<Name, GenericParameter> {
    InsertionOrderedMap::new()
}

fn local(port: &str) -> Result<InterfaceReference, Error> {
    Ok(InterfaceReference::new(None, Name::try_new(port)?))
}

fn on(instance: &str, port: &str) -> Result<InterfaceReference, Error> {
    Ok(InterfaceReference::new(Some(Name::try_new(instance)?), Name::try_new(port)?))
}

fn structure_with_instance() -> Result<Structure, Error> {
    let mut structure = Structure::new(ports(4)?);
    structure.try_add_streamlet_instance_default("instance", None, &no_params(), &ports(4)?)?;
    Ok(structure)
}

#[test]
fn try_add_connection() -> Result<(), Error> {
    let mut structure = structure_with_instance()?;
    structure.try_add_connection(local("a")?, on("instance", "a")?)?;
    Ok(())
}

#[test]
fn try_validate_connections() -> Result<(), Error> {
    let mut structure = structure_with_instance()?;
    structure.try_add_connection(local("a")?, on("instance", "a")?)?;

    assert_eq!(
        structure.validate_connections(),
        Err(Error::ProjectError("Port b has not been connected".to_string())),
    );

    structure.try_add_connection(local("b")?, on("instance", "b")?)?;
    structure.validate_connections()?;

    structure.try_add_connection(local("a")?, on("instance", "a")?)?;
    assert_eq!(
        structure.validate_connections(),
        Err(Error::ProjectError("Duplicate use of Source a".to_string())),
    );
    Ok(())
}

#[test]
fn try_get_streamlet_instance() -> Result<(), Error> {
    let structure = structure_with_instance()?;
    structure.try_get_streamlet_instance(&Name::try_new("instance")?)?;
    Ok(())
}

#[test]
fn connections_need_matching_streams_and_directions() -> Result<(), Error> {
    let mut structure = structure_with_instance()?;
    let before = structure.connections().len();
    assert!(matches!(
        structure.try_add_connection(local("a")?, on("instance", "b")?),
        Err(Error::InvalidTarget(_))
    ));
    assert!(matches!(
        structure.try_add_connection(local("a")?, on("nothing", "a")?),
        Err(Error::InvalidArgument(_))
    ));
    assert!(matches!(
        structure.try_add_connection(local("c")?, on("instance", "a")?),
        Err(Error::InvalidArgument(_))
    ));
    assert_eq!(structure.connections().len(), before);

    let mut other = Structure::new(ports(4)?);
    other.try_add_streamlet_instance_default("x", None, &no_params(), &ports(5)?)?;
    assert!(matches!(
        other.try_add_connection(local("a")?, on("x", "a")?),
        Err(Error::InvalidTarget(_))
    ));
    Ok(())
}

#[test]
fn sources_follow_the_layer_and_direction() -> Result<(), Error> {
    let mut structure = structure_with_instance()?;
    structure.try_add_connection(on("instance", "b")?, local("b")?)?;
    let c = &structure.connections()[0];
    assert_eq!(c.source().text(), "instance.b");
    assert_eq!(c.sink().text(), "b");
    Ok(())
}

#[test]
fn instances_are_kept_in_name_order() -> Result<(), Error> {
    let mut structure = Structure::new(ports(1)?);
    structure.try_add_streamlet_instance_default("zeta", None, &no_params(), &ports(1)?)?;
    structure.try_add_streamlet_instance_default("alpha", None, &no_params(), &ports(1)?)?;
    structure.try_add_streamlet_instance_default("mid", None, &no_params(), &ports(1)?)?;
    let names: Vec<&str> =
        structure.streamlet_instances().iter().map(|i| i.name().as_str()).collect();
    assert_eq!(names, vec!["alpha", "mid", "zeta"]);
    assert!(matches!(
        structure.try_add_streamlet_instance_default("mid", None, &no_params(), &ports(1)?),
        Err(Error::InvalidArgument(_))
    ));
    assert_eq!(structure.streamlet_instances().len(), 3);
    let refs: Vec<String> = structure.interface_references().iter().map(|r| r.text()).collect();
    assert_eq!(refs, vec!["a", "b", "alpha.a", "alpha.b", "mid.a", "mid.b", "zeta.a", "zeta.b"]);
    Ok(())
}

#[test]
fn named_domains_need_an_assignment_for_every_port() -> Result<(), Error> {
    let mut structure = Structure::new(ports(1)?);
    let r = structure.try_add_streamlet_instance_default("i", Some(vec![Name::try_new("clk")?]), &no_params(), &ports(1)?);
    assert!(matches!(r, Err(Error::ProjectError(_))));
    let r = structure.try_add_streamlet_instance_default("j", Some(vec![]), &no_params(), &ports(1)?);
    assert!(matches!(r, Err(Error::ProjectError(_))));
    assert_eq!(structure.streamlet_instances().len(), 0);
    Ok(())
}

fn clocked_ports() -> Result<InsertionOrderedMap<Name, InterfacePort>, Error> {
    let mut ports = InsertionOrderedMap::new();
    ports.try_insert(
        Name::try_new("a")?,
        InterfacePort::try_new(
            "a",
            1,
            PhysicalProperties::new(Name::try_new("clk")?, InterfaceDirection::In),
        )?,
    )?;
    ports.try_insert(
        Name::try_new("b")?,
        InterfacePort::try_new(
            "b",
            1,
            PhysicalProperties::new(Name::try_new("io")?, InterfaceDirection::Out),
        )?,
    )?;
    Ok(ports)
}

fn domains() -> Result<Option<Vec<Name>>, Error> {
    Ok(Some(vec![Name::try_new("clk")?, Name::try_new("io")?]))
}

#[test]
fn domains_are_assigned_by_position_then_by_name() -> Result<(), Error> {
    let inst = StreamletInstance::new_assign_parameters_default(
        "i",
        domains()?,
        &no_params(),
        &clocked_ports()?,
        vec![(None, Name::try_new("x")?), (Some(Name::try_new("io")?), Name::try_new("y")?)],
    )?;
    let a = inst.try_get_port(&Name::try_new("a")?)?;
    let b = inst.try_get_port(&Name::try_new("b")?)?;
    assert_eq!(a.domain().map(|d| d.as_str()), Some("x"));
    assert_eq!(b.domain().map(|d| d.as_str()), Some("y"));
    let assigned: Vec<String> = inst
        .assigned_domains()?
        .unwrap()
        .iter()
        .map(|n| n.as_str().to_string())
        .collect();
    assert_eq!(assigned, vec!["x".to_string(), "y".to_string()]);
    Ok(())
}

#[test]
fn explicit_domain_assignments_are_checked() -> Result<(), Error> {
    let x = || Name::try_new("x").unwrap();
    let r = StreamletInstance::new_assign_parameters_default(
        "i",
        domains()?,
        &no_params(),
        &clocked_ports()?,
        vec![(Some(Name::try_new("clk")?), x()), (None, x())],
    );
    assert!(matches!(r, Err(Error::InvalidArgument(_))));
    let r = StreamletInstance::new_assign_parameters_default(
        "i",
        domains()?,
        &no_params(),
        &clocked_ports()?,
        vec![(None, x())],
    );
    assert!(matches!(r, Err(Error::InvalidArgument(_))));
    let r = StreamletInstance::new_assign_parameters_default(
        "i",
        domains()?,
        &no_params(),
        &clocked_ports()?,
        vec![(Some(Name::try_new("other")?), x()), (None, x())],
    );
    assert!(matches!(r, Err(Error::InvalidArgument(_))));
    let r = StreamletInstance::new_assign_parameters_default(
        "i",
        domains()?,
        &no_params(),
        &clocked_ports()?,
        vec![(Some(Name::try_new("clk")?), x()), (Some(Name::try_new("clk")?), x())],
    );
    assert!(matches!(r, Err(Error::InvalidArgument(_))));
    let r = StreamletInstance::new_assign_parameters_default(
        "i",
        None,
        &no_params(),
        &ports(1)?,
        vec![(None, x()), (None, x())],
    );
    assert!(matches!(r, Err(Error::ProjectError(_))));
    let single = StreamletInstance::new_assign_parameters_default(
        "i",
        None,
        &no_params(),
        &ports(1)?,
        vec![(None, x())],
    )?;
    assert_eq!(single.try_get_port(&Name::try_new("a")?)?.domain().map(|d| d.as_str()), Some("x"));
    Ok(())
}

#[test]
fn instance_inputs_and_outputs() -> Result<(), Error> {
    let inst = StreamletInstance::new_assign_default("i", None, &no_params(), &ports(1)?)?;
    let ins = inst.inputs();
    assert_eq!(ins.len(), 1);
    assert_eq!(ins[0].name().as_str(), "a");
    let outs = inst.outputs();
    assert_eq!(outs.len(), 1);
    assert_eq!(outs[0].name().as_str(), "b");
    Ok(())
}
