use til_query::directions::{InterfaceDirection, PhysicalProperties};
use til_query::error::Error;
use til_query::generics::{GenericKind, GenericParameter, IntegerGeneric};
use til_query::name::Name;
use til_query::ordered_map::InsertionOrderedMap;
use til_query::param_value::GenericParamValue;
use til_query::parameters::{
    set_parameter_assignments, set_parameters_default, GenericParameterAssignment,
};
use til_query::structure::{InterfacePort, StreamletInstance};

fn ival(v: i32) -> GenericParamValue {
    GenericParamValue::Integer(v)
}

fn name(n: &str) -> Name {
    Name::try_new(n).unwrap()
}

fn params() -> Result<InsertionOrderedMap<Name, GenericParameter>, Error> {
    let mut m = InsertionOrderedMap::new();
    m.try_insert(
        name("a"),
        GenericParameter::try_new("a", GenericKind::from(IntegerGeneric::natural()), ival(0))?,
    )?;
    m.try_insert(
        name("b"),
        GenericParameter::try_new("b", GenericKind::from(IntegerGeneric::positive()), ival(1))?,
    )?;
    Ok(m)
}

fn values(m: &InsertionOrderedMap<Name, GenericParameterAssignment>) -> Vec<(String, i32, bool)> {
    (0..m.len())
        .map(|i| {
            let a = m.value_at(i);
            let v = match a.value() {
                GenericParamValue::Integer(x) => *x,
                _ => panic!("not an integer"),
            };
            (
                m.key_at(i).as_str().to_string(),
                v,
                matches!(a, GenericParameterAssignment::Assigned(_, _)),
            )
        })
        .collect()
}

#[test]
fn defaults_keep_the_order_of_the_parameters() -> Result<(), Error> {
    let m = set_parameters_default(&params()?);
    assert_eq!(values(&m), vec![("a".to_string(), 0, false), ("b".to_string(), 1, false)]);
    Ok(())
}

#[test]
fn assignments_by_position_then_by_name() -> Result<(), Error> {
    let m = set_parameter_assignments(&params()?, vec![(None, ival(3)), (Some(name("b")), ival(5))])?;
    assert_eq!(values(&m), vec![("a".to_string(), 3, true), ("b".to_string(), 5, true)]);
    let m = set_parameter_assignments(&params()?, vec![(Some(name("a")), ival(7))])?;
    assert_eq!(values(&m), vec![("a".to_string(), 7, true), ("b".to_string(), 1, false)]);
    Ok(())
}

#[test]
fn position_after_name_is_refused() -> Result<(), Error> {
    let r = set_parameter_assignments(&params()?, vec![(Some(name("a")), ival(3)), (None, ival(5))]);
    assert_eq!(
        r,
        Err(Error::InvalidArgument(
            "Ordered parameter assignment must precede named assignments".to_string()
        ))
    );
    Ok(())
}

#[test]
fn too_many_values_by_position() -> Result<(), Error> {
    let r = set_parameter_assignments(&params()?, vec![(None, ival(1)), (None, ival(2)), (None, ival(3))]);
    assert_eq!(
        r,
        Err(Error::InvalidArgument(
            "More parameter assignments than there are parameters.".to_string()
        ))
    );
    Ok(())
}

#[test]
fn unknown_names_and_second_assignments_are_invalid_targets() -> Result<(), Error> {
    let r = set_parameter_assignments(&params()?, vec![(Some(name("c")), ival(3))]);
    assert_eq!(r, Err(Error::InvalidTarget("No parameter with identifier: c".to_string())));
    let r = set_parameter_assignments(&params()?, vec![(None, ival(3)), (Some(name("a")), ival(4))]);
    assert_eq!(r, Err(Error::InvalidTarget("Parameter a was already assigned.".to_string())));
    Ok(())
}

#[test]
fn values_outside_the_kind_are_invalid_targets() -> Result<(), Error> {
    let r = set_parameter_assignments(&params()?, vec![(Some(name("b")), ival(0))]);
    assert!(matches!(r, Err(Error::InvalidTarget(_))));
    Ok(())
}

#[test]
fn try_assign_once() -> Result<(), Error> {
    let p = GenericParameter::try_new("a", GenericKind::from(IntegerGeneric::natural()), ival(0))?;
    let d = GenericParameterAssignment::Default(p);
    assert_eq!(d.value(), &ival(0));
    let a = d.try_assign(ival(4))?;
    assert_eq!(a.value(), &ival(4));
    assert!(matches!(a.try_assign(ival(5)), Err(Error::InvalidTarget(_))));
    assert!(matches!(d.try_assign(ival(-1)), Err(Error::InvalidTarget(_))));
    Ok(())
}

fn one_port() -> Result<InsertionOrderedMap<Name, InterfacePort>, Error> {
    let mut ports = InsertionOrderedMap::new();
    ports.try_insert(
        name("p"),
        InterfacePort::try_new("p", 1, PhysicalProperties::new_direction(InterfaceDirection::In))?,
    )?;
    Ok(ports)
}

#[test]
fn instances_take_their_parameter_values() -> Result<(), Error> {
    let inst = StreamletInstance::new_assign_domains_default(
        "i",
        None,
        &params()?,
        &one_port()?,
        vec![(Some(name("b")), ival(9))],
    )?;
    assert_eq!(
        values(inst.parameter_assignments()),
        vec![("a".to_string(), 0, false), ("b".to_string(), 9, true)]
    );
    let inst = StreamletInstance::new_assign_default("j", None, &params()?, &one_port()?)?;
    assert_eq!(
        values(inst.parameter_assignments()),
        vec![("a".to_string(), 0, false), ("b".to_string(), 1, false)]
    );
    let r = StreamletInstance::new(
        "k",
        None,
        &params()?,
        &one_port()?,
        vec![(None, name("x"))],
        vec![(Some(name("zz")), ival(1))],
    );
    assert!(matches!(r, Err(Error::InvalidTarget(_))));
    Ok(())
}
