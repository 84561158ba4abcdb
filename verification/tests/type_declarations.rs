use til_query::complexity::Complexity;
use til_query::directions::{Direction, Synchronicity};
use til_query::error::Error;
use til_query::generic_property::GenericProperty;
use til_query::generics::{GenericKind, GenericParameter, IntegerGeneric, InterfaceGenericKind};
use til_query::logical_type::{LogicalType, Stream, Throughput};
use til_query::name::{Name, PathName};
use til_query::param_value::GenericParamValue;
use til_query::type_declaration::TypeDeclaration;

fn path(n: &str) -> PathName {
    PathName::try_new(&[n]).unwrap()
}

fn dim_stream() -> Result<LogicalType, Error> {
    Ok(LogicalType::Stream(Stream::try_new(
        LogicalType::try_new_bits(8)?,
        Throughput::try_new(1, 1)?,
        GenericProperty::from_name(Name::try_new("d")?),
        Synchronicity::Sync,
        Complexity::new_major(4),
        Direction::Forward,
        LogicalType::Null,
        false,
    )?))
}

fn dim_param(n: &str) -> GenericParameter {
    GenericParameter::try_new(
        n,
        GenericKind::from(InterfaceGenericKind::dimensionality()),
        GenericParamValue::Integer(2),
    )
    .unwrap()
}

fn nat_param(n: &str) -> GenericParameter {
    GenericParameter::try_new(n, GenericKind::from(IntegerGeneric::natural()), GenericParamValue::Integer(0))
        .unwrap()
}

#[test]
fn declarations_without_parameters() -> Result<(), Error> {
    let t = TypeDeclaration::try_new_no_params(path("a"), LogicalType::try_new_bits(4)?)?;
    assert!(t.parameter_assignments().is_none());
    assert_eq!(t.parameters().len(), 0);
    assert_eq!(
        t.with_assignments(vec![(None, GenericParamValue::Integer(1))]),
        Err(Error::InvalidArgument("No parameters on type a".to_string()))
    );
    Ok(())
}

#[test]
fn declared_parameters_must_be_used() -> Result<(), Error> {
    assert_eq!(
        TypeDeclaration::try_new(path("a"), LogicalType::try_new_bits(4)?, vec![dim_param("d")]),
        Err(Error::InvalidArgument("Type a declares parameters, but none are used.".to_string()))
    );
    assert_eq!(
        TypeDeclaration::try_new_no_params(path("s"), dim_stream()?),
        Err(Error::InvalidArgument(
            "Type defined by s expects parameters, but none are declared.".to_string()
        ))
    );
    assert_eq!(
        TypeDeclaration::try_new(path("s"), dim_stream()?, vec![dim_param("x")]),
        Err(Error::InterfaceError(
            "The type defined by s expects a parameter with name d, but none exists.".to_string()
        ))
    );
    assert!(matches!(
        TypeDeclaration::try_new(path("s"), dim_stream()?, vec![nat_param("d")]),
        Err(Error::InvalidArgument(_))
    ));
    assert_eq!(
        TypeDeclaration::try_new(path("s"), dim_stream()?, vec![dim_param("d"), dim_param("d")]),
        Err(Error::UnexpectedDuplicate)
    );
    Ok(())
}

#[test]
fn assignments_replace_defaults() -> Result<(), Error> {
    let t = TypeDeclaration::try_new(path("s"), dim_stream()?, vec![dim_param("d")])?;
    assert_eq!(t.parameters().len(), 1);
    let t = t.with_assignments(vec![(None, GenericParamValue::Integer(3))])?;
    assert_eq!(t.parameters().len(), 0);
    let m = t.parameter_assignments().as_ref().unwrap();
    assert_eq!(m.value_at(0).value(), &GenericParamValue::Integer(3));

    let t = TypeDeclaration::try_new(path("s"), dim_stream()?, vec![dim_param("d")])?;
    assert_eq!(
        t.with_assignments(vec![(Some(Name::try_new("z")?), GenericParamValue::Integer(3))]),
        Err(Error::InvalidArgument("No parameter with name z on type s".to_string()))
    );
    let t = TypeDeclaration::try_new(path("s"), dim_stream()?, vec![dim_param("d")])?;
    assert!(matches!(
        t.with_assignments(vec![(None, GenericParamValue::Integer(1))]),
        Err(Error::InvalidTarget(_))
    ));
    let t = TypeDeclaration::try_new(path("s"), dim_stream()?, vec![dim_param("d")])?;
    let t = t.with_assignments(vec![(Some(Name::try_new("d")?), GenericParamValue::Integer(4))])?;
    assert_eq!(t.path_name().text(), "s");
    Ok(())
}
