use til_query::complexity::Complexity;
use til_query::directions::{Direction, Synchronicity};
use til_query::error::Error;
use til_query::generic_property::GenericProperty;
use til_query::generics::{GenericKind, GenericParameter, MathOperator};
use til_query::logical_type::{LogicalType, Stream, Throughput};
use til_query::name::Name;
use til_query::ordered_map::InsertionOrderedMap;
use til_query::parameter_kinds::add_param_kind;

fn stream_with(dim: GenericProperty, data: LogicalType) -> Result<Stream, Error> {
    Stream::try_new(
        data,
        Throughput::try_new(1, 1)?,
        dim,
        Synchronicity::Sync,
        Complexity::new_major(4),
        Direction::Forward,
        LogicalType::Null,
        false,
    )
}

fn param(n: &str) -> GenericProperty {
    GenericProperty::from_name(Name::try_new(n).unwrap())
}

fn kind_names(m: &InsertionOrderedMap<Name, GenericKind>) -> Vec<(String, String)> {
    (0..m.len())
        .map(|i| (m.key_at(i).as_str().to_string(), m.value_at(i).text()))
        .collect()
}

#[test]
fn plain_types_use_no_parameters() -> Result<(), Error> {
    assert_eq!(LogicalType::Null.parameter_kinds()?.len(), 0);
    assert_eq!(LogicalType::try_new_bits(4)?.parameter_kinds()?.len(), 0);
    Ok(())
}

#[test]
fn dimensionality_parameters_from_left_to_right() -> Result<(), Error> {
    let dim = GenericProperty::combine(param("b"), MathOperator::Add, GenericProperty::combine(param("a"), MathOperator::Multiply, param("b")));
    let s = stream_with(dim, LogicalType::try_new_bits(8)?)?;
    let kinds = s.parameter_kinds()?;
    assert_eq!(
        kind_names(&kinds),
        vec![
            ("b".to_string(), "Interface(Dimensionality)".to_string()),
            ("a".to_string(), "Interface(Dimensionality)".to_string()),
        ]
    );
    assert_eq!(kind_names(&LogicalType::Stream(s).parameter_kinds()?).len(), 2);
    Ok(())
}

#[test]
fn fields_share_parameters_of_one_kind() -> Result<(), Error> {
    let inner = stream_with(param("d"), LogicalType::try_new_bits(8)?)?;
    let other = stream_with(param("d"), LogicalType::Null)?;
    let g = LogicalType::try_new_group(
        None,
        &vec![("x", LogicalType::Stream(inner)), ("y", LogicalType::Stream(other))],
    )?;
    assert_eq!(
        kind_names(&g.parameter_kinds()?),
        vec![("d".to_string(), "Interface(Dimensionality)".to_string())]
    );
    Ok(())
}

#[test]
fn a_name_of_two_kinds_is_a_project_error() -> Result<(), Error> {
    let mut m = InsertionOrderedMap::new();
    let dim = GenericParameter::try_new(
        "a",
        GenericKind::from(til_query::generics::InterfaceGenericKind::dimensionality()),
        til_query::param_value::GenericParamValue::Integer(2),
    )?;
    let nat = GenericParameter::try_new(
        "a",
        GenericKind::from(til_query::generics::IntegerGeneric::natural()),
        til_query::param_value::GenericParamValue::Integer(0),
    )?;
    add_param_kind(&mut m, Name::try_new("a")?, dim.kind().clone())?;
    add_param_kind(&mut m, Name::try_new("a")?, dim.kind().clone())?;
    assert_eq!(m.len(), 1);
    assert_eq!(
        add_param_kind(&mut m, Name::try_new("a")?, nat.kind().clone()),
        Err(Error::ProjectError(
            "Duplicate parameter name: \"a\" is both a Interface(Dimensionality) and a Behavioral(Natural)"
                .to_string()
        ))
    );
    Ok(())
}
