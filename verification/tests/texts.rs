use til_query::error::Error;
use til_query::generic_property::GenericProperty;
use til_query::generics::{GenericKind, IntegerGeneric, MathOperator};
use til_query::logical_type::LogicalType;
use til_query::name::{Name, PathName};
use til_query::param_value::{GenericParamValue, RefValue};
use til_query::physical_transfer::{LastMode, StrobeMode};
use til_query::type_reference::{ElementManipulatingReference, ScopeStream, TypeReference};

#[test]
fn property_and_value_texts() -> Result<(), Error> {
    let p = GenericProperty::combine(
        GenericProperty::from_name(Name::try_new("a")?),
        MathOperator::Add,
        GenericProperty::from_value(2),
    );
    assert_eq!(p.text(), "(Parameterized(a)) + Fixed(2)");
    assert_eq!(GenericParamValue::Integer(-3).text(), "Integer(-3)");
    let r = RefValue::new(Name::try_new("n")?, GenericKind::from(IntegerGeneric::natural()));
    assert_eq!(r.text(), "n: Behavioral(Natural)");
    assert_eq!(GenericParamValue::Ref(r).text(), "Ref(n: Behavioral(Natural))");
    Ok(())
}

#[test]
fn type_texts() -> Result<(), Error> {
    let g = LogicalType::try_new_group(
        None,
        &vec![("a", LogicalType::try_new_bits(8)?), ("b", LogicalType::Null)],
    )?;
    assert_eq!(g.text(), "Group(a: Bits(8), b: Null)");
    Ok(())
}

#[test]
fn transfer_mode_texts() {
    assert_eq!(LastMode::Lane(vec![None, Some(0..1)]).text(), "Lane(None, 0..1)");
    assert_eq!(LastMode::Absent.text(), "None");
    assert_eq!(StrobeMode::Lane(vec![true, false, true]).text(), "Lane(\"101\")");
    assert_eq!(StrobeMode::Transfer(false).text(), "Transfer(false)");
}

#[test]
fn reference_texts() -> Result<(), Error> {
    let bits = ElementManipulatingReference::from_logical_type_id(&LogicalType::try_new_bits(4)?)?;
    assert_eq!(bits.text(), "Bits(4)");
    let scope = ScopeStream::new(
        PathName::try_new(&["s"])?,
        Box::new(TypeReference::ElementManipulating(ElementManipulatingReference::Null)),
    );
    assert_eq!(scope.text(), "Scope (\n  name:  s,\n  child: Null\n)");
    Ok(())
}
