use til_query::error::Error;
use til_query::generics::{GenericCondition, GenericKind, GenericParameter, IntegerCondition, IntegerGeneric, InterfaceGenericKind};
use til_query::param_value::{GenericParamValue, GenericParamValueOps, MathCombination};

fn ival(v: i32) -> GenericParamValue {
    GenericParamValue::Integer(v)
}

#[test]
fn test_conditions() -> Result<(), Error> {
    let param = GenericParameter::try_new(
        "a",
        GenericKind::from(
            IntegerGeneric::natural()
                .with_condition(IntegerCondition::Eq(2).or(IntegerCondition::Gt(5)).invert())?,
        ),
        ival(0),
    )?;
    assert_eq!("(Natural, implicit: >= 0) and !(== 2 or > 5)", param.describe_condition());
    assert_eq!(param.valid_value(&ival(-1))?, false);
    assert_eq!(param.valid_value(&ival(0))?, true);
    assert_eq!(param.valid_value(&ival(1))?, true);
    assert_eq!(param.valid_value(&ival(2))?, false);
    assert_eq!(param.valid_value(&ival(3))?, true);
    assert_eq!(param.valid_value(&ival(4))?, true);
    assert_eq!(param.valid_value(&ival(5))?, true);
    assert_eq!(param.valid_value(&ival(6))?, false);

    let param2_nat = GenericParameter::try_new("b", GenericKind::from(IntegerGeneric::natural()), ival(0))?;
    let param2_pos = GenericParameter::try_new("b", GenericKind::from(IntegerGeneric::positive()), ival(1))?;
    let param2_int = || GenericParameter::try_new("b", GenericKind::from(IntegerGeneric::integer()), ival(0));
    let param2_dim = || GenericParameter::try_new("b", GenericKind::from(InterfaceGenericKind::dimensionality()), ival(2));

    assert_eq!(param.valid_value(&param2_nat.into_value())?, true);
    assert_eq!(param.valid_value(&param2_pos.into_value())?, true);
    assert_eq!(param.valid_value(&param2_int()?.into_value())?, true);
    assert_eq!(param.valid_value(&param2_dim()?.into_value())?, true);

    let math_combination = GenericParamValue::Combination(param2_dim()?.g_add(ival(2))?)
        .g_sub(ival(1))?;
    let math_combination = GenericParamValue::Combination(math_combination)
        .g_mul(param2_int()?.into_value())?;
    let math_combination = GenericParamValue::Combination(math_combination).g_mod(ival(3))?;
    let math_combination = GenericParamValue::Combination(math_combination).g_negative()?;
    assert_eq!(param.valid_value(&GenericParamValue::Combination(math_combination))?, true);
    Ok(())
}

#[test]
fn parameter_names_must_be_valid() {
    let r = GenericParameter::try_new("1a", GenericKind::from(IntegerGeneric::natural()), ival(0));
    assert!(matches!(r, Err(Error::InvalidArgument(_))));
}

#[test]
fn default_must_satisfy_the_kind() {
    let r = GenericParameter::try_new("a", GenericKind::from(IntegerGeneric::positive()), ival(0));
    assert!(matches!(r, Err(Error::InvalidArgument(_))));
}

#[test]
fn dimensionality_needs_at_least_two_for_integers() -> Result<(), Error> {
    let dim = GenericParameter::try_new("d", GenericKind::from(InterfaceGenericKind::dimensionality()), ival(2))?;
    assert_eq!(dim.valid_value(&ival(1))?, false);
    assert_eq!(dim.valid_value(&ival(2))?, true);
    Ok(())
}

#[test]
fn conditions_satisfy_by_implication() {
    let none = GenericCondition::NoCondition;
    let gt5 = GenericCondition::Single(IntegerCondition::Gt(5));
    let gt3 = GenericCondition::Single(IntegerCondition::Gt(3));
    assert!(!none.satisfies(&gt5));
    assert!(gt5.satisfies(&none));
    assert!(gt5.satisfies(&gt5));
    assert!(gt5.satisfies(&gt3));
    assert!(!gt3.satisfies(&gt5));
    let in_67 = GenericCondition::Single(IntegerCondition::IsIn(vec![6, 7]));
    assert!(in_67.satisfies(&gt5));
    let in_56 = GenericCondition::Single(IntegerCondition::IsIn(vec![5, 6]));
    assert!(!in_56.satisfies(&gt5));
}

#[test]
fn kinds_satisfy_with_messages() -> Result<(), Error> {
    let nat = GenericKind::from(IntegerGeneric::natural());
    let pos = GenericKind::from(IntegerGeneric::positive());
    assert_eq!(
        nat.satisfies(&pos),
        Err(Error::InvalidArgument(
            "Expected a parameter of type Positive, this is a parameter with type Natural".to_string()
        ))
    );
    assert_eq!(nat.satisfies(&nat), Ok(()));
    let loose = GenericKind::from(IntegerGeneric::natural());
    let strict = GenericKind::from(IntegerGeneric::natural().with_condition(GenericCondition::Single(IntegerCondition::Gt(5)))?);
    assert!(strict.satisfies(&loose).is_ok());
    assert_eq!(
        loose.satisfies(&strict),
        Err(Error::InvalidArgument(
            "Condition \"(Natural, implicit: >= 0) and \" is more permissive than condition \"(Natural, implicit: >= 0) and > 5\"".to_string()
        ))
    );
    Ok(())
}

#[test]
fn plain_arithmetic_simplifies_to_its_value() -> Result<(), Error> {
    // `1 + 2 * 3`, written left to right, is 7; `(1 + 2) * 3` is 9.
    let sum = MathCombination::sum(ival(1), ival(2))?;
    let written = MathCombination::product(GenericParamValue::from(sum.clone()), ival(3))?;
    assert_eq!(written.reduce(), ival(7));
    let grouped = MathCombination::product(
        GenericParamValue::from(MathCombination::parentheses(sum)),
        ival(3),
    )?;
    assert_eq!(grouped.reduce(), ival(9));
    let quotient = MathCombination::division(ival(7), ival(2))?;
    assert_eq!(quotient.reduce(), ival(3));
    Ok(())
}

#[test]
fn simplification_with_parameters_keeps_values() -> Result<(), Error> {
    let n = GenericParamValue::from(til_query::param_value::RefValue::new(
        til_query::name::Name::try_new("n")?,
        GenericKind::from(IntegerGeneric::natural()),
    ));
    assert_eq!(MathCombination::subtraction(n.clone(), n.clone())?.reduce(), ival(0));
    assert_eq!(MathCombination::product(n.clone(), ival(1))?.reduce(), n.clone());
    assert_eq!(MathCombination::sum(ival(0), n.clone())?.reduce(), n.clone());
    assert_eq!(MathCombination::division(n.clone(), n.clone())?.reduce(), ival(1));
    // A sum of a value with itself is written `2 + n`.
    assert_eq!(
        MathCombination::sum(n.clone(), n.clone())?.reduce(),
        GenericParamValue::from(MathCombination::sum(ival(2), n.clone())?)
    );
    // A negation of a negation of a sum is its value.
    let sum = MathCombination::sum(ival(1), ival(2))?;
    let twice = MathCombination::negative(GenericParamValue::from(MathCombination::negative(
        GenericParamValue::from(sum),
    )?))?;
    assert_eq!(twice.reduce(), ival(3));
    Ok(())
}
