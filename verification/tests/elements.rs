use til_query::bits::Bits;
use til_query::element::Element;
use til_query::element_type::ElementType;
use til_query::error::Error;
use til_query::logical_transfer::{LogicalData, LogicalTransfer};
use til_query::name::Name;
use til_query::ordered_map::InsertionOrderedMap;
use til_query::transfer::{Transfer, bits_from_str};

fn bits(b: &[bool]) -> ElementType {
    ElementType::from_bools(b)
}

#[test]
fn valid_new() -> Result<(), Error> {
    let inactive: Element = Element::new_inactive();
    assert!(!inactive.is_active());
    assert_eq!(inactive.last(), &None);

    let inactive = inactive.with_last(1..2)?;
    assert_eq!(inactive.last(), &Some(1..2));

    let inactive_2 = Element::new(None, Some(1..2))?;
    assert_eq!(inactive, inactive_2);

    let inactive_3 = Element::new_data_from_str("-")?.with_last(1..2)?;
    assert_eq!(inactive, inactive_3);

    let inactive_4 = Element::new_data_from_str("inactive")?.with_last(1..2)?;
    assert_eq!(inactive, inactive_4);

    let data: Element = Element::new_data_from_str("101")?;
    assert!(data.is_active());
    assert_eq!(data.last(), &None);

    let data_2 = Element::new_data(bits(&[true, false, true]));
    assert_eq!(data, data_2);

    let data = data.with_last(0..2)?;
    assert_eq!(data.last(), &Some(0..2));

    let data_2 = Element::new_data_from_str("101")?.with_last(0..2)?;
    assert_eq!(data, data_2);

    let null_data = Element::new_data(ElementType::Null);
    assert!(null_data.is_active());

    let null_data2 = Element::new_data_from_str("")?;
    assert_eq!(null_data, null_data2);

    let null_data3 = Element::new_data_from_str("null")?;
    assert_eq!(null_data, null_data3);
    Ok(())
}

#[test]
fn invalid_new() -> Result<(), Error> {
    let data = Element::new_data(bits(&[false, true, false]));
    let data_result = data.with_last(1..2);
    assert_eq!(
        data_result,
        Err(Error::InvalidArgument(
            "Cannot assert this element as being the last of dimensions 1..2. Elements with active data can only transferred as the innermost dimension (0).".to_string()
        ))
    );
    Ok(())
}

#[test]
fn test_flatten() -> Result<(), Error> {
    assert_eq!(ElementType::Null.flatten(), Bits::new());
    assert_eq!(
        bits(&[false, false, true]).flatten(),
        Bits::from_bools(&[false, false, true])
    );
    let mut group_fields = InsertionOrderedMap::new();
    group_fields.try_insert(Name::try_new("a")?, bits(&[false, false, true]))?;
    group_fields.try_insert(Name::try_new("b")?, bits(&[false, true, true]))?;
    assert_eq!(
        ElementType::Group(group_fields).flatten(),
        Bits::from_bools(&[false, false, true, false, true, true])
    );
    assert_eq!(
        ElementType::union(1, 3, Name::try_new("a")?, bits(&[false, false, true]), 4)?.flatten(),
        Bits::from_bools(&[true, false, false, false, true, false])
    );
    Ok(())
}

#[test]
fn from_str_element_type() -> Result<(), Error> {
    assert_eq!(ElementType::from_str("")?, ElementType::Null);
    assert_eq!(ElementType::from_str("null")?, ElementType::Null);
    assert_eq!(ElementType::from_str("Null")?, ElementType::Null);
    assert_eq!(ElementType::from_str("nULL")?, ElementType::Null);
    assert_eq!(ElementType::from_str("0100")?, bits(&[false, true, false, false]));
    Ok(())
}

#[test]
fn logical_transfer_try_result_compare() -> Result<(), Error> {
    let transfer_1 = LogicalTransfer::new(
        vec![
            Element::new_data(bits(&[true, false, true, true])),
            Element::new_data(bits(&[true, false, false, false])),
        ],
        None,
    );
    let transfer_2 = LogicalTransfer::try_new_lanes_str(&["1011", "1000"])?;
    assert_eq!(transfer_1, transfer_2);

    let transfer_3 = LogicalTransfer::new(
        vec![
            Element::new_data(bits(&[true, false, true, true])),
            Element::new_data(bits(&[true, false, false, false])),
        ],
        Some(bits(&[false, true])),
    );
    let transfer_4 = LogicalTransfer::try_new_lanes_str(&["1011", "1000"])?
        .with_user(ElementType::from_str("01")?);
    assert_eq!(transfer_3, transfer_4);

    let empty_transfer_1 = LogicalTransfer::new_empty(0..2);
    let empty_transfer_2 = LogicalTransfer::from_data(LogicalData::EmptySequence(0..2));
    assert_eq!(empty_transfer_1, empty_transfer_2);

    let empty_transfer_3 = LogicalTransfer::new_empty_user(2..2, bits(&[false, true, false]));
    let empty_transfer_4 =
        LogicalTransfer::try_from_data_str(LogicalData::EmptySequence(2..2), "010")?;
    assert_eq!(empty_transfer_3, empty_transfer_4);
    Ok(())
}

#[test]
fn mod_try_result_compare() -> Result<(), Error> {
    let transfer_1 = Transfer::new(
        vec![
            Element::new_data(bits(&[true, false, true, true])),
            Element::new_data(bits(&[true, false, false, false])),
        ],
        vec![],
    );
    let transfer_2 = Transfer::try_new_lanes(&["1101", "0001"])?;
    assert_eq!(transfer_1, transfer_2);

    let transfer_3 = Transfer::new(
        vec![
            Element::new_data(bits(&[true, false, true, true])),
            Element::new_data(bits(&[true, false, false, false])),
        ],
        vec![false, true],
    );
    let transfer_4 = Transfer::try_new(&["1101", "0001"], "10")?;
    assert_eq!(transfer_3, transfer_4);
    Ok(())
}

#[test]
fn bit_strings_are_read_last_character_first() {
    assert_eq!(bits_from_str("110"), Ok(vec![false, true, true]));
    assert!(matches!(bits_from_str("12"), Err(Error::InvalidArgument(_))));
}

#[test]
fn active_data_cannot_close_outer_dimensions_only() {
    assert!(Element::new(Some(ElementType::Null), Some(0..3)).is_ok());
    assert!(matches!(
        Element::new(Some(ElementType::Null), Some(1..3)),
        Err(Error::InvalidArgument(_))
    ));
    assert!(Element::new(None, Some(1..3)).is_ok());
}

#[test]
fn group_values_flatten_field_by_field() -> Result<(), Error> {
    let mut fields = InsertionOrderedMap::new();
    fields.try_insert(Name::try_new("x")?, bits(&[true]))?;
    fields.try_insert(Name::try_new("y")?, ElementType::Null)?;
    assert_eq!(
        fields.try_insert(Name::try_new("x")?, ElementType::Null),
        Err(Error::UnexpectedDuplicate)
    );
    let g = ElementType::group(fields);
    assert_eq!(g.len(), 1);
    assert_eq!(g.flatten(), Bits::from_bools(&[true]));
    Ok(())
}
