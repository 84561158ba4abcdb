use til_query::complexity::Complexity;
use til_query::directions::{Direction, Synchronicity};
use til_query::error::Error;
use til_query::generic_property::GenericProperty;
use til_query::logical_type::{LogicalType, Stream, Throughput, Union};
use til_query::name::{Name, PathName};
use til_query::type_reference::{
    ElementManipulatingReference,
    FieldSelect,
    TransferScope,
    TypeHierarchy,
    TypeReference,
};

fn simple_stream(data: LogicalType, user: LogicalType) -> Result<Stream, Error> {
    Stream::try_new(
        data,
        Throughput::try_new(1, 1)?,
        GenericProperty::from_value(1),
        Synchronicity::Sync,
        Complexity::new_major(4),
        Direction::Forward,
        user,
        false,
    )
}

#[test]
fn user_must_be_element() -> Result<(), Error> {
    let stream1 = simple_stream(LogicalType::Null, LogicalType::Null)?;
    let stream_result = simple_stream(LogicalType::Null, LogicalType::Stream(stream1));
    assert!(match stream_result {
        Err(Error::InvalidArgument(_)) => true,
        _ => false,
    });
    Ok(())
}

#[test]
fn test_new() -> Result<(), Error> {
    let bits = LogicalType::try_new_bits(8)?;
    let union = Union::try_new(None, &vec![("a", bits.clone())])?;
    assert_eq!(union.get_field(&PathName::try_new(&["a"])?).unwrap(), bits);
    assert_eq!(union.tag(), None);
    Ok(())
}

#[test]
fn union_tag_counts_fields() -> Result<(), Error> {
    let union = Union::try_new(
        None,
        &vec![("a", LogicalType::try_new_bits(8)?), ("b", LogicalType::Null), ("c", LogicalType::Null)],
    )?;
    assert_eq!(union.tag().map(|t| t.get()), Some(2));
    Ok(())
}

#[test]
fn duplicate_and_invalid_field_names_are_refused() -> Result<(), Error> {
    let dup = LogicalType::try_new_group(None, &vec![("a", LogicalType::Null), ("a", LogicalType::Null)]);
    assert_eq!(dup.err(), Some(Error::UnexpectedDuplicate));
    let bad = LogicalType::try_new_group(None, &vec![("a__b", LogicalType::Null)]);
    assert!(matches!(bad, Err(Error::InvalidArgument(_))));
    Ok(())
}

fn group_with_stream() -> Result<LogicalType, Error> {
    let inner = simple_stream(LogicalType::try_new_bits(4)?, LogicalType::Null)?;
    LogicalType::try_new_group(
        None,
        &vec![("a", LogicalType::try_new_bits(8)?), ("b", LogicalType::Stream(inner))],
    )
}

#[test]
fn references_follow_the_split_streams() -> Result<(), Error> {
    let group = group_with_stream()?;
    let split = group.split_streams()?;
    let hierarchy = TypeHierarchy::from_logical_type(&group)?;
    let reference =
        TypeReference::collect_reference_from_split_streams(&split, &hierarchy, &PathName::new_empty())?;

    let b = Name::try_new("b")?;
    let a = Name::try_new("a")?;
    let stream = reference.get(&vec![Some(FieldSelect::Group(b.clone()))])?;
    assert_eq!(stream.physical_stream(), &PathName::try_new(&["b"])?);
    assert_eq!(stream.transfer_scope(), &TransferScope::Sync(PathName::try_new(&["b"])?));
    assert_eq!(stream.element_lanes().get(), 1);
    assert_eq!(stream.user(), &ElementManipulatingReference::Null);
    match stream.data() {
        TypeReference::ElementManipulating(ElementManipulatingReference::Bits(n)) => {
            assert_eq!(n.get(), 4)
        },
        other => panic!("unexpected data reference {}", other.text()),
    }

    assert!(matches!(reference.get(&vec![]), Err(Error::InvalidArgument(_))));
    assert!(matches!(
        reference.get(&vec![Some(FieldSelect::Group(a))]),
        Err(Error::InvalidArgument(_))
    ));
    assert!(matches!(
        reference.get(&vec![Some(FieldSelect::Union(b))]),
        Err(Error::InvalidArgument(_))
    ));
    Ok(())
}

#[test]
fn a_root_stream_has_the_root_transfer_scope() -> Result<(), Error> {
    let st = simple_stream(LogicalType::try_new_bits(3)?, LogicalType::try_new_bits(2)?)?;
    let t = LogicalType::Stream(st);
    let split = t.split_streams()?;
    let hierarchy = TypeHierarchy::from_logical_type(&t)?;
    let reference =
        TypeReference::collect_reference_from_split_streams(&split, &hierarchy, &PathName::new_empty())?;
    let stream = reference.get(&vec![])?;
    assert_eq!(stream.transfer_scope(), &TransferScope::Root);
    assert!(matches!(stream.user(), ElementManipulatingReference::Bits(n) if n.get() == 2));
    Ok(())
}

#[test]
fn user_references_refuse_streams() -> Result<(), Error> {
    let st = simple_stream(LogicalType::Null, LogicalType::Null)?;
    let r = ElementManipulatingReference::from_logical_type_id(&LogicalType::Stream(st));
    assert!(matches!(r, Err(Error::InvalidArgument(_))));
    let g = ElementManipulatingReference::from_logical_type_id(&group_with_stream()?);
    assert!(matches!(g, Err(Error::InvalidArgument(_))));
    Ok(())
}

#[test]
fn a_union_is_as_wide_as_its_widest_variant() -> Result<(), Error> {
    let g = LogicalType::try_new_group(
        None,
        &vec![("x", LogicalType::try_new_bits(3)?), ("y", LogicalType::try_new_bits(4)?)],
    )?;
    let u = LogicalType::try_new_union(None, &vec![("p", g), ("q", LogicalType::try_new_bits(5)?)])?;
    let f = u.fields();
    let got: Vec<(String, u32)> =
        (0..f.len()).map(|i| (f.key_at(i).text(), f.value_at(i).get())).collect();
    assert_eq!(got, vec![("tag".to_string(), 1), ("union".to_string(), 7)]);
    Ok(())
}

#[test]
fn a_field_on_a_null_type_is_refused_at_the_root() -> Result<(), Error> {
    let r = TypeReference::ElementManipulating(ElementManipulatingReference::Null);
    assert_eq!(
        r.get(&vec![Some(FieldSelect::Group(Name::try_new("a")?))]).err(),
        Some(Error::InvalidArgument(
            "Path refers to a field, but found a Null type at this location: ".to_string()
        ))
    );
    assert!(r.get(&Vec::new()).is_err());
    Ok(())
}
