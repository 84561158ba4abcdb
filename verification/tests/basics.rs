use til_query::logical_stream::{LogicalStream, TypedStream};
use til_query::type_reference::{ElementManipulatingReference, TypeReference};
use til_query::complexity::Complexity;
use til_query::directions::{
    Direction,
    InterfaceDirection,
    PhysicalStreamDirection,
    StreamDirection,
    Synchronicity,
    TransferMode,
};
use til_query::error::Error;
use til_query::fields::Fields;
use til_query::implementation::{Implementation, ImplementationKind};
use til_query::link::{Link, PathStatus};
use til_query::generic_property::GenericProperty;
use til_query::logical_type::Throughput;
use til_query::messages::{decimal, join, signed_decimal};
use til_query::name::{Name, PathName};
use til_query::numbers::{Positive, log2_ceil};
use til_query::ordered_map::InsertionOrderedMap;
use til_query::physical_stream::PhysicalStream;
use til_query::scope_store::ScopeStore;

#[test]
fn names_follow_the_identifier_rules() {
    assert!(Name::try_new("a_b1").is_ok());
    for bad in ["", "1a", "_a", "a_", "a__b", "a-b"] {
        assert!(matches!(Name::try_new(bad), Err(Error::InvalidArgument(_))), "{}", bad);
    }
}

#[test]
fn names_are_ordered_by_their_characters() -> Result<(), Error> {
    let a = Name::try_new("ab")?;
    let b = Name::try_new("b")?;
    let c = Name::try_new("abc")?;
    assert!(a.name_lt(&b));
    assert!(!b.name_lt(&a));
    assert!(a.name_lt(&c));
    assert!(!a.name_lt(&a));
    Ok(())
}

#[test]
fn paths_join_with_double_underscores() -> Result<(), Error> {
    let p = PathName::try_new(&["a", "b"])?;
    assert_eq!(p.text(), "a__b");
    assert_eq!(p.root().map(|n| n.as_str().to_string()), Some("a".to_string()));
    assert_eq!(p.last().map(|n| n.as_str()), Some("b"));
    let q = p.with_child(Name::try_new("c")?);
    assert_eq!(q.text(), "a__b__c");
    assert!(PathName::new_empty().is_empty());
    assert!(matches!(PathName::try_new(&["a", "1"]), Err(Error::InvalidArgument(_))));
    Ok(())
}

#[test]
fn a_map_finds_what_was_inserted() -> Result<(), Error> {
    let mut m = InsertionOrderedMap::new();
    m.try_insert(Name::try_new("x")?, 1)?;
    m.try_insert(Name::try_new("y")?, 2)?;
    assert_eq!(m.try_insert(Name::try_new("x")?, 3), Err(Error::UnexpectedDuplicate));
    assert_eq!(m.get(&Name::try_new("x")?), Some(&1));
    assert_eq!(m.try_get(&Name::try_new("y")?), Ok(&2));
    assert!(matches!(m.try_get(&Name::try_new("z")?), Err(Error::InvalidArgument(_))));
    assert_eq!(m.len(), 2);
    Ok(())
}

#[test]
fn reversals_undo_themselves() {
    for m in [TransferMode::Source, TransferMode::Sink] {
        assert_eq!(m.reversed().reversed(), m);
        assert_ne!(m.reversed(), m);
        assert_eq!(m.internal_mode(), m.reversed());
        assert_eq!(m.for_direction(Direction::Reverse), m.reversed());
        assert_eq!(m.for_direction(Direction::Forward), m);
    }
    assert_eq!(TransferMode::new(InterfaceDirection::Out), TransferMode::Source);
    assert_eq!(TransferMode::new(InterfaceDirection::In), TransferMode::Sink);
    assert_eq!(PhysicalStreamDirection::Source.reversed(), PhysicalStreamDirection::Sink);
    assert_eq!(Direction::Forward.reversed(), Direction::Reverse);
}

#[test]
fn directions_parse_by_name() {
    assert_eq!(Direction::from_str("Reverse"), Ok(Direction::Reverse));
    assert!(matches!(Direction::from_str("Backward"), Err(Error::InvalidArgument(_))));
    assert_eq!(Synchronicity::from_str("FlatDesync"), Ok(Synchronicity::FlatDesync));
    assert!(matches!(Synchronicity::from_str("sync"), Err(Error::InvalidArgument(_))));
}

#[test]
fn numbers_in_decimal() {
    assert_eq!(decimal(0), "0");
    assert_eq!(decimal(1205), "1205");
    assert_eq!(signed_decimal(-42), "-42");
    assert_eq!(join(&vec!["a".to_string(), "b".to_string()], " -> "), "a -> b");
}

#[test]
fn log2_ceil_counts_index_bits() {
    assert_eq!(log2_ceil(Positive::new(1).unwrap()), 0);
    assert_eq!(log2_ceil(Positive::new(3).unwrap()), 2);
    assert_eq!(log2_ceil(Positive::new(4).unwrap()), 2);
    assert_eq!(log2_ceil(Positive::new(5).unwrap()), 3);
}

#[test]
fn throughput_lanes_round_up() -> Result<(), Error> {
    assert_eq!(Throughput::try_new(3, 2)?.positive().get(), 2);
    assert_eq!(Throughput::try_new(4, 2)?.positive().get(), 2);
    assert_eq!(Throughput::try_new(1, 3)?.positive().get(), 1);
    assert!(matches!(Throughput::try_new(0, 1), Err(Error::InvalidArgument(_))));
    let t = Throughput::try_new(3, 2)?.try_mul(&Throughput::try_new(2, 5)?)?;
    assert_eq!((t.numerator(), t.denominator()), (6, 10));
    assert!(matches!(
        Throughput::try_new(u64::MAX, 1)?.try_mul(&Throughput::try_new(2, 1)?),
        Err(Error::InvalidArgument(_))
    ));
    Ok(())
}

#[test]
fn complexity_levels() -> Result<(), Error> {
    let c = Complexity::new(vec![7, 1])?;
    assert_eq!(c.major(), 7);
    assert_eq!(c.to_text(), "7.1");
    assert!(matches!(Complexity::new(vec![]), Err(Error::InvalidArgument(_))));
    Ok(())
}

#[test]
fn physical_stream_bit_counts() -> Result<(), Error> {
    let stream = PhysicalStream::try_new(
        vec![(PathName::try_new(&["a"])?, 8), (PathName::try_new(&["b"])?, 4)],
        3,
        GenericProperty::from_value(2),
        Complexity::new_major(8),
        vec![(PathName::try_new(&["u"])?, 1)],
        StreamDirection::Forward,
    )?;
    let eval = |c: Option<til_query::physical_stream::PhysicalBitCount>| {
        c.and_then(|b| b.try_eval()).map(|p| p.get())
    };
    assert_eq!(eval(stream.data_element_bit_count()), Some(12));
    assert_eq!(eval(stream.data_bit_count()), Some(36));
    assert_eq!(eval(stream.last_bit_count()), Some(6));
    assert_eq!(eval(stream.stai_bit_count()), Some(2));
    assert_eq!(eval(stream.endi_bit_count()), Some(2));
    assert_eq!(eval(stream.strb_bit_count()), Some(3));
    assert_eq!(eval(stream.user_bit_count()), Some(1));

    let dup = PhysicalStream::try_new(
        vec![(PathName::try_new(&["a"])?, 8), (PathName::try_new(&["a"])?, 4)],
        1,
        GenericProperty::from_value(0),
        Complexity::new_major(1),
        vec![],
        StreamDirection::Forward,
    );
    assert_eq!(dup.err(), Some(Error::UnexpectedDuplicate));
    let zero = PhysicalStream::try_new(
        vec![(PathName::try_new(&["a"])?, 8)],
        0,
        GenericProperty::from_value(0),
        Complexity::new_major(1),
        vec![],
        StreamDirection::Forward,
    );
    assert!(matches!(zero, Err(Error::InvalidArgument(_))));
    Ok(())
}

#[test]
fn generic_properties_reduce_to_their_value() -> Result<(), Error> {
    assert!(matches!(GenericProperty::try_from_str("3"), Err(Error::InvalidArgument(_))));
    assert_eq!(GenericProperty::try_from_str("n")?.try_eval(), None);
    assert_eq!(GenericProperty::from_value(3).try_eval(), Some(3));
    let n = GenericProperty::from_name(Name::try_new("n")?);
    assert_eq!(n.try_eval(), None);
    let assigned = n.try_assign(&Name::try_new("n")?, GenericProperty::from_value(4))?;
    assert_eq!(assigned.try_eval(), Some(4));
    assert!(GenericProperty::from_value(0).is_zero());
    assert!(GenericProperty::from_value(1).is_one());
    Ok(())
}

#[test]
fn scopes_are_found_by_path() -> Result<(), Error> {
    let mut root = ScopeStore::new(None, 0, false);
    let mut child = ScopeStore::new(Some(Name::try_new("a")?), 1, true);
    child.try_add_child(Name::try_new("b")?, ScopeStore::new(Some(Name::try_new("b")?), 2, true))?;
    root.try_add_child(Name::try_new("a")?, child)?;
    assert_eq!(
        root.try_add_child(Name::try_new("a")?, ScopeStore::new(None, 9, false)),
        Err(Error::UnexpectedDuplicate)
    );
    let found = root.try_get(&PathName::try_new(&["a", "b"])?)?;
    assert_eq!(found.selection(), &2);
    assert!(matches!(root.try_get(&PathName::try_new(&["c"])?), Err(Error::InvalidArgument(_))));
    Ok(())
}

#[test]
fn fields_keep_their_order_and_refuse_repeats() -> Result<(), Error> {
    let a = PathName::try_new(&["a"])?;
    let b = PathName::try_new(&["b"])?;
    let mut f = Fields::new(vec![(a.clone(), 1u32), (b.clone(), 2u32)])?;
    assert_eq!(f.keys(), vec![a.clone(), b.clone()]);
    assert_eq!(f.insert(a.clone(), 5), Err(Error::UnexpectedDuplicate));
    assert_eq!(f.values(), vec![&5, &2]);
    assert_eq!(Fields::new(vec![(a.clone(), 1u32), (a.clone(), 2u32)]).err(), Some(Error::UnexpectedDuplicate));
    let doubled = f.map(|x| x * 2);
    assert_eq!(doubled.values(), vec![&10, &4]);
    Ok(())
}

#[test]
fn implementations_start_unnamed() -> Result<(), Error> {
    let imp = Implementation::link(Link::try_new("../".to_string(), PathStatus::Directory)?);
    assert!(imp.name().is_empty());
    assert!(matches!(imp.kind(), ImplementationKind::Link(_)));
    let named = imp.with_name(PathName::try_new(&["x"])?).with_doc("docs".to_string());
    assert_eq!(named.name().text(), "x");
    assert_eq!(named.doc().map(|d| d.as_str()), Some("docs"));
    Ok(())
}

#[test]
fn property_operators_build_combinations_that_simplify_keeping_values() -> Result<(), Error> {
    let two_plus_three = GenericProperty::from_value(2) + GenericProperty::from_value(3);
    assert_eq!(two_plus_three.try_eval(), Some(5));
    assert_eq!((GenericProperty::from_value(7) - GenericProperty::from_value(2)).try_eval(), Some(5));
    assert_eq!((GenericProperty::from_value(7) * GenericProperty::from_value(2)).try_eval(), Some(14));
    assert_eq!((GenericProperty::from_value(7) / GenericProperty::from_value(2)).try_eval(), Some(3));
    assert_eq!((GenericProperty::from_value(7) % GenericProperty::from_value(2)).try_eval(), Some(1));
    let n = Name::try_new("n")?;
    let p = GenericProperty::from_name(n.clone()) * GenericProperty::from_value(1)
        + GenericProperty::from_value(0);
    let reduced = p.try_reduce();
    assert!(reduced.same_as(&GenericProperty::from_name(n.clone())));
    let before = p.try_assign(&n, GenericProperty::from_value(4))?;
    let after = reduced.try_assign(&n, GenericProperty::from_value(4))?;
    assert_eq!(before.try_eval(), Some(4));
    assert_eq!(after.try_eval(), Some(4));
    Ok(())
}

#[test]
fn logical_streams_map_fields_and_streams_by_path() -> Result<(), Error> {
    let mut fields: InsertionOrderedMap<PathName, u32> = InsertionOrderedMap::new();
    fields.try_insert(PathName::try_new(&["a"])?, 3)?;
    fields.try_insert(PathName::try_new(&["b"])?, 4)?;
    let mut streams: InsertionOrderedMap<PathName, u32> = InsertionOrderedMap::new();
    streams.try_insert(PathName::new_empty(), 10)?;
    let ls = LogicalStream::new(fields, streams);
    let doubled = ls.map_fields(|x| x * 2);
    assert_eq!(*doubled.fields().value_at(0), 6);
    assert_eq!(*doubled.fields().value_at(1), 8);
    assert_eq!(*doubled.streams().value_at(0), 10);
    let both = doubled.map(|x| x + 1, |s| s * 3);
    assert_eq!(*both.fields().value_at(1), 9);
    assert_eq!(*both.streams().value_at(0), 30);
    let typed = TypedStream::new(both, TypeReference::ElementManipulating(ElementManipulatingReference::Null));
    assert_eq!(typed.logical_stream().fields().len(), 2);
    Ok(())
}

#[test]
fn bit_count_operators_build_combinations() {
    let a = til_query::physical_stream::PhysicalBitCount::fixed(6).unwrap();
    let b = til_query::physical_stream::PhysicalBitCount::fixed(2).unwrap();
    let c = til_query::physical_stream::PhysicalBitCount::fixed(3).unwrap();
    let d = til_query::physical_stream::PhysicalBitCount::fixed(4).unwrap();
    let e = ((a + b) * c - d) / til_query::physical_stream::PhysicalBitCount::fixed(2).unwrap();
    assert_eq!(e.try_eval().map(|p| p.get()), Some(10));
}
