use til_query::complexity::Complexity;
use til_query::element::Element;
use til_query::element_type::ElementType;
use til_query::error::Error;
use til_query::logical_transfer::{LogicalData, LogicalTransfer};
use til_query::numbers::Positive;
use til_query::physical_transfer::{IndexMode, LastMode, PhysicalTransfer, StrobeMode};

fn physical(major: u32, element_size: u32) -> PhysicalTransfer {
    PhysicalTransfer::new(Complexity::new_major(major), Positive::new(3).unwrap(), element_size, 3, 3)
}

fn bits_101() -> ElementType {
    ElementType::from_bools(&[true, false, true])
}

fn empty_sequence() -> Result<LogicalTransfer, Error> {
    LogicalTransfer::try_from_data_str(LogicalData::EmptySequence(0..1), "101")
}

fn lanes(spec: &[(Option<&str>, Option<std::ops::Range<u32>>)], user: &str) -> Result<LogicalTransfer, Error> {
    let mut out = Vec::new();
    for (data, last) in spec {
        let e = match data {
            Some(d) => Element::new_data_from_str(d)?,
            None => Element::new_inactive(),
        };
        let e = match last {
            Some(l) => e.with_last(l.clone())?,
            None => e,
        };
        out.push(e);
    }
    Ok(LogicalTransfer::new(out, Some(ElementType::from_str(user)?)))
}

#[test]
fn default_transfer() -> Result<(), Error> {
    for major in [1, 5] {
        let physical_transfer = physical(major, 16);
        assert_eq!(physical_transfer.holds_valid(), false);
        assert_eq!(physical_transfer.data(), &None);
        assert_eq!(physical_transfer.last(), &LastMode::Transfer(Some(0..2)));
        assert_eq!(physical_transfer.start_index(), &IndexMode::Unsupported);
        assert_eq!(physical_transfer.end_index(), &IndexMode::Index(Some(2)));
        assert_eq!(physical_transfer.strobe(), &StrobeMode::Transfer(true));
        assert_eq!(physical_transfer.user(), &None);
    }

    let physical_transfer = physical(6, 16);
    assert_eq!(physical_transfer.holds_valid(), false);
    assert_eq!(physical_transfer.data(), &None);
    assert_eq!(physical_transfer.last(), &LastMode::Transfer(Some(0..2)));
    assert_eq!(physical_transfer.start_index(), &IndexMode::Index(Some(0)));
    assert_eq!(physical_transfer.end_index(), &IndexMode::Index(Some(2)));
    assert_eq!(physical_transfer.strobe(), &StrobeMode::Transfer(true));
    assert_eq!(physical_transfer.user(), &None);

    let physical_transfer = physical(7, 16);
    assert_eq!(physical_transfer.holds_valid(), false);
    assert_eq!(physical_transfer.data(), &None);
    assert_eq!(physical_transfer.last(), &LastMode::Transfer(Some(0..2)));
    assert_eq!(physical_transfer.start_index(), &IndexMode::Index(Some(0)));
    assert_eq!(physical_transfer.end_index(), &IndexMode::Index(Some(2)));
    assert_eq!(physical_transfer.strobe(), &StrobeMode::Lane(vec![true; 3]));
    assert_eq!(physical_transfer.user(), &None);

    let physical_transfer = physical(8, 16);
    assert_eq!(physical_transfer.holds_valid(), false);
    assert_eq!(physical_transfer.data(), &None);
    assert_eq!(
        physical_transfer.last(),
        &LastMode::Lane(vec![Some(0..2), Some(0..2), Some(0..2)])
    );
    assert_eq!(physical_transfer.start_index(), &IndexMode::Index(Some(0)));
    assert_eq!(physical_transfer.end_index(), &IndexMode::Index(Some(2)));
    assert_eq!(physical_transfer.strobe(), &StrobeMode::Lane(vec![true; 3]));
    assert_eq!(physical_transfer.user(), &None);
    Ok(())
}

#[test]
fn test_empty_sequence() -> Result<(), Error> {
    let physical_transfer = physical(1, 16).with_logical_transfer(empty_sequence()?)?;
    assert_eq!(physical_transfer.holds_valid(), true);
    assert_eq!(physical_transfer.data(), &Some(vec![]));
    assert_eq!(physical_transfer.last(), &LastMode::Transfer(Some(0..1)));
    assert_eq!(physical_transfer.start_index(), &IndexMode::Unsupported);
    assert_eq!(physical_transfer.end_index(), &IndexMode::Index(None));
    assert_eq!(physical_transfer.strobe(), &StrobeMode::Transfer(false));
    assert_eq!(physical_transfer.user(), &Some(Some(bits_101())));

    let physical_transfer = physical(2, 16).with_logical_transfer(empty_sequence()?)?;
    assert_eq!(physical_transfer.holds_valid(), false);
    assert_eq!(physical_transfer.data(), &Some(vec![]));
    assert_eq!(physical_transfer.last(), &LastMode::Transfer(Some(0..1)));
    assert_eq!(physical_transfer.start_index(), &IndexMode::Unsupported);
    assert_eq!(physical_transfer.end_index(), &IndexMode::Index(None));
    assert_eq!(physical_transfer.strobe(), &StrobeMode::Transfer(false));
    assert_eq!(physical_transfer.user(), &Some(Some(bits_101())));

    let physical_transfer = physical(6, 16).with_logical_transfer(empty_sequence()?)?;
    assert_eq!(physical_transfer.holds_valid(), false);
    assert_eq!(physical_transfer.data(), &Some(vec![]));
    assert_eq!(physical_transfer.last(), &LastMode::Transfer(Some(0..1)));
    assert_eq!(physical_transfer.start_index(), &IndexMode::Index(None));
    assert_eq!(physical_transfer.end_index(), &IndexMode::Index(None));
    assert_eq!(physical_transfer.strobe(), &StrobeMode::Transfer(false));
    assert_eq!(physical_transfer.user(), &Some(Some(bits_101())));

    let physical_transfer = physical(7, 16).with_logical_transfer(empty_sequence()?)?;
    assert_eq!(physical_transfer.holds_valid(), false);
    assert_eq!(physical_transfer.data(), &Some(vec![]));
    assert_eq!(physical_transfer.last(), &LastMode::Transfer(Some(0..1)));
    assert_eq!(physical_transfer.start_index(), &IndexMode::Index(None));
    assert_eq!(physical_transfer.end_index(), &IndexMode::Index(None));
    assert_eq!(physical_transfer.strobe(), &StrobeMode::Lane(vec![false; 3]));
    assert_eq!(physical_transfer.user(), &Some(Some(bits_101())));

    let physical_transfer = physical(8, 16).with_logical_transfer(empty_sequence()?)?;
    assert_eq!(physical_transfer.holds_valid(), false);
    assert_eq!(physical_transfer.data(), &Some(vec![]));
    assert_eq!(physical_transfer.last(), &LastMode::Lane(vec![Some(0..1), None, None]));
    assert_eq!(physical_transfer.start_index(), &IndexMode::Index(None));
    assert_eq!(physical_transfer.end_index(), &IndexMode::Index(None));
    assert_eq!(physical_transfer.strobe(), &StrobeMode::Lane(vec![false; 3]));
    assert_eq!(physical_transfer.user(), &Some(Some(bits_101())));
    Ok(())
}

#[test]
fn test_sequence_errs() -> Result<(), Error> {
    assert_eq!(
        physical(1, 2).with_logical_transfer(lanes(
            &[(Some("10"), None), (Some("11"), Some(0..2)), (Some("10"), None)],
            "101"
        )?),
        Err(Error::InvalidArgument("Logical transfer contains an element with active data after an element was asserted last in a sequence.\nThe physical stream only supports dimension information per transfer.".to_string()))
    );
    assert_eq!(
        physical(1, 2).with_logical_transfer(lanes(&[(Some("10"), None), (Some("11"), None)], "101")?),
        Err(Error::InvalidArgument("Cannot leave element lanes empty, except when transferring the last element of an innermost sequence.\nPhysical stream has complexity 1 (< 4).".to_string()))
    );
    assert_eq!(
        physical(1, 2).with_logical_transfer(lanes(
            &[(None, None), (Some("11"), None), (Some("11"), None)],
            "101"
        )?),
        Err(Error::InvalidArgument("The physical stream requires that all transfers are aligned to lane 0, logical transfer has start index 1".to_string()))
    );
    assert_eq!(
        physical(1, 2).with_logical_transfer(lanes(
            &[(Some("11"), None), (None, None), (Some("11"), None)],
            "101"
        )?),
        Err(Error::InvalidArgument(
            "Physical stream does not support per-lane strobed data validity.".to_string()
        ))
    );
    Ok(())
}

#[test]
fn full_lanes_at_complexity_eight_close_per_lane() -> Result<(), Error> {
    let t = physical(8, 2).with_logical_transfer(lanes(
        &[(Some("11"), None), (None, None), (Some("11"), Some(0..1))],
        "101",
    )?)?;
    assert_eq!(t.strobe(), &StrobeMode::Lane(vec![true, false, true]));
    assert_eq!(t.last(), &LastMode::Lane(vec![None, None, Some(0..1)]));
    assert_eq!(t.user(), &Some(Some(bits_101())));
    Ok(())
}

#[test]
fn too_many_lanes_are_refused() -> Result<(), Error> {
    let r = physical(8, 2).with_logical_transfer(lanes(
        &[(Some("11"), None), (Some("11"), None), (Some("11"), None), (Some("11"), None)],
        "",
    )?);
    assert!(matches!(r, Err(Error::InvalidArgument(_))));
    Ok(())
}

#[test]
fn a_transfer_closing_the_whole_sequence_releases_valid() -> Result<(), Error> {
    let pt = PhysicalTransfer::new(Complexity::new_major(1), Positive::new(1).unwrap(), 2, 1, 0);
    let closing = pt.with_logical_transfer(LogicalTransfer::new(
        vec![Element::new_data_from_str("11")?.with_last(0..0)?],
        None,
    ))?;
    assert!(!closing.holds_valid());
    let pt = PhysicalTransfer::new(Complexity::new_major(1), Positive::new(1).unwrap(), 2, 1, 0);
    let open = pt.with_logical_transfer(LogicalTransfer::new(
        vec![Element::new_data_from_str("11")?],
        None,
    ))?;
    assert!(open.holds_valid());
    Ok(())
}

#[test]
fn every_wrong_lane_is_listed() -> Result<(), Error> {
    // Element size 2: lane 0 holds 3 bits, lane 1 closes dimension 5 of 3.
    let t = lanes(&[(Some("101"), None), (Some("10"), Some(0..5))], "101")?;
    assert_eq!(
        physical(8, 2).with_logical_transfer(t),
        Err(Error::InvalidArgument(
            "One or more errors in logical transfer:\nLogical transfer contains an element with size 3, which does not match the expected element size 2.\nCannot assert an element or transfer as last in dimension 5, physical stream has dimensionality 3."
                .to_string()
        ))
    );
    let empty = LogicalTransfer::try_from_data_str(LogicalData::EmptySequence(0..3), "101")?;
    assert_eq!(
        physical(1, 2).with_logical_transfer(empty),
        Err(Error::InvalidArgument(
            "Cannot assert empty sequence as last in dimension 3, as this physical stream has a dimensionality of 3."
                .to_string()
        ))
    );
    Ok(())
}

#[test]
fn strobes_are_all_high_when_every_bit_is() {
    assert!(StrobeMode::Absent.all_high());
    assert!(StrobeMode::Transfer(true).all_high());
    assert!(!StrobeMode::Transfer(false).all_high());
    assert!(StrobeMode::Lane(vec![true, true]).all_high());
    assert!(!StrobeMode::Lane(vec![true, false]).all_high());
    assert!(StrobeMode::Lane(vec![]).all_high());
}
