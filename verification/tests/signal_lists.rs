use til_query::error::Error;
use til_query::signal_list::SignalList;

fn full_list(values: [i32; 8]) -> Result<SignalList<i32>, Error> {
    SignalList::new()
        .with_valid(values[0])?
        .with_ready(values[1])?
        .with_data(values[2])?
        .with_last(values[3])?
        .with_stai(values[4])?
        .with_endi(values[5])?
        .with_strb(values[6])?
        .with_user(values[7])
}

#[test]
fn test_iter() -> Result<(), Error> {
    let empty: SignalList<i32> = SignalList::new();
    assert_eq!(empty.clone().into_vec().len(), 0);
    assert_eq!(empty.into_vec().len(), 0);

    let full = full_list([0; 8])?;
    let mut one_removed = full.clone();
    one_removed.set_user(None)?;

    assert_eq!(full.clone().into_vec().len(), 8);
    assert_eq!(full.into_vec().len(), 8);
    assert_eq!(one_removed.clone().into_vec().len(), 7);
    assert_eq!(one_removed.into_vec().len(), 7);
    Ok(())
}

#[test]
fn test_map() -> Result<(), Error> {
    let full = full_list([0, 1, 2, 3, 4, 5, 6, 7])?;
    let mut one_removed = full.clone();
    one_removed.set_ready(None)?;

    let mapped = full.map(|x| x.to_string());
    assert_eq!(mapped.valid(), &Some("0".to_string()));
    assert_eq!(mapped.ready(), &Some("1".to_string()));
    assert_eq!(mapped.data(), &Some("2".to_string()));
    assert_eq!(mapped.last(), &Some("3".to_string()));
    assert_eq!(mapped.stai(), &Some("4".to_string()));
    assert_eq!(mapped.endi(), &Some("5".to_string()));
    assert_eq!(mapped.strb(), &Some("6".to_string()));
    assert_eq!(mapped.user(), &Some("7".to_string()));

    let mapped = one_removed.map(|x| x.to_string());
    assert_eq!(mapped.valid(), &Some("0".to_string()));
    assert_eq!(mapped.ready(), &None);
    assert_eq!(mapped.data(), &Some("2".to_string()));
    assert_eq!(mapped.last(), &Some("3".to_string()));
    assert_eq!(mapped.stai(), &Some("4".to_string()));
    assert_eq!(mapped.endi(), &Some("5".to_string()));
    assert_eq!(mapped.strb(), &Some("6".to_string()));
    assert_eq!(mapped.user(), &Some("7".to_string()));
    Ok(())
}

#[test]
fn test_map_named() -> Result<(), Error> {
    let full = full_list([0, 1, 2, 3, 4, 5, 6, 7])?;
    let mapped = full.map_named(|n, x| format!("{} {}", n.as_str(), x));
    assert_eq!(mapped.valid(), &Some("valid 0".to_string()));
    assert_eq!(mapped.ready(), &Some("ready 1".to_string()));
    assert_eq!(mapped.data(), &Some("data 2".to_string()));
    assert_eq!(mapped.last(), &Some("last 3".to_string()));
    assert_eq!(mapped.stai(), &Some("stai 4".to_string()));
    assert_eq!(mapped.endi(), &Some("endi 5".to_string()));
    assert_eq!(mapped.strb(), &Some("strb 6".to_string()));
    assert_eq!(mapped.user(), &Some("user 7".to_string()));
    Ok(())
}

#[test]
fn apply_touches_every_present_signal() -> Result<(), Error> {
    let mut list = full_list([0, 1, 2, 3, 4, 5, 6, 7])?;
    list.set_data(None)?;
    list.apply(|x| x * 10);
    assert_eq!(list.into_vec(), vec![0, 10, 30, 40, 50, 60, 70]);
    Ok(())
}

#[test]
fn apply_first_touches_only_the_first_present_signal() -> Result<(), Error> {
    let mut list: SignalList<i32> = SignalList::new().with_data(2)?.with_user(7)?;
    list.apply_first(|x| x + 100);
    assert_eq!(list.data(), &Some(102));
    assert_eq!(list.user(), &Some(7));
    Ok(())
}
