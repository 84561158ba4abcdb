use til_query::error::Error;
use til_query::link::{Link, PathStatus};

#[test]
fn try_new() -> Result<(), Error> {
    Link::try_new("../".to_string(), PathStatus::Directory)?;
    Ok(())
}

#[test]
fn try_new_fromstr() -> Result<(), Error> {
    let expected = Link::try_new("../".to_string(), PathStatus::Directory)?;
    let actual = Link::try_new(String::from("../"), PathStatus::Directory)?;
    assert_eq!(expected, actual);
    assert_eq!(actual.path(), "../");
    Ok(())
}

#[test]
fn try_invalid() -> Result<(), Error> {
    match Link::try_new(
        "gibberish".to_string(),
        PathStatus::Unreadable("No such file or directory (os error 2)".to_string()),
    ) {
        Err(Error::FileIOError(_)) => Ok(()),
        Ok(_) => Err(Error::BackEndError("Expected FileIOError".to_string())),
        Err(err) => Err(err),
    }
}

#[test]
fn a_file_is_not_a_link_target() {
    assert_eq!(
        Link::try_new("a.txt".to_string(), PathStatus::NotDirectory),
        Err(Error::FileIOError("a.txt is not a directory".to_string()))
    );
}
