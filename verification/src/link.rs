//! Links from streamlets to the directories holding their behavioural
//! implementations.
use vstd::prelude::*;
use crate::error::Error;

verus! {

/// What looking up a path on the file system gave: whether it is a
/// directory, or the error the lookup reported.
pub enum PathStatus {
    Directory,
    NotDirectory,
    Unreadable(String),
}

/// A link to a behavioural implementation: the path of a directory, in which
/// the file is chosen by streamlet and back-end.
#[derive(Debug, PartialEq, Eq, Hash)]
pub struct Link {
    path: String,
}

impl Link {
    pub closed spec fn spec_path(&self) -> Seq<char> {
        self.path@
    }

    /// The link to `path`, given what looking it up gave: accepted when it is
    /// a directory, otherwise a `FileIOError` (`<path> is not a directory`,
    /// or the lookup's own error text).
    pub fn try_new(path: String, status: PathStatus) -> (r: Result<Link, Error>)
        ensures
            match status {
                PathStatus::Directory => r matches Ok(l) && l.spec_path() == path@,
                PathStatus::NotDirectory => r matches Err(Error::FileIOError(m)) && m@
                    == path@ + " is not a directory"@,
                PathStatus::Unreadable(e) => r matches Err(Error::FileIOError(m)) && m@ == e@,
            },
    {
        match status {
            PathStatus::Directory => Ok(Link { path }),
            PathStatus::NotDirectory => {
                let mut m = path;
                m.append(" is not a directory");
                Err(Error::FileIOError(m))
            },
            PathStatus::Unreadable(e) => Err(Error::FileIOError(e)),
        }
    }

    /// The path of the directory.
    pub fn path(&self) -> (r: &str)
        ensures
            r@ == self.spec_path(),
    {
        self.path.as_str()
    }
}

} // verus!
