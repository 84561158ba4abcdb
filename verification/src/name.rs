//! Identifiers and paths of identifiers.
use vstd::prelude::*;
use crate::error::Error;
use crate::messages::concat;

verus! {

pub open spec fn is_digit(c: char) -> bool {
    '0' <= c && c <= '9'
}

pub open spec fn is_name_char(c: char) -> bool {
    ||| is_digit(c)
    ||| ('a' <= c && c <= 'z')
    ||| ('A' <= c && c <= 'Z')
    ||| c == '_'
}

/// A valid name is non-empty, does not start with a digit, does not start or
/// end with an underscore, holds no two consecutive underscores and consists
/// of ASCII letters, digits and underscores only.
pub open spec fn valid_name(s: Seq<char>) -> bool {
    &&& s.len() > 0
    &&& !is_digit(s[0])
    &&& s[0] != '_'
    &&& s.last() != '_'
    &&& forall|i: int| 0 <= i < s.len() - 1 ==> !(s[i] == '_' && #[trigger] s[i + 1] == '_')
    &&& forall|i: int| 0 <= i < s.len() ==> is_name_char(#[trigger] s[i])
}

/// A validated identifier.
#[derive(Debug, PartialEq, Eq, Hash, PartialOrd, Ord)]
pub struct Name {
    value: String,
}

impl View for Name {
    type V = Seq<char>;

    closed spec fn view(&self) -> Seq<char> {
        self.value@
    }
}

impl Clone for Name {
    fn clone(&self) -> (r: Self)
        ensures
            r == *self,
    {
        proof {
            use_type_invariant(self);
        }
        Name { value: self.value.clone() }
    }
}

impl Name {
    #[verifier::type_invariant]
    closed spec fn wf(self) -> bool {
        valid_name(self.value@)
    }

    /// The name spelled by `s`, or an `InvalidArgument` error when `s` is not
    /// a valid name.
    pub fn try_new(s: &str) -> (r: Result<Name, Error>)
        ensures
            r is Ok <==> valid_name(s@),
            r matches Ok(n) ==> n@ == s@,
            r matches Err(e) ==> e is InvalidArgument,
    {
        let n = s.unicode_len();
        if n == 0 {
            return Err(Error::InvalidArgument(String::from_str("name cannot be empty")));
        }
        let first = s.get_char(0);
        if '0' <= first && first <= '9' {
            return Err(Error::InvalidArgument(concat(&[s, ": name cannot start with a digit"])));
        }
        let last = s.get_char(n - 1);
        if first == '_' || last == '_' {
            return Err(
                Error::InvalidArgument(
                    concat(&[s, ": name cannot start or end with an underscore"]),
                ),
            );
        }
        let mut i: usize = 0;
        while i < n
            invariant
                n == s@.len(),
                i <= n,
                forall|j: int| 0 <= j < i ==> is_name_char(#[trigger] s@[j]),
                forall|j: int| 0 <= j < i - 1 ==> !(s@[j] == '_' && #[trigger] s@[j + 1] == '_'),
            decreases n - i,
        {
            let c = s.get_char(i);
            if !(('0' <= c && c <= '9') || ('a' <= c && c <= 'z') || ('A' <= c && c <= 'Z') || c
                == '_') {
                return Err(
                    Error::InvalidArgument(
                        concat(
                            &[s, ": only alphanumeric characters and underscores are allowed"],
                        ),
                    ),
                );
            }
            if i > 0 && c == '_' && s.get_char(i - 1) == '_' {
                assert(s@[i - 1] == '_' && s@[(i - 1) + 1] == '_');
                return Err(
                    Error::InvalidArgument(
                        concat(&[s, ": name cannot contain two or more consecutive underscores"]),
                    ),
                );
            }
            i = i + 1;
        }
        Ok(Name { value: String::from_str(s) })
    }

    pub fn as_str(&self) -> (r: &str)
        ensures
            r@ == self@,
    {
        self.value.as_str()
    }

    pub fn name_eq(&self, other: &Name) -> (r: bool)
        ensures
            r == (self@ == other@),
    {
        self.value == other.value
    }

    /// Every name is valid.
    pub fn lemma_valid(&self)
        ensures
            valid_name(self@),
    {
        proof {
            use_type_invariant(self);
        }
    }
}

/// A path of names, such as `a.b.c`; it may be empty.
#[derive(Debug, PartialEq, Eq, Hash, PartialOrd, Ord)]
pub struct PathName {
    names: Vec<Name>,
}

impl View for PathName {
    type V = Seq<Seq<char>>;

    closed spec fn view(&self) -> Seq<Seq<char>> {
        self.names@.map_values(|n: Name| n@)
    }
}

impl Clone for PathName {
    fn clone(&self) -> (r: Self)
        ensures
            r@ == self@,
    {
        let names = self.names.clone();
        assert forall|i: int| 0 <= i < names@.len() implies names@[i] == self.names@[i] by {
            assert(cloned::<Name>(self.names@[i], names@[i]));
        }
        assert(names@ =~= self.names@);
        PathName { names }
    }
}

impl PathName {
    pub fn new_empty() -> (r: PathName)
        ensures
            r@ == Seq::<Seq<char>>::empty(),
    {
        let r = PathName { names: Vec::new() };
        assert(r@ =~= Seq::<Seq<char>>::empty());
        r
    }

    pub fn new_name(name: Name) -> (r: PathName)
        ensures
            r@ == seq![name@],
    {
        let mut names = Vec::new();
        names.push(name);
        let r = PathName { names };
        assert(r@ =~= seq![name@]);
        r
    }

    /// The path of the given parts, or the error of the first part that is
    /// not a valid name.
    pub fn try_new(parts: &[&str]) -> (r: Result<PathName, Error>)
        ensures
            r is Ok <==> forall|i: int| 0 <= i < parts@.len() ==> valid_name(#[trigger] parts@[i]@),
            r matches Ok(p) ==> p@ == parts@.map_values(|s: &str| s@),
            r matches Err(e) ==> e is InvalidArgument,
    {
        let mut names: Vec<Name> = Vec::new();
        let mut i: usize = 0;
        while i < parts.len()
            invariant
                i <= parts@.len(),
                names@.len() == i,
                forall|j: int| 0 <= j < i ==> names@[j]@ == parts@[j]@,
                forall|j: int| 0 <= j < i ==> valid_name(#[trigger] parts@[j]@),
            decreases parts@.len() - i,
        {
            match Name::try_new(parts[i]) {
                Ok(n) => names.push(n),
                Err(e) => return Err(e),
            }
            i = i + 1;
        }
        let r = PathName { names };
        assert(r@ =~= parts@.map_values(|s: &str| s@));
        Ok(r)
    }

    pub fn len(&self) -> (r: usize)
        ensures
            r == self@.len(),
    {
        self.names.len()
    }

    pub fn is_empty(&self) -> (r: bool)
        ensures
            r == (self@.len() == 0),
    {
        self.names.len() == 0
    }

    pub fn get(&self, i: usize) -> (r: &Name)
        requires
            i < self@.len(),
        ensures
            r@ == self@[i as int],
    {
        &self.names[i]
    }

    /// The first name of the path, if any.
    pub fn root(&self) -> (r: Option<Name>)
        ensures
            r is Some <==> self@.len() > 0,
            r matches Some(n) ==> n@ == self@[0],
    {
        if self.names.len() > 0 {
            Some(self.names[0].clone())
        } else {
            None
        }
    }

    /// The last name of the path, if any.
    pub fn last(&self) -> (r: Option<&Name>)
        ensures
            r is Some <==> self@.len() > 0,
            r matches Some(n) ==> n@ == self@.last(),
    {
        if self.names.len() > 0 {
            Some(&self.names[self.names.len() - 1])
        } else {
            None
        }
    }

    /// This path extended by one name.
    pub fn with_child(&self, child: Name) -> (r: PathName)
        ensures
            r@ == self@.push(child@),
    {
        let mut names = self.names.clone();
        names.push(child);
        let r = PathName { names };
        assert(r@ =~= self@.push(child@));
        r
    }

    /// This path followed by the names of `children`.
    pub fn with_children(&self, children: &PathName) -> (r: PathName)
        ensures
            r@ == self@ + children@,
    {
        let mut names = self.names.clone();
        let mut i: usize = 0;
        while i < children.names.len()
            invariant
                i <= children@.len(),
                names@.map_values(|n: Name| n@) == self@ + children@.take(i as int),
            decreases children@.len() - i,
        {
            names.push(children.names[i].clone());
            proof {
                assert(children@.take(i + 1) =~= children@.take(i as int).push(children@[i as int]));
                assert(names@.map_values(|n: Name| n@) =~= (self@ + children@.take(i as int)).push(
                    children@[i as int],
                ));
            }
            i = i + 1;
        }
        assert(children@.take(children@.len() as int) =~= children@);
        PathName { names }
    }

    /// The names of `parents` followed by this path.
    pub fn with_parents(&self, parents: &PathName) -> (r: PathName)
        ensures
            r@ == parents@ + self@,
    {
        parents.with_children(self)
    }

    pub fn path_eq(&self, other: &PathName) -> (r: bool)
        ensures
            r == (self@ == other@),
    {
        if self.names.len() != other.names.len() {
            assert(self@.len() != other@.len());
            return false;
        }
        let mut i: usize = 0;
        while i < self.names.len()
            invariant
                i <= self@.len(),
                self@.len() == other@.len(),
                forall|j: int| 0 <= j < i ==> self@[j] == other@[j],
            decreases self@.len() - i,
        {
            if !self.names[i].name_eq(&other.names[i]) {
                assert(self@[i as int] != other@[i as int]);
                return false;
            }
            i = i + 1;
        }
        assert(self@ =~= other@);
        true
    }
}


impl PathName {
    /// The names joined by `__` (which no name holds).
    pub fn text(&self) -> (r: String)
        ensures
            r@ == crate::messages::join_spec(self@, "__"@),
    {
        let mut parts: Vec<String> = Vec::new();
        let mut i: usize = 0;
        while i < self.names.len()
            invariant
                i <= self.names@.len(),
                parts@.len() == i,
                parts@.map_values(|l: String| l@) == self@.take(i as int),
            decreases self.names@.len() - i,
        {
            let ghost before = parts@.map_values(|l: String| l@);
            let t = String::from_str(self.names[i].as_str());
            let ghost tv = t@;
            parts.push(t);
            proof {
                let now = parts@.map_values(|l: String| l@);
                assert forall|j: int| 0 <= j < i + 1 implies #[trigger] now[j] == self@.take(i + 1)[j] by {
                    if j < i {
                        assert(before[j] == self@.take(i as int)[j]);
                    } else {
                        assert(now[j] == tv);
                    }
                }
                assert(now =~= self@.take(i + 1));
            }
            i = i + 1;
        }
        proof {
            assert(self@.take(self.names@.len() as int) =~= self@);
        }
        crate::messages::join(&parts, "__")
    }
}

/// `a` comes strictly before `b` in the order of their characters.
pub open spec fn text_lt(a: Seq<char>, b: Seq<char>) -> bool
    decreases a.len(),
{
    if b.len() == 0 {
        false
    } else if a.len() == 0 {
        true
    } else if a[0] != b[0] {
        (a[0] as int) < (b[0] as int)
    } else {
        text_lt(a.drop_first(), b.drop_first())
    }
}

/// No text comes before itself.
pub proof fn lemma_text_lt_irreflexive(a: Seq<char>)
    ensures
        !text_lt(a, a),
    decreases a.len(),
{
    if a.len() > 0 {
        lemma_text_lt_irreflexive(a.drop_first());
    }
}

/// Of two different texts, one comes before the other, and not both.
pub proof fn lemma_text_lt_total(a: Seq<char>, b: Seq<char>)
    ensures
        a != b ==> (text_lt(a, b) || text_lt(b, a)),
        !(text_lt(a, b) && text_lt(b, a)),
    decreases a.len(),
{
    if a.len() > 0 && b.len() > 0 {
        lemma_text_lt_total(a.drop_first(), b.drop_first());
        if a[0] == b[0] && a.drop_first() == b.drop_first() {
            assert(a =~= seq![a[0]] + a.drop_first());
            assert(b =~= seq![b[0]] + b.drop_first());
        }
    } else if a.len() == 0 && b.len() == 0 {
        assert(a =~= b);
    }
}

/// The order of texts is transitive.
pub proof fn lemma_text_lt_transitive(a: Seq<char>, b: Seq<char>, c: Seq<char>)
    requires
        text_lt(a, b),
        text_lt(b, c),
    ensures
        text_lt(a, c),
    decreases a.len(),
{
    if a.len() > 0 && b.len() > 0 && c.len() > 0 && a[0] == b[0] && b[0] == c[0] {
        lemma_text_lt_transitive(a.drop_first(), b.drop_first(), c.drop_first());
    }
}

/// Texts that agree on their first `i` characters compare as what follows.
proof fn lemma_text_lt_skip(a: Seq<char>, b: Seq<char>, i: int)
    requires
        0 <= i <= a.len(),
        i <= b.len(),
        forall|j: int| 0 <= j < i ==> a[j] == b[j],
    ensures
        text_lt(a, b) == text_lt(a.skip(i), b.skip(i)),
    decreases i,
{
    if i > 0 {
        assert forall|j: int| 0 <= j < i - 1 implies a.drop_first()[j] == b.drop_first()[j] by {
            assert(a[j + 1] == b[j + 1]);
        }
        lemma_text_lt_skip(a.drop_first(), b.drop_first(), i - 1);
        assert(a.drop_first().skip(i - 1) =~= a.skip(i));
        assert(b.drop_first().skip(i - 1) =~= b.skip(i));
    } else {
        assert(a.skip(0) =~= a);
        assert(b.skip(0) =~= b);
    }
}

impl Name {
    /// Whether this name comes strictly before `other` (see `text_lt`).
    pub fn name_lt(&self, other: &Name) -> (r: bool)
        ensures
            r == text_lt(self@, other@),
    {
        let a = self.as_str();
        let b = other.as_str();
        let n = a.unicode_len();
        let m = b.unicode_len();
        let mut i: usize = 0;
        while i < n && i < m
            invariant
                n == a@.len(),
                m == b@.len(),
                i <= n,
                i <= m,
                a@ == self@,
                b@ == other@,
                forall|j: int| 0 <= j < i ==> a@[j] == b@[j],
            decreases n - i,
        {
            let x = a.get_char(i);
            let y = b.get_char(i);
            if x != y {
                proof {
                    lemma_text_lt_skip(a@, b@, i as int);
                    assert(a@.skip(i as int)[0] == x);
                    assert(b@.skip(i as int)[0] == y);
                }
                return (x as u32) < (y as u32);
            }
            i = i + 1;
        }
        proof {
            lemma_text_lt_skip(a@, b@, i as int);
        }
        n < m
    }
}

} // verus!
