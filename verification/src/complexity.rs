//! The complexity level of a physical stream.
use vstd::prelude::*;
use crate::error::Error;

verus! {

/// A complexity level such as `4` or `7.1`: a non-empty list of numbers, of
/// which the first is the major level.
#[derive(Debug, PartialEq, Eq, Hash, PartialOrd, Ord)]
pub struct Complexity {
    levels: Vec<u32>,
}

impl View for Complexity {
    type V = Seq<u32>;

    closed spec fn view(&self) -> Seq<u32> {
        self.levels@
    }
}

impl Clone for Complexity {
    fn clone(&self) -> (r: Self)
        ensures
            r@ == self@,
    {
        proof {
            use_type_invariant(self);
        }
        let levels = self.levels.clone();
        assert(levels@ =~= self.levels@);
        Complexity { levels }
    }
}

impl Complexity {
    #[verifier::type_invariant]
    closed spec fn wf(self) -> bool {
        self.levels@.len() > 0
    }

    /// The major level.
    pub open spec fn spec_major(&self) -> u32 {
        self@[0]
    }

    /// The complexity `major` without minor levels.
    pub fn new_major(major: u32) -> (r: Complexity)
        ensures
            r@ == seq![major],
    {
        let mut levels = Vec::new();
        levels.push(major);
        assert(levels@ =~= seq![major]);
        Complexity { levels }
    }

    /// The complexity with the given levels, or an `InvalidArgument` error
    /// when there are none.
    pub fn new(levels: Vec<u32>) -> (r: Result<Complexity, Error>)
        ensures
            r is Ok <==> levels@.len() > 0,
            r matches Ok(c) ==> c@ == levels@,
            r matches Err(e) ==> e is InvalidArgument,
    {
        if levels.len() == 0 {
            Err(Error::InvalidArgument(String::from_str("complexity level cannot be empty")))
        } else {
            Ok(Complexity { levels })
        }
    }

    /// Every complexity has at least one level.
    pub fn lemma_view(&self)
        ensures
            self@.len() > 0,
    {
        proof {
            use_type_invariant(self);
        }
    }

    /// The major level.
    #[verifier::when_used_as_spec(spec_major)]
    pub fn major(&self) -> (r: u32)
        ensures
            r == self@[0],
    {
        proof {
            use_type_invariant(self);
        }
        self.levels[0]
    }

    pub fn levels(&self) -> (r: &Vec<u32>)
        ensures
            r@ == self@,
    {
        &self.levels
    }

    /// The levels in decimal, separated by dots (`4`, `7.1`).
    pub fn to_text(&self) -> (r: String)
        ensures
            r@ == crate::messages::join_spec(
                self@.map_values(|l: u32| crate::messages::decimal_spec(l as nat)),
                "."@,
            ),
    {
        let ghost want = self@.map_values(|l: u32| crate::messages::decimal_spec(l as nat));
        let mut parts: Vec<String> = Vec::new();
        let mut i: usize = 0;
        while i < self.levels.len()
            invariant
                i <= self.levels@.len(),
                want == self.levels@.map_values(|l: u32| crate::messages::decimal_spec(l as nat)),
                parts@.len() == i,
                parts@.map_values(|l: String| l@) == want.take(i as int),
            decreases self.levels@.len() - i,
        {
            let ghost before = parts@.map_values(|l: String| l@);
            let t = crate::messages::decimal(self.levels[i] as u64);
            let ghost tv = t@;
            parts.push(t);
            proof {
                let now = parts@.map_values(|l: String| l@);
                assert forall|j: int| 0 <= j < i + 1 implies #[trigger] now[j] == want.take(i + 1)[j] by {
                    if j < i {
                        assert(before[j] == want.take(i as int)[j]);
                    } else {
                        assert(now[j] == tv);
                    }
                }
                assert(now =~= want.take(i + 1));
            }
            i = i + 1;
        }
        proof {
            assert(want.take(self.levels@.len() as int) =~= want);
        }
        crate::messages::join(&parts, ".")
    }
}

} // verus!
