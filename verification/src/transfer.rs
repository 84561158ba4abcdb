//! Transfers as lanes of elements with a `user` bit vector.
use vstd::prelude::*;
use crate::bits::max_bits;
use crate::element::{Element, ElementView};
use crate::error::Error;
use crate::element_type::{ElementType, ElementValue};
use crate::logical_transfer::lanes_view;

verus! {

/// The bits spelled by a text of `0`s and `1`s, written most significant
/// first: the last character is bit 0.
pub open spec fn bits_spelled(s: Seq<char>) -> Option<Seq<bool>> {
    if forall|i: int| 0 <= i < s.len() ==> (#[trigger] s[i] == '0' || s[i] == '1') {
        Some(Seq::new(s.len(), |i: int| s[s.len() - 1 - i] == '1'))
    } else {
        None
    }
}

/// The bits spelled by `data` (see `bits_spelled`), or an
/// `InvalidArgument` error when it holds another character than `0` and
/// `1`.
pub fn bits_from_str(data: &str) -> (r: Result<Vec<bool>, Error>)
    ensures
        match bits_spelled(data@) {
            Some(b) => r matches Ok(v) && v@ == b,
            None => r matches Err(e) && e is InvalidArgument,
        },
{
    let n = data.unicode_len();
    let mut i: usize = 0;
    while i < n
        invariant
            n == data@.len(),
            i <= n,
            forall|j: int| 0 <= j < i ==> (#[trigger] data@[j] == '0' || data@[j] == '1'),
        decreases n - i,
    {
        let c = data.get_char(i);
        if c != '0' && c != '1' {
            return Err(crate::error::invalid_argument("String must consist of '0' and '1' only"));
        }
        i = i + 1;
    }
    let mut out: Vec<bool> = Vec::new();
    let mut k: usize = 0;
    while k < n
        invariant
            n == data@.len(),
            k <= n,
            out@.len() == k,
            forall|j: int| 0 <= j < k ==> #[trigger] out@[j] == (data@[n - 1 - j] == '1'),
        decreases n - k,
    {
        let c = data.get_char(n - 1 - k);
        out.push(c == '1');
        k = k + 1;
    }
    assert(out@ =~= Seq::new(n as nat, |i: int| data@[n - 1 - i] == '1'));
    Ok(out)
}

/// The lane spelled by `s`: active data of the bits it spells.
pub open spec fn lane_spelled(s: Seq<char>) -> Option<ElementView> {
    match bits_spelled(s) {
        Some(b) => Some(ElementView { data: Some(ElementValue::Bits(b)), last: None }),
        None => None,
    }
}

/// Lanes of elements and a `user` bit vector.
#[derive(Debug, PartialEq, Eq, Hash)]
pub struct Transfer {
    lanes: Vec<Element>,
    user: Vec<bool>,
}

impl Transfer {
    pub closed spec fn spec_lanes(&self) -> Seq<ElementView> {
        lanes_view(self.lanes@)
    }

    pub closed spec fn spec_user(&self) -> Seq<bool> {
        self.user@
    }

    pub fn new(lanes: Vec<Element>, user: Vec<bool>) -> (r: Transfer)
        ensures
            r.spec_lanes() == lanes_view(lanes@),
            r.spec_user() == user@,
    {
        Transfer { lanes, user }
    }

    /// The transfer of the lanes spelled by `lanes` (see `lane_spelled`)
    /// and the user bits spelled by `user`, or an `InvalidArgument` error.
    pub fn try_new(lanes: &[&str], user: &str) -> (r: Result<Transfer, Error>)
        requires
            forall|i: int| 0 <= i < lanes@.len() ==> #[trigger] lanes@[i]@.len() <= max_bits(),
        ensures
            r is Ok <==> (forall|i: int|
                0 <= i < lanes@.len() ==> (#[trigger] lane_spelled(lanes@[i]@)) is Some) && bits_spelled(
                user@,
            ) is Some,
            r matches Ok(t) ==> t.spec_user() == bits_spelled(user@)->0 && t.spec_lanes().len()
                == lanes@.len() && forall|i: int|
                0 <= i < lanes@.len() ==> Some(#[trigger] t.spec_lanes()[i]) == lane_spelled(
                    lanes@[i]@,
                ),
            r matches Err(e) ==> e is InvalidArgument,
    {
        let t = match Self::try_new_lanes(lanes) {
            Ok(t) => t,
            Err(e) => {
                return Err(e);
            },
        };
        match bits_from_str(user) {
            Ok(u) => Ok(t.with_user(u)),
            Err(e) => Err(e),
        }
    }

    /// The lanes given, without user bits.
    pub fn new_lanes(lanes: Vec<Element>) -> (r: Transfer)
        ensures
            r.spec_lanes() == lanes_view(lanes@),
            r.spec_user() == Seq::<bool>::empty(),
    {
        Transfer { lanes, user: Vec::new() }
    }

    /// The transfer of the lanes spelled by `lanes` (see `lane_spelled`),
    /// without user bits.
    pub fn try_new_lanes(lanes: &[&str]) -> (r: Result<Transfer, Error>)
        requires
            forall|i: int| 0 <= i < lanes@.len() ==> #[trigger] lanes@[i]@.len() <= max_bits(),
        ensures
            r is Ok <==> forall|i: int|
                0 <= i < lanes@.len() ==> (#[trigger] lane_spelled(lanes@[i]@)) is Some,
            r matches Ok(t) ==> t.spec_user() == Seq::<bool>::empty() && t.spec_lanes().len()
                == lanes@.len() && forall|i: int|
                0 <= i < lanes@.len() ==> Some(#[trigger] t.spec_lanes()[i]) == lane_spelled(
                    lanes@[i]@,
                ),
            r matches Err(e) ==> e is InvalidArgument,
    {
        let mut out: Vec<Element> = Vec::new();
        let mut i: usize = 0;
        while i < lanes.len()
            invariant
                i <= lanes@.len(),
                out@.len() == i,
                forall|j: int| 0 <= j < lanes@.len() ==> #[trigger] lanes@[j]@.len() <= max_bits(),
                forall|j: int| 0 <= j < i ==> (#[trigger] lane_spelled(lanes@[j]@)) is Some,
                forall|j: int| 0 <= j < i ==> Some(#[trigger] out@[j]@) == lane_spelled(lanes@[j]@),
            decreases lanes@.len() - i,
        {
            match bits_from_str(lanes[i]) {
                Ok(b) => out.push(Element::new_data(ElementType::from_bools(b.as_slice()))),
                Err(e) => {
                    assert(lane_spelled(lanes@[i as int]@) is None);
                    return Err(e);
                },
            }
            i = i + 1;
        }
        let t = Transfer::new_lanes(out);
        proof {
            assert forall|j: int| 0 <= j < lanes@.len() implies Some(#[trigger] t.spec_lanes()[j])
                == lane_spelled(lanes@[j]@) by {
                assert(t.spec_lanes()[j] == out@[j]@);
            }
        }
        Ok(t)
    }

    pub fn set_user(&mut self, user: Vec<bool>)
        ensures
            final(self).spec_lanes() == old(self).spec_lanes(),
            final(self).spec_user() == user@,
    {
        self.user = user;
    }

    pub fn with_user(self, user: Vec<bool>) -> (r: Transfer)
        ensures
            r.spec_lanes() == self.spec_lanes(),
            r.spec_user() == user@,
    {
        let mut s = self;
        s.set_user(user);
        s
    }

    pub fn lanes(&self) -> (r: &Vec<Element>)
        ensures
            lanes_view(r@) == self.spec_lanes(),
    {
        &self.lanes
    }

    pub fn user(&self) -> (r: &Vec<bool>)
        ensures
            r@ == self.spec_user(),
    {
        &self.user
    }
}

} // verus!
