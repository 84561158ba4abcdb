//! Logical transfers: what a physical stream carries in one clock cycle.
use vstd::prelude::*;
use std::ops::Range;
use crate::bits::max_bits;
use crate::element::{Element, ElementView, means_inactive, inactive_word};
use crate::element_type::{ElementType, ElementValue, parse_element};
use crate::error::Error;

verus! {

/// The data of a logical transfer.
#[derive(Debug, PartialEq, Eq, Hash)]
pub enum LogicalData {
    /// An empty sequence, closing the dimensions of the range.
    EmptySequence(Range<u32>),
    /// The elements transferred on the element lanes, lane 0 first.
    Lanes(Vec<Element>),
}

/// The models of a sequence of elements.
pub open spec fn lanes_view(v: Seq<Element>) -> Seq<ElementView> {
    v.map_values(|e: Element| e@)
}

/// The model of `LogicalData`.
pub enum LogicalDataView {
    EmptySequence(Range<u32>),
    Lanes(Seq<ElementView>),
}

impl View for LogicalData {
    type V = LogicalDataView;

    open spec fn view(&self) -> LogicalDataView {
        match self {
            LogicalData::EmptySequence(r) => LogicalDataView::EmptySequence(*r),
            LogicalData::Lanes(v) => LogicalDataView::Lanes(lanes_view(v@)),
        }
    }
}

impl Clone for LogicalData {
    fn clone(&self) -> (r: Self)
        ensures
            r@ == self@,
    {
        match self {
            LogicalData::EmptySequence(r) => LogicalData::EmptySequence(r.start..r.end),
            LogicalData::Lanes(v) => {
                let mut out: Vec<Element> = Vec::new();
                let mut i: usize = 0;
                while i < v.len()
                    invariant
                        i <= v@.len(),
                        out@.len() == i,
                        lanes_view(out@) == lanes_view(v@).take(
                            i as int,
                        ),
                    decreases v@.len() - i,
                {
                    let c = v[i].clone();
                    let ghost prev = out@;
                    out.push(c);
                    assert(out@ == prev.push(c));
                    assert(c@ == v@[i as int]@);
                    assert(lanes_view(out@)[i as int] == c@);
                    assert(lanes_view(prev) =~= lanes_view(v@).take(i as int));
                    assert(lanes_view(out@) =~= lanes_view(v@).take(
                        i + 1,
                    ));
                    i = i + 1;
                }
                assert(lanes_view(v@).take(v@.len() as int) =~= lanes_view(v@));
                LogicalData::Lanes(out)
            },
        }
    }
}

/// The element a lane's text spells: inactive for `-` and `inactive` (any
/// ASCII case), else active data as parsed, or none.
pub open spec fn lane_of_str(s: Seq<char>) -> Option<ElementView> {
    if means_inactive(s) {
        Some(ElementView { data: None, last: None })
    } else {
        match parse_element(s) {
            Some(v) => Some(ElementView { data: Some(v), last: None }),
            None => None,
        }
    }
}

/// The model of a logical transfer: its data and its `user` value (`None`
/// when the transfer does not address the `user` signal).
pub struct LogicalTransferView {
    pub data: LogicalDataView,
    pub user: Option<ElementValue>,
}

/// The elements and `user` value transferred over a physical stream in one
/// clock cycle.
#[derive(Debug, PartialEq, Eq, Hash)]
pub struct LogicalTransfer {
    data: LogicalData,
    user: Option<ElementType>,
}

impl Clone for LogicalTransfer {
    fn clone(&self) -> (r: Self)
        ensures
            r@ == self@,
    {
        let user = match &self.user {
            Some(e) => Some(e.clone()),
            None => None,
        };
        LogicalTransfer { data: self.data.clone(), user }
    }
}

impl View for LogicalTransfer {
    type V = LogicalTransferView;

    closed spec fn view(&self) -> LogicalTransferView {
        LogicalTransferView { data: self.data@, user: crate::element::opt_view(self.user) }
    }
}

/// The `user` value a text stands for: none for `-` and `inactive`, else the
/// parsed element value.
pub open spec fn parse_user(s: Seq<char>) -> Option<Option<ElementValue>> {
    if means_inactive(s) {
        Some(None)
    } else {
        match parse_element(s) {
            Some(v) => Some(Some(v)),
            None => None,
        }
    }
}

/// Parses a `user` value: `-` and `inactive` (any ASCII case) mean none.
fn parse_user_str(s: &str) -> (r: Result<Option<ElementType>, Error>)
    requires
        s@.len() <= max_bits(),
    ensures
        match parse_user(s@) {
            Some(u) => r matches Ok(v) && crate::element::opt_view(v) == u,
            None => r matches Err(e) && e is InvalidArgument,
        },
{
    let inactive = "inactive";
    proof {
        reveal_strlit("inactive");
        assert(inactive@ =~= inactive_word());
    }
    let dash = s.unicode_len() == 1 && s.get_char(0) == '-';
    proof {
        if s@.len() == 1 && s@[0] == '-' {
            assert(s@ =~= seq!['-']);
        }
    }
    if dash || crate::element_type::eq_ignore_ascii_case(s, inactive) {
        Ok(None)
    } else {
        match ElementType::from_str(s) {
            Ok(d) => Ok(Some(d)),
            Err(e) => Err(e),
        }
    }
}

impl LogicalTransfer {
    /// A transfer of the given lanes and `user` value.
    pub fn new(lanes: Vec<Element>, user: Option<ElementType>) -> (r: LogicalTransfer)
        ensures
            r@.data == LogicalDataView::Lanes(lanes_view(lanes@)),
            r@.user == crate::element::opt_view(user),
    {
        LogicalTransfer { data: LogicalData::Lanes(lanes), user }
    }

    /// An empty sequence closing the dimensions in `last`, without `user`.
    pub fn new_empty(last: Range<u32>) -> (r: LogicalTransfer)
        ensures
            r@.data == LogicalDataView::EmptySequence(last),
            r@.user is None,
    {
        LogicalTransfer { data: LogicalData::EmptySequence(last), user: None }
    }

    /// An empty sequence closing the dimensions in `last`, with a `user`
    /// value.
    pub fn new_empty_user(last: Range<u32>, user: ElementType) -> (r: LogicalTransfer)
        ensures
            r@.data == LogicalDataView::EmptySequence(last),
            r@.user == Some(user@),
    {
        LogicalTransfer { data: LogicalData::EmptySequence(last), user: Some(user) }
    }

    /// A transfer of the given lanes, without `user`.
    pub fn new_lanes(lanes: Vec<Element>) -> (r: LogicalTransfer)
        ensures
            r@.data == LogicalDataView::Lanes(lanes_view(lanes@)),
            r@.user is None,
    {
        LogicalTransfer { data: LogicalData::Lanes(lanes), user: None }
    }

    /// A transfer of the given data, without `user`.
    pub fn from_data(data: LogicalData) -> (r: LogicalTransfer)
        ensures
            r@.data == data@,
            r@.user is None,
    {
        LogicalTransfer { data, user: None }
    }

    /// A transfer of the given data and the `user` value spelled by `user`
    /// (`-` and `inactive` mean none).
    pub fn try_from_data_str(data: LogicalData, user: &str) -> (r: Result<LogicalTransfer, Error>)
        requires
            user@.len() <= max_bits(),
        ensures
            match parse_user(user@) {
                Some(u) => r matches Ok(t) && t@.data == data@ && t@.user == u,
                None => r matches Err(e) && e is InvalidArgument,
            },
    {
        match parse_user_str(user) {
            Ok(u) => Ok(LogicalTransfer { data, user: u }),
            Err(e) => Err(e),
        }
    }

    /// A transfer of the lanes spelled by `lanes` (parsed as
    /// `Element::new_data_from_str` does) without `user`; an
    /// `InvalidArgument` error when a lane is not spelled correctly.
    pub fn try_new_lanes_str(lanes: &[&str]) -> (r: Result<LogicalTransfer, Error>)
        requires
            forall|i: int| 0 <= i < lanes@.len() ==> #[trigger] lanes@[i]@.len() <= max_bits(),
        ensures
            r is Ok <==> forall|i: int|
                0 <= i < lanes@.len() ==> (#[trigger] lane_of_str(lanes@[i]@)) is Some,
            r matches Ok(t) ==> t@.user is None && t@.data is Lanes && t@.data->Lanes_0.len()
                == lanes@.len() && forall|i: int|
                0 <= i < lanes@.len() ==> Some(#[trigger] t@.data->Lanes_0[i]) == lane_of_str(
                    lanes@[i]@,
                ),
            r matches Err(e) ==> e is InvalidArgument,
    {
        let mut out: Vec<Element> = Vec::new();
        let mut i: usize = 0;
        while i < lanes.len()
            invariant
                i <= lanes@.len(),
                out@.len() == i,
                forall|j: int| 0 <= j < lanes@.len() ==> #[trigger] lanes@[j]@.len() <= max_bits(),
                forall|j: int| 0 <= j < i ==> (#[trigger] lane_of_str(lanes@[j]@)) is Some,
                forall|j: int| 0 <= j < i ==> Some(#[trigger] out@[j]@) == lane_of_str(lanes@[j]@),
            decreases lanes@.len() - i,
        {
            match Element::new_data_from_str(lanes[i]) {
                Ok(e) => out.push(e),
                Err(e) => {
                    assert(lane_of_str(lanes@[i as int]@) is None);
                    return Err(e);
                },
            }
            i = i + 1;
        }
        let t = LogicalTransfer::new_lanes(out);
        proof {
            assert forall|j: int| 0 <= j < lanes@.len() implies Some(
                #[trigger] t@.data->Lanes_0[j],
            ) == lane_of_str(lanes@[j]@) by {
                assert(t@.data->Lanes_0[j] == out@[j]@);
            }
        }
        Ok(t)
    }

    pub fn set_user(&mut self, user: ElementType)
        ensures
            final(self)@.data == old(self)@.data,
            final(self)@.user == Some(user@),
    {
        self.user = Some(user);
    }

    pub fn with_user(self, user: ElementType) -> (r: LogicalTransfer)
        ensures
            r@.data == self@.data,
            r@.user == Some(user@),
    {
        LogicalTransfer { data: self.data, user: Some(user) }
    }

    pub fn data(&self) -> (r: &LogicalData)
        ensures
            r@ == self@.data,
    {
        &self.data
    }

    pub fn user(&self) -> (r: &Option<ElementType>)
        ensures
            crate::element::opt_view(*r) == self@.user,
    {
        &self.user
    }
}

} // verus!
