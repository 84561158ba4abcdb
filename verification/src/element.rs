//! The elements of a logical transfer: the data of one element lane and the
//! dimensions it closes.
use vstd::prelude::*;
use std::ops::Range;
use crate::bits::max_bits;
use crate::element_type::{ElementType, ElementValue, ascii_ci_eq, parse_element};
use crate::error::Error;

verus! {

/// The model of an element: its data (`None` when inactive) and the range of
/// dimensions it is the last element of (`None` when none).
pub struct ElementView {
    pub data: Option<ElementValue>,
    pub last: Option<Range<u32>>,
}

pub open spec fn inactive_word() -> Seq<char> {
    seq!['i', 'n', 'a', 'c', 't', 'i', 'v', 'e']
}

/// The text stands for inactive data: `-` or `inactive` in any ASCII case.
pub open spec fn means_inactive(s: Seq<char>) -> bool {
    s == seq!['-'] || ascii_ci_eq(s, inactive_word())
}

/// One element lane of a transfer.
#[derive(Debug, PartialEq, Eq, Hash)]
pub struct Element {
    data: Option<ElementType>,
    last: Option<Range<u32>>,
}

pub open spec fn opt_view(d: Option<ElementType>) -> Option<ElementValue> {
    match d {
        Some(e) => Some(e@),
        None => None,
    }
}

impl View for Element {
    type V = ElementView;

    closed spec fn view(&self) -> ElementView {
        ElementView { data: opt_view(self.data), last: self.last }
    }
}

impl Clone for Element {
    fn clone(&self) -> (r: Self)
        ensures
            r@ == self@,
    {
        let data = match &self.data {
            Some(d) => Some(d.clone()),
            None => None,
        };
        let last = match &self.last {
            Some(l) => Some(l.start..l.end),
            None => None,
        };
        Element { data, last }
    }
}

impl Element {
    /// An element with active data and no `last`.
    pub fn new_data(data: ElementType) -> (r: Element)
        ensures
            r@ == (ElementView { data: Some(data@), last: None }),
    {
        Element { data: Some(data), last: None }
    }

    /// An element with inactive data and no `last`.
    pub fn new_inactive() -> (r: Element)
        ensures
            r@ == (ElementView { data: None, last: None }),
    {
        Element { data: None, last: None }
    }

    /// The element with the given data (`None`: inactive), made the last of
    /// the dimensions in `last` as `with_last` does.
    pub fn new(data: Option<ElementType>, last: Option<Range<u32>>) -> (r: Result<Element, Error>)
        ensures
            r is Ok <==> !(data is Some && (last matches Some(l) && l.start > 0)),
            r matches Ok(e) ==> e@ == (ElementView { data: opt_view(data), last: last }),
            r matches Err(e) ==> e is InvalidArgument,
    {
        let result = Element { data, last: None };
        match last {
            Some(l) => result.with_last(l),
            None => Ok(result),
        }
    }

    /// Parses the data of an element: `-` and `inactive` (any ASCII case)
    /// give inactive data, other text is parsed by `ElementType::from_str`.
    pub fn new_data_from_str(s: &str) -> (r: Result<Element, Error>)
        requires
            s@.len() <= max_bits(),
        ensures
            means_inactive(s@) ==> (r matches Ok(e) && e@ == (ElementView { data: None, last: None })),
            !means_inactive(s@) ==> (match parse_element(s@) {
                Some(v) => r matches Ok(e) && e@ == (ElementView { data: Some(v), last: None }),
                None => r matches Err(e) && e is InvalidArgument,
            }),
    {
        let inactive = "inactive";
        proof {
            reveal_strlit("inactive");
            assert(inactive@ =~= inactive_word());
        }
        let dash = s.unicode_len() == 1 && s.get_char(0) == '-';
        proof {
            if s@.len() == 1 && s@[0] == '-' {
                assert(s@ =~= seq!['-']);
            }
        }
        if dash || crate::element_type::eq_ignore_ascii_case(s, inactive) {
            Ok(Element { data: None, last: None })
        } else {
            match ElementType::from_str(s) {
                Ok(d) => Ok(Element { data: Some(d), last: None }),
                Err(e) => Err(e),
            }
        }
    }

    /// Makes this element the last of the dimensions in `last`. Elements with
    /// active data can only close dimensions starting at 0: otherwise an
    /// `InvalidArgument` error.
    pub fn with_last(self, last: Range<u32>) -> (r: Result<Element, Error>)
        ensures
            r is Ok <==> !(self@.data is Some && last.start > 0),
            r matches Ok(e) ==> e@ == (ElementView { data: self@.data, last: Some(last) }),
            r matches Err(e) ==> e is InvalidArgument,
    {
        if self.is_active() && last.start > 0 {
            let a = (last.start as u64).to_string();
            let b = (last.end as u64).to_string();
            Err(
                Error::InvalidArgument(
                    crate::messages::concat(
                        &[
                            "Cannot assert this element as being the last of dimensions ",
                            a.as_str(),
                            "..",
                            b.as_str(),
                            ". Elements with active data can only transferred as the innermost dimension (0).",
                        ],
                    ),
                ),
            )
        } else {
            Ok(Element { data: self.data, last: Some(last) })
        }
    }

    pub fn data(&self) -> (r: &Option<ElementType>)
        ensures
            opt_view(*r) == self@.data,
    {
        &self.data
    }

    pub fn last(&self) -> (r: &Option<Range<u32>>)
        ensures
            *r == self@.last,
    {
        &self.last
    }

    pub fn is_active(&self) -> (r: bool)
        ensures
            r == (self@.data is Some),
    {
        self.data.is_some()
    }

    /// The flat length of the data, when active.
    pub fn element_size(&self) -> (r: Option<usize>)
        requires
            self@.data matches Some(d) ==> d.len() <= usize::MAX,
        ensures
            r is Some <==> self@.data is Some,
            r matches Some(n) ==> n == self@.data->Some_0.len(),
    {
        match &self.data {
            Some(d) => Some(d.len()),
            None => None,
        }
    }

    /// The highest dimension this element is asserted to be last of (the
    /// end of its `last` range), or 0 when none.
    pub fn max_last(&self) -> (r: u32)
        ensures
            r == match self@.last {
                Some(l) => l.end,
                None => 0,
            },
    {
        match &self.last {
            Some(l) => l.end,
            None => 0,
        }
    }

    pub fn default() -> (r: Element)
        ensures
            r@ == (ElementView { data: None, last: None }),
    {
        Element::new_inactive()
    }
}

} // verus!
