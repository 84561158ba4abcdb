//! Physical transfers: a logical transfer laid out on the signals of a
//! physical stream with given properties, checked against those properties.
use vstd::prelude::*;
use std::ops::Range;
use crate::complexity::Complexity;
use crate::element::{Element, ElementView, opt_view};
use crate::element_type::{ElementType, ElementValue};
use crate::error::Error;
use crate::logical_transfer::{LogicalData, LogicalDataView, LogicalTransfer, LogicalTransferView, lanes_view};
use crate::messages::join;
use crate::numbers::Positive;

verus! {

/// At some complexities `valid` must be held high until (part of) a sequence
/// has been transferred; the flag tells whether this transfer holds it.
#[derive(Debug, Clone, Copy, PartialEq, Eq, Hash)]
pub enum HoldValidRule {
    /// `valid` may only be released after the whole sequence.
    WholeSequence(bool),
    /// `valid` may only be released after an innermost sequence.
    InnerSequence(bool),
    /// `valid` may be released after every transfer.
    NoHold,
}

/// Whether an index signal is supported, and its value when significant.
#[derive(Debug, Clone, Copy, PartialEq, Eq, Hash)]
pub enum IndexMode {
    Unsupported,
    Index(Option<u32>),
}

/// How `last` is transferred.
#[derive(Debug, PartialEq, Eq, Hash)]
pub enum LastMode {
    /// The stream has no dimensionality.
    Absent,
    /// Complexity below 8: one `last` range per transfer.
    Transfer(Option<Range<u32>>),
    /// Complexity 8 or more: one `last` range per element lane.
    Lane(Vec<Option<Range<u32>>>),
}

/// How `strb` is transferred.
#[derive(Debug, PartialEq, Eq, Hash)]
pub enum StrobeMode {
    /// No dimensionality and complexity below 7: no strobe.
    Absent,
    /// Complexity below 7: one strobe bit per transfer.
    Transfer(bool),
    /// Complexity 7 or more: one strobe bit per element lane.
    Lane(Vec<bool>),
}

pub enum LastModeView {
    Absent,
    Transfer(Option<Range<u32>>),
    Lane(Seq<Option<Range<u32>>>),
}

pub enum StrobeModeView {
    Absent,
    Transfer(bool),
    Lane(Seq<bool>),
}

impl View for LastMode {
    type V = LastModeView;

    open spec fn view(&self) -> LastModeView {
        match self {
            LastMode::Absent => LastModeView::Absent,
            LastMode::Transfer(r) => LastModeView::Transfer(*r),
            LastMode::Lane(v) => LastModeView::Lane(v@),
        }
    }
}

impl View for StrobeMode {
    type V = StrobeModeView;

    open spec fn view(&self) -> StrobeModeView {
        match self {
            StrobeMode::Absent => StrobeModeView::Absent,
            StrobeMode::Transfer(b) => StrobeModeView::Transfer(*b),
            StrobeMode::Lane(v) => StrobeModeView::Lane(v@),
        }
    }
}

fn copy_range(r: &Range<u32>) -> (c: Range<u32>)
    ensures
        c == *r,
{
    r.start..r.end
}

fn copy_opt_range(r: &Option<Range<u32>>) -> (c: Option<Range<u32>>)
    ensures
        c == *r,
{
    match r {
        Some(r) => Some(copy_range(r)),
        None => None,
    }
}

impl Clone for LastMode {
    fn clone(&self) -> (r: Self)
        ensures
            r@ == self@,
    {
        match self {
            LastMode::Absent => LastMode::Absent,
            LastMode::Transfer(r) => LastMode::Transfer(copy_opt_range(r)),
            LastMode::Lane(v) => {
                let mut out: Vec<Option<Range<u32>>> = Vec::new();
                let mut i: usize = 0;
                while i < v.len()
                    invariant
                        i <= v@.len(),
                        out@ == v@.take(i as int),
                    decreases v@.len() - i,
                {
                    out.push(copy_opt_range(&v[i]));
                    assert(out@ =~= v@.take(i + 1));
                    i = i + 1;
                }
                assert(out@ =~= v@);
                LastMode::Lane(out)
            },
        }
    }
}

impl Clone for StrobeMode {
    fn clone(&self) -> (r: Self)
        ensures
            r@ == self@,
    {
        match self {
            StrobeMode::Absent => StrobeMode::Absent,
            StrobeMode::Transfer(b) => StrobeMode::Transfer(*b),
            StrobeMode::Lane(v) => {
                let out = v.clone();
                assert(out@ =~= v@);
                StrobeMode::Lane(out)
            },
        }
    }
}

impl LastModeView {
    /// The transfer closes an innermost sequence (always so without
    /// dimensionality).
    pub open spec fn last_inner(self) -> bool {
        match self {
            LastModeView::Absent => true,
            LastModeView::Transfer(r) => r matches Some(r) && r.start == 0,
            LastModeView::Lane(v) => v.len() > 0 && (v.last() matches Some(r) && r.start == 0),
        }
    }
}

impl StrobeModeView {
    /// All `strb` bits are driven high (always so without a strobe).
    pub open spec fn all_high(self) -> bool {
        match self {
            StrobeModeView::Absent => true,
            StrobeModeView::Transfer(b) => b,
            StrobeModeView::Lane(v) => forall|i: int| 0 <= i < v.len() ==> #[trigger] v[i],
        }
    }
}

impl LastMode {
    /// Whether this transfers the last element of an innermost sequence.
    /// Always true without dimensionality.
    pub fn last_inner(&self) -> (r: bool)
        ensures
            r == self@.last_inner(),
    {
        match self {
            LastMode::Absent => true,
            LastMode::Transfer(last_range) => match last_range {
                Some(r) => r.start == 0,
                None => false,
            },
            LastMode::Lane(last_lanes) => {
                if last_lanes.len() == 0 {
                    false
                } else {
                    match &last_lanes[last_lanes.len() - 1] {
                        Some(r) => r.start == 0,
                        None => false,
                    }
                }
            },
        }
    }
}

impl StrobeMode {
    /// Whether all `strb` bits are driven high, which also makes indices
    /// significant. Always true without a strobe.
    pub fn all_high(&self) -> (r: bool)
        ensures
            r == self@.all_high(),
            match self {
                StrobeMode::Absent => r,
                StrobeMode::Transfer(b) => r == *b,
                StrobeMode::Lane(v) => r == (forall|i: int| 0 <= i < v@.len() ==> #[trigger] v@[i]),
            },
    {
        match self {
            StrobeMode::Absent => true,
            StrobeMode::Transfer(b) => *b,
            StrobeMode::Lane(lanes) => {
                let mut i: usize = 0;
                while i < lanes.len()
                    invariant
                        i <= lanes@.len(),
                        self@ == StrobeModeView::Lane(lanes@),
                        forall|j: int| 0 <= j < i ==> #[trigger] lanes@[j],
                    decreases lanes@.len() - i,
                {
                    if !lanes[i] {
                        assert(!lanes@[i as int]);
                        assert(self@ is Lane);
                        assert(self@->Lane_0 == lanes@);
                        assert(!self@.all_high());
                        return false;
                    }
                    i = i + 1;
                }
                true
            },
        }
    }
}

/// The model of a physical transfer.
pub struct PhysicalTransferView {
    pub complexity: Seq<u32>,
    pub holds_valid: HoldValidRule,
    pub element_lanes: nat,
    pub element_size: nat,
    pub data: Option<Seq<Option<ElementValue>>>,
    pub dimensionality: nat,
    pub last: LastModeView,
    pub start_index: IndexMode,
    pub end_index: IndexMode,
    pub strobe: StrobeModeView,
    pub user_size: nat,
    pub user: Option<Option<ElementValue>>,
}

/// The signals of one transfer on a physical stream with the given
/// complexity, number of element lanes (N), element size, dimensionality and
/// user size.
#[derive(Debug, PartialEq, Eq, Hash)]
pub struct PhysicalTransfer {
    complexity: Complexity,
    holds_valid: HoldValidRule,
    element_lanes: Positive,
    element_size: u32,
    data: Option<Vec<Option<ElementType>>>,
    dimensionality: u32,
    last: LastMode,
    start_index: IndexMode,
    end_index: IndexMode,
    strobe: StrobeMode,
    user_size: u32,
    user: Option<Option<ElementType>>,
}

pub open spec fn data_view(d: Option<Vec<Option<ElementType>>>) -> Option<Seq<Option<ElementValue>>> {
    match d {
        Some(v) => Some(v@.map_values(|e: Option<ElementType>| opt_view(e))),
        None => None,
    }
}

pub open spec fn user_view(u: Option<Option<ElementType>>) -> Option<Option<ElementValue>> {
    match u {
        Some(e) => Some(opt_view(e)),
        None => None,
    }
}

impl View for PhysicalTransfer {
    type V = PhysicalTransferView;

    closed spec fn view(&self) -> PhysicalTransferView {
        PhysicalTransferView {
            complexity: self.complexity@,
            holds_valid: self.holds_valid,
            element_lanes: self.element_lanes.spec_value() as nat,
            element_size: self.element_size as nat,
            data: data_view(self.data),
            dimensionality: self.dimensionality as nat,
            last: self.last@,
            start_index: self.start_index,
            end_index: self.end_index,
            strobe: self.strobe@,
            user_size: self.user_size as nat,
            user: user_view(self.user),
        }
    }
}

/// How `valid` is held at complexity major level `c`.
pub open spec fn hold_rule_for(c: u32) -> HoldValidRule {
    if c < 2 {
        HoldValidRule::WholeSequence(false)
    } else if c < 3 {
        HoldValidRule::InnerSequence(false)
    } else {
        HoldValidRule::NoHold
    }
}

/// The `last` signalling a stream with `n` lanes, dimensionality `d` and
/// complexity major level `c` starts out with: all dimensions closed, per
/// lane at complexity 8 or more.
pub open spec fn initial_last(c: u32, n: nat, d: nat) -> LastModeView {
    if d >= 1 {
        if c >= 8 {
            LastModeView::Lane(Seq::new(n, |i: int| Some(0..((d - 1) as u32))))
        } else {
            LastModeView::Transfer(Some(0..((d - 1) as u32)))
        }
    } else {
        LastModeView::Absent
    }
}

/// The strobe a stream starts out with: all high, per lane at complexity 7
/// or more, absent without dimensionality below that.
pub open spec fn initial_strobe(c: u32, n: nat, d: nat) -> StrobeModeView {
    if c >= 7 {
        StrobeModeView::Lane(Seq::new(n, |i: int| true))
    } else if d >= 1 {
        StrobeModeView::Transfer(true)
    } else {
        StrobeModeView::Absent
    }
}

/// `stai` is supported when N > 1 and the complexity is 6 or more.
pub open spec fn has_stai(c: u32, n: nat) -> bool {
    n > 1 && c >= 6
}

/// `endi` is supported when N > 1 and either the stream has dimensionality
/// or the complexity is 5 or more.
pub open spec fn has_endi(c: u32, n: nat, d: nat) -> bool {
    n > 1 && (d >= 1 || c >= 5)
}

/// The kinds of `last`, `strb`, index and hold signalling agree with the
/// stream's properties.
pub open spec fn shape_ok(v: PhysicalTransferView) -> bool {
    let c = v.complexity[0];
    let n = v.element_lanes;
    let d = v.dimensionality;
    &&& v.complexity.len() > 0
    &&& 0 < n <= u32::MAX
    &&& match v.holds_valid {
        HoldValidRule::WholeSequence(_) => c < 2,
        HoldValidRule::InnerSequence(_) => 2 <= c < 3,
        HoldValidRule::NoHold => c >= 3,
    }
    &&& match v.last {
        LastModeView::Absent => d == 0,
        LastModeView::Transfer(_) => d >= 1 && c < 8,
        LastModeView::Lane(l) => d >= 1 && c >= 8 && l.len() == n,
    }
    &&& match v.strobe {
        StrobeModeView::Absent => d == 0 && c < 7,
        StrobeModeView::Transfer(_) => d >= 1 && c < 7,
        StrobeModeView::Lane(l) => c >= 7 && l.len() == n,
    }
    &&& (v.start_index is Index <==> has_stai(c, n))
    &&& (v.end_index is Index <==> has_endi(c, n, d))
    &&& (v.data matches Some(l) ==> l.len() <= n)
}

impl PhysicalTransfer {
    #[verifier::type_invariant]
    closed spec fn wf(self) -> bool {
        shape_ok(self@)
    }

    /// The signal kinds agree with the stream's properties.
    pub fn lemma_shape(&self)
        ensures
            shape_ok(self@),
    {
        proof {
            use_type_invariant(self);
        }
    }

    /// The default transfer for the given properties: no data (all lanes
    /// active, driven low), all dimensions closed, all strobes high, indices
    /// spanning all lanes, no user data, and `valid` not held.
    pub fn new(
        complexity: Complexity,
        element_lanes: Positive,
        max_element_size: u32,
        dimensionality: u32,
        max_user_size: u32,
    ) -> (r: PhysicalTransfer)
        ensures
            ({
                let c = complexity@[0];
                let n = element_lanes.spec_value() as nat;
                let d = dimensionality as nat;
                r@ == PhysicalTransferView {
                    complexity: complexity@,
                    holds_valid: hold_rule_for(c),
                    element_lanes: n,
                    element_size: max_element_size as nat,
                    data: None,
                    dimensionality: d,
                    last: initial_last(c, n, d),
                    start_index: if has_stai(c, n) {
                        IndexMode::Index(Some(0))
                    } else {
                        IndexMode::Unsupported
                    },
                    end_index: if has_endi(c, n, d) {
                        IndexMode::Index(Some((n - 1) as u32))
                    } else {
                        IndexMode::Unsupported
                    },
                    strobe: initial_strobe(c, n, d),
                    user_size: max_user_size as nat,
                    user: None,
                }
            }),
    {
        complexity.lemma_view();
        let c = complexity.major();
        let n = element_lanes.get();
        let last_mode = if dimensionality >= 1 {
            if c >= 8 {
                let mut v: Vec<Option<Range<u32>>> = Vec::new();
                let mut i: u32 = 0;
                while i < n
                    invariant
                        i <= n,
                        dimensionality >= 1,
                        v@ == Seq::new(i as nat, |j: int| Some(0..((dimensionality - 1) as u32))),
                    decreases n - i,
                {
                    v.push(Some(0..(dimensionality - 1)));
                    assert(v@ =~= Seq::new((i + 1) as nat, |j: int| Some(0..((dimensionality - 1) as u32))));
                    i = i + 1;
                }
                LastMode::Lane(v)
            } else {
                LastMode::Transfer(Some(0..(dimensionality - 1)))
            }
        } else {
            LastMode::Absent
        };
        let start_index = if n > 1 && c >= 6 {
            IndexMode::Index(Some(0))
        } else {
            IndexMode::Unsupported
        };
        let end_index = if n > 1 && (dimensionality >= 1 || c >= 5) {
            IndexMode::Index(Some(n - 1))
        } else {
            IndexMode::Unsupported
        };
        let strobe = if c >= 7 {
            let mut v: Vec<bool> = Vec::new();
            let mut i: u32 = 0;
            while i < n
                invariant
                    i <= n,
                    v@ == Seq::new(i as nat, |j: int| true),
                decreases n - i,
            {
                v.push(true);
                assert(v@ =~= Seq::new((i + 1) as nat, |j: int| true));
                i = i + 1;
            }
            StrobeMode::Lane(v)
        } else if dimensionality >= 1 {
            StrobeMode::Transfer(true)
        } else {
            StrobeMode::Absent
        };
        let holds_valid = if c < 3 {
            if c < 2 {
                HoldValidRule::WholeSequence(false)
            } else {
                HoldValidRule::InnerSequence(false)
            }
        } else {
            HoldValidRule::NoHold
        };
        PhysicalTransfer {
            complexity,
            holds_valid,
            element_lanes,
            element_size: max_element_size,
            data: None,
            dimensionality,
            last: last_mode,
            start_index,
            end_index,
            strobe,
            user_size: max_user_size,
            user: None,
        }
    }

    pub fn complexity(&self) -> (r: &Complexity)
        ensures
            r@ == self@.complexity,
    {
        &self.complexity
    }

    /// Whether this transfer keeps `valid` held high afterwards.
    pub fn holds_valid(&self) -> (r: bool)
        ensures
            r == match self@.holds_valid {
                HoldValidRule::NoHold => false,
                HoldValidRule::WholeSequence(v) => v,
                HoldValidRule::InnerSequence(v) => v,
            },
    {
        match &self.holds_valid {
            HoldValidRule::NoHold => false,
            HoldValidRule::WholeSequence(val) => *val,
            HoldValidRule::InnerSequence(val) => *val,
        }
    }

    pub fn element_lanes(&self) -> (r: Positive)
        ensures
            r.spec_value() == self@.element_lanes,
    {
        self.element_lanes
    }

    pub fn element_size(&self) -> (r: u32)
        ensures
            r == self@.element_size,
    {
        self.element_size
    }

    pub fn data(&self) -> (r: &Option<Vec<Option<ElementType>>>)
        ensures
            data_view(*r) == self@.data,
    {
        &self.data
    }

    pub fn dimensionality(&self) -> (r: u32)
        ensures
            r == self@.dimensionality,
    {
        self.dimensionality
    }

    pub fn last(&self) -> (r: &LastMode)
        ensures
            r@ == self@.last,
    {
        &self.last
    }

    pub fn start_index(&self) -> (r: &IndexMode)
        ensures
            *r == self@.start_index,
    {
        &self.start_index
    }

    pub fn end_index(&self) -> (r: &IndexMode)
        ensures
            *r == self@.end_index,
    {
        &self.end_index
    }

    pub fn strobe(&self) -> (r: &StrobeMode)
        ensures
            r@ == self@.strobe,
    {
        &self.strobe
    }

    pub fn user_size(&self) -> (r: u32)
        ensures
            r == self@.user_size,
    {
        self.user_size
    }

    pub fn user(&self) -> (r: &Option<Option<ElementType>>)
        ensures
            user_view(*r) == self@.user,
    {
        &self.user
    }
}

pub open spec fn lane_active(e: ElementView) -> bool {
    e.data is Some
}

/// No lane is active or closes dimensions after a lane that closes
/// dimensions, and, when `c_lt_4`, only active lanes close dimensions.
pub open spec fn last_per_transfer_ok(es: Seq<ElementView>, c_lt_4: bool) -> bool {
    &&& forall|i: int, j: int|
        0 <= i < j < es.len() && (#[trigger] es[i]).last is Some ==> !((#[trigger] es[j]).data is Some
            || es[j].last is Some)
    &&& c_lt_4 ==> forall|i: int|
        0 <= i < es.len() && (#[trigger] es[i]).last is Some ==> es[i].data is Some
}

/// The range closed by the first lane that closes dimensions, if any.
pub open spec fn first_last(es: Seq<ElementView>) -> Option<Range<u32>>
    decreases es.len(),
{
    if es.len() == 0 {
        None
    } else {
        match first_last(es.drop_last()) {
            Some(r) => Some(r),
            None => es.last().last,
        }
    }
}

/// The number of maximal runs of consecutive active lanes.
pub open spec fn active_runs(es: Seq<ElementView>) -> nat
    decreases es.len(),
{
    if es.len() == 0 {
        0
    } else {
        active_runs(es.drop_last()) + if es.last().data is Some && (es.len() == 1 || es[es.len()
            - 2].data is None) {
            1nat
        } else {
            0nat
        }
    }
}

/// The index of the first active lane, if any.
pub open spec fn first_active(es: Seq<ElementView>) -> Option<nat>
    decreases es.len(),
{
    if es.len() == 0 {
        None
    } else {
        match first_active(es.drop_last()) {
            Some(i) => Some(i),
            None => if es.last().data is Some {
                Some((es.len() - 1) as nat)
            } else {
                None
            },
        }
    }
}

/// The index of the last active lane, or 0 when none is active.
pub open spec fn last_active(es: Seq<ElementView>) -> nat
    decreases es.len(),
{
    if es.len() == 0 {
        0
    } else if es.last().data is Some {
        (es.len() - 1) as nat
    } else {
        last_active(es.drop_last())
    }
}

pub open spec fn any_active(es: Seq<ElementView>) -> bool {
    exists|i: int| 0 <= i < es.len() && (#[trigger] es[i]).data is Some
}

/// A lane has data of another size than `size`, or closes a dimension the
/// stream does not have.
pub open spec fn lane_error(e: ElementView, size: nat, d: nat) -> bool {
    ||| (e.data matches Some(v) && v.len() != size)
    ||| (e.last matches Some(r) && r.end >= d)
}

/// What is wrong with one lane: data of another size than the element
/// size, then a closed dimension the stream does not have.
pub open spec fn lane_messages(e: ElementView, size: nat, d: nat) -> Seq<Seq<char>> {
    let a: Seq<Seq<char>> = match e.data {
        Some(v) => if v.len() != size {
            seq![
                "Logical transfer contains an element with size "@ + crate::messages::decimal_spec(v.len())
                    + ", which does not match the expected element size "@
                    + crate::messages::decimal_spec(size) + "."@,
            ]
        } else {
            Seq::empty()
        },
        None => Seq::empty(),
    };
    let b: Seq<Seq<char>> = match e.last {
        Some(r) => if r.end >= d {
            seq![
                "Cannot assert an element or transfer as last in dimension "@
                    + crate::messages::decimal_spec(r.end as nat)
                    + ", physical stream has dimensionality "@ + crate::messages::decimal_spec(d) + "."@,
            ]
        } else {
            Seq::empty()
        },
        None => Seq::empty(),
    };
    a + b
}

/// What is wrong with the lanes, lane by lane.
pub open spec fn lanes_error_texts(es: Seq<ElementView>, size: nat, d: nat) -> Seq<Seq<char>>
    decreases es.len(),
{
    if es.len() == 0 {
        Seq::empty()
    } else {
        lanes_error_texts(es.drop_last(), size, d) + lane_messages(es.last(), size, d)
    }
}

pub open spec fn any_lane_error(es: Seq<ElementView>, size: nat, d: nat) -> bool {
    exists|i: int| 0 <= i < es.len() && lane_error(#[trigger] es[i], size, d)
}

pub open spec fn lane_data(es: Seq<ElementView>) -> Seq<Option<ElementValue>> {
    es.map_values(|e: ElementView| e.data)
}

pub open spec fn lane_lasts(es: Seq<ElementView>) -> Seq<Option<Range<u32>>> {
    es.map_values(|e: ElementView| e.last)
}

pub open spec fn lane_strobes(es: Seq<ElementView>) -> Seq<bool> {
    es.map_values(|e: ElementView| e.data is Some)
}

pub open spec fn opt_data_view(v: Seq<Option<ElementType>>) -> Seq<Option<ElementValue>> {
    v.map_values(|e: Option<ElementType>| opt_view(e))
}

proof fn lemma_first_last_some(es: Seq<ElementView>)
    ensures
        first_last(es) is Some <==> exists|i: int| 0 <= i < es.len() && (#[trigger] es[i]).last is Some,
    decreases es.len(),
{
    if es.len() > 0 {
        lemma_first_last_some(es.drop_last());
        if first_last(es.drop_last()) is Some {
            let i = choose|i: int| 0 <= i < es.drop_last().len() && (#[trigger] es.drop_last()[i]).last is Some;
            assert(es[i] == es.drop_last()[i]);
        }
        assert(es.last() == es[es.len() - 1]);
        if exists|i: int| 0 <= i < es.len() && (#[trigger] es[i]).last is Some {
            let i = choose|i: int| 0 <= i < es.len() && (#[trigger] es[i]).last is Some;
            if i < es.len() - 1 {
                assert(es.drop_last()[i] == es[i]);
            }
        }
    }
}

proof fn lemma_active_bounds(es: Seq<ElementView>)
    ensures
        first_active(es) matches Some(k) ==> k < es.len(),
        es.len() == 0 ==> last_active(es) == 0,
        es.len() > 0 ==> last_active(es) < es.len(),
    decreases es.len(),
{
    if es.len() > 0 {
        lemma_active_bounds(es.drop_last());
    }
}

/// What scanning the lanes of a logical transfer found.
struct LaneScan {
    data_vec: Vec<Option<ElementType>>,
    last_vec: Vec<Option<Range<u32>>>,
    strobe: Vec<bool>,
    /// 0 when the lanes meet `last_per_transfer_ok`, otherwise which rule
    /// was broken last.
    last_error: u8,
    transfer_last: Option<Range<u32>>,
    pos_edge: usize,
    transfer_strobe: bool,
    start_index: Option<usize>,
    end_index: usize,
    errs: Vec<String>,
}

fn scan_lanes(elements: &Vec<Element>, element_size: u32, d: u32, c_lt_4: bool) -> (r: LaneScan)
    requires
        forall|i: int|
            0 <= i < elements@.len() ==> ((#[trigger] elements@[i])@.data matches Some(v) ==> v.len()
                <= usize::MAX),
    ensures
        ({
            let es = lanes_view(elements@);
            &&& opt_data_view(r.data_vec@) == lane_data(es)
            &&& r.last_vec@ == lane_lasts(es)
            &&& r.strobe@ == lane_strobes(es)
            &&& (r.last_error == 0) == last_per_transfer_ok(es, c_lt_4)
            &&& r.last_error == last_code(es, c_lt_4)
            &&& r.last_error == 0 ==> r.transfer_last == first_last(es)
            &&& r.pos_edge == active_runs(es)
            &&& r.transfer_strobe == any_active(es)
            &&& r.start_index == match first_active(es) {
                Some(i) => Some(i as usize),
                None => None::<usize>,
            }
            &&& r.end_index == last_active(es)
            &&& (r.errs@.len() > 0) == any_lane_error(es, element_size as nat, d as nat)
            &&& r.errs@.map_values(|t: String| t@) == lanes_error_texts(es, element_size as nat, d as nat)
        }),
{
    let ghost es = lanes_view(elements@);
    assert(es.take(0) =~= Seq::<ElementView>::empty());
    let mut data_vec: Vec<Option<ElementType>> = Vec::new();
    let mut last_vec: Vec<Option<Range<u32>>> = Vec::new();
    let mut strobe: Vec<bool> = Vec::new();
    let mut last_error: u8 = 0;
    let mut transfer_last: Option<Range<u32>> = None;
    let mut pos_edge: usize = 0;
    let mut prev_neg = true;
    let mut transfer_strobe = false;
    let mut start_index: Option<usize> = None;
    let mut end_index: usize = 0;
    let mut errs: Vec<String> = Vec::new();
    let mut idx: usize = 0;
    while idx < elements.len()
        invariant
            es == lanes_view(elements@),
            es.len() == elements@.len(),
            forall|i: int|
                0 <= i < elements@.len() ==> ((#[trigger] elements@[i])@.data matches Some(v)
                    ==> v.len() <= usize::MAX),
            idx <= es.len(),
            data_vec@.len() == idx,
            opt_data_view(data_vec@) == lane_data(es.take(idx as int)),
            last_vec@ == lane_lasts(es.take(idx as int)),
            strobe@ == lane_strobes(es.take(idx as int)),
            (last_error == 0) == last_per_transfer_ok(es.take(idx as int), c_lt_4),
            last_error == last_code(es.take(idx as int), c_lt_4),
            last_error == 0 ==> transfer_last == first_last(es.take(idx as int)),
            pos_edge == active_runs(es.take(idx as int)),
            pos_edge <= idx,
            prev_neg == (idx == 0 || es[idx - 1].data is None),
            transfer_strobe == any_active(es.take(idx as int)),
            start_index == match first_active(es.take(idx as int)) {
                Some(i) => Some(i as usize),
                None => None::<usize>,
            },
            end_index == last_active(es.take(idx as int)),
            (errs@.len() > 0) == any_lane_error(es.take(idx as int), element_size as nat, d as nat),
            errs@.map_values(|t: String| t@) == lanes_error_texts(
                es.take(idx as int),
                element_size as nat,
                d as nat,
            ),
        decreases es.len() - idx,
    {
        let ghost p = es.take(idx as int);
        let ghost q = es.take(idx + 1);
        let element = &elements[idx];
        let ghost e = es[idx as int];
        assert(e == element@);
        assert(q.drop_last() =~= p);
        assert(q.last() == e);
        proof {
            lemma_first_last_some(p);
        }
        let ghost old_last_error = last_error;
        let ghost old_errs_len = errs@.len();
        let ghost old_texts = errs@.map_values(|t: String| t@);
        let data = match element.data() {
            Some(data) => {
                let n = data.len();
                if n != element_size as usize {
                    let a = dec(n as u64);
                    let b = dec(element_size as u64);
                    let ghost before = errs@;
                    errs.push(
                        text5(
                            "Logical transfer contains an element with size ",
                            a.as_str(),
                            ", which does not match the expected element size ",
                            b.as_str(),
                            ".",
                        ),
                    );
                    proof {
                        assert(errs@.map_values(|t: String| t@) =~= before.map_values(|t: String| t@).push(
                            errs@.last()@,
                        ));
                    }
                }
                if last_error == 0 && transfer_last.is_some() {
                    last_error = 1;
                }
                if start_index.is_none() {
                    start_index = Some(idx);
                }
                end_index = idx;
                if prev_neg {
                    pos_edge = pos_edge + 1;
                    prev_neg = false;
                }
                transfer_strobe = true;
                strobe.push(true);
                Some(data.clone())
            },
            None => {
                prev_neg = true;
                strobe.push(false);
                None
            },
        };
        match element.last() {
            Some(last_range) => {
                if last_range.end >= d {
                    let a = dec(last_range.end as u64);
                    let b = dec(d as u64);
                    let ghost before = errs@;
                    errs.push(
                        text5(
                            "Cannot assert an element or transfer as last in dimension ",
                            a.as_str(),
                            ", physical stream has dimensionality ",
                            b.as_str(),
                            ".",
                        ),
                    );
                    proof {
                        assert(errs@.map_values(|t: String| t@) =~= before.map_values(|t: String| t@).push(
                            errs@.last()@,
                        ));
                    }
                }
                if element.data().is_none() && c_lt_4 {
                    last_error = 2;
                }
                if last_error == 0 {
                    if transfer_last.is_none() {
                        transfer_last = Some(copy_range(last_range));
                    } else {
                        last_error = 3;
                    }
                }
            },
            None => {},
        }
        assert(opt_view(data) == e.data);
        let ghost old_dv = data_vec@;
        data_vec.push(data);
        assert(data_vec@ == old_dv.push(data));
        assert(opt_data_view(old_dv) =~= lane_data(p));
        last_vec.push(copy_opt_range(element.last()));
        proof {
            assert(old_dv.len() == idx);
            assert forall|j: int| 0 <= j < q.len() implies #[trigger] opt_data_view(data_vec@)[j] == lane_data(q)[j] by {
                if j < idx {
                    assert(opt_data_view(old_dv)[j] == lane_data(p)[j]);
                    assert(p[j] == q[j]);
                    assert(data_vec@[j] == old_dv[j]);
                } else {
                    assert(data_vec@[j] == data);
                }
            }
            assert(opt_data_view(data_vec@) =~= lane_data(q));
            assert(last_vec@ =~= lane_lasts(q));
            assert(strobe@ =~= lane_strobes(q));
            // any_active
            if e.data is Some {
                assert(q[idx as int].data is Some);
            }
            if any_active(p) {
                let i = choose|i: int| 0 <= i < p.len() && (#[trigger] p[i]).data is Some;
                assert(q[i] == p[i]);
            }
            if any_active(q) {
                let i = choose|i: int| 0 <= i < q.len() && (#[trigger] q[i]).data is Some;
                if i < idx {
                    assert(p[i] == q[i]);
                }
            }
            // lane errors
            if any_lane_error(p, element_size as nat, d as nat) {
                let i = choose|i: int| 0 <= i < p.len() && lane_error(#[trigger] p[i], element_size as nat, d as nat);
                assert(q[i] == p[i]);
            }
            if lane_error(e, element_size as nat, d as nat) {
                assert(lane_error(q[idx as int], element_size as nat, d as nat));
            }
            if any_lane_error(q, element_size as nat, d as nat) {
                let i = choose|i: int| 0 <= i < q.len() && lane_error(#[trigger] q[i], element_size as nat, d as nat);
                if i < idx {
                    assert(p[i] == q[i]);
                }
            }
            // last rules
            if last_per_transfer_ok(q, c_lt_4) {
                assert forall|i: int, j: int|
                    0 <= i < j < p.len() && (#[trigger] p[i]).last is Some implies !((#[trigger] p[j]).data is Some
                        || p[j].last is Some) by {
                    assert(q[i] == p[i] && q[j] == p[j]);
                }
                assert forall|i: int| c_lt_4 && 0 <= i < p.len() && (#[trigger] p[i]).last is Some implies p[i].data is Some by {
                    assert(q[i] == p[i]);
                }
                assert(last_per_transfer_ok(p, c_lt_4));
                if first_last(p) is Some {
                    let i = choose|i: int| 0 <= i < p.len() && (#[trigger] p[i]).last is Some;
                    assert(q[i] == p[i]);
                    assert(q[idx as int] == e);
                }
                if e.last is Some && c_lt_4 {
                    assert(q[idx as int] == e);
                }
            }
            if old_last_error == 0 && last_error == 0 {
                assert forall|i: int, j: int|
                    0 <= i < j < q.len() && (#[trigger] q[i]).last is Some implies !((#[trigger] q[j]).data is Some
                        || q[j].last is Some) by {
                    if j < idx {
                        assert(q[i] == p[i] && q[j] == p[j]);
                    } else {
                        assert(p[i] == q[i]);
                    }
                }
                assert forall|i: int| c_lt_4 && 0 <= i < q.len() && (#[trigger] q[i]).last is Some implies q[i].data is Some by {
                    if i < idx {
                        assert(q[i] == p[i]);
                    }
                }
            }
        }
        idx = idx + 1;
    }
    assert(es.take(es.len() as int) =~= es);
    LaneScan {
        data_vec,
        last_vec,
        strobe,
        last_error,
        transfer_last,
        pos_edge,
        transfer_strobe,
        start_index,
        end_index,
        errs,
    }
}

/// `v` padded with `None` up to length `n`.
pub open spec fn pad_none(v: Seq<Option<Range<u32>>>, n: nat) -> Seq<Option<Range<u32>>> {
    v + Seq::new((n - v.len()) as nat, |i: int| None::<Range<u32>>)
}

/// `v` padded with `false` up to length `n`.
pub open spec fn pad_false(v: Seq<bool>, n: nat) -> Seq<bool> {
    v + Seq::new((n - v.len()) as nat, |i: int| false)
}

/// The transfer after an empty sequence closing the dimensions of `last`, or
/// none when the stream does not have those dimensions.
pub open spec fn empty_result(
    pt: PhysicalTransferView,
    last: Range<u32>,
    user: Option<ElementValue>,
) -> Option<PhysicalTransferView> {
    let d = pt.dimensionality;
    if last.end >= d || pt.last is Absent {
        None
    } else {
        Some(
            PhysicalTransferView {
                complexity: pt.complexity,
                holds_valid: match pt.holds_valid {
                    HoldValidRule::WholeSequence(_) => HoldValidRule::WholeSequence(
                        last.end < d - 1,
                    ),
                    HoldValidRule::InnerSequence(_) => HoldValidRule::InnerSequence(false),
                    HoldValidRule::NoHold => HoldValidRule::NoHold,
                },
                element_lanes: pt.element_lanes,
                element_size: pt.element_size,
                data: Some(Seq::empty()),
                dimensionality: pt.dimensionality,
                last: match pt.last {
                    LastModeView::Absent => LastModeView::Absent,
                    LastModeView::Transfer(_) => LastModeView::Transfer(Some(last)),
                    LastModeView::Lane(l) => LastModeView::Lane(
                        pad_none(seq![Some(last)], l.len()),
                    ),
                },
                start_index: match pt.start_index {
                    IndexMode::Index(_) => IndexMode::Index(None),
                    IndexMode::Unsupported => IndexMode::Unsupported,
                },
                end_index: match pt.end_index {
                    IndexMode::Index(_) => IndexMode::Index(None),
                    IndexMode::Unsupported => IndexMode::Unsupported,
                },
                strobe: match pt.strobe {
                    StrobeModeView::Absent => StrobeModeView::Absent,
                    StrobeModeView::Transfer(_) => StrobeModeView::Transfer(false),
                    StrobeModeView::Lane(l) => StrobeModeView::Lane(Seq::new(l.len(), |i: int| false)),
                },
                user_size: pt.user_size,
                user: Some(user),
            },
        )
    }
}

/// The `last` signalling after the lanes `es`.
pub open spec fn lanes_last(pt: PhysicalTransferView, es: Seq<ElementView>) -> LastModeView {
    match pt.last {
        LastModeView::Absent => LastModeView::Absent,
        LastModeView::Transfer(_) => LastModeView::Transfer(first_last(es)),
        LastModeView::Lane(_) => LastModeView::Lane(pad_none(lane_lasts(es), pt.element_lanes)),
    }
}

/// The strobe after the lanes `es`.
pub open spec fn lanes_strobe(pt: PhysicalTransferView, es: Seq<ElementView>) -> StrobeModeView {
    match pt.strobe {
        StrobeModeView::Absent => StrobeModeView::Absent,
        StrobeModeView::Transfer(_) => StrobeModeView::Transfer(any_active(es)),
        StrobeModeView::Lane(_) => StrobeModeView::Lane(
            pad_false(lane_strobes(es), pt.element_lanes),
        ),
    }
}

/// The rule for holding `valid` after the lanes `es`: with one `last` per
/// transfer, a whole sequence is held until its outermost dimension closes
/// (a `last` ending at the outermost dimension releases it) and an inner
/// sequence until a dimension closes.
pub open spec fn lanes_holds(pt: PhysicalTransferView, es: Seq<ElementView>) -> HoldValidRule {
    match pt.last {
        LastModeView::Transfer(_) => match pt.holds_valid {
            HoldValidRule::WholeSequence(_) => HoldValidRule::WholeSequence(
                match first_last(es) {
                    Some(r) => r.end != pt.dimensionality - 1,
                    None => true,
                },
            ),
            HoldValidRule::InnerSequence(_) => HoldValidRule::InnerSequence(first_last(es) is None),
            HoldValidRule::NoHold => HoldValidRule::NoHold,
        },
        _ => pt.holds_valid,
    }
}

proof fn lemma_first_last_at(es: Seq<ElementView>)
    ensures
        first_last(es) matches Some(r) ==> exists|i: int|
            0 <= i < es.len() && (#[trigger] es[i]).last == Some(r),
        first_last(es) is None ==> forall|i: int| 0 <= i < es.len() ==> (#[trigger] es[i]).last is None,
    decreases es.len(),
{
    if es.len() > 0 {
        let p = es.drop_last();
        lemma_first_last_at(p);
        if first_last(p) is Some {
            let i = choose|i: int| 0 <= i < p.len() && (#[trigger] p[i]).last == first_last(p);
            assert(es[i] == p[i]);
        } else {
            assert(es.last() == es[es.len() - 1]);
            assert forall|i: int| 0 <= i < es.len() - 1 implies (#[trigger] es[i]).last is None by {
                assert(es[i] == p[i]);
            }
        }
    }
}

/// Whether `valid` is held after a transfer of the lanes `es` on a stream
/// with one `last` per transfer: below complexity 2 until a lane closes the
/// outermost dimension, at complexity 2 until a lane closes any dimension,
/// and from complexity 3 on never. Lanes closing dimensions are read from
/// the elements themselves: every lane with a `last` counts.
#[verifier::spinoff_prover]
pub proof fn lemma_lanes_hold_valid(pt: PhysicalTransferView, es: Seq<ElementView>, user: Option<
    ElementValue,
>)
    requires
        shape_ok(pt),
        lanes_result(pt, es, user) is Some,
    ensures
        pt.complexity[0] < 2 && pt.dimensionality >= 1 ==> lanes_result(pt, es, user)->0.holds_valid
            == HoldValidRule::WholeSequence(
            forall|i: int|
                0 <= i < es.len() ==> ((#[trigger] es[i]).last matches Some(r) ==> r.end
                    != pt.dimensionality - 1),
        ),
        2 <= pt.complexity[0] < 3 && pt.dimensionality >= 1 ==> lanes_result(pt, es, user)->0.holds_valid
            == HoldValidRule::InnerSequence(forall|i: int| 0 <= i < es.len() ==> (#[trigger] es[i]).last is None),
        pt.complexity[0] >= 3 ==> lanes_result(pt, es, user)->0.holds_valid == HoldValidRule::NoHold,
{
    lemma_first_last_at(es);
    if pt.dimensionality >= 1 && pt.complexity[0] < 3 {
        assert(pt.last is Transfer);
        assert(last_per_transfer_ok(es, pt.complexity[0] < 4));
        let d = pt.dimensionality;
        let all_ok = forall|i: int|
            0 <= i < es.len() ==> ((#[trigger] es[i]).last matches Some(r) ==> r.end != d - 1);
        match first_last(es) {
            Some(r) => {
                let k = choose|i: int| 0 <= i < es.len() && (#[trigger] es[i]).last == Some(r);
                assert forall|i: int| 0 <= i < es.len() && (#[trigger] es[i]).last is Some implies i
                    == k by {
                    if i < k {
                        assert(!(es[k].data is Some || es[k].last is Some));
                    } else if k < i {
                        assert(!(es[i].data is Some || es[i].last is Some));
                    }
                }
                if r.end != d - 1 {
                    assert(all_ok);
                } else {
                    assert(!all_ok);
                }
                assert(es[k].last is Some);
            },
            None => {
                assert(all_ok);
            },
        }
    }
}

proof fn lemma_first_active_at(es: Seq<ElementView>)
    ensures
        first_active(es) matches Some(k) ==> k < es.len() && es[k as int].data is Some && forall|j: int|
            0 <= j < k ==> (#[trigger] es[j]).data is None,
        first_active(es) is None ==> forall|j: int| 0 <= j < es.len() ==> (#[trigger] es[j]).data is None,
    decreases es.len(),
{
    if es.len() > 0 {
        let p = es.drop_last();
        lemma_first_active_at(p);
        assert forall|j: int| 0 <= j < p.len() implies p[j] == es[j] by {}
        assert(es.last() == es[es.len() - 1]);
    }
}

/// What a transfer of the lanes `es` drives, lane by lane: each lane's data
/// as given (and no more lanes), the `user` value, a strobe bit per lane
/// that is high exactly on the lanes with data (from complexity 7 on; below
/// it one strobe, high when any lane has data), the `last` of each lane
/// (from complexity 8 on; below it the one lane's `last`, or none), and a
/// start index, where driven, at the first lane with data.
#[verifier::spinoff_prover]
pub proof fn lemma_lanes_signals(pt: PhysicalTransferView, es: Seq<ElementView>, user: Option<
    ElementValue,
>)
    requires
        shape_ok(pt),
        lanes_result(pt, es, user) is Some,
    ensures
        ({
            let v = lanes_result(pt, es, user)->0;
            let n = pt.element_lanes;
            &&& v.data matches Some(d) && d.len() == es.len() && forall|i: int|
                0 <= i < es.len() ==> #[trigger] d[i] == es[i].data
            &&& v.user == Some(user)
            &&& pt.complexity[0] >= 7 ==> (v.strobe matches StrobeModeView::Lane(b) && b.len() == n
                && forall|i: int|
                0 <= i < n ==> #[trigger] b[i] == (i < es.len() && es[i].data is Some))
            &&& (pt.complexity[0] < 7 && pt.dimensionality >= 1) ==> v.strobe
                == StrobeModeView::Transfer(exists|i: int| 0 <= i < es.len() && (#[trigger] es[i]).data is Some)
            &&& (pt.complexity[0] >= 8 && pt.dimensionality >= 1) ==> (v.last matches LastModeView::Lane(l)
                && l.len() == n && forall|i: int|
                0 <= i < n ==> #[trigger] l[i] == if i < es.len() {
                    es[i].last
                } else {
                    None
                })
            &&& (pt.complexity[0] < 8 && pt.dimensionality >= 1) ==> (v.last matches LastModeView::Transfer(
                x,
            ) && (x is None <==> forall|i: int| 0 <= i < es.len() ==> (#[trigger] es[i]).last is None)
                && (x matches Some(r) ==> exists|i: int| 0 <= i < es.len() && (#[trigger] es[i]).last == Some(r)))
            &&& (v.start_index matches IndexMode::Index(Some(k)) ==> k < es.len() && es[k as int].data is Some
                && forall|j: int| 0 <= j < k ==> (#[trigger] es[j]).data is None)
        }),
{
    lemma_first_last_at(es);
    lemma_first_active_at(es);
    let v = lanes_result(pt, es, user)->0;
    let n = pt.element_lanes;
    if pt.complexity[0] >= 7 {
        let b = pad_false(lane_strobes(es), n);
        assert forall|i: int| 0 <= i < n implies #[trigger] b[i] == (i < es.len() && es[i].data is Some) by {
            if i < es.len() {
                assert(b[i] == lane_strobes(es)[i]);
            }
        }
    }
    if pt.complexity[0] >= 8 && pt.dimensionality >= 1 {
        let l = pad_none(lane_lasts(es), n);
        assert forall|i: int| 0 <= i < n implies #[trigger] l[i] == if i < es.len() {
            es[i].last
        } else {
            None
        } by {
            if i < es.len() {
                assert(l[i] == lane_lasts(es)[i]);
            }
        }
    }
    if first_last(es) is None {
    } else {
        lemma_first_last_some(es);
    }
}

/// An empty sequence closes a dimension: it releases `valid` at complexity
/// 2, and below complexity 2 exactly when it closes the outermost one.
pub proof fn lemma_empty_hold_valid(pt: PhysicalTransferView, last: Range<u32>, user: Option<
    ElementValue,
>)
    requires
        shape_ok(pt),
        empty_result(pt, last, user) is Some,
    ensures
        pt.complexity[0] < 2 ==> empty_result(pt, last, user)->0.holds_valid
            == HoldValidRule::WholeSequence(last.end != pt.dimensionality - 1),
        2 <= pt.complexity[0] < 3 ==> empty_result(pt, last, user)->0.holds_valid
            == HoldValidRule::InnerSequence(false),
        pt.complexity[0] >= 3 ==> empty_result(pt, last, user)->0.holds_valid == HoldValidRule::NoHold,
{
}

/// The lanes `es` cannot be transferred: too many lanes, a lane of the wrong
/// size or closing a missing dimension, `last` not expressible per transfer,
/// more than one run of active lanes with one strobe per transfer, a first
/// active lane other than 0 without `stai`, a last active lane other than 0
/// without `endi`, or (below complexity 4) empty trailing lanes on a transfer
/// that does not close an innermost sequence.
pub open spec fn lanes_fail(pt: PhysicalTransferView, es: Seq<ElementView>) -> bool {
    let c = pt.complexity[0];
    let n = pt.element_lanes;
    ||| es.len() > n
    ||| any_lane_error(es, pt.element_size, pt.dimensionality)
    ||| (pt.last is Transfer && !last_per_transfer_ok(es, c < 4))
    ||| (pt.strobe is Transfer && active_runs(es) >= 2)
    ||| (pt.start_index is Unsupported && (first_active(es) matches Some(k) && k > 0))
    ||| (pt.end_index is Unsupported && last_active(es) > 0)
    ||| (pt.end_index is Index && lanes_strobe(pt, es).all_high() && c < 4 && last_active(es) + 1
        < n && !lanes_last(pt, es).last_inner())
}

/// The transfer after the lanes `es`, or none when they cannot be
/// transferred.
pub open spec fn lanes_result(
    pt: PhysicalTransferView,
    es: Seq<ElementView>,
    user: Option<ElementValue>,
) -> Option<PhysicalTransferView> {
    let high = lanes_strobe(pt, es).all_high();
    if lanes_fail(pt, es) {
        None
    } else {
        Some(
            PhysicalTransferView {
                complexity: pt.complexity,
                holds_valid: lanes_holds(pt, es),
                element_lanes: pt.element_lanes,
                element_size: pt.element_size,
                data: Some(lane_data(es)),
                dimensionality: pt.dimensionality,
                last: lanes_last(pt, es),
                start_index: match pt.start_index {
                    IndexMode::Unsupported => IndexMode::Unsupported,
                    IndexMode::Index(_) => IndexMode::Index(
                        if high {
                            match first_active(es) {
                                Some(k) => Some(k as u32),
                                None => None,
                            }
                        } else {
                            None
                        },
                    ),
                },
                end_index: match pt.end_index {
                    IndexMode::Unsupported => IndexMode::Unsupported,
                    IndexMode::Index(_) => IndexMode::Index(
                        if high {
                            Some(last_active(es) as u32)
                        } else {
                            None
                        },
                    ),
                },
                strobe: lanes_strobe(pt, es),
                user_size: pt.user_size,
                user: Some(user),
            },
        )
    }
}

/// Which rule for `last` signalled per transfer the lanes break, 0 for
/// none: 1 for active data after a lane that closed dimensions, 2 (below
/// complexity 4) for dimensions closed on an inactive lane, 3 for a second
/// lane closing dimensions; where several are broken, the one found at the
/// latest lane, 2 before 3.
pub open spec fn last_code(es: Seq<ElementView>, c_lt_4: bool) -> u8
    decreases es.len(),
{
    if es.len() == 0 {
        0
    } else {
        let p = es.drop_last();
        let e = es.last();
        let le = last_code(p, c_lt_4);
        let le1: u8 = if e.data is Some && le == 0 && first_last(p) is Some {
            1
        } else {
            le
        };
        if e.last is Some {
            let le2: u8 = if e.data is None && c_lt_4 {
                2
            } else {
                le1
            };
            if le2 == 0 && first_last(p) is Some {
                3
            } else {
                le2
            }
        } else {
            le1
        }
    }
}

/// A complexity in words: its levels separated by dots.
pub open spec fn complexity_text(c: Seq<u32>) -> Seq<char> {
    crate::messages::join_spec(c.map_values(|l: u32| crate::messages::decimal_spec(l as nat)), "."@)
}

/// Why the lanes `es` cannot be transferred, checked in this order: too
/// many lanes, lanes of the wrong size or closing a missing dimension (all
/// of them listed), a broken rule for `last` per transfer, more than one run of active lanes with one strobe per
/// transfer, a first active lane other than 0 without `stai`, a last
/// active lane other than 0 without `endi`, or else empty trailing lanes
/// below complexity 4.
pub open spec fn lanes_message(pt: PhysicalTransferView, es: Seq<ElementView>) -> Seq<char> {
    let n = pt.element_lanes;
    let code = last_code(es, pt.complexity[0] < 4);
    if es.len() > n {
        "Cannot transfer "@ + crate::messages::decimal_spec(es.len()) + " elements. Physical stream has "@
            + crate::messages::decimal_spec(n) + " lanes."@
    } else if any_lane_error(es, pt.element_size, pt.dimensionality) {
        "One or more errors in logical transfer:\n"@ + crate::messages::join_spec(
            lanes_error_texts(es, pt.element_size, pt.dimensionality),
            "\n"@,
        )
    } else if pt.last is Transfer && code == 1 {
        "Logical transfer contains an element with active data after an element was asserted last in a sequence.\nThe physical stream only supports dimension information per transfer."@
    } else if pt.last is Transfer && code == 2 {
        "Cannot assert dimensionality on inactive data (cannot postpone last signals).\nPhysical stream has complexity "@
            + complexity_text(pt.complexity)
            + " (< 4).\nIf this is an empty sequence, use the `EmptySequence` LogicalTransfer."@
    } else if pt.last is Transfer && code != 0 {
        "Cannot assert dimensionality on more than one element lane. Physical stream has complexity "@
            + complexity_text(pt.complexity) + " (< 8)."@
    } else if pt.strobe is Transfer && active_runs(es) >= 2 {
        "Physical stream does not support per-lane strobed data validity."@
    } else if pt.start_index is Unsupported && (first_active(es) matches Some(k) && k > 0) {
        "The physical stream requires that all transfers are aligned to lane 0, logical transfer has start index "@
            + crate::messages::decimal_spec(first_active(es)->0)
    } else if pt.end_index is Unsupported && last_active(es) > 0 {
        "This physical stream does not support end indices. (Spec issue: https://github.com/abs-tudelft/tydi/issues/226)"@
    } else {
        "Cannot leave element lanes empty, except when transferring the last element of an innermost sequence.\nPhysical stream has complexity "@
            + complexity_text(pt.complexity) + " (< 4)."@
    }
}

/// Why an empty sequence closing `last` cannot be transferred: a dimension
/// the stream does not have, or no dimensionality at all.
pub open spec fn empty_message(pt: PhysicalTransferView, last: Range<u32>) -> Seq<char> {
    if last.end >= pt.dimensionality {
        "Cannot assert empty sequence as last in dimension "@ + crate::messages::decimal_spec(
            last.end as nat,
        ) + ", as this physical stream has a dimensionality of "@ + crate::messages::decimal_spec(
            pt.dimensionality,
        ) + "."@
    } else {
        "Attempted to transfer an empty sequence, but physical stream has no dimensionality."@
    }
}

/// Why the logical transfer `t` cannot be transferred.
pub open spec fn transfer_message(pt: PhysicalTransferView, t: LogicalTransferView) -> Seq<char> {
    match t.data {
        LogicalDataView::EmptySequence(r) => empty_message(pt, r),
        LogicalDataView::Lanes(es) => lanes_message(pt, es),
    }
}


/// The transfer after the logical transfer `t`, or none when `t` cannot be
/// transferred.
pub open spec fn transfer_result(pt: PhysicalTransferView, t: LogicalTransferView) -> Option<
    PhysicalTransferView,
> {
    match t.data {
        LogicalDataView::EmptySequence(r) => empty_result(pt, r, t.user),
        LogicalDataView::Lanes(es) => lanes_result(pt, es, t.user),
    }
}

/// The data of every active lane fits a `usize` length.
pub open spec fn lanes_fit(t: LogicalTransferView) -> bool {
    t.data matches LogicalDataView::Lanes(es) ==> forall|i: int|
        0 <= i < es.len() ==> ((#[trigger] es[i]).data matches Some(v) ==> v.len() <= usize::MAX)
}


fn clone_opt_element(o: &Option<ElementType>) -> (r: Option<ElementType>)
    ensures
        opt_view(r) == opt_view(*o),
{
    match o {
        Some(e) => Some(e.clone()),
        None => None,
    }
}

impl Clone for PhysicalTransfer {
    fn clone(&self) -> (r: Self)
        ensures
            r@ == self@,
    {
        proof {
            use_type_invariant(self);
        }
        let data = match &self.data {
            Some(v) => {
                let mut out: Vec<Option<ElementType>> = Vec::new();
                let mut i: usize = 0;
                while i < v.len()
                    invariant
                        i <= v@.len(),
                        out@.len() == i,
                        out@.map_values(|e: Option<ElementType>| opt_view(e)) == v@.take(
                            i as int,
                        ).map_values(|e: Option<ElementType>| opt_view(e)),
                    decreases v@.len() - i,
                {
                    let e = clone_opt_element(&v[i]);
                    let ghost before = out@;
                    out.push(e);
                    proof {
                        let a = out@.map_values(|e: Option<ElementType>| opt_view(e));
                        let b = v@.take(i + 1).map_values(|e: Option<ElementType>| opt_view(e));
                        assert forall|j: int| 0 <= j < i + 1 implies a[j] == b[j] by {
                            if j < i {
                                assert(out@[j] == before[j]);
                                assert(before.map_values(|e: Option<ElementType>| opt_view(e))[j]
                                    == v@.take(i as int).map_values(|e: Option<ElementType>| opt_view(e))[j]);
                            }
                        }
                        assert(a =~= b);
                    }
                    i = i + 1;
                }
                assert(v@.take(v@.len() as int) =~= v@);
                Some(out)
            },
            None => None,
        };
        let user = match &self.user {
            Some(u) => Some(clone_opt_element(u)),
            None => None,
        };
        PhysicalTransfer {
            complexity: self.complexity.clone(),
            holds_valid: self.holds_valid,
            element_lanes: self.element_lanes,
            element_size: self.element_size,
            data,
            dimensionality: self.dimensionality,
            last: self.last.clone(),
            start_index: self.start_index,
            end_index: self.end_index,
            strobe: self.strobe.clone(),
            user_size: self.user_size,
            user,
        }
    }
}

/// `v` padded with `None` up to `n` entries.
fn pad_lasts(v: Vec<Option<Range<u32>>>, n: usize) -> (r: Vec<Option<Range<u32>>>)
    requires
        v@.len() <= n,
    ensures
        r@ == pad_none(v@, n as nat),
{
    let ghost v0 = v@;
    let mut r = v;
    while r.len() < n
        invariant
            v0.len() <= r@.len() <= n,
            r@ == pad_none(v0, r@.len()),
        decreases n - r@.len(),
    {
        let ghost prev = r@;
        r.push(None);
        assert(r@ =~= pad_none(v0, r@.len()));
    }
    r
}

/// `v` padded with `false` up to `n` entries.
fn pad_strobes(v: Vec<bool>, n: usize) -> (r: Vec<bool>)
    requires
        v@.len() <= n,
    ensures
        r@ == pad_false(v@, n as nat),
{
    let ghost v0 = v@;
    let mut r = v;
    while r.len() < n
        invariant
            v0.len() <= r@.len() <= n,
            r@ == pad_false(v0, r@.len()),
        decreases n - r@.len(),
    {
        r.push(false);
        assert(r@ =~= pad_false(v0, r@.len()));
    }
    r
}

/// `n` in decimal.
fn text2(a: &str, b: &str) -> (r: String)
    ensures
        r@ == a@ + b@,
{
    let mut r = String::from_str(a);
    r.append(b);
    r
}

fn text3(a: &str, b: &str, c: &str) -> (r: String)
    ensures
        r@ == a@ + b@ + c@,
{
    let mut r = String::from_str(a);
    r.append(b);
    r.append(c);
    r
}

fn text5(a: &str, b: &str, c: &str, d: &str, e: &str) -> (r: String)
    ensures
        r@ == a@ + b@ + c@ + d@ + e@,
{
    let mut r = String::from_str(a);
    r.append(b);
    r.append(c);
    r.append(d);
    r.append(e);
    r
}

fn dec(n: u64) -> (r: String)
    ensures
        r@ == crate::messages::decimal_spec(n as nat),
{
    crate::messages::decimal(n)
}

impl PhysicalTransfer {
    /// Lays the logical transfer `transfer` out on this stream's signals, or
    /// reports with an `InvalidArgument` error why the stream cannot carry
    /// it (see `transfer_result`).
    pub fn with_logical_transfer(self, transfer: LogicalTransfer) -> (r: Result<
        PhysicalTransfer,
        Error,
    >)
        requires
            lanes_fit(transfer@),
        ensures
            match transfer_result(self@, transfer@) {
                Some(v) => (r matches Ok(p) && p@ == v),
                None => (r matches Err(e) && e is InvalidArgument),
            },
            r matches Err(e) ==> e->InvalidArgument_0@ == transfer_message(self@, transfer@),
    {
        let user = clone_opt_element(transfer.user());
        match transfer.data() {
            LogicalData::EmptySequence(last) => self.with_empty_sequence(copy_range(last), user),
            LogicalData::Lanes(elements) => {
                proof {
                    let es = lanes_view(elements@);
                    assert forall|i: int| 0 <= i < elements@.len() implies ((
                    #[trigger] elements@[i])@.data matches Some(v) ==> v.len() <= usize::MAX) by {
                        assert(es[i] == elements@[i]@);
                    }
                }
                self.with_lanes(elements, user)
            },
        }
    }

    fn with_empty_sequence(self, last: Range<u32>, user: Option<ElementType>) -> (r: Result<
        PhysicalTransfer,
        Error,
    >)
        ensures
            match empty_result(self@, last, opt_view(user)) {
                Some(v) => (r matches Ok(p) && p@ == v),
                None => (r matches Err(e) && e is InvalidArgument),
            },
            r matches Err(e) ==> e->InvalidArgument_0@ == empty_message(self@, last),
    {
        proof {
            use_type_invariant(&self);
        }
        let ghost pt = self@;
        let PhysicalTransfer {
            complexity,
            holds_valid,
            element_lanes,
            element_size,
            data: _,
            dimensionality,
            last: last_mode,
            start_index,
            end_index,
            strobe,
            user_size,
            user: _,
        } = self;
        if last.end >= dimensionality {
            let a = dec(last.end as u64);
            let b = dec(dimensionality as u64);
            return Err(
                Error::InvalidArgument(
                    text5(
                        "Cannot assert empty sequence as last in dimension ",
                        a.as_str(),
                        ", as this physical stream has a dimensionality of ",
                        b.as_str(),
                        ".",
                    ),
                ),
            );
        }
        let holds_valid = match holds_valid {
            HoldValidRule::WholeSequence(_) => HoldValidRule::WholeSequence(
                last.end < dimensionality - 1,
            ),
            HoldValidRule::InnerSequence(_) => HoldValidRule::InnerSequence(false),
            HoldValidRule::NoHold => HoldValidRule::NoHold,
        };
        let last_mode = match last_mode {
            LastMode::Absent => {
                return Err(
                    crate::error::invalid_argument(
                        "Attempted to transfer an empty sequence, but physical stream has no dimensionality.",
                    ),
                );
            },
            LastMode::Transfer(_) => LastMode::Transfer(Some(last.start..last.end)),
            LastMode::Lane(lanes) => {
                let mut v: Vec<Option<Range<u32>>> = Vec::new();
                v.push(Some(last.start..last.end));
                let v = pad_lasts(v, lanes.len());
                assert(v@.len() == lanes@.len());
                LastMode::Lane(v)
            },
        };
        let strobe = match strobe {
            StrobeMode::Absent => StrobeMode::Absent,
            StrobeMode::Transfer(_) => StrobeMode::Transfer(false),
            StrobeMode::Lane(lanes) => {
                let v = pad_strobes(Vec::new(), lanes.len());
                assert(v@ =~= Seq::new(lanes@.len(), |i: int| false));
                StrobeMode::Lane(v)
            },
        };
        let start_index = match start_index {
            IndexMode::Index(_) => IndexMode::Index(None),
            IndexMode::Unsupported => IndexMode::Unsupported,
        };
        let end_index = match end_index {
            IndexMode::Index(_) => IndexMode::Index(None),
            IndexMode::Unsupported => IndexMode::Unsupported,
        };
        let r = PhysicalTransfer {
            complexity,
            holds_valid,
            element_lanes,
            element_size,
            data: Some(Vec::new()),
            dimensionality,
            last: last_mode,
            start_index,
            end_index,
            strobe,
            user_size,
            user: Some(user),
        };
        assert(data_view(r.data) =~= Some(Seq::<Option<ElementValue>>::empty()));
        Ok(r)
    }
}


impl PhysicalTransfer {
    fn with_lanes(self, elements: &Vec<Element>, user: Option<ElementType>) -> (r: Result<
        PhysicalTransfer,
        Error,
    >)
        requires
            forall|i: int|
                0 <= i < elements@.len() ==> ((#[trigger] elements@[i])@.data matches Some(v)
                    ==> v.len() <= usize::MAX),
        ensures
            match lanes_result(self@, lanes_view(elements@), opt_view(user)) {
                Some(v) => (r matches Ok(p) && p@ == v),
                None => (r matches Err(e) && e is InvalidArgument),
            },
            r matches Err(e) ==> e->InvalidArgument_0@ == lanes_message(self@, lanes_view(elements@)),
    {
        proof {
            use_type_invariant(&self);
        }
        let ghost pt = self@;
        let ghost es = lanes_view(elements@);
        proof {
            lemma_active_bounds(es);
        }
        let PhysicalTransfer {
            complexity,
            holds_valid,
            element_lanes,
            element_size,
            data: _,
            dimensionality,
            last: last_mode,
            start_index,
            end_index,
            strobe,
            user_size,
            user: _,
        } = self;
        let n = element_lanes.get();
        if elements.len() > n as usize {
            let a = dec(elements.len() as u64);
            let b = dec(n as u64);
            return Err(
                Error::InvalidArgument(
                    text5("Cannot transfer ", a.as_str(), " elements. Physical stream has ", b.as_str(), " lanes."),
                ),
            );
        }
        complexity.lemma_view();
        let c = complexity.major();
        let comp_lt_4 = c < 4;
        let scan = scan_lanes(elements, element_size, dimensionality, comp_lt_4);
        let LaneScan {
            data_vec,
            last_vec,
            strobe: lane_strobe,
            last_error,
            transfer_last,
            pos_edge,
            transfer_strobe,
            start_index: first,
            end_index: last_index,
            errs,
        } = scan;
        if errs.len() > 0 {
            let all = join(&errs, "\n");
            return Err(Error::InvalidArgument(text2("One or more errors in logical transfer:\n", all.as_str())));
        }
        let (new_last, new_holds) = match last_mode {
            LastMode::Absent => (LastMode::Absent, holds_valid),
            LastMode::Transfer(_) => {
                if last_error == 1 {
                    return Err(
                        crate::error::invalid_argument(
                            "Logical transfer contains an element with active data after an element was asserted last in a sequence.\nThe physical stream only supports dimension information per transfer.",
                        ),
                    );
                } else if last_error == 2 {
                    let t = complexity.to_text();
                    return Err(
                        Error::InvalidArgument(
                            text3(
                                "Cannot assert dimensionality on inactive data (cannot postpone last signals).\nPhysical stream has complexity ",
                                t.as_str(),
                                " (< 4).\nIf this is an empty sequence, use the `EmptySequence` LogicalTransfer.",
                            ),
                        ),
                    );
                } else if last_error != 0 {
                    let t = complexity.to_text();
                    return Err(
                        Error::InvalidArgument(
                            text3(
                                "Cannot assert dimensionality on more than one element lane. Physical stream has complexity ",
                                t.as_str(),
                                " (< 8).",
                            ),
                        ),
                    );
                }
                let holds = match holds_valid {
                    HoldValidRule::WholeSequence(_) => HoldValidRule::WholeSequence(
                        match &transfer_last {
                            Some(r) => r.end != dimensionality - 1,
                            None => true,
                        },
                    ),
                    HoldValidRule::InnerSequence(_) => HoldValidRule::InnerSequence(
                        transfer_last.is_none(),
                    ),
                    HoldValidRule::NoHold => HoldValidRule::NoHold,
                };
                (LastMode::Transfer(transfer_last), holds)
            },
            LastMode::Lane(_) => (LastMode::Lane(pad_lasts(last_vec, n as usize)), holds_valid),
        };
        let new_strobe = match strobe {
            StrobeMode::Absent => StrobeMode::Absent,
            StrobeMode::Transfer(_) => {
                if pos_edge < 2 {
                    StrobeMode::Transfer(transfer_strobe)
                } else {
                    return Err(
                        crate::error::invalid_argument(
                            "Physical stream does not support per-lane strobed data validity.",
                        ),
                    );
                }
            },
            StrobeMode::Lane(_) => StrobeMode::Lane(pad_strobes(lane_strobe, n as usize)),
        };
        assert(new_strobe@ == lanes_strobe(pt, es));
        assert(new_last@ == lanes_last(pt, es));
        let high = new_strobe.all_high();
        let new_start = match start_index {
            IndexMode::Unsupported => {
                if let Some(k) = first {
                    if k > 0 {
                        let a = dec(k as u64);
                        return Err(
                            Error::InvalidArgument(
                                text2(
                                    "The physical stream requires that all transfers are aligned to lane 0, logical transfer has start index ",
                                    a.as_str(),
                                ),
                            ),
                        );
                    }
                }
                IndexMode::Unsupported
            },
            IndexMode::Index(_) => {
                if high {
                    match first {
                        Some(k) => IndexMode::Index(Some(k as u32)),
                        None => IndexMode::Index(None),
                    }
                } else {
                    IndexMode::Index(None)
                }
            },
        };
        let new_end = match end_index {
            IndexMode::Unsupported => {
                if last_index > 0 {
                    return Err(
                        crate::error::invalid_argument(
                            "This physical stream does not support end indices. (Spec issue: https://github.com/abs-tudelft/tydi/issues/226)",
                        ),
                    );
                }
                IndexMode::Unsupported
            },
            IndexMode::Index(_) => {
                if high {
                    let e = last_index as u32;
                    if comp_lt_4 && e < n - 1 && !new_last.last_inner() {
                        let t = complexity.to_text();
                        return Err(
                            Error::InvalidArgument(
                                text3(
                                    "Cannot leave element lanes empty, except when transferring the last element of an innermost sequence.\nPhysical stream has complexity ",
                                    t.as_str(),
                                    " (< 4).",
                                ),
                            ),
                        );
                    }
                    IndexMode::Index(Some(e))
                } else {
                    IndexMode::Index(None)
                }
            },
        };
        let r = PhysicalTransfer {
            complexity,
            holds_valid: new_holds,
            element_lanes,
            element_size,
            data: Some(data_vec),
            dimensionality,
            last: new_last,
            start_index: new_start,
            end_index: new_end,
            strobe: new_strobe,
            user_size,
            user: Some(user),
        };
        Ok(r)
    }
}


/// An optional range in words: `0..2` or `None`.
pub open spec fn range_text(r: Option<Range<u32>>) -> Seq<char> {
    match r {
        Some(r) => crate::messages::decimal_spec(r.start as nat) + ".."@ + crate::messages::decimal_spec(
            r.end as nat,
        ),
        None => "None"@,
    }
}

/// The `last` signalling in words: `None`, `Transfer(0..2)` or
/// `Lane(None, 0..1)`.
pub open spec fn last_text(l: LastModeView) -> Seq<char> {
    match l {
        LastModeView::Absent => "None"@,
        LastModeView::Transfer(r) => "Transfer("@ + range_text(r) + ")"@,
        LastModeView::Lane(v) => "Lane("@ + crate::messages::join_spec(
            v.map_values(|r: Option<Range<u32>>| range_text(r)),
            ", "@,
        ) + ")"@,
    }
}

/// Strobe bits as digits, lane 0 first.
pub open spec fn bits_text(v: Seq<bool>) -> Seq<char>
    decreases v.len(),
{
    if v.len() == 0 {
        Seq::empty()
    } else {
        bits_text(v.drop_last()) + if v.last() {
            "1"@
        } else {
            "0"@
        }
    }
}

/// The strobe in words: `None`, `Transfer(true)` or `Lane("101")`.
pub open spec fn strobe_text(s: StrobeModeView) -> Seq<char> {
    match s {
        StrobeModeView::Absent => "None"@,
        StrobeModeView::Transfer(b) => if b {
            "Transfer(true)"@
        } else {
            "Transfer(false)"@
        },
        StrobeModeView::Lane(v) => "Lane(\""@ + bits_text(v) + "\")"@,
    }
}

fn opt_range_text(r: &Option<Range<u32>>) -> (t: String)
    ensures
        t@ == range_text(*r),
{
    match r {
        Some(r) => {
            let mut t = crate::messages::decimal(r.start as u64);
            t.append("..");
            let e = crate::messages::decimal(r.end as u64);
            t.append(e.as_str());
            t
        },
        None => String::from_str("None"),
    }
}

impl LastMode {
    /// The signalling in words: `None`, `Transfer(0..2)` or
    /// `Lane(None, 0..1)`.
    pub fn text(&self) -> (t: String)
        ensures
            t@ == last_text(self@),
    {
        match self {
            LastMode::Absent => String::from_str("None"),
            LastMode::Transfer(r) => {
                let mut t = String::from_str("Transfer(");
                let x = opt_range_text(r);
                t.append(x.as_str());
                t.append(")");
                t
            },
            LastMode::Lane(v) => {
                let ghost texts = v@.map_values(|r: Option<Range<u32>>| range_text(r));
                let mut t = String::from_str("Lane(");
                let mut i: usize = 0;
                proof {
                    assert(texts.take(0) =~= Seq::<Seq<char>>::empty());
                }
                while i < v.len()
                    invariant
                        i <= v@.len(),
                        texts == v@.map_values(|r: Option<Range<u32>>| range_text(r)),
                        t@ == "Lane("@ + crate::messages::join_spec(texts.take(i as int), ", "@),
                    decreases v@.len() - i,
                {
                    proof {
                        assert(texts.take(i + 1).drop_last() =~= texts.take(i as int));
                        assert(texts.take(i + 1).last() == texts[i as int]);
                        if i == 0 {
                            assert(texts.take(1) =~= seq![texts[0]]);
                        }
                    }
                    if i > 0 {
                        t.append(", ");
                    }
                    let x = opt_range_text(&v[i]);
                    t.append(x.as_str());
                    proof {
                        assert(t@ =~= "Lane("@ + crate::messages::join_spec(texts.take(i + 1), ", "@));
                    }
                    i = i + 1;
                }
                proof {
                    assert(texts.take(v@.len() as int) =~= texts);
                }
                t.append(")");
                t
            },
        }
    }
}

impl StrobeMode {
    /// The strobe in words: `None`, `Transfer(true)` or `Lane("101")` (one
    /// digit per lane, lane 0 first).
    pub fn text(&self) -> (t: String)
        ensures
            t@ == strobe_text(self@),
    {
        match self {
            StrobeMode::Absent => String::from_str("None"),
            StrobeMode::Transfer(b) => {
                if *b {
                    String::from_str("Transfer(true)")
                } else {
                    String::from_str("Transfer(false)")
                }
            },
            StrobeMode::Lane(v) => {
                let mut t = String::from_str("Lane(\"");
                let mut i: usize = 0;
                proof {
                    assert(v@.take(0) =~= Seq::<bool>::empty());
                }
                while i < v.len()
                    invariant
                        i <= v@.len(),
                        t@ == "Lane(\""@ + bits_text(v@.take(i as int)),
                    decreases v@.len() - i,
                {
                    proof {
                        assert(v@.take(i + 1).drop_last() =~= v@.take(i as int));
                        assert(v@.take(i + 1).last() == v@[i as int]);
                    }
                    if v[i] {
                        t.append("1");
                    } else {
                        t.append("0");
                    }
                    proof {
                        assert(t@ =~= "Lane(\""@ + bits_text(v@.take(i + 1)));
                    }
                    i = i + 1;
                }
                proof {
                    assert(v@.take(v@.len() as int) =~= v@);
                }
                t.append("\")");
                t
            },
        }
    }
}

} // verus!
