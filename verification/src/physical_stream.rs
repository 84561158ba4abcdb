//! Physical streams: the fields, lanes, dimensionality, complexity and user
//! signals of a stream, and the widths of the signals they give.
use vstd::prelude::*;
use crate::complexity::Complexity;
use crate::directions::StreamDirection;
use crate::error::{Error, ErrorKind};
use crate::generic_property::{Evaluation, GenericProperty, PropertyView, eval};
use crate::generics::MathOperator;
use crate::name::{Name, PathName};
use crate::numbers::{Positive, is_log2_ceil, log2_ceil};
use crate::ordered_map::{InsertionOrderedMap, MapKey};
use crate::signal_list::SignalList;

verus! {

/// The width of a signal: a positive number, a parameter, or an arithmetic
/// combination of widths.
#[derive(Debug, PartialEq, Eq, Hash)]
pub enum PhysicalBitCount {
    Combination(Box<PhysicalBitCount>, MathOperator, Box<PhysicalBitCount>),
    Fixed(Positive),
    Parameterized(Name),
}

/// The model of a `PhysicalBitCount`.
pub enum BitCountView {
    Combination(Box<BitCountView>, MathOperator, Box<BitCountView>),
    Fixed(u32),
    Parameterized(Seq<char>),
}

pub open spec fn bit_count_view(b: PhysicalBitCount) -> BitCountView
    decreases b,
{
    match b {
        PhysicalBitCount::Combination(l, op, r) => BitCountView::Combination(
            Box::new(bit_count_view(*l)),
            op,
            Box::new(bit_count_view(*r)),
        ),
        PhysicalBitCount::Fixed(v) => BitCountView::Fixed(v.spec_value()),
        PhysicalBitCount::Parameterized(n) => BitCountView::Parameterized(n@),
    }
}

impl View for PhysicalBitCount {
    type V = BitCountView;

    open spec fn view(&self) -> BitCountView {
        bit_count_view(*self)
    }
}

impl Clone for PhysicalBitCount {
    fn clone(&self) -> (r: Self)
        ensures
            r@ == self@,
        decreases self,
    {
        match self {
            PhysicalBitCount::Combination(l, op, r) => PhysicalBitCount::Combination(
                Box::new((**l).clone()),
                *op,
                Box::new((**r).clone()),
            ),
            PhysicalBitCount::Fixed(v) => PhysicalBitCount::Fixed(*v),
            PhysicalBitCount::Parameterized(n) => PhysicalBitCount::Parameterized(n.clone()),
        }
    }
}

/// The outcome of evaluating a width: a positive value, no value (a
/// parameter, an overflow, or a zero result), or a failure (a difference
/// below zero).
pub enum BitCountEvaluation {
    Value(u32),
    NoValue,
    Fails,
}

pub open spec fn positive_or_none(v: Option<u32>) -> BitCountEvaluation {
    match v {
        Some(x) => if x > 0 {
            BitCountEvaluation::Value(x)
        } else {
            BitCountEvaluation::NoValue
        },
        None => BitCountEvaluation::NoValue,
    }
}

/// Evaluates a width, left operand first.
pub open spec fn bit_eval(b: BitCountView) -> BitCountEvaluation
    decreases b,
{
    match b {
        BitCountView::Combination(l, op, r) => match bit_eval(*l) {
            BitCountEvaluation::Value(a) => match bit_eval(*r) {
                BitCountEvaluation::Value(c) => match op {
                    MathOperator::Add => positive_or_none(a.checked_add(c)),
                    MathOperator::Subtract => if a < c {
                        BitCountEvaluation::Fails
                    } else {
                        positive_or_none(Some((a - c) as u32))
                    },
                    MathOperator::Multiply => positive_or_none(a.checked_mul(c)),
                    MathOperator::Divide => positive_or_none(Some((a / c) as u32)),
                    MathOperator::Modulo => positive_or_none(Some((a % c) as u32)),
                },
                o => o,
            },
            o => o,
        },
        BitCountView::Fixed(v) => BitCountEvaluation::Value(v),
        BitCountView::Parameterized(_) => BitCountEvaluation::NoValue,
    }
}

/// The width `b` multiplied by `m` when `m` is more than 1.
pub open spec fn times(b: BitCountView, m: u32) -> BitCountView {
    if m > 1 {
        BitCountView::Combination(Box::new(b), MathOperator::Multiply, Box::new(BitCountView::Fixed(m)))
    } else {
        b
    }
}

/// The width a property gives: zero-valued fixed parts are dropped, and a
/// combination with one dropped operand is its other operand.
pub open spec fn property_bits(p: PropertyView) -> Option<BitCountView>
    decreases p,
{
    match p {
        PropertyView::Combination(l, op, r) => match (property_bits(*l), property_bits(*r)) {
            (None, None) => None,
            (None, Some(rv)) => Some(rv),
            (Some(lv), None) => Some(lv),
            (Some(lv), Some(rv)) => Some(BitCountView::Combination(Box::new(lv), op, Box::new(rv))),
        },
        PropertyView::Fixed(f) => if f > 0 {
            Some(BitCountView::Fixed(f))
        } else {
            None
        },
        PropertyView::Parameterized(n) => Some(BitCountView::Parameterized(n)),
    }
}

pub open spec fn fixed_width(v: nat) -> Option<BitCountView> {
    if 0 < v <= u32::MAX {
        Some(BitCountView::Fixed(v as u32))
    } else {
        None
    }
}

impl PhysicalBitCount {
    /// The width given by the parameter `name`.
    pub fn parameterized(name: Name) -> (r: PhysicalBitCount)
        ensures
            r@ == BitCountView::Parameterized(name@),
    {
        PhysicalBitCount::Parameterized(name)
    }

    /// The fixed width `val`, or `None` for 0.
    pub fn fixed(val: u32) -> (r: Option<PhysicalBitCount>)
        ensures
            match r {
                Some(b) => val > 0 && b@ == BitCountView::Fixed(val),
                None => val == 0,
            },
    {
        match Positive::new(val) {
            Some(p) => Some(PhysicalBitCount::Fixed(p)),
            None => None,
        }
    }

    /// The combination `l op r`.
    pub fn combine(l: PhysicalBitCount, op: MathOperator, r: PhysicalBitCount) -> (b: PhysicalBitCount)
        ensures
            b@ == BitCountView::Combination(Box::new(l@), op, Box::new(r@)),
    {
        PhysicalBitCount::Combination(Box::new(l), op, Box::new(r))
    }

    /// This width multiplied by `m`, when `m` is more than 1.
    pub fn with_multiplier(self, m: u32) -> (r: PhysicalBitCount)
        ensures
            r@ == times(self@, m),
    {
        if m > 1 {
            if let Some(mul) = Positive::new(m) {
                let f = PhysicalBitCount::Fixed(mul);
                assert(f@ == BitCountView::Fixed(m));
                return PhysicalBitCount::Combination(Box::new(self), MathOperator::Multiply, Box::new(f));
            }
        }
        self
    }

    /// The value of this width, or `None` when it has none.
    pub fn try_eval(&self) -> (r: Option<Positive>)
        requires
            !(bit_eval(self@) is Fails),
        ensures
            match bit_eval(self@) {
                BitCountEvaluation::Value(v) => r matches Some(p) && p.spec_value() == v,
                _ => r is None,
            },
        decreases self,
    {
        match self {
            PhysicalBitCount::Combination(l, op, r) => {
                if let Some(lv) = (**l).try_eval() {
                    if let Some(rv) = (**r).try_eval() {
                        let a = lv.get();
                        let c = rv.get();
                        return match op {
                            MathOperator::Add => match a.checked_add(c) {
                                Some(x) => Positive::new(x),
                                None => None,
                            },
                            MathOperator::Subtract => Positive::new(a - c),
                            MathOperator::Multiply => match a.checked_mul(c) {
                                Some(x) => Positive::new(x),
                                None => None,
                            },
                            MathOperator::Divide => Positive::new(a / c),
                            MathOperator::Modulo => Positive::new(a % c),
                        };
                    }
                }
                None
            },
            PhysicalBitCount::Fixed(f) => Some(*f),
            PhysicalBitCount::Parameterized(_) => None,
        }
    }

    /// The width a property gives (see `property_bits`).
    pub fn from_property(d: &GenericProperty) -> (r: Option<PhysicalBitCount>)
        ensures
            match property_bits(d@) {
                Some(b) => r matches Some(x) && x@ == b,
                None => r is None,
            },
        decreases d,
    {
        match d {
            GenericProperty::Combination(l, op, r) => {
                let lv = Self::from_property(&**l);
                let rv = Self::from_property(&**r);
                match (lv, rv) {
                    (None, None) => None,
                    (None, Some(rv)) => Some(rv),
                    (Some(lv), None) => Some(lv),
                    (Some(lv), Some(rv)) => Some(
                        PhysicalBitCount::Combination(Box::new(lv), *op, Box::new(rv)),
                    ),
                }
            },
            GenericProperty::Fixed(f) => Self::fixed(*f),
            GenericProperty::Parameterized(n) => Some(PhysicalBitCount::parameterized(n.clone())),
        }
    }
}

/// The sum of the widths of the fields.
pub open spec fn width_sum(s: Seq<(PathName, Positive)>) -> nat
    decreases s.len(),
{
    if s.len() == 0 {
        0
    } else {
        width_sum(s.drop_last()) + s.last().1.spec_value() as nat
    }
}

/// The model of a physical stream.
pub struct PhysicalStreamView {
    pub element_fields: Seq<(PathName, Positive)>,
    pub element_lanes: u32,
    pub dimensionality: PropertyView,
    pub complexity: Seq<u32>,
    pub user: Seq<(PathName, Positive)>,
    pub stream_direction: StreamDirection,
}

/// A physical stream: its element fields and their widths, its number of
/// element lanes, its dimensionality, complexity, user fields and direction.
#[derive(Debug, PartialEq, Eq, Hash)]
pub struct PhysicalStream {
    element_fields: InsertionOrderedMap<PathName, Positive>,
    element_lanes: Positive,
    dimensionality: GenericProperty,
    complexity: Complexity,
    user: InsertionOrderedMap<PathName, Positive>,
    stream_direction: StreamDirection,
}

impl View for PhysicalStream {
    type V = PhysicalStreamView;

    closed spec fn view(&self) -> PhysicalStreamView {
        PhysicalStreamView {
            element_fields: self.element_fields.entries(),
            element_lanes: self.element_lanes.spec_value(),
            dimensionality: self.dimensionality@,
            complexity: self.complexity@,
            user: self.user.entries(),
            stream_direction: self.stream_direction,
        }
    }
}

/// The fields of `s`, widths cast to `u32`, or why they cannot be taken:
/// at the first entry that fails, a zero width is an invalid argument and a
/// repeated path an unexpected duplicate.
pub open spec fn fields_of(s: Seq<(PathName, usize)>) -> Result<Seq<(Seq<Seq<char>>, u32)>, ErrorKind>
    decreases s.len(),
{
    if s.len() == 0 {
        Ok(Seq::empty())
    } else {
        match fields_of(s.drop_last()) {
            Ok(f) => {
                let w = s.last().1 as u32;
                if w == 0 {
                    Err(ErrorKind::InvalidArgument)
                } else if exists|i: int| 0 <= i < f.len() && #[trigger] f[i].0 == s.last().0@ {
                    Err(ErrorKind::UnexpectedDuplicate)
                } else {
                    Ok(f.push((s.last().0@, w)))
                }
            },
            Err(k) => Err(k),
        }
    }
}

pub open spec fn field_keys(s: Seq<(PathName, Positive)>) -> Seq<(Seq<Seq<char>>, u32)> {
    s.map_values(|e: (PathName, Positive)| (e.0@, e.1.spec_value()))
}

proof fn lemma_fields_prefix(s: Seq<(PathName, usize)>, k: int)
    requires
        0 <= k <= s.len(),
        fields_of(s.take(k)) is Err,
    ensures
        fields_of(s) == fields_of(s.take(k)),
    decreases s.len() - k,
{
    if k < s.len() {
        assert(s.take(k + 1).drop_last() =~= s.take(k));
        lemma_fields_prefix(s, k + 1);
    } else {
        assert(s.take(k) =~= s);
    }
}

/// The fields given by `s`, in order: a zero width is an `InvalidArgument`
/// error, a repeated path an `UnexpectedDuplicate` error.
fn collect_fields(s: &Vec<(PathName, usize)>) -> (r: Result<
    InsertionOrderedMap<PathName, Positive>,
    Error,
>)
    ensures
        match fields_of(s@) {
            Ok(f) => r matches Ok(m) && field_keys(m.entries()) == f,
            Err(k) => r matches Err(e) && e.kind() == k && (e is InvalidArgument ==> e->InvalidArgument_0@
                == "element lanes cannot be zero"@),
        },
{
    let mut m: InsertionOrderedMap<PathName, Positive> = InsertionOrderedMap::new();
    let mut i: usize = 0;
    proof {
        assert(s@.take(0) =~= Seq::<(PathName, usize)>::empty());
        assert(field_keys(m.entries()) =~= Seq::<(Seq<Seq<char>>, u32)>::empty());
    }
    while i < s.len()
        invariant
            i <= s@.len(),
            fields_of(s@.take(i as int)) == Ok::<Seq<(Seq<Seq<char>>, u32)>, ErrorKind>(
                field_keys(m.entries()),
            ),
        decreases s@.len() - i,
    {
        let ghost before = m.entries();
        let ghost q = s@.take(i + 1);
        assert(q.drop_last() =~= s@.take(i as int));
        assert(q.last() == s@[i as int]);
        let w = #[verifier::truncate] (s[i].1 as u32);
        let p = match Positive::new(w) {
            Some(p) => p,
            None => {
                proof {
                    lemma_fields_prefix(s@, i + 1);
                }
                return Err(crate::error::invalid_argument("element lanes cannot be zero"));
            },
        };
        let path = s[i].0.clone();
        let ghost key = path.key();
        assert(key == q.last().0@);
        match m.try_insert(path, p) {
            Ok(()) => {
                proof {
                    let f = field_keys(before);
                    assert forall|j: int| 0 <= j < f.len() implies #[trigger] f[j].0 != q.last().0@ by {
                        assert(before[j].0.key() != key);
                    }
                    assert(field_keys(m.entries()) =~= f.push((q.last().0@, w)));
                }
            },
            Err(e) => {
                proof {
                    let f = field_keys(before);
                    let j = choose|j: int|
                        0 <= j < before.len() && #[trigger] before[j].0.key() == s@[i as int].0.key();
                    assert(f[j].0 == q.last().0@);
                    assert(fields_of(q) == Err::<Seq<(Seq<Seq<char>>, u32)>, ErrorKind>(
                        ErrorKind::UnexpectedDuplicate,
                    ));
                    lemma_fields_prefix(s@, i + 1);
                }
                return Err(e);
            },
        }
        i = i + 1;
    }
    proof {
        assert(s@.take(s@.len() as int) =~= s@);
    }
    Ok(m)
}


proof fn lemma_width_sum_prefix(s: Seq<(PathName, Positive)>, k: int)
    requires
        0 <= k <= s.len(),
    ensures
        width_sum(s.take(k)) <= width_sum(s),
    decreases s.len(),
{
    if k < s.len() {
        assert(s.drop_last().take(k) =~= s.take(k));
        lemma_width_sum_prefix(s.drop_last(), k);
    } else {
        assert(s.take(k) =~= s);
    }
}

fn sum_widths(m: &InsertionOrderedMap<PathName, Positive>) -> (r: u32)
    requires
        width_sum(m.entries()) <= u32::MAX,
    ensures
        r == width_sum(m.entries()),
{
    let ghost e = m.entries();
    let mut acc: u32 = 0;
    let mut i: usize = 0;
    proof {
        assert(e.take(0) =~= Seq::<(PathName, Positive)>::empty());
    }
    while i < m.len()
        invariant
            e == m.entries(),
            i <= e.len(),
            acc == width_sum(e.take(i as int)),
            width_sum(e) <= u32::MAX,
        decreases e.len() - i,
    {
        proof {
            assert(e.take(i + 1).drop_last() =~= e.take(i as int));
            lemma_width_sum_prefix(e, i + 1);
        }
        acc = acc + m.value_at(i).get();
        i = i + 1;
    }
    proof {
        assert(e.take(e.len() as int) =~= e);
    }
    acc
}

/// Whether the stream has dimensions: a fixed dimensionality of at least
/// 1, a parameter, or a combination that evaluates to at least 1 or to no
/// number.
pub open spec fn has_dimensions_spec(d: PropertyView) -> bool {
    match d {
        PropertyView::Combination(_, _, _) => match eval(d) {
            Evaluation::Value(f) => f >= 1,
            _ => true,
        },
        PropertyView::Fixed(f) => f >= 1,
        PropertyView::Parameterized(_) => true,
    }
}

/// A stream has dimensions exactly when its dimensionality, where it is a
/// number, is at least 1; a dimensionality that names a parameter counts as
/// dimensions. So a fixed dimensionality of 1 or more gives the stream its
/// `strb` and (with more than one lane) `endi` signals, whatever its
/// complexity, and a dimensionality of 0 gives them only through the
/// complexity.
pub proof fn lemma_dimensions_from_dimensionality(d: PropertyView)
    ensures
        eval(d) matches Evaluation::Value(v) ==> has_dimensions_spec(d) == (v >= 1),
        eval(d) is Unassigned ==> has_dimensions_spec(d),
        d matches PropertyView::Fixed(v) ==> has_dimensions_spec(d) == (v >= 1),
{
}

/// The width of `strb`: one bit per lane from complexity 7 on or when the
/// stream has dimensions, otherwise none.
pub open spec fn strb_width(s: PhysicalStreamView) -> Option<BitCountView> {
    if s.complexity[0] >= 7 || has_dimensions_spec(s.dimensionality) {
        Some(BitCountView::Fixed(s.element_lanes))
    } else {
        None
    }
}

/// Whether the stream has `endi`: with more than one lane, from complexity
/// 5 on or when the stream has dimensions.
pub open spec fn has_endi_signal(s: PhysicalStreamView) -> bool {
    (s.complexity[0] >= 5 || has_dimensions_spec(s.dimensionality)) && s.element_lanes > 1
}

/// A stream with a fixed dimensionality of at least 1 (or with one given by
/// a parameter) has `strb`, one bit per lane, and with more than one lane
/// `endi`, at every complexity; with a dimensionality of 0, only the
/// complexity gives them (`strb` from 7 on, `endi` from 5 on).
pub proof fn lemma_dimensions_give_strobe_and_end_index(s: PhysicalStreamView)
    requires
        s.complexity.len() > 0,
    ensures
        (eval(s.dimensionality) matches Evaluation::Value(v) && v >= 1) ==> strb_width(s) == Some(
            BitCountView::Fixed(s.element_lanes),
        ),
        (eval(s.dimensionality) matches Evaluation::Value(v) && v >= 1) ==> has_endi_signal(s)
            == (s.element_lanes > 1),
        eval(s.dimensionality) is Unassigned ==> strb_width(s) == Some(
            BitCountView::Fixed(s.element_lanes),
        ),
        eval(s.dimensionality) == Evaluation::Value(0) ==> (strb_width(s) is Some <==> s.complexity[0] >= 7),
        eval(s.dimensionality) == Evaluation::Value(0) ==> (has_endi_signal(s) <==> (s.complexity[0] >= 5
            && s.element_lanes > 1)),
{
    lemma_dimensions_from_dimensionality(s.dimensionality);
}

/// The width of the index signals: `ceil(log2(N))`.
pub open spec fn index_width(k: u32, lanes: u32) -> bool {
    k > 0 && is_log2_ceil(lanes as nat, k as nat)
}

pub open spec fn opt_bits_view(o: Option<PhysicalBitCount>) -> Option<BitCountView> {
    match o {
        Some(b) => Some(b@),
        None => None,
    }
}

impl PhysicalStream {
    /// A stream with the given fields (paths and widths), lanes,
    /// dimensionality, complexity, user fields and direction. A zero width or
    /// zero lanes is an `InvalidArgument` error, a repeated path an
    /// `UnexpectedDuplicate` error; widths and lanes are taken as `u32`.
    pub fn try_new(
        element_fields: Vec<(PathName, usize)>,
        element_lanes: usize,
        dimensionality: GenericProperty,
        complexity: Complexity,
        user: Vec<(PathName, usize)>,
        stream_direction: StreamDirection,
    ) -> (r: Result<PhysicalStream, Error>)
        ensures
            ({
                let lanes = element_lanes as u32;
                match fields_of(element_fields@) {
                    Err(k) => r matches Err(e) && e.kind() == k,
                    Ok(ef) => if lanes == 0 {
                        r matches Err(e) && e is InvalidArgument
                    } else {
                        match fields_of(user@) {
                            Err(k) => r matches Err(e) && e.kind() == k,
                            Ok(uf) => r matches Ok(ps) && field_keys(ps@.element_fields) == ef
                                && ps@.element_lanes == lanes && ps@.dimensionality == dimensionality@
                                && ps@.complexity == complexity@ && field_keys(ps@.user) == uf
                                && ps@.stream_direction == stream_direction,
                        }
                    },
                }
            }),
    {
        let ef = match collect_fields(&element_fields) {
            Ok(m) => m,
            Err(e) => {
                return Err(e);
            },
        };
        let lanes = match Positive::new(#[verifier::truncate] (element_lanes as u32)) {
            Some(p) => p,
            None => {
                return Err(crate::error::invalid_argument("element lanes cannot be zero"));
            },
        };
        let uf = match collect_fields(&user) {
            Ok(m) => m,
            Err(e) => {
                return Err(e);
            },
        };
        Ok(PhysicalStream::new(ef, lanes, dimensionality, complexity, uf, stream_direction))
    }

    pub fn new(
        element_fields: InsertionOrderedMap<PathName, Positive>,
        element_lanes: Positive,
        dimensionality: GenericProperty,
        complexity: Complexity,
        user: InsertionOrderedMap<PathName, Positive>,
        stream_direction: StreamDirection,
    ) -> (r: PhysicalStream)
        ensures
            r@ == (PhysicalStreamView {
                element_fields: element_fields.entries(),
                element_lanes: element_lanes.spec_value(),
                dimensionality: dimensionality@,
                complexity: complexity@,
                user: user.entries(),
                stream_direction,
            }),
    {
        PhysicalStream {
            element_fields,
            element_lanes,
            dimensionality,
            complexity,
            user,
            stream_direction,
        }
    }

    pub fn element_fields(&self) -> (r: &InsertionOrderedMap<PathName, Positive>)
        ensures
            r.entries() == self@.element_fields,
    {
        &self.element_fields
    }

    pub fn element_lanes(&self) -> (r: Positive)
        ensures
            r.spec_value() == self@.element_lanes,
    {
        self.element_lanes
    }

    pub fn dimensionality(&self) -> (r: &GenericProperty)
        ensures
            r@ == self@.dimensionality,
    {
        &self.dimensionality
    }

    pub fn complexity(&self) -> (r: &Complexity)
        ensures
            r@ == self@.complexity,
    {
        &self.complexity
    }

    pub fn user(&self) -> (r: &InsertionOrderedMap<PathName, Positive>)
        ensures
            r.entries() == self@.user,
    {
        &self.user
    }

    pub fn stream_direction(&self) -> (r: StreamDirection)
        ensures
            r == self@.stream_direction,
    {
        self.stream_direction
    }

    /// The width of one element: the sum of the field widths (none when 0).
    pub fn data_element_bit_count(&self) -> (r: Option<PhysicalBitCount>)
        requires
            width_sum(self@.element_fields) <= u32::MAX,
        ensures
            opt_bits_view(r) == fixed_width(width_sum(self@.element_fields)),
    {
        PhysicalBitCount::fixed(sum_widths(&self.element_fields))
    }

    /// The width of `data`: one element's width times the number of lanes.
    pub fn data_bit_count(&self) -> (r: Option<PhysicalBitCount>)
        requires
            width_sum(self@.element_fields) <= u32::MAX,
        ensures
            opt_bits_view(r) == match fixed_width(width_sum(self@.element_fields)) {
                Some(b) => Some(times(b, self@.element_lanes)),
                None => None,
            },
    {
        match self.data_element_bit_count() {
            Some(d) => Some(d.with_multiplier(self.element_lanes.get())),
            None => None,
        }
    }

    /// The width of `last`: the dimensionality, times the number of lanes
    /// from complexity 8 on.
    pub fn last_bit_count(&self) -> (r: Option<PhysicalBitCount>)
        ensures
            opt_bits_view(r) == match property_bits(self@.dimensionality) {
                Some(b) => Some(
                    if self@.complexity[0] >= 8 {
                        times(b, self@.element_lanes)
                    } else {
                        b
                    },
                ),
                None => None,
            },
    {
        self.complexity.lemma_view();
        match PhysicalBitCount::from_property(&self.dimensionality) {
            Some(b) => Some(
                if self.complexity.major() >= 8 {
                    b.with_multiplier(self.element_lanes.get())
                } else {
                    b
                },
            ),
            None => None,
        }
    }

    /// The width of `stai`: `ceil(log2(N))` from complexity 6 on with more
    /// than one lane, otherwise none.
    pub fn stai_bit_count(&self) -> (r: Option<PhysicalBitCount>)
        ensures
            if self@.complexity[0] >= 6 && self@.element_lanes > 1 {
                r matches Some(b) && b@ matches BitCountView::Fixed(k) && index_width(
                    k,
                    self@.element_lanes,
                )
            } else {
                r is None
            },
    {
        self.complexity.lemma_view();
        if self.complexity.major() >= 6 && self.element_lanes.get() > 1 {
            let k = log2_ceil(self.element_lanes);
            PhysicalBitCount::fixed(k)
        } else {
            None
        }
    }

    fn has_dimensions(&self) -> (r: bool)
        requires
            !(eval(self@.dimensionality) is Fails),
        ensures
            r == has_dimensions_spec(self@.dimensionality),
    {
        match &self.dimensionality {
            GenericProperty::Combination(_, _, _) => match self.dimensionality.try_eval() {
                Some(f) => f >= 1,
                None => true,
            },
            GenericProperty::Fixed(f) => *f >= 1,
            GenericProperty::Parameterized(_) => true,
        }
    }

    /// The width of `endi`: `ceil(log2(N))` with more than one lane when the
    /// complexity is 5 or more or the stream has dimensions, otherwise none.
    pub fn endi_bit_count(&self) -> (r: Option<PhysicalBitCount>)
        requires
            !(eval(self@.dimensionality) is Fails),
        ensures
            if has_endi_signal(self@) {
                r matches Some(b) && b@ matches BitCountView::Fixed(k) && index_width(
                    k,
                    self@.element_lanes,
                )
            } else {
                r is None
            },
    {
        self.complexity.lemma_view();
        if (self.complexity.major() >= 5 || self.has_dimensions()) && self.element_lanes.get() > 1 {
            let k = log2_ceil(self.element_lanes);
            PhysicalBitCount::fixed(k)
        } else {
            None
        }
    }

    /// The width of `strb`: one bit per lane from complexity 7 on or when the
    /// stream has dimensions, otherwise none.
    pub fn strb_bit_count(&self) -> (r: Option<PhysicalBitCount>)
        requires
            !(eval(self@.dimensionality) is Fails),
        ensures
            opt_bits_view(r) == strb_width(self@),
    {
        self.complexity.lemma_view();
        if self.complexity.major() >= 7 || self.has_dimensions() {
            PhysicalBitCount::fixed(self.element_lanes.get())
        } else {
            None
        }
    }

    /// The width of `user`: the sum of the user field widths (none when 0).
    pub fn user_bit_count(&self) -> (r: Option<PhysicalBitCount>)
        requires
            width_sum(self@.user) <= u32::MAX,
        ensures
            opt_bits_view(r) == fixed_width(width_sum(self@.user)),
    {
        PhysicalBitCount::fixed(sum_widths(&self.user))
    }

    /// The signals of this stream and their widths: `valid` and `ready` of
    /// one bit, and `data`, `last`, `stai`, `endi`, `strb` and `user` as the
    /// functions of the same names give them.
    pub fn signal_list(&self) -> (r: SignalList<PhysicalBitCount>)
        requires
            width_sum(self@.element_fields) <= u32::MAX,
            width_sum(self@.user) <= u32::MAX,
            !(eval(self@.dimensionality) is Fails),
        ensures
            opt_bits_view(r.signals()[0]) == Some(BitCountView::Fixed(1)),
            opt_bits_view(r.signals()[1]) == Some(BitCountView::Fixed(1)),
            opt_bits_view(r.signals()[2]) == match fixed_width(width_sum(self@.element_fields)) {
                Some(b) => Some(times(b, self@.element_lanes)),
                None => None,
            },
            opt_bits_view(r.signals()[3]) == match property_bits(self@.dimensionality) {
                Some(b) => Some(
                    if self@.complexity[0] >= 8 {
                        times(b, self@.element_lanes)
                    } else {
                        b
                    },
                ),
                None => None,
            },
            if self@.complexity[0] >= 6 && self@.element_lanes > 1 {
                r.signals()[4] matches Some(b) && b@ matches BitCountView::Fixed(k) && index_width(
                    k,
                    self@.element_lanes,
                )
            } else {
                r.signals()[4] is None
            },
            if has_endi_signal(self@) {
                r.signals()[5] matches Some(b) && b@ matches BitCountView::Fixed(k) && index_width(
                    k,
                    self@.element_lanes,
                )
            } else {
                r.signals()[5] is None
            },
            opt_bits_view(r.signals()[6]) == strb_width(self@),
            opt_bits_view(r.signals()[7]) == fixed_width(width_sum(self@.user)),
    {
        let r = SignalList::try_new(
            PhysicalBitCount::fixed(1),
            PhysicalBitCount::fixed(1),
            self.data_bit_count(),
            self.last_bit_count(),
            self.stai_bit_count(),
            self.endi_bit_count(),
            self.strb_bit_count(),
            self.user_bit_count(),
        );
        r.unwrap()
    }
}


/// `l + r` builds the sum of two bit counts, unevaluated.
impl core::ops::Add for PhysicalBitCount {
    type Output = PhysicalBitCount;

    fn add(self, rhs: PhysicalBitCount) -> (r: PhysicalBitCount)
        ensures
            r@ == BitCountView::Combination(Box::new(self@), MathOperator::Add, Box::new(rhs@)),
    {
        PhysicalBitCount::Combination(Box::new(self), MathOperator::Add, Box::new(rhs))
    }
}

impl vstd::std_specs::ops::AddSpecImpl for PhysicalBitCount {
    open spec fn obeys_add_spec() -> bool {
        true
    }

    open spec fn add_req(self, rhs: PhysicalBitCount) -> bool {
        true
    }

    open spec fn add_spec(self, rhs: PhysicalBitCount) -> PhysicalBitCount {
        PhysicalBitCount::Combination(Box::new(self), MathOperator::Add, Box::new(rhs))
    }
}

/// `l - r` builds the difference of two bit counts, unevaluated.
impl core::ops::Sub for PhysicalBitCount {
    type Output = PhysicalBitCount;

    fn sub(self, rhs: PhysicalBitCount) -> (r: PhysicalBitCount)
        ensures
            r@ == BitCountView::Combination(Box::new(self@), MathOperator::Subtract, Box::new(rhs@)),
    {
        PhysicalBitCount::Combination(Box::new(self), MathOperator::Subtract, Box::new(rhs))
    }
}

impl vstd::std_specs::ops::SubSpecImpl for PhysicalBitCount {
    open spec fn obeys_sub_spec() -> bool {
        true
    }

    open spec fn sub_req(self, rhs: PhysicalBitCount) -> bool {
        true
    }

    open spec fn sub_spec(self, rhs: PhysicalBitCount) -> PhysicalBitCount {
        PhysicalBitCount::Combination(Box::new(self), MathOperator::Subtract, Box::new(rhs))
    }
}

/// `l * r` builds the product of two bit counts, unevaluated.
impl core::ops::Mul for PhysicalBitCount {
    type Output = PhysicalBitCount;

    fn mul(self, rhs: PhysicalBitCount) -> (r: PhysicalBitCount)
        ensures
            r@ == BitCountView::Combination(Box::new(self@), MathOperator::Multiply, Box::new(rhs@)),
    {
        PhysicalBitCount::Combination(Box::new(self), MathOperator::Multiply, Box::new(rhs))
    }
}

impl vstd::std_specs::ops::MulSpecImpl for PhysicalBitCount {
    open spec fn obeys_mul_spec() -> bool {
        true
    }

    open spec fn mul_req(self, rhs: PhysicalBitCount) -> bool {
        true
    }

    open spec fn mul_spec(self, rhs: PhysicalBitCount) -> PhysicalBitCount {
        PhysicalBitCount::Combination(Box::new(self), MathOperator::Multiply, Box::new(rhs))
    }
}

/// `l / r` builds the quotient of two bit counts, unevaluated.
impl core::ops::Div for PhysicalBitCount {
    type Output = PhysicalBitCount;

    fn div(self, rhs: PhysicalBitCount) -> (r: PhysicalBitCount)
        ensures
            r@ == BitCountView::Combination(Box::new(self@), MathOperator::Divide, Box::new(rhs@)),
    {
        PhysicalBitCount::Combination(Box::new(self), MathOperator::Divide, Box::new(rhs))
    }
}

impl vstd::std_specs::ops::DivSpecImpl for PhysicalBitCount {
    open spec fn obeys_div_spec() -> bool {
        true
    }

    open spec fn div_req(self, rhs: PhysicalBitCount) -> bool {
        true
    }

    open spec fn div_spec(self, rhs: PhysicalBitCount) -> PhysicalBitCount {
        PhysicalBitCount::Combination(Box::new(self), MathOperator::Divide, Box::new(rhs))
    }
}

} // verus!
