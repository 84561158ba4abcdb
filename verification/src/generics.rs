//! Kinds of generic parameters and the conditions their values must meet.
use vstd::prelude::*;
use crate::error::Error;
use crate::name::{Name, valid_name};
use crate::param_value::{Combination, GenericParamValue, GenericParamValueOps, RefValue, ValueView, value_reduction};
use crate::messages::{concat, signed_decimal, signed_decimal_spec};

verus! {

/// The arithmetic operators of generic parameter values.
#[derive(Debug, Clone, Copy, PartialEq, Eq, Hash, Structural)]
pub enum MathOperator {
    Add,
    Subtract,
    Multiply,
    Divide,
    Modulo,
}

/// The symbol of an operator.
pub open spec fn symbol_text(op: MathOperator) -> Seq<char> {
    match op {
        MathOperator::Add => "+"@,
        MathOperator::Subtract => "-"@,
        MathOperator::Multiply => "*"@,
        MathOperator::Divide => "/"@,
        MathOperator::Modulo => "%"@,
    }
}

impl MathOperator {
    /// The operator's symbol.
    pub fn symbol(&self) -> (r: &'static str)
        ensures
            r@ == symbol_text(*self),
    {
        match self {
            MathOperator::Add => "+",
            MathOperator::Subtract => "-",
            MathOperator::Multiply => "*",
            MathOperator::Divide => "/",
            MathOperator::Modulo => "%",
        }
    }
}

/// The kind of an integer generic parameter.
#[derive(Debug, Clone, Copy, PartialEq, Eq, Hash, Structural)]
pub enum IntegerGenericKind {
    Integer,
    Natural,
    Positive,
}

/// The name of an integer kind.
pub open spec fn integer_kind_text(k: IntegerGenericKind) -> Seq<char> {
    match k {
        IntegerGenericKind::Integer => "Integer"@,
        IntegerGenericKind::Natural => "Natural"@,
        IntegerGenericKind::Positive => "Positive"@,
    }
}

/// A parameter kind in words.
pub open spec fn kind_text(k: KindView) -> Seq<char> {
    match k {
        KindView::Integer(i, _) => "Behavioral("@ + integer_kind_text(i) + ")"@,
        KindView::Dimensionality(_) => "Interface(Dimensionality)"@,
    }
}

impl IntegerGenericKind {
    /// The kind's name.
    pub fn text(&self) -> (r: &'static str)
        ensures
            r@ == integer_kind_text(*self),
    {
        match self {
            IntegerGenericKind::Integer => "Integer",
            IntegerGenericKind::Natural => "Natural",
            IntegerGenericKind::Positive => "Positive",
        }
    }
}

/// The kinds of number a generic parameter can range over.
#[derive(Debug, Clone, Copy, PartialEq, Eq, Hash, Structural)]
pub enum NumberGenericKind {
    Integer,
    Natural,
    Positive,
}

/// A test on an integer value.
#[derive(Debug, PartialEq, Eq, Hash)]
pub enum IntegerCondition {
    Gt(i32),
    Lt(i32),
    GtEq(i32),
    LtEq(i32),
    Eq(i32),
    IsIn(Vec<i32>),
}

/// The model of an `IntegerCondition`.
pub enum IntegerConditionView {
    Gt(i32),
    Lt(i32),
    GtEq(i32),
    LtEq(i32),
    Eq(i32),
    IsIn(Seq<i32>),
}

impl View for IntegerCondition {
    type V = IntegerConditionView;

    open spec fn view(&self) -> IntegerConditionView {
        match self {
            IntegerCondition::Gt(t) => IntegerConditionView::Gt(*t),
            IntegerCondition::Lt(t) => IntegerConditionView::Lt(*t),
            IntegerCondition::GtEq(t) => IntegerConditionView::GtEq(*t),
            IntegerCondition::LtEq(t) => IntegerConditionView::LtEq(*t),
            IntegerCondition::Eq(t) => IntegerConditionView::Eq(*t),
            IntegerCondition::IsIn(v) => IntegerConditionView::IsIn(v@),
        }
    }
}

/// Integers in decimal, separated by `, `.
pub open spec fn list_text(v: Seq<i32>) -> Seq<char>
    decreases v.len(),
{
    if v.len() == 0 {
        Seq::empty()
    } else if v.len() == 1 {
        signed_decimal_spec(v[0] as int)
    } else {
        list_text(v.drop_last()) + seq![',', ' '] + signed_decimal_spec(v.last() as int)
    }
}

impl IntegerConditionView {
    /// The test in words: the comparison and its operand (`> 5`), or the
    /// allowed values (`in [1, 2]`).
    pub open spec fn text(self) -> Seq<char> {
        match self {
            IntegerConditionView::Gt(t) => seq!['>', ' '] + signed_decimal_spec(t as int),
            IntegerConditionView::Lt(t) => seq!['<', ' '] + signed_decimal_spec(t as int),
            IntegerConditionView::GtEq(t) => seq!['>', '=', ' '] + signed_decimal_spec(t as int),
            IntegerConditionView::LtEq(t) => seq!['<', '=', ' '] + signed_decimal_spec(t as int),
            IntegerConditionView::Eq(t) => seq!['=', '=', ' '] + signed_decimal_spec(t as int),
            IntegerConditionView::IsIn(v) => seq!['i', 'n', ' ', '['] + list_text(v) + seq![']'],
        }
    }

    /// Whether `value` passes the test.
    pub open spec fn holds(self, value: i32) -> bool {
        match self {
            IntegerConditionView::Gt(t) => value > t,
            IntegerConditionView::Lt(t) => value < t,
            IntegerConditionView::GtEq(t) => value >= t,
            IntegerConditionView::LtEq(t) => value <= t,
            IntegerConditionView::Eq(t) => value == t,
            IntegerConditionView::IsIn(v) => v.contains(value),
        }
    }
}

impl Clone for IntegerCondition {
    fn clone(&self) -> (r: Self)
        ensures
            r@ == self@,
    {
        match self {
            IntegerCondition::Gt(t) => IntegerCondition::Gt(*t),
            IntegerCondition::Lt(t) => IntegerCondition::Lt(*t),
            IntegerCondition::GtEq(t) => IntegerCondition::GtEq(*t),
            IntegerCondition::LtEq(t) => IntegerCondition::LtEq(*t),
            IntegerCondition::Eq(t) => IntegerCondition::Eq(*t),
            IntegerCondition::IsIn(v) => {
                let c = v.clone();
                assert(c@ =~= v@);
                IntegerCondition::IsIn(c)
            },
        }
    }
}

fn vec_i32_eq(a: &Vec<i32>, b: &Vec<i32>) -> (r: bool)
    ensures
        r == (a@ == b@),
{
    if a.len() != b.len() {
        return false;
    }
    let mut i: usize = 0;
    while i < a.len()
        invariant
            a@.len() == b@.len(),
            i <= a@.len(),
            forall|j: int| 0 <= j < i ==> a@[j] == b@[j],
        decreases a@.len() - i,
    {
        if a[i] != b[i] {
            return false;
        }
        i = i + 1;
    }
    assert(a@ =~= b@);
    true
}

impl IntegerCondition {
    /// Whether the two conditions are the same.
    pub fn same_as(&self, other: &IntegerCondition) -> (r: bool)
        ensures
            r == (self@ == other@),
    {
        match (self, other) {
            (IntegerCondition::Gt(a), IntegerCondition::Gt(b)) => *a == *b,
            (IntegerCondition::Lt(a), IntegerCondition::Lt(b)) => *a == *b,
            (IntegerCondition::GtEq(a), IntegerCondition::GtEq(b)) => *a == *b,
            (IntegerCondition::LtEq(a), IntegerCondition::LtEq(b)) => *a == *b,
            (IntegerCondition::Eq(a), IntegerCondition::Eq(b)) => *a == *b,
            (IntegerCondition::IsIn(a), IntegerCondition::IsIn(b)) => vec_i32_eq(a, b),
            _ => false,
        }
    }

    /// Whether `value` passes the test.
    pub fn test_value(&self, value: i32) -> (r: bool)
        ensures
            r == self@.holds(value),
    {
        match self {
            IntegerCondition::Gt(t) => value > *t,
            IntegerCondition::Lt(t) => value < *t,
            IntegerCondition::GtEq(t) => value >= *t,
            IntegerCondition::LtEq(t) => value <= *t,
            IntegerCondition::Eq(t) => value == *t,
            IntegerCondition::IsIn(v) => {
                let mut i: usize = 0;
                while i < v.len()
                    invariant
                        i <= v@.len(),
                        self@ == IntegerConditionView::IsIn(v@),
                        forall|j: int| 0 <= j < i ==> v@[j] != value,
                    decreases v@.len() - i,
                {
                    if v[i] == value {
                        assert(v@[i as int] == value);
                        assert(v@.contains(value));
                        return true;
                    }
                    i = i + 1;
                }
                false
            },
        }
    }

    /// The test in words, such as `> 5` or `in [1, 2]`.
    pub fn describe_condition(&self) -> (r: String)
        ensures
            r@ == self@.text(),
    {
        let (op, t) = match self {
            IntegerCondition::Gt(t) => (">", *t),
            IntegerCondition::Lt(t) => ("<", *t),
            IntegerCondition::GtEq(t) => (">=", *t),
            IntegerCondition::LtEq(t) => ("<=", *t),
            IntegerCondition::Eq(t) => ("==", *t),
            IntegerCondition::IsIn(v) => {
                let mut r = String::from_str("in [");
                proof {
                    reveal_strlit("in [");
                    assert(v@.take(0) =~= Seq::<i32>::empty());
                    assert(r@ =~= seq!['i', 'n', ' ', '['] + list_text(v@.take(0)));
                }
                let mut i: usize = 0;
                while i < v.len()
                    invariant
                        i <= v@.len(),
                        r@ == seq!['i', 'n', ' ', '['] + list_text(v@.take(i as int)),
                    decreases v@.len() - i,
                {
                    if i > 0 {
                        r.append(", ");
                    }
                    let d = signed_decimal(v[i] as i64);
                    r.append(d.as_str());
                    proof {
                        reveal_strlit(", ");
                        assert(v@.take(i + 1).drop_last() =~= v@.take(i as int));
                        assert(v@.take(i + 1).last() == v@[i as int]);
                    }
                    i = i + 1;
                }
                r.append("]");
                proof {
                    reveal_strlit("in [");
                    reveal_strlit("]");
                    assert(v@.take(v@.len() as int) =~= v@);
                }
                return r;
            },
        };
        let d = signed_decimal(t as i64);
        proof {
            reveal_strlit(">");
            reveal_strlit("<");
            reveal_strlit(">=");
            reveal_strlit("<=");
            reveal_strlit("==");
            reveal_strlit(" ");
        }
        let mut r = String::from_str(op);
        r.append(" ");
        r.append(d.as_str());
        r
    }

    /// This condition or `right`.
    pub fn or(self, right: IntegerCondition) -> (r: GenericCondition)
        ensures
            r@ == ConditionView::Or(
                Box::new(ConditionView::Single(self@)),
                Box::new(ConditionView::Single(right@)),
            ),
    {
        proof {
            reveal_with_fuel(condition_view, 2);
        }
        GenericCondition::Or(
            Box::new(GenericCondition::Single(self)),
            Box::new(GenericCondition::Single(right)),
        )
    }

    /// This condition and `right`.
    pub fn and(self, right: IntegerCondition) -> (r: GenericCondition)
        ensures
            r@ == ConditionView::And(
                Box::new(ConditionView::Single(self@)),
                Box::new(ConditionView::Single(right@)),
            ),
    {
        proof {
            reveal_with_fuel(condition_view, 2);
        }
        GenericCondition::And(
            Box::new(GenericCondition::Single(self)),
            Box::new(GenericCondition::Single(right)),
        )
    }

    /// The negation of this condition.
    pub fn invert(self) -> (r: GenericCondition)
        ensures
            r@ == ConditionView::Not(Box::new(ConditionView::Single(self@))),
    {
        proof {
            reveal_with_fuel(condition_view, 2);
        }
        GenericCondition::Not(Box::new(GenericCondition::Single(self)))
    }
}

/// A condition on the value of a generic parameter, built from integer tests.
#[derive(Debug, PartialEq, Eq, Hash)]
pub enum GenericCondition {
    /// Every value is allowed.
    NoCondition,
    Single(IntegerCondition),
    Parentheses(Box<GenericCondition>),
    Not(Box<GenericCondition>),
    And(Box<GenericCondition>, Box<GenericCondition>),
    Or(Box<GenericCondition>, Box<GenericCondition>),
}

/// The model of a `GenericCondition`.
pub enum ConditionView {
    NoCondition,
    Single(IntegerConditionView),
    Parentheses(Box<ConditionView>),
    Not(Box<ConditionView>),
    And(Box<ConditionView>, Box<ConditionView>),
    Or(Box<ConditionView>, Box<ConditionView>),
}

pub open spec fn condition_view(c: GenericCondition) -> ConditionView
    decreases c,
{
    match c {
        GenericCondition::NoCondition => ConditionView::NoCondition,
        GenericCondition::Single(t) => ConditionView::Single(t@),
        GenericCondition::Parentheses(p) => ConditionView::Parentheses(Box::new(condition_view(*p))),
        GenericCondition::Not(p) => ConditionView::Not(Box::new(condition_view(*p))),
        GenericCondition::And(l, r) => ConditionView::And(
            Box::new(condition_view(*l)),
            Box::new(condition_view(*r)),
        ),
        GenericCondition::Or(l, r) => ConditionView::Or(
            Box::new(condition_view(*l)),
            Box::new(condition_view(*r)),
        ),
    }
}

impl View for GenericCondition {
    type V = ConditionView;

    open spec fn view(&self) -> ConditionView {
        condition_view(*self)
    }
}

impl ConditionView {
    /// The condition in words: tests as `> 5`, negation as `!(..)`,
    /// parentheses kept, `and` and `or` between the operands, `None` for no
    /// condition.
    pub open spec fn text(self) -> Seq<char>
        decreases self,
    {
        match self {
            ConditionView::NoCondition => seq!['N', 'o', 'n', 'e'],
            ConditionView::Single(t) => t.text(),
            ConditionView::Parentheses(p) => seq!['('] + p.text() + seq![')'],
            ConditionView::Not(p) => seq!['!', '('] + p.text() + seq![')'],
            ConditionView::And(l, r) => l.text() + seq![' ', 'a', 'n', 'd', ' '] + r.text(),
            ConditionView::Or(l, r) => l.text() + seq![' ', 'o', 'r', ' '] + r.text(),
        }
    }

    /// Whether `value` meets the condition.
    pub open spec fn holds(self, value: i32) -> bool
        decreases self,
    {
        match self {
            ConditionView::NoCondition => true,
            ConditionView::Single(t) => t.holds(value),
            ConditionView::Parentheses(p) => p.holds(value),
            ConditionView::Not(p) => !p.holds(value),
            ConditionView::And(l, r) => l.holds(value) && r.holds(value),
            ConditionView::Or(l, r) => l.holds(value) || r.holds(value),
        }
    }
}

/// Every value the condition `a` permits, the condition `b` permits too.
pub open spec fn condition_implies(a: ConditionView, b: ConditionView) -> bool {
    forall|v: i32| a.holds(v) ==> b.holds(v)
}

/// The constants the test compares with.
pub open spec fn test_constants(t: IntegerConditionView) -> Seq<i32> {
    match t {
        IntegerConditionView::Gt(c) => seq![c],
        IntegerConditionView::Lt(c) => seq![c],
        IntegerConditionView::GtEq(c) => seq![c],
        IntegerConditionView::LtEq(c) => seq![c],
        IntegerConditionView::Eq(c) => seq![c],
        IntegerConditionView::IsIn(v) => v,
    }
}

/// The constants the condition compares with, from left to right.
pub open spec fn condition_constants(c: ConditionView) -> Seq<i32>
    decreases c,
{
    match c {
        ConditionView::NoCondition => Seq::empty(),
        ConditionView::Single(t) => test_constants(t),
        ConditionView::Parentheses(p) => condition_constants(*p),
        ConditionView::Not(p) => condition_constants(*p),
        ConditionView::And(l, r) => condition_constants(*l) + condition_constants(*r),
        ConditionView::Or(l, r) => condition_constants(*l) + condition_constants(*r),
    }
}

/// `v` and `t` lie on the same side of, or both on, every constant of `k`.
pub open spec fn agree(v: i32, t: i32, k: Seq<i32>) -> bool {
    forall|i: int| 0 <= i < k.len() ==> ((v < #[trigger] k[i]) == (t < k[i]) && (v == k[i]) == (t == k[i]))
}

/// A condition holds alike on two values that agree on every constant it
/// compares with.
proof fn lemma_agree_holds(c: ConditionView, v: i32, t: i32, k: Seq<i32>)
    requires
        agree(v, t, k),
        forall|x: i32| condition_constants(c).contains(x) ==> k.contains(x),
    ensures
        c.holds(v) == c.holds(t),
    decreases c,
{
    match c {
        ConditionView::NoCondition => {},
        ConditionView::Single(tc) => {
            match tc {
                IntegerConditionView::IsIn(vs) => {
                    assert(condition_constants(c) == vs);
                    if vs.contains(v) {
                        assert(k.contains(v));
                        let i = choose|i: int| 0 <= i < k.len() && k[i] == v;
                        assert(t == k[i]);
                    }
                    if vs.contains(t) {
                        assert(k.contains(t));
                        let i = choose|i: int| 0 <= i < k.len() && k[i] == t;
                        assert(v == k[i]);
                    }
                },
                IntegerConditionView::Gt(x) => {
                    assert(condition_constants(c)[0] == x);
                    assert(condition_constants(c).contains(x));
                    assert(k.contains(x));
                    let i = choose|i: int| 0 <= i < k.len() && k[i] == x;
                    assert((v < k[i]) == (t < k[i]));
                },
                IntegerConditionView::Lt(x) => {
                    assert(condition_constants(c)[0] == x);
                    assert(condition_constants(c).contains(x));
                    assert(k.contains(x));
                    let i = choose|i: int| 0 <= i < k.len() && k[i] == x;
                    assert((v < k[i]) == (t < k[i]));
                },
                IntegerConditionView::GtEq(x) => {
                    assert(condition_constants(c)[0] == x);
                    assert(condition_constants(c).contains(x));
                    assert(k.contains(x));
                    let i = choose|i: int| 0 <= i < k.len() && k[i] == x;
                    assert((v < k[i]) == (t < k[i]));
                },
                IntegerConditionView::LtEq(x) => {
                    assert(condition_constants(c)[0] == x);
                    assert(condition_constants(c).contains(x));
                    assert(k.contains(x));
                    let i = choose|i: int| 0 <= i < k.len() && k[i] == x;
                    assert((v < k[i]) == (t < k[i]));
                },
                IntegerConditionView::Eq(x) => {
                    assert(condition_constants(c)[0] == x);
                    assert(condition_constants(c).contains(x));
                    assert(k.contains(x));
                    let i = choose|i: int| 0 <= i < k.len() && k[i] == x;
                    assert((v == k[i]) == (t == k[i]));
                },
            }
        },
        ConditionView::Parentheses(p) => lemma_agree_holds(*p, v, t, k),
        ConditionView::Not(p) => lemma_agree_holds(*p, v, t, k),
        ConditionView::And(l, r) => {
            assert forall|x: i32| condition_constants(*l).contains(x) implies k.contains(x) by {
                let i = choose|i: int| 0 <= i < condition_constants(*l).len() && condition_constants(*l)[i] == x;
                assert(condition_constants(c)[i] == x);
            }
            assert forall|x: i32| condition_constants(*r).contains(x) implies k.contains(x) by {
                let i = choose|i: int| 0 <= i < condition_constants(*r).len() && condition_constants(*r)[i] == x;
                assert(condition_constants(c)[condition_constants(*l).len() + i] == x);
            }
            lemma_agree_holds(*l, v, t, k);
            lemma_agree_holds(*r, v, t, k);
        },
        ConditionView::Or(l, r) => {
            assert forall|x: i32| condition_constants(*l).contains(x) implies k.contains(x) by {
                let i = choose|i: int| 0 <= i < condition_constants(*l).len() && condition_constants(*l)[i] == x;
                assert(condition_constants(c)[i] == x);
            }
            assert forall|x: i32| condition_constants(*r).contains(x) implies k.contains(x) by {
                let i = choose|i: int| 0 <= i < condition_constants(*r).len() && condition_constants(*r)[i] == x;
                assert(condition_constants(c)[condition_constants(*l).len() + i] == x);
            }
            lemma_agree_holds(*l, v, t, k);
            lemma_agree_holds(*r, v, t, k);
        },
    }
}

/// The largest constant of `k` at most `v`, if any.
pub open spec fn floor_in(k: Seq<i32>, v: i32) -> Option<i32>
    decreases k.len(),
{
    if k.len() == 0 {
        None
    } else {
        let m = floor_in(k.drop_last(), v);
        if k.last() <= v && (m matches Some(x) ==> x < k.last()) {
            Some(k.last())
        } else {
            m
        }
    }
}

proof fn lemma_floor_in(k: Seq<i32>, v: i32)
    ensures
        floor_in(k, v) matches Some(a) ==> k.contains(a) && a <= v && forall|i: int|
            0 <= i < k.len() && k[i] <= v ==> #[trigger] k[i] <= a,
        floor_in(k, v) is None ==> forall|i: int| 0 <= i < k.len() ==> #[trigger] k[i] > v,
    decreases k.len(),
{
    if k.len() > 0 {
        lemma_floor_in(k.drop_last(), v);
        let m = floor_in(k.drop_last(), v);
        assert forall|i: int| 0 <= i < k.len() - 1 implies #[trigger] k[i] == k.drop_last()[i] by {}
        if let Some(a) = floor_in(k, v) {
            if a == k.last() {
                assert(k[k.len() - 1] == a);
            } else {
                let i = choose|i: int| 0 <= i < k.drop_last().len() && k.drop_last()[i] == a;
                assert(k[i] == a);
            }
        }
    }
}

/// A value at which every condition over the constants `k` behaves as at
/// `v`: `v` itself when it is a constant, else one above the largest
/// constant below it, else the least value.
proof fn lemma_witness(k: Seq<i32>, v: i32) -> (t: i32)
    ensures
        agree(v, t, k),
        t == i32::MIN || k.contains(t) || exists|i: int| 0 <= i < k.len() && k[i] < i32::MAX && t == k[i] + 1,
{
    lemma_floor_in(k, v);
    match floor_in(k, v) {
        Some(a) => {
            if a == v {
                v
            } else {
                let i = choose|i: int| 0 <= i < k.len() && k[i] == a;
                assert(k[i] < i32::MAX);
                let t = (a + 1) as i32;
                assert forall|j: int| 0 <= j < k.len() implies ((v < #[trigger] k[j]) == (t < k[j]) && (v == k[j]) == (t == k[j])) by {
                    if k[j] <= v {
                        assert(k[j] <= a);
                    }
                }
                t
            }
        },
        None => i32::MIN,
    }
}

impl Clone for GenericCondition {
    fn clone(&self) -> (r: Self)
        ensures
            r@ == self@,
        decreases self,
    {
        match self {
            GenericCondition::NoCondition => GenericCondition::NoCondition,
            GenericCondition::Single(t) => GenericCondition::Single(t.clone()),
            GenericCondition::Parentheses(p) => GenericCondition::Parentheses(
                Box::new((**p).clone()),
            ),
            GenericCondition::Not(p) => GenericCondition::Not(Box::new((**p).clone())),
            GenericCondition::And(l, r) => GenericCondition::And(
                Box::new((**l).clone()),
                Box::new((**r).clone()),
            ),
            GenericCondition::Or(l, r) => GenericCondition::Or(
                Box::new((**l).clone()),
                Box::new((**r).clone()),
            ),
        }
    }
}

impl GenericCondition {
    /// Whether the two conditions are the same.
    pub fn same_as(&self, other: &GenericCondition) -> (r: bool)
        ensures
            r == (self@ == other@),
        decreases self,
    {
        match (self, other) {
            (GenericCondition::NoCondition, GenericCondition::NoCondition) => true,
            (GenericCondition::Single(a), GenericCondition::Single(b)) => a.same_as(b),
            (GenericCondition::Parentheses(a), GenericCondition::Parentheses(b)) => (**a).same_as(
                &**b,
            ),
            (GenericCondition::Not(a), GenericCondition::Not(b)) => (**a).same_as(&**b),
            (GenericCondition::And(a, b), GenericCondition::And(c, d)) => {
                (**a).same_as(&**c) && (**b).same_as(&**d)
            },
            (GenericCondition::Or(a, b), GenericCondition::Or(c, d)) => {
                (**a).same_as(&**c) && (**b).same_as(&**d)
            },
            _ => false,
        }
    }

    /// Whether this condition only permits values the other condition
    /// permits (see `condition_implies`). The truth of a condition changes
    /// only at the constants it compares with, so it is enough to compare
    /// the two conditions at those constants, just above each of them, and
    /// at the least value.
    pub fn satisfies(&self, other: &GenericCondition) -> (r: bool)
        ensures
            r == condition_implies(self@, other@),
    {
        let mut ks: Vec<i32> = Vec::new();
        self.collect_constants(&mut ks);
        other.collect_constants(&mut ks);
        let ghost k = ks@;
        let ghost ca = condition_constants(self@);
        let ghost cb = condition_constants(other@);
        proof {
            assert(k =~= ca + cb);
            assert forall|x: i32| ca.contains(x) implies k.contains(x) by {
                let i = choose|i: int| 0 <= i < ca.len() && ca[i] == x;
                assert(k[i] == x);
            }
            assert forall|x: i32| cb.contains(x) implies k.contains(x) by {
                let i = choose|i: int| 0 <= i < cb.len() && cb[i] == x;
                assert(k[ca.len() + i] == x);
            }
        }
        let mut points: Vec<i32> = Vec::new();
        points.push(i32::MIN);
        let mut i: usize = 0;
        proof {
            assert(points@[0] == i32::MIN);
        }
        while i < ks.len()
            invariant
                i <= k.len(),
                k == ks@,
                points@.contains(i32::MIN),
                forall|j: int| 0 <= j < i ==> points@.contains(#[trigger] k[j]),
                forall|j: int| 0 <= j < i && k[j] < i32::MAX ==> points@.contains((k[j] + 1) as i32),
            decreases k.len() - i,
        {
            let c = ks[i];
            let ghost before = points@;
            points.push(c);
            if c < i32::MAX {
                points.push(c + 1);
            }
            proof {
                assert forall|x: i32| before.contains(x) implies points@.contains(x) by {
                    let w = choose|w: int| 0 <= w < before.len() && before[w] == x;
                    assert(points@[w] == x);
                }
                assert(points@[before.len() as int] == c);
                if c < i32::MAX {
                    assert(points@[before.len() as int + 1] == (c + 1) as i32);
                }
            }
            i = i + 1;
        }
        let mut j: usize = 0;
        while j < points.len()
            invariant
                j <= points@.len(),
                forall|x: i32| ca.contains(x) ==> k.contains(x),
                forall|x: i32| cb.contains(x) ==> k.contains(x),
                ca == condition_constants(self@),
                cb == condition_constants(other@),
                points@.contains(i32::MIN),
                forall|j: int| 0 <= j < k.len() ==> points@.contains(#[trigger] k[j]),
                forall|j: int| 0 <= j < k.len() && k[j] < i32::MAX ==> points@.contains((k[j] + 1) as i32),
                forall|q: int|
                    0 <= q < j ==> !(self@.holds(#[trigger] points@[q]) && !other@.holds(points@[q])),
            decreases points@.len() - j,
        {
            let p = points[j];
            if self.test_value(p) && !other.test_value(p) {
                proof {
                    assert(self@.holds(p) && !other@.holds(p));
                }
                return false;
            }
            j = j + 1;
        }
        proof {
            assert forall|v: i32| self@.holds(v) implies other@.holds(v) by {
                let t = lemma_witness(k, v);
                lemma_agree_holds(self@, v, t, k);
                lemma_agree_holds(other@, v, t, k);
                if t != i32::MIN && !k.contains(t) {
                    let i = choose|i: int| 0 <= i < k.len() && k[i] < i32::MAX && t == k[i] + 1;
                    assert(points@.contains((k[i] + 1) as i32));
                } else if t != i32::MIN {
                    let i = choose|i: int| 0 <= i < k.len() && k[i] == t;
                    assert(points@.contains(k[i]));
                }
                assert(points@.contains(t));
                let q = choose|q: int| 0 <= q < points@.len() && points@[q] == t;
                assert(!(self@.holds(points@[q]) && !other@.holds(points@[q])));
            }
        }
        true
    }

    /// Appends the constants this condition compares with to `ks`.
    fn collect_constants(&self, ks: &mut Vec<i32>)
        ensures
            final(ks)@ == old(ks)@ + condition_constants(self@),
        decreases self,
    {
        match self {
            GenericCondition::NoCondition => {
                assert(final(ks)@ =~= old(ks)@ + condition_constants(self@)) by {}
            },
            GenericCondition::Single(t) => {
                let ghost before = ks@;
                match t {
                    IntegerCondition::Gt(c) => ks.push(*c),
                    IntegerCondition::Lt(c) => ks.push(*c),
                    IntegerCondition::GtEq(c) => ks.push(*c),
                    IntegerCondition::LtEq(c) => ks.push(*c),
                    IntegerCondition::Eq(c) => ks.push(*c),
                    IntegerCondition::IsIn(v) => {
                        let mut i: usize = 0;
                        while i < v.len()
                            invariant
                                i <= v@.len(),
                                ks@ == before + v@.take(i as int),
                            decreases v@.len() - i,
                        {
                            ks.push(v[i]);
                            proof {
                                assert(v@.take(i + 1) =~= v@.take(i as int).push(v@[i as int]));
                            }
                            i = i + 1;
                        }
                        proof {
                            assert(v@.take(v@.len() as int) =~= v@);
                        }
                    },
                }
                proof {
                    assert(ks@ =~= before + condition_constants(self@));
                }
            },
            GenericCondition::Parentheses(p) => (**p).collect_constants(ks),
            GenericCondition::Not(p) => (**p).collect_constants(ks),
            GenericCondition::And(l, r) => {
                let ghost before = ks@;
                (**l).collect_constants(ks);
                (**r).collect_constants(ks);
                proof {
                    assert(ks@ =~= before + condition_constants(self@));
                }
            },
            GenericCondition::Or(l, r) => {
                let ghost before = ks@;
                (**l).collect_constants(ks);
                (**r).collect_constants(ks);
                proof {
                    assert(ks@ =~= before + condition_constants(self@));
                }
            },
        }
    }

    /// Whether the integer `value` meets the condition.
    pub fn test_value(&self, value: i32) -> (r: bool)
        ensures
            r == self@.holds(value),
        decreases self,
    {
        match self {
            GenericCondition::NoCondition => true,
            GenericCondition::Single(t) => t.test_value(value),
            GenericCondition::Parentheses(p) => (**p).test_value(value),
            GenericCondition::Not(p) => !(**p).test_value(value),
            GenericCondition::And(l, r) => (**l).test_value(value) && (**r).test_value(value),
            GenericCondition::Or(l, r) => (**l).test_value(value) || (**r).test_value(value),
        }
    }

    /// The condition in words (see `ConditionView::text`).
    pub fn text(&self) -> (r: String)
        ensures
            r@ == self@.text(),
        decreases self,
    {
        proof {
            reveal_strlit("None");
            reveal_strlit("(");
            reveal_strlit(")");
            reveal_strlit("!(");
            reveal_strlit(" and ");
            reveal_strlit(" or ");
        }
        match self {
            GenericCondition::NoCondition => String::from_str("None"),
            GenericCondition::Single(t) => t.describe_condition(),
            GenericCondition::Parentheses(p) => {
                let mut r = String::from_str("(");
                let s = (**p).text();
                r.append(s.as_str());
                r.append(")");
                r
            },
            GenericCondition::Not(p) => {
                let mut r = String::from_str("!(");
                let s = (**p).text();
                r.append(s.as_str());
                r.append(")");
                r
            },
            GenericCondition::And(l, r) => {
                let mut a = (**l).text();
                let b = (**r).text();
                a.append(" and ");
                a.append(b.as_str());
                a
            },
            GenericCondition::Or(l, r) => {
                let mut a = (**l).text();
                let b = (**r).text();
                a.append(" or ");
                a.append(b.as_str());
                a
            },
        }
    }

    /// This condition in parentheses.
    pub fn parens(self) -> (r: GenericCondition)
        ensures
            r@ == ConditionView::Parentheses(Box::new(self@)),
    {
        GenericCondition::Parentheses(Box::new(self))
    }

    /// The negation of this condition.
    pub fn invert(self) -> (r: GenericCondition)
        ensures
            r@ == ConditionView::Not(Box::new(self@)),
    {
        GenericCondition::Not(Box::new(self))
    }

    /// This condition and `right`.
    pub fn and(self, right: GenericCondition) -> (r: GenericCondition)
        ensures
            r@ == ConditionView::And(Box::new(self@), Box::new(right@)),
    {
        GenericCondition::And(Box::new(self), Box::new(right))
    }

    /// This condition or `right`.
    pub fn or(self, right: GenericCondition) -> (r: GenericCondition)
        ensures
            r@ == ConditionView::Or(Box::new(self@), Box::new(right@)),
    {
        GenericCondition::Or(Box::new(self), Box::new(right))
    }
}


/// A value meets the inverse of a condition exactly when it does not meet
/// the condition, a conjunction when it meets both sides, a disjunction when
/// it meets either, and parentheses change nothing.
pub proof fn lemma_condition_combinators(c: ConditionView, d: ConditionView, value: i32)
    ensures
        ConditionView::Not(Box::new(c)).holds(value) == !c.holds(value),
        ConditionView::And(Box::new(c), Box::new(d)).holds(value) == (c.holds(value) && d.holds(
            value,
        )),
        ConditionView::Or(Box::new(c), Box::new(d)).holds(value) == (c.holds(value) || d.holds(
            value,
        )),
        ConditionView::Parentheses(Box::new(c)).holds(value) == c.holds(value),
{
}

/// The text that names the implicit bound of an integer kind, followed by
/// ` and `: empty for `Integer`.
pub open spec fn implicit_text(k: IntegerGenericKind) -> Seq<char> {
    match k {
        IntegerGenericKind::Integer => Seq::empty(),
        IntegerGenericKind::Natural => "(Natural, implicit: >= 0) and "@,
        IntegerGenericKind::Positive => "(Positive, implicit: >= 1) and "@,
    }
}

/// The model of a generic parameter's kind: an integer kind with its
/// condition, or a dimensionality with its condition.
pub enum KindView {
    Integer(IntegerGenericKind, ConditionView),
    Dimensionality(ConditionView),
}

/// An integer generic parameter: its kind and the condition on its values.
#[derive(Debug, PartialEq, Eq, Hash)]
pub struct IntegerGeneric {
    kind: IntegerGenericKind,
    condition: GenericCondition,
}

impl View for IntegerGeneric {
    type V = (IntegerGenericKind, ConditionView);

    closed spec fn view(&self) -> (IntegerGenericKind, ConditionView) {
        (self.kind, self.condition@)
    }
}

impl Clone for IntegerGeneric {
    fn clone(&self) -> (r: Self)
        ensures
            r@ == self@,
    {
        IntegerGeneric { kind: self.kind, condition: self.condition.clone() }
    }
}

/// Whether the integer kind `k` with condition `c` accepts the integer `x`:
/// naturals are at least 0, positives at least 1, and `c` holds.
pub open spec fn integer_accepts(k: IntegerGenericKind, c: ConditionView, x: i32) -> bool {
    match k {
        IntegerGenericKind::Natural => x >= 0 && c.holds(x),
        IntegerGenericKind::Positive => x >= 1 && c.holds(x),
        IntegerGenericKind::Integer => c.holds(x),
    }
}

/// An integer kind accepts exactly the values its condition holds for,
/// within its range: every `i32` for `Integer` (so without a condition an
/// `Integer` kind accepts every integer, negative ones included), those of
/// at least 0 for `Natural`, of at least 1 for `Positive`. Each kind's
/// values are thus among those of the wider kinds.
pub proof fn lemma_integer_kinds_accept(c: ConditionView, x: i32)
    ensures
        integer_accepts(IntegerGenericKind::Integer, ConditionView::NoCondition, x),
        integer_accepts(IntegerGenericKind::Natural, ConditionView::NoCondition, x) == (x >= 0),
        integer_accepts(IntegerGenericKind::Positive, ConditionView::NoCondition, x) == (x >= 1),
        integer_accepts(IntegerGenericKind::Integer, c, x) == c.holds(x),
        integer_accepts(IntegerGenericKind::Natural, c, x) == (x >= 0 && integer_accepts(
            IntegerGenericKind::Integer,
            c,
            x,
        )),
        integer_accepts(IntegerGenericKind::Positive, c, x) == (x >= 1 && integer_accepts(
            IntegerGenericKind::Natural,
            c,
            x,
        )),
        kind_accepts(
            KindView::Integer(IntegerGenericKind::Integer, ConditionView::NoCondition),
            ValueView::Integer(x),
        ),
        kind_accepts(KindView::Dimensionality(ConditionView::NoCondition), ValueView::Integer(x)) == (x
            >= 2),
        kind_accepts(KindView::Dimensionality(c), ValueView::Integer(x)) == (x >= 2 && c.holds(x)),
{
}

impl IntegerGeneric {
    /// Any integer.
    pub fn integer() -> (r: IntegerGeneric)
        ensures
            r@ == (IntegerGenericKind::Integer, ConditionView::NoCondition),
    {
        IntegerGeneric { kind: IntegerGenericKind::Integer, condition: GenericCondition::NoCondition }
    }

    /// Any integer of at least 0.
    pub fn natural() -> (r: IntegerGeneric)
        ensures
            r@ == (IntegerGenericKind::Natural, ConditionView::NoCondition),
    {
        IntegerGeneric { kind: IntegerGenericKind::Natural, condition: GenericCondition::NoCondition }
    }

    /// Any integer of at least 1.
    pub fn positive() -> (r: IntegerGeneric)
        ensures
            r@ == (IntegerGenericKind::Positive, ConditionView::NoCondition),
    {
        IntegerGeneric { kind: IntegerGenericKind::Positive, condition: GenericCondition::NoCondition }
    }

    pub fn kind(&self) -> (r: &IntegerGenericKind)
        ensures
            *r == self@.0,
    {
        &self.kind
    }

    pub fn condition(&self) -> (r: &GenericCondition)
        ensures
            r@ == self@.1,
    {
        &self.condition
    }

    pub fn set_condition(&mut self, condition: GenericCondition)
        ensures
            final(self)@ == (old(self)@.0, condition@),
    {
        self.condition = condition;
    }

    /// This kind with `condition` in place of its condition.
    pub fn with_condition(self, condition: GenericCondition) -> (r: Result<IntegerGeneric, Error>)
        ensures
            r matches Ok(g) && g@ == (self@.0, condition@),
    {
        let mut s = self;
        s.set_condition(condition);
        Ok(s)
    }

    /// Whether `value` is a valid value: an integer that this kind accepts,
    /// or a reference or combination (whose value is not known).
    pub fn valid_value(&self, value: &GenericParamValue) -> (r: Result<bool, Error>)
        ensures
            r == Ok::<bool, Error>(
                match value@ {
                    ValueView::Integer(x) => integer_accepts(self@.0, self@.1, x),
                    _ => true,
                },
            ),
    {
        match value {
            GenericParamValue::Integer(x) => {
                let x = *x;
                match self.kind {
                    IntegerGenericKind::Natural => {
                        if x < 0 {
                            return Ok(false);
                        }
                    },
                    IntegerGenericKind::Positive => {
                        if x < 1 {
                            return Ok(false);
                        }
                    },
                    IntegerGenericKind::Integer => {},
                }
                Ok(self.condition.test_value(x))
            },
            _ => Ok(true),
        }
    }

    /// The condition in words, led by the kind's implicit bound.
    pub fn describe_condition(&self) -> (r: String)
        ensures
            r@ == implicit_text(self@.0) + match self@.1 {
                ConditionView::NoCondition => Seq::empty(),
                c => c.text(),
            },
    {
        let mut r = match self.kind {
            IntegerGenericKind::Integer => String::new(),
            IntegerGenericKind::Natural => String::from_str("(Natural, implicit: >= 0) and "),
            IntegerGenericKind::Positive => String::from_str("(Positive, implicit: >= 1) and "),
        };
        match &self.condition {
            GenericCondition::NoCondition => {
                assert(r@ =~= implicit_text(self@.0) + Seq::<char>::empty());
            },
            c => {
                let t = c.text();
                r.append(t.as_str());
            },
        }
        r
    }
}

/// A dimensionality parameter of an interface, with a condition on its
/// values.
#[derive(Debug, PartialEq, Eq, Hash)]
pub struct DimensionalityGeneric {
    condition: GenericCondition,
}

impl View for DimensionalityGeneric {
    type V = ConditionView;

    closed spec fn view(&self) -> ConditionView {
        self.condition@
    }
}

impl Clone for DimensionalityGeneric {
    fn clone(&self) -> (r: Self)
        ensures
            r@ == self@,
    {
        DimensionalityGeneric { condition: self.condition.clone() }
    }
}

impl DimensionalityGeneric {
    /// A dimensionality without further condition.
    pub fn new() -> (r: DimensionalityGeneric)
        ensures
            r@ == ConditionView::NoCondition,
    {
        DimensionalityGeneric { condition: GenericCondition::NoCondition }
    }

    pub fn condition(&self) -> (r: &GenericCondition)
        ensures
            r@ == self@,
    {
        &self.condition
    }

    pub fn set_condition(&mut self, condition: GenericCondition)
        ensures
            final(self)@ == condition@,
    {
        self.condition = condition;
    }

    /// This dimensionality with `condition` in place of its condition.
    pub fn with_condition(self, condition: GenericCondition) -> (r: Result<
        DimensionalityGeneric,
        Error,
    >)
        ensures
            r matches Ok(g) && g@ == condition@,
    {
        let mut s = self;
        s.set_condition(condition);
        Ok(s)
    }

    /// Whether `value` is a valid value: an integer of at least 2 that meets
    /// the condition, or a reference or combination.
    pub fn valid_value(&self, value: &GenericParamValue) -> (r: Result<bool, Error>)
        ensures
            r == Ok::<bool, Error>(
                match value@ {
                    ValueView::Integer(x) => x >= 2 && self@.holds(x),
                    _ => true,
                },
            ),
    {
        match value {
            GenericParamValue::Integer(x) => {
                if *x < 2 {
                    Ok(false)
                } else {
                    Ok(self.condition.test_value(*x))
                }
            },
            _ => Ok(true),
        }
    }

    /// The condition in words, led by the implicit bound.
    pub fn describe_condition(&self) -> (r: String)
        ensures
            r@ == "(Dimensionality, implicit: >= 2)"@ + match self@ {
                ConditionView::NoCondition => Seq::empty(),
                c => " and "@ + c.text(),
            },
    {
        let mut r = String::from_str("(Dimensionality, implicit: >= 2)");
        match &self.condition {
            GenericCondition::NoCondition => {
                assert(r@ =~= "(Dimensionality, implicit: >= 2)"@ + Seq::<char>::empty());
            },
            c => {
                let t = c.text();
                r.append(" and ");
                r.append(t.as_str());
                assert(r@ =~= "(Dimensionality, implicit: >= 2)"@ + (" and "@ + c@.text()));
            },
        }
        r
    }
}

/// Generic parameters that change the behaviour of a component.
#[derive(Debug, PartialEq, Eq, Hash)]
pub enum BehavioralGenericKind {
    Integer(IntegerGeneric),
}

/// Generic parameters that change the interface of a component.
#[derive(Debug, PartialEq, Eq, Hash)]
pub enum InterfaceGenericKind {
    Dimensionality(DimensionalityGeneric),
}

impl InterfaceGenericKind {
    /// A dimensionality without further condition.
    pub fn dimensionality() -> (r: InterfaceGenericKind)
        ensures
            r matches InterfaceGenericKind::Dimensionality(d) && d@ == ConditionView::NoCondition,
    {
        InterfaceGenericKind::Dimensionality(DimensionalityGeneric::new())
    }
}

/// The kind of a generic parameter.
#[derive(Debug, PartialEq, Eq, Hash)]
pub enum GenericKind {
    Behavioral(BehavioralGenericKind),
    Interface(InterfaceGenericKind),
}

impl View for GenericKind {
    type V = KindView;

    open spec fn view(&self) -> KindView {
        match self {
            GenericKind::Behavioral(BehavioralGenericKind::Integer(i)) => KindView::Integer(
                i@.0,
                i@.1,
            ),
            GenericKind::Interface(InterfaceGenericKind::Dimensionality(d)) => KindView::Dimensionality(
                d@,
            ),
        }
    }
}

impl Clone for GenericKind {
    fn clone(&self) -> (r: Self)
        ensures
            r@ == self@,
    {
        match self {
            GenericKind::Behavioral(BehavioralGenericKind::Integer(i)) => GenericKind::Behavioral(
                BehavioralGenericKind::Integer(i.clone()),
            ),
            GenericKind::Interface(InterfaceGenericKind::Dimensionality(d)) => GenericKind::Interface(
                InterfaceGenericKind::Dimensionality(d.clone()),
            ),
        }
    }
}

/// Whether a parameter of kind `a` may stand where kind `b` is expected:
/// both integers of the same integer kind, or both dimensionalities.
pub open spec fn kind_satisfies(a: KindView, b: KindView) -> bool {
    match (a, b) {
        (KindView::Integer(ka, ca), KindView::Integer(kb, cb)) => ka == kb && condition_implies(
            ca,
            cb,
        ),
        (KindView::Dimensionality(ca), KindView::Dimensionality(cb)) => condition_implies(ca, cb),
        _ => false,
    }
}

/// A kind that satisfies another accepts no value that the other refuses,
/// every kind satisfies itself, and kinds of two different sorts (two
/// different integer kinds, or an integer kind and dimensionality) never
/// satisfy each other.
pub proof fn lemma_satisfies_is_sound(a: KindView, b: KindView, x: i32)
    ensures
        kind_satisfies(a, b) && kind_accepts(a, ValueView::Integer(x)) ==> kind_accepts(
            b,
            ValueView::Integer(x),
        ),
        kind_satisfies(a, a),
        (a matches KindView::Integer(ka, _) && b matches KindView::Integer(kb, _) && ka != kb)
            ==> !kind_satisfies(a, b),
        (a is Integer && b is Dimensionality) ==> !kind_satisfies(a, b) && !kind_satisfies(b, a),
{
    if kind_satisfies(a, b) && kind_accepts(a, ValueView::Integer(x)) {
        match (a, b) {
            (KindView::Integer(ka, ca), KindView::Integer(kb, cb)) => {
                assert(ca.holds(x));
            },
            (KindView::Dimensionality(ca), KindView::Dimensionality(cb)) => {
                assert(ca.holds(x));
            },
            _ => {},
        }
    }
}

/// The condition on values of a kind, in words, led by its implicit bound.
pub open spec fn kind_description(k: KindView) -> Seq<char> {
    match k {
        KindView::Integer(i, c) => implicit_text(i) + match c {
            ConditionView::NoCondition => Seq::empty(),
            c => c.text(),
        },
        KindView::Dimensionality(c) => "(Dimensionality, implicit: >= 2)"@ + match c {
            ConditionView::NoCondition => Seq::empty(),
            c => " and "@ + c.text(),
        },
    }
}

/// Why the kind `a` does not meet the requirements of `b`: another kind of
/// parameter, or a more permissive condition.
pub open spec fn kind_mismatch_message(a: KindView, b: KindView) -> Seq<char> {
    match (a, b) {
        (KindView::Integer(ka, _), KindView::Integer(kb, _)) => if ka != kb {
            "Expected a parameter of type "@ + integer_kind_text(kb) + ", this is a parameter with type "@
                + integer_kind_text(ka)
        } else {
            "Condition \""@ + kind_description(a) + "\" is more permissive than condition \""@
                + kind_description(b) + "\""@
        },
        (KindView::Dimensionality(_), KindView::Dimensionality(_)) => "Condition \""@
            + kind_description(a) + "\" is more permissive than condition \""@ + kind_description(b)
            + "\""@,
        _ => "Expected a parameter of type "@ + kind_text(b) + ", this is a parameter with type "@
            + kind_text(a),
    }
}

/// Whether a parameter of kind `k` accepts `value`.
pub open spec fn kind_accepts(k: KindView, value: ValueView) -> bool {
    match value {
        ValueView::Integer(x) => match k {
            KindView::Integer(ik, c) => integer_accepts(ik, c, x),
            KindView::Dimensionality(c) => x >= 2 && c.holds(x),
        },
        _ => true,
    }
}

impl GenericKind {
    /// The kind in words, such as `Behavioral(Natural)` or
    /// `Interface(Dimensionality)`.
    pub fn text(&self) -> (r: String)
        ensures
            r@ == kind_text(self@),
    {
        match self {
            GenericKind::Behavioral(BehavioralGenericKind::Integer(i)) => {
                let mut t = String::from_str("Behavioral(");
                t.append(i.kind.text());
                t.append(")");
                t
            },
            GenericKind::Interface(InterfaceGenericKind::Dimensionality(_)) => String::from_str(
                "Interface(Dimensionality)",
            ),
        }
    }

    /// Whether the two kinds are the same.
    pub fn same_as(&self, other: &GenericKind) -> (r: bool)
        ensures
            r == (self@ == other@),
    {
        match (self, other) {
            (
                GenericKind::Behavioral(BehavioralGenericKind::Integer(a)),
                GenericKind::Behavioral(BehavioralGenericKind::Integer(b)),
            ) => a.kind == b.kind && a.condition.same_as(&b.condition),
            (
                GenericKind::Interface(InterfaceGenericKind::Dimensionality(a)),
                GenericKind::Interface(InterfaceGenericKind::Dimensionality(b)),
            ) => a.condition.same_as(&b.condition),
            _ => false,
        }
    }

    /// Checks that this kind meets the requirements of `other`: the same kind
    /// of parameter, with a condition no more permissive than the other's
    /// (see `kind_satisfies`); else an `InvalidArgument` error saying why
    /// (see `kind_mismatch_message`).
    pub fn satisfies(&self, other: &GenericKind) -> (r: Result<(), Error>)
        ensures
            r is Ok <==> kind_satisfies(self@, other@),
            r matches Err(e) ==> e is InvalidArgument && e->InvalidArgument_0@ == kind_mismatch_message(
                self@,
                other@,
            ),
    {
        let same = match (self, other) {
            (
                GenericKind::Behavioral(BehavioralGenericKind::Integer(i)),
                GenericKind::Behavioral(BehavioralGenericKind::Integer(other_i)),
            ) => {
                if i.kind == other_i.kind {
                    i.condition.satisfies(&other_i.condition)
                } else {
                    let mut m = String::from_str("Expected a parameter of type ");
                    m.append(other_i.kind.text());
                    m.append(", this is a parameter with type ");
                    m.append(i.kind.text());
                    return Err(Error::InvalidArgument(m));
                }
            },
            (
                GenericKind::Interface(InterfaceGenericKind::Dimensionality(d)),
                GenericKind::Interface(InterfaceGenericKind::Dimensionality(other_d)),
            ) => d.condition.satisfies(&other_d.condition),
            _ => {
                let a = other.text();
                let b = self.text();
                let mut m = String::from_str("Expected a parameter of type ");
                m.append(a.as_str());
                m.append(", this is a parameter with type ");
                m.append(b.as_str());
                return Err(Error::InvalidArgument(m));
            },
        };
        if same {
            Ok(())
        } else {
            let a = self.describe_condition();
            let b = other.describe_condition();
            let mut m = String::from_str("Condition \"");
            m.append(a.as_str());
            m.append("\" is more permissive than condition \"");
            m.append(b.as_str());
            m.append("\"");
            Err(Error::InvalidArgument(m))
        }
    }

    /// Whether `value` is a valid value for a parameter of this kind.
    pub fn valid_value(&self, value: &GenericParamValue) -> (r: Result<bool, Error>)
        ensures
            r == Ok::<bool, Error>(kind_accepts(self@, value@)),
    {
        match self {
            GenericKind::Behavioral(BehavioralGenericKind::Integer(i)) => i.valid_value(value),
            GenericKind::Interface(InterfaceGenericKind::Dimensionality(d)) => d.valid_value(value),
        }
    }

    /// The condition on values of this kind, in words.
    pub fn describe_condition(&self) -> (r: String)
        ensures
            r@ == match self@ {
                KindView::Integer(k, c) => implicit_text(k) + match c {
                    ConditionView::NoCondition => Seq::empty(),
                    c => c.text(),
                },
                KindView::Dimensionality(c) => "(Dimensionality, implicit: >= 2)"@ + match c {
                    ConditionView::NoCondition => Seq::empty(),
                    c => " and "@ + c.text(),
                },
            },
    {
        match self {
            GenericKind::Behavioral(BehavioralGenericKind::Integer(i)) => i.describe_condition(),
            GenericKind::Interface(InterfaceGenericKind::Dimensionality(d)) => d.describe_condition(),
        }
    }
}

impl From<IntegerGeneric> for GenericKind {
    fn from(g: IntegerGeneric) -> (r: GenericKind) {
        GenericKind::Behavioral(BehavioralGenericKind::Integer(g))
    }
}

impl vstd::std_specs::convert::FromSpecImpl<IntegerGeneric> for GenericKind {
    open spec fn obeys_from_spec() -> bool {
        true
    }

    open spec fn from_spec(g: IntegerGeneric) -> GenericKind {
        GenericKind::Behavioral(BehavioralGenericKind::Integer(g))
    }
}

impl From<InterfaceGenericKind> for GenericKind {
    fn from(k: InterfaceGenericKind) -> (r: GenericKind) {
        GenericKind::Interface(k)
    }
}

impl vstd::std_specs::convert::FromSpecImpl<InterfaceGenericKind> for GenericKind {
    open spec fn obeys_from_spec() -> bool {
        true
    }

    open spec fn from_spec(k: InterfaceGenericKind) -> GenericKind {
        GenericKind::Interface(k)
    }
}

impl From<DimensionalityGeneric> for GenericKind {
    fn from(d: DimensionalityGeneric) -> (r: GenericKind) {
        GenericKind::Interface(InterfaceGenericKind::Dimensionality(d))
    }
}

impl vstd::std_specs::convert::FromSpecImpl<DimensionalityGeneric> for GenericKind {
    open spec fn obeys_from_spec() -> bool {
        true
    }

    open spec fn from_spec(d: DimensionalityGeneric) -> GenericKind {
        GenericKind::Interface(InterfaceGenericKind::Dimensionality(d))
    }
}


/// The model of a generic parameter.
pub struct GenericParameterView {
    pub name: Seq<char>,
    pub kind: KindView,
    pub default_value: ValueView,
    pub doc: Option<Seq<char>>,
}

/// A generic parameter: its name, kind, default value and documentation.
#[derive(Debug, PartialEq, Eq, Hash)]
pub struct GenericParameter {
    name: Name,
    kind: GenericKind,
    default_value: GenericParamValue,
    doc: Option<String>,
}

impl View for GenericParameter {
    type V = GenericParameterView;

    closed spec fn view(&self) -> GenericParameterView {
        GenericParameterView {
            name: self.name@,
            kind: self.kind@,
            default_value: self.default_value@,
            doc: match self.doc {
                Some(d) => Some(d@),
                None => None,
            },
        }
    }
}

impl Clone for GenericParameter {
    fn clone(&self) -> (r: Self)
        ensures
            r@ == self@,
    {
        let doc = match &self.doc {
            Some(d) => Some(d.clone()),
            None => None,
        };
        GenericParameter {
            name: self.name.clone(),
            kind: self.kind.clone(),
            default_value: self.default_value.clone(),
            doc,
        }
    }
}

impl GenericParameter {
    /// A parameter named `name` of kind `kind` whose default is `default_value`
    /// simplified. Fails with an `InvalidArgument` error when the name is not
    /// valid, when the simplified default is not a fixed integer, or when the
    /// kind does not accept it.
    pub fn try_new(name: &str, kind: GenericKind, default_value: GenericParamValue) -> (r: Result<
        GenericParameter,
        Error,
    >)
        requires
            !(value_reduction(default_value@) is Panics),
        ensures
            ({
                let d = value_reduction(default_value@)->Value_0;
                if valid_name(name@) && d is Integer && kind_accepts(kind@, d) {
                    r matches Ok(p) && p@ == GenericParameterView {
                        name: name@,
                        kind: kind@,
                        default_value: d,
                        doc: None,
                    }
                } else {
                    r matches Err(e) && e is InvalidArgument
                }
            }),
    {
        let name = match Name::try_new(name) {
            Ok(n) => n,
            Err(e) => {
                return Err(e);
            },
        };
        let default_value = default_value.reduce();
        let r = GenericParameter { name, kind, default_value, doc: None };
        if !r.default_value.is_fixed() {
            let t = r.default_value.text();
            return Err(
                Error::InvalidArgument(concat(&["Default value (", t.as_str(), ") is not fixed."])),
            );
        }
        let valid = match r.valid_value(&r.default_value) {
            Ok(v) => v,
            Err(e) => {
                return Err(e);
            },
        };
        if valid {
            Ok(r)
        } else {
            let t = r.default_value.text();
            let c = r.describe_condition();
            Err(
                Error::InvalidArgument(
                    concat(
                        &[
                            "Default value (",
                            t.as_str(),
                            ") is not valid for condition: ",
                            c.as_str(),
                        ],
                    ),
                ),
            )
        }
    }

    pub fn name(&self) -> (r: &Name)
        ensures
            r@ == self@.name,
    {
        &self.name
    }

    pub fn kind(&self) -> (r: &GenericKind)
        ensures
            r@ == self@.kind,
    {
        &self.kind
    }

    pub fn default_value(&self) -> (r: &GenericParamValue)
        ensures
            r@ == self@.default_value,
    {
        &self.default_value
    }

    /// The default value, taken out.
    pub fn default_value_take(self) -> (r: GenericParamValue)
        ensures
            r@ == self@.default_value,
    {
        self.default_value
    }

    pub fn doc(&self) -> (r: Option<&String>)
        ensures
            match r {
                Some(d) => self@.doc == Some(d@),
                None => self@.doc is None,
            },
    {
        match &self.doc {
            Some(d) => Some(d),
            None => None,
        }
    }

    pub fn set_doc(&mut self, doc: String)
        ensures
            final(self)@ == (GenericParameterView { doc: Some(doc@), ..old(self)@ }),
    {
        self.doc = Some(doc);
    }

    /// Whether `value` is a valid value for this parameter's kind.
    pub fn valid_value(&self, value: &GenericParamValue) -> (r: Result<bool, Error>)
        ensures
            r == Ok::<bool, Error>(kind_accepts(self@.kind, value@)),
    {
        self.kind.valid_value(value)
    }

    /// The condition on this parameter's values, in words.
    pub fn describe_condition(&self) -> (r: String)
        ensures
            r@ == match self@.kind {
                KindView::Integer(k, c) => implicit_text(k) + match c {
                    ConditionView::NoCondition => Seq::empty(),
                    c => c.text(),
                },
                KindView::Dimensionality(c) => "(Dimensionality, implicit: >= 2)"@ + match c {
                    ConditionView::NoCondition => Seq::empty(),
                    c => " and "@ + c.text(),
                },
            },
    {
        self.kind.describe_condition()
    }

    /// A reference to this parameter.
    pub fn to_ref(&self) -> (r: RefValue)
        ensures
            r@ == (self@.name, self@.kind),
    {
        RefValue::new(self.name.clone(), self.kind.clone())
    }
}

impl GenericParameter {
    /// A reference to this parameter, as a value.
    pub fn into_value(self) -> (v: GenericParamValue)
        ensures
            v@ == ValueView::Ref(self@.name, self@.kind),
    {
        GenericParamValue::Ref(RefValue::new(self.name, self.kind))
    }
}

impl GenericParamValueOps for GenericParameter {
    open spec fn value_of(self) -> ValueView {
        ValueView::Ref(self@.name, self@.kind)
    }

    fn g_negative(self) -> (r: Result<Combination, Error>) {
        let v = GenericParamValue::Ref(self.to_ref());
        v.g_negative()
    }

    fn g_add(self, right: GenericParamValue) -> (r: Result<Combination, Error>) {
        let v = GenericParamValue::Ref(self.to_ref());
        v.g_add(right)
    }

    fn g_sub(self, right: GenericParamValue) -> (r: Result<Combination, Error>) {
        let v = GenericParamValue::Ref(self.to_ref());
        v.g_sub(right)
    }

    fn g_mul(self, right: GenericParamValue) -> (r: Result<Combination, Error>) {
        let v = GenericParamValue::Ref(self.to_ref());
        v.g_mul(right)
    }

    fn g_div(self, right: GenericParamValue) -> (r: Result<Combination, Error>) {
        let v = GenericParamValue::Ref(self.to_ref());
        v.g_div(right)
    }

    fn g_mod(self, right: GenericParamValue) -> (r: Result<Combination, Error>) {
        let v = GenericParamValue::Ref(self.to_ref());
        v.g_mod(right)
    }
}

} // verus!
