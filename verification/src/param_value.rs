//! Values of generic parameters: integers, references to parameters, and
//! arithmetic combinations of those, with their simplification.
use vstd::prelude::*;
use crate::error::Error;
use crate::generics::{GenericKind, KindView, MathOperator, kind_text, symbol_text};
use crate::messages::concat;
use crate::name::Name;

verus! {

/// A reference to a generic parameter: its name and kind.
#[derive(Debug, PartialEq, Eq, Hash)]
pub struct RefValue {
    name: Name,
    kind: GenericKind,
}

impl View for RefValue {
    type V = (Seq<char>, KindView);

    closed spec fn view(&self) -> (Seq<char>, KindView) {
        (self.name@, self.kind@)
    }
}

impl Clone for RefValue {
    fn clone(&self) -> (r: Self)
        ensures
            r@ == self@,
    {
        RefValue { name: self.name.clone(), kind: self.kind.clone() }
    }
}

impl RefValue {
    /// A reference to the parameter with the given name and kind.
    pub fn new(name: Name, kind: GenericKind) -> (r: RefValue)
        ensures
            r@ == (name@, kind@),
    {
        RefValue { name, kind }
    }

    pub fn name(&self) -> (r: &Name)
        ensures
            r@ == self@.0,
    {
        &self.name
    }

    pub fn kind(&self) -> (r: &GenericKind)
        ensures
            r@ == self@.1,
    {
        &self.kind
    }

    fn same_as(&self, other: &RefValue) -> (r: bool)
        ensures
            r == (self@ == other@),
    {
        self.name.name_eq(&other.name) && self.kind.same_as(&other.kind)
    }

    /// The reference in words: `name: kind`.
    pub fn text(&self) -> (r: String)
        ensures
            r@ == self@.0 + ": "@ + kind_text(self@.1),
    {
        let k = self.kind.text();
        let mut t = String::from_str(self.name.as_str());
        t.append(": ");
        t.append(k.as_str());
        t
    }
}

/// The value of a generic parameter.
#[derive(Debug, PartialEq, Eq, Hash)]
pub enum GenericParamValue {
    Integer(i32),
    Ref(RefValue),
    Combination(Combination),
}

/// A combination of values.
#[derive(Debug, PartialEq, Eq, Hash)]
pub enum Combination {
    Math(MathCombination),
}

/// An arithmetic combination of values.
#[derive(Debug, PartialEq, Eq, Hash)]
pub enum MathCombination {
    Parentheses(Box<MathCombination>),
    Negative(Box<GenericParamValue>),
    Combination(Box<GenericParamValue>, MathOperator, Box<GenericParamValue>),
}

/// The model of a `GenericParamValue`: an integer, a reference (name and
/// kind), or an arithmetic combination.
pub enum ValueView {
    Integer(i32),
    Ref(Seq<char>, KindView),
    Math(MathView),
}

/// The model of a `MathCombination`.
pub enum MathView {
    Parentheses(Box<MathView>),
    Negative(Box<ValueView>),
    Combination(Box<ValueView>, MathOperator, Box<ValueView>),
}

/// A value in words: `Integer(5)`, `Ref(name: kind)` or
/// `Combination(Math(..))`.
pub open spec fn value_text(v: ValueView) -> Seq<char>
    decreases v,
{
    match v {
        ValueView::Integer(i) => "Integer("@ + crate::messages::signed_decimal_spec(i as int) + ")"@,
        ValueView::Ref(n, k) => "Ref("@ + n + ": "@ + kind_text(k) + ")"@,
        ValueView::Math(m) => "Combination(Math("@ + math_text(m) + "))"@,
    }
}

/// A combination in words: `Parentheses(..)`, `Negative(..)` or
/// `left op right`.
pub open spec fn math_text(m: MathView) -> Seq<char>
    decreases m,
{
    match m {
        MathView::Parentheses(p) => "Parentheses("@ + math_text(*p) + ")"@,
        MathView::Negative(n) => "Negative("@ + value_text(*n) + ")"@,
        MathView::Combination(l, op, r) => value_text(*l) + " "@ + symbol_text(op) + " "@ + value_text(*r),
    }
}

pub open spec fn value_view(v: GenericParamValue) -> ValueView
    decreases v,
{
    match v {
        GenericParamValue::Integer(i) => ValueView::Integer(i),
        GenericParamValue::Ref(r) => ValueView::Ref(r@.0, r@.1),
        GenericParamValue::Combination(Combination::Math(m)) => ValueView::Math(math_view(m)),
    }
}

pub open spec fn math_view(m: MathCombination) -> MathView
    decreases m,
{
    match m {
        MathCombination::Parentheses(p) => MathView::Parentheses(Box::new(math_view(*p))),
        MathCombination::Negative(n) => MathView::Negative(Box::new(value_view(*n))),
        MathCombination::Combination(l, op, r) => MathView::Combination(
            Box::new(value_view(*l)),
            op,
            Box::new(value_view(*r)),
        ),
    }
}

impl View for GenericParamValue {
    type V = ValueView;

    open spec fn view(&self) -> ValueView {
        value_view(*self)
    }
}

impl View for MathCombination {
    type V = MathView;

    open spec fn view(&self) -> MathView {
        math_view(*self)
    }
}

impl Clone for GenericParamValue {
    fn clone(&self) -> (r: Self)
        ensures
            r@ == self@,
        decreases self,
    {
        match self {
            GenericParamValue::Integer(i) => GenericParamValue::Integer(*i),
            GenericParamValue::Ref(r) => GenericParamValue::Ref(r.clone()),
            GenericParamValue::Combination(Combination::Math(m)) => GenericParamValue::Combination(
                Combination::Math(m.clone()),
            ),
        }
    }
}

impl Clone for MathCombination {
    fn clone(&self) -> (r: Self)
        ensures
            r@ == self@,
        decreases self,
    {
        match self {
            MathCombination::Parentheses(p) => MathCombination::Parentheses(Box::new((**p).clone())),
            MathCombination::Negative(n) => MathCombination::Negative(Box::new((**n).clone())),
            MathCombination::Combination(l, op, r) => MathCombination::Combination(
                Box::new((**l).clone()),
                *op,
                Box::new((**r).clone()),
            ),
        }
    }
}

impl GenericParamValue {
    /// Whether the two values are the same.
    pub fn same_as(&self, other: &GenericParamValue) -> (r: bool)
        ensures
            r == (self@ == other@),
        decreases self,
    {
        match (self, other) {
            (GenericParamValue::Integer(a), GenericParamValue::Integer(b)) => *a == *b,
            (GenericParamValue::Ref(a), GenericParamValue::Ref(b)) => a.same_as(b),
            (
                GenericParamValue::Combination(Combination::Math(a)),
                GenericParamValue::Combination(Combination::Math(b)),
            ) => a.same_as(b),
            _ => false,
        }
    }

    /// Whether this is the integer `k`.
    pub fn is_int(&self, k: i32) -> (r: bool)
        ensures
            r == (self@ == ValueView::Integer(k)),
    {
        match self {
            GenericParamValue::Integer(i) => *i == k,
            _ => false,
        }
    }
}

impl MathCombination {
    /// Whether the two combinations are the same.
    pub fn same_as(&self, other: &MathCombination) -> (r: bool)
        ensures
            r == (self@ == other@),
        decreases self,
    {
        match (self, other) {
            (MathCombination::Parentheses(a), MathCombination::Parentheses(b)) => (**a).same_as(
                &**b,
            ),
            (MathCombination::Negative(a), MathCombination::Negative(b)) => (**a).same_as(&**b),
            (MathCombination::Combination(a, o, b), MathCombination::Combination(c, p, d)) => {
                *o == *p && (**a).same_as(&**c) && (**b).same_as(&**d)
            },
            _ => false,
        }
    }
}


/// The outcome of simplifying a value: the simplified value, a panic (an
/// integer overflow, or a division or remainder by zero), or running out of
/// the given number of steps.
pub enum Reduction {
    Value(ValueView),
    Panics,
    OutOfSteps,
}

/// The size of a value: 1 for an integer or reference, else the size of its
/// combination.
pub open spec fn gsize(v: ValueView) -> nat
    decreases v,
{
    match v {
        ValueView::Math(m) => msize(m),
        _ => 1,
    }
}

/// The size of a combination: one per node.
pub open spec fn msize(m: MathView) -> nat
    decreases m,
{
    match m {
        MathView::Parentheses(p) => 1 + msize(*p),
        MathView::Negative(n) => 1 + gsize(*n),
        MathView::Combination(l, _, r) => 1 + gsize(*l) + gsize(*r),
    }
}

pub open spec fn is_additive(op: MathOperator) -> bool {
    op is Add || op is Subtract
}

/// A product, quotient or remainder whose left operand is a sum or
/// difference: simplification first binds the operator to the sum's right
/// operand.
pub open spec fn rotates(m: MathView) -> bool {
    &&& m matches MathView::Combination(l, op, _)
    &&& !is_additive(op)
    &&& *l matches ValueView::Math(MathView::Combination(_, f_op, _))
    &&& is_additive(f_op)
}

/// The number of steps that simplifying `m` takes at most.
pub open spec fn steps(m: MathView) -> nat {
    2 * msize(m) + if rotates(m) {
        1nat
    } else {
        0nat
    }
}

pub open spec fn value_steps(v: ValueView) -> nat {
    match v {
        ValueView::Math(m) => steps(m),
        _ => 0,
    }
}

/// Integer arithmetic as Rust's `i32` operators do it, with `None` where
/// they panic.
pub open spec fn int_op(op: MathOperator, a: i32, b: i32) -> Option<i32> {
    match op {
        MathOperator::Add => a.checked_add(b),
        MathOperator::Subtract => a.checked_sub(b),
        MathOperator::Multiply => a.checked_mul(b),
        MathOperator::Divide => a.checked_div(b),
        MathOperator::Modulo => a.checked_rem(b),
    }
}

pub open spec fn int_value(k: i32) -> ValueView {
    ValueView::Integer(k)
}

pub open spec fn comb(l: ValueView, op: MathOperator, r: ValueView) -> ValueView {
    ValueView::Math(MathView::Combination(Box::new(l), op, Box::new(r)))
}

/// The combination of the simplified operands `l` and `r` by `op`:
/// integers are computed, integers moved to the right of sums and products,
/// and identities such as `x - x = 0`, `x * 1 = x` and `0 / x = 0` applied
/// (a sum `x + x` becomes `2 + x`).
pub open spec fn finish(op: MathOperator, l0: ValueView, r0: ValueView) -> Reduction {
    if l0 == int_value(0) && r0 == int_value(0) {
        Reduction::Value(int_value(0))
    } else if l0 is Integer && r0 is Integer {
        match int_op(op, l0->Integer_0, r0->Integer_0) {
            Some(x) => Reduction::Value(int_value(x)),
            None => Reduction::Panics,
        }
    } else {
        let swap = l0 is Integer && (op is Add || op is Multiply);
        let l = if swap {
            r0
        } else {
            l0
        };
        let r = if swap {
            l0
        } else {
            r0
        };
        match op {
            MathOperator::Add => Reduction::Value(
                if l == r {
                    comb(int_value(2), op, r)
                } else if l == int_value(0) {
                    r
                } else if r == int_value(0) {
                    l
                } else {
                    comb(l, op, r)
                },
            ),
            MathOperator::Subtract => Reduction::Value(
                if l == r {
                    int_value(0)
                } else if l == int_value(0) {
                    ValueView::Math(MathView::Negative(Box::new(r)))
                } else if r == int_value(0) {
                    l
                } else {
                    comb(l, op, r)
                },
            ),
            MathOperator::Multiply => Reduction::Value(
                if l == int_value(0) || r == int_value(0) {
                    int_value(0)
                } else if l == int_value(1) {
                    r
                } else if r == int_value(1) {
                    l
                } else {
                    comb(l, op, r)
                },
            ),
            MathOperator::Divide => if l == int_value(0) {
                Reduction::Value(int_value(0))
            } else if r == int_value(0) {
                Reduction::Panics
            } else if r == int_value(1) {
                Reduction::Value(l)
            } else if l == r {
                Reduction::Value(int_value(1))
            } else {
                Reduction::Value(comb(l, op, r))
            },
            MathOperator::Modulo => if l == int_value(0) {
                Reduction::Value(int_value(0))
            } else if r == int_value(0) {
                Reduction::Panics
            } else if r == int_value(1) || l == r {
                Reduction::Value(int_value(0))
            } else {
                Reduction::Value(comb(l, op, r))
            },
        }
    }
}

/// Simplifies a value in at most `fuel` steps: integers and references stay
/// as they are.
pub open spec fn value_reduce(v: ValueView, fuel: nat) -> Reduction
    decreases fuel, 1nat,
{
    match v {
        ValueView::Math(m) => math_reduce(m, fuel),
        _ => Reduction::Value(v),
    }
}

/// Simplifies a combination in at most `fuel` steps.
///
/// * Parentheses are dropped around a single value, a negation or other
///   parentheses.
/// * A negated integer is computed, a negated reference kept, double
///   negation removed, and parentheses inside a negation dropped.
/// * A product, quotient or remainder of a sum or difference `(a + b) * c`
///   is taken as `a + (b * c)`.
/// * Otherwise both operands are simplified and combined by `finish`.
pub open spec fn math_reduce(m: MathView, fuel: nat) -> Reduction
    decreases fuel, 0nat,
{
    if fuel == 0 {
        Reduction::OutOfSteps
    } else {
        let f = (fuel - 1) as nat;
        match m {
            MathView::Parentheses(p) => match math_reduce(*p, f) {
                Reduction::Value(x) => Reduction::Value(
                    match x {
                        ValueView::Math(MathView::Combination(a, o, b)) => ValueView::Math(
                            MathView::Parentheses(Box::new(MathView::Combination(a, o, b))),
                        ),
                        _ => x,
                    },
                ),
                o => o,
            },
            MathView::Negative(n) => match *n {
                ValueView::Integer(i) => if i == i32::MIN {
                    Reduction::Panics
                } else {
                    Reduction::Value(int_value((-i) as i32))
                },
                ValueView::Ref(_, _) => Reduction::Value(ValueView::Math(m)),
                ValueView::Math(MathView::Parentheses(p)) => match math_reduce(*p, f) {
                    Reduction::Value(x) => Reduction::Value(
                        ValueView::Math(MathView::Negative(Box::new(x))),
                    ),
                    o => o,
                },
                ValueView::Math(MathView::Negative(n2)) => value_reduce(*n2, f),
                ValueView::Math(mi) => match math_reduce(mi, f) {
                    Reduction::Value(x) => Reduction::Value(
                        ValueView::Math(MathView::Negative(Box::new(x))),
                    ),
                    o => o,
                },
            },
            MathView::Combination(l, op, r) => if rotates(m) {
                match *l {
                    ValueView::Math(MathView::Combination(f_l, f_op, mid)) => match math_reduce(
                        MathView::Combination(mid, op, r),
                        f,
                    ) {
                        Reduction::Value(x) => math_reduce(
                            MathView::Combination(f_l, f_op, Box::new(x)),
                            f,
                        ),
                        o => o,
                    },
                    _ => Reduction::OutOfSteps,
                }
            } else {
                match value_reduce(*l, f) {
                    Reduction::Value(a) => match value_reduce(*r, f) {
                        Reduction::Value(b) => finish(op, a, b),
                        o => o,
                    },
                    o => o,
                }
            },
        }
    }
}

/// The simplification of a combination.
pub open spec fn math_reduction(m: MathView) -> Reduction {
    math_reduce(m, steps(m))
}

/// The simplification of a value.
pub open spec fn value_reduction(v: ValueView) -> Reduction {
    value_reduce(v, value_steps(v))
}

proof fn lemma_size_pos(v: ValueView)
    ensures
        gsize(v) >= 1,
{
    match v {
        ValueView::Math(m) => {
            assert(msize(m) >= 1);
        },
        _ => {},
    }
}

/// Whether a value is arithmetic on integers alone: it names no parameter,
/// and every negation is of an integer or of another negation.
pub open spec fn plain_value(v: ValueView) -> bool
    decreases v,
{
    match v {
        ValueView::Integer(_) => true,
        ValueView::Ref(_, _) => false,
        ValueView::Math(m) => plain_math(m),
    }
}

pub open spec fn plain_math(m: MathView) -> bool
    decreases m,
{
    match m {
        MathView::Parentheses(p) => plain_math(*p),
        MathView::Negative(n) => match *n {
            ValueView::Integer(_) => true,
            ValueView::Math(MathView::Negative(n2)) => plain_value(*n2),
            _ => false,
        },
        MathView::Combination(l, _, r) => plain_value(*l) && plain_value(*r),
    }
}

/// Applies `op` to two computed operands, `None` where either is missing or
/// the `i32` operation panics.
pub open spec fn apply_op(op: MathOperator, a: Option<i32>, b: Option<i32>) -> Option<i32> {
    match (a, b) {
        (Some(x), Some(y)) => int_op(op, x, y),
        _ => None,
    }
}

/// The number a value stands for as written: `*`, `/` and `%` bind more
/// tightly than `+` and `-`, so an unparenthesised `a + b` as the left
/// operand of a product stands for `a + (b * c)`. `None` for a parameter,
/// and where an `i32` operation would overflow or divide by zero.
pub open spec fn value_meaning(v: ValueView) -> Option<i32>
    decreases gsize(v), 1nat,
{
    match v {
        ValueView::Integer(i) => Some(i),
        ValueView::Ref(_, _) => None,
        ValueView::Math(m) => math_meaning(m),
    }
}

pub open spec fn math_meaning(m: MathView) -> Option<i32>
    decreases msize(m), 0nat,
{
    match m {
        MathView::Parentheses(p) => math_meaning(*p),
        MathView::Negative(n) => match value_meaning(*n) {
            Some(k) => if k == i32::MIN {
                None
            } else {
                Some((-k) as i32)
            },
            None => None,
        },
        MathView::Combination(l, op, r) => {
            if rotates(m) {
                match *l {
                    ValueView::Math(MathView::Combination(f_l, f_op, mid)) => {
                        proof {
                            assert(gsize(*l) == 1 + gsize(*f_l) + gsize(*mid));
                        }
                        apply_op(
                            f_op,
                            value_meaning(*f_l),
                            math_meaning(MathView::Combination(mid, op, r)),
                        )
                    },
                    _ => None,
                }
            } else {
                apply_op(op, value_meaning(*l), value_meaning(*r))
            }
        },
    }
}

/// Simplifying arithmetic on integers computes it: a plain value (see
/// `plain_value`) whose number as written is `k` simplifies to the integer
/// `k`.
pub proof fn lemma_plain_reduces_to_its_value(v: ValueView)
    requires
        plain_value(v),
        value_meaning(v) is Some,
    ensures
        value_reduction(v) == Reduction::Value(ValueView::Integer(value_meaning(v)->0)),
{
    lemma_plain_value(v, value_steps(v));
}

proof fn lemma_plain_value(v: ValueView, fuel: nat)
    requires
        plain_value(v),
        value_meaning(v) is Some,
        fuel >= value_steps(v),
    ensures
        value_reduce(v, fuel) == Reduction::Value(ValueView::Integer(value_meaning(v)->0)),
    decreases fuel, 1nat,
{
    match v {
        ValueView::Math(m) => lemma_plain_math(m, fuel),
        _ => {},
    }
}

proof fn lemma_plain_math(m: MathView, fuel: nat)
    requires
        plain_math(m),
        math_meaning(m) is Some,
        fuel >= steps(m),
    ensures
        math_reduce(m, fuel) == Reduction::Value(ValueView::Integer(math_meaning(m)->0)),
    decreases fuel, 0nat,
{
    assert(msize(m) >= 1);
    let f = (fuel - 1) as nat;
    match m {
        MathView::Parentheses(p) => {
            lemma_plain_math(*p, f);
            assert(math_reduce(*p, f) == Reduction::Value(ValueView::Integer(math_meaning(m)->0)));
        },
        MathView::Negative(n) => match *n {
            ValueView::Integer(i) => {
                assert(value_meaning(*n) == Some(i));
            },
            ValueView::Math(MathView::Negative(n2)) => {
                lemma_size_pos(*n2);
                assert(msize(MathView::Negative(n2)) == 1 + gsize(*n2));
                assert(gsize(*n) == msize(MathView::Negative(n2)));
                assert(msize(m) == 1 + gsize(*n));
                assert(value_steps(*n2) <= 2 * gsize(*n2) + 1) by {
                    match *n2 {
                        ValueView::Math(mm) => {
                            assert(gsize(*n2) == msize(mm));
                        },
                        _ => {},
                    }
                }
                assert(math_meaning(MathView::Negative(n2)) == value_meaning(*n)) by {
                    assert(value_meaning(*n) == math_meaning(MathView::Negative(n2)));
                }
                lemma_plain_value(*n2, f);
            },
            _ => {},
        },
        MathView::Combination(l, op, r) => {
            lemma_size_pos(*l);
            lemma_size_pos(*r);
            if rotates(m) {
                match *l {
                    ValueView::Math(MathView::Combination(f_l, f_op, mid)) => {
                        lemma_size_pos(*f_l);
                        lemma_size_pos(*mid);
                        let inner = MathView::Combination(mid, op, r);
                        assert(plain_value(*l));
                        assert(plain_value(*mid));
                        assert(plain_math(inner));
                        lemma_plain_math(inner, f);
                        let x = math_meaning(inner)->0;
                        let outer = MathView::Combination(f_l, f_op, Box::new(ValueView::Integer(x)));
                        assert(!rotates(outer));
                        assert(plain_value(*f_l));
                        assert(value_meaning(ValueView::Integer(x)) == Some(x));
                        assert(plain_value(ValueView::Integer(x)));
                        assert(gsize(*l) == 1 + gsize(*f_l) + gsize(*mid));
                        assert(gsize(ValueView::Integer(x)) == 1);
                        assert(msize(outer) == 2 + gsize(*f_l));
                        lemma_plain_math(outer, f);
                    },
                    _ => {},
                }
            } else {
                lemma_plain_value(*l, f);
                lemma_plain_value(*r, f);
                let a = value_meaning(*l)->0;
                let b = value_meaning(*r)->0;
                assert(int_op(op, a, b) == Some(math_meaning(m)->0));
                assert(finish(op, ValueView::Integer(a), ValueView::Integer(b)) == Reduction::Value(
                    ValueView::Integer(math_meaning(m)->0),
                ));
            }
        },
    }
}

/// The value of `v` read as a tree, each combination applied to its two
/// operands, with each parameter `n` standing for `env(n)`; `None` where an
/// `i32` operation would overflow or divide by zero.
pub open spec fn value_eval(v: ValueView, env: spec_fn(Seq<char>) -> i32) -> Option<i32>
    decreases v,
{
    match v {
        ValueView::Integer(i) => Some(i),
        ValueView::Ref(n, _) => Some(env(n)),
        ValueView::Math(m) => math_eval(m, env),
    }
}

pub open spec fn math_eval(m: MathView, env: spec_fn(Seq<char>) -> i32) -> Option<i32>
    decreases m,
{
    match m {
        MathView::Parentheses(p) => math_eval(*p, env),
        MathView::Negative(n) => negated(value_eval(*n, env)),
        MathView::Combination(l, op, r) => apply_op(op, value_eval(*l, env), value_eval(*r, env)),
    }
}

/// The negation of a computed value, `None` where it overflows.
pub open spec fn negated(a: Option<i32>) -> Option<i32> {
    match a {
        Some(k) => if k == i32::MIN {
            None
        } else {
            Some((-k) as i32)
        },
        None => None,
    }
}

/// Whether a value reads as its tree: no product, quotient or remainder
/// has an unparenthesised sum or difference as its left operand.
pub open spec fn value_as_tree(v: ValueView) -> bool
    decreases v,
{
    match v {
        ValueView::Math(m) => math_as_tree(m),
        _ => true,
    }
}

pub open spec fn math_as_tree(m: MathView) -> bool
    decreases m,
{
    match m {
        MathView::Parentheses(p) => math_as_tree(*p),
        MathView::Negative(n) => value_as_tree(*n),
        MathView::Combination(l, _, r) => !rotates(m) && value_as_tree(*l) && value_as_tree(*r),
    }
}

/// A sum whose operands simplify to the same combination: simplification
/// writes it as `2 + x`, which is not its value.
pub open spec fn doubles(op: MathOperator, a: Reduction, b: Reduction) -> bool {
    &&& op is Add
    &&& a == b
    &&& !(a matches Reduction::Value(ValueView::Integer(_)))
}

/// Whether no sum in `v` doubles (see `doubles`).
pub open spec fn value_no_doubling(v: ValueView) -> bool
    decreases v,
{
    match v {
        ValueView::Math(m) => math_no_doubling(m),
        _ => true,
    }
}

pub open spec fn math_no_doubling(m: MathView) -> bool
    decreases m,
{
    match m {
        MathView::Parentheses(p) => math_no_doubling(*p),
        MathView::Negative(n) => value_no_doubling(*n),
        MathView::Combination(l, op, r) => value_no_doubling(*l) && value_no_doubling(*r) && !doubles(
            op,
            value_reduction(*l),
            value_reduction(*r),
        ),
    }
}

proof fn lemma_value_fuel(v: ValueView, f1: nat, f2: nat)
    requires
        f1 <= f2,
        !(value_reduce(v, f1) is OutOfSteps),
    ensures
        value_reduce(v, f2) == value_reduce(v, f1),
    decreases f1, 1nat,
{
    match v {
        ValueView::Math(m) => lemma_math_fuel(m, f1, f2),
        _ => {},
    }
}

/// More steps than simplification needs change nothing.
proof fn lemma_math_fuel(m: MathView, f1: nat, f2: nat)
    requires
        f1 <= f2,
        !(math_reduce(m, f1) is OutOfSteps),
    ensures
        math_reduce(m, f2) == math_reduce(m, f1),
    decreases f1, 0nat,
{
    let g1 = (f1 - 1) as nat;
    let g2 = (f2 - 1) as nat;
    match m {
        MathView::Parentheses(p) => {
            lemma_math_fuel(*p, g1, g2);
        },
        MathView::Negative(n) => match *n {
            ValueView::Math(MathView::Parentheses(p)) => {
                lemma_math_fuel(*p, g1, g2);
            },
            ValueView::Math(MathView::Negative(n2)) => {
                lemma_value_fuel(*n2, g1, g2);
            },
            ValueView::Math(mi) => {
                lemma_math_fuel(mi, g1, g2);
            },
            _ => {},
        },
        MathView::Combination(l, op, r) => {
            if rotates(m) {
                match *l {
                    ValueView::Math(MathView::Combination(f_l, f_op, mid)) => {
                        let inner = MathView::Combination(mid, op, r);
                        lemma_math_fuel(inner, g1, g2);
                        match math_reduce(inner, g1) {
                            Reduction::Value(x) => {
                                lemma_math_fuel(
                                    MathView::Combination(f_l, f_op, Box::new(x)),
                                    g1,
                                    g2,
                                );
                            },
                            _ => {},
                        }
                    },
                    _ => {},
                }
            } else {
                lemma_value_fuel(*l, g1, g2);
                if value_reduce(*l, g1) is Value {
                    lemma_value_fuel(*r, g1, g2);
                }
            }
        },
    }
}

proof fn lemma_div_self(x: int)
    requires
        x > 0,
    ensures
        x / x == 1,
        x % x == 0,
{
    vstd::arithmetic::div_mod::lemma_div_by_self(x);
    vstd::arithmetic::div_mod::lemma_mod_self_0(x);
}

/// Combining two simplified operands keeps the value of the combination,
/// unless it doubles.
#[verifier::spinoff_prover]
proof fn lemma_finish_keeps_value(
    op: MathOperator,
    a: ValueView,
    b: ValueView,
    env: spec_fn(Seq<char>) -> i32,
)
    requires
        apply_op(op, value_eval(a, env), value_eval(b, env)) is Some,
        !doubles(op, Reduction::Value(a), Reduction::Value(b)),
    ensures
        finish(op, a, b) matches Reduction::Value(z) && value_eval(z, env) == apply_op(
            op,
            value_eval(a, env),
            value_eval(b, env),
        ),
{
    let x = value_eval(a, env)->0;
    let y = value_eval(b, env)->0;
    let k = apply_op(op, value_eval(a, env), value_eval(b, env))->0;
    assert(int_op(op, x, y) == Some(k));
    if a == int_value(0) && b == int_value(0) {
    } else if a is Integer && b is Integer {
    } else {
        let swap = a is Integer && (op is Add || op is Multiply);
        let l = if swap {
            b
        } else {
            a
        };
        let r = if swap {
            a
        } else {
            b
        };
        let lx = value_eval(l, env)->0;
        let ry = value_eval(r, env)->0;
        assert(value_eval(comb(l, op, r), env) == apply_op(op, value_eval(l, env), value_eval(r, env)));
        match op {
            MathOperator::Add => {
                assert(int_op(op, lx, ry) == Some(k));
            },
            MathOperator::Subtract => {
                if l == r {
                    assert(k == 0);
                } else if l == int_value(0) {
                    assert(value_eval(ValueView::Math(MathView::Negative(Box::new(r))), env) == negated(
                        Some(ry),
                    ));
                }
            },
            MathOperator::Multiply => {
                assert(int_op(op, lx, ry) == Some(k));
            },
            MathOperator::Divide => {
                if l == r && l != int_value(0) {
                    if x > 0 {
                        lemma_div_self(x as int);
                    } else {
                        lemma_div_self(-x);
                        assert((x * -1) / (x * -1) == 1);
                    }
                    assert(k == 1);
                }
            },
            MathOperator::Modulo => {
                if l == r && l != int_value(0) {
                    if x > 0 {
                        lemma_div_self(x as int);
                    } else {
                        lemma_div_self(-x);
                        assert((x * -1) % (x * -1) == 0);
                    }
                    assert(k == 0);
                }
            },
        }
    }
}

proof fn lemma_value_keeps(v: ValueView, fuel: nat, env: spec_fn(Seq<char>) -> i32)
    requires
        value_as_tree(v),
        value_no_doubling(v),
        value_eval(v, env) is Some,
        fuel >= value_steps(v),
    ensures
        value_reduce(v, fuel) matches Reduction::Value(x) && value_eval(x, env) == value_eval(v, env),
    decreases fuel, 1nat,
{
    match v {
        ValueView::Math(m) => lemma_math_keeps(m, fuel, env),
        _ => {},
    }
}

#[verifier::spinoff_prover]
proof fn lemma_math_keeps(m: MathView, fuel: nat, env: spec_fn(Seq<char>) -> i32)
    requires
        math_as_tree(m),
        math_no_doubling(m),
        math_eval(m, env) is Some,
        fuel >= steps(m),
    ensures
        math_reduce(m, fuel) matches Reduction::Value(x) && value_eval(x, env) == math_eval(m, env),
    decreases fuel, 0nat,
{
    assert(msize(m) >= 1);
    let f = (fuel - 1) as nat;
    match m {
        MathView::Parentheses(p) => {
            lemma_math_keeps(*p, f, env);
        },
        MathView::Negative(n) => {
            lemma_size_pos(*n);
            assert(msize(m) == 1 + gsize(*n));
            match *n {
                ValueView::Math(MathView::Parentheses(p)) => {
                    assert(gsize(*n) == 1 + msize(*p));
                    assert(value_as_tree(*n) && value_no_doubling(*n));
                    assert(math_as_tree(MathView::Parentheses(p)));
                    assert(math_no_doubling(MathView::Parentheses(p)));
                    assert(value_eval(*n, env) == math_eval(*p, env));
                    lemma_math_keeps(*p, f, env);
                },
                ValueView::Math(MathView::Negative(n2)) => {
                    lemma_size_pos(*n2);
                    assert(gsize(*n) == 1 + gsize(*n2));
                    assert(value_as_tree(*n) && value_no_doubling(*n));
                    assert(math_as_tree(MathView::Negative(n2)));
                    assert(value_as_tree(*n2));
                    assert(math_no_doubling(MathView::Negative(n2)));
                    assert(value_steps(*n2) <= 2 * gsize(*n2)) by {
                        match *n2 {
                            ValueView::Math(mm) => {
                                assert(gsize(*n2) == msize(mm));
                                assert(!rotates(mm));
                            },
                            _ => {},
                        }
                    }
                    assert(value_eval(*n, env) == negated(value_eval(*n2, env)));
                    lemma_value_keeps(*n2, f, env);
                },
                ValueView::Math(mi) => {
                    assert(gsize(*n) == msize(mi));
                    assert(value_as_tree(*n) && value_no_doubling(*n));
                    assert(math_as_tree(mi) && math_no_doubling(mi));
                    assert(value_eval(*n, env) == math_eval(mi, env));
                    assert(!rotates(mi));
                    lemma_math_keeps(mi, f, env);
                },
                _ => {},
            }
        },
        MathView::Combination(l, op, r) => {
            lemma_size_pos(*l);
            lemma_size_pos(*r);
            assert(!rotates(m));
            assert(value_steps(*l) <= 2 * gsize(*l)) by {
                match *l {
                    ValueView::Math(mm) => {
                        assert(gsize(*l) == msize(mm));
                        assert(value_as_tree(*l));
                        assert(math_as_tree(mm));
                        assert(!rotates(mm));
                    },
                    _ => {},
                }
            }
            assert(value_steps(*r) <= 2 * gsize(*r)) by {
                match *r {
                    ValueView::Math(mm) => {
                        assert(gsize(*r) == msize(mm));
                        assert(value_as_tree(*r));
                        assert(math_as_tree(mm));
                        assert(!rotates(mm));
                    },
                    _ => {},
                }
            }
            lemma_value_keeps(*l, f, env);
            lemma_value_keeps(*r, f, env);
            lemma_value_keeps(*l, value_steps(*l), env);
            lemma_value_keeps(*r, value_steps(*r), env);
            lemma_value_fuel(*l, value_steps(*l), f);
            lemma_value_fuel(*r, value_steps(*r), f);
            let a = value_reduce(*l, f)->Value_0;
            let b = value_reduce(*r, f)->Value_0;
            lemma_finish_keeps_value(op, a, b, env);
        },
    }
}

/// Simplifying keeps the value under every assignment of the parameters:
/// for a value that reads as its tree (see `value_as_tree`), in which no
/// sum doubles (see `doubles`), and whose value under `env` is defined,
/// simplification succeeds and gives a value with the same value under
/// `env`.
pub proof fn lemma_reduce_keeps_value_of_tree(v: ValueView, env: spec_fn(Seq<char>) -> i32)
    requires
        value_as_tree(v),
        value_no_doubling(v),
        value_eval(v, env) is Some,
    ensures
        value_reduction(v) matches Reduction::Value(x) && value_eval(x, env) == value_eval(v, env),
{
    lemma_value_keeps(v, value_steps(v), env);
}

fn is_additive_op(op: MathOperator) -> (r: bool)
    ensures
        r == is_additive(op),
{
    match op {
        MathOperator::Add | MathOperator::Subtract => true,
        _ => false,
    }
}

fn int_op_exec(op: MathOperator, a: i32, b: i32) -> (r: Option<i32>)
    ensures
        r == int_op(op, a, b),
{
    match op {
        MathOperator::Add => a.checked_add(b),
        MathOperator::Subtract => a.checked_sub(b),
        MathOperator::Multiply => a.checked_mul(b),
        MathOperator::Divide => a.checked_div(b),
        MathOperator::Modulo => a.checked_rem(b),
    }
}

fn math_value(m: MathCombination) -> (r: GenericParamValue)
    ensures
        r@ == ValueView::Math(m@),
        gsize(r@) == msize(m@),
{
    GenericParamValue::Combination(Combination::Math(m))
}

fn comb_value(l: GenericParamValue, op: MathOperator, r: GenericParamValue) -> (v: GenericParamValue)
    ensures
        v@ == comb(l@, op, r@),
        gsize(v@) == 1 + gsize(l@) + gsize(r@),
{
    math_value(MathCombination::Combination(Box::new(l), op, Box::new(r)))
}

fn finish_exec(op: MathOperator, l0: GenericParamValue, r0: GenericParamValue) -> (res:
    GenericParamValue)
    requires
        !(finish(op, l0@, r0@) is Panics),
    ensures
        finish(op, l0@, r0@) == Reduction::Value(res@),
        gsize(res@) <= 1 + gsize(l0@) + gsize(r0@),
{
    proof {
        lemma_size_pos(l0@);
        lemma_size_pos(r0@);
    }
    if l0.is_int(0) && r0.is_int(0) {
        return GenericParamValue::Integer(0);
    }
    if let (GenericParamValue::Integer(a), GenericParamValue::Integer(b)) = (&l0, &r0) {
        match int_op_exec(op, *a, *b) {
            Some(x) => {
                return GenericParamValue::Integer(x);
            },
            None => {
                proof {
                    assert(false);
                }
                return GenericParamValue::Integer(0);
            },
        }
    }
    let swap = match (&l0, op) {
        (GenericParamValue::Integer(_), MathOperator::Add) => true,
        (GenericParamValue::Integer(_), MathOperator::Multiply) => true,
        _ => false,
    };
    let (l, r) = if swap {
        (r0, l0)
    } else {
        (l0, r0)
    };
    match op {
        MathOperator::Add => {
            if l.same_as(&r) {
                comb_value(GenericParamValue::Integer(2), op, r)
            } else if l.is_int(0) {
                r
            } else if r.is_int(0) {
                l
            } else {
                comb_value(l, op, r)
            }
        },
        MathOperator::Subtract => {
            if l.same_as(&r) {
                GenericParamValue::Integer(0)
            } else if l.is_int(0) {
                math_value(MathCombination::Negative(Box::new(r)))
            } else if r.is_int(0) {
                l
            } else {
                comb_value(l, op, r)
            }
        },
        MathOperator::Multiply => {
            if l.is_int(0) || r.is_int(0) {
                GenericParamValue::Integer(0)
            } else if l.is_int(1) {
                r
            } else if r.is_int(1) {
                l
            } else {
                comb_value(l, op, r)
            }
        },
        MathOperator::Divide => {
            if l.is_int(0) {
                GenericParamValue::Integer(0)
            } else if r.is_int(0) {
                proof {
                    assert(false);
                }
                GenericParamValue::Integer(0)
            } else if r.is_int(1) {
                l
            } else if l.same_as(&r) {
                GenericParamValue::Integer(1)
            } else {
                comb_value(l, op, r)
            }
        },
        MathOperator::Modulo => {
            if l.is_int(0) {
                GenericParamValue::Integer(0)
            } else if r.is_int(0) {
                proof {
                    assert(false);
                }
                GenericParamValue::Integer(0)
            } else if r.is_int(1) || l.same_as(&r) {
                GenericParamValue::Integer(0)
            } else {
                comb_value(l, op, r)
            }
        },
    }
}

impl GenericParamValue {
    fn reduce_steps(&self, Ghost(fuel): Ghost<nat>) -> (r: GenericParamValue)
        requires
            fuel >= value_steps(self@),
            !(value_reduce(self@, fuel) is Panics),
        ensures
            value_reduce(self@, fuel) == Reduction::Value(r@),
            gsize(r@) <= gsize(self@),
        decreases fuel, 1nat,
    {
        match self {
            GenericParamValue::Combination(Combination::Math(m)) => m.reduce_steps(Ghost(fuel)),
            _ => self.clone(),
        }
    }

    /// The simplification of this value (see `math_reduce`); integers and
    /// references stay as they are.
    pub fn reduce(&self) -> (r: GenericParamValue)
        requires
            !(value_reduction(self@) is Panics),
        ensures
            value_reduction(self@) == Reduction::Value(r@),
    {
        self.reduce_steps(Ghost(value_steps(self@)))
    }
}

impl MathCombination {
    fn reduce_steps(&self, Ghost(fuel): Ghost<nat>) -> (res: GenericParamValue)
        requires
            fuel >= steps(self@),
            !(math_reduce(self@, fuel) is Panics),
        ensures
            math_reduce(self@, fuel) == Reduction::Value(res@),
            gsize(res@) <= msize(self@),
        decreases fuel, 0nat,
    {
        let ghost m = self@;
        let ghost f: nat = (fuel - 1) as nat;
        assert(fuel >= 1);
        match self {
            MathCombination::Parentheses(p) => {
                let x = (**p).reduce_steps(Ghost(f));
                match x {
                    GenericParamValue::Combination(
                        Combination::Math(MathCombination::Combination(a, o, b)),
                    ) => math_value(MathCombination::Parentheses(Box::new(MathCombination::Combination(a, o, b)))),
                    other => other,
                }
            },
            MathCombination::Negative(n) => match &**n {
                GenericParamValue::Integer(i) => {
                    assert((**n)@ == ValueView::Integer(*i));
                    assert(m == MathView::Negative(Box::new(ValueView::Integer(*i))));
                    GenericParamValue::Integer(-*i)
                },
                GenericParamValue::Ref(_) => math_value(self.clone()),
                GenericParamValue::Combination(
                    Combination::Math(MathCombination::Parentheses(p)),
                ) => {
                    assert((**n)@ == ValueView::Math(MathView::Parentheses(Box::new((**p)@))));
                    assert(m == MathView::Negative(
                        Box::new(ValueView::Math(MathView::Parentheses(Box::new(p@)))),
                    ));
                    assert(msize(MathView::Parentheses(Box::new(p@))) == 1 + msize(p@));
                    assert(gsize((**n)@) == msize(MathView::Parentheses(Box::new(p@))));
                    assert(msize(m) == 2 + msize(p@));
                    let x = (**p).reduce_steps(Ghost(f));
                    math_value(MathCombination::Negative(Box::new(x)))
                },
                GenericParamValue::Combination(Combination::Math(MathCombination::Negative(n2))) => {
                    assert(m == MathView::Negative(
                        Box::new(ValueView::Math(MathView::Negative(Box::new(n2@)))),
                    ));
                    assert(msize(MathView::Negative(Box::new(n2@))) == 1 + gsize(n2@));
                    assert(gsize((**n)@) == msize(MathView::Negative(Box::new(n2@))));
                    assert(msize(m) == 2 + gsize(n2@));
                    proof {
                        lemma_size_pos(n2@);
                    }
                    (**n2).reduce_steps(Ghost(f))
                },
                GenericParamValue::Combination(Combination::Math(mi)) => {
                    assert(m == MathView::Negative(Box::new(ValueView::Math(mi@))));
                    assert(msize(m) == 1 + msize(mi@));
                    let x = mi.reduce_steps(Ghost(f));
                    math_value(MathCombination::Negative(Box::new(x)))
                },
            },
            MathCombination::Combination(l, op, r) => {
                proof {
                    lemma_size_pos(l@);
                    lemma_size_pos(r@);
                }
                if !is_additive_op(*op) {
                    if let GenericParamValue::Combination(
                        Combination::Math(MathCombination::Combination(f_l, f_op, mid)),
                    ) = &**l {
                        if is_additive_op(*f_op) {
                            assert(rotates(m));
                            proof {
                                lemma_size_pos(f_l@);
                                lemma_size_pos(mid@);
                            }
                            let inner = MathCombination::Combination(
                                Box::new((**mid).clone()),
                                *op,
                                Box::new((**r).clone()),
                            );
                            let x = inner.reduce_steps(Ghost(f));
                            let outer = MathCombination::Combination(
                                Box::new((**f_l).clone()),
                                *f_op,
                                Box::new(x),
                            );
                            assert(!rotates(outer@));
                            return outer.reduce_steps(Ghost(f));
                        }
                    }
                }
                assert(!rotates(m));
                let a = (**l).reduce_steps(Ghost(f));
                let b = (**r).reduce_steps(Ghost(f));
                finish_exec(*op, a, b)
            },
        }
    }

    /// The simplification of this combination (see `math_reduce`).
    pub fn reduce(&self) -> (r: GenericParamValue)
        requires
            !(math_reduction(self@) is Panics),
        ensures
            math_reduction(self@) == Reduction::Value(r@),
    {
        self.reduce_steps(Ghost(steps(self@)))
    }
}


impl View for Combination {
    type V = MathView;

    open spec fn view(&self) -> MathView {
        match self {
            Combination::Math(m) => m@,
        }
    }
}

impl Clone for Combination {
    fn clone(&self) -> (r: Self)
        ensures
            r@ == self@,
    {
        match self {
            Combination::Math(m) => Combination::Math(m.clone()),
        }
    }
}

/// The leftmost operand of a combination.
pub open spec fn left_val(m: MathView) -> ValueView
    decreases m,
{
    match m {
        MathView::Parentheses(p) => left_val(*p),
        MathView::Negative(n) => *n,
        MathView::Combination(l, _, _) => *l,
    }
}

/// A value in parentheses.
pub open spec fn parenthesized(m: MathView) -> ValueView {
    ValueView::Math(MathView::Parentheses(Box::new(m)))
}

/// The value with any parentheses around it removed.
pub open spec fn strip_parens(m: MathView) -> ValueView
    decreases m,
{
    match m {
        MathView::Parentheses(p) => strip_parens(*p),
        _ => ValueView::Math(m),
    }
}

impl GenericParamValue {
    /// This combination in parentheses, or an `InvalidArgument` error for a
    /// single integer or reference.
    pub fn try_add_parens(self) -> (r: Result<GenericParamValue, Error>)
        ensures
            match self@ {
                ValueView::Math(m) => r matches Ok(v) && v@ == parenthesized(m),
                _ => r matches Err(e) && e is InvalidArgument,
            },
    {
        match self {
            GenericParamValue::Combination(Combination::Math(m)) => Ok(
                math_value(MathCombination::Parentheses(Box::new(m))),
            ),
            _ => {
                let t = self.text();
                Err(
                    Error::InvalidArgument(
                        concat(
                            &[
                                "Single values should not be enclosed by parentheses. ",
                                t.as_str(),
                                " is not suitable.",
                            ],
                        ),
                    ),
                )
            },
        }
    }

    /// This value without the parentheses around it.
    pub fn remove_outer_parens(self) -> (r: GenericParamValue)
        ensures
            r@ == match self@ {
                ValueView::Math(m) => strip_parens(m),
                v => v,
            },
    {
        match self {
            GenericParamValue::Combination(Combination::Math(m)) => m.remove_outer_parens(),
            _ => self,
        }
    }

    /// Whether this value is an integer. Every value is: an integer, a
    /// reference to an integer or dimensionality parameter, or a combination
    /// whose leftmost operand is one of these.
    pub fn is_integer(&self) -> (r: bool)
        ensures
            r,
        decreases self,
    {
        match self {
            GenericParamValue::Integer(_) => true,
            GenericParamValue::Ref(r) => match r.kind() {
                GenericKind::Behavioral(_) => true,
                GenericKind::Interface(_) => true,
            },
            GenericParamValue::Combination(Combination::Math(m)) => m.left_is_integer(),
        }
    }

    /// Whether this value is a fixed integer.
    pub fn is_fixed(&self) -> (r: bool)
        ensures
            r == self@ is Integer,
    {
        match self {
            GenericParamValue::Integer(_) => true,
            _ => false,
        }
    }

    /// Whether this is the integer 0.
    pub fn is_zero(&self) -> (r: bool)
        ensures
            r == (self@ == ValueView::Integer(0)),
    {
        self.is_int(0)
    }

    /// The same test as `is_zero`: whether this is the integer 0.
    pub fn is_one(&self) -> (r: bool)
        ensures
            r == (self@ == ValueView::Integer(0)),
    {
        self.is_int(0)
    }

    /// The value in words (see `value_text`).
    pub fn text(&self) -> (r: String)
        ensures
            r@ == value_text(self@),
        decreases self,
    {
        match self {
            GenericParamValue::Integer(i) => {
                let d = crate::messages::signed_decimal(*i as i64);
                let mut t = String::from_str("Integer(");
                t.append(d.as_str());
                t.append(")");
                t
            },
            GenericParamValue::Ref(r) => {
                let x = r.text();
                let mut t = String::from_str("Ref(");
                t.append(x.as_str());
                t.append(")");
                t
            },
            GenericParamValue::Combination(Combination::Math(m)) => {
                let x = m.text();
                let mut t = String::from_str("Combination(Math(");
                t.append(x.as_str());
                t.append("))");
                t
            },
        }
    }
}

impl MathCombination {
    /// This combination without the parentheses around it.
    pub fn remove_outer_parens(self) -> (r: GenericParamValue)
        ensures
            r@ == strip_parens(self@),
        decreases self,
    {
        match self {
            MathCombination::Parentheses(p) => (*p).remove_outer_parens(),
            _ => math_value(self),
        }
    }

    fn left_is_integer(&self) -> (r: bool)
        ensures
            r,
        decreases self,
    {
        match self {
            MathCombination::Parentheses(p) => (**p).left_is_integer(),
            MathCombination::Negative(n) => (**n).is_integer(),
            MathCombination::Combination(l, _, _) => (**l).is_integer(),
        }
    }

    /// The leftmost operand.
    pub fn left_val(&self) -> (r: &GenericParamValue)
        ensures
            r@ == left_val(self@),
        decreases self,
    {
        match self {
            MathCombination::Parentheses(p) => (**p).left_val(),
            MathCombination::Negative(n) => &**n,
            MathCombination::Combination(l, _, _) => &**l,
        }
    }

    /// Checks that the operands are integers, which they always are.
    pub fn verify_integer(self) -> (r: Result<MathCombination, Error>)
        ensures
            r matches Ok(m) && m@ == self@,
    {
        match &self {
            MathCombination::Parentheses(_) => {},
            MathCombination::Negative(n) => {
                let ok = (**n).is_integer();
            },
            MathCombination::Combination(l, _, r) => {
                let ok_l = (**l).is_integer();
                let ok_r = (**r).is_integer();
            },
        }
        Ok(self)
    }

    /// The combination `val` in parentheses.
    pub fn parentheses(val: MathCombination) -> (r: MathCombination)
        ensures
            r@ == MathView::Parentheses(Box::new(val@)),
    {
        MathCombination::Parentheses(Box::new(val))
    }

    /// The negation of `val`.
    pub fn negative(val: GenericParamValue) -> (r: Result<MathCombination, Error>)
        ensures
            r matches Ok(m) && m@ == MathView::Negative(Box::new(val@)),
    {
        Ok(MathCombination::Negative(Box::new(val)))
    }

    fn binary(left: GenericParamValue, op: MathOperator, right: GenericParamValue) -> (r: Result<
        MathCombination,
        Error,
    >)
        ensures
            r matches Ok(m) && m@ == MathView::Combination(Box::new(left@), op, Box::new(right@)),
    {
        Ok(MathCombination::Combination(Box::new(left), op, Box::new(right)))
    }

    /// `left + right`.
    pub fn sum(left: GenericParamValue, right: GenericParamValue) -> (r: Result<
        MathCombination,
        Error,
    >)
        ensures
            r matches Ok(m) && m@ == MathView::Combination(
                Box::new(left@),
                MathOperator::Add,
                Box::new(right@),
            ),
    {
        Self::binary(left, MathOperator::Add, right)
    }

    /// `left - right`.
    pub fn subtraction(left: GenericParamValue, right: GenericParamValue) -> (r: Result<
        MathCombination,
        Error,
    >)
        ensures
            r matches Ok(m) && m@ == MathView::Combination(
                Box::new(left@),
                MathOperator::Subtract,
                Box::new(right@),
            ),
    {
        Self::binary(left, MathOperator::Subtract, right)
    }

    /// `left * right`.
    pub fn product(left: GenericParamValue, right: GenericParamValue) -> (r: Result<
        MathCombination,
        Error,
    >)
        ensures
            r matches Ok(m) && m@ == MathView::Combination(
                Box::new(left@),
                MathOperator::Multiply,
                Box::new(right@),
            ),
    {
        Self::binary(left, MathOperator::Multiply, right)
    }

    /// `left / right`.
    pub fn division(left: GenericParamValue, right: GenericParamValue) -> (r: Result<
        MathCombination,
        Error,
    >)
        ensures
            r matches Ok(m) && m@ == MathView::Combination(
                Box::new(left@),
                MathOperator::Divide,
                Box::new(right@),
            ),
    {
        Self::binary(left, MathOperator::Divide, right)
    }

    /// `left % right`.
    pub fn modulo(left: GenericParamValue, right: GenericParamValue) -> (r: Result<
        MathCombination,
        Error,
    >)
        ensures
            r matches Ok(m) && m@ == MathView::Combination(
                Box::new(left@),
                MathOperator::Modulo,
                Box::new(right@),
            ),
    {
        Self::binary(left, MathOperator::Modulo, right)
    }

    /// The combination in words (see `math_text`).
    pub fn text(&self) -> (r: String)
        ensures
            r@ == math_text(self@),
        decreases self,
    {
        match self {
            MathCombination::Parentheses(p) => {
                let x = (**p).text();
                let mut t = String::from_str("Parentheses(");
                t.append(x.as_str());
                t.append(")");
                t
            },
            MathCombination::Negative(n) => {
                let x = (**n).text();
                let mut t = String::from_str("Negative(");
                t.append(x.as_str());
                t.append(")");
                t
            },
            MathCombination::Combination(l, op, r) => {
                let a = (**l).text();
                let b = (**r).text();
                let mut t = String::from_str(a.as_str());
                t.append(" ");
                t.append(op.symbol());
                t.append(" ");
                t.append(b.as_str());
                t
            },
        }
    }
}

impl Combination {
    /// The leftmost operand.
    pub fn left_val(&self) -> (r: &GenericParamValue)
        ensures
            r@ == left_val(self@),
    {
        match self {
            Combination::Math(m) => m.left_val(),
        }
    }
}

/// Arithmetic on values that builds combinations.
pub trait GenericParamValueOps: Sized {
    /// The value this stands for.
    spec fn value_of(self) -> ValueView;

    fn g_negative(self) -> (r: Result<Combination, Error>)
        ensures
            r matches Ok(c) && c@ == MathView::Negative(Box::new(self.value_of())),
    ;

    fn g_add(self, right: GenericParamValue) -> (r: Result<Combination, Error>)
        ensures
            r matches Ok(c) && c@ == MathView::Combination(
                Box::new(self.value_of()),
                MathOperator::Add,
                Box::new(right@),
            ),
    ;

    fn g_sub(self, right: GenericParamValue) -> (r: Result<Combination, Error>)
        ensures
            r matches Ok(c) && c@ == MathView::Combination(
                Box::new(self.value_of()),
                MathOperator::Subtract,
                Box::new(right@),
            ),
    ;

    fn g_mul(self, right: GenericParamValue) -> (r: Result<Combination, Error>)
        ensures
            r matches Ok(c) && c@ == MathView::Combination(
                Box::new(self.value_of()),
                MathOperator::Multiply,
                Box::new(right@),
            ),
    ;

    fn g_div(self, right: GenericParamValue) -> (r: Result<Combination, Error>)
        ensures
            r matches Ok(c) && c@ == MathView::Combination(
                Box::new(self.value_of()),
                MathOperator::Divide,
                Box::new(right@),
            ),
    ;

    fn g_mod(self, right: GenericParamValue) -> (r: Result<Combination, Error>)
        ensures
            r matches Ok(c) && c@ == MathView::Combination(
                Box::new(self.value_of()),
                MathOperator::Modulo,
                Box::new(right@),
            ),
    ;
}

fn combine(left: GenericParamValue, op: MathOperator, right: GenericParamValue) -> (r: Result<
    Combination,
    Error,
>)
    ensures
        r matches Ok(c) && c@ == MathView::Combination(Box::new(left@), op, Box::new(right@)),
{
    match MathCombination::binary(left, op, right) {
        Ok(m) => Ok(Combination::Math(m)),
        Err(e) => Err(e),
    }
}

fn negate(val: GenericParamValue) -> (r: Result<Combination, Error>)
    ensures
        r matches Ok(c) && c@ == MathView::Negative(Box::new(val@)),
{
    match MathCombination::negative(val) {
        Ok(m) => Ok(Combination::Math(m)),
        Err(e) => Err(e),
    }
}

impl GenericParamValueOps for GenericParamValue {
    open spec fn value_of(self) -> ValueView {
        self@
    }

    fn g_negative(self) -> (r: Result<Combination, Error>) {
        negate(self)
    }

    fn g_add(self, right: GenericParamValue) -> (r: Result<Combination, Error>) {
        combine(self, MathOperator::Add, right)
    }

    fn g_sub(self, right: GenericParamValue) -> (r: Result<Combination, Error>) {
        combine(self, MathOperator::Subtract, right)
    }

    fn g_mul(self, right: GenericParamValue) -> (r: Result<Combination, Error>) {
        combine(self, MathOperator::Multiply, right)
    }

    fn g_div(self, right: GenericParamValue) -> (r: Result<Combination, Error>) {
        combine(self, MathOperator::Divide, right)
    }

    fn g_mod(self, right: GenericParamValue) -> (r: Result<Combination, Error>) {
        combine(self, MathOperator::Modulo, right)
    }
}

impl GenericParamValueOps for Combination {
    open spec fn value_of(self) -> ValueView {
        ValueView::Math(self@)
    }

    fn g_negative(self) -> (r: Result<Combination, Error>) {
        negate(GenericParamValue::Combination(self))
    }

    fn g_add(self, right: GenericParamValue) -> (r: Result<Combination, Error>) {
        combine(GenericParamValue::Combination(self), MathOperator::Add, right)
    }

    fn g_sub(self, right: GenericParamValue) -> (r: Result<Combination, Error>) {
        combine(GenericParamValue::Combination(self), MathOperator::Subtract, right)
    }

    fn g_mul(self, right: GenericParamValue) -> (r: Result<Combination, Error>) {
        combine(GenericParamValue::Combination(self), MathOperator::Multiply, right)
    }

    fn g_div(self, right: GenericParamValue) -> (r: Result<Combination, Error>) {
        combine(GenericParamValue::Combination(self), MathOperator::Divide, right)
    }

    fn g_mod(self, right: GenericParamValue) -> (r: Result<Combination, Error>) {
        combine(GenericParamValue::Combination(self), MathOperator::Modulo, right)
    }
}

impl From<i32> for GenericParamValue {
    fn from(i: i32) -> (r: GenericParamValue) {
        GenericParamValue::Integer(i)
    }
}

impl vstd::std_specs::convert::FromSpecImpl<i32> for GenericParamValue {
    open spec fn obeys_from_spec() -> bool {
        true
    }

    open spec fn from_spec(i: i32) -> GenericParamValue {
        GenericParamValue::Integer(i)
    }
}

impl From<RefValue> for GenericParamValue {
    fn from(r: RefValue) -> (v: GenericParamValue) {
        GenericParamValue::Ref(r)
    }
}

impl vstd::std_specs::convert::FromSpecImpl<RefValue> for GenericParamValue {
    open spec fn obeys_from_spec() -> bool {
        true
    }

    open spec fn from_spec(r: RefValue) -> GenericParamValue {
        GenericParamValue::Ref(r)
    }
}

impl From<Combination> for GenericParamValue {
    fn from(c: Combination) -> (v: GenericParamValue) {
        GenericParamValue::Combination(c)
    }
}

impl vstd::std_specs::convert::FromSpecImpl<Combination> for GenericParamValue {
    open spec fn obeys_from_spec() -> bool {
        true
    }

    open spec fn from_spec(c: Combination) -> GenericParamValue {
        GenericParamValue::Combination(c)
    }
}

impl From<MathCombination> for GenericParamValue {
    fn from(m: MathCombination) -> (v: GenericParamValue) {
        GenericParamValue::Combination(Combination::Math(m))
    }
}

impl vstd::std_specs::convert::FromSpecImpl<MathCombination> for GenericParamValue {
    open spec fn obeys_from_spec() -> bool {
        true
    }

    open spec fn from_spec(m: MathCombination) -> GenericParamValue {
        GenericParamValue::Combination(Combination::Math(m))
    }
}

} // verus!
