//! Properties of types that are either fixed non-negative numbers or
//! expressions over generic parameters.
use vstd::prelude::*;
use crate::error::Error;
use crate::generics::{MathOperator, symbol_text};
use crate::messages::{concat, signed_decimal};
use crate::name::Name;
use crate::param_value::{Combination, GenericParamValue, MathCombination, MathView, ValueView};

verus! {

/// A non-negative property: a fixed number, a parameter, or an arithmetic
/// combination of properties.
#[derive(Debug, PartialEq, Eq, Hash)]
pub enum GenericProperty {
    Combination(Box<GenericProperty>, MathOperator, Box<GenericProperty>),
    Fixed(u32),
    Parameterized(Name),
}

/// The model of a `GenericProperty`, parameters by name.
pub enum PropertyView {
    Combination(Box<PropertyView>, MathOperator, Box<PropertyView>),
    Fixed(u32),
    Parameterized(Seq<char>),
}

/// A property in words: `(l) op r`, `Fixed(v)` or `Parameterized(n)`.
pub open spec fn property_text(p: PropertyView) -> Seq<char>
    decreases p,
{
    match p {
        PropertyView::Combination(l, op, r) => "("@ + property_text(*l) + ") "@ + symbol_text(op) + " "@
            + property_text(*r),
        PropertyView::Fixed(v) => "Fixed("@ + crate::messages::decimal_spec(v as nat) + ")"@,
        PropertyView::Parameterized(n) => "Parameterized("@ + n + ")"@,
    }
}

pub open spec fn property_view(p: GenericProperty) -> PropertyView
    decreases p,
{
    match p {
        GenericProperty::Combination(l, op, r) => PropertyView::Combination(
            Box::new(property_view(*l)),
            op,
            Box::new(property_view(*r)),
        ),
        GenericProperty::Fixed(v) => PropertyView::Fixed(v),
        GenericProperty::Parameterized(n) => PropertyView::Parameterized(n@),
    }
}

impl View for GenericProperty {
    type V = PropertyView;

    open spec fn view(&self) -> PropertyView {
        property_view(*self)
    }
}

impl Clone for GenericProperty {
    fn clone(&self) -> (r: Self)
        ensures
            r@ == self@,
        decreases self,
    {
        match self {
            GenericProperty::Combination(l, op, r) => GenericProperty::Combination(
                Box::new((**l).clone()),
                *op,
                Box::new((**r).clone()),
            ),
            GenericProperty::Fixed(v) => GenericProperty::Fixed(*v),
            GenericProperty::Parameterized(n) => GenericProperty::Parameterized(n.clone()),
        }
    }
}

/// The outcome of evaluating a property: its value, unassigned when it
/// depends on a parameter, or failing when the `u32` arithmetic overflows
/// or divides by zero.
pub enum Evaluation {
    Value(u32),
    Unassigned,
    Fails,
}

/// `u32` arithmetic, `None` where Rust's operators panic.
pub open spec fn nat_op(op: MathOperator, a: u32, b: u32) -> Option<u32> {
    match op {
        MathOperator::Add => a.checked_add(b),
        MathOperator::Subtract => a.checked_sub(b),
        MathOperator::Multiply => a.checked_mul(b),
        MathOperator::Divide => a.checked_div(b),
        MathOperator::Modulo => a.checked_rem(b),
    }
}

/// Evaluates a property left operand first: an unassigned left operand
/// leaves the right one unevaluated.
pub open spec fn eval(p: PropertyView) -> Evaluation
    decreases p,
{
    match p {
        PropertyView::Combination(l, op, r) => match eval(*l) {
            Evaluation::Value(a) => match eval(*r) {
                Evaluation::Value(b) => match nat_op(op, a, b) {
                    Some(v) => Evaluation::Value(v),
                    None => Evaluation::Fails,
                },
                o => o,
            },
            o => o,
        },
        PropertyView::Fixed(v) => Evaluation::Value(v),
        PropertyView::Parameterized(_) => Evaluation::Unassigned,
    }
}

/// `p` with every occurrence of the parameter `name` replaced by `v`.
pub open spec fn assign(p: PropertyView, name: Seq<char>, v: PropertyView) -> PropertyView
    decreases p,
{
    match p {
        PropertyView::Combination(l, op, r) => PropertyView::Combination(
            Box::new(assign(*l, name, v)),
            op,
            Box::new(assign(*r, name, v)),
        ),
        PropertyView::Fixed(_) => p,
        PropertyView::Parameterized(n) => if n == name {
            v
        } else {
            p
        },
    }
}

pub open spec fn fixed(v: u32) -> PropertyView {
    PropertyView::Fixed(v)
}

pub open spec fn pcomb(l: PropertyView, op: MathOperator, r: PropertyView) -> PropertyView {
    PropertyView::Combination(Box::new(l), op, Box::new(r))
}

/// The combination of the simplified operands `l` and `r`: operations with
/// 0 and 1 that need no computing are removed (`x + 0`, `x * 1`, `x / 1`,
/// `0 / x`, `x % 1`, ...), as is `x - x`. With a left operand 0, a
/// difference gives its right operand.
pub open spec fn simplify(op: MathOperator, l: PropertyView, r: PropertyView) -> PropertyView {
    if l == fixed(0) && r == fixed(0) {
        fixed(0)
    } else {
        match op {
            MathOperator::Add => if l == fixed(0) {
                r
            } else if r == fixed(0) {
                l
            } else {
                pcomb(l, op, r)
            },
            MathOperator::Subtract => if l == fixed(0) {
                r
            } else if r == fixed(0) {
                l
            } else if l == r {
                fixed(0)
            } else {
                pcomb(l, op, r)
            },
            MathOperator::Multiply => if l == fixed(0) || r == fixed(0) {
                fixed(0)
            } else if l == fixed(1) {
                r
            } else if r == fixed(1) {
                l
            } else {
                pcomb(l, op, r)
            },
            MathOperator::Divide => if l == fixed(0) {
                fixed(0)
            } else if r == fixed(1) {
                l
            } else {
                pcomb(l, op, r)
            },
            MathOperator::Modulo => if l == fixed(0) || r == fixed(1) {
                fixed(0)
            } else {
                pcomb(l, op, r)
            },
        }
    }
}

/// The property with unnecessary operations removed, operands first.
pub open spec fn reduce(p: PropertyView) -> PropertyView
    decreases p,
{
    match p {
        PropertyView::Combination(l, op, r) => simplify(op, reduce(*l), reduce(*r)),
        _ => p,
    }
}

/// Simplification stops (panics) at a remainder whose simplified right
/// operand is 0 while its simplified left operand is not.
pub open spec fn reduce_panics(p: PropertyView) -> bool
    decreases p,
{
    match p {
        PropertyView::Combination(l, op, r) => reduce_panics(*l) || reduce_panics(*r) || (op
            is Modulo && reduce(*l) != fixed(0) && reduce(*r) == fixed(0)),
        _ => false,
    }
}

impl GenericProperty {
    /// The combination `l op r`.
    pub fn combine(l: GenericProperty, op: MathOperator, r: GenericProperty) -> (p: GenericProperty)
        ensures
            p@ == pcomb(l@, op, r@),
    {
        GenericProperty::Combination(Box::new(l), op, Box::new(r))
    }

    /// Whether the two properties are the same.
    pub fn same_as(&self, other: &GenericProperty) -> (r: bool)
        ensures
            r == (self@ == other@),
        decreases self,
    {
        match (self, other) {
            (GenericProperty::Combination(a, o, b), GenericProperty::Combination(c, p, d)) => {
                *o == *p && (**a).same_as(&**c) && (**b).same_as(&**d)
            },
            (GenericProperty::Fixed(a), GenericProperty::Fixed(b)) => *a == *b,
            (GenericProperty::Parameterized(a), GenericProperty::Parameterized(b)) => a.name_eq(b),
            _ => false,
        }
    }

    /// This property with every occurrence of the parameter `param` replaced
    /// by `val`.
    pub fn try_assign(&self, param: &Name, val: GenericProperty) -> (r: Result<GenericProperty, Error>)
        ensures
            r matches Ok(p) && p@ == assign(self@, param@, val@),
        decreases self,
    {
        match self {
            GenericProperty::Combination(l, op, r) => {
                let a = match (**l).try_assign(param, val.clone()) {
                    Ok(a) => a,
                    Err(e) => {
                        return Err(e);
                    },
                };
                let b = match (**r).try_assign(param, val.clone()) {
                    Ok(b) => b,
                    Err(e) => {
                        return Err(e);
                    },
                };
                Ok(GenericProperty::Combination(Box::new(a), *op, Box::new(b)))
            },
            GenericProperty::Fixed(_) => Ok(self.clone()),
            GenericProperty::Parameterized(n) => {
                if n.name_eq(param) {
                    Ok(val)
                } else {
                    Ok(self.clone())
                }
            },
        }
    }

    /// The value of this property, or `None` when it depends on a parameter.
    pub fn try_eval(&self) -> (r: Option<u32>)
        requires
            !(eval(self@) is Fails),
        ensures
            r == match eval(self@) {
                Evaluation::Value(v) => Some(v),
                _ => None::<u32>,
            },
        decreases self,
    {
        match self {
            GenericProperty::Combination(l, op, r) => {
                if let Some(lv) = (**l).try_eval() {
                    if let Some(rv) = (**r).try_eval() {
                        return match op {
                            MathOperator::Add => Some(lv + rv),
                            MathOperator::Subtract => Some(lv - rv),
                            MathOperator::Multiply => Some(lv * rv),
                            MathOperator::Divide => Some(lv / rv),
                            MathOperator::Modulo => Some(lv % rv),
                        };
                    }
                }
                None
            },
            GenericProperty::Fixed(f) => Some(*f),
            GenericProperty::Parameterized(_) => None,
        }
    }

    /// Whether this is the fixed number 1.
    pub fn is_one(&self) -> (r: bool)
        ensures
            r == (self@ == fixed(1)),
    {
        match self {
            GenericProperty::Fixed(v) => *v == 1,
            _ => false,
        }
    }

    /// Whether this is the fixed number 0.
    pub fn is_zero(&self) -> (r: bool)
        ensures
            r == (self@ == fixed(0)),
    {
        match self {
            GenericProperty::Fixed(v) => *v == 0,
            _ => false,
        }
    }

    /// This property with unnecessary operations removed (see `simplify`):
    /// `N - N = 0`, `N * 1 = N`, `N / 1 = N`, `N * 0 = 0`, and so on.
    pub fn try_reduce(&self) -> (r: GenericProperty)
        requires
            !reduce_panics(self@),
        ensures
            r@ == reduce(self@),
        decreases self,
    {
        match self {
            GenericProperty::Combination(l, op, r) => {
                let l = (**l).try_reduce();
                let r = (**r).try_reduce();
                if l.is_zero() && r.is_zero() {
                    return GenericProperty::Fixed(0);
                }
                match op {
                    MathOperator::Add => {
                        if l.is_zero() {
                            r
                        } else if r.is_zero() {
                            l
                        } else {
                            Self::combine(l, *op, r)
                        }
                    },
                    MathOperator::Subtract => {
                        if l.is_zero() {
                            r
                        } else if r.is_zero() {
                            l
                        } else if l.same_as(&r) {
                            GenericProperty::Fixed(0)
                        } else {
                            Self::combine(l, *op, r)
                        }
                    },
                    MathOperator::Multiply => {
                        if l.is_zero() {
                            GenericProperty::Fixed(0)
                        } else if r.is_zero() {
                            GenericProperty::Fixed(0)
                        } else if l.is_one() {
                            r
                        } else if r.is_one() {
                            l
                        } else {
                            Self::combine(l, *op, r)
                        }
                    },
                    MathOperator::Divide => {
                        if l.is_zero() {
                            GenericProperty::Fixed(0)
                        } else if r.is_one() {
                            l
                        } else {
                            Self::combine(l, *op, r)
                        }
                    },
                    MathOperator::Modulo => {
                        if l.is_zero() {
                            GenericProperty::Fixed(0)
                        } else if r.is_zero() {
                            proof {
                                assert(false);
                            }
                            GenericProperty::Fixed(0)
                        } else if r.is_one() {
                            GenericProperty::Fixed(0)
                        } else {
                            Self::combine(l, *op, r)
                        }
                    },
                }
            },
            GenericProperty::Fixed(v) => GenericProperty::Fixed(*v),
            GenericProperty::Parameterized(n) => GenericProperty::Parameterized(n.clone()),
        }
    }
}

/// Evaluates a property with every parameter `n` standing for `env(n)`,
/// left operand first.
pub open spec fn eval_in(p: PropertyView, env: spec_fn(Seq<char>) -> u32) -> Evaluation
    decreases p,
{
    match p {
        PropertyView::Combination(l, op, r) => match eval_in(*l, env) {
            Evaluation::Value(a) => match eval_in(*r, env) {
                Evaluation::Value(b) => match nat_op(op, a, b) {
                    Some(v) => Evaluation::Value(v),
                    None => Evaluation::Fails,
                },
                o => o,
            },
            o => o,
        },
        PropertyView::Fixed(v) => Evaluation::Value(v),
        PropertyView::Parameterized(n) => Evaluation::Value(env(n)),
    }
}

/// Evaluation is `u32` arithmetic on fixed numbers: a sum, difference,
/// product, quotient or remainder of two numbers is their value where it
/// is a `u32`, and fails where it is not (a negative difference, an
/// overflow, a division by 0); a parameter has no value until assigned,
/// and then the one assigned.
pub proof fn lemma_eval_arithmetic(a: u32, b: u32, n: Seq<char>, env: spec_fn(Seq<char>) -> u32)
    ensures
        eval(pcomb(fixed(a), MathOperator::Add, fixed(b))) == if a + b <= u32::MAX {
            Evaluation::Value((a + b) as u32)
        } else {
            Evaluation::Fails
        },
        eval(pcomb(fixed(a), MathOperator::Subtract, fixed(b))) == if a >= b {
            Evaluation::Value((a - b) as u32)
        } else {
            Evaluation::Fails
        },
        eval(pcomb(fixed(a), MathOperator::Multiply, fixed(b))) == if a * b <= u32::MAX {
            Evaluation::Value((a * b) as u32)
        } else {
            Evaluation::Fails
        },
        eval(pcomb(fixed(a), MathOperator::Divide, fixed(b))) == if b > 0 {
            Evaluation::Value((a / b) as u32)
        } else {
            Evaluation::Fails
        },
        eval(pcomb(fixed(a), MathOperator::Modulo, fixed(b))) == if b > 0 {
            Evaluation::Value((a % b) as u32)
        } else {
            Evaluation::Fails
        },
        eval(PropertyView::Parameterized(n)) == Evaluation::Unassigned,
        eval_in(PropertyView::Parameterized(n), env) == Evaluation::Value(env(n)),
        eval(pcomb(PropertyView::Parameterized(n), MathOperator::Add, fixed(a))) == Evaluation::Unassigned,
{
    assert(eval(fixed(a)) == Evaluation::Value(a));
    assert(eval(fixed(b)) == Evaluation::Value(b));
}

/// Simplifying a property keeps its value: where a property evaluates to a
/// number, simplifying it does not fail and the simplified property
/// evaluates to the same number.
#[verifier::spinoff_prover]
pub proof fn lemma_reduce_keeps_value(p: PropertyView)
    requires
        eval(p) is Value,
    ensures
        !reduce_panics(p),
        eval(reduce(p)) == eval(p),
    decreases p,
{
    match p {
        PropertyView::Combination(l, op, r) => {
            lemma_reduce_keeps_value(*l);
            lemma_reduce_keeps_value(*r);
        },
        _ => {},
    }
}

/// An operation that simplification removes: both operands 0, a sum or
/// difference with a 0, a difference of a property with itself, a product
/// with a 0 or a 1, a quotient of 0 or by 1, a remainder of 0 or by 1.
pub open spec fn removable(op: MathOperator, l: PropertyView, r: PropertyView) -> bool {
    ||| (l == fixed(0) && r == fixed(0))
    ||| (op is Add && (l == fixed(0) || r == fixed(0)))
    ||| (op is Subtract && (l == fixed(0) || r == fixed(0) || l == r))
    ||| (op is Multiply && (l == fixed(0) || r == fixed(0) || l == fixed(1) || r == fixed(1)))
    ||| (op is Divide && (l == fixed(0) || r == fixed(1)))
    ||| (op is Modulo && (l == fixed(0) || r == fixed(1)))
}

/// Whether no operation in `p` is removable.
pub open spec fn simplified(p: PropertyView) -> bool
    decreases p,
{
    match p {
        PropertyView::Combination(l, op, r) => simplified(*l) && simplified(*r) && !removable(op, *l, *r),
        _ => true,
    }
}

/// Simplification leaves no removable operation: every combination in a
/// simplified property is one that cannot be simplified further.
pub proof fn lemma_reduce_is_simplified(p: PropertyView)
    ensures
        simplified(reduce(p)),
    decreases p,
{
    match p {
        PropertyView::Combination(l, op, r) => {
            lemma_reduce_is_simplified(*l);
            lemma_reduce_is_simplified(*r);
        },
        _ => {},
    }
}

/// The difference of any property with itself simplifies to 0, and so do
/// a product with 0 and a quotient or remainder of 0; a sum or difference
/// with 0, a product with 1 and a quotient by 1 simplify to the other
/// operand.
pub proof fn lemma_reduce_identities(x: PropertyView)
    ensures
        reduce(pcomb(x, MathOperator::Subtract, x)) == fixed(0),
        reduce(pcomb(x, MathOperator::Multiply, fixed(0))) == fixed(0),
        reduce(pcomb(fixed(0), MathOperator::Multiply, x)) == fixed(0),
        reduce(pcomb(fixed(0), MathOperator::Divide, x)) == fixed(0),
        reduce(pcomb(fixed(0), MathOperator::Modulo, x)) == fixed(0),
        reduce(pcomb(x, MathOperator::Add, fixed(0))) == reduce(x),
        reduce(pcomb(fixed(0), MathOperator::Add, x)) == reduce(x),
        reduce(pcomb(x, MathOperator::Subtract, fixed(0))) == reduce(x),
        reduce(pcomb(x, MathOperator::Multiply, fixed(1))) == reduce(x),
        reduce(pcomb(fixed(1), MathOperator::Multiply, x)) == reduce(x),
        reduce(pcomb(x, MathOperator::Divide, fixed(1))) == reduce(x),
        reduce(pcomb(x, MathOperator::Modulo, fixed(1))) == fixed(0),
{
    assert(reduce(fixed(0)) == fixed(0));
    assert(reduce(fixed(1)) == fixed(1));
}

/// Simplifying keeps the value under every assignment of the parameters:
/// where a property evaluates to a number with each parameter given a
/// value, simplifying it does not fail and the simplified property
/// evaluates to the same number under the same values.
#[verifier::spinoff_prover]
pub proof fn lemma_reduce_keeps_assigned_value(p: PropertyView, env: spec_fn(Seq<char>) -> u32)
    requires
        eval_in(p, env) is Value,
    ensures
        !reduce_panics(p),
        eval_in(reduce(p), env) == eval_in(p, env),
    decreases p,
{
    match p {
        PropertyView::Combination(l, op, r) => {
            lemma_reduce_keeps_assigned_value(*l, env);
            lemma_reduce_keeps_assigned_value(*r, env);
        },
        _ => {},
    }
}


/// The property a parameter value stands for: non-negative integers and
/// parameter references carry over, parentheses are dropped; a negative
/// integer or a negation has none.
pub open spec fn property_of_value(v: ValueView) -> Option<PropertyView>
    decreases v,
{
    match v {
        ValueView::Integer(i) => if i >= 0 {
            Some(fixed(i as u32))
        } else {
            None
        },
        ValueView::Ref(n, _) => Some(PropertyView::Parameterized(n)),
        ValueView::Math(m) => property_of_math(m),
    }
}

pub open spec fn property_of_math(m: MathView) -> Option<PropertyView>
    decreases m,
{
    match m {
        MathView::Parentheses(p) => property_of_math(*p),
        MathView::Negative(_) => None,
        MathView::Combination(l, op, r) => match (property_of_value(*l), property_of_value(*r)) {
            (Some(a), Some(b)) => Some(pcomb(a, op, b)),
            _ => None,
        },
    }
}

impl GenericProperty {
    /// The fixed property `val`.
    pub fn from_value(val: u32) -> (p: GenericProperty)
        ensures
            p@ == fixed(val),
    {
        GenericProperty::Fixed(val)
    }

    /// The property given by the parameter `name`.
    pub fn from_name(name: Name) -> (p: GenericProperty)
        ensures
            p@ == PropertyView::Parameterized(name@),
    {
        GenericProperty::Parameterized(name)
    }

    /// The property given by the parameter named `value`, or an
    /// `InvalidArgument` error when that is not a valid name.
    pub fn try_from_str(value: &str) -> (r: Result<GenericProperty, Error>)
        ensures
            r is Ok <==> crate::name::valid_name(value@),
            r matches Ok(p) ==> p@ == PropertyView::Parameterized(value@),
            r matches Err(e) ==> e is InvalidArgument,
    {
        match Name::try_new(value) {
            Ok(n) => Ok(GenericProperty::Parameterized(n)),
            Err(e) => Err(e),
        }
    }

    /// The property a combination stands for (see `property_of_math`), or an
    /// `InvalidArgument` error when it has none.
    pub fn try_from_math(value: MathCombination) -> (r: Result<GenericProperty, Error>)
        ensures
            match property_of_math(value@) {
                Some(p) => r matches Ok(q) && q@ == p,
                None => r matches Err(e) && e is InvalidArgument,
            },
        decreases value,
    {
        match value {
            MathCombination::Parentheses(p) => Self::try_from_math(*p),
            MathCombination::Negative(_) => Err(
                crate::error::invalid_argument(
                    "NonNegative GenericProperty should not feature a negative operator",
                ),
            ),
            MathCombination::Combination(l, op, r) => {
                let a = match Self::try_from_param_value(*l) {
                    Ok(a) => a,
                    Err(e) => {
                        return Err(e);
                    },
                };
                let b = match Self::try_from_param_value(*r) {
                    Ok(b) => b,
                    Err(e) => {
                        return Err(e);
                    },
                };
                Ok(Self::combine(a, op, b))
            },
        }
    }

    /// The property a parameter value stands for (see `property_of_value`),
    /// or an `InvalidArgument` error when it has none.
    pub fn try_from_param_value(value: GenericParamValue) -> (r: Result<GenericProperty, Error>)
        ensures
            match property_of_value(value@) {
                Some(p) => r matches Ok(q) && q@ == p,
                None => r matches Err(e) && e is InvalidArgument,
            },
        decreases value,
    {
        if !value.is_integer() {
            let t = value.text();
            return Err(
                Error::InvalidArgument(
                    concat(
                        &["Cannot convert a ", t.as_str(), " into a NonNegative GenericProperty"],
                    ),
                ),
            );
        }
        match value {
            GenericParamValue::Integer(i) => {
                if i < 0 {
                    let d = signed_decimal(i as i64);
                    Err(
                        Error::InvalidArgument(
                            concat(&[d.as_str(), " cannot be converted to a NonNegative"]),
                        ),
                    )
                } else {
                    Ok(GenericProperty::Fixed(i as u32))
                }
            },
            GenericParamValue::Ref(r) => Ok(GenericProperty::Parameterized(r.name().clone())),
            GenericParamValue::Combination(Combination::Math(m)) => Self::try_from_math(m),
        }
    }

    /// The property in words (see `property_text`).
    pub fn text(&self) -> (t: String)
        ensures
            t@ == property_text(self@),
        decreases self,
    {
        match self {
            GenericProperty::Combination(l, op, r) => {
                let a = (**l).text();
                let b = (**r).text();
                let mut t = String::from_str("(");
                t.append(a.as_str());
                t.append(") ");
                t.append(op.symbol());
                t.append(" ");
                t.append(b.as_str());
                t
            },
            GenericProperty::Fixed(v) => {
                let d = crate::messages::decimal(*v as u64);
                let mut t = String::from_str("Fixed(");
                t.append(d.as_str());
                t.append(")");
                t
            },
            GenericProperty::Parameterized(n) => {
                let mut t = String::from_str("Parameterized(");
                t.append(n.as_str());
                t.append(")");
                t
            },
        }
    }
}


/// `l + r` builds the sum of two properties, unsimplified.
impl core::ops::Add for GenericProperty {
    type Output = GenericProperty;

    fn add(self, rhs: GenericProperty) -> (r: GenericProperty)
        ensures
            r@ == pcomb(self@, MathOperator::Add, rhs@),
    {
        GenericProperty::Combination(Box::new(self), MathOperator::Add, Box::new(rhs))
    }
}

impl vstd::std_specs::ops::AddSpecImpl for GenericProperty {
    open spec fn obeys_add_spec() -> bool {
        true
    }

    open spec fn add_req(self, rhs: GenericProperty) -> bool {
        true
    }

    open spec fn add_spec(self, rhs: GenericProperty) -> GenericProperty {
        GenericProperty::Combination(Box::new(self), MathOperator::Add, Box::new(rhs))
    }
}

/// `l - r` builds the difference of two properties, unsimplified.
impl core::ops::Sub for GenericProperty {
    type Output = GenericProperty;

    fn sub(self, rhs: GenericProperty) -> (r: GenericProperty)
        ensures
            r@ == pcomb(self@, MathOperator::Subtract, rhs@),
    {
        GenericProperty::Combination(Box::new(self), MathOperator::Subtract, Box::new(rhs))
    }
}

impl vstd::std_specs::ops::SubSpecImpl for GenericProperty {
    open spec fn obeys_sub_spec() -> bool {
        true
    }

    open spec fn sub_req(self, rhs: GenericProperty) -> bool {
        true
    }

    open spec fn sub_spec(self, rhs: GenericProperty) -> GenericProperty {
        GenericProperty::Combination(Box::new(self), MathOperator::Subtract, Box::new(rhs))
    }
}

/// `l * r` builds the product of two properties, unsimplified.
impl core::ops::Mul for GenericProperty {
    type Output = GenericProperty;

    fn mul(self, rhs: GenericProperty) -> (r: GenericProperty)
        ensures
            r@ == pcomb(self@, MathOperator::Multiply, rhs@),
    {
        GenericProperty::Combination(Box::new(self), MathOperator::Multiply, Box::new(rhs))
    }
}

impl vstd::std_specs::ops::MulSpecImpl for GenericProperty {
    open spec fn obeys_mul_spec() -> bool {
        true
    }

    open spec fn mul_req(self, rhs: GenericProperty) -> bool {
        true
    }

    open spec fn mul_spec(self, rhs: GenericProperty) -> GenericProperty {
        GenericProperty::Combination(Box::new(self), MathOperator::Multiply, Box::new(rhs))
    }
}

/// `l / r` builds the quotient of two properties, unsimplified.
impl core::ops::Div for GenericProperty {
    type Output = GenericProperty;

    fn div(self, rhs: GenericProperty) -> (r: GenericProperty)
        ensures
            r@ == pcomb(self@, MathOperator::Divide, rhs@),
    {
        GenericProperty::Combination(Box::new(self), MathOperator::Divide, Box::new(rhs))
    }
}

impl vstd::std_specs::ops::DivSpecImpl for GenericProperty {
    open spec fn obeys_div_spec() -> bool {
        true
    }

    open spec fn div_req(self, rhs: GenericProperty) -> bool {
        true
    }

    open spec fn div_spec(self, rhs: GenericProperty) -> GenericProperty {
        GenericProperty::Combination(Box::new(self), MathOperator::Divide, Box::new(rhs))
    }
}

/// `l % r` builds the remainder of two properties, unsimplified.
impl core::ops::Rem for GenericProperty {
    type Output = GenericProperty;

    fn rem(self, rhs: GenericProperty) -> (r: GenericProperty)
        ensures
            r@ == pcomb(self@, MathOperator::Modulo, rhs@),
    {
        GenericProperty::Combination(Box::new(self), MathOperator::Modulo, Box::new(rhs))
    }
}

impl vstd::std_specs::ops::RemSpecImpl for GenericProperty {
    open spec fn obeys_rem_spec() -> bool {
        true
    }

    open spec fn rem_req(self, rhs: GenericProperty) -> bool {
        true
    }

    open spec fn rem_spec(self, rhs: GenericProperty) -> GenericProperty {
        GenericProperty::Combination(Box::new(self), MathOperator::Modulo, Box::new(rhs))
    }
}

} // verus!
