//! The tree-walking evaluator: consumes one expression tree and produces
//! a runtime value or the first runtime error encountered.
//!
//! Evaluation order is strictly left before right for binary nodes and
//! operand before operator for unary nodes; the first failure
//! short-circuits the whole tree. [`eval_spec`] is the mathematical
//! definition, and [`eval`] is proved to compute exactly it.

use vstd::prelude::*;
use crate::ast::{BinaryOperator, Expression, UnaryOperator};
use crate::numeric::{
    add_bits, div_bits, eq_bits, ieee_add, ieee_div, ieee_eq, ieee_le, ieee_lt, ieee_mul,
    ieee_sub, le_bits, lt_bits, mul_bits, neg_bits, sub_bits, SIGN_BIT,
};
use crate::value::{
    coerce_number, type_of, Type, TypeError, TypeErrorS, Value, ValueS,
};

verus! {

/// An error raised while evaluating an expression tree.
#[derive(Debug, Clone, PartialEq)]
pub enum RuntimeError {
    TypeError(TypeError),
}

/// The model of a [`RuntimeError`].
pub enum RuntimeErrorS {
    TypeError(TypeErrorS),
}

impl View for RuntimeError {
    type V = RuntimeErrorS;

    open spec fn view(&self) -> RuntimeErrorS {
        match self {
            RuntimeError::TypeError(e) => RuntimeErrorS::TypeError(e@),
        }
    }
}

/// Truthiness: `false` and nil are falsy; every other value, including
/// `0` and the empty string, is truthy.
pub open spec fn truthy(v: ValueS) -> bool {
    !(v == ValueS::Bool(false) || v == ValueS::Nil)
}

/// Structural equality of runtime values: values of different variants
/// are simply unequal, and numbers compare by IEEE-754 equality.
pub open spec fn values_equal(a: ValueS, b: ValueS) -> bool {
    match (a, b) {
        (ValueS::Str(x), ValueS::Str(y)) => x == y,
        (ValueS::Num(x), ValueS::Num(y)) => ieee_eq(x, y),
        (ValueS::Bool(x), ValueS::Bool(y)) => x == y,
        (ValueS::Nil, ValueS::Nil) => true,
        _ => false,
    }
}

/// What applying a unary operator to an evaluated operand yields.
pub open spec fn apply_unary(op: UnaryOperator, v: ValueS) -> Result<ValueS, RuntimeErrorS> {
    match op {
        UnaryOperator::Neg => match coerce_number(v) {
            Ok(b) => Ok(ValueS::Num(b ^ SIGN_BIT)),
            Err(e) => Err(RuntimeErrorS::TypeError(e)),
        },
        UnaryOperator::Not => Ok(ValueS::Bool(!truthy(v))),
    }
}

/// What applying a binary operator to two evaluated operands yields.
///
/// `+` is overloaded on the left operand's runtime type: strings
/// concatenate, numbers add, and a mismatched right operand is reported
/// against the left operand's type. `-`, `/`, `*` and the four orderings
/// require numbers on both sides, coercing the left operand first.
/// `==` and `!=` never fail.
pub open spec fn apply_binary(op: BinaryOperator, l: ValueS, r: ValueS) -> Result<
    ValueS,
    RuntimeErrorS,
> {
    match op {
        BinaryOperator::Add => match (l, r) {
            (ValueS::Str(a), ValueS::Str(b)) => Ok(ValueS::Str(a + b)),
            (ValueS::Num(a), ValueS::Num(b)) => Ok(ValueS::Num(ieee_add(a, b))),
            (ValueS::Str(_), rv) => Err(
                RuntimeErrorS::TypeError(
                    TypeErrorS { expected: seq![Type::String], actual: rv },
                ),
            ),
            (ValueS::Num(_), rv) => Err(
                RuntimeErrorS::TypeError(
                    TypeErrorS { expected: seq![Type::Number], actual: rv },
                ),
            ),
            (lv, _) => Err(
                RuntimeErrorS::TypeError(
                    TypeErrorS { expected: seq![Type::Number, Type::String], actual: lv },
                ),
            ),
        },
        BinaryOperator::Sub => apply_arithmetic(l, r, ieee_sub(coerced(l), coerced(r))),
        BinaryOperator::Div => apply_arithmetic(l, r, ieee_div(coerced(l), coerced(r))),
        BinaryOperator::Mul => apply_arithmetic(l, r, ieee_mul(coerced(l), coerced(r))),
        BinaryOperator::Equal => Ok(ValueS::Bool(values_equal(l, r))),
        BinaryOperator::NotEqual => Ok(ValueS::Bool(!values_equal(l, r))),
        BinaryOperator::Greater => apply_relational(l, r, ieee_lt(coerced(r), coerced(l))),
        BinaryOperator::GreaterEqual => apply_relational(l, r, ieee_le(coerced(r), coerced(l))),
        BinaryOperator::Less => apply_relational(l, r, ieee_lt(coerced(l), coerced(r))),
        BinaryOperator::LessEqual => apply_relational(l, r, ieee_le(coerced(l), coerced(r))),
    }
}

/// The bits of a number value; arbitrary on other variants (only read
/// under a successful [`coerce_number`]).
pub open spec fn coerced(v: ValueS) -> u64 {
    match v {
        ValueS::Num(b) => b,
        _ => 0,
    }
}

/// Both operands must coerce to numbers, left first; `out` is the result.
pub open spec fn apply_arithmetic(l: ValueS, r: ValueS, out: u64) -> Result<
    ValueS,
    RuntimeErrorS,
> {
    match coerce_number(l) {
        Err(e) => Err(RuntimeErrorS::TypeError(e)),
        Ok(_) => match coerce_number(r) {
            Err(e) => Err(RuntimeErrorS::TypeError(e)),
            Ok(_) => Ok(ValueS::Num(out)),
        },
    }
}

/// Both operands must coerce to numbers, left first; `out` is the result.
pub open spec fn apply_relational(l: ValueS, r: ValueS, out: bool) -> Result<
    ValueS,
    RuntimeErrorS,
> {
    match coerce_number(l) {
        Err(e) => Err(RuntimeErrorS::TypeError(e)),
        Ok(_) => match coerce_number(r) {
            Err(e) => Err(RuntimeErrorS::TypeError(e)),
            Ok(_) => Ok(ValueS::Bool(out)),
        },
    }
}

/// What evaluating an expression tree yields: a value, or the first
/// runtime error encountered, left subtrees before right ones.
pub open spec fn eval_spec(e: Expression) -> Result<ValueS, RuntimeErrorS>
    decreases e,
{
    match e {
        Expression::Literal(v) => Ok(v@),
        Expression::Grouping(inner) => eval_spec(*inner),
        Expression::Unary(op, inner) => match eval_spec(*inner) {
            Ok(v) => apply_unary(op, v),
            Err(er) => Err(er),
        },
        Expression::Binary(op, l, r) => match eval_spec(*l) {
            Ok(lv) => match eval_spec(*r) {
                Ok(rv) => apply_binary(op, lv, rv),
                Err(er) => Err(er),
            },
            Err(er) => Err(er),
        },
    }
}

/// The model of an evaluation outcome.
pub open spec fn eval_view(r: Result<Value, RuntimeError>) -> Result<ValueS, RuntimeErrorS> {
    match r {
        Ok(v) => Ok(v@),
        Err(e) => Err(e@),
    }
}

/// Truthiness of a runtime value (see [`truthy`]).
pub fn is_truthy(value: Value) -> (r: bool)
    ensures
        r == truthy(value@),
{
    !(matches!(value, Value::Boolean(false) | Value::Nil))
}

/// Byte-for-byte equality of two byte vectors.
fn bytes_equal(a: &Vec<u8>, b: &Vec<u8>) -> (r: bool)
    ensures
        r == (a@ == b@),
{
    if a.len() != b.len() {
        return false;
    }
    let mut i: usize = 0;
    while i < a.len()
        invariant
            a@.len() == b@.len(),
            i <= a@.len(),
            forall|k: int| 0 <= k < i ==> a@[k] == b@[k],
        decreases a@.len() - i,
    {
        if a[i] != b[i] {
            return false;
        }
        i += 1;
    }
    proof {
        assert(a@ =~= b@);
    }
    true
}

/// Structural equality of two runtime values (see [`values_equal`]).
pub fn value_eq(left: &Value, right: &Value) -> (r: bool)
    ensures
        r == values_equal(left@, right@),
{
    match (left, right) {
        (Value::String(a), Value::String(b)) => bytes_equal(a, b),
        (Value::Number(a), Value::Number(b)) => eq_bits(*a, *b),
        (Value::Boolean(a), Value::Boolean(b)) => *a == *b,
        (Value::Nil, Value::Nil) => true,
        _ => false,
    }
}

/// The single-type expectation of a failed coercion.
fn expected_one(t: Type) -> (v: Vec<Type>)
    ensures
        v@ == seq![t],
{
    let mut v: Vec<Type> = Vec::new();
    v.push(t);
    proof {
        assert(v@ =~= seq![t]);
    }
    v
}

/// The `+` operator's expectation for an unusable left operand.
fn expected_number_or_string() -> (v: Vec<Type>)
    ensures
        v@ == seq![Type::Number, Type::String],
{
    let mut v: Vec<Type> = Vec::new();
    v.push(Type::Number);
    v.push(Type::String);
    proof {
        assert(v@ =~= seq![Type::Number, Type::String]);
    }
    v
}

/// Apply a binary operator to two evaluated operands.
pub fn eval_binary(operator: BinaryOperator, left: Value, right: Value) -> (r: Result<
    Value,
    RuntimeError,
>)
    ensures
        eval_view(r) == apply_binary(operator, left@, right@),
{
    match operator {
        BinaryOperator::Add => match (left, right) {
            (Value::String(mut a), Value::String(mut b)) => {
                a.append(&mut b);
                Ok(Value::String(a))
            },
            (Value::Number(a), Value::Number(b)) => Ok(Value::Number(add_bits(a, b))),
            (Value::String(_), rv) => Err(
                RuntimeError::TypeError(
                    TypeError { expected: expected_one(Type::String), actual: rv },
                ),
            ),
            (Value::Number(_), rv) => Err(
                RuntimeError::TypeError(
                    TypeError { expected: expected_one(Type::Number), actual: rv },
                ),
            ),
            (lv, _) => Err(
                RuntimeError::TypeError(
                    TypeError { expected: expected_number_or_string(), actual: lv },
                ),
            ),
        },
        BinaryOperator::Sub => match (left.as_number(), right.as_number()) {
            (Ok(a), Ok(b)) => Ok(Value::Number(sub_bits(a, b))),
            (Err(e), _) => Err(RuntimeError::TypeError(e)),
            (_, Err(e)) => Err(RuntimeError::TypeError(e)),
        },
        BinaryOperator::Div => match (left.as_number(), right.as_number()) {
            (Ok(a), Ok(b)) => Ok(Value::Number(div_bits(a, b))),
            (Err(e), _) => Err(RuntimeError::TypeError(e)),
            (_, Err(e)) => Err(RuntimeError::TypeError(e)),
        },
        BinaryOperator::Mul => match (left.as_number(), right.as_number()) {
            (Ok(a), Ok(b)) => Ok(Value::Number(mul_bits(a, b))),
            (Err(e), _) => Err(RuntimeError::TypeError(e)),
            (_, Err(e)) => Err(RuntimeError::TypeError(e)),
        },
        BinaryOperator::Equal => {
            let b = value_eq(&left, &right);
            Ok(Value::Boolean(b))
        },
        BinaryOperator::NotEqual => {
            let b = value_eq(&left, &right);
            Ok(Value::Boolean(!b))
        },
        BinaryOperator::Greater => match (left.as_number(), right.as_number()) {
            (Ok(a), Ok(b)) => Ok(Value::Boolean(lt_bits(b, a))),
            (Err(e), _) => Err(RuntimeError::TypeError(e)),
            (_, Err(e)) => Err(RuntimeError::TypeError(e)),
        },
        BinaryOperator::GreaterEqual => match (left.as_number(), right.as_number()) {
            (Ok(a), Ok(b)) => Ok(Value::Boolean(le_bits(b, a))),
            (Err(e), _) => Err(RuntimeError::TypeError(e)),
            (_, Err(e)) => Err(RuntimeError::TypeError(e)),
        },
        BinaryOperator::Less => match (left.as_number(), right.as_number()) {
            (Ok(a), Ok(b)) => Ok(Value::Boolean(lt_bits(a, b))),
            (Err(e), _) => Err(RuntimeError::TypeError(e)),
            (_, Err(e)) => Err(RuntimeError::TypeError(e)),
        },
        BinaryOperator::LessEqual => match (left.as_number(), right.as_number()) {
            (Ok(a), Ok(b)) => Ok(Value::Boolean(le_bits(a, b))),
            (Err(e), _) => Err(RuntimeError::TypeError(e)),
            (_, Err(e)) => Err(RuntimeError::TypeError(e)),
        },
    }
}

/// Evaluate one expression tree, by value: its runtime value, or the
/// first runtime error encountered, exactly as [`eval_spec`] defines.
pub fn eval(expression: Expression) -> (r: Result<Value, RuntimeError>)
    ensures
        eval_view(r) == eval_spec(expression),
    decreases expression,
{
    match expression {
        Expression::Literal(value) => Ok(value),
        Expression::Grouping(inner) => eval(*inner),
        Expression::Unary(operator, inner) => {
            let value = match eval(*inner) {
                Ok(v) => v,
                Err(e) => {
                    return Err(e);
                },
            };
            match operator {
                UnaryOperator::Neg => match value.as_number() {
                    Ok(b) => Ok(Value::Number(neg_bits(b))),
                    Err(e) => Err(RuntimeError::TypeError(e)),
                },
                UnaryOperator::Not => {
                    let t = is_truthy(value);
                    Ok(Value::Boolean(!t))
                },
            }
        },
        Expression::Binary(operator, left, right) => {
            let lv = match eval(*left) {
                Ok(v) => v,
                Err(e) => {
                    return Err(e);
                },
            };
            let rv = match eval(*right) {
                Ok(v) => v,
                Err(e) => {
                    return Err(e);
                },
            };
            eval_binary(operator, lv, rv)
        },
    }
}

/// The first failure short-circuits the whole tree: a binary node whose
/// left operand fails evaluates to that failure, whatever stands on the
/// right; likewise a failing right operand once the left succeeded, and
/// a failing operand of a unary node.
pub proof fn law_short_circuit(e: Expression)
    ensures
        (e matches Expression::Binary(_, l, _) ==> (eval_spec(*l) is Err ==> eval_spec(e)
            == eval_spec(*l))),
        (e matches Expression::Binary(_, l, r) ==> (eval_spec(*l) is Ok && eval_spec(*r) is Err
            ==> eval_spec(e) == eval_spec(*r))),
        (e matches Expression::Unary(_, inner) ==> (eval_spec(*inner) is Err ==> eval_spec(e)
            == eval_spec(*inner))),
{
}

/// Structural equality never errors: once both operands of `==` or `!=`
/// evaluate, the comparison yields a boolean, whatever the two variants
/// are; and values of different variants are simply unequal.
pub proof fn law_equality_total(e: Expression)
    requires
        e matches Expression::Binary(op, l, r) && (op == BinaryOperator::Equal || op
            == BinaryOperator::NotEqual) && eval_spec(*l) is Ok && eval_spec(*r) is Ok,
    ensures
        eval_spec(e) matches Ok(v) && v is Bool,
        eval_spec(e) == Ok::<ValueS, RuntimeErrorS>(
            ValueS::Bool(
                (e->Binary_0 == BinaryOperator::Equal) == values_equal(
                    eval_spec(*e->Binary_1)->Ok_0,
                    eval_spec(*e->Binary_2)->Ok_0,
                ),
            ),
        ),
{
}

/// Values of different variants are never structurally equal.
pub proof fn law_mixed_variants_unequal(a: ValueS, b: ValueS)
    requires
        type_of(a) != type_of(b),
    ensures
        !values_equal(a, b),
{
}

/// Logical not never fails: it returns the negated truthiness of its
/// operand, where exactly `false` and nil are falsy.
pub proof fn law_not_total(e: Expression)
    requires
        e matches Expression::Unary(op, inner) && op == UnaryOperator::Not && eval_spec(
            *inner,
        ) is Ok,
    ensures
        eval_spec(e) == Ok::<ValueS, RuntimeErrorS>(
            ValueS::Bool(!truthy(eval_spec(*e->Unary_1)->Ok_0)),
        ),
        truthy(eval_spec(*e->Unary_1)->Ok_0) <==> !(eval_spec(*e->Unary_1)->Ok_0
            == ValueS::Bool(false) || eval_spec(*e->Unary_1)->Ok_0 == ValueS::Nil),
{
}

/// String concatenation: `+` on two strings concatenates them, and `+`
/// with a string on the left and a non-string on the right fails with a
/// type error expecting exactly `String` and reporting the right value.
pub proof fn law_concat(e: Expression)
    requires
        e matches Expression::Binary(op, l, r) && op == BinaryOperator::Add && eval_spec(
            *l,
        ) is Ok && eval_spec(*r) is Ok,
    ensures
        (eval_spec(*e->Binary_1)->Ok_0 is Str && eval_spec(*e->Binary_2)->Ok_0 is Str
            ==> eval_spec(e) == Ok::<ValueS, RuntimeErrorS>(
            ValueS::Str(
                eval_spec(*e->Binary_1)->Ok_0->Str_0 + eval_spec(*e->Binary_2)->Ok_0->Str_0,
            ),
        )),
        (eval_spec(*e->Binary_1)->Ok_0 is Str && !(eval_spec(*e->Binary_2)->Ok_0 is Str)
            ==> eval_spec(e) == Err::<ValueS, RuntimeErrorS>(
            RuntimeErrorS::TypeError(
                TypeErrorS {
                    expected: seq![Type::String],
                    actual: eval_spec(*e->Binary_2)->Ok_0,
                },
            ),
        )),
{
    match e {
        Expression::Binary(op, l, r) => {
            let lv = eval_spec(*l)->Ok_0;
            let rv = eval_spec(*r)->Ok_0;
            if lv is Str && rv is Str {
                assert(eval_spec(e) == apply_binary(op, lv, rv));
                assert(apply_binary(BinaryOperator::Add, lv, rv) == Ok::<ValueS, RuntimeErrorS>(
                    ValueS::Str(lv->Str_0 + rv->Str_0),
                ));
            }
        },
        _ => {},
    }
}

/// Relational type strictness: the four orderings require numbers on
/// both sides. A non-number left operand fails with a type error
/// expecting `Number` and reporting it; with a number on the left, a
/// non-number right operand fails the same way; with numbers on both
/// sides the result is a boolean.
pub proof fn law_relational_needs_numbers(e: Expression)
    requires
        e matches Expression::Binary(op, l, r) && (op == BinaryOperator::Greater || op
            == BinaryOperator::GreaterEqual || op == BinaryOperator::Less || op
            == BinaryOperator::LessEqual) && eval_spec(*l) is Ok && eval_spec(*r) is Ok,
    ensures
        (!(eval_spec(*e->Binary_1)->Ok_0 is Num) ==> eval_spec(e) == Err::<
            ValueS,
            RuntimeErrorS,
        >(
            RuntimeErrorS::TypeError(
                TypeErrorS {
                    expected: seq![Type::Number],
                    actual: eval_spec(*e->Binary_1)->Ok_0,
                },
            ),
        )),
        (eval_spec(*e->Binary_1)->Ok_0 is Num && !(eval_spec(*e->Binary_2)->Ok_0 is Num)
            ==> eval_spec(e) == Err::<ValueS, RuntimeErrorS>(
            RuntimeErrorS::TypeError(
                TypeErrorS {
                    expected: seq![Type::Number],
                    actual: eval_spec(*e->Binary_2)->Ok_0,
                },
            ),
        )),
        (eval_spec(*e->Binary_1)->Ok_0 is Num && eval_spec(*e->Binary_2)->Ok_0 is Num
            ==> (eval_spec(e) matches Ok(v) && v is Bool)),
{
}

} // verus!
