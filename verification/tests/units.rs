//! The value model, the evaluator on hand-built trees, and the
//! diagnostics helpers.

use loxer::ast::{BinaryOperator, Expression, UnaryOperator};
use loxer::diagnostics::{caret_line, count_lines, excerpt, line_range, lower_bound};
use loxer::interpreter::{eval, eval_binary, is_truthy, value_eq, RuntimeError};
use loxer::span::Span;
use loxer::value::{Type, Value};

fn num(x: f64) -> Value {
    Value::Number(x.to_bits())
}

fn lit(v: Value) -> Expression {
    Expression::Literal(v)
}

#[test]
fn value_type_tags() {
    assert_eq!(Value::String(b"x".to_vec()).ty(), Type::String);
    assert_eq!(num(1.0).ty(), Type::Number);
    assert_eq!(Value::Boolean(true).ty(), Type::Boolean);
    assert_eq!(Value::Nil.ty(), Type::Nil);
}

#[test]
fn extraction_succeeds_on_the_matching_variant() {
    assert_eq!(num(2.0).as_number(), Ok(2.0f64.to_bits()));
    assert_eq!(Value::String(b"s".to_vec()).as_string(), Ok(b"s".to_vec()));
    assert_eq!(Value::Boolean(false).as_boolean(), Ok(false));
}

#[test]
fn extraction_failure_names_the_expected_type_and_the_value() {
    let e = Value::Nil.as_number().unwrap_err();
    assert_eq!(e.expected, vec![Type::Number]);
    assert_eq!(e.actual, Value::Nil);
    let e = num(1.0).as_string().unwrap_err();
    assert_eq!(e.expected, vec![Type::String]);
    assert_eq!(e.actual, num(1.0));
    let e = Value::Nil.as_boolean().unwrap_err();
    assert_eq!(e.expected, vec![Type::Boolean]);
}

#[test]
fn truthiness_rule() {
    assert!(!is_truthy(Value::Boolean(false)));
    assert!(!is_truthy(Value::Nil));
    assert!(is_truthy(Value::Boolean(true)));
    assert!(is_truthy(num(0.0)));
    assert!(is_truthy(Value::String(Vec::new())));
}

#[test]
fn structural_equality_on_values() {
    assert!(value_eq(&num(3.0), &num(3.0)));
    assert!(!value_eq(&num(3.0), &num(4.0)));
    assert!(value_eq(
        &Value::String(b"ab".to_vec()),
        &Value::String(b"ab".to_vec())
    ));
    assert!(!value_eq(&Value::String(b"ab".to_vec()), &num(1.0)));
    assert!(!value_eq(&Value::Nil, &Value::Boolean(false)));
    assert!(value_eq(&Value::Nil, &Value::Nil));
}

#[test]
fn literal_evaluates_to_itself() {
    assert_eq!(eval(lit(Value::Nil)), Ok(Value::Nil));
    assert_eq!(eval(lit(num(7.0))), Ok(num(7.0)));
}

#[test]
fn grouping_evaluates_the_inner_expression() {
    let e = Expression::Grouping(Box::new(lit(num(7.0))));
    assert_eq!(eval(e), Ok(num(7.0)));
}

#[test]
fn unary_negation_requires_a_number() {
    let e = Expression::Unary(UnaryOperator::Neg, Box::new(lit(num(2.0))));
    assert_eq!(eval(e), Ok(num(-2.0)));
    let e = Expression::Unary(UnaryOperator::Neg, Box::new(lit(Value::Nil)));
    match eval(e) {
        Err(RuntimeError::TypeError(t)) => {
            assert_eq!(t.expected, vec![Type::Number]);
            assert_eq!(t.actual, Value::Nil);
        }
        other => panic!("expected a type error, got {:?}", other),
    }
}

#[test]
fn left_operand_fails_first() {
    // both operands are ill-typed: the left one is reported
    let e = Expression::Binary(
        BinaryOperator::Sub,
        Box::new(lit(Value::Nil)),
        Box::new(lit(Value::Boolean(true)))
    );
    match eval(e) {
        Err(RuntimeError::TypeError(t)) => assert_eq!(t.actual, Value::Nil),
        other => panic!("expected a type error, got {:?}", other),
    }
}

#[test]
fn left_subtree_failure_short_circuits_the_right() {
    let failing = Expression::Unary(UnaryOperator::Neg, Box::new(lit(Value::Nil)));
    let e = Expression::Binary(
        BinaryOperator::Equal,
        Box::new(failing),
        Box::new(lit(num(1.0)))
    );
    assert!(matches!(eval(e), Err(RuntimeError::TypeError(_))));
}

#[test]
fn eval_binary_applies_one_operator() {
    assert_eq!(
        eval_binary(BinaryOperator::Mul, num(6.0), num(7.0)),
        Ok(num(42.0))
    );
    assert_eq!(
        eval_binary(BinaryOperator::Less, num(1.0), num(2.0)),
        Ok(Value::Boolean(true))
    );
    assert_eq!(
        eval_binary(BinaryOperator::Equal, Value::Nil, num(1.0)),
        Ok(Value::Boolean(false))
    );
}

#[test]
fn count_lines_records_every_newline() {
    assert_eq!(count_lines(b"a\nb\n"), vec![-1, 1, 3]);
    assert_eq!(count_lines(b""), vec![-1]);
    assert_eq!(count_lines(b"abc"), vec![-1]);
    assert_eq!(count_lines(b"\n\n"), vec![-1, 0, 1]);
}

#[test]
fn lower_bound_finds_the_insertion_point() {
    let lines = vec![-1, 3, 9];
    assert_eq!(lower_bound(&lines, -1), 0);
    assert_eq!(lower_bound(&lines, 0), 1);
    assert_eq!(lower_bound(&lines, 3), 1);
    assert_eq!(lower_bound(&lines, 4), 2);
    assert_eq!(lower_bound(&lines, 10), 3);
}

#[test]
fn line_range_of_a_span_on_the_second_line() {
    let input = b"1 + 1\n2 + \"x\"";
    let lines = count_lines(input);
    let (start, end) = line_range(input, &lines, Span { start: 6, end: 13 });
    assert_eq!((start, end), (6, 13));
    assert_eq!(excerpt(input, start, end), b"2 + \"x\"".to_vec());
}

#[test]
fn caret_alignment_on_the_second_line() {
    let input = b"1 + 1\n2 + \"x\"";
    let lines = count_lines(input);
    let span = Span { start: 10, end: 13 };
    let (start, end) = line_range(input, &lines, span);
    assert_eq!((start, end), (6, 13));
    let caret = caret_line(start, end, span);
    assert_eq!(caret, b"    ^^^".to_vec());
}

#[test]
fn line_range_at_the_input_boundaries() {
    let input = b"ab";
    let lines = count_lines(input);
    let (start, end) = line_range(input, &lines, Span { start: 0, end: 2 });
    assert_eq!((start, end), (0, 2));
}

#[test]
fn line_range_when_the_span_ends_on_a_newline() {
    let input = b"\"a\n";
    let lines = count_lines(input);
    let (start, end) = line_range(input, &lines, Span { start: 0, end: 3 });
    assert_eq!(start, 0);
    assert_eq!(end, 2);
}
