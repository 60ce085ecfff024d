//! End-to-end scenarios through the full pipeline: scan, filter
//! comments, parse, evaluate.

use loxer::ast::Expression;
use loxer::interpreter::{eval, RuntimeError};
use loxer::parser::{Error, Parser};
use loxer::scanner::{scan_all, without_comments};
use loxer::span::Spanned;
use loxer::value::{Type, Value};

fn parse_results(source: &str) -> Vec<Spanned<Result<Expression, Error>>> {
    loxer::parser::parse_source(source.as_bytes())
}

#[test]
fn manual_composition_matches_parse_source() {
    let source = "1 + 2 * (3 - 4) @ ; !true";
    let bytes = source.as_bytes();
    let tokens = without_comments(scan_all(bytes));
    assert!(loxer::parser::spans_ok(bytes, &tokens));
    let mut parser = Parser::new(bytes, tokens);
    let mut manual = Vec::new();
    while let Some(result) = parser.next() {
        manual.push(result);
    }
    assert_eq!(manual, loxer::parser::parse_source(bytes));
}

fn eval_one(source: &str) -> Result<Value, RuntimeError> {
    let mut results = parse_results(source);
    assert_eq!(results.len(), 1, "expected one expression in {:?}", source);
    let expression = results.remove(0).value.expect("expected a parse success");
    eval(expression)
}

fn number(source: &str) -> f64 {
    match eval_one(source) {
        Ok(Value::Number(bits)) => f64::from_bits(bits),
        other => panic!("expected a number from {:?}, got {:?}", source, other),
    }
}

fn boolean(source: &str) -> bool {
    match eval_one(source) {
        Ok(Value::Boolean(b)) => b,
        other => panic!("expected a boolean from {:?}, got {:?}", source, other),
    }
}

fn type_error(source: &str) -> (Vec<Type>, Value) {
    match eval_one(source) {
        Err(RuntimeError::TypeError(e)) => (e.expected, e.actual),
        other => panic!("expected a type error from {:?}, got {:?}", source, other),
    }
}

#[test]
fn precedence_mul_binds_tighter_than_add() {
    assert_eq!(number("2 + 3 * 4"), 14.0);
}

#[test]
fn subtraction_is_left_associative() {
    assert_eq!(number("2 - 3 - 4"), -5.0);
}

#[test]
fn grouping_overrides_precedence() {
    assert_eq!(number("(2 + 3) * 4"), 20.0);
}

#[test]
fn string_concatenation() {
    assert_eq!(
        eval_one("\"a\" + \"b\""),
        Ok(Value::String(b"ab".to_vec()))
    );
}

#[test]
fn string_plus_number_is_a_type_error() {
    let (expected, actual) = type_error("\"a\" + 1");
    assert_eq!(expected, vec![Type::String]);
    assert_eq!(actual, Value::Number(1.0f64.to_bits()));
}

#[test]
fn number_plus_string_is_a_type_error() {
    let (expected, actual) = type_error("1 + \"a\"");
    assert_eq!(expected, vec![Type::Number]);
    assert_eq!(actual, Value::String(b"a".to_vec()));
}

#[test]
fn nil_plus_anything_reports_the_left_operand() {
    let (expected, actual) = type_error("nil + 1");
    assert_eq!(expected, vec![Type::Number, Type::String]);
    assert_eq!(actual, Value::Nil);
}

#[test]
fn chained_relational_parses_but_fails_to_evaluate() {
    let results = parse_results("1 < 2 < 0");
    assert_eq!(results.len(), 1);
    let expression = results.into_iter().next().unwrap().value.expect("parses");
    match eval(expression) {
        Err(RuntimeError::TypeError(e)) => {
            assert_eq!(e.expected, vec![Type::Number]);
            assert_eq!(e.actual, Value::Boolean(true));
        }
        other => panic!("expected a type error, got {:?}", other),
    }
}

#[test]
fn truthiness_of_nil_zero_false_and_empty_string() {
    assert!(boolean("!nil"));
    assert!(!boolean("!0"));
    assert!(boolean("!false"));
    assert!(!boolean("!\"\""));
}

#[test]
fn equality_across_variants_is_false_not_an_error() {
    assert!(!boolean("1 == \"1\""));
    assert!(!boolean("nil == false"));
    assert!(boolean("3 == 3.0"));
}

#[test]
fn not_equal_negates_equality() {
    assert!(boolean("1 != \"1\""));
    assert!(!boolean("3 != 3.0"));
}

#[test]
fn nan_is_not_equal_to_itself() {
    assert!(!boolean("0 / 0 == 0 / 0"));
}

#[test]
fn negative_zero_equals_zero() {
    assert!(boolean("-0 == 0"));
}

#[test]
fn unterminated_string_is_a_parse_error_not_a_scan_failure() {
    let results = parse_results("\"abc");
    assert_eq!(results.len(), 1);
    assert_eq!(results[0].value, Err(Error::MalformedString));
}

#[test]
fn malformed_number_with_two_dots() {
    let results = parse_results("1.2.3");
    assert_eq!(results.len(), 1);
    assert_eq!(results[0].value, Err(Error::MalformedNumber));
}

#[test]
fn trailing_dot_number_is_accepted() {
    assert_eq!(number("1. + 2"), 3.0);
}

#[test]
fn missing_close_paren_is_expected_right_paren() {
    let results = parse_results("(1 + 2");
    assert_eq!(results.len(), 1);
    assert_eq!(
        results[0].value,
        Err(Error::Expected(loxer::scanner::Token::RightParen))
    );
}

#[test]
fn parse_error_then_valid_expression_after_semicolon() {
    let results = parse_results("@ ; 2 * 3");
    assert_eq!(results.len(), 2);
    assert_eq!(results[0].value, Err(Error::ExpectedPrimary));
    let second = results
        .into_iter()
        .nth(1)
        .unwrap()
        .value
        .expect("second expression parses");
    assert_eq!(eval(second), Ok(Value::Number(6.0f64.to_bits())));
}

#[test]
fn synchronization_stops_before_a_statement_keyword() {
    let results = parse_results("@ 1 var 2");
    assert!(results.len() >= 2);
    assert_eq!(results[0].value, Err(Error::ExpectedPrimary));
    // the second attempt starts exactly at the `var` keyword
    assert_eq!(results[1].span.start, 4);
}

#[test]
fn earlier_failure_does_not_affect_later_evaluation() {
    let results = parse_results("1 + nil 2 + 3");
    assert_eq!(results.len(), 2);
    let mut values = Vec::new();
    for r in results {
        values.push(eval(r.value.expect("both sides parse")));
    }
    assert!(matches!(values[0], Err(RuntimeError::TypeError(_))));
    assert_eq!(values[1], Ok(Value::Number(5.0f64.to_bits())));
}

#[test]
fn failed_attempt_span_includes_synchronization() {
    // the '@' fails the attempt; synchronization then consumes the ';'
    let results = parse_results("@ ; 2");
    assert_eq!(results.len(), 2);
    assert_eq!(results[0].span.start, 0);
    assert_eq!(results[0].span.end, 3);
    assert_eq!(results[1].span.start, 4);
}

#[test]
fn comments_are_dropped_before_parsing() {
    assert_eq!(number("// note\n1 + 2"), 3.0);
}

#[test]
fn division_by_zero_is_infinity() {
    assert_eq!(number("1 / 0"), f64::INFINITY);
    assert!(number("0 / 0").is_nan());
}

#[test]
fn arithmetic_through_the_software_floats() {
    assert_eq!(number("5 - 2"), 3.0);
    assert_eq!(number("6 * 7"), 42.0);
    assert_eq!(number("7 / 2"), 3.5);
    assert_eq!(number("0.1 + 0.2"), 0.1f64 + 0.2f64);
    assert_eq!(number("2.5"), 2.5);
    assert_eq!(number("-3"), -3.0);
    assert_eq!(number("--3"), 3.0);
}

#[test]
fn relational_operators() {
    assert!(boolean("1 < 2"));
    assert!(!boolean("2 < 1"));
    assert!(boolean("2 <= 2"));
    assert!(boolean("3 > 2"));
    assert!(!boolean("2 > 3"));
    assert!(boolean("2 >= 2"));
    assert!(!boolean("0 / 0 < 1"));
}

#[test]
fn unary_not_is_right_associative() {
    assert!(!boolean("!!nil"));
    assert!(boolean("!!1"));
}

#[test]
fn negating_a_string_is_a_type_error() {
    let (expected, actual) = type_error("-\"a\"");
    assert_eq!(expected, vec![Type::Number]);
    assert_eq!(actual, Value::String(b"a".to_vec()));
}

#[test]
fn string_literal_content_excludes_quotes() {
    assert_eq!(
        eval_one("\"hello\""),
        Ok(Value::String(b"hello".to_vec()))
    );
}

#[test]
fn precedence_tree_of_add_and_mul() {
    let mut results = parse_results("2 + 3 * 4");
    assert_eq!(results.len(), 1);
    let tree = results.remove(0).value.expect("parses");
    let lit = |x: f64| Box::new(Expression::Literal(Value::Number(x.to_bits())));
    let expected = Expression::Binary(
        loxer::ast::BinaryOperator::Add,
        lit(2.0),
        Box::new(Expression::Binary(loxer::ast::BinaryOperator::Mul, lit(3.0), lit(4.0))),
    );
    assert_eq!(tree, expected);
}

#[test]
fn double_not_tree_is_right_nested() {
    let mut results = parse_results("!!true");
    assert_eq!(results.len(), 1);
    let tree = results.remove(0).value.expect("parses");
    let expected = Expression::Unary(
        loxer::ast::UnaryOperator::Not,
        Box::new(Expression::Unary(
            loxer::ast::UnaryOperator::Not,
            Box::new(Expression::Literal(Value::Boolean(true))),
        )),
    );
    assert_eq!(tree, expected);
}

#[test]
fn attempt_spans_cover_consumed_tokens() {
    let results = parse_results("1 + 2");
    assert_eq!(results.len(), 1);
    assert_eq!(results[0].span.start, 0);
    assert_eq!(results[0].span.end, 5);
}
