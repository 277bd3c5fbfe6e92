use sql_expr::ast::{BinaryOperator, Expression};
use sql_expr::error::ParseError;
use sql_expr::parser::PrattParser;

fn parse(input: &str) -> Result<Expression, ParseError> {
    let mut parser = PrattParser::new(input);
    parser.parse()
}

fn num(n: u64) -> Expression {
    Expression::Number(n)
}

fn ident(name: &str) -> Expression {
    Expression::Identifier(name.to_string())
}

fn bin(left: Expression, operator: BinaryOperator, right: Expression) -> Expression {
    Expression::BinaryOperation {
        left_operand: Box::new(left),
        operator,
        right_operand: Box::new(right),
    }
}

#[test]
fn single_number() {
    assert_eq!(parse("42").unwrap(), num(42));
}

#[test]
fn single_identifier() {
    assert_eq!(parse("foo").unwrap(), ident("foo"));
}

#[test]
fn multiplication_binds_tighter_than_addition() {
    // 1+2*3 parses as 1 + (2*3)
    assert_eq!(
        parse("1+2*3").unwrap(),
        bin(num(1), BinaryOperator::Plus, bin(num(2), BinaryOperator::Multiply, num(3)))
    );
}

#[test]
fn equal_precedence_groups_left() {
    // 1-2-3 parses as (1-2) - 3
    assert_eq!(
        parse("1-2-3").unwrap(),
        bin(bin(num(1), BinaryOperator::Minus, num(2)), BinaryOperator::Minus, num(3))
    );
}

#[test]
fn division_groups_left() {
    assert_eq!(
        parse("8/2/2").unwrap(),
        bin(bin(num(8), BinaryOperator::Divide, num(2)), BinaryOperator::Divide, num(2))
    );
}

#[test]
fn multiplication_then_addition() {
    // 1*2+3 parses as (1*2) + 3
    assert_eq!(
        parse("1*2+3").unwrap(),
        bin(bin(num(1), BinaryOperator::Multiply, num(2)), BinaryOperator::Plus, num(3))
    );
}

#[test]
fn grouping_overrides_precedence() {
    // (1+2)*3 keeps the parenthesized sum as the left operand
    assert_eq!(
        parse("(1+2)*3").unwrap(),
        bin(bin(num(1), BinaryOperator::Plus, num(2)), BinaryOperator::Multiply, num(3))
    );
}

#[test]
fn missing_closing_parenthesis_is_invalid_input() {
    let err = parse("(1+2").unwrap_err();
    assert!(matches!(err, ParseError::InvalidInput(_)));
}

#[test]
fn identifiers_as_operands() {
    // x*2+y parses as (x*2) + y with identifier leaves
    assert_eq!(
        parse("x*2+y").unwrap(),
        bin(
            bin(ident("x"), BinaryOperator::Multiply, num(2)),
            BinaryOperator::Plus,
            ident("y")
        )
    );
}

#[test]
fn nested_parentheses() {
    assert_eq!(
        parse("((7))").unwrap(),
        num(7)
    );
}

#[test]
fn whitespace_between_operands() {
    assert_eq!(
        parse("  1 +  2 ").unwrap(),
        bin(num(1), BinaryOperator::Plus, num(2))
    );
}

#[test]
fn empty_input_is_invalid() {
    let err = parse("").unwrap_err();
    assert!(matches!(err, ParseError::InvalidInput(_)));
}

#[test]
fn operator_without_operand_is_invalid() {
    assert!(matches!(parse("+").unwrap_err(), ParseError::InvalidInput(_)));
    assert!(matches!(parse("1+").unwrap_err(), ParseError::InvalidInput(_)));
}

#[test]
fn bare_closing_parenthesis_is_invalid() {
    let err = parse(")").unwrap_err();
    assert!(matches!(err, ParseError::InvalidInput(_)));
}

#[test]
fn parse_consumes_a_prefix_only() {
    // Trailing tokens after a complete expression are left unread.
    assert_eq!(
        parse("1+2 3").unwrap(),
        bin(num(1), BinaryOperator::Plus, num(2))
    );
    assert_eq!(parse("5;").unwrap(), num(5));
}

#[test]
fn keyword_is_not_a_primary() {
    let err = parse("SELECT").unwrap_err();
    assert!(matches!(err, ParseError::InvalidInput(_)));
}

#[test]
fn long_left_leaning_chain() {
    // 1+2+3+4 parses as ((1+2)+3)+4
    assert_eq!(
        parse("1+2+3+4").unwrap(),
        bin(
            bin(
                bin(num(1), BinaryOperator::Plus, num(2)),
                BinaryOperator::Plus,
                num(3)
            ),
            BinaryOperator::Plus,
            num(4)
        )
    );
}

#[test]
fn mixed_precedence_chain() {
    // a*b + c*d parses as (a*b) + (c*d)
    assert_eq!(
        parse("a*b+c*d").unwrap(),
        bin(
            bin(ident("a"), BinaryOperator::Multiply, ident("b")),
            BinaryOperator::Plus,
            bin(ident("c"), BinaryOperator::Multiply, ident("d"))
        )
    );
}
