use marlang::ast::{
    Ast, AstBinaryOperatorKind, AstExpression, AstExpressionKind, AstStatementKind,
};
use marlang::lexer::{Lexer, TokenKind};
use marlang::parser::{ParseError, Parser, EXPRESSION_DEPTH_LIMIT};

fn parse_text(input: &str) -> Result<Ast, ParseError> {
    let text = String::from(input);
    let mut lexer = Lexer::new(&text);
    let tokens = lexer.tokenize();
    let mut parser = Parser::new(tokens);
    parser.parse()
}

fn statement_expression(ast: &Ast, index: usize) -> &AstExpression {
    let AstStatementKind::Expression(expression) = &ast.statements[index].kind;
    expression
}

fn expect_number(expression: &AstExpression, expected: isize) {
    match &expression.kind {
        AstExpressionKind::Number(value) => assert_eq!(*value, expected),
        other => panic!("expected Number({expected}), found {other:?}"),
    }
}

fn expect_binary(
    expression: &AstExpression,
    expected_operator: AstBinaryOperatorKind,
) -> (&AstExpression, &AstExpression) {
    match &expression.kind {
        AstExpressionKind::Binary(binary) => {
            assert_eq!(binary.operator.kind, expected_operator);
            (&binary.left, &binary.right)
        }
        other => panic!("expected a {expected_operator:?} binary expression, found {other:?}"),
    }
}

#[test]
fn grouping_overrides_precedence() {
    let ast = parse_text("(1+2)*3").unwrap();
    assert_eq!(ast.statements.len(), 1);
    let root = statement_expression(&ast, 0);
    let (left, right) = expect_binary(root, AstBinaryOperatorKind::Multiply);
    let (one, two) = expect_binary(left, AstBinaryOperatorKind::Plus);
    expect_number(one, 1);
    expect_number(two, 2);
    expect_number(right, 3);
}

#[test]
fn multiplication_binds_tighter_than_addition() {
    let ast = parse_text("2+3*4").unwrap();
    assert_eq!(ast.statements.len(), 1);
    let root = statement_expression(&ast, 0);
    let (left, right) = expect_binary(root, AstBinaryOperatorKind::Plus);
    expect_number(left, 2);
    let (three, four) = expect_binary(right, AstBinaryOperatorKind::Multiply);
    expect_number(three, 3);
    expect_number(four, 4);
}

#[test]
fn equal_precedence_groups_from_the_right() {
    // The right-hand side of an operator is parsed at the operator's own
    // precedence, so a subtraction chain nests to the right:
    // 1-2-3 parses as 1-(2-3).
    let ast = parse_text("1-2-3").unwrap();
    assert_eq!(ast.statements.len(), 1);
    let root = statement_expression(&ast, 0);
    let (left, right) = expect_binary(root, AstBinaryOperatorKind::Minus);
    expect_number(left, 1);
    let (two, three) = expect_binary(right, AstBinaryOperatorKind::Minus);
    expect_number(two, 2);
    expect_number(three, 3);
}

#[test]
fn unterminated_group_reports_offset_of_open_paren() {
    let result = parse_text("(1+2");
    assert_eq!(result.unwrap_err(), ParseError::MissingClosingParen { offset: 0 });
}

#[test]
fn unterminated_group_offset_counts_from_input_start() {
    let result = parse_text("1+ (2");
    assert_eq!(result.unwrap_err(), ParseError::MissingClosingParen { offset: 3 });
}

#[test]
fn group_closed_by_wrong_token_reports_open_paren() {
    let result = parse_text("(1 2");
    assert_eq!(result.unwrap_err(), ParseError::MissingClosingParen { offset: 0 });
}

#[test]
fn empty_input_parses_to_zero_statements() {
    let ast = parse_text("").unwrap();
    assert_eq!(ast.statements.len(), 0);
}

#[test]
fn unmapped_symbol_parses_to_zero_statements() {
    let ast = parse_text("#").unwrap();
    assert_eq!(ast.statements.len(), 0);
}

#[test]
fn single_number_statement() {
    let ast = parse_text("42").unwrap();
    assert_eq!(ast.statements.len(), 1);
    expect_number(statement_expression(&ast, 0), 42);
}

#[test]
fn two_numbers_are_two_statements() {
    let ast = parse_text("1 2").unwrap();
    assert_eq!(ast.statements.len(), 2);
    expect_number(statement_expression(&ast, 0), 1);
    expect_number(statement_expression(&ast, 1), 2);
}

#[test]
fn empty_group_is_a_missing_paren_error() {
    // The inner parse consumes the `)` while looking for a primary
    // expression, so the group is left unclosed.
    let result = parse_text("()");
    assert_eq!(result.unwrap_err(), ParseError::MissingClosingParen { offset: 0 });
}

#[test]
fn group_around_a_non_expression_can_still_close() {
    // `#` is consumed while looking for a primary expression; the token
    // after it is the `)`, so the group closes and no statement is produced.
    let ast = parse_text("(#)").unwrap();
    assert_eq!(ast.statements.len(), 0);
}

#[test]
fn whitespace_is_filtered_before_parsing() {
    let ast = parse_text(" 1 + 2 ").unwrap();
    assert_eq!(ast.statements.len(), 1);
    let root = statement_expression(&ast, 0);
    let (left, right) = expect_binary(root, AstBinaryOperatorKind::Plus);
    expect_number(left, 1);
    expect_number(right, 2);
}

#[test]
fn division_parses_like_multiplication() {
    let ast = parse_text("8/2+1").unwrap();
    let root = statement_expression(&ast, 0);
    let (left, right) = expect_binary(root, AstBinaryOperatorKind::Plus);
    let (eight, two) = expect_binary(left, AstBinaryOperatorKind::Divide);
    expect_number(eight, 8);
    expect_number(two, 2);
    expect_number(right, 1);
}

#[test]
fn operator_keeps_its_source_token() {
    let ast = parse_text("1+2").unwrap();
    let root = statement_expression(&ast, 0);
    match &root.kind {
        AstExpressionKind::Binary(binary) => {
            assert_eq!(binary.operator.token.kind, TokenKind::Plus);
            assert_eq!(binary.operator.token.span.start, 1);
            assert_eq!(binary.operator.token.span.end, 2);
            assert_eq!(binary.operator.token.span.literal, "+");
        }
        other => panic!("expected a binary expression, found {other:?}"),
    }
}

#[test]
fn nesting_beyond_the_depth_limit_is_an_error() {
    let mut input = String::new();
    for _ in 0..EXPRESSION_DEPTH_LIMIT + 1 {
        input.push('(');
    }
    input.push('1');
    for _ in 0..EXPRESSION_DEPTH_LIMIT + 1 {
        input.push(')');
    }
    let result = parse_text(&input);
    assert_eq!(result.unwrap_err(), ParseError::DepthLimitExceeded);
}

#[test]
fn nesting_below_the_depth_limit_parses() {
    let ast = parse_text("(((((7)))))").unwrap();
    assert_eq!(ast.statements.len(), 1);
    expect_number(statement_expression(&ast, 0), 7);
}
