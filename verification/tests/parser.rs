use icc::ast::parser::{parse, CompileError, ParseError, Parser};
use icc::ast::tokenizer::{tokenize, LexError, TokenKind};
use icc::ast::{
    ASTBinaryExpression, ASTExpression, ASTExpressionKind, ASTNode, ASTNodeKind,
    BinaryOperatorKind,
};

fn literal(i: i64) -> ASTExpression {
    ASTExpression {
        kind: ASTExpressionKind::IntegerLiteral(i),
    }
}

fn binary(op: BinaryOperatorKind, left: ASTExpression, right: ASTExpression) -> ASTExpression {
    ASTExpression {
        kind: ASTExpressionKind::Binary(ASTBinaryExpression::new(op, left, right)),
    }
}

fn statement(e: ASTExpression) -> ASTNode {
    ASTNode {
        kind: ASTNodeKind::Expression(e),
    }
}

#[test]
fn statement_boundary() {
    let ast = parse("1;2;".into()).unwrap();
    assert_eq!(ast.nodes.len(), 2);
    assert_eq!(ast.nodes[0], statement(literal(1)));
    assert_eq!(ast.nodes[1], statement(literal(2)));
}

#[test]
fn trailing_whitespace_before_separator_is_insignificant() {
    let a = parse("1;".into()).unwrap();
    let b = parse("1 ;".into()).unwrap();
    assert_eq!(a.nodes, b.nodes);
}

#[test]
fn left_fold_associativity() {
    let ast = parse("1+2+3;".into()).unwrap();
    assert_eq!(ast.nodes.len(), 1);
    let expected = statement(binary(
        BinaryOperatorKind::Plus,
        binary(BinaryOperatorKind::Plus, literal(1), literal(2)),
        literal(3),
    ));
    assert_eq!(ast.nodes[0], expected);
}

#[test]
fn left_fold_ignores_operator_kind() {
    let ast = parse("1+2*3;".into()).unwrap();
    let expected = statement(binary(
        BinaryOperatorKind::Mult,
        binary(BinaryOperatorKind::Plus, literal(1), literal(2)),
        literal(3),
    ));
    assert_eq!(ast.nodes[0], expected);
}

#[test]
fn all_four_operators_fold() {
    let ast = parse("8-2/3*4;".into()).unwrap();
    let expected = statement(binary(
        BinaryOperatorKind::Mult,
        binary(
            BinaryOperatorKind::Div,
            binary(BinaryOperatorKind::Minus, literal(8), literal(2)),
            literal(3),
        ),
        literal(4),
    ));
    assert_eq!(ast.nodes[0], expected);
}

#[test]
fn missing_terminator_is_fatal() {
    assert_eq!(
        parse("1+2".into()).unwrap_err(),
        CompileError::Parse(ParseError::UnterminatedExpression)
    );
}

#[test]
fn two_literals_in_a_row_are_unterminated() {
    assert_eq!(
        parse("1 2;".into()).unwrap_err(),
        CompileError::Parse(ParseError::UnterminatedExpression)
    );
}

#[test]
fn dangling_operator_is_fatal() {
    assert_eq!(
        parse("1+;".into()).unwrap_err(),
        CompileError::Parse(ParseError::MissingRightOperand)
    );
    assert_eq!(
        parse("1+".into()).unwrap_err(),
        CompileError::Parse(ParseError::MissingRightOperand)
    );
}

#[test]
fn leading_operator_misses_its_left_operand() {
    assert_eq!(
        parse("+1;".into()).unwrap_err(),
        CompileError::Parse(ParseError::MissingLeftOperand)
    );
}

#[test]
fn statement_forms_beyond_expressions_are_unsupported() {
    assert_eq!(
        parse("main;".into()).unwrap_err(),
        CompileError::Parse(ParseError::UnsupportedToken)
    );
    assert_eq!(
        parse("(1);".into()).unwrap_err(),
        CompileError::Parse(ParseError::UnsupportedToken)
    );
}

#[test]
fn lexical_failure_surfaces_through_parse() {
    assert_eq!(
        parse("1 $ 2;".into()).unwrap_err(),
        CompileError::Lex(LexError::UnsupportedCharacter(2))
    );
}

#[test]
fn stray_separators_are_tolerated() {
    let ast = parse(";;1;;".into()).unwrap();
    assert_eq!(ast.nodes.len(), 1);
    assert_eq!(ast.nodes[0], statement(literal(1)));
}

#[test]
fn empty_input_parses_to_an_empty_tree() {
    let ast = parse("".into()).unwrap();
    assert_eq!(ast.nodes.len(), 0);
}

#[test]
fn parser_cursor_peeks_within_bounds() {
    let tokens = tokenize("1+2;".into()).unwrap();
    let parser = Parser::from_tokens(tokens);
    assert_eq!(parser.current(), Some(&TokenKind::Integer(1)));
    assert_eq!(parser.peek(1), Some(&TokenKind::Plus));
    assert_eq!(parser.peek(3), Some(&TokenKind::SemiColon));
    assert_eq!(parser.peek(4), None);
    assert_eq!(parser.peek(-1), None);
}
