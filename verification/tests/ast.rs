use icc::ast::parser::parse;
use icc::ast::tokenizer::TokenKind;
use icc::ast::{
    ASTBinaryExpression, ASTExpression, ASTExpressionKind, ASTNode, ASTNodeKind,
    BinaryOperatorKind, ASTVisualizer, AST,
};

fn literal(i: i64) -> ASTExpression {
    ASTExpression {
        kind: ASTExpressionKind::IntegerLiteral(i),
    }
}

#[test]
fn visualize_renders_a_literal_statement() {
    let ast = parse("42;".into()).unwrap();
    assert_eq!(ast.visualize(), "[Integer Literal]: 42\n");
}

#[test]
fn visualize_renders_a_binary_statement_indented() {
    let ast = parse("1+2;".into()).unwrap();
    let expected = "Binary Operator: +\n\
                    \x20   Left operand: \n\
                    \x20       [Integer Literal]: 1\n\
                    \x20   Right operand: \n\
                    \x20       [Integer Literal]: 2\n";
    assert_eq!(ast.visualize(), expected);
}

#[test]
fn visualize_renders_nested_operands_deeper() {
    let ast = parse("1*2-3;".into()).unwrap();
    let expected = "Binary Operator: -\n\
                    \x20   Left operand: \n\
                    \x20       Binary Operator: *\n\
                    \x20           Left operand: \n\
                    \x20               [Integer Literal]: 1\n\
                    \x20           Right operand: \n\
                    \x20               [Integer Literal]: 2\n\
                    \x20   Right operand: \n\
                    \x20       [Integer Literal]: 3\n";
    assert_eq!(ast.visualize(), expected);
}

#[test]
fn visualize_renders_each_statement_in_order() {
    let ast = parse("7;8;".into()).unwrap();
    assert_eq!(
        ast.visualize(),
        "[Integer Literal]: 7\n[Integer Literal]: 8\n"
    );
}

#[test]
fn visualize_renders_negative_literals_with_a_sign() {
    let mut ast = AST::new();
    ast.push(ASTNode::from_expression(ASTExpression::from_integer(-5)));
    ast.push(ASTNode::from_expression(ASTExpression::from_integer(
        i64::MIN,
    )));
    assert_eq!(
        ast.visualize(),
        "[Integer Literal]: -5\n[Integer Literal]: -9223372036854775808\n"
    );
}

#[test]
fn visualizer_walks_one_node_at_a_time() {
    let mut visualizer = ASTVisualizer::new();
    visualizer.visit_expression(&literal(3));
    visualizer.visit_node(&ASTNode::from_expression(literal(4)));
    assert_eq!(visualizer.out, "[Integer Literal]: 3\n[Integer Literal]: 4\n");
}

#[test]
fn push_and_pop_last_mirror_each_other() {
    let mut ast = AST::new();
    assert_eq!(ast.pop_last(), None);
    ast.push(ASTNode::from_expression(literal(1)));
    ast.push(ASTNode::from_expression(literal(2)));
    assert_eq!(ast.pop_last(), Some(ASTNode::from_expression(literal(2))));
    assert_eq!(ast.pop_last(), Some(ASTNode::from_expression(literal(1))));
    assert_eq!(ast.pop_last(), None);
}

#[test]
fn operator_symbols() {
    assert_eq!(BinaryOperatorKind::Plus.symbol(), "+");
    assert_eq!(BinaryOperatorKind::Minus.symbol(), "-");
    assert_eq!(BinaryOperatorKind::Mult.symbol(), "*");
    assert_eq!(BinaryOperatorKind::Div.symbol(), "/");
}

#[test]
fn binary_expression_owns_its_operands() {
    let b = ASTBinaryExpression::new(BinaryOperatorKind::Div, literal(6), literal(2));
    assert_eq!(b.operator, BinaryOperatorKind::Div);
    assert_eq!(*b.left, literal(6));
    assert_eq!(*b.right, literal(2));
}

#[test]
fn expressions_come_from_tokens_only_for_literals() {
    assert_eq!(
        ASTExpression::from_token(&TokenKind::Integer(9)),
        Some(literal(9))
    );
    assert_eq!(ASTExpression::from_token(&TokenKind::Plus), None);
    assert_eq!(
        ASTExpression::from_token(&TokenKind::Identifier("x".into())),
        None
    );
}

#[test]
fn expressions_unwrap_from_nodes() {
    assert_eq!(
        ASTExpression::from_node(ASTNode::from_expression(literal(7))),
        literal(7)
    );
}

#[test]
fn nodes_wrap_expressions() {
    let node = ASTNode::from_expression(literal(11));
    assert_eq!(
        node,
        ASTNode {
            kind: ASTNodeKind::Expression(literal(11)),
        }
    );
}
