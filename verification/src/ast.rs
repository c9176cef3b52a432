//! The abstract syntax tree produced by the parser: an ordered sequence of
//! top-level expression statements, each a tree of integer literals and
//! binary arithmetic expressions, together with an indented rendering of it.
//!
//! The rendering is stated once, as the spec functions `render_expr` and
//! `render_ast`, and `AST::visualize` is proved to return exactly that text.

use vstd::prelude::*;

use crate::{dec_digits, digit_char_of, int_text};
use vstd::string::StringExecFns;

pub mod parser;
pub mod tokenizer;

verus! {

/// The four binary arithmetic operators of the language.
#[derive(Debug, PartialEq, Eq, Structural, Clone, Copy)]
pub enum BinaryOperatorKind {
    Plus,
    Minus,
    Mult,
    Div,
}

/// The one-character display form of an operator.
pub open spec fn op_char(op: BinaryOperatorKind) -> char {
    match op {
        BinaryOperatorKind::Plus => '+',
        BinaryOperatorKind::Minus => '-',
        BinaryOperatorKind::Mult => '*',
        BinaryOperatorKind::Div => '/',
    }
}

impl BinaryOperatorKind {
    /// The one-character display form, as text.
    pub fn symbol(&self) -> (r: &'static str)
        ensures
            r@ == seq![op_char(*self)],
    {
        proof {
            reveal_strlit("+");
            reveal_strlit("-");
            reveal_strlit("*");
            reveal_strlit("/");
            assert(("+")@ =~= seq!['+']);
            assert(("-")@ =~= seq!['-']);
            assert(("*")@ =~= seq!['*']);
            assert(("/")@ =~= seq!['/']);
        }
        match self {
            BinaryOperatorKind::Plus => "+",
            BinaryOperatorKind::Minus => "-",
            BinaryOperatorKind::Mult => "*",
            BinaryOperatorKind::Div => "/",
        }
    }
}

/// What an expression is: a leaf integer literal, or a binary expression
/// owning its two operands outright.
#[derive(Debug, PartialEq)]
pub enum ASTExpressionKind {
    IntegerLiteral(i64),
    Binary(ASTBinaryExpression),
}

/// A binary expression: an operator and its two exclusively owned operands,
/// both fully resolved expressions.
#[derive(Debug, PartialEq)]
pub struct ASTBinaryExpression {
    pub operator: BinaryOperatorKind,
    pub left: Box<ASTExpression>,
    pub right: Box<ASTExpression>,
}

impl ASTBinaryExpression {
    pub fn new(operator: BinaryOperatorKind, left: ASTExpression, right: ASTExpression) -> (r:
        Self)
        ensures
            r.operator == operator,
            *r.left == left,
            *r.right == right,
    {
        Self { operator, left: Box::new(left), right: Box::new(right) }
    }
}

/// An expression node of the tree.
#[derive(Debug, PartialEq)]
pub struct ASTExpression {
    pub kind: ASTExpressionKind,
}

/// An integer-literal expression.
pub open spec fn lit_expr(v: int) -> ASTExpression {
    ASTExpression { kind: ASTExpressionKind::IntegerLiteral(v as i64) }
}

/// A binary expression built from an operator and two operands.
pub open spec fn bin_expr(op: BinaryOperatorKind, l: ASTExpression, r: ASTExpression)
    -> ASTExpression {
    ASTExpression {
        kind: ASTExpressionKind::Binary(
            ASTBinaryExpression { operator: op, left: Box::new(l), right: Box::new(r) },
        ),
    }
}

impl ASTExpression {
    /// The expression denoting one integer literal.
    pub fn from_integer(i: i64) -> (r: Self)
        ensures
            r == lit_expr(i as int),
    {
        Self { kind: ASTExpressionKind::IntegerLiteral(i) }
    }

    /// The expression a top-level node wraps.
    pub fn from_node(node: ASTNode) -> (r: Self)
        ensures
            r == expr_of_node(node),
    {
        match node.kind {
            ASTNodeKind::Expression(exp) => exp,
        }
    }

    /// The expression a single token denotes, if any: only an integer
    /// literal token is an expression by itself.
    pub fn from_token(token: &tokenizer::TokenKind) -> (r: Option<Self>)
        ensures
            match r {
                Some(e) => token@ matches tokenizer::Tok::Integer(v) && e == lit_expr(v),
                None => !(token@ is Integer),
            },
    {
        match token {
            tokenizer::TokenKind::Integer(i) => Some(
                Self { kind: ASTExpressionKind::IntegerLiteral(*i) },
            ),
            _ => None,
        }
    }
}

/// What a top-level node is; only expression statements exist so far.
#[derive(Debug, PartialEq)]
pub enum ASTNodeKind {
    Expression(ASTExpression),
}

/// A top-level node of the tree.
#[derive(Debug, PartialEq)]
pub struct ASTNode {
    pub kind: ASTNodeKind,
}

/// The node wrapping one expression statement.
pub open spec fn node_of(e: ASTExpression) -> ASTNode {
    ASTNode { kind: ASTNodeKind::Expression(e) }
}

/// The expression a node wraps.
pub open spec fn expr_of_node(n: ASTNode) -> ASTExpression {
    match n.kind {
        ASTNodeKind::Expression(e) => e,
    }
}

impl ASTNode {
    pub fn from_expression(value: ASTExpression) -> (r: Self)
        ensures
            r == node_of(value),
    {
        Self { kind: ASTNodeKind::Expression(value) }
    }
}

/// The ordered sequence of top-level nodes, insertion order = source order.
#[derive(Debug, PartialEq)]
pub struct AST {
    pub nodes: Vec<ASTNode>,
}

impl View for AST {
    type V = Seq<ASTNode>;

    open spec fn view(&self) -> Seq<ASTNode> {
        self.nodes@
    }
}

impl AST {
    pub fn new() -> (r: Self)
        ensures
            r@ == Seq::<ASTNode>::empty(),
    {
        Self { nodes: Vec::new() }
    }

    pub fn push(&mut self, value: ASTNode)
        ensures
            final(self)@ == old(self)@.push(value),
    {
        self.nodes.push(value)
    }

    pub fn pop_last(&mut self) -> (r: Option<ASTNode>)
        ensures
            match r {
                Some(n) => old(self)@.len() > 0 && n == old(self)@.last() && final(self)@ == old(
                    self,
                )@.drop_last(),
                None => old(self)@.len() == 0 && final(self)@ == old(self)@,
            },
    {
        self.nodes.pop()
    }
}

/// Nesting depth of an expression: a literal is flat, a binary node one
/// level deeper than its deeper operand.
pub open spec fn expr_depth(e: ASTExpression) -> nat
    decreases e,
{
    match e.kind {
        ASTExpressionKind::IntegerLiteral(_) => 0,
        ASTExpressionKind::Binary(b) => 1 + if expr_depth(*b.left) >= expr_depth(*b.right) {
            expr_depth(*b.left)
        } else {
            expr_depth(*b.right)
        },
    }
}

/// Nesting depth of a node.
pub open spec fn node_depth(n: ASTNode) -> nat {
    expr_depth(expr_of_node(n))
}

/// `n` spaces.
pub open spec fn spaces(n: nat) -> Seq<char>
    decreases n,
{
    if n == 0 {
        Seq::empty()
    } else {
        spaces((n - 1) as nat).push(' ')
    }
}

/// The indented rendering of one expression: a literal prints its value on
/// one line; a binary node prints its operator, then its operands labelled
/// and indented four further columns each.
pub open spec fn render_expr(e: ASTExpression, indent: nat) -> Seq<char>
    decreases e,
{
    match e.kind {
        ASTExpressionKind::IntegerLiteral(i) => spaces(indent) + ("[Integer Literal]: ")@
            + int_text(i as int) + ("\n")@,
        ASTExpressionKind::Binary(b) => spaces(indent) + ("Binary Operator: ")@ + seq![
            op_char(b.operator),
        ] + ("\n")@ + spaces(indent + 4) + ("Left operand: \n")@ + render_expr(
            *b.left,
            indent + 8,
        ) + spaces(indent + 4) + ("Right operand: \n")@ + render_expr(*b.right, indent + 8),
    }
}

/// The rendering of one top-level node.
pub open spec fn render_node(n: ASTNode, indent: nat) -> Seq<char> {
    render_expr(expr_of_node(n), indent)
}

/// The rendering of a whole tree: each top-level node in order, at the
/// leftmost column.
pub open spec fn render_ast(nodes: Seq<ASTNode>) -> Seq<char>
    decreases nodes.len(),
{
    if nodes.len() == 0 {
        Seq::empty()
    } else {
        render_ast(nodes.drop_last()) + render_node(nodes.last(), 0)
    }
}

/// Text of one decimal digit.
fn digit_str(d: u64) -> (r: &'static str)
    requires
        d < 10,
    ensures
        r@ == seq![digit_char_of(d as int)],
{
    proof {
        reveal_strlit("0");
        reveal_strlit("1");
        reveal_strlit("2");
        reveal_strlit("3");
        reveal_strlit("4");
        reveal_strlit("5");
        reveal_strlit("6");
        reveal_strlit("7");
        reveal_strlit("8");
        reveal_strlit("9");
        assert(("0")@ =~= seq!['0']);
        assert(("1")@ =~= seq!['1']);
        assert(("2")@ =~= seq!['2']);
        assert(("3")@ =~= seq!['3']);
        assert(("4")@ =~= seq!['4']);
        assert(("5")@ =~= seq!['5']);
        assert(("6")@ =~= seq!['6']);
        assert(("7")@ =~= seq!['7']);
        assert(("8")@ =~= seq!['8']);
        assert(("9")@ =~= seq!['9']);
    }
    if d == 0 {
        "0"
    } else if d == 1 {
        "1"
    } else if d == 2 {
        "2"
    } else if d == 3 {
        "3"
    } else if d == 4 {
        "4"
    } else if d == 5 {
        "5"
    } else if d == 6 {
        "6"
    } else if d == 7 {
        "7"
    } else if d == 8 {
        "8"
    } else {
        "9"
    }
}

/// Append the decimal spelling of `n`.
fn append_u64(out: &mut String, n: u64)
    ensures
        final(out)@ == old(out)@ + dec_digits(n as int),
    decreases n,
{
    if n < 10 {
        out.append(digit_str(n));
    } else {
        append_u64(out, n / 10);
        out.append(digit_str(n % 10));
        proof {
            assert(out@ =~= old(out)@ + dec_digits(n as int));
        }
    }
}

/// Append the decimal spelling of `i`, sign included.
fn append_i64(out: &mut String, i: i64)
    ensures
        final(out)@ == old(out)@ + int_text(i as int),
{
    proof {
        reveal_strlit("-");
        assert(("-")@ =~= seq!['-']);
    }
    if i >= 0 {
        append_u64(out, i as u64);
    } else if i == i64::MIN {
        out.append("-");
        append_u64(out, 9223372036854775808u64);
        proof {
            assert(out@ =~= old(out)@ + int_text(i as int));
        }
    } else {
        out.append("-");
        append_u64(out, (-i) as u64);
        proof {
            assert(out@ =~= old(out)@ + int_text(i as int));
        }
    }
}

/// Append `n` spaces.
fn append_spaces(out: &mut String, n: usize)
    ensures
        final(out)@ == old(out)@ + spaces(n as nat),
{
    proof {
        reveal_strlit(" ");
        assert((" ")@ =~= seq![' ']);
    }
    let mut i: usize = 0;
    while i < n
        invariant
            i <= n,
            out@ == old(out)@ + spaces(i as nat),
        decreases n - i,
    {
        out.append(" ");
        i = i + 1;
        proof {
            reveal_strlit(" ");
            assert((" ")@ =~= seq![' ']);
            assert(out@ =~= old(out)@ + spaces(i as nat));
        }
    }
}

/// Tree walker that accumulates the indented rendering of what it visits.
pub struct ASTVisualizer {
    pub indent: usize,
    pub out: String,
}

impl ASTVisualizer {
    pub fn new() -> (r: Self)
        ensures
            r.indent == 0,
            r.out@ == Seq::<char>::empty(),
    {
        Self { indent: 0, out: String::new() }
    }

    /// Append the rendering of one node at the current indentation.
    pub fn visit_node(&mut self, node: &ASTNode)
        requires
            old(self).indent + 8 * node_depth(*node) <= usize::MAX,
        ensures
            final(self).indent == old(self).indent,
            final(self).out@ == old(self).out@ + render_node(*node, old(self).indent as nat),
    {
        match &node.kind {
            ASTNodeKind::Expression(e) => self.visit_expression(e),
        }
    }

    /// Append the rendering of one expression at the current indentation.
    pub fn visit_expression(&mut self, exp: &ASTExpression)
        requires
            old(self).indent + 8 * expr_depth(*exp) <= usize::MAX,
        ensures
            final(self).indent == old(self).indent,
            final(self).out@ == old(self).out@ + render_expr(*exp, old(self).indent as nat),
        decreases *exp,
    {
        match &exp.kind {
            ASTExpressionKind::IntegerLiteral(i) => {
                let indent: usize = self.indent;
                append_spaces(&mut self.out, indent);
                self.out.append("[Integer Literal]: ");
                append_i64(&mut self.out, *i);
                self.out.append("\n");
                proof {
                    assert(self.out@ =~= old(self).out@ + render_expr(
                        *exp,
                        old(self).indent as nat,
                    ));
                }
            },
            ASTExpressionKind::Binary(b) => {
                let indent: usize = self.indent;
                append_spaces(&mut self.out, indent);
                self.out.append("Binary Operator: ");
                self.out.append(b.operator.symbol());
                self.out.append("\n");
                self.indent = self.indent + 4;
                let indent4: usize = self.indent;
                append_spaces(&mut self.out, indent4);
                self.out.append("Left operand: \n");
                self.indent = self.indent + 4;
                self.visit_expression(&b.left);
                append_spaces(&mut self.out, self.indent - 4);
                self.out.append("Right operand: \n");
                self.visit_expression(&b.right);
                self.indent = self.indent - 8;
                proof {
                    assert(self.out@ =~= old(self).out@ + render_expr(
                        *exp,
                        old(self).indent as nat,
                    ));
                }
            },
        }
    }
}

impl AST {
    /// The indented human-readable rendering of the whole tree, node by
    /// node in source order.
    pub fn visualize(&self) -> (r: String)
        requires
            forall|k: int|
                0 <= k < self@.len() ==> 8 * node_depth(#[trigger] self@[k]) <= usize::MAX,
        ensures
            r@ == render_ast(self@),
    {
        let mut visualizer = ASTVisualizer::new();
        let mut i: usize = 0;
        let n: usize = self.nodes.len();
        while i < n
            invariant
                i <= n,
                n == self@.len(),
                forall|k: int|
                    0 <= k < self@.len() ==> 8 * node_depth(#[trigger] self@[k]) <= usize::MAX,
                visualizer.indent == 0,
                visualizer.out@ == render_ast(self@.subrange(0, i as int)),
            decreases n - i,
        {
            visualizer.visit_node(&self.nodes[i]);
            i = i + 1;
            proof {
                assert(self@.subrange(0, i as int).drop_last() =~= self@.subrange(
                    0,
                    i as int - 1,
                ));
                assert(self@.subrange(0, i as int).last() == self@[i as int - 1]);
            }
        }
        proof {
            assert(self@.subrange(0, n as int) =~= self@);
        }
        visualizer.out
    }
}

} // verus!
