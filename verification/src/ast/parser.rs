//! Parser: folds the token stream into the abstract syntax tree.
//!
//! The grammar is stated once, as the spec function `spec_parse`: a cursor
//! walks the tokens left to right, a single-slot pending register holds the
//! one expression not yet terminated, and every binary operator folds the
//! pending expression with the literal that follows it, strictly left to
//! right at uniform precedence. `parse` is proved to return exactly the tree
//! `spec_parse` assigns to its tokens, or exactly the error it assigns.

use vstd::prelude::*;

use super::tokenizer::{tokenize, toks_of, LexError, Tok, TokenKind};
use super::{bin_expr, expr_of_node, lit_expr, node_of, ASTBinaryExpression, ASTExpression,
    ASTExpressionKind, ASTNode, ASTNodeKind, BinaryOperatorKind, AST};

verus! {

/// A grammatical failure; parsing aborts at the first one.
#[derive(Debug, PartialEq, Eq, Structural, Clone, Copy)]
pub enum ParseError {
    /// An expression not terminated by a statement separator.
    UnterminatedExpression,
    /// A binary operator with no expression to its left.
    MissingLeftOperand,
    /// A binary operator with no valid operand to its right.
    MissingRightOperand,
    /// A token the grammar has no rule for.
    UnsupportedToken,
}

/// A failure of the whole pipeline: lexical or grammatical.
#[derive(Debug, PartialEq, Eq, Structural, Clone, Copy)]
pub enum CompileError {
    Lex(LexError),
    Parse(ParseError),
}

/// The token is one of the four binary operators.
pub open spec fn is_op_tok(t: Tok) -> bool {
    t is Plus || t is Hyphen || t is Asterisk || t is Slash
}

/// The operator a token denotes.
pub open spec fn op_of_tok(t: Tok) -> BinaryOperatorKind {
    match t {
        Tok::Plus => BinaryOperatorKind::Plus,
        Tok::Hyphen => BinaryOperatorKind::Minus,
        Tok::Asterisk => BinaryOperatorKind::Mult,
        _ => BinaryOperatorKind::Div,
    }
}

/// The grammar, from position `i` with pending register `pending` and the
/// statements finished so far `acc`: a literal fills the empty register, an
/// operator folds the register with the literal after it, a separator moves
/// the register's expression to the finished statements, input exhausted
/// with an occupied register is unterminated, and any other token is
/// unsupported.
pub open spec fn spec_parse_from(
    ts: Seq<Tok>,
    i: int,
    pending: Option<ASTNode>,
    acc: Seq<ASTNode>,
) -> Result<Seq<ASTNode>, ParseError>
    decreases ts.len() - i,
{
    if i < 0 {
        arbitrary()
    } else if i >= ts.len() {
        if pending is Some {
            Err(ParseError::UnterminatedExpression)
        } else {
            Ok(acc)
        }
    } else {
        match ts[i] {
            Tok::Integer(v) => if pending is Some {
                Err(ParseError::UnterminatedExpression)
            } else {
                spec_parse_from(ts, i + 1, Some(node_of(lit_expr(v))), acc)
            },
            Tok::Plus | Tok::Hyphen | Tok::Asterisk | Tok::Slash => match pending {
                None => Err(ParseError::MissingLeftOperand),
                Some(n) => if i + 1 < ts.len() && ts[i + 1] is Integer {
                    spec_parse_from(
                        ts,
                        i + 2,
                        Some(
                            node_of(
                                bin_expr(
                                    op_of_tok(ts[i]),
                                    expr_of_node(n),
                                    lit_expr(ts[i + 1]->Integer_0),
                                ),
                            ),
                        ),
                        acc,
                    )
                } else {
                    Err(ParseError::MissingRightOperand)
                },
            },
            Tok::SemiColon => match pending {
                Some(n) => spec_parse_from(ts, i + 1, None, acc.push(n)),
                None => spec_parse_from(ts, i + 1, None, acc),
            },
            _ => Err(ParseError::UnsupportedToken),
        }
    }
}

/// The tree a whole token sequence parses to, or its first grammatical
/// error.
pub open spec fn spec_parse(ts: Seq<Tok>) -> Result<Seq<ASTNode>, ParseError> {
    spec_parse_from(ts, 0, None, Seq::empty())
}

/// Parser state: the tokens, a cursor into them, the single-slot pending
/// register, and the tree built so far.
pub struct Parser {
    pub node_buffer: Option<ASTNode>,
    pub tokens: Vec<TokenKind>,
    pub counter: usize,
    pub ast: AST,
}

impl Parser {
    /// The cursor stays within one step of the tokens.
    pub open spec fn wf(&self) -> bool {
        self.counter <= self.tokens@.len()
    }

    pub fn from_tokens(tokens: Vec<TokenKind>) -> (r: Parser)
        ensures
            r.tokens == tokens,
            r.counter == 0,
            r.node_buffer is None,
            r.ast@ == Seq::<ASTNode>::empty(),
    {
        Parser { tokens, counter: 0, ast: AST::new(), node_buffer: None }
    }

    /// The token `offset` places from the cursor, if it is in range.
    pub fn peek(&self, offset: isize) -> (r: Option<&TokenKind>)
        ensures
            match r {
                Some(t) => 0 <= self.counter + offset < self.tokens@.len() && *t == self.tokens@[
                    self.counter + offset
                ],
                None => !(0 <= self.counter + offset < self.tokens@.len()),
            },
    {
        let n: usize = self.tokens.len();
        if offset >= 0 {
            proof {
                assert((offset as usize) as int == offset as int);
            }
            match self.counter.checked_add(offset as usize) {
                Some(idx) => {
                    proof {
                        assert(idx == self.counter + offset);
                    }
                    if idx < n {
                        Some(&self.tokens[idx])
                    } else {
                        None
                    }
                },
                None => None,
            }
        } else {
            let back: usize = (-(offset + 1)) as usize + 1;
            proof {
                assert(0 <= -(offset + 1) <= isize::MAX);
                assert(back == -(offset as int));
            }
            if back <= self.counter {
                let idx: usize = self.counter - back;
                if idx < n {
                    Some(&self.tokens[idx])
                } else {
                    None
                }
            } else {
                None
            }
        }
    }

    /// The token under the cursor, if any.
    pub fn current(&self) -> (r: Option<&TokenKind>)
        ensures
            match r {
                Some(t) => self.counter < self.tokens@.len() && *t == self.tokens@[
                    self.counter as int
                ],
                None => self.counter >= self.tokens@.len(),
            },
    {
        self.peek(0)
    }

    /// Take the operands of the binary operator under the cursor: the
    /// pending expression to its left, the literal after it to its right.
    /// The cursor ends on the right operand; the register is left empty.
    pub fn extract_args_binary(&mut self) -> (r: Result<
        (ASTExpression, ASTExpression),
        ParseError,
    >)
        requires
            old(self).counter < old(self).tokens@.len(),
        ensures
            final(self).tokens == old(self).tokens,
            final(self).ast == old(self).ast,
            final(self).node_buffer is None,
            match r {
                Ok(ops) => {
                    &&& old(self).node_buffer matches Some(n) && ops.0 == expr_of_node(n)
                    &&& final(self).counter == old(self).counter + 1
                    &&& old(self).counter + 1 < old(self).tokens@.len()
                    &&& old(self).tokens@[old(self).counter + 1]@ matches Tok::Integer(v)
                        && ops.1 == lit_expr(v)
                },
                Err(ParseError::MissingLeftOperand) => {
                    &&& old(self).node_buffer is None
                    &&& final(self).counter == old(self).counter
                },
                Err(ParseError::MissingRightOperand) => {
                    &&& old(self).node_buffer is Some
                    &&& final(self).counter == old(self).counter + 1
                    &&& (old(self).counter + 1 >= old(self).tokens@.len() || !(old(
                        self,
                    ).tokens@[old(self).counter + 1]@ is Integer))
                },
                Err(_) => false,
            },
    {
        let left_node: ASTNode = match self.node_buffer.take() {
            Some(node) => node,
            None => {
                return Err(ParseError::MissingLeftOperand);
            },
        };
        let left: ASTExpression = match left_node.kind {
            ASTNodeKind::Expression(exp) => exp,
        };

        let token_count: usize = self.tokens.len();
        proof {
            assert(self.counter < token_count);
        }
        self.counter = self.counter + 1;

        let right = match self.current() {
            Some(token) => token,
            None => {
                return Err(ParseError::MissingRightOperand);
            },
        };

        let right: ASTExpression = match right {
            TokenKind::Integer(i) => ASTExpression {
                kind: ASTExpressionKind::IntegerLiteral(*i),
            },
            _ => {
                return Err(ParseError::MissingRightOperand);
            },
        };

        Ok((left, right))
    }

    /// Fold the binary operator under the cursor: its operands become one
    /// binary expression, placed back into the pending register. The cursor
    /// ends on the right operand.
    pub fn parse_binary(&mut self) -> (r: Result<(), ParseError>)
        requires
            old(self).counter < old(self).tokens@.len(),
            is_op_tok(old(self).tokens@[old(self).counter as int]@),
        ensures
            final(self).tokens == old(self).tokens,
            final(self).ast == old(self).ast,
            match r {
                Ok(u) => {
                    &&& old(self).node_buffer matches Some(n)
                    &&& final(self).counter == old(self).counter + 1
                    &&& old(self).counter + 1 < old(self).tokens@.len()
                    &&& old(self).tokens@[old(self).counter + 1]@ matches Tok::Integer(v)
                        && final(self).node_buffer == Some(
                        node_of(
                            bin_expr(
                                op_of_tok(old(self).tokens@[old(self).counter as int]@),
                                expr_of_node(n),
                                lit_expr(v),
                            ),
                        ),
                    )
                },
                Err(ParseError::MissingLeftOperand) => {
                    &&& old(self).node_buffer is None
                    &&& final(self).node_buffer is None
                    &&& final(self).counter == old(self).counter
                },
                Err(ParseError::MissingRightOperand) => {
                    &&& old(self).node_buffer is Some
                    &&& final(self).node_buffer is None
                    &&& final(self).counter == old(self).counter + 1
                    &&& (old(self).counter + 1 >= old(self).tokens@.len() || !(old(
                        self,
                    ).tokens@[old(self).counter + 1]@ is Integer))
                },
                Err(_) => false,
            },
    {
        let (left, right) = match self.extract_args_binary() {
            Ok(ops) => ops,
            Err(e) => {
                return Err(e);
            },
        };

        let op: BinaryOperatorKind = match self.peek(-1) {
            Some(TokenKind::Plus) => BinaryOperatorKind::Plus,
            Some(TokenKind::Hyphen) => BinaryOperatorKind::Minus,
            Some(TokenKind::Asterisk) => BinaryOperatorKind::Mult,
            Some(TokenKind::Slash) => BinaryOperatorKind::Div,
            _ => {
                proof {
                    assert(false);
                }
                return Err(ParseError::UnsupportedToken);
            },
        };

        self.node_buffer = Some(
            ASTNode::from_expression(
                ASTExpression {
                    kind: ASTExpressionKind::Binary(ASTBinaryExpression::new(op, left, right)),
                },
            ),
        );

        Ok(())
    }

    /// Run the grammar over the remaining tokens: exactly the statements
    /// `spec_parse_from` assigns to this state, or exactly its error.
    #[verifier::loop_isolation(false)]
    pub fn parse(self) -> (r: Result<AST, ParseError>)
        requires
            self.wf(),
        ensures
            ({
                let from = spec_parse_from(
                    toks_of(self.tokens@),
                    self.counter as int,
                    self.node_buffer,
                    self.ast@,
                );
                match r {
                    Ok(ast) => from == Ok::<Seq<ASTNode>, ParseError>(ast@),
                    Err(e) => from == Err::<Seq<ASTNode>, ParseError>(e),
                }
            }),
    {
        let mut this = self;
        let ghost ts: Seq<Tok> = toks_of(this.tokens@);
        let ghost from0: Result<Seq<ASTNode>, ParseError> = spec_parse_from(
            ts,
            this.counter as int,
            this.node_buffer,
            this.ast@,
        );
        while this.counter < this.tokens.len()
            invariant
                this.wf(),
                ts == toks_of(this.tokens@),
                from0 == spec_parse_from(ts, this.counter as int, this.node_buffer, this.ast@),
            decreases this.tokens@.len() - this.counter,
        {
            let ghost i: int = this.counter as int;
            proof {
                assert(ts[i] == this.tokens@[i]@);
            }
            let token = match this.current() {
                Some(t) => t,
                None => {
                    proof {
                        assert(false);
                    }
                    return Err(ParseError::UnsupportedToken);
                },
            };
            match token {
                TokenKind::Integer(i_val) => {
                    if this.node_buffer.is_some() {
                        return Err(ParseError::UnterminatedExpression);
                    }
                    this.node_buffer = Some(
                        ASTNode::from_expression(ASTExpression::from_integer(*i_val)),
                    );
                },
                TokenKind::Plus | TokenKind::Hyphen | TokenKind::Asterisk | TokenKind::Slash => {
                    match this.parse_binary() {
                        Ok(_) => {},
                        Err(e) => {
                            return Err(e);
                        },
                    }
                },
                TokenKind::SemiColon => {
                    let taken = this.node_buffer.take();
                    match taken {
                        Some(node) => {
                            this.ast.push(node);
                        },
                        None => {},
                    }
                },
                _ => {
                    return Err(ParseError::UnsupportedToken);
                },
            }

            this.counter = this.counter + 1;
        }

        if this.node_buffer.is_none() {
            Ok(this.ast)
        } else {
            Err(ParseError::UnterminatedExpression)
        }
    }
}

/// Tokenize and parse a whole source text: exactly the tree the lexical and
/// grammatical rules assign to it, or exactly the first error they assign.
pub fn parse(text: String) -> (r: Result<AST, CompileError>)
    ensures
        match r {
            Ok(ast) => super::tokenizer::spec_tokenize(text@) matches Ok(toks) && spec_parse(toks)
                == Ok::<Seq<ASTNode>, ParseError>(ast@),
            Err(CompileError::Lex(e)) => super::tokenizer::spec_tokenize(text@) == Err::<
                Seq<Tok>,
                LexError,
            >(e),
            Err(CompileError::Parse(e)) => super::tokenizer::spec_tokenize(text@) matches Ok(toks)
                && spec_parse(toks) == Err::<Seq<ASTNode>, ParseError>(e),
        },
{
    let tokens = match tokenize(text) {
        Ok(ts) => ts,
        Err(e) => {
            return Err(CompileError::Lex(e));
        },
    };
    let parser = Parser::from_tokens(tokens);
    match parser.parse() {
        Ok(ast) => Ok(ast),
        Err(e) => Err(CompileError::Parse(e)),
    }
}

} // verus!
