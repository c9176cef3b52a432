//! Tokenizer: turns source text into the token stream of the language.
//!
//! The lexical rules are stated once, as the spec functions `lex_step` and
//! `spec_tokenize`, and every executable function here is proved against
//! them: `tokenize` returns exactly the token sequence that `spec_tokenize`
//! assigns to its input, or exactly the lexical error it assigns.

use vstd::prelude::*;

use crate::{
    dec_digits, digit_char, digits_end, digits_val, ident_char, ident_end, ident_start_char,
    is_digit_char, is_ident_start_char, kw_int, kw_return, lemma_dec_digits_props,
    lemma_digits_end, lemma_digits_end_all, lemma_digits_val_monotone, lemma_digits_val_snoc,
    lemma_ident_end, lemma_ws_end, whitespace_char, ws_end,
};
pub use crate::LexError;
use vstd::string::{StrSliceExecFns, StringExecFns};

verus! {

/// Types the language can name.
#[derive(Debug, PartialEq, Eq, Structural, Clone, Copy)]
pub enum VarType {
    Int,
}

/// Kinds of tokens of the language.
#[derive(Debug, PartialEq, Clone)]
pub enum TokenKind {
    SemiColon,
    LParenthesis,
    RParenthesis,
    LCurly,
    RCurly,
    Identifier(String),
    Integer(i64),
    Type(VarType),
    Return,
    Plus,
    Hyphen,
    Asterisk,
    Slash,
}

/// The mathematical image of a token: identifier text as a sequence of
/// characters, the literal as an unbounded integer.
pub enum Tok {
    SemiColon,
    LParenthesis,
    RParenthesis,
    LCurly,
    RCurly,
    Identifier(Seq<char>),
    Integer(int),
    Type(VarType),
    Return,
    Plus,
    Hyphen,
    Asterisk,
    Slash,
}

impl View for TokenKind {
    type V = Tok;

    open spec fn view(&self) -> Tok {
        match self {
            TokenKind::SemiColon => Tok::SemiColon,
            TokenKind::LParenthesis => Tok::LParenthesis,
            TokenKind::RParenthesis => Tok::RParenthesis,
            TokenKind::LCurly => Tok::LCurly,
            TokenKind::RCurly => Tok::RCurly,
            TokenKind::Identifier(s) => Tok::Identifier(s@),
            TokenKind::Integer(i) => Tok::Integer(*i as int),
            TokenKind::Type(t) => Tok::Type(*t),
            TokenKind::Return => Tok::Return,
            TokenKind::Plus => Tok::Plus,
            TokenKind::Hyphen => Tok::Hyphen,
            TokenKind::Asterisk => Tok::Asterisk,
            TokenKind::Slash => Tok::Slash,
        }
    }
}

/// The views of a sequence of tokens.
pub open spec fn toks_of(ts: Seq<TokenKind>) -> Seq<Tok> {
    ts.map_values(|t: TokenKind| t@)
}

/// What the tokenizer does at one position: reach the end of the input, emit
/// one token and move to the given position, or fail.
pub enum LexStep {
    End,
    Token(Tok, int),
    Fail(LexError),
}

/// One step of the lexical rules at position `i` of `s`: skip whitespace,
/// then classify the next character, scanning digit and identifier runs by
/// maximal munch and matching keywords against the whole scanned span.
pub open spec fn lex_step(s: Seq<char>, i: int) -> LexStep {
    let j = ws_end(s, i);
    if j >= s.len() {
        LexStep::End
    } else {
        let c = s[j];
        if c == ';' {
            LexStep::Token(Tok::SemiColon, j + 1)
        } else if c == '(' {
            LexStep::Token(Tok::LParenthesis, j + 1)
        } else if c == ')' {
            LexStep::Token(Tok::RParenthesis, j + 1)
        } else if c == '{' {
            LexStep::Token(Tok::LCurly, j + 1)
        } else if c == '}' {
            LexStep::Token(Tok::RCurly, j + 1)
        } else if c == '+' {
            LexStep::Token(Tok::Plus, j + 1)
        } else if c == '-' {
            LexStep::Token(Tok::Hyphen, j + 1)
        } else if c == '*' {
            LexStep::Token(Tok::Asterisk, j + 1)
        } else if c == '/' {
            LexStep::Token(Tok::Slash, j + 1)
        } else if is_digit_char(c) {
            let k = digits_end(s, j);
            let v = digits_val(s.subrange(j, k));
            if v <= i64::MAX {
                LexStep::Token(Tok::Integer(v), k)
            } else {
                LexStep::Fail(LexError::NotAnInteger)
            }
        } else if is_ident_start_char(c) {
            let k = ident_end(s, j);
            let w = s.subrange(j, k);
            if w == kw_int() {
                LexStep::Token(Tok::Type(VarType::Int), k)
            } else if w == kw_return() {
                LexStep::Token(Tok::Return, k)
            } else {
                LexStep::Token(Tok::Identifier(w), k)
            }
        } else {
            LexStep::Fail(LexError::UnsupportedCharacter(j as usize))
        }
    }
}

/// Whenever `lex_step` emits a token, it moves strictly forward and stays
/// within the input.
pub proof fn lemma_lex_step(s: Seq<char>, i: int)
    requires
        0 <= i <= s.len(),
    ensures
        lex_step(s, i) matches LexStep::Token(t, n) ==> i < n <= s.len(),
{
    lemma_ws_end(s, i);
    let j = ws_end(s, i);
    if j < s.len() {
        let c = s[j];
        if is_digit_char(c) {
            lemma_digits_end(s, j);
            assert(digits_end(s, j) == digits_end(s, j + 1));
        } else if is_ident_start_char(c) {
            lemma_ident_end(s, j);
            assert(ident_end(s, j) == ident_end(s, j + 1));
        }
    }
}

/// The token sequence of `s` from position `i` on, or the first lexical
/// error: whitespace is skipped before each token, the end of the input is
/// the success terminal state, and any failure aborts the whole run.
pub open spec fn spec_tokenize_from(s: Seq<char>, i: int) -> Result<Seq<Tok>, LexError>
    decreases s.len() - i,
    when 0 <= i <= s.len()
    via spec_tokenize_from_decreases
{
    match lex_step(s, i) {
        LexStep::End => Ok(Seq::empty()),
        LexStep::Fail(e) => Err(e),
        LexStep::Token(t, n) => match spec_tokenize_from(s, n) {
            Ok(ts) => Ok(seq![t] + ts),
            Err(e) => Err(e),
        },
    }
}

#[via_fn]
proof fn spec_tokenize_from_decreases(s: Seq<char>, i: int) {
    lemma_lex_step(s, i);
}

/// The token sequence of a whole source text, or its first lexical error.
pub open spec fn spec_tokenize(s: Seq<char>) -> Result<Seq<Tok>, LexError> {
    spec_tokenize_from(s, 0)
}

/// Round trip for literals: tokenizing the decimal text of any integer the
/// literal type can represent yields exactly one integer token holding that
/// value. (A negative integer spells with a sign, which is a token of its
/// own, so this holds of the non-negative ones.)
pub proof fn lemma_tokenize_decimal_literal(n: int)
    requires
        0 <= n <= i64::MAX,
    ensures
        spec_tokenize(dec_digits(n)) == Ok::<Seq<Tok>, LexError>(seq![Tok::Integer(n)]),
{
    let d = dec_digits(n);
    lemma_dec_digits_props(n);
    assert(ws_end(d, 0) == 0);
    lemma_digits_end_all(d, 0);
    assert(d.subrange(0, d.len() as int) =~= d);
    assert(lex_step(d, 0) == LexStep::Token(Tok::Integer(n), d.len() as int));
    assert(ws_end(d, d.len() as int) == d.len() as int);
    assert(spec_tokenize_from(d, d.len() as int) == Ok::<Seq<Tok>, LexError>(Seq::empty()));
    assert(seq![Tok::Integer(n)] + Seq::<Tok>::empty() =~= seq![Tok::Integer(n)]);
}

/// Cursor over the source text: the characters before `pos` are consumed.
pub struct Tokenizer<'a> {
    /// The whole source text being tokenized.
    pub content: &'a str,
    /// The number of characters of `content`.
    pub len: usize,
    /// The index of the first character not yet consumed.
    pub pos: usize,
}

impl<'a> Tokenizer<'a> {
    /// The cursor stays within the input.
    pub open spec fn wf(&self) -> bool {
        &&& self.len == self.content@.len()
        &&& self.pos <= self.len
    }

    pub fn new(remaining_content: &'a str) -> (r: Tokenizer<'a>)
        ensures
            r.wf(),
            r.content@ == remaining_content@,
            r.pos == 0,
    {
        let len: usize = remaining_content.unicode_len();
        Tokenizer { content: remaining_content, len, pos: 0 }
    }

    /// Advance the cursor past the run of whitespace it stands on.
    pub fn _skip_whitespaces(&mut self)
        requires
            old(self).wf(),
        ensures
            final(self).wf(),
            final(self).content == old(self).content,
            final(self).len == old(self).len,
            final(self).pos == ws_end(old(self).content@, old(self).pos as int),
    {
        let ghost s: Seq<char> = self.content@;
        let ghost start: int = self.pos as int;
        while self.pos < self.len && whitespace_char(self.content.get_char(self.pos))
            invariant
                self.wf(),
                s == self.content@,
                self.len == old(self).len,
                self.content == old(self).content,
                start <= self.pos as int,
                ws_end(s, start) == ws_end(s, self.pos as int),
            decreases self.len - self.pos,
        {
            proof {
                assert(ws_end(s, self.pos as int) == ws_end(s, self.pos + 1));
            }
            self.pos = self.pos + 1;
        }
    }
}

/// Scan the maximal run of digits at `start` and parse it as an `i64`;
/// overflow is surfaced as `NotAnInteger`, never silently truncated.
pub fn tokenize_integer(slice: &str, start: usize) -> (r: Result<(TokenKind, usize), LexError>)
    requires
        start <= slice@.len(),
    ensures
        ({
            let s = slice@;
            let k = digits_end(s, start as int);
            let v = digits_val(s.subrange(start as int, k));
            match r {
                Ok((t, end)) => k > start && v <= i64::MAX && end == k && t@ == Tok::Integer(v),
                Err(LexError::NotAnInteger) => k == start || v > i64::MAX,
                Err(_) => false,
            }
        }),
{
    let ghost s: Seq<char> = slice@;
    let len: usize = slice.unicode_len();
    let mut k: usize = start;
    while k < len && digit_char(slice.get_char(k))
        invariant
            start <= k <= len,
            len == s.len(),
            s == slice@,
            digits_end(s, start as int) == digits_end(s, k as int),
            forall|t: int| start <= t < k ==> is_digit_char(#[trigger] s[t]),
        decreases len - k,
    {
        proof {
            assert(digits_end(s, k as int) == digits_end(s, k + 1));
        }
        k = k + 1;
    }
    proof {
        assert(digits_end(s, k as int) == k);
    }
    if k == start {
        return Err(LexError::NotAnInteger);
    }
    let mut val: i64 = 0;
    let mut p: usize = start;
    while p < k
        invariant
            start <= p <= k <= len,
            len == s.len(),
            s == slice@,
            k == digits_end(s, start as int),
            forall|t: int| start <= t < k ==> is_digit_char(#[trigger] s[t]),
            0 <= val,
            val == digits_val(s.subrange(start as int, p as int)),
        decreases k - p,
    {
        let c = slice.get_char(p);
        let d: i64 = (c as u32 - '0' as u32) as i64;
        proof {
            lemma_digits_val_snoc(s, start as int, p as int);
        }
        let next = match val.checked_mul(10) {
            Some(m) => m.checked_add(d),
            None => None,
        };
        match next {
            Some(v2) => {
                val = v2;
            },
            None => {
                proof {
                    assert(digits_val(s.subrange(start as int, p + 1)) > i64::MAX);
                    lemma_digits_val_monotone(s, start as int, p + 1, k as int);
                }
                return Err(LexError::NotAnInteger);
            },
        }
        p = p + 1;
    }
    proof {
        assert(s.subrange(start as int, k as int) == s.subrange(start as int, p as int));
    }
    Ok((TokenKind::Integer(val), k))
}

/// Scan the maximal run of identifier characters at `start` and look the
/// span up against the keyword set; a scan of zero characters, or one that
/// would begin with a digit, is refused.
pub fn tokenize_string(slice: &str, start: usize) -> (r: Result<(TokenKind, usize), LexError>)
    requires
        start <= slice@.len(),
    ensures
        ({
            let s = slice@;
            let k = ident_end(s, start as int);
            let w = s.subrange(start as int, k);
            let first_digit = start < s.len() && is_digit_char(s[start as int]);
            match r {
                Ok((t, end)) => !first_digit && k > start && end == k && t@ == (if w
                    == kw_int() {
                    Tok::Type(VarType::Int)
                } else if w == kw_return() {
                    Tok::Return
                } else {
                    Tok::Identifier(w)
                }),
                Err(LexError::NotAnIdentifier) => first_digit || k == start,
                Err(_) => false,
            }
        }),
{
    let ghost s: Seq<char> = slice@;
    let len: usize = slice.unicode_len();
    if start < len && digit_char(slice.get_char(start)) {
        return Err(LexError::NotAnIdentifier);
    }
    let mut k: usize = start;
    while k < len && ident_char(slice.get_char(k))
        invariant
            start <= k <= len,
            len == s.len(),
            s == slice@,
            ident_end(s, start as int) == ident_end(s, k as int),
        decreases len - k,
    {
        proof {
            assert(ident_end(s, k as int) == ident_end(s, k + 1));
        }
        k = k + 1;
    }
    proof {
        assert(ident_end(s, k as int) == k);
    }
    if k == start {
        return Err(LexError::NotAnIdentifier);
    }
    let buffer: String = slice.substring_char(start, k).to_owned();
    proof {
        reveal_strlit("int");
        reveal_strlit("return");
        assert(("int")@ =~= kw_int());
        assert(("return")@ =~= kw_return());
    }
    if buffer == String::from_str("int") {
        Ok((TokenKind::Type(VarType::Int), k))
    } else if buffer == String::from_str("return") {
        Ok((TokenKind::Return, k))
    } else {
        Ok((TokenKind::Identifier(buffer), k))
    }
}

impl<'a> Tokenizer<'a> {
    /// Produce the next token, `Ok(None)` at the end of the input, or the
    /// lexical error the rules assign to the cursor's position.
    pub fn next_token(&mut self) -> (r: Result<Option<TokenKind>, LexError>)
        requires
            old(self).wf(),
        ensures
            final(self).wf(),
            final(self).content == old(self).content,
            final(self).len == old(self).len,
            ({
                let s = old(self).content@;
                let i = old(self).pos as int;
                match r {
                    Ok(Some(t)) => lex_step(s, i) == LexStep::Token(t@, final(self).pos as int)
                        && old(self).pos < final(self).pos,
                    Ok(None) => lex_step(s, i) is End && final(self).pos == s.len(),
                    Err(e) => lex_step(s, i) == LexStep::Fail(e) && final(self).pos == ws_end(
                        s,
                        i,
                    ),
                }
            }),
    {
        let ghost s: Seq<char> = self.content@;
        let ghost i: int = self.pos as int;
        self._skip_whitespaces();
        let j: usize = self.pos;
        proof {
            lemma_ws_end(s, i);
        }
        if j >= self.len {
            return Ok(None);
        }
        let c = self.content.get_char(j);
        if c == ';' {
            self.pos = j + 1;
            Ok(Some(TokenKind::SemiColon))
        } else if c == '(' {
            self.pos = j + 1;
            Ok(Some(TokenKind::LParenthesis))
        } else if c == ')' {
            self.pos = j + 1;
            Ok(Some(TokenKind::RParenthesis))
        } else if c == '{' {
            self.pos = j + 1;
            Ok(Some(TokenKind::LCurly))
        } else if c == '}' {
            self.pos = j + 1;
            Ok(Some(TokenKind::RCurly))
        } else if c == '+' {
            self.pos = j + 1;
            Ok(Some(TokenKind::Plus))
        } else if c == '-' {
            self.pos = j + 1;
            Ok(Some(TokenKind::Hyphen))
        } else if c == '*' {
            self.pos = j + 1;
            Ok(Some(TokenKind::Asterisk))
        } else if c == '/' {
            self.pos = j + 1;
            Ok(Some(TokenKind::Slash))
        } else if digit_char(c) {
            proof {
                lemma_digits_end(s, j as int);
                assert(digits_end(s, j as int) == digits_end(s, j + 1));
            }
            match tokenize_integer(self.content, j) {
                Ok((t, end)) => {
                    self.pos = end;
                    Ok(Some(t))
                },
                Err(e) => Err(e),
            }
        } else if ident_start_char(c) {
            proof {
                lemma_ident_end(s, j as int);
                assert(ident_end(s, j as int) == ident_end(s, j + 1));
            }
            match tokenize_string(self.content, j) {
                Ok((t, end)) => {
                    self.pos = end;
                    Ok(Some(t))
                },
                Err(_) => {
                    proof {
                        assert(false);
                    }
                    Err(LexError::NotAnIdentifier)
                },
            }
        } else {
            Err(LexError::UnsupportedCharacter(j))
        }
    }
}

/// Tokenize a whole source text: exactly the token sequence of the lexical
/// rules, or exactly their first error, with no partial output.
pub fn tokenize(content: String) -> (r: Result<Vec<TokenKind>, LexError>)
    ensures
        match r {
            Ok(ts) => spec_tokenize(content@) == Ok::<Seq<Tok>, LexError>(toks_of(ts@)),
            Err(e) => spec_tokenize(content@) == Err::<Seq<Tok>, LexError>(e),
        },
{
    let ghost s: Seq<char> = content@;
    let mut tokenizer = Tokenizer::new(content.as_str());
    let mut tokens: Vec<TokenKind> = Vec::new();
    proof {
        assert(toks_of(tokens@) =~= Seq::<Tok>::empty());
        if let Ok(rest) = spec_tokenize_from(s, 0) {
            assert(toks_of(tokens@) + rest =~= rest);
        }
    }
    loop
        invariant
            s == content@,
            tokenizer.wf(),
            tokenizer.content@ == s,
            spec_tokenize(s) == (match spec_tokenize_from(s, tokenizer.pos as int) {
                Ok(rest) => Ok::<Seq<Tok>, LexError>(toks_of(tokens@) + rest),
                Err(e) => Err::<Seq<Tok>, LexError>(e),
            }),
        decreases s.len() - tokenizer.pos,
    {
        let ghost i: int = tokenizer.pos as int;
        match tokenizer.next_token() {
            Ok(Some(t)) => {
                let ghost n: int = tokenizer.pos as int;
                let ghost prev: Seq<TokenKind> = tokens@;
                tokens.push(t);
                proof {
                    assert(toks_of(prev.push(t)) =~= toks_of(prev).push(t@));
                    if let Ok(rest) = spec_tokenize_from(s, n) {
                        assert(toks_of(prev).push(t@) + rest =~= toks_of(prev) + (seq![t@]
                            + rest));
                    }
                }
            },
            Ok(None) => {
                proof {
                    assert(spec_tokenize_from(s, i) == Ok::<Seq<Tok>, LexError>(
                        Seq::<Tok>::empty(),
                    ));
                    assert(toks_of(tokens@) + Seq::<Tok>::empty() =~= toks_of(tokens@));
                }
                return Ok(tokens);
            },
            Err(e) => {
                proof {
                    assert(spec_tokenize_from(s, i) == Err::<Seq<Tok>, LexError>(e));
                }
                return Err(e);
            },
        }
    }
}

} // verus!
