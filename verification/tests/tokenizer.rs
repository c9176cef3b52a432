use icc::tokenizer::{tokenize, tokenize_single_integer, LexError, TokenKind, Tokenizer, VarType};

#[test]
fn parse_symbols_test() {
    let mut tokenizer = Tokenizer::new(";(){}1234");
    assert_eq!(Some(TokenKind::SemiColon), tokenizer.next_token().unwrap());
    assert_eq!(
        Some(TokenKind::LParenthesis),
        tokenizer.next_token().unwrap()
    );
    assert_eq!(
        Some(TokenKind::RParenthesis),
        tokenizer.next_token().unwrap()
    );
    assert_eq!(Some(TokenKind::LCurly), tokenizer.next_token().unwrap());
    assert_eq!(Some(TokenKind::RCurly), tokenizer.next_token().unwrap());
    assert_eq!(
        Some(TokenKind::Integer(1234)),
        tokenizer.next_token().unwrap()
    );
    assert_eq!(None, tokenizer.next_token().unwrap());
}

#[test]
fn legacy_tokenizes_a_function_header() {
    let received = tokenize("int main() {\n    return 2;\n}").unwrap();
    let intended = vec![
        TokenKind::Type(VarType::Int),
        TokenKind::Identifier("main".into()),
        TokenKind::LParenthesis,
        TokenKind::RParenthesis,
        TokenKind::LCurly,
        TokenKind::Return,
        TokenKind::Integer(2),
        TokenKind::SemiColon,
        TokenKind::RCurly,
    ];
    assert_eq!(intended, received);
}

#[test]
fn legacy_has_no_operator_tokens() {
    assert_eq!(
        tokenize("1 + 2").unwrap_err(),
        LexError::UnsupportedCharacter(2)
    );
}

#[test]
fn legacy_literal_overflow_is_not_an_integer() {
    assert_eq!(
        tokenize("99999999999999999999").unwrap_err(),
        LexError::NotAnInteger
    );
}

#[test]
fn legacy_literals_keep_the_signed_range() {
    assert_eq!(
        tokenize("9223372036854775807").unwrap(),
        vec![TokenKind::Integer(9223372036854775807)]
    );
    assert_eq!(
        tokenize("9223372036854775808").unwrap_err(),
        LexError::NotAnInteger
    );
}

#[test]
fn legacy_single_integer_scan() {
    assert_eq!(
        tokenize_single_integer("1234", 0).unwrap(),
        (TokenKind::Integer(1234), 4)
    );
    assert_eq!(
        tokenize_single_integer("x", 0).unwrap_err(),
        LexError::NotAnInteger
    );
}
