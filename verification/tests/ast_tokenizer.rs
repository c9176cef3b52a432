use icc::ast::tokenizer::{tokenize, tokenize_integer, tokenize_string, LexError, TokenKind, Tokenizer, VarType};

#[test]
fn tokenizer_test1() {
    let mut tokenizer = Tokenizer::new(";(){}1234");
    assert_eq!(Some(TokenKind::SemiColon), tokenizer.next_token().unwrap());
    assert_eq!(Some(TokenKind::LParenthesis), tokenizer.next_token().unwrap());
    assert_eq!(Some(TokenKind::RParenthesis), tokenizer.next_token().unwrap());
    assert_eq!(Some(TokenKind::LCurly), tokenizer.next_token().unwrap());
    assert_eq!(Some(TokenKind::RCurly), tokenizer.next_token().unwrap());
    assert_eq!(Some(TokenKind::Integer(1234)), tokenizer.next_token().unwrap());
    assert_eq!(None, tokenizer.next_token().unwrap());
}

#[test]
fn tokenizer_test2() {
    let input = r#"int main() {
    return 2;
}"#
    .into();

    let received = tokenize(input).unwrap();

    let intended = vec![
        TokenKind::Type(VarType::Int),
        TokenKind::Identifier("main".into()),
        TokenKind::LParenthesis,
        TokenKind::RParenthesis,
        TokenKind::LCurly,
        TokenKind::Return,
        TokenKind::Integer(2),
        TokenKind::SemiColon,
        TokenKind::RCurly,
    ];

    assert_eq!(intended, received);
}

#[test]
fn operators_tokenize() {
    let received = tokenize("1+2-3*4/5;".into()).unwrap();
    let intended = vec![
        TokenKind::Integer(1),
        TokenKind::Plus,
        TokenKind::Integer(2),
        TokenKind::Hyphen,
        TokenKind::Integer(3),
        TokenKind::Asterisk,
        TokenKind::Integer(4),
        TokenKind::Slash,
        TokenKind::Integer(5),
        TokenKind::SemiColon,
    ];
    assert_eq!(intended, received);
}

#[test]
fn round_trip_literal() {
    assert_eq!(
        tokenize("0".into()).unwrap(),
        vec![TokenKind::Integer(0)]
    );
    assert_eq!(
        tokenize("1234567890".into()).unwrap(),
        vec![TokenKind::Integer(1234567890)]
    );
    assert_eq!(
        tokenize("9223372036854775807".into()).unwrap(),
        vec![TokenKind::Integer(i64::MAX)]
    );
}

#[test]
fn literal_overflow_is_not_an_integer() {
    assert_eq!(
        tokenize("9223372036854775808".into()).unwrap_err(),
        LexError::NotAnInteger
    );
    assert_eq!(
        tokenize("1; 99999999999999999999;".into()).unwrap_err(),
        LexError::NotAnInteger
    );
}

#[test]
fn leading_zeros_parse() {
    assert_eq!(
        tokenize("007".into()).unwrap(),
        vec![TokenKind::Integer(7)]
    );
}

#[test]
fn unknown_character_is_fatal() {
    assert_eq!(
        tokenize("1 $ 2;".into()).unwrap_err(),
        LexError::UnsupportedCharacter(2)
    );
    assert_eq!(
        tokenize("#".into()).unwrap_err(),
        LexError::UnsupportedCharacter(0)
    );
}

#[test]
fn whitespace_is_insignificant() {
    assert_eq!(
        tokenize("1;".into()).unwrap(),
        tokenize(" 1 ; ".into()).unwrap()
    );
    assert_eq!(
        tokenize("int main".into()).unwrap(),
        tokenize("\n\tint\u{a0}  main\r\n".into()).unwrap()
    );
}

#[test]
fn keyword_match_is_exact() {
    assert_eq!(
        tokenize("integer int returns return".into()).unwrap(),
        vec![
            TokenKind::Identifier("integer".into()),
            TokenKind::Type(VarType::Int),
            TokenKind::Identifier("returns".into()),
            TokenKind::Return,
        ]
    );
}

#[test]
fn identifiers_may_hold_underscores_and_digits() {
    assert_eq!(
        tokenize("a_b _x9 x2y".into()).unwrap(),
        vec![
            TokenKind::Identifier("a_b".into()),
            TokenKind::Identifier("_x9".into()),
            TokenKind::Identifier("x2y".into()),
        ]
    );
}

#[test]
fn maximal_munch_splits_digit_then_identifier() {
    assert_eq!(
        tokenize("123abc".into()).unwrap(),
        vec![
            TokenKind::Integer(123),
            TokenKind::Identifier("abc".into()),
        ]
    );
}

#[test]
fn empty_input_tokenizes_to_nothing() {
    assert_eq!(tokenize("".into()).unwrap(), Vec::<TokenKind>::new());
    assert_eq!(tokenize("   \n\t".into()).unwrap(), Vec::<TokenKind>::new());
}

#[test]
fn tokenize_string_refuses_digit_start_and_empty_scan() {
    assert_eq!(tokenize_string("9abc", 0).unwrap_err(), LexError::NotAnIdentifier);
    assert_eq!(tokenize_string("+", 0).unwrap_err(), LexError::NotAnIdentifier);
    assert_eq!(
        tokenize_string("main(", 0).unwrap(),
        (TokenKind::Identifier("main".into()), 4)
    );
}

#[test]
fn tokenize_integer_scans_the_maximal_run() {
    assert_eq!(
        tokenize_integer("42;", 0).unwrap(),
        (TokenKind::Integer(42), 2)
    );
    assert_eq!(tokenize_integer(";", 0).unwrap_err(), LexError::NotAnInteger);
}
