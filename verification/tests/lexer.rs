use lunar::lexer::{lex, Token};

#[test]
fn keywords_idents_and_punctuation() {
    let tokens = lex("sub main() { df x; produce(x); }").unwrap();
    assert_eq!(
        tokens,
        vec![
            Token::KwSub,
            Token::Ident("main".to_owned()),
            Token::Lparen,
            Token::Rparen,
            Token::Lbrace,
            Token::KwDf,
            Token::Ident("x".to_owned()),
            Token::Semi,
            Token::Ident("produce".to_owned()),
            Token::Lparen,
            Token::Ident("x".to_owned()),
            Token::Rparen,
            Token::Semi,
            Token::Rbrace,
        ]
    );
}

#[test]
fn ranges_keep_dots_apart_from_floats() {
    let tokens = lex("for i in 0..10").unwrap();
    assert_eq!(
        tokens,
        vec![
            Token::KwFor,
            Token::Ident("i".to_owned()),
            Token::KwIn,
            Token::Integer(0),
            Token::Dots,
            Token::Integer(10),
        ]
    );
}

#[test]
fn float_literal_splits_at_the_dot() {
    let tokens = lex("3.25").unwrap();
    assert_eq!(tokens, vec![Token::Float(3, "25".to_owned())]);
}

#[test]
fn leading_zero_ends_the_integer() {
    // the literal grammar has no leading zeros: `01` is two tokens
    let tokens = lex("01").unwrap();
    assert_eq!(tokens, vec![Token::Integer(0), Token::Integer(1)]);
}

#[test]
fn keyword_prefix_is_still_an_identifier() {
    let tokens = lex("iffy int_x").unwrap();
    assert_eq!(
        tokens,
        vec![Token::Ident("iffy".to_owned()), Token::Ident("int_x".to_owned())]
    );
}

#[test]
fn unlexable_byte_position_is_reported() {
    let err = lex("df x; @").unwrap_err();
    assert_eq!(err.span_start, 6);
    assert_eq!(err.span_end, 7);
}

#[test]
fn integer_out_of_range_is_an_error() {
    assert_eq!(lex("9223372036854775807").unwrap().len(), 1);
    let err = lex("9223372036854775808").unwrap_err();
    assert_eq!(err.span_start, 0);
}

#[test]
fn arithmetic_tokens() {
    let tokens = lex("a+b-c*d/e").unwrap();
    assert_eq!(
        tokens,
        vec![
            Token::Ident("a".to_owned()),
            Token::Add,
            Token::Ident("b".to_owned()),
            Token::Sub,
            Token::Ident("c".to_owned()),
            Token::Mul,
            Token::Ident("d".to_owned()),
            Token::Div,
            Token::Ident("e".to_owned()),
        ]
    );
}

#[test]
fn lone_dot_is_an_error() {
    let err = lex("a . b").unwrap_err();
    assert_eq!(err.span_start, 2);
}
