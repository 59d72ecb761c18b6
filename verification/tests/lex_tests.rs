//! Tests for the lexer.

use royalguard::lex::{lex, LexError, Token};
use royalguard::lex::Token::Symbol;

#[test]
fn test_all() {
    let src = r#"
        set del delete show reveal copy history rename import secret sensitive
        all prev and or contains matches like is

        setter revealed

        name user pass url
        (=)'🦀🦀🦀''كلمة عربية مخيفة''N''' look_mom   no_spaces   'oh wow spaces'
        (zahash)('zahash')
        "#;

    fn kw(s: &str) -> Token {
        Token::Keyword(s.to_string())
    }
    fn val(s: &str) -> Token {
        Token::Value(s.to_string())
    }

    match lex(src) {
        Ok(tokens) => assert_eq!(
            tokens,
            vec![
                kw("set"),
                kw("del"),
                kw("delete"),
                kw("show"),
                kw("reveal"),
                kw("copy"),
                kw("history"),
                kw("rename"),
                kw("import"),
                kw("secret"),
                kw("sensitive"),
                kw("all"),
                val("prev"),
                kw("and"),
                kw("or"),
                kw("contains"),
                kw("matches"),
                kw("like"),
                kw("is"),
                val("setter"),
                val("revealed"),
                val("name"),
                val("user"),
                val("pass"),
                val("url"),
                Symbol('('),
                Symbol('='),
                Symbol(')'),
                val("🦀🦀🦀"),
                val("كلمة عربية مخيفة"),
                val("N"),
                val(""),
                val("look_mom"),
                val("no_spaces"),
                val("oh wow spaces"),
                Symbol('('),
                val("zahash"),
                Symbol(')'),
                Symbol('('),
                val("zahash"),
                Symbol(')'),
            ]
        ),
        Err(LexError::InvalidToken { pos }) => panic!("invalid token at {}", pos),
    }
}

#[test]
fn tab_is_an_invalid_token() {
    match lex("\tx") {
        Err(LexError::InvalidToken { pos }) => assert_eq!(pos, 0),
        _ => panic!("expected an invalid-token error"),
    }
}

#[test]
fn error_positions_count_bytes() {
    // the crab is one character but four bytes; the tab that follows the
    // space is at byte offset 5
    match lex("🦀 \tx") {
        Err(LexError::InvalidToken { pos }) => assert_eq!(pos, 5),
        _ => panic!("expected an invalid-token error"),
    }
}

#[test]
fn unterminated_quote_is_invalid() {
    match lex("'oops") {
        Err(LexError::InvalidToken { pos }) => assert_eq!(pos, 0),
        _ => panic!("expected an invalid-token error"),
    }
}
