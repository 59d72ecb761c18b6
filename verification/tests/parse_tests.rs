//! Round-trip tests for the lexer and parser: a command is lexed,
//! parsed, rendered back to text and compared.

use royalguard::lex::{lex, Token};
use royalguard::parse::{
    parse, parse_and, parse_cmd, parse_filter, parse_or, parse_query, ParseError,
};

fn check_cmd(src: &str, expected: &str) {
    let tokens = lex(src).expect("lex error");
    let (cmd, pos) = parse_cmd(&tokens, 0).expect("unable to parse statement");
    assert_eq!(pos, tokens.len(), "unable to parse all tokens");
    assert_eq!(cmd.to_text(), expected);
}

fn check_query(src: &str, expected: &str) {
    let tokens = lex(src).expect("lex error");
    let (q, pos) = parse_query(&tokens, 0).expect("unable to parse query");
    assert_eq!(pos, tokens.len(), "unable to parse all tokens");
    assert_eq!(q.to_text(), expected);
}

fn check_or(src: &str, expected: &str) {
    let tokens = lex(src).expect("lex error");
    let (o, pos) = parse_or(&tokens, 0).expect("unable to parse disjunction");
    assert_eq!(pos, tokens.len(), "unable to parse all tokens");
    assert_eq!(o.to_text(), expected);
}

fn check_and(src: &str, expected: &str) {
    let tokens = lex(src).expect("lex error");
    let (a, pos) = parse_and(&tokens, 0).expect("unable to parse conjunction");
    assert_eq!(pos, tokens.len(), "unable to parse all tokens");
    assert_eq!(a.to_text(), expected);
}

fn check_filter(src: &str, expected: &str) {
    let tokens = lex(src).expect("lex error");
    let (f, pos) = parse_filter(&tokens, 0).expect("unable to parse filter");
    assert_eq!(pos, tokens.len(), "unable to parse all tokens");
    assert_eq!(f.to_text(), expected);
}

#[test]
fn test_cmd_set() {
    check_cmd(
        "set 'gmail' user = 'zahash' pass = 'supersecretpass' url = 'mail.google.com'",
        "set 'gmail' user = 'zahash' pass = 'supersecretpass' url = 'mail.google.com'",
    );
    check_cmd("set 'gmail'", "set 'gmail'");
}

#[test]
fn test_cmd_del() {
    check_cmd("del 'gmail'", "del 'gmail'");
    check_cmd("delete 'gmail'", "del 'gmail'");
}

#[test]
fn test_cmd_show() {
    check_cmd("show all", "show all");
    check_cmd("show 'gmail'", "show 'gmail'");
    check_cmd(
        "show user is 'a' or user contains 'a' and user matches 'a'",
        "show (user is 'a' or (user contains 'a' and user matches 'a'))",
    );
    check_cmd(
        "show user is 'a' and user contains 'a' or user matches 'a'",
        "show ((user is 'a' and user contains 'a') or user matches 'a')",
    );
}

#[test]
fn test_cmd_import() {
    check_cmd(
        "import '/home/suscobar/passwords.json'",
        "import '/home/suscobar/passwords.json'",
    );
}

#[test]
fn test_query() {
    check_query("all", "all");
    check_query(
        "user is 'a' or user is 'a' and user is 'a'",
        "(user is 'a' or (user is 'a' and user is 'a'))",
    );
    check_query(
        "user is 'a' and user is 'a' or user is 'a'",
        "((user is 'a' and user is 'a') or user is 'a')",
    );
}

#[test]
fn test_or() {
    check_or(
        "user is 'zahash' or url contains 'github'",
        "(user is 'zahash' or url contains 'github')",
    );
    check_or(
        "user is 'zahash' or url contains 'github' or url matches 'https.+'",
        "((user is 'zahash' or url contains 'github') or url matches 'https.+')",
    );
}

#[test]
fn test_and() {
    check_and(
        "user is 'zahash' and url contains 'github'",
        "(user is 'zahash' and url contains 'github')",
    );
    check_and(
        "user is 'zahash' and url contains 'github' and url matches 'https.+'",
        "((user is 'zahash' and url contains 'github') and url matches 'https.+')",
    );
}

#[test]
fn test_filter() {
    check_filter("url contains 'github'", "url contains 'github'");
    check_filter("user matches '[A-Z]+'", "user matches '[A-Z]+'");
    check_filter("user like '[A-Z]+'", "user matches '[A-Z]+'");
    check_filter("user is 'zahash'", "user is 'zahash'");
    check_filter("(user is 'zahash')", "(user is 'zahash')");
}

#[test]
fn reparse_is_equivalent() {
    // rendering a parsed command and parsing it again renders the same
    let sources = [
        "set gmail user = zahash sensitive pass = hunter2",
        "del gmail url pass",
        "show all",
        "show 'gmail'",
        "reveal all",
        "copy gmail pass",
        "rename gmail gmail2",
        "import 'file.txt'",
    ];
    for src in sources {
        let tokens = lex(src).expect("lex error");
        let cmd = parse(&tokens).expect("parse error");
        let text = cmd.to_text();
        let tokens2 = lex(text.as_str()).expect("re-lex error");
        let cmd2 = parse(&tokens2).expect("re-parse error");
        assert_eq!(text, cmd2.to_text());
    }
}

#[test]
fn duplicate_assignment_is_rejected() {
    let tokens = lex("set gmail user = a user = b").expect("lex error");
    match parse(&tokens) {
        Err(ParseError::DuplicateAssignments(attr, _)) => assert_eq!(attr, "user"),
        _ => panic!("expected a duplicate-assignment error"),
    }
}

#[test]
fn leftover_tokens_are_rejected() {
    let tokens = lex("show user is").expect("lex error");
    match parse(&tokens) {
        Err(ParseError::IncompleteParse(pos)) => assert_eq!(pos, 2),
        _ => panic!("expected an incomplete-parse error"),
    }
}

#[test]
fn invalid_pattern_is_rejected() {
    // the boolean grammar fails on the bad pattern, the lone-name reading
    // leaves tokens over, and the whole parse is refused
    let tokens = lex("show user matches '['").expect("lex error");
    assert!(parse(&tokens).is_err());
}

#[test]
fn invalid_pattern_is_reported_at_the_pattern() {
    let tokens = lex("user matches '['").expect("lex error");
    match parse_filter(&tokens, 0) {
        Err(ParseError::InvalidRegex(pos)) => assert_eq!(pos, 2),
        _ => panic!("expected an invalid-pattern error"),
    }
}

#[test]
fn keywords_do_not_match_inside_words() {
    let tokens = lex("setter").expect("lex error");
    assert_eq!(tokens, vec![Token::Value("setter".to_string())]);
}
