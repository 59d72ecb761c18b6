//! Lexer for the command language.
//!
//! A command line is cut into three kinds of tokens, tried in a fixed
//! order at each position: keywords (a fixed word list, recognized only at
//! a word boundary, so `setter` is not the keyword `set`), the symbols
//! `=`, `(` and `)`, and values (a maximal run of characters that are not
//! whitespace, quotes or parentheses, or a single-quoted string that may
//! hold spaces but no quote or newline). Quotes around a quoted value are
//! stripped. Spaces and newlines between tokens are skipped. A failed
//! lex reports the byte offset of the first unlexable position. The
//! whitespace and word-character classes are ASCII by design.

use vstd::prelude::*;
use vstd::string::*;
use crate::chars::match_at;

verus! {

/// One token of a command line.
#[derive(Debug, PartialEq)]
pub enum Token {
    Keyword(String),
    Symbol(char),
    Value(String),
}

/// The mathematical image of a [`Token`].
pub ghost enum TokenV {
    Keyword(Seq<char>),
    Symbol(char),
    Value(Seq<char>),
}

impl View for Token {
    type V = TokenV;

    open spec fn view(&self) -> TokenV {
        match self {
            Token::Keyword(s) => TokenV::Keyword(s@),
            Token::Symbol(c) => TokenV::Symbol(*c),
            Token::Value(s) => TokenV::Value(s@),
        }
    }
}

/// Lexing failure: no token rule matches at byte offset `pos`.
#[derive(Debug)]
pub enum LexError {
    InvalidToken { pos: usize },
}

/// Characters skipped between tokens.
pub open spec fn is_space(c: char) -> bool {
    c == ' ' || c == '\n'
}

/// ASCII whitespace, excluded from unquoted values.
pub open spec fn is_ws_char(c: char) -> bool {
    c == ' ' || c == '\t' || c == '\n' || c == '\r' || c == '\u{b}' || c == '\u{c}'
}

/// Characters allowed in an unquoted value.
pub open spec fn is_value_char(c: char) -> bool {
    !(c == '\'' || c == '(' || c == ')' || is_ws_char(c))
}

/// Characters that continue a word: a keyword is recognized only when the
/// character after it (if any) is not one of these.
pub open spec fn is_word_char(c: char) -> bool {
    ('a' <= c && c <= 'z') || ('A' <= c && c <= 'Z') || ('0' <= c && c <= '9') || c == '_'
}

/// The first index at or after `j` that does not hold a space character,
/// or the length of `text`.
pub open spec fn skip_ws_end(text: Seq<char>, j: int) -> int
    decreases text.len() - j,
{
    if j < 0 || j >= text.len() || !is_space(text[j]) {
        j
    } else {
        skip_ws_end(text, j + 1)
    }
}

/// The first index at or after `j` holding a quote or newline, or the
/// length of `text`.
pub open spec fn quote_scan_end(text: Seq<char>, j: int) -> int
    decreases text.len() - j,
{
    if j < 0 || j >= text.len() || text[j] == '\'' || text[j] == '\n' {
        j
    } else {
        quote_scan_end(text, j + 1)
    }
}

/// The first index at or after `j` that does not hold a value character,
/// or the length of `text`.
pub open spec fn value_run_end(text: Seq<char>, j: int) -> int
    decreases text.len() - j,
{
    if j < 0 || j >= text.len() || !is_value_char(text[j]) {
        j
    } else {
        value_run_end(text, j + 1)
    }
}

/// The word `kw` occurs at position `pos` of `text`, ending at a word
/// boundary.
pub open spec fn kw_match(text: Seq<char>, pos: int, kw: Seq<char>) -> bool {
    &&& 0 <= pos
    &&& pos + kw.len() <= text.len()
    &&& text.subrange(pos, pos + kw.len()) == kw
    &&& (pos + kw.len() == text.len() || !is_word_char(text[pos + kw.len()]))
}

/// The keyword recognized at `pos`, with the position after it. The words
/// are tried in a fixed order; at most one can match at a word boundary.
pub open spec fn spec_keyword_at(text: Seq<char>, pos: int) -> Option<(Seq<char>, int)> {
    if kw_match(text, pos, "set"@) {
        Some(("set"@, pos + "set"@.len()))
    } else if kw_match(text, pos, "del"@) {
        Some(("del"@, pos + "del"@.len()))
    } else if kw_match(text, pos, "delete"@) {
        Some(("delete"@, pos + "delete"@.len()))
    } else if kw_match(text, pos, "show"@) {
        Some(("show"@, pos + "show"@.len()))
    } else if kw_match(text, pos, "reveal"@) {
        Some(("reveal"@, pos + "reveal"@.len()))
    } else if kw_match(text, pos, "copy"@) {
        Some(("copy"@, pos + "copy"@.len()))
    } else if kw_match(text, pos, "history"@) {
        Some(("history"@, pos + "history"@.len()))
    } else if kw_match(text, pos, "rename"@) {
        Some(("rename"@, pos + "rename"@.len()))
    } else if kw_match(text, pos, "import"@) {
        Some(("import"@, pos + "import"@.len()))
    } else if kw_match(text, pos, "secret"@) {
        Some(("secret"@, pos + "secret"@.len()))
    } else if kw_match(text, pos, "sensitive"@) {
        Some(("sensitive"@, pos + "sensitive"@.len()))
    } else if kw_match(text, pos, "all"@) {
        Some(("all"@, pos + "all"@.len()))
    } else if kw_match(text, pos, "and"@) {
        Some(("and"@, pos + "and"@.len()))
    } else if kw_match(text, pos, "or"@) {
        Some(("or"@, pos + "or"@.len()))
    } else if kw_match(text, pos, "contains"@) {
        Some(("contains"@, pos + "contains"@.len()))
    } else if kw_match(text, pos, "matches"@) {
        Some(("matches"@, pos + "matches"@.len()))
    } else if kw_match(text, pos, "like"@) {
        Some(("like"@, pos + "like"@.len()))
    } else if kw_match(text, pos, "is"@) {
        Some(("is"@, pos + "is"@.len()))
    } else {
        None
    }
}

/// The value token starting at `pos`, if any: a quoted value with its
/// quotes stripped, or a maximal run of value characters.
pub open spec fn spec_lex_value(text: Seq<char>, pos: int) -> Option<(TokenV, int)> {
    if 0 <= pos < text.len() && text[pos] == '\'' {
        let j = quote_scan_end(text, pos + 1);
        if j < text.len() && text[j] == '\'' {
            Some((TokenV::Value(text.subrange(pos + 1, j)), j + 1))
        } else {
            None
        }
    } else if 0 <= pos < text.len() && is_value_char(text[pos]) {
        let j = value_run_end(text, pos);
        Some((TokenV::Value(text.subrange(pos, j)), j))
    } else {
        None
    }
}

/// The token starting at `pos`: a keyword, else a symbol, else a value.
pub open spec fn spec_lex_token(text: Seq<char>, pos: int) -> Option<(TokenV, int)> {
    match spec_keyword_at(text, pos) {
        Some((kw, np)) => Some((TokenV::Keyword(kw), np)),
        None => {
            if 0 <= pos < text.len() && (text[pos] == '=' || text[pos] == '(' || text[pos] == ')') {
                Some((TokenV::Symbol(text[pos]), pos + 1))
            } else {
                spec_lex_value(text, pos)
            }
        },
    }
}

/// The token stream from position `pos` on, or the position of the first
/// character where no token rule matches. Every token consumes at least
/// one character, so the inner guard never takes its `Err` branch; it only
/// makes the recursion well-founded.
pub open spec fn spec_lex_from(text: Seq<char>, pos: int) -> Result<Seq<TokenV>, int>
    decreases text.len() - pos,
{
    let start = skip_ws_end(text, pos);
    if start >= text.len() || start < pos {
        Ok(Seq::empty())
    } else {
        match spec_lex_token(text, start) {
            None => Err(start),
            Some((t, np)) => if start < np <= text.len() {
                match spec_lex_from(text, np) {
                    Ok(rest) => Ok(seq![t] + rest),
                    Err(e) => Err(e),
                }
            } else {
                Err(start)
            },
        }
    }
}

/// The token stream of a whole command line, or the position of the first
/// invalid character, counted in characters.
pub open spec fn spec_lex(text: Seq<char>) -> Result<Seq<TokenV>, int> {
    spec_lex_from(text, 0)
}

/// The byte offset of character position `i` of `text`: the length of
/// the UTF-8 encoding of everything before it.
pub open spec fn byte_pos(text: Seq<char>, i: int) -> nat
    recommends
        0 <= i <= text.len(),
{
    vstd::utf8::encode_utf8(text.subrange(0, i)).len()
}

fn word_char(c: char) -> (r: bool)
    ensures
        r == is_word_char(c),
{
    ('a' <= c && c <= 'z') || ('A' <= c && c <= 'Z') || ('0' <= c && c <= '9') || c == '_'
}

fn value_char(c: char) -> (r: bool)
    ensures
        r == is_value_char(c),
{
    !(c == '\'' || c == '(' || c == ')' || c == ' ' || c == '\t' || c == '\n' || c == '\r' || c
        == '\u{b}' || c == '\u{c}')
}

/// Tries the word `kw` at position `pos`, demanding a word boundary after
/// it; returns the position after the word.
fn kw_at(text: &str, hlen: usize, pos: usize, kw: &str) -> (r: Option<usize>)
    requires
        hlen == text@.len(),
        pos <= hlen,
    ensures
        match r {
            Some(np) => kw_match(text@, pos as int, kw@) && np == pos + kw@.len(),
            None => !kw_match(text@, pos as int, kw@),
        },
{
    let klen = kw.unicode_len();
    if klen > hlen - pos {
        return None;
    }
    if !match_at(text, kw, pos) {
        return None;
    }
    if pos + klen < hlen && word_char(text.get_char(pos + klen)) {
        return None;
    }
    Some(pos + klen)
}

/// The keyword token at `pos`, mirroring [`spec_keyword_at`].
fn lex_keyword(text: &str, hlen: usize, pos: usize) -> (r: Option<(Token, usize)>)
    requires
        hlen == text@.len(),
        pos <= hlen,
    ensures
        match r {
            Some(p) => {
                &&& spec_keyword_at(text@, pos as int) matches Some(q)
                &&& p.0@ == TokenV::Keyword(q.0)
                &&& p.1 == q.1
                &&& pos < p.1 <= hlen
            },
            None => spec_keyword_at(text@, pos as int) is None,
        },
{
    proof {
        reveal_strlit("set");
        reveal_strlit("del");
        reveal_strlit("delete");
        reveal_strlit("show");
        reveal_strlit("reveal");
        reveal_strlit("copy");
        reveal_strlit("history");
        reveal_strlit("rename");
        reveal_strlit("import");
        reveal_strlit("secret");
        reveal_strlit("sensitive");
        reveal_strlit("all");
        reveal_strlit("and");
        reveal_strlit("or");
        reveal_strlit("contains");
        reveal_strlit("matches");
        reveal_strlit("like");
        reveal_strlit("is");
    }
    if let Some(np) = kw_at(text, hlen, pos, "set") {
        return Some((Token::Keyword("set".to_owned()), np));
    }
    if let Some(np) = kw_at(text, hlen, pos, "del") {
        return Some((Token::Keyword("del".to_owned()), np));
    }
    if let Some(np) = kw_at(text, hlen, pos, "delete") {
        return Some((Token::Keyword("delete".to_owned()), np));
    }
    if let Some(np) = kw_at(text, hlen, pos, "show") {
        return Some((Token::Keyword("show".to_owned()), np));
    }
    if let Some(np) = kw_at(text, hlen, pos, "reveal") {
        return Some((Token::Keyword("reveal".to_owned()), np));
    }
    if let Some(np) = kw_at(text, hlen, pos, "copy") {
        return Some((Token::Keyword("copy".to_owned()), np));
    }
    if let Some(np) = kw_at(text, hlen, pos, "history") {
        return Some((Token::Keyword("history".to_owned()), np));
    }
    if let Some(np) = kw_at(text, hlen, pos, "rename") {
        return Some((Token::Keyword("rename".to_owned()), np));
    }
    if let Some(np) = kw_at(text, hlen, pos, "import") {
        return Some((Token::Keyword("import".to_owned()), np));
    }
    if let Some(np) = kw_at(text, hlen, pos, "secret") {
        return Some((Token::Keyword("secret".to_owned()), np));
    }
    if let Some(np) = kw_at(text, hlen, pos, "sensitive") {
        return Some((Token::Keyword("sensitive".to_owned()), np));
    }
    if let Some(np) = kw_at(text, hlen, pos, "all") {
        return Some((Token::Keyword("all".to_owned()), np));
    }
    if let Some(np) = kw_at(text, hlen, pos, "and") {
        return Some((Token::Keyword("and".to_owned()), np));
    }
    if let Some(np) = kw_at(text, hlen, pos, "or") {
        return Some((Token::Keyword("or".to_owned()), np));
    }
    if let Some(np) = kw_at(text, hlen, pos, "contains") {
        return Some((Token::Keyword("contains".to_owned()), np));
    }
    if let Some(np) = kw_at(text, hlen, pos, "matches") {
        return Some((Token::Keyword("matches".to_owned()), np));
    }
    if let Some(np) = kw_at(text, hlen, pos, "like") {
        return Some((Token::Keyword("like".to_owned()), np));
    }
    if let Some(np) = kw_at(text, hlen, pos, "is") {
        return Some((Token::Keyword("is".to_owned()), np));
    }
    None
}

/// The value token at `pos`, mirroring [`spec_lex_value`].
fn lex_value(text: &str, hlen: usize, pos: usize) -> (r: Option<(Token, usize)>)
    requires
        hlen == text@.len(),
        pos < hlen,
    ensures
        match r {
            Some(p) => {
                &&& spec_lex_value(text@, pos as int) matches Some(q)
                &&& p.0@ == q.0
                &&& p.1 == q.1
                &&& pos < p.1 <= hlen
            },
            None => spec_lex_value(text@, pos as int) is None,
        },
{
    let c = text.get_char(pos);
    if c == '\'' {
        let mut j: usize = pos + 1;
        while j < hlen && text.get_char(j) != '\'' && text.get_char(j) != '\n'
            invariant
                pos + 1 <= j <= hlen,
                hlen == text@.len(),
                quote_scan_end(text@, pos + 1) == quote_scan_end(text@, j as int),
            decreases hlen - j,
        {
            j += 1;
        }
        assert(quote_scan_end(text@, j as int) == j);
        if j < hlen {
            // get_char(j) is a quote or a newline here
            if text.get_char(j) == '\'' {
                let v = text.substring_char(pos + 1, j).to_owned();
                return Some((Token::Value(v), j + 1));
            }
        }
        None
    } else if value_char(c) {
        let mut j: usize = pos + 1;
        assert(value_run_end(text@, pos as int) == value_run_end(text@, j as int));
        while j < hlen && value_char(text.get_char(j))
            invariant
                pos < j <= hlen,
                hlen == text@.len(),
                value_run_end(text@, pos as int) == value_run_end(text@, j as int),
            decreases hlen - j,
        {
            j += 1;
        }
        assert(value_run_end(text@, j as int) == j);
        let v = text.substring_char(pos, j).to_owned();
        Some((Token::Value(v), j))
    } else {
        None
    }
}

/// The token at `pos`, mirroring [`spec_lex_token`].
fn lex_token(text: &str, hlen: usize, pos: usize) -> (r: Option<(Token, usize)>)
    requires
        hlen == text@.len(),
        pos < hlen,
    ensures
        match r {
            Some(p) => {
                &&& spec_lex_token(text@, pos as int) matches Some(q)
                &&& p.0@ == q.0
                &&& p.1 == q.1
                &&& pos < p.1 <= hlen
            },
            None => spec_lex_token(text@, pos as int) is None,
        },
{
    if let Some(p) = lex_keyword(text, hlen, pos) {
        return Some(p);
    }
    let c = text.get_char(pos);
    if c == '=' || c == '(' || c == ')' {
        return Some((Token::Symbol(c), pos + 1));
    }
    lex_value(text, hlen, pos)
}

/// Advances past spaces and newlines, mirroring [`skip_ws_end`].
fn skip_spaces(text: &str, hlen: usize, pos: usize) -> (np: usize)
    requires
        hlen == text@.len(),
        pos <= hlen,
    ensures
        pos <= np <= hlen,
        np == skip_ws_end(text@, pos as int),
        np == hlen || !is_space(text@[np as int]),
{
    let mut j: usize = pos;
    loop
        invariant
            pos <= j <= hlen,
            hlen == text@.len(),
            skip_ws_end(text@, pos as int) == skip_ws_end(text@, j as int),
        decreases hlen - j,
    {
        if j >= hlen {
            return j;
        }
        let c = text.get_char(j);
        if !(c == ' ' || c == '\n') {
            return j;
        }
        j += 1;
    }
}

/// Cuts a command line into tokens; fails with the byte offset of the
/// first position where no token rule matches.
pub fn lex(text: &str) -> (r: Result<Vec<Token>, LexError>)
    ensures
        match r {
            Ok(tokens) => spec_lex(text@) == Ok::<Seq<TokenV>, int>(
                tokens@.map_values(|t: Token| t@),
            ),
            Err(e) => {
                &&& e matches LexError::InvalidToken { pos }
                &&& spec_lex(text@) matches Err(p)
                &&& pos == byte_pos(text@, p) as usize
            },
        },
{
    let hlen = text.unicode_len();
    let mut tokens: Vec<Token> = Vec::new();
    let mut pos: usize = 0;
    loop
        invariant
            pos <= hlen,
            hlen == text@.len(),
            spec_lex(text@) == match spec_lex_from(text@, pos as int) {
                Ok(rest) => Ok::<Seq<TokenV>, int>(tokens@.map_values(|t: Token| t@) + rest),
                Err(e) => Err::<Seq<TokenV>, int>(e),
            },
        decreases hlen - pos,
    {
        let ghost pos0 = pos as int;
        pos = skip_spaces(text, hlen, pos);
        proof {
            assert(skip_ws_end(text@, pos as int) == pos as int);
            assert(spec_lex_from(text@, pos0) == spec_lex_from(text@, pos as int));
        }
        if pos >= hlen {
            assert(tokens@.map_values(|t: Token| t@) + Seq::<TokenV>::empty() =~= tokens@
                .map_values(|t: Token| t@));
            return Ok(tokens);
        }
        match lex_token(text, hlen, pos) {
            None => {
                let sub = text.substring_char(0, pos);
                let bpos = sub.len();
                proof {
                    assert(sub@ == text@.subrange(0, pos as int));
                    assert(sub.spec_bytes() == vstd::utf8::encode_utf8(sub@));
                    assert(bpos == byte_pos(text@, pos as int) as usize);
                }
                return Err(LexError::InvalidToken { pos: bpos });
            },
            Some((t, np)) => {
                let ghost prev = tokens@.map_values(|tk: Token| tk@);
                let ghost tv = t@;
                tokens.push(t);
                proof {
                    assert(tokens@.map_values(|tk: Token| tk@) =~= prev + seq![tv]);
                    let sr = spec_lex_from(text@, np as int);
                    match sr {
                        Ok(rest) => {
                            assert(prev + (seq![tv] + rest) =~= (prev + seq![tv]) + rest);
                        },
                        Err(_) => {},
                    }
                }
                pos = np;
            },
        }
    }
}

} // verus!
