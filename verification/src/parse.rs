//! Parser for the command language.
//!
//! A recursive-descent parser over the token stream. Each production
//! tries its alternatives in a fixed order and backtracks freely. The
//! whole token stream must be consumed; leftovers are an error. The
//! grammar:
//!
//! ```text
//! cmd    := "set" VALUE assign*
//!         | ("del"|"delete") VALUE VALUE*
//!         | "show" query | "reveal" query
//!         | "copy" VALUE VALUE
//!         | "history" VALUE | "reveal" "history" VALUE
//!         | "rename" VALUE VALUE
//!         | "import" VALUE
//! assign := ("sensitive"|"secret")? VALUE "=" VALUE
//! query  := "all" | or | VALUE
//! or     := and ("or" and)*
//! and    := filter ("and" filter)*
//! filter := "(" query ")"
//!         | VALUE "contains" VALUE
//!         | VALUE ("matches"|"like") VALUE
//!         | VALUE "is" VALUE
//! ```
//!
//! `matches` patterns are checked as regular expressions at parse time.
//! Duplicate attribute names in one `set` are rejected at parse time.
//! A lone value after `show`/`reveal` is a query by record name; the
//! boolean grammar is tried first and the name reading is the fallback.

use vstd::prelude::*;
use vstd::string::*;
use crate::chars::str_eq;
use crate::lex::{Token, TokenV};
use crate::outside::{regex_is_valid, regex_ok};

verus! {

/// Parsing failure. Each variant carries the token position it arose at.
#[derive(Debug)]
pub enum ParseError {
    SyntaxError(usize, &'static str),
    ExpectedAttr(usize),
    ExpectedValue(usize),
    Expected(Token, usize),
    ExpectedOneOf(Vec<Token>, usize),
    InvalidRegex(usize),
    DuplicateAssignments(String, usize),
    IncompleteParse(usize),
}

/// One `attr = value` assignment of a `set` command, with its
/// per-assignment sensitivity flag.
pub struct Assign {
    pub attr: String,
    pub value: String,
    pub sensitive: bool,
}

/// An `attr contains substr` filter.
pub struct Contains {
    pub attr: String,
    pub substr: String,
}

/// An `attr matches pattern` filter; the pattern is kept as text and has
/// been checked to compile.
pub struct Matches {
    pub attr: String,
    pub pat: String,
}

/// An `attr is value` filter.
pub struct Is {
    pub attr: String,
    pub value: String,
}

/// A single filter: a comparison, or a parenthesized sub-query.
pub enum Filter {
    Contains(Contains),
    Matches(Matches),
    Cmp(Is),
    Parens(Box<Query>),
}

/// A conjunction of filters, left-associated.
pub enum And {
    Filter(Filter),
    And(Box<And>, Filter),
}

/// A disjunction of conjunctions, left-associated.
pub enum Or {
    And(And),
    Or(Box<Or>, And),
}

/// A whole query: every record, one record by name, or a boolean filter.
pub enum Query {
    Or(Or),
    Name(String),
    All,
}

/// A parsed command. (The `set` command's variant is named `SetRecord`
/// because the bare word is reserved here.)
pub enum Cmd {
    SetRecord { name: String, assignments: Vec<Assign> },
    Del { name: String, attrs: Vec<String> },
    Show(Query),
    Reveal(Query),
    Copy { name: String, attr: String },
    History(String),
    RevealHistory(String),
    Rename(String, String),
    Import(String),
}

/// The mathematical image of an [`Assign`].
pub ghost struct AssignV {
    pub attr: Seq<char>,
    pub value: Seq<char>,
    pub sensitive: bool,
}

/// The mathematical image of a [`Filter`].
pub ghost enum FilterV {
    Contains { attr: Seq<char>, substr: Seq<char> },
    Matches { attr: Seq<char>, pat: Seq<char> },
    Cmp { attr: Seq<char>, value: Seq<char> },
    Parens(Box<QueryV>),
}

/// The mathematical image of an [`And`].
pub ghost enum AndV {
    Filter(FilterV),
    And(Box<AndV>, FilterV),
}

/// The mathematical image of an [`Or`].
pub ghost enum OrV {
    And(AndV),
    Or(Box<OrV>, AndV),
}

/// The mathematical image of a [`Query`].
pub ghost enum QueryV {
    Or(OrV),
    Name(Seq<char>),
    All,
}

/// The mathematical image of a [`Cmd`].
pub ghost enum CmdV {
    SetRecord { name: Seq<char>, assignments: Seq<AssignV> },
    Del { name: Seq<char>, attrs: Seq<Seq<char>> },
    Show(QueryV),
    Reveal(QueryV),
    Copy { name: Seq<char>, attr: Seq<char> },
    History(Seq<char>),
    RevealHistory(Seq<char>),
    Rename(Seq<char>, Seq<char>),
    Import(Seq<char>),
}

impl View for Assign {
    type V = AssignV;

    open spec fn view(&self) -> AssignV {
        AssignV { attr: self.attr@, value: self.value@, sensitive: self.sensitive }
    }
}

impl View for Filter {
    type V = FilterV;

    open spec fn view(&self) -> FilterV
        decreases self,
    {
        match self {
            Filter::Contains(c) => FilterV::Contains { attr: c.attr@, substr: c.substr@ },
            Filter::Matches(m) => FilterV::Matches { attr: m.attr@, pat: m.pat@ },
            Filter::Cmp(i) => FilterV::Cmp { attr: i.attr@, value: i.value@ },
            Filter::Parens(q) => FilterV::Parens(Box::new((**q)@)),
        }
    }
}

impl View for And {
    type V = AndV;

    open spec fn view(&self) -> AndV
        decreases self,
    {
        match self {
            And::Filter(f) => AndV::Filter(f@),
            And::And(l, f) => AndV::And(Box::new((**l)@), f@),
        }
    }
}

impl View for Or {
    type V = OrV;

    open spec fn view(&self) -> OrV
        decreases self,
    {
        match self {
            Or::And(a) => OrV::And(a@),
            Or::Or(l, a) => OrV::Or(Box::new((**l)@), a@),
        }
    }
}

impl View for Query {
    type V = QueryV;

    open spec fn view(&self) -> QueryV
        decreases self,
    {
        match self {
            Query::Or(o) => QueryV::Or(o@),
            Query::Name(n) => QueryV::Name(n@),
            Query::All => QueryV::All,
        }
    }
}

impl View for Cmd {
    type V = CmdV;

    open spec fn view(&self) -> CmdV {
        match self {
            Cmd::SetRecord { name, assignments } => CmdV::SetRecord {
                name: name@,
                assignments: assignments@.map_values(|a: Assign| a@),
            },
            Cmd::Del { name, attrs } => CmdV::Del {
                name: name@,
                attrs: attrs@.map_values(|a: String| a@),
            },
            Cmd::Show(q) => CmdV::Show(q@),
            Cmd::Reveal(q) => CmdV::Reveal(q@),
            Cmd::Copy { name, attr } => CmdV::Copy { name: name@, attr: attr@ },
            Cmd::History(n) => CmdV::History(n@),
            Cmd::RevealHistory(n) => CmdV::RevealHistory(n@),
            Cmd::Rename(o, n) => CmdV::Rename(o@, n@),
            Cmd::Import(p) => CmdV::Import(p@),
        }
    }
}

/// The views of a token sequence.
pub open spec fn views_of(ts: Seq<Token>) -> Seq<TokenV> {
    ts.map_values(|t: Token| t@)
}

/// The token is the given keyword.
pub open spec fn tok_is_kw(t: TokenV, kw: Seq<char>) -> bool {
    t matches TokenV::Keyword(k) && k == kw
}

/// The token is the given symbol.
pub open spec fn tok_is_sym(t: TokenV, c: char) -> bool {
    t matches TokenV::Symbol(s) && s == c
}

/// The keyword at position `pos`, if any.
pub open spec fn kw_at(ts: Seq<TokenV>, pos: int, kw: Seq<char>) -> bool {
    0 <= pos < ts.len() && tok_is_kw(ts[pos], kw)
}

/// The value token at position `pos`, if any.
pub open spec fn val_at(ts: Seq<TokenV>, pos: int) -> Option<Seq<char>> {
    if 0 <= pos < ts.len() {
        match ts[pos] {
            TokenV::Value(v) => Some(v),
            _ => None,
        }
    } else {
        None
    }
}

/// The symbol at position `pos`, if any.
pub open spec fn sym_at(ts: Seq<TokenV>, pos: int, c: char) -> bool {
    0 <= pos < ts.len() && tok_is_sym(ts[pos], c)
}

/// One assignment starting at `pos`: an optional `sensitive`/`secret`
/// flag, an attribute, `=`, and a value.
pub open spec fn spec_parse_assign(ts: Seq<TokenV>, pos: int) -> Option<(AssignV, int)> {
    let (sens, p) = if kw_at(ts, pos, "sensitive"@) || kw_at(ts, pos, "secret"@) {
        (true, pos + 1)
    } else {
        (false, pos)
    };
    match val_at(ts, p) {
        Some(attr) => if sym_at(ts, p + 1, '=') {
            match val_at(ts, p + 2) {
                Some(value) => Some((AssignV { attr, value, sensitive: sens }, p + 3)),
                None => None,
            }
        } else {
            None
        },
        None => None,
    }
}

/// As many assignments as parse, greedily, with the position after them.
pub open spec fn spec_parse_assigns(ts: Seq<TokenV>, pos: int) -> (Seq<AssignV>, int)
    decreases ts.len() - pos,
{
    match spec_parse_assign(ts, pos) {
        None => (Seq::empty(), pos),
        Some((a, np)) => if pos < np <= ts.len() {
            let (rest, e) = spec_parse_assigns(ts, np);
            (seq![a] + rest, e)
        } else {
            (Seq::empty(), pos)
        },
    }
}

/// The attribute of the first assignment whose attribute already occurred
/// earlier in the list, scanning from index `j`.
pub open spec fn first_dup_attr_from(asg: Seq<AssignV>, j: int) -> Option<Seq<char>>
    decreases asg.len() - j,
{
    if j < 0 || j >= asg.len() {
        None
    } else if exists|i: int| 0 <= i < j && asg[i].attr == asg[j].attr {
        Some(asg[j].attr)
    } else {
        first_dup_attr_from(asg, j + 1)
    }
}

/// The first duplicated attribute of an assignment list, if any.
pub open spec fn first_dup_attr(asg: Seq<AssignV>) -> Option<Seq<char>> {
    first_dup_attr_from(asg, 0)
}

/// A `set` command, before the duplicate-attribute check: its name, its
/// assignments and the position after them.
pub open spec fn spec_parse_set(ts: Seq<TokenV>, pos: int) -> Option<(Seq<char>, Seq<AssignV>, int)> {
    if kw_at(ts, pos, "set"@) {
        match val_at(ts, pos + 1) {
            Some(name) => {
                let (asg, np) = spec_parse_assigns(ts, pos + 2);
                Some((name, asg, np))
            },
            None => None,
        }
    } else {
        None
    }
}

/// As many value tokens as stand at `pos`, with the position after them.
pub open spec fn spec_values_from(ts: Seq<TokenV>, pos: int) -> (Seq<Seq<char>>, int)
    decreases ts.len() - pos,
{
    match val_at(ts, pos) {
        Some(v) => if 0 <= pos < ts.len() {
            let (rest, e) = spec_values_from(ts, pos + 1);
            (seq![v] + rest, e)
        } else {
            (Seq::empty(), pos)
        },
        None => (Seq::empty(), pos),
    }
}

/// A `del`/`delete` command: a name and the attributes to drop.
pub open spec fn spec_parse_del(ts: Seq<TokenV>, pos: int) -> Option<(CmdV, int)> {
    if kw_at(ts, pos, "del"@) || kw_at(ts, pos, "delete"@) {
        match val_at(ts, pos + 1) {
            Some(name) => {
                let (attrs, np) = spec_values_from(ts, pos + 2);
                Some((CmdV::Del { name, attrs }, np))
            },
            None => None,
        }
    } else {
        None
    }
}

/// One filter starting at `pos`: a parenthesized query, else `contains`,
/// else `matches`/`like` (whose pattern must compile), else `is`.
pub open spec fn spec_parse_filter(ts: Seq<TokenV>, pos: int) -> Option<(FilterV, int)>
    decreases ts.len() - pos, 0int,
{
    if sym_at(ts, pos, '(') {
        match spec_parse_query(ts, pos + 1) {
            Some((q, np)) => if pos < np <= ts.len() && sym_at(ts, np, ')') {
                Some((FilterV::Parens(Box::new(q)), np + 1))
            } else {
                None
            },
            None => None,
        }
    } else {
        match val_at(ts, pos) {
            Some(attr) => match val_at(ts, pos + 2) {
                Some(v) => if kw_at(ts, pos + 1, "contains"@) {
                    Some((FilterV::Contains { attr, substr: v }, pos + 3))
                } else if kw_at(ts, pos + 1, "matches"@) || kw_at(ts, pos + 1, "like"@) {
                    if regex_ok(v) {
                        Some((FilterV::Matches { attr, pat: v }, pos + 3))
                    } else {
                        None
                    }
                } else if kw_at(ts, pos + 1, "is"@) {
                    Some((FilterV::Cmp { attr, value: v }, pos + 3))
                } else {
                    None
                },
                None => None,
            },
            None => None,
        }
    }
}

/// The rest of a conjunction after its first filter: `("and" filter)*`.
pub open spec fn spec_and_loop(ts: Seq<TokenV>, pos: int, lhs: AndV) -> Option<(AndV, int)>
    decreases ts.len() - pos, 1int,
{
    if kw_at(ts, pos, "and"@) {
        match spec_parse_filter(ts, pos + 1) {
            Some((rhs, np)) => if pos < np <= ts.len() {
                spec_and_loop(ts, np, AndV::And(Box::new(lhs), rhs))
            } else {
                None
            },
            None => None,
        }
    } else {
        Some((lhs, pos))
    }
}

/// A conjunction starting at `pos`.
pub open spec fn spec_parse_and(ts: Seq<TokenV>, pos: int) -> Option<(AndV, int)>
    decreases ts.len() - pos, 2int,
{
    match spec_parse_filter(ts, pos) {
        Some((f, np)) => if pos < np <= ts.len() {
            spec_and_loop(ts, np, AndV::Filter(f))
        } else {
            None
        },
        None => None,
    }
}

/// The rest of a disjunction after its first conjunction: `("or" and)*`.
pub open spec fn spec_or_loop(ts: Seq<TokenV>, pos: int, lhs: OrV) -> Option<(OrV, int)>
    decreases ts.len() - pos, 3int,
{
    if kw_at(ts, pos, "or"@) {
        match spec_parse_and(ts, pos + 1) {
            Some((rhs, np)) => if pos < np <= ts.len() {
                spec_or_loop(ts, np, OrV::Or(Box::new(lhs), rhs))
            } else {
                None
            },
            None => None,
        }
    } else {
        Some((lhs, pos))
    }
}

/// A disjunction starting at `pos`.
pub open spec fn spec_parse_or(ts: Seq<TokenV>, pos: int) -> Option<(OrV, int)>
    decreases ts.len() - pos, 4int,
{
    match spec_parse_and(ts, pos) {
        Some((a, np)) => if pos < np <= ts.len() {
            spec_or_loop(ts, np, OrV::And(a))
        } else {
            None
        },
        None => None,
    }
}

/// A query starting at `pos`: `all`, else the boolean grammar, else a
/// lone value read as a record name.
pub open spec fn spec_parse_query(ts: Seq<TokenV>, pos: int) -> Option<(QueryV, int)>
    decreases ts.len() - pos, 5int,
{
    if kw_at(ts, pos, "all"@) {
        Some((QueryV::All, pos + 1))
    } else {
        match val_at(ts, pos) {
            Some(v) => match spec_parse_or(ts, pos) {
                Some((o, np)) => Some((QueryV::Or(o), np)),
                None => Some((QueryV::Name(v), pos + 1)),
            },
            None => None,
        }
    }
}

/// A keyword, then one value: the shape of `history`, `import` and
/// `reveal history`.
pub open spec fn spec_kw_value(ts: Seq<TokenV>, pos: int, kw: Seq<char>) -> Option<(Seq<char>, int)> {
    if kw_at(ts, pos, kw) {
        match val_at(ts, pos + 1) {
            Some(v) => Some((v, pos + 2)),
            None => None,
        }
    } else {
        None
    }
}

/// A keyword, then two values: the shape of `copy` and `rename`.
pub open spec fn spec_kw_value_value(ts: Seq<TokenV>, pos: int, kw: Seq<char>) -> Option<
    (Seq<char>, Seq<char>, int),
> {
    if kw_at(ts, pos, kw) {
        match val_at(ts, pos + 1) {
            Some(a) => match val_at(ts, pos + 2) {
                Some(b) => Some((a, b, pos + 3)),
                None => None,
            },
            None => None,
        }
    } else {
        None
    }
}

/// A whole command starting at `pos`. The alternatives are tried in a
/// fixed order; a `set` whose assignments repeat an attribute parses as
/// nothing here (the parser reports the duplicate separately).
pub open spec fn spec_parse_cmd(ts: Seq<TokenV>, pos: int) -> Option<(CmdV, int)> {
    match spec_parse_set(ts, pos) {
        Some((name, assignments, np)) => if first_dup_attr(assignments) is None {
            Some((CmdV::SetRecord { name, assignments }, np))
        } else {
            None
        },
        None => match spec_parse_del(ts, pos) {
            Some(r) => Some(r),
            None => if kw_at(ts, pos, "show"@) {
                match spec_parse_query(ts, pos + 1) {
                    Some((q, np)) => Some((CmdV::Show(q), np)),
                    None => None,
                }
            } else {
                spec_kw_value2(ts, pos)
            },
        },
    }
}

/// The command alternatives from `reveal` on; split from
/// [`spec_parse_cmd`] only to keep each function small.
pub open spec fn spec_kw_value2(ts: Seq<TokenV>, pos: int) -> Option<(CmdV, int)> {
    if kw_at(ts, pos, "reveal"@) && kw_at(ts, pos + 1, "history"@) {
        match val_at(ts, pos + 2) {
            Some(v) => Some((CmdV::RevealHistory(v), pos + 3)),
            None => None,
        }
    } else if kw_at(ts, pos, "reveal"@) {
        match spec_parse_query(ts, pos + 1) {
            Some((q, np)) => Some((CmdV::Reveal(q), np)),
            None => None,
        }
    } else {
        match spec_kw_value_value(ts, pos, "copy"@) {
            Some((name, attr, np)) => Some((CmdV::Copy { name, attr }, np)),
            None => match spec_kw_value(ts, pos, "history"@) {
                Some((name, np)) => Some((CmdV::History(name), np)),
                None => match spec_kw_value_value(ts, pos, "rename"@) {
                    Some((old, new_name, np)) => Some((CmdV::Rename(old, new_name), np)),
                    None => match spec_kw_value(ts, pos, "import"@) {
                        Some((path, np)) => Some((CmdV::Import(path), np)),
                        None => None,
                    },
                },
            },
        }
    }
}

/// Well-formedness of a filter: `matches` patterns compile.
pub open spec fn wf_filter(f: FilterV) -> bool
    decreases f,
{
    match f {
        FilterV::Matches { attr, pat } => regex_ok(pat),
        FilterV::Parens(q) => wf_query(*q),
        _ => true,
    }
}

/// Well-formedness of a conjunction.
pub open spec fn wf_and(a: AndV) -> bool
    decreases a,
{
    match a {
        AndV::Filter(f) => wf_filter(f),
        AndV::And(l, f) => wf_and(*l) && wf_filter(f),
    }
}

/// Well-formedness of a disjunction.
pub open spec fn wf_or(o: OrV) -> bool
    decreases o,
{
    match o {
        OrV::And(a) => wf_and(a),
        OrV::Or(l, a) => wf_or(*l) && wf_and(a),
    }
}

/// Well-formedness of a query.
pub open spec fn wf_query(q: QueryV) -> bool
    decreases q,
{
    match q {
        QueryV::Or(o) => wf_or(o),
        _ => true,
    }
}

/// Well-formedness of a command: its queries are well formed and a `set`
/// has no repeated attribute.
pub open spec fn wf_cmd(c: CmdV) -> bool {
    match c {
        CmdV::SetRecord { name, assignments } => first_dup_attr(assignments) is None,
        CmdV::Show(q) => wf_query(q),
        CmdV::Reveal(q) => wf_query(q),
        _ => true,
    }
}

fn is_kw(tokens: &Vec<Token>, pos: usize, kw: &str) -> (r: bool)
    ensures
        r == kw_at(views_of(tokens@), pos as int, kw@),
        r ==> pos < tokens@.len(),
{
    proof {
        if pos < tokens@.len() {
            assert(views_of(tokens@)[pos as int] == tokens@[pos as int]@);
        }
    }
    if pos < tokens.len() {
        match &tokens[pos] {
            Token::Keyword(k) => str_eq(k.as_str(), kw),
            _ => false,
        }
    } else {
        false
    }
}

fn sym_is(tokens: &Vec<Token>, pos: usize, c: char) -> (r: bool)
    ensures
        r == sym_at(views_of(tokens@), pos as int, c),
        r ==> pos < tokens@.len(),
{
    proof {
        if pos < tokens@.len() {
            assert(views_of(tokens@)[pos as int] == tokens@[pos as int]@);
        }
    }
    if pos < tokens.len() {
        match &tokens[pos] {
            Token::Symbol(s) => *s == c,
            _ => false,
        }
    } else {
        false
    }
}

fn value_at(tokens: &Vec<Token>, pos: usize) -> (r: Option<String>)
    ensures
        match r {
            Some(s) => val_at(views_of(tokens@), pos as int) == Some(s@) && pos < tokens@.len(),
            None => val_at(views_of(tokens@), pos as int) is None,
        },
{
    proof {
        if pos < tokens@.len() {
            assert(views_of(tokens@)[pos as int] == tokens@[pos as int]@);
        }
    }
    if pos < tokens.len() {
        match &tokens[pos] {
            Token::Value(v) => Some(v.clone()),
            _ => None,
        }
    } else {
        None
    }
}

fn parse_assign(tokens: &Vec<Token>, pos: usize) -> (r: Result<(Assign, usize), ParseError>)
    requires
        pos <= tokens@.len(),
    ensures
        match r {
            Ok(p) => {
                &&& spec_parse_assign(views_of(tokens@), pos as int) == Some((p.0@, p.1 as int))
                &&& pos < p.1 <= tokens@.len()
            },
            Err(e) => {
                &&& spec_parse_assign(views_of(tokens@), pos as int) is None
                &&& ({
                    let ts = views_of(tokens@);
                    let p: int = if kw_at(ts, pos as int, "sensitive"@) || kw_at(
                        ts,
                        pos as int,
                        "secret"@,
                    ) {
                        pos as int + 1
                    } else {
                        pos as int
                    };
                    if val_at(ts, p) is None {
                        e matches ParseError::ExpectedAttr(q) && q == p
                    } else if !sym_at(ts, p + 1, '=') {
                        e matches ParseError::Expected(t, q) && t@ == TokenV::Symbol('=') && q == p
                            + 1
                    } else {
                        e matches ParseError::ExpectedValue(q) && q == p + 2
                    }
                })
            },
        },
{
    let max_pos = tokens.len();
    let (sens, p) = if is_kw(tokens, pos, "sensitive") || is_kw(tokens, pos, "secret") {
        (true, pos + 1)
    } else {
        (false, pos)
    };
    let attr = match value_at(tokens, p) {
        Some(a) => a,
        None => {
            return Err(ParseError::ExpectedAttr(p));
        },
    };
    if !sym_is(tokens, p + 1, '=') {
        return Err(ParseError::Expected(Token::Symbol('='), p + 1));
    }
    let value = match value_at(tokens, p + 2) {
        Some(v) => v,
        None => {
            return Err(ParseError::ExpectedValue(p + 2));
        },
    };
    Ok((Assign { attr, value, sensitive: sens }, p + 3))
}

fn parse_assigns(tokens: &Vec<Token>, pos: usize) -> (r: (Vec<Assign>, usize))
    requires
        pos <= tokens@.len(),
    ensures
        spec_parse_assigns(views_of(tokens@), pos as int).0 == r.0@.map_values(|a: Assign| a@),
        spec_parse_assigns(views_of(tokens@), pos as int).1 == r.1 as int,
        pos <= r.1 <= tokens@.len(),
{
    let max_pos = tokens.len();
    let ghost ts = views_of(tokens@);
    let mut out: Vec<Assign> = Vec::new();
    let mut cur: usize = pos;
    proof {
        assert(Seq::<AssignV>::empty() + spec_parse_assigns(ts, pos as int).0 =~= spec_parse_assigns(
            ts,
            pos as int,
        ).0);
        assert(out@.map_values(|a: Assign| a@) =~= Seq::<AssignV>::empty());
    }
    loop
        invariant
            pos <= cur <= max_pos,
            max_pos == tokens@.len(),
            ts == views_of(tokens@),
            spec_parse_assigns(ts, pos as int).0 == out@.map_values(|a: Assign| a@)
                + spec_parse_assigns(ts, cur as int).0,
            spec_parse_assigns(ts, pos as int).1 == spec_parse_assigns(ts, cur as int).1,
        decreases tokens@.len() - cur,
    {
        match parse_assign(tokens, cur) {
            Ok((a, np)) => {
                let ghost av = a@;
                let ghost prev = out@.map_values(|x: Assign| x@);
                out.push(a);
                proof {
                    assert(out@.map_values(|x: Assign| x@) =~= prev + seq![av]);
                    assert(prev + (seq![av] + spec_parse_assigns(ts, np as int).0) =~= (prev
                        + seq![av]) + spec_parse_assigns(ts, np as int).0);
                }
                cur = np;
            },
            Err(_) => {
                proof {
                    assert(spec_parse_assigns(ts, cur as int).0 =~= Seq::<AssignV>::empty());
                    assert(out@.map_values(|x: Assign| x@) + Seq::<AssignV>::empty() =~= out@
                        .map_values(|x: Assign| x@));
                }
                return (out, cur);
            },
        }
    }
}

/// The first attribute assigned twice in the list, scanning forward.
fn find_dup_attr(assignments: &Vec<Assign>) -> (r: Option<String>)
    ensures
        match r {
            Some(s) => first_dup_attr(assignments@.map_values(|a: Assign| a@)) == Some(s@),
            None => first_dup_attr(assignments@.map_values(|a: Assign| a@)) is None,
        },
{
    let ghost asg = assignments@.map_values(|a: Assign| a@);
    let n = assignments.len();
    let mut j: usize = 0;
    while j < n
        invariant
            j <= n,
            n == assignments@.len(),
            asg == assignments@.map_values(|a: Assign| a@),
            first_dup_attr(asg) == first_dup_attr_from(asg, j as int),
        decreases n - j,
    {
        let mut i: usize = 0;
        while i < j
            invariant
                i <= j < n,
                n == assignments@.len(),
                asg == assignments@.map_values(|a: Assign| a@),
                first_dup_attr(asg) == first_dup_attr_from(asg, j as int),
                forall|k: int| 0 <= k < i ==> asg[k].attr != asg[j as int].attr,
            decreases j - i,
        {
            if str_eq(assignments[i].attr.as_str(), assignments[j].attr.as_str()) {
                let dup = assignments[j].attr.clone();
                proof {
                    let ii = i as int;
                    let jj = j as int;
                    assert(asg.len() == assignments@.len());
                    assert(0 <= jj < asg.len());
                    assert(asg[ii] == assignments@[ii]@);
                    assert(asg[jj] == assignments@[jj]@);
                    assert(dup@ == asg[jj].attr);
                    assert(exists|k: int| 0 <= k < jj && asg[k].attr == asg[jj].attr) by {
                        assert(0 <= ii < jj && asg[ii].attr == asg[jj].attr);
                    }
                    assert(first_dup_attr_from(asg, jj) == Some(asg[jj].attr));
                    assert(first_dup_attr(asg) == Some(dup@));
                }
                return Some(dup);
            }
            i += 1;
        }
        assert(first_dup_attr_from(asg, j as int) == first_dup_attr_from(asg, j + 1));
        j += 1;
    }
    None
}

fn parse_cmd_set(tokens: &Vec<Token>, pos: usize) -> (r: Result<(Cmd, usize), ParseError>)
    requires
        pos <= tokens@.len(),
    ensures
        match r {
            Ok(p) => {
                &&& spec_parse_set(views_of(tokens@), pos as int) matches Some(t3)
                &&& first_dup_attr(t3.1) is None
                &&& p.0@ == (CmdV::SetRecord { name: t3.0, assignments: t3.1 })
                &&& p.1 == t3.2
                &&& wf_cmd(p.0@)
                &&& pos <= p.1 <= tokens@.len()
            },
            Err(e) => match spec_parse_set(views_of(tokens@), pos as int) {
                Some(t3) => {
                    &&& first_dup_attr(t3.1) matches Some(a)
                    &&& e matches ParseError::DuplicateAssignments(s, ep)
                    &&& s@ == a
                    &&& ep == t3.2
                },
                None => !(e is DuplicateAssignments) && (kw_at(
                    views_of(tokens@),
                    pos as int,
                    "set"@,
                ) && val_at(views_of(tokens@), pos as int + 1) is None ==> (
                e matches ParseError::ExpectedValue(q) && q == pos)),
            },
        },
{
    let max_pos = tokens.len();
    if !is_kw(tokens, pos, "set") {
        return Err(ParseError::Expected(Token::Keyword("set".to_owned()), pos));
    }
    let name = match value_at(tokens, pos + 1) {
        Some(n) => n,
        None => {
            return Err(ParseError::ExpectedValue(pos));
        },
    };
    let (assignments, np) = parse_assigns(tokens, pos + 2);
    match find_dup_attr(&assignments) {
        Some(attr) => Err(ParseError::DuplicateAssignments(attr, np)),
        None => Ok((Cmd::SetRecord { name, assignments }, np)),
    }
}

fn parse_values(tokens: &Vec<Token>, pos: usize) -> (r: (Vec<String>, usize))
    requires
        pos <= tokens@.len(),
    ensures
        spec_values_from(views_of(tokens@), pos as int).0 == r.0@.map_values(|s: String| s@),
        spec_values_from(views_of(tokens@), pos as int).1 == r.1 as int,
        pos <= r.1 <= tokens@.len(),
{
    let max_pos = tokens.len();
    let ghost ts = views_of(tokens@);
    let mut out: Vec<String> = Vec::new();
    let mut cur: usize = pos;
    proof {
        assert(Seq::<Seq<char>>::empty() + spec_values_from(ts, pos as int).0 =~= spec_values_from(
            ts,
            pos as int,
        ).0);
        assert(out@.map_values(|s: String| s@) =~= Seq::<Seq<char>>::empty());
    }
    loop
        invariant
            pos <= cur <= max_pos,
            max_pos == tokens@.len(),
            ts == views_of(tokens@),
            spec_values_from(ts, pos as int).0 == out@.map_values(|s: String| s@)
                + spec_values_from(ts, cur as int).0,
            spec_values_from(ts, pos as int).1 == spec_values_from(ts, cur as int).1,
        decreases tokens@.len() - cur,
    {
        match value_at(tokens, cur) {
            Some(v) => {
                let ghost vv = v@;
                let ghost prev = out@.map_values(|s: String| s@);
                out.push(v);
                proof {
                    assert(out@.map_values(|s: String| s@) =~= prev + seq![vv]);
                    assert(prev + (seq![vv] + spec_values_from(ts, cur + 1).0) =~= (prev
                        + seq![vv]) + spec_values_from(ts, cur + 1).0);
                }
                cur = cur + 1;
            },
            None => {
                proof {
                    assert(out@.map_values(|s: String| s@) + Seq::<Seq<char>>::empty() =~= out@
                        .map_values(|s: String| s@));
                }
                return (out, cur);
            },
        }
    }
}

fn parse_cmd_del(tokens: &Vec<Token>, pos: usize) -> (r: Result<(Cmd, usize), ParseError>)
    requires
        pos <= tokens@.len(),
    ensures
        match r {
            Ok(p) => {
                &&& spec_parse_del(views_of(tokens@), pos as int) == Some((p.0@, p.1 as int))
                &&& wf_cmd(p.0@)
                &&& pos <= p.1 <= tokens@.len()
            },
            Err(_) => spec_parse_del(views_of(tokens@), pos as int) is None,
        },
{
    let max_pos = tokens.len();
    if !(is_kw(tokens, pos, "del") || is_kw(tokens, pos, "delete")) {
        let mut expected: Vec<Token> = Vec::new();
        expected.push(Token::Keyword("del".to_owned()));
        expected.push(Token::Keyword("delete".to_owned()));
        return Err(ParseError::ExpectedOneOf(expected, pos));
    }
    let name = match value_at(tokens, pos + 1) {
        Some(n) => n,
        None => {
            return Err(ParseError::ExpectedValue(pos + 1));
        },
    };
    let (attrs, np) = parse_values(tokens, pos + 2);
    Ok((Cmd::Del { name, attrs }, np))
}

pub fn parse_filter(tokens: &Vec<Token>, pos: usize) -> (r: Result<(Filter, usize), ParseError>)
    requires
        pos <= tokens@.len(),
    ensures
        match r {
            Ok(p) => {
                &&& spec_parse_filter(views_of(tokens@), pos as int) == Some((p.0@, p.1 as int))
                &&& wf_filter(p.0@)
                &&& pos < p.1 <= tokens@.len()
            },
            Err(e) => {
                &&& spec_parse_filter(views_of(tokens@), pos as int) is None
                &&& ({
                    let ts = views_of(tokens@);
                    let third = val_at(ts, pos as int + 2);
                    (!sym_at(ts, pos as int, '(') && val_at(ts, pos as int) is Some && (kw_at(
                        ts,
                        pos as int + 1,
                        "matches"@,
                    ) || kw_at(ts, pos as int + 1, "like"@)) && third is Some && !regex_ok(
                        third->Some_0,
                    )) ==> (e matches ParseError::InvalidRegex(q) && q == pos + 2)
                })
            },
        },
    decreases tokens@.len() - pos, 0int,
{
    let max_pos = tokens.len();
    if sym_is(tokens, pos, '(') {
        match parse_query(tokens, pos + 1) {
            Ok((q, np)) => {
                if sym_is(tokens, np, ')') {
                    Ok((Filter::Parens(Box::new(q)), np + 1))
                } else {
                    Err(ParseError::Expected(Token::Symbol(')'), np))
                }
            },
            Err(e) => Err(e),
        }
    } else {
        let attr = match value_at(tokens, pos) {
            Some(a) => a,
            None => {
                return Err(ParseError::ExpectedAttr(pos));
            },
        };
        if tokens.len() - pos < 3 {
            return Err(ParseError::SyntaxError(pos, "cannot parse filter"));
        }
        let val = match value_at(tokens, pos + 2) {
            Some(v) => v,
            None => {
                return Err(ParseError::ExpectedValue(pos + 2));
            },
        };
        if is_kw(tokens, pos + 1, "contains") {
            Ok((Filter::Contains(Contains { attr, substr: val }), pos + 3))
        } else if is_kw(tokens, pos + 1, "matches") || is_kw(tokens, pos + 1, "like") {
            if regex_is_valid(val.as_str()) {
                Ok((Filter::Matches(Matches { attr, pat: val }), pos + 3))
            } else {
                Err(ParseError::InvalidRegex(pos + 2))
            }
        } else if is_kw(tokens, pos + 1, "is") {
            Ok((Filter::Cmp(Is { attr, value: val }), pos + 3))
        } else {
            Err(ParseError::SyntaxError(pos, "cannot parse filter"))
        }
    }
}

pub fn parse_and(tokens: &Vec<Token>, pos: usize) -> (r: Result<(And, usize), ParseError>)
    requires
        pos <= tokens@.len(),
    ensures
        match r {
            Ok(p) => {
                &&& spec_parse_and(views_of(tokens@), pos as int) == Some((p.0@, p.1 as int))
                &&& wf_and(p.0@)
                &&& pos < p.1 <= tokens@.len()
            },
            Err(_) => spec_parse_and(views_of(tokens@), pos as int) is None,
        },
    decreases tokens@.len() - pos, 2int,
{
    let max_pos = tokens.len();
    let ghost ts = views_of(tokens@);
    let first = match parse_filter(tokens, pos) {
        Ok(p) => p,
        Err(e) => {
            return Err(e);
        },
    };
    let mut lhs = And::Filter(first.0);
    let mut cur = first.1;
    loop
        invariant
            pos < cur <= max_pos,
            max_pos == tokens@.len(),
            ts == views_of(tokens@),
            wf_and(lhs@),
            spec_parse_and(ts, pos as int) == spec_and_loop(ts, cur as int, lhs@),
        decreases tokens@.len() - cur,
    {
        if is_kw(tokens, cur, "and") {
            match parse_filter(tokens, cur + 1) {
                Ok((rhs, np)) => {
                    lhs = And::And(Box::new(lhs), rhs);
                    cur = np;
                },
                Err(e) => {
                    return Err(e);
                },
            }
        } else {
            return Ok((lhs, cur));
        }
    }
}

pub fn parse_or(tokens: &Vec<Token>, pos: usize) -> (r: Result<(Or, usize), ParseError>)
    requires
        pos <= tokens@.len(),
    ensures
        match r {
            Ok(p) => {
                &&& spec_parse_or(views_of(tokens@), pos as int) == Some((p.0@, p.1 as int))
                &&& wf_or(p.0@)
                &&& pos < p.1 <= tokens@.len()
            },
            Err(_) => spec_parse_or(views_of(tokens@), pos as int) is None,
        },
    decreases tokens@.len() - pos, 4int,
{
    let max_pos = tokens.len();
    let ghost ts = views_of(tokens@);
    let first = match parse_and(tokens, pos) {
        Ok(p) => p,
        Err(e) => {
            return Err(e);
        },
    };
    let mut lhs = Or::And(first.0);
    let mut cur = first.1;
    loop
        invariant
            pos < cur <= max_pos,
            max_pos == tokens@.len(),
            ts == views_of(tokens@),
            wf_or(lhs@),
            spec_parse_or(ts, pos as int) == spec_or_loop(ts, cur as int, lhs@),
        decreases tokens@.len() - cur,
    {
        if is_kw(tokens, cur, "or") {
            match parse_and(tokens, cur + 1) {
                Ok((rhs, np)) => {
                    lhs = Or::Or(Box::new(lhs), rhs);
                    cur = np;
                },
                Err(e) => {
                    return Err(e);
                },
            }
        } else {
            return Ok((lhs, cur));
        }
    }
}

pub fn parse_query(tokens: &Vec<Token>, pos: usize) -> (r: Result<(Query, usize), ParseError>)
    requires
        pos <= tokens@.len(),
    ensures
        match r {
            Ok(p) => {
                &&& spec_parse_query(views_of(tokens@), pos as int) == Some((p.0@, p.1 as int))
                &&& wf_query(p.0@)
                &&& pos < p.1 <= tokens@.len()
            },
            Err(_) => spec_parse_query(views_of(tokens@), pos as int) is None,
        },
    decreases tokens@.len() - pos, 5int,
{
    let max_pos = tokens.len();
    if is_kw(tokens, pos, "all") {
        return Ok((Query::All, pos + 1));
    }
    match value_at(tokens, pos) {
        None => Err(ParseError::SyntaxError(pos, "unable to parse query")),
        Some(v) => match parse_or(tokens, pos) {
            Ok((o, np)) => Ok((Query::Or(o), np)),
            Err(_) => Ok((Query::Name(v), pos + 1)),
        },
    }
}

/// The keyword words of the trailing command alternatives are pairwise
/// distinct; the parser uses this to rule the later alternatives out once
/// an earlier keyword has matched.
proof fn lemma_kw_distinct()
    ensures
        "copy"@ != "history"@,
        "copy"@ != "rename"@,
        "copy"@ != "import"@,
        "history"@ != "rename"@,
        "history"@ != "import"@,
        "rename"@ != "import"@,
{
    reveal_strlit("copy");
    reveal_strlit("history");
    reveal_strlit("rename");
    reveal_strlit("import");
    assert("copy"@.len() == 4);
    assert("history"@.len() == 7);
    assert("rename"@.len() == 6);
    assert("import"@.len() == 6);
    assert("rename"@[0] == 'r');
    assert("import"@[0] == 'i');
}

pub fn parse_cmd(tokens: &Vec<Token>, pos: usize) -> (r: Result<(Cmd, usize), ParseError>)
    requires
        pos <= tokens@.len(),
    ensures
        match r {
            Ok(p) => {
                &&& spec_parse_cmd(views_of(tokens@), pos as int) == Some((p.0@, p.1 as int))
                &&& wf_cmd(p.0@)
                &&& pos <= p.1 <= tokens@.len()
            },
            Err(e) => {
                &&& spec_parse_cmd(views_of(tokens@), pos as int) is None
                &&& match spec_parse_set(views_of(tokens@), pos as int) {
                    Some(t3) => {
                        &&& first_dup_attr(t3.1) matches Some(a)
                        &&& e matches ParseError::DuplicateAssignments(s, ep)
                        &&& s@ == a
                        &&& ep == t3.2
                    },
                    None => true,
                }
            },
        },
{
    let max_pos = tokens.len();
    let ghost ts = views_of(tokens@);
    proof {
        lemma_kw_distinct();
    }
    match parse_cmd_set(tokens, pos) {
        Ok(p) => {
            return Ok(p);
        },
        Err(e) => {
            if let ParseError::DuplicateAssignments(s, ep) = e {
                return Err(ParseError::DuplicateAssignments(s, ep));
            }
        },
    }
    match parse_cmd_del(tokens, pos) {
        Ok(p) => {
            return Ok(p);
        },
        Err(_) => {},
    }
    if is_kw(tokens, pos, "show") {
        return match parse_query(tokens, pos + 1) {
            Ok((q, np)) => Ok((Cmd::Show(q), np)),
            Err(e) => Err(e),
        };
    }
    if is_kw(tokens, pos, "reveal") {
        if is_kw(tokens, pos + 1, "history") {
            return match value_at(tokens, pos + 2) {
                Some(name) => Ok((Cmd::RevealHistory(name), pos + 3)),
                None => Err(ParseError::ExpectedValue(pos + 2)),
            };
        }
        return match parse_query(tokens, pos + 1) {
            Ok((q, np)) => Ok((Cmd::Reveal(q), np)),
            Err(e) => Err(e),
        };
    }
    if is_kw(tokens, pos, "copy") {
        return match value_at(tokens, pos + 1) {
            Some(name) => match value_at(tokens, pos + 2) {
                Some(attr) => Ok((Cmd::Copy { name, attr }, pos + 3)),
                None => Err(ParseError::ExpectedValue(pos + 2)),
            },
            None => Err(ParseError::ExpectedValue(pos + 1)),
        };
    }
    if is_kw(tokens, pos, "history") {
        return match value_at(tokens, pos + 1) {
            Some(name) => Ok((Cmd::History(name), pos + 2)),
            None => Err(ParseError::ExpectedValue(pos + 1)),
        };
    }
    if is_kw(tokens, pos, "rename") {
        return match value_at(tokens, pos + 1) {
            Some(old) => match value_at(tokens, pos + 2) {
                Some(new_name) => Ok((Cmd::Rename(old, new_name), pos + 3)),
                None => Err(ParseError::ExpectedValue(pos + 2)),
            },
            None => Err(ParseError::ExpectedValue(pos + 1)),
        };
    }
    if is_kw(tokens, pos, "import") {
        return match value_at(tokens, pos + 1) {
            Some(path) => Ok((Cmd::Import(path), pos + 2)),
            None => Err(ParseError::ExpectedValue(pos + 1)),
        };
    }
    Err(ParseError::SyntaxError(pos, "cannot parse cmd"))
}

/// Parses a whole token stream into one command. Leftover tokens are an
/// [`ParseError::IncompleteParse`]; a `set` that assigns the same
/// attribute twice is a [`ParseError::DuplicateAssignments`].
pub fn parse(tokens: &Vec<Token>) -> (r: Result<Cmd, ParseError>)
    ensures
        match r {
            Ok(c) => {
                &&& spec_parse_cmd(views_of(tokens@), 0) == Some((c@, tokens@.len() as int))
                &&& wf_cmd(c@)
            },
            Err(e) => {
                &&& (spec_parse_cmd(views_of(tokens@), 0) matches Some(p) ==> {
                    &&& p.1 < tokens@.len()
                    &&& e matches ParseError::IncompleteParse(q)
                    &&& q == p.1
                })
                &&& match spec_parse_set(views_of(tokens@), 0) {
                    Some(t3) => first_dup_attr(t3.1) matches Some(a) ==> {
                        &&& e matches ParseError::DuplicateAssignments(s, ep)
                        &&& s@ == a
                        &&& ep == t3.2
                    },
                    None => true,
                }
            },
        },
{
    match parse_cmd(tokens, 0) {
        Ok((cmd, np)) => {
            if np < tokens.len() {
                Err(ParseError::IncompleteParse(np))
            } else {
                Ok(cmd)
            }
        },
        Err(e) => Err(e),
    }
}

/// The canonical text of an assignment.
pub open spec fn text_of_assign(a: AssignV) -> Seq<char> {
    (if a.sensitive {
        "sensitive "@
    } else {
        Seq::<char>::empty()
    }) + a.attr + " = '"@ + a.value + "'"@
}

/// The canonical text of an assignment list, each preceded by a space.
pub open spec fn text_of_assigns(asg: Seq<AssignV>) -> Seq<char>
    decreases asg.len(),
{
    if asg.len() == 0 {
        Seq::empty()
    } else {
        " "@ + text_of_assign(asg[0]) + text_of_assigns(asg.subrange(1, asg.len() as int))
    }
}

/// The canonical text of a word list, each preceded by a space.
pub open spec fn text_of_words(ws: Seq<Seq<char>>) -> Seq<char>
    decreases ws.len(),
{
    if ws.len() == 0 {
        Seq::empty()
    } else {
        " "@ + ws[0] + text_of_words(ws.subrange(1, ws.len() as int))
    }
}

/// The canonical text of a filter.
pub open spec fn text_of_filter(f: FilterV) -> Seq<char>
    decreases f,
{
    match f {
        FilterV::Contains { attr, substr } => attr + " contains '"@ + substr + "'"@,
        FilterV::Matches { attr, pat } => attr + " matches '"@ + pat + "'"@,
        FilterV::Cmp { attr, value } => attr + " is '"@ + value + "'"@,
        FilterV::Parens(q) => "("@ + text_of_query(*q) + ")"@,
    }
}

/// The canonical text of a conjunction, parenthesized at each join.
pub open spec fn text_of_and(a: AndV) -> Seq<char>
    decreases a,
{
    match a {
        AndV::Filter(f) => text_of_filter(f),
        AndV::And(l, f) => "("@ + text_of_and(*l) + " and "@ + text_of_filter(f) + ")"@,
    }
}

/// The canonical text of a disjunction, parenthesized at each join.
pub open spec fn text_of_or(o: OrV) -> Seq<char>
    decreases o,
{
    match o {
        OrV::And(a) => text_of_and(a),
        OrV::Or(l, a) => "("@ + text_of_or(*l) + " or "@ + text_of_and(a) + ")"@,
    }
}

/// The canonical text of a query.
pub open spec fn text_of_query(q: QueryV) -> Seq<char>
    decreases q,
{
    match q {
        QueryV::Or(o) => text_of_or(o),
        QueryV::Name(n) => "'"@ + n + "'"@,
        QueryV::All => "all"@,
    }
}

/// The canonical text of a command, in the quoted form the tests
/// compare against.
pub open spec fn text_of_cmd(c: CmdV) -> Seq<char> {
    match c {
        CmdV::SetRecord { name, assignments } => "set '"@ + name + "'"@ + text_of_assigns(
            assignments,
        ),
        CmdV::Del { name, attrs } => "del '"@ + name + "'"@ + text_of_words(attrs),
        CmdV::Show(q) => "show "@ + text_of_query(q),
        CmdV::Reveal(q) => "reveal "@ + text_of_query(q),
        CmdV::Copy { name, attr } => "copy '"@ + name + "' '"@ + attr + "'"@,
        CmdV::History(n) => "history "@ + n,
        CmdV::RevealHistory(n) => "reveal history "@ + n,
        CmdV::Rename(o, n) => "rename '"@ + o + "' '"@ + n + "'"@,
        CmdV::Import(p) => "import '"@ + p + "'"@,
    }
}

/// Appends a single-quoted copy of `s`.
fn push_quoted(buf: &mut String, s: &str)
    ensures
        final(buf)@ == old(buf)@ + "'"@ + s@ + "'"@,
{
    buf.append("'");
    buf.append(s);
    buf.append("'");
    assert(final(buf)@ =~= old(buf)@ + "'"@ + s@ + "'"@);
}

impl Assign {
    /// Renders the assignment as command text.
    pub fn to_text(&self) -> (r: String)
        ensures
            r@ == text_of_assign(self@),
    {
        let mut buf = String::new();
        if self.sensitive {
            buf.append("sensitive ");
        }
        buf.append(self.attr.as_str());
        buf.append(" = '");
        buf.append(self.value.as_str());
        buf.append("'");
        assert(buf@ =~= text_of_assign(self@));
        buf
    }
}

impl Filter {
    /// Renders the filter as command text.
    pub fn to_text(&self) -> (r: String)
        ensures
            r@ == text_of_filter(self@),
        decreases self,
    {
        let mut buf = String::new();
        match self {
            Filter::Contains(c) => {
                buf.append(c.attr.as_str());
                buf.append(" contains '");
                buf.append(c.substr.as_str());
                buf.append("'");
                assert(buf@ =~= text_of_filter(self@));
            },
            Filter::Matches(m) => {
                buf.append(m.attr.as_str());
                buf.append(" matches '");
                buf.append(m.pat.as_str());
                buf.append("'");
                assert(buf@ =~= text_of_filter(self@));
            },
            Filter::Cmp(i) => {
                buf.append(i.attr.as_str());
                buf.append(" is '");
                buf.append(i.value.as_str());
                buf.append("'");
                assert(buf@ =~= text_of_filter(self@));
            },
            Filter::Parens(q) => {
                buf.append("(");
                let inner = q.to_text();
                buf.append(inner.as_str());
                buf.append(")");
                assert(buf@ =~= text_of_filter(self@));
            },
        }
        buf
    }
}

impl And {
    /// Renders the conjunction as command text.
    pub fn to_text(&self) -> (r: String)
        ensures
            r@ == text_of_and(self@),
        decreases self,
    {
        match self {
            And::Filter(f) => f.to_text(),
            And::And(l, f) => {
                let mut buf = String::new();
                buf.append("(");
                let lt = l.to_text();
                buf.append(lt.as_str());
                buf.append(" and ");
                let ft = f.to_text();
                buf.append(ft.as_str());
                buf.append(")");
                assert(buf@ =~= text_of_and(self@));
                buf
            },
        }
    }
}

impl Or {
    /// Renders the disjunction as command text.
    pub fn to_text(&self) -> (r: String)
        ensures
            r@ == text_of_or(self@),
        decreases self,
    {
        match self {
            Or::And(a) => a.to_text(),
            Or::Or(l, a) => {
                let mut buf = String::new();
                buf.append("(");
                let lt = l.to_text();
                buf.append(lt.as_str());
                buf.append(" or ");
                let at = a.to_text();
                buf.append(at.as_str());
                buf.append(")");
                assert(buf@ =~= text_of_or(self@));
                buf
            },
        }
    }
}

impl Query {
    /// Renders the query as command text.
    pub fn to_text(&self) -> (r: String)
        ensures
            r@ == text_of_query(self@),
        decreases self,
    {
        match self {
            Query::Or(o) => o.to_text(),
            Query::Name(n) => {
                let mut buf = String::new();
                push_quoted(&mut buf, n.as_str());
                assert(buf@ =~= text_of_query(self@));
                buf
            },
            Query::All => {
                let mut buf = String::new();
                buf.append("all");
                assert(buf@ =~= text_of_query(self@));
                buf
            },
        }
    }
}

impl Cmd {
    /// Renders the command back as text, in the canonical quoted form.
    pub fn to_text(&self) -> (r: String)
        ensures
            r@ == text_of_cmd(self@),
    {
        let mut buf = String::new();
        match self {
            Cmd::SetRecord { name, assignments } => {
                let ghost asgv = assignments@.map_values(|a: Assign| a@);
                buf.append("set '");
                buf.append(name.as_str());
                buf.append("'");
                let n = assignments.len();
                let mut i: usize = 0;
                proof {
                    assert(buf@ =~= "set '"@ + name@ + "'"@);
                    assert(asgv.subrange(0, asgv.len() as int) =~= asgv);
                }
                while i < n
                    invariant
                        i <= n,
                        n == assignments@.len(),
                        asgv == assignments@.map_values(|a: Assign| a@),
                        buf@ + text_of_assigns(asgv.subrange(i as int, asgv.len() as int)) == (
                        "set '"@ + self@->SetRecord_name + "'"@) + text_of_assigns(asgv),
                        self@ matches CmdV::SetRecord { name: sn, assignments: sa } && sa == asgv,
                    decreases n - i,
                {
                    let ghost rest = asgv.subrange(i as int, asgv.len() as int);
                    proof {
                        assert(asgv[i as int] == assignments@[i as int]@);
                        assert(rest[0] == asgv[i as int]);
                        assert(rest.subrange(1, rest.len() as int) =~= asgv.subrange(
                            i + 1,
                            asgv.len() as int,
                        ));
                    }
                    buf.append(" ");
                    let at = assignments[i].to_text();
                    buf.append(at.as_str());
                    proof {
                        assert(text_of_assigns(rest) == " "@ + text_of_assign(asgv[i as int])
                            + text_of_assigns(asgv.subrange(i + 1, asgv.len() as int)));
                    }
                    i += 1;
                }
                proof {
                    assert(text_of_assigns(asgv.subrange(n as int, asgv.len() as int))
                        =~= Seq::<char>::empty());
                    assert(buf@ =~= buf@ + Seq::<char>::empty());
                }
            },
            Cmd::Del { name, attrs } => {
                let ghost wsv = attrs@.map_values(|s: String| s@);
                buf.append("del '");
                buf.append(name.as_str());
                buf.append("'");
                let n = attrs.len();
                let mut i: usize = 0;
                proof {
                    assert(buf@ =~= "del '"@ + name@ + "'"@);
                    assert(wsv.subrange(0, wsv.len() as int) =~= wsv);
                }
                while i < n
                    invariant
                        i <= n,
                        n == attrs@.len(),
                        wsv == attrs@.map_values(|s: String| s@),
                        buf@ + text_of_words(wsv.subrange(i as int, wsv.len() as int)) == ("del '"@
                            + self@->Del_name + "'"@) + text_of_words(wsv),
                        self@ matches CmdV::Del { name: dn, attrs: da } && da == wsv,
                    decreases n - i,
                {
                    let ghost rest = wsv.subrange(i as int, wsv.len() as int);
                    proof {
                        assert(wsv[i as int] == attrs@[i as int]@);
                        assert(rest[0] == wsv[i as int]);
                        assert(rest.subrange(1, rest.len() as int) =~= wsv.subrange(
                            i + 1,
                            wsv.len() as int,
                        ));
                    }
                    buf.append(" ");
                    buf.append(attrs[i].as_str());
                    proof {
                        assert(text_of_words(rest) == " "@ + wsv[i as int] + text_of_words(
                            wsv.subrange(i + 1, wsv.len() as int),
                        ));
                    }
                    i += 1;
                }
                proof {
                    assert(text_of_words(wsv.subrange(n as int, wsv.len() as int))
                        =~= Seq::<char>::empty());
                    assert(buf@ =~= buf@ + Seq::<char>::empty());
                }
            },
            Cmd::Show(q) => {
                buf.append("show ");
                let qt = q.to_text();
                buf.append(qt.as_str());
            },
            Cmd::Reveal(q) => {
                buf.append("reveal ");
                let qt = q.to_text();
                buf.append(qt.as_str());
            },
            Cmd::Copy { name, attr } => {
                buf.append("copy '");
                buf.append(name.as_str());
                buf.append("' '");
                buf.append(attr.as_str());
                buf.append("'");
                assert(buf@ =~= text_of_cmd(self@));
            },
            Cmd::History(n) => {
                buf.append("history ");
                buf.append(n.as_str());
            },
            Cmd::RevealHistory(n) => {
                buf.append("reveal history ");
                buf.append(n.as_str());
            },
            Cmd::Rename(o, n) => {
                buf.append("rename '");
                buf.append(o.as_str());
                buf.append("' '");
                buf.append(n.as_str());
                buf.append("'");
                assert(buf@ =~= text_of_cmd(self@));
            },
            Cmd::Import(p) => {
                buf.append("import '");
                buf.append(p.as_str());
                buf.append("'");
                assert(buf@ =~= text_of_cmd(self@));
            },
        }
        assert(buf@ =~= text_of_cmd(self@));
        buf
    }
}

} // verus!
