//! The evaluator: one command line in, one store mutation and a rendered
//! result out.
//!
//! `eval` lexes and parses the line and dispatches on the command. A
//! failed lex or parse changes nothing. Results render as display lines:
//! records sort by name, history entries newest first, fields by
//! attribute; `show` and `history` mask sensitive values with `*****`,
//! `reveal` never masks. An `import` command only names the file here;
//! the caller reads it and hands its text to [`import_content`], which
//! applies each non-blank line as a `set` command and stops at the first
//! malformed line, keeping what was already applied.

use vstd::prelude::*;
use vstd::string::*;
use crate::chars::str_eq;
use crate::lex::{lex, spec_lex, LexError, TokenV};
use crate::outside::{clipboard_set_text, fmt_datetime};
use crate::parse::{
    parse, spec_parse_cmd, wf_cmd, Assign, AssignV, Cmd, CmdV, ParseError, Query, QueryV,
};
use crate::sorting::{
    sort_entries_desc, sort_entries_desc_s, sort_fields, sort_fields_s, sort_records,
    sort_records_s,
};
use crate::store::{
    clone_fields, field_of, find_rec, has_name, remove_attrs_post, set_post, spec_get,
    spec_history, EntryV, Field, FieldV, HistoryEntry, Record, RecordV, RenameStatus, Store,
};

verus! {

/// Why a line failed to import: the 1-based line number, the line
/// itself, and the lex or parse error it raised.
#[derive(Debug)]
pub enum ImportError {
    MalformedLine { line: usize, content: String, cause: Box<EvalError> },
}

/// Why a command failed before touching the store.
#[derive(Debug)]
pub enum EvalError {
    Lex(LexError),
    Parse(ParseError),
    Import(ImportError),
}

/// The result of one evaluated command, ready to render.
pub enum Evaluation {
    SetRecord,
    Del(Option<Record>),
    Show(Vec<Record>),
    Reveal(Vec<Record>),
    Copy(bool),
    History(Vec<HistoryEntry>),
    RevealHistory(Vec<HistoryEntry>),
    Import(String),
    Rename(RenameStatus, String, String),
}

/// One rendered field: ` attr='value'`, or ` attr=*****` when masked.
pub open spec fn fmt_field_s(f: FieldV, mask: bool) -> Seq<char> {
    if mask && f.sensitive {
        " "@ + f.attr + "=*****"@
    } else {
        " "@ + f.attr + "='"@ + f.value + "'"@
    }
}

/// A rendered field list, in the order given.
pub open spec fn fmt_fields_s(fs: Seq<FieldV>, mask: bool) -> Seq<char>
    decreases fs.len(),
{
    if fs.len() == 0 {
        Seq::empty()
    } else {
        fmt_field_s(fs[0], mask) + fmt_fields_s(fs.subrange(1, fs.len() as int), mask)
    }
}

/// A rendered record: its quoted name, then its fields sorted by
/// attribute.
pub open spec fn fmt_record_s(r: RecordV, mask: bool) -> Seq<char> {
    "'"@ + r.name + "'"@ + fmt_fields_s(sort_fields_s(r.fields), mask)
}

/// The display lines of a record list: sorted by name, one line each.
pub open spec fn lines_of_records(rs: Seq<RecordV>, mask: bool) -> Seq<Seq<char>> {
    sort_records_s(rs).map_values(|r: RecordV| fmt_record_s(r, mask))
}

/// A rendered history entry: some parenthesized timestamp text (it
/// depends on the machine's time zone), then the snapshot's fields sorted
/// by attribute.
pub open spec fn is_history_line(line: Seq<char>, e: EntryV, mask: bool) -> bool {
    exists|p: Seq<char>|
        line == #[trigger] (("("@ + p) + (")"@ + fmt_fields_s(sort_fields_s(e.fields), mask)))
}

/// The display lines of a history: newest entry first, one line each.
pub open spec fn history_lines_ok(lines: Seq<Seq<char>>, h: Seq<EntryV>, mask: bool) -> bool {
    let sorted = sort_entries_desc_s(h);
    lines.len() == sorted.len() && (forall|i: int|
        0 <= i < sorted.len() ==> is_history_line(#[trigger] lines[i], sorted[i], mask))
}

/// The line a rename renders.
pub open spec fn rename_line(st: RenameStatus, old_name: Seq<char>, new_name: Seq<char>) -> Seq<
    char,
> {
    match st {
        RenameStatus::OldNameNotFound => "'"@ + old_name + "' not found!"@,
        RenameStatus::NewNameAlreadyExists => "'"@ + new_name + "' already exists!"@,
        RenameStatus::Successful => "Renamed!"@,
    }
}

/// Appends one rendered field.
fn push_field(buf: &mut String, f: &Field, mask: bool)
    ensures
        final(buf)@ == old(buf)@ + fmt_field_s(f@, mask),
{
    if mask && f.sensitive {
        buf.append(" ");
        buf.append(f.attr.as_str());
        buf.append("=*****");
        assert(final(buf)@ =~= old(buf)@ + fmt_field_s(f@, mask));
    } else {
        buf.append(" ");
        buf.append(f.attr.as_str());
        buf.append("='");
        buf.append(f.value.as_str());
        buf.append("'");
        assert(final(buf)@ =~= old(buf)@ + fmt_field_s(f@, mask));
    }
}

/// Appends the rendering of a sorted field list.
fn push_fields(buf: &mut String, fields: Vec<Field>, mask: bool)
    ensures
        final(buf)@ == old(buf)@ + fmt_fields_s(fields@.map_values(|f: Field| f@), mask),
{
    let ghost fv = fields@.map_values(|f: Field| f@);
    let ghost start = buf@;
    let n = fields.len();
    let mut i: usize = 0;
    proof {
        assert(fv.subrange(0, fv.len() as int) =~= fv);
    }
    while i < n
        invariant
            i <= n,
            n == fields@.len(),
            fv == fields@.map_values(|f: Field| f@),
            start + fmt_fields_s(fv, mask) == buf@ + fmt_fields_s(
                fv.subrange(i as int, fv.len() as int),
                mask,
            ),
        decreases n - i,
    {
        let ghost rest = fv.subrange(i as int, fv.len() as int);
        proof {
            assert(fv[i as int] == fields@[i as int]@);
            assert(rest[0] == fv[i as int]);
            assert(rest.subrange(1, rest.len() as int) =~= fv.subrange(i + 1, fv.len() as int));
        }
        push_field(buf, &fields[i], mask);
        proof {
            assert((buf@ + fmt_fields_s(fv.subrange(i + 1, fv.len() as int), mask)) =~= start
                + fmt_fields_s(fv, mask)) by {
                assert(fmt_fields_s(rest, mask) == fmt_field_s(fv[i as int], mask) + fmt_fields_s(
                    fv.subrange(i + 1, fv.len() as int),
                    mask,
                ));
            }
        }
        i += 1;
    }
    proof {
        assert(fmt_fields_s(fv.subrange(n as int, fv.len() as int), mask) =~= Seq::<char>::empty());
        assert(buf@ =~= buf@ + Seq::<char>::empty());
        assert(buf@ =~= start + fmt_fields_s(fv, mask));
    }
}

/// Renders one record, masking sensitive values when asked to.
pub fn fmt_record(rec: &Record, mask: bool) -> (r: String)
    ensures
        r@ == fmt_record_s(rec@, mask),
{
    let mut buf = String::new();
    buf.append("'");
    buf.append(rec.name.as_str());
    buf.append("'");
    let sorted = sort_fields(clone_fields(&rec.fields));
    push_fields(&mut buf, sorted, mask);
    assert(buf@ =~= fmt_record_s(rec@, mask));
    buf
}

/// Renders one history entry, masking sensitive values when asked to.
pub fn fmt_history(entry: &HistoryEntry, mask: bool) -> (r: String)
    ensures
        is_history_line(r@, entry@, mask),
{
    let mut buf = String::new();
    buf.append("(");
    let ts = fmt_datetime(entry.datetime);
    let ghost tsv = ts@;
    buf.append(ts.as_str());
    buf.append(")");
    let sorted = sort_fields(clone_fields(&entry.fields));
    push_fields(&mut buf, sorted, mask);
    proof {
        assert(buf@ =~= ("("@ + tsv) + (")"@ + fmt_fields_s(
            sort_fields_s(entry@.fields),
            mask,
        )));
    }
    buf
}

/// Renders a record list: sorted by name, one line per record.
fn record_lines(records: Vec<Record>, mask: bool) -> (r: Vec<String>)
    ensures
        r@.map_values(|s: String| s@) == lines_of_records(
            records@.map_values(|x: Record| x@),
            mask,
        ),
{
    let ghost rv = records@.map_values(|x: Record| x@);
    let sorted = sort_records(records);
    let ghost sv = sorted@.map_values(|x: Record| x@);
    let n = sorted.len();
    let mut out: Vec<String> = Vec::new();
    let mut i: usize = 0;
    while i < n
        invariant
            i <= n,
            n == sorted@.len(),
            sv == sorted@.map_values(|x: Record| x@),
            out@.len() == i,
            forall|j: int| 0 <= j < i ==> (#[trigger] out@[j])@ == fmt_record_s(sv[j], mask),
        decreases n - i,
    {
        proof {
            assert(sv[i as int] == sorted@[i as int]@);
        }
        let line = fmt_record(&sorted[i], mask);
        out.push(line);
        i += 1;
    }
    proof {
        assert(out@.map_values(|s: String| s@) =~= sv.map_values(
            |r: RecordV| fmt_record_s(r, mask),
        ));
    }
    out
}

/// Renders a history: newest entry first, one line per snapshot.
fn history_lines(history: Vec<HistoryEntry>, mask: bool) -> (r: Vec<String>)
    ensures
        history_lines_ok(
            r@.map_values(|s: String| s@),
            history@.map_values(|h: HistoryEntry| h@),
            mask,
        ),
{
    let ghost hv = history@.map_values(|h: HistoryEntry| h@);
    let sorted = sort_entries_desc(history);
    let ghost sv = sorted@.map_values(|h: HistoryEntry| h@);
    let n = sorted.len();
    let mut out: Vec<String> = Vec::new();
    let mut i: usize = 0;
    while i < n
        invariant
            i <= n,
            n == sorted@.len(),
            sv == sorted@.map_values(|h: HistoryEntry| h@),
            out@.len() == i,
            forall|j: int|
                0 <= j < i ==> is_history_line((#[trigger] out@[j])@, sv[j], mask),
        decreases n - i,
    {
        proof {
            assert(sv[i as int] == sorted@[i as int]@);
        }
        let line = fmt_history(&sorted[i], mask);
        out.push(line);
        i += 1;
    }
    proof {
        let lv = out@.map_values(|s: String| s@);
        assert forall|j: int| 0 <= j < sv.len() implies is_history_line(
            #[trigger] lv[j],
            sv[j],
            mask,
        ) by {
            assert(lv[j] == out@[j]@);
        }
    }
    out
}

impl Evaluation {
    /// The user-facing lines of this result, in display order.
    pub fn lines(self) -> (r: Vec<String>)
        ensures
            match self {
                Evaluation::SetRecord => r@.len() == 0,
                Evaluation::Del(o) => match o {
                    Some(rec) => r@.map_values(|s: String| s@) == seq![
                        fmt_record_s(rec@, true),
                    ],
                    None => r@.len() == 0,
                },
                Evaluation::Show(recs) => r@.map_values(|s: String| s@) == lines_of_records(
                    recs@.map_values(|x: Record| x@),
                    true,
                ),
                Evaluation::Reveal(recs) => r@.map_values(|s: String| s@) == lines_of_records(
                    recs@.map_values(|x: Record| x@),
                    false,
                ),
                Evaluation::Copy(ok) => r@.map_values(|s: String| s@) == seq![
                    if ok {
                        "Copied!"@
                    } else {
                        "Unable to Copy! Try Again!"@
                    },
                ],
                Evaluation::History(h) => history_lines_ok(
                    r@.map_values(|s: String| s@),
                    h@.map_values(|x: HistoryEntry| x@),
                    true,
                ),
                Evaluation::RevealHistory(h) => history_lines_ok(
                    r@.map_values(|s: String| s@),
                    h@.map_values(|x: HistoryEntry| x@),
                    false,
                ),
                Evaluation::Import(_) => r@.len() == 0,
                Evaluation::Rename(st, old_name, new_name) => r@.map_values(|s: String| s@)
                    == seq![rename_line(st, old_name@, new_name@)],
            },
    {
        match self {
            Evaluation::SetRecord => Vec::new(),
            Evaluation::Del(o) => match o {
                Some(rec) => {
                    let mut out: Vec<String> = Vec::new();
                    out.push(fmt_record(&rec, true));
                    assert(out@.map_values(|s: String| s@) =~= seq![fmt_record_s(rec@, true)]);
                    out
                },
                None => Vec::new(),
            },
            Evaluation::Show(recs) => record_lines(recs, true),
            Evaluation::Reveal(recs) => record_lines(recs, false),
            Evaluation::Copy(ok) => {
                let mut out: Vec<String> = Vec::new();
                if ok {
                    out.push("Copied!".to_owned());
                } else {
                    out.push("Unable to Copy! Try Again!".to_owned());
                }
                assert(out@.map_values(|s: String| s@) =~= seq![
                    if ok {
                        "Copied!"@
                    } else {
                        "Unable to Copy! Try Again!"@
                    },
                ]);
                out
            },
            Evaluation::History(h) => history_lines(h, true),
            Evaluation::RevealHistory(h) => history_lines(h, false),
            Evaluation::Import(_) => Vec::new(),
            Evaluation::Rename(st, old_name, new_name) => {
                let mut out: Vec<String> = Vec::new();
                match st {
                    RenameStatus::OldNameNotFound => {
                        let mut buf = String::new();
                        buf.append("'");
                        buf.append(old_name.as_str());
                        buf.append("' not found!");
                        out.push(buf);
                    },
                    RenameStatus::NewNameAlreadyExists => {
                        let mut buf = String::new();
                        buf.append("'");
                        buf.append(new_name.as_str());
                        buf.append("' already exists!");
                        out.push(buf);
                    },
                    RenameStatus::Successful => {
                        out.push("Renamed!".to_owned());
                    },
                }
                assert(out@.map_values(|s: String| s@) =~= seq![
                    rename_line(st, old_name@, new_name@),
                ]);
                out
            },
        }
    }
}

/// The value a `copy` command would copy: the named field of the named
/// record.
pub open spec fn copy_target(rs: Seq<RecordV>, name: Seq<char>, attr: Seq<char>) -> Option<
    Seq<char>,
> {
    let i = find_rec(rs, name);
    if i >= 0 {
        match field_of(rs[i].fields, attr) {
            Some(f) => Some(f.value),
            None => None,
        }
    } else {
        None
    }
}

/// Looks the copy target up in the store.
fn copy_value(store: &Store, name: &str, attr: &str) -> (r: Option<String>)
    ensures
        match r {
            Some(v) => copy_target(store@, name@, attr@) == Some(v@),
            None => copy_target(store@, name@, attr@) is None,
        },
{
    let recs = store.get(Query::Name(name.to_owned()));
    proof {
        crate::store::lemma_find_rec(store@, name@);
    }
    if recs.len() == 0 {
        proof {
            if find_rec(store@, name@) >= 0 {
                assert(recs@.map_values(|x: Record| x@).len() == 1);
            }
        }
        return None;
    }
    let rec = &recs[0];
    proof {
        assert(recs@.map_values(|x: Record| x@)[0] == recs@[0]@);
        assert(find_rec(store@, name@) >= 0);
        assert(rec@ == store@[find_rec(store@, name@)]);
    }
    let ghost fv = rec@.fields;
    let n = rec.fields.len();
    let mut i: usize = 0;
    proof {
        assert(fv.subrange(0, fv.len() as int) =~= fv);
    }
    while i < n
        invariant
            i <= n,
            n == rec.fields@.len(),
            fv == rec.fields@.map_values(|f: Field| f@),
            0 <= find_rec(store@, name@) < store@.len(),
            fv == store@[find_rec(store@, name@)].fields,
            field_of(fv, attr@) == field_of(fv.subrange(i as int, fv.len() as int), attr@),
        decreases n - i,
    {
        let ghost rest = fv.subrange(i as int, fv.len() as int);
        proof {
            assert(fv[i as int] == rec.fields@[i as int]@);
            assert(rest[0] == fv[i as int]);
            assert(rest.subrange(1, rest.len() as int) =~= fv.subrange(i + 1, fv.len() as int));
        }
        if str_eq(rec.fields[i].attr.as_str(), attr) {
            let v = rec.fields[i].value.clone();
            proof {
                assert(field_of(rest, attr@) == Some(rest[0]));
                assert(field_of(fv, attr@) == Some(fv[i as int]));
                assert(v@ == fv[i as int].value);
                assert(copy_target(store@, name@, attr@) == Some(v@));
            }
            return Some(v);
        }
        i += 1;
    }
    proof {
        assert(fv.subrange(n as int, fv.len() as int).len() == 0);
    }
    None
}

/// What evaluating one well-formed command does to the store and what
/// result it hands back.
pub open spec fn eval_post(
    c: CmdV,
    pre: Seq<RecordV>,
    post: Seq<RecordV>,
    ev: Evaluation,
) -> bool {
    match c {
        CmdV::SetRecord { name, assignments } => {
            &&& ev is SetRecord
            &&& set_post(pre, post, name, assignments)
        },
        CmdV::Del { name, attrs } => if attrs.len() == 0 {
            &&& post == pre.filter(|rv: RecordV| rv.name != name)
            &&& (match ev {
                Evaluation::Del(o) => match o {
                    Some(rec) => 0 <= find_rec(pre, name) && rec@ == pre[find_rec(pre, name)],
                    None => find_rec(pre, name) == -1,
                },
                _ => false,
            })
        } else {
            &&& (find_rec(pre, name) == -1 ==> post == pre && ev matches Evaluation::Del(None))
            &&& (find_rec(pre, name) >= 0 ==> match ev {
                Evaluation::Del(o) => match o {
                    Some(rec) => remove_attrs_post(pre, post, rec@, name, attrs),
                    None => false,
                },
                _ => false,
            })
        },
        CmdV::Show(q) => {
            &&& post == pre
            &&& (match ev {
                Evaluation::Show(recs) => recs@.map_values(|x: Record| x@) == spec_get(pre, q),
                _ => false,
            })
        },
        CmdV::Reveal(q) => {
            &&& post == pre
            &&& (match ev {
                Evaluation::Reveal(recs) => recs@.map_values(|x: Record| x@) == spec_get(pre, q),
                _ => false,
            })
        },
        CmdV::Copy { name, attr } => {
            &&& post == pre
            &&& (match ev {
                Evaluation::Copy(ok) => ok ==> copy_target(pre, name, attr) is Some,
                _ => false,
            })
        },
        CmdV::History(n) => {
            &&& post == pre
            &&& (match ev {
                Evaluation::History(h) => h@.map_values(|x: HistoryEntry| x@) == spec_history(
                    pre,
                    n,
                ),
                _ => false,
            })
        },
        CmdV::RevealHistory(n) => {
            &&& post == pre
            &&& (match ev {
                Evaluation::RevealHistory(h) => h@.map_values(|x: HistoryEntry| x@)
                    == spec_history(pre, n),
                _ => false,
            })
        },
        CmdV::Rename(o, n) => match ev {
            Evaluation::Rename(st, so, sn) => {
                &&& so@ == o
                &&& sn@ == n
                &&& (has_name(pre, n) ==> st is NewNameAlreadyExists && post == pre)
                &&& (!has_name(pre, n) && !has_name(pre, o) ==> st is OldNameNotFound && post
                    == pre)
                &&& (!has_name(pre, n) && has_name(pre, o) ==> {
                    let i = find_rec(pre, o);
                    &&& st is Successful
                    &&& post == pre.update(
                        i,
                        RecordV {
                            id: pre[i].id,
                            name: n,
                            fields: pre[i].fields,
                            history: pre[i].history,
                        },
                    )
                })
            },
            _ => false,
        },
        CmdV::Import(p) => {
            &&& post == pre
            &&& (match ev {
                Evaluation::Import(path) => path@ == p,
                _ => false,
            })
        },
    }
}

/// Evaluates one command line against the store. A line that does not
/// lex or parse changes nothing and reports why; otherwise the command's
/// exact effect and result are fixed by [`eval_post`]. An `import`
/// command is not executed here: its path is handed back for the caller
/// to read, and the text goes through [`import_content`].
pub fn eval(text: &str, store: &mut Store) -> (r: Result<Evaluation, EvalError>)
    ensures
        match r {
            Ok(ev) => {
                &&& spec_lex(text@) matches Ok(toks)
                &&& spec_parse_cmd(toks, 0) matches Some(p)
                &&& p.1 == toks.len()
                &&& wf_cmd(p.0)
                &&& eval_post(p.0, old(store)@, final(store)@, ev)
            },
            Err(e) => {
                &&& final(store)@ == old(store)@
                &&& (match e {
                    EvalError::Lex(le) => {
                        &&& le matches LexError::InvalidToken { pos }
                        &&& spec_lex(text@) matches Err(p)
                        &&& pos == crate::lex::byte_pos(text@, p) as usize
                    },
                    EvalError::Parse(pe) => {
                        &&& spec_lex(text@) matches Ok(toks)
                        &&& (spec_parse_cmd(toks, 0) matches Some(p) ==> {
                            &&& p.1 < toks.len()
                            &&& pe matches ParseError::IncompleteParse(q)
                            &&& q == p.1
                        })
                        &&& (match crate::parse::spec_parse_set(toks, 0) {
                            Some(t3) => crate::parse::first_dup_attr(t3.1) matches Some(a) ==> {
                                &&& pe matches ParseError::DuplicateAssignments(s, ep)
                                &&& s@ == a
                                &&& ep == t3.2
                            },
                            None => true,
                        })
                    },
                    EvalError::Import(_) => false,
                })
            },
        },
{
    let tokens = match lex(text) {
        Ok(t) => t,
        Err(e) => {
            return Err(EvalError::Lex(e));
        },
    };
    let cmd = match parse(&tokens) {
        Ok(c) => c,
        Err(e) => {
            return Err(EvalError::Parse(e));
        },
    };
    match cmd {
        Cmd::SetRecord { name, assignments } => {
            store.set(name.as_str(), assignments);
            Ok(Evaluation::SetRecord)
        },
        Cmd::Del { name, attrs } => {
            if attrs.len() == 0 {
                Ok(Evaluation::Del(store.remove(name.as_str())))
            } else {
                Ok(Evaluation::Del(store.remove_attrs(name.as_str(), &attrs)))
            }
        },
        Cmd::Show(q) => Ok(Evaluation::Show(store.get(q))),
        Cmd::Reveal(q) => Ok(Evaluation::Reveal(store.get(q))),
        Cmd::Copy { name, attr } => {
            match copy_value(store, name.as_str(), attr.as_str()) {
                Some(v) => Ok(Evaluation::Copy(clipboard_set_text(v.as_str()))),
                None => Ok(Evaluation::Copy(false)),
            }
        },
        Cmd::History(name) => Ok(Evaluation::History(store.history(name.as_str()))),
        Cmd::RevealHistory(name) => Ok(
            Evaluation::RevealHistory(store.history(name.as_str())),
        ),
        Cmd::Rename(old_name, new_name) => {
            proof {
                crate::store::lemma_find_rec(store@, old_name@);
                crate::store::lemma_find_rec(store@, new_name@);
            }
            let st = store.rename(old_name.as_str(), new_name.as_str());
            Ok(Evaluation::Rename(st, old_name, new_name))
        },
        Cmd::Import(path) => Ok(Evaluation::Import(path)),
    }
}

/// The first index at or after `j` holding a newline, or the length.
pub open spec fn nl_end(s: Seq<char>, j: int) -> int
    decreases s.len() - j,
{
    if j < 0 || j >= s.len() || s[j] == '\n' {
        j
    } else {
        nl_end(s, j + 1)
    }
}

/// A line with its trailing carriage return dropped.
pub open spec fn strip_cr(l: Seq<char>) -> Seq<char> {
    if l.len() > 0 && l.last() == '\r' {
        l.drop_last()
    } else {
        l
    }
}

/// The lines of a text: split at newlines, each without its line ending,
/// with no extra line for a trailing newline.
pub open spec fn split_lines(s: Seq<char>) -> Seq<Seq<char>>
    decreases s.len(),
{
    if s.len() == 0 {
        Seq::empty()
    } else {
        let j = nl_end(s, 0);
        let line = strip_cr(s.subrange(0, j));
        if 0 <= j < s.len() {
            seq![line] + split_lines(s.subrange(j + 1, s.len() as int))
        } else {
            seq![line]
        }
    }
}

/// A line of nothing but whitespace, skipped by the importer.
pub open spec fn is_blank_s(l: Seq<char>) -> bool {
    forall|i: int| 0 <= i < l.len() ==> crate::lex::is_ws_char(#[trigger] l[i])
}

/// What one import line does: prefixed with `set `, it must read as a
/// whole `set` command, which then lands on the store.
pub open spec fn line_set_cmd(line: Seq<char>) -> Option<(Seq<char>, Seq<AssignV>)> {
    match spec_lex("set "@ + line) {
        Ok(toks) => match spec_parse_cmd(toks, 0) {
            Some(p) => if p.1 == toks.len() {
                match p.0 {
                    CmdV::SetRecord { name, assignments } => Some((name, assignments)),
                    _ => None,
                }
            } else {
                None
            },
            None => None,
        },
        Err(_) => None,
    }
}

/// One non-blank line applied to the store.
pub open spec fn import_step(line: Seq<char>, pre: Seq<RecordV>, post: Seq<RecordV>) -> bool {
    match line_set_cmd(line) {
        Some((n, asg)) => set_post(pre, post, n, asg),
        None => false,
    }
}

/// A run of lines applied in order: blank lines change nothing, the
/// others each land as a `set`.
pub open spec fn import_steps(lines: Seq<Seq<char>>, pre: Seq<RecordV>, post: Seq<RecordV>) -> bool
    decreases lines.len(),
{
    if lines.len() == 0 {
        post == pre
    } else if is_blank_s(lines[0]) {
        import_steps(lines.subrange(1, lines.len() as int), pre, post)
    } else {
        exists|mid: Seq<RecordV>|
            #[trigger] import_step(lines[0], pre, mid) && import_steps(
                lines.subrange(1, lines.len() as int),
                mid,
                post,
            )
    }
}

/// Extends a run of applied lines by one more at its end.
proof fn lemma_import_snoc(
    lines: Seq<Seq<char>>,
    l: Seq<char>,
    pre: Seq<RecordV>,
    mid: Seq<RecordV>,
    post: Seq<RecordV>,
)
    requires
        import_steps(lines, pre, mid),
        is_blank_s(l) ==> post == mid,
        !is_blank_s(l) ==> import_step(l, mid, post),
    ensures
        import_steps(lines.push(l), pre, post),
    decreases lines.len(),
{
    let ext = lines.push(l);
    if lines.len() == 0 {
        assert(post == mid && mid == pre || !is_blank_s(l));
        assert(ext[0] == l);
        assert(ext.subrange(1, ext.len() as int) =~= Seq::<Seq<char>>::empty());
        assert(import_steps(Seq::<Seq<char>>::empty(), pre, post) == (post == pre));
        assert(import_steps(Seq::<Seq<char>>::empty(), post, post));
        if !is_blank_s(l) {
            assert(import_step(ext[0], pre, post) && import_steps(
                ext.subrange(1, ext.len() as int),
                post,
                post,
            ));
        } else {
            assert(import_steps(ext.subrange(1, ext.len() as int), pre, post));
        }
    } else {
        let rest = lines.subrange(1, lines.len() as int);
        assert(ext[0] == lines[0]);
        assert(ext.subrange(1, ext.len() as int) =~= rest.push(l));
        if is_blank_s(lines[0]) {
            lemma_import_snoc(rest, l, pre, mid, post);
        } else {
            let mid0 = choose|m: Seq<RecordV>|
                #[trigger] import_step(lines[0], pre, m) && import_steps(rest, m, mid);
            lemma_import_snoc(rest, l, mid0, mid, post);
            assert(import_step(ext[0], pre, mid0) && import_steps(
                ext.subrange(1, ext.len() as int),
                mid0,
                post,
            ));
        }
    }
}

/// Whether a line holds nothing but whitespace.
fn blank_line(s: &str) -> (r: bool)
    ensures
        r == is_blank_s(s@),
{
    let n = s.unicode_len();
    let mut i: usize = 0;
    while i < n
        invariant
            i <= n,
            n == s@.len(),
            forall|j: int| 0 <= j < i ==> crate::lex::is_ws_char(#[trigger] s@[j]),
        decreases n - i,
    {
        let c = s.get_char(i);
        if !(c == ' ' || c == '\t' || c == '\n' || c == '\r' || c == '\u{b}' || c == '\u{c}') {
            return false;
        }
        i += 1;
    }
    true
}

/// Splits a text into its lines.
fn split_lines_exec(content: &str) -> (r: Vec<String>)
    ensures
        r@.map_values(|s: String| s@) == split_lines(content@),
{
    let hlen = content.unicode_len();
    let mut out: Vec<String> = Vec::new();
    let mut pos: usize = 0;
    proof {
        assert(content@.subrange(0, hlen as int) =~= content@);
    }
    loop
        invariant
            pos <= hlen,
            hlen == content@.len(),
            split_lines(content@) == out@.map_values(|s: String| s@) + split_lines(
                content@.subrange(pos as int, hlen as int),
            ),
        decreases hlen - pos,
    {
        let ghost rem = content@.subrange(pos as int, hlen as int);
        if pos >= hlen {
            proof {
                assert(rem.len() == 0);
                assert(out@.map_values(|s: String| s@) + Seq::<Seq<char>>::empty() =~= out@
                    .map_values(|s: String| s@));
            }
            return out;
        }
        let mut j: usize = pos;
        while j < hlen && content.get_char(j) != '\n'
            invariant
                pos <= j <= hlen,
                hlen == content@.len(),
                rem == content@.subrange(pos as int, hlen as int),
                nl_end(rem, 0) == nl_end(rem, j - pos),
                forall|k: int| pos <= k < j ==> content@[k] != '\n',
            decreases hlen - j,
        {
            proof {
                assert(rem[j - pos] == content@[j as int]);
            }
            j += 1;
        }
        proof {
            if j < hlen {
                assert(rem[j - pos] == content@[j as int]);
            }
            assert(nl_end(rem, j - pos) == j - pos);
        }
        // drop a trailing carriage return from the line
        let mut line_end = j;
        if line_end > pos && content.get_char(line_end - 1) == '\r' {
            line_end = line_end - 1;
            proof {
                let cut = rem.subrange(0, j - pos);
                assert(cut.len() > 0 && cut.last() == '\r') by {
                    assert(cut[j - pos - 1] == content@[j - 1]);
                }
                assert(strip_cr(cut) =~= content@.subrange(pos as int, line_end as int));
            }
        } else {
            proof {
                let cut = rem.subrange(0, j - pos);
                if cut.len() > 0 {
                    assert(cut[j - pos - 1] == content@[j - 1]);
                }
                assert(strip_cr(cut) =~= content@.subrange(pos as int, line_end as int));
            }
        }
        let line = content.substring_char(pos, line_end).to_owned();
        let ghost prev = out@.map_values(|s: String| s@);
        out.push(line);
        proof {
            assert(out@.map_values(|s: String| s@) =~= prev + seq![
                content@.subrange(pos as int, line_end as int),
            ]);
        }
        if j < hlen {
            proof {
                let tail = content@.subrange(j + 1, hlen as int);
                assert(rem.subrange(j - pos + 1, rem.len() as int) =~= tail);
                assert(split_lines(rem) == seq![
                    content@.subrange(pos as int, line_end as int),
                ] + split_lines(tail));
                assert(prev + (seq![content@.subrange(pos as int, line_end as int)] + split_lines(
                    tail,
                )) =~= (prev + seq![content@.subrange(pos as int, line_end as int)]) + split_lines(
                    tail,
                ));
            }
            pos = j + 1;
        } else {
            proof {
                assert(split_lines(rem) == seq![content@.subrange(pos as int, line_end as int)]);
                assert(prev + seq![content@.subrange(pos as int, line_end as int)] =~= (prev
                    + seq![content@.subrange(pos as int, line_end as int)])
                    + Seq::<Seq<char>>::empty());
                assert(content@.subrange(hlen as int, hlen as int).len() == 0);
            }
            pos = hlen;
            proof {
                assert(split_lines(content@.subrange(pos as int, hlen as int))
                    =~= Seq::<Seq<char>>::empty());
            }
        }
    }
}

/// Applies a whole import text: each non-blank line is a `set` command
/// body and lands on the store in order. The first malformed line stops
/// the import; what earlier lines did stays in place, and the error
/// carries the 1-based line number and the line itself. On success the
/// reported count is the text's full line count, blank lines included.
pub fn import_content(content: &str, store: &mut Store) -> (r: Result<usize, EvalError>)
    ensures
        match r {
            Ok(n) => {
                &&& import_steps(split_lines(content@), old(store)@, final(store)@)
                &&& n == split_lines(content@).len()
            },
            Err(e) => {
                &&& e matches EvalError::Import(ie)
                &&& ie matches ImportError::MalformedLine { line, content: lc, cause: _ }
                &&& 1 <= line <= split_lines(content@).len()
                &&& lc@ == split_lines(content@)[line - 1]
                &&& !is_blank_s(lc@)
                &&& line_set_cmd(lc@) is None
                &&& import_steps(
                    split_lines(content@).subrange(0, line - 1),
                    old(store)@,
                    final(store)@,
                )
            },
        },
{
    let ghost pre = store@;
    let lines = split_lines_exec(content);
    let ghost linesv = lines@.map_values(|s: String| s@);
    let n = lines.len();
    let mut i: usize = 0;
    proof {
        assert(linesv.subrange(0, 0) =~= Seq::<Seq<char>>::empty());
        assert(import_steps(linesv.subrange(0, 0), pre, store@));
    }
    while i < n
        invariant
            i <= n,
            n == lines@.len(),
            linesv == lines@.map_values(|s: String| s@),
            linesv == split_lines(content@),
            pre == old(store)@,
            import_steps(linesv.subrange(0, i as int), pre, store@),
        decreases n - i,
    {
        proof {
            assert(linesv[i as int] == lines@[i as int]@);
            assert(linesv.subrange(0, i as int).push(linesv[i as int]) =~= linesv.subrange(
                0,
                i + 1,
            ));
        }
        if blank_line(lines[i].as_str()) {
            proof {
                lemma_import_snoc(linesv.subrange(0, i as int), linesv[i as int], pre, store@, store@);
            }
            i += 1;
            continue ;
        }
        let mut cmdtext = String::new();
        cmdtext.append("set ");
        cmdtext.append(lines[i].as_str());
        proof {
            assert(cmdtext@ =~= "set "@ + linesv[i as int]);
        }
        let tokens = match lex(cmdtext.as_str()) {
            Ok(t) => t,
            Err(le) => {
                proof {
                    assert(line_set_cmd(linesv[i as int]) is None);
                }
                return Err(
                    EvalError::Import(
                        ImportError::MalformedLine {
                            line: i + 1,
                            content: lines[i].clone(),
                            cause: Box::new(EvalError::Lex(le)),
                        },
                    ),
                );
            },
        };
        let cmd = match parse(&tokens) {
            Ok(c) => c,
            Err(pe) => {
                proof {
                    assert(line_set_cmd(linesv[i as int]) is None);
                }
                return Err(
                    EvalError::Import(
                        ImportError::MalformedLine {
                            line: i + 1,
                            content: lines[i].clone(),
                            cause: Box::new(EvalError::Parse(pe)),
                        },
                    ),
                );
            },
        };
        match cmd {
            Cmd::SetRecord { name, assignments } => {
                let ghost namev = name@;
                let ghost asgv = assignments@.map_values(|a: Assign| a@);
                let ghost mid = store@;
                store.set(name.as_str(), assignments);
                proof {
                    assert(line_set_cmd(linesv[i as int]) == Some((namev, asgv)));
                    assert(import_step(linesv[i as int], mid, store@));
                    lemma_import_snoc(
                        linesv.subrange(0, i as int),
                        linesv[i as int],
                        pre,
                        mid,
                        store@,
                    );
                }
                i += 1;
            },
            _ => {
                proof {
                    assert(line_set_cmd(linesv[i as int]) is None);
                }
                return Err(
                    EvalError::Import(
                        ImportError::MalformedLine {
                            line: i + 1,
                            content: lines[i].clone(),
                            cause: Box::new(
                                EvalError::Parse(ParseError::SyntaxError(0, "cannot parse cmd")),
                            ),
                        },
                    ),
                );
            },
        }
    }
    proof {
        assert(linesv.subrange(0, n as int) =~= linesv);
    }
    Ok(n)
}

/// The character of a decimal digit.
pub open spec fn digit_char(d: nat) -> char {
    ((d + 48) as u8) as char
}

/// The decimal digits of a number, most significant first.
pub open spec fn dec_str(n: nat) -> Seq<char>
    decreases n,
{
    if n < 10 {
        seq![digit_char(n)]
    } else {
        dec_str(n / 10).push(digit_char(n % 10))
    }
}

/// The line reported after a successful import.
pub open spec fn import_report_s(n: nat) -> Seq<char> {
    "imported "@ + dec_str(n) + " records"@
}

/// One decimal digit as text.
fn digit_text(d: usize) -> (r: &'static str)
    requires
        d < 10,
    ensures
        r@ == seq![digit_char(d as nat)],
{
    proof {
        reveal_strlit("0");
        reveal_strlit("1");
        reveal_strlit("2");
        reveal_strlit("3");
        reveal_strlit("4");
        reveal_strlit("5");
        reveal_strlit("6");
        reveal_strlit("7");
        reveal_strlit("8");
        reveal_strlit("9");
    }
    let r = match d {
        0 => "0",
        1 => "1",
        2 => "2",
        3 => "3",
        4 => "4",
        5 => "5",
        6 => "6",
        7 => "7",
        8 => "8",
        _ => "9",
    };
    assert(r@ =~= seq![digit_char(d as nat)]);
    r
}

/// A number rendered in decimal.
fn dec_text(n: usize) -> (r: String)
    ensures
        r@ == dec_str(n as nat),
    decreases n,
{
    if n < 10 {
        let mut buf = String::new();
        buf.append(digit_text(n));
        assert(buf@ =~= dec_str(n as nat));
        buf
    } else {
        let mut buf = dec_text(n / 10);
        buf.append(digit_text(n % 10));
        assert(buf@ =~= dec_str((n / 10) as nat).push(digit_char((n % 10) as nat)));
        buf
    }
}

/// The line the shell prints after a successful import.
pub fn import_report(n: usize) -> (r: String)
    ensures
        r@ == import_report_s(n as nat),
{
    let mut buf = String::new();
    buf.append("imported ");
    let d = dec_text(n);
    buf.append(d.as_str());
    buf.append(" records");
    assert(buf@ =~= import_report_s(n as nat));
    buf
}

} // verus!
