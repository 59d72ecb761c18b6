//! The record store.
//!
//! An in-memory collection of named records. Each record has a unique
//! name, an identifier fixed at creation, an ordered list of
//! attribute/value fields (at most one per attribute, in
//! most-recently-set order), and an append-only history of timestamped
//! snapshots of its field set. A snapshot is appended on every mutation
//! that actually changes the sorted field set; re-applying the same
//! content adds no entry.

use vstd::prelude::*;
use vstd::string::*;
use crate::chars::{has_substring, str_eq};
use crate::outside::{fresh_id, lower_of, now_nanos, regex_match};
use crate::parse::{Assign, AssignV, AndV, FilterV, OrV, Query, QueryV};
use crate::sorting::{field_le, sort_fields_s, sort_fields};

verus! {

/// One attribute/value pair of a record, with its display-masking flag.
pub struct Field {
    pub attr: String,
    pub value: String,
    pub sensitive: bool,
}

/// One immutable snapshot of a record's fields, taken at `datetime`
/// (nanoseconds since the epoch) and stored sorted by attribute.
pub struct HistoryEntry {
    pub datetime: i64,
    pub fields: Vec<Field>,
}

/// One named credential record.
pub struct Record {
    pub id: String,
    pub name: String,
    pub fields: Vec<Field>,
    pub history: Vec<HistoryEntry>,
}

/// The outcome of a rename.
pub enum RenameStatus {
    OldNameNotFound,
    NewNameAlreadyExists,
    Successful,
}

/// The store itself: a list of records and a format version tag.
pub struct Store {
    pub records: Vec<Record>,
    pub version: String,
}

/// The mathematical image of a [`Field`].
pub ghost struct FieldV {
    pub attr: Seq<char>,
    pub value: Seq<char>,
    pub sensitive: bool,
}

/// The mathematical image of a [`HistoryEntry`].
pub ghost struct EntryV {
    pub datetime: int,
    pub fields: Seq<FieldV>,
}

/// The mathematical image of a [`Record`].
pub ghost struct RecordV {
    pub id: Seq<char>,
    pub name: Seq<char>,
    pub fields: Seq<FieldV>,
    pub history: Seq<EntryV>,
}

impl View for Field {
    type V = FieldV;

    open spec fn view(&self) -> FieldV {
        FieldV { attr: self.attr@, value: self.value@, sensitive: self.sensitive }
    }
}

impl View for HistoryEntry {
    type V = EntryV;

    open spec fn view(&self) -> EntryV {
        EntryV {
            datetime: self.datetime as int,
            fields: self.fields@.map_values(|f: Field| f@),
        }
    }
}

impl View for Record {
    type V = RecordV;

    open spec fn view(&self) -> RecordV {
        RecordV {
            id: self.id@,
            name: self.name@,
            fields: self.fields@.map_values(|f: Field| f@),
            history: self.history@.map_values(|h: HistoryEntry| h@),
        }
    }
}

impl View for Store {
    type V = Seq<RecordV>;

    open spec fn view(&self) -> Seq<RecordV> {
        self.records@.map_values(|r: Record| r@)
    }
}

impl Clone for Field {
    /// An exact copy.
    fn clone(&self) -> (res: Self)
        ensures
            res@ == self@,
    {
        Field { attr: self.attr.clone(), value: self.value.clone(), sensitive: self.sensitive }
    }
}

/// Copies a field list, preserving its view.
pub fn clone_fields(fields: &Vec<Field>) -> (res: Vec<Field>)
    ensures
        res@.map_values(|f: Field| f@) == fields@.map_values(|f: Field| f@),
{
    let mut out: Vec<Field> = Vec::new();
    let n = fields.len();
    let mut i: usize = 0;
    while i < n
        invariant
            i <= n,
            n == fields@.len(),
            out@.len() == i,
            forall|j: int| 0 <= j < i ==> out@[j]@ == fields@[j]@,
        decreases n - i,
    {
        out.push(fields[i].clone());
        i += 1;
    }
    assert(out@.map_values(|f: Field| f@) =~= fields@.map_values(|f: Field| f@));
    out
}

impl Clone for HistoryEntry {
    /// An exact copy.
    fn clone(&self) -> (res: Self)
        ensures
            res@ == self@,
    {
        let res = HistoryEntry { datetime: self.datetime, fields: clone_fields(&self.fields) };
        res
    }
}

/// Copies a history, preserving its view.
fn clone_history(history: &Vec<HistoryEntry>) -> (res: Vec<HistoryEntry>)
    ensures
        res@.map_values(|h: HistoryEntry| h@) == history@.map_values(|h: HistoryEntry| h@),
{
    let mut out: Vec<HistoryEntry> = Vec::new();
    let n = history.len();
    let mut i: usize = 0;
    while i < n
        invariant
            i <= n,
            n == history@.len(),
            out@.len() == i,
            forall|j: int| 0 <= j < i ==> out@[j]@ == history@[j]@,
        decreases n - i,
    {
        out.push(history[i].clone());
        i += 1;
    }
    assert(out@.map_values(|h: HistoryEntry| h@) =~= history@.map_values(|h: HistoryEntry| h@));
    out
}

impl Clone for Record {
    /// An exact copy.
    fn clone(&self) -> (res: Self)
        ensures
            res@ == self@,
    {
        let res = Record {
            id: self.id.clone(),
            name: self.name.clone(),
            fields: clone_fields(&self.fields),
            history: clone_history(&self.history),
        };
        res
    }
}

/// The index of the first record with this name, or `-1`.
pub open spec fn find_rec(rs: Seq<RecordV>, name: Seq<char>) -> int
    decreases rs.len(),
{
    if rs.len() == 0 {
        -1
    } else if rs[0].name == name {
        0
    } else {
        let r = find_rec(rs.subrange(1, rs.len() as int), name);
        if r == -1 {
            -1
        } else {
            r + 1
        }
    }
}

/// Some record carries this name.
pub open spec fn has_name(rs: Seq<RecordV>, name: Seq<char>) -> bool {
    exists|i: int| 0 <= i < rs.len() && (#[trigger] rs[i]).name == name
}

/// `find_rec` finds a record exactly when one of that name exists, and
/// then points at the first one.
pub proof fn lemma_find_rec(rs: Seq<RecordV>, name: Seq<char>)
    ensures
        has_name(rs, name) <==> 0 <= find_rec(rs, name) < rs.len(),
        -1 <= find_rec(rs, name) < rs.len(),
        0 <= find_rec(rs, name) ==> rs[find_rec(rs, name)].name == name,
        forall|j: int|
            0 <= j < rs.len() && (#[trigger] rs[j]).name == name ==> find_rec(rs, name) <= j,
    decreases rs.len(),
{
    if rs.len() > 0 && rs[0].name != name {
        lemma_find_rec(rs.subrange(1, rs.len() as int), name);
        let rest = rs.subrange(1, rs.len() as int);
        assert forall|j: int| 0 <= j < rs.len() && (#[trigger] rs[j]).name == name implies find_rec(
            rs,
            name,
        ) <= j by {
            assert(rest[j - 1] == rs[j]);
        }
        if has_name(rs, name) {
            let w = choose|i: int| 0 <= i < rs.len() && (#[trigger] rs[i]).name == name;
            assert(rest[w - 1] == rs[w]);
            assert(has_name(rest, name));
        }
        if has_name(rest, name) {
            let w = choose|i: int| 0 <= i < rest.len() && (#[trigger] rest[i]).name == name;
            assert(rs[w + 1] == rest[w]);
        }
        if find_rec(rest, name) >= 0 {
            assert(rs[find_rec(rest, name) + 1] == rest[find_rec(rest, name)]);
        }
    }
}

/// The fields with this attribute removed.
pub open spec fn remove_attr_s(fs: Seq<FieldV>, attr: Seq<char>) -> Seq<FieldV> {
    fs.filter(|f: FieldV| f.attr != attr)
}

/// One assignment applied: any field of the same attribute is removed,
/// and the new field is appended.
pub open spec fn apply_assign_s(fs: Seq<FieldV>, a: AssignV) -> Seq<FieldV> {
    remove_attr_s(fs, a.attr).push(FieldV { attr: a.attr, value: a.value, sensitive: a.sensitive })
}

/// A whole assignment list applied in order.
pub open spec fn apply_assigns_s(fs: Seq<FieldV>, asg: Seq<AssignV>) -> Seq<FieldV>
    decreases asg.len(),
{
    if asg.len() == 0 {
        fs
    } else {
        apply_assigns_s(apply_assign_s(fs, asg[0]), asg.subrange(1, asg.len() as int))
    }
}

/// The index of the last entry with the greatest timestamp, or `-1` for
/// an empty history: the most recent snapshot.
pub open spec fn last_max_idx(h: Seq<EntryV>) -> int
    decreases h.len(),
{
    if h.len() == 0 {
        -1
    } else {
        let r = last_max_idx(h.drop_last());
        if r == -1 || h[h.len() - 1].datetime >= h[r].datetime {
            h.len() - 1
        } else {
            r
        }
    }
}

/// The history after a mutation that left the fields as `cur`, stamped
/// `ts`: the sorted snapshot of `cur` is appended unless it equals the
/// most recent snapshot.
pub open spec fn update_history_s(h: Seq<EntryV>, cur: Seq<FieldV>, ts: int) -> Seq<EntryV> {
    let snap = sort_fields_s(cur);
    let m = last_max_idx(h);
    if m >= 0 && h[m].fields == snap {
        h
    } else {
        h.push(EntryV { datetime: ts, fields: snap })
    }
}

/// A record after an assignment list lands on it.
pub open spec fn set_record_s(r: RecordV, asg: Seq<AssignV>, ts: int) -> RecordV {
    let fs = apply_assigns_s(r.fields, asg);
    RecordV { id: r.id, name: r.name, fields: fs, history: update_history_s(r.history, fs, ts) }
}

/// A fresh record created by a `set` on an unknown name.
pub open spec fn new_record_s(name: Seq<char>, id: Seq<char>, asg: Seq<AssignV>, ts: int) -> RecordV {
    set_record_s(RecordV { id: id, name: name, fields: Seq::empty(), history: Seq::empty() }, asg, ts)
}

/// The store after `set name asg`: the first record of that name is
/// updated in place, or a fresh record (with the given identifier and
/// timestamp) is appended.
pub open spec fn spec_set(
    rs: Seq<RecordV>,
    name: Seq<char>,
    asg: Seq<AssignV>,
    id: Seq<char>,
    ts: int,
) -> Seq<RecordV> {
    let i = find_rec(rs, name);
    if i >= 0 {
        rs.update(i, set_record_s(rs[i], asg, ts))
    } else {
        rs.push(new_record_s(name, id, asg, ts))
    }
}

/// The first field with this attribute, if any.
pub open spec fn field_of(fs: Seq<FieldV>, attr: Seq<char>) -> Option<FieldV>
    decreases fs.len(),
{
    if fs.len() == 0 {
        None
    } else if fs[0].attr == attr {
        Some(fs[0])
    } else {
        field_of(fs.subrange(1, fs.len() as int), attr)
    }
}

/// The target a filter reads on a record: the record's name for the
/// reserved attribute `.`, else the named field's value.
pub open spec fn filter_target(r: RecordV, attr: Seq<char>) -> Option<Seq<char>> {
    if attr == "."@ {
        Some(r.name)
    } else {
        match field_of(r.fields, attr) {
            Some(f) => Some(f.value),
            None => None,
        }
    }
}

/// Whether a single filter holds of a record. `contains` is
/// case-insensitive, `matches` tests the pattern anywhere in the value,
/// `is` is exact equality; a missing attribute never matches.
pub open spec fn test_filter(f: FilterV, r: RecordV) -> bool
    decreases f,
{
    match f {
        FilterV::Contains { attr, substr } => match filter_target(r, attr) {
            Some(t) => has_substring(lower_of(t), lower_of(substr)),
            None => false,
        },
        FilterV::Matches { attr, pat } => match filter_target(r, attr) {
            Some(t) => regex_match(pat, t),
            None => false,
        },
        FilterV::Cmp { attr, value } => match filter_target(r, attr) {
            Some(t) => t == value,
            None => false,
        },
        FilterV::Parens(q) => test_query(*q, r),
    }
}

/// Whether a conjunction holds of a record.
pub open spec fn test_and(a: AndV, r: RecordV) -> bool
    decreases a,
{
    match a {
        AndV::Filter(f) => test_filter(f, r),
        AndV::And(l, f) => test_and(*l, r) && test_filter(f, r),
    }
}

/// Whether a disjunction holds of a record.
pub open spec fn test_or(o: OrV, r: RecordV) -> bool
    decreases o,
{
    match o {
        OrV::And(a) => test_and(a, r),
        OrV::Or(l, a) => test_or(*l, r) || test_and(a, r),
    }
}

/// Whether a query selects a record.
pub open spec fn test_query(q: QueryV, r: RecordV) -> bool
    decreases q,
{
    match q {
        QueryV::Or(o) => test_or(o, r),
        QueryV::Name(n) => r.name == n,
        QueryV::All => true,
    }
}

/// What `get` returns: every record, the first record of a name, or the
/// records a boolean query selects, in store order.
pub open spec fn spec_get(rs: Seq<RecordV>, q: QueryV) -> Seq<RecordV> {
    match q {
        QueryV::All => rs,
        QueryV::Name(n) => {
            let i = find_rec(rs, n);
            if i >= 0 {
                seq![rs[i]]
            } else {
                Seq::empty()
            }
        },
        QueryV::Or(o) => rs.filter(|r: RecordV| test_or(o, r)),
    }
}

/// No two fields share an attribute.
pub open spec fn fields_wf(fs: Seq<FieldV>) -> bool {
    forall|i: int, j: int|
        0 <= i < j < fs.len() ==> (#[trigger] fs[i]).attr != (#[trigger] fs[j]).attr
}

/// A history snapshot is attribute-sorted and attribute-distinct.
pub open spec fn entry_wf(e: EntryV) -> bool {
    fields_wf(e.fields) && vstd::relations::sorted_by(e.fields, |a: FieldV, b: FieldV| field_le(a, b))
}

/// A record's fields are attribute-distinct and its snapshots well
/// formed.
pub open spec fn record_wf(r: RecordV) -> bool {
    fields_wf(r.fields) && (forall|i: int| 0 <= i < r.history.len() ==> entry_wf(#[trigger] r.history[i]))
}

/// Record names are pairwise distinct and every record is well formed.
pub open spec fn store_wf(rs: Seq<RecordV>) -> bool {
    &&& forall|i: int, j: int|
        0 <= i < j < rs.len() ==> (#[trigger] rs[i]).name != (#[trigger] rs[j]).name
    &&& forall|i: int| 0 <= i < rs.len() ==> record_wf(#[trigger] rs[i])
}

/// A step of [`Seq::filter`] over a growing prefix.
proof fn lemma_filter_step<A>(s: Seq<A>, pred: spec_fn(A) -> bool, i: int)
    requires
        0 <= i < s.len(),
    ensures
        s.subrange(0, i + 1).filter(pred) == if pred(s[i]) {
            s.subrange(0, i).filter(pred).push(s[i])
        } else {
            s.subrange(0, i).filter(pred)
        },
{
    reveal(Seq::filter);
    assert(s.subrange(0, i + 1).drop_last() =~= s.subrange(0, i));
    assert(s.subrange(0, i + 1).last() == s[i]);
}

/// Whether two field lists have the same view.
fn fields_eq(a: &Vec<Field>, b: &Vec<Field>) -> (r: bool)
    ensures
        r == (a@.map_values(|f: Field| f@) == b@.map_values(|f: Field| f@)),
{
    let ghost av = a@.map_values(|f: Field| f@);
    let ghost bv = b@.map_values(|f: Field| f@);
    let n = a.len();
    if b.len() != n {
        assert(av.len() != bv.len());
        return false;
    }
    let mut i: usize = 0;
    while i < n
        invariant
            i <= n,
            n == a@.len() == b@.len(),
            av == a@.map_values(|f: Field| f@),
            bv == b@.map_values(|f: Field| f@),
            forall|j: int| 0 <= j < i ==> av[j] == bv[j],
        decreases n - i,
    {
        proof {
            assert(av[i as int] == a@[i as int]@);
            assert(bv[i as int] == b@[i as int]@);
        }
        if !str_eq(a[i].attr.as_str(), b[i].attr.as_str()) {
            assert(av[i as int].attr != bv[i as int].attr);
            return false;
        }
        if !str_eq(a[i].value.as_str(), b[i].value.as_str()) {
            assert(av[i as int].value != bv[i as int].value);
            return false;
        }
        if a[i].sensitive != b[i].sensitive {
            assert(av[i as int].sensitive != bv[i as int].sensitive);
            return false;
        }
        assert(av[i as int] == bv[i as int]);
        i += 1;
    }
    assert(av =~= bv);
    true
}

/// One assignment applied to a field vector: drop the attribute, append
/// the new field.
fn apply_assign_vec(fields: &mut Vec<Field>, a: &Assign)
    ensures
        final(fields)@.map_values(|f: Field| f@) == apply_assign_s(
            old(fields)@.map_values(|f: Field| f@),
            a@,
        ),
{
    let ghost fv = fields@.map_values(|f: Field| f@);
    let ghost pred = |f: FieldV| f.attr != a@.attr;
    let n = fields.len();
    let mut out: Vec<Field> = Vec::new();
    let mut i: usize = 0;
    proof {
        assert(fv.subrange(0, 0).filter(pred) =~= Seq::<FieldV>::empty()) by {
            reveal(Seq::filter);
            assert(fv.subrange(0, 0) =~= Seq::<FieldV>::empty());
        }
        assert(out@.map_values(|f: Field| f@) =~= Seq::<FieldV>::empty());
    }
    while i < n
        invariant
            i <= n,
            n == fields@.len(),
            fv == fields@.map_values(|f: Field| f@),
            pred == (|f: FieldV| f.attr != a@.attr),
            out@.map_values(|f: Field| f@) == fv.subrange(0, i as int).filter(pred),
        decreases n - i,
    {
        let ghost outv = out@.map_values(|f: Field| f@);
        proof {
            assert(fv[i as int] == fields@[i as int]@);
            lemma_filter_step(fv, pred, i as int);
        }
        if !str_eq(fields[i].attr.as_str(), a.attr.as_str()) {
            out.push(fields[i].clone());
            proof {
                assert(out@.map_values(|f: Field| f@) =~= outv.push(fv[i as int]));
            }
        }
        i += 1;
    }
    proof {
        assert(fv.subrange(0, n as int) =~= fv);
    }
    out.push(Field { attr: a.attr.clone(), value: a.value.clone(), sensitive: a.sensitive });
    *fields = out;
    proof {
        assert(fields@.map_values(|f: Field| f@) =~= fv.filter(pred).push(
            FieldV { attr: a@.attr, value: a@.value, sensitive: a@.sensitive },
        ));
    }
}

/// The index of the most recent history entry: the last one carrying the
/// greatest timestamp.
fn find_last_max(history: &Vec<HistoryEntry>) -> (r: Option<usize>)
    ensures
        match r {
            Some(m) => m < history@.len() && last_max_idx(
                history@.map_values(|h: HistoryEntry| h@),
            ) == m as int,
            None => history@.len() == 0,
        },
{
    let ghost hv = history@.map_values(|h: HistoryEntry| h@);
    let n = history.len();
    if n == 0 {
        return None;
    }
    let mut best: usize = 0;
    let mut i: usize = 1;
    proof {
        assert(last_max_idx(Seq::<EntryV>::empty()) == -1);
        assert(hv.subrange(0, 1).drop_last() =~= Seq::<EntryV>::empty());
        assert(last_max_idx(hv.subrange(0, 1)) == 0);
    }
    while i < n
        invariant
            1 <= i <= n,
            best < i,
            n == history@.len(),
            hv == history@.map_values(|h: HistoryEntry| h@),
            last_max_idx(hv.subrange(0, i as int)) == best as int,
        decreases n - i,
    {
        proof {
            assert(hv.subrange(0, i + 1).drop_last() =~= hv.subrange(0, i as int));
            assert(hv.subrange(0, i + 1).last() == hv[i as int]);
            assert(hv[i as int] == history@[i as int]@);
            assert(hv[best as int] == history@[best as int]@);
            assert(hv.subrange(0, i as int)[best as int] == hv[best as int]);
        }
        if history[i].datetime >= history[best].datetime {
            best = i;
        }
        i += 1;
    }
    proof {
        assert(hv.subrange(0, n as int) =~= hv);
    }
    Some(best)
}

/// Appends the sorted snapshot of `fields` to `history` unless it equals
/// the most recent snapshot.
fn push_history(history: &mut Vec<HistoryEntry>, fields: &Vec<Field>, ts: i64)
    ensures
        final(history)@.map_values(|h: HistoryEntry| h@) == update_history_s(
            old(history)@.map_values(|h: HistoryEntry| h@),
            fields@.map_values(|f: Field| f@),
            ts as int,
        ),
{
    let ghost hv = history@.map_values(|h: HistoryEntry| h@);
    let ghost fvv = fields@.map_values(|f: Field| f@);
    let snap = sort_fields(clone_fields(fields));
    let ghost snapv = snap@.map_values(|f: Field| f@);
    assert(snapv == sort_fields_s(fvv));
    match find_last_max(history) {
        Some(m) => {
            proof {
                assert(hv[m as int] == history@[m as int]@);
            }
            if fields_eq(&history[m].fields, &snap) {
                assert(hv[m as int].fields == snapv);
                return ;
            }
            assert(hv[m as int].fields != snapv);
            let entry = HistoryEntry { datetime: ts, fields: snap };
            history.push(entry);
            proof {
                assert(history@.map_values(|h: HistoryEntry| h@) =~= hv.push(
                    EntryV { datetime: ts as int, fields: snapv },
                ));
            }
        },
        None => {
            let entry = HistoryEntry { datetime: ts, fields: snap };
            history.push(entry);
            proof {
                assert(last_max_idx(hv) == -1);
                assert(history@.map_values(|h: HistoryEntry| h@) =~= hv.push(
                    EntryV { datetime: ts as int, fields: snapv },
                ));
            }
        },
    }
}

/// Applies an assignment list to a record and pushes the history
/// snapshot.
fn set_on_record(rec: &mut Record, assignments: &Vec<Assign>, ts: i64)
    ensures
        final(rec)@ == set_record_s(old(rec)@, assignments@.map_values(|a: Assign| a@), ts as int),
{
    let ghost asgv = assignments@.map_values(|a: Assign| a@);
    let ghost fv0 = rec.fields@.map_values(|f: Field| f@);
    let n = assignments.len();
    let mut i: usize = 0;
    proof {
        assert(asgv.subrange(0, asgv.len() as int) =~= asgv);
    }
    while i < n
        invariant
            i <= n,
            n == assignments@.len(),
            asgv == assignments@.map_values(|a: Assign| a@),
            rec.id == old(rec).id,
            rec.name == old(rec).name,
            rec.history == old(rec).history,
            apply_assigns_s(fv0, asgv) == apply_assigns_s(
                rec.fields@.map_values(|f: Field| f@),
                asgv.subrange(i as int, asgv.len() as int),
            ),
            fv0 == old(rec)@.fields,
        decreases n - i,
    {
        let ghost before = rec.fields@.map_values(|f: Field| f@);
        let ghost rest = asgv.subrange(i as int, asgv.len() as int);
        proof {
            assert(asgv[i as int] == assignments@[i as int]@);
            assert(rest[0] == asgv[i as int]);
            assert(rest.subrange(1, rest.len() as int) =~= asgv.subrange(
                i + 1,
                asgv.len() as int,
            ));
        }
        apply_assign_vec(&mut rec.fields, &assignments[i]);
        i += 1;
    }
    proof {
        assert(asgv.subrange(n as int, asgv.len() as int).len() == 0);
    }
    push_history(&mut rec.history, &rec.fields, ts);
    proof {
        assert(old(rec)@.history == old(rec).history@.map_values(|h: HistoryEntry| h@));
    }
}

impl Store {
    /// An empty store.
    pub fn new() -> (s: Store)
        ensures
            s@ == Seq::<RecordV>::empty(),
            store_wf(s@),
    {
        let s = Store { records: Vec::new(), version: "0.1.0".to_owned() };
        proof {
            assert(s@ =~= Seq::<RecordV>::empty());
        }
        s
    }

    /// The index of the first record with this name, if any.
    fn find_index(&self, name: &str) -> (r: Option<usize>)
        ensures
            match r {
                Some(i) => i < self@.len() && find_rec(self@, name@) == i as int,
                None => find_rec(self@, name@) == -1,
            },
    {
        let ghost rs = self@;
        let n = self.records.len();
        let mut i: usize = 0;
        while i < n
            invariant
                i <= n,
                n == self.records@.len(),
                rs == self@,
                forall|j: int| 0 <= j < i ==> (#[trigger] rs[j]).name != name@,
            decreases n - i,
        {
            proof {
                assert(rs[i as int] == self.records@[i as int]@);
            }
            if str_eq(self.records[i].name.as_str(), name) {
                proof {
                    lemma_find_rec(rs, name@);
                    assert(rs[i as int].name == name@);
                    assert(has_name(rs, name@));
                    let f = find_rec(rs, name@);
                    assert(f <= i as int);
                    assert(rs[f].name == name@);
                }
                return Some(i);
            }
            i += 1;
        }
        proof {
            lemma_find_rec(rs, name@);
            if has_name(rs, name@) {
                let w = choose|j: int| 0 <= j < rs.len() && (#[trigger] rs[j]).name == name@;
                assert(false);
            }
        }
        None
    }

    /// The records a query selects: every record for `all`, the first
    /// record of a name, or the records a boolean filter accepts, each
    /// returned as a copy in store order.
    pub fn get(&self, query: Query) -> (r: Vec<Record>)
        requires
            crate::parse::wf_query(query@),
        ensures
            r@.map_values(|x: Record| x@) == spec_get(self@, query@),
    {
        let ghost rs = self@;
        match query {
            Query::All => {
                let n = self.records.len();
                let mut out: Vec<Record> = Vec::new();
                let mut i: usize = 0;
                while i < n
                    invariant
                        i <= n,
                        n == self.records@.len(),
                        rs == self@,
                        out@.len() == i,
                        forall|j: int| 0 <= j < i ==> (#[trigger] out@[j])@ == rs[j],
                    decreases n - i,
                {
                    proof {
                        assert(rs[i as int] == self.records@[i as int]@);
                    }
                    out.push(self.records[i].clone());
                    i += 1;
                }
                assert(out@.map_values(|x: Record| x@) =~= rs);
                out
            },
            Query::Name(n) => {
                let mut out: Vec<Record> = Vec::new();
                match self.find_index(n.as_str()) {
                    Some(i) => {
                        proof {
                            assert(rs[i as int] == self.records@[i as int]@);
                        }
                        out.push(self.records[i].clone());
                        assert(out@.map_values(|x: Record| x@) =~= seq![
                            rs[find_rec(rs, n@)],
                        ]);
                    },
                    None => {
                        assert(out@.map_values(|x: Record| x@) =~= Seq::<RecordV>::empty());
                    },
                }
                out
            },
            Query::Or(o) => {
                let ghost pred = |x: RecordV| test_or(o@, x);
                let n = self.records.len();
                let mut out: Vec<Record> = Vec::new();
                let mut i: usize = 0;
                proof {
                    assert(rs.subrange(0, 0).filter(pred) =~= Seq::<RecordV>::empty()) by {
                        reveal(Seq::filter);
                        assert(rs.subrange(0, 0) =~= Seq::<RecordV>::empty());
                    }
                    assert(out@.map_values(|x: Record| x@) =~= Seq::<RecordV>::empty());
                }
                while i < n
                    invariant
                        i <= n,
                        n == self.records@.len(),
                        rs == self@,
                        crate::parse::wf_or(o@),
                        pred == (|x: RecordV| test_or(o@, x)),
                        out@.map_values(|x: Record| x@) == rs.subrange(0, i as int).filter(pred),
                    decreases n - i,
                {
                    let ghost outv = out@.map_values(|x: Record| x@);
                    proof {
                        assert(rs[i as int] == self.records@[i as int]@);
                        lemma_filter_step(rs, pred, i as int);
                    }
                    if eval_or(&o, &self.records[i]) {
                        out.push(self.records[i].clone());
                        proof {
                            assert(out@.map_values(|x: Record| x@) =~= outv.push(rs[i as int]));
                        }
                    }
                    i += 1;
                }
                proof {
                    assert(rs.subrange(0, n as int) =~= rs);
                }
                out
            },
        }
    }

    /// Applies a `set` command: updates the first record of the name, or
    /// creates a fresh one. The fresh record's identifier and the history
    /// timestamp come from the outside, so they are existentially bound.
    pub fn set(&mut self, name: &str, assignments: Vec<Assign>)
        ensures
            set_post(old(self)@, final(self)@, name@, assignments@.map_values(|a: Assign| a@)),
    {
        let ghost rs = self@;
        let ghost asgv = assignments@.map_values(|a: Assign| a@);
        let ts = now_nanos();
        match self.find_index(name) {
            Some(i) => {
                let rec = &mut self.records[i];
                set_on_record(rec, &assignments, ts);
                proof {
                    assert(self@ =~= rs.update(
                        find_rec(rs, name@),
                        set_record_s(rs[find_rec(rs, name@)], asgv, ts as int),
                    ));
                    assert(self@ == spec_set(rs, name@, asgv, Seq::<char>::empty(), ts as int));
                }
            },
            None => {
                // under an unavailable randomness source the record still
                // lands, with an empty identifier instead of a fresh one
                let id = match fresh_id() {
                    Some(s) => s,
                    None => String::new(),
                };
                let ghost idv = id@;
                let mut rec = Record {
                    id,
                    name: name.to_owned(),
                    fields: Vec::new(),
                    history: Vec::new(),
                };
                proof {
                    assert(rec@.fields =~= Seq::<FieldV>::empty());
                    assert(rec@.history =~= Seq::<EntryV>::empty());
                }
                set_on_record(&mut rec, &assignments, ts);
                self.records.push(rec);
                proof {
                    assert(self@ =~= rs.push(new_record_s(name@, idv, asgv, ts as int)));
                    assert(self@ == spec_set(rs, name@, asgv, idv, ts as int));
                }
            },
        }
    }

    /// Removes and returns the first record of this name; every record of
    /// that name leaves the store. Absent names change nothing.
    pub fn remove(&mut self, name: &str) -> (r: Option<Record>)
        ensures
            final(self)@ == old(self)@.filter(|rv: RecordV| rv.name != name@),
            match r {
                Some(rec) => 0 <= find_rec(old(self)@, name@) && rec@ == old(self)@[find_rec(
                    old(self)@,
                    name@,
                )],
                None => find_rec(old(self)@, name@) == -1,
            },
    {
        let ghost rs = self@;
        let ghost pred = |rv: RecordV| rv.name != name@;
        let taken = match self.find_index(name) {
            Some(i) => {
                proof {
                    assert(rs[i as int] == self.records@[i as int]@);
                }
                Some(self.records[i].clone())
            },
            None => None,
        };
        let n = self.records.len();
        let mut out: Vec<Record> = Vec::new();
        let mut i: usize = 0;
        proof {
            assert(rs.subrange(0, 0).filter(pred) =~= Seq::<RecordV>::empty()) by {
                reveal(Seq::filter);
                assert(rs.subrange(0, 0) =~= Seq::<RecordV>::empty());
            }
            assert(out@.map_values(|x: Record| x@) =~= Seq::<RecordV>::empty());
        }
        while i < n
            invariant
                i <= n,
                n == self.records@.len(),
                rs == self@,
                pred == (|rv: RecordV| rv.name != name@),
                out@.map_values(|x: Record| x@) == rs.subrange(0, i as int).filter(pred),
            decreases n - i,
        {
            let ghost outv = out@.map_values(|x: Record| x@);
            proof {
                assert(rs[i as int] == self.records@[i as int]@);
                lemma_filter_step(rs, pred, i as int);
            }
            if !str_eq(self.records[i].name.as_str(), name) {
                out.push(self.records[i].clone());
                proof {
                    assert(out@.map_values(|x: Record| x@) =~= outv.push(rs[i as int]));
                }
            }
            i += 1;
        }
        proof {
            assert(rs.subrange(0, n as int) =~= rs);
        }
        self.records = out;
        taken
    }

    /// Removes the named attributes from the named record, pushes a
    /// history snapshot under the usual deduplication rule, and returns a
    /// copy of the updated record; `None` if the name is absent.
    pub fn remove_attrs(&mut self, name: &str, attrs: &Vec<String>) -> (r: Option<Record>)
        ensures
            find_rec(old(self)@, name@) == -1 ==> final(self)@ == old(self)@ && r is None,
            find_rec(old(self)@, name@) >= 0 ==> {
                &&& r matches Some(rec)
                &&& remove_attrs_post(
                    old(self)@,
                    final(self)@,
                    rec@,
                    name@,
                    attrs@.map_values(|s: String| s@),
                )
            },
    {
        let ghost rs = self@;
        let ghost attrsv = attrs@.map_values(|s: String| s@);
        let ts = now_nanos();
        match self.find_index(name) {
            Some(i) => {
                let rec = &mut self.records[i];
                let ghost rv0 = rec@;
                remove_attrs_on_record(rec, attrs, ts);
                let copy = self.records[i].clone();
                proof {
                    assert(self@ =~= rs.update(
                        find_rec(rs, name@),
                        remove_attrs_record_s(rs[find_rec(rs, name@)], attrsv, ts as int),
                    ));
                }
                Some(copy)
            },
            None => {
                proof {
                    assert(self@ =~= rs);
                }
                None
            },
        }
    }

    /// Renames a record. Fails if a record of the new name exists (even
    /// when both names are equal) or if the old name is absent; otherwise
    /// only the record's name changes.
    pub fn rename(&mut self, old_name: &str, new_name: &str) -> (r: RenameStatus)
        ensures
            has_name(old(self)@, new_name@) ==> r is NewNameAlreadyExists && final(self)@ == old(
                self,
            )@,
            !has_name(old(self)@, new_name@) && !has_name(old(self)@, old_name@) ==> r
                is OldNameNotFound && final(self)@ == old(self)@,
            !has_name(old(self)@, new_name@) && has_name(old(self)@, old_name@) ==> {
                let i = find_rec(old(self)@, old_name@);
                let old_rec = old(self)@[i];
                &&& r is Successful
                &&& final(self)@ == old(self)@.update(
                    i,
                    RecordV {
                        id: old_rec.id,
                        name: new_name@,
                        fields: old_rec.fields,
                        history: old_rec.history,
                    },
                )
            },
    {
        let ghost rs = self@;
        proof {
            lemma_find_rec(rs, new_name@);
            lemma_find_rec(rs, old_name@);
        }
        if let Some(_) = self.find_index(new_name) {
            return RenameStatus::NewNameAlreadyExists;
        }
        match self.find_index(old_name) {
            Some(i) => {
                let rec = &mut self.records[i];
                rec.name = new_name.to_owned();
                proof {
                    assert(self@ =~= rs.update(
                        find_rec(rs, old_name@),
                        RecordV {
                            id: rs[find_rec(rs, old_name@)].id,
                            name: new_name@,
                            fields: rs[find_rec(rs, old_name@)].fields,
                            history: rs[find_rec(rs, old_name@)].history,
                        },
                    ));
                }
                RenameStatus::Successful
            },
            None => {
                proof {
                    assert(self@ =~= rs);
                }
                RenameStatus::OldNameNotFound
            },
        }
    }

    /// A copy of the named record's full history, oldest first; empty for
    /// an absent name.
    pub fn history(&self, name: &str) -> (r: Vec<HistoryEntry>)
        ensures
            r@.map_values(|h: HistoryEntry| h@) == spec_history(self@, name@),
    {
        match self.find_index(name) {
            Some(i) => {
                proof {
                    assert(self@[i as int] == self.records@[i as int]@);
                }
                clone_history(&self.records[i].history)
            },
            None => {
                let out: Vec<HistoryEntry> = Vec::new();
                proof {
                    assert(out@.map_values(|h: HistoryEntry| h@) =~= Seq::<EntryV>::empty());
                }
                out
            },
        }
    }
}

/// The store after a `set`, for some fresh identifier and timestamp.
pub open spec fn set_post(
    pre: Seq<RecordV>,
    post: Seq<RecordV>,
    name: Seq<char>,
    asg: Seq<AssignV>,
) -> bool {
    exists|id: Seq<char>, ts: int| post == #[trigger] spec_set(pre, name, asg, id, ts)
}

/// The store and the returned record after attributes are dropped, for
/// some timestamp.
pub open spec fn remove_attrs_post(
    pre: Seq<RecordV>,
    post: Seq<RecordV>,
    got: RecordV,
    name: Seq<char>,
    attrs: Seq<Seq<char>>,
) -> bool {
    exists|ts: int|
        #![trigger remove_attrs_record_s(pre[find_rec(pre, name)], attrs, ts)]
        {
            let i = find_rec(pre, name);
            let updated = remove_attrs_record_s(pre[i], attrs, ts);
            post == pre.update(i, updated) && got == updated
        }
}

/// A record after the named attributes are dropped: the fields are
/// filtered and a history snapshot is pushed under the deduplication
/// rule.
pub open spec fn remove_attrs_record_s(r: RecordV, attrs: Seq<Seq<char>>, ts: int) -> RecordV {
    let fs = r.fields.filter(|f: FieldV| !attrs.contains(f.attr));
    RecordV { id: r.id, name: r.name, fields: fs, history: update_history_s(r.history, fs, ts) }
}

/// What `history` returns: the named record's entries, oldest first.
pub open spec fn spec_history(rs: Seq<RecordV>, name: Seq<char>) -> Seq<EntryV> {
    let i = find_rec(rs, name);
    if i >= 0 {
        rs[i].history
    } else {
        Seq::empty()
    }
}

/// Whether any of `attrs` reads as this attribute.
fn attrs_contain(attrs: &Vec<String>, attr: &str) -> (r: bool)
    ensures
        r == attrs@.map_values(|s: String| s@).contains(attr@),
{
    let ghost av = attrs@.map_values(|s: String| s@);
    let n = attrs.len();
    let mut i: usize = 0;
    while i < n
        invariant
            i <= n,
            n == attrs@.len(),
            av == attrs@.map_values(|s: String| s@),
            forall|j: int| 0 <= j < i ==> av[j] != attr@,
        decreases n - i,
    {
        proof {
            assert(av[i as int] == attrs@[i as int]@);
        }
        if str_eq(attrs[i].as_str(), attr) {
            assert(av.contains(attr@)) by {
                assert(av[i as int] == attr@);
            }
            return true;
        }
        i += 1;
    }
    proof {
        if av.contains(attr@) {
            let w = choose|j: int| 0 <= j < av.len() && av[j] == attr@;
            assert(false);
        }
    }
    false
}

/// Drops the named attributes from a record and pushes the history
/// snapshot.
fn remove_attrs_on_record(rec: &mut Record, attrs: &Vec<String>, ts: i64)
    ensures
        final(rec)@ == remove_attrs_record_s(
            old(rec)@,
            attrs@.map_values(|s: String| s@),
            ts as int,
        ),
{
    let ghost attrsv = attrs@.map_values(|s: String| s@);
    let ghost fv = rec.fields@.map_values(|f: Field| f@);
    let ghost pred = |f: FieldV| !attrsv.contains(f.attr);
    let n = rec.fields.len();
    let mut out: Vec<Field> = Vec::new();
    let mut i: usize = 0;
    proof {
        assert(fv.subrange(0, 0).filter(pred) =~= Seq::<FieldV>::empty()) by {
            reveal(Seq::filter);
            assert(fv.subrange(0, 0) =~= Seq::<FieldV>::empty());
        }
        assert(out@.map_values(|f: Field| f@) =~= Seq::<FieldV>::empty());
    }
    while i < n
        invariant
            i <= n,
            n == rec.fields@.len(),
            fv == rec.fields@.map_values(|f: Field| f@),
            attrsv == attrs@.map_values(|s: String| s@),
            pred == (|f: FieldV| !attrsv.contains(f.attr)),
            out@.map_values(|f: Field| f@) == fv.subrange(0, i as int).filter(pred),
        decreases n - i,
    {
        let ghost outv = out@.map_values(|f: Field| f@);
        proof {
            assert(fv[i as int] == rec.fields@[i as int]@);
            lemma_filter_step(fv, pred, i as int);
        }
        if !attrs_contain(attrs, rec.fields[i].attr.as_str()) {
            out.push(rec.fields[i].clone());
            proof {
                assert(out@.map_values(|f: Field| f@) =~= outv.push(fv[i as int]));
            }
        }
        i += 1;
    }
    proof {
        assert(fv.subrange(0, n as int) =~= fv);
    }
    rec.fields = out;
    push_history(&mut rec.history, &rec.fields, ts);
}

/// A record after a history update, for some timestamp: everything but
/// the history is kept, and the history followed the snapshot rule.
pub open spec fn update_history_post(pre: RecordV, post: RecordV) -> bool {
    exists|ts: int|
        post == (RecordV {
            id: pre.id,
            name: pre.name,
            fields: pre.fields,
            history: #[trigger] update_history_s(pre.history, pre.fields, ts),
        })
}

impl Record {
    /// Appends the sorted snapshot of the current fields to the history,
    /// stamped with the current time, unless it equals the most recent
    /// snapshot.
    pub fn update_history(&mut self)
        ensures
            update_history_post(old(self)@, final(self)@),
    {
        let ts = now_nanos();
        push_history(&mut self.history, &self.fields, ts);
        proof {
            assert(self@ == (RecordV {
                id: old(self)@.id,
                name: old(self)@.name,
                fields: old(self)@.fields,
                history: update_history_s(old(self)@.history, old(self)@.fields, ts as int),
            }));
        }
    }
}

impl HistoryEntry {
    /// A fresh snapshot of the given fields, stamped with the current
    /// time.
    pub fn new(fields: Vec<Field>) -> (r: HistoryEntry)
        ensures
            r@.fields == fields@.map_values(|f: Field| f@),
    {
        HistoryEntry { datetime: now_nanos(), fields }
    }
}

/// The value a filter reads on a record, as the evaluator computes it.
fn filter_target_exec<'a>(rec: &'a Record, attr: &str) -> (r: Option<&'a String>)
    ensures
        match r {
            Some(s) => filter_target(rec@, attr@) == Some(s@),
            None => filter_target(rec@, attr@) is None,
        },
{
    proof {
        reveal_strlit(".");
    }
    if str_eq(attr, ".") {
        return Some(&rec.name);
    }
    let ghost fv = rec.fields@.map_values(|f: Field| f@);
    let n = rec.fields.len();
    let mut i: usize = 0;
    proof {
        assert(fv.subrange(0, fv.len() as int) =~= fv);
    }
    while i < n
        invariant
            i <= n,
            n == rec.fields@.len(),
            attr@ != "."@,
            fv == rec.fields@.map_values(|f: Field| f@),
            field_of(fv, attr@) == field_of(fv.subrange(i as int, fv.len() as int), attr@),
        decreases n - i,
    {
        let ghost rest = fv.subrange(i as int, fv.len() as int);
        proof {
            assert(fv[i as int] == rec.fields@[i as int]@);
            assert(rest[0] == fv[i as int]);
            assert(rest.subrange(1, rest.len() as int) =~= fv.subrange(i + 1, fv.len() as int));
        }
        if str_eq(rec.fields[i].attr.as_str(), attr) {
            proof {
                assert(rest[0].attr == attr@);
                assert(field_of(rest, attr@) == Some(rest[0]));
                assert(filter_target(rec@, attr@) == Some(fv[i as int].value));
                assert(fv[i as int].value == rec.fields@[i as int].value@);
            }
            return Some(&rec.fields[i].value);
        }
        i += 1;
    }
    proof {
        assert(fv.subrange(n as int, fv.len() as int).len() == 0);
    }
    None
}

/// Whether a single filter accepts a record.
fn eval_filter(f: &crate::parse::Filter, rec: &Record) -> (r: bool)
    requires
        crate::parse::wf_filter(f@),
    ensures
        r == test_filter(f@, rec@),
    decreases f,
{
    match f {
        crate::parse::Filter::Contains(c) => match filter_target_exec(rec, c.attr.as_str()) {
            Some(t) => {
                let lt = crate::outside::to_lower(t.as_str());
                let ls = crate::outside::to_lower(c.substr.as_str());
                crate::chars::str_contains(lt.as_str(), ls.as_str())
            },
            None => false,
        },
        crate::parse::Filter::Matches(m) => match filter_target_exec(rec, m.attr.as_str()) {
            Some(t) => crate::outside::regex_find(m.pat.as_str(), t.as_str()),
            None => false,
        },
        crate::parse::Filter::Cmp(i) => match filter_target_exec(rec, i.attr.as_str()) {
            Some(t) => str_eq(t.as_str(), i.value.as_str()),
            None => false,
        },
        crate::parse::Filter::Parens(q) => eval_query_cond(q, rec),
    }
}

/// Whether a conjunction accepts a record.
fn eval_and(a: &crate::parse::And, rec: &Record) -> (r: bool)
    requires
        crate::parse::wf_and(a@),
    ensures
        r == test_and(a@, rec@),
    decreases a,
{
    match a {
        crate::parse::And::Filter(f) => eval_filter(f, rec),
        crate::parse::And::And(l, f) => {
            let lv = eval_and(l, rec);
            lv && eval_filter(f, rec)
        },
    }
}

/// Whether a disjunction accepts a record.
pub fn eval_or(o: &crate::parse::Or, rec: &Record) -> (r: bool)
    requires
        crate::parse::wf_or(o@),
    ensures
        r == test_or(o@, rec@),
    decreases o,
{
    match o {
        crate::parse::Or::And(a) => eval_and(a, rec),
        crate::parse::Or::Or(l, a) => {
            let lv = eval_or(l, rec);
            lv || eval_and(a, rec)
        },
    }
}

/// Whether a query selects a record.
pub fn eval_query_cond(q: &Query, rec: &Record) -> (r: bool)
    requires
        crate::parse::wf_query(q@),
    ensures
        r == test_query(q@, rec@),
    decreases q,
{
    match q {
        Query::Or(o) => eval_or(o, rec),
        Query::Name(n) => str_eq(rec.name.as_str(), n.as_str()),
        Query::All => true,
    }
}

} // verus!
