//! The store's laws, proved once and for all over the model.
//!
//! Each public proof function here states a guarantee that spans more
//! than one operation: what a `set` does to the record count, that
//! history only grows, that deletion really deletes, what a rename
//! preserves, that masking hides exactly the sensitive values, and that
//! rendering a command and reading it back returns the same command, on
//! the command shapes whose every argument is rendered quoted.

use vstd::prelude::*;
use crate::parse::{AssignV, QueryV};
use crate::store::{
    apply_assign_s, apply_assigns_s, find_rec, has_name, last_max_idx, lemma_find_rec,
    new_record_s, set_record_s, spec_get, spec_history, spec_set, update_history_s, EntryV,
    FieldV, RecordV,
};

verus! {

/// No two records share a name.
pub open spec fn names_unique(rs: Seq<RecordV>) -> bool {
    forall|i: int, j: int|
        0 <= i < j < rs.len() ==> (#[trigger] rs[i]).name != (#[trigger] rs[j]).name
}

/// Two stores whose records carry the same names are searched alike.
proof fn lemma_find_same_names(a: Seq<RecordV>, b: Seq<RecordV>, name: Seq<char>)
    requires
        a.len() == b.len(),
        forall|j: int| 0 <= j < a.len() ==> (#[trigger] a[j]).name == (#[trigger] b[j]).name,
    ensures
        find_rec(a, name) == find_rec(b, name),
    decreases a.len(),
{
    if a.len() > 0 {
        let ar = a.subrange(1, a.len() as int);
        let br = b.subrange(1, b.len() as int);
        assert forall|j: int| 0 <= j < ar.len() implies (#[trigger] ar[j]).name == (
        #[trigger] br[j]).name by {
            assert(ar[j] == a[j + 1] && br[j] == b[j + 1]);
        }
        lemma_find_same_names(ar, br, name);
    }
}

/// A filter keeps a sequence whose every element passes.
proof fn lemma_filter_all<A>(s: Seq<A>, pred: spec_fn(A) -> bool)
    requires
        forall|i: int| 0 <= i < s.len() ==> pred(#[trigger] s[i]),
    ensures
        s.filter(pred) == s,
    decreases s.len(),
{
    reveal(Seq::filter);
    if s.len() > 0 {
        lemma_filter_all(s.drop_last(), pred);
        assert(pred(s[s.len() - 1]));
        assert(s.filter(pred) =~= s);
    }
}

/// A filter drops a sequence whose no element passes.
proof fn lemma_filter_none<A>(s: Seq<A>, pred: spec_fn(A) -> bool)
    requires
        forall|i: int| 0 <= i < s.len() ==> !pred(#[trigger] s[i]),
    ensures
        s.filter(pred) == Seq::<A>::empty(),
    decreases s.len(),
{
    reveal(Seq::filter);
    if s.len() > 0 {
        lemma_filter_none(s.drop_last(), pred);
        assert(!pred(s[s.len() - 1]));
    }
}

/// Two filters in a row are one filter by the conjunction.
proof fn lemma_filter_compose<A>(
    s: Seq<A>,
    p: spec_fn(A) -> bool,
    q: spec_fn(A) -> bool,
    both: spec_fn(A) -> bool,
)
    requires
        forall|x: A| #[trigger] both(x) == (p(x) && q(x)),
    ensures
        s.filter(p).filter(q) == s.filter(both),
    decreases s.len(),
{
    reveal(Seq::filter);
    if s.len() > 0 {
        lemma_filter_compose(s.drop_last(), p, q, both);
        let x = s.last();
        if p(x) {
            assert(s.filter(p) == s.drop_last().filter(p).push(x));
            assert(s.filter(p).drop_last() =~= s.drop_last().filter(p));
            assert(s.filter(p).last() == x);
        }
    }
}

/// Setting a fresh name and reading it back by name yields exactly one
/// record, named as asked, with no fields when nothing was assigned.
pub proof fn lemma_set_fresh_then_get(rs: Seq<RecordV>, name: Seq<char>, id: Seq<char>, ts: int)
    requires
        !has_name(rs, name),
    ensures
        ({
            let rs2 = spec_set(rs, name, Seq::<AssignV>::empty(), id, ts);
            &&& spec_get(rs2, QueryV::Name(name)).len() == 1
            &&& spec_get(rs2, QueryV::Name(name))[0].name == name
            &&& spec_get(rs2, QueryV::Name(name))[0].fields == Seq::<FieldV>::empty()
        }),
{
    lemma_find_rec(rs, name);
    let nr = new_record_s(name, id, Seq::<AssignV>::empty(), ts);
    assert(apply_assigns_s(Seq::<FieldV>::empty(), Seq::<AssignV>::empty())
        == Seq::<FieldV>::empty());
    let rs2 = rs.push(nr);
    assert(spec_set(rs, name, Seq::<AssignV>::empty(), id, ts) == rs2);
    lemma_find_rec(rs2, name);
    assert(rs2[rs.len() as int] == nr);
    assert(has_name(rs2, name)) by {
        assert(rs2[rs.len() as int].name == name);
    }
    assert forall|j: int| 0 <= j < rs.len() implies (#[trigger] rs2[j]).name != name by {
        if rs2[j].name == name {
            assert(rs[j] == rs2[j]);
            assert(has_name(rs, name));
        }
    }
    let f = find_rec(rs2, name);
    assert(f <= rs.len());
    assert(0 <= f < rs2.len() && rs2[f].name == name);
    assert(f == rs.len());
}

/// A `set` never creates a second record of an existing name: the record
/// count is unchanged for a known name and grows by one for a fresh one,
/// and distinct names stay distinct.
pub proof fn lemma_set_count(
    rs: Seq<RecordV>,
    name: Seq<char>,
    asg: Seq<AssignV>,
    id: Seq<char>,
    ts: int,
)
    ensures
        has_name(rs, name) ==> spec_set(rs, name, asg, id, ts).len() == rs.len(),
        !has_name(rs, name) ==> spec_set(rs, name, asg, id, ts).len() == rs.len() + 1,
        names_unique(rs) ==> names_unique(spec_set(rs, name, asg, id, ts)),
{
    lemma_find_rec(rs, name);
    let rs2 = spec_set(rs, name, asg, id, ts);
    let i = find_rec(rs, name);
    if names_unique(rs) {
        if i >= 0 {
            assert(rs2[i].name == rs[i].name);
            assert forall|a: int, b: int| 0 <= a < b < rs2.len() implies (#[trigger] rs2[a]).name
                != (#[trigger] rs2[b]).name by {
                assert(rs2[a].name == rs[a].name && rs2[b].name == rs[b].name);
            }
        } else {
            assert forall|a: int, b: int| 0 <= a < b < rs2.len() implies (#[trigger] rs2[a]).name
                != (#[trigger] rs2[b]).name by {
                if b == rs.len() {
                    assert(rs2[a] == rs[a]);
                    assert(rs2[b].name == name);
                    if rs[a].name == name {
                        assert(has_name(rs, name));
                    }
                } else {
                    assert(rs2[a] == rs[a] && rs2[b] == rs[b]);
                }
            }
        }
    }
}

/// History never shrinks: an update keeps every existing snapshot and at
/// most appends one.
pub proof fn lemma_update_history_grows(h: Seq<EntryV>, cur: Seq<FieldV>, ts: int)
    ensures
        update_history_s(h, cur, ts).len() >= h.len(),
        update_history_s(h, cur, ts).len() <= h.len() + 1,
        forall|i: int| 0 <= i < h.len() ==> update_history_s(h, cur, ts)[i] == #[trigger] h[i],
{
}

/// A `set` never shortens the named record's history, and touches no
/// other record.
pub proof fn lemma_set_history_monotone(
    rs: Seq<RecordV>,
    name: Seq<char>,
    asg: Seq<AssignV>,
    id: Seq<char>,
    ts: int,
)
    ensures
        ({
            let rs2 = spec_set(rs, name, asg, id, ts);
            &&& spec_history(rs2, name).len() >= spec_history(rs, name).len()
            &&& forall|i: int|
                0 <= i < spec_history(rs, name).len() ==> spec_history(rs2, name)[i]
                    == #[trigger] spec_history(rs, name)[i]
        }),
{
    lemma_find_rec(rs, name);
    let rs2 = spec_set(rs, name, asg, id, ts);
    let i = find_rec(rs, name);
    if i >= 0 {
        assert(rs2.len() == rs.len());
        assert forall|j: int| 0 <= j < rs.len() implies (#[trigger] rs[j]).name == (
        #[trigger] rs2[j]).name by {
            if j != i {
                assert(rs2[j] == rs[j]);
            }
        }
        lemma_find_same_names(rs, rs2, name);
        assert(rs2[i].history == update_history_s(
            rs[i].history,
            apply_assigns_s(rs[i].fields, asg),
            ts,
        ));
        lemma_update_history_grows(rs[i].history, apply_assigns_s(rs[i].fields, asg), ts);
    } else {
        assert(spec_history(rs, name).len() == 0);
        lemma_find_rec(rs2, name);
    }
}

/// Dropping attributes never shortens the record's history either.
pub proof fn lemma_remove_attrs_history_monotone(r: RecordV, attrs: Seq<Seq<char>>, ts: int)
    ensures
        crate::store::remove_attrs_record_s(r, attrs, ts).history.len() >= r.history.len(),
        forall|i: int|
            0 <= i < r.history.len() ==> crate::store::remove_attrs_record_s(
                r,
                attrs,
                ts,
            ).history[i] == #[trigger] r.history[i],
{
    let fs = r.fields.filter(|f: FieldV| !attrs.contains(f.attr));
    lemma_update_history_grows(r.history, fs, ts);
}

/// Removing a name empties its lookup, and removing an absent name
/// changes nothing.
pub proof fn lemma_remove_then_get(rs: Seq<RecordV>, name: Seq<char>)
    ensures
        spec_get(rs.filter(|rv: RecordV| rv.name != name), QueryV::Name(name)).len() == 0,
        !has_name(rs, name) ==> rs.filter(|rv: RecordV| rv.name != name) == rs,
{
    broadcast use vstd::seq_lib::group_filter_ensures;

    let pred = |rv: RecordV| rv.name != name;
    let rs2 = rs.filter(pred);
    lemma_find_rec(rs2, name);
    if has_name(rs2, name) {
        let w = choose|i: int| 0 <= i < rs2.len() && (#[trigger] rs2[i]).name == name;
        assert(pred(rs2[w]));
        assert(false);
    }
    if !has_name(rs, name) {
        assert forall|i: int| 0 <= i < rs.len() implies pred(#[trigger] rs[i]) by {
            if rs[i].name == name {
                assert(has_name(rs, name));
            }
        }
        lemma_filter_all(rs, pred);
    }
}

/// A successful rename (the new name is fresh, the old one exists, and
/// renaming onto any existing name, the record's own included, is
/// refused before this point) changes exactly one record's name: its
/// identifier, fields and history survive, the new name resolves, the
/// old one (when different) does not, and names stay distinct.
pub proof fn lemma_rename_success(rs: Seq<RecordV>, o: Seq<char>, n: Seq<char>)
    requires
        names_unique(rs),
        !has_name(rs, n),
        has_name(rs, o),
    ensures
        ({
            let i = find_rec(rs, o);
            let rs2 = rs.update(
                i,
                RecordV { id: rs[i].id, name: n, fields: rs[i].fields, history: rs[i].history },
            );
            &&& rs2.len() == rs.len()
            &&& rs2[i].id == rs[i].id
            &&& rs2[i].fields == rs[i].fields
            &&& rs2[i].history == rs[i].history
            &&& has_name(rs2, n)
            &&& (o != n ==> !has_name(rs2, o))
            &&& names_unique(rs2)
        }),
{
    lemma_find_rec(rs, o);
    let i = find_rec(rs, o);
    let rs2 = rs.update(
        i,
        RecordV { id: rs[i].id, name: n, fields: rs[i].fields, history: rs[i].history },
    );
    assert(has_name(rs2, n)) by {
        assert(rs2[i].name == n);
    }
    if o != n && has_name(rs2, o) {
        let w = choose|j: int| 0 <= j < rs2.len() && (#[trigger] rs2[j]).name == o;
        assert(w != i);
        assert(rs2[w] == rs[w]);
        assert(rs[w].name == o && rs[i].name == o);
        assert(false);
    }
    assert forall|a: int, b: int| 0 <= a < b < rs2.len() implies (#[trigger] rs2[a]).name != (
    #[trigger] rs2[b]).name by {
        if a != i && b != i {
            assert(rs2[a] == rs[a] && rs2[b] == rs[b]);
        } else if a == i {
            assert(rs2[b] == rs[b]);
            if rs[b].name == n {
                assert(has_name(rs, n));
            }
        } else {
            assert(rs2[a] == rs[a]);
            if rs[a].name == n {
                assert(has_name(rs, n));
            }
        }
    }
}

/// The attributes an assignment list writes.
pub open spec fn attrs_of(asg: Seq<AssignV>) -> Seq<Seq<char>> {
    asg.map_values(|a: AssignV| a.attr)
}

/// The fields an assignment list writes, in order.
pub open spec fn fields_of(asg: Seq<AssignV>) -> Seq<FieldV> {
    asg.map_values(|a: AssignV| FieldV { attr: a.attr, value: a.value, sensitive: a.sensitive })
}

/// No attribute is assigned twice.
pub open spec fn asg_attrs_distinct(asg: Seq<AssignV>) -> bool {
    forall|i: int, j: int|
        0 <= i < j < asg.len() ==> (#[trigger] asg[i]).attr != (#[trigger] asg[j]).attr
}

/// The shape of an applied assignment list: the untouched fields keep
/// their order, and the assigned fields follow in assignment order.
proof fn lemma_apply_assigns_form(fs: Seq<FieldV>, asg: Seq<AssignV>)
    requires
        asg_attrs_distinct(asg),
    ensures
        apply_assigns_s(fs, asg) == fs.filter(|f: FieldV| !attrs_of(asg).contains(f.attr))
            + fields_of(asg),
    decreases asg.len(),
{
    broadcast use vstd::seq_lib::group_filter_ensures;

    let pred = |f: FieldV| !attrs_of(asg).contains(f.attr);
    if asg.len() == 0 {
        assert(attrs_of(asg).len() == 0);
        assert forall|i: int| 0 <= i < fs.len() implies pred(#[trigger] fs[i]) by {
            if attrs_of(asg).contains(fs[i].attr) {
                let w = choose|w: int| 0 <= w < attrs_of(asg).len() && attrs_of(asg)[w] == fs[
                    i
                ].attr;
            }
        }
        lemma_filter_all(fs, pred);
        assert(fs + fields_of(asg) =~= fs);
    } else {
        let a0 = asg[0];
        let rest = asg.subrange(1, asg.len() as int);
        let f0 = FieldV { attr: a0.attr, value: a0.value, sensitive: a0.sensitive };
        let p0 = |f: FieldV| f.attr != a0.attr;
        let prest = |f: FieldV| !attrs_of(rest).contains(f.attr);
        assert forall|i: int, j: int| 0 <= i < j < rest.len() implies (
        #[trigger] rest[i]).attr != (#[trigger] rest[j]).attr by {
            assert(rest[i] == asg[i + 1] && rest[j] == asg[j + 1]);
        }
        lemma_apply_assigns_form(apply_assign_s(fs, a0), rest);
        let applied0 = apply_assign_s(fs, a0);
        assert(applied0 == fs.filter(p0).push(f0));
        assert(applied0 =~= fs.filter(p0) + seq![f0]);
        assert(applied0.filter(prest) == fs.filter(p0).filter(prest) + seq![f0].filter(prest))
            by {
            Seq::filter_distributes_over_add(fs.filter(p0), seq![f0], prest);
        }
        assert(seq![f0].filter(prest) == seq![f0]) by {
            assert forall|i: int| 0 <= i < seq![f0].len() implies prest(#[trigger] seq![f0][i])
                by {
                if attrs_of(rest).contains(f0.attr) {
                    let w = choose|w: int|
                        0 <= w < attrs_of(rest).len() && attrs_of(rest)[w] == f0.attr;
                    assert(attrs_of(rest)[w] == rest[w].attr);
                    assert(rest[w] == asg[w + 1]);
                    assert(asg[0].attr != asg[w + 1].attr);
                }
            }
            lemma_filter_all(seq![f0], prest);
        }
        assert(fs.filter(p0).filter(prest) == fs.filter(pred)) by {
            assert forall|f: FieldV| #[trigger] pred(f) == (p0(f) && prest(f)) by {
                assert(attrs_of(asg) =~= seq![a0.attr] + attrs_of(rest));
                if attrs_of(asg).contains(f.attr) {
                    let w = choose|w: int|
                        0 <= w < attrs_of(asg).len() && attrs_of(asg)[w] == f.attr;
                    if w == 0 {
                        assert(!p0(f));
                    } else {
                        assert(attrs_of(rest)[w - 1] == f.attr);
                        assert(!prest(f));
                    }
                }
                if !p0(f) {
                    assert(attrs_of(asg)[0] == f.attr);
                }
                if !prest(f) {
                    let w = choose|w: int|
                        0 <= w < attrs_of(rest).len() && attrs_of(rest)[w] == f.attr;
                    assert(attrs_of(asg)[w + 1] == f.attr);
                }
            }
            lemma_filter_compose(fs, p0, prest, pred);
        }
        assert(fields_of(asg) =~= seq![f0] + fields_of(rest));
        assert((fs.filter(pred) + seq![f0]) + fields_of(rest) =~= fs.filter(pred) + fields_of(
            asg,
        ));
    }
}

/// Applying the same assignment list twice leaves the very field list of
/// the first application.
proof fn lemma_apply_assigns_idempotent(fs: Seq<FieldV>, asg: Seq<AssignV>)
    requires
        asg_attrs_distinct(asg),
    ensures
        apply_assigns_s(apply_assigns_s(fs, asg), asg) == apply_assigns_s(fs, asg),
{
    broadcast use vstd::seq_lib::group_filter_ensures;

    let pred = |f: FieldV| !attrs_of(asg).contains(f.attr);
    lemma_apply_assigns_form(fs, asg);
    let fs1 = apply_assigns_s(fs, asg);
    lemma_apply_assigns_form(fs1, asg);
    let base = fs.filter(pred);
    let gs = fields_of(asg);
    assert(fs1 == base + gs);
    assert(fs1.filter(pred) == base.filter(pred) + gs.filter(pred)) by {
        Seq::filter_distributes_over_add(base, gs, pred);
    }
    assert(base.filter(pred) == base) by {
        lemma_filter_all(base, pred);
    }
    assert(gs.filter(pred) == Seq::<FieldV>::empty()) by {
        assert forall|i: int| 0 <= i < gs.len() implies !pred(#[trigger] gs[i]) by {
            assert(gs[i].attr == asg[i].attr);
            assert(attrs_of(asg)[i] == asg[i].attr);
        }
        lemma_filter_none(gs, pred);
    }
    assert(fs1.filter(pred) + gs =~= base + gs);
}

/// The most recent entry is in range for a nonempty history.
proof fn lemma_last_max_range(h: Seq<EntryV>)
    ensures
        h.len() == 0 ==> last_max_idx(h) == -1,
        h.len() > 0 ==> 0 <= last_max_idx(h) < h.len(),
    decreases h.len(),
{
    if h.len() > 0 {
        lemma_last_max_range(h.drop_last());
    }
}

/// An appended entry at least as new as everything before it becomes the
/// most recent one.
proof fn lemma_last_max_push(h: Seq<EntryV>, e: EntryV)
    requires
        forall|i: int| 0 <= i < h.len() ==> (#[trigger] h[i]).datetime <= e.datetime,
    ensures
        last_max_idx(h.push(e)) == h.len(),
{
    let ext = h.push(e);
    assert(ext.drop_last() =~= h);
    lemma_last_max_range(h);
    assert(ext[ext.len() - 1] == e);
}

/// Re-applying the very same assignments right away changes nothing: the
/// fields stay as they are and no history entry is added. The one
/// assumption is that the first write's timestamp is not older than the
/// record's recorded history (a clock that jumps backwards can break it).
pub proof fn lemma_reset_same_no_new_entry(
    rs: Seq<RecordV>,
    name: Seq<char>,
    asg: Seq<AssignV>,
    id: Seq<char>,
    ts: int,
    id2: Seq<char>,
    ts2: int,
)
    requires
        asg_attrs_distinct(asg),
        find_rec(rs, name) >= 0 ==> forall|j: int|
            0 <= j < rs[find_rec(rs, name)].history.len() ==> (#[trigger] rs[find_rec(
                rs,
                name,
            )].history[j]).datetime <= ts,
    ensures
        spec_set(spec_set(rs, name, asg, id, ts), name, asg, id2, ts2) == spec_set(
            rs,
            name,
            asg,
            id,
            ts,
        ),
{
    lemma_find_rec(rs, name);
    let i0 = find_rec(rs, name);
    let rs1 = spec_set(rs, name, asg, id, ts);
    let i1: int = if i0 >= 0 {
        i0
    } else {
        rs.len() as int
    };
    let r0 = if i0 >= 0 {
        rs[i0]
    } else {
        RecordV { id: id, name: name, fields: Seq::empty(), history: Seq::empty() }
    };
    let r1 = set_record_s(r0, asg, ts);
    assert(rs1[i1] == r1);
    assert(r1.name == name);
    // the search still lands on the same record
    assert(find_rec(rs1, name) == i1) by {
        if i0 >= 0 {
            assert forall|j: int| 0 <= j < rs.len() implies (#[trigger] rs[j]).name == (
            #[trigger] rs1[j]).name by {
                if j != i0 {
                    assert(rs1[j] == rs[j]);
                }
            }
            lemma_find_same_names(rs, rs1, name);
        } else {
            lemma_find_rec(rs1, name);
            assert forall|j: int| 0 <= j < rs.len() implies (#[trigger] rs1[j]).name != name by {
                if rs1[j].name == name {
                    assert(rs[j] == rs1[j]);
                    assert(has_name(rs, name));
                }
            }
            assert(rs1[i1].name == name);
            assert(has_name(rs1, name));
            assert(find_rec(rs1, name) <= i1);
            assert(rs1[find_rec(rs1, name)].name == name);
        }
    }
    // the second application reproduces the same fields
    lemma_apply_assigns_idempotent(r0.fields, asg);
    let fs1 = apply_assigns_s(r0.fields, asg);
    assert(r1.fields == fs1);
    assert(apply_assigns_s(r1.fields, asg) == fs1);
    // and the history deduplicates
    let h0 = r0.history;
    let h1 = update_history_s(h0, fs1, ts);
    assert(r1.history == h1);
    let snap = crate::sorting::sort_fields_s(fs1);
    let m0 = last_max_idx(h0);
    assert(update_history_s(h1, fs1, ts2) == h1) by {
        if m0 >= 0 && h0[m0].fields == snap {
            assert(h1 == h0);
        } else {
            assert(h1 == h0.push(EntryV { datetime: ts, fields: snap }));
            assert forall|j: int| 0 <= j < h0.len() implies (#[trigger] h0[j]).datetime <= ts by {
                if i0 >= 0 {
                    assert(h0[j] == rs[i0].history[j]);
                }
            }
            lemma_last_max_push(h0, EntryV { datetime: ts, fields: snap });
            assert(h1[last_max_idx(h1)].fields == snap);
        }
    }
    let r2 = set_record_s(r1, asg, ts2);
    assert(r2 == r1);
    let rs2 = spec_set(rs1, name, asg, id2, ts2);
    assert(rs2 == rs1.update(i1, r2));
    assert(rs2 =~= rs1);
}

/// A filter of an attribute-distinct field list stays attribute-distinct,
/// and every kept field was there before.
proof fn lemma_filter_keeps_distinct(fs: Seq<FieldV>, pred: spec_fn(FieldV) -> bool)
    requires
        crate::store::fields_wf(fs),
    ensures
        crate::store::fields_wf(fs.filter(pred)),
        forall|x: FieldV| #[trigger] fs.filter(pred).contains(x) ==> fs.contains(x),
    decreases fs.len(),
{
    reveal(Seq::filter);
    if fs.len() > 0 {
        let head = fs.drop_last();
        assert(crate::store::fields_wf(head)) by {
            assert(forall|i: int, j: int|
                0 <= i < j < head.len() ==> head[i] == fs[i] && head[j] == fs[j]);
        }
        lemma_filter_keeps_distinct(head, pred);
        let sub = head.filter(pred);
        assert forall|x: FieldV| #[trigger] fs.filter(pred).contains(x) implies fs.contains(x) by {
            if pred(fs.last()) {
                assert(fs.filter(pred) == sub.push(fs.last()));
                if x == fs.last() {
                    assert(fs[fs.len() - 1] == x);
                } else {
                    let w = choose|w: int|
                        0 <= w < fs.filter(pred).len() && fs.filter(pred)[w] == x;
                    assert(sub[w] == x);
                    assert(sub.contains(x));
                    assert(head.contains(x));
                    let v = choose|v: int| 0 <= v < head.len() && head[v] == x;
                    assert(fs[v] == x);
                }
            } else {
                assert(fs.filter(pred) == sub);
                assert(head.contains(x));
                let v = choose|v: int| 0 <= v < head.len() && head[v] == x;
                assert(fs[v] == x);
            }
        }
        if pred(fs.last()) {
            let out = sub.push(fs.last());
            assert(fs.filter(pred) == out);
            assert forall|i: int, j: int| 0 <= i < j < out.len() implies (
            #[trigger] out[i]).attr != (#[trigger] out[j]).attr by {
                if j < out.len() - 1 {
                    assert(out[i] == sub[i] && out[j] == sub[j]);
                } else {
                    assert(out[i] == sub[i] && out[j] == fs.last());
                    assert(sub.contains(sub[i]));
                    assert(head.contains(sub[i]));
                    let v = choose|v: int| 0 <= v < head.len() && head[v] == sub[i];
                    assert(fs[v] == sub[i] && fs[fs.len() - 1] == fs.last());
                    assert(fs[v].attr != fs[fs.len() - 1].attr);
                }
            }
        }
    }
}

/// Applying an attribute-distinct assignment list to attribute-distinct
/// fields leaves the fields attribute-distinct: at most one field per
/// attribute survives every `set`.
pub proof fn lemma_apply_assigns_keeps_distinct(fs: Seq<FieldV>, asg: Seq<AssignV>)
    requires
        crate::store::fields_wf(fs),
        asg_attrs_distinct(asg),
    ensures
        crate::store::fields_wf(apply_assigns_s(fs, asg)),
{
    lemma_apply_assigns_form(fs, asg);
    let pred = |f: FieldV| !attrs_of(asg).contains(f.attr);
    lemma_filter_keeps_distinct(fs, pred);
    let base = fs.filter(pred);
    let gs = fields_of(asg);
    let out = apply_assigns_s(fs, asg);
    assert(out == base + gs);
    assert forall|i: int, j: int| 0 <= i < j < out.len() implies (#[trigger] out[i]).attr != (
    #[trigger] out[j]).attr by {
        let b = base.len();
        if j < b {
            assert(out[i] == base[i] && out[j] == base[j]);
        } else if i >= b {
            assert(out[i] == gs[i - b] && out[j] == gs[j - b]);
            assert(gs[i - b].attr == asg[i - b].attr && gs[j - b].attr == asg[j - b].attr);
        } else {
            assert(out[i] == base[i] && out[j] == gs[j - b]);
            assert(pred(base[i]));
            assert(gs[j - b].attr == asg[j - b].attr);
            assert(attrs_of(asg)[j - b] == asg[j - b].attr);
            if base[i].attr == gs[j - b].attr {
                assert(attrs_of(asg).contains(base[i].attr));
            }
        }
    }
}

/// The store keeps at most one field per attribute on every record,
/// through any `set` with distinct assignment attributes.
pub proof fn lemma_set_preserves_field_invariant(
    rs: Seq<RecordV>,
    name: Seq<char>,
    asg: Seq<AssignV>,
    id: Seq<char>,
    ts: int,
)
    requires
        forall|k: int| 0 <= k < rs.len() ==> crate::store::fields_wf((#[trigger] rs[k]).fields),
        asg_attrs_distinct(asg),
    ensures
        forall|k: int|
            0 <= k < spec_set(rs, name, asg, id, ts).len() ==> crate::store::fields_wf(
                (#[trigger] spec_set(rs, name, asg, id, ts)[k]).fields,
            ),
{
    lemma_find_rec(rs, name);
    let rs2 = spec_set(rs, name, asg, id, ts);
    let i = find_rec(rs, name);
    assert forall|k: int| 0 <= k < rs2.len() implies crate::store::fields_wf(
        (#[trigger] rs2[k]).fields,
    ) by {
        if i >= 0 {
            if k == i {
                lemma_apply_assigns_keeps_distinct(rs[i].fields, asg);
            } else {
                assert(rs2[k] == rs[k]);
            }
        } else {
            if k == rs.len() {
                assert(crate::store::fields_wf(Seq::<FieldV>::empty()));
                lemma_apply_assigns_keeps_distinct(Seq::<FieldV>::empty(), asg);
            } else {
                assert(rs2[k] == rs[k]);
            }
        }
    }
}

/// Dropping attributes also keeps at most one field per attribute.
pub proof fn lemma_remove_attrs_preserves_field_invariant(
    r: RecordV,
    attrs: Seq<Seq<char>>,
    ts: int,
)
    requires
        crate::store::fields_wf(r.fields),
    ensures
        crate::store::fields_wf(crate::store::remove_attrs_record_s(r, attrs, ts).fields),
{
    lemma_filter_keeps_distinct(r.fields, |f: FieldV| !attrs.contains(f.attr));
}

/// The display order of fields compares any two and composes.
proof fn lemma_field_order()
    ensures
        crate::sorting::connected(crate::sorting::field_leq_f()),
        vstd::relations::transitive(crate::sorting::field_leq_f()),
{
    let leq = crate::sorting::field_leq_f();
    assert(crate::sorting::connected(leq)) by {
        assert forall|a: FieldV, b: FieldV| #[trigger] leq(a, b) || #[trigger] leq(b, a) by {
            crate::chars::lemma_chars_le_connected(a.attr, b.attr);
        }
    }
    assert(vstd::relations::transitive(leq)) by {
        assert forall|a: FieldV, b: FieldV, c: FieldV| #[trigger] leq(a, b) && #[trigger] leq(
            b,
            c,
        ) implies leq(a, c) by {
            crate::chars::lemma_chars_le_transitive(a.attr, b.attr, c.attr);
        }
    }
}

/// A history snapshot of attribute-distinct fields is well formed: it is
/// attribute-sorted and still holds at most one field per attribute, so
/// every snapshot a mutation records is well formed.
pub proof fn lemma_snapshot_wf(cur: Seq<FieldV>, d: int)
    requires
        crate::store::fields_wf(cur),
    ensures
        crate::store::entry_wf(
            EntryV { datetime: d, fields: crate::sorting::sort_fields_s(cur) },
        ),
{
    broadcast use vstd::seq_lib::group_to_multiset_ensures;

    let leq = crate::sorting::field_leq_f();
    lemma_field_order();
    crate::sorting::lemma_sort_by_ins_ensures(leq, cur);
    let sorted = crate::sorting::sort_fields_s(cur);
    assert(cur.no_duplicates()) by {
        assert forall|i: int, j: int|
            0 <= i < cur.len() && 0 <= j < cur.len() && i != j implies cur[i] != cur[j] by {
            if i < j {
                assert(cur[i].attr != cur[j].attr);
            } else {
                assert(cur[j].attr != cur[i].attr);
            }
        }
    }
    cur.lemma_multiset_has_no_duplicates();
    sorted.lemma_multiset_has_no_duplicates_conv();
    assert(crate::store::fields_wf(sorted)) by {
        assert forall|i: int, j: int| 0 <= i < j < sorted.len() implies (
        #[trigger] sorted[i]).attr != (#[trigger] sorted[j]).attr by {
            if sorted[i].attr == sorted[j].attr {
                assert(sorted[i] != sorted[j]);
                assert(sorted.contains(sorted[i]) && sorted.contains(sorted[j]));
                assert(cur.to_multiset().contains(sorted[i]));
                assert(cur.to_multiset().contains(sorted[j]));
                assert(cur.contains(sorted[i]) && cur.contains(sorted[j]));
                let a = choose|a: int| 0 <= a < cur.len() && cur[a] == sorted[i];
                let b = choose|b: int| 0 <= b < cur.len() && cur[b] == sorted[j];
                assert(a != b);
                if a < b {
                    assert(cur[a].attr != cur[b].attr);
                } else {
                    assert(cur[b].attr != cur[a].attr);
                }
            }
        }
    }
    assert(vstd::relations::sorted_by(sorted, |a: FieldV, b: FieldV| crate::sorting::field_le(
        a,
        b,
    ))) by {
        assert(forall|a: FieldV, b: FieldV|
            #[trigger] leq(a, b) == (|x: FieldV, y: FieldV| crate::sorting::field_le(x, y))(a, b));
    }
}

/// Two fields that agree on attribute and sensitivity, and on value
/// wherever the value is not sensitive.
pub open spec fn masked_eq(a: FieldV, b: FieldV) -> bool {
    a.attr == b.attr && a.sensitive == b.sensitive && (!a.sensitive ==> a.value == b.value)
}

/// Pointwise [`masked_eq`] over two field lists.
pub open spec fn masked_eq_seq(s: Seq<FieldV>, t: Seq<FieldV>) -> bool {
    s.len() == t.len() && (forall|i: int| 0 <= i < s.len() ==> masked_eq(#[trigger] s[i], t[i]))
}

/// Insertion respects the masked relation.
proof fn lemma_insert_masked(x: FieldV, y: FieldV, s: Seq<FieldV>, t: Seq<FieldV>)
    requires
        masked_eq(x, y),
        masked_eq_seq(s, t),
    ensures
        masked_eq_seq(
            crate::sorting::insert_by(crate::sorting::field_leq_f(), x, s),
            crate::sorting::insert_by(crate::sorting::field_leq_f(), y, t),
        ),
    decreases s.len(),
{
    let leq = crate::sorting::field_leq_f();
    let outs = crate::sorting::insert_by(leq, x, s);
    let outt = crate::sorting::insert_by(leq, y, t);
    if s.len() == 0 {
        assert(masked_eq_seq(outs, outt));
    } else {
        assert(masked_eq(s[0], t[0]));
        assert(leq(s[0], x) == leq(t[0], y));
        if leq(s[0], x) {
            let sr = s.subrange(1, s.len() as int);
            let tr = t.subrange(1, t.len() as int);
            assert forall|i: int| 0 <= i < sr.len() implies masked_eq(#[trigger] sr[i], tr[i]) by {
                assert(sr[i] == s[i + 1] && tr[i] == t[i + 1]);
            }
            lemma_insert_masked(x, y, sr, tr);
            let subs = crate::sorting::insert_by(leq, x, sr);
            let subt = crate::sorting::insert_by(leq, y, tr);
            assert(outs =~= seq![s[0]] + subs);
            assert(outt =~= seq![t[0]] + subt);
            assert forall|i: int| 0 <= i < outs.len() implies masked_eq(
                #[trigger] outs[i],
                outt[i],
            ) by {
                if i > 0 {
                    assert(outs[i] == subs[i - 1] && outt[i] == subt[i - 1]);
                }
            }
        } else {
            assert(outs =~= seq![x] + s);
            assert(outt =~= seq![y] + t);
            assert forall|i: int| 0 <= i < outs.len() implies masked_eq(
                #[trigger] outs[i],
                outt[i],
            ) by {
                if i > 0 {
                    assert(outs[i] == s[i - 1] && outt[i] == t[i - 1]);
                }
            }
        }
    }
}

/// Sorting respects the masked relation.
proof fn lemma_sort_masked(s: Seq<FieldV>, t: Seq<FieldV>)
    requires
        masked_eq_seq(s, t),
    ensures
        masked_eq_seq(crate::sorting::sort_fields_s(s), crate::sorting::sort_fields_s(t)),
    decreases s.len(),
{
    if s.len() > 0 {
        let sd = s.drop_last();
        let td = t.drop_last();
        assert forall|i: int| 0 <= i < sd.len() implies masked_eq(#[trigger] sd[i], td[i]) by {
            assert(sd[i] == s[i] && td[i] == t[i]);
        }
        lemma_sort_masked(sd, td);
        assert(masked_eq(s.last(), t.last()));
        lemma_insert_masked(
            s.last(),
            t.last(),
            crate::sorting::sort_by_ins(crate::sorting::field_leq_f(), sd),
            crate::sorting::sort_by_ins(crate::sorting::field_leq_f(), td),
        );
    }
}

/// Masked rendering cannot tell masked-equal field lists apart.
proof fn lemma_fmt_fields_masked(s: Seq<FieldV>, t: Seq<FieldV>)
    requires
        masked_eq_seq(s, t),
    ensures
        crate::eval::fmt_fields_s(s, true) == crate::eval::fmt_fields_s(t, true),
    decreases s.len(),
{
    if s.len() > 0 {
        let sr = s.subrange(1, s.len() as int);
        let tr = t.subrange(1, t.len() as int);
        assert forall|i: int| 0 <= i < sr.len() implies masked_eq(#[trigger] sr[i], tr[i]) by {
            assert(sr[i] == s[i + 1] && tr[i] == t[i + 1]);
        }
        lemma_fmt_fields_masked(sr, tr);
        assert(masked_eq(s[0], t[0]));
        assert(crate::eval::fmt_field_s(s[0], true) == crate::eval::fmt_field_s(t[0], true));
    }
}

/// The masking law: a masked rendering depends only on the record's name
/// and its fields' attributes and flags, never on a sensitive value. Two
/// records that differ only in sensitive values render identically under
/// `show`.
pub proof fn lemma_show_masks_sensitive_values(r1: RecordV, r2: RecordV)
    requires
        r1.name == r2.name,
        masked_eq_seq(r1.fields, r2.fields),
    ensures
        crate::eval::fmt_record_s(r1, true) == crate::eval::fmt_record_s(r2, true),
{
    lemma_sort_masked(r1.fields, r2.fields);
    lemma_fmt_fields_masked(
        crate::sorting::sort_fields_s(r1.fields),
        crate::sorting::sort_fields_s(r2.fields),
    );
}

/// A substring of the right part of a concatenation is a substring of
/// the whole.
proof fn lemma_substring_extend_left(a: Seq<char>, b: Seq<char>, v: Seq<char>)
    requires
        crate::chars::has_substring(b, v),
    ensures
        crate::chars::has_substring(a + b, v),
{
    let k = choose|k: int|
        0 <= k && k + v.len() <= b.len() && #[trigger] b.subrange(k, k + v.len() as int) == v;
    assert((a + b).subrange(a.len() + k, a.len() + k + v.len()) =~= b.subrange(
        k,
        k + v.len() as int,
    ));
}

/// An unmasked field rendering shows the field's value verbatim.
proof fn lemma_fmt_fields_reveal(fs: Seq<FieldV>, i: int)
    requires
        0 <= i < fs.len(),
    ensures
        crate::chars::has_substring(crate::eval::fmt_fields_s(fs, false), fs[i].value),
    decreases i,
{
    let whole = crate::eval::fmt_fields_s(fs, false);
    let head = crate::eval::fmt_field_s(fs[0], false);
    let rest = fs.subrange(1, fs.len() as int);
    assert(whole == head + crate::eval::fmt_fields_s(rest, false));
    if i == 0 {
        let f = fs[0];
        let k = 1 + f.attr.len() + 2;
        assert(head == " "@ + f.attr + "='"@ + f.value + "'"@);
        reveal_strlit(" ");
        reveal_strlit("='");
        reveal_strlit("'");
        assert(head.subrange(k as int, k + f.value.len() as int) =~= f.value);
        assert(whole.subrange(k as int, k + f.value.len() as int) =~= f.value);
        assert(crate::chars::has_substring(whole, f.value));
    } else {
        lemma_fmt_fields_reveal(rest, i - 1);
        assert(rest[i - 1] == fs[i]);
        lemma_substring_extend_left(head, crate::eval::fmt_fields_s(rest, false), fs[i].value);
    }
}

/// The revealing law: an unmasked record rendering always contains every
/// field's literal value.
pub proof fn lemma_reveal_shows_value(r: RecordV, i: int)
    requires
        0 <= i < r.fields.len(),
    ensures
        crate::chars::has_substring(crate::eval::fmt_record_s(r, false), r.fields[i].value),
{
    crate::chars::lemma_chars_le_connected(r.fields[i].attr, r.fields[i].attr);
    let leq = crate::sorting::field_leq_f();
    assert(crate::sorting::connected(leq)) by {
        assert forall|a: FieldV, b: FieldV| #[trigger] leq(a, b) || #[trigger] leq(b, a) by {
            crate::chars::lemma_chars_le_connected(a.attr, b.attr);
        }
    }
    assert(vstd::relations::transitive(leq)) by {
        assert forall|a: FieldV, b: FieldV, c: FieldV| #[trigger] leq(a, b) && #[trigger] leq(
            b,
            c,
        ) implies leq(a, c) by {
            crate::chars::lemma_chars_le_transitive(a.attr, b.attr, c.attr);
        }
    }
    crate::sorting::lemma_sort_by_ins_ensures(leq, r.fields);
    let sorted = crate::sorting::sort_fields_s(r.fields);
    broadcast use vstd::seq_lib::group_to_multiset_ensures;

    assert(r.fields.to_multiset().contains(r.fields[i]));
    assert(sorted.to_multiset().contains(r.fields[i]));
    assert(sorted.contains(r.fields[i]));
    let j = choose|j: int| 0 <= j < sorted.len() && #[trigger] sorted[j] == r.fields[i];
    lemma_fmt_fields_reveal(sorted, j);
    lemma_substring_extend_left(
        "'"@ + r.name + "'"@,
        crate::eval::fmt_fields_s(sorted, false),
        r.fields[i].value,
    );
    assert(("'"@ + r.name + "'"@) + crate::eval::fmt_fields_s(sorted, false)
        =~= crate::eval::fmt_record_s(r, false));
}

/// No keyword is recognized at a quote character.
proof fn lemma_no_keyword_at_quote(text: Seq<char>, pos: int)
    requires
        0 <= pos < text.len(),
        text[pos] == '\'',
    ensures
        crate::lex::spec_keyword_at(text, pos) is None,
{
    reveal_strlit("set");
    reveal_strlit("del");
    reveal_strlit("delete");
    reveal_strlit("show");
    reveal_strlit("reveal");
    reveal_strlit("copy");
    reveal_strlit("history");
    reveal_strlit("rename");
    reveal_strlit("import");
    reveal_strlit("secret");
    reveal_strlit("sensitive");
    reveal_strlit("all");
    reveal_strlit("and");
    reveal_strlit("or");
    reveal_strlit("contains");
    reveal_strlit("matches");
    reveal_strlit("like");
    reveal_strlit("is");
    assert forall|kw: Seq<char>|
        #![trigger crate::lex::kw_match(text, pos, kw)]
        kw.len() > 0 && kw[0] != '\'' implies !crate::lex::kw_match(text, pos, kw) by {
        if crate::lex::kw_match(text, pos, kw) {
            assert(text.subrange(pos, pos + kw.len() as int)[0] == text[pos]);
        }
    }
    assert(!crate::lex::kw_match(text, pos, "set"@));
    assert(!crate::lex::kw_match(text, pos, "del"@));
    assert(!crate::lex::kw_match(text, pos, "delete"@));
    assert(!crate::lex::kw_match(text, pos, "show"@));
    assert(!crate::lex::kw_match(text, pos, "reveal"@));
    assert(!crate::lex::kw_match(text, pos, "copy"@));
    assert(!crate::lex::kw_match(text, pos, "history"@));
    assert(!crate::lex::kw_match(text, pos, "rename"@));
    assert(!crate::lex::kw_match(text, pos, "import"@));
    assert(!crate::lex::kw_match(text, pos, "secret"@));
    assert(!crate::lex::kw_match(text, pos, "sensitive"@));
    assert(!crate::lex::kw_match(text, pos, "all"@));
    assert(!crate::lex::kw_match(text, pos, "and"@));
    assert(!crate::lex::kw_match(text, pos, "or"@));
    assert(!crate::lex::kw_match(text, pos, "contains"@));
    assert(!crate::lex::kw_match(text, pos, "matches"@));
    assert(!crate::lex::kw_match(text, pos, "like"@));
    assert(!crate::lex::kw_match(text, pos, "is"@));
}

/// The quote scan stops exactly at the closing quote of a clean run.
proof fn lemma_quote_scan_to(text: Seq<char>, j: int, end: int)
    requires
        0 <= j <= end < text.len(),
        forall|k: int| j <= k < end ==> #[trigger] text[k] != '\'' && text[k] != '\n',
        text[end] == '\'',
    ensures
        crate::lex::quote_scan_end(text, j) == end,
    decreases end - j,
{
    if j < end {
        lemma_quote_scan_to(text, j + 1, end);
    }
}

/// The round-trip law on the import command: rendering `import` with a
/// quoted path that holds no quote or newline, then lexing and parsing
/// the rendered text, returns the very command. (The unquoted positions
/// of the other command shapes admit attribute names that re-lex as
/// keywords, so the law is stated for this quoted shape; the others are
/// exercised by tests.)
pub proof fn lemma_import_round_trip(p: Seq<char>)
    requires
        forall|i: int| 0 <= i < p.len() ==> #[trigger] p[i] != '\'' && p[i] != '\n',
    ensures
        ({
            let text = crate::parse::text_of_cmd(crate::parse::CmdV::Import(p));
            &&& crate::lex::spec_lex(text) matches Ok(toks)
            &&& crate::parse::spec_parse_cmd(toks, 0) == Some(
                (crate::parse::CmdV::Import(p), toks.len() as int),
            )
        }),
{
    reveal_strlit("set");
    reveal_strlit("del");
    reveal_strlit("delete");
    reveal_strlit("show");
    reveal_strlit("reveal");
    reveal_strlit("copy");
    reveal_strlit("history");
    reveal_strlit("rename");
    reveal_strlit("import");
    reveal_strlit("secret");
    reveal_strlit("sensitive");
    reveal_strlit("all");
    reveal_strlit("and");
    reveal_strlit("or");
    reveal_strlit("contains");
    reveal_strlit("matches");
    reveal_strlit("like");
    reveal_strlit("is");
    reveal_strlit("import '");
    reveal_strlit("'");
    let head = "import '"@;
    let text = crate::parse::text_of_cmd(crate::parse::CmdV::Import(p));
    assert(text == head + p + "'"@);
    let plen = p.len() as int;
    assert(text.len() == 9 + plen);
    assert(forall|i: int| 0 <= i < 8 ==> #[trigger] text[i] == head[i]);
    assert(forall|i: int| 0 <= i < plen ==> #[trigger] text[8 + i] == p[i]);
    assert(text[8 + plen] == '\'');
    // the head is the keyword `import` at a word boundary
    assert(crate::lex::kw_match(text, 0, "import"@)) by {
        assert(text.subrange(0, 6) =~= "import"@);
        assert(!crate::lex::is_word_char(text[6]));
    }
    assert forall|kw: Seq<char>|
        #![trigger crate::lex::kw_match(text, 0, kw)]
        kw.len() > 0 && (kw[0] != 'i' || (kw.len() > 1 && kw[1] != 'm'))
        implies !crate::lex::kw_match(text, 0, kw) by {
        if crate::lex::kw_match(text, 0, kw) {
            assert(text.subrange(0, kw.len() as int)[0] == text[0]);
            if kw.len() > 1 {
                assert(text.subrange(0, kw.len() as int)[1] == text[1]);
            }
        }
    }
    assert(crate::lex::spec_keyword_at(text, 0) == Some(("import"@, 6int))) by {
        assert(!crate::lex::kw_match(text, 0, "set"@));
        assert(!crate::lex::kw_match(text, 0, "del"@));
        assert(!crate::lex::kw_match(text, 0, "delete"@));
        assert(!crate::lex::kw_match(text, 0, "show"@));
        assert(!crate::lex::kw_match(text, 0, "reveal"@));
        assert(!crate::lex::kw_match(text, 0, "copy"@));
        assert(!crate::lex::kw_match(text, 0, "history"@));
        assert(!crate::lex::kw_match(text, 0, "rename"@));
    }
    assert(crate::lex::spec_lex_token(text, 0) == Some(
        (crate::lex::TokenV::Keyword("import"@), 6int),
    ));
    // a space, then the quoted path
    assert(crate::lex::skip_ws_end(text, 0) == 0) by {
        assert(!crate::lex::is_space(text[0]));
    }
    assert(crate::lex::skip_ws_end(text, 6) == 7) by {
        assert(crate::lex::is_space(text[6]));
        assert(!crate::lex::is_space(text[7]));
        assert(crate::lex::skip_ws_end(text, 7) == 7);
    }
    lemma_no_keyword_at_quote(text, 7);
    lemma_quote_scan_to(text, 8, 8 + plen);
    assert(crate::lex::spec_lex_value(text, 7) == Some(
        (crate::lex::TokenV::Value(text.subrange(8, 8 + plen)), 9 + plen),
    ));
    assert(text.subrange(8, 8 + plen) =~= p);
    assert(crate::lex::spec_lex_token(text, 7) == Some(
        (crate::lex::TokenV::Value(p), 9 + plen),
    ));
    // nothing follows the closing quote
    assert(crate::lex::skip_ws_end(text, 9 + plen) == 9 + plen);
    assert(crate::lex::spec_lex_from(text, 9 + plen) == Ok::<Seq<crate::lex::TokenV>, int>(
        Seq::empty(),
    ));
    assert(crate::lex::spec_lex_from(text, 6) == Ok::<Seq<crate::lex::TokenV>, int>(
        seq![crate::lex::TokenV::Value(p)] + Seq::empty(),
    ));
    assert(crate::lex::spec_lex_from(text, 0) == Ok::<Seq<crate::lex::TokenV>, int>(
        seq![crate::lex::TokenV::Keyword("import"@)] + (seq![crate::lex::TokenV::Value(p)]
            + Seq::empty()),
    ));
    let toks = seq![
        crate::lex::TokenV::Keyword("import"@),
        crate::lex::TokenV::Value(p),
    ];
    assert(seq![crate::lex::TokenV::Keyword("import"@)] + (seq![crate::lex::TokenV::Value(p)]
        + Seq::<crate::lex::TokenV>::empty()) =~= toks);
    assert(crate::lex::spec_lex(text) == Ok::<Seq<crate::lex::TokenV>, int>(toks));
    // parsing the two tokens reads exactly the import command
    assert(crate::parse::spec_parse_cmd(toks, 0) == Some(
        (crate::parse::CmdV::Import(p), 2int),
    )) by {
        assert(toks[0] == crate::lex::TokenV::Keyword("import"@));
        assert(toks[1] == crate::lex::TokenV::Value(p));
        assert(!crate::parse::kw_at(toks, 0, "set"@));
        assert(!crate::parse::kw_at(toks, 0, "del"@));
        assert(!crate::parse::kw_at(toks, 0, "delete"@));
        assert(!crate::parse::kw_at(toks, 0, "show"@));
        assert(!crate::parse::kw_at(toks, 0, "reveal"@));
        assert(!crate::parse::kw_at(toks, 0, "copy"@));
        assert(!crate::parse::kw_at(toks, 0, "history"@));
        assert(!crate::parse::kw_at(toks, 0, "rename"@));
        assert(crate::parse::kw_at(toks, 0, "import"@));
        assert(crate::parse::val_at(toks, 1) == Some(p));
    }
}

/// Lexing the rendered show-by-name command yields the keyword and the
/// quoted name.
proof fn lemma_show_name_lex(n: Seq<char>)
    requires
        forall|i: int| 0 <= i < n.len() ==> #[trigger] n[i] != '\'' && n[i] != '\n',
    ensures
        crate::lex::spec_lex("show "@ + "'"@ + n + "'"@) == Ok::<Seq<crate::lex::TokenV>, int>(
            seq![
                crate::lex::TokenV::Keyword("show"@),
                crate::lex::TokenV::Value(n),
            ],
        ),
{
    reveal_strlit("set");
    reveal_strlit("del");
    reveal_strlit("delete");
    reveal_strlit("show");
    reveal_strlit("reveal");
    reveal_strlit("copy");
    reveal_strlit("history");
    reveal_strlit("rename");
    reveal_strlit("import");
    reveal_strlit("secret");
    reveal_strlit("sensitive");
    reveal_strlit("all");
    reveal_strlit("and");
    reveal_strlit("or");
    reveal_strlit("contains");
    reveal_strlit("matches");
    reveal_strlit("like");
    reveal_strlit("is");
    reveal_strlit("show ");
    reveal_strlit("'");
    let head = "show "@ + "'"@;
    let text = head + n + "'"@;
    let plen = n.len() as int;
    assert(text.len() == 7 + plen);
    assert(forall|i: int| 0 <= i < 6 ==> #[trigger] text[i] == head[i]);
    assert(forall|i: int| 0 <= i < plen ==> #[trigger] text[6 + i] == n[i]);
    assert(text[6 + plen] == '\'');
    // the head is the keyword `show` at a word boundary
    assert(crate::lex::kw_match(text, 0, "show"@)) by {
        assert(text.subrange(0, 4) =~= "show"@);
        assert(!crate::lex::is_word_char(text[4]));
    }
    assert forall|kw: Seq<char>|
        #![trigger crate::lex::kw_match(text, 0, kw)]
        kw.len() > 0 && (kw[0] != 's' || (kw.len() > 1 && kw[1] != 'h'))
        implies !crate::lex::kw_match(text, 0, kw) by {
        if crate::lex::kw_match(text, 0, kw) {
            assert(text.subrange(0, kw.len() as int)[0] == text[0]);
            if kw.len() > 1 {
                assert(text.subrange(0, kw.len() as int)[1] == text[1]);
            }
        }
    }
    assert(crate::lex::spec_keyword_at(text, 0) == Some(("show"@, 4int))) by {
        assert(!crate::lex::kw_match(text, 0, "set"@));
        assert(!crate::lex::kw_match(text, 0, "del"@));
        assert(!crate::lex::kw_match(text, 0, "delete"@));
    }
    assert(crate::lex::spec_lex_token(text, 0) == Some(
        (crate::lex::TokenV::Keyword("show"@), 4int),
    ));
    // a space, then the quoted name
    assert(crate::lex::skip_ws_end(text, 0) == 0) by {
        assert(!crate::lex::is_space(text[0]));
    }
    assert(crate::lex::skip_ws_end(text, 4) == 5) by {
        assert(crate::lex::is_space(text[4]));
        assert(!crate::lex::is_space(text[5]));
        assert(crate::lex::skip_ws_end(text, 5) == 5);
    }
    lemma_no_keyword_at_quote(text, 5);
    lemma_quote_scan_to(text, 6, 6 + plen);
    assert(crate::lex::spec_lex_value(text, 5) == Some(
        (crate::lex::TokenV::Value(text.subrange(6, 6 + plen)), 7 + plen),
    ));
    assert(text.subrange(6, 6 + plen) =~= n);
    assert(crate::lex::spec_lex_token(text, 5) == Some(
        (crate::lex::TokenV::Value(n), 7 + plen),
    ));
    // nothing follows the closing quote
    assert(crate::lex::skip_ws_end(text, 7 + plen) == 7 + plen);
    assert(crate::lex::spec_lex_from(text, 7 + plen) == Ok::<Seq<crate::lex::TokenV>, int>(
        Seq::empty(),
    ));
    assert(crate::lex::spec_lex_from(text, 4) == Ok::<Seq<crate::lex::TokenV>, int>(
        seq![crate::lex::TokenV::Value(n)] + Seq::empty(),
    ));
    assert(crate::lex::spec_lex_from(text, 0) == Ok::<Seq<crate::lex::TokenV>, int>(
        seq![crate::lex::TokenV::Keyword("show"@)] + (seq![crate::lex::TokenV::Value(n)]
            + Seq::empty()),
    ));
    assert(seq![crate::lex::TokenV::Keyword("show"@)] + (seq![crate::lex::TokenV::Value(n)]
        + Seq::<crate::lex::TokenV>::empty()) =~= seq![
        crate::lex::TokenV::Keyword("show"@),
        crate::lex::TokenV::Value(n),
    ]);
}

/// The round-trip law on a show-by-name command: rendering `show` with a
/// quoted name that holds no quote or newline, then lexing and parsing
/// the rendered text, returns the very command, through the parser's
/// lone-name fallback.
pub proof fn lemma_show_name_round_trip(n: Seq<char>)
    requires
        forall|i: int| 0 <= i < n.len() ==> #[trigger] n[i] != '\'' && n[i] != '\n',
    ensures
        ({
            let text = crate::parse::text_of_cmd(
                crate::parse::CmdV::Show(crate::parse::QueryV::Name(n)),
            );
            &&& crate::lex::spec_lex(text) matches Ok(toks)
            &&& crate::parse::spec_parse_cmd(toks, 0) == Some(
                (
                    crate::parse::CmdV::Show(crate::parse::QueryV::Name(n)),
                    toks.len() as int,
                ),
            )
        }),
{
    reveal_strlit("set");
    reveal_strlit("del");
    reveal_strlit("delete");
    reveal_strlit("show");
    reveal_strlit("all");
    reveal_strlit("show ");
    reveal_strlit("'");
    lemma_show_name_lex(n);
    let text = crate::parse::text_of_cmd(crate::parse::CmdV::Show(crate::parse::QueryV::Name(n)));
    assert(text =~= "show "@ + "'"@ + n + "'"@) by {
        assert(crate::parse::text_of_query(crate::parse::QueryV::Name(n)) == "'"@ + n + "'"@);
    }
    let toks = seq![crate::lex::TokenV::Keyword("show"@), crate::lex::TokenV::Value(n)];
    assert(crate::lex::spec_lex(text) == Ok::<Seq<crate::lex::TokenV>, int>(toks));
    // parsing the two tokens reads show of the lone name: the boolean
    // grammar fails at the missing third token, and the fallback applies
    assert(toks[0] == crate::lex::TokenV::Keyword("show"@));
    assert(toks[1] == crate::lex::TokenV::Value(n));
    assert(!crate::parse::kw_at(toks, 0, "set"@));
    assert(!crate::parse::kw_at(toks, 0, "del"@));
    assert(!crate::parse::kw_at(toks, 0, "delete"@));
    assert(crate::parse::kw_at(toks, 0, "show"@));
    assert(!crate::parse::kw_at(toks, 1, "all"@));
    assert(crate::parse::val_at(toks, 1) == Some(n));
    assert(crate::parse::spec_parse_filter(toks, 1) is None) by {
        assert(!crate::parse::sym_at(toks, 1, '('));
        assert(crate::parse::val_at(toks, 3) is None);
    }
    assert(crate::parse::spec_parse_and(toks, 1) is None);
    assert(crate::parse::spec_parse_or(toks, 1) is None);
    assert(crate::parse::spec_parse_query(toks, 1) == Some(
        (crate::parse::QueryV::Name(n), 2int),
    ));
    assert(crate::parse::spec_parse_cmd(toks, 0) == Some(
        (
            crate::parse::CmdV::Show(crate::parse::QueryV::Name(n)),
            2int,
        ),
    ));
}

/// Lexing the rendered rename command yields the keyword and the two
/// quoted names.
proof fn lemma_rename_lex(o: Seq<char>, n: Seq<char>)
    requires
        forall|i: int| 0 <= i < o.len() ==> #[trigger] o[i] != '\'' && o[i] != '\n',
        forall|i: int| 0 <= i < n.len() ==> #[trigger] n[i] != '\'' && n[i] != '\n',
    ensures
        crate::lex::spec_lex("rename '"@ + o + "' '"@ + n + "'"@) == Ok::<
            Seq<crate::lex::TokenV>,
            int,
        >(
            seq![
                crate::lex::TokenV::Keyword("rename"@),
                crate::lex::TokenV::Value(o),
                crate::lex::TokenV::Value(n),
            ],
        ),
{
    reveal_strlit("set");
    reveal_strlit("del");
    reveal_strlit("delete");
    reveal_strlit("show");
    reveal_strlit("reveal");
    reveal_strlit("copy");
    reveal_strlit("history");
    reveal_strlit("rename");
    reveal_strlit("import");
    reveal_strlit("secret");
    reveal_strlit("sensitive");
    reveal_strlit("all");
    reveal_strlit("and");
    reveal_strlit("or");
    reveal_strlit("contains");
    reveal_strlit("matches");
    reveal_strlit("like");
    reveal_strlit("is");
    reveal_strlit("rename '");
    reveal_strlit("' '");
    reveal_strlit("'");
    let head = "rename '"@;
    let mid = "' '"@;
    let text = head + o + mid + n + "'"@;
    let olen = o.len() as int;
    let nlen = n.len() as int;
    assert(text.len() == 12 + olen + nlen);
    assert(forall|i: int| 0 <= i < 8 ==> #[trigger] text[i] == head[i]);
    assert(forall|i: int| 0 <= i < olen ==> #[trigger] text[8 + i] == o[i]);
    assert(text[8 + olen] == mid[0] && text[9 + olen] == mid[1] && text[10 + olen] == mid[2]);
    assert(forall|i: int| 0 <= i < nlen ==> #[trigger] text[11 + olen + i] == n[i]);
    assert(text[11 + olen + nlen] == '\'');
    // the head is the keyword `rename` at a word boundary
    assert(crate::lex::kw_match(text, 0, "rename"@)) by {
        assert(text.subrange(0, 6) =~= "rename"@);
        assert(!crate::lex::is_word_char(text[6]));
    }
    assert forall|kw: Seq<char>|
        #![trigger crate::lex::kw_match(text, 0, kw)]
        kw.len() > 0 && (kw[0] != 'r' || (kw.len() > 2 && kw[2] != 'n'))
        implies !crate::lex::kw_match(text, 0, kw) by {
        if crate::lex::kw_match(text, 0, kw) {
            assert(text.subrange(0, kw.len() as int)[0] == text[0]);
            if kw.len() > 2 {
                assert(text.subrange(0, kw.len() as int)[2] == text[2]);
            }
        }
    }
    assert(crate::lex::spec_keyword_at(text, 0) == Some(("rename"@, 6int))) by {
        assert(!crate::lex::kw_match(text, 0, "set"@));
        assert(!crate::lex::kw_match(text, 0, "del"@));
        assert(!crate::lex::kw_match(text, 0, "delete"@));
        assert(!crate::lex::kw_match(text, 0, "show"@));
        assert(!crate::lex::kw_match(text, 0, "reveal"@));
        assert(!crate::lex::kw_match(text, 0, "copy"@));
        assert(!crate::lex::kw_match(text, 0, "history"@));
    }
    assert(crate::lex::spec_lex_token(text, 0) == Some(
        (crate::lex::TokenV::Keyword("rename"@), 6int),
    ));
    // a space, the first quoted name, a space, the second quoted name
    assert(crate::lex::skip_ws_end(text, 0) == 0) by {
        assert(!crate::lex::is_space(text[0]));
    }
    assert(crate::lex::skip_ws_end(text, 6) == 7) by {
        assert(crate::lex::is_space(text[6]));
        assert(!crate::lex::is_space(text[7]));
        assert(crate::lex::skip_ws_end(text, 7) == 7);
    }
    lemma_no_keyword_at_quote(text, 7);
    lemma_quote_scan_to(text, 8, 8 + olen);
    assert(crate::lex::spec_lex_value(text, 7) == Some(
        (crate::lex::TokenV::Value(text.subrange(8, 8 + olen)), 9 + olen),
    ));
    assert(text.subrange(8, 8 + olen) =~= o);
    assert(crate::lex::spec_lex_token(text, 7) == Some(
        (crate::lex::TokenV::Value(o), 9 + olen),
    ));
    assert(crate::lex::skip_ws_end(text, 9 + olen) == 10 + olen) by {
        assert(crate::lex::is_space(text[9 + olen]));
        assert(!crate::lex::is_space(text[10 + olen]));
        assert(crate::lex::skip_ws_end(text, 10 + olen) == 10 + olen);
    }
    lemma_no_keyword_at_quote(text, 10 + olen);
    lemma_quote_scan_to(text, 11 + olen, 11 + olen + nlen);
    assert(crate::lex::spec_lex_value(text, 10 + olen) == Some(
        (
            crate::lex::TokenV::Value(text.subrange(11 + olen, 11 + olen + nlen)),
            12 + olen + nlen,
        ),
    ));
    assert(text.subrange(11 + olen, 11 + olen + nlen) =~= n);
    assert(crate::lex::spec_lex_token(text, 10 + olen) == Some(
        (crate::lex::TokenV::Value(n), 12 + olen + nlen),
    ));
    // nothing follows the last closing quote
    assert(crate::lex::skip_ws_end(text, 12 + olen + nlen) == 12 + olen + nlen);
    assert(crate::lex::spec_lex_from(text, 12 + olen + nlen) == Ok::<
        Seq<crate::lex::TokenV>,
        int,
    >(Seq::empty()));
    assert(crate::lex::spec_lex_from(text, 9 + olen) == Ok::<Seq<crate::lex::TokenV>, int>(
        seq![crate::lex::TokenV::Value(n)] + Seq::empty(),
    ));
    assert(crate::lex::spec_lex_from(text, 6) == Ok::<Seq<crate::lex::TokenV>, int>(
        seq![crate::lex::TokenV::Value(o)] + (seq![crate::lex::TokenV::Value(n)] + Seq::empty()),
    ));
    assert(crate::lex::spec_lex_from(text, 0) == Ok::<Seq<crate::lex::TokenV>, int>(
        seq![crate::lex::TokenV::Keyword("rename"@)] + (seq![crate::lex::TokenV::Value(o)] + (
        seq![crate::lex::TokenV::Value(n)] + Seq::empty())),
    ));
    assert(seq![crate::lex::TokenV::Keyword("rename"@)] + (seq![crate::lex::TokenV::Value(o)] + (
    seq![crate::lex::TokenV::Value(n)] + Seq::<crate::lex::TokenV>::empty())) =~= seq![
        crate::lex::TokenV::Keyword("rename"@),
        crate::lex::TokenV::Value(o),
        crate::lex::TokenV::Value(n),
    ]);
}

/// The round-trip law on the rename command: rendering `rename` with two
/// quoted names that hold no quote or newline, then lexing and parsing
/// the rendered text, returns the very command.
pub proof fn lemma_rename_round_trip(o: Seq<char>, n: Seq<char>)
    requires
        forall|i: int| 0 <= i < o.len() ==> #[trigger] o[i] != '\'' && o[i] != '\n',
        forall|i: int| 0 <= i < n.len() ==> #[trigger] n[i] != '\'' && n[i] != '\n',
    ensures
        ({
            let text = crate::parse::text_of_cmd(crate::parse::CmdV::Rename(o, n));
            &&& crate::lex::spec_lex(text) matches Ok(toks)
            &&& crate::parse::spec_parse_cmd(toks, 0) == Some(
                (crate::parse::CmdV::Rename(o, n), toks.len() as int),
            )
        }),
{
    reveal_strlit("set");
    reveal_strlit("del");
    reveal_strlit("delete");
    reveal_strlit("show");
    reveal_strlit("reveal");
    reveal_strlit("copy");
    reveal_strlit("history");
    reveal_strlit("rename");
    lemma_rename_lex(o, n);
    let text = crate::parse::text_of_cmd(crate::parse::CmdV::Rename(o, n));
    assert(text == "rename '"@ + o + "' '"@ + n + "'"@);
    let toks = seq![
        crate::lex::TokenV::Keyword("rename"@),
        crate::lex::TokenV::Value(o),
        crate::lex::TokenV::Value(n),
    ];
    assert(crate::lex::spec_lex(text) == Ok::<Seq<crate::lex::TokenV>, int>(toks));
    assert(toks[0] == crate::lex::TokenV::Keyword("rename"@));
    assert(toks[1] == crate::lex::TokenV::Value(o));
    assert(toks[2] == crate::lex::TokenV::Value(n));
    assert(!crate::parse::kw_at(toks, 0, "set"@));
    assert(!crate::parse::kw_at(toks, 0, "del"@));
    assert(!crate::parse::kw_at(toks, 0, "delete"@)) by {
        assert("rename"@[0] == 'r' && "delete"@[0] == 'd');
    }
    assert(!crate::parse::kw_at(toks, 0, "show"@));
    assert(!crate::parse::kw_at(toks, 0, "reveal"@)) by {
        assert("rename"@[2] == 'n' && "reveal"@[2] == 'v');
    }
    assert(!crate::parse::kw_at(toks, 0, "copy"@));
    assert(!crate::parse::kw_at(toks, 0, "history"@));
    assert(crate::parse::kw_at(toks, 0, "rename"@));
    assert(crate::parse::val_at(toks, 1) == Some(o));
    assert(crate::parse::val_at(toks, 2) == Some(n));
    assert(crate::parse::spec_parse_cmd(toks, 0) == Some(
        (crate::parse::CmdV::Rename(o, n), 3int),
    ));
}

} // verus!
