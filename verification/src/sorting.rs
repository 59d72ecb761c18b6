//! Stable insertion sort, in specification and in code.
//!
//! The displayed order of fields, records and history entries is pinned
//! by one specification-level stable sort: an element is inserted after
//! every earlier element that compares less-or-equal, so elements that
//! compare equal keep their original order.

use vstd::prelude::*;
use vstd::relations::sorted_by;
use crate::chars::{chars_le, str_le};
use crate::store::{EntryV, Field, FieldV, HistoryEntry, Record, RecordV};

verus! {

/// `x` inserted into `s`, after every leading element that is `leq` it.
pub open spec fn insert_by<A>(leq: spec_fn(A, A) -> bool, x: A, s: Seq<A>) -> Seq<A>
    decreases s.len(),
{
    if s.len() == 0 {
        seq![x]
    } else if leq(s[0], x) {
        seq![s[0]] + insert_by(leq, x, s.subrange(1, s.len() as int))
    } else {
        seq![x] + s
    }
}

/// The stable insertion sort of `s` under `leq`: each element is
/// inserted, in order, into the sorted image of the elements before it.
pub open spec fn sort_by_ins<A>(leq: spec_fn(A, A) -> bool, s: Seq<A>) -> Seq<A>
    decreases s.len(),
{
    if s.len() == 0 {
        Seq::empty()
    } else {
        insert_by(leq, s.last(), sort_by_ins(leq, s.drop_last()))
    }
}

/// Any two elements compare one way or the other.
pub open spec fn connected<A>(leq: spec_fn(A, A) -> bool) -> bool {
    forall|a: A, b: A| #[trigger] leq(a, b) || #[trigger] leq(b, a)
}

/// Where the insertion lands: if the first `k` elements are `leq x` and
/// the next one (if any) is not, `x` goes exactly between them.
pub proof fn lemma_insert_by_split<A>(leq: spec_fn(A, A) -> bool, x: A, s: Seq<A>, k: int)
    requires
        0 <= k <= s.len(),
        forall|j: int| 0 <= j < k ==> leq(#[trigger] s[j], x),
        k < s.len() ==> !leq(s[k], x),
    ensures
        insert_by(leq, x, s) == s.subrange(0, k) + seq![x] + s.subrange(k, s.len() as int),
    decreases s.len(),
{
    if s.len() == 0 {
        assert(insert_by(leq, x, s) =~= s.subrange(0, k) + seq![x] + s.subrange(k, s.len() as int));
    } else if k == 0 {
        assert(!leq(s[0], x));
        assert(insert_by(leq, x, s) =~= s.subrange(0, 0) + seq![x] + s.subrange(0, s.len() as int));
    } else {
        let rest = s.subrange(1, s.len() as int);
        assert(leq(s[0], x));
        lemma_insert_by_split(leq, x, rest, k - 1);
        assert(rest.subrange(0, k - 1) =~= s.subrange(1, k));
        assert(rest.subrange(k - 1, rest.len() as int) =~= s.subrange(k, s.len() as int));
        assert(seq![s[0]] + (s.subrange(1, k) + seq![x] + s.subrange(k, s.len() as int)) =~= s
            .subrange(0, k) + seq![x] + s.subrange(k, s.len() as int));
    }
}

/// Inserting adds the element to the multiset and keeps the list sorted.
pub proof fn lemma_insert_by_ensures<A>(leq: spec_fn(A, A) -> bool, x: A, s: Seq<A>)
    requires
        connected(leq),
        vstd::relations::transitive(leq),
        sorted_by(s, leq),
    ensures
        insert_by(leq, x, s).len() == s.len() + 1,
        insert_by(leq, x, s).to_multiset() == s.to_multiset().insert(x),
        sorted_by(insert_by(leq, x, s), leq),
    decreases s.len(),
{
    broadcast use vstd::seq_lib::group_to_multiset_ensures;

    let out = insert_by(leq, x, s);
    if s.len() == 0 {
        assert(out =~= s.insert(0, x));
        assert(s.insert(0, x).to_multiset() == s.to_multiset().insert(x));
    } else if leq(s[0], x) {
        let rest = s.subrange(1, s.len() as int);
        assert(sorted_by(rest, leq)) by {
            assert(forall|i: int, j: int|
                0 <= i <= j < rest.len() ==> leq(#[trigger] rest[i], #[trigger] rest[j]))
                by {
                assert(forall|i: int, j: int|
                    0 <= i <= j < rest.len() ==> rest[i] == s[i + 1] && rest[j] == s[j + 1]);
            }
        }
        lemma_insert_by_ensures(leq, x, rest);
        let sub = insert_by(leq, x, rest);
        assert(out =~= seq![s[0]] + sub);
        assert(sorted_by(out, leq)) by {
            assert forall|i: int, j: int| 0 <= i < j < out.len() implies leq(
                #[trigger] out[i],
                #[trigger] out[j],
            ) by {
                if i == 0 && j > 0 {
                    assert(out[j] == sub[j - 1]);
                    assert(sub.to_multiset().contains(sub[j - 1]));
                    assert(sub.to_multiset() == rest.to_multiset().insert(x));
                    if sub[j - 1] == x {
                        assert(leq(s[0], x));
                    } else {
                        assert(rest.to_multiset().contains(sub[j - 1]));
                        let w = choose|w: int|
                            0 <= w < rest.len() && #[trigger] rest[w] == sub[j - 1];
                        assert(leq(s[0], s[w + 1]));
                    }
                } else if i > 0 {
                    assert(out[i] == sub[i - 1] && out[j] == sub[j - 1]);
                }
            }
        }
        assert(out.to_multiset() == s.to_multiset().insert(x)) by {
            assert(out =~= sub.insert(0, s[0]));
            assert(sub.insert(0, s[0]).to_multiset() == sub.to_multiset().insert(s[0]));
            assert(s =~= rest.insert(0, s[0]));
            assert(rest.insert(0, s[0]).to_multiset() == rest.to_multiset().insert(s[0]));
            assert(sub.to_multiset() == rest.to_multiset().insert(x));
            assert(rest.to_multiset().insert(x).insert(s[0]) =~= rest.to_multiset().insert(
                s[0],
            ).insert(x));
        }
    } else {
        assert(out =~= seq![x] + s);
        assert(leq(x, s[0]));
        assert(sorted_by(out, leq)) by {
            assert forall|i: int, j: int| 0 <= i < j < out.len() implies leq(
                #[trigger] out[i],
                #[trigger] out[j],
            ) by {
                if i == 0 && j > 0 {
                    assert(out[j] == s[j - 1]);
                    assert(leq(s[0], s[j - 1]));
                } else if i > 0 {
                    assert(out[i] == s[i - 1] && out[j] == s[j - 1]);
                }
            }
        }
        assert(out =~= s.insert(0, x));
        assert(s.insert(0, x).to_multiset() == s.to_multiset().insert(x));
    }
}

/// The insertion sort returns a sorted permutation.
pub proof fn lemma_sort_by_ins_ensures<A>(leq: spec_fn(A, A) -> bool, s: Seq<A>)
    requires
        connected(leq),
        vstd::relations::transitive(leq),
    ensures
        sort_by_ins(leq, s).len() == s.len(),
        sort_by_ins(leq, s).to_multiset() == s.to_multiset(),
        sorted_by(sort_by_ins(leq, s), leq),
    decreases s.len(),
{
    broadcast use vstd::seq_lib::group_to_multiset_ensures;

    if s.len() == 0 {
        assert(sorted_by(sort_by_ins(leq, s), leq));
    } else {
        lemma_sort_by_ins_ensures(leq, s.drop_last());
        lemma_insert_by_ensures(leq, s.last(), sort_by_ins(leq, s.drop_last()));
        assert(s =~= s.drop_last().push(s.last()));
        assert(s.to_multiset() == s.drop_last().to_multiset().insert(s.last()));
    }
}

/// Field order for display: by attribute.
pub open spec fn field_le(a: FieldV, b: FieldV) -> bool {
    chars_le(a.attr, b.attr)
}

/// The field comparison as a value.
pub open spec fn field_leq_f() -> spec_fn(FieldV, FieldV) -> bool {
    |a: FieldV, b: FieldV| field_le(a, b)
}

/// The display order of a field list: stably sorted by attribute.
pub open spec fn sort_fields_s(s: Seq<FieldV>) -> Seq<FieldV> {
    sort_by_ins(field_leq_f(), s)
}

/// Record order for display: by name.
pub open spec fn record_le(a: RecordV, b: RecordV) -> bool {
    chars_le(a.name, b.name)
}

/// The record comparison as a value.
pub open spec fn record_leq_f() -> spec_fn(RecordV, RecordV) -> bool {
    |a: RecordV, b: RecordV| record_le(a, b)
}

/// The display order of a record list: stably sorted by name.
pub open spec fn sort_records_s(s: Seq<RecordV>) -> Seq<RecordV> {
    sort_by_ins(record_leq_f(), s)
}

/// History order for display: newest first.
pub open spec fn entry_ge(a: EntryV, b: EntryV) -> bool {
    a.datetime >= b.datetime
}

/// The history comparison as a value.
pub open spec fn entry_geq_f() -> spec_fn(EntryV, EntryV) -> bool {
    |a: EntryV, b: EntryV| entry_ge(a, b)
}

/// The display order of a history: stably sorted, newest first.
pub open spec fn sort_entries_desc_s(s: Seq<EntryV>) -> Seq<EntryV> {
    sort_by_ins(entry_geq_f(), s)
}

/// Sorts fields by attribute, stably.
pub fn sort_fields(v: Vec<Field>) -> (r: Vec<Field>)
    ensures
        r@.map_values(|f: Field| f@) == sort_fields_s(v@.map_values(|f: Field| f@)),
{
    let ghost sv = v@.map_values(|f: Field| f@);
    let mut out: Vec<Field> = Vec::new();
    let n = v.len();
    let mut i: usize = 0;
    proof {
        assert(sv.subrange(0, 0) =~= Seq::<FieldV>::empty());
        assert(out@.map_values(|f: Field| f@) =~= Seq::<FieldV>::empty());
    }
    while i < n
        invariant
            i <= n,
            n == v@.len(),
            sv == v@.map_values(|f: Field| f@),
            out@.map_values(|f: Field| f@) == sort_by_ins(field_leq_f(), sv.subrange(0, i as int)),
        decreases n - i,
    {
        let ghost outv = out@.map_values(|f: Field| f@);
        let x = v[i].clone();
        let ghost xv = x@;
        let olen = out.len();
        let mut k: usize = 0;
        while k < olen && str_le(out[k].attr.as_str(), x.attr.as_str())
            invariant
                k <= olen,
                olen == out@.len(),
                outv == out@.map_values(|f: Field| f@),
                xv == x@,
                forall|j: int| 0 <= j < k ==> field_leq_f()(#[trigger] outv[j], xv),
            decreases olen - k,
        {
            proof {
                assert(outv[k as int] == out@[k as int]@);
            }
            k += 1;
        }
        proof {
            if k < olen {
                assert(outv[k as int] == out@[k as int]@);
                assert(!field_leq_f()(outv[k as int], xv));
            }
            lemma_insert_by_split(field_leq_f(), xv, outv, k as int);
        }
        out.insert(k, x);
        proof {
            assert(out@.map_values(|f: Field| f@) =~= outv.subrange(0, k as int) + seq![xv]
                + outv.subrange(k as int, outv.len() as int)) by {
                assert(forall|j: int|
                    0 <= j < out@.len() ==> out@.map_values(|f: Field| f@)[j] == (
                    #[trigger] out@[j])@);
            }
            assert(sv.subrange(0, i + 1).drop_last() =~= sv.subrange(0, i as int));
            assert(sv.subrange(0, i + 1).last() == sv[i as int]);
            assert(sv[i as int] == v@[i as int]@);
        }
        i += 1;
    }
    assert(sv.subrange(0, n as int) =~= sv);
    out
}

/// Sorts records by name, stably.
pub fn sort_records(v: Vec<Record>) -> (r: Vec<Record>)
    ensures
        r@.map_values(|x: Record| x@) == sort_records_s(v@.map_values(|x: Record| x@)),
{
    let ghost sv = v@.map_values(|x: Record| x@);
    let mut out: Vec<Record> = Vec::new();
    let n = v.len();
    let mut i: usize = 0;
    proof {
        assert(sv.subrange(0, 0) =~= Seq::<RecordV>::empty());
        assert(out@.map_values(|x: Record| x@) =~= Seq::<RecordV>::empty());
    }
    while i < n
        invariant
            i <= n,
            n == v@.len(),
            sv == v@.map_values(|x: Record| x@),
            out@.map_values(|x: Record| x@) == sort_by_ins(record_leq_f(), sv.subrange(0, i as int)),
        decreases n - i,
    {
        let ghost outv = out@.map_values(|x: Record| x@);
        let x = v[i].clone();
        let ghost xv = x@;
        let olen = out.len();
        let mut k: usize = 0;
        while k < olen && str_le(out[k].name.as_str(), x.name.as_str())
            invariant
                k <= olen,
                olen == out@.len(),
                outv == out@.map_values(|x: Record| x@),
                xv == x@,
                forall|j: int| 0 <= j < k ==> record_leq_f()(#[trigger] outv[j], xv),
            decreases olen - k,
        {
            proof {
                assert(outv[k as int] == out@[k as int]@);
            }
            k += 1;
        }
        proof {
            if k < olen {
                assert(outv[k as int] == out@[k as int]@);
                assert(!record_leq_f()(outv[k as int], xv));
            }
            lemma_insert_by_split(record_leq_f(), xv, outv, k as int);
        }
        out.insert(k, x);
        proof {
            assert(out@.map_values(|x: Record| x@) =~= outv.subrange(0, k as int) + seq![xv]
                + outv.subrange(k as int, outv.len() as int)) by {
                assert(forall|j: int|
                    0 <= j < out@.len() ==> out@.map_values(|x: Record| x@)[j] == (
                    #[trigger] out@[j])@);
            }
            assert(sv.subrange(0, i + 1).drop_last() =~= sv.subrange(0, i as int));
            assert(sv.subrange(0, i + 1).last() == sv[i as int]);
            assert(sv[i as int] == v@[i as int]@);
        }
        i += 1;
    }
    assert(sv.subrange(0, n as int) =~= sv);
    out
}

/// Sorts history entries newest-first, stably.
pub fn sort_entries_desc(v: Vec<HistoryEntry>) -> (r: Vec<HistoryEntry>)
    ensures
        r@.map_values(|x: HistoryEntry| x@) == sort_entries_desc_s(
            v@.map_values(|x: HistoryEntry| x@),
        ),
{
    let ghost sv = v@.map_values(|x: HistoryEntry| x@);
    let mut out: Vec<HistoryEntry> = Vec::new();
    let n = v.len();
    let mut i: usize = 0;
    proof {
        assert(sv.subrange(0, 0) =~= Seq::<EntryV>::empty());
        assert(out@.map_values(|x: HistoryEntry| x@) =~= Seq::<EntryV>::empty());
    }
    while i < n
        invariant
            i <= n,
            n == v@.len(),
            sv == v@.map_values(|x: HistoryEntry| x@),
            out@.map_values(|x: HistoryEntry| x@) == sort_by_ins(
                entry_geq_f(),
                sv.subrange(0, i as int),
            ),
        decreases n - i,
    {
        let ghost outv = out@.map_values(|x: HistoryEntry| x@);
        let x = v[i].clone();
        let ghost xv = x@;
        let olen = out.len();
        let mut k: usize = 0;
        while k < olen && out[k].datetime >= x.datetime
            invariant
                k <= olen,
                olen == out@.len(),
                outv == out@.map_values(|x: HistoryEntry| x@),
                xv == x@,
                forall|j: int| 0 <= j < k ==> entry_geq_f()(#[trigger] outv[j], xv),
            decreases olen - k,
        {
            proof {
                assert(outv[k as int] == out@[k as int]@);
            }
            k += 1;
        }
        proof {
            if k < olen {
                assert(outv[k as int] == out@[k as int]@);
                assert(!entry_geq_f()(outv[k as int], xv));
            }
            lemma_insert_by_split(entry_geq_f(), xv, outv, k as int);
        }
        out.insert(k, x);
        proof {
            assert(out@.map_values(|x: HistoryEntry| x@) =~= outv.subrange(0, k as int) + seq![xv]
                + outv.subrange(k as int, outv.len() as int)) by {
                assert(forall|j: int|
                    0 <= j < out@.len() ==> out@.map_values(|x: HistoryEntry| x@)[j] == (
                    #[trigger] out@[j])@);
            }
            assert(sv.subrange(0, i + 1).drop_last() =~= sv.subrange(0, i as int));
            assert(sv.subrange(0, i + 1).last() == sv[i as int]);
            assert(sv[i as int] == v@[i as int]@);
        }
        i += 1;
    }
    assert(sv.subrange(0, n as int) =~= sv);
    out
}

} // verus!
