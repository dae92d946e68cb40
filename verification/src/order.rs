//! Ordering the rows by line count, ascending or descending. Rows with the
//! same count keep the order in which they came.

use crate::record::{rows_of, Filelines, Row};
use vstd::prelude::*;

verus! {

/// Whether `a` has to stand before `b`: it has fewer lines, or more where
/// the order is descending.
pub open spec fn goes_before(a: Row, b: Row, descend: bool) -> bool {
    if descend {
        a.lines > b.lines
    } else {
        a.lines < b.lines
    }
}

/// No row stands behind one that it has to stand before.
pub open spec fn in_order(s: Seq<Row>, descend: bool) -> bool {
    forall|i: int, j: int| 0 <= i < j < s.len() ==> !goes_before(s[j], s[i], descend)
}

/// `s` with `r` put behind the last row that `r` need not stand before.
pub open spec fn inserted(s: Seq<Row>, r: Row, descend: bool) -> Seq<Row>
    decreases s.len(),
{
    if s.len() > 0 && goes_before(r, s.last(), descend) {
        inserted(s.drop_last(), r, descend).push(s.last())
    } else {
        s.push(r)
    }
}

/// The rows of `s` in order: each row in turn is put behind the rows that
/// came before it and need not follow it.
pub open spec fn sorted(s: Seq<Row>, descend: bool) -> Seq<Row>
    decreases s.len(),
{
    if s.len() == 0 {
        s
    } else {
        inserted(sorted(s.drop_last(), descend), s.last(), descend)
    }
}

/// The rows of `s` with `lines` lines, in the order in which they stand.
pub open spec fn with_lines(s: Seq<Row>, lines: nat) -> Seq<Row> {
    s.filter(|r: Row| r.lines == lines)
}

/// Two runs of rows interleaved from the back: the last row of `a` goes last
/// only where the last row of `b` has to stand before it.
spec fn merged(a: Seq<Row>, b: Seq<Row>, descend: bool) -> Seq<Row>
    decreases a.len() + b.len(),
{
    if a.len() == 0 {
        b
    } else if b.len() == 0 {
        a
    } else if goes_before(b.last(), a.last(), descend) {
        merged(a.drop_last(), b, descend).push(a.last())
    } else {
        merged(a, b.drop_last(), descend).push(b.last())
    }
}

/// Inserting a row keeps every row and adds the new one.
pub proof fn lemma_inserted_holds(s: Seq<Row>, r: Row, descend: bool)
    ensures
        inserted(s, r, descend).len() == s.len() + 1,
        inserted(s, r, descend).to_multiset() == s.to_multiset().insert(r),
    decreases s.len(),
{
    broadcast use vstd::seq_lib::group_to_multiset_ensures;

    if s.len() > 0 && goes_before(r, s.last(), descend) {
        let t = s.drop_last();
        lemma_inserted_holds(t, r, descend);
        assert(s == t.push(s.last()));
        assert(inserted(s, r, descend).to_multiset() =~= s.to_multiset().insert(r));
    }
}

/// Inserting a row into rows that are in order leaves them in order.
pub proof fn lemma_inserted_in_order(s: Seq<Row>, r: Row, descend: bool)
    requires
        in_order(s, descend),
    ensures
        in_order(inserted(s, r, descend), descend),
    decreases s.len(),
{
    let out = inserted(s, r, descend);
    if s.len() > 0 && goes_before(r, s.last(), descend) {
        let t = s.drop_last();
        let head = inserted(t, r, descend);
        assert(in_order(t, descend)) by {
            assert forall|i: int, j: int| 0 <= i < j < t.len() implies !goes_before(
                t[j],
                t[i],
                descend,
            ) by {
                assert(t[i] == s[i] && t[j] == s[j]);
            }
        }
        lemma_inserted_in_order(t, r, descend);
        lemma_inserted_holds(t, r, descend);
        assert forall|i: int, j: int| 0 <= i < j < out.len() implies !goes_before(
            out[j],
            out[i],
            descend,
        ) by {
            if j < head.len() {
                assert(out[i] == head[i] && out[j] == head[j]);
            } else {
                assert(out[j] == s.last());
                assert(out[i] == head[i]);
                lemma_inserted_member(t, r, descend, i);
                if head[i] != r {
                    let k = choose|k: int| 0 <= k < t.len() && t[k] == head[i];
                    assert(s[k] == t[k]);
                }
            }
        }
    } else {
        assert forall|i: int, j: int| 0 <= i < j < out.len() implies !goes_before(
            out[j],
            out[i],
            descend,
        ) by {
            if j < s.len() {
                assert(out[i] == s[i] && out[j] == s[j]);
            } else if s.len() > 0 {
                assert(out[i] == s[i]);
                assert(!goes_before(s.last(), s[i], descend));
            }
        }
    }
}

/// Every row of `inserted(s, r)` is `r` or a row of `s`.
proof fn lemma_inserted_member(s: Seq<Row>, r: Row, descend: bool, i: int)
    requires
        0 <= i < inserted(s, r, descend).len(),
    ensures
        inserted(s, r, descend)[i] == r || exists|k: int|
            0 <= k < s.len() && s[k] == inserted(s, r, descend)[i],
    decreases s.len(),
{
    if s.len() > 0 && goes_before(r, s.last(), descend) {
        let t = s.drop_last();
        lemma_inserted_holds(t, r, descend);
        if i < t.len() + 1 {
            lemma_inserted_member(t, r, descend, i);
            if inserted(t, r, descend)[i] != r {
                let k = choose|k: int| 0 <= k < t.len() && t[k] == inserted(t, r, descend)[i];
                assert(s[k] == t[k]);
            }
        } else {
            assert(s[s.len() - 1] == inserted(s, r, descend)[i]);
        }
    } else {
        if i < s.len() {
            assert(s[i] == inserted(s, r, descend)[i]);
        }
    }
}

/// The sorted rows are the given rows, each as often as it was given.
pub proof fn lemma_sorted_permutes(s: Seq<Row>, descend: bool)
    ensures
        sorted(s, descend).len() == s.len(),
        sorted(s, descend).to_multiset() == s.to_multiset(),
    decreases s.len(),
{
    broadcast use vstd::seq_lib::group_to_multiset_ensures;

    if s.len() > 0 {
        let t = s.drop_last();
        lemma_sorted_permutes(t, descend);
        lemma_inserted_holds(sorted(t, descend), s.last(), descend);
        assert(s == t.push(s.last()));
    }
}

/// The sorted rows are in order.
pub proof fn lemma_sorted_in_order(s: Seq<Row>, descend: bool)
    ensures
        in_order(sorted(s, descend), descend),
    decreases s.len(),
{
    if s.len() > 0 {
        lemma_sorted_in_order(s.drop_last(), descend);
        lemma_inserted_in_order(sorted(s.drop_last(), descend), s.last(), descend);
    }
}

/// Of two neighbouring sorted rows the first has at most as many lines as
/// the second in ascending order, and at least as many in descending order.
pub proof fn lemma_sorted_neighbours(s: Seq<Row>, descend: bool, i: int)
    requires
        0 <= i,
        i + 1 < s.len(),
    ensures
        sorted(s, descend).len() == s.len(),
        !descend ==> sorted(s, descend)[i].lines <= sorted(s, descend)[i + 1].lines,
        descend ==> sorted(s, descend)[i].lines >= sorted(s, descend)[i + 1].lines,
{
    lemma_sorted_permutes(s, descend);
    lemma_sorted_in_order(s, descend);
    let out = sorted(s, descend);
    assert(!goes_before(out[i + 1], out[i], descend));
}

/// Inserting a row puts it behind the rows with the same line count and
/// leaves the rows with any other count as they stood.
pub proof fn lemma_inserted_stable(s: Seq<Row>, r: Row, descend: bool, lines: nat)
    ensures
        with_lines(inserted(s, r, descend), lines) == if r.lines == lines {
            with_lines(s, lines).push(r)
        } else {
            with_lines(s, lines)
        },
    decreases s.len(),
{
    let pred = |x: Row| x.lines == lines;
    if s.len() > 0 && goes_before(r, s.last(), descend) {
        let t = s.drop_last();
        lemma_inserted_stable(t, r, descend, lines);
        inserted(t, r, descend).lemma_filter_push(s.last(), pred);
        t.lemma_filter_push(s.last(), pred);
        assert(s == t.push(s.last()));
        assert(s.last().lines != r.lines);
    } else {
        s.lemma_filter_push(r, pred);
    }
}

/// Sorting is stable: the rows with one line count stand in the sorted rows
/// in the order in which they were given.
pub proof fn lemma_sorted_stable(s: Seq<Row>, descend: bool, lines: nat)
    ensures
        with_lines(sorted(s, descend), lines) == with_lines(s, lines),
    decreases s.len(),
{
    let pred = |x: Row| x.lines == lines;
    if s.len() > 0 {
        let t = s.drop_last();
        lemma_sorted_stable(t, descend, lines);
        lemma_inserted_stable(sorted(t, descend), s.last(), descend, lines);
        t.lemma_filter_push(s.last(), pred);
        assert(s == t.push(s.last()));
    }
}

/// Rows that are in order already are their own sorted form.
pub proof fn lemma_sorted_fixes_in_order(s: Seq<Row>, descend: bool)
    requires
        in_order(s, descend),
    ensures
        sorted(s, descend) == s,
    decreases s.len(),
{
    if s.len() > 0 {
        let t = s.drop_last();
        assert(in_order(t, descend)) by {
            assert forall|i: int, j: int| 0 <= i < j < t.len() implies !goes_before(
                t[j],
                t[i],
                descend,
            ) by {
                assert(t[i] == s[i] && t[j] == s[j]);
            }
        }
        lemma_sorted_fixes_in_order(t, descend);
        if t.len() > 0 {
            assert(t.last() == s[s.len() - 2]);
            assert(!goes_before(s[s.len() - 1], s[s.len() - 2], descend));
        }
        assert(s == t.push(s.last()));
    }
}

/// Inserting into the merge of two runs is merging with the row inserted
/// into the second run.
proof fn lemma_inserted_merged(a: Seq<Row>, b: Seq<Row>, r: Row, descend: bool)
    ensures
        inserted(merged(a, b, descend), r, descend) == merged(
            a,
            inserted(b, r, descend),
            descend,
        ),
    decreases a.len() + b.len(),
{
    let b_r = inserted(b, r, descend);
    lemma_inserted_holds(b, r, descend);
    if a.len() == 0 {
    } else if b.len() == 0 {
        assert(b_r == seq![r]);
        assert(b_r.last() == r);
        assert(b_r.drop_last() =~= Seq::<Row>::empty());
        if goes_before(r, a.last(), descend) {
            lemma_inserted_merged(a.drop_last(), b, r, descend);
            assert(merged(a.drop_last(), b, descend) == a.drop_last());
        } else {
            assert(merged(a, b_r.drop_last(), descend) == a);
        }
    } else if goes_before(b.last(), a.last(), descend) {
        if goes_before(r, a.last(), descend) {
            lemma_inserted_merged(a.drop_last(), b, r, descend);
            assert(merged(a, b, descend).last() == a.last());
            assert(merged(a, b, descend).drop_last() =~= merged(a.drop_last(), b, descend));
            if goes_before(r, b.last(), descend) {
                assert(b_r.last() == b.last());
            } else {
                assert(b_r.last() == r);
            }
        } else {
            assert(b_r == b.push(r));
            assert(b_r.last() == r);
            assert(b_r.drop_last() =~= b);
        }
    } else {
        assert(merged(a, b, descend).last() == b.last());
        assert(merged(a, b, descend).drop_last() =~= merged(a, b.drop_last(), descend));
        if goes_before(r, b.last(), descend) {
            lemma_inserted_merged(a, b.drop_last(), r, descend);
            lemma_inserted_holds(b.drop_last(), r, descend);
            assert(b_r.last() == b.last());
            assert(b_r.drop_last() =~= inserted(b.drop_last(), r, descend));
        } else {
            assert(b_r == b.push(r));
            assert(b_r.last() == r);
            assert(b_r.drop_last() =~= b);
        }
    }
}

/// Sorting two runs and merging them sorts their concatenation.
proof fn lemma_sorted_concat(a: Seq<Row>, b: Seq<Row>, descend: bool)
    ensures
        sorted(a + b, descend) == merged(sorted(a, descend), sorted(b, descend), descend),
    decreases b.len(),
{
    if b.len() == 0 {
        assert(a + b =~= a);
        assert(sorted(b, descend) =~= Seq::<Row>::empty());
        if sorted(a, descend).len() == 0 {
            assert(sorted(a, descend) =~= sorted(b, descend));
        }
    } else {
        assert((a + b).drop_last() =~= a + b.drop_last());
        assert((a + b).last() == b.last());
        lemma_sorted_concat(a, b.drop_last(), descend);
        lemma_inserted_merged(
            sorted(a, descend),
            sorted(b.drop_last(), descend),
            b.last(),
            descend,
        );
    }
}

/// Whether record `a` has to stand before record `b`.
fn stands_before(a: &Filelines, b: &Filelines, descend: bool) -> (before: bool)
    ensures
        before == goes_before(a@, b@, descend),
{
    if descend {
        a.lines() > b.lines()
    } else {
        a.lines() < b.lines()
    }
}

/// Merges two runs of records into one, emptying both.
fn merge(a: Vec<Filelines>, b: Vec<Filelines>, descend: bool) -> (out: Vec<Filelines>)
    ensures
        rows_of(out@) == merged(rows_of(a@), rows_of(b@), descend),
{
    let ghost whole = merged(rows_of(a@), rows_of(b@), descend);
    let mut a = a;
    let mut b = b;
    let mut tail: Vec<Filelines> = Vec::new();
    assert(rows_of(tail@).reverse() =~= Seq::<Row>::empty());
    while a.len() > 0 && b.len() > 0
        invariant
            whole == merged(rows_of(a@), rows_of(b@), descend) + rows_of(tail@).reverse(),
        decreases a.len() + b.len(),
    {
        let ghost rows_a = rows_of(a@);
        let ghost rows_b = rows_of(b@);
        let ghost rows_tail = rows_of(tail@);
        let from_a = stands_before(&b[b.len() - 1], &a[a.len() - 1], descend);
        let last = if from_a {
            a.pop()
        } else {
            b.pop()
        };
        let record = last.unwrap();
        tail.push(record);
        proof {
            assert(rows_of(tail@).reverse() =~= seq![record@] + rows_tail.reverse());
            if from_a {
                assert(rows_of(a@) =~= rows_a.drop_last());
                assert(record@ == rows_a.last());
            } else {
                assert(rows_of(b@) =~= rows_b.drop_last());
                assert(record@ == rows_b.last());
            }
            assert(whole =~= merged(rows_of(a@), rows_of(b@), descend) + rows_of(tail@).reverse());
        }
    }
    let mut out = if a.len() == 0 {
        b
    } else {
        a
    };
    while tail.len() > 0
        invariant
            whole == rows_of(out@) + rows_of(tail@).reverse(),
        decreases tail.len(),
    {
        let ghost rows_out = rows_of(out@);
        let ghost rows_tail = rows_of(tail@);
        let record = tail.pop().unwrap();
        out.push(record);
        proof {
            assert(rows_of(tail@) =~= rows_tail.drop_last());
            assert(rows_tail.reverse() =~= seq![record@] + rows_of(tail@).reverse());
            assert(rows_of(out@) =~= rows_out.push(record@));
            assert(whole =~= rows_of(out@) + rows_of(tail@).reverse());
        }
    }
    assert(rows_of(tail@).reverse() =~= Seq::<Row>::empty());
    assert(whole =~= rows_of(out@));
    out
}

/// Sorts the records by line count, ascending, or descending where `descend`
/// is set. Records with the same count keep their order.
pub fn sort_records(records: Vec<Filelines>, descend: bool) -> (out: Vec<Filelines>)
    ensures
        rows_of(out@) == sorted(rows_of(records@), descend),
        in_order(rows_of(out@), descend),
        out@.len() == records@.len(),
        rows_of(out@).to_multiset() == rows_of(records@).to_multiset(),
        forall|lines: nat| #[trigger]
            with_lines(rows_of(out@), lines) == with_lines(rows_of(records@), lines),
    decreases records@.len(),
{
    let ghost rows = rows_of(records@);
    proof {
        lemma_sorted_in_order(rows, descend);
        lemma_sorted_permutes(rows, descend);
        assert forall|lines: nat| #[trigger]
            with_lines(sorted(rows, descend), lines) == with_lines(rows, lines) by {
            lemma_sorted_stable(rows, descend, lines);
        }
    }
    let n: usize = records.len();
    if n < 2 {
        proof {
            assert(in_order(rows, descend));
            lemma_sorted_fixes_in_order(rows, descend);
        }
        return records;
    }
    let mut left = records;
    let right = left.split_off(n / 2);
    proof {
        assert(rows =~= rows_of(left@) + rows_of(right@));
        lemma_sorted_concat(rows_of(left@), rows_of(right@), descend);
    }
    let left = sort_records(left, descend);
    let right = sort_records(right, descend);
    merge(left, right, descend)
}

} // verus!
