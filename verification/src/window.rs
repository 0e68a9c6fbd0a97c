//! Window selection: which summaries a cycle takes up, and in what order.
//!
//! A cycle takes up every summary whose timestamp is at or after the cursor
//! (the timestamp of the latest digest), or every summary when there is no
//! digest yet. The boundary is inclusive. The window is ordered by ascending
//! timestamp; summaries with equal timestamps are ordered by identifier.

use vstd::prelude::*;
use crate::record::{summary_views, Summary, SummaryView, Timestamp};

verus! {

/// Whether `a` comes strictly before `b` in a window: by timestamp, and by
/// identifier among equal timestamps.
pub open spec fn precedes(a: SummaryView, b: SummaryView) -> bool {
    a.timestamp < b.timestamp || (a.timestamp == b.timestamp && a.id < b.id)
}

/// Whether a summary belongs to the window that starts at `cursor`.
pub open spec fn in_window(s: SummaryView, cursor: Option<Timestamp>) -> bool {
    match cursor {
        Some(t) => s.timestamp >= t,
        None => true,
    }
}

/// No element comes strictly before an earlier one.
pub open spec fn ascending(s: Seq<SummaryView>) -> bool {
    forall|i: int, j: int| 0 <= i < j < s.len() ==> !precedes(s[j], s[i])
}

/// No two elements share an identifier.
pub open spec fn distinct_ids(s: Seq<SummaryView>) -> bool {
    forall|i: int, j: int| 0 <= i < j < s.len() ==> s[i].id != s[j].id
}

/// The position at which `x` enters `s`: the first position whose element
/// does not come strictly before `x`, or the end.
pub open spec fn slot(s: Seq<SummaryView>, x: SummaryView) -> int
    decreases s.len(),
{
    if s.len() == 0 || !precedes(s.first(), x) {
        0
    } else {
        1 + slot(s.drop_first(), x)
    }
}

/// The window of `all` that starts at `cursor`: the summaries at or after
/// the cursor, in ascending order.
pub open spec fn window(all: Seq<SummaryView>, cursor: Option<Timestamp>) -> Seq<SummaryView>
    decreases all.len(),
{
    if all.len() == 0 {
        Seq::empty()
    } else {
        let rest = window(all.drop_first(), cursor);
        if in_window(all.first(), cursor) {
            rest.insert(slot(rest, all.first()), all.first())
        } else {
            rest
        }
    }
}

/// Where `slot` points: everything before it comes strictly before `x`,
/// and the element at it, if any, does not.
pub proof fn lemma_slot(s: Seq<SummaryView>, x: SummaryView)
    ensures
        0 <= slot(s, x) <= s.len(),
        forall|i: int| 0 <= i < slot(s, x) ==> precedes(#[trigger] s[i], x),
        slot(s, x) < s.len() ==> !precedes(s[slot(s, x)], x),
    decreases s.len(),
{
    if s.len() == 0 || !precedes(s.first(), x) {
    } else {
        let t = s.drop_first();
        lemma_slot(t, x);
        assert forall|i: int| 0 <= i < slot(s, x) implies precedes(#[trigger] s[i], x) by {
            if i > 0 {
                assert(s[i] == t[i - 1]);
            }
        }
        assert(slot(t, x) < t.len() ==> s[slot(s, x)] == t[slot(t, x)]);
    }
}

/// Entering an ascending sequence at `slot` keeps it ascending.
pub proof fn lemma_insert_ascending(s: Seq<SummaryView>, x: SummaryView)
    requires
        ascending(s),
    ensures
        ascending(s.insert(slot(s, x), x)),
{
    lemma_slot(s, x);
    let p = slot(s, x);
    let r = s.insert(p, x);
    assert forall|i: int, j: int| 0 <= i < j < r.len() implies !precedes(r[j], r[i]) by {
        if i < p && j > p {
            assert(precedes(s[i], x));
            assert(r[j] == s[j - 1]);
        } else if i == p {
            assert(r[j] == s[j - 1]);
            assert(!precedes(s[p], x));
            assert(p < j - 1 ==> !precedes(s[j - 1], s[p]));
        } else if j == p {
            assert(precedes(s[i], x));
        } else if j < p {
            assert(r[i] == s[i] && r[j] == s[j]);
        } else {
            assert(r[i] == s[i - 1] && r[j] == s[j - 1]);
        }
    }
}

/// A window is in ascending order.
pub proof fn lemma_window_ascending(all: Seq<SummaryView>, cursor: Option<Timestamp>)
    ensures
        ascending(window(all, cursor)),
    decreases all.len(),
{
    if all.len() > 0 {
        lemma_window_ascending(all.drop_first(), cursor);
        lemma_insert_ascending(window(all.drop_first(), cursor), all.first());
    }
}

/// A window holds exactly the summaries at or after the cursor, each as
/// often as the input holds it.
pub proof fn lemma_window_members(all: Seq<SummaryView>, cursor: Option<Timestamp>)
    ensures
        forall|x: SummaryView| #[trigger]
            window(all, cursor).to_multiset().count(x) == (if in_window(x, cursor) {
                all.to_multiset().count(x)
            } else {
                0
            }),
        forall|x: SummaryView| #[trigger]
            window(all, cursor).contains(x) <==> all.contains(x) && in_window(x, cursor),
    decreases all.len(),
{
    broadcast use vstd::multiset::group_multiset_axioms;
    broadcast use vstd::seq_lib::group_to_multiset_ensures;

    let w = window(all, cursor);
    if all.len() == 0 {
        assert(w.to_multiset().len() == 0);
        assert(all.to_multiset().len() == 0);
    } else {
        let first = all.first();
        let rest = all.drop_first();
        let wrest = window(rest, cursor);
        lemma_window_members(rest, cursor);
        lemma_slot(wrest, first);
        assert(all =~= rest.insert(0, first));
        vstd::seq_lib::to_multiset_insert(rest, 0, first);
        if in_window(first, cursor) {
            vstd::seq_lib::to_multiset_insert(wrest, slot(wrest, first), first);
        }
        assert forall|x: SummaryView| #[trigger]
            w.to_multiset().count(x) == (if in_window(x, cursor) {
                all.to_multiset().count(x)
            } else {
                0
            }) by {
            assert(wrest.to_multiset().count(x) == (if in_window(x, cursor) {
                rest.to_multiset().count(x)
            } else {
                0
            }));
        }
    }
    assert forall|x: SummaryView| #[trigger]
        w.contains(x) <==> all.contains(x) && in_window(x, cursor) by {
        assert(w.contains(x) <==> w.to_multiset().count(x) > 0);
        assert(all.contains(x) <==> all.to_multiset().count(x) > 0);
    }
}

/// A window of summaries with distinct identifiers has distinct identifiers.
pub proof fn lemma_window_distinct(all: Seq<SummaryView>, cursor: Option<Timestamp>)
    requires
        distinct_ids(all),
    ensures
        distinct_ids(window(all, cursor)),
    decreases all.len(),
{
    if all.len() > 0 {
        let first = all.first();
        let rest = all.drop_first();
        let wrest = window(rest, cursor);
        assert forall|i: int, j: int| 0 <= i < j < rest.len() implies rest[i].id != rest[j].id by {
            assert(rest[i] == all[i + 1] && rest[j] == all[j + 1]);
        }
        lemma_window_distinct(rest, cursor);
        lemma_window_members(rest, cursor);
        lemma_slot(wrest, first);
        if in_window(first, cursor) {
            let p = slot(wrest, first);
            let w = wrest.insert(p, first);
            assert forall|k: int| 0 <= k < wrest.len() implies #[trigger] wrest[k].id
                != first.id by {
                assert(wrest.contains(wrest[k]));
                assert(rest.contains(wrest[k]));
                let m = choose|m: int| 0 <= m < rest.len() && rest[m] == wrest[k];
                assert(all[m + 1] == rest[m]);
            }
            assert forall|i: int, j: int| 0 <= i < j < w.len() implies w[i].id != w[j].id by {
                if i == p {
                    assert(w[j] == wrest[j - 1]);
                } else if j == p {
                    assert(w[i] == wrest[i]);
                } else if j < p {
                    assert(w[i] == wrest[i] && w[j] == wrest[j]);
                } else if i > p {
                    assert(w[i] == wrest[i - 1] && w[j] == wrest[j - 1]);
                } else {
                    assert(w[i] == wrest[i] && w[j] == wrest[j - 1]);
                }
            }
        }
    }
}

/// Two ascending sequences that hold the same summaries, with distinct
/// identifiers, are the same sequence.
pub proof fn lemma_ascending_unique(x: Seq<SummaryView>, y: Seq<SummaryView>)
    requires
        ascending(x),
        ascending(y),
        distinct_ids(x),
        x.to_multiset() == y.to_multiset(),
    ensures
        x == y,
    decreases x.len(),
{
    broadcast use vstd::multiset::group_multiset_axioms;
    broadcast use vstd::seq_lib::group_to_multiset_ensures;

    assert(x.len() == x.to_multiset().len());
    assert(y.len() == y.to_multiset().len());
    if x.len() > 0 {
        let n = x.len() as int;
        let xl = x[n - 1];
        let yl = y[n - 1];
        assert(xl == yl) by {
            assert(x.contains(xl));
            assert(y.contains(yl));
            assert(y.to_multiset().count(xl) > 0);
            assert(x.to_multiset().count(yl) > 0);
            assert(y.contains(xl));
            assert(x.contains(yl));
            let j = choose|j: int| 0 <= j < y.len() && y[j] == xl;
            let i = choose|i: int| 0 <= i < x.len() && x[i] == yl;
            if i < n - 1 && j < n - 1 {
                assert(!precedes(y[n - 1], y[j]));
                assert(!precedes(x[n - 1], x[i]));
                assert(x[i].id == x[n - 1].id);
            }
        }
        let xs = x.drop_last();
        let ys = y.drop_last();
        assert(xs =~= x.remove(n - 1));
        assert(ys =~= y.remove(n - 1));
        assert(xs.to_multiset() == ys.to_multiset());
        assert forall|i: int, j: int| 0 <= i < j < xs.len() implies !precedes(xs[j], xs[i]) by {
            assert(xs[i] == x[i] && xs[j] == x[j]);
        }
        assert forall|i: int, j: int| 0 <= i < j < ys.len() implies !precedes(ys[j], ys[i]) by {
            assert(ys[i] == y[i] && ys[j] == y[j]);
        }
        assert forall|i: int, j: int| 0 <= i < j < xs.len() implies xs[i].id != xs[j].id by {
            assert(xs[i] == x[i] && xs[j] == x[j]);
        }
        lemma_ascending_unique(xs, ys);
        assert(x =~= xs.push(xl));
        assert(y =~= ys.push(yl));
    } else {
        assert(x =~= y);
    }
}

/// The window does not depend on the order in which the store hands the
/// summaries over: two arrangements of the same summaries, with distinct
/// identifiers, have the same window.
pub proof fn lemma_window_order_independent(
    a: Seq<SummaryView>,
    b: Seq<SummaryView>,
    cursor: Option<Timestamp>,
)
    requires
        distinct_ids(a),
        a.to_multiset() == b.to_multiset(),
    ensures
        window(a, cursor) == window(b, cursor),
{
    lemma_window_members(a, cursor);
    lemma_window_members(b, cursor);
    lemma_window_ascending(a, cursor);
    lemma_window_ascending(b, cursor);
    lemma_window_distinct(a, cursor);
    let wa = window(a, cursor);
    let wb = window(b, cursor);
    assert(wa.to_multiset() =~= wb.to_multiset()) by {
        assert forall|x: SummaryView| wa.to_multiset().count(x) == wb.to_multiset().count(x) by {
            assert(wa.to_multiset().count(x) == (if in_window(x, cursor) {
                a.to_multiset().count(x)
            } else {
                0
            }));
            assert(wb.to_multiset().count(x) == (if in_window(x, cursor) {
                b.to_multiset().count(x)
            } else {
                0
            }));
        }
    }
    lemma_ascending_unique(wa, wb);
}

/// Selecting from a window again, at the same cursor, changes nothing: an
/// ascending sequence whose summaries are all at or after the cursor is its
/// own window.
pub proof fn lemma_window_of_ascending(s: Seq<SummaryView>, cursor: Option<Timestamp>)
    requires
        ascending(s),
        forall|i: int| 0 <= i < s.len() ==> in_window(#[trigger] s[i], cursor),
    ensures
        window(s, cursor) == s,
    decreases s.len(),
{
    if s.len() > 0 {
        let rest = s.drop_first();
        assert forall|i: int, j: int| 0 <= i < j < rest.len() implies !precedes(rest[j], rest[i]) by {
            assert(rest[i] == s[i + 1] && rest[j] == s[j + 1]);
        }
        assert forall|i: int| 0 <= i < rest.len() implies in_window(#[trigger] rest[i], cursor) by {
            assert(rest[i] == s[i + 1]);
        }
        lemma_window_of_ascending(rest, cursor);
        if rest.len() > 0 {
            assert(rest.first() == s[1]);
            assert(!precedes(s[1], s[0]));
        }
        assert(slot(rest, s.first()) == 0);
        assert(rest.insert(0, s.first()) =~= s);
        assert(in_window(s[0], cursor));
    } else {
        assert(window(s, cursor) =~= s);
    }
}

/// A window is its own window.
pub proof fn lemma_window_idempotent(all: Seq<SummaryView>, cursor: Option<Timestamp>)
    ensures
        window(window(all, cursor), cursor) == window(all, cursor),
{
    let w = window(all, cursor);
    lemma_window_ascending(all, cursor);
    lemma_window_members(all, cursor);
    assert forall|i: int| 0 <= i < w.len() implies in_window(#[trigger] w[i], cursor) by {
        assert(w.contains(w[i]));
    }
    lemma_window_of_ascending(w, cursor);
}

fn comes_before(a: &Summary, b: &Summary) -> (r: bool)
    ensures
        r == precedes(a@, b@),
{
    a.timestamp < b.timestamp || (a.timestamp == b.timestamp && a.id < b.id)
}

/// Whether `s` belongs to the window that starts at `cursor`.
pub fn is_in_window(s: &Summary, cursor: Option<Timestamp>) -> (r: bool)
    ensures
        r == in_window(s@, cursor),
{
    match cursor {
        Some(t) => s.timestamp >= t,
        None => true,
    }
}

fn find_slot(sorted: &Vec<Summary>, x: &Summary) -> (p: usize)
    ensures
        p == slot(summary_views(sorted@), x@),
        p <= sorted.len(),
{
    let ghost v = summary_views(sorted@);
    let mut i: usize = 0;
    assert(v.subrange(0, v.len() as int) =~= v);
    while i < sorted.len() && comes_before(&sorted[i], x)
        invariant
            i <= sorted.len(),
            v == summary_views(sorted@),
            slot(v, x@) == i + slot(v.subrange(i as int, v.len() as int), x@),
        decreases sorted.len() - i,
    {
        proof {
            let t = v.subrange(i as int, v.len() as int);
            assert(t.first() == sorted@[i as int]@);
            assert(t.drop_first() =~= v.subrange(i + 1, v.len() as int));
        }
        i += 1;
    }
    proof {
        let t = v.subrange(i as int, v.len() as int);
        if i < sorted.len() {
            assert(t.first() == sorted@[i as int]@);
        }
    }
    i
}

/// Selects the window that starts at `cursor` from `all`, whatever order
/// `all` is in.
pub fn select_window(all: Vec<Summary>, cursor: Option<Timestamp>) -> (w: Vec<Summary>)
    ensures
        summary_views(w@) == window(summary_views(all@), cursor),
{
    let ghost orig = summary_views(all@);
    let mut rest = all;
    let mut out: Vec<Summary> = Vec::new();
    assert(orig.subrange(0, orig.len() as int) =~= orig);
    assert(orig.subrange(orig.len() as int, orig.len() as int) =~= Seq::empty());
    while rest.len() > 0
        invariant
            rest@.len() <= orig.len(),
            summary_views(rest@) == orig.subrange(0, rest@.len() as int),
            summary_views(out@) == window(
                orig.subrange(rest@.len() as int, orig.len() as int),
                cursor,
            ),
        decreases rest.len(),
    {
        let ghost k = rest@.len() as int;
        let ghost before = summary_views(rest@);
        let ghost sorted = summary_views(out@);
        let x = rest.pop().unwrap();
        proof {
            let tail = orig.subrange(k - 1, orig.len() as int);
            assert(x@ == before[k - 1]);
            assert(tail.first() == x@);
            assert(tail.drop_first() =~= orig.subrange(k, orig.len() as int));
            assert(summary_views(rest@) =~= orig.subrange(0, k - 1));
        }
        if is_in_window(&x, cursor) {
            let p = find_slot(&out, &x);
            let ghost xv = x@;
            out.insert(p, x);
            assert(summary_views(out@) =~= sorted.insert(p as int, xv));
        }
    }
    out
}

} // verus!
