//! What holds of cycles on a store, whatever the summaries and inputs.

use vstd::prelude::*;
use crate::aggregate::{ids_of, joined, texts_of};
use crate::cycle::Report;
use crate::record::{DigestView, SummaryView, Timestamp};
use crate::service::{cycle, replay, CycleInputView};
use crate::store::{has_summary, StoreView};
use crate::window::{
    distinct_ids, in_window, lemma_window_members, lemma_window_order_independent, window,
};

verus! {

/// Ordering: the text handed to the summarization capability is the texts
/// of the window joined in ascending order, whatever order the store holds
/// the summaries in. Two arrangements of the same summaries, with distinct
/// identifiers, give the same text and the same linkage.
pub proof fn lemma_aggregate_order_independent(
    a: Seq<SummaryView>,
    b: Seq<SummaryView>,
    cursor: Option<Timestamp>,
)
    requires
        distinct_ids(a),
        a.to_multiset() == b.to_multiset(),
    ensures
        joined(texts_of(window(a, cursor))) == joined(texts_of(window(b, cursor))),
        ids_of(window(a, cursor)) == ids_of(window(b, cursor)),
{
    lemma_window_order_independent(a, b, cursor);
}

/// Every identifier in a window's linkage names a summary of the input,
/// and every summary of the input at or after the cursor is in the linkage.
pub proof fn lemma_window_linkage(all: Seq<SummaryView>, cursor: Option<Timestamp>)
    ensures
        forall|k: int|
            0 <= k < ids_of(window(all, cursor)).len() ==> has_summary(
                all,
                #[trigger] ids_of(window(all, cursor))[k],
            ),
        forall|i: int|
            0 <= i < all.len() && in_window(#[trigger] all[i], cursor) ==> ids_of(
                window(all, cursor),
            ).contains(all[i].id),
{
    let w = window(all, cursor);
    lemma_window_members(all, cursor);
    assert forall|k: int| 0 <= k < ids_of(w).len() implies has_summary(
        all,
        #[trigger] ids_of(w)[k],
    ) by {
        assert(w.contains(w[k]));
        assert(all.contains(w[k]));
        let m = choose|m: int| 0 <= m < all.len() && all[m] == w[k];
        assert(all[m].id == ids_of(w)[k]);
    }
    assert forall|i: int| 0 <= i < all.len() && in_window(#[trigger] all[i], cursor) implies ids_of(
        w,
    ).contains(all[i].id) by {
        assert(all.contains(all[i]));
        assert(w.contains(all[i]));
        let m = choose|m: int| 0 <= m < w.len() && w[m] == all[i];
        assert(ids_of(w)[m] == all[i].id);
    }
}

/// When a cycle writes: exactly when the window is not empty, the
/// capability answered, the clock has not gone back behind the cursor and
/// a digest identifier is left. The digest then carries the capability's
/// text, the clock reading and the whole window as its linkage, and
/// nothing else in the store changes.
pub proof fn lemma_cycle_outcome(store: StoreView, input: CycleInputView)
    requires
        store.well_formed(),
    ensures
        (cycle(store, input).1 is Persisted) <==> {
            &&& window(store.summaries, store.cursor()).len() > 0
            &&& input.summary is Some
            &&& (store.cursor() is Some ==> input.now >= store.cursor().unwrap())
            &&& store.digests.len() < i32::MAX
        },
        cycle(store, input).1 is Persisted ==> {
            &&& cycle(store, input).0.summaries == store.summaries
            &&& cycle(store, input).0.digests == store.digests.push(
                DigestView {
                    id: (store.digests.len() + 1) as i32,
                    text: input.summary.unwrap(),
                    timestamp: input.now,
                    covers: ids_of(window(store.summaries, store.cursor())),
                },
            )
            &&& cycle(store, input).1 == Report::Persisted((store.digests.len() + 1) as i32)
        },
        !(cycle(store, input).1 is Persisted) ==> cycle(store, input).0 == store,
{
    lemma_window_linkage(store.summaries, store.cursor());
}

/// Atomicity: an attempt to write a digest leaves the store either as it
/// was or with that one digest added whole, text and full linkage
/// together. The digests written before are untouched, so whoever reads
/// the store finds every digest with all of its linkage.
pub proof fn lemma_written_whole_or_not_at_all(
    store: StoreView,
    text: Seq<char>,
    covers: Seq<i64>,
    now: Timestamp,
)
    ensures
        store.written(text, covers, now).summaries == store.summaries,
        store.written(text, covers, now).digests == store.digests || store.written(
            text,
            covers,
            now,
        ).digests == store.digests.push(
            DigestView { id: (store.digests.len() + 1) as i32, text, timestamp: now, covers },
        ),
        forall|i: int|
            0 <= i < store.digests.len() ==> #[trigger] store.written(text, covers, now).digests[i]
                == store.digests[i],
        store.well_formed() ==> store.written(text, covers, now).well_formed(),
{
}

/// Empty cycles: with no summary at or after the cursor a cycle is
/// skipped and the store stays as it is, however often it is run and
/// whatever the capability or the clock would have said.
pub proof fn lemma_empty_cycles_change_nothing(store: StoreView, inputs: Seq<CycleInputView>)
    requires
        forall|i: int|
            0 <= i < store.summaries.len() ==> !in_window(
                #[trigger] store.summaries[i],
                store.cursor(),
            ),
    ensures
        replay(store, inputs).0 == store,
        replay(store, inputs).1.len() == inputs.len(),
        forall|n: int| 0 <= n < inputs.len() ==> replay(store, inputs).1[n] == Report::Skipped,
        forall|input: CycleInputView| #[trigger] cycle(store, input) == (store, Report::Skipped),
    decreases inputs.len(),
{
    let w = window(store.summaries, store.cursor());
    lemma_window_members(store.summaries, store.cursor());
    if w.len() > 0 {
        assert(w.contains(w[0]));
        assert(store.summaries.contains(w[0]));
    }
    if inputs.len() > 0 {
        lemma_empty_cycles_change_nothing(store, inputs.drop_last());
    }
}

/// Failure does not advance: a cycle whose summarization fails writes no
/// digest and leaves the store, and so the cursor, as they were. When a
/// later cycle on the same store, grown by `added`, does write, its digest
/// covers every summary of the window that the failed cycle had selected,
/// and every added summary at or after the cursor.
pub proof fn lemma_failed_cycle_is_retried(
    store: StoreView,
    failed_at: Timestamp,
    added: Seq<SummaryView>,
    retry: CycleInputView,
)
    requires
        store.well_formed(),
    ensures
        cycle(store, CycleInputView { summary: None, now: failed_at }).0 == store,
        !(cycle(store, CycleInputView { summary: None, now: failed_at }).1 is Persisted),
        ({
            let cursor = store.cursor();
            let grown = StoreView { summaries: store.summaries + added, digests: store.digests };
            let after = cycle(grown, retry);
            after.1 is Persisted ==> {
                &&& after.0.digests.len() == store.digests.len() + 1
                &&& after.0.digests.last().covers == ids_of(window(grown.summaries, cursor))
                &&& forall|k: int|
                    0 <= k < window(store.summaries, cursor).len() ==> after.0.digests.last().covers.contains(
                    (#[trigger] window(store.summaries, cursor)[k]).id,
                )
                &&& forall|j: int|
                    0 <= j < added.len() && in_window(#[trigger] added[j], cursor)
                        ==> after.0.digests.last().covers.contains(added[j].id)
            }
        }),
{
    let cursor = store.cursor();
    let grown = StoreView { summaries: store.summaries + added, digests: store.digests };
    let after = cycle(grown, retry);
    if after.1 is Persisted {
        let covers = after.0.digests.last().covers;
        let w = window(store.summaries, cursor);
        lemma_window_members(store.summaries, cursor);
        lemma_window_linkage(grown.summaries, cursor);
        assert forall|k: int| 0 <= k < w.len() implies covers.contains((#[trigger] w[k]).id) by {
            assert(w.contains(w[k]));
            assert(store.summaries.contains(w[k]));
            let m = choose|m: int| 0 <= m < store.summaries.len() && store.summaries[m] == w[k];
            assert(grown.summaries[m] == w[k]);
        }
        assert forall|j: int| 0 <= j < added.len() && in_window(
            #[trigger] added[j],
            cursor,
        ) implies covers.contains(added[j].id) by {
            assert(grown.summaries[store.summaries.len() + j] == added[j]);
        }
    }
}

/// The cursor never moves back: after a cycle on a well-formed store the
/// latest digest's timestamp is at least what it was.
pub proof fn lemma_cursor_monotonic(store: StoreView, input: CycleInputView)
    requires
        store.well_formed(),
    ensures
        store.cursor() is Some ==> {
            &&& cycle(store, input).0.cursor() is Some
            &&& cycle(store, input).0.cursor().unwrap() >= store.cursor().unwrap()
        },
{
}

/// The number of digests whose linkage names `id`.
pub open spec fn times_covered(digests: Seq<DigestView>, id: i64) -> nat
    decreases digests.len(),
{
    if digests.len() == 0 {
        0
    } else {
        times_covered(digests.drop_last(), id) + (if digests.last().covers.contains(id) {
            1nat
        } else {
            0nat
        })
    }
}

/// Something that happens to a store: a summary arrives from upstream, or
/// a cycle runs.
pub enum Happening {
    Arrival(SummaryView),
    Cycle(CycleInputView),
}

/// The store after `what` happened. A summary whose identifier is already
/// held is refused.
pub open spec fn after(store: StoreView, what: Happening) -> StoreView {
    match what {
        Happening::Arrival(s) => if has_summary(store.summaries, s.id) {
            store
        } else {
            store.with_summary(s)
        },
        Happening::Cycle(input) => cycle(store, input).0,
    }
}

/// The store that a run of happenings leaves, starting from an empty one.
pub open spec fn history(run: Seq<Happening>) -> StoreView
    decreases run.len(),
{
    if run.len() == 0 {
        StoreView { summaries: Seq::empty(), digests: Seq::empty() }
    } else {
        after(history(run.drop_last()), run.last())
    }
}

/// The clock reading that a happening carries: a summary's timestamp, or
/// the reading with which a cycle would stamp its digest.
pub open spec fn stamp(what: Happening) -> Timestamp {
    match what {
        Happening::Arrival(s) => s.timestamp,
        Happening::Cycle(input) => input.now,
    }
}

/// Every record in the store is stamped strictly before `t`.
pub open spec fn all_before(store: StoreView, t: Timestamp) -> bool {
    &&& forall|i: int| 0 <= i < store.summaries.len() ==> (#[trigger] store.summaries[i]).timestamp < t
    &&& forall|i: int| 0 <= i < store.digests.len() ==> (#[trigger] store.digests[i]).timestamp < t
}

/// The clock moves on between happenings: each is stamped strictly later
/// than every record the store holds when it happens.
pub open spec fn clocked(run: Seq<Happening>) -> bool
    decreases run.len(),
{
    run.len() > 0 ==> clocked(run.drop_last()) && all_before(
        history(run.drop_last()),
        stamp(run.last()),
    )
}

/// Every summary stamped before the cursor is covered by exactly one
/// digest, every later one by none, and none is stamped at the cursor.
pub open spec fn settled(store: StoreView) -> bool {
    forall|i: int|
        0 <= i < store.summaries.len() ==> {
            let x = #[trigger] store.summaries[i];
            match store.cursor() {
                None => times_covered(store.digests, x.id) == 0,
                Some(t) => x.timestamp != t && times_covered(store.digests, x.id) == (if x.timestamp
                    < t {
                    1nat
                } else {
                    0nat
                }),
            }
        }
}

/// No digest covers an identifier that no summary carries.
pub proof fn lemma_unknown_is_uncovered(store: StoreView, n: int, id: i64)
    requires
        store.well_formed(),
        !has_summary(store.summaries, id),
        0 <= n <= store.digests.len(),
    ensures
        times_covered(store.digests.subrange(0, n), id) == 0,
    decreases n,
{
    let prefix = store.digests.subrange(0, n);
    if n > 0 {
        lemma_unknown_is_uncovered(store, n - 1, id);
        assert(prefix.drop_last() =~= store.digests.subrange(0, n - 1));
        assert(prefix.last() == store.digests[n - 1]);
        let covers = store.digests[n - 1].covers;
        if covers.contains(id) {
            let k = choose|k: int| 0 <= k < covers.len() && covers[k] == id;
            assert(has_summary(store.summaries, store.digests[n - 1].covers[k]));
        }
    }
}

/// Whatever happens to a well-formed store leaves it well formed.
pub proof fn lemma_after_well_formed(store: StoreView, what: Happening)
    requires
        store.well_formed(),
    ensures
        after(store, what).well_formed(),
{
    let next = after(store, what);
    match what {
        Happening::Arrival(s) => {
            if !has_summary(store.summaries, s.id) {
                assert forall|i: int, k: int|
                    0 <= i < next.digests.len() && 0 <= k < next.digests[i].covers.len() implies has_summary(
                    next.summaries,
                    #[trigger] next.digests[i].covers[k],
                ) by {
                    let id = next.digests[i].covers[k];
                    assert(has_summary(store.summaries, id));
                    let m = choose|m: int|
                        0 <= m < store.summaries.len() && store.summaries[m].id == id;
                    assert(next.summaries[m].id == id);
                }
            }
        },
        Happening::Cycle(input) => {
            lemma_window_linkage(store.summaries, store.cursor());
        },
    }
}

/// One happening under a moving clock keeps a settled store settled.
pub proof fn lemma_after_settled(store: StoreView, what: Happening)
    requires
        store.well_formed(),
        settled(store),
        all_before(store, stamp(what)),
    ensures
        settled(after(store, what)),
{
    let next = after(store, what);
    match what {
        Happening::Arrival(s) => {
            if !has_summary(store.summaries, s.id) {
                lemma_unknown_is_uncovered(store, store.digests.len() as int, s.id);
                assert(store.digests.subrange(0, store.digests.len() as int) =~= store.digests);
                if store.digests.len() > 0 {
                    assert(store.digests.last() == store.digests[store.digests.len() - 1]);
                }
                assert forall|i: int| 0 <= i < next.summaries.len() implies ({
                    let x = #[trigger] next.summaries[i];
                    match next.cursor() {
                        None => times_covered(next.digests, x.id) == 0,
                        Some(t) => x.timestamp != t && times_covered(next.digests, x.id) == (if x.timestamp
                            < t {
                            1nat
                        } else {
                            0nat
                        }),
                    }
                }) by {
                    if i < store.summaries.len() {
                        assert(next.summaries[i] == store.summaries[i]);
                    }
                }
            }
        },
        Happening::Cycle(input) => {
            lemma_cycle_outcome(store, input);
            if cycle(store, input).1 is Persisted {
                let cursor = store.cursor();
                let w = window(store.summaries, cursor);
                let covers = ids_of(w);
                lemma_window_members(store.summaries, cursor);
                lemma_window_linkage(store.summaries, cursor);
                assert(next.digests.drop_last() =~= store.digests);
                assert(next.digests.last().covers == covers);
                assert(next.cursor() == Some(input.now));
                assert forall|i: int| 0 <= i < next.summaries.len() implies ({
                    let x = #[trigger] next.summaries[i];
                    x.timestamp != input.now && times_covered(next.digests, x.id) == (if x.timestamp
                        < input.now {
                        1nat
                    } else {
                        0nat
                    })
                }) by {
                    let x = store.summaries[i];
                    assert(x.timestamp < input.now);
                    if in_window(x, cursor) {
                        assert(covers.contains(x.id));
                    } else {
                        if covers.contains(x.id) {
                            let k = choose|k: int| 0 <= k < covers.len() && covers[k] == x.id;
                            assert(w.contains(w[k]));
                            assert(store.summaries.contains(w[k]));
                            let m = choose|m: int|
                                0 <= m < store.summaries.len() && store.summaries[m] == w[k];
                            assert(m == i);
                        }
                    }
                }
            }
        },
    }
}

/// Summaries arrive stamped strictly after the cursor of the moment.
pub open spec fn paced(run: Seq<Happening>) -> bool
    decreases run.len(),
{
    run.len() > 0 ==> paced(run.drop_last()) && match run.last() {
        Happening::Arrival(s) => match history(run.drop_last()).cursor() {
            Some(t) => s.timestamp > t,
            None => true,
        },
        Happening::Cycle(_) => true,
    }
}

/// Every summary stamped at or before the cursor is covered by a digest.
pub open spec fn none_skipped(store: StoreView) -> bool {
    forall|i: int|
        0 <= i < store.summaries.len() && store.cursor() is Some && (
        #[trigger] store.summaries[i]).timestamp <= store.cursor().unwrap() ==> times_covered(
            store.digests,
            store.summaries[i].id,
        ) >= 1
}

/// No summary is passed over: as long as summaries arrive stamped after
/// the cursor of the moment, every summary stamped at or before the cursor
/// is in the linkage of at least one digest, whatever the clock readings
/// of the cycles and however they ended.
pub proof fn lemma_none_skipped(run: Seq<Happening>)
    requires
        paced(run),
    ensures
        history(run).well_formed(),
        none_skipped(history(run)),
    decreases run.len(),
{
    if run.len() > 0 {
        let store = history(run.drop_last());
        let next = history(run);
        lemma_none_skipped(run.drop_last());
        lemma_after_well_formed(store, run.last());
        match run.last() {
            Happening::Arrival(s) => {
                assert forall|i: int|
                    0 <= i < next.summaries.len() && next.cursor() is Some && (
                    #[trigger] next.summaries[i]).timestamp
                        <= next.cursor().unwrap() implies times_covered(
                    next.digests,
                    next.summaries[i].id,
                ) >= 1 by {
                    if i < store.summaries.len() {
                        assert(next.summaries[i] == store.summaries[i]);
                    }
                }
            },
            Happening::Cycle(input) => {
                lemma_cycle_outcome(store, input);
                if cycle(store, input).1 is Persisted {
                    let cursor = store.cursor();
                    lemma_window_linkage(store.summaries, cursor);
                    assert(next.digests.drop_last() =~= store.digests);
                    assert forall|i: int|
                        0 <= i < next.summaries.len() && next.cursor() is Some && (
                        #[trigger] next.summaries[i]).timestamp
                            <= next.cursor().unwrap() implies times_covered(
                        next.digests,
                        next.summaries[i].id,
                    ) >= 1 by {
                        let x = store.summaries[i];
                        if in_window(x, cursor) {
                            assert(next.digests.last().covers.contains(x.id));
                        }
                    }
                }
            },
        }
    }
}

/// Coverage: after any run of arrivals and cycles under a moving clock,
/// counted from an empty store, every summary stamped at or before the
/// cursor is in the linkage of exactly one digest, and no summary is in
/// the linkage of two.
pub proof fn lemma_covered_exactly_once(run: Seq<Happening>)
    requires
        clocked(run),
    ensures
        history(run).well_formed(),
        settled(history(run)),
        forall|i: int|
            0 <= i < history(run).summaries.len() && history(run).cursor() is Some && (
            #[trigger] history(run).summaries[i]).timestamp <= history(run).cursor().unwrap()
                ==> times_covered(history(run).digests, history(run).summaries[i].id) == 1,
        forall|i: int|
            0 <= i < history(run).summaries.len() ==> times_covered(
                history(run).digests,
                (#[trigger] history(run).summaries[i]).id,
            ) <= 1,
    decreases run.len(),
{
    if run.len() > 0 {
        lemma_covered_exactly_once(run.drop_last());
        lemma_after_well_formed(history(run.drop_last()), run.last());
        lemma_after_settled(history(run.drop_last()), run.last());
    }
}

} // verus!
