//! The recap service: its configuration, and whole cycles run against the
//! in-memory store.

use vstd::prelude::*;
use crate::aggregate::ids_of;
use crate::cycle::{advance, Action, CycleState, Event, Failure, Report};
use crate::record::Timestamp;
use crate::store::{Store, StoreView};
use crate::window::{lemma_window_idempotent, window};

verus! {

/// What the outside world contributes to one cycle: the answer of the
/// summarization capability, should it be asked (`None`: it fails), and the
/// clock reading with which a digest would be stamped.
#[derive(Debug, PartialEq, Eq)]
pub struct CycleInput {
    pub summary: Option<String>,
    pub now: Timestamp,
}

/// The content of a [`CycleInput`].
pub struct CycleInputView {
    pub summary: Option<Seq<char>>,
    pub now: Timestamp,
}

impl View for CycleInput {
    type V = CycleInputView;

    open spec fn view(&self) -> CycleInputView {
        CycleInputView {
            summary: match self.summary {
                Some(text) => Some(text@),
                None => None,
            },
            now: self.now,
        }
    }
}

impl Clone for CycleInput {
    fn clone(&self) -> (copy: CycleInput)
        ensures
            copy@ == self@,
    {
        let summary = match &self.summary {
            Some(text) => Some(text.clone()),
            None => None,
        };
        CycleInput { summary, now: self.now }
    }
}

/// One whole cycle on a store: the store afterwards and how the cycle
/// ended.
///
/// The window is everything at or after the latest digest's timestamp. An
/// empty window is skipped. A failed summarization, or a digest that the
/// store refuses, leaves the store as it was. Otherwise the store gains one
/// digest with the capability's text, covering the whole window in order.
pub open spec fn cycle(store: StoreView, input: CycleInputView) -> (StoreView, Report) {
    let w = window(store.summaries, store.cursor());
    if w.len() == 0 {
        (store, Report::Skipped)
    } else {
        match input.summary {
            None => (store, Report::Failed(Failure::Summarization)),
            Some(text) => if store.refusal(ids_of(w), input.now).is_some() {
                (store, Report::Failed(Failure::Persistence))
            } else {
                (
                    store.with_digest(text, ids_of(w), input.now),
                    Report::Persisted((store.digests.len() + 1) as i32),
                )
            },
        }
    }
}

/// Cycle after cycle on a store, one per input: the store afterwards and
/// how each cycle ended.
pub open spec fn replay(store: StoreView, inputs: Seq<CycleInputView>) -> (StoreView, Seq<Report>)
    decreases inputs.len(),
{
    if inputs.len() == 0 {
        (store, Seq::empty())
    } else {
        let before = replay(store, inputs.drop_last());
        let last = cycle(before.0, inputs.last());
        (last.0, before.1.push(last.1))
    }
}

/// The contents of a run of cycle inputs, element by element.
pub open spec fn input_views(inputs: Seq<CycleInput>) -> Seq<CycleInputView> {
    inputs.map_values(|x: CycleInput| x@)
}

/// The recap service: the period of its timer, fixed when it is made.
#[derive(Debug, PartialEq, Eq)]
pub struct DailyRecapService {
    interval_seconds: u64,
}

impl DailyRecapService {
    #[verifier::type_invariant]
    spec fn positive_interval(&self) -> bool {
        self.interval_seconds >= 1
    }

    /// The period between two cycles, in seconds.
    pub closed spec fn interval(&self) -> u64 {
        self.interval_seconds
    }

    /// A service that starts a cycle every `interval_seconds` seconds.
    pub fn new(interval_seconds: u64) -> (service: DailyRecapService)
        requires
            interval_seconds >= 1,
        ensures
            service.interval() == interval_seconds,
    {
        DailyRecapService { interval_seconds }
    }

    /// The period between two cycles, in seconds.
    pub fn interval_seconds(&self) -> (seconds: u64)
        ensures
            seconds == self.interval(),
            seconds >= 1,
    {
        proof {
            use_type_invariant(self);
        }
        self.interval_seconds
    }

    /// Runs one cycle against `store`, from the tick to the report, with
    /// `input` standing in for the capability and the clock.
    pub fn run_cycle(&self, store: &mut Store, input: CycleInput) -> (report: Report)
        requires
            old(store)@.well_formed(),
        ensures
            final(store)@.well_formed(),
            (final(store)@, report) == cycle(old(store)@, input@),
    {
        let ghost before = store@;
        let CycleInput { summary, now } = input;
        let (state, _) = advance(CycleState::Idle, Event::Tick);
        let latest = store.latest_digest();
        let (state, step) = advance(state, Event::Cursor(latest));
        let since = match step.action {
            Action::ReadSummaries(since) => since,
            _ => unreached(),
        };
        let rows = store.summaries_since(since);
        proof {
            lemma_window_idempotent(before.summaries, since);
        }
        let (state, step) = advance(state, Event::Summaries(rows));
        match step.action {
            Action::Summarize(_) => {
                let event = match summary {
                    Some(text) => Event::Summarized(text),
                    None => Event::SummarizationFailed,
                };
                let (state, step) = advance(state, event);
                match step.action {
                    Action::InsertDigest { text, covers } => {
                        let event = match store.insert_digest(text, covers, now) {
                            Ok(id) => Event::Persisted(id),
                            Err(_) => Event::PersistenceFailed,
                        };
                        let (_, step) = advance(state, event);
                        match step.report {
                            Some(report) => report,
                            None => unreached(),
                        }
                    },
                    _ => match step.report {
                        Some(report) => report,
                        None => unreached(),
                    },
                }
            },
            _ => match step.report {
                Some(report) => report,
                None => unreached(),
            },
        }
    }

    /// Runs one cycle per input against `store`, in order, and returns how
    /// each ended.
    pub fn run(&self, store: &mut Store, inputs: &Vec<CycleInput>) -> (reports: Vec<Report>)
        requires
            old(store)@.well_formed(),
        ensures
            final(store)@.well_formed(),
            (final(store)@, reports@) == replay(old(store)@, input_views(inputs@)),
    {
        let ghost start = store@;
        let ghost all = input_views(inputs@);
        let mut reports: Vec<Report> = Vec::new();
        let mut i: usize = 0;
        assert(all.subrange(0, 0) =~= Seq::empty());
        while i < inputs.len()
            invariant
                i <= inputs.len(),
                all == input_views(inputs@),
                store@.well_formed(),
                (store@, reports@) == replay(start, all.subrange(0, i as int)),
            decreases inputs.len() - i,
        {
            let report = self.run_cycle(store, inputs[i].clone());
            proof {
                let next = all.subrange(0, i + 1);
                assert(next.drop_last() =~= all.subrange(0, i as int));
                assert(next.last() == inputs@[i as int]@);
            }
            reports.push(report);
            i += 1;
        }
        assert(all.subrange(0, all.len() as int) =~= all);
        reports
    }
}

} // verus!
