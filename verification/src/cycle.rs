//! One recap cycle as a state machine.
//!
//! The machine decides; its driver does the outside work. The driver hands
//! in what happened as an [`Event`] and gets back the next thing to do as an
//! [`Action`]. A cycle runs `Idle`, `ReadingCursor`, `ReadingWindow`,
//! `Summarizing`, `Persisting` and back to `Idle`; every failure, and an
//! empty window, leads straight back to `Idle` with nothing written.

use vstd::prelude::*;
use crate::aggregate::{aggregate, ids_of, joined, texts_of};
use crate::record::{summary_views, Summary, SummaryView, Timestamp};
use crate::window::{select_window, window};

verus! {

/// Why a cycle was abandoned.
#[derive(Debug, Clone, Copy, PartialEq, Eq, Structural)]
pub enum Failure {
    /// Reading the latest digest or the summaries failed.
    Query,
    /// The summarization capability failed or timed out.
    Summarization,
    /// The digest could not be written.
    Persistence,
}

/// How a cycle ended.
#[derive(Debug, Clone, Copy, PartialEq, Eq, Structural)]
pub enum Report {
    /// The window was empty: nothing was written.
    Skipped,
    /// The cycle was abandoned: nothing was written.
    Failed(Failure),
    /// A digest was written under this identifier.
    Persisted(i32),
}

/// Where a cycle stands.
#[derive(Debug, PartialEq, Eq)]
pub enum CycleState {
    /// Between cycles, waiting for the next tick.
    Idle,
    /// Waiting for the latest digest.
    ReadingCursor,
    /// Waiting for the summaries at or after the cursor.
    ReadingWindow { cursor: Option<Timestamp> },
    /// Waiting for the summarization capability; holds the identifiers the
    /// digest will cover.
    Summarizing { covers: Vec<i64> },
    /// Waiting for the digest to be written.
    Persisting,
}

/// The content of a [`CycleState`].
pub enum CycleStateView {
    Idle,
    ReadingCursor,
    ReadingWindow { cursor: Option<Timestamp> },
    Summarizing { covers: Seq<i64> },
    Persisting,
}

impl View for CycleState {
    type V = CycleStateView;

    open spec fn view(&self) -> CycleStateView {
        match *self {
            CycleState::Idle => CycleStateView::Idle,
            CycleState::ReadingCursor => CycleStateView::ReadingCursor,
            CycleState::ReadingWindow { cursor } => CycleStateView::ReadingWindow { cursor },
            CycleState::Summarizing { covers } => CycleStateView::Summarizing { covers: covers@ },
            CycleState::Persisting => CycleStateView::Persisting,
        }
    }
}

/// What the driver reports to the machine.
#[derive(Debug, PartialEq, Eq)]
pub enum Event {
    /// The timer fired.
    Tick,
    /// The latest digest's identifier and timestamp, or none if there is no
    /// digest yet.
    Cursor(Option<(i32, Timestamp)>),
    /// The summaries that the store returned.
    Summaries(Vec<Summary>),
    /// A read of the store failed.
    QueryFailed,
    /// The summarization capability returned this text.
    Summarized(String),
    /// The summarization capability failed or timed out.
    SummarizationFailed,
    /// The digest was written under this identifier.
    Persisted(i32),
    /// The digest could not be written.
    PersistenceFailed,
}

/// The content of an [`Event`].
pub enum EventView {
    Tick,
    Cursor(Option<(i32, Timestamp)>),
    Summaries(Seq<SummaryView>),
    QueryFailed,
    Summarized(Seq<char>),
    SummarizationFailed,
    Persisted(i32),
    PersistenceFailed,
}

impl View for Event {
    type V = EventView;

    open spec fn view(&self) -> EventView {
        match *self {
            Event::Tick => EventView::Tick,
            Event::Cursor(latest) => EventView::Cursor(latest),
            Event::Summaries(rows) => EventView::Summaries(summary_views(rows@)),
            Event::QueryFailed => EventView::QueryFailed,
            Event::Summarized(text) => EventView::Summarized(text@),
            Event::SummarizationFailed => EventView::SummarizationFailed,
            Event::Persisted(id) => EventView::Persisted(id),
            Event::PersistenceFailed => EventView::PersistenceFailed,
        }
    }
}

/// What the machine asks of the driver.
#[derive(Debug, PartialEq, Eq)]
pub enum Action {
    /// Nothing new: the event was not one the machine was waiting for.
    Nothing,
    /// The cycle is over: wait for the next tick.
    AwaitTick,
    /// Read the most recent digest.
    ReadCursor,
    /// Read the summaries at or after this timestamp, or all of them.
    ReadSummaries(Option<Timestamp>),
    /// Hand this text to the summarization capability.
    Summarize(String),
    /// Write one digest with this text and its full linkage, all or nothing.
    InsertDigest { text: String, covers: Vec<i64> },
}

/// The content of an [`Action`].
pub enum ActionView {
    Nothing,
    AwaitTick,
    ReadCursor,
    ReadSummaries(Option<Timestamp>),
    Summarize(Seq<char>),
    InsertDigest { text: Seq<char>, covers: Seq<i64> },
}

impl View for Action {
    type V = ActionView;

    open spec fn view(&self) -> ActionView {
        match *self {
            Action::Nothing => ActionView::Nothing,
            Action::AwaitTick => ActionView::AwaitTick,
            Action::ReadCursor => ActionView::ReadCursor,
            Action::ReadSummaries(since) => ActionView::ReadSummaries(since),
            Action::Summarize(text) => ActionView::Summarize(text@),
            Action::InsertDigest { text, covers } => ActionView::InsertDigest {
                text: text@,
                covers: covers@,
            },
        }
    }
}

/// The machine's answer to one event: what to do next and, where the event
/// ended a cycle, how it ended.
#[derive(Debug, PartialEq, Eq)]
pub struct Step {
    pub action: Action,
    pub report: Option<Report>,
}

/// The content of a [`Step`].
pub struct StepView {
    pub action: ActionView,
    pub report: Option<Report>,
}

impl View for Step {
    type V = StepView;

    open spec fn view(&self) -> StepView {
        StepView { action: self.action@, report: self.report }
    }
}

/// A step inside a cycle.
pub open spec fn proceed(action: ActionView) -> StepView {
    StepView { action, report: None }
}

/// The step that ends a cycle.
pub open spec fn finish(report: Report) -> StepView {
    StepView { action: ActionView::AwaitTick, report: Some(report) }
}

/// The timestamp that bounds the next window, given the latest digest.
pub open spec fn cursor_of(latest: Option<(i32, Timestamp)>) -> Option<Timestamp> {
    match latest {
        Some(d) => Some(d.1),
        None => None,
    }
}

/// The machine's rule: the state after `event` and the answer to it.
///
/// The window is selected and ordered here, whatever the store returned and
/// in whatever order. An event that the state is not waiting for changes
/// nothing.
pub open spec fn transition(state: CycleStateView, event: EventView) -> (CycleStateView, StepView) {
    match state {
        CycleStateView::Idle => match event {
            EventView::Tick => (CycleStateView::ReadingCursor, proceed(ActionView::ReadCursor)),
            _ => (state, proceed(ActionView::Nothing)),
        },
        CycleStateView::ReadingCursor => match event {
            EventView::Cursor(latest) => (
                CycleStateView::ReadingWindow { cursor: cursor_of(latest) },
                proceed(ActionView::ReadSummaries(cursor_of(latest))),
            ),
            EventView::QueryFailed => (CycleStateView::Idle, finish(Report::Failed(Failure::Query))),
            _ => (state, proceed(ActionView::Nothing)),
        },
        CycleStateView::ReadingWindow { cursor } => match event {
            EventView::Summaries(rows) => {
                let w = window(rows, cursor);
                if w.len() == 0 {
                    (CycleStateView::Idle, finish(Report::Skipped))
                } else {
                    (
                        CycleStateView::Summarizing { covers: ids_of(w) },
                        proceed(ActionView::Summarize(joined(texts_of(w)))),
                    )
                }
            },
            EventView::QueryFailed => (CycleStateView::Idle, finish(Report::Failed(Failure::Query))),
            _ => (state, proceed(ActionView::Nothing)),
        },
        CycleStateView::Summarizing { covers } => match event {
            EventView::Summarized(text) => (
                CycleStateView::Persisting,
                proceed(ActionView::InsertDigest { text, covers }),
            ),
            EventView::SummarizationFailed => (
                CycleStateView::Idle,
                finish(Report::Failed(Failure::Summarization)),
            ),
            _ => (state, proceed(ActionView::Nothing)),
        },
        CycleStateView::Persisting => match event {
            EventView::Persisted(id) => (CycleStateView::Idle, finish(Report::Persisted(id))),
            EventView::PersistenceFailed => (
                CycleStateView::Idle,
                finish(Report::Failed(Failure::Persistence)),
            ),
            _ => (state, proceed(ActionView::Nothing)),
        },
    }
}

/// Every way out of a cycle leads back to `Idle` with nothing half done:
/// a step that carries a report, be it a failure, a skip or a success,
/// leaves the machine idle and asks only to await the next tick; and a
/// write is asked for only once the capability has answered, always with
/// its text and the whole linkage that the window gave.
pub proof fn lemma_cycle_ends_idle(state: CycleStateView, event: EventView)
    ensures
        transition(state, event).1.report is Some ==> {
            &&& transition(state, event).0 == CycleStateView::Idle
            &&& transition(state, event).1.action == ActionView::AwaitTick
        },
        transition(state, event).1.action is InsertDigest ==> {
            &&& state is Summarizing
            &&& event is Summarized
            &&& transition(state, event).1.action == (ActionView::InsertDigest {
                text: event->Summarized_0,
                covers: state->Summarizing_covers,
            })
            &&& transition(state, event).0 == CycleStateView::Persisting
        },
        (event is QueryFailed || event is SummarizationFailed || event is PersistenceFailed) ==> {
            ||| transition(state, event).0 == CycleStateView::Idle
            ||| transition(state, event).0 == state
        },
{
}

fn ignore(state: CycleState) -> (r: (CycleState, Step))
    ensures
        r.0@ == state@,
        r.1@ == proceed(ActionView::Nothing),
{
    (state, Step { action: Action::Nothing, report: None })
}

fn end(report: Report) -> (r: (CycleState, Step))
    ensures
        r.0@ == CycleStateView::Idle,
        r.1@ == finish(report),
{
    (CycleState::Idle, Step { action: Action::AwaitTick, report: Some(report) })
}

/// Takes the machine from `state` through `event`.
pub fn advance(state: CycleState, event: Event) -> (r: (CycleState, Step))
    ensures
        (r.0@, r.1@) == transition(state@, event@),
{
    match state {
        CycleState::Idle => match event {
            Event::Tick => (
                CycleState::ReadingCursor,
                Step { action: Action::ReadCursor, report: None },
            ),
            _ => ignore(CycleState::Idle),
        },
        CycleState::ReadingCursor => match event {
            Event::Cursor(latest) => {
                let cursor = match latest {
                    Some(d) => Some(d.1),
                    None => None,
                };
                (
                    CycleState::ReadingWindow { cursor },
                    Step { action: Action::ReadSummaries(cursor), report: None },
                )
            },
            Event::QueryFailed => end(Report::Failed(Failure::Query)),
            _ => ignore(CycleState::ReadingCursor),
        },
        CycleState::ReadingWindow { cursor } => match event {
            Event::Summaries(rows) => {
                let w = select_window(rows, cursor);
                if w.len() == 0 {
                    end(Report::Skipped)
                } else {
                    let a = aggregate(&w);
                    (
                        CycleState::Summarizing { covers: a.covers },
                        Step { action: Action::Summarize(a.text), report: None },
                    )
                }
            },
            Event::QueryFailed => end(Report::Failed(Failure::Query)),
            _ => ignore(CycleState::ReadingWindow { cursor }),
        },
        CycleState::Summarizing { covers } => match event {
            Event::Summarized(text) => (
                CycleState::Persisting,
                Step { action: Action::InsertDigest { text, covers }, report: None },
            ),
            Event::SummarizationFailed => end(Report::Failed(Failure::Summarization)),
            _ => ignore(CycleState::Summarizing { covers }),
        },
        CycleState::Persisting => match event {
            Event::Persisted(id) => end(Report::Persisted(id)),
            Event::PersistenceFailed => end(Report::Failed(Failure::Persistence)),
            _ => ignore(CycleState::Persisting),
        },
    }
}

} // verus!
