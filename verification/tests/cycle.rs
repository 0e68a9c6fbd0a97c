use daily_recap::cycle::{advance, Action, CycleState, Event, Failure, Report, Step};
use daily_recap::record::Summary;

fn summary(id: i64, text: &str, timestamp: i64) -> Summary {
    Summary::new(id, text.to_string(), timestamp)
}

fn proceed(action: Action) -> Step {
    Step { action, report: None }
}

fn finish(report: Report) -> Step {
    Step { action: Action::AwaitTick, report: Some(report) }
}

#[test]
fn tick_starts_a_cycle_by_reading_the_cursor() {
    let (state, step) = advance(CycleState::Idle, Event::Tick);
    assert_eq!(state, CycleState::ReadingCursor);
    assert_eq!(step, proceed(Action::ReadCursor));
}

#[test]
fn cursor_bounds_the_read_of_summaries() {
    let (state, step) = advance(CycleState::ReadingCursor, Event::Cursor(Some((4, 1_000))));
    assert_eq!(state, CycleState::ReadingWindow { cursor: Some(1_000) });
    assert_eq!(step, proceed(Action::ReadSummaries(Some(1_000))));
}

#[test]
fn no_digest_yet_means_full_backfill() {
    let (state, step) = advance(CycleState::ReadingCursor, Event::Cursor(None));
    assert_eq!(state, CycleState::ReadingWindow { cursor: None });
    assert_eq!(step, proceed(Action::ReadSummaries(None)));
}

#[test]
fn empty_window_is_skipped() {
    let (state, step) =
        advance(CycleState::ReadingWindow { cursor: Some(5) }, Event::Summaries(Vec::new()));
    assert_eq!(state, CycleState::Idle);
    assert_eq!(step, finish(Report::Skipped));
}

#[test]
fn rows_before_the_cursor_do_not_make_a_window() {
    let rows = vec![summary(1, "old", 4)];
    let (state, step) = advance(CycleState::ReadingWindow { cursor: Some(5) }, Event::Summaries(rows));
    assert_eq!(state, CycleState::Idle);
    assert_eq!(step, finish(Report::Skipped));
}

#[test]
fn window_is_aggregated_in_ascending_order() {
    let rows = vec![summary(2, "world", 2), summary(1, "hello", 1)];
    let (state, step) = advance(CycleState::ReadingWindow { cursor: None }, Event::Summaries(rows));
    assert_eq!(state, CycleState::Summarizing { covers: vec![1, 2] });
    assert_eq!(step, proceed(Action::Summarize("hello world".to_string())));
}

#[test]
fn summarized_text_is_written_with_the_full_linkage() {
    let (state, step) = advance(
        CycleState::Summarizing { covers: vec![1, 2] },
        Event::Summarized("digest".to_string()),
    );
    assert_eq!(state, CycleState::Persisting);
    assert_eq!(
        step,
        proceed(Action::InsertDigest { text: "digest".to_string(), covers: vec![1, 2] })
    );
}

#[test]
fn persisted_ends_the_cycle() {
    let (state, step) = advance(CycleState::Persisting, Event::Persisted(7));
    assert_eq!(state, CycleState::Idle);
    assert_eq!(step, finish(Report::Persisted(7)));
}

#[test]
fn query_failure_abandons_the_cycle() {
    let (state, step) = advance(CycleState::ReadingCursor, Event::QueryFailed);
    assert_eq!(state, CycleState::Idle);
    assert_eq!(step, finish(Report::Failed(Failure::Query)));
    let (state, step) = advance(CycleState::ReadingWindow { cursor: Some(1) }, Event::QueryFailed);
    assert_eq!(state, CycleState::Idle);
    assert_eq!(step, finish(Report::Failed(Failure::Query)));
}

#[test]
fn summarization_failure_abandons_the_cycle() {
    let (state, step) =
        advance(CycleState::Summarizing { covers: vec![1] }, Event::SummarizationFailed);
    assert_eq!(state, CycleState::Idle);
    assert_eq!(step, finish(Report::Failed(Failure::Summarization)));
}

#[test]
fn persistence_failure_abandons_the_cycle() {
    let (state, step) = advance(CycleState::Persisting, Event::PersistenceFailed);
    assert_eq!(state, CycleState::Idle);
    assert_eq!(step, finish(Report::Failed(Failure::Persistence)));
}

#[test]
fn unexpected_events_change_nothing() {
    let (state, step) = advance(CycleState::Idle, Event::Persisted(1));
    assert_eq!(state, CycleState::Idle);
    assert_eq!(step, proceed(Action::Nothing));

    let (state, step) = advance(CycleState::ReadingCursor, Event::Tick);
    assert_eq!(state, CycleState::ReadingCursor);
    assert_eq!(step, proceed(Action::Nothing));

    let (state, step) = advance(
        CycleState::ReadingWindow { cursor: Some(3) },
        Event::Summarized("x".to_string()),
    );
    assert_eq!(state, CycleState::ReadingWindow { cursor: Some(3) });
    assert_eq!(step, proceed(Action::Nothing));

    let (state, step) = advance(CycleState::Summarizing { covers: vec![5, 6] }, Event::Tick);
    assert_eq!(state, CycleState::Summarizing { covers: vec![5, 6] });
    assert_eq!(step, proceed(Action::Nothing));

    let (state, step) = advance(CycleState::Persisting, Event::QueryFailed);
    assert_eq!(state, CycleState::Persisting);
    assert_eq!(step, proceed(Action::Nothing));
}

#[test]
fn a_whole_cycle_passes_through_every_state() {
    let (state, step) = advance(CycleState::Idle, Event::Tick);
    assert_eq!(step.action, Action::ReadCursor);
    let (state, step) = advance(state, Event::Cursor(Some((1, 10))));
    assert_eq!(step.action, Action::ReadSummaries(Some(10)));
    let rows = vec![summary(12, "b", 12), summary(11, "a", 11), summary(3, "stale", 9)];
    let (state, step) = advance(state, Event::Summaries(rows));
    assert_eq!(step.action, Action::Summarize("a b".to_string()));
    assert_eq!(step.report, None);
    let (state, step) = advance(state, Event::Summarized("ab".to_string()));
    assert_eq!(step.action, Action::InsertDigest { text: "ab".to_string(), covers: vec![11, 12] });
    let (state, step) = advance(state, Event::Persisted(2));
    assert_eq!(state, CycleState::Idle);
    assert_eq!(step, finish(Report::Persisted(2)));
}
