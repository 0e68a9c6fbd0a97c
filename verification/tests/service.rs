use daily_recap::cycle::{advance, Action, CycleState, Event, Failure, Report};
use daily_recap::record::{Digest, Summary};
use daily_recap::service::{CycleInput, DailyRecapService};
use daily_recap::store::Store;

fn summary(id: i64, text: &str, timestamp: i64) -> Summary {
    Summary::new(id, text.to_string(), timestamp)
}

fn store_with(rows: Vec<Summary>) -> Store {
    let mut store = Store::new();
    for row in rows {
        assert_eq!(store.add_summary(row), Ok(()));
    }
    store
}

fn answer(text: &str, now: i64) -> CycleInput {
    CycleInput { summary: Some(text.to_string()), now }
}

fn failure(now: i64) -> CycleInput {
    CycleInput { summary: None, now }
}

/// Plays the driver: performs each action on the store, with a capability
/// that hands its input back unchanged.
fn drive_with_echo(store: &mut Store, now: i64) -> (Option<String>, Report) {
    let mut asked = None;
    let (mut state, mut step) = advance(CycleState::Idle, Event::Tick);
    loop {
        let event = match step.action {
            Action::ReadCursor => Event::Cursor(store.latest_digest()),
            Action::ReadSummaries(since) => Event::Summaries(store.summaries_since(since)),
            Action::Summarize(text) => {
                asked = Some(text.clone());
                Event::Summarized(text)
            }
            Action::InsertDigest { text, covers } => match store.insert_digest(text, covers, now) {
                Ok(id) => Event::Persisted(id),
                Err(_) => Event::PersistenceFailed,
            },
            Action::AwaitTick => return (asked, step.report.unwrap()),
            Action::Nothing => panic!("the machine was handed an event it did not await"),
        };
        let next = advance(state, event);
        state = next.0;
        step = next.1;
    }
}

#[test]
fn service_keeps_its_interval() {
    assert_eq!(DailyRecapService::new(1).interval_seconds(), 1);
    assert_eq!(DailyRecapService::new(86_400).interval_seconds(), 86_400);
    assert_eq!(DailyRecapService::new(u64::MAX).interval_seconds(), u64::MAX);
}

#[test]
fn two_cycles_with_inclusive_boundary() {
    let mut store = store_with(vec![summary(1, "hello", 1), summary(2, "world", 2)]);

    let (asked, report) = drive_with_echo(&mut store, 2);
    assert_eq!(asked, Some("hello world".to_string()));
    assert_eq!(report, Report::Persisted(1));
    assert_eq!(
        store.digests(),
        &vec![Digest { id: 1, text: "hello world".to_string(), timestamp: 2, covers: vec![1, 2] }]
    );

    assert_eq!(store.add_summary(summary(3, "again", 3)), Ok(()));
    let (asked, report) = drive_with_echo(&mut store, 4);
    // The boundary is inclusive: the summary stamped at the cursor is taken
    // up again, together with the new one.
    assert_eq!(asked, Some("world again".to_string()));
    assert_eq!(report, Report::Persisted(2));
    assert_eq!(store.digests().len(), 2);
    assert_eq!(
        store.digests()[1],
        Digest { id: 2, text: "world again".to_string(), timestamp: 4, covers: vec![2, 3] }
    );
}

#[test]
fn two_cycles_with_the_digest_stamped_after_the_summaries() {
    let service = DailyRecapService::new(60);
    let mut store = store_with(vec![summary(1, "hello", 1), summary(2, "world", 2)]);
    assert_eq!(service.run_cycle(&mut store, answer("HELLO WORLD", 3)), Report::Persisted(1));
    assert_eq!(store.digests()[0].covers, vec![1, 2]);
    assert_eq!(store.add_summary(summary(3, "again", 4)), Ok(()));
    assert_eq!(service.run_cycle(&mut store, answer("AGAIN", 5)), Report::Persisted(2));
    assert_eq!(store.digests()[1].covers, vec![3]);
    assert_eq!(store.digests()[1].text, "AGAIN");
}

#[test]
fn run_cycle_on_an_empty_store_is_skipped() {
    let service = DailyRecapService::new(60);
    let mut store = Store::new();
    assert_eq!(service.run_cycle(&mut store, answer("unused", 10)), Report::Skipped);
    assert!(store.digests().is_empty());
}

#[test]
fn empty_cycles_leave_the_store_unchanged() {
    let service = DailyRecapService::new(60);
    let mut store = store_with(vec![summary(1, "a", 10), summary(2, "b", 20)]);
    assert_eq!(service.run_cycle(&mut store, answer("ab", 30)), Report::Persisted(1));
    let digests = store.digests().clone();
    let summaries = store.summaries().clone();
    for now in [31, 32, 1_000] {
        assert_eq!(service.run_cycle(&mut store, answer("never used", now)), Report::Skipped);
        assert_eq!(service.run_cycle(&mut store, failure(now)), Report::Skipped);
        assert_eq!(store.digests(), &digests);
        assert_eq!(store.summaries(), &summaries);
    }
}

#[test]
fn failed_summarization_writes_nothing_and_is_retried() {
    let service = DailyRecapService::new(60);
    let mut store = store_with(vec![summary(1, "a", 10), summary(2, "b", 20)]);
    assert_eq!(service.run_cycle(&mut store, answer("first", 5)), Report::Persisted(1));
    assert_eq!(store.add_summary(summary(3, "c", 30)), Ok(()));

    assert_eq!(
        service.run_cycle(&mut store, failure(40)),
        Report::Failed(Failure::Summarization)
    );
    assert_eq!(store.digests().len(), 1);
    assert_eq!(store.latest_digest(), Some((1, 5)));

    assert_eq!(store.add_summary(summary(4, "d", 35)), Ok(()));
    assert_eq!(store.add_summary(summary(5, "too early", 4)), Ok(()));
    assert_eq!(service.run_cycle(&mut store, answer("second", 50)), Report::Persisted(2));
    // The window of the failed cycle (1, 2, 3) and what came meanwhile at or
    // after the cursor (4); the summary stamped before the cursor stays out.
    assert_eq!(store.digests()[1].covers, vec![1, 2, 3, 4]);
    assert_eq!(store.digests()[1].text, "second");
    assert_eq!(store.digests()[1].timestamp, 50);
}

#[test]
fn refused_digest_is_reported_as_persistence_failure() {
    let service = DailyRecapService::new(60);
    let mut store = store_with(vec![summary(1, "a", 10), summary(2, "b", 200)]);
    assert_eq!(service.run_cycle(&mut store, answer("first", 100)), Report::Persisted(1));
    // The clock reads earlier than the cursor: the store refuses.
    assert_eq!(
        service.run_cycle(&mut store, answer("second", 99)),
        Report::Failed(Failure::Persistence)
    );
    assert_eq!(store.digests().len(), 1);
    assert_eq!(service.run_cycle(&mut store, answer("second", 100)), Report::Persisted(2));
    assert_eq!(store.digests()[1].covers, vec![2]);
}

#[test]
fn run_reports_every_cycle_in_order() {
    let service = DailyRecapService::new(60);
    let mut store = store_with(vec![summary(1, "a", 10), summary(2, "b", 20)]);
    let inputs = vec![failure(21), answer("ab", 22), answer("unused", 23), failure(24)];
    let reports = service.run(&mut store, &inputs);
    assert_eq!(
        reports,
        vec![
            Report::Failed(Failure::Summarization),
            Report::Persisted(1),
            Report::Skipped,
            Report::Skipped,
        ]
    );
    assert_eq!(
        store.digests(),
        &vec![Digest { id: 1, text: "ab".to_string(), timestamp: 22, covers: vec![1, 2] }]
    );
    assert!(service.run(&mut store, &Vec::new()).is_empty());
}

#[test]
fn every_summary_is_covered_exactly_once_under_a_moving_clock() {
    let service = DailyRecapService::new(60);
    let mut store = Store::new();
    let mut clock = 0;
    let mut next_id = 1;
    for batch in [3, 0, 1, 4, 0, 2] {
        for _ in 0..batch {
            clock += 1;
            assert_eq!(store.add_summary(summary(next_id, "s", clock)), Ok(()));
            next_id += 1;
        }
        clock += 1;
        let report = service.run_cycle(&mut store, answer("d", clock));
        assert_eq!(report == Report::Skipped, batch == 0);
    }
    assert_eq!(store.digests().len(), 4);
    let (_, cursor) = store.latest_digest().unwrap();
    for s in store.summaries() {
        assert!(s.timestamp <= cursor);
        let times = store.digests().iter().filter(|d| d.covers.contains(&s.id)).count();
        assert_eq!(times, 1);
    }
}

#[test]
fn cycle_input_clone_is_equal() {
    let input = answer("text", 7);
    assert_eq!(input.clone(), input);
    assert_eq!(failure(8).clone(), failure(8));
}
