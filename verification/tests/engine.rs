use mongo_data_exporter::engine::{Action, EngineError, Event, Export, Phase, Progress};
use mongo_data_exporter::key::OrderedKey;
use mongo_data_exporter::record::Record;

fn key(n: u64) -> OrderedKey {
    OrderedKey { hi: 0, lo: n }
}

fn record(n: u64) -> Record<u64> {
    Record { key: key(n), body: n * 10 }
}

/// One element of a source held in memory: a key, or `None` for an
/// element that cannot be read.
type Element = Option<u64>;

struct Outcome {
    total: u64,
    flushes: Vec<Vec<u64>>,
    advanced: Vec<OrderedKey>,
    floors: Vec<OrderedKey>,
    skipped: usize,
    aborted: bool,
    stored: Option<OrderedKey>,
    opened_after: Option<OrderedKey>,
    progress: Progress,
}

/// Runs the engine against a source, a target and a store held in memory.
/// The target takes `accept(batch)` records of each batch, or fails where
/// that is `None`.
fn drive(
    batch_size: i32,
    limit: Option<i64>,
    stored: Option<OrderedKey>,
    source: &[Element],
    source_available: bool,
    accept: &dyn Fn(usize, usize) -> Option<u64>,
) -> Outcome {
    let mut engine: Export<u64> = Export::init(batch_size, limit);
    let mut out = Outcome {
        total: 0,
        flushes: Vec::new(),
        advanced: Vec::new(),
        floors: Vec::new(),
        skipped: 0,
        aborted: false,
        stored,
        opened_after: None,
        progress: Progress { batches_flushed: 0, total_accepted: 0 },
    };
    let mut cursor: Vec<Element> = Vec::new();
    let mut at: usize = 0;
    let mut action = engine.start_export().unwrap();
    loop {
        let event = match action {
            Action::ReadCheckpoint => Event::Resumed { found: out.stored },
            Action::Open { after, limit } => {
                out.opened_after = Some(after);
                if !source_available {
                    Event::SourceUnavailable
                } else {
                    let mut given: usize = 0;
                    for element in source {
                        let above = match element {
                            Some(n) => after.is_before(&key(*n)),
                            None => true,
                        };
                        let room = match limit {
                            Some(l) => (given as i64) < l,
                            None => true,
                        };
                        if above && room {
                            cursor.push(*element);
                            given += 1;
                        }
                    }
                    Event::Opened
                }
            }
            Action::Pull | Action::Skip | Action::Advance { .. } => {
                if let Action::Skip = action {
                    out.skipped += 1;
                }
                if let Action::Advance { key } = action {
                    out.advanced.push(key);
                    out.stored = Some(key);
                }
                if at < cursor.len() {
                    at += 1;
                    match cursor[at - 1] {
                        Some(n) => Event::Item { record: record(n) },
                        None => Event::ReadFailed,
                    }
                } else {
                    Event::Exhausted
                }
            }
            Action::Flush { batch } => {
                let keys: Vec<u64> = batch.iter().map(|r| r.key.lo).collect();
                for r in &batch {
                    assert_eq!(r.body, r.key.lo * 10);
                }
                out.floors.push(engine.last_key());
                let outcome = accept(out.flushes.len(), keys.len());
                out.flushes.push(keys);
                match outcome {
                    Some(accepted) => Event::Flushed { accepted },
                    None => Event::WriteFailed,
                }
            }
            Action::Finish { advance, total } => {
                if let Some(key) = advance {
                    out.advanced.push(key);
                    out.stored = Some(key);
                }
                assert_eq!(engine.phase(), Phase::Completed);
                out.progress = engine.progress();
                out.total = total;
                return out;
            }
            Action::Abort { total } => {
                assert_eq!(engine.phase(), Phase::Aborted);
                out.progress = engine.progress();
                out.total = total;
                out.aborted = true;
                return out;
            }
        };
        assert!(engine.can_take(&event));
        action = engine.step(event).unwrap();
    }
}

fn all(_flush: usize, len: usize) -> Option<u64> {
    Some(len as u64)
}

fn valid(keys: std::ops::RangeInclusive<u64>) -> Vec<Element> {
    keys.map(Some).collect()
}

#[test]
fn batch_boundaries_with_seven_records_and_batches_of_three() {
    let out = drive(3, None, None, &valid(1..=7), true, &all);
    assert_eq!(out.total, 7);
    assert_eq!(out.flushes, vec![vec![1, 2, 3], vec![4, 5, 6], vec![7]]);
    assert_eq!(out.advanced, vec![key(3), key(6), key(7)]);
    assert_eq!(out.stored, Some(key(7)));
    assert_eq!(out.progress, Progress { batches_flushed: 3, total_accepted: 7 });
    assert!(!out.aborted);
}

#[test]
fn limit_of_five_over_ten_records() {
    let out = drive(1000, Some(5), None, &valid(1..=10), true, &all);
    assert_eq!(out.total, 5);
    assert_eq!(out.flushes, vec![vec![1, 2, 3, 4, 5]]);
    assert_eq!(out.stored, Some(key(5)));
}

#[test]
fn empty_source_does_nothing() {
    let out = drive(3, None, Some(key(42)), &[], true, &all);
    assert_eq!(out.total, 0);
    assert!(out.flushes.is_empty());
    assert!(out.advanced.is_empty());
    assert_eq!(out.stored, Some(key(42)));
    assert_eq!(out.opened_after, Some(key(42)));
}

#[test]
fn nothing_above_the_resume_key_does_nothing() {
    let out = drive(3, None, Some(key(9)), &valid(1..=9), true, &all);
    assert_eq!(out.total, 0);
    assert!(out.flushes.is_empty());
    assert!(out.advanced.is_empty());
}

#[test]
fn unreadable_element_is_skipped() {
    let source = vec![Some(1), Some(2), None, Some(3), Some(4), Some(5)];
    let out = drive(2, None, None, &source, true, &all);
    assert_eq!(out.total, 5);
    assert_eq!(out.skipped, 1);
    assert!(!out.aborted);
    assert_eq!(out.flushes, vec![vec![1, 2], vec![3, 4], vec![5]]);
    assert_eq!(out.stored, Some(key(5)));
}

#[test]
fn second_run_over_unchanged_source_accepts_nothing() {
    let source = valid(1..=8);
    let first = drive(3, None, None, &source, true, &all);
    assert_eq!(first.total, 8);
    assert_eq!(first.stored, Some(key(8)));
    let second = drive(3, None, first.stored, &source, true, &all);
    assert_eq!(second.total, 0);
    assert!(second.flushes.is_empty());
    assert!(second.advanced.is_empty());
    assert_eq!(second.stored, Some(key(8)));
}

#[test]
fn restart_after_two_full_batches_takes_the_rest() {
    // 11 records, batches of 4, stopped after 2 full batches.
    let source = valid(1..=11);
    let first = drive(4, Some(8), None, &source, true, &all);
    assert_eq!(first.total, 8);
    assert_eq!(first.stored, Some(key(8)));
    let second = drive(4, None, first.stored, &source, true, &all);
    assert_eq!(second.total, 3);
    assert_eq!(second.flushes, vec![vec![9, 10, 11]]);
    assert_eq!(second.stored, Some(key(11)));
}

#[test]
fn stored_keys_rise_and_batches_lie_above_their_floor() {
    let out = drive(2, None, Some(key(3)), &valid(1..=10), true, &all);
    assert_eq!(out.opened_after, Some(key(3)));
    assert_eq!(out.advanced, vec![key(5), key(7), key(9), key(10)]);
    assert_eq!(out.floors, vec![key(3), key(5), key(7), key(9)]);
    for i in 1..out.advanced.len() {
        assert!(out.advanced[i - 1].is_before(&out.advanced[i]));
    }
    for (floor, batch) in out.floors.iter().zip(out.flushes.iter()) {
        for n in batch {
            assert!(floor.is_before(&key(*n)));
        }
    }
    assert_eq!(out.total, 7);
}

#[test]
fn source_that_cannot_be_opened_is_a_run_of_zero() {
    let out = drive(3, None, None, &valid(1..=4), false, &all);
    assert_eq!(out.total, 0);
    assert!(out.flushes.is_empty());
    assert!(out.advanced.is_empty());
    assert_eq!(out.opened_after, Some(OrderedKey::min()));
}

#[test]
fn failed_write_aborts_with_the_partial_total() {
    let fail_second = |flush: usize, len: usize| if flush == 1 { None } else { Some(len as u64) };
    let out = drive(2, None, None, &valid(1..=7), true, &fail_second);
    assert!(out.aborted);
    assert_eq!(out.total, 2);
    assert_eq!(out.progress, Progress { batches_flushed: 1, total_accepted: 2 });
    assert_eq!(out.flushes, vec![vec![1, 2], vec![3, 4]]);
    assert_eq!(out.advanced, vec![key(2)]);
    assert_eq!(out.stored, Some(key(2)));
}

#[test]
fn failed_last_write_aborts() {
    let fail_last = |flush: usize, len: usize| if flush == 2 { None } else { Some(len as u64) };
    let out = drive(2, None, None, &valid(1..=5), true, &fail_last);
    assert!(out.aborted);
    assert_eq!(out.total, 4);
    assert_eq!(out.stored, Some(key(4)));
}

#[test]
fn partly_accepted_batch_still_moves_the_resume_key() {
    let one_short = |_flush: usize, len: usize| Some(len as u64 - 1);
    let out = drive(3, None, None, &valid(1..=7), true, &one_short);
    assert_eq!(out.total, 2 + 2 + 0);
    assert_eq!(out.advanced, vec![key(3), key(6), key(7)]);
}

#[test]
fn batch_size_that_is_not_positive_gives_one_batch() {
    let out = drive(0, None, None, &valid(1..=5), true, &all);
    assert_eq!(out.flushes, vec![vec![1, 2, 3, 4, 5]]);
    assert_eq!(out.total, 5);
    let out = drive(-4, None, None, &valid(1..=5), true, &all);
    assert_eq!(out.flushes, vec![vec![1, 2, 3, 4, 5]]);
    assert_eq!(out.advanced, vec![key(5)]);
}

#[test]
fn batch_size_of_one_flushes_every_record() {
    let out = drive(1, None, None, &valid(1..=3), true, &all);
    assert_eq!(out.flushes, vec![vec![1], vec![2], vec![3]]);
    assert_eq!(out.advanced, vec![key(1), key(2), key(3)]);
}

#[test]
fn init_is_idle_with_its_configuration() {
    let engine: Export<u64> = Export::init(1000, Some(250));
    assert_eq!(engine.phase(), Phase::Idle);
    assert_eq!(engine.batch_size(), 1000);
    assert_eq!(engine.limit_backup(), Some(250));
    assert_eq!(engine.total(), 0);
    assert_eq!(engine.pending(), 0);
    assert_eq!(engine.last_key(), OrderedKey::min());
}

#[test]
fn start_export_asks_for_the_stored_key_once() {
    let mut engine: Export<u64> = Export::init(2, None);
    assert!(matches!(engine.start_export(), Ok(Action::ReadCheckpoint)));
    assert_eq!(engine.phase(), Phase::Resuming);
    assert!(matches!(engine.start_export(), Err(EngineError::UnexpectedEvent)));
    assert_eq!(engine.phase(), Phase::Resuming);
}

#[test]
fn resumed_opens_after_the_stored_key_with_the_limit() {
    let mut engine: Export<u64> = Export::init(2, Some(9));
    engine.start_export().unwrap();
    match engine.step(Event::Resumed { found: Some(key(17)) }) {
        Ok(Action::Open { after, limit }) => {
            assert_eq!(after, key(17));
            assert_eq!(limit, Some(9));
        }
        _ => panic!("the engine did not ask to open the source"),
    }
    assert_eq!(engine.phase(), Phase::Opening);
    assert_eq!(engine.last_key(), key(17));
}

#[test]
fn unexpected_event_is_refused_and_changes_nothing() {
    let mut engine: Export<u64> = Export::init(2, None);
    assert!(matches!(
        engine.step(Event::Item { record: record(1) }),
        Err(EngineError::UnexpectedEvent)
    ));
    assert_eq!(engine.phase(), Phase::Idle);
    engine.start_export().unwrap();
    engine.step(Event::Resumed { found: None }).unwrap();
    engine.step(Event::Opened).unwrap();
    assert!(matches!(engine.step(Event::Flushed { accepted: 3 }), Err(EngineError::UnexpectedEvent)));
    assert_eq!(engine.phase(), Phase::Streaming);
    assert_eq!(engine.total(), 0);
    assert!(matches!(engine.step(Event::Item { record: record(1) }), Ok(Action::Pull)));
    assert_eq!(engine.pending(), 1);
    assert!(matches!(engine.step(Event::Opened), Err(EngineError::UnexpectedEvent)));
    assert_eq!(engine.pending(), 1);
    assert!(matches!(engine.step(Event::Item { record: record(2) }), Ok(Action::Flush { .. })));
    assert_eq!(engine.phase(), Phase::Flushing);
    assert!(matches!(engine.step(Event::Exhausted), Err(EngineError::UnexpectedEvent)));
    assert!(matches!(engine.step(Event::Flushed { accepted: 2 }), Ok(Action::Advance { .. })));
    assert_eq!(engine.total(), 2);
    assert!(matches!(engine.step(Event::Exhausted), Ok(Action::Finish { advance: None, total: 2 })));
    assert!(matches!(engine.step(Event::Exhausted), Err(EngineError::UnexpectedEvent)));
    assert_eq!(engine.phase(), Phase::Completed);
}

#[test]
fn can_take_refuses_a_count_that_overflows() {
    let mut engine: Export<u64> = Export::init(1, None);
    engine.start_export().unwrap();
    engine.step(Event::Resumed { found: None }).unwrap();
    engine.step(Event::Opened).unwrap();
    engine.step(Event::Item { record: record(1) }).unwrap();
    engine.step(Event::Flushed { accepted: 1 }).unwrap();
    assert!(engine.can_take(&Event::Flushed { accepted: u64::MAX - 1 }));
    assert!(!engine.can_take(&Event::Flushed { accepted: u64::MAX }));
    assert_eq!(engine.progress(), Progress { batches_flushed: 1, total_accepted: 1 });
    assert!(engine.can_take(&Event::Exhausted));
}
