//! Whole runs, as contracts see them, and what holds of every run.
//!
//! A run is followed here against stores that do their part: the source
//! gives its records in order, the target takes every record of a batch,
//! and the resume key is stored whenever the engine asks for it.

use vstd::prelude::*;
use crate::key::OrderedKey;
use crate::record::{all_after, ascending, keys_of, Record};
use crate::engine::{
    next_action, next_state, resume_key_spec, stored_key, ActionView, Event, ExportView, Phase,
};

verus! {

/// A run so far: the engine's state, and everything it has asked for.
pub struct Trace<D> {
    pub state: ExportView<D>,
    /// The batches handed to the target, in order.
    pub flushed: Seq<Seq<Record<D>>>,
    /// For each batch, the resume key that was known when it was handed out.
    pub floors: Seq<OrderedKey>,
    /// The resume keys that the engine asked to store, in order.
    pub advanced: Seq<OrderedKey>,
}

/// The run after the engine took `event`. Where the engine answers with a
/// batch, the target takes all of it and the engine is told so.
pub open spec fn react<D>(t: Trace<D>, event: Event<D>) -> Trace<D> {
    let s1 = next_state(t.state, event);
    match next_action(t.state, event) {
        ActionView::Flush { batch } => {
            let taken = Event::Flushed { accepted: batch.len() as u64 };
            Trace {
                state: next_state(s1, taken),
                flushed: t.flushed.push(batch),
                floors: t.floors.push(t.state.resume),
                advanced: match stored_key(next_action(s1, taken)) {
                    Some(key) => t.advanced.push(key),
                    None => t.advanced,
                },
            }
        },
        _ => Trace { state: s1, ..t },
    }
}

/// A run that has read the stored resume key `found` and opened the source.
pub open spec fn begin<D>(batch_size: int, limit: Option<i64>, found: Option<OrderedKey>) -> Trace<
    D,
> {
    let resuming = ExportView::<D>::idle(batch_size, limit).started();
    let opening = next_state(resuming, Event::Resumed { found });
    Trace {
        state: next_state(opening, Event::Opened),
        flushed: Seq::empty(),
        floors: Seq::empty(),
        advanced: Seq::empty(),
    }
}

/// The run after the source gave `records`, one after the other.
pub open spec fn deliver_all<D>(t: Trace<D>, records: Seq<Record<D>>) -> Trace<D>
    decreases records.len(),
{
    if records.len() == 0 {
        t
    } else {
        react(deliver_all(t, records.drop_last()), Event::Item { record: records.last() })
    }
}

/// A whole run over `records`: from the stored resume key to completion.
pub open spec fn run_all<D>(
    batch_size: int,
    limit: Option<i64>,
    found: Option<OrderedKey>,
    records: Seq<Record<D>>,
) -> Trace<D> {
    react(deliver_all(begin(batch_size, limit, found), records), Event::Exhausted)
}

/// What the store holds after a run: the last key that the run asked to
/// store, or what was there before.
pub open spec fn stored_after<D>(t: Trace<D>, found: Option<OrderedKey>) -> Option<OrderedKey> {
    if t.advanced.len() > 0 {
        Some(t.advanced.last())
    } else {
        found
    }
}

/// The records of an ascending `source` that come strictly after `resume`.
pub open spec fn after<D>(source: Seq<Record<D>>, resume: OrderedKey) -> Seq<Record<D>>
    decreases source.len(),
{
    if source.len() == 0 {
        source
    } else if resume.lt(source.first().key) {
        source
    } else {
        after(source.drop_first(), resume)
    }
}

/// The first `limit` of `records`, or all of them where there is no limit
/// or they are fewer.
pub open spec fn capped<D>(records: Seq<Record<D>>, limit: Option<i64>) -> Seq<Record<D>> {
    match limit {
        Some(n) => if 0 <= n < records.len() {
            records.take(n as int)
        } else if n < 0 {
            Seq::empty()
        } else {
            records
        },
        None => records,
    }
}

/// What the source gives a run that resumes after `resume` with `limit`.
pub open spec fn delivered<D>(source: Seq<Record<D>>, resume: OrderedKey, limit: Option<i64>) -> Seq<
    Record<D>,
> {
    capped(after(source, resume), limit)
}

/// What holds between two elements of a run that is streaming, whatever
/// the keys are.
pub open spec fn counted<D>(t: Trace<D>, k: int, floor: OrderedKey, records: Seq<Record<D>>) -> bool {
    &&& t.state.phase == Phase::Streaming
    &&& t.state.batch_size == k
    &&& 0 <= t.state.total <= records.len()
    &&& t.state.pending == records.skip(t.state.total)
    &&& t.state.pending.len() < k
    &&& t.state.total == k * t.flushed.len()
    &&& t.state.flushes == t.flushed.len()
    &&& t.advanced.len() == t.flushed.len()
    &&& t.floors.len() == t.flushed.len()
    &&& t.state.resume == (if t.state.total > 0 {
        records[t.state.total - 1].key
    } else {
        floor
    })
    &&& (t.advanced.len() > 0 ==> t.advanced.last() == t.state.resume)
    &&& (t.advanced.len() == 0 ==> t.state.total == 0)
    &&& forall|i: int| 0 <= i < t.flushed.len() ==> (#[trigger] t.flushed[i]).len() == k
    &&& forall|i: int|
        0 <= i < t.flushed.len() ==> (#[trigger] t.advanced[i]) == t.flushed[i].last().key
}

/// What holds of the order of a run's requests when the source gives
/// ascending keys.
pub open spec fn ordered<D>(t: Trace<D>, floor: OrderedKey) -> bool {
    &&& t.advanced.len() == t.flushed.len()
    &&& t.floors.len() == t.flushed.len()
    &&& ascending(t.advanced)
    &&& forall|i: int| 0 <= i < t.advanced.len() ==> floor.lt(#[trigger] t.advanced[i])
    &&& forall|i: int|
        0 <= i < t.flushed.len() ==> (#[trigger] t.flushed[i]).len() > 0 && t.advanced[i]
            == t.flushed[i].last().key
    &&& forall|i: int|
        0 <= i < t.floors.len() ==> #[trigger] t.floors[i] == (if i == 0 {
            floor
        } else {
            t.advanced[i - 1]
        })
    &&& forall|i: int, j: int|
        0 <= i < t.flushed.len() && 0 <= j < t.flushed[i].len() ==> t.floors[i].lt(
            #[trigger] t.flushed[i][j].key,
        )
}

/// While a run streams, what was accepted and what is pending are
/// together the records that the source gave.
pub proof fn lemma_streaming<D>(
    k: int,
    limit: Option<i64>,
    found: Option<OrderedKey>,
    records: Seq<Record<D>>,
)
    requires
        0 < k <= i32::MAX,
    ensures
        counted(deliver_all(begin(k, limit, found), records), k, resume_key_spec(found), records),
    decreases records.len(),
{
    let t0 = begin::<D>(k, limit, found);
    if records.len() == 0 {
        assert(t0.state.pending =~= records.skip(0));
    } else {
        let prev = records.drop_last();
        let r = records.last();
        lemma_streaming(k, limit, found, prev);
        let t = deliver_all(t0, prev);
        let t2 = react(t, Event::Item { record: r });
        assert(deliver_all(t0, records) == t2);
        let total = t.state.total;
        assert(t.state.pending.push(r) =~= records.skip(total));
        if t.state.pending.len() + 1 == k {
            assert(k * (t.flushed.len() + 1) == k * t.flushed.len() + k) by (nonlinear_arith);
            assert(t2.state.total == records.len());
            assert(t2.state.pending =~= records.skip(t2.state.total));
            assert forall|i: int| 0 <= i < t2.flushed.len() implies (#[trigger] t2.advanced[i])
                == t2.flushed[i].last().key by {
                if i < t.flushed.len() {
                    assert(t2.flushed[i] == t.flushed[i]);
                    assert(t2.advanced[i] == t.advanced[i]);
                }
            }
        } else {
            assert(t2.state.pending =~= records.skip(total));
        }
    }
}

/// While a run streams over ascending keys after the resume key, the keys
/// it asks to store rise, and every record of a batch comes after the
/// resume key known when the batch was handed out.
pub proof fn lemma_streaming_ordered<D>(
    k: int,
    limit: Option<i64>,
    found: Option<OrderedKey>,
    records: Seq<Record<D>>,
)
    requires
        0 < k <= i32::MAX,
        ascending(keys_of(records)),
        all_after(keys_of(records), resume_key_spec(found)),
    ensures
        ordered(deliver_all(begin(k, limit, found), records), resume_key_spec(found)),
    decreases records.len(),
{
    let t0 = begin::<D>(k, limit, found);
    let floor = resume_key_spec(found);
    if records.len() > 0 {
        let prev = records.drop_last();
        let r = records.last();
        assert(keys_of(records).len() == records.len());
        assert forall|i: int, j: int| 0 <= i < j < keys_of(prev).len() implies (#[trigger] keys_of(
            prev,
        )[i]).lt(#[trigger] keys_of(prev)[j]) by {
            assert(keys_of(prev)[i] == keys_of(records)[i]);
            assert(keys_of(prev)[j] == keys_of(records)[j]);
        }
        assert forall|i: int| 0 <= i < keys_of(prev).len() implies floor.lt(
            #[trigger] keys_of(prev)[i],
        ) by {
            assert(keys_of(prev)[i] == keys_of(records)[i]);
        }
        lemma_streaming_ordered(k, limit, found, prev);
        lemma_streaming(k, limit, found, prev);
        lemma_streaming(k, limit, found, records);
        let t = deliver_all(t0, prev);
        let t2 = react(t, Event::Item { record: r });
        assert(deliver_all(t0, records) == t2);
        assert(t.state.pending.push(r) =~= records.skip(t.state.total));
        assert(t.state.total > 0 ==> prev[t.state.total - 1] == records[t.state.total - 1]);
        lemma_batch_ordered(t, t2, floor, records, t.state.pending.push(r));
    }
}

/// Handing out the records from `total` on as one batch keeps a run
/// ordered.
proof fn lemma_batch_ordered<D>(
    t: Trace<D>,
    t2: Trace<D>,
    floor: OrderedKey,
    records: Seq<Record<D>>,
    batch: Seq<Record<D>>,
)
    requires
        ordered(t, floor),
        ascending(keys_of(records)),
        all_after(keys_of(records), floor),
        0 <= t.state.total <= records.len(),
        t.state.resume == (if t.state.total > 0 {
            records[t.state.total - 1].key
        } else {
            floor
        }),
        t.advanced.len() > 0 ==> t.advanced.last() == t.state.resume,
        t.advanced.len() == 0 ==> t.state.total == 0,
        batch == records.skip(t.state.total),
        (t2.flushed == t.flushed && t2.floors == t.floors && t2.advanced == t.advanced) || (
        batch.len() > 0 && t2.flushed == t.flushed.push(batch) && t2.floors == t.floors.push(
            t.state.resume,
        ) && t2.advanced == t.advanced.push(batch.last().key)),
    ensures
        ordered(t2, floor),
{
    if t2.flushed != t.flushed {
        let n = t.flushed.len() as int;
        let total = t.state.total;
        assert forall|j: int| 0 <= j < batch.len() implies t.state.resume.lt(
            #[trigger] batch[j].key,
        ) by {
            assert(batch[j].key == keys_of(records)[total + j]);
            if total > 0 {
                assert(t.state.resume == keys_of(records)[total - 1]);
            }
        }
        assert(t.state.resume.lt(batch[batch.len() - 1].key));
        assert forall|i: int, j: int| 0 <= i < j < t2.advanced.len() implies (
        #[trigger] t2.advanced[i]).lt(#[trigger] t2.advanced[j]) by {
            if j == n {
                if i < n - 1 {
                    assert(t.advanced[i].lt(t.advanced[n - 1]));
                }
            }
        }
        assert forall|i: int| 0 <= i < t2.advanced.len() implies floor.lt(
            #[trigger] t2.advanced[i],
        ) by {
            if i == n {
                assert(batch.last().key == keys_of(records)[records.len() - 1]);
            }
        }
        assert forall|i: int|
            0 <= i < t2.flushed.len() implies (#[trigger] t2.flushed[i]).len() > 0
            && t2.advanced[i] == t2.flushed[i].last().key by {
            if i < n {
                assert(t2.flushed[i] == t.flushed[i]);
            }
        }
        assert forall|i: int| 0 <= i < t2.floors.len() implies #[trigger] t2.floors[i] == (if i
            == 0 {
            floor
        } else {
            t2.advanced[i - 1]
        }) by {
            if i < n {
                assert(t2.floors[i] == t.floors[i]);
            }
        }
        assert forall|i: int, j: int|
            0 <= i < t2.flushed.len() && 0 <= j < t2.flushed[i].len() implies t2.floors[i].lt(
            #[trigger] t2.flushed[i][j].key,
        ) by {
            if i < n {
                assert(t2.flushed[i] == t.flushed[i]);
                assert(t2.floors[i] == t.floors[i]);
            }
        }
    }
}

/// What holds of a run that is complete, whatever the keys are.
pub open spec fn completed<D>(t: Trace<D>, k: int, floor: OrderedKey, records: Seq<Record<D>>) -> bool {
    &&& t.state.phase == Phase::Completed
    &&& t.state.total == records.len()
    &&& t.state.pending.len() == 0
    &&& t.state.flushes == t.flushed.len()
    &&& t.advanced.len() == t.flushed.len()
    &&& t.floors.len() == t.flushed.len()
    &&& k * (t.flushed.len() - 1) < records.len() <= k * t.flushed.len()
    &&& (records.len() == 0 ==> t.state.resume == floor)
    &&& (records.len() > 0 ==> t.state.resume == records.last().key && t.advanced.last()
        == records.last().key)
    &&& forall|i: int| 0 <= i < t.flushed.len() - 1 ==> (#[trigger] t.flushed[i]).len() == k
    &&& (t.flushed.len() > 0 ==> 0 < t.flushed.last().len() <= k)
    &&& forall|i: int|
        0 <= i < t.flushed.len() ==> (#[trigger] t.advanced[i]) == t.flushed[i].last().key
}

/// A complete run has accepted every record that the source gave, in
/// batches of the batch size and one shorter batch for the rest, and has
/// asked to store the last record's key last.
pub proof fn law_complete_run<D>(
    k: int,
    limit: Option<i64>,
    found: Option<OrderedKey>,
    records: Seq<Record<D>>,
)
    requires
        0 < k <= i32::MAX,
    ensures
        completed(run_all(k, limit, found, records), k, resume_key_spec(found), records),
{
    lemma_streaming(k, limit, found, records);
    let t = deliver_all(begin::<D>(k, limit, found), records);
    let t2 = run_all(k, limit, found, records);
    let q = t.flushed.len() as int;
    assert(k * (q - 1) == k * q - k) by (nonlinear_arith);
    assert(k * (q + 1) == k * q + k) by (nonlinear_arith);
    if t.state.pending.len() > 0 {
        assert(t.state.pending.last() == records.last());
        assert forall|i: int| 0 <= i < t2.flushed.len() - 1 implies (#[trigger] t2.flushed[i]).len()
            == k by {
            assert(t2.flushed[i] == t.flushed[i]);
        }
        assert forall|i: int| 0 <= i < t2.flushed.len() implies (#[trigger] t2.advanced[i])
            == t2.flushed[i].last().key by {
            if i < t.flushed.len() {
                assert(t2.flushed[i] == t.flushed[i]);
                assert(t2.advanced[i] == t.advanced[i]);
            }
        }
    } else {
        assert(t2.flushed == t.flushed);
    }
}

/// Where `after` starts in its source: everything before that place is at
/// or below the resume key, and the record at that place is above it.
pub proof fn lemma_after_is_suffix<D>(source: Seq<Record<D>>, resume: OrderedKey) -> (j: int)
    ensures
        0 <= j <= source.len(),
        after(source, resume) == source.skip(j),
        forall|i: int| 0 <= i < j ==> !resume.lt(#[trigger] source[i].key),
        j < source.len() ==> resume.lt(source[j].key),
    decreases source.len(),
{
    if source.len() == 0 {
        assert(source.skip(0) =~= source);
        0
    } else if resume.lt(source.first().key) {
        assert(source.skip(0) =~= source);
        0
    } else {
        let rest = source.drop_first();
        let j = lemma_after_is_suffix(rest, resume);
        assert(rest.skip(j) =~= source.skip(j + 1));
        assert forall|i: int| 0 <= i < j + 1 implies !resume.lt(#[trigger] source[i].key) by {
            if i > 0 {
                assert(source[i] == rest[i - 1]);
            }
        }
        if j < rest.len() {
            assert(source[j + 1] == rest[j]);
        }
        j + 1
    }
}

/// In an ascending source, the records after the key of the record at
/// place `at - 1` are those from place `at` on.
pub proof fn lemma_after_record<D>(source: Seq<Record<D>>, at: int)
    requires
        ascending(keys_of(source)),
        0 < at <= source.len(),
    ensures
        after(source, source[at - 1].key) == source.skip(at),
{
    let resume = source[at - 1].key;
    let j = lemma_after_is_suffix(source, resume);
    assert(keys_of(source)[at - 1] == resume);
    if j < at {
        assert(resume.lt(source[j].key));
        assert(keys_of(source)[j] == source[j].key);
    } else if j > at {
        assert(!resume.lt(source[at].key));
        assert(keys_of(source)[at] == source[at].key);
    }
}

/// What an ascending source gives after a resume key is ascending too,
/// and every key of it comes strictly after the resume key.
pub proof fn law_source_in_order<D>(source: Seq<Record<D>>, resume: OrderedKey, limit: Option<i64>)
    requires
        ascending(keys_of(source)),
    ensures
        ascending(keys_of(delivered(source, resume, limit))),
        all_after(keys_of(delivered(source, resume, limit)), resume),
{
    let start = lemma_after_is_suffix(source, resume);
    let given = delivered(source, resume, limit);
    assert forall|i: int| 0 <= i < given.len() implies #[trigger] given[i] == source[start + i] by {}
    assert forall|i: int, j: int| 0 <= i < j < keys_of(given).len() implies (#[trigger] keys_of(
        given,
    )[i]).lt(#[trigger] keys_of(given)[j]) by {
        assert(keys_of(given)[i] == keys_of(source)[start + i]);
        assert(keys_of(given)[j] == keys_of(source)[start + j]);
    }
    assert forall|i: int| 0 <= i < keys_of(given).len() implies resume.lt(
        #[trigger] keys_of(given)[i],
    ) by {
        assert(keys_of(given)[i] == keys_of(source)[start + i]);
        assert(keys_of(source)[start] == source[start].key);
    }
}

/// A run over no records accepts nothing, hands out no batch and asks to
/// store no resume key, whatever the batch size and the stored key.
pub proof fn law_empty_source<D>(batch_size: int, limit: Option<i64>, found: Option<OrderedKey>)
    ensures
        run_all(batch_size, limit, found, Seq::<Record<D>>::empty()).state.phase
            == Phase::Completed,
        run_all(batch_size, limit, found, Seq::<Record<D>>::empty()).state.total == 0,
        run_all(batch_size, limit, found, Seq::<Record<D>>::empty()).state.flushes == 0,
        run_all(batch_size, limit, found, Seq::<Record<D>>::empty()).flushed.len() == 0,
        run_all(batch_size, limit, found, Seq::<Record<D>>::empty()).advanced.len() == 0,
        stored_after(run_all(batch_size, limit, found, Seq::<Record<D>>::empty()), found) == found,
{
}

/// A second run over a source that has not changed accepts nothing and
/// leaves the stored resume key as the first run left it, provided the
/// limit did not cut the first run short.
pub proof fn law_idempotent_resume<D>(
    batch_size: int,
    limit: Option<i64>,
    found: Option<OrderedKey>,
    source: Seq<Record<D>>,
)
    requires
        0 < batch_size <= i32::MAX,
        ascending(keys_of(source)),
        delivered(source, resume_key_spec(found), limit) == after(source, resume_key_spec(found)),
    ensures
        ({
            let first = run_all(
                batch_size,
                limit,
                found,
                delivered(source, resume_key_spec(found), limit),
            );
            let stored = stored_after(first, found);
            let second = run_all(
                batch_size,
                limit,
                stored,
                delivered(source, resume_key_spec(stored), limit),
            );
            &&& second.state.total == 0
            &&& second.flushed.len() == 0
            &&& second.advanced.len() == 0
            &&& stored_after(second, stored) == stored
        }),
{
    let floor = resume_key_spec(found);
    let given = after(source, floor);
    let first = run_all(batch_size, limit, found, given);
    let stored = stored_after(first, found);
    law_complete_run(batch_size, limit, found, given);
    let j = lemma_after_is_suffix(source, floor);
    if given.len() > 0 {
        assert(given.last() == source.last());
        assert(stored == Some(source.last().key));
        lemma_after_record(source, source.len() as int);
        assert(after(source, resume_key_spec(stored)).len() == 0);
    } else {
        let q = first.flushed.len() as int;
        assert(q == 0) by (nonlinear_arith)
            requires
                0 < batch_size,
                batch_size * (q - 1) < 0,
                q >= 0,
        ;
        assert(stored == found);
    }
    let again = delivered(source, resume_key_spec(stored), limit);
    assert(again.len() == 0);
    assert(again =~= Seq::<Record<D>>::empty());
    law_empty_source::<D>(batch_size, limit, stored);
}

/// A run that stopped after `full` whole batches has stored the key of
/// the last record of those batches, and a run that starts again from
/// there accepts exactly the records that were left.
pub proof fn law_resumable<D>(
    batch_size: int,
    full: int,
    found: Option<OrderedKey>,
    source: Seq<Record<D>>,
)
    requires
        0 < batch_size <= i32::MAX,
        0 <= full,
        full * batch_size <= after(source, resume_key_spec(found)).len(),
        ascending(keys_of(source)),
    ensures
        ({
            let available = after(source, resume_key_spec(found));
            let done = full * batch_size;
            let first = deliver_all(begin(batch_size, None, found), available.take(done));
            let stored = stored_after(first, found);
            let second = run_all(
                batch_size,
                None,
                stored,
                delivered(source, resume_key_spec(stored), None),
            );
            &&& first.state.total == done
            &&& first.state.pending.len() == 0
            &&& first.state.flushes == full
            &&& delivered(source, resume_key_spec(stored), None) == available.skip(done)
            &&& second.state.phase == Phase::Completed
            &&& second.state.total == available.len() - done
        }),
{
    let available = after(source, resume_key_spec(found));
    let done = full * batch_size;
    assert(0 <= done) by (nonlinear_arith)
        requires
            0 <= full,
            0 < batch_size,
            done == full * batch_size,
    ;
    let head = available.take(done);
    let first = deliver_all(begin(batch_size, None, found), head);
    lemma_streaming(batch_size, None, found, head);
    let q = first.flushed.len() as int;
    let p = first.state.pending.len() as int;
    assert(p == 0 && q == full) by (nonlinear_arith)
        requires
            0 < batch_size,
            0 <= p < batch_size,
            batch_size * q + p == full * batch_size,
            0 <= q,
            0 <= full,
    ;
    let stored = stored_after(first, found);
    let start = lemma_after_is_suffix(source, resume_key_spec(found));
    if done == 0 {
        assert(stored == found);
        assert(available.skip(0) =~= available);
    } else {
        assert(head[done - 1] == source[start + done - 1]);
        assert(stored == Some(source[start + done - 1].key));
        lemma_after_record(source, start + done);
        assert(source.skip(start + done) =~= available.skip(done));
    }
    law_complete_run(batch_size, None, stored, available.skip(done));
}

/// In every run over ascending keys that come after the stored resume
/// key, the keys that the engine asks to store rise from each to the next,
/// each is the last key of its batch, and every record of a batch comes
/// strictly after the resume key that was known when the batch began.
pub proof fn law_ordering<D>(
    batch_size: int,
    limit: Option<i64>,
    found: Option<OrderedKey>,
    records: Seq<Record<D>>,
)
    requires
        0 < batch_size <= i32::MAX,
        ascending(keys_of(records)),
        all_after(keys_of(records), resume_key_spec(found)),
    ensures
        ordered(run_all(batch_size, limit, found, records), resume_key_spec(found)),
{
    let floor = resume_key_spec(found);
    lemma_streaming(batch_size, limit, found, records);
    lemma_streaming_ordered(batch_size, limit, found, records);
    let t = deliver_all(begin::<D>(batch_size, limit, found), records);
    let t2 = run_all(batch_size, limit, found, records);
    lemma_batch_ordered(t, t2, floor, records, t.state.pending);
}

/// What the engine is told of one element of the source: a record, or
/// `None` for an element that could not be read.
pub open spec fn element_event<D>(element: Option<Record<D>>) -> Event<D> {
    match element {
        Some(record) => Event::Item { record },
        None => Event::ReadFailed,
    }
}

/// The records among the elements of a source, in their order.
pub open spec fn readable<D>(elements: Seq<Option<Record<D>>>) -> Seq<Record<D>>
    decreases elements.len(),
{
    if elements.len() == 0 {
        Seq::empty()
    } else {
        match elements.last() {
            Some(record) => readable(elements.drop_last()).push(record),
            None => readable(elements.drop_last()),
        }
    }
}

/// The run after the source gave `elements`, one after the other.
pub open spec fn deliver_elements<D>(t: Trace<D>, elements: Seq<Option<Record<D>>>) -> Trace<D>
    decreases elements.len(),
{
    if elements.len() == 0 {
        t
    } else {
        react(deliver_elements(t, elements.drop_last()), element_event(elements.last()))
    }
}

/// An element that cannot be read leaves a run as it was, and the engine
/// asks for it to be reported.
pub proof fn law_skip<D>(t: Trace<D>)
    ensures
        react(t, Event::ReadFailed) == t,
        t.state.phase == Phase::Streaming ==> next_action(t.state, Event::<D>::ReadFailed)
            == ActionView::<D>::Skip,
{
}

/// Elements that cannot be read change nothing in a run: it goes as it
/// would over the records alone.
pub proof fn law_skip_and_continue<D>(t: Trace<D>, elements: Seq<Option<Record<D>>>)
    ensures
        deliver_elements(t, elements) == deliver_all(t, readable(elements)),
    decreases elements.len(),
{
    if elements.len() > 0 {
        let rest = elements.drop_last();
        law_skip_and_continue(t, rest);
        match elements.last() {
            Some(record) => {
                assert(readable(elements).drop_last() =~= readable(rest));
            },
            None => {
                law_skip(deliver_elements(t, rest));
            },
        }
    }
}

/// A run with a limit accepts the first `limit` records after the resume
/// key, or all of them where they are fewer, and the key it stores last
/// is that of the last record it accepted.
pub proof fn law_limit<D>(
    batch_size: int,
    limit: i64,
    found: Option<OrderedKey>,
    source: Seq<Record<D>>,
)
    requires
        0 < batch_size <= i32::MAX,
        0 <= limit,
    ensures
        ({
            let available = after(source, resume_key_spec(found));
            let given = delivered(source, resume_key_spec(found), Some(limit));
            let run = run_all(batch_size, Some(limit), found, given);
            let count = if limit < available.len() {
                limit as int
            } else {
                available.len() as int
            };
            &&& given == available.take(count)
            &&& run.state.total == count
            &&& count > 0 ==> stored_after(run, found) == Some(available[count - 1].key)
            &&& count == 0 ==> stored_after(run, found) == found
        }),
{
    let available = after(source, resume_key_spec(found));
    let given = delivered(source, resume_key_spec(found), Some(limit));
    assert(available.take(available.len() as int) =~= available);
    law_complete_run(batch_size, Some(limit), found, given);
    let run = run_all(batch_size, Some(limit), found, given);
    if given.len() == 0 {
        let q = run.flushed.len() as int;
        assert(q == 0) by (nonlinear_arith)
            requires
                0 < batch_size,
                batch_size * (q - 1) < 0,
                q >= 0,
        ;
    }
}

} // verus!
