//! Records and the outcome of writing a batch of them.

use vstd::prelude::*;
use crate::key::OrderedKey;

verus! {

/// One document of the source collection: its identifying key, and the
/// document itself, which the library carries but never looks into.
pub struct Record<D> {
    pub key: OrderedKey,
    pub body: D,
}

/// What a flush of one batch came to.
#[derive(Clone, Copy, Debug, PartialEq, Eq, Structural)]
pub struct FlushResult {
    /// How many records the target confirmed as inserted.
    pub accepted_count: u64,
    /// The key of the last record of the batch.
    pub last_key_in_batch: OrderedKey,
}

/// The keys of a sequence of records, in the same order.
pub open spec fn keys_of<D>(records: Seq<Record<D>>) -> Seq<OrderedKey> {
    Seq::new(records.len(), |i: int| records[i].key)
}

/// Whether keys rise strictly from each element to the next.
pub open spec fn ascending(keys: Seq<OrderedKey>) -> bool {
    forall|i: int, j: int| 0 <= i < j < keys.len() ==> (#[trigger] keys[i]).lt(#[trigger] keys[j])
}

/// Whether every key comes strictly after `floor`.
pub open spec fn all_after(keys: Seq<OrderedKey>, floor: OrderedKey) -> bool {
    forall|i: int| 0 <= i < keys.len() ==> floor.lt(#[trigger] keys[i])
}

/// The outcome of writing `batch` when the target accepted `accepted` of
/// its records: the resume point is the batch's last key however many
/// were accepted.
pub fn flush_result<D>(batch: &Vec<Record<D>>, accepted: u64) -> (r: FlushResult)
    requires
        batch@.len() > 0,
    ensures
        r.accepted_count == accepted,
        r.last_key_in_batch == batch@.last().key,
{
    let last: usize = batch.len() - 1;
    FlushResult { accepted_count: accepted, last_key_in_batch: batch[last].key }
}

} // verus!
