//! Progress per collection: the record that is stored, and the store as
//! contracts see it.

use vstd::prelude::*;
use crate::key::OrderedKey;
use crate::engine::resume_key_spec;

verus! {

/// The progress of one collection as it is stored: at most one such
/// record exists per collection name.
pub struct CheckpointRecord {
    pub collection_name: String,
    pub last_key: OrderedKey,
    /// When the record was written, in milliseconds since the epoch.
    pub updated_at: i64,
}

impl CheckpointRecord {
    /// The record to store for `collection_name` after a batch whose last
    /// key is `last_key`; without a key the record holds the minimum.
    pub fn new(collection_name: String, last_key: Option<OrderedKey>, updated_at: i64) -> (r: Self)
        ensures
            r.collection_name == collection_name,
            r.last_key == resume_key_spec(last_key),
            r.updated_at == updated_at,
    {
        let key = match last_key {
            Some(key) => key,
            None => OrderedKey::min(),
        };
        CheckpointRecord { collection_name, last_key: key, updated_at }
    }
}

/// What storing a resume key came to.
#[derive(Clone, Copy, Debug, PartialEq, Eq, Structural)]
pub enum AdvanceOutcome {
    /// The collection had no record yet: one was created.
    Created,
    /// The collection's record was replaced.
    Updated,
}

impl AdvanceOutcome {
    /// The outcome of an upsert, given whether it inserted a new record.
    pub fn of_upsert(inserted: bool) -> (outcome: AdvanceOutcome)
        ensures
            outcome == (if inserted {
                AdvanceOutcome::Created
            } else {
                AdvanceOutcome::Updated
            }),
    {
        if inserted {
            AdvanceOutcome::Created
        } else {
            AdvanceOutcome::Updated
        }
    }

    /// The outcome in words.
    pub fn message(&self) -> (text: &'static str)
        ensures
            text@ == (match *self {
                AdvanceOutcome::Created => "A new last_id was inserted"@,
                AdvanceOutcome::Updated => "The last_id was updated"@,
            }),
    {
        match self {
            AdvanceOutcome::Created => "A new last_id was inserted",
            AdvanceOutcome::Updated => "The last_id was updated",
        }
    }
}

/// The store as contracts see it: the stored key of each collection that
/// has one, by the collection's name.
pub type Stored = Map<Seq<char>, OrderedKey>;

/// The resume key of `collection`: its stored key, or the minimum where
/// it has none.
pub open spec fn get_resume_key(store: Stored, collection: Seq<char>) -> OrderedKey {
    if store.contains_key(collection) {
        store[collection]
    } else {
        OrderedKey::min_spec()
    }
}

/// The store after `key` was stored for `collection`: an upsert.
pub open spec fn advance(store: Stored, collection: Seq<char>, key: OrderedKey) -> Stored {
    store.insert(collection, key)
}

/// What the upsert reports: a record was created where the collection had
/// none.
pub open spec fn advance_outcome(store: Stored, collection: Seq<char>) -> AdvanceOutcome {
    if store.contains_key(collection) {
        AdvanceOutcome::Updated
    } else {
        AdvanceOutcome::Created
    }
}

/// A stored key is the one that is read next, other collections keep
/// theirs, and storing the same key again changes nothing.
pub proof fn law_advance(store: Stored, collection: Seq<char>, other: Seq<char>, key: OrderedKey)
    ensures
        get_resume_key(advance(store, collection, key), collection) == key,
        other != collection ==> get_resume_key(advance(store, collection, key), other)
            == get_resume_key(store, other),
        advance(advance(store, collection, key), collection, key) == advance(
            store,
            collection,
            key,
        ),
        advance_outcome(advance(store, collection, key), collection) == AdvanceOutcome::Updated,
{
    assert(advance(advance(store, collection, key), collection, key) =~= advance(
        store,
        collection,
        key,
    ));
}

/// The store after each of `keys` was stored for `collection`, in order.
pub open spec fn advance_all(store: Stored, collection: Seq<char>, keys: Seq<OrderedKey>) -> Stored
    decreases keys.len(),
{
    if keys.len() == 0 {
        store
    } else {
        advance(advance_all(store, collection, keys.drop_last()), collection, keys.last())
    }
}

/// After a run's keys were stored one by one, the collection's resume key
/// is the last of them; a run that stored none leaves it as it was.
pub proof fn law_last_key_wins(store: Stored, collection: Seq<char>, keys: Seq<OrderedKey>)
    ensures
        get_resume_key(advance_all(store, collection, keys), collection) == (if keys.len() > 0 {
            keys.last()
        } else {
            get_resume_key(store, collection)
        }),
{
}

} // verus!
