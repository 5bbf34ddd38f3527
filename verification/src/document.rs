//! Records and resume keys read from stored documents.

use vstd::prelude::*;
use mongodb::bson::oid::ObjectId;
use mongodb::bson::Document;
use crate::key::{be_value, OrderedKey};
use crate::record::Record;

verus! {

/// A document of the store. The library carries documents and asks them
/// for identifiers; it sees nothing else of them.
#[verifier::external_type_specification]
#[verifier::external_body]
pub struct ExDocument(mongodb::bson::Document);

/// An object identifier of the store: twelve bytes.
#[verifier::external_type_specification]
#[verifier::external_body]
pub struct ExObjectId(mongodb::bson::oid::ObjectId);

/// The twelve bytes of an object identifier.
pub uninterp spec fn id_bytes(id: ObjectId) -> Seq<u8>;

/// The fields of a document that hold an object identifier, each with the
/// identifier's twelve bytes.
pub uninterp spec fn object_ids(doc: Document) -> Map<Seq<char>, Seq<u8>>;

/// Calls `ObjectId::from_bytes`, which wraps the bytes it is given: the
/// identifier's bytes are those bytes.
#[verifier::external_body]
fn id_from_bytes(bytes: [u8; 12]) -> (id: ObjectId)
    ensures
        id_bytes(id) == bytes@,
{
    ObjectId::from_bytes(bytes)
}

/// Calls `ObjectId::bytes`, which gives the identifier's raw bytes.
#[verifier::external_body]
fn id_to_bytes(id: &ObjectId) -> (bytes: [u8; 12])
    ensures
        bytes@ == id_bytes(*id),
{
    id.bytes()
}

/// Calls `Document::get_object_id`, which gives the identifier under
/// `field` where the document has that field and it holds an object
/// identifier, and an error otherwise (the field is absent, or holds a
/// value of another type). The contract says that in the words of
/// `object_ids`, and no more.
#[verifier::external_body]
fn get_object_id(doc: &Document, field: &str) -> (r: Option<ObjectId>)
    ensures
        (r is Some) == object_ids(*doc).contains_key(field@),
        r is Some ==> id_bytes(r->0) == object_ids(*doc)[field@],
{
    doc.get_object_id(field).ok()
}

/// The key that an identifier stands for.
pub fn key_of(id: &ObjectId) -> (key: OrderedKey)
    ensures
        key.rank() == be_value(id_bytes(*id)),
{
    OrderedKey::from_bytes(id_to_bytes(id))
}

/// The identifier that a key stands for.
pub fn object_id_of(key: &OrderedKey) -> (id: ObjectId)
    ensures
        id_bytes(id).len() == 12,
        be_value(id_bytes(id)) == key.rank(),
{
    id_from_bytes(key.to_bytes())
}

/// The bytes of the identifier under `field`, where `doc` has one there.
fn object_id_bytes(doc: &Document, field: &str) -> (r: Option<[u8; 12]>)
    ensures
        (r is Some) == object_ids(*doc).contains_key(field@),
        r is Some ==> r->0@ == object_ids(*doc)[field@],
{
    match get_object_id(doc, field) {
        Some(id) => Some(id_to_bytes(&id)),
        None => None,
    }
}

/// Why an element of the source is no record.
#[derive(Clone, Copy, Debug, PartialEq, Eq, Structural)]
pub enum ReadError {
    /// The document has no object identifier under `_id`.
    MissingKey,
}

/// Why the stored progress of a collection cannot be used.
#[derive(Clone, Copy, Debug, PartialEq, Eq, Structural)]
pub enum CheckpointError {
    /// The stored document has no object identifier under `last_id`.
    MissingKey,
}

/// The record that `body` is, given the bytes of its identifier: an error
/// where it has none.
pub fn record_with_key<D>(id: Option<[u8; 12]>, body: D) -> (r: Result<Record<D>, ReadError>)
    ensures
        match id {
            Some(bytes) => r is Ok && r->Ok_0.key.rank() == be_value(bytes@) && r->Ok_0.body
                == body,
            None => r is Err && r->Err_0 == ReadError::MissingKey,
        },
{
    match id {
        Some(bytes) => Ok(Record { key: OrderedKey::from_bytes(bytes), body }),
        None => Err(ReadError::MissingKey),
    }
}

/// The resume key for what the store holds, given the bytes of the stored
/// identifier where a document is stored: the minimum where none is, an
/// error where the stored document has no identifier.
pub fn resume_key_with(found: Option<Option<[u8; 12]>>) -> (r: Result<OrderedKey, CheckpointError>)
    ensures
        match found {
            None => r == Ok::<OrderedKey, CheckpointError>(OrderedKey::min_spec()),
            Some(None) => r == Err::<OrderedKey, CheckpointError>(CheckpointError::MissingKey),
            Some(Some(bytes)) => r is Ok && r->Ok_0.rank() == be_value(bytes@),
        },
{
    match found {
        None => Ok(OrderedKey::min()),
        Some(None) => Err(CheckpointError::MissingKey),
        Some(Some(bytes)) => Ok(OrderedKey::from_bytes(bytes)),
    }
}

/// Reads a source document as a record, keyed by the object identifier
/// under `_id`. A document without one is no record.
pub fn record_from_document(doc: Document) -> (r: Result<Record<Document>, ReadError>)
    ensures
        match r {
            Ok(record) => object_ids(doc).contains_key("_id"@) && record.key.rank() == be_value(
                object_ids(doc)["_id"@],
            ) && record.body == doc,
            Err(e) => !object_ids(doc).contains_key("_id"@) && e == ReadError::MissingKey,
        },
{
    let id = object_id_bytes(&doc, "_id");
    record_with_key(id, doc)
}

/// The resume key that a stored progress document holds under `last_id`;
/// the minimum where no document is stored for the collection.
pub fn stored_resume_key(found: Option<&Document>) -> (r: Result<OrderedKey, CheckpointError>)
    ensures
        match found {
            None => r == Ok::<OrderedKey, CheckpointError>(OrderedKey::min_spec()),
            Some(doc) => if object_ids(*doc).contains_key("last_id"@) {
                r is Ok && r->Ok_0.rank() == be_value(object_ids(*doc)["last_id"@])
            } else {
                r == Err::<OrderedKey, CheckpointError>(CheckpointError::MissingKey)
            },
        },
{
    match found {
        None => resume_key_with(None),
        Some(doc) => resume_key_with(Some(object_id_bytes(doc, "last_id"))),
    }
}

} // verus!
