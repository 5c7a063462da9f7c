//! The calls into the arrowdb store, each with the contract the store's source shows.

use arrowdb::db::hnsw::HNSW;
use arrowdb::db::ArrowDB;
use arrowdb::store::fjall::FjallStore;
use crate::registry::valid_name;
use vstd::prelude::*;

verus! {

#[verifier::external_type_specification]
#[verifier::external_body]
pub struct ExArrowDB(ArrowDB);

/// A collection's HNSW index as the store hands it out. Clones share the
/// index, so inserts through one are seen by searches through another.
#[verifier::external_body]
pub struct HnswIndex {
    pub hnsw: HNSW<FjallStore>,
}

/// The index of the collection named `collection`.
pub struct IndexHandle {
    pub collection: String,
    pub index: HnswIndex,
}

#[verifier::external_type_specification]
#[verifier::external_body]
pub struct ExAnyhowError(anyhow::Error);

/// What an `ArrowDB` holds: each registered collection name with its dimension.
pub uninterp spec fn collections_of(db: ArrowDB) -> Map<Seq<char>, nat>;

/// Relies on `ArrowDB::get_collections`: it collects the keys of the store's
/// name-to-collection map, so each registered name comes back exactly once.
#[verifier::external_body]
pub(crate) fn db_names(db: &ArrowDB) -> (r: Vec<String>)
    ensures
        forall|i: int, j: int| 0 <= i < j < r@.len() ==> r@[i]@ != r@[j]@,
        forall|i: int| 0 <= i < r@.len() ==> collections_of(*db).contains_key(#[trigger] r@[i]@),
        forall|s: Seq<char>| collections_of(*db).contains_key(s) ==> exists|i: int| 0 <= i < r@.len() && #[trigger] r@[i]@ == s,
{
    db.get_collections()
}

/// Relies on `ArrowDB::create_collection`: it first persists the collection's
/// settings, returning the store's error before touching the name map if that
/// fails, and otherwise records `name` with `dimension` (replacing any earlier
/// entry under that name). It then opens the collection's partition `#name`,
/// which fjall asserts to be a valid partition name: hence `valid_name`. A
/// disk error while opening that partition is unwrapped there and panics; no
/// precondition can rule that out.
#[verifier::external_body]
pub(crate) fn db_create(db: &mut ArrowDB, name: &str, dimension: usize) -> (r: Result<(), anyhow::Error>)
    requires
        valid_name(name@),
    ensures
        r is Ok ==> collections_of(*final(db)) == collections_of(*old(db)).insert(name@, dimension as nat),
        r is Err ==> collections_of(*final(db)) == collections_of(*old(db)),
{
    db.create_collection(name, dimension)
}

/// Relies on `ArrowDB::get_hnsw`: it hands out the collection's index exactly
/// when `name` is registered with dimension `dim`, and fails otherwise; it
/// leaves the name map as it was. The index is opened on first use, in the
/// partition `#name`, which fjall asserts to be a valid partition name: hence
/// `valid_name`. A disk error while opening it is unwrapped there and panics;
/// no precondition can rule that out.
#[verifier::external_body]
pub(crate) fn db_index(db: &ArrowDB, name: &str, dim: usize) -> (r: Result<IndexHandle, anyhow::Error>)
    requires
        valid_name(name@),
    ensures
        r is Ok <==> (collections_of(*db).contains_key(name@) && collections_of(*db)[name@] == dim as nat),
        r matches Ok(h) ==> h.collection@ == name@,
{
    db.get_hnsw(name, dim).map(|hnsw| IndexHandle { collection: name.to_string(), index: HnswIndex { hnsw } })
}

/// Relies on `anyhow::Error`'s `Debug` rendering, used as the diagnostic text
/// of a failure reported by the store.
#[verifier::external_body]
pub(crate) fn error_text(e: &anyhow::Error) -> (r: String) {
    format!("{:?}", e)
}

} // verus!
