//! Request validation and response shaping for the insert and query
//! operations, and the status codes that the wire responses carry.

use crate::outside::{error_text, IndexHandle};
use crate::registry::{dimension_of, Registry, ServiceError};
use vstd::prelude::*;

verus! {

/// The status code of a failure; success is reported as zero.
pub open spec fn error_code(e: ServiceError) -> i64 {
    match e {
        ServiceError::IndexError(_) => -1i64,
        ServiceError::AlreadyExists => -2i64,
        ServiceError::InvalidDimension => -3i64,
        ServiceError::CollectionNotFound => -4i64,
        ServiceError::DimensionMismatch { .. } => -5i64,
        ServiceError::InvalidArgument => -6i64,
        ServiceError::InvalidName => -7i64,
    }
}

/// The diagnostic text of a failure.
pub open spec fn error_message(e: ServiceError) -> Seq<char> {
    match e {
        ServiceError::IndexError(m) => m@,
        ServiceError::AlreadyExists => "collection already exists"@,
        ServiceError::InvalidDimension => "dimension must be positive"@,
        ServiceError::CollectionNotFound => "collection not found"@,
        ServiceError::DimensionMismatch { .. } => "vector length does not match the collection dimension"@,
        ServiceError::InvalidArgument => "result count must be positive"@,
        ServiceError::InvalidName => "invalid collection name"@,
    }
}

impl ServiceError {
    /// The non-zero status code reported for this failure.
    pub fn code(&self) -> (r: i64)
        ensures
            r == error_code(*self),
            r != 0,
    {
        match self {
            ServiceError::IndexError(_) => -1,
            ServiceError::AlreadyExists => -2,
            ServiceError::InvalidDimension => -3,
            ServiceError::CollectionNotFound => -4,
            ServiceError::DimensionMismatch { .. } => -5,
            ServiceError::InvalidArgument => -6,
            ServiceError::InvalidName => -7,
        }
    }

    /// The human-readable diagnostic reported for this failure.
    pub fn message(&self) -> (r: String)
        ensures
            r@ == error_message(*self),
    {
        match self {
            ServiceError::IndexError(m) => m.as_str().to_owned(),
            ServiceError::AlreadyExists => "collection already exists".to_owned(),
            ServiceError::InvalidDimension => "dimension must be positive".to_owned(),
            ServiceError::CollectionNotFound => "collection not found".to_owned(),
            ServiceError::DimensionMismatch { .. } => "vector length does not match the collection dimension".to_owned(),
            ServiceError::InvalidArgument => "result count must be positive".to_owned(),
            ServiceError::InvalidName => "invalid collection name".to_owned(),
        }
    }
}

/// Turns what an index operation returned into the dispatch outcome: a value
/// passes through unchanged, a failure becomes an `IndexError` carrying the
/// index's diagnostic.
pub fn index_outcome<T>(r: Result<T, anyhow::Error>) -> (o: Result<T, ServiceError>)
    ensures
        r is Ok <==> o is Ok,
        r matches Ok(v) ==> o == Ok::<T, ServiceError>(v),
        o matches Err(e) ==> e is IndexError,
{
    match r {
        Ok(v) => Ok(v),
        Err(e) => Err(ServiceError::IndexError(error_text(&e))),
    }
}

impl Registry {
    /// Resolves an insert of a vector of length `len` into `collection`: the
    /// collection's index when the collection exists at that dimension.
    pub fn prepare_insert(&self, collection: &str, len: usize) -> (r: Result<IndexHandle, ServiceError>)
        requires
            self.wf(),
        ensures
            r is Ok <==> dimension_of(self@, collection@) == Some(len as nat),
            r matches Ok(h) ==> h.collection@ == collection@,
            !self@.contains_key(collection@) ==> (r matches Err(e) && e == ServiceError::CollectionNotFound),
            self@.contains_key(collection@) && self@[collection@] != len ==> (r matches Err(e) && e
                == (ServiceError::DimensionMismatch { expected: self@[collection@] as usize, actual: len })),
    {
        self.index_for(collection, len)
    }

    /// Resolves a query for the `k` nearest neighbours of a probe of length
    /// `len` in `collection`. A count of zero is rejected, after the
    /// collection and the dimension have been checked.
    pub fn prepare_query(&self, collection: &str, len: usize, k: usize) -> (r: Result<IndexHandle, ServiceError>)
        requires
            self.wf(),
        ensures
            r is Ok <==> (dimension_of(self@, collection@) == Some(len as nat) && k >= 1),
            r matches Ok(h) ==> h.collection@ == collection@,
            !self@.contains_key(collection@) ==> (r matches Err(e) && e == ServiceError::CollectionNotFound),
            self@.contains_key(collection@) && self@[collection@] != len ==> (r matches Err(e) && e
                == (ServiceError::DimensionMismatch { expected: self@[collection@] as usize, actual: len })),
            dimension_of(self@, collection@) == Some(len as nat) && k == 0 ==> (r matches Err(e) && e
                == ServiceError::InvalidArgument),
    {
        let index = self.index_for(collection, len)?;
        if k == 0 {
            return Err(ServiceError::InvalidArgument);
        }
        Ok(index)
    }
}

/// The response to a collection creation request.
#[derive(Debug, Clone, PartialEq, Eq)]
pub struct AddResponse {
    pub code: i64,
    pub msg: Option<String>,
}

/// The response to an insert request.
#[derive(Debug, Clone, PartialEq, Eq)]
pub struct InsertResponse {
    pub code: i64,
    pub id: Option<u64>,
    pub msg: Option<String>,
}

/// The response to a query request; `T` is one ranked result.
#[derive(Debug, Clone, PartialEq)]
pub struct QueryResponse<T> {
    pub code: i64,
    pub ids: Vec<T>,
    pub msg: Option<String>,
}

impl AddResponse {
    /// Code zero and no message on success; else the failure's code and message.
    pub fn from_outcome(o: Result<(), ServiceError>) -> (r: AddResponse)
        ensures
            o is Ok ==> r.code == 0 && r.msg is None,
            o matches Err(e) ==> r.code == error_code(e) && (r.msg matches Some(m) && m@ == error_message(e)),
    {
        match o {
            Ok(()) => AddResponse { code: 0, msg: None },
            Err(e) => AddResponse { code: e.code(), msg: Some(e.message()) },
        }
    }
}

impl InsertResponse {
    /// Code zero and the identifier on success; else the failure's code and
    /// message, and no identifier.
    pub fn from_outcome(o: Result<u64, ServiceError>) -> (r: InsertResponse)
        ensures
            o matches Ok(id) ==> r.code == 0 && r.id == Some(id) && r.msg is None,
            o matches Err(e) ==> r.code == error_code(e) && r.id is None && (r.msg matches Some(m) && m@
                == error_message(e)),
    {
        match o {
            Ok(id) => InsertResponse { code: 0, id: Some(id), msg: None },
            Err(e) => InsertResponse { code: e.code(), id: None, msg: Some(e.message()) },
        }
    }
}

impl<T> QueryResponse<T> {
    /// Code zero and the ranked results unchanged on success; else the
    /// failure's code and message, and no results.
    pub fn from_outcome(o: Result<Vec<T>, ServiceError>) -> (r: QueryResponse<T>)
        ensures
            o matches Ok(v) ==> r.code == 0 && r.ids@ == v@ && r.msg is None,
            o matches Err(e) ==> r.code == error_code(e) && r.ids@.len() == 0 && (r.msg matches Some(m)
                && m@ == error_message(e)),
    {
        match o {
            Ok(v) => QueryResponse { code: 0, ids: v, msg: None },
            Err(e) => QueryResponse { code: e.code(), ids: Vec::new(), msg: Some(e.message()) },
        }
    }
}

} // verus!
