use vstd::prelude::*;
use crate::model::Uuid;
use crate::pagination::PaginationMeta;

verus! {

/// The body of a failed request.
#[derive(Clone, Debug)]
pub struct ErrorResponse {
    pub ok: bool,
    pub code: String,
    pub source: Option<String>,
}

/// The body of a page of a listing.
#[derive(Clone, Debug)]
pub struct PaginatedResponse<T> {
    pub ok: bool,
    pub data: Vec<T>,
    pub meta: PaginationMeta,
}

/// The body of a successful creation: the id of what was created.
#[derive(Clone, Copy, Debug, PartialEq, Eq, Structural)]
pub struct CreateResponse {
    pub ok: bool,
    pub id: Uuid,
}

/// The body of a successful lookup.
#[derive(Clone, Debug)]
pub struct FindOneResponse<T> {
    pub ok: bool,
    pub data: T,
}

/// The body of a successful update.
#[derive(Clone, Debug)]
pub struct UpdateResponse<T> {
    pub ok: bool,
    pub data: T,
}

impl ErrorResponse {
    /// A failure body with the given error code and the operation it came from.
    pub fn new(code: String, source: Option<String>) -> (r: ErrorResponse)
        ensures
            !r.ok,
            r.code@ == code@,
            r.source == source,
    {
        ErrorResponse { ok: false, code, source }
    }
}

} // verus!
