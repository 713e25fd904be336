//! Requests that name a file by the text of its identifier, with the
//! outcome a caller sees: the result, or a client error, an absent
//! resource, or a failure.

use vstd::prelude::*;
use crate::ident::{id_text_of, parse_id, parsed_id};
use crate::model::{FileResponse, FileView, ShareFileRequest, ShareRecord, ShareResponse, texts};
use crate::store::{Store, StoreError, StoreView, made_share};

verus! {

/// What a request that did not succeed reports.
#[derive(Debug, Clone, Copy, PartialEq, Eq, Structural)]
pub enum ApiError {
    /// The identifier in the request is malformed.
    BadRequest,
    /// The resource asked for does not exist.
    NotFound,
    /// The store could not carry out the request.
    Internal,
}

impl ApiError {
    /// The HTTP status of this outcome.
    pub fn status(&self) -> (r: u16)
        ensures
            r == match self {
                ApiError::BadRequest => 400u16,
                ApiError::NotFound => 404u16,
                ApiError::Internal => 500u16,
            },
    {
        match self {
            ApiError::BadRequest => 400,
            ApiError::NotFound => 404,
            ApiError::Internal => 500,
        }
    }

    /// How a store error is reported: an absent resource as such, anything
    /// else as a failure.
    pub fn from_store(e: StoreError) -> (r: ApiError)
        ensures
            r == if e == StoreError::NotFound {
                ApiError::NotFound
            } else {
                ApiError::Internal
            },
    {
        match e {
            StoreError::NotFound => ApiError::NotFound,
            _ => ApiError::Internal,
        }
    }
}

/// Whether a response shows the file `f`.
pub open spec fn shows(r: FileResponse, f: FileView) -> bool {
    &&& r.id@ == id_text_of(f.id)
    &&& r.name@ == f.name
    &&& r.size == f.size
    &&& r.file_type@ == f.file_type
    &&& r.tx_id@ == f.tx_id
    &&& r.uploaded_at == f.uploaded_at
    &&& r.owner@ == f.owner
    &&& r.is_public == f.is_public
    &&& texts(r.tags@) == f.tags
}

/// Whether a response shows the share `sh`.
pub open spec fn presents(r: ShareResponse, sh: ShareRecord) -> bool {
    &&& r.id@ == id_text_of(sh.id)
    &&& r.file_id@ == id_text_of(sh.file_id)
    &&& r.owner_id == sh.owner_id
    &&& r.recipient_id == sh.recipient_id
    &&& r.shared_at == sh.shared_at
    &&& r.access_level == sh.access_level
    &&& r.expires_at == sh.expires_at
    &&& r.is_active == sh.is_active
}

/// The file whose identifier is written in `file_id`.
pub fn file_by_path(store: &Store, file_id: &str) -> (r: Result<FileResponse, ApiError>)
    ensures
        match parsed_id(file_id@) {
            None => r == Err::<FileResponse, ApiError>(ApiError::BadRequest),
            Some(id) => match store@.lookup_file(id) {
                None => r == Err::<FileResponse, ApiError>(ApiError::NotFound),
                Some(f) => r is Ok && shows(r->Ok_0, f),
            },
        },
{
    let id = match parse_id(file_id) {
        Some(id) => id,
        None => {
            return Err(ApiError::BadRequest);
        },
    };
    match store.get_file_by_id(id) {
        Some(f) => Ok(FileResponse::from_record(f)),
        None => Err(ApiError::NotFound),
    }
}

/// Deletes the file whose identifier is written in `file_id`.
pub fn delete_by_path(store: &mut Store, file_id: &str) -> (r: Result<(), ApiError>)
    requires
        old(store)@.wf(),
    ensures
        final(store)@.wf(),
        match parsed_id(file_id@) {
            None => r == Err::<(), ApiError>(ApiError::BadRequest) && final(store)@ == old(store)@,
            Some(id) => final(store)@ == old(store)@.without_file(id) && if old(store)@.has_file(id) {
                r == Ok::<(), ApiError>(())
            } else {
                r == Err::<(), ApiError>(ApiError::NotFound)
            },
        },
{
    let id = match parse_id(file_id) {
        Some(id) => id,
        None => {
            return Err(ApiError::BadRequest);
        },
    };
    if store.delete_file(id) {
        Ok(())
    } else {
        Err(ApiError::NotFound)
    }
}

/// Shares the file whose identifier is written in `file_id`.
pub fn share_by_path(store: &mut Store, file_id: &str, request: ShareFileRequest) -> (r: Result<
    ShareResponse,
    ApiError,
>)
    requires
        old(store)@.wf(),
    ensures
        final(store)@.wf(),
        match parsed_id(file_id@) {
            None => r == Err::<ShareResponse, ApiError>(ApiError::BadRequest) && final(store)@ == old(
                store,
            )@,
            Some(id) => if !old(store)@.has_file(id) {
                r == Err::<ShareResponse, ApiError>(ApiError::NotFound) && final(store)@ == old(
                    store,
                )@
            } else {
                match r {
                    Ok(resp) => exists|sh: ShareRecord| made_share(
                        sh,
                        old(store)@.lookup_file(id)->Some_0,
                        request,
                        sh.id,
                        sh.shared_at,
                    ) && final(store)@ == old(store)@.with_share(sh) && presents(resp, sh),
                    Err(e) => e == ApiError::Internal && final(store)@ == old(store)@ && exists|
                        sid: u128,
                    | old(store)@.share_error(id, sid) == Some(StoreError::DuplicateId),
                }
            },
        },
{
    let id = match parse_id(file_id) {
        Some(id) => id,
        None => {
            return Err(ApiError::BadRequest);
        },
    };
    match store.share_file(id, request) {
        Ok(sh) => {
            let ghost g = sh;
            let resp = ShareResponse::from_record(sh);
            proof {
                assert(g.file_id == id) by {
                    lemma_lookup_id(old(store)@, id);
                }
                assert(presents(resp, g));
            }
            Ok(resp)
        },
        Err(e) => {
            proof {
                let sid = choose|sid: u128| old(store)@.share_error(id, sid) == Some(e);
                if old(store)@.has_file(id) {
                    assert(old(store)@.share_error(id, sid) == Some(StoreError::DuplicateId));
                }
            }
            Err(ApiError::from_store(e))
        },
    }
}

proof fn lemma_lookup_id(s: StoreView, id: u128)
    ensures
        s.lookup_file(id) matches Some(f) ==> f.id == id,
{
    crate::store::lemma_found_file(s.files, id);
}

} // verus!
