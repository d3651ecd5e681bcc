//! File storage requests.
use vstd::prelude::*;
use crate::error::{ApiError, concat_str};
use base64::Engine;

verus! {

/// A query of an owner's files.
#[derive(Debug, Clone)]
pub struct FileListQuery {
    pub owner: String,
}

/// A request to store a file, its content in base64.
#[derive(Debug, Clone)]
pub struct UploadRequest {
    pub name: String,
    pub mime_type: String,
    pub owner: String,
    pub data_base64: String,
}

/// The refusal of an upload, if any: it needs a name, then an owner.
pub open spec fn upload_refusal(name: Seq<char>, owner: Seq<char>) -> Option<Seq<char>> {
    if name.len() == 0 {
        Some("name cannot be empty"@)
    } else if owner.len() == 0 {
        Some("owner cannot be empty"@)
    } else {
        None
    }
}

impl UploadRequest {
    /// An upload needs a name and an owner.
    pub fn validate(&self) -> (r: Result<(), ApiError>)
        ensures
            crate::api::social::refused_as(r, upload_refusal(self.name@, self.owner@)),
    {
        if self.name.as_str().is_empty() {
            return Err(ApiError::bad_request("name cannot be empty"));
        }
        if self.owner.as_str().is_empty() {
            return Err(ApiError::bad_request("owner cannot be empty"));
        }
        Ok(())
    }
}

/// The bytes that `text` decodes to as standard base64 (with padding), or
/// the decoder's message when it is not such text.
pub uninterp spec fn base64_decoded(text: Seq<char>) -> Result<Seq<u8>, Seq<char>>;

/// Wrapper of `base64::engine::general_purpose::STANDARD.decode`.  The
/// contract names the outcome as a function of the text; the `base64` crate
/// decides what it is.
#[verifier::external_body]
fn decode_base64(text: &str) -> (r: Result<Vec<u8>, String>)
    ensures
        base64_decoded(text@) == match r {
            Ok(b) => Ok(b@),
            Err(m) => Err(m@),
        },
{
    base64::engine::general_purpose::STANDARD.decode(text).map_err(|e| e.to_string())
}

/// The file content of an upload, from the decoder's outcome: the bytes, or
/// a bad request naming the decoder's complaint.
pub fn upload_content(decoded: Result<Vec<u8>, String>) -> (r: Result<Vec<u8>, ApiError>)
    ensures
        match decoded {
            Ok(b) => r matches Ok(c) && c@ == b@,
            Err(m) => r matches Err(e) && e.status == 400 && e.message@ == "invalid base64: "@ + m@,
        },
{
    match decoded {
        Ok(b) => Ok(b),
        Err(m) => Err(ApiError::bad_request(concat_str("invalid base64: ", m.as_str()).as_str())),
    }
}

impl UploadRequest {
    /// The content to store: the request must name the file and its owner,
    /// and carry base64 text.
    pub fn content(&self) -> (r: Result<Vec<u8>, ApiError>)
        ensures
            match upload_refusal(self.name@, self.owner@) {
                Some(m) => r matches Err(e) && e.status == 400 && e.message@ == m,
                None => match base64_decoded(self.data_base64@) {
                    Ok(b) => r matches Ok(c) && c@ == b,
                    Err(m) => r matches Err(e) && e.status == 400 && e.message@ == "invalid base64: "@ + m,
                },
            },
    {
        match self.validate() {
            Err(e) => Err(e),
            Ok(()) => upload_content(decode_base64(self.data_base64.as_str())),
        }
    }
}

/// A query of a file's latest version.
#[derive(Debug, Clone)]
pub struct LatestQuery {
    pub name: String,
    pub owner: String,
}

/// A query of a file's versions.
#[derive(Debug, Clone)]
pub struct HistoryQuery {
    pub name: String,
    pub owner: String,
}

/// A request to delete a file.
#[derive(Debug, Clone)]
pub struct DeleteQuery {
    pub name: String,
    pub owner: String,
}

/// The outcome of a deletion.
#[derive(Debug, Clone)]
pub struct DeleteResponse {
    pub deleted: bool,
    pub name: String,
    pub freed_bytes: u64,
}

} // verus!
