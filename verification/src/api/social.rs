//! Social feed requests, and the paging and content rules shared by the
//! list and post endpoints.
use vstd::prelude::*;
use crate::conversation::str_byte_len;
use crate::error::ApiError;
use crate::text::byte_len;

verus! {

/// How many entries a list answers when asked for `limit`: 50 by default,
/// never more than 200.
pub open spec fn page_size(limit: Option<usize>) -> usize {
    let asked: usize = match limit {
        Some(l) => l,
        None => 50,
    };
    if asked < 200 {
        asked
    } else {
        200
    }
}

/// The number of entries to list for a requested limit.
pub fn page_limit(limit: Option<usize>) -> (r: usize)
    ensures
        r == page_size(limit),
        r <= 200,
{
    let asked = match limit {
        Some(l) => l,
        None => 50,
    };
    if asked < 200 {
        asked
    } else {
        200
    }
}

/// The longest text a post or message may carry, in UTF-8 bytes.
pub open spec fn max_content_bytes() -> nat {
    10_000
}

/// The refusal of a text to post, if any: empty, or over the byte limit.
pub open spec fn content_refusal(content: Seq<char>) -> Option<Seq<char>> {
    if content.len() == 0 {
        Some("content cannot be empty"@)
    } else if byte_len(content) > max_content_bytes() {
        Some("content exceeds maximum length"@)
    } else {
        None
    }
}

/// `r` answers the refusal `refusal`: a bad request with its message, or
/// success when there is none.
pub open spec fn refused_as(r: Result<(), ApiError>, refusal: Option<Seq<char>>) -> bool {
    match refusal {
        Some(m) => r matches Err(e) && e.status == 400 && e.message@ == m,
        None => r is Ok,
    }
}

/// Checks a text to post: it must be non-empty and at most 10 000 bytes.
pub fn check_content(content: &str) -> (r: Result<(), ApiError>)
    ensures
        refused_as(r, content_refusal(content@)),
{
    if content.is_empty() {
        return Err(ApiError::bad_request("content cannot be empty"));
    }
    if str_byte_len(content) > 10_000 {
        return Err(ApiError::bad_request("content exceeds maximum length"));
    }
    Ok(())
}

/// Checks that a required field is not empty.
pub fn require_field(value: &str, message: &str) -> (r: Result<(), ApiError>)
    ensures
        refused_as(r, if value@.len() == 0 { Some(message@) } else { None }),
{
    if value.is_empty() {
        Err(ApiError::bad_request(message))
    } else {
        Ok(())
    }
}

/// A query of the event feed.
#[derive(Debug, Clone)]
pub struct FeedQuery {
    pub limit: Option<usize>,
    pub author: Option<String>,
    pub kind: Option<u32>,
    pub tag: Option<String>,
}

impl FeedQuery {
    /// The number of events to answer.
    pub fn page_limit(&self) -> (r: usize)
        ensures
            r == page_size(self.limit),
    {
        page_limit(self.limit)
    }
}

/// A request to publish a post.
#[derive(Debug, Clone)]
pub struct CreatePostRequest {
    pub author_did: String,
    pub content: String,
    pub reply_to: Option<String>,
    pub hashtags: Option<Vec<String>>,
}

impl CreatePostRequest {
    /// The post's text must be non-empty and at most 10 000 bytes.
    pub fn validate(&self) -> (r: Result<(), ApiError>)
        ensures
            refused_as(r, content_refusal(self.content@)),
    {
        check_content(self.content.as_str())
    }
}

/// A request for one identity to follow another.
#[derive(Debug, Clone)]
pub struct FollowRequest {
    pub follower_did: String,
    pub target_did: String,
}

/// A query of an identity's timeline.
#[derive(Debug, Clone)]
pub struct TimelineQuery {
    pub did: String,
    pub limit: Option<usize>,
}

impl TimelineQuery {
    /// The number of events to answer.
    pub fn page_limit(&self) -> (r: usize)
        ensures
            r == page_size(self.limit),
    {
        page_limit(self.limit)
    }
}

} // verus!
