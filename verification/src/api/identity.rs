//! Identity and reputation requests.
use vstd::prelude::*;

verus! {

/// A request to create an identity.
#[derive(Debug, Clone)]
pub struct CreateIdentityRequest {
    pub display_name: Option<String>,
}

/// An identity and the kinds of its keys.
#[derive(Debug, Clone)]
pub struct IdentityResponse {
    pub did: String,
    pub display_name: Option<String>,
    pub signing_key_type: String,
    pub exchange_key_type: String,
}

/// A reputation change issued for an identity.
#[derive(Debug, Clone)]
pub struct ReputationEventRequest {
    pub issuer_did: String,
    pub category: String,
    pub delta: i32,
    pub reason: String,
}

/// An identity's reputation: the total and the score of each category.
#[derive(Debug, Clone)]
pub struct ReputationResponse {
    pub did: String,
    pub total_score: i64,
    pub scores: Vec<(String, i64)>,
    pub event_count: usize,
}

} // verus!
