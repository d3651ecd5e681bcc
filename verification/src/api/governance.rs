//! DAO, voting, delegation and execution requests.
use vstd::prelude::*;
use crate::api::social::{refused_as, require_field};
use crate::error::ApiError;
use crate::search::{lowercase, lowercase_text};
use crate::text::str_eq;

verus! {

/// A request to found a DAO.
#[derive(Debug, Clone)]
pub struct CreateDaoRequest {
    pub founder_did: String,
    pub name: String,
    pub description: String,
}

/// The refusal of a DAO to found, if any: it needs a name, then a founder.
pub open spec fn dao_refusal(name: Seq<char>, founder: Seq<char>) -> Option<Seq<char>> {
    if name.len() == 0 {
        Some("name cannot be empty"@)
    } else if founder.len() == 0 {
        Some("founder_did cannot be empty"@)
    } else {
        None
    }
}

impl CreateDaoRequest {
    /// A DAO needs a name and a founder.
    pub fn validate(&self) -> (r: Result<(), ApiError>)
        ensures
            refused_as(r, dao_refusal(self.name@, self.founder_did@)),
    {
        if self.name.as_str().is_empty() {
            return Err(ApiError::bad_request("name cannot be empty"));
        }
        if self.founder_did.as_str().is_empty() {
            return Err(ApiError::bad_request("founder_did cannot be empty"));
        }
        Ok(())
    }
}

/// A DAO.
#[derive(Debug, Clone)]
pub struct DaoResponse {
    pub id: String,
    pub name: String,
    pub description: String,
    pub founder_did: String,
    pub member_count: usize,
    pub created_at: String,
}

/// A list of DAOs.
#[derive(Debug, Clone)]
pub struct DaoListResponse {
    pub daos: Vec<DaoResponse>,
    pub count: usize,
}

/// A request to add a member to a DAO.
#[derive(Debug, Clone)]
pub struct AddMemberRequest {
    pub did: String,
}

impl AddMemberRequest {
    /// The member's DID is required.
    pub fn validate(&self) -> (r: Result<(), ApiError>)
        ensures
            refused_as(r, if self.did@.len() == 0 { Some("did cannot be empty"@) } else { None }),
    {
        require_field(self.did.as_str(), "did cannot be empty")
    }
}

/// A member of a DAO.
#[derive(Debug, Clone)]
pub struct MemberResponse {
    pub did: String,
    pub credits: u64,
    pub role: String,
    pub joined_at: String,
}

/// A query of proposals.
#[derive(Debug, Clone)]
pub struct ProposalQuery {
    pub dao_id: Option<String>,
    pub status: Option<String>,
}

/// The tally of a proposal.
#[derive(Debug, Clone)]
pub struct VoteResultResponse {
    pub proposal_id: String,
    pub votes_for: u64,
    pub votes_against: u64,
    pub votes_abstain: u64,
    pub total_voters: usize,
    pub passed: bool,
}

/// The tally of a private vote.
#[derive(Debug, Clone)]
pub struct PrivateTallyResponse {
    pub proposal_id: String,
    pub total_votes: usize,
    pub votes_for: usize,
    pub votes_against: usize,
    pub votes_abstain: usize,
    pub all_proofs_valid: bool,
}

/// The outcome of a change.
#[derive(Debug, Clone)]
pub struct MutationResponse {
    pub success: bool,
    pub message: String,
}

/// The refusal of a proposal to submit, if any: it needs a title, then a
/// proposer.
pub open spec fn proposal_refusal(title: Seq<char>, proposer: Seq<char>) -> Option<Seq<char>> {
    if title.len() == 0 {
        Some("title cannot be empty"@)
    } else if proposer.len() == 0 {
        Some("proposer_did cannot be empty"@)
    } else {
        None
    }
}

/// A proposal needs a title and a proposer.
pub fn check_proposal(title: &str, proposer_did: &str) -> (r: Result<(), ApiError>)
    ensures
        refused_as(r, proposal_refusal(title@, proposer_did@)),
{
    if title.is_empty() {
        return Err(ApiError::bad_request("title cannot be empty"));
    }
    if proposer_did.is_empty() {
        return Err(ApiError::bad_request("proposer_did cannot be empty"));
    }
    Ok(())
}

/// Whether a proposal may be created, in the order the checks are made:
/// the title and proposer (400); then the DAO, which must exist (404,
/// "DAO <id> not found"); then the proposer, who must be a member (401);
/// then the proposer's stored identity, which signs the proposal (404).
pub fn admit_proposal(
    title: &str,
    proposer_did: &str,
    dao_id: &str,
    dao_known: bool,
    proposer_is_member: bool,
    identity_known: bool,
) -> (r: Result<(), ApiError>)
    ensures
        match proposal_refusal(title@, proposer_did@) {
            Some(m) => r matches Err(e) && e.status == 400 && e.message@ == m,
            None => if !dao_known {
                r matches Err(e) && e.status == 404 && e.message@ == "DAO "@ + dao_id@ + " not found"@
            } else if !proposer_is_member {
                r matches Err(e) && e.status == 401 && e.message@ == "proposer is not a DAO member"@
            } else if !identity_known {
                r matches Err(e) && e.status == 404 && e.message@ == "identity not found — create one first"@
            } else {
                r is Ok
            },
        },
{
    if let Err(e) = check_proposal(title, proposer_did) {
        return Err(e);
    }
    if !dao_known {
        let m = crate::error::concat_str("DAO ", dao_id);
        let m = crate::error::concat_str(m.as_str(), " not found");
        return Err(ApiError::not_found(m.as_str()));
    }
    if !proposer_is_member {
        return Err(ApiError::unauthorized("proposer is not a DAO member"));
    }
    if !identity_known {
        return Err(ApiError::not_found("identity not found — create one first"));
    }
    Ok(())
}

/// A vote's choice.
#[derive(Debug, Clone, Copy, PartialEq, Eq, Structural)]
pub enum Choice {
    For,
    Against,
    Abstain,
}

/// The choice a vote's text names once lower-cased.
pub open spec fn choice_named(text: Seq<char>) -> Option<Choice> {
    let t = lowercase_text(text);
    if t == "for"@ {
        Some(Choice::For)
    } else if t == "against"@ {
        Some(Choice::Against)
    } else if t == "abstain"@ {
        Some(Choice::Abstain)
    } else {
        None
    }
}

/// A simple (signed on the voter's behalf) vote.
#[derive(Debug, Clone)]
pub struct SimpleVoteRequest {
    pub voter_did: String,
    pub choice: String,
    pub credits: u64,
}

impl SimpleVoteRequest {
    /// The vote's choice: it needs a voter, then a choice that lower-cases
    /// to `for`, `against` or `abstain`.
    pub fn parse_choice(&self) -> (r: Result<Choice, ApiError>)
        ensures
            self.voter_did@.len() == 0 ==> (r matches Err(e) && e.status == 400
                && e.message@ == "voter_did cannot be empty"@),
            self.voter_did@.len() > 0 ==> match choice_named(self.choice@) {
                Some(c) => r == Ok::<Choice, ApiError>(c),
                None => r matches Err(e) && e.status == 400
                    && e.message@ == "choice must be for, against, or abstain"@,
            },
    {
        if self.voter_did.as_str().is_empty() {
            return Err(ApiError::bad_request("voter_did cannot be empty"));
        }
        let lower = lowercase(self.choice.as_str());
        let c = lower.as_str();
        if str_eq(c, "for") {
            Ok(Choice::For)
        } else if str_eq(c, "against") {
            Ok(Choice::Against)
        } else if str_eq(c, "abstain") {
            Ok(Choice::Abstain)
        } else {
            Err(ApiError::bad_request("choice must be for, against, or abstain"))
        }
    }
}

/// A request to delegate voting power.
#[derive(Debug, Clone)]
pub struct CreateDelegationRequest {
    pub from_did: String,
    pub to_did: String,
    pub scope_type: String,
    pub scope_id: String,
    pub expires_in_hours: Option<i64>,
}

/// What a delegation covers.
#[derive(Debug, Clone)]
pub enum DelegationScope {
    Dao(String),
    Proposal(String),
}

/// The refusal of a delegation, if any: both parties are required, and the
/// scope is a DAO or a proposal.
pub open spec fn delegation_refusal(from: Seq<char>, to: Seq<char>, scope_type: Seq<char>) -> Option<Seq<char>> {
    if from.len() == 0 || to.len() == 0 {
        Some("from_did and to_did are required"@)
    } else if scope_type != "dao"@ && scope_type != "proposal"@ {
        Some("scope_type must be 'dao' or 'proposal'"@)
    } else {
        None
    }
}

/// The scope named by a type and an id.
pub fn parse_scope(scope_type: &str, scope_id: &str) -> (r: Result<DelegationScope, ApiError>)
    ensures
        scope_type@ == "dao"@ ==> (r matches Ok(DelegationScope::Dao(id)) && id@ == scope_id@),
        scope_type@ == "proposal"@ ==> (r matches Ok(DelegationScope::Proposal(id)) && id@ == scope_id@),
        scope_type@ != "dao"@ && scope_type@ != "proposal"@ ==> (r matches Err(e) && e.status == 400
            && e.message@ == "scope_type must be 'dao' or 'proposal'"@),
{
    proof {
        reveal_strlit("dao");
        reveal_strlit("proposal");
        assert("dao"@.len() != "proposal"@.len());
    }
    if str_eq(scope_type, "dao") {
        Ok(DelegationScope::Dao(scope_id.to_owned()))
    } else if str_eq(scope_type, "proposal") {
        Ok(DelegationScope::Proposal(scope_id.to_owned()))
    } else {
        Err(ApiError::bad_request("scope_type must be 'dao' or 'proposal'"))
    }
}

impl CreateDelegationRequest {
    /// The delegation's scope: both parties are required and the scope type
    /// must be `dao` or `proposal`.
    pub fn scope(&self) -> (r: Result<DelegationScope, ApiError>)
        ensures
            match delegation_refusal(self.from_did@, self.to_did@, self.scope_type@) {
                Some(m) => r matches Err(e) && e.status == 400 && e.message@ == m,
                None => r matches Ok(s) && match s {
                    DelegationScope::Dao(id) => self.scope_type@ == "dao"@ && id@ == self.scope_id@,
                    DelegationScope::Proposal(id) => self.scope_type@ == "proposal"@ && id@
                        == self.scope_id@,
                },
            },
    {
        if self.from_did.as_str().is_empty() || self.to_did.as_str().is_empty() {
            return Err(ApiError::bad_request("from_did and to_did are required"));
        }
        parse_scope(self.scope_type.as_str(), self.scope_id.as_str())
    }
}

/// A delegation.
#[derive(Debug, Clone)]
pub struct DelegationResponse {
    pub id: String,
    pub from_did: String,
    pub to_did: String,
    pub scope_type: String,
    pub scope_id: String,
    pub created_at: String,
    pub expires_at: Option<String>,
    pub revoked: bool,
    pub active: bool,
}

/// A list of delegations.
#[derive(Debug, Clone)]
pub struct DelegationListResponse {
    pub delegations: Vec<DelegationResponse>,
    pub count: usize,
}

/// Voting power in a scope.
#[derive(Debug, Clone)]
pub struct EffectivePowerResponse {
    pub scope_type: String,
    pub scope_id: String,
    pub power: Vec<PowerEntry>,
}

/// One identity's voting power.
#[derive(Debug, Clone)]
pub struct PowerEntry {
    pub did: String,
    pub base_credits: u64,
    pub effective_credits: u64,
}

/// Whom an identity's power flows to.
#[derive(Debug, Clone)]
pub struct DelegationChainResponse {
    pub chain: Vec<String>,
    pub final_delegate: Option<String>,
}

/// A query of delegations.
#[derive(Debug, Clone)]
pub struct DelegationQuery {
    pub scope_type: Option<String>,
    pub scope_id: Option<String>,
    pub from_did: Option<String>,
    pub to_did: Option<String>,
}

/// Which delegations a query lists.
#[derive(Debug, Clone)]
pub enum DelegationFilter {
    /// The active delegations of a scope.
    Scope(DelegationScope),
    /// Those made by an identity.
    From(String),
    /// Those made to an identity.
    To(String),
    /// None at all (no criterion, or a scope that names no valid kind).
    Nothing,
}

impl DelegationQuery {
    /// The criterion of the query: a scope when both its parts are given
    /// (nothing when its kind is invalid), else the delegator, else the
    /// delegate, else nothing.
    pub fn filter(&self) -> (r: DelegationFilter)
        ensures
            match (self.scope_type, self.scope_id) {
                (Some(st), Some(si)) => if st@ == "dao"@ {
                    r matches DelegationFilter::Scope(DelegationScope::Dao(id)) && id@ == si@
                } else if st@ == "proposal"@ {
                    r matches DelegationFilter::Scope(DelegationScope::Proposal(id)) && id@ == si@
                } else {
                    r is Nothing
                },
                _ => match self.from_did {
                    Some(f) => r matches DelegationFilter::From(x) && x@ == f@,
                    None => match self.to_did {
                        Some(t) => r matches DelegationFilter::To(x) && x@ == t@,
                        None => r is Nothing,
                    },
                },
            },
    {
        proof {
            reveal_strlit("dao");
            reveal_strlit("proposal");
            assert("dao"@.len() != "proposal"@.len());
        }
        if let (Some(st), Some(si)) = (&self.scope_type, &self.scope_id) {
            match parse_scope(st.as_str(), si.as_str()) {
                Ok(scope) => DelegationFilter::Scope(scope),
                Err(_) => DelegationFilter::Nothing,
            }
        } else if let Some(from) = &self.from_did {
            DelegationFilter::From(from.clone())
        } else if let Some(to) = &self.to_did {
            DelegationFilter::To(to.clone())
        } else {
            DelegationFilter::Nothing
        }
    }
}

/// A request to revoke a delegation.
#[derive(Debug, Clone)]
pub struct RevokeDelegationRequest {
    pub requester_did: String,
}

/// A query of voting power in a scope.
#[derive(Debug, Clone)]
pub struct PowerQuery {
    pub scope_type: String,
    pub scope_id: String,
}

/// A query of an identity's delegation chain.
#[derive(Debug, Clone)]
pub struct ChainQuery {
    pub did: String,
    pub scope_type: String,
    pub scope_id: String,
}

/// A request to queue a passed proposal's actions.
#[derive(Debug, Clone)]
pub struct QueueExecutionRequest {
    pub proposal_id: String,
    pub actions: Vec<ActionRequest>,
}

impl QueueExecutionRequest {
    /// There must be something to execute.
    pub fn validate(&self) -> (r: Result<(), ApiError>)
        ensures
            refused_as(r, if self.actions@.len() == 0 { Some("at least one action is required"@) } else { None }),
    {
        if self.actions.len() == 0 {
            Err(ApiError::bad_request("at least one action is required"))
        } else {
            Ok(())
        }
    }
}

/// An action a proposal executes.
#[derive(Debug, Clone)]
pub enum ActionRequest {
    TreasuryTransfer { recipient_did: String, token: String, amount: u64 },
    ParameterChange { parameter: String, value: String },
    AddMember { did: String },
    RemoveMember { did: String },
    GrantCredits { did: String, amount: u64 },
}

/// A queued execution.
#[derive(Debug, Clone)]
pub struct ExecutionResponse {
    pub id: String,
    pub proposal_id: String,
    pub dao_id: String,
    pub status: String,
    pub queued_at: String,
    pub executable_at: String,
    pub expires_at: String,
    pub executed_at: Option<String>,
    pub executor_did: Option<String>,
    pub error: Option<String>,
}

/// A list of executions.
#[derive(Debug, Clone)]
pub struct ExecutionListResponse {
    pub executions: Vec<ExecutionResponse>,
    pub count: usize,
}

/// The outcome of one executed action.
#[derive(Debug, Clone)]
pub struct ActionResultResponse {
    pub success: bool,
    pub message: String,
}

/// The outcome of an execution.
#[derive(Debug, Clone)]
pub struct ExecuteResultResponse {
    pub execution_id: String,
    pub status: String,
    pub results: Vec<ActionResultResponse>,
}

/// A query of executions.
#[derive(Debug, Clone)]
pub struct ExecutionQuery {
    pub dao_id: Option<String>,
    pub status: Option<String>,
}

/// A request to execute a queued proposal.
#[derive(Debug, Clone)]
pub struct ExecuteRequest {
    pub executor_did: String,
}

} // verus!
