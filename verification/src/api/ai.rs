//! Agent chat requests and the views of conversations they answer with.
use vstd::prelude::*;
use crate::conversation::{Conversation, Message, Role, is_uuid_v4_text};
use crate::error::ApiError;
use crate::text::trim;

verus! {

/// The answer to a chat message.
#[derive(Debug, Clone)]
pub struct ChatResponse {
    pub conversation_id: String,
    pub response: String,
    pub role: String,
    pub message_count: usize,
}

/// A conversation, its times in RFC 3339.
#[derive(Debug, Clone)]
pub struct ConversationResponse {
    pub id: String,
    pub agent_id: String,
    pub message_count: usize,
    pub created_at: String,
    pub updated_at: String,
}

/// A message of a conversation, its time in RFC 3339.
#[derive(Debug, Clone)]
pub struct MessageResponse {
    pub id: String,
    pub role: String,
    pub content: String,
    pub timestamp: String,
}

/// A query of conversations, optionally of one agent.
#[derive(Debug, Clone)]
pub struct ListConversationsQuery {
    pub agent_id: Option<String>,
    pub limit: Option<usize>,
}

impl ListConversationsQuery {
    /// The number of conversations to answer: 50 unless given.
    pub fn limit_or_default(&self) -> (r: usize)
        ensures
            r == match self.limit { Some(l) => l, None => 50usize },
    {
        match self.limit {
            Some(l) => l,
            None => 50,
        }
    }
}

/// The RFC 3339 text (UTC) of the instant `micros` microseconds after the
/// Unix epoch, as `chrono` renders it; none when `chrono` cannot represent
/// that instant.  It names two chained `chrono` calls:
/// `DateTime::from_timestamp_micros`, then `DateTime::to_rfc3339`.
pub uninterp spec fn rfc3339_of_micros(micros: i64) -> Option<Seq<char>>;

/// Wrapper of `chrono::DateTime::from_timestamp_micros` followed by
/// `DateTime::to_rfc3339`.  The contract names the text as a function of the
/// instant; `chrono` decides what it is.
#[verifier::external_body]
fn timestamp_text(micros: i64) -> (r: Option<String>)
    ensures
        rfc3339_of_micros(micros) == match r {
            Some(s) => Some(s@),
            None => None,
        },
{
    chrono::DateTime::from_timestamp_micros(micros).map(|d| d.to_rfc3339())
}

/// The current time in RFC 3339, as `chrono` renders the clock's reading.
pub fn now_rfc3339() -> (r: String)
    ensures
        exists|micros: i64| micros >= 0 && rfc3339_of_micros(micros) == Some(r@),
{
    let micros = crate::conversation::now_micros();
    match timestamp_text(micros) {
        Some(t) => t,
        None => {
            proof {
                assert(rfc3339_of_micros(micros) is Some);
            }
            String::new()
        },
    }
}

/// The name a conversation's role is shown under.
pub open spec fn role_label(role: Role) -> Seq<char> {
    match role {
        Role::System => "system"@,
        Role::User => "user"@,
        Role::Assistant => "assistant"@,
        Role::ToolCall => "tool_call"@,
        Role::Tool => "tool"@,
    }
}

/// The name `role` is shown under.
pub fn role_label_string(role: Role) -> (r: String)
    ensures
        r@ == role_label(role),
{
    match role {
        Role::System => "system".to_owned(),
        Role::User => "user".to_owned(),
        Role::Assistant => "assistant".to_owned(),
        Role::ToolCall => "tool_call".to_owned(),
        Role::Tool => "tool".to_owned(),
    }
}

impl ConversationResponse {
    /// The view of a conversation given the texts of its times; none when
    /// one of them is missing.
    pub fn from_parts(c: &Conversation, created: Option<String>, updated: Option<String>) -> (r: Option<Self>)
        ensures
            match (created, updated) {
                (Some(cr), Some(up)) => r matches Some(v) && {
                    &&& v.id@ == c.id@
                    &&& v.agent_id@ == c.agent_id@
                    &&& v.message_count == c.messages@.len()
                    &&& v.created_at@ == cr@
                    &&& v.updated_at@ == up@
                },
                _ => r is None,
            },
    {
        match (created, updated) {
            (Some(created_at), Some(updated_at)) => Some(ConversationResponse {
                id: c.id.clone(),
                agent_id: c.agent_id.clone(),
                message_count: c.len(),
                created_at,
                updated_at,
            }),
            _ => None,
        }
    }

    /// The view of a conversation; none when one of its times cannot be
    /// rendered.
    pub fn from_conversation(c: &Conversation) -> (r: Option<Self>)
        ensures
            match (rfc3339_of_micros(c.created_at), rfc3339_of_micros(c.updated_at)) {
                (Some(cr), Some(up)) => r matches Some(v) && {
                    &&& v.id@ == c.id@
                    &&& v.agent_id@ == c.agent_id@
                    &&& v.message_count == c.messages@.len()
                    &&& v.created_at@ == cr
                    &&& v.updated_at@ == up
                },
                _ => r is None,
            },
    {
        let created = timestamp_text(c.created_at);
        let updated = timestamp_text(c.updated_at);
        Self::from_parts(c, created, updated)
    }
}

impl MessageResponse {
    /// The view of a message given the text of its time; none without it.
    pub fn from_parts(m: &Message, timestamp: Option<String>) -> (r: Option<Self>)
        ensures
            match timestamp {
                Some(t) => r matches Some(v) && {
                    &&& v.id@ == m.id@
                    &&& v.role@ == role_label(m.role)
                    &&& v.content@ == m.content@
                    &&& v.timestamp@ == t@
                },
                None => r is None,
            },
    {
        match timestamp {
            Some(timestamp) => Some(MessageResponse {
                id: m.id.clone(),
                role: role_label_string(m.role),
                content: m.content.clone(),
                timestamp,
            }),
            None => None,
        }
    }

    /// The view of a message; none when its time cannot be rendered.
    pub fn from_message(m: &Message) -> (r: Option<Self>)
        ensures
            match rfc3339_of_micros(m.timestamp) {
                Some(t) => r matches Some(v) && {
                    &&& v.id@ == m.id@
                    &&& v.role@ == role_label(m.role)
                    &&& v.content@ == m.content@
                    &&& v.timestamp@ == t
                },
                None => r is None,
            },
    {
        Self::from_parts(m, timestamp_text(m.timestamp))
    }
}

/// A chat message must hold more than white space.
pub fn check_chat_message(message: &str) -> (r: Result<(), ApiError>)
    ensures
        crate::api::social::refused_as(r, if trim(message@).len() == 0 {
            Some("message cannot be empty"@)
        } else {
            None
        }),
{
    if crate::text::is_blank_str(message) {
        Err(ApiError::bad_request("message cannot be empty"))
    } else {
        Ok(())
    }
}

/// An agent's name must hold more than white space.
pub fn check_agent_name(name: &str) -> (r: Result<(), ApiError>)
    ensures
        crate::api::social::refused_as(r, if trim(name@).len() == 0 {
            Some("agent name cannot be empty"@)
        } else {
            None
        }),
{
    if crate::text::is_blank_str(name) {
        Err(ApiError::bad_request("agent name cannot be empty"))
    } else {
        Ok(())
    }
}

/// A new chat with an agent: empty, or opened by the agent's system prompt
/// when it has one.
pub fn open_chat(agent_id: &str, system_prompt: &str) -> (r: Conversation)
    ensures
        r.agent_id@ == agent_id@,
        system_prompt@.len() == 0 ==> r.messages@.len() == 0,
        system_prompt@.len() > 0 ==> r.messages@.len() == 1 && r.messages@[0].role == Role::System
            && r.messages@[0].content@ == system_prompt@,
{
    let mut c = Conversation::new(agent_id);
    if !system_prompt.is_empty() {
        c.add_message(Message::system(system_prompt));
    }
    c
}

/// The conversation a chat message goes to: the one named, or a new id
/// `conv:` followed by a fresh random UUID.
pub fn chat_conversation_id(requested: Option<String>) -> (r: String)
    ensures
        match requested {
            Some(id) => r == id,
            None => r@.len() == 5 + 36 && r@.take(5) == "conv:"@ && is_uuid_v4_text(r@.skip(5)),
        },
{
    match requested {
        Some(id) => id,
        None => {
            let fresh = crate::conversation::new_uuid();
            let r = crate::error::concat_str("conv:", fresh.as_str());
            proof {
                reveal_strlit("conv:");
                assert(r@.take(5) =~= "conv:"@);
                assert(r@.skip(5) =~= fresh@);
            }
            r
        },
    }
}

/// The error answered when the backend fails a chat.
pub fn backend_failure(err: &crate::error::Error) -> (r: ApiError)
    ensures
        r.status == 500,
        r.message@ == "inference backend error: "@ + crate::error::error_text(*err),
{
    let text = err.describe();
    ApiError::internal(crate::error::concat_str("inference backend error: ", text.as_str()).as_str())
}

/// The error answered when no inference backend is configured.
pub fn no_backend() -> (r: ApiError)
    ensures
        r.status == 503,
        r.message@ == "no inference backend configured — call AppState::set_inference_backend first"@,
{
    ApiError::service_unavailable("no inference backend configured — call AppState::set_inference_backend first")
}

/// What a chat request is answered, in the order the checks are made: a
/// blank message is refused (400); then an unknown agent (404, "agent <id>
/// not found"); then a missing backend, which `run` shows as `None` (503);
/// then a failed run (500); otherwise the reply in `conversation`.
pub fn chat_answer(
    message: &str,
    agent_id: &str,
    agent_known: bool,
    run: Option<Result<String, crate::error::Error>>,
    conversation_id: String,
    conversation: &Conversation,
) -> (r: Result<ChatResponse, ApiError>)
    ensures
        trim(message@).len() == 0 ==> (r matches Err(e) && e.status == 400
            && e.message@ == "message cannot be empty"@),
        trim(message@).len() > 0 && !agent_known ==> (r matches Err(e) && e.status == 404
            && e.message@ == "agent "@ + agent_id@ + " not found"@),
        trim(message@).len() > 0 && agent_known && run is None ==> (r matches Err(e) && e.status == 503
            && e.message@ == "no inference backend configured — call AppState::set_inference_backend first"@),
        trim(message@).len() > 0 && agent_known ==> match run {
            Some(Err(err)) => r matches Err(e) && e.status == 500
                && e.message@ == "inference backend error: "@ + crate::error::error_text(err),
            Some(Ok(text)) => r matches Ok(c) && c.conversation_id == conversation_id && c.response == text
                && c.role@ == "assistant"@ && c.message_count == conversation.messages@.len(),
            None => true,
        },
{
    if let Err(e) = check_chat_message(message) {
        return Err(e);
    }
    if !agent_known {
        let m = crate::error::concat_str("agent ", agent_id);
        let m = crate::error::concat_str(m.as_str(), " not found");
        return Err(ApiError::not_found(m.as_str()));
    }
    match run {
        None => Err(no_backend()),
        Some(Err(err)) => Err(backend_failure(&err)),
        Some(Ok(text)) => Ok(chat_response(conversation_id, text, conversation)),
    }
}

/// The answer to a chat message: the assistant's reply in the conversation.
pub fn chat_response(conversation_id: String, response: String, conversation: &Conversation) -> (r: ChatResponse)
    ensures
        r.conversation_id == conversation_id,
        r.response == response,
        r.role@ == "assistant"@,
        r.message_count == conversation.messages@.len(),
{
    ChatResponse {
        conversation_id,
        response,
        role: "assistant".to_owned(),
        message_count: conversation.len(),
    }
}

} // verus!
