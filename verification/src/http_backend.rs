//! The decisions of an inference backend that speaks the OpenAI-compatible
//! `/v1/chat/completions` protocol: which endpoint and credentials to use,
//! how conversation roles are named on the wire, and how a reply becomes a
//! completion.  Sending the request is left to the caller.
use vstd::prelude::*;
use crate::conversation::{Conversation, Message, Role};
use crate::error::{Error, concat_str};
use crate::pipeline::{CompletionResponse, FinishReason, TokenUsage};

verus! {

/// The role name used on the wire for each conversation role.
pub open spec fn role_name(role: Role) -> Seq<char> {
    match role {
        Role::System => "system"@,
        Role::User => "user"@,
        Role::Assistant => "assistant"@,
        Role::ToolCall => "assistant"@,
        Role::Tool => "tool"@,
    }
}

/// The wire name of `role`.
pub fn role_to_string(role: Role) -> (r: String)
    ensures
        r@ == role_name(role),
{
    let s = match role {
        Role::System => "system",
        Role::User => "user",
        Role::Assistant => "assistant",
        Role::ToolCall => "assistant",
        Role::Tool => "tool",
    };
    proof {
        reveal_strlit("system");
        reveal_strlit("user");
        reveal_strlit("assistant");
        reveal_strlit("tool");
    }
    s.to_owned()
}

/// How a wire finish reason is read: `"length"` and `"tool_calls"` are
/// recognised, everything else (and its absence) means a natural stop.
pub open spec fn finish_reason_of(reason: Option<Seq<char>>) -> FinishReason {
    match reason {
        Some(r) => if r == "length"@ {
            FinishReason::Length
        } else if r == "tool_calls"@ {
            FinishReason::ToolUse
        } else {
            FinishReason::Stop
        },
        None => FinishReason::Stop,
    }
}

/// Reads a wire finish reason.
pub fn parse_finish_reason(reason: Option<&str>) -> (r: FinishReason)
    ensures
        r == finish_reason_of(match reason { Some(s) => Some(s@), None => None }),
{
    match reason {
        Some(s) => {
            if crate::text::str_eq(s, "length") {
                FinishReason::Length
            } else if crate::text::str_eq(s, "tool_calls") {
                FinishReason::ToolUse
            } else {
                FinishReason::Stop
            }
        },
        None => FinishReason::Stop,
    }
}

/// One message of a chat request, as sent on the wire.
#[derive(Debug, Clone)]
pub struct ChatMessage {
    pub role: String,
    pub content: String,
}

/// One choice of a chat reply: the message text and the finish reason.
#[derive(Debug, Clone)]
pub struct ChatChoice {
    pub content: String,
    pub finish_reason: Option<String>,
}

/// Where and how to reach an OpenAI-compatible chat completions API.
#[derive(Debug, Clone)]
pub struct HttpInferenceBackend {
    endpoint: String,
    api_key: String,
    model: String,
}

/// The endpoint of OpenAI's chat completions API.
pub open spec fn openai_endpoint() -> Seq<char> {
    "https://api.openai.com/v1/chat/completions"@
}

/// The endpoint of a local ollama instance.
pub open spec fn ollama_endpoint() -> Seq<char> {
    "http://localhost:11434/v1/chat/completions"@
}

impl View for HttpInferenceBackend {
    /// Endpoint, API key and model.
    type V = (Seq<char>, Seq<char>, Seq<char>);

    closed spec fn view(&self) -> (Seq<char>, Seq<char>, Seq<char>) {
        (self.endpoint@, self.api_key@, self.model@)
    }
}

impl HttpInferenceBackend {
    /// A backend for the completions endpoint `endpoint`, authenticated by
    /// `api_key` (empty for local models), requesting `model`.
    pub fn new(endpoint: &str, api_key: &str, model: &str) -> (r: Self)
        ensures
            r@ == (endpoint@, api_key@, model@),
    {
        HttpInferenceBackend {
            endpoint: endpoint.to_owned(),
            api_key: api_key.to_owned(),
            model: model.to_owned(),
        }
    }

    /// A backend for OpenAI's API.
    pub fn openai(api_key: &str, model: &str) -> (r: Self)
        ensures
            r@ == (openai_endpoint(), api_key@, model@),
    {
        proof {
            reveal_strlit("https://api.openai.com/v1/chat/completions");
        }
        Self::new("https://api.openai.com/v1/chat/completions", api_key, model)
    }

    /// A backend for a local ollama instance, which needs no API key.
    pub fn ollama(model: &str) -> (r: Self)
        ensures
            r@ == (ollama_endpoint(), Seq::<char>::empty(), model@),
    {
        proof {
            reveal_strlit("http://localhost:11434/v1/chat/completions");
            reveal_strlit("");
        }
        Self::new("http://localhost:11434/v1/chat/completions", "", model)
    }

    /// The completions endpoint.
    pub fn endpoint(&self) -> (r: &str)
        ensures
            r@ == self@.0,
    {
        self.endpoint.as_str()
    }

    /// The API key (empty when none is sent).
    pub fn api_key(&self) -> (r: &str)
        ensures
            r@ == self@.1,
    {
        self.api_key.as_str()
    }

    /// The model requested.
    pub fn model_id(&self) -> (r: &str)
        ensures
            r@ == self@.2,
    {
        self.model.as_str()
    }

    /// Such APIs accept tool calls.
    pub fn supports_tools(&self) -> (r: bool)
        ensures
            r,
    {
        true
    }

    /// The `Authorization` header value: a bearer token when an API key is
    /// set, nothing otherwise.
    pub fn authorization(&self) -> (r: Option<String>)
        ensures
            self@.1.len() == 0 ==> r is None,
            self@.1.len() > 0 ==> (r matches Some(h) && h@ == "Bearer "@ + self@.1),
    {
        if self.api_key.as_str().is_empty() {
            None
        } else {
            Some(concat_str("Bearer ", self.api_key.as_str()))
        }
    }
}

/// The wire messages of a conversation: each message's role name and content,
/// in order.
pub fn chat_messages(conversation: &Conversation) -> (r: Vec<ChatMessage>)
    ensures
        r@.len() == conversation.messages@.len(),
        forall|i: int|
            #![trigger r@[i]]
            0 <= i < r@.len() ==> r@[i].role@ == role_name(conversation.messages@[i].role)
                && r@[i].content@ == conversation.messages@[i].content@,
{
    let mut out: Vec<ChatMessage> = Vec::new();
    let n = conversation.messages.len();
    for i in 0..n
        invariant
            n == conversation.messages@.len(),
            out@.len() == i,
            forall|k: int|
                #![trigger out@[k]]
                0 <= k < i ==> out@[k].role@ == role_name(conversation.messages@[k].role)
                    && out@[k].content@ == conversation.messages@[k].content@,
    {
        let m = &conversation.messages[i];
        out.push(ChatMessage { role: role_to_string(m.role), content: m.content.as_str().to_owned() });
    }
    out
}

/// The error for a reply whose HTTP status is not a success: the status as
/// the client renders it, and the body (or a note when it could not be read).
pub fn http_status_error(status: &str, body: Option<&str>) -> (r: Error)
    ensures
        r matches Error::Other(m) && m@ == "inference API returned HTTP "@ + status@ + ": "@
            + match body { Some(b) => b@, None => "unknown error"@ },
{
    let head = concat_str("inference API returned HTTP ", status);
    let with_sep = concat_str(head.as_str(), ": ");
    let text = match body {
        Some(b) => b,
        None => "unknown error",
    };
    Error::Other(concat_str(with_sep.as_str(), text))
}

/// The completion of a successful reply: the first choice's message as the
/// assistant's, the reported usage (zero when absent), and its finish reason.
/// A reply without choices is an error.
pub fn completion_from_reply(choices: &Vec<ChatChoice>, usage: Option<TokenUsage>) -> (r: Result<
    CompletionResponse,
    Error,
>)
    ensures
        choices@.len() == 0 <==> r is Err,
        choices@.len() == 0 ==> (r matches Err(Error::Other(m)) && m@ == "no choices in response"@),
        choices@.len() > 0 ==> (r matches Ok(c) && {
            &&& c.message.role == Role::Assistant
            &&& c.message.content@ == choices@[0].content@
            &&& c.message.tool_call_id is None
            &&& c.usage == match usage {
                Some(u) => u,
                None => TokenUsage { prompt_tokens: 0, completion_tokens: 0 },
            }
            &&& c.finish_reason == finish_reason_of(
                match choices@[0].finish_reason { Some(s) => Some(s@), None => None },
            )
        }),
{
    if choices.len() == 0 {
        return Err(Error::Other("no choices in response".to_owned()));
    }
    let choice = &choices[0];
    let used = match usage {
        Some(u) => u,
        None => TokenUsage { prompt_tokens: 0, completion_tokens: 0 },
    };
    let reason = match &choice.finish_reason {
        Some(s) => parse_finish_reason(Some(s.as_str())),
        None => parse_finish_reason(None),
    };
    Ok(CompletionResponse {
        message: Message::assistant(choice.content.as_str()),
        usage: used,
        finish_reason: reason,
    })
}

} // verus!
