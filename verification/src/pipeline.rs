//! Completion bookkeeping shared by inference backends, multi-agent
//! pipelines, and the echo backend used for testing.
use vstd::prelude::*;
use crate::conversation::{Conversation, Message, Role, token_estimate_of, str_byte_len};
use crate::text::byte_len;

verus! {

/// Token counts for a completion.
#[derive(Debug, Clone, Copy)]
pub struct TokenUsage {
    pub prompt_tokens: u32,
    pub completion_tokens: u32,
}

impl TokenUsage {
    /// Prompt and completion tokens together.
    pub fn total(&self) -> (r: u32)
        requires
            self.prompt_tokens + self.completion_tokens <= u32::MAX,
        ensures
            r == self.prompt_tokens + self.completion_tokens,
    {
        self.prompt_tokens + self.completion_tokens
    }
}

/// Why the model stopped generating.
#[derive(Debug, Clone, Copy, PartialEq, Eq, Structural)]
pub enum FinishReason {
    /// The model finished naturally.
    Stop,
    /// The response hit the max token limit.
    Length,
    /// The model wants to call a tool.
    ToolUse,
}

/// The response from an inference backend.
#[derive(Debug, Clone)]
pub struct CompletionResponse {
    pub message: Message,
    pub usage: TokenUsage,
    pub finish_reason: FinishReason,
}

/// A step in a multi-agent pipeline.
#[derive(Debug, Clone)]
pub struct PipelineStep {
    pub name: String,
    pub agent_id: String,
    pub input_key: String,
    pub output_key: String,
}

impl PipelineStep {
    /// A step running agent `agent_id` from `input_key` to `output_key`.
    pub fn new(name: &str, agent_id: &str, input_key: &str, output_key: &str) -> (r: Self)
        ensures
            r.name@ == name@,
            r.agent_id@ == agent_id@,
            r.input_key@ == input_key@,
            r.output_key@ == output_key@,
    {
        PipelineStep {
            name: name.to_owned(),
            agent_id: agent_id.to_owned(),
            input_key: input_key.to_owned(),
            output_key: output_key.to_owned(),
        }
    }
}

/// A pipeline chains multiple agents in sequence, passing output from one
/// step as input to the next.
#[derive(Debug, Clone)]
pub struct Pipeline {
    pub name: String,
    pub steps: Vec<PipelineStep>,
}

impl Pipeline {
    /// A pipeline with no steps.
    pub fn new(name: &str) -> (r: Self)
        ensures
            r.name@ == name@,
            r.steps@.len() == 0,
    {
        Pipeline { name: name.to_owned(), steps: Vec::new() }
    }

    /// Appends a step.
    pub fn add_step(&mut self, step: PipelineStep)
        ensures
            final(self).steps@ == old(self).steps@.push(step),
            final(self).name == old(self).name,
    {
        self.steps.push(step);
    }

    /// The number of steps.
    pub fn step_count(&self) -> (r: usize)
        ensures
            r == self.steps@.len(),
    {
        self.steps.len()
    }
}

/// A backend that echoes the last user message back, optionally prefixed;
/// useful for exercising the executor without a real model.
#[derive(Debug)]
pub struct EchoBackend {
    prefix: String,
}

impl View for EchoBackend {
    /// The prefix put before every answer.
    type V = Seq<char>;

    closed spec fn view(&self) -> Seq<char> {
        self.prefix@
    }
}

/// Content of the last message of role `User`, if any.
pub open spec fn last_user_content(msgs: Seq<Message>) -> Option<Seq<char>>
    decreases msgs.len(),
{
    if msgs.len() == 0 {
        None
    } else if msgs.last().role == Role::User {
        Some(msgs.last().content@)
    } else {
        last_user_content(msgs.drop_last())
    }
}

/// Sum of the token estimates of `msgs`, each truncated to `u32`.
pub open spec fn prompt_tokens_of(msgs: Seq<Message>) -> int
    decreases msgs.len(),
{
    if msgs.len() == 0 {
        0
    } else {
        prompt_tokens_of(msgs.drop_last()) + (token_estimate_of(msgs.last().content@) as u32) as int
    }
}

/// What the echo backend answers: the last user message (or a fixed note
/// when there is none), behind the prefix.
pub open spec fn echo_content(prefix: Seq<char>, msgs: Seq<Message>) -> Seq<char> {
    let last = match last_user_content(msgs) {
        Some(c) => c,
        None => "(no user message)"@,
    };
    prefix + last
}

impl EchoBackend {
    /// An echo backend with no prefix.
    pub fn new() -> (r: Self)
        ensures
            r@.len() == 0,
    {
        EchoBackend { prefix: String::new() }
    }

    /// An echo backend that prefixes all responses.
    pub fn with_prefix(prefix: &str) -> (r: Self)
        ensures
            r@ == prefix@,
    {
        EchoBackend { prefix: prefix.to_owned() }
    }

    /// The model identifier of this backend.
    pub fn model_id(&self) -> (r: &'static str)
        ensures
            r@ == "echo"@,
    {
        "echo"
    }

    /// The echo backend does not call tools.
    pub fn supports_tools(&self) -> (r: bool)
        ensures
            !r,
    {
        false
    }

    /// The completion for a conversation: the echoed text as an assistant
    /// message, the conversation's token estimate as prompt tokens, a
    /// quarter of the answer's bytes as completion tokens, and `Stop`.
    pub fn respond(&self, conversation: &Conversation) -> (r: CompletionResponse)
        requires
            prompt_tokens_of(conversation.messages@) <= u32::MAX,
        ensures
            r.message.role == Role::Assistant,
            r.message.content@ == echo_content(self@, conversation.messages@),
            r.usage.prompt_tokens == prompt_tokens_of(conversation.messages@),
            r.usage.completion_tokens == #[verifier::truncate] (token_estimate_of(r.message.content@) as u32),
            r.finish_reason == FinishReason::Stop,
    {
        let msgs = &conversation.messages;
        let ghost mv = msgs@;
        let mut last: Option<usize> = None;
        let mut i: usize = msgs.len();
        assert(mv.take(mv.len() as int) =~= mv);
        while i > 0
            invariant_except_break
                last is None,
            invariant
                mv == msgs@,
                i <= mv.len(),
                last_user_content(mv) == last_user_content(mv.take(i as int)),
            ensures
                match last {
                    Some(k) => k < mv.len() && last_user_content(mv) == Some(mv[k as int].content@),
                    None => last_user_content(mv) is None,
                },
            decreases i,
        {
            assert(mv.take(i as int).drop_last() =~= mv.take(i - 1));
            if msgs[i - 1].role == Role::User {
                last = Some(i - 1);
                break;
            }
            i -= 1;
        }
        if i == 0 {
            assert(mv.take(0) =~= Seq::<Message>::empty());
        }
        let mut content = self.prefix.clone();
        match last {
            Some(k) => {
                content.append(msgs[k].content.as_str());
            },
            None => {
                content.append("(no user message)");
            },
        }
        let mut prompt_tokens: u32 = 0;
        let mut j: usize = 0;
        assert(mv.take(0) =~= Seq::<Message>::empty());
        while j < msgs.len()
            invariant
                mv == msgs@,
                j <= mv.len(),
                prompt_tokens_of(mv) <= u32::MAX,
                prompt_tokens == prompt_tokens_of(mv.take(j as int)),
            decreases mv.len() - j,
        {
            proof {
                lemma_prompt_tokens_take(mv, j + 1);
            }
            let est = msgs[j].token_estimate();
            prompt_tokens = prompt_tokens + #[verifier::truncate] (est as u32);
            j += 1;
        }
        assert(mv.take(mv.len() as int) =~= mv);
        let completion_tokens = #[verifier::truncate] ((str_byte_len(content.as_str()) / 4) as u32);
        CompletionResponse {
            message: Message::assistant(content.as_str()),
            usage: TokenUsage { prompt_tokens, completion_tokens },
            finish_reason: FinishReason::Stop,
        }
    }
}

proof fn lemma_prompt_tokens_take(msgs: Seq<Message>, i: int)
    requires
        0 < i <= msgs.len(),
    ensures
        prompt_tokens_of(msgs.take(i)) == prompt_tokens_of(msgs.take(i - 1))
            + (token_estimate_of(msgs[i - 1].content@) as u32) as int,
        prompt_tokens_of(msgs.take(i)) <= prompt_tokens_of(msgs),
    decreases msgs.len() - i,
{
    assert(msgs.take(i).drop_last() =~= msgs.take(i - 1));
    if i < msgs.len() {
        lemma_prompt_tokens_take(msgs, i + 1);
    } else {
        assert(msgs.take(i) =~= msgs);
    }
}

} // verus!
