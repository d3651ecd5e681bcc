//! Running an agent to completion: inference, tool call, inference, ...,
//! final answer.
//!
//! The loop itself waits on a model and on tools, so it is driven from
//! outside: [`AgentRun`] holds the state of one run and decides, for each
//! completion it is handed, whether a tool must be called or the run is over.
use vstd::prelude::*;
use crate::agent::{ToolDefinition, ToolParameter};
use crate::conversation::{Conversation, Message, Role};
use crate::error::{Error, concat_str, error_text};
use crate::pipeline::{CompletionResponse, FinishReason, TokenUsage};
use crate::prompt::matches_at;
use crate::json::{JsonValue, JsonData, json_view, members_view, lemma_members_view, member, find_member, clone_members, parse_json, json_document};
use crate::text::{chars_of, string_from_range, trim, trim_range, decimal, decimal_string};
use vstd::string::StringExecFns;

verus! {

/// Configuration for agent execution.
#[derive(Debug, Clone)]
pub struct ExecutionConfig {
    /// Maximum number of inference + tool steps before stopping.
    pub max_steps: usize,
    /// Whether to list the available tools in the system prompt.
    pub inject_tools: bool,
}

impl Default for ExecutionConfig {
    fn default() -> (r: Self)
        ensures
            r.max_steps == 16,
            r.inject_tools,
    {
        ExecutionConfig { max_steps: 16, inject_tools: true }
    }
}

// ── Finding text ──────────────────────────────────────────────────────

/// The first position, from `from` on, at which `pat` occurs in `s`.
pub open spec fn find_from(s: Seq<char>, pat: Seq<char>, from: nat) -> Option<int>
    decreases s.len() + 1 - from,
{
    if from + pat.len() > s.len() {
        None
    } else if s.subrange(from as int, (from + pat.len()) as int) == pat {
        Some(from as int)
    } else {
        find_from(s, pat, from + 1)
    }
}

/// The last position of `c` in `s`.
pub open spec fn last_index_of(s: Seq<char>, c: char) -> Option<int>
    decreases s.len(),
{
    if s.len() == 0 {
        None
    } else if s.last() == c {
        Some(s.len() - 1)
    } else {
        last_index_of(s.drop_last(), c)
    }
}

proof fn lemma_find_from_found(s: Seq<char>, pat: Seq<char>, from: nat)
    ensures
        find_from(s, pat, from) matches Some(i) ==> from <= i && i + pat.len() <= s.len()
            && s.subrange(i, i + pat.len()) == pat,
    decreases s.len() + 1 - from,
{
    if from + pat.len() <= s.len() && s.subrange(from as int, (from + pat.len()) as int) != pat {
        lemma_find_from_found(s, pat, from + 1);
    }
}

proof fn lemma_last_index_found(s: Seq<char>, c: char)
    ensures
        last_index_of(s, c) matches Some(i) ==> 0 <= i < s.len() && s[i] == c,
    decreases s.len(),
{
    if s.len() > 0 && s.last() != c {
        lemma_last_index_found(s.drop_last(), c);
    }
}

fn find_exec(s: &Vec<char>, pat: &Vec<char>, from: usize) -> (r: Option<usize>)
    requires
        from <= s.len(),
        pat.len() > 0,
    ensures
        match r {
            Some(i) => find_from(s@, pat@, from as nat) == Some(i as int),
            None => find_from(s@, pat@, from as nat) is None,
        },
{
    let mut i = from;
    while pat.len() <= s.len() - i
        invariant
            from <= i <= s.len(),
            pat.len() > 0,
            find_from(s@, pat@, from as nat) == find_from(s@, pat@, i as nat),
        decreases s.len() - i,
    {
        if matches_at(s, i, pat) {
            return Some(i);
        }
        i += 1;
    }
    None
}

fn last_index_exec(s: &Vec<char>, c: char) -> (r: Option<usize>)
    ensures
        match r {
            Some(i) => last_index_of(s@, c) == Some(i as int),
            None => last_index_of(s@, c) is None,
        },
{
    let mut k = s.len();
    assert(s@.take(k as int) =~= s@);
    while k > 0
        invariant
            k <= s.len(),
            last_index_of(s@, c) == last_index_of(s@.take(k as int), c),
        decreases k,
    {
        if s[k - 1] == c {
            return Some(k - 1);
        }
        assert(s@.take(k as int).drop_last() =~= s@.take(k - 1));
        k -= 1;
    }
    None
}

fn sub_vec(cs: &Vec<char>, a: usize, b: usize) -> (r: Vec<char>)
    requires
        a <= b <= cs.len(),
    ensures
        r@ == cs@.subrange(a as int, b as int),
{
    let mut r: Vec<char> = Vec::new();
    let mut i = a;
    while i < b
        invariant
            a <= i <= b <= cs.len(),
            r@ == cs@.subrange(a as int, i as int),
        decreases b - i,
    {
        r.push(cs[i]);
        assert(cs@.subrange(a as int, i + 1) =~= cs@.subrange(a as int, i as int).push(cs@[i as int]));
        i += 1;
    }
    r
}

/// The opening fence of a JSON code block.
pub open spec fn json_fence() -> Seq<char> {
    seq!['`', '`', '`', 'j', 's', 'o', 'n']
}

/// A closing code fence.
pub open spec fn fence() -> Seq<char> {
    seq!['`', '`', '`']
}

/// From the first `{` to the last `}`, when the last comes after the first.
pub open spec fn braced_span(t: Seq<char>) -> Option<Seq<char>> {
    match (find_from(t, seq!['{'], 0), last_index_of(t, '}')) {
        (Some(a), Some(b)) => if b > a {
            Some(t.subrange(a, b + 1))
        } else {
            None
        },
        _ => None,
    }
}

/// The JSON a model's text carries: the trimmed body of the first
/// ```` ```json ```` block that is closed, or else the span from the first
/// `{` to the last `}`.
pub open spec fn extracted_json(t: Seq<char>) -> Option<Seq<char>> {
    match find_from(t, json_fence(), 0) {
        Some(st) => {
            let after = t.subrange(st + 7, t.len() as int);
            match find_from(after, fence(), 0) {
                Some(e) => Some(trim(after.subrange(0, e))),
                None => braced_span(t),
            }
        },
        None => braced_span(t),
    }
}

fn braced_span_exec(t: &Vec<char>) -> (r: Option<String>)
    ensures
        match r {
            Some(s) => braced_span(t@) == Some(s@),
            None => braced_span(t@) is None,
        },
{
    let open: Vec<char> = vec!['{'];
    assert(open@ =~= seq!['{']);
    match find_exec(t, &open, 0) {
        None => None,
        Some(a) => {
            match last_index_exec(t, '}') {
                None => None,
                Some(b) => {
                    proof {
                        lemma_find_from_found(t@, open@, 0);
                        lemma_last_index_found(t@, '}');
                    }
                    if b > a {
                        Some(string_from_range(t, a, b + 1))
                    } else {
                        None
                    }
                },
            }
        },
    }
}

/// Extracts the JSON object from text that may wrap it in a markdown fence.
pub fn extract_json(text: &str) -> (r: Option<String>)
    ensures
        match r {
            Some(s) => extracted_json(text@) == Some(s@),
            None => extracted_json(text@) is None,
        },
{
    let t = chars_of(text);
    let open: Vec<char> = vec!['`', '`', '`', 'j', 's', 'o', 'n'];
    let close: Vec<char> = vec!['`', '`', '`'];
    assert(open@ =~= json_fence());
    assert(close@ =~= fence());
    if let Some(st) = find_exec(&t, &open, 0) {
        proof {
            lemma_find_from_found(t@, open@, 0);
        }
        let after = sub_vec(&t, st + 7, t.len());
        if let Some(e) = find_exec(&after, &close, 0) {
            proof {
                lemma_find_from_found(after@, close@, 0);
            }
            let (a, b) = trim_range(&after, 0, e);
            return Some(string_from_range(&after, a, b));
        }
    }
    braced_span_exec(&t)
}

// ── Tool calls ────────────────────────────────────────────────────────

/// The arguments a tool call carries: the members of the document's `args`
/// member when that is an object, and none otherwise.
pub open spec fn call_args(d: JsonData) -> Seq<(Seq<char>, JsonData)> {
    match member(d, "args"@) {
        Some(JsonData::Object(ms)) => ms,
        _ => Seq::empty(),
    }
}

/// The tool call `r` (name and arguments) that the read document `parsed`
/// asks for: its `tool` member, which must be a string, and its arguments;
/// or the error for a text that is not JSON or has no `tool` string.
pub open spec fn tool_call_outcome(
    parsed: Result<JsonData, Seq<char>>,
    r: Result<(Seq<char>, Seq<(Seq<char>, JsonData)>), Error>,
) -> bool {
    match parsed {
        Err(m) => r matches Err(Error::Other(e)) && e@ == "failed to parse tool call: "@ + m,
        Ok(d) => match member(d, "tool"@) {
            Some(JsonData::Str(t)) => r == Ok::<(Seq<char>, Seq<(Seq<char>, JsonData)>), Error>((t, call_args(d))),
            _ => r matches Err(Error::Other(e)) && e@ == "tool call missing 'tool' field"@,
        },
    }
}

/// The plain value of a parsed tool call.
pub open spec fn call_view(r: Result<(String, Vec<(String, JsonValue)>), Error>) -> Result<
    (Seq<char>, Seq<(Seq<char>, JsonData)>),
    Error,
> {
    match r {
        Ok((n, a)) => Ok((n@, members_view(a@))),
        Err(e) => Err(e),
    }
}

/// The plain text of the tool call an action asks for.
pub open spec fn action_view(r: Result<RunAction, Error>) -> Result<
    (Seq<char>, Seq<(Seq<char>, JsonData)>),
    Error,
> {
    match r {
        Ok(RunAction::CallTool { tool_name, args }) => Ok((tool_name@, members_view(args@))),
        Ok(RunAction::Finished) => Ok((Seq::empty(), Seq::empty())),
        Err(e) => Err(e),
    }
}

/// The tool call a read JSON document asks for: the string member `tool`
/// names the tool, and the members of the object member `args`, when there
/// is one, are its arguments.  A text that is not JSON, or a document whose
/// `tool` member is missing or not a string, is refused.
pub fn tool_call_from_json(parsed: Result<JsonValue, String>) -> (r: Result<
    (String, Vec<(String, JsonValue)>),
    Error,
>)
    ensures
        tool_call_outcome(
            match parsed {
                Ok(j) => Ok(json_view(j)),
                Err(m) => Err(m@),
            },
            call_view(r),
        ),
{
    match parsed {
        Err(m) => Err(Error::Other(concat_str("failed to parse tool call: ", m.as_str()))),
        Ok(JsonValue::Object(members)) => {
            let ghost mv = members_view(members@);
            proof {
                lemma_members_view(members@);
            }
            let tool = match find_member(&members, "tool") {
                Some(k) => match &members[k].1 {
                    JsonValue::Str(t) => Some(t.clone()),
                    _ => None,
                },
                None => None,
            };
            match tool {
                None => Err(Error::Other("tool call missing 'tool' field".to_owned())),
                Some(t) => {
                    let args = match find_member(&members, "args") {
                        Some(k) => match &members[k].1 {
                            JsonValue::Object(a) => clone_members(a),
                            _ => Vec::new(),
                        },
                        None => Vec::new(),
                    };
                    proof {
                        assert(members_view(Seq::<(String, JsonValue)>::empty()) =~= Seq::<(Seq<char>, JsonData)>::empty());
                    }
                    Ok((t, args))
                },
            }
        },
        Ok(_) => Err(Error::Other("tool call missing 'tool' field".to_owned())),
    }
}

/// The text a tool call is read from: the extracted JSON, or all of `content`.
pub open spec fn tool_call_source(content: Seq<char>) -> Seq<char> {
    match extracted_json(content) {
        Some(j) => j,
        None => content,
    }
}

/// Parses a tool call from model output, expected as
/// `{"tool": "name", "args": {"key": "value"}}`, possibly in a markdown fence.
pub fn parse_tool_call(content: &str) -> (r: Result<(String, Vec<(String, JsonValue)>), Error>)
    ensures
        tool_call_outcome(json_document(tool_call_source(content@)), call_view(r)),
{
    let source = match extract_json(content) {
        Some(j) => j,
        None => content.to_owned(),
    };
    let parsed = parse_json(source.as_str());
    tool_call_from_json(parsed)
}

// ── The system prompt ─────────────────────────────────────────────────

/// The line describing one tool parameter.
pub open spec fn param_line(name: Seq<char>, p: ToolParameter) -> Seq<char> {
    "  - "@ + name + " ("@ + p.param_type@ + ", "@ + (if p.required {
        "required"@
    } else {
        "optional"@
    }) + "): "@ + p.description@ + "\n"@
}

/// The lines describing a tool's parameters, in order.
pub open spec fn params_text(ps: Seq<(String, ToolParameter)>) -> Seq<char>
    decreases ps.len(),
{
    if ps.len() == 0 {
        Seq::empty()
    } else {
        params_text(ps.drop_last()) + param_line(ps.last().0@, ps.last().1)
    }
}

/// The description of one tool: its name and purpose, then its parameters.
pub open spec fn tool_text(t: ToolDefinition) -> Seq<char> {
    "- "@ + t.name@ + ": "@ + t.description@ + "\n"@ + params_text(t.parameters@)
}

/// The descriptions of tools, in order.
pub open spec fn tools_text(ts: Seq<ToolDefinition>) -> Seq<char>
    decreases ts.len(),
{
    if ts.len() == 0 {
        Seq::empty()
    } else {
        tools_text(ts.drop_last()) + tool_text(ts.last())
    }
}

fn param_line_exec(name: &str, p: &ToolParameter) -> (r: String)
    ensures
        r@ == param_line(name@, *p),
{
    let mut out = String::new();
    out.append("  - ");
    out.append(name);
    out.append(" (");
    out.append(p.param_type.as_str());
    out.append(", ");
    out.append(if p.required { "required" } else { "optional" });
    out.append("): ");
    out.append(p.description.as_str());
    out.append("\n");
    out
}

fn tool_text_exec(t: &ToolDefinition) -> (r: String)
    ensures
        r@ == tool_text(*t),
{
    let mut out = String::new();
    out.append("- ");
    out.append(t.name.as_str());
    out.append(": ");
    out.append(t.description.as_str());
    out.append("\n");
    let ghost head = out@;
    let n = t.parameters.len();
    for j in 0..n
        invariant
            n == t.parameters@.len(),
            out@ == head + params_text(t.parameters@.take(j as int)),
    {
        let line = param_line_exec(t.parameters[j].0.as_str(), &t.parameters[j].1);
        out.append(line.as_str());
        assert(t.parameters@.take(j + 1).drop_last() =~= t.parameters@.take(j as int));
    }
    assert(t.parameters@.take(n as int) =~= t.parameters@);
    out
}

/// Describes the tools, one block per tool: `- name: description` and a
/// line `  - param (type, required|optional): description` per parameter.
pub fn format_tool_descriptions(tools: &[ToolDefinition]) -> (r: String)
    ensures
        r@ == tools_text(tools@),
{
    let mut out = String::new();
    let n = tools.len();
    for i in 0..n
        invariant
            n == tools@.len(),
            out@ == tools_text(tools@.take(i as int)),
    {
        let block = tool_text_exec(&tools[i]);
        out.append(block.as_str());
        assert(tools@.take(i + 1).drop_last() =~= tools@.take(i as int));
    }
    assert(tools@.take(n as int) =~= tools@);
    out
}

/// The system message opening a run: the agent's prompt, followed by the
/// tool descriptions when tools are injected and there are any to describe.
pub open spec fn system_prompt_text(prompt: Seq<char>, tools: Option<Seq<ToolDefinition>>, inject: bool) -> Seq<char> {
    match tools {
        Some(ts) => if inject && tools_text(ts).len() > 0 {
            prompt + "\n\nAvailable tools:\n"@ + tools_text(ts)
        } else {
            prompt
        },
        None => prompt,
    }
}

/// Opens a run on `conversation`: an empty conversation of an agent with a
/// system prompt gets the system message first; any other is left as it is.
pub fn prepare_conversation(
    conversation: &mut Conversation,
    system_prompt: &str,
    tools: Option<&[ToolDefinition]>,
    config: &ExecutionConfig,
)
    ensures
        old(conversation).messages@.len() == 0 && system_prompt@.len() > 0 ==> {
            &&& final(conversation).messages@.len() == 1
            &&& final(conversation).messages@[0].role == Role::System
            &&& final(conversation).messages@[0].content@ == system_prompt_text(
                system_prompt@,
                match tools {
                    Some(ts) => Some(ts@),
                    None => None,
                },
                config.inject_tools,
            )
        },
        !(old(conversation).messages@.len() == 0 && system_prompt@.len() > 0) ==> *final(conversation)
            == *old(conversation),
{
    if conversation.is_empty() && !system_prompt.is_empty() {
        let mut content = system_prompt.to_owned();
        if let Some(ts) = tools {
            if config.inject_tools {
                let descs = format_tool_descriptions(ts);
                if !descs.as_str().is_empty() {
                    content.append("\n\nAvailable tools:\n");
                    content.append(descs.as_str());
                }
            }
        }
        conversation.add_message(Message::system(content.as_str()));
    }
}

/// What a tool call answered, as the text handed back to the model: the
/// tool's JSON output, its error, or a note that no tools are available.
pub fn tool_result_text(outcome: Option<Result<String, Error>>) -> (r: String)
    ensures
        r@ == match outcome {
            None => "No tool executor available"@,
            Some(Ok(j)) => j@,
            Some(Err(e)) => "Tool error: "@ + error_text(e),
        },
{
    match outcome {
        None => "No tool executor available".to_owned(),
        Some(Ok(j)) => j,
        Some(Err(e)) => {
            let text = e.describe();
            concat_str("Tool error: ", text.as_str())
        },
    }
}

// ── The run ───────────────────────────────────────────────────────────

/// What happened in a step.
#[derive(Debug, Clone)]
pub enum StepKind {
    /// The model produced a text response.
    Response { content: String },
    /// The model requested a tool call, which was executed.
    ToolCall { tool_name: String, args: Vec<(String, JsonValue)>, result: String },
}

/// A single step in the execution trace.
#[derive(Debug, Clone)]
pub struct ExecutionStep {
    pub step_index: usize,
    pub kind: StepKind,
    pub usage: TokenUsage,
}

/// Final result of running an agent to completion.
#[derive(Debug, Clone)]
pub struct ExecutionResult {
    /// The final assistant response (empty when the model never answered).
    pub response: String,
    /// Complete execution trace.
    pub steps: Vec<ExecutionStep>,
    /// Aggregated token usage.
    pub total_usage: TokenUsage,
    /// Whether the agent hit the step limit.
    pub truncated: bool,
}

/// Prompt tokens summed over steps.
pub open spec fn prompt_sum(steps: Seq<ExecutionStep>) -> int
    decreases steps.len(),
{
    if steps.len() == 0 {
        0
    } else {
        prompt_sum(steps.drop_last()) + steps.last().usage.prompt_tokens
    }
}

/// Completion tokens summed over steps.
pub open spec fn completion_sum(steps: Seq<ExecutionStep>) -> int
    decreases steps.len(),
{
    if steps.len() == 0 {
        0
    } else {
        completion_sum(steps.drop_last()) + steps.last().usage.completion_tokens
    }
}

/// Each step carries its own position.
pub open spec fn steps_indexed(steps: Seq<ExecutionStep>) -> bool {
    forall|i: int| 0 <= i < steps.len() ==> #[trigger] steps[i].step_index == i
}

/// Every step but the last is a tool call.
pub open spec fn tool_calls_before_last(steps: Seq<ExecutionStep>) -> bool {
    forall|i: int| 0 <= i < steps.len() - 1 ==> #[trigger] steps[i].kind is ToolCall
}

/// Every step is a tool call.
pub open spec fn all_tool_calls(steps: Seq<ExecutionStep>) -> bool {
    forall|i: int| 0 <= i < steps.len() ==> #[trigger] steps[i].kind is ToolCall
}

/// A finished run's result is its trace: steps carry their positions, at
/// most `max_steps` of them; every step but the last is a tool call; the
/// response is the last step's when that one is an answer, and empty
/// otherwise; the total usage is the sum over the steps; and the run is
/// truncated exactly when the limit was reached without an answer.
pub open spec fn result_consistent(r: ExecutionResult, max_steps: nat) -> bool {
    let steps = r.steps@;
    &&& steps_indexed(steps)
    &&& steps.len() <= max_steps
    &&& tool_calls_before_last(steps)
    &&& r.total_usage.prompt_tokens == prompt_sum(steps)
    &&& r.total_usage.completion_tokens == completion_sum(steps)
    &&& if steps.len() > 0 && steps.last().kind is Response {
        &&& steps.last().kind matches StepKind::Response { content } && r.response@ == content@
        &&& !r.truncated
    } else {
        &&& r.response@.len() == 0
        &&& r.truncated == (max_steps > 0)
        &&& steps.len() == max_steps
    }
}

/// What the caller of a run does next.
#[derive(Debug, Clone)]
pub enum RunAction {
    /// Execute this tool with these arguments and hand
    /// the outcome to [`AgentRun::on_tool_result`].
    CallTool { tool_name: String, args: Vec<(String, JsonValue)> },
    /// The model answered; the run is over.
    Finished,
}

/// A tool call requested by the model and not yet answered.
#[derive(Debug, Clone)]
struct PendingCall {
    message: Message,
    usage: TokenUsage,
    tool_name: String,
    args: Vec<(String, JsonValue)>,
}

/// The state of one agent run.
#[derive(Debug)]
pub struct AgentRun {
    steps: Vec<ExecutionStep>,
    total_prompt: u32,
    total_completion: u32,
    response: String,
    answered: bool,
    max_steps: usize,
    pending: Option<PendingCall>,
}

impl AgentRun {
    /// The steps taken so far.
    pub closed spec fn steps(&self) -> Seq<ExecutionStep> {
        self.steps@
    }

    /// Prompt tokens used so far.
    pub closed spec fn prompt_total(&self) -> u32 {
        self.total_prompt
    }

    /// Completion tokens used so far.
    pub closed spec fn completion_total(&self) -> u32 {
        self.total_completion
    }

    /// The step limit.
    pub closed spec fn limit(&self) -> nat {
        self.max_steps as nat
    }

    /// The model has given its answer.
    pub closed spec fn answered(&self) -> bool {
        self.answered
    }

    /// A requested tool call awaits its outcome.
    pub closed spec fn awaiting_tool(&self) -> bool {
        self.pending is Some
    }

    /// The tool call awaiting its outcome: the model's message, its usage,
    /// the tool's name and the arguments.
    pub closed spec fn pending_call(&self) -> (Message, TokenUsage, Seq<char>, Seq<(Seq<char>, JsonData)>) {
        match self.pending {
            Some(p) => (p.message, p.usage, p.tool_name@, members_view(p.args@)),
            None => arbitrary(),
        }
    }

    /// The run wants another completion from the model.
    pub open spec fn wants_more(&self) -> bool {
        !self.answered() && !self.awaiting_tool() && self.steps().len() < self.limit()
    }

    /// The state's invariant.
    pub closed spec fn wf(&self) -> bool {
        let pending_prompt: int = match self.pending {
            Some(p) => p.usage.prompt_tokens as int,
            None => 0,
        };
        let pending_completion: int = match self.pending {
            Some(p) => p.usage.completion_tokens as int,
            None => 0,
        };
        &&& steps_indexed(self.steps@)
        &&& self.steps@.len() <= self.max_steps
        &&& self.total_prompt == prompt_sum(self.steps@) + pending_prompt
        &&& self.total_completion == completion_sum(self.steps@) + pending_completion
        &&& self.pending is Some ==> !self.answered && self.steps@.len() < self.max_steps
        &&& if self.answered {
            &&& self.steps@.len() > 0
            &&& tool_calls_before_last(self.steps@)
            &&& self.steps@.last().kind matches StepKind::Response { content } && self.response@ == content@
        } else {
            &&& all_tool_calls(self.steps@)
            &&& self.response@.len() == 0
        }
    }

    /// A run that has taken no step yet.
    pub fn new(config: &ExecutionConfig) -> (r: Self)
        ensures
            r.wf(),
            r.steps().len() == 0,
            r.prompt_total() == 0,
            r.completion_total() == 0,
            r.limit() == config.max_steps,
            !r.answered(),
            !r.awaiting_tool(),
    {
        AgentRun {
            steps: Vec::new(),
            total_prompt: 0,
            total_completion: 0,
            response: String::new(),
            answered: false,
            max_steps: config.max_steps,
            pending: None,
        }
    }

    /// Whether the run wants another completion.
    pub fn wants_completion(&self) -> (r: bool)
        ensures
            r == self.wants_more(),
    {
        !self.answered && self.pending.is_none() && self.steps.len() < self.max_steps
    }

    /// Prompt and completion tokens used so far.
    pub fn usage_so_far(&self) -> (r: TokenUsage)
        ensures
            r.prompt_tokens == self.prompt_total(),
            r.completion_tokens == self.completion_total(),
    {
        TokenUsage { prompt_tokens: self.total_prompt, completion_tokens: self.total_completion }
    }

    /// Takes the model's completion.  An answer (stop or length) ends the
    /// run: it is added to the conversation and recorded as the last step.
    /// A tool request is parsed and returned as the tool to call; a request
    /// that cannot be parsed fails the run.
    pub fn on_response(&mut self, conversation: &mut Conversation, response: CompletionResponse) -> (r: Result<
        RunAction,
        Error,
    >)
        requires
            old(self).wf(),
            old(self).wants_more(),
            old(self).prompt_total() + response.usage.prompt_tokens <= u32::MAX,
            old(self).completion_total() + response.usage.completion_tokens <= u32::MAX,
        ensures
            final(self).wf(),
            final(self).limit() == old(self).limit(),
            r is Ok ==> final(self).prompt_total() == old(self).prompt_total()
                + response.usage.prompt_tokens,
            r is Ok ==> final(self).completion_total() == old(self).completion_total()
                + response.usage.completion_tokens,
            r is Err ==> *final(self) == *old(self) && *final(conversation) == *old(conversation),
            response.finish_reason != FinishReason::ToolUse ==> {
                &&& r matches Ok(RunAction::Finished)
                &&& final(self).answered()
                &&& !final(self).awaiting_tool()
                &&& final(self).steps() == old(self).steps().push(
                    ExecutionStep {
                        step_index: old(self).steps().len() as usize,
                        kind: StepKind::Response { content: response.message.content },
                        usage: response.usage,
                    },
                )
                &&& final(conversation).messages@ == old(conversation).messages@.push(response.message)
            },
            response.finish_reason == FinishReason::ToolUse ==> {
                &&& final(self).steps() == old(self).steps()
                &&& !final(self).answered()
                &&& *final(conversation) == *old(conversation)
                &&& tool_call_outcome(
                    json_document(tool_call_source(response.message.content@)),
                    action_view(r),
                )
                &&& r is Ok ==> (r matches Ok(RunAction::CallTool { tool_name, args })
                    && final(self).awaiting_tool()
                    && final(self).pending_call() == (response.message, response.usage, tool_name@, members_view(args@)))
            },
    {
        let index = self.steps.len();
        match response.finish_reason {
            FinishReason::ToolUse => {
                match parse_tool_call(response.message.content.as_str()) {
                    Ok((tool_name, args)) => {
                        let action = RunAction::CallTool { tool_name: tool_name.clone(), args: clone_members(&args) };
                        self.total_prompt = self.total_prompt + response.usage.prompt_tokens;
                        self.total_completion = self.total_completion + response.usage.completion_tokens;
                        self.pending = Some(PendingCall { message: response.message, usage: response.usage, tool_name, args });
                        Ok(action)
                    },
                    Err(e) => Err(e),
                }
            },
            _ => {
                let content = response.message.content.clone();
                let step = ExecutionStep {
                    step_index: index,
                    kind: StepKind::Response { content: content.clone() },
                    usage: response.usage,
                };
                proof {
                    let old_steps = self.steps@;
                    assert(old_steps.push(step).drop_last() =~= old_steps);
                }
                self.total_prompt = self.total_prompt + response.usage.prompt_tokens;
                self.total_completion = self.total_completion + response.usage.completion_tokens;
                self.response = content;
                self.answered = true;
                self.steps.push(step);
                conversation.add_message(response.message);
                Ok(RunAction::Finished)
            },
        }
    }

    /// Takes the outcome of the requested tool call: the model's request and
    /// the tool's answer (with call id `call-<step>`) join the conversation,
    /// and the call is recorded as a step.
    pub fn on_tool_result(&mut self, conversation: &mut Conversation, result: String)
        requires
            old(self).wf(),
            old(self).awaiting_tool(),
        ensures
            final(self).wf(),
            final(self).limit() == old(self).limit(),
            final(self).prompt_total() == old(self).prompt_total(),
            final(self).completion_total() == old(self).completion_total(),
            !final(self).awaiting_tool(),
            !final(self).answered(),
            final(self).steps().len() == old(self).steps().len() + 1,
            final(self).steps().drop_last() == old(self).steps(),
            ({
                let step = final(self).steps().last();
                let (message, usage, tool, args) = old(self).pending_call();
                &&& step.step_index == old(self).steps().len()
                &&& step.usage == usage
                &&& step.kind matches StepKind::ToolCall { tool_name, args: a, result: res }
                    && tool_name@ == tool && members_view(a@) == args && res@ == result@
            }),
            final(conversation).messages@.len() == old(conversation).messages@.len() + 2,
            final(conversation).messages@.take(old(conversation).messages@.len() as int)
                == old(conversation).messages@,
            final(conversation).messages@[old(conversation).messages@.len() as int]
                == old(self).pending_call().0,
            ({
                let answer = final(conversation).messages@.last();
                &&& answer.role == Role::Tool
                &&& answer.content@ == result@
                &&& answer.tool_call_id matches Some(id) && id@ == "call-"@ + decimal(
                    old(self).steps().len(),
                )
            }),
    {
        let index = self.steps.len();
        let pending = self.pending.take();
        match pending {
            Some(call) => {
                let id = concat_str("call-", decimal_string(index).as_str());
                let answer = Message::tool_result(result.as_str(), id.as_str());
                let step = ExecutionStep {
                    step_index: index,
                    kind: StepKind::ToolCall { tool_name: call.tool_name, args: call.args, result },
                    usage: call.usage,
                };
                proof {
                    let old_steps = self.steps@;
                    assert(old_steps.push(step).drop_last() =~= old_steps);
                    let old_msgs = conversation.messages@;
                    assert(old_msgs.push(call.message).push(answer).take(old_msgs.len() as int) =~= old_msgs);
                }
                self.steps.push(step);
                conversation.add_message(call.message);
                conversation.add_message(answer);
            },
            None => {},
        }
    }

    /// The result of a run that is over: the model answered, or the step
    /// limit was reached.
    pub fn finish(self) -> (r: ExecutionResult)
        requires
            self.wf(),
            !self.wants_more(),
            !self.awaiting_tool(),
        ensures
            r.steps@ == self.steps(),
            r.total_usage.prompt_tokens == self.prompt_total(),
            r.total_usage.completion_tokens == self.completion_total(),
            result_consistent(r, self.limit()),
    {
        let truncated = !self.answered && self.max_steps > 0;
        let ghost steps = self.steps@;
        proof {
            if !self.answered {
                if steps.len() > 0 {
                    assert(steps[steps.len() - 1].kind is ToolCall);
                }
            }
        }
        let r = ExecutionResult {
            response: self.response,
            steps: self.steps,
            total_usage: TokenUsage { prompt_tokens: self.total_prompt, completion_tokens: self.total_completion },
            truncated,
        };
        r
    }
}


/// The bytes taken by the blocks of the first `i` tools.
pub open spec fn blocks_len(ts: Seq<ToolDefinition>, i: int) -> int
    decreases i,
{
    if i <= 0 {
        0
    } else {
        blocks_len(ts, i - 1) + tool_text(ts[i - 1]).len()
    }
}

proof fn lemma_blocks_len_prefix(ts: Seq<ToolDefinition>, u: Seq<ToolDefinition>, i: int)
    requires
        0 <= i <= u.len() <= ts.len(),
        forall|k: int| 0 <= k < u.len() ==> u[k] == ts[k],
    ensures
        blocks_len(u, i) == blocks_len(ts, i),
        0 <= blocks_len(ts, i),
    decreases i,
{
    if i > 0 {
        lemma_blocks_len_prefix(ts, u, i - 1);
    }
}

proof fn lemma_blocks_len_mono(ts: Seq<ToolDefinition>, i: int, k: int)
    requires
        0 <= i <= k,
    ensures
        blocks_len(ts, i) <= blocks_len(ts, k),
    decreases k,
{
    if k > i {
        lemma_blocks_len_mono(ts, i, k - 1);
    }
}

/// The tool descriptions describe every tool, in order: they are one block
/// per tool (its name and description line, then its parameter lines),
/// block `i` standing right after the blocks before it, and nothing else.
pub proof fn law_tool_descriptions_describe_every_tool(ts: Seq<ToolDefinition>)
    ensures
        tools_text(ts).len() == blocks_len(ts, ts.len() as int),
        forall|i: int|
            0 <= i < ts.len() ==> tools_text(ts).subrange(blocks_len(ts, i), blocks_len(ts, i + 1)) == tool_text(
                #[trigger] ts[i],
            ),
    decreases ts.len(),
{
    if ts.len() > 0 {
        let dl = ts.drop_last();
        let n = ts.len() as int;
        law_tool_descriptions_describe_every_tool(dl);
        lemma_blocks_len_prefix(ts, dl, n - 1);
        let a = tools_text(dl);
        let b = tool_text(ts.last());
        assert(tools_text(ts) == a + b);
        assert forall|i: int| 0 <= i < n implies tools_text(ts).subrange(blocks_len(ts, i), blocks_len(ts, i + 1)) == tool_text(
            #[trigger] ts[i],
        ) by {
            if i < n - 1 {
                lemma_blocks_len_prefix(ts, dl, i);
                lemma_blocks_len_prefix(ts, dl, i + 1);
                lemma_blocks_len_mono(ts, i + 1, n - 1);
                assert(dl[i] == ts[i]);
                assert(0 <= blocks_len(ts, i));
                assert(tool_text(dl[i]).len() >= 0);
                assert((a + b).subrange(blocks_len(ts, i), blocks_len(ts, i + 1)) =~= a.subrange(
                    blocks_len(dl, i),
                    blocks_len(dl, i + 1),
                ));
            } else {
                assert((a + b).subrange(blocks_len(ts, i), blocks_len(ts, i + 1)) =~= b);
            }
        }
    }
}


/// The bytes taken by the lines of the first `i` parameters.
pub open spec fn lines_len(ps: Seq<(String, ToolParameter)>, i: int) -> int
    decreases i,
{
    if i <= 0 {
        0
    } else {
        lines_len(ps, i - 1) + param_line(ps[i - 1].0@, ps[i - 1].1).len()
    }
}

proof fn lemma_lines_len_prefix(ps: Seq<(String, ToolParameter)>, u: Seq<(String, ToolParameter)>, i: int)
    requires
        0 <= i <= u.len() <= ps.len(),
        forall|k: int| 0 <= k < u.len() ==> u[k] == ps[k],
    ensures
        lines_len(u, i) == lines_len(ps, i),
        0 <= lines_len(ps, i),
    decreases i,
{
    if i > 0 {
        lemma_lines_len_prefix(ps, u, i - 1);
    }
}

proof fn lemma_lines_len_mono(ps: Seq<(String, ToolParameter)>, i: int, k: int)
    requires
        0 <= i <= k,
    ensures
        lines_len(ps, i) <= lines_len(ps, k),
    decreases k,
{
    if k > i {
        lemma_lines_len_mono(ps, i, k - 1);
    }
}

/// A tool's block lists every parameter, in order: after its name and
/// description line come one line per parameter, line `i` right after the
/// lines before it, and nothing else.
pub proof fn law_tool_block_lists_every_parameter(t: ToolDefinition)
    ensures
        tool_text(t) == "- "@ + t.name@ + ": "@ + t.description@ + "\n"@ + params_text(t.parameters@),
        params_text(t.parameters@).len() == lines_len(t.parameters@, t.parameters@.len() as int),
        forall|i: int|
            0 <= i < t.parameters@.len() ==> params_text(t.parameters@).subrange(
                lines_len(t.parameters@, i),
                lines_len(t.parameters@, i + 1),
            ) == param_line((#[trigger] t.parameters@[i]).0@, t.parameters@[i].1),
{
    lemma_params_lines(t.parameters@);
}

proof fn lemma_params_lines(ps: Seq<(String, ToolParameter)>)
    ensures
        params_text(ps).len() == lines_len(ps, ps.len() as int),
        forall|i: int|
            0 <= i < ps.len() ==> params_text(ps).subrange(lines_len(ps, i), lines_len(ps, i + 1)) == param_line(
                (#[trigger] ps[i]).0@,
                ps[i].1,
            ),
    decreases ps.len(),
{
    if ps.len() > 0 {
        let dl = ps.drop_last();
        let n = ps.len() as int;
        lemma_params_lines(dl);
        lemma_lines_len_prefix(ps, dl, n - 1);
        let a = params_text(dl);
        let b = param_line(ps.last().0@, ps.last().1);
        assert(params_text(ps) == a + b);
        assert forall|i: int| 0 <= i < n implies params_text(ps).subrange(lines_len(ps, i), lines_len(ps, i + 1))
            == param_line((#[trigger] ps[i]).0@, ps[i].1) by {
            if i < n - 1 {
                lemma_lines_len_prefix(ps, dl, i);
                lemma_lines_len_prefix(ps, dl, i + 1);
                lemma_lines_len_mono(ps, i + 1, n - 1);
                assert(dl[i] == ps[i]);
                assert((a + b).subrange(lines_len(ps, i), lines_len(ps, i + 1)) =~= a.subrange(
                    lines_len(dl, i),
                    lines_len(dl, i + 1),
                ));
            } else {
                assert((a + b).subrange(lines_len(ps, i), lines_len(ps, i + 1)) =~= b);
            }
        }
    }
}

} // verus!
