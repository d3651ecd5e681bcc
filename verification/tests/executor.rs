use nous::agent::ToolDefinition;
use nous::conversation::{Conversation, Message, Role};
use nous::error::Error;
use nous::executor::{
    extract_json, format_tool_descriptions, parse_tool_call, prepare_conversation,
    tool_result_text, AgentRun, ExecutionConfig, RunAction, StepKind,
};
use nous::json::JsonValue;
use nous::pipeline::{CompletionResponse, FinishReason, TokenUsage};

fn mock_response(content: &str, reason: FinishReason) -> CompletionResponse {
    CompletionResponse {
        message: Message::assistant(content),
        usage: TokenUsage { prompt_tokens: 10, completion_tokens: 5 },
        finish_reason: reason,
    }
}

/// The string value of the argument `key`, if it is a string.
fn string_arg<'a>(args: &'a [(String, JsonValue)], key: &str) -> Option<&'a str> {
    args.iter().find(|(k, _)| k == key).and_then(|(_, v)| match v {
        JsonValue::Str(s) => Some(s.as_str()),
        _ => None,
    })
}

/// The test tools: `search` and `calculate` answer, any other tool is unknown.
fn mock_tool(tool_name: &str, args: &[(String, JsonValue)]) -> Result<String, Error> {
    match tool_name {
        "search" => {
            let query = string_arg(args, "query").unwrap_or("unknown");
            Ok(format!("{{\"results\":[{{\"query\":\"{query}\",\"title\":\"Result for query\"}}]}}"))
        }
        "calculate" => {
            let expr = string_arg(args, "expression").unwrap_or("0");
            Ok(format!("{{\"result\":\"{expr}\",\"value\":42}}"))
        }
        _ => Err(Error::NotFound(format!("unknown tool: {tool_name}"))),
    }
}

/// Drives a run with scripted model replies and the test tools.
fn drive(conv: &mut Conversation, replies: Vec<CompletionResponse>, config: &ExecutionConfig) -> nous::executor::ExecutionResult {
    let mut run = AgentRun::new(config);
    let mut replies = replies.into_iter();
    while run.wants_completion() {
        let reply = replies.next().expect("script exhausted");
        match run.on_response(conv, reply).unwrap() {
            RunAction::CallTool { tool_name, args } => {
                let text = tool_result_text(Some(mock_tool(&tool_name, &args)));
                run.on_tool_result(conv, text);
            }
            RunAction::Finished => {}
        }
    }
    run.finish()
}

#[test]
fn extract_json_from_text() {
    let text = "Some text before {\"key\": \"value\"} after";
    let extracted = extract_json(text).unwrap();
    assert_eq!(extracted, "{\"key\": \"value\"}");
}

#[test]
fn extract_json_prefers_fenced_block() {
    let text = "x {\"a\":1} ```json\n  {\"b\": 2}\n``` {\"c\":3}";
    assert_eq!(extract_json(text).unwrap(), "{\"b\": 2}");
}

#[test]
fn extract_json_none_without_braces() {
    assert!(extract_json("no json } here {").is_none());
    assert!(extract_json("plain").is_none());
}

#[test]
fn config_default() {
    let config = ExecutionConfig::default();
    assert_eq!(config.max_steps, 16);
    assert!(config.inject_tools);
}

#[test]
fn parse_tool_call_basic() {
    let (name, args) = parse_tool_call(r#"{"tool": "search", "args": {"query": "hello"}}"#).unwrap();
    assert_eq!(name, "search");
    assert_eq!(string_arg(&args, "query"), Some("hello"));
}

#[test]
fn parse_tool_call_with_markdown() {
    let content = "Let me search:\n```json\n{\"tool\": \"search\", \"args\": {\"query\": \"test\"}}\n```";
    let (name, _) = parse_tool_call(content).unwrap();
    assert_eq!(name, "search");
}

#[test]
fn parse_tool_call_no_args() {
    let (name, args) = parse_tool_call(r#"{"tool": "list"}"#).unwrap();
    assert_eq!(name, "list");
    assert!(args.is_empty());
}

#[test]
fn parse_tool_call_invalid_json() {
    assert!(parse_tool_call("not json at all").is_err());
}

#[test]
fn parse_tool_call_missing_tool_field() {
    match parse_tool_call(r#"{"args": {}}"#) {
        Err(Error::Other(m)) => assert_eq!(m, "tool call missing 'tool' field"),
        other => panic!("unexpected: {other:?}"),
    }
    match parse_tool_call("{oops}") {
        Err(Error::Other(m)) => assert!(m.starts_with("failed to parse tool call: ")),
        other => panic!("unexpected: {other:?}"),
    }
}

#[test]
fn tool_descriptions_format() {
    let tools = vec![ToolDefinition::new("search", "Search the knowledge base").with_param(
        "query",
        "string",
        "The search query",
        true,
    )];
    assert_eq!(
        format_tool_descriptions(&tools),
        "- search: Search the knowledge base\n  - query (string, required): The search query\n"
    );
}

#[test]
fn system_prompt_injected() {
    let tools = vec![ToolDefinition::new("search", "Search").with_param("q", "string", "Query", false)];
    let mut conv = Conversation::new("test");
    prepare_conversation(&mut conv, "You are Nous.", Some(&tools), &ExecutionConfig::default());
    let result = drive(&mut conv, vec![mock_response("OK", FinishReason::Stop)], &ExecutionConfig::default());
    assert_eq!(result.response, "OK");
    let system_msgs = conv.messages_by_role(Role::System);
    assert_eq!(system_msgs.len(), 1);
    assert!(system_msgs[0].content.contains("You are Nous."));
    assert!(system_msgs[0].content.contains("Available tools:"));
    assert_eq!(
        system_msgs[0].content,
        "You are Nous.\n\nAvailable tools:\n- search: Search\n  - q (string, optional): Query\n"
    );
}

#[test]
fn system_prompt_not_injected_into_started_conversation() {
    let mut conv = Conversation::new("test");
    conv.add_message(Message::user("Hi"));
    prepare_conversation(&mut conv, "You are Nous.", None, &ExecutionConfig::default());
    assert_eq!(conv.len(), 1);
}

#[test]
fn simple_response() {
    let mut conv = Conversation::new("test");
    conv.add_message(Message::user("Hi"));
    let result = drive(
        &mut conv,
        vec![mock_response("Hello! How can I help?", FinishReason::Stop)],
        &ExecutionConfig::default(),
    );
    assert_eq!(result.response, "Hello! How can I help?");
    assert_eq!(result.steps.len(), 1);
    assert!(!result.truncated);
    assert!(matches!(result.steps[0].kind, StepKind::Response { .. }));
}

#[test]
fn tool_call_then_response() {
    let mut conv = Conversation::new("test");
    conv.add_message(Message::user("Describe the architecture"));
    let result = drive(
        &mut conv,
        vec![
            mock_response(r#"{"tool": "search", "args": {"query": "Nous architecture"}}"#, FinishReason::ToolUse),
            mock_response("Based on the search results, Nous uses a modular architecture.", FinishReason::Stop),
        ],
        &ExecutionConfig::default(),
    );
    assert_eq!(result.steps.len(), 2);
    assert!(matches!(result.steps[0].kind, StepKind::ToolCall { .. }));
    assert!(matches!(result.steps[1].kind, StepKind::Response { .. }));
    assert!(result.response.contains("modular architecture"));
    let tool_msg = &conv.messages[2];
    assert_eq!(tool_msg.role, Role::Tool);
    assert_eq!(tool_msg.tool_call_id.as_deref(), Some("call-0"));
    assert_eq!(conv.len(), 4);
}

#[test]
fn max_steps_truncation() {
    let responses: Vec<_> = (0..5)
        .map(|_| mock_response(r#"{"tool": "search", "args": {"query": "loop"}}"#, FinishReason::ToolUse))
        .collect();
    let mut conv = Conversation::new("test");
    conv.add_message(Message::user("Go"));
    let config = ExecutionConfig { max_steps: 3, inject_tools: false };
    let result = drive(&mut conv, responses, &config);
    assert!(result.truncated);
    assert_eq!(result.steps.len(), 3);
    for (i, step) in result.steps.iter().enumerate() {
        assert_eq!(step.step_index, i);
    }
}

#[test]
fn token_usage_aggregation() {
    let mut conv = Conversation::new("test");
    conv.add_message(Message::user("Go"));
    let result = drive(
        &mut conv,
        vec![
            mock_response(r#"{"tool": "search", "args": {"query": "x"}}"#, FinishReason::ToolUse),
            mock_response("Final.", FinishReason::Stop),
        ],
        &ExecutionConfig { max_steps: 10, inject_tools: false },
    );
    assert_eq!(result.total_usage.prompt_tokens, 20);
    assert_eq!(result.total_usage.completion_tokens, 10);
    assert_eq!(result.total_usage.total(), 30);
}

#[test]
fn tool_error_handled() {
    let mut conv = Conversation::new("test");
    conv.add_message(Message::user("Try something"));
    let result = drive(
        &mut conv,
        vec![
            mock_response(r#"{"tool": "nonexistent", "args": {}}"#, FinishReason::ToolUse),
            mock_response("I got an error.", FinishReason::Stop),
        ],
        &ExecutionConfig { max_steps: 10, inject_tools: false },
    );
    if let StepKind::ToolCall { result: res, .. } = &result.steps[0].kind {
        assert!(res.contains("Tool error"));
        assert_eq!(res, "Tool error: not found: unknown tool: nonexistent");
    } else {
        panic!("expected tool call step");
    }
    assert_eq!(result.response, "I got an error.");
}

#[test]
fn tool_result_text_without_executor() {
    assert_eq!(tool_result_text(None), "No tool executor available");
}

#[test]
fn multiple_tool_calls() {
    let mut conv = Conversation::new("test");
    conv.add_message(Message::user("Research and calculate"));
    let result = drive(
        &mut conv,
        vec![
            mock_response(r#"{"tool": "search", "args": {"query": "identity"}}"#, FinishReason::ToolUse),
            mock_response(r#"{"tool": "calculate", "args": {"expression": "2+2"}}"#, FinishReason::ToolUse),
            mock_response("Done researching.", FinishReason::Stop),
        ],
        &ExecutionConfig::default(),
    );
    assert_eq!(result.steps.len(), 3);
    assert_eq!(result.response, "Done researching.");
    assert!(!result.truncated);
    match &result.steps[1].kind {
        StepKind::ToolCall { tool_name, args, result } => {
            assert_eq!(tool_name, "calculate");
            assert_eq!(string_arg(args, "expression"), Some("2+2"));
            assert_eq!(result, "{\"result\":\"2+2\",\"value\":42}");
        }
        other => panic!("unexpected: {other:?}"),
    }
}

#[test]
fn tool_call_arguments_keep_their_json_types() {
    let (name, args) =
        parse_tool_call(r#"{"args": {"n": 3, "flag": true, "list": [1, "a"], "obj": {"k": null}}, "tool": "t"}"#).unwrap();
    assert_eq!(name, "t");
    assert_eq!(args.len(), 4);
    let get = |k: &str| &args.iter().find(|(key, _)| key == k).unwrap().1;
    assert!(matches!(get("n"), JsonValue::Number(n) if n == "3"));
    assert!(matches!(get("flag"), JsonValue::Bool(true)));
    match get("list") {
        JsonValue::Array(items) => {
            assert_eq!(items.len(), 2);
            assert!(matches!(&items[1], JsonValue::Str(s) if s == "a"));
        }
        other => panic!("unexpected: {other:?}"),
    }
    match get("obj") {
        JsonValue::Object(ms) => assert!(matches!(&ms[..], [(k, JsonValue::Null)] if k == "k")),
        other => panic!("unexpected: {other:?}"),
    }
}

#[test]
fn tool_call_args_not_an_object_means_no_args() {
    let (name, args) = parse_tool_call(r#"{"tool": "list", "args": [1, 2]}"#).unwrap();
    assert_eq!(name, "list");
    assert!(args.is_empty());
    match parse_tool_call(r#"{"tool": 7}"#) {
        Err(Error::Other(m)) => assert_eq!(m, "tool call missing 'tool' field"),
        other => panic!("unexpected: {other:?}"),
    }
    match parse_tool_call(r#"["tool"]"#) {
        Err(Error::Other(m)) => assert_eq!(m, "tool call missing 'tool' field"),
        other => panic!("unexpected: {other:?}"),
    }
}

#[test]
fn unparsable_tool_request_fails_the_run() {
    let mut conv = Conversation::new("test");
    conv.add_message(Message::user("Go"));
    let mut run = AgentRun::new(&ExecutionConfig::default());
    let outcome = run.on_response(&mut conv, mock_response("no tool here", FinishReason::ToolUse));
    assert!(outcome.is_err());
    assert_eq!(conv.len(), 1);
}

#[test]
fn zero_step_limit_is_not_truncation() {
    let mut conv = Conversation::new("test");
    let result = drive(&mut conv, vec![], &ExecutionConfig { max_steps: 0, inject_tools: false });
    assert!(result.steps.is_empty());
    assert!(!result.truncated);
    assert_eq!(result.response, "");
}
