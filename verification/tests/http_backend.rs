use nous::conversation::{Conversation, Message, Role};
use nous::error::Error;
use nous::http_backend::{
    chat_messages, completion_from_reply, http_status_error, parse_finish_reason, role_to_string,
    ChatChoice, HttpInferenceBackend,
};
use nous::pipeline::{FinishReason, TokenUsage};

#[test]
fn role_mapping() {
    assert_eq!(role_to_string(Role::System), "system");
    assert_eq!(role_to_string(Role::User), "user");
    assert_eq!(role_to_string(Role::Assistant), "assistant");
    assert_eq!(role_to_string(Role::ToolCall), "assistant");
    assert_eq!(role_to_string(Role::Tool), "tool");
}

#[test]
fn finish_reason_parsing() {
    assert_eq!(parse_finish_reason(Some("stop")), FinishReason::Stop);
    assert_eq!(parse_finish_reason(Some("length")), FinishReason::Length);
    assert_eq!(parse_finish_reason(Some("tool_calls")), FinishReason::ToolUse);
    assert_eq!(parse_finish_reason(None), FinishReason::Stop);
    assert_eq!(parse_finish_reason(Some("unknown")), FinishReason::Stop);
}

#[test]
fn openai_constructor() {
    let backend = HttpInferenceBackend::openai("sk-test", "gpt-4o");
    assert_eq!(backend.model_id(), "gpt-4o");
    assert!(backend.endpoint().contains("openai.com"));
    assert!(backend.supports_tools());
    assert_eq!(backend.authorization().as_deref(), Some("Bearer sk-test"));
}

#[test]
fn ollama_constructor() {
    let backend = HttpInferenceBackend::ollama("llama3");
    assert_eq!(backend.model_id(), "llama3");
    assert!(backend.endpoint().contains("localhost:11434"));
    assert!(backend.api_key().is_empty());
    assert!(backend.authorization().is_none());
}

#[test]
fn wire_messages_follow_conversation() {
    let mut conv = Conversation::new("a");
    conv.add_message(Message::system("You are helpful."));
    conv.add_message(Message::user("Hello"));
    let msgs = chat_messages(&conv);
    assert_eq!(msgs.len(), 2);
    assert_eq!(msgs[0].role, "system");
    assert_eq!(msgs[1].role, "user");
    assert_eq!(msgs[1].content, "Hello");
}

#[test]
fn reply_becomes_completion() {
    let choices = vec![ChatChoice { content: "Hello!".to_string(), finish_reason: Some("length".to_string()) }];
    let c = completion_from_reply(&choices, Some(TokenUsage { prompt_tokens: 10, completion_tokens: 5 })).unwrap();
    assert_eq!(c.message.content, "Hello!");
    assert_eq!(c.message.role, Role::Assistant);
    assert_eq!(c.finish_reason, FinishReason::Length);
    assert_eq!(c.usage.prompt_tokens, 10);
    let c2 = completion_from_reply(&choices, None).unwrap();
    assert_eq!(c2.usage.prompt_tokens, 0);
    assert_eq!(c2.usage.completion_tokens, 0);
}

#[test]
fn reply_without_choices_is_error() {
    match completion_from_reply(&Vec::new(), None) {
        Err(Error::Other(m)) => assert_eq!(m, "no choices in response"),
        _ => panic!("expected an error"),
    }
}

#[test]
fn failed_status_error_text() {
    match http_status_error("404 Not Found", Some("nope")) {
        Error::Other(m) => assert_eq!(m, "inference API returned HTTP 404 Not Found: nope"),
        _ => panic!("expected Other"),
    }
    match http_status_error("500 Internal Server Error", None) {
        Error::Other(m) => assert_eq!(m, "inference API returned HTTP 500 Internal Server Error: unknown error"),
        _ => panic!("expected Other"),
    }
}
