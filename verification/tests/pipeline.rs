use nous::conversation::{Conversation, Message};
use nous::pipeline::{EchoBackend, FinishReason, Pipeline, PipelineStep, TokenUsage};

#[test]
fn token_usage_total() {
    let usage = TokenUsage { prompt_tokens: 100, completion_tokens: 50 };
    assert_eq!(usage.total(), 150);
}

#[test]
fn pipeline_steps() {
    let mut pipeline = Pipeline::new("analysis");
    pipeline.add_step(PipelineStep::new("extract", "extractor", "raw_text", "entities"));
    pipeline.add_step(PipelineStep::new("summarize", "summarizer", "entities", "summary"));
    assert_eq!(pipeline.step_count(), 2);
}

#[test]
fn finish_reasons() {
    assert_ne!(FinishReason::Stop, FinishReason::Length);
    assert_ne!(FinishReason::Stop, FinishReason::ToolUse);
}

#[test]
fn echo_backend_echoes_user_message() {
    let backend = EchoBackend::new();
    let mut conv = Conversation::new("test");
    conv.add_message(Message::user("hello world"));
    let response = backend.respond(&conv);
    assert_eq!(response.message.content, "hello world");
    assert_eq!(response.finish_reason, FinishReason::Stop);
}

#[test]
fn echo_backend_with_prefix() {
    let backend = EchoBackend::with_prefix("Echo: ");
    let mut conv = Conversation::new("test");
    conv.add_message(Message::user("test input"));
    let response = backend.respond(&conv);
    assert_eq!(response.message.content, "Echo: test input");
}

#[test]
fn echo_backend_no_user_message() {
    let backend = EchoBackend::new();
    let mut conv = Conversation::new("test");
    conv.add_message(Message::system("system prompt"));
    let response = backend.respond(&conv);
    assert_eq!(response.message.content, "(no user message)");
}

#[test]
fn echo_backend_answers_last_user_message_and_counts_tokens() {
    let backend = EchoBackend::new();
    let mut conv = Conversation::new("test");
    conv.add_message(Message::user(&"x".repeat(8)));
    conv.add_message(Message::assistant(&"y".repeat(4)));
    conv.add_message(Message::user("last"));
    let response = backend.respond(&conv);
    assert_eq!(response.message.content, "last");
    assert_eq!(response.usage.prompt_tokens, 4);
    assert_eq!(response.usage.completion_tokens, 1);
}

#[test]
fn echo_backend_model_id() {
    let backend = EchoBackend::new();
    assert_eq!(backend.model_id(), "echo");
    assert!(!backend.supports_tools());
}
