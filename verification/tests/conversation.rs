use nous::conversation::{Conversation, Message, Role};

#[test]
fn message_roles() {
    let sys = Message::system("you are helpful");
    assert_eq!(sys.role, Role::System);

    let user = Message::user("hello");
    assert_eq!(user.role, Role::User);

    let asst = Message::assistant("hi there");
    assert_eq!(asst.role, Role::Assistant);

    let tool = Message::tool_result("result", "call-1");
    assert_eq!(tool.role, Role::Tool);
    assert_eq!(tool.tool_call_id.as_deref(), Some("call-1"));
}

#[test]
fn conversation_basics() {
    let mut conv = Conversation::new("agent-1");
    assert!(conv.is_empty());

    conv.add_message(Message::system("system prompt"));
    conv.add_message(Message::user("hello"));
    conv.add_message(Message::assistant("hi"));

    assert_eq!(conv.len(), 3);
    assert_eq!(conv.last_message().unwrap().role, Role::Assistant);
}

#[test]
fn messages_by_role() {
    let mut conv = Conversation::new("agent-1");
    conv.add_message(Message::user("q1"));
    conv.add_message(Message::assistant("a1"));
    conv.add_message(Message::user("q2"));
    conv.add_message(Message::assistant("a2"));

    assert_eq!(conv.messages_by_role(Role::User).len(), 2);
    assert_eq!(conv.messages_by_role(Role::Assistant).len(), 2);
    assert_eq!(conv.messages_by_role(Role::System).len(), 0);
}

#[test]
fn token_estimate() {
    let msg = Message::user(&"a".repeat(400));
    assert_eq!(msg.token_estimate(), 100);
}

#[test]
fn token_estimate_counts_bytes() {
    let msg = Message::user("ééé");
    assert_eq!(msg.token_estimate(), 1);
}

#[test]
fn truncate_keeps_system() {
    let mut conv = Conversation::new("agent-1");
    conv.add_message(Message::system("system"));
    for i in 0..100 {
        conv.add_message(Message::user(&format!("msg {i}")));
    }

    let truncated = conv.truncate_to_tokens(50);
    assert!(truncated.iter().any(|m| m.role == Role::System));
    assert!(truncated.len() < conv.len());
}

#[test]
fn truncate_keeps_newest_within_budget() {
    let mut conv = Conversation::new("agent-1");
    conv.add_message(Message::system("sys!"));
    conv.add_message(Message::user("aaaaaaaa"));
    conv.add_message(Message::user("bbbbbbbb"));
    conv.add_message(Message::user("cccccccc"));
    let kept = conv.truncate_to_tokens(5);
    let texts: Vec<&str> = kept.iter().map(|m| m.content.as_str()).collect();
    assert_eq!(texts, vec!["sys!", "bbbbbbbb", "cccccccc"]);
}

#[test]
fn total_tokens_estimate_sums_messages() {
    let mut conv = Conversation::new("agent-1");
    conv.add_message(Message::user(&"a".repeat(40)));
    conv.add_message(Message::assistant(&"b".repeat(9)));
    assert_eq!(conv.total_tokens_estimate(), 12);
}

#[test]
fn unique_message_ids() {
    let m1 = Message::user("a");
    let m2 = Message::user("a");
    assert_ne!(m1.id, m2.id);
    assert_eq!(m1.id.len(), 36);
}

#[test]
fn truncate_keeps_a_suffix_not_any_subset() {
    let mut conv = Conversation::new("agent-1");
    conv.add_message(Message::system("sys!"));
    conv.add_message(Message::user("a"));
    conv.add_message(Message::user(&"b".repeat(20)));
    conv.add_message(Message::user("cccccccc"));
    let kept = conv.truncate_to_tokens(4);
    let texts: Vec<&str> = kept.iter().map(|m| m.content.as_str()).collect();
    assert_eq!(texts, vec!["sys!", "cccccccc"]);
}
