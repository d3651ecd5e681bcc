use nous::api::ai::{
    backend_failure, chat_answer, chat_conversation_id, check_agent_name, check_chat_message, no_backend, now_rfc3339, open_chat,
    ConversationResponse, ListConversationsQuery, MessageResponse,
};
use nous::api::config::{ApiConfig, NostrConfig};
use nous::api::events::RealtimeEvent;
use nous::api::files::UploadRequest;
use nous::api::governance::{
    admit_proposal, check_proposal, parse_scope, Choice, CreateDaoRequest, DelegationFilter, DelegationQuery, CreateDelegationRequest, DelegationScope,
    QueueExecutionRequest, SimpleVoteRequest,
};
use nous::api::marketplace::{
    split_tags, CreateOfferRequest, CreateOrderRequest, DisputeQuery, OfferQuery, OrderQuery, ReviewQuery,
    SearchQueryParams,
};
use nous::api::messaging::{ChannelPlan, CreateChannelRequest, MessageQuery, SendMessageRequest};
use nous::api::middleware::RateLimiter;
use nous::api::node::{health, node_info, overall_health, subsystem_report, ConnectPeerRequest, SubsystemCounts, SubsystemHealth, SubsystemStatus};
use nous::api::payments::{CreateInvoiceRequest, CreateWalletRequest, CreditRequest, InvoiceQuery, LineItemRequest, TransactionQuery};
use nous::api::social::{page_limit, CreatePostRequest};
use nous::conversation::Role;
use nous::error::{ApiError, Error};

#[test]
fn config_default_config() {
    let config = ApiConfig::default();
    assert_eq!(config.port, 8080);
    assert!(config.enable_graphql);
    assert!(config.enable_grpc);
    assert_eq!(config.host, "0.0.0.0");
    assert_eq!(config.rate_limit_rpm, 600);
}

#[test]
fn nostr_config_defaults() {
    let config = NostrConfig::default();
    assert_eq!(config.port, 9735);
    assert_eq!(config.max_events, 100_000);
    assert_eq!(config.max_subscriptions_per_client, 20);
}

#[test]
fn status_codes() {
    assert_eq!(ApiError::bad_request("x").status, 400);
    assert_eq!(ApiError::unauthorized("x").status, 401);
    assert_eq!(ApiError::internal("x").status, 500);
    assert_eq!(ApiError::not_found("x").status, 404);
    assert_eq!(ApiError::service_unavailable("x").status, 503);
}

#[test]
fn from_core_error() {
    let api_err = ApiError::from_error(Error::NotFound("user".into()));
    assert_eq!(api_err.status, 404);
    assert_eq!(api_err.message, "user");
    let other = ApiError::from_error(Error::Storage("disk".into()));
    assert_eq!(other.status, 500);
    assert_eq!(other.message, "storage error: disk");
    assert_eq!(ApiError::from_error(Error::PermissionDenied("no".into())).status, 401);
    assert_eq!(ApiError::from_error(Error::InvalidInput("bad".into())).status, 400);
}

#[test]
fn rate_limiter_allows_under_limit() {
    let mut limiter = RateLimiter::new(10);
    assert!(limiter.check());
    assert_eq!(limiter.remaining(), 9);
}

#[test]
fn rate_limiter_blocks_over_limit() {
    let mut limiter = RateLimiter::new(3);
    assert!(limiter.check());
    assert!(limiter.check());
    assert!(limiter.check());
    assert!(!limiter.check());
}

#[test]
fn rate_limiter_remaining() {
    let mut limiter = RateLimiter::new(100);
    assert_eq!(limiter.remaining(), 100);
    limiter.check();
    limiter.check();
    assert_eq!(limiter.remaining(), 98);
}

#[test]
fn rate_limiter_window_slides() {
    let second: u128 = 1_000_000_000;
    let mut limiter = RateLimiter::new(2);
    assert!(limiter.check_at(0));
    assert!(limiter.check_at(30 * second));
    assert!(!limiter.check_at(60 * second - 1));
    assert_eq!(limiter.remaining_at(60 * second - 1), 0);
    assert_eq!(limiter.remaining_at(60 * second), 1);
    assert!(limiter.check_at(60 * second));
    assert_eq!(limiter.remaining_at(60 * second), 0);
    assert_eq!(limiter.remaining_at(200 * second), 2);
}

#[test]
fn health_and_node_info() {
    let h = health("1.2.3");
    assert_eq!(h.status, "ok");
    assert_eq!(h.version, "1.2.3");
    assert_eq!(h.uptime_ms, 0);
    let info = node_info("1.2.3");
    assert_eq!(info.protocol, "nous");
    assert_eq!(info.features, vec!["identity", "messaging", "social", "governance", "payments", "marketplace"]);
}

#[test]
fn subsystems_report_counts_and_health() {
    let counts = SubsystemCounts { peers: 0, identities: 2, channels: 3, daos: 1, wallets: 0, feed_events: 7, agents: 1, files: 4 };
    let r = subsystem_report(&counts);
    assert_eq!(r.subsystems.len(), 8);
    assert_eq!(r.subsystems[0].name, "networking");
    assert_eq!(r.subsystems[0].status, SubsystemHealth::Degraded);
    assert_eq!(r.subsystems[0].message.as_deref(), Some("0 connected peers"));
    assert_eq!(r.subsystems[1].message, None);
    assert_eq!(r.subsystems[5].message.as_deref(), Some("7 events in feed"));
    assert_eq!(r.overall, SubsystemHealth::Degraded);
    let all = SubsystemCounts { peers: 12, identities: 1, channels: 0, daos: 0, wallets: 0, feed_events: 0, agents: 0, files: 0 };
    let r2 = subsystem_report(&all);
    assert_eq!(r2.overall, SubsystemHealth::Healthy);
    assert_eq!(r2.subsystems[0].message.as_deref(), Some("12 connected peers"));
}

#[test]
fn overall_health_prefers_down() {
    let s = |h: SubsystemHealth| SubsystemStatus { name: "x".into(), status: h, active_count: 0, message: None };
    assert_eq!(overall_health(&[s(SubsystemHealth::Degraded), s(SubsystemHealth::Down)]), SubsystemHealth::Down);
    assert_eq!(overall_health(&[s(SubsystemHealth::Healthy), s(SubsystemHealth::Degraded)]), SubsystemHealth::Degraded);
    assert_eq!(overall_health(&[]), SubsystemHealth::Healthy);
}

#[test]
fn connect_peer_empty_multiaddr_rejected() {
    let err = ConnectPeerRequest { multiaddr: String::new() }.validate().unwrap_err();
    assert_eq!(err.status, 400);
    assert_eq!(err.message, "multiaddr cannot be empty");
    assert!(ConnectPeerRequest { multiaddr: "/ip4/1.2.3.4/tcp/1".into() }.validate().is_ok());
}

#[test]
fn empty_content_rejected() {
    let post = CreatePostRequest { author_did: "did:a".into(), content: String::new(), reply_to: None, hashtags: None };
    assert_eq!(post.validate().unwrap_err().message, "content cannot be empty");
    let long = CreatePostRequest { author_did: "did:a".into(), content: "é".repeat(5001), reply_to: None, hashtags: None };
    assert_eq!(long.validate().unwrap_err().message, "content exceeds maximum length");
    let fits = CreatePostRequest { author_did: "did:a".into(), content: "é".repeat(5000), reply_to: None, hashtags: None };
    assert!(fits.validate().is_ok());
}

#[test]
fn page_limits() {
    assert_eq!(page_limit(None), 50);
    assert_eq!(page_limit(Some(10)), 10);
    assert_eq!(page_limit(Some(1000)), 200);
    assert_eq!(TransactionQuery { limit: Some(500) }.page_limit(), 200);
    assert_eq!(ListConversationsQuery { agent_id: None, limit: None }.limit_or_default(), 50);
}

#[test]
fn wallet_and_amount_checks() {
    assert_eq!(CreateWalletRequest { did: String::new() }.validate().unwrap_err().message, "did is required");
    assert!(CreateWalletRequest { did: "did:a".into() }.validate().is_ok());
    let zero = CreditRequest { token: "NOUS".into(), amount: 0 };
    assert_eq!(zero.validate().unwrap_err().message, "amount must be positive");
}

#[test]
fn invoice_no_items_rejected() {
    let mut req = CreateInvoiceRequest {
        from_did: "a".into(),
        to_did: "b".into(),
        token: "NOUS".into(),
        days_until_due: 0,
        memo: None,
        items: vec![],
    };
    assert_eq!(req.validate().unwrap_err().message, "invoice must have at least one item");
    req.items.push(LineItemRequest { description: "x".into(), quantity: 1, unit_price: 5 });
    assert_eq!(req.validate().unwrap_err().message, "days_until_due must be positive");
    req.days_until_due = 30;
    assert!(req.validate().is_ok());
}

#[test]
fn invoice_query_roles() {
    let q = |role: Option<&str>| InvoiceQuery { did: "me".into(), role: role.map(|r| r.to_string()) };
    assert!(q(Some("sender")).selects("me", "you"));
    assert!(!q(Some("sender")).selects("you", "me"));
    assert!(q(Some("receiver")).selects("you", "me"));
    assert!(q(None).selects("you", "me"));
    assert!(q(Some("whatever")).selects("me", "you"));
    assert!(!q(None).selects("you", "them"));
}

#[test]
fn create_dao_rejects_empty_name() {
    let r = CreateDaoRequest { founder_did: "did:a".into(), name: String::new(), description: String::new() };
    assert_eq!(r.validate().unwrap_err().message, "name cannot be empty");
    let r2 = CreateDaoRequest { founder_did: String::new(), name: "DAO".into(), description: String::new() };
    assert_eq!(r2.validate().unwrap_err().message, "founder_did cannot be empty");
}

#[test]
fn vote_choice_parsing() {
    let v = |voter: &str, c: &str| SimpleVoteRequest { voter_did: voter.into(), choice: c.into(), credits: 1 };
    assert_eq!(v("d", "FOR").parse_choice().unwrap(), Choice::For);
    assert_eq!(v("d", "Against").parse_choice().unwrap(), Choice::Against);
    assert_eq!(v("d", "abstain").parse_choice().unwrap(), Choice::Abstain);
    assert_eq!(v("d", "maybe").parse_choice().unwrap_err().message, "choice must be for, against, or abstain");
    assert_eq!(v("", "for").parse_choice().unwrap_err().message, "voter_did cannot be empty");
}

#[test]
fn delegation_scope_checks() {
    assert!(matches!(parse_scope("dao", "d1"), Ok(DelegationScope::Dao(id)) if id == "d1"));
    assert!(matches!(parse_scope("proposal", "p1"), Ok(DelegationScope::Proposal(id)) if id == "p1"));
    assert_eq!(parse_scope("team", "t").unwrap_err().message, "scope_type must be 'dao' or 'proposal'");
    let req = CreateDelegationRequest { from_did: String::new(), to_did: "b".into(), scope_type: "dao".into(), scope_id: "d".into(), expires_in_hours: None };
    assert_eq!(req.scope().unwrap_err().message, "from_did and to_did are required");
}

#[test]
fn execution_rejects_empty_actions() {
    let req = QueueExecutionRequest { proposal_id: "p".into(), actions: vec![] };
    assert_eq!(req.validate().unwrap_err().message, "at least one action is required");
}

#[test]
fn marketplace_defaults_and_tags() {
    assert_eq!(CreateOrderRequest { listing_id: "l".into(), buyer_did: "b".into(), quantity: None }.quantity_or_default(), 1);
    let offer = CreateOfferRequest { listing_id: "l".into(), buyer_did: "b".into(), amount: 5, token: "NOUS".into(), duration_hours: None, message: None };
    assert_eq!(offer.duration_or_default(), 48);
    assert_eq!(split_tags(" rust, verus ,,x"), vec!["rust", "verus", "", "x"]);
    assert_eq!(split_tags(""), vec![""]);
    let params = SearchQueryParams { text: None, category: None, min_price: None, max_price: None, token: None, seller_did: None, tags: Some("a,b".into()), sort: None, limit: Some(5), offset: None };
    assert_eq!(params.tag_list().unwrap(), vec!["a", "b"]);
    assert_eq!(params.pagination(), Some((5, 0)));
}

#[test]
fn channel_plans() {
    let req = |kind: &str, name: Option<&str>, peer: Option<&str>| CreateChannelRequest {
        creator_did: "me".into(),
        kind: kind.into(),
        name: name.map(|s| s.to_string()),
        peer_did: peer.map(|s| s.to_string()),
        members: None,
    };
    assert!(matches!(req("direct", None, Some("you")).plan(), Ok(ChannelPlan::Direct { peer_did }) if peer_did == "you"));
    assert_eq!(req("direct", None, None).plan().unwrap_err().message, "peer_did required for direct channels");
    assert!(matches!(req("group", Some("g"), None).plan(), Ok(ChannelPlan::Group { name, members }) if name == "g" && members.is_empty()));
    assert_eq!(req("public", None, None).plan().unwrap_err().message, "name required for public channels");
    assert_eq!(req("secret", None, None).plan().unwrap_err().message, "kind must be direct, group, or public");
}

#[test]
fn send_empty_message_rejected() {
    let req = SendMessageRequest { channel_id: "c".into(), sender_did: "s".into(), content: String::new(), reply_to: None };
    assert_eq!(req.validate().unwrap_err().message, "content cannot be empty");
}

#[test]
fn upload_checks_and_decodes() {
    let req = |name: &str, owner: &str, data: &str| UploadRequest { name: name.into(), mime_type: "text/plain".into(), owner: owner.into(), data_base64: data.into() };
    assert_eq!(req("", "o", "").content().unwrap_err().message, "name cannot be empty");
    assert_eq!(req("f", "", "").content().unwrap_err().message, "owner cannot be empty");
    assert_eq!(req("f", "o", "aGVsbG8=").content().unwrap(), b"hello".to_vec());
    let bad = req("f", "o", "!!!").content().unwrap_err();
    assert_eq!(bad.status, 400);
    assert!(bad.message.starts_with("invalid base64: "));
}

#[test]
fn chat_checks() {
    assert_eq!(check_chat_message("  \n").unwrap_err().message, "message cannot be empty");
    assert!(check_chat_message(" hi ").is_ok());
    assert_eq!(check_agent_name("").unwrap_err().message, "agent name cannot be empty");
    let c = open_chat("agent-1", "Be brief.");
    assert_eq!(c.len(), 1);
    assert_eq!(c.messages[0].role, Role::System);
    assert!(open_chat("agent-1", "").is_empty());
}

#[test]
fn conversation_view_renders_times() {
    let c = open_chat("agent-1", "Be brief.");
    let view = ConversationResponse::from_conversation(&c).unwrap();
    assert_eq!(view.agent_id, "agent-1");
    assert_eq!(view.message_count, 1);
    assert!(view.created_at.ends_with("+00:00"));
    let m = MessageResponse::from_message(&c.messages[0]).unwrap();
    assert_eq!(m.role, "system");
}

#[test]
fn sse_event_names() {
    let e = RealtimeEvent::NewPost { id: "1".into(), author: "a".into(), content: "c".into() };
    assert_eq!(e.sse_name(), "new_post");
    let o = RealtimeEvent::OfferMade { id: "1".into(), listing_id: "l".into() };
    assert_eq!(o.sse_name(), "offer_made");
}

#[test]
fn message_window_pages_back_from_before() {
    let ids: Vec<String> = (0..10).map(|i| format!("m{i}")).collect();
    assert_eq!(MessageQuery { limit: Some(3), before: None }.window(&ids), (7, 10));
    assert_eq!(MessageQuery { limit: Some(3), before: Some("m5".into()) }.window(&ids), (2, 5));
    assert_eq!(MessageQuery { limit: Some(30), before: Some("m1".into()) }.window(&ids), (0, 1));
    assert_eq!(MessageQuery { limit: None, before: Some("nope".into()) }.window(&ids), (0, 0));
}

#[test]
fn chat_conversation_ids_and_errors() {
    assert_eq!(chat_conversation_id(Some("conv:1".into())), "conv:1");
    let fresh = chat_conversation_id(None);
    assert!(fresh.starts_with("conv:"));
    assert_eq!(fresh.len(), 41);
    let e = backend_failure(&Error::Other("timeout".into()));
    assert_eq!(e.status, 500);
    assert_eq!(e.message, "inference backend error: timeout");
    assert_eq!(no_backend().status, 503);
}

#[test]
fn proposal_checks() {
    assert_eq!(check_proposal("", "did:a").unwrap_err().message, "title cannot be empty");
    assert_eq!(check_proposal("T", "").unwrap_err().message, "proposer_did cannot be empty");
    assert!(check_proposal("T", "did:a").is_ok());
}

#[test]
fn views_from_rendered_times() {
    let c = open_chat("agent-9", "");
    assert!(ConversationResponse::from_parts(&c, Some("t1".into()), None).is_none());
    let v = ConversationResponse::from_parts(&c, Some("t1".into()), Some("t2".into())).unwrap();
    assert_eq!(v.created_at, "t1");
    assert_eq!(v.updated_at, "t2");
    let m = nous::conversation::Message::tool_result("r", "call-1");
    let mv = MessageResponse::from_parts(&m, Some("t".into())).unwrap();
    assert_eq!(mv.role, "tool");
    let tc = nous::conversation::Message { role: Role::ToolCall, ..m.clone() };
    assert_eq!(MessageResponse::from_parts(&tc, Some("t".into())).unwrap().role, "tool_call");
}

#[test]
fn list_filters() {
    let q = OrderQuery { buyer_did: Some("b".into()), seller_did: None, status: Some("Shipped".into()) };
    assert!(q.selects("b", "s", "shipped"));
    assert!(!q.selects("x", "s", "shipped"));
    assert!(!q.selects("b", "s", "Created"));
    let o = OfferQuery { listing_id: None, buyer_did: None, seller_did: Some("s".into()), status: None };
    assert!(o.selects("l", "b", "s", "Pending"));
    assert!(!o.selects("l", "b", "t", "Pending"));
    let r = ReviewQuery { listing_id: Some("l1".into()), seller_did: None };
    assert!(r.selects("l1", "anyone"));
    assert!(!r.selects("l2", "anyone"));
    let d = DisputeQuery { order_id: None, status: Some("OPEN".into()) };
    assert!(d.selects("o", "Open"));
}

#[test]
fn delegation_query_filters() {
    let q = |st: Option<&str>, si: Option<&str>, f: Option<&str>, t: Option<&str>| DelegationQuery {
        scope_type: st.map(|s| s.to_string()),
        scope_id: si.map(|s| s.to_string()),
        from_did: f.map(|s| s.to_string()),
        to_did: t.map(|s| s.to_string()),
    };
    assert!(matches!(q(Some("dao"), Some("d"), None, None).filter(), DelegationFilter::Scope(DelegationScope::Dao(id)) if id == "d"));
    assert!(matches!(q(Some("team"), Some("d"), Some("a"), None).filter(), DelegationFilter::Nothing));
    assert!(matches!(q(Some("dao"), None, Some("a"), Some("b")).filter(), DelegationFilter::From(x) if x == "a"));
    assert!(matches!(q(None, None, None, Some("b")).filter(), DelegationFilter::To(x) if x == "b"));
    assert!(matches!(q(None, None, None, None).filter(), DelegationFilter::Nothing));
}

fn is_uuid_v4_text(s: &str) -> bool {
    let b = s.as_bytes();
    b.len() == 36
        && b.iter().enumerate().all(|(i, c)| {
            if [8, 13, 18, 23].contains(&i) { *c == b'-' } else { c.is_ascii_digit() || (b'a'..=b'f').contains(c) }
        })
        && b[14] == b'4'
        && matches!(b[19], b'8' | b'9' | b'a' | b'b')
}

#[test]
fn fresh_conversation_id_is_a_uuid() {
    let id = chat_conversation_id(None);
    assert!(id.starts_with("conv:"));
    assert!(is_uuid_v4_text(&id[5..]), "{id}");
    assert_ne!(chat_conversation_id(None), id);
}

#[test]
fn chat_answer_checks_in_order() {
    let conv = open_chat("agent-1", "Be brief.");
    let e = chat_answer("  ", "agent-1", false, None, "c".into(), &conv).unwrap_err();
    assert_eq!((e.status, e.message.as_str()), (400, "message cannot be empty"));
    let e = chat_answer("hi", "agent-9", false, None, "c".into(), &conv).unwrap_err();
    assert_eq!((e.status, e.message.as_str()), (404, "agent agent-9 not found"));
    let e = chat_answer("hi", "agent-1", true, None, "c".into(), &conv).unwrap_err();
    assert_eq!(e.status, 503);
    let e = chat_answer("hi", "agent-1", true, Some(Err(Error::Other("timeout".into()))), "c".into(), &conv).unwrap_err();
    assert_eq!((e.status, e.message.as_str()), (500, "inference backend error: timeout"));
    let r = chat_answer("hi", "agent-1", true, Some(Ok("Hello".into())), "c".into(), &conv).unwrap();
    assert_eq!(r.conversation_id, "c");
    assert_eq!(r.response, "Hello");
    assert_eq!(r.role, "assistant");
    assert_eq!(r.message_count, 1);
}

#[test]
fn now_is_rfc3339() {
    let t = now_rfc3339();
    assert!(chrono::DateTime::parse_from_rfc3339(&t).is_ok(), "{t}");
}

#[test]
fn proposal_admission_order() {
    let e = admit_proposal("", "did:a", "dao-1", false, false, false).unwrap_err();
    assert_eq!((e.status, e.message.as_str()), (400, "title cannot be empty"));
    let e = admit_proposal("T", "did:a", "dao-1", false, false, false).unwrap_err();
    assert_eq!((e.status, e.message.as_str()), (404, "DAO dao-1 not found"));
    let e = admit_proposal("T", "did:a", "dao-1", true, false, false).unwrap_err();
    assert_eq!((e.status, e.message.as_str()), (401, "proposer is not a DAO member"));
    let e = admit_proposal("T", "did:a", "dao-1", true, true, false).unwrap_err();
    assert_eq!((e.status, e.message.as_str()), (404, "identity not found — create one first"));
    assert!(admit_proposal("T", "did:a", "dao-1", true, true, true).is_ok());
}
