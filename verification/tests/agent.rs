use nous::agent::ToolDefinition;

#[test]
fn tool_definition() {
    let tool = ToolDefinition::new("search", "Search the knowledge base")
        .with_param("query", "string", "The search query", true)
        .with_param("limit", "number", "Max results", false);

    assert_eq!(tool.parameters.len(), 2);
    assert!(tool.parameter("query").unwrap().required);
    assert!(!tool.parameter("limit").unwrap().required);
}

#[test]
fn tool_definition_required_params() {
    let tool = ToolDefinition::new("search", "Search")
        .with_param("query", "string", "The query", true)
        .with_param("limit", "number", "Max results", false)
        .with_param("filter", "string", "Filter expression", true);

    let required = tool.required_params();
    assert_eq!(required.len(), 2);
    assert!(required.contains(&"query"));
    assert!(required.contains(&"filter"));
}

#[test]
fn tool_definition_param_replaced() {
    let tool = ToolDefinition::new("search", "Search")
        .with_param("query", "string", "The query", true)
        .with_param("query", "number", "Changed", false);
    assert_eq!(tool.parameter_count(), 1);
    let p = tool.parameter("query").unwrap();
    assert_eq!(p.param_type, "number");
    assert!(!p.required);
    assert!(tool.required_params().is_empty());
}

#[test]
fn tool_registry_register_and_lookup() {
    let mut reg: nous::agent::ToolRegistry<u32> = nous::agent::ToolRegistry::new();
    reg.register(ToolDefinition::new("echo", "Echo input"), 1);
    assert!(reg.has_tool("echo"));
    assert!(!reg.has_tool("missing"));
    assert_eq!(reg.len(), 1);
    assert_eq!(reg.get_definition("echo").unwrap().description, "Echo input");
    assert_eq!(reg.get_handler("echo"), Some(&1));
}

#[test]
fn tool_registry_replaces_and_removes() {
    let mut reg: nous::agent::ToolRegistry<&str> = nous::agent::ToolRegistry::new();
    reg.register(ToolDefinition::new("a", "first"), "h1");
    reg.register(ToolDefinition::new("b", "second"), "h2");
    reg.register(ToolDefinition::new("a", "replaced"), "h3");
    assert_eq!(reg.len(), 2);
    assert_eq!(reg.tool_names(), vec!["a", "b"]);
    assert_eq!(reg.get_definition("a").unwrap().description, "replaced");
    assert_eq!(reg.get_handler("a"), Some(&"h3"));
    assert!(reg.remove("a"));
    assert!(!reg.remove("a"));
    assert_eq!(reg.tool_names(), vec!["b"]);
    assert_eq!(reg.definitions().len(), 1);
    assert!(!reg.is_empty());
}
