use nous::prompt::{PromptLibrary, PromptTemplate};

fn vars(pairs: &[(&str, &str)]) -> Vec<(String, String)> {
    pairs.iter().map(|(k, v)| (k.to_string(), v.to_string())).collect()
}

#[test]
fn extract_variables() {
    let tmpl = PromptTemplate::new("test", "Hello {{name}}, welcome to {{place}}!");
    assert_eq!(tmpl.variables, vec!["name", "place"]);
}

#[test]
fn extract_no_variables() {
    let tmpl = PromptTemplate::new("test", "No variables here");
    assert!(tmpl.variables.is_empty());
}

#[test]
fn extract_deduplicates() {
    let tmpl = PromptTemplate::new("test", "{{x}} and {{x}} again");
    assert_eq!(tmpl.variables, vec!["x"]);
}

#[test]
fn render_success() {
    let tmpl = PromptTemplate::new("test", "Hello {{name}}, welcome to {{place}}!");
    let v = vars(&[("name", "Alice"), ("place", "Nous")]);
    let result = tmpl.render(&v).unwrap();
    assert_eq!(result, "Hello Alice, welcome to Nous!");
}

#[test]
fn render_missing_variable_fails() {
    let tmpl = PromptTemplate::new("test", "Hello {{name}}!");
    let v: Vec<(String, String)> = Vec::new();
    assert!(tmpl.render(&v).is_err());
}

#[test]
fn render_missing_variable_names_it() {
    let tmpl = PromptTemplate::new("test", "{{a}} and {{b}}");
    let v = vars(&[("a", "1")]);
    let err = tmpl.render(&v).unwrap_err();
    assert_eq!(err.describe(), "invalid input: missing variable: b");
}

#[test]
fn render_partial() {
    let tmpl = PromptTemplate::new("test", "{{greeting}} {{name}}!");
    let v = vars(&[("greeting", "Hello")]);
    let result = tmpl.render_partial(&v);
    assert_eq!(result, "Hello {{name}}!");
}

#[test]
fn render_partial_without_values_is_identity() {
    let tmpl = PromptTemplate::new("test", "{{a}} {b} }}{{ {{c}}");
    let v: Vec<(String, String)> = Vec::new();
    assert_eq!(tmpl.render_partial(&v), "{{a}} {b} }}{{ {{c}}");
}

#[test]
fn has_variable() {
    let tmpl = PromptTemplate::new("test", "{{x}} and {{y}}");
    assert!(tmpl.has_variable("x"));
    assert!(tmpl.has_variable("y"));
    assert!(!tmpl.has_variable("z"));
}

#[test]
fn variable_count() {
    let tmpl = PromptTemplate::new("test", "{{a}} {{b}} {{c}}");
    assert_eq!(tmpl.variable_count(), 3);
}

#[test]
fn with_description() {
    let tmpl = PromptTemplate::new("test", "hi").with_description("A test prompt");
    assert_eq!(tmpl.description.as_deref(), Some("A test prompt"));
}

#[test]
fn library_register_and_get() {
    let mut lib = PromptLibrary::new();
    lib.register(PromptTemplate::new("greet", "Hello {{name}}"));

    assert!(lib.get("greet").is_some());
    assert!(lib.get("missing").is_none());
    assert_eq!(lib.len(), 1);
}

#[test]
fn library_register_replaces_same_name() {
    let mut lib = PromptLibrary::new();
    lib.register(PromptTemplate::new("greet", "Hello {{name}}"));
    lib.register(PromptTemplate::new("greet", "Hi {{who}}"));
    assert_eq!(lib.len(), 1);
    assert_eq!(lib.get("greet").unwrap().template, "Hi {{who}}");
}

#[test]
fn library_render() {
    let mut lib = PromptLibrary::new();
    lib.register(PromptTemplate::new("greet", "Hello {{name}}"));

    let v = vars(&[("name", "Bob")]);
    let result = lib.render("greet", &v).unwrap();
    assert_eq!(result, "Hello Bob");
}

#[test]
fn library_render_missing_template() {
    let lib = PromptLibrary::new();
    let v: Vec<(String, String)> = Vec::new();
    let err = lib.render("nonexistent", &v).unwrap_err();
    assert_eq!(err.describe(), "not found: template not found: nonexistent");
}

#[test]
fn library_names() {
    let mut lib = PromptLibrary::new();
    lib.register(PromptTemplate::new("a", "{{x}}"));
    lib.register(PromptTemplate::new("b", "{{y}}"));

    let mut names = lib.names();
    names.sort();
    assert_eq!(names, vec!["a", "b"]);
}

#[test]
fn library_with_defaults() {
    let lib = PromptLibrary::new().with_defaults();
    assert!(lib.get("summarize").is_some());
    assert!(lib.get("analyze_proposal").is_some());
    assert!(lib.get("explain").is_some());
    assert!(lib.get("code_review").is_some());
    assert_eq!(lib.len(), 4);
}

#[test]
fn defaults_render() {
    let lib = PromptLibrary::new().with_defaults();
    let v = vars(&[("text", "The quick brown fox.")]);
    let result = lib.render("summarize", &v).unwrap();
    assert!(result.contains("The quick brown fox."));
}

#[test]
fn complex_template() {
    let tmpl = PromptTemplate::new(
        "analysis",
        "Analyze the following:\n\nContext: {{context}}\nData: {{data}}\n\nProvide insights on {{focus_area}}.",
    );
    assert_eq!(tmpl.variable_count(), 3);

    let v = vars(&[
        ("context", "governance"),
        ("data", "vote results"),
        ("focus_area", "participation rates"),
    ]);
    let result = tmpl.render(&v).unwrap();
    assert!(result.contains("governance"));
    assert!(result.contains("vote results"));
    assert!(result.contains("participation rates"));
}

#[test]
fn variables_are_trimmed_and_nonempty() {
    let tmpl = PromptTemplate::new("test", "{{ a }} {{}} {{  }} {{b}} {{a}}");
    assert_eq!(tmpl.variables, vec!["a", "b"]);
}

#[test]
fn render_replaces_one_variable_after_another() {
    // `str::replace` runs once per variable, in order: the text a value
    // leaves behind can form a later variable's placeholder.
    let tmpl = PromptTemplate::new("test", "{{v}}{a}} {{a}}");
    assert_eq!(tmpl.variables, vec!["v", "a"]);
    let v = vars(&[("v", "{"), ("a", "A")]);
    assert_eq!(tmpl.render(&v).unwrap(), "A A");
}
