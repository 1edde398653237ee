use cobalto::template::{
    parse_tokens, render_nodes, render_template, tokenize_template, Context, Node, TemplateValue,
    Token,
};

#[test]
fn test_tokenize_basic() {
    let input = "Hello, {{ username }}! {% if user.is_admin %}Admin!{% endif %}";
    let tokens = tokenize_template(input);
    println!("Tokens: {:?}", tokens);

    assert_eq!(tokens.len(), 6);
    match &tokens[1] {
        Token::Variable(var) => assert_eq!(var, "username"),
        _ => panic!("Expected variable token"),
    }
    match &tokens[2] {
        Token::Text(text) => assert_eq!(text, "! "),
        _ => panic!("Expected text token"),
    }
}

#[test]
fn test_parse_simple_nodes() {
    let input = "Welcome, {{user.name}}";
    let tokens = tokenize_template(input);
    let nodes = parse_tokens(&tokens);

    assert_eq!(nodes.len(), 2);
    match &nodes[1] {
        Node::Variable(var) => assert_eq!(var, "user.name"),
        _ => panic!("Expected variable node"),
    }
}

#[test]
fn test_render_nodes_text_and_variable() {
    let nodes = vec![
        Node::Text("Hello, ".to_string()),
        Node::Variable("username".to_string()),
        Node::Text("!".to_string()),
    ];
    let mut context = Context::new();
    context.insert(
        "username".to_string(),
        TemplateValue::String("Alessandro".to_string()),
    );
    let rendered = render_nodes(&nodes, &context);
    assert_eq!(rendered, "Hello, Alessandro!");
}

#[test]
fn test_render_if_block_true() {
    let nodes = vec![Node::If {
        condition: "is_admin".to_string(),
        then_body: vec![Node::Text("Welcome admin!".to_string())],
        else_body: vec![Node::Text("Welcome user!".to_string())],
    }];
    let mut context = Context::new();
    context.insert("is_admin".to_string(), TemplateValue::Bool(true));
    let rendered = render_nodes(&nodes, &context);
    assert_eq!(rendered, "Welcome admin!");
}

#[test]
fn test_render_if_block_false() {
    let nodes = vec![Node::If {
        condition: "is_admin".to_string(),
        then_body: vec![Node::Text("Welcome admin!".to_string())],
        else_body: vec![Node::Text("Welcome user!".to_string())],
    }];
    let mut context = Context::new();
    context.insert("is_admin".to_string(), TemplateValue::Bool(false));
    let rendered = render_nodes(&nodes, &context);
    assert_eq!(rendered, "Welcome user!");
}

#[test]
fn test_render_for_loop() {
    let nodes = vec![Node::For {
        var_name: "item".to_string(),
        list_name: "shopping".to_string(),
        body: vec![
            Node::Variable("item".to_string()),
            Node::Text(",".to_string()),
        ],
    }];
    let mut context = Context::new();
    context.insert(
        "shopping".to_string(),
        TemplateValue::List(vec![
            TemplateValue::String("Apple".to_string()),
            TemplateValue::String("Banana".to_string()),
        ]),
    );
    let rendered = render_nodes(&nodes, &context);
    assert_eq!(rendered, "Apple,Banana,");
}

#[test]
fn test_tailwind_tag_inserts_cdn() {
    let nodes = vec![
        Node::Text("start".into()),
        Node::Tailwind,
        Node::Text("end".into()),
    ];
    let context = Context::new();
    let html = render_nodes(&nodes, &context);
    assert!(html.contains("https://cdn.tailwindcss.com"));
    assert!(html.contains("start"));
    assert!(html.contains("end"));
}

#[test]
fn test_template_not_found_branch() {
    let ctx = Context::new();
    let resp = render_template("hopefully_does_not_exist_zzz999.html", None, None, &ctx);
    assert!(resp.body.contains("not found"));
    assert_eq!(resp.status_code, 404);
}

#[test]
fn test_unknown_tag_branch() {
    let tokens = vec![
        Token::Tag("unknown_tag whatisthis".into()),
        Token::Text("after".into()),
    ];
    let nodes = parse_tokens(&tokens);
    assert!(matches!(&nodes[0], Node::Text(_)) || matches!(&nodes[0], Node::Extends(_)));
}

#[test]
fn test_block_and_extends_logic() {
    let base = "{% block content %}Base{% endblock %}!";
    let child = "{% extends \"test_base.html\" %}{% block content %}Hello{% endblock %}";

    let context = Context::new();
    let resp = render_template("test_child.html", Some(child), Some(base), &context);

    assert_eq!(resp.body, "Hello!");
    assert_eq!(resp.status_code, 200);
}

#[test]
fn test_as_string_forms() {
    assert_eq!(
        TemplateValue::String("abc".to_string()).as_string(),
        "abc"
    );
    assert_eq!(TemplateValue::Bool(true).as_string(), "true");
    assert_eq!(TemplateValue::Bool(false).as_string(), "false");
    assert_eq!(TemplateValue::Number("3.14".to_string()).as_string(), "3.14");
    assert_eq!(TemplateValue::List(vec![]).as_string(), "");
    assert_eq!(TemplateValue::Object(Context::new()).as_string(), "");
}

#[test]
fn test_variable_whitespace_trimmed() {
    let tokens = tokenize_template("{{   name   }}");
    assert_eq!(tokens.len(), 1);
    match &tokens[0] {
        Token::Variable(var) => assert_eq!(var, "name"),
        _ => panic!("Expected variable token"),
    }
}

#[test]
fn test_unclosed_marker_is_text() {
    let tokens = tokenize_template("{% if x");
    assert_eq!(tokens.len(), 1);
    match &tokens[0] {
        Token::Text(text) => assert_eq!(text, "{% if x"),
        _ => panic!("Expected text token"),
    }
    let tokens = tokenize_template("oops {{ y");
    assert_eq!(tokens.len(), 1);
    match &tokens[0] {
        Token::Text(text) => assert_eq!(text, "oops {{ y"),
        _ => panic!("Expected text token"),
    }
}

#[test]
fn test_missing_closer_ends_at_input_end() {
    let tokens = tokenize_template("{% if a %}yes");
    let nodes = parse_tokens(&tokens);
    let mut context = Context::new();
    context.insert("a".to_string(), TemplateValue::Bool(true));
    assert_eq!(render_nodes(&nodes, &context), "yes");
}

#[test]
fn test_malformed_for_is_dropped() {
    let tokens = tokenize_template("{% for x list %}body{% endfor %}");
    let nodes = parse_tokens(&tokens);
    let context = Context::new();
    assert_eq!(render_nodes(&nodes, &context), "body");
}

#[test]
fn test_empty_template() {
    assert_eq!(tokenize_template("").len(), 0);
    let ctx = Context::new();
    let resp = render_template("empty.html", Some(""), None, &ctx);
    assert_eq!(resp.body, "");
    assert_eq!(resp.status_code, 200);
}

#[test]
fn test_tokenize_edge_cases() {
    // The shortest close wins, and delimiters are stripped repeatedly.
    let tokens = tokenize_template("{{a%}b}}");
    assert_eq!(tokens.len(), 1);
    assert!(matches!(&tokens[0], Token::Variable(v) if v == "a%}b"));

    let tokens = tokenize_template("{{{x}}");
    assert_eq!(tokens.len(), 1);
    assert!(matches!(&tokens[0], Token::Variable(v) if v == "{x"));

    // A tag without its canonical single-space padding keeps its braces.
    let tokens = tokenize_template("{%if a%}x{% endif %}");
    assert_eq!(tokens.len(), 3);
    assert!(matches!(&tokens[0], Token::Tag(t) if t == "{%if a%}"));
    assert!(matches!(&tokens[1], Token::Text(t) if t == "x"));
    assert!(matches!(&tokens[2], Token::Tag(t) if t == "endif"));

    // An empty variable marker yields an empty payload.
    let tokens = tokenize_template("{{}}");
    assert_eq!(tokens.len(), 1);
    assert!(matches!(&tokens[0], Token::Variable(v) if v == ""));

    // Text after the earliest close stays text.
    let tokens = tokenize_template("a{{x}}}b");
    assert_eq!(tokens.len(), 3);
    assert!(matches!(&tokens[0], Token::Text(t) if t == "a"));
    assert!(matches!(&tokens[1], Token::Variable(v) if v == "x"));
    assert!(matches!(&tokens[2], Token::Text(t) if t == "}b"));

    // A nested-looking opener is swallowed by the repeated strip.
    let tokens = tokenize_template("{{ {{x}} }}");
    assert_eq!(tokens.len(), 2);
    assert!(matches!(&tokens[0], Token::Variable(v) if v == "{{x"));
    assert!(matches!(&tokens[1], Token::Text(t) if t == " }}"));
}
