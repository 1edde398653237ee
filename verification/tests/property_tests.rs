use cobalto::orm::Model;
use cobalto::template::{
    base_template_of, collect_top_level, merge_blocks, parse_tokens, render_nodes,
    render_template, tokenize_template, Context, Node, TemplateValue, Token,
};

/// Re-wraps a token in its canonical delimiters.
fn rewrap(token: &Token) -> String {
    match token {
        Token::Text(t) => t.clone(),
        Token::Variable(v) => format!("{{{{ {} }}}}", v),
        Token::Tag(t) => format!("{{% {} %}}", t),
    }
}

#[test]
fn test_tokens_reconstruct_canonical_source() {
    // With canonical single-space padding inside markers, concatenating the
    // token payloads with their delimiters reconstructs the source exactly.
    let source = "Hello {{ name }}!{% if a %}y{% else %}n{% endif %} tail";
    let tokens = tokenize_template(source);
    let mut rebuilt = String::new();
    for token in &tokens {
        rebuilt.push_str(&rewrap(token));
    }
    assert_eq!(rebuilt, source);
}

#[test]
fn test_self_merge_is_no_op() {
    // A tree with no extends and no top-level block renders identically
    // whether or not the merge step runs.
    let source = "a {{ x }} {% if c %}b{% endif %}";
    let tokens = tokenize_template(source);
    let nodes = parse_tokens(&tokens);
    let (blocks, base) = collect_top_level(&nodes);
    assert!(base.is_none());
    let merged = merge_blocks(&nodes, &blocks);
    let mut context = Context::new();
    context.insert("x".to_string(), TemplateValue::String("X".to_string()));
    context.insert("c".to_string(), TemplateValue::Bool(true));
    assert_eq!(
        render_nodes(&merged, &context),
        render_nodes(&nodes, &context)
    );
}

#[test]
fn test_child_overrides_base_block() {
    let base = "{% block content %}Base{% endblock %}!";
    let child = "{% extends \"base\" %}{% block content %}Hello{% endblock %}";
    let ctx = Context::new();
    let resp = render_template("child", Some(child), Some(base), &ctx);
    assert_eq!(resp.body, "Hello!");
}

#[test]
fn test_if_over_admin_flag() {
    let source = "{% if is_admin %}Admin!{% else %}User!{% endif %}";
    let tokens = tokenize_template(source);
    let nodes = parse_tokens(&tokens);

    let mut ctx = Context::new();
    ctx.insert("is_admin".to_string(), TemplateValue::Bool(true));
    assert_eq!(render_nodes(&nodes, &ctx), "Admin!");

    let mut ctx = Context::new();
    ctx.insert("is_admin".to_string(), TemplateValue::Bool(false));
    assert_eq!(render_nodes(&nodes, &ctx), "User!");

    let ctx = Context::new();
    assert_eq!(render_nodes(&nodes, &ctx), "User!");
}

#[test]
fn test_for_over_shopping_list() {
    let source = "{% for item in shopping %}{{ item }},{% endfor %}";
    let tokens = tokenize_template(source);
    let nodes = parse_tokens(&tokens);

    let mut ctx = Context::new();
    ctx.insert(
        "shopping".to_string(),
        TemplateValue::List(vec![
            TemplateValue::String("Apple".to_string()),
            TemplateValue::String("Banana".to_string()),
        ]),
    );
    assert_eq!(render_nodes(&nodes, &ctx), "Apple,Banana,");

    // A non-list binding renders empty.
    let mut ctx = Context::new();
    ctx.insert(
        "shopping".to_string(),
        TemplateValue::String("Apple".to_string()),
    );
    assert_eq!(render_nodes(&nodes, &ctx), "");

    // A missing binding renders empty.
    let ctx = Context::new();
    assert_eq!(render_nodes(&nodes, &ctx), "");
}

#[test]
fn test_dotted_path_resolution() {
    let mut user = Context::new();
    user.insert("name".to_string(), TemplateValue::String("Ann".to_string()));
    let mut ctx = Context::new();
    ctx.insert("user".to_string(), TemplateValue::Object(user));

    let nodes = vec![Node::Variable("user.name".to_string())];
    assert_eq!(render_nodes(&nodes, &ctx), "Ann");

    let nodes = vec![Node::Variable("user.missing".to_string())];
    assert_eq!(render_nodes(&nodes, &ctx), "");

    let nodes = vec![Node::Variable("nope.x".to_string())];
    assert_eq!(render_nodes(&nodes, &ctx), "");
}

#[test]
fn test_missing_top_level_template_is_not_found() {
    let ctx = Context::new();
    let resp = render_template("gone.html", None, None, &ctx);
    assert_eq!(resp.status_code, 404);
    assert_eq!(resp.body, "Template 'gone.html' not found");
    assert_eq!(
        resp.headers.get("Content-Type").unwrap(),
        "text/html; charset=utf-8"
    );
}

#[test]
fn test_missing_base_degrades_silently() {
    let child = "{% extends \"gone.html\" %}{% block content %}Hello{% endblock %}";
    let ctx = Context::new();
    let resp = render_template("child.html", Some(child), None, &ctx);
    assert_eq!(resp.status_code, 200);
    assert_eq!(resp.body, "Template 'gone.html' not found");
}

#[test]
fn test_tailwind_output_ignores_context() {
    let source = "start{% tailwind %}end";
    let tokens = tokenize_template(source);
    let nodes = parse_tokens(&tokens);
    let expected = "start<script src=\"https://cdn.tailwindcss.com\"></script>end";

    let ctx = Context::new();
    assert_eq!(render_nodes(&nodes, &ctx), expected);

    let mut ctx = Context::new();
    ctx.insert("a".to_string(), TemplateValue::Bool(true));
    ctx.insert("b".to_string(), TemplateValue::Number("7".to_string()));
    assert_eq!(render_nodes(&nodes, &ctx), expected);
}

#[test]
fn test_later_block_of_same_name_wins() {
    let base = "[{% block c %}base{% endblock %}]";
    let child =
        "{% extends \"b\" %}{% block c %}first{% endblock %}{% block c %}second{% endblock %}";
    let ctx = Context::new();
    let resp = render_template("child", Some(child), Some(base), &ctx);
    assert_eq!(resp.body, "[second]");
}

#[test]
fn test_nested_block_is_merged() {
    let base = "{% if show %}{% block content %}Base{% endblock %}{% endif %}";
    let child = "{% extends \"b\" %}{% block content %}Hello{% endblock %}";
    let mut ctx = Context::new();
    ctx.insert("show".to_string(), TemplateValue::Bool(true));
    let resp = render_template("child", Some(child), Some(base), &ctx);
    assert_eq!(resp.body, "Hello");
}

#[test]
fn test_base_template_of_reads_extends() {
    let child = "{% extends \"layout.html\" %}{% block c %}x{% endblock %}";
    assert_eq!(base_template_of(child), Some("layout.html".to_string()));
    assert_eq!(base_template_of("plain text {{ v }}"), None);
}

#[test]
fn test_loop_variable_shadowing_reverts() {
    // The loop binding shadows an outer binding of the same name inside the
    // body only; after the loop the outer binding is intact.
    let source = "{% for x in xs %}{{ x }}{% endfor %}{{ x }}";
    let tokens = tokenize_template(source);
    let nodes = parse_tokens(&tokens);
    let mut ctx = Context::new();
    ctx.insert("x".to_string(), TemplateValue::String("outer".to_string()));
    ctx.insert(
        "xs".to_string(),
        TemplateValue::List(vec![
            TemplateValue::String("a".to_string()),
            TemplateValue::String("b".to_string()),
        ]),
    );
    assert_eq!(render_nodes(&nodes, &ctx), "abouter");
}

struct Person;

impl Model for Person {
    fn table_name() -> &'static str {
        "person"
    }
}

#[test]
fn test_model_table_name() {
    assert_eq!(Person::table_name(), "person");
}
