use cobalto::router::{match_path, status_text, Response, Router};
use cobalto::settings::{Settings, TemplateSettings};
use cobalto::strmap::StrMap;

#[test]
fn test_response_ok() {
    let resp = Response::ok("hello world");
    assert_eq!(resp.status_code, 200);
    assert_eq!(resp.body, "hello world");
    // Should default to empty headers for text/html stub
    assert!(resp.headers.is_empty());
}

#[test]
fn test_response_forbidden() {
    let resp = Response::forbidden("nope");
    assert_eq!(resp.status_code, 403);
    assert_eq!(resp.body, "nope");
}

#[test]
fn test_response_not_found() {
    let resp = Response::not_found();
    assert_eq!(resp.status_code, 404);
    assert!(resp.body.contains("404"));
}

#[test]
fn test_match_path_static() {
    // Exact match
    assert!(match_path("/foo", "/foo").is_some());
    // Parameter extraction
    let params = match_path("/user/:id", "/user/99").unwrap();
    assert_eq!(params.get("id").unwrap(), "99");
    // No match for different length
    assert!(match_path("/a/b", "/a").is_none());
    // No match when value not matching
    assert!(match_path("/foo/bar", "/foo/qux").is_none());
}

#[test]
fn test_static_and_param_matching() {
    assert!(match_path("/foo", "/foo").is_some());
    let params = match_path("/user/:id", "/user/42").unwrap();
    assert_eq!(params.get("id"), Some(&"42".to_string()));
    assert!(match_path("/api/:a/:b", "/api/x/y").is_some());
    assert!(match_path("/foo/bar", "/foo/bar/qux").is_none());
    assert!(match_path("/foo/:id", "/bar/99").is_none());
}

#[test]
fn test_match_path_non_matching() {
    // Mismatched
    assert!(match_path("/x/:id", "/y/42").is_none());
    assert!(match_path("/items/:type/:id", "/items/book").is_none());
    assert!(match_path("/only", "/only/extra").is_none());
}

#[test]
fn test_status_text_variants() {
    assert_eq!(status_text(200), "OK");
    assert_eq!(status_text(403), "Forbidden");
    assert_eq!(status_text(404), "Not Found");
    assert_eq!(status_text(590), "Unknown");
}

#[test]
fn test_match_path_trailing_slashes() {
    // Leading and trailing slashes are stripped before matching.
    let params = match_path("user/:id/", "/user/7").unwrap();
    assert_eq!(params.get("id").unwrap(), "7");
    assert!(match_path("/foo/", "foo").is_some());
}

#[test]
fn test_response_html_content_type() {
    let resp = Response::html("<p>hi</p>");
    assert_eq!(resp.status_code, 200);
    assert_eq!(resp.body, "<p>hi</p>");
    assert_eq!(
        resp.headers.get("Content-Type").unwrap(),
        "text/html; charset=utf-8"
    );
}

#[test]
fn test_with_status_and_add_header() {
    let resp = Response::ok("x").with_status(503).add_header("X-Test", "yes");
    assert_eq!(resp.status_code, 503);
    assert_eq!(resp.body, "x");
    assert_eq!(resp.headers.get("X-Test").unwrap(), "yes");
    // A header is overwritten by a later add of the same name.
    let resp = resp.add_header("X-Test", "no");
    assert_eq!(resp.headers.get("X-Test").unwrap(), "no");
}

fn test_settings() -> Settings {
    Settings {
        debug: false,
        host: "127.0.0.1".to_string(),
        port: 8080,
        ws_port: 8081,
        template: TemplateSettings {
            dir: "templates".to_string(),
            debug: false,
        },
        other: StrMap::new(),
    }
}

#[test]
fn test_router_add_and_list_routes() {
    let mut router = Router::new(test_settings());
    assert_eq!(router.list_routes().len(), 0);
    router.add_route("GET", "/about", "about_handler");
    router.add_route("POST", "/user/:id", "user_handler");
    let routes = router.list_routes();
    assert_eq!(routes.len(), 2);
    assert_eq!(routes[0], ("GET".to_string(), "/about".to_string()));
    assert_eq!(routes[1], ("POST".to_string(), "/user/:id".to_string()));
}
