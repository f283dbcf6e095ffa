use browzer_web::context::{form_lookup, Context};
use browzer_web::request::Request;
use browzer_web::utils::HttpStatusCode;

fn form_request(content_type: Option<&str>, body: Option<&str>) -> Request {
    let mut lines = vec!["POST /form HTTP/1.1".to_string()];
    if let Some(t) = content_type {
        lines.push(format!("Content-Type: {}", t));
    }
    if let Some(b) = body {
        lines.push(format!("Content-Length: {}", b.len()));
    }
    lines.push(String::new());
    if let Some(b) = body {
        lines.push(b.to_string());
    }
    Request::new(&lines).unwrap()
}

#[test]
fn new_context_has_default_response_and_no_parameter() {
    let ctx = Context::new(form_request(None, None));
    assert_eq!(ctx.request.path, "/form");
    assert_eq!(ctx.response.status_code, HttpStatusCode::OK);
    assert_eq!(ctx.response.body, "");
    assert!(ctx.response.headers.is_empty());
    assert!(ctx.response.cookies.is_empty());
    assert!(ctx.params.is_empty());
    assert!(ctx.query_params.is_empty());
}

#[test]
fn send_string_sets_status_and_body() {
    let mut ctx = Context::new(form_request(None, None));
    ctx.response.headers.insert("X-Kept".to_string(), "yes".to_string());
    let res = ctx.send_string(HttpStatusCode::Created, "Hello, World!");
    assert_eq!(res.status_code, HttpStatusCode::Created);
    assert_eq!(res.body, "Hello, World!");
    assert_eq!(res.headers.get("X-Kept"), Some(&"yes".to_string()));
    assert_eq!(ctx.response.status_code, HttpStatusCode::Created);
    assert_eq!(ctx.response.body, "Hello, World!");
    assert_eq!(ctx.request.path, "/form");
}

#[test]
fn redirect_sets_status_and_location() {
    let mut ctx = Context::new(form_request(None, None));
    ctx.response.body = "kept".to_string();
    let res = ctx.redirect(HttpStatusCode::Found, "/home");
    assert_eq!(res.status_code, HttpStatusCode::Found);
    assert_eq!(res.headers.len(), 1);
    assert_eq!(res.headers.get("Location"), Some(&"/home".to_string()));
    assert_eq!(res.body, "kept");
    assert_eq!(
        res.to_string(),
        "HTTP/1.1 302 Found\r\nContent-Length: 4\r\nLocation: /home\r\n\r\nkept"
    );
    let again = ctx.redirect(HttpStatusCode::SeeOther, "/other");
    assert_eq!(again.headers.len(), 1);
    assert_eq!(again.headers.get("Location"), Some(&"/other".to_string()));
    assert_eq!(ctx.response.status_code, HttpStatusCode::SeeOther);
}

#[test]
fn form_value_reads_a_field() {
    let req = form_request(
        Some("application/x-www-form-urlencoded"),
        Some("bread=baguette&cheese=comt%C3%A9&note=a+b\r\n"),
    );
    let mut ctx = Context::new(req);
    assert_eq!(ctx.form_value("bread"), "baguette");
    assert_eq!(ctx.form_value("cheese"), "comté");
    assert_eq!(ctx.form_value("note"), "a b");
    assert_eq!(ctx.form_value("meat"), "");
    assert_eq!(ctx.request.body, Some("bread=baguette&cheese=comt%C3%A9&note=a+b\r\n".to_string()));
}

#[test]
fn form_value_takes_the_last_of_repeated_fields() {
    let req = form_request(Some("application/x-www-form-urlencoded"), Some("a=1&b=2&a=3"));
    let mut ctx = Context::new(req);
    assert_eq!(ctx.form_value("a"), "3");
    assert_eq!(ctx.form_value("b"), "2");
}

#[test]
fn form_value_is_empty_without_content_type_or_body() {
    let mut no_type = Context::new(form_request(None, Some("a=1")));
    assert_eq!(no_type.form_value("a"), "");
    let mut no_body = Context::new(form_request(Some("application/x-www-form-urlencoded"), None));
    assert_eq!(no_body.form_value("a"), "");
}

#[test]
fn form_lookup_finds_the_last_pair() {
    let pairs = vec![
        ("k".to_string(), "first".to_string()),
        ("other".to_string(), "x".to_string()),
        ("k".to_string(), "last".to_string()),
    ];
    assert_eq!(form_lookup(&pairs, "k"), "last");
    assert_eq!(form_lookup(&pairs, "other"), "x");
    assert_eq!(form_lookup(&pairs, "missing"), "");
    assert_eq!(form_lookup(&Vec::new(), "k"), "");
}
