use browzer_web::error::RequestError;
use browzer_web::request::{announced_length, method_from_token, parse_cookies, Request};
use browzer_web::utils::HttpMethod;

fn request_lines(text: &[&str]) -> Vec<String> {
    text.iter().map(|s| s.to_string()).collect()
}

#[test]
fn parses_request_line() {
    let req = Request::new(&request_lines(&["POST /items?id=3 HTTP/1.0", ""])).unwrap();
    assert_eq!(req.method, HttpMethod::POST);
    assert_eq!(req.path, "/items?id=3");
    assert_eq!(req.version, "HTTP/1.0");
    assert!(req.headers.is_empty());
    assert!(req.cookies.is_empty());
    assert_eq!(req.body, None);
}

#[test]
fn request_line_tokens_are_split_on_any_whitespace() {
    let req = Request::new(&request_lines(&["  PATCH \t /a   HTTP/1.1  extra"])).unwrap();
    assert_eq!(req.method, HttpMethod::PATCH);
    assert_eq!(req.path, "/a");
    assert_eq!(req.version, "HTTP/1.1");
}

#[test]
fn recognises_the_four_methods() {
    assert_eq!(method_from_token("GET"), HttpMethod::GET);
    assert_eq!(method_from_token("POST"), HttpMethod::POST);
    assert_eq!(method_from_token("PATCH"), HttpMethod::PATCH);
    assert_eq!(method_from_token("DELETE"), HttpMethod::DELETE);
}

#[test]
fn unknown_method_defaults_to_get() {
    let req = Request::new(&request_lines(&["BREW /pot HTCPCP/1.0"])).unwrap();
    assert_eq!(req.method, HttpMethod::GET);
    assert_eq!(method_from_token("get"), HttpMethod::GET);
    assert_eq!(method_from_token(""), HttpMethod::GET);
}

#[test]
fn empty_input_is_an_empty_request() {
    let res = Request::new(&Vec::new());
    assert!(matches!(res, Err(RequestError::EmptyRequestError)));
    assert_eq!(res.unwrap_err().message(), "Empty HTTP request");
}

#[test]
fn short_request_line_is_invalid() {
    let res = Request::new(&request_lines(&["GET /only-two", "Host: x"]));
    match res {
        Err(RequestError::InvalidRequestLineError(line)) => assert_eq!(line, "GET /only-two"),
        _ => panic!("expected an invalid request line"),
    }
    let blank = Request::new(&request_lines(&["", "Host: x"]));
    match blank {
        Err(e) => assert_eq!(e.message(), "Invalid request line: "),
        Ok(_) => panic!("expected an invalid request line"),
    }
}

#[test]
fn headers_are_split_on_the_first_colon_and_trimmed() {
    let req = Request::new(&request_lines(&[
        "GET / HTTP/1.1",
        "Host:  example.com:8080 ",
        "  X-Empty :",
        "Accept: */*",
        "",
    ]))
    .unwrap();
    assert_eq!(req.headers.len(), 3);
    assert_eq!(req.headers.get("Host"), Some(&"example.com:8080".to_string()));
    assert_eq!(req.headers.get("X-Empty"), Some(&"".to_string()));
    assert_eq!(req.headers.get("Accept"), Some(&"*/*".to_string()));
    assert_eq!(req.headers.get("host"), None);
}

#[test]
fn lines_without_a_colon_are_dropped() {
    let req = Request::new(&request_lines(&[
        "GET / HTTP/1.1",
        "this is no header",
        "Host: h",
        "",
    ]))
    .unwrap();
    assert_eq!(req.headers.len(), 1);
    assert_eq!(req.headers.get("Host"), Some(&"h".to_string()));
}

#[test]
fn later_header_overwrites_earlier_one() {
    let req = Request::new(&request_lines(&[
        "GET / HTTP/1.1",
        "X-Tag: one",
        "Host: h",
        "X-Tag: two",
        "",
    ]))
    .unwrap();
    assert_eq!(req.headers.len(), 2);
    assert_eq!(req.headers.get("X-Tag"), Some(&"two".to_string()));
    let (first, _) = req.headers.entry(0);
    assert_eq!(first, "X-Tag");
}

#[test]
fn body_is_what_follows_the_blank_line() {
    let req = Request::new(&request_lines(&[
        "POST /submit HTTP/1.1",
        "Content-Length: 5",
        "",
        "hello",
    ]))
    .unwrap();
    assert_eq!(req.body, Some("hello".to_string()));
}

#[test]
fn body_lines_are_joined_with_line_feeds() {
    let req = Request::new(&request_lines(&[
        "POST /submit HTTP/1.1",
        "Content-Length: 7",
        "",
        "a",
        "",
        "b: c",
    ]))
    .unwrap();
    assert_eq!(req.body, Some("a\n\nb: c".to_string()));
    assert_eq!(req.headers.len(), 1);
}

#[test]
fn no_body_without_content_length() {
    let req = Request::new(&request_lines(&["GET / HTTP/1.1", "", "stuff"])).unwrap();
    assert_eq!(req.body, None);
    let other = Request::new(&request_lines(&[
        "POST /submit HTTP/1.1",
        "Host: h",
        "content-length: 5",
        "Content-Length:5",
        "",
        "stuff",
    ]))
    .unwrap();
    assert_eq!(other.body, None);
    assert_eq!(other.headers.len(), 3);
}

#[test]
fn no_body_with_content_length_zero_or_unreadable() {
    let zero = Request::new(&request_lines(&[
        "POST / HTTP/1.1",
        "Content-Length: 0",
        "",
        "stuff",
    ]))
    .unwrap();
    assert_eq!(zero.body, None);
    let unreadable = Request::new(&request_lines(&[
        "POST / HTTP/1.1",
        "Content-Length: five",
        "",
        "stuff",
    ]))
    .unwrap();
    assert_eq!(unreadable.body, None);
    let reset = Request::new(&request_lines(&[
        "POST / HTTP/1.1",
        "Content-Length: 5",
        "Content-Length: 0",
        "",
        "stuff",
    ]))
    .unwrap();
    assert_eq!(reset.body, None);
}

#[test]
fn content_length_after_the_blank_line_announces_nothing() {
    let req = Request::new(&request_lines(&[
        "POST / HTTP/1.1",
        "",
        "Content-Length: 5",
        "stuff",
    ]))
    .unwrap();
    assert_eq!(req.body, None);
    assert!(req.headers.is_empty());
}

#[test]
fn announced_length_is_that_of_the_last_length_line() {
    let lines = request_lines(&[
        "POST / HTTP/1.1",
        "Content-Length: 5",
        "Host: h",
        "Content-Length:  12 ",
        "Content-Length: x",
        "",
        "Content-Length: 99",
    ]);
    assert_eq!(announced_length(&lines, 0), 0);
    assert_eq!(announced_length(&lines, 1), 0);
    assert_eq!(announced_length(&lines, 2), 5);
    assert_eq!(announced_length(&lines, 3), 5);
    assert_eq!(announced_length(&lines, 4), 12);
    assert_eq!(announced_length(&lines, 5), 12);
    assert_eq!(announced_length(&lines, 6), 12);
    assert_eq!(announced_length(&lines, 7), 99);
}

#[test]
fn no_body_without_lines_after_the_blank_line() {
    let with_blank = Request::new(&request_lines(&[
        "GET / HTTP/1.1",
        "Content-Length: 3",
        "",
    ]))
    .unwrap();
    assert_eq!(with_blank.body, None);
    let without_blank = Request::new(&request_lines(&[
        "GET / HTTP/1.1",
        "Content-Length: 3",
        "Host: h",
    ]))
    .unwrap();
    assert_eq!(without_blank.body, None);
    assert_eq!(without_blank.headers.len(), 2);
}

#[test]
fn whitespace_only_line_ends_the_header_block() {
    let req = Request::new(&request_lines(&[
        "GET / HTTP/1.1",
        "Content-Length: 12",
        " \t",
        "Late: header",
    ]))
    .unwrap();
    assert_eq!(req.headers.len(), 1);
    assert_eq!(req.body, Some("Late: header".to_string()));
}

#[test]
fn cookies_are_read_from_the_cookie_header() {
    let req = Request::new(&request_lines(&[
        "GET / HTTP/1.1",
        "Cookie: session=abc123; theme = dark ;flag; session=xyz; eq=a=b",
        "",
    ]))
    .unwrap();
    assert_eq!(req.cookies.len(), 3);
    let session = req.cookies.get("session").unwrap();
    assert_eq!(session.name, "session");
    assert_eq!(session.value, "xyz");
    assert_eq!(req.cookies.get("theme").unwrap().value, "dark");
    assert_eq!(req.cookies.get("eq").unwrap().value, "a=b");
    assert!(req.cookies.get("flag").is_none());
    let plain = req.cookies.get("theme").unwrap();
    assert_eq!(plain.expires, None);
    assert_eq!(plain.path, None);
    assert_eq!(plain.domain, None);
    assert_eq!(plain.max_age, None);
    assert!(!plain.secure);
    assert!(!plain.http_only);
}

#[test]
fn no_cookie_header_gives_no_cookie() {
    let req = Request::new(&request_lines(&["GET / HTTP/1.1", "cookie: a=b", ""])).unwrap();
    assert!(req.cookies.is_empty());
    assert!(parse_cookies("").is_empty());
}
