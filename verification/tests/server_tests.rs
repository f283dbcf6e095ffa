use browzer_web::context::Context;
use browzer_web::error::{RequestError, WebServerError};
use browzer_web::request::Request;
use browzer_web::length::{parse_content_length, read_declared_length, strip_prefix};
use browzer_web::server::{
    serve_file, static_filename, static_route, ReadPhase, RequestReader, StaticFile,
};
use browzer_web::utils::{HttpMethod, HttpStatusCode};

fn feed(reader: RequestReader, line: &str) -> RequestReader {
    assert_eq!(reader.phase(), ReadPhase::Head);
    reader.feed_line(line.to_string()).unwrap()
}

#[test]
fn request_with_content_length_has_that_body() {
    let mut reader = RequestReader::new();
    assert_eq!(reader.phase(), ReadPhase::Head);
    assert_eq!(reader.content_length(), 0);
    reader = feed(reader, "POST /submit HTTP/1.1");
    reader = feed(reader, "Host: localhost");
    reader = feed(reader, "Content-Length: 5");
    assert_eq!(reader.phase(), ReadPhase::Head);
    assert_eq!(reader.content_length(), 5);
    reader = feed(reader, "");
    assert_eq!(reader.phase(), ReadPhase::Body);
    assert_eq!(reader.content_length(), 5);
    reader = reader.feed_body(b"hello");
    assert_eq!(reader.phase(), ReadPhase::Done);
    let req = reader.finish().unwrap();
    assert_eq!(req.method, HttpMethod::POST);
    assert_eq!(req.path, "/submit");
    assert_eq!(req.body, Some("hello".to_string()));
    assert_eq!(req.headers.get("Content-Length"), Some(&"5".to_string()));
    assert_eq!(req.headers.len(), 2);
}

#[test]
fn request_without_content_length_has_no_body() {
    let mut reader = RequestReader::new();
    reader = feed(reader, "GET / HTTP/1.1");
    reader = feed(reader, "Host: localhost");
    reader = feed(reader, "");
    assert_eq!(reader.phase(), ReadPhase::Done);
    assert_eq!(reader.content_length(), 0);
    let req = reader.finish().unwrap();
    assert_eq!(req.body, None);
    assert_eq!(req.headers.len(), 1);
}

#[test]
fn zero_content_length_means_no_body() {
    let mut reader = RequestReader::new();
    reader = feed(reader, "POST / HTTP/1.1");
    reader = feed(reader, "Content-Length: 0");
    reader = feed(reader, "");
    assert_eq!(reader.phase(), ReadPhase::Done);
    assert_eq!(reader.finish().unwrap().body, None);
}

#[test]
fn last_content_length_counts() {
    let mut reader = RequestReader::new();
    reader = feed(reader, "POST / HTTP/1.1");
    reader = feed(reader, "Content-Length: 7");
    reader = feed(reader, "Content-Length:  +3 ");
    assert_eq!(reader.content_length(), 3);
    reader = feed(reader, "content-length: 9");
    reader = feed(reader, "Content-Length:4");
    assert_eq!(reader.content_length(), 3);
    reader = feed(reader, " ");
    assert_eq!(reader.phase(), ReadPhase::Body);
    let req = reader.feed_body(b"a\nb").finish().unwrap();
    assert_eq!(req.body, Some("a\nb".to_string()));
}

#[test]
fn body_bytes_are_decoded_with_replacement() {
    let mut reader = RequestReader::new();
    reader = feed(reader, "POST / HTTP/1.1");
    reader = feed(reader, "Content-Length: 4");
    reader = feed(reader, "");
    let req = reader.feed_body(&[b'a', 0xff, b'b', 0xc3]).finish().unwrap();
    assert_eq!(req.body, Some("a\u{fffd}b\u{fffd}".to_string()));
    let mut other = RequestReader::new();
    other = feed(other, "POST / HTTP/1.1");
    other = feed(other, "Content-Length: 6");
    other = feed(other, "");
    let utf8 = other.feed_body("comté".as_bytes()).finish().unwrap();
    assert_eq!(utf8.body, Some("comté".to_string()));
}

#[test]
fn end_of_stream_ends_the_head_without_body() {
    let mut reader = RequestReader::new();
    reader = feed(reader, "POST / HTTP/1.1");
    reader = feed(reader, "Content-Length: 5");
    reader = reader.end_of_stream();
    assert_eq!(reader.phase(), ReadPhase::Done);
    let req = reader.finish().unwrap();
    assert_eq!(req.body, None);
    assert_eq!(req.headers.len(), 1);
}

#[test]
fn nothing_read_is_an_empty_request() {
    let res = RequestReader::new().end_of_stream().finish();
    assert!(matches!(res, Err(RequestError::EmptyRequestError)));
}

#[test]
fn blank_first_line_is_an_invalid_request_line() {
    let reader = feed(RequestReader::new(), "");
    assert_eq!(reader.phase(), ReadPhase::Done);
    match reader.finish() {
        Err(RequestError::InvalidRequestLineError(line)) => assert_eq!(line, ""),
        _ => panic!("expected an invalid request line"),
    }
}

#[test]
fn invalid_content_length_is_refused() {
    for bad in ["Content-Length: five", "Content-Length: ", "Content-Length: -1",
        "Content-Length: 1 2", "Content-Length: 99999999999999999999999999"]
    {
        let reader = feed(RequestReader::new(), "POST / HTTP/1.1");
        match reader.feed_line(bad.to_string()) {
            Err(WebServerError::InternalServerError(m)) => {
                assert_eq!(m, "Invalid Content-Length header")
            }
            _ => panic!("expected an error for {:?}", bad),
        }
    }
}

#[test]
fn reader_matches_parsing_the_same_lines() {
    let lines = vec![
        "DELETE /items/3?force=1 HTTP/1.1".to_string(),
        "Host: h".to_string(),
        "Cookie: a=b".to_string(),
        "Content-Length: 2".to_string(),
        String::new(),
        "ok".to_string(),
    ];
    let direct = Request::new(&lines).unwrap();
    let mut reader = RequestReader::new();
    for line in &lines[..5] {
        reader = feed(reader, line);
    }
    let read = reader.feed_body(b"ok").finish().unwrap();
    assert_eq!(read.method, direct.method);
    assert_eq!(read.path, direct.path);
    assert_eq!(read.version, direct.version);
    assert_eq!(read.body, direct.body);
    assert_eq!(read.headers.len(), direct.headers.len());
    assert_eq!(read.cookies.get("a").unwrap().value, "b");
}

#[test]
fn lengths_are_decimal_numbers() {
    assert_eq!(parse_content_length("0"), Some(0));
    assert_eq!(parse_content_length("42"), Some(42));
    assert_eq!(parse_content_length("+42"), Some(42));
    assert_eq!(parse_content_length("007"), Some(7));
    assert_eq!(parse_content_length(&usize::MAX.to_string()), Some(usize::MAX));
    assert_eq!(parse_content_length(""), None);
    assert_eq!(parse_content_length("+"), None);
    assert_eq!(parse_content_length("-1"), None);
    assert_eq!(parse_content_length("++1"), None);
    assert_eq!(parse_content_length("1+"), None);
    assert_eq!(parse_content_length(" 1"), None);
    assert_eq!(parse_content_length("1a"), None);
    assert_eq!(parse_content_length("\u{661}"), None);
    assert_eq!(parse_content_length("18446744073709551616"), None);
    assert_eq!(parse_content_length("184467440737095516150"), None);
    for text in ["12", "+0", "", "x", "1_0", "0x10", "99999999999999999999"] {
        assert_eq!(parse_content_length(text), text.parse::<usize>().ok());
    }
}

#[test]
fn declared_length_needs_the_exact_prefix() {
    assert_eq!(read_declared_length("Content-Length: 12"), Some(Some(12)));
    assert_eq!(read_declared_length("Content-Length: \t12 "), Some(Some(12)));
    assert_eq!(read_declared_length("Content-Length: x"), Some(None));
    assert_eq!(read_declared_length("Content-Length:12"), None);
    assert_eq!(read_declared_length("content-length: 12"), None);
    assert_eq!(read_declared_length(" Content-Length: 12"), None);
    assert_eq!(read_declared_length("Host: h"), None);
    assert_eq!(strip_prefix("abc", "ab"), Some("c".to_string()));
    assert_eq!(strip_prefix("abc", "abc"), Some(String::new()));
    assert_eq!(strip_prefix("abc", ""), Some("abc".to_string()));
    assert_eq!(strip_prefix("ab", "abc"), None);
    assert_eq!(strip_prefix("abc", "ac"), None);
}

#[test]
fn static_files_are_answered() {
    assert_eq!(static_route("/static"), "/static/:filename");
    let req = Request::new(&vec!["GET /static/a.txt HTTP/1.1".to_string()]).unwrap();
    let mut ctx = Context::new(req);
    assert_eq!(static_filename(&ctx), None);
    ctx.params.insert("filename".to_string(), "a.txt".to_string());
    assert_eq!(static_filename(&ctx), Some("a.txt".to_string()));
    let found = serve_file(&mut ctx, Some(StaticFile::Contents("text".to_string())));
    assert_eq!(found.status_code, HttpStatusCode::OK);
    assert_eq!(found.body, "text");
    let missing = serve_file(&mut ctx, Some(StaticFile::Missing));
    assert_eq!(missing.status_code, HttpStatusCode::NotFound);
    assert_eq!(missing.body, "Not Found");
    let unreadable = serve_file(&mut ctx, Some(StaticFile::Unreadable));
    assert_eq!(unreadable.status_code, HttpStatusCode::InternalServerError);
    assert_eq!(unreadable.body, "Internal Server Error");
    let unnamed = serve_file(&mut ctx, None);
    assert_eq!(unnamed.status_code, HttpStatusCode::InternalServerError);
    assert_eq!(ctx.response.body, "Internal Server Error");
}
