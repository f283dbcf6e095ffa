use browzer_web::context::Context;
use browzer_web::error::WebRouterError;
use browzer_web::request::Request;
use browzer_web::response::Response;
use browzer_web::router::{match_dynamic_route, plain, query_params, WebRouter};
use browzer_web::utils::{HttpMethod, HttpStatusCode};
use std::sync::atomic::{AtomicUsize, Ordering};
use std::sync::Arc;

type Handler = Box<dyn Fn(Context) -> Response + Send + Sync>;
type Middleware = Box<dyn Fn(Context) -> Context + Send + Sync>;

fn request(method: &str, path: &str) -> Request {
    let lines = vec![
        format!("{} {} HTTP/1.1", method, path),
        "Host: localhost".to_string(),
        String::new(),
    ];
    Request::new(&lines).unwrap()
}

fn say(text: &'static str) -> Handler {
    Box::new(move |mut c: Context| c.send_string(HttpStatusCode::OK, text))
}

fn counting(text: &'static str, count: &Arc<AtomicUsize>) -> Handler {
    let count = Arc::clone(count);
    Box::new(move |mut c: Context| {
        count.fetch_add(1, Ordering::SeqCst);
        c.send_string(HttpStatusCode::OK, text)
    })
}

fn describe_params() -> Handler {
    Box::new(|mut c: Context| {
        let mut text = String::new();
        for i in 0..c.params.len() {
            let (k, v) = c.params.entry(i);
            text.push_str(&format!("{}={};", k, v));
        }
        text.push('|');
        for i in 0..c.query_params.len() {
            let (k, v) = c.query_params.entry(i);
            text.push_str(&format!("{}={};", k, v));
        }
        c.send_string(HttpStatusCode::OK, &text)
    })
}

#[test]
fn dynamic_route_captures_one_parameter() {
    let params = match_dynamic_route("/users/42", "/users/:id").unwrap();
    assert_eq!(params.len(), 1);
    assert_eq!(params.get("id"), Some(&"42".to_string()));
}

#[test]
fn dynamic_route_captures_two_parameters() {
    let params = match_dynamic_route("/users/7/posts/3", "/users/:id/posts/:pid").unwrap();
    assert_eq!(params.len(), 2);
    assert_eq!(params.get("id"), Some(&"7".to_string()));
    assert_eq!(params.get("pid"), Some(&"3".to_string()));
}

#[test]
fn dynamic_route_needs_the_same_number_of_segments() {
    assert!(match_dynamic_route("/users/42/extra", "/users/:id").is_none());
    assert!(match_dynamic_route("/users", "/users/:id").is_none());
    assert!(match_dynamic_route("/users/42/", "/users/:id").is_none());
}

#[test]
fn dynamic_route_compares_literal_segments() {
    assert!(match_dynamic_route("/posts/42", "/users/:id").is_none());
    assert!(match_dynamic_route("/Users/42", "/users/:id").is_none());
    let none = match_dynamic_route("/users/list", "/users/list").unwrap();
    assert!(none.is_empty());
}

#[test]
fn dynamic_route_ignores_the_query() {
    let params = match_dynamic_route("/users/42?full=1/2", "/users/:id").unwrap();
    assert_eq!(params.get("id"), Some(&"42".to_string()));
}

#[test]
fn dynamic_route_capture_details() {
    let empty = match_dynamic_route("/users/", "/users/:id").unwrap();
    assert_eq!(empty.get("id"), Some(&"".to_string()));
    let unnamed = match_dynamic_route("/a/b", "/:/b").unwrap();
    assert_eq!(unnamed.get(""), Some(&"a".to_string()));
    let twice = match_dynamic_route("/1/2", "/:x/:x").unwrap();
    assert_eq!(twice.len(), 1);
    assert_eq!(twice.get("x"), Some(&"2".to_string()));
}

#[test]
fn query_parameters_are_read() {
    let q = query_params("/search?q=rust&lang=en").unwrap();
    assert_eq!(q.len(), 2);
    assert_eq!(q.get("q"), Some(&"rust".to_string()));
    assert_eq!(q.get("lang"), Some(&"en".to_string()));
}

#[test]
fn query_details() {
    assert!(query_params("/search").unwrap().is_empty());
    let q = query_params("/s?a=1=2&b&a=%20x?c=3").unwrap();
    assert_eq!(q.len(), 2);
    assert_eq!(q.get("a"), Some(&"%20x".to_string()));
    assert_eq!(q.get("b"), Some(&"".to_string()));
    assert_eq!(q.get("c"), None);
    let kept = query_params("/s?k=v=w").unwrap();
    assert_eq!(kept.get("k"), Some(&"v=w".to_string()));
}

#[test]
fn query_with_empty_key_is_refused() {
    assert!(query_params("/search?=bad").is_none());
    assert!(query_params("/search?").is_none());
    assert!(query_params("/search?a=1&&b=2").is_none());
    assert!(query_params("/search?a=1&=2").is_none());
}

#[test]
fn exact_route_dispatches_to_handler() {
    let mut router: WebRouter<Handler, Middleware> = WebRouter::new();
    router.add("/".to_string(), HttpMethod::GET, say("Hello,World!"));
    let res = router.handle_request(request("GET", "/"));
    assert_eq!(res.status_code, HttpStatusCode::OK);
    assert_eq!(res.body, "Hello,World!");
    assert_eq!(
        res.to_string(),
        "HTTP/1.1 200 OK\r\nContent-Length: 12\r\n\r\nHello,World!"
    );
}

#[test]
fn exact_route_runs_its_handler_exactly_once() {
    let hits = Arc::new(AtomicUsize::new(0));
    let others = Arc::new(AtomicUsize::new(0));
    let mut router: WebRouter<Handler, Middleware> = WebRouter::new();
    router.add("/a".to_string(), HttpMethod::GET, counting("a-get", &hits));
    router.add("/a".to_string(), HttpMethod::POST, counting("a-post", &others));
    router.add("/b".to_string(), HttpMethod::GET, counting("b-get", &others));
    router.add("/:any".to_string(), HttpMethod::GET, counting("any", &others));
    let res = router.handle_request(request("GET", "/a"));
    assert_eq!(res.body, "a-get");
    assert_eq!(hits.load(Ordering::SeqCst), 1);
    assert_eq!(others.load(Ordering::SeqCst), 0);
}

#[test]
fn every_method_has_its_own_handler() {
    let mut router: WebRouter<Handler, Middleware> = WebRouter::new();
    router.add("/r".to_string(), HttpMethod::GET, say("get"));
    router.add("/r".to_string(), HttpMethod::POST, say("post"));
    router.add("/r".to_string(), HttpMethod::PATCH, say("patch"));
    router.add("/r".to_string(), HttpMethod::DELETE, say("delete"));
    assert_eq!(router.routes.len(), 1);
    assert_eq!(router.handle_request(request("GET", "/r")).body, "get");
    assert_eq!(router.handle_request(request("POST", "/r")).body, "post");
    assert_eq!(router.handle_request(request("PATCH", "/r")).body, "patch");
    assert_eq!(router.handle_request(request("DELETE", "/r")).body, "delete");
}

#[test]
fn registering_twice_replaces_the_handler() {
    let mut router: WebRouter<Handler, Middleware> = WebRouter::new();
    router.add("/r".to_string(), HttpMethod::GET, say("old"));
    router.add("/s".to_string(), HttpMethod::GET, say("s"));
    router.add("/r".to_string(), HttpMethod::GET, say("new"));
    assert_eq!(router.routes.len(), 2);
    assert_eq!(router.routes[0].pattern, "/r");
    assert_eq!(router.routes[1].pattern, "/s");
    assert_eq!(router.find_route("/s"), 1);
    assert_eq!(router.find_route("/t"), 2);
    assert_eq!(router.handle_request(request("GET", "/r")).body, "new");
    assert_eq!(router.handle_request(request("GET", "/s")).body, "s");
}

#[test]
fn registered_path_with_other_method_is_not_allowed() {
    let mut router: WebRouter<Handler, Middleware> = WebRouter::new();
    router.add("/r".to_string(), HttpMethod::GET, say("get"));
    router.add("/:any".to_string(), HttpMethod::POST, say("any"));
    let res = router.handle_request(request("POST", "/r"));
    assert_eq!(res.status_code, HttpStatusCode::MethodNotAllowed);
    assert_eq!(res.status_code.code().1, 405);
    assert_eq!(res.body, "Method Not Allowed");
    assert!(res.headers.is_empty());
    assert_eq!(
        res.to_string(),
        "HTTP/1.1 405 Method Not Allowed\r\nContent-Length: 18\r\n\r\nMethod Not Allowed"
    );
}

#[test]
fn unknown_path_is_not_found() {
    let mut router: WebRouter<Handler, Middleware> = WebRouter::new();
    let empty = router.handle_request(request("GET", "/"));
    assert_eq!(empty.status_code, HttpStatusCode::NotFound);
    router.add("/r".to_string(), HttpMethod::GET, say("get"));
    router.add("/users/:id".to_string(), HttpMethod::GET, say("user"));
    let res = router.handle_request(request("GET", "/nothing/here/at-all"));
    assert_eq!(res.status_code, HttpStatusCode::NotFound);
    assert_eq!(res.status_code.code().1, 404);
    assert_eq!(res.body, "Not Found");
    assert!(res.headers.is_empty());
    assert!(res.cookies.is_empty());
}

#[test]
fn dynamic_route_hands_parameters_to_the_handler() {
    let mut router: WebRouter<Handler, Middleware> = WebRouter::new();
    router.add("/users/:id".to_string(), HttpMethod::GET, describe_params());
    router.add("/users/:id/posts/:pid".to_string(), HttpMethod::GET, describe_params());
    assert_eq!(router.handle_request(request("GET", "/users/42")).body, "id=42;|");
    assert_eq!(
        router.handle_request(request("GET", "/users/7/posts/3")).body,
        "id=7;pid=3;|"
    );
    assert_eq!(
        router.handle_request(request("GET", "/users/42/extra")).status_code,
        HttpStatusCode::NotFound
    );
}

#[test]
fn dynamic_route_hands_the_query_to_the_handler() {
    let mut router: WebRouter<Handler, Middleware> = WebRouter::new();
    router.add("/search".to_string(), HttpMethod::GET, describe_params());
    let res = router.handle_request(request("GET", "/search?q=rust&lang=en"));
    assert_eq!(res.status_code, HttpStatusCode::OK);
    assert_eq!(res.body, "|q=rust;lang=en;");
    let exact = router.handle_request(request("GET", "/search"));
    assert_eq!(exact.body, "|");
}

#[test]
fn bad_query_is_a_bad_request_and_no_handler_runs() {
    let hits = Arc::new(AtomicUsize::new(0));
    let mut router: WebRouter<Handler, Middleware> = WebRouter::new();
    router.add("/search".to_string(), HttpMethod::GET, counting("found", &hits));
    let res = router.handle_request(request("GET", "/search?=bad"));
    assert_eq!(res.status_code, HttpStatusCode::BadRequest);
    assert_eq!(res.status_code.code().1, 400);
    assert_eq!(res.body, "Bad Request");
    assert_eq!(hits.load(Ordering::SeqCst), 0);
}

#[test]
fn bad_query_on_unmatched_path_is_not_found() {
    let mut router: WebRouter<Handler, Middleware> = WebRouter::new();
    router.add("/search".to_string(), HttpMethod::POST, say("post"));
    let res = router.handle_request(request("GET", "/search?=bad"));
    assert_eq!(res.status_code, HttpStatusCode::NotFound);
}

#[test]
fn dynamic_search_goes_on_past_a_pattern_without_the_method() {
    let mut router: WebRouter<Handler, Middleware> = WebRouter::new();
    router.add("/items/:id".to_string(), HttpMethod::POST, say("first"));
    router.add("/:kind/:name".to_string(), HttpMethod::GET, say("second"));
    router.add("/items/:other".to_string(), HttpMethod::GET, say("third"));
    let res = router.handle_request(request("GET", "/items/9"));
    assert_eq!(res.status_code, HttpStatusCode::OK);
    assert_eq!(res.body, "second");
    let none = router.handle_request(request("DELETE", "/items/9"));
    assert_eq!(none.status_code, HttpStatusCode::NotFound);
}

#[test]
fn first_registered_dynamic_pattern_wins() {
    let mut router: WebRouter<Handler, Middleware> = WebRouter::new();
    router.add("/:a/x".to_string(), HttpMethod::GET, say("one"));
    router.add("/y/:b".to_string(), HttpMethod::GET, say("two"));
    assert_eq!(router.handle_request(request("GET", "/y/x")).body, "one");
    let mut other: WebRouter<Handler, Middleware> = WebRouter::new();
    other.add("/y/:b".to_string(), HttpMethod::GET, say("two"));
    other.add("/:a/x".to_string(), HttpMethod::GET, say("one"));
    assert_eq!(other.handle_request(request("GET", "/y/x")).body, "two");
}

#[test]
fn middlewares_run_in_order_before_the_handler() {
    let mut router: WebRouter<Handler, Middleware> = WebRouter::new();
    router.add_middleware(Box::new(|mut c: Context| {
        c.response.headers.insert("X-Trace".to_string(), "A".to_string());
        c
    }));
    router.add_middleware(Box::new(|mut c: Context| {
        let seen = c.response.headers.get("X-Trace").cloned().unwrap_or_default();
        c.response.headers.insert("X-Trace".to_string(), format!("{}B", seen));
        c
    }));
    router.add(
        "/r".to_string(),
        HttpMethod::GET,
        Box::new(|mut c: Context| {
            let seen = c.response.headers.get("X-Trace").cloned().unwrap_or_default();
            c.send_string(HttpStatusCode::OK, &seen)
        }),
    );
    router.add("/d/:x".to_string(), HttpMethod::GET, Box::new(|mut c: Context| {
        let seen = c.response.headers.get("X-Trace").cloned().unwrap_or_default();
        c.send_string(HttpStatusCode::Accepted, &seen)
    }));
    assert_eq!(router.middlewares.len(), 2);
    let exact = router.handle_request(request("GET", "/r"));
    assert_eq!(exact.body, "AB");
    assert_eq!(exact.headers.get("X-Trace"), Some(&"AB".to_string()));
    let dynamic = router.handle_request(request("GET", "/d/1"));
    assert_eq!(dynamic.body, "AB");
    assert_eq!(dynamic.status_code, HttpStatusCode::Accepted);
}

#[test]
fn middlewares_run_even_where_no_route_matches() {
    let runs = Arc::new(AtomicUsize::new(0));
    let mut router: WebRouter<Handler, Middleware> = WebRouter::new();
    for _ in 0..2 {
        let runs = Arc::clone(&runs);
        router.add_middleware(Box::new(move |c: Context| {
            runs.fetch_add(1, Ordering::SeqCst);
            c
        }));
    }
    router.add("/r".to_string(), HttpMethod::GET, say("get"));
    assert_eq!(
        router.handle_request(request("GET", "/missing")).status_code,
        HttpStatusCode::NotFound
    );
    assert_eq!(runs.load(Ordering::SeqCst), 2);
    assert_eq!(
        router.handle_request(request("POST", "/r")).status_code,
        HttpStatusCode::MethodNotAllowed
    );
    assert_eq!(runs.load(Ordering::SeqCst), 4);
}

#[test]
fn middleware_can_change_the_request() {
    let mut router: WebRouter<Handler, Middleware> = WebRouter::new();
    router.add_middleware(Box::new(|mut c: Context| {
        c.request.path = "/rewritten".to_string();
        c
    }));
    router.add("/rewritten".to_string(), HttpMethod::GET, say("there"));
    assert_eq!(router.handle_request(request("GET", "/first")).body, "there");
}

#[test]
fn dispatch_answers_a_context_without_middlewares() {
    let runs = Arc::new(AtomicUsize::new(0));
    let mut router: WebRouter<Handler, Middleware> = WebRouter::new();
    let seen = Arc::clone(&runs);
    router.add_middleware(Box::new(move |c: Context| {
        seen.fetch_add(1, Ordering::SeqCst);
        c
    }));
    router.add("/r".to_string(), HttpMethod::GET, say("get"));
    let res = router.dispatch(Context::new(request("GET", "/r")));
    assert_eq!(res.body, "get");
    assert_eq!(runs.load(Ordering::SeqCst), 0);
}

#[test]
fn plain_responses_carry_the_reason() {
    let res = plain(HttpStatusCode::ServiceUnavailable);
    assert_eq!(res.status_code, HttpStatusCode::ServiceUnavailable);
    assert_eq!(res.body, "Service Unavailable");
    assert!(res.headers.is_empty());
    assert!(res.cookies.is_empty());
}

#[test]
fn registered_paths_are_put_in_normal_form() {
    let mut router: WebRouter<Handler, Middleware> = WebRouter::new();
    assert!(router.register("/menu/items/".to_string(), HttpMethod::GET, say("items")).is_ok());
    assert!(router.register("/".to_string(), HttpMethod::GET, say("root")).is_ok());
    assert!(router.register("/find/?".to_string(), HttpMethod::GET, say("find")).is_ok());
    assert!(router.register("/menu/items".to_string(), HttpMethod::POST, say("post")).is_ok());
    assert_eq!(router.routes.len(), 3);
    assert_eq!(router.routes[0].pattern, "/menu/items");
    assert_eq!(router.routes[1].pattern, "");
    assert_eq!(router.routes[2].pattern, "/find?");
    assert_eq!(router.handle_request(request("POST", "/menu/items")).body, "post");
}

#[test]
fn registering_an_empty_path_is_refused() {
    let mut router: WebRouter<Handler, Middleware> = WebRouter::new();
    router.add("/r".to_string(), HttpMethod::GET, say("r"));
    match router.register(String::new(), HttpMethod::GET, say("never")) {
        Err(WebRouterError::PathFormatError(m)) => {
            assert_eq!(m, "Failed to format path by slashes")
        }
        Ok(()) => panic!("expected a refusal"),
    }
    assert_eq!(router.routes.len(), 1);
    assert_eq!(router.routes[0].pattern, "/r");
    assert_eq!(router.handle_request(request("GET", "/r")).body, "r");
}

#[test]
fn request_paths_are_put_in_normal_form_before_matching() {
    let mut router: WebRouter<Handler, Middleware> = WebRouter::new();
    router.register("/menu/items/".to_string(), HttpMethod::GET, say("items")).unwrap();
    router.register("/".to_string(), HttpMethod::GET, say("root")).unwrap();
    router.register("/users/:id/".to_string(), HttpMethod::GET, describe_params()).unwrap();
    assert_eq!(router.serve(request("GET", "/menu/items")).unwrap().body, "items");
    assert_eq!(router.serve(request("GET", "/menu/items/")).unwrap().body, "items");
    assert_eq!(router.serve(request("GET", "/")).unwrap().body, "root");
    assert_eq!(router.serve(request("GET", "/users/42/")).unwrap().body, "id=42;|");
    assert_eq!(
        router.serve(request("GET", "/users/axew/?pass=x")).unwrap().body,
        "id=axew;|pass=x;"
    );
    assert_eq!(
        router.serve(request("GET", "/menu/items//")).unwrap().status_code,
        HttpStatusCode::NotFound
    );
    assert_eq!(
        router.serve(request("POST", "/menu/items/")).unwrap().status_code,
        HttpStatusCode::MethodNotAllowed
    );
    assert_eq!(
        router.handle_request(request("GET", "/menu/items/")).status_code,
        HttpStatusCode::NotFound
    );
}

#[test]
fn handler_sees_the_normal_path() {
    let mut router: WebRouter<Handler, Middleware> = WebRouter::new();
    router
        .register(
            "/echo/".to_string(),
            HttpMethod::GET,
            Box::new(|mut c: Context| {
                let path = c.request.path.clone();
                c.send_string(HttpStatusCode::OK, &path)
            }),
        )
        .unwrap();
    assert_eq!(router.serve(request("GET", "/echo/")).unwrap().body, "/echo");
}

#[test]
fn serving_an_empty_path_is_refused_after_the_middlewares() {
    let runs = Arc::new(AtomicUsize::new(0));
    let hits = Arc::new(AtomicUsize::new(0));
    let mut router: WebRouter<Handler, Middleware> = WebRouter::new();
    let seen = Arc::clone(&runs);
    router.add_middleware(Box::new(move |mut c: Context| {
        seen.fetch_add(1, Ordering::SeqCst);
        if c.request.path == "/erase" {
            c.request.path = String::new();
        }
        c
    }));
    router.register("/".to_string(), HttpMethod::GET, counting("root", &hits)).unwrap();
    match router.serve(request("GET", "/erase")) {
        Err(WebRouterError::PathFormatError(m)) => {
            assert_eq!(m, "Failed to format path by slashes")
        }
        Ok(_) => panic!("expected a refusal"),
    }
    assert_eq!(runs.load(Ordering::SeqCst), 1);
    assert_eq!(hits.load(Ordering::SeqCst), 0);
    assert_eq!(router.serve(request("GET", "/")).unwrap().body, "root");
    assert_eq!(hits.load(Ordering::SeqCst), 1);
    let mut empty = Context::new(request("GET", "/x"));
    empty.request.path = String::new();
    assert!(router.dispatch_normalised(empty).is_err());
}

#[test]
fn apply_middlewares_gives_the_context_that_is_matched() {
    let mut router: WebRouter<Handler, Middleware> = WebRouter::new();
    router.add_middleware(Box::new(|mut c: Context| {
        c.response.headers.insert("X-Step".to_string(), "1".to_string());
        c
    }));
    router.add_middleware(Box::new(|mut c: Context| {
        c.response.headers.insert("X-Step".to_string(), "2".to_string());
        c
    }));
    let ctx = router.apply_middlewares(request("GET", "/r"));
    assert_eq!(ctx.request.path, "/r");
    assert_eq!(ctx.response.headers.get("X-Step"), Some(&"2".to_string()));
    assert_eq!(ctx.response.headers.len(), 1);
}
