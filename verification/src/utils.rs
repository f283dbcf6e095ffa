//! HTTP methods, status codes and the path normalisation shared by the
//! router and the server.

pub mod thread_pool;

use crate::error::WebRouterError;
use crate::fields::FieldValue;
use crate::text::{is_whitespace_char, to_chars, trim};
use vstd::prelude::*;

verus! {

/// The HTTP methods the server recognises.
#[derive(Debug, Clone, Copy, PartialEq, Eq, Structural)]
pub enum HttpMethod {
    GET,
    POST,
    PATCH,
    DELETE,
}

impl HttpMethod {
    /// The method's token as it appears on a request line.
    pub open spec fn spec_name(self) -> Seq<char> {
        match self {
            HttpMethod::GET => "GET"@,
            HttpMethod::POST => "POST"@,
            HttpMethod::PATCH => "PATCH"@,
            HttpMethod::DELETE => "DELETE"@,
        }
    }

    /// The method that a request-line token stands for: one of the four
    /// recognised tokens, and `GET` for anything else.
    pub open spec fn spec_from_token(token: Seq<char>) -> HttpMethod {
        if token == "POST"@ {
            HttpMethod::POST
        } else if token == "PATCH"@ {
            HttpMethod::PATCH
        } else if token == "DELETE"@ {
            HttpMethod::DELETE
        } else {
            HttpMethod::GET
        }
    }

    /// Converts the method to its token.
    pub fn to_string(&self) -> (res: String)
        ensures
            res@ == self.spec_name(),
    {
        match self {
            HttpMethod::GET => String::from_str("GET"),
            HttpMethod::POST => String::from_str("POST"),
            HttpMethod::PATCH => String::from_str("PATCH"),
            HttpMethod::DELETE => String::from_str("DELETE"),
        }
    }
}

/// The status codes the server can answer with.
#[derive(Debug, Clone, Copy, PartialEq, Eq, Structural)]
pub enum HttpStatusCode {
    OK,
    Created,
    Accepted,
    NoContent,
    MovedPermanently,
    Found,
    SeeOther,
    NotModified,
    BadRequest,
    Unauthorized,
    Forbidden,
    NotFound,
    MethodNotAllowed,
    InternalServerError,
    NotImplemented,
    BadGateway,
    ServiceUnavailable,
}

impl HttpStatusCode {
    /// The numeric code of the status.
    pub open spec fn spec_number(self) -> u16 {
        match self {
            HttpStatusCode::OK => 200,
            HttpStatusCode::Created => 201,
            HttpStatusCode::Accepted => 202,
            HttpStatusCode::NoContent => 204,
            HttpStatusCode::MovedPermanently => 301,
            HttpStatusCode::Found => 302,
            HttpStatusCode::SeeOther => 303,
            HttpStatusCode::NotModified => 304,
            HttpStatusCode::BadRequest => 400,
            HttpStatusCode::Unauthorized => 401,
            HttpStatusCode::Forbidden => 403,
            HttpStatusCode::NotFound => 404,
            HttpStatusCode::MethodNotAllowed => 405,
            HttpStatusCode::InternalServerError => 500,
            HttpStatusCode::NotImplemented => 501,
            HttpStatusCode::BadGateway => 502,
            HttpStatusCode::ServiceUnavailable => 503,
        }
    }

    /// The reason phrase of the status.
    pub open spec fn spec_reason(self) -> Seq<char> {
        match self {
            HttpStatusCode::OK => "OK"@,
            HttpStatusCode::Created => "Created"@,
            HttpStatusCode::Accepted => "Accepted"@,
            HttpStatusCode::NoContent => "No Content"@,
            HttpStatusCode::MovedPermanently => "Moved Permanently"@,
            HttpStatusCode::Found => "Found"@,
            HttpStatusCode::SeeOther => "See Other"@,
            HttpStatusCode::NotModified => "Not Modified"@,
            HttpStatusCode::BadRequest => "Bad Request"@,
            HttpStatusCode::Unauthorized => "Unauthorized"@,
            HttpStatusCode::Forbidden => "Forbidden"@,
            HttpStatusCode::NotFound => "Not Found"@,
            HttpStatusCode::MethodNotAllowed => "Method Not Allowed"@,
            HttpStatusCode::InternalServerError => "Internal Server Error"@,
            HttpStatusCode::NotImplemented => "Not Implemented"@,
            HttpStatusCode::BadGateway => "Bad Gateway"@,
            HttpStatusCode::ServiceUnavailable => "Service Unavailable"@,
        }
    }

    /// The reason phrase and the numeric code of the status.
    pub fn code(&self) -> (res: (&'static str, u16))
        ensures
            res.0@ == self.spec_reason(),
            res.1 == self.spec_number(),
    {
        match self {
            HttpStatusCode::OK => ("OK", 200),
            HttpStatusCode::Created => ("Created", 201),
            HttpStatusCode::Accepted => ("Accepted", 202),
            HttpStatusCode::NoContent => ("No Content", 204),
            HttpStatusCode::MovedPermanently => ("Moved Permanently", 301),
            HttpStatusCode::Found => ("Found", 302),
            HttpStatusCode::SeeOther => ("See Other", 303),
            HttpStatusCode::NotModified => ("Not Modified", 304),
            HttpStatusCode::BadRequest => ("Bad Request", 400),
            HttpStatusCode::Unauthorized => ("Unauthorized", 401),
            HttpStatusCode::Forbidden => ("Forbidden", 403),
            HttpStatusCode::NotFound => ("Not Found", 404),
            HttpStatusCode::MethodNotAllowed => ("Method Not Allowed", 405),
            HttpStatusCode::InternalServerError => ("Internal Server Error", 500),
            HttpStatusCode::NotImplemented => ("Not Implemented", 501),
            HttpStatusCode::BadGateway => ("Bad Gateway", 502),
            HttpStatusCode::ServiceUnavailable => ("Service Unavailable", 503),
        }
    }
}

/// Whether `s` holds nothing but whitespace.
pub open spec fn is_blank(s: Seq<char>) -> bool {
    trim(s).len() == 0
}

/// `s` without one trailing slash, if it ends in one.
pub open spec fn strip_slash(s: Seq<char>) -> Seq<char> {
    if s.len() > 0 && s.last() == '/' {
        s.drop_last()
    } else {
        s
    }
}

/// `s` with every `/?` replaced by `?`, from left to right.
pub open spec fn collapse_query_slash(s: Seq<char>) -> Seq<char>
    decreases s.len(),
{
    if s.len() == 0 {
        s
    } else if s.len() >= 2 && s[0] == '/' && s[1] == '?' {
        seq!['?'] + collapse_query_slash(s.skip(2))
    } else {
        seq![s[0]] + collapse_query_slash(s.skip(1))
    }
}

/// Whether a path can be normalised: it is not empty.
pub open spec fn path_accepted(s: Seq<char>) -> bool {
    s.len() > 0
}

/// The normal form of an accepted path: a blank path stands for `/`; one
/// trailing slash is dropped; every `/?` becomes `?`.
pub open spec fn formatted_path(s: Seq<char>) -> Seq<char> {
    let p = if is_blank(s) {
        seq!['/']
    } else {
        s
    };
    collapse_query_slash(strip_slash(p))
}

/// Normalises a route or request path, so that `/menu/items/` and
/// `/menu/items` name the same route. An empty path is refused.
pub fn format_path_by_slashes(path: String) -> (res: Result<String, WebRouterError>)
    ensures
        res.is_ok() == path_accepted(path@),
        res matches Ok(p) ==> p@ == formatted_path(path@),
        res matches Err(e) ==> e matches WebRouterError::PathFormatError(m) && m@
            == "Failed to format path by slashes"@,
{
    let mut cs = to_chars(path.as_str());
    if cs.len() == 0 {
        return Err(
            WebRouterError::PathFormatError(String::from_str("Failed to format path by slashes")),
        );
    }
    let mut blank = true;
    let mut i: usize = 0;
    while i < cs.len()
        invariant
            i <= cs.len(),
            blank == (forall|j: int| 0 <= j < i ==> crate::text::is_whitespace(#[trigger] cs@[j])),
        decreases cs.len() - i,
    {
        if !is_whitespace_char(cs[i]) {
            blank = false;
        }
        i += 1;
    }
    proof {
        lemma_blank(cs@);
    }
    if blank {
        cs = Vec::new();
        cs.push('/');
        assert(cs@ =~= seq!['/']);
    }
    let mut end: usize = cs.len();
    if end > 0 && cs[end - 1] == '/' {
        end -= 1;
    }
    let ghost stripped = strip_slash(cs@);
    assert(stripped =~= cs@.take(end as int));
    let mut out = String::new();
    let mut k: usize = 0;
    assert(stripped.skip(0) =~= stripped);
    while k < end
        invariant
            k <= end <= cs.len(),
            stripped == cs@.take(end as int),
            out@ + collapse_query_slash(stripped.skip(k as int)) == collapse_query_slash(stripped),
        decreases end - k,
    {
        let ghost rest = stripped.skip(k as int);
        let ghost before = out@;
        if cs[k] == '/' && k + 1 < end && cs[k + 1] == '?' {
            out.push('?');
            k += 2;
            assert(rest.skip(2) =~= stripped.skip(k as int));
        } else {
            out.push(cs[k]);
            k += 1;
            assert(rest.skip(1) =~= stripped.skip(k as int));
        }
        assert(out@ + collapse_query_slash(stripped.skip(k as int)) =~= before
            + collapse_query_slash(rest));
    }
    assert(out@ =~= collapse_query_slash(stripped));
    Ok(out)
}

/// A sequence is blank exactly when each of its characters is whitespace.
pub proof fn lemma_blank(s: Seq<char>)
    ensures
        is_blank(s) <==> (forall|j: int| 0 <= j < s.len() ==> crate::text::is_whitespace(
            #[trigger] s[j],
        )),
{
    crate::text::lemma_leading_whitespace(s);
    let t = crate::text::trim_start(s);
    crate::text::lemma_trailing_whitespace(t);
    let a = crate::text::leading_whitespace(s);
    if is_blank(s) {
        assert forall|j: int| 0 <= j < s.len() implies crate::text::is_whitespace(
            #[trigger] s[j],
        ) by {
            if j >= a {
                assert(t[j - a] == s[j]);
            }
        }
    }
    if forall|j: int| 0 <= j < s.len() ==> crate::text::is_whitespace(#[trigger] s[j]) {
        if a < s.len() {
            assert(crate::text::is_whitespace(s[a]));
        }
    }
}

/// A cookie: what a request carries under a name, or what a response
/// asks the client to keep.
#[derive(Debug)]
pub struct Cookie {
    pub name: String,
    pub value: String,
    /// The instant at which the cookie expires, in seconds since the
    /// Unix epoch.
    pub expires: Option<i64>,
    pub path: Option<String>,
    pub domain: Option<String>,
    /// The lifetime of the cookie in seconds.
    pub max_age: Option<u64>,
    pub secure: bool,
    pub http_only: bool,
}

/// The mathematical value of a [`Cookie`].
pub ghost struct CookieView {
    pub name: Seq<char>,
    pub value: Seq<char>,
    pub expires: Option<i64>,
    pub path: Option<Seq<char>>,
    pub domain: Option<Seq<char>>,
    pub max_age: Option<u64>,
    pub secure: bool,
    pub http_only: bool,
}

/// The view of an optional string.
pub open spec fn option_view(s: Option<String>) -> Option<Seq<char>> {
    match s {
        Some(t) => Some(t@),
        None => None,
    }
}

impl View for Cookie {
    type V = CookieView;

    open spec fn view(&self) -> CookieView {
        CookieView {
            name: self.name@,
            value: self.value@,
            expires: self.expires,
            path: option_view(self.path),
            domain: option_view(self.domain),
            max_age: self.max_age,
            secure: self.secure,
            http_only: self.http_only,
        }
    }
}

impl CookieView {
    /// The cookie that has a name and a value and nothing else.
    pub open spec fn plain(name: Seq<char>, value: Seq<char>) -> CookieView {
        CookieView {
            name,
            value,
            expires: None,
            path: None,
            domain: None,
            max_age: None,
            secure: false,
            http_only: false,
        }
    }
}

/// A copy of an optional string.
pub fn duplicate_option(s: &Option<String>) -> (res: Option<String>)
    ensures
        option_view(res) == option_view(*s),
{
    match s {
        Some(t) => Some(t.clone()),
        None => None,
    }
}

impl Cookie {
    /// A cookie with a name and a value, and no attribute.
    pub fn new(name: &str, value: &str) -> (c: Cookie)
        ensures
            c@ == CookieView::plain(name@, value@),
    {
        Cookie {
            name: String::from_str(name),
            value: String::from_str(value),
            expires: None,
            path: None,
            domain: None,
            max_age: None,
            secure: false,
            http_only: false,
        }
    }
}

impl FieldValue for Cookie {
    fn duplicate(&self) -> (res: Cookie) {
        Cookie {
            name: self.name.clone(),
            value: self.value.clone(),
            expires: self.expires,
            path: duplicate_option(&self.path),
            domain: duplicate_option(&self.domain),
            max_age: self.max_age,
            secure: self.secure,
            http_only: self.http_only,
        }
    }
}

impl Clone for Cookie {
    fn clone(&self) -> (res: Cookie)
        ensures
            res@ == self@,
    {
        self.duplicate()
    }
}

} // verus!
