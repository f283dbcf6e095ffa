//! The response half of the wire codec: an HTTP response and its
//! serialization.

use crate::fields::FieldMap;
use crate::utils::{Cookie, CookieView, HttpStatusCode};
use vstd::prelude::*;
use vstd::utf8::encode_utf8;

verus! {

/// The text that `chrono` gives for the instant `secs` seconds after the
/// Unix epoch, in the form `Thu, 01 Jan 1970 00:00:00 GMT`; `None` where
/// `chrono` cannot represent the instant.
pub uninterp spec fn http_date(secs: i64) -> Option<Seq<char>>;

/// Calls `chrono::DateTime::<Utc>::from_timestamp` on `secs` and no
/// nanoseconds, and formats the instant with `DateTime::format` and the
/// pattern `%a, %d %b %Y %H:%M:%S GMT`. The contract only gives the
/// outcome its name: it is a function of `secs` alone.
#[verifier::external_body]
fn format_http_date(secs: i64) -> (res: Option<String>)
    ensures
        res.is_some() == http_date(secs).is_some(),
        res matches Some(s) ==> http_date(secs) == Some(s@),
{
    match chrono::DateTime::<chrono::Utc>::from_timestamp(secs, 0) {
        Some(instant) => Some(instant.format("%a, %d %b %Y %H:%M:%S GMT").to_string()),
        None => None,
    }
}

/// An HTTP response.
#[derive(Debug)]
pub struct Response {
    pub status_code: HttpStatusCode,
    pub headers: FieldMap<String>,
    pub body: String,
    pub cookies: FieldMap<Cookie>,
}

/// The mathematical value of a [`Response`].
pub ghost struct ResponseView {
    pub status_code: HttpStatusCode,
    pub headers: Seq<(Seq<char>, Seq<char>)>,
    pub body: Seq<char>,
    pub cookies: Seq<(Seq<char>, CookieView)>,
}

impl View for Response {
    type V = ResponseView;

    open spec fn view(&self) -> ResponseView {
        ResponseView {
            status_code: self.status_code,
            headers: self.headers@,
            body: self.body@,
            cookies: self.cookies@,
        }
    }
}

/// The character of a decimal digit.
pub open spec fn digit_char(d: int) -> char {
    if d == 0 {
        '0'
    } else if d == 1 {
        '1'
    } else if d == 2 {
        '2'
    } else if d == 3 {
        '3'
    } else if d == 4 {
        '4'
    } else if d == 5 {
        '5'
    } else if d == 6 {
        '6'
    } else if d == 7 {
        '7'
    } else if d == 8 {
        '8'
    } else {
        '9'
    }
}

/// The decimal numeral of `n`, without leading zeros.
pub open spec fn decimal(n: nat) -> Seq<char>
    decreases n,
{
    if n < 10 {
        seq![digit_char(n as int)]
    } else {
        decimal(n / 10).push(digit_char((n % 10) as int))
    }
}

/// The status line, ended by CR LF.
pub open spec fn status_line(status: HttpStatusCode) -> Seq<char> {
    "HTTP/1.1 "@ + decimal(status.spec_number() as nat) + " "@ + status.spec_reason() + "\r\n"@
}

/// The `Content-Length` line for a body: its length in bytes.
pub open spec fn length_line(body: Seq<char>) -> Seq<char> {
    "Content-Length: "@ + decimal(encode_utf8(body).len()) + "\r\n"@
}

/// The lines of the first `n` headers, in order.
pub open spec fn header_lines(headers: Seq<(Seq<char>, Seq<char>)>, n: int) -> Seq<char>
    decreases n,
{
    if n <= 0 {
        Seq::empty()
    } else {
        header_lines(headers, n - 1) + headers[n - 1].0 + ": "@ + headers[n - 1].1 + "\r\n"@
    }
}

/// An attribute with a text value: `label` and the value where there
/// is one, nothing where there is none.
pub open spec fn text_attribute(label: Seq<char>, value: Option<Seq<char>>) -> Seq<char> {
    match value {
        Some(v) => label + v,
        None => Seq::empty(),
    }
}

/// An attribute without a value: `label` where the flag is set.
pub open spec fn flag_attribute(label: Seq<char>, on: bool) -> Seq<char> {
    if on {
        label
    } else {
        Seq::empty()
    }
}

/// The date text of an optional expiry instant.
pub open spec fn expiry_text(expires: Option<i64>) -> Option<Seq<char>> {
    match expires {
        Some(t) => http_date(t),
        None => None,
    }
}

/// The numeral of an optional lifetime.
pub open spec fn age_text(max_age: Option<u64>) -> Option<Seq<char>> {
    match max_age {
        Some(m) => Some(decimal(m as nat)),
        None => None,
    }
}

/// The value of a `Set-Cookie` header for a cookie: `name=value`, then
/// each attribute that the cookie has, in the order `Path`, `Domain`,
/// `Expires`, `Max-Age`, `Secure`, `HttpOnly`. The expiry is left out
/// where the instant has no date text.
pub open spec fn cookie_text(c: CookieView) -> Seq<char> {
    c.name + "="@ + c.value + text_attribute("; Path="@, c.path) + text_attribute(
        "; Domain="@,
        c.domain,
    ) + text_attribute("; Expires="@, expiry_text(c.expires)) + text_attribute(
        "; Max-Age="@,
        age_text(c.max_age),
    ) + flag_attribute("; Secure"@, c.secure) + flag_attribute("; HttpOnly"@, c.http_only)
}

/// The `Set-Cookie` lines of the first `n` cookies, in order.
pub open spec fn cookie_lines(cookies: Seq<(Seq<char>, CookieView)>, n: int) -> Seq<char>
    decreases n,
{
    if n <= 0 {
        Seq::empty()
    } else {
        cookie_lines(cookies, n - 1) + "Set-Cookie: "@ + cookie_text(cookies[n - 1].1) + "\r\n"@
    }
}

/// The head of a serialized response: everything before the blank line.
pub open spec fn serialized_head(r: ResponseView) -> Seq<char> {
    status_line(r.status_code) + length_line(r.body) + header_lines(
        r.headers,
        r.headers.len() as int,
    ) + cookie_lines(r.cookies, r.cookies.len() as int)
}

/// The text of a response on the wire.
pub open spec fn serialized(r: ResponseView) -> Seq<char> {
    serialized_head(r) + "\r\n"@ + r.body
}

/// The character of the decimal digit `d`.
pub fn digit(d: u64) -> (c: char)
    requires
        d < 10,
    ensures
        c == digit_char(d as int),
{
    if d == 0 {
        '0'
    } else if d == 1 {
        '1'
    } else if d == 2 {
        '2'
    } else if d == 3 {
        '3'
    } else if d == 4 {
        '4'
    } else if d == 5 {
        '5'
    } else if d == 6 {
        '6'
    } else if d == 7 {
        '7'
    } else if d == 8 {
        '8'
    } else {
        '9'
    }
}

/// Appends the decimal numeral of `n` to `out`.
pub fn push_decimal(out: &mut String, n: u64)
    ensures
        final(out)@ == old(out)@ + decimal(n as nat),
    decreases n,
{
    if n >= 10 {
        push_decimal(out, n / 10);
    }
    out.push(digit(n % 10));
    assert(out@ =~= old(out)@ + decimal(n as nat));
}

/// Appends `label` and the value to `out` where there is a value.
pub fn push_text_attribute(out: &mut String, label: &str, value: &Option<String>)
    ensures
        final(out)@ == old(out)@ + text_attribute(label@, crate::utils::option_view(*value)),
{
    match value {
        Some(v) => {
            out.append(label);
            out.append(v.as_str());
            assert(out@ =~= old(out)@ + (label@ + v@));
        },
        None => {
            assert(out@ =~= old(out)@ + Seq::<char>::empty());
        },
    }
}

/// Appends `label` to `out` where the flag is set.
pub fn push_flag_attribute(out: &mut String, label: &str, on: bool)
    ensures
        final(out)@ == old(out)@ + flag_attribute(label@, on),
{
    if on {
        out.append(label);
    } else {
        assert(out@ =~= old(out)@ + Seq::<char>::empty());
    }
}

/// The date text of an optional expiry instant.
pub fn expiry_string(expires: Option<i64>) -> (res: Option<String>)
    ensures
        crate::utils::option_view(res) == expiry_text(expires),
{
    match expires {
        Some(secs) => format_http_date(secs),
        None => None,
    }
}

/// The numeral of an optional lifetime.
pub fn age_string(max_age: Option<u64>) -> (res: Option<String>)
    ensures
        crate::utils::option_view(res) == age_text(max_age),
{
    match max_age {
        Some(age) => {
            let mut text = String::new();
            push_decimal(&mut text, age);
            assert(text@ =~= decimal(age as nat));
            Some(text)
        },
        None => None,
    }
}

/// Appends the `Set-Cookie` value of `cookie` to `out`.
pub fn push_cookie(out: &mut String, cookie: &Cookie)
    ensures
        final(out)@ == old(out)@ + cookie_text(cookie@),
{
    let ghost c = cookie@;
    let ghost start = out@;
    out.append(cookie.name.as_str());
    out.append("=");
    out.append(cookie.value.as_str());
    let ghost t0 = c.name + "="@ + c.value;
    assert(out@ =~= start + t0);
    push_text_attribute(out, "; Path=", &cookie.path);
    let ghost t1 = t0 + text_attribute("; Path="@, c.path);
    assert(out@ =~= start + t1);
    push_text_attribute(out, "; Domain=", &cookie.domain);
    let ghost t2 = t1 + text_attribute("; Domain="@, c.domain);
    assert(out@ =~= start + t2);
    let expiry = expiry_string(cookie.expires);
    push_text_attribute(out, "; Expires=", &expiry);
    let ghost t3 = t2 + text_attribute("; Expires="@, expiry_text(c.expires));
    assert(out@ =~= start + t3);
    let age = age_string(cookie.max_age);
    push_text_attribute(out, "; Max-Age=", &age);
    let ghost t4 = t3 + text_attribute("; Max-Age="@, age_text(c.max_age));
    assert(out@ =~= start + t4);
    push_flag_attribute(out, "; Secure", cookie.secure);
    let ghost t5 = t4 + flag_attribute("; Secure"@, c.secure);
    assert(out@ =~= start + t5);
    push_flag_attribute(out, "; HttpOnly", cookie.http_only);
    assert(out@ =~= start + (t5 + flag_attribute("; HttpOnly"@, c.http_only)));
}

impl Response {
    /// A response with a status and a body, and no header or cookie.
    pub fn new(status_code: HttpStatusCode, body: String) -> (res: Response)
        ensures
            res@ == (ResponseView {
                status_code,
                headers: Seq::empty(),
                body: body@,
                cookies: Seq::empty(),
            }),
    {
        Response { status_code, headers: FieldMap::new(), body, cookies: FieldMap::new() }
    }

    /// The text of the response on the wire: the status line, the
    /// `Content-Length` line computed from the body, one line per header,
    /// one `Set-Cookie` line per cookie, a blank line, and the body.
    pub fn to_string(&self) -> (out: String)
        ensures
            out@ == serialized(self@),
    {
        let (reason, number) = self.status_code.code();
        let mut out = String::from_str("HTTP/1.1 ");
        push_decimal(&mut out, number as u64);
        out.append(" ");
        out.append(reason);
        out.append("\r\n");
        assert(out@ =~= status_line(self.status_code));
        out.append("Content-Length: ");
        push_decimal(&mut out, self.body.as_str().as_bytes().len() as u64);
        out.append("\r\n");
        assert(out@ =~= status_line(self.status_code) + length_line(self.body@));
        let ghost prefix = out@;
        let n = self.headers.len();
        let mut i: usize = 0;
        while i < n
            invariant
                i <= n,
                n == self.headers@.len(),
                out@ == prefix + header_lines(self.headers@, i as int),
            decreases n - i,
        {
            let (key, value) = self.headers.entry(i);
            out.append(key.as_str());
            out.append(": ");
            out.append(value.as_str());
            out.append("\r\n");
            i += 1;
            assert(out@ =~= prefix + header_lines(self.headers@, i as int));
        }
        let ghost with_headers = out@;
        let m = self.cookies.len();
        let mut j: usize = 0;
        while j < m
            invariant
                j <= m,
                m == self.cookies@.len(),
                out@ == with_headers + cookie_lines(self.cookies@, j as int),
            decreases m - j,
        {
            let (_name, cookie) = self.cookies.entry(j);
            out.append("Set-Cookie: ");
            push_cookie(&mut out, cookie);
            out.append("\r\n");
            j += 1;
            assert(out@ =~= with_headers + cookie_lines(self.cookies@, j as int));
        }
        assert(out@ =~= serialized_head(self@));
        out.append("\r\n");
        out.append(self.body.as_str());
        out
    }
}

impl Default for Response {
    /// The response with status 200, an empty body, and no header or
    /// cookie.
    fn default() -> (res: Response)
        ensures
            res@ == (ResponseView {
                status_code: HttpStatusCode::OK,
                headers: Seq::empty(),
                body: Seq::empty(),
                cookies: Seq::empty(),
            }),
    {
        Response {
            status_code: HttpStatusCode::OK,
            headers: FieldMap::new(),
            body: String::new(),
            cookies: FieldMap::new(),
        }
    }
}

impl Clone for Response {
    fn clone(&self) -> (res: Response)
        ensures
            res@ == self@,
    {
        Response {
            status_code: self.status_code,
            headers: self.headers.duplicate(),
            body: self.body.clone(),
            cookies: self.cookies.duplicate(),
        }
    }
}

/// Whether `s` ends in CR LF.
pub open spec fn ends_in_crlf(s: Seq<char>) -> bool {
    s.len() >= 2 && s[s.len() - 2] == '\r' && s[s.len() - 1] == '\n'
}

/// The head of a serialized response ends in CR LF.
pub proof fn lemma_head_ends_in_crlf(r: ResponseView)
    ensures
        ends_in_crlf(serialized_head(r)),
{
    reveal_strlit("\r\n");
    let crlf = "\r\n"@;
    let base = status_line(r.status_code) + length_line(r.body);
    assert(ends_in_crlf(length_line(r.body)));
    assert(ends_in_crlf(base));
    let n = r.headers.len() as int;
    let hs = header_lines(r.headers, n);
    if n > 0 {
        assert(hs == header_lines(r.headers, n - 1) + r.headers[n - 1].0 + ": "@ + r.headers[n
            - 1].1 + crlf);
        assert(ends_in_crlf(hs));
    } else {
        assert(hs.len() == 0);
    }
    assert(ends_in_crlf(base + hs));
    let m = r.cookies.len() as int;
    let cs = cookie_lines(r.cookies, m);
    if m > 0 {
        assert(cs == cookie_lines(r.cookies, m - 1) + "Set-Cookie: "@ + cookie_text(
            r.cookies[m - 1].1,
        ) + crlf);
        assert(ends_in_crlf(cs));
    } else {
        assert(cs.len() == 0);
    }
    assert(ends_in_crlf(base + hs + cs));
}

/// The shape of every serialized response: it begins with the status
/// line and the `Content-Length` line for the byte length of the body,
/// whatever the headers say, and it ends with a blank line and the body.
pub proof fn law_serialized_shape(r: ResponseView)
    ensures
        (status_line(r.status_code) + length_line(r.body)).is_prefix_of(serialized(r)),
        ("\r\n\r\n"@ + r.body).is_suffix_of(serialized(r)),
{
    reveal_strlit("\r\n");
    reveal_strlit("\r\n\r\n");
    lemma_head_ends_in_crlf(r);
    let head = serialized_head(r);
    let whole = serialized(r);
    let start = status_line(r.status_code) + length_line(r.body);
    assert(whole.subrange(0, start.len() as int) =~= start);
    let tail = "\r\n\r\n"@ + r.body;
    assert(whole.subrange(whole.len() - tail.len(), whole.len() as int) =~= tail);
}

} // verus!
