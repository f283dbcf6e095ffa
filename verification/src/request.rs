//! The request half of the wire codec: a parsed HTTP request, and the
//! parser that builds one from the lines of its text.

use crate::error::RequestError;
use crate::fields::{put, FieldMap};
use crate::length::{announced, declared_length, law_nothing_announced, read_declared_length};
use crate::text::{
    after_first, before_first, pieces, split, split_first, tokens, trim, trimmed, views, words,
};
use crate::utils::{Cookie, CookieView, HttpMethod};
use vstd::prelude::*;

verus! {

/// An HTTP request.
#[derive(Debug)]
pub struct Request {
    pub method: HttpMethod,
    /// The request target, with its query suffix if it has one.
    pub path: String,
    pub version: String,
    pub headers: FieldMap<String>,
    pub body: Option<String>,
    pub cookies: FieldMap<Cookie>,
}

/// The mathematical value of a [`Request`].
pub ghost struct RequestView {
    pub method: HttpMethod,
    pub path: Seq<char>,
    pub version: Seq<char>,
    pub headers: Seq<(Seq<char>, Seq<char>)>,
    pub body: Option<Seq<char>>,
    pub cookies: Seq<(Seq<char>, CookieView)>,
}

impl View for Request {
    type V = RequestView;

    open spec fn view(&self) -> RequestView {
        RequestView {
            method: self.method,
            path: self.path@,
            version: self.version@,
            headers: self.headers@,
            body: match self.body {
                Some(b) => Some(b@),
                None => None,
            },
            cookies: self.cookies@,
        }
    }
}

/// Whether a line is blank: empty, or whitespace only.
pub open spec fn is_blank_line(line: Seq<char>) -> bool {
    trim(line).len() == 0
}

/// The index of the line that ends the header block: the first blank
/// line at or after `from`, or `lines.len()` where there is none.
pub open spec fn header_end(lines: Seq<Seq<char>>, from: int) -> int
    decreases lines.len() - from,
{
    if from >= lines.len() || is_blank_line(lines[from]) {
        from
    } else {
        header_end(lines, from + 1)
    }
}

/// The header that a line states: the text before its first colon and
/// the text after it, both trimmed. A line without a colon states none.
pub open spec fn header_of(line: Seq<char>) -> Option<(Seq<char>, Seq<char>)> {
    match after_first(line, ':') {
        Some(rest) => Some((trim(before_first(line, ':')), trim(rest))),
        None => None,
    }
}

/// The headers stated by the lines from index 1 up to `to`, a later line
/// overwriting an earlier one with the same name.
pub open spec fn headers_of(lines: Seq<Seq<char>>, to: int) -> Seq<(Seq<char>, Seq<char>)>
    decreases to,
{
    if to <= 1 {
        Seq::empty()
    } else {
        let before = headers_of(lines, to - 1);
        match header_of(lines[to - 1]) {
            Some((name, value)) => put(before, name, value),
            None => before,
        }
    }
}

/// The lines joined with a line feed between each two.
pub open spec fn join_lines(lines: Seq<Seq<char>>) -> Seq<char>
    decreases lines.len(),
{
    if lines.len() == 0 {
        Seq::empty()
    } else if lines.len() == 1 {
        lines[0]
    } else {
        join_lines(lines.drop_last()) + seq!['\n'] + lines.last()
    }
}

/// The body: what follows the line that ends the header block, where
/// the lines before that line announce a positive length. There is no
/// body where they announce none, whatever follows.
pub open spec fn body_of(lines: Seq<Seq<char>>) -> Option<Seq<char>> {
    let end = header_end(lines, 1);
    if announced(lines, end) > 0 && end + 1 < lines.len() {
        Some(join_lines(lines.skip(end + 1)))
    } else {
        None
    }
}

/// The cookies stated by the first `n` pieces of a `Cookie` header: each
/// piece with an `=` gives a cookie, its name and value trimmed; a later
/// piece overwrites an earlier one with the same name.
pub open spec fn cookies_of(parts: Seq<Seq<char>>, n: int) -> Seq<(Seq<char>, CookieView)>
    decreases n,
{
    if n <= 0 {
        Seq::empty()
    } else {
        let before = cookies_of(parts, n - 1);
        match after_first(parts[n - 1], '=') {
            Some(rest) => {
                let name = trim(before_first(parts[n - 1], '='));
                put(before, name, CookieView::plain(name, trim(rest)))
            },
            None => before,
        }
    }
}

/// The cookies that a header block carries in its `Cookie` header.
pub open spec fn cookies_in(headers: Seq<(Seq<char>, Seq<char>)>) -> Seq<(Seq<char>, CookieView)> {
    match crate::fields::lookup(headers, "Cookie"@) {
        Some(text) => {
            let parts = split(text, ';');
            cookies_of(parts, parts.len() as int)
        },
        None => Seq::empty(),
    }
}

/// Whether the lines hold a request line of at least three tokens.
pub open spec fn has_request_line(lines: Seq<Seq<char>>) -> bool {
    lines.len() > 0 && tokens(lines[0]).len() >= 3
}

/// The request that the lines state, where they hold a request line.
pub open spec fn parsed(lines: Seq<Seq<char>>) -> RequestView {
    let parts = tokens(lines[0]);
    let headers = headers_of(lines, header_end(lines, 1));
    RequestView {
        method: HttpMethod::spec_from_token(parts[0]),
        path: parts[1],
        version: parts[2],
        headers,
        body: body_of(lines),
        cookies: cookies_in(headers),
    }
}

/// The method that a request-line token stands for.
pub fn method_from_token(token: &str) -> (m: HttpMethod)
    ensures
        m == HttpMethod::spec_from_token(token@),
{
    let t = String::from_str(token);
    if t == String::from_str("POST") {
        HttpMethod::POST
    } else if t == String::from_str("PATCH") {
        HttpMethod::PATCH
    } else if t == String::from_str("DELETE") {
        HttpMethod::DELETE
    } else {
        HttpMethod::GET
    }
}

/// Whether a line is empty or whitespace only.
pub fn line_is_blank(line: &str) -> (b: bool)
    ensures
        b == is_blank_line(line@),
{
    let t = trimmed(line);
    t.as_str().unicode_len() == 0
}

/// Reads the header block that starts at the second line: the headers
/// it states, and the index of the line that ends it.
pub fn parse_headers(input: &Vec<String>) -> (res: (FieldMap<String>, usize))
    requires
        input.len() > 0,
    ensures
        res.1 == header_end(views(input@), 1),
        1 <= res.1 <= input.len(),
        res.0@ == headers_of(views(input@), res.1 as int),
{
    let ghost lines = views(input@);
    let mut headers: FieldMap<String> = FieldMap::new();
    let mut index: usize = 1;
    while index < input.len()
        invariant
            1 <= index <= input.len(),
            lines == views(input@),
            header_end(lines, 1) == header_end(lines, index as int),
            headers@ == headers_of(lines, index as int),
        ensures
            1 <= index <= input.len(),
            header_end(lines, 1) == index,
            headers@ == headers_of(lines, index as int),
        decreases input.len() - index,
    {
        let line = input[index].as_str();
        assert(line@ == lines[index as int]);
        if line_is_blank(line) {
            break;
        }
        let (name, rest) = split_first(line, ':');
        match rest {
            Some(value) => {
                let key = trimmed(name.as_str());
                let val = trimmed(value.as_str());
                headers.insert(key, val);
            },
            None => {},
        }
        index += 1;
    }
    (headers, index)
}

/// The length that the first `end` lines announce for the body.
pub fn announced_length(input: &Vec<String>, end: usize) -> (res: usize)
    requires
        end <= input.len(),
    ensures
        res == announced(views(input@), end as int),
{
    let ghost lines = views(input@);
    let mut length: usize = 0;
    let mut i: usize = 0;
    while i < end
        invariant
            i <= end <= input.len(),
            lines == views(input@),
            length == announced(lines, i as int),
        decreases end - i,
    {
        assert(input@[i as int]@ == lines[i as int]);
        match read_declared_length(input[i].as_str()) {
            Some(Some(n)) => {
                length = n;
            },
            _ => {},
        }
        i += 1;
    }
    length
}

/// The lines from index `from` on, joined with line feeds.
pub fn join_from(input: &Vec<String>, from: usize) -> (res: String)
    requires
        from <= input.len(),
    ensures
        res@ == join_lines(views(input@).skip(from as int)),
{
    let ghost lines = views(input@);
    let mut out = String::new();
    let mut i: usize = from;
    assert(lines.subrange(from as int, from as int) =~= Seq::<Seq<char>>::empty());
    while i < input.len()
        invariant
            from <= i <= input.len(),
            lines == views(input@),
            out@ == join_lines(lines.subrange(from as int, i as int)),
        decreases input.len() - i,
    {
        let ghost done = lines.subrange(from as int, i as int);
        let ghost next = lines.subrange(from as int, i + 1);
        assert(next.drop_last() =~= done);
        assert(next.last() == input@[i as int]@);
        if i > from {
            out.push('\n');
        } else {
            assert(out@ + next.last() =~= next[0]);
        }
        out.append(input[i].as_str());
        i += 1;
    }
    assert(lines.subrange(from as int, i as int) =~= lines.skip(from as int));
    out
}

/// The cookies that the text of a `Cookie` header states.
pub fn parse_cookies(text: &str) -> (jar: FieldMap<Cookie>)
    ensures
        jar@ == cookies_of(split(text@, ';'), split(text@, ';').len() as int),
{
    let parts = pieces(text, ';');
    let ghost ps = split(text@, ';');
    let mut jar: FieldMap<Cookie> = FieldMap::new();
    let mut i: usize = 0;
    while i < parts.len()
        invariant
            i <= parts.len(),
            views(parts@) == ps,
            jar@ == cookies_of(ps, i as int),
        decreases parts.len() - i,
    {
        assert(parts@[i as int]@ == ps[i as int]);
        let (name, rest) = split_first(parts[i].as_str(), '=');
        match rest {
            Some(value) => {
                let key = trimmed(name.as_str());
                let val = trimmed(value.as_str());
                let cookie = Cookie::new(key.as_str(), val.as_str());
                jar.insert(key, cookie);
            },
            None => {},
        }
        i += 1;
    }
    jar
}

impl Default for Request {
    /// A `GET` request for `/` over HTTP/1.1, with no header, body or
    /// cookie.
    fn default() -> (res: Request)
        ensures
            res@ == (RequestView {
                method: HttpMethod::GET,
                path: "/"@,
                version: "HTTP/1.1"@,
                headers: Seq::empty(),
                body: None,
                cookies: Seq::empty(),
            }),
    {
        Request {
            method: HttpMethod::GET,
            path: String::from_str("/"),
            version: String::from_str("HTTP/1.1"),
            headers: FieldMap::new(),
            body: None,
            cookies: FieldMap::new(),
        }
    }
}

impl Request {
    /// Parses a request from the lines of its text: the request line,
    /// the header lines, a blank line, and what follows as the body. The
    /// request has a body only where a `Content-Length` line before the
    /// blank line announces a positive length.
    ///
    /// Fails with `EmptyRequestError` where there is no line at all, and
    /// with `InvalidRequestLineError`, holding the first line, where
    /// that line has fewer than three tokens.
    pub fn new(input: &Vec<String>) -> (res: Result<Request, RequestError>)
        ensures
            input.len() == 0 ==> res matches Err(RequestError::EmptyRequestError),
            input.len() > 0 && !has_request_line(views(input@)) ==> (res matches Err(
                RequestError::InvalidRequestLineError(line),
            ) && line@ == input@[0]@),
            has_request_line(views(input@)) ==> (res matches Ok(r) && r@ == parsed(
                views(input@),
            )),
    {
        if input.len() == 0 {
            return Err(RequestError::EmptyRequestError);
        }
        let ghost lines = views(input@);
        assert(lines[0] == input@[0]@);
        let parts = words(input[0].as_str());
        if parts.len() < 3 {
            return Err(RequestError::InvalidRequestLineError(input[0].clone()));
        }
        assert(parts@[0]@ == tokens(lines[0])[0]);
        assert(parts@[1]@ == tokens(lines[0])[1]);
        assert(parts@[2]@ == tokens(lines[0])[2]);
        let method = method_from_token(parts[0].as_str());
        let path = parts[1].clone();
        let version = parts[2].clone();
        let (headers, end) = parse_headers(input);
        let body = if end < input.len() && end + 1 < input.len() && announced_length(input, end)
            > 0 {
            Some(join_from(input, end + 1))
        } else {
            None
        };
        let cookies = match headers.get("Cookie") {
            Some(text) => parse_cookies(text.as_str()),
            None => FieldMap::new(),
        };
        Ok(Request { method, path, version, headers, body, cookies })
    }
}

/// A line that states a length is not blank.
pub proof fn lemma_length_line_not_blank(line: Seq<char>)
    requires
        declared_length(line).is_some(),
    ensures
        !is_blank_line(line),
{
    reveal_strlit("Content-Length: ");
    let p = "Content-Length: "@;
    assert(line.take(p.len() as int)[0] == p[0]);
    assert(line[0] == 'C');
    crate::utils::lemma_blank(line);
}

/// Where no line from `from` up to `end` is blank and the line at `end`
/// is, the header block ends at `end`.
pub proof fn lemma_header_end(lines: Seq<Seq<char>>, from: int, end: int)
    requires
        0 <= from <= end < lines.len(),
        forall|i: int| from <= i < end ==> !is_blank_line(#[trigger] lines[i]),
        is_blank_line(lines[end]),
    ensures
        header_end(lines, from) == end,
    decreases end - from,
{
    if from < end {
        lemma_header_end(lines, from + 1, end);
    }
}

/// Where no line from `from` up to `bound` is blank, the header block
/// does not end before `bound`.
pub proof fn lemma_header_end_late(lines: Seq<Seq<char>>, from: int, bound: int)
    requires
        0 <= from <= bound <= lines.len(),
        forall|i: int| from <= i < bound ==> !is_blank_line(#[trigger] lines[i]),
    ensures
        bound <= header_end(lines, from) <= lines.len(),
    decreases lines.len() - from,
{
    if from >= lines.len() || is_blank_line(lines[from]) {
    } else if from < bound {
        lemma_header_end_late(lines, from + 1, bound);
    } else {
        lemma_header_end_late(lines, from + 1, from + 1);
    }
}

/// A request has a body only where its head announces a positive
/// length: lines whose head holds no `Content-Length` line state no body,
/// whatever follows the blank line.
pub proof fn law_body_needs_length(lines: Seq<Seq<char>>)
    requires
        lines.len() > 0,
    ensures
        body_of(lines).is_some() ==> announced(lines, header_end(lines, 1)) > 0,
        (forall|i: int|
            0 <= i < header_end(lines, 1) ==> declared_length(#[trigger] lines[i]).is_none())
            ==> body_of(lines).is_none(),
        has_request_line(lines) ==> parsed(lines).body == body_of(lines),
{
    lemma_header_end_late(lines, 1, 1);
    if forall|i: int|
        0 <= i < header_end(lines, 1) ==> declared_length(#[trigger] lines[i]).is_none() {
        law_nothing_announced(lines, header_end(lines, 1));
    }
}

} // verus!
