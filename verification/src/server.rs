//! The decisions that the server takes while it reads one request from a
//! connection: which lines belong to the head, whether a body follows
//! and how long it is, and when the request can be parsed.
//!
//! The caller owns the connection. It reads a line or the body when the
//! reader asks for one, and hands over what it read.

use crate::context::{Context, ContextView};
use crate::error::{RequestError, WebServerError};
use crate::fields::lookup;
use crate::length::{announced, declared_length, lemma_announced_prefix, read_declared_length};
use crate::request::{
    body_of, has_request_line, is_blank_line, lemma_header_end, lemma_header_end_late,
    lemma_length_line_not_blank, line_is_blank, parsed, Request,
};
use crate::response::{Response, ResponseView};
use crate::text::views;
use crate::utils::HttpStatusCode;
use vstd::prelude::*;
use vstd::utf8::{decode_utf8, valid_utf8};

verus! {

/// The text that `String::from_utf8_lossy` gives for a sequence of bytes.
pub uninterp spec fn lossy_text(bytes: Seq<u8>) -> Seq<char>;

/// Calls `String::from_utf8_lossy`, which decodes the bytes and puts the
/// replacement character in place of what is not UTF-8. The contract
/// names the outcome, and says that bytes that are UTF-8 are decoded as
/// they stand.
#[verifier::external_body]
fn decode_lossy(bytes: &[u8]) -> (res: String)
    ensures
        res@ == lossy_text(bytes@),
        valid_utf8(bytes@) ==> res@ == decode_utf8(bytes@),
{
    String::from_utf8_lossy(bytes).into_owned()
}

/// Where the reading of a request stands.
#[derive(Debug, Clone, Copy, PartialEq, Eq, Structural)]
pub enum ReadPhase {
    /// The head is being read: the next thing to read is a line.
    Head,
    /// The head is complete and announced a body: the next thing to
    /// read is as many bytes as it announced.
    Body,
    /// Nothing more is to be read: the request can be parsed.
    Done,
}

/// The mathematical value of a [`RequestReader`].
pub ghost struct ReaderView {
    /// The lines read so far, and after them the body if one was read.
    pub lines: Seq<Seq<char>>,
    /// The length that the last `Content-Length` line stated, or 0.
    pub content_length: usize,
    pub phase: ReadPhase,
    /// The body that was read, if any.
    pub body: Option<Seq<char>>,
}

/// The state of reading one request from a connection.
pub struct RequestReader {
    lines: Vec<String>,
    content_length: usize,
    phase: ReadPhase,
    has_body: bool,
}

impl View for RequestReader {
    type V = ReaderView;

    closed spec fn view(&self) -> ReaderView {
        ReaderView {
            lines: views(self.lines@),
            content_length: self.content_length,
            phase: self.phase,
            body: if self.has_body && self.lines@.len() > 0 {
                Some(self.lines@.last()@)
            } else {
                None
            },
        }
    }
}

/// The state after a line of the head was read: the line is kept; a
/// `Content-Length` line sets the announced length; a blank line ends
/// the head, and a body follows where a positive length was announced.
pub open spec fn after_line(v: ReaderView, line: Seq<char>) -> ReaderView {
    let content_length = match declared_length(line) {
        Some(Some(n)) => n,
        _ => v.content_length,
    };
    ReaderView {
        lines: v.lines.push(line),
        content_length,
        phase: if is_blank_line(line) {
            if content_length > 0 {
                ReadPhase::Body
            } else {
                ReadPhase::Done
            }
        } else {
            ReadPhase::Head
        },
        body: None,
    }
}

/// The state after the body was read.
pub open spec fn after_body(v: ReaderView, body: Seq<char>) -> ReaderView {
    ReaderView { lines: v.lines.push(body), phase: ReadPhase::Done, body: Some(body), ..v }
}

/// The lines of the head among what was read: all but the body.
pub open spec fn head_lines(v: ReaderView) -> Seq<Seq<char>> {
    if v.body.is_some() {
        v.lines.drop_last()
    } else {
        v.lines
    }
}

/// Whether none of the first `n` lines is blank.
pub open spec fn none_blank(lines: Seq<Seq<char>>, n: int) -> bool {
    forall|i: int| 0 <= i < n ==> !is_blank_line(#[trigger] lines[i])
}

impl RequestReader {
    #[verifier::type_invariant]
    spec fn well_formed(&self) -> bool {
        let lines = views(self.lines@);
        let n = lines.len() as int;
        match self.phase {
            ReadPhase::Head => {
                &&& !self.has_body
                &&& none_blank(lines, n)
                &&& self.content_length == announced(lines, n)
            },
            ReadPhase::Body => {
                &&& !self.has_body
                &&& self.content_length > 0
                &&& n >= 2
                &&& is_blank_line(lines[n - 1])
                &&& none_blank(lines, n - 1)
                &&& self.content_length == announced(lines, n)
            },
            ReadPhase::Done => if self.has_body {
                &&& self.content_length > 0
                &&& n >= 3
                &&& is_blank_line(lines[n - 2])
                &&& none_blank(lines, n - 2)
                &&& self.content_length == announced(lines, n - 1)
            } else {
                &&& none_blank(lines, n - 1)
                &&& self.content_length == announced(lines, n)
            },
        }
    }

    /// A reader that has read nothing yet.
    pub fn new() -> (reader: RequestReader)
        ensures
            reader@ == (ReaderView {
                lines: Seq::empty(),
                content_length: 0,
                phase: ReadPhase::Head,
                body: None,
            }),
    {
        let reader = RequestReader {
            lines: Vec::new(),
            content_length: 0,
            phase: ReadPhase::Head,
            has_body: false,
        };
        assert(reader@.lines =~= Seq::<Seq<char>>::empty());
        reader
    }

    /// What is to be read next.
    pub fn phase(&self) -> (phase: ReadPhase)
        ensures
            phase == self@.phase,
    {
        self.phase
    }

    /// The length of the body that the head has announced so far. A
    /// reader that waits for a body has been announced a positive one.
    pub fn content_length(&self) -> (n: usize)
        ensures
            n == self@.content_length,
            n == announced(head_lines(self@), head_lines(self@).len() as int),
            self@.phase == ReadPhase::Body ==> n > 0,
    {
        proof {
            use_type_invariant(self);
            let lines = views(self.lines@);
            if self.has_body {
                lemma_announced_prefix(lines, lines.drop_last(), lines.len() - 1);
            }
        }
        self.content_length
    }

    /// Takes a line of the head. A `Content-Length` line that states no
    /// length is refused, and the reading ends there.
    pub fn feed_line(self, line: String) -> (res: Result<RequestReader, WebServerError>)
        requires
            self@.phase == ReadPhase::Head,
        ensures
            res.is_err() == (declared_length(line@) == Some(None::<usize>)),
            res matches Ok(reader) ==> reader@ == after_line(self@, line@),
            res matches Err(e) ==> e matches WebServerError::InternalServerError(m) && m@
                == "Invalid Content-Length header"@,
    {
        proof {
            use_type_invariant(&self);
        }
        let ghost before = views(self.lines@);
        let mut content_length = self.content_length;
        match read_declared_length(line.as_str()) {
            Some(Some(n)) => {
                content_length = n;
            },
            Some(None) => {
                return Err(
                    WebServerError::InternalServerError(
                        String::from_str("Invalid Content-Length header"),
                    ),
                );
            },
            None => {},
        }
        let blank = line_is_blank(line.as_str());
        let phase = if blank {
            if content_length > 0 {
                ReadPhase::Body
            } else {
                ReadPhase::Done
            }
        } else {
            ReadPhase::Head
        };
        let mut lines = self.lines;
        lines.push(line);
        proof {
            let after = views(lines@);
            assert(after =~= before.push(line@));
            assert forall|i: int| 0 <= i < before.len() implies !is_blank_line(
                #[trigger] after[i],
            ) by {
                assert(after[i] == before[i]);
            }
            if declared_length(line@).is_some() {
                lemma_length_line_not_blank(line@);
            }
            lemma_announced_prefix(after, before, before.len() as int);
            if blank && content_length > 0 && before.len() == 0 {
                assert(announced(before, 0) == 0);
            }
        }
        let reader = RequestReader { lines, content_length, phase, has_body: false };
        Ok(reader)
    }

    /// Takes note that the stream ended while the head was read: nothing
    /// more is to be read, and there is no body.
    pub fn end_of_stream(self) -> (reader: RequestReader)
        requires
            self@.phase == ReadPhase::Head,
        ensures
            reader@ == (ReaderView { phase: ReadPhase::Done, ..self@ }),
    {
        proof {
            use_type_invariant(&self);
        }
        RequestReader {
            lines: self.lines,
            content_length: self.content_length,
            phase: ReadPhase::Done,
            has_body: false,
        }
    }

    /// Takes the bytes of the body, as many as the head announced, and
    /// decodes them as UTF-8, with replacement characters where they are
    /// not.
    pub fn feed_body(self, bytes: &[u8]) -> (reader: RequestReader)
        requires
            self@.phase == ReadPhase::Body,
            bytes@.len() == self@.content_length,
        ensures
            reader@ == after_body(self@, lossy_text(bytes@)),
            valid_utf8(bytes@) ==> lossy_text(bytes@) == decode_utf8(bytes@),
    {
        proof {
            use_type_invariant(&self);
        }
        let ghost before = views(self.lines@);
        let body = decode_lossy(bytes);
        let mut lines = self.lines;
        lines.push(body);
        proof {
            let after = views(lines@);
            assert(after =~= before.push(body@));
            assert(after[after.len() - 2] == before[before.len() - 1]);
            lemma_announced_prefix(after, before, before.len() as int);
            assert forall|i: int| 0 <= i < after.len() - 2 implies !is_blank_line(
                #[trigger] after[i],
            ) by {
                assert(after[i] == before[i]);
            }
        }
        RequestReader {
            lines,
            content_length: self.content_length,
            phase: ReadPhase::Done,
            has_body: true,
        }
    }

    /// Parses the request from what was read. The request has a body
    /// exactly where one was read, and one was read only where the head
    /// announced a positive length.
    pub fn finish(self) -> (res: Result<Request, RequestError>)
        requires
            self@.phase == ReadPhase::Done,
        ensures
            self@.lines.len() == 0 ==> res matches Err(RequestError::EmptyRequestError),
            self@.lines.len() > 0 && !has_request_line(self@.lines) ==> (res matches Err(
                RequestError::InvalidRequestLineError(line),
            ) && line@ == self@.lines[0]),
            has_request_line(self@.lines) ==> (res matches Ok(r) && r@ == parsed(self@.lines)),
            res matches Ok(r) ==> r@.body == self@.body,
            self@.body.is_some() ==> announced(
                head_lines(self@),
                head_lines(self@).len() as int,
            ) > 0,
    {
        proof {
            use_type_invariant(&self);
            lemma_body_of_read(views(self.lines@), self.has_body);
            let lines = views(self.lines@);
            if self.has_body {
                lemma_announced_prefix(lines, lines.drop_last(), lines.len() - 1);
            }
        }
        Request::new(&self.lines)
    }
}

/// The body of what a reader has read: the last line where a body was
/// read after the blank line that ends an announcing head, and none
/// where no line but the last is blank.
pub proof fn lemma_body_of_read(lines: Seq<Seq<char>>, has_body: bool)
    requires
        has_body ==> lines.len() >= 3 && is_blank_line(lines[lines.len() - 2]) && none_blank(
            lines,
            lines.len() - 2,
        ) && announced(lines, lines.len() - 1) > 0,
        !has_body ==> none_blank(lines, lines.len() - 1),
    ensures
        body_of(lines) == (if has_body {
            Some(lines.last())
        } else {
            None
        }),
{
    let n = lines.len() as int;
    if has_body {
        lemma_header_end(lines, 1, n - 2);
        if declared_length(lines[n - 2]).is_some() {
            lemma_length_line_not_blank(lines[n - 2]);
        }
        assert(announced(lines, n - 1) == announced(lines, n - 2));
        assert(lines.skip(n - 1) =~= seq![lines.last()]);
    } else if n >= 2 {
        lemma_header_end_late(lines, 1, n - 1);
    }
}

/// What a lookup of a static file came to.
#[derive(Debug)]
pub enum StaticFile {
    /// There is no such file.
    Missing,
    /// The file is there and could not be read as text.
    Unreadable,
    /// The text of the file.
    Contents(String),
}

/// The pattern under which the files of a directory are served: the
/// route path, then a capture named `filename`.
pub fn static_route(route_path: &str) -> (pattern: String)
    ensures
        pattern@ == route_path@ + "/:filename"@,
{
    String::from_str(route_path).concat("/:filename")
}

/// The name of the file that a request to a static route asks for: the
/// parameter `filename`, where the route captured one.
pub fn static_filename(ctx: &Context) -> (name: Option<String>)
    ensures
        crate::utils::option_view(name) == lookup(ctx@.params, "filename"@),
{
    match ctx.params.get("filename") {
        Some(name) => Some(name.clone()),
        None => None,
    }
}

/// The status and the body of the answer to a request for a static
/// file: 500 where the request names no file or the file cannot be
/// read, 404 where there is no such file, and 200 with its text where
/// there is.
pub open spec fn static_answer(file: Option<StaticFile>) -> (HttpStatusCode, Seq<char>) {
    match file {
        Some(StaticFile::Contents(text)) => (HttpStatusCode::OK, text@),
        Some(StaticFile::Missing) => (
            HttpStatusCode::NotFound,
            HttpStatusCode::NotFound.spec_reason(),
        ),
        _ => (
            HttpStatusCode::InternalServerError,
            HttpStatusCode::InternalServerError.spec_reason(),
        ),
    }
}

/// Answers a request for a static file. `file` is what the lookup of
/// the file named by the request came to, and `None` where the request
/// names no file.
pub fn serve_file(ctx: &mut Context, file: Option<StaticFile>) -> (res: Response)
    ensures
        final(ctx)@ == (ContextView {
            response: ResponseView {
                status_code: static_answer(file).0,
                body: static_answer(file).1,
                ..old(ctx)@.response
            },
            ..old(ctx)@
        }),
        res@ == final(ctx)@.response,
{
    match file {
        Some(StaticFile::Contents(text)) => ctx.send_string(HttpStatusCode::OK, text.as_str()),
        Some(StaticFile::Missing) => {
            let (reason, _number) = HttpStatusCode::NotFound.code();
            ctx.send_string(HttpStatusCode::NotFound, reason)
        },
        _ => {
            let (reason, _number) = HttpStatusCode::InternalServerError.code();
            ctx.send_string(HttpStatusCode::InternalServerError, reason)
        },
    }
}

} // verus!
