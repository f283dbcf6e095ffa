//! The per-request bundle that is threaded through the middleware chain
//! and handed to the route handler.

use crate::fields::{lookup, put, FieldMap};
use crate::request::{Request, RequestView};
use crate::response::{Response, ResponseView};
use crate::text::{trim, trimmed};
use crate::utils::HttpStatusCode;
use vstd::prelude::*;

verus! {

/// The pairs that `serde_urlencoded` reads from a form-encoded text, in
/// the order of the text; `None` where it refuses the text.
pub uninterp spec fn form_pairs(text: Seq<char>) -> Option<Seq<(Seq<char>, Seq<char>)>>;

/// The pairs of a vector by their views.
pub open spec fn pair_views(v: Seq<(String, String)>) -> Seq<(Seq<char>, Seq<char>)> {
    v.map_values(|p: (String, String)| (p.0@, p.1@))
}

/// Calls `serde_urlencoded::from_str` to read `text` as a sequence of
/// pairs of strings. The contract only gives the outcome its name: it is
/// a function of the text alone.
#[verifier::external_body]
fn decode_form(text: &str) -> (res: Option<Vec<(String, String)>>)
    ensures
        res.is_some() == form_pairs(text@).is_some(),
        res matches Some(v) ==> form_pairs(text@) == Some(pair_views(v@)),
{
    match serde_urlencoded::from_str::<Vec<(String, String)>>(text) {
        Ok(pairs) => Some(pairs),
        Err(_) => None,
    }
}

/// The context of one request: the request, the response under
/// construction, and the parameters taken from the path and the query.
#[derive(Debug)]
pub struct Context {
    pub request: Request,
    pub response: Response,
    pub params: FieldMap<String>,
    pub query_params: FieldMap<String>,
}

/// The mathematical value of a [`Context`].
pub ghost struct ContextView {
    pub request: RequestView,
    pub response: ResponseView,
    pub params: Seq<(Seq<char>, Seq<char>)>,
    pub query_params: Seq<(Seq<char>, Seq<char>)>,
}

impl View for Context {
    type V = ContextView;

    open spec fn view(&self) -> ContextView {
        ContextView {
            request: self.request@,
            response: self.response@,
            params: self.params@,
            query_params: self.query_params@,
        }
    }
}

/// The value of the last pair with key `key` among the first `n` pairs.
pub open spec fn last_value(pairs: Seq<(Seq<char>, Seq<char>)>, key: Seq<char>, n: int) -> Option<
    Seq<char>,
>
    decreases n,
{
    if n <= 0 {
        None
    } else if pairs[n - 1].0 == key {
        Some(pairs[n - 1].1)
    } else {
        last_value(pairs, key, n - 1)
    }
}

/// The value of a form field among decoded pairs: that of the last pair
/// with the key, and the empty text where there is none.
pub open spec fn field_value(pairs: Seq<(Seq<char>, Seq<char>)>, key: Seq<char>) -> Seq<char> {
    match last_value(pairs, key, pairs.len() as int) {
        Some(v) => v,
        None => Seq::empty(),
    }
}

/// The value of a form field of a request: empty where the request has
/// no `Content-Type` header, no body, or a body that is no form.
pub open spec fn form_value_of(request: RequestView, key: Seq<char>) -> Seq<char> {
    if lookup(request.headers, "Content-Type"@).is_none() {
        Seq::empty()
    } else {
        match request.body {
            Some(body) => match form_pairs(trim(body)) {
                Some(pairs) => field_value(pairs, key),
                None => Seq::empty(),
            },
            None => Seq::empty(),
        }
    }
}

/// Looks a form field up among decoded pairs.
pub fn form_lookup(pairs: &Vec<(String, String)>, key: &str) -> (res: String)
    ensures
        res@ == field_value(pair_views(pairs@), key@),
{
    let wanted = String::from_str(key);
    let ghost ps = pair_views(pairs@);
    let mut i: usize = pairs.len();
    while i > 0
        invariant
            i <= pairs.len(),
            ps == pair_views(pairs@),
            wanted@ == key@,
            last_value(ps, key@, pairs.len() as int) == last_value(ps, key@, i as int),
        decreases i,
    {
        assert(ps[i - 1] == (pairs@[i - 1].0@, pairs@[i - 1].1@));
        if pairs[i - 1].0 == wanted {
            return pairs[i - 1].1.clone();
        }
        i -= 1;
    }
    String::new()
}

impl Context {
    /// The context of a fresh request: a default response and no
    /// parameter.
    pub fn new(request: Request) -> (ctx: Context)
        ensures
            ctx.request == request,
            ctx@ == Context::spec_new(request@),
    {
        Context {
            request,
            response: Response::default(),
            params: FieldMap::new(),
            query_params: FieldMap::new(),
        }
    }

    /// The value of the context that `new` makes for a request.
    pub open spec fn spec_new(request: RequestView) -> ContextView {
        ContextView {
            request,
            response: ResponseView {
                status_code: HttpStatusCode::OK,
                headers: Seq::empty(),
                body: Seq::empty(),
                cookies: Seq::empty(),
            },
            params: Seq::empty(),
            query_params: Seq::empty(),
        }
    }

    /// Sets the status and the body of the response under construction,
    /// and returns a copy of it.
    pub fn send_string(&mut self, status_code: HttpStatusCode, input: &str) -> (res: Response)
        ensures
            final(self)@ == (ContextView {
                response: ResponseView { status_code, body: input@, ..old(self)@.response },
                ..old(self)@
            }),
            res@ == final(self)@.response,
    {
        self.response.status_code = status_code;
        self.response.body = String::from_str(input);
        self.response.clone()
    }

    /// Sets the status and the `Location` header of the response under
    /// construction, and returns a copy of it.
    pub fn redirect(&mut self, status_code: HttpStatusCode, route: &str) -> (res: Response)
        ensures
            final(self)@ == (ContextView {
                response: ResponseView {
                    status_code,
                    headers: put(old(self)@.response.headers, "Location"@, route@),
                    ..old(self)@.response
                },
                ..old(self)@
            }),
            res@ == final(self)@.response,
    {
        self.response.headers.insert(String::from_str("Location"), String::from_str(route));
        self.response.status_code = status_code;
        self.response.clone()
    }

    /// The value of a field of the form that the request body carries.
    pub fn form_value(&mut self, key: &str) -> (res: String)
        ensures
            final(self)@ == old(self)@,
            res@ == form_value_of(old(self)@.request, key@),
    {
        if !self.request.headers.contains_key("Content-Type") {
            return String::new();
        }
        match &self.request.body {
            Some(body) => {
                let text = trimmed(body.as_str());
                match decode_form(text.as_str()) {
                    Some(pairs) => form_lookup(&pairs, key),
                    None => String::new(),
                }
            },
            None => String::new(),
        }
    }
}

} // verus!
