//! The router: registered path patterns with a handler per method, an
//! ordered middleware chain, and the matching of a request to a handler.
//!
//! Routes are kept in the order in which their patterns were first
//! registered, and where more than one pattern matches a path
//! dynamically, the first registered one that has a handler for the
//! method is used.

use crate::context::Context;
use crate::error::WebRouterError;
use crate::fields::{put, FieldMap};
use crate::request::Request;
use crate::response::{Response, ResponseView};
use crate::text::{
    after_first, before_first, pieces, split, split_first, substring, to_chars, views,
};
use crate::utils::{
    format_path_by_slashes, formatted_path, path_accepted, HttpMethod, HttpStatusCode,
};
use vstd::prelude::*;

verus! {

/// The handlers of one pattern, one slot per method.
pub struct MethodHandlers<H> {
    pub get: Option<H>,
    pub post: Option<H>,
    pub patch: Option<H>,
    pub delete: Option<H>,
}

/// A registered pattern with its handlers.
pub struct Route<H> {
    pub pattern: String,
    pub handlers: MethodHandlers<H>,
}

/// The route table and the middleware chain.
pub struct WebRouter<H, M> {
    pub routes: Vec<Route<H>>,
    pub middlewares: Vec<M>,
}

impl<H> MethodHandlers<H> {
    /// The handler registered for `method`, in the model.
    pub open spec fn spec_get(&self, method: HttpMethod) -> Option<H> {
        match method {
            HttpMethod::GET => self.get,
            HttpMethod::POST => self.post,
            HttpMethod::PATCH => self.patch,
            HttpMethod::DELETE => self.delete,
        }
    }

    /// The handlers after registering `handler` for `method`.
    pub open spec fn spec_set(self, method: HttpMethod, handler: H) -> MethodHandlers<H> {
        match method {
            HttpMethod::GET => MethodHandlers { get: Some(handler), ..self },
            HttpMethod::POST => MethodHandlers { post: Some(handler), ..self },
            HttpMethod::PATCH => MethodHandlers { patch: Some(handler), ..self },
            HttpMethod::DELETE => MethodHandlers { delete: Some(handler), ..self },
        }
    }

    /// No handler at all.
    pub open spec fn spec_empty() -> MethodHandlers<H> {
        MethodHandlers { get: None, post: None, patch: None, delete: None }
    }

    /// No handler at all.
    pub fn empty() -> (res: MethodHandlers<H>)
        ensures
            res == Self::spec_empty(),
    {
        MethodHandlers { get: None, post: None, patch: None, delete: None }
    }

    /// The handler registered for `method`, if any.
    pub fn get(&self, method: HttpMethod) -> (res: Option<&H>)
        ensures
            res.is_some() == self.spec_get(method).is_some(),
            res matches Some(h) ==> self.spec_get(method) == Some(*h),
    {
        match method {
            HttpMethod::GET => self.get.as_ref(),
            HttpMethod::POST => self.post.as_ref(),
            HttpMethod::PATCH => self.patch.as_ref(),
            HttpMethod::DELETE => self.delete.as_ref(),
        }
    }

    /// Registers `handler` for `method`, replacing the one that was there.
    pub fn set(&mut self, method: HttpMethod, handler: H)
        ensures
            *final(self) == old(self).spec_set(method, handler),
    {
        match method {
            HttpMethod::GET => {
                self.get = Some(handler);
            },
            HttpMethod::POST => {
                self.post = Some(handler);
            },
            HttpMethod::PATCH => {
                self.patch = Some(handler);
            },
            HttpMethod::DELETE => {
                self.delete = Some(handler);
            },
        }
    }
}

/// Position of the first route with pattern `path`, or `routes.len()`.
pub open spec fn route_index<H>(routes: Seq<Route<H>>, path: Seq<char>) -> int
    decreases routes.len(),
{
    if routes.len() == 0 || routes[0].pattern@ == path {
        0
    } else {
        1 + route_index(routes.drop_first(), path)
    }
}

/// The path without its query suffix: what stands before the first `?`.
pub open spec fn strip_query(path: Seq<char>) -> Seq<char> {
    before_first(path, '?')
}

/// Whether a pattern segment is a capture: it begins with a colon.
pub open spec fn is_capture(segment: Seq<char>) -> bool {
    segment.len() > 0 && segment[0] == ':'
}

/// Whether the first `n` segments of a path fit those of a pattern: a
/// capture fits any segment, another segment only itself.
pub open spec fn segments_fit(path: Seq<Seq<char>>, pattern: Seq<Seq<char>>, n: int) -> bool {
    forall|i: int| 0 <= i < n ==> is_capture(#[trigger] pattern[i]) || pattern[i] == path[i]
}

/// What the captures among the first `n` pattern segments bind: the
/// name after the colon to the path segment at the same place, a later
/// capture overwriting an earlier one of the same name.
pub open spec fn captures(path: Seq<Seq<char>>, pattern: Seq<Seq<char>>, n: int) -> Seq<
    (Seq<char>, Seq<char>),
>
    decreases n,
{
    if n <= 0 {
        Seq::empty()
    } else {
        let before = captures(path, pattern, n - 1);
        if is_capture(pattern[n - 1]) {
            put(before, pattern[n - 1].skip(1), path[n - 1])
        } else {
            before
        }
    }
}

/// The parameters that a pattern captures from a request path, where
/// the pattern matches it: both have the same number of segments, and
/// every segment fits.
pub open spec fn dynamic_match(path: Seq<char>, pattern: Seq<char>) -> Option<
    Seq<(Seq<char>, Seq<char>)>,
> {
    let p = split(strip_query(path), '/');
    let q = split(pattern, '/');
    if p.len() == q.len() && segments_fit(p, q, q.len() as int) {
        Some(captures(p, q, q.len() as int))
    } else {
        None
    }
}

/// The query of a path: what stands between its first `?` and the next
/// one, or the end.
pub open spec fn query_of(path: Seq<char>) -> Option<Seq<char>> {
    match after_first(path, '?') {
        Some(rest) => Some(before_first(rest, '?')),
        None => None,
    }
}

/// The value of a query piece: what follows its first `=`, if anything.
pub open spec fn piece_value(piece: Seq<char>) -> Seq<char> {
    match after_first(piece, '=') {
        Some(v) => v,
        None => Seq::empty(),
    }
}

/// Whether each of the first `n` pieces has a key that is not empty.
pub open spec fn keys_present(parts: Seq<Seq<char>>, n: int) -> bool {
    forall|i: int| 0 <= i < n ==> before_first(#[trigger] parts[i], '=').len() > 0
}

/// The pairs that the first `n` pieces state, a later piece overwriting
/// an earlier one with the same key.
pub open spec fn query_pairs(parts: Seq<Seq<char>>, n: int) -> Seq<(Seq<char>, Seq<char>)>
    decreases n,
{
    if n <= 0 {
        Seq::empty()
    } else {
        put(query_pairs(parts, n - 1), before_first(parts[n - 1], '='), piece_value(parts[n - 1]))
    }
}

/// The query parameters of a path: none where it has no `?`; else the
/// pairs of the pieces between `&`. `None` where a piece has an empty
/// key.
pub open spec fn parse_query(path: Seq<char>) -> Option<Seq<(Seq<char>, Seq<char>)>> {
    match query_of(path) {
        Some(q) => {
            let parts = split(q, '&');
            if keys_present(parts, parts.len() as int) {
                Some(query_pairs(parts, parts.len() as int))
            } else {
                None
            }
        },
        None => Some(Seq::empty()),
    }
}

/// Whether route `r` takes a request dynamically: its pattern matches
/// the path and it has a handler for the method.
pub open spec fn takes<H>(r: Route<H>, path: Seq<char>, method: HttpMethod) -> bool {
    dynamic_match(path, r.pattern@).is_some() && r.handlers.spec_get(method).is_some()
}

/// Position of the first route at or after `from` that takes the
/// request dynamically, or `routes.len()`.
pub open spec fn dispatch_index<H>(
    routes: Seq<Route<H>>,
    path: Seq<char>,
    method: HttpMethod,
    from: int,
) -> int
    decreases routes.len() - from,
{
    if from >= routes.len() || takes(routes[from], path, method) {
        from
    } else {
        dispatch_index(routes, path, method, from + 1)
    }
}

/// The response that the router itself gives for a status: the reason
/// phrase as body, no header, no cookie.
pub open spec fn plain_response(status: HttpStatusCode) -> ResponseView {
    ResponseView {
        status_code: status,
        headers: Seq::empty(),
        body: status.spec_reason(),
        cookies: Seq::empty(),
    }
}

/// Matches a request path against a pattern, and gives the parameters
/// that the pattern captures where it matches.
pub fn match_dynamic_route(request_path: &str, route_path: &str) -> (res: Option<FieldMap<String>>)
    ensures
        res.is_some() == dynamic_match(request_path@, route_path@).is_some(),
        res matches Some(params) ==> dynamic_match(request_path@, route_path@) == Some(params@),
{
    let (stripped, _query) = split_first(request_path, '?');
    let path_parts = pieces(stripped.as_str(), '/');
    let route_parts = pieces(route_path, '/');
    let ghost p = split(strip_query(request_path@), '/');
    let ghost q = split(route_path@, '/');
    if route_parts.len() != path_parts.len() {
        return None;
    }
    let mut params: FieldMap<String> = FieldMap::new();
    let mut i: usize = 0;
    while i < route_parts.len()
        invariant
            i <= route_parts.len(),
            route_parts.len() == path_parts.len(),
            views(path_parts@) == p,
            views(route_parts@) == q,
            p == split(strip_query(request_path@), '/'),
            q == split(route_path@, '/'),
            segments_fit(p, q, i as int),
            params@ == captures(p, q, i as int),
        decreases route_parts.len() - i,
    {
        assert(route_parts@[i as int]@ == q[i as int]);
        assert(path_parts@[i as int]@ == p[i as int]);
        let segment = to_chars(route_parts[i].as_str());
        if segment.len() > 0 && segment[0] == ':' {
            let name = substring(&segment, 1, segment.len());
            assert(name@ =~= q[i as int].skip(1));
            params.insert(name, path_parts[i].clone());
        } else if !(path_parts[i] == route_parts[i]) {
            assert(!is_capture(q[i as int]) && q[i as int] != p[i as int]);
            return None;
        }
        i += 1;
    }
    Some(params)
}

/// Reads the query parameters of a request path. `None` where a piece
/// of the query has an empty key.
pub fn query_params(request_path: &str) -> (res: Option<FieldMap<String>>)
    ensures
        res.is_some() == parse_query(request_path@).is_some(),
        res matches Some(params) ==> parse_query(request_path@) == Some(params@),
{
    let mut params: FieldMap<String> = FieldMap::new();
    let (_path, rest) = split_first(request_path, '?');
    match rest {
        Some(tail) => {
            let (query, _more) = split_first(tail.as_str(), '?');
            let parts = pieces(query.as_str(), '&');
            let ghost ps = split(query@, '&');
            let mut i: usize = 0;
            while i < parts.len()
                invariant
                    i <= parts.len(),
                    views(parts@) == ps,
                    ps == split(query@, '&'),
                    query_of(request_path@) == Some(query@),
                    keys_present(ps, i as int),
                    params@ == query_pairs(ps, i as int),
                decreases parts.len() - i,
            {
                assert(parts@[i as int]@ == ps[i as int]);
                let (key, value) = split_first(parts[i].as_str(), '=');
                if key.as_str().unicode_len() == 0 {
                    assert(before_first(ps[i as int], '=').len() == 0);
                    return None;
                }
                let text = match value {
                    Some(v) => v,
                    None => String::new(),
                };
                params.insert(key, text);
                i += 1;
            }
            Some(params)
        },
        None => Some(params),
    }
}

/// The response that the router itself gives for a status.
pub fn plain(status: HttpStatusCode) -> (res: Response)
    ensures
        res@ == plain_response(status),
{
    let (reason, _number) = status.code();
    Response::new(status, String::from_str(reason))
}

/// Whether the first `n` middlewares, applied in order to `start`, can
/// give `end`.
pub open spec fn chain<M: Fn(Context) -> Context>(
    middlewares: Seq<M>,
    n: int,
    start: Context,
    end: Context,
) -> bool
    decreases n,
{
    if n <= 0 {
        end == start
    } else {
        let last = middlewares[n - 1];
        exists|mid: Context|
            chain(middlewares, n - 1, start, mid) && #[trigger] call_ensures(last, (mid,), end)
    }
}

/// Whether `res` is what handler `handler` can answer to a request that
/// a route took dynamically: the handler sees the context with the
/// captured parameters and the query parameters; where the query has a
/// piece with an empty key, the answer is 400 and no handler runs.
pub open spec fn dynamic_answer<H: Fn(Context) -> Response>(
    handler: H,
    pattern: Seq<char>,
    ctx: Context,
    res: Response,
) -> bool {
    let path = ctx.request.path@;
    match parse_query(path) {
        Some(query) => exists|seen: Context|
            {
                &&& seen.request == ctx.request
                &&& seen.response == ctx.response
                &&& Some(seen.params@) == dynamic_match(path, pattern)
                &&& seen.query_params@ == query
                &&& #[trigger] call_ensures(handler, (seen,), res)
            },
        None => res@ == plain_response(HttpStatusCode::BadRequest),
    }
}

/// Whether `after` is the context `before` with the path of its request
/// in normal form, and nothing else changed.
pub open spec fn with_normal_path(before: Context, after: Context) -> bool {
    &&& after.request.path@ == formatted_path(before.request.path@)
    &&& after.request.method == before.request.method
    &&& after.request.version == before.request.version
    &&& after.request.headers == before.request.headers
    &&& after.request.body == before.request.body
    &&& after.request.cookies == before.request.cookies
    &&& after.response == before.response
    &&& after.params == before.params
    &&& after.query_params == before.query_params
}

/// Whether an error is the refusal of a path that cannot be normalised.
pub open spec fn is_path_refusal(e: WebRouterError) -> bool {
    e matches WebRouterError::PathFormatError(m) && m@ == "Failed to format path by slashes"@
}

impl<H: Fn(Context) -> Response, M: Fn(Context) -> Context> WebRouter<H, M> {
    /// Every middleware and every handler accepts every context.
    pub open spec fn total(&self) -> bool {
        &&& forall|i: int, c: Context|
            0 <= i < self.middlewares@.len() ==> #[trigger] call_requires(
                self.middlewares@[i],
                (c,),
            )
        &&& forall|i: int, m: HttpMethod, c: Context|
            0 <= i < self.routes@.len() && self.routes@[i].handlers.spec_get(m).is_some()
                ==> #[trigger] call_requires(self.routes@[i].handlers.spec_get(m).unwrap(), (c,))
    }

    /// Whether `res` is what the route table can answer to the context
    /// `ctx`, once the middlewares have run.
    ///
    /// Where a pattern equals the path, its handler for the method
    /// answers, and the answer is 405 where it has none. Otherwise the
    /// first route that matches the path dynamically and has a handler
    /// for the method answers, and the answer is 404 where there is none.
    pub open spec fn responds(&self, ctx: Context, res: Response) -> bool {
        let routes = self.routes@;
        let path = ctx.request.path@;
        let method = ctx.request.method;
        let exact = route_index(routes, path);
        let first = dispatch_index(routes, path, method, 0);
        if exact < routes.len() {
            match routes[exact].handlers.spec_get(method) {
                Some(handler) => call_ensures(handler, (ctx,), res),
                None => res@ == plain_response(HttpStatusCode::MethodNotAllowed),
            }
        } else if first < routes.len() {
            dynamic_answer(
                routes[first].handlers.spec_get(method).unwrap(),
                routes[first].pattern@,
                ctx,
                res,
            )
        } else {
            res@ == plain_response(HttpStatusCode::NotFound)
        }
    }

    /// Whether `res` is what the route table can answer to the context
    /// `ctx` once the path of its request is put in normal form: the
    /// refusal of the path where it cannot be, and else what the table
    /// answers to the context with the normal path.
    pub open spec fn serves(&self, ctx: Context, res: Result<Response, WebRouterError>) -> bool {
        match res {
            Ok(r) => path_accepted(ctx.request.path@) && exists|seen: Context|
                with_normal_path(ctx, seen) && #[trigger] self.responds(seen, r),
            Err(e) => !path_accepted(ctx.request.path@) && is_path_refusal(e),
        }
    }

    /// Whether `after` is the route table `before` with `handler`
    /// registered for `method` under `path`: the route with that pattern
    /// gets the handler in place, and where there is none a new route is
    /// appended.
    pub open spec fn registered(
        before: Seq<Route<H>>,
        after: Seq<Route<H>>,
        path: Seq<char>,
        method: HttpMethod,
        handler: H,
    ) -> bool {
        let i = route_index(before, path);
        &&& after.len() == (if i < before.len() {
            before.len()
        } else {
            before.len() + 1
        })
        &&& forall|j: int| 0 <= j < before.len() && j != i ==> after[j] == before[j]
        &&& after[i].pattern@ == path
        &&& after[i].handlers == (if i < before.len() {
            before[i].handlers
        } else {
            MethodHandlers::spec_empty()
        }).spec_set(method, handler)
    }

    /// A router with no route and no middleware.
    pub fn new() -> (router: Self)
        ensures
            router.routes@.len() == 0,
            router.middlewares@.len() == 0,
    {
        WebRouter { routes: Vec::new(), middlewares: Vec::new() }
    }

    /// Position of the first route with pattern `path`.
    pub fn find_route(&self, path: &str) -> (i: usize)
        ensures
            i == route_index(self.routes@, path@),
            i <= self.routes@.len(),
    {
        let wanted = String::from_str(path);
        let mut i: usize = 0;
        while i < self.routes.len()
            invariant
                i <= self.routes.len(),
                wanted@ == path@,
                forall|j: int| 0 <= j < i ==> (#[trigger] self.routes@[j]).pattern@ != path@,
            ensures
                i <= self.routes.len(),
                forall|j: int| 0 <= j < i ==> (#[trigger] self.routes@[j]).pattern@ != path@,
                i < self.routes.len() ==> self.routes@[i as int].pattern@ == path@,
            decreases self.routes.len() - i,
        {
            if self.routes[i].pattern == wanted {
                break;
            }
            i += 1;
        }
        proof {
            lemma_route_index_unique(self.routes@, path@, i as int);
        }
        i
    }

    /// Registers `handler` for `method` under the pattern `path`. A
    /// handler registered before for the same pattern and method is
    /// replaced.
    pub fn add(&mut self, path: String, method: HttpMethod, handler: H)
        ensures
            Self::registered(old(self).routes@, final(self).routes@, path@, method, handler),
            final(self).middlewares == old(self).middlewares,
    {
        let i = self.find_route(path.as_str());
        proof {
            lemma_route_index(self.routes@, path@);
        }
        if i < self.routes.len() {
            let mut route = self.routes.remove(i);
            route.handlers.set(method, handler);
            self.routes.insert(i, route);
            assert(self.routes@[i as int] == route);
            assert forall|j: int| 0 <= j < old(self).routes@.len() && j != i implies self.routes@[j]
                == old(self).routes@[j] by {}
        } else {
            let mut handlers = MethodHandlers::empty();
            handlers.set(method, handler);
            self.routes.push(Route { pattern: path, handlers });
        }
    }

    /// Applies every middleware, in registration order, to the fresh
    /// context of a request.
    pub fn apply_middlewares(&self, request: Request) -> (ctx: Context)
        requires
            self.total(),
        ensures
            exists|start: Context|
                {
                    &&& start.request == request
                    &&& start@ == Context::spec_new(request@)
                    &&& #[trigger] chain(
                        self.middlewares@,
                        self.middlewares@.len() as int,
                        start,
                        ctx,
                    )
                },
    {
        let mut context = Context::new(request);
        let ghost start = context;
        let mut i: usize = 0;
        while i < self.middlewares.len()
            invariant
                i <= self.middlewares.len(),
                self.total(),
                chain(self.middlewares@, i as int, start, context),
            decreases self.middlewares.len() - i,
        {
            let ghost mid = context;
            let middleware = &self.middlewares[i];
            context = middleware(context);
            i += 1;
            assert(call_ensures(self.middlewares@[i - 1], (mid,), context));
        }
        assert(chain(self.middlewares@, self.middlewares@.len() as int, start, context));
        context
    }

    /// Answers a request: applies every middleware in registration
    /// order to the fresh context of the request, then lets the route
    /// table answer the context that comes out.
    pub fn handle_request(&self, request: Request) -> (res: Response)
        requires
            self.total(),
        ensures
            exists|start: Context, ctx: Context|
                {
                    &&& start.request == request
                    &&& start@ == Context::spec_new(request@)
                    &&& #[trigger] chain(
                        self.middlewares@,
                        self.middlewares@.len() as int,
                        start,
                        ctx,
                    )
                    &&& self.responds(ctx, res)
                },
    {
        let context = self.apply_middlewares(request);
        let ghost ctx = context;
        let res = self.dispatch(context);
        proof {
            let start = choose|start: Context|
                {
                    &&& start.request == request
                    &&& start@ == Context::spec_new(request@)
                    &&& #[trigger] chain(
                        self.middlewares@,
                        self.middlewares@.len() as int,
                        start,
                        ctx,
                    )
                };
            assert(chain(self.middlewares@, self.middlewares@.len() as int, start, ctx));
        }
        res
    }

    /// Answers a request as `handle_request` does, with the path put in
    /// normal form before it is matched: applies every middleware, puts
    /// the path of the request that comes out in normal form, and lets
    /// the route table answer. A path that cannot be put in normal form
    /// is refused, and no handler runs.
    pub fn serve(&self, request: Request) -> (res: Result<Response, WebRouterError>)
        requires
            self.total(),
        ensures
            exists|start: Context, ctx: Context|
                {
                    &&& start.request == request
                    &&& start@ == Context::spec_new(request@)
                    &&& #[trigger] chain(
                        self.middlewares@,
                        self.middlewares@.len() as int,
                        start,
                        ctx,
                    )
                    &&& self.serves(ctx, res)
                },
    {
        let context = self.apply_middlewares(request);
        let ghost ctx = context;
        let res = self.dispatch_normalised(context);
        proof {
            let start = choose|start: Context|
                {
                    &&& start.request == request
                    &&& start@ == Context::spec_new(request@)
                    &&& #[trigger] chain(
                        self.middlewares@,
                        self.middlewares@.len() as int,
                        start,
                        ctx,
                    )
                };
            assert(chain(self.middlewares@, self.middlewares@.len() as int, start, ctx));
        }
        res
    }

    /// Puts the path of the request of a context in normal form, and
    /// lets the route table answer the context. A path that cannot be
    /// put in normal form is refused.
    pub fn dispatch_normalised(&self, ctx: Context) -> (res: Result<Response, WebRouterError>)
        requires
            self.total(),
        ensures
            res.is_ok() == path_accepted(ctx.request.path@),
            self.serves(ctx, res),
    {
        let mut context = ctx;
        match format_path_by_slashes(context.request.path.clone()) {
            Ok(path) => {
                context.request.path = path;
                let ghost seen = context;
                let answer = self.dispatch(context);
                assert(with_normal_path(ctx, seen) && self.responds(seen, answer));
                Ok(answer)
            },
            Err(e) => Err(e),
        }
    }

    /// Registers `handler` for `method` under the normal form of `path`,
    /// as `add` does. A path that cannot be put in normal form is
    /// refused, and the router is left as it is.
    pub fn register(&mut self, path: String, method: HttpMethod, handler: H) -> (res: Result<
        (),
        WebRouterError,
    >)
        ensures
            res.is_ok() == path_accepted(path@),
            res.is_ok() ==> Self::registered(
                old(self).routes@,
                final(self).routes@,
                formatted_path(path@),
                method,
                handler,
            ),
            res matches Err(e) ==> is_path_refusal(e) && final(self).routes == old(self).routes,
            final(self).middlewares == old(self).middlewares,
    {
        match format_path_by_slashes(path) {
            Ok(pattern) => {
                self.add(pattern, method, handler);
                Ok(())
            },
            Err(e) => Err(e),
        }
    }

    /// Lets the route table answer a context.
    pub fn dispatch(&self, ctx: Context) -> (res: Response)
        requires
            self.total(),
        ensures
            self.responds(ctx, res),
    {
        let mut context = ctx;
        let ghost path = ctx.request.path@;
        let method = context.request.method;
        let exact = self.find_route(context.request.path.as_str());
        if exact < self.routes.len() {
            return match self.routes[exact].handlers.get(method) {
                Some(handler) => {
                    assert(call_requires(
                        self.routes@[exact as int].handlers.spec_get(method).unwrap(),
                        (context,),
                    ));
                    handler(context)
                },
                None => plain(HttpStatusCode::MethodNotAllowed),
            };
        }
        let mut k: usize = 0;
        while k < self.routes.len()
            invariant
                k <= self.routes.len(),
                self.total(),
                context == ctx,
                path == ctx.request.path@,
                method == ctx.request.method,
                route_index(self.routes@, path) >= self.routes@.len(),
                dispatch_index(self.routes@, path, method, 0) == dispatch_index(
                    self.routes@,
                    path,
                    method,
                    k as int,
                ),
            decreases self.routes.len() - k,
        {
            let route = &self.routes[k];
            match match_dynamic_route(context.request.path.as_str(), route.pattern.as_str()) {
                Some(params) => match route.handlers.get(method) {
                    Some(handler) => {
                        assert(takes(self.routes@[k as int], path, method));
                        assert(dispatch_index(self.routes@, path, method, 0) == k);
                        return match query_params(context.request.path.as_str()) {
                            Some(query) => {
                                context.params = params;
                                context.query_params = query;
                                let ghost seen = context;
                                assert(call_requires(
                                    self.routes@[k as int].handlers.spec_get(method).unwrap(),
                                    (context,),
                                ));
                                let res = handler(context);
                                assert(call_ensures(*handler, (seen,), res));
                                assert(dynamic_answer(
                                    *handler,
                                    self.routes@[k as int].pattern@,
                                    ctx,
                                    res,
                                ));
                                res
                            },
                            None => {
                                let res = plain(HttpStatusCode::BadRequest);
                                assert(dynamic_answer(
                                    *handler,
                                    self.routes@[k as int].pattern@,
                                    ctx,
                                    res,
                                ));
                                res
                            },
                        };
                    },
                    None => {},
                },
                None => {},
            }
            k += 1;
        }
        plain(HttpStatusCode::NotFound)
    }

    /// Appends a middleware to the chain.
    pub fn add_middleware(&mut self, middleware_func: M)
        ensures
            final(self).middlewares@ == old(self).middlewares@.push(middleware_func),
            final(self).routes == old(self).routes,
    {
        self.middlewares.push(middleware_func);
    }
}

/// `route_index` is within bounds, no earlier route has the pattern,
/// and the route there has it where the index is inside `routes`.
pub proof fn lemma_route_index<H>(routes: Seq<Route<H>>, path: Seq<char>)
    ensures
        0 <= route_index(routes, path) <= routes.len(),
        forall|j: int| 0 <= j < route_index(routes, path) ==> (#[trigger] routes[j]).pattern@ != path,
        route_index(routes, path) < routes.len() ==> routes[route_index(routes, path)].pattern@
            == path,
    decreases routes.len(),
{
    if routes.len() == 0 || routes[0].pattern@ == path {
    } else {
        let t = routes.drop_first();
        lemma_route_index(t, path);
        assert forall|j: int| 0 <= j < route_index(routes, path) implies (
        #[trigger] routes[j]).pattern@ != path by {
            if j > 0 {
                assert(routes[j] == t[j - 1]);
            }
        }
        if route_index(t, path) < t.len() {
            assert(t[route_index(t, path)] == routes[route_index(t, path) + 1]);
        }
    }
}

/// The first route with the pattern is the only one with the pattern
/// and none before it.
pub proof fn lemma_route_index_unique<H>(routes: Seq<Route<H>>, path: Seq<char>, r: int)
    requires
        0 <= r <= routes.len(),
        forall|j: int| 0 <= j < r ==> (#[trigger] routes[j]).pattern@ != path,
        r < routes.len() ==> routes[r].pattern@ == path,
    ensures
        route_index(routes, path) == r,
{
    lemma_route_index(routes, path);
    let i = route_index(routes, path);
    if i < r {
        assert(routes[i].pattern@ != path);
    } else if r < i {
        assert(routes[r].pattern@ != path);
    }
}

/// The handler registered under the pattern `path` for `method`.
pub open spec fn handler_for<H>(routes: Seq<Route<H>>, path: Seq<char>, method: HttpMethod) -> Option<
    H,
> {
    let i = route_index(routes, path);
    if i < routes.len() {
        routes[i].handlers.spec_get(method)
    } else {
        None
    }
}

/// Whether `path` is a registered pattern.
pub open spec fn is_pattern<H>(routes: Seq<Route<H>>, path: Seq<char>) -> bool {
    route_index(routes, path) < routes.len()
}

/// After a registration the pattern is registered with the handler for
/// the method, whatever was registered for them before, and every other
/// pattern and method has the handler it had.
pub proof fn law_registration<H: Fn(Context) -> Response, M: Fn(Context) -> Context>(
    before: Seq<Route<H>>,
    after: Seq<Route<H>>,
    path: Seq<char>,
    method: HttpMethod,
    handler: H,
    other_path: Seq<char>,
    other_method: HttpMethod,
)
    requires
        WebRouter::<H, M>::registered(before, after, path, method, handler),
    ensures
        is_pattern(after, path),
        handler_for(after, path, method) == Some(handler),
        other_path != path || other_method != method ==> handler_for(
            after,
            other_path,
            other_method,
        ) == handler_for(before, other_path, other_method),
{
    lemma_route_index(before, path);
    lemma_route_index(before, other_path);
    let i = route_index(before, path);
    assert forall|j: int| 0 <= j < i implies (#[trigger] after[j]).pattern@ != path by {
        assert(after[j] == before[j]);
    }
    lemma_route_index_unique(after, path, i);
    if other_path != path {
        let k = route_index(before, other_path);
        assert forall|j: int| 0 <= j < k && j < after.len() implies (
        #[trigger] after[j]).pattern@ != other_path by {
            if j != i {
                assert(after[j] == before[j]);
            }
        }
        if k < before.len() {
            assert(k != i);
            assert(after[k] == before[k]);
            lemma_route_index_unique(after, other_path, k);
        } else {
            lemma_route_index_unique(after, other_path, after.len() as int);
        }
    }
}

/// A request whose path is a registered pattern, with a method that has
/// a handler there, is answered by that handler and by nothing else.
pub proof fn law_exact_match<H: Fn(Context) -> Response, M: Fn(Context) -> Context>(
    router: WebRouter<H, M>,
    ctx: Context,
    res: Response,
    handler: H,
)
    requires
        handler_for(router.routes@, ctx.request.path@, ctx.request.method) == Some(handler),
    ensures
        router.responds(ctx, res) <==> call_ensures(handler, (ctx,), res),
{
}

/// A request whose path in normal form is a registered pattern, with a
/// method that has a handler there, is answered by that handler, which
/// sees the context with the normal path.
pub proof fn law_normal_match<H: Fn(Context) -> Response, M: Fn(Context) -> Context>(
    router: WebRouter<H, M>,
    ctx: Context,
    res: Response,
    handler: H,
)
    requires
        handler_for(
            router.routes@,
            formatted_path(ctx.request.path@),
            ctx.request.method,
        ) == Some(handler),
        router.serves(ctx, Ok(res)),
    ensures
        exists|seen: Context|
            with_normal_path(ctx, seen) && #[trigger] call_ensures(handler, (seen,), res),
{
    let seen = choose|seen: Context|
        with_normal_path(ctx, seen) && #[trigger] router.responds(seen, res);
    law_exact_match(router, seen, res, handler);
    assert(with_normal_path(ctx, seen) && call_ensures(handler, (seen,), res));
}

/// A request whose path is a registered pattern, with a method that has
/// no handler there, is answered with 405 and the body
/// `Method Not Allowed`.
pub proof fn law_method_not_allowed<H: Fn(Context) -> Response, M: Fn(Context) -> Context>(
    router: WebRouter<H, M>,
    ctx: Context,
    res: Response,
)
    requires
        is_pattern(router.routes@, ctx.request.path@),
        handler_for(router.routes@, ctx.request.path@, ctx.request.method).is_none(),
        router.responds(ctx, res),
    ensures
        res.status_code == HttpStatusCode::MethodNotAllowed,
        res.status_code.spec_number() == 405,
        res.body@ == "Method Not Allowed"@,
        res.headers@.len() == 0,
        res.cookies@.len() == 0,
{
}

/// A request whose path is no registered pattern, and that no route
/// takes dynamically, is answered with 404 and the body `Not Found`.
pub proof fn law_not_found<H: Fn(Context) -> Response, M: Fn(Context) -> Context>(
    router: WebRouter<H, M>,
    ctx: Context,
    res: Response,
)
    requires
        !is_pattern(router.routes@, ctx.request.path@),
        forall|i: int|
            0 <= i < router.routes@.len() ==> !takes(
                #[trigger] router.routes@[i],
                ctx.request.path@,
                ctx.request.method,
            ),
        router.responds(ctx, res),
    ensures
        res.status_code == HttpStatusCode::NotFound,
        res.status_code.spec_number() == 404,
        res.body@ == "Not Found"@,
        res.headers@.len() == 0,
        res.cookies@.len() == 0,
{
    lemma_route_index(router.routes@, ctx.request.path@);
    lemma_dispatch_index(router.routes@, ctx.request.path@, ctx.request.method, 0);
}

/// A pattern with another number of segments than the path does not
/// match it.
pub proof fn law_segment_count(path: Seq<char>, pattern: Seq<char>)
    requires
        split(strip_query(path), '/').len() != split(pattern, '/').len(),
    ensures
        dynamic_match(path, pattern).is_none(),
{
}

/// The middlewares run in registration order, each on what the one
/// before it gave: a chain that ends in `last` gives `end` exactly where
/// the chain before it gives some context on which `last` gives `end`.
pub proof fn law_chain_order<M: Fn(Context) -> Context>(
    middlewares: Seq<M>,
    last: M,
    start: Context,
    end: Context,
)
    ensures
        chain(middlewares.push(last), middlewares.len() as int + 1, start, end) <==> exists|mid: Context|
            chain(middlewares, middlewares.len() as int, start, mid) && #[trigger] call_ensures(
                last,
                (mid,),
                end,
            ),
{
    let longer = middlewares.push(last);
    let n = middlewares.len() as int;
    assert(longer[n + 1 - 1] == last);
    if chain(longer, n + 1, start, end) {
        let mid = choose|mid: Context|
            chain(longer, n, start, mid) && #[trigger] call_ensures(last, (mid,), end);
        lemma_chain_prefix(longer, middlewares, n, start, mid);
        assert(chain(middlewares, n, start, mid) && call_ensures(last, (mid,), end));
    }
    if exists|mid: Context|
        chain(middlewares, n, start, mid) && #[trigger] call_ensures(last, (mid,), end) {
        let mid = choose|mid: Context|
            chain(middlewares, n, start, mid) && #[trigger] call_ensures(last, (mid,), end);
        lemma_chain_prefix(longer, middlewares, n, start, mid);
        assert(chain(longer, n, start, mid) && call_ensures(last, (mid,), end));
    }
}

/// Of two middlewares registered as `first` then `second`, the second
/// sees what the first made of the context.
pub proof fn law_two_middlewares<M: Fn(Context) -> Context>(
    first: M,
    second: M,
    start: Context,
    end: Context,
)
    ensures
        chain(seq![first, second], 2, start, end) <==> exists|mid: Context|
            call_ensures(first, (start,), mid) && #[trigger] call_ensures(second, (mid,), end),
{
    let one = seq![first];
    assert(one.push(second) =~= seq![first, second]);
    law_chain_order(one, second, start, end);
    if chain(seq![first, second], 2, start, end) {
        let mid = choose|mid: Context|
            chain(one, 1, start, mid) && #[trigger] call_ensures(second, (mid,), end);
        lemma_chain_single(first, start, mid);
        assert(call_ensures(first, (start,), mid) && call_ensures(second, (mid,), end));
    }
    if exists|mid: Context|
        call_ensures(first, (start,), mid) && #[trigger] call_ensures(second, (mid,), end) {
        let mid = choose|mid: Context|
            call_ensures(first, (start,), mid) && #[trigger] call_ensures(second, (mid,), end);
        lemma_chain_single(first, start, mid);
        assert(chain(one, 1, start, mid) && call_ensures(second, (mid,), end));
    }
}

/// A chain of one middleware gives what the middleware gives.
pub proof fn lemma_chain_single<M: Fn(Context) -> Context>(only: M, start: Context, end: Context)
    ensures
        chain(seq![only], 1, start, end) <==> call_ensures(only, (start,), end),
{
    let none = Seq::<M>::empty();
    assert(none.push(only) =~= seq![only]);
    law_chain_order(none, only, start, end);
    assert(chain(none, 0, start, start));
    if chain(seq![only], 1, start, end) {
        let mid = choose|mid: Context|
            chain(none, 0, start, mid) && #[trigger] call_ensures(only, (mid,), end);
        assert(mid == start);
    }
}

/// A chain depends only on the middlewares that it runs.
pub proof fn lemma_chain_prefix<M: Fn(Context) -> Context>(
    a: Seq<M>,
    b: Seq<M>,
    n: int,
    start: Context,
    end: Context,
)
    requires
        n <= a.len(),
        n <= b.len(),
        forall|i: int| 0 <= i < n ==> a[i] == b[i],
    ensures
        chain(a, n, start, end) == chain(b, n, start, end),
    decreases n,
{
    if n > 0 {
        let last = a[n - 1];
        assert(last == b[n - 1]);
        if chain(a, n, start, end) {
            let mid = choose|mid: Context|
                chain(a, n - 1, start, mid) && #[trigger] call_ensures(last, (mid,), end);
            lemma_chain_prefix(a, b, n - 1, start, mid);
            assert(chain(b, n - 1, start, mid) && call_ensures(last, (mid,), end));
        }
        if chain(b, n, start, end) {
            let mid = choose|mid: Context|
                chain(b, n - 1, start, mid) && #[trigger] call_ensures(last, (mid,), end);
            lemma_chain_prefix(a, b, n - 1, start, mid);
            assert(chain(a, n - 1, start, mid) && call_ensures(last, (mid,), end));
        }
    }
}

/// `dispatch_index` is within bounds, no route from `from` up to it
/// takes the request, and the route there takes it where the index is
/// inside `routes`.
pub proof fn lemma_dispatch_index<H>(
    routes: Seq<Route<H>>,
    path: Seq<char>,
    method: HttpMethod,
    from: int,
)
    requires
        0 <= from <= routes.len(),
    ensures
        from <= dispatch_index(routes, path, method, from) <= routes.len(),
        forall|j: int|
            from <= j < dispatch_index(routes, path, method, from) ==> !takes(
                #[trigger] routes[j],
                path,
                method,
            ),
        dispatch_index(routes, path, method, from) < routes.len() ==> takes(
            routes[dispatch_index(routes, path, method, from)],
            path,
            method,
        ),
    decreases routes.len() - from,
{
    if from >= routes.len() || takes(routes[from], path, method) {
    } else {
        lemma_dispatch_index(routes, path, method, from + 1);
    }
}

} // verus!
