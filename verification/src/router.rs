//! Routing: static routes looked up by method and path, dynamic routes
//! with `:name` segments matched in the order they were added.
use vstd::prelude::*;
use crate::request::{HttpRequest, RequestModel, parse_spec};
use crate::response::{HttpResponse, ResponseModel};
use crate::table::{
    Table, StrMap, pairs_map, upsert, keys_distinct, has_key, lemma_pairs_map_upsert, insert_pairs,
};
use crate::text::{
    Sep, split_spec, words_spec, to_chars, chars_to_string, split_chars, split_whitespace,
    chars_eq, sub_chars, append_chars, find_char, is_ws, lemma_two_words,
};

verus! {

/// The key under which a route is stored: method, a space, path.
pub open spec fn route_key(method: Seq<char>, path: Seq<char>) -> Seq<char> {
    method + seq![' '] + path
}

/// One route segment against one request segment: a `:name` segment takes
/// any non-empty request segment and binds `name` to it; any other segment
/// must be equal.
pub open spec fn segment_step(
    r: Seq<char>,
    q: Seq<char>,
    params: Map<Seq<char>, Seq<char>>,
) -> (bool, Map<Seq<char>, Seq<char>>) {
    if r.len() > 0 && r[0] == ':' {
        if q.len() == 0 {
            (false, params)
        } else {
            (true, params.insert(r.drop_first(), q))
        }
    } else {
        (r == q, params)
    }
}

/// Segments matched pairwise from the first, stopping at the first that
/// fails; bindings made before a failure stay.
pub open spec fn match_segments(
    rs: Seq<Seq<char>>,
    qs: Seq<Seq<char>>,
    params: Map<Seq<char>, Seq<char>>,
) -> (bool, Map<Seq<char>, Seq<char>>)
    decreases rs.len(),
{
    if rs.len() == 0 || qs.len() == 0 {
        (true, params)
    } else {
        let step = segment_step(rs[0], qs[0], params);
        if !step.0 {
            (false, step.1)
        } else {
            match_segments(rs.drop_first(), qs.drop_first(), step.1)
        }
    }
}

/// A route path against a request path, both cut at `/`: they match when
/// they have as many segments and every segment matches.
pub open spec fn path_match_spec(
    route_path: Seq<char>,
    request_path: Seq<char>,
    params: Map<Seq<char>, Seq<char>>,
) -> (bool, Map<Seq<char>, Seq<char>>) {
    let rs = split_spec(route_path, Sep::Char('/'));
    let qs = split_spec(request_path, Sep::Char('/'));
    if rs.len() != qs.len() {
        (false, params)
    } else {
        match_segments(rs, qs, params)
    }
}

/// A route key against a request: its first word must be the method and
/// its second word must match the path.
pub open spec fn route_match_spec(
    route: Seq<char>,
    method: Seq<char>,
    path: Seq<char>,
    params: Map<Seq<char>, Seq<char>>,
) -> (bool, Map<Seq<char>, Seq<char>>) {
    let w = words_spec(route);
    if w.len() >= 2 && w[0] == method {
        path_match_spec(w[1], path, params)
    } else {
        (false, params)
    }
}

/// Whether matching a route key against `method` fails for want of words:
/// a key without words, or one whose only word is the method (matching then
/// reads a second word that is not there).
pub open spec fn route_panics(route: Seq<char>, method: Seq<char>) -> bool {
    let w = words_spec(route);
    w.len() == 0 || (w.len() == 1 && w[0] == method)
}

/// The first dynamic route, in table order, that matches; each route tried
/// leaves its bindings behind.
pub open spec fn dynamic_search<H>(
    d: Seq<(Seq<char>, H)>,
    method: Seq<char>,
    path: Seq<char>,
    params: Map<Seq<char>, Seq<char>>,
) -> (Option<H>, Map<Seq<char>, Seq<char>>)
    decreases d.len(),
{
    if d.len() == 0 {
        (None, params)
    } else {
        let m = route_match_spec(d[0].0, method, path, params);
        if m.0 {
            (Some(d[0].1), m.1)
        } else {
            dynamic_search(d.drop_first(), method, path, m.1)
        }
    }
}

/// Whether the search through dynamic routes reaches a route that fails
/// for want of words before one matches.
pub open spec fn dynamic_panics<H>(
    d: Seq<(Seq<char>, H)>,
    method: Seq<char>,
    path: Seq<char>,
    params: Map<Seq<char>, Seq<char>>,
) -> bool
    decreases d.len(),
{
    if d.len() == 0 {
        false
    } else if route_panics(d[0].0, method) {
        true
    } else {
        let m = route_match_spec(d[0].0, method, path, params);
        if m.0 {
            false
        } else {
            dynamic_panics(d.drop_first(), method, path, m.1)
        }
    }
}

/// Whether a static route exists for `path` (with any method).
pub open spec fn path_taken<H>(s: Seq<(Seq<char>, H)>, path: Seq<char>) -> bool {
    exists|i: int|
        0 <= i < s.len() && words_spec(#[trigger] s[i].0).len() == 2 && words_spec(s[i].0)[1]
            == path
}

/// What a router holds: static and dynamic routes, by key, in table order.
pub struct RouterModel<H> {
    pub static_routes: Seq<(Seq<char>, H)>,
    pub dynamic_routes: Seq<(Seq<char>, H)>,
}

/// The handler for a request and the parameters after the search: the
/// static route for method and path; else nothing when a static route has
/// that path with another method; else the first matching dynamic route.
pub open spec fn find_route_spec<H>(
    r: RouterModel<H>,
    method: Seq<char>,
    path: Seq<char>,
    params: Map<Seq<char>, Seq<char>>,
) -> (Option<H>, Map<Seq<char>, Seq<char>>) {
    let statics = pairs_map(r.static_routes);
    let key = route_key(method, path);
    if statics.contains_key(key) {
        (Some(statics[key]), params)
    } else if path_taken(r.static_routes, path) {
        (None, params)
    } else {
        dynamic_search(r.dynamic_routes, method, path, params)
    }
}

/// Whether looking up a route for a request fails for want of words in a
/// dynamic route key that the search reaches.
pub open spec fn find_route_panics<H>(
    r: RouterModel<H>,
    method: Seq<char>,
    path: Seq<char>,
    params: Map<Seq<char>, Seq<char>>,
) -> bool {
    &&& !pairs_map(r.static_routes).contains_key(route_key(method, path))
    &&& !path_taken(r.static_routes, path)
    &&& dynamic_panics(r.dynamic_routes, method, path, params)
}

/// Whether routing the request text `text` fails for want of words in a
/// dynamic route key.
pub open spec fn routing_panics<H>(r: RouterModel<H>, text: Seq<char>) -> bool {
    match parse_spec(text) {
        Some(req) => find_route_panics(r, req.method, req.path, req.params),
        None => false,
    }
}

/// A table of routes from method and path to handlers of type `H`.
pub struct Router<H> {
    static_routes: Table<H>,
    dynamic_routes: Table<H>,
}

impl<H> View for Router<H> {
    type V = RouterModel<H>;

    closed spec fn view(&self) -> RouterModel<H> {
        RouterModel {
            static_routes: self.static_routes.pairs(),
            dynamic_routes: self.dynamic_routes.pairs(),
        }
    }
}

/// The characters of `route_key(method, path)`.
fn key_chars(method: &Vec<char>, path: &Vec<char>) -> (k: Vec<char>)
    ensures
        k@ == route_key(method@, path@),
{
    let mut k = sub_chars(method, 0, method.len());
    k.push(' ');
    append_chars(&mut k, path);
    k
}

/// Matches a route path against a request path, binding `:name` segments
/// in `params`.
fn is_path_match(route_path: &Vec<char>, request_path: &Vec<char>, params: &mut StrMap) -> (r: bool)
    ensures
        (r, final(params)@) == path_match_spec(route_path@, request_path@, old(params)@),
{
    let route_segments = split_chars(route_path, Sep::Char('/'));
    let request_segments = split_chars(request_path, Sep::Char('/'));
    let ghost rs = route_segments.deep_view();
    let ghost qs = request_segments.deep_view();
    if route_segments.len() != request_segments.len() {
        return false;
    }
    let n = route_segments.len();
    let mut i: usize = 0;
    proof {
        assert(rs.skip(0) =~= rs);
        assert(qs.skip(0) =~= qs);
    }
    while i < n
        invariant
            n == route_segments.len(),
            n == request_segments.len(),
            rs == route_segments.deep_view(),
            qs == request_segments.deep_view(),
            rs == split_spec(route_path@, Sep::Char('/')),
            qs == split_spec(request_path@, Sep::Char('/')),
            i <= n,
            match_segments(rs, qs, old(params)@) == match_segments(rs.skip(i as int), qs.skip(i as int), params@),
        decreases n - i,
    {
        let route_seg = &route_segments[i];
        let req_seg = &request_segments[i];
        proof {
            assert(route_seg@ =~= rs[i as int]);
            assert(req_seg@ =~= qs[i as int]);
            assert(rs.skip(i as int)[0] == rs[i as int]);
            assert(qs.skip(i as int)[0] == qs[i as int]);
            assert(rs.skip(i as int).drop_first() =~= rs.skip(i + 1));
            assert(qs.skip(i as int).drop_first() =~= qs.skip(i + 1));
        }
        if route_seg.len() > 0 && route_seg[0] == ':' {
            if req_seg.len() == 0 {
                return false;
            }
            let name = sub_chars(route_seg, 1, route_seg.len());
            assert(name@ =~= route_seg@.drop_first());
            params.insert_chars(name, chars_to_string(req_seg));
        } else if !chars_eq(route_seg, req_seg) {
            return false;
        }
        i = i + 1;
    }
    true
}

impl<H> Router<H> {
    /// A router without routes.
    pub fn new() -> (r: Self)
        ensures
            r@ == (RouterModel::<H> { static_routes: Seq::empty(), dynamic_routes: Seq::empty() }),
            keys_distinct(r@.static_routes),
            keys_distinct(r@.dynamic_routes),
    {
        Router { static_routes: Table::new(), dynamic_routes: Table::new() }
    }

    /// Adds a route for `method` and `path`: a dynamic one when the path
    /// holds `:`, else a static one. A route already present for the same
    /// method and path takes the new handler.
    pub fn add_route(&mut self, method: &str, path: &str, handler: H)
        ensures
            path@.contains(':') ==> final(self)@ == (RouterModel {
                dynamic_routes: upsert(old(self)@.dynamic_routes, route_key(method@, path@), handler),
                ..old(self)@
            }),
            !path@.contains(':') ==> final(self)@ == (RouterModel {
                static_routes: upsert(old(self)@.static_routes, route_key(method@, path@), handler),
                ..old(self)@
            }),
            keys_distinct(final(self)@.static_routes),
            keys_distinct(final(self)@.dynamic_routes),
    {
        let m = to_chars(method);
        let p = to_chars(path);
        let key = key_chars(&m, &p);
        proof {
            p@.index_of_first_ensures(':');
        }
        if find_char(&p, ':').is_some() {
            let mut dynamic_routes = Table::new();
            std::mem::swap(&mut dynamic_routes, &mut self.dynamic_routes);
            dynamic_routes.insert(key, handler);
            proof {
                use_type_invariant(&dynamic_routes);
            }
            self.dynamic_routes = dynamic_routes;
        } else {
            let mut static_routes = Table::new();
            std::mem::swap(&mut static_routes, &mut self.static_routes);
            static_routes.insert(key, handler);
            proof {
                use_type_invariant(&static_routes);
            }
            self.static_routes = static_routes;
        }
        proof {
            use_type_invariant(&self.static_routes);
            use_type_invariant(&self.dynamic_routes);
        }
    }

    /// Matches a route key against the request's method and path, binding
    /// `:name` segments in the request's parameters.
    fn match_route(&self, route: &Vec<char>, request: &mut HttpRequest) -> (r: bool)
        requires
            !route_panics(route@, old(request)@.method),
        ensures
            (r, final(request)@.params) == route_match_spec(
                route@,
                old(request)@.method,
                old(request)@.path,
                old(request)@.params,
            ),
            final(request)@ == (RequestModel { params: final(request)@.params, ..old(request)@ }),
    {
        let route_parts = split_whitespace(route);
        let ghost w = route_parts.deep_view();
        assert(route_parts[0]@ =~= w[0]);
        let method = to_chars(request.method.as_str());
        if chars_eq(&route_parts[0], &method) {
            assert(route_parts[1]@ =~= w[1]);
            let path = to_chars(request.path.as_str());
            if is_path_match(&route_parts[1], &path, &mut request.params) {
                return true;
            }
        }
        false
    }

    /// Whether a static route has `path` as the second of exactly two words.
    fn static_path_taken(&self, path: &Vec<char>) -> (r: bool)
        ensures
            r == path_taken(self@.static_routes, path@),
    {
        let ghost sp = self.static_routes.pairs();
        let mut i: usize = 0;
        while i < self.static_routes.len()
            invariant
                i <= sp.len(),
                sp == self.static_routes.pairs(),
                sp == self@.static_routes,
                forall|j: int|
                    0 <= j < i ==> !(words_spec(#[trigger] sp[j].0).len() == 2 && words_spec(
                        sp[j].0,
                    )[1] == path@),
            decreases sp.len() - i,
        {
            let parts = split_whitespace(self.static_routes.key_at(i));
            let ghost w = parts.deep_view();
            if parts.len() == 2 {
                assert(parts[1]@ =~= w[1]);
                if chars_eq(&parts[1], path) {
                    assert(words_spec(sp[i as int].0).len() == 2 && words_spec(sp[i as int].0)[1]
                        == path@);
                    return true;
                }
            }
            i = i + 1;
        }
        false
    }

    /// The handler for a request: the static route for its method and
    /// path; else none when a static route has its path with another method;
    /// else the first dynamic route that matches, in the order routes were
    /// added. Matching dynamic routes binds their `:name` segments in the
    /// request's parameters, also for routes that fail later on. The search
    /// must not reach a dynamic route key that lacks the words matching
    /// reads.
    pub fn find_route(&self, request: &mut HttpRequest) -> (r: Option<&H>)
        requires
            !find_route_panics(self@, old(request)@.method, old(request)@.path, old(request)@.params),
        ensures
            ({
                let found = find_route_spec(
                    self@,
                    old(request)@.method,
                    old(request)@.path,
                    old(request)@.params,
                );
                &&& r matches Some(h) ==> found.0 == Some(*h)
                &&& r is None ==> found.0 is None
                &&& final(request)@.params == found.1
            }),
            final(request)@ == (RequestModel { params: final(request)@.params, ..old(request)@ }),
    {
        let method = to_chars(request.method.as_str());
        let path = to_chars(request.path.as_str());
        let static_key = key_chars(&method, &path);
        if let Some(handler) = self.static_routes.get(&static_key) {
            return Some(handler);
        }
        if self.static_path_taken(&path) {
            return None;
        }
        let ghost dp = self.dynamic_routes.pairs();
        let ghost m0 = request@.method;
        let ghost p0 = request@.path;
        let ghost old_request = request@;
        let mut k: usize = 0;
        proof {
            assert(dp.skip(0) =~= dp);
        }
        while k < self.dynamic_routes.len()
            invariant
                k <= dp.len(),
                dp == self.dynamic_routes.pairs(),
                request@ == (RequestModel { params: request@.params, ..old_request }),
                old_request == old(request)@,
                !pairs_map(self@.static_routes).contains_key(route_key(m0, p0)),
                !path_taken(self@.static_routes, p0),
                m0 == old_request.method,
                p0 == old_request.path,
                dynamic_search(dp, m0, p0, old_request.params) == dynamic_search(
                    dp.skip(k as int),
                    m0,
                    p0,
                    request@.params,
                ),
                dynamic_panics(dp, m0, p0, old_request.params) == dynamic_panics(
                    dp.skip(k as int),
                    m0,
                    p0,
                    request@.params,
                ),
                !dynamic_panics(dp, m0, p0, old_request.params),
            decreases dp.len() - k,
        {
            proof {
                assert(dp.skip(k as int)[0] == dp[k as int]);
                assert(dp.skip(k as int).drop_first() =~= dp.skip(k + 1));
            }
            let ghost before = request@;
            if self.match_route(self.dynamic_routes.key_at(k), request) {
                let h = self.dynamic_routes.value_at(k);
                proof {
                    assert(request@ =~= (RequestModel { params: request@.params, ..old_request }));
                }
                return Some(h);
            }
            proof {
                assert(request@ =~= (RequestModel { params: request@.params, ..old_request }));
            }
            k = k + 1;
        }
        assert(dp.skip(dp.len() as int) =~= Seq::<(Seq<char>, H)>::empty());
        None
    }

    /// Whether routing `text` would reach a dynamic route key that lacks the
    /// words matching reads.
    pub fn routing_fails(&self, text: &str) -> (r: bool)
        ensures
            r == routing_panics(self@, text@),
    {
        let mut request = match HttpRequest::parse(text) {
            Some(req) => req,
            None => {
                return false;
            },
        };
        let method = to_chars(request.method.as_str());
        let path = to_chars(request.path.as_str());
        let static_key = key_chars(&method, &path);
        if self.static_routes.contains_key(&static_key) {
            return false;
        }
        if self.static_path_taken(&path) {
            return false;
        }
        let ghost dp = self.dynamic_routes.pairs();
        let ghost m0 = request@.method;
        let ghost p0 = request@.path;
        let ghost old_request = request@;
        let mut k: usize = 0;
        proof {
            assert(dp.skip(0) =~= dp);
        }
        while k < self.dynamic_routes.len()
            invariant
                k <= dp.len(),
                dp == self.dynamic_routes.pairs(),
                dp == self@.dynamic_routes,
                request@ == (RequestModel { params: request@.params, ..old_request }),
                parse_spec(text@) == Some(old_request),
                !pairs_map(self@.static_routes).contains_key(route_key(m0, p0)),
                !path_taken(self@.static_routes, p0),
                m0 == old_request.method,
                p0 == old_request.path,
                method@ == m0,
                dynamic_panics(dp, m0, p0, old_request.params) == dynamic_panics(
                    dp.skip(k as int),
                    m0,
                    p0,
                    request@.params,
                ),
            decreases dp.len() - k,
        {
            proof {
                assert(dp.skip(k as int)[0] == dp[k as int]);
                assert(dp.skip(k as int).drop_first() =~= dp.skip(k + 1));
            }
            let route = self.dynamic_routes.key_at(k);
            let words = split_whitespace(route);
            let ghost w = words.deep_view();
            if words.len() == 0 {
                return true;
            }
            assert(words[0]@ =~= w[0]);
            if words.len() == 1 && chars_eq(&words[0], &method) {
                return true;
            }
            if self.match_route(route, &mut request) {
                return false;
            }
            proof {
                assert(request@ =~= (RequestModel { params: request@.params, ..old_request }));
            }
            k = k + 1;
        }
        assert(dp.skip(dp.len() as int) =~= Seq::<(Seq<char>, H)>::empty());
        false
    }
}

/// What a connection gets: a handler to run on the request and a fresh
/// response, or one of the two fixed answers.
pub enum Dispatch<'a, H> {
    Handle(&'a H, HttpRequest, HttpResponse),
    NotFound,
    BadRequest,
}

/// The text sent when no route matches.
pub fn not_found_response() -> (r: &'static str)
    ensures
        r@ == "HTTP/1.1 404 Not Found\r\nServer: httpx\r\n\r\nNot Found"@,
{
    "HTTP/1.1 404 Not Found\r\nServer: httpx\r\n\r\nNot Found"
}

/// The text sent when the request cannot be parsed.
pub fn bad_request_response() -> (r: &'static str)
    ensures
        r@ == "HTTP/1.1 400 Bad Request\r\nServer: httpx\r\n\r\nBad Request"@,
{
    "HTTP/1.1 400 Bad Request\r\nServer: httpx\r\n\r\nBad Request"
}

/// Whether `d` is what a connection whose request text is `text` gets from
/// a router holding `r`.
pub open spec fn dispatch_spec<H>(r: RouterModel<H>, text: Seq<char>, d: Dispatch<'_, H>) -> bool {
    match parse_spec(text) {
        None => d is BadRequest,
        Some(req) => {
            let found = find_route_spec(r, req.method, req.path, req.params);
            match found.0 {
                None => d is NotFound,
                Some(h) => match d {
                    Dispatch::Handle(handler, request, response) => {
                        &&& *handler == h
                        &&& request@ == (RequestModel { params: found.1, ..req })
                        &&& response@ == (ResponseModel {
                            protocol: req.protocol,
                            header: "200 OK"@,
                            header_is_raw: false,
                            headers: Seq::empty(),
                            body: Seq::empty(),
                        })
                    },
                    _ => false,
                },
            }
        },
    }
}

impl<H> Router<H> {
    /// Decides what a connection gets for the request text `text`: an
    /// unparsable request is a bad request; a request without a route is
    /// not found; otherwise the route's handler with the request (its
    /// parameters bound) and a `200 OK` response in the request's protocol.
    pub fn route_text(&self, text: &str) -> (d: Dispatch<'_, H>)
        requires
            !routing_panics(self@, text@),
        ensures
            dispatch_spec(self@, text@, d),
    {
        match HttpRequest::parse(text) {
            Some(mut request) => {
                let ghost req = request@;
                match self.find_route(&mut request) {
                    Some(handler) => {
                        let response = HttpResponse::new(request.protocol.as_str());
                        Dispatch::Handle(handler, request, response)
                    },
                    None => Dispatch::NotFound,
                }
            },
            None => Dispatch::BadRequest,
        }
    }

    /// Decides what a connection gets for the bytes it sent, read as
    /// UTF-8 with invalid sequences replaced.
    pub fn handle_request(&self, raw: &[u8]) -> (d: Dispatch<'_, H>)
        requires
            !routing_panics(self@, lossy_text(raw@)),
        ensures
            dispatch_spec(self@, lossy_text(raw@), d),
            vstd::utf8::valid_utf8(raw@) ==> dispatch_spec(self@, vstd::utf8::decode_utf8(raw@), d),
    {
        let text = decode_lossy(raw);
        self.route_text(text.as_str())
    }
}

impl<H> Router<H> {
    /// Decides what a connection gets for the bytes it sent, as
    /// `handle_request` does, or `None` when routing them would reach a
    /// dynamic route key that lacks the words matching reads.
    pub fn handle_request_checked(&self, raw: &[u8]) -> (r: Option<Dispatch<'_, H>>)
        ensures
            r is None <==> routing_panics(self@, lossy_text(raw@)),
            r matches Some(d) ==> dispatch_spec(self@, lossy_text(raw@), d),
            r matches Some(d) ==> (vstd::utf8::valid_utf8(raw@) ==> dispatch_spec(
                self@,
                vstd::utf8::decode_utf8(raw@),
                d,
            )),
    {
        let text = decode_lossy(raw);
        if self.routing_fails(text.as_str()) {
            None
        } else {
            Some(self.handle_request(raw))
        }
    }
}

/// The text that `String::from_utf8_lossy` makes of `bytes`.
pub uninterp spec fn lossy_text(bytes: Seq<u8>) -> Seq<char>;

/// Calls `String::from_utf8_lossy`. Its result is named `lossy_text` of the
/// bytes; the standard library documents that valid UTF-8 is decoded as is
/// (invalid sequences become U+FFFD, which is left unstated here).
#[verifier::external_body]
fn decode_lossy(bytes: &[u8]) -> (s: String)
    ensures
        s@ == lossy_text(bytes@),
        vstd::utf8::valid_utf8(bytes@) ==> s@ == vstd::utf8::decode_utf8(bytes@),
{
    String::from_utf8_lossy(bytes).into_owned()
}

/// Whether route segment `r` accepts request segment `q`.
pub open spec fn segment_ok(r: Seq<char>, q: Seq<char>) -> bool {
    if r.len() > 0 && r[0] == ':' {
        q.len() > 0
    } else {
        r == q
    }
}

proof fn lemma_match_segments_ok(
    rs: Seq<Seq<char>>,
    qs: Seq<Seq<char>>,
    params: Map<Seq<char>, Seq<char>>,
)
    requires
        rs.len() == qs.len(),
    ensures
        match_segments(rs, qs, params).0 <==> forall|i: int|
            0 <= i < rs.len() ==> segment_ok(#[trigger] rs[i], qs[i]),
    decreases rs.len(),
{
    if rs.len() > 0 {
        let step = segment_step(rs[0], qs[0], params);
        lemma_match_segments_ok(rs.drop_first(), qs.drop_first(), step.1);
        if forall|i: int| 0 <= i < rs.len() ==> segment_ok(#[trigger] rs[i], qs[i]) {
            assert(segment_ok(rs[0], qs[0]));
            assert forall|i: int| 0 <= i < rs.drop_first().len() implies segment_ok(
                #[trigger] rs.drop_first()[i],
                qs.drop_first()[i],
            ) by {
                assert(segment_ok(rs[i + 1], qs[i + 1]));
            }
        }
        if match_segments(rs, qs, params).0 {
            assert forall|i: int| 0 <= i < rs.len() implies segment_ok(#[trigger] rs[i], qs[i]) by {
                if i > 0 {
                    assert(rs[i] == rs.drop_first()[i - 1]);
                    assert(qs[i] == qs.drop_first()[i - 1]);
                }
            }
        }
    }
}

/// A route path matches a request path exactly when both have as many
/// `/`-separated segments and each route segment accepts its request
/// segment: a `:name` segment any non-empty one, another segment only
/// itself. Bindings made so far do not change whether it matches.
pub proof fn law_path_match(
    route_path: Seq<char>,
    request_path: Seq<char>,
    params: Map<Seq<char>, Seq<char>>,
)
    ensures
        path_match_spec(route_path, request_path, params).0 <==> ({
            let rs = split_spec(route_path, Sep::Char('/'));
            let qs = split_spec(request_path, Sep::Char('/'));
            &&& rs.len() == qs.len()
            &&& forall|i: int| 0 <= i < rs.len() ==> segment_ok(#[trigger] rs[i], qs[i])
        }),
{
    let rs = split_spec(route_path, Sep::Char('/'));
    let qs = split_spec(request_path, Sep::Char('/'));
    if rs.len() == qs.len() {
        lemma_match_segments_ok(rs, qs, params);
    }
}

/// After a route is added for a method and a path, a request with that
/// method and path finds its handler among the static routes, with no
/// parameters bound.
pub proof fn law_static_route_found<H>(
    r: RouterModel<H>,
    method: Seq<char>,
    path: Seq<char>,
    handler: H,
    params: Map<Seq<char>, Seq<char>>,
)
    requires
        keys_distinct(r.static_routes),
    ensures
        find_route_spec(
            RouterModel {
                static_routes: upsert(r.static_routes, route_key(method, path), handler),
                ..r
            },
            method,
            path,
            params,
        ) == (Some(handler), params),
{
    lemma_pairs_map_upsert(r.static_routes, route_key(method, path), handler);
}

/// A request whose path has a static route only for another method is not
/// routed at all (it is answered "not found"), whatever the dynamic routes,
/// and no parameters are bound.
pub proof fn law_other_method_not_found<H>(
    r: RouterModel<H>,
    method: Seq<char>,
    other: Seq<char>,
    path: Seq<char>,
    params: Map<Seq<char>, Seq<char>>,
)
    requires
        other.len() > 0,
        path.len() > 0,
        forall|j: int| 0 <= j < other.len() ==> !is_ws(#[trigger] other[j]),
        forall|j: int| 0 <= j < path.len() ==> !is_ws(#[trigger] path[j]),
        pairs_map(r.static_routes).contains_key(route_key(other, path)),
        !pairs_map(r.static_routes).contains_key(route_key(method, path)),
    ensures
        find_route_spec(r, method, path, params) == (None::<H>, params),
{
    let s = r.static_routes;
    let k = route_key(other, path);
    assert(has_key(s, k));
    let i = choose|i: int| 0 <= i < s.len() && #[trigger] s[i].0 == k;
    lemma_two_words(other, path);
    assert(words_spec(s[i].0) == seq![other, path]);
    assert(path_taken(s, path));
}

/// The binding a route segment makes for a request segment: `:name` binds
/// `name`, other segments bind nothing.
pub open spec fn segment_binding(r: Seq<char>, q: Seq<char>) -> Option<(Seq<char>, Seq<char>)> {
    if r.len() > 0 && r[0] == ':' {
        Some((r.drop_first(), q))
    } else {
        None
    }
}

/// The bindings of route segments `rs` against request segments `qs`, in
/// segment order.
pub open spec fn bindings(rs: Seq<Seq<char>>, qs: Seq<Seq<char>>) -> Seq<(Seq<char>, Seq<char>)> {
    Seq::new(rs.len(), |i: int| (rs[i], qs[i])).filter_map(
        |rq: (Seq<char>, Seq<char>)| segment_binding(rq.0, rq.1),
    )
}

proof fn lemma_filter_map_first<A, B>(s: Seq<A>, f: spec_fn(A) -> Option<B>)
    requires
        s.len() > 0,
    ensures
        s.filter_map(f) == (match f(s[0]) {
            Some(b) => seq![b],
            None => Seq::<B>::empty(),
        }) + s.drop_first().filter_map(f),
    decreases s.len(),
{
    let head = match f(s[0]) {
        Some(b) => seq![b],
        None => Seq::<B>::empty(),
    };
    if s.len() == 1 {
        assert(s.drop_last() =~= Seq::<A>::empty());
        assert(s.drop_first() =~= Seq::<A>::empty());
        assert(s.filter_map(f) =~= head + s.drop_first().filter_map(f));
    } else {
        lemma_filter_map_first(s.drop_last(), f);
        assert(s.drop_last().drop_first() =~= s.drop_first().drop_last());
        assert(s.drop_last()[0] == s[0]);
        assert(s.drop_first().last() == s.last());
        let t = s.drop_first();
        match f(s.last()) {
            Some(b) => {
                assert(s.filter_map(f) =~= head + t.filter_map(f));
            },
            None => {
                assert(s.filter_map(f) =~= head + t.filter_map(f));
            },
        }
    }
}

proof fn lemma_insert_pairs_first(
    m: Map<Seq<char>, Seq<char>>,
    x: (Seq<char>, Seq<char>),
    rest: Seq<(Seq<char>, Seq<char>)>,
)
    ensures
        insert_pairs(m, seq![x] + rest) == insert_pairs(m.insert(x.0, x.1), rest),
    decreases rest.len(),
{
    if rest.len() == 0 {
        assert(seq![x] + rest =~= seq![x]);
        assert(seq![x].drop_last() =~= Seq::<(Seq<char>, Seq<char>)>::empty());
        assert(insert_pairs(m, seq![x]) == insert_pairs(m, Seq::<(Seq<char>, Seq<char>)>::empty()).insert(x.0, x.1));
    } else {
        assert((seq![x] + rest).drop_last() =~= seq![x] + rest.drop_last());
        assert((seq![x] + rest).last() == rest.last());
        lemma_insert_pairs_first(m, x, rest.drop_last());
    }
}

proof fn lemma_match_segments_bindings(
    rs: Seq<Seq<char>>,
    qs: Seq<Seq<char>>,
    params: Map<Seq<char>, Seq<char>>,
)
    requires
        rs.len() == qs.len(),
        match_segments(rs, qs, params).0,
    ensures
        match_segments(rs, qs, params).1 == insert_pairs(params, bindings(rs, qs)),
    decreases rs.len(),
{
    let f = |rq: (Seq<char>, Seq<char>)| segment_binding(rq.0, rq.1);
    let z = Seq::new(rs.len(), |i: int| (rs[i], qs[i]));
    if rs.len() == 0 {
        assert(z =~= Seq::<(Seq<char>, Seq<char>)>::empty());
    } else {
        let step = segment_step(rs[0], qs[0], params);
        lemma_match_segments_bindings(rs.drop_first(), qs.drop_first(), step.1);
        lemma_filter_map_first(z, f);
        assert(z.drop_first() =~= Seq::new(
            rs.drop_first().len(),
            |i: int| (rs.drop_first()[i], qs.drop_first()[i]),
        ));
        let rest = z.drop_first().filter_map(f);
        match segment_binding(rs[0], qs[0]) {
            Some(b) => {
                lemma_insert_pairs_first(params, b, rest);
            },
            None => {
                assert(Seq::<(Seq<char>, Seq<char>)>::empty() + rest =~= rest);
            },
        }
    }
}

/// When a route path matches a request path, the bindings after the match
/// are those before it with each `:name` segment's request segment stored
/// under `name`, from the first segment to the last (a repeated name keeps
/// its last segment).
pub proof fn law_path_bindings(
    route_path: Seq<char>,
    request_path: Seq<char>,
    params: Map<Seq<char>, Seq<char>>,
)
    ensures
        path_match_spec(route_path, request_path, params).0 ==> path_match_spec(
            route_path,
            request_path,
            params,
        ).1 == insert_pairs(
            params,
            bindings(
                split_spec(route_path, Sep::Char('/')),
                split_spec(request_path, Sep::Char('/')),
            ),
        ),
{
    let rs = split_spec(route_path, Sep::Char('/'));
    let qs = split_spec(request_path, Sep::Char('/'));
    if path_match_spec(route_path, request_path, params).0 {
        lemma_match_segments_bindings(rs, qs, params);
    }
}

/// Whether a route key accepts a request's method and path.
pub open spec fn route_accepts(route: Seq<char>, method: Seq<char>, path: Seq<char>) -> bool {
    route_match_spec(route, method, path, Map::empty()).0
}

proof fn lemma_route_match_any_params(
    route: Seq<char>,
    method: Seq<char>,
    path: Seq<char>,
    params: Map<Seq<char>, Seq<char>>,
)
    ensures
        route_match_spec(route, method, path, params).0 == route_accepts(route, method, path),
{
    let w = words_spec(route);
    if w[0] == method {
        law_path_match(w[1], path, params);
        law_path_match(w[1], path, Map::empty());
    }
}

proof fn lemma_dynamic_search_first<H>(
    d: Seq<(Seq<char>, H)>,
    method: Seq<char>,
    path: Seq<char>,
    params: Map<Seq<char>, Seq<char>>,
    i: int,
)
    requires
        0 <= i < d.len(),
        route_accepts(d[i].0, method, path),
        forall|j: int| 0 <= j < i ==> !route_accepts(#[trigger] d[j].0, method, path),
    ensures
        dynamic_search(d, method, path, params).0 == Some(d[i].1),
    decreases i,
{
    lemma_route_match_any_params(d[0].0, method, path, params);
    if i > 0 {
        let m = route_match_spec(d[0].0, method, path, params);
        assert(!route_accepts(d[0].0, method, path));
        let t = d.drop_first();
        assert forall|j: int| 0 <= j < i - 1 implies !route_accepts(#[trigger] t[j].0, method, path) by {
            assert(t[j] == d[j + 1]);
        }
        lemma_dynamic_search_first(t, method, path, m.1, i - 1);
    }
}

/// A request that no static route claims (neither for its method and path
/// nor for its path alone) goes to the first dynamic route, in the order
/// routes were added, that accepts it; which routes accept it does not
/// depend on the bindings made by routes tried before.
pub proof fn law_first_dynamic_route<H>(
    r: RouterModel<H>,
    method: Seq<char>,
    path: Seq<char>,
    params: Map<Seq<char>, Seq<char>>,
    i: int,
)
    requires
        !pairs_map(r.static_routes).contains_key(route_key(method, path)),
        !path_taken(r.static_routes, path),
        0 <= i < r.dynamic_routes.len(),
        route_accepts(r.dynamic_routes[i].0, method, path),
        forall|j: int| 0 <= j < i ==> !route_accepts(#[trigger] r.dynamic_routes[j].0, method, path),
    ensures
        find_route_spec(r, method, path, params).0 == Some(r.dynamic_routes[i].1),
{
    lemma_dynamic_search_first(r.dynamic_routes, method, path, params, i);
}

proof fn lemma_dynamic_search_none<H>(
    d: Seq<(Seq<char>, H)>,
    method: Seq<char>,
    path: Seq<char>,
    params: Map<Seq<char>, Seq<char>>,
)
    requires
        forall|j: int| 0 <= j < d.len() ==> !route_accepts(#[trigger] d[j].0, method, path),
    ensures
        dynamic_search(d, method, path, params).0 is None,
    decreases d.len(),
{
    if d.len() > 0 {
        lemma_route_match_any_params(d[0].0, method, path, params);
        let m = route_match_spec(d[0].0, method, path, params);
        let t = d.drop_first();
        assert forall|j: int| 0 <= j < t.len() implies !route_accepts(#[trigger] t[j].0, method, path) by {
            assert(t[j] == d[j + 1]);
        }
        lemma_dynamic_search_none(t, method, path, m.1);
    }
}

/// A request that no static route claims and no dynamic route accepts is
/// not routed (it is answered "not found").
pub proof fn law_no_route_not_found<H>(
    r: RouterModel<H>,
    method: Seq<char>,
    path: Seq<char>,
    params: Map<Seq<char>, Seq<char>>,
)
    requires
        !pairs_map(r.static_routes).contains_key(route_key(method, path)),
        forall|j: int|
            0 <= j < r.dynamic_routes.len() ==> !route_accepts(#[trigger] r.dynamic_routes[j].0, method, path),
    ensures
        find_route_spec(r, method, path, params).0 is None,
{
    lemma_dynamic_search_none(r.dynamic_routes, method, path, params);
}

/// A route key accepts a request only for the method it names: whatever
/// the key and the request path, acceptance means the key has at least two
/// words and its first word is the request's method.
pub proof fn law_route_accepts_only_its_method(
    route: Seq<char>,
    method: Seq<char>,
    path: Seq<char>,
)
    ensures
        route_accepts(route, method, path) ==> words_spec(route).len() >= 2 && words_spec(
            route,
        )[0] == method,
{
}

/// A route added for method `rm` and path `rp` accepts a request exactly
/// when the request's method is `rm` and its path matches `rp` segment by
/// segment (as many segments, each accepted by the route's segment).
pub proof fn law_route_accepts_method_and_path(
    rm: Seq<char>,
    rp: Seq<char>,
    method: Seq<char>,
    path: Seq<char>,
)
    requires
        rm.len() > 0,
        rp.len() > 0,
        forall|j: int| 0 <= j < rm.len() ==> !is_ws(#[trigger] rm[j]),
        forall|j: int| 0 <= j < rp.len() ==> !is_ws(#[trigger] rp[j]),
    ensures
        route_accepts(route_key(rm, rp), method, path) <==> (rm == method && ({
            let rs = split_spec(rp, Sep::Char('/'));
            let qs = split_spec(path, Sep::Char('/'));
            &&& rs.len() == qs.len()
            &&& forall|i: int| 0 <= i < rs.len() ==> segment_ok(#[trigger] rs[i], qs[i])
        })),
{
    lemma_two_words(rm, rp);
    assert(words_spec(route_key(rm, rp)) == seq![rm, rp]);
    law_path_match(rp, path, Map::empty());
}

/// When a request goes to a dynamic route (no static route claims it and
/// the first dynamic route accepts it), the handler gets that route's
/// handler and the request as parsed with its path parameters bound: each
/// `:name` segment of the route's path stores the request's segment at the
/// same place under `name`.
pub proof fn law_dispatch_binds_route_parameters<'a, H>(
    r: RouterModel<H>,
    text: Seq<char>,
    d: Dispatch<'a, H>,
)
    requires
        dispatch_spec(r, text, d),
        parse_spec(text) is Some,
        !pairs_map(r.static_routes).contains_key(
            route_key(parse_spec(text).unwrap().method, parse_spec(text).unwrap().path),
        ),
        !path_taken(r.static_routes, parse_spec(text).unwrap().path),
        r.dynamic_routes.len() > 0,
        route_accepts(
            r.dynamic_routes[0].0,
            parse_spec(text).unwrap().method,
            parse_spec(text).unwrap().path,
        ),
    ensures
        ({
            let req = parse_spec(text).unwrap();
            let route_path = words_spec(r.dynamic_routes[0].0)[1];
            d matches Dispatch::Handle(h, request, _) && {
                &&& *h == r.dynamic_routes[0].1
                &&& request@.method == req.method
                &&& request@.path == req.path
                &&& request@.params == insert_pairs(
                    Map::empty(),
                    bindings(
                        split_spec(route_path, Sep::Char('/')),
                        split_spec(req.path, Sep::Char('/')),
                    ),
                )
            }
        }),
{
    let req = parse_spec(text).unwrap();
    let w = words_spec(r.dynamic_routes[0].0);
    assert(req.params == Map::<Seq<char>, Seq<char>>::empty());
    law_path_bindings(w[1], req.path, Map::empty());
}

} // verus!
