//! Route registration and request dispatch: lookup by method and path,
//! trailing-slash and HEAD-to-GET resolution on a miss, parameter
//! validation, and the handler's answer.

use vstd::prelude::*;
use vstd::utf8::encode_utf8;
use crate::extract::{extract_params, params_are, type_word, value_is, value_ok};
use crate::handlers::FastRouteHandler;
use crate::middleware::{
    request_phase, response_phase, run_request_phase, run_response_phase, Middleware,
};
use crate::pattern::{captures_of, compile_pattern, path_matches, CompiledPattern, Segment};
use crate::request::RequestData;
use crate::response::{
    content_type_key, headers_view, json_type, text_type, utf8_bytes, ResponseData,
};
use crate::template::{
    compile_spec, is_pure, join_text, lemma_pure_round_trip, literal_json, parts_view, pieces_view,
    render, render_spec, texts_of, lemma_render_same, same_params, same_value, Piece, Shape,
    TemplatePart,
};
use crate::text::{chars_eq, chars_of, split_on_slash, split_slash, string_of, views};
use vstd::string::StrSliceExecFns;
use crate::value::{ParamType, TypedValue};

verus! {

/// A handler whose whole response comes from a compiled template.
#[derive(Debug)]
pub struct CompiledHandler {
    pub template: Vec<TemplatePart>,
}

impl CompiledHandler {
    /// `d` answers the parameters: a `200` JSON response with the rendered
    /// text when it is all text, else the rendered pieces for the host.
    pub open spec fn answered(&self, params: Seq<(String, TypedValue)>, d: Decision) -> bool {
        match texts_of(render_spec(self.template@, params)) {
            Some(t) => d matches Decision::Respond(resp) && resp.status == 200 && resp.body@
                == encode_utf8(t) && headers_view(resp.headers@) == seq![
                (content_type_key(), json_type()),
            ],
            None => d matches Decision::Render(pieces) && pieces_view(pieces@) == render_spec(
                self.template@,
                params,
            ),
        }
    }

    /// Renders the template against the parameters.
    pub fn handle(&self, params: &Vec<(String, TypedValue)>) -> (d: Decision)
        ensures
            self.answered(params@, d),
    {
        let pieces = render(&self.template, params);
        match join_text(&pieces) {
            Some(t) => Decision::Respond(ResponseData::json_body(utf8_bytes(t.as_str()))),
            None => Decision::Render(pieces),
        }
    }
}

/// A compiled handler whose template was compiled from a placeholder-free
/// shape answers any parameters with `200` and exactly the shape's JSON text.
pub proof fn lemma_pure_handler_body(
    s: Shape,
    c: CompiledHandler,
    params: Seq<(String, TypedValue)>,
    d: Decision,
)
    requires
        is_pure(s),
        parts_view(c.template@) == compile_spec(s),
        c.answered(params, d),
    ensures
        d matches Decision::Respond(resp) && resp.status == 200 && resp.body@ == encode_utf8(
            literal_json(s),
        ),
{
    lemma_pure_round_trip(s, c.template@, params);
}

/// What answers a route.
#[derive(Debug)]
pub enum HandlerKind {
    Fast(FastRouteHandler),
    Compiled(CompiledHandler),
    /// A host callback, by the host's own number for it.
    Callback(u64),
}

/// A registered handler with the pattern it was registered under.
#[derive(Debug)]
pub struct HandlerEntry {
    pub kind: HandlerKind,
    pub pattern: CompiledPattern,
    /// The pattern text as registered.
    pub source: String,
}

/// A route: a method and the id of the handler that answers it; the
/// pattern is the handler's.
#[derive(Debug)]
pub struct RouteEntry {
    pub method: String,
    pub handler: usize,
}

/// The outcome of looking a request up.
#[derive(Debug)]
pub enum Resolution {
    /// The route with this index answers.
    Hit(usize),
    /// No route answers, but this literal path would.
    Redirect(String),
    NotFound,
}

/// What the host has to do with a request.
#[derive(Debug)]
pub enum Decision {
    /// Send this response.
    Respond(ResponseData),
    /// Send a `200` JSON response whose body is these pieces, once the host
    /// has written out the floats among them.
    Render(Vec<Piece>),
    /// Call the host's handler with these parameters.
    Call { callback: u64, params: Vec<(String, TypedValue)> },
}

/// Two segment lists that a radix tree would put in the same slot: equal
/// literals, and captures of the same kind (single segment or catch-all).
pub open spec fn same_shape(a: Seq<Segment>, b: Seq<Segment>) -> bool {
    &&& a.len() == b.len()
    &&& forall|i: int|
        0 <= i < a.len() ==> match (#[trigger] a[i], b[i]) {
            (Segment::Literal(s), Segment::Literal(t)) => s@ == t@,
            (Segment::Capture(_, k1), Segment::Capture(_, k2)) => (k1 == ParamType::Path) == (k2
                == ParamType::Path),
            _ => false,
        }
}

/// The message of a parameter that does not read as its type.
pub open spec fn mismatch_message(name: Seq<char>, k: ParamType, got: Seq<char>) -> Seq<char> {
    "Parameter '"@ + name + "': expected "@ + type_word(k) + ", got '"@ + got + "'"@
}

/// The `Location` of a redirect: the target, and the query when there is one.
pub open spec fn location_of(target: Seq<char>, query: Seq<char>) -> Seq<char> {
    if query.len() == 0 {
        target
    } else {
        target + seq!['?'] + query
    }
}

pub open spec fn head_method() -> Seq<char> {
    "HEAD"@
}

pub open spec fn get_method() -> Seq<char> {
    "GET"@
}

/// The routing table together with the handler registry. Handler ids are
/// indices into the registry and never change.
pub struct Router<M> {
    routes: Vec<RouteEntry>,
    handlers: Vec<HandlerEntry>,
    middleware: Vec<M>,
}

impl<M: Middleware> Router<M> {
    pub closed spec fn routes_spec(&self) -> Seq<RouteEntry> {
        self.routes@
    }

    pub closed spec fn handlers_spec(&self) -> Seq<HandlerEntry> {
        self.handlers@
    }

    pub open spec fn wf(&self) -> bool {
        &&& forall|i: int|
            0 <= i < self.routes_spec().len() ==> (#[trigger] self.routes_spec()[i]).handler
                < self.handlers_spec().len()
        &&& forall|h: int|
            0 <= h < self.handlers_spec().len() ==> (#[trigger] self.handlers_spec()[h]).pattern.wf()
    }

    /// The pattern of route `i`.
    pub open spec fn route_pattern(&self, i: int) -> CompiledPattern {
        self.handlers_spec()[self.routes_spec()[i].handler as int].pattern
    }

    /// Route `i` has no placeholders.
    pub open spec fn is_literal(&self, i: int) -> bool {
        self.route_pattern(i).specs@.len() == 0
    }

    /// Route `i` is registered for method `m` and its pattern matches `ps`.
    pub open spec fn hits(&self, i: int, m: Seq<char>, ps: Seq<Seq<char>>) -> bool {
        &&& 0 <= i < self.routes_spec().len()
        &&& self.routes_spec()[i].method@ == m
        &&& path_matches(self.route_pattern(i).segments@, ps)
    }

    /// Route `i` is the one that answers: the first literal route that hits,
    /// or when none does, the first route that hits.
    pub open spec fn chosen(&self, i: int, m: Seq<char>, ps: Seq<Seq<char>>) -> bool {
        &&& self.hits(i, m, ps)
        &&& if self.is_literal(i) {
            forall|j: int| 0 <= j < i && #[trigger] self.is_literal(j) ==> !self.hits(j, m, ps)
        } else {
            &&& forall|j: int|
                0 <= j < self.routes_spec().len() && #[trigger] self.is_literal(j) ==> !self.hits(
                    j,
                    m,
                    ps,
                )
            &&& forall|j: int| 0 <= j < i ==> !#[trigger] self.hits(j, m, ps)
        }
    }

    pub open spec fn misses(&self, m: Seq<char>, ps: Seq<Seq<char>>) -> bool {
        forall|j: int| 0 <= j < self.routes_spec().len() ==> !#[trigger] self.hits(j, m, ps)
    }

    /// The literal path `p` is registered for method `m`.
    pub open spec fn literal_registered(&self, m: Seq<char>, p: Seq<char>) -> bool {
        exists|j: int| #[trigger] self.is_literal(j) && self.hits(j, m, split_slash(p))
    }

    /// Where a miss for `m` on `path` redirects: the path with its trailing
    /// '/' toggled (removed when it has one, added when it has none), when
    /// that is a literal route for `m`.
    pub open spec fn redirect_spec(&self, m: Seq<char>, path: Seq<char>) -> Option<Seq<char>> {
        if path.len() > 0 && path.last() == '/' {
            if self.literal_registered(m, path.drop_last()) {
                Some(path.drop_last())
            } else {
                None
            }
        } else if self.literal_registered(m, path.push('/')) {
            Some(path.push('/'))
        } else {
            None
        }
    }

    /// Route `j` is for method `m` and has the shape of `segs`.
    pub open spec fn conflicts(&self, j: int, m: Seq<char>, segs: Seq<Segment>) -> bool {
        self.routes_spec()[j].method@ == m && same_shape(self.route_pattern(j).segments@, segs)
    }

    /// An empty router.
    pub fn new() -> (r: Router<M>)
        ensures
            r.wf(),
            r.routes_spec().len() == 0,
            r.handlers_spec().len() == 0,
            r.middleware_spec().len() == 0,
    {
        Router { routes: Vec::new(), handlers: Vec::new(), middleware: Vec::new() }
    }

    pub closed spec fn middleware_spec(&self) -> Seq<M> {
        self.middleware@
    }

    /// Appends a middleware to the chain.
    pub fn add_middleware(&mut self, middleware: M)
        ensures
            final(self).middleware_spec() == old(self).middleware_spec().push(middleware),
            final(self).routes_spec() == old(self).routes_spec(),
            final(self).handlers_spec() == old(self).handlers_spec(),
    {
        self.middleware.push(middleware);
    }

    /// The number of routes.
    pub fn route_count(&self) -> (r: usize)
        ensures
            r == self.routes_spec().len(),
    {
        self.routes.len()
    }

    /// The number of registered handlers.
    pub fn handler_count(&self) -> (r: usize)
        ensures
            r == self.handlers_spec().len(),
    {
        self.handlers.len()
    }

    fn shapes_equal(a: &Vec<Segment>, b: &Vec<Segment>) -> (r: bool)
        ensures
            r == same_shape(a@, b@),
    {
        if a.len() != b.len() {
            return false;
        }
        let mut i: usize = 0;
        while i < a.len()
            invariant
                a@.len() == b@.len(),
                i <= a@.len(),
                forall|j: int|
                    0 <= j < i ==> match (#[trigger] a@[j], b@[j]) {
                        (Segment::Literal(s), Segment::Literal(t)) => s@ == t@,
                        (Segment::Capture(_, k1), Segment::Capture(_, k2)) => (k1 == ParamType::Path)
                            == (k2 == ParamType::Path),
                        _ => false,
                    },
            decreases a@.len() - i,
        {
            let same = match (&a[i], &b[i]) {
                (Segment::Literal(s), Segment::Literal(t)) => {
                    let sv = chars_of(s.as_str());
                    let tv = chars_of(t.as_str());
                    chars_eq(&sv, &tv)
                },
                (Segment::Capture(_, k1), Segment::Capture(_, k2)) => {
                    let p1 = match k1 {
                        ParamType::Path => true,
                        _ => false,
                    };
                    let p2 = match k2 {
                        ParamType::Path => true,
                        _ => false,
                    };
                    p1 == p2
                },
                _ => false,
            };
            if !same {
                return false;
            }
            i = i + 1;
        }
        true
    }

    /// Registers `handler` for `method` and `pattern` under a new handler id.
    /// A route of the same method and pattern shape takes the new handler
    /// (the result is then `true`); otherwise the route is added.
    pub fn add_route(&mut self, method: &str, pattern: &str, handler: HandlerKind) -> (replaced: bool)
        requires
            old(self).wf(),
        ensures
            final(self).wf(),
            final(self).handlers_spec().len() == old(self).handlers_spec().len() + 1,
            forall|h: int|
                0 <= h < old(self).handlers_spec().len() ==> #[trigger] final(self).handlers_spec()[h]
                    == old(self).handlers_spec()[h],
            final(self).handlers_spec().last().kind == handler,
            final(self).handlers_spec().last().pattern.compiled_from(pattern@),
            final(self).handlers_spec().last().source@ == pattern@,
            final(self).middleware_spec() == old(self).middleware_spec(),
            ({
                let id = old(self).handlers_spec().len();
                let segs = final(self).handlers_spec().last().pattern.segments@;
                let rs = old(self).routes_spec();
                if replaced {
                    exists|i: int|
                        0 <= i < rs.len() && old(self).conflicts(i, method@, segs) && (forall|j: int|
                            0 <= j < i ==> !#[trigger] old(self).conflicts(j, method@, segs))
                            && final(self).routes_spec().len() == rs.len()
                            && final(self).routes_spec()[i].method@ == method@
                            && final(self).routes_spec()[i].handler == id && forall|j: int|
                            0 <= j < rs.len() && j != i ==> #[trigger] final(self).routes_spec()[j]
                                == rs[j]
                } else {
                    &&& forall|j: int| 0 <= j < rs.len() ==> !#[trigger] old(self).conflicts(j, method@, segs)
                    &&& final(self).routes_spec().len() == rs.len() + 1
                    &&& forall|j: int|
                        0 <= j < rs.len() ==> #[trigger] final(self).routes_spec()[j] == rs[j]
                    &&& final(self).routes_spec().last().method@ == method@
                    &&& final(self).routes_spec().last().handler == id
                }
            }),
    {
        let compiled = compile_pattern(pattern);
        let ghost segs = compiled.segments@;
        let id = self.handlers.len();
        let ghost rs = self.routes@;
        let ghost old_self = *self;
        let m = method.to_owned();
        let mut i: usize = 0;
        let mut found: Option<usize> = None;
        while i < self.routes.len()
            invariant
                i <= rs.len(),
                self.routes@ == rs,
                self.handlers@ == old_self.handlers@,
                self.routes@ == old_self.routes@,
                old_self.wf(),
                m@ == method@,
                id == self.handlers@.len(),
                found is None ==> forall|j: int|
                    0 <= j < i ==> !(rs[j].method@ == method@ && same_shape(
                        old_self.route_pattern(j).segments@,
                        compiled.segments@,
                    )),
                found matches Some(k) ==> k < i && rs[k as int].method@ == method@ && same_shape(
                    old_self.route_pattern(k as int).segments@,
                    compiled.segments@,
                ) && forall|j: int|
                    0 <= j < k ==> !(rs[j].method@ == method@ && same_shape(
                        old_self.route_pattern(j).segments@,
                        compiled.segments@,
                    )),
            decreases rs.len() - i,
        {
            if found.is_none() {
                let r = &self.routes[i];
                assert(old_self.routes_spec()[i as int] == *r);
                assert(r.handler < old_self.handlers_spec().len());
                if r.method == m && Self::shapes_equal(
                    &self.handlers[r.handler].pattern.segments,
                    &compiled.segments,
                ) {
                    found = Some(i);
                }
            }
            i = i + 1;
        }
        self.handlers.push(HandlerEntry { kind: handler, pattern: compiled, source: pattern.to_owned() });
        assert forall|h: int| 0 <= h < old_self.handlers@.len() implies self.handlers@[h]
            == old_self.handlers@[h] by {}
        match found {
            Some(k) => {
                self.routes.set(k, RouteEntry { method: m, handler: id });
                proof {
                    assert forall|j: int| 0 <= j < rs.len() && j != k implies #[trigger] self.routes@[j]
                        == rs[j] by {}
                    assert forall|j: int| 0 <= j < rs.len() implies old(self).route_pattern(j)
                        == old_self.route_pattern(j) by {}
                    assert(self.handlers_spec().last().pattern.segments@ == segs);
                    assert(old(self).conflicts(k as int, method@, segs));
                    assert(forall|j: int|
                        0 <= j < k ==> !#[trigger] old(self).conflicts(j, method@, segs));
                }
                true
            },
            None => {
                self.routes.push(RouteEntry { method: m, handler: id });
                proof {
                    assert forall|j: int| 0 <= j < rs.len() implies #[trigger] self.routes@[j]
                        == rs[j] by {}
                    assert(self.handlers_spec().last().pattern.segments@ == segs);
                }
                false
            },
        }
    }
}


impl<M: Middleware> Router<M> {
    fn route_hits(&self, i: usize, method: &String, ps: &Vec<Vec<char>>) -> (r: bool)
        requires
            self.wf(),
            i < self.routes_spec().len(),
        ensures
            r == self.hits(i as int, method@, views(ps@)),
    {
        let route = &self.routes[i];
        assert(self.routes_spec()[i as int] == *route);
        if route.method != *method {
            return false;
        }
        let pat = &self.handlers[route.handler].pattern;
        assert(self.handlers_spec()[route.handler as int].pattern == *pat);
        pat.match_pieces(ps).is_some()
    }

    fn route_is_literal(&self, i: usize) -> (r: bool)
        requires
            self.wf(),
            i < self.routes_spec().len(),
        ensures
            r == self.is_literal(i as int),
    {
        let route = &self.routes[i];
        assert(self.routes_spec()[i as int] == *route);
        self.handlers[route.handler].pattern.specs.len() == 0
    }

    /// The route that answers `method` on the path pieces `ps`, if any.
    pub fn lookup(&self, method: &String, ps: &Vec<Vec<char>>) -> (r: Option<usize>)
        requires
            self.wf(),
        ensures
            match r {
                Some(i) => self.chosen(i as int, method@, views(ps@)),
                None => self.misses(method@, views(ps@)),
            },
    {
        let ghost v = views(ps@);
        let n = self.routes.len();
        let mut i: usize = 0;
        while i < n
            invariant
                n == self.routes_spec().len(),
                self.wf(),
                v == views(ps@),
                i <= n,
                forall|j: int| 0 <= j < i && #[trigger] self.is_literal(j) ==> !self.hits(j, method@, v),
            decreases n - i,
        {
            if self.route_is_literal(i) && self.route_hits(i, method, ps) {
                return Some(i);
            }
            i = i + 1;
        }
        let mut i: usize = 0;
        while i < n
            invariant
                n == self.routes_spec().len(),
                self.wf(),
                v == views(ps@),
                i <= n,
                forall|j: int| 0 <= j < n && #[trigger] self.is_literal(j) ==> !self.hits(j, method@, v),
                forall|j: int| 0 <= j < i ==> !#[trigger] self.hits(j, method@, v),
            decreases n - i,
        {
            if self.route_hits(i, method, ps) {
                return Some(i);
            }
            i = i + 1;
        }
        None
    }

    /// Whether the literal path `p` is registered for `method`.
    fn literal_exists(&self, method: &String, p: &Vec<char>) -> (r: bool)
        requires
            self.wf(),
        ensures
            r == self.literal_registered(method@, p@),
    {
        let ps = split_on_slash(p);
        let n = self.routes.len();
        let mut i: usize = 0;
        while i < n
            invariant
                n == self.routes_spec().len(),
                self.wf(),
                views(ps@) == split_slash(p@),
                i <= n,
                forall|j: int|
                    0 <= j < i ==> !(#[trigger] self.is_literal(j) && self.hits(j, method@, split_slash(p@))),
            decreases n - i,
        {
            if self.route_is_literal(i) && self.route_hits(i, method, &ps) {
                return true;
            }
            i = i + 1;
        }
        false
    }

    /// Where a miss redirects to, by the trailing-slash rules.
    pub fn redirect_target(&self, method: &String, path: &Vec<char>) -> (r: Option<Vec<char>>)
        requires
            self.wf(),
        ensures
            match r {
                Some(t) => self.redirect_spec(method@, path@) == Some(t@),
                None => self.redirect_spec(method@, path@) is None,
            },
    {
        let n = path.len();
        if n > 0 && path[n - 1] == '/' {
            let mut stripped = path.clone();
            stripped.pop();
            assert(stripped@ =~= path@.drop_last());
            if self.literal_exists(method, &stripped) {
                return Some(stripped);
            }
            return None;
        }
        let mut slashed = path.clone();
        slashed.push('/');
        assert(slashed@ =~= path@.push('/'));
        if self.literal_exists(method, &slashed) {
            Some(slashed)
        } else {
            None
        }
    }
}


impl<M: Middleware> Router<M> {
    /// `r` is how a request for `m` on `path` resolves: a route of its own
    /// method; else a trailing-slash redirect for that method; else, for
    /// `HEAD`, a `GET` route; else a `GET` redirect; else nothing.
    pub open spec fn resolves(&self, m: Seq<char>, path: Seq<char>, r: Resolution) -> bool {
        let ps = split_slash(path);
        let head_falls_back = m == head_method() && self.misses(m, ps) && self.redirect_spec(
            m,
            path,
        ) is None;
        match r {
            Resolution::Hit(i) => self.chosen(i as int, m, ps) || (head_falls_back && self.chosen(
                i as int,
                get_method(),
                ps,
            )),
            Resolution::Redirect(t) => (self.misses(m, ps) && self.redirect_spec(m, path) == Some(
                t@,
            )) || (head_falls_back && self.misses(get_method(), ps) && self.redirect_spec(
                get_method(),
                path,
            ) == Some(t@)),
            Resolution::NotFound => self.misses(m, ps) && self.redirect_spec(m, path) is None && (m
                == head_method() ==> self.misses(get_method(), ps) && self.redirect_spec(
                get_method(),
                path,
            ) is None),
        }
    }

    /// Resolves a request's method and path.
    pub fn resolve(&self, method: &str, path: &str) -> (r: Resolution)
        requires
            self.wf(),
        ensures
            self.resolves(method@, path@, r),
            r matches Resolution::Hit(i) ==> i < self.routes_spec().len(),
    {
        let m = method.to_owned();
        let pv = chars_of(path);
        let ps = split_on_slash(&pv);
        match self.lookup(&m, &ps) {
            Some(i) => {
                return Resolution::Hit(i);
            },
            None => {},
        }
        match self.redirect_target(&m, &pv) {
            Some(t) => {
                return Resolution::Redirect(string_of(&t));
            },
            None => {},
        }
        let get = String::from_str("GET");
        let head = String::from_str("HEAD");
        proof {
            reveal_strlit("GET");
            reveal_strlit("HEAD");
        }
        if m == head {
            match self.lookup(&get, &ps) {
                Some(i) => {
                    return Resolution::Hit(i);
                },
                None => {},
            }
            match self.redirect_target(&get, &pv) {
                Some(t) => {
                    return Resolution::Redirect(string_of(&t));
                },
                None => {},
            }
        }
        Resolution::NotFound
    }

    /// The parameters of route `i` on the path pieces `ps` do not all read
    /// as their types, and `k` is the first that does not.
    pub open spec fn first_mismatch(&self, i: int, ps: Seq<Seq<char>>, k: int) -> bool {
        let pat = self.route_pattern(i);
        let caps = captures_of(pat.segments@, ps, pat.segments@.len() as int);
        &&& 0 <= k < pat.specs@.len()
        &&& !value_ok(pat.specs@[k].kind, caps[k])
        &&& forall|j: int| 0 <= j < k ==> value_ok(#[trigger] pat.specs@[j].kind, caps[j])
    }

    /// `d` is what route `i` answers on the path pieces `ps`: a `400` naming
    /// the first parameter that does not read as its type; else the fast
    /// handler's response; else the rendered template, as a `200` JSON
    /// response when it is all text; else a call of the host's handler.
    pub open spec fn dispatched(&self, i: int, ps: Seq<Seq<char>>, d: Decision) -> bool {
        let h = self.handlers_spec()[self.routes_spec()[i].handler as int];
        let pat = h.pattern;
        let caps = captures_of(pat.segments@, ps, pat.segments@.len() as int);
        let specs = pat.specs@;
        if exists|k: int| 0 <= k < specs.len() && !value_ok(#[trigger] specs[k].kind, caps[k]) {
            exists|k: int|
                #[trigger] self.first_mismatch(i, ps, k) && (d matches Decision::Respond(resp)
                    && resp.status == 400 && resp.body@ == encode_utf8(
                    mismatch_message(specs[k].name@, specs[k].kind, caps[k]),
                ) && headers_view(resp.headers@) == seq![(content_type_key(), text_type())])
        } else {
            match h.kind {
                HandlerKind::Fast(f) => d matches Decision::Respond(resp) && resp.status == 200
                    && resp.body@ == encode_utf8(f.body_spec()) && headers_view(resp.headers@)
                    == seq![(content_type_key(), f.content_type_spec())],
                HandlerKind::Compiled(c) => exists|params: Seq<(String, TypedValue)>|
                    #[trigger] params_are(params, specs, caps) && c.answered(params, d),
                HandlerKind::Callback(id) => d matches Decision::Call { callback, params }
                    && callback == id && params_are(params@, specs, caps),
            }
        }
    }

    /// Answers route `i` on the path pieces `ps`.
    #[verifier::rlimit(60)]
    pub fn dispatch(&self, i: usize, ps: &Vec<Vec<char>>) -> (d: Decision)
        requires
            self.wf(),
            i < self.routes_spec().len(),
            path_matches(self.route_pattern(i as int).segments@, views(ps@)),
        ensures
            self.dispatched(i as int, views(ps@), d),
    {
        let route = &self.routes[i];
        assert(self.routes_spec()[i as int] == *route);
        let entry = &self.handlers[route.handler];
        assert(self.handlers_spec()[route.handler as int] == *entry);
        let pat = &entry.pattern;
        let caps = match pat.match_pieces(ps) {
            Some(c) => c,
            None => {
                return Decision::Respond(ResponseData::with_status(404));
            },
        };
        proof {
            crate::pattern::lemma_captures_count(pat.segments@, views(ps@));
        }
        let params = match extract_params(&pat.specs, &caps) {
            Ok(p) => p,
            Err(e) => {
                let msg = e.message();
                let mut resp = ResponseData::with_status(400);
                resp.set_body(utf8_bytes(msg.as_str()));
                resp.set_header("Content-Type", "text/plain; charset=utf-8");
                proof {
                    assert(headers_view(resp.headers@) =~= seq![(content_type_key(), text_type())]);
                    let k = choose|k: int|
                        0 <= k < pat.specs@.len() && !value_ok(#[trigger] pat.specs@[k].kind, caps@[k]@)
                            && (forall|j: int|
                            0 <= j < k ==> value_ok(#[trigger] pat.specs@[j].kind, caps@[j]@))
                            && e.name == pat.specs@[k].name && e.expected == pat.specs@[k].kind
                            && e.got@ == caps@[k]@;
                    assert(views(caps@)[k] == caps@[k]@);
                    assert forall|j: int| 0 <= j < k implies value_ok(
                        #[trigger] pat.specs@[j].kind,
                        views(caps@)[j],
                    ) by {
                        assert(views(caps@)[j] == caps@[j]@);
                    }
                    assert(self.first_mismatch(i as int, views(ps@), k));
                }
                return Decision::Respond(resp);
            },
        };
        proof {
            assert forall|k: int| 0 <= k < pat.specs@.len() implies value_ok(
                #[trigger] pat.specs@[k].kind,
                views(caps@)[k],
            ) by {
                assert(views(caps@)[k] == caps@[k]@);
            }
        }
        match &entry.kind {
            HandlerKind::Fast(f) => Decision::Respond(f.handle_fixed()),
            HandlerKind::Compiled(c) => c.handle(&params),
            HandlerKind::Callback(id) => Decision::Call { callback: *id, params },
        }
    }
}


pub open spec fn not_found_text() -> Seq<char> {
    "Not Found"@
}

impl<M: Middleware> Router<M> {
    /// `d` answers a request for `path` with query `query` that resolved to `r`:
    /// the route's answer, a `307` to the target with the query re-appended
    /// and no body, or a `404`.
    pub open spec fn answers(&self, r: Resolution, path: Seq<char>, query: Seq<char>, d: Decision) -> bool {
        match r {
            Resolution::Hit(i) => self.dispatched(i as int, split_slash(path), d),
            Resolution::Redirect(t) => d matches Decision::Respond(resp) && resp.status == 307
                && resp.body@.len() == 0 && headers_view(resp.headers@) == seq![
                ("Location"@, location_of(t@, query)),
            ],
            Resolution::NotFound => d matches Decision::Respond(resp) && resp.status == 404
                && resp.body@ == encode_utf8(not_found_text()) && resp.headers@.len() == 0,
        }
    }

    /// Decides what a request gets.
    pub fn route_request(&self, req: &RequestData) -> (d: Decision)
        requires
            self.wf(),
        ensures
            exists|r: Resolution|
                #[trigger] self.resolves(req.method@, req.path@, r) && self.answers(
                    r,
                    req.path@,
                    req.query_string@,
                    d,
                ),
    {
        let r = self.resolve(req.method.as_str(), req.path.as_str());
        let ghost rg = r;
        let d = match r {
            Resolution::Hit(i) => {
                let pv = chars_of(req.path.as_str());
                let ps = split_on_slash(&pv);
                let d = self.dispatch(i, &ps);
                assert(self.answers(rg, req.path@, req.query_string@, d));
                d
            },
            Resolution::Redirect(t) => {
                let mut loc = t;
                if req.query_string.as_str().unicode_len() > 0 {
                    loc.append("?");
                    loc.append(req.query_string.as_str());
                }
                proof {
                    reveal_strlit("?");
                    assert(loc@ =~= location_of(rg->Redirect_0@, req.query_string@));
                }
                let mut resp = ResponseData::with_status(307);
                resp.set_header("Location", loc.as_str());
                assert(headers_view(resp.headers@) =~= seq![
                    ("Location"@, location_of(rg->Redirect_0@, req.query_string@)),
                ]);
                let d = Decision::Respond(resp);
                assert(self.answers(rg, req.path@, req.query_string@, d));
                d
            },
            Resolution::NotFound => {
                let mut resp = ResponseData::with_status(404);
                resp.set_body(utf8_bytes("Not Found"));
                let d = Decision::Respond(resp);
                assert(self.answers(rg, req.path@, req.query_string@, d));
                d
            },
        };
        assert(self.resolves(req.method@, req.path@, rg));
        d
    }
}


/// What became of a request after the request hooks and dispatch.
#[derive(Debug)]
pub enum Handled {
    /// The response, after the response hooks (or a request hook's answer).
    Done(ResponseData),
    /// The host has a step to take; it then hands the response to `finish`.
    Pending { req: RequestData, decision: Decision },
}

impl<M: Middleware> Router<M> {
    /// Every route: its method, its pattern text and its handler id.
    pub fn get_routes(&self) -> (r: Vec<(String, String, usize)>)
        requires
            self.wf(),
        ensures
            r@.len() == self.routes_spec().len(),
            forall|i: int|
                0 <= i < r@.len() ==> (#[trigger] r@[i]).0@ == self.routes_spec()[i].method@
                    && r@[i].1@ == self.handlers_spec()[self.routes_spec()[i].handler as int].source@
                    && r@[i].2 == self.routes_spec()[i].handler,
    {
        let mut out: Vec<(String, String, usize)> = Vec::new();
        let mut i: usize = 0;
        while i < self.routes.len()
            invariant
                self.wf(),
                i <= self.routes_spec().len(),
                out@.len() == i,
                forall|j: int|
                    0 <= j < i ==> (#[trigger] out@[j]).0@ == self.routes_spec()[j].method@
                        && out@[j].1@ == self.handlers_spec()[self.routes_spec()[j].handler as int].source@
                        && out@[j].2 == self.routes_spec()[j].handler,
            decreases self.routes_spec().len() - i,
        {
            let route = &self.routes[i];
            assert(self.routes_spec()[i as int] == *route);
            let entry = &self.handlers[route.handler];
            out.push((route.method.clone(), entry.source.clone(), route.handler));
            i = i + 1;
        }
        out
    }

    /// `d` is what dispatch decides for the request `req`.
    pub open spec fn routed(&self, req: RequestData, d: Decision) -> bool {
        exists|res: Resolution|
            #[trigger] self.resolves(req.method@, req.path@, res) && self.answers(
                res,
                req.path@,
                req.query_string@,
                d,
            )
    }

    /// `resp` is what the pipeline gives for `request` when nothing is left
    /// to the host: the answer of the first request hook that answers, or
    /// the dispatch response after every response hook.
    pub open spec fn done_with(&self, request: RequestData, resp: ResponseData) -> bool {
        ||| exists|after: RequestData|
            #[trigger] request_phase(self.middleware_spec(), request, after, Some(resp))
        ||| exists|kept: RequestData, first: ResponseData|
            request_phase(self.middleware_spec(), request, kept, None) && self.routed(
                kept,
                Decision::Respond(first),
            ) && #[trigger] response_phase(self.middleware_spec(), kept, first, resp)
    }

    /// Runs a request through the pipeline: the request hooks in order (the
    /// first to answer ends it, and its answer comes back unchanged), then
    /// dispatch, then, for a response made here, every response hook in
    /// order on the response the previous one left. A host step is handed
    /// back with the request as the hooks left it.
    pub fn handle_request(&self, request: RequestData) -> (r: Handled)
        requires
            self.wf(),
        ensures
            match r {
                Handled::Done(resp) => self.done_with(request, resp),
                Handled::Pending { req: kept, decision } => request_phase(
                    self.middleware_spec(),
                    request,
                    kept,
                    None,
                ) && !(decision is Respond) && self.routed(kept, decision),
            },
    {
        let ghost original = request;
        let mut req = request;
        match run_request_phase(&self.middleware, &mut req) {
            Some(resp) => {
                let ghost after = req;
                assert(request_phase(self.middleware_spec(), original, after, Some(resp)));
                assert(self.done_with(original, resp));
                return Handled::Done(resp);
            },
            None => {},
        }
        let decision = self.route_request(&req);
        let ghost dg = decision;
        let ghost rq = req;
        assert(self.routed(rq, dg));
        match decision {
            Decision::Respond(resp) => {
                let ghost first = resp;
                let mut resp = resp;
                run_response_phase(&self.middleware, &req, &mut resp);
                assert(request_phase(self.middleware_spec(), original, rq, None));
                assert(self.routed(rq, Decision::Respond(first)));
                assert(response_phase(self.middleware_spec(), rq, first, resp));
                assert(self.done_with(original, resp));
                Handled::Done(resp)
            },
            Decision::Render(pieces) => {
                let r = Handled::Pending { req, decision: Decision::Render(pieces) };
                assert(r matches Handled::Pending { req: kept, decision } && kept == rq && decision
                    == dg);
                r
            },
            Decision::Call { callback, params } => {
                let r = Handled::Pending { req, decision: Decision::Call { callback, params } };
                assert(r matches Handled::Pending { req: kept, decision } && kept == rq && decision
                    == dg);
                r
            },
        }
    }

    /// Runs every response hook, in order, on a response that the host
    /// completed; the result is what the last hook left.
    pub fn finish(&self, req: &RequestData, resp: ResponseData) -> (r: ResponseData)
        ensures
            response_phase(self.middleware_spec(), *req, resp, r),
    {
        let mut resp = resp;
        run_response_phase(&self.middleware, req, &mut resp);
        resp
    }
}


impl<M: Middleware> Default for Router<M> {
    /// An empty router.
    fn default() -> (r: Router<M>)
        ensures
            r.wf(),
            r.routes_spec().len() == 0,
            r.handlers_spec().len() == 0,
            r.middleware_spec().len() == 0,
    {
        Router::new()
    }
}

impl<M: Middleware> Router<M> {
    /// With no route registered for `HEAD`, a `HEAD` request resolves
    /// exactly as a `GET` request for the same path does, so it gets the
    /// `GET` handler's answer.
    pub proof fn lemma_head_as_get(&self, path: Seq<char>, res: Resolution)
        requires
            forall|j: int|
                0 <= j < self.routes_spec().len() ==> (#[trigger] self.routes_spec()[j]).method@
                    != head_method(),
            self.resolves(get_method(), path, res),
        ensures
            self.resolves(head_method(), path, res),
    {
        reveal_strlit("GET");
        reveal_strlit("HEAD");
        assert(head_method().len() != get_method().len());
        let ps = split_slash(path);
        assert forall|j: int| 0 <= j < self.routes_spec().len() implies !#[trigger] self.hits(
            j,
            head_method(),
            ps,
        ) by {
            assert(self.routes_spec()[j].method@ != head_method());
        }
        assert(!self.literal_registered(head_method(), path.drop_last()));
        assert(!self.literal_registered(head_method(), path.push('/')));
    }
}

/// Two decisions agree: both responses, with the same status, headers and
/// body, or neither a response.
pub open spec fn same_answer(d1: Decision, d2: Decision) -> bool {
    match (d1, d2) {
        (Decision::Respond(a), Decision::Respond(b)) => a.status == b.status && headers_view(
            a.headers@,
        ) == headers_view(b.headers@) && a.body@ == b.body@,
        (Decision::Respond(_), _) => false,
        (_, Decision::Respond(_)) => false,
        _ => true,
    }
}

/// Two resolutions agree: the same route, the same redirect target, or both
/// a miss.
pub open spec fn same_resolution(r1: Resolution, r2: Resolution) -> bool {
    match (r1, r2) {
        (Resolution::Hit(i), Resolution::Hit(j)) => i == j,
        (Resolution::Redirect(t), Resolution::Redirect(u)) => t@ == u@,
        (Resolution::NotFound, Resolution::NotFound) => true,
        _ => false,
    }
}

proof fn lemma_params_are_same(
    p: Seq<(String, TypedValue)>,
    q: Seq<(String, TypedValue)>,
    specs: Seq<crate::pattern::ParamSpec>,
    caps: Seq<Seq<char>>,
)
    requires
        params_are(p, specs, caps),
        params_are(q, specs, caps),
    ensures
        same_params(p, q),
{
    assert forall|i: int| 0 <= i < p.len() implies (#[trigger] p[i]).0@ == q[i].0@ && same_value(
        p[i].1,
        q[i].1,
    ) by {
        assert(p[i].0 == specs[i].name && q[i].0 == specs[i].name);
        assert(value_is(p[i].1, specs[i].kind, caps[i]) && value_is(q[i].1, specs[i].kind, caps[i]));
    }
}

impl<M: Middleware> Router<M> {
    proof fn lemma_chosen_unique(&self, i: int, j: int, m: Seq<char>, ps: Seq<Seq<char>>)
        requires
            self.chosen(i, m, ps),
            self.chosen(j, m, ps),
        ensures
            i == j,
    {
        if i < j {
            assert(self.hits(i, m, ps));
        } else if j < i {
            assert(self.hits(j, m, ps));
        }
    }

    proof fn lemma_resolves_unique(&self, m: Seq<char>, path: Seq<char>, r1: Resolution, r2: Resolution)
        requires
            self.resolves(m, path, r1),
            self.resolves(m, path, r2),
        ensures
            same_resolution(r1, r2),
    {
        let ps = split_slash(path);
        match (r1, r2) {
            (Resolution::Hit(i), Resolution::Hit(j)) => {
                if self.chosen(i as int, m, ps) && self.chosen(j as int, m, ps) {
                    self.lemma_chosen_unique(i as int, j as int, m, ps);
                } else if self.chosen(i as int, m, ps) {
                    assert(self.hits(i as int, m, ps));
                } else if self.chosen(j as int, m, ps) {
                    assert(self.hits(j as int, m, ps));
                } else {
                    self.lemma_chosen_unique(i as int, j as int, get_method(), ps);
                }
            },
            (Resolution::Hit(i), _) => {
                assert(self.hits(i as int, m, ps) || self.hits(i as int, get_method(), ps));
            },
            (_, Resolution::Hit(j)) => {
                assert(self.hits(j as int, m, ps) || self.hits(j as int, get_method(), ps));
            },
            _ => {},
        }
    }

    /// Two answers of one route on one path agree in kind, status, headers
    /// and body.
    pub proof fn lemma_dispatch_same(&self, i: int, ps: Seq<Seq<char>>, d1: Decision, d2: Decision)
        requires
            self.wf(),
            0 <= i < self.routes_spec().len(),
            self.dispatched(i, ps, d1),
            self.dispatched(i, ps, d2),
        ensures
            same_answer(d1, d2),
    {
        let h = self.handlers_spec()[self.routes_spec()[i].handler as int];
        let pat = h.pattern;
        let caps = captures_of(pat.segments@, ps, pat.segments@.len() as int);
        let specs = pat.specs@;
        if exists|k: int| 0 <= k < specs.len() && !value_ok(#[trigger] specs[k].kind, caps[k]) {
            let k1 = choose|k: int|
                #[trigger] self.first_mismatch(i, ps, k) && (d1 matches Decision::Respond(resp)
                    && resp.status == 400 && resp.body@ == encode_utf8(
                    mismatch_message(specs[k].name@, specs[k].kind, caps[k]),
                ) && headers_view(resp.headers@) == seq![(content_type_key(), text_type())]);
            let k2 = choose|k: int|
                #[trigger] self.first_mismatch(i, ps, k) && (d2 matches Decision::Respond(resp)
                    && resp.status == 400 && resp.body@ == encode_utf8(
                    mismatch_message(specs[k].name@, specs[k].kind, caps[k]),
                ) && headers_view(resp.headers@) == seq![(content_type_key(), text_type())]);
            if k1 < k2 {
                assert(value_ok(specs[k1].kind, caps[k1]));
            } else if k2 < k1 {
                assert(value_ok(specs[k2].kind, caps[k2]));
            }
        } else {
            match h.kind {
                HandlerKind::Compiled(c) => {
                    let p = choose|p: Seq<(String, TypedValue)>|
                        #[trigger] params_are(p, specs, caps) && c.answered(p, d1);
                    let q = choose|q: Seq<(String, TypedValue)>|
                        #[trigger] params_are(q, specs, caps) && c.answered(q, d2);
                    lemma_params_are_same(p, q, specs, caps);
                    lemma_render_same(c.template@, p, q);
                },
                _ => {},
            }
        }
    }

    /// With no route registered for `HEAD`, a `HEAD` request gets the answer
    /// that a `GET` request for the same path and query gets: both responses
    /// with the same status, headers and body, or neither a response.
    pub proof fn lemma_head_answers_as_get(
        &self,
        get: RequestData,
        head: RequestData,
        d_get: Decision,
        d_head: Decision,
    )
        requires
            self.wf(),
            forall|j: int|
                0 <= j < self.routes_spec().len() ==> (#[trigger] self.routes_spec()[j]).method@
                    != head_method(),
            get.method@ == get_method(),
            head.method@ == head_method(),
            get.path@ == head.path@,
            get.query_string@ == head.query_string@,
            self.routed(get, d_get),
            self.routed(head, d_head),
        ensures
            same_answer(d_get, d_head),
    {
        let r1 = choose|res: Resolution|
            #[trigger] self.resolves(get.method@, get.path@, res) && self.answers(
                res,
                get.path@,
                get.query_string@,
                d_get,
            );
        let r2 = choose|res: Resolution|
            #[trigger] self.resolves(head.method@, head.path@, res) && self.answers(
                res,
                head.path@,
                head.query_string@,
                d_head,
            );
        self.lemma_head_as_get(get.path@, r1);
        self.lemma_resolves_unique(head_method(), head.path@, r1, r2);
        match (r1, r2) {
            (Resolution::Hit(i), Resolution::Hit(_)) => {
                reveal_strlit("GET");
                reveal_strlit("HEAD");
                assert(head_method().len() != get_method().len());
                assert(self.hits(i as int, get_method(), split_slash(get.path@)));
                self.lemma_dispatch_same(i as int, split_slash(get.path@), d_get, d_head);
            },
            (Resolution::Redirect(t), Resolution::Redirect(u)) => {
                assert(location_of(t@, get.query_string@) == location_of(u@, head.query_string@));
                assert(d_get matches Decision::Respond(a) && d_head matches Decision::Respond(b)
                    && a.body@ =~= b.body@);
            },
            (Resolution::NotFound, Resolution::NotFound) => {
                assert(d_get matches Decision::Respond(a) && d_head matches Decision::Respond(b)
                    && headers_view(a.headers@) =~= headers_view(b.headers@));
            },
            _ => {},
        }
    }
}

} // verus!
