//! Routes, and the decision that picks one for a request.
//!
//! A route is a description: a path pattern, a method, the further
//! conditions it puts on a request, and the endpoint it leads to. The
//! decision tries the routes in order. For each one it looks at the path
//! first, then at the method, then at the route's own conditions; the first
//! route that accepts the request on all three wins, and where none does,
//! the most specific of the failures met on the way is reported.

use crate::failure::Failure;
use crate::media::{is_json, names_json};
use crate::models::{extract_number, extracted_number, ListOptions, Seconds};
use crate::query::decoded;
use crate::request::{segments, strings, Method, Request, RequestView};
use crate::text::{parse_u64, unsigned};
use vstd::prelude::*;

verus! {

/// What a route leads to.
#[derive(Clone, Copy, Debug, PartialEq, Eq, Structural)]
pub enum Endpoint {
    Readme,
    Hello,
    Hi,
    Sleep,
    Register,
    ListTodos,
    CreateTodo,
    UpdateTodo,
    DeleteTodo,
}

/// One segment of a path pattern.
#[derive(Debug, PartialEq, Eq)]
pub enum Segment {
    /// This very text. A text that is empty or holds a slash fits no path.
    Exact(String),
    /// Any text but the empty one, taken as it stands.
    Text,
    /// A decimal numeral of at most 64 bits.
    Number,
    /// A decimal numeral of a number of seconds within its bound.
    Seconds,
}

/// What a pattern segment holds.
pub enum SegmentView {
    Exact(Seq<char>),
    Text,
    Number,
    Seconds,
}

impl View for Segment {
    type V = SegmentView;

    open spec fn view(&self) -> SegmentView {
        match self {
            Segment::Exact(text) => SegmentView::Exact(text@),
            Segment::Text => SegmentView::Text,
            Segment::Number => SegmentView::Number,
            Segment::Seconds => SegmentView::Seconds,
        }
    }
}

/// A value taken out of a path.
#[derive(Debug, PartialEq, Eq)]
pub enum Capture {
    Text(String),
    Number(u64),
    Seconds(Seconds),
}

/// What a captured value holds.
pub enum CaptureView {
    Text(Seq<char>),
    Number(u64),
    Seconds(Seconds),
}

impl View for Capture {
    type V = CaptureView;

    open spec fn view(&self) -> CaptureView {
        match self {
            Capture::Text(text) => CaptureView::Text(text@),
            Capture::Number(n) => CaptureView::Number(*n),
            Capture::Seconds(s) => CaptureView::Seconds(*s),
        }
    }
}

/// A condition that a route puts on a request beyond path and method.
#[derive(Debug, PartialEq, Eq)]
pub enum Guard {
    /// The first header of this name has exactly this value.
    HeaderIs { name: String, value: String },
    /// A header of this name is there.
    HeaderGiven { name: String },
    /// The request declares the length of its body, and it is within the limit.
    BodyWithin { limit: u64 },
    /// The request does not declare its body as anything but JSON.
    Json,
    /// The query string decodes into list options.
    Options,
}

/// What a guard holds.
pub enum GuardView {
    HeaderIs { name: Seq<char>, value: Seq<char> },
    HeaderGiven { name: Seq<char> },
    BodyWithin { limit: u64 },
    Json,
    Options,
}

impl View for Guard {
    type V = GuardView;

    open spec fn view(&self) -> GuardView {
        match self {
            Guard::HeaderIs { name, value } => GuardView::HeaderIs { name: name@, value: value@ },
            Guard::HeaderGiven { name } => GuardView::HeaderGiven { name: name@ },
            Guard::BodyWithin { limit } => GuardView::BodyWithin { limit: *limit },
            Guard::Json => GuardView::Json,
            Guard::Options => GuardView::Options,
        }
    }
}

/// A route. Where `exact` is false the pattern only has to fit the start of
/// the path.
#[derive(Debug, PartialEq, Eq)]
pub struct Route {
    pub method: Method,
    pub pattern: Vec<Segment>,
    pub exact: bool,
    pub guards: Vec<Guard>,
    pub endpoint: Endpoint,
}

/// What a route holds.
pub struct RouteView {
    pub method: Method,
    pub pattern: Seq<SegmentView>,
    pub exact: bool,
    pub guards: Seq<GuardView>,
    pub endpoint: Endpoint,
}

impl View for Route {
    type V = RouteView;

    open spec fn view(&self) -> RouteView {
        RouteView {
            method: self.method,
            pattern: self.pattern@.map_values(|s: Segment| s@),
            exact: self.exact,
            guards: self.guards@.map_values(|g: Guard| g@),
            endpoint: self.endpoint,
        }
    }
}

/// The endpoint that a request was routed to, with the values taken out of
/// its path, in the order of the path, and the list options taken out of
/// its query string where the route asks for them.
#[derive(Debug, PartialEq, Eq)]
pub struct Call {
    pub endpoint: Endpoint,
    pub captures: Vec<Capture>,
    pub options: Option<ListOptions>,
}

/// What a call holds.
pub struct CallView {
    pub endpoint: Endpoint,
    pub captures: Seq<CaptureView>,
    pub options: Option<ListOptions>,
}

impl View for Call {
    type V = CallView;

    open spec fn view(&self) -> CallView {
        CallView {
            endpoint: self.endpoint,
            captures: self.captures@.map_values(|c: Capture| c@),
            options: self.options,
        }
    }
}

/// How the routing of a request ended.
#[derive(Debug, PartialEq, Eq)]
pub enum Outcome {
    /// The route at `index` accepted the request; `carried` is the failure
    /// that the routes before it would have had reported.
    Matched { index: usize, call: Call, carried: Failure },
    /// No route accepted it.
    Rejected(Failure),
}

/// What an outcome holds.
pub enum OutcomeView {
    Matched { index: int, call: CallView, carried: Failure },
    Rejected(Failure),
}

impl View for Outcome {
    type V = OutcomeView;

    open spec fn view(&self) -> OutcomeView {
        match self {
            Outcome::Matched { index, call, carried } => OutcomeView::Matched {
                index: *index as int,
                call: call@,
                carried: *carried,
            },
            Outcome::Rejected(failure) => OutcomeView::Rejected(*failure),
        }
    }
}

/// What one route makes of a request.
pub enum Attempt {
    Accepted(CallView),
    Refused(Failure),
}

/// What the routes hold.
pub open spec fn route_views(routes: Seq<Route>) -> Seq<RouteView> {
    routes.map_values(|r: Route| r@)
}

impl SegmentView {
    /// Whether the text of a path segment fits this pattern segment. A text
    /// that does not hold a value of the type asked for does not fit.
    pub open spec fn fits(self, text: Seq<char>) -> bool {
        match self {
            SegmentView::Exact(literal) => text.len() > 0 && text == literal,
            SegmentView::Text => text.len() > 0,
            SegmentView::Number => extracted_number(text) is Ok,
            SegmentView::Seconds => Seconds::extracted(text) is Ok,
        }
    }

    /// What this pattern segment takes out of a text that fits it.
    pub open spec fn taken(self, text: Seq<char>) -> Seq<CaptureView> {
        match self {
            SegmentView::Exact(_) => Seq::empty(),
            SegmentView::Text => seq![CaptureView::Text(text)],
            SegmentView::Number => seq![CaptureView::Number(extracted_number(text).unwrap())],
            SegmentView::Seconds => seq![CaptureView::Seconds(Seconds::extracted(text).unwrap())],
        }
    }
}

/// Whether the first `n` segments of the pattern fit the path segments in
/// their places.
pub open spec fn fits_up_to(pattern: Seq<SegmentView>, path: Seq<Seq<char>>, n: int) -> bool {
    forall|i: int| 0 <= i < n ==> (#[trigger] pattern[i]).fits(path[i])
}

/// Whether a path has the shape of a pattern: every pattern segment fits the
/// path segment in its place, and for an exact pattern no path segment is left.
pub open spec fn shape_fits(pattern: Seq<SegmentView>, exact: bool, path: Seq<Seq<char>>) -> bool {
    &&& pattern.len() <= path.len()
    &&& exact ==> pattern.len() == path.len()
    &&& fits_up_to(pattern, path, pattern.len() as int)
}

/// What the first `n` segments of a pattern take out of a path, in order.
pub open spec fn captured(pattern: Seq<SegmentView>, path: Seq<Seq<char>>, n: int) -> Seq<
    CaptureView,
>
    decreases n,
{
    if n <= 0 {
        Seq::empty()
    } else {
        captured(pattern, path, n - 1) + pattern[n - 1].taken(path[n - 1])
    }
}

/// The length that a request declares for its body: the number in its
/// `content-length` header.
pub open spec fn declared_length(req: RequestView) -> Option<u64> {
    match req.header("content-length"@) {
        Some(value) => unsigned(value),
        None => None,
    }
}

impl GuardView {
    /// Why this guard refuses the request, if it does. A body of undeclared
    /// length is none that the service has a name for.
    pub open spec fn failure(self, req: RequestView) -> Option<Failure> {
        match self {
            GuardView::HeaderIs { name, value } => if req.header(name) == Some(value) {
                None
            } else {
                Some(Failure::Unauthorized)
            },
            GuardView::HeaderGiven { name } => if req.header(name) is Some {
                None
            } else {
                Some(Failure::MalformedParameter)
            },
            GuardView::BodyWithin { limit } => match declared_length(req) {
                Some(n) => if n <= limit {
                    None
                } else {
                    Some(Failure::PayloadTooLarge)
                },
                None => Some(Failure::Internal),
            },
            GuardView::Json => match req.header("content-type"@) {
                Some(value) => if names_json(value) {
                    None
                } else {
                    Some(Failure::MalformedBody)
                },
                None => None,
            },
            GuardView::Options => match decoded(req.query_text()) {
                Ok(_) => None,
                Err(failure) => Some(failure),
            },
        }
    }
}

/// The failure of the first guard that refuses the request.
pub open spec fn first_failure(guards: Seq<GuardView>, req: RequestView) -> Option<Failure>
    decreases guards.len(),
{
    if guards.len() == 0 {
        None
    } else {
        match guards[0].failure(req) {
            Some(failure) => Some(failure),
            None => first_failure(guards.drop_first(), req),
        }
    }
}

/// The list options of the request, where one of the guards asks for them.
pub open spec fn options(guards: Seq<GuardView>, req: RequestView) -> Option<ListOptions> {
    if guards.contains(GuardView::Options) {
        match decoded(req.query_text()) {
            Ok(found) => Some(found),
            Err(_) => None,
        }
    } else {
        None
    }
}

impl RouteView {
    /// What this route makes of a request: the path decides first, then the
    /// method, then the guards in their order.
    pub open spec fn attempt(self, req: RequestView) -> Attempt {
        let path = segments(req.path);
        if !shape_fits(self.pattern, self.exact, path) {
            Attempt::Refused(Failure::RouteNotFound)
        } else if self.method != req.method {
            Attempt::Refused(Failure::MethodNotAllowed)
        } else {
            match first_failure(self.guards, req) {
                Some(failure) => Attempt::Refused(failure),
                None => Attempt::Accepted(
                    CallView {
                        endpoint: self.endpoint,
                        captures: captured(self.pattern, path, self.pattern.len() as int),
                        options: options(self.guards, req),
                    },
                ),
            }
        }
    }
}

/// What each of the routes makes of a request.
pub open spec fn attempts(routes: Seq<RouteView>, req: RequestView) -> Seq<Attempt> {
    routes.map_values(|r: RouteView| r.attempt(req))
}

/// How routing ends when the attempts from place `from` on are still to be
/// looked at and `carried` is the failure to report so far: with the first
/// acceptance, or else with the most specific failure.
pub open spec fn settle(attempts: Seq<Attempt>, from: int, carried: Failure) -> OutcomeView
    decreases attempts.len() - from,
{
    if from < 0 || from >= attempts.len() {
        OutcomeView::Rejected(carried)
    } else {
        match attempts[from] {
            Attempt::Accepted(call) => OutcomeView::Matched { index: from, call, carried },
            Attempt::Refused(failure) => settle(attempts, from + 1, carried.preferred(failure)),
        }
    }
}

/// How the routing of a request ends when the routes from place `from` on
/// are still to be tried and `carried` is the failure to report so far.
pub open spec fn outcome(
    routes: Seq<RouteView>,
    req: RequestView,
    from: int,
    carried: Failure,
) -> OutcomeView {
    settle(attempts(routes, req), from, carried)
}

impl Route {
    /// Holds the path against the pattern, and takes the captures out of it.
    fn fit(&self, path: &Vec<String>) -> (r: Option<Vec<Capture>>)
        ensures
            r is Some <==> shape_fits(self@.pattern, self@.exact, strings(path@)),
            r matches Some(captures) ==> captures@.map_values(|c: Capture| c@) == captured(
                self@.pattern,
                strings(path@),
                self@.pattern.len() as int,
            ),
    {
        let n = self.pattern.len();
        if n > path.len() || (self.exact && n != path.len()) {
            return None;
        }
        let ghost pattern = self@.pattern;
        let ghost texts = strings(path@);
        let mut captures: Vec<Capture> = Vec::new();
        let mut i: usize = 0;
        while i < n
            invariant
                i <= n <= path.len(),
                n == self.pattern.len(),
                pattern == self@.pattern,
                texts == strings(path@),
                fits_up_to(pattern, texts, i as int),
                captures@.map_values(|c: Capture| c@) == captured(pattern, texts, i as int),
            decreases n - i,
        {
            let text = &path[i];
            assert(texts[i as int] == text@);
            assert(pattern[i as int] == self.pattern@[i as int]@);
            let ghost before = captures@;
            match &self.pattern[i] {
                Segment::Exact(literal) => {
                    if text.as_str().is_empty() || *text != *literal {
                        assert(!pattern[i as int].fits(texts[i as int]));
                        return None;
                    }
                },
                Segment::Text => {
                    if text.as_str().is_empty() {
                        assert(!pattern[i as int].fits(texts[i as int]));
                        return None;
                    }
                    captures.push(Capture::Text(text.clone()));
                },
                Segment::Number => {
                    match extract_number(text.as_str()) {
                        Ok(number) => {
                            captures.push(Capture::Number(number));
                        },
                        Err(_) => {
                            assert(!pattern[i as int].fits(texts[i as int]));
                            return None;
                        },
                    }
                },
                Segment::Seconds => {
                    match Seconds::extract(text.as_str()) {
                        Ok(seconds) => {
                            captures.push(Capture::Seconds(seconds));
                        },
                        Err(_) => {
                            assert(!pattern[i as int].fits(texts[i as int]));
                            return None;
                        },
                    }
                },
            }
            assert(captures@.map_values(|c: Capture| c@) =~= before.map_values(|c: Capture| c@)
                + pattern[i as int].taken(texts[i as int]));
            i += 1;
        }
        Some(captures)
    }

    /// Holds the request against the guards, in their order, and takes the
    /// list options out of it where a guard asks for them.
    fn check(&self, req: &Request) -> (r: Result<Option<ListOptions>, Failure>)
        ensures
            r == match first_failure(self@.guards, req@) {
                Some(failure) => Err::<Option<ListOptions>, Failure>(failure),
                None => Ok(options(self@.guards, req@)),
            },
    {
        let ghost guards = self@.guards;
        let mut found: Option<ListOptions> = None;
        let mut i: usize = 0;
        assert(guards.skip(0) =~= guards);
        assert(guards.take(0) =~= Seq::<GuardView>::empty());
        while i < self.guards.len()
            invariant
                i <= self.guards.len(),
                guards == self@.guards,
                first_failure(guards, req@) == first_failure(guards.skip(i as int), req@),
                found == options(guards.take(i as int), req@),
            decreases self.guards.len() - i,
        {
            proof {
                assert(guards[i as int] == self.guards@[i as int]@);
                assert(guards.skip(i as int)[0] == guards[i as int]);
                assert(guards.skip(i as int).drop_first() =~= guards.skip(i + 1));
                assert(guards.take(i + 1) =~= guards.take(i as int).push(guards[i as int]));
                lemma_options_step(guards.take(i as int), guards[i as int], req@);
            }
            match &self.guards[i] {
                Guard::HeaderIs { name, value } => {
                    match req.header(name.as_str()) {
                        Some(given) => {
                            if *given != *value {
                                return Err(Failure::Unauthorized);
                            }
                        },
                        None => {
                            return Err(Failure::Unauthorized);
                        },
                    }
                },
                Guard::HeaderGiven { name } => {
                    if req.header(name.as_str()).is_none() {
                        return Err(Failure::MalformedParameter);
                    }
                },
                Guard::BodyWithin { limit } => {
                    let declared = match req.header("content-length") {
                        Some(value) => parse_u64(value.as_str()),
                        None => None,
                    };
                    match declared {
                        Some(n) => {
                            if n > *limit {
                                return Err(Failure::PayloadTooLarge);
                            }
                        },
                        None => {
                            return Err(Failure::Internal);
                        },
                    }
                },
                Guard::Json => {
                    match req.header("content-type") {
                        Some(value) => {
                            if !is_json(value.as_str()) {
                                return Err(Failure::MalformedBody);
                            }
                        },
                        None => {},
                    }
                },
                Guard::Options => {
                    let decoded = match &req.query {
                        Some(query) => ListOptions::decode(query.as_str()),
                        None => ListOptions::decode(""),
                    };
                    proof {
                        reveal_strlit("");
                        assert(""@ =~= Seq::<char>::empty());
                    }
                    match decoded {
                        Ok(options) => {
                            found = Some(options);
                        },
                        Err(failure) => {
                            return Err(failure);
                        },
                    }
                },
            }
            i += 1;
        }
        assert(guards.take(i as int) =~= guards);
        Ok(found)
    }

    /// What this route makes of a request whose path has the given segments.
    fn attempt(&self, req: &Request, path: &Vec<String>) -> (r: Result<Call, Failure>)
        requires
            strings(path@) == segments(req@.path),
        ensures
            self@.attempt(req@) == match r {
                Ok(call) => Attempt::Accepted(call@),
                Err(failure) => Attempt::Refused(failure),
            },
    {
        let captures = match self.fit(path) {
            Some(captures) => captures,
            None => {
                return Err(Failure::RouteNotFound);
            },
        };
        if self.method != req.method {
            return Err(Failure::MethodNotAllowed);
        }
        match self.check(req) {
            Ok(options) => Ok(Call { endpoint: self.endpoint, captures, options }),
            Err(failure) => Err(failure),
        }
    }
}

/// Adding a guard to the end of a list adds the list options of the request
/// where the guard asks for them and the query string holds them.
pub proof fn lemma_options_step(guards: Seq<GuardView>, guard: GuardView, req: RequestView)
    ensures
        options(guards.push(guard), req) == if guard == GuardView::Options {
            match decoded(req.query_text()) {
                Ok(found) => Some(found),
                Err(_) => None::<ListOptions>,
            }
        } else {
            options(guards, req)
        },
{
    let longer = guards.push(guard);
    assert(longer[guards.len() as int] == guard);
    if guards.contains(GuardView::Options) {
        let k = choose|k: int| 0 <= k < guards.len() && guards[k] == GuardView::Options;
        assert(longer[k] == GuardView::Options);
    }
    if longer.contains(GuardView::Options) && guard != GuardView::Options {
        let k = choose|k: int| 0 <= k < longer.len() && longer[k] == GuardView::Options;
        assert(guards[k] == GuardView::Options);
    }
}

/// Goes on with the routing of a request at the route in place `from`, with
/// `carried` as the failure to report so far. This is how routing is taken
/// up again after the caller has found that the request does not meet what
/// an endpoint asks beyond the route's own guards, a body of the right type
/// above all: with the place after the route that had accepted, and what
/// `carried` of that outcome prefers to the failure found.
pub fn resume(routes: &Vec<Route>, req: &Request, from: usize, carried: Failure) -> (out: Outcome)
    ensures
        out@ == outcome(route_views(routes@), req@, from as int, carried),
{
    let path = req.segments();
    let ghost views = route_views(routes@);
    let ghost tried = attempts(views, req@);
    let mut best = carried;
    let mut i: usize = from;
    while i < routes.len()
        invariant
            views == route_views(routes@),
            tried == attempts(views, req@),
            strings(path@) == segments(req@.path),
            settle(tried, from as int, carried) == settle(tried, i as int, best),
        decreases routes.len() - i,
    {
        assert(tried[i as int] == routes@[i as int]@.attempt(req@));
        match routes[i].attempt(req, &path) {
            Ok(call) => {
                return Outcome::Matched { index: i, call, carried: best };
            },
            Err(failure) => {
                best = best.prefer(failure);
            },
        }
        i += 1;
    }
    Outcome::Rejected(best)
}

/// Routes a request: the first route that accepts it, or the failure to
/// report where none does.
pub fn dispatch(routes: &Vec<Route>, req: &Request) -> (out: Outcome)
    ensures
        out@ == outcome(route_views(routes@), req@, 0, Failure::RouteNotFound),
{
    resume(routes, req, 0, Failure::RouteNotFound)
}

/// The failure that each attempt raises. An acceptance raises none, and
/// stands here as the least specific failure, which changes no choice.
pub open spec fn refusals(attempts: Seq<Attempt>) -> Seq<Failure> {
    attempts.map_values(
        |a: Attempt|
            match a {
                Attempt::Refused(failure) => failure,
                Attempt::Accepted(_) => Failure::RouteNotFound,
            },
    )
}

/// Whether the route and the request agree in the shape of the path.
pub open spec fn path_agrees(route: RouteView, req: RequestView) -> bool {
    shape_fits(route.pattern, route.exact, segments(req.path))
}

/// Whether the route and the request agree in path and method.
pub open spec fn addressed(route: RouteView, req: RequestView) -> bool {
    path_agrees(route, req) && route.method == req.method
}

/// Routing passes over attempts that refuse, and keeps the failure to
/// report as it goes.
pub proof fn lemma_walk(attempts: Seq<Attempt>, from: int, end: int)
    requires
        0 <= from <= end <= attempts.len(),
        forall|j: int| from <= j < end ==> attempts[j] is Refused,
    ensures
        settle(attempts, from, Failure::chosen(refusals(attempts.take(from)))) == settle(
            attempts,
            end,
            Failure::chosen(refusals(attempts.take(end))),
        ),
    decreases end - from,
{
    if from < end {
        let seen = refusals(attempts.take(from));
        let next = refusals(attempts.take(from + 1));
        assert(next.drop_last() =~= seen);
        assert(next.last() == attempts[from]->Refused_0);
        lemma_walk(attempts, from + 1, end);
    }
}

/// Routing from some place on does not depend on the attempts before it.
pub proof fn lemma_settle_tail(a: Seq<Attempt>, b: Seq<Attempt>, from: int, carried: Failure)
    requires
        a.len() == b.len(),
        0 <= from,
        forall|j: int| from <= j < a.len() ==> a[j] == b[j],
    ensures
        settle(a, from, carried) == settle(b, from, carried),
    decreases a.len() - from,
{
    if from < a.len() {
        match a[from] {
            Attempt::Accepted(_) => {},
            Attempt::Refused(failure) => {
                lemma_settle_tail(a, b, from + 1, carried.preferred(failure));
            },
        }
    }
}

/// A guard refuses a request for a reason of its own, which is more
/// specific than a path or a method that does not fit.
pub proof fn lemma_guard_rank(guards: Seq<GuardView>, req: RequestView)
    ensures
        first_failure(guards, req) matches Some(failure) ==> failure.rank() == 2,
    decreases guards.len(),
{
    if guards.len() > 0 {
        lemma_guard_rank(guards.drop_first(), req);
    }
}

/// The order in which a route decides: a path that does not fit refuses the
/// request as not found, whatever the method; where the path fits, another
/// method refuses it as not allowed; and where both fit, the route accepts
/// the request or refuses it with the failure of its first guard that does.
pub proof fn law_route_order(route: RouteView, req: RequestView)
    ensures
        !path_agrees(route, req) ==> route.attempt(req) == Attempt::Refused(
            Failure::RouteNotFound,
        ),
        path_agrees(route, req) && route.method != req.method ==> route.attempt(req)
            == Attempt::Refused(Failure::MethodNotAllowed),
        addressed(route, req) ==> match first_failure(route.guards, req) {
            Some(failure) => route.attempt(req) == Attempt::Refused(failure) && failure.rank()
                == 2,
            None => route.attempt(req) is Accepted,
        },
{
    lemma_guard_rank(route.guards, req);
}

/// The first route that accepts a request wins: routing ends there, with
/// that route's call and with the failure chosen among the routes before it,
/// whatever the routes after it would make of the request.
pub proof fn law_first_acceptance_wins(routes: Seq<RouteView>, req: RequestView, i: int)
    requires
        0 <= i < routes.len(),
        routes[i].attempt(req) is Accepted,
        forall|j: int| 0 <= j < i ==> (#[trigger] routes[j]).attempt(req) is Refused,
    ensures
        outcome(routes, req, 0, Failure::RouteNotFound) == (OutcomeView::Matched {
            index: i,
            call: routes[i].attempt(req)->Accepted_0,
            carried: Failure::chosen(refusals(attempts(routes, req).take(i))),
        }),
{
    let tried = attempts(routes, req);
    assert forall|j: int| 0 <= j < i implies tried[j] is Refused by {
        assert(routes[j].attempt(req) is Refused);
    }
    assert(refusals(tried.take(0)) =~= Seq::<Failure>::empty());
    lemma_walk(tried, 0, i);
}

/// Where every route refuses a request, the failure reported is the one
/// chosen among the failures of all of them.
pub proof fn law_all_refused(routes: Seq<RouteView>, req: RequestView)
    requires
        forall|j: int| 0 <= j < routes.len() ==> (#[trigger] routes[j]).attempt(req) is Refused,
    ensures
        outcome(routes, req, 0, Failure::RouteNotFound) == OutcomeView::Rejected(
            Failure::chosen(refusals(attempts(routes, req))),
        ),
{
    let tried = attempts(routes, req);
    assert forall|j: int| 0 <= j < tried.len() implies tried[j] is Refused by {
        assert(routes[j].attempt(req) is Refused);
    }
    assert(refusals(tried.take(0)) =~= Seq::<Failure>::empty());
    assert(tried.take(tried.len() as int) =~= tried);
    lemma_walk(tried, 0, tried.len() as int);
}

/// Where the path of a request has the shape of no route, the request is
/// reported as not found.
pub proof fn law_route_not_found(routes: Seq<RouteView>, req: RequestView)
    requires
        forall|j: int| 0 <= j < routes.len() ==> !path_agrees(#[trigger] routes[j], req),
    ensures
        outcome(routes, req, 0, Failure::RouteNotFound) == OutcomeView::Rejected(
            Failure::RouteNotFound,
        ),
{
    let signals = refusals(attempts(routes, req));
    assert forall|j: int| 0 <= j < routes.len() implies (#[trigger] routes[j]).attempt(req)
        is Refused by {
        assert(!path_agrees(routes[j], req));
    }
    law_all_refused(routes, req);
    crate::failure::law_chosen(signals);
    if signals.len() > 0 {
        let k = choose|k: int|
            crate::failure::leads(signals, k) && Failure::chosen(signals) == signals[k];
        assert(!path_agrees(routes[k], req));
    }
}

/// Where the path of a request has the shape of some route, but no route
/// with that shape takes its method, the method is reported as not allowed,
/// not the route as not found.
pub proof fn law_method_not_allowed(routes: Seq<RouteView>, req: RequestView, i: int)
    requires
        0 <= i < routes.len(),
        path_agrees(routes[i], req),
        forall|j: int| 0 <= j < routes.len() ==> !addressed(#[trigger] routes[j], req),
    ensures
        outcome(routes, req, 0, Failure::RouteNotFound) == OutcomeView::Rejected(
            Failure::MethodNotAllowed,
        ),
{
    let signals = refusals(attempts(routes, req));
    assert forall|j: int| 0 <= j < routes.len() implies (#[trigger] routes[j]).attempt(req)
        is Refused by {
        assert(!addressed(routes[j], req));
    }
    law_all_refused(routes, req);
    crate::failure::law_chosen(signals);
    let k = choose|k: int|
        crate::failure::leads(signals, k) && Failure::chosen(signals) == signals[k];
    assert(!addressed(routes[k], req));
    assert(!addressed(routes[i], req));
    assert(signals[i] == Failure::MethodNotAllowed);
    assert(signals[i].rank() <= signals[k].rank());
}

/// Where some route agrees with a request in path and method and no route
/// accepts it, the failure reported is the one for which the first such
/// route refused it: the failure of a guard is never hidden behind a path
/// or a method that did not fit elsewhere.
pub proof fn law_guard_failure(routes: Seq<RouteView>, req: RequestView, i: int)
    requires
        forall|j: int| 0 <= j < routes.len() ==> (#[trigger] routes[j]).attempt(req) is Refused,
        0 <= i < routes.len(),
        addressed(routes[i], req),
        forall|j: int| 0 <= j < i ==> !addressed(#[trigger] routes[j], req),
    ensures
        first_failure(routes[i].guards, req) is Some,
        outcome(routes, req, 0, Failure::RouteNotFound) == OutcomeView::Rejected(
            first_failure(routes[i].guards, req)->Some_0,
        ),
{
    let signals = refusals(attempts(routes, req));
    law_all_refused(routes, req);
    crate::failure::law_chosen(signals);
    let k = choose|k: int|
        crate::failure::leads(signals, k) && Failure::chosen(signals) == signals[k];
    law_route_order(routes[i], req);
    law_route_order(routes[k], req);
    assert(routes[i].attempt(req) is Refused);
    assert(signals[i].rank() == 2);
    assert(signals[i].rank() <= signals[k].rank());
    if k < i {
        assert(!addressed(routes[k], req));
    }
    if i < k {
        assert(signals[i].rank() < signals[k].rank());
    }
}

/// Taking routing up again after the route that had accepted, with what its
/// outcome carried and the failure since found, ends as routing would have
/// ended had that route refused the request with that failure itself.
pub proof fn law_resume(attempts: Seq<Attempt>, i: int, failure: Failure)
    requires
        0 <= i < attempts.len(),
        attempts[i] is Accepted,
        forall|j: int| 0 <= j < i ==> attempts[j] is Refused,
    ensures
        settle(attempts, 0, Failure::RouteNotFound) matches OutcomeView::Matched {
            index,
            carried,
            ..
        } && index == i && settle(attempts, i + 1, carried.preferred(failure)) == settle(
            attempts.update(i, Attempt::Refused(failure)),
            0,
            Failure::RouteNotFound,
        ),
{
    let changed = attempts.update(i, Attempt::Refused(failure));
    assert(refusals(attempts.take(0)) =~= Seq::<Failure>::empty());
    assert(refusals(changed.take(0)) =~= Seq::<Failure>::empty());
    lemma_walk(attempts, 0, i);
    lemma_walk(changed, 0, i + 1);
    assert(changed.take(i + 1).drop_last() =~= attempts.take(i));
    assert(refusals(changed.take(i + 1)).drop_last() =~= refusals(attempts.take(i)));
    assert(refusals(changed.take(i + 1)).last() == failure);
    let carried = Failure::chosen(refusals(attempts.take(i)));
    lemma_settle_tail(attempts, changed, i + 1, carried.preferred(failure));
}

} // verus!
