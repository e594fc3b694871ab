//! The routes of the service.

use crate::request::Method;
use crate::routing::{
    route_views, Endpoint, Guard, GuardView, Route, RouteView, Segment, SegmentView,
};
use vstd::prelude::*;

verus! {

/// The largest body, in bytes, that a route with a body accepts.
pub const BODY_LIMIT: u64 = 16384;

/// What a route asks of a request with a body: a declared length within
/// the limit, and no media type but JSON.
pub open spec fn json_guards() -> Seq<GuardView> {
    seq![GuardView::BodyWithin { limit: BODY_LIMIT }, GuardView::Json]
}

/// `GET /`: the readme.
pub open spec fn readme_route() -> RouteView {
    RouteView {
        method: Method::Get,
        pattern: Seq::empty(),
        exact: true,
        guards: Seq::empty(),
        endpoint: Endpoint::Readme,
    }
}

/// `GET /hello/{name}` and whatever follows, for requests that say which
/// host they are for and which agent sent them.
pub open spec fn hello_route() -> RouteView {
    RouteView {
        method: Method::Get,
        pattern: seq![SegmentView::Exact("hello"@), SegmentView::Text],
        exact: false,
        guards: seq![
            GuardView::HeaderGiven { name: "host"@ },
            GuardView::HeaderGiven { name: "user-agent"@ },
        ],
        endpoint: Endpoint::Hello,
    }
}

/// `GET /hi` and whatever follows.
pub open spec fn hi_route() -> RouteView {
    RouteView {
        method: Method::Get,
        pattern: seq![SegmentView::Exact("hi"@)],
        exact: false,
        guards: Seq::empty(),
        endpoint: Endpoint::Hi,
    }
}

/// `GET /sleep/{seconds}` and whatever follows.
pub open spec fn sleep_route() -> RouteView {
    RouteView {
        method: Method::Get,
        pattern: seq![SegmentView::Exact("sleep"@), SegmentView::Seconds],
        exact: false,
        guards: Seq::empty(),
        endpoint: Endpoint::Sleep,
    }
}

/// `POST /register` and whatever follows, with a body of limited size.
pub open spec fn register_route() -> RouteView {
    RouteView {
        method: Method::Post,
        pattern: seq![SegmentView::Exact("register"@)],
        exact: false,
        guards: json_guards(),
        endpoint: Endpoint::Register,
    }
}

/// `GET /todos`, with list options in the query string.
pub open spec fn todos_list_route() -> RouteView {
    RouteView {
        method: Method::Get,
        pattern: seq![SegmentView::Exact("todos"@)],
        exact: true,
        guards: seq![GuardView::Options],
        endpoint: Endpoint::ListTodos,
    }
}

/// `POST /todos`, with a body of limited size.
pub open spec fn todos_create_route() -> RouteView {
    RouteView {
        method: Method::Post,
        pattern: seq![SegmentView::Exact("todos"@)],
        exact: true,
        guards: json_guards(),
        endpoint: Endpoint::CreateTodo,
    }
}

/// `PUT /todos/{id}`, with a body of limited size.
pub open spec fn todos_update_route() -> RouteView {
    RouteView {
        method: Method::Put,
        pattern: seq![SegmentView::Exact("todos"@), SegmentView::Number],
        exact: true,
        guards: json_guards(),
        endpoint: Endpoint::UpdateTodo,
    }
}

/// `DELETE /todos/{id}`, for the administrator only.
pub open spec fn todos_delete_route() -> RouteView {
    RouteView {
        method: Method::Delete,
        pattern: seq![SegmentView::Exact("todos"@), SegmentView::Number],
        exact: true,
        guards: seq![GuardView::HeaderIs { name: "authorization"@, value: "Bearer admin"@ }],
        endpoint: Endpoint::DeleteTodo,
    }
}

/// The routes that need no store, in the order in which they are tried.
pub fn init() -> (routes: Vec<Route>)
    ensures
        route_views(routes@) == seq![
            readme_route(),
            hello_route(),
            hi_route(),
            sleep_route(),
            register_route(),
        ],
{
    let routes = vec![readme(), hello(), hi(), sleep(), register()];
    assert(route_views(routes@) =~= seq![
        readme_route(),
        hello_route(),
        hi_route(),
        sleep_route(),
        register_route(),
    ]);
    routes
}

/// The route to the readme.
pub fn readme() -> (route: Route)
    ensures
        route@ == readme_route(),
{
    let route = Route {
        method: Method::Get,
        pattern: Vec::new(),
        exact: true,
        guards: Vec::new(),
        endpoint: Endpoint::Readme,
    };
    assert(route@.pattern =~= readme_route().pattern);
    assert(route@.guards =~= readme_route().guards);
    route
}

/// The route to the greeting by name.
pub fn hello() -> (route: Route)
    ensures
        route@ == hello_route(),
{
    let route = Route {
        method: Method::Get,
        pattern: vec![Segment::Exact("hello".to_owned()), Segment::Text],
        exact: false,
        guards: vec![
            Guard::HeaderGiven { name: "host".to_owned() },
            Guard::HeaderGiven { name: "user-agent".to_owned() },
        ],
        endpoint: Endpoint::Hello,
    };
    assert(route@.pattern =~= hello_route().pattern);
    assert(route@.guards =~= hello_route().guards);
    route
}

/// The route to the plain greeting.
pub fn hi() -> (route: Route)
    ensures
        route@ == hi_route(),
{
    let route = Route {
        method: Method::Get,
        pattern: vec![Segment::Exact("hi".to_owned())],
        exact: false,
        guards: Vec::new(),
        endpoint: Endpoint::Hi,
    };
    assert(route@.pattern =~= hi_route().pattern);
    assert(route@.guards =~= hi_route().guards);
    route
}

/// The route to the delayed answer.
pub fn sleep() -> (route: Route)
    ensures
        route@ == sleep_route(),
{
    let route = Route {
        method: Method::Get,
        pattern: vec![Segment::Exact("sleep".to_owned()), Segment::Seconds],
        exact: false,
        guards: Vec::new(),
        endpoint: Endpoint::Sleep,
    };
    assert(route@.pattern =~= sleep_route().pattern);
    assert(route@.guards =~= sleep_route().guards);
    route
}

/// The route to the registration.
pub fn register() -> (route: Route)
    ensures
        route@ == register_route(),
{
    let route = Route {
        method: Method::Post,
        pattern: vec![Segment::Exact("register".to_owned())],
        exact: false,
        guards: json_body(),
        endpoint: Endpoint::Register,
    };
    assert(route@.pattern =~= register_route().pattern);
    assert(route@.guards =~= register_route().guards);
    route
}

/// The four routes to the store, in the order in which they are tried.
pub fn todos() -> (routes: Vec<Route>)
    ensures
        route_views(routes@) == seq![
            todos_list_route(),
            todos_create_route(),
            todos_update_route(),
            todos_delete_route(),
        ],
{
    let routes = vec![todos_list(), todos_create(), todos_update(), todos_delete()];
    assert(route_views(routes@) =~= seq![
        todos_list_route(),
        todos_create_route(),
        todos_update_route(),
        todos_delete_route(),
    ]);
    routes
}

/// The route that lists the store.
pub fn todos_list() -> (route: Route)
    ensures
        route@ == todos_list_route(),
{
    let route = Route {
        method: Method::Get,
        pattern: vec![Segment::Exact("todos".to_owned())],
        exact: true,
        guards: vec![Guard::Options],
        endpoint: Endpoint::ListTodos,
    };
    assert(route@.pattern =~= todos_list_route().pattern);
    assert(route@.guards =~= todos_list_route().guards);
    route
}

/// The route that creates a todo.
pub fn todos_create() -> (route: Route)
    ensures
        route@ == todos_create_route(),
{
    let route = Route {
        method: Method::Post,
        pattern: vec![Segment::Exact("todos".to_owned())],
        exact: true,
        guards: json_body(),
        endpoint: Endpoint::CreateTodo,
    };
    assert(route@.pattern =~= todos_create_route().pattern);
    assert(route@.guards =~= todos_create_route().guards);
    route
}

/// The route that replaces a todo.
pub fn todos_update() -> (route: Route)
    ensures
        route@ == todos_update_route(),
{
    let route = Route {
        method: Method::Put,
        pattern: vec![Segment::Exact("todos".to_owned()), Segment::Number],
        exact: true,
        guards: json_body(),
        endpoint: Endpoint::UpdateTodo,
    };
    assert(route@.pattern =~= todos_update_route().pattern);
    assert(route@.guards =~= todos_update_route().guards);
    route
}

/// The route that deletes a todo. Path and method are looked at before the
/// credentials: a request for another route that lacks them is not turned
/// away here as unauthorized.
pub fn todos_delete() -> (route: Route)
    ensures
        route@ == todos_delete_route(),
{
    let admin_only = Guard::HeaderIs {
        name: "authorization".to_owned(),
        value: "Bearer admin".to_owned(),
    };
    let route = Route {
        method: Method::Delete,
        pattern: vec![Segment::Exact("todos".to_owned()), Segment::Number],
        exact: true,
        guards: vec![admin_only],
        endpoint: Endpoint::DeleteTodo,
    };
    assert(route@.pattern =~= todos_delete_route().pattern);
    assert(route@.guards =~= todos_delete_route().guards);
    route
}

/// The guards of every route that takes a body: it has to be JSON, and
/// huge payloads are refused.
fn json_body() -> (guards: Vec<Guard>)
    ensures
        guards@.map_values(|g: Guard| g@) == json_guards(),
{
    let guards = vec![Guard::BodyWithin { limit: BODY_LIMIT }, Guard::Json];
    assert(guards@.map_values(|g: Guard| g@) =~= json_guards());
    guards
}

} // verus!
