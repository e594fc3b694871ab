use todo_api::failure::{Failure, BAD_REQUEST, CREATED, NOT_FOUND, NO_CONTENT, OK};
use todo_api::filters;
use todo_api::handlers;
use todo_api::models::{self, ListOptions, Seconds, Todo, DB};
use todo_api::request::{Method, Request};
use todo_api::routing::{dispatch, resume, Capture, Endpoint, Outcome, Route};

/// What the service answers to a request: the status, and the todos listed
/// where the request asked for a list. `body` is the todo that the body of
/// the request decodes to, if it decodes to one.
fn reply(routes: &Vec<Route>, req: &Request, body: Option<Todo>, db: &mut DB) -> (u16, Vec<Todo>) {
    let mut outcome = dispatch(routes, req);
    loop {
        match outcome {
            Outcome::Rejected(failure) => return (handlers::rejection(failure).code, vec![]),
            Outcome::Matched { index, call, carried } => match call.endpoint {
                Endpoint::ListTodos => {
                    return (OK, handlers::list_todos(call.options.unwrap(), db));
                }
                Endpoint::CreateTodo => match &body {
                    Some(todo) => return (handlers::create_todo(todo.clone(), db), vec![]),
                    None => {
                        let found = carried.prefer(Failure::MalformedBody);
                        outcome = resume(routes, req, index + 1, found);
                    }
                },
                Endpoint::UpdateTodo => match (&call.captures[0], &body) {
                    (Capture::Number(id), Some(todo)) => {
                        return (handlers::update_todo(*id, todo.clone(), db), vec![]);
                    }
                    _ => {
                        let found = carried.prefer(Failure::MalformedBody);
                        outcome = resume(routes, req, index + 1, found);
                    }
                },
                Endpoint::DeleteTodo => match &call.captures[0] {
                    Capture::Number(id) => return (handlers::delete_todo(*id, db), vec![]),
                    other => panic!("no id: {:?}", other),
                },
                _ => return (OK, vec![]),
            },
        }
    }
}

fn request(method: Method, path: &str) -> Request {
    Request { method, path: path.into(), query: None, headers: vec![] }
}

fn with_header(mut req: Request, name: &str, value: &str) -> Request {
    req.headers.push((name.into(), value.into()));
    req
}

fn with_body(method: Method, path: &str) -> Request {
    let req = with_header(request(method, path), "content-length", "48");
    with_header(req, "content-type", "application/json")
}

fn as_admin(req: Request) -> Request {
    with_header(req, "authorization", "Bearer admin")
}

fn todo1() -> Todo {
    Todo { id: 1, text: "test 1".into(), completed: false }
}

fn all_routes() -> Vec<Route> {
    let mut routes = filters::init();
    routes.append(&mut filters::todos());
    routes
}

#[test]
fn test_hi_ok() {
    let api = vec![filters::hi()];
    let mut db = models::blank_db();

    let (status, _) = reply(&api, &request(Method::Get, "/hi"), None, &mut db);

    assert_eq!(status, OK);
}

#[test]
fn test_hi_not_found() {
    let api = vec![filters::hi()];
    let mut db = models::blank_db();

    let (status, _) = reply(&api, &request(Method::Get, "/ho"), None, &mut db);

    assert_eq!(status, NOT_FOUND);
}

#[test]
fn test_post() {
    let mut db = models::blank_db();
    let api = filters::todos();

    let (status, _) = reply(&api, &with_body(Method::Post, "/todos"), Some(todo1()), &mut db);

    assert_eq!(status, CREATED);
}

#[test]
fn test_post_conflict() {
    let mut db = models::blank_db();
    db.create(todo1()).unwrap();
    let api = filters::todos();

    let (status, _) = reply(&api, &with_body(Method::Post, "/todos"), Some(todo1()), &mut db);

    assert_eq!(status, BAD_REQUEST);
}

#[test]
fn todo_life_cycle() {
    let api = all_routes();
    let mut db = models::blank_db();

    let post = with_body(Method::Post, "/todos");
    assert_eq!(reply(&api, &post, Some(todo1()), &mut db).0, 201);
    assert_eq!(reply(&api, &post, Some(todo1()), &mut db).0, 400);

    let changed = Todo { id: 1, text: "x".into(), completed: true };
    let put = with_body(Method::Put, "/todos/1");
    assert_eq!(reply(&api, &put, Some(changed.clone()), &mut db).0, 200);
    let (status, listed) = reply(&api, &request(Method::Get, "/todos"), None, &mut db);
    assert_eq!(status, 200);
    assert_eq!(listed, vec![changed.clone()]);

    let delete = request(Method::Delete, "/todos/1");
    let (status, _) = reply(&api, &delete, None, &mut db);
    assert_eq!(status, 401);
    assert_eq!(db.list(0, usize::MAX), vec![changed]);

    let delete = as_admin(delete);
    assert_eq!(reply(&api, &delete, None, &mut db).0, NO_CONTENT);
    let (_, listed) = reply(&api, &request(Method::Get, "/todos"), None, &mut db);
    assert!(listed.iter().all(|todo| todo.id != 1));
    assert_eq!(reply(&api, &delete, None, &mut db).0, 404);
}

#[test]
fn sleep_takes_seconds_in_range_only() {
    let api = all_routes();

    for path in ["/sleep/6", "/sleep/abc", "/sleep/-1", "/sleep/", "/sleep"] {
        let outcome = dispatch(&api, &request(Method::Get, path));
        assert_eq!(outcome, Outcome::Rejected(Failure::RouteNotFound), "{}", path);
    }
    for (path, seconds) in [("/sleep/0", 0), ("/sleep/2", 2), ("/sleep/5", 5), ("/sleep/+3", 3)] {
        match dispatch(&api, &request(Method::Get, path)) {
            Outcome::Matched { index: 3, call, carried: Failure::RouteNotFound } => {
                assert_eq!(call.endpoint, Endpoint::Sleep);
                assert_eq!(call.captures, vec![Capture::Seconds(Seconds(seconds))]);
                assert_eq!(call.options, None);
            }
            other => panic!("{}: {:?}", path, other),
        }
    }
}

#[test]
fn path_decides_before_method() {
    let api = all_routes();

    let outcome = dispatch(&api, &request(Method::Post, "/nowhere"));
    assert_eq!(outcome, Outcome::Rejected(Failure::RouteNotFound));
    let outcome = dispatch(&api, &request(Method::Delete, "/hi"));
    assert_eq!(outcome, Outcome::Rejected(Failure::MethodNotAllowed));
    let outcome = dispatch(&api, &request(Method::Other, "/todos"));
    assert_eq!(outcome, Outcome::Rejected(Failure::MethodNotAllowed));
    let outcome = dispatch(&api, &request(Method::Post, "/"));
    assert_eq!(outcome, Outcome::Rejected(Failure::MethodNotAllowed));
}

#[test]
fn bad_id_is_not_masked_as_unauthorized() {
    let api = all_routes();
    let mut db = models::blank_db();

    let put = with_body(Method::Put, "/todos/invalid-string");
    assert_eq!(dispatch(&api, &put), Outcome::Rejected(Failure::RouteNotFound));
    assert_eq!(reply(&api, &put, Some(todo1()), &mut db).0, 404);
    let delete = request(Method::Delete, "/todos/invalid-string");
    assert_eq!(dispatch(&api, &delete), Outcome::Rejected(Failure::RouteNotFound));
    let too_long = request(Method::Delete, "/todos/18446744073709551616");
    assert_eq!(dispatch(&api, &too_long), Outcome::Rejected(Failure::RouteNotFound));
}

#[test]
fn guards_speak_after_path_and_method() {
    let api = all_routes();

    let delete = request(Method::Delete, "/todos/7");
    assert_eq!(dispatch(&api, &delete), Outcome::Rejected(Failure::Unauthorized));
    let mut wrong = request(Method::Delete, "/todos/7");
    wrong.headers.push(("authorization".into(), "Bearer Admin".into()));
    assert_eq!(dispatch(&api, &wrong), Outcome::Rejected(Failure::Unauthorized));
    let mut second = request(Method::Delete, "/todos/7");
    second.headers.push(("authorization".into(), "Basic xyz".into()));
    second.headers.push(("authorization".into(), "Bearer admin".into()));
    assert_eq!(dispatch(&api, &second), Outcome::Rejected(Failure::Unauthorized));

    match dispatch(&api, &as_admin(request(Method::Delete, "/todos/7"))) {
        Outcome::Matched { index, call, carried } => {
            assert_eq!(index, 8);
            assert_eq!(call.endpoint, Endpoint::DeleteTodo);
            assert_eq!(call.captures, vec![Capture::Number(7)]);
            assert_eq!(carried, Failure::MethodNotAllowed);
        }
        other => panic!("{:?}", other),
    }
}

#[test]
fn body_is_capped() {
    let api = all_routes();
    let post =
        |length: &str| with_header(request(Method::Post, "/todos"), "content-length", length);

    assert!(matches!(dispatch(&api, &post("0")), Outcome::Matched { index: 6, .. }));
    assert!(matches!(dispatch(&api, &post("16384")), Outcome::Matched { index: 6, .. }));
    assert_eq!(dispatch(&api, &post("16385")), Outcome::Rejected(Failure::PayloadTooLarge));
    assert_eq!(
        dispatch(&api, &post("18446744073709551615")),
        Outcome::Rejected(Failure::PayloadTooLarge)
    );
    assert_eq!(handlers::rejection(Failure::PayloadTooLarge).code, 400);
    assert_eq!(dispatch(&api, &post("many")), Outcome::Rejected(Failure::Internal));
    assert_eq!(dispatch(&api, &post("")), Outcome::Rejected(Failure::Internal));
    let unsaid = request(Method::Post, "/todos");
    assert_eq!(dispatch(&api, &unsaid), Outcome::Rejected(Failure::Internal));
    assert_eq!(handlers::rejection(Failure::Internal).code, 500);

    let register = with_header(request(Method::Post, "/register"), "content-length", "20000");
    assert_eq!(dispatch(&api, &register), Outcome::Rejected(Failure::PayloadTooLarge));
    let put = with_header(request(Method::Put, "/todos/3"), "content-length", "16385");
    assert_eq!(dispatch(&api, &put), Outcome::Rejected(Failure::PayloadTooLarge));
}

#[test]
fn body_has_to_be_json() {
    let api = all_routes();
    let post = |media: &str| {
        let req = with_header(request(Method::Post, "/todos"), "content-length", "2");
        with_header(req, "content-type", media)
    };

    let unsaid = with_header(request(Method::Post, "/todos"), "content-length", "2");
    assert!(matches!(dispatch(&api, &unsaid), Outcome::Matched { index: 6, .. }));
    for media in [
        "application/json",
        "Application/JSON",
        "application/json; charset=utf-8",
        "application/json;charset=utf-8",
        " application/json\t ; charset=utf-8",
    ] {
        let outcome = dispatch(&api, &post(media));
        assert!(matches!(outcome, Outcome::Matched { index: 6, .. }), "{}", media);
    }
    for media in [
        "",
        "text/plain",
        "application/jsonp",
        "application/json+x",
        "application /json",
        "application/x-www-form-urlencoded",
        "text/plain; application/json",
        ";application/json",
        "application/jso",
    ] {
        let outcome = dispatch(&api, &post(media));
        assert_eq!(outcome, Outcome::Rejected(Failure::MalformedBody), "{}", media);
    }
    let large = with_header(post("text/plain"), "content-length", "1");
    assert_eq!(dispatch(&api, &large), Outcome::Rejected(Failure::MalformedBody));
    let mut both = post("text/plain");
    both.headers[0].1 = "99999".into();
    assert_eq!(dispatch(&api, &both), Outcome::Rejected(Failure::PayloadTooLarge));
}

#[test]
fn malformed_body_is_reported_after_routing_resumes() {
    let api = all_routes();
    let mut db = models::blank_db();

    let post = with_body(Method::Post, "/todos");
    assert_eq!(reply(&api, &post, None, &mut db).0, 400);
    let put = with_body(Method::Put, "/todos/1");
    assert_eq!(reply(&api, &put, None, &mut db).0, 400);
    assert_eq!(db.len(), 0);

    match dispatch(&api, &post) {
        Outcome::Matched { index, carried, .. } => {
            let found = carried.prefer(Failure::MalformedBody);
            let outcome = resume(&api, &post, index + 1, found);
            assert_eq!(outcome, Outcome::Rejected(Failure::MalformedBody));
        }
        other => panic!("{:?}", other),
    }
}

#[test]
fn resume_past_the_end_reports_what_it_carried() {
    let api = all_routes();
    let req = request(Method::Get, "/hi");

    let outcome = resume(&api, &req, 9, Failure::Internal);
    assert_eq!(outcome, Outcome::Rejected(Failure::Internal));
    let outcome = resume(&api, &req, usize::MAX, Failure::Conflict);
    assert_eq!(outcome, Outcome::Rejected(Failure::Conflict));
    let outcome = resume(&api, &req, 2, Failure::Internal);
    assert!(matches!(outcome, Outcome::Matched { index: 2, carried: Failure::Internal, .. }));
}

#[test]
fn list_takes_its_options_from_the_query() {
    let api = all_routes();
    let mut db = models::blank_db();
    for id in 0..10 {
        db.create(Todo { id, text: format!("todo {}", id), completed: id % 2 == 0 }).unwrap();
    }

    let mut get = request(Method::Get, "/todos");
    get.query = Some("offset=3&limit=5".into());
    match dispatch(&api, &get) {
        Outcome::Matched { index: 5, call, .. } => {
            assert_eq!(call.endpoint, Endpoint::ListTodos);
            assert_eq!(call.options, Some(ListOptions { offset: Some(3), limit: Some(5) }));
        }
        other => panic!("{:?}", other),
    }
    let (status, listed) = reply(&api, &get, None, &mut db);
    assert_eq!(status, 200);
    assert_eq!(listed.iter().map(|todo| todo.id).collect::<Vec<u64>>(), vec![3, 4, 5, 6, 7]);

    get.query = Some("offset=three".into());
    assert_eq!(dispatch(&api, &get), Outcome::Rejected(Failure::MalformedQuery));
    assert_eq!(reply(&api, &get, None, &mut db).0, 400);

    get.query = None;
    let (_, listed) = reply(&api, &get, None, &mut db);
    assert_eq!(listed.len(), 10);
    get.query = Some(String::new());
    let (_, listed) = reply(&api, &get, None, &mut db);
    assert_eq!(listed.len(), 10);
}

#[test]
fn hello_wants_its_headers() {
    let api = all_routes();

    let mut get = request(Method::Get, "/hello/m1");
    assert_eq!(dispatch(&api, &get), Outcome::Rejected(Failure::MalformedParameter));
    get.headers.push(("host".into(), "127.0.0.1:3030".into()));
    assert_eq!(dispatch(&api, &get), Outcome::Rejected(Failure::MalformedParameter));
    get.headers.push(("user-agent".into(), "curl/8".into()));
    match dispatch(&api, &get) {
        Outcome::Matched { index: 1, call, .. } => {
            assert_eq!(call.endpoint, Endpoint::Hello);
            assert_eq!(call.captures, vec![Capture::Text("m1".into())]);
        }
        other => panic!("{:?}", other),
    }
    assert_eq!(
        dispatch(&api, &request(Method::Get, "/hello")),
        Outcome::Rejected(Failure::RouteNotFound)
    );
    assert_eq!(
        dispatch(&api, &request(Method::Post, "/hello/m1")),
        Outcome::Rejected(Failure::MethodNotAllowed)
    );
}

#[test]
fn open_routes_take_longer_paths_and_exact_ones_do_not() {
    let api = all_routes();

    for path in ["/hi", "/hi/", "/hi/there", "hi", "/hi//"] {
        let outcome = dispatch(&api, &request(Method::Get, path));
        assert!(matches!(outcome, Outcome::Matched { index: 2, .. }), "{}", path);
    }
    for path in ["/", ""] {
        let outcome = dispatch(&api, &request(Method::Get, path));
        assert!(matches!(outcome, Outcome::Matched { index: 0, .. }), "{:?}", path);
    }
    for path in ["/todos", "/todos/"] {
        let outcome = dispatch(&api, &request(Method::Get, path));
        assert!(matches!(outcome, Outcome::Matched { index: 5, .. }), "{}", path);
    }
    for path in ["/todos//", "//todos", "/todos/1/2", "/todo", "/Todos", "/todos/1"] {
        let outcome = dispatch(&api, &with_body(Method::Get, path));
        assert!(matches!(outcome, Outcome::Rejected(_)), "{}", path);
    }
}

#[test]
fn first_full_match_wins() {
    let first = Route { endpoint: Endpoint::Readme, ..filters::hi() };
    let api = vec![filters::todos_list(), first, filters::hi()];

    match dispatch(&api, &request(Method::Get, "/hi")) {
        Outcome::Matched { index, call, carried } => {
            assert_eq!(index, 1);
            assert_eq!(call.endpoint, Endpoint::Readme);
            assert_eq!(carried, Failure::RouteNotFound);
        }
        other => panic!("{:?}", other),
    }
}

#[test]
fn earlier_of_two_guard_failures_is_reported() {
    let api = vec![filters::todos_delete(), filters::todos_update()];
    let mut delete = request(Method::Delete, "/todos/1");
    assert_eq!(dispatch(&api, &delete), Outcome::Rejected(Failure::Unauthorized));

    let both = vec![
        filters::todos_delete(),
        Route { method: Method::Delete, ..filters::todos_update() },
    ];
    assert_eq!(dispatch(&both, &delete), Outcome::Rejected(Failure::Unauthorized));
    delete.headers.push(("authorization".into(), "Bearer admin".into()));
    assert!(matches!(dispatch(&both, &delete), Outcome::Matched { index: 0, .. }));
    let swapped = vec![
        Route { method: Method::Delete, ..filters::todos_update() },
        filters::todos_delete(),
    ];
    let outcome = dispatch(&swapped, &request(Method::Delete, "/todos/1"));
    assert_eq!(outcome, Outcome::Rejected(Failure::Internal));
}
