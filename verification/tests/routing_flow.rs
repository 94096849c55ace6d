use salvo_t::depot::Depot;
use salvo_t::filter::{Filter, FilterExt, FnFilter, MethodFilter, Predicate};
use salvo_t::filter::{delete, get, head, options, patch, post, put};
use salvo_t::http::{Method, Request, Response};
use salvo_t::router::{FilterKind, Router};
use salvo_t::routing::{FlowCtrl, Handler, PathState};
use salvo_t::writer::Text;

#[test]
fn test_methods() {
    assert!(get() == MethodFilter(Method::GET));
    assert!(head() == MethodFilter(Method::HEAD));
    assert!(options() == MethodFilter(Method::OPTIONS));
    assert!(post() == MethodFilter(Method::POST));
    assert!(patch() == MethodFilter(Method::PATCH));
    assert!(put() == MethodFilter(Method::PUT));
    assert!(delete() == MethodFilter(Method::DELETE));
}

#[derive(Clone, Copy)]
struct HasPart(&'static str);

impl Predicate for HasPart {
    fn check(&self, _req: &Request, path: &PathState) -> bool {
        path.parts.iter().any(|p| p == self.0)
    }
}

#[test]
fn test_opts() {
    let has_one = HasPart("one");
    let has_two = HasPart("two");

    let one_filter = FnFilter::new(has_one);
    let two_filter = FnFilter::new(has_two);

    let req = Request::new("/".to_owned());

    let mut path_state = PathState::new("http://localhost/one");
    assert!(one_filter.filter(&req, &mut path_state));
    assert!(!two_filter.filter(&req, &mut path_state));
    assert!(one_filter.or_else(has_two).filter(&req, &mut path_state));
    assert!(one_filter.or(two_filter).filter(&req, &mut path_state));
    assert!(!one_filter.and_then(has_two).filter(&req, &mut path_state));
    assert!(!one_filter.and(two_filter).filter(&req, &mut path_state));

    let mut path_state = PathState::new("http://localhost/one/two");
    assert!(one_filter.filter(&req, &mut path_state));
    assert!(two_filter.filter(&req, &mut path_state));
    assert!(one_filter.or_else(has_two).filter(&req, &mut path_state));
    assert!(one_filter.or(two_filter).filter(&req, &mut path_state));
    assert!(one_filter.and_then(has_two).filter(&req, &mut path_state));
    assert!(one_filter.and(two_filter).filter(&req, &mut path_state));

    let mut path_state = PathState::new("http://localhost/two");
    assert!(!one_filter.filter(&req, &mut path_state));
    assert!(two_filter.filter(&req, &mut path_state));
    assert!(one_filter.or_else(has_two).filter(&req, &mut path_state));
    assert!(one_filter.or(two_filter).filter(&req, &mut path_state));
    assert!(!one_filter.and_then(has_two).filter(&req, &mut path_state));
    assert!(!one_filter.and(two_filter).filter(&req, &mut path_state));
}

/// A handler for the tests: writes a marker, and possibly steers the chain.
#[derive(Clone, Copy, PartialEq, Eq, Debug)]
enum TestHandler {
    Mark(&'static str),
    MarkThenSkip(&'static str),
    MarkThenStatus(&'static str, u16),
    Cease,
}

impl Handler for TestHandler {
    type Data = Depot<String>;

    fn handle(
        &self,
        _req: &mut Request,
        _depot: &mut Depot<String>,
        res: &mut Response,
        ctrl: &mut FlowCtrl<Self>,
    ) {
        match self {
            TestHandler::Mark(m) => {
                res.write_body(m);
            }
            TestHandler::MarkThenSkip(m) => {
                res.write_body(m);
                ctrl.skip_rest();
            }
            TestHandler::MarkThenStatus(m, code) => {
                res.write_body(m);
                res.set_status_code(*code);
            }
            TestHandler::Cease => {
                ctrl.cease();
            }
        }
    }
}

fn run_chain(handlers: Vec<TestHandler>, res: &mut Response) -> (bool, FlowCtrl<TestHandler>) {
    let mut req = Request::new("/".to_owned());
    let mut depot: Depot<String> = Depot::new();
    let mut ctrl = FlowCtrl::new(handlers);
    let ran = ctrl.call_next(&mut req, &mut depot, res);
    (ran, ctrl)
}

#[test]
fn test_skip_rest_stops_the_chain() {
    let mut res = Response::new();
    let (ran, ctrl) = run_chain(
        vec![
            TestHandler::Mark("1"),
            TestHandler::MarkThenSkip("2"),
            TestHandler::Mark("3"),
        ],
        &mut res,
    );
    assert!(ran);
    assert_eq!(res.body_text(), "12");
    assert!(!ctrl.has_next());
}

#[test]
fn test_stamped_response_short_circuits() {
    let mut res = Response::new();
    let (ran, mut ctrl) = run_chain(
        vec![
            TestHandler::Mark("1"),
            TestHandler::MarkThenStatus("2", 404),
            TestHandler::Mark("3"),
        ],
        &mut res,
    );
    assert!(ran);
    assert_eq!(res.body_text(), "12");
    assert!(!ctrl.has_next());

    // A later call on an already stamped response runs nothing at all.
    let mut req = Request::new("/".to_owned());
    let mut depot: Depot<String> = Depot::new();
    let ran_again = ctrl.call_next(&mut req, &mut depot, &mut res);
    assert!(!ran_again);
    assert_eq!(res.body_text(), "12");
}

#[test]
fn test_cease_marks_the_controller() {
    let mut res = Response::new();
    let (ran, ctrl) = run_chain(
        vec![TestHandler::Mark("1"), TestHandler::Cease, TestHandler::Mark("3")],
        &mut res,
    );
    assert!(ran);
    assert_eq!(res.body_text(), "1");
    assert!(ctrl.is_ceased());
    assert!(!ctrl.has_next());
}

#[test]
fn test_call_next_on_spent_chain_is_noop() {
    let mut res = Response::new();
    let (ran, mut ctrl) = run_chain(vec![TestHandler::Mark("1")], &mut res);
    assert!(ran);
    let mut req = Request::new("/".to_owned());
    let mut depot: Depot<String> = Depot::new();
    assert!(!ctrl.call_next(&mut req, &mut depot, &mut res));
    assert_eq!(res.body_text(), "1");
}

fn detect<'a>(
    router: &Router<TestHandler>,
    path: &str,
) -> (Option<(Vec<TestHandler>, TestHandler)>, PathState) {
    let req = Request::new(path.to_owned());
    let mut state = PathState::new(path);
    let matched = router.detect(&req, &mut state);
    (matched.map(|dm| (dm.hoops, dm.handler)), state)
}

#[test]
fn test_declaration_order_wins() {
    let first = Router::with_path("users").unwrap().handle(TestHandler::Mark("first"));
    let second = Router::with_path("users").unwrap().handle(TestHandler::Mark("second"));
    let router = Router::new().push(first).push(second);

    let (matched, _) = detect(&router, "/users");
    let (_, handler) = matched.unwrap();
    assert_eq!(handler, TestHandler::Mark("first"));
}

#[test]
fn test_backtracking_reaches_later_sibling() {
    // The first sibling matches `users/<id>` but wants more path below it;
    // the second, declared after it, takes what is left.
    let specific = Router::with_path("<id>/emails").unwrap().handle(TestHandler::Mark("a"));
    let fallback = Router::with_path("static/<id>").unwrap().handle(TestHandler::Mark("b"));
    let router = Router::new().push(specific).push(fallback);

    let (matched, state) = detect(&router, "/static/42");
    let (_, handler) = matched.unwrap();
    assert_eq!(handler, TestHandler::Mark("b"));
    // The first branch captured `id` before failing; the match's own capture
    // under the same name has overwritten it.
    assert_eq!(state.params().get("id").unwrap(), "42");
}

#[test]
fn test_wildcard_branch_after_literal_branch() {
    let literal = Router::with_path("users/<id>/emails").unwrap().handle(TestHandler::Mark("lit"));
    let wild = Router::with_path("users/<**rest>").unwrap().handle(TestHandler::Mark("wild"));
    let router = Router::new().push(literal).push(wild);

    let (matched, state) = detect(&router, "/users/12/profile");
    let (_, handler) = matched.unwrap();
    assert_eq!(handler, TestHandler::Mark("wild"));
    assert_eq!(state.params().get("**rest").unwrap(), "12/profile");

    let (matched, _) = detect(&router, "/users/12/emails");
    let (_, handler) = matched.unwrap();
    assert_eq!(handler, TestHandler::Mark("lit"));
}

#[test]
fn test_method_filter_on_route() {
    let router: Router<TestHandler> =
        Router::with_path("hello").unwrap().get(TestHandler::Mark("h"));
    let mut req = Request::new("/hello".to_owned());
    req.method = Method::POST;
    let mut state = PathState::new("/hello");
    assert!(router.detect(&req, &mut state).is_none());

    req.method = Method::GET;
    let mut state = PathState::new("/hello");
    assert!(router.detect(&req, &mut state).is_some());
}

#[test]
fn test_filter_kind_host() {
    let mut req = Request::new("/".to_owned());
    req.host = Some("localhost".to_owned());
    let f = FilterKind::Host(salvo_t::filter::host("localhost".to_owned(), false));
    let mut state = PathState::new("/");
    assert!(f.filter(&req, &mut state));
    req.host = Some("127.0.0.1".to_owned());
    assert!(!f.filter(&req, &mut state));
}

#[test]
fn test_middleware_runs_root_to_leaf() {
    // Two routes, `GET /level1/level2/hello` and `GET /level1`, with
    // middleware hung along the deeper one.
    let deep = Router::with_hoop(TestHandler::Mark("before2"))
        .path("level2")
        .unwrap()
        .push(
            Router::with_hoop(TestHandler::Mark("before3"))
                .path("hello")
                .unwrap()
                .handle(TestHandler::Mark("hello")),
        );
    let router = Router::new()
        .push(
            Router::with_path("level1")
                .unwrap()
                .hoop(TestHandler::Mark("before1"))
                .push(deep),
        )
        .push(Router::with_path("level1").unwrap().handle(TestHandler::Mark("short")));

    let (matched, _) = detect(&router, "/level1/level2/hello");
    let (hoops, handler) = matched.unwrap();
    assert_eq!(
        hoops,
        vec![
            TestHandler::Mark("before1"),
            TestHandler::Mark("before2"),
            TestHandler::Mark("before3"),
        ]
    );
    assert_eq!(handler, TestHandler::Mark("hello"));

    // Running the chain writes the markers in root-to-leaf order, the
    // terminal handler last.
    let mut chain = hoops;
    chain.push(handler);
    let mut res = Response::new();
    let (ran, _) = run_chain(chain, &mut res);
    assert!(ran);
    assert_eq!(res.body_text(), "before1before2before3hello");

    // The shorter route still answers for its own path.
    let (matched, _) = detect(&router, "/level1");
    let (hoops, handler) = matched.unwrap();
    assert_eq!(handler, TestHandler::Mark("short"));
    assert!(hoops.is_empty());
}

#[test]
fn test_writer_text_plain() {
    let mut res = Response::new();
    res.render(Text::Plain("hello".to_owned()));
    assert_eq!(res.body_text(), "hello");
    assert_eq!(res.header("content-type").unwrap(), "text/plain; charset=utf-8");
}

#[test]
fn test_writer_html_text() {
    let mut res = Response::new();
    res.render(Text::Html("<p>hi</p>".to_owned()));
    assert_eq!(res.body_text(), "<p>hi</p>");
    assert_eq!(res.header("content-type").unwrap(), "text/html; charset=utf-8");
}
