use ether::method::Method;
use ether::param::{ParamKind, ParamValue};
use ether::paths::split_path;
use ether::response::ResponseBody;
use ether::routing::launcher::{Launcher, RouteTable, Target};
use ether::routing::route::{PathRoute, Segment};

type Handler = Box<dyn Fn(&[ParamValue]) -> String>;

/// Runs the handler that the table picks for `path`.
fn launch_text(table: &RouteTable, handlers: &[Handler], method: Method, path: &str) -> Option<String> {
    match table.launch(&method, &split_path(path)) {
        Some(Target::Handler { index, params }) => Some(handlers[index](&params)),
        Some(other) => panic!("unexpected target {:?}", other),
        None => None,
    }
}

/// The same, with the handler's text as an immediate response body.
fn launch_body(
    table: &RouteTable,
    handlers: &[Handler],
    method: Method,
    path: &str,
) -> Option<ResponseBody<()>> {
    launch_text(table, handlers, method, path).map(ResponseBody::from)
}

fn immediate(body: Option<ResponseBody<()>>) -> Option<String> {
    match body {
        Some(ResponseBody::Immediate(s)) => Some(s),
        Some(ResponseBody::Stream(())) => panic!("Invalid body"),
        None => None,
    }
}

fn text_param(params: &[ParamValue]) -> String {
    match &params[0] {
        ParamValue::Text(s) => s.clone(),
        other => panic!("not text: {:?}", other),
    }
}

fn i32_param(params: &[ParamValue]) -> i32 {
    match &params[0] {
        ParamValue::I32(v) => *v,
        other => panic!("not i32: {:?}", other),
    }
}

fn simple() -> (RouteTable, Vec<Handler>) {
    (
        RouteTable::new(vec![PathRoute::new(
            Method::Get,
            vec![Segment::literal("hoge"), Segment::literal("fuga")],
        )]),
        vec![Box::new(|_: &[ParamValue]| "piyo".to_owned())],
    )
}

fn params_text() -> (RouteTable, Vec<Handler>) {
    (
        RouteTable::new(vec![PathRoute::new(
            Method::Get,
            vec![Segment::literal("hoge"), Segment::Param(ParamKind::Text)],
        )]),
        vec![Box::new(|p: &[ParamValue]| format!("get {}", text_param(p)))],
    )
}

fn params_i32() -> (RouteTable, Vec<Handler>) {
    (
        RouteTable::new(vec![PathRoute::new(
            Method::Get,
            vec![Segment::literal("hoge"), Segment::Param(ParamKind::I32)],
        )]),
        vec![Box::new(|p: &[ParamValue]| format!("get {}", i32_param(p) + 5))],
    )
}

fn multi() -> (RouteTable, Vec<Handler>) {
    (
        RouteTable::new(vec![
            PathRoute::new(Method::Get, vec![Segment::literal("hoge"), Segment::literal("fuga")]),
            PathRoute::new(
                Method::Get,
                vec![Segment::literal("hoge"), Segment::Param(ParamKind::Text)],
            ),
            PathRoute::new(
                Method::Get,
                vec![Segment::literal("piyo"), Segment::Param(ParamKind::I32)],
            ),
        ]),
        vec![
            Box::new(|_: &[ParamValue]| "no param /hoge/fuga".to_owned()),
            Box::new(|p: &[ParamValue]| format!("param /hoge/{}", text_param(p))),
            Box::new(|p: &[ParamValue]| format!("int param /piyo/{}", i32_param(p))),
        ],
    )
}

#[test]
fn launcher_test_empty() {
    let table = RouteTable::new(vec![]);
    assert_eq!(launch_text(&table, &[], Method::Get, "/doc/hoge"), None);
}

#[test]
fn launcher_test_simple_launcher() {
    let (table, handlers) = simple();
    assert_eq!(launch_text(&table, &handlers, Method::Get, "/doc/hoge"), None);
    assert_eq!(launch_text(&table, &handlers, Method::Post, "/hoge/fuga"), None);
    assert_eq!(
        launch_text(&table, &handlers, Method::Get, "/hoge/fuga"),
        Some("piyo".to_owned())
    );
}

#[test]
fn launcher_test_params() {
    let (table, handlers) = params_text();
    assert_eq!(launch_text(&table, &handlers, Method::Get, "/doc/hoge"), None);
    assert_eq!(
        launch_text(&table, &handlers, Method::Get, "/hoge/fuga"),
        Some("get fuga".to_owned())
    );

    let (table, handlers) = params_i32();
    assert_eq!(launch_text(&table, &handlers, Method::Get, "/doc/hoge"), None);
    assert_eq!(
        launch_text(&table, &handlers, Method::Get, "/hoge/3"),
        Some("get 8".to_owned())
    );
}

#[test]
fn launcher_test_multi_route() {
    let (table, handlers) = multi();
    assert_eq!(launch_text(&table, &handlers, Method::Get, "/doc/hoge"), None);
    assert_eq!(
        launch_text(&table, &handlers, Method::Get, "/hoge/fuga"),
        Some("no param /hoge/fuga".to_owned())
    );
    assert_eq!(
        launch_text(&table, &handlers, Method::Get, "/hoge/fuga2"),
        Some("param /hoge/fuga2".to_owned())
    );
    assert_eq!(
        launch_text(&table, &handlers, Method::Get, "/piyo/2"),
        Some("int param /piyo/2".to_owned())
    );
    assert_eq!(launch_text(&table, &handlers, Method::Get, "/piyo/hoge"), None);
}

#[test]
fn lib_test_empty() {
    let table = RouteTable::new(vec![]);
    assert_eq!(immediate(launch_body(&table, &[], Method::Get, "/doc/hoge")), None);
}

#[test]
fn lib_test_simple_launcher() {
    let (table, handlers) = simple();
    assert_eq!(immediate(launch_body(&table, &handlers, Method::Get, "/doc/hoge")), None);
    assert_eq!(immediate(launch_body(&table, &handlers, Method::Post, "/hoge/fuga")), None);
    assert_eq!(
        immediate(launch_body(&table, &handlers, Method::Get, "/hoge/fuga")),
        Some("piyo".to_owned())
    );
}

#[test]
fn lib_test_params() {
    let (table, handlers) = params_text();
    assert_eq!(immediate(launch_body(&table, &handlers, Method::Get, "/doc/hoge")), None);
    assert_eq!(
        immediate(launch_body(&table, &handlers, Method::Get, "/hoge/fuga")),
        Some("get fuga".to_owned())
    );

    let (table, handlers) = params_i32();
    assert_eq!(immediate(launch_body(&table, &handlers, Method::Get, "/doc/hoge")), None);
    assert_eq!(
        immediate(launch_body(&table, &handlers, Method::Get, "/hoge/3")),
        Some("get 8".to_owned())
    );
}

#[test]
fn lib_test_multi_route() {
    let (table, handlers) = multi();
    assert_eq!(immediate(launch_body(&table, &handlers, Method::Get, "/doc/hoge")), None);
    assert_eq!(
        immediate(launch_body(&table, &handlers, Method::Get, "/hoge/fuga")),
        Some("no param /hoge/fuga".to_owned())
    );
    assert_eq!(
        immediate(launch_body(&table, &handlers, Method::Get, "/hoge/fuga2")),
        Some("param /hoge/fuga2".to_owned())
    );
    assert_eq!(
        immediate(launch_body(&table, &handlers, Method::Get, "/piyo/2")),
        Some("int param /piyo/2".to_owned())
    );
    assert_eq!(immediate(launch_body(&table, &handlers, Method::Get, "/piyo/hoge")), None);
}

#[test]
fn first_matching_route_wins() {
    let table = RouteTable::new(vec![
        PathRoute::new(Method::Get, vec![Segment::Param(ParamKind::U32)]),
        PathRoute::new(Method::Get, vec![Segment::Param(ParamKind::I32)]),
        PathRoute::new(Method::Get, vec![Segment::Param(ParamKind::Text)]),
    ]);
    let index = |path: &str| match table.launch(&Method::Get, &split_path(path)) {
        Some(Target::Handler { index, .. }) => Some(index),
        _ => None,
    };
    assert_eq!(index("/5"), Some(0));
    assert_eq!(index("/-5"), Some(1));
    assert_eq!(index("/x"), Some(2));
    assert_eq!(index("/x/y"), None);
}
