use ether::method::Method;
use ether::param::{convert_param, ParamKind, ParamValue};
use ether::routing::route::{convert_or, param_kinds, PathRoute, Route, Segment};
use ether::utils::apply;
use std::ops::Add;

#[test]
fn test_extract_type() {
    let segments = vec![
        Segment::Param(ParamKind::I32),
        Segment::literal("aaa"),
        Segment::Param(ParamKind::Float),
        Segment::literal("bbb"),
        Segment::Param(ParamKind::Usize),
    ];
    assert_eq!(
        param_kinds(&segments),
        vec![ParamKind::I32, ParamKind::Float, ParamKind::Usize]
    );
    // Values of those kinds: (1i32, 1.0f64, 1usize).
    assert_eq!(convert_param(ParamKind::I32, "1"), Some(ParamValue::I32(1)));
    match convert_param(ParamKind::Float, "1.0") {
        Some(ParamValue::Float(text)) => assert_eq!(text.parse::<f64>().unwrap(), 1.0f64),
        other => panic!("not a float: {:?}", other),
    }
    assert_eq!(convert_param(ParamKind::Usize, "1"), Some(ParamValue::Usize(1)));
}

#[test]
fn test_convert_or() {
    assert_eq!(
        convert_or(ParamKind::I32, &["aa", "bb", "cc", "11", "dd"], 3),
        Some(ParamValue::I32(11))
    );

    assert_eq!(
        convert_or(ParamKind::I32, &["aa", "bb", "cc", "11", "dd"], 2),
        None
    );
}

#[test]
fn test_route() {
    // one argument
    let route = PathRoute::new(
        Method::Get,
        vec![
            Segment::literal("test"),
            Segment::literal("hoge"),
            Segment::Param(ParamKind::I32),
            Segment::literal("edit"),
        ],
    );
    assert_eq!(route.match_route(&Method::Get, &["aaa"]), None);
    assert_eq!(
        route.match_route(&Method::Get, &["test", "hoge", "fuga", "edit"]),
        None
    );
    assert_eq!(
        route.match_route(&Method::Get, &["test", "hoge", "42", "edit"]),
        Some(vec![ParamValue::I32(42)])
    );
    assert_eq!(
        route.match_route(&Method::Post, &["test", "hoge", "42", "edit"]),
        None
    );

    // multi arguments
    let route = PathRoute::new(
        Method::Get,
        vec![
            Segment::literal("test"),
            Segment::literal("hoge"),
            Segment::Param(ParamKind::I32),
            Segment::literal("edit"),
            Segment::Param(ParamKind::Text),
            Segment::literal("hoge"),
        ],
    );
    assert_eq!(
        route.match_route(&Method::Get, &["test", "hoge", "42", "edit"]),
        None
    );
    assert_eq!(
        route.match_route(&Method::Get, &["test", "hoge", "42", "edit", "bbb", "hoge"]),
        Some(vec![ParamValue::I32(42), ParamValue::Text("bbb".to_owned())])
    );

    // no argument
    let route = PathRoute::new(
        Method::Get,
        vec![Segment::literal("foo"), Segment::literal("bar")],
    );
    assert_eq!(route.match_route(&Method::Get, &["aaa"]), None);
    assert_eq!(route.match_route(&Method::Get, &["foo", "bar"]), Some(vec![]));
}

#[test]
fn test_apply() {
    assert_eq!(apply(i32::add, 1, (2,)), 3);
}

#[test]
fn apply_passes_every_parameter_in_order() {
    assert_eq!(apply(|p: i32| p * 2, 21, ()), 42);
    assert_eq!(
        apply(|p: &str, a: i32, b: String| format!("{} {} {}", p, a, b), "x", (1, "y".to_owned())),
        "x 1 y"
    );
    assert_eq!(
        apply(
            |p: u32, a: u32, b: u32, c: u32, d: u32, e: u32, f: u32, g: u32, h: u32, i: u32| {
                p + 2 * a + 3 * b + 4 * c + 5 * d + 6 * e + 7 * f + 8 * g + 9 * h + 10 * i
            },
            1,
            (1, 1, 1, 1, 1, 1, 1, 1, 1)
        ),
        55
    );
}

#[test]
fn route_match_needs_same_method_and_length() {
    let route = PathRoute::new(
        Method::Extension("PROPFIND".to_owned()),
        vec![Segment::Param(ParamKind::U32)],
    );
    assert_eq!(
        route.match_route(&Method::Extension("PROPFIND".to_owned()), &["7"]),
        Some(vec![ParamValue::U32(7)])
    );
    assert_eq!(
        route.match_route(&Method::Extension("propfind".to_owned()), &["7"]),
        None
    );
    assert_eq!(route.match_route(&Method::Get, &["7"]), None);
    assert_eq!(route.match_route(&Method::Extension("PROPFIND".to_owned()), &[]), None);
    assert_eq!(
        route.match_route(&Method::Extension("PROPFIND".to_owned()), &["7", "8"]),
        None
    );
    assert_eq!(
        route.match_route(&Method::Extension("PROPFIND".to_owned()), &["-7"]),
        None
    );
}

#[test]
fn empty_route_matches_only_empty_path() {
    let route = PathRoute::new(Method::Get, vec![]);
    assert_eq!(route.match_route(&Method::Get, &[]), Some(vec![]));
    assert_eq!(route.match_route(&Method::Get, &[""]), None);
    let root = PathRoute::new(Method::Get, vec![Segment::literal("")]);
    assert_eq!(root.match_route(&Method::Get, &[""]), Some(vec![]));
}

#[test]
fn method_sameness() {
    assert!(Method::Get.same(&Method::Get));
    assert!(!Method::Get.same(&Method::Post));
    assert!(Method::Extension("X".to_owned()).same(&Method::Extension("X".to_owned())));
    assert!(!Method::Extension("X".to_owned()).same(&Method::Extension("Y".to_owned())));
    assert!(!Method::Extension("GET".to_owned()).same(&Method::Get));
}
