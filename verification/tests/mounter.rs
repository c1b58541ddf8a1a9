use ether::method::Method;
use ether::param::ParamValue;
use ether::paths::split_path;
use ether::routing::launcher::{Launcher, RouteTable, Target};
use ether::routing::mounter::Mounter;
use ether::routing::route::{PathRoute, Segment};

fn table(literal: &str) -> RouteTable {
    RouteTable::new(vec![PathRoute::new(Method::Get, vec![Segment::literal(literal)])])
}

fn describe(t: Option<Target>) -> String {
    fn go(t: &Target) -> String {
        match t {
            Target::Handler { index, params } => format!("handler {} {:?}", index, params),
            Target::File(p) => format!("file {}", p),
            Target::Base(t) => format!("base({})", go(t)),
            Target::Mounted(t) => format!("mounted({})", go(t)),
        }
    }
    match t {
        Some(t) => go(&t),
        None => "none".to_owned(),
    }
}

#[test]
fn mounter_asks_base_first_then_prefix() {
    let base = table("a");
    let inner = table("b");
    let m: Mounter<RouteTable, RouteTable> = base.mount("api", inner);
    let go = |p: &str| describe(m.launch(&Method::Get, &split_path(p)));
    assert_eq!(go("/a"), "base(handler 0 [])");
    assert_eq!(go("/api/b"), "mounted(handler 0 [])");
    assert_eq!(go("/b"), "none");
    assert_eq!(go("/api/a"), "none");
    assert_eq!(go("/api"), "none");
    assert_eq!(go(""), "none");
    let _ = ParamValue::I32(0);
}

#[test]
fn mounter_prefers_base_even_under_prefix() {
    let base = RouteTable::new(vec![PathRoute::new(
        Method::Get,
        vec![Segment::literal("api"), Segment::literal("b")],
    )]);
    let m = base.mount("api", table("b"));
    assert_eq!(describe(m.launch(&Method::Get, &split_path("/api/b"))), "base(handler 0 [])");
}

#[test]
fn mounters_nest() {
    let inner = table("c").mount("v1", table("d"));
    let outer = table("x").mount("api", inner);
    assert_eq!(
        describe(outer.launch(&Method::Get, &split_path("/api/v1/d"))),
        "mounted(mounted(handler 0 []))"
    );
    assert_eq!(
        describe(outer.launch(&Method::Get, &split_path("/api/c"))),
        "mounted(base(handler 0 []))"
    );
}

#[test]
fn mounter_clone_keeps_prefix_and_launchers() {
    let m = table("a").mount("api", table("b"));
    let c = m.clone();
    assert_eq!(describe(c.launch(&Method::Get, &split_path("/api/b"))), "mounted(handler 0 [])");
    assert_eq!(describe(c.launch(&Method::Get, &split_path("/a"))), "base(handler 0 [])");
    assert_eq!(describe(m.launch(&Method::Get, &split_path("/api/b"))), "mounted(handler 0 [])");
}
