use ether::hyper_sample::response;
use ether::method::Method;
use ether::request::{empty_body, first_item_or_default, from_raw_values, Request};
use ether::response::ResponseBody;
use ether::routing::launcher::{RouteTable, Target};
use ether::routing::route::{PathRoute, Segment};
use ether::runtime::server::{reply_for, route_request, STATUS_NOT_FOUND, STATUS_OK};

#[test]
fn body_is_taken_once() {
    let mut r = from_raw_values(Method::Post, "http://www.example.com/".to_owned(), "héllo".to_owned());
    assert_eq!(r.take_stream(), Some(vec!["héllo".as_bytes().to_vec()]));
    assert_eq!(r.take_stream(), None);
    assert_eq!(r.take_as_future(), None);
    assert!(r.method().same(&Method::Post));
    assert_eq!(r.uri(), "http://www.example.com/");
    assert!(r.headers().is_empty());
}

#[test]
fn future_resolves_to_first_chunk_or_default() {
    let mut r = from_raw_values(Method::Get, "/".to_owned(), "abc".to_owned());
    assert_eq!(r.take_as_future(), Some(b"abc".to_vec()));
    assert_eq!(r.take_as_future(), None);
    assert_eq!(r.take_stream(), None);
    let mut r: Request<Vec<Vec<u8>>> = Request::new(Method::Get, "/".to_owned(), vec![], Some(vec![]));
    assert_eq!(r.take_as_future(), Some(vec![]));
    let mut r = empty_body(Method::Get, "http://www.example.com/".to_owned());
    assert_eq!(r.take_as_future(), None);
}

#[test]
fn response_body_from_string_is_immediate() {
    match ResponseBody::<u8>::from("x".to_owned()) {
        ResponseBody::Immediate(s) => assert_eq!(s, "x"),
        ResponseBody::Stream(_) => panic!("stream"),
    }
}

#[test]
fn server_replies() {
    assert_eq!(reply_for(Some("hi".to_owned())).status, STATUS_OK);
    assert_eq!(reply_for(Some("hi".to_owned())).body, "hi");
    assert_eq!(reply_for(None).status, STATUS_NOT_FOUND);
    assert_eq!(reply_for(None).body, "Not found");
    assert_eq!(STATUS_OK, 200);
    assert_eq!(STATUS_NOT_FOUND, 404);
}

#[test]
fn server_splits_the_path() {
    let table = RouteTable::new(vec![PathRoute::new(Method::Get, vec![Segment::literal("")])]);
    assert!(matches!(route_request(&table, &Method::Get, "/"), Some(Target::Handler { index: 0, .. })));
    assert!(route_request(&table, &Method::Get, "/x").is_none());
}

#[test]
fn sample_server_reply() {
    let r = response(&Method::Get, "/");
    assert_eq!((r.status, r.body.as_str()), (200, "hogehoge"));
    let r = response(&Method::Post, "/");
    assert_eq!((r.status, r.body.as_str()), (404, "Not Found"));
    let r = response(&Method::Get, "/x");
    assert_eq!((r.status, r.body.as_str()), (404, "Not Found"));
}

#[test]
fn first_item_or_default_decides_the_future() {
    assert_eq!(first_item_or_default::<String>(Ok(Some(b"ab".to_vec()))), Ok(b"ab".to_vec()));
    assert_eq!(first_item_or_default::<String>(Ok(None)), Ok(vec![]));
    assert_eq!(first_item_or_default::<String>(Err("e".to_owned())), Err("e".to_owned()));
}
