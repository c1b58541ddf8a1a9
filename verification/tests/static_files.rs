use std::path::{Path, PathBuf};

use ether::method::Method;
use ether::paths::split_path;
use ether::routing::launcher::{Launcher, Target};
use ether::routing::static_launcher::{path_components, push_path, starts_with_path, StaticLauncher};

#[test]
fn resolves_under_base() {
    let l = StaticLauncher::new("./");
    assert_eq!(l.resolve(&["Cargo.toml"]), Some("./Cargo.toml".to_owned()));
    assert_eq!(l.resolve(&["a", "b"]), Some("./a/b".to_owned()));
    assert_eq!(l.resolve(&["%2Fetc%2Fpasswd"]), None);
    assert_eq!(l.resolve(&["a%20b"]), Some("./a b".to_owned()));
    assert_eq!(l.resolve(&[]), Some("./".to_owned()));
    let l = StaticLauncher::new("/srv");
    assert_eq!(l.resolve(&["%2Fsrv%2Fx"]), Some("/srv/x".to_owned()));
    assert_eq!(l.resolve(&["%2Fsrvx"]), None);
    match l.launch(&Method::Get, &split_path("/x/y")) {
        Some(Target::File(p)) => assert_eq!(p, "/srv/x/y"),
        other => panic!("{:?}", other),
    }
}

#[test]
fn dot_dot_stays_a_component() {
    // The check is by components, as `Path::starts_with`: `..` is kept.
    let l = StaticLauncher::new("./static");
    assert_eq!(l.resolve(&["..", "secret"]), Some("./static/../secret".to_owned()));
}

#[test]
fn push_is_pathbufs_push() {
    let bases = ["", "/", "a", "a/", "./", ".", "/srv", "/srv/", "a//b"];
    let segs = ["", "x", "/x", "x/y", "./x", "..", "x/", "//x"];
    for b in bases.iter() {
        for s in segs.iter() {
            let mut expected = PathBuf::from(b);
            expected.push(s);
            assert_eq!(push_path(b.to_string(), s), expected.to_str().unwrap(), "{:?} {:?}", b, s);
        }
    }
}

#[test]
fn components_and_starts_with_are_paths() {
    let paths = [
        "", "/", "//", "a", "/a", "a/b", "a//b/", "./a", ".", "./", "/./a", "a/./b", "a/..",
        "../a", ".a", "/srv/x", "/srvx", "./static/../secret",
    ];
    for p in paths.iter() {
        let expected: Vec<String> = Path::new(p)
            .components()
            .map(|c| c.as_os_str().to_str().unwrap().to_owned())
            .collect();
        let got: Vec<String> = path_components(p).into_iter().map(|c| c.to_owned()).collect();
        assert_eq!(got, expected, "{:?}", p);
        for q in paths.iter() {
            assert_eq!(starts_with_path(p, q), Path::new(p).starts_with(q), "{:?} {:?}", p, q);
        }
    }
}

#[test]
fn resolve_decoded_takes_decoded_segments() {
    let l = StaticLauncher::new("./");
    assert_eq!(
        l.resolve_decoded(&["a b".to_owned(), "c".to_owned()]),
        Some("./a b/c".to_owned())
    );
    assert_eq!(l.resolve_decoded(&["/etc/passwd".to_owned()]), None);
    let c = l.clone();
    assert_eq!(c.resolve(&["x"]), Some("./x".to_owned()));
}
