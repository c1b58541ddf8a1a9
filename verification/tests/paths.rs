use ether::paths::{same_text, split_path, split_pieces};

#[test]
fn split_path_drops_the_text_before_the_first_slash() {
    assert_eq!(split_path("/doc/hoge"), vec!["doc", "hoge"]);
    assert_eq!(split_path("/hoge/fuga"), vec!["hoge", "fuga"]);
    assert_eq!(split_path("/"), vec![""]);
    assert_eq!(split_path(""), Vec::<&str>::new());
    assert_eq!(split_path("a/b"), vec!["b"]);
    assert_eq!(split_path("/a//b/"), vec!["a", "", "b", ""]);
}

#[test]
fn split_is_strs_split() {
    let texts = ["", "/", "//", "a", "/a", "a/", "/a/b/c", "x//y", "/é/ü/", "no slash"];
    for t in texts.iter() {
        assert_eq!(split_pieces(t), t.split('/').collect::<Vec<_>>());
        assert_eq!(split_path(t), t.split('/').skip(1).collect::<Vec<_>>());
    }
}

#[test]
fn same_text_compares_texts() {
    assert!(same_text("abc", "abc"));
    assert!(!same_text("abc", "abd"));
    assert!(!same_text("abc", "ab"));
    assert!(same_text("", ""));
}
