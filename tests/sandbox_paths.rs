use leak::percent::{percent_decode, percent_encode};
use leak::sandbox::{PathError, PathPlan, SandboxedPath};

fn root() -> SandboxedPath {
    SandboxedPath::new_root("/srv/share".to_string()).unwrap()
}

fn lookup(p: Result<PathPlan, PathError>) -> String {
    match p {
        Ok(PathPlan::Lookup(s)) => s,
        other => panic!("expected a lookup, got {:?}", other),
    }
}

#[test]
fn relative_root_is_refused() {
    assert!(SandboxedPath::new_root("srv".to_string()).is_none());
    assert!(SandboxedPath::new_root(String::new()).is_none());
}

#[test]
fn plain_path_is_planned_under_root() {
    assert_eq!(lookup(root().plan("/docs/a.txt")), "/srv/share/docs/a.txt");
}

#[test]
fn empty_path_is_the_root() {
    assert!(matches!(root().plan("/"), Ok(PathPlan::Root)));
    assert!(matches!(root().plan(""), Ok(PathPlan::Root)));
    assert!(matches!(root().plan("///"), Ok(PathPlan::Root)));
}

#[test]
fn dot_segments_are_settled_lexically() {
    assert_eq!(lookup(root().plan("/a/./b/../c")), "/srv/share/a/c");
    assert_eq!(lookup(root().plan("/a//b/")), "/srv/share/a/b");
    assert_eq!(lookup(root().plan("/a/..")), "/srv/share");
}

#[test]
fn traversal_is_refused_before_lookup() {
    assert_eq!(root().plan("/../etc/passwd").unwrap_err(), PathError::PathEscape);
    assert_eq!(root().plan("/a/../../etc").unwrap_err(), PathError::PathEscape);
    assert_eq!(root().plan("/%2e%2e/etc/passwd").unwrap_err(), PathError::PathEscape);
    assert_eq!(root().plan("/..%2F..%2Fetc").unwrap_err(), PathError::PathEscape);
    assert_eq!(root().plan("/%2Fetc/passwd").unwrap_err(), PathError::PathEscape);
}

#[test]
fn canonical_result_outside_root_is_refused() {
    let r = root();
    let plan = r.plan("/link").unwrap();
    assert_eq!(r.confirm(&plan, Some("/etc".to_string())).unwrap_err(), PathError::PathEscape);
    assert_eq!(
        r.confirm(&plan, Some("/srv/shared/x".to_string())).unwrap_err(),
        PathError::PathEscape
    );
    assert_eq!(r.confirm(&plan, None).unwrap_err(), PathError::NotFound);
    let ok = r.confirm(&plan, Some("/srv/share/real".to_string())).unwrap();
    assert_eq!(ok.path(), "/srv/share/real");
    assert!(!ok.is_root());
    let same = r.confirm(&PathPlan::Root, None).unwrap();
    assert!(same.is_root());
}

#[test]
fn child_rejects_unusable_names() {
    let r = root();
    assert!(r.child("").is_none());
    assert!(r.child(".").is_none());
    assert!(r.child("..").is_none());
    assert!(r.child("a/b").is_none());
    assert_eq!(r.child("a b.txt").unwrap().path(), "/srv/share/a b.txt");
}

#[test]
fn percent_decoding() {
    assert_eq!(percent_decode("a%20b"), "a b");
    assert_eq!(percent_decode("%41%42c"), "ABc");
    assert_eq!(percent_decode("%zz%4"), "%zz%4");
    assert_eq!(percent_decode("%+5x"), "\u{5}x");
    assert_eq!(percent_decode("%FF"), "\u{FFFD}");
    assert_eq!(percent_decode("caf%C3%A9"), "café");
}

#[test]
fn encoded_traversal_decodes_plainly() {
    assert_eq!(percent_decode("%2e%2e/%2E%2E/etc"), "../../etc");
    assert_eq!(percent_decode("100%"), "100%");
    assert_eq!(percent_decode("%zz"), "%zz");
    assert_eq!(percent_decode("%4"), "%4");
}

#[test]
fn decoding_inverts_encoding() {
    for s in ["plain", "a b/c?d=e&f", "100% sure", "café ☕", "~._-"] {
        assert_eq!(percent_decode(&percent_encode(s)), s);
    }
}

#[test]
fn percent_encoding() {
    assert_eq!(percent_encode("report 1.txt"), "report%201.txt");
    assert_eq!(percent_encode("a/b~c_d-e"), "a%2Fb~c_d-e");
    assert_eq!(percent_encode("é"), "%C3%A9");
}
