//! Project identity.

use openab_core::acp::project::ProjectContext;
use openab_core::acp::project::RootProbe;

#[test]
fn anonymous_context_has_empty_project_id() {
    let p = ProjectContext::anonymous("/tmp".to_string());
    assert!(p.is_anonymous());
    assert_eq!(p.project_id, "");
}

#[test]
fn non_anonymous_context_has_project_id() {
    let p = ProjectContext { project_id: "openab".into(), project_root: "/tmp".into() };
    assert!(!p.is_anonymous());
}

#[test]
fn validate_rejects_empty_project_root() {
    let p = ProjectContext::anonymous(String::new());
    let err = p
        .validate(&RootProbe::Directory("/".to_string()))
        .expect_err("empty project_root must fail");
    assert!(err.contains("empty"), "{err}");
}

#[test]
fn validate_rejects_nonexistent_root() {
    let p = ProjectContext::anonymous("/this/path/does/not/exist/anywhere_2026_08_18".to_string());
    let err = p
        .validate(&RootProbe::Unresolvable("No such file or directory (os error 2)".to_string()))
        .expect_err("nonexistent root must fail");
    assert!(err.contains("cannot be canonicalized"), "{err}");
    assert_eq!(
        err,
        "project_root \"/this/path/does/not/exist/anywhere_2026_08_18\" cannot be canonicalized: \
         No such file or directory (os error 2)"
    );
}

#[test]
fn validate_rejects_file_root() {
    let p = ProjectContext::anonymous("/tmp/d/file.txt".to_string());
    let err = p
        .validate(&RootProbe::NotDirectory("/tmp/d/file.txt".to_string()))
        .expect_err("file root must fail");
    assert!(err.contains("not a directory"), "{err}");
    assert_eq!(err, "project_root \"/tmp/d/file.txt\" is not a directory");
}

#[test]
fn validate_accepts_existing_directory() {
    let p = ProjectContext::anonymous("/tmp/./d".to_string());
    let canonical = p
        .validate(&RootProbe::Directory("/tmp/d".to_string()))
        .expect("existing dir should canonicalize");
    assert_eq!(canonical, "/tmp/d");
}

#[test]
fn canonicalized_is_idempotent() {
    let probe = RootProbe::Directory("/tmp/d".to_string());
    let p1 = ProjectContext::anonymous("/tmp/d/".to_string());
    let p2 = p1.canonicalized(&probe).expect("canonicalize");
    let p3 = p2.canonicalized(&probe).expect("canonicalize is idempotent");
    assert_eq!(p2, p3, "canonicalizing twice yields the same context");
}

#[test]
fn canonicalized_keeps_project_id() {
    let p1 = ProjectContext { project_id: "openab".into(), project_root: "/tmp/d/.".into() };
    let p2 = p1
        .canonicalized(&RootProbe::Directory("/tmp/d".to_string()))
        .expect("canonicalize");
    assert_eq!(p2.project_id, "openab");
    assert!(!p2.is_anonymous());
}

#[test]
fn a_quoted_root_is_escaped() {
    let p = ProjectContext::anonymous("a\"b".to_string());
    let err = p.validate(&RootProbe::NotDirectory("x\ny".to_string())).unwrap_err();
    assert_eq!(err, "project_root \"x\\ny\" is not a directory");
}

#[test]
fn paths_are_quoted_in_messages() {
    let context = ProjectContext::anonymous("/tmp/\"here\"".to_string());
    let err = context.validate(&RootProbe::Unresolvable("gone".to_string())).unwrap_err();
    assert_eq!(
        err,
        "project_root \"/tmp/\\\"here\\\"\" cannot be canonicalized: gone"
    );
}
