use cmux::git_metadata::{directory, label_text, parse, GitMetadata};
use cmux::registry::Registry;

/// Porcelain headers retain branch identity while untracked, conflict and ordinary records mark dirty.
#[test]
fn parse_branch_and_changes() {
    assert_eq!(
        parse(b"# branch.oid (initial)\n# branch.head main\n".to_vec()),
        Some(GitMetadata {
            branch: "main".into(),
            dirty: false
        })
    );
    for record in [
        "? new",
        "1 M. ignored fields",
        "2 R. ignored fields",
        "u UU ignored fields",
    ] {
        assert!(
            parse(format!("# branch.head feature\n{record}\n").into_bytes())
                .unwrap()
                .dirty
        );
    }
    assert_eq!(
        parse(b"# branch.head (detached)\n".to_vec()).unwrap().branch,
        "(detached)"
    );
    assert!(parse(b"fatal: not a repository".to_vec()).is_none());
    assert!(parse(format!("# branch.head {}\n", "x".repeat(1025)).into_bytes()).is_none());
}

/// CRLF endings are stripped, control characters and invalid UTF-8 fail, the label marks dirt.
#[test]
fn branch_edge_cases_and_label() {
    assert_eq!(parse(b"# branch.head dev\r\n".to_vec()).unwrap().branch, "dev");
    assert!(parse(b"# branch.head a\x07b\n".to_vec()).is_none());
    assert!(parse(vec![0xff, 0x0a]).is_none());
    let clean = GitMetadata { branch: "main".into(), dirty: false };
    let dirty = GitMetadata { branch: "main".into(), dirty: true };
    assert_eq!(label_text(Some(&clean)), "main");
    assert_eq!(label_text(Some(&dirty)), "main •");
    assert_eq!(label_text(None), "");
}

/// Git metadata follows the focused terminal's reported directory, then the launch directory;
/// remote workspaces have none.
#[test]
fn observed_directory_prefers_terminal_reports() {
    let mut registry = Registry::new();
    registry.register(0x10, 1, Some("/work/repo"));
    registry.register(0x20, 2, None);
    assert_eq!(directory(false, &registry, Some(0x10), Some("/home")).as_deref(), Some("/work/repo"));
    assert_eq!(directory(false, &registry, Some(0x20), Some("/home")).as_deref(), Some("/home"));
    assert_eq!(directory(false, &registry, Some(0x30), None), None);
    assert_eq!(directory(false, &registry, None, Some("/home")).as_deref(), Some("/home"));
    assert_eq!(directory(true, &registry, Some(0x10), Some("/home")), None);
}
