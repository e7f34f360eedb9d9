use cmux::inbox::Scope;
use cmux::notification_caller::{resolve, tty_target, Caller, CallerWorkspace};

fn workspace(uuid: u128, remote: bool, surfaces: &[(u128, Option<&str>)]) -> CallerWorkspace {
    CallerWorkspace {
        uuid,
        remote,
        surfaces: surfaces.iter().map(|(id, name)| (*id, name.map(String::from))).collect(),
    }
}

fn caller(
    workspace: Option<u128>,
    explicit: bool,
    surface: Option<u128>,
    tty: Option<&str>,
) -> Caller {
    Caller {
        preferred_workspace_id: workspace,
        preferred_workspace_is_explicit: explicit,
        preferred_surface_id: surface,
        caller_tty: tty.map(String::from),
        prefer_tty: false,
    }
}

fn scope(result: Result<Scope, (&'static str, &'static str)>) -> Result<(Option<u128>, Option<u128>), (&'static str, &'static str)> {
    result.map(|s| (s.workspace_id, s.surface_id))
}

fn open_workspaces() -> Vec<CallerWorkspace> {
    vec![
        workspace(0xa, false, &[(0xa1, Some("/dev/pts/1")), (0xa2, None)]),
        workspace(0xb, false, &[(0xb1, Some("pts/2")), (0xb2, Some("pts/3"))]),
        workspace(0xc, true, &[(0xc1, Some("pts/4"))]),
        workspace(0xd, false, &[(0xd1, Some("pts/3"))]),
    ]
}

/// A unique local terminal name designates its surface; remote and shared names designate none.
#[test]
fn tty_target_needs_one_local_match() {
    let ws = open_workspaces();
    let found = tty_target(&ws, " /dev/pts/1 ").map(|s| (s.workspace_id, s.surface_id));
    assert_eq!(found, Some((Some(0xa), Some(0xa1))));
    assert!(tty_target(&ws, "pts/4").is_none());
    assert!(tty_target(&ws, "pts/3").is_none());
    assert!(tty_target(&ws, "pts/9").is_none());
    assert!(tty_target(&ws, "not a tty").is_none());
}

/// Stable identities come first, explicit workspaces bound everything, and a caller naming
/// nothing falls back to the active workspace.
#[test]
fn caller_resolution_order() {
    let ws = open_workspaces();
    assert_eq!(scope(resolve(&ws, 1, &caller(None, false, Some(0xb2), Some("pts/1")))), Ok((Some(0xb), Some(0xb2))));
    assert_eq!(scope(resolve(&ws, 1, &caller(Some(0xa), true, Some(0xb2), None))), Ok((Some(0xa), None)));
    assert_eq!(scope(resolve(&ws, 1, &caller(Some(0xa), false, Some(0xb2), None))), Ok((Some(0xb), Some(0xb2))));
    assert_eq!(scope(resolve(&ws, 1, &caller(Some(0xa), true, None, Some("pts/1")))), Ok((Some(0xa), Some(0xa1))));
    assert_eq!(scope(resolve(&ws, 1, &caller(Some(0xb), true, None, Some("pts/1")))), Ok((Some(0xb), None)));
    assert_eq!(
        scope(resolve(&ws, 1, &caller(Some(0xf), true, None, None))),
        Err(("not_found", "caller workspace not found"))
    );
    assert_eq!(scope(resolve(&ws, 1, &caller(None, false, None, Some("pts/2")))), Ok((Some(0xb), Some(0xb1))));
    assert_eq!(
        scope(resolve(&ws, 1, &caller(Some(0xf), false, None, Some("pts/3")))),
        Err(("not_found", "caller notification target not found"))
    );
    assert_eq!(
        scope(resolve(&ws, 1, &caller(None, false, Some(0xee), None))),
        Err(("not_found", "caller notification target not found"))
    );
    assert_eq!(scope(resolve(&ws, 1, &caller(None, false, None, Some("not a tty")))), Ok((Some(0xb), None)));
    assert_eq!(scope(resolve(&ws, 1, &caller(None, false, None, None))), Ok((Some(0xb), None)));
    assert_eq!(
        scope(resolve(&ws, 9, &caller(None, false, None, None))),
        Err(("not_found", "caller workspace not found"))
    );
}
