use cmux::commands::{AppModel, Effect, Native, Outcome, Reply, Workspace};
use cmux::dispatch::{Request, SplitDirection};
use cmux::pane_tree::{PaneLayout, PaneTabs};
use cmux::resume::ResumeAction;

const W1: u128 = 0x0123_4567_89ab_cdef_0011_2233_4455_6601;
const W2: u128 = 0x0123_4567_89ab_cdef_0011_2233_4455_6602;
const W3: u128 = 0x0123_4567_89ab_cdef_0011_2233_4455_6603;
const S1: u128 = 0xaaaa_0000_0000_0000_0000_0000_0000_0001;
const S2: u128 = 0xaaaa_0000_0000_0000_0000_0000_0000_0002;
const S3: u128 = 0xaaaa_0000_0000_0000_0000_0000_0000_0003;
const NEW: u128 = 0xbbbb_0000_0000_0000_0000_0000_0000_0001;

fn text(value: u128) -> String {
    uuid::Uuid::from_u128(value).to_string()
}

fn workspace(uuid: u128, name: &str, surface: u128) -> Workspace {
    Workspace {
        uuid,
        name: name.to_string(),
        working_directory: None,
        has_attention: false,
        layout: PaneLayout::new(1),
        tabs: vec![PaneTabs { pane_id: 1, surfaces: vec![surface], selected: Some(0) }],
    }
}

fn model() -> AppModel {
    AppModel {
        workspaces: vec![workspace(W1, "one", S1), workspace(W2, "two", S2), workspace(W3, "three", S3)],
        active_index: 0,
    }
}

fn order(m: &AppModel) -> Vec<u128> {
    m.workspaces.iter().map(|w| w.uuid).collect()
}

fn done(outcome: Outcome) -> Option<Effect> {
    match outcome {
        Outcome::Reply(Reply::Done, effect) => Some(effect),
        _ => None,
    }
}

fn refused(outcome: Outcome) -> Option<(&'static str, &'static str)> {
    match outcome {
        Outcome::Reply(Reply::Refused(code, message), _) => Some((code, message)),
        _ => None,
    }
}

/// Workspaces are listed, selected, renamed, reordered with a clamped position and closed,
/// never the last one.
#[test]
fn workspace_commands() {
    let mut m = model();
    assert!(matches!(m.handle_command(Request::Ping, NEW), Outcome::Reply(Reply::Pong, Effect::Nothing)));
    match m.handle_command(Request::WorkspaceList, NEW) {
        Outcome::Reply(Reply::Workspaces(list), _) => {
            assert_eq!(list.len(), 3);
            assert_eq!((list[1].uuid, list[1].name.as_str(), list[1].selected), (W2, "two", false));
            assert_eq!((list[0].pane_count, list[0].surface_count, list[0].selected), (1, 1, true));
        }
        _ => panic!("workspace list"),
    }
    assert_eq!(done(m.handle_command(Request::WorkspaceSelect { id: text(W2) }, NEW)), Some(Effect::ShowWorkspace));
    assert_eq!(m.active_index, 1);
    assert_eq!(
        refused(m.handle_command(Request::WorkspaceSelect { id: "nope".to_string() }, NEW)),
        Some(("not_found", "workspace not found"))
    );
    assert_eq!(done(m.handle_command(Request::WorkspaceRename { id: text(W3), name: "renamed".into() }, NEW)), Some(Effect::Nothing));
    assert_eq!(m.workspaces[2].name, "renamed");
    assert_eq!(done(m.handle_command(Request::WorkspaceReorder { id: text(W1), position: 99 }, NEW)), Some(Effect::Nothing));
    assert_eq!(order(&m), vec![W2, W3, W1]);
    assert_eq!(m.active_index, 0);
    assert_eq!(done(m.handle_command(Request::WorkspaceNext, NEW)), Some(Effect::ShowWorkspace));
    assert_eq!(m.active_index, 1);
    assert_eq!(done(m.handle_command(Request::WorkspacePrev, NEW)), Some(Effect::ShowWorkspace));
    assert_eq!(done(m.handle_command(Request::WorkspacePrev, NEW)), Some(Effect::ShowWorkspace));
    assert_eq!(m.active_index, 2);
    assert_eq!(done(m.handle_command(Request::WorkspaceClose { id: text(W1) }, NEW)), Some(Effect::CloseWorkspace(W1)));
    assert_eq!(order(&m), vec![W2, W3]);
    assert_eq!(m.active_index, 1);
    assert_eq!(done(m.handle_command(Request::WorkspaceClose { id: text(W2) }, NEW)), Some(Effect::CloseWorkspace(W2)));
    assert_eq!(
        refused(m.handle_command(Request::WorkspaceClose { id: text(W3) }, NEW)),
        Some(("last_workspace", "cannot close the last workspace"))
    );
    assert!(matches!(m.handle_command(Request::WindowList, NEW), Outcome::Reply(Reply::Windows(1), _)));
}

/// Splitting creates a pane with a new surface; surfaces and panes are listed, focused and
/// closed; terminal commands resolve their target.
#[test]
fn surface_and_pane_commands() {
    let mut m = model();
    match m.handle_command(Request::SurfaceSplit { id: None, direction: SplitDirection::Vertical }, NEW) {
        Outcome::Reply(Reply::Split(surface), Effect::SplitPane { pane, surface: created, .. }) => {
            assert_eq!((surface, pane, created), (NEW, 2, NEW));
        }
        _ => panic!("split"),
    }
    assert_eq!(
        refused(m.handle_command(Request::SurfaceSplit { id: Some(text(0x99)), direction: SplitDirection::Horizontal }, NEW)),
        Some(("not_found", "surface not found"))
    );
    match m.handle_command(Request::SurfaceList, NEW) {
        Outcome::Reply(Reply::Surfaces(rows), _) => {
            assert_eq!(rows.len(), 4);
            assert_eq!(rows[0], (S1, W1, false));
            assert_eq!(rows[1], (NEW, W1, true));
            assert_eq!(rows[2], (S2, W2, false));
        }
        _ => panic!("surface list"),
    }
    match m.handle_command(Request::PaneList, NEW) {
        Outcome::Reply(Reply::Panes(panes), _) => {
            assert_eq!(panes.len(), 4);
            assert_eq!((panes[1].pane_id, panes[1].selected_surface, panes[1].focused), (2, Some(NEW), true));
            assert_eq!(panes[0].surface_ids, vec![S1]);
        }
        _ => panic!("pane list"),
    }
    assert_eq!(done(m.handle_command(Request::SurfaceFocus { id: text(S1) }, NEW)), Some(Effect::GrabFocus));
    assert_eq!(m.workspaces[0].layout.active_pane_id(), 1);
    assert_eq!(done(m.handle_command(Request::PaneFocus { id: Some("pane:2".into()) }, NEW)), Some(Effect::GrabFocus));
    assert_eq!(
        refused(m.handle_command(Request::PaneFocus { id: None }, NEW)),
        Some(("not_found", "pane not found"))
    );
    match m.handle_command(Request::SurfaceSendText { id: None, text: "ls".into() }, NEW) {
        Outcome::Native(Native::SendText(surface, sent)) => assert_eq!((surface, sent.as_str()), (NEW, "ls")),
        _ => panic!("send text"),
    }
    assert_eq!(
        refused(m.handle_command(Request::SurfaceSendKey { id: None, key: "ab".into() }, NEW)),
        Some(("not_supported", "send-key currently accepts one literal character"))
    );
    assert_eq!(
        refused(m.handle_command(Request::SurfaceReadText { id: Some(text(0x99)), scrollback: false }, NEW)),
        Some(("not_found", "live terminal surface not found"))
    );
    assert_eq!(
        refused(m.handle_command(Request::SurfaceClose { id: "not-a-uuid".into() }, NEW)),
        Some(("invalid_request", "invalid surface UUID"))
    );
    assert_eq!(done(m.handle_command(Request::SurfaceClose { id: text(NEW) }, NEW)), Some(Effect::CloseSurface(NEW)));
    assert_eq!(m.workspaces[0].tabs.len(), 1);
    assert_eq!(
        refused(m.handle_command(Request::SurfaceClose { id: text(S1) }, NEW)),
        Some(("close_failed", "cannot close last surface"))
    );
    assert!(matches!(m.handle_command(Request::Identify, NEW), Outcome::Elsewhere));
}

/// A resume command addresses the named surface in whichever workspace holds it, or the
/// surface the selected workspace's focused pane shows; an unknown surface is not found.
#[test]
fn resume_commands_find_their_surface() {
    let mut m = model();
    match m.handle_command(Request::SurfaceResume { id: Some(text(S3)), action: ResumeAction::Show }, NEW) {
        Outcome::Native(Native::Resume { workspace, surface, action: ResumeAction::Show }) => {
            assert_eq!((workspace, surface), (W3, S3))
        }
        _ => panic!("resume of a known surface"),
    }
    assert_eq!(m.active_index, 0);
    match m.handle_command(Request::SurfaceResume { id: None, action: ResumeAction::Show }, NEW) {
        Outcome::Native(Native::Resume { workspace, surface, .. }) => assert_eq!((workspace, surface), (W1, S1)),
        _ => panic!("resume of the focused surface"),
    }
    assert_eq!(
        refused(m.handle_command(
            Request::SurfaceResume { id: Some(text(NEW)), action: ResumeAction::Clear { checkpoint_id: None } },
            NEW
        )),
        Some(("not_found", "terminal surface not found"))
    );
}

/// A layout dump reports the selected workspace, and there is none without workspaces.
#[test]
fn layout_dump_reports_the_selected_workspace() {
    let mut m = model();
    m.active_index = 2;
    assert!(matches!(m.handle_command(Request::DebugLayout, NEW), Outcome::Native(Native::DumpLayout(W3))));
    let mut empty = AppModel { workspaces: vec![], active_index: 0 };
    assert_eq!(refused(empty.handle_command(Request::DebugLayout, NEW)), Some(("no_workspace", "no active workspace")));
    assert!(matches!(
        empty.handle_command(Request::SurfaceResume { id: None, action: ResumeAction::Show }, NEW),
        Outcome::Reply(Reply::Refused("not_found", _), _)
    ));
}

/// A local workspace is added last and selected, with one pane showing its new terminal; a
/// blank name is dropped unless the workspace is bound to a directory.
#[test]
fn created_workspace_is_added_and_selected() {
    let mut m = model();
    match m.create_workspace(Some("build".into()), None, NEW, S1 + 100) {
        Outcome::Reply(Reply::Created(u, None), Effect::ShowWorkspace) => assert_eq!(u, NEW),
        _ => panic!("created"),
    }
    assert_eq!((m.workspaces.len(), m.active_index), (4, 3));
    assert_eq!(m.workspaces[3].name, "build");
    assert_eq!(m.workspaces[3].tabs, vec![PaneTabs { pane_id: 1, surfaces: vec![S1 + 100], selected: Some(0) }]);
    m.create_workspace(Some("  ".into()), None, NEW + 1, S1 + 101);
    assert_eq!(m.workspaces[4].name, "");
    match m.create_workspace(Some("  ".into()), Some("/srv".into()), NEW + 2, S1 + 102) {
        Outcome::Reply(Reply::Created(_, Some(d)), _) => assert_eq!(d, "/srv"),
        _ => panic!("bound"),
    }
    assert_eq!(m.workspaces[5].name, "  ");
    assert_eq!(m.workspaces[5].working_directory.as_deref(), Some("/srv"));
}
