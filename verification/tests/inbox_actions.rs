use cmux::inbox::{Action, Content, Inbox, Record, Scope};
use cmux::inbox_actions::{
    clear, created_read, dismiss, handle, has_unread, jump_to_unread, mark_opened, mark_read,
    in_scope, open_target, unread_panes, InboxError, Outcome, WorkspaceView, Workspaces,
};
use cmux::pane_tree::{PaneLayout, PaneTabs};

const W1: u128 = 0x11;
const W2: u128 = 0x22;
const S1: u128 = 0x101;
const S2: u128 = 0x102;
const S3: u128 = 0x201;

fn content(title: &str) -> Content {
    Content {
        title: title.to_owned(),
        subtitle: String::new(),
        body: String::new(),
    }
}

fn record(id: u128, workspace_id: u128, surface_id: u128, is_read: bool) -> Record {
    Record {
        id,
        workspace_id,
        surface_id,
        content: content("t"),
        created_at: "1".to_owned(),
        is_read,
    }
}

fn workspaces() -> Workspaces {
    Workspaces {
        rows: vec![
            WorkspaceView {
                id: W1,
                surfaces: vec![S1, S2],
                active_surface: Some(S2),
            },
            WorkspaceView {
                id: W2,
                surfaces: vec![S3],
                active_surface: None,
            },
        ],
        active_index: 0,
    }
}

fn scope(workspace_id: Option<u128>, surface_id: Option<u128>) -> Scope {
    Scope {
        workspace_id,
        surface_id,
    }
}

fn ids(inbox: &Inbox) -> Vec<u128> {
    inbox.records.iter().map(|record| record.id).collect()
}

#[test]
fn targeting_resolves_and_rejects_conflicts() {
    let ws = workspaces();
    assert_eq!(ws.target(&scope(None, None)), Ok((0, S2)));
    assert_eq!(ws.target(&scope(None, Some(S3))), Ok((1, S3)));
    assert_eq!(ws.target(&scope(Some(W1), Some(S1))), Ok((0, S1)));
    assert_eq!(
        ws.target(&scope(Some(W1), Some(S3))),
        Err(InboxError::SurfaceOutsideWorkspace)
    );
    assert_eq!(
        ws.target(&scope(None, Some(0x999))),
        Err(InboxError::SurfaceNotFound)
    );
    assert_eq!(
        ws.target(&scope(Some(0x999), None)),
        Err(InboxError::WorkspaceNotFound)
    );
    assert_eq!(
        ws.target(&scope(Some(W2), None)),
        Err(InboxError::SurfaceNotFound)
    );
    let mut empty = workspaces();
    empty.active_index = 5;
    assert_eq!(
        empty.target(&scope(None, None)),
        Err(InboxError::WorkspaceNotFound)
    );
    assert_eq!(InboxError::SurfaceOutsideWorkspace.code(), "not_found");
    assert_eq!(
        InboxError::SurfaceOutsideWorkspace.message(),
        "surface is not in the selected workspace"
    );
    assert_eq!(
        InboxError::NotificationNotFound.message(),
        "notification not found"
    );
}

#[test]
fn clear_mark_and_dismiss_follow_selectors() {
    let ws = workspaces();
    let mut inbox = Inbox {
        records: vec![
            record(1, W1, S1, false),
            record(2, W1, S2, true),
            record(3, W2, S3, false),
            record(4, W1, S1, false),
        ],
    };
    assert!(in_scope(&inbox.records[0], &scope(Some(W1), Some(S1))));
    assert!(!in_scope(&inbox.records[2], &scope(Some(W1), None)));

    assert_eq!(
        mark_read(&mut inbox, Some(9), &scope(None, None), false),
        Err(InboxError::NotificationNotFound)
    );
    assert_eq!(mark_read(&mut inbox, None, &scope(None, Some(S1)), false), Ok(2));
    assert!(inbox.records[0].is_read && inbox.records[3].is_read && !inbox.records[2].is_read);
    assert_eq!(mark_read(&mut inbox, None, &scope(None, Some(S1)), false), Ok(0));
    assert!(has_unread(&inbox, W2, S3));
    assert!(!has_unread(&inbox, W1, S1));
    assert_eq!(jump_to_unread(&inbox), Some(3));

    assert_eq!(
        dismiss(&mut inbox, Some(9), false),
        Err(InboxError::NotificationNotFound)
    );
    assert_eq!(dismiss(&mut inbox, Some(3), true), Ok(4));
    assert!(inbox.records.is_empty());
    assert_eq!(jump_to_unread(&inbox), None);

    let mut inbox = Inbox {
        records: vec![
            record(1, W1, S1, false),
            record(2, W2, S3, false),
            record(3, W1, S2, false),
        ],
    };
    assert_eq!(
        clear(&mut inbox, &ws, &scope(Some(0x999), None)),
        Err(InboxError::WorkspaceNotFound)
    );
    assert_eq!(ids(&inbox), vec![1, 2, 3]);
    assert_eq!(clear(&mut inbox, &ws, &scope(Some(W1), None)), Ok(vec![0]));
    assert_eq!(ids(&inbox), vec![2]);
    assert_eq!(clear(&mut inbox, &ws, &scope(None, None)), Ok(vec![0, 1]));
    assert!(inbox.records.is_empty());
}

#[test]
fn open_targets_the_recorded_surface() {
    let mut ws = workspaces();
    let mut inbox = Inbox {
        records: vec![record(1, W1, S1, false), record(2, W2, S3, false)],
    };
    assert_eq!(open_target(&inbox, &ws, 2), Ok((1, S3)));
    assert_eq!(
        open_target(&inbox, &ws, 7),
        Err(InboxError::NotificationNotFound)
    );
    assert!(mark_opened(&mut inbox, 2));
    assert!(inbox.records[1].is_read && !inbox.records[0].is_read);
    assert!(!mark_opened(&mut inbox, 7));
    ws.rows[1].surfaces.clear();
    assert_eq!(
        open_target(&inbox, &ws, 2),
        Err(InboxError::SurfaceNotFound)
    );
    assert!(created_read(&workspaces(), 0, S2, true));
    assert!(!created_read(&workspaces(), 0, S1, true));
    assert!(!created_read(&workspaces(), 0, S2, false));
    assert!(!created_read(&workspaces(), 1, S3, true));
}

#[test]
fn handle_applies_each_operation() {
    let ws = workspaces();
    let mut inbox = Inbox::default();
    let created = handle(
        &mut inbox,
        &ws,
        Action::Create {
            scope: scope(None, None),
            content: content("hello"),
        },
        42,
        "2024".to_owned(),
        true,
    );
    assert!(matches!(
        created,
        Ok(Outcome::Created { id: 42, workspace_id: W1, surface_id: S2 })
    ));
    assert_eq!(inbox.records.len(), 1);
    assert!(inbox.records[0].is_read);
    assert_eq!(inbox.records[0].content.title, "hello");
    let created = handle(
        &mut inbox,
        &ws,
        Action::Create {
            scope: scope(None, Some(S3)),
            content: content("other"),
        },
        43,
        "2024".to_owned(),
        true,
    );
    assert!(matches!(created, Ok(Outcome::Created { id: 43, .. })));
    assert!(!inbox.records[1].is_read);
    let refused = handle(
        &mut inbox,
        &ws,
        Action::Create {
            scope: scope(Some(W2), Some(S1)),
            content: content("x"),
        },
        44,
        "2024".to_owned(),
        true,
    );
    assert!(matches!(refused, Err(InboxError::SurfaceOutsideWorkspace)));
    assert_eq!(inbox.records.len(), 2);

    let jump = handle(&mut inbox, &ws, Action::JumpToUnread, 0, String::new(), true);
    assert!(matches!(
        jump,
        Ok(Outcome::Focus { index: 1, surface_id: S3, id: 43 })
    ));
    let marked = handle(
        &mut inbox,
        &ws,
        Action::MarkRead {
            id: None,
            scope: scope(None, None),
            all: true,
        },
        0,
        String::new(),
        true,
    );
    assert!(matches!(marked, Ok(Outcome::MarkedRead(1))));
    let jump = handle(&mut inbox, &ws, Action::JumpToUnread, 0, String::new(), true);
    assert!(matches!(jump, Ok(Outcome::NothingUnread)));
    let dismissed = handle(
        &mut inbox,
        &ws,
        Action::Dismiss {
            id: None,
            all_read: true,
        },
        0,
        String::new(),
        true,
    );
    assert!(matches!(
        dismissed,
        Ok(Outcome::Dismissed { count: 2, all_read: true })
    ));
    let cleared = handle(
        &mut inbox,
        &ws,
        Action::Clear(scope(None, Some(S1))),
        0,
        String::new(),
        true,
    );
    match cleared {
        Ok(Outcome::Cleared {
            scope_workspace,
            scope_surface,
            attention,
        }) => {
            assert_eq!(scope_workspace, None);
            assert_eq!(scope_surface, Some(S1));
            assert!(attention.is_empty());
        }
        other => panic!("unexpected {other:?}"),
    }
    let open = handle(&mut inbox, &ws, Action::Open(99), 0, String::new(), true);
    assert!(matches!(open, Err(InboxError::NotificationNotFound)));
}

/// Unread rings go to the panes whose surfaces have unread notifications of their workspace.
#[test]
fn unread_rings_follow_surfaces() {
    let mut layout = PaneLayout::new(1);
    assert_eq!(layout.split_active(), Some(2));
    let tabs = vec![
        PaneTabs { pane_id: 1, surfaces: vec![S1], selected: Some(0) },
        PaneTabs { pane_id: 2, surfaces: vec![S2, S3], selected: Some(0) },
    ];
    let records = vec![
        record(1, W1, S1, true),
        record(2, W1, S2, false),
        record(3, W2, S1, false),
        record(4, W1, 0x999, false),
    ];
    assert_eq!(unread_panes(&layout, &tabs, &records, W1), vec![(1, false), (2, true)]);
    assert_eq!(unread_panes(&layout, &tabs, &records, W2), vec![(1, true), (2, false)]);
    assert_eq!(unread_panes(&layout, &tabs, &Vec::new(), W1), vec![(1, false), (2, false)]);
}
