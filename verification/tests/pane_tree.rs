use cmux::pane_tree::{
    empty_panes, find_adjacent, restore_layout, restore_tree, CloseSurfaceResult, FocusDirection, PaneLayout,
    PaneTabs, PaneTree, SavedNode, MAX_LAYOUT_DEPTH,
};

fn leaf(id: u64) -> PaneTree {
    PaneTree::Leaf { pane_id: id, has_attention: false }
}

fn tabs_of(pane_id: u64, surfaces: Vec<u128>, selected: Option<usize>) -> PaneTabs {
    PaneTabs { pane_id, surfaces, selected }
}

fn split(start: PaneTree, end: PaneTree) -> PaneTree {
    PaneTree::Split { start: Box::new(start), end: Box::new(end) }
}

/// Validate both branches before GTK construction, accepting exactly the shared depth bound.
#[test]
fn depth_preflight_checks_late_branches() {
    let mut tree = leaf(1);
    for _ in 0..MAX_LAYOUT_DEPTH {
        tree = split(leaf(1), tree);
    }
    assert!(tree.valid_depth(0));
    let too_deep = split(leaf(1), tree);
    assert!(!too_deep.valid_depth(0));
}

/// Directional focus follows traversal order and stops at the ends.
#[test]
fn adjacent_panes_follow_traversal_order() {
    let tree = split(split(leaf(1), leaf(2)), leaf(3));
    let mut order = Vec::new();
    tree.collect_leaves_in_order(&mut order);
    assert_eq!(order, vec![1, 2, 3]);
    assert_eq!(find_adjacent(&tree, 2, FocusDirection::Left), Some(1));
    assert_eq!(find_adjacent(&tree, 2, FocusDirection::Down), Some(3));
    assert_eq!(find_adjacent(&tree, 1, FocusDirection::Up), None);
    assert_eq!(find_adjacent(&tree, 3, FocusDirection::Right), None);
    assert_eq!(find_adjacent(&tree, 9, FocusDirection::Right), None);
    assert_eq!(tree.first_pane_id(), 1);
}

/// Attention is set on one pane, reported, and cleared everywhere.
#[test]
fn attention_is_local_and_clearable() {
    let mut tree = split(leaf(1), split(leaf(2), leaf(3)));
    assert!(!tree.any_attention());
    assert!(tree.set_attention(3, true));
    assert!(!tree.set_attention(7, true));
    assert!(tree.pane_has_attention(3));
    assert!(!tree.pane_has_attention(2));
    assert!(tree.any_attention());
    tree.clear_all_attention();
    assert!(!tree.any_attention());
}

/// Removing a pane collapses its split into the sibling and reports the sibling's first pane.
#[test]
fn removing_a_leaf_collapses_its_split() {
    let mut tree = split(leaf(1), split(leaf(2), leaf(3)));
    assert_eq!(tree.remove_leaf_from_tree(2), Some(3));
    let mut order = Vec::new();
    tree.collect_leaves_in_order(&mut order);
    assert_eq!(order, vec![1, 3]);
    assert_eq!(tree.remove_leaf_from_tree(1), Some(3));
    assert_eq!(tree.remove_leaf_from_tree(3), None);
    assert_eq!(tree.first_pane_id(), 3);
}

/// Splitting a pane places the new pane right after it; an absent pane changes nothing.
#[test]
fn splitting_inserts_after_the_pane() {
    let mut tree = split(leaf(1), split(leaf(2), leaf(3)));
    assert!(tree.split_leaf(2, 9));
    let mut order = Vec::new();
    tree.collect_leaves_in_order(&mut order);
    assert_eq!(order, vec![1, 2, 9, 3]);
    assert!(!tree.split_leaf(42, 10));
    let mut again = Vec::new();
    tree.collect_leaves_in_order(&mut again);
    assert_eq!(again, vec![1, 2, 9, 3]);
    let mut single = leaf(5);
    assert!(single.split_leaf(5, 6));
    assert_eq!(find_adjacent(&single, 5, FocusDirection::Right), Some(6));
}

fn order(layout: &PaneLayout) -> Vec<u64> {
    let mut out = Vec::new();
    layout.root().collect_leaves_in_order(&mut out);
    out
}

/// Splits focus the new pane, closing focuses the sibling, and closing a split's new pane
/// restores the layout.
#[test]
fn layout_splits_focus_and_close() {
    let mut layout = PaneLayout::new(1);
    assert_eq!(layout.close_active(), None);
    assert_eq!(layout.split_active(), Some(2));
    assert_eq!(layout.active_pane_id(), 2);
    assert_eq!(layout.split_active(), Some(3));
    assert_eq!(order(&layout), vec![1, 2, 3]);
    assert!(layout.focus_next_in_direction(FocusDirection::Left));
    assert_eq!(layout.active_pane_id(), 2);
    assert!(!layout.activate_pane(7));
    assert!(layout.activate_pane(1));
    assert!(!layout.focus_next_in_direction(FocusDirection::Up));
    assert_eq!(layout.split_active(), Some(4));
    assert_eq!(order(&layout), vec![1, 4, 2, 3]);
    assert_eq!(layout.close_active(), Some(1));
    assert_eq!(order(&layout), vec![1, 2, 3]);
    assert!(layout.activate_pane(3));
    assert_eq!(layout.close_active(), Some(2));
    assert_eq!(order(&layout), vec![1, 2]);
    assert_eq!(layout.active_pane_id(), 2);
}

/// Closing a tab focuses its pane; a pane's last tab closes the pane unless it is the last one.
#[test]
fn surface_tabs_close_then_panes() {
    let mut layout = PaneLayout::new(1);
    assert_eq!(layout.split_active(), Some(2));
    let mut tabs = vec![tabs_of(1, vec![0xa, 0xb], Some(1)), tabs_of(2, vec![0xc], Some(0))];
    assert_eq!(
        layout.close_surface_tab(&mut tabs, 0xff),
        CloseSurfaceResult::NotFound
    );
    assert_eq!(
        layout.close_surface_tab(&mut tabs, 0xb),
        CloseSurfaceResult::Closed
    );
    assert_eq!(tabs, vec![tabs_of(1, vec![0xa], Some(0)), tabs_of(2, vec![0xc], Some(0))]);
    assert_eq!(layout.active_pane_id(), 1);
    assert_eq!(
        layout.close_surface_tab(&mut tabs, 0xc),
        CloseSurfaceResult::LastSurfaceInPane
    );
    assert_eq!(layout.active_pane_id(), 2);
    assert_eq!(
        layout.close_surface_and_empty_pane(&mut tabs, 0xc),
        CloseSurfaceResult::Closed
    );
    assert_eq!(tabs, vec![tabs_of(1, vec![0xa], Some(0))]);
    assert_eq!(layout.active_pane_id(), 1);
    assert_eq!(
        layout.close_surface_and_empty_pane(&mut tabs, 0xa),
        CloseSurfaceResult::LastSurfaceInPane
    );
    assert_eq!(tabs, vec![tabs_of(1, vec![0xa], Some(0))]);
    let mut stray = vec![tabs_of(9, vec![0xd, 0xe], None)];
    assert_eq!(
        layout.close_surface_tab(&mut stray, 0xd),
        CloseSurfaceResult::NotFound
    );
}

/// Surfaces are found in traversal order, and the shown tab follows a closed tab's neighbour.
#[test]
fn surface_lookup_and_tab_selection() {
    let mut layout = PaneLayout::new(1);
    assert_eq!(layout.split_active(), Some(2));
    assert!(layout.activate_pane(1));
    assert_eq!(layout.split_active(), Some(3));
    let mut tabs = vec![
        tabs_of(2, vec![0x20, 0x21, 0x22], Some(2)),
        tabs_of(3, vec![0x30], Some(0)),
        tabs_of(1, vec![0x10], Some(0)),
    ];
    assert_eq!(layout.find_pane_id_by_uuid(&tabs, 0x21), Some(2));
    assert_eq!(layout.find_pane_id_by_uuid(&tabs, 0x30), Some(3));
    assert_eq!(layout.find_pane_id_by_uuid(&tabs, 0x99), None);
    assert_eq!(layout.close_surface_tab(&mut tabs, 0x20), CloseSurfaceResult::Closed);
    assert_eq!(tabs[0], tabs_of(2, vec![0x21, 0x22], Some(1)));
    assert_eq!(layout.close_surface_tab(&mut tabs, 0x22), CloseSurfaceResult::Closed);
    assert_eq!(tabs[0], tabs_of(2, vec![0x21], Some(0)));
    assert_eq!(layout.active_pane_id(), 2);
}

/// Listings follow traversal order; only the focused pane's shown tab is active.
#[test]
fn pane_listing_and_surface_focus() {
    let mut layout = PaneLayout::new(1);
    assert_eq!(layout.split_active(), Some(2));
    let mut tabs = vec![
        tabs_of(2, vec![0x20, 0x21], Some(1)),
        tabs_of(1, vec![0x10], None),
    ];
    assert_eq!(
        layout.all_panes(&tabs),
        vec![(0x10, 1, false), (0x20, 2, false), (0x21, 2, true)]
    );
    assert_eq!(layout.active_pane_uuid(&tabs), Some(0x21));
    assert_eq!(layout.find_uuid_for_pane(&tabs, 1), Some(0x10));
    assert_eq!(layout.find_uuid_for_pane(&tabs, 7), None);
    let info = layout.pane_info(&tabs);
    assert_eq!(info.len(), 2);
    assert_eq!((info[0].id, info[0].surface_ids.clone(), info[0].selected_surface), (1, vec![0x10], None));
    assert_eq!(
        (info[1].id, info[1].surface_ids.clone(), info[1].selected_surface),
        (2, vec![0x20, 0x21], Some(0x21))
    );
    assert!(layout.focus_surface(&mut tabs, 0x20));
    assert_eq!(tabs[0].selected, Some(0));
    assert_eq!(layout.active_pane_id(), 2);
    assert!(layout.focus_surface(&mut tabs, 0x10));
    assert_eq!(layout.active_pane_id(), 1);
    assert_eq!(layout.active_pane_uuid(&tabs), Some(0x10));
    assert!(!layout.focus_surface(&mut tabs, 0x99));
    assert_eq!(layout.active_pane_id(), 1);
}

/// A pane reference is `pane:` and a number, or the text of one of the pane's surfaces.
#[test]
fn pane_references_focus_without_switching_tabs() {
    let mut layout = PaneLayout::new(1);
    assert_eq!(layout.split_active(), Some(2));
    let surface: u128 = 0x0123_4567_89ab_cdef_0011_2233_4455_6677;
    let tabs = vec![
        tabs_of(1, vec![surface, 0x10], Some(1)),
        tabs_of(2, vec![0x20], Some(0)),
    ];
    assert!(layout.focus_pane_ref(&tabs, "pane:1"));
    assert_eq!(layout.active_pane_id(), 1);
    assert!(layout.focus_pane_ref(&tabs, "pane:+2"));
    assert_eq!(layout.active_pane_id(), 2);
    assert!(!layout.focus_pane_ref(&tabs, "pane:9"));
    assert!(!layout.focus_pane_ref(&tabs, "pane:"));
    assert!(!layout.focus_pane_ref(&tabs, "pane:x1"));
    assert_eq!(layout.active_pane_id(), 2);
    assert!(layout.focus_pane_ref(&tabs, "01234567-89ab-cdef-0011-223344556677"));
    assert_eq!(layout.active_pane_id(), 1);
    assert_eq!(tabs[0].selected, Some(1));
    assert!(!layout.focus_pane_ref(&tabs, "01234567-89AB-CDEF-0011-223344556677"));
    assert!(!layout.focus_pane_ref(&tabs, "0123456789abcdef0011223344556677"));
}

/// UUID text is lower-case hexadecimal grouped 8-4-4-4-12, as the uuid crate displays it.
#[test]
fn uuid_text_matches_uuid_display() {
    for value in [0u128, 1, u128::MAX, 0x0123_4567_89ab_cdef_0011_2233_4455_6677] {
        let text: String = cmux::ids::uuid_text(value).into_iter().collect();
        assert_eq!(text, uuid::Uuid::from_u128(value).to_string());
    }
}

fn saved_split(start: SavedNode, end: SavedNode) -> SavedNode {
    SavedNode::Split { start: Box::new(start), end: Box::new(end) }
}

fn tree_order(tree: &PaneTree) -> Vec<u64> {
    let mut out = Vec::new();
    tree.collect_leaves_in_order(&mut out);
    out
}

/// A saved session restores its panes numbered in order, each with its tabs as saved and the
/// saved tab shown; an empty pane gets a fresh terminal.
#[test]
fn saved_tree_restores_panes_and_tabs() {
    let saved = saved_split(
        SavedNode::Leaf { surface: 10 },
        saved_split(
            SavedNode::Pane { active: Some(22), surfaces: vec![21, 22, 23] },
            SavedNode::Pane { active: None, surfaces: vec![] },
        ),
    );
    assert_eq!(empty_panes(&saved), 1);
    let (tree, tabs, next) = restore_tree(&saved, 100, 0, &vec![99]).unwrap();
    assert_eq!(tree_order(&tree), vec![100, 101, 102]);
    assert_eq!(next, 103);
    assert_eq!(
        tabs,
        vec![
            tabs_of(100, vec![10], Some(0)),
            tabs_of(101, vec![21, 22, 23], Some(1)),
            tabs_of(102, vec![99], Some(0)),
        ]
    );
    let unknown = SavedNode::Pane { active: Some(7), surfaces: vec![5, 6] };
    let (_, tabs, _) = restore_tree(&unknown, 1, 0, &vec![]).unwrap();
    assert_eq!(tabs, vec![tabs_of(1, vec![5, 6], Some(0))]);
}

/// Restore refuses a tree nested past the depth bound and pane ids that would run out.
#[test]
fn saved_tree_restore_refuses_depth_and_exhausted_ids() {
    let mut deep = SavedNode::Leaf { surface: 1 };
    for _ in 0..=MAX_LAYOUT_DEPTH {
        deep = saved_split(deep, SavedNode::Leaf { surface: 2 });
    }
    assert!(restore_tree(&deep, 1, 0, &vec![]).is_none());
    let two = saved_split(SavedNode::Leaf { surface: 1 }, SavedNode::Leaf { surface: 2 });
    assert!(restore_tree(&two, u64::MAX - 1, 0, &vec![]).is_none());
    assert!(restore_tree(&two, u64::MAX - 2, 0, &vec![]).is_some());
}

/// A restored layout focuses the pane holding the saved focused surface, else the first pane.
#[test]
fn restored_layout_focuses_saved_surface() {
    let saved = saved_split(
        SavedNode::Leaf { surface: 10 },
        SavedNode::Pane { active: None, surfaces: vec![30, 31] },
    );
    let (layout, _) = restore_layout(&saved, Some(31), 5, &vec![]).unwrap();
    assert_eq!((layout.active_pane_id(), layout.next_pane_id()), (6, 7));
    let (layout, _) = restore_layout(&saved, Some(77), 5, &vec![]).unwrap();
    assert_eq!(layout.active_pane_id(), 5);
    let (layout, _) = restore_layout(&saved, None, 5, &vec![]).unwrap();
    assert_eq!(layout.active_pane_id(), 5);
}
