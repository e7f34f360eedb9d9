use cmux::registry::{render_targets, Registry};

/// Keep directory reports isolated between terminals and discard them on retirement.
#[test]
fn directory_lifetime_and_surface_isolation() {
    let mut registry = Registry::new();
    let first = usize::MAX;
    let second = usize::MAX - 1;
    registry.register(first, u64::MAX, Some("/launch"));
    registry.register(second, u64::MAX - 1, None);
    assert_eq!(registry.working_directory(first), "/launch");
    assert_eq!(registry.working_directory(second), "");
    registry.set_working_directory(first, "/first");
    registry.set_working_directory(second, "/second");
    assert_eq!(registry.working_directory(first), "/first");
    assert_eq!(registry.working_directory(second), "/second");
    assert_eq!(registry.pane_id(first), Some(u64::MAX));
    assert_eq!(registry.first_surface(u64::MAX), Some(first));
    registry.unregister(first);
    registry.set_working_directory(first, "/late");
    assert_eq!(registry.working_directory(first), "");
    assert_eq!(registry.pane_id(first), None);
    registry.register(first, u64::MAX, None);
    assert_eq!(registry.working_directory(first), "");
    registry.unregister(first);
    registry.unregister(second);
    assert_eq!(registry.live_count(), 0);
}

/// Re-registering a surface replaces its record instead of duplicating it.
#[test]
fn reregistration_replaces_record() {
    let mut registry = Registry::new();
    registry.register(7, 1, Some("/a"));
    registry.register(7, 2, Some("/b"));
    assert_eq!(registry.live_count(), 1);
    assert_eq!(registry.pane_id(7), Some(2));
    assert_eq!(registry.first_surface(1), None);
    assert_eq!(registry.working_directory(7), "/b");
}

/// A surface redraw reaches its own widget; an application redraw reaches every widget.
#[test]
fn render_targets_route_redraws() {
    let mappings = vec![(10, 1), (20, 2), (30, 2)];
    assert_eq!(render_targets(&mappings, Some(2)), vec![20]);
    assert_eq!(render_targets(&mappings, Some(9)), Vec::<usize>::new());
    assert_eq!(render_targets(&mappings, None), vec![10, 20, 30]);
}
