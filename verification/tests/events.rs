use cmux::events::{Event, Pending, CAPACITY, PER_TURN};

/// Bell coalescing must not discard other panes or repeated terminal creation requests.
#[test]
fn burst_order_and_coalescing() {
    let mut pending = Pending::default();
    for event in [
        Event::Bell(1),
        Event::Bell(2),
        Event::Bell(1),
        Event::NewTerminalTab(1),
        Event::NewTerminalTab(1),
    ] {
        assert!(pending.push(event));
    }
    assert_eq!(
        pending.take(),
        (
            vec![
                Event::Bell(1),
                Event::Bell(2),
                Event::NewTerminalTab(1),
                Event::NewTerminalTab(1)
            ],
            0
        )
    );
    assert!(pending.take().0.is_empty());
}

/// Capacity rejection is observable and draining bounds GTK work while restoring admission.
#[test]
fn bounded_capacity_and_turn_budget() {
    let mut pending = Pending::default();
    for pane in 0..CAPACITY as u64 {
        assert!(pending.push(Event::NewTerminalTab(pane)));
    }
    assert!(!pending.push(Event::Bell(500)));
    let (events, dropped) = pending.take();
    assert_eq!(events.len(), PER_TURN);
    assert_eq!(events[0], Event::NewTerminalTab(0));
    assert_eq!(dropped, 1);
    assert!(pending.push(Event::Bell(500)));
    assert_eq!(pending.take().1, 0);
    assert_eq!(pending.events.back(), Some(&Event::Bell(500)));
}

/// Arrival order survives several turns, and a coalesced bell returns once its earlier copy is taken.
#[test]
fn events_keep_order_across_turns() {
    let mut pending = Pending::default();
    for pane in 0..20u64 {
        assert!(pending.push(Event::Bell(pane)));
    }
    let (first, dropped) = pending.take();
    assert_eq!(dropped, 0);
    assert_eq!(first.len(), PER_TURN);
    assert_eq!(first[15], Event::Bell(15));
    assert!(pending.push(Event::Bell(3)));
    let (second, _) = pending.take();
    assert_eq!(second, vec![Event::Bell(16), Event::Bell(17), Event::Bell(18), Event::Bell(19), Event::Bell(3)]);
}
