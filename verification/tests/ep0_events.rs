use orbit_rs::capture::ep0::{
    handle_events, Ep0Action, FFS_EVENT_SIZE, FUNCTIONFS_DISABLE, FUNCTIONFS_ENABLE, FUNCTIONFS_SETUP,
    FUNCTIONFS_UNBIND,
};

fn event(kind: u8, request_type: u8) -> Vec<u8> {
    let mut e = vec![0u8; FFS_EVENT_SIZE];
    e[0] = request_type;
    e[8] = kind;
    e
}

fn actions(enabled: bool, ev: &[u8]) -> Vec<(bool, Ep0Action)> {
    handle_events(enabled, ev).iter().map(|s| (s.enabled, s.action)).collect()
}

#[test]
fn only_changes_are_reported() {
    let mut ev = event(FUNCTIONFS_ENABLE, 0);
    ev.extend(event(FUNCTIONFS_ENABLE, 0));
    ev.extend(event(FUNCTIONFS_DISABLE, 0));
    ev.extend(event(FUNCTIONFS_DISABLE, 0));
    assert_eq!(
        actions(false, &ev),
        vec![
            (true, Ep0Action::Enabled),
            (true, Ep0Action::Quiet),
            (false, Ep0Action::Disabled),
            (false, Ep0Action::Quiet),
        ]
    );
}

#[test]
fn unbinding_disables() {
    assert_eq!(actions(true, &event(FUNCTIONFS_UNBIND, 0)), vec![(false, Ep0Action::Unbound)]);
    assert_eq!(actions(false, &event(FUNCTIONFS_UNBIND, 0)), vec![(false, Ep0Action::Unbound)]);
}

#[test]
fn requests_are_stalled_against_their_direction() {
    assert_eq!(
        actions(true, &event(FUNCTIONFS_SETUP, 0x40)),
        vec![(true, Ep0Action::StallByWriting)]
    );
    assert_eq!(
        actions(false, &event(FUNCTIONFS_SETUP, 0xC0)),
        vec![(false, Ep0Action::StallByReading)]
    );
}

#[test]
fn other_events_say_nothing() {
    for kind in [0u8, 5, 6, 200] {
        assert_eq!(actions(true, &event(kind, 0)), vec![(true, Ep0Action::Quiet)]);
    }
}

#[test]
fn a_torn_event_is_passed_over() {
    let mut ev = event(FUNCTIONFS_ENABLE, 0);
    ev.extend([0u8; FFS_EVENT_SIZE - 1]);
    assert_eq!(actions(false, &ev).len(), 1);
    assert!(actions(false, &[]).is_empty());
}

#[test]
fn batches_can_be_cut_between_events() {
    let mut ev = event(FUNCTIONFS_ENABLE, 0);
    ev.extend(event(FUNCTIONFS_SETUP, 0x80));
    ev.extend(event(FUNCTIONFS_DISABLE, 0));
    let whole = actions(false, &ev);
    let mut parts = actions(false, &ev[..FFS_EVENT_SIZE]);
    parts.extend(actions(true, &ev[FFS_EVENT_SIZE..]));
    assert_eq!(parts, whole);
}
