use sworkstyle::engine::{CompositorPoll, Sworkstyle, Turn};

#[test]
fn watch_needs_path_and_file() {
    assert!(Sworkstyle::new(true, true, false).watching);
    assert!(!Sworkstyle::new(true, false, false).watching);
    assert!(!Sworkstyle::new(false, false, true).watching);
    assert!(Sworkstyle::new(false, false, true).deduplicate);
}

#[test]
fn broken_connection_stops() {
    let s = Sworkstyle::new(true, true, false);
    assert_eq!(s.turn(CompositorPoll::Broken, true), Turn::Stop);
}

#[test]
fn event_asks_for_update() {
    let s = Sworkstyle::new(false, false, false);
    assert_eq!(s.turn(CompositorPoll::Event, false), Turn::Proceed { update: true, reload: false });
    assert_eq!(s.turn(CompositorPoll::Pending, false), Turn::Proceed { update: false, reload: false });
    assert_eq!(s.turn(CompositorPoll::Closed, false), Turn::Proceed { update: false, reload: false });
}

#[test]
fn write_reloads_only_when_watched() {
    let watched = Sworkstyle::new(true, true, false);
    assert_eq!(watched.turn(CompositorPoll::Pending, true), Turn::Proceed { update: false, reload: true });
    let unwatched = Sworkstyle::new(true, false, false);
    assert_eq!(unwatched.turn(CompositorPoll::Event, true), Turn::Proceed { update: true, reload: false });
}
