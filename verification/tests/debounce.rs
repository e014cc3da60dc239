use i3owm::level::Level;
use i3owm::notify::Notify;
use i3owm::notify::NotifyAction;

#[test]
fn soon_notifies_exactly_once_per_run() {
    let mut n = Notify::new(false);
    let mut emitted = 0;
    for _ in 0..10 {
        if n.notification(0, Level::SOON).is_some() {
            emitted += 1;
        }
    }
    assert_eq!(emitted, 1);
    // one intervening evaluation at another level re-arms it
    assert_eq!(n.notification(0, Level::NONE), None);
    assert_eq!(n.notification(0, Level::SOON), Some(NotifyAction::AnnounceSoon));
    assert_eq!(n.notification(0, Level::SOON), None);
}

#[test]
fn watch_notifies_once_with_remaining_duration() {
    let mut n = Notify::new(false);
    assert_eq!(
        n.notification(42000, Level::WATCH),
        Some(NotifyAction::AnnounceWatch { timeout_ms: 42000 })
    );
    assert_eq!(n.notification(42000, Level::WATCH), None);
}

#[test]
fn soon_then_watch_in_one_pass() {
    // a SOON announcement leaves the WATCH announcement armed
    let mut n = Notify::new(false);
    assert_eq!(n.notification(0, Level::SOON), Some(NotifyAction::AnnounceSoon));
    assert_eq!(
        n.notification(9000, Level::WATCH),
        Some(NotifyAction::AnnounceWatch { timeout_ms: 9000 })
    );
    assert_eq!(n.notification(9000, Level::WATCH), None);
}

#[test]
fn suppressed_debouncer_stays_silent() {
    let mut n = Notify::new(true);
    for _ in 0..3 {
        assert_eq!(n.notification(0, Level::SOON), None);
        assert_eq!(n.notification(0, Level::WATCH), None);
        assert_eq!(n.notification(0, Level::NONE), None);
    }
}

#[test]
fn other_levels_never_notify() {
    let mut n = Notify::new(false);
    assert_eq!(n.notification(0, Level::NONE), None);
    assert_eq!(n.notification(0, Level::RISE), None);
    assert_eq!(n.notification(0, Level::FAR), None);
}
