use global_ptt::{
    classify_mask, is_keyboard, Action, Controller, KeyEvent, MuteCommand, MuteState,
    Notification, Registry,
};

fn id(s: &str) -> String {
    s.to_string()
}

/// Runs the watcher's path for a ready notification: probe, then start.
fn attach(reg: &mut Registry<u32>, name: &str, device_name: Option<&str>, handle: u32) -> bool {
    match reg.on_notification(Notification::Ready, &id(name)) {
        Action::Probe => {
            if reg.on_probe(&id(name), device_name) {
                reg.on_started(handle).is_none()
            } else {
                false
            }
        }
        _ => false,
    }
}

#[test]
fn masks_are_classified() {
    assert_eq!(classify_mask(0x4), Notification::Ready);
    assert_eq!(classify_mask(0x200), Notification::Removed);
    assert_eq!(classify_mask(0x100), Notification::Other);
    assert_eq!(classify_mask(0x204), Notification::Other);
    assert_eq!(classify_mask(0), Notification::Other);
}

#[test]
fn keyboard_is_tracked_and_mouse_is_not() {
    let mut reg: Registry<u32> = Registry::new();
    assert!(attach(&mut reg, "event3", Some("Generic Keyboard"), 1));
    assert!(!attach(&mut reg, "event5", Some("USB Mouse"), 2));
    assert!(reg.contains(&id("event3")));
    assert!(!reg.contains(&id("event5")));

    // Only tracked devices have listeners feeding the controller.
    let stream = [KeyEvent { code: 45, value: 1 }, KeyEvent { code: 45, value: 0 }];
    let mut c = Controller::new(45);
    let mut effects = Vec::new();
    for dev in ["event3", "event5"] {
        if reg.contains(&id(dev)) {
            for ev in stream {
                if let Some(cmd) = c.handle_key(ev) {
                    effects.push((dev, cmd));
                }
            }
        }
    }
    assert_eq!(effects, vec![("event3", MuteCommand::Unmute), ("event3", MuteCommand::Mute)]);
    assert_eq!(c.state(), MuteState::Muted);
}

#[test]
fn rejected_device_hands_its_handle_back() {
    let mut reg: Registry<u32> = Registry::new();
    assert!(matches!(reg.on_notification(Notification::Ready, &id("event5")), Action::Probe));
    assert!(!reg.on_probe(&id("event5"), Some("USB Mouse")));
    assert_eq!(reg.on_started(9), Some(9));
    assert!(!reg.contains(&id("event5")));
    assert!(!reg.on_probe(&id("event6"), None));
    assert_eq!(reg.on_started(10), Some(10));
    assert!(!reg.contains(&id("event6")));
}

#[test]
fn start_without_probe_records_nothing() {
    let mut reg: Registry<u32> = Registry::new();
    assert_eq!(reg.on_started(3), Some(3));
    assert!(!reg.contains(&id("event3")));
}

#[test]
fn tracked_device_is_not_probed_again() {
    let mut reg: Registry<u32> = Registry::new();
    assert!(attach(&mut reg, "event3", Some("Generic Keyboard"), 1));
    assert!(matches!(reg.on_notification(Notification::Ready, &id("event3")), Action::Ignore));
    assert!(!reg.on_probe(&id("event3"), Some("Generic Keyboard")));
    assert_eq!(reg.on_started(2), Some(2));
    match reg.on_notification(Notification::Removed, &id("event3")) {
        Action::Release(h) => assert_eq!(h, 1),
        _ => panic!("expected the first listener's handle"),
    }
}

#[test]
fn delete_then_ready_readds_fresh_entry() {
    let mut reg: Registry<u32> = Registry::new();
    assert!(attach(&mut reg, "event3", Some("Generic Keyboard"), 1));
    assert!(attach(&mut reg, "event4", Some("Other Keyboard"), 4));
    match reg.on_notification(Notification::Removed, &id("event3")) {
        Action::Release(h) => assert_eq!(h, 1),
        _ => panic!("expected a released handle"),
    }
    assert!(!reg.contains(&id("event3")));
    assert!(reg.contains(&id("event4")));
    assert!(attach(&mut reg, "event3", Some("Generic Keyboard"), 7));
    assert!(reg.contains(&id("event3")));
    match reg.on_notification(Notification::Removed, &id("event3")) {
        Action::Release(h) => assert_eq!(h, 7),
        _ => panic!("expected the fresh handle"),
    }
}

#[test]
fn delete_of_untracked_and_other_notifications_are_ignored() {
    let mut reg: Registry<u32> = Registry::new();
    assert!(matches!(reg.on_notification(Notification::Removed, &id("event9")), Action::Ignore));
    assert!(attach(&mut reg, "event3", Some("Generic Keyboard"), 1));
    assert!(matches!(reg.on_notification(Notification::Other, &id("event3")), Action::Ignore));
    assert!(reg.contains(&id("event3")));
}

#[test]
fn classifier_and_registry_agree() {
    let mut reg: Registry<u32> = Registry::new();
    for (n, name) in [("event1", "Logitech USB Keyboard"), ("event2", "Power Button"), ("event7", "KEYBOARD")] {
        let accepted = attach(&mut reg, n, Some(name), 0);
        assert_eq!(accepted, is_keyboard(Some(name)));
        assert_eq!(reg.contains(&id(n)), is_keyboard(Some(name)));
    }
}
