use global_ptt::{Controller, KeyEvent, MuteCommand, MuteState, RawEvent};

const KEY_X: u16 = 45;
const KEY_A: u16 = 30;

fn key(code: u16, value: i32) -> KeyEvent {
    KeyEvent { code, value }
}

fn raw(kind: u16, code: u16, value: i32) -> RawEvent {
    RawEvent { kind, code, value }
}

#[test]
fn new_controller_starts_muted() {
    let c = Controller::new(KEY_X);
    assert_eq!(c.state(), MuteState::Muted);
    assert_eq!(c.target(), KEY_X);
}

#[test]
fn press_unmutes_and_release_mutes() {
    let mut c = Controller::new(KEY_X);
    assert_eq!(c.handle_key(key(KEY_X, 1)), Some(MuteCommand::Unmute));
    assert_eq!(c.state(), MuteState::Unmuted);
    assert_eq!(c.handle_key(key(KEY_X, 0)), Some(MuteCommand::Mute));
    assert_eq!(c.state(), MuteState::Muted);
}

#[test]
fn press_then_release_with_noise_between() {
    let mut c = Controller::new(KEY_X);
    let mut effects = Vec::new();
    for ev in [key(KEY_X, 1), key(KEY_X, 2), key(KEY_A, 1), key(KEY_X, 2), key(KEY_A, 0), key(KEY_X, 0)] {
        if let Some(cmd) = c.handle_key(ev) {
            effects.push(cmd);
        }
    }
    assert_eq!(effects, vec![MuteCommand::Unmute, MuteCommand::Mute]);
    assert_eq!(c.state(), MuteState::Muted);
}

#[test]
fn autorepeat_changes_nothing() {
    let mut c = Controller::new(KEY_X);
    assert_eq!(c.handle_key(key(KEY_X, 2)), None);
    assert_eq!(c.state(), MuteState::Muted);
    c.handle_key(key(KEY_X, 1));
    for _ in 0..50 {
        assert_eq!(c.handle_key(key(KEY_X, 2)), None);
    }
    assert_eq!(c.state(), MuteState::Unmuted);
}

#[test]
fn other_keys_change_nothing() {
    let mut c = Controller::new(KEY_X);
    for v in [0, 1, 2, 7, -1] {
        assert_eq!(c.handle_key(key(KEY_A, v)), None);
        assert_eq!(c.state(), MuteState::Muted);
    }
}

#[test]
fn unknown_values_change_nothing() {
    let mut c = Controller::new(KEY_X);
    c.handle_key(key(KEY_X, 1));
    assert_eq!(c.handle_key(key(KEY_X, 3)), None);
    assert_eq!(c.handle_key(key(KEY_X, -1)), None);
    assert_eq!(c.state(), MuteState::Unmuted);
}

#[test]
fn second_device_release_mutes_while_first_holds() {
    // Both devices hold the key; the first release wins.
    let mut c = Controller::new(KEY_X);
    assert_eq!(c.handle_key(key(KEY_X, 1)), Some(MuteCommand::Unmute));
    assert_eq!(c.handle_key(key(KEY_X, 1)), Some(MuteCommand::Unmute));
    assert_eq!(c.handle_key(key(KEY_X, 0)), Some(MuteCommand::Mute));
    assert_eq!(c.state(), MuteState::Muted);
}

#[test]
fn batch_keeps_only_key_reports() {
    let mut c = Controller::new(KEY_X);
    let batch = vec![
        raw(4, 4, 45),
        raw(1, KEY_X, 1),
        raw(0, 0, 0),
        raw(2, KEY_X, 0),
        raw(1, KEY_X, 2),
        raw(1, KEY_A, 1),
    ];
    assert_eq!(c.handle_batch(&batch), vec![MuteCommand::Unmute]);
    assert_eq!(c.state(), MuteState::Unmuted);
    let batch = vec![raw(1, KEY_X, 0), raw(0, 0, 0)];
    assert_eq!(c.handle_batch(&batch), vec![MuteCommand::Mute]);
    assert_eq!(c.state(), MuteState::Muted);
}

#[test]
fn empty_batch_does_nothing() {
    let mut c = Controller::new(KEY_X);
    assert!(c.handle_batch(&Vec::new()).is_empty());
    assert_eq!(c.state(), MuteState::Muted);
}

#[test]
fn mute_command_flag() {
    assert!(MuteCommand::Mute.is_mute());
    assert!(!MuteCommand::Unmute.is_mute());
}
