use serapod::input::{
    input_permitted, key_input, key_state_query, keys_released, keyboard_event, mouse_event, refresh_enabled, shortcut_released,
    targets_game, test_overlay_allowed, trigger_code, trigger_event, InputFlags, KeyEvent, KeyPhase,
    MouseEvent, MouseMessage, Signal,
};

fn flags() -> InputFlags {
    InputFlags {
        enabled: true,
        active: false,
        held: false,
        busy: false,
        cancel: true,
        esc_up: false,
        left_up: false,
        right_up: false,
        trigger_count: 0,
    }
}

fn key(phase: KeyPhase, scan_code: u32, extended: bool, escape: bool) -> KeyEvent {
    KeyEvent { injected: false, phase, scan_code, extended, escape }
}

fn mouse(message: MouseMessage, mouse_data: u32) -> MouseEvent {
    MouseEvent { injected: false, message, mouse_data }
}

#[test]
fn trigger_press_opens_and_release_selects() {
    let mut f = flags();
    let out = trigger_event(&mut f, true, true);
    assert!(out.consumed && matches!(out.signal, Some(Signal::Open)));
    assert!(f.held && f.active && !f.cancel);
    assert_eq!(f.trigger_count, 1);
    let out = trigger_event(&mut f, true, true);
    assert!(out.consumed && out.signal.is_none());
    assert_eq!(f.trigger_count, 1);
    let out = trigger_event(&mut f, false, true);
    assert!(out.consumed && matches!(out.signal, Some(Signal::Release)));
    assert!(!f.held);
    let out = trigger_event(&mut f, false, true);
    assert!(!out.consumed && out.signal.is_none());
}

#[test]
fn trigger_ignored_off_target_disabled_or_busy() {
    for (enabled, on_target, busy) in [(false, true, false), (true, false, false), (true, true, true)] {
        let mut f = flags();
        f.enabled = enabled;
        f.busy = busy;
        let out = trigger_event(&mut f, true, on_target);
        assert!(!out.consumed && out.signal.is_none());
        assert!(!f.held && !f.active);
        assert_eq!(f.trigger_count, 1);
    }
    let mut f = flags();
    f.trigger_count = u32::MAX;
    f.enabled = false;
    trigger_event(&mut f, true, true);
    assert_eq!(f.trigger_count, 0);
}

#[test]
fn keyboard_trigger_escape_and_injected_keys() {
    let mut f = flags();
    let trigger = trigger_code("F1");
    assert_eq!(trigger, 0x3b);
    let out = keyboard_event(&mut f, &key(KeyPhase::Press, 0x3b, false, false), trigger, true);
    assert!(out.consumed && matches!(out.signal, Some(Signal::Open)));
    let out = keyboard_event(&mut f, &key(KeyPhase::Press, 0x01, false, true), trigger, true);
    assert!(out.consumed && matches!(out.signal, Some(Signal::Cancel)));
    assert!(f.cancel && f.esc_up);
    let out = keyboard_event(&mut f, &key(KeyPhase::Lift, 0x01, false, true), trigger, true);
    assert!(out.consumed && out.signal.is_none());
    assert!(!f.esc_up);
    let out = keyboard_event(&mut f, &key(KeyPhase::Lift, 0x01, false, true), trigger, true);
    assert!(!out.consumed);
    let mut injected = key(KeyPhase::Lift, 0x3b, false, false);
    injected.injected = true;
    let out = keyboard_event(&mut f, &injected, trigger, true);
    assert!(!out.consumed && out.signal.is_none());
    assert!(f.held);
    let out = keyboard_event(&mut f, &key(KeyPhase::Lift, 0x3b, true, false), trigger, true);
    assert!(!out.consumed);
    let out = keyboard_event(&mut f, &key(KeyPhase::Other, 0x3b, false, false), trigger, true);
    assert!(!out.consumed);
    let out = keyboard_event(&mut f, &key(KeyPhase::Lift, 0x3b, false, false), trigger, true);
    assert!(out.consumed && matches!(out.signal, Some(Signal::Release)));
}

#[test]
fn escape_passes_when_nothing_is_open() {
    let mut f = flags();
    let out = keyboard_event(&mut f, &key(KeyPhase::Press, 0x01, false, true), 0x3b, true);
    assert!(!out.consumed && out.signal.is_none());
    assert!(!f.esc_up);
}

#[test]
fn mouse_side_button_trigger_and_wheel_gestures() {
    let mut f = flags();
    let trigger = trigger_code("Mouse5");
    assert_eq!(trigger, 0x10002);
    assert_eq!(trigger_code("Mouse4"), 0x10001);
    let out = mouse_event(&mut f, &mouse(MouseMessage::SideDown, 0x0001_0000), trigger, true);
    assert!(!out.consumed);
    let out = mouse_event(&mut f, &mouse(MouseMessage::SideDown, 0x0002_0000), trigger, true);
    assert!(out.consumed && matches!(out.signal, Some(Signal::Open)));
    let out = mouse_event(&mut f, &mouse(MouseMessage::Move, 0), trigger, true);
    assert!(out.consumed && matches!(out.signal, Some(Signal::Move)));
    let out = mouse_event(&mut f, &mouse(MouseMessage::RightDown, 0), trigger, true);
    assert!(out.consumed && matches!(out.signal, Some(Signal::Back)));
    assert!(f.right_up);
    let out = mouse_event(&mut f, &mouse(MouseMessage::RightUp, 0), trigger, true);
    assert!(out.consumed && out.signal.is_none());
    assert!(!f.right_up);
    let out = mouse_event(&mut f, &mouse(MouseMessage::LeftDown, 0), trigger, true);
    assert!(out.consumed && matches!(out.signal, Some(Signal::Click)));
    let out = mouse_event(&mut f, &mouse(MouseMessage::Wheel, 0), trigger, true);
    assert!(out.consumed && out.signal.is_none());
    let out = mouse_event(&mut f, &mouse(MouseMessage::Move, 0), trigger, false);
    assert!(!out.consumed);
    f.active = false;
    let out = mouse_event(&mut f, &mouse(MouseMessage::LeftUp, 0), trigger, true);
    assert!(out.consumed && out.signal.is_none());
    let out = mouse_event(&mut f, &mouse(MouseMessage::LeftUp, 0), trigger, true);
    assert!(!out.consumed);
    let out = mouse_event(&mut f, &mouse(MouseMessage::SideUp, 0x0002_0000), trigger, true);
    assert!(out.consumed && matches!(out.signal, Some(Signal::Release)));
    let mut injected = mouse(MouseMessage::LeftDown, 0);
    injected.injected = true;
    f.active = true;
    let out = mouse_event(&mut f, &injected, trigger, true);
    assert!(!out.consumed && !f.left_up);
}

#[test]
fn engine_gates() {
    assert!(refresh_enabled(true, true, true, false));
    assert!(!refresh_enabled(true, true, true, true));
    assert!(!refresh_enabled(false, true, true, false));
    assert!(targets_game(5, 5));
    assert!(!targets_game(0, 0));
    assert!(!targets_game(5, 6));
    assert_eq!(input_permitted(true, false, true), Ok(()));
    assert_eq!(input_permitted(false, false, true), Err("inputCancelled".to_string()));
    assert_eq!(input_permitted(true, true, true), Err("inputCancelled".to_string()));
    assert_eq!(input_permitted(true, false, false), Err("inputCancelled".to_string()));
    assert_eq!(shortcut_released(false, false), Ok(()));
    assert_eq!(shortcut_released(true, false), Err("releaseShortcut".to_string()));
    assert_eq!(shortcut_released(false, true), Err("releaseShortcut".to_string()));
    assert_eq!(test_overlay_allowed(true, true, false, false), Ok(()));
    assert_eq!(test_overlay_allowed(false, true, true, false), Err("notReady".to_string()));
    assert_eq!(test_overlay_allowed(true, false, false, false), Err("notReady".to_string()));
    assert_eq!(test_overlay_allowed(true, true, false, true), Err("releaseShortcut".to_string()));
}

#[test]
fn trigger_and_state_codes() {
    assert_eq!(trigger_code("ArrowUp"), 0x148);
    assert_eq!(trigger_code("KeyQ"), 0x10);
    assert_eq!(key_state_query("ArrowUp"), Some(0xe048));
    assert_eq!(key_state_query("KeyW"), Some(0x11));
    assert_eq!(key_state_query("Mouse4"), None);
}

#[test]
fn injected_key_inputs() {
    assert_eq!(key_input("KeyW", false), Ok((0x11, 0x8)));
    assert_eq!(key_input("KeyW", true), Ok((0x11, 0xa)));
    assert_eq!(key_input("ArrowLeft", false), Ok((0x4b, 0x9)));
    assert_eq!(key_input("ArrowLeft", true), Ok((0x4b, 0xb)));
    assert_eq!(key_input("Mouse4", false), Err("invalidKey".to_string()));
    assert_eq!(keys_released(&[false, false, false, false, false]), Ok(()));
    assert_eq!(keys_released(&[false, false, true, false, false]), Err("releaseGameKeys".to_string()));
    assert_eq!(keys_released(&[]), Ok(()));
}
