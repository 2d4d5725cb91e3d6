use serapod::keys::scan;

#[test]
fn physical_keys() {
    assert_eq!(scan("KeyQ"), Some((0x10, false)));
    assert_eq!(scan("ArrowUp"), Some((0x48, true)));
    assert_eq!(scan("F12"), Some((0x58, false)));
    assert_eq!(scan("F13"), None);
}

#[test]
fn function_keys_are_read_as_numbers() {
    assert_eq!(scan("F1"), Some((0x3b, false)));
    assert_eq!(scan("F10"), Some((0x44, false)));
    assert_eq!(scan("F05"), Some((0x3f, false)));
    assert_eq!(scan("F+5"), Some((0x3f, false)));
    assert_eq!(scan("F11"), Some((0x57, false)));
    assert_eq!(scan("F0"), None);
    assert_eq!(scan("F"), None);
    assert_eq!(scan("F-1"), None);
    assert_eq!(scan("F99999"), None);
    assert_eq!(scan("f1"), None);
}

#[test]
fn layout_keys_and_modifiers() {
    assert_eq!(scan("ControlRight"), Some((0x1d, true)));
    assert_eq!(scan("ShiftRight"), Some((0x36, false)));
    assert_eq!(scan("Digit0"), Some((11, false)));
    assert_eq!(scan("KeyZ"), Some((0x2c, false)));
    assert_eq!(scan("keyq"), None);
    assert_eq!(scan(""), None);
}
