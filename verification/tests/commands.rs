use serapod::commands::{is_overlay_window, require_main_window};

#[test]
fn only_main_window_may_command() {
    assert_eq!(require_main_window("main"), Ok(()));
    assert_eq!(require_main_window("overlay"), Err("unauthorized".to_string()));
    assert_eq!(require_main_window("Main"), Err("unauthorized".to_string()));
    assert!(is_overlay_window("overlay"));
    assert!(!is_overlay_window("main"));
}
