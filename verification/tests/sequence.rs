use serapod::model::Settings;
use serapod::sequence::{keys_to_release, plan_strokes, Stroke};

fn settings(mode: &str) -> Settings {
    Settings {
        locale: "en".into(),
        glass: true,
        transparency_bits: 0,
        trigger: "Mouse4".into(),
        game_key: "ControlLeft".into(),
        mode: mode.into(),
        up: "KeyW".into(),
        down: "KeyS".into(),
        left: "KeyA".into(),
        right: "KeyD".into(),
        press_ms: 40,
        gap_ms: 110,
        size_bits: 0,
        deadzone_bits: 0,
        sensitivity_bits: 0,
    }
}

fn code(dirs: &[&str]) -> Vec<String> {
    dirs.iter().map(|d| d.to_string()).collect()
}

fn describe(strokes: &[Stroke]) -> Vec<String> {
    strokes
        .iter()
        .map(|s| match s {
            Stroke::Check => "check".to_string(),
            Stroke::Press(k) => format!("press {k}"),
            Stroke::Wait(ms) => format!("wait {ms}"),
            Stroke::Lift(k) => format!("lift {k}"),
            Stroke::Fail(e) => format!("fail {e}"),
        })
        .collect()
}

#[test]
fn hold_mode_keeps_game_key_down() {
    let plan = plan_strokes(&settings("hold"), &code(&["Up", "Right"]));
    assert_eq!(
        describe(&plan),
        vec![
            "press ControlLeft",
            "wait 110",
            "check",
            "press KeyW",
            "wait 40",
            "lift KeyW",
            "wait 110",
            "check",
            "press KeyD",
            "wait 40",
            "lift KeyD",
            "wait 110",
            "lift ControlLeft",
        ]
    );
}

#[test]
fn toggle_mode_taps_game_key() {
    let plan = plan_strokes(&settings("toggle"), &code(&["Left"]));
    assert_eq!(
        describe(&plan),
        vec![
            "check",
            "press ControlLeft",
            "wait 40",
            "lift ControlLeft",
            "wait 110",
            "check",
            "press KeyA",
            "wait 40",
            "lift KeyA",
            "wait 110",
        ]
    );
}

#[test]
fn unknown_direction_stops_the_code() {
    let plan = plan_strokes(&settings("hold"), &code(&["Up", "Sideways", "Down"]));
    assert_eq!(
        describe(&plan),
        vec![
            "press ControlLeft",
            "wait 110",
            "check",
            "press KeyW",
            "wait 40",
            "lift KeyW",
            "wait 110",
            "lift ControlLeft",
            "fail invalidKey",
        ]
    );
    let plan = plan_strokes(&settings("toggle"), &code(&["Sideways"]));
    assert_eq!(describe(&plan), vec!["check", "press ControlLeft", "wait 40", "lift ControlLeft", "wait 110", "fail invalidKey"]);
    let plan = plan_strokes(&settings("toggle"), &code(&[]));
    assert_eq!(describe(&plan), vec!["check", "press ControlLeft", "wait 40", "lift ControlLeft", "wait 110"]);
}

#[test]
fn keys_down_are_released_when_entry_stops() {
    let plan = plan_strokes(&settings("hold"), &code(&["Up", "Right"]));
    assert_eq!(keys_to_release(&plan, 0), Vec::<String>::new());
    assert_eq!(keys_to_release(&plan, 1), vec!["ControlLeft"]);
    assert_eq!(keys_to_release(&plan, 3), vec!["ControlLeft"]);
    assert_eq!(keys_to_release(&plan, 4), vec!["KeyW", "ControlLeft"]);
    assert_eq!(keys_to_release(&plan, 6), vec!["ControlLeft"]);
    assert_eq!(keys_to_release(&plan, 12), vec!["ControlLeft"]);
    let plan = plan_strokes(&settings("toggle"), &code(&["Down"]));
    assert_eq!(keys_to_release(&plan, 2), vec!["ControlLeft"]);
    assert_eq!(keys_to_release(&plan, 4), Vec::<String>::new());
    assert_eq!(keys_to_release(&plan, 7), vec!["KeyS"]);
    let plan = plan_strokes(&settings("hold"), &code(&["Nope"]));
    assert_eq!(keys_to_release(&plan, plan.len() - 1), Vec::<String>::new());
}
