use serapod::model::{default_glass, default_locale, Config, Node, Settings};

fn settings() -> Settings {
    Settings {
        locale: "en".into(),
        glass: true,
        transparency_bits: 35.0f64.to_bits(),
        trigger: "Mouse4".into(),
        game_key: "ControlLeft".into(),
        mode: "hold".into(),
        up: "KeyW".into(),
        down: "KeyS".into(),
        left: "KeyA".into(),
        right: "KeyD".into(),
        press_ms: 50,
        gap_ms: 120,
        size_bits: 560.0f64.to_bits(),
        deadzone_bits: 70.0f64.to_bits(),
        sensitivity_bits: 1.0f64.to_bits(),
    }
}

fn stratagem(code: &[&str]) -> Node {
    Node {
        id: "s".into(),
        kind: "stratagem".into(),
        name: "Reinforce".into(),
        name_key: String::new(),
        stratagem_id: "reinforce".into(),
        code: code.iter().map(|c| c.to_string()).collect(),
        icon: String::new(),
        children: vec![],
    }
}

fn folder(children: Vec<Node>) -> Node {
    Node {
        id: "f".into(),
        kind: "folder".into(),
        name: "Root".into(),
        name_key: String::new(),
        stratagem_id: String::new(),
        code: vec![],
        icon: String::new(),
        children,
    }
}

fn config() -> Config {
    Config { settings: settings(), root: folder(vec![stratagem(&["Up", "Down", "Right", "Left", "Up"])]) }
}

#[test]
fn valid_configuration_is_accepted() {
    assert_eq!(config().validate(true), Ok(()));
    let mut c = config();
    c.settings.trigger = "F1".into();
    c.settings.mode = "toggle".into();
    assert_eq!(c.validate(true), Ok(()));
}

#[test]
fn keys_are_checked_in_order() {
    let mut c = config();
    c.settings.up = "Mouse4".into();
    assert_eq!(c.validate(true), Err("invalidKey".to_string()));
    let mut c = config();
    c.settings.game_key = "Mouse5".into();
    assert_eq!(c.validate(true), Err("invalidKey".to_string()));
    let mut c = config();
    c.settings.right = "KeyW".into();
    assert_eq!(c.validate(true), Err("duplicateKeys".to_string()));
    let mut c = config();
    c.settings.down = "KeyW".into();
    c.settings.right = "Nope".into();
    assert_eq!(c.validate(true), Err("duplicateKeys".to_string()));
    let mut c = config();
    c.settings.trigger = "Nope".into();
    c.settings.press_ms = 1;
    assert_eq!(c.validate(true), Err("invalidKey".to_string()));
}

#[test]
fn ranges_are_checked() {
    for (press, gap) in [(14, 120), (251, 120), (50, 99), (50, 301)] {
        let mut c = config();
        c.settings.press_ms = press;
        c.settings.gap_ms = gap;
        assert_eq!(c.validate(true), Err("invalidRange".to_string()));
    }
    for (press, gap) in [(15, 100), (250, 300)] {
        let mut c = config();
        c.settings.press_ms = press;
        c.settings.gap_ms = gap;
        assert_eq!(c.validate(true), Ok(()));
    }
    let mut c = config();
    c.settings.mode = "press".into();
    assert_eq!(c.validate(true), Err("invalidRange".to_string()));
    assert_eq!(config().validate(false), Err("invalidRange".to_string()));
    let mut c = config();
    c.root = stratagem(&["Up"]);
    c.settings.gap_ms = 5;
    assert_eq!(c.validate(true), Err("invalidRange".to_string()));
}

#[test]
fn tree_is_checked() {
    let invalid = Err("invalidTree".to_string());
    let mut c = config();
    c.root = stratagem(&["Up"]);
    assert_eq!(c.validate(true), invalid);
    let mut c = config();
    c.root = folder((0..13).map(|_| stratagem(&["Up"])).collect());
    assert_eq!(c.validate(true), invalid);
    let mut c = config();
    c.root = folder((0..12).map(|_| stratagem(&["Up"])).collect());
    assert_eq!(c.validate(true), Ok(()));
    let mut c = config();
    c.root = folder(vec![stratagem(&[])]);
    assert_eq!(c.validate(true), invalid);
    let mut c = config();
    c.root = folder(vec![stratagem(&["Up"; 33])]);
    assert_eq!(c.validate(true), invalid);
    let mut c = config();
    c.root = folder(vec![stratagem(&["Up"; 32])]);
    assert_eq!(c.validate(true), Ok(()));
    let mut c = config();
    c.root = folder(vec![stratagem(&["Up", "up"])]);
    assert_eq!(c.validate(true), invalid);
    let mut c = config();
    let mut odd = stratagem(&["Up"]);
    odd.kind = "macro".into();
    c.root = folder(vec![odd]);
    assert_eq!(c.validate(true), invalid);
}

#[test]
fn depth_is_limited_to_eight() {
    let mut deep = folder(vec![stratagem(&["Left"])]);
    for _ in 0..7 {
        deep = folder(vec![deep]);
    }
    let mut c = config();
    c.root = deep;
    assert_eq!(c.validate(true), Ok(()));
    let mut deeper = folder(vec![stratagem(&["Left"])]);
    for _ in 0..8 {
        deeper = folder(vec![deeper]);
    }
    let mut c = config();
    c.root = deeper;
    assert_eq!(c.validate(true), Err("invalidTree".to_string()));
}

#[test]
fn defaults() {
    assert_eq!(default_locale(), "en");
    assert!(default_glass());
}

#[test]
fn duplicate_copies_the_whole_node() {
    let n = folder(vec![stratagem(&["Up", "Down"]), folder(vec![])]);
    let d = n.duplicate();
    assert_eq!(d.kind, "folder");
    assert_eq!(d.children.len(), 2);
    assert_eq!(d.children[0].code, vec!["Up".to_string(), "Down".to_string()]);
    assert_eq!(d.children[1].kind, "folder");
}
