use serapod::model::Node;
use serapod::wheel::{may_open, tick, Wheel, WheelAction, FRAME_INTERVAL_NS, OPEN_LIMIT_NS, TEST_LIMIT_NS};

fn node(kind: &str, name: &str, code: &[&str], children: Vec<Node>) -> Node {
    Node {
        id: name.to_lowercase(),
        kind: kind.into(),
        name: name.into(),
        name_key: String::new(),
        stratagem_id: String::new(),
        code: code.iter().map(|c| c.to_string()).collect(),
        icon: String::new(),
        children,
    }
}

fn tree() -> Node {
    node(
        "folder",
        "Root",
        &[],
        vec![
            node("stratagem", "Reinforce", &["Up", "Down", "Right", "Left", "Up"], vec![]),
            node("folder", "Support", &[], vec![node("stratagem", "Resupply", &["Down", "Down", "Up", "Right"], vec![])]),
        ],
    )
}

#[test]
fn opens_on_root_and_shows_its_entries() {
    let mut w = Wheel::new();
    assert!(!w.is_open());
    assert_eq!(w.entry_count(), None);
    let (items, selected, title) = w.frame();
    assert!(items.is_empty());
    assert_eq!(selected, -1);
    assert_eq!(title, "");
    w.open(&tree());
    assert!(w.is_open());
    assert_eq!(w.entry_count(), Some(2));
    let (items, selected, title) = w.frame();
    assert_eq!(items.len(), 2);
    assert_eq!(items[1].name, "Support");
    assert_eq!(selected, -1);
    assert_eq!(title, "Root");
    assert!(w.point(Some(1)));
    assert!(!w.point(Some(1)));
    assert_eq!(w.frame().1, 1);
    assert!(w.point(None));
}

#[test]
fn click_enters_folder_and_back_returns() {
    let mut w = Wheel::new();
    w.open(&tree());
    w.point(Some(1));
    assert!(matches!(w.select(true, true, false, true), WheelAction::Redraw));
    assert_eq!(w.frame().2, "Support");
    assert_eq!(w.frame().1, -1);
    assert!(matches!(w.back(true, true, false), WheelAction::Redraw));
    assert_eq!(w.frame().2, "Root");
    assert!(matches!(w.back(true, true, false), WheelAction::Close));
    assert!(!w.is_open());
}

#[test]
fn release_on_folder_closes_and_on_stratagem_runs() {
    let mut w = Wheel::new();
    w.open(&tree());
    w.point(Some(1));
    assert!(matches!(w.select(true, true, false, false), WheelAction::Close));
    assert!(!w.is_open());
    w.open(&tree());
    w.point(Some(0));
    match w.select(true, true, false, false) {
        WheelAction::Run(code) => assert_eq!(code, vec!["Up", "Down", "Right", "Left", "Up"]),
        _ => panic!("expected a code"),
    }
    assert!(!w.is_open());
}

#[test]
fn click_outside_sectors_goes_up_or_closes() {
    let mut w = Wheel::new();
    w.open(&tree());
    w.point(Some(1));
    w.select(true, true, false, true);
    w.point(None);
    assert!(matches!(w.select(true, true, false, true), WheelAction::Redraw));
    assert_eq!(w.frame().2, "Root");
    w.point(Some(7));
    assert!(matches!(w.select(true, true, false, true), WheelAction::Close));
    assert!(!w.is_open());
}

#[test]
fn inactive_or_cancelled_wheel() {
    let mut w = Wheel::new();
    w.open(&tree());
    w.point(Some(0));
    assert!(matches!(w.select(false, true, false, true), WheelAction::Ignore));
    assert!(matches!(w.back(false, true, false), WheelAction::Ignore));
    assert!(w.is_open());
    assert!(matches!(w.select(true, false, false, true), WheelAction::Close));
    assert!(!w.is_open());
    w.open(&tree());
    assert!(matches!(w.back(true, true, true), WheelAction::Close));
    w.open(&tree());
    w.close();
    assert!(!w.is_open());
}

#[test]
fn opening_rules() {
    assert!(may_open(true, true, false, false));
    assert!(may_open(true, false, true, true));
    assert!(!may_open(true, false, true, false));
    assert!(!may_open(true, false, false, true));
    assert!(!may_open(false, true, true, true));
}

#[test]
fn end_of_turn_rules() {
    let t = tick(true, false, true, false, OPEN_LIMIT_NS, true, FRAME_INTERVAL_NS);
    assert!(!t.close && t.redraw);
    let t = tick(true, false, true, false, OPEN_LIMIT_NS + 1, true, FRAME_INTERVAL_NS);
    assert!(t.close && !t.redraw);
    assert!(tick(true, false, false, false, 0, false, 0).close);
    assert!(tick(true, false, true, true, 0, false, 0).close);
    assert!(!tick(true, false, true, false, 0, true, FRAME_INTERVAL_NS - 1).redraw);
    assert!(!tick(true, false, true, false, 0, false, FRAME_INTERVAL_NS).redraw);
    assert!(tick(false, true, false, true, TEST_LIMIT_NS + 1, true, 0).close);
    let t = tick(false, true, false, true, TEST_LIMIT_NS, true, FRAME_INTERVAL_NS);
    assert!(!t.close && !t.redraw);
    assert_eq!(OPEN_LIMIT_NS, 30_000_000_000);
    assert_eq!(TEST_LIMIT_NS, 8_000_000_000);
    assert_eq!(FRAME_INTERVAL_NS, 8_000_000);
}
