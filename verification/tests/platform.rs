use serapod::platform::{effective_owner, is_game_executable, locale_from_units, window_area, WindowSearch};

fn units(s: &str) -> Vec<u16> {
    s.encode_utf16().collect()
}

#[test]
fn thread_owner_fallback_requires_known_ownership() {
    assert_eq!(effective_owner(0, 27000), 27000);
    assert_eq!(effective_owner(0, 0), 0);
    // A conflicting reported owner must not be replaced with the game PID.
    assert_eq!(effective_owner(123, 27000), 123);
    assert_eq!(effective_owner(27000, 0), 27000);
}

#[test]
fn only_exact_game_process() {
    assert!(is_game_executable("HELLDIVERS2.EXE"));
    assert!(!is_game_executable("helldivers2.exe.bak"));
    assert!(!is_game_executable("stratcom.exe"));
}

#[test]
fn game_name_in_mixed_case() {
    assert!(is_game_executable("helldivers2.exe"));
    assert!(is_game_executable("HellDivers2.Exe"));
    assert!(!is_game_executable("helldivers2.ex"));
    assert!(!is_game_executable(""));
}

#[test]
fn area_of_client_rectangles() {
    assert_eq!(window_area(0, 0, 1920, 1080), 2073600);
    assert_eq!(window_area(10, 20, 10, 500), 0);
    assert_eq!(window_area(100, 100, 50, 200), -5000);
}

#[test]
fn locale_stops_at_terminator_and_defaults_to_english() {
    let mut buffer = units("fr-FR");
    buffer.push(0);
    buffer.extend(units("en-US"));
    buffer.push(0);
    buffer.push(0);
    assert_eq!(locale_from_units(&buffer), "fr-FR");
    assert_eq!(locale_from_units(&[0, 0]), "en");
    assert_eq!(locale_from_units(&[]), "en");
    assert_eq!(locale_from_units(&units("de-DE")), "de-DE");
}

#[test]
fn search_keeps_largest_visible_game_window() {
    let mut search = WindowSearch::new();
    let mut game = units("HELLDIVERS2.EXE");
    game.extend([0, 0x41, 0x42]);
    search.add_process(&game, 27000);
    let mut other = units("explorer.exe");
    other.push(0);
    search.add_process(&other, 400);
    assert!(search.found());
    assert!(search.owns(27000));
    assert!(!search.owns(400));
    search.observe(11, 400, true, 900_000);
    search.observe(12, 27000, false, 800_000);
    search.observe(13, 27000, true, 500_000);
    search.observe(14, 27000, true, 500_000);
    search.observe(15, 27000, true, 2_000_000);
    search.observe(16, 27000, true, 1_000_000);
    assert_eq!(search.enumerated(), 6);
    assert_eq!(search.matched(), 5);
    assert_eq!(search.outcome(), (true, 15));
}

#[test]
fn thread_enumeration_attributes_ownerless_windows() {
    let mut search = WindowSearch::new();
    let mut game = units("helldivers2.exe");
    game.push(0);
    search.add_process(&game, 27000);
    search.observe(20, 0, true, 100);
    assert_eq!(search.window(), 0);
    search.set_thread_owner(27000);
    search.observe(21, 0, true, 100);
    search.observe(22, 123, true, 5000);
    search.set_thread_owner(0);
    assert_eq!(search.window(), 21);
    assert_eq!(search.matched(), 1);
}

#[test]
fn previous_window_only_as_last_resort() {
    let mut search = WindowSearch::new();
    let mut game = units("helldivers2.exe");
    game.push(0);
    search.add_process(&game, 7);
    search.recall(99, 8, true);
    assert_eq!(search.window(), 0);
    search.recall(99, 7, false);
    assert_eq!(search.window(), 0);
    search.recall(99, 7, true);
    assert_eq!(search.window(), 99);
    search.recall(55, 7, true);
    assert_eq!(search.window(), 99);
    let empty = WindowSearch::new();
    assert_eq!(empty.outcome(), (false, 0));
    assert!(empty.process_ids().is_empty());
}

#[test]
fn locale_decodes_surrogates() {
    assert_eq!(locale_from_units(&[0xD83D, 0xDE00, 0x61, 0xDC00, 0]), "\u{1F600}a\u{FFFD}");
    assert_eq!(locale_from_units(&[0xD800, 0x41, 0]), "\u{FFFD}A");
}

#[test]
fn search_reports_thread_owner() {
    let mut search = WindowSearch::new();
    assert_eq!(search.thread_owner(), 0);
    search.set_thread_owner(42);
    assert_eq!(search.thread_owner(), 42);
}
