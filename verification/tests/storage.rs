use serapod::storage::{data_folder, legacy_folder, legacy_lock_file, migration_error_message, must_probe_lock, prefers_french, should_migrate};

#[test]
fn migration_never_replaces_existing_data() {
    assert!(should_migrate(false, true));
    assert!(!should_migrate(true, true));
    assert!(!should_migrate(true, false));
    assert!(!should_migrate(false, false));
    assert!(must_probe_lock(true));
    assert!(!must_probe_lock(false));
    assert_eq!(legacy_folder(), "app.stratcom.desktop");
    assert_eq!(data_folder(), "app.serapod.desktop");
    assert_eq!(legacy_lock_file(), "EBWebView/Default/Local Storage/leveldb/LOCK");
}

#[test]
fn migration_message_follows_language() {
    assert!(prefers_french("fr-FR"));
    assert!(prefers_french("fr"));
    assert!(!prefers_french("en-US"));
    assert!(!prefers_french("FR-fr"));
    assert!(!prefers_french("f"));
    let fr = migration_error_message("fr-CA", "denied");
    assert!(fr.starts_with("Impossible de migrer les réglages"));
    assert!(fr.ends_with("remplacées.\n\ndenied"));
    let en = migration_error_message("de-DE", "denied");
    assert_eq!(
        en,
        "Could not migrate settings to app.serapod.desktop.\nClose other SERAPOD/StratCom instances, then restart the app.\nExisting data has not been replaced.\n\ndenied"
    );
}
