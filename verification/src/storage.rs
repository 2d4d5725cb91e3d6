//! Moving the settings of the earlier StratCom installation to SERAPOD, and the
//! message shown when that fails.

use vstd::prelude::*;
use crate::text::{chars_of, has_prefix, joined, starts_with};

verus! {

broadcast use vstd::string::group_string_axioms;

/// The folder of the earlier installation's data, under the local data folder.
pub fn legacy_folder() -> (r: &'static str)
    ensures
        r@ == "app.stratcom.desktop"@,
{
    "app.stratcom.desktop"
}

/// The folder of SERAPOD's data, under the local data folder.
pub fn data_folder() -> (r: &'static str)
    ensures
        r@ == "app.serapod.desktop"@,
{
    "app.serapod.desktop"
}

/// The lock file that the earlier installation's WebView holds while it runs,
/// under its data folder.
pub fn legacy_lock_file() -> (r: &'static str)
    ensures
        r@ == "EBWebView/Default/Local Storage/leveldb/LOCK"@,
{
    "EBWebView/Default/Local Storage/leveldb/LOCK"
}

/// Whether the earlier installation's data is moved: only when it exists and
/// SERAPOD has no data yet, so that existing data is never replaced.
pub fn should_migrate(new_exists: bool, old_exists: bool) -> (r: bool)
    ensures
        r == (!new_exists && old_exists),
        new_exists ==> !r,
{
    !new_exists && old_exists
}

/// Whether the migration first makes sure that the earlier installation's
/// WebView is closed: only when its lock file is present.
pub fn must_probe_lock(lock_exists: bool) -> (r: bool)
    ensures
        r == lock_exists,
{
    lock_exists
}

/// Whether a language name is French.
pub open spec fn is_french(locale: Seq<char>) -> bool {
    starts_with(locale, "fr"@)
}

/// Whether the interface language `locale` is French.
pub fn prefers_french(locale: &str) -> (r: bool)
    ensures
        r == is_french(locale@),
{
    let x = chars_of(locale);
    let p = chars_of("fr");
    has_prefix(&x, &p)
}

/// The French text of the migration error, before the error itself.
pub open spec fn french_migration_text() -> Seq<char> {
    "Impossible de migrer les réglages vers app.serapod.desktop.\nFermez les autres instances de SERAPOD/StratCom, puis relancez l'application.\nLes données existantes n'ont pas été remplacées.\n\n"@
}

/// The English text of the migration error, before the error itself.
pub open spec fn english_migration_text() -> Seq<char> {
    "Could not migrate settings to app.serapod.desktop.\nClose other SERAPOD/StratCom instances, then restart the app.\nExisting data has not been replaced.\n\n"@
}

/// The message shown when the migration fails with `error`: French when the
/// interface language is French, English otherwise, followed by the error.
pub fn migration_error_message(locale: &str, error: &str) -> (r: String)
    ensures
        r@ == (if is_french(locale@) { french_migration_text() } else { english_migration_text() })
            + error@,
{
    if prefers_french(locale) {
        joined(
            "Impossible de migrer les réglages vers app.serapod.desktop.\nFermez les autres instances de SERAPOD/StratCom, puis relancez l'application.\nLes données existantes n'ont pas été remplacées.\n\n",
            error,
        )
    } else {
        joined(
            "Could not migrate settings to app.serapod.desktop.\nClose other SERAPOD/StratCom instances, then restart the app.\nExisting data has not been replaced.\n\n",
            error,
        )
    }
}

} // verus!
