//! Which window may ask for what: settings, tests and updates come from the
//! main window only, and the overlay reports itself ready.

use vstd::prelude::*;
use crate::text::{owned, same_text};

verus! {

/// Accepts a request from the window labelled `label` only when it is the main
/// window; any other window is answered `unauthorized`.
pub fn require_main_window(label: &str) -> (r: Result<(), String>)
    ensures
        match r {
            Ok(()) => label@ == "main"@,
            Err(e) => label@ != "main"@ && e@ == "unauthorized"@,
        },
{
    if same_text(label, "main") {
        Ok(())
    } else {
        Err(owned("unauthorized"))
    }
}

/// Whether the window labelled `label` is the overlay.
pub fn is_overlay_window(label: &str) -> (r: bool)
    ensures
        r == (label@ == "overlay"@),
{
    same_text(label, "overlay")
}

} // verus!
