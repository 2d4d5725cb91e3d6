//! Physical keys: scan codes for `KeyboardEvent.code` names.

use vstd::prelude::*;
use crate::text::{parse_unsigned, parsed_unsigned, same_text, strip_prefix};

verus! {

/// The scan code of `F1`..`F10` named as `F` followed by what `u16` parsing reads
/// as 1 through 10: `0x3a` plus that number, never extended.
pub open spec fn function_key_code(code: Seq<char>) -> Option<(u16, bool)> {
    if code.len() > 0 && code[0] == 'F' {
        match parsed_unsigned(code.drop_first(), 65535) {
            Some(f) => if 1 <= f <= 10 { Some(((0x3a + f) as u16, false)) } else { None },
            None => None,
        }
    } else {
        None
    }
}

/// The physical scan code and extended-key flag of a `KeyboardEvent.code` name
/// (AZERTY layouts share these physical positions).
pub open spec fn scan_code(code: Seq<char>) -> Option<(u16, bool)> {
    if code == "ControlLeft"@ {
        Some((0x1d, false))
    } else if code == "ControlRight"@ {
        Some((0x1d, true))
    } else if code == "AltLeft"@ {
        Some((0x38, false))
    } else if code == "AltRight"@ {
        Some((0x38, true))
    } else if code == "ShiftLeft"@ {
        Some((0x2a, false))
    } else if code == "ShiftRight"@ {
        Some((0x36, false))
    } else if code == "Tab"@ {
        Some((0x0f, false))
    } else if code == "Space"@ {
        Some((0x39, false))
    } else if code == "ArrowUp"@ {
        Some((0x48, true))
    } else if code == "ArrowDown"@ {
        Some((0x50, true))
    } else if code == "ArrowLeft"@ {
        Some((0x4b, true))
    } else if code == "ArrowRight"@ {
        Some((0x4d, true))
    } else if code == "KeyA"@ {
        Some((0x1e, false))
    } else if code == "KeyB"@ {
        Some((0x30, false))
    } else if code == "KeyC"@ {
        Some((0x2e, false))
    } else if code == "KeyD"@ {
        Some((0x20, false))
    } else if code == "KeyE"@ {
        Some((0x12, false))
    } else if code == "KeyF"@ {
        Some((0x21, false))
    } else if code == "KeyG"@ {
        Some((0x22, false))
    } else if code == "KeyH"@ {
        Some((0x23, false))
    } else if code == "KeyI"@ {
        Some((0x17, false))
    } else if code == "KeyJ"@ {
        Some((0x24, false))
    } else if code == "KeyK"@ {
        Some((0x25, false))
    } else if code == "KeyL"@ {
        Some((0x26, false))
    } else if code == "KeyM"@ {
        Some((0x32, false))
    } else if code == "KeyN"@ {
        Some((0x31, false))
    } else if code == "KeyO"@ {
        Some((0x18, false))
    } else if code == "KeyP"@ {
        Some((0x19, false))
    } else if code == "KeyQ"@ {
        Some((0x10, false))
    } else if code == "KeyR"@ {
        Some((0x13, false))
    } else if code == "KeyS"@ {
        Some((0x1f, false))
    } else if code == "KeyT"@ {
        Some((0x14, false))
    } else if code == "KeyU"@ {
        Some((0x16, false))
    } else if code == "KeyV"@ {
        Some((0x2f, false))
    } else if code == "KeyW"@ {
        Some((0x11, false))
    } else if code == "KeyX"@ {
        Some((0x2d, false))
    } else if code == "KeyY"@ {
        Some((0x15, false))
    } else if code == "KeyZ"@ {
        Some((0x2c, false))
    } else if code == "Digit1"@ {
        Some((2, false))
    } else if code == "Digit2"@ {
        Some((3, false))
    } else if code == "Digit3"@ {
        Some((4, false))
    } else if code == "Digit4"@ {
        Some((5, false))
    } else if code == "Digit5"@ {
        Some((6, false))
    } else if code == "Digit6"@ {
        Some((7, false))
    } else if code == "Digit7"@ {
        Some((8, false))
    } else if code == "Digit8"@ {
        Some((9, false))
    } else if code == "Digit9"@ {
        Some((10, false))
    } else if code == "Digit0"@ {
        Some((11, false))
    } else if code == "F11"@ {
        Some((0x57, false))
    } else if code == "F12"@ {
        Some((0x58, false))
    } else {
        function_key_code(code)
    }
}

fn function_key(code: &str) -> (r: Option<(u16, bool)>)
    ensures
        r == function_key_code(code@),
{
    match strip_prefix(code, "F") {
        Some(rest) => {
            proof { reveal_strlit("F"); }
            assert(code@.subrange(0, 1)[0] == "F"@[0]);
            assert(code@[0] == 'F');
            assert(code@.drop_first() =~= rest@);
            match parse_unsigned(rest.as_str(), 65535) {
                Some(f) => if 1 <= f && f <= 10 { Some(((0x3a + f) as u16, false)) } else { None },
                None => None,
            }
        }
        None => {
            proof {
                reveal_strlit("F");
                if code@.len() > 0 && code@[0] == 'F' {
                    assert(code@.subrange(0, 1) =~= "F"@);
                }
            }
            None
        }
    }
}

/// The scan code and extended flag of the physical key `code`, or `None` for a
/// name that no key has.
pub fn scan(code: &str) -> (r: Option<(u16, bool)>)
    ensures
        r == scan_code(code@),
{
    if same_text(code, "ControlLeft") {
        Some((0x1d, false))
    } else if same_text(code, "ControlRight") {
        Some((0x1d, true))
    } else if same_text(code, "AltLeft") {
        Some((0x38, false))
    } else if same_text(code, "AltRight") {
        Some((0x38, true))
    } else if same_text(code, "ShiftLeft") {
        Some((0x2a, false))
    } else if same_text(code, "ShiftRight") {
        Some((0x36, false))
    } else if same_text(code, "Tab") {
        Some((0x0f, false))
    } else if same_text(code, "Space") {
        Some((0x39, false))
    } else if same_text(code, "ArrowUp") {
        Some((0x48, true))
    } else if same_text(code, "ArrowDown") {
        Some((0x50, true))
    } else if same_text(code, "ArrowLeft") {
        Some((0x4b, true))
    } else if same_text(code, "ArrowRight") {
        Some((0x4d, true))
    } else if same_text(code, "KeyA") {
        Some((0x1e, false))
    } else if same_text(code, "KeyB") {
        Some((0x30, false))
    } else if same_text(code, "KeyC") {
        Some((0x2e, false))
    } else if same_text(code, "KeyD") {
        Some((0x20, false))
    } else if same_text(code, "KeyE") {
        Some((0x12, false))
    } else if same_text(code, "KeyF") {
        Some((0x21, false))
    } else if same_text(code, "KeyG") {
        Some((0x22, false))
    } else if same_text(code, "KeyH") {
        Some((0x23, false))
    } else if same_text(code, "KeyI") {
        Some((0x17, false))
    } else if same_text(code, "KeyJ") {
        Some((0x24, false))
    } else if same_text(code, "KeyK") {
        Some((0x25, false))
    } else if same_text(code, "KeyL") {
        Some((0x26, false))
    } else if same_text(code, "KeyM") {
        Some((0x32, false))
    } else if same_text(code, "KeyN") {
        Some((0x31, false))
    } else if same_text(code, "KeyO") {
        Some((0x18, false))
    } else if same_text(code, "KeyP") {
        Some((0x19, false))
    } else if same_text(code, "KeyQ") {
        Some((0x10, false))
    } else if same_text(code, "KeyR") {
        Some((0x13, false))
    } else if same_text(code, "KeyS") {
        Some((0x1f, false))
    } else if same_text(code, "KeyT") {
        Some((0x14, false))
    } else if same_text(code, "KeyU") {
        Some((0x16, false))
    } else if same_text(code, "KeyV") {
        Some((0x2f, false))
    } else if same_text(code, "KeyW") {
        Some((0x11, false))
    } else if same_text(code, "KeyX") {
        Some((0x2d, false))
    } else if same_text(code, "KeyY") {
        Some((0x15, false))
    } else if same_text(code, "KeyZ") {
        Some((0x2c, false))
    } else if same_text(code, "Digit1") {
        Some((2, false))
    } else if same_text(code, "Digit2") {
        Some((3, false))
    } else if same_text(code, "Digit3") {
        Some((4, false))
    } else if same_text(code, "Digit4") {
        Some((5, false))
    } else if same_text(code, "Digit5") {
        Some((6, false))
    } else if same_text(code, "Digit6") {
        Some((7, false))
    } else if same_text(code, "Digit7") {
        Some((8, false))
    } else if same_text(code, "Digit8") {
        Some((9, false))
    } else if same_text(code, "Digit9") {
        Some((10, false))
    } else if same_text(code, "Digit0") {
        Some((11, false))
    } else if same_text(code, "F11") {
        Some((0x57, false))
    } else if same_text(code, "F12") {
        Some((0x58, false))
    } else {
        function_key(code)
    }
}

} // verus!
