//! Decisions of the low-level keyboard and mouse hooks and of the commands that
//! depend on the shared engine flags.

use vstd::prelude::*;
use crate::keys::{scan, scan_code};
use crate::model::key_allowed;
use crate::text::{owned, same_text};

verus! {

broadcast use vstd::string::group_string_axioms;

/// The engine flags that the hooks read and write.
pub struct InputFlags {
    /// The engine may open the wheel (hook ready, overlay ready, configured, not stopped).
    pub enabled: bool,
    /// A wheel opened by the trigger is shown.
    pub active: bool,
    /// The trigger is held down.
    pub held: bool,
    /// A stratagem code is being entered.
    pub busy: bool,
    /// A cancel was asked.
    pub cancel: bool,
    /// The release of Escape is to be swallowed.
    pub esc_up: bool,
    /// The release of the left button is to be swallowed.
    pub left_up: bool,
    /// The release of the right button is to be swallowed.
    pub right_up: bool,
    /// Trigger presses seen, wrapping around.
    pub trigger_count: u32,
}

/// What a hook asks of the engine thread.
pub enum Signal {
    Open,
    Release,
    Cancel,
    Back,
    Move,
    Click,
}

/// What a hook does with an input event.
pub struct HookOutcome {
    /// The event is swallowed instead of passed on.
    pub consumed: bool,
    /// The request sent to the engine, if any.
    pub signal: Option<Signal>,
}

/// The code of a keyboard key as the trigger setting stores it: the scan code,
/// with `0x100` set for extended keys.
pub open spec fn key_code_of(scan_code: u32, extended: bool) -> u32 {
    if extended { scan_code | 0x100 } else { scan_code }
}

/// The code of a side mouse button as the trigger setting stores it: `0x10000`
/// plus the button number in the high word of the mouse data.
pub open spec fn mouse_code_of(mouse_data: u32) -> u32 {
    (0x10000 + (mouse_data >> 16)) as u32
}

/// Whether `f` equals `g` in every flag but the trigger count.
pub open spec fn same_flags_but_count(f: InputFlags, g: InputFlags) -> bool {
    f.enabled == g.enabled && f.active == g.active && f.held == g.held && f.busy == g.busy && f.cancel
        == g.cancel && f.esc_up == g.esc_up && f.left_up == g.left_up && f.right_up == g.right_up
}

/// What the trigger going down (`down`) or up does to the flags: the new flags,
/// whether the event is swallowed, and the request sent.
pub open spec fn trigger_step(f: InputFlags, down: bool, on_target: bool) -> (InputFlags, bool, Option<Signal>) {
    if down {
        if f.held {
            (f, true, None)
        } else {
            let counted = InputFlags { trigger_count: f.trigger_count.wrapping_add(1), ..f };
            if f.enabled && on_target && !f.busy {
                (InputFlags { held: true, active: true, cancel: false, ..counted }, true, Some(Signal::Open))
            } else {
                (counted, false, None)
            }
        }
    } else {
        (InputFlags { held: false, ..f }, f.held, if f.held { Some(Signal::Release) } else { None })
    }
}

/// The trigger went down (`down`) or up, with `on_target` saying whether the
/// game window is in front. A press while held is swallowed and changes nothing;
/// otherwise it is counted, and it opens the wheel (held, active, cancel cleared)
/// when the engine is enabled, the game is in front and no code is being entered.
/// A release clears `held` and is swallowed, with a release request, exactly when
/// the trigger was held.
pub fn trigger_event(flags: &mut InputFlags, down: bool, on_target: bool) -> (out: HookOutcome)
    ensures
        down && old(flags).held ==> out.consumed && out.signal is None && *final(flags) == *old(flags),
        down && !old(flags).held ==> {
            let opens = old(flags).enabled && on_target && !old(flags).busy;
            &&& final(flags).trigger_count == old(flags).trigger_count.wrapping_add(1)
            &&& out.consumed == opens
            &&& opens ==> out.signal == Some(Signal::Open) && final(flags).held && final(flags).active
                && !final(flags).cancel && final(flags).enabled == old(flags).enabled && final(flags).busy
                == old(flags).busy && final(flags).esc_up == old(flags).esc_up && final(flags).left_up
                == old(flags).left_up && final(flags).right_up == old(flags).right_up
            &&& !opens ==> out.signal is None && same_flags_but_count(*final(flags), *old(flags))
        },
        !down ==> {
            &&& out.consumed == old(flags).held
            &&& out.signal == (if old(flags).held { Some(Signal::Release) } else { None })
            &&& !final(flags).held
            &&& *final(flags) == (InputFlags { held: false, ..*old(flags) })
        },
        (*final(flags), out.consumed, out.signal) == trigger_step(*old(flags), down, on_target),
{
    if down {
        if flags.held {
            return HookOutcome { consumed: true, signal: None };
        }
        flags.trigger_count = flags.trigger_count.wrapping_add(1);
        if flags.enabled && on_target && !flags.busy {
            flags.held = true;
            flags.active = true;
            flags.cancel = false;
            return HookOutcome { consumed: true, signal: Some(Signal::Open) };
        }
        HookOutcome { consumed: false, signal: None }
    } else {
        let was_held = flags.held;
        flags.held = false;
        if was_held {
            HookOutcome { consumed: true, signal: Some(Signal::Release) }
        } else {
            HookOutcome { consumed: false, signal: None }
        }
    }
}

/// Whether a key event is a press, a release or neither.
pub enum KeyPhase {
    Press,
    Lift,
    Other,
}

/// A low-level keyboard event.
pub struct KeyEvent {
    /// Sent by a program rather than typed.
    pub injected: bool,
    pub phase: KeyPhase,
    pub scan_code: u32,
    pub extended: bool,
    /// The key is Escape.
    pub escape: bool,
}

/// What a keyboard event does: a trigger press or release is handled as
/// `trigger_step`; otherwise Escape pressed while a wheel is open, a code is
/// being entered or an Escape release is pending asks to cancel and is
/// swallowed, as is the matching release. Injected events pass untouched.
pub open spec fn keyboard_step(f: InputFlags, e: KeyEvent, trigger: u32, on_target: bool) -> (
    InputFlags,
    bool,
    Option<Signal>,
) {
    if e.injected {
        (f, false, None)
    } else {
        let down = e.phase is Press;
        let up = e.phase is Lift;
        let t = if (down || up) && key_code_of(e.scan_code, e.extended) == trigger {
            trigger_step(f, down, on_target)
        } else {
            (f, false, None)
        };
        let g = t.0;
        if t.1 {
            t
        } else if e.escape && down && (g.active || g.busy || g.esc_up) {
            (InputFlags { esc_up: true, cancel: true, ..g }, true, Some(Signal::Cancel))
        } else if e.escape && up {
            (InputFlags { esc_up: false, ..g }, g.esc_up, None)
        } else {
            (g, false, None)
        }
    }
}

/// The keyboard hook's decision for `event`, with `trigger` the code of the
/// trigger key and `on_target` whether the game window is in front.
pub fn keyboard_event(flags: &mut InputFlags, event: &KeyEvent, trigger: u32, on_target: bool) -> (out: HookOutcome)
    ensures
        (*final(flags), out.consumed, out.signal) == keyboard_step(*old(flags), *event, trigger, on_target),
{
    if event.injected {
        return HookOutcome { consumed: false, signal: None };
    }
    let down = match event.phase {
        KeyPhase::Press => true,
        _ => false,
    };
    let up = match event.phase {
        KeyPhase::Lift => true,
        _ => false,
    };
    let key: u32 = if event.extended { event.scan_code | 0x100 } else { event.scan_code };
    if (down || up) && key == trigger {
        let out = trigger_event(flags, down, on_target);
        if out.consumed {
            return out;
        }
    }
    if event.escape {
        if down && (flags.active || flags.busy || flags.esc_up) {
            flags.esc_up = true;
            flags.cancel = true;
            return HookOutcome { consumed: true, signal: Some(Signal::Cancel) };
        }
        if up {
            let pending = flags.esc_up;
            flags.esc_up = false;
            return HookOutcome { consumed: pending, signal: None };
        }
    }
    HookOutcome { consumed: false, signal: None }
}

/// The mouse messages that the hook tells apart.
pub enum MouseMessage {
    SideDown,
    SideUp,
    LeftDown,
    LeftUp,
    RightDown,
    RightUp,
    Move,
    Wheel,
    Other,
}

/// A low-level mouse event.
pub struct MouseEvent {
    /// Sent by a program rather than made by the user.
    pub injected: bool,
    pub message: MouseMessage,
    /// The mouse data word; for a side button its high word is the button.
    pub mouse_data: u32,
}

/// What a mouse event does: a side button that is the trigger is handled as
/// `trigger_step`; pending left and right releases are swallowed; while a wheel
/// is open over the game, a right press asks to go back, a move asks to move
/// the pointer, a left press asks to select, and wheel scrolls are swallowed.
/// Injected events pass untouched.
pub open spec fn mouse_step(f: InputFlags, e: MouseEvent, trigger: u32, on_target: bool) -> (
    InputFlags,
    bool,
    Option<Signal>,
) {
    if e.injected {
        (f, false, None)
    } else {
        let side = e.message is SideDown || e.message is SideUp;
        let t = if side && mouse_code_of(e.mouse_data) == trigger {
            trigger_step(f, e.message is SideDown, on_target)
        } else {
            (f, false, None)
        };
        let g = t.0;
        if t.1 {
            t
        } else if e.message is LeftUp && g.left_up {
            (InputFlags { left_up: false, ..g }, true, None)
        } else if e.message is RightUp && g.right_up {
            (InputFlags { right_up: false, ..g }, true, None)
        } else if g.active && on_target && e.message is RightDown {
            (InputFlags { right_up: true, ..g }, true, Some(Signal::Back))
        } else if g.active && on_target && e.message is Move {
            (g, true, Some(Signal::Move))
        } else if g.active && on_target && e.message is LeftDown {
            (InputFlags { left_up: true, ..g }, true, Some(Signal::Click))
        } else if g.active && on_target && e.message is Wheel {
            (g, true, None)
        } else {
            (g, false, None)
        }
    }
}

/// The mouse hook's decision for `event`.
pub fn mouse_event(flags: &mut InputFlags, event: &MouseEvent, trigger: u32, on_target: bool) -> (out: HookOutcome)
    ensures
        (*final(flags), out.consumed, out.signal) == mouse_step(*old(flags), *event, trigger, on_target),
{
    if event.injected {
        return HookOutcome { consumed: false, signal: None };
    }
    let side_down = match event.message {
        MouseMessage::SideDown => true,
        _ => false,
    };
    let side_up = match event.message {
        MouseMessage::SideUp => true,
        _ => false,
    };
    if side_down || side_up {
        let data = event.mouse_data;
        assert(data >> 16u32 <= 0xffff) by (bit_vector);
        let key: u32 = 0x10000 + (data >> 16u32);
        if key == trigger {
            let out = trigger_event(flags, side_down, on_target);
            if out.consumed {
                return out;
            }
        }
    }
    match event.message {
        MouseMessage::LeftUp => {
            if flags.left_up {
                flags.left_up = false;
                return HookOutcome { consumed: true, signal: None };
            }
        },
        MouseMessage::RightUp => {
            if flags.right_up {
                flags.right_up = false;
                return HookOutcome { consumed: true, signal: None };
            }
        },
        _ => {},
    }
    if flags.active && on_target {
        match event.message {
            MouseMessage::RightDown => {
                flags.right_up = true;
                return HookOutcome { consumed: true, signal: Some(Signal::Back) };
            },
            MouseMessage::Move => {
                return HookOutcome { consumed: true, signal: Some(Signal::Move) };
            },
            MouseMessage::LeftDown => {
                flags.left_up = true;
                return HookOutcome { consumed: true, signal: Some(Signal::Click) };
            },
            MouseMessage::Wheel => {
                return HookOutcome { consumed: true, signal: None };
            },
            _ => {},
        }
    }
    HookOutcome { consumed: false, signal: None }
}

/// Whether the engine may open the wheel: the hooks are installed, the overlay
/// has loaded, a configuration is in place and the engine is not stopping.
pub fn refresh_enabled(ready: bool, overlay_ready: bool, has_config: bool, stopped: bool) -> (r: bool)
    ensures
        r == (ready && overlay_ready && has_config && !stopped),
{
    ready && overlay_ready && has_config && !stopped
}

/// Whether the game window is the one in front: a game window is known and it
/// is the foreground window.
pub fn targets_game(game: isize, foreground: isize) -> (r: bool)
    ensures
        r == (game != 0 && foreground == game),
{
    game != 0 && foreground == game
}

/// Whether input may still be sent while a code is entered: the game is in
/// front, no cancel was asked and the engine is enabled; else `inputCancelled`.
pub fn input_permitted(on_target: bool, cancel: bool, enabled: bool) -> (r: Result<(), String>)
    ensures
        match r {
            Ok(()) => on_target && !cancel && enabled,
            Err(e) => !(on_target && !cancel && enabled) && e@ == "inputCancelled"@,
        },
{
    if !on_target || cancel || !enabled {
        Err(owned("inputCancelled"))
    } else {
        Ok(())
    }
}

/// Whether the trigger and the wheel are free: neither is the trigger held nor
/// is a code being entered; else `releaseShortcut`.
pub fn shortcut_released(held: bool, busy: bool) -> (r: Result<(), String>)
    ensures
        match r {
            Ok(()) => !held && !busy,
            Err(e) => (held || busy) && e@ == "releaseShortcut"@,
        },
{
    if held || busy {
        Err(owned("releaseShortcut"))
    } else {
        Ok(())
    }
}

/// Whether a test wheel may be shown: a configuration and the overlay must be
/// ready (else `notReady`), and the trigger and wheel free (else `releaseShortcut`).
pub fn test_overlay_allowed(has_config: bool, overlay_ready: bool, held: bool, busy: bool) -> (r: Result<(), String>)
    ensures
        match r {
            Ok(()) => has_config && overlay_ready && !held && !busy,
            Err(e) => if !has_config || !overlay_ready {
                e@ == "notReady"@
            } else {
                (held || busy) && e@ == "releaseShortcut"@
            },
        },
{
    if !has_config || !overlay_ready {
        return Err(owned("notReady"));
    }
    shortcut_released(held, busy)
}

/// The trigger code of a trigger setting: `0x10001` and `0x10002` for the side
/// mouse buttons, else the key code of the physical key.
pub open spec fn trigger_code_of(trigger: Seq<char>) -> u32 {
    if trigger == "Mouse4"@ {
        0x10001
    } else if trigger == "Mouse5"@ {
        0x10002
    } else {
        let (code, extended) = scan_code(trigger).unwrap();
        key_code_of(code as u32, extended)
    }
}

/// The code that the hooks compare events with, for a trigger setting that
/// validation accepts.
pub fn trigger_code(trigger: &str) -> (r: u32)
    requires
        key_allowed(trigger@, 0),
    ensures
        r == trigger_code_of(trigger@),
{
    if same_text(trigger, "Mouse4") {
        0x10001
    } else if same_text(trigger, "Mouse5") {
        0x10002
    } else {
        match scan(trigger) {
            Some((code, extended)) => if extended { code as u32 | 0x100 } else { code as u32 },
            None => 0,
        }
    }
}

/// The scan code, with `0xe000` for extended keys, by which the state of a
/// settings key is asked of the system; `None` for a name that no key has.
pub fn key_state_query(key: &str) -> (r: Option<u32>)
    ensures
        r == match scan_code(key@) {
            Some((code, extended)) => Some(if extended { code as u32 | 0xe000 } else { code as u32 }),
            None => None::<u32>,
        },
{
    match scan(key) {
        Some((code, extended)) => Some(if extended { code as u32 | 0xe000 } else { code as u32 }),
        None => None,
    }
}

/// `SendInput` flag: the key is given by its scan code.
pub const KEY_BY_SCAN_CODE: u32 = 0x8;

/// `SendInput` flag: the key is an extended key.
pub const KEY_EXTENDED: u32 = 0x1;

/// `SendInput` flag: the key is released.
pub const KEY_RELEASED: u32 = 0x2;

/// The scan code and `SendInput` flags that press (`!up`) or release (`up`) a
/// settings key, or `invalidKey` for a name that no key has.
pub fn key_input(key: &str, up: bool) -> (r: Result<(u16, u32), String>)
    ensures
        match scan_code(key@) {
            Some((code, extended)) => r == Ok::<(u16, u32), String>(
                (
                    code,
                    (KEY_BY_SCAN_CODE + (if extended { KEY_EXTENDED } else { 0 }) + (if up {
                        KEY_RELEASED
                    } else {
                        0
                    })) as u32,
                ),
            ),
            None => r matches Err(e) && e@ == "invalidKey"@,
        },
{
    match scan(key) {
        Some((code, extended)) => {
            let mut flags: u32 = KEY_BY_SCAN_CODE;
            if extended {
                flags = flags + KEY_EXTENDED;
            }
            if up {
                flags = flags + KEY_RELEASED;
            }
            Ok((code, flags))
        },
        None => Err(owned("invalidKey")),
    }
}

/// Refuses to enter a code while any of the settings keys is down
/// (`releaseGameKeys`), so that a code is not mixed with keys the player holds.
pub fn keys_released(down: &[bool]) -> (r: Result<(), String>)
    ensures
        match r {
            Ok(()) => forall|i: int| 0 <= i < down@.len() ==> !#[trigger] down@[i],
            Err(e) => (exists|i: int| 0 <= i < down@.len() && #[trigger] down@[i]) && e@
                == "releaseGameKeys"@,
        },
{
    let mut i: usize = 0;
    while i < down.len()
        invariant
            i <= down.len(),
            forall|j: int| 0 <= j < i ==> !#[trigger] down@[j],
        decreases down.len() - i,
    {
        if down[i] {
            return Err(owned("releaseGameKeys"));
        }
        i = i + 1;
    }
    Ok(())
}

/// A trigger press that opens the wheel, followed by the trigger's release,
/// asks the engine to open and then to act on the release; both events are
/// swallowed, and afterwards the trigger is no longer held while the wheel
/// stays active.
pub proof fn lemma_press_then_release(f: InputFlags, on_target: bool, on_target_later: bool)
    requires
        !f.held,
        f.enabled,
        on_target,
        !f.busy,
    ensures
        ({
            let (g, swallowed, signal) = trigger_step(f, true, on_target);
            let (h, swallowed_up, signal_up) = trigger_step(g, false, on_target_later);
            &&& swallowed && signal == Some(Signal::Open)
            &&& g.held && g.active && !g.cancel
            &&& swallowed_up && signal_up == Some(Signal::Release)
            &&& !h.held && h.active
        }),
{
}

/// While the trigger is held, further presses (key repeat) are swallowed and
/// change nothing; a release of a trigger that is not held passes through
/// untouched.
pub proof fn lemma_repeat_and_stray_release(f: InputFlags, on_target: bool)
    ensures
        f.held ==> trigger_step(f, true, on_target) == (f, true, None::<Signal>),
        !f.held ==> trigger_step(f, false, on_target) == (f, false, None::<Signal>),
{
}

/// Events that a program injected (the code being entered among them) are never
/// swallowed and change no flag.
pub proof fn lemma_injected_events_pass(f: InputFlags, k: KeyEvent, m: MouseEvent, trigger: u32, on_target: bool)
    requires
        k.injected,
        m.injected,
    ensures
        keyboard_step(f, k, trigger, on_target) == (f, false, None::<Signal>),
        mouse_step(f, m, trigger, on_target) == (f, false, None::<Signal>),
{
}

/// Escape pressed while a wheel is open asks to cancel and is swallowed, and so
/// is its release, after which no Escape release is pending any more.
pub proof fn lemma_escape_cancels_quietly(f: InputFlags, down: KeyEvent, up: KeyEvent, trigger: u32, on_target: bool)
    requires
        f.active,
        !down.injected && down.escape && down.phase is Press,
        !up.injected && up.escape && up.phase is Lift,
        key_code_of(down.scan_code, down.extended) != trigger,
        key_code_of(up.scan_code, up.extended) != trigger,
    ensures
        ({
            let (g, swallowed, signal) = keyboard_step(f, down, trigger, on_target);
            let (h, swallowed_up, signal_up) = keyboard_step(g, up, trigger, on_target);
            &&& swallowed && signal == Some(Signal::Cancel) && g.cancel
            &&& swallowed_up && signal_up is None && !h.esc_up && h.cancel
        }),
{
}

/// While a wheel is open over the game, a right press asks to go back and is
/// swallowed, and so is the matching release, so that the game sees neither.
pub proof fn lemma_right_click_swallowed(f: InputFlags, down: MouseEvent, up: MouseEvent, trigger: u32)
    requires
        f.active,
        !down.injected && down.message is RightDown,
        !up.injected && up.message is RightUp,
    ensures
        ({
            let (g, swallowed, signal) = mouse_step(f, down, trigger, true);
            let (h, swallowed_up, signal_up) = mouse_step(g, up, trigger, true);
            &&& swallowed && signal == Some(Signal::Back) && g.right_up
            &&& swallowed_up && signal_up is None && !h.right_up
        }),
{
}

/// Escape pressed (not injected, and not the trigger key) while a wheel is
/// open, a code is being entered or an Escape release is pending is swallowed
/// and asks to cancel, marking the cancel and the pending Escape release;
/// otherwise it passes to the game and changes nothing.
pub proof fn lemma_escape_cancels_open_wheel_or_entry(f: InputFlags, e: KeyEvent, trigger: u32, on_target: bool)
    requires
        !e.injected,
        e.escape,
        e.phase is Press,
        (if e.extended { e.scan_code | 0x100 } else { e.scan_code }) != trigger,
    ensures
        (f.active || f.busy || f.esc_up) ==> keyboard_step(f, e, trigger, on_target) == (
            InputFlags { esc_up: true, cancel: true, ..f },
            true,
            Some(Signal::Cancel),
        ),
        !(f.active || f.busy || f.esc_up) ==> keyboard_step(f, e, trigger, on_target) == (f, false, None::<Signal>),
{
}

/// The trigger set by name is the one the hooks see: `Mouse4` is the first
/// side button (high word 1 of the mouse data) and `Mouse5` the second (high
/// word 2); a key name is the key whose scan code and extended flag the
/// keyboard reports for it.
pub proof fn lemma_trigger_matches_hook_events(mouse_data: u32, name: Seq<char>)
    ensures
        (mouse_code_of(mouse_data) == trigger_code_of("Mouse4"@)) == (mouse_data >> 16 == 1),
        (mouse_code_of(mouse_data) == trigger_code_of("Mouse5"@)) == (mouse_data >> 16 == 2),
        scan_code(name) is Some && name != "Mouse4"@ && name != "Mouse5"@ ==> trigger_code_of(name) == (if scan_code(
            name,
        )->Some_0.1 {
            scan_code(name)->Some_0.0 as u32 | 0x100
        } else {
            scan_code(name)->Some_0.0 as u32
        }),
{
    reveal_strlit("Mouse4");
    reveal_strlit("Mouse5");
    assert("Mouse5"@ != "Mouse4"@) by {
        assert("Mouse5"@[5] != "Mouse4"@[5]);
    }
    assert(mouse_data >> 16u32 <= 0xffff) by (bit_vector);
}

} // verus!
