//! Recognising the game process and choosing its window, and reading the
//! interface language, from what the operating system reports.

use vstd::prelude::*;
use std::collections::HashSet;
use crate::text::{ascii_lowered, eq_ignore_ascii_case, owned};

verus! {

broadcast use {vstd::std_specs::hash::group_hash_axioms, vstd::string::group_string_axioms};

/// The executable name of the game, in small letters.
pub open spec fn game_executable() -> Seq<char> {
    seq!['h', 'e', 'l', 'l', 'd', 'i', 'v', 'e', 'r', 's', '2', '.', 'e', 'x', 'e']
}

/// Whether a process image name is the game's, ignoring ASCII case.
pub open spec fn is_game_name(name: Seq<char>) -> bool {
    ascii_lowered(name) == game_executable()
}

/// Whether `name` is exactly the game's executable name, in any ASCII case.
pub fn is_game_executable(name: &str) -> (r: bool)
    ensures
        r == is_game_name(name@),
{
    let game = "helldivers2.exe";
    proof {
        reveal_strlit("helldivers2.exe");
        assert(ascii_lowered(game@) =~= game_executable());
    }
    eq_ignore_ascii_case(name, game)
}

/// The process that owns a window: the one the window reports, or, when it
/// reports none (0), the process whose thread enumerated it.
pub open spec fn owner_of(reported_pid: u32, enumerated_thread_pid: u32) -> u32 {
    if reported_pid == 0 { enumerated_thread_pid } else { reported_pid }
}

/// The owner of a window as `owner_of` describes it.
pub fn effective_owner(reported_pid: u32, enumerated_thread_pid: u32) -> (r: u32)
    ensures
        r == owner_of(reported_pid, enumerated_thread_pid),
{
    if reported_pid == 0 { enumerated_thread_pid } else { reported_pid }
}

/// The area of a rectangle given by its edges.
pub fn window_area(left: i32, top: i32, right: i32, bottom: i32) -> (r: i64)
    requires
        i32::MIN <= right - left <= i32::MAX,
        i32::MIN <= bottom - top <= i32::MAX,
    ensures
        r == (right - left) * (bottom - top),
{
    let w: i64 = (right - left) as i64;
    let h: i64 = (bottom - top) as i64;
    assert(-0x8000_0000_0000_0000 <= w * h <= 0x7fff_ffff_ffff_ffff) by (nonlinear_arith)
        requires
            -0x8000_0000 <= w <= 0x7fff_ffff,
            -0x8000_0000 <= h <= 0x7fff_ffff,
    ;
    w * h
}

/// Where the first NUL unit of `s` stands at or after `k`, or the length of `s`.
pub open spec fn first_nul(s: Seq<u16>, k: int) -> int
    decreases s.len() - k,
{
    if k < 0 || k >= s.len() {
        s.len() as int
    } else if s[k] == 0 {
        k
    } else {
        first_nul(s, k + 1)
    }
}

/// The units of a NUL-terminated buffer before its terminator (all of them
/// when it has none).
pub open spec fn before_nul(s: Seq<u16>) -> Seq<u16> {
    s.take(first_nul(s, 0))
}

proof fn lemma_first_nul_bounds(s: Seq<u16>, k: int)
    requires
        0 <= k <= s.len(),
    ensures
        k <= first_nul(s, k) <= s.len(),
    decreases s.len() - k,
{
    if k < s.len() && s[k] != 0 {
        lemma_first_nul_bounds(s, k + 1);
    }
}

/// The units of `buffer` before its first NUL unit.
pub fn units_before_nul(buffer: &[u16]) -> (r: Vec<u16>)
    ensures
        r@ == before_nul(buffer@),
{
    let mut r: Vec<u16> = Vec::new();
    let mut i: usize = 0;
    while i < buffer.len() && buffer[i] != 0
        invariant
            i <= buffer.len(),
            first_nul(buffer@, 0) == first_nul(buffer@, i as int),
            r@ == buffer@.take(i as int),
        decreases buffer.len() - i,
    {
        r.push(buffer[i]);
        i = i + 1;
        assert(r@ =~= buffer@.take(i as int));
    }
    assert(first_nul(buffer@, i as int) == i);
    r
}

/// A UTF-16 unit that opens a surrogate pair.
pub open spec fn is_high_surrogate(u: u16) -> bool {
    0xD800 <= u <= 0xDBFF
}

/// A UTF-16 unit that closes a surrogate pair.
pub open spec fn is_low_surrogate(u: u16) -> bool {
    0xDC00 <= u <= 0xDFFF
}

/// The text that UTF-16 `units` encode, with U+FFFD in place of each unit of
/// a surrogate pair that is not whole: a high surrogate followed by a low one
/// is one character, any other surrogate is U+FFFD, any other unit is the
/// character with its number.
pub open spec fn utf16_lossy(units: Seq<u16>) -> Seq<char>
    decreases units.len(),
{
    if units.len() == 0 {
        Seq::empty()
    } else if units.len() >= 2 && is_high_surrogate(units[0]) && is_low_surrogate(units[1]) {
        seq![(0x10000 + (units[0] - 0xD800) * 0x400 + (units[1] - 0xDC00)) as char] + utf16_lossy(
            units.subrange(2, units.len() as int),
        )
    } else if is_high_surrogate(units[0]) || is_low_surrogate(units[0]) {
        seq!['\u{FFFD}'] + utf16_lossy(units.drop_first())
    } else {
        seq![units[0] as char] + utf16_lossy(units.drop_first())
    }
}

/// Calls `String::from_utf16_lossy`, which decodes UTF-16 and puts U+FFFD in
/// place of invalid data; the contract states that decoding (`utf16_lossy`).
#[verifier::external_body]
fn decode_utf16(units: &[u16]) -> (s: String)
    ensures
        s@ == utf16_lossy(units@),
{
    String::from_utf16_lossy(units)
}

/// The text of a NUL-terminated UTF-16 buffer.
pub open spec fn buffer_text(buffer: Seq<u16>) -> Seq<char> {
    utf16_lossy(before_nul(buffer))
}

/// The interface language reported in `buffer` (a NUL-terminated list of
/// language names), or `en` when the first name is empty.
pub open spec fn reported_locale(buffer: Seq<u16>) -> Seq<char> {
    if buffer_text(buffer).len() == 0 { "en"@ } else { buffer_text(buffer) }
}

/// The first language name of a NUL-terminated UTF-16 list, or `en` when it
/// is empty.
pub fn locale_from_units(buffer: &[u16]) -> (r: String)
    ensures
        r@ == reported_locale(buffer@),
{
    let units = units_before_nul(buffer);
    let locale = decode_utf16(units.as_slice());
    if locale.as_str().is_empty() {
        owned("en")
    } else {
        locale
    }
}

/// What a window search has seen so far.
pub ghost struct SearchView {
    pub pids: Set<u32>,
    pub window: isize,
    pub area: i64,
    pub enumerated: nat,
    pub matched: nat,
    pub thread_pid: u32,
}

/// The search for the game's window: the game's process ids, the largest
/// visible window found for them (0 for none) with its area, how many windows
/// were enumerated and how many of them belong to the game, and the process
/// whose thread is being enumerated (0 outside a thread enumeration).
pub struct WindowSearch {
    pids: HashSet<u32>,
    window: isize,
    area: i64,
    enumerated: usize,
    matched: usize,
    thread_pid: u32,
}

impl View for WindowSearch {
    type V = SearchView;

    closed spec fn view(&self) -> SearchView {
        SearchView {
            pids: self.pids@,
            window: self.window,
            area: self.area,
            enumerated: self.enumerated as nat,
            matched: self.matched as nat,
            thread_pid: self.thread_pid,
        }
    }
}

/// The search after one more window: `hwnd`, whose owner is reported as
/// `reported_pid`, visible or not, with client area `area`. A window of the
/// game is counted; a visible one replaces the current choice when there is
/// none yet or when it is strictly larger.
pub open spec fn observed(s: SearchView, hwnd: isize, reported_pid: u32, visible: bool, area: i64) -> SearchView {
    let owned = s.pids.contains(owner_of(reported_pid, s.thread_pid));
    let counted = SearchView {
        enumerated: s.enumerated + 1,
        matched: if owned { s.matched + 1 } else { s.matched },
        ..s
    };
    if owned && visible && (s.window == 0 || area > s.area) {
        SearchView { window: hwnd, area: area, ..counted }
    } else {
        counted
    }
}

/// The search after the game's previous window was considered: it is kept only
/// when nothing was found, it is still a window, and its owner is the game.
pub open spec fn recalled(s: SearchView, previous: isize, previous_pid: u32, is_window: bool) -> SearchView {
    if s.window == 0 && is_window && s.pids.contains(previous_pid) {
        SearchView { window: previous, ..s }
    } else {
        s
    }
}

impl WindowSearch {
    /// An empty search.
    pub fn new() -> (r: WindowSearch)
        ensures
            r@ == (SearchView {
                pids: Set::empty(),
                window: 0,
                area: 0,
                enumerated: 0,
                matched: 0,
                thread_pid: 0,
            }),
    {
        WindowSearch {
            pids: HashSet::new(),
            window: 0,
            area: 0,
            enumerated: 0,
            matched: 0,
            thread_pid: 0,
        }
    }

    /// Records process `pid` when `exe_file`, its NUL-terminated UTF-16 image
    /// name, is the game's.
    pub fn add_process(&mut self, exe_file: &[u16], pid: u32)
        ensures
            final(self)@ == (SearchView {
                pids: if is_game_name(buffer_text(exe_file@)) {
                    old(self)@.pids.insert(pid)
                } else {
                    old(self)@.pids
                },
                ..old(self)@
            }),
    {
        let units = units_before_nul(exe_file);
        let name = decode_utf16(units.as_slice());
        if is_game_executable(name.as_str()) {
            self.pids.insert(pid);
        }
    }

    /// Whether `pid` is one of the game's processes.
    pub fn owns(&self, pid: u32) -> (r: bool)
        ensures
            r == self@.pids.contains(pid),
    {
        self.pids.contains(&pid)
    }

    /// Whether any game process was found.
    pub fn found(&self) -> (r: bool)
        ensures
            r == !self@.pids.is_empty(),
    {
        !self.pids.is_empty()
    }

    /// The chosen window, 0 for none.
    pub fn window(&self) -> (r: isize)
        ensures
            r == self@.window,
    {
        self.window
    }

    /// How many windows were enumerated.
    pub fn enumerated(&self) -> (r: usize)
        ensures
            r == self@.enumerated,
    {
        self.enumerated
    }

    /// How many enumerated windows belong to the game.
    pub fn matched(&self) -> (r: usize)
        ensures
            r == self@.matched,
    {
        self.matched
    }

    /// The game's process ids.
    pub fn process_ids(&self) -> (r: &HashSet<u32>)
        ensures
            r@ == self@.pids,
    {
        &self.pids
    }

    /// The process whose thread windows are being enumerated (0 for none).
    pub fn thread_owner(&self) -> (r: u32)
        ensures
            r == self@.thread_pid,
    {
        self.thread_pid
    }

    /// Sets the process whose thread windows are enumerated next (0 after).
    pub fn set_thread_owner(&mut self, pid: u32)
        ensures
            final(self)@ == (SearchView { thread_pid: pid, ..old(self)@ }),
    {
        self.thread_pid = pid;
    }

    /// Takes one enumerated window into account (see `observed`).
    pub fn observe(&mut self, hwnd: isize, reported_pid: u32, visible: bool, area: i64)
        requires
            old(self)@.enumerated < usize::MAX,
            old(self)@.matched < usize::MAX,
        ensures
            final(self)@ == observed(old(self)@, hwnd, reported_pid, visible, area),
    {
        self.enumerated = self.enumerated + 1;
        let pid = effective_owner(reported_pid, self.thread_pid);
        let owned = self.pids.contains(&pid);
        if owned {
            self.matched = self.matched + 1;
        }
        if owned && visible && (self.window == 0 || area > self.area) {
            self.window = hwnd;
            self.area = area;
        }
    }

    /// Falls back on the game's previous window (see `recalled`).
    pub fn recall(&mut self, previous: isize, previous_pid: u32, is_window: bool)
        ensures
            final(self)@ == recalled(old(self)@, previous, previous_pid, is_window),
    {
        if self.window == 0 && is_window && self.pids.contains(&previous_pid) {
            self.window = previous;
        }
    }

    /// Whether the game runs, and its window (0 for none).
    pub fn outcome(&self) -> (r: (bool, isize))
        ensures
            r == (!self@.pids.is_empty(), self@.window),
    {
        (!self.pids.is_empty(), self.window)
    }
}

/// A window's reported owner is never replaced by the enumerating thread's
/// process; only a window that reports no owner takes it.
pub proof fn lemma_reported_owner_kept(reported_pid: u32, enumerated_thread_pid: u32)
    ensures
        reported_pid != 0 ==> owner_of(reported_pid, enumerated_thread_pid) == reported_pid,
        reported_pid == 0 ==> owner_of(reported_pid, enumerated_thread_pid) == enumerated_thread_pid,
{
}

/// Each enumerated window is counted, and the search's choice changes only to a
/// visible window of one of the game's processes, strictly larger than the
/// window chosen before, if any. The game's processes do not change.
pub proof fn lemma_choice_only_grows(s: SearchView, hwnd: isize, reported_pid: u32, visible: bool, area: i64)
    ensures
        ({
            let t = observed(s, hwnd, reported_pid, visible, area);
            &&& t.pids == s.pids && t.thread_pid == s.thread_pid
            &&& t.enumerated == s.enumerated + 1
            &&& (t.window != s.window || t.area != s.area) ==> {
                &&& s.pids.contains(owner_of(reported_pid, s.thread_pid))
                &&& visible
                &&& t.window == hwnd && t.area == area
                &&& (s.window == 0 || area > s.area)
            }
            &&& s.window != 0 ==> t.area >= s.area
        }),
{
}

/// The game's previous window is used only when the search found none, and
/// only when it still exists and belongs to the game.
pub proof fn lemma_previous_window_last_resort(s: SearchView, previous: isize, previous_pid: u32, is_window: bool)
    ensures
        s.window != 0 ==> recalled(s, previous, previous_pid, is_window) == s,
        (!is_window || !s.pids.contains(previous_pid)) ==> recalled(s, previous, previous_pid, is_window) == s,
{
}

/// The search after each window of `windows` in turn; each entry is a window
/// handle, its reported owner, whether it is visible, and its area.
pub open spec fn observed_all(s: SearchView, windows: Seq<(isize, u32, bool, i64)>) -> SearchView
    decreases windows.len(),
{
    if windows.len() == 0 {
        s
    } else {
        let w = windows.last();
        observed(observed_all(s, windows.drop_last()), w.0, w.1, w.2, w.3)
    }
}

/// Whether an enumerated window is a visible window of the game.
pub open spec fn visible_game_window(s: SearchView, w: (isize, u32, bool, i64)) -> bool {
    w.2 && s.pids.contains(owner_of(w.1, s.thread_pid))
}

/// Over any run of enumerated windows (whose handles are never null), the
/// search ends on a window as large as every visible window of the game it
/// saw, and that window is the one it started with or one of those windows.
pub proof fn lemma_search_keeps_largest(s: SearchView, windows: Seq<(isize, u32, bool, i64)>)
    requires
        forall|i: int| 0 <= i < windows.len() ==> (#[trigger] windows[i]).0 != 0,
    ensures
        ({
            let t = observed_all(s, windows);
            &&& t.pids == s.pids && t.thread_pid == s.thread_pid
            &&& t.enumerated == s.enumerated + windows.len()
            &&& forall|i: int|
                0 <= i < windows.len() && visible_game_window(s, #[trigger] windows[i]) ==> t.window != 0
                    && t.area >= windows[i].3
            &&& s.window != 0 ==> t.window != 0 && t.area >= s.area
            &&& t.window == s.window || exists|i: int|
                0 <= i < windows.len() && visible_game_window(s, #[trigger] windows[i]) && t.window
                    == windows[i].0 && t.area == windows[i].3
        }),
    decreases windows.len(),
{
    if windows.len() > 0 {
        let rest = windows.drop_last();
        let w = windows.last();
        let n = windows.len() - 1;
        assert forall|i: int| 0 <= i < rest.len() implies (#[trigger] rest[i]).0 != 0 by {
            assert(rest[i] == windows[i]);
        }
        lemma_search_keeps_largest(s, rest);
        let p = observed_all(s, rest);
        let t = observed_all(s, windows);
        assert(t == observed(p, w.0, w.1, w.2, w.3));
        assert(w == windows[n]);
        assert forall|i: int|
            0 <= i < windows.len() && visible_game_window(s, #[trigger] windows[i]) implies t.window != 0
                && t.area >= windows[i].3 by {
            if i < n {
                assert(rest[i] == windows[i]);
                assert(visible_game_window(s, rest[i]));
            }
        }
        if t.window != s.window {
            if t.window == p.window {
                let k = choose|k: int|
                    0 <= k < rest.len() && visible_game_window(s, #[trigger] rest[k]) && p.window == rest[k].0
                        && p.area == rest[k].3;
                assert(rest[k] == windows[k]);
                assert(visible_game_window(s, windows[k]));
            } else {
                assert(visible_game_window(s, windows[n]));
            }
        }
    }
}

/// How many of `windows` belong to one of the game's processes.
pub open spec fn game_window_count(s: SearchView, windows: Seq<(isize, u32, bool, i64)>) -> nat
    decreases windows.len(),
{
    if windows.len() == 0 {
        0
    } else {
        game_window_count(s, windows.drop_last()) + (if s.pids.contains(
            owner_of(windows.last().1, s.thread_pid),
        ) {
            1nat
        } else {
            0nat
        })
    }
}

/// A search that starts with no window, over windows whose handles are never
/// null, counts every window and every window of the game, and ends on the
/// first of the largest visible windows of the game, or on none when it saw
/// no visible window of the game.
pub proof fn lemma_search_first_largest(s: SearchView, windows: Seq<(isize, u32, bool, i64)>)
    requires
        s.window == 0,
        forall|i: int| 0 <= i < windows.len() ==> (#[trigger] windows[i]).0 != 0,
    ensures
        ({
            let t = observed_all(s, windows);
            &&& t.enumerated == s.enumerated + windows.len()
            &&& t.matched == s.matched + game_window_count(s, windows)
            &&& (forall|i: int| 0 <= i < windows.len() ==> !visible_game_window(s, #[trigger] windows[i]))
                ==> t.window == 0
            &&& (exists|i: int| 0 <= i < windows.len() && visible_game_window(s, #[trigger] windows[i]))
                ==> exists|k: int|
                0 <= k < windows.len() && visible_game_window(s, #[trigger] windows[k]) && t.window
                    == windows[k].0 && t.area == windows[k].3 && (forall|j: int|
                    0 <= j < windows.len() && visible_game_window(s, #[trigger] windows[j]) ==> windows[j].3
                        <= windows[k].3) && (forall|j: int|
                    0 <= j < k && visible_game_window(s, #[trigger] windows[j]) ==> windows[j].3 < windows[k].3)
        }),
    decreases windows.len(),
{
    if windows.len() > 0 {
        let rest = windows.drop_last();
        let w = windows.last();
        let n = windows.len() - 1;
        assert forall|i: int| 0 <= i < rest.len() implies (#[trigger] rest[i]).0 != 0 by {
            assert(rest[i] == windows[i]);
        }
        lemma_search_first_largest(s, rest);
        lemma_search_keeps_largest(s, rest);
        let p = observed_all(s, rest);
        let t = observed_all(s, windows);
        assert(t == observed(p, w.0, w.1, w.2, w.3));
        assert(w == windows[n]);
        assert(p.pids == s.pids && p.thread_pid == s.thread_pid);
        let any_rest = exists|i: int| 0 <= i < rest.len() && visible_game_window(s, #[trigger] rest[i]);
        if !any_rest {
            assert forall|i: int| 0 <= i < rest.len() implies !visible_game_window(s, #[trigger] rest[i]) by {}
            assert(p.window == 0);
            assert forall|j: int| 0 <= j < n && visible_game_window(s, #[trigger] windows[j]) implies false by {
                assert(rest[j] == windows[j]);
            }
            if visible_game_window(s, windows[n]) {
                assert(t.window == windows[n].0 && t.area == windows[n].3);
                assert(visible_game_window(s, windows[n]));
            } else {
                assert forall|i: int| 0 <= i < windows.len() implies !visible_game_window(s, #[trigger] windows[i]) by {
                    if i < n {
                        assert(rest[i] == windows[i]);
                    }
                }
            }
        } else {
            let k = choose|k: int|
                0 <= k < rest.len() && visible_game_window(s, #[trigger] rest[k]) && p.window == rest[k].0
                    && p.area == rest[k].3 && (forall|j: int|
                    0 <= j < rest.len() && visible_game_window(s, #[trigger] rest[j]) ==> rest[j].3 <= rest[k].3)
                    && (forall|j: int| 0 <= j < k && visible_game_window(s, #[trigger] rest[j]) ==> rest[j].3 < rest[k].3);
            assert(rest[k] == windows[k]);
            assert(p.window != 0);
            if visible_game_window(s, windows[n]) && windows[n].3 > p.area {
                assert(t.window == windows[n].0 && t.area == windows[n].3);
                assert forall|j: int| 0 <= j < windows.len() && visible_game_window(s, #[trigger] windows[j]) implies
                    windows[j].3 <= windows[n].3 by {
                    if j < n {
                        assert(rest[j] == windows[j]);
                        assert(visible_game_window(s, rest[j]));
                    }
                }
                assert forall|j: int| 0 <= j < n && visible_game_window(s, #[trigger] windows[j]) implies windows[j].3
                    < windows[n].3 by {
                    assert(rest[j] == windows[j]);
                    assert(visible_game_window(s, rest[j]));
                }
            } else {
                assert(t.window == p.window && t.area == p.area);
                assert forall|j: int| 0 <= j < windows.len() && visible_game_window(s, #[trigger] windows[j]) implies
                    windows[j].3 <= windows[k].3 by {
                    if j < n {
                        assert(rest[j] == windows[j]);
                        assert(visible_game_window(s, rest[j]));
                    }
                }
                assert forall|j: int| 0 <= j < k && visible_game_window(s, #[trigger] windows[j]) implies windows[j].3
                    < windows[k].3 by {
                    assert(rest[j] == windows[j]);
                    assert(visible_game_window(s, rest[j]));
                }
                assert(visible_game_window(s, windows[k]));
            }
        }
    }
}

} // verus!
