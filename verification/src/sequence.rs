//! The key strokes that enter a stratagem code in the game, and which keys are
//! let go when entering stops early.

use vstd::prelude::*;
use crate::model::{code_ok, is_direction, is_folder, node_ok, texts, Node, Settings};
use crate::text::{owned, same_text};

verus! {

broadcast use vstd::string::group_string_axioms;

/// One step of entering a code. A step that fails stops the code; the keys
/// still down are then let go (see `keys_to_release`).
pub enum Stroke {
    /// Check that input may still be sent; fails with `inputCancelled` otherwise.
    Check,
    /// Press the key; fails when the system refuses the input.
    Press(String),
    /// Wait `ms`, checking throughout that input may still be sent.
    Wait(u64),
    /// Let go of the key. This step never stops the code: a refused release
    /// cannot be retried any better later.
    Lift(String),
    /// Stop with this error: the code holds something other than a direction.
    Fail(String),
}

/// A stroke as plain values.
pub enum StrokeView {
    Check,
    Press(Seq<char>),
    Wait(u64),
    Lift(Seq<char>),
    Fail(Seq<char>),
}

/// The plain value of `s`.
pub open spec fn stroke_view(s: Stroke) -> StrokeView {
    match s {
        Stroke::Check => StrokeView::Check,
        Stroke::Press(k) => StrokeView::Press(k@),
        Stroke::Wait(ms) => StrokeView::Wait(ms),
        Stroke::Lift(k) => StrokeView::Lift(k@),
        Stroke::Fail(e) => StrokeView::Fail(e@),
    }
}

/// The plain values of a list of strokes.
pub open spec fn strokes_view(v: Seq<Stroke>) -> Seq<StrokeView> {
    Seq::new(v.len(), |i: int| stroke_view(v[i]))
}

/// Whether the game key is held for the whole code (mode `hold`) rather than tapped.
pub open spec fn holds_game_key(s: Settings) -> bool {
    s.mode@ == "hold"@
}

/// The settings key of a direction.
pub open spec fn direction_key(s: Settings, direction: Seq<char>) -> Option<Seq<char>> {
    if direction == "Up"@ {
        Some(s.up@)
    } else if direction == "Down"@ {
        Some(s.down@)
    } else if direction == "Left"@ {
        Some(s.left@)
    } else if direction == "Right"@ {
        Some(s.right@)
    } else {
        None
    }
}

/// A tap of key `k` held for `ms`: check, press, wait, let go.
pub open spec fn tap_strokes(k: Seq<char>, ms: u64) -> Seq<StrokeView> {
    seq![StrokeView::Check, StrokeView::Press(k), StrokeView::Wait(ms), StrokeView::Lift(k)]
}

/// What ends a code: in `hold` mode, letting go of the game key.
pub open spec fn end_strokes(s: Settings) -> Seq<StrokeView> {
    if holds_game_key(s) { seq![StrokeView::Lift(s.game_key@)] } else { Seq::empty() }
}

/// The strokes for the directions `code[i..]`: a tap of each direction's key
/// followed by the gap, then the end of the code; at the first entry that is
/// not a direction, the end of the code and then a failure.
pub open spec fn direction_strokes(s: Settings, code: Seq<Seq<char>>, i: int) -> Seq<StrokeView>
    decreases code.len() - i,
{
    if i < 0 || i >= code.len() {
        end_strokes(s)
    } else {
        match direction_key(s, code[i]) {
            Some(k) => tap_strokes(k, s.press_ms) + seq![StrokeView::Wait(s.gap_ms)] + direction_strokes(
                s,
                code,
                i + 1,
            ),
            None => end_strokes(s) + seq![StrokeView::Fail("invalidKey"@)],
        }
    }
}

/// The first strokes of every code: the game key pressed (`hold` mode) or
/// tapped, then the gap.
pub open spec fn head_strokes(s: Settings) -> Seq<StrokeView> {
    (if holds_game_key(s) {
        seq![StrokeView::Press(s.game_key@)]
    } else {
        tap_strokes(s.game_key@, s.press_ms)
    }) + seq![StrokeView::Wait(s.gap_ms)]
}

/// All strokes for `code`.
pub open spec fn code_strokes(s: Settings, code: Seq<Seq<char>>) -> Seq<StrokeView> {
    head_strokes(s) + direction_strokes(s, code, 0)
}

/// `keys` without any entry equal to `k`.
pub open spec fn without(keys: Seq<Seq<char>>, k: Seq<char>) -> Seq<Seq<char>>
    decreases keys.len(),
{
    if keys.len() == 0 {
        keys
    } else {
        let r = without(keys.drop_last(), k);
        if keys.last() == k { r } else { r.push(keys.last()) }
    }
}

/// The keys down after a stroke, from those down before it (in press order).
pub open spec fn after_stroke(down: Seq<Seq<char>>, stroke: StrokeView) -> Seq<Seq<char>> {
    match stroke {
        StrokeView::Press(k) => down.push(k),
        StrokeView::Lift(k) => without(down, k),
        _ => down,
    }
}

/// The keys down after `strokes`, from those down before them.
pub open spec fn keys_after(down: Seq<Seq<char>>, strokes: Seq<StrokeView>) -> Seq<Seq<char>>
    decreases strokes.len(),
{
    if strokes.len() == 0 {
        down
    } else {
        after_stroke(keys_after(down, strokes.drop_last()), strokes.last())
    }
}

/// The keys down, in press order, just before stroke `i` of `strokes`.
pub open spec fn keys_down(strokes: Seq<StrokeView>, i: int) -> Seq<Seq<char>> {
    keys_after(Seq::empty(), strokes.take(i))
}

/// `s` in reverse order.
pub open spec fn reversed(s: Seq<Seq<char>>) -> Seq<Seq<char>> {
    Seq::new(s.len(), |i: int| s[s.len() - 1 - i])
}

fn key_for(s: &Settings, direction: &str) -> (r: Option<String>)
    ensures
        match r {
            Some(k) => direction_key(*s, direction@) == Some(k@),
            None => direction_key(*s, direction@) is None,
        },
{
    if same_text(direction, "Up") {
        Some(s.up.clone())
    } else if same_text(direction, "Down") {
        Some(s.down.clone())
    } else if same_text(direction, "Left") {
        Some(s.left.clone())
    } else if same_text(direction, "Right") {
        Some(s.right.clone())
    } else {
        None
    }
}

fn push_tap(r: &mut Vec<Stroke>, k: &String, ms: u64)
    ensures
        strokes_view(final(r)@) == strokes_view(old(r)@) + tap_strokes(k@, ms),
{
    let ghost before = strokes_view(r@);
    r.push(Stroke::Check);
    r.push(Stroke::Press(k.clone()));
    r.push(Stroke::Wait(ms));
    r.push(Stroke::Lift(k.clone()));
    assert(strokes_view(r@) =~= before + tap_strokes(k@, ms));
}

fn push_end(r: &mut Vec<Stroke>, s: &Settings, hold: bool)
    requires
        hold == holds_game_key(*s),
    ensures
        strokes_view(final(r)@) == strokes_view(old(r)@) + end_strokes(*s),
{
    let ghost before = strokes_view(r@);
    if hold {
        r.push(Stroke::Lift(s.game_key.clone()));
        assert(strokes_view(r@) =~= before + end_strokes(*s));
    } else {
        assert(strokes_view(r@) =~= before + end_strokes(*s));
    }
}

/// The strokes that enter `code` with the keys and timings of `s`. Every key
/// pressed is let go again before the plan ends, and before a failure, which
/// can only be its last stroke.
pub fn plan_strokes(s: &Settings, code: &Vec<String>) -> (r: Vec<Stroke>)
    ensures
        strokes_view(r@) == code_strokes(*s, texts(code@)),
        keys_down(strokes_view(r@), r@.len() as int) == Seq::<Seq<char>>::empty(),
        forall|i: int|
            0 <= i < r@.len() && #[trigger] strokes_view(r@)[i] is Fail ==> i == r@.len() - 1 && keys_down(
                strokes_view(r@),
                i,
            ) == Seq::<Seq<char>>::empty(),
{
    let ghost dirs = texts(code@);
    let hold = same_text(s.mode.as_str(), "hold");
    let mut r: Vec<Stroke> = Vec::new();
    if hold {
        r.push(Stroke::Press(s.game_key.clone()));
    } else {
        push_tap(&mut r, &s.game_key, s.press_ms);
    }
    r.push(Stroke::Wait(s.gap_ms));
    assert(strokes_view(r@) =~= head_strokes(*s));
    let mut i: usize = 0;
    while i < code.len()
        invariant
            i <= code.len(),
            dirs == texts(code@),
            hold == holds_game_key(*s),
            strokes_view(r@) + direction_strokes(*s, dirs, i as int) == code_strokes(*s, dirs),
        decreases code.len() - i,
    {
        let ghost before = strokes_view(r@);
        assert(dirs[i as int] == code@[i as int]@);
        match key_for(s, code[i].as_str()) {
            Some(k) => {
                push_tap(&mut r, &k, s.press_ms);
                r.push(Stroke::Wait(s.gap_ms));
                assert(strokes_view(r@) =~= before + tap_strokes(k@, s.press_ms) + seq![StrokeView::Wait(s.gap_ms)]);
                assert(strokes_view(r@) + direction_strokes(*s, dirs, i + 1) =~= before + direction_strokes(*s, dirs, i as int));
            },
            None => {
                push_end(&mut r, s, hold);
                let ghost ended = strokes_view(r@);
                r.push(Stroke::Fail(owned("invalidKey")));
                assert(strokes_view(r@) =~= ended.push(StrokeView::Fail("invalidKey"@)));
                assert(direction_key(*s, dirs[i as int]) is None);
                assert(direction_strokes(*s, dirs, i as int) == end_strokes(*s) + seq![StrokeView::Fail("invalidKey"@)]);
                assert(strokes_view(r@) =~= before + direction_strokes(*s, dirs, i as int));
                proof {
                    lemma_plan_releases_keys(*s, dirs);
                }
                return r;
            },
        }
        i = i + 1;
    }
    let ghost before = strokes_view(r@);
    push_end(&mut r, s, hold);
    assert(strokes_view(r@) =~= before + direction_strokes(*s, dirs, i as int));
    proof {
        lemma_plan_releases_keys(*s, dirs);
    }
    r
}

proof fn lemma_keys_after_push(d: Seq<Seq<char>>, a: Seq<StrokeView>, x: StrokeView)
    ensures
        keys_after(d, a.push(x)) == after_stroke(keys_after(d, a), x),
{
    assert(a.push(x).drop_last() =~= a);
}

proof fn lemma_keys_after_append(d: Seq<Seq<char>>, a: Seq<StrokeView>, b: Seq<StrokeView>)
    ensures
        keys_after(d, a + b) == keys_after(keys_after(d, a), b),
    decreases b.len(),
{
    if b.len() == 0 {
        assert(a + b =~= a);
    } else {
        lemma_keys_after_append(d, a, b.drop_last());
        assert((a + b).drop_last() =~= a + b.drop_last());
        assert((a + b).last() == b.last());
    }
}

proof fn lemma_without_small(g: Seq<char>, k: Seq<char>)
    ensures
        without(Seq::empty(), k) == Seq::<Seq<char>>::empty(),
        without(seq![g], k) == (if g == k { Seq::<Seq<char>>::empty() } else { seq![g] }),
{
    assert(seq![g].drop_last() =~= Seq::<Seq<char>>::empty());
    assert(Seq::<Seq<char>>::empty().push(g) =~= seq![g]);
}

proof fn lemma_without_pushed(d: Seq<Seq<char>>, k: Seq<char>)
    ensures
        without(d.push(k), k) == without(d, k),
{
    assert(d.push(k).drop_last() =~= d);
}

/// The keys that may be down between the directions of a code: none, or in
/// `hold` mode the game key.
pub open spec fn between_directions(s: Settings, down: Seq<Seq<char>>) -> bool {
    if holds_game_key(s) {
        down == Seq::<Seq<char>>::empty() || down == seq![s.game_key@]
    } else {
        down == Seq::<Seq<char>>::empty()
    }
}

proof fn lemma_tap_keys(s: Settings, d: Seq<Seq<char>>, k: Seq<char>)
    requires
        between_directions(s, d),
    ensures
        between_directions(s, keys_after(d, tap_strokes(k, s.press_ms) + seq![StrokeView::Wait(s.gap_ms)])),
        keys_after(d, tap_strokes(k, s.press_ms)) == without(d, k),
{
    let e = Seq::<StrokeView>::empty();
    let t1 = e.push(StrokeView::Check);
    let t2 = t1.push(StrokeView::Press(k));
    let t3 = t2.push(StrokeView::Wait(s.press_ms));
    let t4 = t3.push(StrokeView::Lift(k));
    let t5 = t4.push(StrokeView::Wait(s.gap_ms));
    assert(t4 =~= tap_strokes(k, s.press_ms));
    assert(t5 =~= tap_strokes(k, s.press_ms) + seq![StrokeView::Wait(s.gap_ms)]);
    lemma_keys_after_push(d, e, StrokeView::Check);
    lemma_keys_after_push(d, t1, StrokeView::Press(k));
    lemma_keys_after_push(d, t2, StrokeView::Wait(s.press_ms));
    lemma_keys_after_push(d, t3, StrokeView::Lift(k));
    lemma_keys_after_push(d, t4, StrokeView::Wait(s.gap_ms));
    lemma_without_pushed(d, k);
    lemma_without_small(s.game_key@, k);
}

proof fn lemma_head_keys(s: Settings)
    ensures
        between_directions(s, keys_after(Seq::empty(), head_strokes(s))),
        forall|j: int| 0 <= j < head_strokes(s).len() ==> !(#[trigger] head_strokes(s)[j] is Fail),
{
    let e = Seq::<StrokeView>::empty();
    if holds_game_key(s) {
        let h1 = e.push(StrokeView::Press(s.game_key@));
        let h2 = h1.push(StrokeView::Wait(s.gap_ms));
        assert(h2 =~= head_strokes(s));
        lemma_keys_after_push(Seq::empty(), e, StrokeView::Press(s.game_key@));
        lemma_keys_after_push(Seq::empty(), h1, StrokeView::Wait(s.gap_ms));
        assert(Seq::<Seq<char>>::empty().push(s.game_key@) =~= seq![s.game_key@]);
    } else {
        lemma_tap_keys(s, Seq::empty(), s.game_key@);
        lemma_without_small(s.game_key@, s.game_key@);
    }
}

proof fn lemma_end_keys(s: Settings, d: Seq<Seq<char>>)
    requires
        between_directions(s, d),
    ensures
        keys_after(d, end_strokes(s)) == Seq::<Seq<char>>::empty(),
        keys_after(d, end_strokes(s) + seq![StrokeView::Fail("invalidKey"@)]) == Seq::<Seq<char>>::empty(),
{
    let e = Seq::<StrokeView>::empty();
    if holds_game_key(s) {
        assert(end_strokes(s) =~= e.push(StrokeView::Lift(s.game_key@)));
        lemma_keys_after_push(d, e, StrokeView::Lift(s.game_key@));
        lemma_without_small(s.game_key@, s.game_key@);
    } else {
        assert(end_strokes(s) =~= e);
    }
    assert(end_strokes(s) + seq![StrokeView::Fail("invalidKey"@)] =~= end_strokes(s).push(
        StrokeView::Fail("invalidKey"@),
    ));
    lemma_keys_after_push(d, end_strokes(s), StrokeView::Fail("invalidKey"@));
}

proof fn lemma_direction_keys(s: Settings, code: Seq<Seq<char>>, i: int, d: Seq<Seq<char>>)
    requires
        0 <= i <= code.len(),
        between_directions(s, d),
    ensures
        keys_after(d, direction_strokes(s, code, i)) == Seq::<Seq<char>>::empty(),
        forall|j: int|
            0 <= j < direction_strokes(s, code, i).len() && #[trigger] direction_strokes(s, code, i)[j] is Fail
                ==> j == direction_strokes(s, code, i).len() - 1,
    decreases code.len() - i,
{
    let ds = direction_strokes(s, code, i);
    if i >= code.len() {
        lemma_end_keys(s, d);
    } else {
        match direction_key(s, code[i]) {
            Some(k) => {
                let block = tap_strokes(k, s.press_ms) + seq![StrokeView::Wait(s.gap_ms)];
                let rest = direction_strokes(s, code, i + 1);
                assert(ds == block + rest);
                lemma_tap_keys(s, d, k);
                lemma_direction_keys(s, code, i + 1, keys_after(d, block));
                lemma_keys_after_append(d, block, rest);
                assert forall|j: int| 0 <= j < ds.len() && #[trigger] ds[j] is Fail implies j == ds.len() - 1 by {
                    if j >= 5 {
                        assert(ds[j] == rest[j - 5]);
                    } else {
                        assert(ds[j] == block[j]);
                    }
                }
            },
            None => {
                lemma_end_keys(s, d);
                assert forall|j: int| 0 <= j < ds.len() && #[trigger] ds[j] is Fail implies j == ds.len() - 1 by {
                    if j < ds.len() - 1 {
                        assert(ds[j] == end_strokes(s)[j]);
                    }
                }
            },
        }
    }
}

/// Whatever the code, entering it lets go of every key it pressed: no key is
/// down at the end, and a failure (only ever the last stroke) comes when no
/// key is down.
pub proof fn lemma_plan_releases_keys(s: Settings, code: Seq<Seq<char>>)
    ensures
        ({
            let plan = code_strokes(s, code);
            &&& keys_down(plan, plan.len() as int) == Seq::<Seq<char>>::empty()
            &&& forall|i: int|
                0 <= i < plan.len() && #[trigger] plan[i] is Fail ==> i == plan.len() - 1 && keys_down(plan, i)
                    == Seq::<Seq<char>>::empty()
        }),
{
    let plan = code_strokes(s, code);
    let head = head_strokes(s);
    let ds = direction_strokes(s, code, 0);
    lemma_head_keys(s);
    lemma_direction_keys(s, code, 0, keys_after(Seq::empty(), head));
    lemma_keys_after_append(Seq::empty(), head, ds);
    assert(plan.take(plan.len() as int) =~= plan);
    assert forall|i: int| 0 <= i < plan.len() && #[trigger] plan[i] is Fail implies i == plan.len() - 1
        && keys_down(plan, i) == Seq::<Seq<char>>::empty() by {
        if i < head.len() {
            assert(plan[i] == head[i]);
        } else {
            assert(plan[i] == ds[i - head.len()]);
        }
        assert(plan.take(i) =~= plan.drop_last());
    }
}

fn lift_from(down: &Vec<String>, k: &String) -> (r: Vec<String>)
    ensures
        texts(r@) == without(texts(down@), k@),
{
    let mut r: Vec<String> = Vec::new();
    let mut m: usize = 0;
    while m < down.len()
        invariant
            m <= down.len(),
            texts(r@) == without(texts(down@).take(m as int), k@),
        decreases down.len() - m,
    {
        let ghost before = texts(r@);
        let ghost seen = texts(down@).take(m + 1);
        assert(seen.drop_last() =~= texts(down@).take(m as int));
        assert(seen.last() == down@[m as int]@);
        if !same_text(down[m].as_str(), k.as_str()) {
            r.push(down[m].clone());
            assert(texts(r@) =~= before.push(down@[m as int]@));
        }
        m = m + 1;
    }
    assert(texts(down@).take(down.len() as int) =~= texts(down@));
    r
}

/// The keys to let go, last pressed first, when stroke `failed` of `plan`
/// fails: those pressed by the strokes before it and not let go since. A
/// press that fails leaves its own key up, so it is not among them.
pub fn keys_to_release(plan: &Vec<Stroke>, failed: usize) -> (r: Vec<String>)
    requires
        failed < plan.len(),
    ensures
        texts(r@) == reversed(keys_down(strokes_view(plan@), failed as int)),
        keys_after(keys_down(strokes_view(plan@), failed as int), lifts(texts(r@))) == Seq::<Seq<char>>::empty(),
{
    let ghost view = strokes_view(plan@);
    let mut down: Vec<String> = Vec::new();
    let mut j: usize = 0;
    assert(view.take(0) =~= Seq::<StrokeView>::empty());
    assert(texts(down@) =~= Seq::<Seq<char>>::empty());
    while j < failed
        invariant
            j <= failed < plan.len(),
            view == strokes_view(plan@),
            texts(down@) == keys_down(view, j as int),
        decreases failed - j,
    {
        let ghost before = texts(down@);
        proof {
            lemma_keys_after_push(Seq::empty(), view.take(j as int), view[j as int]);
            assert(view.take(j + 1) =~= view.take(j as int).push(view[j as int]));
        }
        match &plan[j] {
            Stroke::Press(k) => {
                down.push(k.clone());
                assert(texts(down@) =~= before.push(k@));
            },
            Stroke::Lift(k) => {
                down = lift_from(&down, k);
            },
            _ => {},
        }
        j = j + 1;
    }
    let mut r: Vec<String> = Vec::new();
    let mut m: usize = down.len();
    while m > 0
        invariant
            m <= down.len(),
            texts(down@) == keys_down(view, failed as int),
            r@.len() == down.len() - m,
            forall|t: int| 0 <= t < r@.len() ==> #[trigger] r@[t]@ == down@[down.len() - 1 - t]@,
        decreases m,
    {
        r.push(down[m - 1].clone());
        m = m - 1;
    }
    assert(texts(r@) =~= reversed(texts(down@)));
    proof {
        lemma_release_leaves_no_key(view, failed as int);
    }
    r
}

/// The strokes for the directions `code[k..]` of a code made only of
/// directions: five per direction, then the end of the code.
proof fn lemma_direction_blocks(s: Settings, code: Seq<Seq<char>>, k: int)
    requires
        0 <= k <= code.len(),
        forall|i: int| 0 <= i < code.len() ==> is_direction(#[trigger] code[i]),
    ensures
        direction_strokes(s, code, k).len() == 5 * (code.len() - k) + end_strokes(s).len(),
        forall|i: int|
            k <= i < code.len() ==> direction_strokes(s, code, k).subrange(5 * (i - k), 5 * (i - k) + 5)
                == tap_strokes(key_of_direction(s, #[trigger] code[i]), s.press_ms) + seq![
                StrokeView::Wait(s.gap_ms),
            ],
        direction_strokes(s, code, k).subrange(5 * (code.len() - k), direction_strokes(s, code, k).len() as int)
            == end_strokes(s),
        forall|j: int|
            0 <= j < direction_strokes(s, code, k).len() ==> !(#[trigger] direction_strokes(s, code, k)[j] is Fail),
    decreases code.len() - k,
{
    let here = direction_strokes(s, code, k);
    if k >= code.len() {
        assert(here.subrange(0, here.len() as int) =~= here);
        assert forall|j: int| 0 <= j < here.len() implies !(#[trigger] here[j] is Fail) by {
            if holds_game_key(s) {
                assert(here[j] == StrokeView::Lift(s.game_key@));
            }
        }
    } else {
        assert(is_direction(code[k]));
        lemma_direction_blocks(s, code, k + 1);
        let rest = direction_strokes(s, code, k + 1);
        let block = tap_strokes(key_of_direction(s, code[k]), s.press_ms) + seq![StrokeView::Wait(s.gap_ms)];
        assert(here == block + rest);
        assert forall|i: int| k <= i < code.len() implies here.subrange(5 * (i - k), 5 * (i - k) + 5) == tap_strokes(
            key_of_direction(s, #[trigger] code[i]),
            s.press_ms,
        ) + seq![StrokeView::Wait(s.gap_ms)] by {
            if i > k {
                assert(here.subrange(5 * (i - k), 5 * (i - k) + 5) =~= rest.subrange(
                    5 * (i - (k + 1)),
                    5 * (i - (k + 1)) + 5,
                ));
            } else {
                assert(here.subrange(0, 5) =~= block);
            }
        }
        assert(here.subrange(5 * (code.len() - k), here.len() as int) =~= rest.subrange(
            5 * (code.len() - (k + 1)),
            rest.len() as int,
        ));
        assert forall|j: int| 0 <= j < here.len() implies !(#[trigger] here[j] is Fail) by {
            if j >= 5 {
                assert(here[j] == rest[j - 5]);
            } else {
                assert(here[j] == block[j]);
            }
        }
    }
}

/// The key of a direction, for one of the four directions.
pub open spec fn key_of_direction(s: Settings, direction: Seq<char>) -> Seq<char> {
    match direction_key(s, direction) {
        Some(k) => k,
        None => Seq::empty(),
    }
}

/// A code of directions is entered without failure: the game key pressed
/// (`hold` mode) or tapped, the gap, then for each direction in order a tap of
/// its key (check, press, wait, let go) followed by the gap, and in `hold`
/// mode the game key let go at the end.
pub proof fn lemma_direction_code_strokes(s: Settings, code: Seq<Seq<char>>)
    requires
        forall|i: int| 0 <= i < code.len() ==> is_direction(#[trigger] code[i]),
    ensures
        ({
            let plan = code_strokes(s, code);
            let h = head_strokes(s).len() as int;
            &&& plan.len() == h + 5 * code.len() + end_strokes(s).len()
            &&& plan.subrange(0, h) == head_strokes(s)
            &&& forall|i: int|
                0 <= i < code.len() ==> plan.subrange(h + 5 * i, h + 5 * i + 5) == tap_strokes(
                    key_of_direction(s, #[trigger] code[i]),
                    s.press_ms,
                ) + seq![StrokeView::Wait(s.gap_ms)]
            &&& plan.subrange(h + 5 * code.len(), plan.len() as int) == end_strokes(s)
            &&& forall|i: int| 0 <= i < plan.len() ==> !(#[trigger] plan[i] is Fail)
        }),
{
    lemma_direction_blocks(s, code, 0);
    let plan = code_strokes(s, code);
    let head = head_strokes(s);
    let ds = direction_strokes(s, code, 0);
    let h = head.len() as int;
    assert(plan.subrange(0, h) =~= head);
    assert forall|i: int| 0 <= i < code.len() implies plan.subrange(h + 5 * i, h + 5 * i + 5) == tap_strokes(
        key_of_direction(s, #[trigger] code[i]),
        s.press_ms,
    ) + seq![StrokeView::Wait(s.gap_ms)] by {
        assert(plan.subrange(h + 5 * i, h + 5 * i + 5) =~= ds.subrange(5 * i, 5 * i + 5));
    }
    assert(plan.subrange(h + 5 * code.len(), plan.len() as int) =~= ds.subrange(5 * code.len() as int, ds.len() as int));
    lemma_head_keys(s);
    assert forall|i: int| 0 <= i < plan.len() implies !(#[trigger] plan[i] is Fail) by {
        if i < h {
            assert(plan[i] == head[i]);
        } else {
            assert(plan[i] == ds[i - h]);
        }
    }
}

/// The code of every stratagem in a well-formed tree (as validation requires
/// of the whole configuration) is entered without failure, with one tap per
/// direction.
pub proof fn lemma_valid_stratagem_entered(s: Settings, n: Node, depth: nat)
    requires
        node_ok(n, depth),
        !is_folder(n),
    ensures
        ({
            let strokes = code_strokes(s, texts(n.code@));
            &&& strokes.len() == head_strokes(s).len() + 5 * n.code@.len() + end_strokes(s).len()
            &&& forall|i: int| 0 <= i < strokes.len() ==> !(#[trigger] strokes[i] is Fail)
        }),
{
    let dirs = texts(n.code@);
    assert(code_ok(n.code@));
    assert forall|i: int| 0 <= i < dirs.len() implies is_direction(#[trigger] dirs[i]) by {
        assert(is_direction(n.code@[i]@));
    }
    lemma_direction_code_strokes(s, dirs);
}

/// Letting go of each key of `keys`, in order.
pub open spec fn lifts(keys: Seq<Seq<char>>) -> Seq<StrokeView> {
    Seq::new(keys.len(), |i: int| StrokeView::Lift(keys[i]))
}

proof fn lemma_without_keeps_others(keys: Seq<Seq<char>>, k: Seq<char>, e: Seq<char>)
    ensures
        without(keys, k).contains(e) ==> keys.contains(e) && e != k,
    decreases keys.len(),
{
    if keys.len() > 0 {
        let r = without(keys.drop_last(), k);
        lemma_without_keeps_others(keys.drop_last(), k, e);
        if without(keys, k).contains(e) {
            if keys.last() != k && e == keys.last() {
                assert(keys[keys.len() - 1] == e);
            } else {
                assert(r.contains(e)) by {
                    let t = choose|t: int| 0 <= t < without(keys, k).len() && without(keys, k)[t] == e;
                    if keys.last() != k {
                        assert(without(keys, k) == r.push(keys.last()));
                        assert(t < r.len());
                        assert(r[t] == e);
                    }
                }
                let t = choose|t: int| 0 <= t < keys.drop_last().len() && keys.drop_last()[t] == e;
                assert(keys[t] == e);
            }
        }
    }
}

proof fn lemma_lifts_clear(down: Seq<Seq<char>>, keys: Seq<Seq<char>>, e: Seq<char>)
    ensures
        keys_after(down, lifts(keys)).contains(e) ==> down.contains(e) && !keys.contains(e),
    decreases keys.len(),
{
    if keys.len() > 0 {
        let rest = keys.drop_last();
        assert(lifts(keys) =~= lifts(rest).push(StrokeView::Lift(keys.last())));
        lemma_keys_after_push(down, lifts(rest), StrokeView::Lift(keys.last()));
        lemma_lifts_clear(down, rest, e);
        lemma_without_keeps_others(keys_after(down, lifts(rest)), keys.last(), e);
        if keys_after(down, lifts(keys)).contains(e) && keys.contains(e) {
            let t = choose|t: int| 0 <= t < keys.len() && keys[t] == e;
            if t < keys.len() - 1 {
                assert(rest[t] == e);
            }
        }
    } else {
        assert(lifts(keys) =~= Seq::<StrokeView>::empty());
    }
}

/// When entering a code stops at a failing stroke, letting go of the keys that
/// `keys_to_release` names leaves no key down.
pub proof fn lemma_release_leaves_no_key(plan: Seq<StrokeView>, failed: int)
    ensures
        keys_after(keys_down(plan, failed), lifts(reversed(keys_down(plan, failed))))
            == Seq::<Seq<char>>::empty(),
{
    let down = keys_down(plan, failed);
    let after = keys_after(down, lifts(reversed(down)));
    assert forall|e: Seq<char>| !after.contains(e) by {
        lemma_lifts_clear(down, reversed(down), e);
        if down.contains(e) {
            let t = choose|t: int| 0 <= t < down.len() && down[t] == e;
            assert(reversed(down)[down.len() - 1 - t] == e);
        }
    }
    if after.len() > 0 {
        assert(after.contains(after[0]));
    }
    assert(after =~= Seq::<Seq<char>>::empty());
}

/// Where the strokes of the first direction begin in the plan of a code:
/// after the two strokes of a held game key, or the five of a tapped one.
pub open spec fn first_direction_at(s: Settings) -> int {
    if s.mode@ == "hold"@ { 2 } else { 5 }
}

/// The four direction names differ from each other.
proof fn lemma_direction_names_differ()
    ensures
        "Down"@ != "Up"@,
        "Left"@ != "Up"@,
        "Right"@ != "Up"@,
        "Left"@ != "Down"@,
        "Right"@ != "Down"@,
        "Right"@ != "Left"@,
{
    reveal_strlit("Up");
    reveal_strlit("Down");
    reveal_strlit("Left");
    reveal_strlit("Right");
    assert("Down"@[0] != "Up"@[0]);
    assert("Left"@[0] != "Up"@[0]);
    assert("Right"@[0] != "Up"@[0]);
    assert("Left"@[0] != "Down"@[0]);
    assert("Right"@[0] != "Down"@[0]);
    assert("Right"@[0] != "Left"@[0]);
}

/// Entering a code of the four directions, in every mode. In `hold` mode the
/// game key is pressed, then the gap waited, and the game key is let go last;
/// in any other mode the game key is tapped (check, press, wait the press
/// time, let go) and the gap waited. Five strokes follow for each direction
/// (see `lemma_direction_taps_its_key`).
pub proof fn lemma_code_entry(s: Settings, code: Seq<Seq<char>>)
    requires
        forall|i: int|
            0 <= i < code.len() ==> #[trigger] code[i] == "Up"@ || code[i] == "Down"@ || code[i] == "Left"@
                || code[i] == "Right"@,
    ensures
        code_strokes(s, code).len() == first_direction_at(s) + 5 * code.len() + (if s.mode@ == "hold"@ {
            1int
        } else {
            0int
        }),
        s.mode@ == "hold"@ ==> code_strokes(s, code)[0] == StrokeView::Press(s.game_key@)
            && code_strokes(s, code)[1] == StrokeView::Wait(s.gap_ms)
            && code_strokes(s, code)[code_strokes(s, code).len() - 1] == StrokeView::Lift(s.game_key@),
        s.mode@ != "hold"@ ==> code_strokes(s, code)[0] == StrokeView::Check
            && code_strokes(s, code)[1] == StrokeView::Press(s.game_key@)
            && code_strokes(s, code)[2] == StrokeView::Wait(s.press_ms)
            && code_strokes(s, code)[3] == StrokeView::Lift(s.game_key@)
            && code_strokes(s, code)[4] == StrokeView::Wait(s.gap_ms),
{
    assert forall|i: int| 0 <= i < code.len() implies is_direction(#[trigger] code[i]) by {}
    lemma_direction_code_strokes(s, code);
    let plan = code_strokes(s, code);
    let h = first_direction_at(s);
    assert(head_strokes(s).len() == h);
    assert(plan[0] == plan.subrange(0, h)[0]);
    assert(plan[1] == plan.subrange(0, h)[1]);
    if s.mode@ != "hold"@ {
        assert(plan[2] == plan.subrange(0, h)[2]);
        assert(plan[3] == plan.subrange(0, h)[3]);
        assert(plan[4] == plan.subrange(0, h)[4]);
    } else {
        let e = h + 5 * code.len();
        assert(plan[plan.len() - 1] == plan.subrange(e, plan.len() as int)[0]);
    }
}

/// In the plan of a code of the four directions, in every mode, direction
/// `i` is a check, a press of that direction's own settings key (`Up` the up
/// key, `Down` the down key, `Left` the left key, `Right` the right key), a
/// wait of the press time, the release of that same key and a wait of the
/// gap, starting after the strokes of the game key and of the directions
/// before it.
pub proof fn lemma_direction_taps_its_key(s: Settings, code: Seq<Seq<char>>, i: int)
    requires
        0 <= i < code.len(),
        forall|j: int|
            0 <= j < code.len() ==> #[trigger] code[j] == "Up"@ || code[j] == "Down"@ || code[j] == "Left"@
                || code[j] == "Right"@,
    ensures
        code_strokes(s, code)[first_direction_at(s) + 5 * i] == StrokeView::Check,
        code_strokes(s, code)[first_direction_at(s) + 5 * i + 2] == StrokeView::Wait(s.press_ms),
        code_strokes(s, code)[first_direction_at(s) + 5 * i + 4] == StrokeView::Wait(s.gap_ms),
        code[i] == "Up"@ ==> code_strokes(s, code)[first_direction_at(s) + 5 * i + 1] == StrokeView::Press(s.up@)
            && code_strokes(s, code)[first_direction_at(s) + 5 * i + 3] == StrokeView::Lift(s.up@),
        code[i] == "Down"@ ==> code_strokes(s, code)[first_direction_at(s) + 5 * i + 1] == StrokeView::Press(
            s.down@,
        ) && code_strokes(s, code)[first_direction_at(s) + 5 * i + 3] == StrokeView::Lift(s.down@),
        code[i] == "Left"@ ==> code_strokes(s, code)[first_direction_at(s) + 5 * i + 1] == StrokeView::Press(
            s.left@,
        ) && code_strokes(s, code)[first_direction_at(s) + 5 * i + 3] == StrokeView::Lift(s.left@),
        code[i] == "Right"@ ==> code_strokes(s, code)[first_direction_at(s) + 5 * i + 1] == StrokeView::Press(
            s.right@,
        ) && code_strokes(s, code)[first_direction_at(s) + 5 * i + 3] == StrokeView::Lift(s.right@),
{
    lemma_direction_names_differ();
    assert forall|j: int| 0 <= j < code.len() implies is_direction(#[trigger] code[j]) by {}
    lemma_direction_code_strokes(s, code);
    let plan = code_strokes(s, code);
    let h = first_direction_at(s);
    assert(head_strokes(s).len() == h);
    let block = plan.subrange(h + 5 * i, h + 5 * i + 5);
    let k = key_of_direction(s, code[i]);
    assert(block == tap_strokes(k, s.press_ms) + seq![StrokeView::Wait(s.gap_ms)]);
    assert(plan[h + 5 * i] == block[0]);
    assert(plan[h + 5 * i + 1] == block[1]);
    assert(plan[h + 5 * i + 2] == block[2]);
    assert(plan[h + 5 * i + 3] == block[3]);
    assert(plan[h + 5 * i + 4] == block[4]);
}

} // verus!
