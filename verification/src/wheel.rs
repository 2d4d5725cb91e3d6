//! Navigation in the open wheel: the stack of folders from the root down to the
//! one shown, the pointed sector, and what a click, a release or a back press does.

use vstd::prelude::*;
use crate::model::{copy_texts, node_view, texts, Node, NodeView};
use crate::text::same_text;

verus! {

broadcast use vstd::string::group_string_axioms;

/// What the caller does after a wheel operation.
pub enum WheelAction {
    /// Nothing happened.
    Ignore,
    /// The wheel was closed: hide it and send an empty frame.
    Close,
    /// The wheel shows another folder: recenter the pointer and send a frame.
    Redraw,
    /// The wheel was closed and this stratagem code is to be entered.
    Run(Vec<String>),
}

/// A wheel action as plain values.
pub enum WheelOutcome {
    Ignore,
    Close,
    Redraw,
    Run(Seq<Seq<char>>),
}

/// The plain value of `a`.
pub open spec fn outcome(a: WheelAction) -> WheelOutcome {
    match a {
        WheelAction::Ignore => WheelOutcome::Ignore,
        WheelAction::Close => WheelOutcome::Close,
        WheelAction::Redraw => WheelOutcome::Redraw,
        WheelAction::Run(code) => WheelOutcome::Run(texts(code@)),
    }
}

/// Whether a node is a folder.
pub open spec fn folder_view(n: NodeView) -> bool {
    n.kind == "folder"@
}

/// Whether `levels` is a path down the tree: each level after the first is a
/// folder among the entries of the level above it.
pub open spec fn is_path(levels: Seq<NodeView>) -> bool {
    forall|i: int|
        0 < i < levels.len() ==> folder_view(#[trigger] levels[i]) && levels[i - 1].children.contains(
            levels[i],
        )
}

/// The entry that the pointer selects in the folder shown, if any.
pub open spec fn pointed(levels: Seq<NodeView>, selected: Option<usize>) -> Option<NodeView> {
    match selected {
        Some(i) => if levels.len() > 0 && i < levels.last().children.len() {
            Some(levels.last().children[i as int])
        } else {
            None
        },
        None => None,
    }
}

/// The closed wheel.
pub open spec fn closed_state() -> (Seq<NodeView>, Option<usize>) {
    (Seq::empty(), None)
}

/// What a click (`click`) or a trigger release (`!click`) does.
pub open spec fn select_step(
    state: (Seq<NodeView>, Option<usize>),
    active: bool,
    on_target: bool,
    cancel: bool,
    click: bool,
) -> ((Seq<NodeView>, Option<usize>), WheelOutcome) {
    let (levels, selected) = state;
    if !active {
        (state, WheelOutcome::Ignore)
    } else if !on_target || cancel {
        (closed_state(), WheelOutcome::Close)
    } else {
        match pointed(levels, selected) {
            Some(n) => if folder_view(n) {
                if click {
                    ((levels.push(n), None), WheelOutcome::Redraw)
                } else {
                    (closed_state(), WheelOutcome::Close)
                }
            } else {
                (closed_state(), WheelOutcome::Run(n.code))
            },
            None => if click && levels.len() > 1 {
                ((levels.drop_last(), None), WheelOutcome::Redraw)
            } else {
                (closed_state(), WheelOutcome::Close)
            },
        }
    }
}

/// What a right click (back) does.
pub open spec fn back_step(
    state: (Seq<NodeView>, Option<usize>),
    active: bool,
    on_target: bool,
    cancel: bool,
) -> ((Seq<NodeView>, Option<usize>), WheelOutcome) {
    let (levels, selected) = state;
    if !active {
        (state, WheelOutcome::Ignore)
    } else if !on_target || cancel || levels.len() <= 1 {
        (closed_state(), WheelOutcome::Close)
    } else {
        ((levels.drop_last(), None), WheelOutcome::Redraw)
    }
}

/// The navigation state of the wheel.
pub struct Wheel {
    stack: Vec<Node>,
    selected: Option<usize>,
}

impl Wheel {
    /// The levels shown, from the root down.
    pub closed spec fn levels(&self) -> Seq<NodeView> {
        Seq::new(self.stack@.len(), |i: int| node_view(self.stack@[i]))
    }

    /// The pointed sector of the folder shown.
    pub closed spec fn choice(&self) -> Option<usize> {
        self.selected
    }

    /// The state as plain values.
    pub open spec fn state(&self) -> (Seq<NodeView>, Option<usize>) {
        (self.levels(), self.choice())
    }

    /// A closed wheel.
    pub fn new() -> (w: Wheel)
        ensures
            w.state() == closed_state(),
    {
        let w = Wheel { stack: Vec::new(), selected: None };
        assert(w.levels() =~= Seq::<NodeView>::empty());
        w
    }

    /// Closes the wheel.
    pub fn close(&mut self)
        ensures
            final(self).state() == closed_state(),
    {
        self.stack = Vec::new();
        self.selected = None;
        assert(self.levels() =~= Seq::<NodeView>::empty());
    }

    /// Opens the wheel on `root`, with no sector pointed.
    pub fn open(&mut self, root: &Node)
        ensures
            final(self).state() == (seq![node_view(*root)], None::<usize>),
    {
        let mut stack: Vec<Node> = Vec::new();
        stack.push(root.duplicate());
        self.stack = stack;
        self.selected = None;
        assert(self.levels() =~= seq![node_view(*root)]);
    }

    /// Whether the wheel shows a folder.
    pub fn is_open(&self) -> (r: bool)
        ensures
            r == (self.levels().len() > 0),
    {
        self.stack.len() > 0
    }

    /// The number of entries of the folder shown, or `None` when closed.
    pub fn entry_count(&self) -> (r: Option<usize>)
        ensures
            match r {
                Some(n) => self.levels().len() > 0 && n == self.levels().last().children.len(),
                None => self.levels().len() == 0,
            },
    {
        if self.stack.len() == 0 {
            None
        } else {
            let top = &self.stack[self.stack.len() - 1];
            assert(node_view(*top).children.len() == top.children@.len());
            Some(top.children.len())
        }
    }

    /// Points at `next`; says whether the pointed sector changed.
    pub fn point(&mut self, next: Option<usize>) -> (changed: bool)
        ensures
            changed == (next != old(self).choice()),
            final(self).state() == (old(self).levels(), next),
    {
        let changed = match (next, self.selected) {
            (Some(a), Some(b)) => a != b,
            (None, None) => false,
            _ => true,
        };
        self.selected = next;
        changed
    }

    /// What a frame shows: the entries of the folder shown, the pointed sector
    /// (`-1` for none) and the folder's name; empty when the wheel is closed.
    pub fn frame(&self) -> (r: (Vec<Node>, i32, String))
        ensures
            self.levels().len() > 0 ==> Seq::new(r.0@.len(), |i: int| node_view(r.0@[i]))
                == self.levels().last().children && r.2@ == self.levels().last().name,
            self.levels().len() == 0 ==> r.0@.len() == 0 && r.2@.len() == 0,
            r.1 == match self.choice() {
                Some(i) => i as i32,
                None => -1i32,
            },
    {
        let sel: i32 = match self.selected {
            Some(i) => i as i32,
            None => -1,
        };
        if self.stack.len() == 0 {
            return (Vec::new(), sel, String::new());
        }
        let top = &self.stack[self.stack.len() - 1];
        let ghost last = self.levels().last();
        assert(last == node_view(*top));
        let mut items: Vec<Node> = Vec::new();
        let mut i: usize = 0;
        while i < top.children.len()
            invariant
                i <= top.children.len(),
                items@.len() == i,
                forall|j: int| 0 <= j < i ==> #[trigger] node_view(items@[j]) == node_view(top.children@[j]),
            decreases top.children.len() - i,
        {
            items.push(top.children[i].duplicate());
            i = i + 1;
        }
        assert forall|j: int| 0 <= j < items@.len() implies Seq::new(items@.len(), |k: int| node_view(items@[k]))[j] == last.children[j] by {
            assert(node_view(items@[j]) == node_view(top.children@[j]));
        }
        assert(Seq::new(items@.len(), |k: int| node_view(items@[k])) =~= last.children);
        (items, sel, top.name.clone())
    }

    fn pop_level(&mut self)
        requires
            old(self).stack@.len() > 0,
        ensures
            final(self).state() == (old(self).levels().drop_last(), None::<usize>),
    {
        self.stack.pop();
        self.selected = None;
        assert(self.levels() =~= old(self).levels().drop_last());
    }

    /// A click (`click`) or a trigger release (`!click`), when the wheel is
    /// `active`, the game window is the target (`on_target`) and no cancel was
    /// asked (`cancel`).
    pub fn select(&mut self, active: bool, on_target: bool, cancel: bool, click: bool) -> (a: WheelAction)
        ensures
            (final(self).state(), outcome(a)) == select_step(old(self).state(), active, on_target, cancel, click),
    {
        if !active {
            return WheelAction::Ignore;
        }
        if !on_target || cancel {
            self.close();
            return WheelAction::Close;
        }
        let ghost levels = self.levels();
        let n = self.stack.len();
        let found: Option<usize> = match self.selected {
            Some(i) => if n > 0 && i < self.stack[n - 1].children.len() { Some(i) } else { None },
            None => None,
        };
        proof {
            if n > 0 {
                assert(levels.last() == node_view(self.stack@[n - 1]));
            }
        }
        match found {
            Some(i) => {
                let child = self.stack[n - 1].children[i].duplicate();
                assert(node_view(child) == levels.last().children[i as int]);
                if same_text(child.kind.as_str(), "folder") {
                    if click {
                        self.stack.push(child);
                        self.selected = None;
                        assert(self.levels() =~= levels.push(node_view(child)));
                        WheelAction::Redraw
                    } else {
                        self.close();
                        WheelAction::Close
                    }
                } else {
                    let code = copy_texts(&child.code);
                    self.close();
                    WheelAction::Run(code)
                }
            },
            None => {
                if click && n > 1 {
                    self.pop_level();
                    WheelAction::Redraw
                } else {
                    self.close();
                    WheelAction::Close
                }
            },
        }
    }

    /// A right click (back) under the same conditions as `select`.
    pub fn back(&mut self, active: bool, on_target: bool, cancel: bool) -> (a: WheelAction)
        ensures
            (final(self).state(), outcome(a)) == back_step(old(self).state(), active, on_target, cancel),
    {
        if !active {
            return WheelAction::Ignore;
        }
        if !on_target || cancel || self.stack.len() <= 1 {
            self.close();
            return WheelAction::Close;
        }
        self.pop_level();
        WheelAction::Redraw
    }
}

/// Whether the wheel opens: a configuration is in place and, for a wheel opened
/// by the trigger rather than a test, the engine is enabled and the game is in
/// front. Otherwise the wheel closes.
pub fn may_open(has_config: bool, testing: bool, enabled: bool, on_target: bool) -> (r: bool)
    ensures
        r == (has_config && (testing || (enabled && on_target))),
{
    has_config && (testing || (enabled && on_target))
}


/// How long a wheel opened by the trigger stays open: 30 s.
pub const OPEN_LIMIT_NS: u64 = 30000000000;

/// How long a test wheel stays open: 8 s.
pub const TEST_LIMIT_NS: u64 = 8000000000;

/// The shortest time between two frames sent for pointer moves: 8 ms.
pub const FRAME_INTERVAL_NS: u64 = 8000000;

/// What the engine does at the end of each turn of its loop.
pub struct Tick {
    /// Close the wheel.
    pub close: bool,
    /// Send a frame for pointer moves not yet shown.
    pub redraw: bool,
}

/// The end-of-turn decision: an active wheel closes when the game is no longer
/// the target, a cancel was asked or it has been open longer than 30 s; a test
/// wheel closes after 8 s; otherwise an active wheel whose pointer moved sends
/// a frame once 8 ms have passed since the last one. Times are in nanoseconds.
pub fn tick(
    active: bool,
    testing: bool,
    on_target: bool,
    cancel: bool,
    open_ns: u64,
    pointer_moved: bool,
    since_frame_ns: u64,
) -> (t: Tick)
    ensures
        t.close == ((active && (!on_target || cancel || open_ns > OPEN_LIMIT_NS)) || (testing && open_ns
            > TEST_LIMIT_NS)),
        t.redraw == (!t.close && active && pointer_moved && since_frame_ns >= FRAME_INTERVAL_NS),
{
    let close = (active && (!on_target || cancel || open_ns > OPEN_LIMIT_NS)) || (testing && open_ns
        > TEST_LIMIT_NS);
    Tick { close, redraw: !close && active && pointer_moved && since_frame_ns >= FRAME_INTERVAL_NS }
}

/// Every wheel operation keeps the levels shown a path down the tree: a click
/// or a release, a back press, opening on a root, and closing.
pub proof fn lemma_steps_keep_path(
    state: (Seq<NodeView>, Option<usize>),
    root: NodeView,
    active: bool,
    on_target: bool,
    cancel: bool,
    click: bool,
)
    requires
        is_path(state.0),
    ensures
        is_path(select_step(state, active, on_target, cancel, click).0.0),
        is_path(back_step(state, active, on_target, cancel).0.0),
        is_path(seq![root]),
        is_path(closed_state().0),
{
    let (levels, selected) = state;
    let next = select_step(state, active, on_target, cancel, click).0.0;
    if active && on_target && !cancel && click {
        match pointed(levels, selected) {
            Some(n) => if folder_view(n) {
                assert(next == levels.push(n));
                assert forall|i: int| 0 < i < next.len() implies folder_view(#[trigger] next[i])
                    && next[i - 1].children.contains(next[i]) by {
                    if i == levels.len() {
                        let k = selected.unwrap() as int;
                        assert(levels.last().children[k] == n);
                    }
                }
            },
            None => {
                if levels.len() > 1 {
                    assert forall|i: int| 0 < i < next.len() implies folder_view(#[trigger] next[i])
                        && next[i - 1].children.contains(next[i]) by {
                        assert(next[i] == levels[i]);
                        assert(next[i - 1] == levels[i - 1]);
                    }
                }
            },
        }
    }
    let back = back_step(state, active, on_target, cancel).0.0;
    if active && on_target && !cancel && levels.len() > 1 {
        assert forall|i: int| 0 < i < back.len() implies folder_view(#[trigger] back[i])
            && back[i - 1].children.contains(back[i]) by {
            assert(back[i] == levels[i]);
            assert(back[i - 1] == levels[i - 1]);
        }
    }
}

/// A back press returns from a folder that a click entered: the levels shown
/// are those before the click, with no sector pointed.
pub proof fn lemma_back_undoes_enter(state: (Seq<NodeView>, Option<usize>))
    requires
        select_step(state, true, true, false, true).1 == WheelOutcome::Redraw,
        pointed(state.0, state.1) is Some,
    ensures
        back_step(select_step(state, true, true, false, true).0, true, true, false) == (
            (state.0, None::<usize>),
            WheelOutcome::Redraw,
        ),
{
    let entered = select_step(state, true, true, false, true).0;
    assert(entered.0.drop_last() =~= state.0);
}

/// At the root, a back press closes the wheel.
pub proof fn lemma_back_at_root_closes(state: (Seq<NodeView>, Option<usize>), on_target: bool, cancel: bool)
    requires
        state.0.len() <= 1,
    ensures
        back_step(state, true, on_target, cancel) == (closed_state(), WheelOutcome::Close),
{
}

/// Without an open wheel (`!active`), clicks, releases and back presses change nothing.
pub proof fn lemma_inactive_ignored(state: (Seq<NodeView>, Option<usize>), on_target: bool, cancel: bool, click: bool)
    ensures
        select_step(state, false, on_target, cancel, click) == (state, WheelOutcome::Ignore),
        back_step(state, false, on_target, cancel) == (state, WheelOutcome::Ignore),
{
}

/// On an open wheel over the game with no cancel asked, the pointed entry of
/// the folder shown decides: a stratagem is entered, and the wheel closed,
/// on a click and on a trigger release alike; a folder is entered on a click
/// (the pointer recentred) and closes the wheel on a release.
pub proof fn lemma_pointed_entry_decides(levels: Seq<NodeView>, sel: usize, click: bool)
    requires
        levels.len() > 0,
        sel < levels[levels.len() - 1].children.len(),
    ensures
        levels[levels.len() - 1].children[sel as int].kind != "folder"@ ==> select_step(
            (levels, Some(sel)),
            true,
            true,
            false,
            click,
        ) == ((Seq::<NodeView>::empty(), None::<usize>), WheelOutcome::Run(
            levels[levels.len() - 1].children[sel as int].code,
        )),
        levels[levels.len() - 1].children[sel as int].kind == "folder"@ && click ==> select_step(
            (levels, Some(sel)),
            true,
            true,
            false,
            click,
        ) == ((levels.push(levels[levels.len() - 1].children[sel as int]), None::<usize>), WheelOutcome::Redraw),
        levels[levels.len() - 1].children[sel as int].kind == "folder"@ && !click ==> select_step(
            (levels, Some(sel)),
            true,
            true,
            false,
            click,
        ) == ((Seq::<NodeView>::empty(), None::<usize>), WheelOutcome::Close),
{
}

} // verus!
