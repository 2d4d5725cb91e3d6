//! The wheel configuration: settings, the tree of folders and stratagems, and
//! the rules that a configuration must meet before it is used.

use vstd::prelude::*;
use crate::keys::{scan, scan_code};
use crate::text::{owned, same_text};

verus! {

broadcast use vstd::string::group_string_axioms;

/// One entry of the wheel: a folder of entries or a stratagem with its code.
pub struct Node {
    pub id: String,
    pub kind: String,
    pub name: String,
    pub name_key: String,
    pub stratagem_id: String,
    pub code: Vec<String>,
    pub icon: String,
    pub children: Vec<Node>,
}

/// The content of a node as plain values.
pub struct NodeView {
    pub id: Seq<char>,
    pub kind: Seq<char>,
    pub name: Seq<char>,
    pub name_key: Seq<char>,
    pub stratagem_id: Seq<char>,
    pub code: Seq<Seq<char>>,
    pub icon: Seq<char>,
    pub children: Seq<NodeView>,
}

/// The texts of a vector of strings.
pub open spec fn texts(v: Seq<String>) -> Seq<Seq<char>> {
    Seq::new(v.len(), |i: int| v[i]@)
}

/// The content of `n`, its subtree included.
pub open spec fn node_view(n: Node) -> NodeView
    decreases n,
{
    NodeView {
        id: n.id@,
        kind: n.kind@,
        name: n.name@,
        name_key: n.name_key@,
        stratagem_id: n.stratagem_id@,
        code: texts(n.code@),
        icon: n.icon@,
        children: Seq::new(
            n.children@.len(),
            |i: int|
                if 0 <= i < n.children@.len() {
                    proof {
                        assert(decreases_to!(n => n.children));
                        assert(decreases_to!(n.children => n.children@));
                        assert(decreases_to!(n.children@ => n.children@[i]));
                    }
                    node_view(n.children@[i])
                } else {
                    arbitrary()
                },
        ),
    }
}

/// A copy of a vector of strings.
pub fn copy_texts(v: &Vec<String>) -> (r: Vec<String>)
    ensures
        texts(r@) == texts(v@),
{
    let mut r: Vec<String> = Vec::new();
    let mut i: usize = 0;
    while i < v.len()
        invariant
            i <= v.len(),
            r@.len() == i,
            forall|j: int| 0 <= j < i ==> #[trigger] r@[j]@ == v@[j]@,
        decreases v.len() - i,
    {
        r.push(v[i].clone());
        i = i + 1;
    }
    assert(texts(r@) =~= texts(v@));
    r
}

impl Node {
    /// A copy of the node and its whole subtree.
    pub fn duplicate(&self) -> (r: Node)
        ensures
            node_view(r) == node_view(*self),
        decreases self,
    {
        let mut children: Vec<Node> = Vec::new();
        let mut i: usize = 0;
        while i < self.children.len()
            invariant
                i <= self.children.len(),
                children@.len() == i,
                forall|j: int| 0 <= j < i ==> #[trigger] node_view(children@[j]) == node_view(self.children@[j]),
            decreases self.children.len() - i,
        {
            assert(decreases_to!(*self => self.children@[i as int]));
            children.push(self.children[i].duplicate());
            i = i + 1;
        }
        let r = Node {
            id: self.id.clone(),
            kind: self.kind.clone(),
            name: self.name.clone(),
            name_key: self.name_key.clone(),
            stratagem_id: self.stratagem_id.clone(),
            code: copy_texts(&self.code),
            icon: self.icon.clone(),
            children,
        };
        assert forall|j: int| 0 <= j < r.children@.len() implies node_view(r).children[j] == node_view(*self).children[j] by {
            assert(node_view(r.children@[j]) == node_view(self.children@[j]));
        }
        assert(node_view(r).children =~= node_view(*self).children);
        r
    }
}

/// User settings. The four measures are held as the bit patterns of their
/// `f64` values (`f64::to_bits`), which the logic here never reads.
pub struct Settings {
    pub locale: String,
    pub glass: bool,
    pub transparency_bits: u64,
    pub trigger: String,
    pub game_key: String,
    pub mode: String,
    pub up: String,
    pub down: String,
    pub left: String,
    pub right: String,
    pub press_ms: u64,
    pub gap_ms: u64,
    pub size_bits: u64,
    pub deadzone_bits: u64,
    pub sensitivity_bits: u64,
}

/// A whole configuration: settings and the root folder of the wheel.
pub struct Config {
    pub settings: Settings,
    pub root: Node,
}

/// The interface language used when a saved configuration names none.
pub fn default_locale() -> (r: String)
    ensures
        r@ == "en"@,
{
    owned("en")
}

/// Whether the glass effect is on when a saved configuration does not say.
pub fn default_glass() -> (r: bool)
    ensures
        r,
{
    true
}

/// Whether `n` is a folder.
pub open spec fn is_folder(n: Node) -> bool {
    n.kind@ == "folder"@
}

/// One of the four stratagem directions.
pub open spec fn is_direction(s: Seq<char>) -> bool {
    s == "Up"@ || s == "Down"@ || s == "Left"@ || s == "Right"@
}

/// A stratagem's code: one to 32 directions.
pub open spec fn code_ok(code: Seq<String>) -> bool {
    &&& 1 <= code.len() <= 32
    &&& forall|i: int| 0 <= i < code.len() ==> is_direction(#[trigger] code[i]@)
}

/// Whether the subtree `n`, found at `depth`, is well formed: no deeper than 8,
/// folders of at most 12 entries, and stratagems with a valid code.
pub open spec fn node_ok(n: Node, depth: nat) -> bool
    decreases n,
{
    depth <= 8 && if is_folder(n) {
        n.children.len() <= 12 && forall|i: int|
            0 <= i < n.children.len() ==> node_ok(#[trigger] n.children@[i], depth + 1)
    } else {
        n.kind@ == "stratagem"@ && code_ok(n.code@)
    }
}

fn is_direction_text(s: &str) -> (r: bool)
    ensures
        r == is_direction(s@),
{
    same_text(s, "Up") || same_text(s, "Down") || same_text(s, "Left") || same_text(s, "Right")
}

fn code_valid(code: &Vec<String>) -> (r: bool)
    ensures
        r == code_ok(code@),
{
    if code.len() < 1 || code.len() > 32 {
        return false;
    }
    let mut i: usize = 0;
    while i < code.len()
        invariant
            1 <= code.len() <= 32,
            i <= code.len(),
            forall|j: int| 0 <= j < i ==> is_direction(#[trigger] code@[j]@),
        decreases code.len() - i,
    {
        if !is_direction_text(code[i].as_str()) {
            return false;
        }
        i = i + 1;
    }
    true
}

/// Whether the subtree `n` at `depth` is well formed (see `node_ok`).
fn walk(n: &Node, depth: usize) -> (r: bool)
    requires
        depth <= 9,
    ensures
        r == node_ok(*n, depth as nat),
    decreases n,
{
    if depth > 8 {
        return false;
    }
    if same_text(n.kind.as_str(), "folder") {
        if n.children.len() > 12 {
            return false;
        }
        let mut i: usize = 0;
        while i < n.children.len()
            invariant
                depth <= 8,
                is_folder(*n),
                n.children.len() <= 12,
                i <= n.children.len(),
                forall|j: int| 0 <= j < i ==> node_ok(#[trigger] n.children@[j], depth as nat + 1),
            decreases n.children.len() - i,
        {
            assert(decreases_to!(*n => n.children@[i as int]));
            let ok = walk(&n.children[i], depth + 1);
            assert(ok == node_ok(n.children@[i as int], depth as nat + 1));
            if !ok {
                assert(node_ok(*n, depth as nat) ==> node_ok(n.children@[i as int], depth as nat + 1));
                return false;
            }
            i = i + 1;
        }
        true
    } else {
        let r = same_text(n.kind.as_str(), "stratagem") && code_valid(&n.code);
        assert(!is_folder(*n));
        assert(r == node_ok(*n, depth as nat));
        r
    }
}

/// The six keys of the settings, in the order in which they are checked:
/// trigger, game key, up, down, left, right.
pub open spec fn key_list(s: Settings) -> Seq<Seq<char>> {
    seq![s.trigger@, s.game_key@, s.up@, s.down@, s.left@, s.right@]
}

/// A key may be any physical key; the trigger (position 0) may also be a side
/// mouse button.
pub open spec fn key_allowed(k: Seq<char>, position: int) -> bool {
    scan_code(k) is Some || (position == 0 && (k == "Mouse4"@ || k == "Mouse5"@))
}

/// The first fault among `keys[i..]`: an unknown key, or a key that repeats an
/// earlier one.
pub open spec fn key_fault(keys: Seq<Seq<char>>, i: int) -> Option<Seq<char>>
    decreases keys.len() - i,
{
    if i < 0 || i >= keys.len() {
        None
    } else if !key_allowed(keys[i], i) {
        Some("invalidKey"@)
    } else if keys.take(i).contains(keys[i]) {
        Some("duplicateKeys"@)
    } else {
        key_fault(keys, i + 1)
    }
}

/// Timing and mode within range: press 15..=250 ms, gap 100..=300 ms, mode
/// `hold` or `toggle`.
pub open spec fn timing_ok(s: Settings) -> bool {
    &&& 15 <= s.press_ms <= 250
    &&& 100 <= s.gap_ms <= 300
    &&& (s.mode@ == "hold"@ || s.mode@ == "toggle"@)
}

/// The outcome of validating `c`, where `measures_in_range` says whether the
/// four measures (finite transparency 0..=80, size 400..=720, dead zone 30..=100,
/// sensitivity 0.3..=3) are in range.
pub open spec fn validation(c: Config, measures_in_range: bool) -> Result<(), Seq<char>> {
    match key_fault(key_list(c.settings), 0) {
        Some(e) => Err(e),
        None => if !(timing_ok(c.settings) && measures_in_range) {
            Err("invalidRange"@)
        } else if !(is_folder(c.root) && node_ok(c.root, 0)) {
            Err("invalidTree"@)
        } else {
            Ok(())
        },
    }
}

fn key_allowed_at(k: &String, position: usize) -> (r: bool)
    ensures
        r == key_allowed(k@, position as int),
{
    scan(k.as_str()).is_some() || (position == 0 && (same_text(k.as_str(), "Mouse4") || same_text(
        k.as_str(),
        "Mouse5",
    )))
}

impl Config {
    /// Checks the configuration before use. `measures_in_range` is the check of
    /// the four floating-point measures, made by the caller.
    pub fn validate(&self, measures_in_range: bool) -> (r: Result<(), String>)
        ensures
            match r {
                Ok(()) => validation(*self, measures_in_range) is Ok,
                Err(e) => validation(*self, measures_in_range) == Err::<(), Seq<char>>(e@),
            },
    {
        let s = &self.settings;
        let keys: Vec<&String> = vec![&s.trigger, &s.game_key, &s.up, &s.down, &s.left, &s.right];
        let ghost ks = key_list(*s);
        assert(forall|j: int| 0 <= j < 6 ==> #[trigger] keys@[j]@ == ks[j]);
        let mut i: usize = 0;
        while i < 6
            invariant
                keys@.len() == 6,
                ks == key_list(self.settings),
                ks.len() == 6,
                forall|j: int| 0 <= j < 6 ==> #[trigger] keys@[j]@ == ks[j],
                i <= 6,
                key_fault(ks, 0) == key_fault(ks, i as int),
            decreases 6 - i,
        {
            if !key_allowed_at(keys[i], i) {
                assert(key_fault(ks, i as int) == Some("invalidKey"@));
                let e = owned("invalidKey");
                assert(validation(*self, measures_in_range) == Err::<(), Seq<char>>("invalidKey"@));
                return Err(e);
            }
            let mut j: usize = 0;
            while j < i
                invariant
                    keys@.len() == 6,
                    ks.len() == 6,
                    ks == key_list(self.settings),
                    key_fault(ks, 0) == key_fault(ks, i as int),
                    key_allowed(ks[i as int], i as int),
                    forall|m: int| 0 <= m < 6 ==> #[trigger] keys@[m]@ == ks[m],
                    j <= i < 6,
                    forall|m: int| 0 <= m < j ==> ks[m] != ks[i as int],
                decreases i - j,
            {
                if same_text(keys[j].as_str(), keys[i].as_str()) {
                    assert(ks.take(i as int)[j as int] == ks[i as int]);
                    assert(key_fault(ks, i as int) == Some("duplicateKeys"@));
                    return Err(owned("duplicateKeys"));
                }
                j = j + 1;
            }
            assert(!ks.take(i as int).contains(ks[i as int]));
            i = i + 1;
        }
        let timing = 15 <= s.press_ms && s.press_ms <= 250 && 100 <= s.gap_ms && s.gap_ms <= 300
            && (same_text(s.mode.as_str(), "hold") || same_text(s.mode.as_str(), "toggle"));
        if !(timing && measures_in_range) {
            return Err(owned("invalidRange"));
        }
        if !same_text(self.root.kind.as_str(), "folder") || !walk(&self.root, 0) {
            return Err(owned("invalidTree"));
        }
        Ok(())
    }
}

/// A configuration that validation accepts has a trigger that is a physical key
/// or a side mouse button, a game key and four direction keys that are
/// physical keys, and six keys that all differ.
pub proof fn lemma_valid_keys(c: Config, measures_in_range: bool)
    requires
        validation(c, measures_in_range) is Ok,
    ensures
        key_allowed(c.settings.trigger@, 0),
        scan_code(c.settings.game_key@) is Some,
        scan_code(c.settings.up@) is Some,
        scan_code(c.settings.down@) is Some,
        scan_code(c.settings.left@) is Some,
        scan_code(c.settings.right@) is Some,
        forall|i: int, j: int|
            0 <= i < j < 6 ==> #[trigger] key_list(c.settings)[i] != #[trigger] key_list(c.settings)[j],
{
    let ks = key_list(c.settings);
    reveal_with_fuel(key_fault, 7);
    assert(key_fault(ks, 0) is None);
    assert forall|i: int, j: int| 0 <= i < j < 6 implies #[trigger] ks[i] != #[trigger] ks[j] by {
        assert(key_fault(ks, j) is None);
        assert(ks.take(j)[i] == ks[i]);
    }
}

/// A configuration that validation accepts has settings in range and a root
/// folder whose whole tree is well formed.
pub proof fn lemma_valid_tree(c: Config, measures_in_range: bool)
    requires
        validation(c, measures_in_range) is Ok,
    ensures
        timing_ok(c.settings),
        measures_in_range,
        is_folder(c.root),
        node_ok(c.root, 0),
{
}

/// Either side mouse button may be the trigger, and which one makes no
/// difference to validation: two configurations that agree in everything but
/// the trigger, `Mouse4` in one and `Mouse5` in the other, where no other key
/// is a side button, are validated alike.
pub proof fn lemma_either_side_button_triggers(c4: Config, c5: Config, measures_in_range: bool)
    requires
        c4.settings.trigger@ == "Mouse4"@,
        c5.settings.trigger@ == "Mouse5"@,
        c5.settings.game_key@ == c4.settings.game_key@,
        c5.settings.up@ == c4.settings.up@,
        c5.settings.down@ == c4.settings.down@,
        c5.settings.left@ == c4.settings.left@,
        c5.settings.right@ == c4.settings.right@,
        c5.settings.mode@ == c4.settings.mode@,
        c5.settings.press_ms == c4.settings.press_ms,
        c5.settings.gap_ms == c4.settings.gap_ms,
        c5.root == c4.root,
        forall|i: int|
            1 <= i < 6 ==> #[trigger] key_list(c4.settings)[i] != "Mouse4"@ && key_list(c4.settings)[i]
                != "Mouse5"@,
    ensures
        validation(c4, measures_in_range) == validation(c5, measures_in_range),
{
    let k4 = key_list(c4.settings);
    let k5 = key_list(c5.settings);
    reveal_strlit("Mouse4");
    reveal_strlit("Mouse5");
    assert(key_allowed(k4[0], 0));
    assert(key_allowed(k5[0], 0));
    assert forall|i: int| 1 <= i < 6 implies #[trigger] k5[i] == k4[i] by {}
    assert forall|i: int| 1 <= i < 6 implies k4.take(i).contains(#[trigger] k4[i]) == k5.take(i).contains(k5[i]) by {
        assert(k4[i] != k4[0]);
        assert(k5[i] != k5[0]);
        if k4.take(i).contains(k4[i]) {
            let t = choose|t: int| 0 <= t < k4.take(i).len() && k4.take(i)[t] == k4[i];
            assert(t != 0);
            assert(k5.take(i)[t] == k5[i]);
        }
        if k5.take(i).contains(k5[i]) {
            let t = choose|t: int| 0 <= t < k5.take(i).len() && k5.take(i)[t] == k5[i];
            assert(t != 0);
            assert(k4.take(i)[t] == k4[i]);
        }
    }
    assert(key_fault(k4, 6) == key_fault(k5, 6));
    assert(k4[5] == k5[5]);
    assert(key_fault(k4, 5) == key_fault(k5, 5));
    assert(k4[4] == k5[4]);
    assert(key_fault(k4, 4) == key_fault(k5, 4));
    assert(k4[3] == k5[3]);
    assert(key_fault(k4, 3) == key_fault(k5, 3));
    assert(k4[2] == k5[2]);
    assert(key_fault(k4, 2) == key_fault(k5, 2));
    assert(k4[1] == k5[1]);
    assert(key_fault(k4, 1) == key_fault(k5, 1));
    assert(!k4.take(0).contains(k4[0]));
    assert(!k5.take(0).contains(k5[0]));
    assert(key_fault(k4, 0) == key_fault(k5, 0));
    assert(timing_ok(c4.settings) == timing_ok(c5.settings));
}

/// Validation accepts exactly the settings whose press time is 15 to 250 ms,
/// whose gap is 100 to 300 ms, whose mode is `hold` or `toggle` and whose
/// measures are in range, once the keys and the tree are sound: a
/// configuration it accepts has them, and one with sound keys and tree that
/// has them is accepted.
pub proof fn lemma_validation_ranges(c: Config, measures_in_range: bool)
    ensures
        validation(c, measures_in_range) is Ok ==> 15 <= c.settings.press_ms <= 250 && 100 <= c.settings.gap_ms
            <= 300 && (c.settings.mode@ == "hold"@ || c.settings.mode@ == "toggle"@) && measures_in_range,
        key_fault(key_list(c.settings), 0) is None && is_folder(c.root) && node_ok(c.root, 0) ==> (validation(
            c,
            measures_in_range,
        ) is Ok <==> (15 <= c.settings.press_ms <= 250 && 100 <= c.settings.gap_ms <= 300 && (c.settings.mode@
            == "hold"@ || c.settings.mode@ == "toggle"@) && measures_in_range)),
{
}

/// The tree rules: an entry is sound at a depth of at most 8; a folder is
/// sound when it has at most 12 entries, each sound one level deeper; any
/// other entry is sound when it is a stratagem whose code has 1 to 32 entries,
/// each `Up`, `Down`, `Left` or `Right`.
pub proof fn lemma_tree_rules(n: Node, depth: nat)
    ensures
        node_ok(n, depth) ==> depth <= 8,
        n.kind@ == "folder"@ ==> (node_ok(n, depth) <==> depth <= 8 && n.children@.len() <= 12 && forall|i: int|
            0 <= i < n.children@.len() ==> node_ok(#[trigger] n.children@[i], depth + 1)),
        n.kind@ != "folder"@ ==> (node_ok(n, depth) <==> depth <= 8 && n.kind@ == "stratagem"@ && 1
            <= n.code@.len() <= 32 && forall|i: int|
            0 <= i < n.code@.len() ==> #[trigger] n.code@[i]@ == "Up"@ || n.code@[i]@ == "Down"@ || n.code@[i]@
                == "Left"@ || n.code@[i]@ == "Right"@),
{
}

} // verus!
