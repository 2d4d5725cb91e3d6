//! Windows paths taken apart into the components by which `std::path::Path`
//! compares them: a prefix, a root, then the named steps.
//!
//! The prefixes told apart are drives (`C:`) and verbatim prefixes (`\\?\`
//! up to the next `\`); a prefix is compared as it is written. UNC and device
//! prefixes (`\\server\share`, `\\.\name`) are read as a root followed by
//! named steps. The paths that a hand-off compares come from
//! `std::fs::canonicalize`, which gives verbatim drive paths.

use vstd::prelude::*;
use crate::model::texts;
use crate::text::{chars_of, owned, same_text, text_of};

verus! {

broadcast use vstd::string::group_string_axioms;

/// Whether a path is verbatim: it starts with `\\?\`. In a verbatim path only
/// `\` separates components, and `.` is a component of its own.
pub open spec fn is_verbatim(p: Seq<char>) -> bool {
    p.len() >= 4 && p[0] == '\\' && p[1] == '\\' && p[2] == '?' && p[3] == '\\'
}

/// Whether `c` separates components: `\`, and `/` outside verbatim paths.
pub open spec fn separates(verbatim: bool, c: char) -> bool {
    c == '\\' || (!verbatim && c == '/')
}

/// Where the first separator at or after `k` stands, or the length of `p`.
pub open spec fn next_separator(p: Seq<char>, verbatim: bool, k: int) -> int
    decreases p.len() - k,
{
    if k < 0 || k >= p.len() {
        p.len() as int
    } else if separates(verbatim, p[k]) {
        k
    } else {
        next_separator(p, verbatim, k + 1)
    }
}

/// An ASCII letter.
pub open spec fn is_ascii_letter(c: char) -> bool {
    ('a' <= c <= 'z') || ('A' <= c <= 'Z')
}

/// The length of the prefix of a path: `\\?\` and what follows it up to the
/// next `\` for a verbatim path, a drive such as `C:`, or nothing.
pub open spec fn prefix_len(p: Seq<char>) -> int {
    if is_verbatim(p) {
        next_separator(p, true, 4)
    } else if p.len() >= 2 && p[1] == ':' && is_ascii_letter(p[0]) {
        2
    } else {
        0
    }
}

/// Whether a separator follows the prefix: the path has a root.
pub open spec fn has_root(p: Seq<char>) -> bool {
    prefix_len(p) < p.len() && separates(is_verbatim(p), p[prefix_len(p)])
}

/// Where the named steps of a path begin: after its prefix and root.
pub open spec fn steps_start(p: Seq<char>) -> int {
    prefix_len(p) + if has_root(p) { 1int } else { 0int }
}

/// The nonempty pieces between separators from position `k` on.
pub open spec fn pieces_from(p: Seq<char>, verbatim: bool, k: int) -> Seq<Seq<char>>
    decreases p.len() + 1 - k,
{
    if k < 0 || k >= p.len() {
        Seq::empty()
    } else {
        let e = next_separator(p, verbatim, k);
        proof {
            lemma_next_separator_bounds(p, verbatim, k);
        }
        let rest = pieces_from(p, verbatim, e + 1);
        if e == k { rest } else { seq![p.subrange(k, e)] + rest }
    }
}

/// The pieces that are components: `.` is dropped, except in a verbatim path
/// and as the first piece of a path without root.
pub open spec fn kept_pieces(pieces: Seq<Seq<char>>, first_dot: bool, verbatim: bool) -> Seq<Seq<char>>
    decreases pieces.len(),
{
    if pieces.len() == 0 {
        pieces
    } else {
        let r = kept_pieces(pieces.drop_last(), first_dot, verbatim);
        let x = pieces.last();
        if x != "."@ || verbatim || (pieces.len() == 1 && first_dot) { r.push(x) } else { r }
    }
}

/// The named steps of a path (its components after the prefix and root).
pub open spec fn steps(p: Seq<char>) -> Seq<Seq<char>> {
    kept_pieces(pieces_from(p, is_verbatim(p), steps_start(p)), !has_root(p), is_verbatim(p))
}

/// The component that stands for a root.
pub open spec fn root_component() -> Seq<char> {
    seq!['\\']
}

/// The components of a path: its prefix, its root (written `\`), then its
/// named steps, where repeated and trailing separators count for nothing and
/// `.` is dropped (see `kept_pieces`).
pub open spec fn components(p: Seq<char>) -> Seq<Seq<char>> {
    (if prefix_len(p) > 0 { seq![p.take(prefix_len(p))] } else { Seq::empty() }) + (if has_root(p) {
        seq![root_component()]
    } else {
        Seq::empty()
    }) + steps(p)
}

/// The components of a path's parent, as `Path::parent` gives it: all but the
/// last, when the last is a named step; none when the path ends at its prefix
/// or root.
pub open spec fn parent_of(p: Seq<char>) -> Option<Seq<Seq<char>>> {
    if steps(p).len() > 0 { Some(components(p).drop_last()) } else { None }
}

/// The file name of a path, as `Path::file_name` gives it, or nothing: its
/// last named step, unless that is `.` or `..`.
pub open spec fn file_name_of(p: Seq<char>) -> Seq<char> {
    if steps(p).len() > 0 && steps(p).last() != "."@ && steps(p).last() != ".."@ {
        steps(p).last()
    } else {
        Seq::empty()
    }
}

/// The first separator at or after `k` stands at or after `k`.
pub proof fn lemma_next_separator_bounds(p: Seq<char>, verbatim: bool, k: int)
    requires
        0 <= k,
    ensures
        k <= next_separator(p, verbatim, k) <= p.len() || k > p.len(),
        k <= p.len() ==> k <= next_separator(p, verbatim, k) <= p.len(),
    decreases p.len() - k,
{
    if k < p.len() && !separates(verbatim, p[k]) {
        lemma_next_separator_bounds(p, verbatim, k + 1);
    }
}

fn next_separator_at(x: &Vec<char>, verbatim: bool, k: usize) -> (e: usize)
    requires
        k <= x.len(),
    ensures
        e == next_separator(x@, verbatim, k as int),
        k <= e <= x.len(),
{
    let mut m: usize = k;
    while m < x.len() && !(x[m] == '\\' || (!verbatim && x[m] == '/'))
        invariant
            k <= m <= x.len(),
            next_separator(x@, verbatim, k as int) == next_separator(x@, verbatim, m as int),
        decreases x.len() - m,
    {
        m = m + 1;
    }
    m
}

fn prefix_length(x: &Vec<char>) -> (r: (usize, bool))
    ensures
        r.0 == prefix_len(x@),
        r.1 == is_verbatim(x@),
        r.0 <= x.len(),
{
    let verbatim = x.len() >= 4 && x[0] == '\\' && x[1] == '\\' && x[2] == '?' && x[3] == '\\';
    if verbatim {
        (next_separator_at(x, true, 4), true)
    } else if x.len() >= 2 && x[1] == ':' && (('a' <= x[0] && x[0] <= 'z') || ('A' <= x[0] && x[0] <= 'Z')) {
        (2, false)
    } else {
        (0, false)
    }
}

fn pieces_at(x: &Vec<char>, verbatim: bool, start: usize) -> (r: Vec<String>)
    requires
        start <= x.len(),
    ensures
        texts(r@) == pieces_from(x@, verbatim, start as int),
{
    let ghost p = x@;
    let mut done: Vec<String> = Vec::new();
    let mut j: usize = start;
    while j < x.len()
        invariant
            p == x@,
            start <= j <= x.len(),
            texts(done@) + pieces_from(p, verbatim, j as int) == pieces_from(p, verbatim, start as int),
        decreases x.len() - j,
    {
        let e = next_separator_at(x, verbatim, j);
        let ghost before = texts(done@);
        let ghost rest = pieces_from(p, verbatim, e + 1);
        assert(pieces_from(p, verbatim, e + 1) == pieces_from(p, verbatim, if e < x.len() {
            e + 1
        } else {
            x.len() as int
        }));
        if e > j {
            let piece = text_of(x, j, e);
            done.push(piece);
            assert(texts(done@) =~= before.push(p.subrange(j as int, e as int)));
            assert(texts(done@) + rest =~= before + (seq![p.subrange(j as int, e as int)] + rest));
        }
        j = if e < x.len() { e + 1 } else { x.len() };
    }
    assert(texts(done@) + pieces_from(p, verbatim, j as int) =~= texts(done@));
    done
}

fn keep_pieces(pieces: &Vec<String>, first_dot: bool, verbatim: bool) -> (r: Vec<String>)
    ensures
        texts(r@) == kept_pieces(texts(pieces@), first_dot, verbatim),
{
    let ghost ps = texts(pieces@);
    let mut r: Vec<String> = Vec::new();
    let mut i: usize = 0;
    assert(ps.take(0) =~= Seq::<Seq<char>>::empty());
    while i < pieces.len()
        invariant
            ps == texts(pieces@),
            i <= pieces.len(),
            texts(r@) == kept_pieces(ps.take(i as int), first_dot, verbatim),
        decreases pieces.len() - i,
    {
        let ghost before = texts(r@);
        let ghost seen = ps.take(i + 1);
        assert(seen.drop_last() =~= ps.take(i as int));
        assert(seen.last() == pieces@[i as int]@);
        proof {
            reveal_strlit(".");
        }
        if !same_text(pieces[i].as_str(), ".") || verbatim || (i == 0 && first_dot) {
            r.push(pieces[i].clone());
            assert(texts(r@) =~= before.push(pieces@[i as int]@));
        }
        i = i + 1;
    }
    assert(ps.take(pieces.len() as int) =~= ps);
    r
}

/// A path taken apart: its components, and how many of them are named steps.
fn path_parts(path: &str) -> (r: (Vec<String>, usize))
    ensures
        texts(r.0@) == components(path@),
        r.1 == steps(path@).len(),
        r.1 <= r.0@.len(),
{
    let x = chars_of(path);
    let (n, verbatim) = prefix_length(&x);
    let root = n < x.len() && (x[n] == '\\' || (!verbatim && x[n] == '/'));
    let start = if root { n + 1 } else { n };
    let pieces = pieces_at(&x, verbatim, start);
    let named = keep_pieces(&pieces, !root, verbatim);
    proof {
        reveal_strlit("\\");
    }
    let mut r: Vec<String> = Vec::new();
    if n > 0 {
        let t = text_of(&x, 0, n);
        assert(t@ =~= path@.take(prefix_len(path@)));
        r.push(t);
    }
    let ghost with_prefix = texts(r@);
    assert(with_prefix =~= (if prefix_len(path@) > 0 { seq![path@.take(prefix_len(path@))] } else {
        Seq::<Seq<char>>::empty()
    }));
    if root {
        let t = owned("\\");
        assert(t@ =~= root_component());
        r.push(t);
    }
    let ghost head = texts(r@);
    assert(root == has_root(path@));
    assert(head =~= with_prefix + (if has_root(path@) { seq![root_component()] } else {
        Seq::<Seq<char>>::empty()
    }));
    let mut i: usize = 0;
    while i < named.len()
        invariant
            i <= named.len(),
            head.len() <= 2,
            texts(r@) == head + texts(named@).take(i as int),
        decreases named.len() - i,
    {
        let ghost before = texts(r@);
        let t = named[i].clone();
        assert(t@ == named@[i as int]@);
        r.push(t);
        assert(texts(r@) =~= before.push(named@[i as int]@));
        assert(texts(named@).take(i + 1) =~= texts(named@).take(i as int).push(named@[i as int]@));
        assert(texts(r@) =~= head + texts(named@).take(i + 1));
        i = i + 1;
    }
    assert(texts(named@).take(named.len() as int) =~= texts(named@));
    (r, named.len())
}

/// The components of `path` (see `components`).
pub fn path_components(path: &str) -> (r: Vec<String>)
    ensures
        texts(r@) == components(path@),
{
    path_parts(path).0
}

fn same_pieces(a: &Vec<String>, na: usize, b: &Vec<String>, nb: usize) -> (r: bool)
    requires
        na <= a.len(),
        nb <= b.len(),
    ensures
        r == (texts(a@).take(na as int) == texts(b@).take(nb as int)),
{
    if na != nb {
        assert(texts(a@).take(na as int).len() != texts(b@).take(nb as int).len());
        return false;
    }
    let mut i: usize = 0;
    while i < na
        invariant
            na == nb,
            na <= a.len(),
            nb <= b.len(),
            i <= na,
            forall|t: int| 0 <= t < i ==> #[trigger] a@[t]@ == b@[t]@,
        decreases na - i,
    {
        if !same_text(a[i].as_str(), b[i].as_str()) {
            assert(texts(a@).take(na as int)[i as int] != texts(b@).take(nb as int)[i as int]);
            return false;
        }
        i = i + 1;
    }
    assert(texts(a@).take(na as int) =~= texts(b@).take(nb as int));
    true
}

/// How two paths relate, as `Path` compares them: whether they are the same
/// path, whether they have the same parent, and the file name of the first
/// (empty when it has none).
pub fn compare_paths(a: &str, b: &str) -> (r: (bool, bool, String))
    ensures
        r.0 == (components(a@) == components(b@)),
        r.1 == (parent_of(a@) == parent_of(b@)),
        r.2@ == file_name_of(a@),
{
    let (ac, an) = path_parts(a);
    let (bc, bn) = path_parts(b);
    let same = same_pieces(&ac, ac.len(), &bc, bc.len());
    proof {
        assert(texts(ac@).take(ac.len() as int) =~= texts(ac@));
        assert(texts(bc@).take(bc.len() as int) =~= texts(bc@));
    }
    let same_parent = if an > 0 && bn > 0 {
        let r = same_pieces(&ac, ac.len() - 1, &bc, bc.len() - 1);
        assert(texts(ac@).drop_last() =~= texts(ac@).take(ac.len() - 1));
        assert(texts(bc@).drop_last() =~= texts(bc@).take(bc.len() - 1));
        r
    } else {
        an == 0 && bn == 0
    };
    proof {
        reveal_strlit(".");
        reveal_strlit("..");
    }
    let name = if an > 0 {
        let last = ac[ac.len() - 1].as_str();
        let ghost c = components(a@);
        let ghost h = c.len() - steps(a@).len();
        assert(c[c.len() - 1] == steps(a@)[steps(a@).len() - 1]);
        assert(steps(a@).last() == texts(ac@).last());
        if same_text(last, ".") || same_text(last, "..") {
            String::new()
        } else {
            last.to_owned()
        }
    } else {
        String::new()
    };
    (same, same_parent, name)
}

} // verus!
