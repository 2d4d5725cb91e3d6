//! Semantic versions, parsed and ordered by the `semver` crate.

use vstd::prelude::*;
use crate::text::{decimal, decimal_text, push_decimal};

verus! {

broadcast use vstd::string::group_string_axioms;

#[verifier::external_type_specification]
#[verifier::external_body]
pub struct ExVersion(semver::Version);

/// What `semver::Version::parse` reads from `text`: major, minor, patch,
/// pre-release and build metadata, or `None` when it refuses the text.
pub uninterp spec fn semver_parse(text: Seq<char>) -> Option<(u64, u64, u64, Seq<char>, Seq<char>)>;

/// `a <= b` in the order of `semver::Version`.
pub uninterp spec fn semver_le(
    a: (u64, u64, u64, Seq<char>, Seq<char>),
    b: (u64, u64, u64, Seq<char>, Seq<char>),
) -> bool;

/// `a < b` in the order of `semver::Version`.
pub uninterp spec fn semver_lt(
    a: (u64, u64, u64, Seq<char>, Seq<char>),
    b: (u64, u64, u64, Seq<char>, Seq<char>),
) -> bool;

/// Whether the numeric triple of `a` comes before that of `b`.
pub open spec fn triple_before(
    a: (u64, u64, u64, Seq<char>, Seq<char>),
    b: (u64, u64, u64, Seq<char>, Seq<char>),
) -> bool {
    a.0 < b.0 || (a.0 == b.0 && (a.1 < b.1 || (a.1 == b.1 && a.2 < b.2)))
}

/// Whether `a` and `b` have the same numeric triple.
pub open spec fn same_triple(
    a: (u64, u64, u64, Seq<char>, Seq<char>),
    b: (u64, u64, u64, Seq<char>, Seq<char>),
) -> bool {
    a.0 == b.0 && a.1 == b.1 && a.2 == b.2
}

/// What the order of `semver::Version` fixes without looking into pre-release
/// and build identifiers: it compares the numeric triple first, and a release
/// with no pre-release comes after any pre-release of the same triple.
pub open spec fn order_known(
    a: (u64, u64, u64, Seq<char>, Seq<char>),
    b: (u64, u64, u64, Seq<char>, Seq<char>),
    a_before_b: bool,
) -> bool {
    &&& !same_triple(a, b) ==> (a_before_b == triple_before(a, b))
    &&& (same_triple(a, b) && a.3.len() == 0 && b.3.len() > 0) ==> !a_before_b
    &&& (same_triple(a, b) && a.3.len() > 0 && b.3.len() == 0) ==> a_before_b
}

/// A version as `semver` parsed it, with its parts.
pub struct SemVer {
    major: u64,
    minor: u64,
    patch: u64,
    pre: String,
    build: String,
    version: semver::Version,
}

impl View for SemVer {
    type V = (u64, u64, u64, Seq<char>, Seq<char>);

    closed spec fn view(&self) -> (u64, u64, u64, Seq<char>, Seq<char>) {
        (self.major, self.minor, self.patch, self.pre@, self.build@)
    }
}

impl SemVer {
    /// Whether the version has a pre-release part.
    pub fn is_prerelease(&self) -> (r: bool)
        ensures
            r == (self@.3.len() > 0),
    {
        !self.pre.as_str().is_empty()
    }
}

/// Parses `text` with `semver::Version::parse`. The result, when there is one,
/// holds the major, minor and patch numbers and the pre-release and build
/// texts of the parsed version; no more is claimed of which texts it accepts
/// than the name `semver_parse`.
#[verifier::external_body]
pub(crate) fn parse_version(text: &str) -> (r: Option<SemVer>)
    ensures
        match r {
            Some(v) => semver_parse(text@) == Some(v@),
            None => semver_parse(text@) is None,
        },
{
    match semver::Version::parse(text) {
        Ok(v) => Some(SemVer {
            major: v.major,
            minor: v.minor,
            patch: v.patch,
            pre: v.pre.as_str().to_string(),
            build: v.build.as_str().to_string(),
            version: v,
        }),
        Err(_) => None,
    }
}

/// `a <= b` for `semver::Version` (its derived order: numeric triple, then
/// pre-release, where none ranks above any, then build metadata).
#[verifier::external_body]
pub(crate) fn version_le(a: &SemVer, b: &SemVer) -> (r: bool)
    ensures
        r == semver_le(a@, b@),
        order_known(a@, b@, r),
        a@ == b@ ==> r,
{
    a.version <= b.version
}

/// `a < b` for `semver::Version`.
#[verifier::external_body]
pub(crate) fn version_lt(a: &SemVer, b: &SemVer) -> (r: bool)
    ensures
        r == semver_lt(a@, b@),
        order_known(a@, b@, r),
        a@ == b@ ==> !r,
{
    a.version < b.version
}

/// How `semver::Version` displays: `major.minor.patch`, then `-pre` and `+build`
/// when present.
pub open spec fn version_display(v: (u64, u64, u64, Seq<char>, Seq<char>)) -> Seq<char> {
    decimal_text(v.0 as nat) + "."@ + decimal_text(v.1 as nat) + "."@ + decimal_text(v.2 as nat)
        + (if v.3.len() == 0 { Seq::<char>::empty() } else { "-"@ + v.3 })
        + (if v.4.len() == 0 { Seq::<char>::empty() } else { "+"@ + v.4 })
}

impl SemVer {
    /// The text of the version, as `to_string` writes it.
    pub fn text(&self) -> (s: String)
        ensures
            s@ == version_display(self@),
    {
        let mut s = decimal(self.major);
        s.append(".");
        push_decimal(&mut s, self.minor);
        s.append(".");
        push_decimal(&mut s, self.patch);
        let ghost base = s@;
        assert(base =~= decimal_text(self.major as nat) + "."@ + decimal_text(self.minor as nat) + "."@
            + decimal_text(self.patch as nat));
        if !self.pre.as_str().is_empty() {
            s.append("-");
            s.append(self.pre.as_str());
        }
        let ghost with_pre = s@;
        assert(with_pre =~= base + (if self.pre@.len() == 0 { Seq::<char>::empty() } else { "-"@ + self.pre@ }));
        if !self.build.as_str().is_empty() {
            s.append("+");
            s.append(self.build.as_str());
        }
        assert(s@ =~= with_pre + (if self.build@.len() == 0 { Seq::<char>::empty() } else { "+"@ + self.build@ }));
        s
    }
}

} // verus!
