//! Update rules: which GitHub release is offered, how a download is checked,
//! the file names of the hand-off, and which previous executable may be removed.

use vstd::prelude::*;
use sha2::Digest;
use crate::text::{
    ascii_lowered, chars_of, decimal_text, first_chars, hex_lower, is_hex_digit, joined,
    owned, push_decimal, same_text, strip_prefix, strip_suffix, take_chars, to_ascii_lower,
    to_hex_lower, parsed_unsigned, parse_unsigned,
};
use crate::paths::{compare_paths, components, file_name_of, parent_of};
use crate::version::{order_known, parse_version, semver_le, semver_lt, semver_parse, version_display, version_le, version_lt};

verus! {

broadcast use vstd::string::group_string_axioms;

/// The largest download accepted: 200 MiB.
pub const MAX_DOWNLOAD: u64 = 209715200;

/// The largest release description accepted from the API: 2 MiB.
pub const MAX_RELEASE_BYTES: usize = 2097152;

/// The most characters of release notes kept in an offer.
pub const MAX_NOTES: usize = 12000;

/// A file attached to a GitHub release.
pub struct Asset {
    pub name: String,
    pub browser_download_url: String,
    pub size: u64,
    pub digest: Option<String>,
}

/// A GitHub release, as the releases API describes it.
pub struct Release {
    pub tag_name: String,
    pub draft: bool,
    pub prerelease: bool,
    pub body: Option<String>,
    pub assets: Vec<Asset>,
}

/// An update that may be installed.
pub struct Offer {
    pub current_version: String,
    pub version: String,
    pub notes: String,
    pub url: String,
    pub size: u64,
    pub sha256: String,
}

impl View for Offer {
    type V = (Seq<char>, Seq<char>, Seq<char>, Seq<char>, u64, Seq<char>);

    open spec fn view(&self) -> (Seq<char>, Seq<char>, Seq<char>, Seq<char>, u64, Seq<char>) {
        (self.current_version@, self.version@, self.notes@, self.url@, self.size, self.sha256@)
    }
}

/// The version text of a release tag: the tag without one leading `v`.
pub open spec fn tag_version(tag: Seq<char>) -> Seq<char> {
    if crate::text::starts_with(tag, "v"@) {
        tag.subrange("v"@.len() as int, tag.len() as int)
    } else {
        tag
    }
}

/// The file name of the installer of a version: `SERAPOD-<version>.exe`.
pub open spec fn installer_name(version: Seq<char>) -> Seq<char> {
    "SERAPOD-"@ + version + ".exe"@
}

/// Where this repository's release `tag` serves the file `name`.
pub open spec fn release_download_url(tag: Seq<char>, name: Seq<char>) -> Seq<char> {
    "https://github.com/odessadraekavik/SERAPOD/releases/download/"@ + tag + "/"@ + name
}

/// The position of the first asset named `name`, from position `k` on.
pub open spec fn first_named(assets: Seq<Asset>, name: Seq<char>, k: int) -> Option<int>
    decreases assets.len() - k,
{
    if k < 0 || k >= assets.len() {
        None
    } else if assets[k].name@ == name {
        Some(k)
    } else {
        first_named(assets, name, k + 1)
    }
}

/// The hash that an asset digest of the form `sha256:<hash>` carries.
pub open spec fn digest_hash(digest: Option<String>) -> Option<Seq<char>> {
    match digest {
        Some(d) => if crate::text::starts_with(d@, "sha256:"@) {
            Some(d@.subrange("sha256:"@.len() as int, d@.len() as int))
        } else {
            None
        },
        None => None,
    }
}

/// A SHA-256 written as 64 hexadecimal digits.
pub open spec fn hash_text_ok(h: Seq<char>) -> bool {
    h.len() == 64 && forall|i: int| 0 <= i < h.len() ==> is_hex_digit(#[trigger] h[i])
}

/// The release notes text, empty when the release has none.
pub open spec fn body_text(body: Option<String>) -> Seq<char> {
    match body {
        Some(b) => b@,
        None => Seq::empty(),
    }
}

/// The one error of the offer rules.
pub open spec fn update_invalid() -> Seq<char> {
    "updateInvalid"@
}

/// What the order of `semver::Version` is known to give for `a <= b`
/// (see `order_known`), and that a version is at most itself.
pub open spec fn le_known(
    a: (u64, u64, u64, Seq<char>, Seq<char>),
    b: (u64, u64, u64, Seq<char>, Seq<char>),
) -> bool {
    order_known(a, b, semver_le(a, b)) && (a == b ==> semver_le(a, b))
}

/// What the order of `semver::Version` is known to give for `a < b`
/// (see `order_known`), and that no version is below itself.
pub open spec fn lt_known(
    a: (u64, u64, u64, Seq<char>, Seq<char>),
    b: (u64, u64, u64, Seq<char>, Seq<char>),
) -> bool {
    order_known(a, b, semver_lt(a, b)) && (a == b ==> !semver_lt(a, b))
}

/// What `offer_from_release` decides for `release` when `current` is the running
/// version: an error when a version cannot be parsed or the matching asset is
/// missing or suspect; no offer for drafts, pre-releases and versions not newer
/// than `current`; otherwise the offer.
pub open spec fn release_offer(release: Release, current: Seq<char>) -> Result<
    Option<(Seq<char>, Seq<char>, Seq<char>, Seq<char>, u64, Seq<char>)>,
    Seq<char>,
> {
    match semver_parse(tag_version(release.tag_name@)) {
        None => Err(update_invalid()),
        Some(v) => match semver_parse(current) {
            None => Err(update_invalid()),
            Some(installed) => if release.draft || release.prerelease || v.3.len() > 0 || semver_le(
                v,
                installed,
            ) {
                Ok(None)
            } else {
                let name = installer_name(version_display(v));
                match first_named(release.assets@, name, 0) {
                    None => Err(update_invalid()),
                    Some(i) => {
                        let a = release.assets@[i];
                        match digest_hash(a.digest) {
                            None => Err(update_invalid()),
                            Some(h) => if a.browser_download_url@ != release_download_url(
                                release.tag_name@,
                                name,
                            ) || a.size < 2 || a.size > MAX_DOWNLOAD || !hash_text_ok(h) {
                                Err(update_invalid())
                            } else {
                                Ok(
                                    Some(
                                        (
                                            current,
                                            version_display(v),
                                            first_chars(body_text(release.body), MAX_NOTES as nat),
                                            a.browser_download_url@,
                                            a.size,
                                            ascii_lowered(h),
                                        ),
                                    ),
                                )
                            },
                        }
                    },
                }
            },
        },
    }
}

fn all_hex(h: &str) -> (r: bool)
    ensures
        r == (forall|i: int| 0 <= i < h@.len() ==> is_hex_digit(#[trigger] h@[i])),
{
    let x = chars_of(h);
    let mut i: usize = 0;
    while i < x.len()
        invariant
            x@ == h@,
            i <= x.len(),
            forall|j: int| 0 <= j < i ==> is_hex_digit(#[trigger] x@[j]),
        decreases x.len() - i,
    {
        let c = x[i];
        if !(('0' <= c && c <= '9') || ('a' <= c && c <= 'f') || ('A' <= c && c <= 'F')) {
            assert(!is_hex_digit(x@[i as int]));
            return false;
        }
        i = i + 1;
    }
    true
}

fn find_asset(assets: &Vec<Asset>, name: &str) -> (r: Option<usize>)
    ensures
        match r {
            Some(i) => first_named(assets@, name@, 0) == Some(i as int) && i < assets.len(),
            None => first_named(assets@, name@, 0) is None,
        },
{
    let mut i: usize = 0;
    while i < assets.len()
        invariant
            i <= assets.len(),
            first_named(assets@, name@, 0) == first_named(assets@, name@, i as int),
        decreases assets.len() - i,
    {
        if same_text(assets[i].name.as_str(), name) {
            return Some(i);
        }
        i = i + 1;
    }
    None
}

/// The offer for `release` when `current` is the running version, or the
/// `updateInvalid` error (see `release_offer`).
pub fn offer_from_release(release: Release, current: &str) -> (r: Result<Option<Offer>, String>)
    ensures
        match r {
            Ok(Some(o)) => release_offer(release, current@) == Ok::<_, Seq<char>>(Some(o@)),
            Ok(None) => release_offer(release, current@) == Ok::<
                Option<(Seq<char>, Seq<char>, Seq<char>, Seq<char>, u64, Seq<char>)>,
                Seq<char>,
            >(None),
            Err(e) => release_offer(release, current@) == Err::<
                Option<(Seq<char>, Seq<char>, Seq<char>, Seq<char>, u64, Seq<char>)>,
                Seq<char>,
            >(e@),
        },
        match (semver_parse(tag_version(release.tag_name@)), semver_parse(current@)) {
            (Some(v), Some(installed)) => le_known(v, installed),
            _ => true,
        },
{
    let tag = match strip_prefix(release.tag_name.as_str(), "v") {
        Some(t) => t,
        None => owned(release.tag_name.as_str()),
    };
    assert(tag@ == tag_version(release.tag_name@));
    let version = match parse_version(tag.as_str()) {
        Some(v) => v,
        None => return Err(owned("updateInvalid")),
    };
    let installed = match parse_version(current) {
        Some(v) => v,
        None => return Err(owned("updateInvalid")),
    };
    let not_newer = version_le(&version, &installed);
    if release.draft || release.prerelease || version.is_prerelease() || not_newer {
        return Ok(None);
    }
    let version_text = version.text();
    let name = joined(joined("SERAPOD-", version_text.as_str()).as_str(), ".exe");
    assert(name@ == installer_name(version_display(version@)));
    let i = match find_asset(&release.assets, name.as_str()) {
        Some(i) => i,
        None => return Err(owned("updateInvalid")),
    };
    let asset = &release.assets[i];
    let expected_url = joined(
        joined(
            joined("https://github.com/odessadraekavik/SERAPOD/releases/download/", release.tag_name.as_str()).as_str(),
            "/",
        ).as_str(),
        name.as_str(),
    );
    assert(expected_url@ == release_download_url(release.tag_name@, name@));
    let hash = match &asset.digest {
        Some(d) => match strip_prefix(d.as_str(), "sha256:") {
            Some(h) => h,
            None => return Err(owned("updateInvalid")),
        },
        None => return Err(owned("updateInvalid")),
    };
    if !same_text(asset.browser_download_url.as_str(), expected_url.as_str()) || asset.size < 2
        || asset.size > MAX_DOWNLOAD || hash.as_str().unicode_len() != 64 || !all_hex(hash.as_str()) {
        return Err(owned("updateInvalid"));
    }
    let notes = match &release.body {
        Some(b) => take_chars(b.as_str(), MAX_NOTES),
        None => String::new(),
    };
    assert(notes@ == first_chars(body_text(release.body), MAX_NOTES as nat));
    Ok(Some(Offer {
        current_version: owned(current),
        version: version_text,
        notes,
        url: asset.browser_download_url.clone(),
        size: asset.size,
        sha256: to_ascii_lower(hash.as_str()),
    }))
}

/// The SHA-256 digest of `data`.
pub uninterp spec fn sha256_digest(data: Seq<u8>) -> Seq<u8>;

/// Hashes `data` with `sha2::Sha256::digest`; the digest is 32 bytes and is
/// named `sha256_digest` of the data.
#[verifier::external_body]
fn sha256(data: &[u8]) -> (r: Vec<u8>)
    ensures
        r@ == sha256_digest(data@),
        r@.len() == 32,
{
    sha2::Sha256::digest(data).to_vec()
}

/// The error of a download whose size or digest is not the offered one.
pub open spec fn update_integrity() -> Seq<char> {
    "updateIntegrity"@
}

/// Checks the length of a downloaded file against the offer.
pub fn check_size(file_len: u64, offer: &Offer) -> (r: Result<(), String>)
    ensures
        match r {
            Ok(()) => file_len == offer.size,
            Err(e) => file_len != offer.size && e@ == update_integrity(),
        },
{
    if file_len != offer.size {
        Err(owned("updateIntegrity"))
    } else {
        Ok(())
    }
}

/// Checks the contents of a downloaded file against the digest of the offer:
/// the lowercase hexadecimal SHA-256 of `contents` must be the offered hash.
pub fn check_digest(contents: &[u8], offer: &Offer) -> (r: Result<(), String>)
    ensures
        match r {
            Ok(()) => hex_lower(sha256_digest(contents@)) == offer.sha256@,
            Err(e) => hex_lower(sha256_digest(contents@)) != offer.sha256@ && e@ == update_integrity(),
        },
{
    let digest = sha256(contents);
    let text = to_hex_lower(digest.as_slice());
    if !same_text(text.as_str(), offer.sha256.as_str()) {
        Err(owned("updateIntegrity"))
    } else {
        Ok(())
    }
}

/// Counts `n` more downloaded bytes; more than the offered size is refused.
pub fn count_download(downloaded: u64, n: usize, size: u64) -> (r: Result<u64, String>)
    ensures
        match r {
            Ok(total) => total == downloaded + n && total <= size,
            Err(e) => downloaded + n > size && e@ == update_integrity(),
        },
{
    if n as u128 + downloaded as u128 > size as u128 {
        Err(owned("updateIntegrity"))
    } else {
        Ok(downloaded + n as u64)
    }
}

/// Hosts that update requests may be redirected to.
pub open spec fn trusted_host(host: Seq<char>) -> bool {
    host == "api.github.com"@ || host == "github.com"@ || host == "release-assets.githubusercontent.com"@
        || host == "objects.githubusercontent.com"@
}

/// Whether a redirect is followed: fewer than five before it, over HTTPS, to a
/// GitHub host.
pub fn redirect_allowed(previous: usize, scheme: &str, host: &str) -> (r: bool)
    ensures
        r == (previous < 5 && scheme@ == "https"@ && trusted_host(host@)),
{
    previous < 5 && same_text(scheme, "https") && (same_text(host, "api.github.com") || same_text(
        host,
        "github.com",
    ) || same_text(host, "release-assets.githubusercontent.com") || same_text(
        host,
        "objects.githubusercontent.com",
    ))
}

/// Refuses a release description longer than 2 MiB.
pub fn check_release_size(len: usize) -> (r: Result<(), String>)
    ensures
        match r {
            Ok(()) => len <= MAX_RELEASE_BYTES,
            Err(e) => len > MAX_RELEASE_BYTES && e@ == update_invalid(),
        },
{
    if len > MAX_RELEASE_BYTES {
        Err(owned("updateInvalid"))
    } else {
        Ok(())
    }
}

/// The file name of the installer of `version`.
pub fn installer_file_name(version: &str) -> (r: String)
    ensures
        r@ == installer_name(version@),
{
    joined(joined("SERAPOD-", version).as_str(), ".exe")
}

/// The name of the partial download of `version` by process `pid`:
/// `.SERAPOD-<version>-<pid>.part`.
pub fn partial_file_name(version: &str, pid: u32) -> (r: String)
    ensures
        r@ == ".SERAPOD-"@ + version@ + "-"@ + decimal_text(pid as nat) + ".part"@,
{
    let mut r = joined(joined(".SERAPOD-", version).as_str(), "-");
    push_decimal(&mut r, pid as u64);
    r.append(".part");
    r
}

/// The name of the file by which the new process of a hand-off tells process
/// `pid` that it is ready: `.serapod-update-<pid>.ready`.
pub fn ready_file_name(pid: u32) -> (r: String)
    ensures
        r@ == ".serapod-update-"@ + decimal_text(pid as nat) + ".ready"@,
{
    let mut r = owned(".serapod-update-");
    push_decimal(&mut r, pid as u64);
    r.append(".ready");
    r
}

/// The version that an installer file name carries: the name without
/// `SERAPOD-` before and `.exe` after.
pub open spec fn installer_version(name: Seq<char>) -> Option<Seq<char>> {
    if crate::text::starts_with(name, "SERAPOD-"@) && crate::text::ends_with(
        name.subrange("SERAPOD-"@.len() as int, name.len() as int),
        ".exe"@,
    ) {
        Some(
            name.subrange(
                "SERAPOD-"@.len() as int,
                name.len() - ".exe"@.len(),
            ),
        )
    } else {
        None
    }
}

/// Whether a previous executable may be removed after a hand-off: it is not the
/// running executable, it lies in the same folder, and its name is the installer
/// name of a version older than `version`.
pub open spec fn replaceable(
    is_current: bool,
    same_folder: bool,
    name: Option<Seq<char>>,
    version: Seq<char>,
) -> bool {
    let n = match name {
        Some(n) => n,
        None => Seq::empty(),
    };
    !is_current && same_folder && match installer_version(n) {
        Some(old) => match semver_parse(old) {
            Some(o) => match semver_parse(version) {
                Some(v) => semver_lt(o, v),
                None => false,
            },
            None => false,
        },
        None => false,
    }
}

/// What the order of `semver::Version` is known to give for the version that
/// a file name carries against `version`, when both can be read (see `lt_known`).
pub open spec fn installed_order_known(name: Option<Seq<char>>, version: Seq<char>) -> bool {
    let n = match name {
        Some(n) => n,
        None => Seq::empty(),
    };
    match installer_version(n) {
        Some(old) => match (semver_parse(old), semver_parse(version)) {
            (Some(o), Some(v)) => lt_known(o, v),
            _ => true,
        },
        None => true,
    }
}

/// The characters of an optional file name.
pub open spec fn text_of_name(name: Option<&str>) -> Option<Seq<char>> {
    match name {
        Some(s) => Some(s@),
        None => None,
    }
}

/// Decides whether the previous executable of a hand-off may be removed, from
/// what its path says: whether it is the running executable, whether it lies in
/// the running executable's folder, and its file name when it has one in UTF-8.
pub fn old_executable_replaceable(
    is_current: bool,
    same_folder: bool,
    file_name: Option<&str>,
    version: &str,
) -> (r: bool)
    ensures
        r == replaceable(is_current, same_folder, text_of_name(file_name), version@),
        installed_order_known(text_of_name(file_name), version@),
{
    let name: &str = match file_name {
        Some(s) => s,
        None => "",
    };
    proof {
        reveal_strlit("");
    }
    assert(name@ == (match text_of_name(file_name) { Some(n) => n, None => Seq::<char>::empty() }));
    let rest = match strip_prefix(name, "SERAPOD-") {
        Some(t) => t,
        None => return false,
    };
    let old_text = match strip_suffix(rest.as_str(), ".exe") {
        Some(t) => t,
        None => return false,
    };
    assert(old_text@ =~= name@.subrange("SERAPOD-"@.len() as int, name@.len() - ".exe"@.len()));
    let old = match parse_version(old_text.as_str()) {
        Some(v) => v,
        None => return false,
    };
    let older = match parse_version(version) {
        Some(new) => version_lt(&old, &new),
        None => return false,
    };
    !is_current && same_folder && older
}

/// Whether `old`, the path of the previous executable of a hand-off, may be
/// removed by the running executable, whose path is `current` and whose
/// version is `version`: `old` is another file of the same folder, named after
/// an older version (see `replaceable`). Paths are compared by their
/// components (see `crate::paths::components`).
pub fn valid_old_path(old: &str, current: &str, version: &str) -> (r: bool)
    ensures
        r == replaceable(
            components(old@) == components(current@),
            parent_of(old@) == parent_of(current@),
            Some(file_name_of(old@)),
            version@,
        ),
        installed_order_known(Some(file_name_of(old@)), version@),
{
    let (is_current, same_folder, name) = compare_paths(old, current);
    old_executable_replaceable(is_current, same_folder, Some(name.as_str()), version)
}

/// Accepts an update request only while no installation runs; else `updateBusy`.
pub fn require_idle(installing: bool) -> (r: Result<(), String>)
    ensures
        match r {
            Ok(()) => !installing,
            Err(e) => installing && e@ == "updateBusy"@,
        },
{
    if installing {
        Err(owned("updateBusy"))
    } else {
        Ok(())
    }
}

/// The command-line flag that starts a hand-off.
pub open spec fn handoff_flag() -> Seq<char> {
    "--serapod-update"@
}

/// What the command line asks of a starting executable, from its number of
/// arguments (the program included), its first argument and its second one
/// (`None` when absent or not UTF-8): a plain start (`Ok(None)`) unless the
/// first argument is the hand-off flag; then exactly four arguments are needed
/// (else `Invalid update handoff`), and the second one must be the process id
/// of the previous version (else `Invalid update process`).
pub open spec fn handoff_request(arg_count: nat, mode: Option<Seq<char>>, pid_arg: Option<Seq<char>>) -> Result<
    Option<u32>,
    Seq<char>,
> {
    if mode != Some(handoff_flag()) {
        Ok(None)
    } else if arg_count != 4 {
        Err("Invalid update handoff"@)
    } else {
        match pid_arg {
            Some(p) => match parsed_unsigned(p, u32::MAX as nat) {
                Some(n) => Ok(Some(n as u32)),
                None => Err("Invalid update process"@),
            },
            None => Err("Invalid update process"@),
        }
    }
}

/// The optional characters of an optional string.
pub open spec fn text_of_arg(arg: Option<&str>) -> Option<Seq<char>> {
    match arg {
        Some(s) => Some(s@),
        None => None,
    }
}

/// Reads the hand-off request of the command line (see `handoff_request`):
/// `Ok(Some(pid))` for a hand-off from process `pid`.
pub fn parse_handoff(arg_count: usize, mode: Option<&str>, pid_arg: Option<&str>) -> (r: Result<Option<u32>, String>)
    ensures
        match r {
            Ok(h) => handoff_request(arg_count as nat, text_of_arg(mode), text_of_arg(pid_arg)) == Ok::<
                Option<u32>,
                Seq<char>,
            >(h),
            Err(e) => handoff_request(arg_count as nat, text_of_arg(mode), text_of_arg(pid_arg)) == Err::<
                Option<u32>,
                Seq<char>,
            >(e@),
        },
{
    let flag = match mode {
        Some(m) => same_text(m, "--serapod-update"),
        None => false,
    };
    proof {
        reveal_strlit("--serapod-update");
    }
    if !flag {
        return Ok(None);
    }
    if arg_count != 4 {
        return Err(owned("Invalid update handoff"));
    }
    match pid_arg {
        Some(p) => match parse_unsigned(p, 4294967295) {
            Some(n) => Ok(Some(n as u32)),
            None => Err(owned("Invalid update process")),
        },
        None => Err(owned("Invalid update process")),
    }
}

/// A lowercase hexadecimal digit.
pub open spec fn is_lower_hex_digit(c: char) -> bool {
    ('0' <= c <= '9') || ('a' <= c <= 'f')
}

/// An offer is made only for a published, stable release whose version is
/// newer than the running one. It names the running version, points at this
/// repository's download of the installer of the offered version, is between
/// 2 bytes and 200 MiB, and carries the SHA-256 as 64 lowercase hexadecimal
/// digits.
pub proof fn lemma_offer_is_sound(release: Release, current: Seq<char>)
    ensures
        match release_offer(release, current) {
            Ok(Some(o)) => {
                &&& !release.draft && !release.prerelease
                &&& o.0 == current
                &&& match (semver_parse(tag_version(release.tag_name@)), semver_parse(current)) {
                    (Some(v), Some(installed)) => v.3.len() == 0 && !semver_le(v, installed) && o.1
                        == version_display(v),
                    _ => false,
                }
                &&& o.3 == release_download_url(release.tag_name@, installer_name(o.1))
                &&& 2 <= o.4 <= MAX_DOWNLOAD
                &&& o.5.len() == 64
                &&& forall|i: int| 0 <= i < 64 ==> is_lower_hex_digit(#[trigger] o.5[i])
            },
            _ => true,
        },
{
    match release_offer(release, current) {
        Ok(Some(o)) => {
            let v = semver_parse(tag_version(release.tag_name@))->Some_0;
            let name = installer_name(version_display(v));
            let i = first_named(release.assets@, name, 0)->Some_0;
            let h = digest_hash(release.assets@[i].digest)->Some_0;
            assert(o.5 == ascii_lowered(h));
            assert forall|k: int| 0 <= k < 64 implies is_lower_hex_digit(#[trigger] o.5[k]) by {
                assert(is_hex_digit(h[k]));
            }
        },
        _ => {},
    }
}

/// Drafts and pre-releases are never offered, nor versions that are not newer
/// than the running one, once both versions can be read.
pub proof fn lemma_no_offer_for_unstable_or_older(release: Release, current: Seq<char>)
    requires
        semver_parse(tag_version(release.tag_name@)) is Some,
        semver_parse(current) is Some,
        release.draft || release.prerelease || semver_parse(tag_version(release.tag_name@))->Some_0.3.len() > 0
            || semver_le(semver_parse(tag_version(release.tag_name@))->Some_0, semver_parse(current)->Some_0),
    ensures
        release_offer(release, current) == Ok::<
            Option<(Seq<char>, Seq<char>, Seq<char>, Seq<char>, u64, Seq<char>)>,
            Seq<char>,
        >(None),
{
}

/// The previous executable of a hand-off is removed only when it is not the
/// running one, lies in the same folder, and is the installer of a version
/// older than the running one.
pub proof fn lemma_only_older_installers_replaced(old: Seq<char>, current: Seq<char>, version: Seq<char>)
    requires
        replaceable(
            components(old) == components(current),
            parent_of(old) == parent_of(current),
            Some(file_name_of(old)),
            version,
        ),
    ensures
        components(old) != components(current),
        parent_of(old) == parent_of(current),
        installer_version(file_name_of(old)) is Some,
        match (semver_parse(installer_version(file_name_of(old))->Some_0), semver_parse(version)) {
            (Some(o), Some(v)) => semver_lt(o, v),
            _ => false,
        },
{
}

/// A command line without the hand-off flag is a plain start, whatever else it holds.
pub proof fn lemma_plain_start(arg_count: nat, mode: Option<Seq<char>>, pid_arg: Option<Seq<char>>)
    requires
        mode != Some(handoff_flag()),
    ensures
        handoff_request(arg_count, mode, pid_arg) == Ok::<Option<u32>, Seq<char>>(None),
{
}

proof fn lemma_first_named_at(assets: Seq<Asset>, name: Seq<char>, i: int, k: int)
    requires
        0 <= k <= i < assets.len(),
        assets[i].name@ == name,
        forall|j: int| 0 <= j < i ==> (#[trigger] assets[j]).name@ != name,
    ensures
        first_named(assets, name, k) == Some(i),
    decreases i - k,
{
    if k < i {
        lemma_first_named_at(assets, name, i, k + 1);
    }
}

/// Every published, stable release newer than the running version is offered
/// when its first asset named `SERAPOD-<version>.exe` is served from this
/// repository's download of that release's tag, carries a `sha256:` digest of
/// 64 hexadecimal digits, and is between 2 bytes and 200 MiB: the offer holds
/// that version, URL and size, and the digest in small letters.
pub proof fn lemma_offer_is_complete(release: Release, current: Seq<char>, i: int, hash: Seq<char>)
    requires
        !release.draft,
        !release.prerelease,
        semver_parse(tag_version(release.tag_name@)) is Some,
        semver_parse(current) is Some,
        semver_parse(tag_version(release.tag_name@))->Some_0.3.len() == 0,
        !semver_le(semver_parse(tag_version(release.tag_name@))->Some_0, semver_parse(current)->Some_0),
        0 <= i < release.assets@.len(),
        release.assets@[i].name@ == "SERAPOD-"@ + version_display(
            semver_parse(tag_version(release.tag_name@))->Some_0,
        ) + ".exe"@,
        forall|j: int| 0 <= j < i ==> (#[trigger] release.assets@[j]).name@ != release.assets@[i].name@,
        release.assets@[i].browser_download_url@ == "https://github.com/odessadraekavik/SERAPOD/releases/download/"@
            + release.tag_name@ + "/"@ + release.assets@[i].name@,
        release.assets@[i].digest is Some,
        release.assets@[i].digest->Some_0@ == "sha256:"@ + hash,
        hash.len() == 64,
        forall|k: int|
            0 <= k < 64 ==> ('0' <= #[trigger] hash[k] <= '9') || ('a' <= hash[k] <= 'f') || ('A' <= hash[k] <= 'F'),
        2 <= release.assets@[i].size <= 200 * 1024 * 1024,
    ensures
        release_offer(release, current) matches Ok(Some(o)) && o.0 == current && o.1 == version_display(
            semver_parse(tag_version(release.tag_name@))->Some_0,
        ) && o.3 == release.assets@[i].browser_download_url@ && o.4 == release.assets@[i].size && o.5
            == ascii_lowered(hash),
{
    let a = release.assets@[i];
    let name = a.name@;
    lemma_first_named_at(release.assets@, name, i, 0);
    reveal_strlit("sha256:");
    let d = a.digest->Some_0@;
    assert(d.subrange(0, "sha256:"@.len() as int) =~= "sha256:"@);
    assert(d.subrange("sha256:"@.len() as int, d.len() as int) =~= hash);
    assert(digest_hash(a.digest) == Some(hash));
    assert(hash_text_ok(hash));
}

} // verus!
