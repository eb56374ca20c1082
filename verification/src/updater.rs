//! Self-update decisions: which release asset to offer, whether a release is
//! newer than the running version, and the installer's command line.
use vstd::prelude::*;
use crate::text::{chars_of, chars_ends_with, concat, ends_with_spec, owned, string_of};

verus! {

/// The repository whose releases are checked.
pub const REPO: &'static str = "ericitguys/jotty-client";

/// The outcome of an update check.
#[derive(Debug)]
pub struct UpdateInfo {
    pub current: String,
    pub latest: String,
    pub available: bool,
    /// Platform-appropriate asset URL: the .rpm on desktop, the .apk on Android.
    pub download_url: Option<String>,
}

/// A release asset as the releases API lists it.
#[derive(Debug)]
pub struct GhAsset {
    pub name: String,
    pub browser_download_url: String,
}

/// A release as the releases API lists it (`draft` is false where absent).
#[derive(Debug)]
pub struct GhRelease {
    pub tag_name: String,
    pub assets: Vec<GhAsset>,
    pub draft: bool,
}

/// `p` occurs in `s`.
pub open spec fn contains_spec(s: Seq<char>, p: Seq<char>) -> bool {
    exists|k: int| 0 <= k && k + p.len() <= s.len() && #[trigger] s.subrange(k, k + p.len()) == p
}

/// Whether `p` occurs in `s`.
pub fn contains(s: &[char], p: &[char]) -> (r: bool)
    ensures
        r == contains_spec(s@, p@),
{
    let mut k: usize = 0;
    while k <= s.len()
        invariant
            k <= s@.len() + 1,
            forall|j: int| 0 <= j < k && j + p@.len() <= s@.len() ==> #[trigger] s@.subrange(j, j + p@.len()) != p@,
        decreases s@.len() + 1 - k,
    {
        if crate::voice_ai::matches_at(s, k, p) {
            return true;
        }
        if k == s.len() {
            return false;
        }
        k += 1;
    }
    false
}

/// An asset that is an Android package.
pub open spec fn is_apk(a: GhAsset) -> bool {
    ends_with_spec(a.name@, ".apk"@)
}

/// The first asset that is an arm64 Android package, by its URL.
pub open spec fn first_arm64_apk(a: Seq<GhAsset>) -> Option<Seq<char>>
    decreases a.len(),
{
    if a.len() == 0 {
        None
    } else if is_apk(a[0]) && contains_spec(a[0].name@, "arm64"@) {
        Some(a[0].browser_download_url@)
    } else {
        first_arm64_apk(a.drop_first())
    }
}

/// The first asset that is an Android package, by its URL.
pub open spec fn first_apk(a: Seq<GhAsset>) -> Option<Seq<char>>
    decreases a.len(),
{
    if a.len() == 0 {
        None
    } else if is_apk(a[0]) {
        Some(a[0].browser_download_url@)
    } else {
        first_apk(a.drop_first())
    }
}

/// The Android package offered from a release: the first arm64 one, else the
/// first one.
pub open spec fn pick_apk_spec(a: Seq<GhAsset>) -> Option<Seq<char>> {
    match first_arm64_apk(a) {
        Some(u) => Some(u),
        None => first_apk(a),
    }
}

/// The first asset that is an RPM package, by its URL.
pub open spec fn first_rpm(a: Seq<GhAsset>) -> Option<Seq<char>>
    decreases a.len(),
{
    if a.len() == 0 {
        None
    } else if ends_with_spec(a[0].name@, ".rpm"@) {
        Some(a[0].browser_download_url@)
    } else {
        first_rpm(a.drop_first())
    }
}

/// View of an optional text.
pub open spec fn ostr(o: Option<String>) -> Option<Seq<char>> {
    match o {
        Some(s) => Some(s@),
        None => None,
    }
}

/// Picks the Android package for this device: an arm64 one first, else any.
pub fn pick_apk_asset(assets: &[GhAsset]) -> (r: Option<String>)
    ensures
        ostr(r) == pick_apk_spec(assets@),
{
    let apk = chars_of(".apk");
    let arm = chars_of("arm64");
    let mut i: usize = 0;
    proof { assert(assets@.skip(0) =~= assets@); }
    while i < assets.len()
        invariant
            i <= assets@.len(),
            apk@ == ".apk"@,
            arm@ == "arm64"@,
            first_arm64_apk(assets@) == first_arm64_apk(assets@.skip(i as int)),
        decreases assets@.len() - i,
    {
        let name = chars_of(assets[i].name.as_str());
        proof { assert(assets@.skip(i as int).drop_first() =~= assets@.skip(i as int + 1)); }
        if chars_ends_with(name.as_slice(), apk.as_slice()) && contains(name.as_slice(), arm.as_slice()) {
            return Some(assets[i].browser_download_url.clone());
        }
        i += 1;
    }
    let mut j: usize = 0;
    while j < assets.len()
        invariant
            j <= assets@.len(),
            apk@ == ".apk"@,
            first_arm64_apk(assets@) is None,
            first_apk(assets@) == first_apk(assets@.skip(j as int)),
        decreases assets@.len() - j,
    {
        let name = chars_of(assets[j].name.as_str());
        proof { assert(assets@.skip(j as int).drop_first() =~= assets@.skip(j as int + 1)); }
        if chars_ends_with(name.as_slice(), apk.as_slice()) {
            return Some(assets[j].browser_download_url.clone());
        }
        j += 1;
    }
    None
}

/// The RPM package of a release, by its URL.
pub fn find_rpm(assets: &[GhAsset]) -> (r: Option<String>)
    ensures
        ostr(r) == first_rpm(assets@),
{
    let rpm = chars_of(".rpm");
    let mut i: usize = 0;
    proof { assert(assets@.skip(0) =~= assets@); }
    while i < assets.len()
        invariant
            i <= assets@.len(),
            rpm@ == ".rpm"@,
            first_rpm(assets@) == first_rpm(assets@.skip(i as int)),
        decreases assets@.len() - i,
    {
        let name = chars_of(assets[i].name.as_str());
        proof { assert(assets@.skip(i as int).drop_first() =~= assets@.skip(i as int + 1)); }
        if chars_ends_with(name.as_slice(), rpm.as_slice()) {
            return Some(assets[i].browser_download_url.clone());
        }
        i += 1;
    }
    None
}

/// The tag and the RPM package (none when the release has none) of a
/// `/releases/latest` answer, as decoded; a body that is no release is refused.
pub fn parse_release(decoded: Result<GhRelease, String>) -> (r: Result<(String, Option<String>), String>)
    ensures
        match decoded {
            Ok(rel) => r is Ok && r->Ok_0.0@ == rel.tag_name@ && ostr(r->Ok_0.1) == first_rpm(rel.assets@),
            Err(e) => r is Err && r->Err_0@ == "unexpected release payload: "@ + e@,
        },
{
    match decoded {
        Ok(rel) => {
            let rpm = find_rpm(rel.assets.as_slice());
            Ok((rel.tag_name, rpm))
        }
        Err(e) => Err(concat("unexpected release payload: ", e.as_str())),
    }
}

/// The first release of a list, newest first, that is no draft and carries an
/// Android package: its tag and the package's URL.
pub open spec fn first_apk_release(rels: Seq<GhRelease>) -> Option<(Seq<char>, Seq<char>)>
    decreases rels.len(),
{
    if rels.len() == 0 {
        None
    } else if !rels[0].draft && pick_apk_spec(rels[0].assets@) is Some {
        Some((rels[0].tag_name@, pick_apk_spec(rels[0].assets@)->Some_0))
    } else {
        first_apk_release(rels.drop_first())
    }
}

/// The newest release with an Android package in a `/releases` answer, as
/// decoded (drafts and desktop-only releases skipped; none when there is
/// none); a body that is no list of releases is refused.
pub fn parse_release_list(decoded: Result<Vec<GhRelease>, String>) -> (r: Result<Option<(String, String)>, String>)
    ensures
        match decoded {
            Ok(rels) => r is Ok && match r->Ok_0 {
                Some((t, u)) => first_apk_release(rels@) == Some((t@, u@)),
                None => first_apk_release(rels@) is None,
            },
            Err(e) => r is Err && r->Err_0@ == "unexpected releases payload: "@ + e@,
        },
{
    let rels = match decoded {
        Ok(v) => v,
        Err(e) => { return Err(concat("unexpected releases payload: ", e.as_str())); }
    };
    let mut i: usize = 0;
    proof { assert(rels@.skip(0) =~= rels@); }
    while i < rels.len()
        invariant
            i <= rels@.len(),
            decoded == Ok::<Vec<GhRelease>, String>(rels),
            first_apk_release(rels@) == first_apk_release(rels@.skip(i as int)),
        decreases rels@.len() - i,
    {
        proof {
            assert(rels@.skip(i as int).drop_first() =~= rels@.skip(i as int + 1));
            assert(rels@.skip(i as int)[0] == rels@[i as int]);
        }
        if !rels[i].draft {
            if let Some(url) = pick_apk_asset(rels[i].assets.as_slice()) {
                return Ok(Some((rels[i].tag_name.clone(), url)));
            }
        }
        i += 1;
    }
    Ok(None)
}

#[verifier::external_type_specification]
#[verifier::external_body]
pub struct ExSemverVersion(semver::Version);

/// A version text together with the version `semver` read from it.
#[derive(Debug)]
pub struct ParsedVersion {
    text: String,
    version: semver::Version,
}

impl View for ParsedVersion {
    type V = Seq<char>;

    /// The text the version was read from.
    closed spec fn view(&self) -> Seq<char> {
        self.text@
    }
}

/// The text of `semver`'s error for a text that is no version; none when it is one.
pub uninterp spec fn semver_error(s: Seq<char>) -> Option<Seq<char>>;

/// The version the first text stands for is greater than the second's, in
/// `semver::Version`'s order.
pub uninterp spec fn semver_greater(a: Seq<char>, b: Seq<char>) -> bool;

/// A text in Rust's debug notation (`{:?}`): quoted, with escapes.
pub uninterp spec fn debug_quoted(s: Seq<char>) -> Seq<char>;

/// Reads a version (`semver::Version::parse`); on failure the error's text.
/// Both are functions of the text alone.
#[verifier::external_body]
fn parse_version(s: &str) -> (r: Result<ParsedVersion, String>)
    ensures
        match r {
            Ok(v) => v@ == s@ && semver_error(s@) is None,
            Err(m) => semver_error(s@) == Some(m@),
        },
{
    match semver::Version::parse(s) {
        Ok(v) => Ok(ParsedVersion { text: s.to_string(), version: v }),
        Err(e) => Err(e.to_string()),
    }
}

/// Whether the first version is greater than the second (`>` on
/// `semver::Version`, whose order is total): a function of the two texts, and
/// never true of a version and itself.
#[verifier::external_body]
fn version_greater(a: &ParsedVersion, b: &ParsedVersion) -> (r: bool)
    ensures
        r == semver_greater(a@, b@),
        a@ == b@ ==> !r,
{
    a.version > b.version
}

/// A text in Rust's debug notation (`format!("{:?}", s)`).
#[verifier::external_body]
fn debug_text(s: &str) -> (r: String)
    ensures
        r@ == debug_quoted(s@),
{
    format!("{s:?}")
}

/// A release tag without its leading `v`.
pub open spec fn strip_v(t: Seq<char>) -> Seq<char> {
    if t.len() > 0 && t[0] == 'v' { t.drop_first() } else { t }
}

/// Whether the release tag names a newer version than the running one (a
/// leading `v` of the tag is ignored). A text that is no version is an
/// error, never a silent "no update"; the current version is read first.
pub fn is_newer(current: &str, latest_tag: &str) -> (r: Result<bool, String>)
    ensures
        match semver_error(current@) {
            Some(e) => r is Err && r->Err_0@ == "bad current version "@ + debug_quoted(current@) + ": "@ + e,
            None => match semver_error(strip_v(latest_tag@)) {
                Some(e) => r is Err && r->Err_0@ == "bad release tag "@ + debug_quoted(latest_tag@) + ": "@ + e,
                None => r == Ok::<bool, String>(semver_greater(strip_v(latest_tag@), current@)),
            },
        },
        r is Ok && strip_v(latest_tag@) == current@ ==> !r->Ok_0,
{
    let t = chars_of(latest_tag);
    let latest: String = if t.len() > 0 && t[0] == 'v' {
        let mut rest: Vec<char> = Vec::new();
        let mut k: usize = 1;
        while k < t.len()
            invariant
                1 <= k <= t@.len(),
                rest@ == t@.subrange(1, k as int),
            decreases t@.len() - k,
        {
            rest.push(t[k]);
            k += 1;
            proof { assert(rest@ =~= t@.subrange(1, k as int)); }
        }
        proof { assert(rest@ =~= t@.drop_first()); }
        string_of(rest.as_slice())
    } else {
        owned(latest_tag)
    };
    let cur = match parse_version(current) {
        Ok(v) => v,
        Err(e) => {
            let a = concat("bad current version ", debug_text(current).as_str());
            let b = concat(a.as_str(), ": ");
            let m = concat(b.as_str(), e.as_str());
            proof { assert(m@ =~= "bad current version "@ + debug_quoted(current@) + ": "@ + e@); }
            return Err(m);
        }
    };
    let lat = match parse_version(latest.as_str()) {
        Ok(v) => v,
        Err(e) => {
            let a = concat("bad release tag ", debug_text(latest_tag).as_str());
            let b = concat(a.as_str(), ": ");
            let m = concat(b.as_str(), e.as_str());
            proof { assert(m@ =~= "bad release tag "@ + debug_quoted(latest_tag@) + ": "@ + e@); }
            return Err(m);
        }
    };
    Ok(version_greater(&lat, &cur))
}

/// The update check on the latest release, from its decoded answer: its tag,
/// whether it is newer than the running version, and its RPM package.
pub fn check_latest(current: &str, decoded: Result<GhRelease, String>) -> (r: Result<UpdateInfo, String>)
    ensures
        match decoded {
            Err(e) => r is Err && r->Err_0@ == "unexpected release payload: "@ + e@,
            Ok(rel) => match r {
                Ok(info) => info.current@ == current@ && info.latest@ == rel.tag_name@
                    && ostr(info.download_url) == first_rpm(rel.assets@)
                    && semver_error(current@) is None && semver_error(strip_v(rel.tag_name@)) is None
                    && info.available == semver_greater(strip_v(rel.tag_name@), current@),
                Err(m) => semver_error(current@) is Some || semver_error(strip_v(rel.tag_name@)) is Some,
            },
        },
{
    let (tag, url) = match parse_release(decoded) {
        Ok(p) => p,
        Err(e) => { return Err(e); }
    };
    let available = match is_newer(current, tag.as_str()) {
        Ok(b) => b,
        Err(e) => { return Err(e); }
    };
    Ok(UpdateInfo { current: owned(current), latest: tag, available, download_url: url })
}

/// The update check on the Android releases, from the decoded list: the
/// newest release with a package, whether it is newer than the running
/// version, and the package; "none" and no update when no release has one.
pub fn check_apk_list(current: &str, decoded: Result<Vec<GhRelease>, String>) -> (r: Result<UpdateInfo, String>)
    ensures
        match decoded {
            Err(e) => r is Err && r->Err_0@ == "unexpected releases payload: "@ + e@,
            Ok(rels) => match first_apk_release(rels@) {
                None => r is Ok && r->Ok_0.current@ == current@ && r->Ok_0.latest@ == "none"@
                    && !r->Ok_0.available && r->Ok_0.download_url is None,
                Some((tag, url)) => match r {
                    Ok(info) => info.current@ == current@ && info.latest@ == tag
                        && ostr(info.download_url) == Some(url)
                        && semver_error(current@) is None && semver_error(strip_v(tag)) is None
                        && info.available == semver_greater(strip_v(tag), current@),
                    Err(m) => semver_error(current@) is Some || semver_error(strip_v(tag)) is Some,
                },
            },
        },
{
    let found = match parse_release_list(decoded) {
        Ok(f) => f,
        Err(e) => { return Err(e); }
    };
    match found {
        None => Ok(UpdateInfo { current: owned(current), latest: owned("none"), available: false, download_url: None }),
        Some((tag, apk_url)) => {
            let available = match is_newer(current, tag.as_str()) {
                Ok(b) => b,
                Err(e) => { return Err(e); }
            };
            Ok(UpdateInfo { current: owned(current), latest: tag, available, download_url: Some(apk_url) })
        }
    }
}

/// The part of a URL after its last `/` (the whole URL when it has none).
pub open spec fn last_segment(u: Seq<char>) -> Seq<char> {
    match crate::voice_ai::last_index(u, '/') {
        Some(i) => u.skip(i + 1),
        None => u,
    }
}

/// The file name a downloaded package is saved under: the URL's last
/// segment; an empty one is refused.
pub fn asset_file_name(url: &str) -> (r: Result<String, String>)
    ensures
        last_segment(url@).len() > 0 ==> r is Ok && r->Ok_0@ == last_segment(url@),
        last_segment(url@).len() == 0 ==> r is Err && r->Err_0@ == "bad asset url "@ + debug_quoted(url@),
{
    let u = chars_of(url);
    let n = u.len();
    let start: usize = match crate::voice_ai::find_last(u.as_slice(), '/') {
        Some(i) => {
            assert(i < n);
            i + 1
        }
        None => 0,
    };
    let mut seg: Vec<char> = Vec::new();
    let mut k: usize = start;
    while k < u.len()
        invariant
            start <= k <= u@.len(),
            seg@ == u@.subrange(start as int, k as int),
        decreases u@.len() - k,
    {
        seg.push(u[k]);
        k += 1;
        proof { assert(seg@ =~= u@.subrange(start as int, k as int)); }
    }
    proof {
        assert(seg@ =~= last_segment(url@));
    }
    if seg.len() == 0 {
        return Err(concat("bad asset url ", debug_text(url).as_str()));
    }
    Ok(string_of(seg.as_slice()))
}

/// The installer command: `pkexec` with these arguments.
pub fn install_args(rpm_path: &str) -> (r: Vec<String>)
    ensures
        r@.len() == 4,
        r@[0]@ == "/usr/bin/dnf"@,
        r@[1]@ == "install"@,
        r@[2]@ == "-y"@,
        r@[3]@ == rpm_path@,
{
    let mut v: Vec<String> = Vec::new();
    v.push(owned("/usr/bin/dnf"));
    v.push(owned("install"));
    v.push(owned("-y"));
    v.push(owned(rpm_path));
    v
}

/// The outcome of running the installer: the launch error, or whether it
/// succeeded with its exit status's text and its error output.
pub fn install_outcome(ran: Result<(bool, String, String), String>) -> (r: Result<(), String>)
    ensures
        match ran {
            Err(e) => r is Err && r->Err_0@ == "cannot launch installer: "@ + e@,
            Ok((ok, status, stderr)) => if ok {
                r is Ok
            } else {
                r is Err && r->Err_0@ == "dnf install failed ("@ + status@ + "): "@ + crate::text::trim_spec(stderr@)
            },
        },
{
    match ran {
        Err(e) => Err(concat("cannot launch installer: ", e.as_str())),
        Ok((ok, status, stderr)) => {
            if ok {
                Ok(())
            } else {
                let a = concat("dnf install failed (", status.as_str());
                let b = concat(a.as_str(), "): ");
                let t = crate::text::trim(stderr.as_str());
                let m = concat(b.as_str(), t.as_str());
                proof { assert(m@ =~= "dnf install failed ("@ + status@ + "): "@ + crate::text::trim_spec(stderr@)); }
                Err(m)
            }
        }
    }
}

} // verus!
