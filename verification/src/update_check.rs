//! Telling the user about a newer version.

use vstd::prelude::*;
use vstd::string::StringExecFns;
use crate::commands::common::sentence;
use crate::lines::split_at_char;
use crate::numbers::{decimal, is_digit, number, parse_decimal, parse_u64};
use crate::paths::{join_path, join_paths};
use crate::text::{opt_text, same, slice_string, to_chars};

verus! {

/// How long the answer of a check is used, in seconds: a day.
pub const CHECK_INTERVAL: u64 = 86400;

/// Where the latest release is asked for.
pub const RELEASES_URL: &'static str =
    "https://api.github.com/repos/eljulians/skillfile/releases/latest";

// ---------------------------------------------------------------------------
// Versions
// ---------------------------------------------------------------------------

/// The parts of a version.
pub struct VersionView {
    pub major: u64,
    pub minor: u64,
    pub patch: u64,
    pub pre: Seq<char>,
    pub build: Seq<char>,
}

/// The parts of a version.
pub struct VersionParts {
    pub major: u64,
    pub minor: u64,
    pub patch: u64,
    pub pre: String,
    pub build: String,
}

impl View for VersionParts {
    type V = VersionView;

    open spec fn view(&self) -> VersionView {
        VersionView {
            major: self.major,
            minor: self.minor,
            patch: self.patch,
            pre: self.pre@,
            build: self.build@,
        }
    }
}

/// A version of three numbers, as text.
pub open spec fn plain_version(major: u64, minor: u64, patch: u64) -> Seq<char> {
    decimal(major as nat) + "."@ + decimal(minor as nat) + "."@ + decimal(patch as nat)
}

/// Whether a text is one field of a pre-release: letters, digits and hyphens. A number has no zero
/// in front.
pub open spec fn pre_release_field(f: Seq<char>) -> bool {
    &&& f.len() > 0
    &&& forall|i: int|
        0 <= i < f.len() ==> is_digit(#[trigger] f[i]) || 'a' <= f[i] <= 'z' || 'A' <= f[i] <= 'Z'
            || f[i] == '-'
    &&& f.len() > 1 && f[0] == '0' ==> exists|i: int| 0 <= i < f.len() && !is_digit(#[trigger] f[i])
}

/// Whether a text is a pre-release: fields with dots between them.
pub open spec fn pre_release(p: Seq<char>) -> bool {
    forall|i: int|
        0 <= i < split_at_char(p, '.').len() ==> pre_release_field(
            #[trigger] split_at_char(p, '.')[i],
        )
}

/// A version of three numbers, as text, with a pre-release where that is not empty.
pub open spec fn version_text(major: u64, minor: u64, patch: u64, pre: Seq<char>) -> Seq<char> {
    if pre.len() == 0 {
        plain_version(major, minor, patch)
    } else {
        plain_version(major, minor, patch) + "-"@ + pre
    }
}

/// A version without build metadata.
pub open spec fn version_of(major: u64, minor: u64, patch: u64, pre: Seq<char>) -> VersionView {
    VersionView { major, minor, patch, pre, build: Seq::empty() }
}

/// The parts of the version that a text writes, where it writes one.
pub uninterp spec fn semver_parts(text: Seq<char>) -> Option<VersionView>;

/// Whether the version that one text writes comes after the one that another text writes.
pub uninterp spec fn semver_later(text: Seq<char>, other: Seq<char>) -> bool;

/// Whether three numbers, alone or with a pre-release, are read as a version of just those.
pub open spec fn reads_back(text: Seq<char>, r: Option<VersionParts>) -> bool {
    forall|a: u64, b: u64, c: u64, p: Seq<char>|
        text == #[trigger] version_text(a, b, c, p) && (p.len() == 0 || pre_release(p)) ==> (
        r matches Some(v) && v@ == version_of(a, b, c, p))
}

/// `semver::Version::parse`, with the parts of the version as plain values. Of three numbers, alone
/// or with a pre-release, the result is stated; of other texts it is only named.
#[verifier::external_body]
fn parse_version(text: &str) -> (r: Option<VersionParts>)
    ensures
        match r {
            Some(v) => semver_parts(text@) == Some(v@),
            None => semver_parts(text@) is None,
        },
        reads_back(text@, r),
{
    semver::Version::parse(text).ok().map(
        |v| VersionParts {
            major: v.major,
            minor: v.minor,
            patch: v.patch,
            pre: v.pre.as_str().to_string(),
            build: v.build.as_str().to_string(),
        },
    )
}

/// Whether three numbers come after three others.
pub open spec fn numbers_later(a: VersionView, b: VersionView) -> bool {
    a.major > b.major || (a.major == b.major && (a.minor > b.minor || (a.minor == b.minor
        && a.patch > b.patch)))
}

/// Whether two versions have the same three numbers.
pub open spec fn same_numbers(a: VersionView, b: VersionView) -> bool {
    a.major == b.major && a.minor == b.minor && a.patch == b.patch
}

/// What the order of versions says of two of them: where the numbers differ they decide, a release
/// comes after its pre-releases, and no version comes after itself.
pub open spec fn agrees_with_order(a: VersionView, b: VersionView, later: bool) -> bool {
    &&& !same_numbers(a, b) ==> later == numbers_later(a, b)
    &&& same_numbers(a, b) && a.pre.len() == 0 && b.pre.len() > 0 ==> later
    &&& same_numbers(a, b) && a.pre.len() > 0 && b.pre.len() == 0 ==> !later
    &&& a == b ==> !later
}

/// `>` on `semver::Version`. Where the numbers differ they decide; a release comes after its
/// pre-releases; a version does not come after itself; of two versions not both come after the
/// other. The order of pre-releases and of build metadata among each other is only named.
#[verifier::external_body]
fn version_later(text: &str, other: &str) -> (r: bool)
    requires
        semver_parts(text@) is Some,
        semver_parts(other@) is Some,
    ensures
        r == semver_later(text@, other@),
        agrees_with_order(semver_parts(text@)->0, semver_parts(other@)->0, r),
        r ==> !semver_later(other@, text@),
{
    match (semver::Version::parse(text), semver::Version::parse(other)) {
        (Ok(a), Ok(b)) => a > b,
        _ => false,
    }
}

/// A version without a `v` at its start.
pub open spec fn without_v(s: Seq<char>) -> Seq<char> {
    if s.len() > 0 && s[0] == 'v' {
        s.skip(1)
    } else {
        s
    }
}

/// Takes a `v` off the start of a version.
pub fn strip_v(s: &str) -> (r: String)
    ensures
        r@ == without_v(s@),
{
    let v = to_chars(s);
    if v.len() > 0 && v[0] == 'v' {
        let r = slice_string(&v, 1, v.len());
        assert(r@ =~= s@.skip(1));
        r
    } else {
        s.to_owned()
    }
}

/// Whether one version comes after another; never where one of them is no version.
pub open spec fn newer(current: Seq<char>, latest: Seq<char>) -> bool {
    let c = without_v(current);
    let l = without_v(latest);
    semver_parts(c) is Some && semver_parts(l) is Some && semver_later(l, c)
}

/// Whether `latest` is a later version than `current`. A `v` before either does not matter.
///
/// Of two versions not both are later than the other, and none is later than itself. Where the
/// numbers differ they decide, and a release is later than its pre-releases.
pub fn is_newer(current: &str, latest: &str) -> (r: bool)
    ensures
        r == newer(current@, latest@),
        without_v(current@) == without_v(latest@) ==> !r,
        r ==> !newer(latest@, current@),
        semver_parts(without_v(current@)) matches Some(c) ==> (semver_parts(
            without_v(latest@),
        ) matches Some(l) ==> agrees_with_order(l, c, r)),
        forall|a: u64, b: u64, c: u64, p: Seq<char>, x: u64, y: u64, z: u64, q: Seq<char>|
            without_v(current@) == #[trigger] version_text(a, b, c, p) && (p.len() == 0
                || pre_release(p)) && without_v(latest@) == #[trigger] version_text(x, y, z, q) && (
            q.len() == 0 || pre_release(q)) ==> agrees_with_order(
                version_of(x, y, z, q),
                version_of(a, b, c, p),
                r,
            ),
        forall|a: u64, b: u64, c: u64, x: u64, y: u64, z: u64|
            without_v(current@) == #[trigger] plain_version(a, b, c) && without_v(latest@)
                == #[trigger] plain_version(x, y, z) ==> r == (x > a || (x == a && (y > b || (y == b
                && z > c)))),
{
    let c = strip_v(current);
    let l = strip_v(latest);
    assert forall|a: u64, b: u64, c: u64| #[trigger] plain_version(a, b, c) == version_text(
        a,
        b,
        c,
        Seq::empty(),
    ) by {}
    match (parse_version(&c), parse_version(&l)) {
        (Some(p), Some(q)) => version_later(&l, &c),
        _ => false,
    }
}

// ---------------------------------------------------------------------------
// Notices
// ---------------------------------------------------------------------------

/// The notice about a newer version.
#[derive(Debug, Clone, PartialEq, Eq)]
pub struct UpdateNotice {
    pub current: String,
    pub latest: String,
    pub url: String,
}

impl UpdateNotice {
    /// The text of the notice.
    pub open spec fn text(&self) -> Seq<char> {
        "A new version of skillfile is available: v"@ + self.current@ + " -> v"@ + self.latest@
            + "\n"@ + self.url@
    }

    /// The text of the notice.
    pub fn to_string(&self) -> (r: String)
        ensures
            r@ == self.text(),
    {
        let mut s = sentence(
            "A new version of skillfile is available: v",
            &self.current,
            " -> v",
        );
        s.append(&self.latest);
        s.append("\n");
        s.append(&self.url);
        s
    }
}

/// Whether to look for a newer version: not where the user or a build server asks for silence, and
/// only where a terminal shows the notice. The two values are those of the environment variables
/// `SKILLFILE_NO_UPDATE_NOTIFIER` and `CI`.
pub fn should_check(no_notifier: Option<&str>, ci: Option<&str>, stderr_is_terminal: bool) -> (r: bool)
    ensures
        r == (stderr_is_terminal && !(no_notifier matches Some(v) && v@.len() > 0) && !(ci matches Some(
            v,
        ) && (v@ == "true"@ || v@ == "1"@))),
{
    if let Some(v) = no_notifier {
        if !v.is_empty() {
            return false;
        }
    }
    if let Some(v) = ci {
        if same(v, "true") || same(v, "1") {
            return false;
        }
    }
    stderr_is_terminal
}

// ---------------------------------------------------------------------------
// The cache of the last check
// ---------------------------------------------------------------------------

/// What the last check found, and when.
#[derive(Debug, Clone)]
pub struct CacheEntry {
    pub last_check: String,
    pub latest_version: String,
    pub release_url: String,
}

/// Where the last check is kept, below the user's cache directory.
pub fn cache_path(cache_dir: Option<&str>) -> (r: Option<String>)
    ensures
        match cache_dir {
            Some(d) => r matches Some(p) && p@ == join_paths(
                join_paths(d@, "skillfile"@),
                "update-check.json"@,
            ),
            None => r is None,
        },
{
    match cache_dir {
        Some(d) => Some(join_path(&join_path(d, "skillfile"), "update-check.json")),
        None => None,
    }
}

/// Writes a time, in seconds since the epoch.
pub fn now_timestamp(now: u64) -> (r: String)
    ensures
        r@ == decimal(now as nat),
{
    number(now)
}

/// Reads a time, in seconds since the epoch.
pub fn parse_timestamp(s: &str) -> (r: Option<u64>)
    ensures
        match r {
            Some(t) => parse_decimal(s@, u64::MAX as nat) == Some(t as nat),
            None => parse_decimal(s@, u64::MAX as nat) is None,
        },
{
    parse_u64(s)
}

/// Whether a check made at a time is still good: it was made, not in the future, less than a day
/// ago.
pub open spec fn fresh(last_check: Seq<char>, now: u64) -> bool {
    parse_decimal(last_check, u64::MAX as nat) matches Some(t) && t <= now && now - t
        < CHECK_INTERVAL
}

/// Whether what the last check found is still good.
pub fn is_fresh(entry: &CacheEntry, now: u64) -> (r: bool)
    ensures
        r == fresh(entry.last_check@, now),
{
    match parse_timestamp(&entry.last_check) {
        Some(t) => t <= now && now - t < CHECK_INTERVAL,
        None => false,
    }
}

/// What a check does next.
pub enum CheckStep {
    /// It is done.
    Done(Option<UpdateNotice>),
    /// The latest release has to be asked for.
    Fetch,
}

fn notice_for(current: &str, latest: String, url: String) -> (r: Option<UpdateNotice>)
    ensures
        is_notice(r, current@, latest@, url@),
{
    if is_newer(current, &latest) {
        Some(UpdateNotice { current: current.to_owned(), latest, url })
    } else {
        None
    }
}

/// Whether a notice is given exactly where a version is newer, and says which.
pub open spec fn is_notice(
    r: Option<UpdateNotice>,
    current: Seq<char>,
    latest: Seq<char>,
    url: Seq<char>,
) -> bool {
    match r {
        Some(n) => newer(current, latest) && n.current@ == current && n.latest@ == latest && n.url@
            == url,
        None => !newer(current, latest),
    }
}

/// The first step of a check: a fresh result of an earlier one is used, else a release is fetched.
pub fn check_for_update(current: &str, cached: Option<CacheEntry>, now: u64) -> (r: CheckStep)
    ensures
        match cached {
            Some(c) => if fresh(c.last_check@, now) {
                r matches CheckStep::Done(n) && is_notice(
                    n,
                    current@,
                    c.latest_version@,
                    c.release_url@,
                )
            } else {
                r is Fetch
            },
            None => r is Fetch,
        },
{
    match cached {
        Some(c) => if is_fresh(&c, now) {
            CheckStep::Done(notice_for(current, c.latest_version, c.release_url))
        } else {
            CheckStep::Fetch
        },
        None => CheckStep::Fetch,
    }
}

/// What to keep while a release is fetched, so that there is no other check for a day even where the
/// program ends before the answer comes: what was found before, or else the version that runs.
pub fn started_check(current: &str, cached: Option<CacheEntry>, now: u64) -> (r: CacheEntry)
    ensures
        r.last_check@ == decimal(now as nat),
        match cached {
            Some(c) => r.latest_version@ == c.latest_version@ && r.release_url@ == c.release_url@,
            None => r.latest_version@ == current@ && r.release_url@.len() == 0,
        },
        forall|later: u64|
            now <= later && later - now < CHECK_INTERVAL ==> #[trigger] fresh(r.last_check@, later),
{
    assert forall|later: u64| now <= later && later - now < CHECK_INTERVAL implies #[trigger] fresh(
        decimal(now as nat),
        later,
    ) by {
        law_kept_check_is_fresh(now, later);
    }
    let last_check = now_timestamp(now);
    match cached {
        Some(c) => CacheEntry {
            last_check,
            latest_version: c.latest_version,
            release_url: c.release_url,
        },
        None => CacheEntry {
            last_check,
            latest_version: current.to_owned(),
            release_url: String::new(),
        },
    }
}

/// The page of a release: the one that is given, or the one that its tag leads to.
pub open spec fn page_of(tag: Seq<char>, html_url: Option<Seq<char>>) -> Seq<char> {
    match html_url {
        Some(u) => u,
        None => "https://github.com/eljulians/skillfile/releases/tag/"@ + tag,
    }
}

/// The page of a release: the one GitHub gives, or the one its tag gives.
pub fn release_url(tag: &str, html_url: Option<String>) -> (r: String)
    ensures
        r@ == page_of(tag@, opt_text(html_url)),
{
    match html_url {
        Some(u) => u,
        None => {
            let mut s: String = String::from_str(
                "https://github.com/eljulians/skillfile/releases/tag/",
            );
            s.append(tag);
            s
        },
    }
}

/// The second step of a check, with the release that was fetched: what to keep for the next check,
/// and the notice.
pub fn finish_check(current: &str, tag: &str, url: String, now: u64) -> (r: (
    CacheEntry,
    Option<UpdateNotice>,
))
    ensures
        r.0.last_check@ == decimal(now as nat),
        r.0.latest_version@ == without_v(tag@),
        r.0.release_url@ == url@,
        is_notice(r.1, current@, without_v(tag@), url@),
{
    let version = strip_v(tag);
    let entry = CacheEntry {
        last_check: now_timestamp(now),
        latest_version: version.clone(),
        release_url: url.clone(),
    };
    (entry, notice_for(current, version, url))
}

/// A result that is kept is good at once and for less than a day.
pub proof fn law_kept_check_is_fresh(now: u64, later: u64)
    requires
        now <= later,
    ensures
        fresh(decimal(now as nat), later) <==> later - now < CHECK_INTERVAL,
{
    crate::numbers::law_decimal_round_trip(now as nat, u64::MAX as nat);
}

// ---------------------------------------------------------------------------
// The answer of the release service
// ---------------------------------------------------------------------------

/// The string that a JSON text has under a key at its top level; `None` where the text is not
/// JSON, or has no string there.
pub uninterp spec fn json_string(text: Seq<char>, key: Seq<char>) -> Option<Seq<char>>;

/// `serde_json::from_str` into a `serde_json::Value`, the value of a key by its index operator, and
/// `as_str` of that. What comes out of a text and a key is only named.
#[verifier::external_body]
fn json_field(text: &str, key: &str) -> (r: Option<String>)
    ensures
        opt_text(r) == json_string(text@, key@),
{
    let data: serde_json::Value = serde_json::from_str(text).ok()?;
    data[key].as_str().map(str::to_string)
}

/// A release: its tag and its page.
pub struct Release {
    pub tag: String,
    pub url: String,
}

/// The release of a tag and a page: without a tag there is none, and a release without a page has
/// the one that its tag leads to.
pub fn release_of(tag: Option<String>, html_url: Option<String>) -> (r: Option<Release>)
    ensures
        match tag {
            Some(t) => r matches Some(x) && x.tag@ == t@ && x.url@ == page_of(
                t@,
                opt_text(html_url),
            ),
            None => r is None,
        },
{
    match tag {
        Some(t) => {
            let url = release_url(&t, html_url);
            Some(Release { tag: t, url })
        },
        None => None,
    }
}

/// The release that the release service answered with.
pub fn fetch_latest_release(body: &str) -> (r: Option<Release>)
    ensures
        match json_string(body@, "tag_name"@) {
            Some(t) => r matches Some(x) && x.tag@ == t && x.url@ == page_of(
                t,
                json_string(body@, "html_url"@),
            ),
            None => r is None,
        },
{
    let tag = json_field(body, "tag_name");
    let html_url = json_field(body, "html_url");
    release_of(tag, html_url)
}

} // verus!
