//! When a newer version is told of.

use vstd::prelude::*;
use crate::numbers::{all_digits, decimal, law_decimal_round_trip};
use crate::text::{has_text, occurs_at};
use crate::update_check::{
    agrees_with_order, fresh, is_notice, newer, page_of, semver_later, semver_parts, UpdateNotice,
    VersionView,
};

verus! {

/// A `v` in front of a version changes nothing about whether one comes after another.
pub proof fn law_v_in_front(current: Seq<char>, latest: Seq<char>)
    requires
        current.len() > 0,
        current[0] != 'v',
        latest.len() > 0,
        latest[0] != 'v',
    ensures
        newer(seq!['v'] + current, latest) == newer(current, latest),
        newer(current, seq!['v'] + latest) == newer(current, latest),
        newer(seq!['v'] + current, seq!['v'] + latest) == newer(current, latest),
{
    assert((seq!['v'] + current).skip(1) =~= current);
    assert((seq!['v'] + latest).skip(1) =~= latest);
}

/// Whether the order of two versions is told as their numbers have it.
pub open spec fn ordered_by_numbers(current: Seq<char>, latest: Seq<char>) -> bool {
    semver_parts(current) is Some && semver_parts(latest) is Some && agrees_with_order(
        semver_parts(latest)->Some_0,
        semver_parts(current)->Some_0,
        semver_later(latest, current),
    )
}

/// A version is newer than another exactly where, at the first of the three numbers in which they
/// differ, it has the larger one. A text that is no version is never newer, and nothing is newer
/// than it.
pub proof fn law_newer_by_numbers(
    current: Seq<char>,
    latest: Seq<char>,
    a: VersionView,
    b: VersionView,
)
    requires
        current.len() == 0 || current[0] != 'v',
        latest.len() == 0 || latest[0] != 'v',
    ensures
        semver_parts(current) is None || semver_parts(latest) is None ==> !newer(current, latest),
        ordered_by_numbers(current, latest) && semver_parts(current) == Some(a) && semver_parts(
            latest,
        ) == Some(b) ==> {
            &&& a.major != b.major ==> newer(current, latest) == (b.major > a.major)
            &&& a.major == b.major && a.minor != b.minor ==> newer(current, latest) == (b.minor
                > a.minor)
            &&& a.major == b.major && a.minor == b.minor && a.patch != b.patch ==> newer(
                current,
                latest,
            ) == (b.patch > a.patch)
            &&& a == b ==> !newer(current, latest)
        },
{
}

/// A notice is given exactly where the latest version is newer, and it holds both versions and where
/// the newer one is.
pub proof fn law_notice(
    r: Option<UpdateNotice>,
    current: Seq<char>,
    latest: Seq<char>,
    url: Seq<char>,
)
    requires
        is_notice(r, current, latest, url),
    ensures
        r is Some <==> newer(current, latest),
        r matches Some(n) ==> has_text(n.text(), "v"@ + current + " -> v"@ + latest) && has_text(
            n.text(),
            url,
        ),
{
    if let Some(n) = r {
        let t = n.text();
        let p = "v"@ + current + " -> v"@ + latest;
        reveal_strlit("A new version of skillfile is available: v");
        reveal_strlit("v");
        reveal_strlit(" -> v");
        reveal_strlit("\n");
        let head = "A new version of skillfile is available: v"@;
        let at = head.len() - 1;
        assert(t.subrange(at, at + p.len()) =~= p);
        assert(occurs_at(t, p, at));
        let k = t.len() - url.len();
        assert(t.subrange(k, t.len() as int) =~= url);
        assert(occurs_at(t, url, k));
    }
}

/// A check is good for a day, in seconds, from the time at which it was made; one that seems to be
/// made in the future is not, and neither is one whose time is no number.
pub proof fn law_good_for_a_day(made: u64, now: u64, text: Seq<char>)
    ensures
        fresh(decimal(made as nat), now) <==> made <= now && now < made + 86400,
        fresh(text, now) ==> text.len() > 0 && (all_digits(text) || (text[0] == '+' && all_digits(
            text.skip(1),
        ))),
{
    law_decimal_round_trip(made as nat, u64::MAX as nat);
}

/// The page of a release is the one that is given, and else the one of its tag.
pub proof fn law_page_of_a_release(tag: Seq<char>, url: Seq<char>)
    ensures
        page_of(tag, Some(url)) == url,
        page_of(tag, None) == "https://github.com/eljulians/skillfile/releases/tag/"@ + tag,
{
}

} // verus!
