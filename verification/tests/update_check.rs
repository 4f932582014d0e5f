//! Looking for new releases.

use std::time::{Duration, SystemTime};

use skillfile::update_check::{
    cache_path, check_for_update, fetch_latest_release, finish_check, is_fresh, is_newer,
    now_timestamp, parse_timestamp, release_of, release_url, should_check, started_check, strip_v,
    CacheEntry, CheckStep, UpdateNotice,
};

fn now() -> u64 {
    SystemTime::now().duration_since(SystemTime::UNIX_EPOCH).unwrap().as_secs()
}

fn checked_at(last_check: String) -> CacheEntry {
    CacheEntry {
        last_check,
        latest_version: "99.88.77".to_string(),
        release_url: "https://example.com/fresh".to_string(),
    }
}

#[test]
fn is_newer_detects_minor_bump() {
    assert!(is_newer("1.0.0", "1.1.0"));
}

#[test]
fn is_newer_detects_major_bump() {
    assert!(is_newer("1.0.0", "2.0.0"));
}

#[test]
fn is_newer_detects_patch_bump() {
    assert!(is_newer("1.0.0", "1.0.1"));
}

#[test]
fn is_newer_returns_false_when_same() {
    assert!(!is_newer("1.0.0", "1.0.0"));
}

#[test]
fn is_newer_returns_false_when_current_is_greater() {
    assert!(!is_newer("1.1.0", "1.0.0"));
    assert!(!is_newer("2.0.0", "1.0.0"));
}

#[test]
fn is_newer_strips_v_prefix() {
    assert!(is_newer("v1.0.0", "v1.1.0"));
    assert!(is_newer("1.0.0", "v1.1.0"));
    assert!(is_newer("v1.0.0", "1.1.0"));
}

#[test]
fn is_newer_returns_false_on_invalid_semver() {
    assert!(!is_newer("not-a-version", "1.0.0"));
    assert!(!is_newer("1.0.0", "not-a-version"));
    assert!(!is_newer("abc", "def"));
}

#[test]
fn is_newer_handles_prerelease() {
    // A pre-release comes before its release.
    assert!(is_newer("1.0.0-alpha", "1.0.0"));
    assert!(!is_newer("1.0.0", "1.0.0-alpha"));
}

#[test]
fn update_notice_display_contains_versions_and_url() {
    let notice = UpdateNotice {
        current: "1.0.0".to_string(),
        latest: "1.1.0".to_string(),
        url: "https://github.com/eljulians/skillfile/releases/tag/v1.1.0".to_string(),
    };
    let s = notice.to_string();
    assert!(s.contains("v1.0.0 -> v1.1.0"));
    assert!(s.contains("https://github.com/eljulians/skillfile/releases/tag/v1.1.0"));
}

#[test]
fn update_notice_display_starts_with_new_version_message() {
    let notice = UpdateNotice {
        current: "1.0.1".to_string(),
        latest: "2.0.0".to_string(),
        url: "https://example.com/release".to_string(),
    };
    assert!(notice.to_string().starts_with("A new version of skillfile"));
}

#[test]
fn parse_timestamp_valid_unix() {
    let t = parse_timestamp("1710000000");
    assert!(t.is_some());
}

#[test]
fn parse_timestamp_invalid_returns_none() {
    assert!(parse_timestamp("not-a-number").is_none());
    assert!(parse_timestamp("").is_none());
}

#[test]
fn should_check_blocked_by_no_update_notifier() {
    assert!(!should_check(Some("1"), None, true));
    assert!(!should_check(Some("yes"), None, true));
}

#[test]
fn should_check_blocked_by_ci_true() {
    assert!(!should_check(None, Some("true"), true));
    assert!(!should_check(None, Some("1"), true));
}

#[test]
fn should_check_not_blocked_by_empty_notifier_var() {
    assert!(should_check(Some(""), None, true));
    assert!(!should_check(Some(""), None, false));
    assert!(should_check(None, Some("false"), true));
}

#[test]
fn now_timestamp_is_parseable() {
    let ts = now_timestamp(now());
    let parsed = parse_timestamp(&ts);
    assert!(
        parsed.is_some(),
        "now_timestamp() should produce a parseable value"
    );
}

#[test]
fn timestamp_round_trip() {
    let ts = now_timestamp(now());
    let parsed = SystemTime::UNIX_EPOCH + Duration::from_secs(parse_timestamp(&ts).unwrap());
    let elapsed = SystemTime::now().duration_since(parsed).unwrap();
    // Should be within a few seconds of "now"
    assert!(elapsed.as_secs() < 5);
}

#[test]
fn timestamps_are_whole_numbers() {
    assert_eq!(parse_timestamp("+7"), Some(7));
    assert_eq!(parse_timestamp("007"), Some(7));
    assert_eq!(parse_timestamp("18446744073709551615"), Some(u64::MAX));
    for s in ["18446744073709551616", "-1", "+", " 1", "1 ", "1.0"] {
        assert_eq!(parse_timestamp(s), None, "{s:?}");
        assert!(s.parse::<u64>().is_err());
    }
    assert_eq!(now_timestamp(0), "0");
}

#[test]
fn cache_path_ends_with_expected_filename() {
    assert_eq!(
        cache_path(Some("/home/u/.cache")).as_deref(),
        Some("/home/u/.cache/skillfile/update-check.json")
    );
    assert_eq!(cache_path(None), None);
}

#[test]
fn read_cache_from_returns_entry_when_fresh() {
    let t = now();
    let cached = checked_at(now_timestamp(t));
    assert!(is_fresh(&cached, t), "fresh cache entry should be readable");
    match check_for_update("1.0.0", Some(cached), t) {
        CheckStep::Done(Some(notice)) => {
            assert_eq!(notice.latest, "99.88.77");
            assert_eq!(notice.url, "https://example.com/fresh");
            assert_eq!(notice.current, "1.0.0");
        }
        _ => panic!("expected a notice"),
    }
}

#[test]
fn read_cache_from_returns_none_when_file_missing() {
    assert!(matches!(check_for_update("1.0.0", None, now()), CheckStep::Fetch));
}

#[test]
fn read_cache_from_returns_none_when_stale() {
    let t = now();
    let stale_time = t - 48 * 60 * 60;
    assert!(
        !is_fresh(&checked_at(stale_time.to_string()), t),
        "stale cache entry (48h old) should be ignored"
    );
    assert!(!is_fresh(&checked_at((t - 86400).to_string()), t));
    assert!(is_fresh(&checked_at((t - 86399).to_string()), t));
    assert!(!is_fresh(&checked_at((t + 1).to_string()), t));
    let step = check_for_update("1.0.0", Some(checked_at(stale_time.to_string())), t);
    assert!(matches!(step, CheckStep::Fetch));
}

#[test]
fn read_cache_from_returns_none_on_invalid_timestamp() {
    assert!(!is_fresh(&checked_at("not-a-number".to_string()), now()));
}

#[test]
fn releases_are_read_from_json() {
    let r = fetch_latest_release("{\"tag_name\": \"v2.0.0\", \"html_url\": \"https://e.org/r\"}").unwrap();
    assert_eq!((r.tag.as_str(), r.url.as_str()), ("v2.0.0", "https://e.org/r"));
    let r = fetch_latest_release("{\"tag_name\": \"v2.0.0\"}").unwrap();
    assert_eq!(r.url, "https://github.com/eljulians/skillfile/releases/tag/v2.0.0");
    assert!(fetch_latest_release("{\"html_url\": \"https://e.org/r\"}").is_none());
    assert!(fetch_latest_release("{\"tag_name\": 2}").is_none());
    assert!(fetch_latest_release("[]").is_none());
    assert!(fetch_latest_release("not json").is_none());
}

#[test]
fn releases_have_pages() {
    assert_eq!(release_url("v1", Some("x".to_string())), "x");
    assert!(release_of(None, Some("x".to_string())).is_none());
    assert_eq!(release_of(Some("v1".to_string()), Some("x".to_string())).unwrap().url, "x");
}

#[test]
fn a_check_ends_with_what_was_found() {
    let (entry, notice) = finish_check("1.0.0", "v1.2.0", "https://e.org".to_string(), 17);
    assert_eq!(entry.last_check, "17");
    assert_eq!(entry.latest_version, "1.2.0");
    assert_eq!(entry.release_url, "https://e.org");
    assert_eq!(
        notice.unwrap().to_string(),
        "A new version of skillfile is available: v1.0.0 -> v1.2.0\nhttps://e.org"
    );
    let (_, none) = finish_check("1.2.0", "v1.2.0", "https://e.org".to_string(), 17);
    assert!(none.is_none());
}

#[test]
fn newer_versions_are_strictly_later() {
    let versions = ["0.9.9", "1.0.0-alpha", "1.0.0-beta", "1.0.0", "1.0.1", "1.2.0", "1.10.0", "2.0.0"];
    for (i, a) in versions.iter().enumerate() {
        for (j, b) in versions.iter().enumerate() {
            assert_eq!(is_newer(a, b), i < j, "{a} and {b}");
        }
    }
    assert!(!is_newer("1.0", "2.0.0"));
    assert_eq!(strip_v("v1.0.0"), "1.0.0");
    assert_eq!(strip_v("1.0.0"), "1.0.0");
}

#[test]
fn releases_come_after_their_pre_releases() {
    assert!(is_newer("1.0.0-alpha", "1.0.0"));
    assert!(!is_newer("1.0.0", "1.0.0-alpha"));
    assert!(is_newer("v1.0.0-rc.1", "1.0.0"));
    assert!(is_newer("1.0.0", "1.0.1-0a.-"));
    assert!(!is_newer("1.0.0-01", "1.0.0"), "a number with a zero in front is no pre-release");
    assert!(!is_newer("1.0.0-", "1.0.0"));
}

#[test]
fn no_two_versions_come_after_each_other() {
    let versions = [
        "0.9.0", "1.0.0", "v1.0.0", "1.0.0-alpha", "1.0.0-alpha.1", "1.0.0-beta", "1.0.0-2",
        "1.0.0-10", "1.0.0+build", "1.0.0+other", "1.1.0", "10.0.0", "none",
    ];
    for a in versions {
        assert!(!is_newer(a, a), "{a}");
        for b in versions {
            assert!(!(is_newer(a, b) && is_newer(b, a)), "{a} {b}");
        }
    }
}

#[test]
fn a_started_check_is_kept_for_a_day() {
    let entry = started_check("1.2.3", None, 1000);
    assert_eq!(entry.last_check, "1000");
    assert_eq!(entry.latest_version, "1.2.3");
    assert_eq!(entry.release_url, "");
    assert!(is_fresh(&entry, 1000) && is_fresh(&entry, 1000 + 86399));
    assert!(!is_fresh(&entry, 1000 + 86400));
    let step = check_for_update("1.2.3", Some(entry), 2000);
    assert!(matches!(step, CheckStep::Done(None)));
    let old = CacheEntry {
        last_check: "1".to_string(),
        latest_version: "2.0.0".to_string(),
        release_url: "page".to_string(),
    };
    let entry = started_check("1.2.3", Some(old), 900_000);
    assert_eq!((entry.latest_version.as_str(), entry.release_url.as_str()), ("2.0.0", "page"));
    assert_eq!(entry.last_check, "900000");
}
