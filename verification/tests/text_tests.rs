use anirust::text::{contains_pat, decode_escaped_separators, find_from, str_eq};
use anirust::urls::{get_filename_from_url, resolve_uri};
use anirust::util::format_duration;

#[test]
fn decode_removes_every_escaped_separator() {
    let decoded = decode_escaped_separators("https:\\/\\/cdn.example\\/v\\/1.mp4");
    assert_eq!(decoded, "https://cdn.example/v/1.mp4");
    assert!(!decoded.contains("\\/"));
}

#[test]
fn decode_leaves_plain_text_alone() {
    assert_eq!(decode_escaped_separators("https://x/y"), "https://x/y");
    assert_eq!(decode_escaped_separators(""), "");
    assert_eq!(decode_escaped_separators("a\\b"), "a\\b");
}

#[test]
fn find_from_first_occurrence() {
    assert_eq!(find_from("abcabc", "bc", 0), Some(1));
    assert_eq!(find_from("abcabc", "bc", 2), Some(4));
    assert_eq!(find_from("abcabc", "zz", 0), None);
    assert_eq!(find_from("abc", "", 1), Some(1));
}

#[test]
fn contains_and_equality() {
    assert!(contains_pat("watch.m3u8?x", ".m3u8"));
    assert!(!contains_pat("watch.mp4", ".m3u8"));
    assert!(str_eq("same", "same"));
    assert!(!str_eq("same", "sane"));
    assert!(!str_eq("same", "samey"));
}

#[test]
fn filename_after_last_slash_before_query() {
    assert_eq!(get_filename_from_url("https://a/b/c.mp4?tok=1"), "c.mp4");
    assert_eq!(get_filename_from_url("video.mp4"), "video.mp4");
    assert_eq!(get_filename_from_url("https://a/b/"), "");
    assert_eq!(get_filename_from_url("https://a/x?y=/z"), "z");
}

#[test]
fn durations_format_by_magnitude() {
    assert_eq!(format_duration(3725), "1h 2m 5s");
    assert_eq!(format_duration(65), "1m 5s");
    assert_eq!(format_duration(9), "9s");
    assert_eq!(format_duration(0), "0s");
    assert_eq!(format_duration(3600), "1h 0m 0s");
}

#[test]
fn resolving_relative_uri_lands_in_base_directory() {
    assert_eq!(resolve_uri("https://cdn/path/master.m3u8", "low.m3u8"), "https://cdn/path/low.m3u8");
    assert_eq!(
        resolve_uri("https://cdn/path/master.m3u8", "https://other/abs.m3u8"),
        "https://other/abs.m3u8"
    );
}
