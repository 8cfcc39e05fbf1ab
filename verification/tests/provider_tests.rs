use anirust::embed::EmbedLink;
use anirust::provider::{
    extract_direct_candidates, extract_generic_url, extract_manifest_ref, extract_raw_media_url,
    placeholder_candidate, provider_of, url_is_manifest, Provider,
};

#[test]
fn dispatch_is_total_over_tags() {
    assert_eq!(provider_of("default"), Provider::DirectFile);
    assert_eq!(provider_of("streamsb"), Provider::Placeholder);
    assert_eq!(provider_of("doodstream"), Provider::Placeholder);
    assert_eq!(provider_of("mp4upload"), Provider::Placeholder);
    assert_eq!(provider_of("never-heard-of-it"), Provider::Generic);
    assert_eq!(provider_of(""), Provider::Generic);
}

#[test]
fn direct_page_yields_one_candidate_per_pair() {
    let mut page = String::new();
    page.push_str("player.setup({sources:[");
    page.push_str("\"file\":\"https:\\/\\/cdn\\/v144.mp4\",\"label\":\"144\",");
    page.push_str("\"file\":\"https:\\/\\/cdn\\/v1080.mp4\",\"label\":\"1080\"]})");
    let page = page.as_str();
    let cands = extract_direct_candidates(page, "default");
    assert_eq!(cands.len(), 2);
    assert_eq!(cands[0].quality_label, "144");
    assert_eq!(cands[0].url, "https://cdn/v144.mp4");
    assert_eq!(cands[0].origin_provider, "default");
    assert_eq!(cands[1].quality_label, "1080");
    assert_eq!(cands[1].url, "https://cdn/v1080.mp4");
}

#[test]
fn direct_file_without_adjacent_label_is_skipped() {
    let page = "\"file\":\"https://cdn/one.mp4\" and then \"file\":\"x\",\"label\":\"480\"";
    let cands = extract_direct_candidates(page, "default");
    assert_eq!(cands.len(), 1);
    assert_eq!(cands[0].quality_label, "480");
}

#[test]
fn manifest_reference_is_found_or_absent() {
    let page = "{\"hls\":\"https:\\/\\/cdn\\/master.m3u8\"}";
    assert_eq!(extract_manifest_ref(page).unwrap(), "https://cdn/master.m3u8");
    assert!(extract_manifest_ref("no reference here").is_none());
}

#[test]
fn generic_patterns_are_tried_in_order() {
    let page = "<video><source src=\"https://g/src.mp4\"></video> \"file\":\"https://g/file.mp4\"";
    assert_eq!(extract_generic_url(page).unwrap(), "https://g/src.mp4");
    let page2 = "x \"src\":\"https://g/s.mp4\" y \"url\":\"https://g/u.mp4\"";
    assert_eq!(extract_generic_url(page2).unwrap(), "https://g/s.mp4");
    let page3 = "only \"url\":\"https://g/u.mp4\" here";
    assert_eq!(extract_generic_url(page3).unwrap(), "https://g/u.mp4");
}

#[test]
fn page_with_no_pattern_is_a_parse_failure() {
    assert!(extract_generic_url("<html>nothing to see</html>").is_none());
}

#[test]
fn raw_scan_finds_a_bare_media_url() {
    let page = "player.load(https://cdn/videos/ep1.mp4?sig=1> )";
    assert_eq!(extract_raw_media_url(page).unwrap(), "https://cdn/videos/ep1.mp4?sig=1");
    let spaced = "see https://cdn/v.mp4 now";
    assert_eq!(extract_raw_media_url(spaced).unwrap(), "https://cdn/v.mp4");
}

#[test]
fn raw_scan_matches_up_to_ascii_case_and_keeps_the_page_text() {
    let page = "watch at HTTP://CDN/V.MP4 today";
    assert_eq!(extract_raw_media_url(page).unwrap(), "HTTP://CDN/V.MP4");
}

#[test]
fn raw_scan_falls_back_to_a_manifest_extension() {
    let page = "src = 'https://cdn/master.m3u8'; nothing else";
    assert_eq!(extract_raw_media_url(page).unwrap(), "https://cdn/master.m3u8';");
    assert!(extract_raw_media_url("an .mp4 with no address before it").is_none());
}

#[test]
fn quoted_patterns_win_over_the_raw_scan() {
    let page = "\"url\":\"https://g/u.mp4\" and also https://raw/r.mp4 ";
    assert_eq!(extract_generic_url(page).unwrap(), "https://g/u.mp4");
    let raw_only = "just https://raw/r.mp4 here";
    assert_eq!(extract_generic_url(raw_only).unwrap(), "https://raw/r.mp4");
}

#[test]
fn placeholder_returns_the_embed_url_itself() {
    let link = EmbedLink {
        provider_tag: "doodstream".to_string(),
        raw_url: "https://dood/e/9".to_string(),
    };
    let c = placeholder_candidate(&link);
    assert_eq!(c.url, "https://dood/e/9");
    assert_eq!(c.quality_label, "unknown");
    assert_eq!(c.origin_provider, "doodstream");
}

#[test]
fn manifest_urls_are_recognised() {
    assert!(url_is_manifest("https://cdn/master.m3u8"));
    assert!(url_is_manifest("https://cdn/master.m3u8?sig=1"));
    assert!(!url_is_manifest("https://cdn/video.mp4"));
}
