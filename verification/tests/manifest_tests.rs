use anirust::manifest::expand_manifest;

#[test]
fn two_declarations_expand_in_manifest_order() {
    let text = "#EXTM3U\n#EXT-X-STREAM-INF:BANDWIDTH=800000,RESOLUTION=640x360\nlow.m3u8\n#EXT-X-STREAM-INF:BANDWIDTH=2500000,RESOLUTION=1280x720\nhigh.m3u8\n";
    let cands = expand_manifest(text, "https://cdn/path/master.m3u8", "default");
    assert_eq!(cands.len(), 2);
    assert_eq!(cands[0].quality_label, "360");
    assert_eq!(cands[0].url, "https://cdn/path/low.m3u8");
    assert_eq!(cands[0].origin_provider, "default");
    assert_eq!(cands[1].quality_label, "720");
    assert_eq!(cands[1].url, "https://cdn/path/high.m3u8");
}

#[test]
fn uri_within_following_non_blank_line() {
    let text = "#EXT-X-STREAM-INF:RESOLUTION=1920x1080\n\n   \nvideo/full.m3u8\n";
    let cands = expand_manifest(text, "https://cdn/dir/m.m3u8", "default");
    assert_eq!(cands.len(), 1);
    assert_eq!(cands[0].quality_label, "1080");
    assert_eq!(cands[0].url, "https://cdn/dir/video/full.m3u8");
}

#[test]
fn absolute_uri_stands_as_it_is() {
    let text = "#EXT-X-STREAM-INF:RESOLUTION=640x480\nhttps://mirror/other.m3u8\n";
    let cands = expand_manifest(text, "https://cdn/a/m.m3u8", "p");
    assert_eq!(cands.len(), 1);
    assert_eq!(cands[0].url, "https://mirror/other.m3u8");
}

#[test]
fn malformed_resolution_is_skipped_not_fatal() {
    let text = "#EXT-X-STREAM-INF:RESOLUTION=abc\nskipme.m3u8\n#EXT-X-STREAM-INF:RESOLUTION=640x360\nkeep.m3u8\n";
    let cands = expand_manifest(text, "https://cdn/p/m.m3u8", "p");
    assert_eq!(cands.len(), 1);
    assert_eq!(cands[0].quality_label, "360");
    assert_eq!(cands[0].url, "https://cdn/p/keep.m3u8");
}

#[test]
fn declaration_without_uri_yields_nothing() {
    let text = "#EXT-X-STREAM-INF:RESOLUTION=640x360\n";
    let cands = expand_manifest(text, "https://cdn/p/m.m3u8", "p");
    assert_eq!(cands.len(), 0);
}

#[test]
fn declaration_followed_by_declaration_rescans() {
    let text = "#EXT-X-STREAM-INF:RESOLUTION=640x360\n#EXT-X-STREAM-INF:RESOLUTION=1280x720\nonly.m3u8\n";
    let cands = expand_manifest(text, "https://cdn/p/m.m3u8", "p");
    assert_eq!(cands.len(), 1);
    assert_eq!(cands[0].quality_label, "720");
    assert_eq!(cands[0].url, "https://cdn/p/only.m3u8");
}

#[test]
fn zero_valid_variants_yield_empty_list() {
    assert_eq!(expand_manifest("", "https://cdn/m.m3u8", "p").len(), 0);
    assert_eq!(expand_manifest("plain text\nno declarations\n", "https://cdn/m.m3u8", "p").len(), 0);
}

#[test]
fn windows_line_breaks_are_line_breaks() {
    let text = "#EXT-X-STREAM-INF:RESOLUTION=640x360\r\nlow.m3u8\r\n";
    let cands = expand_manifest(text, "https://cdn/p/m.m3u8", "p");
    assert_eq!(cands.len(), 1);
    assert_eq!(cands[0].url, "https://cdn/p/low.m3u8");
}
