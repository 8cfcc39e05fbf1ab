use anirust::quality::{
    parse_quality, parse_quality_request, select, select_index, MediaCandidate, QualityRequest,
    SelectError,
};

fn cand(label: &str, url: &str, origin: &str) -> MediaCandidate {
    MediaCandidate {
        quality_label: label.to_string(),
        url: url.to_string(),
        origin_provider: origin.to_string(),
    }
}

#[test]
fn parse_quality_numeric() {
    assert_eq!(parse_quality("1080"), 1080);
    assert_eq!(parse_quality("720"), 720);
    assert_eq!(parse_quality("0"), 0);
    assert_eq!(parse_quality("4294967295"), u32::MAX);
}

#[test]
fn parse_quality_unparsable_is_zero() {
    assert_eq!(parse_quality(""), 0);
    assert_eq!(parse_quality("720p"), 0);
    assert_eq!(parse_quality("hd"), 0);
    assert_eq!(parse_quality("-1"), 0);
    assert_eq!(parse_quality("4294967296"), 0);
}

#[test]
fn parse_request_words() {
    assert!(matches!(parse_quality_request("best"), QualityRequest::Best));
    assert!(matches!(parse_quality_request("worst"), QualityRequest::Worst));
    match parse_quality_request("480") {
        QualityRequest::Exact(l) => assert_eq!(l, "480"),
        _ => panic!("expected an exact label"),
    }
}

#[test]
fn best_picks_maximum() {
    let cands = vec![cand("144", "a", "p"), cand("1080", "b", "p"), cand("720", "c", "p")];
    let chosen = select(&cands, &QualityRequest::Best).unwrap();
    assert_eq!(chosen.url, "b");
    assert_eq!(chosen.quality_label, "1080");
}

#[test]
fn best_breaks_ties_by_first_occurrence() {
    let cands = vec![cand("720", "first", "p"), cand("720", "second", "p")];
    let chosen = select(&cands, &QualityRequest::Best).unwrap();
    assert_eq!(chosen.url, "first");
}

#[test]
fn worst_picks_minimum() {
    let cands = vec![cand("144", "a", "p"), cand("1080", "b", "p"), cand("720", "c", "p")];
    let chosen = select(&cands, &QualityRequest::Worst).unwrap();
    assert_eq!(chosen.url, "a");
}

#[test]
fn unparsable_labels_never_beat_numeric_ones() {
    let cands = vec![cand("oops", "a", "p"), cand("480", "b", "p")];
    let chosen = select(&cands, &QualityRequest::Best).unwrap();
    assert_eq!(chosen.url, "b");
    let worst = select(&cands, &QualityRequest::Worst).unwrap();
    assert_eq!(worst.url, "a");
}

#[test]
fn exact_label_matches_verbatim() {
    let cands = vec![cand("144", "a", "p"), cand("1080", "b", "p"), cand("720", "c", "p")];
    let chosen = select(&cands, &QualityRequest::Exact("720".to_string())).unwrap();
    assert_eq!(chosen.url, "c");
    assert_eq!(chosen.quality_label, "720");
}

#[test]
fn absent_label_falls_back_to_best() {
    let cands = vec![cand("144", "a", "p"), cand("1080", "b", "p")];
    let fallback = select(&cands, &QualityRequest::Exact("360".to_string())).unwrap();
    let best = select(&cands, &QualityRequest::Best).unwrap();
    assert_eq!(fallback.url, best.url);
    assert_eq!(fallback.url, "b");
}

#[test]
fn empty_list_is_the_sole_selection_error() {
    let cands: Vec<MediaCandidate> = Vec::new();
    match select(&cands, &QualityRequest::Best) {
        Err(SelectError::QualityListEmpty) => {}
        _ => panic!("selection over nothing must fail"),
    }
    assert!(select_index(&cands, &QualityRequest::Worst).is_none());
}

#[test]
fn all_unparsable_keeps_insertion_order_for_best() {
    let cands = vec![cand("x", "a", "p"), cand("y", "b", "p")];
    let chosen = select(&cands, &QualityRequest::Best).unwrap();
    assert_eq!(chosen.url, "a");
}
