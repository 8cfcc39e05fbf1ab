use anirust::embed::EmbedLink;
use anirust::pipeline::{
    provider_strategy, resolve_from_outcomes, Action, ExtractionError, FetchOutcome, Pipeline,
};
use anirust::quality::QualityRequest;

fn payload(pairs: &[(&str, &str)]) -> String {
    let mut p = String::from("{\"data\":[");
    for (url, name) in pairs {
        p.push_str("{\"sourceUrl\":\"");
        p.push_str(&url.replace('/', "\\/"));
        p.push_str("\",\"sourceName\":\"");
        p.push_str(name);
        p.push_str("\"},");
    }
    p.push_str("]}");
    p
}

fn direct_page(pairs: &[(&str, &str)]) -> String {
    let mut s = String::from("{sources:[");
    for (url, label) in pairs {
        s.push_str("\"file\":\"");
        s.push_str(url);
        s.push_str("\",\"label\":\"");
        s.push_str(label);
        s.push_str("\",");
    }
    s.push_str("]}");
    s
}

#[test]
fn metadata_transport_failure_is_fatal() {
    let r = resolve_from_outcomes(FetchOutcome::TransportFailed, vec![], QualityRequest::Best);
    assert_eq!(r, Err(ExtractionError::NetworkError));
}

#[test]
fn zero_embed_links_end_in_no_embed_links() {
    let r = resolve_from_outcomes(
        FetchOutcome::Text("{\"data\":[]}".to_string()),
        vec![],
        QualityRequest::Best,
    );
    assert_eq!(r, Err(ExtractionError::NoEmbedLinks));
}

#[test]
fn all_failing_strategies_end_in_no_sources_found() {
    let p = payload(&[("https://one/e/1", "default"), ("https://two/e/2", "weird")]);
    let r = resolve_from_outcomes(
        FetchOutcome::Text(p),
        vec![FetchOutcome::TransportFailed, FetchOutcome::TransportFailed],
        QualityRequest::Best,
    );
    assert_eq!(r, Err(ExtractionError::NoSourcesFound));
}

#[test]
fn all_empty_strategies_end_in_no_sources_found() {
    let p = payload(&[("https://one/e/1", "default"), ("https://two/e/2", "weird")]);
    let empty_page = || FetchOutcome::Text("<html>nothing useful</html>".to_string());
    let r = resolve_from_outcomes(
        FetchOutcome::Text(p),
        vec![empty_page(), empty_page()],
        QualityRequest::Best,
    );
    assert_eq!(r, Err(ExtractionError::NoSourcesFound));
}

#[test]
fn one_failed_provider_does_not_abort_the_resolve() {
    let p = payload(&[("https://one/e/1", "default"), ("https://two/e/2", "default")]);
    let page = direct_page(&[("https://cdn/only.mp4", "480")]);
    let r = resolve_from_outcomes(
        FetchOutcome::Text(p),
        vec![FetchOutcome::TransportFailed, FetchOutcome::Text(page)],
        QualityRequest::Best,
    );
    assert_eq!(r, Ok("https://cdn/only.mp4".to_string()));
}

#[test]
fn failed_provider_before_a_placeholder_is_swallowed() {
    let p = payload(&[("https://one/e/1", "default"), ("https://dood/e/2", "doodstream")]);
    let r = resolve_from_outcomes(
        FetchOutcome::Text(p),
        vec![FetchOutcome::TransportFailed],
        QualityRequest::Best,
    );
    assert_eq!(r, Ok("https://dood/e/2".to_string()));
}

#[test]
fn failed_provider_before_a_generic_one_is_swallowed() {
    let p = payload(&[("https://one/e/1", "weird"), ("https://two/e/2", "other")]);
    let page = "\"url\":\"https://g/u.mp4\"".to_string();
    let r = resolve_from_outcomes(
        FetchOutcome::Text(p),
        vec![FetchOutcome::TransportFailed, FetchOutcome::Text(page)],
        QualityRequest::Best,
    );
    assert_eq!(r, Ok("https://g/u.mp4".to_string()));
}

#[test]
fn best_request_picks_the_highest_candidate() {
    let p = payload(&[("https://one/e/1", "default")]);
    let page = direct_page(&[("https://cdn/a.mp4", "144"), ("https://cdn/b.mp4", "1080")]);
    let r = resolve_from_outcomes(
        FetchOutcome::Text(p),
        vec![FetchOutcome::Text(page)],
        QualityRequest::Best,
    );
    assert_eq!(r, Ok("https://cdn/b.mp4".to_string()));
}

#[test]
fn absent_exact_label_falls_back_to_best() {
    let p = payload(&[("https://one/e/1", "default")]);
    let page = direct_page(&[("https://cdn/a.mp4", "144"), ("https://cdn/b.mp4", "1080")]);
    let r = resolve_from_outcomes(
        FetchOutcome::Text(p),
        vec![FetchOutcome::Text(page)],
        QualityRequest::Exact("360".to_string()),
    );
    assert_eq!(r, Ok("https://cdn/b.mp4".to_string()));
}

#[test]
fn placeholder_links_resolve_without_any_fetch() {
    let p = payload(&[("https://dood/e/9", "doodstream")]);
    let r = resolve_from_outcomes(FetchOutcome::Text(p), vec![], QualityRequest::Best);
    assert_eq!(r, Ok("https://dood/e/9".to_string()));
}

#[test]
fn direct_page_with_manifest_reference_expands_it() {
    let p = payload(&[("https://one/e/1", "default")]);
    let mut pipeline = Pipeline::new(QualityRequest::Best);
    let act = pipeline.on_metadata(FetchOutcome::Text(p));
    let page_url = match act {
        Action::FetchEmbedPage { url } => url,
        _ => panic!("expected a page fetch"),
    };
    assert_eq!(page_url, "https://one/e/1");
    let page = "{\"hls\":\"https:\\/\\/cdn\\/path\\/master.m3u8\"}".to_string();
    let act = pipeline.on_page(FetchOutcome::Text(page));
    let manifest_url = match act {
        Action::FetchManifest { url } => url,
        _ => panic!("expected a manifest fetch"),
    };
    assert_eq!(manifest_url, "https://cdn/path/master.m3u8");
    let manifest = "#EXT-X-STREAM-INF:RESOLUTION=640x360\nlow.m3u8\n#EXT-X-STREAM-INF:RESOLUTION=1280x720\nhigh.m3u8\n".to_string();
    let act = pipeline.on_manifest(FetchOutcome::Text(manifest));
    match act {
        Action::Done(r) => assert_eq!(r, Ok("https://cdn/path/high.m3u8".to_string())),
        _ => panic!("expected the final result"),
    }
}

#[test]
fn generic_match_that_is_a_manifest_is_expanded() {
    let p = payload(&[("https://odd/e/1", "somewhere")]);
    let page = "<source src=\"https://odd/hls/master.m3u8\">".to_string();
    let manifest = "#EXT-X-STREAM-INF:RESOLUTION=640x480\nv.m3u8\n".to_string();
    let r = resolve_from_outcomes(
        FetchOutcome::Text(p),
        vec![FetchOutcome::Text(page), FetchOutcome::Text(manifest)],
        QualityRequest::Best,
    );
    assert_eq!(r, Ok("https://odd/hls/v.m3u8".to_string()));
}

#[test]
fn worst_request_picks_the_lowest_candidate() {
    let p = payload(&[("https://one/e/1", "default")]);
    let page = direct_page(&[("https://cdn/a.mp4", "1080"), ("https://cdn/b.mp4", "144")]);
    let r = resolve_from_outcomes(
        FetchOutcome::Text(p),
        vec![FetchOutcome::Text(page)],
        QualityRequest::Worst,
    );
    assert_eq!(r, Ok("https://cdn/b.mp4".to_string()));
}

#[test]
fn generic_strategy_with_no_match_is_a_parse_failure() {
    let link = EmbedLink {
        provider_tag: "somewhere".to_string(),
        raw_url: "https://odd/e/1".to_string(),
    };
    match provider_strategy(&link, "<html>opaque wall of text</html>") {
        Err(ExtractionError::ParseError) => {}
        _ => panic!("an unmatched page must be a parse failure"),
    }
}

#[test]
fn placeholder_strategy_needs_no_page_content() {
    let link = EmbedLink {
        provider_tag: "mp4upload".to_string(),
        raw_url: "https://mp4/e/7".to_string(),
    };
    let (cands, manifest) = provider_strategy(&link, "").unwrap();
    assert!(manifest.is_none());
    assert_eq!(cands.len(), 1);
    assert_eq!(cands[0].url, "https://mp4/e/7");
    assert_eq!(cands[0].quality_label, "unknown");
}

#[test]
fn failed_manifest_fetch_is_swallowed() {
    let p = payload(&[("https://one/e/1", "default"), ("https://dood/e/2", "doodstream")]);
    let page = "{\"hls\":\"https:\\/\\/cdn\\/m.m3u8\"}".to_string();
    let r = resolve_from_outcomes(
        FetchOutcome::Text(p),
        vec![FetchOutcome::Text(page), FetchOutcome::TransportFailed],
        QualityRequest::Best,
    );
    // the manifest never arrived, but the placeholder link still yields
    assert_eq!(r, Ok("https://dood/e/2".to_string()));
}
