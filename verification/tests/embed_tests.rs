use anirust::embed::parse_embed_links;

#[test]
fn interleaved_pairs_are_discovered_in_order() {
    let mut payload = String::new();
    payload.push_str("{\"data\":[{\"sourceUrl\":\"https:\\/\\/host.one\\/e\\/1\",\"x\":0,");
    payload.push_str("\"sourceName\":\"default\"},{\"sourceUrl\":\"https:\\/\\/host.two\\/e\\/2\",");
    payload.push_str("\"sourceName\":\"streamsb\"}]}");
    let payload = payload.as_str();
    let links = parse_embed_links(payload);
    assert_eq!(links.len(), 2);
    assert_eq!(links[0].provider_tag, "default");
    assert_eq!(links[0].raw_url, "https://host.one/e/1");
    assert_eq!(links[1].provider_tag, "streamsb");
    assert_eq!(links[1].raw_url, "https://host.two/e/2");
}

#[test]
fn zero_pairs_yield_an_empty_list() {
    assert_eq!(parse_embed_links("{\"data\":[]}").len(), 0);
    assert_eq!(parse_embed_links("").len(), 0);
    assert_eq!(parse_embed_links("not even close to the shape").len(), 0);
}

#[test]
fn url_without_a_following_name_is_dropped() {
    let payload = "\"sourceUrl\":\"https:\\/\\/only.url\\/x\"";
    assert_eq!(parse_embed_links(payload).len(), 0);
}

#[test]
fn escaped_separators_are_decoded_before_handing_downstream() {
    let payload = "\"sourceUrl\":\"a\\/b\\/c\",\"sourceName\":\"p\"";
    let links = parse_embed_links(payload);
    assert_eq!(links.len(), 1);
    assert_eq!(links[0].raw_url, "a/b/c");
    assert!(!links[0].raw_url.contains("\\/"));
}
