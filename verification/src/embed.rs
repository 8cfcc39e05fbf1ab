//! Embed-link discovery.
//!
//! A metadata payload carries interleaved `(sourceUrl, sourceName)` pairs in
//! no schema-stable location, so discovery scans the raw payload text for
//! the repeated pairs rather than assume a rigid object graph.  Each
//! `sourceUrl` is paired with the nearest following `sourceName`; a trailing
//! unpaired value is dropped.  Every extracted raw URL has its escaped path
//! separators decoded before it is handed downstream.  A payload with zero
//! pairs yields an empty list, which is not an error by itself.

use crate::text::{
    decode_escaped_separators, decode_seps, find_char_from, find_from, lemma_spec_find,
    lemma_spec_find_char, push_substring, spec_find, spec_find_char,
};
use vstd::prelude::*;

verus! {

/// Mathematical shape of an embed link.
pub struct LinkView {
    pub provider_tag: Seq<char>,
    pub raw_url: Seq<char>,
}

/// A provider-specific redirect: not itself a playable media file, but a
/// page or script hosting one.  Consumed once by provider extraction.
pub struct EmbedLink {
    /// The provider's tag, as the payload names it.
    pub provider_tag: String,
    /// The link's URL, with escaped path separators already decoded.
    pub raw_url: String,
}

impl View for EmbedLink {
    type V = LinkView;

    open spec fn view(&self) -> LinkView {
        LinkView { provider_tag: self.provider_tag@, raw_url: self.raw_url@ }
    }
}

impl EmbedLink {
    /// A field-for-field copy.
    pub fn duplicate(&self) -> (l: EmbedLink)
        ensures
            l@ == self@,
    {
        EmbedLink { provider_tag: self.provider_tag.clone(), raw_url: self.raw_url.clone() }
    }
}

/// The views of a sequence of embed links.
pub open spec fn link_views(s: Seq<EmbedLink>) -> Seq<LinkView> {
    s.map_values(|l: EmbedLink| l@)
}

/// The key announcing a source URL in a metadata payload.
pub open spec fn url_pat() -> Seq<char> {
    ("\"sourceUrl\":\"")@
}

/// The key announcing a source name in a metadata payload.
pub open spec fn name_pat() -> Seq<char> {
    ("\"sourceName\":\"")@
}

/// The embed links of a metadata payload from position `pos` on: one link
/// per `sourceUrl` value paired with the nearest following `sourceName`
/// value, in payload order, with the URL's escaped separators decoded.
pub open spec fn embed_links_from(s: Seq<char>, pos: int) -> Seq<LinkView>
    recommends
        0 <= pos <= s.len(),
    decreases s.len() - pos,
    when 0 <= pos <= s.len()
{
    match spec_find(s, url_pat(), pos) {
        Option::None => Seq::empty(),
        Option::Some(i) => {
            proof {
                lemma_spec_find(s, url_pat(), pos);
            }
            let v0 = i + url_pat().len();
            match spec_find_char(s, '"', v0) {
                Option::None => Seq::empty(),
                Option::Some(j) => {
                    proof {
                        lemma_spec_find_char(s, '"', v0);
                    }
                    let raw = s.subrange(v0, j);
                    match spec_find(s, name_pat(), j + 1) {
                        Option::None => Seq::empty(),
                        Option::Some(k) => {
                            proof {
                                lemma_spec_find(s, name_pat(), j + 1);
                            }
                            let w0 = k + name_pat().len();
                            match spec_find_char(s, '"', w0) {
                                Option::None => Seq::empty(),
                                Option::Some(m) => {
                                    proof {
                                        lemma_spec_find_char(s, '"', w0);
                                    }
                                    seq![
                                        LinkView {
                                            provider_tag: s.subrange(w0, m),
                                            raw_url: decode_seps(raw),
                                        },
                                    ] + embed_links_from(s, m + 1)
                                },
                            }
                        },
                    }
                },
            }
        },
    }
}

/// The embed links a whole metadata payload carries.
pub open spec fn embed_links_of(s: Seq<char>) -> Seq<LinkView> {
    embed_links_from(s, 0)
}

/// Scans the payload for pairs from position `pos` on.
fn links_from(s: &str, pos: usize) -> (r: Vec<EmbedLink>)
    requires
        pos <= s@.len(),
    ensures
        link_views(r@) == embed_links_from(s@, pos as int),
    decreases s@.len() - pos,
{
    let _n = s.unicode_len();
    match find_from(s, "\"sourceUrl\":\"", pos) {
        None => {
            let r = Vec::new();
            proof {
                assert(link_views(r@) =~= embed_links_from(s@, pos as int));
            }
            r
        },
        Some(i) => {
            let v0 = i + "\"sourceUrl\":\"".unicode_len();
            match find_char_from(s, '"', v0) {
                None => {
                    let r = Vec::new();
                    proof {
                        assert(link_views(r@) =~= embed_links_from(s@, pos as int));
                    }
                    r
                },
                Some(j) => {
                    let mut raw = String::new();
                    push_substring(&mut raw, s, v0, j);
                    let url = decode_escaped_separators(raw.as_str());
                    match find_from(s, "\"sourceName\":\"", j + 1) {
                        None => {
                            let r = Vec::new();
                            proof {
                                assert(link_views(r@) =~= embed_links_from(s@, pos as int));
                            }
                            r
                        },
                        Some(k) => {
                            let w0 = k + "\"sourceName\":\"".unicode_len();
                            match find_char_from(s, '"', w0) {
                                None => {
                                    let r = Vec::new();
                                    proof {
                                        assert(link_views(r@) =~= embed_links_from(
                                            s@,
                                            pos as int,
                                        ));
                                    }
                                    r
                                },
                                Some(m) => {
                                    let mut name = String::new();
                                    push_substring(&mut name, s, w0, m);
                                    let link = EmbedLink { provider_tag: name, raw_url: url };
                                    let ghost lv = link@;
                                    let mut rest = links_from(s, m + 1);
                                    let ghost rest_before = rest@;
                                    rest.insert(0, link);
                                    proof {
                                        assert(rest@[0]@ == lv);
                                        assert(link_views(rest@) =~= seq![lv] + link_views(
                                            rest_before,
                                        ));
                                        assert(link_views(rest@) =~= embed_links_from(
                                            s@,
                                            pos as int,
                                        ));
                                    }
                                    rest
                                },
                            }
                        },
                    }
                },
            }
        },
    }
}

/// Discovers the embed links a metadata payload carries, in payload order.
/// The list may be empty; whether that is fatal is the pipeline's decision,
/// not this function's.
pub fn parse_embed_links(payload: &str) -> (r: Vec<EmbedLink>)
    ensures
        link_views(r@) == embed_links_of(payload@),
{
    links_from(payload, 0)
}

} // verus!
