//! Per-provider extraction strategies.
//!
//! A provider turns one embed URL into zero or more media candidates.  The
//! known tags form a closed set: the direct-file host yields candidates (and
//! possibly an adaptive-manifest reference) out of its embed page; the
//! placeholder hosts, with no public direct-link interface, yield exactly
//! one best-effort candidate; every other tag falls to the generic strategy,
//! an ordered list of textual patterns tried against the fetched page.
//! Dispatch is total: no tag is ever un-handled.

use crate::embed::{EmbedLink, LinkView};
use crate::quality::{CandidateView, MediaCandidate, cand_views};
use crate::text::{
    contains_pat, contains_seq, decode_escaped_separators, decode_seps, find_char_from, find_from,
    find_nocase_from, has_at, lemma_spec_find, lemma_spec_find_char, match_at, push_substring,
    rfind_nocase_upto, spec_find, spec_find_char, spec_find_nocase, spec_rfind_nocase, str_eq,
};
use vstd::prelude::*;

verus! {

/// The closed set of extraction strategies, one per known provider tag plus
/// the generic fallback.
#[derive(Debug, PartialEq, Eq, Structural, Clone, Copy)]
pub enum Provider {
    /// The common direct-file redirect host.
    DirectFile,
    /// A named third-party redirect host with no public direct-link
    /// interface.
    Placeholder,
    /// Any tag outside the known set.
    Generic,
}

/// The tag of the direct-file host.
pub open spec fn direct_tag() -> Seq<char> {
    ("default")@
}

/// The strategy a provider tag stands for.
pub open spec fn provider_kind(tag: Seq<char>) -> Provider {
    if tag == direct_tag() {
        Provider::DirectFile
    } else if tag == ("streamsb")@ || tag == ("doodstream")@ || tag == ("mp4upload")@ {
        Provider::Placeholder
    } else {
        Provider::Generic
    }
}

/// Maps a provider tag to its strategy; total, with the generic strategy
/// for every tag outside the known set.
pub fn provider_of(tag: &str) -> (p: Provider)
    ensures
        p == provider_kind(tag@),
{
    if str_eq(tag, "default") {
        Provider::DirectFile
    } else if str_eq(tag, "streamsb") || str_eq(tag, "doodstream") || str_eq(tag, "mp4upload") {
        Provider::Placeholder
    } else {
        Provider::Generic
    }
}

/// The label of a candidate whose true quality nobody knows.  It parses as
/// 0, so it never wins a `best` selection over a real resolution.
pub open spec fn nominal_label() -> Seq<char> {
    ("unknown")@
}

/// The single best-effort candidate of a placeholder provider: the embed
/// URL itself, under the nominal quality label.
pub open spec fn placeholder_cand(l: LinkView) -> CandidateView {
    CandidateView {
        quality_label: nominal_label(),
        url: l.raw_url,
        origin_provider: l.provider_tag,
    }
}

/// Turns a placeholder provider's embed link into its single candidate.
pub fn placeholder_candidate(link: &EmbedLink) -> (c: MediaCandidate)
    ensures
        c@ == placeholder_cand(link@),
{
    MediaCandidate {
        quality_label: String::from_str("unknown"),
        url: link.raw_url.clone(),
        origin_provider: link.provider_tag.clone(),
    }
}

/// A URL that names an adaptive manifest rather than a single file.
pub open spec fn is_manifest_url(u: Seq<char>) -> bool {
    contains_seq(u, (".m3u8")@)
}

/// Whether a URL names an adaptive manifest.
pub fn url_is_manifest(u: &str) -> (b: bool)
    ensures
        b == is_manifest_url(u@),
{
    contains_pat(u, ".m3u8")
}

/// The key announcing a direct file URL on an embed page.
pub open spec fn file_pat() -> Seq<char> {
    ("\"file\":\"")@
}

/// The text standing between a file URL and its resolution label.
pub open spec fn label_pat() -> Seq<char> {
    ("\",\"label\":\"")@
}

/// The candidates of a direct-file embed page from position `pos` on: one
/// per `"file":"U","label":"Q"` occurrence, in page order, with the URL's
/// escaped separators decoded.  A file value with no adjacent label is
/// skipped.
pub open spec fn direct_cands(s: Seq<char>, tag: Seq<char>, pos: int) -> Seq<CandidateView>
    recommends
        0 <= pos <= s.len(),
    decreases s.len() - pos,
    when 0 <= pos <= s.len()
{
    match spec_find(s, file_pat(), pos) {
        Option::None => Seq::empty(),
        Option::Some(i) => {
            proof {
                lemma_spec_find(s, file_pat(), pos);
            }
            let v0 = i + file_pat().len();
            match spec_find_char(s, '"', v0) {
                Option::None => Seq::empty(),
                Option::Some(j) => {
                    proof {
                        lemma_spec_find_char(s, '"', v0);
                    }
                    if has_at(s, label_pat(), j) {
                        let q0 = j + label_pat().len();
                        match spec_find_char(s, '"', q0) {
                            Option::None => Seq::empty(),
                            Option::Some(m) => {
                                proof {
                                    lemma_spec_find_char(s, '"', q0);
                                }
                                seq![
                                    CandidateView {
                                        quality_label: s.subrange(q0, m),
                                        url: decode_seps(s.subrange(v0, j)),
                                        origin_provider: tag,
                                    },
                                ] + direct_cands(s, tag, m + 1)
                            },
                        }
                    } else {
                        direct_cands(s, tag, j + 1)
                    }
                },
            }
        },
    }
}

/// Scans a direct-file embed page for candidates from position `pos` on.
fn direct_from(s: &str, tag: &str, pos: usize) -> (r: Vec<MediaCandidate>)
    requires
        pos <= s@.len(),
    ensures
        cand_views(r@) == direct_cands(s@, tag@, pos as int),
    decreases s@.len() - pos,
{
    let n = s.unicode_len();
    match find_from(s, "\"file\":\"", pos) {
        None => {
            let r = Vec::new();
            proof {
                assert(cand_views(r@) =~= direct_cands(s@, tag@, pos as int));
            }
            r
        },
        Some(i) => {
            let v0 = i + "\"file\":\"".unicode_len();
            match find_char_from(s, '"', v0) {
                None => {
                    let r = Vec::new();
                    proof {
                        assert(cand_views(r@) =~= direct_cands(s@, tag@, pos as int));
                    }
                    r
                },
                Some(j) => {
                    let lp = "\",\"label\":\"";
                    let lplen = lp.unicode_len();
                    if lplen <= n - j && match_at(s, lp, j) {
                        let q0 = j + lplen;
                        match find_char_from(s, '"', q0) {
                            None => {
                                let r = Vec::new();
                                proof {
                                    assert(cand_views(r@) =~= direct_cands(s@, tag@, pos as int));
                                }
                                r
                            },
                            Some(m) => {
                                let mut raw = String::new();
                                push_substring(&mut raw, s, v0, j);
                                let url = decode_escaped_separators(raw.as_str());
                                let mut label = String::new();
                                push_substring(&mut label, s, q0, m);
                                let cand = MediaCandidate {
                                    quality_label: label,
                                    url,
                                    origin_provider: tag.to_owned(),
                                };
                                let ghost cv = cand@;
                                let mut rest = direct_from(s, tag, m + 1);
                                let ghost rest_before = rest@;
                                rest.insert(0, cand);
                                proof {
                                    assert(cand_views(rest@) =~= seq![cv] + cand_views(
                                        rest_before,
                                    ));
                                    assert(cand_views(rest@) =~= direct_cands(
                                        s@,
                                        tag@,
                                        pos as int,
                                    ));
                                }
                                rest
                            },
                        }
                    } else {
                        proof {
                            if has_at(s@, label_pat(), j as int) {
                                assert(j + label_pat().len() <= s@.len());
                            }
                        }
                        direct_from(s, tag, j + 1)
                    }
                },
            }
        },
    }
}

/// Scans a direct-file embed page for its repeated `(url, resolution)`
/// pattern, building one numeric-quality candidate per occurrence.
pub fn extract_direct_candidates(page: &str, tag: &str) -> (r: Vec<MediaCandidate>)
    ensures
        cand_views(r@) == direct_cands(page@, tag@, 0),
{
    direct_from(page, tag, 0)
}

/// The key announcing an adaptive-manifest reference on a direct-file embed
/// page.
pub open spec fn hls_pat() -> Seq<char> {
    ("\"hls\":\"")@
}

/// The first value the page carries under `pat`, up to the closing quote
/// and with escaped separators decoded; nothing where the key is absent or
/// its value never closes.
pub open spec fn first_quoted(s: Seq<char>, pat: Seq<char>) -> Option<Seq<char>> {
    match spec_find(s, pat, 0) {
        Option::None => Option::None,
        Option::Some(i) => {
            match spec_find_char(s, '"', i + pat.len()) {
                Option::None => Option::None,
                Option::Some(j) => Option::Some(decode_seps(s.subrange(i + pat.len(), j))),
            }
        },
    }
}

/// Reads the first quoted value the page carries under `pat`.
fn extract_quoted(s: &str, pat: &str) -> (r: Option<String>)
    ensures
        match r {
            Some(u) => first_quoted(s@, pat@) == Option::Some(u@),
            None => first_quoted(s@, pat@) is None,
        },
{
    let _n = s.unicode_len();
    match find_from(s, pat, 0) {
        None => None,
        Some(i) => {
            let v0 = i + pat.unicode_len();
            match find_char_from(s, '"', v0) {
                None => None,
                Some(j) => {
                    proof {
                        lemma_spec_find(s@, pat@, 0);
                        lemma_spec_find_char(s@, '"', v0 as int);
                    }
                    let mut raw = String::new();
                    push_substring(&mut raw, s, v0, j);
                    Some(decode_escaped_separators(raw.as_str()))
                },
            }
        },
    }
}

/// The single adaptive-manifest reference of a direct-file embed page, if
/// the page carries one.
pub open spec fn manifest_ref(s: Seq<char>) -> Option<Seq<char>> {
    first_quoted(s, hls_pat())
}

/// Scans a direct-file embed page for its single adaptive-manifest
/// reference.
pub fn extract_manifest_ref(page: &str) -> (r: Option<String>)
    ensures
        match r {
            Some(u) => manifest_ref(page@) == Option::Some(u@),
            None => manifest_ref(page@) is None,
        },
{
    extract_quoted(page, "\"hls\":\"")
}

/// A character that ends a raw media URL: a quote, a tag close, or a
/// space.
pub open spec fn is_url_delim(c: char) -> bool {
    c == '"' || c == '>' || c == ' '
}

/// End of a raw URL starting at `i`: the first delimiter at or after `i`,
/// or the end of the page.
pub open spec fn url_end(s: Seq<char>, i: int) -> int
    recommends
        0 <= i <= s.len(),
    decreases s.len() - i,
    when 0 <= i <= s.len()
{
    if i >= s.len() {
        s.len() as int
    } else if is_url_delim(s[i]) {
        i
    } else {
        url_end(s, i + 1)
    }
}

/// End of a raw URL starting at `i`.
fn scan_url_end(s: &str, i: usize) -> (r: usize)
    requires
        i <= s@.len(),
    ensures
        r as int == url_end(s@, i as int),
        i <= r <= s@.len(),
{
    let n = s.unicode_len();
    let mut j: usize = i;
    while j < n
        invariant
            i <= j <= n,
            n == s@.len(),
            url_end(s@, i as int) == url_end(s@, j as int),
        decreases n - j,
    {
        let c = s.get_char(j);
        if c == '"' || c == '>' || c == ' ' {
            return j;
        }
        j = j + 1;
    }
    n
}

/// The raw media URL around the first occurrence of `ext` on the page,
/// matched up to ASCII case: from the nearest `http` before it to the
/// first delimiter after it; nothing where the extension or a preceding
/// `http` is absent.
pub open spec fn raw_url_for(s: Seq<char>, ext: Seq<char>) -> Option<Seq<char>> {
    match spec_find_nocase(s, ext, 0) {
        Option::None => Option::None,
        Option::Some(p) => match spec_rfind_nocase(s, ("http")@, p) {
            Option::None => Option::None,
            Option::Some(h) => Option::Some(s.subrange(h, url_end(s, p + ext.len()))),
        },
    }
}

/// The raw media URL of a page: around the first `.mp4`, or else around
/// the first `.m3u8`.
pub open spec fn raw_media_url(s: Seq<char>) -> Option<Seq<char>> {
    match raw_url_for(s, (".mp4")@) {
        Option::Some(u) => Option::Some(u),
        Option::None => raw_url_for(s, (".m3u8")@),
    }
}

/// Scans the page for a raw URL around its first occurrence of `ext`.
fn extract_raw_for(page: &str, ext: &str) -> (r: Option<String>)
    requires
        ext@.len() > 0,
    ensures
        match r {
            Some(u) => raw_url_for(page@, ext@) == Option::Some(u@),
            None => raw_url_for(page@, ext@) is None,
        },
{
    let _n = page.unicode_len();
    match find_nocase_from(page, ext, 0) {
        None => None,
        Some(p) => match rfind_nocase_upto(page, "http", p) {
            None => None,
            Some(h) => {
                let e = scan_url_end(page, p + ext.unicode_len());
                let mut out = String::new();
                push_substring(&mut out, page, h, e);
                proof {
                    assert(out@ =~= page@.subrange(h as int, e as int));
                }
                Some(out)
            },
        },
    }
}

/// Scans a page for a raw media URL: the nearest `http` before its first
/// `.mp4` — or, failing that, its first `.m3u8` — up to the first quote,
/// tag close or space, matching the markers up to ASCII case.
pub fn extract_raw_media_url(page: &str) -> (r: Option<String>)
    ensures
        match r {
            Some(u) => raw_media_url(page@) == Option::Some(u@),
            None => raw_media_url(page@) is None,
        },
{
    proof {
        reveal_strlit(".mp4");
        reveal_strlit(".m3u8");
    }
    match extract_raw_for(page, ".mp4") {
        Some(u) => Some(u),
        None => extract_raw_for(page, ".m3u8"),
    }
}

/// The URL the generic strategy finds on a page: the ordered patterns — a
/// `source` tag, a `file:` key, a `src:` key, a `url:` key, then a raw
/// scan for an `.mp4` or `.m3u8` URL — tried in turn, stopping at the
/// first that matches.  The quoted patterns have their escaped separators
/// decoded; the raw scan hands the page text back as it stands.
pub open spec fn generic_url(s: Seq<char>) -> Option<Seq<char>> {
    match first_quoted(s, ("<source src=\"")@) {
        Option::Some(u) => Option::Some(u),
        Option::None => match first_quoted(s, ("\"file\":\"")@) {
            Option::Some(u) => Option::Some(u),
            Option::None => match first_quoted(s, ("\"src\":\"")@) {
                Option::Some(u) => Option::Some(u),
                Option::None => match first_quoted(s, ("\"url\":\"")@) {
                    Option::Some(u) => Option::Some(u),
                    Option::None => raw_media_url(s),
                },
            },
        },
    }
}

/// Tries the generic strategy's ordered textual patterns against a fetched
/// page.  `None` means no pattern matched: the strategy-level parse
/// failure, which the pipeline swallows.
pub fn extract_generic_url(page: &str) -> (r: Option<String>)
    ensures
        match r {
            Some(u) => generic_url(page@) == Option::Some(u@),
            None => generic_url(page@) is None,
        },
{
    match extract_quoted(page, "<source src=\"") {
        Some(u) => Some(u),
        None => match extract_quoted(page, "\"file\":\"") {
            Some(u) => Some(u),
            None => match extract_quoted(page, "\"src\":\"") {
                Some(u) => Some(u),
                None => match extract_quoted(page, "\"url\":\"") {
                    Some(u) => Some(u),
                    None => extract_raw_media_url(page),
                },
            },
        },
    }
}

/// The single candidate of a generic match that is not itself a manifest:
/// the matched URL under the nominal quality label.
pub open spec fn generic_cand(url: Seq<char>, tag: Seq<char>) -> CandidateView {
    CandidateView { quality_label: nominal_label(), url: url, origin_provider: tag }
}

/// Wraps a generic match into its single candidate.
pub fn generic_candidate(url: String, tag: &str) -> (c: MediaCandidate)
    ensures
        c@ == generic_cand(url@, tag@),
{
    MediaCandidate {
        quality_label: String::from_str("unknown"),
        url,
        origin_provider: tag.to_owned(),
    }
}

} // verus!
