//! URL forming and resolution.
//!
//! Manifest-relative URIs are resolved against the manifest's own URL, with
//! its final path segment removed; episode page URLs are formed from an
//! anime URL and an episode number.

use crate::text::{
    ends_with, find_char_from, has_at, lemma_spec_find_char, lemma_spec_rfind_char, push_substring,
    rfind_char, spec_find_char, spec_rfind_char, starts_with,
};
use vstd::prelude::*;

verus! {

/// The URL carries its own scheme and host.
pub open spec fn is_absolute_url(u: Seq<char>) -> bool {
    has_at(u, "http://"@, 0) || has_at(u, "https://"@, 0)
}

/// Whether a URI is already absolute.
pub fn url_is_absolute(u: &str) -> (b: bool)
    ensures
        b == is_absolute_url(u@),
{
    starts_with(u, "http://") || starts_with(u, "https://")
}

/// The URL's directory: everything through its last `/`.  A URL without
/// any `/` is treated as a directory of its own.
pub open spec fn dir_of(u: Seq<char>) -> Seq<char> {
    match spec_rfind_char(u, '/') {
        Some(i) => u.take(i + 1),
        None => u + seq!['/'],
    }
}

/// A manifest-relative URI resolved against the manifest's own URL: an
/// absolute URI stands as it is, any other is appended to the manifest's
/// directory.
pub open spec fn resolved_url(base: Seq<char>, uri: Seq<char>) -> Seq<char> {
    if is_absolute_url(uri) {
        uri
    } else {
        dir_of(base) + uri
    }
}

/// Resolves a URI found in a manifest against the manifest's own URL.
pub fn resolve_uri(base: &str, uri: &str) -> (r: String)
    ensures
        r@ == resolved_url(base@, uri@),
{
    if url_is_absolute(uri) {
        return uri.to_owned();
    }
    let mut out = String::new();
    let _n = base.unicode_len();
    match rfind_char(base, '/') {
        Some(i) => {
            proof {
                assert(i < _n);
                assert(out@ =~= Seq::<char>::empty());
            }
            push_substring(&mut out, base, 0, i + 1);
            proof {
                assert(base@.subrange(0, i + 1) =~= base@.take(i + 1));
                assert(out@ =~= dir_of(base@));
            }
        },
        None => {
            out.append(base);
            out.append("/");
            proof {
                reveal_strlit("/");
                assert("/"@ =~= seq!['/']);
                assert(out@ =~= dir_of(base@));
            }
        },
    }
    out.append(uri);
    out
}

/// Resolving a manifest-relative URI that names a plain file (no `/` of its
/// own) against a manifest URL yields a URL whose directory matches the
/// manifest's directory.
pub proof fn lemma_resolved_keeps_directory(base: Seq<char>, uri: Seq<char>)
    requires
        !is_absolute_url(uri),
        spec_rfind_char(uri, '/') is None,
    ensures
        resolved_url(base, uri) == dir_of(base) + uri,
        dir_of(resolved_url(base, uri)) == dir_of(base),
{
    let d = dir_of(base);
    let r = d + uri;
    lemma_spec_rfind_char(base, '/');
    lemma_spec_rfind_char(uri, '/');
    // the directory ends with its separator
    assert(d.len() >= 1 && d.last() == '/') by {
        match spec_rfind_char(base, '/') {
            Some(i) => {
                assert(d =~= base.take(i + 1));
                assert(d.last() == base[i]);
            },
            None => {
                assert(d.last() == '/');
            },
        }
    }
    // the separator closing the directory is the last one of the result
    lemma_spec_rfind_char(r, '/');
    assert(r[d.len() - 1] == d.last());
    match spec_rfind_char(r, '/') {
        Some(k) => {
            if k < d.len() - 1 {
                assert(r[d.len() - 1] != '/');
            }
            if k > d.len() - 1 {
                assert(r[k] == uri[k - d.len()]);
            }
            assert(k == d.len() - 1);
            assert(dir_of(r) =~= d);
        },
        None => {
            assert(r[d.len() - 1] != '/');
        },
    }
}

/// The file name a URL points at: the text after the last `/`, cut before
/// the first `?`.
pub open spec fn filename_of(u: Seq<char>) -> Seq<char> {
    let start = match spec_rfind_char(u, '/') {
        Some(i) => i + 1,
        None => 0,
    };
    let stop = match spec_find_char(u, '?', start) {
        Some(j) => j,
        None => u.len() as int,
    };
    u.subrange(start, stop)
}

/// The file name a URL points at.
pub fn get_filename_from_url(url: &str) -> (r: String)
    ensures
        r@ == filename_of(url@),
{
    let n = url.unicode_len();
    let start: usize = match rfind_char(url, '/') {
        Some(i) => i + 1,
        None => 0,
    };
    let stop: usize = match find_char_from(url, '?', start) {
        Some(j) => j,
        None => n,
    };
    proof {
        lemma_spec_rfind_char(url@, '/');
        lemma_spec_find_char(url@, '?', start as int);
    }
    let mut out = String::new();
    push_substring(&mut out, url, start, stop);
    proof {
        assert(out@ =~= filename_of(url@));
    }
    out
}

/// An anime page URL stripped of every trailing `.html` suffix.
pub open spec fn strip_html_suffix(u: Seq<char>) -> Seq<char>
    decreases u.len(),
{
    let p = (".html")@;
    if u.len() >= p.len() && p.len() > 0 && u.subrange(u.len() - p.len(), u.len() as int) == p {
        strip_html_suffix(u.take(u.len() - p.len()))
    } else {
        u
    }
}

/// Strips every trailing `.html` from an anime page URL.
pub fn strip_html(u: &str) -> (r: String)
    ensures
        r@ == strip_html_suffix(u@),
    decreases u@.len(),
{
    let n = u.unicode_len();
    let m = ".html".unicode_len();
    if n >= m && m > 0 && ends_with(u, ".html") {
        let head = u.substring_char(0, n - m);
        proof {
            assert(head@ =~= u@.take(u@.len() - (".html")@.len()));
        }
        strip_html(head)
    } else {
        u.to_owned()
    }
}

/// The page URL of one episode: the anime URL without its `.html` suffix,
/// then `/episode-` and the episode number.
pub open spec fn episode_page_url_spec(anime_url: Seq<char>, number: Seq<char>) -> Seq<char> {
    strip_html_suffix(anime_url) + ("/episode-")@ + number
}

/// Forms the page URL of one episode of an anime.
pub fn episode_page_url(anime_url: &str, episode: u64) -> (r: String)
    ensures
        r@ == episode_page_url_spec(anime_url@, crate::util::dec_of(episode as nat)),
{
    let mut out = strip_html(anime_url);
    out.append("/episode-");
    let num = crate::util::u64_to_string(episode);
    out.append(num.as_str());
    out
}

/// The watch URL of an episode: an episode identifier carrying a `/` of its
/// own stands right under the site, any other under its `/watch/` path.
pub open spec fn episode_watch_url_spec(site: Seq<char>, episode_id: Seq<char>) -> Seq<char> {
    if spec_find_char(episode_id, '/', 0) is Some {
        site + ("/")@ + episode_id
    } else {
        site + ("/watch/")@ + episode_id
    }
}

/// Forms the watch URL of an episode under a site URL.
pub fn episode_watch_url(site: &str, episode_id: &str) -> (r: String)
    ensures
        r@ == episode_watch_url_spec(site@, episode_id@),
{
    let mut out = site.to_owned();
    match find_char_from(episode_id, '/', 0) {
        Some(_) => {
            out.append("/");
        },
        None => {
            out.append("/watch/");
        },
    }
    out.append(episode_id);
    out
}

/// Picks the streaming URL out of the media URLs a watch page lists: the
/// first one, or nothing exactly where the page lists none.
pub fn first_media_url(urls: Vec<String>) -> (r: Option<String>)
    ensures
        match r {
            Some(u) => urls@.len() > 0 && u@ == urls@[0]@,
            None => urls@.len() == 0,
        },
{
    let mut urls = urls;
    if urls.len() > 0 {
        Some(urls.remove(0))
    } else {
        None
    }
}

/// A scheme-relative URL (starting with `//`) completed with `https:`; any
/// other URL stands as it is.
pub open spec fn with_scheme(u: Seq<char>) -> Seq<char> {
    if has_at(u, ("//")@, 0) {
        ("https:")@ + u
    } else {
        u
    }
}

/// Completes a scheme-relative player URL with `https:`.
pub fn normalize_scheme_relative(u: &str) -> (r: String)
    ensures
        r@ == with_scheme(u@),
{
    if starts_with(u, "//") {
        let mut out = String::new();
        out.append("https:");
        out.append(u);
        proof {
            assert(out@ =~= ("https:")@ + u@);
        }
        out
    } else {
        u.to_owned()
    }
}

} // verus!
