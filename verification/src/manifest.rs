//! Adaptive-manifest expansion.
//!
//! An adaptive manifest is a text playlist: a stream declaration line starts
//! with `#` and carries a `RESOLUTION=WxH` attribute, and the following
//! non-blank line carries the variant's URI.  Expansion walks the manifest
//! line by line and yields one candidate per valid variant, in manifest
//! order, with every relative URI resolved against the manifest's own URL.
//! A declaration with a missing or malformed resolution attribute is
//! skipped, never fatal; a manifest with no valid variant yields an empty
//! list.

use crate::quality::{cand_views, is_ascii_digit, CandidateView, MediaCandidate};
use crate::text::{find_from, push_substring, spec_find};
use crate::urls::{resolve_uri, resolved_url};
use vstd::prelude::*;

verus! {

/// A line-breaking character.
pub open spec fn is_newline(c: char) -> bool {
    c == '\n' || c == '\r'
}

/// A character that may fill a blank line.
pub open spec fn is_blank_char(c: char) -> bool {
    c == ' ' || c == '\t'
}

/// The characters of `s` from `i` to `e` are all blanks.
pub open spec fn is_blank_range(s: Seq<char>, i: int, e: int) -> bool {
    forall|k: int| i <= k < e ==> is_blank_char(s[k])
}

/// End of the line starting at `i`: the first line break at or after `i`,
/// or the end of the text.
pub open spec fn line_end(s: Seq<char>, i: int) -> int
    recommends
        0 <= i <= s.len(),
    decreases s.len() - i,
    when 0 <= i <= s.len()
{
    if i >= s.len() {
        s.len() as int
    } else if is_newline(s[i]) {
        i
    } else {
        line_end(s, i + 1)
    }
}

/// A line ends at or after its start, within the text.
pub proof fn lemma_line_end_bounds(s: Seq<char>, i: int)
    requires
        0 <= i <= s.len(),
    ensures
        i <= line_end(s, i) <= s.len(),
    decreases s.len() - i,
{
    if i >= s.len() {
    } else if is_newline(s[i]) {
    } else {
        lemma_line_end_bounds(s, i + 1);
    }
}

/// End of the line starting at `i`.
pub fn find_line_end(s: &str, i: usize) -> (r: usize)
    requires
        i <= s@.len(),
    ensures
        r as int == line_end(s@, i as int),
        i <= r <= s@.len(),
{
    let n = s.unicode_len();
    let mut j: usize = i;
    while j < n
        invariant
            i <= j <= n,
            n == s@.len(),
            line_end(s@, i as int) == line_end(s@, j as int),
        decreases n - j,
    {
        let c = s.get_char(j);
        if c == '\n' || c == '\r' {
            return j;
        }
        j = j + 1;
    }
    n
}

/// Start of the first non-blank line at or after `i`, or the end of the
/// text.
pub open spec fn next_content(s: Seq<char>, i: int) -> int
    recommends
        0 <= i <= s.len(),
    decreases s.len() - i,
    when 0 <= i <= s.len()
{
    if i >= s.len() {
        s.len() as int
    } else {
        let e = line_end(s, i);
        proof {
            lemma_line_end_bounds(s, i);
        }
        if !is_blank_range(s, i, e) {
            i
        } else if e >= s.len() {
            s.len() as int
        } else {
            next_content(s, e + 1)
        }
    }
}

/// The first non-blank line starts at or after `i`, within the text.
pub proof fn lemma_next_content_bounds(s: Seq<char>, i: int)
    requires
        0 <= i <= s.len(),
    ensures
        i <= next_content(s, i) <= s.len(),
    decreases s.len() - i,
{
    if i >= s.len() {
    } else {
        lemma_line_end_bounds(s, i);
        let e = line_end(s, i);
        if !is_blank_range(s, i, e) {
        } else if e >= s.len() {
        } else {
            lemma_next_content_bounds(s, e + 1);
        }
    }
}

/// The characters from `i` to `e` are all blanks.
fn blank_range(s: &str, i: usize, e: usize) -> (b: bool)
    requires
        i <= e <= s@.len(),
    ensures
        b == is_blank_range(s@, i as int, e as int),
{
    let mut k: usize = i;
    while k < e
        invariant
            i <= k <= e <= s@.len(),
            forall|j: int| i <= j < k ==> is_blank_char(s@[j]),
        decreases e - k,
    {
        let c = s.get_char(k);
        if c != ' ' && c != '\t' {
            return false;
        }
        k = k + 1;
    }
    true
}

/// Start of the first non-blank line at or after `i`.
pub fn find_next_content(s: &str, i: usize) -> (r: usize)
    requires
        i <= s@.len(),
    ensures
        r as int == next_content(s@, i as int),
        i <= r <= s@.len(),
{
    let n = s.unicode_len();
    let mut j: usize = i;
    while j < n
        invariant
            i <= j <= n,
            n == s@.len(),
            next_content(s@, i as int) == next_content(s@, j as int),
        decreases n - j,
    {
        let e = find_line_end(s, j);
        if !blank_range(s, j, e) {
            return j;
        }
        if e >= n {
            return n;
        }
        j = e + 1;
    }
    n
}

/// End of the run of digits starting at `i`, stopping at `e`.
pub open spec fn digits_end(s: Seq<char>, i: int, e: int) -> int
    recommends
        0 <= i <= e <= s.len(),
    decreases e - i,
    when i <= e
{
    if i >= e {
        e
    } else if !is_ascii_digit(s[i]) {
        i
    } else {
        digits_end(s, i + 1, e)
    }
}

/// End of the run of digits starting at `i`, stopping at `e`.
fn scan_digits_end(s: &str, i: usize, e: usize) -> (r: usize)
    requires
        i <= e <= s@.len(),
    ensures
        r as int == digits_end(s@, i as int, e as int),
        i <= r <= e,
{
    let mut k: usize = i;
    while k < e
        invariant
            i <= k <= e <= s@.len(),
            digits_end(s@, i as int, e as int) == digits_end(s@, k as int, e as int),
        decreases e - k,
    {
        let c = s.get_char(k);
        let cv = c as u32;
        if cv < 48 || cv > 57 {
            return k;
        }
        k = k + 1;
    }
    e
}

/// The resolution attribute a stream declaration carries.
pub open spec fn res_pat() -> Seq<char> {
    ("RESOLUTION=")@
}

/// The vertical-resolution label of the declaration line from `pos` to `e`:
/// the digit run after the `x` of its `RESOLUTION=WxH` attribute, or
/// nothing where the attribute is missing or malformed.
pub open spec fn height_label(s: Seq<char>, pos: int, e: int) -> Option<Seq<char>>
    recommends
        0 <= pos <= e <= s.len(),
{
    match spec_find(s, res_pat(), pos) {
        Option::None => Option::None,
        Option::Some(r) => {
            let p0 = r + res_pat().len();
            if p0 > e {
                Option::None
            } else {
                let d1 = digits_end(s, p0, e);
                if d1 == p0 || d1 >= e || s[d1] != 'x' {
                    Option::None
                } else {
                    let d2 = digits_end(s, d1 + 1, e);
                    if d2 == d1 + 1 {
                        Option::None
                    } else {
                        Option::Some(s.subrange(d1 + 1, d2))
                    }
                }
            }
        },
    }
}

/// Reads the vertical-resolution label out of the declaration line from
/// `pos` to `e`.
fn parse_height(s: &str, pos: usize, e: usize) -> (r: Option<String>)
    requires
        pos <= e <= s@.len(),
    ensures
        match r {
            Some(lab) => height_label(s@, pos as int, e as int) == Option::Some(lab@),
            None => height_label(s@, pos as int, e as int) is None,
        },
{
    let _n = s.unicode_len();
    match find_from(s, "RESOLUTION=", pos) {
        None => None,
        Some(rp) => {
            let plen = "RESOLUTION=".unicode_len();
            let p0 = rp + plen;
            if p0 > e {
                return None;
            }
            let d1 = scan_digits_end(s, p0, e);
            if d1 == p0 || d1 >= e {
                return None;
            }
            if s.get_char(d1) != 'x' {
                return None;
            }
            let d2 = scan_digits_end(s, d1 + 1, e);
            if d2 == d1 + 1 {
                return None;
            }
            let mut lab = String::new();
            push_substring(&mut lab, s, d1 + 1, d2);
            proof {
                assert(lab@ =~= s@.subrange(d1 + 1, d2 as int));
            }
            Some(lab)
        },
    }
}

/// The candidates of the manifest text from position `pos` on: one per
/// stream declaration followed by a URI line, in manifest order, each
/// carrying the declaration's vertical resolution as its label and its URI
/// resolved against `base`.
pub open spec fn manifest_cands(
    s: Seq<char>,
    base: Seq<char>,
    origin: Seq<char>,
    pos: int,
) -> Seq<CandidateView>
    recommends
        0 <= pos <= s.len(),
    decreases s.len() - pos,
    when 0 <= pos <= s.len()
{
    if pos >= s.len() {
        Seq::empty()
    } else {
        let e = line_end(s, pos);
        proof {
            lemma_line_end_bounds(s, pos);
        }
        let after = if e < s.len() {
            e + 1
        } else {
            e
        };
        if s[pos] == '#' {
            match height_label(s, pos, e) {
                Option::Some(label) => {
                    let u = next_content(s, after);
                    proof {
                        lemma_next_content_bounds(s, after);
                    }
                    if u >= s.len() {
                        Seq::empty()
                    } else {
                        let ue = line_end(s, u);
                        proof {
                            lemma_line_end_bounds(s, u);
                        }
                        if s[u] == '#' {
                            manifest_cands(s, base, origin, u)
                        } else {
                            let after_u = if ue < s.len() {
                                ue + 1
                            } else {
                                ue
                            };
                            seq![
                                CandidateView {
                                    quality_label: label,
                                    url: resolved_url(base, s.subrange(u, ue)),
                                    origin_provider: origin,
                                },
                            ] + manifest_cands(s, base, origin, after_u)
                        }
                    }
                },
                Option::None => manifest_cands(s, base, origin, after),
            }
        } else {
            manifest_cands(s, base, origin, after)
        }
    }
}

/// Expands the manifest text from position `pos` on.
fn expand_from(s: &str, base: &str, origin: &str, pos: usize) -> (r: Vec<MediaCandidate>)
    requires
        pos <= s@.len(),
    ensures
        cand_views(r@) == manifest_cands(s@, base@, origin@, pos as int),
    decreases s@.len() - pos,
{
    let n = s.unicode_len();
    if pos >= n {
        let r = Vec::new();
        proof {
            assert(cand_views(r@) =~= manifest_cands(s@, base@, origin@, pos as int));
        }
        return r;
    }
    let e = find_line_end(s, pos);
    let after = if e < n {
        e + 1
    } else {
        e
    };
    if s.get_char(pos) == '#' {
        match parse_height(s, pos, e) {
            Some(label) => {
                let u = find_next_content(s, after);
                if u >= n {
                    let r = Vec::new();
                    proof {
                        assert(cand_views(r@) =~= manifest_cands(s@, base@, origin@, pos as int));
                    }
                    return r;
                }
                let ue = find_line_end(s, u);
                if s.get_char(u) == '#' {
                    expand_from(s, base, origin, u)
                } else {
                    let mut uri = String::new();
                    push_substring(&mut uri, s, u, ue);
                    let url = resolve_uri(base, uri.as_str());
                    proof {
                        assert(uri@ =~= s@.subrange(u as int, ue as int));
                    }
                    let cand = MediaCandidate {
                        quality_label: label,
                        url,
                        origin_provider: origin.to_owned(),
                    };
                    let after_u = if ue < n {
                        ue + 1
                    } else {
                        ue
                    };
                    let ghost tail = manifest_cands(s@, base@, origin@, after_u as int);
                    let mut rest = expand_from(s, base, origin, after_u);
                    let ghost rest_before = rest@;
                    rest.insert(0, cand);
                    proof {
                        assert(rest@ =~= seq![cand] + rest_before);
                        assert(cand_views(rest@) =~= seq![cand@] + cand_views(rest_before));
                        assert(cand_views(rest@) =~= manifest_cands(
                            s@,
                            base@,
                            origin@,
                            pos as int,
                        ));
                    }
                    rest
                }
            },
            None => expand_from(s, base, origin, after),
        }
    } else {
        expand_from(s, base, origin, after)
    }
}

/// Expands an adaptive manifest into concrete, resolution-tagged media
/// candidates, one per valid variant, in manifest order.  `base_url` is the
/// manifest's own URL, the base for its relative URIs; `origin` tags every
/// candidate with the provider the manifest came from.  A manifest with no
/// valid variant yields an empty list.
pub fn expand_manifest(text: &str, base_url: &str, origin: &str) -> (r: Vec<MediaCandidate>)
    ensures
        cand_views(r@) == manifest_cands(text@, base_url@, origin@, 0),
{
    expand_from(text, base_url, origin, 0)
}

} // verus!
