//! Title normalization for search.
//!
//! To raise the chance of a match across sites, a title is lowered,
//! stripped of common leading articles and of punctuation, cut into words
//! with the words that vary between sites dropped, and joined with single
//! dashes.

use crate::text::{has_at, str_eq};
use vstd::prelude::*;

verus! {

/// The lowercase form of a text.  Relies on str::to_lowercase: the result
/// depends on the characters alone.
pub uninterp spec fn lower_of(s: Seq<char>) -> Seq<char>;

/// Lowers a title.
///
/// Relies on str::to_lowercase, whose result is a function of the
/// characters alone; an empty text stays empty.
#[verifier::external_body]
fn lowercase(s: &str) -> (r: String)
    ensures
        r@ == lower_of(s@),
        s@.len() == 0 ==> r@.len() == 0,
{
    s.to_lowercase()
}

/// A character the normalization strips.
pub open spec fn is_title_punct(c: char) -> bool {
    c == ':' || c == '!' || c == '?' || c == ',' || c == '.' || c == '\'' || c == '"'
}

/// Strips the punctuation characters `:!?,.'"` out of a title.
///
/// Relies on regex::Regex::replace_all with the single-character class
/// `[:!?,.'"]` and an empty replacement: every occurrence of one of those
/// characters is removed, and no other character changes.  Compiling this
/// constant class never fails.
#[verifier::external_body]
fn strip_punctuation(s: &str) -> (r: String)
    ensures
        r@ == s@.filter(|c: char| !is_title_punct(c)),
{
    let re = regex::Regex::new("[:!?,.'\"]").unwrap();
    re.replace_all(s, "").into_owned()
}

/// `s` with the prefix `p` removed, where it starts with it.
pub open spec fn strip_pref(s: Seq<char>, p: Seq<char>) -> Seq<char> {
    if has_at(s, p, 0) {
        s.skip(p.len() as int)
    } else {
        s
    }
}

/// The common leading articles, each stripped in turn.
pub open spec fn strip_articles(s: Seq<char>) -> Seq<char> {
    strip_pref(
        strip_pref(
            strip_pref(
                strip_pref(
                    strip_pref(strip_pref(strip_pref(s, ("o ")@), ("a ")@), ("as ")@),
                    ("os ")@,
                ),
                ("the ")@,
            ),
            ("um ")@,
        ),
        ("uma ")@,
    )
}

/// Strips one leading occurrence of `p`.
fn strip_prefix_once(s: String, p: &str) -> (r: String)
    ensures
        r@ == strip_pref(s@, p@),
{
    let n = s.as_str().unicode_len();
    let m = p.unicode_len();
    if m <= n && crate::text::match_at(s.as_str(), p, 0) {
        let rest = s.as_str().substring_char(m, n);
        proof {
            assert(rest@ =~= s@.skip(p@.len() as int));
        }
        rest.to_owned()
    } else {
        s
    }
}

/// A blank character: a word boundary.
pub open spec fn is_blank(c: char) -> bool {
    c == ' ' || c == '\t' || c == '\r' || c == '\n'
}

/// End of the run of blanks starting at `i`.
pub open spec fn blanks_end(s: Seq<char>, i: int) -> int
    recommends
        0 <= i <= s.len(),
    decreases s.len() - i,
    when 0 <= i <= s.len()
{
    if i >= s.len() {
        s.len() as int
    } else if !is_blank(s[i]) {
        i
    } else {
        blanks_end(s, i + 1)
    }
}

/// End of the word starting at `i`.
pub open spec fn word_end(s: Seq<char>, i: int) -> int
    recommends
        0 <= i <= s.len(),
    decreases s.len() - i,
    when 0 <= i <= s.len()
{
    if i >= s.len() {
        s.len() as int
    } else if is_blank(s[i]) {
        i
    } else {
        word_end(s, i + 1)
    }
}

/// A run of blanks ends at or after its start, within the text, at a
/// non-blank character where one follows.
pub proof fn lemma_blanks_end_bounds(s: Seq<char>, i: int)
    requires
        0 <= i <= s.len(),
    ensures
        i <= blanks_end(s, i) <= s.len(),
        blanks_end(s, i) < s.len() ==> !is_blank(s[blanks_end(s, i)]),
    decreases s.len() - i,
{
    if i >= s.len() {
    } else if !is_blank(s[i]) {
    } else {
        lemma_blanks_end_bounds(s, i + 1);
    }
}

/// A word ends at or after its start, within the text; a word that starts
/// at a non-blank character is non-empty.
pub proof fn lemma_word_end_bounds(s: Seq<char>, i: int)
    requires
        0 <= i <= s.len(),
    ensures
        i <= word_end(s, i) <= s.len(),
        i < s.len() && !is_blank(s[i]) ==> word_end(s, i) > i,
    decreases s.len() - i,
{
    if i >= s.len() {
    } else if is_blank(s[i]) {
    } else {
        lemma_word_end_bounds(s, i + 1);
    }
}

/// The words of `s` from position `i` on: the maximal blank-free runs.
pub open spec fn words_from(s: Seq<char>, i: int) -> Seq<Seq<char>>
    recommends
        0 <= i <= s.len(),
    decreases s.len() - i,
    when 0 <= i <= s.len()
{
    if i >= s.len() {
        Seq::empty()
    } else {
        let b = blanks_end(s, i);
        proof {
            lemma_blanks_end_bounds(s, i);
        }
        if b >= s.len() {
            Seq::empty()
        } else {
            let e = word_end(s, b);
            proof {
                lemma_word_end_bounds(s, b);
            }
            seq![s.subrange(b, e)] + words_from(s, e)
        }
    }
}

/// A word that varies between sites and is dropped from search titles.
pub open spec fn is_skip_word(w: Seq<char>) -> bool {
    ||| w == ("o")@
    ||| w == ("a")@
    ||| w == ("os")@
    ||| w == ("as")@
    ||| w == ("um")@
    ||| w == ("uma")@
    ||| w == ("the")@
    ||| w == ("season")@
    ||| w == ("temporada")@
    ||| w == ("ova")@
    ||| w == ("movie")@
    ||| w == ("filme")@
}

/// Whether a word is dropped from search titles.
fn skip_word(w: &str) -> (b: bool)
    ensures
        b == is_skip_word(w@),
{
    str_eq(w, "o") || str_eq(w, "a") || str_eq(w, "os") || str_eq(w, "as") || str_eq(w, "um")
        || str_eq(w, "uma") || str_eq(w, "the") || str_eq(w, "season") || str_eq(w, "temporada")
        || str_eq(w, "ova") || str_eq(w, "movie") || str_eq(w, "filme")
}

/// The kept words from index `i` on, each preceded by one dash.
pub open spec fn dash_join_from(ws: Seq<Seq<char>>, i: int) -> Seq<char>
    recommends
        0 <= i,
    decreases ws.len() - i,
    when i >= 0
{
    if i >= ws.len() {
        Seq::empty()
    } else if is_skip_word(ws[i]) {
        dash_join_from(ws, i + 1)
    } else {
        seq!['-'] + ws[i] + dash_join_from(ws, i + 1)
    }
}

/// Runs of dashes collapsed to single dashes, left to right.
pub open spec fn collapse_dashes(s: Seq<char>) -> Seq<char>
    decreases s.len(),
{
    if s.len() == 0 {
        Seq::empty()
    } else if s.len() >= 2 && s[0] == '-' && s[1] == '-' {
        collapse_dashes(s.skip(1))
    } else {
        seq![s[0]] + collapse_dashes(s.skip(1))
    }
}

/// First position whose character is not a dash, or the length.
pub open spec fn dashes_end(s: Seq<char>, i: int) -> int
    recommends
        0 <= i <= s.len(),
    decreases s.len() - i,
    when 0 <= i <= s.len()
{
    if i >= s.len() {
        s.len() as int
    } else if s[i] != '-' {
        i
    } else {
        dashes_end(s, i + 1)
    }
}

/// One past the last position whose character is not a dash; 0 where every
/// character is a dash.
pub open spec fn dashes_rstart(s: Seq<char>) -> int
    decreases s.len(),
{
    if s.len() == 0 {
        0
    } else if s.last() != '-' {
        s.len() as int
    } else {
        dashes_rstart(s.drop_last())
    }
}

/// `s` without its leading and trailing dashes.
pub open spec fn trim_dashes(s: Seq<char>) -> Seq<char> {
    let a = dashes_end(s, 0);
    let b = dashes_rstart(s);
    if a < b {
        s.subrange(a, b)
    } else {
        Seq::empty()
    }
}

/// The normalized form of a title: its lowercase form without leading
/// articles and punctuation, cut into words, the words that vary between
/// sites dropped, the rest joined by single dashes.
pub open spec fn normalized_title(t: Seq<char>) -> Seq<char> {
    let clean = strip_articles(lower_of(t)).filter(|c: char| !is_title_punct(c));
    trim_dashes(collapse_dashes(dash_join_from(words_from(clean, 0), 0)))
}

/// The words of `s`, as strings.
fn split_words(s: &str, i: usize) -> (r: Vec<String>)
    requires
        i <= s@.len(),
    ensures
        r@.map_values(|w: String| w@) == words_from(s@, i as int),
    decreases s@.len() - i,
{
    let n = s.unicode_len();
    if i >= n {
        let r = Vec::new();
        proof {
            assert(r@.map_values(|w: String| w@) =~= words_from(s@, i as int));
        }
        return r;
    }
    let mut b = i;
    while b < n
        invariant
            i <= b <= n,
            n == s@.len(),
            blanks_end(s@, i as int) == blanks_end(s@, b as int),
        ensures
            i <= b <= n,
            b as int == blanks_end(s@, i as int),
        decreases n - b,
    {
        let c = s.get_char(b);
        if !(c == ' ' || c == '\t' || c == '\r' || c == '\n') {
            break ;
        }
        b = b + 1;
    }
    if b >= n {
        let r = Vec::new();
        proof {
            assert(r@.map_values(|w: String| w@) =~= words_from(s@, i as int));
        }
        return r;
    }
    let mut e = b;
    while e < n
        invariant
            b <= e <= n,
            n == s@.len(),
            word_end(s@, b as int) == word_end(s@, e as int),
        ensures
            b <= e <= n,
            e as int == word_end(s@, b as int),
        decreases n - e,
    {
        let c = s.get_char(e);
        if c == ' ' || c == '\t' || c == '\r' || c == '\n' {
            break ;
        }
        e = e + 1;
    }
    let word = s.substring_char(b, e).to_owned();
    proof {
        lemma_blanks_end_bounds(s@, i as int);
        lemma_word_end_bounds(s@, b as int);
    }
    let mut rest = split_words(s, e);
    let ghost rest_pre = rest@;
    rest.insert(0, word);
    proof {
        assert(rest@.map_values(|w: String| w@) =~= seq![s@.subrange(b as int, e as int)]
            + rest_pre.map_values(|w: String| w@));
        assert(rest@.map_values(|w: String| w@) =~= words_from(s@, i as int));
    }
    rest
}

/// The kept words joined, each preceded by one dash.
fn dash_join(ws: &Vec<String>, i: usize) -> (r: String)
    requires
        i <= ws@.len(),
    ensures
        r@ == dash_join_from(ws@.map_values(|w: String| w@), i as int),
    decreases ws@.len() - i,
{
    let ghost wsv = ws@.map_values(|w: String| w@);
    if i >= ws.len() {
        let r = String::new();
        proof {
            assert(r@ =~= dash_join_from(wsv, i as int));
        }
        return r;
    }
    if skip_word(ws[i].as_str()) {
        dash_join(ws, i + 1)
    } else {
        let mut out = String::new();
        out.append("-");
        out.append(ws[i].as_str());
        let rest = dash_join(ws, i + 1);
        out.append(rest.as_str());
        proof {
            reveal_strlit("-");
            assert(("-")@ =~= seq!['-']);
            assert(out@ =~= dash_join_from(wsv, i as int));
        }
        out
    }
}

/// Collapses every run of dashes to a single dash.
fn collapse(s: &str) -> (r: String)
    ensures
        r@ == collapse_dashes(s@),
{
    let n = s.unicode_len();
    proof {
        assert(s@.skip(0) =~= s@);
    }
    let mut out = String::new();
    let mut i: usize = 0;
    while i < n
        invariant
            0 <= i <= n,
            n == s@.len(),
            out@ + collapse_dashes(s@.skip(i as int)) == collapse_dashes(s@),
        decreases n - i,
    {
        let ghost rest = s@.skip(i as int);
        proof {
            assert(rest.len() == n - i);
            assert(rest[0] == s@[i as int]);
            assert(rest.skip(1) =~= s@.skip(i + 1));
        }
        let c = s.get_char(i);
        if c == '-' && i + 1 < n && s.get_char(i + 1) == '-' {
            proof {
                assert(rest[1] == s@[i + 1]);
                assert(out@ + collapse_dashes(s@.skip(i + 1)) =~= collapse_dashes(s@));
            }
        } else {
            proof {
                if rest.len() >= 2 && rest[0] == '-' && rest[1] == '-' {
                    assert(s@[i + 1] == rest[1]);
                    assert(false);
                }
            }
            crate::text::push_substring(&mut out, s, i, i + 1);
            proof {
                assert(s@.subrange(i as int, i + 1) =~= seq![s@[i as int]]);
                assert(out@ + collapse_dashes(s@.skip(i + 1)) =~= collapse_dashes(s@));
            }
        }
        i = i + 1;
    }
    proof {
        assert(s@.skip(n as int) =~= Seq::<char>::empty());
        assert(out@ =~= collapse_dashes(s@));
    }
    out
}

/// Cuts the leading and trailing dashes off.
fn trim(s: &str) -> (r: String)
    ensures
        r@ == trim_dashes(s@),
{
    let n = s.unicode_len();
    let mut a: usize = 0;
    while a < n
        invariant
            0 <= a <= n,
            n == s@.len(),
            dashes_end(s@, 0) == dashes_end(s@, a as int),
        ensures
            0 <= a <= n,
            a as int == dashes_end(s@, 0),
        decreases n - a,
    {
        if s.get_char(a) != '-' {
            break ;
        }
        a = a + 1;
    }
    proof {
        assert(s@.take(n as int) =~= s@);
    }
    let mut b: usize = n;
    while b > 0
        invariant
            0 <= b <= n,
            n == s@.len(),
            dashes_rstart(s@) == dashes_rstart(s@.take(b as int)),
        ensures
            0 <= b <= n,
            b as int == dashes_rstart(s@),
        decreases b,
    {
        let c = s.get_char(b - 1);
        proof {
            assert(s@.take(b as int).last() == s@[b - 1]);
            assert(s@.take(b as int).drop_last() =~= s@.take(b - 1));
        }
        if c != '-' {
            break ;
        }
        b = b - 1;
    }
    if a < b {
        let mut out = String::new();
        crate::text::push_substring(&mut out, s, a, b);
        proof {
            assert(out@ =~= trim_dashes(s@));
        }
        out
    } else {
        let out = String::new();
        proof {
            assert(out@ =~= trim_dashes(s@));
        }
        out
    }
}

/// Normalizes an anime title for search: lowers it, strips the common
/// leading articles and punctuation, drops the words that vary between
/// sites, and joins the rest with single dashes.
pub fn normalize_title(title: &str) -> (r: String)
    ensures
        r@ == normalized_title(title@),
{
    let lowered = lowercase(title);
    let a1 = strip_prefix_once(lowered, "o ");
    let a2 = strip_prefix_once(a1, "a ");
    let a3 = strip_prefix_once(a2, "as ");
    let a4 = strip_prefix_once(a3, "os ");
    let a5 = strip_prefix_once(a4, "the ");
    let a6 = strip_prefix_once(a5, "um ");
    let a7 = strip_prefix_once(a6, "uma ");
    let clean = strip_punctuation(a7.as_str());
    let words = split_words(clean.as_str(), 0);
    let joined = dash_join(&words, 0);
    let collapsed = collapse(joined.as_str());
    trim(collapsed.as_str())
}

} // verus!
