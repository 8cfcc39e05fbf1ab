//! Character-level text scanning.
//!
//! Payloads, embed pages and manifests carry no schema-stable structure, so
//! every extraction in this crate is pattern-based scanning over the text.
//! This module holds the shared primitives: substring search and the
//! decoding of escaped path separators.

use vstd::prelude::*;

verus! {

/// `pat` occurs in `s` at position `i`.
pub open spec fn has_at(s: Seq<char>, pat: Seq<char>, i: int) -> bool {
    0 <= i && i + pat.len() <= s.len() && s.subrange(i, i + pat.len()) == pat
}

/// `pat` occurs in `s` at or after position `from`.
pub open spec fn occurs_from(s: Seq<char>, pat: Seq<char>, from: int) -> bool {
    exists|i: int| from <= i && has_at(s, pat, i)
}

/// `pat` occurs somewhere in `s`.
pub open spec fn contains_seq(s: Seq<char>, pat: Seq<char>) -> bool {
    occurs_from(s, pat, 0)
}

/// Position of the first occurrence of `pat` in `s` at or after `from`.
pub open spec fn spec_find(s: Seq<char>, pat: Seq<char>, from: int) -> Option<int>
    recommends
        0 <= from,
    decreases s.len() - from,
{
    if from < 0 || from + pat.len() > s.len() {
        None
    } else if pat.len() == 0 {
        Some(from)
    } else if s.subrange(from, from + pat.len()) == pat {
        Some(from)
    } else {
        spec_find(s, pat, from + 1)
    }
}

/// What `spec_find` returns is the first occurrence, or there is none.
pub proof fn lemma_spec_find(s: Seq<char>, pat: Seq<char>, from: int)
    requires
        0 <= from,
    ensures
        match spec_find(s, pat, from) {
            Some(i) => from <= i && has_at(s, pat, i) && (forall|j: int|
                from <= j < i ==> !has_at(s, pat, j)),
            None => forall|j: int| from <= j ==> !has_at(s, pat, j),
        },
    decreases s.len() - from,
{
    if from + pat.len() > s.len() {
    } else if pat.len() == 0 {
        assert(s.subrange(from, from) =~= pat);
    } else if s.subrange(from, from + pat.len()) == pat {
    } else {
        lemma_spec_find(s, pat, from + 1);
        assert(!has_at(s, pat, from));
    }
}

/// Whether `pat` stands at position `i` of `s`.
pub fn match_at(s: &str, pat: &str, i: usize) -> (b: bool)
    requires
        i + pat@.len() <= s@.len(),
    ensures
        b == has_at(s@, pat@, i as int),
{
    let n = s.unicode_len();
    let m = pat.unicode_len();
    let mut j: usize = 0;
    while j < m
        invariant
            0 <= j <= m,
            m == pat@.len(),
            n == s@.len(),
            i + m <= n,
            forall|k: int| 0 <= k < j ==> s@[i + k] == pat@[k],
        decreases m - j,
    {
        if s.get_char(i + j) != pat.get_char(j) {
            proof {
                assert(s@.subrange(i as int, i + m) != pat@) by {
                    assert(s@.subrange(i as int, i + m)[j as int] == s@[i + j]);
                }
            }
            return false;
        }
        j = j + 1;
    }
    proof {
        assert(s@.subrange(i as int, i + m) =~= pat@);
    }
    true
}

/// First occurrence of `pat` in `s` at or after `from`.
pub fn find_from(s: &str, pat: &str, from: usize) -> (r: Option<usize>)
    ensures
        match r {
            Some(i) => spec_find(s@, pat@, from as int) == Some(i as int) && from <= i && i
                + pat@.len() <= s@.len(),
            None => spec_find(s@, pat@, from as int) is None,
        },
{
    let n = s.unicode_len();
    let m = pat.unicode_len();
    if m == 0 {
        if from <= n {
            proof {
                assert(s@.subrange(from as int, from as int) =~= pat@);
            }
            return Some(from);
        } else {
            return None;
        }
    }
    if m > n || from > n - m {
        return None;
    }
    let mut i: usize = from;
    while i <= n - m
        invariant
            from <= i <= n - m + 1,
            1 <= m <= n,
            n == s@.len(),
            m == pat@.len(),
            spec_find(s@, pat@, from as int) == spec_find(s@, pat@, i as int),
        decreases n - i,
    {
        if match_at(s, pat, i) {
            return Some(i);
        }
        i = i + 1;
    }
    None
}

/// `s` contains `pat`.
pub fn contains_pat(s: &str, pat: &str) -> (b: bool)
    ensures
        b == contains_seq(s@, pat@),
{
    let r = find_from(s, pat, 0);
    proof {
        lemma_spec_find(s@, pat@, 0);
    }
    r.is_some()
}

/// `s` begins with `pat`.
pub fn starts_with(s: &str, pat: &str) -> (b: bool)
    ensures
        b == has_at(s@, pat@, 0),
{
    let n = s.unicode_len();
    let m = pat.unicode_len();
    if m > n {
        return false;
    }
    match_at(s, pat, 0)
}

/// `s` ends with `pat`.
pub fn ends_with(s: &str, pat: &str) -> (b: bool)
    ensures
        b == has_at(s@, pat@, s@.len() - pat@.len()),
{
    let n = s.unicode_len();
    let m = pat.unicode_len();
    if m > n {
        return false;
    }
    match_at(s, pat, n - m)
}

/// The two strings hold the same characters.
pub fn str_eq(a: &str, b: &str) -> (r: bool)
    ensures
        r == (a@ == b@),
{
    let n = a.unicode_len();
    if n != b.unicode_len() {
        proof {
            assert(a@ != b@) by {
                assert(a@.len() != b@.len());
            }
        }
        return false;
    }
    if n == 0 {
        proof {
            assert(a@ =~= b@);
        }
        return true;
    }
    let r = match_at(a, b, 0);
    proof {
        assert(a@.subrange(0, a@.len() as int) =~= a@);
    }
    r
}

/// Position of the first occurrence of character `c` in `s` at or after
/// `from`.
pub open spec fn spec_find_char(s: Seq<char>, c: char, from: int) -> Option<int>
    recommends
        0 <= from,
    decreases s.len() - from,
{
    if from < 0 || from >= s.len() {
        None
    } else if s[from] == c {
        Some(from)
    } else {
        spec_find_char(s, c, from + 1)
    }
}

/// What `spec_find_char` returns is the first occurrence, or there is none.
pub proof fn lemma_spec_find_char(s: Seq<char>, c: char, from: int)
    requires
        0 <= from,
    ensures
        match spec_find_char(s, c, from) {
            Some(i) => from <= i < s.len() && s[i] == c && (forall|j: int|
                from <= j < i ==> s[j] != c),
            None => forall|j: int| from <= j < s.len() ==> s[j] != c,
        },
    decreases s.len() - from,
{
    if from >= s.len() {
    } else if s[from] == c {
    } else {
        lemma_spec_find_char(s, c, from + 1);
    }
}

/// First occurrence of character `c` in `s` at or after `from`.
pub fn find_char_from(s: &str, c: char, from: usize) -> (r: Option<usize>)
    ensures
        match r {
            Some(i) => spec_find_char(s@, c, from as int) == Some(i as int) && from <= i
                && i < s@.len(),
            None => spec_find_char(s@, c, from as int) is None,
        },
{
    let n = s.unicode_len();
    let mut i: usize = from;
    while i < n
        invariant
            from <= i,
            n == s@.len(),
            spec_find_char(s@, c, from as int) == spec_find_char(s@, c, i as int),
        decreases n - i,
    {
        if s.get_char(i) == c {
            return Some(i);
        }
        i = i + 1;
    }
    None
}

/// `c` matches `p` up to ASCII case, where `p` is given in lowercase.
pub open spec fn ci_char_match(c: char, p: char) -> bool {
    c == p || (65 <= c as u32 && c as u32 <= 90 && c as u32 + 32 == p as u32)
}

/// The lowercase pattern `pat` occurs at position `i` of `s`, up to ASCII
/// case.
pub open spec fn has_at_nocase(s: Seq<char>, pat: Seq<char>, i: int) -> bool {
    0 <= i && i + pat.len() <= s.len() && (forall|k: int|
        0 <= k < pat.len() ==> ci_char_match(s[i + k], pat[k]))
}

/// Position of the first occurrence of the lowercase pattern `pat` in `s`
/// at or after `from`, up to ASCII case.
pub open spec fn spec_find_nocase(s: Seq<char>, pat: Seq<char>, from: int) -> Option<int>
    recommends
        0 <= from,
    decreases s.len() - from,
{
    if from < 0 || from + pat.len() > s.len() {
        None
    } else if has_at_nocase(s, pat, from) {
        Some(from)
    } else {
        spec_find_nocase(s, pat, from + 1)
    }
}

/// Position of the last occurrence of the lowercase pattern `pat` in `s`
/// starting at or before `upto`, up to ASCII case.
pub open spec fn spec_rfind_nocase(s: Seq<char>, pat: Seq<char>, upto: int) -> Option<int>
    decreases upto + 1,
    when upto < s.len()
{
    if upto < 0 {
        None
    } else if has_at_nocase(s, pat, upto) {
        Some(upto)
    } else {
        spec_rfind_nocase(s, pat, upto - 1)
    }
}

/// What `spec_rfind_nocase` returns is the last occurrence at or before
/// `upto`, or there is none.
pub proof fn lemma_spec_rfind_nocase(s: Seq<char>, pat: Seq<char>, upto: int)
    requires
        upto < s.len(),
    ensures
        match spec_rfind_nocase(s, pat, upto) {
            Some(h) => 0 <= h <= upto && has_at_nocase(s, pat, h) && (forall|j: int|
                h < j <= upto ==> !has_at_nocase(s, pat, j)),
            None => forall|j: int| 0 <= j <= upto ==> !has_at_nocase(s, pat, j),
        },
    decreases upto + 1,
{
    if upto < 0 {
    } else if has_at_nocase(s, pat, upto) {
    } else {
        lemma_spec_rfind_nocase(s, pat, upto - 1);
    }
}

/// Stepping the upper bound down over non-occurrences changes nothing.
proof fn lemma_rfind_nocase_down(s: Seq<char>, pat: Seq<char>, hi: int, lo: int)
    requires
        lo <= hi < s.len(),
        forall|j: int| lo < j <= hi ==> !has_at_nocase(s, pat, j),
    ensures
        spec_rfind_nocase(s, pat, hi) == spec_rfind_nocase(s, pat, lo),
    decreases hi - lo,
{
    if lo < hi {
        lemma_rfind_nocase_down(s, pat, hi - 1, lo);
    }
}

/// Whether the lowercase pattern stands at position `i` of `s`, up to
/// ASCII case.
pub fn match_at_nocase(s: &str, pat: &str, i: usize) -> (b: bool)
    requires
        i + pat@.len() <= s@.len(),
    ensures
        b == has_at_nocase(s@, pat@, i as int),
{
    let n = s.unicode_len();
    let m = pat.unicode_len();
    let mut j: usize = 0;
    while j < m
        invariant
            0 <= j <= m,
            m == pat@.len(),
            n == s@.len(),
            i + m <= n,
            forall|k: int| 0 <= k < j ==> ci_char_match(s@[i + k], pat@[k]),
        decreases m - j,
    {
        let c = s.get_char(i + j) as u32;
        let p = pat.get_char(j) as u32;
        if !(c == p || (65 <= c && c <= 90 && c + 32 == p)) {
            return false;
        }
        j = j + 1;
    }
    true
}

/// First occurrence of the lowercase pattern `pat` in `s` at or after
/// `from`, up to ASCII case.
pub fn find_nocase_from(s: &str, pat: &str, from: usize) -> (r: Option<usize>)
    ensures
        match r {
            Some(i) => spec_find_nocase(s@, pat@, from as int) == Some(i as int) && from <= i && i
                + pat@.len() <= s@.len(),
            None => spec_find_nocase(s@, pat@, from as int) is None,
        },
{
    let n = s.unicode_len();
    let m = pat.unicode_len();
    if m == 0 {
        if from <= n {
            return Some(from);
        } else {
            return None;
        }
    }
    if m > n || from > n - m {
        return None;
    }
    let mut i: usize = from;
    while i <= n - m
        invariant
            from <= i <= n - m + 1,
            1 <= m <= n,
            n == s@.len(),
            m == pat@.len(),
            spec_find_nocase(s@, pat@, from as int) == spec_find_nocase(s@, pat@, i as int),
        decreases n - i,
    {
        if match_at_nocase(s, pat, i) {
            return Some(i);
        }
        i = i + 1;
    }
    None
}

/// Last occurrence of the lowercase pattern `pat` in `s` starting at or
/// before `upto`, up to ASCII case.
pub fn rfind_nocase_upto(s: &str, pat: &str, upto: usize) -> (r: Option<usize>)
    requires
        upto < s@.len(),
    ensures
        match r {
            Some(h) => spec_rfind_nocase(s@, pat@, upto as int) == Some(h as int) && h <= upto && h
                + pat@.len() <= s@.len(),
            None => spec_rfind_nocase(s@, pat@, upto as int) is None,
        },
{
    let n = s.unicode_len();
    let m = pat.unicode_len();
    if m > n {
        proof {
            lemma_spec_rfind_nocase(s@, pat@, upto as int);
            if spec_rfind_nocase(s@, pat@, upto as int) is Some {
                let h = spec_rfind_nocase(s@, pat@, upto as int)->Some_0;
                assert(!has_at_nocase(s@, pat@, h));
            }
        }
        return None;
    }
    let mut i: usize = if upto > n - m {
        proof {
            lemma_rfind_nocase_down(s@, pat@, upto as int, (n - m) as int);
        }
        n - m
    } else {
        upto
    };
    loop
        invariant
            0 <= i <= upto < n,
            i + m <= n,
            n == s@.len(),
            m == pat@.len(),
            spec_rfind_nocase(s@, pat@, upto as int) == spec_rfind_nocase(s@, pat@, i as int),
        decreases i,
    {
        if match_at_nocase(s, pat, i) {
            return Some(i);
        }
        if i == 0 {
            proof {
                assert(spec_rfind_nocase(s@, pat@, 0) == spec_rfind_nocase(s@, pat@, -1));
                assert(spec_rfind_nocase(s@, pat@, -1) is None);
            }
            return None;
        }
        i = i - 1;
    }
}

/// Position of the last occurrence of character `c` in `s`.
pub open spec fn spec_rfind_char(s: Seq<char>, c: char) -> Option<int>
    decreases s.len(),
{
    if s.len() == 0 {
        None
    } else if s.last() == c {
        Some(s.len() - 1)
    } else {
        spec_rfind_char(s.drop_last(), c)
    }
}

/// What `spec_rfind_char` returns is the last occurrence, or there is none.
pub proof fn lemma_spec_rfind_char(s: Seq<char>, c: char)
    ensures
        match spec_rfind_char(s, c) {
            Some(i) => 0 <= i < s.len() && s[i] == c && (forall|j: int|
                i < j < s.len() ==> s[j] != c),
            None => forall|j: int| 0 <= j < s.len() ==> s[j] != c,
        },
    decreases s.len(),
{
    if s.len() == 0 {
    } else if s.last() == c {
    } else {
        lemma_spec_rfind_char(s.drop_last(), c);
        let t = s.drop_last();
        assert(forall|j: int| 0 <= j < t.len() ==> t[j] == s[j]);
        assert(s.last() != c);
    }
}

/// Last occurrence of character `c` in `s`.
pub fn rfind_char(s: &str, c: char) -> (r: Option<usize>)
    ensures
        match r {
            Some(i) => spec_rfind_char(s@, c) == Some(i as int) && i < s@.len(),
            None => spec_rfind_char(s@, c) is None,
        },
{
    let n = s.unicode_len();
    proof {
        assert(s@.take(n as int) =~= s@);
    }
    let mut i: usize = n;
    while i > 0
        invariant
            0 <= i <= n,
            n == s@.len(),
            spec_rfind_char(s@, c) == spec_rfind_char(s@.take(i as int), c),
        decreases i,
    {
        let ch = s.get_char(i - 1);
        proof {
            assert(s@.take(i as int).last() == s@[i - 1]);
            assert(s@.take(i as int).drop_last() =~= s@.take(i - 1));
        }
        if ch == c {
            return Some(i - 1);
        }
        i = i - 1;
    }
    proof {
        assert(s@.take(0) =~= Seq::<char>::empty());
    }
    None
}

/// Copies the characters of `s` from `from` to `to` onto the end of `out`.
pub fn push_substring(out: &mut String, s: &str, from: usize, to: usize)
    requires
        from <= to <= s@.len(),
    ensures
        final(out)@ == old(out)@ + s@.subrange(from as int, to as int),
{
    let piece = s.substring_char(from, to);
    out.append(piece);
}

/// The escape sequence `\/` stands at position `i` of `s`.
pub open spec fn escape_at(s: Seq<char>, i: int) -> bool {
    0 <= i && i + 1 < s.len() && s[i] == '\\' && s[i + 1] == '/'
}

/// `s` still holds an escaped separator.
pub open spec fn has_escaped_sep(s: Seq<char>) -> bool {
    exists|i: int| escape_at(s, i)
}

/// `s` with every escaped path separator `\/` decoded to `/`, scanning left
/// to right.
pub open spec fn decode_seps(s: Seq<char>) -> Seq<char>
    decreases s.len(),
{
    if s.len() == 0 {
        Seq::empty()
    } else if s.len() >= 2 && s[0] == '\\' && s[1] == '/' {
        seq!['/'] + decode_seps(s.skip(2))
    } else {
        seq![s[0]] + decode_seps(s.skip(1))
    }
}

/// Decodes every escaped path separator `\/` in `s` to a literal `/`.
///
/// Raw URLs out of a metadata payload carry such escapes; they are decoded
/// before any URL is handed downstream.
pub fn decode_escaped_separators(s: &str) -> (r: String)
    ensures
        r@ == decode_seps(s@),
{
    let n = s.unicode_len();
    proof {
        assert(s@.skip(0) =~= s@);
    }
    let mut out = String::new();
    let mut i: usize = 0;
    while i < n
        invariant
            0 <= i <= n,
            n == s@.len(),
            out@ + decode_seps(s@.skip(i as int)) == decode_seps(s@),
        decreases n - i,
    {
        let ghost rest = s@.skip(i as int);
        proof {
            assert(rest.len() == n - i);
            assert(rest[0] == s@[i as int]);
        }
        let c = s.get_char(i);
        if c == '\\' && i + 1 < n && s.get_char(i + 1) == '/' {
            proof {
                assert(rest[1] == s@[i + 1]);
                assert(rest.skip(2) =~= s@.skip(i + 2));
            }
            out.append("/");
            proof {
                reveal_strlit("/");
                assert(out@ + decode_seps(s@.skip(i + 2)) =~= decode_seps(s@));
            }
            i = i + 2;
        } else {
            proof {
                if rest.len() >= 2 && rest[0] == '\\' && rest[1] == '/' {
                    assert(s@[i + 1] == rest[1]);
                    assert(false);
                }
                assert(rest.skip(1) =~= s@.skip(i + 1));
            }
            push_substring(&mut out, s, i, i + 1);
            proof {
                assert(s@.subrange(i as int, i + 1) =~= seq![s@[i as int]]);
                assert(out@ + decode_seps(s@.skip(i + 1)) =~= decode_seps(s@));
            }
            i = i + 1;
        }
    }
    proof {
        assert(s@.skip(n as int) =~= Seq::<char>::empty());
        assert(out@ =~= decode_seps(s@));
    }
    out
}

/// Occurrences survive taking a suffix.
proof fn lemma_contains_skip(s: Seq<char>, pat: Seq<char>, k: int)
    requires
        0 <= k <= s.len(),
        !contains_seq(s, pat),
    ensures
        !contains_seq(s.skip(k), pat),
{
    assert forall|i: int| 0 <= i implies !has_at(s.skip(k), pat, i) by {
        if has_at(s.skip(k), pat, i) {
            assert(s.subrange(k + i, k + i + pat.len()) =~= s.skip(k).subrange(i, i + pat.len()));
            assert(has_at(s, pat, k + i));
        }
    }
}

/// Decoding a raw URL yields a URL with no escaped separator left, for
/// every input that does not hide one escape behind another: a backslash
/// immediately before an escaped separator survives decoding and forms a
/// new escape with the decoded separator, so such inputs are left out.
pub proof fn lemma_decode_removes_escapes(s: Seq<char>)
    requires
        !contains_seq(s, seq!['\\', '\\', '/']),
    ensures
        !has_escaped_sep(decode_seps(s)),
    decreases s.len(),
{
    let d = decode_seps(s);
    if s.len() == 0 {
        assert forall|i: int| !escape_at(d, i) by {}
    } else if s.len() >= 2 && s[0] == '\\' && s[1] == '/' {
        lemma_contains_skip(s, seq!['\\', '\\', '/'], 2);
        lemma_decode_removes_escapes(s.skip(2));
        let tail = decode_seps(s.skip(2));
        assert forall|i: int| !escape_at(d, i) by {
            if escape_at(d, i) {
                if i == 0 {
                    assert(d[0] == '/');
                } else {
                    assert(d[i] == tail[i - 1]);
                    assert(d[i + 1] == tail[i]);
                    assert(escape_at(tail, i - 1));
                }
            }
        }
    } else {
        lemma_contains_skip(s, seq!['\\', '\\', '/'], 1);
        lemma_decode_removes_escapes(s.skip(1));
        let tail = decode_seps(s.skip(1));
        assert forall|i: int| !escape_at(d, i) by {
            if escape_at(d, i) {
                if i == 0 {
                    assert(d[0] == s[0]);
                    assert(tail.len() >= 1 && d[1] == tail[0]);
                    // the first decoded character of the tail is '/' only
                    // where the tail starts with an escape, which the
                    // excluded pattern rules out here
                    if s.len() >= 3 && s[1] == '\\' && s[2] == '/' {
                        assert(s.subrange(0, 3) =~= seq!['\\', '\\', '/']);
                        assert(has_at(s, seq!['\\', '\\', '/'], 0));
                    } else {
                        assert(s.skip(1).len() >= 1);
                        if s.skip(1).len() >= 2 && s.skip(1)[0] == '\\' && s.skip(1)[1] == '/' {
                            assert(s[1] == '\\' && s[2] == '/');
                            assert(false);
                        }
                        assert(tail[0] == s[1]);
                        assert(s[1] == '/' ==> false);
                    }
                } else {
                    assert(d[i] == tail[i - 1]);
                    assert(d[i + 1] == tail[i]);
                    assert(escape_at(tail, i - 1));
                }
            }
        }
    }
}

} // verus!
