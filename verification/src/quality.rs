//! Quality labels and quality-based candidate selection.
//!
//! A quality label is typically a numeric vertical-resolution string such as
//! "1080" or "720", but may be non-numeric.  Comparison is always
//! numeric-by-parse: a label that is not the canonical decimal form of a
//! value that fits in `u32` compares as value 0, so it never wins a "best"
//! selection unless every candidate is unparsable.

use crate::text::str_eq;
use vstd::prelude::*;

verus! {

/// A decimal digit character.
pub open spec fn is_ascii_digit(c: char) -> bool {
    48 <= c as u32 && c as u32 <= 57
}

/// Numeric value of a decimal digit character.
pub open spec fn digit_val(c: char) -> nat {
    (c as u32 - 48) as nat
}

/// Value of a digit string, most significant digit first.
pub open spec fn digits_val(s: Seq<char>) -> nat
    decreases s.len(),
{
    if s.len() == 0 {
        0
    } else {
        digits_val(s.drop_last()) * 10 + digit_val(s.last())
    }
}

/// Every character of `s` is a decimal digit.
pub open spec fn all_digits(s: Seq<char>) -> bool {
    forall|i: int| 0 <= i < s.len() ==> is_ascii_digit(s[i])
}

/// The quality a label stands for: its numeric parse, or 0 where the label
/// is empty, holds a non-digit, or does not fit in `u32`.
pub open spec fn quality_value(s: Seq<char>) -> nat {
    if s.len() > 0 && all_digits(s) && digits_val(s) <= u32::MAX {
        digits_val(s)
    } else {
        0
    }
}

/// The value of a digit-string prefix never exceeds the value of the whole.
proof fn lemma_digits_prefix_le(s: Seq<char>, i: int)
    requires
        0 <= i <= s.len(),
    ensures
        digits_val(s.take(i)) <= digits_val(s),
    decreases s.len() - i,
{
    if i == s.len() {
        assert(s.take(i) =~= s);
    } else {
        let t = s.take(i + 1);
        assert(t.drop_last() =~= s.take(i));
        assert(digits_val(s.take(i)) <= digits_val(t));
        lemma_digits_prefix_le(s, i + 1);
    }
}

/// Parses a quality label numerically; anything but the decimal form of a
/// `u32` value yields 0.
pub fn parse_quality(label: &str) -> (q: u32)
    ensures
        q as nat == quality_value(label@),
{
    let ghost s = label@;
    let n = label.unicode_len();
    if n == 0 {
        return 0;
    }
    let mut i: usize = 0;
    let mut acc: u32 = 0;
    while i < n
        invariant
            0 <= i <= n,
            n == s.len(),
            s == label@,
            all_digits(s.take(i as int)),
            acc as nat == digits_val(s.take(i as int)),
        decreases n - i,
    {
        let c = label.get_char(i);
        let cv = c as u32;
        if cv < 48 || cv > 57 {
            assert(!is_ascii_digit(s[i as int]));
            return 0;
        }
        let d = cv - 48;
        let wide: u64 = acc as u64 * 10 + d as u64;
        proof {
            assert(s.take(i + 1).drop_last() =~= s.take(i as int));
            assert(digits_val(s.take(i + 1)) == acc as nat * 10 + digit_val(c));
        }
        if wide > u32::MAX as u64 {
            proof {
                lemma_digits_prefix_le(s, i + 1);
            }
            return 0;
        }
        acc = wide as u32;
        i = i + 1;
    }
    proof {
        assert(s.take(n as int) =~= s);
    }
    acc
}

/// Mathematical shape of a media candidate.
pub struct CandidateView {
    pub quality_label: Seq<char>,
    pub url: Seq<char>,
    pub origin_provider: Seq<char>,
}

/// A concrete, resolution-tagged, directly fetchable media URL, before
/// final selection.  Immutable once created.
pub struct MediaCandidate {
    /// Typically a numeric vertical-resolution string; may be non-numeric.
    pub quality_label: String,
    /// The directly fetchable media URL.
    pub url: String,
    /// Tag of the provider the candidate came from.
    pub origin_provider: String,
}

impl View for MediaCandidate {
    type V = CandidateView;

    open spec fn view(&self) -> CandidateView {
        CandidateView {
            quality_label: self.quality_label@,
            url: self.url@,
            origin_provider: self.origin_provider@,
        }
    }
}

impl MediaCandidate {
    /// A field-for-field copy.
    pub fn duplicate(&self) -> (c: MediaCandidate)
        ensures
            c@ == self@,
    {
        MediaCandidate {
            quality_label: self.quality_label.clone(),
            url: self.url.clone(),
            origin_provider: self.origin_provider.clone(),
        }
    }
}

/// The views of a sequence of candidates.
pub open spec fn cand_views(s: Seq<MediaCandidate>) -> Seq<CandidateView> {
    s.map_values(|c: MediaCandidate| c@)
}

/// The quality a candidate stands for.
pub open spec fn qkey(c: CandidateView) -> nat {
    quality_value(c.quality_label)
}

/// Mathematical shape of a quality request.
pub enum RequestView {
    Best,
    Worst,
    Exact(Seq<char>),
}

/// The caller's preference: the best candidate, the worst, or one with an
/// exact label.
pub enum QualityRequest {
    Best,
    Worst,
    Exact(String),
}

impl View for QualityRequest {
    type V = RequestView;

    open spec fn view(&self) -> RequestView {
        match self {
            QualityRequest::Best => RequestView::Best,
            QualityRequest::Worst => RequestView::Worst,
            QualityRequest::Exact(lab) => RequestView::Exact(lab@),
        }
    }
}

/// Turns the textual form of a quality request into a request: the words
/// "best" and "worst" stand for themselves, anything else is an exact label.
pub fn parse_quality_request(s: &str) -> (r: QualityRequest)
    ensures
        r@ == (if s@ == "best"@ {
            RequestView::Best
        } else if s@ == "worst"@ {
            RequestView::Worst
        } else {
            RequestView::Exact(s@)
        }),
{
    if str_eq(s, "best") {
        QualityRequest::Best
    } else if str_eq(s, "worst") {
        QualityRequest::Worst
    } else {
        QualityRequest::Exact(s.to_owned())
    }
}

/// Index of the candidate a `best` request picks: the first candidate of
/// maximum quality.
pub open spec fn best_index(s: Seq<CandidateView>) -> int
    recommends
        s.len() > 0,
    decreases s.len(),
{
    if s.len() <= 1 {
        0
    } else {
        let p = best_index(s.drop_last());
        if qkey(s.last()) > qkey(s[p]) {
            s.len() - 1
        } else {
            p
        }
    }
}

/// Index of the candidate a `worst` request picks: the last candidate of
/// minimum quality, as standing last in a stable sort by descending quality.
pub open spec fn worst_index(s: Seq<CandidateView>) -> int
    recommends
        s.len() > 0,
    decreases s.len(),
{
    if s.len() <= 1 {
        0
    } else {
        let p = worst_index(s.drop_last());
        if qkey(s.last()) <= qkey(s[p]) {
            s.len() - 1
        } else {
            p
        }
    }
}

/// Some candidate carries exactly this label.
pub open spec fn has_label(s: Seq<CandidateView>, lab: Seq<char>) -> bool {
    exists|i: int| 0 <= i < s.len() && s[i].quality_label == lab
}

/// Index of the first candidate whose label equals `lab` verbatim, or
/// `s.len()` where none does.
pub open spec fn label_index(s: Seq<CandidateView>, lab: Seq<char>) -> int
    decreases s.len(),
{
    if s.len() == 0 {
        0
    } else if s[0].quality_label == lab {
        0
    } else {
        1 + label_index(s.skip(1), lab)
    }
}

/// Index of the candidate a request picks from a non-empty list: `best` and
/// `worst` by quality, an exact label by first verbatim match, falling back
/// to `best` where no label matches.
pub open spec fn selected_index(s: Seq<CandidateView>, req: RequestView) -> int {
    match req {
        RequestView::Best => best_index(s),
        RequestView::Worst => worst_index(s),
        RequestView::Exact(lab) => if has_label(s, lab) {
            label_index(s, lab)
        } else {
            best_index(s)
        },
    }
}

/// For all non-empty candidate lists, `best` picks a candidate of maximum
/// parsed numeric quality, ties broken by first occurrence.
pub proof fn lemma_best_is_max(s: Seq<CandidateView>)
    requires
        s.len() > 0,
    ensures
        0 <= best_index(s) < s.len(),
        forall|j: int| 0 <= j < s.len() ==> #[trigger] qkey(s[j]) <= qkey(s[best_index(s)]),
        forall|j: int| 0 <= j < best_index(s) ==> #[trigger] qkey(s[j]) < qkey(s[best_index(s)]),
    decreases s.len(),
{
    if s.len() == 1 {
    } else {
        let t = s.drop_last();
        lemma_best_is_max(t);
        assert(forall|j: int| 0 <= j < t.len() ==> t[j] == s[j]);
    }
}

/// For all non-empty candidate lists, `worst` picks a candidate of minimum
/// parsed numeric quality.
pub proof fn lemma_worst_is_min(s: Seq<CandidateView>)
    requires
        s.len() > 0,
    ensures
        0 <= worst_index(s) < s.len(),
        forall|j: int| 0 <= j < s.len() ==> #[trigger] qkey(s[j]) >= qkey(s[worst_index(s)]),
        forall|j: int| worst_index(s) < j < s.len() ==> #[trigger] qkey(s[j]) > qkey(s[worst_index(s)]),
    decreases s.len(),
{
    if s.len() == 1 {
    } else {
        let t = s.drop_last();
        lemma_worst_is_min(t);
        assert(forall|j: int| 0 <= j < t.len() ==> t[j] == s[j]);
    }
}

/// Where some candidate carries the label, `label_index` is the first
/// verbatim match; where none does, it is the length of the list.
pub proof fn lemma_label_index_first(s: Seq<CandidateView>, lab: Seq<char>)
    ensures
        has_label(s, lab) ==> 0 <= label_index(s, lab) < s.len() && s[label_index(
            s,
            lab,
        )].quality_label == lab && (forall|j: int|
            0 <= j < label_index(s, lab) ==> s[j].quality_label != lab),
        !has_label(s, lab) ==> label_index(s, lab) == s.len(),
    decreases s.len(),
{
    if s.len() == 0 {
    } else if s[0].quality_label == lab {
    } else {
        let t = s.skip(1);
        lemma_label_index_first(t, lab);
        if has_label(s, lab) {
            let i = choose|i: int| 0 <= i < s.len() && s[i].quality_label == lab;
            assert(t[i - 1] == s[i]);
            assert(has_label(t, lab));
        }
        if has_label(t, lab) {
            let i = choose|i: int| 0 <= i < t.len() && t[i].quality_label == lab;
            assert(t[i] == s[i + 1]);
            assert(has_label(s, lab));
            let li = label_index(s, lab);
            assert(s[li] == t[li - 1]);
            assert forall|j: int| 0 <= j < li implies s[j].quality_label != lab by {
                if j > 0 {
                    assert(s[j] == t[j - 1]);
                    assert(t[j - 1].quality_label != lab);
                }
            }
        }
    }
}

/// For all candidate lists containing a label exactly equal to the request,
/// selection with that label returns a candidate with that label.
pub proof fn lemma_select_exact_has_label(s: Seq<CandidateView>, lab: Seq<char>)
    requires
        has_label(s, lab),
    ensures
        0 <= selected_index(s, RequestView::Exact(lab)) < s.len(),
        s[selected_index(s, RequestView::Exact(lab))].quality_label == lab,
{
    lemma_label_index_first(s, lab);
}

/// For all candidate lists lacking the requested label, selection with that
/// label returns the same candidate as a `best` request.
pub proof fn lemma_select_absent_falls_back(s: Seq<CandidateView>, lab: Seq<char>)
    requires
        !has_label(s, lab),
    ensures
        selected_index(s, RequestView::Exact(lab)) == selected_index(s, RequestView::Best),
{
}

/// A list of one candidate selects that candidate, whatever the request.
pub proof fn lemma_select_single_candidate(s: Seq<CandidateView>, req: RequestView)
    requires
        s.len() == 1,
    ensures
        selected_index(s, req) == 0,
{
    match req {
        RequestView::Best => {},
        RequestView::Worst => {},
        RequestView::Exact(lab) => {
            if has_label(s, lab) {
                lemma_label_index_first(s, lab);
            }
        },
    }
}

/// The sole failure of selection: the candidate list was empty.
#[derive(Debug, PartialEq, Eq, Structural, Clone, Copy)]
pub enum SelectError {
    QualityListEmpty,
}

/// Index into `cands` of the candidate the request picks, or `None` exactly
/// where the list is empty.
pub fn select_index(cands: &Vec<MediaCandidate>, req: &QualityRequest) -> (r: Option<usize>)
    ensures
        match r {
            Some(i) => cands@.len() > 0 && i as int == selected_index(cand_views(cands@), req@),
            None => cands@.len() == 0,
        },
{
    let ghost s = cand_views(cands@);
    let n = cands.len();
    if n == 0 {
        return None;
    }
    match req {
        QualityRequest::Best => Some(best_of(cands)),
        QualityRequest::Worst => Some(worst_of(cands)),
        QualityRequest::Exact(lab) => {
            let mut j: usize = 0;
            while j < n
                invariant
                    0 <= j <= n,
                    n == cands@.len(),
                    s == cand_views(cands@),
                    req is Exact && req->0@ == lab@,
                    forall|k: int| 0 <= k < j ==> s[k].quality_label != lab@,
                decreases n - j,
            {
                if str_eq(cands[j].quality_label.as_str(), lab.as_str()) {
                    proof {
                        assert(s[j as int].quality_label == lab@);
                        assert(has_label(s, lab@));
                        lemma_label_index_first(s, lab@);
                        let li = label_index(s, lab@);
                        if li < j {
                            assert(s[li].quality_label != lab@);
                        }
                        if li > j {
                            assert(s[j as int].quality_label != lab@);
                        }
                        assert(j as int == label_index(s, lab@));
                    }
                    return Some(j);
                }
                j = j + 1;
            }
            proof {
                if has_label(s, lab@) {
                    let i = choose|i: int| 0 <= i < s.len() && s[i].quality_label == lab@;
                    assert(s[i].quality_label != lab@);
                }
            }
            Some(best_of(cands))
        },
    }
}

/// Index of the first candidate of maximum quality.
fn best_of(cands: &Vec<MediaCandidate>) -> (r: usize)
    requires
        cands@.len() > 0,
    ensures
        r as int == best_index(cand_views(cands@)),
{
    let ghost s = cand_views(cands@);
    let n = cands.len();
    let mut bi: usize = 0;
    let mut bk: u32 = parse_quality(cands[0].quality_label.as_str());
    let mut i: usize = 1;
    proof {
        assert(s.take(1).len() == 1);
        assert(s.take(1)[0] == s[0]);
    }
    while i < n
        invariant
            1 <= i <= n,
            0 <= bi < i,
            n == cands@.len(),
            s == cand_views(cands@),
            bi as int == best_index(s.take(i as int)),
            bk as nat == qkey(s[bi as int]),
        decreases n - i,
    {
        let k = parse_quality(cands[i].quality_label.as_str());
        proof {
            assert(s.take(i + 1).drop_last() =~= s.take(i as int));
            assert(s.take(i + 1).last() == s[i as int]);
            assert(s.take(i + 1)[best_index(s.take(i as int))] == s[best_index(s.take(i as int))]);
        }
        if k > bk {
            bi = i;
            bk = k;
        }
        i = i + 1;
    }
    proof {
        assert(s.take(n as int) =~= s);
    }
    bi
}

/// Index of the last candidate of minimum quality.
fn worst_of(cands: &Vec<MediaCandidate>) -> (r: usize)
    requires
        cands@.len() > 0,
    ensures
        r as int == worst_index(cand_views(cands@)),
{
    let ghost s = cand_views(cands@);
    let n = cands.len();
    let mut wi: usize = 0;
    let mut wk: u32 = parse_quality(cands[0].quality_label.as_str());
    let mut i: usize = 1;
    proof {
        assert(s.take(1).len() == 1);
        assert(s.take(1)[0] == s[0]);
    }
    while i < n
        invariant
            1 <= i <= n,
            0 <= wi < i,
            n == cands@.len(),
            s == cand_views(cands@),
            wi as int == worst_index(s.take(i as int)),
            wk as nat == qkey(s[wi as int]),
        decreases n - i,
    {
        let k = parse_quality(cands[i].quality_label.as_str());
        proof {
            assert(s.take(i + 1).drop_last() =~= s.take(i as int));
            assert(s.take(i + 1).last() == s[i as int]);
            assert(s.take(i + 1)[worst_index(s.take(i as int))] == s[worst_index(s.take(i as int))]);
        }
        if k <= wk {
            wi = i;
            wk = k;
        }
        i = i + 1;
    }
    proof {
        assert(s.take(n as int) =~= s);
    }
    wi
}

/// Picks one candidate from an aggregated list per the quality request;
/// fails exactly where the list is empty, the sole error condition of
/// selection.
pub fn select(cands: &Vec<MediaCandidate>, req: &QualityRequest) -> (r: Result<
    MediaCandidate,
    SelectError,
>)
    ensures
        match r {
            Ok(c) => cands@.len() > 0 && c@ == cand_views(cands@)[selected_index(
                cand_views(cands@),
                req@,
            )],
            Err(e) => cands@.len() == 0 && e == SelectError::QualityListEmpty,
        },
{
    match select_index(cands, req) {
        Some(i) => {
            proof {
                match req@ {
                    RequestView::Best => lemma_best_is_max(cand_views(cands@)),
                    RequestView::Worst => lemma_worst_is_min(cand_views(cands@)),
                    RequestView::Exact(lab) => {
                        if has_label(cand_views(cands@), lab) {
                            lemma_label_index_first(cand_views(cands@), lab);
                        } else {
                            lemma_best_is_max(cand_views(cands@));
                        }
                    },
                }
            }
            Ok(cands[i].duplicate())
        },
        None => Err(SelectError::QualityListEmpty),
    }
}

} // verus!
