//! Pipeline orchestration.
//!
//! Given a quality request, the pipeline discovers embed links out of a
//! metadata payload, dispatches each link to its provider strategy,
//! aggregates every candidate the strategies yield, and selects one URL.
//! Fetching is not done here: the pipeline is a state machine that answers
//! each fetch outcome with the next action — another URL to fetch, or the
//! final result.  The caller performs the fetch and hands back the outcome.
//!
//! The failure policy has two tiers: any number of per-provider failures
//! (a failed fetch, a page no pattern matches) are swallowed, and the
//! pipeline only fails where the aggregate is empty — with `NoEmbedLinks`
//! where zero links were discovered, and `NoSourcesFound` where links
//! existed but no provider yielded a candidate.

use crate::embed::{embed_links_of, link_views, parse_embed_links, EmbedLink, LinkView};
use crate::manifest::{expand_manifest, manifest_cands};
use crate::provider::{
    direct_cands, extract_direct_candidates, extract_generic_url, extract_manifest_ref,
    generic_cand, generic_candidate, generic_url, is_manifest_url, manifest_ref,
    placeholder_cand, placeholder_candidate, provider_kind, provider_of, url_is_manifest,
    Provider,
};
use crate::quality::{
    cand_views, select, CandidateView, MediaCandidate, QualityRequest, RequestView,
    selected_index,
};
use vstd::prelude::*;

verus! {

/// A typed failure of one resolve call.  Per-unit failures are swallowed
/// inside the pipeline; only the metadata query's own failure and the two
/// aggregate conditions surface.
#[derive(Debug, PartialEq, Eq, Structural, Clone, Copy)]
pub enum ExtractionError {
    /// A transport-level fetch failure.
    NetworkError,
    /// A payload no extraction pattern could interpret.
    ParseError,
    /// Zero provider redirects were discovered for the episode.
    NoEmbedLinks,
    /// Embed links existed, but no provider yielded a usable candidate.
    NoSourcesFound,
}

/// What one fetch came back with: the body text, or a transport failure.
pub enum FetchOutcome {
    Text(String),
    TransportFailed,
}

/// What the pipeline asks its driver to do next.
pub enum Action {
    /// Fetch a provider's embed page.
    FetchEmbedPage { url: String },
    /// Fetch an adaptive manifest.
    FetchManifest { url: String },
    /// The resolve call is over, with this result.
    Done(Result<String, ExtractionError>),
}

/// Where the pipeline stands between two fetch outcomes.
pub enum Phase {
    /// Awaiting the metadata payload.
    Metadata,
    /// Awaiting the embed page of the link at `next`.
    Page,
    /// Awaiting the manifest this URL names, for the link at `next`.
    Manifest { manifest_url: String },
    /// The result has been handed out.
    Finished,
}

/// One resolve call in progress.  Drive it with `on_metadata`, then answer
/// each returned action until it hands out `Action::Done`.
pub struct Pipeline {
    /// The caller's quality preference.
    pub request: QualityRequest,
    /// The links discovered from the metadata payload.
    pub links: Vec<EmbedLink>,
    /// Index of the link being processed.
    pub next: usize,
    /// Every candidate aggregated so far, in link order.
    pub candidates: Vec<MediaCandidate>,
    /// What the pipeline awaits.
    pub phase: Phase,
}

impl Pipeline {
    /// The discovered links, mathematically.
    pub open spec fn links_view(&self) -> Seq<LinkView> {
        link_views(self.links@)
    }

    /// The aggregated candidates, mathematically.
    pub open spec fn cands_view(&self) -> Seq<CandidateView> {
        cand_views(self.candidates@)
    }

    /// The pipeline's well-formedness: the processing index stays within
    /// the links, a page or manifest is only awaited for a link whose
    /// strategy fetches, and nothing is discovered or aggregated before the
    /// metadata payload came in.
    pub open spec fn wf(&self) -> bool {
        &&& self.next <= self.links@.len()
        &&& (self.phase is Page || self.phase is Manifest) ==> {
            &&& self.next < self.links@.len()
            &&& provider_kind(self.links_view()[self.next as int].provider_tag) != Provider::Placeholder
        }
        &&& self.phase is Metadata ==> self.links@.len() == 0 && self.next == 0
            && self.candidates@.len() == 0
    }
}

/// Index of the first link at or after `from` whose strategy fetches a
/// page; placeholder links before it need no fetch.
pub open spec fn fetch_index(links: Seq<LinkView>, from: int) -> int
    recommends
        0 <= from <= links.len(),
    decreases links.len() - from,
    when 0 <= from <= links.len()
{
    if from >= links.len() {
        links.len() as int
    } else if provider_kind(links[from].provider_tag) == Provider::Placeholder {
        fetch_index(links, from + 1)
    } else {
        from
    }
}

/// `fetch_index` lands on the first non-placeholder link, or at the end.
pub proof fn lemma_fetch_index(links: Seq<LinkView>, from: int)
    requires
        0 <= from <= links.len(),
    ensures
        from <= fetch_index(links, from) <= links.len(),
        fetch_index(links, from) < links.len() ==> provider_kind(
            links[fetch_index(links, from)].provider_tag,
        ) != Provider::Placeholder,
        forall|i: int|
            from <= i < fetch_index(links, from) ==> provider_kind(
                #[trigger] links[i].provider_tag,
            ) == Provider::Placeholder,
    decreases links.len() - from,
{
    if from >= links.len() {
    } else if provider_kind(links[from].provider_tag) == Provider::Placeholder {
        lemma_fetch_index(links, from + 1);
    } else {
    }
}

/// The candidates the placeholder links from `from` up to the next fetch
/// contribute, in link order.
pub open spec fn skipped_cands(links: Seq<LinkView>, from: int) -> Seq<CandidateView>
    recommends
        0 <= from <= links.len(),
    decreases links.len() - from,
    when 0 <= from <= links.len()
{
    if from >= links.len() {
        Seq::empty()
    } else if provider_kind(links[from].provider_tag) == Provider::Placeholder {
        seq![placeholder_cand(links[from])] + skipped_cands(links, from + 1)
    } else {
        Seq::empty()
    }
}

/// The skipped links contribute exactly one candidate each.
pub proof fn lemma_skipped_cands(links: Seq<LinkView>, from: int)
    requires
        0 <= from <= links.len(),
    ensures
        skipped_cands(links, from).len() == fetch_index(links, from) - from,
        forall|i: int|
            0 <= i < skipped_cands(links, from).len() ==> #[trigger] skipped_cands(links, from)[i]
                == placeholder_cand(links[from + i]),
    decreases links.len() - from,
{
    if from >= links.len() {
    } else if provider_kind(links[from].provider_tag) == Provider::Placeholder {
        lemma_skipped_cands(links, from + 1);
        lemma_fetch_index(links, from + 1);
    } else {
    }
}

/// The result standing in `Action::Done` once every link is processed:
/// selection over the aggregate, or `NoSourcesFound` where the aggregate
/// is empty.
pub open spec fn done_result(cs: Seq<CandidateView>, req: RequestView, r: Result<
    String,
    ExtractionError,
>) -> bool {
    match r {
        Ok(u) => cs.len() > 0 && u@ == cs[selected_index(cs, req)].url,
        Err(e) => cs.len() == 0 && e == ExtractionError::NoSourcesFound,
    }
}

/// How a pipeline state moves on once the link at `from` is done: the
/// placeholder links from `from` on are folded straight into the aggregate;
/// then either the next fetching link's page is asked for, or — with every
/// link processed — the final result is handed out.
pub open spec fn advanced_from(
    links: Seq<LinkView>,
    cands: Seq<CandidateView>,
    req: RequestView,
    post: Pipeline,
    act: Action,
    from: int,
) -> bool {
    let fi = fetch_index(links, from);
    let cs = cands + skipped_cands(links, from);
    &&& post.links_view() == links
    &&& post.request@ == req
    &&& post.cands_view() == cs
    &&& if fi < links.len() {
        &&& post.next == fi
        &&& post.phase is Page
        &&& act matches Action::FetchEmbedPage { url } && url@ == links[fi].raw_url
    } else {
        &&& post.next == links.len()
        &&& post.phase is Finished
        &&& act matches Action::Done(r) && done_result(cs, req, r)
    }
}

/// Runs one provider strategy over its fetched embed page, turning one
/// embed link into candidates: exactly one for a placeholder host; the
/// scanned `(url, resolution)` pairs for the direct-file host, beside its
/// manifest reference where the page carries one; the first textual pattern
/// match for any other tag — itself handed back as a manifest to fetch
/// where it names one.  A page no pattern matches is the strategy-level
/// parse failure, which the pipeline swallows.
pub fn provider_strategy(link: &EmbedLink, page: &str) -> (r: Result<
    (Vec<MediaCandidate>, Option<String>),
    ExtractionError,
>)
    ensures
        ({
            let tag = link@.provider_tag;
            match provider_kind(tag) {
                Provider::Placeholder => {
                    &&& r matches Ok((cs, m))
                    &&& cand_views(cs@) == seq![placeholder_cand(link@)]
                    &&& m is None
                },
                Provider::DirectFile => {
                    &&& r matches Ok((cs, m))
                    &&& cand_views(cs@) == direct_cands(page@, tag, 0)
                    &&& (match manifest_ref(page@) {
                        Option::Some(u) => m matches Some(us) && us@ == u,
                        Option::None => m is None,
                    })
                },
                Provider::Generic => match generic_url(page@) {
                    Option::None => r matches Err(e) && e == ExtractionError::ParseError,
                    Option::Some(u) => if is_manifest_url(u) {
                        &&& r matches Ok((cs, m))
                        &&& cand_views(cs@) == Seq::<CandidateView>::empty()
                        &&& m matches Some(us)
                        &&& us@ == u
                    } else {
                        &&& r matches Ok((cs, m))
                        &&& cand_views(cs@) == seq![generic_cand(u, tag)]
                        &&& m is None
                    },
                },
            }
        }),
{
    let tag = &link.provider_tag;
    match provider_of(tag.as_str()) {
        Provider::Placeholder => {
            let mut cs = Vec::new();
            cs.push(placeholder_candidate(link));
            proof {
                assert(cand_views(cs@) =~= seq![placeholder_cand(link@)]);
            }
            Ok((cs, None))
        },
        Provider::DirectFile => {
            let cs = extract_direct_candidates(page, tag.as_str());
            Ok((cs, extract_manifest_ref(page)))
        },
        Provider::Generic => match extract_generic_url(page) {
            None => Err(ExtractionError::ParseError),
            Some(u) => {
                if url_is_manifest(u.as_str()) {
                    let cs = Vec::new();
                    proof {
                        assert(cand_views(cs@) =~= Seq::<CandidateView>::empty());
                    }
                    Ok((cs, Some(u)))
                } else {
                    let c = generic_candidate(u, tag.as_str());
                    let mut cs = Vec::new();
                    cs.push(c);
                    proof {
                        assert(cand_views(cs@) =~= seq![cs@[0]@]);
                    }
                    Ok((cs, None))
                }
            },
        },
    }
}

impl Pipeline {
    /// Starts one resolve call.  The caller issues the metadata query for
    /// the episode it is resolving and hands the outcome to `on_metadata`.
    pub fn new(request: QualityRequest) -> (p: Pipeline)
        ensures
            p.wf(),
            p.phase is Metadata,
            p.request@ == request@,
    {
        Pipeline {
            request,
            links: Vec::new(),
            next: 0,
            candidates: Vec::new(),
            phase: Phase::Metadata,
        }
    }

    /// Folds the placeholder links from `next` on into the aggregate, then
    /// asks for the next fetch or hands out the final result.
    fn advance(&mut self) -> (act: Action)
        requires
            old(self).next <= old(self).links@.len(),
        ensures
            final(self).wf(),
            advanced_from(
                old(self).links_view(),
                old(self).cands_view(),
                old(self).request@,
                *final(self),
                act,
                old(self).next as int,
            ),
    {
        let ghost links0 = self.links_view();
        let ghost cands0 = self.cands_view();
        let ghost from = self.next as int;
        let ghost req0 = self.request@;
        loop
            invariant
                self.next <= self.links@.len(),
                self.links_view() == links0,
                self.request@ == req0,
                0 <= from <= self.next as int,
                fetch_index(links0, from) == fetch_index(links0, self.next as int),
                cands0 + skipped_cands(links0, from) == self.cands_view() + skipped_cands(
                    links0,
                    self.next as int,
                ),
            ensures
                self.next <= self.links@.len(),
                self.links_view() == links0,
                self.request@ == req0,
                self.next as int == fetch_index(links0, from),
                self.cands_view() == cands0 + skipped_cands(links0, from),
            decreases self.links@.len() - self.next,
        {
            if self.next >= self.links.len() {
                proof {
                    assert(skipped_cands(links0, self.next as int) =~= Seq::<
                        CandidateView,
                    >::empty());
                    assert(self.cands_view() =~= cands0 + skipped_cands(links0, from));
                }
                break;
            }
            let p = provider_of(self.links[self.next].provider_tag.as_str());
            if !(p == Provider::Placeholder) {
                proof {
                    assert(provider_kind(links0[self.next as int].provider_tag)
                        != Provider::Placeholder);
                    assert(skipped_cands(links0, self.next as int) =~= Seq::<
                        CandidateView,
                    >::empty());
                    assert(self.cands_view() =~= cands0 + skipped_cands(links0, from));
                }
                break;
            }
            let c = placeholder_candidate(&self.links[self.next]);
            let ghost pre = self.candidates@;
            self.candidates.push(c);
            proof {
                assert(cand_views(self.candidates@) =~= cand_views(pre) + seq![c@]);
                assert(skipped_cands(links0, self.next as int) == seq![
                    placeholder_cand(links0[self.next as int]),
                ] + skipped_cands(links0, self.next + 1));
                assert(cands0 + skipped_cands(links0, from) =~= cand_views(pre) + seq![c@]
                    + skipped_cands(links0, self.next + 1));
            }
            self.next = self.next + 1;
        }
        proof {
            lemma_fetch_index(links0, from);
        }
        if self.next < self.links.len() {
            self.phase = Phase::Page;
            let url = self.links[self.next].raw_url.clone();
            Action::FetchEmbedPage { url }
        } else {
            self.phase = Phase::Finished;
            match select(&self.candidates, &self.request) {
                Ok(c) => Action::Done(Ok(c.url)),
                Err(_) => Action::Done(Err(ExtractionError::NoSourcesFound)),
            }
        }
    }

    /// Feeds the pipeline the metadata query's outcome.  A transport
    /// failure of the metadata query itself is fatal: nothing can be
    /// discovered without it.  A payload with zero discoverable links ends
    /// the call with `NoEmbedLinks`; otherwise processing starts at the
    /// first link.
    pub fn on_metadata(&mut self, outcome: FetchOutcome) -> (act: Action)
        requires
            old(self).wf(),
            old(self).phase is Metadata,
        ensures
            final(self).wf(),
            final(self).request@ == old(self).request@,
            match outcome {
                FetchOutcome::TransportFailed => final(self).phase is Finished
                    && final(self).links@.len() == 0
                    && act == Action::Done(Err(ExtractionError::NetworkError)),
                FetchOutcome::Text(payload) => {
                    let links = embed_links_of(payload@);
                    if links.len() == 0 {
                        final(self).phase is Finished && final(self).links@.len() == 0 && act
                            == Action::Done(Err(ExtractionError::NoEmbedLinks))
                    } else {
                        advanced_from(links, Seq::empty(), old(self).request@, *final(self), act, 0)
                    }
                },
            },
    {
        match outcome {
            FetchOutcome::TransportFailed => {
                self.phase = Phase::Finished;
                Action::Done(Err(ExtractionError::NetworkError))
            },
            FetchOutcome::Text(payload) => {
                let links = parse_embed_links(payload.as_str());
                if links.len() == 0 {
                    self.phase = Phase::Finished;
                    Action::Done(Err(ExtractionError::NoEmbedLinks))
                } else {
                    self.links = links;
                    self.next = 0;
                    proof {
                        assert(self.cands_view() =~= Seq::<CandidateView>::empty());
                    }
                    self.advance()
                }
            },
        }
    }

    /// Feeds the pipeline one embed page's fetch outcome for the link it
    /// awaits.  A failed fetch is swallowed: the provider contributes
    /// nothing and processing moves on.  A direct-file page contributes its
    /// scanned candidates and may ask for its referenced manifest; a
    /// generic page contributes its first pattern match — or, where the
    /// match is itself a manifest, asks for it; a page no pattern matches
    /// is a swallowed parse failure.
    pub fn on_page(&mut self, outcome: FetchOutcome) -> (act: Action)
        requires
            old(self).wf(),
            old(self).phase is Page,
        ensures
            final(self).wf(),
            ({
                let links = old(self).links_view();
                let cands = old(self).cands_view();
                let req = old(self).request@;
                let idx = old(self).next as int;
                let tag = links[idx].provider_tag;
                match outcome {
                    FetchOutcome::TransportFailed => advanced_from(
                        links,
                        cands,
                        req,
                        *final(self),
                        act,
                        idx + 1,
                    ),
                    FetchOutcome::Text(page) => match provider_kind(tag) {
                        Provider::DirectFile => {
                            let found = cands + direct_cands(page@, tag, 0);
                            match manifest_ref(page@) {
                                Option::Some(murl) => {
                                    &&& final(self).links_view() == links
                                    &&& final(self).request@ == req
                                    &&& final(self).next == idx
                                    &&& final(self).cands_view() == found
                                    &&& final(self).phase matches Phase::Manifest { manifest_url }
                                        && manifest_url@ == murl
                                    &&& act matches Action::FetchManifest { url } && url@ == murl
                                },
                                Option::None => advanced_from(
                                    links,
                                    found,
                                    req,
                                    *final(self),
                                    act,
                                    idx + 1,
                                ),
                            }
                        },
                        Provider::Generic => match generic_url(page@) {
                            Option::None => advanced_from(
                                links,
                                cands,
                                req,
                                *final(self),
                                act,
                                idx + 1,
                            ),
                            Option::Some(u) => if is_manifest_url(u) {
                                &&& final(self).links_view() == links
                                &&& final(self).request@ == req
                                &&& final(self).next == idx
                                &&& final(self).cands_view() == cands
                                &&& final(self).phase matches Phase::Manifest { manifest_url }
                                    && manifest_url@ == u
                                &&& act matches Action::FetchManifest { url } && url@ == u
                            } else {
                                advanced_from(
                                    links,
                                    cands + seq![generic_cand(u, tag)],
                                    req,
                                    *final(self),
                                    act,
                                    idx + 1,
                                )
                            },
                        },
                        Provider::Placeholder => true,
                    },
                }
            }),
    {
        let ghost cands_pre = self.cands_view();
        let _l = self.links.len();
        match outcome {
            FetchOutcome::TransportFailed => {
                self.next = self.next + 1;
                self.advance()
            },
            FetchOutcome::Text(page) => {
                let link = self.links[self.next].duplicate();
                match provider_strategy(&link, page.as_str()) {
                    Err(_) => {
                        // the strategy failed; it contributes nothing
                        self.next = self.next + 1;
                        self.advance()
                    },
                    Ok((mut found, mref)) => {
                        let ghost found_v = found@;
                        self.candidates.append(&mut found);
                        proof {
                            assert(cand_views(self.candidates@) =~= cands_pre + cand_views(
                                found_v,
                            ));
                            assert(cands_pre + Seq::<CandidateView>::empty() =~= cands_pre);
                        }
                        match mref {
                            Some(murl) => {
                                let url = murl.clone();
                                self.phase = Phase::Manifest { manifest_url: murl };
                                Action::FetchManifest { url }
                            },
                            None => {
                                self.next = self.next + 1;
                                self.advance()
                            },
                        }
                    },
                }
            },
        }
    }

    /// Feeds the pipeline one manifest's fetch outcome.  A failed fetch is
    /// swallowed; otherwise every valid variant of the manifest joins the
    /// aggregate, its URIs resolved against the manifest's own URL and
    /// tagged with the provider the manifest came from.  Processing then
    /// moves to the next link.
    pub fn on_manifest(&mut self, outcome: FetchOutcome) -> (act: Action)
        requires
            old(self).wf(),
            old(self).phase is Manifest,
        ensures
            final(self).wf(),
            ({
                let links = old(self).links_view();
                let cands = old(self).cands_view();
                let req = old(self).request@;
                let idx = old(self).next as int;
                let tag = links[idx].provider_tag;
                let murl = old(self).phase->manifest_url@;
                match outcome {
                    FetchOutcome::TransportFailed => advanced_from(
                        links,
                        cands,
                        req,
                        *final(self),
                        act,
                        idx + 1,
                    ),
                    FetchOutcome::Text(text) => advanced_from(
                        links,
                        cands + manifest_cands(text@, murl, tag, 0),
                        req,
                        *final(self),
                        act,
                        idx + 1,
                    ),
                }
            }),
    {
        let ghost cands_pre = self.cands_view();
        let _l = self.links.len();
        match outcome {
            FetchOutcome::TransportFailed => {
                self.next = self.next + 1;
                self.advance()
            },
            FetchOutcome::Text(text) => {
                let tag = self.links[self.next].provider_tag.clone();
                let murl = match &self.phase {
                    Phase::Manifest { manifest_url } => manifest_url.clone(),
                    _ => String::new(),
                };
                let mut found = expand_manifest(text.as_str(), murl.as_str(), tag.as_str());
                let ghost found_v = found@;
                self.candidates.append(&mut found);
                proof {
                    assert(cand_views(self.candidates@) =~= cands_pre + cand_views(found_v));
                }
                self.next = self.next + 1;
                self.advance()
            },
        }
    }
}

/// The links a metadata outcome lets the pipeline discover.
pub open spec fn metadata_links(o: FetchOutcome) -> Seq<LinkView> {
    match o {
        FetchOutcome::Text(p) => embed_links_of(p@),
        FetchOutcome::TransportFailed => Seq::empty(),
    }
}

/// A fetch outcome out of which no strategy gets anything: a transport
/// failure, or a page with no direct-file pattern, no manifest reference
/// and no generic pattern match.
pub open spec fn yields_nothing(o: FetchOutcome) -> bool {
    match o {
        FetchOutcome::TransportFailed => true,
        FetchOutcome::Text(t) => {
            &&& forall|tag: Seq<char>| (#[trigger] direct_cands(t@, tag, 0)).len() == 0
            &&& manifest_ref(t@) is None
            &&& generic_url(t@) is None
        },
    }
}

/// Every outcome of the transcript yields nothing.
pub open spec fn all_yield_nothing(os: Seq<FetchOutcome>) -> bool {
    forall|i: int| 0 <= i < os.len() ==> yields_nothing(#[trigger] os[i])
}

/// No link answers without a fetch.
pub open spec fn no_placeholder_links(links: Seq<LinkView>) -> bool {
    forall|i: int|
        0 <= i < links.len() ==> provider_kind(#[trigger] links[i].provider_tag)
            != Provider::Placeholder
}

/// Every link answers without a fetch.
pub open spec fn all_placeholder_links(links: Seq<LinkView>) -> bool {
    forall|i: int|
        0 <= i < links.len() ==> provider_kind(#[trigger] links[i].provider_tag)
            == Provider::Placeholder
}

/// The fetch outcome at position `k` of a transcript; an exhausted
/// transcript stands for failed fetches.
pub open spec fn outcome_at(os: Seq<FetchOutcome>, k: int) -> FetchOutcome {
    if 0 <= k < os.len() {
        os[k]
    } else {
        FetchOutcome::TransportFailed
    }
}

/// The whole run of the pipeline, mathematically: the aggregate the links
/// from `idx` on add to `acc`, with every fetch the strategies ask for
/// answered by the transcript from position `k` on.  A placeholder link
/// adds its candidate without a fetch; every other link consumes one
/// outcome for its page — and one more for its manifest where the page
/// names one — and adds exactly what its strategy gets out of them, a
/// failed fetch or unmatched page adding nothing.
pub open spec fn run_links(
    links: Seq<LinkView>,
    os: Seq<FetchOutcome>,
    k: int,
    idx: int,
    acc: Seq<CandidateView>,
) -> Seq<CandidateView>
    recommends
        0 <= idx <= links.len(),
    decreases links.len() - idx,
    when 0 <= idx <= links.len()
{
    if idx >= links.len() {
        acc
    } else {
        let tag = links[idx].provider_tag;
        if provider_kind(tag) == Provider::Placeholder {
            run_links(links, os, k, idx + 1, acc + seq![placeholder_cand(links[idx])])
        } else {
            match outcome_at(os, k) {
                FetchOutcome::TransportFailed => run_links(links, os, k + 1, idx + 1, acc),
                FetchOutcome::Text(page) => match provider_kind(tag) {
                    Provider::DirectFile => {
                        let found = acc + direct_cands(page@, tag, 0);
                        match manifest_ref(page@) {
                            Option::Some(murl) => match outcome_at(os, k + 1) {
                                FetchOutcome::TransportFailed => run_links(
                                    links,
                                    os,
                                    k + 2,
                                    idx + 1,
                                    found,
                                ),
                                FetchOutcome::Text(text) => run_links(
                                    links,
                                    os,
                                    k + 2,
                                    idx + 1,
                                    found + manifest_cands(text@, murl, tag, 0),
                                ),
                            },
                            Option::None => run_links(links, os, k + 1, idx + 1, found),
                        }
                    },
                    Provider::Generic => match generic_url(page@) {
                        Option::None => run_links(links, os, k + 1, idx + 1, acc),
                        Option::Some(u) => if is_manifest_url(u) {
                            match outcome_at(os, k + 1) {
                                FetchOutcome::TransportFailed => run_links(
                                    links,
                                    os,
                                    k + 2,
                                    idx + 1,
                                    acc,
                                ),
                                FetchOutcome::Text(text) => run_links(
                                    links,
                                    os,
                                    k + 2,
                                    idx + 1,
                                    acc + manifest_cands(text@, u, tag, 0),
                                ),
                            }
                        } else {
                            run_links(links, os, k + 1, idx + 1, acc + seq![generic_cand(u, tag)])
                        },
                    },
                    Provider::Placeholder => acc,
                },
            }
        }
    }
}

/// The run once the link at `idx` already contributed `acc` and awaits the
/// manifest at `murl`, answered by the outcome at `k`.
pub open spec fn run_manifest(
    links: Seq<LinkView>,
    os: Seq<FetchOutcome>,
    k: int,
    idx: int,
    acc: Seq<CandidateView>,
    murl: Seq<char>,
    tag: Seq<char>,
) -> Seq<CandidateView>
    recommends
        0 <= idx < links.len(),
{
    match outcome_at(os, k) {
        FetchOutcome::TransportFailed => run_links(links, os, k + 1, idx + 1, acc),
        FetchOutcome::Text(text) => run_links(
            links,
            os,
            k + 1,
            idx + 1,
            acc + manifest_cands(text@, murl, tag, 0),
        ),
    }
}

/// Placeholder links fold straight into the aggregate, consuming no
/// outcome.
pub proof fn lemma_run_skips_placeholders(
    links: Seq<LinkView>,
    os: Seq<FetchOutcome>,
    k: int,
    idx: int,
    acc: Seq<CandidateView>,
)
    requires
        0 <= idx <= links.len(),
    ensures
        run_links(links, os, k, idx, acc) == run_links(
            links,
            os,
            k,
            fetch_index(links, idx),
            acc + skipped_cands(links, idx),
        ),
    decreases links.len() - idx,
{
    lemma_fetch_index(links, idx);
    if idx >= links.len() {
        assert(acc + skipped_cands(links, idx) =~= acc);
    } else if provider_kind(links[idx].provider_tag) == Provider::Placeholder {
        lemma_run_skips_placeholders(links, os, k, idx + 1, acc + seq![placeholder_cand(
            links[idx],
        )]);
        assert((acc + seq![placeholder_cand(links[idx])]) + skipped_cands(links, idx + 1) =~= acc
            + skipped_cands(links, idx));
    } else {
        assert(acc + skipped_cands(links, idx) =~= acc);
    }
}

/// Where every link needs a fetch and every outcome yields nothing — each
/// provider strategy fails or comes back empty — the run adds nothing to
/// the aggregate.
pub proof fn lemma_run_yields_nothing(
    links: Seq<LinkView>,
    os: Seq<FetchOutcome>,
    k: int,
    idx: int,
    acc: Seq<CandidateView>,
)
    requires
        0 <= idx <= links.len(),
        no_placeholder_links(links),
        all_yield_nothing(os),
    ensures
        run_links(links, os, k, idx, acc) == acc,
    decreases links.len() - idx,
{
    if idx >= links.len() {
    } else {
        assert(provider_kind(links[idx].provider_tag) != Provider::Placeholder);
        let o = outcome_at(os, k);
        assert(yields_nothing(o)) by {
            if 0 <= k < os.len() {
                assert(yields_nothing(os[k]));
            }
        }
        match o {
            FetchOutcome::TransportFailed => {
                lemma_run_yields_nothing(links, os, k + 1, idx + 1, acc);
            },
            FetchOutcome::Text(page) => {
                let tag = links[idx].provider_tag;
                match provider_kind(tag) {
                    Provider::DirectFile => {
                        assert(direct_cands(page@, tag, 0).len() == 0);
                        assert(acc + direct_cands(page@, tag, 0) =~= acc);
                        lemma_run_yields_nothing(links, os, k + 1, idx + 1, acc + direct_cands(
                            page@,
                            tag,
                            0,
                        ));
                    },
                    Provider::Generic => {
                        lemma_run_yields_nothing(links, os, k + 1, idx + 1, acc);
                    },
                    Provider::Placeholder => {},
                }
            },
        }
    }
}

/// A provider's transport failure is swallowed: the run is exactly what
/// the remaining links contribute out of the remaining outcomes.
pub proof fn lemma_failure_is_swallowed(
    links: Seq<LinkView>,
    os: Seq<FetchOutcome>,
    k: int,
    idx: int,
    acc: Seq<CandidateView>,
)
    requires
        0 <= idx < links.len(),
        provider_kind(links[idx].provider_tag) != Provider::Placeholder,
        outcome_at(os, k) is TransportFailed,
    ensures
        run_links(links, os, k, idx, acc) == run_links(links, os, k + 1, idx + 1, acc),
{
}

/// How far one resolve call still has to go.
pub open spec fn pipeline_measure(p: Pipeline) -> int {
    2 * (p.links@.len() - p.next) + (if p.phase is Page {
        2int
    } else if p.phase is Manifest {
        1int
    } else {
        0int
    })
}

/// Takes the next outcome off the transcript; an exhausted transcript
/// stands for failed fetches.
fn next_outcome(rest: &mut Vec<FetchOutcome>) -> (o: FetchOutcome)
    ensures
        old(rest)@.len() > 0 ==> o == old(rest)@[0] && final(rest)@ == old(rest)@.skip(1),
        old(rest)@.len() == 0 ==> o is TransportFailed && final(rest)@ == old(rest)@,
{
    if rest.len() > 0 {
        let o = rest.remove(0);
        proof {
            assert(rest@ =~= old(rest)@.skip(1));
        }
        o
    } else {
        FetchOutcome::TransportFailed
    }
}

/// Runs one whole resolve call over a transcript of fetch outcomes:
/// `metadata` answers the metadata query, and each fetch the pipeline then
/// asks for is answered by the next element of `fetches`, an exhausted
/// transcript standing for failed fetches.
///
/// The contract pins the whole run.  The metadata query's own transport
/// failure is fatal; zero discovered links end in `NoEmbedLinks`; and
/// otherwise the result is exactly selection over `run_links`, the run's
/// aggregate — `NoSourcesFound` where it is empty.  Two corollaries of the
/// two-tier failure policy are stated beside it: where every link needs a
/// fetch and every outcome yields nothing, the call ends in
/// `NoSourcesFound`, never a crash; and where every link answers without
/// fetching, the call succeeds with the URL selection picks from their
/// candidates.
#[verifier::loop_isolation(false)]
pub fn resolve_from_outcomes(
    metadata: FetchOutcome,
    fetches: Vec<FetchOutcome>,
    request: QualityRequest,
) -> (r: Result<String, ExtractionError>)
    ensures
        metadata is TransportFailed ==> r == Result::<String, ExtractionError>::Err(
            ExtractionError::NetworkError,
        ),
        metadata is Text && metadata_links(metadata).len() == 0 ==> r == Result::<
            String,
            ExtractionError,
        >::Err(ExtractionError::NoEmbedLinks),
        metadata is Text && metadata_links(metadata).len() > 0 ==> done_result(
            run_links(metadata_links(metadata), fetches@, 0, 0, Seq::empty()),
            request@,
            r,
        ),
        metadata is Text && metadata_links(metadata).len() > 0 && no_placeholder_links(
            metadata_links(metadata),
        ) && all_yield_nothing(fetches@) ==> r == Result::<String, ExtractionError>::Err(
            ExtractionError::NoSourcesFound,
        ),
        metadata is Text && metadata_links(metadata).len() > 0 && all_placeholder_links(
            metadata_links(metadata),
        ) ==> ({
            let cs = skipped_cands(metadata_links(metadata), 0);
            r matches Ok(u) && u@ == cs[selected_index(cs, request@)].url
        }),
{
    let ghost req0 = request@;
    let ghost md = metadata;
    let ghost links0 = metadata_links(metadata);
    let ghost all0 = fetches@;
    let ghost run0 = run_links(links0, all0, 0, 0, Seq::empty());
    let mut p = Pipeline::new(request);
    let mut act = p.on_metadata(metadata);
    let mut rest = fetches;
    let ghost mut kc: int = 0;
    proof {
        if md is TransportFailed || links0.len() == 0 {
            assert(p.links_view() =~= links0);
        }
        assert(rest@ =~= all0.skip(0));
        if md is Text && links0.len() > 0 {
            lemma_fetch_index(links0, 0);
            lemma_skipped_cands(links0, 0);
            lemma_run_skips_placeholders(links0, all0, 0, 0, Seq::empty());
            assert(Seq::empty() + skipped_cands(links0, 0) =~= skipped_cands(links0, 0));
        }
    }
    loop
        invariant
            p.wf(),
            p.request@ == req0,
            p.links_view() == links0,
            (act matches Action::FetchEmbedPage { url } ==> p.phase is Page),
            (act matches Action::FetchManifest { url } ==> p.phase is Manifest),
            md is TransportFailed ==> act == Action::Done(
                Result::<String, ExtractionError>::Err(ExtractionError::NetworkError),
            ),
            md is Text && links0.len() == 0 ==> act == Action::Done(
                Result::<String, ExtractionError>::Err(ExtractionError::NoEmbedLinks),
            ),
            md is Text && links0.len() > 0 ==> {
                &&& 0 <= kc
                &&& (kc <= all0.len() ==> rest@ == all0.skip(kc))
                &&& (kc > all0.len() ==> rest@ == Seq::<FetchOutcome>::empty())
                &&& {
                    ||| {
                        &&& act is FetchEmbedPage
                        &&& run0 == run_links(links0, all0, kc, p.next as int, p.cands_view())
                    }
                    ||| {
                        &&& act is FetchManifest
                        &&& run0 == run_manifest(
                            links0,
                            all0,
                            kc,
                            p.next as int,
                            p.cands_view(),
                            p.phase->manifest_url@,
                            links0[p.next as int].provider_tag,
                        )
                    }
                    ||| (act matches Action::Done(res) && done_result(run0, req0, res))
                }
            },
        decreases pipeline_measure(p),
    {
        match act {
            Action::Done(res) => {
                proof {
                    if md is Text && links0.len() > 0 && no_placeholder_links(links0)
                        && all_yield_nothing(all0) {
                        lemma_run_yields_nothing(links0, all0, 0, 0, Seq::empty());
                    }
                    if md is Text && links0.len() > 0 && all_placeholder_links(links0) {
                        lemma_fetch_index(links0, 0);
                        lemma_skipped_cands(links0, 0);
                        if fetch_index(links0, 0) < links0.len() {
                            assert(provider_kind(links0[fetch_index(links0, 0)].provider_tag)
                                == Provider::Placeholder);
                        }
                        lemma_run_skips_placeholders(links0, all0, 0, 0, Seq::empty());
                        assert(Seq::empty() + skipped_cands(links0, 0) =~= skipped_cands(
                            links0,
                            0,
                        ));
                    }
                }
                return res;
            },
            Action::FetchEmbedPage { url: _ } => {
                let ghost rest_pre = rest@;
                let ghost idx = p.next as int;
                let ghost cands_pre = p.cands_view();
                let o = next_outcome(&mut rest);
                let ghost o_ghost = o;
                act = p.on_page(o);
                proof {
                    lemma_fetch_index(links0, idx + 1);
                    lemma_skipped_cands(links0, idx + 1);
                    if md is Text && links0.len() > 0 {
                        assert(o_ghost == outcome_at(all0, kc)) by {
                            if kc <= all0.len() {
                                if rest_pre.len() > 0 {
                                    assert(rest_pre[0] == all0[kc]);
                                } else {
                                    assert(all0.skip(kc).len() == all0.len() - kc);
                                }
                            }
                        }
                        if kc + 1 <= all0.len() {
                            assert(rest_pre.len() > 0) by {
                                assert(all0.skip(kc).len() == all0.len() - kc);
                            }
                            assert(rest@ =~= all0.skip(kc + 1));
                        } else {
                            assert(rest@ =~= Seq::<FetchOutcome>::empty());
                        }
                        match o_ghost {
                            FetchOutcome::TransportFailed => {
                                lemma_run_skips_placeholders(links0, all0, kc + 1, idx + 1,
                                    cands_pre);
                            },
                            FetchOutcome::Text(page) => {
                                let tag = links0[idx].provider_tag;
                                match provider_kind(tag) {
                                    Provider::DirectFile => {
                                        if manifest_ref(page@) is None {
                                            lemma_run_skips_placeholders(links0, all0, kc + 1,
                                                idx + 1, cands_pre + direct_cands(page@, tag, 0));
                                        }
                                    },
                                    Provider::Generic => {
                                        match generic_url(page@) {
                                            Option::None => {
                                                lemma_run_skips_placeholders(links0, all0, kc + 1,
                                                    idx + 1, cands_pre);
                                            },
                                            Option::Some(u) => {
                                                if !is_manifest_url(u) {
                                                    lemma_run_skips_placeholders(links0, all0,
                                                        kc + 1, idx + 1, cands_pre + seq![
                                                        generic_cand(u, tag)]);
                                                }
                                            },
                                        }
                                    },
                                    Provider::Placeholder => {},
                                }
                            },
                        }
                        kc = kc + 1;
                    }
                }
            },
            Action::FetchManifest { url: _ } => {
                let ghost rest_pre = rest@;
                let ghost idx = p.next as int;
                let ghost cands_pre = p.cands_view();
                let ghost murl = p.phase->manifest_url@;
                let o = next_outcome(&mut rest);
                let ghost o_ghost = o;
                act = p.on_manifest(o);
                proof {
                    lemma_fetch_index(links0, idx + 1);
                    lemma_skipped_cands(links0, idx + 1);
                    if md is Text && links0.len() > 0 {
                        assert(o_ghost == outcome_at(all0, kc)) by {
                            if kc <= all0.len() {
                                if rest_pre.len() > 0 {
                                    assert(rest_pre[0] == all0[kc]);
                                } else {
                                    assert(all0.skip(kc).len() == all0.len() - kc);
                                }
                            }
                        }
                        if kc + 1 <= all0.len() {
                            assert(rest_pre.len() > 0) by {
                                assert(all0.skip(kc).len() == all0.len() - kc);
                            }
                            assert(rest@ =~= all0.skip(kc + 1));
                        } else {
                            assert(rest@ =~= Seq::<FetchOutcome>::empty());
                        }
                        let tag = links0[idx].provider_tag;
                        match o_ghost {
                            FetchOutcome::TransportFailed => {
                                lemma_run_skips_placeholders(links0, all0, kc + 1, idx + 1,
                                    cands_pre);
                            },
                            FetchOutcome::Text(text) => {
                                lemma_run_skips_placeholders(links0, all0, kc + 1, idx + 1,
                                    cands_pre + manifest_cands(text@, murl, tag, 0));
                            },
                        }
                        kc = kc + 1;
                    }
                }
            },
        }
    }
}

} // verus!
