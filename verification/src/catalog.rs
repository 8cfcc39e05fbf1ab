//! Search results and episode lists.
//!
//! The site hands back search rows and an episode count; this module turns
//! those plain values into the catalog items the rest of the system
//! consumes.

use crate::text::has_at;
use crate::util::{dec_of, u64_to_string};
use vstd::prelude::*;

verus! {

/// Mathematical shape of a search result.
pub struct AnimeItemView {
    pub id: Seq<char>,
    pub title: Seq<char>,
    pub image: Seq<char>,
}

/// One anime a search turned up.
pub struct AnimeItem {
    /// URL slug of the anime.
    pub id: String,
    /// The anime's visible title.
    pub title: String,
    /// URL of the cover image, possibly empty.
    pub image: String,
}

impl View for AnimeItem {
    type V = AnimeItemView;

    open spec fn view(&self) -> AnimeItemView {
        AnimeItemView { id: self.id@, title: self.title@, image: self.image@ }
    }
}

/// Mathematical shape of an episode item.
pub struct EpisodeItemView {
    pub id: Seq<char>,
    pub number: Seq<char>,
    pub title: Option<Seq<char>>,
}

/// One episode of an anime.
pub struct EpisodeItem {
    /// The episode's identifier for streaming.
    pub id: String,
    /// The episode's number.
    pub number: String,
    /// The episode's title, where the site offers one.
    pub title: Option<String>,
}

impl View for EpisodeItem {
    type V = EpisodeItemView;

    open spec fn view(&self) -> EpisodeItemView {
        EpisodeItemView {
            id: self.id@,
            number: self.number@,
            title: match self.title {
                Some(t) => Some(t@),
                None => None,
            },
        }
    }
}

/// `s` with every leading `/` removed.
pub open spec fn strip_leading_slashes(s: Seq<char>) -> Seq<char>
    decreases s.len(),
{
    if s.len() > 0 && s[0] == '/' {
        strip_leading_slashes(s.skip(1))
    } else {
        s
    }
}

/// Builds one search result from a row's plain values: the title and image
/// stand as they are, the identifier is the link target with its leading
/// `/` removed.
pub fn anime_item_from_row(title: String, href: &str, image: String) -> (a: AnimeItem)
    ensures
        a@.id == strip_leading_slashes(href@),
        a@.title == title@,
        a@.image == image@,
    decreases href@.len(),
{
    let n = href.unicode_len();
    if n > 0 && href.get_char(0) == '/' {
        let rest = href.substring_char(1, n);
        proof {
            assert(rest@ =~= href@.skip(1));
        }
        anime_item_from_row(title, rest, image)
    } else {
        AnimeItem { id: href.to_owned(), title, image }
    }
}

/// The key under which the site files an anime's category page.
pub open spec fn category_pat() -> Seq<char> {
    ("category/")@
}

/// `s` with one leading `category/` removed.
pub open spec fn strip_category(s: Seq<char>) -> Seq<char> {
    if has_at(s, category_pat(), 0) {
        s.skip(category_pat().len() as int)
    } else {
        s
    }
}

/// The identifier of one episode: the anime identifier without its
/// `category/` prefix, then `-episode-` and the episode number.
pub open spec fn episode_id_spec(anime_id: Seq<char>, number: nat) -> Seq<char> {
    strip_category(anime_id) + ("-episode-")@ + dec_of(number)
}

/// Strips one leading `category/` from an anime identifier.
fn strip_category_prefix(anime_id: &str) -> (r: String)
    ensures
        r@ == strip_category(anime_id@),
{
    let n = anime_id.unicode_len();
    let m = "category/".unicode_len();
    if m <= n && crate::text::match_at(anime_id, "category/", 0) {
        let rest = anime_id.substring_char(m, n);
        proof {
            assert(rest@ =~= anime_id@.skip(category_pat().len() as int));
        }
        rest.to_owned()
    } else {
        anime_id.to_owned()
    }
}

/// Builds the episode list of an anime out of its identifier and its total
/// episode count, most recent episode first: entry `i` stands for episode
/// `total - i`, carries its number and its streaming identifier, and no
/// title — the site offers none.
pub fn build_episode_list(anime_id: &str, total: u32) -> (r: Vec<EpisodeItem>)
    ensures
        r@.len() == total as int,
        forall|i: int|
            0 <= i < total as int ==> {
                let e = (#[trigger] r@[i])@;
                &&& e.number == dec_of((total - i) as nat)
                &&& e.id == episode_id_spec(anime_id@, (total - i) as nat)
                &&& e.title is None
            },
{
    let base = strip_category_prefix(anime_id);
    let mut r: Vec<EpisodeItem> = Vec::new();
    let mut k: u32 = 0;
    while k < total
        invariant
            0 <= k <= total,
            base@ == strip_category(anime_id@),
            r@.len() == k as int,
            forall|i: int|
                0 <= i < k as int ==> {
                    let e = (#[trigger] r@[i])@;
                    &&& e.number == dec_of((total - i) as nat)
                    &&& e.id == episode_id_spec(anime_id@, (total - i) as nat)
                    &&& e.title is None
                },
        decreases total - k,
    {
        let ep = total - k;
        let num = u64_to_string(ep as u64);
        let mut id = base.clone();
        id.append("-episode-");
        id.append(num.as_str());
        let item = EpisodeItem { id, number: num, title: None };
        r.push(item);
        k = k + 1;
    }
    r
}

} // verus!
