//! Watch history.
//!
//! The history holds one entry per anime, newest first by update, and is
//! capped: past the cap, the oldest entries by timestamp leave.  Reading
//! and writing the history file is the caller's business; this module holds
//! the state and its rules.

use vstd::prelude::*;

verus! {

/// How many entries the history keeps at most.
pub const HISTORY_CAP: usize = 100;

/// Mathematical shape of a history entry.
pub struct EntryView {
    pub anime_id: Seq<char>,
    pub anime_title: Seq<char>,
    pub last_episode: Seq<char>,
    pub total_episodes: Option<i32>,
    pub timestamp: u64,
}

/// One watched anime: which episode was last watched, and when.
pub struct HistoryEntry {
    pub anime_id: String,
    pub anime_title: String,
    pub last_episode: String,
    pub total_episodes: Option<i32>,
    pub timestamp: u64,
}

impl View for HistoryEntry {
    type V = EntryView;

    open spec fn view(&self) -> EntryView {
        EntryView {
            anime_id: self.anime_id@,
            anime_title: self.anime_title@,
            last_episode: self.last_episode@,
            total_episodes: self.total_episodes,
            timestamp: self.timestamp,
        }
    }
}

/// The views of a sequence of entries.
pub open spec fn entry_views(s: Seq<HistoryEntry>) -> Seq<EntryView> {
    s.map_values(|e: HistoryEntry| e@)
}

/// The watch history.
pub struct WatchHistory {
    pub entries: Vec<HistoryEntry>,
}

impl Default for WatchHistory {
    /// An empty history.
    fn default() -> (h: WatchHistory)
        ensures
            h.entries@.len() == 0,
    {
        WatchHistory { entries: Vec::new() }
    }
}

/// Index of the first entry carrying this anime identifier, or `s.len()`
/// where none does.
pub open spec fn id_index(s: Seq<EntryView>, id: Seq<char>) -> int
    decreases s.len(),
{
    if s.len() == 0 {
        0
    } else if s[0].anime_id == id {
        0
    } else {
        1 + id_index(s.skip(1), id)
    }
}

/// Some entry carries this anime identifier.
pub open spec fn has_id(s: Seq<EntryView>, id: Seq<char>) -> bool {
    exists|i: int| 0 <= i < s.len() && s[i].anime_id == id
}

/// Where some entry carries the identifier, `id_index` is the first such
/// entry; where none does, it is the length of the list.
pub proof fn lemma_id_index_first(s: Seq<EntryView>, id: Seq<char>)
    ensures
        has_id(s, id) ==> 0 <= id_index(s, id) < s.len() && s[id_index(s, id)].anime_id == id && (
        forall|j: int| 0 <= j < id_index(s, id) ==> s[j].anime_id != id),
        !has_id(s, id) ==> id_index(s, id) == s.len(),
    decreases s.len(),
{
    if s.len() == 0 {
    } else if s[0].anime_id == id {
    } else {
        let t = s.skip(1);
        lemma_id_index_first(t, id);
        if has_id(s, id) {
            let i = choose|i: int| 0 <= i < s.len() && s[i].anime_id == id;
            assert(t[i - 1] == s[i]);
            assert(has_id(t, id));
        }
        if has_id(t, id) {
            let i = choose|i: int| 0 <= i < t.len() && t[i].anime_id == id;
            assert(t[i] == s[i + 1]);
            assert(has_id(s, id));
            let li = id_index(s, id);
            assert(s[li] == t[li - 1]);
            assert forall|j: int| 0 <= j < li implies s[j].anime_id != id by {
                if j > 0 {
                    assert(s[j] == t[j - 1]);
                    assert(t[j - 1].anime_id != id);
                }
            }
        }
    }
}

/// The history once an entry lands: it replaces the first entry of the same
/// anime, or joins at the end.
pub open spec fn updated_entries(s: Seq<EntryView>, e: EntryView) -> Seq<EntryView> {
    if has_id(s, e.anime_id) {
        s.update(id_index(s, e.anime_id), e)
    } else {
        s.push(e)
    }
}

/// `e` inserted into a list sorted descending by timestamp, after every
/// entry at least as new, so that entries of one timestamp keep the order
/// they were inserted in.
pub open spec fn insert_desc(s: Seq<EntryView>, e: EntryView) -> Seq<EntryView>
    decreases s.len(),
{
    if s.len() == 0 {
        seq![e]
    } else if s[0].timestamp >= e.timestamp {
        seq![s[0]] + insert_desc(s.skip(1), e)
    } else {
        seq![e] + s
    }
}

/// The entries sorted descending by timestamp, stably: each entry in turn
/// inserted after every entry at least as new, so equal timestamps keep
/// their original order.
pub open spec fn sort_desc(s: Seq<EntryView>) -> Seq<EntryView>
    decreases s.len(),
{
    if s.len() == 0 {
        Seq::empty()
    } else {
        insert_desc(sort_desc(s.drop_last()), s.last())
    }
}

/// The history trimmed to its cap: nothing changes within the cap; over
/// it, the entries are sorted descending by timestamp (stably) and the
/// excess is cut from the sorted tail, so exactly the newest entries stay.
pub open spec fn capped(s: Seq<EntryView>) -> Seq<EntryView> {
    if s.len() <= HISTORY_CAP {
        s
    } else {
        sort_desc(s).take(HISTORY_CAP as int)
    }
}

/// Where the first `k` entries are at least as new as `e` and the next one
/// is older, `e` lands exactly at position `k`.
proof fn lemma_insert_desc_at(s: Seq<EntryView>, e: EntryView, k: int)
    requires
        0 <= k <= s.len(),
        forall|j: int| 0 <= j < k ==> (#[trigger] s[j].timestamp) >= e.timestamp,
        k < s.len() ==> s[k].timestamp < e.timestamp,
    ensures
        insert_desc(s, e) == s.take(k) + seq![e] + s.skip(k),
    decreases s.len(),
{
    if s.len() == 0 {
        assert(insert_desc(s, e) =~= s.take(k) + seq![e] + s.skip(k));
    } else if k == 0 {
        assert(s[0].timestamp < e.timestamp);
        assert(insert_desc(s, e) =~= s.take(0) + seq![e] + s.skip(0));
    } else {
        assert(s[0].timestamp >= e.timestamp);
        let t = s.skip(1);
        assert(forall|j: int| 0 <= j < t.len() ==> t[j] == s[j + 1]);
        lemma_insert_desc_at(t, e, k - 1);
        assert(seq![s[0]] + (t.take(k - 1) + seq![e] + t.skip(k - 1)) =~= s.take(k) + seq![e]
            + s.skip(k));
    }
}

/// Inserting into a descending list keeps it descending and grows it by
/// one.
proof fn lemma_insert_desc_sorted(s: Seq<EntryView>, e: EntryView)
    requires
        forall|i: int, j: int|
            0 <= i < j < s.len() ==> (#[trigger] s[i].timestamp) >= (#[trigger] s[j].timestamp),
    ensures
        insert_desc(s, e).len() == s.len() + 1,
        forall|i: int, j: int|
            0 <= i < j < insert_desc(s, e).len() ==> (#[trigger] insert_desc(s, e)[i].timestamp)
                >= (#[trigger] insert_desc(s, e)[j].timestamp),
    decreases s.len(),
{
    if s.len() == 0 {
    } else if s[0].timestamp >= e.timestamp {
        let t = s.skip(1);
        assert(forall|j: int| 0 <= j < t.len() ==> t[j] == s[j + 1]);
        lemma_insert_desc_sorted(t, e);
        let r = seq![s[0]] + insert_desc(t, e);
        assert forall|i: int, j: int|
            0 <= i < j < r.len() implies (#[trigger] r[i].timestamp) >= (
        #[trigger] r[j].timestamp) by {
            if i > 0 {
                assert(r[i] == insert_desc(t, e)[i - 1]);
                assert(r[j] == insert_desc(t, e)[j - 1]);
            } else {
                assert(r[j] == insert_desc(t, e)[j - 1]);
                // the head is at least as new as everything inserted below
                lemma_insert_desc_members(t, e, j - 1);
                let elem = insert_desc(t, e)[j - 1];
                if elem != e {
                    let j0 = choose|j0: int| 0 <= j0 < t.len() && t[j0] == elem;
                    assert(t[j0] == s[j0 + 1]);
                    assert(s[0].timestamp >= s[j0 + 1].timestamp);
                }
            }
        }
    } else {
    }
}

/// Every entry of an insertion result is the inserted entry or one of the
/// list's own.
proof fn lemma_insert_desc_members(s: Seq<EntryView>, e: EntryView, i: int)
    requires
        0 <= i < insert_desc(s, e).len(),
    ensures
        insert_desc(s, e)[i] == e || exists|j: int| 0 <= j < s.len() && s[j] == insert_desc(s, e)[i],
    decreases s.len(),
{
    if s.len() == 0 {
    } else if s[0].timestamp >= e.timestamp {
        if i > 0 {
            let t = s.skip(1);
            lemma_insert_desc_members(t, e, i - 1);
            assert(insert_desc(s, e)[i] == insert_desc(t, e)[i - 1]);
            if insert_desc(t, e)[i - 1] != e {
                let j = choose|j: int| 0 <= j < t.len() && t[j] == insert_desc(t, e)[i - 1];
                assert(s[j + 1] == insert_desc(s, e)[i]);
            }
        } else {
            assert(s[0] == insert_desc(s, e)[0]);
        }
    } else {
        if i > 0 {
            assert(s[i - 1] == insert_desc(s, e)[i]);
        }
    }
}

/// The stable sort by descending timestamp keeps the length and orders the
/// entries descending.
pub proof fn lemma_sort_desc_sorted(s: Seq<EntryView>)
    ensures
        sort_desc(s).len() == s.len(),
        forall|i: int, j: int|
            0 <= i < j < sort_desc(s).len() ==> (#[trigger] sort_desc(s)[i].timestamp) >= (
            #[trigger] sort_desc(s)[j].timestamp),
    decreases s.len(),
{
    if s.len() == 0 {
    } else {
        lemma_sort_desc_sorted(s.drop_last());
        lemma_insert_desc_sorted(sort_desc(s.drop_last()), s.last());
    }
}

/// Insertion adds the entry and moves nothing else.
proof fn lemma_insert_desc_multiset(s: Seq<EntryView>, e: EntryView)
    ensures
        insert_desc(s, e).to_multiset() == s.to_multiset().insert(e),
    decreases s.len(),
{
    broadcast use vstd::seq_lib::group_to_multiset_ensures;

    if s.len() == 0 {
        assert(seq![e] =~= Seq::<EntryView>::empty().push(e));
    } else if s[0].timestamp >= e.timestamp {
        let t = s.skip(1);
        lemma_insert_desc_multiset(t, e);
        vstd::seq_lib::lemma_multiset_commutative(seq![s[0]], insert_desc(t, e));
        vstd::seq_lib::lemma_multiset_commutative(seq![s[0]], t);
        assert(seq![s[0]] + t =~= s);
        assert(seq![s[0]].to_multiset().add(t.to_multiset().insert(e)) =~= seq![
            s[0],
        ].to_multiset().add(t.to_multiset()).insert(e));
    } else {
        vstd::seq_lib::lemma_multiset_commutative(seq![e], s);
        assert(seq![e].to_multiset().add(s.to_multiset()) =~= s.to_multiset().insert(e)) by {
            assert(seq![e] =~= Seq::<EntryView>::empty().push(e));
        }
    }
}

/// The stable sort by descending timestamp keeps exactly the entries it
/// was given: the result is a permutation.
pub proof fn lemma_sort_desc_permutes(s: Seq<EntryView>)
    ensures
        sort_desc(s).to_multiset() == s.to_multiset(),
    decreases s.len(),
{
    broadcast use vstd::seq_lib::group_to_multiset_ensures;

    if s.len() == 0 {
    } else {
        lemma_sort_desc_permutes(s.drop_last());
        lemma_insert_desc_multiset(sort_desc(s.drop_last()), s.last());
        assert(s =~= s.drop_last().push(s.last()));
    }
}

/// Index of the first entry carrying this anime identifier.
fn find_entry_index(entries: &Vec<HistoryEntry>, id: &String) -> (r: Option<usize>)
    ensures
        match r {
            Some(i) => has_id(entry_views(entries@), id@) && i as int == id_index(
                entry_views(entries@),
                id@,
            ) && i < entries@.len(),
            None => !has_id(entry_views(entries@), id@),
        },
{
    let ghost s = entry_views(entries@);
    let n = entries.len();
    let mut i: usize = 0;
    while i < n
        invariant
            0 <= i <= n,
            n == entries@.len(),
            s == entry_views(entries@),
            forall|k: int| 0 <= k < i ==> s[k].anime_id != id@,
        decreases n - i,
    {
        if entries[i].anime_id == *id {
            proof {
                assert(s[i as int].anime_id == id@);
                assert(has_id(s, id@));
                lemma_id_index_first(s, id@);
                let li = id_index(s, id@);
                if li < i {
                    assert(s[li].anime_id != id@);
                }
                if li > i {
                    assert(s[i as int].anime_id != id@);
                }
            }
            return Some(i);
        }
        i = i + 1;
    }
    proof {
        if has_id(s, id@) {
            let k = choose|k: int| 0 <= k < s.len() && s[k].anime_id == id@;
            assert(s[k].anime_id != id@);
        }
    }
    None
}

/// Inserts an entry into a list sorted descending by timestamp, after
/// every entry at least as new.
fn insert_sorted_desc(out: &mut Vec<HistoryEntry>, entry: HistoryEntry)
    ensures
        entry_views(final(out)@) == insert_desc(entry_views(old(out)@), entry@),
{
    let ghost s = entry_views(out@);
    let n = out.len();
    let mut k: usize = 0;
    loop
        invariant
            0 <= k <= n,
            n == out@.len(),
            s == entry_views(out@),
            forall|j: int| 0 <= j < k ==> (#[trigger] s[j].timestamp) >= entry@.timestamp,
        ensures
            0 <= k <= n,
            forall|j: int| 0 <= j < k ==> (#[trigger] s[j].timestamp) >= entry@.timestamp,
            k < n ==> s[k as int].timestamp < entry@.timestamp,
        decreases n - k,
    {
        if k >= n {
            break ;
        }
        if out[k].timestamp < entry.timestamp {
            break ;
        }
        k = k + 1;
    }
    proof {
        lemma_insert_desc_at(s, entry@, k as int);
    }
    out.insert(k, entry);
    proof {
        assert(entry_views(out@) =~= s.take(k as int) + seq![entry@] + s.skip(k as int));
    }
}

/// Sorts the entries descending by timestamp, stably: entries of one
/// timestamp keep the order they stood in.
#[verifier::loop_isolation(false)]
fn sort_entries_desc(entries: &mut Vec<HistoryEntry>)
    ensures
        entry_views(final(entries)@) == sort_desc(entry_views(old(entries)@)),
{
    let ghost u = entry_views(entries@);
    let mut sorted: Vec<HistoryEntry> = Vec::new();
    proof {
        assert(u.take(0) =~= Seq::<EntryView>::empty());
        assert(entry_views(sorted@) =~= sort_desc(u.take(0)));
        assert(entry_views(entries@) =~= u.skip(0));
    }
    while entries.len() > 0
        invariant
            entries@.len() <= u.len(),
            entry_views(sorted@) == sort_desc(u.take(u.len() - entries@.len())),
            entry_views(entries@) == u.skip(u.len() - entries@.len()),
        decreases entries@.len(),
    {
        let ghost done = u.len() - entries@.len();
        let ghost pre = entries@;
        let e = entries.remove(0);
        proof {
            assert(entry_views(pre)[0] == pre[0]@);
            assert(e@ == u[done]);
        }
        insert_sorted_desc(&mut sorted, e);
        proof {
            assert(u.take(done + 1).drop_last() =~= u.take(done));
            assert(u.take(done + 1).last() == u[done]);
            assert forall|i: int| 0 <= i < entries@.len() implies entries@[i]@ == u[done + 1
                + i] by {
                assert(entries@[i] == pre[i + 1]);
                assert(entry_views(pre)[i + 1] == pre[i + 1]@);
                assert(entry_views(pre)[i + 1] == u.skip(done)[i + 1]);
            }
            assert(entry_views(entries@) =~= u.skip(done + 1));
        }
    }
    proof {
        assert(u.take(u.len() as int) =~= u);
    }
    *entries = sorted;
}

/// Index of the last entry of maximum timestamp: the most recent entry,
/// last occurrence among ties.
pub open spec fn latest_index(s: Seq<EntryView>) -> int
    recommends
        s.len() > 0,
    decreases s.len(),
{
    if s.len() <= 1 {
        0
    } else {
        let p = latest_index(s.drop_last());
        if s.last().timestamp >= s[p].timestamp {
            s.len() - 1
        } else {
            p
        }
    }
}

/// The most recent entry stands in the list, and none is more recent.
pub proof fn lemma_latest_index(s: Seq<EntryView>)
    requires
        s.len() > 0,
    ensures
        0 <= latest_index(s) < s.len(),
        forall|j: int|
            0 <= j < s.len() ==> (#[trigger] s[j].timestamp) <= s[latest_index(s)].timestamp,
    decreases s.len(),
{
    if s.len() == 1 {
    } else {
        let t = s.drop_last();
        lemma_latest_index(t);
        assert(forall|j: int| 0 <= j < t.len() ==> t[j] == s[j]);
    }
}

impl WatchHistory {
    /// The entries, mathematically.
    pub open spec fn entries_view(&self) -> Seq<EntryView> {
        entry_views(self.entries@)
    }

    /// Adds or updates one entry: it replaces the first entry of the same
    /// anime or joins at the end.  Where the history then stands over its
    /// cap, the entries are sorted descending by timestamp — stably, so
    /// entries of one timestamp keep their order — and cut to the cap, so
    /// exactly the newest entries survive, newest first.
    pub fn update_entry(&mut self, entry: HistoryEntry)
        ensures
            final(self).entries_view() == capped(
                updated_entries(old(self).entries_view(), entry@),
            ),
    {
        let ghost s0 = self.entries_view();
        let ghost ev = entry@;
        let at = find_entry_index(&self.entries, &entry.anime_id);
        match at {
            Some(j) => {
                self.entries.remove(j);
                self.entries.insert(j, entry);
                proof {
                    assert(entry_views(self.entries@) =~= updated_entries(s0, ev));
                }
            },
            None => {
                self.entries.push(entry);
                proof {
                    assert(entry_views(self.entries@) =~= updated_entries(s0, ev));
                }
            },
        }
        let ghost u0 = updated_entries(s0, ev);
        if self.entries.len() > HISTORY_CAP {
            sort_entries_desc(&mut self.entries);
            self.entries.truncate(HISTORY_CAP);
            proof {
                lemma_sort_desc_sorted(u0);
                assert(entry_views(self.entries@) =~= sort_desc(u0).take(HISTORY_CAP as int));
            }
        }
    }

    /// The most recently updated entry, or nothing where the history is
    /// empty.  Among entries of one timestamp, the last one stands.
    pub fn get_latest_entry(&self) -> (r: Option<&HistoryEntry>)
        ensures
            match r {
                Some(e) => self.entries@.len() > 0 && e@ == self.entries_view()[latest_index(
                    self.entries_view(),
                )] && (forall|j: int|
                    0 <= j < self.entries@.len() ==> (#[trigger] self.entries_view()[j]).timestamp
                        <= e@.timestamp),
                None => self.entries@.len() == 0,
            },
    {
        let ghost s = self.entries_view();
        let n = self.entries.len();
        if n == 0 {
            return None;
        }
        let mut li: usize = 0;
        let mut lk: u64 = self.entries[0].timestamp;
        let mut i: usize = 1;
        proof {
            assert(s.take(1).len() == 1);
            assert(s.take(1)[0] == s[0]);
        }
        while i < n
            invariant
                1 <= i <= n,
                0 <= li < i,
                n == self.entries@.len(),
                s == self.entries_view(),
                li as int == latest_index(s.take(i as int)),
                lk == s[li as int].timestamp,
            decreases n - i,
        {
            let k = self.entries[i].timestamp;
            proof {
                assert(s.take(i + 1).drop_last() =~= s.take(i as int));
                assert(s.take(i + 1).last() == s[i as int]);
                assert(s.take(i + 1)[latest_index(s.take(i as int))] == s[latest_index(
                    s.take(i as int),
                )]);
            }
            if k >= lk {
                li = i;
                lk = k;
            }
            i = i + 1;
        }
        proof {
            assert(s.take(n as int) =~= s);
            lemma_latest_index(s);
        }
        Some(&self.entries[li])
    }

    /// Empties the history.
    pub fn clear(&mut self)
        ensures
            final(self).entries@.len() == 0,
    {
        self.entries.clear();
    }
}

} // verus!
