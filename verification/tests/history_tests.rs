use anirust::history::{HistoryEntry, WatchHistory, HISTORY_CAP};

fn entry(id: &str, ts: u64) -> HistoryEntry {
    HistoryEntry {
        anime_id: id.to_string(),
        anime_title: format!("title of {}", id),
        last_episode: "1".to_string(),
        total_episodes: Some(12),
        timestamp: ts,
    }
}

#[test]
fn a_new_anime_joins_at_the_end() {
    let mut h = WatchHistory::default();
    h.update_entry(entry("a", 10));
    h.update_entry(entry("b", 20));
    assert_eq!(h.entries.len(), 2);
    assert_eq!(h.entries[0].anime_id, "a");
    assert_eq!(h.entries[1].anime_id, "b");
}

#[test]
fn a_known_anime_is_replaced_in_place() {
    let mut h = WatchHistory::default();
    h.update_entry(entry("a", 10));
    h.update_entry(entry("b", 20));
    let mut again = entry("a", 30);
    again.last_episode = "7".to_string();
    h.update_entry(again);
    assert_eq!(h.entries.len(), 2);
    assert_eq!(h.entries[0].anime_id, "a");
    assert_eq!(h.entries[0].last_episode, "7");
    assert_eq!(h.entries[0].timestamp, 30);
}

#[test]
fn latest_entry_is_the_newest_by_timestamp() {
    let mut h = WatchHistory::default();
    h.update_entry(entry("a", 10));
    h.update_entry(entry("b", 50));
    h.update_entry(entry("c", 20));
    assert_eq!(h.get_latest_entry().unwrap().anime_id, "b");
}

#[test]
fn latest_entry_breaks_ties_by_the_later_entry() {
    let mut h = WatchHistory::default();
    h.update_entry(entry("a", 10));
    h.update_entry(entry("b", 10));
    assert_eq!(h.get_latest_entry().unwrap().anime_id, "b");
}

#[test]
fn empty_history_has_no_latest_entry() {
    let h = WatchHistory::default();
    assert!(h.get_latest_entry().is_none());
}

#[test]
fn over_the_cap_the_oldest_entries_leave() {
    let mut h = WatchHistory::default();
    for k in 0..(HISTORY_CAP as u64 + 5) {
        h.update_entry(entry(&format!("anime-{}", k), 1000 + k));
    }
    assert_eq!(h.entries.len(), HISTORY_CAP);
    // the five oldest are gone and the survivors stand newest first
    for e in &h.entries {
        assert!(e.timestamp >= 1005);
    }
    for w in h.entries.windows(2) {
        assert!(w[0].timestamp >= w[1].timestamp);
    }
    assert_eq!(h.entries[0].timestamp, 1000 + HISTORY_CAP as u64 + 4);
    assert_eq!(h.entries[HISTORY_CAP - 1].timestamp, 1005);
    assert_eq!(h.get_latest_entry().unwrap().timestamp, 1000 + HISTORY_CAP as u64 + 4);
}

#[test]
fn over_the_cap_equal_timestamps_keep_their_order_and_lose_the_tail() {
    let mut h = WatchHistory::default();
    for k in 0..(HISTORY_CAP + 1) {
        h.update_entry(entry(&format!("anime-{}", k), 7));
    }
    assert_eq!(h.entries.len(), HISTORY_CAP);
    // all timestamps equal: the stable sort keeps insertion order and the
    // cut falls on the last-inserted entry
    for (k, e) in h.entries.iter().enumerate() {
        assert_eq!(e.anime_id, format!("anime-{}", k));
    }
}

#[test]
fn clear_empties_the_history() {
    let mut h = WatchHistory::default();
    h.update_entry(entry("a", 10));
    h.clear();
    assert_eq!(h.entries.len(), 0);
}
