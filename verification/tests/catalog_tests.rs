use anirust::catalog::{anime_item_from_row, build_episode_list};
use anirust::player::{
    download_args, ffplay_stream_args, mpv_stream_args, vlc_stream_args, PlayerOptions,
};
use anirust::title::normalize_title;
use anirust::urls::{
    episode_page_url, episode_watch_url, first_media_url, normalize_scheme_relative, strip_html,
};

#[test]
fn episode_list_counts_down_from_the_total() {
    let eps = build_episode_list("category/naruto", 3);
    assert_eq!(eps.len(), 3);
    assert_eq!(eps[0].number, "3");
    assert_eq!(eps[0].id, "naruto-episode-3");
    assert_eq!(eps[1].number, "2");
    assert_eq!(eps[2].id, "naruto-episode-1");
    assert!(eps[0].title.is_none());
}

#[test]
fn episode_list_without_category_prefix() {
    let eps = build_episode_list("one-piece", 1);
    assert_eq!(eps.len(), 1);
    assert_eq!(eps[0].id, "one-piece-episode-1");
}

#[test]
fn search_row_loses_its_leading_slash() {
    let a = anime_item_from_row("Naruto".to_string(), "/category/naruto", "img.png".to_string());
    assert_eq!(a.id, "category/naruto");
    assert_eq!(a.title, "Naruto");
    assert_eq!(a.image, "img.png");
}

#[test]
fn episode_urls_are_formed_from_their_parts() {
    assert_eq!(
        episode_page_url("https://site/x.html", 4),
        "https://site/x/episode-4"
    );
    assert_eq!(strip_html("a.html.html"), "a");
    assert_eq!(
        episode_watch_url("https://site", "naruto-episode-1"),
        "https://site/watch/naruto-episode-1"
    );
    assert_eq!(
        episode_watch_url("https://site", "category/naruto-episode-1"),
        "https://site/category/naruto-episode-1"
    );
}

#[test]
fn scheme_relative_urls_get_https() {
    assert_eq!(normalize_scheme_relative("//host/player"), "https://host/player");
    assert_eq!(normalize_scheme_relative("https://host/p"), "https://host/p");
    assert_eq!(normalize_scheme_relative("/relative"), "/relative");
}

#[test]
fn first_media_url_picks_the_first_or_nothing() {
    let urls = vec!["https://a/1.mp4".to_string(), "https://a/2.mp4".to_string()];
    assert_eq!(first_media_url(urls).unwrap(), "https://a/1.mp4");
    assert!(first_media_url(Vec::new()).is_none());
}

#[test]
fn titles_normalize_for_search() {
    assert_eq!(normalize_title("The Great: Adventure!"), "great-adventure");
    assert_eq!(normalize_title("O Filme do Naruto."), "do-naruto");
    assert_eq!(normalize_title("a  b -- c"), "b-c");
    assert_eq!(normalize_title("Season 2"), "2");
    assert_eq!(normalize_title(""), "");
}

#[test]
fn stock_player_options() {
    let o = PlayerOptions::default();
    assert!(o.fullscreen);
    assert!(!o.no_detach);
    assert!(!o.exit_after_play);
    assert!(!o.skip_intro);
    assert!(o.skip_title.is_none());
    assert!(!o.nextep_countdown);
}

#[test]
fn player_argument_lists_end_with_the_stream() {
    let m = mpv_stream_args("https://s/v.m3u8");
    assert_eq!(m.len(), 11);
    assert_eq!(m[0], "--no-terminal");
    assert_eq!(m[6], "--fs");
    assert_eq!(m[10], "https://s/v.m3u8");
    let f = ffplay_stream_args("https://s/v.m3u8");
    assert_eq!(f.len(), 14);
    assert_eq!(f[0], "-autoexit");
    assert_eq!(f[13], "https://s/v.m3u8");
    let v = vlc_stream_args("https://s/v.m3u8");
    assert_eq!(v, vec!["--fullscreen", "--no-video-title-show", "https://s/v.m3u8"]);
    let d = download_args("https://s/v.mp4", "/tmp/out.mp4");
    assert_eq!(d, vec!["-L", "-o", "/tmp/out.mp4", "https://s/v.mp4"]);
}
