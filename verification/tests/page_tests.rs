use mellow_ui::artist::{artist_objects, AlbumSortInfo, ArtistObject, ArtistOrdering, SortKeys};
use mellow_ui::artists_page::{albums_caption, condition_at, filter_mode_at, ArtistsPage};
use mellow_ui::order::Order;
use mellow_ui::ui::FilterMode;

fn strings(v: &[&str]) -> Vec<String> {
    v.iter().map(|s| s.to_string()).collect()
}

#[test]
fn new_page_state() {
    let page = ArtistsPage::<()>::new();
    assert_eq!(page.search_query, "");
    assert_eq!(page.contents_id, 0);
    assert_eq!(page.get_sort_mode().ordering, ArtistOrdering::Default);
    assert!(!page.get_sort_config().reversed);
    assert!(!page.get_shuffle());
}

#[test]
fn search_query_follows_the_entry() {
    let mut page = ArtistsPage::<()>::new();
    page.handle_search_changed("beat");
    assert_eq!(page.search_query, "beat");
    page.handle_stop_search();
    assert_eq!(page.search_query, "");
}

#[test]
fn widget_entries_map_to_modes() {
    assert_eq!(filter_mode_at(0), FilterMode::Inclusive);
    assert_eq!(filter_mode_at(1), FilterMode::Exclusive);
    assert_eq!(condition_at(0), Order::Greater);
    assert_eq!(condition_at(1), Order::Less);
}

#[test]
fn filters_follow_the_widgets() {
    let mut page = ArtistsPage::<()>::new();
    page.handle_filters_changed(0, Some((1, 42)), None, 1);
    let f = &page.artist_filters;
    assert_eq!(f.filter_mode, FilterMode::Inclusive);
    assert_eq!(f.rating, Some((Order::Less, 42)));
    assert_eq!(f.play_count, None);
    assert_eq!(f.tag_filter_mode, FilterMode::Exclusive);
    page.handle_filters_changed(1, None, Some((0, 7)), 0);
    let f = &page.artist_filters;
    assert_eq!(f.filter_mode, FilterMode::Exclusive);
    assert_eq!(f.rating, None);
    assert_eq!(f.play_count, Some((Order::Greater, 7)));
    assert_eq!(f.tag_filter_mode, FilterMode::Inclusive);
    let a: ArtistObject<()> = ArtistObject::new(0, "a", 0, ());
    assert!(!page.filter(&a));
}

#[test]
fn shuffle_and_sort_icons() {
    let mut page = ArtistsPage::<()>::new();
    assert_eq!(page.set_shuffle(true), "media-playlist-shuffle-symbolic");
    assert!(page.get_shuffle());
    assert_eq!(page.set_shuffle(false), "media-playback-start-symbolic");
    assert_eq!(page.handle_reverse_sort(), "view-sort-ascending-symbolic");
    assert!(page.get_sort_mode().reversed);
    assert_eq!(page.handle_reverse_sort(), "view-sort-descending-symbolic");
    assert!(!page.get_sort_mode().reversed);
    page.set_sort_mode(ArtistOrdering::Random, Vec::new());
    assert_eq!(page.get_sort_config().ordering, ArtistOrdering::Random);
}

#[test]
fn contents_ids_wrap() {
    let mut page = ArtistsPage::<()>::new();
    assert_eq!(page.begin_load(), 1);
    assert!(page.is_current(1));
    page.contents_id = 255;
    assert_eq!(page.begin_load(), 0);
    assert!(page.is_current(0));
    assert!(!page.is_current(255));
}

#[test]
fn tags_are_selected_again_in_library_order() {
    let mut page = ArtistsPage::<()>::new();
    page.artist_filters.tags = strings(&["jazz", "gone", "rock"]);
    let active = page.update_tag_filter_list(&strings(&["ambient", "rock", "jazz", "rock"]));
    assert_eq!(active, vec![false, true, true, false]);
    assert_eq!(page.artist_filters.tags, strings(&["rock", "jazz"]));
    let active = page.update_tag_filter_list(&Vec::new());
    assert!(active.is_empty());
    assert!(page.artist_filters.tags.is_empty());
}

#[test]
fn album_captions_write_the_count_in_decimal() {
    assert_eq!(albums_caption(0), "Albums: 0");
    assert_eq!(albums_caption(7), "Albums: 7");
    assert_eq!(albums_caption(10), "Albums: 10");
    assert_eq!(albums_caption(1203), "Albums: 1203");
    assert_eq!(albums_caption(u64::MAX), format!("Albums: {}", u64::MAX));
}

#[test]
fn kept_tags_match_active_toggles() {
    let mut page = ArtistsPage::<()>::new();
    page.artist_filters.tags = strings(&["x", "y", "y"]);
    let active = page.update_tag_filter_list(&strings(&["y", "z", "y", "x", "y"]));
    assert_eq!(active, vec![true, false, true, true, false]);
    assert_eq!(active.iter().filter(|b| **b).count(), page.artist_filters.tags.len());
    assert_eq!(page.artist_filters.tags, strings(&["y", "y", "x"]));
}

fn keys(stars: i64, random: u64, added: u64) -> SortKeys {
    SortKeys {
        stars,
        rating: 0,
        random,
        albums: vec![AlbumSortInfo { added, modified: 1, tags: strings(&["t"]) }],
    }
}

#[test]
fn only_the_current_load_installs_its_artists() {
    let mut page = ArtistsPage::<u8>::new();
    let first = page.begin_load();
    let second = page.begin_load();
    let items = vec![("a".to_string(), 1u64, 1u8)];
    assert!(!page.finish_load(first, artist_objects(items)));
    assert!(page.artists.is_empty());
    let items = vec![("b".to_string(), 2u64, 2u8), ("c".to_string(), 3, 3)];
    assert!(page.finish_load(second, artist_objects(items)));
    assert_eq!(page.artists.len(), 2);
    assert_eq!(page.artists[1].data.artist, "c");
}

#[test]
fn sort_fields_update_only_for_the_current_load() {
    let mut page = ArtistsPage::<u8>::new();
    let id = page.begin_load();
    page.finish_load(id, artist_objects(vec![("a".to_string(), 1u64, 1u8), ("b".to_string(), 1, 2)]));
    assert!(!page.update_sort_fields(id.wrapping_add(1), vec![keys(1, 1, 1), keys(2, 2, 2)]));
    assert_eq!(page.artists[0].data.stars, 0);
    assert!(page.update_sort_fields(id, vec![keys(1, 10, 100), keys(2, 20, 200)]));
    assert_eq!(page.artists[0].data.stars, 1);
    assert_eq!(page.artists[1].data.random, 20);
    assert_eq!(page.artists[1].data.added, 200);
    assert_eq!(page.artists[1].data.tags, strings(&["t"]));
    assert_eq!(*page.artists[1].shared_artist(), 2);
}

#[test]
fn choosing_a_sort_mode_redraws_the_keys() {
    let mut page = ArtistsPage::<()>::new();
    let id = page.begin_load();
    page.finish_load(id, artist_objects(vec![("a".to_string(), 1u64, ())]));
    page.set_sort_mode(ArtistOrdering::Random, vec![keys(0, 77, 5)]);
    assert_eq!(page.get_sort_mode().ordering, ArtistOrdering::Random);
    assert_eq!(page.artists[0].data.random, 77);
}

#[test]
fn toggling_a_tag_adds_or_removes_it() {
    let mut page = ArtistsPage::<()>::new();
    page.handle_tag_toggled("rock".to_string(), true);
    page.handle_tag_toggled("jazz".to_string(), true);
    page.handle_tag_toggled("rock".to_string(), true);
    assert_eq!(page.artist_filters.tags, strings(&["rock", "jazz"]));
    page.artist_filters.tags.push("rock".to_string());
    page.handle_tag_toggled("rock".to_string(), false);
    assert_eq!(page.artist_filters.tags, strings(&["jazz"]));
    page.handle_tag_toggled("pop".to_string(), false);
    assert_eq!(page.artist_filters.tags, strings(&["jazz"]));
}

#[test]
fn shown_artists_pass_search_and_filters() {
    let mut page = ArtistsPage::<()>::new();
    let a: ArtistObject<()> = ArtistObject::new(0, "a", 0, ());
    assert!(page.shows(true, &a));
    assert!(!page.shows(false, &a));
    page.handle_filters_changed(1, Some((0, 1)), None, 1);
    assert!(!page.shows(true, &a));
}

#[test]
fn an_empty_library_shows_the_empty_page() {
    let mut page = ArtistsPage::<u8>::new();
    let (id, empty) = page.start_load(1);
    assert!(!empty);
    page.finish_load(id, artist_objects(vec![("a".to_string(), 1u64, 1u8)]));
    let (next, empty) = page.start_load(0);
    assert!(empty);
    assert_eq!(next, id + 1);
    assert!(page.is_current(next));
    assert_eq!(page.artists.len(), 1);
    page.contents_id = 255;
    assert_eq!(page.start_load(3), (0, false));
}
