use mellow_ui::artist::{
    artist_objects, draw_random_key, AlbumSortInfo, ArtistFilters, ArtistObject, ArtistOrdering,
};
use mellow_ui::order::Order;
use mellow_ui::ui::{FilterMode, SortConfig};

/// The key by which `f64::total_cmp` orders a number.
fn key(x: f64) -> i64 {
    let mut left = x.to_bits() as i64;
    left ^= (((left >> 63) as u64) >> 1) as i64;
    left
}

fn artist(index: u32, name: &str) -> ArtistObject<()> {
    ArtistObject::new(index, name, 1, ())
}

fn strings(v: &[&str]) -> Vec<String> {
    v.iter().map(|s| s.to_string()).collect()
}

#[test]
fn keys_order_as_total_cmp() {
    let xs = [-1.5, -0.0, 0.0, 0.01, 3.0, 4.5, f64::INFINITY, f64::NEG_INFINITY];
    for a in xs {
        for b in xs {
            assert_eq!(a.total_cmp(&b), key(a).cmp(&key(b)));
        }
    }
}

#[test]
fn ordering_names_round_trip() {
    let all = [
        ArtistOrdering::Default,
        ArtistOrdering::Rating,
        ArtistOrdering::PlayCount,
        ArtistOrdering::Added,
        ArtistOrdering::Modified,
        ArtistOrdering::Random,
    ];
    let names = ["Default", "Rating", "Play Count", "Added", "Modified", "Random"];
    for (o, n) in all.iter().zip(names.iter()) {
        assert_eq!(o.to_str(), *n);
        assert_eq!(ArtistOrdering::parse(n), Some(*o));
        assert_eq!(ArtistOrdering::from(n), *o);
    }
    assert_eq!(ArtistOrdering::parse("PlayCount"), None);
    assert_eq!(ArtistOrdering::parse("default"), None);
    assert_eq!(ArtistOrdering::parse(""), None);
}

#[test]
fn new_artist_has_zero_keys() {
    let a = ArtistObject::new(7, "Björk", 3, 42u32);
    assert_eq!(a.data.index, 7);
    assert_eq!(a.data.artist, "Björk");
    assert_eq!(a.data.albums, 3);
    assert_eq!((a.data.rank, a.data.stars, a.data.rating, a.data.played), (0, 0, 0, 0));
    assert_eq!((a.data.added, a.data.modified, a.data.random), (0, 0, 0));
    assert!(a.data.tags.is_empty());
    assert_eq!(*a.shared_artist(), 42);
}

#[test]
fn rank_comes_first_then_name() {
    let cfg = SortConfig::new(ArtistOrdering::Default, false);
    let mut a = artist(0, "Zappa");
    let mut b = artist(1, "ABBA");
    assert_eq!(a.order_cmp(&b, cfg), Order::Greater);
    assert_eq!(b.order_cmp(&a, cfg), Order::Less);
    a.data.rank = key(0.9);
    b.data.rank = key(0.5);
    assert_eq!(a.order_cmp(&b, cfg), Order::Less);
    let rev = SortConfig::new(ArtistOrdering::Default, true);
    assert_eq!(a.order_cmp(&b, rev), Order::Greater);
    let c = artist(2, "ABBA");
    assert_eq!(artist(3, "ABBA").order_cmp(&c, cfg), Order::Equal);
    // byte order: upper case before lower case, and a prefix first
    assert_eq!(artist(0, "abba").order_cmp(&artist(1, "ABBA"), cfg), Order::Greater);
    assert_eq!(artist(0, "AB").order_cmp(&artist(1, "ABBA"), cfg), Order::Less);
    assert_eq!(artist(0, "Ö").order_cmp(&artist(1, "Z"), cfg), Order::Greater);
}

#[test]
fn play_count_and_rating_orders() {
    let mut a = artist(0, "a");
    let mut b = artist(1, "b");
    a.data.played = key(3.0);
    b.data.played = key(10.0);
    let by_plays = SortConfig::new(ArtistOrdering::PlayCount, false);
    assert_eq!(a.order_cmp(&b, by_plays), Order::Greater);
    b.data.played = key(3.0);
    assert_eq!(a.order_cmp(&b, by_plays), Order::Less);
    let by_rating = SortConfig::new(ArtistOrdering::Rating, false);
    a.data.rating = key(2.0);
    b.data.rating = key(4.5);
    assert_eq!(a.order_cmp(&b, by_rating), Order::Greater);
    b.data.rating = key(2.0);
    b.data.played = key(5.0);
    assert_eq!(a.order_cmp(&b, by_rating), Order::Greater);
    assert_eq!(b.order_cmp(&a, by_rating), Order::Less);
}

#[test]
fn newest_first_then_position() {
    let mut a = artist(0, "a");
    let mut b = artist(1, "b");
    a.data.added = 100;
    b.data.added = 200;
    a.data.modified = 50;
    b.data.modified = 50;
    let added = SortConfig::new(ArtistOrdering::Added, false);
    let modified = SortConfig::new(ArtistOrdering::Modified, false);
    assert_eq!(a.order_cmp(&b, added), Order::Greater);
    assert_eq!(a.order_cmp(&b, modified), Order::Less);
    assert_eq!(a.order_cmp(&b, SortConfig::new(ArtistOrdering::Modified, true)), Order::Greater);
    a.data.random = 9;
    b.data.random = 9;
    assert_eq!(a.order_cmp(&b, SortConfig::new(ArtistOrdering::Random, false)), Order::Equal);
    b.data.random = 10;
    assert_eq!(a.order_cmp(&b, SortConfig::new(ArtistOrdering::Random, false)), Order::Greater);
}

#[test]
fn update_sort_fields_reads_albums() {
    let mut a = artist(0, "a");
    a.data.added = 77;
    a.data.modified = 88;
    let albums = vec![
        AlbumSortInfo { added: 500, modified: 10, tags: strings(&["rock", "live"]) },
        AlbumSortInfo { added: 300, modified: 40, tags: strings(&["live", "jazz"]) },
        AlbumSortInfo { added: 400, modified: 20, tags: strings(&["rock"]) },
    ];
    a.update_sort_fields(key(4.0), key(3.5), 99, &albums);
    assert_eq!(a.data.stars, key(4.0));
    assert_eq!(a.data.rating, key(3.5));
    assert_eq!(a.data.added, 300);
    assert_eq!(a.data.modified, 40);
    assert_eq!(a.data.tags, strings(&["rock", "live", "jazz"]));
    assert_eq!(a.data.random, 99);
}

#[test]
fn update_sort_fields_keeps_keys_without_albums() {
    let mut a = artist(0, "a");
    a.data.added = 77;
    a.data.modified = 88;
    a.data.tags = strings(&["old"]);
    a.update_sort_fields(key(0.0), key(3.0), 5, &Vec::new());
    assert_eq!((a.data.added, a.data.modified), (77, 88));
    assert!(a.data.tags.is_empty());
    // albums that give no earlier time and no later time keep the keys too
    let albums = vec![AlbumSortInfo { added: u64::MAX, modified: 0, tags: Vec::new() }];
    a.update_sort_fields(key(0.0), key(3.0), 6, &albums);
    assert_eq!((a.data.added, a.data.modified), (77, 88));
}

#[test]
fn random_keys_are_drawn_again() {
    let mut seen = std::collections::HashSet::new();
    for _ in 0..20 {
        let r = draw_random_key();
        assert!(r < u64::MAX);
        seen.insert(r);
    }
    assert!(seen.len() > 1);
}

fn rated(stars: f64, played: f64, tags: &[&str]) -> ArtistObject<()> {
    let mut a = artist(0, "a");
    a.data.stars = key(stars);
    a.data.played = key(played);
    a.data.tags = strings(tags);
    a
}

#[test]
fn default_filters_pass_everything() {
    let f = ArtistFilters::default();
    assert_eq!(f.filter_mode, FilterMode::Exclusive);
    assert!(f.filter(&rated(0.0, 0.0, &[])));
    assert!(f.filter(&rated(5.0, 100.0, &["x"])));
}

#[test]
fn exclusive_filters_need_every_condition() {
    let f = ArtistFilters {
        filter_mode: FilterMode::Exclusive,
        rating: Some((Order::Greater, key(3.0))),
        play_count: Some((Order::Less, key(10.0))),
        tag_filter_mode: FilterMode::Exclusive,
        tags: strings(&["rock", "live"]),
    };
    assert!(f.filter(&rated(3.0, 10.0, &["live", "rock", "x"])));
    assert!(!f.filter(&rated(2.5, 10.0, &["live", "rock"])));
    assert!(!f.filter(&rated(4.0, 11.0, &["live", "rock"])));
    assert!(!f.filter(&rated(4.0, 1.0, &["rock"])));
    assert!(f.filter_exclusive(&rated(4.0, 1.0, &["rock", "live"])));
}

#[test]
fn inclusive_filters_need_one_condition() {
    let mut f = ArtistFilters {
        filter_mode: FilterMode::Inclusive,
        rating: Some((Order::Greater, key(3.0))),
        play_count: Some((Order::Greater, key(10.0))),
        tag_filter_mode: FilterMode::Inclusive,
        tags: strings(&["rock"]),
    };
    // the rating alone lets an artist through, whatever its tags
    assert!(f.filter(&rated(3.0, 0.0, &[])));
    // the play count lets it through only together with the tags
    assert!(f.filter(&rated(1.0, 20.0, &["rock"])));
    assert!(!f.filter(&rated(1.0, 20.0, &["pop"])));
    assert!(!f.filter(&rated(1.0, 1.0, &["rock"])));
    // with no condition set, every artist passes
    f.rating = None;
    f.play_count = None;
    assert!(f.filter_inclusive(&rated(0.0, 0.0, &["pop"])));
}

#[test]
fn tag_filter_modes() {
    let mut f = ArtistFilters::default();
    f.tags = strings(&["a", "b"]);
    f.tag_filter_mode = FilterMode::Exclusive;
    assert!(f.filter_tags(&rated(0.0, 0.0, &["b", "a"])));
    assert!(!f.filter_tags(&rated(0.0, 0.0, &["a"])));
    f.tag_filter_mode = FilterMode::Inclusive;
    assert!(f.filter_tags(&rated(0.0, 0.0, &["a"])));
    assert!(!f.filter_tags(&rated(0.0, 0.0, &["c"])));
    f.tags.clear();
    assert!(!f.filter_tags(&rated(0.0, 0.0, &["c"])));
    f.tag_filter_mode = FilterMode::Exclusive;
    assert!(f.filter_tags(&rated(0.0, 0.0, &["c"])));
}

#[test]
fn order_is_antisymmetric_and_transitive_on_samples() {
    let mut xs = Vec::new();
    for (i, (name, plays, rank)) in [("b", 3.0, 0.5), ("a", 3.0, 0.5), ("c", 1.0, 0.9), ("a", 7.0, 0.5)]
        .iter()
        .enumerate()
    {
        let mut a = artist(i as u32, name);
        a.data.played = key(*plays);
        a.data.rank = key(*rank);
        a.data.added = (i as u64) % 2;
        xs.push(a);
    }
    for ordering in [ArtistOrdering::Default, ArtistOrdering::PlayCount, ArtistOrdering::Added] {
        for reversed in [false, true] {
            let cfg = SortConfig::new(ordering, reversed);
            for a in &xs {
                for b in &xs {
                    assert_eq!(a.order_cmp(b, cfg), b.order_cmp(a, cfg).reverse());
                    for c in &xs {
                        let (ab, bc) = (a.order_cmp(b, cfg), b.order_cmp(c, cfg));
                        if ab == bc {
                            assert_eq!(a.order_cmp(c, cfg), ab);
                        }
                    }
                }
            }
        }
    }
}

#[test]
fn exclusive_acceptance_implies_inclusive_acceptance() {
    let mut f = ArtistFilters {
        filter_mode: FilterMode::Exclusive,
        rating: None,
        play_count: Some((Order::Greater, key(2.0))),
        tag_filter_mode: FilterMode::Exclusive,
        tags: strings(&["a"]),
    };
    let a = rated(1.0, 5.0, &["a"]);
    assert!(f.filter_exclusive(&a));
    assert!(f.filter_inclusive(&a));
    f.rating = Some((Order::Less, key(0.5)));
    assert!(!f.filter_exclusive(&a));
}

#[test]
fn artists_are_built_at_their_positions() {
    let items = vec![
        ("Zappa".to_string(), 12u64, 'z'),
        ("ABBA".to_string(), 9, 'a'),
        ("Can".to_string(), 0, 'c'),
    ];
    let xs = artist_objects(items);
    assert_eq!(xs.len(), 3);
    for (i, (name, albums, handle)) in [("Zappa", 12u64, 'z'), ("ABBA", 9, 'a'), ("Can", 0, 'c')]
        .iter()
        .enumerate()
    {
        assert_eq!(xs[i].data.index, i as u32);
        assert_eq!(xs[i].data.artist, *name);
        assert_eq!(xs[i].data.albums, *albums);
        assert_eq!(*xs[i].shared_artist(), *handle);
        assert_eq!(xs[i].data.random, 0);
    }
    assert!(artist_objects::<()>(Vec::new()).is_empty());
}
