//! Artists as the artists page lists them: their sort keys, the orderings the
//! page sorts them by, and the filters it shows them through.
//!
//! The fractional quantities of an artist (search rank, star rating, sort
//! rating, play count) are held as the signed keys that `f64::total_cmp`
//! orders floating-point numbers by: two numbers compare with `total_cmp`
//! exactly as their keys compare as integers.
use vstd::prelude::*;
use crate::order::{
    Order, bytes_order, compare_i64, compare_text, compare_u32, compare_u64, int_order,
    lemma_bytes_order_antisymmetric, lemma_bytes_order_equal, text_order,
};
use crate::text::same_text;
use crate::ui::{FilterMode, SortConfig};

verus! {

/// The orderings of the artists page.
#[derive(Clone, Copy, Debug, PartialEq, Eq, Structural)]
pub enum ArtistOrdering {
    Default,
    Rating,
    PlayCount,
    Added,
    Modified,
    Random,
}

impl ArtistOrdering {
    /// The name of an ordering, as settings store it.
    pub open spec fn name(self) -> Seq<char> {
        match self {
            ArtistOrdering::Default => "Default"@,
            ArtistOrdering::Rating => "Rating"@,
            ArtistOrdering::PlayCount => "Play Count"@,
            ArtistOrdering::Added => "Added"@,
            ArtistOrdering::Modified => "Modified"@,
            ArtistOrdering::Random => "Random"@,
        }
    }

    /// The ordering with the given name, if there is one.
    pub open spec fn named(s: Seq<char>) -> Option<ArtistOrdering> {
        if s == "Default"@ {
            Some(ArtistOrdering::Default)
        } else if s == "Rating"@ {
            Some(ArtistOrdering::Rating)
        } else if s == "Play Count"@ {
            Some(ArtistOrdering::PlayCount)
        } else if s == "Added"@ {
            Some(ArtistOrdering::Added)
        } else if s == "Modified"@ {
            Some(ArtistOrdering::Modified)
        } else if s == "Random"@ {
            Some(ArtistOrdering::Random)
        } else {
            None
        }
    }

    pub fn to_str(self) -> (r: &'static str)
        ensures
            r@ == self.name(),
    {
        match self {
            ArtistOrdering::Default => "Default",
            ArtistOrdering::Rating => "Rating",
            ArtistOrdering::PlayCount => "Play Count",
            ArtistOrdering::Added => "Added",
            ArtistOrdering::Modified => "Modified",
            ArtistOrdering::Random => "Random",
        }
    }

    /// The ordering that `value` names; `None` where it names none.
    pub fn parse(value: &str) -> (r: Option<ArtistOrdering>)
        ensures
            r == ArtistOrdering::named(value@),
    {
        if same_text(value, "Default") {
            Some(ArtistOrdering::Default)
        } else if same_text(value, "Rating") {
            Some(ArtistOrdering::Rating)
        } else if same_text(value, "Play Count") {
            Some(ArtistOrdering::PlayCount)
        } else if same_text(value, "Added") {
            Some(ArtistOrdering::Added)
        } else if same_text(value, "Modified") {
            Some(ArtistOrdering::Modified)
        } else if same_text(value, "Random") {
            Some(ArtistOrdering::Random)
        } else {
            None
        }
    }

    /// The ordering that `value` names, which must be one of the six names.
    pub fn from(value: &str) -> (r: ArtistOrdering)
        requires
            ArtistOrdering::named(value@) is Some,
        ensures
            Some(r) == ArtistOrdering::named(value@),
            r.name() == value@,
    {
        proof {
            lemma_named_name(value@);
        }
        match ArtistOrdering::parse(value) {
            Some(o) => o,
            None => ArtistOrdering::Default,
        }
    }
}

/// An ordering is found again from its name.
pub proof fn lemma_name_named(o: ArtistOrdering)
    ensures
        ArtistOrdering::named(o.name()) == Some(o),
{
    reveal_strlit("Default");
    reveal_strlit("Rating");
    reveal_strlit("Play Count");
    reveal_strlit("Added");
    reveal_strlit("Modified");
    reveal_strlit("Random");
    let d = "Default"@;
    let r = "Rating"@;
    let p = "Play Count"@;
    let a = "Added"@;
    let m = "Modified"@;
    let x = "Random"@;
    assert(d[0] != r[0] && d[0] != p[0] && d[0] != a[0] && d[0] != m[0] && d[0] != x[0]);
    assert(r[0] != p[0] && r[0] != a[0] && r[0] != m[0] && r[2] != x[2]);
    assert(p[0] != a[0] && p[0] != m[0] && p[0] != x[0]);
    assert(a[0] != m[0] && a[0] != x[0]);
    assert(m[0] != x[0]);
}

/// A name that names an ordering is that ordering's name.
pub proof fn lemma_named_name(s: Seq<char>)
    ensures
        ArtistOrdering::named(s) matches Some(o) ==> o.name() == s,
{
}

/// The sort keys and tags of an artist. `rank`, `stars`, `rating` and
/// `played` hold total-order keys of the page's floating-point values.
#[derive(Debug)]
pub struct ArtistData {
    pub index: u32,
    pub artist: String,
    pub albums: u64,
    pub rank: i64,
    /// Stars rating (0 if unassigned)
    pub stars: i64,
    /// Rating with a fallback value (3 if unassigned, used for sorting)
    pub rating: i64,
    pub played: i64,
    pub modified: u64,
    pub added: u64,
    pub random: u64,
    pub tags: Vec<String>,
}

/// An artist of the artists page, with the handle to the library's artist
/// that it shows.
pub struct ArtistObject<S> {
    pub data: ArtistData,
    pub shared_artist: S,
}

/// Most played first; then by position.
pub open spec fn most_played_order(a: ArtistData, b: ArtistData) -> Order {
    int_order(b.played as int, a.played as int).spec_chain(int_order(a.index as int, b.index as int))
}

/// Best rated first; then most played.
pub open spec fn best_rating_order(a: ArtistData, b: ArtistData) -> Order {
    int_order(b.rating as int, a.rating as int).spec_chain(most_played_order(a, b))
}

/// The order of two artists under one ordering, before the search rank and
/// the direction are applied.
pub open spec fn ordering_order(a: ArtistData, b: ArtistData, o: ArtistOrdering) -> Order {
    match o {
        ArtistOrdering::Default => text_order(a.artist@, b.artist@),
        ArtistOrdering::PlayCount => most_played_order(a, b),
        ArtistOrdering::Rating => best_rating_order(a, b),
        ArtistOrdering::Added => int_order(b.added as int, a.added as int).spec_chain(
            int_order(a.index as int, b.index as int),
        ),
        ArtistOrdering::Modified => int_order(b.modified as int, a.modified as int).spec_chain(
            int_order(a.index as int, b.index as int),
        ),
        ArtistOrdering::Random => int_order(b.random as int, a.random as int),
    }
}

/// The order of two artists on the page: best search rank first, then the
/// chosen ordering; all of it reversed where the configuration says so.
pub open spec fn artist_order(a: ArtistData, b: ArtistData, c: SortConfig<ArtistOrdering>) -> Order {
    let ord = int_order(b.rank as int, a.rank as int).spec_chain(ordering_order(a, b, c.ordering));
    if c.reversed {
        ord.spec_reverse()
    } else {
        ord
    }
}

impl<S> ArtistObject<S> {
    /// An artist at position `index`, with its name and album count; its
    /// other keys are zero and it has no tags.
    pub fn new(index: u32, artist: &str, albums: u64, shared_artist: S) -> (r: Self)
        ensures
            r.data.index == index,
            r.data.artist@ == artist@,
            r.data.albums == albums,
            r.data.rank == 0 && r.data.stars == 0 && r.data.rating == 0 && r.data.played == 0,
            r.data.modified == 0 && r.data.added == 0 && r.data.random == 0,
            r.data.tags@.len() == 0,
            r.shared_artist == shared_artist,
    {
        ArtistObject {
            data: ArtistData {
                index,
                artist: String::from_str(artist),
                albums,
                rank: 0,
                stars: 0,
                rating: 0,
                played: 0,
                modified: 0,
                added: 0,
                random: 0,
                tags: Vec::new(),
            },
            shared_artist,
        }
    }

    /// The library's artist that this one shows.
    pub fn shared_artist(&self) -> (r: &S)
        ensures
            *r == self.shared_artist,
    {
        &self.shared_artist
    }

    fn cmp_artist(&self, other: &Self) -> (r: Order)
        ensures
            r == text_order(self.data.artist@, other.data.artist@),
    {
        compare_text(self.data.artist.as_str(), other.data.artist.as_str())
    }

    fn cmp_most_played(&self, other: &Self) -> (r: Order)
        ensures
            r == most_played_order(self.data, other.data),
    {
        compare_i64(other.data.played, self.data.played).chain(
            compare_u32(self.data.index, other.data.index),
        )
    }

    fn cmp_best_rating(&self, other: &Self) -> (r: Order)
        ensures
            r == best_rating_order(self.data, other.data),
    {
        compare_i64(other.data.rating, self.data.rating).chain(self.cmp_most_played(other))
    }

    fn cmp_added_newer(&self, other: &Self) -> (r: Order)
        ensures
            r == ordering_order(self.data, other.data, ArtistOrdering::Added),
    {
        compare_u64(other.data.added, self.data.added).chain(
            compare_u32(self.data.index, other.data.index),
        )
    }

    fn cmp_modified_newer(&self, other: &Self) -> (r: Order)
        ensures
            r == ordering_order(self.data, other.data, ArtistOrdering::Modified),
    {
        compare_u64(other.data.modified, self.data.modified).chain(
            compare_u32(self.data.index, other.data.index),
        )
    }

    fn cmp_random(&self, other: &Self) -> (r: Order)
        ensures
            r == ordering_order(self.data, other.data, ArtistOrdering::Random),
    {
        compare_u64(other.data.random, self.data.random)
    }

    /// The order of `self` before `other` on the page, sorted as `order_by` says.
    pub fn order_cmp(&self, other: &Self, order_by: SortConfig<ArtistOrdering>) -> (r: Order)
        ensures
            r == artist_order(self.data, other.data, order_by),
    {
        let ord = match compare_i64(other.data.rank, self.data.rank) {
            Order::Equal => match order_by.ordering {
                ArtistOrdering::Default => self.cmp_artist(other),
                ArtistOrdering::PlayCount => self.cmp_most_played(other),
                ArtistOrdering::Rating => self.cmp_best_rating(other),
                ArtistOrdering::Added => self.cmp_added_newer(other),
                ArtistOrdering::Modified => self.cmp_modified_newer(other),
                ArtistOrdering::Random => self.cmp_random(other),
            },
            ordering => ordering,
        };
        if order_by.reversed {
            return ord.reverse();
        }
        ord
    }
}

/// The artists of a page built from the library's list: each at its position
/// (as a `u32`), with the name, album count and handle given there, and no
/// other keys set.
pub fn artist_objects<S>(items: Vec<(String, u64, S)>) -> (r: Vec<ArtistObject<S>>)
    ensures
        r@.len() == items@.len(),
        forall|k: int|
            0 <= k < r@.len() ==> {
                &&& (#[trigger] r@[k]).data.index == k as u32
                &&& r@[k].data.artist@ == items@[k].0@
                &&& r@[k].data.albums == items@[k].1
                &&& r@[k].shared_artist == items@[k].2
                &&& r@[k].data.rank == 0 && r@[k].data.stars == 0 && r@[k].data.rating == 0
                &&& r@[k].data.played == 0 && r@[k].data.modified == 0 && r@[k].data.added == 0
                &&& r@[k].data.random == 0 && r@[k].data.tags@.len() == 0
            },
{
    let ghost all = items@;
    let n = items.len();
    let mut items = items;
    let mut rev: Vec<(String, u64, S)> = Vec::new();
    while items.len() > 0
        invariant
            items@.len() + rev@.len() == n,
            n == all.len(),
            items@ == all.take(items@.len() as int),
            forall|j: int| 0 <= j < rev@.len() ==> #[trigger] rev@[j] == all[n - 1 - j],
        decreases items@.len(),
    {
        let ghost before = items@;
        match items.pop() {
            Some(x) => {
                assert(x == all[before.len() - 1]);
                assert(items@ =~= all.take(items@.len() as int));
                rev.push(x);
            },
            None => {},
        }
    }
    let mut out: Vec<ArtistObject<S>> = Vec::new();
    let mut i: usize = 0;
    while rev.len() > 0
        invariant
            rev@.len() + i == n,
            n == all.len(),
            forall|j: int| 0 <= j < rev@.len() ==> #[trigger] rev@[j] == all[n - 1 - j],
            out@.len() == i,
            forall|k: int|
                0 <= k < i ==> {
                    &&& (#[trigger] out@[k]).data.index == k as u32
                    &&& out@[k].data.artist@ == all[k].0@
                    &&& out@[k].data.albums == all[k].1
                    &&& out@[k].shared_artist == all[k].2
                    &&& out@[k].data.rank == 0 && out@[k].data.stars == 0 && out@[k].data.rating
                        == 0
                    &&& out@[k].data.played == 0 && out@[k].data.modified == 0
                        && out@[k].data.added == 0
                    &&& out@[k].data.random == 0 && out@[k].data.tags@.len() == 0
                },
        decreases rev@.len(),
    {
        let ghost before = rev@;
        match rev.pop() {
            Some(x) => {
                assert(x == before[before.len() - 1]);
                assert(x == all[i as int]);
                let (name, albums, shared) = x;
                let a = ArtistObject::new(i as u32, name.as_str(), albums, shared);
                out.push(a);
                i = i + 1;
            },
            None => {},
        }
    }
    out
}

/// Comparing two artists the other way round gives the reversed order,
/// under every ordering and direction.
pub proof fn lemma_artist_order_antisymmetric(
    a: ArtistData,
    b: ArtistData,
    c: SortConfig<ArtistOrdering>,
)
    ensures
        artist_order(a, b, c) == artist_order(b, a, c).spec_reverse(),
{
    lemma_bytes_order_antisymmetric(
        vstd::utf8::encode_utf8(a.artist@),
        vstd::utf8::encode_utf8(b.artist@),
    );
}

/// Reversing the direction of the sort reverses the order of every two artists.
pub proof fn lemma_artist_order_reversed(a: ArtistData, b: ArtistData, o: ArtistOrdering)
    ensures
        artist_order(a, b, SortConfig { ordering: o, reversed: true }) == artist_order(
            a,
            b,
            SortConfig { ordering: o, reversed: false },
        ).spec_reverse(),
{
}

/// Under the orderings that fall back on the position (rating, play count,
/// added, modified), two artists compare `Equal` only at the same position;
/// by name, only with the same name.
pub proof fn lemma_artist_order_ties(a: ArtistData, b: ArtistData, c: SortConfig<ArtistOrdering>)
    requires
        artist_order(a, b, c) == Order::Equal,
    ensures
        a.rank == b.rank,
        c.ordering == ArtistOrdering::Default ==> a.artist@ == b.artist@,
        c.ordering != ArtistOrdering::Default && c.ordering != ArtistOrdering::Random ==> a.index
            == b.index,
        c.ordering == ArtistOrdering::Random ==> a.random == b.random,
{
    let ea = vstd::utf8::encode_utf8(a.artist@);
    let eb = vstd::utf8::encode_utf8(b.artist@);
    lemma_bytes_order_equal(ea, eb);
    if c.ordering == ArtistOrdering::Default {
        assert(ea == eb);
        vstd::utf8::encode_utf8_decode_utf8(a.artist@);
        vstd::utf8::encode_utf8_decode_utf8(b.artist@);
    }
}

/// The order of the page is transitive: where `a` comes before `b` and `b`
/// before `c` (or the pairs tie), `a` comes before `c` (or they tie).
pub proof fn lemma_artist_order_transitive(
    a: ArtistData,
    b: ArtistData,
    c: ArtistData,
    cfg: SortConfig<ArtistOrdering>,
    o: Order,
)
    requires
        artist_order(a, b, cfg) == o,
        artist_order(b, c, cfg) == o,
    ensures
        artist_order(a, c, cfg) == o,
{
    let ea = vstd::utf8::encode_utf8(a.artist@);
    let eb = vstd::utf8::encode_utf8(b.artist@);
    let ec = vstd::utf8::encode_utf8(c.artist@);
    lemma_bytes_order_equal(ea, eb);
    lemma_bytes_order_equal(eb, ec);
    lemma_bytes_order_equal(ea, ec);
    if cfg.ordering == ArtistOrdering::Default && a.rank == b.rank && b.rank == c.rank {
        let base = if cfg.reversed {
            o.spec_reverse()
        } else {
            o
        };
        assert(bytes_order(ea, eb) == base);
        assert(bytes_order(eb, ec) == base);
        if base != Order::Equal {
            crate::order::lemma_bytes_order_transitive(ea, eb, ec, base);
        }
    }
}

/// Draws the random sort key of an artist with `fastrand::u64` over
/// `low..high`, from the thread's generator; every draw lies in that range.
#[verifier::external_body]
fn random_u64(low: u64, high: u64) -> (r: u64)
    requires
        low < high,
    ensures
        low <= r < high,
{
    fastrand::u64(low..high)
}

/// What the artists page reads of an album of an artist: when its first song
/// was added and modified, and the album's tags.
#[derive(Debug)]
pub struct AlbumSortInfo {
    pub added: u64,
    pub modified: u64,
    pub tags: Vec<String>,
}

/// The earliest time at which an album was added, or `u64::MAX` for no albums.
pub open spec fn earliest_added(albums: Seq<AlbumSortInfo>) -> u64
    decreases albums.len(),
{
    if albums.len() == 0 {
        u64::MAX
    } else {
        let e = earliest_added(albums.drop_last());
        if albums.last().added < e {
            albums.last().added
        } else {
            e
        }
    }
}

/// The latest time at which an album was modified, or 0 for no albums.
pub open spec fn latest_modified(albums: Seq<AlbumSortInfo>) -> u64
    decreases albums.len(),
{
    if albums.len() == 0 {
        0
    } else {
        let l = latest_modified(albums.drop_last());
        if albums.last().modified > l {
            albums.last().modified
        } else {
            l
        }
    }
}

pub open spec fn has_tag(tags: Seq<String>, t: Seq<char>) -> bool {
    exists|i: int| 0 <= i < tags.len() && (#[trigger] tags[i])@ == t
}

/// A tag list with `t` added at its end, unless it holds `t` already.
pub open spec fn add_tag(tags: Seq<String>, t: String) -> Seq<String> {
    if has_tag(tags, t@) {
        tags
    } else {
        tags.push(t)
    }
}

pub open spec fn add_tags(tags: Seq<String>, ts: Seq<String>) -> Seq<String>
    decreases ts.len(),
{
    if ts.len() == 0 {
        tags
    } else {
        add_tag(add_tags(tags, ts.drop_last()), ts.last())
    }
}

/// The tags of the albums, each once, in the order in which they first appear.
pub open spec fn album_tags(albums: Seq<AlbumSortInfo>) -> Seq<String>
    decreases albums.len(),
{
    if albums.len() == 0 {
        seq![]
    } else {
        add_tags(album_tags(albums.drop_last()), albums.last().tags@)
    }
}

/// Whether `tags` holds a tag with the text of `t`.
pub fn contains_tag(tags: &Vec<String>, t: &String) -> (r: bool)
    ensures
        r == has_tag(tags@, t@),
{
    let mut i: usize = 0;
    while i < tags.len()
        invariant
            0 <= i <= tags@.len(),
            forall|j: int| 0 <= j < i ==> (#[trigger] tags@[j])@ != t@,
        decreases tags@.len() - i,
    {
        if tags[i] == *t {
            return true;
        }
        i = i + 1;
    }
    false
}

fn push_tags(acc: &mut Vec<String>, ts: &Vec<String>)
    ensures
        final(acc)@ == add_tags(old(acc)@, ts@),
{
    let ghost start = acc@;
    let mut i: usize = 0;
    while i < ts.len()
        invariant
            0 <= i <= ts@.len(),
            acc@ == add_tags(start, ts@.take(i as int)),
        decreases ts@.len() - i,
    {
        assert(ts@.take(i + 1).drop_last() =~= ts@.take(i as int));
        if !contains_tag(acc, &ts[i]) {
            acc.push(ts[i].clone());
        }
        i = i + 1;
    }
    assert(ts@.take(i as int) =~= ts@);
}

/// The keys of an artist after its sort fields are updated: the star rating,
/// sort rating and random keys given, the earliest added and latest modified
/// time of the albums (each kept as it was where no album gives one), the
/// tags of the albums; the other fields as they were.
pub open spec fn sort_fields_updated(
    old: ArtistData,
    new: ArtistData,
    stars: i64,
    rating: i64,
    random: u64,
    albums: Seq<AlbumSortInfo>,
) -> bool {
    &&& new.stars == stars
    &&& new.rating == rating
    &&& new.random == random
    &&& new.added == if earliest_added(albums) < u64::MAX {
        earliest_added(albums)
    } else {
        old.added
    }
    &&& new.modified == if latest_modified(albums) > 0 {
        latest_modified(albums)
    } else {
        old.modified
    }
    &&& new.tags@ == album_tags(albums)
    &&& new.index == old.index
    &&& new.artist == old.artist
    &&& new.albums == old.albums
    &&& new.rank == old.rank
    &&& new.played == old.played
}

/// The keys that the artists page reads for an artist when it updates its
/// sort fields: the star rating and sort rating keys, a drawn random key,
/// and what it reads of the artist's albums.
#[derive(Debug)]
pub struct SortKeys {
    pub stars: i64,
    pub rating: i64,
    pub random: u64,
    pub albums: Vec<AlbumSortInfo>,
}

/// A fresh random sort key, below `u64::MAX`.
pub fn draw_random_key() -> (r: u64)
    ensures
        r < u64::MAX,
{
    random_u64(0, u64::MAX)
}

impl<S> ArtistObject<S> {
    /// Sets the keys that the artists page sorts and filters by: the star
    /// rating, sort rating and random keys given, the earliest added and
    /// latest modified time of the albums (each kept as it was where no album
    /// gives one), and the tags of the albums.
    pub fn update_sort_fields(
        &mut self,
        stars: i64,
        rating: i64,
        random: u64,
        albums: &Vec<AlbumSortInfo>,
    )
        ensures
            sort_fields_updated(old(self).data, final(self).data, stars, rating, random, albums@),
            final(self).shared_artist == old(self).shared_artist,
    {
        self.data.stars = stars;
        self.data.rating = rating;
        self.data.random = random;
        let mut added: u64 = u64::MAX;
        let mut modified: u64 = 0;
        let mut tags: Vec<String> = Vec::new();
        let ghost start_added = self.data.added;
        let ghost start_modified = self.data.modified;
        let mut i: usize = 0;
        while i < albums.len()
            invariant
                0 <= i <= albums@.len(),
                added == earliest_added(albums@.take(i as int)),
                modified == latest_modified(albums@.take(i as int)),
                self.data.added == if added < u64::MAX {
                    added
                } else {
                    start_added
                },
                self.data.modified == if modified > 0 {
                    modified
                } else {
                    start_modified
                },
                tags@ == album_tags(albums@.take(i as int)),
                self.data.stars == stars,
                self.data.rating == rating,
                self.data.random == random,
                self.data.index == old(self).data.index,
                self.data.artist == old(self).data.artist,
                self.data.albums == old(self).data.albums,
                self.data.rank == old(self).data.rank,
                self.data.played == old(self).data.played,
                self.shared_artist == old(self).shared_artist,
                start_added == old(self).data.added,
                start_modified == old(self).data.modified,
            decreases albums@.len() - i,
        {
            assert(albums@.take(i + 1).drop_last() =~= albums@.take(i as int));
            let album = &albums[i];
            push_tags(&mut tags, &album.tags);
            if album.added < added {
                self.data.added = album.added;
                added = album.added;
            }
            if album.modified > modified {
                self.data.modified = album.modified;
                modified = album.modified;
            }
            i = i + 1;
        }
        assert(albums@.take(i as int) =~= albums@);
        self.data.tags = tags;
    }
}

/// The filters of the artists page. `rating` and `play_count` each hold a
/// condition (`Greater`: at least, `Less`: at most) and the total-order key
/// of the threshold it compares the star rating or play count with.
#[derive(Debug)]
pub struct ArtistFilters {
    pub filter_mode: FilterMode,
    pub rating: Option<(Order, i64)>,
    pub play_count: Option<(Order, i64)>,
    pub tag_filter_mode: FilterMode,
    pub tags: Vec<String>,
}

impl Default for ArtistFilters {
    fn default() -> (r: Self)
        ensures
            r.filter_mode == FilterMode::Exclusive,
            r.rating is None,
            r.play_count is None,
            r.tag_filter_mode == FilterMode::Exclusive,
            r.tags@.len() == 0,
    {
        ArtistFilters {
            filter_mode: FilterMode::Exclusive,
            rating: None,
            play_count: None,
            tag_filter_mode: FilterMode::Exclusive,
            tags: Vec::new(),
        }
    }
}

/// Whether a value meets a condition: it compares with the threshold as
/// equal or as the condition says.
pub open spec fn meets(value: i64, cond: (Order, i64)) -> bool {
    int_order(value as int, cond.1 as int).spec_is_eq_or(cond.0)
}

/// No condition, or a condition that the value meets.
pub open spec fn meets_if_set(value: i64, cond: Option<(Order, i64)>) -> bool {
    match cond {
        Some(c) => meets(value, c),
        None => true,
    }
}

/// A condition that is set and that the value meets.
pub open spec fn meets_set(value: i64, cond: Option<(Order, i64)>) -> bool {
    match cond {
        Some(c) => meets(value, c),
        None => false,
    }
}

/// Whether an artist's tags match the filter's tags: all of them
/// (`Exclusive`), or one of them (`Inclusive`).
pub open spec fn tags_match(wanted: Seq<String>, mode: FilterMode, tags: Seq<String>) -> bool {
    match mode {
        FilterMode::Exclusive => forall|i: int|
            0 <= i < wanted.len() ==> has_tag(tags, (#[trigger] wanted[i])@),
        FilterMode::Inclusive => exists|i: int|
            0 <= i < wanted.len() && has_tag(tags, (#[trigger] wanted[i])@),
    }
}

pub open spec fn tags_pass(f: ArtistFilters, a: ArtistData) -> bool {
    f.tags@.len() == 0 || tags_match(f.tags@, f.tag_filter_mode, a.tags@)
}

/// An artist passes the exclusive filter when it meets each condition that is
/// set, and its tags match.
pub open spec fn passes_exclusive(f: ArtistFilters, a: ArtistData) -> bool {
    meets_if_set(a.stars, f.rating) && meets_if_set(a.played, f.play_count) && tags_pass(f, a)
}

/// An artist passes the inclusive filter when no condition is set, or it
/// meets the rating condition, or it meets the play count condition and its
/// tags match.
pub open spec fn passes_inclusive(f: ArtistFilters, a: ArtistData) -> bool {
    (f.rating is None && f.play_count is None) || meets_set(a.stars, f.rating) || (meets_set(
        a.played,
        f.play_count,
    ) && tags_pass(f, a))
}

pub open spec fn passes(f: ArtistFilters, a: ArtistData) -> bool {
    match f.filter_mode {
        FilterMode::Exclusive => passes_exclusive(f, a),
        FilterMode::Inclusive => passes_inclusive(f, a),
    }
}

fn condition_met(value: i64, cond: (Order, i64)) -> (r: bool)
    ensures
        r == meets(value, cond),
{
    compare_i64(value, cond.1).is_eq_or(cond.0)
}

impl ArtistFilters {
    /// Whether the artist passes the filters, in the filter mode.
    pub fn filter<S>(&self, artist_object: &ArtistObject<S>) -> (r: bool)
        ensures
            r == passes(*self, artist_object.data),
    {
        match self.filter_mode {
            FilterMode::Exclusive => self.filter_exclusive(artist_object),
            FilterMode::Inclusive => self.filter_inclusive(artist_object),
        }
    }

    pub fn filter_exclusive<S>(&self, artist_object: &ArtistObject<S>) -> (r: bool)
        ensures
            r == passes_exclusive(*self, artist_object.data),
    {
        let a = &artist_object.data;
        let rating_ok = match self.rating {
            Some(c) => condition_met(a.stars, c),
            None => true,
        };
        let play_ok = match self.play_count {
            Some(c) => condition_met(a.played, c),
            None => true,
        };
        rating_ok && play_ok && (self.tags.len() == 0 || self.filter_tags(artist_object))
    }

    pub fn filter_inclusive<S>(&self, artist_object: &ArtistObject<S>) -> (r: bool)
        ensures
            r == passes_inclusive(*self, artist_object.data),
    {
        let a = &artist_object.data;
        let rating_ok = match self.rating {
            Some(c) => condition_met(a.stars, c),
            None => false,
        };
        let play_ok = match self.play_count {
            Some(c) => condition_met(a.played, c),
            None => false,
        };
        (self.rating.is_none() && self.play_count.is_none()) || rating_ok || (play_ok && (
        self.tags.len() == 0 || self.filter_tags(artist_object)))
    }

    /// Whether the artist's tags match the filter's tags, in the tag filter mode.
    pub fn filter_tags<S>(&self, artist_object: &ArtistObject<S>) -> (r: bool)
        ensures
            r == tags_match(self.tags@, self.tag_filter_mode, artist_object.data.tags@),
    {
        let artist_tags = &artist_object.data.tags;
        let mut i: usize = 0;
        match self.tag_filter_mode {
            FilterMode::Exclusive => {
                while i < self.tags.len()
                    invariant
                        0 <= i <= self.tags@.len(),
                        self.tag_filter_mode == FilterMode::Exclusive,
                        artist_tags@ == artist_object.data.tags@,
                        forall|j: int|
                            0 <= j < i ==> has_tag(artist_tags@, (#[trigger] self.tags@[j])@),
                    decreases self.tags@.len() - i,
                {
                    if !contains_tag(artist_tags, &self.tags[i]) {
                        assert(!has_tag(artist_tags@, self.tags@[i as int]@));
                        return false;
                    }
                    i = i + 1;
                }
                true
            },
            FilterMode::Inclusive => {
                while i < self.tags.len()
                    invariant
                        0 <= i <= self.tags@.len(),
                        self.tag_filter_mode == FilterMode::Inclusive,
                        artist_tags@ == artist_object.data.tags@,
                        forall|j: int|
                            0 <= j < i ==> !has_tag(artist_tags@, (#[trigger] self.tags@[j])@),
                    decreases self.tags@.len() - i,
                {
                    if contains_tag(artist_tags, &self.tags[i]) {
                        assert(has_tag(artist_tags@, self.tags@[i as int]@));
                        return true;
                    }
                    i = i + 1;
                }
                false
            },
        }
    }
}

/// The default filters let every artist through.
pub proof fn lemma_default_filters_pass_all(f: ArtistFilters, a: ArtistData)
    requires
        f.filter_mode == FilterMode::Exclusive,
        f.rating is None,
        f.play_count is None,
        f.tags@.len() == 0,
    ensures
        passes(f, a),
{
}

/// An artist that passes the filters in exclusive mode passes them in
/// inclusive mode too.
pub proof fn lemma_exclusive_implies_inclusive(f: ArtistFilters, a: ArtistData)
    requires
        passes_exclusive(f, a),
    ensures
        passes_inclusive(f, a),
{
}

/// Tags that match all of the wanted tags match one of them, where one is wanted.
pub proof fn lemma_all_tags_imply_any(wanted: Seq<String>, tags: Seq<String>)
    requires
        wanted.len() > 0,
        tags_match(wanted, FilterMode::Exclusive, tags),
    ensures
        tags_match(wanted, FilterMode::Inclusive, tags),
{
    assert(has_tag(tags, wanted[0]@));
}

/// The tags that an artist gets from its albums hold each tag once.
pub proof fn lemma_album_tags_distinct(albums: Seq<AlbumSortInfo>)
    ensures
        forall|i: int, j: int|
            0 <= i < j < album_tags(albums).len() ==> (#[trigger] album_tags(albums)[i])@
                != (#[trigger] album_tags(albums)[j])@,
    decreases albums.len(),
{
    if albums.len() > 0 {
        lemma_album_tags_distinct(albums.drop_last());
        lemma_add_tags_distinct(album_tags(albums.drop_last()), albums.last().tags@);
    }
}

proof fn lemma_add_tags_distinct(tags: Seq<String>, ts: Seq<String>)
    requires
        forall|i: int, j: int| 0 <= i < j < tags.len() ==> (#[trigger] tags[i])@ != (#[trigger] tags[j])@,
    ensures
        forall|i: int, j: int|
            0 <= i < j < add_tags(tags, ts).len() ==> (#[trigger] add_tags(tags, ts)[i])@
                != (#[trigger] add_tags(tags, ts)[j])@,
    decreases ts.len(),
{
    if ts.len() > 0 {
        lemma_add_tags_distinct(tags, ts.drop_last());
        let t = add_tags(tags, ts.drop_last());
        if !has_tag(t, ts.last()@) {
            assert forall|i: int, j: int|
                0 <= i < j < t.push(ts.last()).len() implies (#[trigger] t.push(ts.last())[i])@
                    != (#[trigger] t.push(ts.last())[j])@ by {
                if j == t.len() {
                    assert(t.push(ts.last())[i] == t[i]);
                } else {
                    assert(t.push(ts.last())[i] == t[i]);
                    assert(t.push(ts.last())[j] == t[j]);
                }
            }
        }
    }
}

/// The earliest added time is the least of the albums' added times (and
/// `u64::MAX` for no albums); the latest modified time is the greatest of
/// their modified times (and 0 for no albums).
pub proof fn lemma_album_times(albums: Seq<AlbumSortInfo>)
    ensures
        forall|i: int| 0 <= i < albums.len() ==> earliest_added(albums) <= (#[trigger] albums[i]).added,
        forall|i: int| 0 <= i < albums.len() ==> latest_modified(albums) >= (#[trigger] albums[i]).modified,
        albums.len() == 0 ==> earliest_added(albums) == u64::MAX && latest_modified(albums) == 0,
        albums.len() > 0 ==> exists|i: int|
            0 <= i < albums.len() && earliest_added(albums) == (#[trigger] albums[i]).added,
        albums.len() > 0 ==> exists|i: int|
            0 <= i < albums.len() && latest_modified(albums) == (#[trigger] albums[i]).modified,
    decreases albums.len(),
{
    if albums.len() > 0 {
        let t = albums.drop_last();
        lemma_album_times(t);
        assert forall|i: int| 0 <= i < t.len() implies t[i] == albums[i] by {}
        let n = albums.len() - 1;
        assert(albums[n] == albums.last());
        if t.len() > 0 {
            let j = choose|j: int| 0 <= j < t.len() && earliest_added(t) == (#[trigger] t[j]).added;
            let k = choose|k: int| 0 <= k < t.len() && latest_modified(t) == (#[trigger] t[k]).modified;
            assert(albums[j] == t[j]);
            assert(albums[k] == t[k]);
        }
    }
}

proof fn lemma_add_tags_has(tags: Seq<String>, ts: Seq<String>, t: Seq<char>)
    ensures
        has_tag(add_tags(tags, ts), t) == (has_tag(tags, t) || has_tag(ts, t)),
    decreases ts.len(),
{
    if ts.len() > 0 {
        let d = ts.drop_last();
        lemma_add_tags_has(tags, d, t);
        let a = add_tags(tags, d);
        if has_tag(ts, t) {
            let i = choose|i: int| 0 <= i < ts.len() && (#[trigger] ts[i])@ == t;
            if i < d.len() {
                assert(d[i] == ts[i]);
            } else {
                assert(ts[i] == ts.last());
                if !has_tag(a, ts.last()@) {
                    assert(a.push(ts.last())[a.len() as int] == ts.last());
                }
            }
        }
        if has_tag(d, t) {
            let i = choose|i: int| 0 <= i < d.len() && (#[trigger] d[i])@ == t;
            assert(ts[i] == d[i]);
        }
        if !has_tag(a, ts.last()@) && has_tag(a, t) {
            let i = choose|i: int| 0 <= i < a.len() && (#[trigger] a[i])@ == t;
            assert(a.push(ts.last())[i] == a[i]);
        }
        if !has_tag(a, ts.last()@) && has_tag(a.push(ts.last()), t) {
            let i = choose|i: int| 0 <= i < a.len() + 1 && (#[trigger] a.push(ts.last())[i])@ == t;
            if i < a.len() {
                assert(a.push(ts.last())[i] == a[i]);
            } else {
                assert(ts[ts.len() - 1] == ts.last());
            }
        }
    }
}

/// An artist's tags from its albums hold a tag exactly when one of its
/// albums does.
pub proof fn lemma_album_tags_union(albums: Seq<AlbumSortInfo>, t: Seq<char>)
    ensures
        has_tag(album_tags(albums), t) == exists|i: int|
            0 <= i < albums.len() && has_tag((#[trigger] albums[i]).tags@, t),
    decreases albums.len(),
{
    if albums.len() > 0 {
        let d = albums.drop_last();
        lemma_album_tags_union(d, t);
        lemma_add_tags_has(album_tags(d), albums.last().tags@, t);
        let n = albums.len() - 1;
        assert(albums[n] == albums.last());
        if exists|i: int| 0 <= i < albums.len() && has_tag((#[trigger] albums[i]).tags@, t) {
            let i = choose|i: int| 0 <= i < albums.len() && has_tag((#[trigger] albums[i]).tags@, t);
            if i < n {
                assert(d[i] == albums[i]);
            }
        }
        if exists|i: int| 0 <= i < d.len() && has_tag((#[trigger] d[i]).tags@, t) {
            let i = choose|i: int| 0 <= i < d.len() && has_tag((#[trigger] d[i]).tags@, t);
            assert(albums[i] == d[i]);
        }
    }
}

/// The page's order is a total preorder: "not after" is transitive, and
/// strictly before followed by not after (or not after followed by strictly
/// before) is strictly before.
pub proof fn lemma_artist_order_preorder(
    a: ArtistData,
    b: ArtistData,
    c: ArtistData,
    cfg: SortConfig<ArtistOrdering>,
)
    requires
        artist_order(a, b, cfg) != Order::Greater,
        artist_order(b, c, cfg) != Order::Greater,
    ensures
        artist_order(a, c, cfg) != Order::Greater,
        (artist_order(a, b, cfg) == Order::Less || artist_order(b, c, cfg) == Order::Less)
            ==> artist_order(a, c, cfg) == Order::Less,
{
    let ea = vstd::utf8::encode_utf8(a.artist@);
    let eb = vstd::utf8::encode_utf8(b.artist@);
    let ec = vstd::utf8::encode_utf8(c.artist@);
    lemma_bytes_order_equal(ea, eb);
    lemma_bytes_order_equal(eb, ec);
    lemma_bytes_order_equal(ea, ec);
    lemma_bytes_order_antisymmetric(ea, ec);
    if cfg.ordering == ArtistOrdering::Default && a.rank == b.rank && b.rank == c.rank {
        let o = if cfg.reversed {
            Order::Greater
        } else {
            Order::Less
        };
        if bytes_order(ea, eb) == o && bytes_order(eb, ec) == o {
            crate::order::lemma_bytes_order_transitive(ea, eb, ec, o);
        }
    }
}

/// What each ordering puts first, in the ascending direction: the higher
/// search rank under every ordering; at equal rank, the name earlier in byte
/// order (by name), the better sort rating and then the more played (by
/// rating), the more played (by play count), the more recently added or
/// modified (newest first), or the greater random key; ties on these keys
/// go by position, lower first (but by name and at random).
pub proof fn lemma_artist_order_keys(a: ArtistData, b: ArtistData)
    ensures
        forall|o: ArtistOrdering|
            a.rank > b.rank ==> #[trigger] artist_order(
                a,
                b,
                SortConfig { ordering: o, reversed: false },
            ) == Order::Less,
        a.rank == b.rank ==> {
            let ord = |o: ArtistOrdering| artist_order(a, b, SortConfig { ordering: o, reversed: false });
            &&& bytes_order(
                vstd::utf8::encode_utf8(a.artist@),
                vstd::utf8::encode_utf8(b.artist@),
            ) == Order::Less ==> ord(ArtistOrdering::Default) == Order::Less
            &&& a.modified > b.modified ==> ord(ArtistOrdering::Modified) == Order::Less
            &&& a.modified == b.modified && a.index < b.index ==> ord(ArtistOrdering::Modified)
                == Order::Less
            &&& a.added > b.added ==> ord(ArtistOrdering::Added) == Order::Less
            &&& a.added == b.added && a.index < b.index ==> ord(ArtistOrdering::Added)
                == Order::Less
            &&& a.played > b.played ==> ord(ArtistOrdering::PlayCount) == Order::Less
            &&& a.played == b.played && a.index < b.index ==> ord(ArtistOrdering::PlayCount)
                == Order::Less
            &&& a.rating > b.rating ==> ord(ArtistOrdering::Rating) == Order::Less
            &&& a.rating == b.rating && a.played > b.played ==> ord(ArtistOrdering::Rating)
                == Order::Less
            &&& a.rating == b.rating && a.played == b.played && a.index < b.index ==> ord(
                ArtistOrdering::Rating,
            ) == Order::Less
            &&& a.random > b.random ==> ord(ArtistOrdering::Random) == Order::Less
        },
{
}

/// Every wanted tag is the text of one of the artist's tags.
pub open spec fn holds_every(wanted: Seq<String>, tags: Seq<String>) -> bool {
    forall|i: int| 0 <= i < wanted.len() ==> has_tag(tags, (#[trigger] wanted[i])@)
}

/// Some wanted tag is the text of one of the artist's tags.
pub open spec fn holds_some(wanted: Seq<String>, tags: Seq<String>) -> bool {
    exists|i: int, j: int|
        0 <= i < wanted.len() && 0 <= j < tags.len() && (#[trigger] wanted[i])@ == (#[trigger] tags[j])@
}

/// With no rating or play count condition, the exclusive filter passes an
/// artist exactly when no tags are wanted, or its tags hold every wanted tag
/// (exclusive tag mode) or one of them (inclusive tag mode).
pub proof fn lemma_exclusive_filter_tags(f: ArtistFilters, a: ArtistData)
    requires
        f.filter_mode == FilterMode::Exclusive,
        f.rating is None,
        f.play_count is None,
    ensures
        f.tag_filter_mode == FilterMode::Inclusive ==> passes(f, a) == (f.tags@.len() == 0
            || holds_some(f.tags@, a.tags@)),
        f.tag_filter_mode == FilterMode::Exclusive ==> passes(f, a) == (f.tags@.len() == 0
            || holds_every(f.tags@, a.tags@)),
{
    if f.tag_filter_mode == FilterMode::Inclusive {
        if holds_some(f.tags@, a.tags@) {
            let (i, j) = choose|i: int, j: int|
                0 <= i < f.tags@.len() && 0 <= j < a.tags@.len() && (#[trigger] f.tags@[i])@
                    == (#[trigger] a.tags@[j])@;
            assert(has_tag(a.tags@, f.tags@[i]@));
        }
        if tags_match(f.tags@, f.tag_filter_mode, a.tags@) {
            let i = choose|i: int| 0 <= i < f.tags@.len() && has_tag(a.tags@, (#[trigger] f.tags@[i])@);
            let j = choose|j: int| 0 <= j < a.tags@.len() && (#[trigger] a.tags@[j])@ == f.tags@[i]@;
            assert(f.tags@[i]@ == a.tags@[j]@);
        }
    }
}

/// A filter condition on a value and a threshold key: the value equals the
/// threshold, or exceeds it under "at least" (`Greater`), or falls below it
/// under "at most" (`Less`).
pub proof fn lemma_meets(value: i64, cond: (Order, i64))
    ensures
        meets(value, cond) == (value == cond.1 || (cond.0 == Order::Greater && value > cond.1) || (
        cond.0 == Order::Less && value < cond.1)),
{
}

/// The inclusive filter passes every artist where no condition is set, and
/// an artist that meets a set rating condition; where the rating condition is
/// set and unmet and no play count condition is set, it passes none.
pub proof fn lemma_inclusive_filter(f: ArtistFilters, a: ArtistData)
    requires
        f.filter_mode == FilterMode::Inclusive,
    ensures
        f.rating is None && f.play_count is None ==> passes(f, a),
        f.rating matches Some(c) && (a.stars == c.1 || (c.0 == Order::Greater && a.stars > c.1) || (
        c.0 == Order::Less && a.stars < c.1)) ==> passes(f, a),
        f.rating matches Some(c) && !(a.stars == c.1 || (c.0 == Order::Greater && a.stars > c.1)
            || (c.0 == Order::Less && a.stars < c.1)) && f.play_count is None ==> !passes(f, a),
{
}

} // verus!
