//! The state of the artists page and the decisions it takes on the events of
//! its widgets: search, filters, sort order, shuffle, and the tag list.
use vstd::prelude::*;
use crate::artist::{
    ArtistFilters, ArtistObject, ArtistOrdering, SortKeys, add_tag, contains_tag, has_tag, passes,
    sort_fields_updated,
};
use crate::order::Order;
use crate::text::{decimal_text, push_decimal};
use crate::ui::{FilterMode, SortConfig};

verus! {

/// The filter mode that a toggle group selects: the first entry is
/// inclusive, the second exclusive.
pub open spec fn spec_filter_mode_at(active: u32) -> FilterMode {
    if active == 0 {
        FilterMode::Inclusive
    } else {
        FilterMode::Exclusive
    }
}

pub fn filter_mode_at(active: u32) -> (r: FilterMode)
    requires
        active < 2,
    ensures
        r == spec_filter_mode_at(active),
{
    if active == 0 {
        FilterMode::Inclusive
    } else {
        FilterMode::Exclusive
    }
}

/// The condition that a drop-down selects: the first entry is "at least"
/// (`Greater`), the second "at most" (`Less`).
pub open spec fn spec_condition_at(selected: u32) -> Order {
    if selected == 0 {
        Order::Greater
    } else {
        Order::Less
    }
}

pub fn condition_at(selected: u32) -> (r: Order)
    requires
        selected < 2,
    ensures
        r == spec_condition_at(selected),
{
    if selected == 0 {
        Order::Greater
    } else {
        Order::Less
    }
}

pub open spec fn spec_condition_of(c: Option<(u32, i64)>) -> Option<(Order, i64)> {
    match c {
        Some((s, k)) => Some((spec_condition_at(s), k)),
        None => None,
    }
}

fn condition_of(c: Option<(u32, i64)>) -> (r: Option<(Order, i64)>)
    requires
        c matches Some((s, k)) ==> s < 2,
    ensures
        r == spec_condition_of(c),
{
    match c {
        Some((s, k)) => Some((condition_at(s), k)),
        None => None,
    }
}

/// The position of the first tag in `sel` with the text `t`.
pub open spec fn find_tag(sel: Seq<String>, t: Seq<char>) -> Option<int>
    decreases sel.len(),
{
    if sel.len() == 0 {
        None
    } else if sel[0]@ == t {
        Some(0)
    } else {
        match find_tag(sel.drop_first(), t) {
            Some(i) => Some(i + 1),
            None => None,
        }
    }
}

/// Selecting the library's tags again from an earlier selection: for each
/// library tag in order, whether it was selected; and the selected tags that
/// are kept, in the order of the library's tags. A selected tag is taken
/// (once) by the first library tag with its text.
pub open spec fn reselect(global: Seq<String>, sel: Seq<String>) -> (Seq<bool>, Seq<String>)
    decreases global.len(),
{
    if global.len() == 0 {
        (seq![], seq![])
    } else {
        match find_tag(sel, global[0]@) {
            Some(i) => {
                let rest = reselect(global.drop_first(), sel.remove(i));
                (seq![true] + rest.0, seq![sel[i]] + rest.1)
            },
            None => {
                let rest = reselect(global.drop_first(), sel);
                (seq![false] + rest.0, rest.1)
            },
        }
    }
}

proof fn lemma_find_tag(sel: Seq<String>, t: Seq<char>)
    ensures
        match find_tag(sel, t) {
            Some(i) => 0 <= i < sel.len() && sel[i]@ == t && forall|j: int|
                0 <= j < i ==> (#[trigger] sel[j])@ != t,
            None => forall|j: int| 0 <= j < sel.len() ==> (#[trigger] sel[j])@ != t,
        },
    decreases sel.len(),
{
    if sel.len() > 0 && sel[0]@ != t {
        lemma_find_tag(sel.drop_first(), t);
        assert forall|j: int| 1 <= j < sel.len() implies sel[j] == sel.drop_first()[j - 1] by {}
    }
}

proof fn lemma_find_tag_at(sel: Seq<String>, t: Seq<char>, i: int)
    requires
        0 <= i <= sel.len(),
        forall|j: int| 0 <= j < i ==> (#[trigger] sel[j])@ != t,
        i < sel.len() ==> sel[i]@ == t,
    ensures
        find_tag(sel, t) == if i < sel.len() {
            Some(i)
        } else {
            None::<int>
        },
{
    lemma_find_tag(sel, t);
    match find_tag(sel, t) {
        Some(k) => {
            if k < i {
                assert(sel[k]@ != t);
            }
            if k > i {
                assert(sel[i]@ != t);
            }
        },
        None => {
            if i < sel.len() {
                assert(sel[i]@ != t);
            }
        },
    }
}

/// The number of `true` entries.
pub open spec fn count_true(s: Seq<bool>) -> nat
    decreases s.len(),
{
    if s.len() == 0 {
        0
    } else {
        (if s[0] {
            1nat
        } else {
            0nat
        }) + count_true(s.drop_first())
    }
}

/// Every library tag gets one toggle state, and as many tags are kept as
/// toggles are active.
pub proof fn lemma_reselect_counts(global: Seq<String>, sel: Seq<String>)
    ensures
        reselect(global, sel).0.len() == global.len(),
        count_true(reselect(global, sel).0) == reselect(global, sel).1.len(),
    decreases global.len(),
{
    if global.len() > 0 {
        match find_tag(sel, global[0]@) {
            Some(i) => {
                lemma_reselect_counts(global.drop_first(), sel.remove(i));
                let rest = reselect(global.drop_first(), sel.remove(i));
                assert((seq![true] + rest.0).drop_first() =~= rest.0);
            },
            None => {
                lemma_reselect_counts(global.drop_first(), sel);
                let rest = reselect(global.drop_first(), sel);
                assert((seq![false] + rest.0).drop_first() =~= rest.0);
            },
        }
    }
}

/// No two tags with the same text.
pub open spec fn distinct_names(g: Seq<String>) -> bool {
    forall|i: int, j: int| 0 <= i < j < g.len() ==> (#[trigger] g[i])@ != (#[trigger] g[j])@
}

proof fn lemma_has_tag_remove(sel: Seq<String>, i: int, t: Seq<char>)
    requires
        0 <= i < sel.len(),
        sel[i]@ != t,
    ensures
        has_tag(sel.remove(i), t) == has_tag(sel, t),
{
    let r = sel.remove(i);
    if has_tag(sel, t) {
        let j = choose|j: int| 0 <= j < sel.len() && (#[trigger] sel[j])@ == t;
        if j < i {
            assert(r[j] == sel[j]);
        } else {
            assert(r[j - 1] == sel[j]);
        }
    }
    if has_tag(r, t) {
        let j = choose|j: int| 0 <= j < r.len() && (#[trigger] r[j])@ == t;
        if j < i {
            assert(r[j] == sel[j]);
        } else {
            assert(r[j] == sel[j + 1]);
        }
    }
}

/// Where the library's tags have distinct names, a tag's toggle is active
/// exactly when the earlier selection held a tag with its name, and every
/// kept tag has the name of a library tag.
pub proof fn lemma_reselect_active(global: Seq<String>, sel: Seq<String>)
    requires
        distinct_names(global),
    ensures
        forall|k: int|
            0 <= k < global.len() ==> (#[trigger] reselect(global, sel).0[k]) == has_tag(
                sel,
                global[k]@,
            ),
        forall|j: int|
            0 <= j < reselect(global, sel).1.len() ==> has_tag(
                global,
                (#[trigger] reselect(global, sel).1[j])@,
            ),
    decreases global.len(),
{
    lemma_reselect_counts(global, sel);
    if global.len() > 0 {
        let g = global.drop_first();
        assert(distinct_names(g)) by {
            assert forall|i: int, j: int| 0 <= i < j < g.len() implies (#[trigger] g[i])@ != (
            #[trigger] g[j])@ by {
                assert(g[i] == global[i + 1] && g[j] == global[j + 1]);
            }
        }
        lemma_find_tag(sel, global[0]@);
        match find_tag(sel, global[0]@) {
            Some(i) => {
                let sel2 = sel.remove(i);
                lemma_reselect_active(g, sel2);
                let rest = reselect(g, sel2);
                assert(has_tag(sel, global[0]@)) by {
                    assert(sel[i]@ == global[0]@);
                }
                assert forall|k: int| 0 <= k < global.len() implies (#[trigger] reselect(
                    global,
                    sel,
                ).0[k]) == has_tag(sel, global[k]@) by {
                    if k > 0 {
                        assert(g[k - 1] == global[k]);
                        assert(global[0]@ != global[k]@);
                        lemma_has_tag_remove(sel, i, global[k]@);
                        assert(reselect(global, sel).0[k] == rest.0[k - 1]);
                    }
                }
                assert forall|j: int| 0 <= j < reselect(global, sel).1.len() implies has_tag(
                    global,
                    (#[trigger] reselect(global, sel).1[j])@,
                ) by {
                    if j == 0 {
                        assert(global[0]@ == sel[i]@);
                    } else {
                        assert(reselect(global, sel).1[j] == rest.1[j - 1]);
                        let t = rest.1[j - 1]@;
                        let m = choose|m: int| 0 <= m < g.len() && (#[trigger] g[m])@ == t;
                        assert(global[m + 1] == g[m]);
                    }
                }
            },
            None => {
                lemma_reselect_active(g, sel);
                let rest = reselect(g, sel);
                assert forall|k: int| 0 <= k < global.len() implies (#[trigger] reselect(
                    global,
                    sel,
                ).0[k]) == has_tag(sel, global[k]@) by {
                    if k > 0 {
                        assert(g[k - 1] == global[k]);
                        assert(reselect(global, sel).0[k] == rest.0[k - 1]);
                    } else {
                        if has_tag(sel, global[0]@) {
                            let j = choose|j: int| 0 <= j < sel.len() && (#[trigger] sel[j])@
                                == global[0]@;
                            assert(sel[j]@ != global[0]@);
                        }
                    }
                }
                assert forall|j: int| 0 <= j < reselect(global, sel).1.len() implies has_tag(
                    global,
                    (#[trigger] reselect(global, sel).1[j])@,
                ) by {
                    let t = rest.1[j]@;
                    let m = choose|m: int| 0 <= m < g.len() && (#[trigger] g[m])@ == t;
                    assert(global[m + 1] == g[m]);
                }
            },
        }
    }
}

/// The icon of the play button: shuffle, or play in order.
pub open spec fn play_icon(shuffle: bool) -> Seq<char> {
    if shuffle {
        "media-playlist-shuffle-symbolic"@
    } else {
        "media-playback-start-symbolic"@
    }
}

/// The icon of the sort button: ascending when reversed, else descending.
pub open spec fn sort_icon(reversed: bool) -> Seq<char> {
    if reversed {
        "view-sort-ascending-symbolic"@
    } else {
        "view-sort-descending-symbolic"@
    }
}

/// The caption of an artist's tile: its number of albums.
pub fn albums_caption(albums: u64) -> (r: String)
    ensures
        r@ == "Albums: "@ + decimal_text(albums as nat),
{
    let mut r = String::from_str("Albums: ");
    push_decimal(&mut r, albums);
    r
}

/// The listed artists after their sort fields are updated from `keys`, one
/// per artist in order; each keeps its handle.
pub open spec fn keys_applied<S>(
    before: Seq<ArtistObject<S>>,
    after: Seq<ArtistObject<S>>,
    keys: Seq<SortKeys>,
) -> bool {
    &&& after.len() == before.len()
    &&& forall|k: int|
        0 <= k < before.len() ==> {
            &&& sort_fields_updated(
                before[k].data,
                (#[trigger] after[k]).data,
                keys[k].stars,
                keys[k].rating,
                keys[k].random,
                keys[k].albums@,
            )
            &&& after[k].shared_artist == before[k].shared_artist
        }
}

/// A tag list without any tag with the text `t`.
pub open spec fn without_tag(tags: Seq<String>, t: Seq<char>) -> Seq<String>
    decreases tags.len(),
{
    if tags.len() == 0 {
        seq![]
    } else if tags.last()@ == t {
        without_tag(tags.drop_last(), t)
    } else {
        without_tag(tags.drop_last(), t).push(tags.last())
    }
}

/// Toggling a tag: turning it off keeps every filter tag whose text differs
/// from it, in order, and no other; turning it on keeps every filter tag in
/// order and leaves one with its text among them, adding it at the end only
/// where none was there.
pub proof fn lemma_tag_toggle(tags: Seq<String>, t: String)
    ensures
        without_tag(tags, t@) == tags.filter(|x: String| x@ != t@),
        forall|k: int|
            0 <= k < without_tag(tags, t@).len() ==> (#[trigger] without_tag(tags, t@)[k])@ != t@,
        has_tag(add_tag(tags, t), t@),
        add_tag(tags, t).take(tags.len() as int) == tags,
        add_tag(tags, t).len() == if has_tag(tags, t@) {
            tags.len()
        } else {
            tags.len() + 1
        },
    decreases tags.len(),
{
    let p = |x: String| x@ != t@;
    reveal_with_fuel(Seq::filter, 1);
    if tags.len() > 0 {
        lemma_tag_toggle(tags.drop_last(), t);
        assert(tags.filter(p) == if p(tags.last()) {
            tags.drop_last().filter(p).push(tags.last())
        } else {
            tags.drop_last().filter(p)
        });
        let w = without_tag(tags.drop_last(), t@);
        if tags.last()@ != t@ {
            assert forall|k: int| 0 <= k < w.push(tags.last()).len() implies (#[trigger] w.push(
                tags.last(),
            )[k])@ != t@ by {
                if k < w.len() {
                    assert(w.push(tags.last())[k] == w[k]);
                }
            }
        }
    } else {
        assert(tags.filter(p) =~= tags);
    }
    if !has_tag(tags, t@) {
        assert(tags.push(t)[tags.len() as int] == t);
        assert(tags.push(t).take(tags.len() as int) =~= tags);
    } else {
        assert(tags.take(tags.len() as int) =~= tags);
    }
}

/// The contents id that follows `id`, wrapping at 255 to 0.
pub open spec fn next_contents_id(id: u8) -> u8 {
    if id == 255 {
        0
    } else {
        (id + 1) as u8
    }
}

/// The contents id after `k` loads have started.
pub open spec fn contents_id_after(id: u8, k: nat) -> u8
    decreases k,
{
    if k == 0 {
        id
    } else {
        next_contents_id(contents_id_after(id, (k - 1) as nat))
    }
}

proof fn lemma_contents_id_after(id: u8, k: nat)
    ensures
        contents_id_after(id, k) as int == (id as int + k) % 256,
    decreases k,
{
    if k > 0 {
        lemma_contents_id_after(id, (k - 1) as nat);
    }
}

/// The last load wins: once between one and 255 newer loads have started, a
/// load that started with `id` is no longer current, so `finish_load` and
/// `update_sort_fields` refuse it.
pub proof fn lemma_stale_load_refused(id: u8, k: nat)
    requires
        0 < k < 256,
    ensures
        contents_id_after(id, k) != id,
{
    lemma_contents_id_after(id, k);
}

/// The artists page: its search text, the id of the contents it is loading,
/// its sort mode and filters, and whether it plays shuffled.
pub struct ArtistsPage<S> {
    pub artists: Vec<ArtistObject<S>>,
    pub search_query: String,
    pub contents_id: u8,
    pub sort_mode: SortConfig<ArtistOrdering>,
    pub artist_filters: ArtistFilters,
    pub shuffle: bool,
}

impl<S> ArtistsPage<S> {
    /// A page with no search, sorted by name, with the default filters, not shuffled.
    pub fn new() -> (r: Self)
        ensures
            r.artists@.len() == 0,
            r.search_query@.len() == 0,
            r.contents_id == 0,
            r.sort_mode.ordering == ArtistOrdering::Default,
            !r.sort_mode.reversed,
            r.artist_filters.filter_mode == FilterMode::Exclusive,
            r.artist_filters.rating is None,
            r.artist_filters.play_count is None,
            r.artist_filters.tag_filter_mode == FilterMode::Exclusive,
            r.artist_filters.tags@.len() == 0,
            !r.shuffle,
    {
        ArtistsPage {
            artists: Vec::new(),
            search_query: String::new(),
            contents_id: 0,
            sort_mode: SortConfig::new(ArtistOrdering::Default, false),
            artist_filters: ArtistFilters::default(),
            shuffle: false,
        }
    }

    /// Takes the text of the search entry as the search query.
    pub fn handle_search_changed(&mut self, text: &str)
        ensures
            final(self).artists == old(self).artists,
            final(self).search_query@ == text@,
            final(self).contents_id == old(self).contents_id,
            final(self).sort_mode == old(self).sort_mode,
            final(self).artist_filters == old(self).artist_filters,
            final(self).shuffle == old(self).shuffle,
    {
        self.search_query = String::from_str(text);
    }

    /// Clears the search query.
    pub fn handle_stop_search(&mut self)
        ensures
            final(self).artists == old(self).artists,
            final(self).search_query@.len() == 0,
            final(self).contents_id == old(self).contents_id,
            final(self).sort_mode == old(self).sort_mode,
            final(self).artist_filters == old(self).artist_filters,
            final(self).shuffle == old(self).shuffle,
    {
        self.search_query = String::new();
    }

    /// Sets the filters from the state of the filter widgets: the active
    /// entries of the two mode toggles, and for the rating and play count
    /// the selected condition and the key of the threshold where enabled.
    pub fn handle_filters_changed(
        &mut self,
        filter_mode: u32,
        rating: Option<(u32, i64)>,
        play_count: Option<(u32, i64)>,
        tag_filter_mode: u32,
    )
        requires
            filter_mode < 2,
            tag_filter_mode < 2,
            rating matches Some((s, k)) ==> s < 2,
            play_count matches Some((s, k)) ==> s < 2,
        ensures
            final(self).artists == old(self).artists,
            final(self).artist_filters.filter_mode == spec_filter_mode_at(filter_mode),
            final(self).artist_filters.rating == spec_condition_of(rating),
            final(self).artist_filters.play_count == spec_condition_of(play_count),
            final(self).artist_filters.tag_filter_mode == spec_filter_mode_at(tag_filter_mode),
            final(self).artist_filters.tags == old(self).artist_filters.tags,
            final(self).search_query == old(self).search_query,
            final(self).contents_id == old(self).contents_id,
            final(self).sort_mode == old(self).sort_mode,
            final(self).shuffle == old(self).shuffle,
    {
        self.artist_filters.filter_mode = filter_mode_at(filter_mode);
        self.artist_filters.rating = condition_of(rating);
        self.artist_filters.play_count = condition_of(play_count);
        self.artist_filters.tag_filter_mode = filter_mode_at(tag_filter_mode);
    }

    /// Selects the library's tags again, as the tag list is rebuilt from
    /// `global_tags`: returns, for each of them, whether its toggle is active,
    /// and keeps as filter tags the selected ones that the library still has.
    pub fn update_tag_filter_list(&mut self, global_tags: &Vec<String>) -> (r: Vec<bool>)
        ensures
            final(self).artists == old(self).artists,
            r@ == reselect(global_tags@, old(self).artist_filters.tags@).0,
            final(self).artist_filters.tags@ == reselect(
                global_tags@,
                old(self).artist_filters.tags@,
            ).1,
            final(self).artist_filters.filter_mode == old(self).artist_filters.filter_mode,
            final(self).artist_filters.rating == old(self).artist_filters.rating,
            final(self).artist_filters.play_count == old(self).artist_filters.play_count,
            final(self).artist_filters.tag_filter_mode == old(
                self,
            ).artist_filters.tag_filter_mode,
            final(self).search_query == old(self).search_query,
            final(self).contents_id == old(self).contents_id,
            final(self).sort_mode == old(self).sort_mode,
            final(self).shuffle == old(self).shuffle,
    {
        let ghost sel0 = self.artist_filters.tags@;
        let mut sel: Vec<String> = Vec::new();
        std::mem::swap(&mut sel, &mut self.artist_filters.tags);
        let mut active: Vec<bool> = Vec::new();
        let mut new_tags: Vec<String> = Vec::new();
        let mut k: usize = 0;
        assert(global_tags@.skip(0) =~= global_tags@);
        while k < global_tags.len()
            invariant
                0 <= k <= global_tags@.len(),
                active@ + reselect(global_tags@.skip(k as int), sel@).0 == reselect(
                    global_tags@,
                    sel0,
                ).0,
                new_tags@ + reselect(global_tags@.skip(k as int), sel@).1 == reselect(
                    global_tags@,
                    sel0,
                ).1,
            decreases global_tags@.len() - k,
        {
            let ghost g = global_tags@.skip(k as int);
            assert(g[0] == global_tags@[k as int]);
            assert(g.drop_first() =~= global_tags@.skip(k + 1));
            let tag = &global_tags[k];
            let mut i: usize = 0;
            while i < sel.len() && sel[i] != *tag
                invariant
                    0 <= i <= sel@.len(),
                    forall|j: int| 0 <= j < i ==> (#[trigger] sel@[j])@ != tag@,
                decreases sel@.len() - i,
            {
                i = i + 1;
            }
            proof {
                lemma_find_tag_at(sel@, tag@, i as int);
            }
            let ghost sel_before = sel@;
            if i < sel.len() {
                let taken = sel.remove(i);
                let ghost rest = reselect(global_tags@.skip(k + 1), sel@);
                assert(reselect(g, sel_before) == (seq![true] + rest.0, seq![taken] + rest.1));
                assert(active@.push(true) + rest.0 =~= active@ + (seq![true] + rest.0));
                assert(new_tags@.push(taken) + rest.1 =~= new_tags@ + (seq![taken] + rest.1));
                active.push(true);
                new_tags.push(taken);
            } else {
                let ghost rest = reselect(global_tags@.skip(k + 1), sel@);
                assert(reselect(g, sel_before) == (seq![false] + rest.0, rest.1));
                assert(active@.push(false) + rest.0 =~= active@ + (seq![false] + rest.0));
                active.push(false);
            }
            k = k + 1;
        }
        let ghost fin = reselect(global_tags@.skip(k as int), sel@);
        assert(global_tags@.skip(k as int) =~= Seq::<String>::empty());
        assert(active@ + fin.0 =~= active@);
        assert(new_tags@ + fin.1 =~= new_tags@);
        self.artist_filters.tags = new_tags;
        active
    }

    /// Sets whether the page plays shuffled; returns the play button's icon.
    pub fn set_shuffle(&mut self, shuffle: bool) -> (icon: &'static str)
        ensures
            final(self).artists == old(self).artists,
            final(self).shuffle == shuffle,
            icon@ == play_icon(shuffle),
            final(self).search_query == old(self).search_query,
            final(self).contents_id == old(self).contents_id,
            final(self).sort_mode == old(self).sort_mode,
            final(self).artist_filters == old(self).artist_filters,
    {
        self.shuffle = shuffle;
        if shuffle {
            "media-playlist-shuffle-symbolic"
        } else {
            "media-playback-start-symbolic"
        }
    }

    pub fn get_shuffle(&self) -> (r: bool)
        ensures
            r == self.shuffle,
    {
        self.shuffle
    }

    /// Reverses the direction of the sort; returns the sort button's icon.
    pub fn handle_reverse_sort(&mut self) -> (icon: &'static str)
        ensures
            final(self).artists == old(self).artists,
            final(self).sort_mode.reversed == !old(self).sort_mode.reversed,
            final(self).sort_mode.ordering == old(self).sort_mode.ordering,
            icon@ == sort_icon(final(self).sort_mode.reversed),
            final(self).search_query == old(self).search_query,
            final(self).contents_id == old(self).contents_id,
            final(self).artist_filters == old(self).artist_filters,
            final(self).shuffle == old(self).shuffle,
    {
        let reverse = !self.sort_mode.reversed;
        self.sort_mode.reversed = reverse;
        if reverse {
            "view-sort-ascending-symbolic"
        } else {
            "view-sort-descending-symbolic"
        }
    }

    /// Sorts by another ordering, in the same direction, and updates the
    /// sort fields of the listed artists from `keys` (one per artist, in
    /// order), as for the current contents.
    pub fn set_sort_mode(&mut self, sort_mode: ArtistOrdering, keys: Vec<SortKeys>)
        requires
            keys@.len() == old(self).artists@.len(),
        ensures
            final(self).sort_mode.ordering == sort_mode,
            final(self).sort_mode.reversed == old(self).sort_mode.reversed,
            keys_applied(old(self).artists@, final(self).artists@, keys@),
            final(self).search_query == old(self).search_query,
            final(self).contents_id == old(self).contents_id,
            final(self).artist_filters == old(self).artist_filters,
            final(self).shuffle == old(self).shuffle,
    {
        self.sort_mode.ordering = sort_mode;
        let id = self.contents_id;
        self.update_sort_fields(id, keys);
    }

    /// Updates the sort fields of the listed artists from `keys` (one per
    /// artist, in order), where `id` is still the current contents; leaves
    /// them as they are where a newer load has started. Returns whether the
    /// update was made.
    pub fn update_sort_fields(&mut self, id: u8, keys: Vec<SortKeys>) -> (r: bool)
        requires
            keys@.len() == old(self).artists@.len(),
        ensures
            r == (old(self).contents_id == id),
            r ==> keys_applied(old(self).artists@, final(self).artists@, keys@),
            !r ==> final(self).artists == old(self).artists,
            final(self).search_query == old(self).search_query,
            final(self).contents_id == old(self).contents_id,
            final(self).sort_mode == old(self).sort_mode,
            final(self).artist_filters == old(self).artist_filters,
            final(self).shuffle == old(self).shuffle,
    {
        if self.contents_id != id {
            return false;
        }
        let ghost before = self.artists@;
        let mut i: usize = 0;
        while i < keys.len()
            invariant
                keys@.len() == before.len(),
                self.artists@.len() == before.len(),
                self.search_query == old(self).search_query,
                self.contents_id == old(self).contents_id,
                self.sort_mode == old(self).sort_mode,
                self.artist_filters == old(self).artist_filters,
                self.shuffle == old(self).shuffle,
                before == old(self).artists@,
                0 <= i <= keys@.len(),
                forall|k: int|
                    0 <= k < i ==> {
                        &&& sort_fields_updated(
                            before[k].data,
                            (#[trigger] self.artists@[k]).data,
                            keys@[k].stars,
                            keys@[k].rating,
                            keys@[k].random,
                            keys@[k].albums@,
                        )
                        &&& self.artists@[k].shared_artist == before[k].shared_artist
                    },
                forall|k: int| i <= k < before.len() ==> #[trigger] self.artists@[k] == before[k],
            decreases keys@.len() - i,
        {
            let key = &keys[i];
            self.artists[i].update_sort_fields(key.stars, key.rating, key.random, &key.albums);
            i = i + 1;
        }
        true
    }

    pub fn get_sort_mode(&self) -> (r: SortConfig<ArtistOrdering>)
        ensures
            r == self.sort_mode,
    {
        self.sort_mode
    }

    /// The sort configuration of the page.
    pub fn get_sort_config(&self) -> (r: SortConfig<ArtistOrdering>)
        ensures
            r == self.sort_mode,
    {
        self.get_sort_mode()
    }

    /// Starts loading new contents: the contents id moves on by one, wrapping
    /// at 255 to 0, and the new id is returned.
    pub fn begin_load(&mut self) -> (id: u8)
        ensures
            final(self).artists == old(self).artists,
            id == next_contents_id(old(self).contents_id),
            final(self).contents_id == id,
            final(self).search_query == old(self).search_query,
            final(self).sort_mode == old(self).sort_mode,
            final(self).artist_filters == old(self).artist_filters,
            final(self).shuffle == old(self).shuffle,
    {
        let id = if self.contents_id == 255 {
            0
        } else {
            self.contents_id + 1
        };
        self.contents_id = id;
        id
    }

    /// Starts loading a library of `artist_count` artists: the contents id
    /// moves on as `begin_load` says, and is returned with whether the page
    /// shows its empty state, which it does exactly for an empty library.
    /// The artists listed so far stay until `finish_load` replaces them.
    pub fn start_load(&mut self, artist_count: usize) -> (r: (u8, bool))
        ensures
            r.0 == next_contents_id(old(self).contents_id),
            r.1 == (artist_count == 0),
            final(self).contents_id == r.0,
            final(self).artists == old(self).artists,
            final(self).search_query == old(self).search_query,
            final(self).sort_mode == old(self).sort_mode,
            final(self).artist_filters == old(self).artist_filters,
            final(self).shuffle == old(self).shuffle,
    {
        let id = self.begin_load();
        (id, artist_count == 0)
    }

    /// Installs the artists that a load built, where the load that started
    /// with `id` is still the current one; returns whether it did.
    pub fn finish_load(&mut self, id: u8, artists: Vec<ArtistObject<S>>) -> (r: bool)
        ensures
            r == (old(self).contents_id == id),
            r ==> final(self).artists@ == artists@,
            !r ==> final(self).artists == old(self).artists,
            final(self).search_query == old(self).search_query,
            final(self).contents_id == old(self).contents_id,
            final(self).sort_mode == old(self).sort_mode,
            final(self).artist_filters == old(self).artist_filters,
            final(self).shuffle == old(self).shuffle,
    {
        if self.contents_id == id {
            self.artists = artists;
            true
        } else {
            false
        }
    }

    /// Adds a tag to the filter tags when its toggle is turned on (unless a
    /// tag with its text is there), or takes every tag with its text away
    /// when it is turned off.
    pub fn handle_tag_toggled(&mut self, tag: String, active: bool)
        ensures
            final(self).artist_filters.tags@ == if active {
                add_tag(old(self).artist_filters.tags@, tag)
            } else {
                without_tag(old(self).artist_filters.tags@, tag@)
            },
            final(self).artist_filters.filter_mode == old(self).artist_filters.filter_mode,
            final(self).artist_filters.rating == old(self).artist_filters.rating,
            final(self).artist_filters.play_count == old(self).artist_filters.play_count,
            final(self).artist_filters.tag_filter_mode == old(
                self,
            ).artist_filters.tag_filter_mode,
            final(self).artists == old(self).artists,
            final(self).search_query == old(self).search_query,
            final(self).contents_id == old(self).contents_id,
            final(self).sort_mode == old(self).sort_mode,
            final(self).shuffle == old(self).shuffle,
    {
        if active {
            if !contains_tag(&self.artist_filters.tags, &tag) {
                self.artist_filters.tags.push(tag);
            }
        } else {
            let mut kept: Vec<String> = Vec::new();
            let mut i: usize = 0;
            while i < self.artist_filters.tags.len()
                invariant
                    0 <= i <= self.artist_filters.tags@.len(),
                    self.artist_filters.tags == old(self).artist_filters.tags,
                    kept@ == without_tag(self.artist_filters.tags@.take(i as int), tag@),
                decreases self.artist_filters.tags@.len() - i,
            {
                assert(self.artist_filters.tags@.take(i + 1).drop_last()
                    =~= self.artist_filters.tags@.take(i as int));
                if self.artist_filters.tags[i] != tag {
                    kept.push(self.artist_filters.tags[i].clone());
                }
                i = i + 1;
            }
            assert(self.artist_filters.tags@.take(i as int) =~= self.artist_filters.tags@);
            self.artist_filters.tags = kept;
        }
    }

    /// Whether the page shows an artist: its search score is above the
    /// threshold (`score_passes`), and it passes the filters.
    pub fn shows(&self, score_passes: bool, artist_object: &ArtistObject<S>) -> (r: bool)
        ensures
            r == (score_passes && passes(self.artist_filters, artist_object.data)),
    {
        score_passes && self.artist_filters.filter(artist_object)
    }

    /// Whether a load that started with `id` is still the current one.
    pub fn is_current(&self, id: u8) -> (r: bool)
        ensures
            r == (self.contents_id == id),
    {
        self.contents_id == id
    }

    /// Whether an artist passes the page's filters.
    pub fn filter(&self, artist_object: &ArtistObject<S>) -> (r: bool)
        ensures
            r == passes(self.artist_filters, artist_object.data),
    {
        self.artist_filters.filter(artist_object)
    }
}

} // verus!
