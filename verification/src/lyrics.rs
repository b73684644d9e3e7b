//! Synchronised lyrics in the LRC format: reading the `[mm:ss.xx]text` lines
//! of a lyrics file, ordering them by time, and following the playback
//! position to the line that is being sung.
//!
//! Reading the seconds of a time tag is a floating-point computation; it is
//! done outside this library, which hands over the seconds text of each tag
//! (`lrc_entries`) and takes back the whole milliseconds read from it
//! (`lines_from_entries`).
use vstd::prelude::*;
use crate::text::{
    is_white_space, lemma_trim_ends, chars_of, find_char, first_index, lemma_first_index, line_ranges, lines, parse_u64,
    parse_u64_range, range_text, ranges_text, ranges_within, trim, trim_range,
};

verus! {

/// One line of lyrics: the time at which it starts, in milliseconds, and its text.
#[derive(Debug)]
pub struct LyricLine {
    pub timestamp: u64,
    pub text: String,
}

impl Clone for LyricLine {
    fn clone(&self) -> (r: Self)
        ensures
            r == *self,
    {
        LyricLine { timestamp: self.timestamp, text: self.text.clone() }
    }
}

/// A time-tagged line of an LRC file, before its seconds are read: the
/// minutes of the tag, the text of its seconds, and the lyric text.
#[derive(Debug)]
pub struct LrcEntry {
    pub minutes: u64,
    pub seconds: String,
    pub text: String,
}

impl Clone for LrcEntry {
    fn clone(&self) -> (r: Self)
        ensures
            r == *self,
    {
        LrcEntry { minutes: self.minutes, seconds: self.seconds.clone(), text: self.text.clone() }
    }
}

impl View for LrcEntry {
    type V = (u64, Seq<char>, Seq<char>);

    open spec fn view(&self) -> (u64, Seq<char>, Seq<char>) {
        (self.minutes, self.seconds@, self.text@)
    }
}

/// The minutes and the seconds text of a time tag `mm:ss`: exactly one `:`,
/// and minutes that `u64::from_str` reads.
pub open spec fn time_fields(t: Seq<char>) -> Option<(u64, Seq<char>)> {
    let c = first_index(t, ':') as int;
    if c < t.len() && !t.skip(c + 1).contains(':') {
        match parse_u64(t.take(c)) {
            Some(m) => Some((m, t.skip(c + 1))),
            None => None,
        }
    } else {
        None
    }
}

/// The entry that one line of an LRC file gives: the line starts with `[`
/// and holds a `]`; between them stands a time tag; the text is what follows
/// the first `]`, trimmed.
pub open spec fn lrc_entry(l: Seq<char>) -> Option<(u64, Seq<char>, Seq<char>)> {
    if l.len() > 0 && l[0] == '[' && l.contains(']') {
        let k = first_index(l, ']') as int;
        match time_fields(l.subrange(1, k)) {
            Some((m, secs)) => Some((m, secs, trim(l.skip(k + 1)))),
            None => None,
        }
    } else {
        None
    }
}

pub open spec fn entries_of_lines(ls: Seq<Seq<char>>) -> Seq<(u64, Seq<char>, Seq<char>)>
    decreases ls.len(),
{
    if ls.len() == 0 {
        seq![]
    } else {
        let rest = entries_of_lines(ls.drop_last());
        match lrc_entry(ls.last()) {
            Some(e) => rest.push(e),
            None => rest,
        }
    }
}

/// The entries of an LRC file, line by line, in the order of the file.
pub open spec fn spec_lrc_entries(raw: Seq<char>) -> Seq<(u64, Seq<char>, Seq<char>)> {
    entries_of_lines(lines(raw))
}

pub open spec fn entries_view(es: Seq<LrcEntry>) -> Seq<(u64, Seq<char>, Seq<char>)> {
    es.map_values(|e: LrcEntry| e@)
}

/// Reads the time tag `v[lo..hi]`.
fn time_fields_range(raw: &str, v: &Vec<char>, lo: usize, hi: usize) -> (r: Option<(u64, String)>)
    requires
        v@ == raw@,
        lo <= hi <= v@.len(),
    ensures
        match r {
            Some((m, s)) => time_fields(v@.subrange(lo as int, hi as int)) == Some((m, s@)),
            None => time_fields(v@.subrange(lo as int, hi as int)) is None,
        },
{
    let ghost t = v@.subrange(lo as int, hi as int);
    let c = find_char(v, lo, hi, ':');
    proof {
        lemma_first_index(t, ':');
    }
    if c == hi {
        return None;
    }
    let after = find_char(v, c + 1, hi, ':');
    proof {
        assert(v@.subrange(c + 1, hi as int) =~= t.skip(c - lo + 1));
        lemma_first_index(t.skip(c - lo + 1), ':');
    }
    if after < hi {
        return None;
    }
    assert(v@.subrange(lo as int, c as int) =~= t.take(c - lo));
    match parse_u64_range(v, lo, c) {
        Some(m) => {
            let secs = String::from_str(raw.substring_char(c + 1, hi));
            Some((m, secs))
        },
        None => None,
    }
}

/// Reads the line `v[lo..hi]` of an LRC file.
fn entry_of_range(raw: &str, v: &Vec<char>, lo: usize, hi: usize) -> (r: Option<LrcEntry>)
    requires
        v@ == raw@,
        lo <= hi <= v@.len(),
    ensures
        match r {
            Some(e) => lrc_entry(v@.subrange(lo as int, hi as int)) == Some(e@),
            None => lrc_entry(v@.subrange(lo as int, hi as int)) is None,
        },
{
    let ghost l = v@.subrange(lo as int, hi as int);
    if lo == hi || v[lo] != '[' {
        return None;
    }
    let k = find_char(v, lo, hi, ']');
    proof {
        lemma_first_index(l, ']');
    }
    if k == hi {
        return None;
    }
    assert(v@.subrange(lo + 1, k as int) =~= l.subrange(1, k - lo));
    match time_fields_range(raw, v, lo + 1, k) {
        Some((m, secs)) => {
            let (a, b) = trim_range(v, k + 1, hi);
            assert(v@.subrange(k + 1, hi as int) =~= l.skip(k - lo + 1));
            let text = String::from_str(raw.substring_char(a, b));
            Some(LrcEntry { minutes: m, seconds: secs, text })
        },
        None => None,
    }
}

/// The time-tagged entries of an LRC file, in the order of its lines.
/// A line yields an entry where it starts with `[`, holds a `]`, and the
/// text between them is `minutes:seconds` with one `:` and whole minutes;
/// the entry's text is the rest of the line after the first `]`, trimmed.
pub fn lrc_entries(lrc_raw: &str) -> (es: Vec<LrcEntry>)
    ensures
        entries_view(es@) == spec_lrc_entries(lrc_raw@),
{
    let v = chars_of(lrc_raw);
    let ranges = line_ranges(&v);
    let mut es: Vec<LrcEntry> = Vec::new();
    let mut i: usize = 0;
    while i < ranges.len()
        invariant
            v@ == lrc_raw@,
            ranges_within(ranges@, v@.len()),
            ranges_text(v@, ranges@) == lines(v@),
            0 <= i <= ranges@.len(),
            entries_view(es@) == entries_of_lines(ranges_text(v@, ranges@).take(i as int)),
        decreases ranges@.len() - i,
    {
        let (a, b) = ranges[i];
        assert(ranges@[i as int].0 <= ranges@[i as int].1 <= v@.len());
        let ghost ls = ranges_text(v@, ranges@).take(i + 1);
        assert(ls.drop_last() =~= ranges_text(v@, ranges@).take(i as int));
        assert(ls.last() == range_text(v@, ranges@[i as int]));
        let ghost old_es = es@;
        match entry_of_range(lrc_raw, &v, a, b) {
            Some(e) => {
                es.push(e);
                assert(entries_view(es@) =~= entries_view(old_es).push(e@));
            },
            None => {},
        }
        i = i + 1;
    }
    assert(ranges_text(v@, ranges@).take(i as int) =~= ranges_text(v@, ranges@));
    es
}

/// Reads the time tag of an LRC line as far as it is read without floating
/// point: the minutes, and the text of the seconds.
pub fn time_tag_fields(time_str: &str) -> (r: Option<(u64, String)>)
    ensures
        match r {
            Some((m, s)) => time_fields(time_str@) == Some((m, s@)),
            None => time_fields(time_str@) is None,
        },
{
    let v = chars_of(time_str);
    assert(v@.subrange(0, v@.len() as int) =~= v@);
    time_fields_range(time_str, &v, 0, v.len())
}

/// The start of a line, in milliseconds: the minutes of its tag and the
/// whole milliseconds of its seconds; `None` where that overflows `u64`.
pub fn checked_timestamp(minutes: u64, seconds_ms: u64) -> (r: Option<u64>)
    ensures
        r matches Some(t) ==> t == minutes * 60000 + seconds_ms,
        r is None <==> minutes * 60000 + seconds_ms > u64::MAX,
{
    match minutes.checked_mul(60000) {
        Some(m) => m.checked_add(seconds_ms),
        None => None,
    }
}

/// The lines that the entries give, in the order of the entries: an entry
/// whose seconds were read to `Some(ms)` gives a line at
/// `minutes * 60000 + ms`; one whose seconds could not be read gives none.
pub open spec fn timed_lines(es: Seq<LrcEntry>, ms: Seq<Option<u64>>) -> Seq<LyricLine>
    decreases es.len(),
{
    if es.len() == 0 {
        seq![]
    } else {
        let rest = timed_lines(es.drop_last(), ms.take(es.len() - 1));
        match ms[es.len() - 1] {
            Some(x) => rest.push(
                LyricLine {
                    timestamp: (es.last().minutes * 60000 + x) as u64,
                    text: es.last().text,
                },
            ),
            None => rest,
        }
    }
}

pub open spec fn timestamps_fit(es: Seq<LrcEntry>, ms: Seq<Option<u64>>) -> bool {
    forall|i: int|
        0 <= i < es.len() && #[trigger] ms[i] is Some ==> es[i].minutes * 60000 + ms[i]->0
            <= u64::MAX
}

/// Places `x` among sorted lines after every line that starts no later than it.
pub open spec fn insert_line(s: Seq<LyricLine>, x: LyricLine) -> Seq<LyricLine>
    decreases s.len(),
{
    if s.len() == 0 {
        seq![x]
    } else if s.last().timestamp > x.timestamp {
        insert_line(s.drop_last(), x).push(s.last())
    } else {
        s.push(x)
    }
}

/// The lines ordered by start time, lines that start together keeping the
/// order they had (a stable sort, as `sort_by_key` does).
pub open spec fn sort_lines(s: Seq<LyricLine>) -> Seq<LyricLine>
    decreases s.len(),
{
    if s.len() == 0 {
        seq![]
    } else {
        insert_line(sort_lines(s.drop_last()), s.last())
    }
}

pub open spec fn sorted_by_time(s: Seq<LyricLine>) -> bool {
    forall|i: int, j: int| 0 <= i <= j < s.len() ==> s[i].timestamp <= s[j].timestamp
}

/// The lines of `s` that start at `t`, in their order in `s`.
pub open spec fn lines_at(s: Seq<LyricLine>, t: u64) -> Seq<LyricLine>
    decreases s.len(),
{
    if s.len() == 0 {
        seq![]
    } else if s.last().timestamp == t {
        lines_at(s.drop_last(), t).push(s.last())
    } else {
        lines_at(s.drop_last(), t)
    }
}

proof fn lemma_insert_line_split(s: Seq<LyricLine>, x: LyricLine, p: int)
    requires
        0 <= p <= s.len(),
        forall|j: int| p <= j < s.len() ==> s[j].timestamp > x.timestamp,
    ensures
        insert_line(s, x) == insert_line(s.take(p), x) + s.skip(p),
    decreases s.len(),
{
    if p == s.len() {
        assert(s.take(p) =~= s);
        assert(insert_line(s, x) + s.skip(p) =~= insert_line(s, x));
    } else {
        lemma_insert_line_split(s.drop_last(), x, p);
        assert(s.drop_last().take(p) =~= s.take(p));
        assert(s.skip(p) =~= s.drop_last().skip(p).push(s.last()));
        assert(insert_line(s.take(p), x) + s.skip(p) =~= (insert_line(s.take(p), x)
            + s.drop_last().skip(p)).push(s.last()));
    }
}

/// Inserts `x` into sorted `out` after the lines that start no later than it.
fn insert_sorted(out: &mut Vec<LyricLine>, x: LyricLine)
    ensures
        final(out)@ == insert_line(old(out)@, x),
{
    let mut p = out.len();
    while p > 0 && out[p - 1].timestamp > x.timestamp
        invariant
            0 <= p <= out@.len(),
            forall|j: int| p <= j < out@.len() ==> out@[j].timestamp > x.timestamp,
        decreases p,
    {
        p = p - 1;
    }
    proof {
        lemma_insert_line_split(out@, x, p as int);
        if p > 0 {
            assert(out@.take(p as int).last() == out@[p - 1]);
        }
        assert(insert_line(out@.take(p as int), x) == out@.take(p as int).push(x));
    }
    let ghost before = out@;
    out.insert(p, x);
    assert(out@ =~= before.take(p as int).push(x) + before.skip(p as int));
}

/// Orders lines by start time; lines that start together keep their order.
pub fn sort_by_timestamp(lines: Vec<LyricLine>) -> (r: Vec<LyricLine>)
    ensures
        r@ == sort_lines(lines@),
{
    let mut out: Vec<LyricLine> = Vec::new();
    let mut i: usize = 0;
    while i < lines.len()
        invariant
            0 <= i <= lines@.len(),
            out@ == sort_lines(lines@.take(i as int)),
        decreases lines@.len() - i,
    {
        assert(lines@.take(i + 1).drop_last() =~= lines@.take(i as int));
        insert_sorted(&mut out, lines[i].clone());
        i = i + 1;
    }
    assert(lines@.take(i as int) =~= lines@);
    out
}

/// The lines of the lyrics, ordered by start time: each entry whose seconds
/// were read (`seconds_ms[i]` is `Some`) gives a line at
/// `minutes * 60000 + ms` with the entry's text; lines that start together
/// keep the order of the file.
pub fn lines_from_entries(entries: &Vec<LrcEntry>, seconds_ms: &Vec<Option<u64>>) -> (r: Vec<
    LyricLine,
>)
    requires
        entries@.len() == seconds_ms@.len(),
        timestamps_fit(entries@, seconds_ms@),
    ensures
        r@ == sort_lines(timed_lines(entries@, seconds_ms@)),
{
    let mut timed: Vec<LyricLine> = Vec::new();
    let mut i: usize = 0;
    while i < entries.len()
        invariant
            entries@.len() == seconds_ms@.len(),
            timestamps_fit(entries@, seconds_ms@),
            0 <= i <= entries@.len(),
            timed@ == timed_lines(entries@.take(i as int), seconds_ms@.take(i as int)),
        decreases entries@.len() - i,
    {
        let ghost es = entries@.take(i + 1);
        let ghost ms = seconds_ms@.take(i + 1);
        assert(es.drop_last() =~= entries@.take(i as int));
        assert(ms.take(i as int) =~= seconds_ms@.take(i as int));
        assert(ms[i as int] == seconds_ms@[i as int]);
        match seconds_ms[i] {
            Some(x) => {
                assert(seconds_ms@[i as int] is Some);
                let t = entries[i].minutes * 60000 + x;
                timed.push(LyricLine { timestamp: t, text: entries[i].text.clone() });
            },
            None => {},
        }
        i = i + 1;
    }
    assert(entries@.take(i as int) =~= entries@);
    assert(seconds_ms@.take(i as int) =~= seconds_ms@);
    sort_by_timestamp(timed)
}

/// Sorting by start time gives lines in ascending order of start time.
pub proof fn lemma_sort_lines_sorted(s: Seq<LyricLine>)
    ensures
        sorted_by_time(sort_lines(s)),
    decreases s.len(),
{
    if s.len() > 0 {
        lemma_sort_lines_sorted(s.drop_last());
        lemma_insert_line_sorted(sort_lines(s.drop_last()), s.last());
    }
}

proof fn lemma_insert_line_sorted(s: Seq<LyricLine>, x: LyricLine)
    requires
        sorted_by_time(s),
    ensures
        sorted_by_time(insert_line(s, x)),
        insert_line(s, x).len() == s.len() + 1,
        forall|i: int|
            0 <= i < insert_line(s, x).len() ==> (#[trigger] insert_line(s, x)[i] == x || s.contains(
                insert_line(s, x)[i],
            )),
    decreases s.len(),
{
    if s.len() > 0 && s.last().timestamp > x.timestamp {
        let t = s.drop_last();
        assert(sorted_by_time(t));
        lemma_insert_line_sorted(t, x);
        let r = insert_line(t, x);
        assert forall|i: int| 0 <= i < r.len() implies r[i].timestamp <= s.last().timestamp by {
            if r[i] != x {
                let j = choose|j: int| 0 <= j < t.len() && t[j] == r[i];
                assert(s[j] == t[j]);
            }
        }
        assert forall|i: int| 0 <= i < insert_line(s, x).len() implies (#[trigger] insert_line(
            s,
            x,
        )[i] == x || s.contains(insert_line(s, x)[i])) by {
            if i < r.len() {
                if r[i] != x {
                    let j = choose|j: int| 0 <= j < t.len() && t[j] == r[i];
                    assert(s[j] == t[j]);
                }
            } else {
                assert(s[s.len() - 1] == s.last());
            }
        }
    } else if s.len() > 0 {
        assert forall|i: int| 0 <= i < insert_line(s, x).len() implies (#[trigger] insert_line(
            s,
            x,
        )[i] == x || s.contains(insert_line(s, x)[i])) by {
            if i < s.len() {
                assert(insert_line(s, x)[i] == s[i]);
            }
        }
    }
}

/// Sorting by start time keeps every line: the result holds the same lines,
/// each as often as before.
pub proof fn lemma_sort_lines_permutes(s: Seq<LyricLine>)
    ensures
        sort_lines(s).to_multiset() == s.to_multiset(),
    decreases s.len(),
{
    broadcast use vstd::seq_lib::group_to_multiset_ensures;

    if s.len() > 0 {
        lemma_sort_lines_permutes(s.drop_last());
        lemma_insert_line_multiset(sort_lines(s.drop_last()), s.last());
        assert(s =~= s.drop_last().push(s.last()));
    }
}

proof fn lemma_insert_line_multiset(s: Seq<LyricLine>, x: LyricLine)
    ensures
        insert_line(s, x).to_multiset() == s.to_multiset().insert(x),
    decreases s.len(),
{
    broadcast use vstd::seq_lib::group_to_multiset_ensures;

    if s.len() > 0 && s.last().timestamp > x.timestamp {
        lemma_insert_line_multiset(s.drop_last(), x);
        assert(s =~= s.drop_last().push(s.last()));
        assert(insert_line(s, x).to_multiset() =~= s.to_multiset().insert(x));
    }
}

/// Sorting by start time is stable: the lines that start at any one time
/// come out in the order they went in.
pub proof fn lemma_sort_lines_stable(s: Seq<LyricLine>, t: u64)
    ensures
        lines_at(sort_lines(s), t) == lines_at(s, t),
    decreases s.len(),
{
    if s.len() > 0 {
        lemma_sort_lines_stable(s.drop_last(), t);
        lemma_insert_line_at(sort_lines(s.drop_last()), s.last(), t);
    }
}

proof fn lemma_insert_line_at(s: Seq<LyricLine>, x: LyricLine, t: u64)
    ensures
        lines_at(insert_line(s, x), t) == if x.timestamp == t {
            lines_at(s, t).push(x)
        } else {
            lines_at(s, t)
        },
    decreases s.len(),
{
    if s.len() > 0 && s.last().timestamp > x.timestamp {
        lemma_insert_line_at(s.drop_last(), x, t);
        let r = insert_line(s.drop_last(), x);
        let rl = r.push(s.last());
        assert(insert_line(s, x) == rl);
        assert(rl.drop_last() =~= r);
        assert(rl.last() == s.last());
        if s.last().timestamp == t {
            assert(lines_at(rl, t) == lines_at(r, t).push(s.last()));
            assert(lines_at(s, t) == lines_at(s.drop_last(), t).push(s.last()));
        } else {
            assert(lines_at(rl, t) == lines_at(r, t));
            assert(lines_at(s, t) == lines_at(s.drop_last(), t));
        }
    } else if s.len() > 0 {
        let sx = s.push(x);
        assert(insert_line(s, x) == sx);
        assert(sx.drop_last() =~= s);
        assert(sx.last() == x);
        if x.timestamp == t {
            assert(lines_at(sx, t) == lines_at(s, t).push(x));
        } else {
            assert(lines_at(sx, t) == lines_at(s, t));
        }
    } else {
        let sx = seq![x];
        assert(insert_line(s, x) == sx);
        assert(sx.drop_last() =~= Seq::<LyricLine>::empty());
        assert(lines_at(s, t) =~= Seq::<LyricLine>::empty());
        assert(lines_at(sx.drop_last(), t) =~= Seq::<LyricLine>::empty());
    }
}

/// The last line that has started at `pos`: the line with the greatest
/// position among those that start no later than `pos`.
pub open spec fn last_started(s: Seq<LyricLine>, pos: u64) -> Option<int>
    decreases s.len(),
{
    if s.len() == 0 {
        None
    } else if s.last().timestamp <= pos {
        Some(s.len() - 1)
    } else {
        last_started(s.drop_last(), pos)
    }
}

/// The line to show as sung at `pos`: the last line that has started, or
/// the line before it where both start at the same time.
pub open spec fn current_line(s: Seq<LyricLine>, pos: u64) -> Option<int> {
    match last_started(s, pos) {
        Some(i) => if i > 0 && s[i].timestamp == s[i - 1].timestamp {
            Some(i - 1)
        } else {
            Some(i)
        },
        None => None,
    }
}

pub open spec fn index_of(o: Option<usize>) -> Option<int> {
    match o {
        Some(i) => Some(i as int),
        None => None,
    }
}

pub proof fn lemma_last_started(s: Seq<LyricLine>, pos: u64)
    ensures
        match last_started(s, pos) {
            Some(i) => 0 <= i < s.len() && s[i].timestamp <= pos && forall|j: int|
                i < j < s.len() ==> s[j].timestamp > pos,
            None => forall|j: int| 0 <= j < s.len() ==> s[j].timestamp > pos,
        },
    decreases s.len(),
{
    if s.len() > 0 && s.last().timestamp > pos {
        lemma_last_started(s.drop_last(), pos);
        assert forall|j: int| 0 <= j < s.len() - 1 implies s[j] == s.drop_last()[j] by {}
    }
}

/// The index of the line to show as sung at `position` (milliseconds).
pub fn current_line_index(lines: &Vec<LyricLine>, position: u64) -> (r: Option<usize>)
    ensures
        index_of(r) == current_line(lines@, position),
{
    let mut i = lines.len();
    assert(lines@.take(i as int) =~= lines@);
    while i > 0 && lines[i - 1].timestamp > position
        invariant
            0 <= i <= lines@.len(),
            last_started(lines@, position) == last_started(lines@.take(i as int), position),
        decreases i,
    {
        assert(lines@.take(i as int).drop_last() =~= lines@.take(i - 1));
        i = i - 1;
    }
    if i == 0 {
        assert(lines@.take(0) =~= Seq::<LyricLine>::empty());
        None
    } else {
        assert(lines@.take(i as int).last() == lines@[i - 1]);
        let idx = i - 1;
        if idx > 0 && lines[idx].timestamp == lines[idx - 1].timestamp {
            Some(idx - 1)
        } else {
            Some(idx)
        }
    }
}

/// Following the playback position never moves the shown line backwards.
pub proof fn lemma_current_line_monotone(s: Seq<LyricLine>, p1: u64, p2: u64)
    requires
        p1 <= p2,
        current_line(s, p1) is Some,
    ensures
        current_line(s, p2) is Some,
        current_line(s, p1)->0 <= current_line(s, p2)->0,
{
    lemma_last_started(s, p1);
    lemma_last_started(s, p2);
    let i = last_started(s, p1)->0;
    assert(last_started(s, p2) is Some) by {
        if last_started(s, p2) is None {
            assert(s[i].timestamp > p2);
        }
    }
    let j = last_started(s, p2)->0;
    if j < i {
        assert(s[i].timestamp > p2);
    }
}

/// The line shown as sung starts no later than the position, and every line
/// after the last one that has started is yet to come.
pub proof fn lemma_current_line_started(s: Seq<LyricLine>, pos: u64)
    ensures
        current_line(s, pos) matches Some(i) ==> 0 <= i < s.len() && s[i].timestamp <= pos,
        current_line(s, pos) is None <==> forall|j: int| 0 <= j < s.len() ==> s[j].timestamp > pos,
{
    lemma_last_started(s, pos);
}

/// A change of the line shown as sung: the line to show as no longer sung,
/// and the line to show as sung now.
#[derive(Clone, Copy, Debug, PartialEq, Eq, Structural)]
pub struct LineChange {
    pub previous: Option<usize>,
    pub current: Option<usize>,
}

/// What a new playback position changes: nothing where there are no lines or
/// the line to show is the one shown; else the move from the shown line to it.
pub open spec fn position_change(s: Seq<LyricLine>, shown: Option<usize>, pos: u64) -> Option<
    LineChange,
> {
    if s.len() == 0 || index_of(shown) == current_line(s, pos) {
        None
    } else {
        Some(
            LineChange {
                previous: shown,
                current: match current_line(s, pos) {
                    Some(i) => Some(i as usize),
                    None => None,
                },
            },
        )
    }
}

/// The text to show for a line: the line's text, or a single space where it is empty.
pub fn label_text(line: &LyricLine) -> (r: &str)
    ensures
        r@ == if line.text@.len() == 0 {
            " "@
        } else {
            line.text@
        },
{
    let t = line.text.as_str();
    if t.is_empty() {
        " "
    } else {
        t
    }
}

/// The lyrics shown beside the player: the lines, and the line shown as sung.
pub struct LyricsPage {
    pub lines: Vec<LyricLine>,
    pub current_index: Option<usize>,
}

impl LyricsPage {
    /// A page without lyrics.
    pub fn new() -> (r: Self)
        ensures
            r.lines@.len() == 0,
            r.current_index is None,
    {
        LyricsPage { lines: Vec::new(), current_index: None }
    }

    /// Shows new lyrics, with no line shown as sung.
    pub fn set_lines(&mut self, lines: Vec<LyricLine>)
        ensures
            final(self).lines@ == lines@,
            final(self).current_index is None,
    {
        self.lines = lines;
        self.current_index = None;
    }

    /// Follows the playback position (milliseconds): where the line to show
    /// as sung changes, it becomes the shown one and the change is returned.
    pub fn update_position(&mut self, position: u64) -> (r: Option<LineChange>)
        ensures
            r == position_change(old(self).lines@, old(self).current_index, position),
            final(self).lines@ == old(self).lines@,
            final(self).current_index == match r {
                Some(c) => c.current,
                None => old(self).current_index,
            },
    {
        if self.lines.len() == 0 {
            return None;
        }
        let target = current_line_index(&self.lines, position);
        let unchanged = match (target, self.current_index) {
            (Some(a), Some(b)) => a == b,
            (None, None) => true,
            _ => false,
        };
        if unchanged {
            None
        } else {
            let change = LineChange { previous: self.current_index, current: target };
            self.current_index = target;
            Some(change)
        }
    }
}

/// Once the page has followed a position, following the same position again
/// changes nothing.
pub proof fn lemma_position_change_settles(s: Seq<LyricLine>, shown: Option<usize>, pos: u64)
    requires
        s.len() <= usize::MAX,
    ensures
        ({
            let now = match position_change(s, shown, pos) {
                Some(c) => c.current,
                None => shown,
            };
            position_change(s, now, pos) is None
        }),
{
    lemma_last_started(s, pos);
}

/// The lines shown as sung: the shown line, if any.
pub open spec fn highlighted(shown: Option<usize>) -> Set<int> {
    match shown {
        Some(i) => set![i as int],
        None => Set::empty(),
    }
}

/// The lines shown as sung after a change is carried out on them: the
/// previous line stops being shown as sung, the current one starts.
pub open spec fn apply_change(hl: Set<int>, c: Option<LineChange>) -> Set<int> {
    match c {
        Some(c) => {
            let h = match c.previous {
                Some(p) => hl.remove(p as int),
                None => hl,
            };
            match c.current {
                Some(q) => h.insert(q as int),
                None => h,
            }
        },
        None => hl,
    }
}

/// Carrying out the changes that following the position reports keeps
/// exactly one line shown as sung, the current one (or none where no line is
/// current).
pub proof fn lemma_one_line_highlighted(s: Seq<LyricLine>, shown: Option<usize>, pos: u64)
    ensures
        ({
            let c = position_change(s, shown, pos);
            let now = match c {
                Some(c) => c.current,
                None => shown,
            };
            apply_change(highlighted(shown), c) == highlighted(now)
        }),
{
    let c = position_change(s, shown, pos);
    let now = match c {
        Some(c) => c.current,
        None => shown,
    };
    assert(apply_change(highlighted(shown), c) =~= highlighted(now));
}

/// The number of entries whose seconds were read.
pub open spec fn read_count(ms: Seq<Option<u64>>) -> nat
    decreases ms.len(),
{
    if ms.len() == 0 {
        0
    } else {
        read_count(ms.drop_last()) + if ms.last() is Some {
            1nat
        } else {
            0nat
        }
    }
}

/// The line that an entry gives at `ms` milliseconds into its minute.
pub open spec fn entry_line(e: LrcEntry, ms: u64) -> LyricLine {
    LyricLine { timestamp: (e.minutes * 60000 + ms) as u64, text: e.text }
}

/// Whether `l` is the line of one of the entries whose seconds were read.
pub open spec fn from_read_entry(es: Seq<LrcEntry>, ms: Seq<Option<u64>>, l: LyricLine) -> bool {
    exists|i: int|
        0 <= i < es.len() && #[trigger] ms[i] is Some && l == entry_line(es[i], ms[i]->0)
}

proof fn lemma_timed_lines(es: Seq<LrcEntry>, ms: Seq<Option<u64>>)
    requires
        es.len() == ms.len(),
    ensures
        timed_lines(es, ms).len() == read_count(ms),
        forall|i: int|
            0 <= i < es.len() && #[trigger] ms[i] is Some ==> timed_lines(es, ms).contains(
                entry_line(es[i], ms[i]->0),
            ),
        forall|k: int|
            0 <= k < timed_lines(es, ms).len() ==> from_read_entry(
                es,
                ms,
                #[trigger] timed_lines(es, ms)[k],
            ),
    decreases es.len(),
{
    if es.len() > 0 {
        let n = es.len() - 1;
        let d = es.drop_last();
        let m = ms.take(n);
        assert(ms.drop_last() =~= m);
        lemma_timed_lines(d, m);
        let rest = timed_lines(d, m);
        assert forall|i: int|
            0 <= i < es.len() && #[trigger] ms[i] is Some implies timed_lines(es, ms).contains(
                entry_line(es[i], ms[i]->0),
            ) by {
            if i < n {
                assert(d[i] == es[i] && m[i] == ms[i]);
                let k = choose|k: int| 0 <= k < rest.len() && rest[k] == entry_line(d[i], m[i]->0);
                if ms[n] is Some {
                    assert(timed_lines(es, ms)[k] == rest[k]);
                }
            } else {
                assert(es.last() == es[n]);
                let r = timed_lines(es, ms);
                assert(r[r.len() - 1] == entry_line(es[i], ms[i]->0));
            }
        }
        assert forall|k: int| 0 <= k < timed_lines(es, ms).len() implies from_read_entry(
            es,
            ms,
            #[trigger] timed_lines(es, ms)[k],
        ) by {
            if k < rest.len() {
                assert(from_read_entry(d, m, rest[k]));
                let i = choose|i: int|
                    0 <= i < d.len() && #[trigger] m[i] is Some && rest[k] == entry_line(d[i], m[i]->0);
                assert(d[i] == es[i] && m[i] == ms[i]);
                assert(timed_lines(es, ms)[k] == rest[k]);
            } else {
                assert(es.last() == es[n]);
                assert(ms[n] is Some);
            }
        }
    }
}

/// Every entry whose seconds were read gives exactly one line, whatever its
/// text: the lines of the lyrics are as many as the read entries, each read
/// entry's line (at `minutes * 60000 + ms`, with its text) is among them,
/// every line is such an entry's line, and they come in order of time.
pub proof fn lemma_every_read_entry_gives_a_line(es: Seq<LrcEntry>, ms: Seq<Option<u64>>)
    requires
        es.len() == ms.len(),
    ensures
        ({
            let r = sort_lines(timed_lines(es, ms));
            &&& r.len() == read_count(ms)
            &&& forall|i: int|
                0 <= i < es.len() && #[trigger] ms[i] is Some ==> r.contains(
                    entry_line(es[i], ms[i]->0),
                )
            &&& forall|k: int| 0 <= k < r.len() ==> from_read_entry(es, ms, #[trigger] r[k])
            &&& sorted_by_time(r)
        }),
{
    broadcast use vstd::seq_lib::group_to_multiset_ensures;

    lemma_timed_lines(es, ms);
    let t = timed_lines(es, ms);
    let r = sort_lines(t);
    lemma_sort_lines_permutes(t);
    lemma_sort_lines_sorted(t);
    assert(r.len() == t.len()) by {
        assert(r.to_multiset().len() == t.to_multiset().len());
    }
    assert forall|i: int|
        0 <= i < es.len() && #[trigger] ms[i] is Some implies r.contains(entry_line(es[i], ms[i]->0)) by {
        assert(t.contains(entry_line(es[i], ms[i]->0)));
        assert(t.to_multiset().count(entry_line(es[i], ms[i]->0)) > 0);
    }
    assert forall|k: int| 0 <= k < r.len() implies from_read_entry(es, ms, #[trigger] r[k]) by {
        assert(r.contains(r[k]));
        assert(r.to_multiset().count(r[k]) > 0);
        assert(t.contains(r[k]));
        let j = choose|j: int| 0 <= j < t.len() && t[j] == r[k];
        assert(from_read_entry(es, ms, t[j]));
    }
}

/// The line shown as sung at `pos`: none where no line has started; else,
/// with `i` the last line that starts no later than `pos`, the line `i - 1`
/// where it starts at the same time as `i`, and `i` otherwise.
pub proof fn lemma_current_line_meaning(s: Seq<LyricLine>, pos: u64)
    ensures
        current_line(s, pos) is None <==> forall|k: int| 0 <= k < s.len() ==> s[k].timestamp > pos,
        forall|i: int|
            0 <= i < s.len() && #[trigger] s[i].timestamp <= pos && (forall|k: int|
                i < k < s.len() ==> s[k].timestamp > pos) ==> current_line(s, pos) == if i > 0
                && s[i - 1].timestamp == s[i].timestamp {
                Some(i - 1)
            } else {
                Some(i)
            },
{
    lemma_last_started(s, pos);
    assert forall|i: int|
        0 <= i < s.len() && #[trigger] s[i].timestamp <= pos && (forall|k: int|
            i < k < s.len() ==> s[k].timestamp > pos) implies last_started(s, pos) == Some(i) by {
        match last_started(s, pos) {
            Some(j) => {
                if j < i {
                    assert(s[i].timestamp > pos);
                }
                if j > i {
                    assert(s[j].timestamp > pos);
                }
            },
            None => {
                assert(s[i].timestamp > pos);
            },
        }
    }
}

/// An entry comes from a line that starts with `[`; its seconds text holds
/// no `:`, and its lyric text has no white space at either end.
pub proof fn lemma_lrc_entry_shape(l: Seq<char>)
    ensures
        lrc_entry(l) matches Some(e) ==> {
            &&& l[0] == '['
            &&& !e.1.contains(':')
            &&& (e.2.len() > 0 ==> !is_white_space(e.2[0]) && !is_white_space(e.2.last()))
        },
{
    if l.len() > 0 && l[0] == '[' && l.contains(']') {
        let k = first_index(l, ']') as int;
        lemma_first_index(l, ']');
        lemma_trim_ends(l.skip(k + 1));
    }
}

} // verus!
