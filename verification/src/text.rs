//! Text primitives over sequences of characters: line splitting, trimming of
//! white space and decimal parsing, each stated as a spec function with the
//! meaning that `str::lines`, `str::trim` and `u64::from_str` give them.
use vstd::prelude::*;

verus! {

/// The characters of a string slice, in order.
pub fn chars_of(s: &str) -> (v: Vec<char>)
    ensures
        v@ == s@,
{
    let mut v: Vec<char> = Vec::new();
    for c in it: s.chars()
        invariant
            v@ == it.seq().take(it.index()),
    {
        v.push(c);
    }
    assert(v@ =~= s@);
    v
}

/// Whether two strings hold the same characters.
pub fn same_text(a: &str, b: &str) -> (r: bool)
    ensures
        r == (a@ == b@),
{
    let x = chars_of(a);
    let y = chars_of(b);
    if x.len() != y.len() {
        return false;
    }
    let mut i: usize = 0;
    while i < x.len()
        invariant
            x@ == a@,
            y@ == b@,
            x@.len() == y@.len(),
            0 <= i <= x@.len(),
            forall|k: int| 0 <= k < i ==> x@[k] == y@[k],
        decreases x@.len() - i,
    {
        if x[i] != y[i] {
            return false;
        }
        i = i + 1;
    }
    assert(x@ =~= y@);
    true
}

/// The position of the first occurrence of `c` in `s`, or the length of `s`
/// where there is none.
pub open spec fn first_index(s: Seq<char>, c: char) -> nat
    decreases s.len(),
{
    if s.len() == 0 {
        0
    } else if s[0] == c {
        0
    } else {
        1 + first_index(s.drop_first(), c)
    }
}

pub proof fn lemma_first_index(s: Seq<char>, c: char)
    ensures
        first_index(s, c) <= s.len(),
        forall|j: int| 0 <= j < first_index(s, c) ==> s[j] != c,
        first_index(s, c) < s.len() ==> s[first_index(s, c) as int] == c,
        (first_index(s, c) < s.len()) == s.contains(c),
    decreases s.len(),
{
    if s.len() > 0 && s[0] != c {
        lemma_first_index(s.drop_first(), c);
        assert forall|j: int| 0 <= j < first_index(s, c) implies s[j] != c by {
            if j > 0 {
                assert(s.drop_first()[j - 1] == s[j]);
            }
        }
        if s.drop_first().contains(c) {
            let j = choose|j: int| 0 <= j < s.drop_first().len() && s.drop_first()[j] == c;
            assert(s[j + 1] == c);
        }
        if s.contains(c) {
            let j = choose|j: int| 0 <= j < s.len() && s[j] == c;
            assert(s.drop_first()[j - 1] == c);
        }
    } else if s.len() > 0 {
        assert(s[0] == c);
    }
}

pub proof fn lemma_first_index_at(s: Seq<char>, c: char, k: int)
    requires
        0 <= k <= s.len(),
        forall|j: int| 0 <= j < k ==> s[j] != c,
        k < s.len() ==> s[k] == c,
    ensures
        first_index(s, c) == k,
{
    lemma_first_index(s, c);
    if first_index(s, c) < k {
        assert(s[first_index(s, c) as int] == c);
    }
    if first_index(s, c) > k {
        assert(s[k] != c);
    }
}

/// Finds the first occurrence of `c` in `v[lo..hi]`; returns `hi` where there is none.
pub fn find_char(v: &Vec<char>, lo: usize, hi: usize, c: char) -> (r: usize)
    requires
        lo <= hi <= v@.len(),
    ensures
        r == lo + first_index(v@.subrange(lo as int, hi as int), c),
        lo <= r <= hi,
{
    let mut i = lo;
    while i < hi && v[i] != c
        invariant
            lo <= i <= hi <= v@.len(),
            forall|j: int| lo <= j < i ==> v@[j] != c,
        decreases hi - i,
    {
        i = i + 1;
    }
    proof {
        lemma_first_index_at(v@.subrange(lo as int, hi as int), c, i - lo);
    }
    i
}

/// A line with one carriage return taken off its end, if it ends with one.
pub open spec fn strip_cr(l: Seq<char>) -> Seq<char> {
    if l.len() > 0 && l.last() == '\r' {
        l.drop_last()
    } else {
        l
    }
}

/// The lines of a text, as `str::lines` gives them: a line ends at `\n` or at
/// `\r\n`; the last line needs no ending, and keeps a lone `\r` at its end;
/// an empty text has no lines.
pub open spec fn lines(s: Seq<char>) -> Seq<Seq<char>>
    decreases s.len(),
{
    if s.len() == 0 {
        seq![]
    } else {
        let k = first_index(s, '\n');
        if k < s.len() {
            seq![strip_cr(s.take(k as int))] + lines(s.skip((k + 1) as int))
        } else {
            seq![s]
        }
    }
}

/// The text that a range of positions covers.
pub open spec fn range_text(s: Seq<char>, r: (usize, usize)) -> Seq<char> {
    s.subrange(r.0 as int, r.1 as int)
}

pub open spec fn ranges_text(s: Seq<char>, rs: Seq<(usize, usize)>) -> Seq<Seq<char>> {
    rs.map_values(|r: (usize, usize)| range_text(s, r))
}

pub open spec fn ranges_within(rs: Seq<(usize, usize)>, len: nat) -> bool {
    forall|i: int| 0 <= i < rs.len() ==> (#[trigger] rs[i]).0 <= rs[i].1 <= len
}

/// The ranges of positions that the lines of `v` cover.
pub fn line_ranges(v: &Vec<char>) -> (rs: Vec<(usize, usize)>)
    ensures
        ranges_within(rs@, v@.len()),
        ranges_text(v@, rs@) == lines(v@),
{
    let mut rs: Vec<(usize, usize)> = Vec::new();
    let mut st: usize = 0;
    let mut i: usize = 0;
    assert(v@.skip(0) =~= v@);
    while i < v.len()
        invariant
            0 <= st <= i <= v@.len(),
            forall|j: int| st <= j < i ==> v@[j] != '\n',
            ranges_within(rs@, v@.len()),
            ranges_text(v@, rs@) + lines(v@.skip(st as int)) == lines(v@),
        decreases v@.len() - i,
    {
        if v[i] == '\n' {
            let ghost rest = v@.skip(st as int);
            proof {
                lemma_first_index_at(rest, '\n', i - st);
                assert(rest.take(i - st) =~= v@.subrange(st as int, i as int));
                assert(rest.skip(i - st + 1) =~= v@.skip(i + 1));
            }
            let r = if i > st && v[i - 1] == '\r' {
                (st, i - 1)
            } else {
                (st, i)
            };
            assert(range_text(v@, r) == strip_cr(v@.subrange(st as int, i as int)));
            let ghost old_rs = rs@;
            rs.push(r);
            assert(ranges_text(v@, rs@) =~= ranges_text(v@, old_rs).push(range_text(v@, r)));
            assert(lines(rest) == seq![range_text(v@, r)] + lines(v@.skip(i + 1)));
            assert(ranges_text(v@, rs@) + lines(v@.skip(i + 1)) =~= ranges_text(v@, old_rs)
                + lines(rest));
            st = i + 1;
        }
        i = i + 1;
    }
    if st < v.len() {
        let ghost rest = v@.skip(st as int);
        proof {
            lemma_first_index_at(rest, '\n', rest.len() as int);
            assert(rest =~= v@.subrange(st as int, v@.len() as int));
        }
        let ghost old_rs = rs@;
        rs.push((st, v.len()));
        assert(ranges_text(v@, rs@) =~= ranges_text(v@, old_rs).push(rest));
        assert(lines(rest) == seq![rest]);
        assert(ranges_text(v@, rs@) =~= ranges_text(v@, old_rs) + lines(rest));
    } else {
        assert(lines(v@.skip(st as int)) =~= Seq::<Seq<char>>::empty());
        assert(ranges_text(v@, rs@) + Seq::<Seq<char>>::empty() =~= ranges_text(v@, rs@));
    }
    rs
}

/// White space as `char::is_whitespace` has it: the characters with the
/// Unicode `White_Space` property.
pub open spec fn is_white_space(c: char) -> bool {
    ||| ('\u{9}' <= c && c <= '\u{d}')
    ||| c == ' '
    ||| c == '\u{85}'
    ||| c == '\u{a0}'
    ||| c == '\u{1680}'
    ||| ('\u{2000}' <= c && c <= '\u{200a}')
    ||| c == '\u{2028}'
    ||| c == '\u{2029}'
    ||| c == '\u{202f}'
    ||| c == '\u{205f}'
    ||| c == '\u{3000}'
}

pub fn white_space(c: char) -> (r: bool)
    ensures
        r == is_white_space(c),
{
    ('\u{9}' <= c && c <= '\u{d}') || c == ' ' || c == '\u{85}' || c == '\u{a0}' || c
        == '\u{1680}' || ('\u{2000}' <= c && c <= '\u{200a}') || c == '\u{2028}' || c
        == '\u{2029}' || c == '\u{202f}' || c == '\u{205f}' || c == '\u{3000}'
}

pub open spec fn trim_start(s: Seq<char>) -> Seq<char>
    decreases s.len(),
{
    if s.len() > 0 && is_white_space(s[0]) {
        trim_start(s.drop_first())
    } else {
        s
    }
}

pub open spec fn trim_end(s: Seq<char>) -> Seq<char>
    decreases s.len(),
{
    if s.len() > 0 && is_white_space(s.last()) {
        trim_end(s.drop_last())
    } else {
        s
    }
}

/// A text without its leading and trailing white space, as `str::trim` gives it.
pub open spec fn trim(s: Seq<char>) -> Seq<char> {
    trim_end(trim_start(s))
}

/// The range of `v[lo..hi]` that remains once white space is trimmed from both ends.
pub fn trim_range(v: &Vec<char>, lo: usize, hi: usize) -> (r: (usize, usize))
    requires
        lo <= hi <= v@.len(),
    ensures
        lo <= r.0 <= r.1 <= hi,
        range_text(v@, r) == trim(v@.subrange(lo as int, hi as int)),
{
    let mut a = lo;
    while a < hi && white_space(v[a])
        invariant
            lo <= a <= hi <= v@.len(),
            trim_start(v@.subrange(lo as int, hi as int)) == trim_start(
                v@.subrange(a as int, hi as int),
            ),
        decreases hi - a,
    {
        assert(v@.subrange(a as int, hi as int).drop_first() =~= v@.subrange(a + 1, hi as int));
        a = a + 1;
    }
    assert(trim_start(v@.subrange(a as int, hi as int)) == v@.subrange(a as int, hi as int));
    let mut b = hi;
    while b > a && white_space(v[b - 1])
        invariant
            lo <= a <= b <= hi <= v@.len(),
            trim_end(v@.subrange(a as int, hi as int)) == trim_end(
                v@.subrange(a as int, b as int),
            ),
        decreases b - a,
    {
        assert(v@.subrange(a as int, b as int).drop_last() =~= v@.subrange(a as int, b - 1));
        b = b - 1;
    }
    assert(trim_end(v@.subrange(a as int, b as int)) == v@.subrange(a as int, b as int));
    (a, b)
}

proof fn lemma_trim_start(s: Seq<char>)
    ensures
        trim_start(s).len() > 0 ==> !is_white_space(trim_start(s)[0]),
        trim_start(s) == s.skip(s.len() - trim_start(s).len()),
        trim_start(s).len() <= s.len(),
    decreases s.len(),
{
    if s.len() > 0 && is_white_space(s[0]) {
        lemma_trim_start(s.drop_first());
        assert(s.drop_first().skip(s.drop_first().len() - trim_start(s).len()) =~= s.skip(
            s.len() - trim_start(s).len(),
        ));
    } else {
        assert(s.skip(0) =~= s);
    }
}

proof fn lemma_trim_end(s: Seq<char>)
    ensures
        trim_end(s).len() > 0 ==> !is_white_space(trim_end(s).last()),
        trim_end(s) == s.take(trim_end(s).len() as int),
        trim_end(s).len() <= s.len(),
    decreases s.len(),
{
    if s.len() > 0 && is_white_space(s.last()) {
        lemma_trim_end(s.drop_last());
        assert(s.drop_last().take(trim_end(s).len() as int) =~= s.take(trim_end(s).len() as int));
    } else {
        assert(s.take(s.len() as int) =~= s);
    }
}

/// A trimmed text neither starts nor ends with white space.
pub proof fn lemma_trim_ends(s: Seq<char>)
    ensures
        trim(s).len() > 0 ==> !is_white_space(trim(s)[0]) && !is_white_space(trim(s).last()),
{
    let t = trim_start(s);
    lemma_trim_start(s);
    lemma_trim_end(t);
    if trim(s).len() > 0 {
        assert(trim(s)[0] == t[0]);
    }
}

pub open spec fn is_digit(c: char) -> bool {
    '0' <= c && c <= '9'
}

pub open spec fn digit_value(c: char) -> int {
    c as int - '0' as int
}

pub open spec fn all_digits(s: Seq<char>) -> bool {
    forall|i: int| 0 <= i < s.len() ==> is_digit(#[trigger] s[i])
}

/// The number that a string of decimal digits writes.
pub open spec fn decimal_value(s: Seq<char>) -> int
    decreases s.len(),
{
    if s.len() == 0 {
        0
    } else {
        decimal_value(s.drop_last()) * 10 + digit_value(s.last())
    }
}

/// The digits of a number that `u64::from_str` reads: all after one leading `+`.
pub open spec fn unsigned_digits(s: Seq<char>) -> Seq<char> {
    if s.len() > 0 && s[0] == '+' {
        s.drop_first()
    } else {
        s
    }
}

/// What `u64::from_str` gives: a number where the text, after an optional
/// leading `+`, is one or more ASCII digits whose value fits in 64 bits.
pub open spec fn parse_u64(s: Seq<char>) -> Option<u64> {
    let d = unsigned_digits(s);
    if d.len() > 0 && all_digits(d) && decimal_value(d) <= u64::MAX {
        Some(decimal_value(d) as u64)
    } else {
        None
    }
}

proof fn lemma_decimal_value_nonneg(s: Seq<char>)
    requires
        all_digits(s),
    ensures
        decimal_value(s) >= 0,
    decreases s.len(),
{
    if s.len() > 0 {
        assert(all_digits(s.drop_last())) by {
            assert forall|i: int| 0 <= i < s.drop_last().len() implies is_digit(
                #[trigger] s.drop_last()[i],
            ) by {
                assert(is_digit(s[i]));
            }
        }
        lemma_decimal_value_nonneg(s.drop_last());
        assert(is_digit(s[s.len() - 1]));
    }
}

proof fn lemma_decimal_prefix_le(s: Seq<char>, i: int)
    requires
        all_digits(s),
        0 <= i <= s.len(),
    ensures
        decimal_value(s.take(i)) <= decimal_value(s),
    decreases s.len(),
{
    if i == s.len() {
        assert(s.take(i) =~= s);
    } else {
        let t = s.drop_last();
        assert(all_digits(t)) by {
            assert forall|k: int| 0 <= k < t.len() implies is_digit(#[trigger] t[k]) by {
                assert(is_digit(s[k]));
            }
        }
        lemma_decimal_prefix_le(t, i);
        assert(t.take(i) =~= s.take(i));
        lemma_decimal_value_nonneg(t);
        assert(is_digit(s[s.len() - 1]));
    }
}

/// Reads `v[lo..hi]` as `u64::from_str` does.
pub fn parse_u64_range(v: &Vec<char>, lo: usize, hi: usize) -> (r: Option<u64>)
    requires
        lo <= hi <= v@.len(),
    ensures
        r == parse_u64(v@.subrange(lo as int, hi as int)),
{
    let ghost s = v@.subrange(lo as int, hi as int);
    let mut start = lo;
    if lo < hi && v[lo] == '+' {
        start = lo + 1;
    }
    let ghost d = v@.subrange(start as int, hi as int);
    assert(unsigned_digits(s) =~= d);
    if start == hi {
        return None;
    }
    let mut acc: u64 = 0;
    let mut i = start;
    while i < hi
        invariant
            lo <= start <= i <= hi <= v@.len(),
            d == v@.subrange(start as int, hi as int),
            unsigned_digits(v@.subrange(lo as int, hi as int)) == d,
            all_digits(d.take(i - start)),
            acc as int == decimal_value(d.take(i - start)),
        decreases hi - i,
    {
        let c = v[i];
        assert(c == d[i - start]);
        if !('0' <= c && c <= '9') {
            assert(!is_digit(d[i - start]));
            assert(!all_digits(d));
            return None;
        }
        let dig = (c as u32 - '0' as u32) as u64;
        assert(dig as int == digit_value(c));
        assert(d.take(i - start + 1).last() == c);
        assert(d.take(i - start + 1).drop_last() =~= d.take(i - start));
        assert(decimal_value(d.take(i - start + 1)) == decimal_value(d.take(i - start)) * 10 + dig);
        assert(all_digits(d.take(i - start + 1))) by {
            assert forall|k: int| 0 <= k < i - start + 1 implies is_digit(
                #[trigger] d.take(i - start + 1)[k],
            ) by {
                if k < i - start {
                    assert(d.take(i - start + 1)[k] == d.take(i - start)[k]);
                }
            }
        }
        let next = match acc.checked_mul(10) {
            Some(m) => m.checked_add(dig),
            None => None,
        };
        match next {
            Some(n) => {
                acc = n;
            },
            None => {
                proof {
                    assert(acc * 10 + dig > u64::MAX);
                    if all_digits(d) {
                        lemma_decimal_prefix_le(d, i - start + 1);
                    }
                }
                return None;
            },
        }
        i = i + 1;
    }
    assert(d.take(i - start) =~= d);
    Some(acc)
}

/// The character of a decimal digit.
pub open spec fn digit_char(d: nat) -> char {
    if d == 0 {
        '0'
    } else if d == 1 {
        '1'
    } else if d == 2 {
        '2'
    } else if d == 3 {
        '3'
    } else if d == 4 {
        '4'
    } else if d == 5 {
        '5'
    } else if d == 6 {
        '6'
    } else if d == 7 {
        '7'
    } else if d == 8 {
        '8'
    } else {
        '9'
    }
}

/// A number written in decimal, without leading zeros.
pub open spec fn decimal_text(n: nat) -> Seq<char>
    decreases n,
{
    if n < 10 {
        seq![digit_char(n)]
    } else {
        decimal_text(n / 10).push(digit_char(n % 10))
    }
}

fn digit_str(d: u64) -> (r: &'static str)
    requires
        d < 10,
    ensures
        r@ == seq![digit_char(d as nat)],
{
    proof {
        reveal_strlit("0");
        reveal_strlit("1");
        reveal_strlit("2");
        reveal_strlit("3");
        reveal_strlit("4");
        reveal_strlit("5");
        reveal_strlit("6");
        reveal_strlit("7");
        reveal_strlit("8");
        reveal_strlit("9");
    }
    let r = if d == 0 {
        "0"
    } else if d == 1 {
        "1"
    } else if d == 2 {
        "2"
    } else if d == 3 {
        "3"
    } else if d == 4 {
        "4"
    } else if d == 5 {
        "5"
    } else if d == 6 {
        "6"
    } else if d == 7 {
        "7"
    } else if d == 8 {
        "8"
    } else {
        "9"
    };
    assert(r@ =~= seq![digit_char(d as nat)]);
    r
}

/// Appends `n` written in decimal.
pub fn push_decimal(s: &mut String, n: u64)
    ensures
        final(s)@ == old(s)@ + decimal_text(n as nat),
    decreases n,
{
    if n >= 10 {
        push_decimal(s, n / 10);
    }
    s.append(digit_str(n % 10));
    proof {
        if n < 10 {
            assert(n % 10 == n);
        }
    }
    assert(s@ =~= old(s)@ + decimal_text(n as nat));
}

/// Writing a number in decimal and reading it back with `u64::from_str`
/// gives the number.
pub proof fn lemma_decimal_text_parses(n: u64)
    ensures
        parse_u64(decimal_text(n as nat)) == Some(n),
{
    lemma_decimal_text_value(n as nat);
    let t = decimal_text(n as nat);
    assert(t[0] != '+') by {
        lemma_decimal_text_digits(n as nat);
        assert(is_digit(t[0]));
    }
    assert(unsigned_digits(t) == t);
}

proof fn lemma_decimal_text_digits(n: nat)
    ensures
        all_digits(decimal_text(n)),
        decimal_text(n).len() > 0,
    decreases n,
{
    if n >= 10 {
        lemma_decimal_text_digits(n / 10);
        let t = decimal_text(n / 10);
        assert forall|i: int| 0 <= i < t.push(digit_char(n % 10)).len() implies is_digit(
            #[trigger] t.push(digit_char(n % 10))[i],
        ) by {
            if i < t.len() {
                assert(is_digit(t[i]));
            }
        }
    }
}

proof fn lemma_decimal_text_value(n: nat)
    ensures
        all_digits(decimal_text(n)),
        decimal_text(n).len() > 0,
        decimal_value(decimal_text(n)) == n,
    decreases n,
{
    lemma_decimal_text_digits(n);
    if n >= 10 {
        lemma_decimal_text_value(n / 10);
        let t = decimal_text(n / 10);
        let u = t.push(digit_char(n % 10));
        assert(decimal_text(n) == u);
        assert(u.drop_last() =~= t);
        assert(u.last() == digit_char(n % 10));
        assert(digit_value(digit_char(n % 10)) == n % 10);
        assert(decimal_value(u) == decimal_value(t) * 10 + n % 10);
        assert(n == (n / 10) * 10 + n % 10);
    } else {
        let u = seq![digit_char(n)];
        assert(decimal_text(n) == u);
        assert(u.drop_last() =~= Seq::<char>::empty());
        assert(u.last() == digit_char(n));
        assert(digit_value(digit_char(n)) == n);
        assert(decimal_value(u) == decimal_value(u.drop_last()) * 10 + digit_value(u.last()));
    }
}

} // verus!
