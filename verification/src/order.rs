//! Three-way comparison results and the comparisons that the sorters and
//! filters of the library are built from.
use vstd::prelude::*;

verus! {

/// The outcome of comparing two values: the first is less than, equal to,
/// or greater than the second.
#[derive(Clone, Copy, Debug, PartialEq, Eq, Structural)]
pub enum Order {
    Less,
    Equal,
    Greater,
}

impl Order {
    pub open spec fn spec_reverse(self) -> Order {
        match self {
            Order::Less => Order::Greater,
            Order::Equal => Order::Equal,
            Order::Greater => Order::Less,
        }
    }

    /// Swaps `Less` and `Greater`; `Equal` stays.
    pub fn reverse(self) -> (r: Order)
        ensures
            r == self.spec_reverse(),
    {
        match self {
            Order::Less => Order::Greater,
            Order::Equal => Order::Equal,
            Order::Greater => Order::Less,
        }
    }

    /// Lexicographic chaining: `self`, unless it is `Equal`, in which case `next`.
    pub open spec fn spec_chain(self, next: Order) -> Order {
        if self is Equal {
            next
        } else {
            self
        }
    }

    pub fn chain(self, next: Order) -> (r: Order)
        ensures
            r == self.spec_chain(next),
    {
        match self {
            Order::Equal => next,
            _ => self,
        }
    }

    pub open spec fn spec_is_eq_or(self, other: Order) -> bool {
        self == Order::Equal || self == other
    }

    /// Whether `self` is `Equal` or the given outcome: with `Greater`, this
    /// reads "at least"; with `Less`, "at most".
    pub fn is_eq_or(self, other: Order) -> (r: bool)
        ensures
            r == self.spec_is_eq_or(other),
    {
        self == Order::Equal || self == other
    }
}

/// The outcome of comparing two integers.
pub open spec fn int_order(a: int, b: int) -> Order {
    if a < b {
        Order::Less
    } else if a == b {
        Order::Equal
    } else {
        Order::Greater
    }
}

pub fn compare_u64(a: u64, b: u64) -> (r: Order)
    ensures
        r == int_order(a as int, b as int),
{
    if a < b {
        Order::Less
    } else if a == b {
        Order::Equal
    } else {
        Order::Greater
    }
}

pub fn compare_i64(a: i64, b: i64) -> (r: Order)
    ensures
        r == int_order(a as int, b as int),
{
    if a < b {
        Order::Less
    } else if a == b {
        Order::Equal
    } else {
        Order::Greater
    }
}

pub fn compare_u32(a: u32, b: u32) -> (r: Order)
    ensures
        r == int_order(a as int, b as int),
{
    if a < b {
        Order::Less
    } else if a == b {
        Order::Equal
    } else {
        Order::Greater
    }
}

/// Lexicographic order of byte strings, a proper prefix coming first.
pub open spec fn bytes_order(a: Seq<u8>, b: Seq<u8>) -> Order
    decreases a.len(),
{
    if a.len() == 0 {
        if b.len() == 0 {
            Order::Equal
        } else {
            Order::Less
        }
    } else if b.len() == 0 {
        Order::Greater
    } else if a[0] != b[0] {
        int_order(a[0] as int, b[0] as int)
    } else {
        bytes_order(a.drop_first(), b.drop_first())
    }
}

/// The order of two strings, byte by byte over their UTF-8 encodings, as
/// `str` orders them.
pub open spec fn text_order(a: Seq<char>, b: Seq<char>) -> Order {
    bytes_order(vstd::utf8::encode_utf8(a), vstd::utf8::encode_utf8(b))
}

proof fn lemma_bytes_order_skip(a: Seq<u8>, b: Seq<u8>, i: int)
    requires
        0 <= i <= a.len(),
        i <= b.len(),
        a.take(i) =~= b.take(i),
    ensures
        bytes_order(a, b) == bytes_order(a.skip(i), b.skip(i)),
    decreases i,
{
    if i > 0 {
        assert(a[0] == a.take(i)[0]);
        assert(b[0] == b.take(i)[0]);
        assert(a.drop_first().take(i - 1) =~= b.drop_first().take(i - 1)) by {
            assert forall|k: int| 0 <= k < i - 1 implies a.drop_first()[k] == b.drop_first()[k] by {
                assert(a.take(i)[k + 1] == b.take(i)[k + 1]);
            }
        }
        lemma_bytes_order_skip(a.drop_first(), b.drop_first(), i - 1);
        assert(a.drop_first().skip(i - 1) =~= a.skip(i));
        assert(b.drop_first().skip(i - 1) =~= b.skip(i));
    } else {
        assert(a.skip(0) =~= a);
        assert(b.skip(0) =~= b);
    }
}

/// Compares two byte slices lexicographically.
pub fn compare_bytes(a: &[u8], b: &[u8]) -> (r: Order)
    ensures
        r == bytes_order(a@, b@),
{
    let mut i: usize = 0;
    while i < a.len() && i < b.len()
        invariant
            0 <= i <= a@.len(),
            i <= b@.len(),
            a@.take(i as int) =~= b@.take(i as int),
        decreases a@.len() - i,
    {
        if a[i] != b[i] {
            proof {
                lemma_bytes_order_skip(a@, b@, i as int);
                assert(a@.skip(i as int)[0] == a@[i as int]);
                assert(b@.skip(i as int)[0] == b@[i as int]);
            }
            if a[i] < b[i] {
                return Order::Less;
            } else {
                return Order::Greater;
            }
        }
        assert(a@.take(i + 1) =~= a@.take(i as int).push(a@[i as int]));
        assert(b@.take(i + 1) =~= b@.take(i as int).push(b@[i as int]));
        i = i + 1;
    }
    proof {
        lemma_bytes_order_skip(a@, b@, i as int);
    }
    if i < a.len() {
        Order::Greater
    } else if i < b.len() {
        Order::Less
    } else {
        Order::Equal
    }
}

/// Compares two strings as `str` does: lexicographically over their UTF-8 bytes.
pub fn compare_text(a: &str, b: &str) -> (r: Order)
    ensures
        r == text_order(a@, b@),
{
    compare_bytes(a.as_bytes(), b.as_bytes())
}

/// Reversing twice gives back the outcome it started from.
pub proof fn lemma_reverse_involutive(o: Order)
    ensures
        o.spec_reverse().spec_reverse() == o,
{
}

/// Comparing two integers the other way round gives the reversed outcome.
pub proof fn lemma_int_order_antisymmetric(a: int, b: int)
    ensures
        int_order(a, b) == int_order(b, a).spec_reverse(),
{
}

/// Comparing two byte strings the other way round gives the reversed outcome.
pub proof fn lemma_bytes_order_antisymmetric(a: Seq<u8>, b: Seq<u8>)
    ensures
        bytes_order(a, b) == bytes_order(b, a).spec_reverse(),
    decreases a.len(),
{
    if a.len() > 0 && b.len() > 0 && a[0] == b[0] {
        lemma_bytes_order_antisymmetric(a.drop_first(), b.drop_first());
    }
}

/// Two byte strings compare `Equal` exactly when they are the same.
pub proof fn lemma_bytes_order_equal(a: Seq<u8>, b: Seq<u8>)
    ensures
        (bytes_order(a, b) == Order::Equal) == (a == b),
    decreases a.len(),
{
    if a.len() > 0 && b.len() > 0 && a[0] == b[0] {
        lemma_bytes_order_equal(a.drop_first(), b.drop_first());
        if a.drop_first() == b.drop_first() {
            assert(a =~= b) by {
                assert forall|k: int| 0 <= k < a.len() implies a[k] == b[k] by {
                    if k > 0 {
                        assert(a.drop_first()[k - 1] == b.drop_first()[k - 1]);
                    }
                }
            }
        }
        if a == b {
            assert(a.drop_first() =~= b.drop_first());
        }
    } else if a.len() > 0 && b.len() > 0 {
        assert(a[0] != b[0]);
    } else if a.len() == 0 && b.len() == 0 {
        assert(a =~= b);
    }
}

/// Lexicographic byte order is transitive.
pub proof fn lemma_bytes_order_transitive(a: Seq<u8>, b: Seq<u8>, c: Seq<u8>, o: Order)
    requires
        o != Order::Equal,
        bytes_order(a, b) == o,
        bytes_order(b, c) == o,
    ensures
        bytes_order(a, c) == o,
    decreases a.len(),
{
    if a.len() > 0 && b.len() > 0 && c.len() > 0 && a[0] == b[0] && b[0] == c[0] {
        lemma_bytes_order_transitive(a.drop_first(), b.drop_first(), c.drop_first(), o);
    }
}

} // verus!
