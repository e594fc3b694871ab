//! Strings as sequences of characters, and the decimal numerals among them.

use vstd::prelude::*;
use vstd::std_specs::iter::IteratorSpec;
use vstd::string::*;

verus! {

/// Whether `c` is one of the ten decimal digits.
pub open spec fn is_digit(c: char) -> bool {
    '0' <= c && c <= '9'
}

/// The number that the digit `c` stands for.
pub open spec fn digit_value(c: char) -> nat {
    (c as nat - '0' as nat) as nat
}

/// Whether every character of `s` is a decimal digit.
pub open spec fn all_digits(s: Seq<char>) -> bool {
    forall|i: int| 0 <= i < s.len() ==> is_digit(#[trigger] s[i])
}

/// The number that a run of digits denotes in base ten, most significant
/// digit first. The empty run denotes zero.
pub open spec fn digits_value(s: Seq<char>) -> nat
    decreases s.len(),
{
    if s.len() == 0 {
        0
    } else {
        10 * digits_value(s.drop_last()) + digit_value(s.last())
    }
}

/// The digits of a numeral: what follows its optional leading `+`.
pub open spec fn numeral_digits(s: Seq<char>) -> Seq<char> {
    if s.len() > 0 && s[0] == '+' {
        s.drop_first()
    } else {
        s
    }
}

/// The number that `s` denotes as a decimal numeral: an optional `+`, then
/// one digit or more and nothing else. `None` where `s` is no numeral.
pub open spec fn numeral(s: Seq<char>) -> Option<nat> {
    let digits = numeral_digits(s);
    if digits.len() > 0 && all_digits(digits) {
        Some(digits_value(digits))
    } else {
        None
    }
}

/// The number that `s` denotes as a decimal numeral, where it fits in 64 bits.
pub open spec fn unsigned(s: Seq<char>) -> Option<u64> {
    match numeral(s) {
        Some(n) => if n <= u64::MAX {
            Some(n as u64)
        } else {
            None
        },
        None => None,
    }
}

/// A run of digits denotes at least as much as each of its prefixes.
pub proof fn lemma_prefix_value(s: Seq<char>, k: int)
    requires
        0 <= k <= s.len(),
    ensures
        digits_value(s.take(k)) <= digits_value(s),
    decreases s.len(),
{
    if k == s.len() {
        assert(s.take(k) =~= s);
    } else {
        lemma_prefix_value(s.drop_last(), k);
        assert(s.drop_last().take(k) =~= s.take(k));
    }
}

/// The characters of `s`, in order.
pub fn chars_of(s: &str) -> (out: Vec<char>)
    ensures
        out@ == s@,
{
    let mut out: Vec<char> = Vec::new();
    for c in it: s.chars()
        invariant
            out@ == it.seq().take(it.index()),
            it.seq() == s@,
    {
        out.push(c);
    }
    out
}

/// Reads `s` as a decimal numeral of at most 64 bits.
pub fn parse_u64(s: &str) -> (r: Option<u64>)
    ensures
        r == unsigned(s@),
{
    let chars = chars_of(s);
    let n = chars.len();
    let start: usize = if n > 0 && chars[0] == '+' {
        1
    } else {
        0
    };
    if start == n {
        return None;
    }
    let ghost digits = numeral_digits(s@);
    assert(digits =~= chars@.subrange(start as int, n as int));
    let mut acc: u64 = 0;
    let mut i: usize = start;
    while i < n
        invariant
            start <= i <= n,
            start < n,
            chars.len() == n,
            digits == chars@.subrange(start as int, n as int),
            digits == numeral_digits(s@),
            all_digits(digits.take(i - start)),
            acc == digits_value(digits.take(i - start)),
        decreases n - i,
    {
        let c = chars[i];
        if c < '0' || c > '9' {
            assert(!is_digit(digits[i - start]));
            return None;
        }
        let d: u64 = (c as u32 - '0' as u32) as u64;
        let ghost next = digits.take(i - start + 1);
        proof {
            assert(next.drop_last() =~= digits.take(i - start));
            assert(next.last() == c);
            assert(digits_value(next) == 10 * acc + d);
            lemma_prefix_value(digits, i - start + 1);
            assert forall|j: int| 0 <= j < next.len() implies is_digit(#[trigger] next[j]) by {
                if j < i - start {
                    assert(next[j] == digits.take(i - start)[j]);
                }
            }
        }
        let scaled = match acc.checked_mul(10) {
            Some(v) => v,
            None => {
                return None;
            },
        };
        acc = match scaled.checked_add(d) {
            Some(v) => v,
            None => {
                return None;
            },
        };
        i += 1;
    }
    assert(digits.take(n - start) =~= digits);
    Some(acc)
}

/// Keys with their values, in the order in which a query string or the
/// headers of a request give them.
pub type Pairs = Seq<(Seq<char>, Seq<char>)>;

/// The keys and values of `pairs` as sequences of characters.
pub open spec fn texts(pairs: Seq<(String, String)>) -> Pairs {
    pairs.map_values(|p: (String, String)| (p.0@, p.1@))
}

/// The test that a pair passes when its key is the given one.
pub open spec fn has_key(key: Seq<char>) -> spec_fn((Seq<char>, Seq<char>)) -> bool {
    |p: (Seq<char>, Seq<char>)| p.0 == key
}

/// The values that `pairs` gives for `key`, in order.
pub open spec fn values_of(pairs: Pairs, key: Seq<char>) -> Seq<Seq<char>> {
    pairs.filter(has_key(key)).map_values(|p: (Seq<char>, Seq<char>)| p.1)
}

/// The values for a key in the first `k + 1` pairs are those in the first
/// `k`, and the value of the pair at `k` if that pair has the key.
pub proof fn lemma_values_step(pairs: Pairs, key: Seq<char>, k: int)
    requires
        0 <= k < pairs.len(),
    ensures
        values_of(pairs.take(k + 1), key) == if pairs[k].0 == key {
            values_of(pairs.take(k), key).push(pairs[k].1)
        } else {
            values_of(pairs.take(k), key)
        },
{
    reveal(Seq::filter);
    let seen = pairs.take(k);
    let next = pairs.take(k + 1);
    assert(next.drop_last() =~= seen);
    assert(next.last() == pairs[k]);
    if pairs[k].0 == key {
        assert(next.filter(has_key(key)) == seen.filter(has_key(key)).push(pairs[k]));
        assert(values_of(next, key) =~= values_of(seen, key).push(pairs[k].1));
    }
}

/// The values for a key in the first `k` pairs open the values for it in
/// all of them.
pub proof fn lemma_values_prefix(pairs: Pairs, key: Seq<char>, k: int)
    requires
        0 <= k <= pairs.len(),
    ensures
        values_of(pairs.take(k), key).len() <= values_of(pairs, key).len(),
        forall|i: int|
            0 <= i < values_of(pairs.take(k), key).len() ==> values_of(pairs, key)[i]
                == #[trigger] values_of(pairs.take(k), key)[i],
    decreases pairs.len() - k,
{
    if k < pairs.len() {
        lemma_values_step(pairs, key, k);
        lemma_values_prefix(pairs, key, k + 1);
        let short = values_of(pairs.take(k), key);
        let long = values_of(pairs.take(k + 1), key);
        assert forall|i: int| 0 <= i < short.len() implies values_of(pairs, key)[i]
            == #[trigger] short[i] by {
            assert(long[i] == short[i]);
        }
    } else {
        assert(pairs.take(k) =~= pairs);
    }
}

/// The place of the first `c` in `s`, or the length of `s` if it has none.
pub open spec fn first_index(s: Seq<char>, c: char) -> int
    decreases s.len(),
{
    if s.len() == 0 || s[0] == c {
        0
    } else {
        1 + first_index(s.drop_first(), c)
    }
}

/// A run of `n` characters other than `c`, which ends `s` or is followed by
/// a `c`, reaches the first `c`.
pub proof fn lemma_first_index(s: Seq<char>, c: char, n: int)
    requires
        0 <= n <= s.len(),
        forall|k: int| 0 <= k < n ==> s[k] != c,
        n < s.len() ==> s[n] == c,
    ensures
        first_index(s, c) == n,
    decreases n,
{
    if n > 0 {
        let t = s.drop_first();
        assert forall|k: int| 0 <= k < n - 1 implies t[k] != c by {
            assert(t[k] == s[k + 1]);
        }
        lemma_first_index(t, c, n - 1);
    }
}

} // verus!
