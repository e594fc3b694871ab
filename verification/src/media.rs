//! Media types, as the `content-type` header of a request names them.

use crate::text::{chars_of, first_index, lemma_first_index};
use vstd::prelude::*;

verus! {

/// Whether `c` is a space or a tab.
pub open spec fn is_blank(c: char) -> bool {
    c == ' ' || c == '\t'
}

/// `s` without the blanks at its start and at its end.
pub open spec fn trimmed(s: Seq<char>) -> Seq<char>
    decreases s.len(),
{
    if s.len() > 0 && is_blank(s[0]) {
        trimmed(s.drop_first())
    } else if s.len() > 0 && is_blank(s.last()) {
        trimmed(s.drop_last())
    } else {
        s
    }
}

/// Whether `c` is the letter `lower`, in either case, or the same character.
pub open spec fn same_letter(c: char, lower: char) -> bool {
    c == lower || ('A' <= c && c <= 'Z' && c as u32 + 32 == lower as u32)
}

/// Whether `text` is `lower` but for the case of its letters.
pub open spec fn same_ignoring_case(text: Seq<char>, lower: Seq<char>) -> bool {
    &&& text.len() == lower.len()
    &&& forall|i: int| 0 <= i < text.len() ==> same_letter(#[trigger] text[i], lower[i])
}

/// The media type that a header value names: what stands before its first
/// `;`, where the parameters begin, without the blanks around it.
pub open spec fn essence(value: Seq<char>) -> Seq<char> {
    trimmed(value.take(first_index(value, ';')))
}

/// Whether a header value names JSON as the media type.
pub open spec fn names_json(value: Seq<char>) -> bool {
    same_ignoring_case(essence(value), "application/json"@)
}

/// Blanks before place `a` and from place `b` on, and none at `a` and just
/// before `b`, leave what lies between the two when `s` is trimmed.
pub proof fn lemma_trimmed(s: Seq<char>, a: int, b: int)
    requires
        0 <= a <= b <= s.len(),
        forall|k: int| 0 <= k < a ==> is_blank(s[k]),
        forall|k: int| b <= k < s.len() ==> is_blank(s[k]),
        a < b ==> !is_blank(s[a]) && !is_blank(s[b - 1]),
    ensures
        trimmed(s) == s.subrange(a, b),
    decreases s.len(),
{
    if s.len() == 0 {
        assert(s.subrange(a, b) =~= s);
    } else if is_blank(s[0]) {
        let t = s.drop_first();
        let (ta, tb) = if a > 0 {
            (a - 1, b - 1)
        } else {
            (0int, 0int)
        };
        assert forall|k: int| tb <= k < t.len() implies is_blank(t[k]) by {
            assert(t[k] == s[k + 1]);
        }
        assert forall|k: int| 0 <= k < ta implies is_blank(t[k]) by {
            assert(t[k] == s[k + 1]);
        }
        lemma_trimmed(t, ta, tb);
        assert(t.subrange(ta, tb) =~= s.subrange(a, b));
    } else if is_blank(s.last()) {
        let t = s.drop_last();
        assert(s[s.len() - 1] == s.last());
        lemma_trimmed(t, a, b);
        assert(t.subrange(a, b) =~= s.subrange(a, b));
    } else {
        assert(s[s.len() - 1] == s.last());
        assert(s.subrange(a, b) =~= s);
    }
}

/// Whether the value of a `content-type` header names JSON.
pub fn is_json(value: &str) -> (r: bool)
    ensures
        r == names_json(value@),
{
    let chars = chars_of(value);
    let wanted = chars_of("application/json");
    let n = chars.len();
    let mut stop: usize = 0;
    while stop < n && chars[stop] != ';'
        invariant
            stop <= n,
            n == chars.len(),
            forall|k: int| 0 <= k < stop ==> chars@[k] != ';',
        decreases n - stop,
    {
        stop += 1;
    }
    let ghost head = chars@.take(stop as int);
    proof {
        lemma_first_index(chars@, ';', stop as int);
    }
    let mut start: usize = 0;
    while start < stop && (chars[start] == ' ' || chars[start] == '\t')
        invariant
            start <= stop <= n,
            n == chars.len(),
            forall|k: int| 0 <= k < start ==> is_blank(chars@[k]),
        decreases stop - start,
    {
        start += 1;
    }
    let mut end: usize = stop;
    while end > start && (chars[end - 1] == ' ' || chars[end - 1] == '\t')
        invariant
            start <= end <= stop <= n,
            n == chars.len(),
            forall|k: int| end <= k < stop ==> is_blank(chars@[k]),
        decreases end,
    {
        end -= 1;
    }
    proof {
        lemma_trimmed(head, start as int, end as int);
        assert(head.subrange(start as int, end as int) =~= chars@.subrange(
            start as int,
            end as int,
        ));
    }
    let ghost text = chars@.subrange(start as int, end as int);
    assert(essence(value@) == text);
    if end - start != wanted.len() {
        return false;
    }
    let mut i: usize = 0;
    while i < wanted.len()
        invariant
            i <= wanted.len(),
            start <= end <= n,
            n == chars.len(),
            end - start == wanted.len(),
            text == chars@.subrange(start as int, end as int),
            text == essence(value@),
            wanted@ == "application/json"@,
            forall|k: int| 0 <= k < i ==> same_letter(#[trigger] text[k], wanted@[k]),
        decreases wanted.len() - i,
    {
        let c = chars[start + i];
        let w = wanted[i];
        assert(text[i as int] == c);
        let same = c == w || ('A' <= c && c <= 'Z' && c as u32 + 32 == w as u32);
        assert(same == same_letter(c, w));
        if !same {
            assert(!same_letter(text[i as int], wanted@[i as int]));
            return false;
        }
        i += 1;
    }
    true
}

} // verus!
