//! Text as a sequence of characters: searching, trimming and lowering case.
//!
//! Positions are counted in characters, not in bytes.

use vstd::prelude::*;
use vstd::string::*;

verus! {

broadcast use vstd::string::group_string_axioms;

/// White space: the characters with the Unicode property `White_Space`.
pub open spec fn is_space(c: char) -> bool {
    let u = c as u32;
    ||| 0x09 <= u <= 0x0d
    ||| u == 0x20
    ||| u == 0x85
    ||| u == 0xa0
    ||| u == 0x1680
    ||| 0x2000 <= u <= 0x200a
    ||| u == 0x2028
    ||| u == 0x2029
    ||| u == 0x202f
    ||| u == 0x205f
    ||| u == 0x3000
}

/// How many white-space characters `s` begins with.
pub open spec fn leading_spaces(s: Seq<char>) -> nat
    decreases s.len(),
{
    if s.len() > 0 && is_space(s.first()) {
        1 + leading_spaces(s.drop_first())
    } else {
        0
    }
}

/// How many white-space characters `s` ends with.
pub open spec fn trailing_spaces(s: Seq<char>) -> nat
    decreases s.len(),
{
    if s.len() > 0 && is_space(s.last()) {
        1 + trailing_spaces(s.drop_last())
    } else {
        0
    }
}

/// `s` without the white space at its start and at its end.
pub open spec fn trimmed(s: Seq<char>) -> Seq<char> {
    let rest = s.skip(leading_spaces(s) as int);
    rest.take(rest.len() - trailing_spaces(rest))
}

/// `c` is one of the letters `A` to `Z`.
pub open spec fn is_upper(c: char) -> bool {
    0x41 <= c as u32 <= 0x5a
}

/// The lowercase letter for each of `A` to `Z`; any other character, also a
/// letter outside ASCII, as it stands.
pub open spec fn lower(c: char) -> char {
    if is_upper(c) {
        ((c as u32) + 0x20) as char
    } else {
        c
    }
}

/// `s` with each of its characters in lowercase.
pub open spec fn lowercase(s: Seq<char>) -> Seq<char> {
    Seq::new(s.len(), |i: int| lower(s[i]))
}

/// `pattern` stands in `s` at position `i`.
pub open spec fn occurs_at(s: Seq<char>, pattern: Seq<char>, i: int) -> bool {
    0 <= i && i + pattern.len() <= s.len() && s.subrange(i, i + pattern.len()) == pattern
}

/// `i` is the first position at which `pattern` stands in `s`.
pub open spec fn is_first_occurrence(s: Seq<char>, pattern: Seq<char>, i: int) -> bool {
    occurs_at(s, pattern, i) && forall|j: int| 0 <= j < i ==> !occurs_at(s, pattern, j)
}

/// The first position at which `pattern` stands in `s`, if there is one.
pub open spec fn first_occurrence(s: Seq<char>, pattern: Seq<char>) -> Option<int> {
    if exists|i: int| occurs_at(s, pattern, i) {
        Some(choose|i: int| is_first_occurrence(s, pattern, i))
    } else {
        None
    }
}

/// The part of `s` before the first `c`; all of `s` where `c` does not occur.
pub open spec fn before_first(s: Seq<char>, c: char) -> Seq<char> {
    match s.index_of_first(c) {
        Some(i) => s.take(i),
        None => s,
    }
}

/// The part of `s` after the first `c`; empty where `c` does not occur.
pub open spec fn after_first(s: Seq<char>, c: char) -> Seq<char> {
    match s.index_of_first(c) {
        Some(i) => s.skip(i + 1),
        None => Seq::empty(),
    }
}

/// A position that is first is the first position.
pub proof fn lemma_first_occurrence(s: Seq<char>, pattern: Seq<char>, i: int)
    requires
        is_first_occurrence(s, pattern, i),
    ensures
        first_occurrence(s, pattern) == Some(i),
{
    let k = choose|k: int| is_first_occurrence(s, pattern, k);
    assert(is_first_occurrence(s, pattern, k));
    if k < i {
        assert(!occurs_at(s, pattern, k));
    }
    if i < k {
        assert(!occurs_at(s, pattern, i));
    }
}

/// The first position of `c` is the one before which `c` does not occur.
pub proof fn lemma_index_of_first(s: Seq<char>, c: char, i: int)
    requires
        0 <= i < s.len(),
        s[i] == c,
        forall|j: int| 0 <= j < i ==> s[j] != c,
    ensures
        s.index_of_first(c) == Some(i),
{
    s.index_of_first_ensures(c);
    assert(s.contains(c));
    let k = s.index_of_first(c).unwrap();
    if k < i {
        assert(s[k] != c);
    }
}

/// The last position of `c` is the one after which `c` does not occur.
pub proof fn lemma_index_of_last(s: Seq<char>, c: char, i: int)
    requires
        0 <= i < s.len(),
        s[i] == c,
        forall|j: int| i < j < s.len() ==> s[j] != c,
    ensures
        s.index_of_last(c) == Some(i),
{
    s.index_of_last_ensures(c);
    assert(s.contains(c));
    let k = s.index_of_last(c).unwrap();
    if i < k {
        assert(s[k] != c);
    }
}

/// Counting from the start: `k` spaces and then none give `k`.
pub proof fn lemma_leading_spaces(s: Seq<char>, k: int)
    requires
        0 <= k <= s.len(),
        forall|i: int| 0 <= i < k ==> is_space(s[i]),
        k < s.len() ==> !is_space(s[k]),
    ensures
        leading_spaces(s) == k,
    decreases k,
{
    if k > 0 {
        let rest = s.drop_first();
        assert forall|i: int| 0 <= i < k - 1 implies is_space(rest[i]) by {
            assert(rest[i] == s[i + 1]);
        }
        lemma_leading_spaces(rest, k - 1);
    }
}

/// Counting from the end: `k` spaces and before them none give `k`.
pub proof fn lemma_trailing_spaces(s: Seq<char>, k: int)
    requires
        0 <= k <= s.len(),
        forall|i: int| s.len() - k <= i < s.len() ==> is_space(s[i]),
        k < s.len() ==> !is_space(s[s.len() - k - 1]),
    ensures
        trailing_spaces(s) == k,
    decreases k,
{
    if k > 0 {
        let rest = s.drop_last();
        assert forall|i: int| rest.len() - (k - 1) <= i < rest.len() implies is_space(rest[i]) by {
            assert(rest[i] == s[i]);
        }
        lemma_trailing_spaces(rest, k - 1);
    }
}

/// The white space that `s` begins with is all of its characters up to the
/// first that is none.
pub proof fn lemma_leading_spaces_are_spaces(s: Seq<char>)
    ensures
        leading_spaces(s) <= s.len(),
        forall|i: int| 0 <= i < leading_spaces(s) ==> is_space(s[i]),
        leading_spaces(s) < s.len() ==> !is_space(s[leading_spaces(s) as int]),
    decreases s.len(),
{
    if s.len() > 0 && is_space(s.first()) {
        let rest = s.drop_first();
        lemma_leading_spaces_are_spaces(rest);
        assert forall|i: int| 0 <= i < leading_spaces(s) implies is_space(s[i]) by {
            if i > 0 {
                assert(s[i] == rest[i - 1]);
            }
        }
        assert(leading_spaces(s) < s.len() ==> s[leading_spaces(s) as int] == rest[leading_spaces(
            rest,
        ) as int]);
    }
}

/// The white space that `s` ends with is all of its characters after the
/// last that is none.
pub proof fn lemma_trailing_spaces_are_spaces(s: Seq<char>)
    ensures
        trailing_spaces(s) <= s.len(),
        forall|i: int| s.len() - trailing_spaces(s) <= i < s.len() ==> is_space(s[i]),
        trailing_spaces(s) < s.len() ==> !is_space(s[s.len() - trailing_spaces(s) - 1]),
    decreases s.len(),
{
    if s.len() > 0 && is_space(s.last()) {
        let rest = s.drop_last();
        lemma_trailing_spaces_are_spaces(rest);
        assert forall|i: int| s.len() - trailing_spaces(s) <= i < s.len() implies is_space(
            s[i],
        ) by {
            if i < s.len() - 1 {
                assert(s[i] == rest[i]);
            }
        }
        assert(trailing_spaces(s) < s.len() ==> s[s.len() - trailing_spaces(s) - 1] == rest[rest.len()
            - trailing_spaces(rest) - 1]);
    }
}

/// Trimming removes white space at the two ends and nothing else: what it
/// leaves is the part of `s` between two positions, all before and all after
/// is white space, and the part neither begins nor ends with white space.
pub proof fn lemma_trimmed_is_tight(s: Seq<char>) -> (bounds: (int, int))
    ensures
        0 <= bounds.0 <= bounds.1 <= s.len(),
        trimmed(s) == s.subrange(bounds.0, bounds.1),
        forall|i: int| 0 <= i < bounds.0 ==> is_space(s[i]),
        forall|i: int| bounds.1 <= i < s.len() ==> is_space(s[i]),
        trimmed(s).len() > 0 ==> !is_space(trimmed(s).first()) && !is_space(trimmed(s).last()),
{
    let a = leading_spaces(s) as int;
    lemma_leading_spaces_are_spaces(s);
    let rest = s.skip(a);
    lemma_trailing_spaces_are_spaces(rest);
    let b = s.len() - trailing_spaces(rest);
    assert(trimmed(s) =~= s.subrange(a, b));
    assert forall|i: int| b <= i < s.len() implies is_space(s[i]) by {
        assert(s[i] == rest[i - a]);
    }
    if rest.len() > 0 {
        assert(rest[0] == s[a]);
        if trailing_spaces(rest) == rest.len() {
            assert(is_space(rest[0]));
        }
        assert(trimmed(s).first() == rest[0]);
        assert(trimmed(s).last() == rest[rest.len() - trailing_spaces(rest) - 1]);
    }
    (a, b)
}

/// Trimming what is trimmed changes nothing.
pub proof fn lemma_trimmed_twice(s: Seq<char>)
    ensures
        trimmed(trimmed(s)) == trimmed(s),
{
    let t = trimmed(s);
    let _ = lemma_trimmed_is_tight(s);
    if t.len() > 0 {
        lemma_leading_spaces(t, 0);
        assert(t.skip(0) =~= t);
        lemma_trailing_spaces(t, 0);
        assert(t.take(t.len() as int) =~= t);
    } else {
        assert(t.skip(0) =~= t);
        assert(trimmed(t) =~= t);
    }
}

/// Lowering the case changes the letters `A` to `Z` and nothing else: the
/// result is none of them, it is white space exactly when `c` is, it is a
/// given character that is no letter exactly when `c` is, and lowering it
/// again changes nothing.
pub proof fn lemma_lower_keeps_the_rest(c: char, other: char)
    ensures
        !is_upper(lower(c)),
        is_space(lower(c)) == is_space(c),
        !is_upper(other) && !(0x61 <= other as u32 <= 0x7a) ==> (lower(c) == other <==> c == other),
        lower(lower(c)) == lower(c),
{
}

/// Calls `str::to_ascii_lowercase`. Believed, not proved: each of `A` to `Z`
/// is replaced by its lowercase letter, and every other character stays.
#[verifier::external_body]
pub(crate) fn ascii_lowercase(s: &str) -> (lowered: String)
    ensures
        lowered@ == lowercase(s@),
{
    s.to_ascii_lowercase()
}

/// The characters of `s` in order, for access by index.
pub fn chars_of(s: &str) -> (v: Vec<char>)
    ensures
        v@ == s@,
{
    let mut v: Vec<char> = Vec::new();
    for c in it: s.chars()
        invariant
            it.seq() == s@,
            v@ == s@.take(it.index()),
    {
        v.push(c);
    }
    v
}

/// Whether `c` is white space.
pub fn is_space_char(c: char) -> (b: bool)
    ensures
        b == is_space(c),
{
    let u: u32 = c as u32;
    (0x09 <= u && u <= 0x0d) || u == 0x20 || u == 0x85 || u == 0xa0 || u == 0x1680 || (0x2000 <= u
        && u <= 0x200a) || u == 0x2028 || u == 0x2029 || u == 0x202f || u == 0x205f || u == 0x3000
}

/// Whether `pattern` stands in `text` at position `at`.
pub(crate) fn matches_at(text: &Vec<char>, pattern: &Vec<char>, at: usize) -> (b: bool)
    requires
        at + pattern.len() <= text.len(),
    ensures
        b == occurs_at(text@, pattern@, at as int),
{
    let m = pattern.len();
    let mut k: usize = 0;
    while k < m
        invariant
            k <= m,
            m == pattern.len(),
            at + m <= text.len(),
            forall|t: int| 0 <= t < k ==> text@[at + t] == pattern@[t],
        decreases m - k,
    {
        if text[at + k] != pattern[k] {
            assert(text@.subrange(at as int, at + m)[k as int] != pattern@[k as int]);
            return false;
        }
        k += 1;
    }
    assert(text@.subrange(at as int, at + m) =~= pattern@);
    true
}

/// The first position at which `pattern` stands in `text`.
pub fn find_in(text: &Vec<char>, pattern: &Vec<char>) -> (found: Option<usize>)
    ensures
        match found {
            Some(i) => is_first_occurrence(text@, pattern@, i as int) && first_occurrence(
                text@,
                pattern@,
            ) == Some(i as int),
            None => first_occurrence(text@, pattern@) is None,
        },
{
    let n = text.len();
    let m = pattern.len();
    if m > n {
        return None;
    }
    let last = n - m;
    let mut i: usize = 0;
    loop
        invariant
            i <= last,
            last + m == n,
            n == text.len(),
            m == pattern.len(),
            forall|j: int| 0 <= j < i ==> !occurs_at(text@, pattern@, j),
        decreases last - i,
    {
        if matches_at(text, pattern, i) {
            proof {
                lemma_first_occurrence(text@, pattern@, i as int);
            }
            return Some(i);
        }
        if i == last {
            return None;
        }
        i += 1;
    }
}

/// The first position of `c` in `text` at or after `from`.
pub(crate) fn find_char_from(text: &Vec<char>, c: char, from: usize) -> (found: Option<usize>)
    requires
        from <= text.len(),
    ensures
        match found {
            Some(i) => from <= i < text.len() && text@.skip(from as int).index_of_first(c) == Some(
                i - from,
            ),
            None => text@.skip(from as int).index_of_first(c) is None,
        },
{
    let n = text.len();
    let ghost rest = text@.skip(from as int);
    let mut i: usize = from;
    while i < n
        invariant
            from <= i <= n,
            n == text.len(),
            rest == text@.skip(from as int),
            forall|j: int| 0 <= j < i - from ==> rest[j] != c,
        decreases n - i,
    {
        if text[i] == c {
            proof {
                lemma_index_of_first(rest, c, i - from);
            }
            return Some(i);
        }
        i += 1;
    }
    proof {
        rest.index_of_first_ensures(c);
    }
    None
}

/// The last position of `c` in `text`.
pub fn find_last_char(text: &Vec<char>, c: char) -> (found: Option<usize>)
    ensures
        match found {
            Some(i) => i < text.len() && text@.index_of_last(c) == Some(i as int),
            None => text@.index_of_last(c) is None,
        },
{
    let n = text.len();
    let mut i: usize = n;
    while i > 0
        invariant
            i <= n,
            n == text.len(),
            forall|j: int| i <= j < n ==> text@[j] != c,
        decreases i,
    {
        i -= 1;
        if text[i] == c {
            proof {
                lemma_index_of_last(text@, c, i as int);
            }
            return Some(i);
        }
    }
    proof {
        text@.index_of_last_ensures(c);
    }
    None
}

/// The bounds of what trimming leaves of `text` between `from` and `to`.
pub(crate) fn trim_bounds(text: &Vec<char>, from: usize, to: usize) -> (bounds: (usize, usize))
    requires
        from <= to <= text.len(),
    ensures
        from <= bounds.0 <= bounds.1 <= to,
        text@.subrange(bounds.0 as int, bounds.1 as int) == trimmed(
            text@.subrange(from as int, to as int),
        ),
{
    let ghost part = text@.subrange(from as int, to as int);
    let mut a: usize = from;
    while a < to && is_space_char(text[a])
        invariant
            from <= a <= to <= text.len(),
            part == text@.subrange(from as int, to as int),
            forall|i: int| 0 <= i < a - from ==> is_space(part[i]),
        decreases to - a,
    {
        a += 1;
    }
    proof {
        lemma_leading_spaces(part, a - from);
    }
    let ghost rest = part.skip(a - from);
    let mut b: usize = to;
    while b > a && is_space_char(text[b - 1])
        invariant
            a <= b <= to <= text.len(),
            from <= a,
            rest == text@.subrange(a as int, to as int),
            forall|i: int| b - a <= i < rest.len() ==> is_space(rest[i]),
        decreases b,
    {
        b -= 1;
    }
    proof {
        lemma_trailing_spaces(rest, to - b);
        assert(text@.subrange(a as int, b as int) =~= rest.take(rest.len() - (to - b)));
    }
    (a, b)
}

/// `s` without the white space at its start and at its end.
pub fn trim(s: &str) -> (r: &str)
    ensures
        r@ == trimmed(s@),
{
    let text = chars_of(s);
    let (a, b) = trim_bounds(&text, 0, text.len());
    assert(text@.subrange(0, text.len() as int) =~= s@);
    s.substring_char(a, b)
}

/// Whether `s` begins with `prefix`.
pub fn starts_with(s: &str, prefix: &str) -> (b: bool)
    ensures
        b == prefix@.is_prefix_of(s@),
{
    let text = chars_of(s);
    let pattern = chars_of(prefix);
    if pattern.len() > text.len() {
        return false;
    }
    let b = matches_at(&text, &pattern, 0);
    assert(text@.subrange(0, pattern@.len() as int) == pattern@ <==> pattern@.is_prefix_of(text@));
    b
}

} // verus!
