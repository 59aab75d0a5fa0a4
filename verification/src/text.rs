//! Character sequences: the text primitives that the parsers are built from.
//!
//! Every executable function here works on a slice of characters and is
//! specified by a function on `Seq<char>`. Patterns are string literals.

use vstd::prelude::*;
use vstd::slice::slice_subrange;

verus! {

// ---------------------------------------------------------------------------
// Conversions
// ---------------------------------------------------------------------------

/// The characters of a string slice, in order.
pub fn chars_of(s: &str) -> (out: Vec<char>)
    ensures
        out@ == s@,
{
    let mut out: Vec<char> = Vec::new();
    for c in it: s.chars()
        invariant
            it.seq() == s@,
            out@ == s@.take(it.index() as int),
    {
        out.push(c);
        assert(s@.take(it.index() + 1) =~= s@.take(it.index() as int).push(c));
    }
    assert(s@.take(s@.len() as int) =~= s@);
    out
}

/// Appends one character to a string. This is `String::push`, which adds the
/// character at the end and leaves the rest as it was.
#[verifier::external_body]
pub(crate) fn push_char(s: &mut String, c: char)
    ensures
        final(s)@ == old(s)@.push(c),
{
    s.push(c)
}

/// Appends the given characters to a string.
pub fn push_chars(out: &mut String, cs: &[char])
    ensures
        final(out)@ == old(out)@ + cs@,
{
    let mut i: usize = 0;
    while i < cs.len()
        invariant
            i <= cs.len(),
            out@ == old(out)@ + cs@.take(i as int),
        decreases cs.len() - i,
    {
        push_char(out, cs[i]);
        i += 1;
        assert(cs@.take(i as int) =~= cs@.take(i - 1).push(cs@[i - 1]));
    }
    assert(cs@.take(cs.len() as int) =~= cs@);
}

/// A string holding the given characters.
pub fn string_of(cs: &[char]) -> (out: String)
    ensures
        out@ == cs@,
{
    let mut out = String::new();
    push_chars(&mut out, cs);
    assert(Seq::<char>::empty() + cs@ =~= cs@);
    out
}

// ---------------------------------------------------------------------------
// White space
// ---------------------------------------------------------------------------

/// White space: the characters with the Unicode property `White_Space`.
pub open spec fn is_space(c: char) -> bool {
    let n = c as u32;
    ||| 0x09 <= n <= 0x0D
    ||| n == 0x20
    ||| n == 0x85
    ||| n == 0xA0
    ||| n == 0x1680
    ||| 0x2000 <= n <= 0x200A
    ||| n == 0x2028
    ||| n == 0x2029
    ||| n == 0x202F
    ||| n == 0x205F
    ||| n == 0x3000
}

/// Whether a character is white space.
pub fn char_is_space(c: char) -> (b: bool)
    ensures
        b == is_space(c),
{
    let n: u32 = c as u32;
    (0x09 <= n && n <= 0x0D) || n == 0x20 || n == 0x85 || n == 0xA0 || n == 0x1680 || (0x2000 <= n
        && n <= 0x200A) || n == 0x2028 || n == 0x2029 || n == 0x202F || n == 0x205F || n == 0x3000
}

/// A sequence without its leading white space.
pub open spec fn trimmed_start(s: Seq<char>) -> Seq<char>
    decreases s.len(),
{
    if s.len() > 0 && is_space(s[0]) {
        trimmed_start(s.drop_first())
    } else {
        s
    }
}

/// A sequence without its trailing white space.
pub open spec fn trimmed_end(s: Seq<char>) -> Seq<char>
    decreases s.len(),
{
    if s.len() > 0 && is_space(s.last()) {
        trimmed_end(s.drop_last())
    } else {
        s
    }
}

/// A sequence without leading and trailing white space.
pub open spec fn trimmed(s: Seq<char>) -> Seq<char> {
    trimmed_end(trimmed_start(s))
}

/// The part of a slice that is left when leading and trailing white space is
/// taken away.
pub fn trim(s: &[char]) -> (out: &[char])
    ensures
        out@ == trimmed(s@),
{
    let n: usize = s.len();
    let mut a: usize = 0;
    assert(s@.skip(0) =~= s@);
    while a < n && char_is_space(s[a])
        invariant
            a <= n,
            n == s@.len(),
            trimmed_start(s@) == trimmed_start(s@.skip(a as int)),
        decreases n - a,
    {
        assert(s@.skip(a as int).drop_first() =~= s@.skip(a + 1));
        a += 1;
    }
    let mut b: usize = n;
    while b > a && char_is_space(s[b - 1])
        invariant
            a <= b <= n,
            n == s@.len(),
            trimmed_end(s@.skip(a as int)) == trimmed_end(s@.subrange(a as int, b as int)),
        decreases b,
    {
        assert(s@.subrange(a as int, b as int).drop_last() =~= s@.subrange(a as int, b - 1));
        b -= 1;
    }
    proof {
        assert(s@.skip(a as int) =~= s@.subrange(a as int, n as int));
    }
    slice_subrange(s, a, b)
}

/// A text without white space at its ends is its own trimmed form.
pub proof fn lemma_trimmed_same(s: Seq<char>)
    requires
        s.len() == 0 || (!is_space(s[0]) && !is_space(s.last())),
    ensures
        trimmed(s) == s,
{
}

/// White space after a text does not change its trimmed form.
pub proof fn lemma_trimmed_end_space(s: Seq<char>, c: char)
    requires
        is_space(c),
    ensures
        trimmed_end(s.push(c)) == trimmed_end(s),
{
    assert(s.push(c).drop_last() =~= s);
}

/// A sequence without the given character at its end, however often it is
/// repeated there.
pub open spec fn trimmed_end_of(s: Seq<char>, c: char) -> Seq<char>
    decreases s.len(),
{
    if s.len() > 0 && s.last() == c {
        trimmed_end_of(s.drop_last(), c)
    } else {
        s
    }
}

/// A sequence without the given character at its start, however often it is
/// repeated there.
pub open spec fn trimmed_start_of(s: Seq<char>, c: char) -> Seq<char>
    decreases s.len(),
{
    if s.len() > 0 && s[0] == c {
        trimmed_start_of(s.drop_first(), c)
    } else {
        s
    }
}

/// The part of a slice that is left when every leading and trailing
/// occurrence of `c` is taken away.
pub fn trim_char(s: &[char], c: char) -> (out: &[char])
    ensures
        out@ == trimmed_end_of(trimmed_start_of(s@, c), c),
{
    let n: usize = s.len();
    let mut a: usize = 0;
    assert(s@.skip(0) =~= s@);
    while a < n && s[a] == c
        invariant
            a <= n,
            n == s@.len(),
            trimmed_start_of(s@, c) == trimmed_start_of(s@.skip(a as int), c),
        decreases n - a,
    {
        assert(s@.skip(a as int).drop_first() =~= s@.skip(a + 1));
        a += 1;
    }
    let mut b: usize = n;
    while b > a && s[b - 1] == c
        invariant
            a <= b <= n,
            n == s@.len(),
            trimmed_end_of(s@.skip(a as int), c) == trimmed_end_of(
                s@.subrange(a as int, b as int),
                c,
            ),
        decreases b,
    {
        assert(s@.subrange(a as int, b as int).drop_last() =~= s@.subrange(a as int, b - 1));
        b -= 1;
    }
    proof {
        assert(s@.skip(a as int) =~= s@.subrange(a as int, n as int));
    }
    slice_subrange(s, a, b)
}

/// The part of a slice that is left when every trailing occurrence of `c` is
/// taken away.
pub fn trim_end_char(s: &[char], c: char) -> (out: &[char])
    ensures
        out@ == trimmed_end_of(s@, c),
{
    let mut b: usize = s.len();
    assert(s@.take(s@.len() as int) =~= s@);
    while b > 0 && s[b - 1] == c
        invariant
            b <= s@.len(),
            trimmed_end_of(s@, c) == trimmed_end_of(s@.take(b as int), c),
        decreases b,
    {
        assert(s@.take(b as int).drop_last() =~= s@.take(b - 1));
        b -= 1;
    }
    slice_subrange(s, 0, b)
}

/// A sequence without the unit `p` at its end, however often it is repeated
/// there.
pub open spec fn without_suffix(s: Seq<char>, p: Seq<char>) -> Seq<char>
    decreases s.len(),
{
    if p.len() > 0 && has_suffix(s, p) {
        without_suffix(s.take(s.len() - p.len()), p)
    } else {
        s
    }
}

/// The part of a slice that is left when every trailing occurrence of the
/// literal `p` is taken away.
pub fn trim_end_unit<'a>(s: &'a [char], p: &str) -> (out: &'a [char])
    ensures
        out@ == without_suffix(s@, p@),
{
    let m: usize = p.unicode_len();
    let mut b: usize = s.len();
    assert(s@.take(s@.len() as int) =~= s@);
    if m == 0 {
        return s;
    }
    while b >= m && matches_at(s, b - m, p)
        invariant
            b <= s@.len(),
            m == p@.len(),
            m > 0,
            without_suffix(s@, p@) == without_suffix(s@.take(b as int), p@),
        decreases b,
    {
        proof {
            let cur = s@.take(b as int);
            assert(cur.subrange(b - m, b as int) =~= s@.subrange(b - m, b as int));
            assert(cur.take(cur.len() - m) =~= s@.take(b - m));
        }
        b -= m;
    }
    proof {
        let cur = s@.take(b as int);
        if b >= m {
            assert(cur.subrange(b - m, b as int) =~= s@.subrange(b - m, b as int));
        }
    }
    let out = slice_subrange(s, 0, b);
    assert(out@ =~= s@.take(b as int));
    out
}

// ---------------------------------------------------------------------------
// Searching
// ---------------------------------------------------------------------------

/// `p` stands in `s` at index `i`.
pub open spec fn occurs_at(s: Seq<char>, p: Seq<char>, i: int) -> bool {
    0 <= i && i + p.len() <= s.len() && s.subrange(i, i + p.len()) == p
}

/// The first index at or after `i` at which `p` stands in `s`.
pub open spec fn index_from(s: Seq<char>, p: Seq<char>, i: int) -> Option<int>
    decreases s.len() + 1 - i,
{
    if i < 0 || i + p.len() > s.len() {
        None
    } else if occurs_at(s, p, i) {
        Some(i)
    } else {
        index_from(s, p, i + 1)
    }
}

/// The first index at which `p` stands in `s`.
pub open spec fn index_of(s: Seq<char>, p: Seq<char>) -> Option<int> {
    index_from(s, p, 0)
}

/// `p` stands somewhere in `s`.
pub open spec fn includes(s: Seq<char>, p: Seq<char>) -> bool {
    index_of(s, p) is Some
}

/// `s` begins with `p`.
pub open spec fn has_prefix(s: Seq<char>, p: Seq<char>) -> bool {
    occurs_at(s, p, 0)
}

/// `s` ends with `p`.
pub open spec fn has_suffix(s: Seq<char>, p: Seq<char>) -> bool {
    occurs_at(s, p, s.len() - p.len())
}

/// `index_from` gives the first occurrence at or after `i`, and `None` only
/// where there is none.
pub proof fn lemma_index_from(s: Seq<char>, p: Seq<char>, i: int)
    requires
        0 <= i,
    ensures
        match index_from(s, p, i) {
            Some(k) => i <= k && occurs_at(s, p, k) && forall|j: int|
                i <= j < k ==> !occurs_at(s, p, j),
            None => forall|j: int| i <= j ==> !occurs_at(s, p, j),
        },
    decreases s.len() + 1 - i,
{
    if i + p.len() > s.len() {
    } else if occurs_at(s, p, i) {
    } else {
        lemma_index_from(s, p, i + 1);
    }
}

/// `index_of` gives the first occurrence, and `None` only where there is none.
pub proof fn lemma_index_of(s: Seq<char>, p: Seq<char>)
    ensures
        match index_of(s, p) {
            Some(k) => occurs_at(s, p, k) && forall|j: int| 0 <= j < k ==> !occurs_at(s, p, j),
            None => forall|j: int| !occurs_at(s, p, j),
        },
{
    lemma_index_from(s, p, 0);
}

/// The first place at or after `from` at which `p` stands is what
/// `index_from` gives.
pub proof fn lemma_first_occurrence(s: Seq<char>, p: Seq<char>, from: int, k: int)
    requires
        0 <= from <= k,
        occurs_at(s, p, k),
        forall|j: int| from <= j < k ==> !occurs_at(s, p, j),
    ensures
        index_from(s, p, from) == Some(k),
{
    lemma_index_from(s, p, from);
}

/// A text begins with what it was put together from first, and what follows
/// is the rest.
pub proof fn lemma_prefix_of_concat(p: Seq<char>, rest: Seq<char>)
    ensures
        has_prefix(p + rest, p),
        (p + rest).skip(p.len() as int) == rest,
{
    assert((p + rest).subrange(0, p.len() as int) =~= p);
    assert((p + rest).skip(p.len() as int) =~= rest);
}

/// A text that begins with `p` has each character of `p` where `p` has it.
pub proof fn lemma_prefix_char(s: Seq<char>, p: Seq<char>, i: int)
    requires
        has_prefix(s, p),
        0 <= i < p.len(),
    ensures
        i < s.len(),
        s[i] == p[i],
{
    assert(s.subrange(0, p.len() as int)[i] == s[i]);
}

/// A text in which `p` stands at index `k` has each character of `p` after
/// index `k` where `p` has it.
pub proof fn lemma_occurrence_char(s: Seq<char>, p: Seq<char>, k: int, i: int)
    requires
        occurs_at(s, p, k),
        0 <= i < p.len(),
    ensures
        k + i < s.len(),
        s[k + i] == p[i],
{
    assert(s.subrange(k, k + p.len())[i] == s[k + i]);
}

/// Whether the literal `p` stands in `s` at index `i`.
pub fn matches_at(s: &[char], i: usize, p: &str) -> (b: bool)
    requires
        i <= s@.len(),
    ensures
        b == occurs_at(s@, p@, i as int),
{
    let n: usize = s.len();
    let mut k: usize = i;
    for c in it: p.chars()
        invariant
            it.seq() == p@,
            n == s@.len(),
            k == i + it.index(),
            k <= n,
            s@.subrange(i as int, k as int) == p@.take(it.index() as int),
    {
        if k >= n {
            return false;
        }
        if s[k] != c {
            assert(!occurs_at(s@, p@, i as int)) by {
                if occurs_at(s@, p@, i as int) {
                    assert(s@.subrange(i as int, i + p@.len())[k - i] == p@[k - i]);
                }
            }
            return false;
        }
        assert(s@.subrange(i as int, k + 1) =~= s@.subrange(i as int, k as int).push(s@[k as int]));
        assert(p@.take(it.index() + 1) =~= p@.take(it.index() as int).push(c));
        k += 1;
    }
    assert(p@.take(p@.len() as int) =~= p@);
    true
}

/// Whether `s` begins with the literal `p`.
pub fn starts_with(s: &[char], p: &str) -> (b: bool)
    ensures
        b == has_prefix(s@, p@),
{
    matches_at(s, 0, p)
}

/// Whether `s` ends with the literal `p`.
pub fn ends_with(s: &[char], p: &str) -> (b: bool)
    ensures
        b == has_suffix(s@, p@),
{
    let m: usize = p.unicode_len();
    if m > s.len() {
        false
    } else {
        matches_at(s, s.len() - m, p)
    }
}

/// Whether `s` is the literal `p`.
pub fn equals(s: &[char], p: &str) -> (b: bool)
    ensures
        b == (s@ == p@),
{
    let m: usize = p.unicode_len();
    if m != s.len() {
        false
    } else {
        assert(s@.subrange(0, s@.len() as int) =~= s@);
        matches_at(s, 0, p)
    }
}

/// The first index at or after `from` at which the literal `p` stands in `s`.
pub fn find_from(s: &[char], from: usize, p: &str) -> (r: Option<usize>)
    ensures
        match r {
            Some(i) => index_from(s@, p@, from as int) == Some(i as int) && from <= i && i
                + p@.len() <= s@.len() <= usize::MAX,
            None => index_from(s@, p@, from as int) is None,
        },
{
    let n: usize = s.len();
    let m: usize = p.unicode_len();
    if from > n || m > n - from {
        return None;
    }
    let last: usize = n - m;
    let mut i: usize = from;
    while i < last
        invariant
            from <= i <= last,
            last + m == n,
            n == s@.len(),
            m == p@.len(),
            index_from(s@, p@, i as int) == index_from(s@, p@, from as int),
        decreases last - i,
    {
        if matches_at(s, i, p) {
            return Some(i);
        }
        i += 1;
    }
    if matches_at(s, last, p) {
        Some(last)
    } else {
        assert(index_from(s@, p@, last + 1) is None);
        None
    }
}

/// The first index at which the literal `p` stands in `s`.
pub fn find(s: &[char], p: &str) -> (r: Option<usize>)
    ensures
        match r {
            Some(i) => index_of(s@, p@) == Some(i as int) && i + p@.len() <= s@.len()
                <= usize::MAX,
            None => index_of(s@, p@) is None,
        },
{
    find_from(s, 0, p)
}

/// What follows the literal `p` at the start of `s`, where `s` begins with it.
pub fn strip_prefix<'a>(s: &'a [char], p: &str) -> (r: Option<&'a [char]>)
    ensures
        match r {
            Some(t) => has_prefix(s@, p@) && t@ == s@.skip(p@.len() as int),
            None => !has_prefix(s@, p@),
        },
{
    if matches_at(s, 0, p) {
        let m: usize = p.unicode_len();
        let t = slice_subrange(s, m, s.len());
        assert(t@ =~= s@.skip(m as int));
        Some(t)
    } else {
        None
    }
}

/// Whether the literal `p` stands somewhere in `s`.
pub fn contains(s: &[char], p: &str) -> (b: bool)
    ensures
        b == includes(s@, p@),
{
    find(s, p).is_some()
}

/// The first index at or after `i` at which `s` holds the character `c`.
pub open spec fn char_index_from(s: Seq<char>, c: char, i: int) -> Option<int>
    decreases s.len() - i,
{
    if i < 0 || i >= s.len() {
        None
    } else if s[i] == c {
        Some(i)
    } else {
        char_index_from(s, c, i + 1)
    }
}

/// The first index at which `s` holds the character `c`.
pub open spec fn char_index(s: Seq<char>, c: char) -> Option<int> {
    char_index_from(s, c, 0)
}

/// `char_index_from` gives the first index at or after `i` that holds `c`.
pub proof fn lemma_char_index_from(s: Seq<char>, c: char, i: int)
    requires
        0 <= i,
    ensures
        match char_index_from(s, c, i) {
            Some(k) => i <= k < s.len() && s[k] == c && forall|j: int| i <= j < k ==> s[j] != c,
            None => forall|j: int| i <= j < s.len() ==> s[j] != c,
        },
    decreases s.len() - i,
{
    if i >= s.len() {
    } else if s[i] == c {
    } else {
        lemma_char_index_from(s, c, i + 1);
    }
}

/// The first index at or after `from` at which `s` holds the character `c`.
pub fn find_char_from(s: &[char], from: usize, c: char) -> (r: Option<usize>)
    ensures
        match r {
            Some(i) => char_index_from(s@, c, from as int) == Some(i as int) && from <= i < s@.len()
                && s@[i as int] == c,
            None => char_index_from(s@, c, from as int) is None,
        },
{
    let mut i: usize = from;
    while i < s.len()
        invariant
            from <= i,
            char_index_from(s@, c, i as int) == char_index_from(s@, c, from as int),
        decreases s@.len() - i,
    {
        if s[i] == c {
            return Some(i);
        }
        i += 1;
    }
    None
}

/// The first index at which `s` holds the character `c`.
pub fn find_char(s: &[char], c: char) -> (r: Option<usize>)
    ensures
        match r {
            Some(i) => char_index(s@, c) == Some(i as int) && i < s@.len() && s@[i as int] == c,
            None => char_index(s@, c) is None,
        },
{
    find_char_from(s, 0, c)
}

/// Whether `s` holds the character `c`.
pub fn contains_char(s: &[char], c: char) -> (b: bool)
    ensures
        b == (char_index(s@, c) is Some),
{
    find_char(s, c).is_some()
}

/// The first index at or after `i` at which `s` holds `a` or `b`.
pub open spec fn either_index_from(s: Seq<char>, a: char, b: char, i: int) -> Option<int>
    decreases s.len() - i,
{
    if i < 0 || i >= s.len() {
        None
    } else if s[i] == a || s[i] == b {
        Some(i)
    } else {
        either_index_from(s, a, b, i + 1)
    }
}

/// The first index at which `s` holds `a` or `b`.
pub fn find_either(s: &[char], a: char, b: char) -> (r: Option<usize>)
    ensures
        match r {
            Some(i) => either_index_from(s@, a, b, 0) == Some(i as int) && i < s@.len(),
            None => either_index_from(s@, a, b, 0) is None,
        },
{
    let mut i: usize = 0;
    while i < s.len()
        invariant
            i <= s@.len(),
            either_index_from(s@, a, b, i as int) == either_index_from(s@, a, b, 0),
        decreases s@.len() - i,
    {
        if s[i] == a || s[i] == b {
            return Some(i);
        }
        i += 1;
    }
    None
}

// ---------------------------------------------------------------------------
// Lines
// ---------------------------------------------------------------------------

/// Where the first line of `s` ends: the index of the first line feed, or the
/// length of `s` where it holds none.
pub open spec fn line_end(s: Seq<char>) -> int {
    match char_index(s, '\n') {
        Some(i) => i,
        None => s.len() as int,
    }
}

/// The first line of `s`, without the line feed that ends it and without a
/// carriage return before that line feed.
pub open spec fn first_line(s: Seq<char>) -> Seq<char> {
    let e = line_end(s);
    if 0 < e < s.len() && s[e - 1] == '\r' {
        s.take(e - 1)
    } else {
        s.take(e)
    }
}

/// What follows the first line of `s` and its line feed.
pub open spec fn after_first_line(s: Seq<char>) -> Seq<char> {
    let e = line_end(s);
    if 0 <= e < s.len() {
        s.skip(e + 1)
    } else {
        Seq::empty()
    }
}

/// The lines of a text. A line feed ends a line; a text that ends in a line
/// feed has no empty last line.
pub open spec fn lines_of(s: Seq<char>) -> Seq<Seq<char>>
    decreases s.len(),
{
    if s.len() == 0 {
        Seq::empty()
    } else {
        seq![first_line(s)] + lines_of(after_first_line(s))
    }
}

/// The line that starts at `pos`: where its text ends, and where the next
/// line starts.
pub fn next_line(s: &[char], pos: usize) -> (r: (usize, usize))
    requires
        pos < s@.len(),
    ensures
        pos <= r.0 <= r.1 <= s@.len(),
        pos < r.1,
        s@.subrange(pos as int, r.0 as int) == first_line(s@.skip(pos as int)),
        s@.skip(r.1 as int) == after_first_line(s@.skip(pos as int)),
{
    let n: usize = s.len();
    let ghost rest = s@.skip(pos as int);
    let mut e: usize = pos;
    while e < n && s[e] != '\n'
        invariant
            pos <= e <= n,
            n == s@.len(),
            rest == s@.skip(pos as int),
            char_index_from(rest, '\n', e - pos) == char_index(rest, '\n'),
        decreases n - e,
    {
        e += 1;
    }
    assert(line_end(rest) == e - pos);
    let next: usize = if e < n {
        e + 1
    } else {
        n
    };
    let end: usize = if e < n && e > pos && s[e - 1] == '\r' {
        e - 1
    } else {
        e
    };
    proof {
        assert(s@.subrange(pos as int, end as int) =~= rest.take(end - pos));
        if e < n {
            assert(s@.skip(next as int) =~= rest.skip(e - pos + 1));
        } else {
            assert(s@.skip(next as int) =~= Seq::<char>::empty());
        }
    }
    (end, next)
}

/// A text that is not empty has a first line, and its other lines are the
/// lines of what follows the first.
pub proof fn lemma_lines_step(s: Seq<char>)
    requires
        s.len() > 0,
    ensures
        lines_of(s).len() > 0,
        lines_of(s)[0] == first_line(s),
        lines_of(s).drop_first() == lines_of(after_first_line(s)),
{
    assert(lines_of(s).drop_first() =~= lines_of(after_first_line(s)));
}

/// Lines put together again, with a line feed between one and the next.
pub open spec fn joined(ls: Seq<Seq<char>>) -> Seq<char>
    decreases ls.len(),
{
    if ls.len() == 0 {
        Seq::empty()
    } else if ls.len() == 1 {
        ls[0]
    } else {
        joined(ls.drop_last()) + seq!['\n'] + ls.last()
    }
}

// ---------------------------------------------------------------------------
// Removing and splitting
// ---------------------------------------------------------------------------

/// `s` without the occurrences of `p`, taken from left to right without
/// overlap.
pub open spec fn without(s: Seq<char>, p: Seq<char>) -> Seq<char>
    decreases s.len(),
{
    match index_of(s, p) {
        Some(i) => if p.len() > 0 && 0 <= i && i + p.len() <= s.len() {
            s.take(i) + without(s.skip(i + p.len()), p)
        } else {
            s
        },
        None => s,
    }
}

/// A copy of `s` without the occurrences of the literal `p`.
pub fn remove_all(s: &[char], p: &str) -> (out: Vec<char>)
    ensures
        out@ == without(s@, p@),
{
    let n: usize = s.len();
    let m: usize = p.unicode_len();
    let mut out: Vec<char> = Vec::new();
    let mut pos: usize = 0;
    assert(s@.skip(0) =~= s@);
    while pos < n
        invariant
            pos <= n,
            n == s@.len(),
            m == p@.len(),
            out@ + without(s@.skip(pos as int), p@) == without(s@, p@),
        decreases n - pos,
    {
        let rest = slice_subrange(s, pos, n);
        assert(rest@ =~= s@.skip(pos as int));
        let found = if m == 0 {
            None
        } else {
            find(rest, p)
        };
        let ghost before = out@;
        match found {
            Some(i) => {
                out.extend_from_slice(slice_subrange(rest, 0, i));
                proof {
                    assert(rest@.subrange(0, i as int) =~= rest@.take(i as int));
                    assert(rest@.skip(i + m) =~= s@.skip(pos + i + m));
                    assert(before + (rest@.take(i as int) + without(rest@.skip(i + m), p@))
                        =~= (before + rest@.take(i as int)) + without(rest@.skip(i + m), p@));
                }
                pos = pos + i + m;
            },
            None => {
                out.extend_from_slice(rest);
                proof {
                    lemma_without_empty(p@);
                    assert(s@.skip(n as int) =~= Seq::<char>::empty());
                    assert(before + rest@ + Seq::<char>::empty() =~= before + rest@);
                }
                pos = n;
            },
        }
    }
    proof {
        lemma_without_empty(p@);
        assert(s@.skip(n as int) =~= Seq::<char>::empty());
        assert(out@ + Seq::<char>::empty() =~= out@);
    }
    out
}

/// Nothing is left to take out of the empty sequence.
pub proof fn lemma_without_empty(p: Seq<char>)
    ensures
        without(Seq::<char>::empty(), p) == Seq::<char>::empty(),
{
    let e = Seq::<char>::empty();
    if p.len() == 0 {
        assert(e.subrange(0, 0) =~= p);
    }
}

// ---------------------------------------------------------------------------
// Words
// ---------------------------------------------------------------------------

/// The first index at or after `i` that holds no white space.
pub open spec fn after_spaces(s: Seq<char>, i: int) -> int
    decreases s.len() - i,
{
    if 0 <= i < s.len() && is_space(s[i]) {
        after_spaces(s, i + 1)
    } else {
        i
    }
}

/// The first index at or after `i` that holds white space.
pub open spec fn after_word(s: Seq<char>, i: int) -> int
    decreases s.len() - i,
{
    if 0 <= i < s.len() && !is_space(s[i]) {
        after_word(s, i + 1)
    } else {
        i
    }
}

/// The words of `s` from index `i` on: the longest runs without white space.
pub open spec fn words_from(s: Seq<char>, i: int) -> Seq<Seq<char>>
    decreases s.len() - i,
{
    let a = after_spaces(s, i);
    let e = after_word(s, a);
    if 0 <= i <= a < e <= s.len() {
        seq![s.subrange(a, e)] + words_from(s, e)
    } else {
        Seq::empty()
    }
}

/// The words of `s`: the longest runs without white space.
pub open spec fn words_of(s: Seq<char>) -> Seq<Seq<char>> {
    words_from(s, 0)
}

/// The words that the index pairs in `r` cut out of `s`.
pub open spec fn cut(s: Seq<char>, r: Seq<(usize, usize)>) -> Seq<Seq<char>> {
    Seq::new(r.len(), |k: int| s.subrange(r[k].0 as int, r[k].1 as int))
}

/// The words of `s`, each as the index where it starts and the index where
/// it ends.
pub fn words(s: &[char]) -> (r: Vec<(usize, usize)>)
    ensures
        cut(s@, r@) == words_of(s@),
        forall|k: int| 0 <= k < r@.len() ==> (#[trigger] r@[k]).0 <= r@[k].1 <= s@.len(),
{
    let n: usize = s.len();
    let mut r: Vec<(usize, usize)> = Vec::new();
    let mut i: usize = 0;
    assert(cut(s@, r@) =~= Seq::<Seq<char>>::empty());
    loop
        invariant
            i <= n,
            n == s@.len(),
            cut(s@, r@) + words_from(s@, i as int) == words_of(s@),
            forall|k: int| 0 <= k < r@.len() ==> (#[trigger] r@[k]).0 <= r@[k].1 <= s@.len(),
        decreases n - i,
    {
        let mut a: usize = i;
        while a < n && char_is_space(s[a])
            invariant
                i <= a <= n,
                n == s@.len(),
                after_spaces(s@, a as int) == after_spaces(s@, i as int),
            decreases n - a,
        {
            a += 1;
        }
        let mut e: usize = a;
        while e < n && !char_is_space(s[e])
            invariant
                a <= e <= n,
                n == s@.len(),
                after_word(s@, e as int) == after_word(s@, a as int),
            decreases n - e,
        {
            e += 1;
        }
        if e == a {
            assert(words_from(s@, i as int) =~= Seq::<Seq<char>>::empty());
            assert(cut(s@, r@) + Seq::<Seq<char>>::empty() =~= cut(s@, r@));
            return r;
        }
        let ghost before = r@;
        r.push((a, e));
        proof {
            assert(cut(s@, r@) =~= cut(s@, before) + seq![s@.subrange(a as int, e as int)]);
            assert(cut(s@, before) + (seq![s@.subrange(a as int, e as int)] + words_from(
                s@,
                e as int,
            )) =~= cut(s@, r@) + words_from(s@, e as int));
        }
        i = e;
    }
}

} // verus!
