//! Fixed-point numbers: every length, coordinate and style value is a decimal
//! number with three places after the point, held as a count of thousandths.
//! Sums and products that leave the range of `i64` stay at its nearest end.

use crate::text::{char_index, char_index_from, find_char, lemma_char_index_from, push_char};
use vstd::prelude::*;
use vstd::slice::slice_subrange;

verus! {

/// A decimal number with three places after the point.
#[derive(Clone, Copy, Debug, PartialEq, Eq, Structural)]
pub struct Num {
    /// The number in thousandths.
    pub milli: i64,
}

impl View for Num {
    type V = int;

    open spec fn view(&self) -> int {
        self.milli as int
    }
}

/// The nearest value to `v` that a `Num` can hold.
pub open spec fn clamped(v: int) -> int {
    if v < i64::MIN {
        i64::MIN as int
    } else if v > i64::MAX {
        i64::MAX as int
    } else {
        v
    }
}

/// The distance of an integer from zero.
pub open spec fn magnitude(a: int) -> int {
    if a >= 0 {
        a
    } else {
        -a
    }
}

/// The number of `clamped(v)` thousandths.
pub open spec fn num(v: int) -> Num {
    Num { milli: clamped(v) as i64 }
}

fn clamp(v: i128) -> (r: Num)
    ensures
        r == num(v as int),
{
    if v < i64::MIN as i128 {
        Num { milli: i64::MIN }
    } else if v > i64::MAX as i128 {
        Num { milli: i64::MAX }
    } else {
        Num { milli: v as i64 }
    }
}

impl Num {
    /// The sum, kept in range.
    pub open spec fn sum(self, other: Num) -> Num {
        num(self@ + other@)
    }

    /// The difference, kept in range.
    pub open spec fn difference(self, other: Num) -> Num {
        num(self@ - other@)
    }

    /// The number taken `n` times, kept in range.
    pub open spec fn product(self, n: int) -> Num {
        num(self@ * n)
    }

    /// Twice the number, kept in range.
    pub open spec fn doubled(self) -> Num {
        num(2 * self@)
    }

    /// Half the number; an odd count of thousandths is rounded down.
    pub open spec fn halved(self) -> Num {
        num(self@ / 2)
    }

    /// The larger of two numbers.
    pub open spec fn greater(self, other: Num) -> Num {
        if self@ >= other@ {
            self
        } else {
            other
        }
    }

    /// The smaller of two numbers.
    pub open spec fn lesser(self, other: Num) -> Num {
        if self@ <= other@ {
            self
        } else {
            other
        }
    }

    /// The distance from zero, kept in range.
    pub open spec fn size(self) -> Num {
        num(magnitude(self@))
    }

    /// The whole number `n`.
    pub fn from_int(n: i32) -> (r: Num)
        ensures
            r@ == n * 1000,
    {
        Num { milli: n as i64 * 1000 }
    }

    /// The number of `milli` thousandths.
    pub fn from_milli(milli: i64) -> (r: Num)
        ensures
            r@ == milli,
    {
        Num { milli }
    }

    /// Zero.
    pub fn zero() -> (r: Num)
        ensures
            r@ == 0,
    {
        Num { milli: 0 }
    }

    /// The sum, kept in range.
    pub fn plus(self, other: Num) -> (r: Num)
        ensures
            r == self.sum(other),
    {
        clamp(self.milli as i128 + other.milli as i128)
    }

    /// The difference, kept in range.
    pub fn minus(self, other: Num) -> (r: Num)
        ensures
            r == self.difference(other),
    {
        clamp(self.milli as i128 - other.milli as i128)
    }

    /// The number taken `n` times, kept in range.
    pub fn times(self, n: usize) -> (r: Num)
        ensures
            r == self.product(n as int),
    {
        let m: i64 = self.milli;
        if m == 0 || n == 0 {
            assert(m * n == 0) by (nonlinear_arith)
                requires
                    m == 0 || n == 0,
            ;
            return Num { milli: 0 };
        }
        let k: u64 = n as u64;
        if k > 0x7fff_ffff_ffff_ffff {
            assert(m > 0 ==> m * n > i64::MAX) by (nonlinear_arith)
                requires
                    n > 0x7fff_ffff_ffff_ffff,
            ;
            assert(m < 0 ==> m * n <= i64::MIN) by (nonlinear_arith)
                requires
                    n > 0x7fff_ffff_ffff_ffff,
            ;
            return if m > 0 {
                Num { milli: i64::MAX }
            } else {
                Num { milli: i64::MIN }
            };
        }
        match m.checked_mul(k as i64) {
            Some(v) => Num { milli: v },
            None => {
                assert(m > 0 ==> m * n >= 0) by (nonlinear_arith)
                    requires
                        n > 0,
                ;
                assert(m < 0 ==> m * n <= 0) by (nonlinear_arith)
                    requires
                        n > 0,
                ;
                if m > 0 {
                    Num { milli: i64::MAX }
                } else {
                    Num { milli: i64::MIN }
                }
            },
        }
    }

    /// Twice the number, kept in range.
    pub fn twice(self) -> (r: Num)
        ensures
            r == self.doubled(),
    {
        clamp(self.milli as i128 * 2)
    }

    /// Half the number; an odd count of thousandths is rounded down.
    pub fn half(self) -> (r: Num)
        ensures
            r == self.halved(),
    {
        if self.milli >= 0 {
            Num { milli: self.milli / 2 }
        } else {
            Num { milli: -((-(self.milli + 1)) / 2) - 1 }
        }
    }

    /// The larger of two numbers.
    pub fn max(self, other: Num) -> (r: Num)
        ensures
            r == self.greater(other),
    {
        if self.milli >= other.milli {
            self
        } else {
            other
        }
    }

    /// The smaller of two numbers.
    pub fn min(self, other: Num) -> (r: Num)
        ensures
            r == self.lesser(other),
    {
        if self.milli <= other.milli {
            self
        } else {
            other
        }
    }

    /// The distance from zero, kept in range.
    pub fn abs(self) -> (r: Num)
        ensures
            r == self.size(),
    {
        if self.milli >= 0 {
            self
        } else {
            clamp(-(self.milli as i128))
        }
    }

    /// Whether the number is zero.
    pub fn is_zero(self) -> (b: bool)
        ensures
            b == (self@ == 0),
    {
        self.milli == 0
    }

    /// Whether the number is above `other`.
    pub fn above(self, other: Num) -> (b: bool)
        ensures
            b == (self@ > other@),
    {
        self.milli > other.milli
    }

    /// Whether the number is below `other`.
    pub fn below(self, other: Num) -> (b: bool)
        ensures
            b == (self@ < other@),
    {
        self.milli < other.milli
    }
}

// ---------------------------------------------------------------------------
// Writing numbers
// ---------------------------------------------------------------------------

/// The character of the decimal digit `d`.
pub open spec fn digit_char(d: int) -> char {
    ((48 + d) as u8) as char
}

/// The decimal digits of a natural number, without leading zeros.
pub open spec fn digits_of(n: nat) -> Seq<char>
    decreases n,
{
    if n < 10 {
        seq![digit_char(n as int)]
    } else {
        digits_of(n / 10).push(digit_char((n % 10) as int))
    }
}

/// The places after the point for `f` thousandths, `0 <= f < 1000`: nothing
/// for zero, else the point and the digits up to the last that is not zero.
pub open spec fn fraction_text(f: int) -> Seq<char> {
    if f == 0 {
        Seq::empty()
    } else if f % 100 == 0 {
        seq!['.', digit_char(f / 100)]
    } else if f % 10 == 0 {
        seq!['.', digit_char(f / 100), digit_char(f / 10 % 10)]
    } else {
        seq!['.', digit_char(f / 100), digit_char(f / 10 % 10), digit_char(f % 10)]
    }
}

/// The decimal numeral of `v` thousandths: a minus sign where `v` is
/// negative, the whole part, and the places after the point where there are
/// any.
pub open spec fn decimal_text(v: int) -> Seq<char> {
    let m = magnitude(v);
    let sign = if v < 0 {
        seq!['-']
    } else {
        Seq::empty()
    };
    sign + digits_of((m / 1000) as nat) + fraction_text(m % 1000)
}

fn digit(d: u64) -> (c: char)
    requires
        d < 10,
    ensures
        c == digit_char(d as int),
{
    ((48 + d) as u8) as char
}

fn push_digits(out: &mut String, n: u64)
    ensures
        final(out)@ == old(out)@ + digits_of(n as nat),
    decreases n,
{
    if n >= 10 {
        push_digits(out, n / 10);
    }
    push_char(out, digit(n % 10));
    proof {
        if n >= 10 {
            assert(old(out)@ + digits_of(n as nat) =~= (old(out)@ + digits_of((n / 10) as nat)).push(
                digit_char((n % 10) as int),
            ));
        } else {
            assert(old(out)@ + digits_of(n as nat) =~= old(out)@.push(digit_char(n as int)));
        }
    }
}

impl Num {
    /// Appends the decimal numeral of the number to `out`.
    pub fn write_to(self, out: &mut String)
        ensures
            final(out)@ == old(out)@ + decimal_text(self@),
    {
        let m: u64 = if self.milli >= 0 {
            self.milli as u64
        } else {
            (-(self.milli + 1)) as u64 + 1
        };
        assert(m == magnitude(self@));
        let ghost start = out@;
        if self.milli < 0 {
            push_char(out, '-');
        }
        let ghost signed = out@;
        push_digits(out, m / 1000);
        let ghost whole = out@;
        let f: u64 = m % 1000;
        if f != 0 {
            push_char(out, '.');
            push_char(out, digit(f / 100));
            if f % 100 != 0 {
                push_char(out, digit(f / 10 % 10));
                if f % 10 != 0 {
                    push_char(out, digit(f % 10));
                }
            }
        }
        proof {
            assert(out@ =~= whole + fraction_text(f as int));
            let sign = if self@ < 0 {
                seq!['-']
            } else {
                Seq::<char>::empty()
            };
            assert(signed =~= start + sign);
            assert(out@ =~= start + (sign + digits_of((m / 1000) as nat) + fraction_text(
                f as int,
            )));
        }
    }

    /// The decimal numeral of the number.
    pub fn to_text(self) -> (out: String)
        ensures
            out@ == decimal_text(self@),
    {
        let mut out = String::new();
        self.write_to(&mut out);
        assert(Seq::<char>::empty() + decimal_text(self@) =~= decimal_text(self@));
        out
    }
}

// ---------------------------------------------------------------------------
// Reading numbers
// ---------------------------------------------------------------------------

/// A decimal digit.
pub open spec fn is_digit(c: char) -> bool {
    48 <= c as u32 <= 57
}

/// The number that a decimal digit stands for.
pub open spec fn digit_value(c: char) -> int {
    c as u32 - 48
}

/// Every character is a decimal digit.
pub open spec fn all_digits(s: Seq<char>) -> bool {
    forall|i: int| 0 <= i < s.len() ==> is_digit(#[trigger] s[i])
}

/// The number that a run of decimal digits stands for; zero for the empty run.
pub open spec fn digits_value(s: Seq<char>) -> int
    decreases s.len(),
{
    if s.len() == 0 {
        0
    } else {
        digits_value(s.drop_last()) * 10 + digit_value(s.last())
    }
}

/// The digit at place `i` after the point, zero where the places end before.
pub open spec fn place(f: Seq<char>, i: int) -> int {
    if 0 <= i < f.len() {
        digit_value(f[i])
    } else {
        0
    }
}

/// The thousandths that the places after the point stand for. Places after
/// the third are cut off.
pub open spec fn thousandths(f: Seq<char>) -> int {
    place(f, 0) * 100 + place(f, 1) * 10 + place(f, 2)
}

/// The text negates what follows its first character.
pub open spec fn negative(s: Seq<char>) -> bool {
    s.len() > 0 && s[0] == '-'
}

/// The text without its sign, if it has one.
pub open spec fn unsigned(s: Seq<char>) -> Seq<char> {
    if s.len() > 0 && (s[0] == '-' || s[0] == '+') {
        s.skip(1)
    } else {
        s
    }
}

/// The digits before the point.
pub open spec fn whole_part(body: Seq<char>) -> Seq<char> {
    match char_index(body, '.') {
        Some(d) => body.take(d),
        None => body,
    }
}

/// The digits after the point.
pub open spec fn fraction_part(body: Seq<char>) -> Seq<char> {
    match char_index(body, '.') {
        Some(d) => body.skip(d + 1),
        None => Seq::empty(),
    }
}

/// The value in thousandths of a decimal numeral: an optional sign, digits,
/// and optionally a point and more digits, with at least one digit in all.
/// `None` for any other text and for a value out of range.
pub open spec fn decimal_value(s: Seq<char>) -> Option<int> {
    let whole = whole_part(unsigned(s));
    let fraction = fraction_part(unsigned(s));
    let m = digits_value(whole) * 1000 + thousandths(fraction);
    if whole.len() + fraction.len() > 0 && all_digits(whole) && all_digits(fraction) && m
        <= i64::MAX {
        Some(
            if negative(s) {
                -m
            } else {
                m
            },
        )
    } else {
        None
    }
}

/// The value of a whole numeral: an optional sign and at least one digit.
/// `None` for any other text and for a value that does not fit in 32 bits.
pub open spec fn integer_value(s: Seq<char>) -> Option<int> {
    let body = unsigned(s);
    let m = digits_value(body);
    let v = if negative(s) {
        -m
    } else {
        m
    };
    if body.len() > 0 && all_digits(body) && i32::MIN <= v <= i32::MAX {
        Some(v)
    } else {
        None
    }
}

/// A run of digits stands for at least as much as any of its prefixes.
pub proof fn lemma_prefix_value(s: Seq<char>, k: int)
    requires
        all_digits(s),
        0 <= k <= s.len(),
    ensures
        0 <= digits_value(s.take(k)) <= digits_value(s),
    decreases s.len(),
{
    if k == s.len() {
        assert(s.take(k) =~= s);
        if s.len() > 0 {
            assert(is_digit(s[s.len() - 1]));
            assert(all_digits(s.drop_last()));
            lemma_prefix_value(s.drop_last(), k - 1);
            assert(s.drop_last().take(k - 1) =~= s.drop_last());
        }
    } else {
        assert(is_digit(s[s.len() - 1]));
        assert(all_digits(s.drop_last()));
        lemma_prefix_value(s.drop_last(), k);
        assert(s.drop_last().take(k) =~= s.take(k));
    }
}

/// The character of a digit is a digit, and stands for it.
pub proof fn lemma_digit_char(d: int)
    requires
        0 <= d < 10,
    ensures
        is_digit(digit_char(d)),
        digit_value(digit_char(d)) == d,
        digit_char(d) != '.',
        digit_char(d) != '-',
        digit_char(d) != '+',
{
}

/// The digits of a number are digits, at least one, and stand for it.
pub proof fn lemma_digits_of(n: nat)
    ensures
        digits_of(n).len() >= 1,
        all_digits(digits_of(n)),
        digits_value(digits_of(n)) == n,
    decreases n,
{
    if n < 10 {
        lemma_digit_char(n as int);
        assert(digits_of(n).drop_last() =~= Seq::<char>::empty());
        assert(digits_value(Seq::<char>::empty()) == 0);
        assert(digits_of(n).last() == digit_char(n as int));
    } else {
        lemma_digits_of(n / 10);
        lemma_digit_char((n % 10) as int);
        let front = digits_of(n / 10);
        let all = digits_of(n);
        assert(all.drop_last() =~= front);
        assert(all.last() == digit_char((n % 10) as int));
        assert forall|i: int| 0 <= i < all.len() implies is_digit(#[trigger] all[i]) by {
            if i < front.len() {
                assert(all[i] == front[i]);
            }
        }
    }
}

/// The first index that holds `c` is what `char_index` gives.
pub proof fn lemma_first_char(s: Seq<char>, c: char, k: int)
    requires
        0 <= k < s.len(),
        s[k] == c,
        forall|j: int| 0 <= j < k ==> s[j] != c,
    ensures
        char_index(s, c) == Some(k),
{
    lemma_char_index_from(s, c, 0);
}

/// The places that are written for `f` thousandths stand for `f`.
pub proof fn lemma_fraction_text(f: int)
    requires
        0 <= f < 1000,
    ensures
        f == 0 ==> fraction_text(f).len() == 0,
        f != 0 ==> fraction_text(f).len() >= 2 && fraction_text(f)[0] == '.' && all_digits(
            fraction_text(f).skip(1),
        ) && thousandths(fraction_text(f).skip(1)) == f,
{
    if f != 0 {
        let a = f / 100;
        let b = f / 10 % 10;
        let c = f % 10;
        assert(f == a * 100 + b * 10 + c);
        lemma_digit_char(a);
        lemma_digit_char(b);
        lemma_digit_char(c);
        let places = fraction_text(f).skip(1);
        if f % 100 == 0 {
            assert(places =~= seq![digit_char(a)]);
            assert(b == 0 && c == 0);
        } else if f % 10 == 0 {
            assert(places =~= seq![digit_char(a), digit_char(b)]);
            assert(c == 0);
        } else {
            assert(places =~= seq![digit_char(a), digit_char(b), digit_char(c)]);
        }
    }
}

/// A run of digits and the places behind it are the two parts of the
/// numeral that they make.
pub proof fn lemma_parts(whole: Seq<char>, fraction: Seq<char>)
    requires
        all_digits(whole),
        fraction.len() == 0 || fraction[0] == '.',
    ensures
        whole_part(whole + fraction) == whole,
        fraction_part(whole + fraction) == if fraction.len() == 0 {
            Seq::<char>::empty()
        } else {
            fraction.skip(1)
        },
{
    let body = whole + fraction;
    let n = whole.len() as int;
    assert forall|j: int| 0 <= j < n implies body[j] != '.' by {
        assert(body[j] == whole[j]);
        assert(is_digit(whole[j]));
    }
    if fraction.len() == 0 {
        assert(body =~= whole);
        lemma_char_index_from(body, '.', 0);
    } else {
        assert(body[n] == '.');
        lemma_first_char(body, '.', n);
        assert(body.take(n) =~= whole);
        assert(body.skip(n + 1) =~= fraction.skip(1));
    }
}

/// What is written is read back: the numeral of a number stands for that
/// number. The least number of all is the one exception: its numeral stands
/// for a magnitude that no number has.
pub proof fn written_is_read(v: int)
    requires
        -i64::MAX <= v <= i64::MAX,
    ensures
        decimal_value(decimal_text(v)) == Some(v),
{
    let m = magnitude(v);
    let w = (m / 1000) as nat;
    let f = m % 1000;
    let whole = digits_of(w);
    let fraction = fraction_text(f);
    let body = whole + fraction;
    let text = decimal_text(v);
    lemma_digits_of(w);
    lemma_fraction_text(f);
    lemma_parts(whole, fraction);
    assert(is_digit(whole[0]));
    assert(body[0] == whole[0]);
    if v < 0 {
        assert(text =~= seq!['-'] + body);
        assert(text[0] == '-');
        assert(text.skip(1) =~= body);
    } else {
        assert(text =~= body);
    }
    assert(negative(text) == (v < 0));
    assert(unsigned(text) == body);
    assert(thousandths(Seq::<char>::empty()) == 0);
    assert(m == w * 1000 + f);
}

fn digit_of(c: char) -> (r: Option<u64>)
    ensures
        match r {
            Some(d) => is_digit(c) && d == digit_value(c) && d < 10,
            None => !is_digit(c),
        },
{
    let n: u32 = c as u32;
    if 48 <= n && n <= 57 {
        Some((n - 48) as u64)
    } else {
        None
    }
}

fn read_digits(s: &[char], limit: u64) -> (r: Option<u64>)
    requires
        limit <= 1_000_000_000_000_000_000,
    ensures
        match r {
            Some(v) => all_digits(s@) && v == digits_value(s@) && v <= limit,
            None => !all_digits(s@) || digits_value(s@) > limit,
        },
{
    let mut acc: u64 = 0;
    let mut k: usize = 0;
    assert(s@.take(0) =~= Seq::<char>::empty());
    while k < s.len()
        invariant
            k <= s@.len(),
            limit <= 1_000_000_000_000_000_000,
            all_digits(s@.take(k as int)),
            acc == digits_value(s@.take(k as int)),
            acc <= limit,
        decreases s@.len() - k,
    {
        let ghost head = s@.take(k + 1);
        proof {
            assert(head.drop_last() =~= s@.take(k as int));
            assert(head.last() == s@[k as int]);
        }
        match digit_of(s[k]) {
            None => {
                return None;
            },
            Some(d) => {
                assert(all_digits(head)) by {
                    assert forall|i: int| 0 <= i < head.len() implies is_digit(
                        #[trigger] head[i],
                    ) by {
                        if i < k {
                            assert(head[i] == s@.take(k as int)[i]);
                        }
                    }
                }
                let next: u64 = acc * 10 + d;
                if next > limit {
                    proof {
                        if all_digits(s@) {
                            lemma_prefix_value(s@, k + 1);
                        }
                    }
                    return None;
                }
                acc = next;
                k += 1;
            },
        }
    }
    assert(s@.take(s@.len() as int) =~= s@);
    Some(acc)
}

fn only_digits(s: &[char]) -> (b: bool)
    ensures
        b == all_digits(s@),
{
    let mut k: usize = 0;
    while k < s.len()
        invariant
            k <= s@.len(),
            forall|i: int| 0 <= i < k ==> is_digit(#[trigger] s@[i]),
        decreases s@.len() - k,
    {
        if digit_of(s[k]).is_none() {
            assert(!is_digit(s@[k as int]));
            return false;
        }
        k += 1;
    }
    true
}

fn read_place(f: &[char], i: usize) -> (d: u64)
    requires
        all_digits(f@),
    ensures
        d == place(f@, i as int),
        d < 10,
{
    if i < f.len() {
        match digit_of(f[i]) {
            Some(d) => d,
            None => 0,
        }
    } else {
        0
    }
}

fn skip_sign(s: &[char]) -> (r: (bool, &[char]))
    ensures
        r.0 == negative(s@),
        r.1@ == unsigned(s@),
{
    if s.len() > 0 && (s[0] == '-' || s[0] == '+') {
        let body = slice_subrange(s, 1, s.len());
        assert(body@ =~= s@.skip(1));
        (s[0] == '-', body)
    } else {
        (false, s)
    }
}

/// Reads a whole numeral of at most 32 bits.
pub fn parse_integer(s: &[char]) -> (r: Option<i32>)
    ensures
        match r {
            Some(v) => integer_value(s@) == Some(v as int),
            None => integer_value(s@) is None,
        },
{
    let (neg, body) = skip_sign(s);
    if body.len() == 0 {
        return None;
    }
    match read_digits(body, 2_147_483_648) {
        None => None,
        Some(m) => {
            if neg {
                Some((-(m as i64)) as i32)
            } else if m <= 2_147_483_647 {
                Some(m as i32)
            } else {
                None
            }
        },
    }
}

impl Num {
    /// Reads a decimal numeral.
    pub fn parse(s: &[char]) -> (r: Option<Num>)
        ensures
            match r {
                Some(v) => decimal_value(s@) == Some(v@),
                None => decimal_value(s@) is None,
            },
    {
        let (neg, body) = skip_sign(s);
        let (whole, fraction) = match find_char(body, '.') {
            Some(d) => {
                let n: usize = body.len();
                let w = slice_subrange(body, 0, d);
                let f = slice_subrange(body, d + 1, n);
                assert(w@ =~= body@.take(d as int));
                assert(f@ =~= body@.skip(d + 1));
                (w, f)
            },
            None => {
                let f = slice_subrange(body, 0, 0);
                assert(f@ =~= Seq::<char>::empty());
                (body, f)
            },
        };
        if whole.len() == 0 && fraction.len() == 0 {
            return None;
        }
        let w: u64 = match read_digits(whole, 9_223_372_036_854_775) {
            Some(w) => w,
            None => {
                return None;
            },
        };
        if !only_digits(fraction) {
            return None;
        }
        let f: u64 = read_place(fraction, 0) * 100 + read_place(fraction, 1) * 10 + read_place(
            fraction,
            2,
        );
        let m: u64 = w * 1000 + f;
        if m > 0x7fff_ffff_ffff_ffff {
            return None;
        }
        if neg {
            Some(Num { milli: -(m as i64) })
        } else {
            Some(Num { milli: m as i64 })
        }
    }
}

} // verus!
