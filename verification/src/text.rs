//! Reading numbers and labels from the cells of a calibration file.

use crate::decimal::{fits_i64, Decimal};
use crate::errors::{EmuError, Failure};
use crate::search::{first_at, is_first_at, lemma_first_at, with_all_new, with_new};
use vstd::prelude::*;
use vstd::string::{StrSliceExecFns, StringExecFns};

verus! {

pub open spec fn is_digit(c: char) -> bool {
    '0' <= c <= '9'
}

pub open spec fn digit_value(c: char) -> int {
    (c as u32) as int - 48
}

pub open spec fn all_digits(s: Seq<char>) -> bool {
    forall|i: int| 0 <= i < s.len() ==> is_digit(#[trigger] s[i])
}

/// The number that a run of digits writes.
pub open spec fn digits_value(s: Seq<char>) -> int
    decreases s.len(),
{
    if s.len() == 0 {
        0
    } else {
        digits_value(s.drop_last()) * 10 + digit_value(s.last())
    }
}

pub open spec fn pow10(n: nat) -> int
    decreases n,
{
    if n == 0 {
        1
    } else {
        10 * pow10((n - 1) as nat)
    }
}

/// Where an unsigned decimal text has its point: at the first point, or
/// behind the last character where it has none.
pub open spec fn point_at(s: Seq<char>) -> int {
    if s.contains('.') {
        first_at(s, '.')
    } else {
        s.len() as int
    }
}

/// What stands before the point.
pub open spec fn whole_part(s: Seq<char>) -> Seq<char> {
    s.take(point_at(s))
}

/// What stands behind the point.
pub open spec fn fraction_part(s: Seq<char>) -> Seq<char> {
    if point_at(s) < s.len() {
        s.skip(point_at(s) + 1)
    } else {
        Seq::empty()
    }
}

/// An unsigned decimal text is made of digits, with at most one point
/// before, among or behind them, and has at least one digit.  There is no
/// limit to the number of digits.  A text with an exponent, and the words
/// that stand for infinity or for no number, are no decimal texts.
pub open spec fn is_unsigned_decimal(s: Seq<char>) -> bool {
    &&& all_digits(whole_part(s))
    &&& all_digits(fraction_part(s))
    &&& whole_part(s).len() + fraction_part(s).len() >= 1
}

/// The number that an unsigned decimal text writes, times ten to the
/// number of its fractional digits.
pub open spec fn unsigned_number(s: Seq<char>) -> int {
    digits_value(whole_part(s)) * pow10(fraction_part(s).len()) + digits_value(fraction_part(s))
}

/// A text without the sign that it begins with.
pub open spec fn without_sign(s: Seq<char>) -> Seq<char> {
    if s.len() > 0 && (s[0] == '-' || s[0] == '+') {
        s.skip(1)
    } else {
        s
    }
}

/// The units that a decimal text stands for: the number that it writes,
/// in billionths and rounded down to a whole billionth.  A decimal text is
/// an unsigned decimal text with `-` or `+` before it or without a sign.
pub open spec fn decimal_units(s: Seq<char>) -> Option<int> {
    let body = without_sign(s);
    if is_unsigned_decimal(body) {
        let number = if s[0] == '-' {
            -unsigned_number(body)
        } else {
            unsigned_number(body)
        };
        Some((number * pow10(9)) / pow10(fraction_part(body).len()))
    } else {
        None
    }
}

/// The decimal that a text stands for, if it stands for one that can be
/// held: its units have to fit the 64 bits of a decimal, that is the number
/// has to lie within about nine thousand million either side of zero.
pub open spec fn decimal_of_text(s: Seq<char>) -> Option<Decimal> {
    match decimal_units(s) {
        Some(v) => if fits_i64(v) {
            Some(Decimal { units: v as i64 })
        } else {
            None
        },
        None => None,
    }
}

/// The index that a text stands for: digits, as many as there may be and
/// with `+` before them or without a sign, that write a number within the
/// range of an index.
pub open spec fn index_of_text(s: Seq<char>) -> Option<usize> {
    let body = if s.len() > 0 && s[0] == '+' {
        s.skip(1)
    } else {
        s
    };
    if body.len() >= 1 && all_digits(body) && digits_value(body) <= usize::MAX {
        Some(digits_value(body) as usize)
    } else {
        None
    }
}

/// A run of at most `n` digits writes a number below ten to the `n`.
pub proof fn lemma_digits_bound(s: Seq<char>)
    requires
        all_digits(s),
    ensures
        0 <= digits_value(s) < pow10(s.len()),
    decreases s.len(),
{
    if s.len() > 0 {
        let p = s.drop_last();
        assert forall|i: int| 0 <= i < p.len() implies is_digit(#[trigger] p[i]) by {
            assert(p[i] == s[i]);
        }
        lemma_digits_bound(p);
        assert(is_digit(s[s.len() - 1]));
    }
}

proof fn lemma_pow10_values()
    ensures
        pow10(0) == 1,
        pow10(1) == 10,
        pow10(2) == 100,
        pow10(3) == 1_000,
        pow10(4) == 10_000,
        pow10(5) == 100_000,
        pow10(6) == 1_000_000,
        pow10(7) == 10_000_000,
        pow10(8) == 100_000_000,
        pow10(9) == 1_000_000_000,
        pow10(10) == 10_000_000_000,
        pow10(18) == 1_000_000_000_000_000_000,
        pow10(19) == 10_000_000_000_000_000_000,
        pow10(20) == 100_000_000_000_000_000_000,
        forall|k: nat| k <= 19 ==> 1 <= #[trigger] pow10(k) <= 10_000_000_000_000_000_000,
{
    reveal_with_fuel(pow10, 21);
    assert forall|k: nat| k <= 19 implies 1 <= #[trigger] pow10(k)
        <= 10_000_000_000_000_000_000 by {
        lemma_pow10_grows(k, 19);
    }
}

proof fn lemma_pow10_grows(a: nat, b: nat)
    requires
        a <= b,
    ensures
        1 <= pow10(a) <= pow10(b),
    decreases b,
{
    if b == 0 {
    } else if a == b {
        lemma_pow10_grows((a - 1) as nat, (b - 1) as nat);
    } else {
        lemma_pow10_grows(a, (b - 1) as nat);
    }
}

/// Whether two texts are the same.
pub fn text_eq(a: &str, b: &str) -> (r: bool)
    ensures
        r == (a@ == b@),
{
    let x = a.as_bytes();
    let y = b.as_bytes();
    proof {
        vstd::utf8::encode_utf8_decode_utf8(a@);
        vstd::utf8::encode_utf8_decode_utf8(b@);
    }
    if x.len() != y.len() {
        return false;
    }
    let mut i: usize = 0;
    while i < x.len()
        invariant
            i <= x.len(),
            x@.len() == y@.len(),
            x@ == vstd::utf8::encode_utf8(a@),
            y@ == vstd::utf8::encode_utf8(b@),
            forall|j: int| 0 <= j < i ==> x@[j] == y@[j],
        decreases x.len() - i,
    {
        if x[i] != y[i] {
            return false;
        }
        i += 1;
    }
    assert(x@ =~= y@);
    true
}

/// Beyond this a run of digits is only known to be large.
pub const DIGITS_CAP: u128 = 1_000_000_000_000_000_000_000_000_000_000;

/// Reads the digits of an ASCII text between two positions, however many
/// there are: the number that they write, or that it is beyond the cap.
fn read_digits(text: &str, from: usize, to: usize) -> (r: Option<(u128, bool)>)
    requires
        text.is_ascii(),
        from <= to <= text@.len(),
    ensures
        r is Some == all_digits(text@.subrange(from as int, to as int)),
        r is Some ==> r->Some_0.1 == (digits_value(text@.subrange(from as int, to as int))
            > DIGITS_CAP),
        r is Some && !r->Some_0.1 ==> r->Some_0.0 == digits_value(
            text@.subrange(from as int, to as int),
        ),
{
    let ghost s = text@;
    let mut acc: u128 = 0;
    let mut over = false;
    let mut i: usize = from;
    while i < to
        invariant
            text.is_ascii(),
            s == text@,
            from <= i <= to <= s.len(),
            all_digits(s.subrange(from as int, i as int)),
            over == (digits_value(s.subrange(from as int, i as int)) > DIGITS_CAP),
            !over ==> acc == digits_value(s.subrange(from as int, i as int)),
        decreases to - i,
    {
        let b = text.get_ascii(i);
        if b < 48 || b > 57 {
            proof {
                let whole = s.subrange(from as int, to as int);
                assert(whole[i - from] == s[i as int]);
                assert(!is_digit(whole[i - from]));
            }
            return None;
        }
        proof {
            let prev = s.subrange(from as int, i as int);
            let next = s.subrange(from as int, i + 1);
            assert(next.drop_last() =~= prev);
            assert(next.last() == s[i as int]);
            lemma_digits_bound(prev);
            assert forall|j: int| 0 <= j < next.len() implies is_digit(#[trigger] next[j]) by {
                if j < prev.len() {
                    assert(next[j] == prev[j]);
                }
            }
        }
        if !over {
            acc = acc * 10 + (b - 48) as u128;
            if acc > DIGITS_CAP {
                over = true;
            }
        }
        i += 1;
    }
    Some((acc, over))
}

/// The power of ten with an exponent of at most nine.
fn power_of_ten(n: usize) -> (r: u64)
    requires
        n <= 9,
    ensures
        r == pow10(n as nat),
{
    proof {
        lemma_pow10_values();
    }
    let mut r: u64 = 1;
    let mut i: usize = 0;
    while i < n
        invariant
            i <= n <= 9,
            r == pow10(i as nat),
            r <= 1_000_000_000,
        decreases n - i,
    {
        proof {
            lemma_pow10_values();
            lemma_pow10_grows((i + 1) as nat, 9);
        }
        r = r * 10;
        i += 1;
    }
    r
}

/// The number of a run of digits behind another is that of the first,
/// moved left by the length of the second, plus that of the second.
proof fn lemma_digits_concat(a: Seq<char>, b: Seq<char>)
    ensures
        digits_value(a + b) == digits_value(a) * pow10(b.len()) + digits_value(b),
    decreases b.len(),
{
    if b.len() == 0 {
        assert(a + b =~= a);
        assert(pow10(0) == 1);
        assert(digits_value(a) * 1 == digits_value(a)) by (nonlinear_arith);
    } else {
        let t = a + b;
        lemma_digits_concat(a, b.drop_last());
        assert(t.drop_last() =~= a + b.drop_last());
        assert(t.last() == b.last());
        let p = pow10((b.len() - 1) as nat);
        assert(pow10(b.len()) == 10 * p);
        assert((digits_value(a) * p + digits_value(b.drop_last())) * 10 == digits_value(a) * (10
            * p) + digits_value(b.drop_last()) * 10) by (nonlinear_arith);
    }
}

/// The units of a decimal whose fraction is written in two runs of digits:
/// the first nine digits at most count, and what follows them only rounds a
/// negative number down.
proof fn lemma_decimal_units(whole: Seq<char>, first: Seq<char>, rest: Seq<char>)
    requires
        all_digits(whole),
        all_digits(first),
        all_digits(rest),
        first.len() <= 9,
        rest.len() > 0 ==> first.len() == 9,
    ensures
        ({
            let k = first.len() + rest.len();
            let number = digits_value(whole) * pow10(k) + digits_value(first + rest);
            let m = digits_value(whole) * pow10(9) + digits_value(first) * pow10(
                (9 - first.len()) as nat,
            );
            &&& 0 <= digits_value(whole)
            &&& 0 <= digits_value(first) < pow10(first.len())
            &&& 0 <= digits_value(rest)
            &&& 0 <= digits_value(first) * pow10((9 - first.len()) as nat) < 1_000_000_000
            &&& (number * pow10(9)) / pow10(k) == m
            &&& ((-number) * pow10(9)) / pow10(k) == -m - (if digits_value(rest) == 0 {
                0int
            } else {
                1int
            })
        }),
{
    let k9 = first.len();
    let kr = rest.len();
    let k = k9 + kr;
    let w = digits_value(whole);
    let a = digits_value(first);
    let b = digits_value(rest);
    lemma_digits_bound(whole);
    lemma_digits_bound(first);
    lemma_digits_bound(rest);
    lemma_digits_concat(first, rest);
    lemma_pow10_values();
    let p = pow10(k);
    let q = pow10(9);
    let r = pow10(kr);
    let t = pow10(k9);
    let u = pow10((9 - k9) as nat);
    lemma_pow10_split(k9, kr);
    lemma_pow10_split(k9, (9 - k9) as nat);
    lemma_pow10_grows(0, k);
    lemma_pow10_grows(0, (9 - k9) as nat);
    assert(p == t * r);
    assert(q == t * u);
    assert(r * q == u * p) by (nonlinear_arith)
        requires
            p == t * r,
            q == t * u,
    ;
    assert(0 <= a * u < q) by (nonlinear_arith)
        requires
            0 <= a < t,
            q == t * u,
            u >= 1,
    ;
    let number = w * p + (a * r + b);
    let m = w * q + a * u;
    assert(number * q == m * p + b * q) by (nonlinear_arith)
        requires
            number == w * p + (a * r + b),
            m == w * q + a * u,
            r * q == u * p,
    ;
    assert(0 <= b * q < p) by {
        if kr == 0 {
            assert(b == 0);
            assert(b * q == 0) by (nonlinear_arith)
                requires
                    b == 0,
            ;
        } else {
            assert(u == 1);
            assert(b * q < p && 0 <= b * q) by (nonlinear_arith)
                requires
                    0 <= b < r,
                    r * q == u * p,
                    u == 1,
                    q >= 1,
            ;
        }
    }
    assert(0 <= m) by (nonlinear_arith)
        requires
            m == w * q + a * u,
            0 <= w,
            0 <= a,
            q >= 1,
            u >= 1,
    ;
    let x = m * p + b * q;
    assert(0 <= x) by (nonlinear_arith)
        requires
            x == m * p + b * q,
            0 <= m,
            p >= 1,
            0 <= b * q,
    ;
    vstd::arithmetic::div_mod::lemma_fundamental_div_mod_converse(x, p, m, b * q);
    crate::decimal::lemma_floor_of_negative(x, p);
    assert((-number) * q == -x) by (nonlinear_arith)
        requires
            number * q == x,
    ;
    assert((b * q == 0) == (b == 0)) by (nonlinear_arith)
        requires
            q >= 1,
            0 <= b,
    ;
}

/// The units that the parts of a decimal text stand for: the whole part and
/// the first nine digits of the fraction at most, filled up with zeros; a
/// negative number goes one unit further down where anything was dropped.
pub open spec fn units_of_parts(negative: bool, whole: int, first: int, width: nat, dropped: bool) -> int {
    let m = whole * pow10(9) + first * pow10((9 - width) as nat);
    if negative {
        -m - (if dropped {
            1int
        } else {
            0int
        })
    } else {
        m
    }
}

/// Where a text has its point, given where its first point was found.
proof fn lemma_point_found(body: Seq<char>, p: int)
    requires
        0 <= p <= body.len(),
        forall|j: int| 0 <= j < p ==> body[j] != '.',
        p < body.len() ==> body[p] == '.',
    ensures
        point_at(body) == p,
        whole_part(body) == body.take(p),
        fraction_part(body) == (if p < body.len() {
            body.skip(p + 1)
        } else {
            Seq::<char>::empty()
        }),
{
    if p < body.len() {
        assert(is_first_at(body, '.', p));
        lemma_first_at(body, '.');
    } else {
        assert(!body.contains('.'));
    }
}

/// A run of digits in two parts is made of digits where both parts are.
proof fn lemma_digits_in_two(first: Seq<char>, rest: Seq<char>)
    ensures
        all_digits(first + rest) == (all_digits(first) && all_digits(rest)),
{
    let whole = first + rest;
    if all_digits(first) && all_digits(rest) {
        assert forall|j: int| 0 <= j < whole.len() implies is_digit(#[trigger] whole[j]) by {
            if j < first.len() {
                assert(whole[j] == first[j]);
            } else {
                assert(whole[j] == rest[j - first.len()]);
            }
        }
    }
    if all_digits(whole) {
        assert forall|j: int| 0 <= j < first.len() implies is_digit(#[trigger] first[j]) by {
            assert(first[j] == whole[j]);
        }
        assert forall|j: int| 0 <= j < rest.len() implies is_digit(#[trigger] rest[j]) by {
            assert(rest[j] == whole[j + first.len()]);
        }
    }
}

/// What a decimal text stands for, told from its parts.
proof fn lemma_units_of_text(s: Seq<char>, whole: Seq<char>, first: Seq<char>, rest: Seq<char>)
    requires
        whole_part(without_sign(s)) == whole,
        fraction_part(without_sign(s)) == first + rest,
        all_digits(whole),
        all_digits(first),
        all_digits(rest),
        first.len() <= 9,
        rest.len() > 0 ==> first.len() == 9,
        whole.len() + first.len() + rest.len() >= 1,
    ensures
        decimal_units(s) == Some(
            units_of_parts(
                s[0] == '-',
                digits_value(whole),
                digits_value(first),
                first.len(),
                digits_value(rest) != 0,
            ),
        ),
        0 <= digits_value(whole),
        0 <= digits_value(first) < 1_000_000_000,
        0 <= digits_value(rest),
        0 <= digits_value(first) * pow10((9 - first.len()) as nat) < 1_000_000_000,
{
    lemma_decimal_units(whole, first, rest);
    lemma_digits_in_two(first, rest);
    lemma_pow10_values();
    lemma_pow10_grows(first.len(), 9);
    let body = without_sign(s);
    assert(is_unsigned_decimal(body));
    assert(fraction_part(body).len() == first.len() + rest.len());
}

/// The parts of a decimal text that its units are made of.
struct Parts {
    negative: bool,
    whole: u128,
    first: u128,
    width: usize,
    dropped: bool,
}

/// Finds the first point of an ASCII text from a position on.
fn find_point(text: &str, from: usize) -> (dot: usize)
    requires
        text.is_ascii(),
        from <= text@.len(),
    ensures
        from <= dot <= text@.len(),
        forall|j: int| from <= j < dot ==> text@[j] != '.',
        dot < text@.len() ==> text@[dot as int] == '.',
{
    let len = text.as_bytes().len();
    proof {
        vstd::string::is_ascii_spec_bytes(text);
        assert('.' as u8 == 46);
    }
    let mut dot: usize = from;
    while dot < len && text.get_ascii(dot) != 46
        invariant
            text.is_ascii(),
            len == text@.len(),
            from <= dot <= len,
            forall|j: int| from <= j < dot ==> text@[j] != '.',
        decreases len - dot,
    {
        dot += 1;
    }
    dot
}

/// Reads the sign of an ASCII text: whether it is negative, and where the
/// text goes on behind the sign.
fn read_sign(text: &str) -> (r: (bool, usize))
    requires
        text.is_ascii(),
    ensures
        r.1 <= text@.len(),
        text@.skip(r.1 as int) == without_sign(text@),
        text@.len() > 0 ==> r.0 == (text@[0] == '-'),
{
    let len = text.as_bytes().len();
    proof {
        vstd::string::is_ascii_spec_bytes(text);
        assert('-' as u8 == 45 && '+' as u8 == 43);
        assert(text@.skip(0) =~= text@);
    }
    if len > 0 {
        let first = text.get_ascii(0);
        if first == 45 {
            return (true, 1);
        } else if first == 43 {
            return (false, 1);
        }
    }
    (false, 0)
}

/// Reads the parts of a decimal text that is written in ASCII.
#[verifier::rlimit(40)]
fn read_parts(text: &str) -> (r: Option<Parts>)
    requires
        text.is_ascii(),
    ensures
        match r {
            Some(p) => {
                &&& p.width <= 9
                &&& p.whole <= 9_223_372_036
                &&& 0 <= p.first * pow10((9 - p.width) as nat) < 1_000_000_000
                &&& decimal_units(text@) == Some(
                    units_of_parts(
                        p.negative,
                        p.whole as int,
                        p.first as int,
                        p.width as nat,
                        p.dropped,
                    ),
                )
            },
            None => decimal_of_text(text@) is None,
        },
{
    let ghost s = text@;
    let len = text.as_bytes().len();
    proof {
        vstd::string::is_ascii_spec_bytes(text);
    }
    let (negative, off) = read_sign(text);
    let dot = find_point(text, off);
    let frac_from: usize = if dot < len {
        dot + 1
    } else {
        len
    };
    let k: usize = len - frac_from;
    let width: usize = if k > 9 {
        9
    } else {
        k
    };
    let mid: usize = frac_from + width;
    let ghost body = s.skip(off as int);
    let ghost whole_text = s.subrange(off as int, dot as int);
    let ghost first_text = s.subrange(frac_from as int, mid as int);
    let ghost rest_text = s.subrange(mid as int, len as int);
    proof {
        assert forall|j: int| 0 <= j < dot - off implies body[j] != '.' by {
            assert(body[j] == s[off + j]);
        }
        if dot < len {
            assert(body[dot - off] == s[dot as int]);
        }
        lemma_point_found(body, dot - off);
        assert(whole_part(body) =~= whole_text);
        assert(fraction_part(body) =~= first_text + rest_text);
        lemma_digits_in_two(first_text, rest_text);
    }
    if dot - off == 0 && k == 0 {
        return None;
    }
    let (whole, whole_over) = match read_digits(text, off, dot) {
        Some(x) => x,
        None => {
            return None;
        },
    };
    let (first, first_over) = match read_digits(text, frac_from, mid) {
        Some(x) => x,
        None => {
            return None;
        },
    };
    let (rest, rest_over) = match read_digits(text, mid, len) {
        Some(x) => x,
        None => {
            return None;
        },
    };
    let dropped = rest_over || rest != 0;
    proof {
        lemma_units_of_text(s, whole_text, first_text, rest_text);
    }
    if whole_over || whole > 9_223_372_036 {
        proof {
            lemma_large_whole(
                negative,
                digits_value(whole_text),
                digits_value(first_text),
                first_text.len(),
                digits_value(rest_text) != 0,
            );
        }
        return None;
    }
    Some(Parts { negative, whole, first, width, dropped })
}

/// Reads a decimal number: digits, as many as there may be, with a point
/// before, among or behind them where the number has a fraction, and with a
/// sign where it has one.  What the digits write beyond a billionth is
/// rounded down.  A number written with an exponent is not read, nor are
/// the words for infinity or for no number: neither is a decimal.
pub fn parse_decimal(text: &str) -> (r: Option<Decimal>)
    ensures
        r == decimal_of_text(text@),
{
    if !text.is_ascii() {
        proof {
            lemma_not_ascii_no_number(text@);
        }
        return None;
    }
    let p = match read_parts(text) {
        Some(p) => p,
        None => {
            return None;
        },
    };
    let scale = power_of_ten(9 - p.width);
    proof {
        lemma_pow10_values();
    }
    let m: u128 = p.whole * 1_000_000_000 + p.first * (scale as u128);
    if p.negative {
        let down: u128 = if p.dropped {
            m + 1
        } else {
            m
        };
        if down <= 0x8000_0000_0000_0000 {
            Some(Decimal { units: (-(down as i128)) as i64 })
        } else {
            None
        }
    } else {
        if m <= 0x7FFF_FFFF_FFFF_FFFF {
            Some(Decimal { units: m as i64 })
        } else {
            None
        }
    }
}

/// A whole part beyond what a decimal can hold gives units that no decimal
/// can hold.
proof fn lemma_large_whole(negative: bool, whole: int, first: int, width: nat, dropped: bool)
    requires
        whole >= 9_223_372_037,
        width <= 9,
        0 <= first * pow10((9 - width) as nat),
    ensures
        !fits_i64(units_of_parts(negative, whole, first, width, dropped)),
{
    lemma_pow10_values();
    let f = first * pow10((9 - width) as nat);
    assert(whole * pow10(9) >= 9_223_372_037_000_000_000) by (nonlinear_arith)
        requires
            whole >= 9_223_372_037,
            pow10(9) == 1_000_000_000,
    ;
}

proof fn lemma_pow10_split(a: nat, b: nat)
    ensures
        pow10(a + b) == pow10(a) * pow10(b),
    decreases a,
{
    if a == 0 {
        assert(pow10(0) == 1);
        assert(1 * pow10(b) == pow10(b));
    } else {
        lemma_pow10_split((a - 1) as nat, b);
        assert(pow10(a + b) == 10 * pow10((a - 1 + b) as nat));
        assert(10 * (pow10((a - 1) as nat) * pow10(b)) == (10 * pow10((a - 1) as nat)) * pow10(b))
            by (nonlinear_arith);
    }
}

/// A text with a character outside ASCII stands for no number.
proof fn lemma_not_ascii_no_number(s: Seq<char>)
    requires
        !vstd::utf8::is_ascii_chars(s),
    ensures
        decimal_of_text(s) is None,
        index_of_text(s) is None,
{
    let i = choose|i: int| 0 <= i < s.len() && !('\0' <= #[trigger] s[i] <= '\u{7f}');
    assert(!is_digit(s[i]));
    assert(s[i] != '.' && s[i] != '-' && s[i] != '+');
    let body = without_sign(s);
    if body == s {
        lemma_stray_character(s, i);
    } else {
        assert(body[i - 1] == s[i]);
        lemma_stray_character(body, i - 1);
    }
    let digits = if s.len() > 0 && s[0] == '+' {
        s.skip(1)
    } else {
        s
    };
    if digits == s {
        assert(!is_digit(digits[i]));
    } else {
        assert(digits[i - 1] == s[i]);
        assert(!is_digit(digits[i - 1]));
    }
}

/// A text that holds a character which is neither a digit nor a point is
/// no unsigned decimal text.
proof fn lemma_stray_character(s: Seq<char>, i: int)
    requires
        0 <= i < s.len(),
        !is_digit(s[i]),
        s[i] != '.',
    ensures
        !is_unsigned_decimal(s),
{
    let dot = point_at(s);
    if s.contains('.') {
        lemma_first_at(s, '.');
    }
    if i < dot {
        assert(whole_part(s)[i] == s[i]);
    } else {
        assert(fraction_part(s)[i - dot - 1] == s[i]);
    }
}

/// Reads an index: digits, as many as there may be, with a plus sign
/// before them or without a sign.
pub fn parse_index(text: &str) -> (r: Option<usize>)
    ensures
        r == index_of_text(text@),
{
    let ghost s = text@;
    if !text.is_ascii() {
        proof {
            lemma_not_ascii_no_number(s);
        }
        return None;
    }
    let len = text.as_bytes().len();
    proof {
        vstd::string::is_ascii_spec_bytes(text);
    }
    assert(len == s.len());
    let mut off: usize = 0;
    if len > 0 && text.get_ascii(0) == 43 {
        // a plus sign
        off = 1;
    }
    proof {
        assert('+' as u8 == 43);
        assert(s.skip(off as int) =~= s.subrange(off as int, len as int));
        assert(off == 0 ==> s.skip(0) =~= s);
    }
    if len - off < 1 {
        return None;
    }
    match read_digits(text, off, len) {
        Some((v, over)) => {
            if !over && v <= usize::MAX as u128 {
                Some(v as usize)
            } else {
                None
            }
        },
        None => None,
    }
}

/// The character that writes a digit.
pub open spec fn digit_char(d: int) -> char {
    if d == 0 {
        '0'
    } else if d == 1 {
        '1'
    } else if d == 2 {
        '2'
    } else if d == 3 {
        '3'
    } else if d == 4 {
        '4'
    } else if d == 5 {
        '5'
    } else if d == 6 {
        '6'
    } else if d == 7 {
        '7'
    } else if d == 8 {
        '8'
    } else {
        '9'
    }
}

/// A natural number in decimal notation, without leading zeros.
pub open spec fn digits_text(n: nat) -> Seq<char>
    decreases n,
{
    if n < 10 {
        seq![digit_char(n as int)]
    } else {
        digits_text(n / 10).push(digit_char((n % 10) as int))
    }
}

/// The one-character text of a digit.
fn digit_str(d: u8) -> (r: &'static str)
    requires
        d < 10,
    ensures
        r@ == seq![digit_char(d as int)],
{
    proof {
        reveal_strlit("0");
        reveal_strlit("1");
        reveal_strlit("2");
        reveal_strlit("3");
        reveal_strlit("4");
        reveal_strlit("5");
        reveal_strlit("6");
        reveal_strlit("7");
        reveal_strlit("8");
        reveal_strlit("9");
    }
    let r = if d == 0 {
        "0"
    } else if d == 1 {
        "1"
    } else if d == 2 {
        "2"
    } else if d == 3 {
        "3"
    } else if d == 4 {
        "4"
    } else if d == 5 {
        "5"
    } else if d == 6 {
        "6"
    } else if d == 7 {
        "7"
    } else if d == 8 {
        "8"
    } else {
        "9"
    };
    assert(r@ =~= seq![digit_char(d as int)]);
    r
}

/// Writes a natural number behind a text.
pub fn push_number(out: &mut String, n: u64)
    ensures
        final(out)@ == old(out)@ + digits_text(n as nat),
    decreases n,
{
    if n >= 10 {
        push_number(out, n / 10);
    }
    out.append(digit_str((n % 10) as u8));
    assert(out@ =~= old(out)@ + digits_text(n as nat));
}

/// An index in decimal notation.
pub fn index_text(n: usize) -> (r: String)
    ensures
        r@ == digits_text(n as nat),
{
    let mut r = String::new();
    push_number(&mut r, n as u64);
    assert(r@ =~= digits_text(n as nat));
    r
}

/// The texts of a list, each as the characters it holds.
pub open spec fn texts(v: Seq<String>) -> Seq<Seq<char>> {
    Seq::new(v.len(), |i: int| v[i]@)
}

/// Whether a list holds a text.
pub fn holds_text(v: &Vec<String>, s: &str) -> (r: bool)
    ensures
        r == texts(v@).contains(s@),
{
    let mut i: usize = 0;
    while i < v.len()
        invariant
            i <= v@.len(),
            forall|j: int| 0 <= j < i ==> texts(v@)[j] != s@,
        decreases v@.len() - i,
    {
        if text_eq(v[i].as_str(), s) {
            assert(texts(v@)[i as int] == s@);
            return true;
        }
        i += 1;
    }
    false
}

/// Adds a text to a list unless the list holds it.
pub fn push_new_text(v: &mut Vec<String>, s: &str)
    ensures
        texts(final(v)@) == with_new(texts(old(v)@), s@),
{
    if !holds_text(v, s) {
        v.push(s.to_owned());
        assert(texts(v@) =~= texts(old(v)@).push(s@));
    }
}

/// Adds the texts of a list to another, each unless the other holds it.
pub fn push_new_texts(v: &mut Vec<String>, items: &Vec<String>)
    ensures
        texts(final(v)@) == with_all_new(texts(old(v)@), texts(items@)),
{
    let mut i: usize = 0;
    while i < items.len()
        invariant
            i <= items@.len(),
            texts(v@) == with_all_new(texts(old(v)@), texts(items@).take(i as int)),
        decreases items@.len() - i,
    {
        push_new_text(v, items[i].as_str());
        proof {
            let t = texts(items@).take(i + 1);
            assert(t.drop_last() =~= texts(items@).take(i as int));
            assert(t.last() == items@[i as int]@);
        }
        i += 1;
    }
    assert(texts(items@).take(i as int) =~= texts(items@));
}

/// The digits of a fraction of `width` digits, without the zeros at the end.
pub open spec fn fraction_text(f: nat, width: nat) -> Seq<char>
    decreases width,
{
    if f == 0 || width == 0 {
        Seq::empty()
    } else {
        seq![digit_char((f as int) / pow10((width - 1) as nat))] + fraction_text(
            ((f as int) % pow10((width - 1) as nat)) as nat,
            (width - 1) as nat,
        )
    }
}

/// A decimal in decimal notation: a minus sign where it is negative, the
/// whole part, and, where there is a fraction, a point and the digits of the
/// fraction without the zeros at the end.
pub open spec fn decimal_text(units: int) -> Seq<char> {
    let m = if units < 0 {
        -units
    } else {
        units
    };
    let sign = if units < 0 {
        "-"@
    } else {
        Seq::empty()
    };
    let fraction = if m % 1_000_000_000 == 0 {
        Seq::empty()
    } else {
        "."@ + fraction_text((m % 1_000_000_000) as nat, 9)
    };
    sign + digits_text((m / 1_000_000_000) as nat) + fraction
}

/// Writes the digits of a fraction behind a text.
fn push_fraction(out: &mut String, f: u64, width: usize)
    requires
        width <= 9,
        f < pow10(width as nat),
    ensures
        final(out)@ == old(out)@ + fraction_text(f as nat, width as nat),
    decreases width,
{
    if f == 0 || width == 0 {
        assert(out@ =~= old(out)@ + fraction_text(f as nat, width as nat));
        return ;
    }
    let p = power_of_ten(width - 1);
    proof {
        lemma_pow10_grows(0, (width - 1) as nat);
        assert(pow10(width as nat) == 10 * pow10((width - 1) as nat));
        assert(f / p < 10) by (nonlinear_arith)
            requires
                f < 10 * p,
                p >= 1,
        ;
        assert(f % p < p) by (nonlinear_arith)
            requires
                p >= 1,
        ;
    }
    let d = f / p;
    out.append(digit_str(d as u8));
    push_fraction(out, f % p, width - 1);
    assert(out@ =~= old(out)@ + fraction_text(f as nat, width as nat));
}

/// Writes a decimal behind a text.
pub fn push_decimal(out: &mut String, d: Decimal)
    ensures
        final(out)@ == old(out)@ + decimal_text(d.units as int),
{
    proof {
        lemma_pow10_values();
    }
    let m: u64 = if d.units < 0 {
        out.append("-");
        (-(d.units as i128)) as u64
    } else {
        d.units as u64
    };
    push_number(out, m / 1_000_000_000);
    let f = m % 1_000_000_000;
    if f != 0 {
        out.append(".");
        push_fraction(out, f, 9);
    }
    assert(out@ =~= old(out)@ + decimal_text(d.units as int));
}

impl Decimal {
    /// The decimal in decimal notation.
    pub fn to_text(&self) -> (r: String)
        ensures
            r@ == decimal_text(self.units as int),
    {
        let mut r = String::new();
        push_decimal(&mut r, *self);
        assert(r@ =~= decimal_text(self.units as int));
        r
    }

    /// The decimal that a text writes, if it writes one.
    pub fn parse(text: &str) -> (r: Option<Decimal>)
        ensures
            r == decimal_of_text(text@),
    {
        parse_decimal(text)
    }
}

/// The words for a machine and an applicator.
pub open spec fn pair_text(machine: Seq<char>, applicator: Seq<char>) -> Seq<char> {
    "[machine: "@ + machine + ", applicator: "@ + applicator + "]"@
}

/// What a failure says to the user.
pub open spec fn message_text(f: Failure) -> Seq<char> {
    match f {
        Failure::MachineNotFound(m) => "Machine ["@ + m + "] was not found"@,
        Failure::EnergyNotFound(e) => "Energy ["@ + decimal_text(e.units as int) + "] not found"@,
        Failure::SSDNotFound(s) => "SSD ["@ + decimal_text(s.units as int) + "] is out of range"@,
        Failure::FdaIDNotFound(i) => "FDA id["@ + digits_text(i as nat) + "] not found"@,
        Failure::ApplicatorNotFound(a) => "Applicator ["@ + a + "] not found"@,
        Failure::OFTableNotFound => "OFTable not found"@,
        Failure::CorrectionDataNotFound(m, a) => "No correction data found for "@ + pair_text(m, a),
        Failure::AmbiguousMatch(m, a) => "Multiple correction data matches found for "@
            + pair_text(m, a),
        Failure::ShapeMismatch { expected, found } => "Mismatch between the number of energies ["@
            + digits_text(expected as nat) + "] and the number of values ["@ + digits_text(
            found as nat,
        ) + "]"@,
        Failure::DuplicateId(i) => "FDA id["@ + digits_text(i as nat) + "] occurs more than once"@,
        Failure::CountMismatch { of_files, fda_files } => "The number of files with output factors ["@
            + digits_text(of_files as nat)
            + "] must be identical to the number of files with field defining apertures ["@
            + digits_text(fda_files as nat) + "]"@,
        Failure::TableMismatch(m, a) =>
            "No field defining aperture table with the energies of the output factor table for "@
            + pair_text(m, a),
        Failure::EmptyResult => "No configuration data was loaded."@,
        Failure::ZeroCorrectionFactor => "The correction factor is zero"@,
        Failure::OutOfRange => "The result is out of range"@,
        Failure::Terminal(m) => "Terminal registered an error: "@ + m,
        Failure::Logic(m) => m,
        Failure::Str(m) => m,
        Failure::Format(m) => "Invalid format: "@ + m,
        Failure::DirNotFound(p) => "Directory not found or does not exist: "@ + p,
        Failure::IO(m) => "Input / output error: "@ + m,
    }
}

/// Writes a machine and an applicator behind a text.
fn push_pair(out: &mut String, machine: &str, applicator: &str)
    ensures
        final(out)@ == old(out)@ + pair_text(machine@, applicator@),
{
    out.append("[machine: ");
    out.append(machine);
    out.append(", applicator: ");
    out.append(applicator);
    out.append("]");
    assert(out@ =~= old(out)@ + pair_text(machine@, applicator@));
}

/// A text made of three parts.
fn framed(before: &str, middle: &str, after: &str) -> (r: String)
    ensures
        r@ == before@ + middle@ + after@,
{
    let mut r = before.to_owned();
    r.append(middle);
    r.append(after);
    r
}

impl EmuError {
    /// What the failure says to the user.
    pub fn message(&self) -> (r: String)
        ensures
            r@ == message_text(self@),
    {
        proof {
            reveal_strlit("");
        }
        let r = match self {
            EmuError::MachineNotFound(m) => framed("Machine [", m.as_str(), "] was not found"),
            EmuError::EnergyNotFound(e) => framed(
                "Energy [",
                e.to_text().as_str(),
                "] not found",
            ),
            EmuError::SSDNotFound(s) => framed(
                "SSD [",
                s.to_text().as_str(),
                "] is out of range",
            ),
            EmuError::FdaIDNotFound(i) => framed(
                "FDA id[",
                index_text(*i).as_str(),
                "] not found",
            ),
            EmuError::ApplicatorNotFound(a) => framed("Applicator [", a.as_str(), "] not found"),
            EmuError::OFTableNotFound => "OFTable not found".to_owned(),
            EmuError::CorrectionDataNotFound(m, a) => {
                let mut r = "No correction data found for ".to_owned();
                push_pair(&mut r, m.as_str(), a.as_str());
                r
            },
            EmuError::AmbiguousMatch(m, a) => {
                let mut r = "Multiple correction data matches found for ".to_owned();
                push_pair(&mut r, m.as_str(), a.as_str());
                r
            },
            EmuError::ShapeMismatch { expected, found } => {
                let mut r = "Mismatch between the number of energies [".to_owned();
                push_number(&mut r, *expected as u64);
                r.append("] and the number of values [");
                push_number(&mut r, *found as u64);
                r.append("]");
                r
            },
            EmuError::DuplicateId(i) => framed(
                "FDA id[",
                index_text(*i).as_str(),
                "] occurs more than once",
            ),
            EmuError::CountMismatch { of_files, fda_files } => {
                let mut r = "The number of files with output factors [".to_owned();
                push_number(&mut r, *of_files as u64);
                r.append(
                    "] must be identical to the number of files with field defining apertures [",
                );
                push_number(&mut r, *fda_files as u64);
                r.append("]");
                r
            },
            EmuError::TableMismatch(m, a) => {
                let mut r =
                    "No field defining aperture table with the energies of the output factor table for ".to_owned();
                push_pair(&mut r, m.as_str(), a.as_str());
                r
            },
            EmuError::EmptyResult => "No configuration data was loaded.".to_owned(),
            EmuError::ZeroCorrectionFactor => "The correction factor is zero".to_owned(),
            EmuError::OutOfRange => "The result is out of range".to_owned(),
            EmuError::Terminal(m) => framed("Terminal registered an error: ", m.as_str(), ""),
            EmuError::Logic(m) => m.clone(),
            EmuError::Str(m) => m.clone(),
            EmuError::Format(m) => framed("Invalid format: ", m.as_str(), ""),
            EmuError::DirNotFound(p) => framed(
                "Directory not found or does not exist: ",
                p.as_str(),
                "",
            ),
            EmuError::IO(m) => framed("Input / output error: ", m.as_str(), ""),
        };
        assert(r@ =~= message_text(self@));
        r
    }
}

/// The character of a digit is a digit and writes that digit.
proof fn lemma_digit_char(d: int)
    requires
        0 <= d <= 9,
    ensures
        is_digit(digit_char(d)),
        digit_value(digit_char(d)) == d,
        digit_char(d) != '.',
        digit_char(d) != '-',
        digit_char(d) != '+',
{
}

/// A number in decimal notation is a run of digits that writes the number,
/// at most `k` of them where the number is below ten to the `k`.
proof fn lemma_digits_text(n: nat, k: nat)
    requires
        k >= 1,
        n < pow10(k),
    ensures
        all_digits(digits_text(n)),
        1 <= digits_text(n).len() <= k,
        digits_value(digits_text(n)) == n,
    decreases n,
{
    reveal_with_fuel(pow10, 2);
    if n < 10 {
        lemma_digit_char(n as int);
        let t = digits_text(n);
        assert(t.len() == 1);
        assert(t.drop_last() =~= Seq::<char>::empty());
        assert(digits_value(t.drop_last()) == 0);
    } else {
        assert(k >= 2) by {
            if k == 1 {
                assert(pow10(1) == 10);
            }
        }
        assert(pow10(k) == 10 * pow10((k - 1) as nat));
        lemma_digits_text(n / 10, (k - 1) as nat);
        lemma_digit_char((n % 10) as int);
        let p = digits_text(n / 10);
        let t = digits_text(n);
        assert(t.drop_last() =~= p);
        assert forall|i: int| 0 <= i < t.len() implies is_digit(#[trigger] t[i]) by {
            if i < p.len() {
                assert(t[i] == p[i]);
            }
        }
    }
}

/// A digit before a run of digits adds its value times the power of ten of
/// the length of the run.
proof fn lemma_digit_in_front(c: char, s: Seq<char>)
    ensures
        digits_value(seq![c] + s) == digit_value(c) * pow10(s.len()) + digits_value(s),
    decreases s.len(),
{
    let t = seq![c] + s;
    if s.len() == 0 {
        assert(t.drop_last() =~= Seq::<char>::empty());
        assert(digits_value(t.drop_last()) == 0);
        assert(t.last() == c);
        assert(pow10(0) == 1);
    } else {
        lemma_digit_in_front(c, s.drop_last());
        assert(t.drop_last() =~= seq![c] + s.drop_last());
        assert(t.last() == s.last());
        let a = digit_value(c);
        let p = pow10((s.len() - 1) as nat);
        assert(pow10(s.len()) == 10 * p);
        assert((a * p + digits_value(s.drop_last())) * 10 == a * (10 * p) + digits_value(
            s.drop_last(),
        ) * 10) by (nonlinear_arith);
    }
}

/// The digits of a fraction are digits, at most as many as the width, at
/// least one where the fraction is not zero, and, filled up with zeros to
/// the width, they write the fraction.
proof fn lemma_fraction_text(f: nat, w: nat)
    requires
        f < pow10(w),
    ensures
        all_digits(fraction_text(f, w)),
        fraction_text(f, w).len() <= w,
        f > 0 ==> fraction_text(f, w).len() >= 1,
        digits_value(fraction_text(f, w)) * pow10((w - fraction_text(f, w).len()) as nat) == f,
    decreases w,
{
    let r = fraction_text(f, w);
    if f == 0 || w == 0 {
        assert(pow10(0) == 1);
        assert(r.len() == 0);
        assert(digits_value(r) == 0);
    } else {
        let p = pow10((w - 1) as nat);
        lemma_pow10_grows(0, (w - 1) as nat);
        assert(pow10(w) == 10 * p);
        let d = (f as int) / p;
        let rest = ((f as int) % p) as nat;
        assert(0 <= d <= 9 && 0 <= (f as int) % p < p && f == d * p + (f as int) % p)
            by (nonlinear_arith)
            requires
                0 <= f < 10 * p,
                p >= 1,
                d == (f as int) / p,
        ;
        lemma_fraction_text(rest, (w - 1) as nat);
        lemma_digit_char(d);
        let tail = fraction_text(rest, (w - 1) as nat);
        assert(r == seq![digit_char(d)] + tail);
        assert forall|i: int| 0 <= i < r.len() implies is_digit(#[trigger] r[i]) by {
            if i > 0 {
                assert(r[i] == tail[i - 1]);
            }
        }
        lemma_digit_in_front(digit_char(d), tail);
        let gap = (w - 1 - tail.len()) as nat;
        lemma_pow10_split(tail.len(), gap);
        assert(pow10(tail.len()) * pow10(gap) == p);
        assert((d * pow10(tail.len()) + digits_value(tail)) * pow10(gap) == d * (pow10(tail.len())
            * pow10(gap)) + digits_value(tail) * pow10(gap)) by (nonlinear_arith);
    }
}

/// What is written is read back: the decimal notation of a decimal stands
/// for that decimal.
pub proof fn law_written_decimals_are_read_back(d: Decimal)
    ensures
        decimal_of_text(decimal_text(d.units as int)) == Some(d),
{
    reveal_strlit("-");
    reveal_strlit(".");
    lemma_pow10_values();
    let u = d.units as int;
    let m = (if u < 0 {
        -u
    } else {
        u
    }) as nat;
    let whole = m / 1_000_000_000;
    let frac = m % 1_000_000_000;
    let w = digits_text(whole);
    let r = if frac == 0 {
        Seq::<char>::empty()
    } else {
        fraction_text(frac, 9)
    };
    lemma_digits_text(whole, 10);
    lemma_fraction_text(frac, 9);
    assert(digits_value(Seq::<char>::empty()) == 0);
    let body = w + (if frac == 0 {
        Seq::<char>::empty()
    } else {
        "."@ + r
    });
    assert(!w.contains('.')) by {
        assert forall|i: int| 0 <= i < w.len() implies w[i] != '.' by {
            assert(is_digit(w[i]));
        }
    }
    if frac == 0 {
        assert(body =~= w);
        assert(point_at(body) == w.len());
        assert(whole_part(body) =~= w);
        assert(fraction_part(body) =~= r);
    } else {
        let dot = w.len() as int;
        assert("."@ =~= seq!['.']);
        assert(body[dot] == '.');
        assert(is_first_at(body, '.', dot)) by {
            assert forall|j: int| 0 <= j < dot implies body[j] != '.' by {
                assert(body[j] == w[j]);
                assert(is_digit(w[j]));
            }
        }
        lemma_first_at(body, '.');
        assert(whole_part(body) =~= w);
        assert(fraction_part(body) =~= r);
    }
    let none = Seq::<char>::empty();
    assert(r + none =~= r);
    lemma_decimal_units(w, r, none);
    assert(is_unsigned_decimal(body));
    assert(digits_value(w) * pow10(9) + digits_value(r) * pow10((9 - r.len()) as nat) == m) by {
        if frac == 0 {
            assert(digits_value(r) * pow10((9 - r.len()) as nat) == 0) by (nonlinear_arith)
                requires
                    digits_value(r) == 0,
            ;
        }
    }
    let text = decimal_text(u);
    assert(is_digit(w[0]));
    assert(body[0] == w[0]);
    if u < 0 {
        assert("-"@ =~= seq!['-']);
        assert(text =~= "-"@ + body);
        assert(text[0] == '-');
        assert(text.skip(1) =~= body);
        assert(without_sign(text) == body);
    } else {
        assert(text =~= body);
        assert(without_sign(text) == body);
    }
}

/// An index in decimal notation is read back as what it is.
pub proof fn law_written_indices_are_read_back(n: usize)
    ensures
        index_of_text(digits_text(n as nat)) == Some(n),
{
    lemma_pow10_values();
    lemma_digits_text(n as nat, 20);
    let t = digits_text(n as nat);
    assert(is_digit(t[0]));
}

} // verus!
