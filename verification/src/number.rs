//! Numeric literals: which tokens are numbers, and the literals the parser
//! keeps. A literal is stored as written; its evaluation in floating point
//! is left to the caller.

use crate::text::{chars_of, string_of};
use vstd::prelude::*;

verus! {

pub open spec fn is_digit(c: char) -> bool {
    '0' <= c && c <= '9'
}

pub open spec fn is_sign(c: char) -> bool {
    c == '+' || c == '-'
}

/// The position just past the run of decimal digits that starts at `i`.
pub open spec fn digits_end(s: Seq<char>, i: int) -> int
    decreases s.len() - i,
{
    if 0 <= i < s.len() && is_digit(s[i]) {
        digits_end(s, i + 1)
    } else {
        i
    }
}

/// Where the number proper starts: after the sign, if there is one.
pub open spec fn body_start(s: Seq<char>) -> int {
    if s.len() > 0 && is_sign(s[0]) {
        1
    } else {
        0
    }
}

/// End of the digits before the decimal point.
pub open spec fn int_end(s: Seq<char>) -> int {
    digits_end(s, body_start(s))
}

pub open spec fn has_point(s: Seq<char>) -> bool {
    int_end(s) < s.len() && s[int_end(s)] == '.'
}

/// Start of the digits after the decimal point.
pub open spec fn frac_start(s: Seq<char>) -> int {
    if has_point(s) {
        int_end(s) + 1
    } else {
        int_end(s)
    }
}

/// End of the digits after the decimal point.
pub open spec fn frac_end(s: Seq<char>) -> int {
    digits_end(s, frac_start(s))
}

pub open spec fn has_exponent(s: Seq<char>) -> bool {
    frac_end(s) < s.len() && (s[frac_end(s)] == 'e' || s[frac_end(s)] == 'E')
}

pub open spec fn exponent_negative(s: Seq<char>) -> bool {
    has_exponent(s) && frac_end(s) + 1 < s.len() && s[frac_end(s) + 1] == '-'
}

/// Start of the digits of the exponent.
pub open spec fn exp_start(s: Seq<char>) -> int {
    if frac_end(s) + 1 < s.len() && is_sign(s[frac_end(s) + 1]) {
        frac_end(s) + 2
    } else {
        frac_end(s) + 1
    }
}

/// End of the digits of the exponent.
pub open spec fn exp_end(s: Seq<char>) -> int {
    digits_end(s, exp_start(s))
}

/// A decimal literal: an optional sign; digits with at most one decimal
/// point among, before or after them, and at least one digit; optionally
/// `e` or `E`, an optional sign and at least one digit.
pub open spec fn is_decimal(s: Seq<char>) -> bool {
    &&& (int_end(s) - body_start(s)) + (frac_end(s) - frac_start(s)) > 0
    &&& if has_exponent(s) {
        exp_start(s) < exp_end(s) && exp_end(s) == s.len()
    } else {
        frac_end(s) == s.len()
    }
}

/// `c` is the letter given in its lower-case form `l` and upper-case form `u`.
pub open spec fn is_letter(c: char, l: char, u: char) -> bool {
    c == l || c == u
}

/// `inf`, `infinity` or `nan`, in any mix of cases.
pub open spec fn is_special(s: Seq<char>) -> bool {
    ||| s.len() == 3 && is_letter(s[0], 'i', 'I') && is_letter(s[1], 'n', 'N') && is_letter(
        s[2],
        'f',
        'F',
    )
    ||| s.len() == 8 && is_letter(s[0], 'i', 'I') && is_letter(s[1], 'n', 'N') && is_letter(
        s[2],
        'f',
        'F',
    ) && is_letter(s[3], 'i', 'I') && is_letter(s[4], 'n', 'N') && is_letter(s[5], 'i', 'I')
        && is_letter(s[6], 't', 'T') && is_letter(s[7], 'y', 'Y')
    ||| s.len() == 3 && is_letter(s[0], 'n', 'N') && is_letter(s[1], 'a', 'A') && is_letter(
        s[2],
        'n',
        'N',
    )
}

/// The tokens that stand for a number: a decimal literal, or an optional
/// sign and one of the words `inf`, `infinity` and `nan`.
pub open spec fn is_number(s: Seq<char>) -> bool {
    is_decimal(s) || is_special(s.skip(body_start(s)))
}

pub fn char_is_digit(c: char) -> (r: bool)
    ensures
        r == is_digit(c),
{
    '0' <= c && c <= '9'
}

pub fn char_is_sign(c: char) -> (r: bool)
    ensures
        r == is_sign(c),
{
    c == '+' || c == '-'
}

fn char_is_letter(c: char, l: char, u: char) -> (r: bool)
    ensures
        r == is_letter(c, l, u),
{
    c == l || c == u
}

/// Scans the run of decimal digits that starts at `i`.
pub fn scan_digits(s: &Vec<char>, i: usize) -> (j: usize)
    requires
        i <= s.len(),
    ensures
        j == digits_end(s@, i as int),
        i <= j <= s.len(),
{
    let mut j: usize = i;
    while j < s.len() && char_is_digit(s[j])
        invariant
            i <= j <= s.len(),
            digits_end(s@, i as int) == digits_end(s@, j as int),
        decreases s.len() - j,
    {
        j += 1;
    }
    j
}

/// Whether the characters of `s` from `from` on spell `inf`, `infinity` or
/// `nan`.
fn special_at(s: &Vec<char>, from: usize) -> (r: bool)
    requires
        from <= s.len(),
    ensures
        r == is_special(s@.skip(from as int)),
{
    let n = s.len() - from;
    let ghost t = s@.skip(from as int);
    proof {
        assert(t.len() == n);
        assert(forall|k: int| 0 <= k < n ==> t[k] == s@[from + k]);
    }
    if n == 3 {
        (char_is_letter(s[from], 'i', 'I') && char_is_letter(s[from + 1], 'n', 'N')
            && char_is_letter(s[from + 2], 'f', 'F')) || (char_is_letter(s[from], 'n', 'N')
            && char_is_letter(s[from + 1], 'a', 'A') && char_is_letter(s[from + 2], 'n', 'N'))
    } else if n == 8 {
        char_is_letter(s[from], 'i', 'I') && char_is_letter(s[from + 1], 'n', 'N')
            && char_is_letter(s[from + 2], 'f', 'F') && char_is_letter(s[from + 3], 'i', 'I')
            && char_is_letter(s[from + 4], 'n', 'N') && char_is_letter(s[from + 5], 'i', 'I')
            && char_is_letter(s[from + 6], 't', 'T') && char_is_letter(s[from + 7], 'y', 'Y')
    } else {
        false
    }
}

/// Whether `s` is a decimal literal.
pub fn check_decimal(s: &Vec<char>) -> (r: bool)
    ensures
        r == is_decimal(s@),
{
    let n = s.len();
    let a: usize = if n > 0 && char_is_sign(s[0]) {
        1
    } else {
        0
    };
    let b = scan_digits(s, a);
    let c: usize = if b < n && s[b] == '.' {
        b + 1
    } else {
        b
    };
    let d = scan_digits(s, c);
    if (b - a) + (d - c) == 0 {
        return false;
    }
    if d < n && (s[d] == 'e' || s[d] == 'E') {
        let e: usize = if d + 1 < n && char_is_sign(s[d + 1]) {
            d + 2
        } else {
            d + 1
        };
        let f = scan_digits(s, e);
        e < f && f == n
    } else {
        d == n
    }
}

/// Whether `s` stands for a number.
pub fn check_number(s: &Vec<char>) -> (r: bool)
    ensures
        r == is_number(s@),
{
    if check_decimal(s) {
        return true;
    }
    let a: usize = if s.len() > 0 && char_is_sign(s[0]) {
        1
    } else {
        0
    };
    special_at(s, a)
}

/// A numeric literal, kept as it was written.
#[derive(Debug, PartialEq, Eq)]
pub struct Number {
    text: String,
}

impl View for Number {
    type V = Seq<char>;

    closed spec fn view(&self) -> Seq<char> {
        self.text@
    }
}

impl Clone for Number {
    fn clone(&self) -> (r: Number)
        ensures
            r@ == self@,
    {
        self.duplicate()
    }
}

impl Number {
    #[verifier::type_invariant]
    spec fn well_formed(self) -> bool {
        is_number(self.text@)
    }

    /// The literal that `token` spells, if it spells one.
    pub fn parse(token: &Vec<char>) -> (r: Option<Number>)
        ensures
            r is Some <==> is_number(token@),
            r is Some ==> r->0@ == token@,
    {
        if check_number(token) {
            Some(Number { text: string_of(token) })
        } else {
            None
        }
    }

    /// The literal `0`.
    pub fn zero() -> (r: Number)
        ensures
            r@ == seq!['0'],
    {
        let mut digits: Vec<char> = Vec::new();
        digits.push('0');
        proof {
            assert(digits@ =~= seq!['0']);
            assert(digits_end(digits@, 1) == 1);
            assert(digits_end(digits@, 0) == 1);
            assert(is_decimal(digits@));
        }
        Number { text: string_of(&digits) }
    }

    /// The literal as written; it always spells a number.
    pub fn as_str(&self) -> (s: &str)
        ensures
            s@ == self@,
            is_number(s@),
    {
        proof {
            use_type_invariant(self);
        }
        self.text.as_str()
    }

    /// Frames per second for this frame time.
    pub fn frame_rate(&self) -> (r: u32)
        ensures
            r == frame_rate(self@),
    {
        let chars = chars_of(self.text.as_str());
        frame_rate_of(&chars)
    }

    /// A second copy of the literal.
    pub fn duplicate(&self) -> (r: Number)
        ensures
            r@ == self@,
    {
        proof {
            use_type_invariant(self);
        }
        Number { text: self.text.clone() }
    }
}

/// The number that the digits of `s` in `[from, to)` spell.
pub open spec fn digits_value(s: Seq<char>, from: int, to: int) -> nat
    decreases to - from,
{
    if from >= to {
        0
    } else {
        digits_value(s, from, to - 1) * 10 + (s[to - 1] as nat - '0' as nat) as nat
    }
}

/// An unsigned integer as `usize` reads it: an optional `+`, then one or
/// more digits that spell a number within the range of `usize`.
pub open spec fn parse_usize(s: Seq<char>) -> Option<usize> {
    let a: int = if s.len() > 0 && s[0] == '+' {
        1
    } else {
        0
    };
    if a < s.len() && digits_end(s, a) == s.len() && digits_value(s, a, s.len() as int)
        <= usize::MAX {
        Some(digits_value(s, a, s.len() as int) as usize)
    } else {
        None
    }
}

/// The digit that `c` stands for.
pub fn digit_of(c: char) -> (r: u8)
    requires
        is_digit(c),
    ensures
        r as nat == (c as nat - '0' as nat) as nat,
        r <= 9,
{
    (c as u8) - ('0' as u8)
}

proof fn lemma_digits_value_grows(s: Seq<char>, from: int, mid: int, to: int)
    requires
        from <= mid <= to,
    ensures
        digits_value(s, from, mid) <= digits_value(s, from, to),
    decreases to - mid,
{
    if mid < to {
        lemma_digits_value_grows(s, from, mid, to - 1);
    }
}

/// Reads an unsigned integer.
pub fn read_usize(s: &Vec<char>) -> (r: Option<usize>)
    ensures
        r == parse_usize(s@),
{
    let n = s.len();
    let a: usize = if n > 0 && s[0] == '+' {
        1
    } else {
        0
    };
    if a >= n {
        return None;
    }
    let mut i: usize = a;
    let mut acc: usize = 0;
    while i < n
        invariant
            a <= i <= n,
            n == s.len(),
            a == (if s@.len() > 0 && s@[0] == '+' {
                1int
            } else {
                0int
            }),
            digits_end(s@, a as int) == digits_end(s@, i as int),
            acc == digits_value(s@, a as int, i as int),
        decreases n - i,
    {
        let c = s[i];
        if !char_is_digit(c) {
            proof {
                assert(digits_end(s@, i as int) == i);
            }
            return None;
        }
        let d = digit_of(c);
        proof {
            assert(digits_value(s@, a as int, i + 1) == digits_value(s@, a as int, i as int) * 10
                + d);
        }
        let next = match acc.checked_mul(10) {
            Some(m) => m.checked_add(d as usize),
            None => None,
        };
        match next {
            Some(v) => {
                acc = v;
            },
            None => {
                proof {
                    assert(digits_value(s@, a as int, i + 1) > usize::MAX);
                    lemma_digits_value_grows(s@, a as int, i + 1, n as int);
                }
                return None;
            },
        }
        i += 1;
    }
    Some(acc)
}

/// Whether the literal has a minus sign.
pub open spec fn is_negative(s: Seq<char>) -> bool {
    s.len() > 0 && s[0] == '-'
}

/// The digits before and after the decimal point, in order.
pub open spec fn mantissa(s: Seq<char>) -> Seq<char> {
    s.subrange(body_start(s), int_end(s)) + s.subrange(frac_start(s), frac_end(s))
}

/// The number that the digits before and after the point spell together.
pub open spec fn mantissa_value(s: Seq<char>) -> nat {
    digits_value(mantissa(s), 0, mantissa(s).len() as int)
}

/// The exponent of the literal, 0 where it has none.
pub open spec fn exponent(s: Seq<char>) -> int {
    if !has_exponent(s) {
        0
    } else if exponent_negative(s) {
        -(digits_value(s, exp_start(s), exp_end(s)) as int)
    } else {
        digits_value(s, exp_start(s), exp_end(s)) as int
    }
}

/// The literal stands for `mantissa_value` divided by ten to the power of
/// `decimals`.
pub open spec fn decimals(s: Seq<char>) -> int {
    (frac_end(s) - frac_start(s)) - exponent(s)
}

pub open spec fn pow10(k: nat) -> nat
    decreases k,
{
    if k == 0 {
        1
    } else {
        10 * pow10((k - 1) as nat)
    }
}

/// One over `a` divided by ten to the power of `k`, rounded to the nearest
/// whole number (halves go up), and at most `u32::MAX`; `u32::MAX` where `a`
/// is 0. With `k` below 0 the quotient is a tenth at most, and rounds to 0.
pub open spec fn rounded_inverse(a: nat, k: int) -> u32 {
    if a == 0 {
        u32::MAX
    } else if k < 0 {
        0
    } else if (2 * pow10(k as nat) + a) / (2 * a) > u32::MAX {
        u32::MAX
    } else {
        ((2 * pow10(k as nat) + a) / (2 * a)) as u32
    }
}

/// Frames per second for the frame time `s`: one over the frame time,
/// rounded to the nearest whole number (halves go up), and at most
/// `u32::MAX`. A frame time of zero gives `u32::MAX`; one that is negative,
/// or no decimal literal, gives 0.
pub open spec fn frame_rate(s: Seq<char>) -> u32 {
    if !is_decimal(s) || is_negative(s) {
        0
    } else {
        rounded_inverse(mantissa_value(s), decimals(s))
    }
}

/// Every place in a run of digits holds a digit.
pub proof fn lemma_digits_run(s: Seq<char>, i: int, j: int)
    requires
        0 <= i <= j < digits_end(s, i),
    ensures
        j < s.len(),
        is_digit(s[j]),
    decreases s.len() - i,
{
    if i < s.len() && is_digit(s[i]) {
        if i < j {
            lemma_digits_run(s, i + 1, j);
        }
    }
}

proof fn lemma_pow10_grows(a: nat, b: nat)
    requires
        a <= b,
    ensures
        pow10(a) <= pow10(b),
        pow10(a) >= 1,
    decreases b,
{
    if a < b {
        lemma_pow10_grows(a, (b - 1) as nat);
    } else if a > 0 {
        lemma_pow10_grows((a - 1) as nat, (a - 1) as nat);
    }
}

proof fn lemma_pow10_values()
    ensures
        pow10(18) == 1_000_000_000_000_000_000,
        pow10(19) == 10_000_000_000_000_000_000,
        pow10(30) == 1_000_000_000_000_000_000_000_000_000_000,
        pow10(31) == 10_000_000_000_000_000_000_000_000_000_000,
{
    reveal_with_fuel(pow10, 32);
}

proof fn lemma_pow10_sum(a: nat, b: nat)
    ensures
        pow10(a + b) == pow10(a) * pow10(b),
    decreases b,
{
    if b > 0 {
        lemma_pow10_sum(a, (b - 1) as nat);
        let x = pow10(a);
        let y = pow10((b - 1) as nat);
        assert(pow10(a + b) == 10 * pow10((a + b - 1) as nat));
        assert(10 * (x * y) == x * (10 * y)) by (nonlinear_arith);
    } else {
        assert(pow10(a) * 1 == pow10(a)) by (nonlinear_arith);
    }
}

/// Zeros in front add nothing to what digits spell.
proof fn lemma_leading_zeros(m: Seq<char>, z: int, j: int)
    requires
        0 <= z <= j <= m.len(),
        forall|i: int| 0 <= i < z ==> m[i] == '0',
    ensures
        digits_value(m, 0, j) == digits_value(m, z, j),
    decreases j,
{
    if j > z {
        lemma_leading_zeros(m, z, j - 1);
    } else if z > 0 {
        lemma_leading_zeros(m, z - 1, z - 1);
    }
}

/// The digits after the first `h` move what those spell up by a power of
/// ten, and add less than that power.
proof fn lemma_prefix_bounds(m: Seq<char>, h: int, j: int)
    requires
        0 <= h <= j <= m.len(),
        forall|i: int| 0 <= i < m.len() ==> is_digit(#[trigger] m[i]),
    ensures
        digits_value(m, 0, h) * pow10((j - h) as nat) <= digits_value(m, 0, j),
        digits_value(m, 0, j) < (digits_value(m, 0, h) + 1) * pow10((j - h) as nat),
    decreases j - h,
{
    let a = digits_value(m, 0, h);
    if h < j {
        lemma_prefix_bounds(m, h, j - 1);
        let v = digits_value(m, 0, j - 1);
        let p = pow10((j - 1 - h) as nat);
        let d = (m[j - 1] as nat - '0' as nat) as nat;
        assert(is_digit(m[j - 1]));
        assert(digits_value(m, 0, j) == v * 10 + d);
        assert(pow10((j - h) as nat) == 10 * p);
        assert(a * (10 * p) <= v * 10 + d) by (nonlinear_arith)
            requires
                a * p <= v,
        ;
        assert(v * 10 + d < (a + 1) * (10 * p)) by (nonlinear_arith)
            requires
                v < (a + 1) * p,
                d <= 9,
        ;
    } else {
        assert(a * 1 == a && (a + 1) * 1 == a + 1) by (nonlinear_arith);
    }
}

/// `x / y` is the one `q` with `q * y <= x < (q + 1) * y`.
proof fn lemma_quotient(x: int, y: int, q: int)
    requires
        y > 0,
    ensures
        q * y <= x < (q + 1) * y <==> x / y == q,
{
    vstd::arithmetic::div_mod::lemma_fundamental_div_mod(x, y);
    vstd::arithmetic::div_mod::lemma_mod_bound(x, y);
    assert((x / y) * y + x % y == x) by (nonlinear_arith)
        requires
            x == y * (x / y) + (x % y),
    ;
    if q * y <= x < (q + 1) * y {
        assert((q + 1) * y == q * y + y) by (nonlinear_arith);
        vstd::arithmetic::div_mod::lemma_fundamental_div_mod_converse_div(x, y, q, x - q * y);
    } else if x / y == q {
        assert((q + 1) * y == q * y + y) by (nonlinear_arith);
    }
}

/// A number with the leading digits `a`, `l` more digits after them and
/// fewer than `l` decimals is ten or more: its rate is 0.
proof fn lemma_small_rate(v: nat, a: nat, l: nat, k: int)
    requires
        a >= 1,
        a * pow10(l) <= v,
        k < l,
    ensures
        rounded_inverse(v, k) == 0,
{
    lemma_pow10_grows(l, l);
    let p = pow10(l);
    assert(p <= a * p) by (nonlinear_arith)
        requires
            a >= 1,
            p >= 1,
    ;
    if k >= 0 {
        lemma_pow10_grows(k as nat, (l - 1) as nat);
        assert(p == 10 * pow10((l - 1) as nat));
        let x = 2 * pow10(k as nat) + v;
        assert(0 <= x < 2 * v);
        vstd::arithmetic::div_mod::lemma_basic_div(x as int, (2 * v) as int);
    }
}

/// A number with at most 19 leading digits `a`, `l` more digits after them
/// and over `30 + l` decimals is so small that its rate is `u32::MAX`.
proof fn lemma_large_rate(v: nat, a: nat, l: nat, k: int)
    requires
        0 < v < (a + 1) * pow10(l),
        a < pow10(19),
        k - l > 30,
    ensures
        rounded_inverse(v, k) == u32::MAX,
{
    lemma_pow10_values();
    lemma_pow10_grows(31, (k - l) as nat);
    lemma_pow10_sum((k - l) as nat, l);
    lemma_pow10_grows(l, l);
    let p = pow10(l);
    let far = pow10((k - l) as nat);
    let x = 2 * pow10(k as nat) + v;
    let y = 2 * v;
    assert(v < 10_000_000_000_000_000_000 * p) by (nonlinear_arith)
        requires
            v < (a + 1) * p,
            a + 1 <= 10_000_000_000_000_000_000,
            p >= 1,
    ;
    assert(far * p >= 10_000_000_000_000_000_000_000_000_000_000 * p) by (nonlinear_arith)
        requires
            far >= 10_000_000_000_000_000_000_000_000_000_000,
            p >= 1,
    ;
    assert(x >= y * 0x1_0000_0000) by (nonlinear_arith)
        requires
            x >= 2 * (10_000_000_000_000_000_000_000_000_000_000 * p),
            0 < y < 2 * (10_000_000_000_000_000_000 * p),
            p >= 1,
    ;
    let q = x as int / y as int;
    lemma_quotient(x as int, y as int, q);
    assert(q >= 0x1_0000_0000) by (nonlinear_arith)
        requires
            x >= y * 0x1_0000_0000,
            x < (q + 1) * y,
            y > 0,
    ;
}

/// Where the rate `qa` that the leading digits `a` give still fits all the
/// digits `v`, it is the rate of `v`.
proof fn lemma_rate_kept(a: int, v: int, pl: int, p: int, qa: int)
    requires
        a > 0,
        pl > 0,
        p > 0,
        a * pl <= v,
        qa == (2 * p + a) / (2 * a),
        (2 * qa - 1) * v <= 2 * p * pl,
    ensures
        (2 * p * pl + v) / (2 * v) == qa,
{
    lemma_quotient(2 * p + a, 2 * a, qa);
    let x = 2 * p * pl + v;
    let y = 2 * v;
    assert(v > 0) by (nonlinear_arith)
        requires
            a * pl <= v,
            a > 0,
            pl > 0,
    ;
    assert(qa * y <= x) by (nonlinear_arith)
        requires
            (2 * qa - 1) * v <= 2 * p * pl,
            x == 2 * p * pl + v,
            y == 2 * v,
    ;
    assert((2 * qa + 1) * a >= 2 * p + 1) by (nonlinear_arith)
        requires
            2 * p + a < (qa + 1) * (2 * a),
    ;
    assert(2 * qa + 1 > 0) by (nonlinear_arith)
        requires
            (2 * qa + 1) * a >= 2 * p + 1,
            a > 0,
            p > 0,
    ;
    assert((2 * qa + 1) * v >= (2 * qa + 1) * (a * pl)) by (nonlinear_arith)
        requires
            2 * qa + 1 > 0,
            a * pl <= v,
    ;
    assert((2 * qa + 1) * (a * pl) > 2 * p * pl) by (nonlinear_arith)
        requires
            (2 * qa + 1) * a >= 2 * p + 1,
            pl > 0,
    ;
    assert(x < (qa + 1) * y) by (nonlinear_arith)
        requires
            (2 * qa + 1) * v > 2 * p * pl,
            x == 2 * p * pl + v,
            y == 2 * v,
    ;
    lemma_quotient(x, y, qa);
}

/// Where the rate `qa` that the leading digits `a` give does not fit all
/// the digits `v`, the rate of `v` is one less.
proof fn lemma_rate_lowered(a: int, v: int, pl: int, p: int, qa: int)
    requires
        a > 0,
        pl > 0,
        p > 0,
        a * pl <= v < (a + 1) * pl,
        qa == (2 * p + a) / (2 * a),
        2 * qa - 1 <= 2 * a + 2,
        (2 * qa - 1) * v > 2 * p * pl,
    ensures
        (2 * p * pl + v) / (2 * v) == qa - 1,
{
    lemma_quotient(2 * p + a, 2 * a, qa);
    let x = 2 * p * pl + v;
    let y = 2 * v;
    let w = 2 * qa - 3;
    assert(v > 0) by (nonlinear_arith)
        requires
            a * pl <= v,
            a > 0,
            pl > 0,
    ;
    assert(x < qa * y) by (nonlinear_arith)
        requires
            (2 * qa - 1) * v > 2 * p * pl,
            x == 2 * p * pl + v,
            y == 2 * v,
    ;
    assert(p * pl > 0) by (nonlinear_arith)
        requires
            p > 0,
            pl > 0,
    ;
    if w > 0 {
        assert(w * (a + 1) <= 2 * p) by (nonlinear_arith)
            requires
                qa * (2 * a) <= 2 * p + a,
                2 * qa - 1 <= 2 * a + 2,
                w == 2 * qa - 3,
        ;
        assert(w * v <= w * ((a + 1) * pl)) by (nonlinear_arith)
            requires
                w > 0,
                v < (a + 1) * pl,
        ;
        assert(w * ((a + 1) * pl) <= 2 * p * pl) by (nonlinear_arith)
            requires
                w * (a + 1) <= 2 * p,
                pl > 0,
        ;
    } else {
        assert(w * v <= 0) by (nonlinear_arith)
            requires
                w <= 0,
                v > 0,
        ;
    }
    assert((qa - 1) * y <= x) by (nonlinear_arith)
        requires
            w * v <= 2 * p * pl,
            w == 2 * qa - 3,
            x == 2 * p * pl + v,
            y == 2 * v,
    ;
    lemma_quotient(x, y, qa - 1);
}

/// The digits of the decimal literal `s` before and after its point.
fn collect_mantissa(s: &Vec<char>) -> (m: Vec<char>)
    requires
        is_decimal(s@),
    ensures
        m@ == mantissa(s@),
        forall|j: int| 0 <= j < m@.len() ==> is_digit(#[trigger] m@[j]),
{
    let n = s.len();
    let a0: usize = if n > 0 && char_is_sign(s[0]) {
        1
    } else {
        0
    };
    let b = scan_digits(s, a0);
    let c: usize = if b < n && s[b] == '.' {
        b + 1
    } else {
        b
    };
    let d = scan_digits(s, c);
    let mut m: Vec<char> = Vec::new();
    let mut i: usize = a0;
    while i < b
        invariant
            a0 <= i <= b <= n,
            n == s.len(),
            b == digits_end(s@, a0 as int),
            m@ == s@.subrange(a0 as int, i as int),
            forall|j: int| 0 <= j < m@.len() ==> is_digit(#[trigger] m@[j]),
        decreases b - i,
    {
        proof {
            lemma_digits_run(s@, a0 as int, i as int);
        }
        m.push(s[i]);
        proof {
            assert(m@ =~= s@.subrange(a0 as int, i + 1));
        }
        i += 1;
    }
    let mut i: usize = c;
    while i < d
        invariant
            c <= i <= d <= n,
            a0 <= b <= n,
            n == s.len(),
            d == digits_end(s@, c as int),
            m@ == s@.subrange(a0 as int, b as int) + s@.subrange(c as int, i as int),
            forall|j: int| 0 <= j < m@.len() ==> is_digit(#[trigger] m@[j]),
        decreases d - i,
    {
        proof {
            lemma_digits_run(s@, c as int, i as int);
        }
        m.push(s[i]);
        proof {
            assert(m@ =~= s@.subrange(a0 as int, b as int) + s@.subrange(c as int, i + 1));
        }
        i += 1;
    }
    m
}

/// The number that the first digits of `m` spell, and where they end: the
/// zeros in front, and up to 19 digits after them.
fn leading_digits(m: &Vec<char>) -> (r: (u128, usize))
    requires
        forall|j: int| 0 <= j < m@.len() ==> is_digit(#[trigger] m@[j]),
    ensures
        r.1 <= m@.len(),
        r.0 == digits_value(m@, 0, r.1 as int),
        r.0 < pow10(19),
        r.1 < m@.len() ==> r.0 >= pow10(18),
{
    let len = m.len();
    let mut z: usize = 0;
    while z < len && m[z] == '0'
        invariant
            z <= len,
            len == m.len(),
            forall|i: int| 0 <= i < z ==> m@[i] == '0',
        decreases len - z,
    {
        z += 1;
    }
    let h: usize = if len - z > 19 {
        z + 19
    } else {
        len
    };
    let mut a: u128 = 0;
    let mut i: usize = z;
    proof {
        lemma_pow10_values();
    }
    while i < h
        invariant
            z <= i <= h <= len,
            h - z <= 19,
            len == m.len(),
            z < len ==> m@[z as int] != '0',
            a == digits_value(m@, z as int, i as int),
            a < pow10((i - z) as nat),
            i > z ==> a >= pow10((i - z - 1) as nat),
            pow10(19) == 10_000_000_000_000_000_000,
            forall|j: int| 0 <= j < m@.len() ==> is_digit(#[trigger] m@[j]),
        decreases h - i,
    {
        assert(is_digit(m@[i as int]));
        let digit = digit_of(m[i]);
        proof {
            lemma_pow10_grows((i - z + 1) as nat, 19);
            assert(digits_value(m@, z as int, i + 1) == digits_value(m@, z as int, i as int) * 10
                + digit);
            assert(pow10((i + 1 - z) as nat) == 10 * pow10((i - z) as nat));
            if i > z {
                assert(pow10((i - z) as nat) == 10 * pow10((i - z - 1) as nat));
            }
        }
        a = a * 10 + digit as u128;
        i += 1;
    }
    proof {
        lemma_pow10_grows((h - z) as nat, 19);
        lemma_leading_zeros(m@, z as int, h as int);
    }
    (a, h)
}

/// The exponent of the decimal literal `s`, capped at ten to the power of
/// 30 on either side.
fn capped_exponent(s: &Vec<char>) -> (e: i128)
    requires
        is_decimal(s@),
    ensures
        -1_000_000_000_000_000_000_000_000_000_000 <= e
            <= 1_000_000_000_000_000_000_000_000_000_000,
        -1_000_000_000_000_000_000_000_000_000_000 < e
            < 1_000_000_000_000_000_000_000_000_000_000 ==> e == exponent(s@),
        e == 1_000_000_000_000_000_000_000_000_000_000 ==> exponent(s@) >= e,
        e == -1_000_000_000_000_000_000_000_000_000_000 ==> exponent(s@) <= e,
{
    let n = s.len();
    let a0: usize = if n > 0 && char_is_sign(s[0]) {
        1
    } else {
        0
    };
    let b = scan_digits(s, a0);
    let c: usize = if b < n && s[b] == '.' {
        b + 1
    } else {
        b
    };
    let d = scan_digits(s, c);
    if d >= n {
        return 0;
    }
    let negative = d + 1 < n && s[d + 1] == '-';
    let e1: usize = if d + 1 < n && char_is_sign(s[d + 1]) {
        d + 2
    } else {
        d + 1
    };
    let e2 = scan_digits(s, e1);
    let mut ev: i128 = 0;
    let mut i: usize = e1;
    while i < e2
        invariant
            e1 <= i <= e2 <= n,
            n == s.len(),
            e2 == digits_end(s@, e1 as int),
            0 <= ev <= 1_000_000_000_000_000_000_000_000_000_000,
            ev < 1_000_000_000_000_000_000_000_000_000_000 ==> ev == digits_value(
                s@,
                e1 as int,
                i as int,
            ),
            ev == 1_000_000_000_000_000_000_000_000_000_000 ==> digits_value(
                s@,
                e1 as int,
                i as int,
            ) >= 1_000_000_000_000_000_000_000_000_000_000,
        decreases e2 - i,
    {
        proof {
            lemma_digits_run(s@, e1 as int, i as int);
        }
        let digit = digit_of(s[i]);
        proof {
            assert(digits_value(s@, e1 as int, i + 1) == digits_value(s@, e1 as int, i as int)
                * 10 + digit);
        }
        if ev < 1_000_000_000_000_000_000_000_000_000_000 {
            ev = ev * 10 + digit as i128;
            if ev > 1_000_000_000_000_000_000_000_000_000_000 {
                ev = 1_000_000_000_000_000_000_000_000_000_000;
            }
        }
        i += 1;
    }
    if negative {
        -ev
    } else {
        ev
    }
}

/// Ten to the power of `k`.
fn power_of_ten(k: i128) -> (p: u128)
    requires
        0 <= k <= 30,
    ensures
        p == pow10(k as nat),
        1 <= p <= 1_000_000_000_000_000_000_000_000_000_000,
{
    let mut p: u128 = 1;
    let mut j: i128 = 0;
    proof {
        lemma_pow10_values();
    }
    while j < k
        invariant
            0 <= j <= k <= 30,
            p == pow10(j as nat),
            1 <= p <= 1_000_000_000_000_000_000_000_000_000_000,
            pow10(30) == 1_000_000_000_000_000_000_000_000_000_000,
        decreases k - j,
    {
        proof {
            lemma_pow10_grows((j + 1) as nat, 30);
        }
        p = p * 10;
        j += 1;
    }
    p
}

/// How far `w` times what the first `j` digits of `m` spell stays under
/// `2 * p`, moved up by the digits after the first `h`.
spec fn slack(m: Seq<char>, h: int, j: int, p: int, w: int) -> int {
    2 * p * pow10((j - h) as nat) - w * digits_value(m, 0, j)
}

proof fn lemma_slack_step(m: Seq<char>, h: int, j: int, p: int, w: int)
    requires
        0 <= h <= j < m.len(),
    ensures
        slack(m, h, j + 1, p, w) == 10 * slack(m, h, j, p, w) - w * (m[j] as nat - '0' as nat) as nat,
{
    let d = (m[j] as nat - '0' as nat) as nat;
    let up = pow10((j - h) as nat);
    let v = digits_value(m, 0, j);
    assert(pow10((j + 1 - h) as nat) == 10 * up);
    assert(digits_value(m, 0, j + 1) == v * 10 + d);
    assert(2 * p * (10 * up) - w * (v * 10 + d) == 10 * (2 * p * up - w * v) - w * d)
        by (nonlinear_arith);
}

/// Whether `2 * qa - 1` times the number that all the digits of `m` spell
/// is at most `2 * p`, moved up by the digits after the first `h`.
fn tail_fits(m: &Vec<char>, h: usize, a: u128, p: u128, qa: u128) -> (r: bool)
    requires
        forall|j: int| 0 <= j < m@.len() ==> is_digit(#[trigger] m@[j]),
        h <= m@.len(),
        a == digits_value(m@, 0, h as int),
        a < 10_000_000_000_000_000_000,
        1 <= qa <= 1_000_000_000_001,
        p <= 1_000_000_000_000_000_000_000_000_000_000,
        (2 * qa - 1) * a <= 2 * p,
    ensures
        r == ((2 * qa - 1) * digits_value(m@, 0, m@.len() as int) <= 2 * p * pow10(
            (m@.len() - h) as nat,
        )),
{
    let len = m.len();
    let w: i128 = (2 * qa - 1) as i128;
    assert(0 <= w * a <= 2 * p) by (nonlinear_arith)
        requires
            w == 2 * qa - 1,
            (2 * qa - 1) * a <= 2 * p,
            w >= 1,
            a >= 0,
    ;
    let n: i128 = (2 * p) as i128 - w * (a as i128);
    let mut r: i128 = if n >= w {
        w
    } else {
        n
    };
    let mut j: usize = h;
    proof {
        assert(2 * p * 1 == 2 * p) by (nonlinear_arith);
    }
    while j < len
        invariant
            h <= j <= len,
            len == m.len(),
            forall|j: int| 0 <= j < m@.len() ==> is_digit(#[trigger] m@[j]),
            1 <= w <= 2_000_000_000_001,
            -1 <= r <= w,
            r == -1 ==> slack(m@, h as int, j as int, p as int, w as int) < 0,
            r == w ==> slack(m@, h as int, j as int, p as int, w as int) >= w,
            0 <= r < w ==> slack(m@, h as int, j as int, p as int, w as int) == r,
        decreases len - j,
    {
        assert(is_digit(m@[j as int]));
        let digit = digit_of(m[j]);
        proof {
            lemma_slack_step(m@, h as int, j as int, p as int, w as int);
            assert(0 <= w * digit <= 9 * w) by (nonlinear_arith)
                requires
                    0 <= digit <= 9,
                    w >= 1,
            ;
        }
        if 0 <= r && r < w {
            r = 10 * r - w * (digit as i128);
            if r < 0 {
                r = -1;
            } else if r > w {
                r = w;
            }
        }
        j += 1;
    }
    r >= 0
}

/// Frames per second for the frame time that `s` spells.
pub fn frame_rate_of(s: &Vec<char>) -> (r: u32)
    ensures
        r == frame_rate(s@),
{
    if !check_decimal(s) {
        return 0;
    }
    if s.len() > 0 && s[0] == '-' {
        return 0;
    }
    let m = collect_mantissa(s);
    let (a, h) = leading_digits(&m);
    proof {
        lemma_pow10_values();
    }
    if a == 0 {
        return u32::MAX;
    }
    let e = capped_exponent(s);
    let n = s.len();
    let a0: usize = if n > 0 && char_is_sign(s[0]) {
        1
    } else {
        0
    };
    let b = scan_digits(s, a0);
    let c: usize = if b < n && s[b] == '.' {
        b + 1
    } else {
        b
    };
    let d = scan_digits(s, c);
    let left = m.len() - h;
    let k: i128 = (d - c) as i128 - e - left as i128;
    let ghost v = mantissa_value(s@);
    let ghost up = pow10(left as nat);
    proof {
        lemma_prefix_bounds(m@, h as int, m@.len() as int);
        lemma_pow10_grows(left as nat, left as nat);
        assert(v > 0) by (nonlinear_arith)
            requires
                a * up <= v,
                a > 0,
                up > 0,
        ;
    }
    if k < 0 {
        proof {
            lemma_small_rate(v, a as nat, left as nat, decimals(s@));
        }
        return 0;
    }
    if k > 30 {
        proof {
            lemma_large_rate(v, a as nat, left as nat, decimals(s@));
        }
        return u32::MAX;
    }
    let p = power_of_ten(k);
    let qa: u128 = (2 * p + a) / (2 * a);
    proof {
        lemma_quotient(2 * p + a, 2 * a, qa as int);
        lemma_pow10_sum(k as nat, left as nat);
        assert(decimals(s@) == k + left);
        assert((2 * qa - 1) * a <= 2 * p) by (nonlinear_arith)
            requires
                qa * (2 * a) <= 2 * p + a,
        ;
    }
    let q: u128 = if h == m.len() || qa == 0 {
        proof {
            if h == m.len() {
                assert(p * 1 == p) by (nonlinear_arith);
            } else {
                assert((2 * qa - 1) * v <= 2 * p * up) by (nonlinear_arith)
                    requires
                        qa == 0,
                        v >= 0,
                        p >= 0,
                        up >= 0,
                ;
                lemma_rate_kept(a as int, v as int, up as int, p as int, qa as int);
                assert(2 * (p * up) == 2 * p * up) by (nonlinear_arith);
            }
        }
        qa
    } else {
        proof {
            assert(qa <= 1_000_000_000_001) by (nonlinear_arith)
                requires
                    qa * (2 * a) <= 2 * p + a,
                    a >= 1_000_000_000_000_000_000,
                    p <= 1_000_000_000_000_000_000_000_000_000_000,
            ;
            assert(2 * (p * up) == 2 * p * up) by (nonlinear_arith);
        }
        if tail_fits(&m, h, a, p, qa) {
            proof {
                lemma_rate_kept(a as int, v as int, up as int, p as int, qa as int);
            }
            qa
        } else {
            proof {
                lemma_rate_lowered(a as int, v as int, up as int, p as int, qa as int);
            }
            qa - 1
        }
    };
    if q > u32::MAX as u128 {
        u32::MAX
    } else {
        q as u32
    }
}

} // verus!
