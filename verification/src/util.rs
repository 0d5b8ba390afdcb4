//! Human-readable sizes and on-screen widths.

use vstd::prelude::*;
use vstd::arithmetic::power2::{
    lemma2_to64, lemma2_to64_rest, lemma_pow2_adds, lemma_pow2_pos, lemma_pow2_strictly_increases,
    lemma_pow2_unfold, pow2,
};
use vstd::arithmetic::div_mod::lemma_fundamental_div_mod;
use crate::text::{chars_of, decimal, digit_char, push_char, push_decimal};
use unicode_width::UnicodeWidthStr;

verus! {

/// `n / d` rounded to the nearest integer, ties to the even neighbour.
pub open spec fn div_round_even(n: nat, d: nat) -> nat {
    let q = n / d;
    let r = n % d;
    if 2 * r > d || (2 * r == d && q % 2 == 1) {
        q + 1
    } else {
        q
    }
}

/// The least `s >= t` (at most 11) with `b < 2^(53 + s)`: how far `b` must
/// be shifted right to fit a 53-bit significand.
pub open spec fn significand_shift(b: nat, t: nat) -> nat
    decreases 11 - t,
{
    if t >= 11 || b < pow2(53 + t) {
        t
    } else {
        significand_shift(b, t + 1)
    }
}

/// The value of `b as f64`: `b` rounded to the nearest number with a
/// 53-bit significand, ties to even (exact below 2^53).
pub open spec fn f64_value(b: nat) -> nat {
    if b < pow2(53) {
        b
    } else {
        let s = significand_shift(b, 1);
        div_round_even(b, pow2(s)) * pow2(s)
    }
}

/// The number of times `v` can be divided by 1024 while it stays at least
/// 1024 (at most 5): the unit of a size, counting from `j`.
pub open spec fn unit_index(v: nat, j: nat) -> nat
    decreases 5 - j,
{
    if j >= 5 || v < pow2(10 * (j + 1)) {
        j
    } else {
        unit_index(v, j + 1)
    }
}

/// The letter of the `k`-th unit.
pub open spec fn unit_char(k: nat) -> char {
    if k == 0 {
        'B'
    } else if k == 1 {
        'K'
    } else if k == 2 {
        'M'
    } else if k == 3 {
        'G'
    } else if k == 4 {
        'T'
    } else {
        'P'
    }
}

/// A byte count as `ls -lh` writes it: bytes in decimal with `B`; from
/// 1024 up, the size in the largest unit (K, M, G, T, P) that keeps it at
/// least 1, with one decimal place, as formatting the `f64` size with
/// `{:.1}` gives it (the value rounded to tenths, ties to even).
pub open spec fn spec_human_size(bytes: nat) -> Seq<char> {
    if bytes == 0 {
        seq!['0', 'B']
    } else {
        let v = f64_value(bytes);
        let k = unit_index(v, 0);
        if k == 0 {
            decimal(bytes).push('B')
        } else {
            let t = div_round_even(10 * v, pow2(10 * k));
            decimal(t / 10) + seq!['.', digit_char(t % 10), unit_char(k)]
        }
    }
}

fn unit_letter(k: usize) -> (c: char)
    requires
        k <= 5,
    ensures
        c == unit_char(k as nat),
{
    if k == 0 {
        'B'
    } else if k == 1 {
        'K'
    } else if k == 2 {
        'M'
    } else if k == 3 {
        'G'
    } else if k == 4 {
        'T'
    } else {
        'P'
    }
}

fn div_round_even_exec(n: u128, d: u128) -> (res: u128)
    requires
        0 < d <= 0x1_0000_0000_0000_0000,
        n < 0x1_0000_0000_0000_0000_0000_0000,
    ensures
        res as nat == div_round_even(n as nat, d as nat),
        res <= n + 1,
{
    let q = n / d;
    let r = n % d;
    if 2 * r > d || (2 * r == d && q % 2 == 1) {
        q + 1
    } else {
        q
    }
}

/// `b as f64`, as an integer (see `f64_value`).
fn f64_value_of(b: u64) -> (res: u128)
    ensures
        res as nat == f64_value(b as nat),
        res <= 2 * (b as nat) + 1,
        b >= 1024 ==> res >= 1024,
{
    proof {
        lemma2_to64();
        lemma2_to64_rest();
    }
    let p53: u128 = 0x20_0000_0000_0000;
    assert(pow2(53) == p53);
    let bb = b as u128;
    if bb < p53 {
        return bb;
    }
    let mut s: u128 = 1;
    let mut d: u128 = 2;
    assert(pow2(1) == 2);
    while s < 11 && bb >= 0x20_0000_0000_0000u128 * d
        invariant
            1 <= s <= 11,
            d == pow2(s as nat),
            d <= 2048,
            bb == b,
            bb >= p53,
            p53 == pow2(53),
            p53 == 0x20_0000_0000_0000u128,
            significand_shift(b as nat, 1) == significand_shift(b as nat, s as nat),
        decreases 11 - s,
    {
        proof {
            lemma2_to64();
            lemma_pow2_adds(53, s as nat);
            lemma_pow2_unfold((s + 1) as nat);
            if s + 1 < 11 {
                lemma_pow2_strictly_increases((s + 1) as nat, 11);
            }
        }
        s = s + 1;
        d = d * 2;
    }
    proof {
        lemma_pow2_adds(53, s as nat);
        if s < 11 {
            assert(b < pow2(53 + s as nat));
        }
        lemma_pow2_pos(s as nat);
        lemma_fundamental_div_mod(b as int, d as int);
        assert(significand_shift(b as nat, s as nat) == s);
    }
    let q = div_round_even_exec(bb, d);
    proof {
        assert((bb / d) * d <= bb) by (nonlinear_arith)
            requires
                d > 0,
                bb == d * (bb / d) + bb % d,
                bb % d >= 0,
        ;
        assert(q * d <= bb + d) by (nonlinear_arith)
            requires
                q <= bb / d + 1,
                (bb / d) * d <= bb,
                d > 0,
        ;
        assert(d <= bb);
        assert((bb / d) * d + d > bb) by (nonlinear_arith)
            requires
                d > 0,
                bb == d * (bb / d) + bb % d,
                bb % d < d,
        ;
        assert(q * d >= (bb / d) * d) by (nonlinear_arith)
            requires
                q >= bb / d,
                d > 0,
        ;
    }
    q * d
}

/// Format a byte count for a listing (see `spec_human_size`).
pub fn human_size(bytes: u64) -> (res: String)
    ensures
        res@ == spec_human_size(bytes as nat),
{
    let mut out = String::new();
    if bytes == 0 {
        push_char(&mut out, '0');
        push_char(&mut out, 'B');
        return out;
    }
    proof {
        lemma2_to64();
        lemma2_to64_rest();
    }
    let v = f64_value_of(bytes);
    let mut unit: usize = 0;
    let mut scale: u128 = 1;
    assert(pow2(0) == 1);
    while unit < 5 && v >= scale * 1024
        invariant
            unit <= 5,
            scale == pow2(10 * unit as nat),
            scale <= 0x4_0000_0000_0000,
            v as nat == f64_value(bytes as nat),
            v <= 2 * (bytes as nat) + 1,
            unit_index(v as nat, 0) == unit_index(v as nat, unit as nat),
        decreases 5 - unit,
    {
        proof {
            lemma2_to64();
            lemma2_to64_rest();
            lemma_pow2_adds(10 * unit as nat, 10);
            assert(10 * (unit as nat + 1) == 10 * unit as nat + 10);
            if unit + 1 < 5 {
                lemma_pow2_strictly_increases(10 * (unit as nat + 1), 50);
            }
        }
        unit = unit + 1;
        scale = scale * 1024;
    }
    proof {
        lemma_pow2_adds(10 * unit as nat, 10);
        assert(10 * (unit as nat + 1) == 10 * unit as nat + 10);
        assert(unit_index(v as nat, unit as nat) == unit);
    }
    if unit == 0 {
        push_decimal(&mut out, bytes as u128);
        push_char(&mut out, 'B');
        proof {
            assert(v < 1024);
            assert(bytes < 1024);
            assert(f64_value(bytes as nat) == bytes);
        }
        return out;
    }
    let t = div_round_even_exec(v * 10, scale);
    push_decimal(&mut out, t / 10);
    push_char(&mut out, '.');
    let d: u8 = (t % 10) as u8;
    let c: char = (48u8 + d) as char;
    assert(c == digit_char((t % 10) as nat));
    push_char(&mut out, c);
    push_char(&mut out, unit_letter(unit));
    out
}


/// The column width that `unicode_width` gives the one-character string `c`.
pub uninterp spec fn spec_char_width(c: char) -> nat;

/// Calls `UnicodeWidthStr::width` on the one-character string holding `c`;
/// the result is a function of `c` alone.
#[verifier::external_body]
fn char_width(c: char) -> (res: usize)
    ensures
        res as nat == spec_char_width(c),
{
    UnicodeWidthStr::width(c.to_string().as_str())
}

/// Nerd-font icons live in the private-use areas, which render two columns wide.
pub open spec fn is_icon_char(c: char) -> bool {
    (0xE000 <= (c as u32) <= 0xF8FF) || (0xF0000 <= (c as u32) <= 0xFFFFD)
}

/// The width of one character on screen.
pub open spec fn spec_column_width(c: char) -> nat {
    if is_icon_char(c) {
        2
    } else {
        spec_char_width(c)
    }
}

/// The width of a text on screen: the sum of its characters' widths.
pub open spec fn spec_display_width(s: Seq<char>) -> nat
    decreases s.len(),
{
    if s.len() == 0 {
        0
    } else {
        spec_display_width(s.drop_last()) + spec_column_width(s.last())
    }
}

fn column_width(c: char) -> (res: usize)
    ensures
        res as nat == spec_column_width(c),
{
    let cp = c as u32;
    if (0xE000 <= cp && cp <= 0xF8FF) || (0xF0000 <= cp && cp <= 0xFFFFD) {
        2
    } else {
        char_width(c)
    }
}

fn sum_widths(s: &str) -> (res: Option<usize>)
    ensures
        match res {
            Option::Some(w) => w as nat == spec_display_width(s@),
            Option::None => spec_display_width(s@) > usize::MAX,
        },
{
    let cs = chars_of(s);
    let mut total: usize = 0;
    let mut i: usize = 0;
    while i < cs.len()
        invariant
            i <= cs.len(),
            cs@ == s@,
            total as nat == spec_display_width(cs@.take(i as int)),
        decreases cs.len() - i,
    {
        let w = column_width(cs[i]);
        assert(cs@.take(i + 1).drop_last() =~= cs@.take(i as int));
        if total > usize::MAX - w {
            proof {
                lemma_display_width_prefix(cs@, i + 1);
            }
            return Option::None;
        }
        total = total + w;
        i = i + 1;
    }
    assert(cs@.take(cs@.len() as int) =~= cs@);
    Option::Some(total)
}

/// A prefix is never wider than the whole text.
pub proof fn lemma_display_width_prefix(s: Seq<char>, n: int)
    requires
        0 <= n <= s.len(),
    ensures
        spec_display_width(s.take(n)) <= spec_display_width(s),
    decreases s.len() - n,
{
    if n < s.len() {
        lemma_display_width_prefix(s, n + 1);
        assert(s.take(n + 1).drop_last() =~= s.take(n));
    } else {
        assert(s.take(n) =~= s);
    }
}

/// The visible width of `s` in columns: icon glyphs count two columns,
/// other characters as wide as `unicode_width` says.
pub fn display_width(s: &str) -> (res: usize)
    requires
        spec_display_width(s@) <= usize::MAX,
    ensures
        res as nat == spec_display_width(s@),
{
    match sum_widths(s) {
        Option::Some(w) => w,
        Option::None => 0,
    }
}

/// The visible width of `s` in columns, or `None` when it does not fit a `usize`.
pub fn display_width_checked(s: &str) -> (res: Option<usize>)
    ensures
        match res {
            Option::Some(w) => w as nat == spec_display_width(s@),
            Option::None => spec_display_width(s@) > usize::MAX,
        },
{
    match sum_widths(s) {
        Option::Some(_) => Option::Some(display_width(s)),
        Option::None => Option::None,
    }
}


/// Below 1024 a size is written in bytes: the count in decimal, then `B`.
pub proof fn lemma_human_size_bytes(n: nat)
    requires
        0 < n < 1024,
    ensures
        spec_human_size(n) == decimal(n).push('B'),
{
    lemma2_to64();
    lemma_pow2_strictly_increases(10, 53);
    assert(f64_value(n) == n);
    assert(unit_index(n, 0) == 0);
}

} // verus!
