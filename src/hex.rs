//! Hexadecimal text for 64-bit words: reading, with an optional `0x` prefix,
//! and writing in upper case without leading zeros.
use crate::text::{chars_of, lower_of, string_of, to_lower};
use vstd::arithmetic::power2::{lemma2_to64, lemma_pow2_adds, lemma_pow2_strictly_increases, pow2};
use vstd::prelude::*;

verus! {

/// The value of a hexadecimal digit (either case), or -1.
pub open spec fn hex_digit(c: char) -> int {
    if '0' <= c <= '9' {
        c as int - '0' as int
    } else if 'a' <= c <= 'f' {
        c as int - 'a' as int + 10
    } else if 'A' <= c <= 'F' {
        c as int - 'A' as int + 10
    } else {
        -1
    }
}

/// Every character of `s` is a hexadecimal digit.
pub open spec fn all_hex(s: Seq<char>) -> bool {
    forall|i: int| 0 <= i < s.len() ==> hex_digit(#[trigger] s[i]) >= 0
}

/// The number that the hexadecimal digits `s` write.
pub open spec fn hex_value(s: Seq<char>) -> nat
    decreases s.len(),
{
    if s.len() == 0 {
        0
    } else {
        16 * hex_value(s.drop_last()) + hex_digit(s.last()) as nat
    }
}

/// The digits of a hexadecimal word text: lower-cased, without a leading
/// `0x`, and without one leading `+`.
pub open spec fn hex_digits_of(s: Seq<char>) -> Seq<char> {
    let lower = s.map_values(|c: char| lower_of(c));
    let t = if lower.len() >= 2 && lower[0] == '0' && lower[1] == 'x' {
        lower.skip(2)
    } else {
        lower
    };
    if t.len() > 0 && t[0] == '+' {
        t.skip(1)
    } else {
        t
    }
}

/// The word that `s` writes in hexadecimal: at most 18 characters, an
/// optional `0x` (either case), an optional `+`, then at least one digit,
/// with a value below 2^64.
pub open spec fn parse_hex_spec(s: Seq<char>) -> Option<u64> {
    let d = hex_digits_of(s);
    if s.len() <= 18 && d.len() > 0 && all_hex(d) && hex_value(d) <= u64::MAX {
        Some(hex_value(d) as u64)
    } else {
        None
    }
}

/// Reads a word written in hexadecimal; `None` where the text is not one.
pub fn parse_hex(input: &str) -> (r: Option<u64>)
    ensures
        r == parse_hex_spec(input@),
{
    let chars = chars_of(input);
    if chars.len() > 18 {
        return None;
    }
    let mut lower: Vec<char> = Vec::new();
    let mut i: usize = 0;
    while i < chars.len()
        invariant
            i <= chars@.len(),
            chars@ == input@,
            lower@ =~= input@.map_values(|c: char| lower_of(c)).take(i as int),
        decreases chars@.len() - i,
    {
        lower.push(to_lower(chars[i]));
        i = i + 1;
    }
    let ghost low = input@.map_values(|c: char| lower_of(c));
    assert(lower@ =~= low);
    let mut start: usize = 0;
    if lower.len() >= 2 && lower[0] == '0' && lower[1] == 'x' {
        start = 2;
    }
    if start < lower.len() && lower[start] == '+' {
        start = start + 1;
    }
    let ghost d = hex_digits_of(input@);
    assert(d =~= low.skip(start as int));
    if start >= lower.len() {
        return None;
    }
    let mut acc: u128 = 0;
    let mut k: usize = start;
    proof {
        lemma2_to64();
        assert(d.take(0) =~= Seq::<char>::empty());
    }
    while k < lower.len()
        invariant
            start <= k <= lower@.len(),
            lower@.len() <= 18,
            lower@ == low,
            low == input@.map_values(|c: char| lower_of(c)),
            d == low.skip(start as int),
            d == hex_digits_of(input@),
            input@.len() <= 18,
            all_hex(d.take(k - start)),
            acc == hex_value(d.take(k - start)),
            acc < pow2((4 * (k - start)) as nat),
        decreases lower@.len() - k,
    {
        let c = lower[k];
        let v: u128 = if '0' <= c && c <= '9' {
            (c as u8 - 48) as u128
        } else if 'a' <= c && c <= 'f' {
            (c as u8 - 87) as u128
        } else {
            assert(!all_hex(d)) by {
                assert(d[k - start] == c);
                let orig = input@[k as int];
                assert(c == lower_of(orig));
                if 'A' <= orig <= 'Z' {
                    let x = ('a' as int) + (orig as int - 'A' as int);
                    assert((x as char) as int == x);
                }
                assert(hex_digit(c) < 0);
            }
            return None;
        };
        proof {
            let n = (k - start) as nat;
            assert(d.take(n + 1 as int).drop_last() =~= d.take(n as int));
            assert(d[n as int] == c);
            assert(d.take(n + 1 as int) =~= d.take(n as int).push(c));
            assert(hex_digit(c) == v);
            lemma2_to64();
            lemma_pow2_adds(4 * n, 4);
            lemma_pow2_adds(64, 4);
            if n < 17 {
                lemma_pow2_strictly_increases(4 * n, 68);
            }
        }
        acc = acc * 16 + v;
        k = k + 1;
    }
    assert(d.take(k - start) =~= d);
    if acc > 0xFFFF_FFFF_FFFF_FFFF {
        return None;
    }
    Some(acc as u64)
}

/// The upper-case hexadecimal digits of `n`, without leading zeros.
pub open spec fn hex_text(n: nat) -> Seq<char>
    decreases n,
{
    if n < 16 {
        seq![upper_digit(n as int)]
    } else {
        hex_text(n / 16).push(upper_digit((n % 16) as int))
    }
}

/// The upper-case digit of `0 <= v < 16`.
pub open spec fn upper_digit(v: int) -> char {
    if v < 10 {
        (('0' as int) + v) as char
    } else {
        (('A' as int) + v - 10) as char
    }
}

proof fn lemma_digit_round_trip(v: int)
    requires
        0 <= v < 16,
    ensures
        hex_digit(lower_of(upper_digit(v))) == v,
        lower_of(upper_digit(v)) != 'x',
        lower_of(upper_digit(v)) != '+',
{
    if v < 10 {
        let x = ('0' as int) + v;
        assert((x as char) as int == x);
    } else {
        let x = ('A' as int) + v - 10;
        assert((x as char) as int == x);
        let y = ('a' as int) + (x - 'A' as int);
        assert((y as char) as int == y);
    }
}

proof fn lemma_hex_text_value(n: nat)
    ensures
        all_hex(hex_text(n).map_values(|c: char| lower_of(c))),
        hex_value(hex_text(n).map_values(|c: char| lower_of(c))) == n,
        hex_text(n).len() >= 1,
        forall|i: int|
            0 <= i < hex_text(n).len() ==> lower_of(#[trigger] hex_text(n)[i]) != 'x' && lower_of(
                hex_text(n)[i],
            ) != '+',
    decreases n,
{
    let low = hex_text(n).map_values(|c: char| lower_of(c));
    if n < 16 {
        lemma_digit_round_trip(n as int);
        assert(low.drop_last() =~= Seq::<char>::empty());
        assert(hex_value(low.drop_last()) == 0);
    } else {
        lemma_hex_text_value(n / 16);
        lemma_digit_round_trip((n % 16) as int);
        let prev = hex_text(n / 16);
        assert(low.drop_last() =~= prev.map_values(|c: char| lower_of(c)));
        assert(low.last() == lower_of(upper_digit((n % 16) as int)));
        assert forall|i: int| 0 <= i < hex_text(n).len() implies lower_of(#[trigger] hex_text(n)[i])
            != 'x' && lower_of(hex_text(n)[i]) != '+' by {
            if i < prev.len() {
                assert(hex_text(n)[i] == prev[i]);
            }
        }
        assert forall|i: int| 0 <= i < low.len() implies hex_digit(#[trigger] low[i]) >= 0 by {
            if i < prev.len() {
                assert(low[i] == prev.map_values(|c: char| lower_of(c))[i]);
            }
        }
    }
}

proof fn lemma_hex_text_len(n: nat, k: nat)
    requires
        k >= 1,
        n < pow2(4 * k),
    ensures
        hex_text(n).len() <= k,
    decreases n,
{
    if n >= 16 {
        lemma2_to64();
        if k == 1 {
            assert(false);
        } else {
            let p = pow2((4 * (k - 1)) as nat);
            lemma_pow2_adds((4 * (k - 1)) as nat, 4);
            assert(n / 16 < p) by (nonlinear_arith)
                requires
                    n < 16 * p,
            ;
            lemma_hex_text_len(n / 16, (k - 1) as nat);
        }
    }
}

/// Reading the hexadecimal text of a word gives the word back.
pub proof fn lemma_parse_format(x: u64)
    ensures
        parse_hex_spec(hex_text(x as nat)) == Some(x),
{
    let t = hex_text(x as nat);
    lemma_hex_text_value(x as nat);
    lemma2_to64();
    lemma_hex_text_len(x as nat, 16);
    let low = t.map_values(|c: char| lower_of(c));
    assert(low[0] == lower_of(t[0]));
    if low.len() >= 2 {
        assert(low[1] == lower_of(t[1]));
    }
    assert(hex_digits_of(t) == low);
}

fn digit_char(v: u64) -> (r: char)
    requires
        v < 16,
    ensures
        r == upper_digit(v as int),
{
    if v < 10 {
        ((48 + v) as u8) as char
    } else {
        ((55 + v) as u8) as char
    }
}

/// `x` in upper-case hexadecimal, without leading zeros.
pub fn format_hex(x: u64) -> (r: String)
    ensures
        r@ == hex_text(x as nat),
{
    let mut digits: Vec<char> = Vec::new();
    let mut rest = x;
    while rest >= 16
        invariant
            rest <= x,
            hex_text(x as nat) == hex_text(rest as nat) + digits@,
        decreases rest,
    {
        let mut d: Vec<char> = Vec::new();
        d.push(digit_char(rest % 16));
        let mut t: usize = 0;
        while t < digits.len()
            invariant
                t <= digits@.len(),
                d@ =~= seq![upper_digit((rest % 16) as int)] + digits@.take(t as int),
            decreases digits@.len() - t,
        {
            d.push(digits[t]);
            t = t + 1;
        }
        assert(digits@.take(t as int) =~= digits@);
        assert(hex_text(rest as nat) == hex_text((rest / 16) as nat).push(
            upper_digit((rest % 16) as int),
        ));
        assert(hex_text((rest / 16) as nat).push(upper_digit((rest % 16) as int)) + digits@
            =~= hex_text((rest / 16) as nat) + d@);
        digits = d;
        rest = rest / 16;
    }
    let mut out: Vec<char> = Vec::new();
    out.push(digit_char(rest));
    let mut t: usize = 0;
    while t < digits.len()
        invariant
            t <= digits@.len(),
            out@ =~= seq![upper_digit(rest as int)] + digits@.take(t as int),
        decreases digits@.len() - t,
    {
        out.push(digits[t]);
        t = t + 1;
    }
    assert(digits@.take(t as int) =~= digits@);
    assert(hex_text(rest as nat) == seq![upper_digit(rest as int)]);
    string_of(&out)
}

} // verus!
