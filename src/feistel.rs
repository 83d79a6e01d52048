//! The keyed round function `f(R, K)` of the Feistel network.
use crate::bits::{permute, permute_spec, xor, xor_spec};
use crate::tables::{lemma_sbox_range, E, P, SBOXES};
use vstd::prelude::*;

verus! {

pub open spec fn bit_value(b: bool) -> int {
    if b {
        1
    } else {
        0
    }
}

/// Row of group `g` of a 48-bit input: its outer two bits.
pub open spec fn sbox_row(x: Seq<bool>, g: int) -> int {
    2 * bit_value(x[6 * g]) + bit_value(x[6 * g + 5])
}

/// Column of group `g` of a 48-bit input: its inner four bits.
pub open spec fn sbox_column(x: Seq<bool>, g: int) -> int {
    8 * bit_value(x[6 * g + 1]) + 4 * bit_value(x[6 * g + 2]) + 2 * bit_value(x[6 * g + 3])
        + bit_value(x[6 * g + 4])
}

/// What substitution box `g` gives for group `g` of `x`.
pub open spec fn sbox_output(x: Seq<bool>, g: int) -> u8 {
    SBOXES@[64 * g + 16 * sbox_row(x, g) + sbox_column(x, g)]
}

/// Bit `j` (0 = most significant) of a 4-bit value.
pub open spec fn nibble_bit(v: u8, j: int) -> bool {
    (v >> ((3 - j) as u8)) & 1u8 == 1u8
}

/// The eight 4-bit box outputs of a 48-bit input, concatenated.
pub open spec fn substitute_spec(x: Seq<bool>) -> Seq<bool> {
    Seq::new(32, |i: int| nibble_bit(sbox_output(x, i / 4), i % 4))
}

/// `f(R, K)`: expand `R` by E, exclusive or with `K`, substitute, permute by P.
#[verifier::opaque]
pub open spec fn f_spec(r: Seq<bool>, k: Seq<bool>) -> Seq<bool> {
    permute_spec(substitute_spec(xor_spec(permute_spec(r, E@), k)), P@)
}

/// Every substitution-box lookup, for every 6-bit group of every 48-bit
/// input, gives a value in `0..=15`.
pub proof fn lemma_sbox_lookup_range(x: Seq<bool>, g: int)
    requires
        x.len() == 48,
        0 <= g < 8,
    ensures
        sbox_output(x, g) <= 15,
{
    lemma_sbox_range();
    assert(0 <= 64 * g + 16 * sbox_row(x, g) + sbox_column(x, g) < 512);
}

/// `f(R, K)` is 32 bits long.
pub proof fn lemma_f_len(r: Seq<bool>, k: Seq<bool>)
    ensures
        f_spec(r, k).len() == 32,
{
    reveal(f_spec);
}

/// Passes each 6-bit group of `x` through its substitution box.
pub fn substitute(x: &Vec<bool>) -> (r: Vec<bool>)
    requires
        x@.len() == 48,
    ensures
        r@ == substitute_spec(x@),
{
    let mut r: Vec<bool> = Vec::new();
    let mut g: usize = 0;
    while g < 8
        invariant
            g <= 8,
            x@.len() == 48,
            r@ =~= substitute_spec(x@).take(4 * g as int),
        decreases 8 - g,
    {
        let b = 6 * g;
        let row: usize = 2 * (x[b] as usize) + (x[b + 5] as usize);
        let column: usize = 8 * (x[b + 1] as usize) + 4 * (x[b + 2] as usize) + 2 * (
        x[b + 3] as usize) + (x[b + 4] as usize);
        assert(row == sbox_row(x@, g as int));
        assert(column == sbox_column(x@, g as int));
        let v = SBOXES[64 * g + 16 * row + column];
        let mut j: u8 = 0;
        while j < 4
            invariant
                g < 8,
                j <= 4,
                v == sbox_output(x@, g as int),
                r@ =~= substitute_spec(x@).take(4 * g + j),
            decreases 4 - j,
        {
            r.push((v >> (3 - j)) & 1 == 1);
            j = j + 1;
            assert((4 * g + j - 1) / 4 == g as int && (4 * g + j - 1) % 4 == j - 1);
        }
        g = g + 1;
    }
    assert(substitute_spec(x@).take(32) =~= substitute_spec(x@));
    r
}

/// The round function `f(R, K)` on a 32-bit half and a 48-bit subkey.
pub fn round_function(r_half: &Vec<bool>, subkey: &Vec<bool>) -> (r: Vec<bool>)
    requires
        r_half@.len() == 32,
        subkey@.len() == 48,
    ensures
        r@ == f_spec(r_half@, subkey@),
        r@.len() == 32,
{
    proof {
        reveal(f_spec);
    }
    let expanded = permute(r_half, &E);
    let mixed = xor(&expanded, subkey);
    let substituted = substitute(&mixed);
    permute(&substituted, &P)
}

} // verus!
