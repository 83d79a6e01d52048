//! Derivation of the sixteen 48-bit round subkeys from a 64-bit key.
use crate::bits::{
    concat, permute, permute_spec, rotate_left, rotate_spec, slice, word_bit, word_bits, word_to_bits,
};
use crate::tables::{PC1, PC2, SHIFTS};
use vstd::prelude::*;

verus! {

/// The two 28-bit halves `(C_i, D_i)` of the key register after `i` rounds:
/// PC-1 splits the key into `C_0` and `D_0`, and round `i` rotates both
/// halves of round `i - 1` left by `SHIFTS[i - 1]`.
pub open spec fn halves_after(key: Seq<bool>, i: nat) -> (Seq<bool>, Seq<bool>)
    decreases i,
{
    if i == 0 {
        let cd = permute_spec(key, PC1@);
        (cd.take(28), cd.skip(28))
    } else {
        let (c, d) = halves_after(key, (i - 1) as nat);
        let n = SHIFTS@[i - 1] as int;
        (rotate_spec(c, n), rotate_spec(d, n))
    }
}

/// Subkey `K_{i+1}`: PC-2 applied to `C_{i+1} ‖ D_{i+1}`.
pub open spec fn subkey_spec(key: Seq<bool>, i: nat) -> Seq<bool> {
    let (c, d) = halves_after(key, i + 1);
    permute_spec(c + d, PC2@)
}

/// The sixteen subkeys `[K_1, ..., K_16]` of a 64-bit key, in round order.
pub open spec fn schedule_spec(key: Seq<bool>) -> Seq<Seq<bool>> {
    Seq::new(16, |i: int| subkey_spec(key, i as nat))
}

/// The schedule of the key word `key`.
pub open spec fn key_schedule(key: u64) -> Seq<Seq<bool>> {
    schedule_spec(word_bits(key))
}

/// Both halves stay 28 bits long through every round.
pub proof fn lemma_halves_len(key: Seq<bool>, i: nat)
    ensures
        halves_after(key, i).0.len() == 28,
        halves_after(key, i).1.len() == 28,
    decreases i,
{
    if i > 0 {
        lemma_halves_len(key, (i - 1) as nat);
    }
}

/// A schedule holds 16 subkeys of 48 bits each.
pub proof fn lemma_schedule_shape(key: Seq<bool>)
    ensures
        schedule_spec(key).len() == 16,
        forall|i: int| 0 <= i < 16 ==> (#[trigger] schedule_spec(key)[i]).len() == 48,
{
}

/// Deriving twice from one key gives the same sixteen subkeys.
pub proof fn lemma_schedule_deterministic(k1: u64, k2: u64)
    requires
        k1 == k2,
    ensures
        key_schedule(k1) == key_schedule(k2),
{
}

/// The position in `C_0 ‖ D_0` (0-based) that bit `j` of subkey `K_r`
/// (`r` is 1 or 2) reads: both halves have turned left by `r` places.
pub open spec fn register_source(r: int, j: int) -> int {
    let q = PC2@[j] - 1;
    if 28 > q {
        if r == 1 {
            (q + 1) % 28
        } else {
            ((q + 1) % 28 + 1) % 28
        }
    } else {
        28 + if r == 1 {
            (q - 28 + 1) % 28
        } else {
            ((q - 28 + 1) % 28 + 1) % 28
        }
    }
}

/// For each register position, a round (1 or 2) whose subkey reads it.
pub open spec fn covering_round() -> Seq<int> {
    seq![
        1, 1, 1, 1, 1, 1, 1, 1, 1, 2, 1, 1, 1, 1, 1, 1, 1, 1, 2, 1, 1, 1, 2, 1, 1, 2, 1, 1,
        1, 1, 1, 1, 1, 1, 1, 2, 1, 1, 2, 1, 1, 1, 1, 2, 1, 1, 1, 1, 1, 1, 1, 1, 1, 1, 2, 1,
    ]
}

/// For each register position, the subkey bit of `covering_round` that reads it.
pub open spec fn covering_bit() -> Seq<int> {
    seq![
        7, 4, 23, 6, 15, 5, 9, 19, 17, 17, 11, 2, 14, 22, 0, 8, 18, 1, 1, 13, 21, 10, 10, 12,
        3, 3, 16, 20, 39, 46, 30, 26, 47, 34, 40, 40, 45, 27, 27, 38, 31, 24, 43, 43, 36, 33,
        42, 28, 35, 37, 44, 32, 25, 41, 41, 29,
    ]
}

/// For each key bit position `p` (1-based, at index `p - 1`) that is not a
/// parity bit, the register position that PC-1 puts it in.
pub open spec fn pc1_inverse() -> Seq<int> {
    seq![
        7, 15, 23, 55, 51, 43, 35, 0, 6, 14, 22, 54, 50, 42, 34, 0, 5, 13, 21, 53, 49, 41, 33,
        0, 4, 12, 20, 52, 48, 40, 32, 0, 3, 11, 19, 27, 47, 39, 31, 0, 2, 10, 18, 26, 46, 38,
        30, 0, 1, 9, 17, 25, 45, 37, 29, 0, 0, 8, 16, 24, 44, 36, 28, 0,
    ]
}

proof fn lemma_covering_tables()
    ensures
        forall|m: int|
            0 <= m < 56 ==> {
                &&& (#[trigger] covering_round()[m] == 1 || covering_round()[m] == 2)
                &&& 0 <= covering_bit()[m] < 48
                &&& register_source(covering_round()[m], covering_bit()[m]) == m
            },
        forall|p: int|
            1 <= p <= 64 && p % 8 != 0 ==> {
                &&& 0 <= #[trigger] pc1_inverse()[p - 1] < 56
                &&& PC1@[pc1_inverse()[p - 1]] == p
            },
{
    assert(PC2@.len() == 48);
}

/// Bit `j` of subkey `K_r` (`r` is 1 or 2) is the key bit that PC-1 puts at
/// `register_source(r, j)`.
proof fn lemma_early_subkey_bit(key: Seq<bool>, r: int, j: int)
    requires
        key.len() == 64,
        r == 1 || r == 2,
        0 <= j < 48,
    ensures
        subkey_spec(key, (r - 1) as nat)[j] == key[PC1@[register_source(r, j)] - 1],
{
    let cd = permute_spec(key, PC1@);
    let (c0, d0) = halves_after(key, 0);
    assert(c0 == cd.take(28) && d0 == cd.skip(28));
    let (c1, d1) = halves_after(key, 1);
    assert(c1 == rotate_spec(c0, 1) && d1 == rotate_spec(d0, 1));
    let (c2, d2) = halves_after(key, 2);
    assert(c2 == rotate_spec(c1, 1) && d2 == rotate_spec(d1, 1));
    let q = PC2@[j] - 1;
    assert(0 <= q < 56);
    let m = register_source(r, j);
    assert(0 <= m < 56);
    assert(1 <= PC1@[m] <= 64);
    if r == 1 {
        assert((c1 + d1)[q] == cd[m]);
    } else {
        assert((c2 + d2)[q] == cd[m]);
    }
}

/// The word `key` with bit `p` (1-based from the most significant) inverted.
pub open spec fn flip_bit(key: u64, p: int) -> u64 {
    key ^ (1u64 << ((64 - p) as u64))
}

proof fn lemma_flip_bit(key: u64, p: int, k: int)
    requires
        1 <= p <= 64,
        0 <= k < 64,
    ensures
        word_bit(flip_bit(key, p), k) == (word_bit(key, k) != (k == p - 1)),
{
    let s = (64 - p) as u64;
    let t = (63 - k) as u64;
    assert(((key ^ (1u64 << s)) >> t) & 1u64 == 1u64 <==> (((key >> t) & 1u64 == 1u64) != (t
        == s))) by (bit_vector)
        requires
            s < 64,
            t < 64,
    ;
}

/// Inverting one key bit that is not a parity bit (a position that is not a
/// multiple of 8) changes the schedule: one of the first two subkeys reads it.
pub proof fn lemma_flip_changes_schedule(key: u64, p: int)
    requires
        1 <= p <= 64,
        p % 8 != 0,
    ensures
        key_schedule(key) != key_schedule(flip_bit(key, p)),
{
    lemma_covering_tables();
    let m = pc1_inverse()[p - 1];
    let r = covering_round()[m];
    let j = covering_bit()[m];
    let other = flip_bit(key, p);
    lemma_early_subkey_bit(word_bits(key), r, j);
    lemma_early_subkey_bit(word_bits(other), r, j);
    lemma_flip_bit(key, p, p - 1);
    assert(key_schedule(key)[r - 1][j] == word_bit(key, p - 1));
    assert(key_schedule(other)[r - 1][j] == word_bit(other, p - 1));
}

proof fn lemma_parity_bit_agrees(k1: u64, k2: u64, p: int)
    requires
        (k1 ^ k2) & 0xFEFE_FEFE_FEFE_FEFEu64 == 0,
        1 <= p <= 64,
        p % 8 != 0,
    ensures
        word_bit(k1, p - 1) == word_bit(k2, p - 1),
{
    let t = (64 - p) as u64;
    assert(t % 8 != 0);
    assert(((k1 >> t) & 1u64) == ((k2 >> t) & 1u64)) by (bit_vector)
        requires
            (k1 ^ k2) & 0xFEFE_FEFE_FEFE_FEFEu64 == 0,
            t < 64,
            t % 8 != 0,
    ;
    assert(((63 - (p - 1)) as u64) == t);
}

proof fn lemma_same_register(k1: Seq<bool>, k2: Seq<bool>, i: nat)
    requires
        permute_spec(k1, PC1@) == permute_spec(k2, PC1@),
    ensures
        halves_after(k1, i) == halves_after(k2, i),
    decreases i,
{
    if i > 0 {
        lemma_same_register(k1, k2, (i - 1) as nat);
    }
}

/// Keys that differ only in parity bits (the last bit of each byte, which
/// PC-1 drops) have the same schedule, so they encrypt alike.
pub proof fn lemma_parity_bits_ignored(k1: u64, k2: u64)
    requires
        (k1 ^ k2) & 0xFEFE_FEFE_FEFE_FEFEu64 == 0,
    ensures
        key_schedule(k1) == key_schedule(k2),
{
    let w1 = word_bits(k1);
    let w2 = word_bits(k2);
    assert forall|m: int| 0 <= m < 56 implies #[trigger] permute_spec(w1, PC1@)[m]
        == permute_spec(w2, PC1@)[m] by {
        let p = PC1@[m] as int;
        assert(1 <= p <= 64 && p % 8 != 0);
        lemma_parity_bit_agrees(k1, k2, p);
    }
    assert(permute_spec(w1, PC1@) =~= permute_spec(w2, PC1@));
    assert forall|i: int| 0 <= i < 16 implies #[trigger] schedule_spec(w1)[i] == schedule_spec(
        w2,
    )[i] by {
        lemma_same_register(w1, w2, (i + 1) as nat);
    }
    assert(schedule_spec(w1) =~= schedule_spec(w2));
}

/// The ordered round subkeys of one key, derived once and never changed.
pub struct RoundKeySchedule {
    subkeys: Vec<Vec<bool>>,
}

impl View for RoundKeySchedule {
    type V = Seq<Seq<bool>>;

    closed spec fn view(&self) -> Seq<Seq<bool>> {
        self.subkeys@.map_values(|k: Vec<bool>| k@)
    }
}

impl RoundKeySchedule {
    /// Derives the schedule of `key`: `K_1` first, `K_16` last.
    pub fn derive(key: u64) -> (r: RoundKeySchedule)
        ensures
            r@ == key_schedule(key),
    {
        let kb = word_to_bits(key);
        let cd = permute(&kb, &PC1);
        let mut c = slice(&cd, 0, 28);
        let mut d = slice(&cd, 28, 56);
        let ghost key_bits = word_bits(key);
        let mut subkeys: Vec<Vec<bool>> = Vec::new();
        let mut i: usize = 0;
        assert(c@ =~= halves_after(key_bits, 0).0);
        assert(d@ =~= halves_after(key_bits, 0).1);
        while i < 16
            invariant
                i <= 16,
                key_bits == word_bits(key),
                c@ == halves_after(key_bits, i as nat).0,
                d@ == halves_after(key_bits, i as nat).1,
                subkeys@.map_values(|k: Vec<bool>| k@) =~= schedule_spec(key_bits).take(i as int),
            decreases 16 - i,
        {
            proof {
                lemma_halves_len(key_bits, i as nat);
            }
            let n = SHIFTS[i] as usize;
            c = rotate_left(&c, n);
            d = rotate_left(&d, n);
            let joined = concat(&c, &d);
            let k = permute(&joined, &PC2);
            assert(k@ == subkey_spec(key_bits, i as nat));
            let ghost before = subkeys@;
            subkeys.push(k);
            assert(subkeys@.map_values(|k: Vec<bool>| k@) =~= before.map_values(
                |k: Vec<bool>| k@,
            ).push(k@));
            i = i + 1;
        }
        assert(schedule_spec(key_bits).take(16) =~= schedule_spec(key_bits));
        RoundKeySchedule { subkeys }
    }

    /// Subkey `K_{i+1}`.
    pub fn subkey(&self, i: usize) -> (r: &Vec<bool>)
        requires
            i < self@.len(),
        ensures
            r@ == self@[i as int],
    {
        &self.subkeys[i]
    }

    /// The number of subkeys.
    pub fn len(&self) -> (r: usize)
        ensures
            r == self@.len(),
    {
        self.subkeys.len()
    }
}

} // verus!
