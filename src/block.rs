//! The block cipher controller: initial permutation, sixteen Feistel rounds,
//! swap of the halves and final permutation.
use crate::bits::{
    bits_to_word, bits_value, concat, lemma_value_word_bits, lemma_word_bits_value,
    lemma_xor_twice, permute, permute_spec, slice, word_bits, word_to_bits, xor, xor_spec,
};
use crate::feistel::{f_spec, lemma_f_len, round_function};
use crate::key_schedule::{key_schedule, lemma_schedule_shape, RoundKeySchedule};
use crate::tables::{lemma_ip_fp_tables, FP, IP};
use vstd::prelude::*;

verus! {

/// The rounds `L_i = R_{i-1}`, `R_i = L_{i-1} xor f(R_{i-1}, K_i)` over the
/// subkeys `ks` in their order; the result is `(L_n, R_n)`.
pub open spec fn rounds_spec(l: Seq<bool>, r: Seq<bool>, ks: Seq<Seq<bool>>) -> (
    Seq<bool>,
    Seq<bool>,
)
    decreases ks.len(),
{
    if ks.len() == 0 {
        (l, r)
    } else {
        rounds_spec(r, xor_spec(l, f_spec(r, ks[0])), ks.drop_first())
    }
}

/// The subkeys in the opposite order.
pub open spec fn reversed(ks: Seq<Seq<bool>>) -> Seq<Seq<bool>> {
    Seq::new(ks.len(), |i: int| ks[ks.len() - 1 - i])
}

/// One 64-bit block through IP, the rounds over `ks`, the swap `R ‖ L` and FP.
pub open spec fn block_spec(block: Seq<bool>, ks: Seq<Seq<bool>>) -> Seq<bool> {
    let ip = permute_spec(block, IP@);
    let (l, r) = rounds_spec(ip.take(32), ip.skip(32), ks);
    permute_spec(r + l, FP@)
}

/// The ciphertext of `block` under `key`.
pub open spec fn encrypt_spec(block: u64, key: u64) -> u64 {
    bits_value(block_spec(word_bits(block), key_schedule(key))) as u64
}

/// The plaintext of `block` under `key`: the same network, subkeys reversed.
pub open spec fn decrypt_spec(block: u64, key: u64) -> u64 {
    bits_value(block_spec(word_bits(block), reversed(key_schedule(key)))) as u64
}

/// Which way a block goes through the network.
#[derive(Clone, Copy, Debug, PartialEq, Eq)]
pub enum DESMode {
    Cipher,
    Decipher,
}

/// The result of `process` in `mode`.
pub open spec fn process_spec(input: u64, key: u64, mode: DESMode) -> u64 {
    match mode {
        DESMode::Cipher => encrypt_spec(input, key),
        DESMode::Decipher => decrypt_spec(input, key),
    }
}

proof fn lemma_rounds_concat(l: Seq<bool>, r: Seq<bool>, a: Seq<Seq<bool>>, b: Seq<Seq<bool>>)
    ensures
        rounds_spec(l, r, a + b) == rounds_spec(
            rounds_spec(l, r, a).0,
            rounds_spec(l, r, a).1,
            b,
        ),
    decreases a.len(),
{
    if a.len() > 0 {
        assert((a + b).drop_first() =~= a.drop_first() + b);
        lemma_rounds_concat(r, xor_spec(l, f_spec(r, a[0])), a.drop_first(), b);
    } else {
        assert(a + b =~= b);
    }
}

/// Running the rounds backwards over the reversed subkeys, starting from
/// the swapped output halves, gives the swapped input halves back.
proof fn lemma_rounds_inverse(l: Seq<bool>, r: Seq<bool>, ks: Seq<Seq<bool>>)
    ensures
        rounds_spec(rounds_spec(l, r, ks).1, rounds_spec(l, r, ks).0, reversed(ks)) == (r, l),
    decreases ks.len(),
{
    if ks.len() == 0 {
        assert(reversed(ks) =~= ks);
    } else {
        let k = ks[0];
        let rest = ks.drop_first();
        let l1 = r;
        let r1 = xor_spec(l, f_spec(r, k));
        let out = rounds_spec(l, r, ks);
        assert(out == rounds_spec(l1, r1, rest));
        lemma_rounds_inverse(l1, r1, rest);
        assert(reversed(ks) =~= reversed(rest) + seq![k]);
        lemma_rounds_concat(out.1, out.0, reversed(rest), seq![k]);
        assert(seq![k].drop_first() =~= Seq::<Seq<bool>>::empty());
        let last_r = xor_spec(r1, f_spec(l1, k));
        assert(rounds_spec(l1, last_r, Seq::<Seq<bool>>::empty()) == (l1, last_r));
        assert(rounds_spec(r1, l1, seq![k]) == (l1, last_r));
        lemma_xor_twice(l, f_spec(r, k));
    }
}

/// Both halves keep 32 bits through the rounds.
proof fn lemma_rounds_len(l: Seq<bool>, r: Seq<bool>, ks: Seq<Seq<bool>>)
    requires
        l.len() == 32,
        r.len() == 32,
    ensures
        rounds_spec(l, r, ks).0.len() == 32,
        rounds_spec(l, r, ks).1.len() == 32,
    decreases ks.len(),
{
    if ks.len() > 0 {
        lemma_f_len(r, ks[0]);
        lemma_rounds_len(r, xor_spec(l, f_spec(r, ks[0])), ks.drop_first());
    }
}

/// FP undoes IP and IP undoes FP on 64-bit sequences.
proof fn lemma_ip_fp(s: Seq<bool>)
    requires
        s.len() == 64,
    ensures
        permute_spec(permute_spec(s, IP@), FP@) == s,
        permute_spec(permute_spec(s, FP@), IP@) == s,
{
    lemma_ip_fp_tables();
    assert(permute_spec(permute_spec(s, IP@), FP@) =~= s);
    assert(permute_spec(permute_spec(s, FP@), IP@) =~= s);
}

/// The network over `reversed(ks)` undoes the network over `ks`.
proof fn lemma_block_inverse(block: Seq<bool>, ks: Seq<Seq<bool>>)
    requires
        block.len() == 64,
    ensures
        block_spec(block_spec(block, ks), reversed(ks)) == block,
{
    lemma_ip_fp_tables();
    let ip = permute_spec(block, IP@);
    let (l, r) = rounds_spec(ip.take(32), ip.skip(32), ks);
    lemma_rounds_len(ip.take(32), ip.skip(32), ks);
    let c = block_spec(block, ks);
    assert(c == permute_spec(r + l, FP@));
    lemma_ip_fp(r + l);
    let ip2 = permute_spec(c, IP@);
    assert(ip2 == r + l);
    assert(ip2.take(32) =~= r);
    assert(ip2.skip(32) =~= l);
    lemma_rounds_inverse(ip.take(32), ip.skip(32), ks);
    assert(ip.take(32) + ip.skip(32) =~= ip);
    lemma_ip_fp(block);
}

/// Decryption under a key undoes encryption under the same key, for every
/// 64-bit key and every 64-bit block.
pub proof fn lemma_round_trip(block: u64, key: u64)
    ensures
        decrypt_spec(encrypt_spec(block, key), key) == block,
{
    let ks = key_schedule(key);
    let c = block_spec(word_bits(block), ks);
    lemma_ip_fp_tables();
    assert(c.len() == 64);
    lemma_value_word_bits(c);
    lemma_block_inverse(word_bits(block), ks);
    lemma_word_bits_value(block);
}

/// Keys that differ only in parity bits encrypt and decrypt every block alike.
pub proof fn lemma_parity_bits_same_cipher(k1: u64, k2: u64, block: u64)
    requires
        (k1 ^ k2) & 0xFEFE_FEFE_FEFE_FEFEu64 == 0,
    ensures
        encrypt_spec(block, k1) == encrypt_spec(block, k2),
        decrypt_spec(block, k1) == decrypt_spec(block, k2),
{
    crate::key_schedule::lemma_parity_bits_ignored(k1, k2);
}

/// Encrypts (`Cipher`) or decrypts (`Decipher`) one block with a derived schedule.
pub fn process_with(input: u64, schedule: &RoundKeySchedule, mode: DESMode) -> (r: u64)
    requires
        schedule@.len() == 16,
        forall|i: int| 0 <= i < 16 ==> (#[trigger] schedule@[i]).len() == 48,
    ensures
        r == bits_value(
            block_spec(
                word_bits(input),
                match mode {
                    DESMode::Cipher => schedule@,
                    DESMode::Decipher => reversed(schedule@),
                },
            ),
        ),
{
    let ghost ks = match mode {
        DESMode::Cipher => schedule@,
        DESMode::Decipher => reversed(schedule@),
    };
    let block = word_to_bits(input);
    let ip = permute(&block, &IP);
    let mut l = slice(&ip, 0, 32);
    let mut r = slice(&ip, 32, 64);
    assert(l@ =~= ip@.take(32));
    assert(r@ =~= ip@.skip(32));
    assert(ks.skip(0) =~= ks);
    let mut i: usize = 0;
    while i < 16
        invariant
            i <= 16,
            schedule@.len() == 16,
            forall|j: int| 0 <= j < 16 ==> (#[trigger] schedule@[j]).len() == 48,
            ks.len() == 16,
            ks == match mode {
                DESMode::Cipher => schedule@,
                DESMode::Decipher => reversed(schedule@),
            },
            l@.len() == 32,
            r@.len() == 32,
            rounds_spec(ip@.take(32), ip@.skip(32), ks) == rounds_spec(l@, r@, ks.skip(i as int)),
        decreases 16 - i,
    {
        let idx = match mode {
            DESMode::Cipher => i,
            DESMode::Decipher => 15 - i,
        };
        let k = schedule.subkey(idx);
        assert(k@ == ks[i as int]);
        let f = round_function(&r, k);
        let new_r = xor(&l, &f);
        assert(ks.skip(i as int).drop_first() =~= ks.skip(i + 1));
        l = r;
        r = new_r;
        i = i + 1;
    }
    assert(ks.skip(16) =~= Seq::<Seq<bool>>::empty());
    let swapped = concat(&r, &l);
    let out = permute(&swapped, &FP);
    bits_to_word(&out)
}

/// Encrypts (`Cipher`) or decrypts (`Decipher`) one 64-bit block under a 64-bit key.
pub fn process(input: u64, key: u64, mode: DESMode) -> (r: u64)
    ensures
        r == process_spec(input, key, mode),
{
    let schedule = RoundKeySchedule::derive(key);
    proof {
        lemma_schedule_shape(crate::bits::word_bits(key));
    }
    process_with(input, &schedule, mode)
}

/// Why a block operation on bit sequences was refused.
#[derive(Clone, Copy, Debug, PartialEq, Eq)]
pub enum DesError {
    /// The key is not exactly 64 bits.
    InvalidKeyLength,
    /// The block is not exactly 64 bits.
    InvalidBlockLength,
}

/// The result of `crypt_bits` on bit sequences of any length.
pub open spec fn crypt_bits_spec(block: Seq<bool>, key: Seq<bool>, mode: DESMode) -> Result<
    Seq<bool>,
    DesError,
> {
    if key.len() != 64 {
        Err(DesError::InvalidKeyLength)
    } else if block.len() != 64 {
        Err(DesError::InvalidBlockLength)
    } else {
        Ok(word_bits(process_spec(bits_value(block) as u64, bits_value(key) as u64, mode)))
    }
}

/// Encrypts or decrypts a block given as 64 bits under a key given as 64
/// bits, most significant first; a key or block of another length is
/// refused before any work, the key first.
pub fn crypt_bits(block: &Vec<bool>, key: &Vec<bool>, mode: DESMode) -> (r: Result<
    Vec<bool>,
    DesError,
>)
    ensures
        r matches Ok(v) ==> crypt_bits_spec(block@, key@, mode) == Ok::<Seq<bool>, DesError>(v@),
        r matches Err(e) ==> crypt_bits_spec(block@, key@, mode) == Err::<Seq<bool>, DesError>(e),
{
    if key.len() != 64 {
        return Err(DesError::InvalidKeyLength);
    }
    if block.len() != 64 {
        return Err(DesError::InvalidBlockLength);
    }
    let k = bits_to_word(key);
    let b = bits_to_word(block);
    Ok(word_to_bits(process(b, k, mode)))
}

/// The ciphertext of one 64-bit block under a 64-bit key.
pub fn encrypt_block(plaintext: u64, key: u64) -> (r: u64)
    ensures
        r == encrypt_spec(plaintext, key),
{
    process(plaintext, key, DESMode::Cipher)
}

/// The plaintext of one 64-bit block under a 64-bit key.
pub fn decrypt_block(ciphertext: u64, key: u64) -> (r: u64)
    ensures
        r == decrypt_spec(ciphertext, key),
{
    process(ciphertext, key, DESMode::Decipher)
}

} // verus!
