//! Bit sequences: packing bytes and 64-bit words into bits (most significant
//! bit first), selection through a permutation table, rotation and exclusive or.
use vstd::arithmetic::power2::{
    lemma2_to64, lemma2_to64_rest, lemma_pow2_strictly_increases, lemma_pow2_unfold, pow2,
};
use vstd::prelude::*;

verus! {

/// Bit `k` (0 = most significant) of a byte.
pub open spec fn byte_bit(b: u8, k: int) -> bool {
    (b >> ((7 - k) as u8)) & 1u8 == 1u8
}

/// Bit `k` (0 = most significant) of a 64-bit word.
pub open spec fn word_bit(x: u64, k: int) -> bool {
    (x >> ((63 - k) as u64)) & 1u64 == 1u64
}

/// The bits of a byte sequence, each byte most significant bit first, in byte order.
pub open spec fn pack_spec(bytes: Seq<u8>) -> Seq<bool> {
    Seq::new(8 * bytes.len(), |i: int| byte_bit(bytes[i / 8], i % 8))
}

/// The 64 bits of a word, most significant first.
pub open spec fn word_bits(x: u64) -> Seq<bool> {
    Seq::new(64, |k: int| word_bit(x, k))
}

/// The number that a bit sequence writes in binary, most significant bit first.
pub open spec fn bits_value(s: Seq<bool>) -> nat
    decreases s.len(),
{
    if s.len() == 0 {
        0
    } else {
        2 * bits_value(s.drop_last()) + if s.last() { 1nat } else { 0nat }
    }
}

/// The bytes whose bits are `s`, eight bits to a byte.
pub open spec fn unpack_spec(s: Seq<bool>) -> Seq<u8> {
    Seq::new(s.len() / 8, |i: int| bits_value(s.subrange(8 * i, 8 * i + 8)) as u8)
}

/// Output bit `k` is source bit `table[k]` (1-based); the output is as long as the table.
pub open spec fn permute_spec(src: Seq<bool>, table: Seq<u8>) -> Seq<bool> {
    Seq::new(table.len(), |k: int| src[table[k] - 1])
}

/// Circular left rotation by `n` positions.
pub open spec fn rotate_spec(s: Seq<bool>, n: int) -> Seq<bool> {
    Seq::new(s.len(), |i: int| s[(i + n) % (s.len() as int)])
}

/// Bitwise exclusive or, as long as `a`.
pub open spec fn xor_spec(a: Seq<bool>, b: Seq<bool>) -> Seq<bool> {
    Seq::new(a.len(), |i: int| a[i] != b[i])
}

/// Every table entry is a valid 1-based position into `width` source bits.
pub open spec fn table_fits(table: Seq<u8>, width: nat) -> bool {
    forall|k: int| 0 <= k < table.len() ==> 1 <= #[trigger] table[k] <= width
}

pub proof fn lemma_bits_value_bound(s: Seq<bool>)
    ensures
        bits_value(s) < pow2(s.len()),
    decreases s.len(),
{
    if s.len() > 0 {
        lemma_bits_value_bound(s.drop_last());
        lemma_pow2_unfold(s.len());
    } else {
        lemma2_to64();
    }
}

/// Two bit sequences of one length with the same value are equal.
pub proof fn lemma_bits_value_injective(s: Seq<bool>, t: Seq<bool>)
    requires
        s.len() == t.len(),
        bits_value(s) == bits_value(t),
    ensures
        s == t,
    decreases s.len(),
{
    if s.len() > 0 {
        lemma_bits_value_injective(s.drop_last(), t.drop_last());
        assert(s =~= s.drop_last().push(s.last()));
        assert(t =~= t.drop_last().push(t.last()));
    } else {
        assert(s =~= t);
    }
}

proof fn lemma_shift_step(x: u64, s: u64)
    requires
        1 <= s < 64,
    ensures
        x >> ((s - 1) as u64) == (x >> s) * 2 + ((x >> ((s - 1) as u64)) & 1u64),
        (x >> ((s - 1) as u64)) & 1u64 <= 1,
{
    assert(x >> ((s - 1) as u64) == (x >> s) * 2 + ((x >> ((s - 1) as u64)) & 1u64)
        && (x >> ((s - 1) as u64)) & 1u64 <= 1) by (bit_vector)
        requires
            1 <= s < 64,
    ;
}

/// The first `k` bits of a word write the word shifted right by `64 - k`.
proof fn lemma_word_prefix_value(x: u64, k: int)
    requires
        1 <= k <= 64,
    ensures
        bits_value(word_bits(x).take(k)) == x >> ((64 - k) as u64),
    decreases k,
{
    let w = word_bits(x);
    if k == 1 {
        assert(w.take(1).drop_last() =~= Seq::<bool>::empty());
        assert(w.take(1).last() == word_bit(x, 0));
        assert(bits_value(w.take(1).drop_last()) == 0);
        assert((x >> 63u64) == (x >> 63u64) & 1u64 && (x >> 63u64) <= 1) by (bit_vector);
    } else {
        lemma_word_prefix_value(x, k - 1);
        assert(w.take(k).drop_last() =~= w.take(k - 1));
        assert(w.take(k).last() == word_bit(x, k - 1));
        let s = (65 - k) as u64;
        let t = (64 - k) as u64;
        assert(((s - 1) as u64) == t);
        assert(((63 - (k - 1)) as u64) == t);
        lemma_shift_step(x, s);
        assert(bits_value(w.take(k)) == 2 * bits_value(w.take(k - 1)) + if w.take(k).last() {
            1nat
        } else {
            0nat
        });
    }
}

/// A word is the value of its own bits.
pub proof fn lemma_word_bits_value(x: u64)
    ensures
        bits_value(word_bits(x)) == x,
{
    lemma_word_prefix_value(x, 64);
    assert(word_bits(x).take(64) =~= word_bits(x));
    assert(x >> 0u64 == x) by (bit_vector);
}

/// A 64-bit sequence is the sequence of bits of its value.
pub proof fn lemma_value_word_bits(s: Seq<bool>)
    requires
        s.len() == 64,
    ensures
        bits_value(s) < 0x1_0000_0000_0000_0000,
        word_bits(bits_value(s) as u64) == s,
{
    lemma_bits_value_bound(s);
    lemma2_to64();
    let x = bits_value(s) as u64;
    lemma_word_bits_value(x);
    lemma_bits_value_injective(word_bits(x), s);
}

/// The 8 bits of a byte, most significant first.
pub open spec fn byte_bits(v: u8) -> Seq<bool> {
    Seq::new(8, |k: int| byte_bit(v, k))
}

proof fn lemma_byte_prefix_value(v: u8, k: int)
    requires
        1 <= k <= 8,
    ensures
        bits_value(byte_bits(v).take(k)) == v >> ((8 - k) as u8),
    decreases k,
{
    let w = byte_bits(v);
    if k == 1 {
        assert(w.take(1).drop_last() =~= Seq::<bool>::empty());
        assert(w.take(1).last() == byte_bit(v, 0));
        assert(bits_value(w.take(1).drop_last()) == 0);
        assert((v >> 7u8) == (v >> 7u8) & 1u8 && (v >> 7u8) <= 1) by (bit_vector);
    } else {
        lemma_byte_prefix_value(v, k - 1);
        assert(w.take(k).drop_last() =~= w.take(k - 1));
        assert(w.take(k).last() == byte_bit(v, k - 1));
        let s = (9 - k) as u8;
        let t = (8 - k) as u8;
        assert(((7 - (k - 1)) as u8) == t);
        assert(v >> t == (v >> s) * 2 + ((v >> t) & 1u8) && (v >> t) & 1u8 <= 1) by (bit_vector)
            requires
                1 <= s < 8,
                t == s - 1,
        ;
        assert(bits_value(w.take(k)) == 2 * bits_value(w.take(k - 1)) + if w.take(k).last() {
            1nat
        } else {
            0nat
        });
    }
}

/// A byte is the value of its own bits.
pub proof fn lemma_byte_bits_value(v: u8)
    ensures
        bits_value(byte_bits(v)) == v,
{
    lemma_byte_prefix_value(v, 8);
    assert(byte_bits(v).take(8) =~= byte_bits(v));
    assert(v >> 0u8 == v) by (bit_vector);
}

/// Unpacking the bits of a byte sequence gives the bytes back.
pub proof fn lemma_unpack_pack(b: Seq<u8>)
    ensures
        unpack_spec(pack_spec(b)) == b,
{
    let s = pack_spec(b);
    assert forall|i: int| 0 <= i < b.len() implies #[trigger] unpack_spec(s)[i] == b[i] by {
        assert(s.subrange(8 * i, 8 * i + 8) =~= byte_bits(b[i])) by {
            assert forall|k: int| 0 <= k < 8 implies s.subrange(8 * i, 8 * i + 8)[k] == byte_bits(
                b[i],
            )[k] by {
                assert((8 * i + k) / 8 == i && (8 * i + k) % 8 == k);
            }
        }
        lemma_byte_bits_value(b[i]);
    }
    assert(unpack_spec(s) =~= b);
}

/// Packing the bytes of a bit sequence whose length is a multiple of 8
/// gives the bits back.
pub proof fn lemma_pack_unpack(s: Seq<bool>)
    requires
        s.len() % 8 == 0,
    ensures
        pack_spec(unpack_spec(s)) == s,
{
    let b = unpack_spec(s);
    assert forall|j: int| 0 <= j < s.len() implies #[trigger] pack_spec(b)[j] == s[j] by {
        let i = j / 8;
        let chunk = s.subrange(8 * i, 8 * i + 8);
        lemma_bits_value_bound(chunk);
        lemma2_to64();
        let v = bits_value(chunk) as u8;
        assert(v == bits_value(chunk));
        lemma_byte_bits_value(v);
        lemma_bits_value_injective(byte_bits(v), chunk);
        assert(pack_spec(b)[j] == byte_bit(v, j % 8));
        assert(chunk[j % 8] == s[j]);
    }
    assert(pack_spec(b) =~= s);
}

/// The bits of `bytes`, each byte most significant bit first.
pub fn pack(bytes: &[u8]) -> (r: Vec<bool>)
    requires
        bytes@.len() * 8 <= usize::MAX,
    ensures
        r@ == pack_spec(bytes@),
{
    let mut r: Vec<bool> = Vec::new();
    let mut i: usize = 0;
    while i < bytes.len()
        invariant
            i <= bytes@.len(),
            bytes@.len() * 8 <= usize::MAX,
            r@ =~= pack_spec(bytes@).take(8 * i),
        decreases bytes@.len() - i,
    {
        let b = bytes[i];
        let mut k: u8 = 0;
        while k < 8
            invariant
                i < bytes@.len(),
                k <= 8,
                b == bytes@[i as int],
                r@ =~= pack_spec(bytes@).take(8 * i + k),
            decreases 8 - k,
        {
            r.push((b >> (7 - k)) & 1 == 1);
            k = k + 1;
            assert((8 * i + k - 1) / 8 == i as int && (8 * i + k - 1) % 8 == k - 1);
        }
        i = i + 1;
    }
    assert(pack_spec(bytes@).take(8 * i) =~= pack_spec(bytes@));
    r
}

/// The bytes whose bits `bits` are, or `None` where the count of bits is
/// not a multiple of 8.
pub fn unpack(bits: &Vec<bool>) -> (r: Option<Vec<u8>>)
    ensures
        bits@.len() % 8 == 0 <==> r is Some,
        r matches Some(v) ==> v@ == unpack_spec(bits@),
{
    if bits.len() % 8 != 0 {
        return None;
    }
    let total = bits.len();
    let n = total / 8;
    let mut out: Vec<u8> = Vec::new();
    let mut i: usize = 0;
    while i < n
        invariant
            n == bits@.len() / 8,
            total == bits@.len(),
            i <= n,
            out@ =~= unpack_spec(bits@).take(i as int),
        decreases n - i,
    {
        assert(8 * n <= bits@.len());
        let ghost chunk = bits@.subrange(8 * i, 8 * i + 8);
        let mut acc: u8 = 0;
        let mut k: usize = 0;
        while k < 8
            invariant
                i < n,
                n == bits@.len() / 8,
                k <= 8,
                8 * n <= bits@.len(),
                total == bits@.len(),
                chunk == bits@.subrange(8 * i, 8 * i + 8),
                acc == bits_value(chunk.take(k as int)),
            decreases 8 - k,
        {
            proof {
                lemma_bits_value_bound(chunk.take(k as int));
                lemma2_to64();
                assert(chunk.take(k + 1).drop_last() =~= chunk.take(k as int));
                if k < 7 {
                    lemma_pow2_strictly_increases(k as nat, 7);
                }
            }
            assert(8 * i + k < bits@.len());
            let bit: u8 = if bits[8 * i + k] { 1 } else { 0 };
            acc = acc * 2 + bit;
            k = k + 1;
        }
        assert(chunk.take(8) =~= chunk);
        out.push(acc);
        i = i + 1;
    }
    assert(unpack_spec(bits@).take(n as int) =~= unpack_spec(bits@));
    Some(out)
}

/// The 64 bits of `x`, most significant first.
pub fn word_to_bits(x: u64) -> (r: Vec<bool>)
    ensures
        r@ == word_bits(x),
{
    let mut r: Vec<bool> = Vec::new();
    let mut k: u64 = 0;
    while k < 64
        invariant
            k <= 64,
            r@ =~= word_bits(x).take(k as int),
        decreases 64 - k,
    {
        r.push((x >> (63 - k)) & 1 == 1);
        k = k + 1;
    }
    assert(word_bits(x).take(64) =~= word_bits(x));
    r
}

/// The word whose 64 bits, most significant first, are `s`.
pub fn bits_to_word(s: &Vec<bool>) -> (r: u64)
    requires
        s@.len() == 64,
    ensures
        r == bits_value(s@),
        word_bits(r) == s@,
{
    let mut acc: u64 = 0;
    let mut k: usize = 0;
    while k < 64
        invariant
            k <= 64,
            s@.len() == 64,
            acc == bits_value(s@.take(k as int)),
        decreases 64 - k,
    {
        proof {
            lemma_bits_value_bound(s@.take(k as int));
            lemma2_to64_rest();
            if k < 63 {
                lemma_pow2_strictly_increases(k as nat, 63);
            }
            assert(s@.take(k + 1).drop_last() =~= s@.take(k as int));
        }
        let bit: u64 = if s[k] { 1 } else { 0 };
        acc = acc * 2 + bit;
        k = k + 1;
    }
    assert(s@.take(64) =~= s@);
    proof {
        lemma_value_word_bits(s@);
    }
    acc
}

/// Output bit `k` is `src[table[k] - 1]`; entries may repeat, and the output
/// is as long as the table whatever the length of the source.
pub fn permute(src: &Vec<bool>, table: &[u8]) -> (r: Vec<bool>)
    requires
        table_fits(table@, src@.len()),
    ensures
        r@ == permute_spec(src@, table@),
{
    let mut r: Vec<bool> = Vec::new();
    let mut k: usize = 0;
    while k < table.len()
        invariant
            k <= table@.len(),
            table_fits(table@, src@.len()),
            r@ =~= permute_spec(src@, table@).take(k as int),
        decreases table@.len() - k,
    {
        let p = table[k];
        assert(1 <= table@[k as int] <= src@.len());
        r.push(src[(p - 1) as usize]);
        k = k + 1;
    }
    assert(permute_spec(src@, table@).take(k as int) =~= permute_spec(src@, table@));
    r
}

/// Circular left rotation of `bits` by `n` positions.
pub fn rotate_left(bits: &Vec<bool>, n: usize) -> (r: Vec<bool>)
    requires
        bits@.len() > 0,
    ensures
        r@ == rotate_spec(bits@, n as int),
{
    let len = bits.len();
    let shift = n % len;
    let mut r: Vec<bool> = Vec::new();
    let mut i: usize = 0;
    while i < len
        invariant
            len == bits@.len(),
            len > 0,
            shift == n % len,
            i <= len,
            r@ =~= rotate_spec(bits@, n as int).take(i as int),
        decreases len - i,
    {
        let src = if i < len - shift { i + shift } else { i - (len - shift) };
        assert(src as int == (i + n) % (len as int)) by {
            vstd::arithmetic::div_mod::lemma_add_mod_noop(i as int, n as int, len as int);
            vstd::arithmetic::div_mod::lemma_small_mod(i as nat, len as nat);
            if i < len - shift {
                vstd::arithmetic::div_mod::lemma_small_mod((i + shift) as nat, len as nat);
            } else {
                vstd::arithmetic::div_mod::lemma_sub_mod_noop_right((i + shift) as int, len as int, len as int);
                vstd::arithmetic::div_mod::lemma_small_mod((i + shift - len) as nat, len as nat);
                vstd::arithmetic::div_mod::lemma_mod_self_0(len as int);
            }
        }
        r.push(bits[src]);
        i = i + 1;
    }
    assert(rotate_spec(bits@, n as int).take(len as int) =~= rotate_spec(bits@, n as int));
    r
}

/// Bitwise exclusive or of two sequences of one length.
pub fn xor(a: &Vec<bool>, b: &Vec<bool>) -> (r: Vec<bool>)
    requires
        a@.len() == b@.len(),
    ensures
        r@ == xor_spec(a@, b@),
{
    let mut r: Vec<bool> = Vec::new();
    let mut i: usize = 0;
    while i < a.len()
        invariant
            a@.len() == b@.len(),
            i <= a@.len(),
            r@ =~= xor_spec(a@, b@).take(i as int),
        decreases a@.len() - i,
    {
        r.push(a[i] != b[i]);
        i = i + 1;
    }
    assert(xor_spec(a@, b@).take(i as int) =~= xor_spec(a@, b@));
    r
}

/// The bits of `s` from position `from` up to, not including, `to`.
pub fn slice(s: &Vec<bool>, from: usize, to: usize) -> (r: Vec<bool>)
    requires
        from <= to <= s@.len(),
    ensures
        r@ == s@.subrange(from as int, to as int),
{
    let mut r: Vec<bool> = Vec::new();
    let mut i: usize = from;
    while i < to
        invariant
            from <= i <= to,
            to <= s@.len(),
            r@ =~= s@.subrange(from as int, i as int),
        decreases to - i,
    {
        r.push(s[i]);
        i = i + 1;
    }
    r
}

/// `a` followed by `b`.
pub fn concat(a: &Vec<bool>, b: &Vec<bool>) -> (r: Vec<bool>)
    requires
        a@.len() + b@.len() <= usize::MAX,
    ensures
        r@ == a@ + b@,
{
    let mut r: Vec<bool> = Vec::new();
    let mut i: usize = 0;
    while i < a.len()
        invariant
            i <= a@.len(),
            r@ =~= a@.take(i as int),
        decreases a@.len() - i,
    {
        r.push(a[i]);
        i = i + 1;
    }
    let mut j: usize = 0;
    while j < b.len()
        invariant
            i == a@.len(),
            j <= b@.len(),
            r@ =~= a@ + b@.take(j as int),
        decreases b@.len() - j,
    {
        r.push(b[j]);
        j = j + 1;
    }
    assert(b@.take(j as int) =~= b@);
    r
}

/// Exclusive or with the same sequence twice gives the first one back.
pub proof fn lemma_xor_twice(a: Seq<bool>, b: Seq<bool>)
    ensures
        xor_spec(xor_spec(a, b), b) == a,
{
    assert(xor_spec(xor_spec(a, b), b) =~= a);
}

} // verus!
