//! The RC4 stream cipher: a key-scheduled permutation of the 256 byte values
//! drives a keystream that is combined with the data by exclusive or.
use crate::text_cipher::Cipher;
use vstd::prelude::*;
use vstd::string::StringSliceAdditionalSpecFns;
use vstd::utf8::encode_utf8;

verus! {

pub const ARRAY_SIZE: usize = 256;

/// `s` with the entries at `a` and `b` exchanged.
pub open spec fn swap_spec(s: Seq<u8>, a: int, b: int) -> Seq<u8> {
    s.update(a, s[b]).update(b, s[a])
}

/// The identity permutation `0, 1, ..., 255`.
pub open spec fn identity_state() -> Seq<u8> {
    Seq::new(256, |k: int| k as u8)
}

/// The permutation and the index `j` after the first `n` steps of the key
/// schedule: step `p` sets `j = (j + S[p] + key[p mod len]) mod 256` and
/// swaps `S[p]` and `S[j]`.
pub open spec fn ksa_upto(key: Seq<u8>, n: nat) -> (Seq<u8>, int)
    decreases n,
{
    if n == 0 {
        (identity_state(), 0)
    } else {
        let (s, j) = ksa_upto(key, (n - 1) as nat);
        let p = n - 1;
        let j2 = (j + s[p] + key[p % (key.len() as int)]) % 256;
        (swap_spec(s, p, j2), j2)
    }
}

/// The permutation that the key schedule makes of `key`.
pub open spec fn ksa(key: Seq<u8>) -> Seq<u8> {
    ksa_upto(key, 256).0
}

/// The generator's state: permutation and the two indices.
pub struct Rc4State {
    pub s: Seq<u8>,
    pub i: int,
    pub j: int,
}

/// One step of the generator: the next state and the keystream byte.
pub open spec fn prga_step(st: Rc4State) -> (Rc4State, u8) {
    let i = (st.i + 1) % 256;
    let j = (st.j + st.s[i]) % 256;
    let s = swap_spec(st.s, i, j);
    let t = (s[i] + s[j]) % 256;
    (Rc4State { s, i, j }, s[t])
}

/// The state after `n` keystream bytes, and those bytes.
pub open spec fn keystream(st: Rc4State, n: nat) -> (Rc4State, Seq<u8>)
    decreases n,
{
    if n == 0 {
        (st, Seq::empty())
    } else {
        let (mid, ks) = keystream(st, (n - 1) as nat);
        let (next, k) = prga_step(mid);
        (next, ks.push(k))
    }
}

/// `data` combined byte by byte with the keystream from `st`.
pub open spec fn rc4_apply(st: Rc4State, data: Seq<u8>) -> Seq<u8> {
    Seq::new(data.len(), |k: int| data[k] ^ keystream(st, data.len()).1[k])
}

/// A well-formed generator state.
pub open spec fn state_wf(st: Rc4State) -> bool {
    &&& st.s.len() == 256
    &&& 0 <= st.i < 256
    &&& 0 <= st.j < 256
}

pub proof fn lemma_keystream_wf(st: Rc4State, n: nat)
    requires
        state_wf(st),
    ensures
        state_wf(keystream(st, n).0),
        keystream(st, n).1.len() == n,
    decreases n,
{
    if n > 0 {
        lemma_keystream_wf(st, (n - 1) as nat);
    }
}

/// The first `n` keystream bytes do not depend on how many more follow.
pub proof fn lemma_keystream_wf_len(st: Rc4State, n: nat)
    ensures
        keystream(st, n).1.len() == n,
        keystream(st, n + 1).1.take(n as int) == keystream(st, n).1,
    decreases n,
{
    if n > 0 {
        lemma_keystream_wf_len(st, (n - 1) as nat);
    }
    assert(keystream(st, n + 1).1.take(n as int) =~= keystream(st, n).1);
}

pub proof fn lemma_ksa_len(key: Seq<u8>, n: nat)
    requires
        n <= 256,
    ensures
        ksa_upto(key, n).0.len() == 256,
        0 <= ksa_upto(key, n).1 < 256,
    decreases n,
{
    if n > 0 {
        lemma_ksa_len(key, (n - 1) as nat);
    }
}

/// The key schedule of `key` (which must not be empty) as code.
pub(crate) fn key_schedule(key: &[u8]) -> (r: Vec<u8>)
    requires
        key@.len() > 0,
    ensures
        r@ == ksa(key@),
{
    let mut s: Vec<u8> = Vec::new();
    let mut k: usize = 0;
    while k < ARRAY_SIZE
        invariant
            k <= 256,
            s@ =~= identity_state().take(k as int),
        decreases 256 - k,
    {
        s.push(k as u8);
        k = k + 1;
    }
    assert(s@ =~= ksa_upto(key@, 0).0);
    let mut swap_pos: usize = 0;
    let mut pos: usize = 0;
    while pos < ARRAY_SIZE
        invariant
            pos <= 256,
            key@.len() > 0,
            s@ == ksa_upto(key@, pos as nat).0,
            swap_pos == ksa_upto(key@, pos as nat).1,
        decreases 256 - pos,
    {
        proof {
            lemma_ksa_len(key@, pos as nat);
        }
        let letter = key[pos % key.len()] as usize;
        swap_pos = (swap_pos + s[pos] as usize + letter) % ARRAY_SIZE;
        Rc4::swap(&mut s, pos, swap_pos);
        pos = pos + 1;
    }
    s
}

pub struct Rc4 {
    passkey: String,
    key: Vec<u8>,
    s: Vec<u8>,
    i: usize,
    j: usize,
    decripted: Vec<u8>,
}

impl Rc4 {
    #[verifier::type_invariant]
    spec fn inv(&self) -> bool {
        &&& self.s@.len() == 256
        &&& self.i < 256
        &&& self.j < 256
    }

    /// The generator's current state.
    pub closed spec fn state(&self) -> Rc4State {
        Rc4State { s: self.s@, i: self.i as int, j: self.j as int }
    }

    /// Exchanges the entries at `pos_a` and `pos_b`.
    pub fn swap(vec: &mut Vec<u8>, pos_a: usize, pos_b: usize)
        requires
            pos_a < old(vec)@.len(),
            pos_b < old(vec)@.len(),
        ensures
            final(vec)@ == swap_spec(old(vec)@, pos_a as int, pos_b as int),
    {
        let a = vec[pos_a];
        let b = vec[pos_b];
        vec.set(pos_a, b);
        vec.set(pos_b, a);
    }

    /// The key bytes: the UTF-8 encoding of the passkey.
    pub closed spec fn key(&self) -> Seq<u8> {
        self.key@
    }

    /// The output of the last `process` call.
    pub closed spec fn last_output(&self) -> Seq<u8> {
        self.decripted@
    }

    /// Runs the key schedule on the bytes of `passkey`, which must not be empty.
    pub fn new(passkey: String) -> (r: Rc4)
        requires
            passkey@.len() > 0,
        ensures
            r.key() == encode_utf8(passkey@),
            r.state() == (Rc4State { s: ksa(encode_utf8(passkey@)), i: 0, j: 0 }),
            state_wf(r.state()),
    {
        let key_bytes = passkey.as_str().as_bytes();
        assert(key_bytes@.len() > 0);
        let s = key_schedule(key_bytes);
        let mut key: Vec<u8> = Vec::new();
        let mut k: usize = 0;
        while k < key_bytes.len()
            invariant
                k <= key_bytes@.len(),
                key@ =~= key_bytes@.take(k as int),
            decreases key_bytes@.len() - k,
        {
            key.push(key_bytes[k]);
            k = k + 1;
        }
        assert(key@ =~= key_bytes@);
        proof {
            lemma_ksa_len(key_bytes@, 256);
        }
        Rc4 { passkey, key, s, i: 0, j: 0, decripted: Vec::new() }
    }

    /// Combines the bytes of `plaintext` with the next keystream bytes; the
    /// generator moves on by as many bytes.
    pub fn process(&mut self, plaintext: String) -> (r: Vec<u8>)
        ensures
            r@ == rc4_apply(old(self).state(), encode_utf8(plaintext@)),
            final(self).state() == keystream(old(self).state(), encode_utf8(plaintext@).len()).0,
            final(self).key() == old(self).key(),
            final(self).last_output() == r@,
    {
        let input = plaintext.as_str().as_bytes();
        let out = self.process_bytes(input);
        self.decripted = copy_bytes(&out);
        out
    }

    /// Combines `input` with the next keystream bytes.
    pub fn process_bytes(&mut self, input: &[u8]) -> (r: Vec<u8>)
        ensures
            r@ == rc4_apply(old(self).state(), input@),
            final(self).state() == keystream(old(self).state(), input@.len()).0,
            final(self).key() == old(self).key(),
            final(self).last_output() == old(self).last_output(),
            state_wf(final(self).state()),
    {
        proof {
            use_type_invariant(&*self);
        }
        let ghost st0 = self.state();
        let ghost n = input@.len();
        let mut output: Vec<u8> = Vec::new();
        let mut k: usize = 0;
        let mut s = copy_bytes(&self.s);
        let mut i = self.i;
        let mut j = self.j;
        proof {
            lemma_keystream_wf(st0, n);
        }
        while k < input.len()
            invariant
                k <= n,
                n == input@.len(),
                state_wf(st0),
                s@.len() == 256,
                i < 256,
                j < 256,
                (Rc4State { s: s@, i: i as int, j: j as int }) == keystream(st0, k as nat).0,
                output@.len() == k,
                forall|t: int| 0 <= t < k ==> output@[t] == input@[t] ^ #[trigger] keystream(st0, k as nat).1[t],
            decreases n - k,
        {
            proof {
                lemma_keystream_wf(st0, k as nat);
                lemma_keystream_wf(st0, (k + 1) as nat);
            }
            i = (i + 1) % ARRAY_SIZE;
            j = (j + s[i] as usize) % ARRAY_SIZE;
            Rc4::swap(&mut s, i, j);
            let t = (s[i] as usize + s[j] as usize) % ARRAY_SIZE;
            let byte = input[k];
            output.push(byte ^ s[t]);
            proof {
                assert forall|u: int| 0 <= u < k + 1 implies output@[u] == input@[u]
                    ^ #[trigger] keystream(st0, (k + 1) as nat).1[u] by {
                    if u < k {
                        assert(keystream(st0, (k + 1) as nat).1[u] == keystream(st0, k as nat).1[u]);
                    }
                }
            }
            k = k + 1;
        }
        proof {
            assert forall|t: int| 0 <= t < n implies output@[t] == rc4_apply(st0, input@)[t] by {}
            assert(output@ =~= rc4_apply(st0, input@));
        }
        self.s = s;
        self.i = i;
        self.j = j;
        output
    }
}

/// The decimal digits of `n`, most significant first, without leading zeros.
pub open spec fn decimal(n: nat) -> Seq<char>
    decreases n,
{
    if n < 10 {
        seq![(('0' as int) + n) as char]
    } else {
        decimal(n / 10).push((('0' as int) + n % 10) as char)
    }
}

/// The decimal forms of the bytes of `v`, separated by single spaces.
pub open spec fn decimal_list(v: Seq<u8>) -> Seq<char>
    decreases v.len(),
{
    if v.len() == 0 {
        Seq::empty()
    } else if v.len() == 1 {
        decimal(v[0] as nat)
    } else {
        decimal_list(v.drop_last()).push(' ') + decimal(v.last() as nat)
    }
}

/// `decimal` as code.
fn decimal_of(n: u8) -> (r: Vec<char>)
    ensures
        r@ == decimal(n as nat),
{
    let mut r: Vec<char> = Vec::new();
    if n >= 100 {
        r.push(((48 + n / 100) as u8) as char);
    }
    if n >= 10 {
        r.push(((48 + (n / 10) % 10) as u8) as char);
    }
    r.push(((48 + n % 10) as u8) as char);
    proof {
        let d0 = (('0' as int) + n % 10) as char;
        let d1 = (('0' as int) + (n / 10) % 10) as char;
        let d2 = (('0' as int) + n / 100) as char;
        if n < 10 {
            assert(decimal(n as nat) == seq![d0]);
        } else if n < 100 {
            assert(decimal((n / 10) as nat) == seq![d1]);
            assert(decimal(n as nat) == seq![d1].push(d0));
        } else {
            assert(decimal((n / 100) as nat) == seq![d2]);
            assert((n / 10) as nat / 10 == n / 100);
            assert(decimal((n / 10) as nat) == seq![d2].push(d1));
            assert(decimal(n as nat) == seq![d2].push(d1).push(d0));
        }
    }
    assert(r@ =~= decimal(n as nat));
    r
}

/// The bytes of `v` in decimal, separated by single spaces.
pub fn decimal_text(v: &Vec<u8>) -> (r: String)
    ensures
        r@ == decimal_list(v@),
{
    let mut out: Vec<char> = Vec::new();
    let mut k: usize = 0;
    while k < v.len()
        invariant
            k <= v@.len(),
            out@ == decimal_list(v@.take(k as int)),
        decreases v@.len() - k,
    {
        assert(v@.take(k + 1).drop_last() =~= v@.take(k as int));
        if k > 0 {
            out.push(' ');
        } else {
            assert(v@.take(1) =~= seq![v@[0]]);
        }
        let d = decimal_of(v[k]);
        let mut t: usize = 0;
        let ghost base = out@;
        while t < d.len()
            invariant
                t <= d@.len(),
                out@ =~= base + d@.take(t as int),
            decreases d@.len() - t,
        {
            out.push(d[t]);
            t = t + 1;
        }
        assert(d@.take(t as int) =~= d@);
        k = k + 1;
    }
    assert(v@.take(k as int) =~= v@);
    crate::text::string_of(&out)
}

impl Cipher for Rc4 {
    /// The encrypted bytes, in decimal, separated by spaces.
    fn to_ciphertext(&mut self, plaintext: &String) -> (r: String)
        ensures
            r@ == decimal_list(rc4_apply(old(self).state(), encode_utf8(plaintext@))),
            final(self).state() == keystream(old(self).state(), encode_utf8(plaintext@).len()).0,
            final(self).key() == old(self).key(),
            final(self).last_output() == rc4_apply(old(self).state(), encode_utf8(plaintext@)),
    {
        let bytes = self.process_bytes(plaintext.as_str().as_bytes());
        self.decripted = copy_bytes(&bytes);
        decimal_text(&bytes)
    }

    /// The decrypted bytes, in decimal, separated by spaces.
    fn to_plaintext(&mut self, ciphertext: &String) -> (r: String)
        ensures
            r@ == decimal_list(rc4_apply(old(self).state(), encode_utf8(ciphertext@))),
            final(self).state() == keystream(old(self).state(), encode_utf8(ciphertext@).len()).0,
            final(self).key() == old(self).key(),
            final(self).last_output() == rc4_apply(old(self).state(), encode_utf8(ciphertext@)),
    {
        let bytes = self.process_bytes(ciphertext.as_str().as_bytes());
        self.decripted = copy_bytes(&bytes);
        decimal_text(&bytes)
    }
}

/// A copy of `v`.
pub(crate) fn copy_bytes(v: &Vec<u8>) -> (r: Vec<u8>)
    ensures
        r@ == v@,
{
    let mut r: Vec<u8> = Vec::new();
    let mut k: usize = 0;
    while k < v.len()
        invariant
            k <= v@.len(),
            r@ =~= v@.take(k as int),
        decreases v@.len() - k,
    {
        r.push(v[k]);
        k = k + 1;
    }
    assert(r@ =~= v@);
    r
}

} // verus!
