//! A second RC4 generator that keeps its permutation in a fixed array and
//! hands out one byte at a time; it follows the same schedule and keystream.
use crate::rc4::{keystream, ksa, lemma_ksa_len, prga_step, rc4_apply, state_wf, swap_spec, Rc4State};
use crate::text_cipher::Cipher;
use vstd::prelude::*;
use vstd::utf8::encode_utf8;

verus! {

/// The bytes `b` with U+FFFD in place of each byte that is not valid UTF-8.
pub uninterp spec fn lossy_text(b: Seq<u8>) -> Seq<char>;

/// Relies on `String::from_utf8_lossy`: the text of the bytes, invalid
/// sequences replaced; the result depends on the bytes alone.
#[verifier::external_body]
fn text_of_bytes(b: &Vec<u8>) -> (r: String)
    ensures
        r@ == lossy_text(b@),
{
    String::from_utf8_lossy(b).into_owned()
}

pub struct Rc4Bortoli {
    original_key: String,
    s: [u8; 256],
    i: usize,
    j: usize,
}

impl Rc4Bortoli {
    #[verifier::type_invariant]
    spec fn inv(&self) -> bool {
        &&& self.i < 256
        &&& self.j < 256
        &&& self.original_key@.len() > 0
    }

    /// The generator's current state.
    pub closed spec fn state(&self) -> Rc4State {
        Rc4State { s: self.s@, i: self.i as int, j: self.j as int }
    }

    /// The key bytes: the UTF-8 encoding of the key.
    pub closed spec fn key(&self) -> Seq<u8> {
        encode_utf8(self.original_key@)
    }

    /// A generator keyed by `key`, which must not be empty.
    pub fn new(key: String) -> (r: Self)
        requires
            key@.len() > 0,
        ensures
            r.key() == encode_utf8(key@),
            r.state() == (Rc4State { s: ksa(encode_utf8(key@)), i: 0, j: 0 }),
    {
        let mut rc4 = Rc4Bortoli { original_key: key, s: [0u8; 256], i: 0, j: 0 };
        rc4.reset();
        rc4
    }

    /// Runs the key schedule again; the indices stay.
    pub fn reset(&mut self)
        ensures
            final(self).state() == (Rc4State {
                s: ksa(old(self).key()),
                i: old(self).state().i,
                j: old(self).state().j,
            }),
            final(self).key() == old(self).key(),
    {
        proof {
            use_type_invariant(&*self);
        }
        let chave = self.original_key.as_str().as_bytes();
        assert(chave@.len() > 0);
        let v = crate::rc4::key_schedule(chave);
        proof {
            lemma_ksa_len(chave@, 256);
        }
        let mut arr = [0u8; 256];
        let mut k: usize = 0;
        while k < 256
            invariant
                k <= 256,
                v@.len() == 256,
                forall|t: int| 0 <= t < k ==> arr@[t] == v@[t],
            decreases 256 - k,
        {
            arr[k] = v[k];
            k = k + 1;
        }
        assert(arr@ =~= v@);
        self.s = arr;
    }

    /// Combines one byte with the next keystream byte.
    pub fn process_single(&mut self, input: u8) -> (r: u8)
        ensures
            r == input ^ prga_step(old(self).state()).1,
            final(self).state() == prga_step(old(self).state()).0,
            final(self).key() == old(self).key(),
    {
        proof {
            use_type_invariant(&*self);
        }
        let i = (self.i + 1) % 256;
        let j = (self.j + (self.s[i] as usize)) % 256;
        let mut s = self.s;
        let tmp = s[i];
        s[i] = s[j];
        s[j] = tmp;
        assert(s@ =~= swap_spec(self.s@, i as int, j as int));
        let t = ((s[i] as usize) + (s[j] as usize)) % 256;
        let byte_keystream = s[t];
        self.s = s;
        self.i = i;
        self.j = j;
        input ^ byte_keystream
    }

    /// Each byte of `data` combined with the next keystream byte.
    pub fn process_bytes(&mut self, data: &[u8]) -> (r: Vec<u8>)
        ensures
            r@ == crate::rc4::rc4_apply(old(self).state(), data@),
            final(self).state() == keystream(old(self).state(), data@.len()).0,
            final(self).key() == old(self).key(),
    {
        let ghost st0 = self.state();
        let mut out: Vec<u8> = Vec::new();
        let mut k: usize = 0;
        while k < data.len()
            invariant
                k <= data@.len(),
                self.state() == keystream(st0, k as nat).0,
                self.key() == old(self).key(),
                out@.len() == k,
                forall|t: int| 0 <= t < k ==> out@[t] == data@[t] ^ #[trigger] keystream(st0, k as nat).1[t],
            decreases data@.len() - k,
        {
            let b = self.process_single(data[k]);
            out.push(b);
            proof {
                crate::rc4::lemma_keystream_wf_len(st0, k as nat);
                assert forall|u: int| 0 <= u < k + 1 implies out@[u] == data@[u]
                    ^ #[trigger] keystream(st0, (k + 1) as nat).1[u] by {
                    if u < k {
                        assert(keystream(st0, (k + 1) as nat).1[u] == keystream(st0, k as nat).1[u]);
                    }
                }
            }
            k = k + 1;
        }
        proof {
            assert(out@ =~= crate::rc4::rc4_apply(st0, data@));
        }
        out
    }
}

impl Cipher for Rc4Bortoli {
    /// The encrypted bytes read as UTF-8, invalid sequences replaced.
    fn to_ciphertext(&mut self, plaintext: &String) -> (r: String)
        ensures
            r@ == lossy_text(rc4_apply(old(self).state(), encode_utf8(plaintext@))),
            final(self).state() == keystream(old(self).state(), encode_utf8(plaintext@).len()).0,
            final(self).key() == old(self).key(),
    {
        let b = self.process_bytes(plaintext.as_str().as_bytes());
        text_of_bytes(&b)
    }

    /// The decrypted bytes read as UTF-8, invalid sequences replaced.
    fn to_plaintext(&mut self, ciphertext: &String) -> (r: String)
        ensures
            r@ == lossy_text(rc4_apply(old(self).state(), encode_utf8(ciphertext@))),
            final(self).state() == keystream(old(self).state(), encode_utf8(ciphertext@).len()).0,
            final(self).key() == old(self).key(),
    {
        let b = self.process_bytes(ciphertext.as_str().as_bytes());
        text_of_bytes(&b)
    }
}

} // verus!
