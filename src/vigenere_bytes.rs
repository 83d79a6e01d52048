//! The running-key shift cipher over bytes, each byte read as the character
//! of its code.
use crate::cipher::Cipher;
use crate::text::{chars_of, is_upper, string_of};
use crate::vigenere::{
    key_letters, normalize_key, vigenere_byte_vec, vigenere_bytes_spec, vigenere_chars,
    vigenere_spec,
};
use vstd::prelude::*;

verus! {

pub struct Vigenere {
    key: Vec<char>,
}

impl Vigenere {
    #[verifier::type_invariant]
    spec fn inv(&self) -> bool {
        &&& self.key@.len() > 0
        &&& forall|i: int| 0 <= i < self.key@.len() ==> is_upper(#[trigger] self.key@[i])
    }

    /// The key's letters, upper-cased.
    pub closed spec fn key(&self) -> Seq<char> {
        self.key@
    }

    /// Keeps the ASCII letters of `key`, upper-cased; `None` where it has none.
    pub fn try_new(key: String) -> (r: Option<Self>)
        ensures
            r is Some <==> key_letters(key@).len() > 0,
            r matches Some(v) ==> v.key() == key_letters(key@),
    {
        let normalized = normalize_key(&key);
        if normalized.len() == 0 {
            return None;
        }
        Some(Vigenere { key: normalized })
    }

    /// Keeps the ASCII letters of `key`, upper-cased; `key` must hold one.
    pub fn new(key: String) -> (r: Self)
        requires
            key_letters(key@).len() > 0,
        ensures
            r.key() == key_letters(key@),
    {
        match Vigenere::try_new(key) {
            Some(v) => v,
            None => {
                assert(false);
                Vigenere { key: Vec::new() }
            },
        }
    }

    /// Shifts the letters of `text` forward (`encrypt`) or back by the key.
    pub fn process(&self, text: &str, encrypt: bool) -> (r: String)
        ensures
            r@ == vigenere_spec(text@, self.key(), encrypt),
    {
        proof {
            use_type_invariant(self);
        }
        let chars = chars_of(text);
        let out = vigenere_chars(&self.key, &chars, encrypt);
        string_of(&out)
    }

    /// `process` on bytes, each byte read as the character of its code.
    pub fn process_bytes(&self, data: &Vec<u8>, encrypt: bool) -> (r: Vec<u8>)
        ensures
            r@ == vigenere_bytes_spec(data@, self.key(), encrypt),
    {
        proof {
            use_type_invariant(self);
        }
        vigenere_byte_vec(&self.key, data, encrypt)
    }
}

impl Cipher for Vigenere {
    fn to_ciphertext(&mut self, plaintext: &Vec<u8>) -> (r: Vec<u8>)
        ensures
            r@ == vigenere_bytes_spec(plaintext@, old(self).key(), true),
            final(self).key() == old(self).key(),
    {
        self.process_bytes(plaintext, true)
    }

    fn to_plaintext(&mut self, ciphertext: &Vec<u8>) -> (r: Vec<u8>)
        ensures
            r@ == vigenere_bytes_spec(ciphertext@, old(self).key(), false),
            final(self).key() == old(self).key(),
    {
        self.process_bytes(ciphertext, false)
    }
}

} // verus!
