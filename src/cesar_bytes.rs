//! The shift cipher over bytes: every ASCII letter byte moves a fixed
//! number of places through its alphabet; every other byte stays.
use crate::cesar::{direction, shift_byte_vec, shift_bytes, shift_string, shift_text};
use crate::cipher::Cipher;
use vstd::prelude::*;

verus! {

pub struct Cesar {
    key: i8,
}

impl Cesar {
    pub fn new(key: i8) -> (r: Self)
        ensures
            r.key() == key,
    {
        Cesar { key }
    }

    pub closed spec fn key(&self) -> i8 {
        self.key
    }

    /// Shifts every ASCII letter of `text` forward by the key (`encrypt`) or
    /// back by it, modulo 26, keeping its case.
    pub fn process(&self, text: &str, encrypt: bool) -> (r: String)
        ensures
            r@ == shift_text(text@, direction(self.key(), encrypt)),
    {
        shift_string(text, self.key, encrypt)
    }

    /// `process` on bytes: ASCII letters shift, every other byte stays.
    pub fn process_bytes(&self, data: &Vec<u8>, encrypt: bool) -> (r: Vec<u8>)
        ensures
            r@ == shift_bytes(data@, direction(self.key(), encrypt)),
    {
        shift_byte_vec(data, self.key, encrypt)
    }

    pub fn encrypt(&self, plaintext: &String) -> (r: String)
        ensures
            r@ == shift_text(plaintext@, self.key() as int),
    {
        self.process(plaintext, true)
    }

    pub fn decrypt(&self, ciphertext: &String) -> (r: String)
        ensures
            r@ == shift_text(ciphertext@, -(self.key() as int)),
    {
        self.process(ciphertext, false)
    }
}

impl Cipher for Cesar {
    fn to_ciphertext(&mut self, plaintext: &Vec<u8>) -> (r: Vec<u8>)
        ensures
            r@ == shift_bytes(plaintext@, old(self).key() as int),
            final(self).key() == old(self).key(),
    {
        self.process_bytes(plaintext, true)
    }

    fn to_plaintext(&mut self, ciphertext: &Vec<u8>) -> (r: Vec<u8>)
        ensures
            r@ == shift_bytes(ciphertext@, -(old(self).key() as int)),
            final(self).key() == old(self).key(),
    {
        self.process_bytes(ciphertext, false)
    }
}

} // verus!
