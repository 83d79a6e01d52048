//! The common interface of the byte-oriented ciphers.
use vstd::prelude::*;

verus! {

/// A cipher that turns plaintext bytes into ciphertext bytes and back. The
/// methods take `&mut self` so that a cipher may carry state between calls.
pub trait Cipher {
    fn to_ciphertext(&mut self, plaintext: &Vec<u8>) -> Vec<u8>;

    fn to_plaintext(&mut self, ciphertext: &Vec<u8>) -> Vec<u8>;
}

} // verus!
