//! The common interface of the text-oriented ciphers.
use vstd::prelude::*;

verus! {

/// A cipher that turns plaintext into ciphertext and back. The methods take
/// `&mut self` so that a cipher may carry state between calls.
pub trait Cipher {
    fn to_ciphertext(&mut self, plaintext: &String) -> String;

    fn to_plaintext(&mut self, ciphertext: &String) -> String;
}

} // verus!
