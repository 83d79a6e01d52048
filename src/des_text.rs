//! The block cipher behind the text-oriented `Cipher` interface: keys,
//! blocks and results are words written in hexadecimal.
use crate::block::{decrypt_spec, encrypt_spec, lemma_round_trip, process, DESMode};
use crate::hex::{format_hex, hex_text, lemma_parse_format, parse_hex, parse_hex_spec};
use crate::text_cipher::Cipher;
use vstd::prelude::*;

verus! {

/// What the text interface gives for `text` under `key` in `mode`: the
/// processed block in upper-case hexadecimal, or nothing where `text`
/// writes no block.
pub open spec fn hex_output(text: Seq<char>, key: u64, mode: DESMode) -> Option<Seq<char>> {
    match parse_hex_spec(text) {
        Some(b) => Some(
            hex_text(
                match mode {
                    DESMode::Cipher => encrypt_spec(b, key),
                    DESMode::Decipher => decrypt_spec(b, key),
                } as nat,
            ),
        ),
        None => None,
    }
}

/// Through the hexadecimal interface, decrypting the ciphertext text of a
/// block under the same key gives the block's own text, for every key.
pub proof fn lemma_hex_round_trip(text: Seq<char>, key: u64)
    requires
        parse_hex_spec(text) is Some,
    ensures
        hex_output(text, key, DESMode::Cipher) is Some,
        hex_output(hex_output(text, key, DESMode::Cipher)->0, key, DESMode::Decipher) == Some(
            hex_text(parse_hex_spec(text)->0 as nat),
        ),
{
    let b = parse_hex_spec(text)->0;
    let c = encrypt_spec(b, key);
    lemma_parse_format(c);
    lemma_round_trip(b, key);
}

/// A block cipher keyed by one 64-bit key, on hexadecimal text.
pub struct DES {
    pub key: u64,
}

impl DES {
    /// The cipher keyed by the word that `key` writes in hexadecimal, or
    /// `None` where it writes none.
    pub fn try_new(key: &str) -> (r: Option<Self>)
        ensures
            r is Some <==> parse_hex_spec(key@) is Some,
            r matches Some(d) ==> parse_hex_spec(key@) == Some(d.key),
    {
        match DES::interpret_string_as_64_bit_hex(key) {
            Some(k) => Some(DES { key: k }),
            None => None,
        }
    }

    /// The cipher keyed by the word that `key` writes in hexadecimal.
    pub fn new(key: &str) -> (r: Self)
        requires
            parse_hex_spec(key@) is Some,
        ensures
            parse_hex_spec(key@) == Some(r.key),
    {
        match DES::try_new(key) {
            Some(d) => d,
            None => {
                assert(false);
                DES { key: 0 }
            },
        }
    }

    /// The word that `input` writes in hexadecimal: at most 18 characters,
    /// an optional `0x` (either case), then digits of either case.
    pub fn interpret_string_as_64_bit_hex(input: &str) -> (r: Option<u64>)
        ensures
            r == parse_hex_spec(input@),
    {
        parse_hex(input)
    }

    /// The processed block of the block that `text` writes, in upper-case
    /// hexadecimal; `None` where `text` writes no block.
    pub fn process_hex(&self, text: &str, mode: DESMode) -> (r: Option<String>)
        ensures
            r is Some <==> hex_output(text@, self.key, mode) is Some,
            r matches Some(t) ==> hex_output(text@, self.key, mode) == Some(t@),
    {
        match parse_hex(text) {
            Some(b) => Some(format_hex(process(b, self.key, mode))),
            None => None,
        }
    }
}

impl Cipher for DES {
    /// The ciphertext in upper-case hexadecimal; text that writes no block
    /// gives an empty result (`process_hex` returns `None` there).
    fn to_ciphertext(&mut self, plaintext: &String) -> (r: String)
        ensures
            r@ == match hex_output(plaintext@, old(self).key, DESMode::Cipher) {
                Some(t) => t,
                None => Seq::empty(),
            },
            final(self).key == old(self).key,
    {
        match self.process_hex(plaintext, DESMode::Cipher) {
            Some(t) => t,
            None => String::new(),
        }
    }

    /// The plaintext in upper-case hexadecimal; text that writes no block
    /// gives an empty result.
    fn to_plaintext(&mut self, ciphertext: &String) -> (r: String)
        ensures
            r@ == match hex_output(ciphertext@, old(self).key, DESMode::Decipher) {
                Some(t) => t,
                None => Seq::empty(),
            },
            final(self).key == old(self).key,
    {
        match self.process_hex(ciphertext, DESMode::Decipher) {
            Some(t) => t,
            None => String::new(),
        }
    }
}

} // verus!
