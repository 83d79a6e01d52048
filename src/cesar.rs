//! The shift cipher: every ASCII letter moves a fixed number of places
//! through the alphabet, keeping its case; every other character stays.
use crate::text::{chars_of, is_letter, is_lower, is_upper, letter_from, string_of};
use crate::text_cipher::Cipher;
use vstd::arithmetic::div_mod::{lemma_add_mod_noop_right, lemma_mod_multiples_vanish};
use vstd::prelude::*;

verus! {

/// `c` moved `shift` places (modulo 26) through its alphabet where it is an
/// ASCII letter; `c` itself otherwise.
pub open spec fn shift_char(c: char, shift: int) -> char {
    if is_upper(c) {
        letter_from('A', (c as int - 'A' as int + shift) % 26)
    } else if is_lower(c) {
        letter_from('a', (c as int - 'a' as int + shift) % 26)
    } else {
        c
    }
}

/// The same on a byte.
pub open spec fn shift_byte(b: u8, shift: int) -> u8 {
    shift_char(b as char, shift) as u8
}

/// Each character of `s` moved by `shift`.
pub open spec fn shift_text(s: Seq<char>, shift: int) -> Seq<char> {
    Seq::new(s.len(), |i: int| shift_char(s[i], shift))
}

/// Each byte of `s` moved by `shift`.
pub open spec fn shift_bytes(s: Seq<u8>, shift: int) -> Seq<u8> {
    Seq::new(s.len(), |i: int| shift_byte(s[i], shift))
}

/// The signed shift that `process` applies.
pub open spec fn direction(key: i8, encrypt: bool) -> int {
    if encrypt {
        key as int
    } else {
        -(key as int)
    }
}

/// The shift of a letter at alphabet index `idx` by `shift`, computed
/// without negative intermediate values.
fn shift_index(idx: u8, shift: i16) -> (r: u8)
    requires
        idx < 26,
        -128 <= shift <= 128,
    ensures
        r as int == (idx + shift) % 26,
        r < 26,
{
    let s: u32 = ((shift as i32 + 130) as u32) % 26;
    let r = ((idx as u32 + s) % 26) as u8;
    proof {
        lemma_add_mod_noop_right(idx as int, shift as int + 130, 26);
        lemma_mod_multiples_vanish(5, idx + shift, 26);
    }
    r
}

/// `shift_char` as code.
pub(crate) fn shift_one(c: char, shift: i16) -> (r: char)
    requires
        -128 <= shift <= 128,
    ensures
        r == shift_char(c, shift as int),
{
    if 'A' <= c && c <= 'Z' {
        let n = shift_index((c as u8) - 65, shift);
        ((65 + n) as u8) as char
    } else if 'a' <= c && c <= 'z' {
        let n = shift_index((c as u8) - 97, shift);
        ((97 + n) as u8) as char
    } else {
        c
    }
}

/// Every ASCII letter of `text` moved by `direction(key, encrypt)`.
pub(crate) fn shift_string(text: &str, key: i8, encrypt: bool) -> (r: String)
    ensures
        r@ == shift_text(text@, direction(key, encrypt)),
{
    let shift: i16 = if encrypt { key as i16 } else { -(key as i16) };
    let chars = chars_of(text);
    let mut out: Vec<char> = Vec::new();
    let mut i: usize = 0;
    while i < chars.len()
        invariant
            i <= chars@.len(),
            chars@ == text@,
            shift as int == direction(key, encrypt),
            out@ =~= shift_text(text@, shift as int).take(i as int),
        decreases chars@.len() - i,
    {
        out.push(shift_one(chars[i], shift));
        i = i + 1;
    }
    string_of(&out)
}

/// Every ASCII letter byte of `data` moved by `direction(key, encrypt)`.
pub(crate) fn shift_byte_vec(data: &Vec<u8>, key: i8, encrypt: bool) -> (r: Vec<u8>)
    ensures
        r@ == shift_bytes(data@, direction(key, encrypt)),
{
    let shift: i16 = if encrypt { key as i16 } else { -(key as i16) };
    let mut out: Vec<u8> = Vec::new();
    let mut i: usize = 0;
    while i < data.len()
        invariant
            i <= data@.len(),
            shift as int == direction(key, encrypt),
            out@ =~= shift_bytes(data@, shift as int).take(i as int),
        decreases data@.len() - i,
    {
        out.push(shift_one(data[i] as char, shift) as u8);
        i = i + 1;
    }
    out
}

pub struct Cesar {
    key: i8,
}

impl Cesar {
    pub fn new(key: i8) -> (r: Self)
        ensures
            r.key() == key,
    {
        Cesar { key }
    }

    pub closed spec fn key(&self) -> i8 {
        self.key
    }

    /// Shifts every ASCII letter of `text` forward by the key (`encrypt`) or
    /// back by it, modulo 26, keeping its case.
    pub fn process(&self, text: &str, encrypt: bool) -> (r: String)
        ensures
            r@ == shift_text(text@, direction(self.key(), encrypt)),
    {
        shift_string(text, self.key, encrypt)
    }

    pub fn encrypt(&self, plaintext: &String) -> (r: String)
        ensures
            r@ == shift_text(plaintext@, self.key() as int),
    {
        self.process(plaintext, true)
    }

    pub fn decrypt(&self, ciphertext: &String) -> (r: String)
        ensures
            r@ == shift_text(ciphertext@, -(self.key() as int)),
    {
        self.process(ciphertext, false)
    }
}

impl Cipher for Cesar {
    fn to_ciphertext(&mut self, plaintext: &String) -> (r: String)
        ensures
            r@ == shift_text(plaintext@, old(self).key() as int),
            final(self).key() == old(self).key(),
    {
        self.process(plaintext, true)
    }

    fn to_plaintext(&mut self, ciphertext: &String) -> (r: String)
        ensures
            r@ == shift_text(ciphertext@, -(old(self).key() as int)),
            final(self).key() == old(self).key(),
    {
        self.process(ciphertext, false)
    }
}

} // verus!
