//! The running-key shift cipher: the n-th ASCII letter of the text moves by
//! the alphabet index of key letter `n mod key length`; other characters stay
//! and do not use up a key letter.
use crate::cesar::{shift_char, shift_one};
use crate::text::{chars_of, is_letter, is_upper, string_of, to_upper, upper_of};
use crate::text_cipher::Cipher;
use vstd::prelude::*;

verus! {

/// The ASCII letters of `k`, upper-cased, in order.
pub open spec fn key_letters(k: Seq<char>) -> Seq<char>
    decreases k.len(),
{
    if k.len() == 0 {
        Seq::empty()
    } else if is_letter(k.last()) {
        key_letters(k.drop_last()).push(upper_of(k.last()))
    } else {
        key_letters(k.drop_last())
    }
}

/// The number of ASCII letters in `s`.
pub open spec fn letter_count(s: Seq<char>) -> nat
    decreases s.len(),
{
    if s.len() == 0 {
        0
    } else {
        letter_count(s.drop_last()) + if is_letter(s.last()) { 1nat } else { 0nat }
    }
}

/// The shift that upper-case key letter `k` stands for, signed by direction.
pub open spec fn key_shift(k: char, encrypt: bool) -> int {
    if encrypt {
        k as int - 'A' as int
    } else {
        'A' as int - k as int
    }
}

/// The text with its n-th letter shifted by key letter `n mod key length`.
pub open spec fn vigenere_spec(text: Seq<char>, key: Seq<char>, encrypt: bool) -> Seq<char> {
    Seq::new(
        text.len(),
        |i: int|
            if is_letter(text[i]) {
                shift_char(text[i], key_shift(key[(letter_count(text.take(i)) as int) % (key.len() as int)], encrypt))
            } else {
                text[i]
            },
    )
}

/// The same on bytes, each byte read as the character of its code.
pub open spec fn vigenere_bytes_spec(data: Seq<u8>, key: Seq<char>, encrypt: bool) -> Seq<u8> {
    vigenere_spec(data.map_values(|b: u8| b as char), key, encrypt).map_values(|c: char| c as u8)
}

/// The ASCII letters of `key`, upper-cased.
pub(crate) fn normalize_key(key: &String) -> (r: Vec<char>)
    ensures
        r@ == key_letters(key@),
        forall|j: int| 0 <= j < r@.len() ==> is_upper(#[trigger] r@[j]),
{
    let chars = chars_of(key);
    let mut normalized: Vec<char> = Vec::new();
    let mut i: usize = 0;
    while i < chars.len()
        invariant
            i <= chars@.len(),
            chars@ == key@,
            normalized@ == key_letters(chars@.take(i as int)),
            forall|j: int| 0 <= j < normalized@.len() ==> is_upper(#[trigger] normalized@[j]),
        decreases chars@.len() - i,
    {
        let c = chars[i];
        assert(chars@.take(i + 1).drop_last() =~= chars@.take(i as int));
        if ('A' <= c && c <= 'Z') || ('a' <= c && c <= 'z') {
            normalized.push(to_upper(c));
        }
        i = i + 1;
    }
    assert(chars@.take(i as int) =~= chars@);
    normalized
}

/// `vigenere_spec` as code, for a key of upper-case letters.
pub(crate) fn vigenere_chars(key: &Vec<char>, text: &Vec<char>, encrypt: bool) -> (r: Vec<char>)
    requires
        key@.len() > 0,
        forall|j: int| 0 <= j < key@.len() ==> is_upper(#[trigger] key@[j]),
    ensures
        r@ == vigenere_spec(text@, key@, encrypt),
{
    let mut out: Vec<char> = Vec::new();
    let mut key_index: usize = 0;
    let mut i: usize = 0;
    while i < text.len()
        invariant
            i <= text@.len(),
            key_index == letter_count(text@.take(i as int)),
            key_index <= i,
            key@.len() > 0,
            forall|j: int| 0 <= j < key@.len() ==> is_upper(#[trigger] key@[j]),
            out@ =~= vigenere_spec(text@, key@, encrypt).take(i as int),
        decreases text@.len() - i,
    {
        let c = text[i];
        assert(text@.take(i + 1).drop_last() =~= text@.take(i as int));
        if ('A' <= c && c <= 'Z') || ('a' <= c && c <= 'z') {
            let k = key[key_index % key.len()];
            assert(is_upper(k));
            let shift: i16 = if encrypt { (k as u8 - 65) as i16 } else { -((k as u8 - 65) as i16) };
            out.push(shift_one(c, shift));
            key_index = key_index + 1;
        } else {
            out.push(c);
        }
        i = i + 1;
    }
    out
}

/// `vigenere_bytes_spec` as code, for a key of upper-case letters.
pub(crate) fn vigenere_byte_vec(key: &Vec<char>, data: &Vec<u8>, encrypt: bool) -> (r: Vec<u8>)
    requires
        key@.len() > 0,
        forall|j: int| 0 <= j < key@.len() ==> is_upper(#[trigger] key@[j]),
    ensures
        r@ == vigenere_bytes_spec(data@, key@, encrypt),
{
    let mut chars: Vec<char> = Vec::new();
    let mut i: usize = 0;
    while i < data.len()
        invariant
            i <= data@.len(),
            chars@ =~= data@.map_values(|b: u8| b as char).take(i as int),
        decreases data@.len() - i,
    {
        chars.push(data[i] as char);
        i = i + 1;
    }
    assert(chars@ =~= data@.map_values(|b: u8| b as char));
    let processed = vigenere_chars(key, &chars, encrypt);
    let mut out: Vec<u8> = Vec::new();
    let mut j: usize = 0;
    while j < processed.len()
        invariant
            j <= processed@.len(),
            out@ =~= processed@.map_values(|c: char| c as u8).take(j as int),
        decreases processed@.len() - j,
    {
        out.push(processed[j] as u8);
        j = j + 1;
    }
    assert(out@ =~= processed@.map_values(|c: char| c as u8));
    out
}

pub struct Vigenere {
    key: Vec<char>,
}

impl Vigenere {
    #[verifier::type_invariant]
    spec fn inv(&self) -> bool {
        &&& self.key@.len() > 0
        &&& forall|i: int| 0 <= i < self.key@.len() ==> is_upper(#[trigger] self.key@[i])
    }

    /// The key's letters, upper-cased.
    pub closed spec fn key(&self) -> Seq<char> {
        self.key@
    }

    /// Keeps the ASCII letters of `key`, upper-cased; `None` where it has none.
    pub fn try_new(key: String) -> (r: Option<Self>)
        ensures
            r is Some <==> key_letters(key@).len() > 0,
            r matches Some(v) ==> v.key() == key_letters(key@),
    {
        let normalized = normalize_key(&key);
        if normalized.len() == 0 {
            return None;
        }
        Some(Vigenere { key: normalized })
    }

    /// Keeps the ASCII letters of `key`, upper-cased; `key` must hold one.
    pub fn new(key: String) -> (r: Self)
        requires
            key_letters(key@).len() > 0,
        ensures
            r.key() == key_letters(key@),
    {
        match Vigenere::try_new(key) {
            Some(v) => v,
            None => {
                assert(false);
                Vigenere { key: Vec::new() }
            },
        }
    }

    /// Shifts the letters of `text` forward (`encrypt`) or back by the key.
    pub fn process(&self, text: &str, encrypt: bool) -> (r: String)
        ensures
            r@ == vigenere_spec(text@, self.key(), encrypt),
    {
        proof {
            use_type_invariant(self);
        }
        let chars = chars_of(text);
        let out = vigenere_chars(&self.key, &chars, encrypt);
        string_of(&out)
    }
}

impl Cipher for Vigenere {
    fn to_ciphertext(&mut self, plaintext: &String) -> (r: String)
        ensures
            r@ == vigenere_spec(plaintext@, old(self).key(), true),
            final(self).key() == old(self).key(),
    {
        self.process(plaintext, true)
    }

    fn to_plaintext(&mut self, ciphertext: &String) -> (r: String)
        ensures
            r@ == vigenere_spec(ciphertext@, old(self).key(), false),
            final(self).key() == old(self).key(),
    {
        self.process(ciphertext, false)
    }
}

} // verus!
