//! Monoalphabetic substitution: a 26-letter key lists the ciphertext letter
//! of each plaintext letter `A..Z`; case is kept and other characters stay.
use crate::text::{
    chars_of, is_letter, is_lower, is_upper, letter_from, lower_of, string_of, to_lower, to_upper,
    upper_of,
};
use crate::text_cipher::Cipher;
use crate::vigenere::key_letters;
use vstd::prelude::*;

verus! {

/// `s` with every repeated character after its first occurrence removed.
pub open spec fn dedup(s: Seq<char>) -> Seq<char>
    decreases s.len(),
{
    if s.len() == 0 {
        Seq::empty()
    } else if dedup(s.drop_last()).contains(s.last()) {
        dedup(s.drop_last())
    } else {
        dedup(s.drop_last()).push(s.last())
    }
}

/// The substitution alphabet of a key: its distinct ASCII letters, upper-cased.
pub open spec fn substitution_of(key: Seq<char>) -> Seq<char> {
    dedup(key_letters(key))
}

/// A key is usable when it names 26 distinct letters.
pub open spec fn valid_key(key: Seq<char>) -> bool {
    substitution_of(key).len() == 26
}

/// `m` in the case of `c`.
pub open spec fn in_case_of(c: char, m: char) -> char {
    if is_lower(c) {
        lower_of(m)
    } else {
        m
    }
}

/// The position of `x` in `m` (where it occurs).
pub open spec fn position_in(m: Seq<char>, x: char) -> int {
    choose|i: int| 0 <= i < m.len() && m[i] == x
}

/// Plaintext letter with alphabet index `n` becomes `m[n]`.
pub open spec fn encode_char(m: Seq<char>, c: char) -> char {
    if is_letter(c) {
        in_case_of(c, m[upper_of(c) as int - 'A' as int])
    } else {
        c
    }
}

/// Ciphertext letter `m[n]` becomes the letter with alphabet index `n`.
pub open spec fn decode_char(m: Seq<char>, c: char) -> char {
    if is_letter(c) && m.contains(upper_of(c)) {
        in_case_of(c, letter_from('A', position_in(m, upper_of(c))))
    } else {
        c
    }
}

pub open spec fn substitute_text(m: Seq<char>, text: Seq<char>, encrypt: bool) -> Seq<char> {
    Seq::new(
        text.len(),
        |i: int|
            if encrypt {
                encode_char(m, text[i])
            } else {
                decode_char(m, text[i])
            },
    )
}

proof fn lemma_dedup(s: Seq<char>)
    ensures
        forall|a: int, b: int|
            0 <= a < b < dedup(s).len() ==> dedup(s)[a] != dedup(s)[b],
        forall|i: int| 0 <= i < dedup(s).len() ==> s.contains(#[trigger] dedup(s)[i]),
    decreases s.len(),
{
    if s.len() > 0 {
        lemma_dedup(s.drop_last());
        let d = dedup(s.drop_last());
        assert forall|i: int| 0 <= i < dedup(s).len() implies s.contains(#[trigger] dedup(s)[i]) by {
            if i < d.len() {
                let j = choose|j: int| 0 <= j < s.drop_last().len() && s.drop_last()[j] == d[i];
                assert(s[j] == dedup(s)[i]);
            } else {
                assert(s[s.len() - 1] == dedup(s)[i]);
            }
        }
    }
}

proof fn lemma_key_letters_upper(k: Seq<char>)
    ensures
        forall|i: int| 0 <= i < key_letters(k).len() ==> is_upper(#[trigger] key_letters(k)[i]),
    decreases k.len(),
{
    if k.len() > 0 {
        lemma_key_letters_upper(k.drop_last());
        lemma_upper_of_letter(k.last());
        let rest = key_letters(k.drop_last());
        if is_letter(k.last()) {
            assert forall|i: int| 0 <= i < key_letters(k).len() implies is_upper(
                #[trigger] key_letters(k)[i],
            ) by {
                if i < rest.len() {
                    assert(key_letters(k)[i] == rest[i]);
                }
            }
        }
    }
}

proof fn lemma_upper_of_letter(c: char)
    ensures
        is_letter(c) ==> is_upper(upper_of(c)),
{
    if is_lower(c) {
        let n = c as int - 'a' as int;
        assert(0 <= n < 26);
        let x = ('A' as int) + n;
        assert(65 <= x <= 90);
        assert((x as char) as int == x);
    }
}

pub struct Monoalphabetic {
    mapping: Vec<char>,
}

impl Monoalphabetic {
    #[verifier::type_invariant]
    spec fn inv(&self) -> bool {
        &&& self.mapping@.len() == 26
        &&& forall|i: int| 0 <= i < 26 ==> is_upper(#[trigger] self.mapping@[i])
        &&& forall|a: int, b: int| 0 <= a < b < 26 ==> self.mapping@[a] != self.mapping@[b]
    }

    /// The ciphertext letters of `A..Z`, in order.
    pub closed spec fn mapping(&self) -> Seq<char> {
        self.mapping@
    }

    /// The substitution of `key`, or `None` where it does not name 26 distinct letters.
    pub fn try_new(key: String) -> (r: Option<Self>)
        ensures
            r is Some <==> valid_key(key@),
            r matches Some(m) ==> m.mapping() == substitution_of(key@),
    {
        let chars = chars_of(&key);
        let mut mapping: Vec<char> = Vec::new();
        let mut i: usize = 0;
        proof {
            lemma_key_letters_upper(key@);
        }
        while i < chars.len()
            invariant
                i <= chars@.len(),
                chars@ == key@,
                mapping@ == dedup(key_letters(chars@.take(i as int))),
            decreases chars@.len() - i,
        {
            let c = chars[i];
            let ghost before = chars@.take(i as int);
            assert(chars@.take(i + 1).drop_last() =~= before);
            if ('A' <= c && c <= 'Z') || ('a' <= c && c <= 'z') {
                let u = to_upper(c);
                let mut seen = false;
                let mut j: usize = 0;
                while j < mapping.len()
                    invariant
                        j <= mapping@.len(),
                        seen <==> mapping@.take(j as int).contains(u),
                    decreases mapping@.len() - j,
                {
                    let ghost prefix = mapping@.take(j as int);
                    assert(mapping@.take(j + 1) =~= prefix.push(mapping@[j as int]));
                    if mapping[j] == u {
                        seen = true;
                        assert(mapping@.take(j + 1)[j as int] == u);
                    } else if !seen {
                        proof {
                            assert forall|t: int| 0 <= t < j + 1 implies #[trigger] mapping@.take(
                                j + 1,
                            )[t] != u by {
                                if t < j {
                                    assert(prefix[t] == mapping@.take(j + 1)[t]);
                                }
                            }
                        }
                    } else {
                        proof {
                            let w = choose|t: int| 0 <= t < prefix.len() && prefix[t] == u;
                            assert(mapping@.take(j + 1)[w] == u);
                        }
                    }
                    j = j + 1;
                }
                assert(mapping@.take(j as int) =~= mapping@);
                assert(key_letters(chars@.take(i + 1)) == key_letters(before).push(u));
                assert(key_letters(before).push(u).drop_last() =~= key_letters(before));
                if !seen {
                    mapping.push(u);
                }
            }
            i = i + 1;
        }
        assert(chars@.take(i as int) =~= chars@);
        if mapping.len() != 26 {
            return None;
        }
        proof {
            lemma_dedup(key_letters(key@));
            assert forall|k: int| 0 <= k < 26 implies is_upper(#[trigger] mapping@[k]) by {
                let j = choose|j: int|
                    0 <= j < key_letters(key@).len() && key_letters(key@)[j] == mapping@[k];
            }
        }
        Some(Monoalphabetic { mapping })
    }

    /// The substitution of `key`, which must name 26 distinct letters.
    pub fn new(key: String) -> (r: Self)
        requires
            valid_key(key@),
        ensures
            r.mapping() == substitution_of(key@),
    {
        match Monoalphabetic::try_new(key) {
            Some(m) => m,
            None => {
                assert(false);
                Monoalphabetic { mapping: Vec::new() }
            },
        }
    }

    /// Substitutes every ASCII letter of `text`: plaintext to ciphertext
    /// (`encrypt`) or back.
    pub fn process(&self, text: &str, encrypt: bool) -> (r: String)
        ensures
            r@ == substitute_text(self.mapping(), text@, encrypt),
    {
        proof {
            use_type_invariant(self);
        }
        let chars = chars_of(text);
        let mut out: Vec<char> = Vec::new();
        let mut i: usize = 0;
        while i < chars.len()
            invariant
                i <= chars@.len(),
                chars@ == text@,
                self.mapping@.len() == 26,
                forall|a: int, b: int| 0 <= a < b < 26 ==> self.mapping@[a] != self.mapping@[b],
                out@ =~= substitute_text(self.mapping(), text@, encrypt).take(i as int),
            decreases chars@.len() - i,
        {
            let c = chars[i];
            let mapped = if ('A' <= c && c <= 'Z') || ('a' <= c && c <= 'z') {
                let u = to_upper(c);
                if encrypt {
                    let m = self.mapping[(u as u8 - 65) as usize];
                    if 'a' <= c && c <= 'z' {
                        to_lower(m)
                    } else {
                        m
                    }
                } else {
                    let mut found: usize = 26;
                    let mut j: usize = 0;
                    while j < 26
                        invariant
                            j <= 26,
                            self.mapping@.len() == 26,
                            found == 26 || (found < j && self.mapping@[found as int] == u),
                            found == 26 ==> !self.mapping@.take(j as int).contains(u),
                        decreases 26 - j,
                    {
                        assert(self.mapping@.take(j + 1) =~= self.mapping@.take(j as int).push(
                            self.mapping@[j as int],
                        ));
                        if found == 26 && self.mapping[j] == u {
                            found = j;
                        }
                        j = j + 1;
                    }
                    assert(self.mapping@.take(26) =~= self.mapping@);
                    if found == 26 {
                        c
                    } else {
                        proof {
                            let p = position_in(self.mapping@, u);
                            assert(self.mapping@[p] == u);
                            if p != found {
                                if p < found {
                                    assert(self.mapping@[p] != self.mapping@[found as int]);
                                } else {
                                    assert(self.mapping@[found as int] != self.mapping@[p]);
                                }
                            }
                        }
                        let letter = (65 + found as u8) as char;
                        if 'a' <= c && c <= 'z' {
                            to_lower(letter)
                        } else {
                            letter
                        }
                    }
                }
            } else {
                c
            };
            out.push(mapped);
            i = i + 1;
        }
        string_of(&out)
    }
}

impl Cipher for Monoalphabetic {
    fn to_ciphertext(&mut self, plaintext: &String) -> (r: String)
        ensures
            r@ == substitute_text(old(self).mapping(), plaintext@, true),
            final(self).mapping() == old(self).mapping(),
    {
        self.process(plaintext, true)
    }

    fn to_plaintext(&mut self, ciphertext: &String) -> (r: String)
        ensures
            r@ == substitute_text(old(self).mapping(), ciphertext@, false),
            final(self).mapping() == old(self).mapping(),
    {
        self.process(ciphertext, false)
    }
}

} // verus!
