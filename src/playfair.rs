//! The digraph cipher over a 5×5 key matrix. Input bytes are read as
//! characters; only letters count, upper-cased, with `I` read as `J`.
use crate::cipher::Cipher;
use crate::matrix::{
    fold_letter, in_alphabet25, lemma_matrix_letters, matrix_letters, KeyMatrix, Pos,
};
use crate::monoalphabetic::position_in;
use crate::text::{is_letter, to_upper, upper_of};
use vstd::arithmetic::div_mod::lemma_fundamental_div_mod_converse;
use vstd::prelude::*;

verus! {

/// A group of two successive letters.
pub type Digraph = [char; 2];

/// The letters of a byte sequence, each byte read as the character of its code.
pub open spec fn byte_letters(source: Seq<u8>) -> Seq<char> {
    matrix_letters(source.map_values(|b: u8| b as char))
}

/// An odd count of letters gets an `X` at the end.
pub open spec fn padded(f: Seq<char>) -> Seq<char> {
    if f.len() % 2 != 0 {
        f.push('X')
    } else {
        f
    }
}

/// The first `n` letters of `f`, each followed by an `X` where the next letter equals it.
pub open spec fn separated_upto(f: Seq<char>, n: nat) -> Seq<char>
    decreases n,
{
    if n == 0 {
        Seq::empty()
    } else {
        let s = separated_upto(f, (n - 1) as nat).push(f[n - 1]);
        if n < f.len() && f[n as int] == f[n - 1] {
            s.push('X')
        } else {
            s
        }
    }
}

/// `f` with an `X` after every letter that its successor repeats.
pub open spec fn separated(f: Seq<char>) -> Seq<char> {
    separated_upto(f, f.len())
}

/// Successive letters two by two; an odd last letter is dropped.
pub open spec fn pairs(s: Seq<char>) -> Seq<(char, char)> {
    Seq::new(s.len() / 2, |i: int| (s[2 * i], s[2 * i + 1]))
}

/// The letters of a digraph sequence as pairs.
pub open spec fn digraph_view(v: Seq<Digraph>) -> Seq<(char, char)> {
    v.map_values(|d: Digraph| (d@[0], d@[1]))
}

/// The digraphs that encryption works on.
pub open spec fn plaintext_pairs(source: Seq<u8>) -> Seq<(char, char)> {
    pairs(separated(padded(byte_letters(source))))
}

/// The digraph rule with a step of 1 (encryption) or 4 (decryption): same
/// column, move down by the step; same row, move right by the step; else swap
/// the columns.
pub open spec fn pair_rule(m: Seq<char>, a: char, b: char, step: int) -> (char, char) {
    let pa = position_in(m, a);
    let pb = position_in(m, b);
    let (ra, ca, rb, cb) = (pa / 5, pa % 5, pb / 5, pb % 5);
    if ca == cb {
        (m[5 * ((ra + step) % 5) + ca], m[5 * ((rb + step) % 5) + cb])
    } else if ra == rb {
        (m[5 * ra + (ca + step) % 5], m[5 * rb + (cb + step) % 5])
    } else {
        (m[5 * ra + cb], m[5 * rb + ca])
    }
}

/// The letters that the digraph rule gives for `ps`, as bytes.
pub open spec fn apply_pairs(m: Seq<char>, ps: Seq<(char, char)>, step: int) -> Seq<u8> {
    Seq::new(
        2 * ps.len(),
        |i: int|
            if i % 2 == 0 {
                pair_rule(m, ps[i / 2].0, ps[i / 2].1, step).0 as u8
            } else {
                pair_rule(m, ps[i / 2].0, ps[i / 2].1, step).1 as u8
            },
    )
}

proof fn lemma_separated(f: Seq<char>, n: nat)
    requires
        n <= f.len(),
        forall|i: int| 0 <= i < f.len() ==> in_alphabet25(#[trigger] f[i]),
    ensures
        forall|i: int|
            0 <= i < separated_upto(f, n).len() ==> in_alphabet25(
                #[trigger] separated_upto(f, n)[i],
            ),
    decreases n,
{
    if n > 0 {
        lemma_separated(f, (n - 1) as nat);
        let prev = separated_upto(f, (n - 1) as nat);
        let s = prev.push(f[n - 1]);
        assert forall|i: int| 0 <= i < separated_upto(f, n).len() implies in_alphabet25(
            #[trigger] separated_upto(f, n)[i],
        ) by {
            if i < prev.len() {
                assert(separated_upto(f, n)[i] == prev[i]);
            } else if i == prev.len() {
                assert(separated_upto(f, n)[i] == f[n - 1]);
            }
        }
    }
}

proof fn lemma_plaintext_letters(source: Seq<u8>)
    ensures
        forall|i: int|
            0 <= i < separated(padded(byte_letters(source))).len() ==> in_alphabet25(
                #[trigger] separated(padded(byte_letters(source)))[i],
            ),
{
    let f = byte_letters(source);
    lemma_matrix_letters(source.map_values(|b: u8| b as char));
    let p = padded(f);
    assert forall|i: int| 0 <= i < p.len() implies in_alphabet25(#[trigger] p[i]) by {
        if i < f.len() {
            assert(p[i] == f[i]);
        }
    }
    lemma_separated(p, p.len());
}

/// Both letters of digraph `d` belong to the matrix alphabet.
pub open spec fn digraph_in_alphabet(d: Digraph) -> bool {
    in_alphabet25(d@[0]) && in_alphabet25(d@[1])
}

proof fn lemma_pairs_letters(s: Seq<char>, v: Seq<Digraph>)
    requires
        digraph_view(v) == pairs(s),
        forall|i: int| 0 <= i < s.len() ==> in_alphabet25(#[trigger] s[i]),
    ensures
        forall|i: int| 0 <= i < v.len() ==> digraph_in_alphabet(#[trigger] v[i]),
{
    assert forall|i: int| 0 <= i < v.len() implies digraph_in_alphabet(#[trigger] v[i]) by {
        assert(digraph_view(v).len() == v.len());
        assert(digraph_view(v)[i] == (v[i]@[0], v[i]@[1]));
        vstd::arithmetic::div_mod::lemma_fundamental_div_mod(s.len() as int, 2);
        assert(2 * i + 1 < s.len());
        assert(pairs(s)[i] == (s[2 * i], s[2 * i + 1]));
        assert(in_alphabet25(s[2 * i]));
        assert(in_alphabet25(s[2 * i + 1]));
    }
}

/// The letters of `source` read as characters, upper-cased, `I` as `J`.
fn letters_of_bytes(source: &Vec<u8>) -> (r: Vec<char>)
    ensures
        r@ == byte_letters(source@),
{
    let ghost chars = source@.map_values(|b: u8| b as char);
    let mut out: Vec<char> = Vec::new();
    let mut i: usize = 0;
    while i < source.len()
        invariant
            i <= source@.len(),
            chars == source@.map_values(|b: u8| b as char),
            out@ == matrix_letters(chars.take(i as int)),
        decreases source@.len() - i,
    {
        let c = source[i] as char;
        assert(chars.take(i + 1).drop_last() =~= chars.take(i as int));
        assert(chars.take(i + 1).last() == c);
        if ('A' <= c && c <= 'Z') || ('a' <= c && c <= 'z') {
            let u = to_upper(c);
            out.push(if u == 'I' { 'J' } else { u });
        }
        i = i + 1;
    }
    assert(chars.take(i as int) =~= chars);
    out
}

/// The letters of `chars`, upper-cased, `I` as `J`.
fn letters_of_chars(chars: &Vec<char>) -> (r: Vec<char>)
    ensures
        r@ == matrix_letters(chars@),
{
    let mut out: Vec<char> = Vec::new();
    let mut i: usize = 0;
    while i < chars.len()
        invariant
            i <= chars@.len(),
            out@ == matrix_letters(chars@.take(i as int)),
        decreases chars@.len() - i,
    {
        let c = chars[i];
        assert(chars@.take(i + 1).drop_last() =~= chars@.take(i as int));
        if ('A' <= c && c <= 'Z') || ('a' <= c && c <= 'z') {
            let u = to_upper(c);
            out.push(if u == 'I' { 'J' } else { u });
        }
        i = i + 1;
    }
    assert(chars@.take(i as int) =~= chars@);
    out
}

/// Pads `filtered` to an even count with `X`, puts an `X` after each letter
/// that the next one repeats, and pairs the result up.
fn digraphs_of_letters(filtered: Vec<char>) -> (r: Vec<Digraph>)
    ensures
        digraph_view(r@) == pairs(separated(padded(filtered@))),
{
    let ghost given = filtered@;
    let mut filtered = filtered;
    if filtered.len() % 2 != 0 {
        filtered.push('X');
    }
    let ghost f = filtered@;
    assert(f == padded(given));
    let mut separated_chars: Vec<char> = Vec::new();
    let mut i: usize = 0;
    while i < filtered.len()
        invariant
            i <= f.len(),
            filtered@ == f,
            separated_chars@ == separated_upto(f, i as nat),
        decreases f.len() - i,
    {
        let current = filtered[i];
        separated_chars.push(current);
        if i + 1 < filtered.len() && filtered[i + 1] == current {
            separated_chars.push('X');
        }
        i = i + 1;
    }
    pair_up(&separated_chars)
}

/// Successive letters of `s` two by two.
fn pair_up(s: &Vec<char>) -> (r: Vec<Digraph>)
    ensures
        digraph_view(r@) == pairs(s@),
{
    let mut out: Vec<Digraph> = Vec::new();
    let mut i: usize = 0;
    while i + 1 < s.len()
        invariant
            i % 2 == 0,
            i <= s@.len(),
            out@.len() == i / 2,
            digraph_view(out@) =~= pairs(s@).take((i / 2) as int),
        decreases s@.len() - i,
    {
        let d: Digraph = [s[i], s[i + 1]];
        out.push(d);
        i = i + 2;
    }
    assert(i / 2 == s@.len() / 2);
    assert(digraph_view(out@) =~= pairs(s@));
    out
}

pub struct Playfair {
    matrix: KeyMatrix,
}

impl Playfair {
    /// The cipher over the key matrix of `key`.
    pub fn new(key: String) -> (r: Self)
        ensures
            r.matrix().contents() == crate::matrix::matrix_of(key@),
    {
        Playfair { matrix: KeyMatrix::new(key) }
    }

    pub closed spec fn matrix(&self) -> KeyMatrix {
        self.matrix
    }

    /// The digraphs of a plaintext: its letters, padded with `X` to an even
    /// count, with an `X` after each letter that the next one repeats,
    /// taken two by two.
    pub fn prepare_plaintext_input(source: &Vec<u8>) -> (r: Vec<Digraph>)
        ensures
            digraph_view(r@) == plaintext_pairs(source@),
    {
        let filtered = letters_of_bytes(source);
        digraphs_of_letters(filtered)
    }

    /// The digraphs of a plaintext given as text; the same steps as
    /// `prepare_plaintext_input` on its characters.
    pub fn explode_input(source: &String) -> (r: Vec<Digraph>)
        ensures
            digraph_view(r@) == pairs(separated(padded(matrix_letters(source@)))),
    {
        let chars = crate::text::chars_of(source);
        let filtered = letters_of_chars(&chars);
        digraphs_of_letters(filtered)
    }

    /// The digraphs of a ciphertext, or `None` where its byte count is odd.
    pub fn prepare_cipher_input(source: &Vec<u8>) -> (r: Option<Vec<Digraph>>)
        ensures
            r is Some <==> source@.len() % 2 == 0,
            r matches Some(v) ==> digraph_view(v@) == pairs(byte_letters(source@)),
    {
        if source.len() % 2 != 0 {
            return None;
        }
        let filtered = letters_of_bytes(source);
        Some(pair_up(&filtered))
    }

    /// The digraph rule with `step` (1 or 4) on each digraph, as bytes.
    fn apply(&self, input: &Vec<Digraph>, step: usize) -> (r: Vec<u8>)
        requires
            step == 1 || step == 4,
            forall|i: int| 0 <= i < input@.len() ==> digraph_in_alphabet(#[trigger] input@[i]),
        ensures
            r@ == apply_pairs(self.matrix().contents(), digraph_view(input@), step as int),
    {
        let ghost m = self.matrix().contents();
        let ghost ps = digraph_view(input@);
        let mut out: Vec<u8> = Vec::new();
        let mut i: usize = 0;
        while i < input.len()
            invariant
                i <= input@.len(),
                step == 1 || step == 4,
                m == self.matrix().contents(),
                ps == digraph_view(input@),
                forall|k: int| 0 <= k < input@.len() ==> digraph_in_alphabet(#[trigger] input@[k]),
                out@ =~= apply_pairs(m, ps, step as int).take(2 * i),
            decreases input@.len() - i,
        {
            let digraph = input[i];
            let a = digraph[0];
            let b = digraph[1];
            assert(digraph_in_alphabet(input@[i as int]));
            assert(in_alphabet25(a) && in_alphabet25(b));
            let pos_a = self.matrix.get_position(a);
            let pos_b = self.matrix.get_position(b);
            proof {
                lemma_fundamental_div_mod_converse(
                    position_in(m, a),
                    5,
                    pos_a.row as int,
                    pos_a.column as int,
                );
                lemma_fundamental_div_mod_converse(
                    position_in(m, b),
                    5,
                    pos_b.row as int,
                    pos_b.column as int,
                );
            }
            let (n_a, n_b) = if pos_a.column == pos_b.column {
                (
                    self.matrix.get_char(&Pos { row: (pos_a.row + step) % 5, column: pos_a.column }),
                    self.matrix.get_char(&Pos { row: (pos_b.row + step) % 5, column: pos_b.column }),
                )
            } else if pos_a.row == pos_b.row {
                (
                    self.matrix.get_char(&Pos { row: pos_a.row, column: (pos_a.column + step) % 5 }),
                    self.matrix.get_char(&Pos { row: pos_b.row, column: (pos_b.column + step) % 5 }),
                )
            } else {
                (
                    self.matrix.get_char(&Pos { row: pos_a.row, column: pos_b.column }),
                    self.matrix.get_char(&Pos { row: pos_b.row, column: pos_a.column }),
                )
            };
            assert(ps[i as int] == (a, b));
            assert((n_a, n_b) == pair_rule(m, a, b, step as int));
            out.push(n_a as u8);
            out.push(n_b as u8);
            i = i + 1;
        }
        assert(apply_pairs(m, ps, step as int).take(2 * i) =~= apply_pairs(m, ps, step as int));
        out
    }

    /// The ciphertext of `plaintext`: the digraph rule, step 1, on its digraphs.
    pub fn encipher(&self, plaintext: &Vec<u8>) -> (r: Vec<u8>)
        ensures
            r@ == apply_pairs(self.matrix().contents(), plaintext_pairs(plaintext@), 1),
    {
        let input = Playfair::prepare_plaintext_input(plaintext);
        proof {
            lemma_plaintext_letters(plaintext@);
            lemma_pairs_letters(separated(padded(byte_letters(plaintext@))), input@);
        }
        self.apply(&input, 1)
    }

    /// The plaintext of `ciphertext`: the digraph rule, step 4, on its
    /// digraphs; `None` where its byte count is odd.
    pub fn decipher(&self, ciphertext: &Vec<u8>) -> (r: Option<Vec<u8>>)
        ensures
            r is Some <==> ciphertext@.len() % 2 == 0,
            r matches Some(v) ==> v@ == apply_pairs(
                self.matrix().contents(),
                pairs(byte_letters(ciphertext@)),
                4,
            ),
    {
        match Playfair::prepare_cipher_input(ciphertext) {
            None => None,
            Some(input) => {
                proof {
                    lemma_matrix_letters(ciphertext@.map_values(|b: u8| b as char));
                    lemma_pairs_letters(byte_letters(ciphertext@), input@);
                }
                Some(self.apply(&input, 4))
            },
        }
    }
}

impl Cipher for Playfair {
    fn to_ciphertext(&mut self, plaintext: &Vec<u8>) -> (r: Vec<u8>)
        ensures
            r@ == apply_pairs(old(self).matrix().contents(), plaintext_pairs(plaintext@), 1),
            final(self).matrix().contents() == old(self).matrix().contents(),
    {
        self.encipher(plaintext)
    }

    /// A ciphertext with an odd byte count has no plaintext: the result is empty.
    fn to_plaintext(&mut self, ciphertext: &Vec<u8>) -> (r: Vec<u8>)
        ensures
            r@ == if ciphertext@.len() % 2 == 0 {
                apply_pairs(old(self).matrix().contents(), pairs(byte_letters(ciphertext@)), 4)
            } else {
                Seq::empty()
            },
            final(self).matrix().contents() == old(self).matrix().contents(),
    {
        match self.decipher(ciphertext) {
            Some(v) => v,
            None => Vec::new(),
        }
    }
}

} // verus!
