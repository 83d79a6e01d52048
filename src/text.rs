//! Moving between strings and sequences of characters.
use vstd::prelude::*;

verus! {

/// The characters of `s`, in order.
pub fn chars_of(s: &str) -> (r: Vec<char>)
    ensures
        r@ == s@,
{
    let mut out: Vec<char> = Vec::new();
    for c in it: s.chars()
        invariant
            out@ == it.seq().take(it.index() as int),
    {
        out.push(c);
    }
    out
}

/// Relies on `String::push`: appends one character at the end.
#[verifier::external_body]
fn push_char(s: &mut String, c: char)
    ensures
        final(s)@ == old(s)@.push(c),
{
    s.push(c)
}

/// The string of the characters `v`, in order.
pub fn string_of(v: &Vec<char>) -> (r: String)
    ensures
        r@ == v@,
{
    let mut out = String::new();
    let mut i: usize = 0;
    while i < v.len()
        invariant
            i <= v@.len(),
            out@ == v@.take(i as int),
        decreases v@.len() - i,
    {
        push_char(&mut out, v[i]);
        assert(v@.take(i + 1) =~= v@.take(i as int).push(v@[i as int]));
        i = i + 1;
    }
    assert(v@.take(i as int) =~= v@);
    out
}

/// An ASCII upper-case letter.
pub open spec fn is_upper(c: char) -> bool {
    'A' <= c <= 'Z'
}

/// An ASCII lower-case letter.
pub open spec fn is_lower(c: char) -> bool {
    'a' <= c <= 'z'
}

/// An ASCII letter.
pub open spec fn is_letter(c: char) -> bool {
    is_upper(c) || is_lower(c)
}

/// The ASCII letter `n` places (`0 <= n < 26`) after `base`.
pub open spec fn letter_from(base: char, n: int) -> char {
    ((base as int) + n) as char
}

/// Upper-case form of an ASCII letter; other characters unchanged.
pub open spec fn upper_of(c: char) -> char {
    if is_lower(c) {
        letter_from('A', c as int - 'a' as int)
    } else {
        c
    }
}

/// Lower-case form of an ASCII letter; other characters unchanged.
pub open spec fn lower_of(c: char) -> char {
    if is_upper(c) {
        letter_from('a', c as int - 'A' as int)
    } else {
        c
    }
}

/// `lower_of` as code.
pub fn to_lower(c: char) -> (r: char)
    ensures
        r == lower_of(c),
{
    if 'A' <= c && c <= 'Z' {
        ((c as u8) + 32) as char
    } else {
        c
    }
}

/// `upper_of` as code.
pub fn to_upper(c: char) -> (r: char)
    ensures
        r == upper_of(c),
{
    if 'a' <= c && c <= 'z' {
        ((c as u8) - 32) as char
    } else {
        c
    }
}

} // verus!
