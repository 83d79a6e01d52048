//! The chat message: who wrote it, with which cipher, and the ciphertext.
use vstd::prelude::*;

verus! {

/// The cipher family that produced a message's content.
#[derive(Clone, Copy, Debug, PartialEq, Eq)]
pub enum Cipher {
    Caesar,
    MonoalphabeticSubstitution,
    Playfair,
    Vigenere,
    Rc4,
    Des,
}

pub struct Message {
    author_username: String,
    cipher: Cipher,
    content: Vec<u8>,
}

impl Message {
    pub fn new(author_username: String, cipher: Cipher, content: Vec<u8>) -> (r: Self)
        ensures
            r.author_username() == author_username@,
            r.cipher() == cipher,
            r.content() == content@,
    {
        Message { author_username, cipher, content }
    }

    pub closed spec fn author_username(&self) -> Seq<char> {
        self.author_username@
    }

    pub closed spec fn cipher(&self) -> Cipher {
        self.cipher
    }

    pub closed spec fn content(&self) -> Seq<u8> {
        self.content@
    }

    /// Takes the message apart into its author, cipher and content.
    pub fn into_parts(self) -> (r: (String, Cipher, Vec<u8>))
        ensures
            r.0@ == self.author_username(),
            r.1 == self.cipher(),
            r.2@ == self.content(),
    {
        (self.author_username, self.cipher, self.content)
    }
}

} // verus!
