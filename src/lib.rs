//! Symmetric ciphers behind two shared interfaces: the DES block cipher
//! (bit utilities, constant tables, key schedule, round function and block
//! controller), the classical shift, substitution, running-key and digraph
//! ciphers, RC4, and the chat message type that carries their output.
pub mod bits;
pub mod block;
pub mod cesar;
pub mod cesar_bytes;
pub mod cipher;
pub mod des;
pub mod des_text;
pub mod feistel;
pub mod hex;
pub mod key_schedule;
pub mod matrix;
pub mod monoalphabetic;
pub mod playfair;
pub mod protocol;
pub mod rc4;
pub mod rc4_bortoli;
pub mod tables;
pub mod text;
pub mod text_cipher;
pub mod vigenere;
pub mod vigenere_bytes;
