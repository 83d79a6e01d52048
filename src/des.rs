//! The block cipher behind the byte-oriented `Cipher` interface: a key and a
//! block are each exactly eight bytes, read big-endian.
use crate::bits::{
    bits_to_word, bits_value, lemma_pack_unpack, lemma_unpack_pack, lemma_value_word_bits,
    lemma_word_bits_value, pack, pack_spec, unpack, unpack_spec, word_bits, word_to_bits,
};
use crate::block::{decrypt_spec, encrypt_spec, lemma_round_trip, process, DESMode, DesError};
use crate::cipher::Cipher;
use vstd::prelude::*;

verus! {

/// The first eight bytes of `v`, padded with zero bytes where `v` is shorter.
pub open spec fn first_eight(v: Seq<u8>) -> Seq<u8> {
    Seq::new(8, |i: int| if i < v.len() { v[i] } else { 0u8 })
}

/// The number that eight bytes write, most significant byte first.
pub open spec fn be_value(b: Seq<u8>) -> u64 {
    bits_value(pack_spec(b)) as u64
}

/// The eight bytes of a word, most significant first.
pub open spec fn be_bytes(x: u64) -> Seq<u8> {
    unpack_spec(word_bits(x))
}

/// What the byte interface gives for `data` under `key` in `mode`: the
/// eight bytes of the processed block, or `InvalidBlockLength` where `data`
/// is not eight bytes long.
pub open spec fn bytes_spec(data: Seq<u8>, key: u64, mode: DESMode) -> Result<Seq<u8>, DesError> {
    if data.len() != 8 {
        Err(DesError::InvalidBlockLength)
    } else {
        Ok(
            be_bytes(
                match mode {
                    DESMode::Cipher => encrypt_spec(be_value(data), key),
                    DESMode::Decipher => decrypt_spec(be_value(data), key),
                },
            ),
        )
    }
}

/// What the `Cipher` methods return: the processed block, or nothing where
/// the input is not one block.
pub open spec fn cipher_output(data: Seq<u8>, key: u64, mode: DESMode) -> Seq<u8> {
    match bytes_spec(data, key, mode) {
        Ok(v) => v,
        Err(_) => Seq::empty(),
    }
}

/// Reading the eight bytes of a word gives the word back.
pub proof fn lemma_be_value_bytes(x: u64)
    ensures
        be_bytes(x).len() == 8,
        be_value(be_bytes(x)) == x,
{
    lemma_pack_unpack(word_bits(x));
    lemma_word_bits_value(x);
}

/// The eight bytes of the word that eight bytes write are those bytes.
pub proof fn lemma_be_bytes_value(b: Seq<u8>)
    requires
        b.len() == 8,
    ensures
        be_bytes(be_value(b)) == b,
{
    lemma_value_word_bits(pack_spec(b));
    lemma_unpack_pack(b);
}

/// Through the byte interface, decrypting the ciphertext of an eight-byte
/// block under the same key gives the block back, for every key.
pub proof fn lemma_byte_round_trip(block: Seq<u8>, key: u64)
    requires
        block.len() == 8,
    ensures
        cipher_output(block, key, DESMode::Cipher).len() == 8,
        cipher_output(cipher_output(block, key, DESMode::Cipher), key, DESMode::Decipher) == block,
{
    let b = be_value(block);
    let c = encrypt_spec(b, key);
    lemma_be_value_bytes(c);
    lemma_round_trip(b, key);
    lemma_be_bytes_value(block);
}

/// A block cipher keyed by one 64-bit key.
pub struct DES {
    pub key: u64,
}

impl DES {
    /// The cipher keyed by eight key bytes, big-endian; `InvalidKeyLength`
    /// where `key` is not eight bytes long.
    pub fn try_new(key: &Vec<u8>) -> (r: Result<Self, DesError>)
        ensures
            key@.len() != 8 <==> r is Err,
            r matches Err(e) ==> e == DesError::InvalidKeyLength,
            r matches Ok(d) ==> d.key == be_value(key@),
    {
        if key.len() != 8 {
            return Err(DesError::InvalidKeyLength);
        }
        let bytes = DES::vec_to_array(key);
        assert(bytes@ =~= key@);
        Ok(DES { key: from_be_bytes(&bytes) })
    }

    /// The cipher keyed by eight key bytes, big-endian.
    pub fn new(key: &Vec<u8>) -> (r: Self)
        requires
            key@.len() == 8,
        ensures
            r.key == be_value(key@),
    {
        match DES::try_new(key) {
            Ok(d) => d,
            Err(_) => {
                assert(false);
                DES { key: 0 }
            },
        }
    }

    /// The first eight bytes of `vec`, zero-padded.
    pub fn vec_to_array(vec: &Vec<u8>) -> (r: [u8; 8])
        ensures
            r@ == first_eight(vec@),
    {
        let mut array: [u8; 8] = [0; 8];
        let mut i: usize = 0;
        while i < 8 && i < vec.len()
            invariant
                i <= 8,
                i <= vec@.len(),
                forall|k: int| 0 <= k < i ==> array@[k] == vec@[k],
                forall|k: int| i <= k < 8 ==> array@[k] == 0,
            decreases 8 - i,
        {
            array[i] = vec[i];
            i = i + 1;
        }
        assert(array@ =~= first_eight(vec@));
        array
    }

    /// Encrypts (`Cipher`) or decrypts (`Decipher`) one eight-byte block;
    /// `InvalidBlockLength` where `data` is not eight bytes long.
    pub fn process_bytes(&self, data: &Vec<u8>, mode: DESMode) -> (r: Result<Vec<u8>, DesError>)
        ensures
            r matches Ok(v) ==> bytes_spec(data@, self.key, mode) == Ok::<Seq<u8>, DesError>(v@),
            r matches Err(e) ==> bytes_spec(data@, self.key, mode) == Err::<Seq<u8>, DesError>(e),
    {
        if data.len() != 8 {
            return Err(DesError::InvalidBlockLength);
        }
        let bytes = DES::vec_to_array(data);
        assert(bytes@ =~= data@);
        let input = from_be_bytes(&bytes);
        Ok(to_be_bytes(process(input, self.key, mode)))
    }

    /// The ciphertext block of an eight-byte plaintext block.
    pub fn encrypt_bytes(&self, plaintext: &Vec<u8>) -> (r: Result<Vec<u8>, DesError>)
        ensures
            r matches Ok(v) ==> bytes_spec(plaintext@, self.key, DESMode::Cipher) == Ok::<
                Seq<u8>,
                DesError,
            >(v@),
            r matches Err(e) ==> bytes_spec(plaintext@, self.key, DESMode::Cipher) == Err::<
                Seq<u8>,
                DesError,
            >(e),
    {
        self.process_bytes(plaintext, DESMode::Cipher)
    }

    /// The plaintext block of an eight-byte ciphertext block.
    pub fn decrypt_bytes(&self, ciphertext: &Vec<u8>) -> (r: Result<Vec<u8>, DesError>)
        ensures
            r matches Ok(v) ==> bytes_spec(ciphertext@, self.key, DESMode::Decipher) == Ok::<
                Seq<u8>,
                DesError,
            >(v@),
            r matches Err(e) ==> bytes_spec(ciphertext@, self.key, DESMode::Decipher) == Err::<
                Seq<u8>,
                DesError,
            >(e),
    {
        self.process_bytes(ciphertext, DESMode::Decipher)
    }
}

impl Cipher for DES {
    /// The ciphertext of an eight-byte block; the interface has no error
    /// value, so input that is not one block gives an empty result
    /// (`encrypt_bytes` reports `InvalidBlockLength` instead).
    fn to_ciphertext(&mut self, plaintext: &Vec<u8>) -> (r: Vec<u8>)
        ensures
            r@ == cipher_output(plaintext@, old(self).key, DESMode::Cipher),
            final(self).key == old(self).key,
    {
        match self.encrypt_bytes(plaintext) {
            Ok(v) => v,
            Err(_) => Vec::new(),
        }
    }

    /// The plaintext of an eight-byte block; input that is not one block
    /// gives an empty result (`decrypt_bytes` reports `InvalidBlockLength`).
    fn to_plaintext(&mut self, ciphertext: &Vec<u8>) -> (r: Vec<u8>)
        ensures
            r@ == cipher_output(ciphertext@, old(self).key, DESMode::Decipher),
            final(self).key == old(self).key,
    {
        match self.decrypt_bytes(ciphertext) {
            Ok(v) => v,
            Err(_) => Vec::new(),
        }
    }
}

/// The word that eight bytes write, most significant byte first.
pub fn from_be_bytes(bytes: &[u8; 8]) -> (r: u64)
    ensures
        r == be_value(bytes@),
{
    let bits = pack(bytes);
    bits_to_word(&bits)
}

/// The eight bytes of `x`, most significant first.
pub fn to_be_bytes(x: u64) -> (r: Vec<u8>)
    ensures
        r@ == be_bytes(x),
        r@.len() == 8,
{
    let bits = word_to_bits(x);
    match unpack(&bits) {
        Some(v) => v,
        None => Vec::new(),
    }
}

} // verus!
