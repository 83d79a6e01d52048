use cipherchat::bits::{pack, permute, rotate_left, unpack, word_to_bits};
use cipherchat::block::{crypt_bits, decrypt_block, encrypt_block, process, DESMode, DesError};
use cipherchat::cipher::Cipher;
use cipherchat::des::{from_be_bytes, to_be_bytes, DES};
use cipherchat::des_text::DES as HexDES;
use cipherchat::key_schedule::RoundKeySchedule;
use cipherchat::tables::{E, FP, IP, P, PC1, PC2, SBOXES, SHIFTS};
use cipherchat::text_cipher::Cipher as TextCipher;

fn schedule_bits(key: u64) -> Vec<Vec<bool>> {
    let s = RoundKeySchedule::derive(key);
    (0..s.len()).map(|i| s.subkey(i).clone()).collect()
}

#[test]
fn known_answer_vector() {
    assert_eq!(encrypt_block(0x0123456789ABCDEF, 0x133457799BBCDFF1), 0x85E813540F0AB405);
    assert_eq!(decrypt_block(0x85E813540F0AB405, 0x133457799BBCDFF1), 0x0123456789ABCDEF);
}

#[test]
fn round_trip_on_several_values() {
    let keys = [0u64, 1, 0x133457799BBCDFF1, 0xFFFF_FFFF_FFFF_FFFF, 0x0E329232EA6D0D73];
    let blocks = [0u64, 0x8000_0000_0000_0000, 0x0123456789ABCDEF, u64::MAX, 42];
    for &k in &keys {
        for &b in &blocks {
            assert_eq!(decrypt_block(encrypt_block(b, k), k), b);
        }
    }
}

#[test]
fn second_known_answer_vector() {
    assert_eq!(encrypt_block(0x8787878787878787, 0x0E329232EA6D0D73), 0);
}

#[test]
fn zero_key_and_zero_block() {
    let c = encrypt_block(0, 0);
    assert_eq!(c, 0x8CA64DE9C1B123A7);
    assert_ne!(c, 0);
    assert_eq!(decrypt_block(c, 0), 0);
    let mut d = DES { key: 0 };
    let bytes = Cipher::to_ciphertext(&mut d, &vec![0u8; 8]);
    assert_eq!(bytes, vec![0x8C, 0xA6, 0x4D, 0xE9, 0xC1, 0xB1, 0x23, 0xA7]);
    assert_eq!(Cipher::to_plaintext(&mut d, &bytes), vec![0u8; 8]);
    let mut h = HexDES::new("0");
    let text = TextCipher::to_ciphertext(&mut h, &"0".to_string());
    assert_eq!(text, "8CA64DE9C1B123A7");
    assert_eq!(TextCipher::to_plaintext(&mut h, &text), "0");
}

#[test]
fn same_block_twice_same_ciphertext() {
    let k = 0x133457799BBCDFF1;
    let first = encrypt_block(0x0123456789ABCDEF, k);
    let second = encrypt_block(0x0123456789ABCDEF, k);
    assert_eq!(first, second);
    let mut d = DES { key: k };
    let a = Cipher::to_ciphertext(&mut d, &vec![1, 2, 3, 4, 5, 6, 7, 8]);
    let b = Cipher::to_ciphertext(&mut d, &vec![1, 2, 3, 4, 5, 6, 7, 8]);
    assert_eq!(a, b);
}

#[test]
fn process_modes() {
    let k = 0x133457799BBCDFF1;
    assert_eq!(process(0x0123456789ABCDEF, k, DESMode::Cipher), 0x85E813540F0AB405);
    assert_eq!(process(0x85E813540F0AB405, k, DESMode::Decipher), 0x0123456789ABCDEF);
}

#[test]
fn schedule_is_deterministic_and_shaped() {
    let a = schedule_bits(0x133457799BBCDFF1);
    let b = schedule_bits(0x133457799BBCDFF1);
    assert_eq!(a, b);
    assert_eq!(a.len(), 16);
    assert!(a.iter().all(|k| k.len() == 48));
    // K1 of the textbook example: 000110 110000 001011 101111 111111 000111 000001 110010
    let k1: Vec<bool> = "000110110000001011101111111111000111000001110010"
        .chars()
        .map(|c| c == '1')
        .collect();
    assert_eq!(a[0], k1);
}

#[test]
fn flipping_an_effective_key_bit_changes_the_schedule() {
    let key: u64 = 0x133457799BBCDFF1;
    let base = schedule_bits(key);
    for pos in 1..=64u32 {
        let flipped = key ^ (1u64 << (64 - pos));
        let other = schedule_bits(flipped);
        if pos % 8 == 0 {
            assert_eq!(base, other, "parity bit {}", pos);
        } else {
            assert_ne!(base, other, "effective bit {}", pos);
        }
    }
}

fn is_permutation(t: &[u8], n: u8) -> bool {
    let mut seen = vec![false; n as usize + 1];
    t.len() == n as usize
        && t.iter().all(|&p| {
            if p == 0 || p > n || seen[p as usize] {
                false
            } else {
                seen[p as usize] = true;
                true
            }
        })
}

fn distinct_within(t: &[u8], n: u8) -> bool {
    let mut seen = vec![false; n as usize + 1];
    t.iter().all(|&p| {
        if p == 0 || p > n || seen[p as usize] {
            false
        } else {
            seen[p as usize] = true;
            true
        }
    })
}

#[test]
fn table_shapes() {
    assert!(is_permutation(&IP, 64));
    assert!(is_permutation(&FP, 64));
    for k in 0..64 {
        assert_eq!(FP[IP[k] as usize - 1] as usize, k + 1);
    }
    assert_eq!(E.len(), 48);
    assert!(E.iter().all(|&p| (1..=32).contains(&p)));
    assert!(is_permutation(&P, 32));
    assert_eq!(PC1.len(), 56);
    assert!(distinct_within(&PC1, 64));
    assert!(PC1.iter().all(|&p| p % 8 != 0));
    assert_eq!(PC2.len(), 48);
    assert!(distinct_within(&PC2, 56));
    assert_eq!(SHIFTS.iter().map(|&s| s as u32).sum::<u32>(), 28);
}

#[test]
fn sbox_values_are_four_bits() {
    assert_eq!(SBOXES.len(), 512);
    for g in 0..8 {
        for input in 0..64usize {
            let row = ((input >> 4) & 2) | (input & 1);
            let col = (input >> 1) & 15;
            assert!(SBOXES[64 * g + 16 * row + col] <= 15);
        }
        for row in 0..4 {
            let mut seen = [false; 16];
            for col in 0..16 {
                seen[SBOXES[64 * g + 16 * row + col] as usize] = true;
            }
            assert!(seen.iter().all(|&b| b));
        }
    }
}

#[test]
fn pack_and_unpack() {
    let bits = pack(&[0xA5, 0x01]);
    let expected: Vec<bool> = "1010010100000001".chars().map(|c| c == '1').collect();
    assert_eq!(bits, expected);
    assert_eq!(unpack(&bits), Some(vec![0xA5, 0x01]));
    assert_eq!(unpack(&vec![true, false, true]), None);
    assert_eq!(unpack(&Vec::new()), Some(Vec::new()));
}

#[test]
fn permute_with_repeats_and_rotation() {
    let src: Vec<bool> = "1000".chars().map(|c| c == '1').collect();
    assert_eq!(permute(&src, &[1, 1, 4, 2, 1]), vec![true, true, false, false, true]);
    let half: Vec<bool> = "1100000000000000000000000001".chars().map(|c| c == '1').collect();
    let rotated: Vec<bool> = "1000000000000000000000000011".chars().map(|c| c == '1').collect();
    assert_eq!(rotate_left(&half, 1), rotated);
    assert_eq!(rotate_left(&half, 28), half);
}

#[test]
fn big_endian_bytes() {
    assert_eq!(from_be_bytes(&[0x01, 0x23, 0x45, 0x67, 0x89, 0xAB, 0xCD, 0xEF]), 0x0123456789ABCDEF);
    assert_eq!(to_be_bytes(0x85E813540F0AB405), vec![0x85, 0xE8, 0x13, 0x54, 0x0F, 0x0A, 0xB4, 0x05]);
}

#[test]
fn byte_interface() {
    let mut d = DES::new(&vec![0x13, 0x34, 0x57, 0x79, 0x9B, 0xBC, 0xDF, 0xF1]);
    assert_eq!(d.key, 0x133457799BBCDFF1);
    let c = Cipher::to_ciphertext(&mut d, &vec![0x01, 0x23, 0x45, 0x67, 0x89, 0xAB, 0xCD, 0xEF]);
    assert_eq!(c, vec![0x85, 0xE8, 0x13, 0x54, 0x0F, 0x0A, 0xB4, 0x05]);
    assert_eq!(Cipher::to_plaintext(&mut d, &c), vec![0x01, 0x23, 0x45, 0x67, 0x89, 0xAB, 0xCD, 0xEF]);
    assert!(matches!(DES::try_new(&vec![0x13, 0x34]), Err(DesError::InvalidKeyLength)));
    assert!(matches!(DES::try_new(&vec![0; 9]), Err(DesError::InvalidKeyLength)));
    assert_eq!(DES::vec_to_array(&vec![1, 2, 3]), [1, 2, 3, 0, 0, 0, 0, 0]);
    assert_eq!(d.encrypt_bytes(&vec![1, 2, 3]), Err(DesError::InvalidBlockLength));
    assert_eq!(d.decrypt_bytes(&vec![0; 16]), Err(DesError::InvalidBlockLength));
    assert_eq!(Cipher::to_ciphertext(&mut d, &vec![1, 2, 3]), Vec::<u8>::new());
    assert_eq!(Cipher::to_plaintext(&mut d, &vec![]), Vec::<u8>::new());
    assert_eq!(d.key, 0x133457799BBCDFF1);
}

#[test]
fn hex_interface() {
    assert_eq!(HexDES::interpret_string_as_64_bit_hex("0x133457799BBCDFF1"), Some(0x133457799BBCDFF1));
    assert_eq!(HexDES::interpret_string_as_64_bit_hex("0X00ff"), Some(255));
    assert_eq!(HexDES::interpret_string_as_64_bit_hex("+1f"), Some(31));
    assert_eq!(HexDES::interpret_string_as_64_bit_hex("ffffffffffffffff"), Some(u64::MAX));
    assert_eq!(HexDES::interpret_string_as_64_bit_hex("10000000000000000"), None);
    assert_eq!(HexDES::interpret_string_as_64_bit_hex("0x"), None);
    assert_eq!(HexDES::interpret_string_as_64_bit_hex("12g4"), None);
    assert_eq!(HexDES::interpret_string_as_64_bit_hex("0000000000000000001"), None);
    let mut d = HexDES::new("0x133457799BBCDFF1");
    assert_eq!(d.key, 0x133457799BBCDFF1);
    let c = TextCipher::to_ciphertext(&mut d, &"0123456789ABCDEF".to_string());
    assert_eq!(c, "85E813540F0AB405");
    let p = TextCipher::to_plaintext(&mut d, &c);
    assert_eq!(p, "123456789ABCDEF");
    assert_eq!(TextCipher::to_ciphertext(&mut d, &"xyz".to_string()), "");
    assert_eq!(d.key, 0x133457799BBCDFF1);
    assert!(HexDES::try_new("not hex").is_none());
    assert_eq!(HexDES { key: 0 }.process_hex("0", DESMode::Cipher), Some("8CA64DE9C1B123A7".to_string()));
    assert_eq!(d.process_hex("", DESMode::Decipher), None);
}

#[test]
fn bit_interface_errors_and_result() {
    let key = word_to_bits(0x133457799BBCDFF1);
    let block = word_to_bits(0x0123456789ABCDEF);
    assert_eq!(crypt_bits(&block, &key, DESMode::Cipher), Ok(word_to_bits(0x85E813540F0AB405)));
    let short_key: Vec<bool> = key[..56].to_vec();
    assert_eq!(crypt_bits(&block, &short_key, DESMode::Cipher), Err(DesError::InvalidKeyLength));
    let long_block: Vec<bool> = block.iter().copied().chain([true]).collect();
    assert_eq!(crypt_bits(&long_block, &key, DESMode::Decipher), Err(DesError::InvalidBlockLength));
    assert_eq!(crypt_bits(&long_block, &short_key, DESMode::Cipher), Err(DesError::InvalidKeyLength));
}

#[test]
fn parity_bits_do_not_matter() {
    let k = 0x133457799BBCDFF1u64;
    let other = k ^ 0x0101_0101_0101_0101;
    assert_eq!(schedule_bits(k), schedule_bits(other));
    assert_eq!(encrypt_block(0x0123456789ABCDEF, other), 0x85E813540F0AB405);
    let mut a = DES { key: k };
    let mut b = DES { key: k ^ 0x0100_0000_0000_0001 };
    let p = vec![9, 8, 7, 6, 5, 4, 3, 2];
    assert_eq!(Cipher::to_ciphertext(&mut a, &p), Cipher::to_ciphertext(&mut b, &p));
    assert_ne!(encrypt_block(0x0123456789ABCDEF, k ^ 0x0200_0000_0000_0000), 0x85E813540F0AB405);
}

#[test]
fn byte_and_hex_round_trip() {
    for &k in &[0u64, 0x133457799BBCDFF1, u64::MAX] {
        for &b in &[0u64, 1, 0x0123456789ABCDEF, u64::MAX] {
            let mut d = DES { key: k };
            let c = Cipher::to_ciphertext(&mut d, &b.to_be_bytes().to_vec());
            assert_eq!(c.len(), 8);
            assert_eq!(Cipher::to_plaintext(&mut d, &c), b.to_be_bytes().to_vec());
            let mut h = HexDES { key: k };
            let t = TextCipher::to_ciphertext(&mut h, &format!("{:X}", b));
            assert_eq!(TextCipher::to_plaintext(&mut h, &t), format!("{:X}", b));
        }
    }
}
