use cipherchat::rc4::Rc4;
use cipherchat::rc4_bortoli::Rc4Bortoli;
use cipherchat::text_cipher::Cipher;

#[test]
fn test_rc4_case1() {
    let key = "D&Ot)[YW";
    let plaintext = "Cybersecurity melhor disciplina do curso.";
    let expected_cipher = [
        214, 32, 110, 109, 116, 251, 159, 133, 226, 76, 193, 253, 168, 73, 65, 197, 82, 72, 93, 68, 250, 55, 28, 202, 59, 77, 186, 27, 97, 24, 48, 54, 106, 38, 82, 214, 222, 20, 20, 13, 251
    ];
    let mut rc4 = Rc4::new(key.to_string());
    let cipher = rc4.process(plaintext.to_owned());
    assert_eq!(cipher, expected_cipher);
}

#[test]
fn test_rc4_case2() {
    let key = "$@C*9)6C{4^dXNw>H#W,be/\\'L2pM8r;JY?x}B]@A`T!q?iO`=n.Lgm(3z8@S[u]dY1k|%RI!MP-(FtZl&^3:jnK<TG6[5Jw}";
    let plaintext = "Cybersecurity melhor disciplina do curso.";
    let expected_cipher = [
        84, 179, 117, 15, 203, 82, 18, 217, 141, 197, 213, 126, 47, 255, 83, 83, 99, 47, 120, 247, 192, 203, 33, 247, 220, 192, 213, 82, 241, 248, 166, 142, 129, 105, 50, 227, 178, 74, 181, 144, 94
    ];
    let mut rc4 = Rc4::new(key.to_string());
    let cipher = rc4.process(plaintext.to_owned());
    assert_eq!(cipher, expected_cipher);
}

#[test]
fn test_rc4_case3() {
    let key = "!M|7s]u^{DFj^?8+fL:0Z!*%1P_3B}9m~V0@H^Qf7y&Z4Wb>kS^T<d.$.pL@R|g)x)-6(E&h%T-}(W%z{U9mZz8~m8BfP!c&@k7I\\5I~T_vD!4A>|oO[}3*T|$?e~0]V5&y@r1X2k+@T]j?|2|Q%}R,D)Up\\8gM;W}|7eNFk^t.h/j;6#y-!t5)\\^LJ[7S<4A,f$Ks1|&sX!w*G(Z@i>jE>6~]oA5]k'.:o=7n9h)$J_!aB{N-Jb1M}NzD\\*h";
    let plaintext = "Cybersecurity melhor disciplina do curso.";
    let expected_cipher = [
        192, 115, 138, 155, 179, 72, 115, 33, 116, 105, 228, 122, 36, 92, 74, 122, 123, 245, 202, 209, 214, 199, 4, 191, 90, 96, 21, 15, 190, 222, 47, 58, 192, 192, 43, 10, 166, 63, 58, 96, 230
    ];
    let mut rc4 = Rc4::new(key.to_string());
    let cipher = rc4.process(plaintext.to_owned());
    assert_eq!(cipher, expected_cipher);
}

#[test]
fn test_rc4bortoli_case1() {
    let key = "D&Ot)[YW";
    let plaintext = "Cybersecurity melhor disciplina do curso.";
    let expected_cipher = [
        214, 32, 110, 109, 116, 251, 159, 133, 226, 76, 193, 253, 168, 73, 65, 197, 82, 72, 93,
        68, 250, 55, 28, 202, 59, 77, 186, 27, 97, 24, 48, 54, 106, 38, 82, 214, 222, 20, 20,
        13, 251,
    ];
    let mut rc4 = Rc4Bortoli::new(key.to_string());
    let ciphered = plaintext
        .as_bytes()
        .iter()
        .map(|b| rc4.process_single(*b))
        .collect::<Vec<u8>>();
    assert_eq!(ciphered, expected_cipher);
}

#[test]
fn test_rc4bortoli_case2() {
    let key = "$@C*9)6C{4^dXNw>H#W,be/\\'L2pM8r;JY?x}B]@A`T!q?iO`=n.Lgm(3z8@S[u]dY1k|%RI!MP-(FtZl&^3:jnK<TG6[5Jw}";
    let plaintext = "Cybersecurity melhor disciplina do curso.";
    let expected_cipher = [
        84, 179, 117, 15, 203, 82, 18, 217, 141, 197, 213, 126, 47, 255, 83, 83, 99, 47, 120,
        247, 192, 203, 33, 247, 220, 192, 213, 82, 241, 248, 166, 142, 129, 105, 50, 227, 178,
        74, 181, 144, 94,
    ];
    let mut rc4 = Rc4Bortoli::new(key.to_string());
    let ciphered = plaintext
        .as_bytes()
        .iter()
        .map(|b| rc4.process_single(*b))
        .collect::<Vec<u8>>();
    assert_eq!(ciphered, expected_cipher);
}

#[test]
fn test_rc4bortoli_case3() {
    let key = "!M|7s]u^{DFj^?8+fL:0Z!*%1P_3B}9m~V0@H^Qf7y&Z4Wb>kS^T<d.$.pL@R|g)x)-6(E&h%T-}(W%z{U9mZz8~m8BfP!c&@k7I\\5I~T_vD!4A>|oO[}3*T|$?e~0]V5&y@r1X2k+@T]j?|2|Q%}R,D)Up\\8gM;W}|7eNFk^t.h/j;6#y-!t5)\\^LJ[7S<4A,f$Ks1|&sX!w*G(Z@i>jE>6~]oA5]k'.:o=7n9h)$J_!aB{N-Jb1M}NzD\\*h";
    let plaintext = "Cybersecurity melhor disciplina do curso.";
    let expected_cipher = [
        192, 115, 138, 155, 179, 72, 115, 33, 116, 105, 228, 122, 36, 92, 74, 122, 123, 245,
        202, 209, 214, 199, 4, 191, 90, 96, 21, 15, 190, 222, 47, 58, 192, 192, 43, 10, 166,
        63, 58, 96, 230,
    ];
    let mut rc4 = Rc4Bortoli::new(key.to_string());
    let ciphered = plaintext
        .as_bytes()
        .iter()
        .map(|b| rc4.process_single(*b))
        .collect::<Vec<u8>>();
    assert_eq!(ciphered, expected_cipher);
}

#[test]
fn rc4_empty_plaintext_gives_empty_output() {
    let mut rc4 = Rc4::new("Key".to_string());
    assert_eq!(rc4.process(String::new()), Vec::<u8>::new());
}

#[test]
fn rc4_wikipedia_vectors() {
    let mut rc4 = Rc4::new("Key".to_string());
    assert_eq!(rc4.process("Plaintext".to_string()), vec![0xBB, 0xF3, 0x16, 0xE8, 0xD9, 0x40, 0xAF, 0x0A, 0xD3]);
    let mut rc4 = Rc4::new("Wiki".to_string());
    assert_eq!(rc4.process("pedia".to_string()), vec![0x10, 0x21, 0xBF, 0x04, 0x20]);
}

#[test]
fn rc4_keystream_continues_across_calls() {
    let mut whole = Rc4::new("Secret".to_string());
    let all = whole.process("Attack at dawn".to_string());
    let mut split = Rc4::new("Secret".to_string());
    let mut parts = split.process("Attack".to_string());
    parts.extend(split.process(" at dawn".to_string()));
    assert_eq!(all, parts);
}

#[test]
fn rc4_round_trip_and_decimal_text() {
    let mut enc = Rc4::new("Key".to_string());
    let text = enc.to_ciphertext(&"Plaintext".to_string());
    assert_eq!(text, "187 243 22 232 217 64 175 10 211");
    let mut a = Rc4::new("k".to_string());
    let c = a.process_bytes(b"hello");
    let mut b = Rc4::new("k".to_string());
    assert_eq!(b.process_bytes(&c), b"hello".to_vec());
}

#[test]
fn rc4_variants_agree() {
    let mut a = Rc4::new("D&Ot)[YW".to_string());
    let mut b = Rc4Bortoli::new("D&Ot)[YW".to_string());
    let x = a.process_bytes(b"some bytes here");
    let y = b.process_bytes(b"some bytes here");
    assert_eq!(x, y);
}

#[test]
fn rc4bortoli_reset_restores_permutation() {
    let mut fresh = Rc4Bortoli::new("Key".to_string());
    let mut used = Rc4Bortoli::new("Key".to_string());
    used.process_single(1);
    used.reset();
    // the indices stay where they were, so the next byte differs from a fresh start
    let a = fresh.process_single(0);
    let b = used.process_single(0);
    assert_eq!(a, 0xEB);
    assert_ne!(a, b);
}

#[test]
fn rc4bortoli_text_round_trip() {
    let mut enc = Rc4Bortoli::new("Key".to_string());
    let mut dec = Rc4Bortoli::new("Key".to_string());
    let c = enc.to_ciphertext(&"abc".to_string());
    let mut raw = Rc4Bortoli::new("Key".to_string());
    let bytes_out = raw.process_bytes(b"abc");
    assert_eq!(c, String::from_utf8_lossy(&bytes_out));
    assert_ne!(c, "abc");
    let bytes = dec.process_bytes(&[0xBB]);
    assert_eq!(bytes, vec![b'P']);
}

#[test]
fn rc4_swap_exchanges_entries() {
    let mut v = vec![1u8, 2, 3];
    Rc4::swap(&mut v, 0, 2);
    assert_eq!(v, vec![3, 2, 1]);
    Rc4::swap(&mut v, 1, 1);
    assert_eq!(v, vec![3, 2, 1]);
}
