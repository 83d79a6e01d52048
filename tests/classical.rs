use cipherchat::cesar::Cesar;
use cipherchat::monoalphabetic::Monoalphabetic;
use cipherchat::text_cipher::Cipher;
use cipherchat::vigenere::Vigenere;

#[test]
fn cipher_classic_example() {
    let mut v = Cesar::new(3);
    let cipher = v.to_ciphertext(&"EVIDENCIAS".to_string());
    assert_eq!(cipher, "HYLGHQFLDV");
    let plain = v.to_plaintext(&cipher);
    assert_eq!(plain, "EVIDENCIAS");
}

#[test]
fn monoalphabetic_classic_example() {
    let mut v = Monoalphabetic::new("CTOGDRHZBFUYLKNEAJWMQPXSIV".to_string());
    let cipher = v.to_ciphertext(&"ATHLETICO".to_string());
    assert_eq!(cipher, "CMZYDMBON");
    let plain = v.to_plaintext(&cipher);
    assert_eq!(plain, "ATHLETICO");
}

#[test]
fn vigenere_classic_example() {
    // TEXT: ATTACKATDAWN, KEY: LEMON -> LXFOPVEFRNHR
    let mut v = Vigenere::new("LEMON".to_string());
    let cipher = v.to_ciphertext(&"ATTACKATDAWN".to_string());
    assert_eq!(cipher, "LXFOPVEFRNHR");
    let plain = v.to_plaintext(&cipher);
    assert_eq!(plain, "ATTACKATDAWN");
}

#[test]
fn cipher_mixed_case_and_spaces() {
    let mut v = Vigenere::new("LeMon".to_string());
    let cipher = v.to_ciphertext(&"Attack at Dawn!".to_string());
    // round trip only
    let mut v2 = Vigenere::new("LEMON".to_string());
    let plain = v2.to_plaintext(&cipher);
    assert_eq!(plain, "Attack at Dawn!");
}

#[test]
fn cesar_keeps_case_and_other_characters() {
    let c = Cesar::new(3);
    assert_eq!(c.process("xyz XYZ, ação!", true), "abc ABC, dçãr!");
    assert_eq!(c.encrypt(&"Hello".to_string()), "Khoor");
    assert_eq!(c.decrypt(&"Khoor".to_string()), "Hello");
}

#[test]
fn cesar_extreme_keys() {
    let c = Cesar::new(-128);
    let e = c.process("abcz", true);
    assert_eq!(e, "cdeb");
    assert_eq!(c.process(&e, false), "abcz");
    let d = Cesar::new(127);
    assert_eq!(d.process("A", true), "X");
    assert_eq!(Cesar::new(26).process("Same", true), "Same");
}

#[test]
fn vigenere_mixed_case_exact() {
    let v = Vigenere::new("LeMon".to_string());
    assert_eq!(v.process("Attack at Dawn!", true), "Lxfopv ef Rnhr!");
    assert_eq!(v.process("Lxfopv ef Rnhr!", false), "Attack at Dawn!");
    let k = Vigenere::new("b-1".to_string());
    assert_eq!(k.process("aaa", true), "bbb");
    assert!(Vigenere::try_new("123 !".to_string()).is_none());
}

#[test]
fn monoalphabetic_keeps_case_and_dedups_key() {
    let m = Monoalphabetic::new("CCTOGDRHZBFUYLKNEAJWMQPXSIV".to_string());
    assert_eq!(m.process("Athletico 1!", true), "Cmzydmbon 1!");
    assert_eq!(m.process("Cmzydmbon 1!", false), "Athletico 1!");
    assert!(Monoalphabetic::try_new("ABC".to_string()).is_none());
    assert!(Monoalphabetic::try_new("zyxwvutsrqponmlkjihgfedcba".to_string()).is_some());
}
