use cipherchat::cesar_bytes::Cesar;
use cipherchat::cipher::Cipher;
use cipherchat::matrix::KeyMatrix;
use cipherchat::playfair::Playfair;
use cipherchat::vigenere_bytes::Vigenere;

#[test]
fn classic_example() {
    let mut v = Cesar::new(3);
    let cipher = v.to_ciphertext(&"EVIDENCIAS fff".as_bytes().to_vec());
    assert_eq!(cipher, "HYLGHQFLDV iii".as_bytes().to_vec());
    let plain = v.to_plaintext(&cipher);
    assert_eq!(plain, "EVIDENCIAS fff".as_bytes().to_vec());
}

#[test]
fn vigenere_bytes_classic_example() {
    // TEXT: ATTACKATDAWN, KEY: LEMON -> LXFOPVEFRNHR
    let mut v = Vigenere::new("LEMON".to_string());
    let cipher = v.to_ciphertext(&"ATTACKATDAWN".as_bytes().to_vec());
    assert_eq!(cipher, "LXFOPVEFRNHR".as_bytes().to_vec());
    let plain = v.to_plaintext(&cipher);
    assert_eq!(plain, "ATTACKATDAWN".as_bytes().to_vec());
}

#[test]
fn mixed_case_and_spaces() {
    let mut v = Vigenere::new("LeMon".to_string());
    let cipher = v.to_ciphertext(&"Attack at Dawn!".as_bytes().to_vec());
    // round trip only
    let mut v2 = Vigenere::new("LEMON".to_string());
    let plain = v2.to_plaintext(&cipher);
    assert_eq!(plain, "Attack at Dawn!".as_bytes().to_vec());
}

#[test]
fn key_matrix_igual_ao_pdf() {
    let matrix = KeyMatrix::new("INFORMATICA".to_string());
    eprintln_matrix(&matrix);
    assert_eq!(
        matrix.letters(),
        "JNFORMATCBDEGHKLPQSUVWXYZ".chars().collect::<Vec<char>>()
    )
}

#[test]
fn key_matrix_filtros_caracteres() {
    let matrix = KeyMatrix::new("infoR175**'':::  4234 23MATICAAAAAAAAAAAAAA".to_string());
    eprintln_matrix(&matrix);
    assert_eq!(
        matrix.letters(),
        "JNFORMATCBDEGHKLPQSUVWXYZ".chars().collect::<Vec<char>>()
    )
}

fn eprintln_matrix(m: &KeyMatrix) {
    println!("{}", m.to_display_string());
}

#[test]
fn key_matrix_display() {
    let m = KeyMatrix::new("Key".to_string());
    assert_eq!(
        m.to_display_string(),
        "Chave original: Key\nK E Y A B \nC D F G H \nJ L M N O \nP Q R S T \nU V W X Z \n"
    );
}

#[test]
fn key_matrix_positions() {
    let m = KeyMatrix::new("INFORMATICA".to_string());
    let p = m.get_position('i');
    assert_eq!((p.row, p.column), (0, 0));
    let q = m.get_position('z');
    assert_eq!((q.row, q.column), (4, 4));
    assert_eq!(m.get_char(&q), 'Z');
    let e = KeyMatrix::new(String::new());
    assert_eq!(e.letters(), "ABCDEFGHJKLMNOPQRSTUVWXYZ".chars().collect::<Vec<char>>());
}

#[test]
fn input_explode() {
    let digraphs =
        Playfair::prepare_plaintext_input(&"AULADESEGURANCADAINFORMACAO".as_bytes().to_vec());

    assert_eq!(
        digraphs,
        [
            ['A', 'U'],
            ['L', 'A'],
            ['D', 'E'],
            ['S', 'E'],
            ['G', 'U'],
            ['R', 'A'],
            ['N', 'C'],
            ['A', 'D'],
            ['A', 'J'], // I read as J
            ['N', 'F'],
            ['O', 'R'],
            ['M', 'A'],
            ['C', 'A'],
            ['O', 'X'] // padding X
        ]
    );

    assert_eq!(
        Playfair::prepare_plaintext_input(&"SECRET MESSAGE".as_bytes().to_vec()),
        [
            ['S', 'E'],
            ['C', 'R'],
            ['E', 'T'],
            ['M', 'E'],
            ['S', 'X'], // X between SS
            ['S', 'A'],
            ['G', 'E']
        ]
    );
}

#[test]
fn cipher_and_back() {
    let mut cipher = Playfair::new("Aula de Seguranca da Informacao".to_string());
    let ciphered = cipher.to_ciphertext(
        &"Bomba Nuclear no Rio de Janeiro  xxxxdoisxxxmilxxxvintexxxseis"
            .as_bytes()
            .to_vec(), // digits are not letters
    );

    println!("Matrix: {}", KeyMatrix::new("Aula de Seguranca da Informacao".to_string()).to_display_string());
    println!("Ciphered: {:?}", ciphered);
    let deciphered = cipher.to_plaintext(&ciphered);
    println!("Deciphered: {:?}", deciphered);

    assert_eq!(
        deciphered,
        "BOMBANUCLEARNORJODEJANEJROXXXXXXXDOJSXXXXXMJLXXXXXVJNTEXXXXXSEJS"
            .as_bytes()
            .to_vec()
    );
}

#[test]
fn playfair_rules_on_a_known_matrix() {
    // matrix of "INFORMATICA": J N F O R / M A T C B / D E G H K / L P Q S U / V W X Y Z
    let p = Playfair::new("INFORMATICA".to_string());
    // same row: move right; same column: move down; otherwise swap columns
    assert_eq!(p.encipher(&b"JN".to_vec()), b"NF".to_vec());
    assert_eq!(p.encipher(&b"JM".to_vec()), b"MD".to_vec());
    assert_eq!(p.encipher(&b"JA".to_vec()), b"NM".to_vec());
    assert_eq!(p.encipher(&b"RZ".to_vec()), b"BR".to_vec());
    assert_eq!(p.decipher(&b"NF".to_vec()), Some(b"JN".to_vec()));
    assert_eq!(p.decipher(&b"ABC".to_vec()), None);
}

#[test]
fn prepare_cipher_input_checks_length() {
    assert_eq!(Playfair::prepare_cipher_input(&b"ABC".to_vec()), None);
    assert_eq!(Playfair::prepare_cipher_input(&b"ab i?".to_vec().into_iter().chain([b'c']).collect()), Some(vec![['A', 'B'], ['J', 'C']]));
    let mut p = Playfair::new("KEY".to_string());
    assert_eq!(p.to_plaintext(&b"ABC".to_vec()), Vec::<u8>::new());
}

#[test]
fn explode_text_input() {
    assert_eq!(
        Playfair::explode_input(&"Secret message, ok".to_string()),
        vec![['S', 'E'], ['C', 'R'], ['E', 'T'], ['M', 'E'], ['S', 'X'], ['S', 'A'], ['G', 'E'], ['O', 'K']]
    );
    assert_eq!(Playfair::explode_input(&"i".to_string()), vec![['J', 'X']]);
    assert_eq!(Playfair::explode_input(&String::new()), Vec::<[char; 2]>::new());
}

#[test]
fn byte_forms_of_text_ciphers() {
    let c = Cesar::new(3);
    assert_eq!(c.process("EVIDENCIAS", true), "HYLGHQFLDV");
    assert_eq!(c.process_bytes(&b"abc xyz".to_vec(), false), b"xyz uvw".to_vec());
    let v = Vigenere::new("LEMON".to_string());
    assert_eq!(v.process("ATTACKATDAWN", true), "LXFOPVEFRNHR");
    assert_eq!(v.process_bytes(&b"Attack at Dawn!".to_vec(), true), b"Lxfopv ef Rnhr!".to_vec());
    assert!(Vigenere::try_new("12".to_string()).is_none());
}
