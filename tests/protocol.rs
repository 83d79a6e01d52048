use cipherchat::protocol::{Cipher, Message};

#[test]
fn message_parts() {
    let m = Message::new("ana".to_string(), Cipher::Des, vec![1, 2, 3]);
    let (author, cipher, content) = m.into_parts();
    assert_eq!(author, "ana");
    assert_eq!(cipher, Cipher::Des);
    assert_eq!(content, vec![1, 2, 3]);
}
