use base85::byte_to_char85;
use base85::char85_to_byte;
use base85::Error;

#[test]
fn alphabet_table() {
    let alphabet =
        b"0123456789ABCDEFGHIJKLMNOPQRSTUVWXYZabcdefghijklmnopqrstuvwxyz!#$%&()*+-;<=>?@^_`{|}~";
    for (d, c) in alphabet.iter().enumerate() {
        assert_eq!(byte_to_char85(d as u8), *c);
    }
}

#[test]
fn alphabet_inverse() {
    for d in 0..85u8 {
        assert_eq!(char85_to_byte(byte_to_char85(d)), Ok(d));
    }
}

#[test]
fn non_alphabet_bytes_rejected() {
    let alphabet =
        b"0123456789ABCDEFGHIJKLMNOPQRSTUVWXYZabcdefghijklmnopqrstuvwxyz!#$%&()*+-;<=>?@^_`{|}~";
    for c in 0..=255u8 {
        if !alphabet.contains(&c) {
            assert_eq!(char85_to_byte(c), Err(Error::InvalidCharacter(c)));
        }
    }
}
