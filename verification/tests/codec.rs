use base85::decode;
use base85::encode;
use base85::Error;

#[test]
fn test_encode_decode() {
    // The list of tests consists of the unencoded data on the left and the encoded data on
    // the right. By using strings for the arbitrary binary data, we make the test much less
    // complicated to write.
    let testlist = [
        ("a", "VE"),
        ("aa", "VPO"),
        ("aaa", "VPRn"),
        ("aaaa", "VPRom"),
        ("aaaaa", "VPRomVE"),
        ("aaaaaa", "VPRomVPO"),
        ("aaaaaaa", "VPRomVPRn"),
        ("aaaaaaaa", "VPRomVPRom"),
    ];

    for test in testlist.iter() {
        let s = encode(test.0.as_bytes());
        assert_eq!(
            s, test.1,
            "encoder test failed: wanted: {}, got: {}",
            test.0, s
        );

        let b = decode(test.1)
            .unwrap_or_else(|e| panic!("decoder test error on input {}: {:?}", test.1, e));

        let s = String::from_utf8(b).unwrap_or_else(|e| {
            panic!(
                "decoder test '{}' failed to convert to string: {:#?}",
                test.1, e
            )
        });

        assert_eq!(
            test.0, s,
            "decoder data mismatch: wanted: {}, got: {}",
            test.0, s
        );
    }
}

#[test]
fn empty_input() {
    assert_eq!(encode(&[]), "");
    assert_eq!(decode(""), Ok(vec![]));
}

#[test]
fn round_trip_all_byte_values() {
    let mut data: Vec<u8> = Vec::new();
    for i in 0..=255u8 {
        data.push(i);
    }
    assert_eq!(decode(&encode(&data)), Ok(data));
}

#[test]
fn round_trip_partial_lengths() {
    let data = [7u8, 200, 0, 255, 13, 32, 99];
    for n in 0..=data.len() {
        let enc = encode(&data[..n]);
        assert_eq!(decode(&enc), Ok(data[..n].to_vec()));
    }
}

#[test]
fn extreme_block_values() {
    assert_eq!(encode(&[0, 0, 0, 0]), "00000");
    assert_eq!(decode("00000"), Ok(vec![0, 0, 0, 0]));
    assert_eq!(encode(&[255, 255, 255, 255]), "|NsC0");
    assert_eq!(decode("|NsC0"), Ok(vec![255, 255, 255, 255]));
}

#[test]
fn encoded_length_formula() {
    let data = [42u8; 11];
    for n in 0..=11usize {
        let extra = [0, 2, 3, 4][n % 4];
        assert_eq!(encode(&data[..n]).len(), (n / 4) * 5 + extra);
    }
}

#[test]
fn alphabet_closure() {
    let alphabet =
        "0123456789ABCDEFGHIJKLMNOPQRSTUVWXYZabcdefghijklmnopqrstuvwxyz!#$%&()*+-;<=>?@^_`{|}~";
    let mut data: Vec<u8> = Vec::new();
    for i in 0..=255u8 {
        data.push(i);
        data.push(255 - i);
    }
    for c in encode(&data).chars() {
        assert!(alphabet.contains(c), "character {:?} outside the alphabet", c);
    }
}

#[test]
fn whitespace_is_skipped() {
    let clean = decode("VPRomVPRn").unwrap();
    assert_eq!(decode(" VPRomVPRn"), Ok(clean.clone()));
    assert_eq!(decode("VPRom\nVPRn\n"), Ok(clean.clone()));
    assert_eq!(decode("VP\x0bRom\rVPRn"), Ok(clean.clone()));
    assert_eq!(decode("V P R o m V P R n"), Ok(clean.clone()));
    assert_eq!(decode(" \n\x0b\r"), Ok(vec![]));
}

#[test]
fn tab_is_not_whitespace() {
    assert_eq!(decode("VP\tRom"), Err(Error::InvalidCharacter(9)));
}

#[test]
fn invalid_characters_rejected() {
    assert_eq!(decode("VPRo\""), Err(Error::InvalidCharacter(34)));
    assert_eq!(decode(","), Err(Error::InvalidCharacter(44)));
    assert_eq!(decode("VPRom['"), Err(Error::InvalidCharacter(91)));
    // A character beyond ASCII is seen as its first UTF-8 byte.
    assert_eq!(decode("é"), Err(Error::InvalidCharacter(0xc3)));
}

#[test]
fn first_offending_character_reported() {
    assert_eq!(decode("V,;'"), Err(Error::InvalidCharacter(44)));
}

#[test]
fn truncated_input_rejected() {
    assert_eq!(decode("V"), Err(Error::UnexpectedEof));
    assert_eq!(decode("VPRomV"), Err(Error::UnexpectedEof));
    assert_eq!(decode("V PRomV \n"), Err(Error::UnexpectedEof));
}

#[test]
fn invalid_character_beats_truncation() {
    // Symbols are examined in order, so a bad byte in an earlier group is
    // reported even when the symbol count is 1 mod 5.
    assert_eq!(decode("VPRo.V"), Err(Error::InvalidCharacter(46)));
    // A lone symbol outside the alphabet is itself the bad character.
    assert_eq!(decode("."), Err(Error::InvalidCharacter(46)));
}

#[test]
fn full_group_of_maximum_digits() {
    // Five maximum symbols stand for 85^5 - 1, which exceeds 32 bits; the
    // four bytes emitted are its base-256 digits below the top one.
    assert_eq!(decode("~~~~~"), Ok(vec![8, 120, 14, 196]));
}
