use ntcrack::codec::{decode_hash_record, encode_hex16, encode_utf16le, ParseError};
use ntcrack::md4::{md4_digest, MD4};
use ntcrack::worker::ntlm_hash;

fn hex_to_bytes(s: &str) -> [u8; 16] {
    decode_hash_record(s.as_bytes()).expect("test vector must be valid hex")
}

#[test]
fn md4_empty_string() {
    let expected = hex_to_bytes("31d6cfe0d16ae931b73c59d7e0c089c0");
    assert_eq!(md4_digest(b""), expected);
}

#[test]
fn md4_single_a() {
    let expected = hex_to_bytes("bde52cb31de33e46245e05fbdbd6fb24");
    assert_eq!(md4_digest(b"a"), expected);
}

#[test]
fn md4_abc() {
    let expected = hex_to_bytes("a448017aaf21d8525fc10ae87aa6729d");
    assert_eq!(md4_digest(b"abc"), expected);
}

#[test]
fn md4_engine_matches_one_shot() {
    let mut engine = MD4::new();
    engine.digest(b"abc");
    assert_eq!(engine.get_hash(), md4_digest(b"abc"));
}

#[test]
fn md4_long_inputs() {
    // Spills into a second padding block (length 56..63 modulo 64),
    // and crosses several complete blocks.
    let md = md4_digest(b"12345678901234567890123456789012345678901234567890123456789012345678901234567890");
    let expected = hex_to_bytes("e33b4ddc9c38f2199c3e7b164fcc0536");
    assert_eq!(md, expected);
    let msg56 = vec![0x61u8; 56];
    let msg63 = vec![0x61u8; 63];
    let msg64 = vec![0x61u8; 64];
    let msg130 = vec![0x61u8; 130];
    // The four lengths exercise: exact spill boundary, one byte short
    // of a block, one whole block, and a tail after two blocks.
    for msg in [msg56, msg63, msg64, msg130] {
        let d1 = md4_digest(&msg);
        let mut engine = MD4::new();
        engine.digest(&msg);
        assert_eq!(engine.get_hash(), d1);
    }
}

#[test]
fn ntlm_password_vector() {
    let expected = hex_to_bytes("8846f7eaee8fb117ad06bdd830b7586c");
    assert_eq!(ntlm_hash(b"password"), expected);
}

#[test]
fn ntlm_widening_is_latin1_not_utf8() {
    // A high byte becomes exactly one code unit with a zero high byte.
    let enc = encode_utf16le(&[0xE9u8, 0x61]);
    assert_eq!(enc, vec![0xE9u8, 0x00, 0x61, 0x00]);
}

#[test]
fn utf16le_empty() {
    assert_eq!(encode_utf16le(b""), Vec::<u8>::new());
}

#[test]
fn hex_decode_rejects_wrong_length() {
    assert!(matches!(
        decode_hash_record(b"abc"),
        Err(ParseError::WrongLength)
    ));
    assert!(matches!(
        decode_hash_record(b""),
        Err(ParseError::WrongLength)
    ));
}

#[test]
fn hex_decode_rejects_stray_character() {
    assert!(matches!(
        decode_hash_record(b"g846f7eaee8fb117ad06bdd830b7586c"),
        Err(ParseError::NotHex)
    ));
}

#[test]
fn hex_decode_accepts_upper_case() {
    let lower = decode_hash_record(b"8846f7eaee8fb117ad06bdd830b7586c").unwrap();
    let upper = decode_hash_record(b"8846F7EAEE8FB117AD06BDD830B7586C").unwrap();
    assert_eq!(lower, upper);
}

#[test]
fn hex_encode_round_trip() {
    let d = hex_to_bytes("8846f7eaee8fb117ad06bdd830b7586c");
    let rendered = encode_hex16(&d);
    assert_eq!(rendered, b"8846f7eaee8fb117ad06bdd830b7586c".to_vec());
}
