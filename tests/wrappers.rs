use aes::cipher::{block_padding::NoPadding, BlockEncryptMut, KeyIvInit};
use dc09::crypto::{decrypt, encrypt, encrypt_padded};
use dc09::parser::parse_dc09_account_name;

fn reference_cbc(key: &[u8], data: &[u8]) -> String {
    let mut buf = data.to_vec();
    let len = buf.len();
    let iv = [0u8; 16];
    match key.len() {
        16 => {
            cbc::Encryptor::<aes::Aes128>::new_from_slices(key, &iv).unwrap().encrypt_padded_mut::<NoPadding>(&mut buf, len).unwrap();
        },
        24 => {
            cbc::Encryptor::<aes::Aes192>::new_from_slices(key, &iv).unwrap().encrypt_padded_mut::<NoPadding>(&mut buf, len).unwrap();
        },
        _ => {
            cbc::Encryptor::<aes::Aes256>::new_from_slices(key, &iv).unwrap().encrypt_padded_mut::<NoPadding>(&mut buf, len).unwrap();
        },
    }
    hex::encode_upper(buf)
}

#[test]
fn padded_encryption_matches_aes_cbc_with_zero_iv() {
    let plain = "Xy|#1234|NRR|Atest]_12:00:00,01-01-2025";
    let padded = format!("{}{}", "A".repeat(16 - plain.len() % 16), plain);
    for key in ["0123456789abcdef", "0123456789abcdef01234567", "0123456789abcdef0123456789abcdef"] {
        let hex = encrypt_padded(&padded, key.as_bytes()).unwrap();
        assert_eq!(hex, reference_cbc(key.as_bytes(), padded.as_bytes()));
        assert_ne!(hex::decode(&hex).unwrap(), padded.as_bytes());
        assert_eq!(decrypt(&hex, key.as_bytes()).unwrap(), padded);
        assert_eq!(decrypt(&hex.to_lowercase(), key.as_bytes()).unwrap(), padded);
    }
    assert_eq!(encrypt_padded("not a block", b"0123456789abcdef"), None);
    assert_eq!(encrypt_padded("0123456789abcdef", b"0123"), None);
}

#[test]
fn encryption_output_is_not_the_plaintext() {
    let key = b"0123456789abcdef";
    let hex = encrypt("#1234|NRR|Atest", key).unwrap();
    let raw = hex::decode(&hex).unwrap();
    let plain = decrypt(&hex, key).unwrap();
    assert_ne!(raw, plain.as_bytes());
}

#[test]
fn decrypted_bytes_must_be_utf8() {
    let key = b"0123456789abcdef";
    let mut buf = vec![0xFFu8; 16];
    cbc::Encryptor::<aes::Aes128>::new_from_slices(key, &[0u8; 16]).unwrap().encrypt_padded_mut::<NoPadding>(&mut buf, 16).unwrap();
    assert_eq!(decrypt(&hex::encode_upper(buf), key), None);
}

#[test]
fn accounts_may_hold_unicode_letters() {
    assert_eq!(parse_dc09_account_name("\n00000000\"SIA-DCS\"0001L0#Äb1[]\r").unwrap(), "Äb1");
    assert_eq!(parse_dc09_account_name("\n00000000\"SIA-DCS\"0001L0#ab€c[]\r").unwrap(), "ab");
    assert!(parse_dc09_account_name("\n00000000\"SIA-DCS\"0001L0#€[]\r").is_err());
}
