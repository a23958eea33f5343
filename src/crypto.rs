//! AES-CBC payload encryption with a zero IV, random leading padding and
//! upper-case hexadecimal output.
use vstd::prelude::*;
use vstd::utf8::*;
use crate::text::{digit_char, is_ascii_alnum, lemma_encode_utf8_ascii, lemma_encode_utf8_concat, push_char, push_str};
use aes::cipher::block_padding::NoPadding;
use aes::cipher::{BlockDecryptMut, BlockEncryptMut, KeyIvInit};

verus! {

/// Key lengths accepted for AES-128, AES-192 and AES-256.
pub open spec fn valid_key_len(n: nat) -> bool {
    n == 16 || n == 24 || n == 32
}

/// Upper-case hexadecimal text of the bytes, two digits per byte.
pub open spec fn hex_upper(b: Seq<u8>) -> Seq<char>
    decreases b.len(),
{
    if b.len() == 0 {
        seq![]
    } else {
        seq![digit_char(b[0] as nat / 16), digit_char(b[0] as nat % 16)] + hex_upper(b.drop_first())
    }
}

/// Value of one hexadecimal digit given as a byte.
pub open spec fn hex_byte_value(c: u8) -> Option<nat> {
    if 48 <= c && c <= 57 {
        Some((c - 48) as nat)
    } else if 65 <= c && c <= 70 {
        Some((c - 55) as nat)
    } else if 97 <= c && c <= 102 {
        Some((c - 87) as nat)
    } else {
        None
    }
}

/// Bytes written as pairs of hexadecimal digits; `None` on an odd length or a non-digit.
pub open spec fn hex_decode(h: Seq<u8>) -> Option<Seq<u8>>
    decreases h.len(),
{
    if h.len() == 0 {
        Some(seq![])
    } else if h.len() == 1 {
        None
    } else {
        match (hex_byte_value(h[0]), hex_byte_value(h[1]), hex_decode(h.skip(2))) {
            (Some(hi), Some(lo), Some(rest)) => Some(seq![(hi * 16 + lo) as u8] + rest),
            _ => None,
        }
    }
}

pub uninterp spec fn aes128_cbc_encrypt(key: Seq<u8>, iv: Seq<u8>, data: Seq<u8>) -> Seq<u8>;

pub uninterp spec fn aes192_cbc_encrypt(key: Seq<u8>, iv: Seq<u8>, data: Seq<u8>) -> Seq<u8>;

pub uninterp spec fn aes256_cbc_encrypt(key: Seq<u8>, iv: Seq<u8>, data: Seq<u8>) -> Seq<u8>;

pub uninterp spec fn aes128_cbc_decrypt(key: Seq<u8>, iv: Seq<u8>, data: Seq<u8>) -> Seq<u8>;

pub uninterp spec fn aes192_cbc_decrypt(key: Seq<u8>, iv: Seq<u8>, data: Seq<u8>) -> Seq<u8>;

pub uninterp spec fn aes256_cbc_decrypt(key: Seq<u8>, iv: Seq<u8>, data: Seq<u8>) -> Seq<u8>;

/// The initialisation vector of every DC-09 payload: sixteen zero bytes.
pub open spec fn zero_iv_spec() -> Seq<u8> {
    Seq::new(16, |_i: int| 0u8)
}

/// Builds the all-zero IV.
fn zero_iv() -> (r: Vec<u8>)
    ensures
        r@ == zero_iv_spec(),
{
    let mut iv: Vec<u8> = Vec::new();
    let mut i: usize = 0;
    while i < 16
        invariant
            i <= 16,
            iv@ == Seq::new(i as nat, |_i: int| 0u8),
        decreases 16 - i,
    {
        iv.push(0u8);
        proof {
            assert(iv@ =~= Seq::new((i + 1) as nat, |_i: int| 0u8));
        }
        i += 1;
    }
    iv
}

/// AES-CBC encryption (zero IV, no padding) with the cipher that the key length selects.
pub open spec fn cbc_encrypt(key: Seq<u8>, data: Seq<u8>) -> Seq<u8> {
    if key.len() == 16 {
        aes128_cbc_encrypt(key, zero_iv_spec(), data)
    } else if key.len() == 24 {
        aes192_cbc_encrypt(key, zero_iv_spec(), data)
    } else {
        aes256_cbc_encrypt(key, zero_iv_spec(), data)
    }
}

/// AES-CBC decryption (zero IV, no padding) with the cipher that the key length selects.
pub open spec fn cbc_decrypt(key: Seq<u8>, data: Seq<u8>) -> Seq<u8> {
    if key.len() == 16 {
        aes128_cbc_decrypt(key, zero_iv_spec(), data)
    } else if key.len() == 24 {
        aes192_cbc_decrypt(key, zero_iv_spec(), data)
    } else {
        aes256_cbc_decrypt(key, zero_iv_spec(), data)
    }
}

/// Number of padding characters put before a plaintext of `n` bytes: between 1 and 16.
pub open spec fn pad_len(n: nat) -> nat {
    (16 - n % 16) as nat
}

/// `pad` is a valid random prefix for `message`: alphanumeric, of the right length.
pub open spec fn is_padding_for(pad: Seq<char>, message: Seq<char>) -> bool {
    &&& pad.len() == pad_len(encode_utf8(message).len())
    &&& forall|i: int| 0 <= i < pad.len() ==> is_ascii_alnum(#[trigger] pad[i])
}

/// Hexadecimal ciphertext of an already padded plaintext.
pub open spec fn encrypted_text(key: Seq<u8>, padded: Seq<char>) -> Seq<char> {
    hex_upper(cbc_encrypt(key, encode_utf8(padded)))
}

/// Encrypting the padded plaintext under `key` keeps its length, and decrypting
/// the result gives it back.
pub open spec fn cipher_round_trips(key: Seq<u8>, padded: Seq<char>) -> bool {
    &&& cbc_encrypt(key, encode_utf8(padded)).len() == encode_utf8(padded).len()
    &&& cbc_decrypt(key, cbc_encrypt(key, encode_utf8(padded))) == encode_utf8(padded)
}

/// Plaintext of a hexadecimal ciphertext, if the hex, the key and the UTF-8 are valid.
pub open spec fn decrypt_spec(hex: Seq<char>, key: Seq<u8>) -> Option<Seq<char>> {
    match hex_decode(encode_utf8(hex)) {
        None => None,
        Some(ct) => {
            if !valid_key_len(key.len()) || ct.len() % 16 != 0 {
                None
            } else if valid_utf8(cbc_decrypt(key, ct)) {
                Some(decode_utf8(cbc_decrypt(key, ct)))
            } else {
                None
            }
        },
    }
}

/// Relies on `cbc::Encryptor<aes::Aes128>` with the given 16-byte IV and `NoPadding`: with a
/// 16-byte key and whole blocks it succeeds, in place, keeping the length, and
/// `cbc::Decryptor<aes::Aes128>` under the same key and IV gives the data back.
#[verifier::external_body]
fn aes128_encrypt(key: &[u8], iv: &[u8], data: &[u8]) -> (r: Option<Vec<u8>>)
    requires
        iv@.len() == 16,
        key@.len() == 16,
        data@.len() % 16 == 0,
    ensures
        r is Some,
        r->0@ == aes128_cbc_encrypt(key@, iv@, data@),
        r->0@.len() == data@.len(),
        aes128_cbc_decrypt(key@, iv@, r->0@) == data@,
{
    let mut buf = data.to_vec();
    let len = buf.len();
    let cipher = cbc::Encryptor::<aes::Aes128>::new_from_slices(key, iv).ok()?;
    cipher.encrypt_padded_mut::<NoPadding>(&mut buf, len).ok()?;
    Some(buf)
}

/// Relies on `cbc::Encryptor<aes::Aes192>` with the given 16-byte IV and `NoPadding`: with a
/// 24-byte key and whole blocks it succeeds, in place, keeping the length, and
/// `cbc::Decryptor<aes::Aes192>` under the same key and IV gives the data back.
#[verifier::external_body]
fn aes192_encrypt(key: &[u8], iv: &[u8], data: &[u8]) -> (r: Option<Vec<u8>>)
    requires
        iv@.len() == 16,
        key@.len() == 24,
        data@.len() % 16 == 0,
    ensures
        r is Some,
        r->0@ == aes192_cbc_encrypt(key@, iv@, data@),
        r->0@.len() == data@.len(),
        aes192_cbc_decrypt(key@, iv@, r->0@) == data@,
{
    let mut buf = data.to_vec();
    let len = buf.len();
    let cipher = cbc::Encryptor::<aes::Aes192>::new_from_slices(key, iv).ok()?;
    cipher.encrypt_padded_mut::<NoPadding>(&mut buf, len).ok()?;
    Some(buf)
}

/// Relies on `cbc::Encryptor<aes::Aes256>` with the given 16-byte IV and `NoPadding`: with a
/// 32-byte key and whole blocks it succeeds, in place, keeping the length, and
/// `cbc::Decryptor<aes::Aes256>` under the same key and IV gives the data back.
#[verifier::external_body]
fn aes256_encrypt(key: &[u8], iv: &[u8], data: &[u8]) -> (r: Option<Vec<u8>>)
    requires
        iv@.len() == 16,
        key@.len() == 32,
        data@.len() % 16 == 0,
    ensures
        r is Some,
        r->0@ == aes256_cbc_encrypt(key@, iv@, data@),
        r->0@.len() == data@.len(),
        aes256_cbc_decrypt(key@, iv@, r->0@) == data@,
{
    let mut buf = data.to_vec();
    let len = buf.len();
    let cipher = cbc::Encryptor::<aes::Aes256>::new_from_slices(key, iv).ok()?;
    cipher.encrypt_padded_mut::<NoPadding>(&mut buf, len).ok()?;
    Some(buf)
}

/// Relies on `cbc::Decryptor<aes::Aes128>` with the given 16-byte IV and `NoPadding`: it fails
/// exactly on a partial block.
#[verifier::external_body]
fn aes128_decrypt(key: &[u8], iv: &[u8], data: &[u8]) -> (r: Option<Vec<u8>>)
    requires
        iv@.len() == 16,
        key@.len() == 16,
    ensures
        r is Some <==> data@.len() % 16 == 0,
        r is Some ==> r->0@ == aes128_cbc_decrypt(key@, iv@, data@),
{
    let mut buf = data.to_vec();
    let cipher = cbc::Decryptor::<aes::Aes128>::new_from_slices(key, iv).ok()?;
    cipher.decrypt_padded_mut::<NoPadding>(&mut buf).ok()?;
    Some(buf)
}

/// Relies on `cbc::Decryptor<aes::Aes192>` with the given 16-byte IV and `NoPadding`: it fails
/// exactly on a partial block.
#[verifier::external_body]
fn aes192_decrypt(key: &[u8], iv: &[u8], data: &[u8]) -> (r: Option<Vec<u8>>)
    requires
        iv@.len() == 16,
        key@.len() == 24,
    ensures
        r is Some <==> data@.len() % 16 == 0,
        r is Some ==> r->0@ == aes192_cbc_decrypt(key@, iv@, data@),
{
    let mut buf = data.to_vec();
    let cipher = cbc::Decryptor::<aes::Aes192>::new_from_slices(key, iv).ok()?;
    cipher.decrypt_padded_mut::<NoPadding>(&mut buf).ok()?;
    Some(buf)
}

/// Relies on `cbc::Decryptor<aes::Aes256>` with the given 16-byte IV and `NoPadding`: it fails
/// exactly on a partial block.
#[verifier::external_body]
fn aes256_decrypt(key: &[u8], iv: &[u8], data: &[u8]) -> (r: Option<Vec<u8>>)
    requires
        iv@.len() == 16,
        key@.len() == 32,
    ensures
        r is Some <==> data@.len() % 16 == 0,
        r is Some ==> r->0@ == aes256_cbc_decrypt(key@, iv@, data@),
{
    let mut buf = data.to_vec();
    let cipher = cbc::Decryptor::<aes::Aes256>::new_from_slices(key, iv).ok()?;
    cipher.decrypt_padded_mut::<NoPadding>(&mut buf).ok()?;
    Some(buf)
}

/// Relies on `hex::encode_upper`: two upper-case digits per byte.
#[verifier::external_body]
fn hex_encode_upper(b: &[u8]) -> (r: String)
    ensures
        r@ == hex_upper(b@),
{
    hex::encode_upper(b)
}

/// Relies on `hex::decode`: pairs of digits of either case, failing on an odd
/// length or a non-digit.
#[verifier::external_body]
fn hex_decode_bytes(h: &[u8]) -> (r: Option<Vec<u8>>)
    ensures
        r is Some <==> hex_decode(h@) is Some,
        r is Some ==> r->0@ == hex_decode(h@)->0,
{
    hex::decode(h).ok()
}

/// Relies on `String::from_utf8`: it accepts exactly valid UTF-8 and keeps the bytes.
#[verifier::external_body]
pub(crate) fn string_from_utf8(b: Vec<u8>) -> (r: Option<String>)
    ensures
        r is Some <==> valid_utf8(b@),
        r is Some ==> encode_utf8(r->0@) == b@,
{
    String::from_utf8(b).ok()
}

/// Relies on rand's `Alphanumeric` distribution over the thread generator: a
/// character drawn from `A-Z`, `a-z` and `0-9`.
#[verifier::external_body]
fn random_alphanumeric() -> (c: char)
    ensures
        is_ascii_alnum(c),
{
    rand::Rng::sample(&mut rand::rng(), rand::distr::Alphanumeric) as char
}

/// Puts random alphanumeric characters before `message` so that its length in
/// bytes becomes a multiple of the block size.
fn pad_message(message: &str) -> (r: String)
    ensures
        exists|pad: Seq<char>| is_padding_for(pad, message@) && r@ == pad + message@,
{
    let n = message.as_bytes().len();
    assert(n == encode_utf8(message@).len());
    let pad: usize = 16 - n % 16;
    let mut result = String::new();
    let mut i: usize = 0;
    while i < pad
        invariant
            i <= pad,
            result@.len() == i,
            forall|k: int| 0 <= k < i ==> is_ascii_alnum(#[trigger] result@[k]),
        decreases pad - i,
    {
        let c = random_alphanumeric();
        push_char(&mut result, c);
        i += 1;
    }
    let ghost p = result@;
    push_str(&mut result, message);
    assert(is_padding_for(p, message@));
    result
}

/// Encrypts an already padded plaintext and writes the ciphertext in upper-case hex.
pub fn encrypt_padded(padded: &str, key: &[u8]) -> (r: Option<String>)
    ensures
        r is Some <==> valid_key_len(key@.len()) && encode_utf8(padded@).len() % 16 == 0,
        r is Some ==> r->0@ == encrypted_text(key@, padded@),
        r is Some ==> cipher_round_trips(key@, padded@),
{
    let bytes = padded.as_bytes();
    if bytes.len() % 16 != 0 {
        return None;
    }
    let iv = zero_iv();
    let ct = if key.len() == 16 {
        aes128_encrypt(key, iv.as_slice(), bytes)
    } else if key.len() == 24 {
        aes192_encrypt(key, iv.as_slice(), bytes)
    } else if key.len() == 32 {
        aes256_encrypt(key, iv.as_slice(), bytes)
    } else {
        return None;
    };
    match ct {
        Some(c) => Some(hex_encode_upper(c.as_slice())),
        None => None,
    }
}

/// Encrypts `message` with AES-CBC under `key` after random padding.
/// **Note** that the padding is put before the message.
pub fn encrypt(message: &str, key: &[u8]) -> (r: Option<String>)
    ensures
        r is Some <==> valid_key_len(key@.len()),
        r is Some ==> exists|pad: Seq<char>|
            is_padding_for(pad, message@) && r->0@ == encrypted_text(key@, pad + message@)
                && cipher_round_trips(key@, pad + message@),
{
    if !(key.len() == 16 || key.len() == 24 || key.len() == 32) {
        return None;
    }
    let padded = pad_message(message);
    let ghost pad = choose|pad: Seq<char>| is_padding_for(pad, message@) && padded@ == pad + message@;
    proof {
        lemma_encode_utf8_concat(pad, message@);
        assert(is_ascii_chars(pad));
        lemma_encode_utf8_ascii(pad);
        let n = encode_utf8(message@).len();
        assert((pad_len(n) + n) % 16 == 0) by (nonlinear_arith);
    }
    encrypt_padded(padded.as_str(), key)
}

/// Decrypts the upper-case hex ciphertext `message` with AES-CBC under `key`.
/// **Note** that the padding is not removed.
pub fn decrypt(message: &str, key: &[u8]) -> (r: Option<String>)
    ensures
        r is Some <==> decrypt_spec(message@, key@) is Some,
        r is Some ==> r->0@ == decrypt_spec(message@, key@)->0,
{
    let ct = match hex_decode_bytes(message.as_bytes()) {
        Some(c) => c,
        None => return None,
    };
    let iv = zero_iv();
    let pt = if key.len() == 16 {
        aes128_decrypt(key, iv.as_slice(), ct.as_slice())
    } else if key.len() == 24 {
        aes192_decrypt(key, iv.as_slice(), ct.as_slice())
    } else if key.len() == 32 {
        aes256_decrypt(key, iv.as_slice(), ct.as_slice())
    } else {
        return None;
    };
    match pt {
        Some(p) => {
            let r = string_from_utf8(p);
            proof {
                if r is Some {
                    encode_utf8_decode_utf8(r->0@);
                }
            }
            r
        },
        None => None,
    }
}

} // verus!
