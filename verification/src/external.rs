//! The calls that this library makes into outside crates and into parts of
//! std that carry no specification of their own.  Every item here is
//! trusted: its contract is believed, not proved.
use aes_gcm::aead::rand_core::RngCore;
use aes_gcm::aead::{Aead, KeyInit, OsRng};
use aes_gcm::{Aes256Gcm, Key, Nonce};
use base64::Engine;
use sha2::Digest;
use vstd::prelude::*;
use vstd::utf8::*;

verus! {

// ---------------------------------------------------------------------------
// Names for results that take pages to state
// ---------------------------------------------------------------------------

/// Whether a character is Unicode `Alphabetic` or `Numeric`.
pub uninterp spec fn char_alphanumeric(c: char) -> bool;

/// The Unicode lower-case mapping of a whole string.
pub uninterp spec fn lowercased(s: Seq<char>) -> Seq<char>;

/// SHA-256 of a byte string.
pub uninterp spec fn sha256_digest(data: Seq<u8>) -> Seq<u8>;

/// Standard base64 (RFC 4648 alphabet, with `=` padding) of a byte string.
pub uninterp spec fn base64_encoding(bytes: Seq<u8>) -> Seq<char>;

/// What the standard padded base64 decoder makes of a text, `None` where it
/// refuses it.
pub uninterp spec fn base64_decoding(text: Seq<char>) -> Option<Seq<u8>>;

/// AES-256-GCM encryption without associated data: ciphertext followed by
/// the 16-byte tag.
pub uninterp spec fn aes256gcm_seal(key: Seq<u8>, nonce: Seq<u8>, plaintext: Seq<u8>) -> Seq<u8>;

/// AES-256-GCM decryption without associated data, `None` where the tag
/// does not verify.
pub uninterp spec fn aes256gcm_open(key: Seq<u8>, nonce: Seq<u8>, ciphertext: Seq<u8>) -> Option<
    Seq<u8>,
>;

/// Capture group 1 of the leftmost match of a regular expression in a text;
/// `None` where the pattern does not compile, nothing matches, or the group
/// took no part in the match.
pub uninterp spec fn regex_first_capture(pattern: Seq<char>, text: Seq<char>) -> Option<Seq<char>>;

/// The largest plaintext, in bytes, that AES-GCM encrypts (2^36).
pub open spec fn aes_gcm_max_plaintext() -> nat {
    0x10_0000_0000
}

/// A character of the standard base64 alphabet, or the padding `=`.
pub open spec fn is_base64_char(c: char) -> bool {
    ||| ('A' <= c && c <= 'Z')
    ||| ('a' <= c && c <= 'z')
    ||| ('0' <= c && c <= '9')
    ||| c == '+'
    ||| c == '/'
    ||| c == '='
}

/// The ASCII lower-case of a character: `A`..`Z` to `a`..`z`, every other
/// character unchanged.
pub open spec fn ascii_lower(c: char) -> char {
    if 'A' <= c && c <= 'Z' {
        ((c as u32) + 32) as char
    } else {
        c
    }
}

/// The hex digit of a value below 16, lower-case.
pub open spec fn lower_hex_digit(v: int) -> char {
    if v < 10 {
        ('0' as int + v) as char
    } else {
        ('a' as int + v - 10) as char
    }
}

/// A byte as two lower-case hex digits.
pub open spec fn lower_hex2(b: u8) -> Seq<char> {
    seq![lower_hex_digit(b as int / 16), lower_hex_digit(b as int % 16)]
}

/// The lower-case hex of a byte string.
pub open spec fn lower_hex(bytes: Seq<u8>) -> Seq<char>
    decreases bytes.len(),
{
    if bytes.len() == 0 {
        seq![]
    } else {
        lower_hex2(bytes[0]) + lower_hex(bytes.skip(1))
    }
}

/// The hyphenated text of the version-4 UUID built from sixteen random
/// bytes: byte 6 gets version 4 in its high nibble, byte 8 the variant bits
/// `10`, and the bytes are written in hex in groups of 4, 2, 2, 2 and 6.
pub open spec fn uuid_v4_text(b: Seq<u8>) -> Seq<char> {
    lower_hex(b.subrange(0, 4)) + "-"@ + lower_hex(b.subrange(4, 6)) + "-"@ + lower_hex2(
        ((b[6] & 0x0f) | 0x40) as u8,
    ) + lower_hex2(b[7]) + "-"@ + lower_hex2(((b[8] & 0x3f) | 0x80) as u8) + lower_hex2(b[9])
        + "-"@ + lower_hex(b.subrange(10, 16))
}

// ---------------------------------------------------------------------------
// std
// ---------------------------------------------------------------------------

/// `char::is_alphanumeric`.  Claims that the result is the property named
/// above, and that among ASCII characters exactly the letters and digits
/// have it.
#[verifier::external_body]
pub(crate) fn is_alphanumeric(c: char) -> (res: bool)
    ensures
        res == char_alphanumeric(c),
        (c as u32) < 128 ==> (res <==> (('a' <= c && c <= 'z') || ('A' <= c && c <= 'Z') || ('0'
            <= c && c <= '9'))),
{
    c.is_alphanumeric()
}

/// `String: FromIterator<char>`: collects the characters into a string.
#[verifier::external_body]
pub(crate) fn string_of(chars: &[char]) -> (res: String)
    ensures
        res@ == chars@,
{
    chars.iter().collect::<String>()
}

/// `str::to_lowercase`.  Claims that the result is the lower-case mapping
/// named above, a function of the text, and that a text made of ASCII
/// characters only is mapped character by character, `A`..`Z` to
/// `a`..`z` and every other character to itself.
#[verifier::external_body]
pub(crate) fn to_lowercase(s: &str) -> (res: String)
    ensures
        res@ == lowercased(s@),
        (forall|i: int| 0 <= i < s@.len() ==> (#[trigger] s@[i] as u32) < 128) ==> res@ =~= s@.map_values(
            |c: char| ascii_lower(c),
        ),
{
    s.to_lowercase()
}

/// `String::from_utf8`: the text that the bytes encode, where they are valid
/// UTF-8; otherwise the `Debug` rendering of the error, whose wording is not
/// stated.
#[verifier::external_body]
pub(crate) fn utf8_text(bytes: Vec<u8>) -> (res: Result<String, String>)
    ensures
        res is Ok <==> valid_utf8(bytes@),
        res matches Ok(s) ==> s@ == decode_utf8(bytes@),
{
    match String::from_utf8(bytes) {
        Ok(s) => Ok(s),
        Err(e) => Err(format!("{:?}", e)),
    }
}

// ---------------------------------------------------------------------------
// sha2
// ---------------------------------------------------------------------------

/// `sha2::Sha256::digest`: the 32-byte SHA-256 of `data`.
#[verifier::external_body]
pub(crate) fn sha256(data: &[u8]) -> (res: Vec<u8>)
    ensures
        res@ == sha256_digest(data@),
        res@.len() == 32,
{
    sha2::Sha256::digest(data).to_vec()
}

// ---------------------------------------------------------------------------
// base64
// ---------------------------------------------------------------------------

/// `base64::engine::general_purpose::STANDARD.encode`.  Claims that the text
/// is the encoding named above, that it is made of alphabet and padding
/// characters only, that it is four characters for every started group of
/// three bytes, and that the same engine decodes it back to the bytes.
#[verifier::external_body]
pub(crate) fn base64_encode(bytes: &[u8]) -> (res: String)
    requires
        bytes@.len() <= usize::MAX / 2,
    ensures
        res@ == base64_encoding(bytes@),
        res@.len() == 4 * ((bytes@.len() + 2) / 3),
        forall|i: int| 0 <= i < res@.len() ==> is_base64_char(#[trigger] res@[i]),
        base64_decoding(res@) == Some(bytes@),
{
    base64::engine::general_purpose::STANDARD.encode(bytes)
}

/// `base64::engine::general_purpose::STANDARD.decode` of the UTF-8 bytes of
/// `text`: the decoded bytes, or `None` where the decoder returns an error.
#[verifier::external_body]
pub(crate) fn base64_decode(text: &str) -> (res: Option<Vec<u8>>)
    ensures
        match res {
            Some(v) => base64_decoding(text@) == Some(v@),
            None => base64_decoding(text@) is None,
        },
{
    base64::engine::general_purpose::STANDARD.decode(text).ok()
}

// ---------------------------------------------------------------------------
// aes-gcm
// ---------------------------------------------------------------------------

/// `OsRng.try_fill_bytes`: `n` bytes from the operating system's random
/// source, or `None` where the source reports an error.  Nothing is stated
/// of the bytes' values.
#[verifier::external_body]
pub(crate) fn random_bytes(n: usize) -> (res: Option<Vec<u8>>)
    ensures
        res matches Some(v) ==> v@.len() == n,
{
    let mut buf = vec![0u8; n];
    OsRng.try_fill_bytes(&mut buf).ok()?;
    Some(buf)
}

/// `Aes256Gcm::new(key).encrypt(nonce, plaintext)`.  Claims, as the crate's
/// source shows, that it fails only on a plaintext longer than 2^36 bytes,
/// that the result is the plaintext's length plus the 16-byte tag, and, as
/// for every AEAD, that decryption under the same key and nonce gives the
/// plaintext back.
#[verifier::external_body]
pub(crate) fn aes_seal(key: &[u8], nonce: &[u8], plaintext: &[u8]) -> (res: Option<Vec<u8>>)
    requires
        key@.len() == 32,
        nonce@.len() == 12,
    ensures
        res is Some <==> plaintext@.len() <= aes_gcm_max_plaintext(),
        res matches Some(c) ==> c@ == aes256gcm_seal(key@, nonce@, plaintext@),
        res matches Some(c) ==> c@.len() == plaintext@.len() + 16,
        res matches Some(c) ==> aes256gcm_open(key@, nonce@, c@) == Some(plaintext@),
{
    let cipher = Aes256Gcm::new(Key::<Aes256Gcm>::from_slice(key));
    cipher.encrypt(Nonce::from_slice(nonce), plaintext).ok()
}

/// `Aes256Gcm::new(key).decrypt(nonce, ciphertext)`: the plaintext, or
/// `None` where the crate returns an error.
#[verifier::external_body]
pub(crate) fn aes_open(key: &[u8], nonce: &[u8], ciphertext: &[u8]) -> (res: Option<Vec<u8>>)
    requires
        key@.len() == 32,
        nonce@.len() == 12,
    ensures
        match res {
            Some(p) => aes256gcm_open(key@, nonce@, ciphertext@) == Some(p@),
            None => aes256gcm_open(key@, nonce@, ciphertext@) is None,
        },
{
    let cipher = Aes256Gcm::new(Key::<Aes256Gcm>::from_slice(key));
    cipher.decrypt(Nonce::from_slice(nonce), ciphertext).ok()
}

// ---------------------------------------------------------------------------
// uuid
// ---------------------------------------------------------------------------

/// `uuid::Builder::from_random_bytes(bytes).into_uuid().to_string()`: the
/// version-4 UUID made from sixteen random bytes, in the hyphenated
/// lower-case form.  The builder sets the version nibble of byte 6 to 4 and
/// the variant bits of byte 8 to `10`; the text is the lower-case hex of the
/// sixteen bytes in groups of 4, 2, 2, 2 and 6 bytes.
#[verifier::external_body]
pub(crate) fn uuid_v4_from(bytes: &[u8]) -> (res: String)
    requires
        bytes@.len() == 16,
    ensures
        res@ == uuid_v4_text(bytes@),
{
    let mut b = [0u8; 16];
    b.copy_from_slice(bytes);
    uuid::Builder::from_random_bytes(b).into_uuid().to_string()
}

// ---------------------------------------------------------------------------
// regex
// ---------------------------------------------------------------------------

/// `regex::Regex::new(pattern)` and `captures(text)`: capture group 1 of the
/// leftmost match, as named above.
#[verifier::external_body]
pub(crate) fn first_capture(pattern: &str, text: &str) -> (res: Option<String>)
    ensures
        match res {
            Some(s) => regex_first_capture(pattern@, text@) == Some(s@),
            None => regex_first_capture(pattern@, text@) is None,
        },
{
    let re = regex::Regex::new(pattern).ok()?;
    let caps = re.captures(text)?;
    Some(caps.get(1)?.as_str().to_string())
}

} // verus!
