//! Machine-bound encryption of stored credentials.
//!
//! A credential is encrypted with AES-256-GCM under a key derived from the
//! machine's hardware id, and stored as the base64 of the 12-byte nonce
//! followed by the ciphertext.  Text that does not read as such a record
//! (older, unencrypted data) is handed back unchanged when decrypting.
use crate::external::{
    aes256gcm_open, aes256gcm_seal, aes_gcm_max_plaintext, aes_open, aes_seal, base64_decode,
    base64_decoding, base64_encode, base64_encoding, is_base64_char, random_bytes, sha256,
    sha256_digest, utf8_text,
};
use crate::text::{
    bytes_between, bytes_concat, chars_of, contains, has_infix, starts_with, text_concat,
    trim_chars, trimmed,
};
use vstd::prelude::*;
use vstd::utf8::*;

verus! {

broadcast use {encode_utf8_valid_utf8, encode_utf8_decode_utf8};

/// The id used when the hardware id cannot be read.
pub open spec fn fallback_hwid() -> Seq<char> {
    "FALLBACK-HWID-IKV-LIMITLESS-0001"@
}

/// The salt hashed after the hardware id.
pub open spec fn key_salt() -> Seq<char> {
    "limitless_secret_salt_2026"@
}

/// The AES-256 key for a machine: SHA-256 of the hardware id's UTF-8 bytes
/// followed by the salt's.
pub open spec fn aes_key_for(hwid: Seq<char>) -> Seq<u8> {
    sha256_digest(encode_utf8(hwid) + encode_utf8(key_salt()))
}

/// The hardware id that the id query printed, where it printed a usable one:
/// the output, trimmed, unless that is empty or mentions `Error`.
pub open spec fn hwid_in_output(stdout: Seq<char>) -> Option<Seq<char>> {
    let t = trimmed(stdout);
    if t.len() > 0 && !contains(t, "Error"@) {
        Some(t)
    } else {
        None
    }
}

/// Every character of `s` belongs to the base64 alphabet or is `=`.
pub open spec fn all_base64(s: Seq<char>) -> bool {
    forall|i: int| 0 <= i < s.len() ==> is_base64_char(#[trigger] s[i])
}

/// The stored form of `plain` under the given nonce: empty for an empty
/// text, otherwise the base64 of the nonce followed by the ciphertext.
pub open spec fn sealed_text(hwid: Seq<char>, nonce: Seq<u8>, plain: Seq<char>) -> Seq<char> {
    if plain.len() == 0 {
        seq![]
    } else {
        base64_encoding(nonce + aes256gcm_seal(aes_key_for(hwid), nonce, encode_utf8(plain)))
    }
}

/// What decrypting `text` gives: `None` where the record decrypts to bytes
/// that are not UTF-8; otherwise the plaintext, or `text` itself where it is
/// empty, holds a character outside the base64 alphabet, does not decode,
/// is shorter than a nonce, or does not decrypt.
pub open spec fn opened_text(hwid: Seq<char>, text: Seq<char>) -> Option<Seq<char>> {
    if text.len() == 0 || !all_base64(text) {
        Some(text)
    } else {
        match base64_decoding(text) {
            None => Some(text),
            Some(c) => if c.len() < 12 {
                Some(text)
            } else {
                match aes256gcm_open(aes_key_for(hwid), c.take(12), c.skip(12)) {
                    None => Some(text),
                    Some(p) => if valid_utf8(p) {
                        Some(decode_utf8(p))
                    } else {
                        None
                    },
                }
            },
        }
    }
}

/// A stored credential as read back: its decryption, or the stored text
/// where the decryption is not UTF-8.
pub open spec fn revealed(hwid: Seq<char>, stored: Seq<char>) -> Seq<char> {
    match opened_text(hwid, stored) {
        Some(p) => p,
        None => stored,
    }
}

/// The byte length of a text's UTF-8 encoding.
pub open spec fn utf8_len(s: Seq<char>) -> nat {
    encode_utf8(s).len()
}

/// The hardware id for key derivation, given what the id query printed
/// (`None` where the query could not be run): the printed id where it is
/// usable, otherwise the fixed fallback id.
pub fn get_hwid(command_stdout: Option<&str>) -> (res: String)
    ensures
        res@ == match command_stdout {
            Some(out) => match hwid_in_output(out@) {
                Some(id) => id,
                None => fallback_hwid(),
            },
            None => fallback_hwid(),
        },
{
    if let Some(out) = command_stdout {
        if let Some(id) = hwid_from_output(out) {
            return id;
        }
    }
    "FALLBACK-HWID-IKV-LIMITLESS-0001".to_owned()
}

/// The hardware id in what the id query printed, if it printed a usable one.
pub fn hwid_from_output(stdout: &str) -> (res: Option<String>)
    ensures
        match res {
            Some(id) => hwid_in_output(stdout@) == Some(id@),
            None => hwid_in_output(stdout@) is None,
        },
{
    let c = chars_of(stdout);
    let t = trim_chars(c.as_slice());
    let err = chars_of("Error");
    if t.len() > 0 && !has_infix(t.as_slice(), err.as_slice()) {
        Some(crate::external::string_of(t.as_slice()))
    } else {
        None
    }
}

/// The AES-256 key for the machine with the given hardware id.
pub fn aes_key(hwid: &str) -> (res: Vec<u8>)
    ensures
        res@ == aes_key_for(hwid@),
        res@.len() == 32,
{
    let salt = "limitless_secret_salt_2026";
    let data = bytes_concat(hwid.as_bytes(), salt.as_bytes());
    sha256(data.as_slice())
}

/// The message of a failed encryption.
pub open spec fn encryption_error() -> Seq<char> {
    "Encryption failed: Error"@
}

/// The message given where no random nonce could be had.
pub open spec fn nonce_error() -> Seq<char> {
    "Encryption failed: no random nonce"@
}

/// What `encrypt` promises of a stored form `t` of `plaintext`: it is the
/// sealed text under some 12-byte nonce, it is made of base64 characters,
/// a non-empty plaintext gives a record that decodes to the plaintext's
/// UTF-8 length plus 28 bytes (nonce and tag), and decrypting it gives the
/// plaintext back.
pub open spec fn encrypted_form(hwid: Seq<char>, plaintext: Seq<char>, t: Seq<char>) -> bool {
    &&& exists|n: Seq<u8>| n.len() == 12 && t == #[trigger] sealed_text(hwid, n, plaintext)
    &&& all_base64(t)
    &&& plaintext.len() > 0 ==> (base64_decoding(t) matches Some(d) && d.len() == utf8_len(
        plaintext,
    ) + 28)
    &&& opened_text(hwid, t) == Some(plaintext)
}

/// Encrypts `plaintext` under the machine key with the given nonce and
/// returns its stored form.  An empty text stays empty.  Where the
/// plaintext is too long for AES-GCM, the encryption error is returned.
/// Whatever this returns as `Ok`, `decrypt` gives back the plaintext.
pub fn encrypt_with_nonce(hwid: &str, plaintext: &str, nonce: &[u8]) -> (res: Result<
    String,
    String,
>)
    requires
        nonce@.len() == 12,
        utf8_len(plaintext@) <= usize::MAX / 4,
    ensures
        res is Ok <==> utf8_len(plaintext@) <= aes_gcm_max_plaintext(),
        res matches Ok(t) ==> t@ == sealed_text(hwid@, nonce@, plaintext@),
        res matches Ok(t) ==> encrypted_form(hwid@, plaintext@, t@),
        res matches Err(e) ==> e@ == encryption_error(),
{
    if plaintext.is_empty() {
        let res = String::new();
        proof {
            assert(res@ =~= sealed_text(hwid@, nonce@, plaintext@));
            assert(res@ =~= plaintext@);
            assert(all_base64(res@));
        }
        return Ok(res);
    }
    let key = aes_key(hwid);
    let pt = plaintext.as_bytes();
    match aes_seal(key.as_slice(), nonce, pt) {
        Some(ct) => {
            let combined = bytes_concat(nonce, ct.as_slice());
            let text = base64_encode(combined.as_slice());
            proof {
                let c = combined@;
                assert(c.take(12) =~= nonce@);
                assert(c.skip(12) =~= ct@);
                assert(text@.len() > 0);
                assert(all_base64(text@));
                assert(text@ == sealed_text(hwid@, nonce@, plaintext@));
            }
            Ok(text)
        },
        None => Err("Encryption failed: Error".to_owned()),
    }
}

/// Encrypts `plaintext` under the machine key with a fresh random nonce and
/// returns its stored form, as `encrypt_with_nonce` does for that nonce.
/// An empty text gives the empty text; a text too long for AES-GCM gives
/// the encryption error; where the operating system supplies no random
/// bytes, the nonce error is returned.
pub fn encrypt(hwid: &str, plaintext: &str) -> (res: Result<String, String>)
    requires
        utf8_len(plaintext@) <= usize::MAX / 4,
    ensures
        plaintext@.len() == 0 ==> (res matches Ok(t) && t@.len() == 0),
        res matches Ok(t) ==> utf8_len(plaintext@) <= aes_gcm_max_plaintext() && encrypted_form(
            hwid@,
            plaintext@,
            t@,
        ),
        res matches Err(e) ==> (e@ == encryption_error() && utf8_len(plaintext@)
            > aes_gcm_max_plaintext()) || e@ == nonce_error(),
        plaintext@.len() > 0 && utf8_len(plaintext@) > aes_gcm_max_plaintext() ==> res is Err,
{
    if plaintext.is_empty() {
        let res = String::new();
        proof {
            let n = Seq::new(12, |i: int| 0u8);
            assert(res@ =~= sealed_text(hwid@, n, plaintext@));
            assert(res@ =~= plaintext@);
            assert(all_base64(res@));
        }
        return Ok(res);
    }
    match random_bytes(12) {
        Some(nonce) => encrypt_with_nonce(hwid, plaintext, nonce.as_slice()),
        None => Err("Encryption failed: no random nonce".to_owned()),
    }
}

/// Decrypts a stored credential.  Text that is empty, holds a character
/// outside the base64 alphabet, does not decode, is shorter than a nonce, or
/// does not decrypt under the machine key is returned unchanged; a record
/// that decrypts to bytes that are not UTF-8 is an error.
pub fn decrypt(hwid: &str, text: &str) -> (res: Result<String, String>)
    ensures
        match opened_text(hwid@, text@) {
            Some(p) => res matches Ok(t) && t@ == p,
            None => res matches Err(e) && starts_with(e@, "Invalid UTF-8: "@),
        },
{
    if text.is_empty() {
        return Ok(String::new());
    }
    let chars = chars_of(text);
    let mut i: usize = 0;
    while i < chars.len()
        invariant
            i <= chars.len(),
            chars@ == text@,
            forall|j: int| 0 <= j < i ==> is_base64_char(#[trigger] chars@[j]),
        decreases chars.len() - i,
    {
        let c = chars[i];
        if !(('A' <= c && c <= 'Z') || ('a' <= c && c <= 'z') || ('0' <= c && c <= '9') || c
            == '+' || c == '/' || c == '=') {
            assert(!is_base64_char(text@[i as int]));
            return Ok(text.to_owned());
        }
        i = i + 1;
    }
    let combined = match base64_decode(text) {
        Some(v) => v,
        None => return Ok(text.to_owned()),
    };
    if combined.len() < 12 {
        return Ok(text.to_owned());
    }
    let key = aes_key(hwid);
    let nonce = bytes_between(combined.as_slice(), 0, 12);
    let ct = bytes_between(combined.as_slice(), 12, combined.len());
    proof {
        assert(nonce@ =~= combined@.take(12));
        assert(ct@ =~= combined@.skip(12));
    }
    let opened = aes_open(key.as_slice(), nonce.as_slice(), ct.as_slice());
    plaintext_of(text, opened)
}

/// What decrypting `text` gives once the record has been opened: `text`
/// itself where it did not open, the plaintext where the opened bytes are
/// UTF-8, otherwise an error that starts with `Invalid UTF-8: `.
pub fn plaintext_of(text: &str, opened: Option<Vec<u8>>) -> (res: Result<String, String>)
    ensures
        match opened {
            None => res matches Ok(t) && t@ == text@,
            Some(p) => if valid_utf8(p@) {
                res matches Ok(t) && t@ == decode_utf8(p@)
            } else {
                res matches Err(e) && starts_with(e@, "Invalid UTF-8: "@)
            },
        },
{
    match opened {
        Some(p) => match utf8_text(p) {
            Ok(s) => Ok(s),
            Err(d) => {
                let e = text_concat("Invalid UTF-8: ", d.as_str());
                assert(e@.take("Invalid UTF-8: "@.len() as int) =~= "Invalid UTF-8: "@);
                Err(e)
            },
        },
        None => Ok(text.to_owned()),
    }
}

/// The form in which a credential is stored: its encryption under the
/// machine key.  Where it cannot be encrypted the error is returned and
/// nothing is stored in the clear.  Reading an `Ok` result back with
/// `open_credential` gives the credential.
pub fn seal_credential(hwid: &str, plain: &str) -> (res: Result<String, String>)
    requires
        utf8_len(plain@) <= usize::MAX / 4,
    ensures
        res matches Ok(t) ==> encrypted_form(hwid@, plain@, t@),
        res matches Ok(t) ==> revealed(hwid@, t@) == plain@,
        plain@.len() == 0 ==> res is Ok,
        plain@.len() > 0 && utf8_len(plain@) > aes_gcm_max_plaintext() ==> res is Err,
        res matches Err(e) ==> e@ == encryption_error() || e@ == nonce_error(),
{
    encrypt(hwid, plain)
}

/// A stored credential as read back: its decryption, or the stored text
/// itself where decryption fails.
pub fn open_credential(hwid: &str, stored: &str) -> (res: String)
    ensures
        res@ == revealed(hwid@, stored@),
{
    match decrypt(hwid, stored) {
        Ok(t) => t,
        Err(_) => stored.to_owned(),
    }
}

} // verus!
