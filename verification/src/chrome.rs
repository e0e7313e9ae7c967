//! How Chrome protects the values of its cookies.

use aes_gcm::aead::{Aead, KeyInit};
use base64::Engine;
use cbc::cipher::{BlockDecryptMut, KeyIvInit};
use vstd::prelude::*;
use crate::json;
use crate::json::Json;
use crate::output;
use crate::output::Line;
use crate::text;

verus! {

/// The systems that Chrome protects cookies differently on.
#[derive(Debug, Clone, Copy, PartialEq, Eq, Structural)]
pub enum Platform {
    Windows,
    MacOs,
    Other,
}

/// Why a cookie could not be decrypted.
#[derive(Debug)]
pub enum DecryptError {
    TooShort,
    /// The key is not one for AES-256.
    GcmKey,
    GcmFailed,
    /// The key is not one for AES-128: it has so many bytes.
    CbcKey(usize),
    CbcFailed,
    NotUtf8,
    /// No way to decrypt it led to a text.
    AllFailed,
    Unsupported,
}

impl DecryptError {
    pub open spec fn words(self) -> Seq<char> {
        match self {
            DecryptError::TooShort => "encrypted cookie value too short"@,
            DecryptError::GcmKey => "invalid AES-256 key length"@,
            DecryptError::GcmFailed => "AES-GCM decryption failed"@,
            DecryptError::CbcKey(n) => "CBC key must be 16 bytes (got "@ + text::decimal(n as nat) + ")"@,
            DecryptError::CbcFailed => "AES-128-CBC PKCS7 decryption failed"@,
            DecryptError::NotUtf8 => "cookie is not valid UTF-8"@,
            DecryptError::AllFailed => "all macOS decryption strategies failed — see [debug] lines above"@,
            DecryptError::Unsupported => "Chrome cookie decryption is not supported on this platform"@,
        }
    }

    /// The error in words.
    pub fn message(&self) -> (r: String)
        ensures
            r@ == self.words(),
    {
        match self {
            DecryptError::TooShort => "encrypted cookie value too short".to_owned(),
            DecryptError::GcmKey => "invalid AES-256 key length".to_owned(),
            DecryptError::GcmFailed => "AES-GCM decryption failed".to_owned(),
            DecryptError::CbcKey(n) => text::cat3(
                "CBC key must be 16 bytes (got ",
                text::show_u64(*n as u64).as_str(),
                ")",
            ),
            DecryptError::CbcFailed => "AES-128-CBC PKCS7 decryption failed".to_owned(),
            DecryptError::NotUtf8 => "cookie is not valid UTF-8".to_owned(),
            DecryptError::AllFailed => "all macOS decryption strategies failed — see [debug] lines above".to_owned(),
            DecryptError::Unsupported => "Chrome cookie decryption is not supported on this platform".to_owned(),
        }
    }
}

// ---------------------------------------------------------------------------
// The ciphers
// ---------------------------------------------------------------------------

/// What `aes_gcm::Aes256Gcm` decrypts a text and its tag to; `None` if the tag does not fit.
pub uninterp spec fn gcm_plaintext(key: Seq<u8>, nonce: Seq<u8>, data: Seq<u8>) -> Option<Seq<u8>>;

/// What AES-128 in CBC mode decrypts a text to, its PKCS #7 padding taken off; `None` if there
/// is no such padding.
pub uninterp spec fn cbc_plaintext(key: Seq<u8>, iv: Seq<u8>, data: Seq<u8>) -> Option<Seq<u8>>;

/// The first bytes that PBKDF2 with HMAC-SHA1 derives from a password.
pub uninterp spec fn pbkdf2_sha1(password: Seq<u8>, salt: Seq<u8>, rounds: u32, length: nat) -> Seq<u8>;

/// What `base64` decodes a text in the standard alphabet to, or the words of its error.
pub uninterp spec fn base64_decoded(s: Seq<char>) -> Result<Seq<u8>, Seq<char>>;

/// `aes_gcm::Aes256Gcm::decrypt`, without associated data: the outcome depends on the key, the
/// nonce and the data alone. A key has 32 bytes and a nonce 12.
#[verifier::external_body]
fn gcm_decrypt(key: &[u8], nonce: &[u8], data: &[u8]) -> (r: Option<Vec<u8>>)
    requires
        key@.len() == 32,
        nonce@.len() == 12,
    ensures
        match r {
            Some(bytes) => gcm_plaintext(key@, nonce@, data@) == Some(bytes@),
            None => gcm_plaintext(key@, nonce@, data@) is None,
        },
{
    let cipher = aes_gcm::Aes256Gcm::new_from_slice(key).ok()?;
    cipher.decrypt(aes_gcm::Nonce::from_slice(nonce), data).ok()
}

/// `cbc::Decryptor::<aes::Aes128>::decrypt_padded_mut` with PKCS #7 padding: the outcome depends
/// on the key, the initialisation vector and the data alone. Key and vector have 16 bytes each.
#[verifier::external_body]
fn cbc_decrypt(key: &[u8], iv: &[u8], data: &[u8]) -> (r: Option<Vec<u8>>)
    requires
        key@.len() == 16,
        iv@.len() == 16,
    ensures
        match r {
            Some(bytes) => cbc_plaintext(key@, iv@, data@) == Some(bytes@),
            None => cbc_plaintext(key@, iv@, data@) is None,
        },
{
    let cipher = cbc::Decryptor::<aes::Aes128>::new_from_slices(key, iv).ok()?;
    let mut buffer = data.to_vec();
    let plain = cipher.decrypt_padded_mut::<cbc::cipher::block_padding::Pkcs7>(&mut buffer).ok()?;
    Some(plain.to_vec())
}

/// `pbkdf2::pbkdf2_hmac::<sha1::Sha1>`: it fills its output, with bytes that depend on the
/// arguments alone.
#[verifier::external_body]
fn derive_key(password: &[u8], salt: &[u8], rounds: u32, length: usize) -> (r: Vec<u8>)
    requires
        length <= 1024,
    ensures
        r@ == pbkdf2_sha1(password@, salt@, rounds, length as nat),
        r@.len() == length,
{
    let mut key = vec![0u8; length];
    pbkdf2::pbkdf2_hmac::<sha1::Sha1>(password, salt, rounds, &mut key);
    key
}

/// `base64::engine::general_purpose::STANDARD.decode`: the outcome depends on the text alone.
#[verifier::external_body]
fn decode_base64(s: &str) -> (r: Result<Vec<u8>, String>)
    ensures
        match r {
            Ok(bytes) => base64_decoded(s@) == Ok::<Seq<u8>, Seq<char>>(bytes@),
            Err(words) => base64_decoded(s@) == Err::<Seq<u8>, Seq<char>>(words@),
        },
{
    base64::engine::general_purpose::STANDARD.decode(s).map_err(|e| e.to_string())
}

// ---------------------------------------------------------------------------
// Master keys
// ---------------------------------------------------------------------------

/// Why there is no master key in a `Local State` file.
#[derive(Debug)]
pub enum KeyError {
    /// The file is no JSON; the words say why.
    NotJson(String),
    /// The file holds no key.
    Missing,
    /// The key is not in base64; the words say why.
    NotBase64(String),
}

/// What a [`KeyError`] stands for.
pub enum KeyFailure {
    NotJson(Seq<char>),
    Missing,
    NotBase64(Seq<char>),
}

impl View for KeyError {
    type V = KeyFailure;

    open spec fn view(&self) -> KeyFailure {
        match *self {
            KeyError::NotJson(words) => KeyFailure::NotJson(words@),
            KeyError::Missing => KeyFailure::Missing,
            KeyError::NotBase64(words) => KeyFailure::NotBase64(words@),
        }
    }
}

/// The bytes of a key without the mark that Chrome puts before it.
pub open spec fn unmarked(key: Seq<u8>) -> Seq<u8> {
    let mark = vstd::utf8::encode_utf8("DPAPI"@);
    if mark.is_prefix_of(key) {
        key.skip(mark.len() as int)
    } else {
        key
    }
}

/// The key in base64 that a `Local State` file holds, given what the file was read as.
pub open spec fn key_below(document: Result<json::JsonTree, Seq<char>>) -> Result<Seq<char>, KeyFailure> {
    match document {
        Ok(t) => match json::text_below(t, "os_crypt"@, "encrypted_key"@) {
            Some(encoded) => Ok(encoded),
            None => Err(KeyFailure::Missing),
        },
        Err(words) => Err(KeyFailure::NotJson(words)),
    }
}

/// The protected master key in a `Local State` file.
pub open spec fn protected_key(state: Seq<char>) -> Result<Seq<u8>, KeyFailure> {
    match key_below(json::parsed_json(state)) {
        Ok(encoded) => match base64_decoded(encoded) {
            Ok(key) => Ok(unmarked(key)),
            Err(words) => Err(KeyFailure::NotBase64(words)),
        },
        Err(e) => Err(e),
    }
}

/// The key in base64 that a `Local State` file holds, given what the file was read as.
pub fn encoded_key(document: Result<Json, String>) -> (r: Result<String, KeyError>)
    ensures
        ({
            let expected = key_below(
                match document {
                    Ok(value) => Ok(value.tree()),
                    Err(words) => Err(words@),
                },
            );
            match r {
                Ok(encoded) => expected == Ok::<Seq<char>, KeyFailure>(encoded@),
                Err(e) => expected == Err::<Seq<char>, KeyFailure>(e@),
            }
        }),
{
    let value = match document {
        Ok(value) => value,
        Err(words) => return Err(KeyError::NotJson(words)),
    };
    match value.text_below("os_crypt", "encrypted_key") {
        Some(encoded) => Ok(encoded),
        None => Err(KeyError::Missing),
    }
}

/// The key that was decoded from base64, without its mark.
pub fn decoded_key(decoded: Result<Vec<u8>, String>) -> (r: Result<Vec<u8>, KeyError>)
    ensures
        match decoded {
            Ok(key) => r matches Ok(bytes) && bytes@ == unmarked(key@),
            Err(words) => r matches Err(e) && e@ == KeyFailure::NotBase64(words@),
        },
{
    match decoded {
        Ok(key) => Ok(strip_mark(key.as_slice())),
        Err(words) => Err(KeyError::NotBase64(words)),
    }
}

/// The protected master key in a `Local State` file, as the system is to unprotect it.
pub fn find_protected_key(state: &str) -> (r: Result<Vec<u8>, KeyError>)
    ensures
        match r {
            Ok(key) => protected_key(state@) == Ok::<Seq<u8>, KeyFailure>(key@),
            Err(e) => protected_key(state@) == Err::<Seq<u8>, KeyFailure>(e@),
        },
{
    let encoded = match encoded_key(json::read_json(state)) {
        Ok(encoded) => encoded,
        Err(e) => return Err(e),
    };
    decoded_key(decode_base64(encoded.as_str()))
}

/// The bytes of a key without the mark that Chrome puts before it.
pub fn strip_mark(key: &[u8]) -> (r: Vec<u8>)
    ensures
        r@ == unmarked(key@),
{
    let mark = "DPAPI".as_bytes();
    let mut i: usize = 0;
    while i < mark.len() && i < key.len() && key[i] == mark[i]
        invariant
            i <= mark@.len(),
            i <= key@.len(),
            forall|k: int| 0 <= k < i ==> key@[k] == mark@[k],
        decreases mark@.len() - i,
    {
        i = i + 1;
    }
    proof {
        let m = mark@.len() as int;
        if i == m {
            assert(key@.subrange(0, m) =~= mark@);
        } else if mark@.is_prefix_of(key@) {
            assert(key@.subrange(0, m)[i as int] == mark@[i as int]);
        }
    }
    let from: usize = if i == mark.len() {
        i
    } else {
        0
    };
    proof {
        assert(key@.skip(0) =~= key@);
    }
    bytes_from(key, from)
}

/// The bytes from a place on.
fn bytes_from(bytes: &[u8], from: usize) -> (r: Vec<u8>)
    requires
        from <= bytes@.len(),
    ensures
        r@ == bytes@.skip(from as int),
{
    let mut out: Vec<u8> = Vec::new();
    let mut i: usize = from;
    while i < bytes.len()
        invariant
            from <= i <= bytes@.len(),
            out@ == bytes@.subrange(from as int, i as int),
        decreases bytes@.len() - i,
    {
        out.push(bytes[i]);
        i = i + 1;
    }
    proof {
        assert(bytes@.subrange(from as int, i as int) =~= bytes@.skip(from as int));
    }
    out
}

impl KeyFailure {
    pub open spec fn words(self) -> Seq<char> {
        match self {
            KeyFailure::NotJson(words) => "parsing Chrome Local State JSON: "@ + words,
            KeyFailure::Missing => "os_crypt.encrypted_key not found in Chrome Local State"@,
            KeyFailure::NotBase64(words) => "base64-decoding Chrome master key: "@ + words,
        }
    }
}

impl KeyError {
    /// The error in words.
    pub fn message(&self) -> (r: String)
        ensures
            r@ == self@.words(),
    {
        match self {
            KeyError::NotJson(words) => text::cat2("parsing Chrome Local State JSON: ", words.as_str()),
            KeyError::Missing => "os_crypt.encrypted_key not found in Chrome Local State".to_owned(),
            KeyError::NotBase64(words) => text::cat2("base64-decoding Chrome master key: ", words.as_str()),
        }
    }
}

/// The salt of every key that Chrome derives.
pub const SALT: &'static str = "saltysalt";

/// The number of bytes that are derived from a keychain password: the first 16 are a key for
/// AES-128, the first 32 one for AES-256.
pub const KEYCHAIN_KEY_LENGTH: usize = 48;

/// The key material for a password from the keychain.
pub open spec fn keychain_key(password: Seq<char>) -> Seq<u8> {
    pbkdf2_sha1(
        vstd::utf8::encode_utf8(text::trimmed(password)),
        vstd::utf8::encode_utf8(SALT@),
        1003,
        KEYCHAIN_KEY_LENGTH as nat,
    )
}

/// The key material for a password as the keychain prints it; `None` if that is not valid
/// UTF-8.
pub fn derive_keychain_key(printed: Vec<u8>) -> (r: Option<Vec<u8>>)
    ensures
        match r {
            Some(key) => vstd::utf8::valid_utf8(printed@) && key@ == keychain_key(vstd::utf8::decode_utf8(printed@))
                && key@.len() == KEYCHAIN_KEY_LENGTH,
            None => !vstd::utf8::valid_utf8(printed@),
        },
{
    match String::from_utf8(printed) {
        Ok(password) => {
            let password = text::trim(password.as_str());
            Some(derive_key(password.as_str().as_bytes(), SALT.as_bytes(), 1003, KEYCHAIN_KEY_LENGTH))
        },
        Err(_) => None,
    }
}

/// Where the master key that Chrome encrypts cookies with comes from.
#[derive(Debug, Clone, Copy, PartialEq, Eq, Structural)]
pub enum KeySource {
    /// The `Local State` file, in which the system protects it.
    LocalState,
    /// A password in the keychain.
    Keychain,
    /// There is none to be had: only cookies that are not encrypted can be read.
    Nowhere,
}

/// Where the master key comes from on a system, for all profiles alike.
pub fn key_source(platform: Platform) -> (r: KeySource)
    ensures
        r == match platform {
            Platform::Windows => KeySource::LocalState,
            Platform::MacOs => KeySource::Keychain,
            Platform::Other => KeySource::Nowhere,
        },
{
    match platform {
        Platform::Windows => KeySource::LocalState,
        Platform::MacOs => KeySource::Keychain,
        Platform::Other => KeySource::Nowhere,
    }
}

/// The master key, given what its source held: the key as the system unprotected it, or the
/// password as the keychain printed it. `None` if a password is not valid UTF-8; where there is
/// no source the key is empty.
pub fn chrome_master_key(source: KeySource, held: Vec<u8>) -> (r: Option<Vec<u8>>)
    ensures
        match source {
            KeySource::LocalState => r matches Some(key) && key@ == held@,
            KeySource::Keychain => match r {
                Some(key) => vstd::utf8::valid_utf8(held@) && key@ == keychain_key(vstd::utf8::decode_utf8(held@))
                    && key@.len() == KEYCHAIN_KEY_LENGTH,
                None => !vstd::utf8::valid_utf8(held@),
            },
            KeySource::Nowhere => r matches Some(key) && key@ == Seq::<u8>::empty(),
        },
{
    match source {
        KeySource::LocalState => Some(held),
        KeySource::Keychain => derive_keychain_key(held),
        KeySource::Nowhere => Some(Vec::new()),
    }
}

// ---------------------------------------------------------------------------
// AES-256-GCM
// ---------------------------------------------------------------------------

/// The text that a cookie was encrypted from with AES-256-GCM: a mark of three bytes, a nonce
/// of twelve, and the encrypted text with its tag.
pub open spec fn gcm_text(encrypted: Seq<u8>, key: Seq<u8>) -> Result<Seq<char>, DecryptError> {
    if encrypted.len() < 15 {
        Err(DecryptError::TooShort)
    } else if key.len() != 32 {
        Err(DecryptError::GcmKey)
    } else {
        match gcm_plaintext(key, encrypted.subrange(3, 15), encrypted.skip(15)) {
            Some(bytes) => if vstd::utf8::valid_utf8(bytes) {
                Ok(vstd::utf8::decode_utf8(bytes))
            } else {
                Err(DecryptError::NotUtf8)
            },
            None => Err(DecryptError::GcmFailed),
        }
    }
}

/// Decrypts a cookie with AES-256-GCM.
pub fn chrome_decrypt_gcm(encrypted: &[u8], key: &[u8]) -> (r: Result<String, DecryptError>)
    ensures
        match r {
            Ok(s) => gcm_text(encrypted@, key@) == Ok::<Seq<char>, DecryptError>(s@),
            Err(e) => gcm_text(encrypted@, key@) == Err::<Seq<char>, DecryptError>(e),
        },
{
    if encrypted.len() < 15 {
        return Err(DecryptError::TooShort);
    }
    if key.len() != 32 {
        return Err(DecryptError::GcmKey);
    }
    let nonce = vstd::slice::slice_subrange(encrypted, 3, 15);
    let data = vstd::slice::slice_subrange(encrypted, 15, encrypted.len());
    proof {
        assert(data@ =~= encrypted@.skip(15));
    }
    text_of_plaintext(gcm_decrypt(key, nonce, data), DecryptError::GcmFailed)
}

/// The text of decrypted bytes, or the failure to decrypt them.
pub fn text_of_plaintext(plain: Option<Vec<u8>>, failed: DecryptError) -> (r: Result<String, DecryptError>)
    ensures
        match plain {
            Some(bytes) => if vstd::utf8::valid_utf8(bytes@) {
                r matches Ok(s) && s@ == vstd::utf8::decode_utf8(bytes@)
            } else {
                r == Err::<String, DecryptError>(DecryptError::NotUtf8)
            },
            None => r == Err::<String, DecryptError>(failed),
        },
{
    match plain {
        Some(bytes) => match String::from_utf8(bytes) {
            Ok(s) => Ok(s),
            Err(_) => Err(DecryptError::NotUtf8),
        },
        None => Err(failed),
    }
}

// ---------------------------------------------------------------------------
// AES-128-CBC
// ---------------------------------------------------------------------------

/// `n` times the same byte.
pub open spec fn repeated(b: u8, n: nat) -> Seq<u8> {
    Seq::new(n, |i: int| b)
}

/// The initialisation vector that Chrome uses: sixteen spaces.
pub open spec fn fixed_iv() -> Seq<u8> {
    repeated(0x20, 16)
}

/// Why bytes could not be decrypted with AES-128-CBC.
#[derive(Debug)]
pub enum CbcError {
    TooShort,
    /// The key is not one for AES-128: it has so many bytes.
    Key(usize),
    /// The initialisation vector does not have sixteen bytes.
    Vector,
    /// The decrypted bytes do not end in a padding.
    Padding,
}

impl CbcError {
    pub open spec fn words(self) -> Seq<char> {
        match self {
            CbcError::TooShort => "too short"@,
            CbcError::Key(n) => "key must be 16 bytes (got "@ + text::decimal(n as nat) + ")"@,
            CbcError::Vector => "IV must be 16 bytes"@,
            CbcError::Padding => "PKCS7 failed"@,
        }
    }

    /// The error in words.
    pub fn message(&self) -> (r: String)
        ensures
            r@ == self.words(),
    {
        match self {
            CbcError::TooShort => "too short".to_owned(),
            CbcError::Key(n) => text::cat3("key must be 16 bytes (got ", text::show_u64(*n as u64).as_str(), ")"),
            CbcError::Vector => "IV must be 16 bytes".to_owned(),
            CbcError::Padding => "PKCS7 failed".to_owned(),
        }
    }
}

/// What became of bytes that were decrypted with AES-128-CBC.
pub open spec fn unpadded(plain: Option<Seq<u8>>) -> Result<Seq<u8>, CbcError> {
    match plain {
        Some(bytes) => Ok(bytes),
        None => Err(CbcError::Padding),
    }
}

/// The bytes that a cookie was encrypted from with AES-128-CBC: a mark of three bytes, and the
/// encrypted text.
pub open spec fn cbc_raw(encrypted: Seq<u8>, key: Seq<u8>, iv: Seq<u8>) -> Result<Seq<u8>, CbcError> {
    if encrypted.len() < 3 {
        Err(CbcError::TooShort)
    } else if key.len() != 16 {
        Err(CbcError::Key(key.len() as usize))
    } else if iv.len() != 16 {
        Err(CbcError::Vector)
    } else {
        unpadded(cbc_plaintext(key, iv, encrypted.skip(3)))
    }
}

/// What became of bytes that were decrypted with AES-128-CBC.
pub open spec fn raw_view(r: Result<Vec<u8>, CbcError>) -> Result<Seq<u8>, CbcError> {
    match r {
        Ok(bytes) => Ok(bytes@),
        Err(e) => Err(e),
    }
}

/// The text that a cookie was encrypted from with AES-128-CBC and the fixed vector.
pub open spec fn cbc_text(encrypted: Seq<u8>, key: Seq<u8>) -> Result<Seq<char>, DecryptError> {
    if encrypted.len() < 3 {
        Err(DecryptError::TooShort)
    } else if key.len() != 16 {
        Err(DecryptError::CbcKey(key.len() as usize))
    } else {
        match cbc_plaintext(key, fixed_iv(), encrypted.skip(3)) {
            Some(bytes) => if vstd::utf8::valid_utf8(bytes) {
                Ok(vstd::utf8::decode_utf8(bytes))
            } else {
                Err(DecryptError::NotUtf8)
            },
            None => Err(DecryptError::CbcFailed),
        }
    }
}

/// Sixteen times the same byte.
fn sixteen(b: u8) -> (r: Vec<u8>)
    ensures
        r@ == repeated(b, 16),
{
    let mut out: Vec<u8> = Vec::new();
    let mut i: usize = 0;
    while i < 16
        invariant
            i <= 16,
            out@ == repeated(b, i as nat),
        decreases 16 - i,
    {
        out.push(b);
        i = i + 1;
        proof {
            assert(out@ =~= repeated(b, i as nat));
        }
    }
    out
}

/// What became of bytes that were decrypted with AES-128-CBC.
pub fn check_padding(plain: Option<Vec<u8>>) -> (r: Result<Vec<u8>, CbcError>)
    ensures
        raw_view(r) == unpadded(
            match plain {
                Some(bytes) => Some(bytes@),
                None => None,
            },
        ),
{
    match plain {
        Some(bytes) => Ok(bytes),
        None => Err(CbcError::Padding),
    }
}

/// Decrypts a cookie with AES-128-CBC, as it is.
pub fn cbc_decrypt_raw_iv(encrypted: &[u8], key: &[u8], iv: &[u8]) -> (r: Result<Vec<u8>, CbcError>)
    ensures
        raw_view(r) == cbc_raw(encrypted@, key@, iv@),
{
    if encrypted.len() < 3 {
        return Err(CbcError::TooShort);
    }
    if key.len() != 16 {
        return Err(CbcError::Key(key.len()));
    }
    if iv.len() != 16 {
        return Err(CbcError::Vector);
    }
    let data = vstd::slice::slice_subrange(encrypted, 3, encrypted.len());
    proof {
        assert(data@ =~= encrypted@.skip(3));
    }
    check_padding(cbc_decrypt(key, iv, data))
}

/// Decrypts a cookie with AES-128-CBC and the fixed vector.
pub fn chrome_decrypt_cbc(encrypted: &[u8], key: &[u8]) -> (r: Result<String, DecryptError>)
    ensures
        match r {
            Ok(s) => cbc_text(encrypted@, key@) == Ok::<Seq<char>, DecryptError>(s@),
            Err(e) => cbc_text(encrypted@, key@) == Err::<Seq<char>, DecryptError>(e),
        },
{
    if encrypted.len() < 3 {
        return Err(DecryptError::TooShort);
    }
    if key.len() != 16 {
        return Err(DecryptError::CbcKey(key.len()));
    }
    let iv = sixteen(0x20);
    let data = vstd::slice::slice_subrange(encrypted, 3, encrypted.len());
    proof {
        assert(data@ =~= encrypted@.skip(3));
    }
    text_of_plaintext(cbc_decrypt(key, iv.as_slice(), data), DecryptError::CbcFailed)
}

// ---------------------------------------------------------------------------
// macOS
// ---------------------------------------------------------------------------

/// The two hexadecimal digits of a byte.
pub open spec fn hex_digits(b: u8) -> Seq<char> {
    seq![hex_digit(b / 16), hex_digit(b % 16)]
}

pub open spec fn hex_digit(n: u8) -> char {
    if n < 10 {
        (n + 48) as char
    } else {
        (n + 87) as char
    }
}

/// Bytes in hexadecimal digits, as a list in brackets.
pub open spec fn hex(bytes: Seq<u8>) -> Seq<char> {
    "["@ + text::joined(bytes.map_values(|b: u8| hex_digits(b)), ", "@) + "]"@
}

/// The greatest number up to `n` of first bytes that are valid UTF-8.
pub open spec fn valid_length(bytes: Seq<u8>, n: nat) -> nat
    decreases n,
{
    if n == 0 || vstd::utf8::valid_utf8(bytes.take(n as int)) {
        n
    } else {
        valid_length(bytes, (n - 1) as nat)
    }
}

/// What attempts to decrypt a cookie have come to: a text, once one of them gave one, and the
/// lines that report them.
pub struct Trace {
    pub found: Option<Seq<char>>,
    pub lines: Seq<output::LineModel>,
}

impl Trace {
    /// These attempts and, where they came to no text, the next ones.
    pub open spec fn otherwise(self, next: Trace) -> Trace {
        if self.found is Some {
            self
        } else {
            Trace { found: next.found, lines: self.lines + next.lines }
        }
    }
}

/// No attempt.
pub open spec fn nothing() -> Trace {
    Trace { found: None, lines: Seq::empty() }
}

/// No attempt, but a line.
pub open spec fn noted(words: Seq<char>) -> Trace {
    Trace { found: None, lines: seq![output::warned("[debug] "@ + words)] }
}

/// An attempt that gave a text, and a line.
pub open spec fn found(s: Seq<char>, words: Seq<char>) -> Trace {
    Trace { found: Some(s), lines: seq![output::warned("[debug] "@ + words)] }
}

/// The attempt to read decrypted bytes as a text from a place on, NUL characters at its end
/// aside.
pub open spec fn offset_trace(label: Seq<char>, raw: Seq<u8>, offset: nat) -> Trace {
    let rest = raw.skip(offset as int);
    let place = label + " offset="@ + text::decimal(offset);
    if raw.len() <= offset {
        nothing()
    } else if vstd::utf8::valid_utf8(rest) {
        let s = text::without_trailing(vstd::utf8::decode_utf8(rest), '\0');
        if s.len() > 0 {
            found(s, place + " → valid UTF-8: "@ + text::debug_text(s))
        } else {
            noted(place + " → valid UTF-8 but empty after trim"@)
        }
    } else {
        noted(
            place + " → not UTF-8 at byte "@ + text::decimal(valid_length(rest, rest.len())) + ": "@ + hex(rest),
        )
    }
}

/// The attempt to read decrypted bytes as a text: from the start, behind one block that is no
/// text, or behind two.
pub open spec fn raw_trace(label: Seq<char>, raw: Seq<u8>) -> Trace {
    noted(label + " raw ("@ + text::decimal(raw.len()) + " bytes): "@ + hex(raw)).otherwise(
        offset_trace(label, raw, 0),
    ).otherwise(offset_trace(label, raw, 16)).otherwise(offset_trace(label, raw, 32))
}

/// The attempt to decrypt a cookie with AES-128-CBC, given what became of its bytes.
pub open spec fn cbc_trace(label: Seq<char>, raw: Result<Seq<u8>, CbcError>) -> Trace {
    match raw {
        Ok(bytes) => raw_trace(label, bytes),
        Err(e) => noted(label + " failed: "@ + e.words()),
    }
}

/// The attempt to decrypt a cookie with AES-128-CBC and a vector that stands before the
/// encrypted text.
pub open spec fn embedded_trace(encrypted: Seq<u8>, key: Seq<u8>) -> Trace {
    if encrypted.len() >= 35 {
        let iv = encrypted.subrange(3, 19);
        noted("embedded-iv: "@ + hex(iv)).otherwise(
            cbc_trace("keychain-cbc-embedded-iv"@, unpadded(cbc_plaintext(key, iv, encrypted.skip(19)))),
        )
    } else {
        nothing()
    }
}

/// The attempt to decrypt a cookie with AES-256-GCM, given what it came to.
pub open spec fn gcm_trace(outcome: Result<Seq<char>, DecryptError>) -> Trace {
    match outcome {
        Ok(s) => found(s, "keychain-gcm → OK"@),
        Err(e) => noted("keychain-gcm failed: "@ + e.words()),
    }
}

/// The key that Chrome uses where it has no password.
pub open spec fn default_key() -> Seq<u8> {
    pbkdf2_sha1(vstd::utf8::encode_utf8("peanuts"@), vstd::utf8::encode_utf8(SALT@), 1, 16)
}

/// The attempts to decrypt a cookie with the keychain's key: with AES-128-CBC and the fixed
/// vector, the same with a vector that stands in the cookie, and with AES-256-GCM.
pub open spec fn keychain_trace(encrypted: Seq<u8>, key: Seq<u8>) -> Trace {
    noted("encrypted ("@ + text::decimal(encrypted.len()) + " bytes): "@ + hex(encrypted)).otherwise(
        noted("keychain-cbc-key (16B): "@ + hex(key.take(16))),
    ).otherwise(cbc_trace("keychain-cbc-fixed-iv"@, cbc_raw(encrypted, key.take(16), fixed_iv()))).otherwise(
        embedded_trace(encrypted, key.take(16)),
    ).otherwise(noted("keychain-gcm-key (32B): "@ + hex(key.take(32)))).otherwise(
        gcm_trace(gcm_text(encrypted, key.take(32))),
    )
}

/// The attempts to decrypt a cookie with the default key and AES-128-CBC: with the fixed vector
/// and with one of zeros.
pub open spec fn default_trace(encrypted: Seq<u8>) -> Trace {
    noted("peanuts-key: "@ + hex(default_key())).otherwise(
        cbc_trace("peanuts-cbc-fixed-iv"@, cbc_raw(encrypted, default_key(), fixed_iv())),
    ).otherwise(cbc_trace("peanuts-cbc-zero-iv"@, cbc_raw(encrypted, default_key(), repeated(0, 16))))
}

/// The attempts to decrypt a cookie on macOS, one after the other until one gives a text.
pub open spec fn macos_trace(encrypted: Seq<u8>, key: Seq<u8>) -> Trace {
    keychain_trace(encrypted, key).otherwise(default_trace(encrypted))
}

/// Bytes in hexadecimal digits, as a list in brackets.
pub fn show_hex(bytes: &[u8]) -> (r: String)
    ensures
        r@ == hex(bytes@),
{
    let mut parts: Vec<String> = Vec::new();
    let mut i: usize = 0;
    while i < bytes.len()
        invariant
            i <= bytes@.len(),
            parts@.len() == i,
            forall|k: int| 0 <= k < i ==> (#[trigger] parts@[k])@ == hex_digits(bytes@[k]),
        decreases bytes@.len() - i,
    {
        let high: u8 = bytes[i] / 16;
        let low: u8 = bytes[i] % 16;
        let mut part = String::new();
        part.push(hex_char(high));
        part.push(hex_char(low));
        proof {
            assert(part@ =~= hex_digits(bytes@[i as int]));
        }
        parts.push(part);
        i = i + 1;
    }
    proof {
        assert(text::views(parts@) =~= bytes@.map_values(|b: u8| hex_digits(b)));
    }
    text::cat3("[", text::join(&parts, ", ").as_str(), "]")
}

fn hex_char(n: u8) -> (r: char)
    requires
        n < 16,
    ensures
        r == hex_digit(n),
{
    if n < 10 {
        (n + 48) as char
    } else {
        (n + 87) as char
    }
}

/// The greatest number of first bytes that are valid UTF-8.
pub fn count_valid(bytes: &[u8]) -> (r: usize)
    ensures
        r == valid_length(bytes@, bytes@.len()),
{
    let mut n: usize = bytes.len();
    while n > 0
        invariant
            n <= bytes@.len(),
            valid_length(bytes@, bytes@.len()) == valid_length(bytes@, n as nat),
        decreases n,
    {
        let first = vstd::slice::slice_subrange(bytes, 0, n);
        proof {
            assert(first@ =~= bytes@.take(n as int));
            assert(first@.skip(0) =~= first@);
        }
        if String::from_utf8(bytes_from(first, 0)).is_ok() {
            return n;
        }
        n = n - 1;
    }
    n
}

/// Adds a line to the report of attempts.
fn note(lines: &mut Vec<Line>, words: &str)
    ensures
        output::line_views(final(lines)@) == output::line_views(old(lines)@) + noted(words@).lines,
{
    output::put(lines, output::warn(text::cat2("[debug] ", words).as_str()));
    proof {
        assert(output::line_views(lines@) =~= output::line_views(old(lines)@) + noted(words@).lines);
    }
}

/// Reads decrypted bytes as a text from a place on.
fn read_from(label: &str, raw: &[u8], offset: usize, lines: &mut Vec<Line>) -> (r: Option<String>)
    ensures
        ({
            let trace = offset_trace(label@, raw@, offset as nat);
            &&& text::option_view(r) == trace.found
            &&& output::line_views(final(lines)@) == output::line_views(old(lines)@) + trace.lines
        }),
{
    if raw.len() <= offset {
        proof {
            assert(output::line_views(lines@) + Seq::<output::LineModel>::empty() =~= output::line_views(lines@));
        }
        return None;
    }
    let place = text::cat3(label, " offset=", text::show_u64(offset as u64).as_str());
    let rest = bytes_from(raw, offset);
    let valid: usize = count_valid(rest.as_slice());
    let dump = show_hex(rest.as_slice());
    match String::from_utf8(rest) {
        Ok(s) => {
            let s = text::trim_end_char(s.as_str(), '\0');
            if s.as_str().is_empty() {
                note(lines, text::cat2(place.as_str(), " → valid UTF-8 but empty after trim").as_str());
                None
            } else {
                let quoted = text::show_debug(s.as_str());
                note(lines, text::cat3(place.as_str(), " → valid UTF-8: ", quoted.as_str()).as_str());
                Some(s)
            }
        },
        Err(_) => {
            note(
                lines,
                text::cat5(
                    place.as_str(),
                    " → not UTF-8 at byte ",
                    text::show_u64(valid as u64).as_str(),
                    ": ",
                    dump.as_str(),
                ).as_str(),
            );
            None
        },
    }
}

/// Reads decrypted bytes as a text, and adds lines that report it: from the start, behind one
/// block that is no text, or behind two.
pub fn try_offsets(label: &str, raw: &[u8], lines: &mut Vec<Line>) -> (r: Option<String>)
    ensures
        text::option_view(r) == raw_trace(label@, raw@).found,
        output::line_views(final(lines)@) == output::line_views(old(lines)@) + raw_trace(label@, raw@).lines,
{
    let ghost before = output::line_views(lines@);
    let ghost head = noted(label@ + " raw ("@ + text::decimal(raw@.len()) + " bytes): "@ + hex(raw@));
    note(
        lines,
        text::cat5(
            label,
            " raw (",
            text::show_u64(raw.len() as u64).as_str(),
            " bytes): ",
            show_hex(raw).as_str(),
        ).as_str(),
    );
    let at_start = read_from(label, raw, 0, lines);
    let ghost first = head.otherwise(offset_trace(label@, raw@, 0));
    proof {
        assert(output::line_views(lines@) =~= before + first.lines);
    }
    if at_start.is_some() {
        return at_start;
    }
    let after_one = read_from(label, raw, 16, lines);
    let ghost second = first.otherwise(offset_trace(label@, raw@, 16));
    proof {
        assert(output::line_views(lines@) =~= before + second.lines);
    }
    if after_one.is_some() {
        return after_one;
    }
    let after_two = read_from(label, raw, 32, lines);
    proof {
        assert(output::line_views(lines@) =~= before + raw_trace(label@, raw@).lines);
    }
    after_two
}

/// Reads what became of decrypted bytes as a text, and adds lines that report it.
pub fn try_cbc(label: &str, raw: Result<Vec<u8>, CbcError>, lines: &mut Vec<Line>) -> (r: Option<String>)
    ensures
        text::option_view(r) == cbc_trace(label@, raw_view(raw)).found,
        output::line_views(final(lines)@) == output::line_views(old(lines)@) + cbc_trace(label@, raw_view(raw)).lines,
{
    match raw {
        Ok(bytes) => try_offsets(label, bytes.as_slice(), lines),
        Err(e) => {
            note(lines, text::cat3(label, " failed: ", e.message().as_str()).as_str());
            None
        },
    }
}

/// Reads what AES-256-GCM came to, and adds a line that reports it.
pub fn try_gcm(outcome: Result<String, DecryptError>, lines: &mut Vec<Line>) -> (r: Option<String>)
    ensures
        ({
            let trace = gcm_trace(
                match outcome {
                    Ok(s) => Ok(s@),
                    Err(e) => Err(e),
                },
            );
            &&& text::option_view(r) == trace.found
            &&& output::line_views(final(lines)@) == output::line_views(old(lines)@) + trace.lines
        }),
{
    match outcome {
        Ok(s) => {
            note(lines, "keychain-gcm → OK");
            Some(s)
        },
        Err(e) => {
            note(lines, text::cat2("keychain-gcm failed: ", e.message().as_str()).as_str());
            None
        },
    }
}

/// Decrypts a cookie with the keychain's key.
fn try_keychain(encrypted: &[u8], key: &[u8], lines: &mut Vec<Line>) -> (r: Option<String>)
    requires
        key@.len() >= 32,
    ensures
        text::option_view(r) == keychain_trace(encrypted@, key@).found,
        output::line_views(final(lines)@) == output::line_views(old(lines)@) + keychain_trace(
            encrypted@,
            key@,
        ).lines,
{
    let ghost before = output::line_views(lines@);
    let cbc_key = vstd::slice::slice_subrange(key, 0, 16);
    let gcm_key = vstd::slice::slice_subrange(key, 0, 32);
    let fixed = sixteen(0x20);
    proof {
        assert(cbc_key@ =~= key@.take(16));
        assert(gcm_key@ =~= key@.take(32));
    }
    note(
        lines,
        text::cat4(
            "encrypted (",
            text::show_u64(encrypted.len() as u64).as_str(),
            " bytes): ",
            show_hex(encrypted).as_str(),
        ).as_str(),
    );
    note(lines, text::cat2("keychain-cbc-key (16B): ", show_hex(cbc_key).as_str()).as_str());
    let ghost head = noted("encrypted ("@ + text::decimal(encrypted@.len()) + " bytes): "@ + hex(encrypted@)).otherwise(
        noted("keychain-cbc-key (16B): "@ + hex(cbc_key@)),
    );
    let with_fixed = try_cbc(
        "keychain-cbc-fixed-iv",
        cbc_decrypt_raw_iv(encrypted, cbc_key, fixed.as_slice()),
        lines,
    );
    let ghost first = head.otherwise(cbc_trace("keychain-cbc-fixed-iv"@, cbc_raw(encrypted@, cbc_key@, fixed_iv())));
    proof {
        assert(output::line_views(lines@) =~= before + first.lines);
    }
    if with_fixed.is_some() {
        return with_fixed;
    }
    let embedded = try_embedded(encrypted, cbc_key, lines);
    let ghost second = first.otherwise(embedded_trace(encrypted@, cbc_key@));
    proof {
        assert(output::line_views(lines@) =~= before + second.lines);
    }
    if embedded.is_some() {
        return embedded;
    }
    note(lines, text::cat2("keychain-gcm-key (32B): ", show_hex(gcm_key).as_str()).as_str());
    let with_gcm = try_gcm(chrome_decrypt_gcm(encrypted, gcm_key), lines);
    proof {
        assert(output::line_views(lines@) =~= before + keychain_trace(encrypted@, key@).lines);
    }
    with_gcm
}

/// Decrypts a cookie with AES-128-CBC and a vector that stands before the encrypted text.
fn try_embedded(encrypted: &[u8], key: &[u8], lines: &mut Vec<Line>) -> (r: Option<String>)
    requires
        key@.len() == 16,
    ensures
        text::option_view(r) == embedded_trace(encrypted@, key@).found,
        output::line_views(final(lines)@) == output::line_views(old(lines)@) + embedded_trace(encrypted@, key@).lines,
{
    let ghost before = output::line_views(lines@);
    if encrypted.len() < 35 {
        proof {
            assert(before + Seq::<output::LineModel>::empty() =~= before);
        }
        return None;
    }
    let iv = vstd::slice::slice_subrange(encrypted, 3, 19);
    let data = vstd::slice::slice_subrange(encrypted, 19, encrypted.len());
    proof {
        assert(data@ =~= encrypted@.skip(19));
    }
    note(lines, text::cat2("embedded-iv: ", show_hex(iv).as_str()).as_str());
    let r = try_cbc("keychain-cbc-embedded-iv", check_padding(cbc_decrypt(key, iv, data)), lines);
    proof {
        assert(output::line_views(lines@) =~= before + embedded_trace(encrypted@, key@).lines);
    }
    r
}

/// Decrypts a cookie with the default key.
fn try_default(encrypted: &[u8], lines: &mut Vec<Line>) -> (r: Option<String>)
    ensures
        text::option_view(r) == default_trace(encrypted@).found,
        output::line_views(final(lines)@) == output::line_views(old(lines)@) + default_trace(encrypted@).lines,
{
    let ghost before = output::line_views(lines@);
    let key = derive_key("peanuts".as_bytes(), SALT.as_bytes(), 1, 16);
    let fixed = sixteen(0x20);
    let zeros = sixteen(0);
    note(lines, text::cat2("peanuts-key: ", show_hex(key.as_slice()).as_str()).as_str());
    let with_fixed = try_cbc(
        "peanuts-cbc-fixed-iv",
        cbc_decrypt_raw_iv(encrypted, key.as_slice(), fixed.as_slice()),
        lines,
    );
    let ghost first = noted("peanuts-key: "@ + hex(default_key())).otherwise(
        cbc_trace("peanuts-cbc-fixed-iv"@, cbc_raw(encrypted@, default_key(), fixed_iv())),
    );
    proof {
        assert(output::line_views(lines@) =~= before + first.lines);
    }
    if with_fixed.is_some() {
        return with_fixed;
    }
    let with_zeros = try_cbc(
        "peanuts-cbc-zero-iv",
        cbc_decrypt_raw_iv(encrypted, key.as_slice(), zeros.as_slice()),
        lines,
    );
    proof {
        assert(output::line_views(lines@) =~= before + default_trace(encrypted@).lines);
    }
    with_zeros
}

/// Decrypts a cookie on macOS, and reports every attempt.
pub fn chrome_decrypt_macos(encrypted: &[u8], key: &[u8]) -> (r: (Result<String, DecryptError>, Vec<Line>))
    requires
        key@.len() >= 32,
    ensures
        ({
            let trace = macos_trace(encrypted@, key@);
            &&& output::line_views(r.1@) == trace.lines
            &&& match r.0 {
                Ok(s) => trace.found == Some(s@),
                Err(e) => trace.found is None && e == DecryptError::AllFailed,
            }
        }),
{
    let mut lines: Vec<Line> = Vec::new();
    let with_keychain = try_keychain(encrypted, key, &mut lines);
    proof {
        assert(output::line_views(lines@) =~= keychain_trace(encrypted@, key@).lines);
    }
    if let Some(s) = with_keychain {
        return (Ok(s), lines);
    }
    match try_default(encrypted, &mut lines) {
        Some(s) => (Ok(s), lines),
        None => (Err(DecryptError::AllFailed), lines),
    }
}

/// The text of a cookie on a system, or why there is none.
pub open spec fn decrypted(platform: Platform, encrypted: Seq<u8>, key: Seq<u8>) -> Result<Seq<char>, DecryptError> {
    match platform {
        Platform::Windows => gcm_text(encrypted, key),
        Platform::MacOs => match macos_trace(encrypted, key).found {
            Some(s) => Ok(s),
            None => Err(DecryptError::AllFailed),
        },
        Platform::Other => Err(DecryptError::Unsupported),
    }
}

/// The lines that report how a cookie was decrypted on a system.
pub open spec fn decrypt_lines(platform: Platform, encrypted: Seq<u8>, key: Seq<u8>) -> Seq<output::LineModel> {
    match platform {
        Platform::MacOs => macos_trace(encrypted, key).lines,
        _ => Seq::empty(),
    }
}

/// Whether a key is long enough for the ways that a system protects cookies in.
pub open spec fn usable_key(platform: Platform, key: Seq<u8>) -> bool {
    platform == Platform::MacOs ==> key.len() >= 32
}

/// Decrypts a cookie as the system that it comes from asks for it, and reports how.
pub fn chrome_decrypt(platform: Platform, encrypted: &[u8], key: &[u8]) -> (r: (Result<String, DecryptError>, Vec<Line>))
    requires
        usable_key(platform, key@),
    ensures
        match r.0 {
            Ok(s) => decrypted(platform, encrypted@, key@) == Ok::<Seq<char>, DecryptError>(s@),
            Err(e) => decrypted(platform, encrypted@, key@) == Err::<Seq<char>, DecryptError>(e),
        },
        output::line_views(r.1@) == decrypt_lines(platform, encrypted@, key@),
{
    let none: Vec<Line> = Vec::new();
    proof {
        assert(output::line_views(none@) =~= Seq::empty());
    }
    match platform {
        Platform::Windows => (chrome_decrypt_gcm(encrypted, key), none),
        Platform::MacOs => chrome_decrypt_macos(encrypted, key),
        Platform::Other => (Err(DecryptError::Unsupported), none),
    }
}

// ---------------------------------------------------------------------------
// Laws
// ---------------------------------------------------------------------------

/// The mark before a key is taken off, once, and a key without it stays as it is.
pub proof fn law_unmarked(key: Seq<u8>)
    ensures
        unmarked(vstd::utf8::encode_utf8("DPAPI"@) + key) == key,
        !vstd::utf8::encode_utf8("DPAPI"@).is_prefix_of(key) ==> unmarked(key) == key,
{
    let mark = vstd::utf8::encode_utf8("DPAPI"@);
    let marked = mark + key;
    assert(marked.subrange(0, mark.len() as int) =~= mark);
    assert(marked.skip(mark.len() as int) =~= key);
}

/// The protected key is what a state file holds in base64 under `os_crypt` and, below it,
/// `encrypted_key`, without its mark. Each way to fail is told by an error of its own, in the
/// order in which they are met.
pub proof fn law_protected_key(state: Seq<char>, encoded: Seq<char>)
    ensures
        json::parsed_json(state) is Err <==> (protected_key(state) matches Err(e) && e is NotJson),
        json::parsed_json(state) matches Err(words) ==> protected_key(state) == Err::<Seq<u8>, KeyFailure>(
            KeyFailure::NotJson(words),
        ),
        json::parsed_json(state) matches Ok(t) ==> {
            let held = json::text_below(t, "os_crypt"@, "encrypted_key"@);
            &&& held is None ==> protected_key(state) == Err::<Seq<u8>, KeyFailure>(KeyFailure::Missing)
            &&& held == Some(encoded) ==> match base64_decoded(encoded) {
                Ok(key) => protected_key(state) == Ok::<Seq<u8>, KeyFailure>(unmarked(key)),
                Err(words) => protected_key(state) == Err::<Seq<u8>, KeyFailure>(KeyFailure::NotBase64(words)),
            }
        },
{
}

/// White space round the password that the keychain prints makes no difference to the key.
pub proof fn law_keychain_password_is_trimmed(a: Seq<char>, password: Seq<char>, b: Seq<char>)
    requires
        forall|i: int| 0 <= i < a.len() ==> text::white(#[trigger] a[i]),
        forall|i: int| 0 <= i < b.len() ==> text::white(#[trigger] b[i]),
    ensures
        keychain_key(a + password + b) == keychain_key(password),
        password.len() > 0 && !text::white(password[0]) && !text::white(password.last()) ==> keychain_key(password)
            == pbkdf2_sha1(vstd::utf8::encode_utf8(password), vstd::utf8::encode_utf8("saltysalt"@), 1003, 48),
{
    text::law_trimmed_ignores_white_space(a, password, b);
    text::law_trimmed_ignores_white_space(Seq::empty(), password, Seq::empty());
}

/// The key without a password is derived in one round, and is one for AES-128.
pub proof fn law_default_key()
    ensures
        default_key() == pbkdf2_sha1(
            vstd::utf8::encode_utf8("peanuts"@),
            vstd::utf8::encode_utf8("saltysalt"@),
            1,
            16,
        ),
{
}

/// What was encrypted with AES-256-GCM is a mark of three bytes, which does not matter, a nonce
/// of twelve, and the rest. With a key for AES-256 it gives the text that the rest decrypts to.
pub proof fn law_gcm_text(mark: Seq<u8>, nonce: Seq<u8>, data: Seq<u8>, key: Seq<u8>)
    requires
        mark.len() == 3,
        nonce.len() == 12,
    ensures
        ({
            let outcome = gcm_text(mark + nonce + data, key);
            &&& key.len() != 32 <==> outcome == Err::<Seq<char>, DecryptError>(DecryptError::GcmKey)
            &&& key.len() == 32 ==> match gcm_plaintext(key, nonce, data) {
                Some(bytes) => {
                    &&& vstd::utf8::valid_utf8(bytes) ==> outcome == Ok::<Seq<char>, DecryptError>(
                        vstd::utf8::decode_utf8(bytes),
                    )
                    &&& !vstd::utf8::valid_utf8(bytes) ==> outcome == Err::<Seq<char>, DecryptError>(
                        DecryptError::NotUtf8,
                    )
                },
                None => outcome == Err::<Seq<char>, DecryptError>(DecryptError::GcmFailed),
            }
        }),
{
    let whole = mark + nonce + data;
    assert(whole.subrange(3, 15) =~= nonce);
    assert(whole.skip(15) =~= data);
}

/// Too few bytes for a mark and a nonce are told as such, whatever the key.
pub proof fn law_gcm_needs_a_nonce(encrypted: Seq<u8>, key: Seq<u8>)
    ensures
        encrypted.len() < 15 <==> gcm_text(encrypted, key) == Err::<Seq<char>, DecryptError>(DecryptError::TooShort),
{
}

/// What was encrypted with AES-128-CBC is a mark of three bytes, which does not matter, and the
/// rest, which is decrypted with the key and the vector that are given.
pub proof fn law_cbc_raw(mark: Seq<u8>, data: Seq<u8>, key: Seq<u8>, iv: Seq<u8>)
    requires
        mark.len() == 3,
        key.len() == 16,
        iv.len() == 16,
    ensures
        cbc_plaintext(key, iv, data) matches Some(bytes) ==> cbc_raw(mark + data, key, iv) == Ok::<
            Seq<u8>,
            CbcError,
        >(bytes),
        cbc_plaintext(key, iv, data) is None ==> cbc_raw(mark + data, key, iv) == Err::<Seq<u8>, CbcError>(
            CbcError::Padding,
        ),
{
    assert((mark + data).skip(3) =~= data);
}

/// Too few bytes for a mark, and a key or a vector of another length, are told as such.
pub proof fn law_cbc_raw_errors(encrypted: Seq<u8>, key: Seq<u8>, iv: Seq<u8>)
    requires
        key.len() <= usize::MAX,
    ensures
        cbc_raw(encrypted, key, iv) == Err::<Seq<u8>, CbcError>(CbcError::TooShort) <==> encrypted.len() < 3,
        encrypted.len() >= 3 && key.len() != 16 ==> (cbc_raw(encrypted, key, iv) matches Err(CbcError::Key(n)) && n
            == key.len()),
        encrypted.len() >= 3 && key.len() == 16 && iv.len() != 16 ==> cbc_raw(encrypted, key, iv) == Err::<
            Seq<u8>,
            CbcError,
        >(CbcError::Vector),
{
}

/// The text of a cookie that was encrypted with AES-128-CBC is what its bytes decrypt to with a
/// vector of sixteen spaces.
pub proof fn law_cbc_text(mark: Seq<u8>, data: Seq<u8>, key: Seq<u8>, iv: Seq<u8>)
    requires
        mark.len() == 3,
        key.len() == 16,
        iv.len() == 16,
        forall|i: int| 0 <= i < 16 ==> #[trigger] iv[i] == ' ' as u8,
    ensures
        match cbc_plaintext(key, iv, data) {
            Some(bytes) => {
                &&& vstd::utf8::valid_utf8(bytes) ==> cbc_text(mark + data, key) == Ok::<Seq<char>, DecryptError>(
                    vstd::utf8::decode_utf8(bytes),
                )
                &&& !vstd::utf8::valid_utf8(bytes) ==> cbc_text(mark + data, key) == Err::<Seq<char>, DecryptError>(
                    DecryptError::NotUtf8,
                )
            },
            None => cbc_text(mark + data, key) == Err::<Seq<char>, DecryptError>(DecryptError::CbcFailed),
        },
{
    assert((mark + data).skip(3) =~= data);
    assert(fixed_iv() =~= iv);
}

/// The number that a small hexadecimal digit stands for.
pub open spec fn hex_value(c: char) -> int {
    if '0' <= c <= '9' {
        c as int - '0' as int
    } else {
        c as int - 'a' as int + 10
    }
}

/// A byte is written as two small hexadecimal digits, the greater first, and can be read back
/// from them.
pub proof fn law_hex_digits(b: u8)
    ensures
        hex_digits(b).len() == 2,
        forall|i: int| 0 <= i < 2 ==> '0' <= #[trigger] hex_digits(b)[i] <= '9' || 'a' <= hex_digits(b)[i] <= 'f',
        16 * hex_value(hex_digits(b)[0]) + hex_value(hex_digits(b)[1]) == b,
{
    let high: u8 = b / 16;
    let low: u8 = b % 16;
    assert(high < 16 && low < 16);
    assert(hex_digits(b)[0] == hex_digit(high) && hex_digits(b)[1] == hex_digit(low));
    assert(high < 10 ==> hex_digit(high) as int == high + 48);
    assert(high >= 10 ==> hex_digit(high) as int == high + 87);
    assert(low < 10 ==> hex_digit(low) as int == low + 48);
    assert(low >= 10 ==> hex_digit(low) as int == low + 87);
}

/// A list of bytes is written byte by byte, in order, with commas between them and brackets
/// round them.
pub proof fn law_hex(bytes: Seq<u8>, b: u8)
    ensures
        hex(Seq::empty()) == "[]"@,
        hex(seq![b]) == "["@ + hex_digits(b) + "]"@,
        bytes.len() > 0 ==> hex(bytes.push(b)) == hex(bytes).drop_last() + ", "@ + hex_digits(b) + "]"@,
{
    reveal_strlit("[]");
    reveal_strlit("[");
    reveal_strlit("]");
    let digits = |b: u8| hex_digits(b);
    let parts = bytes.map_values(digits);
    text::law_joined(parts, ", "@, hex_digits(b));
    assert(Seq::<u8>::empty().map_values(digits) =~= Seq::empty());
    assert(hex(Seq::empty()) =~= "[]"@);
    assert(seq![b].map_values(digits) =~= seq![hex_digits(b)]);
    assert(bytes.push(b).map_values(digits) =~= parts.push(hex_digits(b)));
    if bytes.len() > 0 {
        assert(hex(bytes).drop_last() =~= "["@ + text::joined(parts, ", "@));
        assert(hex(bytes.push(b)) =~= hex(bytes).drop_last() + ", "@ + hex_digits(b) + "]"@);
    }
}

/// The place that is reported for bytes that are no text is the end of the longest beginning
/// that is one.
pub proof fn law_valid_length(bytes: Seq<u8>, n: nat)
    ensures
        valid_length(bytes, n) <= n,
        valid_length(bytes, n) > 0 ==> vstd::utf8::valid_utf8(bytes.take(valid_length(bytes, n) as int)),
        forall|k: int| valid_length(bytes, n) < k <= n ==> !vstd::utf8::valid_utf8(#[trigger] bytes.take(k)),
    decreases n,
{
    if n > 0 && !vstd::utf8::valid_utf8(bytes.take(n as int)) {
        law_valid_length(bytes, (n - 1) as nat);
    }
}

/// Bytes that hold a text behind some others, with NUL characters behind it or not, are read as
/// that text from where it begins.
pub proof fn law_offset_trace(label: Seq<char>, block: Seq<u8>, s: Seq<char>, nuls: Seq<char>)
    requires
        s.len() > 0,
        s.last() != '\0',
        forall|i: int| 0 <= i < nuls.len() ==> #[trigger] nuls[i] == '\0',
    ensures
        offset_trace(label, block + vstd::utf8::encode_utf8(s + nuls), block.len()).found == Some(s),
{
    let encoded = vstd::utf8::encode_utf8(s + nuls);
    let raw = block + encoded;
    assert(raw.skip(block.len() as int) =~= encoded);
    vstd::utf8::encode_utf8_valid_utf8(s + nuls);
    vstd::utf8::encode_utf8_decode_utf8(s + nuls);
    if encoded.len() == 0 {
        assert(encoded =~= vstd::utf8::encode_utf8(Seq::<char>::empty()));
        vstd::utf8::encode_utf8_decode_utf8(Seq::<char>::empty());
        assert((s + nuls).len() == 0);
    }
    lemma_nuls(s, nuls);
}

proof fn lemma_nuls(s: Seq<char>, nuls: Seq<char>)
    requires
        s.len() > 0,
        s.last() != '\0',
        forall|i: int| 0 <= i < nuls.len() ==> #[trigger] nuls[i] == '\0',
    ensures
        text::without_trailing(s + nuls, '\0') == s,
    decreases nuls.len(),
{
    if nuls.len() > 0 {
        assert((s + nuls).last() == nuls[nuls.len() - 1]);
        assert((s + nuls).drop_last() =~= s + nuls.drop_last());
        lemma_nuls(s, nuls.drop_last());
    } else {
        assert(s + nuls =~= s);
    }
}

/// What is read from a place on is a text that is not empty and does not end in a NUL character.
/// Where there are no bytes behind the place, and where they are no text, nothing is.
pub proof fn law_offset_trace_gives_text(label: Seq<char>, raw: Seq<u8>, offset: nat)
    ensures
        offset_trace(label, raw, offset).found matches Some(s) ==> {
            &&& offset < raw.len()
            &&& vstd::utf8::valid_utf8(raw.skip(offset as int))
            &&& s.is_prefix_of(vstd::utf8::decode_utf8(raw.skip(offset as int)))
            &&& s.len() > 0 && s.last() != '\0'
        },
        raw.len() <= offset ==> offset_trace(label, raw, offset).found is None && offset_trace(
            label,
            raw,
            offset,
        ).lines.len() == 0,
        raw.len() > offset ==> offset_trace(label, raw, offset).lines.len() == 1,
{
    text::law_without_trailing(vstd::utf8::decode_utf8(raw.skip(offset as int)), '\0');
}

/// Attempts follow each other until one gives a text: that text is the outcome, and no attempt
/// behind it is made or reported. All before it are reported, in order.
pub proof fn law_first_text_wins(first: Trace, next: Trace)
    ensures
        first.found is Some ==> first.otherwise(next) == first,
        first.found is None ==> first.otherwise(next).found == next.found && first.otherwise(next).lines
            == first.lines + next.lines,
{
}

/// Decrypted bytes are read as a text from their start, else behind the first block of sixteen,
/// else behind the second.
pub proof fn law_raw_trace_offsets(label: Seq<char>, raw: Seq<u8>)
    ensures
        ({
            let outcome = raw_trace(label, raw).found;
            let start = offset_trace(label, raw, 0).found;
            let one = offset_trace(label, raw, 16).found;
            let two = offset_trace(label, raw, 32).found;
            &&& start is Some ==> outcome == start
            &&& start is None && one is Some ==> outcome == one
            &&& start is None && one is None ==> outcome == two
        }),
{
}

/// A text behind one block of sixteen bytes that are no text is found, and so is one behind two.
pub proof fn law_text_behind_blocks_is_found(label: Seq<char>, block: Seq<u8>, s: Seq<char>)
    requires
        s.len() > 0,
        s.last() != '\0',
        block.len() == 0 || block.len() == 16 || block.len() == 32,
        block.len() > 0 ==> !vstd::utf8::valid_utf8(block + vstd::utf8::encode_utf8(s)),
        block.len() == 32 ==> !vstd::utf8::valid_utf8(block.skip(16) + vstd::utf8::encode_utf8(s)),
    ensures
        raw_trace(label, block + vstd::utf8::encode_utf8(s)).found == Some(s),
{
    let raw = block + vstd::utf8::encode_utf8(s);
    assert(s + Seq::<char>::empty() =~= s);
    law_offset_trace(label, block, s, Seq::empty());
    law_raw_trace_offsets(label, raw);
    assert(raw.skip(0) =~= raw);
    law_offset_trace_gives_text(label, raw, 0);
    law_offset_trace_gives_text(label, raw, 16);
    if block.len() == 32 {
        assert(raw.skip(16) =~= block.skip(16) + vstd::utf8::encode_utf8(s));
    }
}

/// On macOS a cookie is decrypted with the first sixteen bytes of the keychain's key and the fixed
/// vector, else with a vector that stands behind the mark, else with the first thirty-two bytes
/// and AES-256-GCM, else with the default key and the fixed vector, else with one of zeros. The
/// first of these that gives a text decides, and where none does there is none.
pub proof fn law_macos_attempts(encrypted: Seq<u8>, key: Seq<u8>)
    requires
        encrypted.len() >= 3,
        key.len() >= 32,
    ensures
        ({
            let data = encrypted.skip(3);
            let spaces = repeated(' ' as u8, 16);
            let zeros = repeated(0, 16);
            let fixed = cbc_found(cbc_plaintext(key.take(16), spaces, data));
            let embedded = if encrypted.len() >= 35 {
                cbc_found(cbc_plaintext(key.take(16), data.take(16), data.skip(16)))
            } else {
                None
            };
            let gcm = match gcm_text(encrypted, key.take(32)) {
                Ok(s) => Some(s),
                Err(_) => None,
            };
            let weak = cbc_found(cbc_plaintext(default_key(), spaces, data));
            let weaker = cbc_found(cbc_plaintext(default_key(), zeros, data));
            let outcome = macos_trace(encrypted, key).found;
            &&& fixed is Some ==> outcome == fixed
            &&& fixed is None && embedded is Some ==> outcome == embedded
            &&& fixed is None && embedded is None && gcm is Some ==> outcome == gcm
            &&& fixed is None && embedded is None && gcm is None && default_key().len() == 16 ==> outcome == if weak
                is Some {
                weak
            } else {
                weaker
            }
        }),
{
    let data = encrypted.skip(3);
    assert(fixed_iv() =~= repeated(' ' as u8, 16));
    assert(key.take(16).len() == 16);
    if encrypted.len() >= 35 {
        assert(encrypted.subrange(3, 19) =~= data.take(16));
        assert(encrypted.skip(19) =~= data.skip(16));
    }
    lemma_cbc_found("keychain-cbc-fixed-iv"@, cbc_plaintext(key.take(16), fixed_iv(), data));
    lemma_cbc_found("keychain-cbc-embedded-iv"@, cbc_plaintext(key.take(16), data.take(16), data.skip(16)));
    lemma_cbc_found("peanuts-cbc-fixed-iv"@, cbc_plaintext(default_key(), fixed_iv(), data));
    lemma_cbc_found("peanuts-cbc-zero-iv"@, cbc_plaintext(default_key(), repeated(0, 16), data));
}

/// The text that decrypted bytes give, if they were decrypted.
pub open spec fn cbc_found(plain: Option<Seq<u8>>) -> Option<Seq<char>> {
    match plain {
        Some(bytes) => raw_trace(Seq::empty(), bytes).found,
        None => None,
    }
}

/// What is found does not depend on the label that the attempt is reported under.
proof fn lemma_cbc_found(label: Seq<char>, plain: Option<Seq<u8>>)
    ensures
        cbc_trace(label, unpadded(plain)).found == cbc_found(plain),
{
}

/// A cookie is decrypted as its system protects it: with AES-256-GCM on Windows, in the ways of
/// macOS there, and not at all elsewhere. Only on macOS is there anything to report.
pub proof fn law_platforms(encrypted: Seq<u8>, key: Seq<u8>)
    ensures
        decrypted(Platform::Windows, encrypted, key) == gcm_text(encrypted, key),
        decrypted(Platform::Other, encrypted, key) == Err::<Seq<char>, DecryptError>(DecryptError::Unsupported),
        macos_trace(encrypted, key).found matches Some(s) ==> decrypted(Platform::MacOs, encrypted, key) == Ok::<
            Seq<char>,
            DecryptError,
        >(s),
        macos_trace(encrypted, key).found is None ==> decrypted(Platform::MacOs, encrypted, key) == Err::<
            Seq<char>,
            DecryptError,
        >(DecryptError::AllFailed),
        decrypt_lines(Platform::Windows, encrypted, key).len() == 0,
        decrypt_lines(Platform::Other, encrypted, key).len() == 0,
        decrypt_lines(Platform::MacOs, encrypted, key).len() >= 2,
{
    lemma_traces_report(encrypted, key);
}

proof fn lemma_traces_report(encrypted: Seq<u8>, key: Seq<u8>)
    ensures
        macos_trace(encrypted, key).lines.len() >= 2,
{
    let first = noted("encrypted ("@ + text::decimal(encrypted.len()) + " bytes): "@ + hex(encrypted)).otherwise(
        noted("keychain-cbc-key (16B): "@ + hex(key.take(16))),
    );
    assert(first.lines.len() == 2);
    let a = first.otherwise(cbc_trace("keychain-cbc-fixed-iv"@, cbc_raw(encrypted, key.take(16), fixed_iv())));
    assert(a.lines.len() >= 2);
    let b = a.otherwise(embedded_trace(encrypted, key.take(16)));
    assert(b.lines.len() >= 2);
    let c = b.otherwise(noted("keychain-gcm-key (32B): "@ + hex(key.take(32))));
    assert(c.lines.len() >= 2);
    assert(keychain_trace(encrypted, key) == c.otherwise(gcm_trace(gcm_text(encrypted, key.take(32)))));
}

/// The errors for a key end in the words that they come with.
pub proof fn law_key_failures_name_their_cause(words: Seq<char>)
    ensures
        words.is_suffix_of(KeyFailure::NotJson(words).words()),
        words.is_suffix_of(KeyFailure::NotBase64(words).words()),
        text::occurs(KeyFailure::Missing.words(), "os_crypt.encrypted_key"@),
{
    reveal_strlit("os_crypt.encrypted_key");
    reveal_strlit("os_crypt.encrypted_key not found in Chrome Local State");
    text::lemma_suffix("parsing Chrome Local State JSON: "@, words);
    text::lemma_suffix("base64-decoding Chrome master key: "@, words);
    assert(KeyFailure::Missing.words().subrange(0int, 0int + "os_crypt.encrypted_key"@.len())
        =~= "os_crypt.encrypted_key"@);
}

/// A key of the wrong length is reported with its length.
pub proof fn law_wrong_keys_are_reported(n: usize)
    ensures
        text::occurs(DecryptError::CbcKey(n).words(), "got "@ + text::decimal(n as nat) + ")"@),
        text::occurs(CbcError::Key(n).words(), "got "@ + text::decimal(n as nat) + ")"@),
{
    reveal_strlit(")");
    reveal_strlit("got ");
    reveal_strlit("CBC key must be 16 bytes (got ");
    reveal_strlit("key must be 16 bytes (got ");
    let needle = "got "@ + text::decimal(n as nat) + ")"@;
    let a = DecryptError::CbcKey(n).words();
    let b = CbcError::Key(n).words();
    assert(a.subrange(a.len() - needle.len(), a.len() - needle.len() + needle.len()) =~= needle);
    assert(b.subrange(b.len() - needle.len(), b.len() - needle.len() + needle.len()) =~= needle);
}

/// Whether all lines are notes for debugging, on the standard error.
pub open spec fn only_notes(lines: Seq<output::LineModel>) -> bool {
    forall|i: int|
        0 <= i < lines.len() ==> (#[trigger] lines[i]).stream == output::Stream::Error && lines[i].spans.len() == 1
            && "[debug] "@.is_prefix_of(lines[i].spans[0].1)
}

/// All that is reported of the attempts to decrypt a cookie are notes for debugging, on the
/// standard error.
pub proof fn law_attempts_are_notes(encrypted: Seq<u8>, key: Seq<u8>)
    ensures
        only_notes(macos_trace(encrypted, key).lines),
{
    let fixed = cbc_raw(encrypted, key.take(16), fixed_iv());
    let iv = encrypted.subrange(3, 19);
    let embedded = unpadded(cbc_plaintext(key.take(16), iv, encrypted.skip(19)));
    let weak = cbc_raw(encrypted, default_key(), fixed_iv());
    let weaker = cbc_raw(encrypted, default_key(), repeated(0, 16));
    lemma_note("encrypted ("@ + text::decimal(encrypted.len()) + " bytes): "@ + hex(encrypted));
    lemma_note("keychain-cbc-key (16B): "@ + hex(key.take(16)));
    lemma_note("embedded-iv: "@ + hex(iv));
    lemma_note("keychain-gcm-key (32B): "@ + hex(key.take(32)));
    lemma_note("peanuts-key: "@ + hex(default_key()));
    lemma_cbc_notes("keychain-cbc-fixed-iv"@, fixed);
    lemma_cbc_notes("keychain-cbc-embedded-iv"@, embedded);
    lemma_cbc_notes("peanuts-cbc-fixed-iv"@, weak);
    lemma_cbc_notes("peanuts-cbc-zero-iv"@, weaker);
    lemma_note("keychain-gcm → OK"@);
    let gcm = gcm_text(encrypted, key.take(32));
    if let Err(e) = gcm {
        lemma_note("keychain-gcm failed: "@ + e.words());
    }
}

proof fn lemma_note(words: Seq<char>)
    ensures
        only_notes(noted(words).lines),
        only_notes(found(words, words).lines),
{
    let line = "[debug] "@ + words;
    assert(line.subrange(0, "[debug] "@.len() as int) =~= "[debug] "@);
}

proof fn lemma_offset_notes(label: Seq<char>, raw: Seq<u8>, offset: nat)
    ensures
        only_notes(offset_trace(label, raw, offset).lines),
{
    let rest = raw.skip(offset as int);
    let place = label + " offset="@ + text::decimal(offset);
    let s = text::without_trailing(vstd::utf8::decode_utf8(rest), '\0');
    lemma_note(place + " → valid UTF-8: "@ + text::debug_text(s));
    lemma_note(place + " → valid UTF-8 but empty after trim"@);
    lemma_note(
        place + " → not UTF-8 at byte "@ + text::decimal(valid_length(rest, rest.len())) + ": "@ + hex(rest),
    );
}

proof fn lemma_cbc_notes(label: Seq<char>, raw: Result<Seq<u8>, CbcError>)
    ensures
        only_notes(cbc_trace(label, raw).lines),
{
    match raw {
        Ok(bytes) => {
            lemma_note(label + " raw ("@ + text::decimal(bytes.len()) + " bytes): "@ + hex(bytes));
            lemma_offset_notes(label, bytes, 0);
            lemma_offset_notes(label, bytes, 16);
            lemma_offset_notes(label, bytes, 32);
        },
        Err(e) => {
            lemma_note(label + " failed: "@ + e.words());
        },
    }
}

/// An attempt to read bytes from a place on is reported with its label and the place, and with
/// what came out: the text as it is shown for debugging, or the bytes that are no text.
pub proof fn law_offsets_are_reported(label: Seq<char>, raw: Seq<u8>, offset: nat)
    requires
        offset < raw.len(),
    ensures
        ({
            let trace = offset_trace(label, raw, offset);
            let words = trace.lines[0].spans[0].1;
            &&& ("[debug] "@ + label + " offset="@ + text::decimal(offset)).is_prefix_of(words)
            &&& trace.found matches Some(s) ==> text::debug_text(s).is_suffix_of(words)
            &&& !vstd::utf8::valid_utf8(raw.skip(offset as int)) ==> hex(raw.skip(offset as int)).is_suffix_of(words)
        }),
{
    let rest = raw.skip(offset as int);
    let place = label + " offset="@ + text::decimal(offset);
    let trace = offset_trace(label, raw, offset);
    let words = trace.lines[0].spans[0].1;
    let front = "[debug] "@ + label + " offset="@ + text::decimal(offset);
    assert(words.subrange(0, front.len() as int) =~= front);
    if let Some(s) = trace.found {
        assert(words =~= ("[debug] "@ + place + " → valid UTF-8: "@) + text::debug_text(s));
        text::lemma_suffix("[debug] "@ + place + " → valid UTF-8: "@, text::debug_text(s));
    }
    if !vstd::utf8::valid_utf8(rest) {
        let start = "[debug] "@ + place + " → not UTF-8 at byte "@ + text::decimal(valid_length(rest, rest.len()))
            + ": "@;
        assert(words =~= start + hex(rest));
        text::lemma_suffix(start, hex(rest));
    }
}

/// What is reported of some attempts stays in front of what is reported of the next.
pub proof fn law_reports_stay_in_order(first: Trace, next: Trace)
    ensures
        first.lines.is_prefix_of(first.otherwise(next).lines),
        first.found is None ==> next.lines.is_suffix_of(first.otherwise(next).lines),
{
    let lines = first.otherwise(next).lines;
    assert(lines.subrange(0, first.lines.len() as int) =~= first.lines);
    if first.found is None {
        assert(lines.subrange(lines.len() - next.lines.len(), lines.len() as int) =~= next.lines);
    }
}

/// An attempt with AES-128-CBC is reported with its label: first with the bytes that came out, or,
/// where none did, in one line with the reason.
pub proof fn law_cbc_attempt_is_reported(label: Seq<char>, raw: Result<Seq<u8>, CbcError>)
    ensures
        ({
            let lines = cbc_trace(label, raw).lines;
            let words = lines[0].spans[0].1;
            &&& lines.len() > 0
            &&& ("[debug] "@ + label).is_prefix_of(words)
            &&& raw matches Ok(bytes) ==> hex(bytes).is_suffix_of(words)
            &&& raw matches Err(e) ==> lines.len() == 1 && e.words().is_suffix_of(words)
        }),
{
    let trace = cbc_trace(label, raw);
    let words = trace.lines[0].spans[0].1;
    let front = "[debug] "@ + label;
    match raw {
        Ok(bytes) => {
            let first = noted(label + " raw ("@ + text::decimal(bytes.len()) + " bytes): "@ + hex(bytes));
            let second = first.otherwise(offset_trace(label, bytes, 0));
            let third = second.otherwise(offset_trace(label, bytes, 16));
            assert(second.lines[0] == first.lines[0]);
            assert(third.lines[0] == first.lines[0]);
            assert(trace.lines[0] == first.lines[0]);
            let start = "[debug] "@ + label + " raw ("@ + text::decimal(bytes.len()) + " bytes): "@;
            assert(words =~= start + hex(bytes));
            text::lemma_suffix(start, hex(bytes));
        },
        Err(e) => {
            let start = "[debug] "@ + label + " failed: "@;
            assert(words =~= start + e.words());
            text::lemma_suffix(start, e.words());
        },
    }
    assert(words.subrange(0, front.len() as int) =~= front);
}

/// An attempt with AES-256-GCM is reported in one line, with the reason where it failed. The text
/// that it gives is the one that is found.
pub proof fn law_gcm_attempt_is_reported(outcome: Result<Seq<char>, DecryptError>)
    ensures
        gcm_trace(outcome).lines.len() == 1,
        outcome matches Ok(s) ==> gcm_trace(outcome).found == Some(s),
        outcome matches Err(e) ==> gcm_trace(outcome).found is None && e.words().is_suffix_of(
            gcm_trace(outcome).lines[0].spans[0].1,
        ),
{
    if let Err(e) = outcome {
        let words = gcm_trace(outcome).lines[0].spans[0].1;
        assert(words =~= ("[debug] "@ + "keychain-gcm failed: "@) + e.words());
        text::lemma_suffix("[debug] "@ + "keychain-gcm failed: "@, e.words());
    }
}

/// Before any attempt the encrypted bytes and the key for AES-128 are reported, and before the
/// attempts with the default key that key.
pub proof fn law_inputs_are_reported(encrypted: Seq<u8>, key: Seq<u8>)
    ensures
        ({
            let lines = macos_trace(encrypted, key).lines;
            &&& lines.len() >= 2
            &&& hex(encrypted).is_suffix_of(lines[0].spans[0].1)
            &&& hex(key.take(16)).is_suffix_of(lines[1].spans[0].1)
            &&& hex(default_key()).is_suffix_of(default_trace(encrypted).lines[0].spans[0].1)
            &&& keychain_trace(encrypted, key).lines.is_prefix_of(lines)
        }),
{
    let a = noted("encrypted ("@ + text::decimal(encrypted.len()) + " bytes): "@ + hex(encrypted));
    let b = a.otherwise(noted("keychain-cbc-key (16B): "@ + hex(key.take(16))));
    let c = b.otherwise(cbc_trace("keychain-cbc-fixed-iv"@, cbc_raw(encrypted, key.take(16), fixed_iv())));
    let d = c.otherwise(embedded_trace(encrypted, key.take(16)));
    let e = d.otherwise(noted("keychain-gcm-key (32B): "@ + hex(key.take(32))));
    let f = e.otherwise(gcm_trace(gcm_text(encrypted, key.take(32))));
    assert(keychain_trace(encrypted, key) == f);
    law_reports_stay_in_order(f, default_trace(encrypted));
    assert(b.lines.len() == 2);
    assert(c.lines[0] == b.lines[0] && c.lines[1] == b.lines[1]);
    assert(d.lines[0] == b.lines[0] && d.lines[1] == b.lines[1]);
    assert(e.lines[0] == b.lines[0] && e.lines[1] == b.lines[1]);
    assert(f.lines[0] == b.lines[0] && f.lines[1] == b.lines[1]);
    let lines = macos_trace(encrypted, key).lines;
    assert(lines[0] == b.lines[0] && lines[1] == b.lines[1]);
    let front = "[debug] "@ + ("encrypted ("@ + text::decimal(encrypted.len()) + " bytes): "@);
    assert(lines[0].spans[0].1 =~= front + hex(encrypted));
    text::lemma_suffix(front, hex(encrypted));
    let label = "[debug] "@ + "keychain-cbc-key (16B): "@;
    assert(lines[1].spans[0].1 =~= label + hex(key.take(16)));
    text::lemma_suffix(label, hex(key.take(16)));
    let g = noted("peanuts-key: "@ + hex(default_key()));
    let h = g.otherwise(cbc_trace("peanuts-cbc-fixed-iv"@, cbc_raw(encrypted, default_key(), fixed_iv())));
    assert(h.lines[0] == g.lines[0]);
    let weak = default_trace(encrypted).lines;
    assert(weak[0] == g.lines[0]);
    assert(weak[0].spans[0].1 =~= ("[debug] "@ + "peanuts-key: "@) + hex(default_key()));
    text::lemma_suffix("[debug] "@ + "peanuts-key: "@, hex(default_key()));
}

} // verus!
