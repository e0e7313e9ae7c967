use aes::Aes128;
use aes_gcm::aead::{Aead, KeyInit};
use aes_gcm::Aes256Gcm;
use cbc::cipher::block_padding::Pkcs7;
use cbc::cipher::{BlockEncryptMut, KeyIvInit};
use rusty_jenkins::browser::{chrome_cookies, ChromeRow};
use rusty_jenkins::chrome::{
    cbc_decrypt_raw_iv, check_padding, chrome_decrypt, chrome_decrypt_cbc, chrome_decrypt_gcm, chrome_decrypt_macos,
    chrome_master_key, count_valid, decoded_key, derive_keychain_key, encoded_key, find_protected_key, key_source,
    show_hex, strip_mark, text_of_plaintext, try_cbc, try_gcm, try_offsets, CbcError, DecryptError, KeySource, Platform,
};
use rusty_jenkins::json::{read_json, Json, Member};
use rusty_jenkins::output::{Line, Stream};

fn gcm_wire(key: &[u8], nonce: &[u8; 12], plain: &[u8]) -> Vec<u8> {
    let cipher = Aes256Gcm::new_from_slice(key).unwrap();
    let ciphertext = cipher.encrypt(aes_gcm::Nonce::from_slice(nonce), plain).unwrap();
    let mut wire = b"v10".to_vec();
    wire.extend_from_slice(nonce);
    wire.extend_from_slice(&ciphertext);
    wire
}

fn cbc_wire(key: &[u8; 16], iv: &[u8; 16], plain: &[u8]) -> Vec<u8> {
    let ciphertext = cbc::Encryptor::<Aes128>::new(key.into(), iv.into()).encrypt_padded_vec_mut::<Pkcs7>(plain);
    let mut wire = b"v10".to_vec();
    wire.extend_from_slice(&ciphertext);
    wire
}

#[test]
fn chrome_decrypt_gcm_roundtrip() {
    let key = Aes256Gcm::generate_key(aes_gcm::aead::OsRng);
    let wire = gcm_wire(&key, &[1u8; 12], b"JSESSIONID-value");
    assert_eq!(chrome_decrypt(Platform::Windows, &wire, &key).0.unwrap(), "JSESSIONID-value");
}

#[test]
fn chrome_decrypt_gcm_rejects_too_short_input() {
    assert!(chrome_decrypt(Platform::Windows, b"v10short", &vec![0u8; 32]).0.is_err());
}

#[test]
fn chrome_decrypt_cbc_roundtrip() {
    let key = [0x42u8; 16];
    let iv = [0x20u8; 16];
    let wire = cbc_wire(&key, &iv, b"JSESSIONID-value");
    assert_eq!(chrome_decrypt_cbc(&wire, &key).unwrap(), "JSESSIONID-value");
}

#[test]
fn chrome_decrypt_cbc_rejects_too_short_input() {
    assert!(chrome_decrypt_cbc(b"v1", &[0u8; 16]).is_err());
}

#[test]
fn gcm_errors_are_told_apart() {
    let key = [7u8; 32];
    let short = chrome_decrypt_gcm(&[0u8; 14], &key).unwrap_err();
    assert_eq!(short.message(), "encrypted cookie value too short");
    let bad_key = chrome_decrypt_gcm(&[0u8; 15], &[7u8; 16]).unwrap_err();
    assert_eq!(bad_key.message(), "invalid AES-256 key length");
    let failed = chrome_decrypt_gcm(&[0u8; 40], &key).unwrap_err();
    assert_eq!(failed.message(), "AES-GCM decryption failed");
    let not_text = chrome_decrypt_gcm(&gcm_wire(&key, &[2u8; 12], &[0xff, 0xfe]), &key).unwrap_err();
    assert_eq!(not_text.message(), "cookie is not valid UTF-8");
    let mut changed = gcm_wire(&key, &[2u8; 12], b"abc");
    changed[16] ^= 1;
    assert!(matches!(chrome_decrypt_gcm(&changed, &key), Err(DecryptError::GcmFailed)));
    let other_nonce = gcm_wire(&key, &[3u8; 12], b"abc");
    assert_ne!(other_nonce, gcm_wire(&key, &[2u8; 12], b"abc"));
    assert_eq!(chrome_decrypt_gcm(&other_nonce, &key).unwrap(), "abc");
}

#[test]
fn cbc_errors_are_told_apart() {
    let e = chrome_decrypt_cbc(&[0u8; 19], &[0u8; 5]).unwrap_err();
    assert_eq!(e.message(), "CBC key must be 16 bytes (got 5)");
    let e = chrome_decrypt_cbc(&[0u8; 10], &[0u8; 16]).unwrap_err();
    assert_eq!(e.message(), "AES-128-CBC PKCS7 decryption failed");
    let e = chrome_decrypt_cbc(b"v10", &[0u8; 16]).unwrap_err();
    assert_eq!(e.message(), "AES-128-CBC PKCS7 decryption failed");
    let key = [1u8; 16];
    let e = chrome_decrypt_cbc(&cbc_wire(&key, &[0x20u8; 16], &[0xff]), &key).unwrap_err();
    assert_eq!(e.message(), "cookie is not valid UTF-8");
}

#[test]
fn raw_cbc_needs_key_and_vector() {
    let key = [1u8; 16];
    let iv = [9u8; 16];
    let wire = cbc_wire(&key, &iv, &[1, 2, 255]);
    assert_eq!(cbc_decrypt_raw_iv(&wire, &key, &iv).unwrap(), vec![1, 2, 255]);
    let words = |r: Result<Vec<u8>, CbcError>| r.unwrap_err().message();
    assert_eq!(words(cbc_decrypt_raw_iv(&wire, &key[..15], &iv)), "key must be 16 bytes (got 15)");
    assert_eq!(words(cbc_decrypt_raw_iv(&wire, &key, &iv[..15])), "IV must be 16 bytes");
    assert_eq!(words(cbc_decrypt_raw_iv(&wire[..2], &key[..15], &iv)), "too short");
    assert_eq!(words(cbc_decrypt_raw_iv(&wire[..18], &key, &iv)), "PKCS7 failed");
    assert_eq!(words(check_padding(None)), "PKCS7 failed");
    assert_eq!(check_padding(Some(vec![7])).unwrap(), vec![7]);
}

#[test]
fn cookies_are_not_decrypted_elsewhere() {
    let (outcome, lines) = chrome_decrypt(Platform::Other, b"v10", &[]);
    assert_eq!(outcome.unwrap_err().message(), "Chrome cookie decryption is not supported on this platform");
    assert!(lines.is_empty());
}

fn keychain() -> Vec<u8> {
    derive_keychain_key(b"  secret password\n".to_vec()).unwrap()
}

fn first16(key: &[u8]) -> [u8; 16] {
    let mut out = [0u8; 16];
    out.copy_from_slice(&key[..16]);
    out
}

#[test]
fn keychain_key_is_derived_from_the_trimmed_password() {
    let key = keychain();
    assert_eq!(key.len(), 48);
    assert_eq!(derive_keychain_key(b"secret password".to_vec()).unwrap(), key);
    assert_ne!(derive_keychain_key(b"other password".to_vec()).unwrap(), key);
    assert!(derive_keychain_key(vec![0xff]).is_none());
    let mut expected = vec![0u8; 48];
    pbkdf2::pbkdf2_hmac::<sha1::Sha1>(b"secret password", b"saltysalt", 1003, &mut expected);
    assert_eq!(key, expected);
}

fn texts(lines: &[Line]) -> Vec<String> {
    assert!(lines.iter().all(|l| l.stream == Stream::Error));
    lines.iter().map(|l| l.text()).collect()
}

#[test]
fn bytes_are_shown_as_std_shows_them() {
    for bytes in [vec![], vec![0], vec![9, 10, 15, 16, 99, 160, 255]] {
        assert_eq!(show_hex(&bytes), format!("{:02x?}", bytes));
    }
}

#[test]
fn valid_bytes_are_counted_as_std_counts_them() {
    for bytes in [&b"abc"[..], b"", b"\xff", b"ab\xff", b"a\xc3\xa9\xc3", b"\xe2\x82", b"a\xed\xa0\x80", b"\xc0\x80"] {
        let expected = match std::str::from_utf8(bytes) {
            Ok(s) => s.len(),
            Err(e) => e.valid_up_to(),
        };
        assert_eq!(count_valid(bytes), expected);
    }
}

#[test]
fn macos_decrypts_with_the_fixed_vector() {
    let key = keychain();
    let wire = cbc_wire(&first16(&key), &[0x20u8; 16], b"va\"lue\0\0");
    let (outcome, lines) = chrome_decrypt(Platform::MacOs, &wire, &key);
    assert_eq!(outcome.unwrap(), "va\"lue");
    assert_eq!(
        texts(&lines),
        vec![
            format!("[debug] encrypted (19 bytes): {:02x?}", wire),
            format!("[debug] keychain-cbc-key (16B): {:02x?}", &key[..16]),
            format!("[debug] keychain-cbc-fixed-iv raw (8 bytes): {:02x?}", b"va\"lue\0\0"),
            "[debug] keychain-cbc-fixed-iv offset=0 → valid UTF-8: \"va\\\"lue\"".to_string(),
        ]
    );
}

#[test]
fn macos_skips_blocks_that_are_no_text() {
    let key = keychain();
    let mut plain = vec![0xffu8; 32];
    plain.extend_from_slice(b"value");
    let wire = cbc_wire(&first16(&key), &[0x20u8; 16], &plain);
    let (outcome, lines) = chrome_decrypt_macos(&wire, &key);
    assert_eq!(outcome.unwrap(), "value");
    let lines = texts(&lines);
    assert_eq!(lines.len(), 6);
    assert_eq!(lines[3], format!("[debug] keychain-cbc-fixed-iv offset=0 → not UTF-8 at byte 0: {:02x?}", plain));
    assert_eq!(lines[5], "[debug] keychain-cbc-fixed-iv offset=32 → valid UTF-8: \"value\"");
}

#[test]
fn macos_decrypts_with_an_embedded_vector() {
    let key = keychain();
    let iv = [5u8; 16];
    let inner = cbc_wire(&first16(&key), &iv, b"embedded");
    let mut wire = b"v10".to_vec();
    wire.extend_from_slice(&iv);
    wire.extend_from_slice(&inner[3..]);
    let (outcome, _) = chrome_decrypt_macos(&wire, &key);
    assert!(outcome.unwrap().ends_with("embedded"));
}

#[test]
fn macos_decrypts_with_gcm() {
    let key = keychain();
    let wire = gcm_wire(&key[..32], &[4u8; 12], b"g");
    let (outcome, lines) = chrome_decrypt_macos(&wire, &key);
    assert_eq!(outcome.unwrap(), "g");
    assert_eq!(
        texts(&lines)[2..],
        [
            "[debug] keychain-cbc-fixed-iv failed: PKCS7 failed".to_string(),
            format!("[debug] keychain-gcm-key (32B): {:02x?}", &key[..32]),
            "[debug] keychain-gcm → OK".to_string(),
        ]
    );
}

#[test]
fn macos_decrypts_with_the_default_key() {
    let mut default = [0u8; 16];
    pbkdf2::pbkdf2_hmac::<sha1::Sha1>(b"peanuts", b"saltysalt", 1, &mut default);
    let wire = cbc_wire(&default, &[0x20u8; 16], b"peanut value");
    let (outcome, lines) = chrome_decrypt_macos(&wire, &keychain());
    assert_eq!(outcome.unwrap(), "peanut value");
    assert!(texts(&lines).contains(&format!("[debug] peanuts-key: {:02x?}", default)));
}

#[test]
fn macos_gives_up() {
    let key = keychain();
    let (outcome, lines) = chrome_decrypt_macos(b"v1", &key);
    let e = outcome.unwrap_err();
    assert_eq!(e.message(), "all macOS decryption strategies failed — see [debug] lines above");
    let lines = texts(&lines);
    assert_eq!(lines.len(), 8);
    assert_eq!(lines[0], "[debug] encrypted (2 bytes): [76, 31]");
    assert_eq!(lines[2], "[debug] keychain-cbc-fixed-iv failed: too short");
    assert_eq!(lines[4], "[debug] keychain-gcm failed: encrypted cookie value too short");
    assert_eq!(lines[6], "[debug] peanuts-cbc-fixed-iv failed: too short");
    assert_eq!(lines[7], "[debug] peanuts-cbc-zero-iv failed: too short");
}

#[test]
fn decrypted_bytes_are_read_at_three_places() {
    let read = |raw: &[u8]| {
        let mut lines = vec![];
        let found = try_offsets("l", raw, &mut lines);
        (found, texts(&lines).len())
    };
    assert_eq!(read(b"abc\0"), (Some("abc".to_string()), 2));
    let mut behind_one = vec![0xffu8; 16];
    behind_one.extend_from_slice(b"x");
    assert_eq!(read(&behind_one), (Some("x".to_string()), 3));
    assert_eq!(read(&[0u8; 40]), (None, 4));
    assert_eq!(read(&[]), (None, 1));
    let mut lines = vec![];
    assert_eq!(try_cbc("l", Err(CbcError::Vector), &mut lines), None);
    assert_eq!(try_gcm(Err(DecryptError::NotUtf8), &mut lines), None);
    assert_eq!(try_gcm(Ok("s".to_string()), &mut lines), Some("s".to_string()));
    assert_eq!(try_offsets("l", &[0], &mut lines), None);
    assert_eq!(
        texts(&lines),
        vec![
            "[debug] l failed: IV must be 16 bytes",
            "[debug] keychain-gcm failed: cookie is not valid UTF-8",
            "[debug] keychain-gcm → OK",
            "[debug] l raw (1 bytes): [00]",
            "[debug] l offset=0 → valid UTF-8 but empty after trim",
        ]
    );
}

#[test]
fn plaintext_becomes_text() {
    assert_eq!(text_of_plaintext(Some("é".as_bytes().to_vec()), DecryptError::GcmFailed).unwrap(), "é");
    assert!(matches!(text_of_plaintext(Some(vec![0x80]), DecryptError::GcmFailed), Err(DecryptError::NotUtf8)));
    assert!(matches!(text_of_plaintext(None, DecryptError::CbcFailed), Err(DecryptError::CbcFailed)));
}

#[test]
fn chrome_cookies_are_decrypted() {
    let key = [3u8; 32];
    let rows = vec![
        ChromeRow {
            name: "JSESSIONID.x".to_string(),
            value: String::new(),
            encrypted_value: gcm_wire(&key, &[1u8; 12], b"node0"),
        },
        ChromeRow { name: "JSESSIONID.y".to_string(), value: "p".to_string(), encrypted_value: vec![] },
    ];
    let (header, lines) = chrome_cookies(Platform::Windows, "h", &rows, &key);
    assert_eq!(header.unwrap(), "JSESSIONID.x=node0; JSESSIONID.y=p");
    assert!(lines.is_empty());
}

#[test]
fn protected_key_is_found_in_local_state() {
    let state = "{\"os_crypt\":{\"encrypted_key\":\"RFBBUElhYmM=\"},\"other\":1}";
    assert_eq!(find_protected_key(state).unwrap(), b"abc".to_vec());
    let unmarked = "{\"os_crypt\":{\"encrypted_key\":\"YWJj\"}}";
    assert_eq!(find_protected_key(unmarked).unwrap(), b"abc".to_vec());
}

#[test]
fn protected_key_errors_are_told_apart() {
    let not_json = find_protected_key("{").unwrap_err().message();
    assert!(not_json.starts_with("parsing Chrome Local State JSON: "));
    assert!(not_json.len() > "parsing Chrome Local State JSON: ".len());
    for state in ["{}", "{\"os_crypt\":{}}", "{\"os_crypt\":{\"encrypted_key\":7}}", "[]"] {
        assert_eq!(
            find_protected_key(state).unwrap_err().message(),
            "os_crypt.encrypted_key not found in Chrome Local State"
        );
    }
    let not_base64 = find_protected_key("{\"os_crypt\":{\"encrypted_key\":\"***\"}}").unwrap_err().message();
    assert!(not_base64.starts_with("base64-decoding Chrome master key: "));
}

#[test]
fn protected_key_steps() {
    let object = |key: &str, value: Json| Json::Object(vec![Member { key: key.to_string(), value }]);
    let key = object("encrypted_key", Json::Text("x".to_string()));
    assert_eq!(encoded_key(Ok(object("os_crypt", key))).unwrap(), "x");
    assert_eq!(
        encoded_key(Err("bad".to_string())).unwrap_err().message(),
        "parsing Chrome Local State JSON: bad"
    );
    assert!(encoded_key(Ok(Json::Null)).is_err());
    assert_eq!(decoded_key(Ok(b"DPAPI!".to_vec())).unwrap(), b"!".to_vec());
    assert_eq!(
        decoded_key(Err("bad".to_string())).unwrap_err().message(),
        "base64-decoding Chrome master key: bad"
    );
    assert_eq!(strip_mark(b"DPAPI"), Vec::<u8>::new());
    assert_eq!(strip_mark(b"DPAP"), b"DPAP".to_vec());
    assert_eq!(strip_mark(b"xDPAPI"), b"xDPAPI".to_vec());
}

#[test]
fn documents_are_read_as_trees() {
    let json = read_json("{\"a\": [1.5, null, true, \"s\", {\"b\": \"c\"}], \"a2\": {\"b\": \"d\", \"b\": \"e\"}}").unwrap();
    let items = match json.get("a").unwrap() {
        Json::Array(items) => items,
        _ => panic!("expected an array"),
    };
    assert!(matches!(&items[0], Json::Number(n) if n == "1.5"));
    assert!(matches!(items[1], Json::Null));
    assert!(matches!(items[2], Json::Bool(true)));
    assert!(matches!(&items[3], Json::Text(s) if s == "s"));
    assert!(matches!(items[4].get("b").unwrap(), Json::Text(s) if s == "c"));
    assert_eq!(json.text_below("a2", "b").unwrap(), "e");
    assert!(json.text_below("a", "b").is_none());
    assert!(json.text_below("x", "b").is_none());
    assert!(items[0].get("b").is_none());
    assert!(read_json("{").unwrap_err().contains("EOF"));
    assert!(read_json(&"[".repeat(1000)).unwrap_err().contains("recursion limit"));
}

#[test]
fn master_keys_come_from_where_the_system_keeps_them() {
    assert_eq!(key_source(Platform::Windows), KeySource::LocalState);
    assert_eq!(key_source(Platform::MacOs), KeySource::Keychain);
    assert_eq!(key_source(Platform::Other), KeySource::Nowhere);
    assert_eq!(chrome_master_key(KeySource::LocalState, vec![1, 2, 3]), Some(vec![1, 2, 3]));
    let key = chrome_master_key(KeySource::Keychain, b"  secret password\n".to_vec()).unwrap();
    assert_eq!(key.len(), 48);
    assert_eq!(Some(key), derive_keychain_key(b"secret password".to_vec()));
    assert_eq!(chrome_master_key(KeySource::Keychain, vec![0xff]), None);
    assert_eq!(chrome_master_key(KeySource::Nowhere, vec![0xff]), Some(vec![]));
}
