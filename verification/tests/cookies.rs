use remote::cookies::{
    decode_row, decode_rows, find_cookie, get_chromium_cookie, get_cookie_by_name,
    get_firefox_cookie, load_chromium_cookies, load_firefox_cookies, CookieRecord, EncryptedRow,
    PlainRow,
};
use remote::vault::{CipherKey, CipherParams, DecodeError};

fn params() -> CipherParams {
    CipherParams {
        passphrase: b"peanuts".to_vec(),
        salt: b"saltysalt".to_vec(),
        rounds: 1,
        iv: vec![32u8; 16],
    }
}

fn plain_row(host: &str, path: &str, secure: i64, name: &str, value: &str) -> PlainRow {
    PlainRow {
        host: String::from(host),
        path: String::from(path),
        secure,
        name: String::from(name),
        value: String::from(value),
    }
}

fn encrypted_row(host: &str, secure: i64, name: &str, value: &str, blob: &[u8]) -> EncryptedRow {
    EncryptedRow {
        host: String::from(host),
        path: String::from("/"),
        secure,
        name: String::from(name),
        value: String::from(value),
        encrypted_value: blob.to_vec(),
    }
}

fn record(domain: &str, path: &str, name: &str, value: &str, secure: bool) -> CookieRecord {
    CookieRecord {
        domain: String::from(domain),
        path: String::from(path),
        name: String::from(name),
        value: String::from(value),
        secure,
    }
}

// "abc123" under the parameters above.
const ABC123: [u8; 19] =
    [118, 49, 48, 179, 182, 213, 52, 51, 143, 90, 61, 125, 154, 220, 94, 51, 218, 106, 153];

// A block whose last plain byte is 17.
const OVERLONG: [u8; 19] =
    [118, 49, 48, 43, 246, 65, 94, 181, 127, 97, 45, 88, 203, 82, 124, 211, 19, 48, 134];

// Two bytes that are no text, then padding.
const NO_TEXT: [u8; 19] =
    [118, 49, 48, 155, 225, 117, 86, 249, 48, 244, 193, 47, 168, 214, 201, 129, 98, 154, 98];

#[test]
fn plain_store_lookup() {
    let rows = vec![
        plain_row("example.com", "/", 0, "token", "abc123"),
        plain_row("other.com", "/", 1, "token", "zzz"),
    ];
    let found = get_firefox_cookie(&rows, "example.com", "token").unwrap();
    assert_eq!(found.value, "abc123");
    assert_eq!(found, record("example.com", "/", "token", "abc123", false));
    assert_eq!(get_firefox_cookie(&rows, "example.com", "missing"), None);
    let other = get_firefox_cookie(&rows, "other.com", "token").unwrap();
    assert_eq!(other, record("other.com", "/", "token", "zzz", true));
    assert_eq!(get_firefox_cookie(&rows, "missing.com", "token"), None);
    assert_eq!(get_firefox_cookie(&Vec::new(), "example.com", "token"), None);
}

#[test]
fn plain_store_gives_one_record_for_each_row() {
    let rows = vec![
        plain_row("example.com", "/", 0, "token", "abc123"),
        plain_row("other.com", "/app", 1, "token", "zzz"),
        plain_row("example.com", "/", -1, "session", ""),
        plain_row("example.com", "/", 2, "token", "again"),
    ];
    assert_eq!(
        load_firefox_cookies(&rows),
        vec![
            record("example.com", "/", "token", "abc123", false),
            record("other.com", "/app", "token", "zzz", true),
            record("example.com", "/", "session", "", true),
            record("example.com", "/", "token", "again", true),
        ]
    );
    assert_eq!(load_firefox_cookies(&Vec::new()), Vec::new());
}

#[test]
fn first_match_wins() {
    let records = vec![
        record("example.com", "/", "other", "0", false),
        record("example.com", "/deep", "token", "first", false),
        record("sub.example.com", "/", "token", "elsewhere", false),
        record("example.com", "/", "token", "second", true),
    ];
    assert_eq!(find_cookie(&records, "token", "example.com"), Some(1));
    assert_eq!(find_cookie(&records, "token", "sub.example.com"), Some(2));
    assert_eq!(find_cookie(&records, "other", "example.com"), Some(0));
    assert_eq!(find_cookie(&records, "other", "sub.example.com"), None);
    assert_eq!(
        get_cookie_by_name(records.clone(), "token", "example.com"),
        Some(record("example.com", "/deep", "token", "first", false))
    );
    assert_eq!(get_cookie_by_name(records, "example.com", "token"), None);
}

#[test]
fn lookup_compares_whole_texts() {
    let records = vec![record(".example.com", "/", "token", "v", false)];
    assert_eq!(find_cookie(&records, "token", "example.com"), None);
    assert_eq!(find_cookie(&records, "token", ".example.com"), Some(0));
    assert_eq!(find_cookie(&records, "Token", ".example.com"), None);
    assert_eq!(find_cookie(&records, "token", ".EXAMPLE.com"), None);
    assert_eq!(find_cookie(&records, "toke", ".example.com"), None);
    assert_eq!(find_cookie(&records, "", ""), None);
    assert_eq!(find_cookie(&Vec::new(), "token", ".example.com"), None);
}

#[test]
fn row_with_plain_value_is_used_as_it_is() {
    let key = CipherKey::derive(&params()).unwrap();
    let row = encrypted_row("example.com", 1, "token", "plain", &[1, 2]);
    assert_eq!(decode_row(&row, &key), Ok(record("example.com", "/", "token", "plain", true)));
    let row = encrypted_row("example.com", 0, "token", "plain", &OVERLONG);
    assert_eq!(decode_row(&row, &key), Ok(record("example.com", "/", "token", "plain", false)));
}

#[test]
fn row_with_empty_value_is_decrypted() {
    let key = CipherKey::derive(&params()).unwrap();
    let row = encrypted_row("example.com", 0, "token", "", &ABC123);
    assert_eq!(decode_row(&row, &key), Ok(record("example.com", "/", "token", "abc123", false)));
    let row = encrypted_row("example.com", 0, "token", "", &OVERLONG);
    assert_eq!(decode_row(&row, &key), Err(DecodeError::Padding));
    let row = encrypted_row("example.com", 0, "token", "", &NO_TEXT);
    assert_eq!(decode_row(&row, &key), Err(DecodeError::Text));
    let row = encrypted_row("example.com", 0, "token", "", &[]);
    assert_eq!(decode_row(&row, &key), Err(DecodeError::Tag));
    let row = encrypted_row("example.com", 0, "token", "", &ABC123[..18]);
    assert_eq!(decode_row(&row, &key), Err(DecodeError::Cipher));
}

#[test]
fn encrypted_store_decodes_in_order() {
    let rows = vec![
        encrypted_row("example.com", 0, "token", "", &ABC123),
        encrypted_row("other.com", 1, "token", "zzz", &[]),
        encrypted_row("example.com", 5, "session", "", &ABC123),
    ];
    let expected = vec![
        record("example.com", "/", "token", "abc123", false),
        record("other.com", "/", "token", "zzz", true),
        record("example.com", "/", "session", "abc123", true),
    ];
    assert_eq!(load_chromium_cookies(&rows, &params()), Ok(expected.clone()));
    let key = CipherKey::derive(&params()).unwrap();
    assert_eq!(decode_rows(&rows, &key), Ok(expected));
    assert_eq!(load_chromium_cookies(&Vec::new(), &params()), Ok(Vec::new()));
}

#[test]
fn first_row_that_does_not_decode_fails_the_store() {
    let key = CipherKey::derive(&params()).unwrap();
    let rows = vec![
        encrypted_row("example.com", 0, "token", "", &ABC123),
        encrypted_row("example.com", 0, "broken", "", &NO_TEXT),
        encrypted_row("example.com", 0, "worse", "", &OVERLONG),
    ];
    assert_eq!(decode_rows(&rows, &key), Err(DecodeError::Text));
    let error = load_chromium_cookies(&rows, &params()).unwrap_err();
    assert_eq!(error.to_text(), "invalid utf-8 sequence");

    let rows = vec![
        encrypted_row("example.com", 0, "worse", "", &OVERLONG),
        encrypted_row("example.com", 0, "broken", "", &NO_TEXT),
    ];
    assert_eq!(decode_rows(&rows, &key), Err(DecodeError::Padding));
    let error = load_chromium_cookies(&rows, &params()).unwrap_err();
    assert_eq!(error.to_text(), "decrypt error");
}

#[test]
fn store_does_not_load_without_a_key() {
    let rows = vec![encrypted_row("example.com", 0, "token", "plain", &[])];
    let mut unusable = params();
    unusable.rounds = 0;
    let error = load_chromium_cookies(&rows, &unusable).unwrap_err();
    assert_eq!(error.to_text(), "unusable cipher parameters");
    assert_eq!(get_chromium_cookie(&rows, &unusable, "example.com", "token"), None);
    let mut unusable = params();
    unusable.iv = vec![0u8; 8];
    assert!(load_chromium_cookies(&Vec::new(), &unusable).is_err());
}

#[test]
fn store_of_another_key_does_not_load() {
    let rows = vec![encrypted_row("example.com", 0, "token", "", &ABC123)];
    let mut other = params();
    other.salt = b"peppery".to_vec();
    assert_ne!(
        load_chromium_cookies(&rows, &other),
        Ok(vec![record("example.com", "/", "token", "abc123", false)])
    );
}

#[test]
fn encrypted_store_lookup() {
    let rows = vec![
        encrypted_row("other.com", 1, "token", "zzz", &[]),
        encrypted_row("example.com", 0, "token", "", &ABC123),
        encrypted_row("example.com", 0, "token", "later", &[]),
    ];
    assert_eq!(
        get_chromium_cookie(&rows, &params(), "example.com", "token"),
        Some(record("example.com", "/", "token", "abc123", false))
    );
    assert_eq!(
        get_chromium_cookie(&rows, &params(), "other.com", "token"),
        Some(record("other.com", "/", "token", "zzz", true))
    );
    assert_eq!(get_chromium_cookie(&rows, &params(), "example.com", "missing"), None);
}

#[test]
fn lookup_finds_nothing_in_a_store_that_does_not_decode() {
    let rows = vec![
        encrypted_row("example.com", 0, "token", "plain", &[]),
        encrypted_row("example.com", 0, "broken", "", &OVERLONG),
    ];
    assert_eq!(get_chromium_cookie(&rows, &params(), "example.com", "token"), None);
}

#[test]
fn value_of_the_tag_alone_fails_the_store() {
    let key = CipherKey::derive(&params()).unwrap();
    let row = encrypted_row("example.com", 0, "token", "", b"v10");
    assert_eq!(decode_row(&row, &key), Err(DecodeError::Padding));
    let rows = vec![row];
    let loaded = load_chromium_cookies(&rows, &params());
    assert!(loaded.is_err());
    assert_eq!(loaded.unwrap_err().to_text(), "decrypt error");
    assert_eq!(get_chromium_cookie(&rows, &params(), "example.com", "token"), None);
}
