use unidl::magnet::{
    base32_btih_to_hex, hex_value, normalize_btih_hash, parse_magnet_info_hash,
    percent_decode_query_value, strip_btih_prefix,
};

fn chars(s: &str) -> Vec<char> {
    s.chars().collect()
}

#[test]
fn magnet_info_hash_accepts_hex_and_base32() {
    assert_eq!(
        parse_magnet_info_hash("magnet:?xt=urn:btih:ABCDEF0123456789ABCDEF0123456789ABCDEF01&dn=x"),
        Some("abcdef0123456789abcdef0123456789abcdef01".to_string())
    );
    assert_eq!(
        parse_magnet_info_hash("magnet:?dn=x&xt=urn%3Abtih%3AAAAAAAAAAAAAAAAAAAAAAAAAAAAAAAAA"),
        Some("0000000000000000000000000000000000000000".to_string())
    );
    assert_eq!(parse_magnet_info_hash("magnet:?dn=x"), None);
    assert_eq!(parse_magnet_info_hash("http://example.test/file"), None);
}

#[test]
fn base32_hashes_decode_to_hex() {
    assert_eq!(
        base32_btih_to_hex(&chars("7777777777777777777777777777777A")),
        Some("ffffffffffffffffffffffffffffffffffffffe0".to_string())
    );
    assert_eq!(base32_btih_to_hex(&chars("SHORT")), None);
    assert_eq!(hex_value(b'f'), Some(15));
    assert_eq!(hex_value(b'G'), None);
}

#[test]
fn btih_prefix_and_hash_forms() {
    assert_eq!(strip_btih_prefix(&chars("urn:btih:abc")), Some(chars("abc")));
    assert_eq!(strip_btih_prefix(&chars("urn:sha1:abc")), None);
    assert_eq!(
        normalize_btih_hash(&chars("ABCDEF0123456789ABCDEF0123456789ABCDEF01")),
        Some("abcdef0123456789abcdef0123456789abcdef01".to_string())
    );
    assert_eq!(normalize_btih_hash(&chars("xyz")), None);
    assert_eq!(percent_decode_query_value(&chars("a%20b")), Some("a b".to_string()));
    assert_eq!(percent_decode_query_value(&chars("a%2")), None);
}
