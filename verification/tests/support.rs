use mcp_trace_validator::checks::support::{decode_base64, has_rfc3986_scheme, is_base64};

#[test]
fn base64_validation_is_exact() {
    for valid in ["", "aGk=", "aGV5", "aGV5bw==", "AB+/", "QUJDRA=="] {
        assert!(is_base64(valid), "{valid:?} should validate");
    }
    for invalid in [
        "aGk",     // length not a multiple of four
        "aGk =",   // space in alphabet
        "aGk!",    // symbol outside alphabet
        "====",    // padding longer than two
        "aG=k",    // padding before the end
        "aGV5bw=", // wrong padding length for content
    ] {
        assert!(!is_base64(invalid), "{invalid:?} should not validate");
    }
}

#[test]
fn base64_decoding_round_trips_the_specification_examples() {
    for (encoded, original) in [
        ("SGVsbG8sIOS4lueVjA==", "Hello, 世界"),
        ("IHBhZGRlZCA=", " padded "),
        ("bGluZTEKbGluZTI=", "line1\nline2"),
        ("PT9iYXNlNjQ/bGl0ZXJhbD89", "=?base64?literal?="),
    ] {
        assert_eq!(
            decode_base64(encoded).as_deref(),
            Some(original),
            "{encoded:?} should decode to {original:?}"
        );
    }
    assert_eq!(decode_base64("").as_deref(), Some(""));
}

#[test]
fn base64_decoding_covers_the_whole_alphabet_and_every_padding_length() {
    assert_eq!(decode_base64("fn5+").as_deref(), Some("~~~"));
    assert_eq!(decode_base64("fn4/").as_deref(), Some("~~?"));
    assert_eq!(decode_base64("YQ==").as_deref(), Some("a"));
    assert_eq!(decode_base64("YWI=").as_deref(), Some("ab"));
    assert_eq!(decode_base64("YWJj").as_deref(), Some("abc"));
    assert_eq!(decode_base64("YmFj").as_deref(), Some("bac"));
}

#[test]
fn base64_decoding_refuses_what_it_cannot_represent() {
    assert_eq!(decode_base64("aGk"), None);
    assert_eq!(decode_base64("aG=k"), None);
    // Valid base64 whose bytes are not UTF-8 (0xFF is never a UTF-8 lead byte).
    assert_eq!(decode_base64("/w=="), None);
}

#[test]
fn rfc3986_scheme_validation_is_exact() {
    for valid in ["https://x", "file:///a", "git://r", "a:", "z+ssh.2-x:rest"] {
        assert!(has_rfc3986_scheme(valid), "{valid:?} should validate");
    }
    for invalid in ["", "no-colon", ":rest", "1https://x", "ht tp://x", "ht_tp://x"] {
        assert!(!has_rfc3986_scheme(invalid), "{invalid:?} should not validate");
    }
}

#[test]
fn base64_with_non_ascii_text_is_refused() {
    assert!(!is_base64("aGé="));
    assert_eq!(decode_base64("aGé="), None);
}
