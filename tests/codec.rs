use urlencode::{decode, encode, DecodeError, DecodeMode, EncodeSet};

const ALL_SETS: [EncodeSet; 5] = [
    EncodeSet::Default,
    EncodeSet::PathSegment,
    EncodeSet::Query,
    EncodeSet::Simple,
    EncodeSet::Userinfo,
];

#[test]
fn encode_space_and_slash_per_set() {
    assert_eq!(encode("a b/c", EncodeSet::Default), "a%20b/c");
    assert_eq!(encode("a b/c", EncodeSet::Query), "a%20b/c");
    assert_eq!(encode("a b/c", EncodeSet::Simple), "a b/c");
    assert_eq!(encode("a b/c", EncodeSet::PathSegment), "a%20b%2Fc");
    assert_eq!(encode("a b/c", EncodeSet::Userinfo), "a%20b%2Fc");
}

#[test]
fn encode_uses_uppercase_hex_and_utf8_bytes() {
    assert_eq!(encode("é", EncodeSet::Simple), "%C3%A9");
    assert_eq!(encode("\u{7f}\t", EncodeSet::Simple), "%7F%09");
    assert_eq!(encode("", EncodeSet::Default), "");
}

#[test]
fn encode_reserved_characters() {
    assert_eq!(encode("a?b#c{d}`", EncodeSet::Default), "a%3Fb%23c%7Bd%7D%60");
    assert_eq!(encode("a?b#c", EncodeSet::Query), "a?b%23c");
    assert_eq!(encode("u:p@h;x=y", EncodeSet::Userinfo), "u%3Ap%40h%3Bx%3Dy");
    assert_eq!(encode("100%", EncodeSet::PathSegment), "100%25");
    assert_eq!(encode("100%", EncodeSet::Default), "100%25");
    assert_eq!(encode("%", EncodeSet::Simple), "%25");
    assert_eq!(encode("a%b%", EncodeSet::Query), "a%25b%25");
}

#[test]
fn strict_decode_rejects_invalid_utf8() {
    assert_eq!(decode(b"%FF%FE", DecodeMode::Strict), Err(DecodeError::InvalidUtf8));
}

#[test]
fn lossy_decode_replaces_invalid_utf8() {
    assert_eq!(
        decode(b"%FF%FE", DecodeMode::Lossy),
        Ok("\u{FFFD}\u{FFFD}".to_string())
    );
}

#[test]
fn malformed_escape_passes_through() {
    assert_eq!(decode(b"100% done", DecodeMode::Lossy), Ok("100% done".to_string()));
    assert_eq!(decode(b"100% done", DecodeMode::Strict), Ok("100% done".to_string()));
    assert_eq!(decode(b"%4", DecodeMode::Strict), Ok("%4".to_string()));
    assert_eq!(decode(b"%%41", DecodeMode::Strict), Ok("%A".to_string()));
    assert_eq!(decode(b"%g1", DecodeMode::Strict), Ok("%g1".to_string()));
}

#[test]
fn decode_accepts_both_cases_of_hex() {
    assert_eq!(decode(b"a%2fb%2Fc", DecodeMode::Strict), Ok("a/b/c".to_string()));
    assert_eq!(decode(b"caf%C3%A9", DecodeMode::Strict), Ok("café".to_string()));
    assert_eq!(decode(b"caf%c3%a9", DecodeMode::Lossy), Ok("café".to_string()));
}

#[test]
fn decode_without_percent_is_identity() {
    for s in ["", "plain text", "héllo wörld", "a+b=c&d"] {
        assert_eq!(decode(s.as_bytes(), DecodeMode::Lossy), Ok(s.to_string()));
        assert_eq!(decode(s.as_bytes(), DecodeMode::Strict), Ok(s.to_string()));
    }
}

#[test]
fn round_trip_every_set_and_mode() {
    let texts = ["a b/c", "héllo wörld?#{}", "tab\there", "日本語 😀", "x:y@z[]|^\\"];
    for set in ALL_SETS {
        for s in texts {
            let e = encode(s, set);
            assert!(e.is_ascii());
            assert_eq!(decode(e.as_bytes(), DecodeMode::Lossy), Ok(s.to_string()));
            assert_eq!(decode(e.as_bytes(), DecodeMode::Strict), Ok(s.to_string()));
        }
    }
}

#[test]
fn round_trip_with_percent_every_set() {
    let s = "50%41 off %zz%";
    assert_eq!(encode(s, EncodeSet::PathSegment), "50%2541%20off%20%25zz%25");
    assert_eq!(encode(s, EncodeSet::Simple), "50%2541 off %25zz%25");
    for set in ALL_SETS {
        let e = encode(s, set);
        assert_eq!(decode(e.as_bytes(), DecodeMode::Lossy), Ok(s.to_string()));
        assert_eq!(decode(e.as_bytes(), DecodeMode::Strict), Ok(s.to_string()));
    }
}

#[test]
fn percent_is_escaped_by_every_set() {
    for set in ALL_SETS {
        let e = encode("%41", set);
        assert_eq!(e, "%2541");
        assert_eq!(decode(e.as_bytes(), DecodeMode::Strict), Ok("%41".to_string()));
    }
}

#[test]
fn every_percent_in_output_starts_an_escape() {
    let texts = ["%", "100%", "%%41%", "a b%c/é%"];
    for set in ALL_SETS {
        for s in texts {
            let e = encode(s, set).into_bytes();
            for (i, &c) in e.iter().enumerate() {
                if c == b'%' {
                    assert!(i + 2 < e.len());
                    assert!(e[i + 1].is_ascii_hexdigit() && !e[i + 1].is_ascii_lowercase());
                    assert!(e[i + 2].is_ascii_hexdigit() && !e[i + 2].is_ascii_lowercase());
                }
            }
        }
    }
}

#[test]
fn every_set_escapes_unprintable_bytes() {
    for set in ALL_SETS {
        for b in 0u8..=0xff {
            if b <= 0x1f || b == 0x7f || b >= 0x80 {
                assert!(set.contains(b), "{:?} {:#x}", set, b);
            }
        }
        assert!(set.contains(b'%'));
        for c in b"09AFaf".iter() {
            assert!(!set.contains(*c));
        }
    }
}

#[test]
fn sets_are_nested() {
    for b in 0u8..=0xff {
        if EncodeSet::Simple.contains(b) {
            assert!(EncodeSet::Query.contains(b));
        }
        if EncodeSet::Query.contains(b) {
            assert!(EncodeSet::Default.contains(b));
        }
        if EncodeSet::Default.contains(b) {
            assert!(EncodeSet::PathSegment.contains(b));
            assert!(EncodeSet::Userinfo.contains(b));
        }
    }
    assert!(EncodeSet::Query.contains(b' ') && !EncodeSet::Simple.contains(b' '));
    assert!(EncodeSet::Default.contains(b'?') && !EncodeSet::Query.contains(b'?'));
    assert!(EncodeSet::PathSegment.contains(b'/') && !EncodeSet::Default.contains(b'/'));
    assert!(EncodeSet::Userinfo.contains(b'@') && !EncodeSet::PathSegment.contains(b'@'));
}

#[test]
fn encode_set_names() {
    assert_eq!(EncodeSet::from_name("default"), Some(EncodeSet::Default));
    assert_eq!(EncodeSet::from_name("path"), Some(EncodeSet::PathSegment));
    assert_eq!(EncodeSet::from_name("query"), Some(EncodeSet::Query));
    assert_eq!(EncodeSet::from_name("simple"), Some(EncodeSet::Simple));
    assert_eq!(EncodeSet::from_name("userinfo"), Some(EncodeSet::Userinfo));
    assert_eq!(EncodeSet::from_name("Default"), None);
    assert_eq!(EncodeSet::from_name(""), None);
    assert_eq!(EncodeSet::from_name("paths"), None);
}
