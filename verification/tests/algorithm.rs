use hashassin_core::args::{matches_name, to_ascii_lower, Algorithm};
use std::str::FromStr;

const ALL: [Algorithm; 4] =
    [Algorithm::Md5, Algorithm::Sha256, Algorithm::Sha512, Algorithm::Scrypt];

#[test]
fn names_and_lengths() {
    assert_eq!(Algorithm::Md5.as_bytes(), b"md5");
    assert_eq!(Algorithm::Sha256.as_bytes(), b"sha256");
    assert_eq!(Algorithm::Sha512.as_bytes(), b"sha512");
    assert_eq!(Algorithm::Scrypt.as_bytes(), b"scrypt");
    assert_eq!(Algorithm::Md5.len(), 3);
    assert_eq!(Algorithm::Sha256.len(), 6);
    assert_eq!(Algorithm::Sha512.len(), 6);
    assert_eq!(Algorithm::Scrypt.len(), 6);
    for a in ALL {
        assert!(!a.is_empty());
        assert_eq!(a.len(), a.as_bytes().len());
        assert_eq!(a.as_str().as_bytes(), a.as_bytes());
        assert_eq!(a.to_string(), a.as_str());
    }
}

#[test]
fn md5_is_the_default() {
    assert_eq!(Algorithm::default(), Algorithm::Md5);
}

#[test]
fn record_widths() {
    assert_eq!(Algorithm::Md5.record_width(), 16);
    assert_eq!(Algorithm::Sha256.record_width(), 32);
    assert_eq!(Algorithm::Sha512.record_width(), 64);
    assert_eq!(Algorithm::Scrypt.record_width(), 88);
}

#[test]
fn each_name_names_its_algorithm() {
    for a in ALL {
        assert_eq!(Algorithm::from_name(a.as_bytes()), Some(a));
        assert_eq!(Algorithm::from_str(a.as_str()), Ok(a));
        assert_eq!(a.as_str().parse::<Algorithm>(), Ok(a));
    }
}

#[test]
fn names_are_read_without_regard_to_ascii_case() {
    assert_eq!(Algorithm::from_str("MD5"), Ok(Algorithm::Md5));
    assert_eq!(Algorithm::from_str("Sha256"), Ok(Algorithm::Sha256));
    assert_eq!(Algorithm::from_str("sHA512"), Ok(Algorithm::Sha512));
    assert_eq!(Algorithm::from_str("SCRYPT"), Ok(Algorithm::Scrypt));
}

#[test]
fn other_text_is_no_algorithm() {
    let others = [
        "", "md", "md55", "sha", "sha1", "sha-256", " md5", "md5 ", "scrypt\n", "ſha256", "blake3",
    ];
    for text in others {
        assert_eq!(Algorithm::from_str(text), Err("invalid algorithm".to_string()));
        assert_eq!(Algorithm::from_name(text.as_bytes()), None);
    }
    assert_eq!(Algorithm::from_name(&[0xff, 0xfe, 0xfd]), None);
}

#[test]
fn parsing_through_the_trait_reads_names_the_same_way() {
    assert_eq!("md5".parse::<Algorithm>(), Ok(Algorithm::Md5));
    assert_eq!("SHA512".parse::<Algorithm>(), Ok(Algorithm::Sha512));
    assert_eq!(<Algorithm as FromStr>::from_str("Scrypt"), Ok(Algorithm::Scrypt));
    assert_eq!("md4".parse::<Algorithm>(), Err("invalid algorithm".to_string()));
    assert_eq!(<Algorithm as FromStr>::from_str(""), Err("invalid algorithm".to_string()));
}

#[test]
fn lower_casing_touches_upper_case_letters_only() {
    assert_eq!(to_ascii_lower(b'A'), b'a');
    assert_eq!(to_ascii_lower(b'Z'), b'z');
    assert_eq!(to_ascii_lower(b'a'), b'a');
    assert_eq!(to_ascii_lower(b'@'), b'@');
    assert_eq!(to_ascii_lower(b'['), b'[');
    assert_eq!(to_ascii_lower(b'5'), b'5');
    assert_eq!(to_ascii_lower(0xc1), 0xc1);
    for b in 0..=255u8 {
        assert_eq!(to_ascii_lower(b), b.to_ascii_lowercase());
    }
}

#[test]
fn matching_compares_the_lowered_name_with_the_canonical_one() {
    assert!(matches_name(b"Md5", b"md5"));
    assert!(!matches_name(b"md5", b"MD5"));
    assert!(!matches_name(b"md5", b"md"));
    assert!(matches_name(b"", b""));
}
