use hashassin_core::args::Algorithm;
use hashassin_core::container::{encode_container, encode_header, FormatError, Header};
use hashassin_core::digest::{hash_password, scrypt_record};
use hashassin_core::dump_hashes::dump_hashes;
use hashassin_core::render::{render_record, render_records, scrypt_line};
use hashassin_core::text::is_utf8;

#[test]
fn raw_records_render_as_lower_case_hex() {
    let bytes = [0x00, 0x0f, 0xf0, 0xab];
    assert_eq!(render_record(Algorithm::Md5, &bytes), Ok("000ff0ab".to_string()));
    assert_eq!(render_record(Algorithm::Sha256, &[1, 2, 3, 15, 16]), Ok("0102030f10".to_string()));
    assert_eq!(render_record(Algorithm::Sha512, &[]), Ok(String::new()));
    assert_eq!(
        render_record(Algorithm::Md5, b"Hello world!"),
        Ok("48656c6c6f20776f726c6421".to_string())
    );
}

#[test]
fn every_byte_renders_as_two_digits_high_half_first() {
    let digits = b"0123456789abcdef";
    for b in 0..=255u8 {
        let text = render_record(Algorithm::Md5, &[b]).unwrap();
        let expected = [digits[(b / 16) as usize], digits[(b % 16) as usize]];
        assert_eq!(text.as_bytes(), &expected);
    }
}

#[test]
fn a_scrypt_record_renders_as_its_own_text() {
    let record = scrypt_record(b"password", 10).unwrap();
    let text = String::from_utf8(record.clone()).unwrap();
    assert_eq!(render_record(Algorithm::Scrypt, &record), Ok(text));
}

#[test]
fn a_scrypt_record_goes_through_the_parser() {
    let text = "$scrypt$ln=10,r=8,p=1$AAAAAAAAAAAAAAAAAAAAAA$vD1Oc0xQ8ZbM3BwZ0Qm1iA";
    assert_eq!(render_record(Algorithm::Scrypt, text.as_bytes()), Ok(text.to_string()));
    let short = "$argon2id$v=19$m=65536,t=2,p=1$c29tZXNhbHQ";
    assert_eq!(render_record(Algorithm::Scrypt, short.as_bytes()), Ok(short.to_string()));
}

#[test]
fn a_scrypt_record_that_is_not_text_is_refused() {
    assert_eq!(
        render_record(Algorithm::Scrypt, &[0xff; 88]),
        Err(FormatError::InvalidRecordEncoding)
    );
}

#[test]
fn a_scrypt_record_that_is_no_hash_string_is_refused() {
    assert_eq!(render_record(Algorithm::Scrypt, &[b'x'; 88]), Err(FormatError::MalformedRecord));
    assert_eq!(render_record(Algorithm::Scrypt, b""), Err(FormatError::MalformedRecord));
    assert_eq!(
        render_record(Algorithm::Scrypt, b"$scrypt$ln=10,r=8,p=1$AAAA$!!!!"),
        Err(FormatError::MalformedRecord)
    );
}

#[test]
fn scrypt_line_maps_a_failed_parse_to_a_malformed_record() {
    assert_eq!(scrypt_line(Some("$scrypt".to_string())), Ok("$scrypt".to_string()));
    assert_eq!(scrypt_line(None), Err(FormatError::MalformedRecord));
}

#[test]
fn utf8_validity() {
    assert!(is_utf8(b""));
    assert!(is_utf8(b"md5"));
    assert!(is_utf8("é€😀".as_bytes()));
    assert!(!is_utf8(&[0xff]));
    assert!(!is_utf8(&[0xc3]));
    assert!(!is_utf8(&[0xc3, 0x28]));
    assert!(!is_utf8(&[0xed, 0xa0, 0x80]));
    assert!(!is_utf8(&[0xc0, 0x80]));
}

#[test]
fn rendering_stops_at_the_first_record_that_fails() {
    let good = scrypt_record(b"abcd", 10).unwrap();
    let good_text = String::from_utf8(good.clone()).unwrap();
    let records = vec![good.clone(), vec![0xff; 88], good.clone()];
    let (lines, failure) = render_records(Algorithm::Scrypt, &records);
    assert_eq!(lines, vec![good_text.clone()]);
    assert_eq!(failure, Some(FormatError::InvalidRecordEncoding));

    let records = vec![good.clone(), good.clone(), vec![b'?'; 88]];
    let (lines, failure) = render_records(Algorithm::Scrypt, &records);
    assert_eq!(lines, vec![good_text.clone(), good_text.clone()]);
    assert_eq!(failure, Some(FormatError::MalformedRecord));

    let (lines, failure) = render_records(Algorithm::Scrypt, &vec![good]);
    assert_eq!(lines, vec![good_text]);
    assert_eq!(failure, None);
}

#[test]
fn raw_records_all_render() {
    let records = vec![vec![0x12; 16], vec![0xab; 16]];
    let (lines, failure) = render_records(Algorithm::Md5, &records);
    assert_eq!(lines, vec!["12".repeat(16), "ab".repeat(16)]);
    assert_eq!(failure, None);
    let (lines, failure) = render_records(Algorithm::Md5, &Vec::new());
    assert!(lines.is_empty());
    assert_eq!(failure, None);
}

#[test]
fn dump_lists_header_and_one_line_per_record() {
    let passwords = ["password", "letmein!", "12345678"];
    let records: Vec<Vec<u8>> =
        passwords.iter().map(|p| hash_password(Algorithm::Md5, p.as_bytes()).unwrap()).collect();
    let bytes = encode_container(Algorithm::Md5, 8, &records).unwrap();
    let listing = dump_hashes(&bytes).unwrap();
    assert_eq!(
        listing.header,
        Header { version: 1, algorithm: Algorithm::Md5, password_length: 8 }
    );
    assert_eq!(listing.failure, None);
    assert_eq!(listing.lines.len(), 3);
    assert_eq!(listing.lines[0], "5f4dcc3b5aa765d61d8327deb882cf99");
    assert_eq!(listing.lines[1], hex::encode(&records[1]));
    assert_eq!(listing.lines[2], hex::encode(&records[2]));
}

#[test]
fn dump_of_a_truncated_body_lists_the_full_records_only() {
    let records = vec![vec![0x11; 32], vec![0x22; 32]];
    let mut bytes = encode_container(Algorithm::Sha256, 6, &records).unwrap();
    bytes.extend_from_slice(&[0x33; 20]);
    let listing = dump_hashes(&bytes).unwrap();
    assert_eq!(listing.lines, vec!["11".repeat(32), "22".repeat(32)]);
    assert_eq!(listing.failure, None);
}

#[test]
fn dump_of_a_bad_header_gives_the_error_alone() {
    assert_eq!(dump_hashes(&[]).err(), Some(FormatError::TruncatedHeader));
    assert_eq!(
        dump_hashes(&[1, 4, b'n', b'o', b'n', b'e', 3]).err(),
        Some(FormatError::UnknownAlgorithm)
    );
    assert_eq!(dump_hashes(&[1, 1, 0x80, 3]).err(), Some(FormatError::InvalidNameEncoding));
}

#[test]
fn dump_of_scrypt_records_keeps_the_lines_before_a_bad_record() {
    let first = scrypt_record(b"hunter22", 10).unwrap();
    let mut bytes = encode_header(Algorithm::Scrypt, 8).unwrap();
    bytes.extend_from_slice(&first);
    bytes.extend_from_slice(&[0xfe; 88]);
    bytes.extend_from_slice(&first);
    let listing = dump_hashes(&bytes).unwrap();
    assert_eq!(listing.header.algorithm, Algorithm::Scrypt);
    assert_eq!(listing.lines, vec![String::from_utf8(first).unwrap()]);
    assert_eq!(listing.failure, Some(FormatError::InvalidRecordEncoding));
}
