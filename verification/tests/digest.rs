use hashassin_core::args::Algorithm;
use hashassin_core::digest::{
    hash_password, scrypt_record, SCRYPT_KEY_LEN, SCRYPT_LOG_N, SCRYPT_P, SCRYPT_R, SCRYPT_SALT,
};
use hashassin_core::record::keep_width;

fn hex_of(algorithm: Algorithm, password: &str) -> String {
    hex::encode(hash_password(algorithm, password.as_bytes()).unwrap())
}

#[test]
fn md5_of_password_is_the_published_vector() {
    assert_eq!(hex_of(Algorithm::Md5, "password"), "5f4dcc3b5aa765d61d8327deb882cf99");
}

#[test]
fn md5_published_vectors() {
    assert_eq!(hex_of(Algorithm::Md5, ""), "d41d8cd98f00b204e9800998ecf8427e");
    assert_eq!(hex_of(Algorithm::Md5, "abc"), "900150983cd24fb0d6963f7d28e17f72");
    assert_eq!(hex_of(Algorithm::Md5, "hello world"), "5eb63bbbe01eeed093cb22bb8f5acdc3");
}

#[test]
fn sha256_published_vectors() {
    assert_eq!(
        hex_of(Algorithm::Sha256, "abc"),
        "ba7816bf8f01cfea414140de5dae2223b00361a396177a9cb410ff61f20015ad"
    );
    assert_eq!(
        hex_of(Algorithm::Sha256, "password"),
        "5e884898da28047151d0e56f8dc6292773603d0d6aabbdd62a11ef721d1542d8"
    );
    assert_eq!(
        hex_of(Algorithm::Sha256, ""),
        "e3b0c44298fc1c149afbf4c8996fb92427ae41e4649b934ca495991b7852b855"
    );
}

#[test]
fn sha512_published_vectors() {
    assert_eq!(
        hex_of(Algorithm::Sha512, "abc"),
        "ddaf35a193617abacc417349ae20413112e6fa4e89a97ea20a9eeee64b55d39a\
         2192992a274fc1a836ba3c23a3feebbd454d4423643ce80e2a9ac94fa54ca49f"
    );
    assert_eq!(
        hex_of(Algorithm::Sha512, "hello world"),
        "309ecc489c12d6eb4cc40f50c902f2b4d0ed77ee511a7c7a9bcd3ca86d4cd86f\
         989dd35bc5ff499670da34255b45b0cfd830e81f605dcf7dc5542e93ae9cd76f"
    );
}

#[test]
fn raw_digests_have_the_width_of_their_algorithm() {
    for algorithm in [Algorithm::Md5, Algorithm::Sha256, Algorithm::Sha512] {
        for password in ["", "a", "password", "a much longer password than the others"] {
            let record = hash_password(algorithm, password.as_bytes()).unwrap();
            assert_eq!(record.len(), algorithm.record_width());
        }
    }
}

#[test]
fn scrypt_record_is_a_password_hash_string_of_88_bytes() {
    let record = scrypt_record(b"password", 10).unwrap();
    assert_eq!(record.len(), 88);
    let text = String::from_utf8(record).unwrap();
    let prefix = format!("$scrypt$ln=10,r=8,p=1${}$", SCRYPT_SALT);
    assert!(text.starts_with(&prefix));
    assert_eq!(SCRYPT_SALT, "AAAAAAAAAAAAAAAAAAAAAA");
}

#[test]
fn scrypt_with_the_constant_salt_gives_the_same_record_twice() {
    let first = scrypt_record(b"correct horse", 10);
    let second = scrypt_record(b"correct horse", 10);
    assert!(first.is_some());
    assert_eq!(first, second);
    let other = scrypt_record(b"correct horsf", 10);
    assert_ne!(first, other);
}

#[test]
fn scrypt_record_depends_on_the_work_factor() {
    let at_ten = scrypt_record(b"password", 10).unwrap();
    let at_eleven = scrypt_record(b"password", 11).unwrap();
    assert_ne!(at_ten, at_eleven);
    assert_eq!(at_eleven.len(), 88);
    let at_four = scrypt_record(b"password", 4).unwrap();
    assert_eq!(at_four.len(), 87);
    assert_eq!(keep_width(Some(at_four), 88), None);
}

#[test]
fn engine_parameters() {
    assert_eq!(SCRYPT_LOG_N, 17);
    assert_eq!(SCRYPT_R, 8);
    assert_eq!(SCRYPT_P, 1);
    assert_eq!(SCRYPT_KEY_LEN, 32);
}

#[test]
fn keep_width_keeps_records_of_the_width_only() {
    assert_eq!(keep_width(Some(vec![1, 2, 3]), 3), Some(vec![1, 2, 3]));
    assert_eq!(keep_width(Some(vec![1, 2, 3]), 4), None);
    assert_eq!(keep_width(Some(Vec::new()), 0), Some(Vec::new()));
    assert_eq!(keep_width(None, 0), None);
}
