//! Digests of passwords: one record per password, of the width of its algorithm.

use crate::args::Algorithm;
use crate::record::{keep_width, of_width, record_view};
use md5::Md5;
use scrypt::password_hash::{PasswordHasher, SaltString};
use scrypt::{Params, Scrypt};
use sha2::{Digest, Sha256, Sha512};
use vstd::prelude::*;

verus! {

/// The MD5 digest of `data`.
pub uninterp spec fn md5_of(data: Seq<u8>) -> Seq<u8>;

/// The SHA-256 digest of `data`.
pub uninterp spec fn sha256_of(data: Seq<u8>) -> Seq<u8>;

/// The SHA-512 digest of `data`.
pub uninterp spec fn sha512_of(data: Seq<u8>) -> Seq<u8>;

/// The scrypt hash of `password` under the salt written as `salt`, with work
/// factor `log_n`, block size `r`, parallelism `p` and a key of `len` bytes, as
/// the bytes of its PHC string; `None` where the salt or the parameters are
/// refused or hashing fails.
pub uninterp spec fn scrypt_phc_of(
    password: Seq<u8>,
    salt: Seq<char>,
    log_n: u8,
    r: u32,
    p: u32,
    len: usize,
) -> Option<Seq<u8>>;

/// Calls `md5::Md5::digest`. Trusted: the 16 bytes that come back are the MD5
/// digest of `data`.
#[verifier::external_body]
fn md5_digest(data: &[u8]) -> (out: Vec<u8>)
    ensures
        out@ == md5_of(data@),
        out@.len() == 16,
{
    Md5::digest(data).to_vec()
}

/// Calls `sha2::Sha256::digest`. Trusted: the 32 bytes that come back are the
/// SHA-256 digest of `data`.
#[verifier::external_body]
fn sha256_digest(data: &[u8]) -> (out: Vec<u8>)
    ensures
        out@ == sha256_of(data@),
        out@.len() == 32,
{
    Sha256::digest(data).to_vec()
}

/// Calls `sha2::Sha512::digest`. Trusted: the 64 bytes that come back are the
/// SHA-512 digest of `data`.
#[verifier::external_body]
fn sha512_digest(data: &[u8]) -> (out: Vec<u8>)
    ensures
        out@ == sha512_of(data@),
        out@.len() == 64,
{
    Sha512::digest(data).to_vec()
}

/// Calls `SaltString::from_b64`, `Params::new` and
/// `Scrypt::hash_password_customized` of the scrypt crate, and writes the hash
/// out as a PHC string. Trusted: the outcome depends on the password, the salt
/// text and the parameters alone. The bounds keep the working memory, which is
/// `128 * r * 2^log_n` bytes, within a size that can be asked for.
#[verifier::external_body]
fn scrypt_phc(password: &[u8], salt: &str, log_n: u8, r: u32, p: u32, len: usize) -> (out: Option<
    Vec<u8>,
>)
    requires
        log_n <= 20,
        r <= 8,
        p <= 8,
    ensures
        record_view(out) == scrypt_phc_of(password@, salt@, log_n, r, p, len),
{
    let salt = match SaltString::from_b64(salt) {
        Ok(salt) => salt,
        Err(_) => return None,
    };
    let params = match Params::new(log_n, r, p, len) {
        Ok(params) => params,
        Err(_) => return None,
    };
    match Scrypt.hash_password_customized(password, None, None, params, &salt) {
        Ok(hash) => Some(hash.to_string().into_bytes()),
        Err(_) => None,
    }
}

/// The one salt under which every password is hashed with scrypt. A constant
/// salt makes the record a function of the password alone; it also makes equal
/// passwords visible as equal records, so these records are no fit storage for
/// real secrets.
pub const SCRYPT_SALT: &'static str = "AAAAAAAAAAAAAAAAAAAAAA";

/// The work factor of the engine: scrypt runs with `N = 2^17`. This and the
/// three parameters below are the ones that the scrypt crate recommends. With
/// them and the constant salt a record is 88 bytes long, which is the record
/// width that the container format fixes for scrypt.
pub const SCRYPT_LOG_N: u8 = 17;

/// The block size parameter of the engine.
pub const SCRYPT_R: u32 = 8;

/// The parallelism parameter of the engine.
pub const SCRYPT_P: u32 = 1;

/// The number of key bytes that the engine asks of scrypt.
pub const SCRYPT_KEY_LEN: usize = 32;

/// The scrypt record of `password` at work factor `log_n`, under the engine's
/// salt and its other parameters.
pub open spec fn scrypt_record_of(password: Seq<u8>, log_n: u8) -> Option<Seq<u8>> {
    scrypt_phc_of(password, SCRYPT_SALT@, log_n, SCRYPT_R, SCRYPT_P, SCRYPT_KEY_LEN)
}

/// What the algorithm's primitive gives for `password`: the raw digest, or for
/// scrypt the password hash string at the engine's work factor.
pub open spec fn primitive_of(algorithm: Algorithm, password: Seq<u8>) -> Option<Seq<u8>> {
    match algorithm {
        Algorithm::Md5 => Some(md5_of(password)),
        Algorithm::Sha256 => Some(sha256_of(password)),
        Algorithm::Sha512 => Some(sha512_of(password)),
        Algorithm::Scrypt => scrypt_record_of(password, SCRYPT_LOG_N),
    }
}

/// The record of `password` under `algorithm`; `None` where hashing fails or
/// gives a record of another width than the algorithm's.
pub open spec fn digest_of(algorithm: Algorithm, password: Seq<u8>) -> Option<Seq<u8>> {
    of_width(primitive_of(algorithm, password), algorithm.width())
}

/// Hashes one password with scrypt at work factor `log_n`, which may not be
/// above the engine's own. The record is the password hash string that scrypt
/// gives for the password, the engine's constant salt and its other parameters;
/// the same password gives the same record every time.
pub fn scrypt_record(password: &[u8], log_n: u8) -> (out: Option<Vec<u8>>)
    requires
        log_n <= SCRYPT_LOG_N,
    ensures
        record_view(out) == scrypt_record_of(password@, log_n),
{
    scrypt_phc(password, SCRYPT_SALT, log_n, SCRYPT_R, SCRYPT_P, SCRYPT_KEY_LEN)
}

/// Hashes one password. A record that comes back has the algorithm's width.
pub fn hash_password(algorithm: Algorithm, password: &[u8]) -> (out: Option<Vec<u8>>)
    ensures
        record_view(out) == digest_of(algorithm, password@),
        out matches Some(bytes) ==> bytes@.len() == algorithm.width(),
        !(algorithm is Scrypt) ==> out is Some,
{
    let primitive = match algorithm {
        Algorithm::Md5 => Some(md5_digest(password)),
        Algorithm::Sha256 => Some(sha256_digest(password)),
        Algorithm::Sha512 => Some(sha512_digest(password)),
        Algorithm::Scrypt => scrypt_record(password, SCRYPT_LOG_N),
    };
    keep_width(primitive, algorithm.record_width())
}

} // verus!
