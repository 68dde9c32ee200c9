//! From lines of passwords to the bytes of a container.

use crate::args::Algorithm;
use crate::batch::{
    first_mismatch, lemma_mismatch_found, line_bytes, validated, PasswordBatch, ValidationError,
};
use crate::container::{container_of, encode_container, lemma_container_len, EncodeError};
use crate::pool::{digests_of, hash_batch, lemma_digests_shape};
use vstd::prelude::*;

verus! {

/// Why no container was made.
#[derive(Debug, Clone, Copy, PartialEq, Eq, Structural)]
pub enum HashError {
    /// The lines are not a batch. No password was hashed.
    Validation(ValidationError),
    /// The batch cannot be written down.
    Encode(EncodeError),
}

/// The container for the given passwords, or the reason why there is none.
/// Passwords that are not a batch are refused before anything is hashed.
pub open spec fn hashed_container(algorithm: Algorithm, passwords: Seq<Seq<u8>>) -> Result<
    Seq<u8>,
    HashError,
> {
    match validated(passwords) {
        Err(e) => Err(HashError::Validation(e)),
        Ok(length) => if length > 255 {
            Err(HashError::Encode(EncodeError::PasswordTooLong { length: length as usize }))
        } else {
            Ok(container_of(algorithm, length as u8, digests_of(algorithm, passwords)))
        },
    }
}

/// One line of another length than the first is enough: there is a validation
/// error, and neither a digest nor a byte of a container.
pub proof fn lemma_validation_gate(algorithm: Algorithm, passwords: Seq<Seq<u8>>, i: int)
    requires
        0 <= i < passwords.len() <= usize::MAX,
        passwords[0].len() <= usize::MAX,
        passwords[i].len() != passwords[0].len(),
    ensures
        validated(passwords) matches Err(ValidationError::LengthMismatch { line, expected })
            && 1 < line <= i + 1 && expected == passwords[0].len(),
        hashed_container(algorithm, passwords) matches Err(HashError::Validation(_)),
{
    lemma_mismatch_found(passwords, i);
    let k = choose|k: int| first_mismatch(passwords, k);
    if i < k {
        assert(passwords[i].len() == passwords[0].len());
    }
}

/// A container that was made holds one record of the algorithm's width for each
/// password that could be hashed, after a header of three bytes and the name.
pub proof fn lemma_hashed_container_len(algorithm: Algorithm, passwords: Seq<Seq<u8>>)
    requires
        hashed_container(algorithm, passwords) is Ok,
    ensures
        hashed_container(algorithm, passwords).unwrap().len() == 3 + algorithm.name().len()
            + digests_of(algorithm, passwords).len() * algorithm.width(),
        digests_of(algorithm, passwords).len() <= passwords.len(),
{
    lemma_digests_shape(algorithm, passwords);
    lemma_container_len(
        algorithm,
        validated(passwords).unwrap() as u8,
        digests_of(algorithm, passwords),
    );
}

/// The bytes of a container or the reason in their place.
pub open spec fn container_view(res: Result<Vec<u8>, HashError>) -> Result<Seq<u8>, HashError> {
    match res {
        Ok(bytes) => Ok(bytes@),
        Err(e) => Err(e),
    }
}

/// Validates the lines, hashes them as `threads` workers would, and writes the
/// records into a container.
pub fn gen_hashes(lines: Vec<String>, threads: usize, algorithm: Algorithm) -> (res: Result<
    Vec<u8>,
    HashError,
>)
    requires
        threads >= 1,
    ensures
        container_view(res) == hashed_container(algorithm, line_bytes(lines@)),
        res matches Ok(bytes) ==> bytes@.len() == 3 + algorithm.name().len() + digests_of(
            algorithm,
            line_bytes(lines@),
        ).len() * algorithm.width(),
        res matches Ok(bytes) ==> !(algorithm is Scrypt) ==> bytes@.len() == 3
            + algorithm.name().len() + lines@.len() * algorithm.width(),
{
    let batch = match PasswordBatch::new(lines) {
        Ok(batch) => batch,
        Err(e) => {
            return Err(HashError::Validation(e));
        },
    };
    let length = batch.password_length();
    if length > 255 {
        return Err(HashError::Encode(EncodeError::PasswordTooLong { length }));
    }
    let records = hash_batch(&batch, threads, algorithm);
    match encode_container(algorithm, length, &records) {
        Ok(bytes) => Ok(bytes),
        Err(e) => Err(HashError::Encode(e)),
    }
}

} // verus!
