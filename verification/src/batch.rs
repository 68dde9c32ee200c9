//! Batches of passwords that all have the same byte length.

use vstd::prelude::*;
use vstd::utf8::encode_utf8;

verus! {

/// Why a sequence of lines is not a batch.
#[derive(Debug, Clone, Copy, PartialEq, Eq, Structural)]
pub enum ValidationError {
    /// There is no line at all.
    EmptyBatch,
    /// Line number `line`, counted from 1, is the first whose byte length is not
    /// `expected`, the byte length of the first line.
    LengthMismatch { line: usize, expected: usize },
}

/// The lines as byte sequences, in order.
pub open spec fn line_bytes(lines: Seq<String>) -> Seq<Seq<u8>> {
    Seq::new(lines.len(), |i: int| encode_utf8(lines[i]@))
}

/// Whether every element is as long as the first one.
pub open spec fn uniform(passwords: Seq<Seq<u8>>) -> bool {
    forall|i: int|
        0 <= i < passwords.len() ==> (#[trigger] passwords[i]).len() == passwords[0].len()
}

/// Whether `i` is the least index whose element is not as long as the first one.
pub open spec fn first_mismatch(passwords: Seq<Seq<u8>>, i: int) -> bool {
    &&& 0 < i < passwords.len()
    &&& passwords[i].len() != passwords[0].len()
    &&& forall|j: int| 0 <= j < i ==> (#[trigger] passwords[j]).len() == passwords[0].len()
}

/// What validation answers for the given passwords: their common length, or the
/// reason why there is none.
pub open spec fn validated(passwords: Seq<Seq<u8>>) -> Result<nat, ValidationError> {
    if passwords.len() == 0 {
        Err(ValidationError::EmptyBatch)
    } else if uniform(passwords) {
        Ok(passwords[0].len())
    } else {
        let i = choose|i: int| first_mismatch(passwords, i);
        Err(
            ValidationError::LengthMismatch {
                line: (i + 1) as usize,
                expected: passwords[0].len() as usize,
            },
        )
    }
}

/// A sequence that is not uniform has exactly one first mismatch.
pub proof fn lemma_first_mismatch_unique(passwords: Seq<Seq<u8>>, i: int, j: int)
    requires
        first_mismatch(passwords, i),
        first_mismatch(passwords, j),
    ensures
        i == j,
{
    if i < j {
        assert(passwords[i].len() == passwords[0].len());
    } else if j < i {
        assert(passwords[j].len() == passwords[0].len());
    }
}

/// Where some element is not as long as the first one, there is a first such
/// element.
pub proof fn lemma_mismatch_found(passwords: Seq<Seq<u8>>, i: int)
    requires
        0 <= i < passwords.len(),
        passwords[i].len() != passwords[0].len(),
    ensures
        !uniform(passwords),
        exists|k: int| first_mismatch(passwords, k),
    decreases i,
{
    if forall|j: int| 0 <= j < i ==> (#[trigger] passwords[j]).len() == passwords[0].len() {
        assert(first_mismatch(passwords, i));
    } else {
        let j = choose|j: int|
            0 <= j < i && (#[trigger] passwords[j]).len() != passwords[0].len();
        lemma_mismatch_found(passwords, j);
    }
}

/// A non-empty ordered sequence of passwords of one byte length.
#[derive(Debug, Clone)]
pub struct PasswordBatch {
    lines: Vec<String>,
    length: usize,
}

impl View for PasswordBatch {
    type V = Seq<Seq<u8>>;

    /// The passwords as byte sequences, in input order.
    closed spec fn view(&self) -> Seq<Seq<u8>> {
        line_bytes(self.lines@)
    }
}

impl PasswordBatch {
    /// The byte length that every password of the batch has.
    pub closed spec fn password_len(&self) -> nat {
        self.length as nat
    }

    /// The batch is not empty and each password has the batch's length.
    pub open spec fn wf(&self) -> bool {
        &&& self@.len() > 0
        &&& self@.len() <= usize::MAX
        &&& forall|i: int|
            0 <= i < self@.len() ==> (#[trigger] self@[i]).len() == self.password_len()
    }

    /// Checks the lines and, where they all have the length of the first one,
    /// makes a batch of them. Nothing else is done with a sequence that fails.
    pub fn new(lines: Vec<String>) -> (res: Result<PasswordBatch, ValidationError>)
        ensures
            match res {
                Ok(batch) => {
                    &&& validated(line_bytes(lines@)) == Ok::<nat, ValidationError>(
                        batch.password_len(),
                    )
                    &&& batch@ == line_bytes(lines@)
                    &&& batch.wf()
                },
                Err(e) => validated(line_bytes(lines@)) == Err::<nat, ValidationError>(e),
            },
    {
        match validate_batch(&lines) {
            Ok(length) => {
                let ghost count = lines.len();
                let batch = PasswordBatch { lines, length };
                proof {
                    assert(batch@.len() == count);
                    let passwords = batch@;
                    assert(passwords.len() > 0);
                    assert(uniform(passwords));
                    assert forall|i: int| 0 <= i < passwords.len() implies (
                        #[trigger] passwords[i]
                    ).len() == batch.password_len() by {}
                }
                Ok(batch)
            },
            Err(e) => Err(e),
        }
    }

    /// Number of passwords in the batch.
    pub fn len(&self) -> (n: usize)
        ensures
            n == self@.len(),
    {
        self.lines.len()
    }

    /// A batch is never empty.
    pub fn is_empty(&self) -> (b: bool)
        ensures
            b == (self@.len() == 0),
    {
        self.lines.len() == 0
    }

    /// The byte length shared by all passwords of the batch.
    pub fn password_length(&self) -> (l: usize)
        ensures
            l == self.password_len(),
    {
        self.length
    }

    /// The bytes of password `i`.
    pub fn password(&self, i: usize) -> (bytes: &[u8])
        requires
            i < self@.len(),
        ensures
            bytes@ == self@[i as int],
    {
        self.lines[i].as_str().as_bytes()
    }
}

/// Checks that the lines are a batch: there is at least one, and each has the
/// byte length of the first. Returns that length.
pub fn validate_batch(lines: &Vec<String>) -> (res: Result<usize, ValidationError>)
    ensures
        match res {
            Ok(length) => validated(line_bytes(lines@)) == Ok::<nat, ValidationError>(
                length as nat,
            ),
            Err(e) => validated(line_bytes(lines@)) == Err::<nat, ValidationError>(e),
        },
{
    let ghost passwords = line_bytes(lines@);
    if lines.len() == 0 {
        return Err(ValidationError::EmptyBatch);
    }
    let length = lines[0].as_str().as_bytes().len();
    let mut i: usize = 0;
    while i < lines.len()
        invariant
            i <= lines.len(),
            passwords == line_bytes(lines@),
            lines.len() > 0,
            length == passwords[0].len(),
            forall|j: int| 0 <= j < i ==> (#[trigger] passwords[j]).len() == length,
        decreases lines.len() - i,
    {
        if lines[i].as_str().as_bytes().len() != length {
            proof {
                assert(passwords[i as int].len() != passwords[0].len());
                assert(first_mismatch(passwords, i as int));
                assert(!uniform(passwords));
                let k = choose|k: int| first_mismatch(passwords, k);
                lemma_first_mismatch_unique(passwords, k, i as int);
            }
            return Err(ValidationError::LengthMismatch { line: i + 1, expected: length });
        }
        i += 1;
    }
    assert(uniform(passwords));
    Ok(length)
}

} // verus!
