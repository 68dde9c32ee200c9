//! The catalogue of digest algorithms: tag, ASCII name and record width.

use vstd::prelude::*;
use vstd::utf8::encode_utf8;

verus! {

/// A digest algorithm that a container can be written with.
#[derive(Debug, Clone, Copy, PartialEq, Eq, Structural)]
pub enum Algorithm {
    /// MD5: raw digests of 16 bytes.
    Md5,
    /// SHA-256: raw digests of 32 bytes.
    Sha256,
    /// SHA-512: raw digests of 64 bytes.
    Sha512,
    /// scrypt: password hash strings of 88 bytes.
    Scrypt,
}

/// Lower-case form of one ASCII byte; every other byte is left as it is.
pub open spec fn ascii_lower(b: u8) -> u8 {
    if 0x41 <= b <= 0x5a {
        (b + 0x20) as u8
    } else {
        b
    }
}

/// Byte-wise ASCII lower-casing of a whole sequence.
pub open spec fn ascii_lower_seq(s: Seq<u8>) -> Seq<u8> {
    Seq::new(s.len(), |i: int| ascii_lower(s[i]))
}

/// Lower-case form of one ASCII byte.
pub fn to_ascii_lower(b: u8) -> (l: u8)
    ensures
        l == ascii_lower(b),
{
    if 0x41 <= b && b <= 0x5a {
        b + 0x20
    } else {
        b
    }
}

/// Whether `name`, lower-cased, is `canonical`.
pub fn matches_name(name: &[u8], canonical: &[u8]) -> (b: bool)
    ensures
        b == (ascii_lower_seq(name@) == canonical@),
{
    if name.len() != canonical.len() {
        return false;
    }
    let mut i: usize = 0;
    while i < name.len()
        invariant
            i <= name.len(),
            name.len() == canonical.len(),
            forall|j: int| 0 <= j < i ==> ascii_lower(#[trigger] name@[j]) == canonical@[j],
        decreases name.len() - i,
    {
        if to_ascii_lower(name[i]) != canonical[i] {
            assert(ascii_lower_seq(name@)[i as int] != canonical@[i as int]);
            return false;
        }
        i += 1;
    }
    assert(ascii_lower_seq(name@) =~= canonical@);
    true
}

/// The text of each name, character by character.
pub open spec fn name_chars(algorithm: Algorithm) -> Seq<char> {
    match algorithm {
        Algorithm::Md5 => seq!['m', 'd', '5'],
        Algorithm::Sha256 => seq!['s', 'h', 'a', '2', '5', '6'],
        Algorithm::Sha512 => seq!['s', 'h', 'a', '5', '1', '2'],
        Algorithm::Scrypt => seq!['s', 'c', 'r', 'y', 'p', 't'],
    }
}

/// A name is the UTF-8 encoding of its ASCII text, so it is valid UTF-8.
pub proof fn lemma_name_is_text(algorithm: Algorithm)
    ensures
        algorithm.name() == encode_utf8(name_chars(algorithm)),
        vstd::utf8::valid_utf8(algorithm.name()),
{
    let chars = name_chars(algorithm);
    assert(vstd::utf8::is_ascii_chars(chars));
    vstd::utf8::is_ascii_chars_encode_utf8(chars);
    vstd::utf8::encode_utf8_valid_utf8(chars);
    assert(algorithm.name() =~= encode_utf8(chars));
}

/// Each algorithm is the one that its own name names: the four names are
/// lower-case and pairwise different.
pub proof fn lemma_named_own_name(algorithm: Algorithm)
    ensures
        Algorithm::named(algorithm.name()) == Some(algorithm),
{
    let name = algorithm.name();
    assert(ascii_lower_seq(name) =~= name);
    assert(Algorithm::Md5.name().len() == 3);
    assert(Algorithm::Sha256.name()[1] == 0x68u8);
    assert(Algorithm::Sha512.name()[3] == 0x35u8);
    assert(Algorithm::Sha256.name()[3] == 0x32u8);
    assert(Algorithm::Scrypt.name()[1] == 0x63u8);
}

/// A name that names an algorithm is as long as that algorithm's own name.
pub proof fn lemma_named_len(name: Seq<u8>)
    ensures
        Algorithm::named(name) matches Some(algorithm) ==> name.len() == algorithm.name().len(),
{
    assert(ascii_lower_seq(name).len() == name.len());
}

impl Default for Algorithm {
    /// MD5 is the algorithm taken where none is named.
    fn default() -> (algorithm: Algorithm)
        ensures
            algorithm == Algorithm::Md5,
    {
        Algorithm::Md5
    }
}

impl std::str::FromStr for Algorithm {
    type Err = String;

    /// Reads an algorithm from its name, as [`Algorithm::from_str`] does: upper-case
    /// ASCII letters count as their lower-case forms, and any other text is
    /// refused with the message `invalid algorithm`.
    fn from_str(s: &str) -> (res: Result<Algorithm, String>)
        ensures
            match res {
                Ok(algorithm) => Algorithm::named(encode_utf8(s@)) == Some(algorithm),
                Err(message) => Algorithm::named(encode_utf8(s@)) is None && message@
                    == "invalid algorithm"@,
            },
    {
        Algorithm::from_str(s)
    }
}

impl Algorithm {
    /// The ASCII name of the algorithm, as it is stored in a container header.
    pub open spec fn name(self) -> Seq<u8> {
        match self {
            Algorithm::Md5 => seq![0x6du8, 0x64u8, 0x35u8],
            Algorithm::Sha256 => seq![0x73u8, 0x68u8, 0x61u8, 0x32u8, 0x35u8, 0x36u8],
            Algorithm::Sha512 => seq![0x73u8, 0x68u8, 0x61u8, 0x35u8, 0x31u8, 0x32u8],
            Algorithm::Scrypt => seq![0x73u8, 0x63u8, 0x72u8, 0x79u8, 0x70u8, 0x74u8],
        }
    }

    /// Width in bytes of one record of this algorithm inside a container.
    pub open spec fn width(self) -> nat {
        match self {
            Algorithm::Md5 => 16,
            Algorithm::Sha256 => 32,
            Algorithm::Sha512 => 64,
            Algorithm::Scrypt => 88,
        }
    }

    /// The algorithm whose name equals `name` up to ASCII case, if there is one.
    pub open spec fn named(name: Seq<u8>) -> Option<Algorithm> {
        let lower = ascii_lower_seq(name);
        if lower == Algorithm::Md5.name() {
            Some(Algorithm::Md5)
        } else if lower == Algorithm::Sha256.name() {
            Some(Algorithm::Sha256)
        } else if lower == Algorithm::Sha512.name() {
            Some(Algorithm::Sha512)
        } else if lower == Algorithm::Scrypt.name() {
            Some(Algorithm::Scrypt)
        } else {
            None
        }
    }

    /// Length of the algorithm's name in bytes.
    pub fn len(&self) -> (n: usize)
        ensures
            n == self.name().len(),
    {
        match self {
            Algorithm::Md5 => 3,
            Algorithm::Sha256 => 6,
            Algorithm::Sha512 => 6,
            Algorithm::Scrypt => 6,
        }
    }

    /// A name is never empty.
    pub fn is_empty(&self) -> (b: bool)
        ensures
            !b,
            self.name().len() > 0,
    {
        false
    }

    /// The name as text.
    pub fn as_str(&self) -> (text: &'static str)
        ensures
            encode_utf8(text@) == self.name(),
            text.is_ascii(),
    {
        let text: &'static str = match self {
            Algorithm::Md5 => {
                proof {
                    reveal_strlit("md5");
                }
                "md5"
            },
            Algorithm::Sha256 => {
                proof {
                    reveal_strlit("sha256");
                }
                "sha256"
            },
            Algorithm::Sha512 => {
                proof {
                    reveal_strlit("sha512");
                }
                "sha512"
            },
            Algorithm::Scrypt => {
                proof {
                    reveal_strlit("scrypt");
                }
                "scrypt"
            },
        };
        proof {
            vstd::string::is_ascii_spec_bytes(text);
            assert(encode_utf8(text@) =~= self.name());
        }
        text
    }

    /// The name as an owned string.
    pub fn to_string(&self) -> (text: String)
        ensures
            encode_utf8(text@) == self.name(),
    {
        self.as_str().to_owned()
    }

    /// The name as bytes.
    pub fn as_bytes(&self) -> (bytes: &'static [u8])
        ensures
            bytes@ == self.name(),
    {
        self.as_str().as_bytes()
    }

    /// The algorithm with the given name, where upper-case ASCII letters count
    /// as their lower-case forms.
    pub fn from_name(name: &[u8]) -> (res: Option<Algorithm>)
        ensures
            res == Algorithm::named(name@),
    {
        if matches_name(name, Algorithm::Md5.as_bytes()) {
            Some(Algorithm::Md5)
        } else if matches_name(name, Algorithm::Sha256.as_bytes()) {
            Some(Algorithm::Sha256)
        } else if matches_name(name, Algorithm::Sha512.as_bytes()) {
            Some(Algorithm::Sha512)
        } else if matches_name(name, Algorithm::Scrypt.as_bytes()) {
            Some(Algorithm::Scrypt)
        } else {
            None
        }
    }

    /// Reads an algorithm from its name. Any other text is refused with the
    /// message `invalid algorithm`.
    pub fn from_str(s: &str) -> (res: Result<Algorithm, String>)
        ensures
            match res {
                Ok(algorithm) => Algorithm::named(encode_utf8(s@)) == Some(algorithm),
                Err(message) => Algorithm::named(encode_utf8(s@)) is None && message@
                    == "invalid algorithm"@,
            },
    {
        match Algorithm::from_name(s.as_bytes()) {
            Some(algorithm) => Ok(algorithm),
            None => Err("invalid algorithm".to_owned()),
        }
    }

    /// Width in bytes of one record of this algorithm.
    pub fn record_width(&self) -> (w: usize)
        ensures
            w == self.width(),
    {
        match self {
            Algorithm::Md5 => 16,
            Algorithm::Sha256 => 32,
            Algorithm::Sha512 => 64,
            Algorithm::Scrypt => 88,
        }
    }
}

} // verus!
