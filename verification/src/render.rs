//! Records as lines of text: raw digests in lower-case hexadecimal, scrypt
//! records as password hash strings read and written out again.

use crate::args::Algorithm;
use crate::container::FormatError;
use crate::record::records_view;
use crate::text::utf8_text;
use scrypt::password_hash::{Encoding, PasswordHash};
use vstd::prelude::*;
use vstd::utf8::{decode_utf8, valid_utf8};

verus! {

/// The sixteen lower-case hexadecimal digits, in order.
pub open spec fn hex_digits() -> Seq<char> {
    seq!['0', '1', '2', '3', '4', '5', '6', '7', '8', '9', 'a', 'b', 'c', 'd', 'e', 'f']
}

/// Lower-case hexadecimal text of `data`: two digits per byte, the high half
/// first.
pub open spec fn hex_of(data: Seq<u8>) -> Seq<char> {
    Seq::new(
        2 * data.len(),
        |i: int|
            if i % 2 == 0 {
                hex_digits()[data[i / 2] as int / 16]
            } else {
                hex_digits()[data[i / 2] as int % 16]
            },
    )
}

/// What a text in PHC string format reads as when it is parsed with B64
/// encoding and written out again; `None` where it does not parse.
pub uninterp spec fn phc_canonical(text: Seq<char>) -> Option<Seq<char>>;

/// The characters of a text that may be missing.
pub open spec fn text_view(text: Option<String>) -> Option<Seq<char>> {
    match text {
        Some(s) => Some(s@),
        None => None,
    }
}

/// The characters of a line or the reason why there is none.
pub open spec fn line_view(line: Result<String, FormatError>) -> Result<Seq<char>, FormatError> {
    match line {
        Ok(s) => Ok(s@),
        Err(e) => Err(e),
    }
}

/// The characters of each line.
pub open spec fn lines_view(lines: Seq<String>) -> Seq<Seq<char>> {
    Seq::new(lines.len(), |i: int| lines[i]@)
}

/// Calls `hex::encode`. Trusted: the text is the lower-case hexadecimal form
/// of the bytes, two digits for each.
#[verifier::external_body]
fn hex_encode(data: &[u8]) -> (text: String)
    ensures
        text@ == hex_of(data@),
{
    hex::encode(data)
}

/// Calls `PasswordHash::parse` with `Encoding::B64` and writes the parsed hash
/// out with `to_string`. Trusted: the outcome depends on the text alone.
#[verifier::external_body]
fn phc_reencode(text: &str) -> (out: Option<String>)
    ensures
        text_view(out) == phc_canonical(text@),
{
    match PasswordHash::parse(text, Encoding::B64) {
        Ok(hash) => Some(hash.to_string()),
        Err(_) => None,
    }
}

/// The line for a scrypt record whose text has been read: the text written out
/// again, or the complaint that it is no password hash string.
pub open spec fn scrypt_line_of(canonical: Option<Seq<char>>) -> Result<Seq<char>, FormatError> {
    match canonical {
        Some(text) => Ok(text),
        None => Err(FormatError::MalformedRecord),
    }
}

/// The line that a record is listed as, or the reason why it cannot be listed.
pub open spec fn rendered(algorithm: Algorithm, record: Seq<u8>) -> Result<
    Seq<char>,
    FormatError,
> {
    match algorithm {
        Algorithm::Scrypt => if valid_utf8(record) {
            scrypt_line_of(phc_canonical(decode_utf8(record)))
        } else {
            Err(FormatError::InvalidRecordEncoding)
        },
        _ => Ok(hex_of(record)),
    }
}

/// Turns the outcome of reading a scrypt record's text into its line.
pub fn scrypt_line(canonical: Option<String>) -> (line: Result<String, FormatError>)
    ensures
        line_view(line) == scrypt_line_of(text_view(canonical)),
{
    match canonical {
        Some(text) => Ok(text),
        None => Err(FormatError::MalformedRecord),
    }
}

/// Renders one record.
pub fn render_record(algorithm: Algorithm, record: &[u8]) -> (line: Result<String, FormatError>)
    ensures
        line_view(line) == rendered(algorithm, record@),
        !(algorithm is Scrypt) ==> line is Ok,
{
    match algorithm {
        Algorithm::Scrypt => match utf8_text(record) {
            Some(text) => {
                proof {
                    vstd::utf8::encode_utf8_decode_utf8(text@);
                }
                scrypt_line(phc_reencode(text))
            },
            None => Err(FormatError::InvalidRecordEncoding),
        },
        _ => Ok(hex_encode(record)),
    }
}

/// Whether `lines` and `failure` are the listing of `records`: the lines are
/// those of the records in order, up to the first record that cannot be
/// rendered; `failure` is the reason for that record, and `None` where every
/// record has its line.
pub open spec fn listed(
    algorithm: Algorithm,
    records: Seq<Seq<u8>>,
    lines: Seq<Seq<char>>,
    failure: Option<FormatError>,
) -> bool {
    &&& lines.len() <= records.len()
    &&& forall|i: int|
        0 <= i < lines.len() ==> rendered(algorithm, #[trigger] records[i]) == Ok::<
            Seq<char>,
            FormatError,
        >(lines[i])
    &&& match failure {
        None => lines.len() == records.len(),
        Some(e) => lines.len() < records.len() && rendered(
            algorithm,
            records[lines.len() as int],
        ) == Err::<Seq<char>, FormatError>(e),
    }
}

/// Records have one listing only.
pub proof fn lemma_listed_unique(
    algorithm: Algorithm,
    records: Seq<Seq<u8>>,
    lines_a: Seq<Seq<char>>,
    failure_a: Option<FormatError>,
    lines_b: Seq<Seq<char>>,
    failure_b: Option<FormatError>,
)
    requires
        listed(algorithm, records, lines_a, failure_a),
        listed(algorithm, records, lines_b, failure_b),
    ensures
        lines_a == lines_b,
        failure_a == failure_b,
{
    if lines_a.len() < lines_b.len() {
        assert(rendered(algorithm, records[lines_a.len() as int]) is Ok);
    } else if lines_b.len() < lines_a.len() {
        assert(rendered(algorithm, records[lines_b.len() as int]) is Ok);
    }
    assert(lines_a =~= lines_b) by {
        assert forall|i: int| 0 <= i < lines_a.len() implies lines_a[i] == lines_b[i] by {
            assert(rendered(algorithm, records[i]) == Ok::<Seq<char>, FormatError>(lines_a[i]));
        }
    }
}

/// Whether every record has a line.
pub open spec fn all_render(algorithm: Algorithm, records: Seq<Seq<u8>>) -> bool {
    forall|i: int| 0 <= i < records.len() ==> rendered(algorithm, #[trigger] records[i]) is Ok
}

/// Where every record has a line, the listing has them all, in order, and no
/// failure.
pub proof fn lemma_full_listing(
    algorithm: Algorithm,
    records: Seq<Seq<u8>>,
    lines: Seq<Seq<char>>,
    failure: Option<FormatError>,
)
    requires
        all_render(algorithm, records),
        listed(algorithm, records, lines, failure),
    ensures
        failure is None,
        lines.len() == records.len(),
        forall|i: int|
            0 <= i < records.len() ==> rendered(algorithm, #[trigger] records[i]) == Ok::<
                Seq<char>,
                FormatError,
            >(lines[i]),
{
    if lines.len() < records.len() {
        assert(rendered(algorithm, records[lines.len() as int]) is Ok);
    }
}

/// Raw digests always render: their listing has one line of hexadecimal text
/// for each record and no failure.
pub proof fn lemma_raw_listing(
    algorithm: Algorithm,
    records: Seq<Seq<u8>>,
    lines: Seq<Seq<char>>,
    failure: Option<FormatError>,
)
    requires
        !(algorithm is Scrypt),
        listed(algorithm, records, lines, failure),
    ensures
        failure is None,
        lines.len() == records.len(),
        forall|i: int| 0 <= i < records.len() ==> #[trigger] lines[i] == hex_of(records[i]),
{
    if lines.len() < records.len() {
        assert(rendered(algorithm, records[lines.len() as int]) is Ok);
    }
    assert forall|i: int| 0 <= i < records.len() implies #[trigger] lines[i] == hex_of(
        records[i],
    ) by {
        assert(rendered(algorithm, records[i]) == Ok::<Seq<char>, FormatError>(lines[i]));
    }
}

/// Renders the records in order and stops at the first that cannot be rendered.
/// The lines made before it are kept.
pub fn render_records(algorithm: Algorithm, records: &Vec<Vec<u8>>) -> (out: (
    Vec<String>,
    Option<FormatError>,
))
    ensures
        listed(algorithm, records_view(records@), lines_view(out.0@), out.1),
{
    let mut lines: Vec<String> = Vec::new();
    let mut i: usize = 0;
    while i < records.len()
        invariant
            i <= records.len(),
            lines@.len() == i,
            forall|j: int|
                0 <= j < i ==> rendered(algorithm, #[trigger] records_view(records@)[j]) == Ok::<
                    Seq<char>,
                    FormatError,
                >(lines_view(lines@)[j]),
        decreases records.len() - i,
    {
        match render_record(algorithm, records[i].as_slice()) {
            Ok(line) => {
                lines.push(line);
            },
            Err(e) => {
                return (lines, Some(e));
            },
        }
        i += 1;
    }
    (lines, None)
}

} // verus!
