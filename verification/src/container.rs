//! The binary container: a short header, then the records one after another.
//!
//! ```text
//! offset 0        version            1 byte, value 1
//! offset 1        name length N      1 byte
//! offset 2        algorithm name     N bytes, ASCII
//! offset 2 + N    password length    1 byte
//! offset 3 + N    records            each of the algorithm's record width
//! ```

use crate::args::{lemma_name_is_text, lemma_named_len, lemma_named_own_name, Algorithm};
use crate::record::{all_of_width, records_view};
use crate::text::is_utf8;
use vstd::prelude::*;
use vstd::slice::{slice_subrange, slice_to_vec};
use vstd::utf8::valid_utf8;

verus! {

/// The version byte that every container written here begins with.
pub const FORMAT_VERSION: u8 = 1;

/// Why a container cannot be written.
#[derive(Debug, Clone, Copy, PartialEq, Eq, Structural)]
pub enum EncodeError {
    /// The password length does not fit the one byte that the header has for it.
    PasswordTooLong { length: usize },
}

/// Why a container cannot be read.
#[derive(Debug, Clone, Copy, PartialEq, Eq, Structural)]
pub enum FormatError {
    /// The bytes end before the header does.
    TruncatedHeader,
    /// The algorithm name is not valid UTF-8.
    InvalidNameEncoding,
    /// The algorithm name is text, but names no known algorithm.
    UnknownAlgorithm,
    /// A record that must be text is not valid UTF-8.
    InvalidRecordEncoding,
    /// A record is text, but not a well-formed password hash string.
    MalformedRecord,
}

/// The header fields of a container.
#[derive(Debug, Clone, Copy, PartialEq, Eq, Structural)]
pub struct Header {
    /// The version byte as stored; any value is taken.
    pub version: u8,
    /// The algorithm that the stored name names.
    pub algorithm: Algorithm,
    /// The byte length of the passwords behind the records.
    pub password_length: u8,
}

/// A container taken apart: its header and its records, in stored order.
#[derive(Debug, Clone)]
pub struct HashContainer {
    /// The header fields.
    pub header: Header,
    /// The full records of the body, each of the algorithm's width.
    pub records: Vec<Vec<u8>>,
}

impl HashContainer {
    /// Each record has the width of the header's algorithm.
    pub open spec fn wf(&self) -> bool {
        all_of_width(records_view(self.records@), self.header.algorithm.width())
    }
}

impl View for HashContainer {
    type V = (Header, Seq<Seq<u8>>);

    open spec fn view(&self) -> (Header, Seq<Seq<u8>>) {
        (self.header, records_view(self.records@))
    }
}

/// The header bytes for an algorithm and a password length.
pub open spec fn header_of(algorithm: Algorithm, password_length: u8) -> Seq<u8> {
    seq![FORMAT_VERSION, algorithm.name().len() as u8] + algorithm.name() + seq![password_length]
}

/// The records laid end to end.
pub open spec fn body_of(records: Seq<Seq<u8>>) -> Seq<u8>
    decreases records.len(),
{
    if records.len() == 0 {
        Seq::empty()
    } else {
        body_of(records.drop_last()) + records.last()
    }
}

/// The bytes of a whole container.
pub open spec fn container_of(
    algorithm: Algorithm,
    password_length: u8,
    records: Seq<Seq<u8>>,
) -> Seq<u8> {
    header_of(algorithm, password_length) + body_of(records)
}

/// What reading a header from the front of `buf` gives. The checks come in the
/// order of the fields: version and name length, the name's bytes, the name's
/// text, the algorithm it names, and last the password length.
pub open spec fn parsed_header(buf: Seq<u8>) -> Result<Header, FormatError> {
    if buf.len() < 2 {
        Err(FormatError::TruncatedHeader)
    } else {
        let n = buf[1] as int;
        if buf.len() < 2 + n {
            Err(FormatError::TruncatedHeader)
        } else if !valid_utf8(buf.subrange(2, 2 + n)) {
            Err(FormatError::InvalidNameEncoding)
        } else {
            match Algorithm::named(buf.subrange(2, 2 + n)) {
                None => Err(FormatError::UnknownAlgorithm),
                Some(algorithm) => if buf.len() < 3 + n {
                    Err(FormatError::TruncatedHeader)
                } else {
                    Ok(Header { version: buf[0], algorithm, password_length: buf[2 + n] })
                },
            }
        }
    }
}

/// Number of bytes that a header with this algorithm takes.
pub open spec fn header_len(algorithm: Algorithm) -> nat {
    3 + algorithm.name().len()
}

/// The full records of `body`: as many chunks of `width` bytes as fit, in order.
/// Bytes left over after the last full chunk belong to no record.
pub open spec fn records_of(body: Seq<u8>, width: nat) -> Seq<Seq<u8>> {
    Seq::new(body.len() / width, |i: int| body.subrange(i * width, (i + 1) * width))
}

/// What reading a whole container gives.
pub open spec fn decoded(buf: Seq<u8>) -> Result<(Header, Seq<Seq<u8>>), FormatError> {
    match parsed_header(buf) {
        Err(e) => Err(e),
        Ok(header) => Ok(
            (
                header,
                records_of(
                    buf.subrange(header_len(header.algorithm) as int, buf.len() as int),
                    header.algorithm.width(),
                ),
            ),
        ),
    }
}

/// A body of records of one width is as long as their number times that width.
pub proof fn lemma_body_len(records: Seq<Seq<u8>>, width: nat)
    requires
        all_of_width(records, width),
    ensures
        body_of(records).len() == records.len() * width,
    decreases records.len(),
{
    if records.len() == 0 {
        assert(0 * width == 0) by (nonlinear_arith);
    } else {
        let k = records.len();
        assert(all_of_width(records.drop_last(), width)) by {
            assert forall|i: int| 0 <= i < records.drop_last().len() implies (
            #[trigger] records.drop_last()[i]).len() == width by {
                assert(records.drop_last()[i] == records[i]);
            }
        }
        lemma_body_len(records.drop_last(), width);
        assert((k - 1) * width + width == k * width) by (nonlinear_arith);
    }
}

/// A container of `K` records of the algorithm's width `D` is `3 + N + K * D`
/// bytes long, where `N` is the length of the algorithm's name.
pub proof fn lemma_container_len(
    algorithm: Algorithm,
    password_length: u8,
    records: Seq<Seq<u8>>,
)
    requires
        all_of_width(records, algorithm.width()),
    ensures
        container_of(algorithm, password_length, records).len() == 3 + algorithm.name().len()
            + records.len() * algorithm.width(),
{
    lemma_body_len(records, algorithm.width());
}

/// Cutting a body of records of one non-zero width back into chunks of that
/// width gives the records again.
pub proof fn lemma_records_of_body(records: Seq<Seq<u8>>, width: nat)
    requires
        width > 0,
        all_of_width(records, width),
    ensures
        records_of(body_of(records), width) == records,
    decreases records.len(),
{
    let body = body_of(records);
    lemma_body_len(records, width);
    let k = records.len();
    assert(body.len() / width == k) by {
        vstd::arithmetic::div_mod::lemma_div_by_multiple(k as int, width as int);
    }
    assert forall|i: int| 0 <= i < k implies #[trigger] records_of(body, width)[i]
        == records[i] by {
        lemma_chunk_of_body(records, width, i);
    }
    assert(records_of(body, width) =~= records);
}

/// Chunk `i` of a body of records of one width is record `i`.
pub proof fn lemma_chunk_of_body(records: Seq<Seq<u8>>, width: nat, i: int)
    requires
        all_of_width(records, width),
        0 <= i < records.len(),
    ensures
        (i + 1) * width <= body_of(records).len(),
        body_of(records).subrange(i * width, (i + 1) * width) == records[i],
    decreases records.len(),
{
    let k = records.len();
    let front = records.drop_last();
    assert(all_of_width(front, width)) by {
        assert forall|j: int| 0 <= j < front.len() implies (#[trigger] front[j]).len()
            == width by {
            assert(front[j] == records[j]);
        }
    }
    lemma_body_len(front, width);
    lemma_body_len(records, width);
    assert(0 <= i * width && (i + 1) * width == i * width + width && (i + 1) * width <= k
        * width) by (nonlinear_arith)
        requires
            0 <= i < k,
    ;
    if i == k - 1 {
        assert(body_of(records).subrange(i * width, (i + 1) * width) =~= records.last());
    } else {
        lemma_chunk_of_body(front, width, i);
        assert((i + 1) * width <= (k - 1) * width) by (nonlinear_arith)
            requires
                0 <= i < k - 1,
        ;
        assert(body_of(records).subrange(i * width, (i + 1) * width) =~= body_of(
            front,
        ).subrange(i * width, (i + 1) * width));
    }
}

/// Bytes after the last full record change nothing: a body followed by fewer
/// than `width` stray bytes still reads as the same records.
pub proof fn lemma_partial_tail_dropped(body: Seq<u8>, tail: Seq<u8>, width: nat)
    requires
        width > 0,
        body.len() % width == 0,
        tail.len() < width,
    ensures
        records_of(body + tail, width) == records_of(body, width),
        records_of(body + tail, width).len() * width <= (body + tail).len(),
        (body + tail).len() - records_of(body + tail, width).len() * width == tail.len(),
{
    let k = body.len() / width;
    vstd::arithmetic::div_mod::lemma_fundamental_div_mod(body.len() as int, width as int);
    assert(body.len() == k * width) by (nonlinear_arith)
        requires
            body.len() == width * k + 0,
    ;
    assert((body.len() + tail.len()) / width == k) by {
        vstd::arithmetic::div_mod::lemma_fundamental_div_mod_converse(
            (body.len() + tail.len()) as int,
            width as int,
            k as int,
            tail.len() as int,
        );
    }
    assert forall|i: int| 0 <= i < k implies #[trigger] records_of(body + tail, width)[i]
        == records_of(body, width)[i] by {
        assert(0 <= i * width <= (i + 1) * width <= k * width) by (nonlinear_arith)
            requires
                0 <= i < k,
        ;
        assert((body + tail).subrange(i * width, (i + 1) * width) =~= body.subrange(
            i * width,
            (i + 1) * width,
        ));
    }
    assert(records_of(body + tail, width) =~= records_of(body, width));
}

/// Reading back what was written: a container of records of the algorithm's
/// width decodes to version 1, the same algorithm, the same password length and
/// the same records in the same order.
pub proof fn lemma_round_trip(algorithm: Algorithm, password_length: u8, records: Seq<Seq<u8>>)
    requires
        all_of_width(records, algorithm.width()),
    ensures
        decoded(container_of(algorithm, password_length, records)) == Ok::<
            (Header, Seq<Seq<u8>>),
            FormatError,
        >((Header { version: FORMAT_VERSION, algorithm, password_length }, records)),
{
    let buf = container_of(algorithm, password_length, records);
    lemma_header_parses(algorithm, password_length, body_of(records));
    let start = header_len(algorithm) as int;
    assert(buf.subrange(start, buf.len() as int) =~= body_of(records));
    lemma_records_of_body(records, algorithm.width());
}

/// The order in which records arrive does not matter to what a container
/// holds: records written in any other order make a container of the same
/// length, which decodes to the records in the order written, each as often as
/// it was given.
pub proof fn lemma_completion_order(
    algorithm: Algorithm,
    password_length: u8,
    records: Seq<Seq<u8>>,
    arrived: Seq<Seq<u8>>,
)
    requires
        all_of_width(records, algorithm.width()),
        arrived.to_multiset() == records.to_multiset(),
    ensures
        all_of_width(arrived, algorithm.width()),
        container_of(algorithm, password_length, arrived).len() == container_of(
            algorithm,
            password_length,
            records,
        ).len(),
        decoded(container_of(algorithm, password_length, arrived)) == Ok::<
            (Header, Seq<Seq<u8>>),
            FormatError,
        >((Header { version: FORMAT_VERSION, algorithm, password_length }, arrived)),
{
    records.to_multiset_ensures();
    arrived.to_multiset_ensures();
    assert forall|i: int| 0 <= i < arrived.len() implies (#[trigger] arrived[i]).len()
        == algorithm.width() by {
        assert(arrived.contains(arrived[i]));
        assert(arrived.to_multiset().count(arrived[i]) > 0);
        assert(records.to_multiset().count(arrived[i]) > 0);
        assert(records.contains(arrived[i]));
        let j = choose|j: int| 0 <= j < records.len() && records[j] == arrived[i];
        assert(records[j].len() == algorithm.width());
    }
    lemma_container_len(algorithm, password_length, records);
    lemma_container_len(algorithm, password_length, arrived);
    lemma_round_trip(algorithm, password_length, arrived);
}

/// A container cut off inside a record, or followed by stray bytes that are no
/// full record, still decodes: to the same header and to the full records.
pub proof fn lemma_truncated_container(
    algorithm: Algorithm,
    password_length: u8,
    records: Seq<Seq<u8>>,
    tail: Seq<u8>,
)
    requires
        all_of_width(records, algorithm.width()),
        tail.len() < algorithm.width(),
    ensures
        decoded(container_of(algorithm, password_length, records) + tail) == Ok::<
            (Header, Seq<Seq<u8>>),
            FormatError,
        >((Header { version: FORMAT_VERSION, algorithm, password_length }, records)),
{
    let width = algorithm.width();
    let body = body_of(records);
    let buf = container_of(algorithm, password_length, records) + tail;
    assert(buf =~= header_of(algorithm, password_length) + (body + tail));
    lemma_header_parses(algorithm, password_length, body + tail);
    let start = header_len(algorithm) as int;
    assert(buf.subrange(start, buf.len() as int) =~= body + tail);
    lemma_body_len(records, width);
    assert(body.len() % width == 0) by {
        vstd::arithmetic::div_mod::lemma_mod_multiples_basic(records.len() as int, width as int);
    }
    lemma_partial_tail_dropped(body, tail, width);
    lemma_records_of_body(records, width);
}

/// A header written for an algorithm and a password length reads back as such,
/// whatever follows it.
pub proof fn lemma_header_parses(algorithm: Algorithm, password_length: u8, rest: Seq<u8>)
    ensures
        parsed_header(header_of(algorithm, password_length) + rest) == Ok::<Header, FormatError>(
            Header { version: FORMAT_VERSION, algorithm, password_length },
        ),
{
    let buf = header_of(algorithm, password_length) + rest;
    let n = algorithm.name().len() as int;
    assert(buf[0] == FORMAT_VERSION);
    assert(buf[1] == n);
    assert(buf.subrange(2, 2 + n) =~= algorithm.name());
    assert(buf[2 + n] == password_length);
    lemma_name_is_text(algorithm);
    lemma_named_own_name(algorithm);
}

/// Writes the header: version, name length, name, password length. A password
/// length above 255 has no place in the header and is refused.
pub fn encode_header(algorithm: Algorithm, password_length: usize) -> (res: Result<
    Vec<u8>,
    EncodeError,
>)
    ensures
        match res {
            Ok(bytes) => password_length <= 255 && bytes@ == header_of(
                algorithm,
                password_length as u8,
            ),
            Err(e) => password_length > 255 && e == (EncodeError::PasswordTooLong {
                length: password_length,
            }),
        },
{
    if password_length > 255 {
        return Err(EncodeError::PasswordTooLong { length: password_length });
    }
    let mut out: Vec<u8> = Vec::new();
    out.push(FORMAT_VERSION);
    out.push(algorithm.len() as u8);
    out.extend_from_slice(algorithm.as_bytes());
    out.push(password_length as u8);
    assert(out@ =~= header_of(algorithm, password_length as u8));
    Ok(out)
}

/// Appends the bytes of one record to what has been written so far.
pub fn append_record(out: &mut Vec<u8>, record: &[u8])
    ensures
        final(out)@ == old(out)@ + record@,
{
    out.extend_from_slice(record);
}

/// Writes a whole container: the header, then the records in the order given.
pub fn encode_container(
    algorithm: Algorithm,
    password_length: usize,
    records: &Vec<Vec<u8>>,
) -> (res: Result<Vec<u8>, EncodeError>)
    ensures
        match res {
            Ok(bytes) => {
                &&& password_length <= 255
                &&& bytes@ == container_of(
                    algorithm,
                    password_length as u8,
                    records_view(records@),
                )
                &&& all_of_width(records_view(records@), algorithm.width()) ==> bytes@.len() == 3
                    + algorithm.name().len() + records@.len() * algorithm.width()
            },
            Err(e) => password_length > 255 && e == (EncodeError::PasswordTooLong {
                length: password_length,
            }),
        },
{
    let mut out = match encode_header(algorithm, password_length) {
        Ok(header) => header,
        Err(e) => {
            return Err(e);
        },
    };
    let ghost header = out@;
    let ghost all = records_view(records@);
    let mut i: usize = 0;
    assert(all.subrange(0, 0) =~= Seq::<Seq<u8>>::empty());
    while i < records.len()
        invariant
            i <= records.len(),
            all == records_view(records@),
            out@ == header + body_of(all.subrange(0, i as int)),
        decreases records.len() - i,
    {
        proof {
            let next = all.subrange(0, i + 1);
            assert(next.drop_last() =~= all.subrange(0, i as int));
            assert(next.last() == records@[i as int]@);
        }
        append_record(&mut out, records[i].as_slice());
        i += 1;
    }
    proof {
        assert(all.subrange(0, records.len() as int) =~= all);
        if all_of_width(all, algorithm.width()) {
            lemma_container_len(algorithm, password_length as u8, all);
        }
    }
    Ok(out)
}

/// Reads the header from the front of `buf`.
pub fn parse_header(buf: &[u8]) -> (res: Result<Header, FormatError>)
    ensures
        res == parsed_header(buf@),
{
    if buf.len() < 2 {
        return Err(FormatError::TruncatedHeader);
    }
    let version = buf[0];
    let n = buf[1] as usize;
    if buf.len() - 2 < n {
        return Err(FormatError::TruncatedHeader);
    }
    let name = slice_subrange(buf, 2, 2 + n);
    if !is_utf8(name) {
        return Err(FormatError::InvalidNameEncoding);
    }
    let algorithm = match Algorithm::from_name(name) {
        Some(algorithm) => algorithm,
        None => {
            return Err(FormatError::UnknownAlgorithm);
        },
    };
    if buf.len() - 2 - n < 1 {
        return Err(FormatError::TruncatedHeader);
    }
    Ok(Header { version, algorithm, password_length: buf[2 + n] })
}

/// Cuts `body` into its full records of `width` bytes; what is left after the
/// last full record is dropped without complaint.
pub fn split_records(body: &[u8], width: usize) -> (records: Vec<Vec<u8>>)
    requires
        width > 0,
    ensures
        records_view(records@) == records_of(body@, width as nat),
        all_of_width(records_view(records@), width as nat),
        records@.len() * width <= body@.len() < (records@.len() + 1) * width,
{
    let mut records: Vec<Vec<u8>> = Vec::new();
    let mut offset: usize = 0;
    let ghost k = body@.len() / (width as nat);
    proof {
        vstd::arithmetic::div_mod::lemma_fundamental_div_mod(body@.len() as int, width as int);
        vstd::arithmetic::div_mod::lemma_mod_bound(body@.len() as int, width as int);
        assert(k * width <= body@.len() < (k + 1) * width) by (nonlinear_arith)
            requires
                body@.len() == width * k + body@.len() % (width as nat),
                0 <= body@.len() % (width as nat) < width,
        ;
    }
    while body.len() - offset >= width
        invariant
            width > 0,
            offset <= body@.len(),
            offset == records@.len() * width,
            records@.len() <= k,
            k == body@.len() / (width as nat),
            k * width <= body@.len() < (k + 1) * width,
            forall|j: int|
                0 <= j < records@.len() ==> (#[trigger] records@[j])@ == body@.subrange(
                    j * width,
                    (j + 1) * width,
                ),
        decreases body@.len() - offset,
    {
        let ghost n = records@.len();
        proof {
            assert((n + 1) * width == n * width + width) by (nonlinear_arith);
            if n >= k {
                assert(n * width >= k * width) by (nonlinear_arith)
                    requires
                        n >= k,
                        width > 0,
                ;
                assert((k + 1) * width == k * width + width) by (nonlinear_arith);
            }
        }
        let chunk = slice_to_vec(slice_subrange(body, offset, offset + width));
        records.push(chunk);
        offset += width;
    }
    proof {
        let n = records@.len();
        if n < k {
            assert((n + 1) * width <= k * width) by (nonlinear_arith)
                requires
                    n + 1 <= k,
                    width > 0,
            ;
            assert((n + 1) * width == n * width + width) by (nonlinear_arith);
        }
        assert(n == k);
        assert(records_view(records@) =~= records_of(body@, width as nat));
        assert forall|j: int| 0 <= j < n implies (#[trigger] records_view(records@)[j]).len()
            == width by {
            assert(0 <= j * width <= (j + 1) * width <= k * width && (j + 1) * width == j
                * width + width) by (nonlinear_arith)
                requires
                    0 <= j < k,
                    width > 0,
            ;
        }
    }
    records
}

/// Reads a whole container: the header, then every full record of the body.
pub fn decode_container(buf: &[u8]) -> (res: Result<HashContainer, FormatError>)
    ensures
        match res {
            Ok(container) => container.wf() && decoded(buf@) == Ok::<
                (Header, Seq<Seq<u8>>),
                FormatError,
            >(container@),
            Err(e) => decoded(buf@) == Err::<(Header, Seq<Seq<u8>>), FormatError>(e),
        },
{
    let header = match parse_header(buf) {
        Ok(header) => header,
        Err(e) => {
            return Err(e);
        },
    };
    proof {
        lemma_named_len(buf@.subrange(2, 2 + buf@[1] as int));
    }
    let start = 3 + header.algorithm.len();
    let body = slice_subrange(buf, start, buf.len());
    let records = split_records(body, header.algorithm.record_width());
    Ok(HashContainer { header, records })
}

} // verus!
