//! Listing a container: its header fields and one line for each record.

use crate::args::Algorithm;
use crate::container::{
    container_of, decode_container, decoded, lemma_round_trip, FormatError, Header, FORMAT_VERSION,
};
use crate::record::all_of_width;
use crate::render::{
    all_render, hex_of, lemma_full_listing, lemma_raw_listing, lines_view, listed, render_records,
    rendered,
};
use vstd::prelude::*;

verus! {

/// What a container lists as: its header fields, one line for each record that
/// could be rendered, and the reason why listing stopped early, if it did.
#[derive(Debug, Clone)]
pub struct Listing {
    /// The header fields.
    pub header: Header,
    /// The lines of the records that could be rendered, in stored order.
    pub lines: Vec<String>,
    /// Why the record after the last line could not be rendered; `None` where
    /// every record has its line.
    pub failure: Option<FormatError>,
}

/// Reads a container and lists it. A container whose header cannot be read
/// gives the header's error and nothing else. A record that cannot be rendered
/// ends the listing; the lines before it stay.
pub fn dump_hashes(buf: &[u8]) -> (res: Result<Listing, FormatError>)
    ensures
        match res {
            Ok(listing) => decoded(buf@) matches Ok((header, records)) && listing.header
                == header && listed(
                header.algorithm,
                records,
                lines_view(listing.lines@),
                listing.failure,
            ),
            Err(e) => decoded(buf@) == Err::<(Header, Seq<Seq<u8>>), FormatError>(e),
        },
{
    let container = match decode_container(buf) {
        Ok(container) => container,
        Err(e) => {
            return Err(e);
        },
    };
    let (lines, failure) = render_records(container.header.algorithm, &container.records);
    Ok(Listing { header: container.header, lines, failure })
}

/// Listing a container of `K` records of the algorithm's width, each of which
/// has a line, reports version 1, the algorithm, the password length and `K`
/// lines, one for each record in stored order.
pub proof fn lemma_dump_round_trip(
    algorithm: Algorithm,
    password_length: u8,
    records: Seq<Seq<u8>>,
    lines: Seq<Seq<char>>,
    failure: Option<FormatError>,
)
    requires
        all_of_width(records, algorithm.width()),
        all_render(algorithm, records),
        decoded(container_of(algorithm, password_length, records)) matches Ok((header, stored))
            && listed(header.algorithm, stored, lines, failure),
    ensures
        decoded(container_of(algorithm, password_length, records)) matches Ok((header, stored))
            && header == (Header { version: FORMAT_VERSION, algorithm, password_length })
            && stored == records,
        failure is None,
        lines.len() == records.len(),
        forall|i: int|
            0 <= i < records.len() ==> rendered(algorithm, #[trigger] records[i]) == Ok::<
                Seq<char>,
                FormatError,
            >(lines[i]),
{
    lemma_round_trip(algorithm, password_length, records);
    lemma_full_listing(algorithm, records, lines, failure);
}

/// The same for raw digests, which always have a line: the `K` lines are the
/// hexadecimal texts of the `K` records.
pub proof fn lemma_dump_round_trip_raw(
    algorithm: Algorithm,
    password_length: u8,
    records: Seq<Seq<u8>>,
    lines: Seq<Seq<char>>,
    failure: Option<FormatError>,
)
    requires
        !(algorithm is Scrypt),
        all_of_width(records, algorithm.width()),
        decoded(container_of(algorithm, password_length, records)) matches Ok((header, stored))
            && listed(header.algorithm, stored, lines, failure),
    ensures
        decoded(container_of(algorithm, password_length, records)) matches Ok((header, stored))
            && header == (Header { version: FORMAT_VERSION, algorithm, password_length })
            && stored == records,
        failure is None,
        lines.len() == records.len(),
        forall|i: int| 0 <= i < records.len() ==> #[trigger] lines[i] == hex_of(records[i]),
{
    lemma_round_trip(algorithm, password_length, records);
    lemma_raw_listing(algorithm, records, lines, failure);
}

} // verus!
