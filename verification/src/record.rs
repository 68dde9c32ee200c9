//! Records: the byte strings that a container stores, each of its algorithm's
//! width.

use vstd::prelude::*;

verus! {

/// The bytes of a record that may be missing.
pub open spec fn record_view(record: Option<Vec<u8>>) -> Option<Seq<u8>> {
    match record {
        Some(bytes) => Some(bytes@),
        None => None,
    }
}

/// The byte sequences held by a sequence of records.
pub open spec fn records_view(records: Seq<Vec<u8>>) -> Seq<Seq<u8>> {
    Seq::new(records.len(), |i: int| records[i]@)
}

/// Whether each record has the given width.
pub open spec fn all_of_width(records: Seq<Seq<u8>>, width: nat) -> bool {
    forall|i: int| 0 <= i < records.len() ==> (#[trigger] records[i]).len() == width
}

/// The record if it is there and `width` bytes long.
pub open spec fn of_width(record: Option<Seq<u8>>, width: nat) -> Option<Seq<u8>> {
    match record {
        Some(bytes) => if bytes.len() == width {
            Some(bytes)
        } else {
            None
        },
        None => None,
    }
}

/// Keeps a record only if it is there and `width` bytes long.
pub fn keep_width(record: Option<Vec<u8>>, width: usize) -> (out: Option<Vec<u8>>)
    ensures
        record_view(out) == of_width(record_view(record), width as nat),
{
    match record {
        Some(bytes) => if bytes.len() == width {
            Some(bytes)
        } else {
            None
        },
        None => None,
    }
}

} // verus!
