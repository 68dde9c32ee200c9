//! Fixed-length password batches, their digests, and the binary container that
//! stores those digests.

pub mod args;
pub mod batch;
pub mod container;
pub mod digest;
pub mod dump_hashes;
pub mod gen_hashes;
pub mod gen_passwords;
pub mod partition;
pub mod pool;
pub mod progress;
pub mod record;
pub mod render;
pub mod text;
pub mod utility;

use crate::utility::{decimal_of, decimal_string, parsed_usize, ParseValue};
use vstd::prelude::*;
use vstd::string::StringExecFns;
use vstd::utf8::encode_utf8;

verus! {

/// What is said of a thread count that is no number.
pub const THREADS_NOT_A_NUMBER: &'static str = "Failed to parse the thread count as a number";

/// What is said when the machine does not tell how many threads it can run.
pub const CORES_UNKNOWN: &'static str = "Failed to determine the number of available CPU cores";

/// What is said of a thread count of zero.
pub const THREADS_ZERO: &'static str = "Error: Number of threads must be greater than zero.";

/// What is said of an item count that is no number.
pub const NUM_NOT_A_NUMBER: &'static str = "Failed to parse the given number as a number";

/// What is said of a thread count above what the machine can run.
pub open spec fn too_many_threads(threads: usize, available: usize) -> Seq<char> {
    "Requested thread count ("@ + decimal_of(threads as nat)
        + ") exceeds the available CPU threads ("@ + decimal_of(available as nat) + ")"@
}

/// The thread count that the text asks for, or the complaint about it. The
/// checks come in this order: the text is a number; the machine's number of
/// threads is known; the count is not zero; the count is not above that number.
pub open spec fn thread_count(text: Seq<u8>, available: Option<usize>) -> Result<
    usize,
    Seq<char>,
> {
    match parsed_usize(text) {
        None => Err(THREADS_NOT_A_NUMBER@),
        Some(threads) => match available {
            None => Err(CORES_UNKNOWN@),
            Some(limit) => if threads == 0 {
                Err(THREADS_ZERO@)
            } else if threads > limit {
                Err(too_many_threads(threads, limit))
            } else {
                Ok(threads)
            },
        },
    }
}

/// The characters of a count or of the complaint in its place.
pub open spec fn count_view(res: Result<usize, String>) -> Result<usize, Seq<char>> {
    match res {
        Ok(n) => Ok(n),
        Err(message) => Err(message@),
    }
}

/// Reads a thread count and holds it against `available`, the number of threads
/// that the machine can run at once (`None` where that is not known).
pub fn max_threads(s: &str, available: Option<usize>) -> (res: Result<usize, String>)
    ensures
        count_view(res) == thread_count(encode_utf8(s@), available),
        res matches Ok(threads) ==> threads >= 1,
{
    let threads: usize = match s.parse_value::<usize>(THREADS_NOT_A_NUMBER) {
        Ok(threads) => threads,
        Err(message) => {
            return Err(message);
        },
    };
    let limit = match available {
        Some(limit) => limit,
        None => {
            return Err(CORES_UNKNOWN.to_owned());
        },
    };
    if threads == 0 {
        return Err(THREADS_ZERO.to_owned());
    }
    if threads > limit {
        let mut message = "Requested thread count (".to_owned();
        message.append(decimal_string(threads).as_str());
        message.append(") exceeds the available CPU threads (");
        message.append(decimal_string(limit).as_str());
        message.append(")");
        return Err(message);
    }
    Ok(threads)
}

/// Reads a count of items.
pub fn max_num(s: &str) -> (res: Result<usize, String>)
    ensures
        match res {
            Ok(num) => parsed_usize(encode_utf8(s@)) == Some(num),
            Err(message) => parsed_usize(encode_utf8(s@)) is None && message@ == NUM_NOT_A_NUMBER@,
        },
{
    s.parse_value::<usize>(NUM_NOT_A_NUMBER)
}

} // verus!
