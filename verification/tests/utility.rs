use hashassin_core::args::Algorithm;
use hashassin_core::utility::{decimal_string, digit_str, parse_usize, FromText, ParseValue};
use hashassin_core::{
    max_num, max_threads, CORES_UNKNOWN, NUM_NOT_A_NUMBER, THREADS_NOT_A_NUMBER, THREADS_ZERO,
};

#[test]
fn decimal_text_is_read() {
    assert_eq!(parse_usize(b"0"), Some(0));
    assert_eq!(parse_usize(b"7"), Some(7));
    assert_eq!(parse_usize(b"42"), Some(42));
    assert_eq!(parse_usize(b"007"), Some(7));
    assert_eq!(parse_usize(b"+15"), Some(15));
    assert_eq!(parse_usize(b"1000000"), Some(1_000_000));
}

#[test]
fn other_text_is_no_number() {
    let others = [
        "", "+", "-", "-1", "-0", "++1", "+-1", "1 ", " 1", "1_000", "12a", "a12", "1.5", "0x10", "١٢",
    ];
    for text in others {
        assert_eq!(parse_usize(text.as_bytes()), None);
        assert_eq!(parse_usize(text.as_bytes()), text.parse::<usize>().ok());
    }
}

#[test]
fn numbers_up_to_the_largest_are_read_and_no_further() {
    let max = usize::MAX.to_string();
    assert_eq!(parse_usize(max.as_bytes()), Some(usize::MAX));
    let mut above = max.clone().into_bytes();
    let last = above.len() - 1;
    above[last] += 1;
    assert_eq!(parse_usize(&above), None);
    let longer = format!("{}0", max);
    assert_eq!(parse_usize(longer.as_bytes()), None);
    assert_eq!(parse_usize(b"99999999999999999999999999999999999999"), None);
    let padded = format!("000000000000000000000000{}", max);
    assert_eq!(parse_usize(padded.as_bytes()), Some(usize::MAX));
}

#[test]
fn reading_agrees_with_the_standard_parser() {
    for n in (0..5000usize).chain([usize::MAX - 1, usize::MAX, 1 << 32, 999_999_999_999]) {
        let text = n.to_string();
        assert_eq!(parse_usize(text.as_bytes()), Some(n));
        assert_eq!(decimal_string(n), text);
    }
}

#[test]
fn digits_and_decimal_text() {
    assert_eq!(digit_str(0), "0");
    assert_eq!(digit_str(9), "9");
    assert_eq!(decimal_string(0), "0");
    assert_eq!(decimal_string(10), "10");
    assert_eq!(decimal_string(907), "907");
    assert_eq!(decimal_string(usize::MAX), usize::MAX.to_string());
}

#[test]
fn values_are_read_from_text_with_the_callers_message() {
    assert_eq!("12".parse_value::<usize>("no number"), Ok(12));
    assert_eq!("twelve".parse_value::<usize>("no number"), Err("no number".to_string()));
    assert_eq!("sha256".parse_value::<Algorithm>("no algorithm"), Ok(Algorithm::Sha256));
    assert_eq!("sha3".parse_value::<Algorithm>("no algorithm"), Err("no algorithm".to_string()));
    assert_eq!(<usize as FromText>::from_text("+3"), Some(3));
    assert_eq!(<Algorithm as FromText>::from_text("MD5"), Some(Algorithm::Md5));
    assert_eq!(<Algorithm as FromText>::from_text(""), None);
}

#[test]
fn max_num_reads_a_count() {
    assert_eq!(max_num("0"), Ok(0));
    assert_eq!(max_num("250"), Ok(250));
    assert_eq!(max_num("abc"), Err("Failed to parse the given number as a number".to_string()));
    assert_eq!(max_num("-3"), Err(NUM_NOT_A_NUMBER.to_string()));
    assert_eq!(max_num(""), Err(NUM_NOT_A_NUMBER.to_string()));
}

#[test]
fn max_threads_accepts_counts_up_to_what_the_machine_runs() {
    assert_eq!(max_threads("1", Some(8)), Ok(1));
    assert_eq!(max_threads("8", Some(8)), Ok(8));
    assert_eq!(max_threads("1", Some(1)), Ok(1));
}

#[test]
fn max_threads_complaints_come_in_order() {
    assert_eq!(
        max_threads("many", None),
        Err("Failed to parse the thread count as a number".to_string())
    );
    assert_eq!(max_threads("x", Some(4)), Err(THREADS_NOT_A_NUMBER.to_string()));
    assert_eq!(
        max_threads("0", None),
        Err("Failed to determine the number of available CPU cores".to_string())
    );
    assert_eq!(max_threads("3", None), Err(CORES_UNKNOWN.to_string()));
    assert_eq!(
        max_threads("0", Some(4)),
        Err("Error: Number of threads must be greater than zero.".to_string())
    );
    assert_eq!(max_threads("0", Some(0)), Err(THREADS_ZERO.to_string()));
    assert_eq!(
        max_threads("9", Some(8)),
        Err("Requested thread count (9) exceeds the available CPU threads (8)".to_string())
    );
    assert_eq!(
        max_threads("1024", Some(16)),
        Err("Requested thread count (1024) exceeds the available CPU threads (16)".to_string())
    );
}
