use hashassin_core::batch::{validate_batch, PasswordBatch, ValidationError};

fn lines(items: &[&str]) -> Vec<String> {
    items.iter().map(|s| s.to_string()).collect()
}

#[test]
fn uniform_lines_are_a_batch() {
    let input = lines(&["abcd", "efgh", "ijkl"]);
    assert_eq!(validate_batch(&input), Ok(4));
    let batch = PasswordBatch::new(input).unwrap();
    assert_eq!(batch.len(), 3);
    assert!(!batch.is_empty());
    assert_eq!(batch.password_length(), 4);
    assert_eq!(batch.password(0), b"abcd");
    assert_eq!(batch.password(2), b"ijkl");
}

#[test]
fn an_empty_batch_is_refused() {
    assert_eq!(validate_batch(&Vec::new()), Err(ValidationError::EmptyBatch));
    assert_eq!(PasswordBatch::new(Vec::new()).err(), Some(ValidationError::EmptyBatch));
}

#[test]
fn the_first_line_of_another_length_is_reported() {
    let input = lines(&["abcd", "efgh", "xyz", "ijkl", "q"]);
    let expected = ValidationError::LengthMismatch { line: 3, expected: 4 };
    assert_eq!(validate_batch(&input), Err(expected));
    assert_eq!(PasswordBatch::new(input).err(), Some(expected));
}

#[test]
fn the_first_line_sets_the_length() {
    let input = lines(&["ab", "abcd", "abcd"]);
    assert_eq!(
        validate_batch(&input),
        Err(ValidationError::LengthMismatch { line: 2, expected: 2 })
    );
}

#[test]
fn a_mismatch_in_the_last_line_is_found() {
    let input = lines(&["abcd", "efgh", "ijklm"]);
    assert_eq!(
        validate_batch(&input),
        Err(ValidationError::LengthMismatch { line: 3, expected: 4 })
    );
}

#[test]
fn length_is_counted_in_bytes() {
    let input = lines(&["é", "ab"]);
    assert_eq!(validate_batch(&input), Ok(2));
    let input = lines(&["é", "a"]);
    assert_eq!(
        validate_batch(&input),
        Err(ValidationError::LengthMismatch { line: 2, expected: 2 })
    );
}

#[test]
fn a_single_line_is_a_batch() {
    assert_eq!(validate_batch(&lines(&["only"])), Ok(4));
    assert_eq!(validate_batch(&lines(&[""])), Ok(0));
}
