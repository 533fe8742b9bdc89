use linepatch::summary::{format_count, summary_line};

#[test]
fn formats_small_counts() {
    assert_eq!(format_count(0), b"0".to_vec());
    assert_eq!(format_count(7), b"7".to_vec());
    assert_eq!(format_count(10), b"10".to_vec());
}

#[test]
fn formats_larger_counts() {
    assert_eq!(format_count(123), b"123".to_vec());
    assert_eq!(format_count(usize::MAX), b"18446744073709551615".to_vec());
}

#[test]
fn summary_names_path_and_count() {
    assert_eq!(
        summary_line(b"src/lib.rs", 42),
        b"src/lib.rs: Applied 42 line patches".to_vec()
    );
}

#[test]
fn summary_with_empty_path_and_zero_count() {
    assert_eq!(
        summary_line(b"", 0),
        b": Applied 0 line patches".to_vec()
    );
}
