use linepatch::patcher::FilePatcher;
use linepatch::record::{LinePatch, PatchError};

fn record(line: &[u8]) -> LinePatch {
    LinePatch::new(line).unwrap()
}

#[test]
fn replaces_one_line_and_counts_it() {
    let mut patcher = FilePatcher::open(b"f".to_vec(), b"foo\nbar\nbaz\n");
    patcher.apply(&record(b"f:2:qux")).unwrap();
    let (path, content, count) = patcher.finish();
    assert_eq!(path, b"f".to_vec());
    assert_eq!(content, b"foo\nqux\nbaz\n".to_vec());
    assert_eq!(count, 1);
}

#[test]
fn applying_same_record_twice_counts_once() {
    let mut patcher = FilePatcher::open(b"f".to_vec(), b"one\ntwo\n");
    patcher.apply(&record(b"f:1:xxx")).unwrap();
    patcher.apply(&record(b"f:1:xxx")).unwrap();
    let (_, content, count) = patcher.finish();
    assert_eq!(content, b"xxx\ntwo\n".to_vec());
    assert_eq!(count, 1);
}

#[test]
fn matching_content_is_a_noop() {
    let mut patcher = FilePatcher::open(b"f".to_vec(), b"same\nother\n");
    patcher.apply(&record(b"f:1:same")).unwrap();
    let (_, content, count) = patcher.finish();
    assert_eq!(content, b"same\nother\n".to_vec());
    assert_eq!(count, 0);
}

#[test]
fn keeps_carriage_return_line_feed_terminators() {
    let mut patcher = FilePatcher::open(b"f".to_vec(), b"aaa\r\nbbb\r\n");
    patcher.apply(&record(b"f:1:xxx")).unwrap();
    let (_, content, count) = patcher.finish();
    assert_eq!(content, b"xxx\r\nbbb\r\n".to_vec());
    assert_eq!(count, 1);
}

#[test]
fn keeps_missing_terminator_on_final_line() {
    let mut patcher = FilePatcher::open(b"f".to_vec(), b"aaa\nbbb");
    patcher.apply(&record(b"f:2:yyy")).unwrap();
    let (_, content, count) = patcher.finish();
    assert_eq!(content, b"aaa\nyyy".to_vec());
    assert_eq!(count, 1);
}

#[test]
fn drops_terminator_bytes_of_the_patch_itself() {
    let mut patcher = FilePatcher::open(b"f".to_vec(), b"foo\nbar");
    patcher
        .apply(&LinePatch {
            file_path: b"f".to_vec(),
            line_number: 1,
            content: b"qux\r\n".to_vec(),
        })
        .unwrap();
    let (_, content, count) = patcher.finish();
    assert_eq!(content, b"qux\nbar".to_vec());
    assert_eq!(count, 1);
}

#[test]
fn line_beyond_end_fails_and_changes_nothing() {
    let mut patcher = FilePatcher::open(b"f".to_vec(), b"a\nb\nc\n");
    let err = patcher.apply(&record(b"f:10:zzz")).unwrap_err();
    assert_eq!(err, PatchError::LineOutOfRange);
    let (_, content, count) = patcher.finish();
    assert_eq!(content, b"a\nb\nc\n".to_vec());
    assert_eq!(count, 0);
}

#[test]
fn empty_file_has_no_line_one() {
    let mut patcher = FilePatcher::open(b"f".to_vec(), b"");
    let err = patcher.apply(&record(b"f:1:x")).unwrap_err();
    assert_eq!(err, PatchError::LineOutOfRange);
    let (_, content, count) = patcher.finish();
    assert_eq!(content, b"".to_vec());
    assert_eq!(count, 0);
}

#[test]
fn joined_content_reproduces_file_bytes_exactly() {
    let original = b"a\r\nb\nc";
    let patcher = FilePatcher::open(b"f".to_vec(), original);
    let (_, content, count) = patcher.finish();
    assert_eq!(content, original.to_vec());
    assert_eq!(count, 0);
}

#[test]
fn several_edits_to_one_buffer_accumulate() {
    let mut patcher = FilePatcher::open(b"f".to_vec(), b"1\n2\n3\n");
    patcher.apply(&record(b"f:1:one")).unwrap();
    patcher.apply(&record(b"f:3:three")).unwrap();
    patcher.apply(&record(b"f:1:uno")).unwrap();
    let (_, content, count) = patcher.finish();
    assert_eq!(content, b"uno\n2\nthree\n".to_vec());
    assert_eq!(count, 3);
}
