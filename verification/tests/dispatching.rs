use std::collections::HashMap;

use linepatch::dispatcher::{DispatchAction, Dispatcher};
use linepatch::record::{LinePatch, PatchError};
use linepatch::summary::summary_line;

/// Drives the dispatcher over `input` against an in-memory disk, returning
/// the persisted files in write order together with their summary lines.
fn run_stream(
    disk: &mut HashMap<Vec<u8>, Vec<u8>>,
    input: &[&[u8]],
) -> Result<Vec<(Vec<u8>, Vec<u8>)>, PatchError> {
    let mut writes: Vec<(Vec<u8>, Vec<u8>)> = Vec::new();
    let mut dispatcher = Dispatcher::new();
    for raw in input {
        let patch = LinePatch::new(raw)?;
        match dispatcher.next_action(&patch) {
            DispatchAction::ApplyToOpen => {}
            DispatchAction::FlushThenOpen => {
                let (path, content, count) = dispatcher.close().unwrap();
                disk.insert(path.clone(), content.clone());
                writes.push((content, summary_line(&path, count)));
                let bytes = disk.get(&patch.file_path).unwrap().clone();
                dispatcher.open_buffer(patch.file_path.clone(), &bytes);
            }
            DispatchAction::OpenNew => {
                let bytes = disk.get(&patch.file_path).unwrap().clone();
                dispatcher.open_buffer(patch.file_path.clone(), &bytes);
            }
        }
        dispatcher.apply(&patch)?;
    }
    if let Some((path, content, count)) = dispatcher.close() {
        disk.insert(path.clone(), content.clone());
        writes.push((content, summary_line(&path, count)));
    }
    Ok(writes)
}

#[test]
fn end_to_end_single_record() {
    let mut disk = HashMap::new();
    disk.insert(b"path".to_vec(), b"foo\nbar\nbaz\n".to_vec());
    let writes = run_stream(&mut disk, &[b"path:2:qux"]).unwrap();
    assert_eq!(disk[&b"path".to_vec()], b"foo\nqux\nbaz\n".to_vec());
    assert_eq!(writes.len(), 1);
    assert_eq!(writes[0].1, b"path: Applied 1 line patches".to_vec());
}

#[test]
fn interleaved_files_cause_two_cycles_for_the_first() {
    let mut disk = HashMap::new();
    disk.insert(b"a".to_vec(), b"1\n2\n".to_vec());
    disk.insert(b"b".to_vec(), b"x\n".to_vec());
    let writes = run_stream(
        &mut disk,
        &[b"a:1:first", b"a:2:second", b"b:1:bee", b"a:1:third"],
    )
    .unwrap();
    // Three separate persist cycles: a (two records), b, then a again.
    assert_eq!(writes.len(), 3);
    assert_eq!(writes[0].0, b"first\nsecond\n".to_vec());
    assert_eq!(writes[0].1, b"a: Applied 2 line patches".to_vec());
    assert_eq!(writes[1].0, b"bee\n".to_vec());
    assert_eq!(writes[1].1, b"b: Applied 1 line patches".to_vec());
    // The second cycle for `a` starts from the persisted result of the first.
    assert_eq!(writes[2].0, b"third\nsecond\n".to_vec());
    assert_eq!(writes[2].1, b"a: Applied 1 line patches".to_vec());
    assert_eq!(disk[&b"a".to_vec()], b"third\nsecond\n".to_vec());
    assert_eq!(disk[&b"b".to_vec()], b"bee\n".to_vec());
}

#[test]
fn first_record_opens_then_matching_records_apply() {
    let mut dispatcher = Dispatcher::new();
    let first = LinePatch::new(b"f:1:x").unwrap();
    assert_eq!(dispatcher.next_action(&first), DispatchAction::OpenNew);
    dispatcher.open_buffer(first.file_path.clone(), b"a\nb\n");
    assert_eq!(dispatcher.next_action(&first), DispatchAction::ApplyToOpen);
    let other = LinePatch::new(b"g:1:y").unwrap();
    assert_eq!(dispatcher.next_action(&other), DispatchAction::FlushThenOpen);
}

#[test]
fn failed_record_aborts_without_persisting() {
    let mut disk = HashMap::new();
    disk.insert(b"f".to_vec(), b"a\nb\nc\n".to_vec());
    let err = run_stream(&mut disk, &[b"f:1:changed", b"f:10:zzz"]).unwrap_err();
    assert_eq!(err, PatchError::LineOutOfRange);
    // The open buffer was dropped unflushed: the file keeps its old bytes.
    assert_eq!(disk[&b"f".to_vec()], b"a\nb\nc\n".to_vec());
}

#[test]
fn empty_stream_writes_nothing() {
    let mut disk = HashMap::new();
    let writes = run_stream(&mut disk, &[]).unwrap();
    assert!(writes.is_empty());
    assert!(disk.is_empty());
}

#[test]
fn close_on_idle_dispatcher_yields_nothing() {
    let mut dispatcher = Dispatcher::new();
    assert!(dispatcher.close().is_none());
}
