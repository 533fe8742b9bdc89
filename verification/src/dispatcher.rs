//! The dispatcher: a state machine with states `Idle` (no buffer open) and
//! `Open` (one per-file buffer active). It decides, record by record, whether
//! the open buffer keeps serving, must be flushed first, or a new one must be
//! opened, so that consecutive records for one file share a single
//! load/apply/persist cycle. The caller performs the reads and writes.

use vstd::prelude::*;

use crate::patcher::{apply_delta, lines_after_apply, FilePatcher};
use crate::record::{LinePatch, PatchError};
use crate::text::{bytes_eq, join, split_lines};

verus! {

/// What the caller must do with the incoming record.
#[derive(Clone, Copy, Debug, PartialEq, Eq, Structural)]
pub enum DispatchAction {
    /// No buffer is open: read the record's file, open a buffer, then apply.
    OpenNew,
    /// The open buffer is for the record's file: apply the record to it.
    ApplyToOpen,
    /// The open buffer is for another file: flush it (persist its bytes),
    /// then read the record's file, open a buffer, and apply.
    FlushThenOpen,
}

/// The transition that a record with path `path` demands in state `current`:
/// `Idle` opens, a matching open buffer absorbs the record, a differing one
/// is flushed before its successor is opened.
pub open spec fn action_for(current: Option<FilePatcher>, path: Seq<u8>) -> DispatchAction {
    match current {
        Option::None => DispatchAction::OpenNew,
        Option::Some(buffer) => if buffer.path@ == path {
            DispatchAction::ApplyToOpen
        } else {
            DispatchAction::FlushThenOpen
        },
    }
}

/// The dispatcher's whole state: at most one open buffer at any time.
pub struct Dispatcher {
    /// The single open buffer, or `None` in the `Idle` state.
    pub current: Option<FilePatcher>,
}

impl Dispatcher {
    /// A dispatcher starts `Idle`.
    pub fn new() -> (d: Dispatcher)
        ensures
            d.current is None,
    {
        Dispatcher { current: None }
    }

    /// The transition that `record` demands in the present state.
    pub fn next_action(&self, record: &LinePatch) -> (a: DispatchAction)
        ensures
            a == action_for(self.current, record.file_path@),
    {
        match &self.current {
            Option::None => DispatchAction::OpenNew,
            Option::Some(buffer) => {
                if bytes_eq(buffer.path.as_slice(), record.file_path.as_slice()) {
                    DispatchAction::ApplyToOpen
                } else {
                    DispatchAction::FlushThenOpen
                }
            },
        }
    }

    /// Opens a buffer for `path` from that file's full bytes. Only the `Idle`
    /// state accepts this: the dispatcher never holds two buffers.
    pub fn open_buffer(&mut self, path: Vec<u8>, content: &[u8])
        requires
            old(self).current is None,
        ensures
            final(self).current is Some,
            final(self).current->0.path == path,
            final(self).current->0.lines_model() == split_lines(content@),
            final(self).current->0.applied_count == 0,
    {
        self.current = Some(FilePatcher::open(path, content));
    }

    /// Applies `record` to the open buffer, which must be open on the
    /// record's file; the buffer's contract carries over.
    pub fn apply(&mut self, record: &LinePatch) -> (r: Result<(), PatchError>)
        requires
            record.wf(),
            old(self).current is Some,
            old(self).current->0.path@ == record.file_path@,
            old(self).current->0.applied_count < usize::MAX,
        ensures
            final(self).current is Some,
            final(self).current->0.path == old(self).current->0.path,
            record.line_number <= old(self).current->0.lines_model().len() ==> {
                &&& r == Ok::<(), PatchError>(())
                &&& final(self).current->0.lines_model() == lines_after_apply(
                    old(self).current->0.lines_model(),
                    record.line_number as nat,
                    record.content@,
                )
                &&& final(self).current->0.applied_count == old(self).current->0.applied_count
                    + apply_delta(
                    old(self).current->0.lines_model(),
                    record.line_number as nat,
                    record.content@,
                )
            },
            record.line_number > old(self).current->0.lines_model().len() ==> {
                &&& r == Err::<(), PatchError>(PatchError::LineOutOfRange)
                &&& final(self).current == old(self).current
            },
    {
        match &mut self.current {
            Option::Some(buffer) => buffer.apply(record),
            Option::None => vstd::pervasive::unreached(),
        }
    }

    /// Leaves the `Open` state: yields the open buffer's path, its joined
    /// bytes ready to persist, and its changed-line count; or `None` when
    /// already `Idle`. Flushing at a file boundary and flushing at stream end
    /// are this same, single transition.
    pub fn close(&mut self) -> (r: Option<(Vec<u8>, Vec<u8>, usize)>)
        ensures
            final(self).current is None,
            old(self).current is Some ==> {
                &&& r is Some
                &&& (r->0).0 == old(self).current->0.path
                &&& (r->0).1@ == join(old(self).current->0.lines_model())
                &&& (r->0).2 == old(self).current->0.applied_count
            },
            old(self).current is None ==> r is None,
    {
        match self.current.take() {
            Option::Some(buffer) => Some(buffer.finish()),
            Option::None => None,
        }
    }
}

} // verus!
