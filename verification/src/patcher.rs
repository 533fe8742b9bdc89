//! The per-file patcher: an in-memory buffer of one file's lines, built once
//! from the file's bytes, mutated line by line, and joined back exactly once.

use vstd::prelude::*;
use vstd::pervasive::VecAdditionalExecFns;

use crate::record::{LinePatch, PatchError};
use crate::text::{
    bytes_eq, copy_range, join, join_lines, lemma_trim_line_append_terminators,
    lemma_trim_line_idempotent, lemma_trim_line_prefix, lines_view, split_into_lines, split_lines,
    terminator, trim_line, trimmed_len,
};

verus! {

/// Replacing a line's content with `content` is a no-op when the two agree
/// once trailing terminator bytes are ignored.
pub open spec fn is_noop_edit(line: Seq<u8>, content: Seq<u8>) -> bool {
    trim_line(line) == trim_line(content)
}

/// The line after an edit: unchanged on a no-op, else the new content (its
/// own trailing terminator bytes dropped) followed by the terminator bytes of
/// the existing line — never those of the patch.
pub open spec fn line_after_edit(line: Seq<u8>, content: Seq<u8>) -> Seq<u8> {
    if is_noop_edit(line, content) {
        line
    } else {
        trim_line(content) + terminator(line)
    }
}

/// The buffer's lines after one record `(number, content)` is applied to
/// line `number` (1-based).
pub open spec fn lines_after_apply(lines: Seq<Seq<u8>>, number: nat, content: Seq<u8>) -> Seq<
    Seq<u8>,
> {
    lines.update(number - 1, line_after_edit(lines[number - 1], content))
}

/// How much one record adds to the changed-line count: nothing on a no-op,
/// one otherwise.
pub open spec fn apply_delta(lines: Seq<Seq<u8>>, number: nat, content: Seq<u8>) -> nat {
    if is_noop_edit(lines[number - 1], content) {
        0
    } else {
        1
    }
}

/// An edit leaves the line's terminator bytes exactly as they were, and makes
/// the line's content agree with the patch once trailing terminator bytes are
/// ignored.
pub proof fn lemma_edit_preserves_terminator(line: Seq<u8>, content: Seq<u8>)
    ensures
        terminator(line_after_edit(line, content)) == terminator(line),
        trim_line(line_after_edit(line, content)) == trim_line(content),
{
    if is_noop_edit(line, content) {
    } else {
        let new = trim_line(content) + terminator(line);
        lemma_trim_line_prefix(line);
        assert(forall|i: int|
            0 <= i < terminator(line).len() ==> crate::text::is_terminator_byte(
                #[trigger] terminator(line)[i],
            ));
        lemma_trim_line_append_terminators(trim_line(content), terminator(line));
        lemma_trim_line_idempotent(content);
        assert(terminator(new) =~= terminator(line));
    }
}

/// Applying the same record twice changes the line at most once: after the
/// first application the edit is a no-op, and the lines and the changed-line
/// count stay as they are.
pub proof fn lemma_apply_idempotent(lines: Seq<Seq<u8>>, number: nat, content: Seq<u8>)
    requires
        1 <= number <= lines.len(),
    ensures
        apply_delta(lines_after_apply(lines, number, content), number, content) == 0,
        lines_after_apply(lines_after_apply(lines, number, content), number, content)
            == lines_after_apply(lines, number, content),
{
    let once = lines_after_apply(lines, number, content);
    lemma_edit_preserves_terminator(lines[number - 1], content);
    assert(once[number - 1] == line_after_edit(lines[number - 1], content));
    assert(is_noop_edit(once[number - 1], content));
    assert(lines_after_apply(once, number, content) =~= once);
}

/// The in-memory buffer of one file between open and finish: its path, its
/// lines with their original terminator bytes, and the count of lines whose
/// content an applied record actually changed.
#[derive(Debug)]
pub struct FilePatcher {
    /// The file being edited.
    pub path: Vec<u8>,
    /// The file's lines, each retaining its trailing terminator bytes.
    pub lines: Vec<Vec<u8>>,
    /// How many applied records changed their line (no-ops excluded).
    pub applied_count: usize,
}

impl FilePatcher {
    /// The mathematical view of the buffer's lines.
    pub open spec fn lines_model(&self) -> Seq<Seq<u8>> {
        lines_view(self.lines@)
    }

    /// Opens a buffer for `path` from the file's full bytes: the content is
    /// split into terminator-retaining lines, and no line is changed yet.
    pub fn open(path: Vec<u8>, content: &[u8]) -> (r: FilePatcher)
        ensures
            r.path == path,
            r.lines_model() == split_lines(content@),
            r.applied_count == 0,
    {
        FilePatcher { path, lines: split_into_lines(content), applied_count: 0 }
    }

    /// Applies one record to the buffer. Fails with `LineOutOfRange`, leaving
    /// the buffer untouched, exactly when the record addresses a line beyond
    /// the buffer's last. Otherwise replaces the addressed line's content,
    /// keeps the line's own terminator bytes, counts the line as changed only
    /// if its trimmed content differs from the patch, and succeeds.
    pub fn apply(&mut self, patch: &LinePatch) -> (r: Result<(), PatchError>)
        requires
            patch.wf(),
            old(self).applied_count < usize::MAX,
        ensures
            final(self).path == old(self).path,
            patch.line_number <= old(self).lines_model().len() ==> {
                &&& r == Ok::<(), PatchError>(())
                &&& final(self).lines_model() == lines_after_apply(
                    old(self).lines_model(),
                    patch.line_number as nat,
                    patch.content@,
                )
                &&& final(self).applied_count == old(self).applied_count + apply_delta(
                    old(self).lines_model(),
                    patch.line_number as nat,
                    patch.content@,
                )
            },
            patch.line_number > old(self).lines_model().len() ==> {
                &&& r == Err::<(), PatchError>(PatchError::LineOutOfRange)
                &&& *final(self) == *old(self)
            },
    {
        let index = patch.line_number - 1;
        if index >= self.lines.len() {
            return Err(PatchError::LineOutOfRange);
        }
        let line = &self.lines[index];
        let line_trimmed = trimmed_len(line.as_slice());
        let content_trimmed = trimmed_len(patch.content.as_slice());
        let ghost line_seq = line@;
        let ghost content_seq = patch.content@;
        let line_prefix = vstd::slice::slice_subrange(line.as_slice(), 0, line_trimmed);
        let content_prefix = vstd::slice::slice_subrange(
            patch.content.as_slice(),
            0,
            content_trimmed,
        );
        if bytes_eq(line_prefix, content_prefix) {
            return Ok(());
        }
        let line_len = line.len();
        let mut new_line = copy_range(patch.content.as_slice(), 0, content_trimmed);
        let mut term = copy_range(line.as_slice(), line_trimmed, line_len);
        new_line.append(&mut term);
        proof {
            assert(new_line@ =~= trim_line(content_seq) + terminator(line_seq));
        }
        self.lines.set(index, new_line);
        self.applied_count = self.applied_count + 1;
        proof {
            assert(self.lines_model() =~= lines_after_apply(
                old(self).lines_model(),
                patch.line_number as nat,
                patch.content@,
            ));
        }
        Ok(())
    }

    /// Ends the buffer's life: yields the path, the joined bytes of all lines
    /// (reproducing every terminator exactly), and the changed-line count.
    pub fn finish(self) -> (r: (Vec<u8>, Vec<u8>, usize))
        ensures
            r.0 == self.path,
            r.1@ == join(self.lines_model()),
            r.2 == self.applied_count,
    {
        let content = join_lines(&self.lines);
        (self.path, content, self.applied_count)
    }
}

} // verus!
