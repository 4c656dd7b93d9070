//! The whole pipeline behind the loader: merge the files and render every
//! emitted entry.

use crate::log::{file_views, FileView, LogFile};
use crate::merge::{merge_order, merged, stamps_of, total_entries, Emission};
use crate::merge_laws::lemma_merge_complete;
use crate::paint::{MarksView, SeverityMarks};
use crate::render::{
    bracketed, build_index, first_with_id, highlight_ids, highlight_severity, holds_id, id_index,
    index_with, mark_views, render_log_entry, rendered, source_token, MarkView,
};
use crate::text::line_views;
use vstd::prelude::*;

verus! {

/// The output line of one merge step.
pub open spec fn rendered_step(files: Seq<FileView>, marks: MarksView, step: Emission) -> Seq<
    char,
> {
    rendered(
        files[step.file as int].entries[step.entry as int],
        files[step.file as int],
        id_index(files),
        marks,
    )
}

/// The output of a run: one line for each step of the merge of `files`, in
/// the order of the merge.
pub open spec fn rendered_stream(files: Seq<FileView>, marks: MarksView) -> Seq<Seq<char>> {
    let order = merged(stamps_of(files));
    Seq::new(order.len(), |k: int| rendered_step(files, marks, order[k]))
}

/// Merges `files` and renders every emitted entry with the given display
/// forms of the severity keywords.
pub fn render_merged(files: &Vec<LogFile>, marks: &SeverityMarks) -> (lines: Vec<String>)
    ensures
        line_views(lines@) == rendered_stream(file_views(files@), marks@),
        lines.len() == total_entries(stamps_of(file_views(files@))),
{
    let ghost views = file_views(files@);
    let index = build_index(files);
    let order = merge_order(files);
    proof {
        lemma_merge_complete(stamps_of(views), order@);
    }
    let mut lines: Vec<String> = Vec::new();
    let mut k: usize = 0;
    while k < order.len()
        invariant
            k <= order.len(),
            views == file_views(files@),
            stamps_of(views).len() == files.len(),
            mark_views(index@) == id_index(views),
            forall|j: int|
                0 <= j < order.len() ==> (#[trigger] order[j]).file < files.len() && order[j].entry
                    < stamps_of(views)[order[j].file as int].len(),
            lines.len() == k,
            forall|j: int|
                0 <= j < k ==> (#[trigger] lines[j])@ == rendered_step(views, marks@, order[j]),
        decreases order.len() - k,
    {
        let step = order[k];
        let file = &files[step.file];
        assert(stamps_of(views)[step.file as int].len() == file.entries.len());
        let entry = &file.entries[step.entry];
        assert(views[step.file as int].entries[step.entry as int] == entry@);
        let ghost before = lines@;
        lines.push(render_log_entry(entry, file, &index, marks));
        assert(forall|j: int| 0 <= j < k ==> lines[j] == before[j]);
        k += 1;
    }
    assert(line_views(lines@) =~= rendered_stream(views, marks@));
    lines
}

/// Merges the loaded files into one chronological stream and renders it:
/// the output lines of the run, in emission order. The severity keywords
/// are styled once for the whole run.
pub fn process_log_files(log_files: Vec<LogFile>) -> (lines: Vec<String>)
    ensures
        lines.len() == total_entries(stamps_of(file_views(log_files@))),
        exists|marks: MarksView|
            marks.well_styled() && line_views(lines@) == #[trigger] rendered_stream(
                file_views(log_files@),
                marks,
            ),
{
    let marks = SeverityMarks::new();
    render_merged(&log_files, &marks)
}

/// Recording a mark never empties an index.
proof fn lemma_index_with_nonempty(index: Seq<MarkView>, mark: MarkView)
    ensures
        index_with(index, mark).len() > 0,
        index_with(index, mark).len() >= index.len(),
{
    if holds_id(index, mark.id) {
        let at = choose|at: int| first_with_id(index, mark.id, at);
    }
}

/// The index of known identifiers is empty exactly when no file has an
/// identifier.
pub proof fn lemma_index_empty_iff_no_id(files: Seq<FileView>)
    requires
        forall|i: int| 0 <= i < files.len() ==> (#[trigger] files[i]).well_formed(),
    ensures
        id_index(files).len() == 0 <==> forall|i: int|
            0 <= i < files.len() ==> (#[trigger] files[i]).id is None,
    decreases files.len(),
{
    if files.len() > 0 {
        let fewer = files.drop_last();
        assert forall|i: int| 0 <= i < fewer.len() implies (#[trigger] fewer[i]).well_formed() by {
            assert(fewer[i] == files[i]);
        }
        lemma_index_empty_iff_no_id(fewer);
        match (files.last().id, files.last().display_id) {
            (Some(id), Some(display)) => {
                lemma_index_with_nonempty(id_index(fewer), MarkView { id, display });
                assert(files[files.len() - 1].id is Some);
            },
            _ => {
                assert(files.last().well_formed());
                if id_index(fewer).len() == 0 {
                    assert forall|i: int| 0 <= i < files.len() implies (#[trigger] files[i]).id
                        is None by {
                        if i < fewer.len() {
                            assert(fewer[i] == files[i]);
                        }
                    }
                } else {
                    let i = choose|i: int|
                        0 <= i < fewer.len() && !((#[trigger] fewer[i]).id is None);
                    assert(fewer[i] == files[i]);
                }
            },
        }
    }
}

/// The two forms of prefix exclude each other for a whole run. When no
/// file has an identifier, every line is the file's display name in
/// brackets and the text with its severity keywords highlighted. When some
/// file has one, every line is the file's plain name and its source token,
/// each in brackets, and the text with severity keywords and identifiers
/// highlighted.
pub proof fn lemma_prefix_mode(files: Seq<FileView>, marks: MarksView, k: int)
    requires
        forall|i: int| 0 <= i < files.len() ==> (#[trigger] files[i]).well_formed(),
        0 <= k < rendered_stream(files, marks).len(),
    ensures
        ({
            let step = merged(stamps_of(files))[k];
            let file = files[step.file as int];
            let body = highlight_severity(file.entries[step.entry as int].raw_text, marks);
            if forall|i: int| 0 <= i < files.len() ==> (#[trigger] files[i]).id is None {
                rendered_stream(files, marks)[k] == bracketed(file.display_name) + body
            } else {
                rendered_stream(files, marks)[k] == bracketed(file.name) + bracketed(
                    source_token(file),
                ) + highlight_ids(body, id_index(files))
            }
        }),
{
    lemma_index_empty_iff_no_id(files);
}

} // verus!
