//! Formatting of one emitted entry: source prefix, severity highlighting
//! and highlighting of known identifiers.

use crate::log::{file_views, EntryView, FileView, LogEntry, LogFile};
use crate::paint::{error_keyword, info_keyword, warn_keyword, MarksView, SeverityMarks};
use crate::text::{chars_of, replace_all, replace_chars, string_of};
use vstd::prelude::*;
use vstd::string::StringExecFns;

verus! {

/// A known identifier and its display form.
#[derive(Clone, Debug, PartialEq, Eq)]
pub struct IdMark {
    pub id: String,
    pub display: String,
}

/// The mathematical content of an `IdMark`.
pub struct MarkView {
    pub id: Seq<char>,
    pub display: Seq<char>,
}

impl View for IdMark {
    type V = MarkView;

    open spec fn view(&self) -> MarkView {
        MarkView { id: self.id@, display: self.display@ }
    }
}

/// The views of `marks`, in order.
pub open spec fn mark_views(marks: Seq<IdMark>) -> Seq<MarkView> {
    marks.map_values(|mark: IdMark| mark@)
}

/// Whether `at` is the first position of `index` that holds `id`.
pub open spec fn first_with_id(index: Seq<MarkView>, id: Seq<char>, at: int) -> bool {
    &&& 0 <= at < index.len()
    &&& index[at].id == id
    &&& forall|j: int| 0 <= j < at ==> (#[trigger] index[j]).id != id
}

/// Whether `index` holds `id`.
pub open spec fn holds_id(index: Seq<MarkView>, id: Seq<char>) -> bool {
    exists|at: int| first_with_id(index, id, at)
}

/// `index` with `mark` recorded: at the place where its identifier already
/// stands, or else at the end.
pub open spec fn index_with(index: Seq<MarkView>, mark: MarkView) -> Seq<MarkView> {
    if holds_id(index, mark.id) {
        index.update(choose|at: int| first_with_id(index, mark.id, at), mark)
    } else {
        index.push(mark)
    }
}

/// The identifiers detected in `files` with their display forms, each
/// identifier once, in the order in which the files introduce them. Where
/// several files share an identifier, the display form of the last one
/// stands.
pub open spec fn id_index(files: Seq<FileView>) -> Seq<MarkView>
    decreases files.len(),
{
    if files.len() == 0 {
        Seq::empty()
    } else {
        let before = id_index(files.drop_last());
        match (files.last().id, files.last().display_id) {
            (Some(id), Some(display)) => index_with(before, MarkView { id, display }),
            _ => before,
        }
    }
}

/// `text` with the three severity keywords replaced by their display
/// forms, `ERROR` first, then `WARN`, then `INFO`. The replacement is by
/// substring: a keyword inside a longer word is replaced too.
pub open spec fn highlight_severity(text: Seq<char>, marks: MarksView) -> Seq<char> {
    replace_all(
        replace_all(replace_all(text, error_keyword(), marks.error), warn_keyword(), marks.warn),
        info_keyword(),
        marks.info,
    )
}

/// `text` with every identifier of `index` replaced by its display form,
/// one identifier after the other in the order of the index. Each
/// replacement is by substring and works on the result of the one before.
pub open spec fn highlight_ids(text: Seq<char>, index: Seq<MarkView>) -> Seq<char>
    decreases index.len(),
{
    if index.len() == 0 {
        text
    } else {
        replace_all(highlight_ids(text, index.drop_last()), index.last().id, index.last().display)
    }
}

/// `text` between square brackets.
pub open spec fn bracketed(text: Seq<char>) -> Seq<char> {
    "["@ + text + "]"@
}

/// The display form by which a file is known next to its name: that of its
/// identifier, or that of its name where it has none.
pub open spec fn source_token(file: FileView) -> Seq<char> {
    match file.display_id {
        Some(shown) => shown,
        None => file.display_name,
    }
}

/// The output line for `entry` of `file`. With an empty index the line is
/// the file's display name in brackets and the text with its severity
/// keywords highlighted. Otherwise it is the file's plain name and its
/// source token, each in brackets, and the text with severity keywords and
/// known identifiers highlighted.
pub open spec fn rendered(
    entry: EntryView,
    file: FileView,
    index: Seq<MarkView>,
    marks: MarksView,
) -> Seq<char> {
    let body = highlight_severity(entry.raw_text, marks);
    if index.len() == 0 {
        bracketed(file.display_name) + body
    } else {
        bracketed(file.name) + bracketed(source_token(file)) + highlight_ids(body, index)
    }
}

/// Records `mark` in `index`.
fn record_mark(index: &mut Vec<IdMark>, mark: IdMark)
    ensures
        mark_views(final(index)@) == index_with(mark_views(old(index)@), mark@),
{
    let ghost before = mark_views(index@);
    let mut at: usize = 0;
    while at < index.len()
        invariant
            at <= index.len(),
            before == mark_views(index@),
            before == mark_views(old(index)@),
            forall|j: int| 0 <= j < at ==> (#[trigger] before[j]).id != mark.id@,
        decreases index.len() - at,
    {
        if index[at].id == mark.id {
            assert(before[at as int].id == mark@.id);
            assert(first_with_id(before, mark@.id, at as int));
            let ghost chosen = choose|c: int| first_with_id(before, mark@.id, c);
            assert(chosen == at) by {
                if chosen < at {
                    assert(before[chosen].id != mark@.id);
                }
                if at < chosen {
                    assert(before[at as int].id == mark@.id);
                }
            }
            let ghost recorded = mark@;
            index.set(at, mark);
            assert(mark_views(index@) =~= before.update(at as int, recorded));
            return ;
        }
        at += 1;
    }
    assert(!holds_id(before, mark@.id)) by {
        if holds_id(before, mark@.id) {
            let c = choose|c: int| first_with_id(before, mark@.id, c);
            assert(before[c].id != mark@.id);
        }
    }
    let ghost recorded = mark@;
    index.push(mark);
    assert(mark_views(index@) =~= before.push(recorded));
}

/// The identifiers detected in `files` with their display forms.
pub fn build_index(files: &Vec<LogFile>) -> (index: Vec<IdMark>)
    ensures
        mark_views(index@) == id_index(file_views(files@)),
{
    let ghost views = file_views(files@);
    let mut index: Vec<IdMark> = Vec::new();
    let mut f: usize = 0;
    assert(views.take(0) =~= Seq::<FileView>::empty());
    assert(mark_views(index@) =~= Seq::<MarkView>::empty());
    while f < files.len()
        invariant
            f <= files.len(),
            views == file_views(files@),
            mark_views(index@) == id_index(views.take(f as int)),
        decreases files.len() - f,
    {
        assert(views.take(f + 1).drop_last() == views.take(f as int));
        assert(views.take(f + 1).last() == files@[f as int]@);
        match (&files[f].id, &files[f].display_id) {
            (Some(id), Some(display)) => {
                record_mark(&mut index, IdMark { id: id.clone(), display: display.clone() });
            },
            _ => {},
        }
        f += 1;
    }
    assert(views.take(f as int) == views);
    index
}

/// Replaces in `text` every identifier of `index` by its display form.
fn highlight_id_chars(text: Vec<char>, index: &Vec<IdMark>) -> (out: Vec<char>)
    ensures
        out@ == highlight_ids(text@, mark_views(index@)),
{
    let ghost views = mark_views(index@);
    let ghost start = text@;
    let mut out = text;
    let mut k: usize = 0;
    assert(views.take(0) =~= Seq::<MarkView>::empty());
    while k < index.len()
        invariant
            k <= index.len(),
            views == mark_views(index@),
            out@ == highlight_ids(start, views.take(k as int)),
        decreases index.len() - k,
    {
        assert(views.take(k + 1).drop_last() == views.take(k as int));
        assert(views.take(k + 1).last() == index@[k as int]@);
        let id = chars_of(index[k].id.as_str());
        let display = chars_of(index[k].display.as_str());
        out = replace_chars(&out, &id, &display);
        k += 1;
    }
    assert(views.take(k as int) == views);
    out
}

/// Replaces in `text` the severity keywords by their display forms.
fn highlight_severity_chars(text: &Vec<char>, marks: &SeverityMarks) -> (out: Vec<char>)
    ensures
        out@ == highlight_severity(text@, marks@),
{
    let errors = replace_chars(text, &chars_of("ERROR"), &chars_of(marks.error.as_str()));
    let warnings = replace_chars(&errors, &chars_of("WARN"), &chars_of(marks.warn.as_str()));
    replace_chars(&warnings, &chars_of("INFO"), &chars_of(marks.info.as_str()))
}

/// Formats one emitted entry of `file` for output, given the index of
/// known identifiers and the display forms of the severity keywords.
pub fn render_log_entry(
    entry: &LogEntry,
    file: &LogFile,
    index: &Vec<IdMark>,
    marks: &SeverityMarks,
) -> (line: String)
    ensures
        line@ == rendered(entry@, file@, mark_views(index@), marks@),
{
    let body = highlight_severity_chars(&chars_of(entry.raw_text.as_str()), marks);
    let mut line = String::new();
    line.append("[");
    if index.len() == 0 {
        line.append(file.display_name.as_str());
        line.append("]");
        line.append(string_of(&body).as_str());
        assert(line@ =~= bracketed(file@.display_name) + body@);
    } else {
        line.append(file.name.as_str());
        line.append("][");
        match &file.display_id {
            Some(shown) => line.append(shown.as_str()),
            None => line.append(file.display_name.as_str()),
        }
        line.append("]");
        let marked = highlight_id_chars(body, index);
        line.append(string_of(&marked).as_str());
        proof {
            reveal_strlit("[");
            reveal_strlit("]");
            reveal_strlit("][");
            assert("]["@ =~= "]"@ + "["@);
            assert(line@ =~= bracketed(file@.name) + bracketed(source_token(file@)) + marked@);
        }
    }
    line
}

} // verus!
