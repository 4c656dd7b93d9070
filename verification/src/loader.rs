//! Loading: from the lines of each file to its record, with identifier
//! detection, timestamp parsing and colour assignment.

use crate::ident::{extract_id, first_capture, IdPattern};
use crate::log::{entry_views, EntryView, FileView, LogEntry, LogFile};
use crate::notice::{notice_views, Notice, NoticeView};
use crate::palette::{
    color_among, knows, lemma_distinct_keys_distinct_colors, position_of, table_well_formed,
    ColorAllocator, PALETTE_SIZE,
};
use crate::text::line_views;
use crate::timestamp::{parse_date, timestamp_of, Timestamp, MIN_LINE_CHARS};
use vstd::prelude::*;

verus! {

/// The name of an input file and the lines read from it.
#[derive(Clone, Debug, PartialEq, Eq)]
pub struct SourceFile {
    pub name: String,
    pub lines: Vec<String>,
}

/// The mathematical content of a `SourceFile`.
pub struct SourceView {
    pub name: Seq<char>,
    pub lines: Seq<Seq<char>>,
}

impl View for SourceFile {
    type V = SourceView;

    open spec fn view(&self) -> SourceView {
        SourceView { name: self.name@, lines: line_views(self.lines@) }
    }
}

/// The views of `sources`, in order.
pub open spec fn source_views(sources: Seq<SourceFile>) -> Seq<SourceView> {
    sources.map_values(|source: SourceFile| source@)
}

/// Why loading failed.
#[derive(Clone, Copy, Debug, PartialEq, Eq)]
pub enum LoadError {
    /// The files hold more distinct colouring keys than the palette has
    /// colours; `file` is the position of the first file left without one.
    PaletteExhausted { file: usize },
}

/// The stamp recorded for line number `i`, if one was.
pub open spec fn stamp_at(stamps: Seq<Option<Timestamp>>, i: int) -> Option<Timestamp> {
    if 0 <= i < stamps.len() {
        stamps[i]
    } else {
        None
    }
}

/// The entries made of the first `upto` lines, given the stamp of each
/// line: one entry for each line with a stamp, in the order of the lines.
pub open spec fn kept(lines: Seq<Seq<char>>, stamps: Seq<Option<Timestamp>>, upto: int) -> Seq<
    EntryView,
>
    decreases upto,
{
    if upto <= 0 {
        Seq::empty()
    } else {
        let before = kept(lines, stamps, upto - 1);
        match stamp_at(stamps, upto - 1) {
            Some(timestamp) => before.push(EntryView { timestamp, raw_text: lines[upto - 1] }),
            None => before,
        }
    }
}

/// Those of the first `upto` lines that have no stamp, in the order of the
/// lines.
pub open spec fn rejected(lines: Seq<Seq<char>>, stamps: Seq<Option<Timestamp>>, upto: int) -> Seq<
    Seq<char>,
>
    decreases upto,
{
    if upto <= 0 {
        Seq::empty()
    } else {
        let before = rejected(lines, stamps, upto - 1);
        match stamp_at(stamps, upto - 1) {
            Some(_) => before,
            None => before.push(lines[upto - 1]),
        }
    }
}

/// The timestamp that each line carries under `format`.
pub open spec fn stamps_for(lines: Seq<Seq<char>>, format: Seq<char>) -> Seq<Option<Timestamp>> {
    lines.map_values(|line: Seq<char>| timestamp_of(line, format))
}

/// The entries of a file with the given lines: the lines that carry a
/// timestamp under `format`, in file order.
pub open spec fn retained(lines: Seq<Seq<char>>, format: Seq<char>) -> Seq<EntryView> {
    kept(lines, stamps_for(lines, format), lines.len() as int)
}

/// The lines of a file that carry no timestamp under `format`, in file
/// order.
pub open spec fn dropped(lines: Seq<Seq<char>>, format: Seq<char>) -> Seq<Seq<char>> {
    rejected(lines, stamps_for(lines, format), lines.len() as int)
}

/// The expression of the pattern, if one is supplied.
pub open spec fn source_of(pattern: Option<&IdPattern>) -> Option<Seq<char>> {
    match pattern {
        Some(pattern) => Some(pattern.source()),
        None => None,
    }
}

/// The identifier of a file: the first capture in its lines, or nothing
/// without a pattern.
pub open spec fn detected_id(lines: Seq<Seq<char>>, pattern: Option<Seq<char>>) -> Option<
    Seq<char>,
> {
    match pattern {
        Some(source) => first_capture(lines, source),
        None => None,
    }
}

/// The key under which a file is coloured: its identifier, or its name
/// where none was detected.
pub open spec fn coloring_key(source: SourceView, pattern: Option<Seq<char>>) -> Seq<char> {
    match detected_id(source.lines, pattern) {
        Some(id) => id,
        None => source.name,
    }
}

/// One notice of a dropped line for each of `lines`, in order.
pub open spec fn drop_notices(lines: Seq<Seq<char>>) -> Seq<NoticeView> {
    lines.map_values(|line: Seq<char>| NoticeView::LineDropped { line })
}

/// What the loader reports about a file: with a pattern, whether an
/// identifier was found; then one notice for each dropped line.
pub open spec fn file_notices(
    source: SourceView,
    pattern: Option<Seq<char>>,
    format: Seq<char>,
) -> Seq<NoticeView> {
    let about_id = match pattern {
        None => Seq::<NoticeView>::empty(),
        Some(_) => match detected_id(source.lines, pattern) {
            Some(id) => seq![NoticeView::IdFound { id, file_name: source.name }],
            None => seq![NoticeView::NoIdFound],
        },
    };
    about_id + drop_notices(dropped(source.lines, format))
}

/// Whether `file` is the record of `source`, but for its colour: its name,
/// its detected identifier and its retained entries.
pub open spec fn loads_as(
    file: FileView,
    source: SourceView,
    pattern: Option<Seq<char>>,
    format: Seq<char>,
) -> bool {
    &&& file.name == source.name
    &&& file.id == detected_id(source.lines, pattern)
    &&& file.entries == retained(source.lines, format)
    &&& file.coloring_key() == coloring_key(source, pattern)
    &&& file.shown_in_color()
    &&& file.well_formed()
}

/// The distinct keys among the first `upto` of `keys`, in the order of
/// their first appearance.
pub open spec fn distinct_keys(keys: Seq<Seq<char>>, upto: int) -> Seq<Seq<char>>
    decreases upto,
{
    if upto <= 0 {
        Seq::empty()
    } else {
        let before = distinct_keys(keys, upto - 1);
        if knows(before, keys[upto - 1]) {
            before
        } else {
            before.push(keys[upto - 1])
        }
    }
}

/// The colouring keys of `sources`, in order.
pub open spec fn keys_of(sources: Seq<SourceView>, pattern: Option<Seq<char>>) -> Seq<Seq<char>> {
    sources.map_values(|source: SourceView| coloring_key(source, pattern))
}

/// Every entry made from stamped lines is one of the lines with its stamp.
pub proof fn lemma_kept_from_lines(
    lines: Seq<Seq<char>>,
    stamps: Seq<Option<Timestamp>>,
    upto: int,
    k: int,
) -> (i: int)
    requires
        0 <= upto <= lines.len(),
        0 <= k < kept(lines, stamps, upto).len(),
    ensures
        0 <= i < upto,
        stamp_at(stamps, i) == Some(kept(lines, stamps, upto)[k].timestamp),
        lines[i] == kept(lines, stamps, upto)[k].raw_text,
    decreases upto,
{
    let before = kept(lines, stamps, upto - 1);
    if k < before.len() {
        lemma_kept_from_lines(lines, stamps, upto - 1, k)
    } else {
        upto - 1
    }
}

/// Every retained entry is a line of the file whose timestamp columns
/// parse under the format to the entry's timestamp; no retained line is
/// shorter than 25 characters.
pub proof fn lemma_retained_parse(lines: Seq<Seq<char>>, format: Seq<char>, k: int)
    requires
        0 <= k < retained(lines, format).len(),
    ensures
        timestamp_of(retained(lines, format)[k].raw_text, format) == Some(
            retained(lines, format)[k].timestamp,
        ),
        retained(lines, format)[k].raw_text.len() >= MIN_LINE_CHARS,
        lines.contains(retained(lines, format)[k].raw_text),
{
    let i = lemma_kept_from_lines(lines, stamps_for(lines, format), lines.len() as int, k);
}

/// A line without a timestamp, such as one shorter than 25 characters,
/// makes no entry and is reported as dropped, and the lines before it are
/// kept or dropped as they would be without it.
pub proof fn lemma_unstamped_line_dropped(lines: Seq<Seq<char>>, format: Seq<char>)
    requires
        lines.len() > 0,
        timestamp_of(lines.last(), format) is None,
    ensures
        retained(lines, format) == retained(lines.drop_last(), format),
        dropped(lines, format) == dropped(lines.drop_last(), format).push(lines.last()),
{
    let all = stamps_for(lines, format);
    let fewer = stamps_for(lines.drop_last(), format);
    lemma_kept_prefix(lines, all, lines.drop_last(), fewer, lines.len() - 1);
}

/// A line with a timestamp makes the entry that follows those of the lines
/// before it, and is not reported.
pub proof fn lemma_stamped_line_retained(lines: Seq<Seq<char>>, format: Seq<char>)
    requires
        lines.len() > 0,
        timestamp_of(lines.last(), format) is Some,
    ensures
        retained(lines, format) == retained(lines.drop_last(), format).push(
            EntryView {
                timestamp: timestamp_of(lines.last(), format)->0,
                raw_text: lines.last(),
            },
        ),
        dropped(lines, format) == dropped(lines.drop_last(), format),
{
    let all = stamps_for(lines, format);
    let fewer = stamps_for(lines.drop_last(), format);
    lemma_kept_prefix(lines, all, lines.drop_last(), fewer, lines.len() - 1);
}

proof fn lemma_kept_prefix(
    lines: Seq<Seq<char>>,
    stamps: Seq<Option<Timestamp>>,
    other_lines: Seq<Seq<char>>,
    other_stamps: Seq<Option<Timestamp>>,
    upto: int,
)
    requires
        0 <= upto <= lines.len(),
        upto <= other_lines.len(),
        forall|i: int| 0 <= i < upto ==> lines[i] == other_lines[i],
        forall|i: int| 0 <= i < upto ==> stamp_at(stamps, i) == stamp_at(other_stamps, i),
    ensures
        kept(lines, stamps, upto) == kept(other_lines, other_stamps, upto),
        rejected(lines, stamps, upto) == rejected(other_lines, other_stamps, upto),
    decreases upto,
{
    if upto > 0 {
        lemma_kept_prefix(lines, stamps, other_lines, other_stamps, upto - 1);
    }
}

/// The timestamp of each line under `format`.
pub fn stamp_lines(lines: &Vec<String>, format: &str) -> (stamps: Vec<Option<Timestamp>>)
    ensures
        stamps@ == stamps_for(line_views(lines@), format@),
{
    let mut stamps: Vec<Option<Timestamp>> = Vec::new();
    let mut i: usize = 0;
    while i < lines.len()
        invariant
            i <= lines.len(),
            stamps@.len() == i,
            forall|j: int| 0 <= j < i ==> stamps@[j] == timestamp_of(lines@[j]@, format@),
        decreases lines.len() - i,
    {
        stamps.push(parse_date(lines[i].as_str(), format));
        i += 1;
    }
    assert(stamps@ =~= stamps_for(line_views(lines@), format@));
    stamps
}

/// Splits `lines` by their stamps: an entry for each line that has one, and
/// the lines that have none. A line beyond the end of `stamps` has none.
pub fn retain_stamped(lines: &Vec<String>, stamps: &Vec<Option<Timestamp>>) -> (parts: (
    Vec<LogEntry>,
    Vec<String>,
))
    ensures
        entry_views(parts.0@) == kept(line_views(lines@), stamps@, lines.len() as int),
        line_views(parts.1@) == rejected(line_views(lines@), stamps@, lines.len() as int),
{
    let ghost all = line_views(lines@);
    let mut entries: Vec<LogEntry> = Vec::new();
    let mut left_out: Vec<String> = Vec::new();
    let mut i: usize = 0;
    assert(entry_views(entries@) =~= kept(all, stamps@, 0));
    assert(line_views(left_out@) =~= rejected(all, stamps@, 0));
    while i < lines.len()
        invariant
            i <= lines.len(),
            all == line_views(lines@),
            entry_views(entries@) == kept(all, stamps@, i as int),
            line_views(left_out@) == rejected(all, stamps@, i as int),
        decreases lines.len() - i,
    {
        let stamp = if i < stamps.len() {
            stamps[i]
        } else {
            None
        };
        assert(stamp == stamp_at(stamps@, i as int));
        let ghost kept_before = entry_views(entries@);
        let ghost rejected_before = line_views(left_out@);
        match stamp {
            Some(timestamp) => {
                let entry = LogEntry { timestamp, raw_text: lines[i].clone() };
                let ghost made = entry@;
                entries.push(entry);
                assert(entry_views(entries@) =~= kept_before.push(made));
            },
            None => {
                let line = lines[i].clone();
                left_out.push(line);
                assert(line_views(left_out@) =~= rejected_before.push(all[i as int]));
            },
        }
        i += 1;
    }
    (entries, left_out)
}

/// Loads one file: detects its identifier, parses its lines, dropping
/// those without a timestamp, and obtains the colour of its key from
/// `colors`. The notices say what was found and what was dropped. When the
/// file's key is new and no colour is left, nothing is loaded and `colors`
/// stays as it was.
pub fn load_file(
    source: &SourceFile,
    pattern: Option<&IdPattern>,
    format: &str,
    colors: &mut ColorAllocator,
) -> (loaded: Option<(LogFile, Vec<Notice>)>)
    requires
        old(colors).well_formed(),
    ensures
        final(colors).well_formed(),
        loaded is Some <==> knows(old(colors).keys(), coloring_key(source@, source_of(pattern)))
            || old(colors).keys().len() < PALETTE_SIZE,
        final(colors).keys() == if loaded is None || knows(
            old(colors).keys(),
            coloring_key(source@, source_of(pattern)),
        ) {
            old(colors).keys()
        } else {
            old(colors).keys().push(coloring_key(source@, source_of(pattern)))
        },
        loaded matches Some((file, notices)) ==> {
            &&& loads_as(file@, source@, source_of(pattern), format@)
            &&& Some(file@.color) == color_among(final(colors).keys(), file@.coloring_key())
            &&& notice_views(notices@) == file_notices(source@, source_of(pattern), format@)
        },
{
    let mut notices: Vec<Notice> = Vec::new();
    let id = match pattern {
        Some(pattern) => {
            let found = extract_id(&source.lines, pattern);
            match &found {
                Some(id) => notices.push(
                    Notice::IdFound { id: id.clone(), file_name: source.name.clone() },
                ),
                None => notices.push(Notice::NoIdFound),
            }
            found
        },
        None => None,
    };
    let ghost about_id = notice_views(notices@);
    let stamps = stamp_lines(&source.lines, format);
    let (entries, left_out) = retain_stamped(&source.lines, &stamps);
    let mut k: usize = 0;
    while k < left_out.len()
        invariant
            k <= left_out.len(),
            notice_views(notices@) == about_id + drop_notices(
                line_views(left_out@).take(k as int),
            ),
        decreases left_out.len() - k,
    {
        let ghost before = notice_views(notices@);
        let notice = Notice::LineDropped { line: left_out[k].clone() };
        let ghost made = notice@;
        notices.push(notice);
        assert(notice_views(notices@) =~= before.push(made));
        assert(notice_views(notices@) =~= about_id + drop_notices(
            line_views(left_out@).take(k + 1),
        ));
        k += 1;
    }
    assert(line_views(left_out@).take(k as int) == line_views(left_out@));
    let color = match &id {
        Some(id) => colors.color_for(id.as_str()),
        None => colors.color_for(source.name.as_str()),
    };
    match color {
        Ok(color) => {
            let file = LogFile::new(source.name.clone(), id, entries, color);
            Some((file, notices))
        },
        Err(_) => None,
    }
}

/// The files of a run, the notices that loading them gave rise to, and the
/// colour assignment table as loading left it.
pub struct Loaded {
    pub files: Vec<LogFile>,
    pub notices: Vec<Notice>,
    pub colors: ColorAllocator,
}

/// The notices for the first `upto` of `sources`, file after file.
pub open spec fn all_notices(
    sources: Seq<SourceView>,
    pattern: Option<Seq<char>>,
    format: Seq<char>,
    upto: int,
) -> Seq<NoticeView>
    decreases upto,
{
    if upto <= 0 {
        Seq::empty()
    } else {
        all_notices(sources, pattern, format, upto - 1) + file_notices(
            sources[upto - 1],
            pattern,
            format,
        )
    }
}

/// The distinct keys among the first `upto` keys are pairwise distinct, each
/// of the first `upto` keys is among them, and their number never goes down
/// as `upto` grows.
pub proof fn lemma_distinct_keys(keys: Seq<Seq<char>>, upto: int, later: int)
    requires
        0 <= upto <= later <= keys.len(),
    ensures
        forall|i: int, j: int|
            0 <= i < j < distinct_keys(keys, upto).len() ==> distinct_keys(keys, upto)[i]
                != distinct_keys(keys, upto)[j],
        forall|i: int| 0 <= i < upto ==> knows(distinct_keys(keys, upto), #[trigger] keys[i]),
        distinct_keys(keys, upto).len() <= distinct_keys(keys, later).len(),
        distinct_keys(keys, upto).len() <= upto,
    decreases later,
{
    if upto < later {
        lemma_distinct_keys(keys, upto, later - 1);
    } else if upto > 0 {
        lemma_distinct_keys(keys, upto - 1, upto - 1);
        let before = distinct_keys(keys, upto - 1);
        let now = distinct_keys(keys, upto);
        assert forall|i: int| 0 <= i < upto implies knows(now, #[trigger] keys[i]) by {
            if i < upto - 1 {
                let at = position_of(before, keys[i]);
                assert(now[at] == keys[i]);
            } else if knows(before, keys[i]) {
            } else {
                assert(now[before.len() as int] == keys[i]);
            }
        }
    }
}

/// A key keeps its colour when another key joins the table.
pub proof fn lemma_color_kept(table: Seq<Seq<char>>, joining: Seq<char>, key: Seq<char>)
    requires
        table_well_formed(table.push(joining)),
        knows(table, key),
    ensures
        color_among(table.push(joining), key) == color_among(table, key),
{
    let grown = table.push(joining);
    let at = position_of(table, key);
    assert(grown[at] == key);
    let there = position_of(grown, key);
    if there != at {
        if there < at {
            assert(grown[there] != grown[at]);
        } else {
            assert(grown[at] != grown[there]);
        }
    }
}

/// Loads the files of a run, in the order given: each file's identifier
/// is detected with `pattern`, if one is supplied, its lines without a
/// timestamp under `date_format` are dropped, and each distinct colouring
/// key receives the next palette colour in the order in which the files
/// introduce the keys. Loading fails, and loads nothing, exactly when the
/// files hold more distinct keys than the palette has colours.
pub fn load_files_in_memory(
    sources: &Vec<SourceFile>,
    id_pattern: Option<&IdPattern>,
    date_format: &str,
) -> (outcome: Result<Loaded, LoadError>)
    ensures
        outcome is Ok <==> distinct_keys(
            keys_of(source_views(sources@), source_of(id_pattern)),
            sources.len() as int,
        ).len() <= PALETTE_SIZE,
        outcome matches Ok(loaded) ==> {
            &&& loaded.files.len() == sources.len()
            &&& forall|i: int|
                0 <= i < sources.len() ==> loads_as(
                    (#[trigger] loaded.files[i])@,
                    sources[i]@,
                    source_of(id_pattern),
                    date_format@,
                )
            &&& forall|i: int|
                0 <= i < sources.len() ==> Some((#[trigger] loaded.files[i])@.color)
                    == color_among(loaded.colors.keys(), loaded.files[i]@.coloring_key())
            &&& forall|i: int, j: int|
                0 <= i < sources.len() && 0 <= j < sources.len() ==> ((
                #[trigger] loaded.files[i])@.color == (#[trigger] loaded.files[j])@.color
                    <==> loaded.files[i]@.coloring_key() == loaded.files[j]@.coloring_key())
            &&& loaded.colors.well_formed()
            &&& loaded.colors.keys() == distinct_keys(
                keys_of(source_views(sources@), source_of(id_pattern)),
                sources.len() as int,
            )
            &&& notice_views(loaded.notices@) == all_notices(
                source_views(sources@),
                source_of(id_pattern),
                date_format@,
                sources.len() as int,
            )
        },
        outcome matches Err(LoadError::PaletteExhausted { file }) ==> {
            &&& file < sources.len()
            &&& distinct_keys(
                keys_of(source_views(sources@), source_of(id_pattern)),
                file as int,
            ).len() == PALETTE_SIZE
            &&& distinct_keys(
                keys_of(source_views(sources@), source_of(id_pattern)),
                file + 1,
            ).len() > PALETTE_SIZE
        },
{
    let ghost views = source_views(sources@);
    let ghost pattern = source_of(id_pattern);
    let ghost keys = keys_of(views, pattern);
    let mut files: Vec<LogFile> = Vec::new();
    let mut notices: Vec<Notice> = Vec::new();
    let mut colors = ColorAllocator::new();
    let mut i: usize = 0;
    assert(notice_views(notices@) =~= all_notices(views, pattern, date_format@, 0));
    while i < sources.len()
        invariant
            i <= sources.len(),
            views == source_views(sources@),
            pattern == source_of(id_pattern),
            keys == keys_of(views, pattern),
            files.len() == i,
            colors.well_formed(),
            colors.keys() == distinct_keys(keys, i as int),
            forall|j: int|
                0 <= j < i ==> loads_as((#[trigger] files[j])@, sources[j]@, pattern, date_format@),
            forall|j: int|
                0 <= j < i ==> Some((#[trigger] files[j])@.color) == color_among(
                    colors.keys(),
                    files[j]@.coloring_key(),
                ),
            notice_views(notices@) == all_notices(views, pattern, date_format@, i as int),
        decreases sources.len() - i,
    {
        let ghost table = colors.keys();
        let ghost key = coloring_key(sources[i as int]@, pattern);
        assert(keys[i as int] == key);
        proof {
            lemma_distinct_keys(keys, i as int, i as int);
        }
        match load_file(&sources[i], id_pattern, date_format, &mut colors) {
            Some((file, mut more)) => {
                proof {
                    lemma_distinct_keys(keys, i + 1, i + 1);
                    assert forall|j: int| 0 <= j < i implies Some((#[trigger] files[j])@.color)
                        == color_among(colors.keys(), files[j]@.coloring_key()) by {
                        assert(knows(table, keys[j]));
                        if !knows(table, key) {
                            lemma_color_kept(table, key, files[j]@.coloring_key());
                        }
                    }
                }
                let ghost before = notice_views(notices@);
                let ghost added = notice_views(more@);
                let ghost files_before = files@;
                notices.append(&mut more);
                assert(notice_views(notices@) =~= before + added);
                files.push(file);
                assert(forall|j: int| 0 <= j < i ==> files[j] == files_before[j]);
            },
            None => {
                proof {
                    lemma_distinct_keys(keys, i + 1, sources.len() as int);
                }
                return Err(LoadError::PaletteExhausted { file: i });
            },
        }
        i += 1;
    }
    proof {
        assert forall|a: int, b: int| 0 <= a < files.len() && 0 <= b < files.len() implies ((
        #[trigger] files[a])@.color == (#[trigger] files[b])@.color <==> files[a]@.coloring_key()
            == files[b]@.coloring_key()) by {
            if files[a]@.coloring_key() != files[b]@.coloring_key() {
                lemma_distinct_keys_distinct_colors(
                    colors.keys(),
                    files[a]@.coloring_key(),
                    files[b]@.coloring_key(),
                );
            }
        }
    }
    Ok(Loaded { files, notices, colors })
}

} // verus!
