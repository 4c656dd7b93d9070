//! The records of the pipeline: parsed entries and loaded files.

use crate::paint::{displays, paint};
use crate::palette::PaletteColor;
use crate::timestamp::Timestamp;
use vstd::prelude::*;

verus! {

/// One parsed line: its timestamp and the line as it was read.
#[derive(Clone, Debug, PartialEq, Eq)]
pub struct LogEntry {
    pub timestamp: Timestamp,
    pub raw_text: String,
}

/// The mathematical content of a `LogEntry`.
pub struct EntryView {
    pub timestamp: Timestamp,
    pub raw_text: Seq<char>,
}

impl View for LogEntry {
    type V = EntryView;

    open spec fn view(&self) -> EntryView {
        EntryView { timestamp: self.timestamp, raw_text: self.raw_text@ }
    }
}

impl LogEntry {
    /// Whether this entry is strictly earlier than `other`. Entries are
    /// ordered by their timestamps alone; their text plays no part.
    pub fn is_before(&self, other: &LogEntry) -> (earlier: bool)
        ensures
            earlier == (self@.timestamp.instant() < other@.timestamp.instant()),
    {
        self.timestamp.is_before(&other.timestamp)
    }
}

/// One input source: its name, the identifier detected in it, its entries in
/// file order, its colour, and the display forms of name and identifier in
/// that colour.
#[derive(Clone, Debug, PartialEq, Eq)]
pub struct LogFile {
    pub name: String,
    pub id: Option<String>,
    pub entries: Vec<LogEntry>,
    pub color: PaletteColor,
    pub display_name: String,
    pub display_id: Option<String>,
}

/// The mathematical content of a `LogFile`.
pub struct FileView {
    pub name: Seq<char>,
    pub id: Option<Seq<char>>,
    pub entries: Seq<EntryView>,
    pub color: PaletteColor,
    pub display_name: Seq<char>,
    pub display_id: Option<Seq<char>>,
}

/// The view of an optional string.
pub open spec fn text_view(text: Option<String>) -> Option<Seq<char>> {
    match text {
        Some(text) => Some(text@),
        None => None,
    }
}

/// The views of `entries`, in order.
pub open spec fn entry_views(entries: Seq<LogEntry>) -> Seq<EntryView> {
    entries.map_values(|entry: LogEntry| entry@)
}

/// The views of `files`, in order.
pub open spec fn file_views(files: Seq<LogFile>) -> Seq<FileView> {
    files.map_values(|file: LogFile| file@)
}

impl View for LogFile {
    type V = FileView;

    open spec fn view(&self) -> FileView {
        FileView {
            name: self.name@,
            id: text_view(self.id),
            entries: entry_views(self.entries@),
            color: self.color,
            display_name: self.display_name@,
            display_id: text_view(self.display_id),
        }
    }
}

impl FileView {
    /// The key under which the file's colour is assigned: its identifier,
    /// or its name where it has none.
    pub open spec fn coloring_key(self) -> Seq<char> {
        match self.id {
            Some(id) => id,
            None => self.name,
        }
    }

    /// A file has a display form of its identifier exactly when it has an
    /// identifier.
    pub open spec fn well_formed(self) -> bool {
        self.id is Some <==> self.display_id is Some
    }

    /// Whether the display forms are the name and the identifier shown in
    /// the file's colour.
    pub open spec fn shown_in_color(self) -> bool {
        &&& displays(self.display_name, self.name, Some(self.color.name_text()), false)
        &&& self.id matches Some(id) ==> self.display_id matches Some(shown) && displays(
            shown,
            id,
            Some(self.color.name_text()),
            false,
        )
        &&& self.id is None ==> self.display_id is None
    }
}

impl LogFile {
    /// A file record with the display forms of `name` and `id` in `color`.
    pub fn new(
        name: String,
        id: Option<String>,
        entries: Vec<LogEntry>,
        color: PaletteColor,
    ) -> (file: LogFile)
        ensures
            file@.name == name@,
            file@.id == text_view(id),
            file@.entries == entry_views(entries@),
            file@.color == color,
            file@.shown_in_color(),
            file@.well_formed(),
    {
        let display_name = paint(name.as_str(), color.name());
        let display_id = match &id {
            Some(id) => Some(paint(id.as_str(), color.name())),
            None => None,
        };
        LogFile { name, id, entries, color, display_name, display_id }
    }
}

} // verus!
