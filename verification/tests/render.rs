use log_merge::log::{LogEntry, LogFile};
use log_merge::paint::SeverityMarks;
use log_merge::palette::PaletteColor;
use log_merge::render::{build_index, render_log_entry, IdMark};
use log_merge::timestamp::Timestamp;

fn entry(text: &str) -> LogEntry {
    LogEntry { timestamp: Timestamp { seconds: 0, nanos: 0 }, raw_text: text.to_string() }
}

fn marks() -> SeverityMarks {
    SeverityMarks { error: "<E>".to_string(), warn: "<W>".to_string(), info: "<I>".to_string() }
}

fn plain_file(name: &str, id: Option<&str>) -> LogFile {
    LogFile {
        name: name.to_string(),
        id: id.map(|id| id.to_string()),
        entries: Vec::new(),
        color: PaletteColor::Green,
        display_name: format!("<{}>", name),
        display_id: id.map(|id| format!("<{}>", id)),
    }
}

fn mark(id: &str, display: &str) -> IdMark {
    IdMark { id: id.to_string(), display: display.to_string() }
}

#[test]
fn severity_marks_are_styled_keywords() {
    colored::control::set_override(true);
    let styled = SeverityMarks::new();
    assert_eq!(styled.error, "\u{1b}[1;31mERROR\u{1b}[0m");
    assert_eq!(styled.warn, "\u{1b}[1;33mWARN\u{1b}[0m");
    assert_eq!(styled.info, "\u{1b}[1mINFO\u{1b}[0m");
}

#[test]
fn log_file_new_paints_name_and_id() {
    colored::control::set_override(true);
    let file = LogFile::new(
        "node.log".to_string(),
        Some("42".to_string()),
        Vec::new(),
        PaletteColor::BrightBlue,
    );
    assert_eq!(file.name, "node.log");
    assert_eq!(file.id, Some("42".to_string()));
    assert_eq!(file.color, PaletteColor::BrightBlue);
    assert_eq!(file.display_name, "\u{1b}[94mnode.log\u{1b}[0m");
    assert_eq!(file.display_id, Some("\u{1b}[94m42\u{1b}[0m".to_string()));
    let bare = LogFile::new("node.log".to_string(), None, Vec::new(), PaletteColor::Green);
    assert_eq!(bare.display_name, "\u{1b}[32mnode.log\u{1b}[0m");
    assert_eq!(bare.display_id, None);
}

#[test]
fn every_palette_color_paints_with_its_own_code() {
    colored::control::set_override(true);
    let codes = [
        (PaletteColor::Green, "32"),
        (PaletteColor::Blue, "34"),
        (PaletteColor::Magenta, "35"),
        (PaletteColor::Cyan, "36"),
        (PaletteColor::BrightRed, "91"),
        (PaletteColor::BrightGreen, "92"),
        (PaletteColor::BrightYellow, "93"),
        (PaletteColor::BrightBlue, "94"),
        (PaletteColor::BrightMagenta, "95"),
        (PaletteColor::BrightCyan, "96"),
    ];
    for (color, code) in codes {
        let file = LogFile::new("f".to_string(), None, Vec::new(), color);
        assert_eq!(file.display_name, format!("\u{1b}[{}mf\u{1b}[0m", code));
    }
}

#[test]
fn render_without_ids_uses_the_display_name_only() {
    let line = render_log_entry(
        &entry("[t] plain text"),
        &plain_file("a.log", None),
        &Vec::new(),
        &marks(),
    );
    assert_eq!(line, "[<a.log>][t] plain text");
}

#[test]
fn render_with_ids_uses_name_and_display_id() {
    let index = vec![mark("42", "<42>")];
    let line = render_log_entry(
        &entry("[t] plain text"),
        &plain_file("a.log", Some("42")),
        &index,
        &marks(),
    );
    assert_eq!(line, "[a.log][<42>][t] plain text");
}

#[test]
fn render_with_ids_falls_back_to_the_display_name() {
    let index = vec![mark("42", "<42>")];
    let line = render_log_entry(
        &entry("[t] plain text"),
        &plain_file("b.log", None),
        &index,
        &marks(),
    );
    assert_eq!(line, "[b.log][<b.log>][t] plain text");
}

#[test]
fn render_replaces_severity_keywords_by_substring() {
    let line = render_log_entry(
        &entry("ERROR WARN INFO INFORMATION WARNING ERRORS error"),
        &plain_file("a", None),
        &Vec::new(),
        &marks(),
    );
    assert_eq!(line, "[<a>]<E> <W> <I> <I>RMATION <W>ING <E>S error");
}

#[test]
fn render_emphasises_error_and_keeps_the_rest() {
    colored::control::set_override(true);
    let file = LogFile::new("a.log".to_string(), None, Vec::new(), PaletteColor::Green);
    let line = render_log_entry(
        &entry("[t] an ERROR occurred"),
        &file,
        &Vec::new(),
        &SeverityMarks::new(),
    );
    assert_eq!(
        line,
        "[\u{1b}[32ma.log\u{1b}[0m][t] an \u{1b}[1;31mERROR\u{1b}[0m occurred"
    );
}

#[test]
fn render_highlights_known_ids_anywhere() {
    let index = vec![mark("42", "<42>")];
    let line = render_log_entry(
        &entry("peer 42 sent 1423 bytes to p42"),
        &plain_file("b.log", None),
        &index,
        &marks(),
    );
    assert_eq!(line, "[b.log][<b.log>]peer <42> sent 1<42>3 bytes to p<42>");
}

#[test]
fn render_highlights_ids_in_index_order() {
    let line = render_log_entry(
        &entry("4 42 2"),
        &plain_file("a", Some("4")),
        &vec![mark("4", "(4)"), mark("42", "(42)"), mark("2", "(2)")],
        &marks(),
    );
    assert_eq!(line, "[a][<4>](4) (4)(2) (2)");
    let line = render_log_entry(
        &entry("4 42 2"),
        &plain_file("a", Some("4")),
        &vec![mark("42", "<42>"), mark("4", "{4}")],
        &marks(),
    );
    assert_eq!(line, "[a][<4>]{4} <{4}2> 2");
}

#[test]
fn render_does_not_highlight_ids_without_an_index() {
    let line = render_log_entry(
        &entry("peer 42"),
        &plain_file("a", Some("42")),
        &Vec::new(),
        &marks(),
    );
    assert_eq!(line, "[<a>]peer 42");
}

#[test]
fn build_index_lists_each_id_once_in_file_order() {
    let files = vec![
        plain_file("a", Some("7")),
        plain_file("b", None),
        plain_file("c", Some("3")),
        plain_file("d", Some("7")),
    ];
    assert_eq!(build_index(&files), vec![mark("7", "<7>"), mark("3", "<3>")]);
    assert_eq!(build_index(&vec![plain_file("b", None)]), Vec::new());
    assert_eq!(build_index(&Vec::new()), Vec::new());
}

#[test]
fn build_index_keeps_the_last_display_form_of_an_id() {
    let mut again = plain_file("c", Some("7"));
    again.display_id = Some("{7}".to_string());
    let files = vec![plain_file("a", Some("7")), plain_file("b", Some("3")), again];
    assert_eq!(build_index(&files), vec![mark("7", "{7}"), mark("3", "<3>")]);
}
