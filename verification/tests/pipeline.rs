use log_merge::ident::IdPattern;
use log_merge::loader::{
    load_file, load_files_in_memory, retain_stamped, stamp_lines, LoadError, SourceFile,
};
use log_merge::log::LogEntry;
use log_merge::notice::Notice;
use log_merge::palette::{ColorAllocator, PaletteColor};
use log_merge::process::{process_log_files, render_merged};
use log_merge::paint::SeverityMarks;
use log_merge::timestamp::{parse_date, Timestamp};

const FORMAT: &str = "%Y-%m-%dT%H:%M:%S%z";
const EPOCH_2023: i64 = 1672531200;

fn source(name: &str, lines: &[&str]) -> SourceFile {
    SourceFile {
        name: name.to_string(),
        lines: lines.iter().map(|line| line.to_string()).collect(),
    }
}

fn at(second: i64) -> Timestamp {
    Timestamp { seconds: EPOCH_2023 + second, nanos: 0 }
}

fn green(text: &str) -> String {
    format!("\u{1b}[32m{}\u{1b}[0m", text)
}

fn blue(text: &str) -> String {
    format!("\u{1b}[34m{}\u{1b}[0m", text)
}

#[test]
fn stamp_lines_parses_each_line() {
    let lines = vec![
        "[2023-01-01T00:00:05+0000] five".to_string(),
        "garbage".to_string(),
        "[2023-01-01T00:00:07+0000] seven".to_string(),
    ];
    assert_eq!(stamp_lines(&lines, FORMAT), vec![Some(at(5)), None, Some(at(7))]);
}

#[test]
fn retain_stamped_splits_lines_by_stamp() {
    let lines: Vec<String> = ["a", "b", "c", "d"].iter().map(|l| l.to_string()).collect();
    let stamps = vec![Some(at(1)), None, Some(at(0))];
    let (entries, left_out) = retain_stamped(&lines, &stamps);
    assert_eq!(
        entries,
        vec![
            LogEntry { timestamp: at(1), raw_text: "a".to_string() },
            LogEntry { timestamp: at(0), raw_text: "c".to_string() },
        ]
    );
    assert_eq!(left_out, vec!["b".to_string(), "d".to_string()]);
}

#[test]
fn retained_entries_parse_from_their_own_text() {
    colored::control::set_override(true);
    let loaded = load_files_in_memory(
        &vec![source(
            "a.log",
            &[
                "[2023-01-01T00:00:05+0000] five",
                "not a log line at all, but long enough",
                "[2023-01-01T00:00:07+0000] seven",
                "[2023-01-01T00:00:0",
            ],
        )],
        None,
        FORMAT,
    )
    .unwrap();
    assert_eq!(loaded.files[0].entries.len(), 2);
    for entry in &loaded.files[0].entries {
        assert!(entry.raw_text.chars().count() >= 25);
        assert_eq!(parse_date(&entry.raw_text, FORMAT), Some(entry.timestamp));
    }
}

#[test]
fn short_line_is_dropped_with_one_warning() {
    colored::control::set_override(true);
    let loaded = load_files_in_memory(
        &vec![source(
            "a.log",
            &["[2023-01-01T00:00:01+0000] one", "too short", "[2023-01-01T00:00:02+0000] two"],
        )],
        None,
        FORMAT,
    )
    .unwrap();
    assert_eq!(
        loaded.files[0].entries,
        vec![
            LogEntry { timestamp: at(1), raw_text: "[2023-01-01T00:00:01+0000] one".to_string() },
            LogEntry { timestamp: at(2), raw_text: "[2023-01-01T00:00:02+0000] two".to_string() },
        ]
    );
    assert_eq!(loaded.notices, vec![Notice::LineDropped { line: "too short".to_string() }]);
    assert_eq!(
        loaded.notices[0].message(),
        "WARN:Could not find valid timestamp in line:too short"
    );
}

#[test]
fn notices_have_their_messages() {
    assert_eq!(Notice::NoIdFound.message(), "Regex provided but no capture data found");
    assert_eq!(
        Notice::IdFound { id: "42".to_string(), file_name: "a.log".to_string() }.message(),
        "Found id 42 for file a.log"
    );
    assert_eq!(
        Notice::LineDropped { line: String::new() }.message(),
        "WARN:Could not find valid timestamp in line:"
    );
}

#[test]
fn round_trip_of_two_files() {
    colored::control::set_override(true);
    let sources = vec![
        source("A.log", &["[2023-01-01T00:00:01+0000] a1", "[2023-01-01T00:00:03+0000] a3"]),
        source("B.log", &["[2023-01-01T00:00:02+0000] b2"]),
    ];
    let loaded = load_files_in_memory(&sources, None, FORMAT).unwrap();
    assert_eq!(loaded.notices, Vec::new());
    let lines = process_log_files(loaded.files);
    assert_eq!(
        lines,
        vec![
            format!("[{}][2023-01-01T00:00:01+0000] a1", green("A.log")),
            format!("[{}][2023-01-01T00:00:02+0000] b2", blue("B.log")),
            format!("[{}][2023-01-01T00:00:03+0000] a3", green("A.log")),
        ]
    );
}

#[test]
fn equal_timestamps_emit_the_first_file_first() {
    colored::control::set_override(true);
    let sources = vec![
        source("F1.log", &["[2023-01-01T00:00:01+0000] from f1"]),
        source("F2.log", &["[2023-01-01T00:00:01+0000] from f2"]),
    ];
    let loaded = load_files_in_memory(&sources, None, FORMAT).unwrap();
    let lines = process_log_files(loaded.files);
    assert_eq!(
        lines,
        vec![
            format!("[{}][2023-01-01T00:00:01+0000] from f1", green("F1.log")),
            format!("[{}][2023-01-01T00:00:01+0000] from f2", blue("F2.log")),
        ]
    );
}

#[test]
fn error_keyword_is_emphasised_in_the_output() {
    colored::control::set_override(true);
    let sources = vec![source("a.log", &["[2023-01-01T00:00:01+0000] ERROR disk full"])];
    let loaded = load_files_in_memory(&sources, None, FORMAT).unwrap();
    let lines = process_log_files(loaded.files);
    assert_eq!(
        lines,
        vec![format!(
            "[{}][2023-01-01T00:00:01+0000] \u{1b}[1;31mERROR\u{1b}[0m disk full",
            green("a.log")
        )]
    );
}

#[test]
fn warn_and_info_keywords_are_emphasised_in_the_output() {
    colored::control::set_override(true);
    let sources = vec![source("a.log", &["[2023-01-01T00:00:01+0000] WARN then INFO"])];
    let loaded = load_files_in_memory(&sources, None, FORMAT).unwrap();
    let lines = process_log_files(loaded.files);
    assert_eq!(
        lines,
        vec![format!(
            "[{}][2023-01-01T00:00:01+0000] \u{1b}[1;33mWARN\u{1b}[0m then \u{1b}[1mINFO\u{1b}[0m",
            green("a.log")
        )]
    );
}

#[test]
fn known_id_is_highlighted_in_every_file() {
    colored::control::set_override(true);
    let pattern = IdPattern::new(r"(?:newRaft, raft_id: )(\d+)").unwrap();
    let sources = vec![
        source("a.log", &["[2023-01-01T00:00:01+0000] newRaft, raft_id: 42"]),
        source("b.log", &["[2023-01-01T00:00:02+0000] peer 42 sent 1423 bytes"]),
    ];
    let loaded = load_files_in_memory(&sources, Some(&pattern), FORMAT).unwrap();
    assert_eq!(
        loaded.notices,
        vec![
            Notice::IdFound { id: "42".to_string(), file_name: "a.log".to_string() },
            Notice::NoIdFound,
        ]
    );
    assert_eq!(loaded.files[0].id, Some("42".to_string()));
    assert_eq!(loaded.files[0].color, PaletteColor::Green);
    assert_eq!(loaded.files[1].id, None);
    assert_eq!(loaded.files[1].color, PaletteColor::Blue);
    let lines = process_log_files(loaded.files);
    assert_eq!(
        lines,
        vec![
            format!(
                "[a.log][{}][2023-01-01T00:00:01+0000] newRaft, raft_id: {}",
                green("42"),
                green("42")
            ),
            format!(
                "[b.log][{}][2023-01-01T00:00:02+0000] peer {} sent 1{}3 bytes",
                blue("b.log"),
                green("42"),
                green("42")
            ),
        ]
    );
}

#[test]
fn without_any_id_every_line_has_the_name_only_prefix() {
    colored::control::set_override(true);
    let pattern = IdPattern::new(r"raft_id: (\d+)").unwrap();
    let sources = vec![
        source("a.log", &["[2023-01-01T00:00:01+0000] one", "[2023-01-01T00:00:04+0000] four"]),
        source("b.log", &["[2023-01-01T00:00:02+0000] two"]),
    ];
    let loaded = load_files_in_memory(&sources, Some(&pattern), FORMAT).unwrap();
    assert_eq!(loaded.notices, vec![Notice::NoIdFound, Notice::NoIdFound]);
    let lines = process_log_files(loaded.files);
    assert_eq!(
        lines,
        vec![
            format!("[{}][2023-01-01T00:00:01+0000] one", green("a.log")),
            format!("[{}][2023-01-01T00:00:02+0000] two", blue("b.log")),
            format!("[{}][2023-01-01T00:00:04+0000] four", green("a.log")),
        ]
    );
}

#[test]
fn files_with_the_same_id_share_a_color() {
    colored::control::set_override(true);
    let pattern = IdPattern::new(r"node=(\w+)").unwrap();
    let sources = vec![
        source("a.log", &["[2023-01-01T00:00:01+0000] node=x"]),
        source("b.log", &["[2023-01-01T00:00:02+0000] node=y"]),
        source("c.log", &["[2023-01-01T00:00:03+0000] node=x"]),
        source("d.log", &["[2023-01-01T00:00:04+0000] nothing"]),
    ];
    let loaded = load_files_in_memory(&sources, Some(&pattern), FORMAT).unwrap();
    let colors: Vec<PaletteColor> = loaded.files.iter().map(|file| file.color).collect();
    assert_eq!(
        colors,
        vec![PaletteColor::Green, PaletteColor::Blue, PaletteColor::Green, PaletteColor::Magenta]
    );
    assert_eq!(loaded.colors.len(), 3);
    assert_eq!(loaded.colors.lookup("x"), Some(PaletteColor::Green));
    assert_eq!(loaded.colors.lookup("y"), Some(PaletteColor::Blue));
    assert_eq!(loaded.colors.lookup("d.log"), Some(PaletteColor::Magenta));
    assert_eq!(loaded.files[2].display_id, Some(green("x")));
    assert_eq!(loaded.files[3].display_name, format!("\u{1b}[35md.log\u{1b}[0m"));
}

#[test]
fn ten_sources_get_ten_different_colors() {
    colored::control::set_override(true);
    let sources: Vec<SourceFile> =
        (0..10).map(|n| source(&format!("{}.log", n), &[])).collect();
    let loaded = load_files_in_memory(&sources, None, FORMAT).unwrap();
    for a in 0..10 {
        for b in 0..10 {
            assert_eq!(loaded.files[a].color == loaded.files[b].color, a == b);
        }
    }
}

#[test]
fn an_eleventh_source_fails_the_load() {
    colored::control::set_override(true);
    let mut sources: Vec<SourceFile> =
        (0..10).map(|n| source(&format!("{}.log", n), &[])).collect();
    sources.push(source("3.log", &[]));
    assert!(load_files_in_memory(&sources, None, FORMAT).is_ok());
    sources.push(source("late.log", &[]));
    sources.push(source("later.log", &[]));
    assert_eq!(
        load_files_in_memory(&sources, None, FORMAT).err(),
        Some(LoadError::PaletteExhausted { file: 11 })
    );
}

#[test]
fn load_file_leaves_a_full_table_alone() {
    colored::control::set_override(true);
    let mut colors = ColorAllocator::new();
    for n in 0..10 {
        let one = source(&format!("{}.log", n), &[]);
        assert!(load_file(&one, None, FORMAT, &mut colors).is_some());
    }
    assert!(load_file(&source("new.log", &[]), None, FORMAT, &mut colors).is_none());
    assert_eq!(colors.len(), 10);
    let again = load_file(&source("4.log", &[]), None, FORMAT, &mut colors).unwrap();
    assert_eq!(again.0.color, PaletteColor::BrightRed);
}

#[test]
fn load_file_reports_id_then_dropped_lines() {
    colored::control::set_override(true);
    let pattern = IdPattern::new(r"id=(\d+)").unwrap();
    let mut colors = ColorAllocator::new();
    let (file, notices) = load_file(
        &source("n.log", &["bad one", "[2023-01-01T00:00:01+0000] id=5", "bad two id=6"]),
        Some(&pattern),
        FORMAT,
        &mut colors,
    )
    .unwrap();
    assert_eq!(file.id, Some("5".to_string()));
    assert_eq!(file.entries.len(), 1);
    assert_eq!(
        notices,
        vec![
            Notice::IdFound { id: "5".to_string(), file_name: "n.log".to_string() },
            Notice::LineDropped { line: "bad one".to_string() },
            Notice::LineDropped { line: "bad two id=6".to_string() },
        ]
    );
    assert_eq!(colors.lookup("5"), Some(PaletteColor::Green));
    assert_eq!(colors.lookup("n.log"), None);
}

#[test]
fn id_is_taken_from_a_line_that_is_dropped() {
    colored::control::set_override(true);
    let pattern = IdPattern::new(r"id=(\d+)").unwrap();
    let loaded =
        load_files_in_memory(&vec![source("n.log", &["id=8"])], Some(&pattern), FORMAT).unwrap();
    assert_eq!(loaded.files[0].id, Some("8".to_string()));
    assert_eq!(loaded.files[0].entries, Vec::new());
}

#[test]
fn empty_run_produces_nothing() {
    let loaded = load_files_in_memory(&Vec::new(), None, FORMAT).unwrap();
    assert_eq!(loaded.files, Vec::new());
    assert_eq!(loaded.notices, Vec::new());
    assert_eq!(loaded.colors.len(), 0);
    assert_eq!(process_log_files(loaded.files), Vec::<String>::new());
}

#[test]
fn render_merged_uses_the_given_marks() {
    colored::control::set_override(true);
    let sources = vec![
        source("a.log", &["[2023-01-01T00:00:02+0000] INFO late"]),
        source("b.log", &["[2023-01-01T00:00:01+0000] ERROR early"]),
    ];
    let loaded = load_files_in_memory(&sources, None, FORMAT).unwrap();
    let marks = SeverityMarks {
        error: "*ERROR*".to_string(),
        warn: "*WARN*".to_string(),
        info: "*INFO*".to_string(),
    };
    assert_eq!(
        render_merged(&loaded.files, &marks),
        vec![
            format!("[{}][2023-01-01T00:00:01+0000] *ERROR* early", blue("b.log")),
            format!("[{}][2023-01-01T00:00:02+0000] *INFO* late", green("a.log")),
        ]
    );
}
