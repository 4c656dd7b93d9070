use log_merge::log::{LogEntry, LogFile};
use log_merge::merge::{merge_order, Emission};
use log_merge::palette::PaletteColor;
use log_merge::timestamp::Timestamp;

fn file(name: &str, seconds: &[i64]) -> LogFile {
    let entries = seconds
        .iter()
        .map(|s| LogEntry {
            timestamp: Timestamp { seconds: *s, nanos: 0 },
            raw_text: format!("{} at {}", name, s),
        })
        .collect();
    LogFile::new(name.to_string(), None, entries, PaletteColor::Green)
}

fn steps(pairs: &[(usize, usize)]) -> Vec<Emission> {
    pairs.iter().map(|(file, entry)| Emission { file: *file, entry: *entry }).collect()
}

#[test]
fn merge_of_nothing_is_empty() {
    assert_eq!(merge_order(&Vec::new()), Vec::new());
    assert_eq!(merge_order(&vec![file("a", &[]), file("b", &[])]), Vec::new());
}

#[test]
fn merge_of_one_file_keeps_file_order() {
    assert_eq!(merge_order(&vec![file("a", &[1, 2, 3])]), steps(&[(0, 0), (0, 1), (0, 2)]));
}

#[test]
fn merge_interleaves_two_files() {
    let files = vec![file("A.log", &[1, 3]), file("B.log", &[2])];
    assert_eq!(merge_order(&files), steps(&[(0, 0), (1, 0), (0, 1)]));
}

#[test]
fn merge_handles_files_of_different_lengths() {
    let files = vec![file("a", &[5]), file("b", &[]), file("c", &[1, 2, 3, 4, 6, 7])];
    assert_eq!(
        merge_order(&files),
        steps(&[(2, 0), (2, 1), (2, 2), (2, 3), (0, 0), (2, 4), (2, 5)])
    );
}

#[test]
fn merge_breaks_ties_by_file_order() {
    let files = vec![file("first", &[7]), file("second", &[7])];
    assert_eq!(merge_order(&files), steps(&[(0, 0), (1, 0)]));
    let files = vec![file("first", &[1, 7, 7]), file("second", &[7, 7]), file("third", &[7])];
    assert_eq!(
        merge_order(&files),
        steps(&[(0, 0), (0, 1), (0, 2), (1, 0), (1, 1), (2, 0)])
    );
}

#[test]
fn merge_compares_nanoseconds_within_a_second() {
    let stamped = |nanos: u32| LogEntry {
        timestamp: Timestamp { seconds: 9, nanos },
        raw_text: String::new(),
    };
    let first = LogFile::new("a".to_string(), None, vec![stamped(500)], PaletteColor::Green);
    let second = LogFile::new("b".to_string(), None, vec![stamped(499)], PaletteColor::Blue);
    assert_eq!(merge_order(&vec![first, second]), steps(&[(1, 0), (0, 0)]));
}

#[test]
fn merge_is_in_chronological_order_for_sorted_files() {
    let files = vec![
        file("a", &[1, 4, 4, 9, 12]),
        file("b", &[2, 4, 10]),
        file("c", &[0, 4, 4, 4, 20]),
    ];
    let order = merge_order(&files);
    assert_eq!(order.len(), 13);
    for pair in order.windows(2) {
        let earlier = files[pair[0].file].entries[pair[0].entry].timestamp;
        let later = files[pair[1].file].entries[pair[1].entry].timestamp;
        assert!(!later.is_before(&earlier));
        if earlier == later {
            assert!(pair[0].file <= pair[1].file);
        }
    }
}

#[test]
fn merge_emits_every_entry_once() {
    let files = vec![file("a", &[3, 1, 2]), file("b", &[2, 2]), file("c", &[9, 0])];
    let order = merge_order(&files);
    assert_eq!(order.len(), 7);
    for (f, loaded) in files.iter().enumerate() {
        for e in 0..loaded.entries.len() {
            let wanted = Emission { file: f, entry: e };
            assert_eq!(order.iter().filter(|step| **step == wanted).count(), 1);
        }
    }
}

#[test]
fn merge_of_unsorted_files_follows_the_heads() {
    let files = vec![file("a", &[5, 1]), file("b", &[1])];
    assert_eq!(merge_order(&files), steps(&[(1, 0), (0, 0), (0, 1)]));
}

#[test]
fn merge_is_repeatable() {
    let files = vec![file("a", &[1, 1, 2]), file("b", &[1, 2, 2])];
    assert_eq!(merge_order(&files), merge_order(&files));
    assert_eq!(
        merge_order(&files),
        steps(&[(0, 0), (0, 1), (1, 0), (0, 2), (1, 1), (1, 2)])
    );
}
