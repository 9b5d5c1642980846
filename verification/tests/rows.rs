use std::collections::HashMap;

use lsp_locations::entries::{build_entries, first_selectable, max_line_number};
use lsp_locations::location::build_location_matches;
use lsp_locations::rows::{gutter_digits, header_row, matched_line, syntax_highlights, Chunk};
use lsp_locations::{
    BufferSnapshot, Entry, LinePosition, Location, LocationMatch, OffsetRange, ProjectPath,
};

fn path(rank: usize) -> ProjectPath {
    ProjectPath { rank, unix_path: format!("dir/{}.rs", rank) }
}

fn found(rank: usize, start: usize, end: usize, line_start: usize, line: &str, number: u32) -> LocationMatch {
    LocationMatch {
        path: path(rank),
        location: Location { buffer: 1, anchors: 0 },
        range: OffsetRange { start, end },
        relative_range: OffsetRange {
            start: start - line_start,
            end: (end - line_start).min(line.len()),
        },
        line_text: line.to_string(),
        line_number: number,
    }
}

#[test]
fn rows_are_grouped_by_file() {
    let matches = vec![
        found(1, 0, 1, 0, "a", 3),
        found(1, 5, 6, 5, "b", 12),
        found(4, 0, 1, 0, "c", 7),
        found(6, 0, 1, 0, "d", 1),
        found(6, 9, 9, 9, "e", 2),
    ];
    let entries = build_entries(&matches);
    assert_eq!(
        entries,
        vec![
            Entry::Header(path(1)),
            Entry::Match(0),
            Entry::Match(1),
            Entry::Separator,
            Entry::Header(path(4)),
            Entry::Match(2),
            Entry::Separator,
            Entry::Header(path(6)),
            Entry::Match(3),
            Entry::Match(4),
        ]
    );
    assert_eq!(first_selectable(&entries), Some(1));
    assert_eq!(max_line_number(&matches), 12);
}

#[test]
fn without_matches_there_are_no_rows() {
    let entries = build_entries(&vec![]);
    assert_eq!(entries, vec![]);
    assert_eq!(first_selectable(&entries), None);
    assert_eq!(max_line_number(&vec![]), 0);
}

#[test]
fn first_selectable_skips_headers_and_separators() {
    let entries = vec![Entry::Separator, Entry::Header(path(1)), Entry::Match(0), Entry::Match(1)];
    assert_eq!(first_selectable(&entries), Some(2));
    assert_eq!(first_selectable(&vec![Entry::Separator, Entry::Header(path(1))]), None);
}

#[test]
fn a_matched_line_loses_its_indentation() {
    let line = matched_line(&found(0, 108, 111, 100, "    let foo = 1;", 4));
    assert_eq!(line.location, Location { buffer: 1, anchors: 0 });
    assert_eq!(line.text, "let foo = 1;");
    assert_eq!(line.visible, OffsetRange { start: 104, end: 116 });
    assert_eq!(line.highlight, OffsetRange { start: 4, end: 7 });
    assert_eq!(&line.text[line.highlight.start..line.highlight.end], "foo");
}

#[test]
fn a_highlight_counts_bytes() {
    let source = "\u{3000}\u{e9}t\u{e9} = foo";
    let start = source.find("foo").unwrap();
    let line = matched_line(&found(0, 50 + start, 50 + start + 3, 50, source, 4));
    assert_eq!(line.text, "\u{e9}t\u{e9} = foo");
    assert_eq!(&line.text[line.highlight.start..line.highlight.end], "foo");
    assert_eq!(line.visible, OffsetRange { start: 53, end: 50 + source.len() });
}

#[test]
fn a_highlight_is_cut_at_the_ends_of_the_text() {
    // Starts in the indentation, ends on a later line.
    let line = matched_line(&found(0, 11, 99, 10, "   ab", 1));
    assert_eq!(line.highlight, OffsetRange { start: 0, end: 2 });
    // Lies in the indentation.
    let line = matched_line(&found(0, 11, 12, 10, "   ab", 1));
    assert_eq!(line.highlight, OffsetRange { start: 0, end: 0 });
    // A blank line shows nothing.
    let line = matched_line(&found(0, 11, 12, 10, "   ", 1));
    assert_eq!(line.text, "");
    assert_eq!(line.visible, OffsetRange { start: 13, end: 13 });
    assert_eq!(line.highlight, OffsetRange { start: 0, end: 0 });
}

#[test]
fn the_highlight_of_a_built_match_is_its_shifted_range() {
    let source = "  \u{e9} foo";
    // Each case: start and end within the line, and the highlight.
    let cases = [
        (0, 1, (0, 0)),
        (0, 4, (0, 2)),
        (2, 4, (0, 2)),
        (5, 8, (3, 6)),
        (5, 500, (3, 6)),
        (8, 8, (6, 6)),
        (8, 9, (6, 6)),
    ];
    let mut snapshots = HashMap::new();
    snapshots.insert(3, BufferSnapshot { file: Some(path(0)) });
    for (start, end, (from, to)) in cases {
        let position = LinePosition {
            start_offset: 40 + start,
            end_offset: 40 + end,
            row: 2,
            line_start: 40,
            line_text: source.to_string(),
        };
        let matches = build_location_matches(
            &vec![Location { buffer: 3, anchors: 0 }],
            &snapshots,
            &vec![position],
        );
        let relative = matches[0].relative_range;
        assert!(relative.start <= relative.end && relative.end <= source.len());
        let line = matched_line(&matches[0]);
        assert_eq!(line.text, "\u{e9} foo");
        assert_eq!(line.highlight, OffsetRange { start: from, end: to });
        assert_eq!(line.highlight.start, relative.start.saturating_sub(2));
        assert_eq!(line.highlight.end, relative.end.saturating_sub(2));
        assert!(line.highlight.end <= line.text.len());
    }
}

#[test]
fn syntax_highlights_take_the_styled_chunks() {
    let chunks = vec![
        Chunk { len: 3, style: Some('k') },
        Chunk { len: 1, style: None },
        Chunk { len: 0, style: Some('e') },
        Chunk { len: 5, style: Some('v') },
    ];
    assert_eq!(
        syntax_highlights(&chunks),
        vec![
            (OffsetRange { start: 0, end: 3 }, 'k'),
            (OffsetRange { start: 4, end: 4 }, 'e'),
            (OffsetRange { start: 4, end: 9 }, 'v'),
        ]
    );
    assert_eq!(syntax_highlights(&Vec::<Chunk<u8>>::new()), vec![]);
}

#[test]
fn the_number_column_has_room_for_the_largest_number() {
    assert_eq!(gutter_digits(0), 1);
    assert_eq!(gutter_digits(9), 1);
    assert_eq!(gutter_digits(10), 2);
    assert_eq!(gutter_digits(1000), 4);
    for n in [1u32, 99, 100, 12345, 999999999, u32::MAX] {
        assert_eq!(gutter_digits(n), n.max(1).ilog10() + 1);
        assert_eq!(gutter_digits(n), n.to_string().len() as u32);
    }
}

#[test]
fn a_header_shows_name_and_directory() {
    let name = || Some("main.rs".to_string());
    let icon = || Some("icons/rust.svg".to_string());
    let row = header_row(name(), Some("src/bin".to_string()), true, icon());
    assert_eq!(row.icon, icon());
    assert_eq!(row.file_name, "main.rs");
    assert_eq!(row.directory, Some("src/bin".to_string()));

    let row = header_row(name(), Some(String::new()), false, icon());
    assert_eq!(row.icon, None);
    assert_eq!(row.directory, None);

    let row = header_row(None, None, true, None);
    assert_eq!(row.icon, None);
    assert_eq!(row.file_name, "");
    assert_eq!(row.directory, None);
}
