use std::collections::HashMap;

use lsp_locations::location::{build_location_matches, buffers_to_read};
use lsp_locations::sort::sort_matches;
use lsp_locations::{BufferSnapshot, LinePosition, Location, LocationMatch, OffsetRange, ProjectPath};

fn path(rank: usize, unix_path: &str) -> ProjectPath {
    ProjectPath { rank, unix_path: unix_path.to_string() }
}

fn at(buffer: u64, anchors: usize) -> Location {
    Location { buffer, anchors }
}

fn position(start: usize, end: usize, row: u32, line_start: usize, line: &str) -> LinePosition {
    LinePosition {
        start_offset: start,
        end_offset: end,
        row,
        line_start,
        line_text: line.to_string(),
    }
}

fn tied_match(rank: usize, start: usize, anchors: usize) -> LocationMatch {
    LocationMatch {
        path: path(rank, "f"),
        location: at(1, anchors),
        range: OffsetRange { start, end: start },
        relative_range: OffsetRange { start: 0, end: 0 },
        line_text: String::new(),
        line_number: 1,
    }
}

#[test]
fn each_buffer_is_read_once_in_order_of_appearance() {
    let locations = vec![at(7, 0), at(3, 1), at(7, 2), at(9, 3), at(3, 4)];
    assert_eq!(buffers_to_read(&locations), vec![7, 3, 9]);
    assert_eq!(buffers_to_read(&vec![]), Vec::<u64>::new());
}

#[test]
fn a_match_holds_line_number_and_ranges() {
    let mut snapshots = HashMap::new();
    snapshots.insert(5, BufferSnapshot { file: Some(path(2, "src/main.rs")) });
    let matches = build_location_matches(
        &vec![at(5, 40)],
        &snapshots,
        &vec![position(104, 107, 9, 100, "let foo = 1;")],
    );
    assert_eq!(
        matches,
        vec![LocationMatch {
            path: path(2, "src/main.rs"),
            location: at(5, 40),
            range: OffsetRange { start: 104, end: 107 },
            relative_range: OffsetRange { start: 4, end: 7 },
            line_text: "let foo = 1;".to_string(),
            line_number: 10,
        }]
    );
}

#[test]
fn a_match_over_several_lines_ends_with_its_first_line() {
    let mut snapshots = HashMap::new();
    snapshots.insert(5, BufferSnapshot { file: Some(path(0, "a")) });
    // The line takes 5 bytes: `\u{e9}` takes two of them.
    let matches = build_location_matches(
        &vec![at(5, 0)],
        &snapshots,
        &vec![position(12, 90, 1, 10, "f\u{e9}()")],
    );
    assert_eq!(matches[0].relative_range, OffsetRange { start: 2, end: 5 });
    assert_eq!(matches[0].range, OffsetRange { start: 12, end: 90 });
}

#[test]
fn locations_without_a_file_are_left_out() {
    let mut snapshots = HashMap::new();
    snapshots.insert(1, BufferSnapshot { file: None });
    snapshots.insert(2, BufferSnapshot { file: Some(path(0, "a")) });
    let matches = build_location_matches(
        &vec![at(1, 0), at(2, 1), at(1, 2)],
        &snapshots,
        &vec![position(0, 1, 0, 0, "x"), position(0, 1, 0, 0, "y"), position(0, 1, 0, 0, "z")],
    );
    assert_eq!(matches.len(), 1);
    assert_eq!(matches[0].location, at(2, 1));
}

#[test]
fn matches_are_ordered_by_file_and_position() {
    let mut snapshots = HashMap::new();
    snapshots.insert(1, BufferSnapshot { file: Some(path(8, "z.rs")) });
    snapshots.insert(2, BufferSnapshot { file: Some(path(3, "a.rs")) });
    let matches = build_location_matches(
        &vec![at(1, 0), at(2, 1), at(1, 2), at(2, 3)],
        &snapshots,
        &vec![
            position(50, 51, 5, 50, "a"),
            position(20, 21, 2, 20, "b"),
            position(10, 11, 1, 10, "c"),
            position(0, 1, 0, 0, "d"),
        ],
    );
    let order: Vec<usize> = matches.iter().map(|m| m.location.anchors).collect();
    assert_eq!(order, vec![3, 1, 2, 0]);
}

#[test]
fn ties_keep_their_order() {
    let keys = [(1, 5), (0, 7), (1, 5), (0, 7), (1, 2), (0, 7), (1, 5), (0, 0)];
    let mut matches = Vec::new();
    for (anchors, (rank, start)) in keys.iter().enumerate() {
        matches.push(tied_match(*rank, *start, anchors));
    }
    let order: Vec<usize> = sort_matches(matches).iter().map(|m| m.location.anchors).collect();
    assert_eq!(order, vec![7, 1, 3, 5, 4, 0, 2, 6]);
}

#[test]
fn sorting_agrees_with_a_stable_sort() {
    let mut seed: usize = 12345;
    for len in 0..60usize {
        let mut matches = Vec::new();
        let mut expected = Vec::new();
        for anchors in 0..len {
            seed = (seed * 1103515245 + 12345) % 2147483648;
            let (rank, start) = (seed / 65536 % 3, seed / 1024 % 4);
            matches.push(tied_match(rank, start, anchors));
            expected.push((rank, start, anchors));
        }
        expected.sort_by_key(|(rank, start, _)| (*rank, *start));
        let sorted: Vec<(usize, usize, usize)> = sort_matches(matches)
            .iter()
            .map(|m| (m.path.rank, m.range.start, m.location.anchors))
            .collect();
        assert_eq!(sorted, expected);
    }
}

#[test]
fn positions_are_tested_for_consistency() {
    assert!(position(4, 4, 0, 4, "").is_consistent());
    assert!(!position(3, 9, 0, 4, "").is_consistent());
    assert!(!position(9, 3, 0, 4, "").is_consistent());
    assert!(!position(4, 4, u32::MAX, 4, "").is_consistent());
    assert!(position(usize::MAX, usize::MAX, 0, usize::MAX - 2, "ab").is_consistent());
    assert!(!position(usize::MAX, usize::MAX, 0, usize::MAX - 2, "abc").is_consistent());
}

#[test]
fn a_shallow_clone_is_equal() {
    let m = tied_match(4, 9, 2);
    assert_eq!(m.clone_shallow(), m);
}
