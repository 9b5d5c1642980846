use std::collections::HashMap;

use lsp_locations::filter::passes_filter;
use lsp_locations::{
    BufferSnapshot, ConfirmAction, LinePosition, Location, LspLocationsDelegate, LspPickerKind,
    OffsetRange, OpenRequest, PreviewUpdate, ProjectPath, Row,
};

const MILLI: u128 = 1_000_000;

fn path(rank: usize, unix_path: &str) -> ProjectPath {
    ProjectPath { rank, unix_path: unix_path.to_string() }
}

/// Two files: `src/Alpha.rs` with the matches 0 and 1, `src/beta.rs` with 2.
/// Rows: header, 0, 1, separator, header, 2.
fn delegate() -> LspLocationsDelegate {
    let locations: Vec<Location> =
        (0..3).map(|anchors| Location { buffer: if anchors < 2 { 1 } else { 2 }, anchors }).collect();
    let mut snapshots = HashMap::new();
    snapshots.insert(1, BufferSnapshot { file: Some(path(0, "src/Alpha.rs")) });
    snapshots.insert(2, BufferSnapshot { file: Some(path(1, "src/beta.rs")) });
    let positions = vec![
        LinePosition {
            start_offset: 14,
            end_offset: 17,
            row: 1,
            line_start: 10,
            line_text: "    foo(1);".to_string(),
        },
        LinePosition {
            start_offset: 200,
            end_offset: 203,
            row: 119,
            line_start: 200,
            line_text: "Foo::bar".to_string(),
        },
        LinePosition {
            start_offset: 0,
            end_offset: 3,
            row: 0,
            line_start: 0,
            line_text: "QUX".to_string(),
        },
    ];
    LspLocationsDelegate::new(LspPickerKind::References, &locations, &snapshots, &positions)
}

fn shown(delegate: &LspLocationsDelegate) -> Vec<String> {
    let mut shown = Vec::new();
    for ix in 0..delegate.match_count() {
        if let Some(Row::Match(row)) = delegate.render_match(ix, false) {
            shown.push(row.line.text);
        }
    }
    shown
}

fn opens(anchors: usize, split: bool) -> ConfirmAction {
    ConfirmAction::OpenAndDismiss(OpenRequest {
        location: Location { buffer: if anchors < 2 { 1 } else { 2 }, anchors },
        split,
    })
}

#[test]
fn a_new_picker_shows_every_match_and_selects_the_first() {
    let delegate = delegate();
    assert_eq!(delegate.match_count(), 6);
    assert_eq!(delegate.selected_index(), 1);
    assert_eq!(delegate.first_selectable_index(), Some(1));
    assert_eq!(shown(&delegate), vec!["foo(1);", "Foo::bar", "QUX"]);
    assert_eq!(delegate.selected_location_match().unwrap().location.anchors, 0);
    assert!(!delegate.select_on_hover());
    assert_eq!(LspLocationsDelegate::name(), "lsp locations picker");
    assert_eq!(delegate.placeholder_text(), "Filter references\u{2026}");
}

#[test]
fn only_matches_can_be_selected() {
    let delegate = delegate();
    let selectable: Vec<usize> = (0..10).filter(|ix| delegate.can_select(*ix)).collect();
    assert_eq!(selectable, vec![1, 2, 5]);
}

#[test]
fn rows_are_drawn() {
    let delegate = delegate();
    assert_eq!(delegate.render_match(0, false), Some(Row::Header(path(0, "src/Alpha.rs"))));
    assert_eq!(delegate.render_match(3, false), Some(Row::Separator));
    assert_eq!(delegate.render_match(4, true), Some(Row::Header(path(1, "src/beta.rs"))));
    assert_eq!(delegate.render_match(6, true), None);
    match delegate.render_match(2, true) {
        Some(Row::Match(row)) => {
            assert_eq!(row.index, 2);
            assert!(row.selected);
            assert_eq!(row.gutter_digits, 3);
            assert_eq!(row.line_number, "120");
            assert_eq!(row.line.text, "Foo::bar");
            assert_eq!(row.line.highlight, OffsetRange { start: 0, end: 3 });
        }
        other => panic!("{:?}", other),
    }
}

#[test]
fn the_preview_shows_the_selected_match() {
    let mut delegate = delegate();
    delegate.set_selected_index(5, 0);
    assert_eq!(
        delegate.try_get_preview_data_for_match(),
        Some(PreviewUpdate {
            location: Location { buffer: 2, anchors: 2 },
            range: OffsetRange { start: 0, end: 3 },
        })
    );
    delegate.set_selected_index(4, 0);
    assert_eq!(delegate.try_get_preview_data_for_match(), None);
    delegate.set_selected_index(60, 0);
    assert_eq!(delegate.try_get_preview_data_for_match(), None);
}

#[test]
fn the_filter_ignores_case_and_margins() {
    let mut delegate = delegate();
    delegate.update_matches("  FOO ");
    assert_eq!(shown(&delegate), vec!["foo(1);", "Foo::bar"]);
    assert_eq!(delegate.match_count(), 3);
    delegate.update_matches("foo");
    assert_eq!(shown(&delegate), vec!["foo(1);", "Foo::bar"]);
    delegate.update_matches("Qu");
    assert_eq!(shown(&delegate), vec!["QUX"]);
    assert_eq!(delegate.match_count(), 2);
    assert_eq!(delegate.selected_index(), 1);
    assert_eq!(delegate.selected_location_match().unwrap().location.anchors, 2);
}

#[test]
fn the_filter_reads_paths() {
    let mut delegate = delegate();
    delegate.update_matches("alpha.RS");
    assert_eq!(shown(&delegate), vec!["foo(1);", "Foo::bar"]);
    delegate.update_matches("SRC/");
    assert_eq!(shown(&delegate).len(), 3);
}

#[test]
fn the_filter_lowers_more_than_ascii() {
    let mut snapshots = HashMap::new();
    snapshots.insert(1, BufferSnapshot { file: Some(path(0, "a")) });
    let mut delegate = LspLocationsDelegate::new(
        LspPickerKind::References,
        &vec![Location { buffer: 1, anchors: 0 }],
        &snapshots,
        &vec![LinePosition {
            start_offset: 0,
            end_offset: 0,
            row: 0,
            line_start: 0,
            line_text: "\u{dc}BER".to_string(),
        }],
    );
    delegate.update_matches("\u{fc}b");
    assert_eq!(delegate.match_count(), 2);
}

#[test]
fn a_blank_query_shows_everything_again() {
    let mut delegate = delegate();
    delegate.update_matches("no such text");
    assert_eq!(delegate.match_count(), 0);
    assert_eq!(delegate.selected_index(), 0);
    assert_eq!(delegate.first_selectable_index(), None);
    assert!(delegate.selected_location_match().is_none());
    for blank in ["", "   ", "\t\u{a0}\n"] {
        delegate.update_matches("bar");
        assert_eq!(shown(&delegate), vec!["Foo::bar"]);
        delegate.update_matches(blank);
        assert_eq!(shown(&delegate), vec!["foo(1);", "Foo::bar", "QUX"]);
        assert_eq!(delegate.selected_index(), 1);
    }
}

#[test]
fn the_number_column_follows_the_filter() {
    let mut delegate = delegate();
    delegate.update_matches("qux");
    match delegate.render_match(1, false) {
        Some(Row::Match(row)) => {
            assert_eq!(row.gutter_digits, 1);
            assert_eq!(row.line_number, "1");
        }
        other => panic!("{:?}", other),
    }
}

#[test]
fn a_match_passes_by_its_line_or_its_path() {
    assert!(passes_filter("", "", ""));
    assert!(passes_filter("b", "abc", ""));
    assert!(passes_filter("b", "", "abc"));
    assert!(!passes_filter("b", "ac", "ca"));
    assert!(!passes_filter("b", "B", "B"));
}

#[test]
fn the_enter_key_opens_at_once() {
    let mut delegate = delegate();
    assert_eq!(delegate.confirm(false, 7 * MILLI, true), opens(0, false));
    delegate.set_selected_index(5, 1000 * MILLI);
    assert_eq!(delegate.confirm(true, 1050 * MILLI, true), opens(2, true));
}

#[test]
fn a_single_click_only_takes_the_focus() {
    let mut delegate = delegate();
    delegate.set_selected_index(2, 1000 * MILLI);
    assert_eq!(delegate.confirm(false, 1050 * MILLI - 1, true), ConfirmAction::FocusSelf);
    assert_eq!(delegate.selected_index(), 2);
}

#[test]
fn a_double_click_opens() {
    let mut delegate = delegate();
    delegate.set_selected_index(2, 1000 * MILLI);
    assert_eq!(delegate.confirm(false, 1001 * MILLI, true), ConfirmAction::FocusSelf);
    delegate.set_selected_index(2, 1300 * MILLI);
    assert_eq!(delegate.confirm(false, 1301 * MILLI - 1, true), opens(1, false));
}

#[test]
fn a_slow_second_click_only_takes_the_focus() {
    let mut delegate = delegate();
    delegate.set_selected_index(2, 1000 * MILLI);
    assert_eq!(delegate.confirm(false, 1001 * MILLI, true), ConfirmAction::FocusSelf);
    delegate.set_selected_index(2, 1300 * MILLI);
    assert_eq!(delegate.confirm(false, 1301 * MILLI, true), ConfirmAction::FocusSelf);
    // It counts as the first click of the next pair.
    delegate.set_selected_index(2, 1400 * MILLI);
    assert_eq!(delegate.confirm(false, 1401 * MILLI, true), opens(1, false));
}

#[test]
fn clicks_on_two_rows_open_nothing() {
    let mut delegate = delegate();
    delegate.set_selected_index(1, 1000 * MILLI);
    assert_eq!(delegate.confirm(false, 1001 * MILLI, true), ConfirmAction::FocusSelf);
    delegate.set_selected_index(2, 1100 * MILLI);
    assert_eq!(delegate.confirm(false, 1101 * MILLI, true), ConfirmAction::FocusSelf);
}

#[test]
fn a_clock_that_runs_backwards_counts_as_no_time() {
    let mut delegate = delegate();
    delegate.set_selected_index(1, 1000 * MILLI);
    assert_eq!(delegate.confirm(false, 10 * MILLI, true), ConfirmAction::FocusSelf);
}

#[test]
fn opening_needs_a_selection_and_a_workspace() {
    let mut delegate = delegate();
    assert_eq!(delegate.open_selected(true, true), opens(0, true));
    assert_eq!(delegate.open_selected(true, false), ConfirmAction::Ignore);
    assert_eq!(delegate.confirm(false, 0, false), ConfirmAction::Ignore);
    delegate.set_selected_index(3, 0);
    assert_eq!(delegate.open_selected(false, true), ConfirmAction::Ignore);
    assert_eq!(delegate.confirm(false, 50 * MILLI, true), ConfirmAction::Ignore);
}

#[test]
fn rebuilding_selects_the_first_match_again() {
    let mut delegate = delegate();
    delegate.set_selected_index(5, 0);
    delegate.rebuild_entries();
    assert_eq!(delegate.selected_index(), 1);
    assert_eq!(delegate.match_count(), 6);
}

#[test]
fn every_match_can_be_opened() {
    let mut delegate = delegate();
    let mut opened = Vec::new();
    for ix in 0..delegate.match_count() {
        if delegate.can_select(ix) {
            delegate.set_selected_index(ix, 0);
            opened.push(delegate.open_selected(false, true));
        }
    }
    assert_eq!(opened, vec![opens(0, false), opens(1, false), opens(2, false)]);
}
