use std::collections::HashMap;

use lsp_locations::{
    BufferSnapshot, LinePosition, Location, LspLocationsPicker, LspPickerKind, LspPickerResults,
    OpenStep, ProjectPath,
};

const KIND: LspPickerKind = LspPickerKind::References;

fn locations() -> Vec<Location> {
    vec![Location { buffer: 4, anchors: 0 }, Location { buffer: 4, anchors: 1 }]
}

#[test]
fn the_placeholder_names_the_kind() {
    assert_eq!(KIND.placeholder(), "Filter references\u{2026}");
}

#[test]
fn opening_an_open_picker_dismisses_it() {
    assert_eq!(LspLocationsPicker::open(KIND, true, true), OpenStep::HideModal);
    assert_eq!(LspLocationsPicker::open(KIND, true, false), OpenStep::HideModal);
}

#[test]
fn opening_runs_a_query_in_the_active_editor() {
    assert_eq!(LspLocationsPicker::open(KIND, false, true), OpenStep::RunQuery(KIND));
    assert_eq!(LspLocationsPicker::open(KIND, false, false), OpenStep::Stop);
    assert_eq!(LspLocationsPicker::query_started(true), OpenStep::AwaitQuery);
    assert_eq!(LspLocationsPicker::query_started(false), OpenStep::Stop);
}

#[test]
fn a_picker_opens_only_on_locations() {
    assert_eq!(
        LspLocationsPicker::query_finished(KIND, Ok(locations())),
        OpenStep::ShowModal(KIND, locations())
    );
    assert_eq!(LspLocationsPicker::query_finished(KIND, Ok(vec![])), OpenStep::Stop);
    assert_eq!(
        LspLocationsPicker::query_finished(KIND, Err("gone".to_string())),
        OpenStep::LogError("gone".to_string())
    );
}

#[test]
fn toggling_without_results_runs_a_query() {
    let results = LspPickerResults::new();
    assert_eq!(results.toggle(KIND, false, true), OpenStep::RunQuery(KIND));
    assert_eq!(results.toggle(KIND, false, false), OpenStep::Stop);
    assert_eq!(results.toggle(KIND, true, true), OpenStep::HideModal);
}

#[test]
fn toggling_brings_the_last_results_back() {
    let mut results = LspPickerResults::new();
    assert_eq!(
        results.query_finished(KIND, Ok(locations())),
        OpenStep::ShowModal(KIND, locations())
    );
    assert_eq!(results.toggle(KIND, true, true), OpenStep::HideModal);
    assert_eq!(results.toggle(KIND, false, false), OpenStep::ShowModal(KIND, locations()));
    // A query that shows nothing leaves the results in place.
    assert_eq!(results.query_finished(KIND, Ok(vec![])), OpenStep::Stop);
    assert_eq!(
        results.query_finished(KIND, Err("gone".to_string())),
        OpenStep::LogError("gone".to_string())
    );
    assert_eq!(results.toggle(KIND, false, true), OpenStep::ShowModal(KIND, locations()));
    // The next answer replaces them.
    let fresh = vec![Location { buffer: 9, anchors: 0 }];
    results.query_finished(KIND, Ok(vec![Location { buffer: 9, anchors: 0 }]));
    assert_eq!(results.toggle(KIND, false, true), OpenStep::ShowModal(KIND, fresh));
}

#[test]
fn the_modal_shows_the_matches() {
    let mut snapshots = HashMap::new();
    snapshots.insert(
        4,
        BufferSnapshot { file: Some(ProjectPath { rank: 0, unix_path: "a.rs".to_string() }) },
    );
    let positions = (0..2)
        .map(|row| LinePosition {
            start_offset: row as usize * 2,
            end_offset: row as usize * 2 + 1,
            row,
            line_start: row as usize * 2,
            line_text: "x".to_string(),
        })
        .collect();
    let picker = LspLocationsPicker::new(KIND, &locations(), &snapshots, &positions);
    assert_eq!(picker.delegate.match_count(), 3);
    assert_eq!(picker.delegate.selected_index(), 1);
}
