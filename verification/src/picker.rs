//! How a picker comes up and goes away: what the open and the toggle action do,
//! step by step, around the LSP query.

use std::collections::HashMap;

use vstd::prelude::*;

use crate::delegate::{LspLocationsDelegate, PickerState};
use crate::kind::LspPickerKind;
use crate::location;
use crate::location::{BufferSnapshot, LinePosition, Location};
use crate::sort;

verus! {

/// The next step of an action.
#[derive(Debug, PartialEq, Eq)]
pub enum OpenStep {
    /// Dismiss the picker that is open.
    HideModal,
    /// Run the query of this kind against the symbol under the editor's cursor.
    RunQuery(LspPickerKind),
    /// Wait for the answer to the query.
    AwaitQuery,
    /// Log that the query failed with this error.
    LogError(String),
    /// Open a picker of this kind on these locations.
    ShowModal(LspPickerKind, Vec<Location>),
    /// Nothing is left to do.
    Stop,
}

/// The answer to a query: its locations, or the text of its error.
pub type QueryResult = Result<Vec<Location>, String>;

/// What the open action does first: it dismisses a picker that is open; otherwise it
/// runs a fresh query, if an editor is active.
pub open spec fn first_step(kind: LspPickerKind, modal_open: bool, editor_active: bool) -> OpenStep {
    if modal_open {
        OpenStep::HideModal
    } else if editor_active {
        OpenStep::RunQuery(kind)
    } else {
        OpenStep::Stop
    }
}

/// What follows once the editor was asked to start the query.
pub open spec fn step_after_start(started: bool) -> OpenStep {
    if started {
        OpenStep::AwaitQuery
    } else {
        OpenStep::Stop
    }
}

/// What follows the answer `result` of the query.
pub open spec fn step_after_query(kind: LspPickerKind, result: QueryResult) -> OpenStep {
    match result {
        Ok(locations) => if locations@.len() > 0 {
            OpenStep::ShowModal(kind, locations)
        } else {
            OpenStep::Stop
        },
        Err(error) => OpenStep::LogError(error),
    }
}

/// The picker modal.
#[derive(Debug)]
pub struct LspLocationsPicker {
    pub delegate: LspLocationsDelegate,
}

impl LspLocationsPicker {
    /// Toggles the picker for `kind`: if it is already open, dismiss it; otherwise run
    /// a fresh LSP query, if an editor is active.
    pub fn open(kind: LspPickerKind, modal_open: bool, editor_active: bool) -> (step: OpenStep)
        ensures
            step == first_step(kind, modal_open, editor_active),
    {
        if modal_open {
            return OpenStep::HideModal;
        }
        if !editor_active {
            return OpenStep::Stop;
        }
        OpenStep::RunQuery(kind)
    }

    /// Goes on after the editor was asked to start the query.
    pub fn query_started(started: bool) -> (step: OpenStep)
        ensures
            step == step_after_start(started),
    {
        if started {
            OpenStep::AwaitQuery
        } else {
            OpenStep::Stop
        }
    }

    /// Goes on with the answer to the query: a picker is opened only on locations.
    pub fn query_finished(kind: LspPickerKind, result: QueryResult) -> (step: OpenStep)
        ensures
            step == step_after_query(kind, result),
    {
        match result {
            Ok(locations) => {
                if locations.is_empty() {
                    OpenStep::Stop
                } else {
                    OpenStep::ShowModal(kind, locations)
                }
            },
            Err(error) => OpenStep::LogError(error),
        }
    }

    /// The modal for `locations`.
    pub fn new(
        kind: LspPickerKind,
        locations: &Vec<Location>,
        snapshots: &HashMap<u64, BufferSnapshot>,
        positions: &Vec<LinePosition>,
    ) -> (picker: LspLocationsPicker)
        requires
            location::resolved(locations@, snapshots@, positions@),
        ensures
            sort::stable_sort(
                location::found_matches(
                    locations@,
                    snapshots@,
                    positions@,
                    locations.len() as int,
                ),
                picker.delegate@.all_matches,
            ),
            picker.delegate@ == PickerState::opened(kind, picker.delegate@.all_matches),
            picker.delegate@.wf(),
    {
        LspLocationsPicker {
            delegate: LspLocationsDelegate::new(kind, locations, snapshots, positions),
        }
    }
}

/// The locations that each kind of picker last showed.
#[derive(Debug)]
pub struct LspPickerResults {
    references: Option<Vec<Location>>,
}

impl LspPickerResults {
    /// The cached result set of `kind`.
    pub closed spec fn slot(self, kind: LspPickerKind) -> Option<Seq<Location>> {
        match kind {
            LspPickerKind::References => match self.references {
                Some(locations) => Some(locations@),
                None => None,
            },
        }
    }

    /// No kind has a result set.
    pub fn new() -> (results: LspPickerResults)
        ensures
            forall|kind: LspPickerKind| #[trigger] results.slot(kind) is None,
    {
        LspPickerResults { references: None }
    }

    /// Goes on with the answer to the query, and keeps the locations if a picker is
    /// opened on them.
    pub fn query_finished(&mut self, kind: LspPickerKind, result: QueryResult) -> (step: OpenStep)
        ensures
            step == step_after_query(kind, result),
            final(self).slot(kind) == slot_after_query(old(self).slot(kind), result),
            forall|other: LspPickerKind|
                other != kind ==> #[trigger] final(self).slot(other) == old(self).slot(other),
    {
        let step = LspLocationsPicker::query_finished(kind, result);
        if let OpenStep::ShowModal(_, locations) = &step {
            match kind {
                LspPickerKind::References => {
                    self.references = Some(copy_of(locations));
                },
            }
        }
        step
    }

    /// If the picker is already open dismiss it; otherwise reopen it on the cached
    /// result set, or run a fresh query if there is no cache yet.
    pub fn toggle(
        &self,
        kind: LspPickerKind,
        modal_open: bool,
        editor_active: bool,
    ) -> (step: OpenStep)
        ensures
            toggles(self.slot(kind), kind, modal_open, editor_active, step),
    {
        if !modal_open {
            let cached = match kind {
                LspPickerKind::References => &self.references,
            };
            if let Some(locations) = cached {
                return OpenStep::ShowModal(kind, copy_of(locations));
            }
        }
        LspLocationsPicker::open(kind, modal_open, editor_active)
    }
}

/// The cached result set after the answer `result` of a query: what a picker is
/// opened on replaces it, anything else leaves it.
pub open spec fn slot_after_query(
    slot: Option<Seq<Location>>,
    result: QueryResult,
) -> Option<Seq<Location>> {
    match result {
        Ok(locations) if locations@.len() > 0 => Some(locations@),
        _ => slot,
    }
}

/// `step` is what the toggle action does first, given the cached result set `slot`.
pub open spec fn toggles(
    slot: Option<Seq<Location>>,
    kind: LspPickerKind,
    modal_open: bool,
    editor_active: bool,
    step: OpenStep,
) -> bool {
    match slot {
        Some(cached) if !modal_open => step matches OpenStep::ShowModal(shown, locations) && shown
            == kind && locations@ == cached,
        _ => step == first_step(kind, modal_open, editor_active),
    }
}

fn copy_of(locations: &Vec<Location>) -> (copy: Vec<Location>)
    ensures
        copy@ == locations@,
{
    let mut copy: Vec<Location> = Vec::with_capacity(locations.len());
    let mut i: usize = 0;
    while i < locations.len()
        invariant
            i <= locations.len(),
            copy@ == locations@.take(i as int),
        decreases locations.len() - i,
    {
        copy.push(locations[i]);
        i += 1;
    }
    assert(copy@ == locations@);
    copy
}

/// The open action never reopens old results: it shows a picker only with the answer
/// to the query that it ran, and only if no picker was open and there is something to
/// show.
pub proof fn law_open_shows_fresh_results(
    kind: LspPickerKind,
    modal_open: bool,
    editor_active: bool,
    started: bool,
    result: QueryResult,
)
    ensures
        !(first_step(kind, modal_open, editor_active) is ShowModal),
        !(step_after_start(started) is ShowModal),
        first_step(kind, modal_open, editor_active) is RunQuery <==> !modal_open && editor_active,
        step_after_query(kind, result) is ShowModal <==> result is Ok && result->Ok_0@.len() > 0,
        step_after_query(kind, result) matches OpenStep::ShowModal(shown, locations) ==> shown
            == kind && result == Ok::<Vec<Location>, String>(locations),
{
}

/// Toggling after a picker was shown brings the same locations back, without a query.
pub proof fn law_toggle_reopens_last_results(
    slot: Option<Seq<Location>>,
    kind: LspPickerKind,
    result: QueryResult,
    editor_active: bool,
    step: OpenStep,
)
    requires
        step_after_query(kind, result) is ShowModal,
        toggles(slot_after_query(slot, result), kind, false, editor_active, step),
    ensures
        step matches OpenStep::ShowModal(shown, locations) && shown == kind && locations@
            == result->Ok_0@,
{
}

/// Toggling an open picker dismisses it, whatever is cached.
pub proof fn law_toggle_dismisses(
    slot: Option<Seq<Location>>,
    kind: LspPickerKind,
    editor_active: bool,
    step: OpenStep,
)
    requires
        toggles(slot, kind, true, editor_active, step),
    ensures
        step == OpenStep::HideModal,
{
}

/// The open action dismisses an open picker, whether or not an editor is active; otherwise
/// it runs the query of its kind if an editor is active, and stops if none is.
pub proof fn law_open_first_step(kind: LspPickerKind, editor_active: bool)
    ensures
        first_step(kind, true, editor_active) is HideModal,
        first_step(kind, false, true) == OpenStep::RunQuery(kind),
        first_step(kind, false, false) is Stop,
{
}

/// A query that was started is waited for; otherwise the action stops.
pub proof fn law_step_after_start()
    ensures
        step_after_start(true) is AwaitQuery,
        step_after_start(false) is Stop,
{
}

/// An answer with locations is shown under the kind that asked, as it came; an answer
/// without locations ends the action; an error is logged as it came.
pub proof fn law_step_after_query(
    kind: LspPickerKind,
    locations: Vec<Location>,
    error: String,
)
    ensures
        locations@.len() > 0 ==> step_after_query(kind, Ok(locations)) == OpenStep::ShowModal(
            kind,
            locations,
        ),
        locations@.len() == 0 ==> step_after_query(kind, Ok(locations)) is Stop,
        step_after_query(kind, Err(error)) == OpenStep::LogError(error),
{
}

/// The cache holds the last locations that a picker was opened on: an answer with
/// locations replaces it, an empty answer or an error leaves it.
pub proof fn law_cache_holds_the_last_shown(
    slot: Option<Seq<Location>>,
    locations: Vec<Location>,
    error: String,
)
    ensures
        locations@.len() > 0 ==> slot_after_query(slot, Ok(locations)) == Some(locations@),
        locations@.len() == 0 ==> slot_after_query(slot, Ok(locations)) == slot,
        slot_after_query(slot, Err(error)) == slot,
{
}

/// The toggle action dismisses an open picker; otherwise it reopens the cached locations,
/// even without an active editor; without a cache it does what the open action does.
pub proof fn law_toggle(
    slot: Option<Seq<Location>>,
    kind: LspPickerKind,
    modal_open: bool,
    editor_active: bool,
    step: OpenStep,
)
    requires
        toggles(slot, kind, modal_open, editor_active, step),
    ensures
        modal_open ==> step is HideModal,
        !modal_open && slot is Some ==> (step matches OpenStep::ShowModal(shown, locations) && shown
            == kind && locations@ == slot->Some_0),
        !modal_open && slot is None && editor_active ==> step == OpenStep::RunQuery(kind),
        !modal_open && slot is None && !editor_active ==> step is Stop,
{
}

} // verus!
