//! The state of an open picker: the matches, the rows that show them, the
//! selection, and what a click or a key press does.

use std::collections::HashMap;

use vstd::prelude::*;

use crate::entries;
use crate::entries::Entry;
use crate::filter;
use crate::kind::LspPickerKind;
use crate::location;
use crate::location::{
    BufferSnapshot, LinePosition, Location, LocationMatch, OffsetRange, ProjectPath,
};
use crate::rows;
use crate::rows::MatchedLine;
use crate::sort;
use crate::text;

verus! {

/// A confirmation that follows a change of the selection by less than this is a
/// click.
pub const CLICK_THRESHOLD_MS: u128 = 50;

/// A click on the same row that follows the previous one by less than this is a
/// double click.
pub const DOUBLE_CLICK_THRESHOLD_MS: u128 = 300;

/// The nanoseconds of a millisecond.
pub const NANOS_PER_MILLI: u128 = 1_000_000;

/// The location to open, and whether to open it in a split.
#[derive(Clone, Copy, Debug, PartialEq, Eq, Structural)]
pub struct OpenRequest {
    pub location: Location,
    pub split: bool,
}

/// What the picker does when the selection is confirmed.
#[derive(Clone, Copy, Debug, PartialEq, Eq, Structural)]
pub enum ConfirmAction {
    /// Take the focus back to the picker.
    FocusSelf,
    /// Open the location, then dismiss the picker.
    OpenAndDismiss(OpenRequest),
    /// Leave everything as it is.
    Ignore,
}

/// What the preview pane shows: the buffer of a location, scrolled to a range.
#[derive(Clone, Copy, Debug, PartialEq, Eq, Structural)]
pub struct PreviewUpdate {
    pub location: Location,
    pub range: OffsetRange,
}

/// The row of a match.
#[derive(Debug, PartialEq, Eq)]
pub struct MatchRow {
    pub index: usize,
    pub selected: bool,
    /// The digits that the number column has room for.
    pub gutter_digits: u32,
    pub line_number: String,
    pub line: MatchedLine,
}

/// A row as it is drawn.
#[derive(Debug, PartialEq, Eq)]
pub enum Row {
    Separator,
    Header(ProjectPath),
    Match(MatchRow),
}

/// The whole milliseconds from `then` to `now`, 0 if `now` is the earlier one. Both
/// are in nanoseconds.
pub open spec fn millis_between(then: u128, now: u128) -> int {
    if now >= then {
        (now - then) / NANOS_PER_MILLI as int
    } else {
        0
    }
}

fn elapsed_millis(then: u128, now: u128) -> (millis: u128)
    ensures
        millis == millis_between(then, now),
{
    if now >= then {
        (now - then) / NANOS_PER_MILLI
    } else {
        0
    }
}

/// What a picker holds.
pub struct PickerState {
    pub kind: LspPickerKind,
    /// Every match for this query, in result order.
    pub all_matches: Seq<LocationMatch>,
    /// The part of `all_matches` that passes the current filter query.
    pub matches: Seq<LocationMatch>,
    /// Grouped display rows derived from `matches`.
    pub entries: Seq<Entry>,
    /// The index of the selected row.
    pub selected_index: usize,
    pub max_line_number: u32,
    /// When the selection was last moved, in nanoseconds.
    pub last_selection_change_time: Option<u128>,
    /// The row that was last clicked, and when, in nanoseconds.
    pub last_click: Option<(usize, u128)>,
}

impl PickerState {
    /// This state with `matches` on display and the first of them selected.
    pub open spec fn showing(self, matches: Seq<LocationMatch>) -> PickerState {
        let rows = entries::grouped(matches);
        PickerState {
            matches,
            entries: rows,
            selected_index: match entries::first_match_row(rows) {
                Some(i) => i as usize,
                None => 0,
            },
            max_line_number: entries::largest_line_number(matches),
            ..self
        }
    }

    /// A picker that was just opened on the matches `all_matches`.
    pub open spec fn opened(
        kind: LspPickerKind,
        all_matches: Seq<LocationMatch>,
    ) -> PickerState {
        PickerState {
            kind,
            all_matches,
            matches: Seq::empty(),
            entries: Seq::empty(),
            selected_index: 0,
            max_line_number: 0,
            last_selection_change_time: None,
            last_click: None,
        }.showing(all_matches)
    }

    /// This state after the query `query` was entered.
    pub open spec fn filtered(self, query: Seq<char>) -> PickerState {
        self.showing(filter::hits(self.all_matches, query))
    }

    /// This state after the row `ix` was selected at the time `now`.
    pub open spec fn selecting(self, ix: usize, now: u128) -> PickerState {
        PickerState { selected_index: ix, last_selection_change_time: Some(now), ..self }
    }

    /// The row `ix` is a match.
    pub open spec fn can_select(self, ix: usize) -> bool {
        ix < self.entries.len() && self.entries[ix as int] is Match
    }

    /// The match of the selected row.
    pub open spec fn selected_match(self) -> Option<LocationMatch> {
        if self.selected_index < self.entries.len() {
            match self.entries[self.selected_index as int] {
                Entry::Match(i) if i < self.matches.len() => Some(self.matches[i as int]),
                _ => None,
            }
        } else {
            None
        }
    }

    /// What the preview pane shows.
    pub open spec fn preview(self) -> Option<PreviewUpdate> {
        match self.selected_match() {
            Some(m) => Some(PreviewUpdate { location: m.location, range: m.range }),
            None => None,
        }
    }

    /// What opening the selection does while the workspace is alive or gone.
    pub open spec fn open_action(self, split: bool, workspace_alive: bool) -> ConfirmAction {
        match self.selected_match() {
            Some(m) if workspace_alive => ConfirmAction::OpenAndDismiss(
                OpenRequest { location: m.location, split },
            ),
            _ => ConfirmAction::Ignore,
        }
    }

    /// A confirmation at the time `now` comes from a click.
    pub open spec fn is_click(self, now: u128) -> bool {
        match self.last_selection_change_time {
            Some(then) => millis_between(then, now) < CLICK_THRESHOLD_MS,
            None => false,
        }
    }

    /// A click at the time `now` is the second on the selected row.
    pub open spec fn is_double_click(self, now: u128) -> bool {
        match self.last_click {
            Some((ix, then)) => ix == self.selected_index && millis_between(then, now)
                < DOUBLE_CLICK_THRESHOLD_MS,
            None => false,
        }
    }

    /// This state after a confirmation at the time `now`.
    pub open spec fn confirmed(self, now: u128) -> PickerState {
        if self.is_click(now) {
            PickerState { last_click: Some((self.selected_index, now)), ..self }
        } else {
            self
        }
    }

    /// What a confirmation at the time `now` does.
    pub open spec fn confirm_action(
        self,
        secondary: bool,
        now: u128,
        workspace_alive: bool,
    ) -> ConfirmAction {
        if self.is_click(now) && !self.is_double_click(now) {
            ConfirmAction::FocusSelf
        } else {
            self.open_action(secondary, workspace_alive)
        }
    }

    /// `row` is how the row `ix` is drawn.
    pub open spec fn draws(self, ix: usize, selected: bool, row: Option<Row>) -> bool {
        if ix >= self.entries.len() {
            row is None
        } else {
            match self.entries[ix as int] {
                Entry::Separator => row == Some(Row::Separator),
                Entry::Header(path) => row == Some(Row::Header(path)),
                Entry::Match(i) => if i < self.matches.len() {
                    row matches Some(Row::Match(shown)) && self.draws_match(
                        ix,
                        selected,
                        self.matches[i as int],
                        shown,
                    )
                } else {
                    row is None
                },
            }
        }
    }

    /// `row` is how the match `m` is drawn in the row `ix`.
    pub open spec fn draws_match(
        self,
        ix: usize,
        selected: bool,
        m: LocationMatch,
        row: MatchRow,
    ) -> bool {
        &&& row.index == ix
        &&& row.selected == selected
        &&& row.gutter_digits == vstd::arithmetic::logarithm::log(
            10,
            if self.max_line_number == 0 {
                1
            } else {
                self.max_line_number as int
            },
        ) + 1
        &&& row.line_number@ == text::decimal_of(m.line_number as nat)
        &&& rows::shows(row.line, m)
    }

    /// What holds of every picker: the matches are in order and well formed, those
    /// on display are among all of them, and the rows are theirs.
    pub open spec fn wf(self) -> bool {
        &&& sort::in_order(self.all_matches)
        &&& forall|i: int| 0 <= i < self.all_matches.len() ==> (#[trigger] self.all_matches[i]).wf()
        &&& sort::in_order(self.matches)
        &&& forall|i: int|
            0 <= i < self.matches.len() ==> self.all_matches.contains(#[trigger] self.matches[i])
        &&& self.matches.len() <= self.all_matches.len() <= usize::MAX
        &&& self.entries == entries::grouped(self.matches)
        &&& self.max_line_number == entries::largest_line_number(self.matches)
    }
}

/// An open picker.
#[derive(Debug)]
pub struct LspLocationsDelegate {
    kind: LspPickerKind,
    all_matches: Vec<LocationMatch>,
    matches: Vec<LocationMatch>,
    entries: Vec<Entry>,
    selected_index: usize,
    max_line_number: u32,
    last_selection_change_time: Option<u128>,
    last_click: Option<(usize, u128)>,
}

impl View for LspLocationsDelegate {
    type V = PickerState;

    closed spec fn view(&self) -> PickerState {
        PickerState {
            kind: self.kind,
            all_matches: self.all_matches@,
            matches: self.matches@,
            entries: self.entries@,
            selected_index: self.selected_index,
            max_line_number: self.max_line_number,
            last_selection_change_time: self.last_selection_change_time,
            last_click: self.last_click,
        }
    }
}

impl LspLocationsDelegate {
    /// A picker over the matches of `locations`, all of them on display.
    pub fn new(
        kind: LspPickerKind,
        locations: &Vec<Location>,
        snapshots: &HashMap<u64, BufferSnapshot>,
        positions: &Vec<LinePosition>,
    ) -> (delegate: LspLocationsDelegate)
        requires
            location::resolved(locations@, snapshots@, positions@),
        ensures
            sort::stable_sort(
                location::found_matches(
                    locations@,
                    snapshots@,
                    positions@,
                    locations.len() as int,
                ),
                delegate@.all_matches,
            ),
            delegate@ == PickerState::opened(kind, delegate@.all_matches),
            delegate@.wf(),
    {
        let all_matches = location::build_location_matches(locations, snapshots, positions);
        let mut matches: Vec<LocationMatch> = Vec::with_capacity(all_matches.len());
        let mut i: usize = 0;
        while i < all_matches.len()
            invariant
                i <= all_matches.len(),
                matches@ == all_matches@.take(i as int),
            decreases all_matches.len() - i,
        {
            matches.push(all_matches[i].clone_shallow());
            i += 1;
        }
        assert(matches@ == all_matches@);
        let mut delegate = LspLocationsDelegate {
            kind,
            all_matches,
            matches,
            entries: Vec::new(),
            selected_index: 0,
            max_line_number: 0,
            last_selection_change_time: None,
            last_click: None,
        };
        delegate.rebuild_entries();
        delegate
    }

    /// Rebuilds the grouped rows from the filtered matches: one header per file, its
    /// matches, and a separator before every group after the first. Selection snaps
    /// to the first selectable row.
    pub fn rebuild_entries(&mut self)
        ensures
            final(self)@ == old(self)@.showing(old(self)@.matches),
    {
        self.entries = entries::build_entries(&self.matches);
        self.max_line_number = entries::max_line_number(&self.matches);
        self.selected_index = match self.first_selectable_index() {
            Some(i) => i,
            None => 0,
        };
    }

    /// The index of the first row that can be selected.
    pub fn first_selectable_index(&self) -> (index: Option<usize>)
        ensures
            match index {
                Some(i) => entries::first_match_row(self@.entries) == Some(i as int),
                None => entries::first_match_row(self@.entries) is None,
            },
    {
        entries::first_selectable(&self.entries)
    }

    /// The match of the selected row.
    pub fn selected_location_match(&self) -> (selected: Option<&LocationMatch>)
        ensures
            match selected {
                Some(m) => self@.selected_match() == Some(*m),
                None => self@.selected_match() is None,
            },
    {
        if self.selected_index < self.entries.len() {
            match &self.entries[self.selected_index] {
                Entry::Match(i) => if *i < self.matches.len() {
                    Some(&self.matches[*i])
                } else {
                    None
                },
                Entry::Header(_) => None,
                Entry::Separator => None,
            }
        } else {
            None
        }
    }

    /// What opening the selected location does, in a split or not, while the
    /// workspace is alive or gone.
    pub fn open_selected(&self, split: bool, workspace_alive: bool) -> (action: ConfirmAction)
        ensures
            action == self@.open_action(split, workspace_alive),
    {
        match self.selected_location_match() {
            Some(m) => if workspace_alive {
                ConfirmAction::OpenAndDismiss(OpenRequest { location: m.location, split })
            } else {
                ConfirmAction::Ignore
            },
            None => ConfirmAction::Ignore,
        }
    }

    /// The name under which the picker is known.
    pub fn name() -> (name: &'static str)
        ensures
            name@ == "lsp locations picker"@,
    {
        "lsp locations picker"
    }

    /// What the empty query field shows.
    pub fn placeholder_text(&self) -> (text: &'static str)
        ensures
            text@ == self@.kind.placeholder_chars(),
    {
        self.kind.placeholder()
    }

    /// The number of rows.
    pub fn match_count(&self) -> (count: usize)
        ensures
            count == self@.entries.len(),
    {
        self.entries.len()
    }

    /// Whether the row `ix` can be selected.
    pub fn can_select(&self, ix: usize) -> (selectable: bool)
        ensures
            selectable == self@.can_select(ix),
    {
        if ix < self.entries.len() {
            match &self.entries[ix] {
                Entry::Match(_) => true,
                _ => false,
            }
        } else {
            false
        }
    }

    /// The index of the selected row.
    pub fn selected_index(&self) -> (ix: usize)
        ensures
            ix == self@.selected_index,
    {
        self.selected_index
    }

    /// Whether a row is selected as soon as the pointer is over it.
    pub fn select_on_hover(&self) -> (on_hover: bool)
        ensures
            !on_hover,
    {
        false
    }

    /// Selects the row `ix`; `now` is the time, in nanoseconds.
    pub fn set_selected_index(&mut self, ix: usize, now: u128)
        ensures
            final(self)@ == old(self)@.selecting(ix, now),
            old(self)@.wf() ==> final(self)@.wf(),
    {
        self.selected_index = ix;
        self.last_selection_change_time = Some(now);
    }

    /// Puts the matches on display that the query `query` lets through: those whose
    /// line or path contains it, whatever the case and the white space around it. A
    /// blank query lets all of them through.
    pub fn update_matches(&mut self, query: &str)
        ensures
            final(self)@ == old(self)@.filtered(query@),
            text::trimmed(query@).len() == 0 ==> final(self)@.matches == old(self)@.all_matches,
            old(self)@.wf() ==> final(self)@.wf(),
    {
        self.matches = filter::filter_matches(&self.all_matches, query);
        self.rebuild_entries();
        proof {
            if old(self)@.wf() {
                law_filter_keeps_wf(old(self)@, query@);
            }
        }
    }

    /// What confirming the selection at the time `now`, in nanoseconds, does. A click,
    /// which moves the selection right before it confirms, has to come twice; the
    /// Enter key proceeds immediately.
    pub fn confirm(
        &mut self,
        secondary: bool,
        now: u128,
        workspace_alive: bool,
    ) -> (action: ConfirmAction)
        ensures
            action == old(self)@.confirm_action(secondary, now, workspace_alive),
            final(self)@ == old(self)@.confirmed(now),
            old(self)@.wf() ==> final(self)@.wf(),
    {
        let is_click = match self.last_selection_change_time {
            Some(then) => elapsed_millis(then, now) < CLICK_THRESHOLD_MS,
            None => false,
        };
        if is_click {
            let is_double_click = match self.last_click {
                Some((ix, then)) => ix == self.selected_index && elapsed_millis(then, now)
                    < DOUBLE_CLICK_THRESHOLD_MS,
                None => false,
            };
            self.last_click = Some((self.selected_index, now));
            if !is_double_click {
                return ConfirmAction::FocusSelf;
            }
        }
        self.open_selected(secondary, workspace_alive)
    }

    /// What the preview pane shows for the selected row.
    pub fn try_get_preview_data_for_match(&self) -> (preview: Option<PreviewUpdate>)
        ensures
            preview == self@.preview(),
    {
        match self.selected_location_match() {
            Some(m) => Some(PreviewUpdate { location: m.location, range: m.range }),
            None => None,
        }
    }

    /// How the row `ix` is drawn.
    pub fn render_match(&self, ix: usize, selected: bool) -> (row: Option<Row>)
        requires
            self@.wf(),
        ensures
            self@.draws(ix, selected, row),
    {
        if ix >= self.entries.len() {
            return None;
        }
        match &self.entries[ix] {
            Entry::Separator => Some(Row::Separator),
            Entry::Header(path) => Some(Row::Header(path.clone())),
            Entry::Match(i) => {
                if *i >= self.matches.len() {
                    return None;
                }
                let m = &self.matches[*i];
                assert(self@.all_matches.contains(self@.matches[*i as int]));
                Some(
                    Row::Match(
                        MatchRow {
                            index: ix,
                            selected,
                            gutter_digits: rows::gutter_digits(self.max_line_number),
                            line_number: text::decimal(m.line_number),
                            line: rows::matched_line(m),
                        },
                    ),
                )
            },
        }
    }
}

/// The matches that pass a filter are among the matches, and stay in order.
proof fn lemma_hits_in_order(matches: Seq<LocationMatch>, pred: spec_fn(LocationMatch) -> bool)
    requires
        sort::in_order(matches),
    ensures
        sort::in_order(matches.filter(pred)),
        matches.filter(pred).len() <= matches.len(),
        forall|i: int|
            0 <= i < matches.filter(pred).len() ==> matches.contains(
                #[trigger] matches.filter(pred)[i],
            ),
    decreases matches.len(),
{
    reveal(Seq::filter);
    if matches.len() > 0 {
        let front = matches.drop_last();
        lemma_hits_in_order(front, pred);
        let before = front.filter(pred);
        let kept = matches.filter(pred);
        assert forall|i: int| 0 <= i < kept.len() implies matches.contains(
            #[trigger] kept[i],
        ) by {
            if i < before.len() {
                assert(front.contains(before[i]));
                let k = front.index_of(before[i]);
                assert(matches[k] == kept[i]);
            } else {
                assert(matches[matches.len() - 1] == kept[i]);
            }
        }
        assert forall|i: int, j: int| 0 <= i < j < kept.len() implies sort::may_precede(
            kept[i],
            kept[j],
        ) by {
            assert(kept[i] == before[i]);
            if j < before.len() {
                assert(kept[j] == before[j]);
            } else {
                assert(front.contains(before[i]));
                let k = front.index_of(before[i]);
                assert(matches[k] == kept[i]);
                assert(sort::may_precede(matches[k], matches[matches.len() - 1]));
            }
        }
    }
}

/// Filtering keeps the picker well formed; in particular the matches on display stay
/// in order.
pub proof fn law_filter_keeps_wf(state: PickerState, query: Seq<char>)
    requires
        state.wf(),
    ensures
        state.filtered(query).wf(),
{
    lemma_hits_in_order(
        state.all_matches,
        |m: LocationMatch| filter::is_hit(filter::normalized(query), m),
    );
}

/// Exactly the matches that pass the query are on display.
pub proof fn law_filter_shows_the_hits(state: PickerState, query: Seq<char>, m: LocationMatch)
    ensures
        state.filtered(query).matches.contains(m) <==> state.all_matches.contains(m)
            && filter::is_hit(filter::normalized(query), m),
{
    let pred = |m: LocationMatch| filter::is_hit(filter::normalized(query), m);
    let kept = state.all_matches.filter(pred);
    if kept.contains(m) {
        state.all_matches.lemma_filter_contains_rev(pred, m);
        state.all_matches.lemma_filter_pred(pred, kept.index_of(m));
    }
    if state.all_matches.contains(m) && pred(m) {
        state.all_matches.lemma_filter_contains(pred, state.all_matches.index_of(m));
    }
}

/// A query is answered from all matches, whatever query came before it.
pub proof fn law_filter_starts_afresh(state: PickerState, first: Seq<char>, second: Seq<char>)
    ensures
        state.filtered(first).filtered(second) == state.filtered(second),
{
}

/// Two queries that read the same in lower case, without the white space around them,
/// show the same.
pub proof fn law_filter_ignores_case(state: PickerState, a: Seq<char>, b: Seq<char>)
    requires
        text::lowercase(text::trimmed(a)) == text::lowercase(text::trimmed(b)),
    ensures
        state.filtered(a) == state.filtered(b),
{
}

/// Whenever the rows were rebuilt and there is a match, a match is selected: the
/// first one. Without matches none is.
pub proof fn law_selection_snaps_to_first_match(state: PickerState, matches: Seq<LocationMatch>)
    requires
        matches.len() <= usize::MAX,
    ensures
        matches.len() > 0 ==> state.showing(matches).selected_match() == Some(matches[0]),
        matches.len() > 0 ==> state.showing(matches).can_select(
            state.showing(matches).selected_index,
        ),
        matches.len() == 0 ==> state.showing(matches).selected_match() is None,
{
    entries::law_first_match_row(matches);
    entries::law_well_grouped(matches);
    let rows = entries::grouped(matches);
    if matches.len() > 0 {
        entries::lemma_second_row(matches);
    }
}

/// A row can be selected exactly if selecting it gives a match to preview and to
/// open.
pub proof fn law_selectable_rows_open(state: PickerState, ix: usize, now: u128, split: bool)
    requires
        state.wf(),
    ensures
        state.can_select(ix) <==> state.selecting(ix, now).preview() is Some,
        state.can_select(ix) <==> state.selecting(ix, now).open_action(split, true)
            is OpenAndDismiss,
{
    entries::law_well_grouped(state.matches);
    if ix < state.entries.len() {
        assert(state.entries[ix as int] is Match ==> state.entries[ix as int]->Match_0
            < state.matches.len());
    }
}

/// What is opened is what the preview shows.
pub proof fn law_opens_what_is_previewed(state: PickerState, split: bool)
    ensures
        match state.open_action(split, true) {
            ConfirmAction::OpenAndDismiss(request) => {
                &&& request.split == split
                &&& state.preview() matches Some(preview) && preview.location == request.location
            },
            ConfirmAction::FocusSelf => false,
            ConfirmAction::Ignore => state.preview() is None,
        },
{
}

/// A single click selects its row and opens nothing: a confirmation right after the
/// selection moved to a row that was not clicked shortly before only takes the
/// focus.
pub proof fn law_single_click_only_focuses(
    state: PickerState,
    ix: usize,
    pressed: u128,
    now: u128,
    secondary: bool,
    alive: bool,
)
    requires
        millis_between(pressed, now) < CLICK_THRESHOLD_MS,
        match state.last_click {
            Some((last, then)) => last != ix || millis_between(then, now)
                >= DOUBLE_CLICK_THRESHOLD_MS,
            None => true,
        },
    ensures
        state.selecting(ix, pressed).confirm_action(secondary, now, alive)
            == ConfirmAction::FocusSelf,
        state.selecting(ix, pressed).confirmed(now).selected_index == ix,
{
}

/// Two clicks on one row in short succession open it, whatever the first of them did.
pub proof fn law_double_click_opens(
    state: PickerState,
    ix: usize,
    first_pressed: u128,
    first: u128,
    second_pressed: u128,
    second: u128,
    secondary: bool,
    alive: bool,
)
    requires
        millis_between(first_pressed, first) < CLICK_THRESHOLD_MS,
        millis_between(second_pressed, second) < CLICK_THRESHOLD_MS,
        millis_between(first, second) < DOUBLE_CLICK_THRESHOLD_MS,
    ensures
        ({
            let clicked = state.selecting(ix, first_pressed).confirmed(first).selecting(
                ix,
                second_pressed,
            );
            clicked.confirm_action(secondary, second, alive) == clicked.open_action(
                secondary,
                alive,
            )
        }),
{
}

/// A confirmation that does not follow a move of the selection at once, as the Enter
/// key gives it, proceeds immediately and leaves the state as it was.
pub proof fn law_enter_opens_at_once(
    state: PickerState,
    now: u128,
    secondary: bool,
    alive: bool,
)
    requires
        match state.last_selection_change_time {
            Some(then) => millis_between(then, now) >= CLICK_THRESHOLD_MS,
            None => true,
        },
    ensures
        state.confirm_action(secondary, now, alive) == state.open_action(secondary, alive),
        state.confirmed(now) == state,
{
}

/// The number of every match on display fits into the number column.
pub proof fn law_numbers_fit_the_column(state: PickerState, ix: usize, row: MatchRow)
    requires
        state.wf(),
        state.draws(ix, row.selected, Some(Row::Match(row))),
    ensures
        row.line_number@.len() <= row.gutter_digits,
{
    entries::law_largest_line_number(state.matches);
    let i = state.entries[ix as int]->Match_0;
    assert(state.matches[i as int].line_number <= state.max_line_number);
    rows::law_line_number_fits(state.matches[i as int].line_number, state.max_line_number);
}

/// Every row of a picker can be drawn, and only the rows of matches are selectable.
pub proof fn law_every_row_is_drawn(
    state: PickerState,
    ix: usize,
    selected: bool,
    row: Option<Row>,
)
    requires
        state.wf(),
        state.draws(ix, selected, row),
    ensures
        row is Some <==> ix < state.entries.len(),
        (row matches Some(Row::Match(_))) <==> state.can_select(ix),
{
    entries::law_well_grouped(state.matches);
}

/// In a picker whose matches start on their lines, the highlight of a drawn match is the
/// range of the match within its line, moved to the left by what was trimmed off.
pub proof fn law_drawn_highlight_is_the_shifted_range(
    state: PickerState,
    ix: usize,
    row: MatchRow,
)
    requires
        state.wf(),
        forall|i: int|
            0 <= i < state.all_matches.len() ==> (#[trigger] state.all_matches[i]).starts_on_line(),
        state.draws(ix, row.selected, Some(Row::Match(row))),
    ensures
        ({
            let m = state.matches[state.entries[ix as int]->Match_0 as int];
            let trimmed = rows::trim_offset(m);
            &&& row.line.highlight.start == rows::less(m.relative_range.start as int, trimmed)
            &&& row.line.highlight.end == rows::less(m.relative_range.end as int, trimmed)
            &&& row.line.highlight.start <= text::byte_len(row.line.text@)
            &&& row.line.highlight.end <= text::byte_len(row.line.text@)
        }),
{
    let m = state.matches[state.entries[ix as int]->Match_0 as int];
    assert(state.all_matches.contains(m));
    rows::law_highlight_is_the_shifted_range(m, row.line);
}

/// Every match on display has a row that can be selected, and selecting it opens the
/// match's location.
pub proof fn law_every_match_can_be_opened(state: PickerState, i: int, now: u128, split: bool)
    requires
        state.wf(),
        state.entries.len() <= usize::MAX,
        0 <= i < state.matches.len(),
    ensures
        exists|ix: usize|
            {
                &&& #[trigger] state.can_select(ix)
                &&& state.selecting(ix, now).open_action(split, true)
                    == ConfirmAction::OpenAndDismiss(
                    OpenRequest { location: state.matches[i].location, split },
                )
            },
{
    let is_match = |e: Entry| e is Match;
    entries::law_each_match_has_one_row(state.matches);
    let shown = state.entries.filter(is_match);
    assert(shown[i] == Entry::Match(i as usize));
    assert(shown.contains(Entry::Match(i as usize)));
    state.entries.lemma_filter_contains_rev(is_match, Entry::Match(i as usize));
    let k = state.entries.index_of(Entry::Match(i as usize));
    assert(state.can_select(k as usize));
}

/// Every file of a picker has one header, in the order of the files.
pub proof fn law_one_header_per_file(state: PickerState)
    requires
        state.wf(),
    ensures
        entries::headers_ascend(state.entries),
{
    entries::law_one_header_per_file(state.matches);
}

/// The milliseconds between two times are the whole milliseconds that have passed.
pub proof fn law_millis_between(then: u128, now: u128)
    ensures
        now >= then ==> millis_between(then, now) * 1_000_000 <= now - then < (millis_between(
            then,
            now,
        ) + 1) * 1_000_000,
        now < then ==> millis_between(then, now) == 0,
{
}

/// Selecting a row changes the selection and the time at which it changed, and nothing
/// else.
pub proof fn law_selecting(state: PickerState, ix: usize, now: u128)
    ensures
        ({
            let after = state.selecting(ix, now);
            &&& after.selected_index == ix
            &&& after.last_selection_change_time == Some(now)
            &&& after.kind == state.kind
            &&& after.all_matches == state.all_matches
            &&& after.matches == state.matches
            &&& after.entries == state.entries
            &&& after.max_line_number == state.max_line_number
            &&& after.last_click == state.last_click
        }),
{
}

/// Putting matches on display shows these matches, in rows that hold each of them once
/// and in order, with the first of them selected; what was found and what was clicked
/// stays.
pub proof fn law_showing(state: PickerState, matches: Seq<LocationMatch>)
    requires
        matches.len() <= usize::MAX,
    ensures
        ({
            let after = state.showing(matches);
            &&& after.matches == matches
            &&& after.entries.filter(|e: Entry| e is Match) == Seq::new(
                matches.len(),
                |i: int| Entry::Match(i as usize),
            )
            &&& matches.len() > 0 ==> after.selected_index < after.entries.len()
                && after.entries[after.selected_index as int] == Entry::Match(0)
            &&& matches.len() == 0 ==> after.entries.len() == 0 && after.selected_index == 0
                && after.max_line_number == 0
            &&& forall|i: int|
                0 <= i < matches.len() ==> (#[trigger] matches[i]).line_number
                    <= after.max_line_number
            &&& after.kind == state.kind
            &&& after.all_matches == state.all_matches
            &&& after.last_selection_change_time == state.last_selection_change_time
            &&& after.last_click == state.last_click
        }),
{
    entries::law_each_match_has_one_row(matches);
    entries::law_first_match_row(matches);
    entries::law_largest_line_number(matches);
    if matches.len() > 0 {
        entries::lemma_second_row(matches);
    }
}

/// A picker opens with all its matches on display and nothing clicked.
pub proof fn law_opened(kind: LspPickerKind, all_matches: Seq<LocationMatch>)
    requires
        all_matches.len() <= usize::MAX,
    ensures
        ({
            let state = PickerState::opened(kind, all_matches);
            &&& state.kind == kind
            &&& state.all_matches == all_matches
            &&& state.matches == all_matches
            &&& state.last_selection_change_time is None
            &&& state.last_click is None
            &&& all_matches.len() > 0 ==> state.selected_index < state.entries.len()
                && state.entries[state.selected_index as int] == Entry::Match(0)
        }),
{
    entries::law_first_match_row(all_matches);
    if all_matches.len() > 0 {
        entries::lemma_second_row(all_matches);
    }
}

/// The row of a match can be selected; a header, a separator and what lies behind the last
/// row cannot.
pub proof fn law_can_select(state: PickerState, ix: usize)
    ensures
        ix >= state.entries.len() ==> !state.can_select(ix),
        ix < state.entries.len() ==> match state.entries[ix as int] {
            Entry::Match(_) => state.can_select(ix),
            Entry::Header(_) => !state.can_select(ix),
            Entry::Separator => !state.can_select(ix),
        },
{
}

/// The row of the match `i` selects, previews and opens the match `i`: the preview shows
/// its range in the buffer, and its location is opened, in a split if that was asked for.
pub proof fn law_match_row_selects_its_match(state: PickerState, i: usize, split: bool, alive: bool)
    requires
        state.selected_index < state.entries.len(),
        state.entries[state.selected_index as int] == Entry::Match(i),
        i < state.matches.len(),
    ensures
        state.selected_match() == Some(state.matches[i as int]),
        state.preview() matches Some(preview) && preview.location
            == state.matches[i as int].location && preview.range.start
            == state.matches[i as int].range.start && preview.range.end
            == state.matches[i as int].range.end,
        alive ==> (state.open_action(split, alive) matches ConfirmAction::OpenAndDismiss(request)
            && request.location == state.matches[i as int].location && request.split == split),
        !alive ==> state.open_action(split, alive) == ConfirmAction::Ignore,
{
}

/// Where no match is selected there is nothing to preview and nothing to open.
pub proof fn law_no_match_selected(state: PickerState, split: bool, alive: bool)
    requires
        state.selected_index >= state.entries.len() || !(
        state.entries[state.selected_index as int] is Match),
    ensures
        state.selected_match() is None,
        state.preview() is None,
        state.open_action(split, alive) == ConfirmAction::Ignore,
{
}

/// Selecting a row and opening it opens the location of the line that is drawn in it, and
/// the preview shows that location, at the range of the match in the buffer.
pub proof fn law_opens_the_drawn_line(
    state: PickerState,
    ix: usize,
    now: u128,
    split: bool,
    row: MatchRow,
)
    requires
        state.wf(),
        state.draws(ix, row.selected, Some(Row::Match(row))),
    ensures
        state.selecting(ix, now).open_action(split, true) matches ConfirmAction::OpenAndDismiss(
            request,
        ) && request.location == row.line.location && request.split == split,
        state.selecting(ix, now).preview() matches Some(preview) && preview.location
            == row.line.location,
        exists|i: int|
            {
                &&& 0 <= i < state.matches.len()
                &&& state.entries[ix as int] == Entry::Match(i as usize)
                &&& (#[trigger] state.matches[i]).location == row.line.location
                &&& state.selecting(ix, now).preview()->Some_0.range == state.matches[i].range
            },
{
    let i = state.entries[ix as int]->Match_0;
    law_match_row_selects_its_match(state.selecting(ix, now), i, split, true);
    assert(state.all_matches.contains(state.matches[i as int]));
    rows::law_shown_text(state.matches[i as int], row.line);
    assert(state.matches[i as int].location == row.line.location);
}

/// What is drawn in a row: a header row names its file; the row of a match shows the
/// match's line and its number, which reads back as the match's line number.
pub proof fn law_drawn_row(state: PickerState, ix: usize, selected: bool, row: Option<Row>)
    requires
        state.wf(),
        state.draws(ix, selected, row),
    ensures
        ix >= state.entries.len() ==> row is None,
        ix < state.entries.len() ==> match state.entries[ix as int] {
            Entry::Separator => row == Some(Row::Separator),
            Entry::Header(path) => row == Some(Row::Header(path)),
            Entry::Match(i) => {
                &&& i < state.matches.len()
                &&& row matches Some(Row::Match(shown)) && {
                    let m = state.matches[i as int];
                    &&& shown.index == ix
                    &&& shown.selected == selected
                    &&& shown.line.location == m.location
                    &&& shown.line_number@.fold_left(
                        0int,
                        |v: int, c: char| v * 10 + (c as int - 48),
                    ) == m.line_number
                    &&& forall|k: int|
                        0 <= k < shown.line_number@.len() ==> '0'
                            <= #[trigger] shown.line_number@[k] <= '9'
                    &&& shown.line_number@.len() > 1 ==> shown.line_number@[0] != '0'
                    &&& m.line_text@ == m.line_text@.take(
                        m.line_text@.len() - shown.line.text@.len(),
                    ) + shown.line.text@
                    &&& forall|k: int|
                        0 <= k < m.line_text@.len() - shown.line.text@.len() ==> text::white_space(
                            #[trigger] m.line_text@[k],
                        )
                    &&& shown.line.text@.len() > 0 ==> !text::white_space(shown.line.text@[0])
                    &&& shown.line.visible.end == m.range.start - m.relative_range.start
                        + text::byte_len(m.line_text@)
                    &&& shown.line.visible.start + text::byte_len(shown.line.text@)
                        == shown.line.visible.end
                }
            },
        },
{
    if ix < state.entries.len() && state.entries[ix as int] is Match {
        entries::law_well_grouped(state.matches);
        let i = state.entries[ix as int]->Match_0;
        assert(i < state.matches.len());
        let m = state.matches[i as int];
        assert(state.all_matches.contains(m));
        let shown = row->Some_0->Match_0;
        text::law_decimal_reads_back(m.line_number as nat);
        rows::law_shown_text(m, shown.line);
        let k = choose|k: int|
            {
                &&& 0 <= k <= m.line_text@.len()
                &&& shown.line.text@ == #[trigger] m.line_text@.skip(k)
                &&& forall|i: int| 0 <= i < k ==> text::white_space(#[trigger] m.line_text@[i])
                &&& k < m.line_text@.len() ==> !text::white_space(m.line_text@[k])
            };
        assert(k == m.line_text@.len() - shown.line.text@.len());
        assert(m.line_text@ =~= m.line_text@.take(k) + shown.line.text@);
    }
}

/// The number column is no wider than needed: one of the matches on display has a number
/// of just as many digits.
pub proof fn law_number_column_is_tight(state: PickerState, ix: usize, row: MatchRow)
    requires
        state.wf(),
        state.draws(ix, row.selected, Some(Row::Match(row))),
    ensures
        exists|i: int|
            0 <= i < state.matches.len() && text::decimal_of(
                (#[trigger] state.matches[i]).line_number as nat,
            ).len() == row.gutter_digits,
{
    entries::law_largest_line_number(state.matches);
    text::lemma_decimal_len(state.max_line_number as nat);
    let i = choose|i: int|
        0 <= i < state.matches.len() && (#[trigger] state.matches[i]).line_number
            == entries::largest_line_number(state.matches);
    assert(text::decimal_of(state.matches[i].line_number as nat).len() == row.gutter_digits);
}

/// What a confirmation does, in nanoseconds: less than 50,000,000 after the selection
/// moved it is a click, and a click opens only less than 300,000,000 after a click on the
/// same row; any other confirmation opens at once. What is opened is the match of the
/// selected row, in a split if that was asked for; without a match or a workspace nothing
/// happens.
pub proof fn law_confirm(state: PickerState, secondary: bool, now: u128, alive: bool)
    ensures
        ({
            let clicked = state.last_selection_change_time is Some && now
                < state.last_selection_change_time->Some_0 + 50_000_000;
            let again = state.last_click is Some && state.last_click->Some_0.0
                == state.selected_index && now < state.last_click->Some_0.1 + 300_000_000;
            let row = state.entries[state.selected_index as int];
            let on_match = state.selected_index < state.entries.len() && row is Match
                && row->Match_0 < state.matches.len();
            let action = state.confirm_action(secondary, now, alive);
            &&& clicked && !again ==> action == ConfirmAction::FocusSelf
            &&& (!clicked || again) && on_match && alive ==> action
                == ConfirmAction::OpenAndDismiss(
                OpenRequest {
                    location: state.matches[row->Match_0 as int].location,
                    split: secondary,
                },
            )
            &&& (!clicked || again) && !(on_match && alive) ==> action == ConfirmAction::Ignore
        }),
{
}

/// A confirmation remembers a click, with its row and its time, and changes nothing else.
pub proof fn law_confirmed(state: PickerState, now: u128)
    ensures
        ({
            let after = state.confirmed(now);
            let clicked = state.last_selection_change_time is Some && now
                < state.last_selection_change_time->Some_0 + 50_000_000;
            &&& clicked ==> after.last_click == Some((state.selected_index, now))
            &&& !clicked ==> after.last_click == state.last_click
            &&& after.kind == state.kind
            &&& after.all_matches == state.all_matches
            &&& after.matches == state.matches
            &&& after.entries == state.entries
            &&& after.selected_index == state.selected_index
            &&& after.max_line_number == state.max_line_number
            &&& after.last_selection_change_time == state.last_selection_change_time
        }),
{
}

/// A match in whose line the trimmed query stands, both in lower case, is on display
/// whatever its path is.
pub proof fn law_line_hit_is_shown(state: PickerState, query: Seq<char>, m: LocationMatch, at: int)
    requires
        state.all_matches.contains(m),
        0 <= at,
        ({
            let sought = text::lowercase(text::trimmed(query));
            let line = text::lowercase(m.line_text@);
            at + sought.len() <= line.len() && line.subrange(at, at + sought.len()) == sought
        }),
    ensures
        state.filtered(query).matches.contains(m),
{
    filter::law_passes_by_line(
        text::lowercase(text::trimmed(query)),
        text::lowercase(m.line_text@),
        text::lowercase(m.path.unix_path@),
        at,
    );
    law_filter_shows_the_hits(state, query, m);
}

/// A match in whose path the trimmed query stands, both in lower case, is on display
/// whatever its line is.
pub proof fn law_path_hit_is_shown(state: PickerState, query: Seq<char>, m: LocationMatch, at: int)
    requires
        state.all_matches.contains(m),
        0 <= at,
        ({
            let sought = text::lowercase(text::trimmed(query));
            let path = text::lowercase(m.path.unix_path@);
            at + sought.len() <= path.len() && path.subrange(at, at + sought.len()) == sought
        }),
    ensures
        state.filtered(query).matches.contains(m),
{
    filter::law_passes_by_path(
        text::lowercase(text::trimmed(query)),
        text::lowercase(m.line_text@),
        text::lowercase(m.path.unix_path@),
        at,
    );
    law_filter_shows_the_hits(state, query, m);
}

/// A match in whose line and path the query stands nowhere is not on display.
pub proof fn law_miss_is_hidden(state: PickerState, query: Seq<char>, m: LocationMatch)
    requires
        ({
            let sought = text::lowercase(text::trimmed(query));
            let line = text::lowercase(m.line_text@);
            let path = text::lowercase(m.path.unix_path@);
            &&& sought.len() > 0
            &&& forall|at: int|
                0 <= at && at + sought.len() <= line.len() ==> #[trigger] line.subrange(
                    at,
                    at + sought.len(),
                ) != sought
            &&& forall|at: int|
                0 <= at && at + sought.len() <= path.len() ==> #[trigger] path.subrange(
                    at,
                    at + sought.len(),
                ) != sought
        }),
    ensures
        !state.filtered(query).matches.contains(m),
{
    filter::law_misses(
        text::lowercase(text::trimmed(query)),
        text::lowercase(m.line_text@),
        text::lowercase(m.path.unix_path@),
    );
    law_filter_shows_the_hits(state, query, m);
}

/// Entering a query keeps what was found, what was clicked and when, and selects the first
/// match that is left.
pub proof fn law_filtered(state: PickerState, query: Seq<char>)
    requires
        state.wf(),
    ensures
        ({
            let after = state.filtered(query);
            &&& after.kind == state.kind
            &&& after.all_matches == state.all_matches
            &&& after.last_selection_change_time == state.last_selection_change_time
            &&& after.last_click == state.last_click
            &&& exists|origin: Seq<int>| #[trigger]
                filter::keeps_order(after.matches, state.all_matches, origin)
            &&& after.matches.len() > 0 ==> after.selected_index < after.entries.len()
                && after.entries[after.selected_index as int] == Entry::Match(0)
        }),
{
    law_filter_keeps_wf(state, query);
    law_showing(state, state.filtered(query).matches);
    filter::law_hits_keep_order(state.all_matches, query);
}

/// The preview of a picker over `locations` shows one of them, at the offsets at which its
/// two ends lie in its buffer.
pub proof fn law_preview_shows_the_location_in_its_buffer(
    locations: Seq<Location>,
    snapshots: Map<u64, BufferSnapshot>,
    positions: Seq<LinePosition>,
    state: PickerState,
)
    requires
        location::resolved(locations, snapshots, positions),
        sort::stable_sort(
            location::found_matches(locations, snapshots, positions, locations.len() as int),
            state.all_matches,
        ),
        state.wf(),
        state.preview() is Some,
    ensures
        exists|i: int|
            {
                &&& 0 <= i < locations.len()
                &&& snapshots[locations[i].buffer].file is Some
                &&& state.preview()->Some_0.location == #[trigger] locations[i]
                &&& state.preview()->Some_0.range.start == positions[i].start_offset
                &&& state.preview()->Some_0.range.end == positions[i].end_offset
            },
{
    let k = state.entries[state.selected_index as int]->Match_0;
    let m = state.matches[k as int];
    law_match_row_selects_its_match(state, k, false, true);
    assert(state.all_matches.contains(m));
    location::law_lists_every_location_in_a_file(
        locations,
        snapshots,
        positions,
        state.all_matches,
        m,
    );
    let i = choose|i: int| #[trigger]
        location::is_match_of(locations, snapshots, positions, i, m);
    location::law_match_describes_its_location(
        locations[i],
        snapshots[locations[i].buffer].file->Some_0,
        positions[i],
    );
}

} // verus!
