//! The locations of a query's answer, and the matches that the picker lists for
//! them.

use std::collections::HashMap;

use vstd::prelude::*;

use crate::sort;
use crate::text;

verus! {

/// A location as the language server gave it. The editor holds what the two
/// numbers stand for.
#[derive(Clone, Copy, Debug, PartialEq, Eq, Structural)]
pub struct Location {
    /// The identity of the buffer that the location lies in.
    pub buffer: u64,
    /// The place under which the editor keeps the anchors of the location's two
    /// ends; they follow the edits of the buffer.
    pub anchors: usize,
}

/// The half-open range of byte offsets from `start` to `end`.
#[derive(Clone, Copy, Debug, PartialEq, Eq, Structural)]
pub struct OffsetRange {
    pub start: usize,
    pub end: usize,
}

/// A file of the project.
#[derive(Debug, PartialEq, Eq)]
pub struct ProjectPath {
    /// The place of the file in the project's own order of its paths. Two paths
    /// name the same file exactly if their ranks agree.
    pub rank: usize,
    /// The path inside its worktree, with `/` between its parts.
    pub unix_path: String,
}

impl ProjectPath {
    pub open spec fn same_file(self, other: ProjectPath) -> bool {
        self.rank == other.rank
    }
}

impl Clone for ProjectPath {
    fn clone(&self) -> (path: ProjectPath)
        ensures
            path == *self,
    {
        ProjectPath { rank: self.rank, unix_path: self.unix_path.clone() }
    }
}

/// What the picker reads of a buffer's snapshot.
#[derive(Debug, PartialEq, Eq)]
pub struct BufferSnapshot {
    /// The file of the buffer, if it has one.
    pub file: Option<ProjectPath>,
}

/// Where a location lies in the snapshot of its buffer.
#[derive(Debug, PartialEq, Eq)]
pub struct LinePosition {
    /// The offsets of the location's two ends in the buffer.
    pub start_offset: usize,
    pub end_offset: usize,
    /// The row of the location's start, counted from 0.
    pub row: u32,
    /// The offset in the buffer at which that row starts.
    pub line_start: usize,
    /// The text of that row.
    pub line_text: String,
}

impl LinePosition {
    /// Both ends lie at or behind the start of the row, and the row's end and its
    /// number are in range.
    pub open spec fn consistent(self) -> bool {
        &&& self.line_start <= self.start_offset
        &&& self.line_start <= self.end_offset
        &&& self.line_start + text::byte_len(self.line_text@) <= usize::MAX
        &&& self.row < u32::MAX
    }

    /// The location starts on the row, its end included.
    pub open spec fn starts_on_row(self) -> bool {
        self.start_offset <= self.line_start + text::byte_len(self.line_text@)
    }

    pub fn is_consistent(&self) -> (b: bool)
        ensures
            b == self.consistent(),
    {
        self.line_start <= self.start_offset && self.line_start <= self.end_offset
            && text::len_in_bytes(self.line_text.as_str()) <= usize::MAX - self.line_start
            && self.row < u32::MAX
    }
}

/// A single location result, with the data the row and the preview need.
#[derive(Debug, PartialEq, Eq)]
pub struct LocationMatch {
    pub path: ProjectPath,
    pub location: Location,
    /// Offset range of the match within the buffer (used to scroll the preview).
    pub range: OffsetRange,
    /// Offset range of the match within its line (used to highlight the row).
    pub relative_range: OffsetRange,
    pub line_text: String,
    pub line_number: u32,
}

impl LocationMatch {
    /// The offset in the buffer at which the line of the match starts.
    pub open spec fn line_start(self) -> int {
        self.range.start - self.relative_range.start
    }

    /// The line's two ends are offsets.
    pub open spec fn line_in_range(self) -> bool {
        0 <= self.line_start() && self.line_start() + text::byte_len(self.line_text@) <= usize::MAX
    }

    /// The two ranges agree on where the line starts, the match ends no earlier than
    /// its line starts, and lines are counted from 1.
    pub open spec fn wf(self) -> bool {
        &&& self.line_in_range()
        &&& self.line_start() <= self.range.end
        &&& self.relative_range.end == min_of(
            self.range.end - self.line_start(),
            text::byte_len(self.line_text@) as int,
        )
        &&& self.line_number > 0
    }

    /// The match starts on its line, the line's end included.
    pub open spec fn starts_on_line(self) -> bool {
        self.relative_range.start <= text::byte_len(self.line_text@)
    }

    /// A copy that stands for the same location. Used when rebuilding the filtered
    /// match list.
    pub fn clone_shallow(&self) -> (copy: LocationMatch)
        ensures
            copy == *self,
    {
        LocationMatch {
            path: self.path.clone(),
            location: self.location,
            range: self.range,
            relative_range: self.relative_range,
            line_text: self.line_text.clone(),
            line_number: self.line_number,
        }
    }
}

pub open spec fn min_of(a: int, b: int) -> int {
    if a <= b {
        a
    } else {
        b
    }
}

/// The values of `s` without repetition, each at the place of its first occurrence.
pub open spec fn distinct(s: Seq<u64>) -> Seq<u64>
    decreases s.len(),
{
    if s.len() == 0 {
        s
    } else {
        let before = distinct(s.drop_last());
        if before.contains(s.last()) {
            before
        } else {
            before.push(s.last())
        }
    }
}

/// The buffers of `locations`, one for each location.
pub open spec fn buffers_of(locations: Seq<Location>) -> Seq<u64> {
    locations.map_values(|location: Location| location.buffer)
}

/// The buffers whose snapshots a picker over `locations` reads, each of them once.
pub fn buffers_to_read(locations: &Vec<Location>) -> (buffers: Vec<u64>)
    ensures
        buffers@ == distinct(buffers_of(locations@)),
{
    let mut buffers: Vec<u64> = Vec::new();
    let mut seen: HashMap<u64, ()> = HashMap::new();
    let ghost all = buffers_of(locations@);
    let mut i: usize = 0;
    while i < locations.len()
        invariant
            i <= locations.len(),
            all == buffers_of(locations@),
            buffers@ == distinct(all.take(i as int)),
            forall|b: u64| seen@.contains_key(b) <==> buffers@.contains(b),
        decreases locations.len() - i,
    {
        broadcast use vstd::std_specs::hash::group_hash_axioms;

        let buffer: u64 = locations[i].buffer;
        assert(all.take(i + 1).drop_last() == all.take(i as int));
        assert(all.take(i + 1).last() == buffer);
        if !seen.contains_key(&buffer) {
            let ghost before = buffers@;
            seen.insert(buffer, ());
            buffers.push(buffer);
            assert forall|b: u64| seen@.contains_key(b) <==> buffers@.contains(b) by {
                assert(buffers@[before.len() as int] == buffer);
                if before.contains(b) {
                    let k = before.index_of(b);
                    assert(buffers@[k] == b);
                }
            }
        }
        i += 1;
    }
    assert(all.take(i as int) == all);
    buffers
}


/// The match listed for a location of the file `path` that lies at `position`.
pub open spec fn match_for(
    location: Location,
    path: ProjectPath,
    position: LinePosition,
) -> LocationMatch {
    LocationMatch {
        path,
        location,
        range: OffsetRange { start: position.start_offset, end: position.end_offset },
        relative_range: OffsetRange {
            start: (position.start_offset - position.line_start) as usize,
            end: min_of(
                position.end_offset - position.line_start,
                text::byte_len(position.line_text@) as int,
            ) as usize,
        },
        line_text: position.line_text,
        line_number: (position.row + 1) as u32,
    }
}

/// The matches of the first `n` locations, one for each location whose buffer has a
/// file, in the order of the locations.
pub open spec fn found_matches(
    locations: Seq<Location>,
    snapshots: Map<u64, BufferSnapshot>,
    positions: Seq<LinePosition>,
    n: int,
) -> Seq<LocationMatch>
    decreases n,
{
    if n <= 0 {
        Seq::empty()
    } else {
        let before = found_matches(locations, snapshots, positions, n - 1);
        match snapshots[locations[n - 1].buffer].file {
            Some(path) => before.push(match_for(locations[n - 1], path, positions[n - 1])),
            None => before,
        }
    }
}

/// Every location has a snapshot of its buffer and a position, and the position of
/// each location in a file is consistent.
pub open spec fn resolved(
    locations: Seq<Location>,
    snapshots: Map<u64, BufferSnapshot>,
    positions: Seq<LinePosition>,
) -> bool {
    &&& positions.len() == locations.len()
    &&& forall|i: int|
        0 <= i < locations.len() ==> {
            &&& snapshots.contains_key((#[trigger] locations[i]).buffer)
            &&& snapshots[locations[i].buffer].file is Some ==> positions[i].consistent()
        }
}

/// Converts the flat list of locations into matches, grouped by file and ordered by
/// position. A location whose buffer has no file is left out.
pub fn build_location_matches(
    locations: &Vec<Location>,
    snapshots: &HashMap<u64, BufferSnapshot>,
    positions: &Vec<LinePosition>,
) -> (matches: Vec<LocationMatch>)
    requires
        resolved(locations@, snapshots@, positions@),
    ensures
        sort::stable_sort(
            found_matches(locations@, snapshots@, positions@, locations.len() as int),
            matches@,
        ),
        forall|i: int| 0 <= i < matches.len() ==> (#[trigger] matches[i]).wf(),
{
    let mut matches: Vec<LocationMatch> = Vec::with_capacity(locations.len());
    let mut i: usize = 0;
    while i < locations.len()
        invariant
            i <= locations.len(),
            resolved(locations@, snapshots@, positions@),
            matches@ == found_matches(locations@, snapshots@, positions@, i as int),
            forall|k: int| 0 <= k < matches.len() ==> (#[trigger] matches[k]).wf(),
        decreases locations.len() - i,
    {
        broadcast use vstd::std_specs::hash::group_hash_axioms;

        let location = locations[i];
        assert(snapshots@.contains_key(locations@[i as int].buffer));
        if let Some(snapshot) = snapshots.get(&location.buffer) {
            if let Some(path) = &snapshot.file {
                let position = &positions[i];
                let start_offset: usize = position.start_offset;
                let end_offset: usize = position.end_offset;
                let line_len: usize = text::len_in_bytes(position.line_text.as_str());
                let relative_start: usize = start_offset - position.line_start;
                let to_end: usize = end_offset - position.line_start;
                let relative_end: usize = if to_end <= line_len {
                    to_end
                } else {
                    line_len
                };
                matches.push(
                    LocationMatch {
                        path: path.clone(),
                        location,
                        range: OffsetRange { start: start_offset, end: end_offset },
                        relative_range: OffsetRange { start: relative_start, end: relative_end },
                        line_text: position.line_text.clone(),
                        line_number: position.row + 1,
                    },
                );
            }
        }
        i += 1;
    }
    let ghost found = matches@;
    let sorted = sort::sort_matches(matches);
    assert forall|k: int| 0 <= k < sorted.len() implies (#[trigger] sorted[k]).wf() by {
        broadcast use vstd::seq_lib::group_to_multiset_ensures;

        assert(sorted@.contains(sorted@[k]));
        assert(found.to_multiset().contains(sorted@[k]));
        assert(found.contains(sorted@[k]));
    }
    sorted
}

/// The snapshot of every buffer is read, and of none twice.
pub proof fn law_each_buffer_is_read_once(locations: Seq<Location>)
    ensures
        distinct(buffers_of(locations)).no_duplicates(),
        forall|i: int|
            0 <= i < locations.len() ==> distinct(buffers_of(locations)).contains(
                (#[trigger] locations[i]).buffer,
            ),
        forall|b: u64| #[trigger]
            distinct(buffers_of(locations)).contains(b) ==> buffers_of(locations).contains(b),
{
    let buffers = buffers_of(locations);
    lemma_distinct(buffers);
    assert forall|i: int| 0 <= i < locations.len() implies distinct(buffers).contains(
        (#[trigger] locations[i]).buffer,
    ) by {
        assert(buffers[i] == locations[i].buffer);
    }
}

proof fn lemma_distinct(s: Seq<u64>)
    ensures
        distinct(s).no_duplicates(),
        forall|i: int| 0 <= i < s.len() ==> distinct(s).contains(#[trigger] s[i]),
        forall|b: u64| #[trigger] distinct(s).contains(b) ==> s.contains(b),
    decreases s.len(),
{
    if s.len() > 0 {
        let front = s.drop_last();
        let before = distinct(front);
        lemma_distinct(front);
        assert forall|i: int| 0 <= i < s.len() implies distinct(s).contains(#[trigger] s[i]) by {
            if i < front.len() {
                assert(before.contains(front[i]));
                let k = before.index_of(front[i]);
                assert(distinct(s)[k] == s[i]);
            } else if !before.contains(s.last()) {
                assert(distinct(s)[before.len() as int] == s.last());
            }
        }
        assert forall|b: u64| #[trigger] distinct(s).contains(b) implies s.contains(b) by {
            let k = distinct(s).index_of(b);
            if k < before.len() {
                assert(before[k] == b);
                assert(before.contains(b));
                assert(front.contains(b));
                assert(s[front.index_of(b)] == b);
            } else {
                assert(s[s.len() - 1] == b);
            }
        }
    }
}

/// The location `i` lies in a file, and `m` is its match.
pub open spec fn is_match_of(
    locations: Seq<Location>,
    snapshots: Map<u64, BufferSnapshot>,
    positions: Seq<LinePosition>,
    i: int,
    m: LocationMatch,
) -> bool {
    &&& 0 <= i < locations.len()
    &&& snapshots[locations[i].buffer].file matches Some(path) && m == match_for(
        locations[i],
        path,
        positions[i],
    )
}

/// The list holds the match of every location that lies in a file, and nothing else.
pub proof fn law_lists_every_location_in_a_file(
    locations: Seq<Location>,
    snapshots: Map<u64, BufferSnapshot>,
    positions: Seq<LinePosition>,
    listed: Seq<LocationMatch>,
    m: LocationMatch,
)
    requires
        sort::stable_sort(
            found_matches(locations, snapshots, positions, locations.len() as int),
            listed,
        ),
    ensures
        listed.contains(m) <==> exists|i: int| #[trigger]
            is_match_of(locations, snapshots, positions, i, m),
{
    broadcast use vstd::seq_lib::group_to_multiset_ensures;

    let found = found_matches(locations, snapshots, positions, locations.len() as int);
    lemma_found(locations, snapshots, positions, locations.len() as int, m);
    assert(listed.contains(m) <==> listed.to_multiset().contains(m));
    assert(found.contains(m) <==> found.to_multiset().contains(m));
}

proof fn lemma_found(
    locations: Seq<Location>,
    snapshots: Map<u64, BufferSnapshot>,
    positions: Seq<LinePosition>,
    n: int,
    m: LocationMatch,
)
    requires
        0 <= n <= locations.len(),
    ensures
        found_matches(locations, snapshots, positions, n).contains(m) <==> exists|i: int|
            i < n && #[trigger] is_match_of(locations, snapshots, positions, i, m),
    decreases n,
{
    if n > 0 {
        lemma_found(locations, snapshots, positions, n - 1, m);
        let before = found_matches(locations, snapshots, positions, n - 1);
        let found = found_matches(locations, snapshots, positions, n);
        if before.contains(m) {
            assert(found[before.index_of(m)] == m);
        }
        if is_match_of(locations, snapshots, positions, n - 1, m) {
            assert(found[before.len() as int] == m);
        }
        if found.contains(m) && !before.contains(m) {
            assert(found.index_of(m) == before.len());
            assert(is_match_of(locations, snapshots, positions, n - 1, m));
        }
        if exists|i: int| i < n && #[trigger]
            is_match_of(locations, snapshots, positions, i, m) {
            let i = choose|i: int|
                i < n && #[trigger] is_match_of(locations, snapshots, positions, i, m);
            if i < n - 1 {
                assert(before.contains(m));
            }
        }
    }
}

/// The range of a match within its line lies in the line, with its ends in order, if
/// the location starts on the row that was read for it and ends no earlier than it
/// starts.
pub proof fn law_relative_range_in_line(
    location: Location,
    path: ProjectPath,
    position: LinePosition,
)
    requires
        position.consistent(),
        position.start_offset <= position.end_offset,
        position.starts_on_row(),
    ensures
        ({
            let m = match_for(location, path, position);
            m.relative_range.start <= m.relative_range.end <= text::byte_len(m.line_text@)
        }),
{
}

/// Every listed match is well formed and starts on its line, if every location in a
/// file starts on the row that was read for it.
pub proof fn law_listed_matches_start_on_their_lines(
    locations: Seq<Location>,
    snapshots: Map<u64, BufferSnapshot>,
    positions: Seq<LinePosition>,
    listed: Seq<LocationMatch>,
    m: LocationMatch,
)
    requires
        resolved(locations, snapshots, positions),
        forall|i: int|
            0 <= i < locations.len() && snapshots[(#[trigger] locations[i]).buffer].file is Some
                ==> positions[i].starts_on_row(),
        sort::stable_sort(
            found_matches(locations, snapshots, positions, locations.len() as int),
            listed,
        ),
        listed.contains(m),
    ensures
        m.wf(),
        m.starts_on_line(),
{
    law_lists_every_location_in_a_file(locations, snapshots, positions, listed, m);
    let i = choose|i: int| #[trigger] is_match_of(locations, snapshots, positions, i, m);
    assert(snapshots.contains_key(locations[i].buffer));
}

/// The buffers are read in the order in which they appear: one that is read earlier
/// appears before the first appearance of one that is read later.
pub proof fn law_buffers_in_order_of_appearance(
    locations: Seq<Location>,
    a: int,
    b: int,
    j: int,
)
    requires
        0 <= a < b < distinct(buffers_of(locations)).len(),
        0 <= j < locations.len(),
        locations[j].buffer == distinct(buffers_of(locations))[b],
    ensures
        exists|i: int|
            0 <= i < j && (#[trigger] locations[i]).buffer == distinct(buffers_of(locations))[a],
{
    let buffers = buffers_of(locations);
    assert(buffers[j] == locations[j].buffer);
    lemma_distinct_order(buffers, a, b, j);
    let i = choose|i: int| 0 <= i < j && #[trigger] buffers[i] == distinct(buffers)[a];
    assert(locations[i].buffer == buffers[i]);
}

proof fn lemma_distinct_order(s: Seq<u64>, a: int, b: int, j: int)
    requires
        0 <= a < b < distinct(s).len(),
        0 <= j < s.len(),
        s[j] == distinct(s)[b],
    ensures
        exists|i: int| 0 <= i < j && #[trigger] s[i] == distinct(s)[a],
    decreases s.len(),
{
    let front = s.drop_last();
    let before = distinct(front);
    lemma_distinct(s);
    lemma_distinct(front);
    if b < before.len() {
        assert(before[b] == distinct(s)[b]);
        assert(before.contains(before[b]));
        if j < front.len() {
            lemma_distinct_order(front, a, b, j);
            let i = choose|i: int| 0 <= i < j && #[trigger] front[i] == before[a];
            assert(s[i] == distinct(s)[a]);
        } else {
            let k = front.index_of(before[b]);
            lemma_distinct_order(front, a, b, k);
            let i = choose|i: int| 0 <= i < k && #[trigger] front[i] == before[a];
            assert(s[i] == distinct(s)[a]);
        }
    } else {
        assert(!before.contains(s.last()));
        assert(distinct(s)[b] == s.last());
        if j < front.len() {
            assert(before.contains(front[j]));
        }
        assert(before.contains(before[a]));
        let i = front.index_of(before[a]);
        assert(s[i] == distinct(s)[a]);
    }
}

/// What a match says of its location: where it lies in the buffer and in its line, the
/// line, and the number of the line, counted from 1. What reaches over the end of the
/// line is cut off there.
pub proof fn law_match_describes_its_location(
    location: Location,
    path: ProjectPath,
    position: LinePosition,
)
    requires
        position.consistent(),
    ensures
        ({
            let m = match_for(location, path, position);
            let to_end = position.end_offset - position.line_start;
            let line_len = text::byte_len(position.line_text@);
            &&& m.location == location
            &&& m.path == path
            &&& m.range.start == position.start_offset
            &&& m.range.end == position.end_offset
            &&& position.line_start + m.relative_range.start == position.start_offset
            &&& to_end <= line_len ==> m.relative_range.end == to_end
            &&& to_end >= line_len ==> m.relative_range.end == line_len
            &&& m.line_text@ == position.line_text@
            &&& m.line_number == position.row + 1
        }),
{
}

/// The place at which the location `i` stands among the found matches is the number of
/// those found before it.
proof fn lemma_found_place(
    locations: Seq<Location>,
    snapshots: Map<u64, BufferSnapshot>,
    positions: Seq<LinePosition>,
    i: int,
    n: int,
)
    requires
        0 <= i < n <= locations.len(),
        snapshots[locations[i].buffer].file is Some,
    ensures
        found_matches(locations, snapshots, positions, i).len() < found_matches(
            locations,
            snapshots,
            positions,
            n,
        ).len(),
        found_matches(locations, snapshots, positions, n)[found_matches(
            locations,
            snapshots,
            positions,
            i,
        ).len() as int] == match_for(
            locations[i],
            snapshots[locations[i].buffer].file->Some_0,
            positions[i],
        ),
    decreases n,
{
    if i < n - 1 {
        lemma_found_place(locations, snapshots, positions, i, n - 1);
    }
}

proof fn lemma_found_no_duplicates(
    locations: Seq<Location>,
    snapshots: Map<u64, BufferSnapshot>,
    positions: Seq<LinePosition>,
    n: int,
)
    requires
        0 <= n <= locations.len(),
        locations.no_duplicates(),
    ensures
        found_matches(locations, snapshots, positions, n).no_duplicates(),
    decreases n,
{
    if n > 0 {
        lemma_found_no_duplicates(locations, snapshots, positions, n - 1);
        let before = found_matches(locations, snapshots, positions, n - 1);
        let found = found_matches(locations, snapshots, positions, n);
        if found.len() > before.len() {
            let m = found.last();
            if before.contains(m) {
                lemma_found(locations, snapshots, positions, n - 1, m);
                let i = choose|i: int|
                    i < n - 1 && #[trigger] is_match_of(locations, snapshots, positions, i, m);
                assert(locations[i] == locations[n - 1]);
            }
        }
    }
}

/// The list has one match for each location that lies in a file.
pub proof fn law_as_many_matches_as_locations_in_files(
    locations: Seq<Location>,
    snapshots: Map<u64, BufferSnapshot>,
    positions: Seq<LinePosition>,
    listed: Seq<LocationMatch>,
)
    requires
        sort::stable_sort(
            found_matches(locations, snapshots, positions, locations.len() as int),
            listed,
        ),
    ensures
        listed.len() == locations.filter(
            |location: Location| snapshots[location.buffer].file is Some,
        ).len(),
{
    listed.to_multiset_ensures();
    found_matches(locations, snapshots, positions, locations.len() as int).to_multiset_ensures();
    lemma_found_len(locations, snapshots, positions, locations.len() as int);
    assert(locations.take(locations.len() as int) == locations);
}

proof fn lemma_found_len(
    locations: Seq<Location>,
    snapshots: Map<u64, BufferSnapshot>,
    positions: Seq<LinePosition>,
    n: int,
)
    requires
        0 <= n <= locations.len(),
    ensures
        found_matches(locations, snapshots, positions, n).len() == locations.take(n).filter(
            |location: Location| snapshots[location.buffer].file is Some,
        ).len(),
    decreases n,
{
    let pred = |location: Location| snapshots[location.buffer].file is Some;
    reveal(Seq::filter);
    if n > 0 {
        lemma_found_len(locations, snapshots, positions, n - 1);
        assert(locations.take(n).drop_last() == locations.take(n - 1));
        assert(locations.take(n).last() == locations[n - 1]);
    }
}

/// The order of the list, said of the locations: of two listed locations, the one above
/// lies in an earlier file, or starts at a smaller offset of the same file, or starts at
/// the same offset and came first in the answer.
pub proof fn law_listing_order(
    locations: Seq<Location>,
    snapshots: Map<u64, BufferSnapshot>,
    positions: Seq<LinePosition>,
    listed: Seq<LocationMatch>,
    i: int,
    j: int,
    p: int,
    q: int,
)
    requires
        sort::stable_sort(
            found_matches(locations, snapshots, positions, locations.len() as int),
            listed,
        ),
        locations.no_duplicates(),
        0 <= i < locations.len(),
        0 <= j < locations.len(),
        0 <= p < q < listed.len(),
        listed[p].location == locations[i],
        listed[q].location == locations[j],
    ensures
        snapshots[locations[i].buffer].file is Some,
        snapshots[locations[j].buffer].file is Some,
        ({
            let above = snapshots[locations[i].buffer].file->Some_0.rank;
            let below = snapshots[locations[j].buffer].file->Some_0.rank;
            ||| above < below
            ||| above == below && positions[i].start_offset < positions[j].start_offset
            ||| above == below && positions[i].start_offset == positions[j].start_offset && i < j
        }),
{
    broadcast use vstd::seq_lib::group_to_multiset_ensures;

    let found = found_matches(locations, snapshots, positions, locations.len() as int);
    let n = locations.len() as int;
    let x = listed[p];
    let y = listed[q];
    assert(listed.contains(x) && listed.contains(y));
    law_lists_every_location_in_a_file(locations, snapshots, positions, listed, x);
    law_lists_every_location_in_a_file(locations, snapshots, positions, listed, y);
    let k = choose|k: int| #[trigger] is_match_of(locations, snapshots, positions, k, x);
    let l = choose|l: int| #[trigger] is_match_of(locations, snapshots, positions, l, y);
    assert(locations[k] == locations[i] && locations[l] == locations[j]);
    assert(k == i && l == j);
    assert(sort::may_precede(x, y));
    lemma_found_no_duplicates(locations, snapshots, positions, n);
    found.lemma_multiset_has_no_duplicates();
    listed.lemma_multiset_has_no_duplicates_conv();
    assert(i != j);
    if x.path.rank == y.path.rank && x.range.start == y.range.start && j < i {
        let a = found_matches(locations, snapshots, positions, j).len() as int;
        let b = found_matches(locations, snapshots, positions, i).len() as int;
        lemma_found_place(locations, snapshots, positions, j, n);
        lemma_found_place(locations, snapshots, positions, i, n);
        lemma_found_place(locations, snapshots, positions, j, i);
        sort::law_sort_is_stable(found, listed, a, b, q, p);
    }
}

/// No location is listed twice.
pub proof fn law_no_location_is_listed_twice(
    locations: Seq<Location>,
    snapshots: Map<u64, BufferSnapshot>,
    positions: Seq<LinePosition>,
    listed: Seq<LocationMatch>,
    p: int,
    q: int,
)
    requires
        sort::stable_sort(
            found_matches(locations, snapshots, positions, locations.len() as int),
            listed,
        ),
        locations.no_duplicates(),
        0 <= p < q < listed.len(),
    ensures
        listed[p].location != listed[q].location,
{
    if listed[p].location == listed[q].location {
        assert(listed.contains(listed[p]));
        law_lists_every_location_in_a_file(locations, snapshots, positions, listed, listed[p]);
        let i = choose|i: int|
            #[trigger] is_match_of(locations, snapshots, positions, i, listed[p]);
        law_listing_order(locations, snapshots, positions, listed, i, i, p, q);
    }
}

/// No position is turned away that can be listed: it is consistent exactly if both its
/// ends lie at or behind the start of the line, and the end of the line and the line's
/// number, counted from 1, are machine numbers.
pub proof fn law_consistent(position: LinePosition)
    ensures
        position.consistent() <==> position.start_offset - position.line_start >= 0
            && position.end_offset - position.line_start >= 0 && position.line_start
            + vstd::utf8::encode_utf8(position.line_text@).len() <= usize::MAX && position.row + 1
            <= u32::MAX,
{
}

/// Locations can be listed as soon as every one of them has a snapshot and a position and
/// the positions in files are consistent.
pub proof fn law_resolved(
    locations: Seq<Location>,
    snapshots: Map<u64, BufferSnapshot>,
    positions: Seq<LinePosition>,
)
    requires
        positions.len() == locations.len(),
        forall|i: int|
            0 <= i < locations.len() ==> snapshots.contains_key((#[trigger] locations[i]).buffer),
        forall|i: int|
            0 <= i < positions.len() && snapshots[locations[i].buffer].file is Some ==> (
            #[trigger] positions[i]).consistent(),
    ensures
        resolved(locations, snapshots, positions),
{
    assert forall|i: int| 0 <= i < locations.len() implies {
        &&& snapshots.contains_key((#[trigger] locations[i]).buffer)
        &&& snapshots[locations[i].buffer].file is Some ==> positions[i].consistent()
    } by {
        assert(snapshots[locations[i].buffer].file is Some ==> positions[i].consistent());
    }
}

} // verus!
