//! The grouped display rows: one header per file, its matches, and a separator
//! before every group after the first.

use vstd::prelude::*;

use crate::location::{LocationMatch, ProjectPath};
use crate::sort;

verus! {

/// A row in the grouped display list: a non-selectable file header, a match, or a
/// separator between file groups.
#[derive(Debug, PartialEq, Eq)]
pub enum Entry {
    Header(ProjectPath),
    /// The index of the match in the list of matches.
    Match(usize),
    Separator,
}

/// The match `i` is the first of a run of matches of one file.
pub open spec fn starts_group(matches: Seq<LocationMatch>, i: int) -> bool {
    i == 0 || !matches[i - 1].path.same_file(matches[i].path)
}

/// The rows that the match `i` adds: its own, and those that open its group.
pub open spec fn rows_of(matches: Seq<LocationMatch>, i: int) -> Seq<Entry> {
    let own = seq![Entry::Match(i as usize)];
    if !starts_group(matches, i) {
        own
    } else if i == 0 {
        seq![Entry::Header(matches[i].path)] + own
    } else {
        seq![Entry::Separator, Entry::Header(matches[i].path)] + own
    }
}

/// The rows of the first `n` matches.
pub open spec fn first_rows(matches: Seq<LocationMatch>, n: int) -> Seq<Entry>
    decreases n,
{
    if n <= 0 {
        Seq::empty()
    } else {
        first_rows(matches, n - 1) + rows_of(matches, n - 1)
    }
}

/// The rows of all matches.
pub open spec fn grouped(matches: Seq<LocationMatch>) -> Seq<Entry> {
    first_rows(matches, matches.len() as int)
}

/// The index of the first row that is a match.
pub open spec fn first_match_row(entries: Seq<Entry>) -> Option<int>
    decreases entries.len(),
{
    if entries.len() == 0 {
        None
    } else if entries[0] is Match {
        Some(0)
    } else {
        match first_match_row(entries.drop_first()) {
            Some(i) => Some(i + 1),
            None => None,
        }
    }
}

/// The largest line number among the matches, 0 if there is none.
pub open spec fn largest_line_number(matches: Seq<LocationMatch>) -> u32
    decreases matches.len(),
{
    if matches.len() == 0 {
        0
    } else {
        let before = largest_line_number(matches.drop_last());
        if before >= matches.last().line_number {
            before
        } else {
            matches.last().line_number
        }
    }
}

/// The grouped display rows of `matches`.
pub fn build_entries(matches: &Vec<LocationMatch>) -> (entries: Vec<Entry>)
    ensures
        entries@ == grouped(matches@),
{
    let mut entries: Vec<Entry> = Vec::with_capacity(matches.len());
    let mut i: usize = 0;
    while i < matches.len()
        invariant
            i <= matches.len(),
            entries@ == first_rows(matches@, i as int),
        decreases matches.len() - i,
    {
        let ghost before = entries@;
        if i == 0 || matches[i - 1].path.rank != matches[i].path.rank {
            if i > 0 {
                entries.push(Entry::Separator);
            }
            entries.push(Entry::Header(matches[i].path.clone()));
        }
        entries.push(Entry::Match(i));
        assert(entries@ =~= before + rows_of(matches@, i as int));
        i += 1;
    }
    entries
}

/// The largest line number among `matches`.
pub fn max_line_number(matches: &Vec<LocationMatch>) -> (largest: u32)
    ensures
        largest == largest_line_number(matches@),
{
    let mut largest: u32 = 0;
    let mut i: usize = 0;
    while i < matches.len()
        invariant
            i <= matches.len(),
            largest == largest_line_number(matches@.take(i as int)),
        decreases matches.len() - i,
    {
        assert(matches@.take(i + 1).drop_last() == matches@.take(i as int));
        if matches[i].line_number > largest {
            largest = matches[i].line_number;
        }
        i += 1;
    }
    assert(matches@.take(i as int) == matches@);
    largest
}

/// The index of the first row of `entries` that is a match.
pub fn first_selectable(entries: &Vec<Entry>) -> (index: Option<usize>)
    ensures
        match index {
            Some(i) => first_match_row(entries@) == Some(i as int),
            None => first_match_row(entries@) is None,
        },
{
    let mut i: usize = 0;
    assert(entries@.skip(0) == entries@);
    while i < entries.len()
        invariant
            i <= entries.len(),
            first_match_row(entries@) == (match first_match_row(entries@.skip(i as int)) {
                Some(k) => Some(k + i),
                None => None,
            }),
        decreases entries.len() - i,
    {
        if let Entry::Match(_) = &entries[i] {
            return Some(i);
        }
        assert(entries@.skip(i as int).drop_first() == entries@.skip(i + 1));
        i += 1;
    }
    None
}

/// No match has a line number above the largest, and if there are matches one of
/// them has it.
pub proof fn law_largest_line_number(matches: Seq<LocationMatch>)
    ensures
        forall|i: int|
            0 <= i < matches.len() ==> (#[trigger] matches[i]).line_number <= largest_line_number(
                matches,
            ),
        matches.len() > 0 ==> exists|i: int|
            0 <= i < matches.len() && (#[trigger] matches[i]).line_number == largest_line_number(
                matches,
            ),
    decreases matches.len(),
{
    if matches.len() > 0 {
        let before = matches.drop_last();
        law_largest_line_number(before);
        assert forall|i: int| 0 <= i < matches.len() implies (#[trigger] matches[i]).line_number
            <= largest_line_number(matches) by {
            if i < before.len() {
                assert(before[i].line_number <= largest_line_number(before));
            }
        }
        if largest_line_number(before) >= matches.last().line_number && before.len() > 0 {
            let i = choose|i: int|
                0 <= i < before.len() && (#[trigger] before[i]).line_number == largest_line_number(
                    before,
                );
            assert(matches[i].line_number == largest_line_number(matches));
        } else {
            assert(matches[matches.len() - 1].line_number == largest_line_number(matches));
        }
    }
}

/// The rows of the matches are the matches, each once and in their order.
pub proof fn law_each_match_has_one_row(matches: Seq<LocationMatch>)
    requires
        matches.len() <= usize::MAX,
    ensures
        grouped(matches).filter(|e: Entry| e is Match) == Seq::new(
            matches.len(),
            |i: int| Entry::Match(i as usize),
        ),
{
    lemma_match_rows(matches, matches.len() as int);
}

proof fn lemma_match_rows(matches: Seq<LocationMatch>, n: int)
    requires
        0 <= n <= matches.len(),
    ensures
        first_rows(matches, n).filter(|e: Entry| e is Match) == Seq::new(
            n as nat,
            |i: int| Entry::Match(i as usize),
        ),
    decreases n,
{
    let is_match = |e: Entry| e is Match;
    if n > 0 {
        lemma_match_rows(matches, n - 1);
        let rows = rows_of(matches, n - 1);
        Seq::filter_distributes_over_add(first_rows(matches, n - 1), rows, is_match);
        assert(rows.filter(is_match) == seq![Entry::Match((n - 1) as usize)]) by {
            let own = Entry::Match((n - 1) as usize);
            let opening = rows.drop_last();
            assert(opening.push(own) == rows);
            opening.lemma_filter_push(own, is_match);
            opening.lemma_all_neg_filter_empty(is_match);
        }
        assert(first_rows(matches, n).filter(is_match) =~= Seq::new(
            n as nat,
            |i: int| Entry::Match(i as usize),
        ));
    } else {
        reveal(Seq::filter);
        assert(first_rows(matches, n).filter(is_match) =~= Seq::new(
            n as nat,
            |i: int| Entry::Match(i as usize),
        ));
    }
}

/// How the rows stand to each other: the list opens with a header and ends with a
/// match; a header is followed by a match of its file and preceded by a separator
/// unless it is the first row; a separator stands between a match and a header.
pub open spec fn well_grouped(matches: Seq<LocationMatch>, entries: Seq<Entry>) -> bool {
    &&& entries.len() > 0 ==> entries[0] is Header && entries.last() is Match
    &&& forall|k: int|
        0 <= k < entries.len() ==> match #[trigger] entries[k] {
            Entry::Header(path) => {
                &&& k + 1 < entries.len()
                &&& entries[k + 1] matches Entry::Match(i) && i < matches.len()
                    && matches[i as int].path == path
                &&& k > 0 ==> entries[k - 1] is Separator
            },
            Entry::Match(i) => i < matches.len() && k > 0,
            Entry::Separator => {
                &&& 0 < k
                &&& k + 1 < entries.len()
                &&& entries[k - 1] is Match
                &&& entries[k + 1] is Header
            },
        }
}

/// The rows of any list of matches are well grouped.
pub proof fn law_well_grouped(matches: Seq<LocationMatch>)
    requires
        matches.len() <= usize::MAX,
    ensures
        well_grouped(matches, grouped(matches)),
{
    lemma_well_grouped(matches, matches.len() as int);
}

proof fn lemma_well_grouped(matches: Seq<LocationMatch>, n: int)
    requires
        0 <= n <= matches.len() <= usize::MAX,
    ensures
        well_grouped(matches, first_rows(matches, n)),
        n > 0 ==> first_rows(matches, n).len() > 0,
    decreases n,
{
    if n > 0 {
        lemma_well_grouped(matches, n - 1);
        let before = first_rows(matches, n - 1);
        let rows = rows_of(matches, n - 1);
        let entries = first_rows(matches, n);
        assert(entries == before + rows);
        assert forall|k: int| 0 <= k < entries.len() implies match #[trigger] entries[k] {
            Entry::Header(path) => {
                &&& k + 1 < entries.len()
                &&& entries[k + 1] matches Entry::Match(i) && i < matches.len()
                    && matches[i as int].path == path
                &&& k > 0 ==> entries[k - 1] is Separator
            },
            Entry::Match(i) => i < matches.len() && k > 0,
            Entry::Separator => {
                &&& 0 < k
                &&& k + 1 < entries.len()
                &&& entries[k - 1] is Match
                &&& entries[k + 1] is Header
            },
        } by {
            if k < before.len() {
                assert(entries[k] == before[k]);
                if k > 0 {
                    assert(entries[k - 1] == before[k - 1]);
                }
                if k + 1 < before.len() {
                    assert(entries[k + 1] == before[k + 1]);
                }
            } else {
                assert(entries[k] == rows[k - before.len()]);
            }
        }
    }
}

/// A match row stands under the header of its file: only matches stand between the
/// two.
pub proof fn law_match_under_its_header(matches: Seq<LocationMatch>, k: int)
    requires
        matches.len() <= usize::MAX,
        0 <= k < grouped(matches).len(),
        grouped(matches)[k] is Match,
    ensures
        exists|h: int| #[trigger] is_header_of(matches, grouped(matches), h, k),
{
    lemma_match_under_its_header(matches, matches.len() as int, k);
}

/// The row `h` is the header over the match row `k`.
pub open spec fn is_header_of(
    matches: Seq<LocationMatch>,
    entries: Seq<Entry>,
    h: int,
    k: int,
) -> bool {
    &&& 0 <= h < k < entries.len()
    &&& entries[k] matches Entry::Match(i) && entries[h] matches Entry::Header(path)
        && path.rank == matches[i as int].path.rank
    &&& forall|r: int| h < r <= k ==> #[trigger] entries[r] is Match
}

proof fn lemma_match_under_its_header(matches: Seq<LocationMatch>, n: int, k: int)
    requires
        0 <= n <= matches.len() <= usize::MAX,
        0 <= k < first_rows(matches, n).len(),
        first_rows(matches, n)[k] is Match,
    ensures
        exists|h: int| #[trigger] is_header_of(matches, first_rows(matches, n), h, k),
    decreases n,
{
    let before = first_rows(matches, n - 1);
    let rows = rows_of(matches, n - 1);
    let entries = first_rows(matches, n);
    assert(entries == before + rows);
    if k < before.len() {
        assert(entries[k] == before[k]);
        lemma_match_under_its_header(matches, n - 1, k);
        let h = choose|h: int| #[trigger] is_header_of(matches, before, h, k);
        assert forall|r: int| h < r <= k implies #[trigger] entries[r] is Match by {
            assert(before[r] is Match);
        }
        assert(is_header_of(matches, entries, h, k));
    } else {
        assert(entries[k] == rows[k - before.len()]);
        assert(k == entries.len() - 1);
        if starts_group(matches, n - 1) {
            assert(is_header_of(matches, entries, k - 1, k));
        } else {
            lemma_well_grouped(matches, n - 1);
            assert(before == first_rows(matches, n - 2) + rows_of(matches, n - 2));
            assert(before.last() == Entry::Match((n - 2) as usize));
            assert(before[k - 1] is Match);
            lemma_match_under_its_header(matches, n - 1, k - 1);
            let h = choose|h: int| #[trigger] is_header_of(matches, before, h, k - 1);
            assert forall|r: int| h < r <= k implies #[trigger] entries[r] is Match by {
                if r < k {
                    assert(before[r] is Match);
                }
            }
            assert(is_header_of(matches, entries, h, k));
        }
    }
}

/// Of matches in order, no file has two headers: the files of the headers come in
/// ascending order.
pub proof fn law_one_header_per_file(matches: Seq<LocationMatch>)
    requires
        sort::in_order(matches),
    ensures
        headers_ascend(grouped(matches)),
{
    lemma_headers_ascend(matches, matches.len() as int);
}

/// The files of the headers, read downwards, have ascending ranks.
pub open spec fn headers_ascend(entries: Seq<Entry>) -> bool {
    forall|a: int, b: int|
        0 <= a < b < entries.len() && entries[a] is Header && entries[b] is Header ==> (
        #[trigger] entries[a])->Header_0.rank < (#[trigger] entries[b])->Header_0.rank
}

proof fn lemma_headers_ascend(matches: Seq<LocationMatch>, n: int)
    requires
        sort::in_order(matches),
        0 <= n <= matches.len(),
    ensures
        headers_ascend(first_rows(matches, n)),
        forall|a: int|
            0 <= a < first_rows(matches, n).len() && first_rows(matches, n)[a] is Header ==> (
            #[trigger] first_rows(matches, n)[a])->Header_0.rank <= matches[n - 1].path.rank,
    decreases n,
{
    if n > 0 {
        lemma_headers_ascend(matches, n - 1);
        let before = first_rows(matches, n - 1);
        let rows = rows_of(matches, n - 1);
        let entries = first_rows(matches, n);
        assert(entries == before + rows);
        if n > 1 {
            assert(sort::may_precede(matches[n - 2], matches[n - 1]));
        }
        assert forall|a: int| 0 <= a < entries.len() && entries[a] is Header implies (
        #[trigger] entries[a])->Header_0.rank <= matches[n - 1].path.rank by {
            if a < before.len() {
                assert(entries[a] == before[a]);
            } else {
                assert(entries[a] == rows[a - before.len()]);
            }
        }
        assert forall|a: int, b: int|
            0 <= a < b < entries.len() && entries[a] is Header && entries[b] is Header implies (
        #[trigger] entries[a])->Header_0.rank < (#[trigger] entries[b])->Header_0.rank by {
            if b < before.len() {
                assert(entries[a] == before[a]);
                assert(entries[b] == before[b]);
            } else {
                assert(entries[b] == rows[b - before.len()]);
                if a < before.len() {
                    assert(entries[a] == before[a]);
                } else {
                    assert(entries[a] == rows[a - before.len()]);
                }
            }
        }
    }
}

/// The first match row is a match with none above it; if there is none, no row is a
/// match.
pub proof fn law_first_match_row_is_first(entries: Seq<Entry>)
    ensures
        match first_match_row(entries) {
            Some(i) => {
                &&& 0 <= i < entries.len()
                &&& entries[i] is Match
                &&& forall|k: int| 0 <= k < i ==> !(#[trigger] entries[k] is Match)
            },
            None => forall|k: int| 0 <= k < entries.len() ==> !(#[trigger] entries[k] is Match),
        },
    decreases entries.len(),
{
    if entries.len() > 0 && !(entries[0] is Match) {
        let rest = entries.drop_first();
        law_first_match_row_is_first(rest);
        assert forall|k: int| 0 < k < entries.len() implies #[trigger] entries[k] == rest[k - 1] by {
        }
    }
}

/// The first selectable row is the one below the first header; without matches no
/// row is selectable.
pub proof fn law_first_match_row(matches: Seq<LocationMatch>)
    requires
        matches.len() <= usize::MAX,
    ensures
        first_match_row(grouped(matches)) == if matches.len() > 0 {
            Some(1int)
        } else {
            None
        },
{
    if matches.len() > 0 {
        law_well_grouped(matches);
        let entries = grouped(matches);
        assert(entries[0] is Header);
        assert(entries[1] is Match);
        reveal_with_fuel(first_match_row, 3);
        assert(entries.drop_first()[0] == entries[1]);
    }
}

/// The second row is the first match.
pub proof fn lemma_second_row(matches: Seq<LocationMatch>)
    requires
        matches.len() > 0,
    ensures
        grouped(matches).len() > 1,
        grouped(matches)[1] == Entry::Match(0),
{
    lemma_second_row_of_first(matches, matches.len() as int);
}

proof fn lemma_second_row_of_first(matches: Seq<LocationMatch>, n: int)
    requires
        0 < n <= matches.len(),
    ensures
        first_rows(matches, n).len() > 1,
        first_rows(matches, n)[1] == Entry::Match(0),
    decreases n,
{
    if n == 1 {
        assert(first_rows(matches, 0) == Seq::<Entry>::empty());
        assert(first_rows(matches, 1) == first_rows(matches, 0) + rows_of(matches, 0));
    } else {
        lemma_second_row_of_first(matches, n - 1);
    }
}

} // verus!
