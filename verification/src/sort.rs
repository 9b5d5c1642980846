//! The order in which matches are listed: by file, and by position inside a file.

use vstd::prelude::*;

use crate::location::LocationMatch;

verus! {

/// `a` may stand before `b`: its file comes first, or it starts no later in the
/// same file.
pub open spec fn may_precede(a: LocationMatch, b: LocationMatch) -> bool {
    a.path.rank < b.path.rank || (a.path.rank == b.path.rank && a.range.start <= b.range.start)
}

/// Every match may stand before those that follow it.
pub open spec fn in_order(s: Seq<LocationMatch>) -> bool {
    forall|i: int, j: int| 0 <= i < j < s.len() ==> may_precede(s[i], s[j])
}

/// The match `m` lies in the file of rank `rank` and starts at `start`.
pub open spec fn stands_at(m: LocationMatch, rank: usize, start: usize) -> bool {
    m.path.rank == rank && m.range.start == start
}

/// The matches of `s` that start at `start` in the file of rank `rank`.
pub open spec fn tied(s: Seq<LocationMatch>, rank: usize, start: usize) -> Seq<LocationMatch> {
    s.filter(|m: LocationMatch| stands_at(m, rank, start))
}

/// `output` holds the matches of `input` in order, and those that start at the same
/// place stand as they stood in `input`.
pub open spec fn stable_sort(input: Seq<LocationMatch>, output: Seq<LocationMatch>) -> bool {
    &&& in_order(output)
    &&& output.to_multiset() == input.to_multiset()
    &&& forall|rank: usize, start: usize| #[trigger]
        tied(output, rank, start) == tied(input, rank, start)
}


/// Whether `a` starts behind `b`.
fn is_behind(a: &LocationMatch, b: &LocationMatch) -> (behind: bool)
    ensures
        behind == !may_precede(*a, *b),
{
    a.path.rank > b.path.rank || (a.path.rank == b.path.rank && a.range.start > b.range.start)
}

proof fn lemma_tied_push(s: Seq<LocationMatch>, m: LocationMatch, rank: usize, start: usize)
    ensures
        tied(s.push(m), rank, start) == if stands_at(m, rank, start) {
            tied(s, rank, start).push(m)
        } else {
            tied(s, rank, start)
        },
{
    s.lemma_filter_push(m, |m: LocationMatch| stands_at(m, rank, start));
}

proof fn lemma_tied_add(
    a: Seq<LocationMatch>,
    b: Seq<LocationMatch>,
    rank: usize,
    start: usize,
)
    ensures
        tied(a + b, rank, start) == tied(a, rank, start) + tied(b, rank, start),
{
    Seq::filter_distributes_over_add(a, b, |m: LocationMatch| stands_at(m, rank, start));
}

/// No match of `s` starts where a match behind all of `s` starts.
proof fn lemma_tied_empty(s: Seq<LocationMatch>, m: LocationMatch)
    requires
        forall|i: int| 0 <= i < s.len() ==> !may_precede(m, #[trigger] s[i]),
    ensures
        tied(s, m.path.rank, m.range.start) == Seq::<LocationMatch>::empty(),
    decreases s.len(),
{
    if s.len() > 0 {
        lemma_tied_empty(s.drop_last(), m);
        lemma_tied_push(s.drop_last(), s.last(), m.path.rank, m.range.start);
        assert(s.drop_last().push(s.last()) == s);
        assert(!may_precede(m, s[s.len() - 1]));
    } else {
        reveal(Seq::filter);
        assert(tied(s, m.path.rank, m.range.start).len() == 0);
    }
}

/// The step that takes the last match of the left part.
proof fn lemma_take_left(
    left: Seq<LocationMatch>,
    right: Seq<LocationMatch>,
    suffix: Seq<LocationMatch>,
)
    requires
        left.len() > 0,
        forall|i: int| 0 <= i < right.len() ==> !may_precede(left.last(), #[trigger] right[i]),
    ensures
        (left.drop_last() + right + (seq![left.last()] + suffix)).to_multiset() == (left + right
            + suffix).to_multiset(),
        forall|rank: usize, start: usize|
            #![trigger tied(left + right + suffix, rank, start)]
            tied(left.drop_last() + right + (seq![left.last()] + suffix), rank, start) == tied(
                left + right + suffix,
                rank,
                start,
            ),
{
    broadcast use vstd::seq_lib::group_to_multiset_ensures;

    let m = left.last();
    let front = left.drop_last();
    assert(front.push(m) == left);
    assert(seq![m] == Seq::<LocationMatch>::empty().push(m));
    vstd::seq_lib::lemma_multiset_commutative(front + right, seq![m] + suffix);
    vstd::seq_lib::lemma_multiset_commutative(front, right);
    vstd::seq_lib::lemma_multiset_commutative(seq![m], suffix);
    vstd::seq_lib::lemma_multiset_commutative(left + right, suffix);
    vstd::seq_lib::lemma_multiset_commutative(left, right);
    vstd::seq_lib::lemma_multiset_commutative(front, seq![m]);
    assert(front + seq![m] == left);
    assert((front + right + (seq![m] + suffix)).to_multiset() =~= (left + right
        + suffix).to_multiset());
    assert forall|rank: usize, start: usize|
        #![trigger tied(left + right + suffix, rank, start)]
        tied(front + right + (seq![m] + suffix), rank, start) == tied(
            left + right + suffix,
            rank,
            start,
        ) by {
        lemma_tied_add(front + right, seq![m] + suffix, rank, start);
        lemma_tied_add(front, right, rank, start);
        lemma_tied_add(seq![m], suffix, rank, start);
        lemma_tied_add(left + right, suffix, rank, start);
        lemma_tied_add(left, right, rank, start);
        lemma_tied_add(front, seq![m], rank, start);
        if stands_at(m, rank, start) {
            lemma_tied_empty(right, m);
        } else {
            lemma_tied_push(Seq::empty(), m, rank, start);
            reveal(Seq::filter);
        }
        assert(tied(front, rank, start) + tied(right, rank, start) + (tied(seq![m], rank, start)
            + tied(suffix, rank, start)) =~= tied(front, rank, start) + tied(seq![m], rank, start)
            + tied(right, rank, start) + tied(suffix, rank, start));
    }
}

/// The matches of two lists that are in order, in order; where two tie, that of
/// `left` comes first.
fn merge(left: Vec<LocationMatch>, right: Vec<LocationMatch>) -> (merged: Vec<LocationMatch>)
    requires
        in_order(left@),
        in_order(right@),
    ensures
        stable_sort(left@ + right@, merged@),
{
    let ghost all = left@ + right@;
    let mut left = left;
    let mut right = right;
    let mut reversed: Vec<LocationMatch> = Vec::with_capacity(left.len());
    let ghost mut suffix: Seq<LocationMatch> = Seq::empty();
    assert(left@ + right@ + suffix == all);
    while left.len() > 0 || right.len() > 0
        invariant
            in_order(left@),
            in_order(right@),
            in_order(suffix),
            reversed@ == suffix.reverse(),
            forall|i: int, j: int|
                0 <= i < left@.len() && 0 <= j < suffix.len() ==> may_precede(left@[i], suffix[j]),
            forall|i: int, j: int|
                0 <= i < right@.len() && 0 <= j < suffix.len() ==> may_precede(
                    right@[i],
                    suffix[j],
                ),
            (left@ + right@ + suffix).to_multiset() == all.to_multiset(),
            forall|rank: usize, start: usize| #[trigger]
                tied(left@ + right@ + suffix, rank, start) == tied(all, rank, start),
        decreases left.len() + right.len(),
    {
        let ghost l = left@;
        let ghost r = right@;
        let ghost s = suffix;
        let take_left: bool = if left.len() == 0 {
            false
        } else if right.len() == 0 {
            true
        } else {
            is_behind(&left[left.len() - 1], &right[right.len() - 1])
        };
        if take_left {
            proof {
                assert forall|i: int| 0 <= i < r.len() implies !may_precede(
                    l.last(),
                    #[trigger] r[i],
                ) by {
                    if i < r.len() - 1 {
                        assert(may_precede(r[i], r[r.len() - 1]));
                    }
                }
                lemma_take_left(l, r, s);
                suffix = seq![l.last()] + s;
            }
            match left.pop() {
                Some(m) => {
                    reversed.push(m);
                },
                None => {},
            }
            assert(left@ == l.drop_last());
            assert(reversed@ =~= suffix.reverse());
            assert forall|rank: usize, start: usize| #[trigger]
                tied(left@ + right@ + suffix, rank, start) == tied(all, rank, start) by {
                assert(tied(l + r + s, rank, start) == tied(all, rank, start));
            }
        } else {
            proof {
                suffix = seq![r.last()] + s;
            }
            match right.pop() {
                Some(m) => {
                    reversed.push(m);
                },
                None => {},
            }
            assert(right@ == r.drop_last());
            assert(reversed@ =~= suffix.reverse());
            assert(left@ + right@ + suffix =~= l + r + s);
            assert forall|i: int, j: int|
                0 <= i < left@.len() && 0 <= j < suffix.len() implies may_precede(
                left@[i],
                suffix[j],
            ) by {
                if j == 0 && i < l.len() - 1 {
                    assert(may_precede(l[i], l[l.len() - 1]));
                }
            }
        }
    }
    assert(left@ + right@ + suffix =~= suffix);
    let mut merged: Vec<LocationMatch> = Vec::with_capacity(reversed.len());
    while reversed.len() > 0
        invariant
            merged@ + reversed@.reverse() == suffix,
        decreases reversed.len(),
    {
        let ghost before = reversed@;
        match reversed.pop() {
            Some(m) => {
                merged.push(m);
            },
            None => {},
        }
        assert(before.reverse() =~= seq![before.last()] + reversed@.reverse());
        assert(merged@ + reversed@.reverse() =~= suffix);
    }
    assert(merged@ =~= suffix);
    merged
}

/// `matches`, grouped by file and ordered by position; matches that start at the
/// same place keep their order.
pub fn sort_matches(matches: Vec<LocationMatch>) -> (sorted: Vec<LocationMatch>)
    ensures
        stable_sort(matches@, sorted@),
    decreases matches.len(),
{
    if matches.len() <= 1 {
        return matches;
    }
    let ghost input = matches@;
    let mut left = matches;
    let middle: usize = left.len() / 2;
    let right = left.split_off(middle);
    let ghost l = left@;
    let ghost r = right@;
    assert(l + r =~= input);
    let left = sort_matches(left);
    let right = sort_matches(right);
    proof {
        vstd::seq_lib::lemma_multiset_commutative(l, r);
        vstd::seq_lib::lemma_multiset_commutative(left@, right@);
        assert forall|rank: usize, start: usize| #[trigger]
            tied(left@ + right@, rank, start) == tied(input, rank, start) by {
            lemma_tied_add(left@, right@, rank, start);
            lemma_tied_add(l, r, rank, start);
            assert(tied(left@, rank, start) == tied(l, rank, start));
            assert(tied(right@, rank, start) == tied(r, rank, start));
        }
    }
    let ghost joined = left@ + right@;
    let sorted = merge(left, right);
    assert forall|rank: usize, start: usize| #[trigger]
        tied(sorted@, rank, start) == tied(input, rank, start) by {
        assert(tied(joined, rank, start) == tied(input, rank, start));
    }
    sorted
}


/// The order leaves nothing open: two lists that are in order and have the same
/// ties are the same list. So one set of matches is always listed the same way.
pub proof fn law_order_is_determined(a: Seq<LocationMatch>, b: Seq<LocationMatch>)
    requires
        in_order(a),
        in_order(b),
        forall|rank: usize, start: usize| #[trigger] tied(a, rank, start) == tied(b, rank, start),
    ensures
        a == b,
    decreases a.len(),
{
    if a.len() == 0 {
        if b.len() > 0 {
            lemma_tied_last(b);
            assert(tied(a, b.last().path.rank, b.last().range.start).len() > 0);
            lemma_tied_members(a, b.last().path.rank, b.last().range.start);
        }
    } else {
        let x = a.last();
        lemma_tied_last(a);
        assert(tied(b, x.path.rank, x.range.start).last() == x);
        lemma_tied_members(b, x.path.rank, x.range.start);
        assert(b.contains(x));
        let y = b.last();
        lemma_tied_last(b);
        assert(tied(a, y.path.rank, y.range.start).last() == y);
        lemma_tied_members(a, y.path.rank, y.range.start);
        assert(a.contains(y));
        let i = b.index_of(x);
        let j = a.index_of(y);
        assert(i < b.len() - 1 ==> may_precede(b[i], b[b.len() - 1]));
        assert(j < a.len() - 1 ==> may_precede(a[j], a[a.len() - 1]));
        assert(x == y);
        let a0 = a.drop_last();
        let b0 = b.drop_last();
        assert(a0.push(x) == a);
        assert(b0.push(y) == b);
        assert forall|rank: usize, start: usize| #[trigger]
            tied(a0, rank, start) == tied(b0, rank, start) by {
            lemma_tied_push(a0, x, rank, start);
            lemma_tied_push(b0, y, rank, start);
            assert(tied(a, rank, start) == tied(b, rank, start));
            if stands_at(x, rank, start) {
                assert(tied(a0, rank, start) =~= tied(a, rank, start).drop_last());
                assert(tied(b0, rank, start) =~= tied(b, rank, start).drop_last());
            }
        }
        law_order_is_determined(a0, b0);
    }
}

/// The last match of `s` is the last of those that tie with it.
proof fn lemma_tied_last(s: Seq<LocationMatch>)
    requires
        s.len() > 0,
    ensures
        tied(s, s.last().path.rank, s.last().range.start).len() > 0,
        tied(s, s.last().path.rank, s.last().range.start).last() == s.last(),
{
    assert(s.drop_last().push(s.last()) == s);
    lemma_tied_push(s.drop_last(), s.last(), s.last().path.rank, s.last().range.start);
}

/// The ties are matches of the list.
proof fn lemma_tied_members(s: Seq<LocationMatch>, rank: usize, start: usize)
    ensures
        forall|i: int|
            0 <= i < tied(s, rank, start).len() ==> s.contains(#[trigger] tied(s, rank, start)[i]),
    decreases s.len(),
{
    reveal(Seq::filter);
    if s.len() > 0 {
        let front = s.drop_last();
        assert(front.push(s.last()) == s);
        lemma_tied_members(front, rank, start);
        lemma_tied_push(front, s.last(), rank, start);
        assert forall|i: int| 0 <= i < tied(s, rank, start).len() implies s.contains(
            #[trigger] tied(s, rank, start)[i],
        ) by {
            if i < tied(front, rank, start).len() {
                assert(front.contains(tied(front, rank, start)[i]));
                let k = front.index_of(tied(front, rank, start)[i]);
                assert(s[k] == tied(s, rank, start)[i]);
            } else {
                assert(s[s.len() - 1] == tied(s, rank, start)[i]);
            }
        }
    }
}

/// A sorted list holds what was sorted, file by file, and inside a file the offsets at
/// which the matches start do not fall.
pub proof fn law_sorted_by_file_and_offset(
    input: Seq<LocationMatch>,
    output: Seq<LocationMatch>,
    i: int,
    j: int,
    m: LocationMatch,
)
    requires
        stable_sort(input, output),
    ensures
        output.len() == input.len(),
        output.to_multiset().count(m) == input.to_multiset().count(m),
        0 <= i < j < output.len() ==> output[i].path.rank <= output[j].path.rank,
        0 <= i < j < output.len() && output[i].path.rank == output[j].path.rank
            ==> output[i].range.start <= output[j].range.start,
{
    input.to_multiset_ensures();
    output.to_multiset_ensures();
    if 0 <= i < j < output.len() {
        assert(may_precede(output[i], output[j]));
    }
}

/// Sorting is stable: of two matches that start at the same offset of the same file, the
/// one that came first stays first.
pub proof fn law_sort_is_stable(
    input: Seq<LocationMatch>,
    output: Seq<LocationMatch>,
    i: int,
    j: int,
    p: int,
    q: int,
)
    requires
        stable_sort(input, output),
        input.no_duplicates(),
        0 <= i < j < input.len(),
        input[i].path.rank == input[j].path.rank,
        input[i].range.start == input[j].range.start,
        0 <= p < output.len(),
        0 <= q < output.len(),
        output[p] == input[i],
        output[q] == input[j],
    ensures
        p < q,
{
    let rank = input[i].path.rank;
    let start = input[i].range.start;
    let pred = |m: LocationMatch| stands_at(m, rank, start);
    if q < p {
        let (u, v) = lemma_filter_keeps_order(output, pred, q, p);
        let (x, y) = lemma_filter_keeps_order(input, pred, i, j);
        assert(tied(output, rank, start) == tied(input, rank, start));
        lemma_filter_no_duplicates(input, pred);
        let ties = tied(input, rank, start);
        assert(ties[u] == ties[y]);
        assert(ties[v] == ties[x]);
    }
}

/// Two members of `s` that pass a filter stand in the filtered list as they stand in `s`.
proof fn lemma_filter_keeps_order(
    s: Seq<LocationMatch>,
    pred: spec_fn(LocationMatch) -> bool,
    a: int,
    b: int,
) -> (places: (int, int))
    requires
        0 <= a < b < s.len(),
        pred(s[a]),
        pred(s[b]),
    ensures
        0 <= places.0 < places.1 < s.filter(pred).len(),
        s.filter(pred)[places.0] == s[a],
        s.filter(pred)[places.1] == s[b],
    decreases s.len(),
{
    reveal(Seq::filter);
    let front = s.drop_last();
    if b < front.len() {
        lemma_filter_keeps_order(front, pred, a, b)
    } else {
        front.lemma_filter_contains(pred, a);
        (front.filter(pred).index_of(s[a]), front.filter(pred).len() as int)
    }
}

/// Filtering repeats nothing.
proof fn lemma_filter_no_duplicates(
    s: Seq<LocationMatch>,
    pred: spec_fn(LocationMatch) -> bool,
)
    requires
        s.no_duplicates(),
    ensures
        s.filter(pred).no_duplicates(),
    decreases s.len(),
{
    reveal(Seq::filter);
    if s.len() > 0 {
        let front = s.drop_last();
        lemma_filter_no_duplicates(front, pred);
        if front.filter(pred).contains(s.last()) {
            front.lemma_filter_contains_rev(pred, s.last());
            assert(s[front.index_of(s.last())] == s[s.len() - 1]);
        }
    }
}

} // verus!
