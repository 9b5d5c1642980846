//! Which matches a query lets through.

use vstd::prelude::*;

use crate::location::LocationMatch;
use crate::text;

verus! {

/// A match whose line and path read `line` and `path` in lower case passes the
/// lower-case query `query`: it is empty, or it occurs in one of the two.
pub open spec fn passes(query: Seq<char>, line: Seq<char>, path: Seq<char>) -> bool {
    query.len() == 0 || text::occurs_in(query, line) || text::occurs_in(query, path)
}

/// A query as it is compared: without the white space around it, in lower case.
pub open spec fn normalized(query: Seq<char>) -> Seq<char> {
    text::lowercase(text::trimmed(query))
}

/// The match `m` passes the normalized query `query`.
pub open spec fn is_hit(query: Seq<char>, m: LocationMatch) -> bool {
    passes(query, text::lowercase(m.line_text@), text::lowercase(m.path.unix_path@))
}

/// The matches of `matches` that pass the query `query`, in their order.
pub open spec fn hits(matches: Seq<LocationMatch>, query: Seq<char>) -> Seq<LocationMatch> {
    matches.filter(|m: LocationMatch| is_hit(normalized(query), m))
}

/// Whether a match passes the lower-case query `query`, given its line and its path
/// in lower case.
pub fn passes_filter(query: &str, line: &str, path: &str) -> (hit: bool)
    ensures
        hit == passes(query@, line@, path@),
{
    query.is_empty() || text::contains(line, query) || text::contains(path, query)
}

/// The matches that pass the query `query`. A blank query lets all of them through.
pub fn filter_matches(matches: &Vec<LocationMatch>, query: &str) -> (kept: Vec<LocationMatch>)
    ensures
        kept@ == hits(matches@, query@),
        text::trimmed(query@).len() == 0 ==> kept@ == matches@,
{
    let query_text = text::trim(query).to_lowercase();
    let ghost pred = |m: LocationMatch| is_hit(normalized(query@), m);
    let mut kept: Vec<LocationMatch> = Vec::new();
    let mut i: usize = 0;
    assert(matches@.take(0).filter(pred) =~= Seq::<LocationMatch>::empty()) by {
        reveal(Seq::filter);
    }
    while i < matches.len()
        invariant
            i <= matches.len(),
            query_text@ == normalized(query@),
            text::trimmed(query@).len() == 0 ==> query_text@.len() == 0,
            pred == (|m: LocationMatch| is_hit(normalized(query@), m)),
            kept@ == matches@.take(i as int).filter(pred),
            query_text@.len() == 0 ==> kept@ == matches@.take(i as int),
        decreases matches.len() - i,
    {
        let m = &matches[i];
        let line = m.line_text.as_str().to_lowercase();
        let path = m.path.unix_path.as_str().to_lowercase();
        let hit = passes_filter(query_text.as_str(), line.as_str(), path.as_str());
        assert(hit == pred(*m));
        proof {
            matches@.take(i as int).lemma_filter_push(*m, pred);
            assert(matches@.take(i as int).push(*m) == matches@.take(i + 1));
        }
        if hit {
            kept.push(m.clone_shallow());
        }
        i += 1;
    }
    assert(matches@.take(i as int) == matches@);
    kept
}

/// A match in whose line the lower-case query stands, from the index `at` on, passes
/// whatever its path is.
pub proof fn law_passes_by_line(query: Seq<char>, line: Seq<char>, path: Seq<char>, at: int)
    requires
        0 <= at,
        at + query.len() <= line.len(),
        line.subrange(at, at + query.len()) == query,
    ensures
        passes(query, line, path),
{
    assert(line.skip(at).take(query.len() as int) =~= line.subrange(at, at + query.len()));
    text::law_occurs_in(query, line);
}

/// A match in whose path the lower-case query stands, from the index `at` on, passes
/// whatever its line is.
pub proof fn law_passes_by_path(query: Seq<char>, line: Seq<char>, path: Seq<char>, at: int)
    requires
        0 <= at,
        at + query.len() <= path.len(),
        path.subrange(at, at + query.len()) == query,
    ensures
        passes(query, line, path),
{
    assert(path.skip(at).take(query.len() as int) =~= path.subrange(at, at + query.len()));
    text::law_occurs_in(query, path);
}

/// A match passes only by its line or its path: if the query is not empty and stands
/// nowhere in either, it does not pass.
pub proof fn law_misses(query: Seq<char>, line: Seq<char>, path: Seq<char>)
    requires
        query.len() > 0,
        forall|at: int|
            0 <= at && at + query.len() <= line.len() ==> #[trigger] line.subrange(
                at,
                at + query.len(),
            ) != query,
        forall|at: int|
            0 <= at && at + query.len() <= path.len() ==> #[trigger] path.subrange(
                at,
                at + query.len(),
            ) != query,
    ensures
        !passes(query, line, path),
{
    text::law_occurs_in(query, line);
    text::law_occurs_in(query, path);
    assert forall|at: int| 0 <= at && at + query.len() <= line.len() implies #[trigger] line.skip(
        at,
    ).take(query.len() as int) != query by {
        assert(line.skip(at).take(query.len() as int) =~= line.subrange(at, at + query.len()));
    }
    assert forall|at: int| 0 <= at && at + query.len() <= path.len() implies #[trigger] path.skip(
        at,
    ).take(query.len() as int) != query by {
        assert(path.skip(at).take(query.len() as int) =~= path.subrange(at, at + query.len()));
    }
}

/// `kept` holds, at the place `k`, the match `origin[k]` of `matches`; the origins ascend.
pub open spec fn keeps_order(
    kept: Seq<LocationMatch>,
    matches: Seq<LocationMatch>,
    origin: Seq<int>,
) -> bool {
    &&& origin.len() == kept.len()
    &&& forall|k: int|
        0 <= k < origin.len() ==> 0 <= #[trigger] origin[k] < matches.len() && kept[k]
            == matches[origin[k]]
    &&& forall|k: int, l: int| 0 <= k < l < origin.len() ==> origin[k] < origin[l]
}

/// The hits of a query stand in the order of the matches, each match as often as it is
/// there: the match `i` is among them exactly if the query, trimmed and in lower case, is
/// empty or occurs in its line or in its path.
pub proof fn law_hits_keep_order(matches: Seq<LocationMatch>, query: Seq<char>)
    ensures
        exists|origin: Seq<int>|
            {
                &&& #[trigger] keeps_order(hits(matches, query), matches, origin)
                &&& forall|i: int|
                    0 <= i < matches.len() ==> (#[trigger] origin.contains(i) <==> {
                        let sought = text::lowercase(text::trimmed(query));
                        let m = matches[i];
                        ||| sought.len() == 0
                        ||| text::occurs_in(sought, text::lowercase(m.line_text@))
                        ||| text::occurs_in(sought, text::lowercase(m.path.unix_path@))
                    })
            },
{
    let pred = |m: LocationMatch| is_hit(normalized(query), m);
    lemma_filter_origin(matches, pred);
    let origin = choose|origin: Seq<int>|
        {
            &&& #[trigger] keeps_order(matches.filter(pred), matches, origin)
            &&& forall|i: int|
                0 <= i < matches.len() ==> (#[trigger] origin.contains(i) <==> pred(matches[i]))
        };
    assert(keeps_order(hits(matches, query), matches, origin));
}

proof fn lemma_filter_origin(matches: Seq<LocationMatch>, pred: spec_fn(LocationMatch) -> bool)
    ensures
        exists|origin: Seq<int>|
            {
                &&& #[trigger] keeps_order(matches.filter(pred), matches, origin)
                &&& forall|i: int|
                    0 <= i < matches.len() ==> (#[trigger] origin.contains(i) <==> pred(matches[i]))
            },
    decreases matches.len(),
{
    reveal(Seq::filter);
    if matches.len() == 0 {
        assert(keeps_order(matches.filter(pred), matches, Seq::empty()));
    } else {
        let front = matches.drop_last();
        let n = front.len() as int;
        lemma_filter_origin(front, pred);
        let before = choose|origin: Seq<int>|
            {
                &&& #[trigger] keeps_order(front.filter(pred), front, origin)
                &&& forall|i: int|
                    0 <= i < front.len() ==> (#[trigger] origin.contains(i) <==> pred(front[i]))
            };
        let kept = matches.filter(pred);
        let origin = if pred(matches.last()) {
            before.push(n)
        } else {
            before
        };
        assert forall|k: int| 0 <= k < origin.len() implies 0 <= #[trigger] origin[k]
            < matches.len() && kept[k] == matches[origin[k]] by {
            if k < before.len() {
                assert(origin[k] == before[k]);
                assert(kept[k] == front.filter(pred)[k]);
            }
        }
        assert forall|k: int, l: int| 0 <= k < l < origin.len() implies origin[k] < origin[l] by {
            assert(origin[k] == before[k]);
            if l < before.len() {
                assert(origin[l] == before[l]);
            }
        }
        assert forall|i: int| 0 <= i < matches.len() implies (#[trigger] origin.contains(i) <==> pred(
            matches[i],
        )) by {
            if i < n {
                assert(before.contains(i) <==> pred(front[i]));
                if before.contains(i) {
                    assert(origin[before.index_of(i)] == i);
                }
                if origin.contains(i) {
                    assert(before[origin.index_of(i)] == i);
                }
            } else {
                if pred(matches[i]) {
                    assert(origin[before.len() as int] == i);
                }
                if origin.contains(i) && !pred(matches[i]) {
                    assert(before[origin.index_of(i)] == i);
                }
            }
        }
        assert(keeps_order(kept, matches, origin));
    }
}

} // verus!
