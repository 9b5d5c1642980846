//! What a row shows: the matched line and its highlights, the number column, and
//! the labels of a file header.

use vstd::prelude::*;

use crate::location;
use crate::location::{LinePosition, Location, LocationMatch, OffsetRange, ProjectPath};
use crate::text;

verus! {

/// The source line of a match as its row shows it.
#[derive(Debug, PartialEq, Eq)]
pub struct MatchedLine {
    /// The location whose buffer the line is read from.
    pub location: Location,
    /// The line without its leading white space.
    pub text: String,
    /// Where that text stands in the buffer.
    pub visible: OffsetRange,
    /// The part of the text that the match covers.
    pub highlight: OffsetRange,
}

/// The number of bytes that the leading white space of a match's line takes.
pub open spec fn trim_offset(m: LocationMatch) -> int {
    text::byte_len(m.line_text@) - text::byte_len(text::without_leading_space(m.line_text@))
}

/// The offset in the buffer of the first byte that the row shows.
pub open spec fn visible_start(m: LocationMatch) -> int {
    m.line_start() + trim_offset(m)
}

/// The offset in the buffer behind the last byte that the row shows.
pub open spec fn visible_end(m: LocationMatch) -> int {
    m.line_start() + text::byte_len(m.line_text@)
}

/// The value between `low` and `high` that is closest to `x`.
pub open spec fn clamped(x: int, low: int, high: int) -> int {
    if x < low {
        low
    } else if x > high {
        high
    } else {
        x
    }
}

/// `line` is what the row of `m` shows.
pub open spec fn shows(line: MatchedLine, m: LocationMatch) -> bool {
    let from = visible_start(m);
    let to = visible_end(m);
    &&& line.location == m.location
    &&& line.text@ == text::without_leading_space(m.line_text@)
    &&& line.visible.start == from
    &&& line.visible.end == to
    &&& line.highlight.start == clamped(m.range.start as int, from, to) - from
    &&& line.highlight.end == clamped(m.range.end as int, from, to) - from
}

fn clamp(x: usize, low: usize, high: usize) -> (res: usize)
    ensures
        res == clamped(x as int, low as int, high as int),
{
    if x < low {
        low
    } else if x > high {
        high
    } else {
        x
    }
}

/// The matched source line, without its leading white space, and the part of it
/// that the match covers.
pub fn matched_line(m: &LocationMatch) -> (line: MatchedLine)
    requires
        m.line_in_range(),
    ensures
        shows(line, *m),
{
    let original: &str = m.line_text.as_str();
    let shown: &str = text::trim_start(original);
    proof {
        text::lemma_trim_shortens(m.line_text@);
    }
    let original_len: usize = text::len_in_bytes(original);
    let trim_offset: usize = original_len - text::len_in_bytes(shown);
    let line_start: usize = m.range.start - m.relative_range.start;
    let from: usize = line_start + trim_offset;
    let to: usize = line_start + original_len;
    let match_start: usize = clamp(m.range.start, from, to);
    let match_end: usize = clamp(m.range.end, from, to);
    MatchedLine {
        location: m.location,
        text: shown.to_owned(),
        visible: OffsetRange { start: from, end: to },
        highlight: OffsetRange { start: match_start - from, end: match_end - from },
    }
}

/// A stretch of the shown text, with the style that the syntax theme gives to it.
#[derive(Debug)]
pub struct Chunk<S> {
    pub len: usize,
    pub style: Option<S>,
}

/// The number of bytes that the chunks take together.
pub open spec fn total_len<S>(chunks: Seq<Chunk<S>>) -> nat
    decreases chunks.len(),
{
    if chunks.len() == 0 {
        0
    } else {
        total_len(chunks.drop_last()) + chunks.last().len as nat
    }
}

/// The styled chunks with the ranges they take, counted from the first chunk's start.
pub open spec fn styled_ranges<S>(chunks: Seq<Chunk<S>>) -> Seq<(OffsetRange, S)>
    decreases chunks.len(),
{
    if chunks.len() == 0 {
        Seq::empty()
    } else {
        let before = styled_ranges(chunks.drop_last());
        match chunks.last().style {
            Some(style) => before.push(
                (
                    OffsetRange {
                        start: total_len(chunks.drop_last()) as usize,
                        end: total_len(chunks) as usize,
                    },
                    style,
                ),
            ),
            None => before,
        }
    }
}

/// The syntax highlights of a shown text that consists of `chunks`.
pub fn syntax_highlights<S: Copy>(chunks: &Vec<Chunk<S>>) -> (highlights: Vec<(OffsetRange, S)>)
    requires
        total_len(chunks@) <= usize::MAX,
    ensures
        highlights@ == styled_ranges(chunks@),
{
    let mut highlights: Vec<(OffsetRange, S)> = Vec::new();
    let mut offset: usize = 0;
    let mut i: usize = 0;
    while i < chunks.len()
        invariant
            i <= chunks.len(),
            total_len(chunks@) <= usize::MAX,
            offset == total_len(chunks@.take(i as int)),
            highlights@ == styled_ranges(chunks@.take(i as int)),
        decreases chunks.len() - i,
    {
        assert(chunks@.take(i + 1).drop_last() == chunks@.take(i as int));
        proof {
            lemma_total_len_grows(chunks@, i + 1);
        }
        let end: usize = offset + chunks[i].len;
        if let Some(style) = chunks[i].style {
            highlights.push((OffsetRange { start: offset, end }, style));
        }
        offset = end;
        i += 1;
    }
    assert(chunks@.take(i as int) == chunks@);
    highlights
}

proof fn lemma_total_len_grows<S>(chunks: Seq<Chunk<S>>, n: int)
    requires
        0 <= n <= chunks.len(),
    ensures
        total_len(chunks.take(n)) <= total_len(chunks),
    decreases chunks.len() - n,
{
    if n < chunks.len() {
        lemma_total_len_grows(chunks, n + 1);
        assert(chunks.take(n + 1).drop_last() == chunks.take(n));
    } else {
        assert(chunks.take(n) == chunks);
    }
}

/// The digits of the number column: as many as the largest line number has.
pub fn gutter_digits(max_line_number: u32) -> (digits: u32)
    ensures
        digits == vstd::arithmetic::logarithm::log(
            10,
            if max_line_number == 0 {
                1
            } else {
                max_line_number as int
            },
        ) + 1,
{
    let mut rest: u32 = max_line_number;
    let mut digits: u32 = 1;
    while rest >= 10
        invariant
            digits - 1 + text::decimal_of(rest as nat).len() == text::decimal_of(
                max_line_number as nat,
            ).len(),
            digits + rest <= max_line_number + 1,
        decreases rest,
    {
        rest = rest / 10;
        digits += 1;
    }
    proof {
        text::lemma_decimal_len(max_line_number as nat);
    }
    digits
}

/// The labels of a file header.
#[derive(Debug, PartialEq, Eq)]
pub struct HeaderRow {
    /// The icon before the labels.
    pub icon: Option<String>,
    pub file_name: String,
    /// The directory label behind the name; no label is shown for an empty one.
    pub directory: Option<String>,
}

/// The labels of the header of a file, given the last part of its path, the display
/// form of its parent directory, whether file icons are on, and the icon that the
/// icon theme has for it.
pub fn header_row(
    file_name: Option<String>,
    directory: Option<String>,
    file_icons: bool,
    icon: Option<String>,
) -> (row: HeaderRow)
    ensures
        row.icon == (if file_icons {
            icon
        } else {
            None
        }),
        match file_name {
            Some(name) => row.file_name == name,
            None => row.file_name@ == Seq::<char>::empty(),
        },
        row.directory == (match directory {
            Some(parent) if parent@.len() > 0 => Some(parent),
            _ => None,
        }),
{
    let icon = if file_icons {
        icon
    } else {
        None
    };
    let file_name = match file_name {
        Some(name) => name,
        None => String::new(),
    };
    let directory = match directory {
        Some(parent) => {
            if parent.as_str().is_empty() {
                None
            } else {
                Some(parent)
            }
        },
        None => None,
    };
    HeaderRow { icon, file_name, directory }
}

/// The highlight of a match lies in the text that its row shows.
pub proof fn law_highlight_in_text(m: LocationMatch, line: MatchedLine)
    requires
        m.line_in_range(),
        m.range.start <= m.range.end,
        shows(line, m),
    ensures
        line.highlight.start <= line.highlight.end <= text::byte_len(line.text@),
        line.visible.end - line.visible.start == text::byte_len(line.text@),
{
    text::lemma_trim_shortens(m.line_text@);
}

/// The highlight is the range of the match within its line, moved to the left by
/// what was trimmed off.
pub proof fn law_highlight_follows_relative_range(m: LocationMatch, line: MatchedLine)
    requires
        m.wf(),
        shows(line, m),
    ensures
        ({
            let trimmed = trim_offset(m);
            let len = text::byte_len(m.line_text@) as int;
            &&& line.highlight.start == clamped(m.relative_range.start as int, trimmed, len)
                - trimmed
            &&& line.highlight.end == clamped(m.relative_range.end as int, trimmed, len) - trimmed
        }),
{
    text::lemma_trim_shortens(m.line_text@);
}

/// `a` less `b`, and 0 where that would be negative.
pub open spec fn less(a: int, b: int) -> int {
    if a >= b {
        a - b
    } else {
        0
    }
}

/// The highlight of a match that starts on its line covers exactly the range of the
/// match within the line, moved to the left by what was trimmed off, and both its ends
/// lie in the shown text.
pub proof fn law_highlight_is_the_shifted_range(m: LocationMatch, line: MatchedLine)
    requires
        m.wf(),
        m.starts_on_line(),
        shows(line, m),
    ensures
        line.text@ == text::without_leading_space(m.line_text@),
        line.highlight.start == less(m.relative_range.start as int, trim_offset(m)),
        line.highlight.end == less(m.relative_range.end as int, trim_offset(m)),
        line.highlight.start <= text::byte_len(line.text@),
        line.highlight.end <= text::byte_len(line.text@),
        m.range.start <= m.range.end ==> line.highlight.start <= line.highlight.end,
{
    text::lemma_trim_shortens(m.line_text@);
}

/// The same of a location: the highlight in its row is its range within the row that it
/// starts on, moved to the left by what was trimmed off.
pub proof fn law_location_highlight(
    location: Location,
    path: ProjectPath,
    position: LinePosition,
    line: MatchedLine,
)
    requires
        position.consistent(),
        position.start_offset <= position.end_offset,
        position.starts_on_row(),
        shows(line, location::match_for(location, path, position)),
    ensures
        ({
            let m = location::match_for(location, path, position);
            &&& m.relative_range.start <= m.relative_range.end <= text::byte_len(m.line_text@)
            &&& line.highlight.start == less(m.relative_range.start as int, trim_offset(m))
            &&& line.highlight.end == less(m.relative_range.end as int, trim_offset(m))
            &&& line.highlight.start <= line.highlight.end <= text::byte_len(line.text@)
        }),
{
    location::law_relative_range_in_line(location, path, position);
    law_highlight_is_the_shifted_range(location::match_for(location, path, position), line);
}

/// The syntax highlights come from left to right, do not overlap, and lie in the
/// text that the chunks make up.
pub proof fn law_highlights_ascend<S>(chunks: Seq<Chunk<S>>)
    requires
        total_len(chunks) <= usize::MAX,
    ensures
        forall|i: int|
            0 <= i < styled_ranges(chunks).len() ==> (#[trigger] styled_ranges(chunks)[i]).0.start
                <= styled_ranges(chunks)[i].0.end <= total_len(chunks),
        forall|i: int, j: int|
            0 <= i < j < styled_ranges(chunks).len() ==> (#[trigger] styled_ranges(chunks)[i]).0.end
                <= (#[trigger] styled_ranges(chunks)[j]).0.start,
    decreases chunks.len(),
{
    if chunks.len() > 0 {
        let front = chunks.drop_last();
        law_highlights_ascend(front);
        let before = styled_ranges(front);
        let ranges = styled_ranges(chunks);
        assert forall|i: int| 0 <= i < ranges.len() implies (#[trigger] ranges[i]).0.start
            <= ranges[i].0.end <= total_len(chunks) by {
            if i < before.len() {
                assert(ranges[i] == before[i]);
            }
        }
        assert forall|i: int, j: int| 0 <= i < j < ranges.len() implies (#[trigger] ranges[i]).0.end
            <= (#[trigger] ranges[j]).0.start by {
            assert(ranges[i] == before[i]);
            if j < before.len() {
                assert(ranges[j] == before[j]);
            }
        }
    }
}

/// Every line number up to the largest fits into the number column.
pub proof fn law_line_number_fits(line_number: u32, max_line_number: u32)
    requires
        line_number <= max_line_number,
    ensures
        text::decimal_of(line_number as nat).len() <= vstd::arithmetic::logarithm::log(
            10,
            if max_line_number == 0 {
                1
            } else {
                max_line_number as int
            },
        ) + 1,
{
    text::lemma_decimal_len(line_number as nat);
    vstd::arithmetic::logarithm::lemma_log_is_ordered(
        10,
        if line_number == 0 {
            1
        } else {
            line_number as int
        },
        if max_line_number == 0 {
            1
        } else {
            max_line_number as int
        },
    );
}

/// What a row shows of its match: the line from its first character on that is no white
/// space, up to the end of the line.
pub proof fn law_shown_text(m: LocationMatch, line: MatchedLine)
    requires
        m.line_in_range(),
        shows(line, m),
    ensures
        line.location == m.location,
        exists|k: int|
            {
                &&& 0 <= k <= m.line_text@.len()
                &&& line.text@ == #[trigger] m.line_text@.skip(k)
                &&& forall|i: int| 0 <= i < k ==> text::white_space(#[trigger] m.line_text@[i])
                &&& k < m.line_text@.len() ==> !text::white_space(m.line_text@[k])
            },
        m.range.start - m.relative_range.start + text::byte_len(m.line_text@) == line.visible.end,
        line.visible.start + text::byte_len(line.text@) == line.visible.end,
{
    text::lemma_trim_shortens(m.line_text@);
    text::law_leading_space(m.line_text@);
}

/// An end of the match that lies in the shown part of the buffer is marked where it lies;
/// one before it is marked at the start of the text, one behind it at the end.
pub proof fn law_highlight_ends(m: LocationMatch, line: MatchedLine)
    requires
        m.line_in_range(),
        shows(line, m),
    ensures
        line.visible.start <= m.range.start <= line.visible.end ==> line.visible.start
            + line.highlight.start == m.range.start,
        line.visible.start <= m.range.end <= line.visible.end ==> line.visible.start
            + line.highlight.end == m.range.end,
        m.range.start <= line.visible.start ==> line.highlight.start == 0,
        m.range.end <= line.visible.start ==> line.highlight.end == 0,
        m.range.start >= line.visible.end ==> line.highlight.start == text::byte_len(line.text@),
        m.range.end >= line.visible.end ==> line.highlight.end == text::byte_len(line.text@),
{
    text::lemma_trim_shortens(m.line_text@);
}

/// A shown byte is highlighted exactly if it belongs to the match.
pub proof fn law_highlighted_bytes(m: LocationMatch, line: MatchedLine, offset: int)
    requires
        m.line_in_range(),
        shows(line, m),
        line.visible.start <= offset < line.visible.end,
    ensures
        line.highlight.start <= offset - line.visible.start < line.highlight.end <==> m.range.start
            <= offset < m.range.end,
{
    text::lemma_trim_shortens(m.line_text@);
}

/// Chunks take together what each of them takes.
pub proof fn law_total_len<S>(chunks: Seq<Chunk<S>>, chunk: Chunk<S>)
    ensures
        total_len(Seq::<Chunk<S>>::empty()) == 0,
        total_len(chunks.push(chunk)) == total_len(chunks) + chunk.len,
{
    assert(chunks.push(chunk).drop_last() == chunks);
}

/// The range `k` of `ranges` is the stretch of the chunk `origin[k]`, in its style; the
/// origins ascend, and every styled chunk is among them.
pub open spec fn come_from<S>(
    ranges: Seq<(OffsetRange, S)>,
    chunks: Seq<Chunk<S>>,
    origin: Seq<int>,
) -> bool {
    &&& origin.len() == ranges.len()
    &&& forall|k: int|
        0 <= k < origin.len() ==> {
            &&& 0 <= #[trigger] origin[k] < chunks.len()
            &&& chunks[origin[k]].style == Some(ranges[k].1)
            &&& ranges[k].0.start == total_len(chunks.take(origin[k]))
            &&& ranges[k].0.end == ranges[k].0.start + chunks[origin[k]].len
        }
    &&& forall|k: int, l: int| 0 <= k < l < origin.len() ==> origin[k] < origin[l]
    &&& forall|i: int|
        0 <= i < chunks.len() && (#[trigger] chunks[i]).style is Some ==> origin.contains(i)
}

/// Every styled chunk is highlighted, in its place and its style, and nothing else is.
pub proof fn law_highlights_are_the_styled_chunks<S>(chunks: Seq<Chunk<S>>)
    requires
        total_len(chunks) <= usize::MAX,
    ensures
        exists|origin: Seq<int>| #[trigger] come_from(styled_ranges(chunks), chunks, origin),
    decreases chunks.len(),
{
    if chunks.len() == 0 {
        assert(come_from(styled_ranges(chunks), chunks, Seq::empty()));
    } else {
        let front = chunks.drop_last();
        law_highlights_are_the_styled_chunks(front);
        let before = choose|origin: Seq<int>| #[trigger]
            come_from(styled_ranges(front), front, origin);
        let n = front.len() as int;
        let ranges = styled_ranges(chunks);
        let origin = if chunks.last().style is Some {
            before.push(n)
        } else {
            before
        };
        assert(chunks.take(n) == front);
        assert forall|k: int| 0 <= k < origin.len() implies {
            &&& 0 <= #[trigger] origin[k] < chunks.len()
            &&& chunks[origin[k]].style == Some(ranges[k].1)
            &&& ranges[k].0.start == total_len(chunks.take(origin[k]))
            &&& ranges[k].0.end == ranges[k].0.start + chunks[origin[k]].len
        } by {
            if k < before.len() {
                assert(origin[k] == before[k]);
                assert(ranges[k] == styled_ranges(front)[k]);
                assert(chunks.take(before[k]) == front.take(before[k]));
            }
        }
        assert forall|k: int, l: int| 0 <= k < l < origin.len() implies origin[k] < origin[l] by {
            assert(origin[k] == before[k]);
            if l < before.len() {
                assert(origin[l] == before[l]);
            }
        }
        assert forall|i: int|
            0 <= i < chunks.len() && (#[trigger] chunks[i]).style is Some implies origin.contains(
            i,
        ) by {
            if i < n {
                assert(front[i].style is Some);
                assert(before.contains(i));
                assert(origin[before.index_of(i)] == i);
            } else {
                assert(origin[before.len() as int] == i);
            }
        }
        assert(come_from(ranges, chunks, origin));
    }
}

} // verus!
