//! The text of a file as it is browsed: colored, measured, and selected from.
use syntect::easy::HighlightLines;
use syntect::highlighting::ThemeSet;
use syntect::parsing::SyntaxSet;
use syntect::util::LinesWithEndings;
use vstd::prelude::*;
use vstd::utf8::{decode_utf8, valid_utf8};

use crate::error::{error_text, Error, ErrorView};
use crate::layout::spec_max;
use crate::model::{CurrentFile, FileView, TextEligibility};
use crate::seqs::{group_views, option_view, views};
use crate::style::{
    brightened, code_color, plain, styled, Color, Span, SpanView, TextStyle, PANEL_SELECTION,
};
use crate::text::{
    decimal, decimal_text, decimal_width, digit_count, from_chars, is_line,
    law_lines_are_read_back, line_ended, lines, lossy, lossy_text, text_lines, to_chars, utf8_text,
};
use crate::width::{cells, cells_of, plus};

verus! {

/// A piece of source text in one color.
#[derive(Debug, PartialEq, Eq)]
pub struct ColoredSpan {
    pub text: String,
    pub foreground: Color,
}

pub ghost struct ColoredView {
    pub text: Seq<char>,
    pub foreground: Color,
}

impl View for ColoredSpan {
    type V = ColoredView;

    open spec fn view(&self) -> ColoredView {
        ColoredView { text: self.text@, foreground: self.foreground }
    }
}

/// The lines of a source, each a sequence of pieces.
pub type SourceLines = Seq<Seq<ColoredView>>;

pub open spec fn source_views(lines: Seq<Vec<ColoredSpan>>) -> SourceLines {
    Seq::new(lines.len(), |i: int| views(lines[i]@))
}

/// The characters of the pieces, one after another.
pub open spec fn line_chars(spans: Seq<ColoredView>) -> Seq<char>
    decreases spans.len(),
{
    if spans.len() == 0 {
        Seq::empty()
    } else {
        line_chars(spans.drop_last()) + spans.last().text
    }
}

/// The characters of the pieces, one after another.
pub fn chars_of_line(spans: &[ColoredSpan]) -> (chars: Vec<char>)
    ensures
        chars@ == line_chars(views(spans@)),
{
    let ghost all = views(spans@);
    let mut chars: Vec<char> = Vec::new();
    let mut i: usize = 0;
    proof {
        assert(all.take(0) =~= Seq::empty());
    }
    while i < spans.len()
        invariant
            i <= spans@.len(),
            all == views(spans@),
            chars@ == line_chars(all.take(i as int)),
        decreases spans@.len() - i,
    {
        proof {
            assert(all.take(i + 1).drop_last() =~= all.take(i as int));
            assert(all.take(i + 1).last() == all[i as int]);
        }
        let mut more = to_chars(spans[i].text.as_str());
        chars.append(&mut more);
        i += 1;
    }
    proof {
        assert(all.take(i as int) =~= all);
    }
    chars
}

/// Cells that a character keeps to itself: at least one.
pub open spec fn own_cells(c: char) -> int {
    spec_max(cells(c), 1)
}

/// Whether a character that begins at a column lies in the columns from `start`
/// up to `end`.
pub open spec fn in_columns(column: int, c: char, start: int, end: int) -> bool {
    column < end && plus(column, own_cells(c)) > start
}

/// The characters that lie in the columns, the first beginning at `column`.
pub open spec fn picked(chars: Seq<char>, column: int, start: int, end: int) -> Seq<char>
    decreases chars.len(),
{
    if chars.len() == 0 {
        Seq::empty()
    } else {
        let rest = picked(chars.skip(1), plus(column, cells(chars[0])), start, end);
        if in_columns(column, chars[0], start, end) {
            seq![chars[0]] + rest
        } else {
            rest
        }
    }
}

/// The column that the characters end at, the first beginning at `column`.
pub open spec fn end_column(chars: Seq<char>, column: int) -> int
    decreases chars.len(),
{
    if chars.len() == 0 {
        column
    } else {
        end_column(chars.skip(1), plus(column, cells(chars[0])))
    }
}

/// Cells of the character that lies at the column.
pub open spec fn width_at(chars: Seq<char>, column: int, target: int) -> Option<int>
    decreases chars.len(),
{
    if chars.len() == 0 {
        None
    } else if column <= target < plus(column, own_cells(chars[0])) {
        Some(own_cells(chars[0]))
    } else {
        width_at(chars.skip(1), plus(column, cells(chars[0])), target)
    }
}

/// Cells of a line of source.
pub open spec fn line_width(spans: Seq<ColoredView>) -> int {
    end_column(line_chars(spans), 0)
}

/// Cells of a line of source.
pub fn source_text_width(spans: &[ColoredSpan]) -> (width: usize)
    ensures
        width == line_width(views(spans@)),
{
    let chars = chars_of_line(spans);
    let mut column: usize = 0;
    let mut i: usize = 0;
    proof {
        assert(chars@.skip(0) =~= chars@);
    }
    while i < chars.len()
        invariant
            i <= chars@.len(),
            end_column(chars@, 0) == end_column(chars@.skip(i as int), column as int),
        decreases chars@.len() - i,
    {
        proof {
            assert(chars@.skip(i as int)[0] == chars@[i as int]);
            assert(chars@.skip(i as int).skip(1) =~= chars@.skip(i + 1));
        }
        column = column.saturating_add(cells_of(chars[i]));
        i += 1;
    }
    column
}

fn own_width(c: char) -> (width: usize)
    ensures
        width == own_cells(c),
{
    let width = cells_of(c);
    if width < 1 {
        1
    } else {
        width
    }
}

/// The text of a line that lies in the columns.
pub fn source_text_range(spans: &[ColoredSpan], start: usize, end: usize) -> (text: String)
    ensures
        text@ == picked(line_chars(views(spans@)), 0, start as int, end as int),
{
    let chars = chars_of_line(spans);
    let mut output = String::new();
    let mut column: usize = 0;
    let mut i: usize = 0;
    let ghost wanted = picked(chars@, 0, start as int, end as int);
    proof {
        assert(chars@.skip(0) =~= chars@);
        assert(output@ + wanted =~= wanted);
    }
    while i < chars.len()
        invariant
            i <= chars@.len(),
            output@ + picked(chars@.skip(i as int), column as int, start as int, end as int)
                == wanted,
        decreases chars@.len() - i,
    {
        let ghost rest = chars@.skip(i as int);
        let ghost before = output@;
        let c = chars[i];
        let occupied_end = column.saturating_add(own_width(c));
        let next = column.saturating_add(cells_of(c));
        let ghost tail = picked(chars@.skip(i + 1), next as int, start as int, end as int);
        proof {
            assert(rest[0] == c);
            assert(rest.skip(1) =~= chars@.skip(i + 1));
            assert(before + (seq![c] + tail) =~= before.push(c) + tail);
        }
        if column < end && occupied_end > start {
            output.push(c);
        }
        column = next;
        i += 1;
    }
    proof {
        assert(chars@.skip(i as int) =~= Seq::empty());
        assert(output@ + Seq::<char>::empty() =~= output@);
    }
    output
}

/// Cells of the character of a line that lies at the column.
pub fn source_char_width_at(spans: &[ColoredSpan], target: usize) -> (width: Option<usize>)
    ensures
        (match width {
            Some(width) => Some(width as int),
            None => None,
        }) == width_at(line_chars(views(spans@)), 0, target as int),
{
    let chars = chars_of_line(spans);
    let mut column: usize = 0;
    let mut i: usize = 0;
    proof {
        assert(chars@.skip(0) =~= chars@);
    }
    while i < chars.len()
        invariant
            i <= chars@.len(),
            chars@ == line_chars(views(spans@)),
            width_at(chars@, 0, target as int) == width_at(
                chars@.skip(i as int),
                column as int,
                target as int,
            ),
        decreases chars@.len() - i,
    {
        proof {
            assert(chars@.skip(i as int)[0] == chars@[i as int]);
            assert(chars@.skip(i as int).skip(1) =~= chars@.skip(i + 1));
        }
        let width = own_width(chars[i]);
        if target >= column && target < column.saturating_add(width) {
            return Some(width);
        }
        column = column.saturating_add(cells_of(chars[i]));
        i += 1;
    }
    None
}

/// The style of a piece of source text.
pub open spec fn source_style(foreground: Color, selected: bool) -> TextStyle {
    let style = plain().with_fg(foreground).in_bold();
    if selected {
        style.with_bg(PANEL_SELECTION)
    } else {
        style
    }
}

fn styled_source_segment(text: String, foreground: Color, selected: bool) -> (span: Span)
    ensures
        span@ == styled(text@, source_style(foreground, selected)),
{
    let style = plain().fg(foreground).bold();
    if selected {
        Span::new(text, style.bg(PANEL_SELECTION))
    } else {
        Span::new(text, style)
    }
}

/// Whether the character at the column is selected.
pub open spec fn is_selected(column: int, c: char, selection: Option<(usize, usize)>) -> bool {
    match selection {
        Some((start, end)) => in_columns(column, c, start as int, end as int),
        None => false,
    }
}

/// The pieces that a text is shown in, cut where selected and unselected
/// characters meet; `open` is the piece under way, and whether it is selected.
pub open spec fn segments(
    chars: Seq<char>,
    column: int,
    selection: Option<(usize, usize)>,
    open: Seq<char>,
    open_selected: bool,
    foreground: Color,
) -> Seq<SpanView>
    decreases chars.len(),
{
    if chars.len() == 0 {
        if open.len() == 0 {
            Seq::empty()
        } else {
            seq![styled(open, source_style(foreground, open_selected))]
        }
    } else {
        let selected = is_selected(column, chars[0], selection);
        let next = plus(column, cells(chars[0]));
        if open.len() > 0 && open_selected != selected {
            seq![styled(open, source_style(foreground, open_selected))] + segments(
                chars.skip(1),
                next,
                selection,
                seq![chars[0]],
                selected,
                foreground,
            )
        } else {
            segments(chars.skip(1), next, selection, open.push(chars[0]), selected, foreground)
        }
    }
}

/// The pieces that a span is shown in.
pub open spec fn span_segments(
    span: ColoredView,
    column: int,
    selection: Option<(usize, usize)>,
) -> Seq<SpanView> {
    segments(span.text, column, selection, Seq::empty(), false, span.foreground)
}

/// The pieces that a span is shown in, and the column that it ends at.
pub fn render_source_span(
    span: &ColoredSpan,
    start_column: usize,
    selection: Option<(usize, usize)>,
) -> (result: (Vec<Span>, usize))
    ensures
        views(result.0@) == span_segments(span@, start_column as int, selection),
        result.1 == end_column(span@.text, start_column as int),
{
    broadcast use group_views;

    let chars = to_chars(span.text.as_str());
    let foreground = span.foreground;
    let mut rendered: Vec<Span> = Vec::new();
    let mut segment = String::new();
    let mut segment_length: usize = 0;
    let mut segment_selected = false;
    let mut column = start_column;
    let mut i: usize = 0;
    let ghost wanted = span_segments(span@, start_column as int, selection);
    proof {
        assert(chars@.skip(0) =~= chars@);
        assert(segment@ =~= Seq::empty());
        assert(views(rendered@) + wanted =~= wanted);
    }
    while i < chars.len()
        invariant
            i <= chars@.len(),
            chars@ == span@.text,
            foreground == span@.foreground,
            segment_length == segment@.len(),
            segment_length <= i,
            wanted == span_segments(span@, start_column as int, selection),
            views(rendered@) + segments(
                chars@.skip(i as int),
                column as int,
                selection,
                segment@,
                segment_selected,
                foreground,
            ) == wanted,
            end_column(chars@, start_column as int) == end_column(
                chars@.skip(i as int),
                column as int,
            ),
        decreases chars@.len() - i,
    {
        let c = chars[i];
        let ghost rest = chars@.skip(i as int);
        let ghost done = views(rendered@);
        proof {
            assert(rest[0] == c);
            assert(rest.skip(1) =~= chars@.skip(i + 1));
        }
        let next = column.saturating_add(cells_of(c));
        let selected = match selection {
            Some((start, end)) => column < end && column.saturating_add(own_width(c)) > start,
            None => false,
        };
        if segment_length > 0 && segment_selected != selected {
            let span_done = styled_source_segment(segment, foreground, segment_selected);
            let ghost tail = segments(
                rest.skip(1),
                next as int,
                selection,
                seq![c],
                selected,
                foreground,
            );
            proof {
                assert(done + (seq![span_done@] + tail) =~= done.push(span_done@) + tail);
            }
            rendered.push(span_done);
            segment = String::new();
            segment_length = 0;
            segment.push(c);
            proof {
                assert(segment@ =~= seq![c]);
            }
        } else {
            segment.push(c);
        }
        segment_length = segment_length + 1;
        segment_selected = selected;
        column = next;
        i += 1;
    }
    let ghost done = views(rendered@);
    proof {
        assert(chars@.skip(i as int) =~= Seq::empty());
    }
    if segment_length > 0 {
        let last = styled_source_segment(segment, foreground, segment_selected);
        proof {
            assert(done + seq![last@] =~= done.push(last@));
        }
        rendered.push(last);
    } else {
        proof {
            assert(done + Seq::<SpanView>::empty() =~= done);
        }
    }
    (rendered, column)
}

/// The text of spans, one after another.
pub open spec fn span_text(spans: Seq<SpanView>) -> Seq<char>
    decreases spans.len(),
{
    if spans.len() == 0 {
        Seq::empty()
    } else {
        spans[0].text + span_text(spans.skip(1))
    }
}

proof fn lemma_segments_text(
    chars: Seq<char>,
    column: int,
    selection: Option<(usize, usize)>,
    open: Seq<char>,
    open_selected: bool,
    foreground: Color,
)
    ensures
        span_text(segments(chars, column, selection, open, open_selected, foreground)) == open
            + chars,
    decreases chars.len(),
{
    let all = segments(chars, column, selection, open, open_selected, foreground);
    if chars.len() == 0 {
        if open.len() > 0 {
            reveal_with_fuel(span_text, 2);
            assert(all.skip(1) =~= Seq::empty());
        }
        assert(span_text(all) =~= open + chars);
    } else {
        let selected = is_selected(column, chars[0], selection);
        let next = plus(column, cells(chars[0]));
        if open.len() > 0 && open_selected != selected {
            lemma_segments_text(
                chars.skip(1),
                next,
                selection,
                seq![chars[0]],
                selected,
                foreground,
            );
            let tail = segments(
                chars.skip(1),
                next,
                selection,
                seq![chars[0]],
                selected,
                foreground,
            );
            assert(all.skip(1) =~= tail);
            assert(span_text(all) =~= open + (seq![chars[0]] + chars.skip(1)));
            assert(seq![chars[0]] + chars.skip(1) =~= chars);
        } else {
            lemma_segments_text(
                chars.skip(1),
                next,
                selection,
                open.push(chars[0]),
                selected,
                foreground,
            );
            assert(open.push(chars[0]) + chars.skip(1) =~= open + chars);
        }
    }
}

/// However text is selected, all of it is shown, and nothing else.
pub proof fn law_selecting_keeps_the_text(
    span: ColoredView,
    column: int,
    selection: Option<(usize, usize)>,
)
    ensures
        span_text(span_segments(span, column, selection)) == span.text,
{
    lemma_segments_text(span.text, column, selection, Seq::empty(), false, span.foreground);
    assert(Seq::<char>::empty() + span.text =~= span.text);
}

/// The column at which the character at `i` begins, the first beginning at `column`.
pub open spec fn column_from(chars: Seq<char>, column: int, i: int) -> int
    decreases i,
{
    if i <= 0 {
        column
    } else {
        plus(column_from(chars, column, i - 1), cells(chars[i - 1]))
    }
}

/// The column at which the character at `i` begins.
pub open spec fn column_of(chars: Seq<char>, i: int) -> int {
    column_from(chars, 0, i)
}

/// The column behind the character at `i`: at least one further.
pub open spec fn column_behind(chars: Seq<char>, i: int) -> int {
    plus(column_of(chars, i), spec_max(cells(chars[i]), 1))
}

proof fn lemma_column_skip(chars: Seq<char>, column: int, i: int)
    requires
        chars.len() > 0,
        0 <= i < chars.len(),
    ensures
        column_from(chars.skip(1), plus(column, cells(chars[0])), i) == column_from(
            chars,
            column,
            i + 1,
        ),
    decreases i,
{
    if i > 0 {
        lemma_column_skip(chars, column, i - 1);
        assert(chars.skip(1)[i - 1] == chars[i]);
    } else {
        assert(column_from(chars, column, 0) == column);
    }
}

proof fn lemma_columns_grow(chars: Seq<char>, column: int, i: int, j: int)
    requires
        0 <= i <= j <= chars.len(),
        0 <= column <= usize::MAX,
    ensures
        0 <= column_from(chars, column, i) <= column_from(chars, column, j) <= usize::MAX,
    decreases j,
{
    if j > 0 {
        if i < j {
            lemma_columns_grow(chars, column, i, j - 1);
        } else {
            lemma_columns_grow(chars, column, i - 1, j - 1);
        }
    }
}

pub proof fn lemma_column_is_some(chars: Seq<char>, i: int)
    requires
        0 <= i <= chars.len(),
    ensures
        0 <= column_of(chars, i) <= usize::MAX,
{
    lemma_columns_grow(chars, 0, i, i);
}

spec fn in_stretch(chars: Seq<char>, column: int, start: int, end: int, i: int) -> bool {
    in_columns(column_from(chars, column, i), chars[i], start, end)
}

proof fn lemma_picked(chars: Seq<char>, column: int, start: int, end: int) -> (ends: (int, int))
    requires
        0 <= column <= usize::MAX,
    ensures
        0 <= ends.0 <= ends.1 <= chars.len(),
        picked(chars, column, start, end) == chars.subrange(ends.0, ends.1),
        forall|i: int|
            0 <= i < chars.len() ==> (ends.0 <= i < ends.1 <==> #[trigger] in_stretch(
                chars,
                column,
                start,
                end,
                i,
            )),
    decreases chars.len(),
{
    if chars.len() == 0 {
        assert(picked(chars, column, start, end) =~= chars.subrange(0, 0));
        (0, 0)
    } else {
        let rest = chars.skip(1);
        let next = plus(column, cells(chars[0]));
        let (a, b) = lemma_picked(rest, next, start, end);
        assert forall|i: int| 0 < i < chars.len() implies #[trigger] in_stretch(
            chars,
            column,
            start,
            end,
            i,
        ) == in_stretch(rest, next, start, end, i - 1) by {
            lemma_column_skip(chars, column, i - 1);
            assert(rest[i - 1] == chars[i]);
        }
        let first = in_columns(column, chars[0], start, end);
        assert(in_stretch(chars, column, start, end, 0) == first);
        if first {
            if a < b {
                lemma_columns_grow(rest, next, 0, a);
                assert(in_stretch(rest, next, start, end, a));
                assert(in_stretch(rest, next, start, end, 0));
                assert(a == 0);
                assert(picked(chars, column, start, end) =~= chars.subrange(0, b + 1));
                assert forall|i: int| 0 <= i < chars.len() implies (0 <= i < b + 1
                    <==> #[trigger] in_stretch(chars, column, start, end, i)) by {
                    if i > 0 {
                        assert(in_stretch(rest, next, start, end, i - 1) == (a <= i - 1 < b));
                    }
                }
                (0, b + 1)
            } else {
                assert(picked(chars, column, start, end) =~= chars.subrange(0, 1));
                assert forall|i: int| 0 <= i < chars.len() implies (0 <= i < 1
                    <==> #[trigger] in_stretch(chars, column, start, end, i)) by {
                    if i > 0 {
                        assert(in_stretch(rest, next, start, end, i - 1) == (a <= i - 1 < b));
                    }
                }
                (0, 1)
            }
        } else {
            assert(picked(chars, column, start, end) =~= chars.subrange(a + 1, b + 1));
            assert forall|i: int| 0 <= i < chars.len() implies (a + 1 <= i < b + 1
                <==> #[trigger] in_stretch(chars, column, start, end, i)) by {
                if i > 0 {
                    assert(in_stretch(rest, next, start, end, i - 1) == (a <= i - 1 < b));
                }
            }
            (a + 1, b + 1)
        }
    }
}

/// What lies in the columns of a line is one stretch of it: exactly the characters
/// that begin before the end of the columns and reach behind their start.
pub proof fn law_columns_hold_a_stretch(chars: Seq<char>, start: int, end: int) -> (ends: (int, int))
    ensures
        0 <= ends.0 <= ends.1 <= chars.len(),
        picked(chars, 0, start, end) == chars.subrange(ends.0, ends.1),
        forall|i: int|
            0 <= i < chars.len() ==> (ends.0 <= i < ends.1 <==> #[trigger] column_of(chars, i) < end
                && column_behind(chars, i) > start),
{
    let ends = lemma_picked(chars, 0, start, end);
    assert forall|i: int| 0 <= i < chars.len() implies (ends.0 <= i < ends.1
        <==> #[trigger] column_of(chars, i) < end && column_behind(chars, i) > start) by {
        assert(in_stretch(chars, 0, start, end, i) == (ends.0 <= i < ends.1));
    }
    ends
}

proof fn lemma_end_column(chars: Seq<char>, column: int)
    ensures
        end_column(chars, column) == column_from(chars, column, chars.len() as int),
    decreases chars.len(),
{
    if chars.len() > 0 {
        let next = plus(column, cells(chars[0]));
        let rest = chars.skip(1);
        lemma_end_column(rest, next);
        if rest.len() == 0 {
            assert(column_from(chars, column, 0) == column);
        } else {
            let last = rest.len() - 1;
            lemma_column_skip(chars, column, last);
            assert(rest[last] == chars[last + 1]);
        }
    }
}

/// A line ends in the column at which another character would begin.
pub proof fn law_line_ends_behind_its_characters(chars: Seq<char>)
    ensures
        end_column(chars, 0) == column_of(chars, chars.len() as int),
{
    lemma_end_column(chars, 0);
}

/// Whether the character at `i` lies at the column.
pub open spec fn lies_at(chars: Seq<char>, i: int, column: int) -> bool {
    column_of(chars, i) <= column < column_behind(chars, i)
}

/// Whether `width` is that of the first character that lies at the column; one where
/// there is none.
pub open spec fn is_width_at(chars: Seq<char>, column: int, width: int) -> bool {
    &&& forall|i: int|
        0 <= i < chars.len() && #[trigger] lies_at(chars, i, column) && (forall|j: int|
            0 <= j < i ==> !#[trigger] lies_at(chars, j, column)) ==> width == spec_max(
            cells(chars[i]),
            1,
        )
    &&& (forall|i: int| 0 <= i < chars.len() ==> !#[trigger] lies_at(chars, i, column)) ==> width
        == 1
}

proof fn lemma_width_at(chars: Seq<char>, column: int, target: int) -> (found: int)
    requires
        0 <= column <= usize::MAX,
    ensures
        width_at(chars, column, target) matches Some(width) ==> {
            &&& 0 <= found < chars.len()
            &&& width == own_cells(chars[found])
            &&& column_from(chars, column, found) <= target < plus(
                column_from(chars, column, found),
                width,
            )
            &&& forall|j: int|
                0 <= j < found ==> !(#[trigger] column_from(chars, column, j) <= target < plus(
                    column_from(chars, column, j),
                    own_cells(chars[j]),
                ))
        },
        width_at(chars, column, target) is None ==> forall|j: int|
            0 <= j < chars.len() ==> !(#[trigger] column_from(chars, column, j) <= target < plus(
                column_from(chars, column, j),
                own_cells(chars[j]),
            )),
    decreases chars.len(),
{
    if chars.len() == 0 {
        0
    } else if column <= target < plus(column, own_cells(chars[0])) {
        0
    } else {
        let rest = chars.skip(1);
        let next = plus(column, cells(chars[0]));
        let later = lemma_width_at(rest, next, target);
        assert forall|j: int| 0 < j < chars.len() implies #[trigger] column_from(chars, column, j)
            == column_from(rest, next, j - 1) && rest[j - 1] == chars[j] by {
            lemma_column_skip(chars, column, j - 1);
        }
        assert forall|j: int|
            0 <= j < chars.len() && (width_at(chars, column, target) is None || j < later
                + 1) implies !(#[trigger] column_from(chars, column, j) <= target < plus(
            column_from(chars, column, j),
            own_cells(chars[j]),
        )) by {
            if j > 0 {
                assert(column_from(rest, next, j - 1) == column_from(chars, column, j));
            }
        }
        if width_at(chars, column, target) is Some {
            assert(column_from(chars, column, later + 1) == column_from(rest, next, later));
        }
        later + 1
    }
}

pub proof fn lemma_some_width(chars: Seq<char>, column: int, target: int)
    ensures
        width_at(chars, column, target) matches Some(width) ==> width >= 1,
    decreases chars.len(),
{
    if chars.len() > 0 {
        lemma_some_width(chars.skip(1), plus(column, cells(chars[0])), target);
    }
}

/// The width at a column is that of the first character that lies there.
pub proof fn law_width_is_of_the_character_there(chars: Seq<char>, target: int)
    ensures
        is_width_at(
            chars,
            target,
            match width_at(chars, 0, target) {
                Some(width) => width,
                None => 1,
            },
        ),
{
    let found = lemma_width_at(chars, 0, target);
    if width_at(chars, 0, target) is Some {
        assert(lies_at(chars, found, target));
        assert forall|i: int|
            0 <= i < chars.len() && #[trigger] lies_at(chars, i, target) && (forall|j: int|
                0 <= j < i ==> !#[trigger] lies_at(chars, j, target)) implies own_cells(
            chars[found],
        ) == spec_max(cells(chars[i]), 1) by {
            if i < found {
                assert(column_from(chars, 0, i) == column_of(chars, i));
            } else if found < i {
                assert(!lies_at(chars, found, target));
            }
        }
    } else {
        assert forall|i: int| 0 <= i < chars.len() implies !#[trigger] lies_at(
            chars,
            i,
            target,
        ) by {
            assert(column_from(chars, 0, i) == column_of(chars, i));
        }
    }
}

/// Which characters of the spans are lit, one after another.
pub open spec fn lit_chars(spans: Seq<SpanView>) -> Seq<bool>
    decreases spans.len(),
{
    if spans.len() == 0 {
        Seq::empty()
    } else {
        Seq::new(spans[0].text.len(), |i: int| spans[0].style.background == Some(PANEL_SELECTION))
            + lit_chars(spans.skip(1))
    }
}

proof fn lemma_segments_lit(
    chars: Seq<char>,
    column: int,
    selection: Option<(usize, usize)>,
    open: Seq<char>,
    open_selected: bool,
    foreground: Color,
)
    ensures
        lit_chars(segments(chars, column, selection, open, open_selected, foreground)) == Seq::new(
            open.len(),
            |i: int| open_selected,
        ) + Seq::new(
            chars.len(),
            |i: int| is_selected(column_from(chars, column, i), chars[i], selection),
        ),
    decreases chars.len(),
{
    let all = segments(chars, column, selection, open, open_selected, foreground);
    let before = Seq::new(open.len(), |i: int| open_selected);
    let wanted = Seq::new(
        chars.len(),
        |i: int| is_selected(column_from(chars, column, i), chars[i], selection),
    );
    if chars.len() == 0 {
        if open.len() > 0 {
            reveal_with_fuel(lit_chars, 2);
            assert(all.skip(1) =~= Seq::empty());
        }
        assert(lit_chars(all) =~= before + wanted);
    } else {
        let selected = is_selected(column, chars[0], selection);
        let next = plus(column, cells(chars[0]));
        let rest = chars.skip(1);
        let later = Seq::new(
            rest.len(),
            |i: int| is_selected(column_from(rest, next, i), rest[i], selection),
        );
        assert(wanted =~= seq![selected] + later) by {
            assert forall|i: int| 0 < i < chars.len() implies wanted[i] == later[i - 1] by {
                lemma_column_skip(chars, column, i - 1);
            }
        }
        if open.len() > 0 && open_selected != selected {
            lemma_segments_lit(rest, next, selection, seq![chars[0]], selected, foreground);
            let tail = segments(rest, next, selection, seq![chars[0]], selected, foreground);
            assert(all.skip(1) =~= tail);
            assert(lit_chars(all) =~= before + wanted);
        } else {
            lemma_segments_lit(
                rest,
                next,
                selection,
                open.push(chars[0]),
                selected,
                foreground,
            );
            assert(lit_chars(all) =~= before + wanted);
        }
    }
}

/// Of a span those characters are lit that lie in the selected columns, and no others.
pub proof fn law_selected_columns_are_lit(
    span: ColoredView,
    column: int,
    selection: Option<(usize, usize)>,
)
    ensures
        lit_chars(span_segments(span, column, selection)) == Seq::new(
            span.text.len(),
            |i: int|
                selection matches Some((from, to)) && column_from(span.text, column, i) < to && plus(
                    column_from(span.text, column, i),
                    spec_max(cells(span.text[i]), 1),
                ) > from,
        ),
{
    lemma_segments_lit(span.text, column, selection, Seq::empty(), false, span.foreground);
    let wanted = Seq::new(
        span.text.len(),
        |i: int|
            selection matches Some((from, to)) && column_from(span.text, column, i) < to && plus(
                column_from(span.text, column, i),
                spec_max(cells(span.text[i]), 1),
            ) > from,
    );
    assert(lit_chars(span_segments(span, column, selection)) =~= wanted);
}

pub proof fn lemma_line_chars_first(spans: Seq<ColoredView>)
    requires
        spans.len() > 0,
    ensures
        line_chars(spans) == spans[0].text + line_chars(spans.skip(1)),
    decreases spans.len(),
{
    if spans.len() == 1 {
        assert(spans.drop_last() =~= Seq::empty());
        assert(spans.skip(1) =~= Seq::empty());
        assert(line_chars(spans) =~= spans[0].text + line_chars(spans.skip(1)));
    } else {
        lemma_line_chars_first(spans.drop_last());
        assert(spans.drop_last().skip(1) =~= spans.skip(1).drop_last());
        assert(spans.skip(1).last() == spans.last());
        assert(line_chars(spans) =~= spans[0].text + line_chars(spans.skip(1)));
    }
}

pub proof fn lemma_column_behind_first(a: Seq<char>, b: Seq<char>, column: int, j: int)
    requires
        0 <= j <= b.len(),
    ensures
        column_from(a + b, column, a.len() + j) == column_from(b, end_column(a, column), j),
    decreases j,
{
    if j == 0 {
        lemma_end_column(a, column);
        lemma_same_columns(a + b, a, column, a.len() as int);
    } else {
        lemma_column_behind_first(a, b, column, j - 1);
        assert((a + b)[a.len() + j - 1] == b[j - 1]);
    }
}

pub proof fn lemma_same_columns(a: Seq<char>, b: Seq<char>, column: int, k: int)
    requires
        0 <= k <= a.len(),
        k <= b.len(),
        forall|i: int| 0 <= i < k ==> a[i] == b[i],
    ensures
        column_from(a, column, k) == column_from(b, column, k),
    decreases k,
{
    if k > 0 {
        lemma_same_columns(a, b, column, k - 1);
    }
}

/// A text that was written line by line is shown line by line before it is colored.
pub proof fn law_preview_shows_every_line(lines: Seq<Seq<char>>)
    requires
        forall|i: int| 0 <= i < lines.len() ==> is_line(#[trigger] lines[i]),
    ensures
        plain_source(line_ended(lines)).len() == lines.len(),
        forall|i: int|
            0 <= i < lines.len() ==> line_chars(#[trigger] plain_source(line_ended(lines))[i])
                == lines[i],
{
    law_lines_are_read_back(lines);
    assert forall|i: int| 0 <= i < lines.len() implies line_chars(
        #[trigger] plain_source(line_ended(lines))[i],
    ) == lines[i] by {
        let spans = plain_source(line_ended(lines))[i];
        lemma_line_chars_first(spans);
        assert(spans.skip(1) =~= Seq::empty());
        assert(line_chars(spans) =~= lines[i]);
    }
}

proof fn lemma_without_line_end(text: Seq<char>)
    ensures
        ({
            let shown = without_line_end(text);
            &&& shown.len() <= text.len()
            &&& shown == text.take(shown.len() as int)
            &&& shown.len() > 0 ==> shown.last() != '\r' && shown.last() != '\n'
            &&& forall|i: int|
                shown.len() <= i < text.len() ==> #[trigger] text[i] == '\r' || text[i] == '\n'
        }),
    decreases text.len(),
{
    if text.len() > 0 && (text.last() == '\r' || text.last() == '\n') {
        lemma_without_line_end(text.drop_last());
        let shown = without_line_end(text);
        assert(text.drop_last().take(shown.len() as int) =~= text.take(shown.len() as int));
        assert forall|i: int| shown.len() <= i < text.len() implies #[trigger] text[i] == '\r'
            || text[i] == '\n' by {
            if i < text.len() - 1 {
                assert(text.drop_last()[i] == text[i]);
            }
        }
    } else {
        assert(text.take(text.len() as int) =~= text);
    }
}

/// Coloring loses no line and no piece of one, and changes no text: a piece is shown
/// whole, but for the line break that it may end in.
pub proof fn law_coloring_keeps_the_text(
    source: HighlightedView,
    true_color: bool,
    line: int,
    k: int,
)
    requires
        0 <= line < source.lines.len(),
        0 <= k < source.lines[line].len(),
    ensures
        shown_source(source, true_color).len() == source.lines.len(),
        shown_source(source, true_color)[line].len() == source.lines[line].len(),
        ({
            let text = source.lines[line][k].1;
            let shown = shown_source(source, true_color)[line][k].text;
            &&& shown.len() <= text.len()
            &&& shown == text.take(shown.len() as int)
            &&& shown.len() > 0 ==> shown.last() != '\r' && shown.last() != '\n'
            &&& forall|i: int|
                shown.len() <= i < text.len() ==> #[trigger] text[i] == '\r' || text[i] == '\n'
        }),
{
    lemma_without_line_end(source.lines[line][k].1);
}

/// A file that counts as text, and is, is shown colored, in the colors of its syntax;
/// any other is shown as a notice and has no lines.
pub proof fn law_only_text_is_shown(
    file: FileView,
    read: Option<Result<Seq<u8>, ErrorView>>,
    syntax: Option<Seq<char>>,
    true_color: bool,
)
    ensures
        highlight_step(file, read, syntax, true_color) matches HighlightStepView::Finished(
            lines,
            notice,
        ) ==> {
            let is_text = file.text == TextEligibility::Text && (read matches Some(Ok(bytes))
                && valid_utf8(bytes));
            &&& is_text <==> notice is None
            &&& !is_text ==> lines.len() == 0
            &&& is_text ==> syntax is Some
        },
        file.text == TextEligibility::Text && read is None ==> highlight_step(
            file,
            read,
            syntax,
            true_color,
        ) is Read,
{
}

/// Cells that a source takes: of a line the number, the rule and the text.
pub open spec fn numbered_width(lines: SourceLines, spans: Seq<ColoredView>) -> int {
    plus(digit_count(lines.len()) as int, plus(3, line_width(spans)))
}

/// Width of the widest of the first `count` lines.
pub open spec fn widest(lines: SourceLines, count: int) -> int
    decreases count,
{
    if count <= 0 {
        0
    } else {
        spec_max(widest(lines, count - 1), numbered_width(lines, lines[count - 1]))
    }
}

/// How many lines a source has, and the width of the widest with its number.
pub fn source_content_dimensions(lines: &[Vec<ColoredSpan>]) -> (size: (usize, usize))
    ensures
        size.0 == lines@.len(),
        size.1 == widest(source_views(lines@), lines@.len() as int),
{
    let ghost all = source_views(lines@);
    let number_width = decimal_width(lines.len());
    let mut width: usize = 0;
    let mut i: usize = 0;
    while i < lines.len()
        invariant
            i <= lines@.len(),
            all == source_views(lines@),
            number_width == digit_count(lines@.len()),
            width == widest(all, i as int),
        decreases lines@.len() - i,
    {
        let text_width: usize = source_text_width(&lines[i]);
        let line = number_width.saturating_add(text_width.saturating_add(3));
        proof {
            assert(all[i as int] == views(lines@[i as int]@));
        }
        if line > width {
            width = line;
        }
        i += 1;
    }
    (lines.len(), width)
}

/// A color with its red, green, blue and opacity.
#[derive(Clone, Copy, Debug, PartialEq, Eq, Structural)]
pub struct Rgba {
    pub red: u8,
    pub green: u8,
    pub blue: u8,
    pub alpha: u8,
}

/// A piece of a line as the highlighter colors it.
#[derive(Debug)]
pub struct HighlightedPiece {
    pub color: Rgba,
    pub text: String,
}

impl View for HighlightedPiece {
    type V = (Rgba, Seq<char>);

    open spec fn view(&self) -> (Rgba, Seq<char>) {
        (self.color, self.text@)
    }
}

/// A text as the highlighter colors it, and the theme's color for text.
#[derive(Debug)]
pub struct Highlighted {
    pub foreground: Option<Rgba>,
    pub lines: Vec<Vec<HighlightedPiece>>,
}

pub ghost struct HighlightedView {
    pub foreground: Option<Rgba>,
    pub lines: Seq<Seq<(Rgba, Seq<char>)>>,
}

impl View for Highlighted {
    type V = HighlightedView;

    open spec fn view(&self) -> HighlightedView {
        HighlightedView {
            foreground: self.foreground,
            lines: Seq::new(self.lines@.len(), |i: int| views(self.lines@[i]@)),
        }
    }
}

/// The theme that source is shown in.
pub const SOURCE_THEME: &'static str = "base16-ocean.dark";

/// What the highlighter makes of a text, under the name of a syntax and of a
/// theme.
pub uninterp spec fn highlighted(
    syntax: Seq<char>,
    theme: Seq<char>,
    text: Seq<char>,
) -> HighlightedView;

/// `syntect::easy::HighlightLines` over the lines of a text, with the syntaxes and
/// themes that come with `syntect`; plain text where the syntax is not among
/// them, and an empty line where a line cannot be highlighted. The result is a
/// function of the three texts; the colors are left to the name. The theme is one
/// that comes with `syntect`, for another has no entry to index.
#[verifier::external_body]
fn highlight_text(syntax: &str, theme: &str, text: &str) -> (result: Highlighted)
    requires
        theme@ == SOURCE_THEME@,
    ensures
        result@ == highlighted(syntax@, theme@, text@),
{
    let syntaxes = SyntaxSet::load_defaults_newlines();
    let themes = ThemeSet::load_defaults();
    let theme = &themes.themes[theme];
    let named = syntaxes.find_syntax_by_name(syntax);
    let mut lines = HighlightLines::new(named.unwrap_or(syntaxes.find_syntax_plain_text()), theme);
    let rgba = |c: syntect::highlighting::Color| Rgba { red: c.r, green: c.g, blue: c.b, alpha: c.a };
    let colored = LinesWithEndings::from(text).map(|line| {
        lines.highlight_line(line, &syntaxes).unwrap_or_default().into_iter().map(|(s, text)| {
            HighlightedPiece { color: rgba(s.foreground), text: text.to_owned() }
        }).collect()
    }).collect();
    Highlighted { foreground: theme.settings.foreground.map(rgba), lines: colored }
}

/// The text without the line breaks that it ends in.
pub open spec fn without_line_end(text: Seq<char>) -> Seq<char>
    decreases text.len(),
{
    if text.len() > 0 && (text.last() == '\r' || text.last() == '\n') {
        without_line_end(text.drop_last())
    } else {
        text
    }
}

/// A piece as it is shown: the theme's own text color as white.
pub open spec fn shown_piece(
    piece: (Rgba, Seq<char>),
    foreground: Option<Rgba>,
    true_color: bool,
) -> ColoredView {
    ColoredView {
        text: without_line_end(piece.1),
        foreground: if foreground == Some(piece.0) {
            Color::White
        } else {
            code_color(piece.0.red, piece.0.green, piece.0.blue, true_color)
        },
    }
}

pub open spec fn shown_line(
    pieces: Seq<(Rgba, Seq<char>)>,
    foreground: Option<Rgba>,
    true_color: bool,
) -> Seq<ColoredView> {
    Seq::new(pieces.len(), |i: int| shown_piece(pieces[i], foreground, true_color))
}

pub open spec fn shown_source(source: HighlightedView, true_color: bool) -> SourceLines {
    Seq::new(
        source.lines.len(),
        |i: int| shown_line(source.lines[i], source.foreground, true_color),
    )
}

fn trim_line_end(text: &str) -> (result: String)
    ensures
        result@ == without_line_end(text@),
{
    let chars = to_chars(text);
    let mut end: usize = chars.len();
    proof {
        assert(chars@.take(end as int) =~= chars@);
    }
    while end > 0 && (chars[end - 1] == '\r' || chars[end - 1] == '\n')
        invariant
            end <= chars@.len(),
            without_line_end(chars@) == without_line_end(chars@.take(end as int)),
        decreases end,
    {
        proof {
            assert(chars@.take(end as int).drop_last() =~= chars@.take(end - 1));
        }
        end -= 1;
    }
    let result = from_chars(&chars, 0, end);
    proof {
        assert(result@ =~= chars@.take(end as int));
    }
    result
}

/// A highlighted text as it is shown.
pub fn color_source(source: &Highlighted, true_color: bool) -> (lines: Vec<Vec<ColoredSpan>>)
    ensures
        source_views(lines@) == shown_source(source@, true_color),
{
    broadcast use group_views;

    let ghost wanted = shown_source(source@, true_color);
    let mut lines: Vec<Vec<ColoredSpan>> = Vec::new();
    let mut i: usize = 0;
    while i < source.lines.len()
        invariant
            i <= source.lines@.len(),
            wanted == shown_source(source@, true_color),
            source_views(lines@) == wanted.take(i as int),
        decreases source.lines@.len() - i,
    {
        let pieces = &source.lines[i];
        let ghost line_wanted = wanted[i as int];
        let mut line: Vec<ColoredSpan> = Vec::new();
        let mut k: usize = 0;
        proof {
            assert(source@.lines[i as int] == views(pieces@));
            assert(line_wanted.take(0) =~= Seq::empty());
        }
        while k < pieces.len()
            invariant
                k <= pieces@.len(),
                line_wanted == shown_line(views(pieces@), source.foreground, true_color),
                views(line@) == line_wanted.take(k as int),
            decreases pieces@.len() - k,
        {
            let piece = &pieces[k];
            let own = match source.foreground {
                Some(color) => color == piece.color,
                None => false,
            };
            let foreground = if own {
                Color::White
            } else {
                crate::style::terminal_color(
                    piece.color.red,
                    piece.color.green,
                    piece.color.blue,
                    true_color,
                )
            };
            let span = ColoredSpan { text: trim_line_end(piece.text.as_str()), foreground };
            proof {
                assert(span@ == line_wanted[k as int]);
                assert(line_wanted.take(k + 1) =~= line_wanted.take(k as int).push(span@));
            }
            line.push(span);
            k += 1;
        }
        proof {
            assert(line_wanted.take(k as int) =~= line_wanted);
        }
        let ghost before = source_views(lines@);
        lines.push(line);
        proof {
            assert(source_views(lines@) =~= before.push(line_wanted));
            assert(wanted.take(i + 1) =~= before.push(line_wanted));
        }
        i += 1;
    }
    proof {
        assert(wanted.take(i as int) =~= wanted);
    }
    lines
}

/// A text as it is shown before it is highlighted: each line in white.
pub open spec fn plain_source(text: Seq<char>) -> SourceLines {
    Seq::new(
        text_lines(text).len(),
        |i: int| seq![ColoredView { text: text_lines(text)[i], foreground: Color::White }],
    )
}

/// A text as it is shown before it is highlighted: each line in white.
pub fn preview_source(text: &str) -> (result: Vec<Vec<ColoredSpan>>)
    ensures
        source_views(result@) == plain_source(text@),
{
    broadcast use group_views;

    let source = lines(text);
    let ghost wanted = plain_source(text@);
    let mut result: Vec<Vec<ColoredSpan>> = Vec::new();
    let mut i: usize = 0;
    proof {
        assert(views(source@).len() == source@.len());
    }
    while i < source.len()
        invariant
            i <= source@.len(),
            views(source@) == text_lines(text@),
            wanted == plain_source(text@),
            source_views(result@) == wanted.take(i as int),
        decreases source@.len() - i,
    {
        let line = from_chars(&source[i], 0, source[i].len());
        let mut spans: Vec<ColoredSpan> = Vec::new();
        proof {
            assert(line@ =~= source@[i as int]@);
            assert(views(source@)[i as int] == source@[i as int]@);
        }
        spans.push(ColoredSpan { text: line, foreground: Color::White });
        let ghost before = source_views(result@);
        proof {
            assert(views(spans@) =~= wanted[i as int]);
        }
        result.push(spans);
        proof {
            assert(source_views(result@) =~= before.push(wanted[i as int]));
            assert(wanted.take(i + 1) =~= before.push(wanted[i as int]));
        }
        i += 1;
    }
    proof {
        assert(wanted.take(i as int) =~= wanted);
    }
    result
}

pub open spec fn eligibility_name(text: TextEligibility) -> Seq<char> {
    match text {
        TextEligibility::Text => "Text"@,
        TextEligibility::Binary => "Binary"@,
        TextEligibility::Oversized => "Oversized"@,
        TextEligibility::InvalidUtf8 => "InvalidUtf8"@,
        TextEligibility::Unreadable => "Unreadable"@,
    }
}

fn eligibility_text(text: TextEligibility) -> (name: &'static str)
    ensures
        name@ == eligibility_name(text),
{
    match text {
        TextEligibility::Text => "Text",
        TextEligibility::Binary => "Binary",
        TextEligibility::Oversized => "Oversized",
        TextEligibility::InvalidUtf8 => "InvalidUtf8",
        TextEligibility::Unreadable => "Unreadable",
    }
}

/// What is shown in place of a file that is no text.
pub open spec fn metadata_notice(file: FileView) -> Seq<char> {
    lossy(file.relative) + "\n\nMetadata-only file: "@ + eligibility_name(file.text) + ", "@
        + decimal(file.size as nat) + " bytes"@
}

/// What showing a file needs next, or what is shown: lines, or a notice.
#[derive(Debug)]
pub enum HighlightStep {
    /// Read the file.
    Read,
    /// Find the name of the file's syntax.
    FindSyntax,
    Finished(Vec<Vec<ColoredSpan>>, Option<String>),
}

pub ghost enum HighlightStepView {
    Read,
    FindSyntax,
    Finished(SourceLines, Option<Seq<char>>),
}

impl View for HighlightStep {
    type V = HighlightStepView;

    open spec fn view(&self) -> HighlightStepView {
        match self {
            HighlightStep::Read => HighlightStepView::Read,
            HighlightStep::FindSyntax => HighlightStepView::FindSyntax,
            HighlightStep::Finished(lines, notice) => HighlightStepView::Finished(
                source_views(lines@),
                option_view(*notice),
            ),
        }
    }
}

pub open spec fn highlight_step(
    file: FileView,
    read: Option<Result<Seq<u8>, ErrorView>>,
    syntax: Option<Seq<char>>,
    true_color: bool,
) -> HighlightStepView {
    let nothing: SourceLines = Seq::empty();
    if file.text != TextEligibility::Text {
        HighlightStepView::Finished(nothing, Some(metadata_notice(file)))
    } else {
        match read {
            None => HighlightStepView::Read,
            Some(Err(error)) => HighlightStepView::Finished(nothing, Some(error_text(error))),
            Some(Ok(bytes)) => if !valid_utf8(bytes) {
                HighlightStepView::Finished(nothing, Some("file is not valid UTF-8"@))
            } else {
                match syntax {
                    None => HighlightStepView::FindSyntax,
                    Some(name) => HighlightStepView::Finished(
                        shown_source(
                            highlighted(name, SOURCE_THEME@, decode_utf8(bytes)),
                            true_color,
                        ),
                        None,
                    ),
                }
            },
        }
    }
}

pub open spec fn read_view(read: Option<Result<Vec<u8>, Error>>) -> Option<
    Result<Seq<u8>, ErrorView>,
> {
    match read {
        Some(Ok(bytes)) => Some(Ok(bytes@)),
        Some(Err(error)) => Some(Err(error@)),
        None => None,
    }
}

/// A file as it is shown, given its bytes and the name of its syntax.
pub fn highlight_file(
    file: &CurrentFile,
    read: &Option<Result<Vec<u8>, Error>>,
    syntax: &Option<String>,
    true_color: bool,
) -> (step: HighlightStep)
    ensures
        step@ == highlight_step(file@, read_view(*read), option_view(*syntax), true_color),
{
    let nothing: Vec<Vec<ColoredSpan>> = Vec::new();
    proof {
        assert(source_views(nothing@) =~= Seq::empty());
    }
    if file.text != TextEligibility::Text {
        let mut notice = lossy_text(&file.relative);
        let size = decimal_text(file.size);
        notice.append("\n\nMetadata-only file: ");
        notice.append(eligibility_text(file.text));
        notice.append(", ");
        notice.append(size.as_str());
        notice.append(" bytes");
        return HighlightStep::Finished(nothing, Some(notice));
    }
    match read {
        None => HighlightStep::Read,
        Some(Err(error)) => HighlightStep::Finished(nothing, Some(error.text().to_owned())),
        Some(Ok(bytes)) => match utf8_text(bytes) {
            None => HighlightStep::Finished(nothing, Some("file is not valid UTF-8".to_owned())),
            Some(text) => match syntax {
                None => HighlightStep::FindSyntax,
                Some(name) => {
                    let colored = highlight_text(name.as_str(), SOURCE_THEME, text.as_str());
                    HighlightStep::Finished(color_source(&colored, true_color), None)
                },
            },
        },
    }
}

/// Each piece of a source is shown in its own color, brightened, and in white where that
/// is the color that the theme has for all text.
pub proof fn law_pieces_keep_their_colors(
    source: HighlightedView,
    true_color: bool,
    line: int,
    k: int,
)
    requires
        0 <= line < source.lines.len(),
        0 <= k < source.lines[line].len(),
    ensures
        ({
            let color = source.lines[line][k].0;
            let shown = shown_source(source, true_color)[line][k].foreground;
            &&& source.foreground == Some(color) ==> shown == Color::White
            &&& source.foreground != Some(color) && true_color ==> shown == Color::Rgb(
                brightened(color.red as int) as u8,
                brightened(color.green as int) as u8,
                brightened(color.blue as int) as u8,
            )
            &&& source.foreground != Some(color) && !true_color ==> shown is Indexed
        }),
{
}

/// A file that cannot be shown is told of: what it is, by its name, its size and why it
/// was not read, or what went wrong; and a text is colored as what it holds, under the
/// name of its syntax.
pub proof fn law_files_that_cannot_be_shown_are_told_of(
    file: FileView,
    read: Option<Result<Seq<u8>, ErrorView>>,
    syntax: Option<Seq<char>>,
    true_color: bool,
)
    ensures
        ({
            let step = highlight_step(file, read, syntax, true_color);
            let is_text = file.text == TextEligibility::Text;
            &&& !is_text ==> (step matches HighlightStepView::Finished(lines, notice) && lines.len()
                == 0 && notice == Some(
                lossy(file.relative) + "\n\nMetadata-only file: "@ + eligibility_name(file.text)
                    + ", "@ + decimal(file.size as nat) + " bytes"@,
            ))
            &&& is_text && (read matches Some(Err(_))) ==> (
            step matches HighlightStepView::Finished(lines, notice) && notice == Some(
                error_text(read->0->Err_0),
            ))
            &&& is_text && (read matches Some(Ok(bytes)) && valid_utf8(bytes)) && syntax is Some
                ==> (step matches HighlightStepView::Finished(lines, notice) && lines
                == shown_source(
                highlighted(syntax->0, "base16-ocean.dark"@, decode_utf8(read->0->Ok_0)),
                true_color,
            ))
        }),
{
}

proof fn lemma_widest(lines: SourceLines, count: int) -> (at: int)
    requires
        0 <= count <= lines.len(),
    ensures
        forall|i: int|
            0 <= i < count ==> numbered_width(lines, #[trigger] lines[i]) <= widest(lines, count),
        widest(lines, count) == 0 || (0 <= at < count && numbered_width(lines, lines[at])
            == widest(lines, count)),
    decreases count,
{
    if count > 0 {
        let before = lemma_widest(lines, count - 1);
        if numbered_width(lines, lines[count - 1]) == widest(lines, count) {
            count - 1
        } else {
            before
        }
    } else {
        0
    }
}

/// A source is as wide as the widest of its lines with the number and the rule before it,
/// and no wider.
pub proof fn law_a_source_is_as_wide_as_its_widest_line(lines: SourceLines) -> (at: int)
    requires
        lines.len() > 0,
        forall|i: int|
            0 <= i < lines.len() ==> decimal(lines.len()).len() + 3 + line_width(#[trigger] lines[i])
                <= usize::MAX && line_width(lines[i]) >= 0,
    ensures
        ({
            let width = widest(lines, lines.len() as int);
            let before = decimal(lines.len()).len() + 3;
            &&& forall|i: int|
                0 <= i < lines.len() ==> before + line_width(#[trigger] lines[i]) <= width
            &&& 0 <= at < lines.len()
            &&& width == before + line_width(lines[at])
        }),
{
    let at = lemma_widest(lines, lines.len() as int);
    assert(numbered_width(lines, lines[0]) >= 3);
    assert forall|i: int| 0 <= i < lines.len() implies decimal(lines.len()).len() + 3 + line_width(
        #[trigger] lines[i],
    ) == numbered_width(lines, lines[i]) by {}
    at
}

} // verus!
