//! A diff as it is shown: measured, and laid out row by row.
use vstd::prelude::*;

use crate::diff::{DiffLine, DiffLineKind, DiffLineView};
use crate::layout::{minus, spec_max};
use crate::model::ChangeKind;
use crate::seqs::{group_views, option_view, views};
use crate::style::{
    colored, line_of, plain, styled, Color, Span, TextLine, TextLineView, TextStyle,
    DIFF_ADDITION, DIFF_ADDITION_BACKGROUND, DIFF_BACKGROUND, DIFF_DELETION,
    DIFF_DELETION_BACKGROUND, DIFF_GUTTER_BACKGROUND, DIFF_HEADER_BACKGROUND, DIFF_HUNK,
    DIFF_LINE_NUMBER, DIFF_TEXT,
};
use crate::text::{
    aligned_decimal, decimal, decimal_text, decimal_width, digit_count, from_chars, join3, lossy,
    lossy_text, right_aligned, space_text, spaces, to_chars,
};
use crate::width::{plus, str_width, text_cells};

verus! {

/// The letter that stands for a kind of change, and its color.
pub open spec fn symbol_of(kind: ChangeKind) -> (Seq<char>, Color) {
    match kind {
        ChangeKind::Added => ("A"@, Color::Green),
        ChangeKind::Modified => ("M"@, Color::Magenta),
        ChangeKind::Deleted => ("D"@, Color::Red),
        ChangeKind::Renamed => ("R"@, Color::Cyan),
    }
}

/// The letter that stands for a kind of change, and its color.
pub fn change_symbol(kind: ChangeKind) -> (symbol: (&'static str, Color))
    ensures
        (symbol.0@, symbol.1) == symbol_of(kind),
{
    match kind {
        ChangeKind::Added => ("A", Color::Green),
        ChangeKind::Modified => ("M", Color::Magenta),
        ChangeKind::Deleted => ("D", Color::Red),
        ChangeKind::Renamed => ("R", Color::Cyan),
    }
}

/// How many lines are of the kind.
pub open spec fn count_kind(lines: Seq<DiffLineView>, kind: DiffLineKind) -> nat
    decreases lines.len(),
{
    if lines.len() == 0 {
        0
    } else {
        count_kind(lines.drop_last(), kind) + if lines.last().kind == kind {
            1nat
        } else {
            0nat
        }
    }
}

/// How many lines were added and how many deleted.
pub open spec fn stats(lines: Seq<DiffLineView>) -> (nat, nat) {
    (
        count_kind(lines, DiffLineKind::Addition),
        count_kind(lines, DiffLineKind::Deletion),
    )
}

/// How many lines were added and how many deleted.
pub fn diff_stats(lines: &[DiffLine]) -> (result: (usize, usize))
    ensures
        (result.0 as nat, result.1 as nat) == stats(views(lines@)),
{
    let ghost all = views(lines@);
    let mut additions: usize = 0;
    let mut deletions: usize = 0;
    let mut i: usize = 0;
    proof {
        assert(all.take(0) =~= Seq::empty());
    }
    while i < lines.len()
        invariant
            i <= lines@.len(),
            all == views(lines@),
            additions <= i,
            deletions <= i,
            additions == count_kind(all.take(i as int), DiffLineKind::Addition),
            deletions == count_kind(all.take(i as int), DiffLineKind::Deletion),
        decreases lines@.len() - i,
    {
        proof {
            assert(all.take(i + 1).drop_last() =~= all.take(i as int));
            assert(all.take(i + 1).last() == all[i as int]);
        }
        if lines[i].kind == DiffLineKind::Addition {
            additions = additions + 1;
        } else if lines[i].kind == DiffLineKind::Deletion {
            deletions = deletions + 1;
        }
        i += 1;
    }
    proof {
        assert(all.take(i as int) =~= all);
    }
    (additions, deletions)
}

/// What a hunk or header line shows.
pub open spec fn label_of(line: DiffLineView) -> Seq<char> {
    if line.kind == DiffLineKind::Hunk {
        "··· unchanged lines ···"@
    } else {
        line.text
    }
}

fn diff_line_label(line: &DiffLine) -> (label: String)
    ensures
        label@ == label_of(line@),
{
    if line.kind == DiffLineKind::Hunk {
        "··· unchanged lines ···".to_owned()
    } else {
        line.text.clone()
    }
}

/// Whether the line is shown as a label, without line numbers.
pub open spec fn is_label(kind: DiffLineKind) -> bool {
    kind == DiffLineKind::Hunk || kind == DiffLineKind::Header
}

/// The first character of a line, alone.
pub open spec fn marker_text(text: Seq<char>) -> Seq<char> {
    if text.len() == 0 {
        text
    } else {
        text.take(1)
    }
}

/// What follows the first character of a line.
pub open spec fn body_text(text: Seq<char>) -> Seq<char> {
    if text.len() == 0 {
        text
    } else {
        text.skip(1)
    }
}

/// Cells that a line takes.
pub open spec fn row_cells(line: DiffLineView, number_width: int) -> int {
    if is_label(line.kind) {
        text_cells(label_of(line)) as int
    } else {
        plus(
            plus(
                plus(plus(number_width, number_width), 3),
                text_cells(marker_text(line.text)) as int,
            ),
            text_cells(body_text(line.text)) as int,
        )
    }
}

/// The first character of a text and what follows it.
fn split_marker(text: &str) -> (parts: (String, String))
    ensures
        parts.0@ == marker_text(text@),
        parts.1@ == body_text(text@),
{
    let chars = to_chars(text);
    if chars.len() == 0 {
        let marker = from_chars(&chars, 0, 0);
        let body = from_chars(&chars, 0, 0);
        proof {
            assert(marker@ =~= text@);
            assert(body@ =~= text@);
        }
        return (marker, body);
    }
    let marker = from_chars(&chars, 0, 1);
    let body = from_chars(&chars, 1, chars.len());
    proof {
        assert(marker@ =~= text@.take(1));
        assert(body@ =~= text@.skip(1));
    }
    (marker, body)
}

fn diff_line_width(line: &DiffLine, number_width: usize) -> (width: usize)
    ensures
        width == row_cells(line@, number_width as int),
{
    if line.kind == DiffLineKind::Hunk || line.kind == DiffLineKind::Header {
        let label = diff_line_label(line);
        return str_width(label.as_str());
    }
    let (marker, body) = split_marker(line.text.as_str());
    number_width.saturating_add(number_width).saturating_add(3).saturating_add(
        str_width(marker.as_str()),
    ).saturating_add(str_width(body.as_str()))
}

pub open spec fn larger(a: Option<usize>, b: Option<usize>) -> Option<usize> {
    match (a, b) {
        (Some(x), Some(y)) => if x >= y {
            a
        } else {
            b
        },
        (None, _) => b,
        (_, None) => a,
    }
}

/// The largest line number on either side.
pub open spec fn largest_number(lines: Seq<DiffLineView>) -> Option<usize>
    decreases lines.len(),
{
    if lines.len() == 0 {
        None
    } else {
        larger(
            largest_number(lines.drop_last()),
            larger(lines.last().old_line, lines.last().new_line),
        )
    }
}

/// Cells that line numbers take: as many as the largest has digits.
pub open spec fn number_cells(lines: Option<Seq<DiffLineView>>) -> int {
    match lines {
        Some(all) => match largest_number(all) {
            Some(number) => digit_count(number as nat) as int,
            None => 1,
        },
        None => 1,
    }
}

fn larger_of(a: Option<usize>, b: Option<usize>) -> (result: Option<usize>)
    ensures
        result == larger(a, b),
{
    match (a, b) {
        (Some(x), Some(y)) => if x >= y {
            a
        } else {
            b
        },
        (None, _) => b,
        (_, None) => a,
    }
}

/// What an option of lines holds, by the views of the lines.
pub open spec fn lines_view(lines: Option<&Vec<DiffLine>>) -> Option<Seq<DiffLineView>> {
    match lines {
        Some(all) => Some(views(all@)),
        None => None,
    }
}

pub fn line_number_width(lines: Option<&Vec<DiffLine>>) -> (width: usize)
    ensures
        width == number_cells(lines_view(lines)),
{
    match lines {
        None => 1,
        Some(given) => {
            let ghost all = views(given@);
            let mut largest: Option<usize> = None;
            let mut i: usize = 0;
            proof {
                assert(all.take(0) =~= Seq::empty());
            }
            while i < given.len()
                invariant
                    i <= given@.len(),
                    all == views(given@),
                    largest == largest_number(all.take(i as int)),
                decreases given@.len() - i,
            {
                proof {
                    assert(all.take(i + 1).drop_last() =~= all.take(i as int));
                    assert(all.take(i + 1).last() == all[i as int]);
                }
                largest = larger_of(largest, larger_of(given[i].old_line, given[i].new_line));
                i += 1;
            }
            proof {
                assert(all.take(i as int) =~= all);
            }
            match largest {
                Some(number) => decimal_width(number),
                None => 1,
            }
        },
    }
}

/// The heading of a diff: what happened to which file.
pub open spec fn heading(kind: ChangeKind, path: Seq<u8>) -> Seq<char> {
    symbol_of(kind).0 + " "@ + lossy(path)
}

/// The counts in a heading.
pub open spec fn counts_text(additions: nat, deletions: nat) -> Seq<char> {
    "    +"@ + decimal(additions) + " -"@ + decimal(deletions)
}

/// Width of the widest of the first `count` lines.
pub open spec fn widest_row(lines: Seq<DiffLineView>, number_width: int, count: int) -> int
    decreases count,
{
    if count <= 0 {
        0
    } else {
        spec_max(
            widest_row(lines, number_width, count - 1),
            row_cells(lines[count - 1], number_width),
        )
    }
}

pub open spec fn stats_of(lines: Option<Seq<DiffLineView>>) -> (nat, nat) {
    match lines {
        Some(all) => stats(all),
        None => (0, 0),
    }
}

/// Width of what stands below the heading.
pub open spec fn rows_width(lines: Option<Seq<DiffLineView>>) -> int {
    match lines {
        Some(all) => widest_row(all, number_cells(lines), all.len() as int),
        None => text_cells("Generating diff…"@) as int,
    }
}

/// Rows and columns that a diff takes.
pub open spec fn diff_size(
    kind: ChangeKind,
    path: Seq<u8>,
    old_path: Option<Seq<u8>>,
    lines: Option<Seq<DiffLineView>>,
) -> (int, int) {
    let (additions, deletions) = stats_of(lines);
    let first = text_cells(heading(kind, path) + counts_text(additions, deletions)) as int;
    let width = match old_path {
        Some(old) => spec_max(first, text_cells("  from "@ + lossy(old)) as int),
        None => first,
    };
    let rows = match lines {
        Some(all) => all.len() as int,
        None => 1,
    };
    (
        plus(
            if old_path is Some {
                3
            } else {
                2
            },
            rows,
        ),
        spec_max(width, rows_width(lines)),
    )
}

/// The heading of a diff.
fn heading_text(kind: ChangeKind, path: &[u8]) -> (text: String)
    ensures
        text@ == heading(kind, path@),
{
    let (symbol, _) = change_symbol(kind);
    let shown = lossy_text(path);
    join3(symbol, " ", shown.as_str())
}

/// The counts in a heading.
pub fn counts(additions: usize, deletions: usize) -> (text: String)
    ensures
        text@ == counts_text(additions as nat, deletions as nat),
{
    let added = decimal_text(additions as u64);
    let deleted = decimal_text(deletions as u64);
    let mut text = join3("    +", added.as_str(), " -");
    text.append(deleted.as_str());
    text
}

fn widest_of_rows(lines: &Vec<DiffLine>, number_width: usize) -> (width: usize)
    ensures
        width == widest_row(views(lines@), number_width as int, lines@.len() as int),
{
    let ghost all = views(lines@);
    let mut width: usize = 0;
    let mut i: usize = 0;
    while i < lines.len()
        invariant
            i <= lines@.len(),
            all == views(lines@),
            width == widest_row(all, number_width as int, i as int),
        decreases lines@.len() - i,
    {
        let row = diff_line_width(&lines[i], number_width);
        if row > width {
            width = row;
        }
        i += 1;
    }
    width
}

/// Rows and columns that a diff takes.
pub fn diff_content_dimensions(
    kind: ChangeKind,
    path: &[u8],
    old_path: &Option<Vec<u8>>,
    lines: Option<&Vec<DiffLine>>,
) -> (size: (usize, usize))
    ensures
        (size.0 as int, size.1 as int) == diff_size(
            kind,
            path@,
            option_view(*old_path),
            lines_view(lines),
        ),
{
    let (additions, deletions) = match lines {
        Some(given) => diff_stats(given),
        None => (0, 0),
    };
    let mut first = heading_text(kind, path);
    let shown_counts = counts(additions, deletions);
    first.append(shown_counts.as_str());
    let mut width = str_width(first.as_str());
    if let Some(old) = old_path {
        let mut from = "  from ".to_owned();
        let shown = lossy_text(old);
        from.append(shown.as_str());
        let from_width = str_width(from.as_str());
        if from_width > width {
            width = from_width;
        }
    }
    let number_width = line_number_width(lines);
    let rows_width = match lines {
        Some(given) => widest_of_rows(given, number_width),
        None => str_width("Generating diff…"),
    };
    if rows_width > width {
        width = rows_width;
    }
    let rows: usize = match lines {
        Some(given) => given.len(),
        None => 1,
    };
    let above: usize = if old_path.is_some() {
        3
    } else {
        2
    };
    (above.saturating_add(rows), width)
}

/// The color of a line's text.
pub open spec fn line_color(kind: DiffLineKind) -> Color {
    match kind {
        DiffLineKind::Addition => DIFF_ADDITION,
        DiffLineKind::Deletion => DIFF_DELETION,
        DiffLineKind::Hunk => DIFF_HUNK,
        DiffLineKind::Header => DIFF_HUNK,
        DiffLineKind::Notice => Color::Yellow,
        DiffLineKind::Context => DIFF_TEXT,
    }
}

fn diff_line_color(kind: DiffLineKind) -> (color: Color)
    ensures
        color == line_color(kind),
{
    match kind {
        DiffLineKind::Addition => DIFF_ADDITION,
        DiffLineKind::Deletion => DIFF_DELETION,
        DiffLineKind::Hunk => DIFF_HUNK,
        DiffLineKind::Header => DIFF_HUNK,
        DiffLineKind::Notice => Color::Yellow,
        DiffLineKind::Context => DIFF_TEXT,
    }
}

/// The style of a line's row.
pub open spec fn row_style(kind: DiffLineKind) -> TextStyle {
    plain().with_bg(
        match kind {
            DiffLineKind::Addition => DIFF_ADDITION_BACKGROUND,
            DiffLineKind::Deletion => DIFF_DELETION_BACKGROUND,
            DiffLineKind::Context => DIFF_BACKGROUND,
            DiffLineKind::Notice => DIFF_HEADER_BACKGROUND,
            DiffLineKind::Header => DIFF_HEADER_BACKGROUND,
            DiffLineKind::Hunk => DIFF_HEADER_BACKGROUND,
        },
    )
}

fn diff_row_style(kind: DiffLineKind) -> (style: TextStyle)
    ensures
        style == row_style(kind),
{
    plain().bg(
        match kind {
            DiffLineKind::Addition => DIFF_ADDITION_BACKGROUND,
            DiffLineKind::Deletion => DIFF_DELETION_BACKGROUND,
            DiffLineKind::Context => DIFF_BACKGROUND,
            DiffLineKind::Notice => DIFF_HEADER_BACKGROUND,
            DiffLineKind::Header => DIFF_HEADER_BACKGROUND,
            DiffLineKind::Hunk => DIFF_HEADER_BACKGROUND,
        },
    )
}

/// A line number, or as many spaces.
pub open spec fn number_text(number: Option<usize>, width: int) -> Seq<char> {
    match number {
        Some(value) => right_aligned(decimal(value as nat), width as nat),
        None => spaces(width as nat),
    }
}

fn line_number(number: Option<usize>, width: usize) -> (text: String)
    ensures
        text@ == number_text(number, width as int),
{
    match number {
        Some(value) => aligned_decimal(value, width),
        None => space_text(width),
    }
}

/// The first character of a line and a space; a space stands for no character.
pub open spec fn marker_cell(text: Seq<char>) -> Seq<char> {
    (if text.len() == 0 {
        " "@
    } else {
        text.take(1)
    }) + " "@
}

/// The numbers on the left of a line.
pub open spec fn gutter_text(line: DiffLineView, number_width: int) -> Seq<char> {
    number_text(line.old_line, number_width) + " "@ + number_text(line.new_line, number_width)
        + " "@
}

pub open spec fn label_style(kind: DiffLineKind) -> TextStyle {
    if kind == DiffLineKind::Hunk {
        colored(DIFF_HUNK, DIFF_HEADER_BACKGROUND).in_bold()
    } else {
        colored(Color::Cyan, DIFF_HEADER_BACKGROUND)
    }
}

/// A line of a diff as it is shown in a row of the given width.
pub open spec fn diff_row(line: DiffLineView, number_width: int, width: int) -> TextLineView {
    if is_label(line.kind) {
        let label = label_of(line);
        let style = label_style(line.kind);
        line_of(
            seq![
                styled(label, style),
                styled(spaces(minus(width, text_cells(label) as int) as nat), style),
            ],
        )
    } else {
        let gutter = gutter_text(line, number_width);
        let marker = marker_cell(line.text);
        let body = body_text(line.text);
        let style = row_style(line.kind);
        let color = line_color(line.kind);
        let occupied = plus(
            plus(text_cells(gutter) as int, text_cells(marker) as int),
            text_cells(body) as int,
        );
        line_of(
            seq![
                styled(gutter, colored(DIFF_LINE_NUMBER, DIFF_GUTTER_BACKGROUND)),
                styled(marker, style.with_fg(color).in_bold()),
                styled(body, style.with_fg(color)),
                styled(spaces(minus(width, occupied) as nat), style),
            ],
        )
    }
}

/// A line of a diff as it is shown in a row of the given width.
pub fn render_diff_line(line: &DiffLine, number_width: usize, width: usize) -> (row: TextLine)
    ensures
        row@ == diff_row(line@, number_width as int, width as int),
{
    broadcast use group_views;

    let mut spans: Vec<Span> = Vec::new();
    if line.kind == DiffLineKind::Hunk || line.kind == DiffLineKind::Header {
        let label = diff_line_label(line);
        let style = if line.kind == DiffLineKind::Hunk {
            plain().fg(DIFF_HUNK).bg(DIFF_HEADER_BACKGROUND).bold()
        } else {
            plain().fg(Color::Cyan).bg(DIFF_HEADER_BACKGROUND)
        };
        let padding = width.saturating_sub(str_width(label.as_str()));
        spans.push(Span::new(label, style));
        spans.push(Span::new(space_text(padding), style));
        proof {
            assert(views(spans@) =~= diff_row(line@, number_width as int, width as int).spans);
        }
        return TextLine::of(spans);
    }
    let old_number = line_number(line.old_line, number_width);
    let new_number = line_number(line.new_line, number_width);
    let (first, body) = split_marker(line.text.as_str());
    let style = diff_row_style(line.kind);
    let color = diff_line_color(line.kind);
    let mut gutter = join3(old_number.as_str(), " ", new_number.as_str());
    gutter.append(" ");
    let mut marker = if line.text.as_str().unicode_len() == 0 {
        " ".to_owned()
    } else {
        first
    };
    marker.append(" ");
    let occupied = str_width(gutter.as_str()).saturating_add(
        str_width(marker.as_str()),
    ).saturating_add(str_width(body.as_str()));
    spans.push(Span::new(gutter, plain().fg(DIFF_LINE_NUMBER).bg(DIFF_GUTTER_BACKGROUND)));
    spans.push(Span::new(marker, style.fg(color).bold()));
    spans.push(Span::new(body, style.fg(color)));
    spans.push(Span::new(space_text(width.saturating_sub(occupied)), style));
    proof {
        assert(views(spans@) =~= diff_row(line@, number_width as int, width as int).spans);
    }
    TextLine::of(spans)
}

/// The rows below the heading of a diff.
pub open spec fn diff_rows(
    lines: Option<Seq<DiffLineView>>,
    number_width: int,
    width: int,
) -> Seq<TextLineView> {
    match lines {
        None => seq![
            TextLineView {
                spans: seq![styled("Generating diff…"@, plain())],
                style: colored(Color::DarkGray, DIFF_BACKGROUND),
            },
        ],
        Some(all) => Seq::new(all.len(), |i: int| diff_row(all[i], number_width, width)),
    }
}

/// The rows below the heading of a diff.
pub fn render_diff_rows(lines: Option<&Vec<DiffLine>>, number_width: usize, width: usize) -> (rows:
    Vec<TextLine>)
    ensures
        views(rows@) == diff_rows(lines_view(lines), number_width as int, width as int),
{
    broadcast use group_views;

    let mut rows: Vec<TextLine> = Vec::new();
    match lines {
        None => {
            rows.push(
                TextLine::styled(
                    "Generating diff…",
                    plain().fg(Color::DarkGray).bg(DIFF_BACKGROUND),
                ),
            );
            rows
        },
        Some(given) => {
            let ghost wanted = diff_rows(
                Some(views(given@)),
                number_width as int,
                width as int,
            );
            let mut i: usize = 0;
            proof {
                assert(wanted.take(0) =~= Seq::empty());
            }
            while i < given.len()
                invariant
                    i <= given@.len(),
                    wanted == diff_rows(Some(views(given@)), number_width as int, width as int),
                    views(rows@) == wanted.take(i as int),
                decreases given@.len() - i,
            {
                let row = render_diff_line(&given[i], number_width, width);
                proof {
                    assert(wanted.take(i + 1) =~= wanted.take(i as int).push(row@));
                }
                rows.push(row);
                i += 1;
            }
            proof {
                assert(wanted.take(i as int) =~= wanted);
            }
            rows
        },
    }
}

proof fn lemma_count_is_filter(lines: Seq<DiffLineView>, kind: DiffLineKind)
    ensures
        count_kind(lines, kind) == lines.filter(|line: DiffLineView| line.kind == kind).len(),
    decreases lines.len(),
{
    reveal(Seq::filter);
    if lines.len() > 0 {
        lemma_count_is_filter(lines.drop_last(), kind);
    }
}

/// What is counted as added are the lines that are additions, and as deleted those
/// that are deletions.
pub proof fn law_counts_are_of_lines(lines: Seq<DiffLineView>)
    ensures
        stats(lines).0 == lines.filter(
            |line: DiffLineView| line.kind == DiffLineKind::Addition,
        ).len(),
        stats(lines).1 == lines.filter(
            |line: DiffLineView| line.kind == DiffLineKind::Deletion,
        ).len(),
{
    lemma_count_is_filter(lines, DiffLineKind::Addition);
    lemma_count_is_filter(lines, DiffLineKind::Deletion);
    let added = |line: DiffLineView| line.kind == DiffLineKind::Addition;
    let deleted = |line: DiffLineView| line.kind == DiffLineKind::Deletion;
    let kind = DiffLineKind::Addition;
    assert((|line: DiffLineView| line.kind == kind) =~= added);
    let kind = DiffLineKind::Deletion;
    assert((|line: DiffLineView| line.kind == kind) =~= deleted);
}

/// A line of a hunk is shown with its numbers, the old before the new, its sign and its
/// text; a heading and a hunk's header are shown without numbers, the latter as a word
/// for what it leaves out.
pub proof fn law_rows_show_numbers_sign_and_text(line: DiffLineView, number_width: nat, width: int)
    ensures
        ({
            let spans = diff_row(line, number_width as int, width).spans;
            let labelled = line.kind == DiffLineKind::Hunk || line.kind == DiffLineKind::Header;
            &&& line.kind == DiffLineKind::Header ==> spans[0].text == line.text
            &&& line.kind == DiffLineKind::Hunk ==> spans[0].text == "··· unchanged lines ···"@
            &&& !labelled ==> spans[0].text == (match line.old_line {
                Some(number) => right_aligned(decimal(number as nat), number_width),
                None => spaces(number_width),
            }) + " "@ + (match line.new_line {
                Some(number) => right_aligned(decimal(number as nat), number_width),
                None => spaces(number_width),
            }) + " "@
            &&& !labelled && line.text.len() > 0 ==> spans[1].text == line.text.take(1) + " "@
                && spans[2].text == line.text.skip(1)
            &&& !labelled && line.text.len() == 0 ==> spans[2].text == line.text
            &&& line.kind == DiffLineKind::Addition ==> spans[2].style.background == Some(
                DIFF_ADDITION_BACKGROUND,
            )
            &&& line.kind == DiffLineKind::Deletion ==> spans[2].style.background == Some(
                DIFF_DELETION_BACKGROUND,
            )
            &&& line.kind == DiffLineKind::Context ==> spans[2].style.background == Some(
                DIFF_BACKGROUND,
            )
        }),
{
}

/// Line numbers have room for the largest and no more.
pub proof fn law_numbers_have_room(lines: Seq<DiffLineView>, i: int)
    requires
        0 <= i < lines.len(),
    ensures
        lines[i].old_line matches Some(number) ==> decimal(number as nat).len() <= number_cells(
            Some(lines),
        ),
        lines[i].new_line matches Some(number) ==> decimal(number as nat).len() <= number_cells(
            Some(lines),
        ),
{
    lemma_largest(lines, i);
    if let Some(largest) = largest_number(lines) {
        lemma_digits_grow(0, 1);
        if let Some(number) = lines[i].old_line {
            lemma_digits_grow(number as nat, largest as nat);
        }
        if let Some(number) = lines[i].new_line {
            lemma_digits_grow(number as nat, largest as nat);
        }
    }
}

proof fn lemma_largest(lines: Seq<DiffLineView>, i: int)
    requires
        0 <= i < lines.len(),
    ensures
        lines[i].old_line matches Some(number) ==> largest_number(lines) matches Some(largest)
            && number <= largest,
        lines[i].new_line matches Some(number) ==> largest_number(lines) matches Some(largest)
            && number <= largest,
    decreases lines.len(),
{
    if i < lines.len() - 1 {
        lemma_largest(lines.drop_last(), i);
    }
}

proof fn lemma_digits_grow(a: nat, b: nat)
    requires
        a <= b,
    ensures
        decimal(a).len() <= decimal(b).len(),
    decreases b,
{
    if b >= 10 {
        if a >= 10 {
            lemma_digits_grow(a / 10, b / 10);
        } else {
            lemma_digits_grow(0, b / 10);
        }
    }
}

/// Each kind of change has a letter of its own, that with which its name begins, and a
/// color of its own.
pub proof fn law_symbols_tell_kinds_apart(a: ChangeKind, b: ChangeKind)
    ensures
        symbol_of(a).0 == symbol_of(b).0 ==> a == b,
        symbol_of(a).1 == symbol_of(b).1 ==> a == b,
        symbol_of(a).0 == seq![
            match a {
                ChangeKind::Added => "Added"@,
                ChangeKind::Modified => "Modified"@,
                ChangeKind::Deleted => "Deleted"@,
                ChangeKind::Renamed => "Renamed"@,
            }[0],
        ],
{
    reveal_strlit("A");
    reveal_strlit("M");
    reveal_strlit("D");
    reveal_strlit("R");
    reveal_strlit("Added");
    reveal_strlit("Modified");
    reveal_strlit("Deleted");
    reveal_strlit("Renamed");
    assert("A"@[0] == 'A');
    assert("M"@[0] == 'M');
    assert("D"@[0] == 'D');
    assert("R"@[0] == 'R');
}

/// Cells that a line of a diff takes up: of a heading those of its words, and of a line of
/// a hunk its two numbers, a space behind each, its sign and a space, and its text.
pub open spec fn drawn_cells(line: DiffLineView, numbers: int) -> int {
    if line.kind == DiffLineKind::Hunk {
        text_cells("··· unchanged lines ···"@) as int
    } else if line.kind == DiffLineKind::Header {
        text_cells(line.text) as int
    } else if line.text.len() == 0 {
        2 * numbers + 3 + 2 * text_cells(line.text)
    } else {
        2 * numbers + 3 + text_cells(line.text.take(1)) + text_cells(line.text.skip(1))
    }
}

proof fn lemma_widest_row(lines: Seq<DiffLineView>, numbers: int, count: int) -> (at: int)
    requires
        0 <= count <= lines.len(),
    ensures
        forall|i: int|
            0 <= i < count ==> row_cells(#[trigger] lines[i], numbers) <= widest_row(
                lines,
                numbers,
                count,
            ),
        widest_row(lines, numbers, count) == 0 || (0 <= at < count && row_cells(lines[at], numbers)
            == widest_row(lines, numbers, count)),
    decreases count,
{
    if count > 0 {
        let before = lemma_widest_row(lines, numbers, count - 1);
        if row_cells(lines[count - 1], numbers) == widest_row(lines, numbers, count) {
            count - 1
        } else {
            before
        }
    } else {
        0
    }
}

/// A diff is as wide as the widest of its lines, the heading among them, and no wider.
pub proof fn law_a_diff_is_as_wide_as_its_widest_line(
    kind: ChangeKind,
    path: Seq<u8>,
    old_path: Option<Seq<u8>>,
    lines: Seq<DiffLineView>,
) -> (at: int)
    requires
        forall|i: int|
            0 <= i < lines.len() ==> drawn_cells(#[trigger] lines[i], number_cells(Some(lines)))
                <= usize::MAX,
    ensures
        ({
            let width = diff_size(kind, path, old_path, Some(lines)).1;
            let numbers = number_cells(Some(lines));
            let first = text_cells(
                symbol_of(kind).0 + " "@ + lossy(path) + counts_text(
                    stats(lines).0,
                    stats(lines).1,
                ),
            );
            &&& first <= width
            &&& old_path matches Some(old) ==> text_cells("  from "@ + lossy(old)) <= width
            &&& forall|i: int|
                0 <= i < lines.len() ==> drawn_cells(#[trigger] lines[i], numbers) <= width
            &&& width == first || (old_path is Some && width == text_cells(
                "  from "@ + lossy(old_path->0),
            )) || (0 <= at < lines.len() && width == drawn_cells(lines[at], numbers))
        }),
{
    let numbers = number_cells(Some(lines));
    assert forall|i: int| 0 <= i < lines.len() implies drawn_cells(#[trigger] lines[i], numbers)
        == row_cells(lines[i], numbers) by {
        lemma_numbers_are_some(lines);
    }
    lemma_widest_row(lines, numbers, lines.len() as int)
}

proof fn lemma_numbers_are_some(lines: Seq<DiffLineView>)
    ensures
        number_cells(Some(lines)) >= 0,
{
}

proof fn lemma_largest_is_some_line(lines: Seq<DiffLineView>) -> (at: int)
    ensures
        largest_number(lines) matches Some(largest) ==> 0 <= at < lines.len() && (
        lines[at].old_line == Some(largest) || lines[at].new_line == Some(largest)),
    decreases lines.len(),
{
    if lines.len() == 0 {
        0
    } else {
        let before = lemma_largest_is_some_line(lines.drop_last());
        let last = lines.len() - 1;
        let own = larger(lines[last].old_line, lines[last].new_line);
        if largest_number(lines) == own {
            last
        } else {
            before
        }
    }
}

/// Line numbers have no more room than one of them needs, or a cell where there is none.
pub proof fn law_numbers_have_no_more_room(lines: Seq<DiffLineView>) -> (at: int)
    ensures
        number_cells(None) == 1,
        ({
            let room = number_cells(Some(lines));
            let needs = |number: Option<usize>|
                number is Some && decimal(number->0 as nat).len() == room;
            room == 1 || (0 <= at < lines.len() && (needs(lines[at].old_line) || needs(
                lines[at].new_line,
            )))
        }),
{
    lemma_largest_is_some_line(lines)
}

} // verus!
