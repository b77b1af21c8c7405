//! What is drawn on the screen.
use vstd::prelude::*;

use crate::app::{
    mode_label, App, AppView, ChangesMode, EditorCursor, Focus, GitState, Mode, TabView,
};
use crate::cache::cached;
use crate::diff::{DiffLineKind, DiffLineView};
use crate::diffview::{
    change_symbol, counts, counts_text, diff_content_dimensions, diff_row, diff_rows, diff_size,
    diff_stats, law_counts_are_of_lines, line_number_width, number_cells, render_diff_rows,
    stats_of, symbol_of,
};
use crate::layout::{
    bordered_inner, content_areas, content_part, inside_border, minus, scrollbar_part, spec_max,
    spec_min, Axis, Rect, UiLayout,
};
use crate::navigation::{NavigationRow, RowView};
use crate::path::components;
use crate::pointer::{
    content_size, shown_diff, SelectedDiff, ShownDiff, CHANGES_TITLE_WIDTH, FILES_TITLE_WIDTH,
};
use crate::scrollbar::{
    compact_horizontal_scrollbar_viewport, compact_viewport, render_position, saturating_u16,
    scrollbar_render_position,
};
use crate::selection::{cursor_at, layout_fits, layout_for, selected_columns};
use crate::seqs::{group_views, views};
use crate::sets::Tab;
use crate::sidebar::{
    cursor_folder, folder_row_in, item_path, item_stats, lemma_rows_among, navigation_edge,
    row_at, row_of_folder, sidebar_bar, sidebar_edge, sidebar_offset, sidebar_rows,
};
use crate::source::{
    column_from, end_column, is_selected, law_selected_columns_are_lit,
    law_selecting_keeps_the_text, lemma_column_behind_first, lemma_line_chars_first,
    lemma_same_columns, line_chars, lit_chars, render_source_span, source_content_dimensions,
    source_views, span_segments, span_text, widest, ColoredSpan, ColoredView, SourceLines,
};
use crate::style::{
    colored, line_of, panel, panel_style, plain, styled, Color, Span, SpanView, TextLine,
    TextLineView, TextStyle, DIFF_BACKGROUND, DIFF_GUTTER_BACKGROUND, DIFF_HEADER_BACKGROUND,
    DIFF_HUNK, DIFF_TEXT,
};
use crate::text::{
    aligned_decimal, decimal, decimal_text, decimal_width, digit_count, join3, lossy, lossy_text,
    right_aligned, space_text, spaces,
};
use crate::width::{char_total, plus, short_label, str_width, text_cells, truncate_label};

verus! {

/// Something to be drawn.
#[derive(Debug, PartialEq, Eq)]
#[allow(inconsistent_fields)]
pub enum Widget {
    /// The titles of the tabs, one of them lit.
    Tabs { selected: usize },
    /// The help text in a frame.
    Help,
    /// A frame with a title.
    Panel { title: String },
    /// A frame with a title and a list in it.
    List { title: String, items: Vec<TextLine>, offset: usize, selected: Option<usize> },
    /// Plain text, broken into lines that fit where `wrap` is set.
    Text { text: String, style: TextStyle, wrap: bool },
    /// Lines of styled text, from a row and a column on.
    Lines { lines: Vec<TextLine>, style: TextStyle, scroll_y: u16, scroll_x: u16 },
    Scrollbar {
        axis: Axis,
        content_length: usize,
        position: usize,
        viewport_length: usize,
        thumb: Color,
        track: Color,
    },
}

#[allow(inconsistent_fields)]
pub ghost enum WidgetView {
    Tabs { selected: int },
    Help,
    Panel { title: Seq<char> },
    List {
        title: Seq<char>,
        items: Seq<TextLineView>,
        offset: int,
        selected: Option<int>,
    },
    Text { text: Seq<char>, style: TextStyle, wrap: bool },
    Lines { lines: Seq<TextLineView>, style: TextStyle, scroll_y: int, scroll_x: int },
    Scrollbar {
        axis: Axis,
        content_length: int,
        position: int,
        viewport_length: int,
        thumb: Color,
        track: Color,
    },
}

pub open spec fn index_view(index: Option<usize>) -> Option<int> {
    match index {
        Some(index) => Some(index as int),
        None => None,
    }
}

impl View for Widget {
    type V = WidgetView;

    open spec fn view(&self) -> WidgetView {
        match self {
            Widget::Tabs { selected } => WidgetView::Tabs { selected: *selected as int },
            Widget::Help => WidgetView::Help,
            Widget::Panel { title } => WidgetView::Panel { title: title@ },
            Widget::List { title, items, offset, selected } => WidgetView::List {
                title: title@,
                items: views(items@),
                offset: *offset as int,
                selected: index_view(*selected),
            },
            Widget::Text { text, style, wrap } => WidgetView::Text {
                text: text@,
                style: *style,
                wrap: *wrap,
            },
            Widget::Lines { lines, style, scroll_y, scroll_x } => WidgetView::Lines {
                lines: views(lines@),
                style: *style,
                scroll_y: *scroll_y as int,
                scroll_x: *scroll_x as int,
            },
            Widget::Scrollbar {
                axis,
                content_length,
                position,
                viewport_length,
                thumb,
                track,
            } => WidgetView::Scrollbar {
                axis: *axis,
                content_length: *content_length as int,
                position: *position as int,
                viewport_length: *viewport_length as int,
                thumb: *thumb,
                track: *track,
            },
        }
    }
}

/// Something drawn in an area.
#[derive(Debug, PartialEq, Eq)]
pub struct Element {
    pub area: Rect,
    pub widget: Widget,
}

pub ghost struct ElementView {
    pub area: Rect,
    pub widget: WidgetView,
}

impl View for Element {
    type V = ElementView;

    open spec fn view(&self) -> ElementView {
        ElementView { area: self.area, widget: self.widget@ }
    }
}

pub open spec fn element(area: Rect, widget: WidgetView) -> ElementView {
    ElementView { area, widget }
}

/// All that is drawn, in order, and where the cursor stands.
#[derive(Debug, PartialEq, Eq)]
pub struct Scene {
    pub elements: Vec<Element>,
    pub cursor: Option<(u16, u16)>,
}

pub ghost struct SceneView {
    pub elements: Seq<ElementView>,
    pub cursor: Option<(u16, u16)>,
}

impl View for Scene {
    type V = SceneView;

    open spec fn view(&self) -> SceneView {
        SceneView { elements: views(self.elements@), cursor: self.cursor }
    }
}

/// The titles of the tabs.
pub const CHANGES_TITLE: &'static str = "1 Changes";

pub const FILES_TITLE: &'static str = "2 Files";

/// What the help shows.
pub const HELP_TEXT: &'static str = "Herdr Agent Diff\n\n1 / 2       Changes review / Files browser\ng           Switch to Git diff / Agent diff in Changes\nb           hide / show the sidebar\nTab         navigation / diff or source focus\nMouse       click folders to expand/collapse, tabs/items/content, drag scrollbars, wheel scroll, drag select\n↑↓ or jk    select files / scroll content\n←→ or hl    folder / file in the sidebar, horizontal scroll\nEnter       open the selected file, expand / collapse the selected folder\n/           filter active list\nr           full refresh\n⌘C          copy selected text; mouse selections copy on release\n?           close help\nq or Esc    close viewer\n\nRead only. Git mode uses read-only Git commands.\nResults are filesystem changes since this session began.";

/// A length of the content, a part of it that is seen, and a place to scroll to:
/// the scrollbar, where there is something to scroll.
pub open spec fn bar_elements(
    axis: Axis,
    area: Rect,
    content: int,
    max_scroll: int,
    scroll: int,
    viewport: int,
    thumb: Color,
    track: Color,
) -> Seq<ElementView> {
    if max_scroll > 0 {
        seq![
            element(
                area,
                WidgetView::Scrollbar {
                    axis,
                    content_length: content,
                    position: render_position(scroll, max_scroll, content),
                    viewport_length: viewport,
                    thumb,
                    track,
                },
            ),
        ]
    } else {
        Seq::empty()
    }
}

fn push_bar(
    elements: &mut Vec<Element>,
    axis: Axis,
    area: Rect,
    content: usize,
    max_scroll: usize,
    scroll: usize,
    viewport: usize,
    thumb: Color,
    track: Color,
)
    ensures
        views(final(elements)@) == views(old(elements)@) + bar_elements(
            axis,
            area,
            content as int,
            max_scroll as int,
            scroll as int,
            viewport as int,
            thumb,
            track,
        ),
{
    broadcast use group_views;

    let ghost before = views(elements@);
    if max_scroll > 0 {
        elements.push(
            Element {
                area,
                widget: Widget::Scrollbar {
                    axis,
                    content_length: content,
                    position: scrollbar_render_position(scroll, max_scroll, content),
                    viewport_length: viewport,
                    thumb,
                    track,
                },
            },
        );
        proof {
            assert(views(elements@) =~= before + bar_elements(
                axis,
                area,
                content as int,
                max_scroll as int,
                scroll as int,
                viewport as int,
                thumb,
                track,
            ));
        }
    } else {
        proof {
            assert(before + Seq::<ElementView>::empty() =~= before);
        }
    }
}

/// A panel of lines, scrolled, with scrollbars where there is more than is seen.
pub open spec fn scrolled_panel(
    inner: Rect,
    lines: Seq<TextLineView>,
    width: int,
    style: TextStyle,
    state: TabView,
    thumb: Color,
    track: Color,
) -> Seq<ElementView> {
    let content = content_part(inner);
    let max_y = minus(lines.len() as int, content.height as int);
    let max_x = minus(width, content.width as int);
    let y = spec_min(state.scroll_y, max_y);
    let x = spec_min(state.scroll_x, max_x);
    seq![
        element(
            content,
            WidgetView::Lines {
                lines,
                style,
                scroll_y: spec_min(y, u16::MAX as int),
                scroll_x: spec_min(x, u16::MAX as int),
            },
        ),
    ] + bar_elements(
        Axis::Vertical,
        content,
        lines.len() as int,
        max_y,
        y,
        content.height as int,
        thumb,
        track,
    ) + bar_elements(
        Axis::Horizontal,
        scrollbar_part(inner),
        width,
        max_x,
        x,
        compact_viewport(content.width as int),
        thumb,
        track,
    )
}

fn scrolled_lines(
    inner: Rect,
    lines: Vec<TextLine>,
    width: usize,
    style: TextStyle,
    scroll: (usize, usize),
    thumb: Color,
    track: Color,
) -> (elements: Vec<Element>)
    requires
        inner.fits(),
    ensures
        forall|state: TabView|
            state.scroll_y == scroll.0 && state.scroll_x == scroll.1 ==> views(elements@)
                == #[trigger] scrolled_panel(
                inner,
                views(lines@),
                width as int,
                style,
                state,
                thumb,
                track,
            ),
{
    broadcast use group_views;

    let (content, below) = content_areas(inner);
    let count = lines.len();
    let max_y = count.saturating_sub(content.height as usize);
    let max_x = width.saturating_sub(content.width as usize);
    let y = if scroll.0 < max_y {
        scroll.0
    } else {
        max_y
    };
    let x = if scroll.1 < max_x {
        scroll.1
    } else {
        max_x
    };
    let mut elements: Vec<Element> = Vec::new();
    let ghost shown = views(lines@);
    elements.push(
        Element {
            area: content,
            widget: Widget::Lines {
                lines,
                style,
                scroll_y: saturating_u16(y),
                scroll_x: saturating_u16(x),
            },
        },
    );
    let ghost first = views(elements@);
    proof {
        assert(shown.len() == count);
        assert(first =~= seq![
            element(
                content,
                WidgetView::Lines {
                    lines: shown,
                    style,
                    scroll_y: spec_min(y as int, u16::MAX as int),
                    scroll_x: spec_min(x as int, u16::MAX as int),
                },
            ),
        ]);
    }
    push_bar(
        &mut elements,
        Axis::Vertical,
        content,
        count,
        max_y,
        y,
        content.height as usize,
        thumb,
        track,
    );
    push_bar(
        &mut elements,
        Axis::Horizontal,
        below,
        width,
        max_x,
        x,
        compact_horizontal_scrollbar_viewport(content.width as usize),
        thumb,
        track,
    );
    elements
}

/// Cells of a line of styled text.
pub open spec fn line_cells(line: TextLineView) -> int {
    span_cells(line.spans, line.spans.len() as int)
}

pub open spec fn span_cells(spans: Seq<SpanView>, count: int) -> int
    decreases count,
{
    if count <= 0 {
        0
    } else {
        plus(span_cells(spans, count - 1), text_cells(spans[count - 1].text) as int)
    }
}

/// Cells of the widest of the first `count` lines, or `least`.
pub open spec fn lines_cells(lines: Seq<TextLineView>, least: int, count: int) -> int
    decreases count,
{
    if count <= 0 {
        least
    } else {
        spec_max(lines_cells(lines, least, count - 1), line_cells(lines[count - 1]))
    }
}

fn line_cell_count(line: &TextLine) -> (width: usize)
    ensures
        width == line_cells(line@),
{
    let ghost spans = views(line.spans@);
    let mut width: usize = 0;
    let mut i: usize = 0;
    while i < line.spans.len()
        invariant
            i <= line.spans@.len(),
            spans == views(line.spans@),
            width == span_cells(spans, i as int),
        decreases line.spans@.len() - i,
    {
        width = width.saturating_add(str_width(line.spans[i].text.as_str()));
        i += 1;
    }
    width
}

fn widest_line(lines: &Vec<TextLine>, least: usize) -> (width: usize)
    ensures
        width == lines_cells(views(lines@), least as int, lines@.len() as int),
{
    let ghost all = views(lines@);
    let mut width = least;
    let mut i: usize = 0;
    while i < lines.len()
        invariant
            i <= lines@.len(),
            all == views(lines@),
            width == lines_cells(all, least as int, i as int),
        decreases lines@.len() - i,
    {
        let line = line_cell_count(&lines[i]);
        if line > width {
            width = line;
        }
        i += 1;
    }
    width
}

/// The lines above the rows of a diff.
pub open spec fn diff_heading(shown: ShownDiff) -> Seq<TextLineView> {
    let (symbol, color) = symbol_of(shown.kind);
    let header = plain().with_bg(DIFF_HEADER_BACKGROUND);
    let (additions, deletions) = stats_of(shown.lines);
    let first = line_of(
        seq![
            styled(symbol + " "@, header.with_fg(color).in_bold()),
            styled(lossy(shown.path), header.with_fg(Color::White).in_bold()),
            styled(counts_text(additions, deletions), header.with_fg(Color::DarkGray)),
        ],
    );
    let blank = TextLineView {
        spans: seq![styled(""@, plain())],
        style: plain().with_bg(DIFF_BACKGROUND),
    };
    match shown.old_path {
        Some(old) => seq![
            first,
            line_of(
                seq![
                    styled("  from "@, header.with_fg(Color::DarkGray)),
                    styled(lossy(old), header.with_fg(Color::DarkGray)),
                ],
            ),
            blank,
        ],
        None => seq![first, blank],
    }
}

/// The lines of a diff, drawn at least as wide as the panel.
pub open spec fn diff_lines(shown: ShownDiff, panel_width: int) -> Seq<TextLineView> {
    diff_heading(shown) + diff_rows(
        shown.lines,
        number_cells(shown.lines),
        diff_width(shown, panel_width),
    )
}

pub open spec fn diff_width(shown: ShownDiff, panel_width: int) -> int {
    spec_max(diff_size(shown.kind, shown.path, shown.old_path, shown.lines).1, panel_width)
}

/// A diff drawn inside its panel.
pub open spec fn diff_scene(app: AppView, inner: Rect, selected: int) -> Seq<ElementView> {
    match shown_diff(app, selected) {
        None => seq![
            element(
                inner,
                WidgetView::Text { text: "No matching changes."@, style: panel(), wrap: false },
            ),
        ],
        Some(shown) => {
            let panel_width = content_part(inner).width as int;
            let lines = diff_lines(shown, panel_width);
            scrolled_panel(
                inner,
                lines,
                lines_cells(lines, diff_width(shown, panel_width), lines.len() as int),
                colored(DIFF_TEXT, DIFF_BACKGROUND),
                app.changes_state,
                DIFF_HUNK,
                DIFF_GUTTER_BACKGROUND,
            )
        },
    }
}

fn text_element(area: Rect, text: String, style: TextStyle, wrap: bool) -> (element: Element)
    ensures
        element@ == crate::scene::element(
            area,
            WidgetView::Text { text: text@, style, wrap },
        ),
{
    Element { area, widget: Widget::Text { text, style, wrap } }
}

fn heading_lines(shown: &SelectedDiff<'_>) -> (lines: Vec<TextLine>)
    ensures
        views(lines@) == diff_heading(shown@),
{
    broadcast use group_views;

    let (symbol, color) = change_symbol(shown.kind);
    let header = plain().bg(DIFF_HEADER_BACKGROUND);
    let (additions, deletions) = match shown.lines {
        Some(all) => diff_stats(all),
        None => (0, 0),
    };
    let mut mark = symbol.to_owned();
    mark.append(" ");
    let mut spans: Vec<Span> = Vec::new();
    spans.push(Span::new(mark, header.fg(color).bold()));
    spans.push(Span::new(lossy_text(shown.path), header.fg(Color::White).bold()));
    spans.push(Span::new(counts(additions, deletions), header.fg(Color::DarkGray)));
    let ghost wanted = diff_heading(shown@);
    proof {
        assert(views(spans@) =~= wanted[0].spans);
    }
    let mut lines: Vec<TextLine> = Vec::new();
    lines.push(TextLine::of(spans));
    if let Some(old) = shown.old_path {
        let mut from: Vec<Span> = Vec::new();
        from.push(Span::of("  from ", header.fg(Color::DarkGray)));
        from.push(Span::new(lossy_text(old), header.fg(Color::DarkGray)));
        proof {
            assert(views(from@) =~= wanted[1].spans);
        }
        lines.push(TextLine::of(from));
    }
    lines.push(TextLine::styled("", plain().bg(DIFF_BACKGROUND)));
    proof {
        assert(views(lines@) =~= wanted);
    }
    lines
}

/// The text of a line of source behind a column: its pieces, cut at the
/// selection.
pub open spec fn source_spans(
    spans: Seq<ColoredView>,
    column: int,
    selection: Option<(usize, usize)>,
) -> Seq<SpanView>
    decreases spans.len(),
{
    if spans.len() == 0 {
        Seq::empty()
    } else {
        span_segments(spans[0], column, selection) + source_spans(
            spans.skip(1),
            end_column(spans[0].text, column),
            selection,
        )
    }
}

/// A line of source with its number.
pub open spec fn source_line(app: AppView, lines: SourceLines, line: int) -> TextLineView {
    let width = digit_count(lines.len());
    line_of(
        seq![
            styled(
                right_aligned(decimal((line + 1) as nat), width) + " │ "@,
                plain().with_fg(Color::DarkGray),
            ),
        ] + source_spans(
            lines[line],
            plus(width as int, 3),
            selected_columns(app, line),
        ),
    )
}

pub open spec fn source_lines(app: AppView, lines: SourceLines) -> Seq<TextLineView> {
    Seq::new(lines.len(), |i: int| source_line(app, lines, i))
}

/// A source drawn inside its panel.
pub open spec fn source_scene(app: AppView, inner: Rect, selected: int) -> Seq<ElementView> {
    match cached(app.source_notices, selected as usize) {
        Some(notice) => seq![
            element(
                inner,
                WidgetView::Text {
                    text: notice@,
                    style: panel().with_fg(Color::Yellow),
                    wrap: false,
                },
            ),
        ],
        None => match cached(app.source_cache, selected as usize) {
            None => seq![
                element(
                    inner,
                    WidgetView::Text {
                        text: "Highlighting source…"@,
                        style: panel(),
                        wrap: false,
                    },
                ),
            ],
            Some(lines) => scrolled_panel(
                inner,
                source_lines(app, source_views(lines@)),
                widest(source_views(lines@), lines@.len() as int),
                panel(),
                app.files_state,
                Color::Cyan,
                Color::DarkGray,
            ),
        },
    }
}

impl App {
    fn draw_diff(&self, inner: Rect, selected: usize) -> (elements: Vec<Element>)
        requires
            inner.fits(),
        ensures
            views(elements@) == diff_scene(self@, inner, selected as int),
    {
        broadcast use group_views;

        let shown = match self.selected_diff(selected) {
            None => {
                let mut elements: Vec<Element> = Vec::new();
                elements.push(
                    text_element(inner, "No matching changes.".to_owned(), panel_style(), false),
                );
                proof {
                    assert(views(elements@) =~= diff_scene(self@, inner, selected as int));
                }
                return elements;
            },
            Some(shown) => shown,
        };
        let (content, _) = content_areas(inner);
        let (_, measured) = diff_content_dimensions(
            shown.kind,
            shown.path,
            shown.old_path,
            shown.lines,
        );
        let width = if measured > content.width as usize {
            measured
        } else {
            content.width as usize
        };
        let mut lines = heading_lines(&shown);
        let ghost above = views(lines@);
        let number_width = line_number_width(shown.lines);
        let mut rows = render_diff_rows(shown.lines, number_width, width);
        let ghost below = views(rows@);
        lines.append(&mut rows);
        proof {
            assert(views(lines@) =~= above + below);
            assert(views(lines@) == diff_lines(shown@, content.width as int));
            assert(views(lines@).len() == lines@.len());
        }
        let content_width = widest_line(&lines, width);
        scrolled_lines(
            inner,
            lines,
            content_width,
            plain().fg(DIFF_TEXT).bg(DIFF_BACKGROUND),
            (self.changes_state.scroll_y, self.changes_state.scroll_x),
            DIFF_HUNK,
            DIFF_GUTTER_BACKGROUND,
        )
    }

    fn draw_source_line(&self, lines: &Vec<Vec<ColoredSpan>>, index: usize) -> (line: TextLine)
        requires
            index < lines@.len(),
        ensures
            line@ == source_line(self@, source_views(lines@), index as int),
    {
        broadcast use group_views;

        let count = lines.len();
        let width = decimal_width(count);
        let selection = self.selection_range_for_line(index);
        let ghost all = views(lines@[index as int]@);
        let ghost first = plus(width as int, 3);
        let mut number = aligned_decimal(index + 1, width);
        number.append(" │ ");
        let mut output: Vec<Span> = Vec::new();
        output.push(Span::new(number, plain().fg(Color::DarkGray)));
        let ghost head = views(output@);
        let mut column = width.saturating_add(3);
        let mut k: usize = 0;
        proof {
            assert(all.skip(0) =~= all);
        }
        while k < lines[index].len()
            invariant
                index < lines@.len(),
                k <= lines@[index as int]@.len(),
                all == views(lines@[index as int]@),
                views(output@) + source_spans(all.skip(k as int), column as int, selection) == head
                    + source_spans(all, first, selection),
            decreases lines@[index as int]@.len() - k,
        {
            let ghost before = views(output@);
            let ghost rest = all.skip(k as int);
            let (mut pieces, next) = render_source_span(&lines[index][k], column, selection);
            let ghost added = views(pieces@);
            proof {
                assert(rest[0] == all[k as int]);
                assert(rest.skip(1) =~= all.skip(k + 1));
            }
            output.append(&mut pieces);
            proof {
                let tail = source_spans(rest.skip(1), next as int, selection);
                assert(views(output@) =~= before + added);
                assert(before + (added + tail) =~= before + added + tail);
            }
            column = next;
            k += 1;
        }
        proof {
            assert(all.skip(k as int) =~= Seq::empty());
            assert(views(output@) + Seq::<SpanView>::empty() =~= views(output@));
            assert(source_views(lines@)[index as int] == all);
            assert(head =~= seq![
                styled(
                    right_aligned(decimal((index + 1) as nat), width as nat) + " │ "@,
                    plain().with_fg(Color::DarkGray),
                ),
            ]);
        }
        TextLine::of(output)
    }

    fn draw_source(&self, inner: Rect, selected: usize) -> (elements: Vec<Element>)
        requires
            inner.fits(),
        ensures
            views(elements@) == source_scene(self@, inner, selected as int),
    {
        broadcast use group_views;

        if let Some(notice) = self.source_notices.get(&selected) {
            let mut elements: Vec<Element> = Vec::new();
            elements.push(
                text_element(inner, notice.clone(), panel_style().fg(Color::Yellow), false),
            );
            proof {
                assert(views(elements@) =~= source_scene(self@, inner, selected as int));
            }
            return elements;
        }
        let lines = match self.source_cache.get(&selected) {
            None => {
                let mut elements: Vec<Element> = Vec::new();
                elements.push(
                    text_element(inner, "Highlighting source…".to_owned(), panel_style(), false),
                );
                proof {
                    assert(views(elements@) =~= source_scene(self@, inner, selected as int));
                }
                return elements;
            },
            Some(lines) => lines,
        };
        let ghost all = source_views(lines@);
        let ghost wanted = source_lines(self@, all);
        let mut rendered: Vec<TextLine> = Vec::new();
        let mut i: usize = 0;
        proof {
            assert(wanted.take(0) =~= Seq::empty());
        }
        while i < lines.len()
            invariant
                i <= lines@.len(),
                all == source_views(lines@),
                wanted == source_lines(self@, all),
                views(rendered@) == wanted.take(i as int),
            decreases lines@.len() - i,
        {
            let line = self.draw_source_line(lines, i);
            proof {
                assert(wanted.take(i + 1) =~= wanted.take(i as int).push(line@));
            }
            rendered.push(line);
            i += 1;
        }
        proof {
            assert(wanted.take(i as int) =~= wanted);
        }
        let (_, width) = source_content_dimensions(lines);
        scrolled_lines(
            inner,
            rendered,
            width,
            panel_style(),
            (self.files_state.scroll_y, self.files_state.scroll_x),
            Color::Cyan,
            Color::DarkGray,
        )
    }
}

/// What stands at the left of a row.
pub open spec fn row_gutter(selected: bool) -> Seq<char> {
    if selected {
        "▎ "@
    } else {
        "  "@
    }
}

/// The counts at the right of a row.
pub open spec fn stats_text(stats: (nat, nat)) -> Seq<char> {
    "+"@ + decimal(stats.0) + " -"@ + decimal(stats.1)
}

/// Cells of the counts at the right of a row.
pub open spec fn stats_cells(stats: Option<(nat, nat)>) -> int {
    match stats {
        Some(counts) => text_cells(stats_text(counts)) as int,
        None => 0,
    }
}

pub open spec fn stats_spans(stats: Option<(nat, nat)>) -> Seq<SpanView> {
    match stats {
        Some((additions, deletions)) => seq![
            styled("+"@ + decimal(additions), plain().with_fg(Color::Green)),
            styled(" "@, plain()),
            styled("-"@ + decimal(deletions), plain().with_fg(Color::Red)),
        ],
        None => Seq::empty(),
    }
}

/// What stands before the name of a file, and its color.
pub open spec fn row_prefix(app: AppView, index: int, depth: int, selected: bool) -> (
    Seq<char>,
    Color,
) {
    let indented = row_gutter(selected) + spaces(plus(depth, depth) as nat);
    match app.tab {
        Tab::Changes => {
            let (symbol, color) = symbol_of(
                match app.changes_mode {
                    ChangesMode::Agent => app.changes[index].kind,
                    ChangesMode::Git => app.git_changes[index].kind,
                },
            );
            (indented + symbol + " "@, color)
        },
        Tab::Files => (indented, Color::DarkGray),
    }
}

/// A row of the sidebar as it is drawn.
pub open spec fn row_line(app: AppView, row: RowView, row_width: int, selected: bool)
    -> TextLineView {
    match row {
        RowView::Status { label } => line_of(
            seq![styled(label, plain().with_fg(Color::DarkGray).in_bold())],
        ),
        RowView::Group { path, label } => line_of(
            seq![
                styled(
                    row_gutter(selected),
                    if selected {
                        plain().with_fg(Color::Cyan).in_bold()
                    } else {
                        plain()
                    },
                ),
                styled(
                    if app.collapsed_groups.contains((app.tab, components(path))) {
                        "▸ "@
                    } else {
                        "▾ "@
                    },
                    plain().with_fg(Color::Cyan),
                ),
                styled(label, plain().with_fg(Color::Cyan).in_bold()),
            ],
        ),
        RowView::File { index, label, depth } => {
            let (prefix, color) = row_prefix(app, index, depth, selected);
            let stats = item_stats(app, index);
            let room = minus(minus(row_width, text_cells(prefix) as int), stats_cells(stats));
            let name = short_label(label, minus(room, 1));
            let padding = spec_max(minus(room, text_cells(name) as int), 1);
            line_of(
                seq![
                    styled(prefix, plain().with_fg(color).in_bold()),
                    styled(name, plain()),
                    styled(spaces(padding as nat), plain()),
                ] + stats_spans(stats),
            )
        },
    }
}

/// The row of the sidebar that shows the item.
pub open spec fn row_of_item(rows: Seq<RowView>, index: int) -> int
    decreases rows.len(),
{
    if rows.len() == 0 || (rows[0] matches RowView::File { index: at, .. } && at == index) {
        0
    } else {
        1 + row_of_item(rows.skip(1), index)
    }
}

/// The row of the sidebar that its cursor stands on, where it has one: that of a
/// folder, or that of the selected item.
pub open spec fn selected_row(app: AppView) -> Option<int> {
    let rows = sidebar_rows(app);
    let k = match (cursor_folder(app), app.selected_item()) {
        (Some(folder), _) => row_of_folder(rows, folder),
        (None, Some(selected)) => row_of_item(rows, selected),
        (None, None) => rows.len() as int,
    };
    if k < rows.len() {
        Some(k)
    } else {
        None
    }
}

/// The title of the sidebar.
pub open spec fn sidebar_title(app: AppView) -> Seq<char> {
    if app.active().filter.len() > 0 {
        " /"@ + app.active().filter + " "@
    } else {
        match app.tab {
            Tab::Changes => " "@ + mode_label(app.changes_mode) + " · "@ + decimal(
                app.filtered().len(),
            ) + " files "@,
            Tab::Files => " Files "@,
        }
    }
}

pub open spec fn row_lines(app: AppView, row_width: int) -> Seq<TextLineView> {
    Seq::new(
        sidebar_rows(app).len(),
        |i: int| row_line(app, sidebar_rows(app)[i], row_width, selected_row(app) == Some(i)),
    )
}

/// The list of the sidebar as it is drawn; its selected row is lit where it can be
/// seen.
pub open spec fn sidebar_list(app: AppView, area: Rect) -> ElementView {
    let inner = inside_border(area);
    let offset = sidebar_offset(app, area);
    element(
        area,
        WidgetView::List {
            title: sidebar_title(app),
            items: row_lines(app, inner.width as int),
            offset,
            selected: match selected_row(app) {
                Some(row) => if offset <= row < plus(offset, inner.height as int) {
                    Some(row)
                } else {
                    None
                },
                None => None,
            },
        },
    )
}

/// The sidebar as it is drawn: its list, and a scrollbar on its border where there
/// are more rows than it can show.
pub open spec fn sidebar_scene(app: AppView, area: Rect) -> Seq<ElementView> {
    let rows = sidebar_rows(app).len() as int;
    let shown = inside_border(area).height as int;
    seq![sidebar_list(app, area)] + bar_elements(
        Axis::Vertical,
        sidebar_edge(area),
        rows,
        minus(rows, shown),
        sidebar_offset(app, area),
        shown,
        Color::Cyan,
        Color::DarkGray,
    )
}

/// The title of the content.
pub open spec fn content_title(app: AppView) -> Seq<char> {
    match app.tab {
        Tab::Changes => match app.selected_item() {
            Some(selected) => " "@ + mode_label(app.changes_mode) + " — "@ + lossy(
                item_path(app, selected),
            ) + " "@,
            None => " "@ + mode_label(app.changes_mode) + " "@,
        },
        Tab::Files => " Read only "@,
    }
}

/// What the content says where nothing is selected.
pub open spec fn empty_message(app: AppView) -> Seq<char> {
    match app.scan_error {
        Some(error) => "Unable to scan filesystem.\n\n"@ + error + "\n\nPress r to retry."@,
        None => if app.loading {
            "Scanning filesystem…"@
        } else if app.tab == Tab::Changes && app.changes_mode == ChangesMode::Git {
            match app.git_error {
                Some(error) => "Git diff unavailable.\n\n"@ + error,
                None => if app.git_state != GitState::Loaded {
                    "Reading Git status…"@
                } else {
                    "No uncommitted Git changes."@
                },
            }
        } else if app.capturing && app.tab == Tab::Changes {
            "Capturing baseline…\n\nChanges will become available when capture completes.\nFiles remains available."@
        } else if app.manifest is None && app.tab == Tab::Changes {
            "No baseline exists.\n\nRestart this agent to capture changes from session start.\nFiles remains available."@
        } else if app.tab == Tab::Changes {
            "No filesystem changes since this session began."@
        } else {
            "No readable files."@
        },
    }
}

/// The content as it is drawn.
pub open spec fn content_scene(app: AppView, area: Rect) -> Seq<ElementView> {
    let inner = inside_border(area);
    seq![element(area, WidgetView::Panel { title: content_title(app) })] + match app.selected_item() {
        None => seq![
            element(
                inner,
                WidgetView::Text { text: empty_message(app), style: panel(), wrap: true },
            ),
        ],
        Some(selected) => match app.tab {
            Tab::Changes => diff_scene(app, inner, selected),
            Tab::Files => source_scene(app, inner, selected),
        },
    }
}

/// The line at the bottom of the screen.
pub open spec fn status_text(app: AppView) -> Seq<char> {
    if app.mode == Mode::Filter {
        "filter: "@ + app.active().filter + "_"@
    } else if app.loading {
        "Refreshing…"@
    } else {
        match app.scan_error {
            Some(error) => "Refresh failed: "@ + error + "  r retry  ? help  q close"@,
            None => if app.notices.len() > 0 {
                decimal(app.notices.len()) + " notice(s): "@ + app.notices[0]
                    + "  click/wheel/drag scrollbar  Tab focus  r refresh  ? help  q close"@
            } else {
                "g: Git diff / Agent  click folders  drag scrollbars  Tab focus  / filter  ? help  q close"@
            },
        }
    }
}

/// The viewer with a source scrolled no further than its end.
pub open spec fn source_scroll_clamped(app: AppView, content: Option<Rect>) -> AppView {
    match content {
        Some(area) if app.tab == Tab::Files => match app.selected_item() {
            None => AppView {
                files_state: TabView { scroll_y: 0, scroll_x: 0, ..app.files_state },
                ..app
            },
            Some(selected) => match cached(app.source_cache, selected as usize) {
                None => app,
                Some(lines) => {
                    let part = content_part(inside_border(area));
                    let width = widest(source_views(lines@), lines@.len() as int);
                    AppView {
                        files_state: TabView {
                            scroll_y: spec_min(
                                app.files_state.scroll_y,
                                minus(lines@.len() as int, part.height as int),
                            ),
                            scroll_x: spec_min(
                                app.files_state.scroll_x,
                                minus(width, part.width as int),
                            ),
                            ..app.files_state
                        },
                        ..app
                    }
                },
            },
        },
        _ => app,
    }
}

/// Where the cursor is drawn; for four tenths of every second it is not.
pub open spec fn drawn_cursor(app: AppView, content: Option<Rect>) -> Option<(u16, u16)> {
    if app.mode == Mode::Help || app.focus != Focus::Content || app.tab == Tab::Changes || minus(
        app.now_millis as int,
        app.cursor_blink_started as int,
    ) % 1000 >= 600 {
        None
    } else {
        match (content, app.cursor) {
            (Some(area), Some(cursor)) => {
                let part = content_part(inside_border(area));
                let state = app.active();
                let line = cursor.line - state.scroll_y;
                let column = cursor.column - state.scroll_x;
                if part.empty() || cursor.tab != app.tab || line < 0 || column < 0 || line
                    >= part.height || column >= part.width {
                    None
                } else {
                    Some(
                        (
                            spec_min(part.x + column, u16::MAX as int) as u16,
                            spec_min(part.y + line, u16::MAX as int) as u16,
                        ),
                    )
                }
            },
            _ => None,
        }
    }
}

/// What is drawn between the tabs and the status.
pub open spec fn body_scene(app: AppView, layout: UiLayout) -> Seq<ElementView> {
    if app.mode == Mode::Help {
        seq![element(layout.body, WidgetView::Help)]
    } else {
        (match layout.navigation {
            Some(area) => sidebar_scene(app, area),
            None => Seq::empty(),
        }) + (match layout.content {
            Some(area) => content_scene(app, area),
            None => Seq::empty(),
        })
    }
}

/// All that is drawn, with the screen laid out as given.
pub open spec fn whole_scene(app: AppView, layout: UiLayout) -> SceneView {
    SceneView {
        elements: seq![
            element(
                layout.tabs,
                WidgetView::Tabs {
                    selected: if app.tab == Tab::Files {
                        1
                    } else {
                        0
                    },
                },
            ),
        ] + body_scene(app, layout) + seq![
            element(
                layout.status,
                WidgetView::Text {
                    text: status_text(app),
                    style: plain().with_fg(Color::DarkGray),
                    wrap: false,
                },
            ),
        ],
        cursor: drawn_cursor(app, layout.content),
    }
}

/// The viewer once it has been drawn on a screen.
pub open spec fn after_draw(app: AppView, area: Rect, layout: UiLayout) -> AppView {
    source_scroll_clamped(AppView { viewport: area, ..app }, layout.content)
}

fn stats_label(additions: usize, deletions: usize) -> (text: String)
    ensures
        text@ == stats_text((additions as nat, deletions as nat)),
{
    let added = decimal_text(additions as u64);
    let deleted = decimal_text(deletions as u64);
    let mut text = join3("+", added.as_str(), " -");
    text.append(deleted.as_str());
    text
}

fn signed(sign: &str, count: usize) -> (text: String)
    ensures
        text@ == sign@ + decimal(count as nat),
{
    let number = decimal_text(count as u64);
    let mut text = sign.to_owned();
    text.append(number.as_str());
    text
}

pub open spec fn stats_view(stats: Option<(usize, usize)>) -> Option<(nat, nat)> {
    match stats {
        Some((additions, deletions)) => Some((additions as nat, deletions as nat)),
        None => None,
    }
}

fn push_stats(spans: &mut Vec<Span>, stats: Option<(usize, usize)>)
    ensures
        views(final(spans)@) == views(old(spans)@) + stats_spans(stats_view(stats)),
{
    broadcast use group_views;

    let ghost before = views(spans@);
    match stats {
        Some((additions, deletions)) => {
            spans.push(Span::new(signed("+", additions), plain().fg(Color::Green)));
            spans.push(Span::of(" ", plain()));
            spans.push(Span::new(signed("-", deletions), plain().fg(Color::Red)));
            proof {
                assert(views(spans@) =~= before + stats_spans(stats_view(stats)));
            }
        },
        None => {
            proof {
                assert(before + Seq::<SpanView>::empty() =~= before);
            }
        },
    }
}

impl App {
    fn file_prefix(&self, index: usize, depth: usize, selected: bool) -> (prefix: (String, Color))
        requires
            index < self@.item_count(),
        ensures
            (prefix.0@, prefix.1) == row_prefix(self@, index as int, depth as int, selected),
    {
        let mut text = if selected {
            "▎ ".to_owned()
        } else {
            "  ".to_owned()
        };
        let indent = space_text(depth.saturating_add(depth));
        text.append(indent.as_str());
        match self.tab {
            Tab::Changes => {
                let kind = match self.changes_mode {
                    ChangesMode::Agent => self.changes[index].kind,
                    ChangesMode::Git => self.git_changes[index].kind,
                };
                let (symbol, color) = change_symbol(kind);
                text.append(symbol);
                text.append(" ");
                (text, color)
            },
            Tab::Files => (text, Color::DarkGray),
        }
    }

    fn folder_item(&self, path: &Vec<u8>, label: &String, selected: bool) -> (line: TextLine)
        ensures
            forall|row_width: int|
                line@ == #[trigger] row_line(
                    self@,
                    (RowView::Group { path: path@, label: label@ }),
                    row_width,
                    selected,
                ),
    {
        broadcast use group_views;

        let mut spans: Vec<Span> = Vec::new();
        if selected {
            spans.push(Span::of("▎ ", plain().fg(Color::Cyan).bold()));
        } else {
            spans.push(Span::of("  ", plain()));
        }
        if self.group_collapsed(path) {
            spans.push(Span::of("▸ ", plain().fg(Color::Cyan)));
        } else {
            spans.push(Span::of("▾ ", plain().fg(Color::Cyan)));
        }
        spans.push(Span::new(label.clone(), plain().fg(Color::Cyan).bold()));
        proof {
            assert forall|row_width: int| views(spans@) == (#[trigger] row_line(
                self@,
                RowView::Group { path: path@, label: label@ },
                row_width,
                selected,
            )).spans by {
                assert(views(spans@) =~= row_line(
                    self@,
                    RowView::Group { path: path@, label: label@ },
                    row_width,
                    selected,
                ).spans);
            }
        }
        TextLine::of(spans)
    }

    fn file_item(
        &self,
        index: usize,
        label: &String,
        depth: usize,
        row_width: usize,
        selected: bool,
    ) -> (line: TextLine)
        requires
            index < self@.item_count(),
        ensures
            line@ == row_line(
                self@,
                (RowView::File { index: index as int, label: label@, depth: depth as int }),
                row_width as int,
                selected,
            ),
    {
        broadcast use group_views;

        let (prefix, color) = self.file_prefix(index, depth, selected);
        let stats = self.navigation_stats(index);
        let stats_width = match stats {
            Some((additions, deletions)) => {
                let text = stats_label(additions, deletions);
                str_width(text.as_str())
            },
            None => 0,
        };
        let room = row_width.saturating_sub(str_width(prefix.as_str())).saturating_sub(
            stats_width,
        );
        let name = truncate_label(label.as_str(), room.saturating_sub(1));
        let left = room.saturating_sub(str_width(name.as_str()));
        let padding = if left < 1 {
            1
        } else {
            left
        };
        let ghost wanted = row_line(
            self@,
            RowView::File { index: index as int, label: label@, depth: depth as int },
            row_width as int,
            selected,
        );
        let mut spans: Vec<Span> = Vec::new();
        spans.push(Span::new(prefix, plain().fg(color).bold()));
        spans.push(Span::new(name, plain()));
        spans.push(Span::new(space_text(padding), plain()));
        let ghost head = views(spans@);
        push_stats(&mut spans, stats);
        proof {
            assert(stats_view(stats) == item_stats(self@, index as int));
            assert(views(spans@) =~= wanted.spans);
        }
        TextLine::of(spans)
    }

    fn navigation_item(&self, row: &NavigationRow, row_width: usize, selected: bool) -> (line:
        TextLine)
        requires
            row@ matches RowView::File { index, .. } ==> index < self@.item_count(),
        ensures
            line@ == row_line(self@, row@, row_width as int, selected),
    {
        match row {
            NavigationRow::Status { label } => {
                broadcast use group_views;

                let mut spans: Vec<Span> = Vec::new();
                spans.push(Span::new(label.clone(), plain().fg(Color::DarkGray).bold()));
                proof {
                    assert(views(spans@) =~= row_line(
                        self@,
                        row@,
                        row_width as int,
                        selected,
                    ).spans);
                }
                TextLine::of(spans)
            },
            NavigationRow::Group { path, label } => self.folder_item(path, label, selected),
            NavigationRow::File { index, label, depth } => self.file_item(
                *index,
                label,
                *depth,
                row_width,
                selected,
            ),
        }
    }
}

proof fn lemma_rows_show_items(app: AppView)
    ensures
        forall|k: int|
            0 <= k < sidebar_rows(app).len() ==> (#[trigger] sidebar_rows(app)[k] matches RowView::File {
                index,
                ..
            } ==> index < app.item_count()),
{
    let items = Set::new(|index: int| 0 <= index < app.item_count());
    lemma_rows_among(app, items);
    let rows = sidebar_rows(app);
    assert forall|k: int| 0 <= k < rows.len() implies (
    #[trigger] rows[k] matches RowView::File { index, .. } ==> index < app.item_count()) by {
        if rows[k] is File {
            assert(items.contains(rows[k]->File_index));
        }
    }
}

impl App {
    /// The row of the sidebar that its cursor stands on.
    fn selected_navigation_row(&self, rows: &Vec<NavigationRow>) -> (row: Option<usize>)
        requires
            views(rows@) == sidebar_rows(self@),
        ensures
            index_view(row) == selected_row(self@),
    {
        let ghost all = sidebar_rows(self@);
        proof {
            assert(all.len() == rows@.len());
        }
        if let Some(folder) = self.navigation_cursor_folder() {
            return folder_row_in(rows, &folder);
        }
        let selected = match self.actual_selected() {
            None => {
                return None;
            },
            Some(selected) => selected,
        };
        let mut k: usize = 0;
        proof {
            assert(all.skip(0) =~= all);
        }
        while k < rows.len()
            invariant
                k <= rows@.len(),
                all == views(rows@),
                all == sidebar_rows(self@),
                all.len() == rows@.len(),
                cursor_folder(self@) is None,
                self@.selected_item() == Some(selected as int),
                row_of_item(all, selected as int) == k + row_of_item(
                    all.skip(k as int),
                    selected as int,
                ),
            decreases rows@.len() - k,
        {
            let ghost rest = all.skip(k as int);
            proof {
                assert(rest[0] == rows@[k as int]@);
                assert(rest.skip(1) =~= all.skip(k + 1));
            }
            if let NavigationRow::File { index, .. } = &rows[k] {
                if *index == selected {
                    return Some(k);
                }
            }
            k += 1;
        }
        proof {
            assert(all.skip(k as int).len() == 0);
        }
        None
    }

    fn navigation_items(
        &self,
        rows: &Vec<NavigationRow>,
        row_width: usize,
        selected: Option<usize>,
    ) -> (items: Vec<TextLine>)
        requires
            views(rows@) == sidebar_rows(self@),
            index_view(selected) == selected_row(self@),
        ensures
            views(items@) == row_lines(self@, row_width as int),
    {
        broadcast use group_views;

        let ghost wanted = row_lines(self@, row_width as int);
        let mut items: Vec<TextLine> = Vec::new();
        let mut k: usize = 0;
        proof {
            lemma_rows_show_items(self@);
            assert(wanted.take(0) =~= Seq::empty());
            assert(views(rows@).len() == rows@.len());
        }
        while k < rows.len()
            invariant
                k <= rows@.len(),
                views(rows@) == sidebar_rows(self@),
                rows@.len() == sidebar_rows(self@).len(),
                index_view(selected) == selected_row(self@),
                wanted == row_lines(self@, row_width as int),
                forall|k: int|
                    0 <= k < sidebar_rows(self@).len() ==> (#[trigger] sidebar_rows(
                        self@,
                    )[k] matches RowView::File { index, .. } ==> index < self@.item_count()),
                views(items@) == wanted.take(k as int),
            decreases rows@.len() - k,
        {
            proof {
                assert(sidebar_rows(self@)[k as int] == rows@[k as int]@);
            }
            let chosen = match selected {
                Some(row) => row == k,
                None => false,
            };
            let item = self.navigation_item(&rows[k], row_width, chosen);
            proof {
                assert(chosen == (selected_row(self@) == Some(k as int)));
                assert(wanted[k as int] == item@);
                assert(wanted.take(k + 1) =~= wanted.take(k as int).push(item@));
            }
            items.push(item);
            k += 1;
        }
        proof {
            assert(wanted.take(k as int) =~= wanted);
        }
        items
    }

    fn navigation_title(&self) -> (title: String)
        ensures
            title@ == sidebar_title(self@),
    {
        let filter = self.active_state().filter.as_str();
        if filter.unicode_len() > 0 {
            join3(" /", filter, " ")
        } else {
            match self.tab {
                Tab::Changes => {
                    let indices = self.filtered_indices();
                    let count = decimal_text(indices.len() as u64);
                    let mut title = join3(" ", self.changes_mode.label(), " · ");
                    title.append(count.as_str());
                    title.append(" files ");
                    title
                },
                Tab::Files => " Files ".to_owned(),
            }
        }
    }

    fn draw_navigation(&self, area: Rect) -> (elements: Vec<Element>)
        ensures
            views(elements@) == sidebar_scene(self@, area),
    {
        broadcast use group_views;

        let rows = self.navigation_rows();
        let inner = bordered_inner(area);
        let offset = self.navigation_scroll_offset(area);
        let row = self.selected_navigation_row(&rows);
        let items = self.navigation_items(&rows, inner.width as usize, row);
        let selected = match row {
            Some(at) => {
                if at >= offset && at < offset.saturating_add(inner.height as usize) {
                    Some(at)
                } else {
                    None
                }
            },
            None => None,
        };
        let mut elements: Vec<Element> = Vec::new();
        elements.push(
            Element {
                area,
                widget: Widget::List { title: self.navigation_title(), items, offset, selected },
            },
        );
        proof {
            assert(views(rows@).len() == rows@.len());
            assert(views(elements@) =~= seq![sidebar_list(self@, area)]);
        }
        push_bar(
            &mut elements,
            Axis::Vertical,
            navigation_edge(area),
            rows.len(),
            rows.len().saturating_sub(inner.height as usize),
            offset,
            inner.height as usize,
            Color::Cyan,
            Color::DarkGray,
        );
        elements
    }

    fn content_heading(&self, selected: Option<usize>) -> (title: String)
        requires
            index_view(selected) == self@.selected_item(),
            selected matches Some(index) ==> index < self@.item_count(),
        ensures
            title@ == content_title(self@),
    {
        match self.tab {
            Tab::Changes => match selected {
                Some(index) => {
                    let path = match self.changes_mode {
                        ChangesMode::Agent => lossy_text(&self.changes[index].path),
                        ChangesMode::Git => lossy_text(&self.git_changes[index].path),
                    };
                    let mut title = join3(" ", self.changes_mode.label(), " — ");
                    title.append(path.as_str());
                    title.append(" ");
                    title
                },
                None => join3(" ", self.changes_mode.label(), " "),
            },
            Tab::Files => " Read only ".to_owned(),
        }
    }

    fn missing_content(&self) -> (text: String)
        ensures
            text@ == empty_message(self@),
    {
        if let Some(error) = &self.scan_error {
            join3("Unable to scan filesystem.\n\n", error.as_str(), "\n\nPress r to retry.")
        } else if self.loading {
            "Scanning filesystem…".to_owned()
        } else if self.tab == Tab::Changes && self.changes_mode == ChangesMode::Git {
            if let Some(error) = &self.git_error {
                let mut text = "Git diff unavailable.\n\n".to_owned();
                text.append(error.as_str());
                text
            } else if self.git_state != GitState::Loaded {
                "Reading Git status…".to_owned()
            } else {
                "No uncommitted Git changes.".to_owned()
            }
        } else if self.capturing && self.tab == Tab::Changes {
            "Capturing baseline…\n\nChanges will become available when capture completes.\nFiles remains available.".to_owned()
        } else if self.manifest.is_none() && self.tab == Tab::Changes {
            "No baseline exists.\n\nRestart this agent to capture changes from session start.\nFiles remains available.".to_owned()
        } else if self.tab == Tab::Changes {
            "No filesystem changes since this session began.".to_owned()
        } else {
            "No readable files.".to_owned()
        }
    }

    fn draw_content(&self, area: Rect) -> (elements: Vec<Element>)
        requires
            area.fits(),
        ensures
            views(elements@) == content_scene(self@, area),
    {
        broadcast use group_views;

        let selected = self.actual_selected();
        let inner = bordered_inner(area);
        let mut elements: Vec<Element> = Vec::new();
        elements.push(
            Element { area, widget: Widget::Panel { title: self.content_heading(selected) } },
        );
        let ghost first = views(elements@);
        proof {
            assert(first =~= seq![
                element(area, WidgetView::Panel { title: content_title(self@) }),
            ]);
        }
        match selected {
            None => {
                elements.push(
                    text_element(inner, self.missing_content(), panel_style(), true),
                );
                proof {
                    assert(views(elements@) =~= content_scene(self@, area));
                }
            },
            Some(index) => {
                let mut shown = match self.tab {
                    Tab::Changes => self.draw_diff(inner, index),
                    Tab::Files => self.draw_source(inner, index),
                };
                let ghost added = views(shown@);
                elements.append(&mut shown);
                proof {
                    assert(views(elements@) =~= first + added);
                }
            },
        }
        elements
    }

    fn status_line(&self) -> (text: String)
        ensures
            text@ == status_text(self@),
    {
        if self.mode == Mode::Filter {
            join3("filter: ", self.active_state().filter.as_str(), "_")
        } else if self.loading {
            "Refreshing…".to_owned()
        } else if let Some(error) = &self.scan_error {
            join3("Refresh failed: ", error.as_str(), "  r retry  ? help  q close")
        } else if self.notices.len() > 0 {
            let mut text = decimal_text(self.notices.len() as u64);
            text.append(" notice(s): ");
            text.append(self.notices[0].as_str());
            text.append(
                "  click/wheel/drag scrollbar  Tab focus  r refresh  ? help  q close",
            );
            proof {
                assert(self@.notices[0] == self.notices@[0]@);
            }
            text
        } else {
            "g: Git diff / Agent  click folders  drag scrollbars  Tab focus  / filter  ? help  q close".to_owned()
        }
    }

    /// Scrolls a source back to its end where it stands behind it.
    pub fn clamp_source_scroll(&mut self, content: Option<Rect>)
        requires
            content matches Some(area) ==> area.fits(),
        ensures
            final(self)@ == source_scroll_clamped(old(self)@, content),
    {
        if self.tab != Tab::Files {
            return;
        }
        let area = match content {
            None => {
                return;
            },
            Some(area) => area,
        };
        let inner = bordered_inner(area);
        let selected = match self.actual_selected() {
            None => {
                self.files_state.scroll_y = 0;
                self.files_state.scroll_x = 0;
                return;
            },
            Some(selected) => selected,
        };
        let (rows, width) = match self.source_cache.get(&selected) {
            None => {
                return;
            },
            Some(lines) => source_content_dimensions(lines),
        };
        let (part, _) = content_areas(inner);
        let most_y = rows.saturating_sub(part.height as usize);
        let most_x = width.saturating_sub(part.width as usize);
        if self.files_state.scroll_y > most_y {
            self.files_state.scroll_y = most_y;
        }
        if self.files_state.scroll_x > most_x {
            self.files_state.scroll_x = most_x;
        }
    }

    fn draw_cursor(&self, content: Option<Rect>) -> (cursor: Option<(u16, u16)>)
        requires
            content matches Some(area) ==> area.fits(),
        ensures
            cursor == drawn_cursor(self@, content),
    {
        if self.mode == Mode::Help || self.focus != Focus::Content || self.tab == Tab::Changes {
            return None;
        }
        if self.now_millis.saturating_sub(self.cursor_blink_started) % 1000 >= 600 {
            return None;
        }
        let area = match content {
            None => {
                return None;
            },
            Some(area) => area,
        };
        let (part, _) = content_areas(bordered_inner(area));
        let cursor = match self.cursor {
            None => {
                return None;
            },
            Some(cursor) => cursor,
        };
        let state = self.active_state();
        if part.is_empty() || cursor.tab != self.tab || cursor.line < state.scroll_y
            || cursor.column < state.scroll_x {
            return None;
        }
        let line = cursor.line - state.scroll_y;
        let column = cursor.column - state.scroll_x;
        if line >= part.height as usize || column >= part.width as usize {
            return None;
        }
        Some((part.x.saturating_add(column as u16), part.y.saturating_add(line as u16)))
    }

    fn draw_body(&self, layout: UiLayout) -> (elements: Vec<Element>)
        requires
            layout_fits(layout),
        ensures
            views(elements@) == body_scene(self@, layout),
    {
        broadcast use group_views;

        let mut elements: Vec<Element> = Vec::new();
        proof {
            assert(views(elements@) =~= Seq::empty());
        }
        if self.mode == Mode::Help {
            elements.push(Element { area: layout.body, widget: Widget::Help });
            proof {
                assert(views(elements@) =~= body_scene(self@, layout));
            }
            return elements;
        }
        if let Some(area) = layout.navigation {
            elements = self.draw_navigation(area);
        }
        let ghost side = views(elements@);
        proof {
            assert(side =~= match layout.navigation {
                Some(area) => sidebar_scene(self@, area),
                None => Seq::empty(),
            });
        }
        if let Some(area) = layout.content {
            let mut shown = self.draw_content(area);
            let ghost added = views(shown@);
            elements.append(&mut shown);
            proof {
                assert(views(elements@) =~= side + added);
            }
        } else {
            proof {
                assert(side + Seq::<ElementView>::empty() =~= side);
            }
        }
        elements
    }

    /// What is drawn on a screen that is laid out as given.
    pub fn draw_at(&mut self, area: Rect, layout: UiLayout) -> (scene: Scene)
        requires
            layout_fits(layout),
        ensures
            final(self)@ == after_draw(old(self)@, area, layout),
            scene@ == whole_scene(final(self)@, layout),
    {
        broadcast use group_views;

        self.viewport = area;
        self.clamp_source_scroll(layout.content);
        let mut elements: Vec<Element> = Vec::new();
        let selected = if self.tab == Tab::Files {
            1
        } else {
            0
        };
        elements.push(Element { area: layout.tabs, widget: Widget::Tabs { selected } });
        let ghost first = views(elements@);
        let mut body = self.draw_body(layout);
        let ghost middle = views(body@);
        elements.append(&mut body);
        proof {
            assert(views(elements@) =~= first + middle);
        }
        elements.push(
            text_element(layout.status, self.status_line(), plain().fg(Color::DarkGray), false),
        );
        let cursor = self.draw_cursor(layout.content);
        proof {
            assert(views(elements@) =~= whole_scene(self@, layout).elements);
        }
        Scene { elements, cursor }
    }

    /// What is drawn on a screen.
    pub fn draw(&mut self, area: Rect) -> (scene: Scene)
        requires
            area.fits(),
        ensures
            exists|layout: UiLayout| #[trigger]
                layout_for(old(self)@, area, layout) && final(self)@ == after_draw(
                    old(self)@,
                    area,
                    layout,
                ) && scene@ == whole_scene(final(self)@, layout),
    {
        let layout = self.ui_layout(area);
        self.draw_at(area, layout)
    }
}

/// The sidebar has a scrollbar where it has more rows than it can show, and only
/// there; and one that can be dragged is drawn where it is dragged.
pub proof fn law_the_sidebar_scrolls_what_it_cannot_show(app: AppView, area: Rect)
    ensures
        ({
            let scene = sidebar_scene(app, area);
            let exceeds = sidebar_rows(app).len() > inside_border(area).height;
            &&& exceeds ==> scene.len() == 2 && scene[1].area == sidebar_edge(area)
                && scene[1].widget is Scrollbar
            &&& !exceeds ==> scene == seq![sidebar_list(app, area)]
            &&& sidebar_bar(app, area) is Some <==> exceeds && inside_border(area).height > 2
                && area.width > 0
        }),
{
    if sidebar_rows(app).len() <= inside_border(area).height {
        assert(sidebar_scene(app, area) =~= seq![sidebar_list(app, area)]);
    }
}

proof fn lemma_source_spans(
    spans: Seq<ColoredView>,
    column: int,
    selection: Option<(usize, usize)>,
)
    ensures
        span_text(source_spans(spans, column, selection)) == line_chars(spans),
        lit_chars(source_spans(spans, column, selection)) == Seq::new(
            line_chars(spans).len(),
            |i: int|
                is_selected(
                    column_from(line_chars(spans), column, i),
                    line_chars(spans)[i],
                    selection,
                ),
        ),
    decreases spans.len(),
{
    let all = source_spans(spans, column, selection);
    let chars = line_chars(spans);
    let wanted = Seq::new(
        chars.len(),
        |i: int| is_selected(column_from(chars, column, i), chars[i], selection),
    );
    if spans.len() == 0 {
        assert(span_text(all) =~= chars);
        assert(lit_chars(all) =~= wanted);
    } else {
        let first = spans[0];
        let rest = spans.skip(1);
        let next = end_column(first.text, column);
        let own = span_segments(first, column, selection);
        let tail = source_spans(rest, next, selection);
        lemma_line_chars_first(spans);
        lemma_source_spans(rest, next, selection);
        law_selecting_keeps_the_text(first, column, selection);
        law_selected_columns_are_lit(first, column, selection);
        lemma_spans_apart(own, tail);
        let a = first.text;
        let b = line_chars(rest);
        assert forall|i: int| 0 <= i < chars.len() implies #[trigger] wanted[i] == (lit_chars(own)
            + lit_chars(tail))[i] by {
            if i < a.len() {
                lemma_same_columns(chars, a, column, i);
            } else {
                lemma_column_behind_first(a, b, column, i - a.len());
            }
        }
        assert(lit_chars(all) =~= wanted);
    }
}

proof fn lemma_spans_apart(a: Seq<SpanView>, b: Seq<SpanView>)
    ensures
        span_text(a + b) == span_text(a) + span_text(b),
        lit_chars(a + b) == lit_chars(a) + lit_chars(b),
    decreases a.len(),
{
    if a.len() == 0 {
        assert(a + b =~= b);
        assert(span_text(a) + span_text(b) =~= span_text(b));
        assert(lit_chars(a) + lit_chars(b) =~= lit_chars(b));
    } else {
        lemma_spans_apart(a.skip(1), b);
        assert((a + b).skip(1) =~= a.skip(1) + b);
        assert(span_text(a + b) =~= span_text(a) + span_text(b));
        assert(lit_chars(a + b) =~= lit_chars(a) + lit_chars(b));
    }
}

/// A line of source is drawn as its number, set right under the widest, a rule, and
/// all of its text; of its text those characters are lit that lie in the selected
/// columns, and what stands before it is not.
pub proof fn law_source_lines_are_drawn_whole(app: AppView, lines: SourceLines, line: int)
    requires
        0 <= line < lines.len(),
    ensures
        ({
            let spans = source_line(app, lines, line).spans;
            let chars = line_chars(lines[line]);
            let width = decimal(lines.len()).len();
            let number = spans[0].text;
            &&& number == right_aligned(decimal((line + 1) as nat), width) + " │ "@
            &&& spans[0].style.background is None
            &&& span_text(spans.skip(1)) == chars
            &&& lit_chars(spans.skip(1)) == Seq::new(
                chars.len(),
                |i: int|
                    is_selected(
                        column_from(chars, plus(width as int, 3), i),
                        chars[i],
                        selected_columns(app, line),
                    ),
            )
        }),
{
    let width = digit_count(lines.len());
    let spans = source_line(app, lines, line).spans;
    let own = source_spans(lines[line], plus(width as int, 3), selected_columns(app, line));
    assert(spans.skip(1) =~= own);
    lemma_source_spans(lines[line], plus(width as int, 3), selected_columns(app, line));
}

/// A diff is drawn line for line: below its heading a row for every line, as many as
/// the panel is scrolled by.
pub proof fn law_diffs_are_drawn_line_for_line(shown: ShownDiff, panel_width: int)
    requires
        shown.lines is Some,
        shown.lines->0.len() + 3 <= usize::MAX,
    ensures
        ({
            let all = shown.lines->0;
            let drawn = diff_lines(shown, panel_width);
            let above = if shown.old_path is Some {
                3int
            } else {
                2
            };
            &&& drawn.len() == above + all.len()
            &&& diff_size(shown.kind, shown.path, shown.old_path, shown.lines).0 == drawn.len()
            &&& drawn[0].spans[1].text == lossy(shown.path)
            &&& shown.old_path matches Some(old) ==> drawn[1].spans[1].text == lossy(old)
            &&& drawn[0].spans[2].text == "    +"@ + decimal(
                all.filter(|line: DiffLineView| line.kind == DiffLineKind::Addition).len(),
            ) + " -"@ + decimal(
                all.filter(|line: DiffLineView| line.kind == DiffLineKind::Deletion).len(),
            )
            &&& forall|i: int|
                0 <= i < all.len() ==> #[trigger] drawn[above + i] == diff_row(
                    all[i],
                    number_cells(shown.lines),
                    diff_width(shown, panel_width),
                )
        }),
{
    law_counts_are_of_lines(shown.lines->0);
}

/// The counts of a file end where its row ends: with what stands before the name,
/// the name and the space after it they take up the row, unless these leave no room
/// for a space.
pub proof fn law_counts_stand_at_the_right(
    app: AppView,
    index: int,
    label: Seq<char>,
    depth: int,
    row_width: int,
    selected: bool,
)
    ensures
        ({
            let spans = row_line(
                app,
                RowView::File { index, label, depth },
                row_width,
                selected,
            ).spans;
            let stats = item_stats(app, index);
            let taken = text_cells(spans[0].text) + text_cells(spans[1].text) + stats_cells(stats);
            &&& spans[0].text == row_prefix(app, index, depth, selected).0
            &&& spans[2].text == spaces(spans[2].text.len())
            &&& spans.skip(3) == stats_spans(stats)
            &&& taken < row_width ==> taken + spans[2].text.len() == row_width
            &&& taken >= row_width ==> spans[2].text.len() == 1
        }),
{
    let spans = row_line(app, RowView::File { index, label, depth }, row_width, selected).spans;
    assert(spans.skip(3) =~= stats_spans(item_stats(app, index)));
}

/// A source is never drawn past its end: once it has been drawn it is scrolled no
/// further than to show its last line at the bottom and its widest at the right,
/// and drawing it again moves nothing.
pub proof fn law_drawing_keeps_the_source_in_sight(app: AppView, area: Rect, layout: UiLayout)
    requires
        app.tab == Tab::Files,
        app.files_state.scroll_y >= 0,
        app.files_state.scroll_x >= 0,
    ensures
        ({
            let drawn = after_draw(app, area, layout);
            &&& after_draw(drawn, area, layout) == drawn
            &&& drawn.selected_item() == app.selected_item()
            &&& (layout.content is Some && app.selected_item() is Some) ==> (cached(
                app.source_cache,
                app.selected_item()->0 as usize,
            ) matches Some(lines) ==> {
                let part = content_part(inside_border(layout.content->0));
                let width = widest(source_views(lines@), lines@.len() as int);
                &&& drawn.files_state.scroll_y <= minus(lines@.len() as int, part.height as int)
                &&& drawn.files_state.scroll_x <= minus(width, part.width as int)
            })
        }),
{
    let drawn = after_draw(app, area, layout);
    assert(drawn.filtered() == app.filtered());
}

/// The cursor is drawn in the cell that it was put in: whatever place of the text a cell
/// gives, the cursor at that place stands in that row, and in that column but for a cell
/// right of the end of its line. It is seen for the first six tenths of every second.
pub proof fn law_the_cursor_is_drawn_where_it_was_put(
    app: AppView,
    area: Rect,
    column: u16,
    row: u16,
    cursor: EditorCursor,
)
    requires
        area.fits(),
        app.mode != Mode::Help,
        app.focus == Focus::Content,
        app.tab == Tab::Files,
        app.cursor_blink_started <= app.now_millis,
        content_part(inside_border(area)).holds(column, row),
        cursor_at(app, area, column, row) == Some(cursor),
        0 <= app.files_state.scroll_y,
        0 <= app.files_state.scroll_x,
        app.files_state.scroll_y + row <= usize::MAX,
        app.files_state.scroll_x + column <= usize::MAX,
    ensures
        ({
            let content = content_part(inside_border(area));
            let placed = AppView { cursor: Some(cursor), ..app };
            let seen = (app.now_millis - app.cursor_blink_started) % 1000 < 600;
            let drawn = drawn_cursor(placed, Some(area));
            let at = app.files_state.scroll_x + column - content.x;
            &&& seen && cursor.column == at ==> drawn == Some((column, row))
            &&& seen && cursor.column < at && cursor.column >= app.files_state.scroll_x
                ==> (drawn matches Some((x, y)) && y == row && x < column)
            &&& !seen ==> drawn is None
        }),
{
}

proof fn lemma_row_of_item(rows: Seq<RowView>, index: int)
    ensures
        ({
            let k = row_of_item(rows, index);
            &&& 0 <= k <= rows.len()
            &&& k < rows.len() ==> (rows[k] matches RowView::File { index: at, .. } && at
                == index)
            &&& forall|i: int|
                0 <= i < k ==> !(#[trigger] rows[i] matches RowView::File { index: at, .. } && at
                    == index)
        }),
    decreases rows.len(),
{
    if rows.len() > 0 && !(rows[0] matches RowView::File { index: at, .. } && at == index) {
        let rest = rows.skip(1);
        lemma_row_of_item(rest, index);
        let k = row_of_item(rows, index);
        assert forall|i: int| 0 <= i < k implies !(#[trigger] rows[i] matches RowView::File {
            index: at,
            ..
        } && at == index) by {
            if i > 0 {
                assert(rest[i - 1] == rows[i]);
            }
        }
        if k < rows.len() {
            assert(rest[k - 1] == rows[k]);
        }
    }
}

proof fn lemma_row_of_folder(rows: Seq<RowView>, folder: Seq<u8>)
    ensures
        ({
            let k = row_of_folder(rows, folder);
            &&& 0 <= k <= rows.len()
            &&& k < rows.len() ==> (rows[k] matches RowView::Group { path, .. } && components(path)
                == components(folder))
        }),
    decreases rows.len(),
{
    if rows.len() > 0 && !(rows[0] matches RowView::Group { path, .. } && components(path)
        == components(folder)) {
        lemma_row_of_folder(rows.skip(1), folder);
        let k = row_of_folder(rows, folder);
        if k < rows.len() {
            assert(rows.skip(1)[k - 1] == rows[k]);
        }
    }
}

/// The row that is lit is the one that the cursor stands on: where that is a folder the
/// row of the folder, and else the row of the selected item; it is lit if and only if it
/// is among the rows that are seen.
pub proof fn law_the_lit_row_is_the_selected_one(app: AppView, area: Rect)
    requires
        0 <= app.active().list_scroll_y,
        sidebar_rows(app).len() + inside_border(area).height <= usize::MAX,
    ensures
        ({
            let rows = sidebar_rows(app);
            let lit = selected_row(app);
            &&& lit matches Some(k) ==> 0 <= k < rows.len() && match cursor_folder(app) {
                Some(folder) => rows[k] matches RowView::Group { path, .. } && components(path)
                    == components(folder),
                None => rows[k] matches RowView::File { index, .. } && app.selected_item() == Some(
                    index,
                ),
            }
            &&& cursor_folder(app) is None && lit is None ==> forall|k: int|
                0 <= k < rows.len() ==> !(#[trigger] rows[k] matches RowView::File { index, .. }
                    && app.selected_item() == Some(index))
            &&& sidebar_list(app, area).widget matches WidgetView::List {
                items,
                offset,
                selected,
                ..
            }
            &&& items.len() == rows.len()
            &&& selected is Some ==> selected == lit
            &&& lit matches Some(k) ==> (selected is Some <==> offset <= k < offset
                + inside_border(area).height)
        }),
{
    let rows = sidebar_rows(app);
    if let Some(folder) = cursor_folder(app) {
        lemma_row_of_folder(rows, folder);
    } else if let Some(selected) = app.selected_item() {
        lemma_row_of_item(rows, selected);
    }
}

/// A row of the sidebar shows what it stands for: a folder by its name, behind a mark that
/// tells whether it is closed, and a file by its name, or the beginning of it, set in by
/// two cells for every folder that it stands under and behind the letter of its change.
pub proof fn law_rows_show_what_they_stand_for(
    app: AppView,
    path: Seq<u8>,
    index: int,
    label: Seq<char>,
    depth: int,
    row_width: int,
    selected: bool,
)
    requires
        0 <= depth,
        depth + depth <= usize::MAX,
    ensures
        ({
            let folder = row_line(app, RowView::Group { path, label }, row_width, selected).spans;
            let closed = app.collapsed_groups.contains((app.tab, components(path)));
            &&& folder.len() == 3
            &&& folder[2].text == label
            &&& folder[1].text == "▸ "@ <==> closed
            &&& folder[1].text == "▾ "@ <==> !closed
        }),
        ({
            let file = row_line(
                app,
                RowView::File { index, label, depth },
                row_width,
                selected,
            ).spans;
            let before = file[0].text;
            let inset = Seq::new((2 + 2 * depth) as nat, |i: int| ' ');
            &&& !selected && app.tab == Tab::Files ==> before == inset
            &&& !selected && app.tab == Tab::Changes ==> before == inset + symbol_of(
                match app.changes_mode {
                    ChangesMode::Agent => app.changes[index].kind,
                    ChangesMode::Git => app.git_changes[index].kind,
                },
            ).0 + " "@
            &&& text_cells(before) + char_total(label) + stats_cells(item_stats(app, index)) + 1
                <= row_width ==> file[1].text == label
            &&& item_stats(app, index) is None ==> file.len() == 3
        }),
{
    reveal_strlit("▸ ");
    reveal_strlit("▾ ");
    reveal_strlit("  ");
    assert("▸ "@[0] == '▸');
    assert("▾ "@[0] == '▾');
    let indented = row_gutter(false) + spaces((depth + depth) as nat);
    assert(indented =~= Seq::new((2 + 2 * depth) as nat, |i: int| ' '));
}

/// The line at the bottom tells of what is going on: of the filter while it is typed, of a
/// scan under way, of one that failed and why, and of what was noticed.
pub proof fn law_the_status_tells_what_goes_on(app: AppView)
    ensures
        ({
            let text = status_text(app);
            &&& app.mode == Mode::Filter ==> text == "filter: "@ + app.active().filter + "_"@
            &&& app.mode != Mode::Filter && app.loading ==> text == "Refreshing…"@
            &&& app.mode != Mode::Filter && !app.loading && app.scan_error is Some ==> text
                == "Refresh failed: "@ + app.scan_error->0 + "  r retry  ? help  q close"@
            &&& app.mode != Mode::Filter && !app.loading && app.scan_error is None
                && app.notices.len() > 0 ==> text == decimal(app.notices.len()) + " notice(s): "@
                + app.notices[0]
                + "  click/wheel/drag scrollbar  Tab focus  r refresh  ? help  q close"@
        }),
{
}

/// Where nothing is selected the content says why: that scanning failed, and how, that it
/// goes on, that Git could not be asked, and why, or is being asked, that a baseline is
/// captured or that there is none, and else that there is nothing to show.
pub proof fn law_an_empty_content_says_why(app: AppView)
    ensures
        ({
            let text = empty_message(app);
            let changes = app.tab == Tab::Changes;
            let agent = changes && app.changes_mode == ChangesMode::Agent;
            let git = changes && app.changes_mode == ChangesMode::Git;
            let ready = app.scan_error is None && !app.loading;
            &&& app.scan_error is Some ==> text == "Unable to scan filesystem.\n\n"@
                + app.scan_error->0 + "\n\nPress r to retry."@
            &&& app.scan_error is None && app.loading ==> text == "Scanning filesystem…"@
            &&& ready && git && app.git_error is Some ==> text == "Git diff unavailable.\n\n"@
                + app.git_error->0
            &&& ready && git && app.git_error is None && app.git_state != GitState::Loaded ==> text
                == "Reading Git status…"@
            &&& ready && git && app.git_error is None && app.git_state == GitState::Loaded ==> text
                == "No uncommitted Git changes."@
            &&& ready && agent && app.capturing ==> text
                == "Capturing baseline…\n\nChanges will become available when capture completes.\nFiles remains available."@
            &&& ready && agent && !app.capturing && app.manifest is None ==> text
                == "No baseline exists.\n\nRestart this agent to capture changes from session start.\nFiles remains available."@
            &&& ready && agent && !app.capturing && app.manifest is Some ==> text
                == "No filesystem changes since this session began."@
            &&& ready && !changes ==> text == "No readable files."@
        }),
{
}

/// The screen shows the titles above, with that of the tab lit, the status below, and
/// between them the help, or the sidebar and the content as far as there is room for
/// them; the content is that of the selected item.
pub proof fn law_the_screen_shows_the_selected_item(app: AppView, layout: UiLayout)
    ensures
        ({
            let scene = whole_scene(app, layout).elements;
            let last = scene.len() - 1;
            &&& scene[0].area == layout.tabs
            &&& scene[0].widget == (WidgetView::Tabs {
                selected: match app.tab {
                    Tab::Changes => 0,
                    Tab::Files => 1,
                },
            })
            &&& scene[last].area == layout.status
            &&& scene[last].widget matches WidgetView::Text { text, .. } && text == status_text(
                app,
            )
            &&& app.mode == Mode::Help ==> scene.len() == 3 && scene[1].area == layout.body
                && scene[1].widget == WidgetView::Help
            &&& app.mode != Mode::Help && layout.navigation is Some ==> scene[1] == sidebar_list(
                app,
                layout.navigation->0,
            )
            &&& app.mode != Mode::Help && layout.navigation is None && layout.content is Some ==> {
                let area = layout.content->0;
                let inner = inside_border(area);
                &&& scene[1] == element(area, WidgetView::Panel { title: content_title(app) })
                &&& app.selected_item() is None ==> scene[2].area == inner && (
                scene[2].widget matches WidgetView::Text { text, .. } && text == empty_message(
                    app,
                ))
                &&& app.tab == Tab::Files && app.selected_item() is Some && cached(
                    app.source_notices,
                    app.selected_item()->0 as usize,
                ) is None ==> (cached(
                    app.source_cache,
                    app.selected_item()->0 as usize,
                ) matches Some(lines) ==> scene[2].area == content_part(inner) && (
                scene[2].widget matches WidgetView::Lines { lines: drawn, .. } && drawn
                    == source_lines(app, source_views(lines@))))
                &&& app.tab == Tab::Changes && app.selected_item() is Some ==> (shown_diff(
                    app,
                    app.selected_item()->0,
                ) matches Some(shown) ==> scene[2].area == content_part(inner) && (
                scene[2].widget matches WidgetView::Lines { lines: drawn, .. } && drawn
                    == diff_lines(shown, content_part(inner).width as int)))
            }
        }),
{
    let body = body_scene(app, layout);
    let scene = whole_scene(app, layout).elements;
    assert forall|k: int| 0 <= k < body.len() implies scene[k + 1] == #[trigger] body[k] by {}
    if app.mode != Mode::Help {
        if let Some(area) = layout.navigation {
            assert(body[0] == sidebar_list(app, area));
        } else if let Some(area) = layout.content {
            assert(body =~= content_scene(app, area));
            assert(body[0] == element(area, WidgetView::Panel { title: content_title(app) }));
            assert(body.len() > 1);
            assert(scene[2] == body[1]);
        }
    } else {
        assert(body[0] == element(layout.body, WidgetView::Help));
    }
}

/// A panel shows its lines from the one that it is scrolled to, never so far that it shows
/// less than it could; it has a scrollbar at its side where there are more lines than rows
/// and one below where a line is wider than the panel.
pub proof fn law_panels_are_scrolled_as_far_as_there_is_more(
    inner: Rect,
    lines: Seq<TextLineView>,
    width: int,
    style: TextStyle,
    state: TabView,
    thumb: Color,
    track: Color,
)
    requires
        inner.fits(),
        0 <= width,
        0 <= state.scroll_y,
        0 <= state.scroll_x,
    ensures
        ({
            let content = content_part(inner);
            let scene = scrolled_panel(inner, lines, width, style, state, thumb, track);
            let more_below = lines.len() > content.height;
            let more_beside = width > content.width;
            &&& scene[0].area == content
            &&& scene[0].widget matches WidgetView::Lines {
                lines: drawn,
                scroll_y,
                scroll_x,
                style: used,
            }
            &&& drawn == lines
            &&& used == style
            &&& 0 <= scroll_y <= state.scroll_y
            &&& 0 <= scroll_x <= state.scroll_x
            &&& !more_below ==> scroll_y == 0
            &&& !more_beside ==> scroll_x == 0
            &&& more_below ==> scroll_y + content.height <= lines.len()
            &&& more_beside ==> scroll_x + content.width <= width
            &&& state.scroll_y + content.height <= lines.len() && state.scroll_y <= u16::MAX
                ==> scroll_y == state.scroll_y
            &&& state.scroll_x + content.width <= width && state.scroll_x <= u16::MAX ==> scroll_x
                == state.scroll_x
            &&& scene.len() == 1 + (if more_below {
                1int
            } else {
                0
            }) + (if more_beside {
                1int
            } else {
                0
            })
            &&& more_below ==> scene[1].area == content && scene[1].widget is Scrollbar
                && scene[1].widget->axis == Axis::Vertical
            &&& more_beside ==> scene.last().area == scrollbar_part(inner)
                && scene.last().widget is Scrollbar && scene.last().widget->axis
                == Axis::Horizontal
        }),
{
}

/// A click meets the row that is drawn under it: the rows are drawn from the offset of the
/// list on, one in each line inside the border, and nothing is met outside or below them.
pub proof fn law_rows_are_met_where_they_are_drawn(
    app: AppView,
    area: Rect,
    column: u16,
    row: u16,
)
    requires
        area.fits(),
        area.width >= 3,
        0 <= app.active().list_scroll_y,
        sidebar_rows(app).len() + u16::MAX <= usize::MAX,
    ensures
        ({
            let inner = inside_border(area);
            let rows = sidebar_rows(app);
            &&& sidebar_list(app, area).widget matches WidgetView::List { items, offset, .. }
            &&& ({
                let k = offset + (row - inner.y);
                let inside = area.holds(column, row) && inner.y <= row < inner.y + inner.height;
                &&& inside && k < rows.len() ==> row_at(app, area, column, row) == Some(rows[k])
                    && items[k] == row_line(
                    app,
                    rows[k],
                    inner.width as int,
                    selected_row(app) == Some(k),
                )
                &&& !inside || k >= rows.len() ==> row_at(app, area, column, row) is None
            })
            &&& 0 <= offset
            &&& rows.len() <= inner.height ==> offset == 0
            &&& rows.len() > inner.height ==> offset + inner.height <= rows.len()
        }),
{
}

/// What can be scrolled by its scrollbars is what is drawn: as many rows as there are
/// lines, and as many columns as the panel was drawn for.
pub proof fn law_scrollbars_are_of_what_is_drawn(app: AppView, inner: Rect, selected: int)
    requires
        content_size(app, selected) is Some,
        shown_diff(app, selected) matches Some(shown) ==> shown.lines matches Some(lines)
            ==> lines.len() + 3 <= usize::MAX,
    ensures
        ({
            let scene = match app.tab {
                Tab::Changes => diff_scene(app, inner, selected),
                Tab::Files => source_scene(app, inner, selected),
            };
            let (rows, columns) = content_size(app, selected)->0;
            let content = content_part(inner);
            &&& scene[0].area == content
            &&& scene[0].widget matches WidgetView::Lines { lines, .. } && lines.len() == rows
            &&& app.tab == Tab::Files && columns > content.width ==> {
                let bar = scene.last();
                &&& bar.area == scrollbar_part(inner)
                &&& bar.widget matches WidgetView::Scrollbar { content_length, .. }
                    && content_length == columns
            }
            &&& rows > content.height ==> (scene[1].widget matches WidgetView::Scrollbar {
                content_length,
                ..
            } && content_length == rows)
        }),
{
}

/// A title is met where it is drawn: it takes up its letters and a space on either side.
pub proof fn law_titles_are_as_wide_as_they_are_drawn()
    ensures
        CHANGES_TITLE@.len() + 2 == CHANGES_TITLE_WIDTH,
        FILES_TITLE@.len() + 2 == FILES_TITLE_WIDTH,
{
    reveal_strlit("1 Changes");
    reveal_strlit("2 Files");
}

/// The sidebar is titled by its filter, where there is one, else by what it lists and how
/// many of it; the content by what is shown and the path that it is of.
pub proof fn law_titles_tell_what_is_shown(app: AppView)
    ensures
        ({
            let title = sidebar_title(app);
            let what = match app.changes_mode {
                ChangesMode::Agent => "Agent diff"@,
                ChangesMode::Git => "Git diff"@,
            };
            let filter = app.active().filter;
            &&& filter.len() > 0 ==> title == " /"@ + filter + " "@
            &&& filter.len() == 0 && app.tab == Tab::Files ==> title == " Files "@
            &&& filter.len() == 0 && app.tab == Tab::Changes ==> title == " "@ + what + " · "@
                + decimal(app.filtered().len()) + " files "@
            &&& app.tab == Tab::Files ==> content_title(app) == " Read only "@
            &&& app.tab == Tab::Changes && app.selected_item() is None ==> content_title(app)
                == " "@ + what + " "@
            &&& app.tab == Tab::Changes && app.selected_item() is Some ==> content_title(app)
                == " "@ + what + " — "@ + lossy(
                match app.changes_mode {
                    ChangesMode::Agent => app.changes[app.selected_item()->0].path,
                    ChangesMode::Git => app.git_changes[app.selected_item()->0].path,
                },
            ) + " "@
        }),
{
}

} // verus!
