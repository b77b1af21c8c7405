//! The layout of the screen, and the cursor and the selection in a source.
use vstd::prelude::*;

use crate::app::{App, AppView, EditorCursor, EditorSelection, Focus, Mode};
use crate::cache::cached;
use crate::layout::{
    beside_sidebar, body_columns, bordered_inner, content_areas, content_part, inside_border,
    minus, screen_rows, sidebar_part, spec_max, spec_min, three_bands, Rect, UiLayout,
};
use crate::seqs::{option_view, views};
use crate::sets::Tab;
use crate::source::{
    column_behind, column_of, is_selected, is_width_at, law_columns_hold_a_stretch,
    law_line_ends_behind_its_characters,    law_width_is_of_the_character_there, lemma_column_is_some, lemma_some_width, lies_at, line_chars, line_width,
    picked, source_char_width_at, source_text_range, source_text_width, source_views, width_at,
    ColoredSpan, SourceLines,
};
use crate::text::{decimal, decimal_width, digit_count};
use crate::width::{cells, plus};

verus! {

/// Width below which the sidebar and the content are not shown together.
pub const NARROW_WIDTH: u16 = 56;

/// The sidebar and the content on the screen, as far as they are shown.
pub open spec fn panes(app: AppView, area: Rect, body: Rect) -> (Option<Rect>, Option<Rect>) {
    if app.mode == Mode::Help {
        (None, None)
    } else if app.sidebar_hidden {
        (None, Some(body))
    } else if area.width < NARROW_WIDTH {
        match app.focus {
            Focus::Navigation => (Some(body), None),
            Focus::Content => (None, Some(body)),
        }
    } else {
        (Some(sidebar_part(body)), Some(beside_sidebar(body)))
    }
}

/// Whether the parts are those of the screen.
pub open spec fn layout_for(app: AppView, area: Rect, layout: UiLayout) -> bool {
    &&& three_bands(area, 1, 2, 1, seq![layout.tabs, layout.body, layout.status])
    &&& (layout.navigation, layout.content) == panes(app, area, layout.body)
    &&& layout_fits(layout)
}

pub open spec fn layout_fits(layout: UiLayout) -> bool {
    &&& layout.tabs.fits()
    &&& layout.body.fits()
    &&& layout.status.fits()
    &&& layout.navigation matches Some(area) ==> area.fits()
    &&& layout.content matches Some(area) ==> area.fits()
}

/// The source that is shown, where it has been read.
pub open spec fn shown_lines(app: AppView) -> Option<SourceLines> {
    match app.selected_item() {
        Some(selected) => match cached(app.source_cache, selected as usize) {
            Some(lines) => Some(source_views(lines@)),
            None => None,
        },
        None => None,
    }
}

/// The column at which code begins, behind the line numbers.
pub open spec fn code_start(lines: SourceLines) -> int {
    plus(digit_count(lines.len()) as int, 3)
}

/// A number kept between two others.
pub open spec fn between(value: int, low: int, high: int) -> int {
    spec_max(low, spec_min(value, high))
}

/// The place in the text under a cell of the panel: in the line there, at most
/// just behind its end, and nowhere left of the code.
pub open spec fn cursor_at(app: AppView, area: Rect, column: u16, row: u16) -> Option<
    EditorCursor,
> {
    let content = content_part(inside_border(area));
    if content.empty() {
        None
    } else {
        match shown_lines(app) {
            None => None,
            Some(lines) => {
                let y = between(row as int, content.y as int, content.spec_bottom() - 1);
                let line = plus(y - content.y, app.files_state.scroll_y);
                let x = between(column as int, content.x as int, content.spec_right() - 1);
                let visual = plus(x - content.x, app.files_state.scroll_x);
                if line >= lines.len() || visual < code_start(lines) {
                    None
                } else {
                    let end = plus(code_start(lines), line_width(lines[line]));
                    Some(
                        EditorCursor {
                            tab: app.tab,
                            line: line as usize,
                            column: spec_min(visual, end) as usize,
                        },
                    )
                }
            },
        }
    }
}

/// The viewer with the selection begun at a cell.
pub open spec fn selection_begun(app: AppView, area: Rect, column: u16, row: u16) -> AppView {
    match cursor_at(app, area, column, row) {
        Some(cursor) => AppView {
            cursor: Some(cursor),
            cursor_blink_started: app.now_millis,
            selection: Some(EditorSelection { tab: app.tab, anchor: cursor, active: cursor }),
            ..app
        },
        None => AppView { cursor: None, selection: None, ..app },
    }
}

/// The viewer with the selection extended to a cell.
pub open spec fn selection_extended(app: AppView, area: Rect, column: u16, row: u16) -> AppView {
    match cursor_at(app, area, column, row) {
        Some(cursor) => AppView {
            cursor: Some(cursor),
            cursor_blink_started: app.now_millis,
            selection: match app.selection {
                Some(selection) if selection.tab == app.tab => Some(
                    EditorSelection { active: cursor, ..selection },
                ),
                _ => Some(EditorSelection { tab: app.tab, anchor: cursor, active: cursor }),
            },
            ..app
        },
        None => app,
    }
}

pub open spec fn not_after(a: EditorCursor, b: EditorCursor) -> bool {
    a.line < b.line || (a.line == b.line && a.column <= b.column)
}

/// The two ends of the selection, the earlier first.
pub open spec fn bounds(app: AppView) -> Option<(EditorCursor, EditorCursor)> {
    match app.selection {
        None => None,
        Some(selection) => if selection.tab != Tab::Files || app.tab != Tab::Files
            || selection.anchor == selection.active {
            None
        } else if not_after(selection.anchor, selection.active) {
            Some((selection.anchor, selection.active))
        } else {
            Some((selection.active, selection.anchor))
        },
    }
}

/// Cells of the character at the cursor.
pub open spec fn cursor_cells(app: AppView, cursor: EditorCursor) -> int {
    match shown_lines(app) {
        None => 1,
        Some(lines) => if cursor.line >= lines.len() {
            1
        } else {
            match width_at(
                line_chars(lines[cursor.line as int]),
                0,
                minus(cursor.column as int, code_start(lines)),
            ) {
                Some(width) => width,
                None => 1,
            }
        },
    }
}

/// The columns of a line that are selected.
pub open spec fn selected_columns(app: AppView, line: int) -> Option<(usize, usize)> {
    match bounds(app) {
        None => None,
        Some((start, end)) => if line < start.line || line > end.line {
            None
        } else {
            let first = if line == start.line {
                start.column as int
            } else {
                0
            };
            let last = if line == end.line {
                plus(end.column as int, cursor_cells(app, end))
            } else {
                usize::MAX as int
            };
            if first < last {
                Some((first as usize, last as usize))
            } else {
                None
            }
        },
    }
}

/// The selected text of a line.
pub open spec fn selected_piece(
    app: AppView,
    lines: SourceLines,
    start: EditorCursor,
    end: EditorCursor,
    line: int,
) -> Seq<char> {
    let first = if line == start.line {
        minus(start.column as int, code_start(lines))
    } else {
        0
    };
    let last = if line == end.line {
        minus(plus(end.column as int, cursor_cells(app, end)), code_start(lines))
    } else {
        usize::MAX as int
    };
    picked(line_chars(lines[line]), 0, first, last)
}

/// The selected text up to and with a line.
pub open spec fn selected_until(
    app: AppView,
    lines: SourceLines,
    start: EditorCursor,
    end: EditorCursor,
    line: int,
) -> Seq<char>
    decreases line - start.line,
{
    if line < start.line {
        Seq::empty()
    } else if line == start.line {
        selected_piece(app, lines, start, end, line)
    } else {
        selected_until(app, lines, start, end, line - 1).push('\n') + selected_piece(
            app,
            lines,
            start,
            end,
            line,
        )
    }
}

/// The selected text, without line numbers.
pub open spec fn selected_text(app: AppView) -> Option<Seq<char>> {
    if app.tab != Tab::Files {
        None
    } else {
        match (shown_lines(app), bounds(app)) {
            (Some(lines), Some((start, end))) => if end.line < lines.len() {
                Some(selected_until(app, lines, start, end, end.line as int))
            } else {
                None
            },
            _ => None,
        }
    }
}

/// The viewer with the selected text waiting to be put on the clipboard.
pub open spec fn copied(app: AppView) -> AppView {
    match selected_text(app) {
        Some(text) => if text.len() == 0 {
            app
        } else {
            AppView { clipboard: Some(text), ..app }
        },
        None => app,
    }
}

impl App {
    /// The parts of the screen.
    pub fn ui_layout(&self, area: Rect) -> (layout: UiLayout)
        requires
            area.fits(),
        ensures
            layout_for(self@, area, layout),
    {
        let (tabs, body, status) = screen_rows(area);
        let (navigation, content) = if self.mode == Mode::Help {
            (None, None)
        } else if self.sidebar_hidden {
            (None, Some(body))
        } else if area.width < NARROW_WIDTH {
            match self.focus {
                Focus::Navigation => (Some(body), None),
                Focus::Content => (None, Some(body)),
            }
        } else {
            let (left, right) = body_columns(body);
            (Some(left), Some(right))
        };
        UiLayout { tabs, body, status, navigation, content }
    }

    /// The source that is shown, where it has been read.
    pub fn shown_source(&self) -> (lines: Option<&Vec<Vec<ColoredSpan>>>)
        ensures
            (match lines {
                Some(lines) => Some(source_views(lines@)),
                None => None,
            }) == shown_lines(self@),
    {
        match self.actual_selected() {
            Some(selected) => self.source_cache.get(&selected),
            None => None,
        }
    }

    /// The place in the text under a cell of the panel.
    pub fn cursor_at_text(&self, area: Rect, column: u16, row: u16) -> (cursor: Option<
        EditorCursor,
    >)
        requires
            area.fits(),
        ensures
            cursor == cursor_at(self@, area, column, row),
    {
        let inner = bordered_inner(area);
        let (content, _) = content_areas(inner);
        if content.is_empty() {
            return None;
        }
        let lines = match self.shown_source() {
            None => {
                return None;
            },
            Some(lines) => lines,
        };
        let last_row = content.bottom() - 1;
        let y = if row < content.y {
            content.y
        } else if row > last_row {
            last_row
        } else {
            row
        };
        let line = ((y - content.y) as usize).saturating_add(self.files_state.scroll_y);
        if line >= lines.len() {
            return None;
        }
        let start = decimal_width(lines.len()).saturating_add(3);
        let last_column = content.right() - 1;
        let x = if column < content.x {
            content.x
        } else if column > last_column {
            last_column
        } else {
            column
        };
        let visual = ((x - content.x) as usize).saturating_add(self.files_state.scroll_x);
        if visual < start {
            return None;
        }
        let end = start.saturating_add(source_text_width(&lines[line]));
        proof {
            assert(source_views(lines@)[line as int] == views(lines@[line as int]@));
        }
        let at = if visual < end {
            visual
        } else {
            end
        };
        Some(EditorCursor { tab: self.tab, line, column: at })
    }

    /// Places the cursor at a cell and begins a selection there.
    pub fn begin_selection_at(&mut self, area: Rect, column: u16, row: u16)
        requires
            area.fits(),
        ensures
            final(self)@ == selection_begun(old(self)@, area, column, row),
    {
        let cursor = self.cursor_at_text(area, column, row);
        self.cursor = cursor;
        match cursor {
            Some(cursor) => {
                self.cursor_blink_started = self.now_millis;
                self.selection = Some(
                    EditorSelection { tab: self.tab, anchor: cursor, active: cursor },
                );
            },
            None => {
                self.selection = None;
            },
        }
    }

    /// Extends the selection to a cell.
    pub fn extend_selection_at(&mut self, area: Rect, column: u16, row: u16)
        requires
            area.fits(),
        ensures
            final(self)@ == selection_extended(old(self)@, area, column, row),
    {
        let cursor = match self.cursor_at_text(area, column, row) {
            None => {
                return;
            },
            Some(cursor) => cursor,
        };
        self.cursor = Some(cursor);
        self.cursor_blink_started = self.now_millis;
        if let Some(selection) = self.selection {
            if selection.tab == self.tab {
                self.selection = Some(
                    EditorSelection {
                        tab: selection.tab,
                        anchor: selection.anchor,
                        active: cursor,
                    },
                );
                return;
            }
        }
        self.selection = Some(EditorSelection { tab: self.tab, anchor: cursor, active: cursor });
    }

    /// The two ends of the selection, the earlier first.
    pub fn selection_bounds(&self) -> (result: Option<(EditorCursor, EditorCursor)>)
        ensures
            result == bounds(self@),
    {
        match self.selection {
            None => None,
            Some(selection) => {
                if selection.tab != Tab::Files || self.tab != Tab::Files || selection.anchor
                    == selection.active {
                    return None;
                }
                let (a, b) = (selection.anchor, selection.active);
                if a.line < b.line || (a.line == b.line && a.column <= b.column) {
                    Some((a, b))
                } else {
                    Some((b, a))
                }
            },
        }
    }

    fn selection_cursor_width(&self, cursor: EditorCursor) -> (width: usize)
        ensures
            width == cursor_cells(self@, cursor),
    {
        let lines = match self.shown_source() {
            None => {
                return 1;
            },
            Some(lines) => lines,
        };
        if cursor.line >= lines.len() {
            return 1;
        }
        let start = decimal_width(lines.len()).saturating_add(3);
        let column = cursor.column.saturating_sub(start);
        proof {
            assert(source_views(lines@)[cursor.line as int] == views(lines@[cursor.line as int]@));
        }
        match source_char_width_at(&lines[cursor.line], column) {
            Some(width) => width,
            None => 1,
        }
    }

    /// The columns of a line that are selected.
    pub fn selection_range_for_line(&self, line: usize) -> (range: Option<(usize, usize)>)
        ensures
            range == selected_columns(self@, line as int),
    {
        let (start, end) = match self.selection_bounds() {
            None => {
                return None;
            },
            Some(ends) => ends,
        };
        if line < start.line || line > end.line {
            return None;
        }
        let first: usize = if line == start.line {
            start.column
        } else {
            0
        };
        let last: usize = if line == end.line {
            end.column.saturating_add(self.selection_cursor_width(end))
        } else {
            usize::MAX
        };
        if first < last {
            Some((first, last))
        } else {
            None
        }
    }

    /// The selected text, without line numbers.
    pub fn selected_source_text(&self) -> (text: Option<String>)
        ensures
            option_view(text) == selected_text(self@),
    {
        if self.tab != Tab::Files {
            return None;
        }
        let lines = match self.shown_source() {
            None => {
                return None;
            },
            Some(lines) => lines,
        };
        let (start, end) = match self.selection_bounds() {
            None => {
                return None;
            },
            Some(ends) => ends,
        };
        let count = lines.len();
        if end.line >= count {
            return None;
        }
        let ghost all = source_views(lines@);
        let begin = decimal_width(lines.len()).saturating_add(3);
        let end_width = self.selection_cursor_width(end);
        let mut text = String::new();
        let mut line = start.line;
        proof {
            assert(text@ =~= Seq::empty());
        }
        while line <= end.line
            invariant
                start.line <= line <= end.line + 1,
                end.line < count == lines@.len(),
                all == source_views(lines@),
                begin == code_start(all),
                end_width == cursor_cells(self@, end),
                text@ == selected_until(self@, all, start, end, line - 1),
            decreases end.line + 1 - line,
        {
            let ghost before = text@;
            if line > start.line {
                text.push('\n');
            }
            let first: usize = if line == start.line {
                start.column.saturating_sub(begin)
            } else {
                0
            };
            let last: usize = if line == end.line {
                end.column.saturating_add(end_width).saturating_sub(begin)
            } else {
                usize::MAX
            };
            proof {
                assert(all[line as int] == views(lines@[line as int]@));
            }
            let piece = source_text_range(&lines[line], first, last);
            proof {
                assert(piece@ == selected_piece(self@, all, start, end, line as int));
                assert(Seq::<char>::empty() + piece@ =~= piece@);
            }
            text.append(piece.as_str());
            line = line + 1;
        }
        Some(text)
    }

    /// Has the selected text put on the clipboard.
    pub fn copy_selection(&mut self)
        ensures
            final(self)@ == copied(old(self)@),
    {
        if let Some(text) = self.selected_source_text() {
            if text.as_str().unicode_len() > 0 {
                self.clipboard = Some(text);
            }
        }
    }

    /// Takes the text that is to be put on the clipboard.
    pub fn take_clipboard(&mut self) -> (text: Option<String>)
        ensures
            option_view(text) == old(self)@.clipboard,
            final(self)@ == (AppView { clipboard: None, ..old(self)@ }),
    {
        self.clipboard.take()
    }

    /// Notes that the clipboard did not take the text.
    pub fn clipboard_failed(&mut self, error: &str)
        ensures
            final(self)@ == (AppView {
                notices: old(self)@.notices.push("clipboard copy failed: "@ + error@),
                ..old(self)@
            }),
    {
        broadcast use crate::seqs::group_views;

        let mut notice = "clipboard copy failed: ".to_owned();
        notice.append(error);
        self.notices.push(notice);
    }
}

/// The pieces with a line feed between each two.
pub open spec fn lines_joined(pieces: Seq<Seq<char>>) -> Seq<char>
    decreases pieces.len(),
{
    if pieces.len() == 0 {
        Seq::empty()
    } else if pieces.len() == 1 {
        pieces[0]
    } else {
        lines_joined(pieces.drop_last()) + seq!['\n'] + pieces.last()
    }
}

/// Cells before the code: those of the widest line number, and the rule.
pub open spec fn gutter_cells(lines: SourceLines) -> int {
    decimal(lines.len()).len() as int + 3
}

/// Whether a selection from `start` up to and with the character at `end`, of `reach`
/// cells, covers the character at `i` of a line: the line is not before or behind its
/// ends, and in the lines of the ends the character is not either.
pub open spec fn is_covered(
    lines: SourceLines,
    start: EditorCursor,
    end: EditorCursor,
    reach: int,
    line: int,
    i: int,
) -> bool {
    let chars = line_chars(lines[line]);
    let left = gutter_cells(lines) + column_of(chars, i);
    let right = gutter_cells(lines) + column_behind(chars, i);
    &&& start.line <= line <= end.line
    &&& line == start.line ==> right > start.column
    &&& line == end.line ==> left < end.column + reach
}

/// Whether the columns of all the lines can be counted.
pub open spec fn columns_fit(lines: SourceLines) -> bool {
    forall|line: int, i: int|
        #![trigger column_of(line_chars(lines[line]), i)]
        0 <= line < lines.len() && 0 <= i < line_chars(lines[line]).len() ==> gutter_cells(lines)
            + column_of(line_chars(lines[line]), i) + spec_max(
            cells(line_chars(lines[line])[i]),
            1,
        ) < usize::MAX
}

/// Whether the piece is the stretch of the line that the selection covers.
pub open spec fn is_covered_piece(
    lines: SourceLines,
    start: EditorCursor,
    end: EditorCursor,
    reach: int,
    line: int,
    piece: Seq<char>,
) -> bool {
    let chars = line_chars(lines[line]);
    exists|a: int, b: int|
        0 <= a <= b <= chars.len() && piece == #[trigger] chars.subrange(a, b) && forall|i: int|
            0 <= i < chars.len() ==> (a <= i < b <==> #[trigger] is_covered(
                lines,
                start,
                end,
                reach,
                line,
                i,
            ))
}

/// Whether the two are the ends of the selection, the earlier first.
pub open spec fn are_ends(
    selection: EditorSelection,
    start: EditorCursor,
    end: EditorCursor,
) -> bool {
    &&& (start == selection.anchor && end == selection.active) || (start == selection.active && end
        == selection.anchor)
    &&& start.line < end.line || (start.line == end.line && start.column < end.column)
}

proof fn lemma_gutter(lines: SourceLines)
    requires
        lines.len() > 0,
        gutter_cells(lines) <= usize::MAX,
    ensures
        code_start(lines) == gutter_cells(lines),
{
}

proof fn lemma_piece(
    app: AppView,
    lines: SourceLines,
    start: EditorCursor,
    end: EditorCursor,
    line: int,
)
    requires
        shown_lines(app) == Some(lines),
        columns_fit(lines),
        gutter_cells(lines) <= usize::MAX,
        start.line <= line <= end.line,
        end.line < lines.len(),
        end.column + cursor_cells(app, end) <= usize::MAX,
    ensures
        is_covered_piece(
            lines,
            start,
            end,
            cursor_cells(app, end),
            line,
            selected_piece(app, lines, start, end, line),
        ),
{
    lemma_gutter(lines);
    let chars = line_chars(lines[line]);
    let reach = cursor_cells(app, end);
    let gutter = code_start(lines);
    let first = if line == start.line {
        minus(start.column as int, gutter)
    } else {
        0
    };
    let last = if line == end.line {
        minus(plus(end.column as int, reach), gutter)
    } else {
        usize::MAX as int
    };
    let (a, b) = law_columns_hold_a_stretch(chars, first, last);
    assert forall|i: int| 0 <= i < chars.len() implies (a <= i < b <==> #[trigger] is_covered(
        lines,
        start,
        end,
        reach,
        line,
        i,
    )) by {
        let left = column_of(chars, i);
        let right = column_behind(chars, i);
        lemma_column_is_some(chars, i);
        assert(gutter + left + spec_max(cells(chars[i]), 1) < usize::MAX);
        assert((a <= i < b) == (left < last && right > first));
    }
    assert(selected_piece(app, lines, start, end, line) == chars.subrange(a, b));
}

proof fn lemma_pieces_joined(
    app: AppView,
    lines: SourceLines,
    start: EditorCursor,
    end: EditorCursor,
    line: int,
)
    requires
        start.line <= line,
    ensures
        selected_until(app, lines, start, end, line) == lines_joined(
            Seq::new(
                (line - start.line + 1) as nat,
                |k: int| selected_piece(app, lines, start, end, start.line + k),
            ),
        ),
    decreases line - start.line,
{
    let pieces = Seq::new(
        (line - start.line + 1) as nat,
        |k: int| selected_piece(app, lines, start, end, start.line + k),
    );
    if line > start.line {
        lemma_pieces_joined(app, lines, start, end, line - 1);
        let before = Seq::new(
            (line - start.line) as nat,
            |k: int| selected_piece(app, lines, start, end, start.line + k),
        );
        assert(pieces.drop_last() =~= before);
        let text = selected_until(app, lines, start, end, line - 1);
        assert(text.push('\n') + pieces.last() =~= text + seq!['\n'] + pieces.last());
    }
}

/// The selected text is what the selection covers: of every line from the earlier end
/// to the later the stretch of its characters that lies between them, that at the
/// later end with it and nothing behind it, the lines parted by line feeds, and no
/// line numbers. `pieces` is what is copied of each line.
pub proof fn law_selection_copies_what_it_covers(
    app: AppView,
    lines: SourceLines,
    start: EditorCursor,
    end: EditorCursor,
) -> (copied: (Seq<Seq<char>>, int))
    requires
        app.tab == Tab::Files,
        app.selection is Some,
        app.selection->0.tab == Tab::Files,
        are_ends(app.selection->0, start, end),
        shown_lines(app) == Some(lines),
        end.line < lines.len(),
        columns_fit(lines),
        gutter_cells(lines) <= start.column,
        gutter_cells(lines) <= end.column,
        end.column + cursor_cells(app, end) <= usize::MAX,
    ensures
        copied.0.len() == end.line - start.line + 1,
        selected_text(app) == Some(lines_joined(copied.0)),
        is_width_at(
            line_chars(lines[end.line as int]),
            end.column - gutter_cells(lines),
            copied.1,
        ),
        forall|k: int|
            0 <= k < copied.0.len() ==> is_covered_piece(
                lines,
                start,
                end,
                copied.1,
                start.line + k,
                #[trigger] copied.0[k],
            ),
{
    let selection = app.selection->0;
    let reach = cursor_cells(app, end);
    lemma_gutter(lines);
    assert(bounds(app) == Some((start, end)));
    let pieces = Seq::new(
        (end.line - start.line + 1) as nat,
        |k: int| selected_piece(app, lines, start, end, start.line + k),
    );
    lemma_pieces_joined(app, lines, start, end, end.line as int);
    law_width_is_of_the_character_there(
        line_chars(lines[end.line as int]),
        end.column - gutter_cells(lines),
    );
    assert forall|k: int| 0 <= k < pieces.len() implies is_covered_piece(
        lines,
        start,
        end,
        reach,
        start.line + k,
        #[trigger] pieces[k],
    ) by {
        lemma_piece(app, lines, start, end, start.line + k);
    }
    (pieces, reach)
}

/// What is lit in a line is what is copied of it: the characters that the selection
/// covers.
pub proof fn law_selection_lights_what_it_covers(
    app: AppView,
    lines: SourceLines,
    start: EditorCursor,
    end: EditorCursor,
    line: int,
    i: int,
)
    requires
        app.tab == Tab::Files,
        app.selection is Some,
        app.selection->0.tab == Tab::Files,
        are_ends(app.selection->0, start, end),
        shown_lines(app) == Some(lines),
        end.line < lines.len(),
        columns_fit(lines),
        gutter_cells(lines) <= start.column,
        gutter_cells(lines) <= end.column,
        start.column < usize::MAX,
        end.column + cursor_cells(app, end) <= usize::MAX,
        0 <= line < lines.len(),
        0 <= i < line_chars(lines[line]).len(),
    ensures
        ({
            let chars = line_chars(lines[line]);
            is_selected(
                gutter_cells(lines) + column_of(chars, i),
                chars[i],
                selected_columns(app, line),
            ) == is_covered(lines, start, end, cursor_cells(app, end), line, i)
        }),
{
    let chars = line_chars(lines[line]);
    let reach = cursor_cells(app, end);
    let left = gutter_cells(lines) + column_of(chars, i);
    let right = gutter_cells(lines) + column_behind(chars, i);
    lemma_column_is_some(chars, i);
    assert(left + spec_max(cells(chars[i]), 1) < usize::MAX);
    lemma_reach(app, end);
    lemma_selected_columns(app, start, end, line);
    assert(right == left + spec_max(cells(chars[i]), 1));
}

proof fn lemma_reach(app: AppView, end: EditorCursor)
    ensures
        cursor_cells(app, end) >= 1,
{
    if let Some(lines) = shown_lines(app) {
        lemma_some_width(
            line_chars(lines[end.line as int]),
            0,
            minus(end.column as int, code_start(lines)),
        );
    }
}

proof fn lemma_selected_columns(app: AppView, start: EditorCursor, end: EditorCursor, line: int)
    requires
        app.tab == Tab::Files,
        app.selection is Some,
        app.selection->0.tab == Tab::Files,
        are_ends(app.selection->0, start, end),
        start.column < usize::MAX,
        end.column + cursor_cells(app, end) <= usize::MAX,
        cursor_cells(app, end) >= 1,
    ensures
        selected_columns(app, line) == if start.line <= line <= end.line {
            Some(
                (
                    if line == start.line {
                        start.column
                    } else {
                        0
                    },
                    if line == end.line {
                        (end.column + cursor_cells(app, end)) as usize
                    } else {
                        usize::MAX
                    },
                ),
            )
        } else {
            None
        },
{
    assert(bounds(app) == Some((start, end)));
}

/// In lines of characters of one cell each, a selection within one line copies the
/// characters from its earlier end up to and with that at its later end.
pub proof fn law_selection_in_one_line(
    app: AppView,
    lines: SourceLines,
    start: EditorCursor,
    end: EditorCursor,
)
    requires
        app.tab == Tab::Files,
        app.selection is Some,
        app.selection->0.tab == Tab::Files,
        are_ends(app.selection->0, start, end),
        start.line == end.line,
        shown_lines(app) == Some(lines),
        end.line < lines.len(),
        columns_fit(lines),
        gutter_cells(lines) <= start.column,
        ({
            let chars = line_chars(lines[end.line as int]);
            &&& forall|i: int| 0 <= i < chars.len() ==> #[trigger] cells(chars[i]) == 1
            &&& end.column < gutter_cells(lines) + chars.len() <= usize::MAX
        }),
    ensures
        selected_text(app) == Some(
            line_chars(lines[end.line as int]).subrange(
                start.column - gutter_cells(lines),
                end.column - gutter_cells(lines) + 1,
            ),
        ),
{
    let chars = line_chars(lines[end.line as int]);
    let gutter = gutter_cells(lines);
    lemma_gutter(lines);
    let at = end.column - gutter;
    lemma_one_cell_columns(chars, at);
    law_width_is_of_the_character_there(chars, at);
    assert(lies_at(chars, at, at));
    assert forall|j: int| 0 <= j < at implies !#[trigger] lies_at(chars, j, at) by {
        lemma_one_cell_columns(chars, j);
    }
    assert(cursor_cells(app, end) == 1);
    let (pieces, reach) = law_selection_copies_what_it_covers(app, lines, start, end);
    assert(is_covered_piece(lines, start, end, 1, start.line as int, pieces[0])) by {
        assert(reach == 1);
    }
    let (a, b) = choose|a: int, b: int|
        0 <= a <= b <= chars.len() && pieces[0] == #[trigger] chars.subrange(a, b) && forall|i: int|
            0 <= i < chars.len() ==> (a <= i < b <==> #[trigger] is_covered(
                lines,
                start,
                end,
                1,
                start.line as int,
                i,
            ));
    let from = start.column - gutter;
    let covers = |i: int| is_covered(lines, start, end, 1, start.line as int, i);
    assert forall|i: int| 0 <= i < chars.len() implies #[trigger] covers(i) == (from <= i < at
        + 1) && covers(i) == (a <= i < b) by {
        lemma_one_cell_columns(chars, i);
        assert(is_covered(lines, start, end, 1, start.line as int, i) == (a <= i < b));
    }
    assert(covers(from) && covers(at));
    if a < from {
        assert(covers(a));
    }
    if at + 1 < b {
        assert(covers(at + 1));
    }
    assert(a == from && b == at + 1);
}

proof fn lemma_one_cell_columns(chars: Seq<char>, i: int)
    requires
        0 <= i < chars.len() <= usize::MAX,
        forall|i: int| 0 <= i < chars.len() ==> #[trigger] cells(chars[i]) == 1,
    ensures
        column_of(chars, i) == i,
        column_behind(chars, i) == i + 1,
    decreases i,
{
    assert(cells(chars[i]) == 1);
    if i > 0 {
        lemma_one_cell_columns(chars, i - 1);
        assert(cells(chars[i - 1]) == 1);
    }
}

/// The place under a cell of the panel is the one that is drawn there: the line and
/// the column of the cell, counted from what the panel is scrolled to, and just behind
/// the line where the cell is further right.
pub proof fn law_cursor_is_put_where_the_cell_is(
    app: AppView,
    area: Rect,
    lines: SourceLines,
    column: u16,
    row: u16,
)
    requires
        shown_lines(app) == Some(lines),
        content_part(inside_border(area)).holds(column, row),
        0 <= app.files_state.scroll_y,
        0 <= app.files_state.scroll_x,
        app.files_state.scroll_y + row <= usize::MAX,
        app.files_state.scroll_x + column <= usize::MAX,
        lines.len() > 0,
        gutter_cells(lines) <= usize::MAX,
    ensures
        ({
            let content = content_part(inside_border(area));
            let line = app.files_state.scroll_y + row - content.y;
            let at = app.files_state.scroll_x + column - content.x;
            let end = gutter_cells(lines) + line_width(lines[line]);
            let found = cursor_at(app, area, column, row);
            &&& found is Some <==> line < lines.len() && at >= gutter_cells(lines)
            &&& found is Some ==> found->0.tab == app.tab && found->0.line == line
            &&& found is Some && at <= end && end <= usize::MAX ==> found->0.column == at
            &&& found is Some && at > end ==> found->0.column == end
        }),
{
    lemma_gutter(lines);
    let line = app.files_state.scroll_y + row - content_part(inside_border(area)).y;
    law_line_ends_behind_its_characters(line_chars(lines[line]));
    lemma_column_is_some(line_chars(lines[line]), line_chars(lines[line]).len() as int);
}

/// What is copied is what is selected, and copying changes nothing else; with nothing
/// selected it changes nothing.
pub proof fn law_copying_puts_the_selection_on_the_clipboard(app: AppView)
    ensures
        selected_text(app) matches Some(text) ==> text.len() > 0 ==> copied(app) == (AppView {
            clipboard: Some(text),
            ..app
        }),
        selected_text(app) is None ==> copied(app) == app,
        selected_text(app) == Some(Seq::<char>::empty()) ==> copied(app) == app,
{
}

/// A selection begun at one cell and extended to another runs between the places
/// in the text under the two, in whichever order.
pub proof fn law_selection_runs_between_its_ends(
    app: AppView,
    area: Rect,
    first: (u16, u16),
    second: (u16, u16),
)
    requires
        app.tab == Tab::Files,
    ensures
        ({
            let begun = selection_begun(app, area, first.0, first.1);
            let extended = selection_extended(begun, area, second.0, second.1);
            match (
                cursor_at(app, area, first.0, first.1),
                cursor_at(app, area, second.0, second.1),
            ) {
                (Some(a), Some(b)) => a != b ==> bounds(extended) == Some(
                    if not_after(a, b) {
                        (a, b)
                    } else {
                        (b, a)
                    },
                ),
                _ => true,
            }
        }),
{
    let begun = selection_begun(app, area, first.0, first.1);
    assert(shown_lines(begun) == shown_lines(app));
}

/// What the screen shows: nothing but the help where that is open, the content alone
/// where the sidebar is hidden, the one with the focus alone on a screen of less than
/// fifty-six columns, and else the sidebar on the left of the content.
pub proof fn law_the_screen_shows_what_fits(app: AppView, area: Rect, body: Rect)
    requires
        body.fits(),
    ensures
        ({
            let (sidebar, content) = panes(app, area, body);
            &&& app.mode == Mode::Help <==> sidebar is None && content is None
            &&& app.mode != Mode::Help && app.sidebar_hidden ==> sidebar is None && content
                == Some(body)
            &&& app.mode != Mode::Help && !app.sidebar_hidden && area.width < 56 ==> match app.focus {
                Focus::Navigation => sidebar == Some(body) && content is None,
                Focus::Content => sidebar is None && content == Some(body),
            }
            &&& app.mode != Mode::Help && !app.sidebar_hidden && area.width >= 56 ==> {
                &&& sidebar matches Some(left)
                &&& content matches Some(right)
                &&& left.x == body.x
                &&& left.x + left.width == right.x
                &&& right.x + right.width == body.x + body.width
                &&& -50 <= 100 * left.width - 36 * body.width <= 50
            }
        }),
{
}

/// The screen is cut from top to bottom into the titles, the body and the status: where it
/// has four rows or more, the titles and the status have one each and the body the rest.
pub proof fn law_the_body_has_all_rows_but_two(app: AppView, area: Rect, layout: UiLayout)
    requires
        area.fits(),
        layout_for(app, area, layout),
        area.height >= 4,
    ensures
        layout.tabs.y == area.y,
        layout.tabs.height == 1,
        layout.body.y == area.y + 1,
        layout.body.height == area.height - 2,
        layout.status.y == area.y + area.height - 1,
        layout.status.height == 1,
        layout.tabs.width == area.width,
        layout.body.width == area.width,
        layout.status.width == area.width,
        (layout.navigation, layout.content) == panes(app, area, layout.body),
{
    let parts = seq![layout.tabs, layout.body, layout.status];
    assert(parts[0] == layout.tabs && parts[1] == layout.body && parts[2] == layout.status);
}

/// There is a selection only among the files, begun there and reaching from one place to
/// another; its ends are those two places, the earlier first.
pub proof fn law_selections_are_of_files(app: AppView)
    ensures
        bounds(app) is Some <==> (app.selection matches Some(selection) && selection.tab
            == Tab::Files && app.tab == Tab::Files && selection.anchor != selection.active),
        bounds(app) matches Some((start, end)) ==> {
            let selection = app.selection->0;
            &&& (start == selection.anchor && end == selection.active) || (start
                == selection.active && end == selection.anchor)
            &&& start.line < end.line || (start.line == end.line && start.column <= end.column)
        },
{
}

} // verus!
