//! Areas of the screen and how they are divided.
use ratatui::layout::{Constraint, Direction, Layout};
use ratatui::widgets::{Block, Borders};
use vstd::prelude::*;

verus! {

/// An area of the screen, in cells.
#[derive(Clone, Copy, Debug, PartialEq, Eq, Structural)]
pub struct Rect {
    pub x: u16,
    pub y: u16,
    pub width: u16,
    pub height: u16,
}

pub open spec fn spec_min(a: int, b: int) -> int {
    if a <= b {
        a
    } else {
        b
    }
}

pub open spec fn spec_max(a: int, b: int) -> int {
    if a >= b {
        a
    } else {
        b
    }
}

/// A difference that does not go below zero.
pub open spec fn minus(a: int, b: int) -> int {
    if a >= b {
        a - b
    } else {
        0
    }
}

impl Rect {
    /// First column to the right of the area.
    pub open spec fn spec_right(self) -> int {
        spec_min(self.x + self.width, u16::MAX as int)
    }

    /// First row below the area.
    pub open spec fn spec_bottom(self) -> int {
        spec_min(self.y + self.height, u16::MAX as int)
    }

    /// Whether the area lies on a screen that columns and rows can be counted on.
    pub open spec fn fits(self) -> bool {
        self.x + self.width <= u16::MAX && self.y + self.height <= u16::MAX
    }

    pub open spec fn empty(self) -> bool {
        self.width == 0 || self.height == 0
    }

    /// Whether the cell is in the area.
    pub open spec fn holds(self, column: u16, row: u16) -> bool {
        self.x <= column < self.spec_right() && self.y <= row < self.spec_bottom()
    }

    /// An area, cut where columns and rows can no longer be counted.
    pub fn new(x: u16, y: u16, width: u16, height: u16) -> (area: Rect)
        ensures
            area == (Rect {
                x,
                y,
                width: spec_min(width as int, u16::MAX - x) as u16,
                height: spec_min(height as int, u16::MAX - y) as u16,
            }),
            area.fits(),
    {
        let width = if width > u16::MAX - x {
            u16::MAX - x
        } else {
            width
        };
        let height = if height > u16::MAX - y {
            u16::MAX - y
        } else {
            height
        };
        Rect { x, y, width, height }
    }

    pub fn right(self) -> (column: u16)
        ensures
            column == self.spec_right(),
    {
        self.x.saturating_add(self.width)
    }

    pub fn bottom(self) -> (row: u16)
        ensures
            row == self.spec_bottom(),
    {
        self.y.saturating_add(self.height)
    }

    pub fn is_empty(self) -> (none: bool)
        ensures
            none == self.empty(),
    {
        self.width == 0 || self.height == 0
    }
}

impl Default for Rect {
    fn default() -> (area: Self)
        ensures
            area == (Rect { x: 0, y: 0, width: 0, height: 0 }),
    {
        Rect { x: 0, y: 0, width: 0, height: 0 }
    }
}

/// Whether the cell is in the area.
pub fn contains(area: Rect, column: u16, row: u16) -> (inside: bool)
    ensures
        inside == area.holds(column, row),
{
    column >= area.x && column < area.right() && row >= area.y && row < area.bottom()
}

/// The area inside a border one cell wide.
pub open spec fn inside_border(area: Rect) -> Rect {
    Rect {
        x: spec_min(spec_min(area.x + 1, u16::MAX as int), area.spec_right()) as u16,
        y: spec_min(spec_min(area.y + 1, u16::MAX as int), area.spec_bottom()) as u16,
        width: minus(area.width as int, 2) as u16,
        height: minus(area.height as int, 2) as u16,
    }
}

/// `ratatui::widgets::Block::inner` of a block with all borders and nothing
/// else: one cell less on every side, an area too small for that keeping its
/// place with nothing in it.
#[verifier::external_body]
pub(crate) fn bordered_area(area: Rect) -> (inner: Rect)
    ensures
        inner == inside_border(area),
{
    let outer = ratatui::layout::Rect {
        x: area.x,
        y: area.y,
        width: area.width,
        height: area.height,
    };
    let inner = Block::default().borders(Borders::ALL).inner(outer);
    Rect { x: inner.x, y: inner.y, width: inner.width, height: inner.height }
}

/// The area inside a border one cell wide.
pub fn bordered_inner(area: Rect) -> (inner: Rect)
    ensures
        inner == inside_border(area),
        area.fits() ==> inner.fits(),
{
    bordered_area(area)
}

/// The way in which an area is cut.
#[derive(Clone, Copy, Debug, PartialEq, Eq, Structural)]
pub enum Axis {
    Vertical,
    Horizontal,
}

/// How much of an area a part wants.
#[derive(Clone, Copy, Debug, PartialEq, Eq, Structural)]
pub enum Extent {
    Length(u16),
    Min(u16),
    Percentage(u16),
}

/// The full-width part of an area that begins at a row.
pub open spec fn band(area: Rect, start: int, size: int) -> Rect {
    Rect { x: area.x, y: (area.y + start) as u16, width: area.width, height: size as u16 }
}

/// The full-height part of an area that begins at a column.
pub open spec fn strip(area: Rect, start: int, size: int) -> Rect {
    Rect { x: (area.x + start) as u16, y: area.y, width: size as u16, height: area.height }
}

/// Height of the first of two parts, where the first wants at least `least` and
/// the second exactly `length`: what the first is owed comes before what the
/// second is.
pub open spec fn upper_height(height: int, least: int, length: int) -> int {
    spec_max(minus(height, length), spec_min(least, height))
}

/// Width of the first of two parts that want `percent` of the width and the rest:
/// the share, rounded to the nearest cell.
pub open spec fn left_width(width: int, percent: int) -> int {
    (width * percent + 50) / 100
}

/// How an area is cut from top to bottom.
pub open spec fn stacked(area: Rect, extents: Seq<Extent>, parts: Seq<Rect>) -> bool {
    &&& extents == seq![Extent::Min(1), Extent::Length(1)] ==> parts == seq![
        content_part(area),
        scrollbar_part(area),
    ]
    &&& extents == seq![Extent::Length(1), Extent::Min(2), Extent::Length(1)] ==> three_bands(
        area,
        1,
        2,
        1,
        parts,
    )
}

/// How an area is cut from left to right.
pub open spec fn side_by_side(area: Rect, extents: Seq<Extent>, parts: Seq<Rect>) -> bool {
    extents == seq![
        Extent::Percentage(SIDEBAR_PERCENT),
        Extent::Percentage((100 - SIDEBAR_PERCENT) as u16),
    ] ==> parts == seq![sidebar_part(area), beside_sidebar(area)]
}

/// `ratatui::layout::Layout::split`, for an area on the screen. Of the ways to cut
/// that this program asks for, the parts are these: one with a least height of a
/// row above one of a row ([`upper_height`]); one with a least height of two rows
/// between two of a row each, which get nothing before the least height is reached
/// and all they want where there is room, while between these two cases it is left
/// open which of them gets the rest ([`three_bands`]); and the sidebar's share of
/// the width beside what is left of it ([`left_width`]).
#[verifier::external_body]
fn split_area(axis: Axis, extents: &[Extent], area: Rect) -> (parts: Vec<Rect>)
    requires
        area.fits(),
    ensures
        parts@.len() == extents@.len(),
        axis == Axis::Vertical ==> stacked(area, extents@, parts@),
        axis == Axis::Horizontal ==> side_by_side(area, extents@, parts@),
{
    let sizes = extents.iter().map(|extent| match extent {
        Extent::Length(size) => Constraint::Length(*size),
        Extent::Min(size) => Constraint::Min(*size),
        Extent::Percentage(share) => Constraint::Percentage(*share),
    });
    let direction = match axis {
        Axis::Vertical => Direction::Vertical,
        Axis::Horizontal => Direction::Horizontal,
    };
    let whole = ratatui::layout::Rect { x: area.x, y: area.y, width: area.width, height: area.height };
    let parts = Layout::default().direction(direction).constraints(sizes).split(whole);
    parts.iter().map(|part| Rect { x: part.x, y: part.y, width: part.width, height: part.height }).collect()
}

/// Three parts of an area, one above the other, the middle one with a least
/// height and the others of fixed height.
pub open spec fn three_bands(
    area: Rect,
    first: int,
    least: int,
    last: int,
    parts: Seq<Rect>,
) -> bool {
    &&& parts.len() == 3
    &&& parts[0] == band(area, 0, parts[0].height as int)
    &&& parts[1] == band(area, parts[0].height as int, parts[1].height as int)
    &&& parts[2] == band(area, parts[0].height + parts[1].height, parts[2].height as int)
    &&& parts[0].height + parts[1].height + parts[2].height == area.height
    &&& area.height >= first + least + last ==> parts[0].height == first && parts[2].height == last
    &&& area.height <= least ==> parts[1].height == area.height
    &&& least < area.height < first + least + last ==> parts[1].height == least
        && parts[0].height <= first && parts[2].height <= last
}

/// The part of a panel that shows its content, and the row below it for a
/// scrollbar.
pub open spec fn content_part(inner: Rect) -> Rect {
    band(inner, 0, upper_height(inner.height as int, 1, 1))
}

pub open spec fn scrollbar_part(inner: Rect) -> Rect {
    let upper = upper_height(inner.height as int, 1, 1);
    band(inner, upper, inner.height - upper)
}

/// The part of a panel that shows its content, and the row below it for a
/// scrollbar.
pub fn content_areas(inner: Rect) -> (areas: (Rect, Rect))
    requires
        inner.fits(),
    ensures
        areas.0 == content_part(inner),
        areas.1 == scrollbar_part(inner),
        areas.0.fits(),
        areas.1.fits(),
{
    let extents: [Extent; 2] = [Extent::Min(1), Extent::Length(1)];
    proof {
        assert(extents@ =~= seq![Extent::Min(1), Extent::Length(1)]);
    }
    let parts = split_area(Axis::Vertical, &extents, inner);
    (parts[0], parts[1])
}

/// The parts of the screen.
#[derive(Clone, Copy, Debug, PartialEq, Eq, Structural)]
pub struct UiLayout {
    pub tabs: Rect,
    pub body: Rect,
    pub status: Rect,
    pub navigation: Option<Rect>,
    pub content: Option<Rect>,
}

/// The screen cut into the tabs above, the status below and the body between.
pub fn screen_rows(area: Rect) -> (rows: (Rect, Rect, Rect))
    requires
        area.fits(),
    ensures
        three_bands(area, 1, 2, 1, seq![rows.0, rows.1, rows.2]),
        rows.0.fits(),
        rows.1.fits(),
        rows.2.fits(),
{
    let extents: [Extent; 3] = [Extent::Length(1), Extent::Min(2), Extent::Length(1)];
    proof {
        assert(extents@ =~= seq![Extent::Length(1), Extent::Min(2), Extent::Length(1)]);
    }
    let parts = split_area(Axis::Vertical, &extents, area);
    proof {
        assert(parts@ =~= seq![parts@[0], parts@[1], parts@[2]]);
    }
    (parts[0], parts[1], parts[2])
}

/// The share of the body that the sidebar takes, in percent.
pub const SIDEBAR_PERCENT: u16 = 36;

/// The sidebar of a body, and what is beside it.
pub open spec fn sidebar_part(body: Rect) -> Rect {
    strip(body, 0, left_width(body.width as int, SIDEBAR_PERCENT as int))
}

pub open spec fn beside_sidebar(body: Rect) -> Rect {
    let left = left_width(body.width as int, SIDEBAR_PERCENT as int);
    strip(body, left, body.width - left)
}

/// The sidebar of a body, and what is beside it.
pub fn body_columns(body: Rect) -> (columns: (Rect, Rect))
    requires
        body.fits(),
    ensures
        columns.0 == sidebar_part(body),
        columns.1 == beside_sidebar(body),
        columns.0.fits(),
        columns.1.fits(),
{
    let extents: [Extent; 2] = [
        Extent::Percentage(SIDEBAR_PERCENT),
        Extent::Percentage(100 - SIDEBAR_PERCENT),
    ];
    proof {
        assert(extents@ =~= seq![
            Extent::Percentage(SIDEBAR_PERCENT),
            Extent::Percentage((100 - SIDEBAR_PERCENT) as u16),
        ]);
    }
    let parts = split_area(Axis::Horizontal, &extents, body);
    (parts[0], parts[1])
}

/// The area inside a border is the cells of an area that are not at its edge.
pub proof fn law_the_border_takes_the_edge(area: Rect, column: u16, row: u16)
    requires
        area.fits(),
    ensures
        inside_border(area).holds(column, row) <==> area.holds(column, row) && column > area.x
            && column + 1 < area.x + area.width && row > area.y && row + 1 < area.y + area.height,
{
}

/// Whether every cell of an area is in one of two parts of it and none in both, and
/// neither has a cell outside.
pub open spec fn parted(area: Rect, a: Rect, b: Rect, column: u16, row: u16) -> bool {
    &&& area.holds(column, row) <==> a.holds(column, row) || b.holds(column, row)
    &&& !(a.holds(column, row) && b.holds(column, row))
}

/// The content of a panel and its scrollbar share the panel: the scrollbar has the last
/// row, unless that is the only one, and the content all others.
pub proof fn law_the_scrollbar_has_the_last_row(inner: Rect, column: u16, row: u16)
    requires
        inner.fits(),
    ensures
        parted(inner, content_part(inner), scrollbar_part(inner), column, row),
        inner.height >= 2 ==> scrollbar_part(inner).height == 1,
        inner.height <= 1 ==> scrollbar_part(inner).height == 0,
        inner.height >= 2 && inner.holds(column, row) ==> (scrollbar_part(inner).holds(
            column,
            row,
        ) <==> row + 1 == inner.y + inner.height),
{
}

/// The sidebar and the content share the body: the sidebar stands on the left, with
/// thirty-six hundredths of the width to the nearest cell, and the content has the rest.
pub proof fn law_the_sidebar_has_its_share(body: Rect, column: u16, row: u16)
    requires
        body.fits(),
    ensures
        parted(body, sidebar_part(body), beside_sidebar(body), column, row),
        -50 <= 100 * sidebar_part(body).width - 36 * body.width <= 50,
        sidebar_part(body).holds(column, row) && beside_sidebar(body).width > 0 ==> column
            < beside_sidebar(body).x,
        sidebar_part(body).height == body.height,
        beside_sidebar(body).height == body.height,
{
}

} // verus!
