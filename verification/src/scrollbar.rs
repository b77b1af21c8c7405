//! Scrollbars: where the thumb stands, and where dragging it leads.
use vstd::prelude::*;

use crate::app::Focus;
use crate::layout::{minus, spec_max, spec_min, Axis, Rect};
use crate::width::plus;

verus! {

/// A product that stops at the largest number there is.
pub open spec fn times(a: int, b: int) -> int {
    spec_min(a * b, usize::MAX as int)
}

fn saturating_product(a: usize, b: usize) -> (product: usize)
    ensures
        product == times(a as int, b as int),
{
    match a.checked_mul(b) {
        Some(product) => product,
        None => usize::MAX,
    }
}

/// The number where a `u16` can hold it, else the largest of these.
pub fn saturating_u16(value: usize) -> (result: u16)
    ensures
        result == spec_min(value as int, u16::MAX as int),
{
    if value > u16::MAX as usize {
        u16::MAX
    } else {
        value as u16
    }
}

/// A scrollbar on the screen.
#[derive(Clone, Copy, Debug, PartialEq, Eq, Structural)]
pub struct ScrollbarGeometry {
    pub bar: Rect,
    pub track_start: u16,
    pub track_length: usize,
    pub thumb_start: usize,
    pub thumb_length: usize,
    pub max_scroll: usize,
}

/// A thumb being dragged: which, and how far into it it was grabbed.
#[derive(Clone, Copy, Debug, PartialEq, Eq, Structural)]
pub struct ScrollbarDrag {
    /// The part of the screen whose scrollbar it is.
    pub pane: Focus,
    pub axis: Axis,
    pub grab_offset: usize,
}

/// The scrollbars of a panel.
#[derive(Clone, Copy, Debug, PartialEq, Eq, Structural)]
pub struct ContentScrollbarMetrics {
    pub vertical: Option<ScrollbarGeometry>,
    pub horizontal: Option<ScrollbarGeometry>,
}

/// The position handed to the scrollbar, so that the last one is reached when
/// nothing is left to scroll.
pub open spec fn render_position(position: int, max_scroll: int, content: int) -> int {
    if max_scroll == 0 {
        0
    } else {
        times(spec_min(position, max_scroll), minus(content, 1)) / max_scroll
    }
}

/// The position handed to the scrollbar.
pub fn scrollbar_render_position(position: usize, max_scroll: usize, content_length: usize)
    -> (result: usize)
    ensures
        result == render_position(position as int, max_scroll as int, content_length as int),
{
    if max_scroll == 0 {
        return 0;
    }
    let at = if position < max_scroll {
        position
    } else {
        max_scroll
    };
    saturating_product(at, content_length.saturating_sub(1)) / max_scroll
}

/// A whole number of steps of a track, rounded to the nearest, for a share `part`
/// of `whole`.
pub open spec fn steps(part: int, track: int, whole: int) -> int {
    plus(times(part, track), whole / 2) / whole
}

/// Where the thumb begins on its track, and how long it is.
pub open spec fn thumb(content: int, viewport: int, track: int, position: int) -> (int, int) {
    let whole = plus(minus(content, 1), viewport);
    if track == 0 || whole == 0 {
        (0, 0)
    } else {
        let length = spec_min(spec_max(steps(viewport, track, whole), 1), track);
        (spec_min(steps(position, track, whole), minus(track, length)), length)
    }
}

fn nearest_steps(part: usize, track: usize, whole: usize) -> (count: usize)
    requires
        whole > 0,
    ensures
        count == steps(part as int, track as int, whole as int),
{
    saturating_product(part, track).saturating_add(whole / 2) / whole
}

/// Where the thumb begins on its track, and how long it is.
pub fn scrollbar_thumb_parts(
    content_length: usize,
    viewport_length: usize,
    track_length: usize,
    position: usize,
) -> (parts: (usize, usize))
    ensures
        (parts.0 as int, parts.1 as int) == thumb(
            content_length as int,
            viewport_length as int,
            track_length as int,
            position as int,
        ),
{
    let whole = content_length.saturating_sub(1).saturating_add(viewport_length);
    if track_length == 0 || whole == 0 {
        return (0, 0);
    }
    let mut length = nearest_steps(viewport_length, track_length, whole);
    if length < 1 {
        length = 1;
    }
    if length > track_length {
        length = track_length;
    }
    let mut start = nearest_steps(position, track_length, whole);
    let last = track_length.saturating_sub(length);
    if start > last {
        start = last;
    }
    (start, length)
}

/// Where the bar of an axis lies in the area, how long its track is, and where
/// the track begins; the ends of the bar are arrows.
pub open spec fn bar_of(axis: Axis, area: Rect) -> Option<(Rect, int, int)> {
    match axis {
        Axis::Vertical => if area.height >= 2 {
            Some(
                (
                    Rect {
                        x: minus(area.spec_right(), 1) as u16,
                        y: area.y,
                        width: spec_min(1, u16::MAX - minus(area.spec_right(), 1)) as u16,
                        height: spec_min(area.height as int, u16::MAX - area.y) as u16,
                    },
                    area.height - 2,
                    spec_min(area.y + 1, u16::MAX as int),
                ),
            )
        } else {
            None
        },
        Axis::Horizontal => if area.width >= 2 {
            Some(
                (
                    Rect {
                        x: area.x,
                        y: minus(area.spec_bottom(), 1) as u16,
                        width: spec_min(area.width as int, u16::MAX - area.x) as u16,
                        height: spec_min(1, u16::MAX - minus(area.spec_bottom(), 1)) as u16,
                    },
                    area.width - 2,
                    spec_min(area.x + 1, u16::MAX as int),
                ),
            )
        } else {
            None
        },
    }
}

/// The scrollbar for content that is longer than what is seen of it.
pub open spec fn geometry(
    axis: Axis,
    area: Rect,
    content: int,
    viewport: int,
    thumb_viewport: int,
    position: int,
) -> Option<ScrollbarGeometry> {
    if area.empty() || content <= viewport || thumb_viewport == 0 {
        None
    } else {
        match bar_of(axis, area) {
            None => None,
            Some((bar, track, track_start)) => if track == 0 {
                None
            } else {
                let max_scroll = minus(content, viewport);
                let at = render_position(spec_min(position, max_scroll), max_scroll, content);
                let (start, length) = thumb(content, thumb_viewport, track, at);
                Some(
                    ScrollbarGeometry {
                        bar,
                        track_start: track_start as u16,
                        track_length: track as usize,
                        thumb_start: start as usize,
                        thumb_length: length as usize,
                        max_scroll: max_scroll as usize,
                    },
                )
            },
        }
    }
}

/// The scrollbar for content that is longer than what is seen of it.
pub fn scrollbar_geometry(
    axis: Axis,
    area: Rect,
    content_length: usize,
    viewport_length: usize,
    thumb_viewport_length: usize,
    position: usize,
) -> (result: Option<ScrollbarGeometry>)
    ensures
        result == geometry(
            axis,
            area,
            content_length as int,
            viewport_length as int,
            thumb_viewport_length as int,
            position as int,
        ),
{
    if area.is_empty() || content_length <= viewport_length || thumb_viewport_length == 0 {
        return None;
    }
    let (bar, track_length, track_start): (Rect, usize, u16) = match axis {
        Axis::Vertical => {
            if area.height < 2 {
                return None;
            }
            (
                Rect::new(area.right().saturating_sub(1), area.y, 1, area.height),
                (area.height - 2) as usize,
                area.y.saturating_add(1),
            )
        },
        Axis::Horizontal => {
            if area.width < 2 {
                return None;
            }
            (
                Rect::new(area.x, area.bottom().saturating_sub(1), area.width, 1),
                (area.width - 2) as usize,
                area.x.saturating_add(1),
            )
        },
    };
    if track_length == 0 {
        return None;
    }
    let max_scroll = content_length.saturating_sub(viewport_length);
    let at = if position < max_scroll {
        position
    } else {
        max_scroll
    };
    let shown = scrollbar_render_position(at, max_scroll, content_length);
    let (thumb_start, thumb_length) = scrollbar_thumb_parts(
        content_length,
        thumb_viewport_length,
        track_length,
        shown,
    );
    Some(
        ScrollbarGeometry {
            bar,
            track_start,
            track_length,
            thumb_start,
            thumb_length,
            max_scroll,
        },
    )
}

/// How much of the content the thumb of a horizontal scrollbar stands for: a
/// third of what is seen, so that it stays short in a wide panel.
pub open spec fn compact_viewport(viewport: int) -> int {
    spec_max(viewport / 3, 1)
}

/// How much of the content the thumb of a horizontal scrollbar stands for.
pub fn compact_horizontal_scrollbar_viewport(viewport_length: usize) -> (result: usize)
    ensures
        result == compact_viewport(viewport_length as int),
{
    let third = viewport_length / 3;
    if third < 1 {
        1
    } else {
        third
    }
}

/// Whether the pointer is on the thumb, and how far into it.
pub open spec fn grabbed(geometry: ScrollbarGeometry, pointer: int) -> Option<int> {
    let start = spec_min(
        geometry.track_start + spec_min(geometry.thumb_start as int, u16::MAX as int),
        u16::MAX as int,
    );
    let end = spec_min(
        start + spec_min(geometry.thumb_length as int, u16::MAX as int),
        u16::MAX as int,
    );
    if start <= pointer < end {
        Some(pointer - start)
    } else {
        None
    }
}

/// Whether the pointer is on the thumb, and how far into it.
pub fn grab_thumb(geometry: &ScrollbarGeometry, pointer: u16) -> (offset: Option<usize>)
    ensures
        (match offset {
            Some(offset) => Some(offset as int),
            None => None,
        }) == grabbed(*geometry, pointer as int),
{
    let start = geometry.track_start.saturating_add(saturating_u16(geometry.thumb_start));
    let end = start.saturating_add(saturating_u16(geometry.thumb_length));
    if pointer >= start && pointer < end {
        Some((pointer - start) as usize)
    } else {
        None
    }
}

/// How far the content is scrolled with the thumb at the place on its track.
pub open spec fn scroll_at(thumb_start: int, last: int, max_scroll: int) -> int {
    if last == 0 {
        0
    } else {
        plus(times(thumb_start, max_scroll), last / 2) / last
    }
}

/// How far the content is scrolled when the thumb is dragged to the pointer.
pub open spec fn dragged(geometry: ScrollbarGeometry, grab_offset: int, pointer: int) -> int {
    let last = minus(geometry.track_length as int, geometry.thumb_length as int);
    let start = spec_min(
        minus(minus(pointer, geometry.track_start as int), grab_offset),
        last,
    );
    scroll_at(start, last, geometry.max_scroll as int)
}

/// How far the content is scrolled when the thumb is dragged to the pointer.
pub fn drag_thumb(geometry: &ScrollbarGeometry, grab_offset: usize, pointer: u16) -> (scroll: usize)
    ensures
        scroll == dragged(*geometry, grab_offset as int, pointer as int),
{
    let last = geometry.track_length.saturating_sub(geometry.thumb_length);
    let mut start = (pointer.saturating_sub(geometry.track_start) as usize).saturating_sub(
        grab_offset,
    );
    if start > last {
        start = last;
    }
    if last == 0 {
        0
    } else {
        saturating_product(start, geometry.max_scroll).saturating_add(last / 2) / last
    }
}

/// The thumb is at least one cell long and stays on its track.
pub proof fn law_thumb_stays_on_its_track(
    axis: Axis,
    area: Rect,
    content: int,
    viewport: int,
    thumb_viewport: int,
    position: int,
)
    requires
        0 <= content <= usize::MAX,
        0 <= viewport <= usize::MAX,
        0 <= thumb_viewport <= usize::MAX,
        0 <= position <= usize::MAX,
    ensures
        geometry(axis, area, content, viewport, thumb_viewport, position) matches Some(bar) ==> {
            &&& bar.thumb_length >= 1
            &&& bar.thumb_start + bar.thumb_length <= bar.track_length
        },
{
    let max_scroll = minus(content, viewport);
    if content > viewport && thumb_viewport > 0 {
        if let Some((bar, track, track_start)) = bar_of(axis, area) {
            let at = render_position(spec_min(position, max_scroll), max_scroll, content);
            let whole = plus(minus(content, 1), thumb_viewport);
            let product = spec_min(position, max_scroll) * minus(content, 1);
            assert(product >= 0) by (nonlinear_arith)
                requires
                    product == spec_min(position, max_scroll) * minus(content, 1),
                    spec_min(position, max_scroll) >= 0,
                    minus(content, 1) >= 0,
            ;
            assert(at >= 0) by (nonlinear_arith)
                requires
                    at == times(
                        spec_min(spec_min(position, max_scroll), max_scroll),
                        minus(content, 1),
                    ) / max_scroll,
                    spec_min(spec_min(position, max_scroll), max_scroll) * minus(content, 1) >= 0,
                    times(
                        spec_min(spec_min(position, max_scroll), max_scroll),
                        minus(content, 1),
                    ) >= 0,
                    max_scroll > 0,
            ;
            let shifted = at * track;
            assert(shifted >= 0) by (nonlinear_arith)
                requires
                    shifted == at * track,
                    at >= 0,
                    track >= 0,
            ;
            assert(steps(at, track, whole) >= 0) by (nonlinear_arith)
                requires
                    steps(at, track, whole) == plus(times(at, track), whole / 2) / whole,
                    plus(times(at, track), whole / 2) >= 0,
                    whole > 0,
            ;
        }
    }
}

/// The ends of the track are the ends of the content: with the thumb at the
/// start nothing is scrolled, with the thumb at the end everything is, and
/// nowhere more than that.
pub proof fn law_dragging_reaches_both_ends(thumb_start: int, last: int, max_scroll: int)
    requires
        0 <= thumb_start <= last,
        0 < last,
        0 <= max_scroll,
        last * max_scroll + last <= usize::MAX,
    ensures
        scroll_at(0, last, max_scroll) == 0,
        scroll_at(last, last, max_scroll) == max_scroll,
        0 <= scroll_at(thumb_start, last, max_scroll) <= max_scroll,
{
    let half = last / 2;
    assert(0 * max_scroll == 0);
    assert(half / last == 0) by (nonlinear_arith)
        requires
            0 <= half < last,
    ;
    assert((last * max_scroll + half) / last == max_scroll) by (nonlinear_arith)
        requires
            0 <= half < last,
            0 <= max_scroll,
    ;
    assert(0 <= thumb_start * max_scroll <= last * max_scroll) by (nonlinear_arith)
        requires
            0 <= thumb_start <= last,
            0 <= max_scroll,
    ;
    let a = thumb_start * max_scroll + half;
    let b = last * max_scroll + half;
    assert(0 <= a / last <= b / last) by (nonlinear_arith)
        requires
            0 <= a <= b,
            0 < last,
    ;
}

/// Dragging further never scrolls back.
pub proof fn law_dragging_is_monotonic(a: int, b: int, last: int, max_scroll: int)
    requires
        0 <= a <= b <= last,
        0 < last,
        0 <= max_scroll,
    ensures
        scroll_at(a, last, max_scroll) <= scroll_at(b, last, max_scroll),
{
    let half = last / 2;
    assert(a * max_scroll <= b * max_scroll) by (nonlinear_arith)
        requires
            0 <= a <= b,
            0 <= max_scroll,
    ;
    let x = plus(times(a, max_scroll), half);
    let y = plus(times(b, max_scroll), half);
    assert(x / last <= y / last) by (nonlinear_arith)
        requires
            x <= y,
            0 < last,
    ;
}

/// A share of a track is given to the nearest cell.
proof fn lemma_nearest(product: int, whole: int)
    requires
        product >= 0,
        whole > 0,
    ensures
        ({
            let count = (product + whole / 2) / whole;
            &&& 2 * (count * whole - product) <= whole
            &&& 2 * (product - count * whole) <= whole
        }),
{
    let raised = product + whole / 2;
    let count = raised / whole;
    vstd::arithmetic::div_mod::lemma_fundamental_div_mod(raised, whole);
    vstd::arithmetic::div_mod::lemma_mod_bound(raised, whole);
    assert(whole * count == count * whole) by (nonlinear_arith);
}

/// The thumb is as long as what is seen is of the whole, to the nearest cell, as long as
/// that is a cell and leaves it on its track; and it begins where what is seen begins.
pub proof fn law_the_thumb_stands_for_what_is_seen(
    content: int,
    viewport: int,
    track: int,
    position: int,
)
    requires
        0 < content,
        0 < viewport,
        0 < track,
        0 <= position,
        content - 1 + viewport <= usize::MAX,
        viewport * track + content + viewport <= usize::MAX,
        position * track + content + viewport <= usize::MAX,
    ensures
        ({
            let (start, length) = thumb(content, viewport, track, position);
            let whole = content - 1 + viewport;
            &&& 1 <= length <= track
            &&& 0 <= start <= track - length
            &&& 1 < length < track ==> -whole <= 2 * (length * whole - viewport * track) <= whole
            &&& start < track - length ==> -whole <= 2 * (start * whole - position * track)
                <= whole
        }),
{
    let whole = content - 1 + viewport;
    assert(viewport * track >= 0 && position * track >= 0) by (nonlinear_arith)
        requires
            viewport > 0,
            track > 0,
            position >= 0,
    ;
    lemma_nearest(viewport * track, whole);
    lemma_nearest(position * track, whole);
    vstd::arithmetic::div_mod::lemma_div_pos_is_pos(position * track + whole / 2, whole);
    assert(steps(viewport, track, whole) == (viewport * track + whole / 2) / whole);
    assert(steps(position, track, whole) == (position * track + whole / 2) / whole);
}

/// A thumb can be taken hold of at any of its cells and nowhere else, and is then led
/// by that cell: the place on the track that it is drawn to is as far from the pointer
/// as when it was taken.
pub proof fn law_a_thumb_is_led_by_the_cell_it_was_taken_at(
    geometry: ScrollbarGeometry,
    taken: int,
    pointer: int,
)
    requires
        geometry.track_start + geometry.thumb_start + geometry.thumb_length <= u16::MAX,
        0 <= taken <= u16::MAX,
        0 <= pointer <= u16::MAX,
        geometry.thumb_length <= geometry.track_length,
    ensures
        ({
            let first = geometry.track_start + geometry.thumb_start;
            let last = geometry.track_length - geometry.thumb_length;
            &&& grabbed(geometry, taken) is Some <==> first <= taken < first
                + geometry.thumb_length
            &&& grabbed(geometry, taken) matches Some(offset) ==> {
                let start = geometry.thumb_start + (pointer - taken);
                &&& 0 <= start <= last ==> dragged(geometry, offset, pointer) == scroll_at(
                    start,
                    last,
                    geometry.max_scroll as int,
                )
                &&& start < 0 ==> dragged(geometry, offset, pointer) == scroll_at(
                    0,
                    last,
                    geometry.max_scroll as int,
                )
                &&& start > last ==> dragged(geometry, offset, pointer) == scroll_at(
                    last,
                    last,
                    geometry.max_scroll as int,
                )
            }
        }),
{
}

/// With the thumb at a place on its track the content is scrolled by the same share, to
/// the nearest line.
pub proof fn law_the_content_follows_the_thumb(start: int, last: int, max_scroll: int)
    requires
        0 <= start <= last,
        0 < last,
        0 <= max_scroll,
        start * max_scroll + last <= usize::MAX,
    ensures
        -last <= 2 * (scroll_at(start, last, max_scroll) * last - start * max_scroll) <= last,
{
    assert(start * max_scroll >= 0) by (nonlinear_arith)
        requires
            start >= 0,
            max_scroll >= 0,
    ;
    lemma_nearest(start * max_scroll, last);
}

/// There is a scrollbar if and only if there is more than is seen and room for one: three
/// cells along the edge. A vertical one stands in the last column of its area, a
/// horizontal one in the last row.
pub proof fn law_scrollbars_stand_where_there_is_more(
    axis: Axis,
    area: Rect,
    content: int,
    viewport: int,
    thumb_viewport: int,
    position: int,
    column: u16,
    row: u16,
)
    requires
        area.fits(),
        !area.empty(),
        thumb_viewport > 0,
    ensures
        ({
            let bar = geometry(axis, area, content, viewport, thumb_viewport, position);
            let along = match axis {
                Axis::Vertical => area.height,
                Axis::Horizontal => area.width,
            };
            &&& bar is Some <==> content > viewport && along >= 3
            &&& bar is Some && area.x + area.width < u16::MAX && area.y + area.height < u16::MAX
                ==> (bar->0.bar.holds(column, row) <==> area.holds(column, row) && match axis {
                Axis::Vertical => column + 1 == area.x + area.width,
                Axis::Horizontal => row + 1 == area.y + area.height,
            })
        }),
{
}

} // verus!
