//! The viewport: which rows of the list are on screen, and where the
//! scrollbar thumb sits.
//!
//! Every input takes two terminal rows, one for its label and reading and
//! one for its bar. Row counts and scroll offsets are therefore even.

use crate::rounding::{lemma_rounded_share, product, round_fraction, rounded};
use vstd::prelude::*;

verus! {

/// The terminal rows that the borders of the two blocks take.
pub const CHROME_ROWS: usize = 4;

/// The least number of rows inside the border for which a scrollbar is
/// drawn. Its arrows take two of them.
pub const MIN_TRACK_ROWS: usize = 3;

/// `x` rounded down to an even number.
pub open spec fn even_floor(x: int) -> int {
    x - x % 2
}

/// The rows inside the border of the temperature block:
/// `max(0, terminal_height - CHROME_ROWS - header_lines)`.
pub open spec fn inner_rows_of(terminal_height: int, header_lines: int) -> int {
    if terminal_height - CHROME_ROWS - header_lines > 0 {
        terminal_height - CHROME_ROWS - header_lines
    } else {
        0
    }
}

/// The rows that inputs can be drawn on: the inner rows, rounded down to an
/// even number.
pub open spec fn visible_rows_of(terminal_height: int, header_lines: int) -> int {
    even_floor(inner_rows_of(terminal_height, header_lines))
}

/// The largest scroll offset: `max(0, total_rows - visible_rows)`, rounded
/// down to an even number.
pub open spec fn max_scroll_of(total_rows: int, visible_rows: int) -> int {
    if total_rows > visible_rows {
        even_floor(total_rows - visible_rows)
    } else {
        0
    }
}

/// The scroll offset brought into `0..=max_scroll` and rounded down to an
/// even number.
pub open spec fn clamped_scroll(total_rows: int, visible_rows: int, scroll_offset: int) -> int {
    let max_scroll = max_scroll_of(total_rows, visible_rows);
    if scroll_offset < 0 {
        0
    } else if scroll_offset > max_scroll {
        even_floor(max_scroll)
    } else {
        even_floor(scroll_offset)
    }
}

/// The row behind the last visible one: `min(start_row + visible_rows,
/// total_rows)`.
pub open spec fn end_row_of(start_row: int, visible_rows: int, total_rows: int) -> int {
    if start_row + visible_rows < total_rows {
        start_row + visible_rows
    } else {
        total_rows
    }
}

/// The index of the input that the row `start_row` belongs to.
pub open spec fn first_input_of(start_row: int) -> int {
    start_row / 2
}

/// The index behind the last input that has a row before `end_row`: half of
/// `end_row`, rounded up.
pub open spec fn last_input_of(end_row: int) -> int {
    (end_row + 1) / 2
}

/// Whether a scrollbar is drawn: not all rows are visible, and the rows
/// inside the border leave room for the arrows and a thumb.
pub open spec fn scrollbar_shown(total_rows: int, visible_rows: int, inner_rows: int) -> bool {
    total_rows > visible_rows && inner_rows >= MIN_TRACK_ROWS
}

/// The rows between the two arrows of the scrollbar.
pub open spec fn thumb_track_of(inner_rows: int) -> int {
    inner_rows - 2
}

/// The height of the thumb: the visible share of the rows, taken of the
/// track and rounded, but at least one row and at most the track.
pub open spec fn thumb_height_of(total_rows: int, visible_rows: int, track: int) -> int {
    let share = if visible_rows < total_rows {
        visible_rows
    } else {
        total_rows
    };
    let height = rounded(share * track, total_rows);
    if height < 1 {
        1
    } else if height > track {
        track
    } else {
        height
    }
}

/// The row of the track on which the thumb starts: the scrolled share of
/// the room that the thumb leaves, rounded; zero where nothing can scroll.
pub open spec fn thumb_start_of(
    total_rows: int,
    visible_rows: int,
    scroll_offset: int,
    track: int,
) -> int {
    let max_scroll = max_scroll_of(total_rows, visible_rows);
    let room = track - thumb_height_of(total_rows, visible_rows, track);
    if max_scroll == 0 {
        0
    } else {
        rounded(scroll_offset * room, max_scroll)
    }
}

/// Where the scrollbar thumb sits.
#[derive(Clone, Copy, Debug, PartialEq, Eq, Structural)]
pub struct Scrollbar {
    /// The rows between the two arrows.
    pub track_height: usize,
    /// The first row of the thumb, counted from the top of the track.
    pub thumb_start: usize,
    /// The rows that the thumb covers.
    pub thumb_height: usize,
}

impl Scrollbar {
    /// Whether the row `row` of the track belongs to the thumb.
    pub open spec fn covers(self, row: int) -> bool {
        self.thumb_start <= row < self.thumb_start + self.thumb_height
    }

    /// Whether the row `row` of the track belongs to the thumb.
    pub fn is_thumb(&self, row: usize) -> (result: bool)
        ensures
            result == self.covers(row as int),
    {
        row >= self.thumb_start && row - self.thumb_start < self.thumb_height
    }
}

/// What is on screen for one frame.
#[derive(Clone, Copy, Debug, PartialEq, Eq)]
pub struct Window {
    /// The rows that inputs are drawn on.
    pub visible_rows: usize,
    /// The scroll offset after clamping.
    pub scroll_offset: usize,
    /// The first visible row.
    pub start_row: usize,
    /// The row behind the last visible one.
    pub end_row: usize,
    /// The index of the first visible input.
    pub first_input: usize,
    /// The index behind the last visible input.
    pub last_input: usize,
    /// The scrollbar, where one is drawn.
    pub scrollbar: Option<Scrollbar>,
}

impl Window {
    /// Whether this is the window onto `row_count` inputs for `inner_rows`
    /// rows inside the border of the temperature block and the scroll
    /// offset `scroll_offset`.
    pub open spec fn shows(self, row_count: int, inner_rows: int, scroll_offset: int) -> bool {
        let total_rows = 2 * row_count;
        &&& self.visible_rows == even_floor(inner_rows)
        &&& self.scroll_offset == clamped_scroll(
            total_rows,
            self.visible_rows as int,
            scroll_offset,
        )
        &&& self.start_row == self.scroll_offset
        &&& self.end_row == end_row_of(
            self.start_row as int,
            self.visible_rows as int,
            total_rows,
        )
        &&& self.first_input == first_input_of(self.start_row as int)
        &&& self.last_input == last_input_of(self.end_row as int)
        &&& match self.scrollbar {
            Some(bar) => {
                &&& scrollbar_shown(total_rows, self.visible_rows as int, inner_rows)
                &&& bar.track_height == thumb_track_of(inner_rows)
                &&& bar.thumb_height == thumb_height_of(
                    total_rows,
                    self.visible_rows as int,
                    bar.track_height as int,
                )
                &&& bar.thumb_start == thumb_start_of(
                    total_rows,
                    self.visible_rows as int,
                    self.scroll_offset as int,
                    bar.track_height as int,
                )
            },
            None => !scrollbar_shown(total_rows, self.visible_rows as int, inner_rows),
        }
    }

    /// Whether this is the window onto `row_count` inputs in a terminal of
    /// the given height, below a header of `header_lines` lines, for the
    /// scroll offset `scroll_offset`.
    pub open spec fn shows_in_terminal(
        self,
        row_count: int,
        terminal_height: int,
        header_lines: int,
        scroll_offset: int,
    ) -> bool {
        self.shows(row_count, inner_rows_of(terminal_height, header_lines), scroll_offset)
    }
}

/// Rounds `x` down to an even number.
pub fn round_down_even(x: usize) -> (result: usize)
    ensures
        result == even_floor(x as int),
        result % 2 == 0,
        result <= x,
{
    x - x % 2
}

/// The rows inside the border of the temperature block.
pub fn inner_rows(terminal_height: usize, header_lines: usize) -> (result: usize)
    ensures
        result == inner_rows_of(terminal_height as int, header_lines as int),
{
    if terminal_height < CHROME_ROWS {
        0
    } else if terminal_height - CHROME_ROWS < header_lines {
        0
    } else {
        terminal_height - CHROME_ROWS - header_lines
    }
}

/// The rows that inputs can be drawn on.
pub fn visible_rows(terminal_height: usize, header_lines: usize) -> (result: usize)
    ensures
        result == visible_rows_of(terminal_height as int, header_lines as int),
        result % 2 == 0,
{
    round_down_even(inner_rows(terminal_height, header_lines))
}

/// The largest scroll offset for `total_rows` rows of which `visible_rows`
/// are on screen.
pub fn max_scroll(total_rows: usize, visible_rows: usize) -> (result: usize)
    ensures
        result == max_scroll_of(total_rows as int, visible_rows as int),
        result % 2 == 0,
        result + visible_rows <= total_rows || result == 0,
{
    if total_rows > visible_rows {
        round_down_even(total_rows - visible_rows)
    } else {
        0
    }
}

/// Brings a scroll offset into the range that the rows allow. The result is
/// even and at most the largest scroll offset.
pub fn clamp_scroll(total_rows: usize, visible_rows: usize, scroll_offset: usize) -> (result: usize)
    ensures
        result == clamped_scroll(total_rows as int, visible_rows as int, scroll_offset as int),
        result % 2 == 0,
        0 <= result <= max_scroll_of(total_rows as int, visible_rows as int),
        result <= scroll_offset,
{
    let limit = max_scroll(total_rows, visible_rows);
    if scroll_offset > limit {
        round_down_even(limit)
    } else {
        round_down_even(scroll_offset)
    }
}

/// The row behind the last visible one.
pub fn end_row(start_row: usize, visible_rows: usize, total_rows: usize) -> (result: usize)
    ensures
        result == end_row_of(start_row as int, visible_rows as int, total_rows as int),
{
    if start_row < total_rows && visible_rows < total_rows - start_row {
        start_row + visible_rows
    } else {
        total_rows
    }
}

/// Clamping a clamped scroll offset changes nothing.
pub proof fn lemma_clamp_idempotent(total_rows: int, visible_rows: int, scroll_offset: int)
    ensures
        clamped_scroll(
            total_rows,
            visible_rows,
            clamped_scroll(total_rows, visible_rows, scroll_offset),
        ) == clamped_scroll(total_rows, visible_rows, scroll_offset),
{
}

/// A clamped scroll offset is even and lies between zero and the largest
/// scroll offset, whatever the rows and the offset are.
pub proof fn lemma_clamp_in_range(total_rows: int, visible_rows: int, scroll_offset: int)
    ensures
        clamped_scroll(total_rows, visible_rows, scroll_offset) % 2 == 0,
        0 <= clamped_scroll(total_rows, visible_rows, scroll_offset) <= max_scroll_of(
            total_rows,
            visible_rows,
        ),
{
}

/// Computes where the scrollbar thumb sits, for `inner_rows` rows inside
/// the border. The result is `None` where no scrollbar is drawn. The scroll
/// offset is clamped as [`clamp_scroll`] does it.
pub fn scrollbar(
    total_rows: usize,
    visible_rows: usize,
    scroll_offset: usize,
    inner_rows: usize,
) -> (result: Option<Scrollbar>)
    ensures
        match result {
            Some(bar) => {
                &&& scrollbar_shown(total_rows as int, visible_rows as int, inner_rows as int)
                &&& bar.track_height == thumb_track_of(inner_rows as int)
                &&& bar.thumb_height == thumb_height_of(
                    total_rows as int,
                    visible_rows as int,
                    bar.track_height as int,
                )
                &&& bar.thumb_start == thumb_start_of(
                    total_rows as int,
                    visible_rows as int,
                    clamped_scroll(total_rows as int, visible_rows as int, scroll_offset as int),
                    bar.track_height as int,
                )
                &&& 1 <= bar.thumb_height <= bar.track_height
                &&& bar.thumb_start + bar.thumb_height <= bar.track_height
            },
            None => !scrollbar_shown(total_rows as int, visible_rows as int, inner_rows as int),
        },
{
    if !(total_rows > visible_rows && inner_rows >= MIN_TRACK_ROWS) {
        return None;
    }
    let track: usize = inner_rows - 2;
    proof {
        lemma_rounded_share(visible_rows as int, total_rows as int, track as int);
    }
    let share = round_fraction(product(visible_rows, track), total_rows as u128);
    let thumb_height: usize = if share < 1 {
        1
    } else {
        share as usize
    };
    let limit = max_scroll(total_rows, visible_rows);
    let offset = clamp_scroll(total_rows, visible_rows, scroll_offset);
    let room: usize = track - thumb_height;
    let thumb_start: usize = if limit == 0 {
        0
    } else {
        proof {
            lemma_rounded_share(offset as int, limit as int, room as int);
        }
        round_fraction(product(offset, room), limit as u128) as usize
    };
    Some(Scrollbar { track_height: track, thumb_start, thumb_height })
}

/// Computes what is on screen for `inner_rows` rows inside the border of
/// the temperature block: the rows that inputs are drawn on, the clamped
/// scroll offset, the range of visible inputs, and the scrollbar.
pub fn window(row_count: usize, inner_rows: usize, scroll_offset: usize) -> (result: Window)
    requires
        2 * row_count <= usize::MAX,
    ensures
        result.shows(row_count as int, inner_rows as int, scroll_offset as int),
        result.scroll_offset % 2 == 0,
        result.scroll_offset <= max_scroll_of(2 * row_count, result.visible_rows as int),
        result.first_input <= result.last_input <= row_count,
{
    let total_rows: usize = 2 * row_count;
    let visible = round_down_even(inner_rows);
    let offset = clamp_scroll(total_rows, visible, scroll_offset);
    let end = end_row(offset, visible, total_rows);
    proof {
        lemma_clamp_idempotent(total_rows as int, visible as int, scroll_offset as int);
    }
    Window {
        visible_rows: visible,
        scroll_offset: offset,
        start_row: offset,
        end_row: end,
        first_input: offset / 2,
        last_input: end / 2 + end % 2,
        scrollbar: scrollbar(total_rows, visible, offset, inner_rows),
    }
}

/// Computes what is on screen in a terminal of the given height, where the
/// fan block shows `header_lines` lines.
pub fn terminal_window(
    row_count: usize,
    terminal_height: usize,
    header_lines: usize,
    scroll_offset: usize,
) -> (result: Window)
    requires
        2 * row_count <= usize::MAX,
    ensures
        result.shows_in_terminal(
            row_count as int,
            terminal_height as int,
            header_lines as int,
            scroll_offset as int,
        ),
        result.visible_rows == visible_rows_of(terminal_height as int, header_lines as int),
        result.scroll_offset % 2 == 0,
        result.scroll_offset <= max_scroll_of(2 * row_count, result.visible_rows as int),
        result.first_input <= result.last_input <= row_count,
{
    window(row_count, inner_rows(terminal_height, header_lines), scroll_offset)
}

/// A window is fixed by what it shows: two windows onto the same rows, for
/// the same rows inside the border and the same scroll offset, are the same
/// window.
pub proof fn lemma_window_unique(
    a: Window,
    b: Window,
    row_count: int,
    inner_rows: int,
    scroll_offset: int,
)
    requires
        a.shows(row_count, inner_rows, scroll_offset),
        b.shows(row_count, inner_rows, scroll_offset),
    ensures
        a == b,
{
}

/// Drawing a frame again from the scroll offset that the first frame left
/// shows the same window.
pub proof fn lemma_window_settles(w: Window, row_count: int, inner_rows: int, scroll_offset: int)
    requires
        w.shows(row_count, inner_rows, scroll_offset),
    ensures
        w.shows(row_count, inner_rows, w.scroll_offset as int),
{
    lemma_clamp_idempotent(2 * row_count, w.visible_rows as int, scroll_offset);
}

} // verus!
