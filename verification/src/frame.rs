//! What one frame of the temperature block holds: the cells of each
//! visible row, the area that they are drawn in, and the cells of the
//! scrollbar. Painting the cells is left to the program around the crate.

use crate::bar::{cell_color, indicator_color, reading_band, render_bar, Rgb};
use crate::rows::{FlatRow, RowModel};
use crate::viewport::{Scrollbar, Window};
use vstd::prelude::*;
use vstd::string::StringExecFns;

verus! {

/// What the dashboard shows for one input.
#[derive(Debug)]
pub struct RowCells {
    /// The adapter and the input, as `adapter | input`.
    pub label: String,
    /// The reading in whole degrees.
    pub degrees: i8,
    /// The colour of the mark beside the reading.
    pub indicator: Rgb,
    /// The colours of the cells of the bar.
    pub bar: Vec<Rgb>,
}

/// A [`RowCells`] as sequences.
pub struct RowCellsModel {
    pub label: Seq<char>,
    pub degrees: i8,
    pub indicator: Rgb,
    pub bar: Seq<Rgb>,
}

impl View for RowCells {
    type V = RowCellsModel;

    open spec fn view(&self) -> RowCellsModel {
        RowCellsModel {
            label: self.label@,
            degrees: self.degrees,
            indicator: self.indicator,
            bar: self.bar@,
        }
    }
}

/// A rectangle of terminal cells.
#[derive(Clone, Copy, Debug, PartialEq, Eq, Structural)]
pub struct Area {
    pub x: u16,
    pub y: u16,
    pub width: u16,
    pub height: u16,
}

/// One cell of the scrollbar.
#[derive(Clone, Copy, Debug, PartialEq, Eq, Structural)]
pub enum Mark {
    /// The arrow at the top.
    Up,
    /// The arrow at the bottom.
    Down,
    /// A cell of the thumb.
    Thumb,
    /// A cell of the track that the thumb leaves free.
    Track,
}

/// Where the scrollbar is drawn: in one column, from the row `top` down.
#[derive(Clone, Copy, Debug, PartialEq, Eq, Structural)]
pub struct ScrollbarCells {
    /// The column of the scrollbar: the right border of the block.
    pub column: u16,
    /// The row of the upper arrow; the track follows below it, and the
    /// lower arrow below the track.
    pub top: u16,
    /// The track and the thumb.
    pub bar: Scrollbar,
}

/// One frame of the temperature block.
#[derive(Debug)]
pub struct Frame {
    /// What part of the list is on screen.
    pub window: Window,
    /// The area that the rows are drawn in: the inside of the block
    /// without one column at either side.
    pub padded: Area,
    /// The visible inputs, from the top.
    pub rows: Vec<RowCells>,
    /// The scrollbar, where one is drawn.
    pub scrollbar: Option<ScrollbarCells>,
}

/// What is shown for a row, on a bar of `width` cells.
pub open spec fn cells_of(row: RowModel, width: int) -> RowCellsModel {
    RowCellsModel {
        label: row.adapter + " | "@ + row.input,
        degrees: row.temperature.whole_degrees() as i8,
        indicator: reading_band(row.temperature).light_of(),
        bar: Seq::new(width as nat, |i: int| cell_color(row.temperature, width, i)),
    }
}

/// Lays out one row: its label, its reading in whole degrees, the colour
/// of its mark and its bar.
pub fn render_row(row: &FlatRow, width: u16) -> (result: RowCells)
    ensures
        result@ == cells_of(row@, width as int),
{
    let label = row.adapter.clone().concat(" | ").concat(row.input.as_str());
    let bar = render_bar(&row.temperature, width);
    proof {
        assert(bar@ =~= Seq::new(
            width as nat,
            |i: int| cell_color(row.temperature, width as int, i),
        ));
    }
    RowCells {
        label,
        degrees: row.temperature.to_whole_degrees(),
        indicator: indicator_color(&row.temperature),
        bar,
    }
}

impl ScrollbarCells {
    /// The cells of the scrollbar from the top: the upper arrow, the cells
    /// of the track, each of them thumb or free, and the lower arrow.
    pub open spec fn marks_of(self) -> Seq<Mark> {
        Seq::new(
            (self.bar.track_height + 2) as nat,
            |k: int|
                if k == 0 {
                    Mark::Up
                } else if k == self.bar.track_height + 1 {
                    Mark::Down
                } else if self.bar.covers(k - 1) {
                    Mark::Thumb
                } else {
                    Mark::Track
                },
        )
    }

    /// Lists the cells of the scrollbar from the top. The cell `k` of the
    /// list is drawn in the row `top + k`.
    pub fn marks(&self) -> (result: Vec<Mark>)
        requires
            self.bar.track_height + 2 <= usize::MAX,
        ensures
            result@ == self.marks_of(),
    {
        let mut result: Vec<Mark> = Vec::new();
        result.push(Mark::Up);
        let mut row: usize = 0;
        while row < self.bar.track_height
            invariant
                row <= self.bar.track_height,
                self.bar.track_height + 2 <= usize::MAX,
                result@.len() == row + 1,
                forall|k: int| 0 <= k <= row ==> #[trigger] result@[k] == self.marks_of()[k],
            decreases self.bar.track_height - row,
        {
            if self.bar.is_thumb(row) {
                result.push(Mark::Thumb);
            } else {
                result.push(Mark::Track);
            }
            row += 1;
        }
        result.push(Mark::Down);
        proof {
            assert(result@ =~= self.marks_of());
        }
        result
    }
}

/// The width of the help window, where the terminal is wide enough.
pub const HELP_WIDTH: u16 = 40;

/// The height of the help window, where the terminal is high enough.
pub const HELP_HEIGHT: u16 = 18;

impl Area {
    /// The right and the lower edge of the area lie within the largest
    /// terminal.
    pub open spec fn on_screen(self) -> bool {
        self.x + self.width <= u16::MAX && self.y + self.height <= u16::MAX
    }

    /// The area without one column at either side.
    pub open spec fn padded_of(self) -> Area {
        Area {
            x: (self.x + 1) as u16,
            y: self.y,
            width: if self.width >= 2 {
                (self.width - 2) as u16
            } else {
                0
            },
            height: self.height,
        }
    }

    /// Leaves out one column at either side of the area.
    pub fn padded(&self) -> (result: Area)
        requires
            self.x < u16::MAX,
        ensures
            result == self.padded_of(),
    {
        Area {
            x: self.x + 1,
            y: self.y,
            width: self.width.saturating_sub(2),
            height: self.height,
        }
    }

    /// The area of the help window: [`HELP_WIDTH`] by [`HELP_HEIGHT`]
    /// cells or as much as the area has, in the middle of the area.
    pub open spec fn help_of(self) -> Area {
        let width = if self.width < HELP_WIDTH {
            self.width
        } else {
            HELP_WIDTH
        };
        let height = if self.height < HELP_HEIGHT {
            self.height
        } else {
            HELP_HEIGHT
        };
        Area {
            x: (self.x + (self.width - width) / 2) as u16,
            y: (self.y + (self.height - height) / 2) as u16,
            width,
            height,
        }
    }

    /// Places the help window in the middle of the area.
    pub fn help_area(&self) -> (result: Area)
        requires
            self.on_screen(),
        ensures
            result == self.help_of(),
            result.on_screen(),
            self.x <= result.x,
            self.y <= result.y,
            result.x + result.width <= self.x + self.width,
            result.y + result.height <= self.y + self.height,
    {
        let width: u16 = if self.width < HELP_WIDTH {
            self.width
        } else {
            HELP_WIDTH
        };
        let height: u16 = if self.height < HELP_HEIGHT {
            self.height
        } else {
            HELP_HEIGHT
        };
        Area {
            x: self.x + (self.width - width) / 2,
            y: self.y + (self.height - height) / 2,
            width,
            height,
        }
    }
}

} // verus!
