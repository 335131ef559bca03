//! The state of the dashboard and the steps that change it.
//!
//! One record holds what the dashboard shows and what the user asked for.
//! Each turn of the main loop hands the fresh sensor report and fan status
//! to the record, lays out the frame for the size of the terminal, draws
//! it, and hands over the keys that were pressed.

use crate::fan::{read_fan, status_of_read, FanCommand, StatusRead};
use crate::frame::{cells_of, render_row, Area, Frame, RowCells, ScrollbarCells};
use crate::rows::{flat_rows, flatten, listed_range, listed_rows, RowModel};
use crate::sensors::{
    adapters_of, distinct_adapters, parse_adapters, report_of, Adapter, SensorError,
};
use crate::views::{lemma_views_push, views};
use crate::viewport::{
    clamped_scroll, end_row_of, lemma_window_unique, max_scroll_of, terminal_window,
    visible_rows_of, window,
};
use vstd::prelude::*;

verus! {

/// A key of the keyboard, as far as the dashboard tells keys apart.
#[derive(Clone, Copy, Debug, PartialEq, Eq, Structural)]
pub enum Key {
    /// A key that types a character.
    Char(char),
    Esc,
    Up,
    Down,
    PageUp,
    PageDown,
    /// Any other key.
    Other,
}

/// What happened to a key.
#[derive(Clone, Copy, Debug, PartialEq, Eq, Structural)]
pub enum KeyKind {
    Press,
    Repeat,
    Release,
}

/// The state of the dashboard.
#[derive(Debug)]
pub struct App {
    /// Whether the user asked to quit.
    pub exit: bool,
    /// Whether the help window is shown.
    pub show_help: bool,
    /// The lines of the fan block.
    pub lines: Vec<String>,
    /// The adapters of the last sensor report that could be read.
    pub adapters: Vec<Adapter>,
    /// The fan command that waits to be written.
    pub fan_command: Option<FanCommand>,
    /// The message of the last fan command that could not be written;
    /// empty where there is none.
    pub current_error: String,
    /// The terminal rows that inputs are drawn on.
    pub visible_rows: usize,
    /// The first row of the list that is on screen.
    pub scroll_offset: usize,
    /// The first visible row.
    pub start_row: usize,
    /// The row behind the last visible one.
    pub end_row: usize,
    /// Whether the inputs are listed by descending temperature.
    pub sort_by_temp: bool,
}

/// The lines of the fan block: the fan status, or the message that says
/// why there is none, and below it the message of a fan command that
/// could not be written.
pub open spec fn header_lines(read: StatusRead, error: Seq<char>) -> Seq<Seq<char>> {
    let status = match status_of_read(read) {
        Ok(lines) => lines,
        Err(failure) => seq![failure.message_of()],
    };
    if error.len() > 0 {
        status.push(error)
    } else {
        status
    }
}

/// The state after a key was pressed.
///
/// `?` shows or hides the help window and `Esc` hides it; `q` quits; `s`
/// turns sorting on or off; `a`, `f` and the digits `0` to `7` set the
/// fan command that waits to be written, in place of any that waited
/// before; the arrow keys scroll by one input, which is two rows, and the
/// page keys by the visible rows. Scrolling stops at zero and at the
/// largest number; the next frame brings the offset into range.
pub open spec fn after_key(app: App, key: Key) -> App {
    match key {
        Key::Esc => App { show_help: false, ..app },
        Key::Down => App { scroll_offset: app.scroll_offset.saturating_add(2), ..app },
        Key::Up => App { scroll_offset: app.scroll_offset.saturating_sub(2), ..app },
        Key::PageDown => App {
            scroll_offset: app.scroll_offset.saturating_add(app.visible_rows),
            ..app
        },
        Key::PageUp => App {
            scroll_offset: app.scroll_offset.saturating_sub(app.visible_rows),
            ..app
        },
        Key::Char(c) => if c == '?' {
            App { show_help: !app.show_help, ..app }
        } else if c == 'q' {
            App { exit: true, ..app }
        } else if c == 's' {
            App { sort_by_temp: !app.sort_by_temp, ..app }
        } else {
            match FanCommand::of_key(c) {
                Some(command) => App { fan_command: Some(command), ..app },
                None => app,
            }
        },
        Key::Other => app,
    }
}

impl App {
    /// The rows of the list: one for each input of each adapter.
    pub open spec fn rows(self) -> Seq<RowModel> {
        flat_rows(views(self.adapters@))
    }

    /// The number of rows of the list: two for each input.
    pub open spec fn row_total(self) -> int {
        2 * self.rows().len() as int
    }

    /// Whether the frame is what the dashboard shows inside the border of
    /// the temperature block: the window onto the listed rows for the
    /// scroll offset, the cells of the rows that the window holds, with
    /// bars as wide as the padded area, and the scrollbar on the right
    /// border.
    pub open spec fn draws(self, frame: Frame, inner: Area) -> bool {
        &&& frame.window.shows(
            self.rows().len() as int,
            inner.height as int,
            self.scroll_offset as int,
        )
        &&& frame.padded == inner.padded_of()
        &&& views(frame.rows@) == listed_rows(self.rows(), self.sort_by_temp).subrange(
            frame.window.first_input as int,
            frame.window.last_input as int,
        ).map_values(|row: RowModel| cells_of(row, frame.padded.width as int))
        &&& frame.scrollbar == match frame.window.scrollbar {
            Some(bar) => Some(
                ScrollbarCells { column: (inner.x + inner.width) as u16, top: inner.y, bar },
            ),
            None => None,
        }
    }

    /// The dashboard before the first report: nothing to show, no key
    /// pressed, sorting on.
    pub fn new() -> (result: App)
        ensures
            !result.exit,
            !result.show_help,
            result.lines@.len() == 0,
            result.adapters@.len() == 0,
            result.fan_command is None,
            result.current_error@.len() == 0,
            result.visible_rows == 0,
            result.scroll_offset == 0,
            result.start_row == 0,
            result.end_row == 0,
            result.sort_by_temp,
    {
        App {
            exit: false,
            show_help: false,
            lines: Vec::new(),
            adapters: Vec::new(),
            fan_command: None,
            current_error: String::new(),
            visible_rows: 0,
            scroll_offset: 0,
            start_row: 0,
            end_row: 0,
            sort_by_temp: true,
        }
    }

    /// Marks the dashboard as finished.
    pub fn exit(&mut self)
        ensures
            *final(self) == (App { exit: true, ..*old(self) }),
    {
        self.exit = true;
    }

    /// Takes a key that was pressed.
    pub fn handle_key_event(&mut self, key: Key)
        ensures
            *final(self) == after_key(*old(self), key),
    {
        match key {
            Key::Esc => {
                self.show_help = false;
            },
            Key::Down => {
                self.scroll_offset = self.scroll_offset.saturating_add(2);
            },
            Key::Up => {
                self.scroll_offset = self.scroll_offset.saturating_sub(2);
            },
            Key::PageDown => {
                self.scroll_offset = self.scroll_offset.saturating_add(self.visible_rows);
            },
            Key::PageUp => {
                self.scroll_offset = self.scroll_offset.saturating_sub(self.visible_rows);
            },
            Key::Char(c) => {
                if c == '?' {
                    self.show_help = !self.show_help;
                } else if c == 'q' {
                    self.exit();
                } else if c == 's' {
                    self.sort_by_temp = !self.sort_by_temp;
                } else {
                    match FanCommand::from_key(c) {
                        Some(command) => {
                            self.fan_command = Some(command);
                        },
                        None => {},
                    }
                }
            },
            Key::Other => {},
        }
    }

    /// Takes a key event. Only a key that was pressed counts; a key that
    /// repeats or is released changes nothing.
    pub fn handle_event(&mut self, kind: KeyKind, key: Key)
        ensures
            *final(self) == if kind == KeyKind::Press {
                after_key(*old(self), key)
            } else {
                *old(self)
            },
    {
        if kind == KeyKind::Press {
            self.handle_key_event(key);
        }
    }

    /// Takes a fresh sensor report. A report that can be read replaces the
    /// adapters; one that cannot leaves the last adapters in place and is
    /// answered with the error.
    pub fn read_temperatures(&mut self, report: &str) -> (result: Result<(), SensorError>)
        ensures
            match result {
                Ok(_) => {
                    &&& report_of(report@) matches Some(chips) && views(final(self).adapters@)
                        == adapters_of(chips)
                    &&& distinct_adapters(views(final(self).adapters@))
                    &&& *final(self) == (App { adapters: final(self).adapters, ..*old(self) })
                },
                Err(error) => {
                    &&& error == SensorError::MalformedInput
                    &&& report_of(report@) is None
                    &&& *final(self) == *old(self)
                },
            },
    {
        match parse_adapters(report) {
            Ok(adapters) => {
                self.adapters = adapters;
                Ok(())
            },
            Err(error) => Err(error),
        }
    }

    /// Takes the outcome of reading the fan status and sets the lines of
    /// the fan block.
    pub fn read_fan(&mut self, read: &StatusRead)
        ensures
            views(final(self).lines@) == header_lines(*read, old(self).current_error@),
            *final(self) == (App { lines: final(self).lines, ..*old(self) }),
    {
        let mut lines = match read_fan(read) {
            Ok(lines) => lines,
            Err(failure) => {
                let mut lines: Vec<String> = Vec::new();
                let message = failure.message();
                proof {
                    lemma_views_push(lines@, message);
                    assert(views(lines@) =~= Seq::empty());
                    assert(Seq::<Seq<char>>::empty().push(message@) =~= seq![message@]);
                }
                lines.push(message);
                lines
            },
        };
        if self.current_error.as_str().unicode_len() > 0 {
            let message = self.current_error.clone();
            proof {
                lemma_views_push(lines@, message);
            }
            lines.push(message);
        }
        self.lines = lines;
    }

    /// The fan command that waits to be written, if one does.
    pub fn pending_command(&self) -> (result: Option<FanCommand>)
        ensures
            result == self.fan_command,
    {
        self.fan_command
    }

    /// Records what became of writing the fan command that waited: it
    /// waits no longer, and the message of the dashboard is empty where it
    /// was written and says that it could not be written where it was
    /// not. Where no command waited, nothing changes.
    pub fn command_done(&mut self, written: bool)
        ensures
            match old(self).fan_command {
                Some(command) => {
                    &&& final(self).fan_command is None
                    &&& final(self).current_error@ == if written {
                        Seq::<char>::empty()
                    } else {
                        command.failure_of()
                    }
                    &&& *final(self) == (App {
                        fan_command: None,
                        current_error: final(self).current_error,
                        ..*old(self)
                    })
                },
                None => *final(self) == *old(self),
            },
    {
        match self.fan_command {
            Some(command) => {
                if written {
                    self.current_error = String::new();
                } else {
                    self.current_error = command.failure();
                }
                self.fan_command = None;
            },
            None => {},
        }
    }

    /// The height of the fan block: its lines and its border, as far as a
    /// terminal can be high.
    pub fn header_height(&self) -> (result: u16)
        ensures
            result == if self.lines@.len() + 2 <= u16::MAX {
                self.lines@.len() + 2
            } else {
                u16::MAX as nat
            },
    {
        if self.lines.len() <= u16::MAX as usize - 2 {
            self.lines.len() as u16 + 2
        } else {
            u16::MAX
        }
    }

    /// The number of rows of the list, two for each input; `None` where
    /// the number is too large to be counted.
    pub fn total_rows(&self) -> (result: Option<usize>)
        ensures
            match result {
                Some(total) => total == self.row_total(),
                None => self.row_total() > usize::MAX,
            },
    {
        let rows = flatten(&self.adapters);
        if rows.len() > usize::MAX / 2 {
            None
        } else {
            Some(2 * rows.len())
        }
    }

    /// Lays out the next frame for a terminal of the given height: sets
    /// the visible rows, brings the scroll offset into range, and sets the
    /// first and last visible row.
    pub fn begin_frame(&mut self, terminal_height: usize)
        requires
            old(self).row_total() <= usize::MAX,
        ensures
            final(self).visible_rows == visible_rows_of(
                terminal_height as int,
                old(self).lines@.len() as int,
            ),
            final(self).scroll_offset == clamped_scroll(
                old(self).row_total(),
                final(self).visible_rows as int,
                old(self).scroll_offset as int,
            ),
            final(self).scroll_offset % 2 == 0,
            final(self).scroll_offset <= max_scroll_of(
                old(self).row_total(),
                final(self).visible_rows as int,
            ),
            final(self).start_row == final(self).scroll_offset,
            final(self).end_row == end_row_of(
                final(self).start_row as int,
                final(self).visible_rows as int,
                old(self).row_total(),
            ),
            *final(self) == (App {
                visible_rows: final(self).visible_rows,
                scroll_offset: final(self).scroll_offset,
                start_row: final(self).start_row,
                end_row: final(self).end_row,
                ..*old(self)
            }),
    {
        let rows = flatten(&self.adapters);
        let shown = terminal_window(
            rows.len(),
            terminal_height,
            self.lines.len(),
            self.scroll_offset,
        );
        self.visible_rows = shown.visible_rows;
        self.scroll_offset = shown.scroll_offset;
        self.start_row = shown.start_row;
        self.end_row = shown.end_row;
    }

    /// Draws the temperature block into the area inside its border: the
    /// inputs that are on screen, in the order in which they are listed,
    /// and the scrollbar.
    pub fn render(&self, inner: Area) -> (frame: Frame)
        requires
            self.row_total() <= usize::MAX,
            inner.on_screen(),
            inner.x < u16::MAX,
        ensures
            self.draws(frame, inner),
            frame.scrollbar matches Some(cells) ==> cells.top + cells.bar.track_height + 1
                <= u16::MAX,
    {
        let rows = flatten(&self.adapters);
        let shown = window(rows.len(), inner.height as usize, self.scroll_offset);
        let padded = inner.padded();
        let visible = listed_range(&rows, self.sort_by_temp, shown.first_input, shown.last_input);
        let mut cells: Vec<RowCells> = Vec::new();
        let mut i: usize = 0;
        let ghost listed = listed_rows(self.rows(), self.sort_by_temp).subrange(
            shown.first_input as int,
            shown.last_input as int,
        );
        while i < visible.len()
            invariant
                i <= visible.len(),
                views(visible@) == listed,
                cells@.len() == i,
                forall|k: int|
                    0 <= k < i ==> (#[trigger] cells@[k])@ == cells_of(
                        listed[k],
                        padded.width as int,
                    ),
            decreases visible.len() - i,
        {
            let row = render_row(&visible[i], padded.width);
            proof {
                assert(views(visible@)[i as int] == visible@[i as int]@);
            }
            cells.push(row);
            i += 1;
        }
        proof {
            assert(views(cells@) =~= listed.map_values(
                |row: RowModel| cells_of(row, padded.width as int),
            ));
        }
        let scrollbar = match shown.scrollbar {
            Some(bar) => Some(ScrollbarCells { column: inner.x + inner.width, top: inner.y, bar }),
            None => None,
        };
        Frame { window: shown, padded, rows: cells, scrollbar }
    }
}

/// Drawing the same state twice into the same area shows the same window,
/// the same rows and the same scrollbar.
pub proof fn lemma_render_repeats(app: App, first: Frame, second: Frame, inner: Area)
    requires
        app.draws(first, inner),
        app.draws(second, inner),
    ensures
        first.window == second.window,
        first.padded == second.padded,
        views(first.rows@) == views(second.rows@),
        first.scrollbar == second.scrollbar,
{
    lemma_window_unique(
        first.window,
        second.window,
        app.rows().len() as int,
        inner.height as int,
        app.scroll_offset as int,
    );
}

/// Turning sorting off and on again leaves the state as it was, and with
/// it the order in which the rows are listed.
pub proof fn lemma_sort_toggled_twice(app: App)
    ensures
        after_key(after_key(app, Key::Char('s')), Key::Char('s')) == app,
        after_key(app, Key::Char('s')).rows() == app.rows(),
{
}

} // verus!
