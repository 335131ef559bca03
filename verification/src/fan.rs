//! The fan: its status lines as the dashboard shows them, and the commands
//! that set its speed.
//!
//! The status source is a short text of lines such as `speed:  2500`. Only
//! its first bytes and its first lines are read, and of each line only the
//! first two words.

use crate::views::views;
use crate::text::{chars_of, copy_range, find_run_end, lemma_run_end, run_end, Run};
use vstd::prelude::*;
use vstd::slice::slice_subrange;
use vstd::string::{StringExecFns, StringSliceAdditionalSpecFns};
use vstd::utf8::{decode_utf8, encode_utf8_decode_utf8, valid_utf8};

verus! {

/// The file that holds the fan status and takes the fan commands.
pub const PATH_FAN: &'static str = "/proc/acpi/ibm/fan";

/// The number of bytes that are read of the status source.
pub const READ_BUDGET: usize = 64;

/// The number of status lines that are shown.
pub const STATUS_LINES: usize = 3;

/// The width of the column that holds the value of a status line.
pub const VALUE_WIDTH: usize = 10;

/// Why the fan status could not be shown.
#[derive(Clone, Copy, Debug, PartialEq, Eq, Structural)]
pub enum FanStatusError {
    /// The status source could not be opened.
    SourceUnavailable,
    /// The status source could not be read.
    ReadFailure,
    /// What was read is not UTF-8.
    InvalidEncoding,
    /// What was read has fewer than three lines, or one of the first three
    /// lines has fewer than two words.
    UnexpectedFormat,
}

/// What reading the status source gave.
#[derive(Debug)]
pub enum StatusRead {
    /// The source could not be opened.
    Unavailable,
    /// The source was opened and could not be read.
    Failed,
    /// The bytes that were read.
    Data(Vec<u8>),
}

/// Where the line that starts at `from` stops: at the next line feed, or
/// at the end of the text.
pub open spec fn line_stop(text: Seq<char>, from: int) -> int {
    run_end(text, from, Run::Line)
}

/// The line that starts at `from`, without its line feed. A carriage
/// return before the line feed is white space, and so part of no word.
pub open spec fn line_at(text: Seq<char>, from: int) -> Seq<char> {
    text.subrange(from, line_stop(text, from))
}

/// Where line number `k` starts, counted from zero: the first at the start
/// of the text, each other behind the line feed of the line before.
pub open spec fn line_start(text: Seq<char>, k: nat) -> int
    decreases k,
{
    if k == 0 {
        0
    } else {
        line_stop(text, line_start(text, (k - 1) as nat)) + 1
    }
}

/// Whether the text has a line number `k`: the line starts inside the
/// text. A line feed at the very end opens no further line.
pub open spec fn has_line(text: Seq<char>, k: nat) -> bool {
    line_start(text, k) < text.len()
}

/// Where the first word at or behind `from` starts.
pub open spec fn word_start(line: Seq<char>, from: int) -> int {
    run_end(line, from, Run::Spaces)
}

/// Where the first word at or behind `from` stops.
pub open spec fn word_stop(line: Seq<char>, from: int) -> int {
    run_end(line, word_start(line, from), Run::Word)
}

/// Whether a line has two words.
pub open spec fn has_two_words(line: Seq<char>) -> bool {
    word_start(line, word_stop(line, 0)) < line.len()
}

/// The first word of a line.
pub open spec fn label_of(line: Seq<char>) -> Seq<char> {
    line.subrange(word_start(line, 0), word_stop(line, 0))
}

/// The second word of a line.
pub open spec fn value_of(line: Seq<char>) -> Seq<char> {
    let from = word_stop(line, 0);
    line.subrange(word_start(line, from), word_stop(line, from))
}

/// As many spaces as `value` lacks to `width` characters.
pub open spec fn padding(value: Seq<char>, width: int) -> Seq<char> {
    Seq::new(
        if value.len() < width {
            (width - value.len()) as nat
        } else {
            0
        },
        |i: int| ' ',
    )
}

/// A status line as it is shown: the label, a space, and the value set to
/// the right of a column of [`VALUE_WIDTH`] characters.
pub open spec fn shown_line(line: Seq<char>) -> Seq<char> {
    label_of(line).push(' ') + padding(value_of(line), VALUE_WIDTH as int) + value_of(line)
}

/// Whether a text holds a fan status: it has three lines, and each of the
/// first three lines has two words.
pub open spec fn is_status(text: Seq<char>) -> bool {
    &&& has_line(text, 2)
    &&& forall|k: nat|
        k < STATUS_LINES ==> has_two_words(#[trigger] line_at(text, line_start(text, k)))
}

/// The lines that are shown for a fan status.
pub open spec fn shown_status(text: Seq<char>) -> Seq<Seq<char>> {
    Seq::new(STATUS_LINES as nat, |k: int| shown_line(line_at(text, line_start(text, k as nat))))
}

/// The bytes that are read of a status source: its first [`READ_BUDGET`]
/// bytes.
pub open spec fn read_part(bytes: Seq<u8>) -> Seq<u8> {
    if bytes.len() > READ_BUDGET {
        bytes.take(READ_BUDGET as int)
    } else {
        bytes
    }
}

/// What is shown for the bytes that a status source holds.
pub open spec fn status_of_bytes(bytes: Seq<u8>) -> Result<Seq<Seq<char>>, FanStatusError> {
    let part = read_part(bytes);
    if !valid_utf8(part) {
        Err(FanStatusError::InvalidEncoding)
    } else if !is_status(decode_utf8(part)) {
        Err(FanStatusError::UnexpectedFormat)
    } else {
        Ok(shown_status(decode_utf8(part)))
    }
}

/// What is shown for the outcome of reading the status source.
pub open spec fn status_of_read(read: StatusRead) -> Result<Seq<Seq<char>>, FanStatusError> {
    match read {
        StatusRead::Unavailable => Err(FanStatusError::SourceUnavailable),
        StatusRead::Failed => Err(FanStatusError::ReadFailure),
        StatusRead::Data(bytes) => status_of_bytes(bytes@),
    }
}

/// Calls `core::str::from_utf8`. Assumed of it, as its documentation
/// says: it succeeds exactly on the byte sequences that are UTF-8, and
/// the string that it yields is made of the bytes that it was given.
#[verifier::external_body]
pub(crate) fn decode(bytes: &[u8]) -> (result: Option<&str>)
    ensures
        match result {
            Some(text) => valid_utf8(bytes@) && text.spec_bytes() == bytes@,
            None => !valid_utf8(bytes@),
        },
{
    core::str::from_utf8(bytes).ok()
}

/// Formats one status line. The result is `None` where the line has fewer
/// than two words.
pub fn format_line(line: &Vec<char>) -> (result: Option<String>)
    ensures
        match result {
            Some(shown) => has_two_words(line@) && shown@ == shown_line(line@),
            None => !has_two_words(line@),
        },
{
    proof {
        lemma_run_end(line@, 0, Run::Spaces);
    }
    let label_from = find_run_end(line, 0, Run::Spaces);
    let label_to = find_run_end(line, label_from, Run::Word);
    let value_from = find_run_end(line, label_to, Run::Spaces);
    if value_from >= line.len() {
        return None;
    }
    let value_to = find_run_end(line, value_from, Run::Word);
    let mut shown = String::new();
    let mut i: usize = label_from;
    while i < label_to
        invariant
            label_from <= i <= label_to <= line.len(),
            shown@ == line@.subrange(label_from as int, i as int),
        decreases label_to - i,
    {
        shown.push(line[i]);
        i += 1;
    }
    shown.push(' ');
    let length: usize = value_to - value_from;
    let ghost value = line@.subrange(value_from as int, value_to as int);
    let ghost start = label_of(line@).push(' ');
    let mut pad: usize = 0;
    proof {
        assert(shown@ =~= start + Seq::new(0, |i: int| ' '));
    }
    while length < VALUE_WIDTH && pad < VALUE_WIDTH - length
        invariant
            length == value.len(),
            length < VALUE_WIDTH ==> pad <= VALUE_WIDTH - length,
            length >= VALUE_WIDTH ==> pad == 0,
            shown@ == start + Seq::new(pad as nat, |i: int| ' '),
        decreases VALUE_WIDTH - pad,
    {
        shown.push(' ');
        proof {
            assert(shown@ =~= start + Seq::new((pad + 1) as nat, |i: int| ' '));
        }
        pad += 1;
    }
    proof {
        assert(Seq::new(pad as nat, |i: int| ' ') =~= padding(value, VALUE_WIDTH as int));
    }
    let ghost padded = shown@;
    let mut j: usize = value_from;
    while j < value_to
        invariant
            value_from <= j <= value_to <= line.len(),
            shown@ == padded + line@.subrange(value_from as int, j as int),
        decreases value_to - j,
    {
        shown.push(line[j]);
        proof {
            assert(shown@ =~= padded + line@.subrange(value_from as int, j + 1));
        }
        j += 1;
    }
    Some(shown)
}

/// The start of a line lies at or before the start of every later line,
/// and lines start at or after the beginning of the text.
pub proof fn lemma_line_starts(text: Seq<char>, k: nat)
    ensures
        0 <= line_start(text, k),
        has_line(text, k + 1) ==> has_line(text, k),
        line_start(text, k) <= text.len() ==> line_start(text, k) <= line_stop(
            text,
            line_start(text, k),
        ) <= text.len(),
    decreases k,
{
    if k > 0 {
        lemma_line_starts(text, (k - 1) as nat);
        if line_start(text, (k - 1) as nat) <= text.len() {
            lemma_run_end(text, line_start(text, (k - 1) as nat), Run::Line);
        }
    }
    if 0 <= line_start(text, k) <= text.len() {
        lemma_run_end(text, line_start(text, k), Run::Line);
    }
}

/// Formats the fan status that a text holds: its first three lines, each
/// as its label and its value. The error is
/// [`FanStatusError::UnexpectedFormat`] where the text is no fan status.
pub fn format_status(chars: &Vec<char>) -> (result: Result<Vec<String>, FanStatusError>)
    ensures
        match result {
            Ok(lines) => is_status(chars@) && views(lines@) == shown_status(chars@),
            Err(error) => error == FanStatusError::UnexpectedFormat && !is_status(chars@),
        },
{
    let mut lines: Vec<String> = Vec::new();
    let mut from: usize = 0;
    let mut ended = false;
    let mut k: usize = 0;
    while k < STATUS_LINES
        invariant
            k <= STATUS_LINES,
            from <= chars.len(),
            !ended ==> from == line_start(chars@, k as nat),
            ended ==> line_start(chars@, k as nat) == chars.len() + 1,
            lines@.len() == k,
            forall|i: nat| i < k ==> has_line(chars@, i),
            forall|i: nat|
                i < k ==> has_two_words(#[trigger] line_at(chars@, line_start(chars@, i))),
            forall|i: int|
                0 <= i < k ==> (#[trigger] lines@[i])@ == shown_line(
                    line_at(chars@, line_start(chars@, i as nat)),
                ),
        decreases STATUS_LINES - k,
    {
        if ended || from >= chars.len() {
            proof {
                assert(!has_line(chars@, k as nat));
                lemma_line_starts(chars@, k as nat);
                lemma_line_starts(chars@, (k + 1) as nat);
            }
            return Err(FanStatusError::UnexpectedFormat);
        }
        let stop = find_run_end(chars, from, Run::Line);
        let line = copy_range(chars, from, stop);
        match format_line(&line) {
            Some(shown) => {
                lines.push(shown);
            },
            None => {
                proof {
                    assert(!has_two_words(line_at(chars@, line_start(chars@, k as nat))));
                }
                return Err(FanStatusError::UnexpectedFormat);
            },
        }
        if stop == chars.len() {
            ended = true;
        } else {
            from = stop + 1;
        }
        k += 1;
    }
    proof {
        assert(views(lines@) =~= shown_status(chars@));
    }
    Ok(lines)
}

/// Formats the fan status that the bytes of the status source hold. Only
/// the first [`READ_BUDGET`] bytes count.
pub fn status_from_bytes(bytes: &Vec<u8>) -> (result: Result<Vec<String>, FanStatusError>)
    ensures
        match result {
            Ok(lines) => status_of_bytes(bytes@) == Ok::<Seq<Seq<char>>, FanStatusError>(
                views(lines@),
            ),
            Err(error) => status_of_bytes(bytes@) == Err::<Seq<Seq<char>>, FanStatusError>(error),
        },
{
    let length: usize = if bytes.len() > READ_BUDGET {
        READ_BUDGET
    } else {
        bytes.len()
    };
    let part = slice_subrange(bytes.as_slice(), 0, length);
    proof {
        assert(part@ =~= read_part(bytes@));
    }
    match decode(part) {
        None => Err(FanStatusError::InvalidEncoding),
        Some(text) => {
            proof {
                encode_utf8_decode_utf8(text@);
            }
            format_status(&chars_of(text))
        },
    }
}

/// Turns the outcome of reading the status source into the lines to show,
/// or into the reason why there are none.
pub fn read_fan(read: &StatusRead) -> (result: Result<Vec<String>, FanStatusError>)
    ensures
        match result {
            Ok(lines) => status_of_read(*read) == Ok::<Seq<Seq<char>>, FanStatusError>(
                views(lines@),
            ),
            Err(error) => status_of_read(*read) == Err::<Seq<Seq<char>>, FanStatusError>(error),
        },
{
    match read {
        StatusRead::Unavailable => Err(FanStatusError::SourceUnavailable),
        StatusRead::Failed => Err(FanStatusError::ReadFailure),
        StatusRead::Data(bytes) => status_from_bytes(bytes),
    }
}

impl FanStatusError {
    /// The line that is shown in place of the status.
    pub open spec fn message_of(self) -> Seq<char> {
        match self {
            FanStatusError::SourceUnavailable => "Failed to open file: "@ + PATH_FAN@,
            FanStatusError::ReadFailure => "Failed to read from file: "@ + PATH_FAN@,
            FanStatusError::InvalidEncoding => "Invalid UTF-8 in file: "@ + PATH_FAN@,
            FanStatusError::UnexpectedFormat => "Unexpected number of lines in file: "@
                + PATH_FAN@,
        }
    }

    /// The line that is shown in place of the status.
    pub fn message(&self) -> (result: String)
        ensures
            result@ == self.message_of(),
    {
        let start = match self {
            FanStatusError::SourceUnavailable => "Failed to open file: ",
            FanStatusError::ReadFailure => "Failed to read from file: ",
            FanStatusError::InvalidEncoding => "Invalid UTF-8 in file: ",
            FanStatusError::UnexpectedFormat => "Unexpected number of lines in file: ",
        };
        String::from_str(start).concat(PATH_FAN)
    }
}

/// One of the fan levels 0 to 7.
#[derive(Clone, Copy, Debug, PartialEq, Eq, Structural)]
pub struct Level {
    number: u8,
}

impl Level {
    #[verifier::type_invariant]
    spec fn in_range(self) -> bool {
        self.number <= 7
    }

    /// The number of the level.
    pub closed spec fn number_of(self) -> int {
        self.number as int
    }

    /// The level with the number `number`, for a number from 0 to 7.
    pub closed spec fn of_number(number: int) -> Level {
        Level { number: number as u8 }
    }

    /// A level is told by its number.
    pub proof fn lemma_number(number: int)
        requires
            0 <= number <= 7,
        ensures
            Level::of_number(number).number_of() == number,
    {
    }

    /// The level with the given number, if there is one.
    pub fn new(number: u8) -> (result: Option<Level>)
        ensures
            result == if number <= 7 {
                Some(Level::of_number(number as int))
            } else {
                None::<Level>
            },
    {
        if number <= 7 {
            Some(Level { number })
        } else {
            None
        }
    }

    /// The number of the level.
    pub fn number(&self) -> (result: u8)
        ensures
            result == self.number_of(),
            result <= 7,
    {
        proof {
            use_type_invariant(self);
        }
        self.number
    }
}

/// A command that the fan takes.
#[derive(Clone, Copy, Debug, PartialEq, Eq, Structural)]
pub enum FanCommand {
    /// Leave the speed to the firmware.
    Auto,
    /// Run at full speed.
    FullSpeed,
    /// Run at a fixed level.
    Level(Level),
}

impl FanCommand {
    /// The command that a key asks for: `a` asks for auto, `f` for full
    /// speed, a digit from `0` to `7` for that level, and any other key
    /// for nothing.
    pub open spec fn of_key(key: char) -> Option<FanCommand> {
        if key == 'a' {
            Some(FanCommand::Auto)
        } else if key == 'f' {
            Some(FanCommand::FullSpeed)
        } else if '0' <= key <= '7' {
            Some(FanCommand::Level(Level::of_number(key as int - '0' as int)))
        } else {
            None
        }
    }

    /// The command that a key asks for, if it asks for one.
    pub fn from_key(key: char) -> (result: Option<FanCommand>)
        ensures
            result == FanCommand::of_key(key),
    {
        if key == 'a' {
            Some(FanCommand::Auto)
        } else if key == 'f' {
            Some(FanCommand::FullSpeed)
        } else if '0' <= key && key <= '7' {
            match Level::new((key as u32 - '0' as u32) as u8) {
                Some(level) => Some(FanCommand::Level(level)),
                None => None,
            }
        } else {
            None
        }
    }

    /// The digit that writes the number `number`.
    pub open spec fn digit(number: int) -> char {
        (number + '0' as int) as char
    }

    /// The text that is written to the fan: `level auto`,
    /// `level full-speed`, or `level` and the number of the level.
    pub open spec fn text_of(self) -> Seq<char> {
        match self {
            FanCommand::Auto => "level auto"@,
            FanCommand::FullSpeed => "level full-speed"@,
            FanCommand::Level(level) => "level "@.push(FanCommand::digit(level.number_of())),
        }
    }

    /// The text that is written to the fan.
    pub fn text(&self) -> (result: String)
        ensures
            result@ == self.text_of(),
    {
        match self {
            FanCommand::Auto => String::from_str("level auto"),
            FanCommand::FullSpeed => String::from_str("level full-speed"),
            FanCommand::Level(level) => {
                let mut result = String::from_str("level ");
                result.push((level.number() + 48u8) as char);
                result
            },
        }
    }

    /// The message that is shown where the command could not be written.
    pub open spec fn failure_of(self) -> Seq<char> {
        "Failed to write command '"@ + self.text_of() + "' to "@ + PATH_FAN@
    }

    /// The message that is shown where the command could not be written.
    pub fn failure(&self) -> (result: String)
        ensures
            result@ == self.failure_of(),
    {
        let text = self.text();
        String::from_str("Failed to write command '").concat(text.as_str()).concat("' to ").concat(
            PATH_FAN,
        )
    }
}

/// Whether the helper that hands the fan file over to the user did so: it
/// ended without a signal and with the exit code zero.
pub fn ownership_changed(succeeded: bool, exit_code: Option<i32>) -> (result: bool)
    ensures
        result == (succeeded && exit_code == Some(0i32)),
{
    match exit_code {
        Some(code) => succeeded && code == 0,
        None => false,
    }
}

} // verus!
