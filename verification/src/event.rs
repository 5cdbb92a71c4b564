//! The event codec: from a dot-separated identifier and a free-form payload
//! to one event of a closed set of shapes.
//!
//! The identifier is cut at every `.`; the leading pieces select the shape
//! and carry its integer arguments. Pieces after those that a shape asks for
//! are ignored. Whatever fits no shape becomes [`LogEvent::Unknown`], which
//! keeps the identifier as it was written.
//!
//! | identifier                              | event                         |
//! |-----------------------------------------|-------------------------------|
//! | `synth.start.<index>.<line>.<examples>` | `SynthStart`                  |
//! | `synth.end.<index>.<exit code>`         | `SynthEnd`, payload as result |
//! | `synth.stdout`                          | `SynthOut(payload)`           |
//! | `synth.stderr`                          | `SynthErr(payload)`           |
//! | `focus.projectionBox.focus.custom`      | `PBFocusCustom(payload)`      |
//! | `focus.projectionBox.focus.default`     | `PBFocusDefault(payload)`     |
//! | `focus.projectionBox.exit`              | `PBExit`                      |
//! | `focus.example.<index>.blur`            | `ExampleBlur`                 |
//! | `focus.example.<index>.focus`           | `ExampleFocus`                |
//! | `example.<index>.change`                | `ExampleChanged`              |
//! | `example.<index>.include`               | `ExampleInclude`              |
//! | `example.<index>.exclude`               | `ExampleExclude`              |
//! | `example.all.reset`                     | `ExampleReset`                |

use crate::decimal::{
    decimal, i32_of, is_digit, lemma_decimal_reads_back, parse_i32, parse_u32, parse_usize,
    u32_of, usize_of,
};
use crate::text::{
    chars_of, find_from, free_of, is_word, join, lemma_split_join, lemma_split_pieces,
    piece_views, split, split_chars,
};
use vstd::prelude::*;
use vstd::string::*;

verus! {

/// One decoded log event.
#[derive(Debug, Clone, PartialEq, Eq)]
pub enum LogEvent {
    /// A synthesis call began.
    SynthStart { index: usize, line_no: u32, example_count: u32 },
    /// Standard output of the synthesizer.
    SynthOut(String),
    /// Standard error of the synthesizer.
    SynthErr(String),
    /// A synthesis call ended.
    SynthEnd { index: usize, exit_code: i32, result: String },
    /// Focus moved to a generated default output.
    PBFocusDefault(String),
    /// Focus moved to a user-supplied output.
    PBFocusCustom(String),
    /// Focus left the projection box.
    PBExit,
    /// Focus left an example.
    ExampleBlur { index: usize, content: String },
    /// Focus entered an example.
    ExampleFocus { index: usize, content: String },
    /// An example was edited.
    ExampleChanged { index: usize, before: String, after: String },
    /// An example was added to the active set.
    ExampleInclude { index: usize, content: String },
    /// An example was taken out of the active set.
    ExampleExclude { index: usize, content: String },
    /// All examples were reset.
    ExampleReset,
    /// Anything else; holds the identifier as written.
    Unknown(String),
}

/// What a [`LogEvent`] stands for: the same shapes over character sequences.
pub enum EventView {
    SynthStart { index: usize, line_no: u32, example_count: u32 },
    SynthOut(Seq<char>),
    SynthErr(Seq<char>),
    SynthEnd { index: usize, exit_code: i32, result: Seq<char> },
    PBFocusDefault(Seq<char>),
    PBFocusCustom(Seq<char>),
    PBExit,
    ExampleBlur { index: usize, content: Seq<char> },
    ExampleFocus { index: usize, content: Seq<char> },
    ExampleChanged { index: usize, before: Seq<char>, after: Seq<char> },
    ExampleInclude { index: usize, content: Seq<char> },
    ExampleExclude { index: usize, content: Seq<char> },
    ExampleReset,
    Unknown(Seq<char>),
}

impl View for LogEvent {
    type V = EventView;

    open spec fn view(&self) -> EventView {
        match *self {
            LogEvent::SynthStart { index, line_no, example_count } => EventView::SynthStart {
                index,
                line_no,
                example_count,
            },
            LogEvent::SynthOut(text) => EventView::SynthOut(text@),
            LogEvent::SynthErr(text) => EventView::SynthErr(text@),
            LogEvent::SynthEnd { index, exit_code, result } => EventView::SynthEnd {
                index,
                exit_code,
                result: result@,
            },
            LogEvent::PBFocusDefault(text) => EventView::PBFocusDefault(text@),
            LogEvent::PBFocusCustom(text) => EventView::PBFocusCustom(text@),
            LogEvent::PBExit => EventView::PBExit,
            LogEvent::ExampleBlur { index, content } => EventView::ExampleBlur {
                index,
                content: content@,
            },
            LogEvent::ExampleFocus { index, content } => EventView::ExampleFocus {
                index,
                content: content@,
            },
            LogEvent::ExampleChanged { index, before, after } => EventView::ExampleChanged {
                index,
                before: before@,
                after: after@,
            },
            LogEvent::ExampleInclude { index, content } => EventView::ExampleInclude {
                index,
                content: content@,
            },
            LogEvent::ExampleExclude { index, content } => EventView::ExampleExclude {
                index,
                content: content@,
            },
            LogEvent::ExampleReset => EventView::ExampleReset,
            LogEvent::Unknown(text) => EventView::Unknown(text@),
        }
    }
}

impl EventView {
    /// The correlation index of the event, for the shapes that carry one.
    pub open spec fn index(self) -> Option<usize> {
        match self {
            EventView::SynthStart { index, .. } => Some(index),
            EventView::SynthEnd { index, .. } => Some(index),
            EventView::ExampleBlur { index, .. } => Some(index),
            EventView::ExampleFocus { index, .. } => Some(index),
            EventView::ExampleChanged { index, .. } => Some(index),
            EventView::ExampleInclude { index, .. } => Some(index),
            EventView::ExampleExclude { index, .. } => Some(index),
            _ => None,
        }
    }

    /// The source line at which a synthesis call began.
    pub open spec fn lineno(self) -> Option<u32> {
        match self {
            EventView::SynthStart { line_no, .. } => Some(line_no),
            _ => None,
        }
    }
}

/// The piece at position `at` is exactly `word`.
pub open spec fn word_at(pieces: Seq<Seq<char>>, at: int, word: Seq<char>) -> bool {
    0 <= at < pieces.len() && pieces[at] == word
}

/// The `usize` written by the piece at position `at`, if there is such a
/// piece and it is one.
pub open spec fn usize_at(pieces: Seq<Seq<char>>, at: int) -> Option<usize> {
    if 0 <= at < pieces.len() {
        usize_of(pieces[at])
    } else {
        None
    }
}

/// The `u32` written by the piece at position `at`.
pub open spec fn u32_at(pieces: Seq<Seq<char>>, at: int) -> Option<u32> {
    if 0 <= at < pieces.len() {
        u32_of(pieces[at])
    } else {
        None
    }
}

/// The `i32` written by the piece at position `at`.
pub open spec fn i32_at(pieces: Seq<Seq<char>>, at: int) -> Option<i32> {
    if 0 <= at < pieces.len() {
        i32_of(pieces[at])
    } else {
        None
    }
}

/// The event of an identifier whose first piece is `synth`.
pub open spec fn synth_event(pieces: Seq<Seq<char>>, payload: Seq<char>) -> Option<EventView> {
    if word_at(pieces, 1, "start"@) {
        match (usize_at(pieces, 2), u32_at(pieces, 3), u32_at(pieces, 4)) {
            (Some(index), Some(line_no), Some(example_count)) => Some(
                EventView::SynthStart { index, line_no, example_count },
            ),
            _ => None,
        }
    } else if word_at(pieces, 1, "end"@) {
        match (usize_at(pieces, 2), i32_at(pieces, 3)) {
            (Some(index), Some(exit_code)) => Some(
                EventView::SynthEnd { index, exit_code, result: payload },
            ),
            _ => None,
        }
    } else if word_at(pieces, 1, "stdout"@) {
        Some(EventView::SynthOut(payload))
    } else if word_at(pieces, 1, "stderr"@) {
        Some(EventView::SynthErr(payload))
    } else {
        None
    }
}

/// The event of an identifier whose first piece is `focus`.
pub open spec fn focus_event(pieces: Seq<Seq<char>>, payload: Seq<char>) -> Option<EventView> {
    if word_at(pieces, 1, "projectionBox"@) {
        if word_at(pieces, 2, "focus"@) {
            if word_at(pieces, 3, "custom"@) {
                Some(EventView::PBFocusCustom(payload))
            } else if word_at(pieces, 3, "default"@) {
                Some(EventView::PBFocusDefault(payload))
            } else {
                None
            }
        } else if word_at(pieces, 2, "exit"@) {
            Some(EventView::PBExit)
        } else {
            None
        }
    } else if word_at(pieces, 1, "example"@) {
        match usize_at(pieces, 2) {
            Some(index) => if word_at(pieces, 3, "blur"@) {
                Some(EventView::ExampleBlur { index, content: payload })
            } else if word_at(pieces, 3, "focus"@) {
                Some(EventView::ExampleFocus { index, content: payload })
            } else {
                None
            },
            None => None,
        }
    } else {
        None
    }
}

/// The event of an identifier whose first piece is `example`. The payload
/// of a change is cut at its commas: the first piece is the text before the
/// edit, the second the text after it, and there must be both.
pub open spec fn example_event(pieces: Seq<Seq<char>>, payload: Seq<char>) -> Option<EventView> {
    if word_at(pieces, 1, "all"@) {
        if word_at(pieces, 2, "reset"@) {
            Some(EventView::ExampleReset)
        } else {
            None
        }
    } else {
        match usize_at(pieces, 1) {
            Some(index) => if word_at(pieces, 2, "change"@) {
                let sides = split(payload, ',');
                if sides.len() >= 2 {
                    Some(EventView::ExampleChanged { index, before: sides[0], after: sides[1] })
                } else {
                    None
                }
            } else if word_at(pieces, 2, "include"@) {
                Some(EventView::ExampleInclude { index, content: payload })
            } else if word_at(pieces, 2, "exclude"@) {
                Some(EventView::ExampleExclude { index, content: payload })
            } else {
                None
            },
            None => None,
        }
    }
}

/// The event that the pieces of an identifier and a payload spell, when
/// they fit one of the defined shapes.
pub open spec fn recognize(pieces: Seq<Seq<char>>, payload: Seq<char>) -> Option<EventView> {
    if word_at(pieces, 0, "synth"@) {
        synth_event(pieces, payload)
    } else if word_at(pieces, 0, "focus"@) {
        focus_event(pieces, payload)
    } else if word_at(pieces, 0, "example"@) {
        example_event(pieces, payload)
    } else {
        None
    }
}

/// The event that `identifier` and `payload` stand for.
pub open spec fn decode(identifier: Seq<char>, payload: Seq<char>) -> EventView {
    match recognize(split(identifier, '.'), payload) {
        Some(event) => event,
        None => EventView::Unknown(identifier),
    }
}

/// The identifier of a synthesis start with the given arguments, each in
/// its shortest decimal notation.
pub open spec fn synth_start_identifier(index: usize, line_no: u32, example_count: u32) -> Seq<
    char,
> {
    join(
        seq![
            "synth"@,
            "start"@,
            decimal(index as nat),
            decimal(line_no as nat),
            decimal(example_count as nat),
        ],
        '.',
    )
}

/// The decimal notation of a number holds no `.`.
proof fn lemma_decimal_has_no_dot(n: nat)
    ensures
        free_of(decimal(n), '.'),
{
    lemma_decimal_reads_back(n);
    assert forall|i: int| 0 <= i < decimal(n).len() implies decimal(n)[i] != '.' by {
        assert(is_digit(decimal(n)[i]));
    }
}

/// Writing the three arguments of a synthesis start into an identifier and
/// decoding it gives a `SynthStart` with exactly those arguments, whatever
/// the payload.
pub proof fn lemma_synth_start_round_trip(
    index: usize,
    line_no: u32,
    example_count: u32,
    payload: Seq<char>,
)
    ensures
        decode(synth_start_identifier(index, line_no, example_count), payload) == (
        EventView::SynthStart { index, line_no, example_count }),
{
    let pieces = seq![
        "synth"@,
        "start"@,
        decimal(index as nat),
        decimal(line_no as nat),
        decimal(example_count as nat),
    ];
    reveal_strlit("synth");
    reveal_strlit("start");
    lemma_decimal_has_no_dot(index as nat);
    lemma_decimal_has_no_dot(line_no as nat);
    lemma_decimal_has_no_dot(example_count as nat);
    lemma_split_join(pieces, '.');
    lemma_decimal_reads_back(index as nat);
    lemma_decimal_reads_back(line_no as nat);
    lemma_decimal_reads_back(example_count as nat);
}

/// An identifier and payload that fit no defined shape decode to `Unknown`
/// holding the identifier unchanged, and `Unknown` comes from nothing else.
pub proof fn lemma_fallback_keeps_identifier(identifier: Seq<char>, payload: Seq<char>)
    ensures
        recognize(split(identifier, '.'), payload) is None <==> decode(identifier, payload)
            is Unknown,
        decode(identifier, payload) is Unknown ==> decode(identifier, payload)
            == EventView::Unknown(identifier),
{
}

/// The view of an event that may be absent.
pub open spec fn viewed(event: Option<LogEvent>) -> Option<EventView> {
    match event {
        Some(event) => Some(event@),
        None => None,
    }
}

/// Whether the piece at position `at` is exactly `word`.
fn is_word_at(pieces: &Vec<Vec<char>>, at: usize, word: &str) -> (same: bool)
    ensures
        same == word_at(piece_views(pieces@), at as int, word@),
{
    at < pieces.len() && is_word(&pieces[at], word)
}

/// Reads the piece at position `at` as a `usize`.
fn read_usize_at(pieces: &Vec<Vec<char>>, at: usize) -> (number: Option<usize>)
    ensures
        number == usize_at(piece_views(pieces@), at as int),
{
    if at < pieces.len() {
        parse_usize(&pieces[at])
    } else {
        None
    }
}

/// Reads the piece at position `at` as a `u32`.
fn read_u32_at(pieces: &Vec<Vec<char>>, at: usize) -> (number: Option<u32>)
    ensures
        number == u32_at(piece_views(pieces@), at as int),
{
    if at < pieces.len() {
        parse_u32(&pieces[at])
    } else {
        None
    }
}

/// Reads the piece at position `at` as an `i32`.
fn read_i32_at(pieces: &Vec<Vec<char>>, at: usize) -> (number: Option<i32>)
    ensures
        number == i32_at(piece_views(pieces@), at as int),
{
    if at < pieces.len() {
        parse_i32(&pieces[at])
    } else {
        None
    }
}

/// Decodes an identifier whose first piece is `synth`.
fn decode_synth(pieces: &Vec<Vec<char>>, content: &str) -> (event: Option<LogEvent>)
    ensures
        viewed(event) == synth_event(piece_views(pieces@), content@),
{
    if is_word_at(pieces, 1, "start") {
        let index = read_usize_at(pieces, 2);
        let line_no = read_u32_at(pieces, 3);
        let example_count = read_u32_at(pieces, 4);
        match (index, line_no, example_count) {
            (Some(index), Some(line_no), Some(example_count)) => Some(
                LogEvent::SynthStart { index, line_no, example_count },
            ),
            _ => None,
        }
    } else if is_word_at(pieces, 1, "end") {
        let index = read_usize_at(pieces, 2);
        let exit_code = read_i32_at(pieces, 3);
        match (index, exit_code) {
            (Some(index), Some(exit_code)) => Some(
                LogEvent::SynthEnd { index, exit_code, result: content.to_owned() },
            ),
            _ => None,
        }
    } else if is_word_at(pieces, 1, "stdout") {
        Some(LogEvent::SynthOut(content.to_owned()))
    } else if is_word_at(pieces, 1, "stderr") {
        Some(LogEvent::SynthErr(content.to_owned()))
    } else {
        None
    }
}

/// Decodes an identifier whose first piece is `focus`.
fn decode_focus(pieces: &Vec<Vec<char>>, content: &str) -> (event: Option<LogEvent>)
    ensures
        viewed(event) == focus_event(piece_views(pieces@), content@),
{
    if is_word_at(pieces, 1, "projectionBox") {
        if is_word_at(pieces, 2, "focus") {
            if is_word_at(pieces, 3, "custom") {
                Some(LogEvent::PBFocusCustom(content.to_owned()))
            } else if is_word_at(pieces, 3, "default") {
                Some(LogEvent::PBFocusDefault(content.to_owned()))
            } else {
                None
            }
        } else if is_word_at(pieces, 2, "exit") {
            Some(LogEvent::PBExit)
        } else {
            None
        }
    } else if is_word_at(pieces, 1, "example") {
        match read_usize_at(pieces, 2) {
            Some(index) => {
                if is_word_at(pieces, 3, "blur") {
                    Some(LogEvent::ExampleBlur { index, content: content.to_owned() })
                } else if is_word_at(pieces, 3, "focus") {
                    Some(LogEvent::ExampleFocus { index, content: content.to_owned() })
                } else {
                    None
                }
            },
            None => None,
        }
    } else {
        None
    }
}

/// The first two comma-separated pieces of `content`, when there are two.
fn change_sides(content: &str) -> (sides: Option<(String, String)>)
    ensures
        match sides {
            Some((before, after)) => {
                &&& split(content@, ',').len() >= 2
                &&& before@ == split(content@, ',')[0]
                &&& after@ == split(content@, ',')[1]
            },
            None => split(content@, ',').len() < 2,
        },
{
    let chars = chars_of(content);
    let first = find_from(&chars, ',', 0);
    proof {
        assert(chars@.skip(0) =~= chars@);
        lemma_split_pieces(chars@.skip(first + 1), ',');
    }
    if first == chars.len() {
        return None;
    }
    let second = find_from(&chars, ',', first + 1);
    let before = content.substring_char(0, first);
    let after = content.substring_char(first + 1, second);
    proof {
        let rest = chars@.skip(first + 1);
        assert(before@ =~= chars@.take(first as int));
        assert(after@ =~= rest.take(second - first - 1));
        assert(split(rest, ',')[0] == rest.take(second - first - 1));
    }
    Some((before.to_owned(), after.to_owned()))
}

/// Decodes an identifier whose first piece is `example`.
fn decode_example(pieces: &Vec<Vec<char>>, content: &str) -> (event: Option<LogEvent>)
    ensures
        viewed(event) == example_event(piece_views(pieces@), content@),
{
    if is_word_at(pieces, 1, "all") {
        if is_word_at(pieces, 2, "reset") {
            Some(LogEvent::ExampleReset)
        } else {
            None
        }
    } else {
        match read_usize_at(pieces, 1) {
            Some(index) => {
                if is_word_at(pieces, 2, "change") {
                    match change_sides(content) {
                        Some((before, after)) => Some(
                            LogEvent::ExampleChanged { index, before, after },
                        ),
                        None => None,
                    }
                } else if is_word_at(pieces, 2, "include") {
                    Some(LogEvent::ExampleInclude { index, content: content.to_owned() })
                } else if is_word_at(pieces, 2, "exclude") {
                    Some(LogEvent::ExampleExclude { index, content: content.to_owned() })
                } else {
                    None
                }
            },
            None => None,
        }
    }
}

impl LogEvent {
    /// The correlation index of the event, for the shapes that carry one:
    /// the synthesis events and the events about a single example.
    pub fn index(&self) -> (index: Option<usize>)
        ensures
            index == self@.index(),
    {
        match self {
            LogEvent::SynthStart { index, .. } => Some(*index),
            LogEvent::SynthEnd { index, .. } => Some(*index),
            LogEvent::ExampleBlur { index, .. } => Some(*index),
            LogEvent::ExampleFocus { index, .. } => Some(*index),
            LogEvent::ExampleChanged { index, .. } => Some(*index),
            LogEvent::ExampleInclude { index, .. } => Some(*index),
            LogEvent::ExampleExclude { index, .. } => Some(*index),
            _ => None,
        }
    }

    /// The source line at which a synthesis call began; absent for every
    /// other event.
    pub fn lineno(&self) -> (line: Option<u32>)
        ensures
            line == self@.lineno(),
    {
        match self {
            LogEvent::SynthStart { line_no, .. } => Some(*line_no),
            _ => None,
        }
    }

    /// Decodes the identifier `event_str` with the payload `content`.
    ///
    /// Never fails: what fits no shape, lacks a required piece, or has a
    /// piece that should be a number and is not one, becomes
    /// `Unknown(event_str)`.
    pub fn from_str(event_str: &str, content: &str) -> (event: LogEvent)
        ensures
            event@ == decode(event_str@, content@),
    {
        let chars = chars_of(event_str);
        let pieces = split_chars(&chars, '.');
        let recognized = if is_word_at(&pieces, 0, "synth") {
            decode_synth(&pieces, content)
        } else if is_word_at(&pieces, 0, "focus") {
            decode_focus(&pieces, content)
        } else if is_word_at(&pieces, 0, "example") {
            decode_example(&pieces, content)
        } else {
            None
        };
        match recognized {
            Some(event) => event,
            None => LogEvent::Unknown(event_str.to_owned()),
        }
    }
}

} // verus!
