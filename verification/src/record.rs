//! From one raw line of a log file to a log entry.
//!
//! A line has the shape `<time>,<source>,<event>[,<payload>]`: the time in
//! milliseconds since the Unix epoch, the source that wrote the line, the
//! event identifier, and whatever follows as the payload. The line is taken
//! apart by the regular expression [`RECORD_PATTERN`]; the fields are then
//! read here.

use crate::decimal::{i64_of, parse_i64};
use crate::event::{decode, LogEvent};
use crate::log::{EntryView, LogEntry};
use crate::text::chars_of;
use vstd::prelude::*;

verus! {

/// The regular expression that takes a line apart. Its four groups are, in
/// order, the time, the source, the event identifier and the payload.
pub const RECORD_PATTERN: &'static str =
    "(?P<time>\\d+),(?P<file>[^,]+),(?P<event>[^,]+),*(?P<content>.*)";

/// What the `regex` crate captures when it searches `haystack` for
/// `pattern`: nothing when the pattern does not compile or matches nowhere;
/// otherwise, for the first match, the text of every capture group in the
/// order of the groups, the whole match first, with `None` for a group that
/// took no part in the match.
pub uninterp spec fn regex_captures(pattern: Seq<char>, haystack: Seq<char>) -> Option<
    Seq<Option<Seq<char>>>,
>;

/// Compiles `pattern` with `regex::Regex::new` and searches `haystack` with
/// `Regex::captures`, handing out the text of each group that
/// `Captures::iter` yields. The contract gives this result its name and
/// claims nothing else of it. The pattern is compiled on every call.
#[verifier::external_body]
fn captures(pattern: &str, haystack: &str) -> (groups: Option<Vec<Option<String>>>)
    ensures
        groups.deep_view() == regex_captures(pattern@, haystack@),
{
    let regex = regex::Regex::new(pattern).ok()?;
    regex.captures(haystack).map(
        |found| found.iter().map(|group| group.map(|text| text.as_str().to_owned())).collect(),
    )
}

/// The entry spelled by the capture groups of a line: there must be the
/// whole match and four groups, all present, and the first group must be a
/// time that fits in an `i64`.
pub open spec fn entry_of_groups(groups: Seq<Option<Seq<char>>>) -> Option<EntryView> {
    if groups.len() == 5 && groups[1] is Some && groups[2] is Some && groups[3] is Some
        && groups[4] is Some {
        match i64_of(groups[1]->0) {
            Some(time) => Some(
                EntryView {
                    time,
                    file_name: groups[2]->0,
                    event: decode(groups[3]->0, groups[4]->0),
                },
            ),
            None => None,
        }
    } else {
        None
    }
}

/// The entry that `line` spells, if it has the shape of a record.
pub open spec fn entry_of_line(line: Seq<char>) -> Option<EntryView> {
    match regex_captures(RECORD_PATTERN@, line) {
        Some(groups) => entry_of_groups(groups),
        None => None,
    }
}

/// The view of an entry that may be absent.
pub open spec fn entry_view(entry: Option<LogEntry>) -> Option<EntryView> {
    match entry {
        Some(entry) => Some(entry@),
        None => None,
    }
}

/// Builds the entry spelled by the capture groups of a line.
pub fn entry_from_groups(groups: &Vec<Option<String>>) -> (entry: Option<LogEntry>)
    ensures
        entry_view(entry) == entry_of_groups(groups.deep_view()),
{
    if groups.len() != 5 {
        return None;
    }
    match (&groups[1], &groups[2], &groups[3], &groups[4]) {
        (Some(time), Some(file), Some(event), Some(content)) => {
            match parse_i64(&chars_of(time.as_str())) {
                Some(time) => Some(
                    LogEntry {
                        time,
                        file_name: file.clone(),
                        event: LogEvent::from_str(event.as_str(), content.as_str()),
                    },
                ),
                None => None,
            }
        },
        _ => None,
    }
}

/// Reads one line of a log file. Gives nothing for a line that does not
/// have the shape of a record.
pub fn parse_line(line: &str) -> (entry: Option<LogEntry>)
    ensures
        entry_view(entry) == entry_of_line(line@),
{
    match captures(RECORD_PATTERN, line) {
        Some(groups) => entry_from_groups(&groups),
        None => None,
    }
}

} // verus!
