//! The session aggregator: from the entries of one task, in arrival order,
//! to counts, call durations and the table of synthesis calls.
//!
//! A synthesis call is a `SynthStart` and the `SynthEnd` that follows it
//! with the same correlation index. An end is paired with the most recent
//! start of its index that no earlier end has taken; an end that finds no
//! such start is a fault, and the task then has no summary.
//!
//! Durations are whole milliseconds. Averages and ratios are handed out as
//! a numerator and a denominator, and are absent when the denominator would
//! be zero.

use crate::event::{EventView, LogEvent};
use crate::log::{entry_views, EntryView, Log};
use std::collections::HashMap;
use vstd::prelude::*;

verus! {

/// Why a task's entries could not be summarized.
#[derive(Debug, Clone, Copy, PartialEq, Eq)]
pub enum AggregationError {
    /// The entry at `position` ends a synthesis call with correlation index
    /// `index`, and no call with that index is under way there.
    UnmatchedEnd { index: usize, position: usize },
}

/// One finished synthesis call.
#[derive(Debug, Clone, PartialEq, Eq)]
pub struct CallRow {
    /// The correlation index shared by the start and the end.
    pub index: usize,
    /// The source of the entry that ended the call.
    pub file_name: String,
    /// Milliseconds from the start to the end; negative where the end
    /// carries the earlier time.
    pub duration_millis: i128,
    /// The source line at which the call began.
    pub line_no: u32,
    /// The exit code that the call ended with; zero means success.
    pub exit_code: i32,
}

/// What a [`CallRow`] stands for.
pub struct CallRowView {
    pub index: usize,
    pub file_name: Seq<char>,
    pub duration_millis: int,
    pub line_no: u32,
    pub exit_code: i32,
}

impl View for CallRow {
    type V = CallRowView;

    open spec fn view(&self) -> CallRowView {
        CallRowView {
            index: self.index,
            file_name: self.file_name@,
            duration_millis: self.duration_millis as int,
            line_no: self.line_no,
            exit_code: self.exit_code,
        }
    }
}

/// The views of a run of rows, in the same order.
pub open spec fn row_views(rows: Seq<CallRow>) -> Seq<CallRowView> {
    rows.map_values(|row: CallRow| row@)
}

/// A quotient that is kept as its two parts. The denominator is never zero.
#[derive(Debug, Clone, Copy, PartialEq, Eq)]
pub struct Ratio<N> {
    pub numerator: N,
    pub denominator: usize,
}

/// The figures of one task.
#[derive(Debug, Clone, PartialEq, Eq)]
pub struct Summary {
    /// How many entries the task has.
    pub entries: usize,
    /// How many synthesis calls began.
    pub synth_calls: usize,
    /// How many calls ended with exit code zero.
    pub succeeded: usize,
    /// How many calls ended with another exit code.
    pub failed: usize,
    /// The durations of all finished calls together.
    pub total_duration_millis: i128,
    /// The shortest finished call, if any call finished.
    pub min_duration_millis: Option<i128>,
    /// The longest finished call, if any call finished.
    pub max_duration_millis: Option<i128>,
    /// The examples given to all calls together.
    pub total_examples: u128,
    /// How often focus moved to a default output.
    pub default_focus: usize,
    /// How often focus moved to a custom output.
    pub custom_focus: usize,
    /// How often an example was edited.
    pub example_changes: usize,
    /// The number of examples given to each call, in the order the calls
    /// began.
    pub example_counts: Vec<u32>,
    /// The finished calls, in the order they ended.
    pub calls: Vec<CallRow>,
}

/// What a [`Summary`] stands for.
pub struct SummaryView {
    pub entries: nat,
    pub synth_calls: nat,
    pub succeeded: nat,
    pub failed: nat,
    pub total_duration_millis: int,
    pub min_duration_millis: Option<int>,
    pub max_duration_millis: Option<int>,
    pub total_examples: nat,
    pub default_focus: nat,
    pub custom_focus: nat,
    pub example_changes: nat,
    pub example_counts: Seq<u32>,
    pub calls: Seq<CallRowView>,
}

/// The view of a duration that may be absent.
pub open spec fn duration_view(duration: Option<i128>) -> Option<int> {
    match duration {
        Some(millis) => Some(millis as int),
        None => None,
    }
}

impl View for Summary {
    type V = SummaryView;

    open spec fn view(&self) -> SummaryView {
        SummaryView {
            entries: self.entries as nat,
            synth_calls: self.synth_calls as nat,
            succeeded: self.succeeded as nat,
            failed: self.failed as nat,
            total_duration_millis: self.total_duration_millis as int,
            min_duration_millis: duration_view(self.min_duration_millis),
            max_duration_millis: duration_view(self.max_duration_millis),
            total_examples: self.total_examples as nat,
            default_focus: self.default_focus as nat,
            custom_focus: self.custom_focus as nat,
            example_changes: self.example_changes as nat,
            example_counts: self.example_counts@,
            calls: row_views(self.calls@),
        }
    }
}

impl SummaryView {
    /// Total duration over the number of calls begun; absent when no call
    /// began.
    pub open spec fn average_duration(self) -> Option<(int, nat)> {
        if self.synth_calls == 0 {
            None
        } else {
            Some((self.total_duration_millis, self.synth_calls))
        }
    }

    /// Total examples over the number of calls begun; absent when no call
    /// began.
    pub open spec fn average_examples(self) -> Option<(nat, nat)> {
        if self.synth_calls == 0 {
            None
        } else {
            Some((self.total_examples, self.synth_calls))
        }
    }

    /// Default-focus events over custom-focus events; absent when there was
    /// no custom-focus event.
    pub open spec fn focus_ratio(self) -> Option<(nat, nat)> {
        if self.custom_focus == 0 {
            None
        } else {
            Some((self.default_focus, self.custom_focus))
        }
    }
}

/// The result of summarizing, with the summary replaced by its view.
pub open spec fn outcome_view(outcome: Result<Summary, AggregationError>) -> Result<
    SummaryView,
    AggregationError,
> {
    match outcome {
        Ok(summary) => Ok(summary@),
        Err(fault) => Err(fault),
    }
}

/// `entry` begins a synthesis call with correlation index `index`.
pub open spec fn starts_call(entry: EntryView, index: usize) -> bool {
    entry.event matches EventView::SynthStart { index: i, .. } && i == index
}

/// `entry` ends a synthesis call with correlation index `index`.
pub open spec fn ends_call(entry: EntryView, index: usize) -> bool {
    entry.event matches EventView::SynthEnd { index: i, .. } && i == index
}

/// The position of the start that an end with correlation index `index`
/// would be paired with if it came right after `entries`: the last entry
/// that begins or ends a call with that index, provided it begins one.
pub open spec fn open_start(entries: Seq<EntryView>, index: usize) -> Option<int>
    decreases entries.len(),
{
    if entries.len() == 0 {
        None
    } else if starts_call(entries.last(), index) {
        Some(entries.len() - 1)
    } else if ends_call(entries.last(), index) {
        None
    } else {
        open_start(entries.drop_last(), index)
    }
}

/// A call with correlation index `index` is under way at position `end`:
/// some earlier entry begins one, and nothing between the two ends one.
pub open spec fn call_under_way(entries: Seq<EntryView>, end: int, index: usize) -> bool {
    exists|at: int|
        0 <= at < end && starts_call(#[trigger] entries[at], index) && forall|between: int|
            at < between < end ==> !ends_call(#[trigger] entries[between], index)
}

/// The last entry of `entries` ends a call that is not under way.
pub open spec fn unmatched_end(entries: Seq<EntryView>) -> bool {
    &&& entries.len() > 0
    &&& entries.last().event matches EventView::SynthEnd { index, .. }
    &&& open_start(entries.drop_last(), index) is None
}

/// The position of the first entry that ends a call that is not under way.
pub open spec fn first_fault(entries: Seq<EntryView>) -> Option<int>
    decreases entries.len(),
{
    if entries.len() == 0 {
        None
    } else {
        match first_fault(entries.drop_last()) {
            Some(at) => Some(at),
            None => if unmatched_end(entries) {
                Some(entries.len() - 1)
            } else {
                None
            },
        }
    }
}

/// The finished calls of `entries`, one row for each end that is paired
/// with a start, in the order of the ends.
pub open spec fn call_rows(entries: Seq<EntryView>) -> Seq<CallRowView>
    decreases entries.len(),
{
    if entries.len() == 0 {
        Seq::empty()
    } else {
        let earlier = entries.drop_last();
        let end = entries.last();
        match end.event {
            EventView::SynthEnd { index, exit_code, .. } => match open_start(earlier, index) {
                Some(at) => call_rows(earlier).push(
                    CallRowView {
                        index,
                        file_name: end.file_name,
                        duration_millis: end.time - earlier[at].time,
                        line_no: earlier[at].event->line_no,
                        exit_code,
                    },
                ),
                None => call_rows(earlier),
            },
            _ => call_rows(earlier),
        }
    }
}

/// How many of `entries` hold an event that `counted` accepts.
pub open spec fn count(entries: Seq<EntryView>, counted: spec_fn(EventView) -> bool) -> nat
    decreases entries.len(),
{
    if entries.len() == 0 {
        0
    } else {
        count(entries.drop_last(), counted) + if counted(entries.last().event) {
            1nat
        } else {
            0nat
        }
    }
}

/// How many synthesis calls begin among `entries`.
pub open spec fn calls_begun(entries: Seq<EntryView>) -> nat {
    count(entries, |event: EventView| event is SynthStart)
}

/// How often focus moves to a default output among `entries`.
pub open spec fn default_focuses(entries: Seq<EntryView>) -> nat {
    count(entries, |event: EventView| event is PBFocusDefault)
}

/// How often focus moves to a custom output among `entries`.
pub open spec fn custom_focuses(entries: Seq<EntryView>) -> nat {
    count(entries, |event: EventView| event is PBFocusCustom)
}

/// How often an example is edited among `entries`.
pub open spec fn example_edits(entries: Seq<EntryView>) -> nat {
    count(entries, |event: EventView| event is ExampleChanged)
}

/// The example counts of the synthesis starts among `entries`, in order.
pub open spec fn example_counts(entries: Seq<EntryView>) -> Seq<u32>
    decreases entries.len(),
{
    if entries.len() == 0 {
        Seq::empty()
    } else {
        match entries.last().event {
            EventView::SynthStart { example_count, .. } => example_counts(
                entries.drop_last(),
            ).push(example_count),
            _ => example_counts(entries.drop_last()),
        }
    }
}

/// The sum of `counts`.
pub open spec fn sum(counts: Seq<u32>) -> nat
    decreases counts.len(),
{
    if counts.len() == 0 {
        0
    } else {
        sum(counts.drop_last()) + counts.last() as nat
    }
}

/// How many of `rows` ended with exit code zero.
pub open spec fn successes(rows: Seq<CallRowView>) -> nat
    decreases rows.len(),
{
    if rows.len() == 0 {
        0
    } else {
        successes(rows.drop_last()) + if rows.last().exit_code == 0 {
            1nat
        } else {
            0nat
        }
    }
}

/// The durations of `rows` added up.
pub open spec fn total_duration(rows: Seq<CallRowView>) -> int
    decreases rows.len(),
{
    if rows.len() == 0 {
        0
    } else {
        total_duration(rows.drop_last()) + rows.last().duration_millis
    }
}

/// The least duration among `rows`.
pub open spec fn shortest(rows: Seq<CallRowView>) -> Option<int>
    decreases rows.len(),
{
    if rows.len() == 0 {
        None
    } else {
        match shortest(rows.drop_last()) {
            Some(least) if least <= rows.last().duration_millis => Some(least),
            _ => Some(rows.last().duration_millis),
        }
    }
}

/// The greatest duration among `rows`.
pub open spec fn longest(rows: Seq<CallRowView>) -> Option<int>
    decreases rows.len(),
{
    if rows.len() == 0 {
        None
    } else {
        match longest(rows.drop_last()) {
            Some(greatest) if greatest >= rows.last().duration_millis => Some(greatest),
            _ => Some(rows.last().duration_millis),
        }
    }
}

/// The figures of `entries`, given that every end among them is paired.
pub open spec fn figures(entries: Seq<EntryView>) -> SummaryView {
    let calls = call_rows(entries);
    SummaryView {
        entries: entries.len(),
        synth_calls: calls_begun(entries),
        succeeded: successes(calls),
        failed: (calls.len() - successes(calls)) as nat,
        total_duration_millis: total_duration(calls),
        min_duration_millis: shortest(calls),
        max_duration_millis: longest(calls),
        total_examples: sum(example_counts(entries)),
        default_focus: default_focuses(entries),
        custom_focus: custom_focuses(entries),
        example_changes: example_edits(entries),
        example_counts: example_counts(entries),
        calls,
    }
}

/// The summary of `entries`: their figures, unless some entry ends a call
/// that is not under way; then the first such entry is reported.
pub open spec fn summarize(entries: Seq<EntryView>) -> Result<SummaryView, AggregationError> {
    match first_fault(entries) {
        Some(at) => Err(
            AggregationError::UnmatchedEnd {
                index: entries[at].event->SynthEnd_index,
                position: at as usize,
            },
        ),
        None => Ok(figures(entries)),
    }
}

/// Where `open_start` finds a position, it lies within the entries and
/// holds a start with the index asked for.
pub proof fn lemma_open_start_position(entries: Seq<EntryView>, index: usize)
    ensures
        open_start(entries, index) matches Some(at) ==> 0 <= at < entries.len() && starts_call(
            entries[at],
            index,
        ),
    decreases entries.len(),
{
    if entries.len() > 0 && !starts_call(entries.last(), index) && !ends_call(
        entries.last(),
        index,
    ) {
        lemma_open_start_position(entries.drop_last(), index);
    }
}

/// `open_start` finds a position exactly when a call with that index is
/// under way at the end of the entries, and nothing after that position
/// begins or ends a call with the index.
pub proof fn lemma_open_start_means_under_way(entries: Seq<EntryView>, index: usize)
    ensures
        open_start(entries, index) is Some <==> call_under_way(
            entries,
            entries.len() as int,
            index,
        ),
        open_start(entries, index) matches Some(at) ==> forall|after: int|
            at < after < entries.len() ==> !starts_call(#[trigger] entries[after], index)
                && !ends_call(entries[after], index),
    decreases entries.len(),
{
    let end = entries.len() as int;
    if end == 0 {
    } else if starts_call(entries.last(), index) {
        assert(starts_call(entries[end - 1], index));
    } else if ends_call(entries.last(), index) {
        if call_under_way(entries, end, index) {
            let at = choose|at: int|
                0 <= at < end && starts_call(#[trigger] entries[at], index) && forall|
                    between: int,
                |
                    at < between < end ==> !ends_call(#[trigger] entries[between], index);
            assert(!ends_call(entries[end - 1], index));
        }
    } else {
        let earlier = entries.drop_last();
        lemma_open_start_means_under_way(earlier, index);
        lemma_open_start_position(earlier, index);
        if open_start(earlier, index) is Some {
            let at = open_start(earlier, index)->0;
            assert(call_under_way(earlier, end - 1, index));
            let found = choose|found: int|
                0 <= found < end - 1 && starts_call(#[trigger] earlier[found], index) && forall|
                    between: int,
                |
                    found < between < end - 1 ==> !ends_call(#[trigger] earlier[between], index);
            assert(starts_call(entries[found], index));
            assert forall|between: int| found < between < end implies !ends_call(
                #[trigger] entries[between],
                index,
            ) by {
                if between < end - 1 {
                    assert(earlier[between] == entries[between]);
                }
            }
            assert forall|after: int| at < after < end implies !starts_call(
                #[trigger] entries[after],
                index,
            ) && !ends_call(entries[after], index) by {
                if after < end - 1 {
                    assert(earlier[after] == entries[after]);
                }
            }
        }
        if call_under_way(entries, end, index) {
            let at = choose|at: int|
                0 <= at < end && starts_call(#[trigger] entries[at], index) && forall|
                    between: int,
                |
                    at < between < end ==> !ends_call(#[trigger] entries[between], index);
            assert(at < end - 1);
            assert(starts_call(earlier[at], index));
            assert forall|between: int| at < between < end - 1 implies !ends_call(
                #[trigger] earlier[between],
                index,
            ) by {
                assert(earlier[between] == entries[between]);
            }
            assert(call_under_way(earlier, end - 1, index));
        }
    }
}

/// A fault found among the first `upto` entries is the first fault of all
/// the entries.
pub proof fn lemma_first_fault_stays(entries: Seq<EntryView>, upto: int)
    requires
        0 <= upto <= entries.len(),
        first_fault(entries.take(upto)) is Some,
    ensures
        first_fault(entries) == first_fault(entries.take(upto)),
    decreases entries.len() - upto,
{
    if upto < entries.len() {
        assert(entries.take(upto + 1).drop_last() =~= entries.take(upto));
        lemma_first_fault_stays(entries, upto + 1);
    } else {
        assert(entries.take(upto) =~= entries);
    }
}

/// The first fault lies within the entries, has an unmatched end, and no
/// entry before it has one.
pub proof fn lemma_first_fault(entries: Seq<EntryView>)
    ensures
        first_fault(entries) matches Some(at) ==> {
            &&& 0 <= at < entries.len()
            &&& unmatched_end(entries.take(at + 1))
            &&& entries[at].event is SynthEnd
        },
        first_fault(entries) is None ==> forall|at: int|
            0 <= at < entries.len() ==> !unmatched_end(#[trigger] entries.take(at + 1)),
    decreases entries.len(),
{
    if entries.len() > 0 {
        let earlier = entries.drop_last();
        lemma_first_fault(earlier);
        assert(entries.take(entries.len() as int) =~= entries);
        match first_fault(earlier) {
            Some(at) => {
                assert(earlier.take(at + 1) =~= entries.take(at + 1));
            },
            None => {
                if !unmatched_end(entries) {
                    assert forall|at: int| 0 <= at < entries.len() implies !unmatched_end(
                        #[trigger] entries.take(at + 1),
                    ) by {
                        if at < earlier.len() {
                            assert(earlier.take(at + 1) =~= entries.take(at + 1));
                        }
                    }
                }
            },
        }
    }
}

/// An entry that ends a call while none with its index is under way makes
/// the whole task a fault: there is no summary, and so no duration for the
/// call.
pub proof fn lemma_unmatched_end_is_fault(entries: Seq<EntryView>, at: int, index: usize)
    requires
        0 <= at < entries.len(),
        ends_call(entries[at], index),
        !call_under_way(entries, at, index),
    ensures
        summarize(entries) is Err,
{
    let upto = entries.take(at + 1);
    assert(upto.drop_last() =~= entries.take(at));
    lemma_open_start_means_under_way(entries.take(at), index);
    if call_under_way(entries.take(at), at, index) {
        let found = choose|found: int|
            0 <= found < at && starts_call(#[trigger] entries.take(at)[found], index) && forall|
                between: int,
            |
                found < between < at ==> !ends_call(#[trigger] entries.take(at)[between], index);
        assert(starts_call(entries[found], index));
        assert forall|between: int| found < between < at implies !ends_call(
            #[trigger] entries[between],
            index,
        ) by {
            assert(entries.take(at)[between] == entries[between]);
        }
    }
    assert(unmatched_end(upto));
    lemma_first_fault(entries);
}

/// The shortest and the longest call exist exactly when there is a call;
/// each is the duration of some call, and every call lies between them.
pub proof fn lemma_shortest_and_longest(rows: Seq<CallRowView>)
    ensures
        shortest(rows) is Some <==> rows.len() > 0,
        longest(rows) is Some <==> rows.len() > 0,
        rows.len() > 0 ==> {
            &&& exists|k: int|
                0 <= k < rows.len() && (#[trigger] rows[k]).duration_millis == shortest(rows)->0
            &&& exists|k: int|
                0 <= k < rows.len() && (#[trigger] rows[k]).duration_millis == longest(rows)->0
            &&& forall|k: int|
                0 <= k < rows.len() ==> shortest(rows)->0 <= (#[trigger] rows[k]).duration_millis
                    <= longest(rows)->0
        },
    decreases rows.len(),
{
    if rows.len() > 0 {
        let earlier = rows.drop_last();
        let last = rows.len() - 1;
        lemma_shortest_and_longest(earlier);
        if earlier.len() > 0 {
            let least = choose|k: int|
                0 <= k < earlier.len() && (#[trigger] earlier[k]).duration_millis == shortest(
                    earlier,
                )->0;
            let greatest = choose|k: int|
                0 <= k < earlier.len() && (#[trigger] earlier[k]).duration_millis == longest(
                    earlier,
                )->0;
            assert(rows[least] == earlier[least]);
            assert(rows[greatest] == earlier[greatest]);
            assert forall|k: int| 0 <= k < rows.len() implies shortest(rows)->0 <= (
            #[trigger] rows[k]).duration_millis <= longest(rows)->0 by {
                if k < last {
                    assert(rows[k] == earlier[k]);
                }
            }
        }
        assert(rows[last].duration_millis == rows.last().duration_millis);
    }
}

/// A task in which no synthesis call begins has no average duration and no
/// average example count; and one without custom-focus events has no focus
/// ratio.
pub proof fn lemma_undefined_without_calls(entries: Seq<EntryView>)
    requires
        summarize(entries) is Ok,
    ensures
        calls_begun(entries) == 0 ==> summarize(entries)->Ok_0.average_duration() is None,
        calls_begun(entries) == 0 ==> summarize(entries)->Ok_0.average_examples() is None,
        custom_focuses(entries) == 0 ==> summarize(entries)->Ok_0.focus_ratio() is None,
{
}

/// What the aggregator remembers of a call that is under way.
#[derive(Clone, Copy)]
struct PendingStart {
    time: i64,
    line_no: u32,
}

/// What is remembered of the start held by `entry`.
spec fn pending_of(entry: EntryView) -> PendingStart {
    PendingStart { time: entry.time, line_no: entry.event->line_no }
}

/// The calls under way after `entries`, by correlation index.
spec fn pending_starts(entries: Seq<EntryView>) -> Map<usize, PendingStart> {
    Map::new(
        |index: usize| open_start(entries, index) is Some,
        |index: usize| pending_of(entries[open_start(entries, index)->0]),
    )
}

/// How the calls under way change with the last entry: a start puts its
/// index in, an end takes its index out, anything else changes nothing.
proof fn lemma_pending_step(entries: Seq<EntryView>)
    requires
        entries.len() > 0,
    ensures
        pending_starts(entries) == match entries.last().event {
            EventView::SynthStart { index, .. } => pending_starts(entries.drop_last()).insert(
                index,
                pending_of(entries.last()),
            ),
            EventView::SynthEnd { index, .. } => pending_starts(entries.drop_last()).remove(index),
            _ => pending_starts(entries.drop_last()),
        },
{
    let earlier = entries.drop_last();
    let expected = match entries.last().event {
        EventView::SynthStart { index, .. } => pending_starts(earlier).insert(
            index,
            pending_of(entries.last()),
        ),
        EventView::SynthEnd { index, .. } => pending_starts(earlier).remove(index),
        _ => pending_starts(earlier),
    };
    assert forall|index: usize|
        pending_starts(entries).contains_key(index) == expected.contains_key(index) && (
        pending_starts(entries).contains_key(index) ==> pending_starts(entries)[index]
            == expected[index]) by {
        lemma_open_start_position(earlier, index);
    }
    assert(pending_starts(entries) =~= expected);
}

impl Summary {
    /// Total duration over the number of calls begun, in milliseconds;
    /// absent when no call began.
    pub fn average_duration(&self) -> (average: Option<Ratio<i128>>)
        ensures
            average == if self.synth_calls == 0 {
                None
            } else {
                Some(
                    Ratio {
                        numerator: self.total_duration_millis,
                        denominator: self.synth_calls,
                    },
                )
            },
            average is None <==> self@.average_duration() is None,
    {
        if self.synth_calls == 0 {
            None
        } else {
            Some(Ratio { numerator: self.total_duration_millis, denominator: self.synth_calls })
        }
    }

    /// Total examples over the number of calls begun; absent when no call
    /// began.
    pub fn average_examples(&self) -> (average: Option<Ratio<u128>>)
        ensures
            average == if self.synth_calls == 0 {
                None
            } else {
                Some(Ratio { numerator: self.total_examples, denominator: self.synth_calls })
            },
            average is None <==> self@.average_examples() is None,
    {
        if self.synth_calls == 0 {
            None
        } else {
            Some(Ratio { numerator: self.total_examples, denominator: self.synth_calls })
        }
    }

    /// Default-focus events over custom-focus events; absent when there was
    /// no custom-focus event.
    pub fn focus_ratio(&self) -> (ratio: Option<Ratio<usize>>)
        ensures
            ratio == if self.custom_focus == 0 {
                None
            } else {
                Some(Ratio { numerator: self.default_focus, denominator: self.custom_focus })
            },
            ratio is None <==> self@.focus_ratio() is None,
    {
        if self.custom_focus == 0 {
            None
        } else {
            Some(Ratio { numerator: self.default_focus, denominator: self.custom_focus })
        }
    }
}

impl CallRow {
    /// Whether the call ended with exit code zero.
    pub fn succeeded(&self) -> (success: bool)
        ensures
            success == (self.exit_code == 0),
    {
        self.exit_code == 0
    }
}

impl Log {
    /// Summarizes the log in one pass over its entries.
    ///
    /// Fails exactly when some entry ends a synthesis call while no call
    /// with its correlation index is under way, and then reports the first
    /// such entry.
    pub fn summarize(&self) -> (outcome: Result<Summary, AggregationError>)
        ensures
            outcome_view(outcome) == summarize(self@),
    {
        let entries = self.entries();
        let ghost views = self@;
        let mut pending: HashMap<usize, PendingStart> = HashMap::new();
        let mut synth_calls: usize = 0;
        let mut succeeded: usize = 0;
        let mut failed: usize = 0;
        let mut total: i128 = 0;
        let mut min_duration: Option<i128> = None;
        let mut max_duration: Option<i128> = None;
        let mut total_examples: u128 = 0;
        let mut default_focus: usize = 0;
        let mut custom_focus: usize = 0;
        let mut example_changes: usize = 0;
        let mut counts: Vec<u32> = Vec::new();
        let mut calls: Vec<CallRow> = Vec::new();
        let mut i: usize = 0;
        proof {
            assert(pending@ =~= pending_starts(views.take(0)));
            assert(row_views(calls@) =~= call_rows(views.take(0)));
        }
        while i < entries.len()
            invariant
                i <= entries.len(),
                views == self@,
                views == entry_views(entries@),
                first_fault(views.take(i as int)) is None,
                pending@ == pending_starts(views.take(i as int)),
                pending@.dom().finite(),
                2 * calls.len() + pending@.len() <= i,
                row_views(calls@) == call_rows(views.take(i as int)),
                synth_calls == calls_begun(views.take(i as int)),
                synth_calls <= i,
                succeeded == successes(row_views(calls@)),
                succeeded + failed == calls.len(),
                total == total_duration(row_views(calls@)),
                -(calls.len() * 0xFFFF_FFFF_FFFF_FFFF) <= total <= calls.len()
                    * 0xFFFF_FFFF_FFFF_FFFF,
                duration_view(min_duration) == shortest(row_views(calls@)),
                duration_view(max_duration) == longest(row_views(calls@)),
                counts@ == example_counts(views.take(i as int)),
                total_examples == sum(counts@),
                total_examples <= synth_calls * 0xFFFF_FFFF,
                default_focus == default_focuses(views.take(i as int)),
                default_focus <= i,
                custom_focus == custom_focuses(views.take(i as int)),
                custom_focus <= i,
                example_changes == example_edits(views.take(i as int)),
                example_changes <= i,
            decreases entries.len() - i,
        {
            let entry = &entries[i];
            let ghost before = views.take(i as int);
            let ghost now = views.take(i + 1);
            let ghost rows_before = row_views(calls@);
            proof {
                assert(now.drop_last() =~= before);
                assert(now.last() == entry@);
                lemma_pending_step(now);
            }
            match &entry.event {
                LogEvent::SynthStart { index, line_no, example_count } => {
                    pending.insert(*index, PendingStart { time: entry.time, line_no: *line_no });
                    synth_calls += 1;
                    total_examples += *example_count as u128;
                    counts.push(*example_count);
                    proof {
                        assert(counts@.drop_last() =~= example_counts(before));
                    }
                },
                LogEvent::SynthEnd { index, exit_code, .. } => {
                    match pending.remove(index) {
                        Some(start) => {
                            proof {
                                lemma_open_start_position(before, *index);
                            }
                            let duration: i128 = entry.time as i128 - start.time as i128;
                            let row = CallRow {
                                index: *index,
                                file_name: entry.file_name.clone(),
                                duration_millis: duration,
                                line_no: start.line_no,
                                exit_code: *exit_code,
                            };
                            calls.push(row);
                            proof {
                                assert(row_views(calls@) =~= rows_before.push(row@));
                                assert(row_views(calls@).drop_last() =~= rows_before);
                            }
                            if *exit_code == 0 {
                                succeeded += 1;
                            } else {
                                failed += 1;
                            }
                            total += duration;
                            min_duration = match min_duration {
                                Some(least) if least <= duration => Some(least),
                                _ => Some(duration),
                            };
                            max_duration = match max_duration {
                                Some(greatest) if greatest >= duration => Some(greatest),
                                _ => Some(duration),
                            };
                        },
                        None => {
                            proof {
                                assert(unmatched_end(now));
                                assert(first_fault(now) == Some(i as int));
                                lemma_first_fault_stays(views, i + 1);
                                assert(views[i as int] == entry@);
                            }
                            return Err(
                                AggregationError::UnmatchedEnd { index: *index, position: i },
                            );
                        },
                    }
                },
                LogEvent::PBFocusDefault(_) => {
                    default_focus += 1;
                },
                LogEvent::PBFocusCustom(_) => {
                    custom_focus += 1;
                },
                LogEvent::ExampleChanged { .. } => {
                    example_changes += 1;
                },
                _ => {},
            }
            i += 1;
        }
        proof {
            assert(views.take(i as int) =~= views);
        }
        Ok(
            Summary {
                entries: i,
                synth_calls,
                succeeded,
                failed,
                total_duration_millis: total,
                min_duration_millis: min_duration,
                max_duration_millis: max_duration,
                total_examples,
                default_focus,
                custom_focus,
                example_changes,
                example_counts: counts,
                calls,
            },
        )
    }
}

} // verus!
