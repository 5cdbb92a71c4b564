//! The logs of one file, one per task, in the order in which the tasks
//! first appear.

use crate::log::{EntryView, Log, LogEntry};
use crate::record::{entry_of_line, parse_line};
use crate::summary::{summarize, AggregationError, Summary, SummaryView};
use crate::task::{classify, Task};
use vstd::prelude::*;

verus! {

/// The log of one task.
#[derive(Debug)]
pub struct TaskLog {
    pub task: Task,
    pub log: Log,
}

/// What a [`TaskLog`] stands for.
pub struct TaskLogView {
    pub task: Task,
    pub entries: Seq<EntryView>,
}

impl View for TaskLog {
    type V = TaskLogView;

    open spec fn view(&self) -> TaskLogView {
        TaskLogView { task: self.task, entries: self.log@ }
    }
}

/// The views of a run of task logs, in the same order.
pub open spec fn task_log_views(logs: Seq<TaskLog>) -> Seq<TaskLogView> {
    logs.map_values(|log: TaskLog| log@)
}

/// Some log in `logs` belongs to `task`.
pub open spec fn holds_task(logs: Seq<TaskLogView>, task: Task) -> bool {
    exists|i: int| 0 <= i < logs.len() && (#[trigger] logs[i]).task == task
}

/// No two logs in `logs` belong to the same task.
pub open spec fn one_log_per_task(logs: Seq<TaskLogView>) -> bool {
    forall|i: int, j: int|
        0 <= i < j < logs.len() ==> (#[trigger] logs[i]).task != (#[trigger] logs[j]).task
}

/// `logs` after `entry` has arrived: it goes to the end of the log of the
/// task that its source belongs to; where that task has no log yet, a new
/// one is added behind the others; where the source belongs to no task, the
/// entry is dropped.
pub open spec fn with_entry(logs: Seq<TaskLogView>, entry: EntryView) -> Seq<TaskLogView> {
    match classify(entry.file_name) {
        Some(task) => if holds_task(logs, task) {
            Seq::new(
                logs.len(),
                |i: int|
                    if logs[i].task == task {
                        TaskLogView { task, entries: logs[i].entries.push(entry) }
                    } else {
                        logs[i]
                    },
            )
        } else {
            logs.push(TaskLogView { task, entries: seq![entry] })
        },
        None => logs,
    }
}

/// `logs` after the raw line `line` has arrived: a line that spells an
/// entry adds it, any other line changes nothing.
pub open spec fn with_line(logs: Seq<TaskLogView>, line: Seq<char>) -> Seq<TaskLogView> {
    match entry_of_line(line) {
        Some(entry) => with_entry(logs, entry),
        None => logs,
    }
}

/// `logs` after all of `lines` have arrived, in order.
pub open spec fn with_lines(logs: Seq<TaskLogView>, lines: Seq<Seq<char>>) -> Seq<TaskLogView>
    decreases lines.len(),
{
    if lines.len() == 0 {
        logs
    } else {
        with_line(with_lines(logs, lines.drop_last()), lines.last())
    }
}

/// The positions of the lines that spell no entry, in rising order.
pub open spec fn rejected_lines(lines: Seq<Seq<char>>) -> Seq<usize>
    decreases lines.len(),
{
    if lines.len() == 0 {
        Seq::empty()
    } else if entry_of_line(lines.last()) is None {
        rejected_lines(lines.drop_last()).push((lines.len() - 1) as usize)
    } else {
        rejected_lines(lines.drop_last())
    }
}

/// The summaries of the tasks that have one, in the order of the logs.
pub open spec fn summaries_of(logs: Seq<TaskLogView>) -> Seq<(Task, SummaryView)>
    decreases logs.len(),
{
    if logs.len() == 0 {
        Seq::empty()
    } else {
        match summarize(logs.last().entries) {
            Ok(summary) => summaries_of(logs.drop_last()).push((logs.last().task, summary)),
            Err(_) => summaries_of(logs.drop_last()),
        }
    }
}

/// The faults of the tasks that have no summary, in the order of the logs.
pub open spec fn faults_of(logs: Seq<TaskLogView>) -> Seq<(Task, AggregationError)>
    decreases logs.len(),
{
    if logs.len() == 0 {
        Seq::empty()
    } else {
        match summarize(logs.last().entries) {
            Ok(_) => faults_of(logs.drop_last()),
            Err(fault) => faults_of(logs.drop_last()).push((logs.last().task, fault)),
        }
    }
}

/// Adding an entry keeps the logs at one per task.
pub proof fn lemma_with_entry_keeps_one_per_task(logs: Seq<TaskLogView>, entry: EntryView)
    requires
        one_log_per_task(logs),
    ensures
        one_log_per_task(with_entry(logs, entry)),
{
    let after = with_entry(logs, entry);
    assert forall|i: int, j: int| 0 <= i < j < after.len() implies (#[trigger] after[i]).task != (
    #[trigger] after[j]).task by {
        match classify(entry.file_name) {
            Some(task) => {
                if holds_task(logs, task) {
                    assert(after[i].task == logs[i].task);
                    assert(after[j].task == logs[j].task);
                } else {
                    if j < logs.len() {
                        assert(after[i] == logs[i] && after[j] == logs[j]);
                    } else {
                        assert(after[i] == logs[i]);
                    }
                }
            },
            None => {},
        }
    }
}

/// The summaries of the tasks of one file, and the faults of the tasks
/// that could not be summarized.
#[derive(Debug)]
pub struct Report {
    /// The summary of each task that has one, in the order of the logs.
    pub summaries: Vec<(Task, Summary)>,
    /// The fault of each task that has none, in the order of the logs.
    pub faults: Vec<(Task, AggregationError)>,
}

/// The views of a run of summaries, each with its task.
pub open spec fn summary_views(summaries: Seq<(Task, Summary)>) -> Seq<(Task, SummaryView)> {
    summaries.map_values(|pair: (Task, Summary)| (pair.0, pair.1@))
}

/// The logs of one file: one log for each task that an entry belongs to, in
/// the order in which the tasks first appear.
#[derive(Debug)]
pub struct LogFile {
    logs: Vec<TaskLog>,
}

impl View for LogFile {
    type V = Seq<TaskLogView>;

    closed spec fn view(&self) -> Seq<TaskLogView> {
        task_log_views(self.logs@)
    }
}

/// Puts `entry` at the end of the log of `task`, adding that log if there
/// is none.
fn store(logs: &mut Vec<TaskLog>, task: Task, entry: LogEntry)
    requires
        classify(entry.file_name@) == Some(task),
        one_log_per_task(task_log_views(old(logs)@)),
    ensures
        task_log_views(final(logs)@) == with_entry(task_log_views(old(logs)@), entry@),
{
    let ghost before = task_log_views(logs@);
    let mut i: usize = 0;
    while i < logs.len() && logs[i].task != task
        invariant
            i <= logs.len(),
            logs@ == old(logs)@,
            before == task_log_views(logs@),
            forall|k: int| 0 <= k < i ==> (#[trigger] before[k]).task != task,
        decreases logs.len() - i,
    {
        i += 1;
    }
    if i < logs.len() {
        assert(before[i as int].task == task);
        logs[i].log.push(entry);
        assert(task_log_views(logs@) =~= with_entry(before, entry@));
    } else {
        logs.push(TaskLog { task, log: Log::with(entry) });
        assert(task_log_views(logs@) =~= with_entry(before, entry@));
    }
}

impl LogFile {
    #[verifier::type_invariant]
    spec fn well_formed(self) -> bool {
        one_log_per_task(task_log_views(self.logs@))
    }

    /// The task logs held, as they are.
    pub closed spec fn held(&self) -> Seq<TaskLog> {
        self.logs@
    }

    /// A file without entries.
    pub fn new() -> (file: LogFile)
        ensures
            file@ == Seq::<TaskLogView>::empty(),
    {
        let file = LogFile { logs: Vec::new() };
        assert(file@ =~= Seq::<TaskLogView>::empty());
        file
    }

    /// Adds `entry` to the log of the task that its source belongs to, and
    /// says which task that is. An entry whose source belongs to no task is
    /// dropped.
    pub fn push(&mut self, entry: LogEntry) -> (task: Option<Task>)
        ensures
            final(self)@ == with_entry(old(self)@, entry@),
            task == classify(entry.file_name@),
    {
        match Task::from(entry.file_name.as_str()) {
            Some(task) => {
                let mut taken = LogFile::new();
                std::mem::swap(self, &mut taken);
                proof {
                    use_type_invariant(&taken);
                    lemma_with_entry_keeps_one_per_task(taken@, entry@);
                }
                let LogFile { mut logs } = taken;
                store(&mut logs, task, entry);
                *self = LogFile { logs };
                Some(task)
            },
            None => None,
        }
    }

    /// Reads the raw line `line` and adds the entry that it spells. Says
    /// whether the line spelled one; a line that does not is skipped.
    pub fn push_line(&mut self, line: &str) -> (recognized: bool)
        ensures
            final(self)@ == with_line(old(self)@, line@),
            recognized == entry_of_line(line@) is Some,
    {
        match parse_line(line) {
            Some(entry) => {
                self.push(entry);
                true
            },
            None => false,
        }
    }

    /// Reads all of `lines` in order. Gives the logs and the positions of
    /// the lines that were skipped because they spell no entry.
    pub fn from_lines(lines: &Vec<String>) -> (read: (LogFile, Vec<usize>))
        ensures
            read.0@ == with_lines(Seq::empty(), lines.deep_view()),
            read.1@ == rejected_lines(lines.deep_view()),
    {
        let mut file = LogFile::new();
        let mut skipped: Vec<usize> = Vec::new();
        let ghost all = lines.deep_view();
        let mut i: usize = 0;
        while i < lines.len()
            invariant
                i <= lines.len(),
                all == lines.deep_view(),
                file@ == with_lines(Seq::empty(), all.take(i as int)),
                skipped@ == rejected_lines(all.take(i as int)),
            decreases lines.len() - i,
        {
            proof {
                assert(all.take(i + 1).drop_last() =~= all.take(i as int));
                assert(all.take(i + 1).last() == lines[i as int]@);
            }
            let recognized = file.push_line(lines[i].as_str());
            if !recognized {
                skipped.push(i);
            }
            i += 1;
        }
        proof {
            assert(all.take(i as int) =~= all);
        }
        (file, skipped)
    }

    /// The task logs in the order in which the tasks first appeared.
    pub fn logs(&self) -> (logs: &Vec<TaskLog>)
        ensures
            logs@ == self.held(),
            task_log_views(logs@) == self@,
            one_log_per_task(self@),
    {
        proof {
            use_type_invariant(self);
        }
        &self.logs
    }

    /// The log of `task`, if any entry belongs to it.
    pub fn get(&self, task: Task) -> (log: Option<&Log>)
        ensures
            match log {
                Some(log) => exists|i: int|
                    0 <= i < self@.len() && (#[trigger] self@[i]).task == task && self@[i].entries
                        == log@,
                None => !holds_task(self@, task),
            },
    {
        let mut i: usize = 0;
        while i < self.logs.len()
            invariant
                i <= self.logs.len(),
                self@ == task_log_views(self.logs@),
                forall|k: int| 0 <= k < i ==> (#[trigger] self@[k]).task != task,
            decreases self.logs.len() - i,
        {
            if self.logs[i].task == task {
                assert(self@[i as int].task == task);
                return Some(&self.logs[i].log);
            }
            i += 1;
        }
        None
    }

    /// Summarizes every task. A task whose entries hold a fault has no
    /// summary and is listed with its fault instead; the other tasks are
    /// not affected by it.
    pub fn summary(&self) -> (report: Report)
        ensures
            summary_views(report.summaries@) == summaries_of(self@),
            report.faults@ == faults_of(self@),
    {
        let mut summaries: Vec<(Task, Summary)> = Vec::new();
        let mut faults: Vec<(Task, AggregationError)> = Vec::new();
        let ghost all = self@;
        let mut i: usize = 0;
        proof {
            assert(summary_views(summaries@) =~= summaries_of(all.take(0)));
        }
        while i < self.logs.len()
            invariant
                i <= self.logs.len(),
                all == self@,
                all == task_log_views(self.logs@),
                summary_views(summaries@) == summaries_of(all.take(i as int)),
                faults@ == faults_of(all.take(i as int)),
            decreases self.logs.len() - i,
        {
            let ghost before = summary_views(summaries@);
            proof {
                assert(all.take(i + 1).drop_last() =~= all.take(i as int));
                assert(all.take(i + 1).last() == self.logs[i as int]@);
            }
            let task = self.logs[i].task;
            match self.logs[i].log.summarize() {
                Ok(summary) => {
                    summaries.push((task, summary));
                    proof {
                        assert(summary_views(summaries@) =~= before.push((task, summary@)));
                    }
                },
                Err(fault) => {
                    faults.push((task, fault));
                },
            }
            i += 1;
        }
        proof {
            assert(all.take(i as int) =~= all);
        }
        Report { summaries, faults }
    }
}

} // verus!
