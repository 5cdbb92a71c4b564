//! The programming exercises that a log's entries are grouped by.

use crate::text::{chars_of, contains, contains_chars};
use vstd::prelude::*;

verus! {

/// A programming exercise.
#[derive(Debug, Clone, Copy, PartialEq, Eq, Hash, Structural)]
pub enum Task {
    Abbreviate,
    CountDuplicates,
    MaxAndMin,
    Palindrome,
}

/// The task that a source name belongs to, by the first of these words that
/// occurs anywhere in it, letter case observed:
///
/// 1. `abbreviate`: [`Task::Abbreviate`]
/// 2. `count`: [`Task::CountDuplicates`]
/// 3. `max` or `min`: [`Task::MaxAndMin`]
/// 4. `palindrome`: [`Task::Palindrome`]
///
/// A name that holds none of them belongs to no task.
pub open spec fn classify(source: Seq<char>) -> Option<Task> {
    if contains(source, "abbreviate"@) {
        Some(Task::Abbreviate)
    } else if contains(source, "count"@) {
        Some(Task::CountDuplicates)
    } else if contains(source, "max"@) || contains(source, "min"@) {
        Some(Task::MaxAndMin)
    } else if contains(source, "palindrome"@) {
        Some(Task::Palindrome)
    } else {
        None
    }
}

impl Task {
    /// The name of the task as shown in reports.
    pub open spec fn label(self) -> Seq<char> {
        match self {
            Task::Abbreviate => "Abbreviate"@,
            Task::CountDuplicates => "Count Duplicates"@,
            Task::MaxAndMin => "Max And Min"@,
            Task::Palindrome => "Palindrome"@,
        }
    }

    /// The task that the source name `s` belongs to, if any. Where the name
    /// holds the words of several tasks, the one listed first in
    /// [`classify`] wins.
    pub fn from(s: &str) -> (task: Option<Task>)
        ensures
            task == classify(s@),
    {
        let source = chars_of(s);
        if contains_chars(&source, &chars_of("abbreviate")) {
            Some(Task::Abbreviate)
        } else if contains_chars(&source, &chars_of("count")) {
            Some(Task::CountDuplicates)
        } else if contains_chars(&source, &chars_of("max")) || contains_chars(
            &source,
            &chars_of("min"),
        ) {
            Some(Task::MaxAndMin)
        } else if contains_chars(&source, &chars_of("palindrome")) {
            Some(Task::Palindrome)
        } else {
            None
        }
    }

    /// The name of the task as shown in reports.
    pub fn name(&self) -> (name: &'static str)
        ensures
            name@ == self.label(),
    {
        match self {
            Task::Abbreviate => "Abbreviate",
            Task::CountDuplicates => "Count Duplicates",
            Task::MaxAndMin => "Max And Min",
            Task::Palindrome => "Palindrome",
        }
    }
}

} // verus!
