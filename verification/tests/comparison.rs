use session_log::{compare, zip_option, Log, LogEntry, LogEvent, Summary, Task};

fn summary_with_counts(counts: &[u32]) -> Summary {
    let mut log = Log::new();
    for (at, count) in counts.iter().enumerate() {
        log.push(LogEntry {
            time: at as i64,
            file_name: "source".to_string(),
            event: LogEvent::SynthStart { index: at, line_no: 1, example_count: *count },
        });
    }
    let summary = log.summarize().unwrap();
    assert_eq!(summary.example_counts, counts.to_vec());
    summary
}

#[test]
fn shorter_side_gives_empty_cells() {
    assert_eq!(
        zip_option(&vec![3, 5, 2], &vec![4, 4]),
        vec![(Some(3), Some(4)), (Some(5), Some(4)), (Some(2), None)]
    );
}

#[test]
fn either_side_may_be_the_shorter_one() {
    assert_eq!(
        zip_option(&vec![1], &vec![7, 8, 9]),
        vec![(Some(1), Some(7)), (None, Some(8)), (None, Some(9))]
    );
    assert_eq!(zip_option(&vec![], &vec![7]), vec![(None, Some(7))]);
    assert_eq!(zip_option(&vec![7], &vec![]), vec![(Some(7), None)]);
}

#[test]
fn equal_sides_pair_up_fully() {
    assert_eq!(zip_option(&vec![1, 2], &vec![3, 4]), vec![(Some(1), Some(3)), (Some(2), Some(4))]);
    assert_eq!(zip_option(&vec![], &vec![]), vec![]);
}

#[test]
fn table_of_two_tasks() {
    let summaries = vec![
        (Task::Palindrome, summary_with_counts(&[3, 5, 2])),
        (Task::CountDuplicates, summary_with_counts(&[4, 4])),
    ];
    assert_eq!(compare(&summaries), "Palindrome,Count Duplicates\n3,4\n5,4\n2,\n");
}

#[test]
fn table_with_shorter_first_task() {
    let summaries = vec![
        (Task::Abbreviate, summary_with_counts(&[10])),
        (Task::MaxAndMin, summary_with_counts(&[0, 4294967295, 100])),
    ];
    assert_eq!(compare(&summaries), "Abbreviate,Max And Min\n10,0\n,4294967295\n,100\n");
}

#[test]
fn table_of_two_tasks_without_calls_is_only_the_heading() {
    let summaries = vec![
        (Task::Abbreviate, summary_with_counts(&[])),
        (Task::MaxAndMin, summary_with_counts(&[])),
    ];
    assert_eq!(compare(&summaries), "Abbreviate,Max And Min\n");
}

#[test]
fn table_uses_only_the_first_two_tasks() {
    let summaries = vec![
        (Task::Palindrome, summary_with_counts(&[1])),
        (Task::CountDuplicates, summary_with_counts(&[2])),
        (Task::Abbreviate, summary_with_counts(&[3, 3, 3])),
    ];
    assert_eq!(compare(&summaries), "Palindrome,Count Duplicates\n1,2\n");
}

#[test]
fn table_of_one_task_is_its_name_and_counts() {
    let summaries = vec![(Task::Palindrome, summary_with_counts(&[3, 5, 20]))];
    assert_eq!(compare(&summaries), "Palindrome3520");
    let summaries = vec![(Task::MaxAndMin, summary_with_counts(&[]))];
    assert_eq!(compare(&summaries), "Max And Min");
}

#[test]
fn table_of_no_task_is_empty() {
    assert_eq!(compare(&Vec::new()), "");
}
