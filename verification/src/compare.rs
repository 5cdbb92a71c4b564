//! The cross-task comparison: the example counts of the first two tasks
//! side by side, call by call.
//!
//! The table is text. With two or more summaries it has a heading line
//! naming the first two tasks, then one line per call position: the example
//! count of the first task, a comma, the example count of the second task.
//! Where one task has fewer calls than the other, its cell is left empty;
//! no line is dropped. With a single summary the table is the name of the
//! task followed by its example counts, nothing between them. With no
//! summary it is empty.

use crate::decimal::{decimal, push_decimal};
use crate::summary::{Summary, SummaryView};
use crate::task::Task;
use vstd::prelude::*;
use vstd::string::*;

verus! {

/// The item of `items` at position `at`, or nothing past the end.
pub open spec fn item_at(items: Seq<u32>, at: int) -> Option<u32> {
    if 0 <= at < items.len() {
        Some(items[at])
    } else {
        None
    }
}

/// `left` and `right` paired position by position, as long as the longer of
/// the two; the shorter one gives `None` where it has run out.
pub open spec fn zip_longest(left: Seq<u32>, right: Seq<u32>) -> Seq<(Option<u32>, Option<u32>)> {
    Seq::new(
        if left.len() >= right.len() {
            left.len()
        } else {
            right.len()
        },
        |at: int| (item_at(left, at), item_at(right, at)),
    )
}

/// The text of one cell: the number in decimal, or nothing.
pub open spec fn cell_text(cell: Option<u32>) -> Seq<char> {
    match cell {
        Some(count) => decimal(count as nat),
        None => Seq::empty(),
    }
}

/// The text of one line of the table.
pub open spec fn row_text(row: (Option<u32>, Option<u32>)) -> Seq<char> {
    cell_text(row.0) + seq![','] + cell_text(row.1) + seq!['\n']
}

/// The lines of `rows` one after another.
pub open spec fn rows_text(rows: Seq<(Option<u32>, Option<u32>)>) -> Seq<char>
    decreases rows.len(),
{
    if rows.len() == 0 {
        Seq::empty()
    } else {
        rows_text(rows.drop_last()) + row_text(rows.last())
    }
}

/// The numbers of `counts` in decimal, one after another.
pub open spec fn counts_text(counts: Seq<u32>) -> Seq<char>
    decreases counts.len(),
{
    if counts.len() == 0 {
        Seq::empty()
    } else {
        counts_text(counts.drop_last()) + decimal(counts.last() as nat)
    }
}

/// The comparison table of `summaries`.
pub open spec fn comparison(summaries: Seq<(Task, SummaryView)>) -> Seq<char> {
    if summaries.len() == 0 {
        Seq::empty()
    } else if summaries.len() == 1 {
        summaries[0].0.label() + counts_text(summaries[0].1.example_counts)
    } else {
        summaries[0].0.label() + seq![','] + summaries[1].0.label() + seq!['\n'] + rows_text(
            zip_longest(summaries[0].1.example_counts, summaries[1].1.example_counts),
        )
    }
}

/// Pairs `left` and `right` position by position through the length of the
/// longer one.
pub fn zip_option(left: &Vec<u32>, right: &Vec<u32>) -> (rows: Vec<(Option<u32>, Option<u32>)>)
    ensures
        rows@ == zip_longest(left@, right@),
{
    let length = if left.len() >= right.len() {
        left.len()
    } else {
        right.len()
    };
    let mut rows: Vec<(Option<u32>, Option<u32>)> = Vec::new();
    let mut at: usize = 0;
    while at < length
        invariant
            at <= length,
            length == zip_longest(left@, right@).len(),
            rows@ == zip_longest(left@, right@).take(at as int),
        decreases length - at,
    {
        let first = if at < left.len() {
            Some(left[at])
        } else {
            None
        };
        let second = if at < right.len() {
            Some(right[at])
        } else {
            None
        };
        rows.push((first, second));
        assert(rows@ =~= zip_longest(left@, right@).take(at + 1));
        at += 1;
    }
    assert(rows@ =~= zip_longest(left@, right@));
    rows
}

/// Appends the text of one cell to `out`.
fn push_cell(out: &mut String, cell: Option<u32>)
    ensures
        final(out)@ == old(out)@ + cell_text(cell),
{
    match cell {
        Some(count) => push_decimal(out, count),
        None => {
            assert(out@ =~= old(out)@ + cell_text(cell));
        },
    }
}

/// The comparison table of `summaries` as text: the example counts of the
/// first two summaries side by side, or of the only one, or nothing.
pub fn compare(summaries: &Vec<(Task, Summary)>) -> (table: String)
    ensures
        table@ == comparison(crate::log_file::summary_views(summaries@)),
{
    let ghost views = crate::log_file::summary_views(summaries@);
    let mut table = String::new();
    if summaries.len() == 0 {
        return table;
    }
    table.append(summaries[0].0.name());
    if summaries.len() == 1 {
        let counts = &summaries[0].1.example_counts;
        let ghost heading = table@;
        let mut k: usize = 0;
        assert(table@ =~= heading + counts_text(counts@.take(0)));
        while k < counts.len()
            invariant
                k <= counts.len(),
                table@ == heading + counts_text(counts@.take(k as int)),
            decreases counts.len() - k,
        {
            push_decimal(&mut table, counts[k]);
            proof {
                assert(counts@.take(k + 1).drop_last() =~= counts@.take(k as int));
                assert(table@ =~= heading + counts_text(counts@.take(k + 1)));
            }
            k += 1;
        }
        assert(counts@.take(k as int) =~= counts@);
        assert(table@ =~= comparison(views));
        return table;
    }
    table.append(",");
    table.append(summaries[1].0.name());
    table.append("\n");
    proof {
        reveal_strlit(",");
        reveal_strlit("\n");
    }
    let rows = zip_option(&summaries[0].1.example_counts, &summaries[1].1.example_counts);
    let ghost heading = table@;
    assert(heading =~= views[0].0.label() + seq![','] + views[1].0.label() + seq!['\n']);
    let mut k: usize = 0;
    assert(table@ =~= heading + rows_text(rows@.take(0)));
    while k < rows.len()
        invariant
            k <= rows.len(),
            table@ == heading + rows_text(rows@.take(k as int)),
        decreases rows.len() - k,
    {
        let row = rows[k];
        push_cell(&mut table, row.0);
        table.append(",");
        push_cell(&mut table, row.1);
        table.append("\n");
        proof {
            reveal_strlit(",");
            reveal_strlit("\n");
            assert(rows@.take(k + 1).drop_last() =~= rows@.take(k as int));
            assert(table@ =~= heading + rows_text(rows@.take(k + 1)));
        }
        k += 1;
    }
    assert(rows@.take(k as int) =~= rows@);
    table
}

} // verus!
