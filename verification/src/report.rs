//! The report on the tasks: the line that says where a task stands, and
//! the order of the lines, which is by row, then by column, whatever the
//! order in which the tasks ended. Each entry pairs a coordinate with what
//! belongs to the task of that coordinate, and the pairs are never taken
//! apart.

use crate::error::RemoteError;
use crate::grid::{has_label, label, precedes, spec_label, Coordinate};
use crate::worker::WorkerStatus;
use vstd::prelude::*;
use vstd::string::*;

verus! {

/// Whether `a` comes before `b` when cells are read row by row.
pub fn comes_before(a: Coordinate, b: Coordinate) -> (before: bool)
    ensures
        before == precedes(a, b),
{
    a.0 < b.0 || (a.0 == b.0 && a.1 < b.1)
}

/// Whether no entry comes before an earlier one.
pub open spec fn in_report_order<T>(entries: Seq<(Coordinate, T)>) -> bool {
    forall|i: int, j: int|
        0 <= i < j < entries.len() ==> !precedes(#[trigger] entries[j].0, #[trigger] entries[i].0)
}

/// What the entries hold for one coordinate, in the order of the entries.
pub open spec fn entries_at<T>(entries: Seq<(Coordinate, T)>, coordinate: Coordinate) -> Seq<T>
    decreases entries.len(),
{
    if entries.len() == 0 {
        Seq::empty()
    } else if entries.last().0 == coordinate {
        entries_at(entries.drop_last(), coordinate).push(entries.last().1)
    } else {
        entries_at(entries.drop_last(), coordinate)
    }
}

/// What two runs of entries hold for a coordinate is what the first
/// holds, then what the second holds.
pub proof fn lemma_entries_at_concat<T>(
    first: Seq<(Coordinate, T)>,
    second: Seq<(Coordinate, T)>,
    coordinate: Coordinate,
)
    ensures
        entries_at(first + second, coordinate) == entries_at(first, coordinate) + entries_at(
            second,
            coordinate,
        ),
    decreases second.len(),
{
    if second.len() == 0 {
        assert(first + second =~= first);
        assert(entries_at(first, coordinate) + entries_at(second, coordinate) =~= entries_at(
            first,
            coordinate,
        ));
    } else {
        assert((first + second).drop_last() =~= first + second.drop_last());
        assert((first + second).last() == second.last());
        lemma_entries_at_concat(first, second.drop_last(), coordinate);
        if second.last().0 == coordinate {
            assert(entries_at(first + second, coordinate) =~= entries_at(first, coordinate)
                + entries_at(second, coordinate));
        }
    }
}

/// Entries that all stand at other coordinates hold nothing for this one.
pub proof fn lemma_entries_at_elsewhere<T>(entries: Seq<(Coordinate, T)>, coordinate: Coordinate)
    requires
        forall|i: int| 0 <= i < entries.len() ==> (#[trigger] entries[i]).0 != coordinate,
    ensures
        entries_at(entries, coordinate) == Seq::<T>::empty(),
    decreases entries.len(),
{
    if entries.len() > 0 {
        assert(entries.last() == entries[entries.len() - 1]);
        assert forall|i: int| 0 <= i < entries.drop_last().len() implies (
        #[trigger] entries.drop_last()[i]).0 != coordinate by {
            assert(entries.drop_last()[i] == entries[i]);
        }
        lemma_entries_at_elsewhere(entries.drop_last(), coordinate);
    }
}

/// Entries hold something for a coordinate exactly when one of them
/// stands at it.
pub proof fn lemma_entries_at_some<T>(entries: Seq<(Coordinate, T)>, coordinate: Coordinate)
    ensures
        entries_at(entries, coordinate).len() > 0 <==> exists|i: int|
            0 <= i < entries.len() && (#[trigger] entries[i]).0 == coordinate,
    decreases entries.len(),
{
    if entries.len() > 0 {
        let front = entries.drop_last();
        lemma_entries_at_some(front, coordinate);
        if entries.last().0 == coordinate {
            assert(entries[entries.len() - 1].0 == coordinate);
        } else if entries_at(front, coordinate).len() > 0 {
            let i = choose|i: int| 0 <= i < front.len() && (#[trigger] front[i]).0 == coordinate;
            assert(entries[i].0 == coordinate);
        } else {
            assert forall|i: int| 0 <= i < entries.len() implies (#[trigger] entries[i]).0
                != coordinate by {
                if i < front.len() {
                    assert(front[i] == entries[i]);
                }
            }
        }
    }
}

/// What belongs to each coordinate settles the report: two lists in the
/// order of the report that hold the same for every coordinate are one and
/// the same list, in whatever order their entries were gathered.
pub proof fn lemma_report_order_is_unique<T>(
    first: Seq<(Coordinate, T)>,
    second: Seq<(Coordinate, T)>,
)
    requires
        in_report_order(first),
        in_report_order(second),
        forall|coordinate: Coordinate| #[trigger]
            entries_at(first, coordinate) == entries_at(second, coordinate),
    ensures
        first == second,
    decreases first.len(),
{
    if first.len() == 0 {
        if second.len() > 0 {
            let c = second.last().0;
            assert(entries_at(first, c) == entries_at(second, c));
            assert(entries_at(second, c).len() > 0);
        }
        assert(first =~= second);
    } else {
        let c = first.last().0;
        let x = first.last().1;
        assert(entries_at(first, c) == entries_at(second, c));
        assert(entries_at(first, c) == entries_at(first.drop_last(), c).push(x));
        lemma_entries_at_some(second, c);
        let i = choose|i: int| 0 <= i < second.len() && (#[trigger] second[i]).0 == c;
        let d = second.last().0;
        let y = second.last().1;
        assert(second.last() == second[second.len() - 1]);
        assert(!precedes(d, c)) by {
            if i < second.len() - 1 {
                assert(!precedes(second[second.len() - 1].0, second[i].0));
            }
        }
        assert(entries_at(first, d) == entries_at(second, d));
        assert(entries_at(second, d) == entries_at(second.drop_last(), d).push(y));
        lemma_entries_at_some(first, d);
        let j = choose|j: int| 0 <= j < first.len() && (#[trigger] first[j]).0 == d;
        assert(first.last() == first[first.len() - 1]);
        assert(!precedes(c, d)) by {
            if j < first.len() - 1 {
                assert(!precedes(first[first.len() - 1].0, first[j].0));
            }
        }
        assert(c.0 == d.0 && c.1 == d.1);
        assert(c == d);
        let front = entries_at(first.drop_last(), c);
        let other = entries_at(second.drop_last(), c);
        assert(front.push(x) == other.push(y));
        assert(front.push(x).last() == x);
        assert(other.push(y).last() == y);
        assert(front.push(x).drop_last() =~= front);
        assert(other.push(y).drop_last() =~= other);
        assert(x == y);
        assert forall|coordinate: Coordinate| #[trigger]
            entries_at(first.drop_last(), coordinate) == entries_at(
                second.drop_last(),
                coordinate,
            ) by {
            assert(entries_at(first, coordinate) == entries_at(second, coordinate));
        }
        assert forall|i: int, j: int| 0 <= i < j < first.drop_last().len() implies !precedes(
            #[trigger] first.drop_last()[j].0,
            #[trigger] first.drop_last()[i].0,
        ) by {
            assert(!precedes(first[j].0, first[i].0));
        }
        assert forall|i: int, j: int| 0 <= i < j < second.drop_last().len() implies !precedes(
            #[trigger] second.drop_last()[j].0,
            #[trigger] second.drop_last()[i].0,
        ) by {
            assert(!precedes(second[j].0, second[i].0));
        }
        lemma_report_order_is_unique(first.drop_last(), second.drop_last());
        assert(first.last() == second.last());
        assert(first =~= first.drop_last().push(first.last()));
        assert(second =~= second.drop_last().push(second.last()));
    }
}

/// The first place in ordered entries whose coordinate comes after
/// `coordinate`, or their number where there is none.
fn place_after<T>(entries: &Vec<(Coordinate, T)>, coordinate: Coordinate) -> (place: usize)
    requires
        in_report_order(entries@),
    ensures
        place <= entries@.len(),
        forall|i: int| 0 <= i < place ==> !precedes(coordinate, (#[trigger] entries@[i]).0),
        forall|i: int|
            place <= i < entries@.len() ==> precedes(coordinate, (#[trigger] entries@[i]).0),
{
    let mut place: usize = 0;
    while place < entries.len() && !comes_before(coordinate, entries[place].0)
        invariant
            place <= entries@.len(),
            forall|i: int| 0 <= i < place ==> !precedes(coordinate, (#[trigger] entries@[i]).0),
        decreases entries@.len() - place,
    {
        place += 1;
    }
    proof {
        if place < entries@.len() {
            assert forall|i: int| place <= i < entries@.len() implies precedes(
                coordinate,
                (#[trigger] entries@[i]).0,
            ) by {
                if place < i {
                    assert(!precedes(entries@[i].0, entries@[place as int].0));
                }
            }
        }
    }
    place
}

/// Puts entries into the order of the report: by row, then by column.
/// What belongs to a coordinate stays with it, and entries of one
/// coordinate keep the order they came in.
pub fn sort_by_coordinate<T>(entries: Vec<(Coordinate, T)>) -> (sorted: Vec<(Coordinate, T)>)
    ensures
        sorted@.len() == entries@.len(),
        in_report_order(sorted@),
        forall|coordinate: Coordinate| #[trigger]
            entries_at(sorted@, coordinate) == entries_at(entries@, coordinate),
{
    let mut rest = entries;
    let mut sorted: Vec<(Coordinate, T)> = Vec::new();
    let ghost mut done: int = 0;
    proof {
        assert(entries@.take(0) =~= Seq::<(Coordinate, T)>::empty());
        assert(entries@.skip(0) =~= entries@);
    }
    while rest.len() > 0
        invariant
            0 <= done <= entries@.len(),
            rest@ == entries@.skip(done),
            sorted@.len() == done,
            in_report_order(sorted@),
            forall|coordinate: Coordinate| #[trigger]
                entries_at(sorted@, coordinate) == entries_at(entries@.take(done), coordinate),
        decreases rest@.len(),
    {
        let entry = rest.remove(0);
        let place = place_after(&sorted, entry.0);
        proof {
            let before = sorted@;
            let after = before.insert(place as int, entry);
            let head = before.take(place as int);
            let tail = before.skip(place as int);
            assert(entry == entries@[done]);
            assert(after =~= head.push(entry) + tail);
            assert(before =~= head + tail);
            assert(entries@.take(done + 1) =~= entries@.take(done).push(entry));
            assert(entries@.skip(done).remove(0) =~= entries@.skip(done + 1));
            assert forall|i: int, j: int| 0 <= i < j < after.len() implies !precedes(
                #[trigger] after[j].0,
                #[trigger] after[i].0,
            ) by {
                if j == place {
                    assert(after[i] == before[i]);
                } else if i == place {
                    assert(after[j] == before[j - 1]);
                } else {
                    let bi = if i < place { i } else { i - 1 };
                    let bj = if j < place { j } else { j - 1 };
                    assert(after[i] == before[bi]);
                    assert(after[j] == before[bj]);
                }
            }
            assert forall|coordinate: Coordinate| #[trigger]
                entries_at(after, coordinate) == entries_at(
                    entries@.take(done + 1),
                    coordinate,
                ) by {
                lemma_entries_at_concat(head.push(entry), tail, coordinate);
                lemma_entries_at_concat(head, tail, coordinate);
                assert(head.push(entry).drop_last() =~= head);
                assert(entries@.take(done).push(entry).drop_last() =~= entries@.take(done));
                if entry.0 == coordinate {
                    assert forall|i: int| 0 <= i < tail.len() implies (#[trigger] tail[i]).0
                        != coordinate by {
                        assert(tail[i] == before[place + i]);
                    }
                    lemma_entries_at_elsewhere(tail, coordinate);
                    assert(entries_at(head, coordinate) + entries_at(tail, coordinate)
                        =~= entries_at(head, coordinate));
                    assert(entries_at(head.push(entry), coordinate) + entries_at(tail, coordinate)
                        =~= entries_at(head.push(entry), coordinate));
                }
            }
            done = done + 1;
        }
        sorted.insert(place, entry);
    }
    proof {
        assert(entries@.take(done) =~= entries@);
    }
    sorted
}

/// What is said of a task that stands at `status`.
pub open spec fn spec_status_words(status: WorkerStatus) -> Seq<char> {
    match status {
        WorkerStatus::Running => " running"@,
        WorkerStatus::Resolved => " terminated successfully"@,
        WorkerStatus::Rejected => " terminated with errors"@,
    }
}

/// The line that reports where the task of a machine stands: the label of
/// the machine, then what is said of the status.
pub open spec fn spec_status_line(coordinate: Coordinate, status: WorkerStatus) -> Seq<char> {
    spec_label(coordinate) + spec_status_words(status)
}

/// The line that reports where the task of a machine stands.
pub fn status_line(coordinate: Coordinate, status: WorkerStatus) -> (line: String)
    requires
        has_label(coordinate),
    ensures
        line@ == spec_status_line(coordinate, status),
{
    let mut line = label(coordinate);
    match status {
        WorkerStatus::Running => line.append(" running"),
        WorkerStatus::Resolved => line.append(" terminated successfully"),
        WorkerStatus::Rejected => line.append(" terminated with errors"),
    }
    line
}

/// The line that reports the failure of the task of a machine: the line of
/// a rejected task, a colon, and the message of the error.
pub fn failure_line(coordinate: Coordinate, error: &RemoteError) -> (line: String)
    requires
        has_label(coordinate),
    ensures
        line@ == spec_status_line(coordinate, WorkerStatus::Rejected) + ": "@ + error@,
{
    let mut line = status_line(coordinate, WorkerStatus::Rejected);
    line.append(": ");
    line.append(error.message().as_str());
    line
}

} // verus!
