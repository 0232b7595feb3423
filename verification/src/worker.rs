//! The status of a running task as its owner sees it.
//!
//! A task starts as running and ends as resolved or rejected. The task
//! itself runs elsewhere; when it ends it sends its final status once over
//! a channel. The owner keeps the receiving end and the last status read,
//! and reads the channel without ever waiting.

use std::sync::mpsc::Receiver;
use vstd::prelude::*;

verus! {

#[verifier::external_type_specification]
#[verifier::external_body]
#[verifier::reject_recursive_types(T)]
pub struct ExReceiver<T>(std::sync::mpsc::Receiver<T>);

/// Where a task stands.
#[derive(Clone, Copy, Debug, PartialEq, Eq, Structural)]
pub enum WorkerStatus {
    Running,
    Resolved,
    Rejected,
}

impl WorkerStatus {
    /// Whether the task has ended.
    pub open spec fn spec_is_terminal(self) -> bool {
        self != WorkerStatus::Running
    }

    /// Whether the task has ended.
    #[verifier::when_used_as_spec(spec_is_terminal)]
    pub fn is_terminal(self) -> (ended: bool)
        ensures
            ended == self.spec_is_terminal(),
    {
        match self {
            WorkerStatus::Running => false,
            _ => true,
        }
    }

    /// The status that a task ends with.
    pub open spec fn spec_of_outcome(succeeded: bool) -> WorkerStatus {
        if succeeded {
            WorkerStatus::Resolved
        } else {
            WorkerStatus::Rejected
        }
    }

    /// The status that a task ends with: resolved where its computation
    /// succeeded, rejected where it failed.
    #[verifier::when_used_as_spec(spec_of_outcome)]
    pub fn of_outcome(succeeded: bool) -> (status: WorkerStatus)
        ensures
            status == WorkerStatus::spec_of_outcome(succeeded),
    {
        if succeeded {
            WorkerStatus::Resolved
        } else {
            WorkerStatus::Rejected
        }
    }

    /// The status after one look at the channel: a status that has ended
    /// stays, a running one takes what was delivered, if anything.
    pub open spec fn spec_observe(self, delivered: Option<WorkerStatus>) -> WorkerStatus {
        match (self, delivered) {
            (WorkerStatus::Running, Some(status)) => status,
            _ => self,
        }
    }

    /// The status after one look at the channel.
    #[verifier::when_used_as_spec(spec_observe)]
    pub fn observe(self, delivered: Option<WorkerStatus>) -> (status: WorkerStatus)
        ensures
            status == self.spec_observe(delivered),
    {
        match (self, delivered) {
            (WorkerStatus::Running, Some(status)) => status,
            _ => self,
        }
    }
}

/// The status after a series of looks at the channel, in order.
pub open spec fn spec_observe_all(
    status: WorkerStatus,
    delivered: Seq<Option<WorkerStatus>>,
) -> WorkerStatus
    decreases delivered.len(),
{
    if delivered.len() == 0 {
        status
    } else {
        spec_observe_all(status, delivered.drop_last()).spec_observe(delivered.last())
    }
}

/// A status that has ended is not changed by a look at the channel,
/// whatever the channel holds.
pub proof fn lemma_ended_status_stays(status: WorkerStatus, delivered: Option<WorkerStatus>)
    requires
        status.is_terminal(),
    ensures
        status.spec_observe(delivered) == status,
{
}

/// A status that has ended is not changed by any series of looks at the
/// channel: it never goes back to running.
pub proof fn lemma_ended_status_stays_for_good(
    status: WorkerStatus,
    delivered: Seq<Option<WorkerStatus>>,
)
    requires
        status.is_terminal(),
    ensures
        spec_observe_all(status, delivered) == status,
    decreases delivered.len(),
{
    if delivered.len() > 0 {
        lemma_ended_status_stays_for_good(status, delivered.drop_last());
    }
}

/// How many tasks stand where.
#[derive(Clone, Copy, Debug, PartialEq, Eq)]
pub struct Tally {
    pub running: usize,
    pub resolved: usize,
    pub rejected: usize,
}

/// How many of the statuses are `status`.
pub open spec fn count_of(statuses: Seq<WorkerStatus>, status: WorkerStatus) -> nat {
    statuses.to_multiset().count(status)
}

/// Counts the tasks that run, that resolved and that were rejected.
pub fn tally(statuses: &Vec<WorkerStatus>) -> (counts: Tally)
    ensures
        counts.running == count_of(statuses@, WorkerStatus::Running),
        counts.resolved == count_of(statuses@, WorkerStatus::Resolved),
        counts.rejected == count_of(statuses@, WorkerStatus::Rejected),
        counts.running + counts.resolved + counts.rejected == statuses@.len(),
{
    let mut counts = Tally { running: 0, resolved: 0, rejected: 0 };
    let mut i: usize = 0;
    proof {
        assert(statuses@.take(0) =~= Seq::<WorkerStatus>::empty());
        broadcast use vstd::seq_lib::group_to_multiset_ensures;
    }
    while i < statuses.len()
        invariant
            i <= statuses@.len(),
            counts.running == count_of(statuses@.take(i as int), WorkerStatus::Running),
            counts.resolved == count_of(statuses@.take(i as int), WorkerStatus::Resolved),
            counts.rejected == count_of(statuses@.take(i as int), WorkerStatus::Rejected),
            counts.running + counts.resolved + counts.rejected == i,
        decreases statuses@.len() - i,
    {
        proof {
            broadcast use vstd::seq_lib::group_to_multiset_ensures;
            assert(statuses@.take(i + 1) =~= statuses@.take(i as int).push(statuses@[i as int]));
        }
        match statuses[i] {
            WorkerStatus::Running => {
                counts.running += 1;
            },
            WorkerStatus::Resolved => {
                counts.resolved += 1;
            },
            WorkerStatus::Rejected => {
                counts.rejected += 1;
            },
        }
        i += 1;
    }
    proof {
        assert(statuses@.take(i as int) =~= statuses@);
    }
    counts
}

/// The owner's end of one task: the channel on which the task reports its
/// final status, and the last status read from it.
pub struct Worker {
    receiver: Receiver<WorkerStatus>,
    status: WorkerStatus,
}

impl Worker {
    /// The last status read.
    pub closed spec fn status(&self) -> WorkerStatus {
        self.status
    }

    /// The channel on which the task reports.
    pub closed spec fn channel(&self) -> Receiver<WorkerStatus> {
        self.receiver
    }

    /// The owner's end of a task that has just been started: it watches
    /// the channel given, and nothing has been read from it yet.
    pub fn new(receiver: Receiver<WorkerStatus>) -> (worker: Worker)
        ensures
            worker.channel() == receiver,
            worker.status() == WorkerStatus::Running,
    {
        Worker { receiver, status: WorkerStatus::Running }
    }

    /// The status of the task, without waiting for it. While the last
    /// status read is running, the channel is looked at once; a status
    /// that has ended is returned as it is and the channel is left alone.
    pub fn get_status(&mut self) -> (status: WorkerStatus)
        ensures
            status == final(self).status(),
            old(self).status().is_terminal() ==> status == old(self).status(),
            final(self).channel() == old(self).channel(),
    {
        if !self.status.is_terminal() {
            let delivered = poll(&self.receiver);
            self.status = self.status.observe(delivered);
        }
        self.status
    }
}

/// Calls `Receiver::try_recv`, which does not wait.
///
/// Trusted: nothing is claimed of what comes back, which depends on how
/// far the task has got.
#[verifier::external_body]
fn poll(receiver: &Receiver<WorkerStatus>) -> (delivered: Option<WorkerStatus>) {
    match receiver.try_recv() {
        Ok(status) => Some(status),
        Err(_) => None,
    }
}

} // verus!
