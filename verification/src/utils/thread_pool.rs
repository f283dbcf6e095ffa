//! The bookkeeping of a fixed pool of workers fed by one job channel:
//! which workers still run, whether jobs are still accepted, and what a
//! worker does with what it receives.
//!
//! The threads and the channel belong to the caller. A worker thread
//! reports each outcome of waiting for a job, and does what the pool
//! answers.

use crate::error::ThreadPoolError;
use uuid::Uuid;
use vstd::prelude::*;

verus! {

#[verifier::external_type_specification]
#[verifier::external_body]
pub struct ExUuid(Uuid);

/// Calls `Uuid::new_v4`, which makes a random identifier. Nothing is
/// claimed of the identifier.
#[verifier::external_body]
fn fresh_id() -> Uuid {
    Uuid::new_v4()
}

/// Whether a worker still takes jobs.
#[derive(Debug, Clone, Copy, PartialEq, Eq, Structural)]
pub enum WorkerState {
    Running,
    Terminated,
}

/// What came of a worker's wait for a job.
#[derive(Debug)]
pub enum WorkerEvent {
    /// A job was received.
    Job,
    /// The channel is closed: the sending side is gone.
    Disconnected,
    /// The lock around the receiving side is poisoned; holds the reason.
    LockFailed(String),
}

/// What a worker does next.
#[derive(Debug)]
pub enum WorkerAction {
    /// Run the job that was received, then wait for the next.
    Execute,
    /// Leave the loop for the reason given.
    Exit(ThreadPoolError),
}

/// One worker of the pool.
#[derive(Debug)]
pub struct Worker {
    pub id: Uuid,
    pub state: WorkerState,
}

impl Worker {
    /// A running worker with the identifier `id`.
    pub fn new(id: Uuid) -> (worker: Worker)
        ensures
            worker.id == id,
            worker.state == WorkerState::Running,
    {
        Worker { id, state: WorkerState::Running }
    }

    /// Decides what a running worker does with the outcome of its wait:
    /// it runs a job and goes on, and it terminates where the channel is
    /// closed or the lock failed.
    pub fn step(&mut self, event: WorkerEvent) -> (action: WorkerAction)
        requires
            old(self).state == WorkerState::Running,
        ensures
            final(self).id == old(self).id,
            match event {
                WorkerEvent::Job => {
                    &&& final(self).state == WorkerState::Running
                    &&& action is Execute
                },
                WorkerEvent::Disconnected => {
                    &&& final(self).state == WorkerState::Terminated
                    &&& action matches WorkerAction::Exit(ThreadPoolError::ReceiveError)
                },
                WorkerEvent::LockFailed(reason) => {
                    &&& final(self).state == WorkerState::Terminated
                    &&& (action matches WorkerAction::Exit(ThreadPoolError::ReceiverLockError(m))
                        && m == reason)
                },
            },
    {
        match event {
            WorkerEvent::Job => WorkerAction::Execute,
            WorkerEvent::Disconnected => {
                self.state = WorkerState::Terminated;
                WorkerAction::Exit(ThreadPoolError::ReceiveError)
            },
            WorkerEvent::LockFailed(reason) => {
                self.state = WorkerState::Terminated;
                WorkerAction::Exit(ThreadPoolError::ReceiverLockError(reason))
            },
        }
    }
}

/// The workers of a pool, and whether the pool still accepts jobs.
#[derive(Debug)]
pub struct ThreadPool {
    pub workers: Vec<Worker>,
    pub accepting: bool,
}

impl ThreadPool {
    /// Whether every worker has terminated.
    pub open spec fn spec_all_terminated(&self) -> bool {
        forall|i: int|
            0 <= i < self.workers@.len() ==> (#[trigger] self.workers@[i]).state
                == WorkerState::Terminated
    }

    /// A pool of `size` running workers that accepts jobs.
    pub fn new(size: usize) -> (pool: ThreadPool)
        requires
            size > 0,
        ensures
            pool.workers@.len() == size,
            pool.accepting,
            forall|i: int|
                0 <= i < size ==> (#[trigger] pool.workers@[i]).state == WorkerState::Running,
    {
        let mut workers: Vec<Worker> = Vec::new();
        let mut i: usize = 0;
        while i < size
            invariant
                i <= size,
                workers@.len() == i,
                forall|j: int|
                    0 <= j < i ==> (#[trigger] workers@[j]).state == WorkerState::Running,
            decreases size - i,
        {
            workers.push(Worker::new(fresh_id()));
            i += 1;
        }
        ThreadPool { workers, accepting: true }
    }

    /// Decides whether a job can be submitted: it can while the pool
    /// accepts jobs, and is rejected with `SendError` once the pool has
    /// been closed.
    pub fn execute(&self) -> (res: Result<(), ThreadPoolError>)
        ensures
            res.is_ok() == self.accepting,
            res matches Err(e) ==> e matches ThreadPoolError::SendError(m) && m@
                == "Sender is not innitialized"@,
    {
        if self.accepting {
            Ok(())
        } else {
            Err(ThreadPoolError::SendError(String::from_str("Sender is not innitialized")))
        }
    }

    /// Closes the pool: no job is accepted any more. The workers are
    /// left as they are.
    pub fn close(&mut self)
        ensures
            !final(self).accepting,
            final(self).workers == old(self).workers,
    {
        self.accepting = false;
    }

    /// Records what came of the wait of worker `index`, and decides what
    /// the worker does next: it runs a job and goes on, and it terminates
    /// with `ReceiveError` where the channel is closed and with
    /// `ReceiverLockError` where the lock failed. The other workers are
    /// left as they are.
    pub fn record(&mut self, index: usize, event: WorkerEvent) -> (action: WorkerAction)
        requires
            index < old(self).workers@.len(),
            old(self).workers@[index as int].state == WorkerState::Running,
        ensures
            final(self).accepting == old(self).accepting,
            final(self).workers@.len() == old(self).workers@.len(),
            forall|j: int|
                0 <= j < old(self).workers@.len() && j != index ==> final(self).workers@[j] == old(
                    self,
                ).workers@[j],
            final(self).workers@[index as int].id == old(self).workers@[index as int].id,
            match event {
                WorkerEvent::Job => {
                    &&& final(self).workers@[index as int].state == WorkerState::Running
                    &&& action is Execute
                },
                WorkerEvent::Disconnected => {
                    &&& final(self).workers@[index as int].state == WorkerState::Terminated
                    &&& action matches WorkerAction::Exit(ThreadPoolError::ReceiveError)
                },
                WorkerEvent::LockFailed(reason) => {
                    &&& final(self).workers@[index as int].state == WorkerState::Terminated
                    &&& (action matches WorkerAction::Exit(ThreadPoolError::ReceiverLockError(m))
                        && m == reason)
                },
            },
    {
        let mut worker = self.workers.remove(index);
        let action = worker.step(event);
        self.workers.insert(index, worker);
        action
    }

    /// Whether every worker has terminated, so that joining them all
    /// returns.
    pub fn all_terminated(&self) -> (done: bool)
        ensures
            done == self.spec_all_terminated(),
    {
        let mut i: usize = 0;
        while i < self.workers.len()
            invariant
                i <= self.workers.len(),
                forall|j: int|
                    0 <= j < i ==> (#[trigger] self.workers@[j]).state == WorkerState::Terminated,
            decreases self.workers.len() - i,
        {
            if self.workers[i].state != WorkerState::Terminated {
                return false;
            }
            i += 1;
        }
        true
    }
}

} // verus!
