//! The race coordinator: one shared result channel that every worker may
//! send its winning value on, and one dedicated one-shot cancellation
//! channel per worker. The coordinator blocks on a single receive; the first
//! value to arrive wins, and the losers are told to stop, best-effort.
//!
//! The channels are std's mpsc primitives, taken on trust through the
//! declarations and wrappers below; everything around them is verified.

use std::sync::mpsc;
use vstd::prelude::*;

verus! {

#[verifier::external_type_specification]
#[verifier::external_body]
#[verifier::reject_recursive_types(T)]
pub struct ExSender<T>(mpsc::Sender<T>);

#[verifier::external_type_specification]
#[verifier::external_body]
#[verifier::reject_recursive_types(T)]
pub struct ExReceiver<T>(mpsc::Receiver<T>);

/// Relies on std's `mpsc::channel`: a connected sender/receiver pair for an
/// asynchronous (non-blocking send) channel.
pub assume_specification<T>[ mpsc::channel::<T> ]() -> (r: (
    mpsc::Sender<T>,
    mpsc::Receiver<T>,
));

/// Relies on `mpsc::Sender::clone`: another sending handle on the same
/// channel.
#[verifier::external_body]
fn clone_sender<T>(tx: &mpsc::Sender<T>) -> (r: mpsc::Sender<T>) {
    tx.clone()
}

/// Relies on `mpsc::Sender::send`: delivers the value unless the receiving
/// half is gone, and returns without blocking either way. The result is
/// discarded: a send to a worker or coordinator that already finished is
/// best-effort by design.
#[verifier::external_body]
fn send_value<T>(tx: &mpsc::Sender<T>, value: T) {
    let _ = tx.send(value);
}

/// Relies on `mpsc::Receiver::try_recv`: a non-blocking poll that yields a
/// value only if one is already waiting in the channel.
#[verifier::external_body]
fn try_recv_value<T>(rx: &mpsc::Receiver<T>) -> (r: Option<T>) {
    rx.try_recv().ok()
}

/// Relies on `mpsc::Receiver::recv`: blocks until either a value arrives
/// (`Some`) or every sender has been dropped and the channel is empty
/// (`None`).
#[verifier::external_body]
fn recv_value<T>(rx: &mpsc::Receiver<T>) -> (r: Option<T>) {
    rx.recv().ok()
}

/// Builds the worker pool: hands out one `Worker` per call, each with its
/// own cancellation channel and a clone of the shared result sender.
#[verifier::reject_recursive_types(T)]
pub struct SearchManager<T> {
    workers: Vec<mpsc::Sender<()>>,
    found_tx: mpsc::Sender<T>,
    found_rx: mpsc::Receiver<T>,
}

/// The coordinator once every worker has been spawned: it holds no result
/// sender of its own, so the blocking receive in `race` returns `None` as
/// soon as the last worker exits without having sent a value.
#[verifier::reject_recursive_types(T)]
pub struct ImmutableSearchManager<T> {
    workers: Vec<mpsc::Sender<()>>,
    found_rx: mpsc::Receiver<T>,
}

/// One worker's two channel ends: a receiver to poll for cancellation and a
/// sender to report a found value on.
#[verifier::reject_recursive_types(T)]
pub struct Worker<T> {
    stop_rx: mpsc::Receiver<()>,
    found_tx: mpsc::Sender<T>,
}

impl<T> SearchManager<T> {
    /// How many workers have been handed out so far.
    pub closed spec fn worker_count(&self) -> nat {
        self.workers@.len()
    }

    pub fn new() -> (r: SearchManager<T>)
        ensures
            r.worker_count() == 0,
    {
        let (found_tx, found_rx) = mpsc::channel();
        SearchManager { workers: Vec::new(), found_tx, found_rx }
    }

    /// A fresh worker: its own single-use cancellation channel, whose sending
    /// half the manager retains, and a clone of the shared result sender.
    pub fn new_worker(&mut self) -> (r: Worker<T>)
        ensures
            final(self).worker_count() == old(self).worker_count() + 1,
    {
        let (cancel_sender, cancel_receiver) = mpsc::channel();
        self.workers.push(cancel_sender);
        Worker::new(cancel_receiver, clone_sender(&self.found_tx))
    }

    /// Seals the pool. This consumes and drops the manager's own result
    /// sender, which matters: with it alive, `race` could block forever after
    /// every worker exited without a find.
    pub fn immutable(self) -> (r: ImmutableSearchManager<T>)
        ensures
            r.worker_count() == self.worker_count(),
    {
        ImmutableSearchManager { workers: self.workers, found_rx: self.found_rx }
    }
}

impl<T> ImmutableSearchManager<T> {
    /// How many workers the pool was sealed with.
    pub closed spec fn worker_count(&self) -> nat {
        self.workers@.len()
    }

    /// Blocks for the race's outcome: the first value any worker sends, or
    /// `None` once every worker has exited without sending one. On a win it
    /// signals every worker to stop, best-effort.
    pub fn race(self) -> (r: Option<T>) {
        match recv_value(&self.found_rx) {
            Some(x) => {
                self.stop_all_workers();
                Some(x)
            },
            None => None,
        }
    }

    /// Sends each worker its one-shot stop signal; workers that already
    /// exited are skipped by the channel without error.
    fn stop_all_workers(&self) {
        let mut i: usize = 0;
        while i < self.workers.len()
            decreases self.workers@.len() - i,
        {
            send_value(&self.workers[i], ());
            i += 1;
        }
    }
}

impl<T> Worker<T> {
    pub fn new(stop_rx: mpsc::Receiver<()>, found_tx: mpsc::Sender<T>) -> Worker<T> {
        Worker { stop_rx, found_tx }
    }

    /// Non-blocking poll of the cancellation channel: true once the
    /// coordinator has signalled this worker to stop.
    pub fn should_stop(&self) -> bool {
        let polled = try_recv_value(&self.stop_rx);
        polled.is_some()
    }

    /// Reports a found value on the shared result channel, without blocking;
    /// if the coordinator is already gone the value is simply dropped.
    pub fn found(&self, x: T) {
        send_value(&self.found_tx, x);
    }
}

} // verus!
