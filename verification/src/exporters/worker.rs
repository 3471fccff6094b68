//! The queue between requests and the database, and what its one writer does.
//!
//! A request never waits for the database: a sample that finds the queue full
//! is dropped and counted. The writer takes samples in the order in which they
//! came and tries each a few times. Once the queue is closed, it writes what is
//! still in it and ends.

use std::collections::VecDeque;
use vstd::prelude::*;
use super::one_more;

verus! {

/// How many samples wait for the writer at most.
pub const CAPACITY: usize = 1024;

/// How often a sample is tried again.
pub const MAX_RETRIES: usize = 3;

/// How long the writer waits for a sample before it looks again, in
/// milliseconds.
pub const IDLE_POLL_MS: u64 = 2;

/// How long a flush is waited for at most, in seconds.
pub const FLUSH_WAIT_SECS: u64 = 60;

/// How long one attempt to write may take, in seconds.
pub const REQUEST_TIMEOUT_SECS: u64 = 10;

/// How long the writer is waited for at most when the export ends, in seconds.
pub const JOIN_BUDGET_SECS: u64 = 120;

/// How long is waited before the writer is looked at again, in milliseconds.
pub const JOIN_POLL_MS: u64 = 10;

/// What became of a sample.
#[derive(Debug, Clone, Copy, PartialEq, Eq, Structural)]
pub enum SendOutcome {
    Queued,
    /// The queue was full.
    Dropped,
    /// The queue is closed for good.
    ShutDown,
}

/// What the writer finds in the queue.
#[derive(Debug, PartialEq, Eq)]
pub enum Poll<T> {
    Ready(T),
    Empty,
    /// The queue is closed, and empty.
    Gone,
}

/// The queue, with the flushes that wait for it.
pub struct WriterQueue<T> {
    samples: VecDeque<T>,
    open: bool,
    waiters: Vec<u64>,
    next_ticket: u64,
    drain: bool,
    retries: u64,
    dropped: u64,
}

/// How long is waited after a failed attempt, in milliseconds; nothing where
/// it was the last one. Attempts are counted from 0.
pub open spec fn delay_after(attempt: nat) -> Option<u64> {
    if attempt == 0 {
        Some(100)
    } else if attempt == 1 {
        Some(500)
    } else if attempt == 2 {
        Some(2000)
    } else {
        None
    }
}

/// What is done with a sample next.
#[derive(Debug, Clone, Copy, PartialEq, Eq, Structural)]
pub enum WriteStep {
    /// Wait this many milliseconds, then try again.
    RetryAfter(u64),
    /// The sample was written.
    Written,
    /// The sample was dropped.
    GivenUp,
}

/// What the writer does next.
#[derive(Debug, PartialEq, Eq)]
pub enum WorkerAction<T> {
    /// Write the sample, then look again.
    Write(T),
    /// Answer the flushes, then look again at once.
    Acknowledge,
    /// Answer the flushes, then wait a little.
    AcknowledgeAndWait,
    /// Answer the flushes and end.
    Finish,
}

/// What a wait for the writer comes to.
#[derive(Debug, Clone, Copy, PartialEq, Eq, Structural)]
pub enum JoinStep {
    /// The writer has ended.
    Joined,
    /// The time is over; the writer ends by itself.
    GaveUp,
    /// Wait a little and look again.
    Wait,
}

impl<T> WriterQueue<T> {
    /// The samples that wait, in the order in which they came.
    pub closed spec fn waiting(self) -> Seq<T> {
        self.samples@
    }

    /// Whether samples are still taken.
    pub closed spec fn is_open(self) -> bool {
        self.open
    }

    /// The tickets of the flushes that wait.
    pub closed spec fn tickets(self) -> Seq<u64> {
        self.waiters@
    }

    /// The number of the next ticket.
    pub closed spec fn next(self) -> u64 {
        self.next_ticket
    }

    /// How often a sample was tried again.
    pub closed spec fn retried(self) -> u64 {
        self.retries
    }

    /// How many samples were dropped.
    pub closed spec fn lost(self) -> u64 {
        self.dropped
    }

    /// Whether a flush asked to be answered as soon as no sample waits.
    pub closed spec fn draining(self) -> bool {
        self.drain
    }

    /// The queue never holds more than it may.
    pub open spec fn well_formed(self) -> bool {
        self.waiting().len() <= CAPACITY
    }

    /// An open queue without samples.
    pub fn new() -> (queue: WriterQueue<T>)
        ensures
            queue.well_formed(),
            queue.waiting() == Seq::<T>::empty(),
            queue.is_open(),
            queue.tickets() == Seq::<u64>::empty(),
            queue.next() == 0,
            !queue.draining(),
            queue.retried() == 0,
            queue.lost() == 0,
    {
        WriterQueue {
            samples: VecDeque::new(),
            open: true,
            waiters: Vec::new(),
            next_ticket: 0,
            drain: false,
            retries: 0,
            dropped: 0,
        }
    }

    /// Takes a sample, without waiting: a full queue drops and counts it, and a
    /// closed one takes none.
    pub fn enqueue(&mut self, sample: T) -> (outcome: SendOutcome)
        requires
            old(self).well_formed(),
        ensures
            final(self).well_formed(),
            final(self).is_open() == old(self).is_open(),
            final(self).tickets() == old(self).tickets(),
            final(self).next() == old(self).next(),
            final(self).draining() == old(self).draining(),
            final(self).retried() == old(self).retried(),
            outcome == if !old(self).is_open() {
                SendOutcome::ShutDown
            } else if old(self).waiting().len() < CAPACITY {
                SendOutcome::Queued
            } else {
                SendOutcome::Dropped
            },
            final(self).waiting() == if outcome == SendOutcome::Queued {
                old(self).waiting().push(sample)
            } else {
                old(self).waiting()
            },
            final(self).lost() == if outcome == SendOutcome::Dropped {
                one_more(old(self).lost())
            } else {
                old(self).lost()
            },
    {
        if !self.open {
            return SendOutcome::ShutDown;
        }
        if self.samples.len() < CAPACITY {
            self.samples.push_back(sample);
            return SendOutcome::Queued;
        }
        self.dropped = self.dropped.wrapping_add(1);
        SendOutcome::Dropped
    }

    /// Takes out the sample that waited longest, if there is one.
    pub fn poll_samples(&mut self) -> (poll: Poll<T>)
        requires
            old(self).well_formed(),
        ensures
            final(self).well_formed(),
            final(self).is_open() == old(self).is_open(),
            final(self).tickets() == old(self).tickets(),
            final(self).next() == old(self).next(),
            final(self).draining() == old(self).draining(),
            final(self).retried() == old(self).retried(),
            final(self).lost() == old(self).lost(),
            if old(self).waiting().len() > 0 {
                &&& poll == Poll::Ready(old(self).waiting()[0])
                &&& final(self).waiting() == old(self).waiting().drop_first()
            } else {
                &&& poll == if old(self).is_open() {
                    Poll::<T>::Empty
                } else {
                    Poll::<T>::Gone
                }
                &&& final(self).waiting() == old(self).waiting()
            },
    {
        match self.samples.pop_front() {
            Some(sample) => {
                proof {
                    assert(self.samples@ =~= old(self).samples@.drop_first());
                }
                Poll::Ready(sample)
            },
            None => if self.open {
                Poll::Empty
            } else {
                Poll::Gone
            },
        }
    }

    /// Takes no more samples; those that wait stay. Closing twice is closing
    /// once.
    pub fn close(&mut self)
        ensures
            !final(self).is_open(),
            final(self).waiting() == old(self).waiting(),
            final(self).tickets() == old(self).tickets(),
            final(self).next() == old(self).next(),
            final(self).draining() == old(self).draining(),
            final(self).retried() == old(self).retried(),
            final(self).lost() == old(self).lost(),
    {
        self.open = false;
    }

    /// Registers a flush and gives it a ticket. It is answered as soon as no
    /// sample waits.
    pub fn register_flush(&mut self) -> (ticket: u64)
        ensures
            ticket == old(self).next(),
            final(self).next() == one_more(old(self).next()),
            final(self).draining(),
            final(self).tickets() == old(self).tickets().push(ticket),
            final(self).is_open() == old(self).is_open(),
            final(self).waiting() == old(self).waiting(),
            final(self).retried() == old(self).retried(),
            final(self).lost() == old(self).lost(),
    {
        let ticket = self.next_ticket;
        self.next_ticket = self.next_ticket.wrapping_add(1);
        self.waiters.push(ticket);
        self.drain = true;
        ticket
    }

    /// Takes back a flush that gave up waiting.
    pub fn withdraw_flush(&mut self, ticket: u64)
        ensures
            final(self).tickets() == without_first(old(self).tickets(), ticket, 0),
            final(self).next() == old(self).next(),
            final(self).draining() == old(self).draining(),
            final(self).is_open() == old(self).is_open(),
            final(self).waiting() == old(self).waiting(),
            final(self).retried() == old(self).retried(),
            final(self).lost() == old(self).lost(),
    {
        let ghost before = self.waiters@;
        let mut i: usize = 0;
        while i < self.waiters.len()
            invariant
                i <= self.waiters@.len(),
                self.waiters@ == before,
                before == old(self).tickets(),
                self.next() == old(self).next(),
                self.draining() == old(self).draining(),
                self.is_open() == old(self).is_open(),
                self.waiting() == old(self).waiting(),
                self.retried() == old(self).retried(),
                self.lost() == old(self).lost(),
                without_first(before, ticket, 0) == without_first(before, ticket, i as int),
            decreases self.waiters@.len() - i,
        {
            if self.waiters[i] == ticket {
                self.waiters.remove(i);
                return;
            }
            i += 1;
        }
    }

    /// Answers every flush that waits: those tickets are handed back, and none
    /// waits any more.
    pub fn answer_flushes(&mut self) -> (answered: Vec<u64>)
        ensures
            answered@ == old(self).tickets(),
            final(self).tickets() == Seq::<u64>::empty(),
            final(self).next() == old(self).next(),
            final(self).draining() == old(self).draining(),
            final(self).is_open() == old(self).is_open(),
            final(self).waiting() == old(self).waiting(),
            final(self).retried() == old(self).retried(),
            final(self).lost() == old(self).lost(),
    {
        let mut answered: Vec<u64> = Vec::new();
        answered.append(&mut self.waiters);
        proof {
            assert(answered@ =~= old(self).waiters@);
            assert(self.waiters@ =~= Seq::<u64>::empty());
        }
        answered
    }

    /// What the writer does next. While samples wait it writes the one that
    /// waited longest; a flush is answered only when none waits, and the writer
    /// ends only when the queue is closed and none waits. Where a flush asked for
    /// it, the writer looks again at once after it answered.
    pub fn next_action(&mut self) -> (action: WorkerAction<T>)
        requires
            old(self).well_formed(),
        ensures
            final(self).well_formed(),
            final(self).is_open() == old(self).is_open(),
            final(self).tickets() == old(self).tickets(),
            final(self).next() == old(self).next(),
            final(self).retried() == old(self).retried(),
            final(self).lost() == old(self).lost(),
            if old(self).waiting().len() > 0 {
                &&& action == WorkerAction::Write(old(self).waiting()[0])
                &&& final(self).waiting() == old(self).waiting().drop_first()
                &&& final(self).draining() == old(self).draining()
            } else {
                &&& !final(self).draining()
                &&& action == if !old(self).is_open() {
                    WorkerAction::<T>::Finish
                } else if old(self).draining() {
                    WorkerAction::<T>::Acknowledge
                } else {
                    WorkerAction::<T>::AcknowledgeAndWait
                }
                &&& final(self).waiting() == old(self).waiting()
            },
    {
        match self.poll_samples() {
            Poll::Ready(sample) => WorkerAction::Write(sample),
            Poll::Gone => {
                self.drain = false;
                WorkerAction::Finish
            },
            Poll::Empty => if self.drain {
                self.drain = false;
                WorkerAction::Acknowledge
            } else {
                WorkerAction::AcknowledgeAndWait
            },
        }
    }

    /// Counts a sample that was not even tried.
    pub fn drop_unwritable(&mut self)
        ensures
            final(self).lost() == one_more(old(self).lost()),
            final(self).retried() == old(self).retried(),
            final(self).tickets() == old(self).tickets(),
            final(self).next() == old(self).next(),
            final(self).draining() == old(self).draining(),
            final(self).is_open() == old(self).is_open(),
            final(self).waiting() == old(self).waiting(),
    {
        self.dropped = self.dropped.wrapping_add(1);
    }

    /// What is done with a sample after an attempt to write it, and what is
    /// counted. Attempts are counted from 0.
    pub fn after_attempt(&mut self, attempt: usize, written: bool) -> (step: WriteStep)
        ensures
            step == if written {
                WriteStep::Written
            } else {
                match delay_after(attempt as nat) {
                    Some(ms) => WriteStep::RetryAfter(ms),
                    None => WriteStep::GivenUp,
                }
            },
            final(self).retried() == if step is RetryAfter {
                one_more(old(self).retried())
            } else {
                old(self).retried()
            },
            final(self).lost() == if step == WriteStep::GivenUp {
                one_more(old(self).lost())
            } else {
                old(self).lost()
            },
            final(self).tickets() == old(self).tickets(),
            final(self).next() == old(self).next(),
            final(self).draining() == old(self).draining(),
            final(self).is_open() == old(self).is_open(),
            final(self).waiting() == old(self).waiting(),
    {
        if written {
            return WriteStep::Written;
        }
        let delay: u64 = if attempt == 0 {
            100
        } else if attempt == 1 {
            500
        } else if attempt == 2 {
            2000
        } else {
            self.dropped = self.dropped.wrapping_add(1);
            return WriteStep::GivenUp;
        };
        self.retries = self.retries.wrapping_add(1);
        WriteStep::RetryAfter(delay)
    }

    /// How many samples were dropped.
    pub fn dropped_total(&self) -> (n: u64)
        ensures
            n == self.lost(),
    {
        self.dropped
    }

    /// How often a sample was tried again.
    pub fn retries_total(&self) -> (n: u64)
        ensures
            n == self.retried(),
    {
        self.retries
    }
}

/// Tickets without the first one at or after `from` that is this one.
pub open spec fn without_first(tickets: Seq<u64>, ticket: u64, from: int) -> Seq<u64>
    decreases tickets.len() - from,
{
    if from < 0 || from >= tickets.len() {
        tickets
    } else if tickets[from] == ticket {
        tickets.remove(from)
    } else {
        without_first(tickets, ticket, from + 1)
    }
}

/// What a wait for the writer comes to: it ended, or its time is over, or
/// neither.
pub fn join_step(finished: bool, now_ms: u64, deadline_ms: u64) -> (step: JoinStep)
    ensures
        step == if finished {
            JoinStep::Joined
        } else if now_ms >= deadline_ms {
            JoinStep::GaveUp
        } else {
            JoinStep::Wait
        },
{
    if finished {
        JoinStep::Joined
    } else if now_ms >= deadline_ms {
        JoinStep::GaveUp
    } else {
        JoinStep::Wait
    }
}

/// The steps of a sample whose first `n` attempts all fail: how many retries
/// are counted, and whether it is dropped.
pub open spec fn failing_chain(n: nat) -> (nat, bool)
    decreases n,
{
    if n == 0 {
        (0, false)
    } else {
        let (retries, dropped) = failing_chain((n - 1) as nat);
        if dropped {
            (retries, true)
        } else if delay_after((n - 1) as nat) is Some {
            (retries + 1, false)
        } else {
            (retries, true)
        }
    }
}

/// A sample that cannot be written is tried again three times, and dropped
/// after its fourth attempt.
pub proof fn law_three_retries_then_dropped(n: nat)
    ensures
        n <= MAX_RETRIES ==> failing_chain(n) == (n, false),
        n > MAX_RETRIES ==> failing_chain(n) == (MAX_RETRIES as nat, true),
    decreases n,
{
    if n > 0 {
        law_three_retries_then_dropped((n - 1) as nat);
    }
}

/// Samples that are taken leave in the order in which they came: after as many
/// have left as waited before it, the next one to leave is this one.
pub proof fn law_first_in_first_out<T>(waiting: Seq<T>, sample: T)
    ensures
        waiting.push(sample)[waiting.len() as int] == sample,
        waiting.len() > 0 ==> waiting.push(sample).drop_first() == waiting.drop_first().push(sample),
{
    if waiting.len() > 0 {
        assert(waiting.push(sample).drop_first() =~= waiting.drop_first().push(sample));
    }
}

} // verus!
