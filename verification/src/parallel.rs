//! Work distribution and progress counting for a build run.
//!
//! The queue is filled by one producer and then closed; workers take items
//! through a shared cursor, each item going to exactly one of them. Threads
//! and locks belong to the caller: the types here are plain values.

use vstd::prelude::*;
use crate::types::Frontmatter;

verus! {

/// Why a source file was not rebuilt.
#[derive(Debug, Clone, Copy, PartialEq, Eq, Structural)]
pub enum SkipReason {
    /// Its content and the templates are unchanged since the cached build.
    Cached,
    /// Its frontmatter marks it as a draft.
    Draft,
}

/// What became of one source file in a build run.
#[derive(Debug, Clone, PartialEq, Eq)]
pub enum BuildResult {
    /// The page was rendered and written.
    Success {
        path: String,
        slug: String,
        category: String,
        frontmatter: Frontmatter,
        file_hash: String,
        template_hash: String,
        output_path: String,
    },
    /// Nothing was written.
    Skipped { path: String, reason: SkipReason },
    /// A step failed; other files are not affected.
    Error { path: String, error: String },
}

/// One more than `n`, wrapping to zero at the largest value.
pub open spec fn wrapping_next(n: usize) -> usize {
    if n == usize::MAX {
        0
    } else {
        (n + 1) as usize
    }
}

/// Counts of built and skipped files.
#[derive(Debug)]
pub struct BuildProgress {
    built: usize,
    skipped: usize,
}

impl BuildProgress {
    /// Number of files counted as built.
    pub closed spec fn built(&self) -> usize {
        self.built
    }

    /// Number of files counted as skipped.
    pub closed spec fn skipped(&self) -> usize {
        self.skipped
    }

    /// Both counts at zero.
    pub fn new() -> (progress: Self)
        ensures
            progress.built() == 0,
            progress.skipped() == 0,
    {
        BuildProgress { built: 0, skipped: 0 }
    }

    /// Counts one more built file.
    pub fn increment_built(&mut self)
        ensures
            final(self).built() == wrapping_next(old(self).built()),
            final(self).skipped() == old(self).skipped(),
    {
        self.built = if self.built == usize::MAX { 0 } else { self.built + 1 };
    }

    /// Counts one more skipped file.
    pub fn increment_skipped(&mut self)
        ensures
            final(self).skipped() == wrapping_next(old(self).skipped()),
            final(self).built() == old(self).built(),
    {
        self.skipped = if self.skipped == usize::MAX { 0 } else { self.skipped + 1 };
    }

    /// Number of files counted as built.
    pub fn get_built(&self) -> (count: usize)
        ensures
            count == self.built(),
    {
        self.built
    }

    /// Number of files counted as skipped.
    pub fn get_skipped(&self) -> (count: usize)
        ensures
            count == self.skipped(),
    {
        self.skipped
    }
}

impl Default for BuildProgress {
    fn default() -> (progress: Self)
        ensures
            progress.built() == 0,
            progress.skipped() == 0,
    {
        Self::new()
    }
}

/// Number of worker threads to start: the detected hardware parallelism, or
/// four when it could not be detected.
pub fn get_thread_count(available: Option<usize>) -> (count: usize)
    ensures
        count >= 1,
        count == match available {
            Some(n) => if n >= 1 { n } else { 4 },
            None => 4usize,
        },
{
    match available {
        Some(n) => if n >= 1 { n } else { 4 },
        None => 4,
    }
}

/// An item that a closed queue did not accept.
#[derive(Debug)]
pub struct SendError<T>(pub T);

/// A queue of work items: filled in order, closed, then drained in the
/// same order through a `WorkReceiver`.
pub struct WorkQueue<T> {
    items: Vec<T>,
    closed: bool,
}

/// The consumer end of a `WorkQueue`: how many of its items have been
/// handed out. Workers share one receiver, so that no item goes out twice.
#[derive(Debug)]
pub struct WorkReceiver {
    next: usize,
}

impl WorkReceiver {
    /// Number of items handed out so far.
    pub closed spec fn taken(&self) -> nat {
        self.next as nat
    }
}

impl<T> WorkQueue<T> {
    /// The items sent so far, in the order sent.
    pub closed spec fn items(&self) -> Seq<T> {
        self.items@
    }

    /// Whether the queue is closed.
    pub closed spec fn closed(&self) -> bool {
        self.closed
    }

    /// An open queue without items.
    pub fn new() -> (queue: Self)
        ensures
            queue.items() == Seq::<T>::empty(),
            !queue.closed(),
    {
        WorkQueue { items: Vec::new(), closed: false }
    }

    /// Puts `item` at the end of the queue. A closed queue hands it back.
    pub fn send(&mut self, item: T) -> (sent: Result<(), SendError<T>>)
        ensures
            final(self).closed() == old(self).closed(),
            !old(self).closed() ==> sent is Ok && final(self).items() == old(self).items().push(
                item,
            ),
            old(self).closed() ==> sent == Err::<(), SendError<T>>(SendError(item)) && final(self).items() == old(self).items(),
    {
        if self.closed {
            Err(SendError(item))
        } else {
            self.items.push(item);
            Ok(())
        }
    }

    /// A consumer end that has handed out nothing yet.
    pub fn get_receiver(&self) -> (receiver: WorkReceiver)
        ensures
            receiver.taken() == 0,
    {
        WorkReceiver { next: 0 }
    }

    /// Closes the queue: no further item is accepted. What was sent stays
    /// to be received.
    pub fn close(&mut self)
        ensures
            final(self).closed(),
            final(self).items() == old(self).items(),
    {
        self.closed = true;
    }

    /// Whether the queue is closed.
    pub fn is_closed(&self) -> (closed: bool)
        ensures
            closed == self.closed(),
    {
        self.closed
    }

    /// Number of items sent.
    pub fn len(&self) -> (count: usize)
        ensures
            count == self.items().len(),
    {
        self.items.len()
    }

    /// Hands out the next item that `receiver` has not handed out yet, if
    /// there is one. `None` ends a worker's loop.
    pub fn recv<'a>(&'a self, receiver: &mut WorkReceiver) -> (item: Option<&'a T>)
        ensures
            old(receiver).taken() < self.items().len() ==> item == Some(
                &self.items()[old(receiver).taken() as int],
            ) && final(receiver).taken() == old(receiver).taken() + 1,
            old(receiver).taken() >= self.items().len() ==> item is None && final(receiver).taken() == old(receiver).taken(),
    {
        if receiver.next < self.items.len() {
            let item = &self.items[receiver.next];
            receiver.next = receiver.next + 1;
            Some(item)
        } else {
            None
        }
    }

    /// A worker's loop: takes items through `receiver` until none is left
    /// and processes each. A worker that runs alone gets every item that was
    /// not handed out before, and gives one result for each, in order.
    pub fn run_worker<R, F: Fn(&T) -> R>(&self, receiver: &mut WorkReceiver, process: F) -> (results:
        Vec<R>)
        requires
            forall|item: &T| call_requires(process, (item,)),
        ensures
            old(receiver).taken() <= self.items().len() ==> results@.len() == self.items().len()
                - old(receiver).taken() && final(receiver).taken() == self.items().len(),
            old(receiver).taken() > self.items().len() ==> results@.len() == 0 && final(receiver).taken() == old(receiver).taken(),
            forall|i: int|
                0 <= i < results@.len() ==> call_ensures(
                    process,
                    (&self.items()[old(receiver).taken() + i],),
                    #[trigger] results@[i],
                ),
    {
        let mut results: Vec<R> = Vec::new();
        let ghost start = receiver.taken();
        loop
            invariant
                forall|item: &T| call_requires(process, (item,)),
                start == old(receiver).taken(),
                start <= self.items().len() ==> start <= receiver.taken() <= self.items().len()
                    && results@.len() == receiver.taken() - start,
                start > self.items().len() ==> receiver.taken() == start && results@.len() == 0,
                forall|i: int|
                    0 <= i < results@.len() ==> call_ensures(
                        process,
                        (&self.items()[start + i],),
                        #[trigger] results@[i],
                    ),
            decreases self.items().len() + 1 - receiver.taken(),
        {
            match self.recv(receiver) {
                Some(item) => {
                    let result = process(item);
                    results.push(result);
                },
                None => {
                    return results;
                },
            }
        }
    }

    /// Hands out all items that `receiver` has not handed out yet, in order.
    pub fn try_iter<'a>(&'a self, receiver: &mut WorkReceiver) -> (rest: Vec<&'a T>)
        ensures
            old(receiver).taken() <= self.items().len() ==> rest@.len() == self.items().len()
                - old(receiver).taken() && final(receiver).taken() == self.items().len(),
            old(receiver).taken() > self.items().len() ==> rest@.len() == 0 && final(receiver).taken() == old(receiver).taken(),
            forall|i: int|
                0 <= i < rest@.len() ==> *(#[trigger] rest@[i]) == self.items()[old(receiver).taken() + i],
    {
        let mut rest: Vec<&'a T> = Vec::new();
        let ghost start = receiver.next;
        if receiver.next > self.items.len() {
            return rest;
        }
        while receiver.next < self.items.len()
            invariant
                start <= receiver.next <= self.items@.len(),
                rest@.len() == receiver.next - start,
                forall|i: int|
                    0 <= i < rest@.len() ==> *(#[trigger] rest@[i]) == self.items@[start + i],
            decreases self.items@.len() - receiver.next,
        {
            rest.push(&self.items[receiver.next]);
            receiver.next = receiver.next + 1;
        }
        rest
    }
}

/// The items of `items` that go to worker `worker` when `schedule[i]` names
/// the worker that takes the `i`-th item.
pub open spec fn worker_share<T>(items: Seq<T>, schedule: Seq<int>, worker: int) -> Seq<T>
    decreases items.len(),
{
    if items.len() == 0 {
        Seq::empty()
    } else if schedule[items.len() - 1] == worker {
        worker_share(items.drop_last(), schedule, worker).push(items.last())
    } else {
        worker_share(items.drop_last(), schedule, worker)
    }
}

/// Number of items that the first `workers` workers get together.
pub open spec fn shares_total<T>(items: Seq<T>, schedule: Seq<int>, workers: int) -> int
    decreases workers,
{
    if workers <= 0 {
        0
    } else {
        shares_total(items, schedule, workers - 1) + worker_share(
            items,
            schedule,
            workers - 1,
        ).len()
    }
}

/// How often `item` occurs in the shares of the first `workers` workers.
pub open spec fn shares_count<T>(items: Seq<T>, schedule: Seq<int>, workers: int, item: T) -> int
    decreases workers,
{
    if workers <= 0 {
        0
    } else {
        shares_count(items, schedule, workers - 1, item) + worker_share(
            items,
            schedule,
            workers - 1,
        ).to_multiset().count(item)
    }
}

proof fn lemma_shares_step<T>(items: Seq<T>, schedule: Seq<int>, workers: int, item: T)
    requires
        items.len() > 0,
        workers >= 0,
    ensures
        shares_total(items, schedule, workers) == shares_total(
            items.drop_last(),
            schedule,
            workers,
        ) + if 0 <= schedule[items.len() - 1] < workers {
            1int
        } else {
            0int
        },
        shares_count(items, schedule, workers, item) == shares_count(
            items.drop_last(),
            schedule,
            workers,
            item,
        ) + if 0 <= schedule[items.len() - 1] < workers && items.last() == item {
            1int
        } else {
            0int
        },
    decreases workers,
{
    if workers > 0 {
        lemma_shares_step(items, schedule, workers - 1, item);
        let before = worker_share(items.drop_last(), schedule, workers - 1);
        if schedule[items.len() - 1] == workers - 1 {
            vstd::seq_lib::to_multiset_build(before, items.last());
            assert(before.push(items.last()).to_multiset() == before.to_multiset().insert(
                items.last(),
            ));
        }
    }
}

/// However many workers there are and whichever of them takes each item,
/// the workers together get as many items as were queued, and each item as
/// often as it was queued: none is dropped and none is handed out twice.
pub proof fn lemma_shares_partition_queue<T>(
    items: Seq<T>,
    schedule: Seq<int>,
    workers: int,
    item: T,
)
    requires
        workers >= 1,
        schedule.len() == items.len(),
        forall|i: int| 0 <= i < schedule.len() ==> 0 <= #[trigger] schedule[i] < workers,
    ensures
        shares_total(items, schedule, workers) == items.len(),
        shares_count(items, schedule, workers, item) == items.to_multiset().count(item),
    decreases items.len(),
{
    if items.len() == 0 {
        lemma_shares_empty::<T>(schedule, workers, item);
        assert(items =~= Seq::<T>::empty());
        assert(items.to_multiset().count(item) == 0) by {
            items.to_multiset_ensures();
            assert(!items.contains(item));
        }
    } else {
        let shorter = items.drop_last();
        let shorter_schedule = schedule.drop_last();
        lemma_shares_partition_queue(shorter, shorter_schedule, workers, item);
        lemma_shares_ignore_tail(shorter, schedule, shorter_schedule, workers, item);
        lemma_shares_step(items, schedule, workers, item);
        vstd::seq_lib::to_multiset_build(shorter, items.last());
        assert(items == shorter.push(items.last()));
        assert(items.to_multiset() == shorter.to_multiset().insert(items.last()));
    }
}

proof fn lemma_shares_empty<T>(schedule: Seq<int>, workers: int, item: T)
    ensures
        shares_total(Seq::<T>::empty(), schedule, workers) == 0,
        shares_count(Seq::<T>::empty(), schedule, workers, item) == 0,
    decreases workers,
{
    if workers > 0 {
        lemma_shares_empty::<T>(schedule, workers - 1, item);
        let none = Seq::<T>::empty();
        assert(worker_share(none, schedule, workers - 1) == none);
        none.to_multiset_ensures();
        assert(!none.contains(item));
    }
}

proof fn lemma_share_ignores_tail<T>(items: Seq<T>, a: Seq<int>, b: Seq<int>, worker: int)
    requires
        forall|i: int| 0 <= i < items.len() ==> a[i] == b[i],
    ensures
        worker_share(items, a, worker) == worker_share(items, b, worker),
    decreases items.len(),
{
    if items.len() > 0 {
        lemma_share_ignores_tail(items.drop_last(), a, b, worker);
    }
}

proof fn lemma_shares_ignore_tail<T>(
    items: Seq<T>,
    a: Seq<int>,
    b: Seq<int>,
    workers: int,
    item: T,
)
    requires
        forall|i: int| 0 <= i < items.len() ==> a[i] == b[i],
    ensures
        shares_total(items, a, workers) == shares_total(items, b, workers),
        shares_count(items, a, workers, item) == shares_count(items, b, workers, item),
    decreases workers,
{
    if workers > 0 {
        lemma_shares_ignore_tail(items, a, b, workers - 1, item);
        lemma_share_ignores_tail(items, a, b, workers - 1);
    }
}

} // verus!
