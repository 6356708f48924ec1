//! The scheduling rules of a worker pool of fixed size: which worker runs a
//! submitted task, which tasks wait, and in what order they leave the queue.
//!
//! The pool holds no threads. Whoever owns the workers tells the pool what
//! happens (a task is submitted, a worker has finished) and does what the
//! pool answers.

use vstd::prelude::*;
use std::collections::VecDeque;

verus! {

/// The state of a pool: which workers are busy, the tasks that wait (the
/// one that waits longest first), and whether the pool was shut down.
pub struct PoolView<T> {
    pub busy: Seq<bool>,
    pub pending: Seq<T>,
    pub closed: bool,
}

/// A pool of a fixed number of workers with an unbounded queue of waiting
/// tasks.
pub struct ThreadPool<T> {
    busy: Vec<bool>,
    pending: VecDeque<T>,
    closed: bool,
}

/// A task was submitted to a pool that was shut down.
#[derive(Clone, Copy, Debug, PartialEq, Eq, Structural)]
pub struct PoolClosed;

/// What becomes of a submitted task.
#[derive(Debug)]
pub enum Dispatch<T> {
    /// The worker was idle and runs the task now.
    Run { worker: usize, task: T },
    /// Every worker is busy: the task waits.
    Queued,
}

/// The number of busy workers.
pub open spec fn count_busy(busy: Seq<bool>) -> nat
    decreases busy.len(),
{
    if busy.len() == 0 {
        0
    } else if busy.last() {
        count_busy(busy.drop_last()) + 1
    } else {
        count_busy(busy.drop_last())
    }
}

/// The idle worker of lowest index at or after `from`.
pub open spec fn first_idle_from(busy: Seq<bool>, from: int) -> Option<int>
    decreases busy.len() - from,
{
    if from < 0 || from >= busy.len() {
        None
    } else if !busy[from] {
        Some(from)
    } else {
        first_idle_from(busy, from + 1)
    }
}

/// The idle worker of lowest index.
pub open spec fn first_idle(busy: Seq<bool>) -> Option<int> {
    first_idle_from(busy, 0)
}

/// True when `worker` is idle and every worker of lower index is busy.
pub open spec fn lowest_idle(busy: Seq<bool>, worker: int) -> bool {
    &&& 0 <= worker < busy.len()
    &&& !busy[worker]
    &&& forall|w: int| 0 <= w < worker ==> busy[w]
}

/// The invariant of a pool: it has at least one worker, and no task waits
/// while a worker is idle.
pub open spec fn well_formed<T>(v: PoolView<T>) -> bool {
    &&& v.busy.len() > 0
    &&& v.pending.len() > 0 ==> forall|w: int| 0 <= w < v.busy.len() ==> v.busy[w]
}

/// A pool of `size` idle workers with nothing waiting.
pub open spec fn fresh<T>(size: nat) -> PoolView<T> {
    PoolView { busy: Seq::new(size, |w: int| false), pending: Seq::empty(), closed: false }
}

/// The pool after `task` was submitted: the idle worker of lowest index
/// runs it; where every worker is busy, it waits behind the tasks that wait
/// already. A pool that was shut down takes no task.
pub open spec fn submitted<T>(v: PoolView<T>, task: T) -> PoolView<T> {
    if v.closed {
        v
    } else {
        match first_idle(v.busy) {
            Some(w) => PoolView { busy: v.busy.update(w, true), ..v },
            None => PoolView { pending: v.pending.push(task), ..v },
        }
    }
}

/// The pool after the busy worker `worker` finished its task: it goes on
/// with the task that waits longest, or becomes idle where none waits.
/// Nothing changes where `worker` is no busy worker of the pool.
pub open spec fn finished<T>(v: PoolView<T>, worker: int) -> PoolView<T> {
    if 0 <= worker < v.busy.len() && v.busy[worker] {
        if v.pending.len() > 0 {
            PoolView { pending: v.pending.drop_first(), ..v }
        } else {
            PoolView { busy: v.busy.update(worker, false), ..v }
        }
    } else {
        v
    }
}

/// The tasks that the pool holds: those that run and those that wait.
pub open spec fn load<T>(v: PoolView<T>) -> nat {
    count_busy(v.busy) + v.pending.len()
}

/// The pool after the tasks were submitted one after the other.
pub open spec fn submitted_all<T>(v: PoolView<T>, tasks: Seq<T>) -> PoolView<T>
    decreases tasks.len(),
{
    if tasks.len() == 0 {
        v
    } else {
        submitted(submitted_all(v, tasks.drop_last()), tasks.last())
    }
}

/// What [`first_idle_from`] returns is the idle worker of lowest index at
/// or after `from`, and it returns `None` only where all of them are busy.
pub proof fn lemma_first_idle_from(busy: Seq<bool>, from: int)
    requires
        0 <= from,
    ensures
        match first_idle_from(busy, from) {
            Some(w) => from <= w < busy.len() && !busy[w] && forall|j: int|
                from <= j < w ==> busy[j],
            None => forall|j: int| from <= j < busy.len() ==> busy[j],
        },
    decreases busy.len() - from,
{
    if from < busy.len() && busy[from] {
        lemma_first_idle_from(busy, from + 1);
    }
}

/// Making an idle worker busy adds one to the number of busy workers, and
/// making a busy worker idle takes one away.
pub proof fn lemma_count_busy_update(busy: Seq<bool>, w: int, to: bool)
    requires
        0 <= w < busy.len(),
        busy[w] != to,
    ensures
        to ==> count_busy(busy.update(w, to)) == count_busy(busy) + 1,
        !to ==> count_busy(busy.update(w, to)) + 1 == count_busy(busy),
    decreases busy.len(),
{
    let after = busy.update(w, to);
    if w == busy.len() - 1 {
        assert(after.drop_last() =~= busy.drop_last());
    } else {
        lemma_count_busy_update(busy.drop_last(), w, to);
        assert(after.drop_last() =~= busy.drop_last().update(w, to));
    }
}

/// Where the workers below `k` are busy and the others idle, `k` workers
/// are busy.
pub proof fn lemma_count_busy_prefix(busy: Seq<bool>, k: int)
    requires
        0 <= k <= busy.len(),
        forall|w: int| 0 <= w < busy.len() ==> busy[w] == (w < k),
    ensures
        count_busy(busy) == k,
    decreases busy.len(),
{
    if busy.len() > 0 {
        if k == busy.len() {
            lemma_count_busy_prefix(busy.drop_last(), k - 1);
        } else {
            lemma_count_busy_prefix(busy.drop_last(), k);
        }
    }
}

/// At most as many workers are busy as there are workers, and where all of
/// them are busy the count is their number.
pub proof fn lemma_count_busy_bound(busy: Seq<bool>)
    ensures
        count_busy(busy) <= busy.len(),
        (forall|w: int| 0 <= w < busy.len() ==> busy[w]) ==> count_busy(busy) == busy.len(),
        count_busy(busy) > 0 ==> exists|w: int| 0 <= w < busy.len() && busy[w],
        count_busy(busy) == 0 ==> forall|w: int| 0 <= w < busy.len() ==> !busy[w],
    decreases busy.len(),
{
    if busy.len() > 0 {
        lemma_count_busy_bound(busy.drop_last());
        if count_busy(busy) == 0 {
            assert forall|w: int| 0 <= w < busy.len() implies !busy[w] by {
                if w < busy.len() - 1 {
                    assert(busy.drop_last()[w] == busy[w]);
                }
            }
        }
        if count_busy(busy) > 0 && !busy.last() {
            let w = choose|w: int| 0 <= w < busy.drop_last().len() && busy.drop_last()[w];
            assert(busy[w]);
        } else if busy.last() {
            assert(busy[busy.len() - 1]);
        }
        assert forall|w: int| 0 <= w < busy.drop_last().len() implies busy.drop_last()[w]
            == busy[w] by {}
    }
}

/// The pool after the workers named in `workers` finished a task each, one
/// after the other.
pub open spec fn finished_all<T>(v: PoolView<T>, workers: Seq<int>) -> PoolView<T>
    decreases workers.len(),
{
    if workers.len() == 0 {
        v
    } else {
        finished(finished_all(v, workers.drop_last()), workers.last())
    }
}

/// Whether each worker named in `workers` is a busy worker of the pool when
/// its turn to finish comes.
pub open spec fn busy_in_turn<T>(v: PoolView<T>, workers: Seq<int>) -> bool
    decreases workers.len(),
{
    if workers.len() == 0 {
        true
    } else {
        let before = finished_all(v, workers.drop_last());
        busy_in_turn(v, workers.drop_last()) && 0 <= workers.last() < before.busy.len()
            && before.busy[workers.last()]
    }
}

/// Submitting a task keeps the invariant, and adds one task to what the
/// pool holds unless the pool was shut down.
pub proof fn law_submit<T>(v: PoolView<T>, task: T)
    requires
        well_formed(v),
    ensures
        well_formed(submitted(v, task)),
        load(submitted(v, task)) == if v.closed {
            load(v)
        } else {
            load(v) + 1
        },
        count_busy(submitted(v, task).busy) <= v.busy.len(),
{
    lemma_first_idle_from(v.busy, 0);
    lemma_count_busy_bound(submitted(v, task).busy);
    if !v.closed {
        match first_idle(v.busy) {
            Some(w) => {
                lemma_count_busy_update(v.busy, w, true);
            },
            None => {},
        }
    }
}

/// A busy worker that finishes keeps the invariant and takes one task away
/// from what the pool holds: the task it ran is done, and no other task is
/// lost or run twice. While the pool holds a task, some worker is busy, so
/// that every task is finished in the end.
pub proof fn law_finish<T>(v: PoolView<T>, worker: int)
    requires
        well_formed(v),
    ensures
        well_formed(finished(v, worker)),
        0 <= worker < v.busy.len() && v.busy[worker] ==> load(finished(v, worker)) + 1 == load(v),
        !(0 <= worker < v.busy.len() && v.busy[worker]) ==> finished(v, worker) == v,
        load(v) > 0 ==> exists|w: int| 0 <= w < v.busy.len() && v.busy[w],
{
    lemma_count_busy_bound(v.busy);
    if 0 <= worker < v.busy.len() && v.busy[worker] && v.pending.len() == 0 {
        lemma_count_busy_update(v.busy, worker, false);
    }
    if load(v) > 0 && count_busy(v.busy) == 0 {
        assert(v.busy[0]);
    }
}

/// Saturation: after `tasks` were submitted to a pool of `size` idle
/// workers and none of them has finished, as many tasks run as there are
/// workers (all of the tasks where they are fewer), and the others wait in
/// the order in which they were submitted.
pub proof fn law_saturation<T>(size: nat, tasks: Seq<T>)
    requires
        size > 0,
    ensures
        ({
            let v = submitted_all(fresh::<T>(size), tasks);
            let running = if tasks.len() < size {
                tasks.len()
            } else {
                size
            };
            &&& well_formed(v)
            &&& !v.closed
            &&& v.busy.len() == size
            &&& count_busy(v.busy) == running
            &&& v.pending == tasks.skip(running as int)
            &&& forall|w: int| 0 <= w < size ==> v.busy[w] == (w < running)
        }),
    decreases tasks.len(),
{
    let v = submitted_all(fresh::<T>(size), tasks);
    if tasks.len() == 0 {
        lemma_count_busy_prefix(v.busy, 0);
        assert(v.pending =~= tasks.skip(0));
    } else {
        let earlier = tasks.drop_last();
        let before = submitted_all(fresh::<T>(size), earlier);
        law_saturation(size, earlier);
        lemma_first_idle_from(before.busy, 0);
        assert(v == submitted(before, tasks.last()));
        if earlier.len() < size {
            let w = earlier.len() as int;
            assert(!before.busy[w]);
            assert(forall|j: int| 0 <= j < w ==> before.busy[j]);
            assert(first_idle(before.busy) == Some(w));
            assert(v.busy == before.busy.update(w, true));
            assert forall|j: int| 0 <= j < v.busy.len() implies v.busy[j] == (j < w + 1) by {
                if j != w {
                    assert(v.busy[j] == before.busy[j]);
                }
            }
            lemma_count_busy_prefix(v.busy, w + 1);
            assert(before.pending =~= Seq::<T>::empty());
            assert(v.pending =~= tasks.skip(w + 1));
        } else {
            assert(forall|j: int| 0 <= j < size ==> before.busy[j]);
            assert(first_idle(before.busy) is None);
            assert(before.pending == earlier.skip(size as int));
            assert(v.pending == before.pending.push(tasks.last()));
            assert(v.pending =~= tasks.skip(size as int));
        }
    }
}

/// Completion: where busy workers finish a task each, one after the other,
/// the pool holds one task less after each, so that no more tasks are
/// finished than the pool held, and a pool that held `n` tasks is idle and
/// empty after exactly `n` of them.
pub proof fn law_completion<T>(v: PoolView<T>, workers: Seq<int>)
    requires
        well_formed(v),
        busy_in_turn(v, workers),
    ensures
        well_formed(finished_all(v, workers)),
        load(finished_all(v, workers)) + workers.len() == load(v),
        workers.len() == load(v) ==> finished_all(v, workers).pending.len() == 0 && forall|w: int|
            0 <= w < v.busy.len() ==> !finished_all(v, workers).busy[w],
    decreases workers.len(),
{
    if workers.len() > 0 {
        law_completion(v, workers.drop_last());
        law_finish(finished_all(v, workers.drop_last()), workers.last());
    }
    let after = finished_all(v, workers);
    lemma_finished_all_size(v, workers);
    if workers.len() == load(v) {
        lemma_count_busy_bound(after.busy);
    }
}

/// Finishing tasks does not change the number of workers.
proof fn lemma_finished_all_size<T>(v: PoolView<T>, workers: Seq<int>)
    ensures
        finished_all(v, workers).busy.len() == v.busy.len(),
    decreases workers.len(),
{
    if workers.len() > 0 {
        lemma_finished_all_size(v, workers.drop_last());
    }
}

impl<T> View for ThreadPool<T> {
    type V = PoolView<T>;

    closed spec fn view(&self) -> PoolView<T> {
        PoolView { busy: self.busy@, pending: self.pending@, closed: self.closed }
    }
}

impl<T> ThreadPool<T> {
    /// Whether the pool meets its invariant.
    pub open spec fn wf(&self) -> bool {
        well_formed(self@)
    }

    /// A pool of `size` workers, all of them idle, with nothing waiting.
    /// A pool needs at least one worker.
    pub fn new(size: usize) -> (pool: ThreadPool<T>)
        requires
            size > 0,
        ensures
            pool@ == fresh::<T>(size as nat),
            pool.wf(),
    {
        let mut busy: Vec<bool> = Vec::new();
        let mut w: usize = 0;
        while w < size
            invariant
                w <= size,
                busy@.len() == w,
                forall|j: int| 0 <= j < w ==> !busy@[j],
            decreases size - w,
        {
            busy.push(false);
            w = w + 1;
        }
        assert(busy@ =~= Seq::new(size as nat, |w: int| false));
        ThreadPool { busy, pending: VecDeque::new(), closed: false }
    }

    /// Submits a task. The idle worker of lowest index runs it at once;
    /// where every worker is busy it waits, behind the tasks that wait
    /// already. Fails where the pool was shut down.
    pub fn queue(&mut self, task: T) -> (r: Result<Dispatch<T>, PoolClosed>)
        requires
            old(self).wf(),
        ensures
            final(self).wf(),
            final(self)@ == submitted(old(self)@, task),
            match r {
                Ok(Dispatch::Run { worker, task: given }) => !old(self)@.closed && first_idle(
                    old(self)@.busy,
                ) == Some(worker as int) && given == task && lowest_idle(
                    old(self)@.busy,
                    worker as int,
                ),
                Ok(Dispatch::Queued) => !old(self)@.closed && first_idle(old(self)@.busy)
                    is None && forall|w: int|
                    0 <= w < old(self)@.busy.len() ==> old(self)@.busy[w],
                Err(_) => old(self)@.closed,
            },
    {
        if self.closed {
            return Err(PoolClosed);
        }
        let mut w: usize = 0;
        while w < self.busy.len()
            invariant
                w <= self.busy@.len(),
                *self == *old(self),
                old(self).wf(),
                !self.closed,
                first_idle(self.busy@) == first_idle_from(self.busy@, w as int),
            decreases self.busy@.len() - w,
        {
            if !self.busy[w] {
                proof {
                    lemma_first_idle_from(self.busy@, 0);
                }
                self.busy.set(w, true);
                return Ok(Dispatch::Run { worker: w, task });
            }
            w = w + 1;
        }
        proof {
            lemma_first_idle_from(self.busy@, 0);
        }
        self.pending.push_back(task);
        Ok(Dispatch::Queued)
    }

    /// Tells the pool that `worker` finished its task. Returns the task
    /// that the worker goes on with: the one that waited longest. Where none
    /// waits the worker becomes idle. Where `worker` is no busy worker of
    /// the pool, nothing changes.
    pub fn finish(&mut self, worker: usize) -> (next: Option<T>)
        requires
            old(self).wf(),
        ensures
            final(self).wf(),
            final(self)@ == finished(old(self)@, worker as int),
            next == if worker < old(self)@.busy.len() && old(self)@.busy[worker as int] && old(
                self,
            )@.pending.len() > 0 {
                Some(old(self)@.pending[0])
            } else {
                None
            },
    {
        if worker >= self.busy.len() || !self.busy[worker] {
            return None;
        }
        match self.pending.pop_front() {
            Some(task) => {
                assert(self.pending@ =~= old(self).pending@.drop_first());
                Some(task)
            },
            None => {
                self.busy.set(worker, false);
                None
            },
        }
    }

    /// Shuts the pool down: it takes no more tasks. Tasks that run or wait
    /// are not affected.
    pub fn close(&mut self)
        ensures
            final(self)@ == (PoolView { closed: true, ..old(self)@ }),
    {
        self.closed = true;
    }

    /// The number of workers.
    pub fn size(&self) -> (n: usize)
        ensures
            n == self@.busy.len(),
    {
        self.busy.len()
    }

    /// The number of tasks that wait.
    pub fn queued(&self) -> (n: usize)
        ensures
            n == self@.pending.len(),
    {
        self.pending.len()
    }

    /// The number of busy workers.
    pub fn running(&self) -> (n: usize)
        ensures
            n == count_busy(self@.busy),
    {
        let mut n: usize = 0;
        let mut w: usize = 0;
        assert(self.busy@.take(0) =~= Seq::<bool>::empty());
        while w < self.busy.len()
            invariant
                w <= self.busy@.len(),
                n <= w,
                n == count_busy(self.busy@.take(w as int)),
            decreases self.busy@.len() - w,
        {
            assert(self.busy@.take(w + 1).drop_last() =~= self.busy@.take(w as int));
            if self.busy[w] {
                n = n + 1;
            }
            w = w + 1;
        }
        assert(self.busy@.take(w as int) =~= self.busy@);
        n
    }
}

} // verus!
