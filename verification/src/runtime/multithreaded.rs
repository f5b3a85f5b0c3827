//! A simple multi-threaded runtime.
//!
//! The runtime has `THREADS` executors, each with its own queue of ready tasks,
//! and one task list shared by all of them. New tasks are handed to the
//! executors in turn. An executor whose queue is empty steals a task from the
//! queues of the others, scanning them in a cycle that resumes where its last
//! scan stopped. [`MultithreadedRuntime::run_iter`] lists the executors to run,
//! one loop each: [`MultithreadedRuntime::start_executor`] once, then
//! [`MultithreadedRuntime::next_task`], poll, and
//! [`MultithreadedRuntime::complete_poll`], until the step says `Finished`.
use vstd::prelude::*;

use super::executor::Executor;
use super::task::Task;
use super::tasklist::status::SlotStatus;
use super::tasklist::{checked_in, checked_out, is_first_empty, is_full, obtainable, SlotView, TaskList};
use super::taskqueue::mpmc::enqueue_admitted;
use super::waker::RWaker;
use super::{
    counter_decremented, counter_incremented, stored_fresh, AddTaskError, RunError, Step, TaskID,
};
use super::tasklist::TaskGuard;

verus! {

/// The index visited at step `j` of a scan over `threads` executors that starts at `cursor`.
pub open spec fn scan_index(cursor: int, j: int, threads: int) -> int {
    (cursor + j) % threads
}

/// The step at which a scan over `threads` executors from `cursor` visits the
/// executor `k`: `(k - cursor) mod threads`, written without `%`.
pub open spec fn step_visiting(cursor: int, k: int, threads: int) -> int {
    if k >= cursor {
        k - cursor
    } else {
        k + threads - cursor
    }
}

/// A scan visits every executor exactly once: each index below `threads` is
/// visited at exactly one step, namely the step `(k - cursor) mod threads`.
pub proof fn lemma_scan_covers_all(cursor: int, threads: int)
    requires
        0 <= cursor < threads,
    ensures
        forall|j: int| 0 <= j < threads ==> 0 <= #[trigger] scan_index(cursor, j, threads) < threads,
        forall|k: int|
            0 <= k < threads ==> 0 <= #[trigger] step_visiting(cursor, k, threads) < threads
                && scan_index(cursor, step_visiting(cursor, k, threads), threads) == k,
        forall|j1: int, j2: int|
            0 <= j1 < threads && 0 <= j2 < threads && j1 != j2 ==> #[trigger] scan_index(cursor, j1, threads)
                != #[trigger] scan_index(cursor, j2, threads),
{
    assert forall|j: int| 0 <= j < threads implies 0 <= #[trigger] scan_index(cursor, j, threads) < threads by {
        lemma_mod_once(cursor + j, threads);
    }
    assert forall|k: int| 0 <= k < threads implies 0 <= #[trigger] step_visiting(cursor, k, threads) < threads
        && scan_index(cursor, step_visiting(cursor, k, threads), threads) == k by {
        lemma_mod_once(cursor + step_visiting(cursor, k, threads), threads);
    }
    assert forall|j1: int, j2: int|
        0 <= j1 < threads && 0 <= j2 < threads && j1 != j2 implies #[trigger] scan_index(cursor, j1, threads)
            != #[trigger] scan_index(cursor, j2, threads) by {
        lemma_mod_once(cursor + j1, threads);
        lemma_mod_once(cursor + j2, threads);
    }
}

/// A multi-threaded runtime with room for `TASKS` tasks running futures of type
/// `F`, and `THREADS` executors.
pub struct MultithreadedRuntime<F, const TASKS: usize, const THREADS: usize> {
    task_list: TaskList<Task<F>, TASKS>,
    running_tasks: usize,
    executors: Vec<Executor<TASKS>>,
    enqueue_exec: usize,
}

/// `x` reduced once modulo `t`, for `x` below `2 * t`.
proof fn lemma_mod_once(x: int, t: int)
    requires
        t > 0,
        0 <= x < 2 * t,
    ensures
        x % t == (if x < t { x } else { x - t }),
{
    if x < t {
        vstd::arithmetic::div_mod::lemma_fundamental_div_mod_converse_mod(x, t, 0, x);
    } else {
        vstd::arithmetic::div_mod::lemma_fundamental_div_mod_converse_mod(x, t, 1, x - t);
    }
}

impl<F, const TASKS: usize, const THREADS: usize> MultithreadedRuntime<F, TASKS, THREADS> {
    /// The slots of the shared task list.
    pub closed spec fn slots(self) -> Seq<SlotView<Task<F>>> {
        self.task_list.view()
    }

    /// The number of tasks added and not yet completed.
    pub closed spec fn running_tasks(self) -> usize {
        self.running_tasks
    }

    /// The counter that picks the executor for the next new task.
    pub closed spec fn next_enqueue(self) -> usize {
        self.enqueue_exec
    }

    /// The executor with index `i`.
    pub closed spec fn executor_at(self, i: int) -> Executor<TASKS> {
        self.executors@[i]
    }

    /// The task list is well formed, and there are `THREADS` well-formed
    /// executors, each with its index as ID.
    pub closed spec fn wf(self) -> bool {
        &&& self.task_list.wf()
        &&& self.executors@.len() == THREADS
        &&& forall|i: int|
            0 <= i < THREADS ==> (#[trigger] self.executors@[i]).wf() && self.executors@[i].id() == i
    }

    /// Every executor's queue counters leave room for one more operation.
    pub open spec fn all_headroom(self) -> bool {
        forall|i: int| 0 <= i < THREADS ==> (#[trigger] self.executor_at(i)).has_headroom()
    }

    /// The executor that receives the next new task.
    pub open spec fn target_executor(self) -> int {
        (self.next_enqueue() as int) % (THREADS as int)
    }

    /// The executor `i` can take one more ID onto its queue without a precondition failing.
    pub open spec fn executor_ready(self, i: int) -> bool {
        &&& self.executor_at(i).has_headroom()
        &&& enqueue_admitted(TASKS as nat, self.executor_at(i).queue_view())
    }

    /// The executor `exec` may steal from the executor `k`.
    pub open spec fn can_steal_from(self, exec: int, k: int) -> bool {
        k != exec && self.executor_at(k).queue_view().len() > 0
    }

    /// `j` is the first step of the scan from `cursor` that finds an executor
    /// other than `exec` with a ready task.
    pub open spec fn is_first_victim(self, exec: int, cursor: int, j: int) -> bool {
        &&& 0 <= j < THREADS
        &&& self.can_steal_from(exec, scan_index(cursor, j, THREADS as int))
        &&& forall|j2: int|
            0 <= j2 < j ==> !#[trigger] self.can_steal_from(exec, scan_index(cursor, j2, THREADS as int))
    }

    /// No step of the scan from `cursor` finds an executor other than `exec` with a ready task.
    pub open spec fn no_victim(self, exec: int, cursor: int) -> bool {
        forall|j: int|
            0 <= j < THREADS ==> !#[trigger] self.can_steal_from(exec, scan_index(cursor, j, THREADS as int))
    }

    /// The task list has `TASKS` consistent slots, and executor `i` is well
    /// formed, has the ID `i`, and never holds more than `TASKS` IDs.
    pub proof fn lemma_wf_facts(self)
        requires
            self.wf(),
        ensures
            self.slots().len() == TASKS,
            super::tasklist::slots_consistent(self.slots()),
            forall|i: int|
                0 <= i < THREADS ==> (#[trigger] self.executor_at(i)).wf() && self.executor_at(i).id() == i
                    && self.executor_at(i).queue_view().len() <= TASKS,
    {
        assert forall|i: int| 0 <= i < THREADS implies (#[trigger] self.executor_at(i)).wf() && self.executor_at(i).id() == i
            && self.executor_at(i).queue_view().len() <= TASKS by {
            assert(self.executors@[i].wf());
            self.executors@[i].lemma_bounded();
        }
    }

    /// Whether the shared task list has an empty slot.
    pub fn has_free_slot(&self) -> (r: bool)
        requires
            self.wf(),
        ensures
            r == !is_full(self.slots()),
    {
        self.task_list.has_empty_slot()
    }

    /// Creates a runtime with `THREADS` idle executors, numbered from 0, and no tasks.
    pub fn new() -> (r: Self)
        ensures
            r.wf(),
            r.slots().len() == TASKS,
            forall|i: int| 0 <= i < TASKS ==> #[trigger] r.slots()[i] == (SlotStatus::Empty, None::<Task<F>>),
            r.running_tasks() == 0,
            r.next_enqueue() == 0,
            forall|i: int|
                0 <= i < THREADS ==> (#[trigger] r.executor_at(i)).queue_view() == Seq::<TaskID>::empty()
                    && !r.executor_at(i).started() && r.executor_at(i).positions_used() == 0
                    && r.executor_at(i).id() == i,
    {
        let mut executors: Vec<Executor<TASKS>> = Vec::new();
        let mut i: usize = 0;
        while i < THREADS
            invariant
                i <= THREADS,
                executors@.len() == i,
                forall|j: int|
                    0 <= j < i ==> (#[trigger] executors@[j]).wf() && executors@[j].id() == j
                        && executors@[j].queue_view() == Seq::<TaskID>::empty() && !executors@[j].started()
                        && executors@[j].positions_used() == 0,
            decreases THREADS - i,
        {
            let mut e = Executor::new(0);
            e.set_id(i);
            executors.push(e);
            i += 1;
        }
        MultithreadedRuntime { task_list: TaskList::new(), running_tasks: 0, executors, enqueue_exec: 0 }
    }

    /// The executor that receives the next new task.
    pub fn next_executor(&self) -> (r: usize)
        requires
            THREADS > 0,
        ensures
            r == self.target_executor(),
            r as int == (self.next_enqueue() as int) % (THREADS as int),
            r < THREADS,
    {
        self.enqueue_exec % THREADS
    }

    /// Whether the executor `i` can take one more ID onto its queue without a
    /// precondition failing.
    pub fn executor_accepts(&self, i: usize) -> (r: bool)
        requires
            self.wf(),
            i < THREADS,
        ensures
            r == self.executor_ready(i as int),
    {
        self.executors[i].within_position_limit() && self.executors[i].enqueue_admitted()
    }

    /// Whether every executor's queue counters leave room for one more operation.
    pub fn within_position_limit(&self) -> (r: bool)
        requires
            self.wf(),
        ensures
            r == self.all_headroom(),
    {
        let mut i: usize = 0;
        while i < THREADS
            invariant
                self.wf(),
                i <= THREADS,
                forall|j: int| 0 <= j < i ==> (#[trigger] self.executor_at(j)).has_headroom(),
            decreases THREADS - i,
        {
            if !self.executors[i].within_position_limit() {
                assert(!self.executor_at(i as int).has_headroom());
                return false;
            }
            i += 1;
        }
        true
    }

    /// Adds a task running `fut`. The executor it is handed to is picked in turn;
    /// the task is stored in the first empty slot with a waker for that
    /// executor's queue and its own ID, and put on that queue. Fails with
    /// `TooManyTasks` when no slot is empty, and also when that executor's queue
    /// is full, in which case the task stays stored but is not scheduled.
    pub fn add_task(&mut self, fut: F) -> (r: Result<TaskID, AddTaskError>)
        requires
            old(self).wf(),
            THREADS > 0,
            is_full(old(self).slots()) || old(self).executor_ready(old(self).target_executor()),
        ensures
            final(self).wf(),
            r is Err ==> r == Err::<TaskID, AddTaskError>(AddTaskError::TooManyTasks),
            final(self).next_enqueue() == counter_incremented(old(self).next_enqueue()),
            old(self).next_enqueue() < usize::MAX ==> final(self).next_enqueue() == old(self).next_enqueue() + 1,
            r matches Ok(id) ==> ({
                let k = (old(self).next_enqueue() as int) % (THREADS as int);
                &&& final(self).executor_at(k).queue_view() == old(self).executor_at(k).queue_view().push(id)
                &&& final(self).slots()[id.0 as int].1 matches Some(t) && t.waker() == (RWaker {
                    queue: k as usize,
                    id,
                })
            }),
            ({
                let pos = old(self).target_executor();
                &&& r is Ok <==> !is_full(old(self).slots())
                    && old(self).executor_at(pos).queue_view().len() < TASKS
                &&& r matches Ok(id) ==> {
                    &&& is_first_empty(old(self).slots(), id.0 as int)
                    &&& stored_fresh(final(self).slots(), old(self).slots(), id.0 as int, fut, pos as usize)
                    &&& final(self).executor_at(pos).queue_view() == old(self).executor_at(pos).queue_view().push(id)
                    &&& final(self).executor_at(pos).started() == old(self).executor_at(pos).started()
                    &&& final(self).executor_at(pos).positions_used() == old(self).executor_at(pos).positions_used() + 1
                    &&& forall|i: int|
                        0 <= i < THREADS && i != pos ==> #[trigger] final(self).executor_at(i) == old(self).executor_at(i)
                    &&& final(self).running_tasks() == counter_incremented(old(self).running_tasks())
                    &&& old(self).running_tasks() < usize::MAX ==> final(self).running_tasks() == old(self).running_tasks() + 1
                }
                &&& r is Err ==> {
                    &&& forall|i: int|
                        0 <= i < THREADS ==> #[trigger] final(self).executor_at(i) == old(self).executor_at(i)
                    &&& final(self).running_tasks() == old(self).running_tasks()
                }
                &&& r is Err && is_full(old(self).slots()) ==> final(self).slots() == old(self).slots()
                &&& r is Err && !is_full(old(self).slots()) ==> exists|i: int|
                    is_first_empty(old(self).slots(), i) && stored_fresh(
                        final(self).slots(),
                        old(self).slots(),
                        i,
                        fut,
                        pos as usize,
                    )
            }),
    {
        let ghost pre = *self;
        let tmp_exec_pos = self.enqueue_exec % THREADS;
        self.enqueue_exec = self.enqueue_exec.wrapping_add(1);
        proof {
            assert(self.executors@[tmp_exec_pos as int].wf());
            self.executors@[tmp_exec_pos as int].lemma_bounded();
        }
        let ghost pre_slots = self.task_list.view();
        let waker = RWaker::new(tmp_exec_pos, TaskID(0));
        let task = Task::new(fut, waker);
        let task_id = match self.task_list.add_task(task) {
            Ok(id) => id,
            Err(_) => return Err(AddTaskError::TooManyTasks),
        };
        proof {
            super::tasklist::lemma_fill_keeps_consistency(pre_slots, task_id.0 as int, task);
        }
        let mut task_ref = match self.task_list.get_task(task_id) {
            Some(g) => g,
            None => return Err(AddTaskError::TooManyTasks),
        };
        task_ref.task_mut().update_waker(RWaker::new(tmp_exec_pos, task_id));
        let ghost stored = task_ref.value();
        self.task_list.release(task_ref);
        proof {
            assert(self.task_list.view() =~= pre_slots.update(
                task_id.0 as int,
                (SlotStatus::Stored, Some(stored)),
            ));
        }
        let ghost execs_before = self.executors@;
        let enq = self.executors[tmp_exec_pos].enqueue(task_id);
        proof {
            assert forall|i: int| 0 <= i < THREADS && i != tmp_exec_pos implies #[trigger] self.executors@[i] == execs_before[i] by {}
        }
        if enq.is_err() {
            proof {
                assert(self.executors@ =~= execs_before);
            }
            return Err(AddTaskError::TooManyTasks);
        }
        self.running_tasks = self.running_tasks.wrapping_add(1);
        Ok(task_id)
    }

    /// The executors to run, one loop each: their indices in order.
    pub fn run_iter(&self) -> (r: Vec<usize>)
        ensures
            r@ == Seq::new(THREADS as nat, |i: int| i as usize),
    {
        let mut r: Vec<usize> = Vec::new();
        let mut i: usize = 0;
        while i < THREADS
            invariant
                i <= THREADS,
                r@ == Seq::new(i as nat, |j: int| j as usize),
            decreases THREADS - i,
        {
            r.push(i);
            i += 1;
            proof {
                assert(r@ =~= Seq::new(i as nat, |j: int| j as usize));
            }
        }
        r
    }

    /// Marks the executor `exec` as started; fails when it was started before.
    pub fn start_executor(&mut self, exec: usize) -> (r: Result<(), RunError>)
        requires
            old(self).wf(),
            exec < THREADS,
        ensures
            final(self).wf(),
            final(self).slots() == old(self).slots(),
            final(self).running_tasks() == old(self).running_tasks(),
            final(self).next_enqueue() == old(self).next_enqueue(),
            forall|i: int| 0 <= i < THREADS && i != exec ==> #[trigger] final(self).executor_at(i) == old(self).executor_at(i),
            old(self).executor_at(exec as int).started() ==> r == Err::<(), RunError>(RunError::AlreadyRunning)
                && final(self).executor_at(exec as int) == old(self).executor_at(exec as int),
            !old(self).executor_at(exec as int).started() ==> r is Ok && final(self).executor_at(exec as int).started()
                && final(self).executor_at(exec as int).queue_view() == old(self).executor_at(exec as int).queue_view()
                && final(self).executor_at(exec as int).positions_used() == old(self).executor_at(exec as int).positions_used(),
    {
        let ghost before = self.executors@;
        let r = self.executors[exec].start();
        proof {
            assert forall|i: int| 0 <= i < THREADS implies (#[trigger] self.executors@[i]).wf() && self.executors@[i].id() == i by {
                if i != exec {
                    assert(self.executors@[i] == before[i]);
                }
            }
        }
        r
    }

    /// Obtains the guard of the task `id` for polling, or reports it unavailable.
    fn dispatch(&mut self, id: TaskID) -> (r: Step<Task<F>>)
        requires
            old(self).task_list.wf(),
        ensures
            final(self).task_list.wf(),
            final(self).executors == old(self).executors,
            final(self).running_tasks == old(self).running_tasks,
            final(self).enqueue_exec == old(self).enqueue_exec,
            obtainable(old(self).slots(), id.0 as int) ==> (r matches Step::Poll(g) && g.id() == id
                && Some(g.value()) == old(self).slots()[id.0 as int].1 && final(self).slots()
                == checked_out(old(self).slots(), id.0 as int)),
            !obtainable(old(self).slots(), id.0 as int) ==> r == Step::<Task<F>>::Unavailable(id)
                && final(self).slots() == old(self).slots(),
    {
        match self.task_list.get_task(id) {
            Some(g) => Step::Poll(g),
            None => Step::Unavailable(id),
        }
    }

    /// The next step of the executor `exec`, whose last steal scan stopped at
    /// `cursor`; also returns where the next scan starts. The executor takes
    /// the head of its own queue; when that is empty it reports `Finished` if
    /// no task is running any more, and otherwise steals the head of the first
    /// other executor's queue that holds a task, scanning from `cursor`, or
    /// reports `Idle` when none does.
    pub fn next_task(&mut self, exec: usize, cursor: usize) -> (r: (Step<Task<F>>, usize))
        requires
            old(self).wf(),
            old(self).all_headroom(),
            TASKS > 0,
            exec < THREADS,
            cursor < THREADS,
        ensures
            final(self).wf(),
            final(self).all_headroom(),
            final(self).running_tasks() == old(self).running_tasks(),
            final(self).next_enqueue() == old(self).next_enqueue(),
            forall|i: int|
                0 <= i < THREADS ==> (#[trigger] final(self).executor_at(i)).started() == old(self).executor_at(i).started()
                    && final(self).executor_at(i).positions_used() == old(self).executor_at(i).positions_used(),
            ({
                let own = old(self).executor_at(exec as int).queue_view();
                own.len() > 0 ==> {
                    &&& r.1 == cursor
                    &&& final(self).executor_at(exec as int).queue_view() == own.drop_first()
                    &&& forall|i: int|
                        0 <= i < THREADS && i != exec ==> #[trigger] final(self).executor_at(i) == old(self).executor_at(i)
                    &&& obtainable(old(self).slots(), own[0].0 as int) ==> (r.0 matches Step::Poll(g) && g.id() == own[0]
                        && Some(g.value()) == old(self).slots()[own[0].0 as int].1
                        && final(self).slots() == checked_out(old(self).slots(), own[0].0 as int))
                    &&& !obtainable(old(self).slots(), own[0].0 as int) ==> r.0 == Step::<Task<F>>::Unavailable(own[0])
                        && final(self).slots() == old(self).slots()
                }
            }),
            r.0 is Finished ==> old(self).executor_at(exec as int).queue_view().len() == 0 && old(self).running_tasks() == 0,
            r.0 is Idle ==> old(self).executor_at(exec as int).queue_view().len() == 0 && old(self).running_tasks() != 0
                && old(self).no_victim(exec as int, cursor as int),
            r.0 is Idle ==> forall|k: int|
                0 <= k < THREADS ==> #[trigger] old(self).executor_at(k).queue_view().len() == 0,
            r.1 < THREADS,
            old(self).executor_at(exec as int).queue_view().len() == 0 && old(self).running_tasks() == 0 ==> {
                &&& r.0 is Finished
                &&& r.1 == cursor
                &&& final(self).slots() == old(self).slots()
                &&& forall|i: int| 0 <= i < THREADS ==> #[trigger] final(self).executor_at(i) == old(self).executor_at(i)
            },
            old(self).executor_at(exec as int).queue_view().len() == 0 && old(self).running_tasks() != 0
                && old(self).no_victim(exec as int, cursor as int) ==> {
                &&& r.0 is Idle
                &&& r.1 == cursor
                &&& final(self).slots() == old(self).slots()
                &&& forall|i: int| 0 <= i < THREADS ==> #[trigger] final(self).executor_at(i) == old(self).executor_at(i)
            },
            forall|j: int|
                #![trigger old(self).is_first_victim(exec as int, cursor as int, j)]
                old(self).executor_at(exec as int).queue_view().len() == 0 && old(self).running_tasks() != 0
                    && old(self).is_first_victim(exec as int, cursor as int, j) ==> {
                    let k = scan_index(cursor as int, j, THREADS as int);
                    let stolen = old(self).executor_at(k).queue_view()[0];
                    &&& r.1 == (cursor + j + 1) % (THREADS as int)
                    &&& final(self).executor_at(k).queue_view() == old(self).executor_at(k).queue_view().drop_first()
                    &&& forall|i: int|
                        0 <= i < THREADS && i != k ==> #[trigger] final(self).executor_at(i) == old(self).executor_at(i)
                    &&& obtainable(old(self).slots(), stolen.0 as int) ==> (r.0 matches Step::Poll(g) && g.id() == stolen
                        && Some(g.value()) == old(self).slots()[stolen.0 as int].1
                        && final(self).slots() == checked_out(old(self).slots(), stolen.0 as int))
                    &&& !obtainable(old(self).slots(), stolen.0 as int) ==> r.0 == Step::<Task<F>>::Unavailable(stolen)
                        && final(self).slots() == old(self).slots()
                },
    {
        let ghost pre = *self;
        proof {
            assert(self.executors@[exec as int].wf());
            assert(self.executors@[exec as int].has_headroom()) by {
                assert(self.executor_at(exec as int).has_headroom());
            }
        }
        let own = self.executors[exec].dequeue();
        match own {
            Some(id) => {
                proof {
                    assert forall|i: int| 0 <= i < THREADS && i != exec implies #[trigger] self.executors@[i] == pre.executors@[i] by {}
                    assert forall|i: int| 0 <= i < THREADS implies (#[trigger] self.executor_at(i)).has_headroom() by {
                        assert(pre.executor_at(i).has_headroom());
                    }
                }
                let ghost mid = *self;
                let step = self.dispatch(id);
                proof {
                    assert(self.executors@ == mid.executors@);
                    assert forall|i: int| 0 <= i < THREADS implies (#[trigger] self.executor_at(i)).has_headroom() by {
                        assert(mid.executor_at(i).has_headroom());
                    }
                }
                return (step, cursor);
            }
            None => {
                assert(self.executors@ =~= pre.executors@);
            },
        }
        proof {
            assert forall|i: int| 0 <= i < THREADS implies (#[trigger] self.executor_at(i)).has_headroom() by {
                assert(pre.executor_at(i).has_headroom());
            }
        }
        if self.running_tasks == 0 {
            return (Step::Finished, cursor);
        }
        let self_id = self.executors[exec].get_id();
        let mut j: usize = 0;
        while j < THREADS
            invariant
                self.executors@ == pre.executors@,
                self.task_list == pre.task_list,
                self.running_tasks == pre.running_tasks,
                self.enqueue_exec == pre.enqueue_exec,
                pre == *old(self),
                pre.wf(),
                pre.all_headroom(),
                TASKS > 0,
                exec < THREADS,
                cursor < THREADS,
                j <= THREADS,
                self_id == exec,
                pre.executor_at(exec as int).queue_view().len() == 0,
                pre.running_tasks() != 0,
                forall|j2: int| 0 <= j2 < j ==> !#[trigger] pre.can_steal_from(exec as int, scan_index(cursor as int, j2, THREADS as int)),
            decreases THREADS - j,
        {
            let k = if j < THREADS - cursor { cursor + j } else { j - (THREADS - cursor) };
            proof {
                lemma_mod_once(cursor + j, THREADS as int);
                assert(k == scan_index(cursor as int, j as int, THREADS as int));
                assert(pre.executors@[k as int].wf() && pre.executors@[k as int].id() == k);
                assert(pre.executor_at(k as int).has_headroom());
            }
            if self.executors[k].get_id() != self_id {
                let stolen = self.executors[k].dequeue();
                match stolen {
                    Some(id) => {
                        let next_cursor = if k + 1 == THREADS { 0 } else { k + 1 };
                        proof {
                            lemma_mod_once(cursor + j + 1, THREADS as int);
                            assert(next_cursor == (cursor + j + 1) % (THREADS as int));
                            assert(pre.is_first_victim(exec as int, cursor as int, j as int));
                            assert forall|i: int| 0 <= i < THREADS && i != k implies #[trigger] self.executors@[i] == pre.executors@[i] by {}
                            assert forall|i: int| 0 <= i < THREADS implies (#[trigger] self.executor_at(i)).has_headroom() by {
                                assert(pre.executor_at(i).has_headroom());
                            }
                            assert forall|j3: int| 0 <= j3 < THREADS && j3 != j implies !#[trigger] pre.is_first_victim(exec as int, cursor as int, j3) by {
                                if j3 > j {
                                    assert(pre.can_steal_from(exec as int, scan_index(cursor as int, j as int, THREADS as int)));
                                }
                            }
                        }
                        let ghost mid = *self;
                        let step = self.dispatch(id);
                        proof {
                            assert(self.executors@ == mid.executors@);
                            assert forall|i: int| 0 <= i < THREADS implies (#[trigger] self.executor_at(i)).has_headroom() by {
                                assert(mid.executor_at(i).has_headroom());
                            }
                        }
                        return (step, next_cursor);
                    }
                    None => {
                        assert(self.executors@ =~= pre.executors@);
                    },
                }
            }
            j += 1;
        }
        proof {
            assert forall|j3: int| 0 <= j3 < THREADS implies !#[trigger] pre.is_first_victim(exec as int, cursor as int, j3) by {}
            lemma_scan_covers_all(cursor as int, THREADS as int);
            assert forall|k: int| 0 <= k < THREADS implies #[trigger] pre.executor_at(k).queue_view().len() == 0 by {
                if k != exec {
                    let j = step_visiting(cursor as int, k, THREADS as int);
                    assert(0 <= j < THREADS);
                    assert(scan_index(cursor as int, j, THREADS as int) == k);
                    assert(!pre.can_steal_from(exec as int, scan_index(cursor as int, j, THREADS as int)));
                }
            }
            assert forall|i: int| 0 <= i < THREADS implies (#[trigger] self.executor_at(i)).has_headroom() by {
                assert(pre.executor_at(i).has_headroom());
            }
        }
        (Step::Idle, cursor)
    }

    /// Hands a polled task back to its slot. When its future completed, the
    /// count of running tasks drops by one, and the result says whether that
    /// task was the last one running.
    pub fn complete_poll(&mut self, guard: TaskGuard<Task<F>>, ready: bool) -> (finished: bool)
        requires
            old(self).wf(),
            0 <= guard.id().0 < TASKS,
            old(self).slots()[guard.id().0 as int].0 == SlotStatus::Accessed,
        ensures
            final(self).wf(),
            final(self).next_enqueue() == old(self).next_enqueue(),
            forall|i: int| 0 <= i < THREADS ==> #[trigger] final(self).executor_at(i) == old(self).executor_at(i),
            final(self).slots() == checked_in(old(self).slots(), guard.id().0 as int, guard.value()),
            ready ==> final(self).running_tasks() == counter_decremented(old(self).running_tasks())
                && finished == (old(self).running_tasks() == 1),
            !ready ==> final(self).running_tasks() == old(self).running_tasks() && !finished,
            ready && old(self).running_tasks() > 0 ==> final(self).running_tasks() == old(self).running_tasks() - 1,
            finished <==> ready && final(self).running_tasks() == 0 && old(self).running_tasks() == 1,
    {
        self.task_list.release(guard);
        if ready {
            let prev = self.running_tasks;
            self.running_tasks = prev.wrapping_sub(1);
            prev == 1
        } else {
            false
        }
    }

    /// Puts the task of `waker` back on the queue of the executor it names;
    /// hands its ID back when that queue is full.
    pub fn wake(&mut self, waker: &RWaker) -> (r: Result<(), TaskID>)
        requires
            old(self).wf(),
            TASKS > 0,
            waker.queue < THREADS,
            old(self).executor_ready(waker.queue as int),
        ensures
            final(self).wf(),
            final(self).slots() == old(self).slots(),
            final(self).running_tasks() == old(self).running_tasks(),
            final(self).next_enqueue() == old(self).next_enqueue(),
            forall|i: int|
                0 <= i < THREADS && i != waker.queue ==> #[trigger] final(self).executor_at(i) == old(self).executor_at(i),
            final(self).executor_at(waker.queue as int).started() == old(self).executor_at(waker.queue as int).started(),
            old(self).executor_at(waker.queue as int).queue_view().len() < TASKS ==> r is Ok && final(self).executor_at(
                waker.queue as int,
            ).queue_view() == old(self).executor_at(waker.queue as int).queue_view().push(waker.id)
                && final(self).executor_at(waker.queue as int).positions_used() == old(self).executor_at(waker.queue as int).positions_used() + 1,
            old(self).executor_at(waker.queue as int).queue_view().len() >= TASKS ==> r == Err::<(), TaskID>(waker.id)
                && final(self).executor_at(waker.queue as int) == old(self).executor_at(waker.queue as int),
    {
        let ghost before = self.executors@;
        proof {
            assert(self.executors@[waker.queue as int].wf());
        }
        let r = self.executors[waker.queue].enqueue(waker.id);
        proof {
            assert forall|i: int| 0 <= i < THREADS implies (#[trigger] self.executors@[i]).wf() && self.executors@[i].id() == i by {
                if i != waker.queue {
                    assert(self.executors@[i] == before[i]);
                }
            }
        }
        r
    }
}

} // verus!
