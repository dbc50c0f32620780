//! The run queue: strict FIFO round-robin over runnable tasks.
//!
//! `pick_next` pops the queue's head and installs it as the running task;
//! `put_prev` returns the running task to the tail (or drops it when it
//! has died). Repeating the two visits every task id exactly once per
//! full round, in queue order.

use vstd::prelude::*;

use std::collections::VecDeque;

use crate::mm::page::PageAllocator;
use crate::sched::task::{Task, TaskId, TaskIdAllocator, TaskState, TaskType};

verus! {

/// The run queue plus the one `current` slot of the running task.
pub struct Scheduler {
    pub tasks: VecDeque<Task>,
    pub current: Option<Task>,
}

impl Scheduler {
    /// Every queued task is ready to run and intact; the current task, if
    /// any, is the one running.
    pub open spec fn wf(self) -> bool {
        &&& forall|i: int|
            0 <= i < self.tasks@.len() ==> (#[trigger] self.tasks@[i]).task_state is Runnable
                && self.tasks@[i].wf() && self.tasks@[i].id.0 < 64
        &&& self.current is Some ==> {
            &&& (self.current->Some_0.task_state is Running
                || self.current->Some_0.task_state is Dead)
            &&& self.current->Some_0.wf()
            &&& self.current->Some_0.id.0 < 64
        }
    }

    /// An empty scheduler: no queued tasks, nothing running.
    pub fn new() -> (r: Self)
        ensures
            r.wf(),
            r.tasks@.len() == 0,
            r.current is None,
    {
        Scheduler { tasks: VecDeque::new(), current: None }
    }

    /// Creates a task and appends it to the tail of the run queue.
    fn spawn(
        &mut self,
        task_type: TaskType,
        func: u64,
        pa: &mut PageAllocator,
        ids: &mut TaskIdAllocator,
        trampoline_paddr: u64,
        user_ret_addr: u64,
    ) -> (id: TaskId)
        requires
            old(self).wf(),
            old(pa).wf(),
            crate::mm::page::free_from(*old(pa), 0, 4),
            old(pa).base + old(pa).pages@.len() * 4096 <= 0x100_0000_0000_0000 - 0x10000,
            old(ids).task_id_map != 0,
            task_type is User ==> func & 0xfff == 0 && func < 0x100_0000_0000_0000 - 4096,
            trampoline_paddr & 0xfff == 0,
            trampoline_paddr < 0x100_0000_0000_0000 - 4096,
        ensures
            final(self).wf(),
            final(pa).wf(),
            final(pa).base == old(pa).base,
            final(pa).pages@.len() == old(pa).pages@.len(),
            forall|m: int|
                crate::mm::page::free_from(*old(pa), 0, m) ==> crate::mm::page::free_from(
                    *final(pa),
                    0,
                    m - 4,
                ),
            final(ids).task_id_map == old(ids).task_id_map & !(1u64 << (id.0 as u64)),
            id.0 < 64,
            crate::sched::task::id_free(old(ids).task_id_map, id.0 as u64),
            final(self).current == old(self).current,
            final(self).tasks@.len() == old(self).tasks@.len() + 1,
            final(self).tasks@.last().id == id,
            final(self).tasks@.last().task_type == task_type,
            final(self).tasks@.last().func == func,
            forall|i: int|
                0 <= i < old(self).tasks@.len() ==> final(self).tasks@[i] == old(self).tasks@[i],
    {
        let (task, task_id) = Task::new(func, task_type, pa, ids, trampoline_paddr, user_ret_addr);
        self.tasks.push_back(task);
        task_id
    }

    /// Spawns a kernel task that starts at `func`.
    pub fn kspawn(
        &mut self,
        func: u64,
        pa: &mut PageAllocator,
        ids: &mut TaskIdAllocator,
        trampoline_paddr: u64,
        user_ret_addr: u64,
    ) -> (id: TaskId)
        requires
            old(self).wf(),
            old(pa).wf(),
            crate::mm::page::free_from(*old(pa), 0, 4),
            old(pa).base + old(pa).pages@.len() * 4096 <= 0x100_0000_0000_0000 - 0x10000,
            old(ids).task_id_map != 0,
            trampoline_paddr & 0xfff == 0,
            trampoline_paddr < 0x100_0000_0000_0000 - 4096,
        ensures
            final(self).wf(),
            final(pa).wf(),
            final(pa).base == old(pa).base,
            final(pa).pages@.len() == old(pa).pages@.len(),
            forall|m: int|
                crate::mm::page::free_from(*old(pa), 0, m) ==> crate::mm::page::free_from(
                    *final(pa),
                    0,
                    m - 4,
                ),
            final(ids).task_id_map == old(ids).task_id_map & !(1u64 << (id.0 as u64)),
            id.0 < 64,
            crate::sched::task::id_free(old(ids).task_id_map, id.0 as u64),
            final(self).current == old(self).current,
            final(self).tasks@.len() == old(self).tasks@.len() + 1,
            final(self).tasks@.last().id == id,
            final(self).tasks@.last().task_type is Kernel,
            final(self).tasks@.last().func == func,
            forall|i: int|
                0 <= i < old(self).tasks@.len() ==> final(self).tasks@[i] == old(self).tasks@[i],
    {
        self.spawn(TaskType::Kernel, func, pa, ids, trampoline_paddr, user_ret_addr)
    }

    /// Spawns a user task whose code page sits at `func`.
    pub fn uspawn(
        &mut self,
        func: u64,
        pa: &mut PageAllocator,
        ids: &mut TaskIdAllocator,
        trampoline_paddr: u64,
        user_ret_addr: u64,
    ) -> (id: TaskId)
        requires
            old(self).wf(),
            old(pa).wf(),
            crate::mm::page::free_from(*old(pa), 0, 4),
            old(pa).base + old(pa).pages@.len() * 4096 <= 0x100_0000_0000_0000 - 0x10000,
            old(ids).task_id_map != 0,
            func & 0xfff == 0,
            func < 0x100_0000_0000_0000 - 4096,
            trampoline_paddr & 0xfff == 0,
            trampoline_paddr < 0x100_0000_0000_0000 - 4096,
        ensures
            final(self).wf(),
            final(pa).wf(),
            final(pa).base == old(pa).base,
            final(pa).pages@.len() == old(pa).pages@.len(),
            forall|m: int|
                crate::mm::page::free_from(*old(pa), 0, m) ==> crate::mm::page::free_from(
                    *final(pa),
                    0,
                    m - 4,
                ),
            final(ids).task_id_map == old(ids).task_id_map & !(1u64 << (id.0 as u64)),
            id.0 < 64,
            crate::sched::task::id_free(old(ids).task_id_map, id.0 as u64),
            final(self).current == old(self).current,
            final(self).tasks@.len() == old(self).tasks@.len() + 1,
            final(self).tasks@.last().id == id,
            final(self).tasks@.last().task_type is User,
            final(self).tasks@.last().func == func,
            forall|i: int|
                0 <= i < old(self).tasks@.len() ==> final(self).tasks@[i] == old(self).tasks@[i],
    {
        self.spawn(TaskType::User, func, pa, ids, trampoline_paddr, user_ret_addr)
    }

    /// Puts the task occupying the `current` slot back: a running task is
    /// marked runnable again and re-enqueued at the tail (round robin); a
    /// dead task is dropped and its pages and id are reclaimed. Returns
    /// the id of the re-enqueued task, or `None` when nothing was current
    /// or the task died.
    pub fn put_prev(&mut self, pa: &mut PageAllocator, ids: &mut TaskIdAllocator) -> (r: Option<
        TaskId,
    >)
        requires
            old(self).wf(),
            old(pa).wf(),
            old(self).current matches Some(t) ==> !crate::sched::task::id_free(
                old(ids).task_id_map,
                t.id.0 as u64,
            ),
        ensures
            final(self).wf(),
            final(pa).wf(),
            final(self).current is None,
            old(self).current is None ==> r is None && *final(self) == *old(self) && *final(pa)
                == *old(pa) && *final(ids) == *old(ids),
            old(self).current matches Some(t) ==> (t.task_state is Running ==> {
                &&& r == Some(t.id)
                &&& final(self).tasks@ == old(self).tasks@.push(
                    (Task { task_state: TaskState::Runnable, ..t }),
                )
                &&& *final(pa) == *old(pa)
                &&& *final(ids) == *old(ids)
            }),
            old(self).current matches Some(t) ==> (t.task_state is Dead ==> {
                &&& r is None
                &&& final(self).tasks@ == old(self).tasks@
                &&& crate::sched::task::id_free(final(ids).task_id_map, t.id.0 as u64)
            }),
    {
        let prev = self.current.take();
        match prev {
            None => None,
            Some(mut t) => {
                if matches!(t.get_state(), TaskState::Dead) {
                    let id = t.id;
                    t.destroy(pa, ids);
                    None
                } else {
                    let id = t.id;
                    t.set_state(TaskState::Runnable);
                    self.tasks.push_back(t);
                    Some(id)
                }
            },
        }
    }

    /// Picks the next task to run: pops the queue's head, marks it
    /// running, and installs it as current. May only be called when no
    /// task occupies the `current` slot. Returns the picked id, or `None`
    /// on an empty queue.
    pub fn pick_next(&mut self) -> (r: Option<TaskId>)
        requires
            old(self).wf(),
            old(self).current is None,
        ensures
            final(self).wf(),
            old(self).tasks@.len() == 0 ==> r is None && final(self).tasks@ == old(self).tasks@
                && final(self).current is None,
            old(self).tasks@.len() > 0 ==> {
                &&& r == Some(old(self).tasks@.first().id)
                &&& final(self).tasks@ == old(self).tasks@.drop_first()
                &&& final(self).current == Some(
                    Task { task_state: TaskState::Running, ..old(self).tasks@.first() },
                )
            },
    {
        let head = self.tasks.pop_front();
        match head {
            None => None,
            Some(mut t) => {
                let id = t.id;
                t.set_state(TaskState::Running);
                self.current = Some(t);
                Some(id)
            },
        }
    }
}

/// One full pick/put cycle rotates the queue by one position.
pub open spec fn rotate(q: Seq<TaskId>) -> Seq<TaskId>
    recommends
        q.len() > 0,
{
    q.drop_first().push(q.first())
}

/// The queue after `n` pick/put cycles.
pub open spec fn rotate_n(q: Seq<TaskId>, n: int) -> Seq<TaskId>
    decreases n,
{
    if n <= 0 {
        q
    } else {
        rotate(rotate_n(q, n - 1))
    }
}

/// Scheduler fairness: under pick/put cycles — each of which, by the
/// contracts of `pick_next` and `put_prev`, picks the queue's head and
/// moves it to the tail — the task picked in cycle `n` is the one that
/// started at position `n`. Over one full round every id is picked
/// exactly once, in queue order, before any id repeats.
pub proof fn lemma_round_robin(q: Seq<TaskId>, n: int)
    requires
        0 <= n < q.len(),
    ensures
        rotate_n(q, n).first() == q[n],
        rotate_n(q, n).len() == q.len(),
{
    lemma_rotate_shape(q, n);
    assert(rotate_n(q, n)[0] == q.subrange(n, q.len() as int)[0]);
}

/// The shape of the queue after `n` cycles: original positions
/// `n..len` first, then `0..n`.
proof fn lemma_rotate_shape(q: Seq<TaskId>, n: int)
    requires
        0 <= n <= q.len(),
    ensures
        rotate_n(q, n) =~= q.subrange(n, q.len() as int) + q.subrange(0, n),
    decreases n,
{
    if n == 0 {
        assert(rotate_n(q, 0) =~= q.subrange(0, q.len() as int) + q.subrange(0, 0));
    } else {
        lemma_rotate_shape(q, n - 1);
        let prev = q.subrange(n - 1, q.len() as int) + q.subrange(0, n - 1);
        assert(rotate_n(q, n) == rotate(prev));
        assert(rotate(prev) =~= q.subrange(n, q.len() as int) + q.subrange(0, n));
    }
}

} // verus!
