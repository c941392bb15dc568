//! Task management: the task control blocks, the round-robin choice of the next task,
//! the per-task syscall counters and the accesses to the current task's user memory.
use vstd::prelude::*;
use crate::config::{MAX_SYSCALL, PAGE_SIZE};
use crate::laws::{lemma_read_fills_buffer, lemma_write_takes_buffer, lemma_stored_bytes_read_back};
use crate::mm::{
    MemorySet, PageView, PTEFlags, MapPermission, VirtAddr, floor_page, ceil_page, sv39, VA_LIMIT,
    VPN_LIMIT,
    range_free, range_full, with_range, without_range, byte_at, bytes_stored, flags_of,
};

verus! {

/// The state of a task.
#[derive(Clone, Copy, PartialEq, Eq, Structural, Debug)]
pub enum TaskStatus {
    UnInit,
    Ready,
    Running,
    Exited,
}

/// What the kernel keeps of one task.
pub struct TaskControlBlock {
    pub task_status: TaskStatus,
    pub memory_set: MemorySet,
    /// Lowest address of the heap.
    pub heap_bottom: usize,
    /// Current end of the heap.
    pub program_brk: usize,
}

impl TaskControlBlock {
    /// The block's own invariant: a whole address space, a page-aligned heap bottom below
    /// the break, and a break that fits an `isize`.
    pub open spec fn wf(&self) -> bool {
        &&& self.memory_set.wf()
        &&& self.heap_bottom % PAGE_SIZE == 0
        &&& self.heap_bottom <= self.program_brk <= isize::MAX
    }

    /// A ready task with address space `memory_set` whose heap starts, empty, at `user_sp`.
    pub fn new(memory_set: MemorySet, user_sp: usize) -> (r: TaskControlBlock)
        requires
            memory_set.wf(),
            user_sp % PAGE_SIZE == 0,
            user_sp <= isize::MAX,
        ensures
            r.wf(),
            r.task_status == TaskStatus::Ready,
            r.memory_set == memory_set,
            r.heap_bottom == user_sp,
            r.program_brk == user_sp,
    {
        TaskControlBlock {
            task_status: TaskStatus::Ready,
            memory_set,
            heap_bottom: user_sp,
            program_brk: user_sp,
        }
    }

    /// Changes the end of the heap by `size` bytes. Refused (`None`, nothing changed)
    /// when the heap would end below its bottom; otherwise the pages that the heap gains
    /// are mapped readable and writable for the user, those it loses are unmapped, and the
    /// result is the previous end.
    pub fn change_program_brk(&mut self, size: i32) -> (r: Option<usize>)
        requires
            old(self).wf(),
            brk_change_safe(*old(self), size),
        ensures
            final(self).wf(),
            final(self).task_status == old(self).task_status,
            final(self).heap_bottom == old(self).heap_bottom,
            final(self).memory_set.spec_token() == old(self).memory_set.spec_token(),
            ({
                let new_brk = old(self).program_brk + size;
                if new_brk < old(self).heap_bottom {
                    r is None && *final(self) == *old(self)
                } else {
                    &&& r == Some(old(self).program_brk)
                    &&& final(self).program_brk == new_brk
                    &&& final(self).memory_set@ == heap_resized(
                        old(self).memory_set@,
                        old(self).program_brk as int,
                        new_brk,
                    )
                }
            }),
    {
        let old_break = self.program_brk;
        let new_brk: isize = self.program_brk as isize + size as isize;
        if new_brk < self.heap_bottom as isize {
            return None;
        }
        let old_end = VirtAddr(old_break).ceil();
        let new_end = VirtAddr(new_brk as usize).ceil();
        if size < 0 {
            self.memory_set.unmap_range(new_end, old_end);
        } else {
            self.memory_set.map_range(old_end, new_end, PTEFlags::from_permission(heap_permission()));
        }
        self.program_brk = new_brk as usize;
        Some(old_break)
    }

    /// Whether `change_program_brk(size)` can run: the new end fits an `isize`, a growing
    /// heap stays inside the SV39 space, and, when
    /// the heap is to change, the pages it loses are mapped and those it gains are not.
    pub fn can_change_brk(&self, size: i32) -> (r: bool)
        requires
            self.wf(),
        ensures
            r == brk_change_safe(*self, size),
    {
        if size >= 0 && self.program_brk > (isize::MAX as usize) - (size as usize) {
            return false;
        }
        let new_brk: isize = self.program_brk as isize + size as isize;
        if size > 0 && VirtAddr(new_brk as usize).ceil() > VPN_LIMIT {
            return false;
        }
        if new_brk < self.heap_bottom as isize {
            return true;
        }
        let old_end = VirtAddr(self.program_brk).ceil();
        let new_end = VirtAddr(new_brk as usize).ceil();
        if size < 0 {
            self.memory_set.range_mapped(new_end, old_end)
        } else {
            self.memory_set.range_unmapped(old_end, new_end)
        }
    }

    /// The token of the task's address space.
    pub fn get_user_token(&self) -> (r: usize)
        ensures
            r == self.memory_set.spec_token(),
    {
        self.memory_set.token()
    }
}

/// The permission of heap pages: readable and writable by the user.
pub fn heap_permission() -> (r: MapPermission)
    ensures
        r == (MapPermission { readable: true, writable: true, executable: false, user: true }),
{
    MapPermission { readable: true, writable: true, executable: false, user: true }
}

/// The address space `m` after the heap, whose end was `old_brk`, is made to end at
/// `new_brk`: pages are unmapped when it shrinks, fresh ones mapped when it grows.
pub open spec fn heap_resized(m: Map<usize, PageView>, old_brk: int, new_brk: int) -> Map<
    usize,
    PageView,
> {
    if new_brk < old_brk {
        without_range(m, ceil_page(new_brk), ceil_page(old_brk))
    } else {
        with_range(
            m,
            ceil_page(old_brk),
            ceil_page(new_brk),
            flags_of(MapPermission { readable: true, writable: true, executable: false, user: true }),
        )
    }
}

/// `change_program_brk(size)` can run on `t`: the new end of the heap fits an `isize`,
/// a growing heap stays inside the SV39 address space, and when the heap changes, the pages it loses are all mapped (else unmapping one of
/// them fails) and the pages it gains are all unmapped (else mapping one of them fails).
pub open spec fn brk_change_safe(t: TaskControlBlock, size: i32) -> bool {
    let new_brk = t.program_brk + size;
    &&& new_brk <= isize::MAX
    &&& size > 0 ==> ceil_page(new_brk) <= VPN_LIMIT
    &&& new_brk >= t.heap_bottom ==> if size < 0 {
        range_full(t.memory_set@, ceil_page(new_brk), ceil_page(t.program_brk as int))
    } else {
        range_free(t.memory_set@, ceil_page(t.program_brk as int), ceil_page(new_brk))
    }
}

/// The first ready task among `current + k`, `current + k + 1`, ..., `current + n` (taken
/// modulo `n`, the number of tasks).
pub open spec fn first_ready(tasks: Seq<TaskControlBlock>, current: int, k: int) -> Option<int>
    decreases tasks.len() + 1 - k,
{
    if k < 1 || k > tasks.len() {
        None
    } else if tasks[(current + k) % (tasks.len() as int)].task_status == TaskStatus::Ready {
        Some((current + k) % (tasks.len() as int))
    } else {
        first_ready(tasks, current, k + 1)
    }
}

/// The task that round-robin scheduling runs after `current`: the first ready one that
/// follows it, wrapping around, `current` itself last.
pub open spec fn next_ready(tasks: Seq<TaskControlBlock>, current: int) -> Option<int> {
    first_ready(tasks, current, 1)
}

/// The tasks, the current one, and the syscall counters of each task.
pub struct TaskManager {
    num_app: usize,
    tasks: Vec<TaskControlBlock>,
    current_task: usize,
    syscall_info: Vec<Vec<usize>>,
}

impl TaskManager {
    /// The task control blocks.
    pub closed spec fn tasks_view(&self) -> Seq<TaskControlBlock> {
        self.tasks@
    }

    /// Index of the current task.
    pub closed spec fn current(&self) -> int {
        self.current_task as int
    }

    /// `counts()[i][id]` is how often task `i` has made syscall `id`.
    pub closed spec fn counts(&self) -> Seq<Seq<usize>> {
        self.syscall_info@.map_values(|row: Vec<usize>| row@)
    }

    /// The manager's invariant.
    pub closed spec fn wf(&self) -> bool {
        &&& self.num_app == self.tasks@.len()
        &&& self.num_app < usize::MAX / 2
        &&& self.syscall_info@.len() == self.num_app
        &&& forall|i: int|
            0 <= i < self.num_app ==> #[trigger] self.syscall_info@[i]@.len() == MAX_SYSCALL
        &&& (self.current_task < self.num_app || (self.num_app == 0 && self.current_task == 0))
        &&& forall|i: int| 0 <= i < self.num_app ==> #[trigger] self.tasks@[i].wf()
    }

    /// What the invariant gives a caller: the current task is one of the tasks (or 0 when
    /// there is none), each task has a row of `MAX_SYSCALL` counters, and each task
    /// control block is well formed.
    pub proof fn lemma_wf_facts(&self)
        requires
            self.wf(),
        ensures
            self.tasks_view().len() < usize::MAX / 2,
            self.tasks_view().len() > 0 ==> 0 <= self.current() < self.tasks_view().len(),
            self.tasks_view().len() == 0 ==> self.current() == 0,
            self.counts().len() == self.tasks_view().len(),
            forall|i: int|
                0 <= i < self.tasks_view().len() ==> (#[trigger] self.counts()[i]).len()
                    == MAX_SYSCALL,
            forall|i: int| 0 <= i < self.tasks_view().len() ==> (#[trigger] self.tasks_view()[i]).wf(),
    {
        assert forall|i: int| 0 <= i < self.tasks_view().len() implies (#[trigger] self.counts()[i]).len()
            == MAX_SYSCALL by {
            assert(self.syscall_info@[i]@.len() == MAX_SYSCALL);
        }
    }

    /// A manager of `tasks`, the first of them current, no syscall counted.
    pub fn new(tasks: Vec<TaskControlBlock>) -> (r: TaskManager)
        requires
            tasks.len() < usize::MAX / 2,
            forall|i: int| 0 <= i < tasks.len() ==> #[trigger] tasks[i].wf(),
        ensures
            r.wf(),
            r.tasks_view() == tasks@,
            r.current() == 0,
            r.counts().len() == tasks.len(),
            forall|i: int, id: int|
                0 <= i < tasks.len() && 0 <= id < MAX_SYSCALL ==> #[trigger] r.counts()[i][id]
                    == 0,
    {
        let num_app = tasks.len();
        let mut syscall_info: Vec<Vec<usize>> = Vec::new();
        let mut i: usize = 0;
        while i < num_app
            invariant
                i <= num_app,
                syscall_info@.len() == i,
                forall|j: int| 0 <= j < i ==> #[trigger] syscall_info@[j]@ == Seq::new(
                    MAX_SYSCALL as nat,
                    |k: int| 0usize,
                ),
            decreases num_app - i,
        {
            let mut row: Vec<usize> = Vec::new();
            let mut k: usize = 0;
            while k < MAX_SYSCALL
                invariant
                    k <= MAX_SYSCALL,
                    row@ == Seq::new(k as nat, |j: int| 0usize),
                decreases MAX_SYSCALL - k,
            {
                row.push(0);
                k = k + 1;
                assert(row@ =~= Seq::new(k as nat, |j: int| 0usize));
            }
            syscall_info.push(row);
            i = i + 1;
        }
        TaskManager { num_app, tasks, current_task: 0, syscall_info }
    }
}

impl TaskManager {
    /// The number of tasks.
    pub fn num_app(&self) -> (r: usize)
        requires
            self.wf(),
        ensures
            r == self.tasks_view().len(),
    {
        self.num_app
    }

    /// Index of the current task.
    pub fn current_task(&self) -> (r: usize)
        ensures
            r == self.current(),
    {
        self.current_task
    }

    /// The control block of task `i`.
    pub fn task(&self, i: usize) -> (r: &TaskControlBlock)
        requires
            self.wf(),
            i < self.tasks_view().len(),
        ensures
            *r == self.tasks_view()[i as int],
            r.wf(),
    {
        &self.tasks[i]
    }

    /// The status of task `i`.
    pub fn task_status(&self, i: usize) -> (r: TaskStatus)
        requires
            self.wf(),
            i < self.tasks_view().len(),
        ensures
            r == self.tasks_view()[i as int].task_status,
    {
        self.tasks[i].task_status
    }

    /// Marks the first task as running, before the kernel switches to it; it is the task
    /// to switch to.
    pub fn run_first_task(&mut self) -> (r: usize)
        requires
            old(self).wf(),
            old(self).tasks_view().len() > 0,
        ensures
            final(self).wf(),
            r == 0,
            final(self).current() == old(self).current(),
            final(self).counts() == old(self).counts(),
            final(self).tasks_view() == old(self).tasks_view().update(
                0,
                TaskControlBlock { task_status: TaskStatus::Running, ..old(self).tasks_view()[0] },
            ),
    {
        self.set_status(0, TaskStatus::Running);
        0
    }

    /// Sets the status of task `i`.
    fn set_status(&mut self, i: usize, status: TaskStatus)
        requires
            old(self).wf(),
            i < old(self).tasks_view().len(),
        ensures
            final(self).wf(),
            final(self).current() == old(self).current(),
            final(self).counts() == old(self).counts(),
            final(self).tasks_view() == old(self).tasks_view().update(
                i as int,
                TaskControlBlock { task_status: status, ..old(self).tasks_view()[i as int] },
            ),
    {
        self.tasks[i].task_status = status;
        assert(self.tasks@ =~= old(self).tasks@.update(
            i as int,
            TaskControlBlock { task_status: status, ..old(self).tasks@[i as int] },
        ));
        assert forall|j: int| 0 <= j < self.num_app implies #[trigger] self.tasks@[j].wf() by {
            assert(old(self).tasks@[j].wf());
        }
    }

    /// Changes the status of the current task into `Ready`.
    pub fn mark_current_suspended(&mut self)
        requires
            old(self).wf(),
            old(self).tasks_view().len() > 0,
        ensures
            final(self).wf(),
            final(self).current() == old(self).current(),
            final(self).counts() == old(self).counts(),
            final(self).tasks_view() == old(self).tasks_view().update(
                old(self).current(),
                TaskControlBlock {
                    task_status: TaskStatus::Ready,
                    ..old(self).tasks_view()[old(self).current()]
                },
            ),
    {
        let cur = self.current_task;
        self.set_status(cur, TaskStatus::Ready);
    }

    /// Changes the status of the current task into `Exited`.
    pub fn mark_current_exited(&mut self)
        requires
            old(self).wf(),
            old(self).tasks_view().len() > 0,
        ensures
            final(self).wf(),
            final(self).current() == old(self).current(),
            final(self).counts() == old(self).counts(),
            final(self).tasks_view() == old(self).tasks_view().update(
                old(self).current(),
                TaskControlBlock {
                    task_status: TaskStatus::Exited,
                    ..old(self).tasks_view()[old(self).current()]
                },
            ),
    {
        let cur = self.current_task;
        self.set_status(cur, TaskStatus::Exited);
    }

    /// The next task to run: the first ready one after the current task, wrapping
    /// around, the current task itself last; `None` when no task is ready.
    pub fn find_next_task(&self) -> (r: Option<usize>)
        requires
            self.wf(),
        ensures
            match r {
                Some(i) => next_ready(self.tasks_view(), self.current()) == Some(i as int),
                None => next_ready(self.tasks_view(), self.current()) is None,
            },
    {
        let n = self.num_app;
        let current = self.current_task;
        let mut k: usize = 1;
        while k <= n
            invariant
                self.wf(),
                n == self.tasks@.len(),
                current == self.current_task,
                1 <= k <= n + 1,
                first_ready(self.tasks@, current as int, 1) == first_ready(
                    self.tasks@,
                    current as int,
                    k as int,
                ),
            decreases n + 1 - k,
        {
            let id = (current + k) % n;
            if self.tasks[id].task_status == TaskStatus::Ready {
                return Some(id);
            }
            k = k + 1;
        }
        None
    }

    /// Makes the next ready task current and running; some task must be ready (when none
    /// is, all applications have completed and the kernel stops). The result is the pair
    /// (previous task, next task) that the kernel switches between.
    pub fn run_next_task(&mut self) -> (r: (usize, usize))
        requires
            old(self).wf(),
            next_ready(old(self).tasks_view(), old(self).current()) is Some,
        ensures
            final(self).wf(),
            final(self).counts() == old(self).counts(),
            ({
                let next = next_ready(old(self).tasks_view(), old(self).current())->0;
                &&& r == (old(self).current() as usize, next as usize)
                &&& final(self).current() == next
                &&& final(self).tasks_view() == with_status(
                    old(self).tasks_view(),
                    next,
                    TaskStatus::Running,
                )
            }),
    {
        proof {
            lemma_next_ready_in_range(self.tasks@, self.current_task as int);
        }
        let next = self.find_next_task().unwrap();
        let current = self.current_task;
        self.set_status(next, TaskStatus::Running);
        self.current_task = next;
        (current, next)
    }

    /// Whether, once the current task is marked exited, some task is still ready: some
    /// task other than the current one is ready.
    pub fn other_task_ready(&self) -> (r: bool)
        requires
            self.wf(),
            self.tasks_view().len() > 0,
        ensures
            r == next_ready(
                with_status(self.tasks_view(), self.current(), TaskStatus::Exited),
                self.current(),
            ) is Some,
    {
        let ghost marked = with_status(self.tasks@, self.current_task as int, TaskStatus::Exited);
        proof {
            lemma_next_ready_none_iff_none_ready(marked, self.current_task as int);
        }
        let mut i: usize = 0;
        while i < self.num_app
            invariant
                self.wf(),
                i <= self.num_app,
                marked == with_status(self.tasks@, self.current_task as int, TaskStatus::Exited),
                forall|j: int| 0 <= j < i ==> (#[trigger] marked[j]).task_status != TaskStatus::Ready,
            decreases self.num_app - i,
        {
            if i != self.current_task && self.tasks[i].task_status == TaskStatus::Ready {
                assert(marked[i as int].task_status == TaskStatus::Ready);
                proof {
                    lemma_next_ready_none_iff_none_ready(marked, self.current_task as int);
                }
                return true;
            }
            i = i + 1;
        }
        false
    }
}

impl TaskManager {
    /// The token of the current task's address space.
    pub fn get_current_token(&self) -> (r: usize)
        requires
            self.wf(),
            self.tasks_view().len() > 0,
        ensures
            r == self.tasks_view()[self.current()].memory_set.spec_token(),
    {
        self.tasks[self.current_task].get_user_token()
    }

    /// Changes the end of the current task's heap by `size` bytes; see
    /// `TaskControlBlock::change_program_brk`.
    pub fn change_current_program_brk(&mut self, size: i32) -> (r: Option<usize>)
        requires
            old(self).wf(),
            old(self).tasks_view().len() > 0,
            brk_change_safe(old(self).tasks_view()[old(self).current()], size),
        ensures
            final(self).wf(),
            final(self).current() == old(self).current(),
            final(self).counts() == old(self).counts(),
            ({
                let cur = old(self).current();
                let t = old(self).tasks_view()[cur];
                let new_brk = t.program_brk + size;
                if new_brk < t.heap_bottom {
                    r is None && final(self).tasks_view() == old(self).tasks_view()
                } else {
                    &&& r == Some(t.program_brk)
                    &&& final(self).tasks_view() == old(self).tasks_view().update(
                        cur,
                        TaskControlBlock {
                            program_brk: new_brk as usize,
                            memory_set: final(self).tasks_view()[cur].memory_set,
                            ..t
                        },
                    )
                    &&& final(self).tasks_view()[cur].memory_set@ == heap_resized(
                        t.memory_set@,
                        t.program_brk as int,
                        new_brk,
                    )
                    &&& final(self).tasks_view()[cur].memory_set.spec_token()
                        == t.memory_set.spec_token()
                }
            }),
    {
        let cur = self.current_task;
        let r = self.tasks[cur].change_program_brk(size);
        proof {
            assert forall|j: int| 0 <= j < self.num_app implies #[trigger] self.tasks@[j].wf() by {
                assert(old(self).tasks@[j].wf());
            }
            if r is None {
                assert(self.tasks@ =~= old(self).tasks@);
            }
        }
        r
    }

    /// How often the current task has made syscall `syscall_id`, or -1 when the id is
    /// not below `MAX_SYSCALL`.
    pub fn get_syscall_info(&self, syscall_id: usize) -> (r: isize)
        requires
            self.wf(),
            self.tasks_view().len() > 0,
        ensures
            r == syscall_info_result(self.counts()[self.current()], syscall_id),
    {
        if syscall_id < MAX_SYSCALL {
            let current = self.current_task;
            return self.syscall_info[current][syscall_id] as isize;
        }
        -1
    }

    /// Counts one more syscall `syscall_id` for the current task; ids not below
    /// `MAX_SYSCALL` are not counted.
    pub fn syscall_counts(&mut self, syscall_id: usize)
        requires
            old(self).wf(),
            old(self).tasks_view().len() > 0,
            count_fits(old(self).counts()[old(self).current()], syscall_id),
        ensures
            final(self).wf(),
            final(self).current() == old(self).current(),
            final(self).tasks_view() == old(self).tasks_view(),
            final(self).counts() == counted(old(self).counts(), old(self).current(), syscall_id),
    {
        if syscall_id < MAX_SYSCALL {
            let current = self.current_task;
            let v = self.syscall_info[current][syscall_id];
            self.syscall_info[current].set(syscall_id, v + 1);
            proof {
                assert(self.counts() =~= counted(old(self).counts(), self.current_task as int, syscall_id));
                assert forall|i: int| 0 <= i < self.num_app implies #[trigger] self.syscall_info@[i]@.len() == MAX_SYSCALL by {
                    assert(old(self).syscall_info@[i]@.len() == MAX_SYSCALL);
                }
            }
        } else {
            assert(self.counts() =~= counted(old(self).counts(), self.current_task as int, syscall_id));
        }
    }
}

/// `tasks` with task `i` given status `status`.
pub open spec fn with_status(tasks: Seq<TaskControlBlock>, i: int, status: TaskStatus) -> Seq<
    TaskControlBlock,
> {
    tasks.update(i, TaskControlBlock { task_status: status, ..tasks[i] })
}

/// No task but the current one is running.
pub open spec fn only_current_may_run(tasks: Seq<TaskControlBlock>, current: int) -> bool {
    forall|i: int|
        0 <= i < tasks.len() && i != current ==> (#[trigger] tasks[i]).task_status
            != TaskStatus::Running
}

/// What switching away from the current task, after giving it status `status`, leaves:
/// the next ready task runs and is current; `r` is the pair to switch between.
pub open spec fn switched_away(
    old: TaskManager,
    new: TaskManager,
    status: TaskStatus,
    r: (usize, usize),
) -> bool {
    let cur = old.current();
    let marked = with_status(old.tasks_view(), cur, status);
    let next = next_ready(marked, cur)->0;
    &&& new.counts() == old.counts()
    &&& r == (cur as usize, next as usize)
    &&& new.current() == next
    &&& new.tasks_view() == with_status(marked, next, TaskStatus::Running)
}

/// Law: switching away from the current task never revives an exited task: every other
/// task that had exited is still exited afterwards.
pub proof fn lemma_exited_stays_exited(
    old: TaskManager,
    new: TaskManager,
    status: TaskStatus,
    r: (usize, usize),
    i: int,
)
    requires
        0 <= old.current() < old.tasks_view().len(),
        next_ready(with_status(old.tasks_view(), old.current(), status), old.current()) is Some,
        switched_away(old, new, status, r),
        0 <= i < old.tasks_view().len(),
        i != old.current(),
        old.tasks_view()[i].task_status == TaskStatus::Exited,
    ensures
        new.tasks_view()[i].task_status == TaskStatus::Exited,
{
    let marked = with_status(old.tasks_view(), old.current(), status);
    lemma_next_ready_in_range(marked, old.current());
}

/// Marks the first task as running; it is the task to switch to.
pub fn run_first_task(tm: &mut TaskManager) -> (r: usize)
    requires
        old(tm).wf(),
        old(tm).tasks_view().len() > 0,
    ensures
        final(tm).wf(),
        r == 0,
        final(tm).current() == old(tm).current(),
        final(tm).counts() == old(tm).counts(),
        final(tm).tasks_view() == with_status(old(tm).tasks_view(), 0, TaskStatus::Running),
{
    tm.run_first_task()
}

/// Makes the next ready task current and running; see `TaskManager::run_next_task`.
fn run_next_task(tm: &mut TaskManager) -> (r: (usize, usize))
    requires
        old(tm).wf(),
        old(tm).tasks_view().len() > 0,
        next_ready(old(tm).tasks_view(), old(tm).current()) is Some,
    ensures
        final(tm).wf(),
        switched_away(*old(tm), *final(tm), old(tm).tasks_view()[old(tm).current()].task_status, r),
{
    let cur = tm.current_task;
    proof {
        assert(with_status(tm.tasks_view(), cur as int, tm.tasks_view()[cur as int].task_status)
            =~= tm.tasks_view());
    }
    tm.run_next_task()
}

/// Changes the status of the current task into `Ready`.
fn mark_current_suspended(tm: &mut TaskManager)
    requires
        old(tm).wf(),
        old(tm).tasks_view().len() > 0,
    ensures
        final(tm).wf(),
        final(tm).current() == old(tm).current(),
        final(tm).counts() == old(tm).counts(),
        final(tm).tasks_view() == with_status(old(tm).tasks_view(), old(tm).current(), TaskStatus::Ready),
{
    tm.mark_current_suspended();
}

/// Changes the status of the current task into `Exited`.
fn mark_current_exited(tm: &mut TaskManager)
    requires
        old(tm).wf(),
        old(tm).tasks_view().len() > 0,
    ensures
        final(tm).wf(),
        final(tm).current() == old(tm).current(),
        final(tm).counts() == old(tm).counts(),
        final(tm).tasks_view() == with_status(old(tm).tasks_view(), old(tm).current(), TaskStatus::Exited),
{
    tm.mark_current_exited();
}

/// Suspends the current task and makes the next ready task current and running. The
/// result is the pair (previous task, next task) to switch between; there always is one,
/// since the suspended task itself is ready. Only the current task stays running.
pub fn suspend_current_and_run_next(tm: &mut TaskManager) -> (r: (usize, usize))
    requires
        old(tm).wf(),
        old(tm).tasks_view().len() > 0,
    ensures
        final(tm).wf(),
        switched_away(*old(tm), *final(tm), TaskStatus::Ready, r),
        final(tm).tasks_view()[final(tm).current()].task_status == TaskStatus::Running,
        only_current_may_run(old(tm).tasks_view(), old(tm).current()) ==> only_current_may_run(
            final(tm).tasks_view(),
            final(tm).current(),
        ),
{
    let ghost marked = with_status(tm.tasks_view(), tm.current(), TaskStatus::Ready);
    mark_current_suspended(tm);
    proof {
        lemma_ready_current_is_never_stuck(marked, tm.current());
        lemma_next_ready_in_range(marked, tm.current());
    }
    tm.run_next_task()
}

/// Marks the current task exited and makes the next ready task current and running; some
/// other task must be ready (when none is, all applications have completed and the
/// kernel stops). The result is the pair (previous task, next task) to switch between.
/// Only the current task stays running, and the exited task is never the next one.
pub fn exit_current_and_run_next(tm: &mut TaskManager) -> (r: (usize, usize))
    requires
        old(tm).wf(),
        old(tm).tasks_view().len() > 0,
        next_ready(
            with_status(old(tm).tasks_view(), old(tm).current(), TaskStatus::Exited),
            old(tm).current(),
        ) is Some,
    ensures
        final(tm).wf(),
        switched_away(*old(tm), *final(tm), TaskStatus::Exited, r),
        r.1 != old(tm).current(),
        final(tm).tasks_view()[final(tm).current()].task_status == TaskStatus::Running,
        only_current_may_run(old(tm).tasks_view(), old(tm).current()) ==> only_current_may_run(
            final(tm).tasks_view(),
            final(tm).current(),
        ),
{
    let ghost marked = with_status(tm.tasks_view(), tm.current(), TaskStatus::Exited);
    mark_current_exited(tm);
    proof {
        lemma_next_ready_in_range(marked, tm.current());
    }
    tm.run_next_task()
}

/// The token of the current task's address space.
pub fn current_user_token(tm: &TaskManager) -> (r: usize)
    requires
        tm.wf(),
        tm.tasks_view().len() > 0,
    ensures
        r == tm.tasks_view()[tm.current()].memory_set.spec_token(),
{
    tm.get_current_token()
}

/// Changes the end of the current task's heap; see `TaskManager::change_current_program_brk`.
pub fn change_program_brk(tm: &mut TaskManager, size: i32) -> (r: Option<usize>)
    requires
        old(tm).wf(),
        old(tm).tasks_view().len() > 0,
        brk_change_safe(old(tm).tasks_view()[old(tm).current()], size),
    ensures
        final(tm).wf(),
        final(tm).current() == old(tm).current(),
        final(tm).counts() == old(tm).counts(),
        ({
            let cur = old(tm).current();
            let t = old(tm).tasks_view()[cur];
            let new_brk = t.program_brk + size;
            if new_brk < t.heap_bottom {
                r is None && final(tm).tasks_view() == old(tm).tasks_view()
            } else {
                &&& r == Some(t.program_brk)
                &&& final(tm).tasks_view() == old(tm).tasks_view().update(
                    cur,
                    TaskControlBlock {
                        program_brk: new_brk as usize,
                        memory_set: final(tm).tasks_view()[cur].memory_set,
                        ..t
                    },
                )
                &&& final(tm).tasks_view()[cur].memory_set@ == heap_resized(
                    t.memory_set@,
                    t.program_brk as int,
                    new_brk,
                )
                &&& final(tm).tasks_view()[cur].memory_set.spec_token() == t.memory_set.spec_token()
            }
        }),
{
    tm.change_current_program_brk(size)
}

/// Counts one more syscall `syscall_id` for the current task; see
/// `TaskManager::syscall_counts`.
pub fn syscall_counts(tm: &mut TaskManager, syscall_id: usize)
    requires
        old(tm).wf(),
        old(tm).tasks_view().len() > 0,
        count_fits(old(tm).counts()[old(tm).current()], syscall_id),
    ensures
        final(tm).wf(),
        final(tm).current() == old(tm).current(),
        final(tm).tasks_view() == old(tm).tasks_view(),
        final(tm).counts() == counted(old(tm).counts(), old(tm).current(), syscall_id),
{
    tm.syscall_counts(syscall_id);
}

/// How often the current task has made syscall `syscall_id`; see
/// `TaskManager::get_syscall_info`.
pub fn get_syscall_info(tm: &TaskManager, syscall_id: usize) -> (r: isize)
    requires
        tm.wf(),
        tm.tasks_view().len() > 0,
    ensures
        r == syscall_info_result(tm.counts()[tm.current()], syscall_id),
{
    tm.get_syscall_info(syscall_id)
}

/// User address `va` can be read by the kernel on a task's behalf: it is a legal SV39
/// address whose page is mapped valid and readable.
pub open spec fn readable_at(m: Map<usize, PageView>, va: int) -> bool {
    &&& va < VA_LIMIT
    &&& m.contains_key(floor_page(va) as usize)
    &&& m[floor_page(va) as usize].0.valid
    &&& m[floor_page(va) as usize].0.readable
}

/// User address `va` can be written by the kernel on a task's behalf: the page of its
/// low 39 bits is mapped valid and writable.
pub open spec fn writable_at(m: Map<usize, PageView>, va: int) -> bool {
    &&& m.contains_key(floor_page(sv39(va)) as usize)
    &&& m[floor_page(sv39(va)) as usize].0.valid
    &&& m[floor_page(sv39(va)) as usize].0.writable
}

/// `buf` with its first `n` bytes replaced by the user bytes from address `va` on.
pub open spec fn loaded(buf: Seq<u8>, m: Map<usize, PageView>, va: int, n: int) -> Seq<u8> {
    Seq::new(buf.len(), |i: int| if i < n { byte_at(m, va + i) } else { buf[i] })
}

/// The smaller of two lengths.
pub open spec fn min_len(a: int, b: int) -> int {
    if a <= b { a } else { b }
}

/// A read of `va_len` bytes at `va` that passes the page check stays below the end of
/// the SV39 space and touches only mapped pages, as the translation of each page it
/// covers must succeed.
pub open spec fn read_in_mapped_pages(m: Map<usize, PageView>, va: usize, va_len: usize) -> bool {
    readable_at(m, va as int) ==> (va_len == 0 || (va + va_len < VA_LIMIT && va + va_len
        <= usize::MAX && range_full(m, floor_page(va as int), ceil_page(va + va_len))))
}

/// A write of `va_len` bytes at `va` that passes the page check stays below the end of
/// the SV39 space and touches only mapped pages, as the translation of an unmapped page
/// fails.
pub open spec fn write_in_mapped_pages(m: Map<usize, PageView>, va: usize, va_len: usize) -> bool {
    writable_at(m, va as int) ==> (va_len == 0 || (va + va_len < VA_LIMIT && va + va_len
        <= usize::MAX && range_full(
        m,
        floor_page(va as int),
        ceil_page(va + va_len),
    )))
}

/// Reads `va_len` bytes of the current task's memory at `va` into `read_buffer`, page
/// after page. When `va` is illegal or its page is not mapped readable: `false`, nothing
/// read. Otherwise the first `min(va_len, read_buffer.len())` bytes are read, and the
/// result is whether that is all `va_len` of them.
pub fn read_buffer_from_va(
    tm: &TaskManager,
    va: usize,
    va_len: usize,
    read_buffer: &mut Vec<u8>,
) -> (r: bool)
    requires
        tm.wf(),
        tm.tasks_view().len() > 0,
        read_in_mapped_pages(tm.tasks_view()[tm.current()].memory_set@, va, va_len),
    ensures
        ({
            let m = tm.tasks_view()[tm.current()].memory_set@;
            if readable_at(m, va as int) {
                &&& r == (old(read_buffer)@.len() >= va_len)
                &&& final(read_buffer)@ == loaded(
                    old(read_buffer)@,
                    m,
                    va as int,
                    min_len(va_len as int, old(read_buffer)@.len() as int),
                )
            } else {
                !r && final(read_buffer)@ == old(read_buffer)@
            }
        }),
        ({
            let m = tm.tasks_view()[tm.current()].memory_set@;
            readable_at(m, va as int) && old(read_buffer)@.len() >= va_len ==> {
                &&& r
                &&& final(read_buffer)@.len() == old(read_buffer)@.len()
                &&& forall|i: int|
                    0 <= i < va_len ==> #[trigger] final(read_buffer)@[i] == byte_at(m, va + i)
            }
        }),
{
    if (va as u64) >= VA_LIMIT {
        return false;
    }
    let current = tm.current_task;
    assert(tm.tasks@[current as int].wf());
    let ms = &tm.tasks[current].memory_set;
    let vpn = VirtAddr::from_usize(va).floor();
    match ms.translate(vpn) {
        Some(pte) => {
            if !pte.valid || !pte.readable {
                return false;
            }
        },
        None => {
            return false;
        },
    }
    let read_len = read_buffer.len();
    let to_read = if va_len <= read_len { va_len } else { read_len };
    let mut i: usize = 0;
    while i < to_read
        invariant
            tm.wf(),
            0 <= current < tm.tasks@.len(),
            *ms == tm.tasks@[current as int].memory_set,
            ms.wf(),
            readable_at(ms@, va as int),
            to_read > 0 ==> va + va_len < VA_LIMIT && va + va_len <= usize::MAX,
            range_full(ms@, floor_page(va as int), ceil_page(va + va_len)) || to_read == 0,
            to_read <= va_len,
            to_read <= read_len,
            i <= to_read,
            read_len == old(read_buffer)@.len(),
            read_buffer@ == loaded(old(read_buffer)@, ms@, va as int, i as int),
        decreases to_read - i,
    {
        let addr = va + i;
        assert(floor_page(va as int) <= floor_page(addr as int) < ceil_page(va + va_len));
        let b = ms.read_byte(addr);
        read_buffer.set(i, b);
        i = i + 1;
        assert(read_buffer@ =~= loaded(old(read_buffer)@, ms@, va as int, i as int));
    }
    proof {
        if read_len >= va_len {
            lemma_read_fills_buffer(old(read_buffer)@, ms@, va as int, va_len as int);
        }
    }
    to_read == va_len
}

/// Writes `va_len` bytes from `write_buffer` into the current task's memory at `va`.
/// When the page of `va` is not mapped writable: `false`, nothing written. Otherwise the
/// first `min(va_len, write_buffer.len())` bytes are stored, and the result is whether
/// that is all `va_len` of them.
pub fn write_buffer_to_va(
    tm: &mut TaskManager,
    va: usize,
    va_len: usize,
    write_buffer: &[u8],
) -> (r: bool)
    requires
        old(tm).wf(),
        old(tm).tasks_view().len() > 0,
        write_in_mapped_pages(old(tm).tasks_view()[old(tm).current()].memory_set@, va, va_len),
    ensures
        final(tm).wf(),
        final(tm).current() == old(tm).current(),
        final(tm).counts() == old(tm).counts(),
        ({
            let cur = old(tm).current();
            let t = old(tm).tasks_view()[cur];
            let n = min_len(va_len as int, write_buffer@.len() as int);
            if writable_at(t.memory_set@, va as int) {
                &&& r == (write_buffer@.len() >= va_len)
                &&& final(tm).tasks_view() == old(tm).tasks_view().update(
                    cur,
                    TaskControlBlock { memory_set: final(tm).tasks_view()[cur].memory_set, ..t },
                )
                &&& final(tm).tasks_view()[cur].memory_set.spec_token() == t.memory_set.spec_token()
                &&& bytes_stored(
                    t.memory_set@,
                    final(tm).tasks_view()[cur].memory_set@,
                    va as int,
                    write_buffer@.take(n),
                )
            } else {
                !r && *final(tm) == *old(tm)
            }
        }),
        ({
            let m = old(tm).tasks_view()[old(tm).current()].memory_set@;
            writable_at(m, va as int) && write_buffer@.len() >= va_len ==> {
                &&& r
                &&& forall|i: int|
                    0 <= i < va_len ==> #[trigger] byte_at(
                        final(tm).tasks_view()[final(tm).current()].memory_set@,
                        va + i,
                    ) == write_buffer@[i]
            }
        }),
{
    let current = tm.current_task;
    assert(tm.tasks@[current as int].wf());
    let vpn = VirtAddr::from_usize(va).floor();
    match tm.tasks[current].memory_set.translate(vpn) {
        Some(pte) => {
            if !pte.valid || !pte.writable {
                return false;
            }
        },
        None => {
            return false;
        },
    }
    let write_len = write_buffer.len();
    let to_write = if va_len <= write_len { va_len } else { write_len };
    let ghost m0 = tm.tasks@[current as int].memory_set@;
    let mut i: usize = 0;
    assert(bytes_stored(m0, m0, va as int, write_buffer@.take(0)));
    while i < to_write
        invariant
            old(tm).wf(),
            tm.wf(),
            0 <= current < tm.tasks@.len(),
            current == tm.current_task,
            current == old(tm).current_task,
            tm.num_app == old(tm).num_app,
            writable_at(m0, va as int),
            tm.syscall_info == old(tm).syscall_info,
            m0 == old(tm).tasks@[current as int].memory_set@,
            to_write > 0 ==> va + va_len < VA_LIMIT && va + va_len <= usize::MAX,
            tm.tasks@[current as int].memory_set.wf(),
            m0.dom() == tm.tasks@[current as int].memory_set@.dom(),
            range_full(m0, floor_page(va as int), ceil_page(va + va_len)) || to_write == 0,
            to_write <= va_len,
            to_write <= write_len,
            write_len == write_buffer@.len(),
            i <= to_write,
            tm.tasks@ == old(tm).tasks@.update(
                current as int,
                TaskControlBlock {
                    memory_set: tm.tasks@[current as int].memory_set,
                    ..old(tm).tasks@[current as int]
                },
            ),
            tm.tasks@[current as int].memory_set.spec_token()
                == old(tm).tasks@[current as int].memory_set.spec_token(),
            bytes_stored(m0, tm.tasks@[current as int].memory_set@, va as int, write_buffer@.take(i as int)),
        decreases to_write - i,
    {
        assert(tm.tasks@[current as int].wf());
        let addr = va + i;
        assert(floor_page(va as int) <= floor_page(addr as int) < ceil_page(va + va_len));
        let ghost before = tm.tasks@[current as int].memory_set@;
        let ghost prev_bytes = write_buffer@.take(i as int);
        let ghost b = write_buffer@[i as int];
        tm.tasks[current].memory_set.write_byte(addr, write_buffer[i]);
        i = i + 1;
        proof {
            let after = tm.tasks@[current as int].memory_set@;
            let bytes = write_buffer@.take(i as int);
            let va_page = (addr / PAGE_SIZE) as usize;
            let oa = (addr % PAGE_SIZE) as int;
            assert(addr == va_page * PAGE_SIZE + oa);
            assert(after == before.insert(va_page, (before[va_page].0, before[va_page].1.update(oa, b))));
            assert forall|vpn: usize, off: int|
                after.contains_key(vpn) && 0 <= off < PAGE_SIZE implies #[trigger] after[vpn].1[off] == {
                    let a = vpn * PAGE_SIZE + off;
                    if va <= a < va + bytes.len() {
                        bytes[a - va]
                    } else {
                        m0[vpn].1[off]
                    }
                } by {
                assert(before.contains_key(vpn));
                assert(before[vpn].1.len() == PAGE_SIZE);
                let a = vpn * PAGE_SIZE + off;
                if vpn == va_page && off == oa {
                    assert(a == addr);
                    assert(bytes[a - va] == b);
                } else {
                    assert(a != addr);
                    assert(after[vpn].1[off] == before[vpn].1[off]);
                    if va <= a < va + bytes.len() {
                        assert(bytes[a - va] == prev_bytes[a - va]);
                    }
                }
            }
            assert(after.dom() =~= m0.dom());
            assert forall|vpn: usize| #[trigger] after.contains_key(vpn) implies after[vpn].0
                == m0[vpn].0 && after[vpn].1.len() == m0[vpn].1.len() by {
                assert(before.contains_key(vpn));
                assert(before[vpn].1.len() == PAGE_SIZE);
            }
            assert(bytes_stored(m0, after, va as int, bytes));
            assert forall|j: int| 0 <= j < tm.num_app implies #[trigger] tm.tasks@[j].wf() by {
                assert(old(tm).tasks@[j].wf());
            }
        }
    }
    proof {
        if !(writable_at(m0, va as int)) {
        }
        assert(write_buffer@.take(to_write as int) =~= write_buffer@.take(min_len(va_len as int, write_buffer@.len() as int)));
        if writable_at(m0, va as int) && write_len >= va_len {
            let bytes = write_buffer@.take(to_write as int);
            lemma_write_takes_buffer(write_buffer@, va_len as int);
            lemma_stored_bytes_read_back(m0, tm.tasks@[current as int].memory_set@, va as int, bytes);
            assert forall|i: int| 0 <= i < va_len implies #[trigger] byte_at(
                tm.tasks@[current as int].memory_set@,
                va + i,
            ) == write_buffer@[i] by {
                assert(floor_page(va as int) <= floor_page(va + i) < ceil_page(va + va_len));
                assert(bytes[i] == write_buffer@[i]);
            }
        }
    }
    to_write == va_len
}

/// Maps, in the current task's address space, the pages from `start_va` up to `end_va`
/// with `permission`; see `MemorySet::safe_insert_framed_area`.
pub fn current_task_mmap(
    tm: &mut TaskManager,
    start_va: VirtAddr,
    end_va: VirtAddr,
    permission: MapPermission,
) -> (r: isize)
    requires
        old(tm).wf(),
        old(tm).tasks_view().len() > 0,
        ceil_page(end_va.0 as int) <= VPN_LIMIT,
    ensures
        final(tm).wf(),
        final(tm).current() == old(tm).current(),
        final(tm).counts() == old(tm).counts(),
        ({
            let cur = old(tm).current();
            let t = old(tm).tasks_view()[cur];
            let lo = floor_page(start_va.0 as int);
            let hi = ceil_page(end_va.0 as int);
            if lo <= hi && range_free(t.memory_set@, lo, hi) {
                &&& r == 0
                &&& final(tm).tasks_view() == old(tm).tasks_view().update(
                    cur,
                    TaskControlBlock { memory_set: final(tm).tasks_view()[cur].memory_set, ..t },
                )
                &&& final(tm).tasks_view()[cur].memory_set.spec_token() == t.memory_set.spec_token()
                &&& final(tm).tasks_view()[cur].memory_set@ == with_range(
                    t.memory_set@,
                    lo,
                    hi,
                    flags_of(permission),
                )
            } else {
                r == -1 && final(tm).tasks_view() == old(tm).tasks_view()
            }
        }),
{
    let current = tm.current_task;
    assert(tm.tasks@[current as int].wf());
    let r = tm.tasks[current].memory_set.safe_insert_framed_area(start_va, end_va, permission);
    proof {
        if r == -1 {
            assert(tm.tasks@ =~= old(tm).tasks@);
        }
        assert forall|j: int| 0 <= j < tm.num_app implies #[trigger] tm.tasks@[j].wf() by {
            assert(old(tm).tasks@[j].wf());
        }
    }
    r
}

/// Unmaps, in the current task's address space, the pages from `start_va` up to
/// `end_va`; see `MemorySet::remove_framed_area`.
pub fn current_task_munmap(tm: &mut TaskManager, start_va: VirtAddr, end_va: VirtAddr) -> (r:
    isize)
    requires
        old(tm).wf(),
        old(tm).tasks_view().len() > 0,
    ensures
        final(tm).wf(),
        final(tm).current() == old(tm).current(),
        final(tm).counts() == old(tm).counts(),
        ({
            let cur = old(tm).current();
            let t = old(tm).tasks_view()[cur];
            let lo = floor_page(start_va.0 as int);
            let hi = ceil_page(end_va.0 as int);
            if range_full(t.memory_set@, lo, hi) {
                &&& r == 0
                &&& final(tm).tasks_view() == old(tm).tasks_view().update(
                    cur,
                    TaskControlBlock { memory_set: final(tm).tasks_view()[cur].memory_set, ..t },
                )
                &&& final(tm).tasks_view()[cur].memory_set.spec_token() == t.memory_set.spec_token()
                &&& final(tm).tasks_view()[cur].memory_set@ == without_range(t.memory_set@, lo, hi)
            } else {
                r == -1 && final(tm).tasks_view() == old(tm).tasks_view()
            }
        }),
{
    let current = tm.current_task;
    assert(tm.tasks@[current as int].wf());
    let r = tm.tasks[current].memory_set.remove_framed_area(start_va, end_va);
    proof {
        if r == -1 {
            assert(tm.tasks@ =~= old(tm).tasks@);
        }
        assert forall|j: int| 0 <= j < tm.num_app implies #[trigger] tm.tasks@[j].wf() by {
            assert(old(tm).tasks@[j].wf());
        }
    }
    r
}

/// What `get_syscall_info` answers from the counters `row` of the current task.
pub open spec fn syscall_info_result(row: Seq<usize>, syscall_id: usize) -> isize {
    if syscall_id < MAX_SYSCALL {
        row[syscall_id as int] as isize
    } else {
        -1isize
    }
}

/// Counting syscall `syscall_id` once more cannot overflow its counter in `row`.
pub open spec fn count_fits(row: Seq<usize>, syscall_id: usize) -> bool {
    syscall_id < MAX_SYSCALL ==> row[syscall_id as int] < usize::MAX
}

/// The counters after task `cur` made syscall `syscall_id` once more.
pub open spec fn counted(counts: Seq<Seq<usize>>, cur: int, syscall_id: usize) -> Seq<Seq<usize>> {
    if syscall_id < MAX_SYSCALL {
        counts.update(
            cur,
            counts[cur].update(syscall_id as int, (counts[cur][syscall_id as int] + 1) as usize),
        )
    } else {
        counts
    }
}

/// When `first_ready` from `k` finds nothing, none of the tasks it looks at is ready.
proof fn lemma_first_ready_none(tasks: Seq<TaskControlBlock>, current: int, k: int)
    requires
        k >= 1,
        first_ready(tasks, current, k) is None,
    ensures
        forall|j: int|
            k <= j <= tasks.len() ==> (#[trigger] tasks[(current + j) % (tasks.len() as int)]).task_status
                != TaskStatus::Ready,
    decreases tasks.len() + 1 - k,
{
    if k <= tasks.len() {
        lemma_first_ready_none(tasks, current, k + 1);
    }
}

/// From `k` on, `first_ready` skips the tasks that are not ready.
proof fn lemma_first_ready_skips(tasks: Seq<TaskControlBlock>, current: int, k: int, j: int)
    requires
        1 <= j <= k,
        forall|l: int|
            j <= l < k ==> (#[trigger] tasks[(current + l) % (tasks.len() as int)]).task_status
                != TaskStatus::Ready,
        k <= tasks.len(),
    ensures
        first_ready(tasks, current, j) == first_ready(tasks, current, k),
    decreases k - j,
{
    if j < k {
        lemma_first_ready_skips(tasks, current, k, j + 1);
    }
}

/// Law: no task is picked exactly when no task is ready.
pub proof fn lemma_next_ready_none_iff_none_ready(tasks: Seq<TaskControlBlock>, current: int)
    requires
        0 <= current < tasks.len(),
    ensures
        next_ready(tasks, current) is None <==> forall|i: int|
            0 <= i < tasks.len() ==> (#[trigger] tasks[i]).task_status != TaskStatus::Ready,
{
    let n = tasks.len() as int;
    lemma_next_ready_in_range(tasks, current);
    if next_ready(tasks, current) is None {
        lemma_first_ready_none(tasks, current, 1);
        assert forall|i: int| 0 <= i < n implies (#[trigger] tasks[i]).task_status
            != TaskStatus::Ready by {
            let j = if i > current { i - current } else { n - current + i };
            assert(1 <= j <= n);
            vstd::arithmetic::div_mod::lemma_small_mod(i as nat, n as nat);
            if i <= current {
                assert(current + j == n + i);
                vstd::arithmetic::div_mod::lemma_mod_add_multiples_vanish(i, n);
            }
            assert(tasks[(current + j) % n].task_status != TaskStatus::Ready);
        }
    }
}

/// Law: the task picked after `current` is the first ready one in round-robin order:
/// when `(current + k) % n` is ready and no task between `current` and it is, it is
/// the one picked.
pub proof fn lemma_next_ready_is_first(tasks: Seq<TaskControlBlock>, current: int, k: int)
    requires
        1 <= k <= tasks.len(),
        tasks[(current + k) % (tasks.len() as int)].task_status == TaskStatus::Ready,
        forall|j: int|
            1 <= j < k ==> (#[trigger] tasks[(current + j) % (tasks.len() as int)]).task_status
                != TaskStatus::Ready,
    ensures
        next_ready(tasks, current) == Some((current + k) % (tasks.len() as int)),
{
    lemma_first_ready_skips(tasks, current, k, 1);
}

/// Law: when the current task is ready, some task is picked (at worst the current one).
pub proof fn lemma_ready_current_is_never_stuck(tasks: Seq<TaskControlBlock>, current: int)
    requires
        0 <= current < tasks.len(),
        tasks[current].task_status == TaskStatus::Ready,
    ensures
        next_ready(tasks, current) is Some,
{
    lemma_next_ready_none_iff_none_ready(tasks, current);
}

/// The task that `first_ready` picks is one of the tasks, and it is ready.
proof fn lemma_first_ready_in_range(tasks: Seq<TaskControlBlock>, current: int, k: int)
    ensures
        first_ready(tasks, current, k) matches Some(i) ==> 0 <= i < tasks.len()
            && tasks[i].task_status == TaskStatus::Ready,
    decreases tasks.len() + 1 - k,
{
    if 1 <= k <= tasks.len() {
        lemma_first_ready_in_range(tasks, current, k + 1);
    }
}

/// The task that `next_ready` picks is one of the tasks, and it is ready.
pub proof fn lemma_next_ready_in_range(tasks: Seq<TaskControlBlock>, current: int)
    ensures
        next_ready(tasks, current) matches Some(i) ==> 0 <= i < tasks.len()
            && tasks[i].task_status == TaskStatus::Ready,
{
    lemma_first_ready_in_range(tasks, current, 1);
}

} // verus!
