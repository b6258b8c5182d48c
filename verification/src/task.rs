//! Tasks, and the kernel state that owns them.
//!
//! Every counter and every mapping belongs to exactly one task and is reached
//! only through the kernel's current task. One task at most is running; the
//! others are ready to run or have exited.

use vstd::prelude::*;
use crate::config::MAX_SYSCALL_NUM;
use crate::mm::{Access, AreaView, Location, MemorySet, PageFault, area_at, areas_wf, can_map,
    can_unmap, fault_at, first_fault, mapped_into, range_accessible, unmapped_from, written};
use crate::timer::Timer;

verus! {

/// The system calls that the kernel counts, each with a dense index below
/// `MAX_SYSCALL_NUM`.
#[derive(Clone, Copy, Debug, PartialEq, Eq, Structural)]
pub enum SyscallId {
    Exit,
    Yield,
    GetTime,
    SetPriority,
    Mmap,
    Munmap,
    TaskInfo,
}

impl SyscallId {
    /// The position of this call's counter.
    pub open spec fn spec_index(&self) -> usize {
        match *self {
            SyscallId::Exit => 0,
            SyscallId::Yield => 1,
            SyscallId::GetTime => 2,
            SyscallId::SetPriority => 3,
            SyscallId::Mmap => 4,
            SyscallId::Munmap => 5,
            SyscallId::TaskInfo => 6,
        }
    }

    /// The position of this call's counter.
    #[verifier::when_used_as_spec(spec_index)]
    pub fn index(&self) -> (i: usize)
        ensures
            i == self.spec_index(),
            i < MAX_SYSCALL_NUM,
    {
        match self {
            SyscallId::Exit => 0,
            SyscallId::Yield => 1,
            SyscallId::GetTime => 2,
            SyscallId::SetPriority => 3,
            SyscallId::Mmap => 4,
            SyscallId::Munmap => 5,
            SyscallId::TaskInfo => 6,
        }
    }

    /// The call whose counter stands at position `i`, if there is one.
    pub fn from_index(i: usize) -> (r: Option<SyscallId>)
        ensures
            match r {
                Some(id) => id.index() == i,
                None => i >= MAX_SYSCALL_NUM,
            },
    {
        if i == 0 {
            Some(SyscallId::Exit)
        } else if i == 1 {
            Some(SyscallId::Yield)
        } else if i == 2 {
            Some(SyscallId::GetTime)
        } else if i == 3 {
            Some(SyscallId::SetPriority)
        } else if i == 4 {
            Some(SyscallId::Mmap)
        } else if i == 5 {
            Some(SyscallId::Munmap)
        } else if i == 6 {
            Some(SyscallId::TaskInfo)
        } else {
            None
        }
    }
}

/// Where a task stands in its life: ready to run, running, or gone.
#[derive(Clone, Copy, Debug, PartialEq, Eq, Structural)]
pub enum TaskStatus {
    Ready,
    Running,
    Exited,
}

impl TaskStatus {
    /// The number that stands for the status in records handed to user space.
    pub open spec fn spec_tag(&self) -> usize {
        match *self {
            TaskStatus::Ready => 0,
            TaskStatus::Running => 1,
            TaskStatus::Exited => 2,
        }
    }

    /// The number that stands for the status in records handed to user space.
    #[verifier::when_used_as_spec(spec_tag)]
    pub fn tag(&self) -> (t: usize)
        ensures
            t == self.spec_tag(),
    {
        match self {
            TaskStatus::Ready => 0,
            TaskStatus::Running => 1,
            TaskStatus::Exited => 2,
        }
    }
}

/// How often `id` occurs in a history of system calls.
pub open spec fn occurrences(history: Seq<SyscallId>, id: SyscallId) -> nat
    decreases history.len(),
{
    if history.len() == 0 {
        0
    } else {
        occurrences(history.drop_last(), id) + if history.last() == id {
            1nat
        } else {
            0nat
        }
    }
}

/// A count as a counter holds it: counters stop at the largest value they
/// can hold.
pub open spec fn saturated(n: nat) -> u32 {
    if n >= u32::MAX {
        u32::MAX
    } else {
        n as u32
    }
}

/// What a task is to the outside.
pub struct TaskView {
    /// Where the task stands in its life.
    pub status: TaskStatus,
    /// The counters, one per system call, at the call's index.
    pub syscall_times: Seq<u32>,
    /// The system calls the task has made since its creation, oldest first.
    pub history: Seq<SyscallId>,
    /// The clock reading at which the task first ran, once it has run.
    pub started: Option<usize>,
    /// The exit code, once the task has exited.
    pub exit_code: Option<i32>,
    /// The mapping records of the task's address space.
    pub memory: Seq<AreaView>,
}

/// The invariant of one task.
pub open spec fn task_inv(t: TaskView) -> bool {
    &&& t.syscall_times.len() == MAX_SYSCALL_NUM
    &&& forall|id: SyscallId|
        t.syscall_times[id.spec_index() as int] == saturated(#[trigger] occurrences(t.history, id))
    &&& areas_wf(t.memory)
    &&& (t.status is Exited <==> t.exit_code is Some)
    &&& (t.status is Ready || t.started is Some)
}

/// A task just created: ready, with no calls made and nothing mapped.
pub open spec fn fresh_task() -> TaskView {
    TaskView {
        status: TaskStatus::Ready,
        syscall_times: Seq::new(MAX_SYSCALL_NUM as nat, |i: int| 0u32),
        history: Seq::empty(),
        started: None,
        exit_code: None,
        memory: Seq::empty(),
    }
}

/// The state the kernel keeps for one task.
pub struct TaskControlBlock {
    status: TaskStatus,
    syscall_times: [u32; MAX_SYSCALL_NUM],
    history: Ghost<Seq<SyscallId>>,
    started: Option<usize>,
    exit_code: Option<i32>,
    memory_set: MemorySet,
}

impl View for TaskControlBlock {
    type V = TaskView;

    closed spec fn view(&self) -> TaskView {
        TaskView {
            status: self.status,
            syscall_times: self.syscall_times@,
            history: self.history@,
            started: self.started,
            exit_code: self.exit_code,
            memory: self.memory_set@,
        }
    }
}

/// What the kernel is to the outside.
pub struct KernelView {
    /// The tasks, each at its identifier.
    pub tasks: Seq<TaskView>,
    /// The identifier of the running task, if a task is running.
    pub current: Option<usize>,
    /// The latest clock reading, in microseconds since boot.
    pub now: usize,
}

/// The position that follows `i` when the tasks are walked round-robin.
pub open spec fn after(tasks: Seq<TaskView>, i: int) -> int {
    if i + 1 >= tasks.len() {
        0
    } else {
        i + 1
    }
}

/// The first ready task among the `steps` tasks met on a round-robin walk
/// that begins at position `from`.
pub open spec fn scan(tasks: Seq<TaskView>, from: int, steps: nat) -> Option<int>
    decreases steps,
{
    if steps == 0 {
        None
    } else if 0 <= from < tasks.len() && tasks[from].status is Ready {
        Some(from)
    } else {
        scan(tasks, after(tasks, from), (steps - 1) as nat)
    }
}

impl KernelView {
    /// Whether a task is running.
    pub open spec fn running(self) -> bool {
        self.current is Some
    }

    /// The identifier of the running task.
    pub open spec fn cur(self) -> int
        recommends
            self.running(),
    {
        self.current->0 as int
    }

    /// The running task.
    pub open spec fn task(self) -> TaskView
        recommends
            self.running(),
    {
        self.tasks[self.cur()]
    }

    /// This state with the running task replaced.
    pub open spec fn with_task(self, t: TaskView) -> KernelView {
        KernelView { tasks: self.tasks.update(self.cur(), t), ..self }
    }

    /// This state with the running task's address space replaced.
    pub open spec fn with_memory(self, memory: Seq<AreaView>) -> KernelView {
        self.with_task(TaskView { memory, ..self.task() })
    }

    /// This state after the clock source delivered `reading`: the clock
    /// takes the reading unless it lies before the one it holds.
    pub open spec fn advanced(self, reading: usize) -> KernelView {
        KernelView {
            now: if reading > self.now {
                reading
            } else {
                self.now
            },
            ..self
        }
    }

    /// This state after the running task made the system call `id`: the
    /// call joins the task's history, and its counter goes up by one unless
    /// it has reached the largest value it can hold.
    pub open spec fn recorded(self, id: SyscallId) -> KernelView {
        let t = self.task();
        let i = id.spec_index() as int;
        let n = t.syscall_times[i];
        self.with_task(
            TaskView {
                syscall_times: t.syscall_times.update(
                    i,
                    if n < u32::MAX {
                        (n + 1) as u32
                    } else {
                        n
                    },
                ),
                history: t.history.push(id),
                ..t
            },
        )
    }

    /// This state, in which no task is running, after the first ready task
    /// of a round-robin walk from `from` was given the processor. A task
    /// that runs for the first time is stamped with the clock reading. Where
    /// no task is ready, none runs.
    pub open spec fn dispatched(self, from: int) -> KernelView {
        match scan(self.tasks, from, self.tasks.len()) {
            None => KernelView { current: None, ..self },
            Some(i) => KernelView {
                tasks: self.tasks.update(
                    i,
                    TaskView {
                        status: TaskStatus::Running,
                        started: Some(
                            match self.tasks[i].started {
                                Some(s) => s,
                                None => self.now,
                            },
                        ),
                        ..self.tasks[i]
                    },
                ),
                current: Some(i as usize),
                ..self
            },
        }
    }

    /// This state after `bytes` were stored at `va` in the address space of
    /// the task `token`.
    pub open spec fn stored(self, token: int, va: int, bytes: Seq<u8>) -> KernelView {
        KernelView {
            tasks: self.tasks.update(
                token,
                TaskView {
                    memory: written(self.tasks[token].memory, va, bytes),
                    ..self.tasks[token]
                },
            ),
            ..self
        }
    }

    /// This state with the running task taken off the processor in the
    /// given status.
    pub open spec fn parked(self, status: TaskStatus, exit_code: Option<i32>) -> KernelView {
        KernelView {
            tasks: self.tasks.update(self.cur(), TaskView { status, exit_code, ..self.task() }),
            current: None,
            ..self
        }
    }

    /// This state after the running task exited with `code` and the next
    /// ready task, if there is one, was given the processor.
    pub open spec fn exited(self, code: i32) -> KernelView {
        self.parked(TaskStatus::Exited, Some(code)).dispatched(after(self.tasks, self.cur()))
    }

    /// This state after the running task gave up the processor and the next
    /// ready task, which may be the same task, was given it.
    pub open spec fn suspended(self) -> KernelView {
        self.parked(TaskStatus::Ready, None).dispatched(after(self.tasks, self.cur()))
    }

    /// The time for which the running task has existed as a running program:
    /// microseconds from its first run to the latest clock reading.
    pub open spec fn elapsed(self) -> int
        recommends
            self.running(),
    {
        self.now - self.task().started->0
    }
}

/// The invariant of the kernel state.
pub open spec fn kernel_inv(k: KernelView) -> bool {
    &&& k.tasks.len() <= usize::MAX
    &&& forall|t: int| 0 <= t < k.tasks.len() ==> task_inv(#[trigger] k.tasks[t])
    &&& forall|t: int|
        0 <= t < k.tasks.len() ==> ((#[trigger] k.tasks[t]).status is Running <==> k.running()
            && k.cur() == t)
    &&& (k.current matches Some(c) ==> c < k.tasks.len())
    &&& forall|t: int|
        0 <= t < k.tasks.len() ==> ((#[trigger] k.tasks[t]).started matches Some(s) ==> s <= k.now)
}

/// Counting a call keeps the counters in step with the history.
pub proof fn lemma_occurrences_push(history: Seq<SyscallId>, id: SyscallId, other: SyscallId)
    ensures
        occurrences(history.push(id), other) == occurrences(history, other) + if other == id {
            1nat
        } else {
            0nat
        },
{
    assert(history.push(id).drop_last() =~= history);
}

/// The kernel state: the tasks, which of them runs, and the clock.
pub struct Kernel {
    tasks: Vec<TaskControlBlock>,
    current: Option<usize>,
    timer: Timer,
}

impl View for Kernel {
    type V = KernelView;

    closed spec fn view(&self) -> KernelView {
        KernelView {
            tasks: Seq::new(self.tasks.len() as nat, |i: int| self.tasks[i]@),
            current: self.current,
            now: self.timer.now(),
        }
    }
}

impl Kernel {
    /// The invariant of the kernel state.
    pub open spec fn wf(&self) -> bool {
        kernel_inv(self@)
    }

    /// A kernel at boot: no tasks, nothing running, the clock at zero.
    pub fn new() -> (k: Kernel)
        ensures
            k.wf(),
            k@ == (KernelView { tasks: Seq::empty(), current: None, now: 0 }),
    {
        let k = Kernel { tasks: Vec::new(), current: None, timer: Timer::new() };
        assert(k@.tasks =~= Seq::empty());
        k
    }

    /// Creates a task. It is ready to run, has made no calls and owns no
    /// mappings. Returns its identifier.
    pub fn spawn(&mut self) -> (id: usize)
        requires
            old(self).wf(),
        ensures
            final(self).wf(),
            id == old(self)@.tasks.len(),
            final(self)@ == (KernelView { tasks: old(self)@.tasks.push(fresh_task()), ..old(self)@ }),
    {
        let ghost before = self@;
        let tcb = TaskControlBlock {
            status: TaskStatus::Ready,
            syscall_times: [0u32; MAX_SYSCALL_NUM],
            history: Ghost(Seq::empty()),
            started: None,
            exit_code: None,
            memory_set: MemorySet::new(),
        };
        assert(tcb@.syscall_times =~= fresh_task().syscall_times);
        self.tasks.push(tcb);
        assert(self@.tasks =~= before.tasks.push(fresh_task()));
        self.tasks.len() - 1
    }

    /// Takes in a reading of the clock source. The clock never runs
    /// backwards: an earlier reading than the latest is ignored.
    pub fn advance_clock(&mut self, reading: usize)
        requires
            old(self).wf(),
        ensures
            final(self).wf(),
            final(self)@ == old(self)@.advanced(reading),
    {
        self.timer.advance(reading);
    }

    /// The latest clock reading, in microseconds since boot.
    pub fn get_time_us(&self) -> (us: usize)
        ensures
            us == self@.now,
    {
        self.timer.get_time_us()
    }

    /// The identifier of the running task, if a task is running.
    pub fn current(&self) -> (c: Option<usize>)
        ensures
            c == self@.current,
    {
        self.current
    }

    /// Number of tasks ever created.
    pub fn task_count(&self) -> (n: usize)
        ensures
            n == self@.tasks.len(),
    {
        self.tasks.len()
    }

    /// The status of a task.
    pub fn status(&self, task: usize) -> (s: TaskStatus)
        requires
            task < self@.tasks.len(),
        ensures
            s == self@.tasks[task as int].status,
    {
        self.tasks[task].status
    }

    /// The exit code of a task, once it has exited.
    pub fn exit_code(&self, task: usize) -> (c: Option<i32>)
        requires
            task < self@.tasks.len(),
        ensures
            c == self@.tasks[task as int].exit_code,
    {
        self.tasks[task].exit_code
    }

    /// The counters of a task.
    pub fn syscall_times(&self, task: usize) -> (times: [u32; MAX_SYSCALL_NUM])
        requires
            task < self@.tasks.len(),
        ensures
            times@ == self@.tasks[task as int].syscall_times,
    {
        self.tasks[task].syscall_times
    }

    /// The address space of a task.
    pub fn memory_set(&self, task: usize) -> (m: &MemorySet)
        requires
            self.wf(),
            task < self@.tasks.len(),
        ensures
            m.wf(),
            m@ == self@.tasks[task as int].memory,
    {
        &self.tasks[task].memory_set
    }

    /// Walks the tasks round-robin from position `from` and returns the
    /// first that is ready.
    fn find_next(&self, from: usize) -> (r: Option<usize>)
        requires
            from < self@.tasks.len() || from == 0,
        ensures
            match r {
                Some(i) => {
                    &&& scan(self@.tasks, from as int, self@.tasks.len()) == Some(i as int)
                    &&& i < self@.tasks.len()
                    &&& self@.tasks[i as int].status is Ready
                },
                None => scan(self@.tasks, from as int, self@.tasks.len()) is None,
            },
    {
        let n: usize = self.tasks.len();
        let mut idx: usize = from;
        let mut k: usize = 0;
        while k < n
            invariant
                n == self.tasks.len(),
                k <= n,
                idx < n || idx == 0,
                scan(self@.tasks, from as int, n as nat) == scan(
                    self@.tasks,
                    idx as int,
                    (n - k) as nat,
                ),
            decreases n - k,
        {
            if matches!(self.tasks[idx].status, TaskStatus::Ready) {
                return Some(idx);
            }
            idx = if idx + 1 >= n {
                0
            } else {
                idx + 1
            };
            k = k + 1;
        }
        None
    }

    /// Takes the running task off the processor in the given status.
    fn park(&mut self, status: TaskStatus, exit_code: Option<i32>)
        requires
            old(self).wf(),
            old(self)@.running(),
            !(status is Running),
            status is Exited <==> exit_code is Some,
        ensures
            final(self).wf(),
            final(self)@ == old(self)@.parked(status, exit_code),
    {
        let ghost before = self@;
        let c: usize = self.current.unwrap();
        let task = &mut self.tasks[c];
        task.status = status;
        task.exit_code = exit_code;
        self.current = None;
        assert(self@.tasks =~= before.parked(status, exit_code).tasks);
    }

    /// Gives the processor to the first ready task of a round-robin walk
    /// from position `from`.
    fn dispatch(&mut self, from: usize)
        requires
            old(self).wf(),
            !old(self)@.running(),
            from < old(self)@.tasks.len() || from == 0,
        ensures
            final(self).wf(),
            final(self)@ == old(self)@.dispatched(from as int),
    {
        let ghost before = self@;
        match self.find_next(from) {
            None => {},
            Some(i) => {
                let now: usize = self.timer.get_time_us();
                let task = &mut self.tasks[i];
                task.status = TaskStatus::Running;
                if task.started.is_none() {
                    task.started = Some(now);
                }
                self.current = Some(i);
                assert(self@.tasks =~= before.dispatched(from as int).tasks);
            },
        }
    }

    /// Gives the processor to the first ready task, counting from the task
    /// with the lowest identifier. For a kernel in which nothing runs.
    pub fn run_first_task(&mut self)
        requires
            old(self).wf(),
            !old(self)@.running(),
        ensures
            final(self).wf(),
            final(self)@ == old(self)@.dispatched(0),
    {
        self.dispatch(0);
    }

    /// Position of the task that follows the running one in round-robin
    /// order.
    fn next_position(&self) -> (p: usize)
        requires
            self.wf(),
            self@.running(),
        ensures
            p == after(self@.tasks, self@.cur()),
            p < self@.tasks.len(),
    {
        let c: usize = self.current.unwrap();
        if c + 1 >= self.tasks.len() {
            0
        } else {
            c + 1
        }
    }

    /// Ends the running task with the given exit code and gives the
    /// processor to the next ready task. The task is never given the
    /// processor again.
    pub fn exit_current_and_run_next(&mut self, exit_code: i32)
        requires
            old(self).wf(),
            old(self)@.running(),
        ensures
            final(self).wf(),
            final(self)@ == old(self)@.exited(exit_code),
    {
        let from: usize = self.next_position();
        self.park(TaskStatus::Exited, Some(exit_code));
        self.dispatch(from);
    }

    /// Takes the running task off the processor, leaves it ready, and gives
    /// the processor to the next ready task, which is the same task where no
    /// other is ready.
    pub fn suspend_current_and_run_next(&mut self)
        requires
            old(self).wf(),
            old(self)@.running(),
        ensures
            final(self).wf(),
            final(self)@ == old(self)@.suspended(),
    {
        let from: usize = self.next_position();
        self.park(TaskStatus::Ready, None);
        self.dispatch(from);
    }

    /// The handle that selects the running task's address space. It is read
    /// anew for every use, since a call may change which task runs.
    pub fn current_user_token(&self) -> (token: usize)
        requires
            self.wf(),
            self@.running(),
        ensures
            token == self@.cur(),
            token < self@.tasks.len(),
    {
        self.current.unwrap()
    }

    /// Counts a system call of the running task.
    pub fn record_syscall(&mut self, id: SyscallId)
        requires
            old(self).wf(),
            old(self)@.running(),
        ensures
            final(self).wf(),
            final(self)@ == old(self)@.recorded(id),
    {
        let ghost before = self@;
        let c: usize = self.current.unwrap();
        let i: usize = id.index();
        let task = &mut self.tasks[c];
        let n: u32 = task.syscall_times[i];
        if n < u32::MAX {
            task.syscall_times[i] = n + 1;
        }
        task.history = Ghost(task.history@.push(id));
        proof {
            let want = before.recorded(id);
            assert(self.tasks[c as int]@.syscall_times =~= want.tasks[c as int].syscall_times);
            assert(self@.tasks =~= want.tasks);
            assert forall|other: SyscallId|
                want.tasks[c as int].syscall_times[other.spec_index() as int] == saturated(
                    #[trigger] occurrences(want.tasks[c as int].history, other),
                ) by {
                lemma_occurrences_push(before.tasks[c as int].history, id, other);
            }
        }
    }

    /// The counters of the running task.
    pub fn get_syscall_times(&self) -> (times: [u32; MAX_SYSCALL_NUM])
        requires
            self.wf(),
            self@.running(),
        ensures
            times@ == self@.task().syscall_times,
    {
        let c: usize = self.current.unwrap();
        self.tasks[c].syscall_times
    }

    /// The time since the running task first ran, in microseconds.
    pub fn get_current_task_time(&self) -> (us: usize)
        requires
            self.wf(),
            self@.running(),
        ensures
            us == self@.elapsed(),
    {
        let c: usize = self.current.unwrap();
        assert(task_inv(self@.tasks[c as int]));
        let now: usize = self.timer.get_time_us();
        match self.tasks[c].started {
            Some(s) => now - s,
            None => 0,
        }
    }

    /// Creates a mapping in the running task's address space. Accepted and
    /// refused as `MemorySet::map` says; returns 0 on acceptance, else -1.
    pub fn mmap(&mut self, start: usize, len: usize, prot: usize) -> (r: isize)
        requires
            old(self).wf(),
            old(self)@.running(),
        ensures
            final(self).wf(),
            r == 0 || r == -1,
            r == 0 <==> can_map(old(self)@.task().memory, start, len, prot),
            final(self)@ == if r == 0 {
                old(self)@.with_memory(mapped_into(old(self)@.task().memory, start, len, prot))
            } else {
                old(self)@
            },
    {
        let ghost before = self@;
        let c: usize = self.current.unwrap();
        let task = &mut self.tasks[c];
        let r: isize = task.memory_set.map(start, len, prot);
        proof {
            let want = before.with_memory(self.tasks[c as int]@.memory);
            assert(self@.tasks =~= want.tasks);
            if r != 0 {
                assert(want.tasks =~= before.tasks);
            }
        }
        r
    }

    /// Destroys mappings of the running task's address space. Accepted and
    /// refused as `MemorySet::unmap` says; returns 0 on acceptance, else -1.
    pub fn munmap(&mut self, start: usize, len: usize) -> (r: isize)
        requires
            old(self).wf(),
            old(self)@.running(),
        ensures
            final(self).wf(),
            r == 0 || r == -1,
            r == 0 <==> can_unmap(old(self)@.task().memory, start, len),
            final(self)@ == if r == 0 {
                old(self)@.with_memory(unmapped_from(old(self)@.task().memory, start, len))
            } else {
                old(self)@
            },
    {
        let ghost before = self@;
        let c: usize = self.current.unwrap();
        let task = &mut self.tasks[c];
        let r: isize = task.memory_set.unmap(start, len);
        proof {
            let want = before.with_memory(self.tasks[c as int]@.memory);
            assert(self@.tasks =~= want.tasks);
            if r != 0 {
                assert(want.tasks =~= before.tasks);
            }
        }
        r
    }

    /// Translates a user address in the address space that `token` selects,
    /// for the given kind of access.
    ///
    /// Succeeds exactly when a mapping of that space covers the address and
    /// grants the access, and then names the record and the byte's offset in
    /// it. Otherwise reports the fault: unmapped, or mapped without
    /// permission.
    pub fn translate(&self, token: usize, va: usize, access: Access) -> (r: Result<
        Location,
        PageFault,
    >)
        requires
            self.wf(),
            token < self@.tasks.len(),
        ensures
            match r {
                Ok(loc) => {
                    let areas = self@.tasks[token as int].memory;
                    &&& fault_at(areas, va, access) is None
                    &&& loc.area == area_at(areas, va as int)
                    &&& loc.area < areas.len()
                    &&& areas[loc.area as int].region.contains(va as int)
                    &&& loc.offset == va - areas[loc.area as int].region.start
                },
                Err(f) => fault_at(self@.tasks[token as int].memory, va, access) == Some(f),
            },
    {
        self.memory_set(token).translate(va, access)
    }

    /// Stores `bytes` at `va` in the address space that `token` selects.
    ///
    /// Succeeds exactly when every address of the range is mapped writable
    /// in that space; the range then holds the bytes and nothing else has
    /// changed. Otherwise nothing is stored, and the fault at the lowest
    /// address that cannot be written is returned.
    pub fn translated_write(&mut self, token: usize, va: usize, bytes: &Vec<u8>) -> (r: Result<
        (),
        PageFault,
    >)
        requires
            old(self).wf(),
            token < old(self)@.tasks.len(),
        ensures
            final(self).wf(),
            r is Ok <==> range_accessible(
                old(self)@.tasks[token as int].memory,
                va as int,
                bytes@.len() as int,
                Access::Write,
            ),
            match r {
                Ok(_) => final(self)@ == old(self)@.stored(token as int, va as int, bytes@),
                Err(f) => {
                    &&& first_fault(
                        old(self)@.tasks[token as int].memory,
                        va as int,
                        bytes@.len() as int,
                        Access::Write,
                        f,
                    )
                    &&& final(self)@ == old(self)@
                },
            },
    {
        let ghost before = self@;
        let task = &mut self.tasks[token];
        let r = task.memory_set.write_bytes(va, bytes);
        proof {
            let want = KernelView {
                tasks: before.tasks.update(
                    token as int,
                    TaskView {
                        memory: self.tasks[token as int]@.memory,
                        ..before.tasks[token as int]
                    },
                ),
                ..before
            };
            assert(self@.tasks =~= want.tasks);
            if r is Err {
                assert(want.tasks =~= before.tasks);
            }
        }
        r
    }
}

} // verus!
