//! The process-control system calls.
//!
//! A running task ends itself, gives up its turn, asks for the time, asks
//! for its own statistics, and creates and destroys mappings of its address
//! space. Each handler works on the kernel state and returns the word that
//! the task receives: 0 for success, -1 for a refused request. A handler
//! that writes a record into user memory hands back the page fault where the
//! target cannot be written; the fault is not an error of the request, and
//! what becomes of the task is for the trap handler to decide.

use vstd::prelude::*;
use vstd::bytes::{spec_u32_to_le_bytes, spec_u64_to_le_bytes, u32_to_le_bytes, u64_to_le_bytes,
    lemma_auto_spec_u32_to_from_le_bytes, lemma_auto_spec_u64_to_from_le_bytes};
use crate::config::{MAX_SYSCALL_NUM, MICRO_PER_SEC};
use crate::mm::{Access, PageFault, can_map, can_unmap, first_fault, mapped_into, range_accessible,
    unmapped_from};
use crate::laws::{lemma_exit_leaves, lemma_yield_runs};
use crate::task::{Kernel, KernelView, SyscallId, TaskStatus};

verus! {

/// Bytes that one machine word takes in a record handed to user space.
pub const WORD_SIZE: usize = 8;

/// Bytes that a `TimeVal` takes in user memory.
pub const TIME_VAL_SIZE: usize = 16;

/// Bytes that a `TaskInfo` takes in user memory.
pub const TASK_INFO_SIZE: usize = 44;

/// A machine word as it lies in user memory: eight bytes, lowest first.
pub open spec fn word(x: usize) -> Seq<u8> {
    spec_u64_to_le_bytes(x as u64)
}

/// Counters as they lie in user memory: four bytes each, lowest first, the
/// counter at index 0 first.
pub open spec fn counters(times: Seq<u32>) -> Seq<u8>
    decreases times.len(),
{
    if times.len() == 0 {
        Seq::empty()
    } else {
        counters(times.drop_last()) + spec_u32_to_le_bytes(times.last())
    }
}

/// Counters take four bytes each.
pub proof fn lemma_counters_len(times: Seq<u32>)
    ensures
        counters(times).len() == 4 * times.len(),
    decreases times.len(),
{
    lemma_auto_spec_u32_to_from_le_bytes();
    if times.len() > 0 {
        lemma_counters_len(times.drop_last());
    }
}

fn word_bytes(x: usize) -> (v: Vec<u8>)
    ensures
        v@ == word(x),
        v@.len() == WORD_SIZE,
{
    u64_to_le_bytes(x as u64)
}

fn append(dst: &mut Vec<u8>, src: &Vec<u8>)
    ensures
        final(dst)@ == old(dst)@ + src@,
{
    let n: usize = src.len();
    let mut i: usize = 0;
    while i < n
        invariant
            n == src@.len(),
            i <= n,
            dst@ == old(dst)@ + src@.take(i as int),
        decreases n - i,
    {
        dst.push(src[i]);
        i = i + 1;
    }
}

/// A point in time: whole seconds since boot, and the microseconds of the
/// second that has begun.
#[derive(Clone, Copy, Debug, PartialEq, Eq, Structural)]
pub struct TimeVal {
    pub sec: usize,
    pub usec: usize,
}

impl TimeVal {
    /// The point in time that lies `us` microseconds after boot.
    pub open spec fn at(us: usize) -> TimeVal {
        TimeVal { sec: us / MICRO_PER_SEC, usec: us % MICRO_PER_SEC }
    }

    /// Whether this point in time lies at or before the other.
    pub open spec fn at_or_before(self, other: TimeVal) -> bool {
        self.sec < other.sec || (self.sec == other.sec && self.usec <= other.usec)
    }

    /// The record as it lies in user memory: the seconds, then the
    /// microseconds, one word each.
    pub open spec fn encoding(self) -> Seq<u8> {
        word(self.sec) + word(self.usec)
    }

    /// Splits a microsecond count into seconds and microseconds.
    pub fn from_us(us: usize) -> (t: TimeVal)
        ensures
            t == Self::at(us),
            t.usec < MICRO_PER_SEC,
            t.sec * MICRO_PER_SEC + t.usec == us,
    {
        TimeVal { sec: us / MICRO_PER_SEC, usec: us % MICRO_PER_SEC }
    }

    /// The bytes of the record as they are written into user memory.
    pub fn to_bytes(&self) -> (v: Vec<u8>)
        ensures
            v@ == self.encoding(),
            v@.len() == TIME_VAL_SIZE,
    {
        let mut v: Vec<u8> = word_bytes(self.sec);
        let usec: Vec<u8> = word_bytes(self.usec);
        append(&mut v, &usec);
        v
    }
}

/// A `TimeVal` takes `TIME_VAL_SIZE` bytes in user memory.
pub proof fn lemma_time_val_size(t: TimeVal)
    ensures
        t.encoding().len() == TIME_VAL_SIZE,
{
    lemma_auto_spec_u64_to_from_le_bytes();
}

/// A task's statistics as they lie in user memory: the status as its number
/// in one word, the counters, then the time in one word.
pub open spec fn info_bytes(status: TaskStatus, times: Seq<u32>, time: usize) -> Seq<u8> {
    word(status.spec_tag()) + counters(times) + word(time)
}

/// A task's statistics take `TASK_INFO_SIZE` bytes in user memory.
pub proof fn lemma_task_info_size(status: TaskStatus, times: Seq<u32>, time: usize)
    requires
        times.len() == MAX_SYSCALL_NUM,
    ensures
        info_bytes(status, times, time).len() == TASK_INFO_SIZE,
{
    lemma_auto_spec_u64_to_from_le_bytes();
    lemma_counters_len(times);
}

/// The bytes that tell the running task about itself at this moment: its
/// status, its counters as they stand, and the microseconds since it first
/// ran.
pub open spec fn report(k: KernelView) -> Seq<u8> {
    info_bytes(k.task().status, k.task().syscall_times, k.elapsed() as usize)
}

/// What a task learns about itself.
#[derive(Clone, Copy, Debug)]
pub struct TaskInfo {
    /// The status of the task at the moment of the call.
    pub status: TaskStatus,
    /// How often the task has made each system call, at the call's index.
    pub syscall_times: [u32; MAX_SYSCALL_NUM],
    /// Microseconds since the task first ran.
    pub time: usize,
}

impl TaskInfo {
    /// The record as it lies in user memory.
    pub open spec fn encoding(self) -> Seq<u8> {
        info_bytes(self.status, self.syscall_times@, self.time)
    }

    /// The bytes of the record as they are written into user memory.
    pub fn to_bytes(&self) -> (v: Vec<u8>)
        ensures
            v@ == self.encoding(),
            v@.len() == TASK_INFO_SIZE,
    {
        let mut v: Vec<u8> = word_bytes(self.status.tag());
        let ghost head = v@;
        let mut i: usize = 0;
        while i < MAX_SYSCALL_NUM
            invariant
                i <= MAX_SYSCALL_NUM,
                head == word(self.status.spec_tag()),
                v@ == head + counters(self.syscall_times@.take(i as int)),
            decreases MAX_SYSCALL_NUM - i,
        {
            let count: Vec<u8> = u32_to_le_bytes(self.syscall_times[i]);
            append(&mut v, &count);
            proof {
                let longer = self.syscall_times@.take(i as int + 1);
                assert(longer.drop_last() =~= self.syscall_times@.take(i as int));
            }
            i = i + 1;
        }
        let time: Vec<u8> = word_bytes(self.time);
        append(&mut v, &time);
        proof {
            assert(self.syscall_times@.take(MAX_SYSCALL_NUM as int) =~= self.syscall_times@);
            lemma_counters_len(self.syscall_times@);
        }
        v
    }
}

/// What a call that writes the record `bytes` at `va` into the running
/// task's memory leaves behind. It returns 0 exactly when all of the target
/// can be written, and then the target holds the record and nothing else
/// has changed. Otherwise it hands back the fault at the lowest address of
/// the target that cannot be written, and nothing has changed.
pub open spec fn delivers(
    before: KernelView,
    va: usize,
    bytes: Seq<u8>,
    r: Result<isize, PageFault>,
    next: KernelView,
) -> bool {
    &&& r is Ok <==> range_accessible(
        before.task().memory,
        va as int,
        bytes.len() as int,
        Access::Write,
    )
    &&& match r {
        Ok(v) => v == 0 && next == before.stored(before.cur(), va as int, bytes),
        Err(f) => {
            &&& first_fault(before.task().memory, va as int, bytes.len() as int, Access::Write, f)
            &&& next == before
        },
    }
}

/// What a request to create a mapping leaves behind: 0 and the new mapping
/// where the request is acceptable, else -1 and no change.
pub open spec fn creates(
    before: KernelView,
    start: usize,
    len: usize,
    prot: usize,
    r: isize,
    next: KernelView,
) -> bool {
    if can_map(before.task().memory, start, len, prot) {
        r == 0 && next == before.with_memory(mapped_into(before.task().memory, start, len, prot))
    } else {
        r == -1 && next == before
    }
}

/// What a request to destroy a mapping leaves behind: 0 and the space
/// without the records of the range where the request is acceptable, else
/// -1 and no change.
pub open spec fn destroys(
    before: KernelView,
    start: usize,
    len: usize,
    r: isize,
    next: KernelView,
) -> bool {
    if can_unmap(before.task().memory, start, len) {
        r == 0 && next == before.with_memory(unmapped_from(before.task().memory, start, len))
    } else {
        r == -1 && next == before
    }
}

/// Ends the running task. The exit code is kept with the task; the next
/// ready task, if there is one, is given the processor.
///
/// Control never comes back to the task that made the call: it has exited,
/// and only ready tasks are ever given the processor. The call hands no
/// word back, since there is nobody left to receive one.
pub fn sys_exit(kernel: &mut Kernel, exit_code: i32)
    requires
        old(kernel).wf(),
        old(kernel)@.running(),
    ensures
        final(kernel).wf(),
        final(kernel)@ == old(kernel)@.exited(exit_code),
        final(kernel)@.tasks[old(kernel)@.cur()].status is Exited,
        final(kernel)@.tasks[old(kernel)@.cur()].exit_code == Some(exit_code),
        final(kernel)@.current != old(kernel)@.current,
{
    proof {
        lemma_exit_leaves(kernel@, exit_code);
    }
    kernel.exit_current_and_run_next(exit_code);
}

/// The running task gives up its turn. It stays ready, and the next ready
/// task is given the processor: the task itself, where no other is ready.
/// Returns the word that the task receives when its turn comes again:
/// always 0.
pub fn sys_yield(kernel: &mut Kernel) -> (r: isize)
    requires
        old(kernel).wf(),
        old(kernel)@.running(),
    ensures
        final(kernel).wf(),
        r == 0,
        final(kernel)@ == old(kernel)@.suspended(),
        final(kernel)@.running(),
{
    proof {
        lemma_yield_runs(kernel@);
    }
    kernel.suspend_current_and_run_next();
    0
}

/// Writes the time since boot, as a `TimeVal`, at `ts` in the running task's
/// memory. The second argument is reserved and has no effect.
///
/// Returns 0 where all `TIME_VAL_SIZE` bytes of the target can be written.
/// Otherwise nothing is written, and the page fault at the lowest address of
/// the target that cannot be written is handed back.
pub fn sys_get_time(kernel: &mut Kernel, ts: usize, _tz: usize) -> (r: Result<isize, PageFault>)
    requires
        old(kernel).wf(),
        old(kernel)@.running(),
    ensures
        final(kernel).wf(),
        r is Ok <==> range_accessible(
            old(kernel)@.task().memory,
            ts as int,
            TIME_VAL_SIZE as int,
            Access::Write,
        ),
        match r {
            Ok(v) => {
                &&& v == 0
                &&& final(kernel)@ == old(kernel)@.stored(
                    old(kernel)@.cur(),
                    ts as int,
                    TimeVal::at(old(kernel)@.now).encoding(),
                )
            },
            Err(f) => {
                &&& first_fault(
                    old(kernel)@.task().memory,
                    ts as int,
                    TIME_VAL_SIZE as int,
                    Access::Write,
                    f,
                )
                &&& final(kernel)@ == old(kernel)@
            },
        },
{
    let us: usize = kernel.get_time_us();
    let bytes: Vec<u8> = TimeVal::from_us(us).to_bytes();
    let token: usize = kernel.current_user_token();
    match kernel.translated_write(token, ts, &bytes) {
        Ok(_) => Ok(0),
        Err(f) => Err(f),
    }
}

/// Asks for a scheduling priority. The kernel has no priorities: the
/// request is refused, whatever it asks for.
pub fn sys_set_priority(_prio: isize) -> (r: isize)
    ensures
        r == -1,
{
    -1
}

/// Creates a mapping of `len` bytes at `start` in the running task's address
/// space, with the permissions that the bits of `prot` stand for.
///
/// Returns 0 and creates the mapping, its pages zeroed, where `start` is
/// page-aligned, `prot` is a non-empty set of the three permission bits, the
/// range, with `len` rounded up to whole pages, shares no address with a
/// mapping of the task, and the machine can hold the range: the rounded
/// length is at most `MAX_MAP_LEN`, and the end of the range is an address
/// that a machine word holds. Otherwise returns -1 and changes nothing. A
/// request of length zero that passes the tests on `start` and `prot`
/// returns 0 and creates nothing.
pub fn sys_mmap(kernel: &mut Kernel, start: usize, len: usize, prot: usize) -> (r: isize)
    requires
        old(kernel).wf(),
        old(kernel)@.running(),
    ensures
        final(kernel).wf(),
        r == 0 || r == -1,
        r == 0 <==> can_map(old(kernel)@.task().memory, start, len, prot),
        final(kernel)@ == if r == 0 {
            old(kernel)@.with_memory(mapped_into(old(kernel)@.task().memory, start, len, prot))
        } else {
            old(kernel)@
        },
{
    kernel.mmap(start, len, prot)
}

/// Destroys the mappings of the `len` bytes at `start` in the running task's
/// address space.
///
/// Returns 0 and takes the mappings out where `start` is page-aligned and
/// the range, with `len` rounded up to whole pages, is the union of one or
/// more whole mappings of the task: all of it is mapped, and no mapping
/// reaches across either of its ends. Otherwise returns -1 and changes
/// nothing. So a part of a mapping cannot be destroyed, nor a range with an
/// unmapped page in it, nor a range of length zero, and a request that was
/// accepted is refused when it is made again.
pub fn sys_munmap(kernel: &mut Kernel, start: usize, len: usize) -> (r: isize)
    requires
        old(kernel).wf(),
        old(kernel)@.running(),
    ensures
        final(kernel).wf(),
        r == 0 || r == -1,
        r == 0 <==> can_unmap(old(kernel)@.task().memory, start, len),
        final(kernel)@ == if r == 0 {
            old(kernel)@.with_memory(unmapped_from(old(kernel)@.task().memory, start, len))
        } else {
            old(kernel)@
        },
{
    kernel.munmap(start, len)
}

/// Writes what the running task may learn about itself, as a `TaskInfo`, at
/// `ti` in its memory: its status, its counters as they stand, and the time
/// since it first ran.
///
/// Returns 0 where all `TASK_INFO_SIZE` bytes of the target can be written.
/// Otherwise nothing is written, and the page fault at the lowest address of
/// the target that cannot be written is handed back.
pub fn sys_task_info(kernel: &mut Kernel, ti: usize) -> (r: Result<isize, PageFault>)
    requires
        old(kernel).wf(),
        old(kernel)@.running(),
    ensures
        final(kernel).wf(),
        r is Ok <==> range_accessible(
            old(kernel)@.task().memory,
            ti as int,
            TASK_INFO_SIZE as int,
            Access::Write,
        ),
        match r {
            Ok(v) => {
                &&& v == 0
                &&& final(kernel)@ == old(kernel)@.stored(
                    old(kernel)@.cur(),
                    ti as int,
                    report(old(kernel)@),
                )
            },
            Err(f) => {
                &&& first_fault(
                    old(kernel)@.task().memory,
                    ti as int,
                    TASK_INFO_SIZE as int,
                    Access::Write,
                    f,
                )
                &&& final(kernel)@ == old(kernel)@
            },
        },
{
    let token: usize = kernel.current_user_token();
    let info = TaskInfo {
        status: kernel.status(token),
        syscall_times: kernel.get_syscall_times(),
        time: kernel.get_current_task_time(),
    };
    let bytes: Vec<u8> = info.to_bytes();
    match kernel.translated_write(token, ti, &bytes) {
        Ok(_) => Ok(0),
        Err(f) => Err(f),
    }
}

/// A system call with its arguments.
#[derive(Clone, Copy, Debug, PartialEq, Eq, Structural)]
pub enum Syscall {
    Exit { exit_code: i32 },
    Yield,
    GetTime { ts: usize, tz: usize },
    SetPriority { prio: isize },
    Mmap { start: usize, len: usize, prot: usize },
    Munmap { start: usize, len: usize },
    TaskInfo { ti: usize },
}

impl Syscall {
    /// Which system call this is.
    pub open spec fn spec_id(&self) -> SyscallId {
        match *self {
            Syscall::Exit { .. } => SyscallId::Exit,
            Syscall::Yield => SyscallId::Yield,
            Syscall::GetTime { .. } => SyscallId::GetTime,
            Syscall::SetPriority { .. } => SyscallId::SetPriority,
            Syscall::Mmap { .. } => SyscallId::Mmap,
            Syscall::Munmap { .. } => SyscallId::Munmap,
            Syscall::TaskInfo { .. } => SyscallId::TaskInfo,
        }
    }

    /// Which system call this is.
    #[verifier::when_used_as_spec(spec_id)]
    pub fn id(&self) -> (id: SyscallId)
        ensures
            id == self.spec_id(),
    {
        match self {
            Syscall::Exit { .. } => SyscallId::Exit,
            Syscall::Yield => SyscallId::Yield,
            Syscall::GetTime { .. } => SyscallId::GetTime,
            Syscall::SetPriority { .. } => SyscallId::SetPriority,
            Syscall::Mmap { .. } => SyscallId::Mmap,
            Syscall::Munmap { .. } => SyscallId::Munmap,
            Syscall::TaskInfo { .. } => SyscallId::TaskInfo,
        }
    }
}

/// How a system call ends for the task that made it.
#[derive(Clone, Copy, Debug, PartialEq, Eq, Structural)]
pub enum Outcome {
    /// The task receives this word.
    Return(isize),
    /// The call touched user memory that cannot be written.
    Fault(PageFault),
    /// The task has exited and receives nothing.
    Exited,
}

/// What a system call leaves behind: the call is counted for the running
/// task first, then handled on the state in which it is counted.
pub open spec fn handled(before: KernelView, call: Syscall, out: Outcome, next: KernelView) -> bool {
    let k = before.recorded(call.spec_id());
    match call {
        Syscall::Exit { exit_code } => out == Outcome::Exited && next == k.exited(exit_code),
        Syscall::Yield => out == Outcome::Return(0isize) && next == k.suspended(),
        Syscall::GetTime { ts, tz } => match out {
            Outcome::Return(v) => delivers(k, ts, TimeVal::at(k.now).encoding(), Ok(v), next),
            Outcome::Fault(f) => delivers(k, ts, TimeVal::at(k.now).encoding(), Err(f), next),
            Outcome::Exited => false,
        },
        Syscall::SetPriority { prio } => out == Outcome::Return(-1isize) && next == k,
        Syscall::Mmap { start, len, prot } => out matches Outcome::Return(r) && creates(
            k,
            start,
            len,
            prot,
            r,
            next,
        ),
        Syscall::Munmap { start, len } => out matches Outcome::Return(r) && destroys(
            k,
            start,
            len,
            r,
            next,
        ),
        Syscall::TaskInfo { ti } => match out {
            Outcome::Return(v) => delivers(k, ti, report(k), Ok(v), next),
            Outcome::Fault(f) => delivers(k, ti, report(k), Err(f), next),
            Outcome::Exited => false,
        },
    }
}

/// Handles one system call of the running task: counts it, then runs its
/// handler.
pub fn syscall(kernel: &mut Kernel, call: Syscall) -> (out: Outcome)
    requires
        old(kernel).wf(),
        old(kernel)@.running(),
    ensures
        final(kernel).wf(),
        handled(old(kernel)@, call, out, final(kernel)@),
{
    kernel.record_syscall(call.id());
    proof {
        lemma_time_val_size(TimeVal::at(kernel@.now));
        lemma_task_info_size(
            kernel@.task().status,
            kernel@.task().syscall_times,
            kernel@.elapsed() as usize,
        );
    }
    match call {
        Syscall::Exit { exit_code } => {
            sys_exit(kernel, exit_code);
            Outcome::Exited
        },
        Syscall::Yield => Outcome::Return(sys_yield(kernel)),
        Syscall::GetTime { ts, tz } => match sys_get_time(kernel, ts, tz) {
            Ok(v) => Outcome::Return(v),
            Err(f) => Outcome::Fault(f),
        },
        Syscall::SetPriority { prio } => Outcome::Return(sys_set_priority(prio)),
        Syscall::Mmap { start, len, prot } => Outcome::Return(sys_mmap(kernel, start, len, prot)),
        Syscall::Munmap { start, len } => Outcome::Return(sys_munmap(kernel, start, len)),
        Syscall::TaskInfo { ti } => match sys_task_info(kernel, ti) {
            Ok(v) => Outcome::Return(v),
            Err(f) => Outcome::Fault(f),
        },
    }
}

} // verus!
