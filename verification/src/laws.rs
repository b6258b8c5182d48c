//! What holds of the system calls, whatever the state and the arguments.
//!
//! The handlers' contracts say what one call does. The statements here say
//! what follows for the address space, the clock, the counters and the life
//! of a task, over the same models.

use vstd::prelude::*;
use crate::config::{MAX_MAP_LEN, MICRO_PER_SEC, page_aligned, round_up};
use crate::mm::{Access, AreaView, MapPermission, accessible, area_at, areas_wf, byte_at, can_map,
    can_unmap, lemma_area_unique, mapped, mapped_into, outside, perm_at, request_end,
    unmapped_from};
use crate::syscall::{Outcome, Syscall, TimeVal, handled, info_bytes, report};
use crate::task::{KernelView, SyscallId, TaskStatus, TaskView, after, kernel_inv,
    lemma_occurrences_push, occurrences, saturated, scan};

verus! {

/// A request with an aligned start, a non-empty set of the three permission
/// bits and a range that touches no mapping of the space is accepted,
/// wherever the range lies, if only the machine can hold it: its rounded
/// length is no more than a mapping can have, and its end is an address that
/// a machine word holds.
pub proof fn lemma_map_accepts(areas: Seq<AreaView>, start: usize, len: usize, prot: usize)
    requires
        areas_wf(areas),
        page_aligned(start as int),
        1 <= prot <= 7,
        round_up(len as int) <= MAX_MAP_LEN,
        request_end(start, len) <= usize::MAX,
        forall|a: int| start <= a < request_end(start, len) ==> !#[trigger] mapped(areas, a),
    ensures
        can_map(areas, start, len, prot),
{
    let lo = start as int;
    let hi = request_end(start, len);
    assert forall|i: int| 0 <= i < areas.len() implies !(#[trigger] areas[i]).region.overlaps(
        lo,
        hi,
    ) by {
        if areas[i].region.overlaps(lo, hi) {
            let a = if areas[i].region.start < lo {
                lo
            } else {
                areas[i].region.start as int
            };
            assert(mapped(areas, a));
        }
    }
}

/// After an accepted request to create a mapping, every address of the
/// requested range is mapped with exactly the requested permissions and
/// holds zero, and every other address is as it was.
pub proof fn lemma_map_grants(areas: Seq<AreaView>, start: usize, len: usize, prot: usize, a: int)
    requires
        areas_wf(areas),
        can_map(areas, start, len, prot),
    ensures
        areas_wf(mapped_into(areas, start, len, prot)),
        perm_at(mapped_into(areas, start, len, prot), a) == if start <= a < request_end(
            start,
            len,
        ) {
            Some(MapPermission::of_bits(prot))
        } else {
            perm_at(areas, a)
        },
        byte_at(mapped_into(areas, start, len, prot), a) == if start <= a < request_end(
            start,
            len,
        ) {
            Some(0u8)
        } else {
            byte_at(areas, a)
        },
{
    let next = mapped_into(areas, start, len, prot);
    if len > 0 {
        if start <= a < request_end(start, len) {
            lemma_area_unique(next, a, areas.len() as int);
        } else if mapped(areas, a) {
            lemma_area_unique(next, a, area_at(areas, a));
        }
    }
}

/// The new mapping can be used in exactly the ways that were asked for.
pub proof fn lemma_map_access(
    areas: Seq<AreaView>,
    start: usize,
    len: usize,
    prot: usize,
    a: int,
    access: Access,
)
    requires
        areas_wf(areas),
        can_map(areas, start, len, prot),
        start <= a < request_end(start, len),
    ensures
        accessible(mapped_into(areas, start, len, prot), a, access) <==> MapPermission::of_bits(
            prot,
        ).allows(access),
{
    lemma_map_grants(areas, start, len, prot, a);
}

/// A request to create a mapping over an address that is already mapped is
/// refused.
pub proof fn lemma_map_refuses_overlap(
    areas: Seq<AreaView>,
    start: usize,
    len: usize,
    prot: usize,
    a: int,
)
    requires
        start <= a < request_end(start, len),
        mapped(areas, a),
    ensures
        !can_map(areas, start, len, prot),
{
}

proof fn lemma_filter_wf(areas: Seq<AreaView>, keep: spec_fn(AreaView) -> bool)
    requires
        areas_wf(areas),
    ensures
        areas_wf(areas.filter(keep)),
    decreases areas.len(),
{
    reveal(Seq::filter);
    if areas.len() > 0 {
        let rest = areas.drop_last();
        let last = areas.last();
        lemma_filter_wf(rest, keep);
        let sub = rest.filter(keep);
        if keep(last) {
            let out = sub.push(last);
            assert forall|i: int, j: int| 0 <= i < j < out.len() implies !(
            #[trigger] out[i]).region.overlaps(
                (#[trigger] out[j]).region.start as int,
                out[j].region.end(),
            ) by {
                if j >= sub.len() {
                    rest.lemma_filter_contains_rev(keep, sub[i]);
                }
            }
        }
    }
}

/// After an accepted request to destroy a mapping, no address of the range
/// is mapped any more, and every other address is as it was.
pub proof fn lemma_unmap_revokes(areas: Seq<AreaView>, start: usize, len: usize, a: int)
    requires
        areas_wf(areas),
        can_unmap(areas, start, len),
    ensures
        areas_wf(unmapped_from(areas, start, len)),
        perm_at(unmapped_from(areas, start, len), a) == if start <= a < request_end(start, len) {
            None
        } else {
            perm_at(areas, a)
        },
        byte_at(unmapped_from(areas, start, len), a) == if start <= a < request_end(start, len) {
            None
        } else {
            byte_at(areas, a)
        },
{
    let lo = start as int;
    let hi = request_end(start, len);
    let keep = outside(lo, hi);
    let next = unmapped_from(areas, start, len);
    lemma_filter_wf(areas, keep);
    if mapped(next, a) {
        areas.lemma_filter_contains_rev(keep, next[area_at(next, a)]);
    } else if mapped(areas, a) && !(lo <= a < hi) {
        areas.lemma_filter_contains(keep, area_at(areas, a));
    }
}

/// A range that was destroyed cannot be destroyed again: the repeated
/// request is refused.
pub proof fn lemma_unmap_twice(areas: Seq<AreaView>, start: usize, len: usize)
    requires
        areas_wf(areas),
        can_unmap(areas, start, len),
    ensures
        !can_unmap(unmapped_from(areas, start, len), start, len),
{
    let next = unmapped_from(areas, start, len);
    if can_unmap(next, start, len) {
        assert(mapped(next, start as int));
    }
}

/// A request to destroy a range of which some address is not mapped is
/// refused, and so is one that would cut a record in two.
pub proof fn lemma_unmap_refuses(areas: Seq<AreaView>, start: usize, len: usize, a: int)
    requires
        start <= a < request_end(start, len),
        !mapped(areas, a) || !areas[area_at(areas, a)].region.within(
            start as int,
            request_end(start, len),
        ),
    ensures
        !can_unmap(areas, start, len),
{
}

proof fn lemma_filter_all(areas: Seq<AreaView>, keep: spec_fn(AreaView) -> bool)
    requires
        forall|i: int| 0 <= i < areas.len() ==> keep(#[trigger] areas[i]),
    ensures
        areas.filter(keep) == areas,
    decreases areas.len(),
{
    reveal(Seq::filter);
    if areas.len() > 0 {
        lemma_filter_all(areas.drop_last(), keep);
    }
}

/// A mapping that was just created can be destroyed by a request for the
/// same range, and the address space is then as it was before the two
/// requests.
pub proof fn lemma_map_then_unmap(areas: Seq<AreaView>, start: usize, len: usize, prot: usize)
    requires
        areas_wf(areas),
        can_map(areas, start, len, prot),
        len > 0,
    ensures
        can_unmap(mapped_into(areas, start, len, prot), start, len),
        unmapped_from(mapped_into(areas, start, len, prot), start, len) == areas,
{
    let lo = start as int;
    let hi = request_end(start, len);
    let keep = outside(lo, hi);
    let next = mapped_into(areas, start, len, prot);
    let n = areas.len() as int;
    assert forall|a: int| lo <= a < hi implies #[trigger] mapped(next, a) by {
        assert(next[n].region.contains(a));
    }
    lemma_filter_all(areas, keep);
    reveal(Seq::filter);
    assert(next.drop_last() =~= areas);
}

/// The clock reading splits into seconds and microseconds in order: a later
/// reading never gives an earlier time.
pub proof fn lemma_time_never_decreases(earlier: usize, later: usize)
    requires
        earlier <= later,
    ensures
        TimeVal::at(earlier).at_or_before(TimeVal::at(later)),
        TimeVal::at(earlier) == TimeVal::at(later) <==> earlier == later,
        TimeVal::at(later).usec < MICRO_PER_SEC,
        TimeVal::at(later).sec * MICRO_PER_SEC + TimeVal::at(later).usec == later,
{
}

/// The clock never runs backwards: a reading of the clock source leaves it
/// where it was or moves it on, and no system call turns it. So of two
/// requests for the time, the later is never answered with the earlier
/// time.
pub proof fn lemma_clock_never_runs_back(k: KernelView, reading: usize, id: SyscallId, code: i32)
    requires
        kernel_inv(k),
        k.running(),
    ensures
        k.advanced(reading).now >= k.now,
        TimeVal::at(k.now).at_or_before(TimeVal::at(k.advanced(reading).now)),
        k.recorded(id).now == k.now,
        k.exited(code).now == k.now,
        k.suspended().now == k.now,
{
    lemma_time_never_decreases(k.now, k.advanced(reading).now);
}

/// Counting a call keeps the invariant. The counter of the call that is
/// counted then stands for one call more than before, and every other
/// counter stands for as many calls as before: each counter tells how often
/// the task has made its call since the task was created, the call in
/// progress counted once, unless the counter has reached the largest value
/// it can hold.
pub proof fn lemma_counted_once(k: KernelView, id: SyscallId, other: SyscallId)
    requires
        kernel_inv(k),
        k.running(),
    ensures
        kernel_inv(k.recorded(id)),
        k.recorded(id).task().history == k.task().history.push(id),
        occurrences(k.recorded(id).task().history, other) == occurrences(k.task().history, other)
            + if other == id {
            1nat
        } else {
            0nat
        },
        k.recorded(id).task().syscall_times[other.spec_index() as int] == saturated(
            occurrences(k.recorded(id).task().history, other),
        ),
{
    let before = k.task();
    let counted = k.recorded(id).task();
    lemma_occurrences_push(before.history, id, other);
    assert forall|x: SyscallId|
        counted.syscall_times[x.spec_index() as int] == saturated(
            #[trigger] occurrences(counted.history, x),
        ) by {
        lemma_occurrences_push(before.history, id, x);
    }
}

/// A request for task information that is answered writes the status of a
/// running task, the time since the task first ran, and counters that tell,
/// for every system call, how often the task has made it since the task was
/// created, this request counted once.
pub proof fn lemma_task_info_counts(
    k: KernelView,
    ti: usize,
    out: Outcome,
    next: KernelView,
    id: SyscallId,
)
    requires
        kernel_inv(k),
        k.running(),
        handled(k, Syscall::TaskInfo { ti }, out, next),
        out is Return,
    ensures
        out == Outcome::Return(0isize),
        next == k.recorded(SyscallId::TaskInfo).stored(
            k.cur(),
            ti as int,
            report(k.recorded(SyscallId::TaskInfo)),
        ),
        report(k.recorded(SyscallId::TaskInfo)) == info_bytes(
            TaskStatus::Running,
            k.recorded(SyscallId::TaskInfo).task().syscall_times,
            (k.now - k.task().started->0) as usize,
        ),
        k.recorded(SyscallId::TaskInfo).task().syscall_times[id.spec_index() as int] == saturated(
            occurrences(k.task().history, id) + if id == SyscallId::TaskInfo {
                1nat
            } else {
                0nat
            },
        ),
{
}

/// What a walk finds is a ready task.
pub proof fn lemma_scan_ready(tasks: Seq<TaskView>, from: int, steps: nat)
    ensures
        scan(tasks, from, steps) matches Some(i) ==> 0 <= i < tasks.len()
            && tasks[i].status is Ready,
    decreases steps,
{
    if steps > 0 && !(0 <= from < tasks.len() && tasks[from].status is Ready) {
        lemma_scan_ready(tasks, after(tasks, from), (steps - 1) as nat);
    }
}

/// Steps from `from` to `target` on a round-robin walk.
pub open spec fn distance(tasks: Seq<TaskView>, from: int, target: int) -> int {
    if target >= from {
        target - from
    } else {
        target + tasks.len() - from
    }
}

/// A walk that is long enough to reach a ready task finds a ready task.
pub proof fn lemma_scan_finds(tasks: Seq<TaskView>, from: int, steps: nat, target: int)
    requires
        0 <= from < tasks.len(),
        0 <= target < tasks.len(),
        tasks[target].status is Ready,
        distance(tasks, from, target) < steps,
    ensures
        scan(tasks, from, steps) is Some,
    decreases steps,
{
    if !(tasks[from].status is Ready) {
        lemma_scan_finds(tasks, after(tasks, from), (steps - 1) as nat, target);
    }
}

/// A task that gives up its turn leaves a task running: itself, where no
/// other task is ready.
pub proof fn lemma_yield_runs(k: KernelView)
    requires
        kernel_inv(k),
        k.running(),
    ensures
        k.suspended().running(),
{
    let parked = k.parked(TaskStatus::Ready, None);
    lemma_scan_finds(parked.tasks, after(k.tasks, k.cur()), parked.tasks.len(), k.cur());
}

/// A task that has exited stays exited and is not running: its status and
/// its exit code are the same after every later call.
pub proof fn lemma_exit_is_final(k: KernelView, t: int, id: SyscallId, code: i32)
    requires
        kernel_inv(k),
        k.running(),
        0 <= t < k.tasks.len(),
        k.tasks[t].status is Exited,
    ensures
        k.cur() != t,
        k.recorded(id).tasks[t] == k.tasks[t],
        k.exited(code).tasks[t] == k.tasks[t],
        k.suspended().tasks[t] == k.tasks[t],
{
    let from = after(k.tasks, k.cur());
    let gone = k.parked(TaskStatus::Exited, Some(code));
    lemma_scan_ready(gone.tasks, from, gone.tasks.len());
    let idle = k.parked(TaskStatus::Ready, None);
    lemma_scan_ready(idle.tasks, from, idle.tasks.len());
}

/// The task that exits is marked exited with its code, and the processor
/// goes to another task or to none: control does not come back to it.
pub proof fn lemma_exit_leaves(k: KernelView, code: i32)
    requires
        kernel_inv(k),
        k.running(),
    ensures
        k.exited(code).tasks[k.cur()].status is Exited,
        k.exited(code).tasks[k.cur()].exit_code == Some(code),
        k.exited(code).current != k.current,
{
    let gone = k.parked(TaskStatus::Exited, Some(code));
    lemma_scan_ready(gone.tasks, after(k.tasks, k.cur()), gone.tasks.len());
}

} // verus!
