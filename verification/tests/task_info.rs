use os4::mm::PageFault;
use os4::syscall::{sys_mmap, sys_task_info, syscall, Outcome, Syscall, TaskInfo, TASK_INFO_SIZE};
use os4::task::{Kernel, SyscallId, TaskStatus};

const BUF: usize = 0x10000;

fn info_kernel(tasks: usize) -> Kernel {
    let mut kernel = Kernel::new();
    for _ in 0..tasks {
        kernel.spawn();
    }
    kernel.run_first_task();
    assert_eq!(sys_mmap(&mut kernel, BUF, 4096, 3), 0);
    kernel
}

struct Report {
    status: u64,
    counts: [u32; 7],
    time: u64,
}

fn report_at(kernel: &Kernel, task: usize, va: usize) -> Report {
    let bytes = kernel.memory_set(task).read_bytes(va, TASK_INFO_SIZE).unwrap();
    let mut word = [0u8; 8];
    word.copy_from_slice(&bytes[0..8]);
    let status = u64::from_le_bytes(word);
    let mut counts = [0u32; 7];
    for (k, count) in counts.iter_mut().enumerate() {
        let mut four = [0u8; 4];
        four.copy_from_slice(&bytes[8 + 4 * k..12 + 4 * k]);
        *count = u32::from_le_bytes(four);
    }
    word.copy_from_slice(&bytes[36..44]);
    Report { status, counts, time: u64::from_le_bytes(word) }
}

#[test]
fn first_task_info_counts_itself_once() {
    let mut kernel = info_kernel(1);
    assert_eq!(syscall(&mut kernel, Syscall::TaskInfo { ti: BUF }), Outcome::Return(0));
    let r = report_at(&kernel, 0, BUF);
    assert_eq!(r.status, 1);
    assert_eq!(r.counts, [0, 0, 0, 0, 0, 0, 1]);
    assert_eq!(r.time, 0);
}

#[test]
fn counts_equal_the_calls_made() {
    let mut kernel = info_kernel(1);
    let calls = [
        Syscall::GetTime { ts: BUF, tz: 0 },
        Syscall::Yield,
        Syscall::GetTime { ts: BUF, tz: 0 },
        Syscall::SetPriority { prio: 3 },
        Syscall::Mmap { start: 0x20000, len: 4096, prot: 1 },
        Syscall::Mmap { start: 0x20000, len: 4096, prot: 1 },
        Syscall::Munmap { start: 0x20000, len: 4096 },
        Syscall::GetTime { ts: 0, tz: 0 },
        Syscall::TaskInfo { ti: BUF },
        Syscall::Yield,
        Syscall::Yield,
    ];
    let mut expect = [0u32; 7];
    for call in calls {
        syscall(&mut kernel, call);
        expect[call.id().index()] += 1;
    }
    assert_eq!(expect, [0, 3, 3, 1, 2, 1, 1]);
    assert_eq!(kernel.syscall_times(0), expect);
    assert_eq!(kernel.get_syscall_times(), expect);
    assert_eq!(syscall(&mut kernel, Syscall::TaskInfo { ti: BUF + 0x100 }), Outcome::Return(0));
    expect[SyscallId::TaskInfo.index()] += 1;
    assert_eq!(report_at(&kernel, 0, BUF + 0x100).counts, expect);
    // a refused request and a call that faulted were made all the same, and count
    assert_eq!(expect[SyscallId::Mmap.index()], 2);
    assert_eq!(expect[SyscallId::GetTime.index()], 3);
    // and a second report counts one call more than the first
    assert_eq!(syscall(&mut kernel, Syscall::TaskInfo { ti: BUF }), Outcome::Return(0));
    expect[SyscallId::TaskInfo.index()] += 1;
    assert_eq!(report_at(&kernel, 0, BUF).counts, expect);
    assert_eq!(expect, [0, 3, 3, 1, 2, 1, 3]);
}

#[test]
fn handler_alone_reports_the_counters_as_they_stand() {
    let mut kernel = info_kernel(1);
    kernel.record_syscall(SyscallId::Yield);
    kernel.record_syscall(SyscallId::Yield);
    kernel.record_syscall(SyscallId::Exit);
    assert_eq!(sys_task_info(&mut kernel, BUF), Ok(0));
    assert_eq!(report_at(&kernel, 0, BUF).counts, [1, 2, 0, 0, 0, 0, 0]);
    assert_eq!(kernel.syscall_times(0), [1, 2, 0, 0, 0, 0, 0]);
}

#[test]
fn counters_belong_to_the_task_that_called() {
    let mut kernel = info_kernel(2);
    assert_eq!(syscall(&mut kernel, Syscall::SetPriority { prio: 1 }), Outcome::Return(-1));
    assert_eq!(syscall(&mut kernel, Syscall::Yield), Outcome::Return(0));
    assert_eq!(kernel.current(), Some(1));
    assert_eq!(
        syscall(&mut kernel, Syscall::Mmap { start: BUF, len: 4096, prot: 3 }),
        Outcome::Return(0)
    );
    assert_eq!(syscall(&mut kernel, Syscall::TaskInfo { ti: BUF }), Outcome::Return(0));
    assert_eq!(report_at(&kernel, 1, BUF).counts, [0, 0, 0, 0, 1, 0, 1]);
    assert_eq!(syscall(&mut kernel, Syscall::Yield), Outcome::Return(0));
    assert_eq!(kernel.current(), Some(0));
    assert_eq!(syscall(&mut kernel, Syscall::TaskInfo { ti: BUF }), Outcome::Return(0));
    assert_eq!(report_at(&kernel, 0, BUF).counts, [0, 1, 0, 1, 0, 0, 1]);
    assert_eq!(kernel.syscall_times(1), [0, 1, 0, 0, 1, 0, 1]);
}

#[test]
fn time_runs_from_the_first_run_of_the_task() {
    let mut kernel = Kernel::new();
    kernel.spawn();
    kernel.spawn();
    kernel.advance_clock(1_000);
    kernel.run_first_task();
    assert_eq!(sys_mmap(&mut kernel, BUF, 4096, 3), 0);
    assert_eq!(kernel.get_current_task_time(), 0);
    kernel.advance_clock(4_000);
    assert_eq!(kernel.get_current_task_time(), 3_000);
    assert_eq!(sys_task_info(&mut kernel, BUF), Ok(0));
    assert_eq!(report_at(&kernel, 0, BUF).time, 3_000);
    // the second task runs for the first time now
    kernel.suspend_current_and_run_next();
    assert_eq!(kernel.current(), Some(1));
    assert_eq!(kernel.get_current_task_time(), 0);
    kernel.advance_clock(4_500);
    assert_eq!(kernel.get_current_task_time(), 500);
    // the first task's time went on while it waited
    kernel.suspend_current_and_run_next();
    assert_eq!(kernel.current(), Some(0));
    kernel.advance_clock(10_000);
    assert_eq!(kernel.get_current_task_time(), 9_000);
    assert_eq!(sys_task_info(&mut kernel, BUF), Ok(0));
    let r = report_at(&kernel, 0, BUF);
    assert_eq!(r.time, 9_000);
    assert_eq!(r.status, TaskStatus::Running.tag() as u64);
}

#[test]
fn task_info_record_layout() {
    let info = TaskInfo {
        status: TaskStatus::Exited,
        syscall_times: [1, 0x0201, 3, 0x0a0b0c0d, 5, 6, u32::MAX],
        time: 0x1122334455,
    };
    let bytes = info.to_bytes();
    assert_eq!(bytes.len(), TASK_INFO_SIZE);
    assert_eq!(TASK_INFO_SIZE, 44);
    let mut expect: Vec<u8> = vec![2, 0, 0, 0, 0, 0, 0, 0];
    expect.extend_from_slice(&[1, 0, 0, 0]);
    expect.extend_from_slice(&[1, 2, 0, 0]);
    expect.extend_from_slice(&[3, 0, 0, 0]);
    expect.extend_from_slice(&[0x0d, 0x0c, 0x0b, 0x0a]);
    expect.extend_from_slice(&[5, 0, 0, 0]);
    expect.extend_from_slice(&[6, 0, 0, 0]);
    expect.extend_from_slice(&[0xff, 0xff, 0xff, 0xff]);
    expect.extend_from_slice(&[0x55, 0x44, 0x33, 0x22, 0x11, 0, 0, 0]);
    assert_eq!(bytes, expect);
}

#[test]
fn task_info_faults_on_a_bad_target() {
    let mut kernel = info_kernel(1);
    assert_eq!(sys_mmap(&mut kernel, 0x20000, 4096, 5), 0);
    assert_eq!(
        sys_task_info(&mut kernel, 0x40000),
        Err(PageFault::Unmapped { addr: 0x40000 })
    );
    assert_eq!(
        sys_task_info(&mut kernel, 0x20000),
        Err(PageFault::Denied { addr: 0x20000 })
    );
    // the record does not fit before the end of the mapping: nothing is written
    let late = BUF + 4096 - TASK_INFO_SIZE + 1;
    assert_eq!(kernel.translated_write(0, late, &vec![0xeeu8; 43]), Ok(()));
    assert_eq!(
        sys_task_info(&mut kernel, late),
        Err(PageFault::Unmapped { addr: BUF + 4096 })
    );
    assert_eq!(kernel.memory_set(0).read_bytes(late, 43), Ok(vec![0xeeu8; 43]));
    assert_eq!(sys_task_info(&mut kernel, late - 1), Ok(0));
    // a call that faults is counted like any other
    assert_eq!(
        syscall(&mut kernel, Syscall::TaskInfo { ti: 0x40000 }),
        Outcome::Fault(PageFault::Unmapped { addr: 0x40000 })
    );
    assert_eq!(syscall(&mut kernel, Syscall::TaskInfo { ti: BUF }), Outcome::Return(0));
    assert_eq!(report_at(&kernel, 0, BUF).counts, [0, 0, 0, 0, 0, 0, 2]);
}

#[test]
fn dispatcher_runs_each_handler() {
    let mut kernel = info_kernel(2);
    assert_eq!(
        syscall(&mut kernel, Syscall::Mmap { start: 0x30000, len: 1, prot: 7 }),
        Outcome::Return(0)
    );
    assert_eq!(
        syscall(&mut kernel, Syscall::Mmap { start: 0x30000, len: 1, prot: 7 }),
        Outcome::Return(-1)
    );
    assert_eq!(
        syscall(&mut kernel, Syscall::Munmap { start: 0x30000, len: 4096 }),
        Outcome::Return(0)
    );
    assert_eq!(
        syscall(&mut kernel, Syscall::Munmap { start: 0x30000, len: 4096 }),
        Outcome::Return(-1)
    );
    assert_eq!(syscall(&mut kernel, Syscall::GetTime { ts: BUF, tz: 9 }), Outcome::Return(0));
    assert_eq!(syscall(&mut kernel, Syscall::Yield), Outcome::Return(0));
    assert_eq!(kernel.current(), Some(1));
    assert_eq!(syscall(&mut kernel, Syscall::Exit { exit_code: 4 }), Outcome::Exited);
    assert_eq!(kernel.current(), Some(0));
    assert_eq!(kernel.exit_code(1), Some(4));
    assert_eq!(kernel.syscall_times(0), [0, 1, 1, 0, 2, 2, 0]);
    assert_eq!(kernel.syscall_times(1), [1, 0, 0, 0, 0, 0, 0]);
}
