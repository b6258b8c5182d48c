//! Kernel-wide constants.

use vstd::prelude::*;

verus! {

/// Size of one page of virtual memory, in bytes.
pub const PAGE_SIZE: usize = 4096;

/// Microseconds in one second.
pub const MICRO_PER_SEC: usize = 1_000_000;

/// Number of system calls the kernel counts per task.
pub const MAX_SYSCALL_NUM: usize = 7;

/// The largest number of bytes that one mapping can have, `isize::MAX`: the
/// bytes that back a mapping are one allocation, and no allocation is
/// larger.
pub const MAX_MAP_LEN: usize = usize::MAX / 2;

/// `len` rounded up to a whole number of pages.
pub open spec fn round_up(len: int) -> int {
    ((len + PAGE_SIZE - 1) / (PAGE_SIZE as int)) * PAGE_SIZE
}

/// Whether `addr` lies on a page boundary.
pub open spec fn page_aligned(addr: int) -> bool {
    addr % (PAGE_SIZE as int) == 0
}

/// Rounding up gives the least page multiple that is not below the length.
pub proof fn lemma_round_up(len: int)
    requires
        0 <= len,
    ensures
        page_aligned(round_up(len)),
        len <= round_up(len) < len + PAGE_SIZE,
        page_aligned(len) ==> round_up(len) == len,
        round_up(len) == 0 <==> len == 0,
{
}

/// Rounds a length up to whole pages. There is no result where the rounded
/// length is more than a machine word holds.
pub fn page_round_up(len: usize) -> (r: Option<usize>)
    ensures
        match r {
            Some(rounded) => rounded == round_up(len as int),
            None => round_up(len as int) > usize::MAX,
        },
{
    let rest: usize = len % PAGE_SIZE;
    if rest == 0 {
        Some(len)
    } else {
        (len - rest).checked_add(PAGE_SIZE)
    }
}

} // verus!
