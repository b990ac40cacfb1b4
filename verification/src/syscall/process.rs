//! Decision logic of the process-management system calls: time, task
//! statistics, memory mapping arguments and heap growth.
use vstd::prelude::*;

verus! {

/// Microseconds in one second.
pub const MICROS_PER_SEC: usize = 1_000_000;

/// Number of system call numbers whose use is counted per task.
pub const MAX_SYSCALL_NUM: usize = 500;

/// Mask of the offset bits within a page.
pub const PAGE_OFFSET_MASK: usize = 0xfff;

/// Bytes in a page.
pub const PAGE_SIZE: usize = 0x1000;

/// What the memory calls return on failure.
pub const MEM_ERROR: isize = -1;

/// A point in time split into whole seconds and the remaining microseconds.
#[derive(Clone, Copy, Debug, PartialEq, Eq, Structural)]
pub struct TimeVal {
    pub sec: usize,
    pub usec: usize,
}

/// Life-cycle state of a task.
#[derive(Clone, Copy, Debug, PartialEq, Eq, Structural)]
pub enum TaskStatus {
    Ready,
    Running,
    Blocked,
}

/// Task information reported to user programs.
pub struct TaskInfo {
    /// Task status in its life cycle.
    pub status: TaskStatus,
    /// How often the task has made each system call.
    pub syscall_times: [u32; MAX_SYSCALL_NUM],
    /// Milliseconds since the task first ran.
    pub time: usize,
}

/// The current time, given in microseconds, as the `TimeVal` the time
/// system call reports.
pub fn sys_get_time(us: usize) -> (t: TimeVal)
    ensures
        t.sec == us / MICROS_PER_SEC,
        t.usec == us % MICROS_PER_SEC,
        t.sec * MICROS_PER_SEC + t.usec == us,
        t.usec < MICROS_PER_SEC,
{
    let t = TimeVal { sec: us / MICROS_PER_SEC, usec: us % MICROS_PER_SEC };
    assert(t.sec * MICROS_PER_SEC + t.usec == us) by (nonlinear_arith)
        requires
            t.sec == us / 1_000_000usize,
            t.usec == us % 1_000_000usize,
    ;
    t
}

/// The task information reported for a task in state `status` that made
/// the counted system calls `syscall_times` and first ran at `start_time`
/// (milliseconds), at time `current_ms`.
pub fn sys_task_info(
    status: TaskStatus,
    syscall_times: [u32; MAX_SYSCALL_NUM],
    current_ms: usize,
    start_time: usize,
) -> (info: TaskInfo)
    requires
        start_time <= current_ms,
    ensures
        info.status == status,
        info.syscall_times@ == syscall_times@,
        info.time == current_ms - start_time,
{
    TaskInfo { status, syscall_times, time: current_ms - start_time }
}

/// Counts one more use of system call `syscall_id`.
pub fn inc_syscall_times(syscall_times: &mut [u32; MAX_SYSCALL_NUM], syscall_id: usize)
    requires
        syscall_id < MAX_SYSCALL_NUM,
        old(syscall_times)@[syscall_id as int] < u32::MAX,
    ensures
        final(syscall_times)@ == old(syscall_times)@.update(
            syscall_id as int,
            (old(syscall_times)@[syscall_id as int] + 1) as u32,
        ),
{
    let n = syscall_times[syscall_id];
    syscall_times[syscall_id] = n + 1;
}

/// Validates the arguments of a memory mapping request starting at `start`
/// with protection bits `port` (bit 0 read, bit 1 write, bit 2 execute).
/// Rejects with `MEM_ERROR` when `start` is not page aligned, when `port`
/// has bits other than the three, or when it has none of them; otherwise
/// the kernel maps the range.
pub fn sys_mmap(start: usize, port: usize) -> (r: Result<(), isize>)
    ensures
        r is Err <==> start % PAGE_SIZE != 0 || port >= 8 || port == 0,
        r is Err ==> r == Err::<(), isize>(MEM_ERROR),
{
    proof {
        assert((start & 0xfff) != 0 <==> start % 0x1000 != 0) by (bit_vector);
        assert((port & !0x7usize) != 0 <==> port >= 8) by (bit_vector);
        assert(port < 8 ==> ((port & 0x7) == 0 <==> port == 0)) by (bit_vector);
    }
    if (start & PAGE_OFFSET_MASK) != 0 || (port & !0x7) != 0 || (port & 0x7) == 0 {
        return Err(MEM_ERROR);
    }
    Ok(())
}

/// Validates the start of a memory unmapping request: rejects with
/// `MEM_ERROR` when `start` is not page aligned; otherwise the kernel
/// unmaps the range.
pub fn sys_munmap(start: usize) -> (r: Result<(), isize>)
    ensures
        r is Err <==> start % PAGE_SIZE != 0,
        r is Err ==> r == Err::<(), isize>(MEM_ERROR),
{
    proof {
        assert((start & 0xfff) != 0 <==> start % 0x1000 != 0) by (bit_vector);
    }
    if (start & PAGE_OFFSET_MASK) != 0 {
        return Err(MEM_ERROR);
    }
    Ok(())
}

/// The return value of the heap-growth call, given the previous program
/// break the kernel reports (`None` when the change was refused).
pub fn sys_sbrk(old_brk: Option<usize>) -> (r: isize)
    ensures
        match old_brk {
            Some(b) => r == b as isize,
            None => r == MEM_ERROR,
        },
{
    if let Some(b) = old_brk {
        b as isize
    } else {
        MEM_ERROR
    }
}

} // verus!
