//! Decision logic of the synchronization system calls: mutexes, semaphores,
//! condition variables, sleeping and deadlock detection.
//!
//! Each call takes the calling process's tables (and the calling thread's
//! id where the call needs it), updates them, and says what the kernel must
//! do with the primitive itself (lock it, wait on it, ...), which may block
//! the thread.
use vstd::prelude::*;
use crate::task::detector::DetectorState;
use crate::task::process::{is_first_free, find_free_slot, MutexKind, ProcessControlBlock, ProcessControlBlockInner};

verus! {

/// What `sys_mutex_lock` and `sys_semaphore_down` return when they refuse a
/// request that would leave the process in an unsafe state.
pub const DEADLOCK_REFUSED: isize = -0xdead;

/// The outcome of a call that may have to acquire a primitive.
#[derive(Clone, Copy, Debug, PartialEq, Eq, Structural)]
pub struct SyncDecision {
    /// The value the system call returns.
    pub ret: isize,
    /// Whether the calling thread must now acquire the primitive (lock the
    /// mutex, or wait on the semaphore), possibly blocking, before returning.
    pub acquire: bool,
    /// Whether the request stays registered as needed until the thread has
    /// acquired the primitive, so that the kernel must then report the unit
    /// as received (see `sys_semaphore_down_received`).
    pub pending: bool,
}

/// Sleeping: the thread is woken at `now_ms + ms` and the call returns 0.
/// Returns the wake-up time and the return value.
pub fn sys_sleep(now_ms: usize, ms: usize) -> (r: (usize, isize))
    requires
        now_ms + ms <= usize::MAX,
    ensures
        r.0 == now_ms + ms,
        r.1 == 0,
{
    (now_ms + ms, 0)
}
/// The mutex detector after thread `tid` registers a request for mutex `id`.
pub open spec fn mutex_requested(d: DetectorState, tid: int, id: int) -> DetectorState {
    d.with_need(tid, id, d.need[tid][id] + 1)
}

/// Whether `sys_mutex_lock` grants thread `tid` mutex `id`: detection is
/// off, or the state with the request registered is safe.
pub open spec fn mutex_lock_granted(inner: ProcessControlBlockInner, tid: int, id: int) -> bool {
    !inner.deadlock_detect || mutex_requested(inner.mutex_detector@, tid, id).greedy_completes()
}

/// Creates a mutex (blocking or spinning) in the lowest free slot, or in a
/// new slot, and registers it for deadlock detection: one free unit, and
/// zero holdings and needs in every thread's row.  Returns the mutex id.
pub fn sys_mutex_create(inner: &mut ProcessControlBlockInner, blocking: bool) -> (r: isize)
    requires
        old(inner).mutex_list@.len() < isize::MAX,
        old(inner).mutex_detector@.threads() <= old(inner).mutex_detector@.need.len(),
        forall|id: int|
            is_first_free(old(inner).mutex_list@, id) && id < old(inner).mutex_list@.len() ==> id
                < old(inner).mutex_detector@.available.len() && (forall|i: int|
                0 <= i < old(inner).mutex_detector@.threads() ==> id < #[trigger] old(
                    inner,
                ).mutex_detector@.allocation[i].len()) && (forall|i: int|
                0 <= i < old(inner).mutex_detector@.threads() ==> id < #[trigger] old(
                    inner,
                ).mutex_detector@.need[i].len()),
    ensures
        is_first_free(old(inner).mutex_list@, r as int),
        ({
            let id = r as int;
            let kind = if blocking { MutexKind::Blocking } else { MutexKind::Spin };
            let d = old(inner).mutex_detector@;
            &&& id < old(inner).mutex_list@.len() ==> final(inner).mutex_list@ == old(
                inner,
            ).mutex_list@.update(id, Some(kind)) && final(inner).mutex_detector@
                == d.with_kind_reset_for_rows(d.threads(), id, 1)
            &&& id == old(inner).mutex_list@.len() ==> final(inner).mutex_list@ == old(
                inner,
            ).mutex_list@.push(Some(kind)) && final(inner).mutex_detector@ == d.with_kind_for_rows(
                d.threads(),
                1,
            )
        }),
        *final(inner) == (ProcessControlBlockInner {
            mutex_list: final(inner).mutex_list,
            mutex_detector: final(inner).mutex_detector,
            ..*old(inner)
        }),
        old(inner).sync_tables_aligned() ==> final(inner).sync_tables_aligned(),
        old(inner).mutex_detector@.well_shaped() ==> final(inner).mutex_detector@.well_shaped(),
        old(inner).mutex_detector@.is_matrix(
            old(inner).mutex_detector@.threads(),
            old(inner).mutex_list@.len() as int,
        ) ==> final(inner).mutex_detector@.is_matrix(
            final(inner).mutex_detector@.threads(),
            final(inner).mutex_list@.len() as int,
        ),
{
    let kind = if blocking {
        MutexKind::Blocking
    } else {
        MutexKind::Spin
    };
    let rows = inner.mutex_detector.allocation.len();
    proof {
        inner.mutex_detector.lemma_view();
    }
    match find_free_slot(&inner.mutex_list) {
        Some(id) => {
            proof {
                let d = inner.mutex_detector@;
                assert(is_first_free(old(inner).mutex_list@, id as int));
                d.lemma_kind_reset_for_rows_shape(rows as int, id as int, 1);
            }
            inner.mutex_list.set(id, Some(kind));
            inner.mutex_detector.reset_kind_for_rows(rows, id, 1);
            id as isize
        },
        None => {
            proof {
                let d = inner.mutex_detector@;
                d.lemma_kind_for_rows_shape(rows as int, 1);
            }
            inner.mutex_list.push(Some(kind));
            let id = inner.mutex_list.len() - 1;
            inner.mutex_detector.add_kind_for_rows(rows, 1);
            id as isize
        },
    }
}

/// Thread `tid` asks for mutex `mutex_id`.  With deadlock detection on, a
/// request that, once registered in the need matrix, leaves the process in
/// an unsafe state is refused with `DEADLOCK_REFUSED` and leaves the
/// bookkeeping as it was.  Otherwise the request is registered, the mutex is
/// recorded as held by the thread, which must then lock it, and the call
/// returns 0.
pub fn sys_mutex_lock(inner: &mut ProcessControlBlockInner, tid: usize, mutex_id: usize) -> (r: SyncDecision)
    requires
        tid < old(inner).mutex_detector@.need.len(),
        mutex_id < old(inner).mutex_detector@.need[tid as int].len(),
        old(inner).mutex_detector@.need[tid as int][mutex_id as int] < isize::MAX,
        old(inner).deadlock_detect ==> old(inner).mutex_detector@.well_shaped() && old(
            inner,
        ).mutex_detector@.threads_fit(),
        mutex_lock_granted(*old(inner), tid as int, mutex_id as int) ==> {
            &&& tid < old(inner).mutex_detector@.allocation.len()
            &&& mutex_id < old(inner).mutex_detector@.allocation[tid as int].len()
            &&& old(inner).mutex_detector@.allocation[tid as int][mutex_id as int] < isize::MAX
            &&& mutex_id < old(inner).mutex_list@.len()
            &&& old(inner).mutex_list@[mutex_id as int] is Some
        },
    ensures
        ({
            let d1 = mutex_requested(old(inner).mutex_detector@, tid as int, mutex_id as int);
            if mutex_lock_granted(*old(inner), tid as int, mutex_id as int) {
                &&& r == (SyncDecision { ret: 0, acquire: true, pending: false })
                &&& final(inner).mutex_detector@ == d1.with_alloc(
                    tid as int,
                    mutex_id as int,
                    d1.allocation[tid as int][mutex_id as int] + 1,
                )
            } else {
                &&& r == (SyncDecision { ret: DEADLOCK_REFUSED, acquire: false, pending: false })
                &&& final(inner).mutex_detector@ == old(inner).mutex_detector@
            }
        }),
        *final(inner) == (ProcessControlBlockInner {
            mutex_detector: final(inner).mutex_detector,
            ..*old(inner)
        }),
        old(inner).sync_tables_aligned() ==> final(inner).sync_tables_aligned(),
        !old(inner).deadlock_detect ==> r == (SyncDecision { ret: 0, acquire: true, pending: false }),
        !old(inner).deadlock_detect ==> ({
            let d = old(inner).mutex_detector@;
            let t = tid as int;
            let k = mutex_id as int;
            final(inner).mutex_detector@ == d.with_need(t, k, d.need[t][k] + 1).with_alloc(
                t,
                k,
                d.allocation[t][k] + 1,
            )
        }),
        old(inner).deadlock_detect ==> (r.ret == 0 <==> ({
            let d = old(inner).mutex_detector@;
            d.with_need(tid as int, mutex_id as int, d.need[tid as int][mutex_id as int] + 1).greedy_completes()
        })),
        r.ret == 0 || r.ret == DEADLOCK_REFUSED,
        r.ret == DEADLOCK_REFUSED ==> !r.acquire && final(inner).mutex_detector@ == old(inner).mutex_detector@,
        old(inner).mutex_detector@.well_shaped() ==> final(inner).mutex_detector@.well_shaped(),
{
    let ghost d0 = inner.mutex_detector@;
    let ghost d1 = mutex_requested(d0, tid as int, mutex_id as int);
    proof {
        inner.mutex_detector.lemma_view();
        d1.lemma_same_shape_well_shaped(d0);
        if mutex_lock_granted(*inner, tid as int, mutex_id as int) {
            let d2 = d1.with_alloc(tid as int, mutex_id as int, d1.allocation[tid as int][mutex_id as int] + 1);
            d2.lemma_same_shape_well_shaped(d0);
        }
    }
    let need = inner.mutex_detector.need[tid][mutex_id];
    inner.mutex_detector.set_need(tid, mutex_id, need + 1);
    if inner.deadlock_detect {
        let (safe, _) = inner.mutex_detector.is_safe_state();
        if !safe {
            inner.mutex_detector.set_need(tid, mutex_id, need);
            proof {
                assert(inner.mutex_detector@.need =~~= d0.need);
            }
            return SyncDecision { ret: DEADLOCK_REFUSED, acquire: false, pending: false };
        }
    }
    proof {
        inner.mutex_detector.lemma_view();
    }
    let held = inner.mutex_detector.allocation[tid][mutex_id];
    inner.mutex_detector.set_alloc(tid, mutex_id, held + 1);
    let _ = inner.mutex_list[mutex_id].unwrap();
    SyncDecision { ret: 0, acquire: true, pending: false }
}

/// Thread `tid` releases mutex `mutex_id`: its need and its holding of the
/// mutex both drop by one, and the thread must then unlock the mutex.
/// Returns 0.
pub fn sys_mutex_unlock(inner: &mut ProcessControlBlockInner, tid: usize, mutex_id: usize) -> (r: isize)
    requires
        mutex_id < old(inner).mutex_list@.len(),
        old(inner).mutex_list@[mutex_id as int] is Some,
        tid < old(inner).mutex_detector@.need.len(),
        mutex_id < old(inner).mutex_detector@.need[tid as int].len(),
        old(inner).mutex_detector@.need[tid as int][mutex_id as int] > isize::MIN,
        tid < old(inner).mutex_detector@.allocation.len(),
        mutex_id < old(inner).mutex_detector@.allocation[tid as int].len(),
        old(inner).mutex_detector@.allocation[tid as int][mutex_id as int] > isize::MIN,
    ensures
        r == 0,
        ({
            let d = old(inner).mutex_detector@;
            final(inner).mutex_detector@ == d.with_need(
                tid as int,
                mutex_id as int,
                d.need[tid as int][mutex_id as int] - 1,
            ).with_alloc(tid as int, mutex_id as int, d.allocation[tid as int][mutex_id as int] - 1)
        }),
        *final(inner) == (ProcessControlBlockInner {
            mutex_detector: final(inner).mutex_detector,
            ..*old(inner)
        }),
        old(inner).sync_tables_aligned() ==> final(inner).sync_tables_aligned(),
        old(inner).mutex_detector@.well_shaped() ==> final(inner).mutex_detector@.well_shaped(),
{
    proof {
        let d = inner.mutex_detector@;
        let e = d.with_need(tid as int, mutex_id as int, d.need[tid as int][mutex_id as int] - 1).with_alloc(
            tid as int,
            mutex_id as int,
            d.allocation[tid as int][mutex_id as int] - 1,
        );
        e.lemma_same_shape_well_shaped(d);
    }
    let _ = inner.mutex_list[mutex_id].unwrap();
    proof {
        inner.mutex_detector.lemma_view();
    }
    let need = inner.mutex_detector.need[tid][mutex_id];
    inner.mutex_detector.set_need(tid, mutex_id, need - 1);
    proof {
        inner.mutex_detector.lemma_view();
    }
    let held = inner.mutex_detector.allocation[tid][mutex_id];
    inner.mutex_detector.set_alloc(tid, mutex_id, held - 1);
    0
}

/// Creates a semaphore with `res_count` units in the lowest free slot, or
/// in a new slot, and registers its units for deadlock detection, with zero
/// holdings and needs for each of the process's threads.  Returns the
/// semaphore id.
pub fn sys_semaphore_create(inner: &mut ProcessControlBlockInner, res_count: usize) -> (r: isize)
    requires
        old(inner).semaphore_list@.len() < isize::MAX,
        old(inner).tasks@.len() <= old(inner).semaphore_detector@.allocation.len(),
        old(inner).tasks@.len() <= old(inner).semaphore_detector@.need.len(),
        forall|id: int|
            is_first_free(old(inner).semaphore_list@, id) && id < old(inner).semaphore_list@.len()
                ==> id < old(inner).semaphore_detector@.available.len() && (forall|i: int|
                0 <= i < old(inner).tasks@.len() ==> id < #[trigger] old(
                    inner,
                ).semaphore_detector@.allocation[i].len()) && (forall|i: int|
                0 <= i < old(inner).tasks@.len() ==> id < #[trigger] old(
                    inner,
                ).semaphore_detector@.need[i].len()),
    ensures
        is_first_free(old(inner).semaphore_list@, r as int),
        ({
            let id = r as int;
            let d = old(inner).semaphore_detector@;
            let rows = old(inner).tasks@.len() as int;
            let units = res_count as isize as int;
            &&& id < old(inner).semaphore_list@.len() ==> final(inner).semaphore_list@ == old(
                inner,
            ).semaphore_list@.update(id, Some(res_count)) && final(inner).semaphore_detector@
                == d.with_kind_reset_for_rows(rows, id, units)
            &&& id == old(inner).semaphore_list@.len() ==> final(inner).semaphore_list@ == old(
                inner,
            ).semaphore_list@.push(Some(res_count)) && final(inner).semaphore_detector@
                == d.with_kind_for_rows(rows, units)
        }),
        *final(inner) == (ProcessControlBlockInner {
            semaphore_list: final(inner).semaphore_list,
            semaphore_detector: final(inner).semaphore_detector,
            ..*old(inner)
        }),
        old(inner).sync_tables_aligned() ==> final(inner).sync_tables_aligned(),
        old(inner).semaphore_detector@.well_shaped() && old(inner).tasks@.len() == old(
            inner,
        ).semaphore_detector@.threads() ==> final(inner).semaphore_detector@.well_shaped(),
        old(inner).semaphore_detector@.is_matrix(
            old(inner).tasks@.len() as int,
            old(inner).semaphore_list@.len() as int,
        ) ==> final(inner).semaphore_detector@.is_matrix(
            final(inner).tasks@.len() as int,
            final(inner).semaphore_list@.len() as int,
        ),
{
    let rows = inner.tasks.len();
    let units = res_count as isize;
    match find_free_slot(&inner.semaphore_list) {
        Some(id) => {
            proof {
                let d = inner.semaphore_detector@;
                assert(is_first_free(old(inner).semaphore_list@, id as int));
                d.lemma_kind_reset_for_rows_shape(rows as int, id as int, units as int);
            }
            inner.semaphore_list.set(id, Some(res_count));
            inner.semaphore_detector.reset_kind_for_rows(rows, id, units);
            id as isize
        },
        None => {
            proof {
                inner.semaphore_detector@.lemma_kind_for_rows_shape(rows as int, units as int);
            }
            inner.semaphore_list.push(Some(res_count));
            let id = inner.semaphore_list.len() - 1;
            inner.semaphore_detector.add_kind_for_rows(rows, units);
            id as isize
        },
    }
}

/// Thread `tid` releases a unit of semaphore `sem_id` (the kernel signals
/// the semaphore): one more unit is free and the thread holds one fewer.
/// Returns 0.
pub fn sys_semaphore_up(inner: &mut ProcessControlBlockInner, tid: usize, sem_id: usize) -> (r: isize)
    requires
        sem_id < old(inner).semaphore_list@.len(),
        old(inner).semaphore_list@[sem_id as int] is Some,
        sem_id < old(inner).semaphore_detector@.available.len(),
        old(inner).semaphore_detector@.available[sem_id as int] < isize::MAX,
        tid < old(inner).semaphore_detector@.allocation.len(),
        sem_id < old(inner).semaphore_detector@.allocation[tid as int].len(),
        old(inner).semaphore_detector@.allocation[tid as int][sem_id as int] > isize::MIN,
    ensures
        r == 0,
        ({
            let d = old(inner).semaphore_detector@;
            final(inner).semaphore_detector@ == d.with_avail(
                sem_id as int,
                d.available[sem_id as int] + 1,
            ).with_alloc(tid as int, sem_id as int, d.allocation[tid as int][sem_id as int] - 1)
        }),
        *final(inner) == (ProcessControlBlockInner {
            semaphore_detector: final(inner).semaphore_detector,
            ..*old(inner)
        }),
        old(inner).sync_tables_aligned() ==> final(inner).sync_tables_aligned(),
        old(inner).semaphore_detector@.well_shaped() ==> final(inner).semaphore_detector@.well_shaped(),
{
    proof {
        let d = inner.semaphore_detector@;
        let e = d.with_avail(sem_id as int, d.available[sem_id as int] + 1).with_alloc(
            tid as int,
            sem_id as int,
            d.allocation[tid as int][sem_id as int] - 1,
        );
        e.lemma_same_shape_well_shaped(d);
    }
    let _ = inner.semaphore_list[sem_id].unwrap();
    proof {
        inner.semaphore_detector.lemma_view();
    }
    let free = inner.semaphore_detector.available[sem_id];
    inner.semaphore_detector.set_avail(sem_id, free + 1);
    proof {
        inner.semaphore_detector.lemma_view();
    }
    let held = inner.semaphore_detector.allocation[tid][sem_id];
    inner.semaphore_detector.set_alloc(tid, sem_id, held - 1);
    0
}

/// The semaphore detector after thread `tid` registers a request for one
/// unit of semaphore `id`.
pub open spec fn sem_requested(d: DetectorState, tid: int, id: int) -> DetectorState {
    d.with_need(tid, id, d.need[tid][id] + 1)
}

/// The semaphore detector after thread `tid` receives the unit of semaphore
/// `id` it registered a request for: one unit fewer is free, the thread
/// holds one more and needs one fewer.
pub open spec fn sem_received(d: DetectorState, tid: int, id: int) -> DetectorState {
    d.with_avail(id, d.available[id] - 1).with_alloc(tid, id, d.allocation[tid][id] + 1).with_need(
        tid,
        id,
        d.need[tid][id] - 1,
    )
}

/// The semaphore detector after thread `tid` requests a unit of semaphore
/// `id` and receives it at once from the free units.
pub open spec fn sem_assigned(d: DetectorState, tid: int, id: int) -> DetectorState {
    sem_received(sem_requested(d, tid, id), tid, id)
}

/// With detection on, the registered request passes the first safety test.
pub open spec fn sem_request_admitted(inner: ProcessControlBlockInner, tid: int, id: int) -> bool {
    !inner.deadlock_detect || sem_requested(inner.semaphore_detector@, tid, id).greedy_completes()
}

/// The request can be satisfied at once from the free units.
pub open spec fn sem_unit_free(inner: ProcessControlBlockInner, tid: int, id: int) -> bool {
    sem_request_admitted(inner, tid, id) && 1 <= inner.semaphore_detector@.available[id]
}

/// With detection on, the state after satisfying the request passes the second safety test.
pub open spec fn sem_assignment_safe(inner: ProcessControlBlockInner, tid: int, id: int) -> bool {
    !inner.deadlock_detect || sem_assigned(inner.semaphore_detector@, tid, id).greedy_completes()
}

/// Thread `tid` asks for a unit of semaphore `sem_id`.
///
/// With deadlock detection on, a request that, once registered in the need
/// matrix, leaves the process unsafe is refused with `DEADLOCK_REFUSED`.  If
/// a unit is free it is assigned to the thread; with detection on, an
/// assignment that leaves the process unsafe is refused with
/// `DEADLOCK_REFUSED`.  A refused request leaves the bookkeeping as it was.
/// An assigned unit is taken from the semaphore: the thread waits on it
/// (without blocking, as a unit is free).  If no unit is free, the request
/// stays registered and the thread waits on the semaphore; once it has the
/// unit, the kernel reports it with `sys_semaphore_down_received`.  Unless
/// refused, the call returns 0.
pub fn sys_semaphore_down(inner: &mut ProcessControlBlockInner, tid: usize, sem_id: usize) -> (r: SyncDecision)
    requires
        tid < old(inner).semaphore_detector@.need.len(),
        sem_id < old(inner).semaphore_detector@.need[tid as int].len(),
        old(inner).semaphore_detector@.need[tid as int][sem_id as int] < isize::MAX,
        old(inner).deadlock_detect ==> old(inner).semaphore_detector@.well_shaped() && old(
            inner,
        ).semaphore_detector@.threads_fit(),
        sem_request_admitted(*old(inner), tid as int, sem_id as int) ==> sem_id < old(
            inner,
        ).semaphore_detector@.available.len(),
        sem_unit_free(*old(inner), tid as int, sem_id as int) ==> {
            &&& tid < old(inner).semaphore_detector@.allocation.len()
            &&& sem_id < old(inner).semaphore_detector@.allocation[tid as int].len()
            &&& old(inner).semaphore_detector@.allocation[tid as int][sem_id as int] < isize::MAX
        },
        sem_request_admitted(*old(inner), tid as int, sem_id as int) && (!sem_unit_free(
            *old(inner),
            tid as int,
            sem_id as int,
        ) || sem_assignment_safe(*old(inner), tid as int, sem_id as int)) ==> sem_id < old(
            inner,
        ).semaphore_list@.len() && old(inner).semaphore_list@[sem_id as int] is Some,
    ensures
        ({
            let d = old(inner).semaphore_detector@;
            let t = tid as int;
            let s = sem_id as int;
            if !sem_request_admitted(*old(inner), t, s) {
                &&& r == (SyncDecision { ret: DEADLOCK_REFUSED, acquire: false, pending: false })
                &&& final(inner).semaphore_detector@ == d
            } else if !sem_unit_free(*old(inner), t, s) {
                &&& r == (SyncDecision { ret: 0, acquire: true, pending: true })
                &&& final(inner).semaphore_detector@ == sem_requested(d, t, s)
            } else if sem_assignment_safe(*old(inner), t, s) {
                &&& r == (SyncDecision { ret: 0, acquire: true, pending: false })
                &&& final(inner).semaphore_detector@ == sem_assigned(d, t, s)
            } else {
                &&& r == (SyncDecision { ret: DEADLOCK_REFUSED, acquire: false, pending: false })
                &&& final(inner).semaphore_detector@ == d
            }
        }),
        *final(inner) == (ProcessControlBlockInner {
            semaphore_detector: final(inner).semaphore_detector,
            ..*old(inner)
        }),
        old(inner).sync_tables_aligned() ==> final(inner).sync_tables_aligned(),
        !old(inner).deadlock_detect ==> r.ret == 0 && r.acquire,
        !old(inner).deadlock_detect ==> ({
            let d = old(inner).semaphore_detector@;
            let t = tid as int;
            let k = sem_id as int;
            if d.available[k] >= 1 {
                &&& !r.pending
                &&& final(inner).semaphore_detector@ == d.with_avail(k, d.available[k] - 1).with_alloc(
                    t,
                    k,
                    d.allocation[t][k] + 1,
                )
            } else {
                &&& r.pending
                &&& final(inner).semaphore_detector@ == d.with_need(t, k, d.need[t][k] + 1)
            }
        }),
        old(inner).deadlock_detect ==> ({
            let d = old(inner).semaphore_detector@;
            let t = tid as int;
            let k = sem_id as int;
            let asked = d.with_need(t, k, d.need[t][k] + 1);
            let taken = d.with_avail(k, d.available[k] - 1).with_alloc(t, k, d.allocation[t][k] + 1);
            &&& !asked.greedy_completes() ==> r.ret == DEADLOCK_REFUSED
            &&& asked.greedy_completes() && d.available[k] < 1 ==> r.ret == 0 && r.pending
                && final(inner).semaphore_detector@ == asked
            &&& asked.greedy_completes() && d.available[k] >= 1 ==> (r.ret == 0 <==> taken.greedy_completes())
            &&& asked.greedy_completes() && d.available[k] >= 1 && r.ret == 0 ==> !r.pending
                && final(inner).semaphore_detector@ == taken
        }),
        r.ret == 0 ==> r.acquire,
        r.ret == 0 || r.ret == DEADLOCK_REFUSED,
        r.ret == DEADLOCK_REFUSED ==> !r.acquire && final(inner).semaphore_detector@ == old(
            inner,
        ).semaphore_detector@,
        old(inner).semaphore_detector@.well_shaped() ==> final(inner).semaphore_detector@.well_shaped(),
{
    let ghost d0 = inner.semaphore_detector@;
    let ghost t = tid as int;
    let ghost s = sem_id as int;
    proof {
        sem_requested(d0, t, s).lemma_same_shape_well_shaped(d0);
        if sem_unit_free(*inner, t, s) {
            sem_assigned(d0, t, s).lemma_same_shape_well_shaped(d0);
            lemma_assigned_is_taken(d0, t, s);
        }
    }
    let request: isize = 1;
    proof {
        inner.semaphore_detector.lemma_view();
    }
    let need = inner.semaphore_detector.need[tid][sem_id];
    inner.semaphore_detector.set_need(tid, sem_id, need + request);
    if inner.deadlock_detect {
        let (safe, _) = inner.semaphore_detector.is_safe_state();
        if !safe {
            inner.semaphore_detector.set_need(tid, sem_id, need);
            proof {
                assert(inner.semaphore_detector@.need =~~= d0.need);
            }
            return SyncDecision { ret: DEADLOCK_REFUSED, acquire: false, pending: false };
        }
    }
    proof {
        inner.semaphore_detector.lemma_view();
    }
    if request <= inner.semaphore_detector.available[sem_id] {
        let free = inner.semaphore_detector.available[sem_id];
        inner.semaphore_detector.set_avail(sem_id, free - request);
        proof {
            inner.semaphore_detector.lemma_view();
        }
        let held = inner.semaphore_detector.allocation[tid][sem_id];
        inner.semaphore_detector.set_alloc(tid, sem_id, held + request);
        inner.semaphore_detector.set_need(tid, sem_id, need);
        if inner.deadlock_detect {
            proof {
                inner.semaphore_detector.lemma_view();
                assert(inner.semaphore_detector@ == sem_assigned(d0, t, s));
            }
            let (safe, _) = inner.semaphore_detector.is_safe_state();
            if !safe {
                inner.semaphore_detector.set_avail(sem_id, free);
                inner.semaphore_detector.set_alloc(tid, sem_id, held);
                proof {
                    assert(inner.semaphore_detector@.available =~= d0.available);
                    assert(inner.semaphore_detector@.allocation =~~= d0.allocation);
                    assert(inner.semaphore_detector@.need =~~= d0.need);
                }
                return SyncDecision { ret: DEADLOCK_REFUSED, acquire: false, pending: false };
            }
        }
        let _ = inner.semaphore_list[sem_id].unwrap();
        SyncDecision { ret: 0, acquire: true, pending: false }
    } else {
        let _ = inner.semaphore_list[sem_id].unwrap();
        SyncDecision { ret: 0, acquire: true, pending: true }
    }
}

/// Thread `tid`, which waited on semaphore `sem_id` because no unit was
/// free when it asked (`pending` in the decision of `sys_semaphore_down`),
/// has now received a unit: one unit fewer is free, the thread holds one
/// more, and its registered request is withdrawn.
pub fn sys_semaphore_down_received(inner: &mut ProcessControlBlockInner, tid: usize, sem_id: usize)
    requires
        sem_id < old(inner).semaphore_detector@.available.len(),
        old(inner).semaphore_detector@.available[sem_id as int] > isize::MIN,
        tid < old(inner).semaphore_detector@.allocation.len(),
        sem_id < old(inner).semaphore_detector@.allocation[tid as int].len(),
        old(inner).semaphore_detector@.allocation[tid as int][sem_id as int] < isize::MAX,
        tid < old(inner).semaphore_detector@.need.len(),
        sem_id < old(inner).semaphore_detector@.need[tid as int].len(),
        old(inner).semaphore_detector@.need[tid as int][sem_id as int] > isize::MIN,
    ensures
        final(inner).semaphore_detector@ == sem_received(
            old(inner).semaphore_detector@,
            tid as int,
            sem_id as int,
        ),
        *final(inner) == (ProcessControlBlockInner {
            semaphore_detector: final(inner).semaphore_detector,
            ..*old(inner)
        }),
        old(inner).sync_tables_aligned() ==> final(inner).sync_tables_aligned(),
        old(inner).semaphore_detector@.well_shaped() ==> final(inner).semaphore_detector@.well_shaped(),
{
    proof {
        let d = inner.semaphore_detector@;
        sem_received(d, tid as int, sem_id as int).lemma_same_shape_well_shaped(d);
        inner.semaphore_detector.lemma_view();
    }
    let free = inner.semaphore_detector.available[sem_id];
    inner.semaphore_detector.set_avail(sem_id, free - 1);
    proof {
        inner.semaphore_detector.lemma_view();
    }
    let held = inner.semaphore_detector.allocation[tid][sem_id];
    inner.semaphore_detector.set_alloc(tid, sem_id, held + 1);
    proof {
        inner.semaphore_detector.lemma_view();
    }
    let need = inner.semaphore_detector.need[tid][sem_id];
    inner.semaphore_detector.set_need(tid, sem_id, need - 1);
}

/// Creates a condition variable in the lowest free slot, or in a new slot.
/// Returns its id.
pub fn sys_condvar_create(inner: &mut ProcessControlBlockInner) -> (r: isize)
    requires
        old(inner).condvar_list@.len() < isize::MAX,
    ensures
        is_first_free(old(inner).condvar_list@, r as int),
        r < old(inner).condvar_list@.len() ==> final(inner).condvar_list@ == old(
            inner,
        ).condvar_list@.update(r as int, Some(())),
        r == old(inner).condvar_list@.len() ==> final(inner).condvar_list@ == old(
            inner,
        ).condvar_list@.push(Some(())),
        *final(inner) == (ProcessControlBlockInner {
            condvar_list: final(inner).condvar_list,
            ..*old(inner)
        }),
{
    match find_free_slot(&inner.condvar_list) {
        Some(id) => {
            inner.condvar_list.set(id, Some(()));
            id as isize
        },
        None => {
            inner.condvar_list.push(Some(()));
            (inner.condvar_list.len() - 1) as isize
        },
    }
}

/// Signals condition variable `condvar_id` (the kernel wakes one waiter).
/// Returns 0.
pub fn sys_condvar_signal(inner: &ProcessControlBlockInner, condvar_id: usize) -> (r: isize)
    requires
        condvar_id < inner.condvar_list@.len(),
        inner.condvar_list@[condvar_id as int] is Some,
    ensures
        r == 0,
{
    let _ = inner.condvar_list[condvar_id].unwrap();
    0
}

/// Waits on condition variable `condvar_id`, releasing mutex `mutex_id`
/// meanwhile (the kernel does the waiting).  Returns 0.
pub fn sys_condvar_wait(inner: &ProcessControlBlockInner, condvar_id: usize, mutex_id: usize) -> (r: isize)
    requires
        condvar_id < inner.condvar_list@.len(),
        inner.condvar_list@[condvar_id as int] is Some,
        mutex_id < inner.mutex_list@.len(),
        inner.mutex_list@[mutex_id as int] is Some,
    ensures
        r == 0,
{
    let _ = inner.condvar_list[condvar_id].unwrap();
    let _ = inner.mutex_list[mutex_id].unwrap();
    0
}

/// Turns deadlock detection on (`enabled == 1`) or off (`enabled == 0`) and
/// returns 0; any other argument is rejected with -1 and changes nothing.
pub fn sys_enable_deadlock_detect(process: &mut ProcessControlBlock, enabled: usize) -> (r: isize)
    ensures
        enabled > 1 ==> r == -1 && *final(process) == *old(process),
        enabled <= 1 ==> r == 0 && final(process).spec_pid() == old(process).spec_pid()
            && final(process).spec_inner() == (ProcessControlBlockInner {
            deadlock_detect: enabled == 1,
            ..old(process).spec_inner()
        }),
{
    let state = if enabled == 1 {
        true
    } else if enabled == 0 {
        false
    } else {
        return -1;
    };
    process.set_deadlock_detect(state)
}

/// A granted `sys_mutex_lock` followed by `sys_mutex_unlock` of the same
/// mutex by the same thread leaves the mutex detector as it was.
pub proof fn lemma_mutex_lock_unlock_restores(d: DetectorState, tid: int, id: int)
    requires
        0 <= tid < d.need.len(),
        0 <= id < d.need[tid].len(),
        tid < d.allocation.len(),
        0 <= id < d.allocation[tid].len(),
    ensures
        ({
            let d1 = mutex_requested(d, tid, id);
            let locked = d1.with_alloc(tid, id, d1.allocation[tid][id] + 1);
            locked.with_need(tid, id, locked.need[tid][id] - 1).with_alloc(
                tid,
                id,
                locked.allocation[tid][id] - 1,
            ) == d
        }),
{
    let d1 = mutex_requested(d, tid, id);
    let locked = d1.with_alloc(tid, id, d1.allocation[tid][id] + 1);
    let back = locked.with_need(tid, id, locked.need[tid][id] - 1).with_alloc(
        tid,
        id,
        locked.allocation[tid][id] - 1,
    );
    assert(back.need =~~= d.need);
    assert(back.allocation =~~= d.allocation);
}

/// A `sys_semaphore_down` that takes a free unit followed by
/// `sys_semaphore_up` of the same semaphore by the same thread leaves the
/// semaphore detector as it was.
pub proof fn lemma_semaphore_down_up_restores(d: DetectorState, tid: int, id: int)
    requires
        0 <= tid < d.need.len(),
        0 <= id < d.need[tid].len(),
        tid < d.allocation.len(),
        0 <= id < d.allocation[tid].len(),
        0 <= id < d.available.len(),
    ensures
        ({
            let taken = sem_assigned(d, tid, id);
            taken.with_avail(id, taken.available[id] + 1).with_alloc(
                tid,
                id,
                taken.allocation[tid][id] - 1,
            ) == d
        }),
{
    let taken = sem_assigned(d, tid, id);
    let back = taken.with_avail(id, taken.available[id] + 1).with_alloc(
        tid,
        id,
        taken.allocation[tid][id] - 1,
    );
    assert(back.available =~= d.available);
    assert(back.need =~~= d.need);
    assert(back.allocation =~~= d.allocation);
}

/// A `sys_semaphore_down` that had to wait (its request stays registered),
/// followed by `sys_semaphore_down_received` once the unit arrives, leaves
/// the detector as taking a free unit at once does; a `sys_semaphore_up` by
/// the same thread then gives back the detector as it was.
pub proof fn lemma_semaphore_wait_receive_up_restores(d: DetectorState, tid: int, id: int)
    requires
        0 <= tid < d.need.len(),
        0 <= id < d.need[tid].len(),
        tid < d.allocation.len(),
        0 <= id < d.allocation[tid].len(),
        0 <= id < d.available.len(),
    ensures
        sem_received(sem_requested(d, tid, id), tid, id) == sem_assigned(d, tid, id),
        ({
            let taken = sem_received(sem_requested(d, tid, id), tid, id);
            taken.with_avail(id, taken.available[id] + 1).with_alloc(
                tid,
                id,
                taken.allocation[tid][id] - 1,
            ) == d
        }),
{
    lemma_semaphore_down_up_restores(d, tid, id);
}

/// With detection on and no negative holdings, `sys_mutex_lock` grants a
/// request exactly when, with the request registered, some order still lets
/// every thread finish; it refuses exactly the requests that would make a
/// deadlock possible.
pub proof fn lemma_mutex_lock_refuses_unsafe(inner: ProcessControlBlockInner, tid: int, id: int)
    requires
        inner.deadlock_detect,
        inner.mutex_detector@.allocation_nonnegative(),
    ensures
        mutex_lock_granted(inner, tid, id) <==> mutex_requested(
            inner.mutex_detector@,
            tid,
            id,
        ).has_safe_sequence(),
{
    let d1 = mutex_requested(inner.mutex_detector@, tid, id);
    let d0 = inner.mutex_detector@;
    assert(d1.allocation == d0.allocation && d1.available == d0.available);
    assert forall|i: int, j: int|
        0 <= i < d1.threads() && 0 <= j < d1.kinds() implies #[trigger] d1.alloc_at(i, j) >= 0 by {
        assert(d0.alloc_at(i, j) >= 0);
    }
    d1.lemma_safe_iff_safe_sequence();
}

/// With detection on and no negative holdings, `sys_semaphore_down`
/// withdraws a request at its first safety test exactly when, with the
/// request registered, no order lets every thread finish.
pub proof fn lemma_semaphore_down_refuses_unsafe(inner: ProcessControlBlockInner, tid: int, id: int)
    requires
        inner.deadlock_detect,
        inner.semaphore_detector@.allocation_nonnegative(),
    ensures
        sem_request_admitted(inner, tid, id) <==> sem_requested(
            inner.semaphore_detector@,
            tid,
            id,
        ).has_safe_sequence(),
{
    let d1 = sem_requested(inner.semaphore_detector@, tid, id);
    let d0 = inner.semaphore_detector@;
    assert(d1.allocation == d0.allocation && d1.available == d0.available);
    assert forall|i: int, j: int|
        0 <= i < d1.threads() && 0 <= j < d1.kinds() implies #[trigger] d1.alloc_at(i, j) >= 0 by {
        assert(d0.alloc_at(i, j) >= 0);
    }
    d1.lemma_safe_iff_safe_sequence();
}

/// Taking a free unit leaves the need as it was: the state after the
/// assignment is the detector with one unit moved from the free pool to the
/// thread's holding.
pub proof fn lemma_assigned_is_taken(d: DetectorState, tid: int, id: int)
    requires
        0 <= tid < d.need.len(),
        0 <= id < d.need[tid].len(),
        tid < d.allocation.len(),
        0 <= id < d.allocation[tid].len(),
        0 <= id < d.available.len(),
    ensures
        sem_assigned(d, tid, id) == d.with_avail(id, d.available[id] - 1).with_alloc(
            tid,
            id,
            d.allocation[tid][id] + 1,
        ),
{
    let a = sem_assigned(d, tid, id);
    let b = d.with_avail(id, d.available[id] - 1).with_alloc(tid, id, d.allocation[tid][id] + 1);
    assert(a.available =~= b.available);
    assert(a.allocation =~~= b.allocation);
    assert(a.need =~~= b.need);
}

/// With detection off, `sys_mutex_lock` grants every request: it never
/// answers `DEADLOCK_REFUSED`, whoever holds the mutex.
pub proof fn lemma_mutex_lock_without_detection_grants(inner: ProcessControlBlockInner, tid: int, id: int)
    requires
        !inner.deadlock_detect,
    ensures
        mutex_lock_granted(inner, tid, id),
{
}

/// With detection off, `sys_semaphore_down` refuses no request: the request
/// is admitted, and taking a free unit is allowed.
pub proof fn lemma_semaphore_down_without_detection_never_refuses(
    inner: ProcessControlBlockInner,
    tid: int,
    id: int,
)
    requires
        !inner.deadlock_detect,
    ensures
        sem_request_admitted(inner, tid, id),
        sem_assignment_safe(inner, tid, id),
{
}

/// With detection on and no negative holdings, a request that finds a free
/// unit passes the second safety test exactly when, with the unit moved from
/// the free pool to the thread's holding (its need as before the call), some
/// order still lets every thread finish.
pub proof fn lemma_semaphore_second_test_is_safety(inner: ProcessControlBlockInner, tid: int, id: int)
    requires
        inner.deadlock_detect,
        inner.semaphore_detector@.allocation_nonnegative(),
        inner.semaphore_detector@.well_shaped(),
        0 <= tid < inner.semaphore_detector@.need.len(),
        0 <= id < inner.semaphore_detector@.need[tid].len(),
        tid < inner.semaphore_detector@.allocation.len(),
        0 <= id < inner.semaphore_detector@.allocation[tid].len(),
        0 <= id < inner.semaphore_detector@.available.len(),
    ensures
        ({
            let d = inner.semaphore_detector@;
            sem_assignment_safe(inner, tid, id) <==> d.with_avail(id, d.available[id] - 1).with_alloc(
                tid,
                id,
                d.allocation[tid][id] + 1,
            ).has_safe_sequence()
        }),
{
    let d = inner.semaphore_detector@;
    let x = d.with_avail(id, d.available[id] - 1).with_alloc(tid, id, d.allocation[tid][id] + 1);
    lemma_assigned_is_taken(d, tid, id);
    assert forall|i: int, j: int| 0 <= i < x.threads() && 0 <= j < x.kinds() implies #[trigger] x.alloc_at(i, j) >= 0 by {
        assert(d.alloc_at(i, j) >= 0);
        if i != tid {
            assert(x.allocation[i] == d.allocation[i]);
        } else {
            assert(j < d.allocation[tid].len());
            if j != id {
                assert(x.alloc_at(i, j) == d.alloc_at(i, j));
            }
        }
    }
    x.lemma_safe_iff_safe_sequence();
}

} // verus!
