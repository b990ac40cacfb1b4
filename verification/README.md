# Verified kernel bookkeeping

A Verus library holding the bookkeeping of a small teaching kernel and the
decision logic of its system calls, each with a contract proved by Verus.

- `src/task/detector.rs` — the deadlock detector (banker's safety test) over
  `available` / `allocation` / `need` matrices, its mathematical model, and
  the proof that the test answers "safe" exactly when some order lets every
  thread finish (for nonnegative holdings).
- `src/task/id.rs` — recycling allocation of thread ids.
- `src/task/process.rs` — process control blocks: descriptor tables, thread
  slots, mutex / semaphore / condition-variable slots, creating, forking and
  re-executing a process (including the layout of program arguments on the
  user stack).
- `src/syscall/` — what each system call decides: descriptor lookups and
  allocation, argument validation for memory calls, time splitting, and the
  mutex and semaphore calls with deadlock detection.
- `app/lib.rs` — the kernel side: reads the calling context, calls the
  library, performs the decided operations through a `Kernel` trait.
- `tests/` — executable tests of the library.
