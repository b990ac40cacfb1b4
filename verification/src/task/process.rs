//! Process control blocks: the tables a process owns and the bookkeeping of
//! creating, forking and re-executing a process.
use vstd::prelude::*;
use crate::task::detector::{BankerDeadlockDetector, DetectorState};
use crate::task::id::RecycleAllocator;

verus! {

/// An open file as a descriptor table records it: the kernel's key for the
/// file object and what the file allows.
#[derive(Clone, Copy, Debug, PartialEq, Eq, Structural)]
pub struct FileHandle {
    pub file: usize,
    pub readable: bool,
    pub writable: bool,
}

/// Key of the standard input object.
pub const STDIN_FILE: usize = 0;

/// Key of the standard output object (also used for standard error).
pub const STDOUT_FILE: usize = 1;

impl FileHandle {
    /// Standard input: readable only.
    pub fn stdin() -> (f: FileHandle)
        ensures
            f == (FileHandle { file: STDIN_FILE, readable: true, writable: false }),
    {
        FileHandle { file: STDIN_FILE, readable: true, writable: false }
    }

    /// Standard output: writable only.
    pub fn stdout() -> (f: FileHandle)
        ensures
            f == (FileHandle { file: STDOUT_FILE, readable: false, writable: true }),
    {
        FileHandle { file: STDOUT_FILE, readable: false, writable: true }
    }
}

/// A thread of a process, named by the kernel's key for its control block.
#[derive(Clone, Copy, Debug, PartialEq, Eq, Structural)]
pub struct TaskHandle {
    pub key: usize,
}

/// The two kinds of mutex a process can create.
#[derive(Clone, Copy, Debug, PartialEq, Eq, Structural)]
pub enum MutexKind {
    /// Busy-waits (yielding) until the lock is free.
    Spin,
    /// Puts the waiting thread to sleep.
    Blocking,
}

/// `id` is the lowest free slot of `s`, or `s.len()` when every slot is taken.
pub open spec fn is_first_free<T>(s: Seq<Option<T>>, id: int) -> bool {
    &&& 0 <= id <= s.len()
    &&& id < s.len() ==> s[id] is None
    &&& forall|k: int| 0 <= k < id ==> #[trigger] s[k] is Some
}

/// Finds the lowest free slot of a table.
pub fn find_free_slot<T>(table: &Vec<Option<T>>) -> (r: Option<usize>)
    ensures
        match r {
            Some(id) => id < table@.len() && is_first_free(table@, id as int),
            None => is_first_free(table@, table@.len() as int),
        },
{
    let mut i: usize = 0;
    while i < table.len()
        invariant
            i <= table@.len(),
            forall|k: int| 0 <= k < i ==> #[trigger] table@[k] is Some,
        decreases table@.len() - i,
    {
        if table[i].is_none() {
            return Some(i);
        }
        i = i + 1;
    }
    None
}

/// The mutable part of a process control block.
pub struct ProcessControlBlockInner {
    /// Has the process exited and not yet been reaped?
    pub is_zombie: bool,
    /// Page-table token of the process's address space.
    pub memory_set_token: usize,
    /// Pid of the parent process.
    pub parent: Option<usize>,
    /// Pids of the child processes.
    pub children: Vec<usize>,
    pub exit_code: i32,
    /// File descriptor table.
    pub fd_table: Vec<Option<FileHandle>>,
    /// Pending signal bits.
    pub signals: u32,
    /// Threads, indexed by thread id.
    pub tasks: Vec<Option<TaskHandle>>,
    /// Allocator of thread ids.
    pub task_res_allocator: RecycleAllocator,
    /// Mutexes, indexed by mutex id.
    pub mutex_list: Vec<Option<MutexKind>>,
    /// Semaphores, indexed by semaphore id, with the count each was created with.
    pub semaphore_list: Vec<Option<usize>>,
    /// Condition variables, indexed by condition variable id.
    pub condvar_list: Vec<Option<()>>,
    /// Is deadlock detection enabled?
    pub deadlock_detect: bool,
    /// Bookkeeping of mutexes for deadlock detection.
    pub mutex_detector: BankerDeadlockDetector,
    /// Bookkeeping of semaphores for deadlock detection.
    pub semaphore_detector: BankerDeadlockDetector,
}

impl ProcessControlBlockInner {
    /// Every mutex slot and every semaphore slot has a resource kind in the
    /// detector of its kind.
    pub open spec fn sync_tables_aligned(&self) -> bool {
        &&& self.mutex_list@.len() == self.mutex_detector@.kinds()
        &&& self.semaphore_list@.len() == self.semaphore_detector@.kinds()
    }

    /// Everything but the file descriptor table is as in `other`.
    pub open spec fn same_except_fds(&self, other: &Self) -> bool {
        *self == (ProcessControlBlockInner { fd_table: self.fd_table, ..*other })
    }

    /// Everything but the thread-id allocator is as in `other`.
    pub open spec fn same_except_tid_allocator(&self, other: &Self) -> bool {
        *self == (ProcessControlBlockInner { task_res_allocator: self.task_res_allocator, ..*other })
    }

    /// Page-table token of the process's address space.
    pub fn get_user_token(&self) -> (token: usize)
        ensures
            token == self.memory_set_token,
    {
        self.memory_set_token
    }

    /// Allocates a file descriptor: the lowest free slot of the table, or a
    /// new slot at its end.  The slot stays empty until the caller fills it.
    pub fn alloc_fd(&mut self) -> (fd: usize)
        requires
            old(self).fd_table@.len() < usize::MAX,
        ensures
            is_first_free(old(self).fd_table@, fd as int),
            fd < final(self).fd_table@.len(),
            final(self).fd_table@[fd as int] is None,
            fd < old(self).fd_table@.len() ==> final(self).fd_table@ == old(self).fd_table@,
            fd == old(self).fd_table@.len() ==> final(self).fd_table@ == old(self).fd_table@.push(None),
            final(self).same_except_fds(old(self)),
    {
        match find_free_slot(&self.fd_table) {
            Some(fd) => fd,
            None => {
                self.fd_table.push(None);
                self.fd_table.len() - 1
            },
        }
    }

    /// Allocates a thread id.
    pub fn alloc_tid(&mut self) -> (tid: usize)
        requires
            old(self).task_res_allocator.wf(),
            old(self).task_res_allocator.released().len() == 0
                ==> old(self).task_res_allocator.next_fresh() < usize::MAX,
        ensures
            final(self).task_res_allocator.wf(),
            !old(self).task_res_allocator.in_use().contains(tid as nat),
            final(self).task_res_allocator.in_use() == old(self).task_res_allocator.in_use().insert(
                tid as nat,
            ),
            old(self).task_res_allocator.released().len() > 0 ==> tid == old(
                self,
            ).task_res_allocator.released().last() && final(self).task_res_allocator.released()
                == old(self).task_res_allocator.released().drop_last()
                && final(self).task_res_allocator.next_fresh() == old(
                self,
            ).task_res_allocator.next_fresh(),
            old(self).task_res_allocator.released().len() == 0 ==> tid == old(
                self,
            ).task_res_allocator.next_fresh() && final(self).task_res_allocator.next_fresh() == old(
                self,
            ).task_res_allocator.next_fresh() + 1 && final(self).task_res_allocator.released().len()
                == 0,
            final(self).same_except_tid_allocator(old(self)),
    {
        self.task_res_allocator.alloc_id()
    }

    /// Releases a thread id.
    pub fn dealloc_tid(&mut self, tid: usize)
        requires
            old(self).task_res_allocator.wf(),
            old(self).task_res_allocator.in_use().contains(tid as nat),
        ensures
            final(self).task_res_allocator.wf(),
            final(self).task_res_allocator.in_use() == old(self).task_res_allocator.in_use().remove(
                tid as nat,
            ),
            final(self).task_res_allocator.released() == old(
                self,
            ).task_res_allocator.released().push(tid),
            final(self).task_res_allocator.next_fresh() == old(self).task_res_allocator.next_fresh(),
            final(self).same_except_tid_allocator(old(self)),
    {
        self.task_res_allocator.dealloc_id(tid)
    }

    /// Number of thread slots of the process.
    pub fn thread_count(&self) -> (n: usize)
        ensures
            n == self.tasks@.len(),
    {
        self.tasks.len()
    }

    /// The thread with id `tid`.
    pub fn get_task(&self, tid: usize) -> (t: TaskHandle)
        requires
            tid < self.tasks@.len(),
            self.tasks@[tid as int] is Some,
        ensures
            self.tasks@[tid as int] == Some(t),
    {
        self.tasks[tid].unwrap()
    }
}

/// The descriptor table a new process starts with: standard input, output
/// and error.
pub open spec fn standard_fds() -> Seq<Option<FileHandle>> {
    seq![
        Some(FileHandle { file: STDIN_FILE, readable: true, writable: false }),
        Some(FileHandle { file: STDOUT_FILE, readable: false, writable: true }),
        Some(FileHandle { file: STDOUT_FILE, readable: false, writable: true }),
    ]
}

impl ProcessControlBlockInner {
    /// The state of a process just created with address space `token`,
    /// parent `parent`, descriptor table `fds` and the single thread `main`
    /// (which got thread id 0).
    pub open spec fn is_new_process(
        &self,
        token: usize,
        parent: Option<usize>,
        fds: Seq<Option<FileHandle>>,
        main: TaskHandle,
    ) -> bool {
        &&& !self.is_zombie
        &&& self.memory_set_token == token
        &&& self.parent == parent
        &&& self.children@.len() == 0
        &&& self.exit_code == 0
        &&& self.fd_table@ == fds
        &&& self.signals == 0
        &&& self.tasks@ == seq![Some(main)]
        &&& self.task_res_allocator.wf()
        &&& self.task_res_allocator.next_fresh() == 1
        &&& self.task_res_allocator.released().len() == 0
        &&& self.mutex_list@.len() == 0
        &&& self.semaphore_list@.len() == 0
        &&& self.condvar_list@.len() == 0
        &&& !self.deadlock_detect
        &&& self.mutex_detector@ == DetectorState::initial()
        &&& self.semaphore_detector@ == DetectorState::initial()
    }

    /// A new process's tables, with its main thread installed under the first thread id.
    fn new_with_main_task(
        token: usize,
        parent: Option<usize>,
        fd_table: Vec<Option<FileHandle>>,
        main: TaskHandle,
    ) -> (inner: Self)
        ensures
            inner.is_new_process(token, parent, fd_table@, main),
    {
        let mut inner = ProcessControlBlockInner {
            is_zombie: false,
            memory_set_token: token,
            parent,
            children: Vec::new(),
            exit_code: 0,
            fd_table,
            signals: 0,
            tasks: Vec::new(),
            task_res_allocator: RecycleAllocator::new(),
            mutex_list: Vec::new(),
            semaphore_list: Vec::new(),
            condvar_list: Vec::new(),
            deadlock_detect: false,
            mutex_detector: BankerDeadlockDetector::new(),
            semaphore_detector: BankerDeadlockDetector::new(),
        };
        let tid = inner.alloc_tid();
        assert(tid == 0);
        inner.tasks.push(Some(main));
        assert(inner.tasks@ =~= seq![Some(main)]);
        inner
    }
}

/// Bytes of one machine word.
pub open spec fn word_bytes() -> int {
    vstd::layout::size_of::<usize>() as int
}

/// Bytes the first `i` argument strings take on a user stack, each followed by a NUL byte.
pub open spec fn strings_size(args: Seq<Vec<u8>>, i: int) -> int
    decreases i,
{
    if i <= 0 {
        0
    } else {
        strings_size(args, i - 1) + args[i - 1]@.len() + 1
    }
}

/// Start of the argument pointer array: one word per argument, plus a
/// terminating null pointer, just below the stack top.
pub open spec fn argv_base_of(top: int, args: Seq<Vec<u8>>) -> int {
    top - (args.len() + 1) * word_bytes()
}

/// Address of argument string `i`: the strings are stacked downwards below
/// the pointer array, in order.
pub open spec fn arg_addr(top: int, args: Seq<Vec<u8>>, i: int) -> int {
    argv_base_of(top, args) - strings_size(args, i + 1)
}

/// Lowest byte the strings occupy.
pub open spec fn strings_bottom(top: int, args: Seq<Vec<u8>>) -> int {
    argv_base_of(top, args) - strings_size(args, args.len() as int)
}

/// Where the arguments of a new program go on its user stack.
pub struct UserStackLayout {
    /// Start of the argument pointer array.
    pub argv_base: usize,
    /// The pointers to store there: one per argument, then a null pointer.
    pub argv: Vec<usize>,
    /// The initial stack pointer: below the strings, aligned to a word.
    pub user_sp: usize,
}

proof fn lemma_strings_size_monotone(args: Seq<Vec<u8>>, i: int, k: int)
    requires
        0 <= i <= k,
    ensures
        0 <= strings_size(args, i) <= strings_size(args, k),
    decreases k,
{
    if k > i {
        lemma_strings_size_monotone(args, i, k - 1);
    } else if i > 0 {
        lemma_strings_size_monotone(args, i - 1, i - 1);
        lemma_strings_size_monotone(args, 0, i - 1);
    }
}

/// A process: its pid and its tables.
pub struct ProcessControlBlock {
    pid: usize,
    inner: ProcessControlBlockInner,
}

impl ProcessControlBlock {
    pub closed spec fn spec_pid(&self) -> usize {
        self.pid
    }

    pub closed spec fn spec_inner(&self) -> ProcessControlBlockInner {
        self.inner
    }

    /// Exclusive access to the process's tables.
    pub fn inner_exclusive_access(&mut self) -> (r: &mut ProcessControlBlockInner)
        ensures
            *r == old(self).spec_inner(),
            final(self).spec_inner() == *final(r),
            final(self).spec_pid() == old(self).spec_pid(),
    {
        &mut self.inner
    }

    /// The tables, for reading.
    pub fn inner_ref(&self) -> (r: &ProcessControlBlockInner)
        ensures
            *r == self.spec_inner(),
    {
        &self.inner
    }

    /// Creates process `pid` running in address space `memory_set_token`,
    /// with standard input, output and error open and `main_task` as its
    /// only thread.
    pub fn new(pid: usize, memory_set_token: usize, main_task: TaskHandle) -> (p: Self)
        ensures
            p.spec_pid() == pid,
            p.spec_inner().is_new_process(memory_set_token, None, standard_fds(), main_task),
    {
        let mut fd_table: Vec<Option<FileHandle>> = Vec::new();
        fd_table.push(Some(FileHandle::stdin()));
        fd_table.push(Some(FileHandle::stdout()));
        fd_table.push(Some(FileHandle::stdout()));
        assert(fd_table@ =~= standard_fds());
        ProcessControlBlock {
            pid,
            inner: ProcessControlBlockInner::new_with_main_task(memory_set_token, None, fd_table, main_task),
        }
    }

    /// Forks a single-threaded process: the child `child_pid` gets address
    /// space `child_memory_set_token`, a copy of the parent's descriptor
    /// table and `child_task` as its only thread; the parent records the
    /// child.
    pub fn fork(&mut self, child_pid: usize, child_memory_set_token: usize, child_task: TaskHandle) -> (child: Self)
        requires
            old(self).spec_inner().tasks@.len() == 1,
        ensures
            child.spec_pid() == child_pid,
            child.spec_inner().is_new_process(
                child_memory_set_token,
                Some(old(self).spec_pid()),
                old(self).spec_inner().fd_table@,
                child_task,
            ),
            final(self).spec_pid() == old(self).spec_pid(),
            final(self).spec_inner() == (ProcessControlBlockInner {
                children: final(self).spec_inner().children,
                ..old(self).spec_inner()
            }),
            final(self).spec_inner().children@ == old(self).spec_inner().children@.push(child_pid),
    {
        let mut new_fd_table: Vec<Option<FileHandle>> = Vec::new();
        let mut i: usize = 0;
        while i < self.inner.fd_table.len()
            invariant
                i <= self.inner.fd_table@.len(),
                new_fd_table@ == self.inner.fd_table@.take(i as int),
            decreases self.inner.fd_table@.len() - i,
        {
            match self.inner.fd_table[i] {
                Some(file) => new_fd_table.push(Some(file)),
                None => new_fd_table.push(None),
            }
            assert(self.inner.fd_table@.take(i + 1) =~= self.inner.fd_table@.take(i as int).push(
                self.inner.fd_table@[i as int],
            ));
            i = i + 1;
        }
        assert(self.inner.fd_table@.take(i as int) =~= self.inner.fd_table@);
        let child = ProcessControlBlock {
            pid: child_pid,
            inner: ProcessControlBlockInner::new_with_main_task(
                child_memory_set_token,
                Some(self.pid),
                new_fd_table,
                child_task,
            ),
        };
        self.inner.children.push(child_pid);
        child
    }

    pub fn getpid(&self) -> (pid: usize)
        ensures
            pid == self.spec_pid(),
    {
        self.pid
    }

    /// Turns deadlock detection on or off.
    pub fn set_deadlock_detect(&mut self, enable: bool) -> (r: isize)
        ensures
            r == 0,
            final(self).spec_pid() == old(self).spec_pid(),
            final(self).spec_inner() == (ProcessControlBlockInner {
                deadlock_detect: enable,
                ..old(self).spec_inner()
            }),
    {
        self.inner.deadlock_detect = enable;
        0
    }

    /// Replaces the program of a single-threaded process: switches to the
    /// address space `memory_set_token` and lays out the arguments `args`
    /// below `ustack_top`, the top of the main thread's new user stack.
    pub fn exec(&mut self, memory_set_token: usize, ustack_top: usize, args: &Vec<Vec<u8>>) -> (layout: UserStackLayout)
        requires
            old(self).spec_inner().tasks@.len() == 1,
            ustack_top >= (args@.len() + 1) * word_bytes() + strings_size(args@, args@.len() as int),
        ensures
            final(self).spec_pid() == old(self).spec_pid(),
            final(self).spec_inner() == (ProcessControlBlockInner {
                memory_set_token,
                ..old(self).spec_inner()
            }),
            layout.argv_base == argv_base_of(ustack_top as int, args@),
            layout.argv@.len() == args@.len() + 1,
            forall|i: int|
                0 <= i < args@.len() ==> #[trigger] layout.argv@[i] == arg_addr(ustack_top as int, args@, i),
            layout.argv@[args@.len() as int] == 0,
            layout.user_sp == strings_bottom(ustack_top as int, args@) - strings_bottom(
                ustack_top as int,
                args@,
            ) % word_bytes(),
            (layout.user_sp as int) % word_bytes() == 0,
            forall|i: int|
                0 <= i < args@.len() ==> layout.user_sp <= #[trigger] layout.argv@[i] && layout.argv@[i]
                    + args@[i]@.len() < if i == 0 {
                    layout.argv_base as int
                } else {
                    layout.argv@[i - 1] as int
                },
    {
        broadcast use vstd::layout::layout_of_primitives;

        let word = core::mem::size_of::<usize>();
        let n = args.len();
        let ghost top = ustack_top as int;
        proof {
            lemma_strings_size_monotone(args@, 0, n as int);
            assert(word as int == word_bytes());
            assert(word >= 1);
            assert((n as int + 1) <= (n as int + 1) * (word as int)) by (nonlinear_arith)
                requires
                    word >= 1;
        }
        let mut user_sp = ustack_top - (n + 1) * word;
        let argv_base = user_sp;
        let mut argv: Vec<usize> = Vec::new();
        let mut i: usize = 0;
        while i < n
            invariant
                i <= n,
                n == args@.len(),
                word as int == word_bytes(),
                argv_base as int == argv_base_of(top, args@),
                argv_base as int >= strings_size(args@, n as int),
                user_sp as int == argv_base - strings_size(args@, i as int),
                argv@.len() == i,
                forall|k: int| 0 <= k < i ==> #[trigger] argv@[k] == arg_addr(top, args@, k),
            decreases n - i,
        {
            proof {
                lemma_strings_size_monotone(args@, i + 1, n as int);
            }
            user_sp = user_sp - (args[i].len() + 1);
            argv.push(user_sp);
            i = i + 1;
        }
        argv.push(0);
        let ghost bottom = user_sp as int;
        user_sp = user_sp - user_sp % word;
        proof {
            vstd::arithmetic::div_mod::lemma_fundamental_div_mod(bottom, word as int);
            vstd::arithmetic::div_mod::lemma_mod_multiples_basic(bottom / (word as int), word as int);
            assert(user_sp as int == (bottom / (word as int)) * (word as int)) by (nonlinear_arith)
                requires
                    bottom == (word as int) * (bottom / (word as int)) + bottom % (word as int),
                    user_sp as int == bottom - bottom % (word as int);
            assert forall|k: int| 0 <= k < n implies user_sp <= #[trigger] argv@[k] && argv@[k]
                + args@[k]@.len() < if k == 0 {
                argv_base as int
            } else {
                argv@[k - 1] as int
            } by {
                lemma_strings_size_monotone(args@, k + 1, n as int);
            }
        }
        self.inner.memory_set_token = memory_set_token;
        UserStackLayout { argv_base, argv, user_sp }
    }
}

} // verus!
