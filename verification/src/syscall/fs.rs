//! Decision logic of the file system calls: descriptor lookup, allocation
//! and release.  The kernel performs the reads, writes, opens and links on
//! the file objects the descriptors name.
use vstd::prelude::*;
use crate::task::process::{is_first_free, FileHandle, ProcessControlBlockInner};

verus! {

/// What the file calls return on failure.
pub const FS_ERROR: isize = -1;

/// What `sys_linkat` returns when both paths are the same.
pub const LINK_SAME_PATH: isize = -11;

/// What `sys_linkat` and `sys_unlinkat` return when the opened descriptor is empty.
pub const LINK_NO_FILE: isize = -12;

/// The file open under descriptor `fd`, if any.
pub open spec fn open_file_at(inner: ProcessControlBlockInner, fd: int) -> Option<FileHandle> {
    if 0 <= fd < inner.fd_table@.len() {
        inner.fd_table@[fd]
    } else {
        None
    }
}

/// The table after installing `file` in the lowest free slot `fd` (or a new slot).
pub open spec fn fds_with(fds: Seq<Option<FileHandle>>, fd: int, file: FileHandle) -> Seq<Option<FileHandle>> {
    if fd < fds.len() {
        fds.update(fd, Some(file))
    } else {
        fds.push(Some(file))
    }
}

/// Writing to descriptor `fd`: the file to write to, or `FS_ERROR` when
/// `fd` is out of range, empty, or names a file that is not writable.
pub fn sys_write(inner: &ProcessControlBlockInner, fd: usize) -> (r: Result<FileHandle, isize>)
    ensures
        match open_file_at(*inner, fd as int) {
            Some(f) => if f.writable {
                r == Ok::<FileHandle, isize>(f)
            } else {
                r == Err::<FileHandle, isize>(FS_ERROR)
            },
            None => r == Err::<FileHandle, isize>(FS_ERROR),
        },
{
    if fd >= inner.fd_table.len() {
        return Err(FS_ERROR);
    }
    match inner.fd_table[fd] {
        Some(file) => {
            if !file.writable {
                return Err(FS_ERROR);
            }
            Ok(file)
        },
        None => Err(FS_ERROR),
    }
}

/// Reading from descriptor `fd`: the file to read from, or `FS_ERROR` when
/// `fd` is out of range, empty, or names a file that is not readable.
pub fn sys_read(inner: &ProcessControlBlockInner, fd: usize) -> (r: Result<FileHandle, isize>)
    ensures
        match open_file_at(*inner, fd as int) {
            Some(f) => if f.readable {
                r == Ok::<FileHandle, isize>(f)
            } else {
                r == Err::<FileHandle, isize>(FS_ERROR)
            },
            None => r == Err::<FileHandle, isize>(FS_ERROR),
        },
{
    if fd >= inner.fd_table.len() {
        return Err(FS_ERROR);
    }
    match inner.fd_table[fd] {
        Some(file) => {
            if !file.readable {
                return Err(FS_ERROR);
            }
            Ok(file)
        },
        None => Err(FS_ERROR),
    }
}

/// Installs the file the kernel opened (`None` when the path could not be
/// opened) under a new descriptor: the lowest free one, or a new one.
/// Returns the descriptor, or `FS_ERROR` when nothing was opened.
pub fn sys_open(inner: &mut ProcessControlBlockInner, opened: Option<FileHandle>) -> (r: isize)
    requires
        old(inner).fd_table@.len() < isize::MAX,
    ensures
        match opened {
            Some(f) => {
                &&& is_first_free(old(inner).fd_table@, r as int)
                &&& final(inner).fd_table@ == fds_with(old(inner).fd_table@, r as int, f)
                &&& final(inner).same_except_fds(old(inner))
            },
            None => r == FS_ERROR && *final(inner) == *old(inner),
        },
{
    match opened {
        Some(file) => {
            let fd = inner.alloc_fd();
            inner.fd_table.set(fd, Some(file));
            fd as isize
        },
        None => FS_ERROR,
    }
}

/// Closes descriptor `fd`.  Returns 0, or `FS_ERROR` (changing nothing)
/// when `fd` is out of range or already empty.
pub fn sys_close(inner: &mut ProcessControlBlockInner, fd: usize) -> (r: isize)
    ensures
        open_file_at(*old(inner), fd as int) is Some ==> r == 0 && final(inner).fd_table@ == old(
            inner,
        ).fd_table@.update(fd as int, None) && final(inner).same_except_fds(old(inner)),
        open_file_at(*old(inner), fd as int) is None ==> r == FS_ERROR && *final(inner) == *old(
            inner,
        ),
{
    if fd >= inner.fd_table.len() {
        return FS_ERROR;
    }
    if inner.fd_table[fd].is_none() {
        return FS_ERROR;
    }
    inner.fd_table.set(fd, None);
    0
}

/// Looks up descriptor `fd` for reading its status: the file, or
/// `FS_ERROR` when `fd` is out of range or empty.
pub fn sys_fstat(inner: &ProcessControlBlockInner, fd: usize) -> (r: Result<FileHandle, isize>)
    ensures
        match open_file_at(*inner, fd as int) {
            Some(f) => r == Ok::<FileHandle, isize>(f),
            None => r == Err::<FileHandle, isize>(FS_ERROR),
        },
{
    if fd >= inner.fd_table.len() {
        return Err(FS_ERROR);
    }
    match inner.fd_table[fd] {
        Some(file) => Ok(file),
        None => Err(FS_ERROR),
    }
}

/// Whether two byte strings are equal.
fn same_bytes(a: &[u8], b: &[u8]) -> (r: bool)
    ensures
        r == (a@ == b@),
{
    if a.len() != b.len() {
        return false;
    }
    let mut i: usize = 0;
    while i < a.len()
        invariant
            i <= a@.len(),
            a@.len() == b@.len(),
            forall|k: int| 0 <= k < i ==> #[trigger] a@[k] == b@[k],
        decreases a@.len() - i,
    {
        if a[i] != b[i] {
            return false;
        }
        i = i + 1;
    }
    assert(a@ =~= b@);
    true
}

/// Creating the hard link `new_path` to `old_path`.  When the paths are
/// the same, returns `LINK_SAME_PATH`.  Otherwise the file opened at
/// `old_path` (read-only) is installed under a new descriptor, as by
/// `sys_open`, and returned: the kernel links it under `new_path`.
pub fn sys_linkat(
    inner: &mut ProcessControlBlockInner,
    old_path: &[u8],
    new_path: &[u8],
    opened: Option<FileHandle>,
) -> (r: Result<FileHandle, isize>)
    requires
        old(inner).fd_table@.len() < isize::MAX,
        old_path@ != new_path@ ==> opened is Some,
    ensures
        old_path@ == new_path@ ==> r == Err::<FileHandle, isize>(LINK_SAME_PATH) && *final(inner)
            == *old(inner),
        old_path@ != new_path@ ==> r == Ok::<FileHandle, isize>(opened->0) && final(inner).fd_table@
            == fds_with(old(inner).fd_table@, first_free_fd(old(inner).fd_table@), opened->0)
            && final(inner).same_except_fds(old(inner)),
{
    if same_bytes(old_path, new_path) {
        return Err(LINK_SAME_PATH);
    }
    open_installed(inner, opened)
}

/// Removing the link `path`: the file opened at `path` (read-only) is
/// installed under a new descriptor, as by `sys_open`, and returned: the
/// kernel unlinks `path` through it.
pub fn sys_unlinkat(inner: &mut ProcessControlBlockInner, opened: Option<FileHandle>) -> (r: Result<FileHandle, isize>)
    requires
        old(inner).fd_table@.len() < isize::MAX,
        opened is Some,
    ensures
        r == Ok::<FileHandle, isize>(opened->0),
        final(inner).fd_table@ == fds_with(old(inner).fd_table@, first_free_fd(old(inner).fd_table@), opened->0),
        final(inner).same_except_fds(old(inner)),
{
    open_installed(inner, opened)
}

/// The lowest free descriptor of `fds`, or `fds.len()` when all are taken.
pub open spec fn first_free_fd(fds: Seq<Option<FileHandle>>) -> int
    decreases fds.len(),
{
    if fds.len() == 0 {
        0
    } else if first_free_fd(fds.drop_last()) < fds.len() - 1 {
        first_free_fd(fds.drop_last())
    } else if fds.last() is None {
        fds.len() - 1
    } else {
        fds.len() as int
    }
}

/// `first_free_fd` is the lowest free descriptor.
pub proof fn lemma_first_free_fd(fds: Seq<Option<FileHandle>>, fd: int)
    ensures
        is_first_free(fds, first_free_fd(fds)),
        is_first_free(fds, fd) ==> fd == first_free_fd(fds),
    decreases fds.len(),
{
    if fds.len() > 0 {
        let p = fds.drop_last();
        lemma_first_free_fd(p, fd);
        let q = first_free_fd(p);
        assert forall|k: int| 0 <= k < p.len() implies #[trigger] p[k] == fds[k] by {}
        assert(fds.last() == fds[fds.len() - 1]);
        assert forall|k: int| 0 <= k < q && k < p.len() implies #[trigger] fds[k] is Some by {
            assert(p[k] is Some);
        }
        if q < p.len() {
            assert(first_free_fd(fds) == q);
            assert(is_first_free(fds, q));
        } else if fds.last() is None {
            assert(first_free_fd(fds) == fds.len() - 1);
            assert(is_first_free(fds, fds.len() - 1));
        } else {
            assert(first_free_fd(fds) == fds.len());
            assert(is_first_free(fds, fds.len() as int));
        }
        if is_first_free(fds, fd) {
            if fd < fds.len() - 1 {
                assert(is_first_free(p, fd));
            } else {
                assert(is_first_free(p, p.len() as int));
                lemma_first_free_fd(p, p.len() as int);
            }
        }
    }
}

/// Installs the opened file, then reads it back from its descriptor.
fn open_installed(inner: &mut ProcessControlBlockInner, opened: Option<FileHandle>) -> (r: Result<FileHandle, isize>)
    requires
        old(inner).fd_table@.len() < isize::MAX,
        opened is Some,
    ensures
        r == Ok::<FileHandle, isize>(opened->0),
        final(inner).fd_table@ == fds_with(old(inner).fd_table@, first_free_fd(old(inner).fd_table@), opened->0),
        final(inner).same_except_fds(old(inner)),
{
    let fd = sys_open(inner, opened) as usize;
    proof {
        lemma_first_free_fd(old(inner).fd_table@, fd as int);
    }
    match inner.fd_table[fd] {
        Some(file) => Ok(file),
        None => Err(LINK_NO_FILE),
    }
}

/// After `sys_close(fd)` succeeds, the next descriptor handed out (by
/// `sys_open` or `alloc_fd`) is `fd` or a lower one.
pub proof fn lemma_close_then_open_reuses(fds: Seq<Option<FileHandle>>, fd: int)
    requires
        0 <= fd < fds.len(),
        fds[fd] is Some,
    ensures
        first_free_fd(fds.update(fd, None)) <= fd,
{
    let after = fds.update(fd, None);
    lemma_first_free_fd(after, fd);
}

/// Opening a file and closing its new descriptor gives back the table, with
/// one more empty slot at the end when the table had no free slot.
pub proof fn lemma_open_then_close(fds: Seq<Option<FileHandle>>, f: FileHandle)
    ensures
        ({
            let fd = first_free_fd(fds);
            let back = fds_with(fds, fd, f).update(fd, None);
            &&& fd < fds.len() ==> back == fds
            &&& fd == fds.len() ==> back == fds.push(None)
        }),
{
    let fd = first_free_fd(fds);
    lemma_first_free_fd(fds, fd);
    let back = fds_with(fds, fd, f).update(fd, None);
    if fd < fds.len() {
        assert(back =~= fds);
    } else {
        assert(back =~= fds.push(None));
    }
}

} // verus!
