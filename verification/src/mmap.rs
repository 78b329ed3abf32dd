//! `mmap` and `munmap`: the checks on a mapping request. The mapping itself is made by the
//! host once a request passes.
use vstd::prelude::*;
use crate::errno::{err, syscall_error, EACCES, EBADF, EINVAL, ENXIO, EOPNOTSUPP};
use crate::cage::{Cage, FileDescriptor};
use crate::filesystem::{FilesystemMetadata, Inode, InodeView};
use crate::fs_constants::{MAXFD, MAP_ANONYMOUS, MAP_PRIVATE, MAP_SHARED, O_RDWR, O_WRONLY, PROT_WRITE};

verus! {

/// What `mmap` answers: 0 when the host is to map (anonymous memory, or the data of the
/// regular file open at `fildes`), else an error.
pub open spec fn mmap_outcome(c: &Cage, fs: &FilesystemMetadata, len: usize, prot: i32, flags: i32, fildes: i32, off: i64) -> int {
    if len == 0 {
        err(EINVAL)
    } else if flags & (MAP_PRIVATE | MAP_SHARED) == 0 {
        err(EINVAL)
    } else if flags & MAP_PRIVATE != 0 && flags & MAP_SHARED != 0 {
        err(EINVAL)
    } else if flags & MAP_ANONYMOUS != 0 {
        0
    } else {
        match c.fd(fildes as int) {
            None => err(EBADF),
            Some(FileDescriptor::File(f)) => if !fs@.has(f.inode as int) {
                err(EBADF)
            } else {
                match fs@.get(f.inode as int) {
                    InodeView::CharDev(..) => err(EOPNOTSUPP),
                    InodeView::File(m) => if f.flags & O_WRONLY != 0 {
                        err(EACCES)
                    } else if flags & MAP_SHARED != 0 && prot & PROT_WRITE != 0 && f.flags & O_RDWR != O_RDWR {
                        err(EACCES)
                    } else if off < 0 || off > m.size as i64 {
                        err(ENXIO)
                    } else {
                        0
                    },
                    _ => err(EACCES),
                }
            },
            Some(_) => err(EACCES),
        }
    }
}

impl Cage {
    /// Checks a request to map `len` bytes with protection `prot` and `flags`, of anonymous
    /// memory or of the file open at `fildes` from offset `off`.
    pub fn mmap_syscall(&self, fs: &FilesystemMetadata, addr: u64, len: usize, prot: i32, flags: i32, fildes: i32, off: i64) -> (ret: i32)
        requires
            self.wf(),
            len != 0 && flags & (MAP_PRIVATE | MAP_SHARED) != 0 && !(flags & MAP_PRIVATE != 0 && flags & MAP_SHARED != 0)
                && flags & MAP_ANONYMOUS == 0 ==> 0 <= fildes < MAXFD,
        ensures
            ret == mmap_outcome(self, fs, len, prot, flags, fildes, off),
    {
        if len == 0 {
            return syscall_error(EINVAL);
        }
        if flags & (MAP_PRIVATE | MAP_SHARED) == 0 {
            return syscall_error(EINVAL);
        }
        if flags & MAP_PRIVATE != 0 && flags & MAP_SHARED != 0 {
            return syscall_error(EINVAL);
        }
        if flags & MAP_ANONYMOUS != 0 {
            return 0;
        }
        match self.get_fd(fildes) {
            None => syscall_error(EBADF),
            Some(FileDescriptor::File(f)) => {
                if f.inode >= fs.inodetable.len() || fs.inodetable[f.inode].is_none() {
                    return syscall_error(EBADF);
                }
                match &fs.inodetable[f.inode] {
                    Some(Inode::CharDev(_)) => syscall_error(EOPNOTSUPP),
                    Some(Inode::File(node)) => {
                        if f.flags & O_WRONLY != 0 {
                            return syscall_error(EACCES);
                        }
                        if flags & MAP_SHARED != 0 && prot & PROT_WRITE != 0 && f.flags & O_RDWR != O_RDWR {
                            return syscall_error(EACCES);
                        }
                        if off < 0 || off > node.size as i64 {
                            return syscall_error(ENXIO);
                        }
                        0
                    },
                    _ => syscall_error(EACCES),
                }
            },
            Some(_) => syscall_error(EACCES),
        }
    }

    /// Checks a request to unmap `len` bytes at `addr`; 0 lets the host replace them with
    /// inaccessible memory.
    pub fn munmap_syscall(&self, addr: u64, len: usize) -> (ret: i32)
        ensures
            ret == (if len == 0 { err(EINVAL) } else { 0 }),
    {
        if len == 0 {
            return syscall_error(EINVAL);
        }
        0
    }
}

} // verus!
