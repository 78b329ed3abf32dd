//! Error numbers returned (negated) by the system calls.
use vstd::prelude::*;

verus! {

pub const EPERM: i32 = 1;
pub const ENOENT: i32 = 2;
pub const ESRCH: i32 = 3;
pub const EIO: i32 = 5;
pub const ENXIO: i32 = 6;
pub const ENOEXEC: i32 = 8;
pub const EBADF: i32 = 9;
pub const EAGAIN: i32 = 11;
pub const EACCES: i32 = 13;
pub const EBUSY: i32 = 16;
pub const EEXIST: i32 = 17;
pub const ENOTDIR: i32 = 20;
pub const EISDIR: i32 = 21;
pub const EINVAL: i32 = 22;
pub const ENFILE: i32 = 23;
pub const ENOTTY: i32 = 25;
pub const ESPIPE: i32 = 29;
pub const EROFS: i32 = 30;
pub const EPIPE: i32 = 32;
pub const EINTR: i32 = 4;
pub const ERANGE: i32 = 34;
pub const ENOTEMPTY: i32 = 39;
pub const EOVERFLOW: i32 = 75;
pub const ENOTSOCK: i32 = 88;
pub const ENOPROTOOPT: i32 = 92;
pub const EOPNOTSUPP: i32 = 95;
pub const EADDRINUSE: i32 = 98;
pub const EISCONN: i32 = 106;
pub const ENOTCONN: i32 = 107;
pub const ETIMEDOUT: i32 = 110;
pub const EINPROGRESS: i32 = 115;
pub const EFBIG: i32 = 27;
pub const EFAULT: i32 = 14;

/// The value a failing system call returns for error number `e`.
pub open spec fn err(e: i32) -> int {
    -e
}

/// Turns an error number into the (negative) return value of a system call.
pub fn syscall_error(e: i32) -> (r: i32)
    requires
        0 < e < 4096,
    ensures
        r == err(e),
        r < 0,
{
    -e
}

} // verus!
