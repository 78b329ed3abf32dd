//! Constants and small helpers of the file system calls.
use vstd::prelude::*;

verus! {

pub const STARTINGFD: i32 = 0;
pub const MAXFD: i32 = 1024;

pub const ROOTDIRECTORYINODE: usize = 1;
pub const STREAMINODE: usize = 2;

pub const F_OK: u32 = 0;
pub const X_OK: u32 = 1;
pub const W_OK: u32 = 2;
pub const R_OK: u32 = 4;

pub const O_RDONLY: i32 = 0o0;
pub const O_WRONLY: i32 = 0o1;
pub const O_RDWR: i32 = 0o2;
pub const O_RDWRFLAGS: i32 = 0o3;

pub const O_CREAT: i32 = 0o100;
pub const O_EXCL: i32 = 0o200;
pub const O_NOCTTY: i32 = 0o400;
pub const O_TRUNC: i32 = 0o1000;
pub const O_APPEND: i32 = 0o2000;
pub const O_NONBLOCK: i32 = 0o4000;
pub const O_SYNC: i32 = 0o10000;
pub const O_ASYNC: i32 = 0o20000;
pub const O_CLOEXEC: i32 = 0o2000000;

pub const DEFAULTTIME: u64 = 1323630836;

pub const DEFAULT_UID: u32 = 1000;
pub const DEFAULT_GID: u32 = 1000;

pub const S_IRWXA: u32 = 0o777;
pub const S_IRWXU: u32 = 0o700;
pub const S_IRUSR: u32 = 0o400;
pub const S_IWUSR: u32 = 0o200;
pub const S_IXUSR: u32 = 0o100;
pub const S_IRWXG: u32 = 0o070;
pub const S_IRGRP: u32 = 0o040;
pub const S_IWGRP: u32 = 0o020;
pub const S_IXGRP: u32 = 0o010;
pub const S_IRWXO: u32 = 0o007;
pub const S_IROTH: u32 = 0o004;
pub const S_IWOTH: u32 = 0o002;
pub const S_IXOTH: u32 = 0o001;

pub const F_DUPFD: i32 = 0;
pub const F_GETFD: i32 = 1;
pub const F_SETFD: i32 = 2;
pub const F_GETFL: i32 = 3;
pub const F_SETFL: i32 = 4;
pub const F_GETLK: i32 = 5;
pub const F_SETLK: i32 = 6;
pub const F_SETLKW: i32 = 7;
pub const F_SETOWN: i32 = 8;
pub const F_GETOWN: i32 = 9;

pub const S_IFBLK: i32 = 0o60000;
pub const S_IFCHR: i32 = 0o20000;
pub const S_IFDIR: i32 = 0o40000;
pub const S_IFIFO: i32 = 0o10000;
pub const S_IFLNK: i32 = 0o120000;
pub const S_IFREG: i32 = 0o100000;
pub const S_IFSOCK: i32 = 0o140000;
pub const S_FILETYPEFLAGS: i32 = 0o170000;

pub const LOCK_SH: i32 = 1;
pub const LOCK_EX: i32 = 2;
pub const LOCK_UN: i32 = 8;
pub const LOCK_NB: i32 = 4;

pub const MAP_SHARED: i32 = 1;
pub const MAP_PRIVATE: i32 = 2;
pub const MAP_FIXED: i32 = 16;
pub const MAP_ANONYMOUS: i32 = 32;

pub const PROT_NONE: i32 = 0;
pub const PROT_READ: i32 = 1;
pub const PROT_WRITE: i32 = 2;
pub const PROT_EXEC: i32 = 4;

pub const SEEK_SET: i32 = 0;
pub const SEEK_CUR: i32 = 1;
pub const SEEK_END: i32 = 2;

/// Major and minor number of a character device.
#[derive(Clone, Copy, Debug, PartialEq, Eq, Structural)]
pub struct DevNo {
    pub major: u32,
    pub minor: u32,
}

/// Device number of `/dev/null`.
pub open spec fn nulldevno() -> DevNo {
    DevNo { major: 1, minor: 3 }
}

/// Device number of `/dev/zero`.
pub open spec fn zerodevno() -> DevNo {
    DevNo { major: 1, minor: 5 }
}

/// Device number of `/dev/random`.
pub open spec fn randomdevno() -> DevNo {
    DevNo { major: 1, minor: 8 }
}

/// Device number of `/dev/urandom`.
pub open spec fn urandomdevno() -> DevNo {
    DevNo { major: 1, minor: 9 }
}

/// What `stat` and `fstat` report of a file.
#[derive(Clone, Copy, Debug)]
pub struct StatData {
    pub st_dev: u64,
    pub st_ino: usize,
    pub st_mode: u32,
    pub st_nlink: u32,
    pub st_uid: u32,
    pub st_gid: u32,
    pub st_rdev: u64,
    pub st_size: usize,
    pub st_blksize: isize,
    pub st_blocks: usize,
    pub st_atim: (u64, u64),
    pub st_mtim: (u64, u64),
    pub st_ctim: (u64, u64),
}

impl StatData {
    /// A record with every field zero.
    pub fn zeroed() -> (s: StatData)
        ensures
            s == (StatData {
                st_dev: 0, st_ino: 0, st_mode: 0, st_nlink: 0, st_uid: 0, st_gid: 0, st_rdev: 0,
                st_size: 0, st_blksize: 0, st_blocks: 0, st_atim: (0, 0), st_mtim: (0, 0),
                st_ctim: (0, 0),
            }),
    {
        StatData {
            st_dev: 0, st_ino: 0, st_mode: 0, st_nlink: 0, st_uid: 0, st_gid: 0, st_rdev: 0,
            st_size: 0, st_blksize: 0, st_blocks: 0, st_atim: (0, 0), st_mtim: (0, 0),
            st_ctim: (0, 0),
        }
    }
}

pub open spec fn file_type(mode: u32) -> i32 {
    (mode as i32) & S_FILETYPEFLAGS
}

/// Whether `mode` describes a regular file.
pub fn is_reg(mode: u32) -> (r: bool)
    ensures
        r == (file_type(mode) == S_IFREG),
{
    (mode as i32 & S_FILETYPEFLAGS) == S_IFREG
}

/// Whether `mode` describes a character device.
pub fn is_chr(mode: u32) -> (r: bool)
    ensures
        r == (file_type(mode) == S_IFCHR),
{
    (mode as i32 & S_FILETYPEFLAGS) == S_IFCHR
}

/// Whether `mode` describes a directory.
pub fn is_dir(mode: u32) -> (r: bool)
    ensures
        r == (file_type(mode) == S_IFDIR),
{
    (mode as i32 & S_FILETYPEFLAGS) == S_IFDIR
}

pub open spec fn spec_is_wronly(flags: i32) -> bool {
    (flags & O_RDWRFLAGS) == O_WRONLY
}

pub open spec fn spec_is_rdonly(flags: i32) -> bool {
    (flags & O_RDWRFLAGS) == O_RDONLY
}

/// Whether the access mode in `flags` is write-only.
#[verifier::when_used_as_spec(spec_is_wronly)]
pub fn is_wronly(flags: i32) -> (r: bool)
    ensures
        r == spec_is_wronly(flags),
{
    (flags & O_RDWRFLAGS) == O_WRONLY
}

/// Whether the access mode in `flags` is read-only.
#[verifier::when_used_as_spec(spec_is_rdonly)]
pub fn is_rdonly(flags: i32) -> (r: bool)
    ensures
        r == spec_is_rdonly(flags),
{
    (flags & O_RDWRFLAGS) == O_RDONLY
}

/// The device number that glibc's `makedev` packs from a major and a minor number.
pub open spec fn spec_makedev(major: u32, minor: u32) -> u64 {
    (((major as u64) & 0x00000fffu64) << 8u64) | (((major as u64) & 0xfffff000u64) << 32u64) | (
    (minor as u64) & 0x000000ffu64) | (((minor as u64) & 0xffffff00u64) << 12u64)
}

pub open spec fn spec_major(devnum: u64) -> u32 {
    (((devnum & 0x00000000000fff00u64) >> 8u64) | ((devnum & 0xfffff00000000000u64) >> 32u64)) as u32
}

pub open spec fn spec_minor(devnum: u64) -> u32 {
    ((devnum & 0x00000000000000ffu64) | ((devnum & 0x00000ffffff00000u64) >> 12u64)) as u32
}

/// Packs a device number as glibc's `makedev` does.
pub fn makedev(dev: &DevNo) -> (r: u64)
    ensures
        r == spec_makedev(dev.major, dev.minor),
{
    ((dev.major as u64 & 0x00000fff) << 8) | ((dev.major as u64 & 0xfffff000) << 32) | (dev.minor as u64
        & 0x000000ff) | ((dev.minor as u64 & 0xffffff00) << 12)
}

/// The major number of a packed device number, as glibc's `major`.
pub fn major(devnum: u64) -> (r: u32)
    ensures
        r == spec_major(devnum),
{
    (((devnum & 0x00000000000fff00) >> 8) | ((devnum & 0xfffff00000000000) >> 32)) as u32
}

/// The minor number of a packed device number, as glibc's `minor`.
pub fn minor(devnum: u64) -> (r: u32)
    ensures
        r == spec_minor(devnum),
{
    ((devnum & 0x00000000000000ff) | ((devnum & 0x00000ffffff00000) >> 12)) as u32
}

/// Splits a packed device number into its major and minor numbers.
pub fn devtuple(devnum: u64) -> (r: DevNo)
    ensures
        r == (DevNo { major: spec_major(devnum), minor: spec_minor(devnum) }),
{
    DevNo { major: major(devnum), minor: minor(devnum) }
}

/// Unpacking a packed device number gives back the major and minor numbers it was made from.
pub proof fn lemma_devtuple_makedev(major: u32, minor: u32)
    ensures
        spec_major(spec_makedev(major, minor)) == major,
        spec_minor(spec_makedev(major, minor)) == minor,
{
    assert(spec_major(spec_makedev(major, minor)) == major) by (bit_vector);
    assert(spec_minor(spec_makedev(major, minor)) == minor) by (bit_vector);
}

} // verus!
