//! A verified model of a POSIX system call layer for isolated processes ("cages").
pub mod errno;
pub mod assoc;
pub mod fs_constants;
pub mod path;
pub mod filesystem;
pub mod net;
pub mod cage;
pub mod fs_calls;
pub mod fs_stat;
pub mod pipe;
pub mod fs_io;
pub mod fd_calls;
pub mod sync;
pub mod shm;
pub mod sys_calls;
pub mod process;
pub mod net_calls;
pub mod mmap;
pub mod laws;
pub mod unix_net;
pub mod sock_io;
pub mod sock_conn;
pub mod readiness;
pub mod inet;
