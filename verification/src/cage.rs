//! A cage (an emulated process): its file descriptor table and the other per-process state
//! that the system calls read and change.
use vstd::prelude::*;
use crate::errno::{err, syscall_error, ENFILE};
use crate::fs_constants::{MAXFD, STARTINGFD, O_RDWR, O_WRONLY};
use crate::filesystem::{FilesystemMetadata, AdvisoryLock};
use crate::path::{comps_view, is_normal};
use crate::assoc::keys_unique;

verus! {

/// An open regular file, directory or character device.
#[derive(Clone, Copy, Debug)]
pub struct FileDesc {
    pub position: usize,
    pub inode: usize,
    pub flags: i32,
    pub advlock: usize,
}

/// One of the standard streams.
#[derive(Clone, Copy, Debug)]
pub struct StreamDesc {
    pub position: usize,
    pub stream: i32,
    pub flags: i32,
    pub advlock: usize,
}

/// An open socket; `handle` indexes the shared socket handles.
#[derive(Clone, Copy, Debug)]
pub struct SocketDesc {
    pub flags: i32,
    pub domain: i32,
    pub rawfd: i32,
    pub handle: usize,
    pub advlock: usize,
}

/// One end of a pipe; `pipe` indexes the pipes of the file system.
#[derive(Clone, Copy, Debug)]
pub struct PipeDesc {
    pub pipe: usize,
    pub flags: i32,
    pub advlock: usize,
}

/// An epoll instance; `registered` indexes the cage's epoll registration lists.
#[derive(Clone, Copy, Debug)]
pub struct EpollDesc {
    pub mode: i32,
    pub registered: usize,
    pub advlock: usize,
    pub errno: i32,
    pub flags: i32,
}

#[derive(Clone, Copy, Debug)]
pub enum FileDescriptor {
    File(FileDesc),
    Stream(StreamDesc),
    Socket(SocketDesc),
    Pipe(PipeDesc),
    Epoll(EpollDesc),
}

impl FileDescriptor {
    /// The flags of any kind of descriptor.
    pub open spec fn flags(self) -> i32 {
        match self {
            FileDescriptor::File(f) => f.flags,
            FileDescriptor::Stream(f) => f.flags,
            FileDescriptor::Socket(f) => f.flags,
            FileDescriptor::Pipe(f) => f.flags,
            FileDescriptor::Epoll(f) => f.flags,
        }
    }

    /// The advisory lock of any kind of descriptor.
    pub open spec fn advlock(self) -> usize {
        match self {
            FileDescriptor::File(f) => f.advlock,
            FileDescriptor::Stream(f) => f.advlock,
            FileDescriptor::Socket(f) => f.advlock,
            FileDescriptor::Pipe(f) => f.advlock,
            FileDescriptor::Epoll(f) => f.advlock,
        }
    }

    /// The same descriptor with other flags.
    pub open spec fn with_flags(self, flags: i32) -> FileDescriptor {
        match self {
            FileDescriptor::File(f) => FileDescriptor::File(FileDesc { flags, ..f }),
            FileDescriptor::Stream(f) => FileDescriptor::Stream(StreamDesc { flags, ..f }),
            FileDescriptor::Socket(f) => FileDescriptor::Socket(SocketDesc { flags, ..f }),
            FileDescriptor::Pipe(f) => FileDescriptor::Pipe(PipeDesc { flags, ..f }),
            FileDescriptor::Epoll(f) => FileDescriptor::Epoll(EpollDesc { flags, ..f }),
        }
    }

    pub fn get_flags(&self) -> (r: i32)
        ensures
            r == self.flags(),
    {
        match self {
            FileDescriptor::File(f) => f.flags,
            FileDescriptor::Stream(f) => f.flags,
            FileDescriptor::Socket(f) => f.flags,
            FileDescriptor::Pipe(f) => f.flags,
            FileDescriptor::Epoll(f) => f.flags,
        }
    }

    pub fn get_advlock(&self) -> (r: usize)
        ensures
            r == self.advlock(),
    {
        match self {
            FileDescriptor::File(f) => f.advlock,
            FileDescriptor::Stream(f) => f.advlock,
            FileDescriptor::Socket(f) => f.advlock,
            FileDescriptor::Pipe(f) => f.advlock,
            FileDescriptor::Epoll(f) => f.advlock,
        }
    }

    pub fn set_flags(&self, flags: i32) -> (r: FileDescriptor)
        ensures
            r == self.with_flags(flags),
    {
        match *self {
            FileDescriptor::File(f) => FileDescriptor::File(FileDesc { flags, ..f }),
            FileDescriptor::Stream(f) => FileDescriptor::Stream(StreamDesc { flags, ..f }),
            FileDescriptor::Socket(f) => FileDescriptor::Socket(SocketDesc { flags, ..f }),
            FileDescriptor::Pipe(f) => FileDescriptor::Pipe(PipeDesc { flags, ..f }),
            FileDescriptor::Epoll(f) => FileDescriptor::Epoll(EpollDesc { flags, ..f }),
        }
    }
}

/// A slot of the mutex table that holds a mutex; the lock itself lives in the host, which
/// keeps one host mutex per slot.
#[derive(Clone, Copy, Debug)]
pub struct RawMutex {}

/// A slot of the condition variable table that holds a condition variable; waiting and
/// waking are done by the host, which keeps one host condition variable per slot.
#[derive(Clone, Copy, Debug)]
pub struct RawCondvar {}

/// A counting semaphore.
#[derive(Clone, Copy, Debug)]
pub struct Semaphore {
    pub value: u32,
    pub is_shared: bool,
}

/// The action installed for a signal.
#[derive(Clone, Copy, Debug)]
pub struct SigactionStruct {
    pub sa_handler: u32,
    pub sa_mask: u64,
    pub sa_flags: i32,
}

/// Seconds and microseconds of a timer value.
#[derive(Clone, Copy, Debug)]
pub struct TimeVal {
    pub tv_sec: i64,
    pub tv_usec: i64,
}

/// An interval timer value as `setitimer` takes and gives it: time to the next expiry and
/// the reload interval.
#[derive(Clone, Copy, Debug)]
pub struct ITimerVal {
    pub it_interval: TimeVal,
    pub it_value: TimeVal,
}

/// A length of time: whole seconds and nanoseconds below one second.
#[derive(Clone, Copy, Debug)]
pub struct Span {
    pub secs: u64,
    pub nanos: u32,
}

/// The real-time interval timer of a cage, as last set: the time to the next expiry and the
/// reload interval. Counting down and raising the alarm are the host's.
#[derive(Clone, Copy, Debug)]
pub struct IntervalTimer {
    pub curr: Span,
    pub next: Span,
}

/// One fd registered with an epoll instance.
#[derive(Clone, Copy, Debug)]
pub struct EpollEvent {
    pub events: u32,
    pub fd: i32,
}

/// A cage: one emulated process.
pub struct Cage {
    pub cageid: u64,
    pub cwd: Vec<Vec<u8>>,
    pub parent: u64,
    pub filedescriptortable: Vec<Option<FileDescriptor>>,
    pub cancelstatus: bool,
    pub getgid: i32,
    pub getuid: i32,
    pub getegid: i32,
    pub geteuid: i32,
    pub rev_shm: Vec<(u32, i32)>,
    pub mutex_table: Vec<Option<RawMutex>>,
    pub cv_table: Vec<Option<RawCondvar>>,
    pub sem_table: Vec<(u32, Semaphore)>,
    pub signalhandler: Vec<(i32, SigactionStruct)>,
    pub sigset: u64,
    pub pendingsigset: u64,
    pub main_threadid: u64,
    pub interval_timer: IntervalTimer,
    pub epoll_table: Vec<Vec<(i32, EpollEvent)>>,
}

impl Cage {
    /// The descriptor at `fd`.
    pub open spec fn fd(&self, fd: int) -> Option<FileDescriptor> {
        self.filedescriptortable@[fd]
    }

    /// The working directory as normalized components.
    pub open spec fn cwd_view(&self) -> Seq<Seq<u8>> {
        comps_view(self.cwd@)
    }

    /// Every descriptor's advisory lock, pipe and epoll list exist.
    pub open spec fn refs_ok(&self, fs: &FilesystemMetadata) -> bool {
        forall|i: int|
            0 <= i < self.filedescriptortable@.len() ==> desc_ok(
                #[trigger] self.filedescriptortable@[i],
                fs@.locks.len(),
                fs@.pipes.len(),
                fs@.sockets.len(),
                self.epoll_table@.len(),
            )
    }

    /// The cage's own invariant: a full descriptor table, a normalized working directory, and
    /// no semaphore handle, signal or registered descriptor twice in their tables.
    pub open spec fn wf(&self) -> bool {
        &&& self.filedescriptortable@.len() == MAXFD
        &&& is_normal(self.cwd_view())
        &&& sems_unique(self.sem_table@)
        &&& keys_unique(self.signalhandler@)
        &&& forall|i: int| 0 <= i < self.epoll_table@.len() ==> keys_unique((#[trigger] self.epoll_table@[i])@)
    }

    /// Everything the system calls here rely on.
    pub open spec fn inv(&self, fs: &FilesystemMetadata) -> bool {
        &&& self.wf()
        &&& fs.wf()
        &&& self.refs_ok(fs)
    }

    /// The lowest free descriptor number at or above `start`, if there is one.
    pub open spec fn lowest_free(&self, start: int) -> Option<i32> {
        seq_lowest_free(self.filedescriptortable@, start)
    }

    /// Finds the lowest free descriptor number at or above `start`.
    pub fn get_next_fd(&self, start: i32) -> (r: Option<i32>)
        requires
            self.wf(),
            0 <= start,
        ensures
            r == self.lowest_free(start as int),
            match r {
                Some(f) => start <= f < MAXFD && self.fd(f as int) is None && forall|g: int|
                    start <= g < f ==> self.fd(g) is Some,
                None => forall|g: int| start <= g < MAXFD ==> self.fd(g) is Some,
            },
    {
        let ghost fds = self.filedescriptortable@;
        let mut f: i32 = start;
        while f < MAXFD
            invariant
                self.wf(),
                fds == self.filedescriptortable@,
                0 <= start <= f,
                f <= MAXFD || f == start,
                forall|g: int| start <= g < f ==> fds[g] is Some,
            decreases MAXFD - f,
        {
            if self.filedescriptortable[f as usize].is_none() {
                proof {
                    assert(fds[f as int] is None);
                    let c = choose|h: int|
                        start <= h < MAXFD && #[trigger] fds[h] is None && forall|g: int|
                            start <= g < h ==> fds[g] is Some;
                    if c < f {
                        assert(fds[c] is Some);
                    }
                    if f < c {
                        assert(fds[f as int] is Some);
                    }
                    assert(c == f);
                }
                return Some(f);
            }
            f = f + 1;
        }
        proof {
            if exists|h: int| start <= h < MAXFD && #[trigger] fds[h] is None {
                let h = choose|h: int| start <= h < MAXFD && #[trigger] fds[h] is None;
                assert(fds[h] is Some);
            }
        }
        None
    }

    /// Puts a descriptor (or nothing) at `fd`.
    pub fn set_fd(&mut self, fd: i32, d: Option<FileDescriptor>)
        requires
            old(self).wf(),
            0 <= fd < MAXFD,
        ensures
            final(self).filedescriptortable@ == old(self).filedescriptortable@.update(fd as int, d),
            final(self).wf(),
            same_but_fds(*old(self), *final(self)),
    {
        self.filedescriptortable.set(fd as usize, d);
    }

    /// The descriptor at `fd`.
    pub fn get_fd(&self, fd: i32) -> (r: Option<FileDescriptor>)
        requires
            self.wf(),
            0 <= fd < MAXFD,
        ensures
            r == self.fd(fd as int),
    {
        self.filedescriptortable[fd as usize]
    }
}

/// A descriptor whose advisory lock, pipe and epoll list exist.
pub open spec fn desc_ok(d: Option<FileDescriptor>, nlocks: nat, npipes: nat, nsockets: nat, nepolls: nat) -> bool {
    match d {
        Some(d) => {
            &&& d.advlock() < nlocks
            &&& (d matches FileDescriptor::Pipe(p) ==> p.pipe < npipes)
            &&& (d matches FileDescriptor::Socket(s) ==> s.handle < nsockets)
            &&& (d matches FileDescriptor::Epoll(e) ==> e.registered < nepolls)
        },
        None => true,
    }
}

/// The references of a descriptor table stay valid when the tables they point into grow
/// and one slot is replaced by a valid descriptor.
pub proof fn lemma_refs_ok_update(
    a: &Cage,
    b: &Cage,
    fa: &FilesystemMetadata,
    fb: &FilesystemMetadata,
    fd: int,
    d: Option<FileDescriptor>,
)
    requires
        a.refs_ok(fa),
        b.filedescriptortable@ == a.filedescriptortable@.update(fd, d) || b.filedescriptortable@ == a.filedescriptortable@,
        0 <= fd < a.filedescriptortable@.len(),
        fa@.locks.len() <= fb@.locks.len(),
        fa@.pipes.len() <= fb@.pipes.len(),
        fa@.sockets.len() <= fb@.sockets.len(),
        a.epoll_table@.len() <= b.epoll_table@.len(),
        desc_ok(d, fb@.locks.len(), fb@.pipes.len(), fb@.sockets.len(), b.epoll_table@.len()),
    ensures
        b.refs_ok(fb),
{
    assert forall|i: int| 0 <= i < b.filedescriptortable@.len() implies desc_ok(
        #[trigger] b.filedescriptortable@[i],
        fb@.locks.len(),
        fb@.pipes.len(),
        fb@.sockets.len(),
        b.epoll_table@.len(),
    ) by {
        if b.filedescriptortable@[i] != d {
            assert(b.filedescriptortable@[i] == a.filedescriptortable@[i]);
            assert(desc_ok(a.filedescriptortable@[i], fa@.locks.len(), fa@.pipes.len(), fa@.sockets.len(), a.epoll_table@.len()));
        }
    }
}

/// The lowest free slot of a descriptor table at or above `start`, if there is one.
pub open spec fn seq_lowest_free(fds: Seq<Option<FileDescriptor>>, start: int) -> Option<i32> {
    if exists|f: int| start <= f < MAXFD && #[trigger] fds[f] is None {
        Some(
            (choose|f: int|
                start <= f < MAXFD && #[trigger] fds[f] is None && forall|g: int|
                    start <= g < f ==> fds[g] is Some) as i32,
        )
    } else {
        None
    }
}

/// No semaphore handle occurs twice in a semaphore table.
pub open spec fn sems_unique(t: Seq<(u32, Semaphore)>) -> bool {
    keys_unique(t)
}

/// Two cages that differ at most in their descriptor tables.
pub open spec fn same_but_fds(a: Cage, b: Cage) -> bool {
    &&& a.cageid == b.cageid
    &&& a.cwd == b.cwd
    &&& a.parent == b.parent
    &&& a.cancelstatus == b.cancelstatus
    &&& a.getgid == b.getgid
    &&& a.getuid == b.getuid
    &&& a.getegid == b.getegid
    &&& a.geteuid == b.geteuid
    &&& a.rev_shm == b.rev_shm
    &&& a.mutex_table == b.mutex_table
    &&& a.cv_table == b.cv_table
    &&& a.sem_table == b.sem_table
    &&& a.signalhandler == b.signalhandler
    &&& a.sigset == b.sigset
    &&& a.pendingsigset == b.pendingsigset
    &&& a.main_threadid == b.main_threadid
    &&& a.interval_timer == b.interval_timer
    &&& a.epoll_table == b.epoll_table
}

} // verus!
