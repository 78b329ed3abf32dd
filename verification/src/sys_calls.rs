//! Process-level calls: creating a cage, ids, signals, timers and resource limits.
use vstd::prelude::*;
use crate::errno::{err, syscall_error, EINVAL, ESRCH};
use crate::assoc::{assoc_map, keys_unique, lemma_assoc_at, lemma_assoc_absent, lemma_assoc_update, lemma_assoc_push};
use crate::cage::{
    Cage, FileDescriptor, StreamDesc, SigactionStruct, TimeVal, ITimerVal, Span, IntervalTimer,
    same_but_fds, desc_ok,
};
use crate::filesystem::{FilesystemMetadata, FsView, AdvisoryLock};
use crate::fs_constants::{MAXFD, O_RDONLY, O_WRONLY, DEFAULT_UID, DEFAULT_GID};
use crate::path::{comps_view, is_normal};

verus! {

/// Cage ids run below this bound.
pub const MAXCAGEID: i32 = 1024;

pub const NOFILE_CUR: u64 = 1024;
pub const NOFILE_MAX: u64 = 4096;
pub const STACK_CUR: u64 = 8388608;
pub const STACK_MAX: u64 = 4294967296;
pub const RLIMIT_STACK: u64 = 0;
pub const RLIMIT_NOFILE: u64 = 1;

pub const SIGKILL: i32 = 9;
pub const SIGPIPE: i32 = 13;
pub const SIGCHLD: i32 = 17;
pub const SIGSTOP: i32 = 19;
pub const SIG_BLOCK: i32 = 0;
pub const SIG_UNBLOCK: i32 = 1;
pub const SIG_SETMASK: i32 = 2;
pub const ITIMER_REAL: i32 = 0;

/// A soft and a hard resource limit.
#[derive(Clone, Copy, Debug)]
pub struct Rlimit {
    pub rlim_cur: u64,
    pub rlim_max: u64,
}

/// The action of a signal that has none installed: no handler, no mask, no flags.
pub open spec fn default_sigaction() -> SigactionStruct {
    SigactionStruct { sa_handler: 0, sa_mask: 0, sa_flags: 0 }
}

/// The installed signal actions of a cage by signal number.
pub open spec fn handlers(c: &Cage) -> Map<i32, SigactionStruct> {
    assoc_map(c.signalhandler@)
}

/// The descriptor table of a new cage: the three standard streams at 0, 1 and 2, with the
/// advisory locks `l`, `l + 1` and `l + 2`, and nothing else.
pub open spec fn initial_fds(l: usize) -> Seq<Option<FileDescriptor>> {
    Seq::new(MAXFD as nat, |i: int|
        if 0 <= i < 3 {
            Some(FileDescriptor::Stream(StreamDesc {
                position: 0,
                stream: i as i32,
                flags: if i == 0 { O_RDONLY } else { O_WRONLY },
                advlock: (l + i) as usize,
            }))
        } else {
            None
        })
}

/// A span as `Duration::new` makes it from seconds and nanoseconds: whole seconds carried.
pub open spec fn span_of(secs: u64, nanos: u32) -> Span {
    Span { secs: (secs + nanos / 1_000_000_000) as u64, nanos: (nanos % 1_000_000_000) as u32 }
}

/// Whether `span_of(secs, nanos)` has its seconds in range.
pub open spec fn span_fits(secs: u64, nanos: u32) -> bool {
    secs + nanos / 1_000_000_000 <= u64::MAX
}

/// A span as `setitimer` reports it: seconds, and the part below a second in milliseconds.
pub open spec fn report_span(s: Span) -> TimeVal {
    TimeVal { tv_sec: s.secs as i64, tv_usec: (s.nanos / 1_000_000) as i64 }
}

/// Whether `cage_id` names a live cage.
pub open spec fn cage_live(live: Seq<u64>, cage_id: i32) -> bool {
    exists|i: int| 0 <= i < live.len() && live[i] == cage_id as u64
}

/// Two cages that differ at most in their signal masks and pending signals.
pub open spec fn same_but_sigsets(a: Cage, b: Cage) -> bool {
    b == (Cage { sigset: b.sigset, pendingsigset: b.pendingsigset, ..a })
}

fn span_from(secs: u64, nanos: u32) -> (r: Span)
    requires
        span_fits(secs, nanos),
    ensures
        r == span_of(secs, nanos),
{
    Span { secs: secs + (nanos / 1_000_000_000) as u64, nanos: nanos % 1_000_000_000 }
}

fn report(s: Span) -> (r: TimeVal)
    ensures
        r == report_span(s),
{
    TimeVal { tv_sec: s.secs as i64, tv_usec: (s.nanos / 1_000_000) as i64 }
}

fn find_handler(t: &Vec<(i32, SigactionStruct)>, sig: i32) -> (r: Option<usize>)
    requires
        keys_unique(t@),
    ensures
        match r {
            Some(i) => i < t@.len() && t@[i as int].0 == sig && assoc_map(t@).contains_key(sig)
                && assoc_map(t@)[sig] == t@[i as int].1,
            None => !assoc_map(t@).contains_key(sig),
        },
{
    let mut i: usize = 0;
    while i < t.len()
        invariant
            i <= t@.len(),
            keys_unique(t@),
            forall|j: int| 0 <= j < i ==> t@[j].0 != sig,
        decreases t@.len() - i,
    {
        if t[i].0 == sig {
            proof {
                lemma_assoc_at(t@, i as int);
            }
            return Some(i);
        }
        i = i + 1;
    }
    proof {
        lemma_assoc_absent(t@, sig);
    }
    None
}

impl Cage {
    /// A new cage at the root directory with the three standard streams open; its ids are
    /// not yet fetched and its tables are empty.
    pub fn new(fs: &mut FilesystemMetadata, cageid: u64) -> (c: Cage)
        requires
            old(fs).wf(),
        ensures
            c.inv(final(fs)),
            final(fs)@ == (FsView {
                locks: old(fs)@.locks + seq![AdvisoryLock { state: 0 }, AdvisoryLock { state: 0 }, AdvisoryLock { state: 0 }],
                ..old(fs)@
            }),
            c.filedescriptortable@ == initial_fds(old(fs)@.locks.len() as usize),
            c.cageid == cageid,
            c.parent == cageid,
            c.cwd_view() == Seq::<Seq<u8>>::empty(),
            c.getgid == -1 && c.getuid == -1 && c.getegid == -1 && c.geteuid == -1,
            c.rev_shm@.len() == 0,
            c.mutex_table@.len() == 0,
            c.cv_table@.len() == 0,
            c.sem_table@.len() == 0,
            c.signalhandler@.len() == 0,
            c.epoll_table@.len() == 0,
            c.sigset == 0 && c.pendingsigset == 0,
            !c.cancelstatus,
    {
        let ghost l0 = fs@.locks.len();
        let mut fds: Vec<Option<FileDescriptor>> = Vec::new();
        let l_in = fs.new_advlock();
        let l_out = fs.new_advlock();
        let l_err = fs.new_advlock();
        fds.push(Some(FileDescriptor::Stream(StreamDesc { position: 0, stream: 0, flags: O_RDONLY, advlock: l_in })));
        fds.push(Some(FileDescriptor::Stream(StreamDesc { position: 0, stream: 1, flags: O_WRONLY, advlock: l_out })));
        fds.push(Some(FileDescriptor::Stream(StreamDesc { position: 0, stream: 2, flags: O_WRONLY, advlock: l_err })));
        while fds.len() < MAXFD as usize
            invariant
                3 <= fds@.len() <= MAXFD,
                forall|i: int| 0 <= i < fds@.len() ==> fds@[i] == initial_fds(l0 as usize)[i],
            decreases MAXFD - fds@.len(),
        {
            fds.push(None);
        }
        let c = Cage {
            cageid,
            cwd: Vec::new(),
            parent: cageid,
            filedescriptortable: fds,
            cancelstatus: false,
            getgid: -1,
            getuid: -1,
            getegid: -1,
            geteuid: -1,
            rev_shm: Vec::new(),
            mutex_table: Vec::new(),
            cv_table: Vec::new(),
            sem_table: Vec::new(),
            signalhandler: Vec::new(),
            sigset: 0,
            pendingsigset: 0,
            main_threadid: 0,
            interval_timer: IntervalTimer { curr: Span { secs: 0, nanos: 0 }, next: Span { secs: 0, nanos: 0 } },
            epoll_table: Vec::new(),
        };
        proof {
            assert(c.filedescriptortable@ =~= initial_fds(l0 as usize));
            assert(c.cwd_view() =~= Seq::<Seq<u8>>::empty());
            assert(fs@.locks =~= old(fs)@.locks + seq![AdvisoryLock { state: 0 }, AdvisoryLock { state: 0 }, AdvisoryLock { state: 0 }]);
            assert forall|i: int| 0 <= i < c.filedescriptortable@.len() implies desc_ok(
                #[trigger] c.filedescriptortable@[i],
                fs@.locks.len(),
                fs@.pipes.len(),
                fs@.sockets.len(),
                c.epoll_table@.len(),
            ) by {}
        }
        c
    }

    /// The cage's id.
    pub fn getpid_syscall(&self) -> (ret: i32)
        ensures
            ret == self.cageid as i32,
    {
        self.cageid as i32
    }

    /// The id of the cage's parent.
    pub fn getppid_syscall(&self) -> (ret: i32)
        ensures
            ret == self.parent as i32,
    {
        self.parent as i32
    }

    /// The group id; the first call of a new cage returns -1 and records the default id.
    pub fn getgid_syscall(&mut self) -> (ret: i32)
        ensures
            old(self).getgid == -1 ==> ret == -1,
            old(self).getgid != -1 ==> ret == DEFAULT_GID as i32,
            *final(self) == (Cage {
                getgid: if old(self).getgid == -1 { DEFAULT_GID as i32 } else { old(self).getgid },
                ..*old(self)
            }),
    {
        if self.getgid == -1 {
            self.getgid = DEFAULT_GID as i32;
            return -1;
        }
        DEFAULT_GID as i32
    }

    /// The effective group id; the first call of a new cage returns -1 and records the
    /// default id.
    pub fn getegid_syscall(&mut self) -> (ret: i32)
        ensures
            old(self).getegid == -1 ==> ret == -1,
            old(self).getegid != -1 ==> ret == DEFAULT_GID as i32,
            *final(self) == (Cage {
                getegid: if old(self).getegid == -1 { DEFAULT_GID as i32 } else { old(self).getegid },
                ..*old(self)
            }),
    {
        if self.getegid == -1 {
            self.getegid = DEFAULT_GID as i32;
            return -1;
        }
        DEFAULT_GID as i32
    }

    /// The user id; the first call of a new cage returns -1 and records the default id.
    pub fn getuid_syscall(&mut self) -> (ret: i32)
        ensures
            old(self).getuid == -1 ==> ret == -1,
            old(self).getuid != -1 ==> ret == DEFAULT_UID as i32,
            *final(self) == (Cage {
                getuid: if old(self).getuid == -1 { DEFAULT_UID as i32 } else { old(self).getuid },
                ..*old(self)
            }),
    {
        if self.getuid == -1 {
            self.getuid = DEFAULT_UID as i32;
            return -1;
        }
        DEFAULT_UID as i32
    }

    /// The effective user id; the first call of a new cage returns -1 and records the
    /// default id.
    pub fn geteuid_syscall(&mut self) -> (ret: i32)
        ensures
            old(self).geteuid == -1 ==> ret == -1,
            old(self).geteuid != -1 ==> ret == DEFAULT_UID as i32,
            *final(self) == (Cage {
                geteuid: if old(self).geteuid == -1 { DEFAULT_UID as i32 } else { old(self).geteuid },
                ..*old(self)
            }),
    {
        if self.geteuid == -1 {
            self.geteuid = DEFAULT_UID as i32;
            return -1;
        }
        DEFAULT_UID as i32
    }

    /// Gives the action installed for `sig` (or the default one) in `oact`, then installs
    /// `act` if there is one; the actions of `SIGKILL` and `SIGSTOP` cannot be changed.
    pub fn sigaction_syscall(&mut self, sig: i32, act: Option<SigactionStruct>, oact: &mut SigactionStruct) -> (ret: i32)
        requires
            old(self).wf(),
        ensures
            final(self).wf(),
            *final(oact) == (if handlers(old(self)).contains_key(sig) { handlers(old(self))[sig] } else { default_sigaction() }),
            *final(self) == (Cage { signalhandler: final(self).signalhandler, ..*old(self) }),
            match act {
                None => ret == 0 && handlers(final(self)) == handlers(old(self)),
                Some(a) => if sig == SIGKILL || sig == SIGSTOP {
                    ret == err(EINVAL) && handlers(final(self)) == handlers(old(self))
                } else {
                    ret == 0 && handlers(final(self)) == handlers(old(self)).insert(sig, a)
                },
            },
    {
        let found = find_handler(&self.signalhandler, sig);
        match found {
            Some(i) => {
                *oact = self.signalhandler[i].1;
            },
            None => {
                *oact = SigactionStruct { sa_handler: 0, sa_mask: 0, sa_flags: 0 };
            },
        }
        match act {
            None => 0,
            Some(a) => {
                if sig == SIGKILL || sig == SIGSTOP {
                    return syscall_error(EINVAL);
                }
                match found {
                    Some(i) => {
                        proof {
                            lemma_assoc_update(self.signalhandler@, i as int, a);
                        }
                        self.signalhandler.set(i, (sig, a));
                    },
                    None => {
                        proof {
                            lemma_assoc_push(self.signalhandler@, sig, a);
                        }
                        self.signalhandler.push((sig, a));
                    },
                }
                0
            },
        }
    }

    /// Checks a signal for cage `cage_id` against the live cages `live`: 0 lets the host
    /// deliver `sig` to that cage's main thread.
    pub fn kill_syscall(&self, live: &Vec<u64>, cage_id: i32, sig: i32) -> (ret: i32)
        ensures
            ret == (if cage_id < 0 || cage_id >= MAXCAGEID {
                err(EINVAL)
            } else if cage_live(live@, cage_id) {
                0
            } else {
                err(ESRCH)
            }),
    {
        if cage_id < 0 || cage_id >= MAXCAGEID {
            return syscall_error(EINVAL);
        }
        let mut i: usize = 0;
        while i < live.len()
            invariant
                i <= live@.len(),
                0 <= cage_id < MAXCAGEID,
                forall|j: int| 0 <= j < i ==> live@[j] != cage_id as u64,
            decreases live@.len() - i,
        {
            if live[i] == cage_id as u64 {
                assert(live@[i as int] == cage_id as u64);
                return 0;
            }
            i = i + 1;
        }
        syscall_error(ESRCH)
    }

    /// Gives the signal mask in `oldset`, then, with `set`, blocks (`SIG_BLOCK`), unblocks
    /// (`SIG_UNBLOCK`) or sets (`SIG_SETMASK`) signals. Unblocking releases the pending
    /// signals among those unblocked, which the host then delivers.
    pub fn sigprocmask_syscall(&mut self, how: i32, set: Option<u64>, oldset: &mut u64) -> (ret: i32)
        ensures
            *final(oldset) == old(self).sigset,
            same_but_sigsets(*old(self), *final(self)),
            match set {
                None => ret == 0 && *final(self) == *old(self),
                Some(s) => if how == SIG_BLOCK {
                    ret == 0 && final(self).sigset == old(self).sigset | s
                        && final(self).pendingsigset == old(self).pendingsigset
                } else if how == SIG_UNBLOCK {
                    &&& ret == 0
                    &&& final(self).sigset == old(self).sigset & !s
                    &&& final(self).pendingsigset == old(self).pendingsigset & !(old(self).sigset & s)
                } else if how == SIG_SETMASK {
                    ret == 0 && final(self).sigset == s && final(self).pendingsigset == old(self).pendingsigset
                } else {
                    ret == err(EINVAL) && *final(self) == *old(self)
                },
            },
    {
        *oldset = self.sigset;
        match set {
            None => 0,
            Some(s) => {
                let curr = self.sigset;
                if how == SIG_BLOCK {
                    self.sigset = curr | s;
                    0
                } else if how == SIG_UNBLOCK {
                    self.sigset = curr & !s;
                    self.pendingsigset = self.pendingsigset & !(curr & s);
                    0
                } else if how == SIG_SETMASK {
                    self.sigset = s;
                    0
                } else {
                    syscall_error(EINVAL)
                }
            },
        }
    }

    /// For `ITIMER_REAL`: gives the timer as last set in `old_value`, then sets it from
    /// `new_value` if there is one. Other timers are not kept and change nothing.
    pub fn setitimer_syscall(&mut self, which: i32, new_value: Option<ITimerVal>, old_value: &mut ITimerVal) -> (ret: i32)
        requires
            new_value matches Some(v) ==> span_fits(v.it_value.tv_sec as u64, v.it_value.tv_usec as u32)
                && span_fits(v.it_interval.tv_sec as u64, v.it_interval.tv_usec as u32),
        ensures
            ret == 0,
            which != ITIMER_REAL ==> *final(self) == *old(self) && *final(old_value) == *old(old_value),
            which == ITIMER_REAL ==> {
                &&& *final(old_value) == (ITimerVal {
                    it_value: report_span(old(self).interval_timer.curr),
                    it_interval: report_span(old(self).interval_timer.next),
                })
                &&& *final(self) == (Cage {
                    interval_timer: match new_value {
                        None => old(self).interval_timer,
                        Some(v) => IntervalTimer {
                            curr: span_of(v.it_value.tv_sec as u64, v.it_value.tv_usec as u32),
                            next: span_of(v.it_interval.tv_sec as u64, v.it_interval.tv_usec as u32),
                        },
                    },
                    ..*old(self)
                })
            },
    {
        if which == ITIMER_REAL {
            *old_value = ITimerVal { it_value: report(self.interval_timer.curr), it_interval: report(self.interval_timer.next) };
            match new_value {
                None => {},
                Some(v) => {
                    let curr = span_from(v.it_value.tv_sec as u64, v.it_value.tv_usec as u32);
                    let next = span_from(v.it_interval.tv_sec as u64, v.it_interval.tv_usec as u32);
                    self.interval_timer = IntervalTimer { curr, next };
                },
            }
        }
        0
    }

    /// The limits on open files and on the stack; -1 for other resources.
    pub fn getrlimit(&self, res_type: u64, rlimit: &mut Rlimit) -> (ret: i32)
        ensures
            res_type == RLIMIT_NOFILE ==> ret == 0 && *final(rlimit) == (Rlimit { rlim_cur: NOFILE_CUR, rlim_max: NOFILE_MAX }),
            res_type == RLIMIT_STACK ==> ret == 0 && *final(rlimit) == (Rlimit { rlim_cur: STACK_CUR, rlim_max: STACK_MAX }),
            res_type != RLIMIT_NOFILE && res_type != RLIMIT_STACK ==> ret == -1 && *final(rlimit) == *old(rlimit),
    {
        if res_type == RLIMIT_NOFILE {
            *rlimit = Rlimit { rlim_cur: NOFILE_CUR, rlim_max: NOFILE_MAX };
            0
        } else if res_type == RLIMIT_STACK {
            *rlimit = Rlimit { rlim_cur: STACK_CUR, rlim_max: STACK_MAX };
            0
        } else {
            -1
        }
    }

    /// Accepts a limit on open files (the limits stay fixed) and refuses every other resource
    /// with -1.
    pub fn setrlimit(&self, res_type: u64, limit_value: u64) -> (ret: i32)
        ensures
            ret == (if res_type == RLIMIT_NOFILE && NOFILE_CUR <= NOFILE_MAX { 0int } else { -1 }),
    {
        if res_type == RLIMIT_NOFILE {
            if NOFILE_CUR > NOFILE_MAX { -1 } else { 0 }
        } else {
            -1
        }
    }
}

} // verus!
