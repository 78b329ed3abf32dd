//! Readiness: `select`, `poll` and `epoll_wait`. Each call here makes one pass over the
//! descriptors it is asked about; a caller that may wait repeats the pass until something is
//! ready or its time is up. What the host says of the host sockets of inet sockets comes in
//! as answers, one per descriptor number.
use vstd::prelude::*;
use crate::errno::{err, syscall_error, EBADF, EINTR, EINVAL};
use crate::sync::WaitTime;
use crate::cage::{Cage, FileDescriptor, EpollEvent, desc_ok, lemma_refs_ok_update};
use crate::filesystem::{FilesystemMetadata, FsView, PipeView, PIPE_CAPACITY, socket_pipes_ok};
use crate::fs_constants::MAXFD;
use crate::net::{ConnState, SocketHandle, AF_UNIX, AF_INET, AF_INET6, EPOLLIN, EPOLLOUT, EPOLLPRI};
use crate::assoc::{keys_unique, assoc_map, lemma_assoc_at, lemma_assoc_absent};
use crate::net_calls::with_socket;
use crate::path::{normpath, path_to_bytes, path_text, spec_normpath};
use crate::sock_conn::accept_key;
use crate::sock_io::recv_pipe;
use crate::unix_net::{NetMetadata, NetView, sun_path, sun_path_exec};

verus! {

/// Descriptor sets hold descriptors below this number.
pub const FD_SET_MAX_FD: i32 = 1024;

/// A set of descriptor numbers, one flag per number.
pub struct FdSet {
    pub bits: Vec<bool>,
}

/// The empty descriptor set.
pub open spec fn no_fds() -> Seq<bool> {
    Seq::new(FD_SET_MAX_FD as nat, |i: int| false)
}

impl FdSet {
    /// A set has one flag for every descriptor number below `FD_SET_MAX_FD`.
    pub open spec fn wf(&self) -> bool {
        self.bits@.len() == FD_SET_MAX_FD
    }

    /// The empty set.
    pub fn new() -> (s: FdSet)
        ensures
            s.wf(),
            s.bits@ == no_fds(),
    {
        let mut bits: Vec<bool> = Vec::new();
        let mut i: i32 = 0;
        while i < FD_SET_MAX_FD
            invariant
                0 <= i <= FD_SET_MAX_FD,
                bits@ == Seq::new(i as nat, |k: int| false),
            decreases FD_SET_MAX_FD - i,
        {
            bits.push(false);
            i = i + 1;
            assert(bits@ =~= Seq::new(i as nat, |k: int| false));
        }
        FdSet { bits }
    }

    /// Adds `fd`.
    pub fn set(&mut self, fd: i32)
        requires
            old(self).wf(),
            0 <= fd < FD_SET_MAX_FD,
        ensures
            final(self).wf(),
            final(self).bits@ == old(self).bits@.update(fd as int, true),
    {
        self.bits.set(fd as usize, true);
    }

    /// Whether `fd` is in the set.
    pub fn is_set(&self, fd: i32) -> (r: bool)
        requires
            self.wf(),
            0 <= fd < FD_SET_MAX_FD,
        ensures
            r == self.bits@[fd as int],
    {
        self.bits[fd as usize]
    }

    /// Whether the set is empty.
    pub fn is_empty(&self) -> (r: bool)
        ensures
            r == (forall|i: int| 0 <= i < self.bits@.len() ==> !self.bits@[i]),
    {
        let mut i: usize = 0;
        while i < self.bits.len()
            invariant
                i <= self.bits@.len(),
                forall|k: int| 0 <= k < i ==> !self.bits@[k],
            decreases self.bits@.len() - i,
        {
            if self.bits[i] {
                return false;
            }
            i = i + 1;
        }
        true
    }
}

/// Reading from a pipe would not wait: it holds bytes, or no writer is left.
pub open spec fn pipe_readable(p: PipeView) -> bool {
    p.buffer.len() > 0 || p.refcount_write == 0
}

/// Writing to a pipe would not wait: it has room.
pub open spec fn pipe_writable(p: PipeView) -> bool {
    p.buffer.len() < PIPE_CAPACITY
}

/// A unix socket whose connection was in progress and is no longer pending on the peer's
/// (normalized) path.
pub open spec fn unix_newconn(net: NetView, cwd: Seq<Seq<u8>>, h: SocketHandle) -> bool {
    h.state == ConnState::INPROGRESS && !net.pending.contains_key(path_text(spec_normpath(cwd, sun_path(h.remoteaddr->Some_0))))
}

/// The handle with its connection complete.
pub open spec fn connected(h: SocketHandle) -> SocketHandle {
    SocketHandle { state: ConnState::CONNECTED, ..h }
}

/// What the host says of descriptor `fd`, by its answers `ha` (one per descriptor number):
/// whether it can be read, and written, without waiting. No answer means neither.
pub open spec fn host_says(ha: Seq<(i32, (bool, bool))>, fd: int) -> (bool, bool) {
    if assoc_map(ha).contains_key(fd as i32) { assoc_map(ha)[fd as i32] } else { (false, false) }
}

/// One descriptor `i` of a read set: the error or 0, the file system afterwards (a unix
/// socket whose connection went through becomes connected), and whether it is ready. A
/// listening unix socket is ready when a connection is pending on its path, a connected one
/// when its receiving pipe is; an inet socket with a host socket when the host says so, one
/// without never; the standard streams never are; a pipe is when it can be read; everything
/// else always is.
pub open spec fn read_step(fs: FsView, net: NetView, cwd: Seq<Seq<u8>>, ha: Seq<(i32, (bool, bool))>, i: int, d: Option<FileDescriptor>) -> (int, FsView, bool) {
    match d {
        None => (err(EBADF), fs, false),
        Some(FileDescriptor::Socket(s)) => if s.domain == AF_UNIX {
            let h = fs.sockets[s.handle as int];
            let nc = unix_newconn(net, cwd, h);
            let ready = if h.state == ConnState::LISTEN {
                net.pending.contains_key(accept_key(cwd, h))
            } else if h.state == ConnState::CONNECTED || nc {
                pipe_readable(fs.pipes[recv_pipe(h)->Some_0 as int])
            } else {
                false
            };
            (0, if nc { with_socket(fs, s.handle as int, connected(h)) } else { fs }, ready)
        } else if s.domain == AF_INET || s.domain == AF_INET6 {
            (0, fs, s.rawfd >= 0 && host_says(ha, i).0)
        } else {
            (err(EINVAL), fs, false)
        },
        Some(FileDescriptor::Stream(_)) => (0, fs, false),
        Some(FileDescriptor::Pipe(p)) => (0, fs, pipe_readable(fs.pipes[p.pipe as int])),
        Some(_) => (0, fs, true),
    }
}

/// Whether `read_step` can be taken here: the addresses and pipe it reads exist.
pub open spec fn read_step_ok(fs: FsView, net: NetView, cwd: Seq<Seq<u8>>, d: Option<FileDescriptor>) -> bool {
    match d {
        Some(FileDescriptor::Socket(s)) => if s.domain == AF_UNIX {
            let h = fs.sockets[s.handle as int];
            &&& (h.state == ConnState::LISTEN ==> h.localaddr is Some)
            &&& (h.state == ConnState::INPROGRESS ==> h.remoteaddr is Some)
            &&& (h.state != ConnState::LISTEN && (h.state == ConnState::CONNECTED || unix_newconn(net, cwd, h)) ==> recv_pipe(h) is Some)
        } else {
            true
        },
        _ => true,
    }
}

/// One descriptor `i` of a write set, as `read_step`. Sockets are always ready; a connection
/// in progress becomes connected when it no longer waits: a unix one that is no longer
/// pending on the peer's path (compared as written), an inet one the host says can be
/// written. A pipe is ready when it has room; everything else always is.
pub open spec fn write_step(fs: FsView, net: NetView, ha: Seq<(i32, (bool, bool))>, i: int, d: Option<FileDescriptor>) -> (int, FsView, bool) {
    match d {
        None => (err(EBADF), fs, false),
        Some(FileDescriptor::Socket(s)) => {
            let h = fs.sockets[s.handle as int];
            if h.domain == AF_UNIX {
                let nc = h.state == ConnState::INPROGRESS && !net.pending.contains_key(sun_path(h.remoteaddr->Some_0));
                (0, if nc { with_socket(fs, s.handle as int, connected(h)) } else { fs }, true)
            } else if h.domain == AF_INET || h.domain == AF_INET6 {
                let nc = h.state == ConnState::INPROGRESS && host_says(ha, i).1;
                (0, if nc { with_socket(fs, s.handle as int, connected(h)) } else { fs }, true)
            } else {
                (err(EINVAL), fs, false)
            }
        },
        Some(FileDescriptor::Pipe(p)) => (0, fs, pipe_writable(fs.pipes[p.pipe as int])),
        Some(_) => (0, fs, true),
    }
}

/// Whether `write_step` can be taken here: a unix connection in progress has a peer.
pub open spec fn write_step_ok(fs: FsView, d: Option<FileDescriptor>) -> bool {
    match d {
        Some(FileDescriptor::Socket(s)) => {
            let h = fs.sockets[s.handle as int];
            h.domain == AF_UNIX && h.state == ConnState::INPROGRESS ==> h.remoteaddr is Some
        },
        _ => true,
    }
}

/// One pass over the descriptors below `n` that `set` holds, in order: the error or 0, the
/// file system, the ready ones, how many, and whether every step taken could be taken. The
/// first error ends the pass.
pub open spec fn read_pass(fs: FsView, net: NetView, cwd: Seq<Seq<u8>>, ha: Seq<(i32, (bool, bool))>, fdt: Seq<Option<FileDescriptor>>, set: Seq<bool>, n: int)
    -> (int, FsView, Seq<bool>, int, bool)
    decreases n,
{
    if n <= 0 {
        (0, fs, no_fds(), 0, true)
    } else {
        let p = read_pass(fs, net, cwd, ha, fdt, set, n - 1);
        if p.0 != 0 || !set[n - 1] {
            p
        } else {
            let d = fdt[n - 1];
            let s = read_step(p.1, net, cwd, ha, n - 1, d);
            let ok = p.4 && read_step_ok(p.1, net, cwd, d);
            if s.0 != 0 {
                (s.0, s.1, p.2, p.3, ok)
            } else {
                (0, s.1, if s.2 { p.2.update(n - 1, true) } else { p.2 }, p.3 + if s.2 { 1int } else { 0int }, ok)
            }
        }
    }
}

/// One pass over a write set, as `read_pass`.
pub open spec fn write_pass(fs: FsView, net: NetView, ha: Seq<(i32, (bool, bool))>, fdt: Seq<Option<FileDescriptor>>, set: Seq<bool>, n: int)
    -> (int, FsView, Seq<bool>, int, bool)
    decreases n,
{
    if n <= 0 {
        (0, fs, no_fds(), 0, true)
    } else {
        let p = write_pass(fs, net, ha, fdt, set, n - 1);
        if p.0 != 0 || !set[n - 1] {
            p
        } else {
            let d = fdt[n - 1];
            let s = write_step(p.1, net, ha, n - 1, d);
            let ok = p.4 && write_step_ok(p.1, d);
            if s.0 != 0 {
                (s.0, s.1, p.2, p.3, ok)
            } else {
                (0, s.1, if s.2 { p.2.update(n - 1, true) } else { p.2 }, p.3 + if s.2 { 1int } else { 0int }, ok)
            }
        }
    }
}

/// Whether a descriptor below `n` in `set` is closed.
pub open spec fn except_bad(fdt: Seq<Option<FileDescriptor>>, set: Seq<bool>, n: int) -> bool {
    exists|i: int| 0 <= i < n && set[i] && #[trigger] fdt[i] is None
}

/// The flags of a set that may be absent.
pub open spec fn opt_bits(s: Option<FdSet>) -> Option<Seq<bool>> {
    match s {
        Some(f) => Some(f.bits@),
        None => None,
    }
}

/// What one pass of `select` returns and leaves behind: the result, the file system, and the
/// read and write sets afterwards (the ready descriptors where the pass succeeds, else as
/// they were); and whether the pass can be made.
pub open spec fn select_outcome(fs: FsView, net: NetView, cwd: Seq<Seq<u8>>, ha: Seq<(i32, (bool, bool))>, fdt: Seq<Option<FileDescriptor>>, nfds: i32,
    rd: Option<Seq<bool>>, wr: Option<Seq<bool>>, ex: Option<Seq<bool>>) -> (int, FsView, Option<Seq<bool>>, Option<Seq<bool>>, bool)
{
    if nfds < 0 || nfds > FD_SET_MAX_FD {
        (err(EINVAL), fs, rd, wr, true)
    } else {
        let r = match rd {
            Some(s) => read_pass(fs, net, cwd, ha, fdt, s, nfds as int),
            None => (0, fs, no_fds(), 0, true),
        };
        if r.0 != 0 {
            (r.0, r.1, rd, wr, r.4)
        } else {
            let w = match wr {
                Some(s) => write_pass(r.1, net, ha, fdt, s, nfds as int),
                None => (0, r.1, no_fds(), 0, true),
            };
            if w.0 != 0 {
                (w.0, w.1, rd, wr, r.4 && w.4)
            } else if ex matches Some(e) && except_bad(fdt, e, nfds as int) {
                (err(EBADF), w.1, rd, wr, r.4 && w.4)
            } else {
                (
                    r.3 + w.3,
                    w.1,
                    if rd is Some { Some(r.2) } else { None },
                    if wr is Some { Some(w.2) } else { None },
                    r.4 && w.4,
                )
            }
        }
    }
}

proof fn lemma_read_pass_stops(fs: FsView, net: NetView, cwd: Seq<Seq<u8>>, ha: Seq<(i32, (bool, bool))>, fdt: Seq<Option<FileDescriptor>>, set: Seq<bool>, i: int, n: int)
    requires
        0 <= i <= n,
        read_pass(fs, net, cwd, ha, fdt, set, i).0 != 0,
    ensures
        read_pass(fs, net, cwd, ha, fdt, set, n) == read_pass(fs, net, cwd, ha, fdt, set, i),
    decreases n - i,
{
    if i < n {
        lemma_read_pass_stops(fs, net, cwd, ha, fdt, set, i, n - 1);
    }
}

proof fn lemma_write_pass_stops(fs: FsView, net: NetView, ha: Seq<(i32, (bool, bool))>, fdt: Seq<Option<FileDescriptor>>, set: Seq<bool>, i: int, n: int)
    requires
        0 <= i <= n,
        write_pass(fs, net, ha, fdt, set, i).0 != 0,
    ensures
        write_pass(fs, net, ha, fdt, set, n) == write_pass(fs, net, ha, fdt, set, i),
    decreases n - i,
{
    if i < n {
        lemma_write_pass_stops(fs, net, ha, fdt, set, i, n - 1);
    }
}


/// Data to read.
pub const POLLIN: i16 = 0o1;
/// Urgent data to read.
pub const POLLPRI: i16 = 0o2;
/// Writing would not wait.
pub const POLLOUT: i16 = 0o4;
/// The descriptor is not open.
pub const POLLNVAL: i16 = 0o40;

/// One descriptor that `poll` asks about: the events of interest, and those that happened.
#[derive(Clone, Copy, Debug)]
pub struct PollStruct {
    pub fd: i32,
    pub events: i16,
    pub revents: i16,
}

/// The set holding `fd` if `on`, else the empty set.
pub open spec fn fds_with(fd: i32, on: bool) -> Seq<bool> {
    if on { no_fds().update(fd as int, true) } else { no_fds() }
}

/// Whether a set holds anything.
pub open spec fn any_set(s: Seq<bool>) -> bool {
    exists|i: int| 0 <= i < s.len() && s[i]
}

/// `poll` on one entry, asked as a `select` of that one descriptor: the select result, the
/// file system, the events that happened, and whether the select can be made. Entries with a
/// negative descriptor are passed over. Exceptional conditions (`POLLPRI`) are not
/// supported: asking for them only has the descriptor checked, and they are never reported.
pub open spec fn poll_one(fs: FsView, net: NetView, cwd: Seq<Seq<u8>>, ha: Seq<(i32, (bool, bool))>, fdt: Seq<Option<FileDescriptor>>, p: PollStruct) -> (int, FsView, i16, bool) {
    if p.fd < 0 {
        (0, fs, 0, true)
    } else {
        let ex = fds_with(p.fd, p.events & POLLPRI > 0);
        let o = select_outcome(fs, net, cwd, ha, fdt, (p.fd + 1) as i32, Some(fds_with(p.fd, p.events & POLLIN > 0)),
            Some(fds_with(p.fd, p.events & POLLOUT > 0)), Some(ex));
        let mask: i16 = if o.0 > 0 {
            (if any_set(o.2->Some_0) { POLLIN } else { 0 }) | (if any_set(o.3->Some_0) { POLLOUT } else { 0 })
        } else if o.0 == err(EBADF) {
            POLLNVAL
        } else {
            0
        };
        (o.0, o.1, mask, o.4)
    }
}

/// One pass of `poll` over the first `n` entries of `ps`: the error or 0, the file system, the
/// events of each entry (0 for those not reached), how many entries had events or a closed
/// descriptor, and whether every select made could be made. An error other than a closed
/// descriptor ends the pass.
pub open spec fn poll_pass(fs: FsView, net: NetView, cwd: Seq<Seq<u8>>, ha: Seq<(i32, (bool, bool))>, fdt: Seq<Option<FileDescriptor>>, ps: Seq<PollStruct>, n: int)
    -> (int, FsView, Seq<i16>, int, bool)
    decreases n,
{
    if n <= 0 {
        (0, fs, Seq::new(ps.len(), |i: int| 0i16), 0, true)
    } else {
        let p = poll_pass(fs, net, cwd, ha, fdt, ps, n - 1);
        if p.0 != 0 {
            p
        } else {
            let q = poll_one(p.1, net, cwd, ha, fdt, ps[n - 1]);
            let ok = p.4 && q.3;
            if q.0 < 0 && q.0 != err(EBADF) {
                (q.0, q.1, p.2, p.3, ok)
            } else {
                (0, q.1, p.2.update(n - 1, q.2), p.3 + if q.0 != 0 { 1int } else { 0int }, ok)
            }
        }
    }
}

/// An entry `poll` can ask about: a descriptor in range of a set, or a negative one, or one
/// asked about nothing that a set could hold.
pub open spec fn poll_entry_ok(p: PollStruct) -> bool {
    p.fd < FD_SET_MAX_FD || (p.events & (POLLIN | POLLOUT | POLLPRI) == 0 && p.fd < i32::MAX)
}

/// The events of each entry, as a sequence.
pub open spec fn revents_of(ps: Seq<PollStruct>) -> Seq<i16> {
    Seq::new(ps.len(), |i: int| ps[i].revents)
}

proof fn lemma_poll_pass_prefix(fs: FsView, net: NetView, cwd: Seq<Seq<u8>>, ha: Seq<(i32, (bool, bool))>, fdt: Seq<Option<FileDescriptor>>, ps: Seq<PollStruct>, i: int, n: int)
    requires
        0 <= i <= n,
        poll_pass(fs, net, cwd, ha, fdt, ps, n).4,
    ensures
        poll_pass(fs, net, cwd, ha, fdt, ps, i).4,
    decreases n - i,
{
    if i < n {
        lemma_poll_pass_prefix(fs, net, cwd, ha, fdt, ps, i, n - 1);
    }
}

proof fn lemma_poll_pass_stops(fs: FsView, net: NetView, cwd: Seq<Seq<u8>>, ha: Seq<(i32, (bool, bool))>, fdt: Seq<Option<FileDescriptor>>, ps: Seq<PollStruct>, i: int, n: int)
    requires
        0 <= i <= n,
        poll_pass(fs, net, cwd, ha, fdt, ps, i).0 != 0,
    ensures
        poll_pass(fs, net, cwd, ha, fdt, ps, n) == poll_pass(fs, net, cwd, ha, fdt, ps, i),
    decreases n - i,
{
    if i < n {
        lemma_poll_pass_stops(fs, net, cwd, ha, fdt, ps, i, n - 1);
    }
}

proof fn lemma_poll_pass_shape(fs: FsView, net: NetView, cwd: Seq<Seq<u8>>, ha: Seq<(i32, (bool, bool))>, fdt: Seq<Option<FileDescriptor>>, ps: Seq<PollStruct>, n: int)
    requires
        0 <= n <= ps.len(),
    ensures
        poll_pass(fs, net, cwd, ha, fdt, ps, n).2.len() == ps.len(),
        0 <= poll_pass(fs, net, cwd, ha, fdt, ps, n).3 <= n,
        poll_pass(fs, net, cwd, ha, fdt, ps, n).0 <= 0,
    decreases n,
{
    if n > 0 {
        lemma_poll_pass_shape(fs, net, cwd, ha, fdt, ps, n - 1);
    }
}


/// What a caller of `select`, `poll` or `epoll_wait` does after one pass: return the given
/// result, or make another pass.
#[derive(Clone, Copy, Debug, PartialEq, Eq, Structural)]
pub enum WaitStep {
    Done(i32),
    Again,
}

/// Whether `a` is a longer time than `b`.
pub open spec fn longer(a: WaitTime, b: WaitTime) -> bool {
    a.secs > b.secs || (a.secs == b.secs && a.nanos > b.nanos)
}

/// The step after a pass of `select`, `poll` or `epoll_wait` with result `pass`, `elapsed`
/// after the call began: a pass that found something, or failed, or one made after the
/// timeout (if any) has passed, is the result; otherwise a signal waiting for the process
/// ends the call with `EINTR`, and without one the caller passes again.
pub open spec fn wait_step_spec(pass: i32, elapsed: WaitTime, timeout: Option<WaitTime>, signal_pending: bool) -> WaitStep {
    if pass != 0 || (timeout matches Some(t) && longer(elapsed, t)) {
        WaitStep::Done(pass)
    } else if signal_pending {
        WaitStep::Done(err(EINTR) as i32)
    } else {
        WaitStep::Again
    }
}

/// The step after a pass, as `wait_step_spec` says.
pub fn wait_step(pass: i32, elapsed: WaitTime, timeout: Option<WaitTime>, signal_pending: bool) -> (r: WaitStep)
    ensures
        r == wait_step_spec(pass, elapsed, timeout, signal_pending),
{
    let timed_out = match timeout {
        Some(t) => elapsed.secs > t.secs || (elapsed.secs == t.secs && elapsed.nanos > t.nanos),
        None => false,
    };
    if pass != 0 || timed_out {
        WaitStep::Done(pass)
    } else if signal_pending {
        WaitStep::Done(syscall_error(EINTR))
    } else {
        WaitStep::Again
    }
}

/// The poll events asked for by epoll events.
pub open spec fn epoll_to_poll(ev: u32) -> i16 {
    (if ev & (EPOLLIN as u32) > 0 { POLLIN } else { 0 }) | (if ev & (EPOLLOUT as u32) > 0 { POLLOUT } else { 0 })
        | (if ev & (EPOLLPRI as u32) > 0 { POLLPRI } else { 0 })
}

/// The epoll events reported for poll events.
pub open spec fn poll_to_epoll(r: i16) -> u32 {
    (if r & POLLIN > 0 { EPOLLIN as u32 } else { 0 }) | (if r & POLLOUT > 0 { EPOLLOUT as u32 } else { 0 })
        | (if r & POLLPRI > 0 { EPOLLPRI as u32 } else { 0 })
}

/// The first `n` registrations of `regs`, less those whose descriptor is closed, in order.
pub open spec fn live_regs(regs: Seq<(i32, EpollEvent)>, fdt: Seq<Option<FileDescriptor>>, n: int) -> Seq<(i32, EpollEvent)>
    decreases n,
{
    if n <= 0 {
        Seq::empty()
    } else {
        let p = live_regs(regs, fdt, n - 1);
        if fdt[regs[n - 1].0 as int] is Some { p.push(regs[n - 1]) } else { p }
    }
}

/// The poll entry for a registration.
pub open spec fn reg_entry(r: (i32, EpollEvent)) -> PollStruct {
    PollStruct { fd: r.0, events: epoll_to_poll(r.1.events), revents: 0 }
}

/// The poll entries for registrations.
pub open spec fn reg_entries(live: Seq<(i32, EpollEvent)>) -> Seq<PollStruct> {
    Seq::new(live.len(), |i: int| reg_entry(live[i]))
}

/// The events to report for the first `n` registrations, given what poll found for each: one
/// for each registration with an event, carrying the number it was registered with.
pub open spec fn epoll_events(live: Seq<(i32, EpollEvent)>, rev: Seq<i16>, n: int) -> Seq<EpollEvent>
    decreases n,
{
    if n <= 0 {
        Seq::empty()
    } else {
        let p = epoll_events(live, rev, n - 1);
        let m = poll_to_epoll(rev[n - 1]);
        if m != 0 { p.push(EpollEvent { events: m, fd: live[n - 1].1.fd }) } else { p }
    }
}

/// What one pass of `epoll_wait` on `epfd` returns and leaves behind: the result, the file
/// system, the registrations of the epoll instance afterwards (closed descriptors dropped),
/// the events reported (at most `maxevents`, in the order of the registrations), and whether
/// the pass can be made.
pub open spec fn epoll_wait_outcome(fs: FsView, net: NetView, cwd: Seq<Seq<u8>>, ha: Seq<(i32, (bool, bool))>, fdt: Seq<Option<FileDescriptor>>,
    regs: Seq<(i32, EpollEvent)>, maxevents: i32) -> (int, FsView, Seq<(i32, EpollEvent)>, Seq<EpollEvent>, bool)
{
    let live = live_regs(regs, fdt, regs.len() as int);
    let ps = reg_entries(live);
    let p = poll_pass(fs, net, cwd, ha, fdt, ps, ps.len() as int);
    if p.0 != 0 {
        (p.0, p.1, live, Seq::empty(), p.4)
    } else {
        let evs = epoll_events(live, p.2, live.len() as int);
        let out = evs.take(if evs.len() < maxevents { evs.len() as int } else { maxevents as int });
        (out.len() as int, p.1, live, out, p.4)
    }
}

proof fn lemma_epoll_events_prefix(live: Seq<(i32, EpollEvent)>, rev: Seq<i16>, i: int, n: int)
    requires
        0 <= i <= n,
    ensures
        epoll_events(live, rev, i).len() <= epoll_events(live, rev, n).len(),
        epoll_events(live, rev, n).len() <= n,
        forall|j: int| 0 <= j < epoll_events(live, rev, i).len() ==> epoll_events(live, rev, n)[j] == epoll_events(live, rev, i)[j],
    decreases n - i,
{
    if i < n {
        lemma_epoll_events_prefix(live, rev, i, n - 1);
    } else {
        lemma_epoll_events_len(live, rev, n);
    }
}

proof fn lemma_epoll_events_len(live: Seq<(i32, EpollEvent)>, rev: Seq<i16>, n: int)
    requires
        0 <= n,
    ensures
        epoll_events(live, rev, n).len() <= n,
    decreases n,
{
    if n > 0 {
        lemma_epoll_events_len(live, rev, n - 1);
    }
}

proof fn lemma_read_pass_prefix(fs: FsView, net: NetView, cwd: Seq<Seq<u8>>, ha: Seq<(i32, (bool, bool))>, fdt: Seq<Option<FileDescriptor>>, set: Seq<bool>, i: int, n: int)
    requires
        0 <= i <= n,
        read_pass(fs, net, cwd, ha, fdt, set, n).4,
    ensures
        read_pass(fs, net, cwd, ha, fdt, set, i).4,
    decreases n - i,
{
    if i < n {
        lemma_read_pass_prefix(fs, net, cwd, ha, fdt, set, i, n - 1);
    }
}

proof fn lemma_write_pass_prefix(fs: FsView, net: NetView, ha: Seq<(i32, (bool, bool))>, fdt: Seq<Option<FileDescriptor>>, set: Seq<bool>, i: int, n: int)
    requires
        0 <= i <= n,
        write_pass(fs, net, ha, fdt, set, n).4,
    ensures
        write_pass(fs, net, ha, fdt, set, i).4,
    decreases n - i,
{
    if i < n {
        lemma_write_pass_prefix(fs, net, ha, fdt, set, i, n - 1);
    }
}

proof fn lemma_read_pass_count(fs: FsView, net: NetView, cwd: Seq<Seq<u8>>, ha: Seq<(i32, (bool, bool))>, fdt: Seq<Option<FileDescriptor>>, set: Seq<bool>, n: int)
    requires
        0 <= n <= FD_SET_MAX_FD,
    ensures
        0 <= read_pass(fs, net, cwd, ha, fdt, set, n).3 <= n,
        read_pass(fs, net, cwd, ha, fdt, set, n).2.len() == FD_SET_MAX_FD,
    decreases n,
{
    assert(no_fds().len() == FD_SET_MAX_FD);
    if n > 0 {
        lemma_read_pass_count(fs, net, cwd, ha, fdt, set, n - 1);
    }
}

proof fn lemma_write_pass_count(fs: FsView, net: NetView, ha: Seq<(i32, (bool, bool))>, fdt: Seq<Option<FileDescriptor>>, set: Seq<bool>, n: int)
    requires
        0 <= n <= FD_SET_MAX_FD,
    ensures
        0 <= write_pass(fs, net, ha, fdt, set, n).3 <= n,
        write_pass(fs, net, ha, fdt, set, n).2.len() == FD_SET_MAX_FD,
    decreases n,
{
    assert(no_fds().len() == FD_SET_MAX_FD);
    if n > 0 {
        lemma_write_pass_count(fs, net, ha, fdt, set, n - 1);
    }
}

/// What the host says of descriptor `fd`.
fn host_answer(ha: &Vec<(i32, (bool, bool))>, fd: i32) -> (r: (bool, bool))
    requires
        keys_unique(ha@),
    ensures
        r == host_says(ha@, fd as int),
{
    let mut i: usize = 0;
    while i < ha.len()
        invariant
            i <= ha@.len(),
            keys_unique(ha@),
            forall|j: int| 0 <= j < i ==> ha@[j].0 != fd,
        decreases ha@.len() - i,
    {
        if ha[i].0 == fd {
            proof {
                lemma_assoc_at(ha@, i as int);
            }
            return ha[i].1;
        }
        i = i + 1;
    }
    proof {
        lemma_assoc_absent(ha@, fd);
    }
    (false, false)
}

impl Cage {
    /// Whether the pending table has a connection on the path of `addr`, normalized against
    /// the working directory.
    fn pending_on(&self, net: &NetMetadata, addr: &crate::net::GenSockaddr) -> (r: bool)
        requires
            net.wf(),
            self.wf(),
        ensures
            r == net@.pending.contains_key(path_text(spec_normpath(self.cwd_view(), sun_path(*addr)))),
    {
        let p = sun_path_exec(addr);
        let t = normpath(&self.cwd, p.as_slice());
        let key = path_to_bytes(&t);
        net.get_pending(&key).is_some()
    }

    /// One pass over the read set `readfds` below `nfds`: marks the ready descriptors in
    /// `new_readfds` and counts them in `retval`, as `read_pass` says.
    fn select_readfds(&self, fs: &mut FilesystemMetadata, net: &NetMetadata, ha: &Vec<(i32, (bool, bool))>, nfds: i32, readfds: &FdSet, new_readfds: &mut FdSet, retval: &mut i32) -> (ret: i32)
        requires
            self.inv(old(fs)),
            net.wf(),
            keys_unique(ha@),
            0 <= nfds <= FD_SET_MAX_FD,
            readfds.wf(),
            old(new_readfds).wf(),
            old(new_readfds).bits@ == no_fds(),
            *old(retval) == 0,
            read_pass(old(fs)@, net@, self.cwd_view(), ha@, self.filedescriptortable@, readfds.bits@, nfds as int).4,
        ensures
            self.inv(final(fs)),
            final(new_readfds).wf(),
            ({
                let p = read_pass(old(fs)@, net@, self.cwd_view(), ha@, self.filedescriptortable@, readfds.bits@, nfds as int);
                &&& ret == p.0
                &&& final(fs)@ == p.1
                &&& (p.0 == 0 ==> final(new_readfds).bits@ == p.2 && *final(retval) == p.3)
            }),
    {
        let ghost fs0 = fs@;
        let ghost fdt = self.filedescriptortable@;
        let ghost cwd = self.cwd_view();
        let mut fd: i32 = 0;
        proof {
            lemma_read_pass_count(fs0, net@, cwd, ha@, fdt, readfds.bits@, nfds as int);
        }
        while fd < nfds
            invariant
                0 <= fd <= nfds <= FD_SET_MAX_FD,
                self.inv(fs),
                net.wf(),
                keys_unique(ha@),
                readfds.wf(),
                new_readfds.wf(),
                fdt == self.filedescriptortable@,
                cwd == self.cwd_view(),
                fs0 == old(fs)@,
                read_pass(fs0, net@, cwd, ha@, fdt, readfds.bits@, nfds as int).4,
                ({
                    let p = read_pass(fs0, net@, cwd, ha@, fdt, readfds.bits@, fd as int);
                    &&& p.0 == 0
                    &&& fs@ == p.1
                    &&& new_readfds.bits@ == p.2
                    &&& *retval == p.3
                    &&& 0 <= p.3 <= fd
                }),
            decreases nfds - fd,
        {
            let ghost fsb = *fs;
            proof {
                lemma_read_pass_prefix(fs0, net@, cwd, ha@, fdt, readfds.bits@, fd + 1, nfds as int);
            }
            if readfds.is_set(fd) {
                let mut ready = false;
                match self.get_fd(fd) {
                    None => {
                        proof {
                            lemma_read_pass_stops(fs0, net@, cwd, ha@, fdt, readfds.bits@, fd + 1, nfds as int);
                        }
                        return syscall_error(EBADF);
                    },
                    Some(FileDescriptor::Socket(s)) => {
                        proof {
                            assert(desc_ok(self.fd(fd as int), fs@.locks.len(), fs@.pipes.len(), fs@.sockets.len(), self.epoll_table@.len()));
                        }
                        if s.domain == AF_UNIX {
                            let h = fs.sockets[s.handle];
                            proof {
                                assert(socket_pipes_ok(fs@.sockets[s.handle as int], fs@.pipes.len()));
                            }
                            let mut nc = false;
                            match h.state {
                                ConnState::INPROGRESS => {
                                    let ra = match h.remoteaddr {
                                        Some(a) => a,
                                        None => {
                                            proof {
                                                assert(false);
                                            }
                                            return syscall_error(EINVAL);
                                        },
                                    };
                                    nc = !self.pending_on(net, &ra);
                                },
                                _ => {},
                            }
                            match h.state {
                                ConnState::LISTEN => {
                                    let la = match h.localaddr {
                                        Some(a) => a,
                                        None => {
                                            proof {
                                                assert(false);
                                            }
                                            return syscall_error(EINVAL);
                                        },
                                    };
                                    ready = self.pending_on(net, &la);
                                },
                                ConnState::CONNECTED => {
                                    ready = self.unix_recv_ready(fs, &h);
                                },
                                _ => {
                                    if nc {
                                        ready = self.unix_recv_ready(fs, &h);
                                    }
                                },
                            }
                            if nc {
                                fs.set_socket(s.handle, SocketHandle { state: ConnState::CONNECTED, ..h });
                                proof {
                                    lemma_refs_ok_update(self, self, &fsb, fs, 0, self.fd(0));
                                }
                            }
                        } else if s.domain == AF_INET || s.domain == AF_INET6 {
                            if s.rawfd >= 0 {
                                ready = host_answer(ha, fd).0;
                            }
                        } else {
                            proof {
                                lemma_read_pass_stops(fs0, net@, cwd, ha@, fdt, readfds.bits@, fd + 1, nfds as int);
                            }
                            return syscall_error(EINVAL);
                        }
                    },
                    Some(FileDescriptor::Stream(_)) => {},
                    Some(FileDescriptor::Pipe(p)) => {
                        proof {
                            assert(desc_ok(self.fd(fd as int), fs@.locks.len(), fs@.pipes.len(), fs@.sockets.len(), self.epoll_table@.len()));
                        }
                        ready = fs.pipes[p.pipe].buffer.len() > 0 || fs.pipes[p.pipe].refcount_write == 0;
                    },
                    Some(_) => {
                        ready = true;
                    },
                }
                if ready {
                    new_readfds.set(fd);
                    *retval = *retval + 1;
                }
            }
            fd = fd + 1;
        }
        0
    }

    /// Whether the receiving pipe of the connected unix socket `h` can be read.
    fn unix_recv_ready(&self, fs: &FilesystemMetadata, h: &SocketHandle) -> (r: bool)
        requires
            fs.wf(),
            socket_pipes_ok(*h, fs@.pipes.len()),
            recv_pipe(*h) is Some,
        ensures
            r == pipe_readable(fs@.pipes[recv_pipe(*h)->Some_0 as int]),
    {
        let p = match h.unix_info {
            Some(ui) => match ui.receivepipe {
                Some(p) => p,
                None => {
                    proof {
                        assert(false);
                    }
                    0
                },
            },
            None => {
                proof {
                    assert(false);
                }
                0
            },
        };
        fs.pipes[p].buffer.len() > 0 || fs.pipes[p].refcount_write == 0
    }

    /// One pass over the write set `writefds` below `nfds`, as `write_pass` says; the count
    /// adds to `retval`.
    fn select_writefds(&self, fs: &mut FilesystemMetadata, net: &NetMetadata, ha: &Vec<(i32, (bool, bool))>, nfds: i32, writefds: &FdSet, new_writefds: &mut FdSet, retval: &mut i32) -> (ret: i32)
        requires
            self.inv(old(fs)),
            net.wf(),
            keys_unique(ha@),
            0 <= nfds <= FD_SET_MAX_FD,
            writefds.wf(),
            old(new_writefds).wf(),
            old(new_writefds).bits@ == no_fds(),
            0 <= *old(retval) <= FD_SET_MAX_FD,
            write_pass(old(fs)@, net@, ha@, self.filedescriptortable@, writefds.bits@, nfds as int).4,
        ensures
            self.inv(final(fs)),
            final(new_writefds).wf(),
            ({
                let p = write_pass(old(fs)@, net@, ha@, self.filedescriptortable@, writefds.bits@, nfds as int);
                &&& ret == p.0
                &&& final(fs)@ == p.1
                &&& (p.0 == 0 ==> final(new_writefds).bits@ == p.2 && *final(retval) == *old(retval) + p.3)
            }),
    {
        let ghost fs0 = fs@;
        let ghost fdt = self.filedescriptortable@;
        let ghost r0 = *retval;
        let mut fd: i32 = 0;
        while fd < nfds
            invariant
                0 <= fd <= nfds <= FD_SET_MAX_FD,
                0 <= r0 <= FD_SET_MAX_FD,
                self.inv(fs),
                net.wf(),
                keys_unique(ha@),
                writefds.wf(),
                new_writefds.wf(),
                fdt == self.filedescriptortable@,
                fs0 == old(fs)@,
                r0 == *old(retval),
                write_pass(fs0, net@, ha@, fdt, writefds.bits@, nfds as int).4,
                ({
                    let p = write_pass(fs0, net@, ha@, fdt, writefds.bits@, fd as int);
                    &&& p.0 == 0
                    &&& fs@ == p.1
                    &&& new_writefds.bits@ == p.2
                    &&& *retval == r0 + p.3
                    &&& 0 <= p.3 <= fd
                }),
            decreases nfds - fd,
        {
            let ghost fsb = *fs;
            proof {
                lemma_write_pass_prefix(fs0, net@, ha@, fdt, writefds.bits@, fd + 1, nfds as int);
                lemma_write_pass_count(fs0, net@, ha@, fdt, writefds.bits@, fd as int);
            }
            if writefds.is_set(fd) {
                let mut ready = true;
                match self.get_fd(fd) {
                    None => {
                        proof {
                            lemma_write_pass_stops(fs0, net@, ha@, fdt, writefds.bits@, fd + 1, nfds as int);
                        }
                        return syscall_error(EBADF);
                    },
                    Some(FileDescriptor::Socket(s)) => {
                        proof {
                            assert(desc_ok(self.fd(fd as int), fs@.locks.len(), fs@.pipes.len(), fs@.sockets.len(), self.epoll_table@.len()));
                        }
                        let h = fs.sockets[s.handle];
                        proof {
                            assert(socket_pipes_ok(fs@.sockets[s.handle as int], fs@.pipes.len()));
                        }
                        if h.domain == AF_UNIX {
                            match h.state {
                                ConnState::INPROGRESS => {
                                    let ra = match h.remoteaddr {
                                        Some(a) => a,
                                        None => {
                                            proof {
                                                assert(false);
                                            }
                                            return syscall_error(EINVAL);
                                        },
                                    };
                                    let key = sun_path_exec(&ra);
                                    if net.get_pending(&key).is_none() {
                                        fs.set_socket(s.handle, SocketHandle { state: ConnState::CONNECTED, ..h });
                                        proof {
                                            lemma_refs_ok_update(self, self, &fsb, fs, 0, self.fd(0));
                                        }
                                    }
                                },
                                _ => {},
                            }
                        } else if h.domain == AF_INET || h.domain == AF_INET6 {
                            match h.state {
                                ConnState::INPROGRESS => {
                                    if host_answer(ha, fd).1 {
                                        fs.set_socket(s.handle, SocketHandle { state: ConnState::CONNECTED, ..h });
                                        proof {
                                            lemma_refs_ok_update(self, self, &fsb, fs, 0, self.fd(0));
                                        }
                                    }
                                },
                                _ => {},
                            }
                        } else {
                            proof {
                                lemma_write_pass_stops(fs0, net@, ha@, fdt, writefds.bits@, fd + 1, nfds as int);
                            }
                            return syscall_error(EINVAL);
                        }
                    },
                    Some(FileDescriptor::Pipe(p)) => {
                        proof {
                            assert(desc_ok(self.fd(fd as int), fs@.locks.len(), fs@.pipes.len(), fs@.sockets.len(), self.epoll_table@.len()));
                        }
                        ready = fs.pipes[p.pipe].buffer.len() < PIPE_CAPACITY;
                    },
                    Some(_) => {},
                }
                if ready {
                    new_writefds.set(fd);
                    *retval = *retval + 1;
                }
            }
            fd = fd + 1;
        }
        0
    }

    /// Whether a descriptor below `nfds` in `ex` is closed.
    fn except_check(&self, nfds: i32, ex: &FdSet) -> (r: bool)
        requires
            self.wf(),
            ex.wf(),
            0 <= nfds <= FD_SET_MAX_FD,
        ensures
            r == except_bad(self.filedescriptortable@, ex.bits@, nfds as int),
    {
        let mut fd: i32 = 0;
        while fd < nfds
            invariant
                0 <= fd <= nfds <= FD_SET_MAX_FD,
                self.wf(),
                ex.wf(),
                forall|i: int| 0 <= i < fd ==> !(ex.bits@[i] && #[trigger] self.filedescriptortable@[i] is None),
            decreases nfds - fd,
        {
            if ex.is_set(fd) && self.get_fd(fd).is_none() {
                assert(ex.bits@[fd as int] && self.filedescriptortable@[fd as int] is None);
                return true;
            }
            fd = fd + 1;
        }
        false
    }

    /// One pass of `select` over the descriptors below `nfds`: the read and write sets are
    /// replaced by their ready descriptors, and the result is how many there are; an error
    /// leaves the sets alone. The closed descriptors of `exceptfds` are an error; nothing else
    /// is asked of it. `ha` holds what the host said of inet sockets with a host socket, by
    /// descriptor: whether each can be read and whether it can be written. A caller with time
    /// left asks again and repeats the pass, with its own sets, while the result is 0.
    pub fn select_syscall(&self, fs: &mut FilesystemMetadata, net: &NetMetadata, ha: &Vec<(i32, (bool, bool))>, nfds: i32, readfds: &mut Option<FdSet>, writefds: &mut Option<FdSet>, exceptfds: &Option<FdSet>) -> (ret: i32)
        requires
            self.inv(old(fs)),
            net.wf(),
            keys_unique(ha@),
            *old(readfds) matches Some(r) ==> r.wf(),
            *old(writefds) matches Some(w) ==> w.wf(),
            exceptfds matches Some(e) ==> e.wf(),
            select_outcome(old(fs)@, net@, self.cwd_view(), ha@, self.filedescriptortable@, nfds, opt_bits(*old(readfds)),
                opt_bits(*old(writefds)), opt_bits(*exceptfds)).4,
        ensures
            self.inv(final(fs)),
            *final(readfds) matches Some(r) ==> r.wf(),
            *final(writefds) matches Some(w) ==> w.wf(),
            ({
                let o = select_outcome(old(fs)@, net@, self.cwd_view(), ha@, self.filedescriptortable@, nfds, opt_bits(*old(readfds)),
                    opt_bits(*old(writefds)), opt_bits(*exceptfds));
                &&& ret == o.0
                &&& final(fs)@ == o.1
                &&& opt_bits(*final(readfds)) == o.2
                &&& opt_bits(*final(writefds)) == o.3
            }),
    {
        if nfds < 0 || nfds > FD_SET_MAX_FD {
            return syscall_error(EINVAL);
        }
        let ghost fs0 = fs@;
        let mut retval: i32 = 0;
        let mut new_readfds = FdSet::new();
        let mut new_writefds = FdSet::new();
        match &*readfds {
            Some(r) => {
                proof {
                    lemma_read_pass_count(fs0, net@, self.cwd_view(), ha@, self.filedescriptortable@, r.bits@, nfds as int);
                }
                let res = self.select_readfds(fs, net, ha, nfds, r, &mut new_readfds, &mut retval);
                if res != 0 {
                    return res;
                }
            },
            None => {},
        }
        let ghost fs1 = fs@;
        match &*writefds {
            Some(w) => {
                proof {
                    lemma_write_pass_count(fs1, net@, ha@, self.filedescriptortable@, w.bits@, nfds as int);
                }
                let res = self.select_writefds(fs, net, ha, nfds, w, &mut new_writefds, &mut retval);
                if res != 0 {
                    return res;
                }
            },
            None => {},
        }
        match exceptfds {
            Some(e) => {
                if self.except_check(nfds, e) {
                    return syscall_error(EBADF);
                }
            },
            None => {},
        }
        if readfds.is_some() {
            *readfds = Some(new_readfds);
        }
        if writefds.is_some() {
            *writefds = Some(new_writefds);
        }
        retval
    }

    /// One pass of `poll` over `fds`: each entry's events are set as `poll_pass` says, and the
    /// result is the number of entries with events or a closed descriptor. `ha` holds the
    /// host's answers, as for `select_syscall`. A caller with time left repeats the pass while
    /// the result is 0.
    pub fn poll_syscall(&self, fs: &mut FilesystemMetadata, net: &NetMetadata, ha: &Vec<(i32, (bool, bool))>, fds: &mut Vec<PollStruct>) -> (ret: i32)
        requires
            self.inv(old(fs)),
            net.wf(),
            keys_unique(ha@),
            old(fds)@.len() <= i32::MAX,
            forall|i: int| 0 <= i < old(fds)@.len() ==> poll_entry_ok(#[trigger] old(fds)@[i]),
            poll_pass(old(fs)@, net@, self.cwd_view(), ha@, self.filedescriptortable@, old(fds)@, old(fds)@.len() as int).4,
        ensures
            self.inv(final(fs)),
            final(fds)@.len() == old(fds)@.len(),
            forall|i: int| 0 <= i < old(fds)@.len() ==> (#[trigger] final(fds)@[i]).fd == old(fds)@[i].fd
                && final(fds)@[i].events == old(fds)@[i].events,
            ({
                let p = poll_pass(old(fs)@, net@, self.cwd_view(), ha@, self.filedescriptortable@, old(fds)@, old(fds)@.len() as int);
                &&& ret == (if p.0 != 0 { p.0 } else { p.3 })
                &&& final(fs)@ == p.1
                &&& revents_of(final(fds)@) == p.2
            }),
    {
        let ghost fs0 = fs@;
        let ghost ps = fds@;
        let ghost fdt = self.filedescriptortable@;
        let ghost cwd = self.cwd_view();
        let n = fds.len();
        let mut k: usize = 0;
        while k < n
            invariant
                k <= n == fds@.len() == ps.len(),
                forall|i: int| 0 <= i < n ==> (#[trigger] fds@[i]).fd == ps[i].fd && fds@[i].events == ps[i].events,
                forall|i: int| 0 <= i < k ==> (#[trigger] fds@[i]).revents == 0,
            decreases n - k,
        {
            let mut e = fds[k];
            e.revents = 0;
            fds.set(k, e);
            k = k + 1;
        }
        assert(revents_of(fds@) =~= Seq::new(ps.len(), |i: int| 0i16));
        proof {
            lemma_poll_pass_shape(fs0, net@, cwd, ha@, fdt, ps, n as int);
        }
        let mut count: i32 = 0;
        let mut k: usize = 0;
        while k < n
            invariant
                k <= n == fds@.len() == ps.len() <= i32::MAX,
                self.inv(fs),
                net.wf(),
                keys_unique(ha@),
                fdt == self.filedescriptortable@,
                cwd == self.cwd_view(),
                fs0 == old(fs)@,
                ps == old(fds)@,
                forall|i: int| 0 <= i < n ==> (#[trigger] fds@[i]).fd == ps[i].fd && fds@[i].events == ps[i].events,
                forall|i: int| 0 <= i < n ==> poll_entry_ok(#[trigger] ps[i]),
                poll_pass(fs0, net@, cwd, ha@, fdt, ps, n as int).4,
                ({
                    let p = poll_pass(fs0, net@, cwd, ha@, fdt, ps, k as int);
                    &&& p.0 == 0
                    &&& fs@ == p.1
                    &&& revents_of(fds@) == p.2
                    &&& count == p.3
                    &&& 0 <= p.3 <= k
                }),
            decreases n - k,
        {
            proof {
                lemma_poll_pass_prefix(fs0, net@, cwd, ha@, fdt, ps, k + 1, n as int);
                lemma_poll_pass_shape(fs0, net@, cwd, ha@, fdt, ps, k as int);
            }
            let ent = fds[k];
            assert(ent.fd == ps[k as int].fd && ent.events == ps[k as int].events);
            if ent.fd >= 0 {
                let fd = ent.fd;
                let ev = ent.events;
                proof {
                    assert(ev & 0o1i16 > 0 ==> ev & (0o1i16 | 0o4i16 | 0o2i16) != 0) by (bit_vector);
                    assert(ev & 0o4i16 > 0 ==> ev & (0o1i16 | 0o4i16 | 0o2i16) != 0) by (bit_vector);
                    assert(ev & 0o2i16 > 0 ==> ev & (0o1i16 | 0o4i16 | 0o2i16) != 0) by (bit_vector);
                }
                let mut rd = FdSet::new();
                let mut wr = FdSet::new();
                let mut ex = FdSet::new();
                if ent.events & POLLIN > 0 {
                    rd.set(fd);
                }
                if ent.events & POLLOUT > 0 {
                    wr.set(fd);
                }
                if ent.events & POLLPRI > 0 {
                    ex.set(fd);
                }
                proof {
                    assert(rd.bits@ =~= fds_with(fd, ent.events & POLLIN > 0));
                    assert(wr.bits@ =~= fds_with(fd, ent.events & POLLOUT > 0));
                    assert(ex.bits@ =~= fds_with(fd, ent.events & POLLPRI > 0));
                }
                let mut rdo = Some(rd);
                let mut wro = Some(wr);
                let exo = Some(ex);
                let r = self.select_syscall(fs, net, ha, fd + 1, &mut rdo, &mut wro, &exo);
                let mut mask: i16 = 0;
                if r > 0 {
                    let rd_any = match &rdo {
                        Some(x) => !x.is_empty(),
                        None => false,
                    };
                    let wr_any = match &wro {
                        Some(x) => !x.is_empty(),
                        None => false,
                    };
                    mask = (if rd_any { POLLIN } else { 0 }) | (if wr_any { POLLOUT } else { 0 });
                    count = count + 1;
                } else if r < 0 {
                    if r == syscall_error(EBADF) {
                        mask = POLLNVAL;
                        count = count + 1;
                    } else {
                        proof {
                            lemma_poll_pass_stops(fs0, net@, cwd, ha@, fdt, ps, k + 1, n as int);
                        }
                        return r;
                    }
                }
                let mut e2 = fds[k];
                e2.revents = mask;
                fds.set(k, e2);
                assert(revents_of(fds@) =~= poll_pass(fs0, net@, cwd, ha@, fdt, ps, k as int).2.update(k as int, mask));
            } else {
                let mut e2 = fds[k];
                e2.revents = 0;
                fds.set(k, e2);
                assert(revents_of(fds@) =~= poll_pass(fs0, net@, cwd, ha@, fdt, ps, k as int).2.update(k as int, 0));
            }
            k = k + 1;
        }
        count
    }

    /// One pass of `epoll_wait` on the epoll instance at `epfd`: registrations of closed
    /// descriptors are dropped, the others are polled once, and the events found (at most
    /// `maxevents`) are written to the front of `events`; the result is how many.
    pub fn epoll_wait_syscall(&mut self, fs: &mut FilesystemMetadata, net: &NetMetadata, ha: &Vec<(i32, (bool, bool))>, epfd: i32, events: &mut Vec<EpollEvent>, maxevents: i32) -> (ret: i32)
        requires
            old(self).inv(old(fs)),
            net.wf(),
            keys_unique(ha@),
            0 <= epfd < MAXFD ==> (old(self).fd(epfd as int) matches Some(FileDescriptor::Epoll(e)) ==> {
                &&& e.registered < old(self).epoll_table@.len()
                &&& old(self).epoll_table@[e.registered as int]@.len() <= i32::MAX
                &&& forall|j: int| 0 <= j < old(self).epoll_table@[e.registered as int]@.len()
                    ==> 0 <= (#[trigger] old(self).epoll_table@[e.registered as int]@[j]).0 < MAXFD
                &&& maxevents > 0 ==> {
                    let o = epoll_wait_outcome(old(fs)@, net@, old(self).cwd_view(), ha@, old(self).filedescriptortable@,
                        old(self).epoll_table@[e.registered as int]@, maxevents);
                    o.4 && o.3.len() <= old(events)@.len()
                }
            }),
        ensures
            final(self).inv(final(fs)),
            *final(self) == (Cage { epoll_table: final(self).epoll_table, ..*old(self) }),
            final(self).epoll_table@.len() == old(self).epoll_table@.len(),
            final(events)@.len() == old(events)@.len(),
            if epfd < 0 || epfd >= MAXFD {
                ret == err(EBADF) && final(fs)@ == old(fs)@ && *final(self) == *old(self) && final(events)@ == old(events)@
            } else {
                match old(self).fd(epfd as int) {
                    None => ret == err(EBADF) && final(fs)@ == old(fs)@ && *final(self) == *old(self) && final(events)@ == old(events)@,
                    Some(FileDescriptor::Epoll(e)) => if maxevents <= 0 {
                        ret == err(EINVAL) && final(fs)@ == old(fs)@ && *final(self) == *old(self) && final(events)@ == old(events)@
                    } else {
                        let k = e.registered as int;
                        let o = epoll_wait_outcome(old(fs)@, net@, old(self).cwd_view(), ha@, old(self).filedescriptortable@,
                            old(self).epoll_table@[k]@, maxevents);
                        &&& ret == o.0
                        &&& final(fs)@ == o.1
                        &&& final(self).epoll_table@[k]@ == o.2
                        &&& forall|j: int| 0 <= j < old(self).epoll_table@.len() && j != k
                            ==> #[trigger] final(self).epoll_table@[j] == old(self).epoll_table@[j]
                        &&& final(events)@ == o.3 + old(events)@.skip(o.3.len() as int)
                    },
                    Some(_) => ret == err(EINVAL) && final(fs)@ == old(fs)@ && *final(self) == *old(self) && final(events)@ == old(events)@,
                }
            },
    {
        if epfd < 0 || epfd >= MAXFD {
            return syscall_error(EBADF);
        }
        let e = match self.get_fd(epfd) {
            None => {
                return syscall_error(EBADF);
            },
            Some(FileDescriptor::Epoll(e)) => e,
            Some(_) => {
                return syscall_error(EINVAL);
            },
        };
        if maxevents <= 0 {
            return syscall_error(EINVAL);
        }
        let ghost self0 = *self;
        let ghost fs0 = *fs;
        let ghost fdt = self.filedescriptortable@;
        let k = e.registered;
        let ghost regs = self.epoll_table@[k as int]@;
        let mut live: Vec<(i32, EpollEvent)> = Vec::new();
        let mut live2: Vec<(i32, EpollEvent)> = Vec::new();
        let mut ps: Vec<PollStruct> = Vec::new();
        let nr = self.epoll_table[k].len();
        let mut i: usize = 0;
        while i < nr
            invariant
                i <= nr == regs.len(),
                self.wf(),
                k < self.epoll_table@.len(),
                regs == self.epoll_table@[k as int]@,
                fdt == self.filedescriptortable@,
                keys_unique(regs),
                forall|j: int| 0 <= j < regs.len() ==> 0 <= (#[trigger] regs[j]).0 < MAXFD,
                live@ == live_regs(regs, fdt, i as int),
                live2@ == live@,
                live@.len() <= i,
                ps@ == reg_entries(live@),
                keys_unique(live@),
                forall|a: int| 0 <= a < live@.len() ==> exists|j: int| 0 <= j < i && (#[trigger] live@[a]) == regs[j],
            decreases nr - i,
        {
            let r = self.epoll_table[k][i];
            proof {
                assert(keys_unique(self.epoll_table@[k as int]@));
            }
            if self.get_fd(r.0).is_some() {
                proof {
                    assert forall|a: int, b: int| 0 <= a < live@.push(r).len() && 0 <= b < live@.push(r).len()
                        && #[trigger] live@.push(r)[a].0 == #[trigger] live@.push(r)[b].0 implies a == b by {
                        if a < live@.len() && b == live@.len() {
                            let j = choose|j: int| 0 <= j < i && live@[a] == regs[j];
                            assert(regs[j].0 == regs[i as int].0);
                        }
                        if b < live@.len() && a == live@.len() {
                            let j = choose|j: int| 0 <= j < i && live@[b] == regs[j];
                            assert(regs[j].0 == regs[i as int].0);
                        }
                    }
                }
                live.push(r);
                live2.push(r);
                let evs = r.1.events;
                let pe: i16 = (if evs & (EPOLLIN as u32) > 0 { POLLIN } else { 0 }) | (if evs & (EPOLLOUT as u32) > 0 { POLLOUT } else { 0 })
                    | (if evs & (EPOLLPRI as u32) > 0 { POLLPRI } else { 0 });
                ps.push(PollStruct { fd: r.0, events: pe, revents: 0 });
                proof {
                    assert(ps@ =~= reg_entries(live@));
                    assert forall|a: int| 0 <= a < live@.len() implies exists|j: int| 0 <= j < i + 1 && (#[trigger] live@[a]) == regs[j] by {
                        if a == live@.len() - 1 {
                            assert(live@[a] == regs[i as int]);
                        } else {
                            let j = choose|j: int| 0 <= j < i && live@[a] == regs[j];
                            assert(live@[a] == regs[j]);
                        }
                    }
                }
            }
            i = i + 1;
        }
        let mut old_list = live;
        self.epoll_table.set_and_swap(k, &mut old_list);
        proof {
            assert forall|j: int| 0 <= j < self.epoll_table@.len() implies keys_unique((#[trigger] self.epoll_table@[j])@) by {
                if j != k {
                    assert(self.epoll_table@[j] == self0.epoll_table@[j]);
                }
            }
            lemma_refs_ok_update(&self0, self, &fs0, fs, 0, self0.fd(0));
            assert forall|j: int| 0 <= j < ps@.len() implies poll_entry_ok(#[trigger] ps@[j]) by {
                let a = live2@[j];
                let jj = choose|jj: int| 0 <= jj < nr && a == regs[jj];
                assert(0 <= regs[jj].0 < MAXFD);
            }
        }
        let ghost ps0 = ps@;
        proof {
            assert(ps0 == reg_entries(live_regs(regs, fdt, regs.len() as int)));
            lemma_poll_pass_shape(fs0@, net@, self0.cwd_view(), ha@, fdt, ps0, ps0.len() as int);
        }
        let r = self.poll_syscall(fs, net, ha, &mut ps);
        if r < 0 {
            return r;
        }
        let ghost rev = revents_of(ps@);
        let n = ps.len();
        let mut count: usize = 0;
        let mut i: usize = 0;
        let ghost ev0 = events@;
        proof {
            lemma_epoll_events_prefix(live2@, rev, 0, n as int);
            let o = epoll_wait_outcome(fs0@, net@, self0.cwd_view(), ha@, fdt, regs, maxevents);
            let pp = poll_pass(fs0@, net@, self0.cwd_view(), ha@, fdt, ps0, ps0.len() as int);
            assert(self.cwd_view() == self0.cwd_view());
            assert(self.filedescriptortable@ == fdt);
            assert(rev == pp.2);
            assert(live2@ == live_regs(regs, fdt, regs.len() as int));
            assert(n == live2@.len());
            assert(o.3 == epoll_events(live2@, rev, n as int).take(
                    if epoll_events(live2@, rev, n as int).len() < maxevents { epoll_events(live2@, rev, n as int).len() as int } else { maxevents as int }));
            assert(o.3.len() <= ev0.len());
        }
        while i < n && count < maxevents as usize
            invariant
                i <= n == ps@.len() == live2@.len(),
                rev == revents_of(ps@),
                0 < maxevents,
                count == epoll_events(live2@, rev, i as int).len(),
                count <= maxevents,
                epoll_events(live2@, rev, n as int).take(
                    if epoll_events(live2@, rev, n as int).len() < maxevents { epoll_events(live2@, rev, n as int).len() as int } else { maxevents as int }
                ).len() <= ev0.len(),
                events@.len() == ev0.len(),
                events@ == epoll_events(live2@, rev, i as int) + ev0.skip(count as int),
            decreases n - i,
        {
            proof {
                lemma_epoll_events_prefix(live2@, rev, i + 1, n as int);
            }
            let rv = ps[i].revents;
            let m: u32 = (if rv & POLLIN > 0 { EPOLLIN as u32 } else { 0 }) | (if rv & POLLOUT > 0 { EPOLLOUT as u32 } else { 0 })
                | (if rv & POLLPRI > 0 { EPOLLPRI as u32 } else { 0 });
            if m != 0 {
                let ev = EpollEvent { events: m, fd: live2[i].1.fd };
                events.set(count, ev);
                count = count + 1;
                proof {
                    assert(events@ =~= epoll_events(live2@, rev, i + 1) + ev0.skip(count as int));
                }
            }
            i = i + 1;
        }
        proof {
            let full = epoll_events(live2@, rev, n as int);
            let part = epoll_events(live2@, rev, i as int);
            lemma_epoll_events_prefix(live2@, rev, i as int, n as int);
            if i < n {
                assert(full.take(maxevents as int) =~= part);
            } else {
                assert(full.take(full.len() as int) =~= full);
            }
        }
        count as i32
    }
}

} // verus!
