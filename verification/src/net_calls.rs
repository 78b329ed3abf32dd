//! Socket and epoll calls that work on the library's own state: creating sockets, their
//! options and addresses, `listen` and `shutdown`, the host name, and epoll registrations.
//! Moving data over inet sockets is the host's.
use vstd::prelude::*;
use crate::errno::{
    err, syscall_error, EBADF, EEXIST, EINVAL, ENFILE, ENOENT, ENOPROTOOPT, ENOTCONN, ENOTSOCK,
    EOPNOTSUPP, EPERM,
};
use crate::assoc::{assoc_map, keys_unique, lemma_assoc_at, lemma_assoc_absent, lemma_assoc_update, lemma_assoc_push, lemma_assoc_remove};
use crate::cage::{Cage, FileDescriptor, SocketDesc, EpollDesc, EpollEvent, same_but_fds, desc_ok, lemma_refs_ok_update};
use crate::filesystem::{FilesystemMetadata, FsView, AdvisoryLock, socket_pipes_ok};
use crate::fs_constants::{MAXFD, O_CLOEXEC, O_NONBLOCK};
use crate::net::{
    ConnState, GenSockaddr, SocketHandle, AF_INET, AF_UNIX, PF_INET, PF_INET6, PF_UNIX, SOCK_STREAM,
    SOCK_DGRAM, SOCK_NONBLOCK, SOCK_CLOEXEC, IPPROTO_TCP, IPPROTO_UDP, SOL_SOCKET, SOL_TCP, SOL_UDP,
    TCP_NODELAY, SO_ACCEPTCONN, SO_LINGER, SO_KEEPALIVE, SO_SNDLOWAT, SO_RCVLOWAT, SO_REUSEPORT,
    SO_REUSEADDR, SO_SNDBUF, SO_RCVBUF, SO_TYPE, SO_OOBINLINE, SO_ERROR, SHUT_RD, SHUT_WR, SHUT_RDWR,
    EPOLL_CTL_ADD, EPOLL_CTL_DEL, EPOLL_CTL_MOD,
};

verus! {

/// Send buffer size a new socket reports.
pub const DEFAULT_SNDBUF: i32 = 131070;
/// Receive buffer size a new socket reports.
pub const DEFAULT_RCVBUF: i32 = 262140;

/// The host name, with its terminating zero byte.
pub open spec fn hostname_bytes() -> Seq<u8> {
    seq![76u8, 105u8, 110u8, 100u8, 0u8]
}

/// The bit of option `optname` in an option word: the shift counts modulo 32.
pub open spec fn opt_bit(optname: i32) -> i32 {
    (1u32 << ((optname & 31) as u32)) as i32
}

/// The handle a new socket starts with.
pub open spec fn new_handle(domain: i32, socktype: i32, protocol: i32, flags: i32) -> SocketHandle {
    SocketHandle {
        socket_options: flags,
        tcp_options: 0,
        state: ConnState::NOTCONNECTED,
        protocol,
        domain,
        localaddr: None,
        remoteaddr: None,
        unix_info: None,
        socktype,
        sndbuf: DEFAULT_SNDBUF,
        rcvbuf: DEFAULT_RCVBUF,
        errno: 0,
    }
}

/// The protocol `socket` uses, or `None` for a type or protocol it does not support.
pub open spec fn socket_protocol(socktype: i32, protocol: i32) -> Option<i32> {
    if socktype & 0x7 == SOCK_STREAM {
        if protocol == 0 || protocol == IPPROTO_TCP { Some(IPPROTO_TCP) } else { None }
    } else if socktype & 0x7 == SOCK_DGRAM {
        if protocol == 0 || protocol == IPPROTO_UDP { Some(IPPROTO_UDP) } else { None }
    } else {
        None
    }
}

/// Whether `socket` accepts these arguments.
pub open spec fn socket_supported(domain: i32, socktype: i32, protocol: i32) -> bool {
    &&& socktype & !(SOCK_NONBLOCK | SOCK_CLOEXEC | 0x7) == 0
    &&& socket_protocol(socktype, protocol) is Some
    &&& (domain == PF_INET || domain == PF_INET6 || domain == PF_UNIX)
}

/// The descriptor flags of a new socket.
pub open spec fn socket_flags(socktype: i32) -> i32 {
    (if socktype & SOCK_NONBLOCK != 0 { O_NONBLOCK } else { 0 }) | (if socktype & SOCK_CLOEXEC != 0 { O_CLOEXEC } else { 0 })
}

/// The socket handle behind descriptor `d`, if it is a socket.
pub open spec fn sock_of(fs: FsView, d: Option<FileDescriptor>) -> Option<(int, SocketHandle)> {
    match d {
        Some(FileDescriptor::Socket(s)) => Some((s.handle as int, fs.sockets[s.handle as int])),
        _ => None,
    }
}

/// The file system with socket handle `i` replaced.
pub open spec fn with_socket(fs: FsView, i: int, h: SocketHandle) -> FsView {
    FsView { sockets: fs.sockets.update(i, h), ..fs }
}

/// What `getsockopt` gives for a socket: the return value, the option value and the handle
/// afterwards.
pub open spec fn getsockopt_outcome(h: SocketHandle, level: i32, optname: i32) -> (int, Option<i32>, SocketHandle) {
    let bit = opt_bit(optname);
    if level == SOL_TCP {
        if optname == TCP_NODELAY {
            (0, Some(if bit & h.tcp_options == bit { 1i32 } else { 0i32 }), h)
        } else {
            (err(EOPNOTSUPP), None, h)
        }
    } else if level == SOL_SOCKET {
        if optname == SO_ACCEPTCONN {
            (0, Some(if h.state == ConnState::LISTEN { 1i32 } else { 0i32 }), h)
        } else if optname == SO_LINGER || optname == SO_KEEPALIVE || optname == SO_SNDLOWAT || optname == SO_RCVLOWAT
            || optname == SO_REUSEPORT || optname == SO_REUSEADDR {
            (0, Some(if h.socket_options & bit == bit { 1i32 } else { 0i32 }), h)
        } else if optname == SO_SNDBUF {
            (0, Some(h.sndbuf), h)
        } else if optname == SO_RCVBUF {
            (0, Some(h.rcvbuf), h)
        } else if optname == SO_TYPE {
            (0, Some(h.socktype), h)
        } else if optname == SO_OOBINLINE {
            (0, Some(1i32), h)
        } else if optname == SO_ERROR {
            (0, Some(h.errno), SocketHandle { errno: 0, ..h })
        } else {
            (err(EOPNOTSUPP), None, h)
        }
    } else {
        (err(EOPNOTSUPP), None, h)
    }
}

/// An option word with `bit` set (`on`) or cleared.
pub open spec fn set_bit(word: i32, bit: i32, on: bool) -> i32 {
    if on { word | bit } else { word & !bit }
}

/// What `setsockopt` does to a socket: the return value and the handle afterwards.
pub open spec fn setsockopt_outcome(h: SocketHandle, level: i32, optname: i32, optval: i32) -> (int, SocketHandle) {
    let bit = opt_bit(optname);
    if level == SOL_TCP {
        if optname == TCP_NODELAY {
            (0, SocketHandle { tcp_options: set_bit(h.tcp_options, bit, optval != 0), ..h })
        } else {
            (err(EOPNOTSUPP), h)
        }
    } else if level == SOL_SOCKET {
        if optname == SO_ACCEPTCONN || optname == SO_TYPE || optname == SO_SNDLOWAT || optname == SO_RCVLOWAT {
            (err(ENOPROTOOPT), h)
        } else if optname == SO_LINGER || optname == SO_KEEPALIVE || optname == SO_REUSEPORT || optname == SO_REUSEADDR {
            (0, SocketHandle { socket_options: set_bit(h.socket_options, bit, optval != 0), ..h })
        } else if optname == SO_SNDBUF {
            (0, SocketHandle { sndbuf: optval, ..h })
        } else if optname == SO_RCVBUF {
            (0, SocketHandle { rcvbuf: optval, ..h })
        } else if optname == SO_OOBINLINE {
            (if optval != 1 { err(EOPNOTSUPP) } else { 0 }, h)
        } else {
            (err(EOPNOTSUPP), h)
        }
    } else {
        (err(EOPNOTSUPP), h)
    }
}

/// What setting an option does to handle `h`, as `setsockopt_outcome` says.
fn apply_sockopt(h: SocketHandle, level: i32, optname: i32, optval: i32) -> (r: (i32, SocketHandle))
    ensures
        r.0 == setsockopt_outcome(h, level, optname, optval).0,
        r.1 == setsockopt_outcome(h, level, optname, optval).1,
{
    let bit = bit_of(optname);
    let mut nh = h;
    let r: i32;
    if level == SOL_TCP {
        if optname == TCP_NODELAY {
            nh.tcp_options = if optval != 0 { h.tcp_options | bit } else { h.tcp_options & !bit };
            r = 0;
        } else {
            r = syscall_error(EOPNOTSUPP);
        }
    } else if level == SOL_SOCKET {
        if optname == SO_ACCEPTCONN || optname == SO_TYPE || optname == SO_SNDLOWAT || optname == SO_RCVLOWAT {
            r = syscall_error(ENOPROTOOPT);
        } else if optname == SO_LINGER || optname == SO_KEEPALIVE || optname == SO_REUSEPORT || optname == SO_REUSEADDR {
            nh.socket_options = if optval != 0 { h.socket_options | bit } else { h.socket_options & !bit };
            r = 0;
        } else if optname == SO_SNDBUF {
            nh.sndbuf = optval;
            r = 0;
        } else if optname == SO_RCVBUF {
            nh.rcvbuf = optval;
            r = 0;
        } else if optname == SO_OOBINLINE {
            r = if optval != 1 { syscall_error(EOPNOTSUPP) } else { 0 };
        } else {
            r = syscall_error(EOPNOTSUPP);
        }
    } else {
        r = syscall_error(EOPNOTSUPP);
    }
    (r, nh)
}

/// Whether setting this option is passed on to the socket's host socket, where it has one:
/// `TCP_NODELAY`, `SO_REUSEPORT` and `SO_REUSEADDR`, when the setting actually changes.
pub open spec fn setsockopt_asks_host(h: SocketHandle, level: i32, optname: i32, optval: i32) -> bool {
    let o = setsockopt_outcome(h, level, optname, optval);
    &&& o.0 == 0
    &&& ((level == SOL_TCP && optname == TCP_NODELAY && o.1.tcp_options != h.tcp_options)
        || (level == SOL_SOCKET && (optname == SO_REUSEPORT || optname == SO_REUSEADDR)
            && o.1.socket_options != h.socket_options))
}

/// The state of a socket after `shutdown` with `how`.
pub open spec fn shutdown_state(s: ConnState, how: i32) -> ConnState {
    if how == SHUT_RD {
        if s == ConnState::CONNWRONLY { ConnState::NOTCONNECTED } else { ConnState::CONNWRONLY }
    } else if how == SHUT_WR {
        if s == ConnState::CONNRDONLY { ConnState::NOTCONNECTED } else { ConnState::CONNRDONLY }
    } else {
        ConnState::NOTCONNECTED
    }
}

/// What shutting down a socket does to its handle, as a result and the handle afterwards.
/// An inet socket with a host socket is shut down there first when `shutdown` is asked
/// (`shutdown_errno` is the host's answer); an inet socket lets go of its local address (and
/// its reserved port, `release` being the result of that) when it is closed both ways, when
/// the direction left open is the one shut, or when it has no host socket. Then the state
/// follows `how`.
pub open spec fn cleanup_outcome(h: SocketHandle, how: i32, shutdown: bool, host_socket: bool, shutdown_errno: i32, release: i32) -> (int, SocketHandle) {
    let valid = how == SHUT_RD || how == SHUT_WR || how == SHUT_RDWR;
    let fin = |g: SocketHandle| if valid {
        (0int, SocketHandle { state: shutdown_state(g.state, how), ..g })
    } else {
        (err(EINVAL), g)
    };
    if h.domain != AF_UNIX {
        if host_socket && shutdown && shutdown_errno != 0 {
            (err(shutdown_errno), h)
        } else if host_socket && !valid {
            (err(EINVAL), h)
        } else {
            let releaseflag = !host_socket || how == SHUT_RDWR || (how == SHUT_RD && h.state == ConnState::CONNRDONLY)
                || (how == SHUT_WR && h.state == ConnState::CONNWRONLY);
            if releaseflag && h.localaddr is Some {
                let h1 = SocketHandle { localaddr: None, ..h };
                if release != 0 { (release as int, h1) } else { fin(h1) }
            } else {
                fin(h)
            }
        }
    } else {
        fin(h)
    }
}

/// Whether `r` is the address `getsockname` reports for a socket without one: its family
/// with a zero address and port, and a zero path for a unix socket (an inet socket keeps the
/// path of `prev`).
pub open spec fn is_unbound_name(h: SocketHandle, prev: GenSockaddr, r: GenSockaddr) -> bool {
    &&& r.family == h.domain as u16
    &&& r.port == 0
    &&& r.addr@ == Seq::new(16, |i: int| 0u8)
    &&& r.path@ == (if h.domain == AF_UNIX { Seq::new(108, |i: int| 0u8) } else { prev.path@ })
}

/// The registrations of epoll list `i` of a cage, by descriptor.
pub open spec fn regs(c: &Cage, i: int) -> Map<i32, EpollEvent> {
    assoc_map(c.epoll_table@[i]@)
}

/// Whether the descriptor at `fd` may be registered with an epoll instance: it exists and is
/// neither an epoll instance (`EBADF`) nor a regular file (`EPERM`).
pub open spec fn epoll_target_error(d: Option<FileDescriptor>) -> Option<i32> {
    match d {
        None => Some(EBADF),
        Some(FileDescriptor::Epoll(_)) => Some(EBADF),
        Some(FileDescriptor::File(_)) => Some(EPERM),
        _ => None,
    }
}

fn bit_of(optname: i32) -> (r: i32)
    ensures
        r == opt_bit(optname),
{
    let k = optname & 31;
    assert(0 <= k < 32) by (bit_vector)
        requires
            k == optname & 31,
    ;
    (1u32 << (k as u32)) as i32
}

fn find_reg(t: &Vec<(i32, EpollEvent)>, fd: i32) -> (r: Option<usize>)
    requires
        keys_unique(t@),
    ensures
        match r {
            Some(i) => i < t@.len() && t@[i as int].0 == fd && assoc_map(t@).contains_key(fd),
            None => !assoc_map(t@).contains_key(fd),
        },
{
    let mut i: usize = 0;
    while i < t.len()
        invariant
            i <= t@.len(),
            keys_unique(t@),
            forall|j: int| 0 <= j < i ==> t@[j].0 != fd,
        decreases t@.len() - i,
    {
        if t[i].0 == fd {
            proof {
                lemma_assoc_at(t@, i as int);
            }
            return Some(i);
        }
        i = i + 1;
    }
    proof {
        lemma_assoc_absent(t@, fd);
    }
    None
}

/// A new socket handle `h` with a fresh advisory lock, put at the lowest free descriptor
/// (`lowest`) if there is one: the result, the file system and the descriptor table. The handle
/// and the lock stay when no descriptor is free.
pub open spec fn install_socket(fs: FsView, fds: Seq<Option<FileDescriptor>>, lowest: Option<i32>, h: SocketHandle, flags: i32)
    -> (int, FsView, Seq<Option<FileDescriptor>>)
{
    let fs1 = FsView { sockets: fs.sockets.push(h), locks: fs.locks.push(AdvisoryLock { state: 0 }), ..fs };
    match lowest {
        None => (err(ENFILE), fs1, fds),
        Some(f) => (
            f as int,
            fs1,
            fds.update(
                f as int,
                Some(FileDescriptor::Socket(SocketDesc {
                    flags,
                    domain: h.domain,
                    rawfd: -1i32,
                    handle: fs.sockets.len() as usize,
                    advlock: fs.locks.len() as usize,
                })),
            ),
        ),
    }
}

impl Cage {
    /// Makes socket handle `h` and a lock for it, and puts a descriptor for it at the lowest
    /// free number.
    pub(crate) fn new_socket_fd(&mut self, fs: &mut FilesystemMetadata, h: SocketHandle, flags: i32) -> (r: i32)
        requires
            old(self).inv(old(fs)),
            socket_pipes_ok(h, old(fs)@.pipes.len()),
        ensures
            final(self).inv(final(fs)),
            same_but_fds(*old(self), *final(self)),
            ({
                let o = install_socket(old(fs)@, old(self).filedescriptortable@, old(self).lowest_free(0), h, flags);
                &&& r == o.0
                &&& final(fs)@ == o.1
                &&& final(self).filedescriptortable@ == o.2
            }),
    {
        let ghost self_old = *self;
        let ghost fs_old = *fs;
        let handle = fs.new_socket(h);
        let advlock = fs.new_advlock();
        proof {
            lemma_refs_ok_update(&self_old, self, &fs_old, fs, 0, self_old.fd(0));
            assert(fs@ =~= FsView {
                sockets: fs_old@.sockets.push(h),
                locks: fs_old@.locks.push(AdvisoryLock { state: 0 }),
                ..fs_old@
            });
        }
        match self.get_next_fd(0) {
            None => syscall_error(ENFILE),
            Some(f) => {
                let d = FileDescriptor::Socket(SocketDesc { flags, domain: h.domain, rawfd: -1, handle, advlock });
                self.set_fd(f, Some(d));
                proof {
                    lemma_refs_ok_update(&self_old, self, fs, fs, f as int, Some(d));
                }
                f
            },
        }
    }

    /// Creates a socket of the given domain, type and protocol and returns its descriptor, the
    /// lowest free one. Its handle and advisory lock are made before a descriptor is looked
    /// for, and stay when none is free. A flag bit other than `SOCK_NONBLOCK` and
    /// `SOCK_CLOEXEC` is refused with `EINVAL`; an unsupported domain, type or protocol with
    /// `EOPNOTSUPP`.
    pub fn socket_syscall(&mut self, fs: &mut FilesystemMetadata, domain: i32, socktype: i32, protocol: i32) -> (ret: i32)
        requires
            old(self).inv(old(fs)),
        ensures
            final(self).inv(final(fs)),
            same_but_fds(*old(self), *final(self)),
            socktype & !(SOCK_NONBLOCK | SOCK_CLOEXEC | 0x7) != 0 ==> ret == err(EINVAL) && final(fs)@ == old(fs)@
                && *final(self) == *old(self),
            socktype & !(SOCK_NONBLOCK | SOCK_CLOEXEC | 0x7) == 0 && !socket_supported(domain, socktype, protocol)
                ==> ret == err(EOPNOTSUPP) && final(fs)@ == old(fs)@ && *final(self) == *old(self),
            socket_supported(domain, socktype, protocol) ==> {
                let h = new_handle(domain, socktype, socket_protocol(socktype, protocol)->Some_0, socket_flags(socktype));
                let o = install_socket(old(fs)@, old(self).filedescriptortable@, old(self).lowest_free(0), h, socket_flags(socktype));
                &&& ret == o.0
                &&& final(fs)@ == o.1
                &&& final(self).filedescriptortable@ == o.2
            },
    {
        let ghost self_old = *self;
        let ghost fs_old = *fs;
        if socktype & !(SOCK_NONBLOCK | SOCK_CLOEXEC | 0x7) != 0 {
            return syscall_error(EINVAL);
        }
        let kind = socktype & 0x7;
        let newprotocol = if kind == SOCK_STREAM {
            let p = if protocol == 0 { IPPROTO_TCP } else { protocol };
            if p != IPPROTO_TCP {
                return syscall_error(EOPNOTSUPP);
            }
            p
        } else if kind == SOCK_DGRAM {
            let p = if protocol == 0 { IPPROTO_UDP } else { protocol };
            if p != IPPROTO_UDP {
                return syscall_error(EOPNOTSUPP);
            }
            p
        } else {
            return syscall_error(EOPNOTSUPP);
        };
        if !(domain == PF_INET || domain == PF_INET6 || domain == PF_UNIX) {
            return syscall_error(EOPNOTSUPP);
        }
        let flags = (if socktype & SOCK_NONBLOCK != 0 { O_NONBLOCK } else { 0 }) | (if socktype & SOCK_CLOEXEC != 0 { O_CLOEXEC } else { 0 });
        let h = SocketHandle {
            socket_options: flags,
            tcp_options: 0,
            state: ConnState::NOTCONNECTED,
            protocol: newprotocol,
            domain,
            localaddr: None,
            remoteaddr: None,
            unix_info: None,
            socktype,
            sndbuf: DEFAULT_SNDBUF,
            rcvbuf: DEFAULT_RCVBUF,
            errno: 0,
        };
        self.new_socket_fd(fs, h, flags)
    }

    /// Reads an option of the socket at `fd` into `optval`; reading `SO_ERROR` clears the
    /// socket's pending error.
    pub fn getsockopt_syscall(&self, fs: &mut FilesystemMetadata, fd: i32, level: i32, optname: i32, optval: &mut i32) -> (ret: i32)
        requires
            self.inv(old(fs)),
            0 <= fd < MAXFD,
        ensures
            self.inv(final(fs)),
            match sock_of(old(fs)@, self.fd(fd as int)) {
                None => ret == (if self.fd(fd as int) is None { err(EBADF) } else { err(ENOTSOCK) })
                    && final(fs)@ == old(fs)@ && *final(optval) == *old(optval),
                Some((i, h)) => if level == SOL_UDP {
                    ret == err(EOPNOTSUPP) && final(fs)@ == old(fs)@ && *final(optval) == *old(optval)
                } else {
                    let o = getsockopt_outcome(h, level, optname);
                    &&& ret == o.0
                    &&& *final(optval) == (match o.1 { Some(v) => v, None => *old(optval) })
                    &&& final(fs)@ == with_socket(old(fs)@, i, o.2)
                },
            },
    {
        let ghost fs_old = *fs;
        match self.get_fd(fd) {
            None => syscall_error(EBADF),
            Some(FileDescriptor::Socket(s)) => {
                proof {
                    assert(desc_ok(self.fd(fd as int), fs@.locks.len(), fs@.pipes.len(), fs@.sockets.len(), self.epoll_table@.len()));
                }
                let bit = bit_of(optname);
                let h = fs.sockets[s.handle];
                if level == SOL_UDP {
                    return syscall_error(EOPNOTSUPP);
                }
                let ghost o = getsockopt_outcome(h, level, optname);
                let r: i32;
                if level == SOL_TCP {
                    if optname == TCP_NODELAY {
                        *optval = if bit & h.tcp_options == bit { 1 } else { 0 };
                        r = 0;
                    } else {
                        r = syscall_error(EOPNOTSUPP);
                    }
                } else if level == SOL_SOCKET {
                    if optname == SO_ACCEPTCONN {
                        *optval = if h.state == ConnState::LISTEN { 1 } else { 0 };
                        r = 0;
                    } else if optname == SO_LINGER || optname == SO_KEEPALIVE || optname == SO_SNDLOWAT || optname == SO_RCVLOWAT
                        || optname == SO_REUSEPORT || optname == SO_REUSEADDR {
                        *optval = if h.socket_options & bit == bit { 1 } else { 0 };
                        r = 0;
                    } else if optname == SO_SNDBUF {
                        *optval = h.sndbuf;
                        r = 0;
                    } else if optname == SO_RCVBUF {
                        *optval = h.rcvbuf;
                        r = 0;
                    } else if optname == SO_TYPE {
                        *optval = h.socktype;
                        r = 0;
                    } else if optname == SO_OOBINLINE {
                        *optval = 1;
                        r = 0;
                    } else if optname == SO_ERROR {
                        *optval = h.errno;
                        proof {
                            assert(socket_pipes_ok(fs@.sockets[s.handle as int], fs@.pipes.len()));
                        }
                        fs.set_socket(s.handle, SocketHandle { errno: 0, ..h });
                        r = 0;
                    } else {
                        r = syscall_error(EOPNOTSUPP);
                    }
                } else {
                    r = syscall_error(EOPNOTSUPP);
                }
                proof {
                    if !(level == SOL_SOCKET && optname == SO_ERROR) {
                        assert(fs_old@.sockets.update(s.handle as int, h) =~= fs_old@.sockets);
                    }
                    lemma_refs_ok_update(self, self, &fs_old, fs, 0, self.fd(0));
                }
                r
            },
            Some(_) => syscall_error(ENOTSOCK),
        }
    }

    /// Whether setting this option on the socket at `fd` is passed on to its host socket, as
    /// `setsockopt_asks_host` says (a caller with a host socket asks the host before
    /// `setsockopt_syscall`).
    pub fn setsockopt_asks_host_at(&self, fs: &FilesystemMetadata, fd: i32, level: i32, optname: i32, optval: i32) -> (r: bool)
        requires
            self.inv(fs),
            0 <= fd < MAXFD,
        ensures
            r == (match sock_of(fs@, self.fd(fd as int)) {
                Some((_, h)) => level != SOL_UDP && setsockopt_asks_host(h, level, optname, optval),
                None => false,
            }),
    {
        match self.get_fd(fd) {
            Some(FileDescriptor::Socket(s)) => {
                proof {
                    assert(desc_ok(self.fd(fd as int), fs@.locks.len(), fs@.pipes.len(), fs@.sockets.len(), self.epoll_table@.len()));
                }
                let h = fs.sockets[s.handle];
                if level == SOL_UDP {
                    return false;
                }
                let (r, nh) = apply_sockopt(h, level, optname, optval);
                r == 0 && ((level == SOL_TCP && optname == TCP_NODELAY && nh.tcp_options != h.tcp_options)
                    || (level == SOL_SOCKET && (optname == SO_REUSEPORT || optname == SO_REUSEADDR)
                        && nh.socket_options != h.socket_options))
            },
            _ => false,
        }
    }

    /// Sets an option of the socket at `fd`. Where the option is passed on to a host socket
    /// (`setsockopt_asks_host`), `host_errno` is the host's answer (0 where it took the option
    /// or there is no host socket); a refusal is the result, and the option stays as it was.
    pub fn setsockopt_syscall(&self, fs: &mut FilesystemMetadata, fd: i32, level: i32, optname: i32, optval: i32, host_errno: i32) -> (ret: i32)
        requires
            self.inv(old(fs)),
            0 <= fd < MAXFD,
            crate::inet::host_errno_ok(host_errno),
        ensures
            self.inv(final(fs)),
            match sock_of(old(fs)@, self.fd(fd as int)) {
                None => ret == (if self.fd(fd as int) is None { err(EBADF) } else { err(ENOTSOCK) })
                    && final(fs)@ == old(fs)@,
                Some((i, h)) => if level == SOL_UDP {
                    ret == err(EOPNOTSUPP) && final(fs)@ == old(fs)@
                } else if setsockopt_asks_host(h, level, optname, optval) && host_errno != 0 {
                    ret == err(host_errno) && final(fs)@ == old(fs)@
                } else {
                    let o = setsockopt_outcome(h, level, optname, optval);
                    ret == o.0 && final(fs)@ == with_socket(old(fs)@, i, o.1)
                },
            },
    {
        let ghost fs_old = *fs;
        match self.get_fd(fd) {
            None => syscall_error(EBADF),
            Some(FileDescriptor::Socket(s)) => {
                proof {
                    assert(desc_ok(self.fd(fd as int), fs@.locks.len(), fs@.pipes.len(), fs@.sockets.len(), self.epoll_table@.len()));
                    assert(socket_pipes_ok(fs@.sockets[s.handle as int], fs@.pipes.len()));
                }
                let h = fs.sockets[s.handle];
                if level == SOL_UDP {
                    return syscall_error(EOPNOTSUPP);
                }
                let (r, nh) = apply_sockopt(h, level, optname, optval);
                let asks = r == 0 && ((level == SOL_TCP && optname == TCP_NODELAY && nh.tcp_options != h.tcp_options)
                    || (level == SOL_SOCKET && (optname == SO_REUSEPORT || optname == SO_REUSEADDR)
                        && nh.socket_options != h.socket_options));
                if asks && host_errno != 0 {
                    return -host_errno;
                }
                fs.set_socket(s.handle, nh);
                proof {
                    lemma_refs_ok_update(self, self, &fs_old, fs, 0, self.fd(0));
                }
                r
            },
            Some(_) => syscall_error(ENOTSOCK),
        }
    }

    /// Gives the address of the peer of the socket at `fd`.
    pub fn getpeername_syscall(&self, fs: &FilesystemMetadata, fd: i32, ret_addr: &mut GenSockaddr) -> (ret: i32)
        requires
            self.inv(fs),
            0 <= fd < MAXFD,
        ensures
            match sock_of(fs@, self.fd(fd as int)) {
                None => ret == (if self.fd(fd as int) is None { err(EBADF) } else { err(ENOTSOCK) })
                    && *final(ret_addr) == *old(ret_addr),
                Some((_, h)) => match h.remoteaddr {
                    None => ret == err(ENOTCONN) && *final(ret_addr) == *old(ret_addr),
                    Some(a) => ret == 0 && *final(ret_addr) == a,
                },
            },
    {
        match self.get_fd(fd) {
            None => syscall_error(EBADF),
            Some(FileDescriptor::Socket(s)) => {
                proof {
                    assert(desc_ok(self.fd(fd as int), fs@.locks.len(), fs@.pipes.len(), fs@.sockets.len(), self.epoll_table@.len()));
                }
                match fs.sockets[s.handle].remoteaddr {
                    None => syscall_error(ENOTCONN),
                    Some(a) => {
                        *ret_addr = a;
                        0
                    },
                }
            },
            Some(_) => syscall_error(ENOTSOCK),
        }
    }

    /// Gives the local address of the socket at `fd`; a socket without one reports its family
    /// with a zero address.
    pub fn getsockname_syscall(&self, fs: &FilesystemMetadata, fd: i32, ret_addr: &mut GenSockaddr) -> (ret: i32)
        requires
            self.inv(fs),
            0 <= fd < MAXFD,
        ensures
            match sock_of(fs@, self.fd(fd as int)) {
                None => ret == (if self.fd(fd as int) is None { err(EBADF) } else { err(ENOTSOCK) })
                    && *final(ret_addr) == *old(ret_addr),
                Some((_, h)) => ret == 0 && match h.localaddr {
                    Some(a) => *final(ret_addr) == a,
                    None => is_unbound_name(h, *old(ret_addr), *final(ret_addr)),
                },
            },
    {
        match self.get_fd(fd) {
            None => syscall_error(EBADF),
            Some(FileDescriptor::Socket(s)) => {
                proof {
                    assert(desc_ok(self.fd(fd as int), fs@.locks.len(), fs@.pipes.len(), fs@.sockets.len(), self.epoll_table@.len()));
                }
                let h = fs.sockets[s.handle];
                match h.localaddr {
                    Some(a) => {
                        *ret_addr = a;
                    },
                    None => {
                        let zero_addr = [0u8; 16];
                        assert(zero_addr@ =~= Seq::new(16, |i: int| 0u8));
                        if h.domain == AF_UNIX {
                            let zero_path = [0u8; 108];
                            assert(zero_path@ =~= Seq::new(108, |i: int| 0u8));
                            *ret_addr = GenSockaddr { family: h.domain as u16, port: 0, addr: zero_addr, path: zero_path };
                        } else {
                            *ret_addr = GenSockaddr { family: h.domain as u16, port: 0, addr: zero_addr, path: ret_addr.path };
                        }
                    },
                }
                0
            },
            Some(_) => syscall_error(ENOTSOCK),
        }
    }

    /// Writes the host name "Lind" with its zero byte, cut to `length` bytes, over the start
    /// of `address`.
    pub fn gethostname_syscall(&self, address: &mut Vec<u8>, length: isize) -> (ret: i32)
        requires
            length >= 0 ==> old(address)@.len() >= (if length < 5 { length as int } else { 5 }),
        ensures
            length < 0 ==> ret == err(EINVAL) && final(address)@ == old(address)@,
            length >= 0 ==> {
                let n = if length < 5 { length as int } else { 5 };
                ret == 0 && final(address)@ == hostname_bytes().take(n) + old(address)@.skip(n)
            },
    {
        if length < 0 {
            return syscall_error(EINVAL);
        }
        let name: [u8; 5] = [76u8, 105u8, 110u8, 100u8, 0u8];
        let len: usize = if (length as usize) < 5 { length as usize } else { 5 };
        assert(name@ =~= hostname_bytes());
        assert(address@ =~= hostname_bytes().take(0) + old(address)@.skip(0));
        let mut i: usize = 0;
        while i < len
            invariant
                i <= len <= 5,
                len <= old(address)@.len(),
                name@ == hostname_bytes(),
                address@.len() == old(address)@.len(),
                address@ == hostname_bytes().take(i as int) + old(address)@.skip(i as int),
            decreases len - i,
        {
            address.set(i, name[i]);
            assert(address@ =~= hostname_bytes().take(i + 1) + old(address)@.skip(i + 1));
            i = i + 1;
        }
        0
    }

    /// Puts the socket at `fd` into the listening state. Listening on an unconnected inet
    /// stream socket is the host's (see `listen_inet`).
    pub fn listen_syscall(&self, fs: &mut FilesystemMetadata, fd: i32, backlog: i32) -> (ret: i32)
        requires
            self.inv(old(fs)),
            0 <= fd < MAXFD,
            !crate::inet::listen_is_host(old(fs)@, self.fd(fd as int)),
        ensures
            self.inv(final(fs)),
            match sock_of(old(fs)@, self.fd(fd as int)) {
                None => ret == (if self.fd(fd as int) is None { err(EBADF) } else { err(ENOTSOCK) })
                    && final(fs)@ == old(fs)@,
                Some((i, h)) => if h.state == ConnState::LISTEN {
                    ret == 0 && final(fs)@ == old(fs)@
                } else if h.state != ConnState::NOTCONNECTED || h.protocol != IPPROTO_TCP {
                    ret == err(EOPNOTSUPP) && final(fs)@ == old(fs)@
                } else {
                    ret == 0 && final(fs)@ == with_socket(old(fs)@, i, SocketHandle { state: ConnState::LISTEN, ..h })
                },
            },
    {
        let ghost fs_old = *fs;
        match self.get_fd(fd) {
            None => syscall_error(EBADF),
            Some(FileDescriptor::Socket(s)) => {
                proof {
                    assert(desc_ok(self.fd(fd as int), fs@.locks.len(), fs@.pipes.len(), fs@.sockets.len(), self.epoll_table@.len()));
                    assert(socket_pipes_ok(fs@.sockets[s.handle as int], fs@.pipes.len()));
                }
                let h = fs.sockets[s.handle];
                match h.state {
                    ConnState::LISTEN => 0,
                    ConnState::NOTCONNECTED => {
                        if h.protocol != IPPROTO_TCP {
                            return syscall_error(EOPNOTSUPP);
                        }
                        fs.set_socket(s.handle, SocketHandle { state: ConnState::LISTEN, ..h });
                        proof {
                            lemma_refs_ok_update(self, self, &fs_old, fs, 0, self.fd(0));
                        }
                        0
                    },
                    _ => syscall_error(EOPNOTSUPP),
                }
            },
            Some(_) => syscall_error(ENOTSOCK),
        }
    }

    /// Shuts down the socket handle `h` as `cleanup_outcome` says; `host_socket` tells
    /// whether the socket has a host socket, `shutdown_errno` the host's answer to shutting it
    /// down and `release` the result of letting its port go.
    pub fn _cleanup_socket_inner_helper(h: &mut SocketHandle, how: i32, shutdown: bool, host_socket: bool, shutdown_errno: i32, release: i32) -> (ret: i32)
        requires
            0 <= shutdown_errno < 4096,
            -4096 < release <= 0,
        ensures
            ret == cleanup_outcome(*old(h), how, shutdown, host_socket, shutdown_errno, release).0,
            *final(h) == cleanup_outcome(*old(h), how, shutdown, host_socket, shutdown_errno, release).1,
            final(h).unix_info == old(h).unix_info,
    {
        if h.domain != AF_UNIX {
            let mut releaseflag = false;
            if host_socket {
                if shutdown && shutdown_errno != 0 {
                    return -shutdown_errno;
                }
                if how == SHUT_RD {
                    match h.state {
                        ConnState::CONNRDONLY => {
                            releaseflag = true;
                        },
                        _ => {},
                    }
                } else if how == SHUT_WR {
                    match h.state {
                        ConnState::CONNWRONLY => {
                            releaseflag = true;
                        },
                        _ => {},
                    }
                } else if how == SHUT_RDWR {
                    releaseflag = true;
                } else {
                    return syscall_error(EINVAL);
                }
            } else {
                releaseflag = true;
            }
            if releaseflag && h.localaddr.is_some() {
                h.localaddr = None;
                if release != 0 {
                    return release;
                }
            }
        }
        if how == SHUT_RD {
            h.state = match h.state {
                ConnState::CONNWRONLY => ConnState::NOTCONNECTED,
                _ => ConnState::CONNWRONLY,
            };
            0
        } else if how == SHUT_WR {
            h.state = match h.state {
                ConnState::CONNRDONLY => ConnState::NOTCONNECTED,
                _ => ConnState::CONNRDONLY,
            };
            0
        } else if how == SHUT_RDWR {
            h.state = ConnState::NOTCONNECTED;
            0
        } else {
            syscall_error(EINVAL)
        }
    }

    /// Shuts down reading (`SHUT_RD`), writing (`SHUT_WR`) or both (`SHUT_RDWR`) on the socket
    /// at `fd`, as `cleanup_outcome` says (`host_socket`, `shutdown_errno` and `release` carry
    /// the host's part for an inet socket); after a successful `SHUT_RDWR` the descriptor
    /// number is free (what it held is not let go of).
    pub fn netshutdown_syscall(&mut self, fs: &mut FilesystemMetadata, fd: i32, how: i32, host_socket: bool, shutdown_errno: i32, release: i32) -> (ret: i32)
        requires
            old(self).inv(old(fs)),
            0 <= fd < MAXFD,
            0 <= shutdown_errno < 4096,
            -4096 < release <= 0,
        ensures
            final(self).inv(final(fs)),
            same_but_fds(*old(self), *final(self)),
            !(how == SHUT_RDWR || how == SHUT_RD || how == SHUT_WR) ==> ret == err(EINVAL)
                && final(fs)@ == old(fs)@ && *final(self) == *old(self),
            (how == SHUT_RDWR || how == SHUT_RD || how == SHUT_WR) ==> match sock_of(old(fs)@, old(self).fd(fd as int)) {
                None => ret == (if old(self).fd(fd as int) is None { err(EBADF) } else { err(ENOTSOCK) })
                    && final(fs)@ == old(fs)@ && *final(self) == *old(self),
                Some((i, h)) => {
                    let c = cleanup_outcome(h, how, true, host_socket, shutdown_errno, release);
                    &&& ret == c.0
                    &&& final(fs)@ == with_socket(old(fs)@, i, c.1)
                    &&& final(self).filedescriptortable@ == if how == SHUT_RDWR && c.0 == 0 {
                        old(self).filedescriptortable@.update(fd as int, None)
                    } else {
                        old(self).filedescriptortable@
                    }
                },
            },
    {
        let ghost fs_old = *fs;
        let ghost self_old = *self;
        if !(how == SHUT_RDWR || how == SHUT_RD || how == SHUT_WR) {
            return syscall_error(EINVAL);
        }
        match self.get_fd(fd) {
            None => syscall_error(EBADF),
            Some(FileDescriptor::Socket(s)) => {
                proof {
                    assert(desc_ok(self.fd(fd as int), fs@.locks.len(), fs@.pipes.len(), fs@.sockets.len(), self.epoll_table@.len()));
                    assert(socket_pipes_ok(fs@.sockets[s.handle as int], fs@.pipes.len()));
                }
                let mut h = fs.sockets[s.handle];
                let r = Self::_cleanup_socket_inner_helper(&mut h, how, true, host_socket, shutdown_errno, release);
                fs.set_socket(s.handle, h);
                proof {
                    lemma_refs_ok_update(&self_old, self, &fs_old, fs, 0, self_old.fd(0));
                }
                if r < 0 {
                    return r;
                }
                if how == SHUT_RDWR {
                    self.set_fd(fd, None);
                    proof {
                        lemma_refs_ok_update(&self_old, self, fs, fs, fd as int, None);
                    }
                }
                0
            },
            Some(_) => syscall_error(ENOTSOCK),
        }
    }

    /// Creates an epoll instance and returns its descriptor, the lowest free one. Its
    /// registration list and advisory lock are made before a descriptor is looked for, and
    /// stay when none is free.
    pub fn epoll_create_syscall(&mut self, fs: &mut FilesystemMetadata, size: i32) -> (ret: i32)
        requires
            old(self).inv(old(fs)),
        ensures
            final(self).inv(final(fs)),
            size <= 0 ==> ret == err(EINVAL) && final(fs)@ == old(fs)@ && *final(self) == *old(self),
            size > 0 ==> {
                &&& final(fs)@ == (FsView { locks: old(fs)@.locks.push(AdvisoryLock { state: 0 }), ..old(fs)@ })
                &&& final(self).epoll_table@.len() == old(self).epoll_table@.len() + 1
                &&& forall|i: int| 0 <= i < old(self).epoll_table@.len() ==> #[trigger] final(self).epoll_table@[i] == old(self).epoll_table@[i]
                &&& final(self).epoll_table@.last()@.len() == 0
                &&& *final(self) == (Cage {
                    filedescriptortable: final(self).filedescriptortable,
                    epoll_table: final(self).epoll_table,
                    ..*old(self)
                })
                &&& match old(self).lowest_free(0) {
                    None => ret == err(ENFILE) && final(self).filedescriptortable@ == old(self).filedescriptortable@,
                    Some(f) => ret == f && final(self).filedescriptortable@ == old(self).filedescriptortable@.update(
                        f as int,
                        Some(FileDescriptor::Epoll(EpollDesc {
                            mode: 0,
                            registered: old(self).epoll_table@.len() as usize,
                            advlock: old(fs)@.locks.len() as usize,
                            errno: 0,
                            flags: 0,
                        })),
                    ),
                }
            },
    {
        if size <= 0 {
            return syscall_error(EINVAL);
        }
        let ghost self_old = *self;
        let ghost fs_old = *fs;
        let registered = self.epoll_table.len();
        self.epoll_table.push(Vec::new());
        let advlock = fs.new_advlock();
        proof {
            assert forall|i: int| 0 <= i < self.epoll_table@.len() implies keys_unique((#[trigger] self.epoll_table@[i])@) by {
                if i < self_old.epoll_table@.len() {
                    assert(self.epoll_table@[i] == self_old.epoll_table@[i]);
                }
            }
            lemma_refs_ok_update(&self_old, self, &fs_old, fs, 0, self_old.fd(0));
        }
        match self.get_next_fd(0) {
            None => syscall_error(ENFILE),
            Some(f) => {
                let ghost s1 = *self;
                let d = FileDescriptor::Epoll(EpollDesc { mode: 0, registered, advlock, errno: 0, flags: 0 });
                self.set_fd(f, Some(d));
                proof {
                    lemma_refs_ok_update(&s1, self, fs, fs, f as int, Some(d));
                }
                f
            },
        }
    }

    /// Adds (`EPOLL_CTL_ADD`), changes (`EPOLL_CTL_MOD`) or removes (`EPOLL_CTL_DEL`) the
    /// registration of `fd` with the epoll instance at `epfd`.
    pub fn epoll_ctl_syscall(&mut self, epfd: i32, op: i32, fd: i32, event: EpollEvent) -> (ret: i32)
        requires
            old(self).wf(),
            forall|i: int| 0 <= i < MAXFD ==> (#[trigger] old(self).fd(i) matches Some(FileDescriptor::Epoll(e)) ==> e.registered < old(self).epoll_table@.len()),
        ensures
            final(self).wf(),
            *final(self) == (Cage { epoll_table: final(self).epoll_table, ..*old(self) }),
            final(self).epoll_table@.len() == old(self).epoll_table@.len(),
            ({
                if epfd < 0 || epfd >= MAXFD || fd < 0 || fd >= MAXFD {
                    ret == err(EBADF) && final(self).epoll_table@ == old(self).epoll_table@
                } else {
                    match old(self).fd(epfd as int) {
                        None => ret == err(EBADF) && final(self).epoll_table@ == old(self).epoll_table@,
                        Some(FileDescriptor::Epoll(e)) => {
                            let k = e.registered as int;
                            let m = regs(old(self), k);
                            let unchanged = final(self).epoll_table@ == old(self).epoll_table@;
                            let others = forall|j: int| 0 <= j < old(self).epoll_table@.len() && j != k
                                ==> #[trigger] final(self).epoll_table@[j] == old(self).epoll_table@[j];
                            if fd == epfd {
                                ret == err(EINVAL) && unchanged
                            } else if epoll_target_error(old(self).fd(fd as int)) is Some {
                                ret == err(epoll_target_error(old(self).fd(fd as int))->Some_0) && unchanged
                            } else if op == EPOLL_CTL_DEL {
                                if !m.contains_key(fd) { ret == err(ENOENT) && unchanged } else { ret == 0 && others && regs(final(self), k) == m.remove(fd) }
                            } else if op == EPOLL_CTL_MOD {
                                if !m.contains_key(fd) { ret == err(ENOENT) && unchanged } else { ret == 0 && others && regs(final(self), k) == m.insert(fd, event) }
                            } else if op == EPOLL_CTL_ADD {
                                if m.contains_key(fd) { ret == err(EEXIST) && unchanged } else { ret == 0 && others && regs(final(self), k) == m.insert(fd, event) }
                            } else {
                                ret == err(EINVAL) && unchanged
                            }
                        },
                        Some(_) => ret == err(EINVAL) && final(self).epoll_table@ == old(self).epoll_table@,
                    }
                }
            }),
    {
        if epfd < 0 || epfd >= MAXFD {
            return syscall_error(EBADF);
        }
        if fd < 0 || fd >= MAXFD {
            return syscall_error(EBADF);
        }
        match self.get_fd(epfd) {
            None => syscall_error(EBADF),
            Some(FileDescriptor::Epoll(e)) => {
                if fd == epfd {
                    return syscall_error(EINVAL);
                }
                match self.get_fd(fd) {
                    None => {
                        return syscall_error(EBADF);
                    },
                    Some(FileDescriptor::Epoll(_)) => {
                        return syscall_error(EBADF);
                    },
                    Some(FileDescriptor::File(_)) => {
                        return syscall_error(EPERM);
                    },
                    _ => {},
                }
                proof {
                    assert(old(self).fd(epfd as int) matches Some(FileDescriptor::Epoll(e)) ==> e.registered < old(self).epoll_table@.len());
                }
                let k = e.registered;
                let ghost s0 = *self;
                let found = find_reg(&self.epoll_table[k], fd);
                if op == EPOLL_CTL_DEL || op == EPOLL_CTL_MOD {
                    match found {
                        None => {
                            return syscall_error(ENOENT);
                        },
                        Some(i) => {
                            let mut list: Vec<(i32, EpollEvent)> = Vec::new();
                            self.epoll_table.set_and_swap(k, &mut list);
                            if op == EPOLL_CTL_DEL {
                                proof {
                                    lemma_assoc_remove(list@, i as int);
                                }
                                list.remove(i);
                            } else {
                                proof {
                                    lemma_assoc_update(list@, i as int, event);
                                }
                                list.set(i, (fd, event));
                            }
                            self.epoll_table.set_and_swap(k, &mut list);
                            proof {
                                assert forall|j: int| 0 <= j < self.epoll_table@.len() implies keys_unique((#[trigger] self.epoll_table@[j])@) by {
                                    if j != k {
                                        assert(self.epoll_table@[j] == s0.epoll_table@[j]);
                                    }
                                }
                            }
                            0
                        },
                    }
                } else if op == EPOLL_CTL_ADD {
                    match found {
                        Some(_) => syscall_error(EEXIST),
                        None => {
                            let mut list: Vec<(i32, EpollEvent)> = Vec::new();
                            self.epoll_table.set_and_swap(k, &mut list);
                            proof {
                                lemma_assoc_push(list@, fd, event);
                            }
                            list.push((fd, event));
                            self.epoll_table.set_and_swap(k, &mut list);
                            proof {
                                assert forall|j: int| 0 <= j < self.epoll_table@.len() implies keys_unique((#[trigger] self.epoll_table@[j])@) by {
                                    if j != k {
                                        assert(self.epoll_table@[j] == s0.epoll_table@[j]);
                                    }
                                }
                            }
                            0
                        },
                    }
                } else {
                    syscall_error(EINVAL)
                }
            },
            Some(_) => syscall_error(EINVAL),
        }
    }
}

impl Cage {
    /// The options a new host socket for handle `h` is given before use: `SO_REUSEPORT`,
    /// then `SO_REUSEADDR`, each where the handle has it set. Making the host socket is the
    /// host's.
    pub fn force_innersocket(h: &SocketHandle) -> (opts: Vec<i32>)
        ensures
            opts@ == (if h.socket_options & opt_bit(SO_REUSEPORT) != 0 { seq![SO_REUSEPORT] } else { Seq::<i32>::empty() })
                + (if h.socket_options & opt_bit(SO_REUSEADDR) != 0 { seq![SO_REUSEADDR] } else { Seq::<i32>::empty() }),
    {
        let mut opts: Vec<i32> = Vec::new();
        if h.socket_options & bit_of(SO_REUSEPORT) != 0 {
            opts.push(SO_REUSEPORT);
        }
        if h.socket_options & bit_of(SO_REUSEADDR) != 0 {
            opts.push(SO_REUSEADDR);
        }
        assert(opts@ =~= (if h.socket_options & opt_bit(SO_REUSEPORT) != 0 { seq![SO_REUSEPORT] } else { Seq::<i32>::empty() })
            + (if h.socket_options & opt_bit(SO_REUSEADDR) != 0 { seq![SO_REUSEADDR] } else { Seq::<i32>::empty() }));
        opts
    }

    /// Copies the description of the network interfaces, `ifaddrs` (which the host reads when
    /// the system starts), to the front of `buf` when it is shorter than `count`.
    pub fn getifaddrs_syscall(&self, ifaddrs: &[u8], buf: &mut Vec<u8>, count: usize) -> (ret: i32)
        requires
            ifaddrs@.len() < count ==> ifaddrs@.len() <= old(buf)@.len(),
        ensures
            if ifaddrs@.len() < count {
                ret == 0 && final(buf)@ == ifaddrs@ + old(buf)@.skip(ifaddrs@.len() as int)
            } else {
                ret == err(EOPNOTSUPP) && final(buf)@ == old(buf)@
            },
    {
        if ifaddrs.len() < count {
            let mut i: usize = 0;
            while i < ifaddrs.len()
                invariant
                    i <= ifaddrs@.len() <= old(buf)@.len(),
                    buf@.len() == old(buf)@.len(),
                    buf@ == ifaddrs@.take(i as int) + old(buf)@.skip(i as int),
                decreases ifaddrs@.len() - i,
            {
                buf.set(i, ifaddrs[i]);
                i = i + 1;
                assert(buf@ =~= ifaddrs@.take(i as int) + old(buf)@.skip(i as int));
            }
            assert(ifaddrs@.take(i as int) =~= ifaddrs@);
            0
        } else {
            syscall_error(EOPNOTSUPP)
        }
    }
}

} // verus!
