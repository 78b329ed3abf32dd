//! Inet sockets: binding, connecting, listening and accepting. Each of these asks the host
//! to act on the socket's host socket (and to reserve a local port); the functions here take
//! the host's answers and decide what the socket records and what the call returns. Host
//! errors are given as positive error numbers, 0 for success; a refused port reservation as
//! the (negative) result it gives.
use vstd::prelude::*;
use crate::errno::{err, syscall_error, EINPROGRESS, ENFILE};
use crate::cage::{Cage, FileDescriptor, SocketDesc, same_but_fds, desc_ok, lemma_refs_ok_update};
use crate::filesystem::{FilesystemMetadata, FsView, socket_pipes_ok};
use crate::fs_constants::{MAXFD, O_CLOEXEC, O_NONBLOCK};
use crate::net::{ConnState, GenSockaddr, SocketHandle, AF_INET, AF_INET6, IPPROTO_TCP, IPPROTO_UDP};
use crate::net_calls::{sock_of, with_socket, new_handle, install_socket, DEFAULT_SNDBUF, DEFAULT_RCVBUF};
use crate::sock_conn::{accept_flags, accept_is_host};

verus! {

/// Whether descriptor `d` is an inet socket.
pub open spec fn is_inet(fs: FsView, d: Option<FileDescriptor>) -> bool {
    sock_of(fs, d) matches Some((_, h)) && (h.domain == AF_INET || h.domain == AF_INET6)
}

/// Whether binding descriptor `d` to `addr` is the host's work: an inet socket without an
/// address, and an address of its family.
pub open spec fn bind_is_host(fs: FsView, d: Option<FileDescriptor>, addr: GenSockaddr) -> bool {
    is_inet(fs, d) && addr.family == sock_of(fs, d)->Some_0.1.domain as u16 && sock_of(fs, d)->Some_0.1.localaddr is None
}

/// Whether a host error number can be a result.
pub open spec fn host_errno_ok(e: i32) -> bool {
    0 <= e < 4096
}

/// Whether a refused reservation carries a failing result.
pub open spec fn reservation_ok<T>(r: Result<T, i32>) -> bool {
    r matches Err(e) ==> -4096 < e < 0
}

/// The address an inet socket is bound to: the one asked for, with the reserved port where
/// one was reserved (or the asked-for port where it was reserved beforehand).
pub open spec fn inet_bound_addr(addr: GenSockaddr, prereserved: bool, reserved: Result<u16, i32>) -> GenSockaddr {
    if prereserved {
        addr
    } else {
        match reserved {
            Ok(p) => GenSockaddr { port: p, ..addr },
            Err(_) => addr,
        }
    }
}

/// What binding an inet socket returns, given the host's answers.
pub open spec fn inet_bind_result(prereserved: bool, reserved: Result<u16, i32>, bind_errno: i32) -> int {
    if !prereserved && reserved is Err {
        reserved->Err_0 as int
    } else if bind_errno != 0 {
        err(bind_errno)
    } else {
        0
    }
}

/// The descriptor table with the host descriptor of the socket at `fd` recorded.
pub open spec fn with_rawfd(fds: Seq<Option<FileDescriptor>>, fd: int, rawfd: i32) -> Seq<Option<FileDescriptor>> {
    match fds[fd] {
        Some(FileDescriptor::Socket(s)) => fds.update(fd, Some(FileDescriptor::Socket(SocketDesc { rawfd, ..s }))),
        _ => fds,
    }
}

/// Whether connecting an inet stream socket is the host's: it is not connected yet.
pub open spec fn connect_tcp_is_host(fs: FsView, d: Option<FileDescriptor>, remote: GenSockaddr) -> bool {
    is_inet(fs, d) && remote.family == sock_of(fs, d)->Some_0.1.domain as u16 && sock_of(fs, d)->Some_0.1.protocol == IPPROTO_TCP
        && sock_of(fs, d)->Some_0.1.state == ConnState::NOTCONNECTED
}

/// Whether connecting an inet datagram socket is the host's: it has no address yet.
pub open spec fn connect_udp_is_host(fs: FsView, d: Option<FileDescriptor>, remote: GenSockaddr) -> bool {
    is_inet(fs, d) && remote.family == sock_of(fs, d)->Some_0.1.domain as u16 && sock_of(fs, d)->Some_0.1.protocol == IPPROTO_UDP
        && sock_of(fs, d)->Some_0.1.localaddr is None
}

/// What connecting an inet stream socket does, given the host's answers: the address it was
/// assigned if it had none (and the host's bind of it), and the host's connect. A refused
/// assignment or bind ends the call (a failed bind leaves the socket with the address); a
/// connect in progress leaves the socket `INPROGRESS` with `EINPROGRESS`.
pub open spec fn connect_tcp_inet_outcome(fs: FsView, fds: Seq<Option<FileDescriptor>>, fd: int, remote: GenSockaddr,
    assigned: Result<GenSockaddr, i32>, bind_errno: i32, connect_errno: i32, rawfd: i32) -> (int, FsView, Seq<Option<FileDescriptor>>)
{
    let (hi, h) = sock_of(fs, fds[fd])->Some_0;
    if h.localaddr is None && assigned is Err {
        (assigned->Err_0 as int, fs, fds)
    } else if h.localaddr is None && bind_errno != 0 {
        (err(bind_errno), with_socket(fs, hi, SocketHandle { localaddr: Some(assigned->Ok_0), ..h }), fds)
    } else if connect_errno != 0 && connect_errno != EINPROGRESS {
        (err(connect_errno), fs, fds)
    } else {
        let state = if connect_errno == EINPROGRESS { ConnState::INPROGRESS } else { ConnState::CONNECTED };
        (
            if connect_errno == EINPROGRESS { err(EINPROGRESS) } else { 0 },
            with_socket(fs, hi, SocketHandle { state, remoteaddr: Some(remote), errno: 0, ..h }),
            with_rawfd(fds, fd, rawfd),
        )
    }
}

/// What connecting an inet datagram socket without an address does: it records its peer, and
/// takes the address assigned to it, which the host binds.
pub open spec fn connect_udp_outcome(fs: FsView, fds: Seq<Option<FileDescriptor>>, fd: int, remote: GenSockaddr,
    assigned: Result<GenSockaddr, i32>, bind_errno: i32, rawfd: i32) -> (int, FsView, Seq<Option<FileDescriptor>>)
{
    let (hi, h) = sock_of(fs, fds[fd])->Some_0;
    let h1 = SocketHandle { remoteaddr: Some(remote), ..h };
    match assigned {
        Err(e) => (e as int, with_socket(fs, hi, h1), fds),
        Ok(a) => (
            if bind_errno != 0 { err(bind_errno) } else { 0 },
            with_socket(fs, hi, SocketHandle { localaddr: Some(a), ..h1 }),
            with_rawfd(fds, fd, rawfd),
        ),
    }
}

/// Whether listening on descriptor `d` is the host's: an unconnected inet stream socket.
pub open spec fn listen_is_host(fs: FsView, d: Option<FileDescriptor>) -> bool {
    is_inet(fs, d) && sock_of(fs, d)->Some_0.1.protocol == IPPROTO_TCP && sock_of(fs, d)->Some_0.1.state == ConnState::NOTCONNECTED
}

/// What listening on an inet stream socket does, given the host's answers: a socket without
/// an address takes the one assigned to it (which the host binds); then it listens, unless
/// the host's listen fails.
pub open spec fn listen_inet_outcome(fs: FsView, fds: Seq<Option<FileDescriptor>>, fd: int,
    assigned: Result<GenSockaddr, i32>, bind_errno: i32, listen_errno: i32, rawfd: i32) -> (int, FsView, Seq<Option<FileDescriptor>>)
{
    let (hi, h) = sock_of(fs, fds[fd])->Some_0;
    if h.localaddr is None && assigned is Err {
        (assigned->Err_0 as int, fs, fds)
    } else {
        let h1 = if h.localaddr is None { SocketHandle { localaddr: Some(assigned->Ok_0), ..h } } else { h };
        if h.localaddr is None && bind_errno != 0 {
            (err(bind_errno), with_socket(fs, hi, h1), fds)
        } else if listen_errno != 0 {
            (err(listen_errno), with_socket(fs, hi, h1), fds)
        } else {
            (0, with_socket(fs, hi, SocketHandle { state: ConnState::LISTEN, ..h1 }), with_rawfd(fds, fd, rawfd))
        }
    }
}

/// The handle of a connection the host accepted on the listening inet socket `lh`: the
/// listener's address with the port reserved for it, and the peer.
pub open spec fn accept_inet_handle(lh: SocketHandle, flags: i32, port: u16, remote: GenSockaddr) -> SocketHandle {
    SocketHandle {
        state: ConnState::CONNECTED,
        localaddr: Some(GenSockaddr { port, ..lh.localaddr->Some_0 }),
        remoteaddr: Some(remote),
        ..new_handle(lh.domain, lh.socktype, lh.protocol, flags)
    }
}

/// What accepting on a listening inet socket does, given the host's answers: the accepted
/// connection (its host descriptor and peer) or the host's error, and the port reserved for
/// it. The new socket goes to the lowest free descriptor.
pub open spec fn accept_inet_outcome(fs: FsView, fds: Seq<Option<FileDescriptor>>, lowest: Option<i32>, fd: int,
    accepted: Result<(i32, GenSockaddr), i32>, reserved: Result<u16, i32>) -> (int, FsView, Seq<Option<FileDescriptor>>, Option<GenSockaddr>)
{
    let (hi, lh) = sock_of(fs, fds[fd])->Some_0;
    if lowest is None {
        (err(ENFILE), fs, fds, None)
    } else {
        match accepted {
            Err(e) => (err(e), fs, fds, None),
            Ok((rawfd, remote)) => match reserved {
                Err(r) => (r as int, fs, fds, None),
                Ok(port) => {
                    let flags = accept_flags(fds[fd]->Some_0->Socket_0.flags);
                    let o = install_socket(fs, fds, lowest, accept_inet_handle(lh, flags, port, remote), flags);
                    (o.0, o.1, with_rawfd(o.2, o.0, rawfd), Some(remote))
                },
            },
        }
    }
}

impl Cage {
    /// Records the host descriptor of the socket at `fd`.
    fn set_rawfd(&mut self, fs: &FilesystemMetadata, fd: i32, rawfd: i32)
        requires
            old(self).inv(fs),
            0 <= fd < MAXFD,
        ensures
            final(self).inv(fs),
            same_but_fds(*old(self), *final(self)),
            final(self).filedescriptortable@ == with_rawfd(old(self).filedescriptortable@, fd as int, rawfd),
    {
        let ghost self0 = *self;
        match self.get_fd(fd) {
            Some(FileDescriptor::Socket(s)) => {
                proof {
                    assert(desc_ok(self.fd(fd as int), fs@.locks.len(), fs@.pipes.len(), fs@.sockets.len(), self.epoll_table@.len()));
                }
                let d = FileDescriptor::Socket(SocketDesc { rawfd, ..s });
                self.set_fd(fd, Some(d));
                proof {
                    lemma_refs_ok_update(&self0, self, fs, fs, fd as int, Some(d));
                }
            },
            _ => {},
        }
    }

    /// Records what the host made of binding the inet socket at `fd` to `localaddr`: the port
    /// it reserved (unless `prereserved`) and its bind. Only a bind that succeeds gives the
    /// socket the address, with the reserved port where there is one; a refused one changes
    /// nothing.
    pub fn bind_inner_socket_inet(&self, fs: &mut FilesystemMetadata, fd: i32, localaddr: &GenSockaddr, prereserved: bool,
        reserved: Result<u16, i32>, bind_errno: i32) -> (ret: i32)
        requires
            self.inv(old(fs)),
            0 <= fd < MAXFD,
            bind_is_host(old(fs)@, self.fd(fd as int), *localaddr),
            reservation_ok(reserved),
            host_errno_ok(bind_errno),
        ensures
            self.inv(final(fs)),
            ({
                let (hi, h) = sock_of(old(fs)@, self.fd(fd as int))->Some_0;
                &&& ret == inet_bind_result(prereserved, reserved, bind_errno)
                &&& final(fs)@ == (if ret == 0 {
                    with_socket(old(fs)@, hi, SocketHandle { localaddr: Some(inet_bound_addr(*localaddr, prereserved, reserved)), ..h })
                } else {
                    old(fs)@
                })
            }),
    {
        let ghost fs0 = *fs;
        let s = match self.get_fd(fd) {
            Some(FileDescriptor::Socket(s)) => s,
            _ => {
                proof {
                    assert(false);
                }
                return 0;
            },
        };
        proof {
            assert(desc_ok(self.fd(fd as int), fs@.locks.len(), fs@.pipes.len(), fs@.sockets.len(), self.epoll_table@.len()));
            assert(socket_pipes_ok(fs@.sockets[s.handle as int], fs@.pipes.len()));
        }
        let h = fs.sockets[s.handle];
        let mut a = *localaddr;
        let mut ret: i32 = 0;
        if !prereserved {
            match reserved {
                Ok(p) => {
                    a.port = p;
                },
                Err(e) => {
                    ret = e;
                },
            }
        }
        if ret == 0 && bind_errno != 0 {
            ret = -bind_errno;
        }
        if ret != 0 {
            return ret;
        }
        fs.set_socket(s.handle, SocketHandle { localaddr: Some(a), ..h });
        proof {
            lemma_refs_ok_update(self, self, &fs0, fs, 0, self.fd(0));
        }
        ret
    }

    /// Records what the host made of connecting the inet stream socket at `fd` to `remote`,
    /// as `connect_tcp_inet_outcome` says.
    pub fn connect_tcp_inet(&mut self, fs: &mut FilesystemMetadata, fd: i32, remote: &GenSockaddr,
        assigned: Result<GenSockaddr, i32>, bind_errno: i32, connect_errno: i32, rawfd: i32) -> (ret: i32)
        requires
            old(self).inv(old(fs)),
            0 <= fd < MAXFD,
            connect_tcp_is_host(old(fs)@, old(self).fd(fd as int), *remote),
            reservation_ok(assigned),
            host_errno_ok(bind_errno),
            host_errno_ok(connect_errno),
        ensures
            final(self).inv(final(fs)),
            same_but_fds(*old(self), *final(self)),
            ({
                let o = connect_tcp_inet_outcome(old(fs)@, old(self).filedescriptortable@, fd as int, *remote, assigned,
                    bind_errno, connect_errno, rawfd);
                ret == o.0 && final(fs)@ == o.1 && final(self).filedescriptortable@ == o.2
            }),
    {
        let ghost fs0 = *fs;
        let ghost self0 = *self;
        let s = match self.get_fd(fd) {
            Some(FileDescriptor::Socket(s)) => s,
            _ => {
                proof {
                    assert(false);
                }
                return 0;
            },
        };
        proof {
            assert(desc_ok(self.fd(fd as int), fs@.locks.len(), fs@.pipes.len(), fs@.sockets.len(), self.epoll_table@.len()));
            assert(socket_pipes_ok(fs@.sockets[s.handle as int], fs@.pipes.len()));
        }
        let h = fs.sockets[s.handle];
        if h.localaddr.is_none() {
            match assigned {
                Err(e) => {
                    return e;
                },
                Ok(a) => {
                    if bind_errno != 0 {
                        fs.set_socket(s.handle, SocketHandle { localaddr: Some(a), ..h });
                        proof {
                            lemma_refs_ok_update(self, self, &fs0, fs, 0, self.fd(0));
                        }
                        return -bind_errno;
                    }
                },
            }
        }
        if connect_errno != 0 && connect_errno != EINPROGRESS {
            return -connect_errno;
        }
        let inprogress = connect_errno == EINPROGRESS;
        let state = if inprogress { ConnState::INPROGRESS } else { ConnState::CONNECTED };
        fs.set_socket(s.handle, SocketHandle { state, remoteaddr: Some(*remote), errno: 0, ..h });
        proof {
            lemma_refs_ok_update(self, self, &fs0, fs, 0, self.fd(0));
        }
        self.set_rawfd(fs, fd, rawfd);
        if inprogress {
            syscall_error(EINPROGRESS)
        } else {
            0
        }
    }

    /// Records what the host made of connecting the inet datagram socket at `fd`, which has no
    /// address yet, as `connect_udp_outcome` says.
    pub fn connect_udp(&mut self, fs: &mut FilesystemMetadata, fd: i32, remote: &GenSockaddr,
        assigned: Result<GenSockaddr, i32>, bind_errno: i32, rawfd: i32) -> (ret: i32)
        requires
            old(self).inv(old(fs)),
            0 <= fd < MAXFD,
            connect_udp_is_host(old(fs)@, old(self).fd(fd as int), *remote),
            reservation_ok(assigned),
            host_errno_ok(bind_errno),
        ensures
            final(self).inv(final(fs)),
            same_but_fds(*old(self), *final(self)),
            ({
                let o = connect_udp_outcome(old(fs)@, old(self).filedescriptortable@, fd as int, *remote, assigned, bind_errno, rawfd);
                ret == o.0 && final(fs)@ == o.1 && final(self).filedescriptortable@ == o.2
            }),
    {
        let ghost fs0 = *fs;
        let s = match self.get_fd(fd) {
            Some(FileDescriptor::Socket(s)) => s,
            _ => {
                proof {
                    assert(false);
                }
                return 0;
            },
        };
        proof {
            assert(desc_ok(self.fd(fd as int), fs@.locks.len(), fs@.pipes.len(), fs@.sockets.len(), self.epoll_table@.len()));
            assert(socket_pipes_ok(fs@.sockets[s.handle as int], fs@.pipes.len()));
        }
        let h = fs.sockets[s.handle];
        let h1 = SocketHandle { remoteaddr: Some(*remote), ..h };
        match assigned {
            Err(e) => {
                fs.set_socket(s.handle, h1);
                proof {
                    lemma_refs_ok_update(self, self, &fs0, fs, 0, self.fd(0));
                }
                e
            },
            Ok(a) => {
                fs.set_socket(s.handle, SocketHandle { localaddr: Some(a), ..h1 });
                proof {
                    lemma_refs_ok_update(self, self, &fs0, fs, 0, self.fd(0));
                }
                self.set_rawfd(fs, fd, rawfd);
                if bind_errno != 0 {
                    -bind_errno
                } else {
                    0
                }
            },
        }
    }

    /// Records what the host made of listening on the unconnected inet stream socket at `fd`,
    /// as `listen_inet_outcome` says.
    pub fn listen_inet(&mut self, fs: &mut FilesystemMetadata, fd: i32, assigned: Result<GenSockaddr, i32>,
        bind_errno: i32, listen_errno: i32, rawfd: i32) -> (ret: i32)
        requires
            old(self).inv(old(fs)),
            0 <= fd < MAXFD,
            listen_is_host(old(fs)@, old(self).fd(fd as int)),
            reservation_ok(assigned),
            host_errno_ok(bind_errno),
            host_errno_ok(listen_errno),
        ensures
            final(self).inv(final(fs)),
            same_but_fds(*old(self), *final(self)),
            ({
                let o = listen_inet_outcome(old(fs)@, old(self).filedescriptortable@, fd as int, assigned, bind_errno, listen_errno, rawfd);
                ret == o.0 && final(fs)@ == o.1 && final(self).filedescriptortable@ == o.2
            }),
    {
        let ghost fs0 = *fs;
        let s = match self.get_fd(fd) {
            Some(FileDescriptor::Socket(s)) => s,
            _ => {
                proof {
                    assert(false);
                }
                return 0;
            },
        };
        proof {
            assert(desc_ok(self.fd(fd as int), fs@.locks.len(), fs@.pipes.len(), fs@.sockets.len(), self.epoll_table@.len()));
            assert(socket_pipes_ok(fs@.sockets[s.handle as int], fs@.pipes.len()));
        }
        let h = fs.sockets[s.handle];
        let mut h1 = h;
        if h.localaddr.is_none() {
            match assigned {
                Err(e) => {
                    return e;
                },
                Ok(a) => {
                    h1 = SocketHandle { localaddr: Some(a), ..h };
                    if bind_errno != 0 {
                        fs.set_socket(s.handle, h1);
                        proof {
                            lemma_refs_ok_update(self, self, &fs0, fs, 0, self.fd(0));
                        }
                        return -bind_errno;
                    }
                },
            }
        }
        if listen_errno != 0 {
            fs.set_socket(s.handle, h1);
            proof {
                lemma_refs_ok_update(self, self, &fs0, fs, 0, self.fd(0));
            }
            return -listen_errno;
        }
        fs.set_socket(s.handle, SocketHandle { state: ConnState::LISTEN, ..h1 });
        proof {
            lemma_refs_ok_update(self, self, &fs0, fs, 0, self.fd(0));
        }
        self.set_rawfd(fs, fd, rawfd);
        0
    }

    /// Records a connection the host accepted on the listening inet socket at `fd`, as
    /// `accept_inet_outcome` says; `addr` gets the peer's address.
    pub fn accept_inet(&mut self, fs: &mut FilesystemMetadata, fd: i32, accepted: Result<(i32, GenSockaddr), i32>,
        reserved: Result<u16, i32>, addr: &mut GenSockaddr) -> (ret: i32)
        requires
            old(self).inv(old(fs)),
            0 <= fd < MAXFD,
            accept_is_host(old(fs)@, old(self).fd(fd as int)),
            sock_of(old(fs)@, old(self).fd(fd as int))->Some_0.1.localaddr is Some,
            accepted matches Err(e) ==> 0 < e < 4096,
            reservation_ok(reserved),
        ensures
            final(self).inv(final(fs)),
            same_but_fds(*old(self), *final(self)),
            ({
                let o = accept_inet_outcome(old(fs)@, old(self).filedescriptortable@, old(self).lowest_free(0), fd as int, accepted, reserved);
                &&& ret == o.0
                &&& final(fs)@ == o.1
                &&& final(self).filedescriptortable@ == o.2
                &&& *final(addr) == match o.3 { Some(a) => a, None => *old(addr) }
            }),
    {
        let s = match self.get_fd(fd) {
            Some(FileDescriptor::Socket(s)) => s,
            _ => {
                proof {
                    assert(false);
                }
                return 0;
            },
        };
        if self.get_next_fd(0).is_none() {
            return syscall_error(ENFILE);
        }
        proof {
            assert(desc_ok(self.fd(fd as int), fs@.locks.len(), fs@.pipes.len(), fs@.sockets.len(), self.epoll_table@.len()));
        }
        let lh = fs.sockets[s.handle];
        let (rawfd, remote) = match accepted {
            Err(e) => {
                return -e;
            },
            Ok(x) => x,
        };
        let port = match reserved {
            Err(r) => {
                return r;
            },
            Ok(p) => p,
        };
        let la = match lh.localaddr {
            Some(a) => a,
            None => {
                proof {
                    assert(false);
                }
                return 0;
            },
        };
        let flags = (if s.flags & O_NONBLOCK != 0 { O_NONBLOCK } else { 0 }) | (if s.flags & O_CLOEXEC != 0 { O_CLOEXEC } else { 0 });
        let nh = SocketHandle {
            socket_options: flags,
            tcp_options: 0,
            state: ConnState::CONNECTED,
            protocol: lh.protocol,
            domain: lh.domain,
            localaddr: Some(GenSockaddr { port, ..la }),
            remoteaddr: Some(remote),
            unix_info: None,
            socktype: lh.socktype,
            sndbuf: DEFAULT_SNDBUF,
            rcvbuf: DEFAULT_RCVBUF,
            errno: 0,
        };
        let newfd = self.new_socket_fd(fs, nh, flags);
        self.set_rawfd(fs, newfd, rawfd);
        *addr = remote;
        newfd
    }
}

} // verus!
