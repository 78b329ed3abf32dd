//! Making connections: `connect` and `accept`. A unix stream connection is two new pipes,
//! announced to the listening path in the table of pending connections, which `accept` takes.
//! Connecting and accepting inet stream sockets is the host's; what the library does with the
//! host's answer is `accept_inet`.
use vstd::prelude::*;
use crate::errno::{err, syscall_error, EAGAIN, EBADF, EINVAL, EISCONN, ENFILE, ENOENT, ENOTSOCK, EOPNOTSUPP};
use crate::cage::{Cage, FileDescriptor, SocketDesc, same_but_fds, desc_ok, lemma_refs_ok_update};
use crate::filesystem::{FilesystemMetadata, FsView, spec_walk, socket_pipes_ok};
use crate::fs_constants::{MAXFD, O_CLOEXEC, O_NONBLOCK};
use crate::net::{ConnState, GenSockaddr, SocketHandle, UnixSocketInfo, AF_UNIX, AF_INET, AF_INET6, IPPROTO_TCP, IPPROTO_UDP};
use crate::net_calls::{sock_of, with_socket, new_handle, install_socket, DEFAULT_SNDBUF, DEFAULT_RCVBUF};
use crate::path::{normpath, path_to_bytes, path_text, spec_normpath};
use crate::pipe::new_pipe_view;
use crate::process::hold_socket_inode_exec;
use crate::unix_net::{
    NetMetadata, NetView, DomsockTableEntry, bind_unix_outcome, sun_path, sun_path_exec, unix_addr, ud_path, next_ud,
    new_sockaddr_unix, pair_up, hold_unix_inode, lemma_ud_path_short, lemma_unix_addr_unique,
};

verus! {

/// The pipes of every pending connection exist.
pub open spec fn pending_pipes_ok(net: NetView, npipes: nat) -> bool {
    forall|k: Seq<u8>| #[trigger] net.pending.contains_key(k) ==> net.pending[k].receive_pipe < npipes
        && net.pending[k].send_pipe < npipes
}

/// The address a unix socket gets when it needs one and has none: a generated path. A socket
/// that has an address keeps it.
pub open spec fn unix_addr_for(net: NetView, h: SocketHandle) -> GenSockaddr {
    match h.localaddr {
        Some(a) => a,
        None => unix_addr(AF_UNIX as u16, ud_path(net.next_ud_id)),
    }
}

/// What connecting the unix stream socket of handle `hi` to `remote` does. A socket without
/// an address is first bound to a generated path; where that bind is refused, its error is
/// the result. A path that
/// no socket is bound to gives `ENOENT`; otherwise two new pipes join the socket to the
/// connection it announces, in the pending table, on that path.
pub open spec fn connect_unix_outcome(fs: FsView, net: NetView, cwd: Seq<Seq<u8>>, hi: int, remote: GenSockaddr, blocking: bool) -> (int, FsView, NetView) {
    let h = fs.sockets[hi];
    let b = if h.localaddr is None {
        bind_unix_outcome(fs, NetView { next_ud_id: next_ud(net.next_ud_id), ..net }, cwd, hi, unix_addr_for(net, h))
    } else {
        (0, fs, net)
    };
    let fs1 = b.1;
    let net1 = b.2;
    let key = path_text(spec_normpath(cwd, sun_path(remote)));
    if b.0 != 0 {
        b
    } else if !net1.paths.contains(key) {
        (err(ENOENT), fs1, net1)
    } else {
        let p1 = fs1.pipes.len() as usize;
        let p2 = (p1 + 1) as usize;
        let fs2 = FsView { pipes: fs1.pipes.push(new_pipe_view()).push(new_pipe_view()), ..fs1 };
        let h2 = fs2.sockets[hi];
        let e = DomsockTableEntry { sockaddr: h2.localaddr->Some_0, receive_pipe: p1, send_pipe: p2, waiting: blocking };
        (0, with_socket(fs2, hi, pair_up(h2, remote, p1, p2)), NetView { pending: net1.pending.insert(key, e), ..net1 })
    }
}

/// Whether connecting descriptor `d` to `remote` is the host's work (an unconnected inet
/// stream socket, or an inet datagram socket without an address) or cannot be done (a unix
/// datagram socket without an address, which has no host socket).
pub open spec fn connect_is_host(fs: FsView, d: Option<FileDescriptor>, remote: GenSockaddr) -> bool {
    match sock_of(fs, d) {
        Some((_, h)) => remote.family == h.domain as u16 && (
            (h.protocol == IPPROTO_UDP && h.localaddr is None)
            || (h.protocol == IPPROTO_TCP && h.state == ConnState::NOTCONNECTED && h.domain != AF_UNIX
                && (h.domain == AF_INET || h.domain == AF_INET6))),
        None => false,
    }
}

/// What `connect` returns and leaves behind for descriptor `d` (where it is not the host's
/// work).
pub open spec fn connect_outcome(fs: FsView, net: NetView, cwd: Seq<Seq<u8>>, d: Option<FileDescriptor>, remote: GenSockaddr) -> (int, FsView, NetView) {
    match sock_of(fs, d) {
        None => (if d is None { err(EBADF) } else { err(ENOTSOCK) }, fs, net),
        Some((hi, h)) => if remote.family != h.domain as u16 {
            (err(EINVAL), fs, net)
        } else if h.protocol == IPPROTO_UDP {
            (0, with_socket(fs, hi, SocketHandle { remoteaddr: Some(remote), ..h }), net)
        } else if h.protocol == IPPROTO_TCP {
            if h.state != ConnState::NOTCONNECTED {
                (err(EISCONN), fs, net)
            } else if h.domain == AF_UNIX {
                connect_unix_outcome(fs, net, cwd, hi, remote, d->Some_0->Socket_0.flags & O_NONBLOCK == 0)
            } else {
                (err(EINVAL), fs, net)
            }
        } else {
            (err(EOPNOTSUPP), fs, net)
        },
    }
}

/// The key of the pending table for the listening unix socket `h`: its normalized path.
pub open spec fn accept_key(cwd: Seq<Seq<u8>>, h: SocketHandle) -> Seq<u8> {
    path_text(spec_normpath(cwd, sun_path(h.localaddr->Some_0)))
}

/// The descriptor flags an accepted socket takes from the listening descriptor's.
pub open spec fn accept_flags(lflags: i32) -> i32 {
    (if lflags & O_NONBLOCK != 0 { O_NONBLOCK } else { 0 }) | (if lflags & O_CLOEXEC != 0 { O_CLOEXEC } else { 0 })
}

/// The handle of a socket accepted by the listening unix socket `lh` from the pending
/// connection `e`: connected, with the listener's address and the connecting socket's as its
/// peer. Where the peer's path names a file, the socket gets the connection's pipes and that
/// file as its inode.
pub open spec fn accept_unix_handle(fs: FsView, cwd: Seq<Seq<u8>>, lh: SocketHandle, flags: i32, e: DomsockTableEntry) -> SocketHandle {
    let base = SocketHandle {
        state: ConnState::CONNECTED,
        localaddr: lh.localaddr,
        remoteaddr: Some(e.sockaddr),
        ..new_handle(lh.domain, lh.socktype, lh.protocol, flags)
    };
    match spec_walk(fs, spec_normpath(cwd, sun_path(e.sockaddr))).0 {
        Some(n) => SocketHandle {
            unix_info: Some(UnixSocketInfo {
                inode: n,
                mode: lh.unix_info->Some_0.mode,
                sendpipe: Some(e.send_pipe),
                receivepipe: Some(e.receive_pipe),
            }),
            ..base
        },
        None => base,
    }
}

/// Whether accepting on descriptor `d` is the host's work: a listening inet stream socket.
pub open spec fn accept_is_host(fs: FsView, d: Option<FileDescriptor>) -> bool {
    match sock_of(fs, d) {
        Some((_, h)) => h.domain != AF_UNIX && (h.domain == AF_INET || h.domain == AF_INET6) && h.protocol == IPPROTO_TCP
            && h.state == ConnState::LISTEN,
        None => false,
    }
}

/// Whether accepting on the listening unix socket `lh` would read the mode of its unix
/// information where it has none: a pending connection from a path that names a file.
pub open spec fn accept_lacks_info(fs: FsView, net: NetView, cwd: Seq<Seq<u8>>, lh: SocketHandle) -> bool {
    &&& lh.domain == AF_UNIX && lh.protocol == IPPROTO_TCP && lh.state == ConnState::LISTEN
    &&& (lh.localaddr is None || (lh.unix_info is None && net.pending.contains_key(accept_key(cwd, lh))
        && spec_walk(fs, spec_normpath(cwd, sun_path(net.pending[accept_key(cwd, lh)].sockaddr))).0 is Some))
}

/// What `accept` returns and leaves behind for descriptor `d` (where it is not the host's
/// work): the result, the file system, the unix socket tables, the descriptor table and the
/// peer's address, if one is given. One attempt: with no pending connection the result is
/// `EAGAIN`, and a blocking caller waits and calls again.
pub open spec fn accept_outcome(fs: FsView, net: NetView, cwd: Seq<Seq<u8>>, fds: Seq<Option<FileDescriptor>>, lowest: Option<i32>, d: Option<FileDescriptor>)
    -> (int, FsView, NetView, Seq<Option<FileDescriptor>>, Option<GenSockaddr>)
{
    if d is None {
        (err(EBADF), fs, net, fds, None)
    } else if lowest is None {
        (err(ENFILE), fs, net, fds, None)
    } else {
        match sock_of(fs, d) {
            None => (err(ENOTSOCK), fs, net, fds, None),
            Some((_, lh)) => if lh.domain != AF_UNIX && lh.domain != AF_INET && lh.domain != AF_INET6 {
                (err(EINVAL), fs, net, fds, None)
            } else if lh.protocol != IPPROTO_TCP {
                (err(EOPNOTSUPP), fs, net, fds, None)
            } else if lh.state != ConnState::LISTEN {
                (err(EINVAL), fs, net, fds, None)
            } else {
                let key = accept_key(cwd, lh);
                if !net.pending.contains_key(key) {
                    (err(EAGAIN), fs, net, fds, None)
                } else {
                    let e = net.pending[key];
                    let flags = accept_flags(d->Some_0->Socket_0.flags);
                    let nh = accept_unix_handle(fs, cwd, lh, flags, e);
                    let o = install_socket(hold_unix_inode(fs, nh), fds, lowest, nh, flags);
                    (o.0, o.1, NetView { pending: net.pending.remove(key), ..net }, o.2, Some(e.sockaddr))
                }
            },
        }
    }
}

impl NetMetadata {
    /// The address for a unix socket that needs one: the one it has, or a generated path.
    pub fn assign_new_addr_unix(&mut self, h: &SocketHandle) -> (a: GenSockaddr)
        ensures
            a == unix_addr_for(old(self)@, *h),
            final(self).domsock_paths == old(self).domsock_paths,
            final(self).domsock_accept_table == old(self).domsock_accept_table,
            final(self).next_ud_id == (if h.localaddr is None { next_ud(old(self).next_ud_id) } else { old(self).next_ud_id }),
    {
        match h.localaddr {
            Some(a) => a,
            None => {
                let path = self.gen_ud_path();
                proof {
                    lemma_ud_path_short(old(self).next_ud_id);
                }
                let a = new_sockaddr_unix(AF_UNIX as u16, &path);
                proof {
                    lemma_unix_addr_unique(a, AF_UNIX as u16, path@);
                }
                a
            },
        }
    }
}

impl Cage {
    /// Connects the unix stream socket of handle `hi` to `remote`: one attempt, as
    /// `connect_unix_outcome` says. A blocking caller then waits until the connection is
    /// accepted.
    fn connect_tcp_unix(&self, fs: &mut FilesystemMetadata, net: &mut NetMetadata, hi: usize, remote: &GenSockaddr, blocking: bool) -> (ret: i32)
        requires
            self.inv(old(fs)),
            old(net).wf(),
            hi < old(fs)@.sockets.len(),
            old(fs)@.sockets[hi as int].domain == AF_UNIX,
            pending_pipes_ok(old(net)@, old(fs)@.pipes.len()),
        ensures
            self.inv(final(fs)),
            final(net).wf(),
            pending_pipes_ok(final(net)@, final(fs)@.pipes.len()),
            ({
                let o = connect_unix_outcome(old(fs)@, old(net)@, self.cwd_view(), hi as int, *remote, blocking);
                ret == o.0 && final(fs)@ == o.1 && final(net)@ == o.2
            }),
    {
        let ghost fs0 = *fs;
        let ghost net0 = net@;
        let h = fs.sockets[hi];
        if h.localaddr.is_none() {
            let a = net.assign_new_addr_unix(&h);
            proof {
                assert(net@ =~= NetView { next_ud_id: next_ud(net0.next_ud_id), ..net0 });
            }
            let r = self.bind_inner_socket_unix(fs, net, hi, &a);
            if r != 0 {
                return r;
            }
        }
        let ghost fs1 = *fs;
        let ghost net1 = net@;
        proof {
            assert(fs1@.pipes.len() >= fs0@.pipes.len());
        }
        let rpath = sun_path_exec(remote);
        let truepath = normpath(&self.cwd, rpath.as_slice());
        let key = path_to_bytes(&truepath);
        if !net.has_path(&key) {
            return syscall_error(ENOENT);
        }
        let p1 = fs.new_pipe();
        let p2 = fs.new_pipe();
        let ghost fs2 = *fs;
        let h2 = fs.sockets[hi];
        let nh = SocketHandle {
            remoteaddr: Some(*remote),
            unix_info: match h2.unix_info {
                Some(ui) => Some(UnixSocketInfo { sendpipe: Some(p1), receivepipe: Some(p2), ..ui }),
                None => None,
            },
            state: ConnState::CONNECTED,
            ..h2
        };
        fs.set_socket(hi, nh);
        let local = match h2.localaddr {
            Some(a) => a,
            None => {
                proof {
                    assert(false);
                }
                *remote
            },
        };
        let e = DomsockTableEntry { sockaddr: local, receive_pipe: p1, send_pipe: p2, waiting: blocking };
        net.set_pending(key, e);
        proof {
            assert(fs1@.pipes.push(new_pipe_view()).push(new_pipe_view()) =~= fs2@.pipes);
            lemma_refs_ok_update(self, self, &fs0, fs, 0, self.fd(0));
        }
        0
    }

    /// Connects the socket at `fd` to `remoteaddr`. A datagram socket with an address just
    /// records its peer; a unix stream socket connects as `connect_tcp_unix` does.
    pub fn connect_syscall(&self, fs: &mut FilesystemMetadata, net: &mut NetMetadata, fd: i32, remoteaddr: &GenSockaddr) -> (ret: i32)
        requires
            self.inv(old(fs)),
            old(net).wf(),
            0 <= fd < MAXFD,
            pending_pipes_ok(old(net)@, old(fs)@.pipes.len()),
            !connect_is_host(old(fs)@, self.fd(fd as int), *remoteaddr),
        ensures
            self.inv(final(fs)),
            final(net).wf(),
            pending_pipes_ok(final(net)@, final(fs)@.pipes.len()),
            ({
                let o = connect_outcome(old(fs)@, old(net)@, self.cwd_view(), self.fd(fd as int), *remoteaddr);
                ret == o.0 && final(fs)@ == o.1 && final(net)@ == o.2
            }),
    {
        let ghost fs0 = *fs;
        match self.get_fd(fd) {
            None => syscall_error(EBADF),
            Some(FileDescriptor::Socket(s)) => {
                proof {
                    assert(desc_ok(self.fd(fd as int), fs@.locks.len(), fs@.pipes.len(), fs@.sockets.len(), self.epoll_table@.len()));
                    assert(socket_pipes_ok(fs@.sockets[s.handle as int], fs@.pipes.len()));
                }
                let h = fs.sockets[s.handle];
                if remoteaddr.family != h.domain as u16 {
                    return syscall_error(EINVAL);
                }
                if h.protocol == IPPROTO_UDP {
                    fs.set_socket(s.handle, SocketHandle { remoteaddr: Some(*remoteaddr), ..h });
                    proof {
                        lemma_refs_ok_update(self, self, &fs0, fs, 0, self.fd(0));
                    }
                    0
                } else if h.protocol == IPPROTO_TCP {
                    match h.state {
                        ConnState::NOTCONNECTED => {},
                        _ => {
                            return syscall_error(EISCONN);
                        },
                    }
                    if h.domain == AF_UNIX {
                        self.connect_tcp_unix(fs, net, s.handle, remoteaddr, s.flags & O_NONBLOCK == 0)
                    } else {
                        syscall_error(EINVAL)
                    }
                } else {
                    syscall_error(EOPNOTSUPP)
                }
            },
            Some(_) => syscall_error(ENOTSOCK),
        }
    }

    /// Accepts a connection on the listening socket at `fd` and gives the new socket's
    /// descriptor, the lowest free one; `addr` gets the peer's address. For a unix socket this
    /// takes the connection pending on the socket's path (one attempt: `EAGAIN` when there is
    /// none, and a blocking caller waits and calls again; a connecting caller that waits is
    /// woken by the caller of this function).
    pub fn accept_syscall(&mut self, fs: &mut FilesystemMetadata, net: &mut NetMetadata, fd: i32, addr: &mut GenSockaddr) -> (ret: i32)
        requires
            old(self).inv(old(fs)),
            old(net).wf(),
            0 <= fd < MAXFD,
            pending_pipes_ok(old(net)@, old(fs)@.pipes.len()),
            !accept_is_host(old(fs)@, old(self).fd(fd as int)),
            sock_of(old(fs)@, old(self).fd(fd as int)) matches Some((_, h)) ==> !accept_lacks_info(old(fs)@, old(net)@, old(self).cwd_view(), h),
        ensures
            final(self).inv(final(fs)),
            final(net).wf(),
            pending_pipes_ok(final(net)@, final(fs)@.pipes.len()),
            same_but_fds(*old(self), *final(self)),
            ({
                let o = accept_outcome(old(fs)@, old(net)@, old(self).cwd_view(), old(self).filedescriptortable@,
                    old(self).lowest_free(0), old(self).fd(fd as int));
                &&& ret == o.0
                &&& final(fs)@ == o.1
                &&& final(net)@ == o.2
                &&& final(self).filedescriptortable@ == o.3
                &&& *final(addr) == match o.4 { Some(a) => a, None => *old(addr) }
            }),
    {
        let ghost self0 = *self;
        let ghost fs0 = *fs;
        let d = match self.get_fd(fd) {
            None => {
                return syscall_error(EBADF);
            },
            Some(d) => d,
        };
        if self.get_next_fd(0).is_none() {
            return syscall_error(ENFILE);
        }
        match d {
            FileDescriptor::Socket(s) => {
                proof {
                    assert(desc_ok(self.fd(fd as int), fs@.locks.len(), fs@.pipes.len(), fs@.sockets.len(), self.epoll_table@.len()));
                }
                let lh = fs.sockets[s.handle];
                if lh.domain != AF_UNIX && lh.domain != AF_INET && lh.domain != AF_INET6 {
                    return syscall_error(EINVAL);
                }
                if lh.protocol != IPPROTO_TCP {
                    return syscall_error(EOPNOTSUPP);
                }
                match lh.state {
                    ConnState::LISTEN => {},
                    _ => {
                        return syscall_error(EINVAL);
                    },
                }
                let la = match lh.localaddr {
                    Some(a) => a,
                    None => {
                        proof {
                            assert(false);
                        }
                        return syscall_error(EINVAL);
                    },
                };
                let lpath = sun_path_exec(&la);
                let ltrue = normpath(&self.cwd, lpath.as_slice());
                let key = path_to_bytes(&ltrue);
                match net.get_pending(&key) {
                    None => syscall_error(EAGAIN),
                    Some(e) => {
                        let flags = (if s.flags & O_NONBLOCK != 0 { O_NONBLOCK } else { 0 })
                            | (if s.flags & O_CLOEXEC != 0 { O_CLOEXEC } else { 0 });
                        let rpath = sun_path_exec(&e.sockaddr);
                        let rtrue = normpath(&self.cwd, rpath.as_slice());
                        let nh0 = SocketHandle {
                            socket_options: flags,
                            tcp_options: 0,
                            state: ConnState::CONNECTED,
                            protocol: lh.protocol,
                            domain: lh.domain,
                            localaddr: lh.localaddr,
                            remoteaddr: Some(e.sockaddr),
                            unix_info: None,
                            socktype: lh.socktype,
                            sndbuf: DEFAULT_SNDBUF,
                            rcvbuf: DEFAULT_RCVBUF,
                            errno: 0,
                        };
                        let nh = match fs.metawalkandparent(&rtrue).0 {
                            Some(n) => {
                                let mode = match lh.unix_info {
                                    Some(ui) => ui.mode,
                                    None => {
                                        proof {
                                            assert(false);
                                        }
                                        0
                                    },
                                };
                                SocketHandle {
                                    unix_info: Some(UnixSocketInfo {
                                        inode: n,
                                        mode,
                                        sendpipe: Some(e.send_pipe),
                                        receivepipe: Some(e.receive_pipe),
                                    }),
                                    ..nh0
                                }
                            },
                            None => nh0,
                        };
                        match nh.unix_info {
                            Some(ui) => hold_socket_inode_exec(fs, ui.inode),
                            None => {},
                        }
                        proof {
                            lemma_refs_ok_update(&self0, self, &fs0, fs, 0, self0.fd(0));
                            assert(net@.pending.contains_key(key@));
                        }
                        net.remove_pending(&key);
                        let r = self.new_socket_fd(fs, nh, flags);
                        *addr = e.sockaddr;
                        r
                    },
                }
            },
            _ => syscall_error(ENOTSOCK),
        }
    }
}

} // verus!
