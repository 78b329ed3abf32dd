//! Sending and receiving on sockets. Unix stream sockets move their bytes through the pipes
//! of their connection; the data of inet sockets goes through the host, so the calls here
//! decide everything up to that point.
use vstd::prelude::*;
use crate::errno::{err, syscall_error, EAGAIN, EBADF, EINVAL, EISCONN, ENOTCONN, ENOTSOCK, EOPNOTSUPP};
use crate::cage::{Cage, FileDescriptor, desc_ok, lemma_refs_ok_update};
use crate::filesystem::{FilesystemMetadata, FsView, peek_of, peeks_set, socket_pipes_ok};
use crate::fs_constants::MAXFD;
use crate::net::{ConnState, GenSockaddr, SocketHandle, AF_UNIX, AF_INET, AF_INET6, IPPROTO_TCP, IPPROTO_UDP};
use crate::net_calls::sock_of;
use crate::pipe::{pipe_read_outcome, pipe_write_outcome, min};

verus! {

/// Peek at incoming data without taking it.
pub const MSG_PEEK: i32 = 0x02;

/// Whether sending on descriptor `d` is the host's work: a connected inet TCP socket, or an
/// inet UDP socket with a peer.
pub open spec fn send_is_host(fs: FsView, d: Option<FileDescriptor>) -> bool {
    match sock_of(fs, d) {
        Some((_, h)) => (h.domain == AF_INET || h.domain == AF_INET6) && (
            (h.protocol == IPPROTO_TCP && (h.state == ConnState::CONNECTED || h.state == ConnState::CONNWRONLY))
            || (h.protocol == IPPROTO_UDP && h.remoteaddr is Some)),
        None => false,
    }
}

/// Whether receiving on descriptor `d` is the host's work (an inet TCP socket that may be
/// connected) or cannot be done (a UDP socket, which has no host socket in a unix domain).
pub open spec fn recv_is_host(fs: FsView, d: Option<FileDescriptor>) -> bool {
    match sock_of(fs, d) {
        Some((_, h)) => h.protocol == IPPROTO_UDP || (h.domain != AF_UNIX && h.protocol == IPPROTO_TCP && (
            h.state == ConnState::CONNECTED || h.state == ConnState::CONNRDONLY || h.state == ConnState::INPROGRESS)),
        None => false,
    }
}

/// The pipe a unix socket sends on, if it has one.
pub open spec fn send_pipe(h: SocketHandle) -> Option<usize> {
    match h.unix_info {
        Some(ui) => ui.sendpipe,
        None => None,
    }
}

/// The pipe a unix socket receives from, if it has one.
pub open spec fn recv_pipe(h: SocketHandle) -> Option<usize> {
    match h.unix_info {
        Some(ui) => ui.receivepipe,
        None => None,
    }
}

/// What `send` returns and does on descriptor `d` (where it is not the host's work).
pub open spec fn send_outcome(fs: FsView, d: Option<FileDescriptor>, bytes: Seq<u8>) -> (int, FsView) {
    match sock_of(fs, d) {
        None => (if d is None { err(EBADF) } else { err(ENOTSOCK) }, fs),
        Some((_, h)) => if h.domain == AF_UNIX {
            if h.protocol != IPPROTO_TCP {
                (err(EOPNOTSUPP), fs)
            } else if h.state != ConnState::CONNECTED && h.state != ConnState::CONNWRONLY {
                (err(ENOTCONN), fs)
            } else {
                match send_pipe(h) {
                    None => (err(EAGAIN), fs),
                    Some(p) => {
                        let o = pipe_write_outcome(fs.pipes[p as int], bytes);
                        (o.0, FilesystemMetadata::with_pipe(fs, p as int, o.1))
                    },
                }
            }
        } else if h.domain == AF_INET || h.domain == AF_INET6 {
            if h.protocol == IPPROTO_TCP || h.protocol == IPPROTO_UDP {
                (err(ENOTCONN), fs)
            } else {
                (err(EOPNOTSUPP), fs)
            }
        } else {
            (err(EINVAL), fs)
        },
    }
}

/// What receiving up to `buflen` bytes with `flags` returns, gives and does on the stream
/// socket of handle `hi` (where it is not the host's work). Bytes kept back by an earlier peek
/// come first; a peek keeps what it read for the next call.
pub open spec fn recv_tcp_outcome(fs: FsView, hi: int, buflen: usize, flags: i32) -> (int, Seq<u8>, FsView) {
    let h = fs.sockets[hi];
    if h.state != ConnState::CONNECTED && h.state != ConnState::CONNRDONLY {
        (err(ENOTCONN), Seq::empty(), fs)
    } else {
        let pk = peek_of(fs, hi);
        let count = min(pk.len() as int, buflen as int);
        let first = pk.take(count);
        let fs1 = if pk.len() > 0 && flags & MSG_PEEK == 0 {
            FsView { peeks: peeks_set(fs.peeks, hi, pk.skip(count)), ..fs }
        } else {
            fs
        };
        if pk.len() > 0 && count == buflen {
            (count, first, fs1)
        } else {
            match recv_pipe(h) {
                None => if count > 0 { (count, first, fs1) } else { (err(EAGAIN), Seq::empty(), fs1) },
                Some(p) => {
                    let o = pipe_read_outcome(fs1.pipes[p as int], (buflen - count) as usize);
                    if o.0 < 0 {
                        if count > 0 { (count, first, fs1) } else { (o.0, Seq::empty(), fs1) }
                    } else {
                        let fs2 = FilesystemMetadata::with_pipe(fs1, p as int, o.2);
                        let fs3 = if flags & MSG_PEEK != 0 {
                            FsView { peeks: peeks_set(fs2.peeks, hi, peek_of(fs2, hi) + o.1), ..fs2 }
                        } else {
                            fs2
                        };
                        (count + o.0, first + o.1, fs3)
                    }
                },
            }
        }
    }
}

/// What receiving up to `buflen` bytes with `flags` returns, gives and does on descriptor `d`
/// (where it is not the host's work): stream sockets as `recv_tcp_outcome` says.
pub open spec fn recv_outcome(fs: FsView, d: Option<FileDescriptor>, buflen: usize, flags: i32) -> (int, Seq<u8>, FsView) {
    match sock_of(fs, d) {
        None => (if d is None { err(EBADF) } else { err(ENOTSOCK) }, Seq::empty(), fs),
        Some((hi, h)) => if h.protocol != IPPROTO_TCP {
            (err(EOPNOTSUPP), Seq::empty(), fs)
        } else {
            recv_tcp_outcome(fs, hi, buflen, flags)
        },
    }
}

/// Whether an inet address names no host and no port.
pub open spec fn unspecified(a: GenSockaddr) -> bool {
    &&& a.port == 0
    &&& forall|i: int| 0 <= i < (if a.family == AF_INET as u16 { 4int } else { 16int }) ==> a.addr@[i] == 0
}

/// What `sendto` returns on a socket that is not a unix one (and not a UDP one with the host
/// to send), for a destination that names a host or a port.
pub open spec fn sendto_check(h: SocketHandle, dest: GenSockaddr) -> int {
    if h.domain == AF_UNIX {
        err(EISCONN)
    } else if dest.family != h.domain as u16 {
        err(EINVAL)
    } else if h.state != ConnState::NOTCONNECTED {
        err(EISCONN)
    } else if h.protocol == IPPROTO_TCP {
        err(EISCONN)
    } else {
        err(EOPNOTSUPP)
    }
}

fn is_unspecified(a: &GenSockaddr) -> (r: bool)
    ensures
        r == unspecified(*a),
{
    if a.port != 0 {
        return false;
    }
    let n: usize = if a.family == AF_INET as u16 { 4 } else { 16 };
    let mut i: usize = 0;
    while i < n
        invariant
            i <= n,
            n == (if a.family == AF_INET as u16 { 4usize } else { 16usize }),
            a.port == 0,
            forall|j: int| 0 <= j < i ==> a.addr@[j] == 0,
        decreases n - i,
    {
        if a.addr[i] != 0 {
            return false;
        }
        i = i + 1;
    }
    true
}

impl Cage {
    /// Sends the first `buflen` bytes of `buf` on the socket at `fd`: one attempt on the
    /// connection's pipe for a unix stream socket.
    pub fn send_syscall(&self, fs: &mut FilesystemMetadata, fd: i32, buf: &[u8], buflen: usize, flags: i32) -> (ret: i32)
        requires
            self.inv(old(fs)),
            0 <= fd < MAXFD,
            buflen <= buf@.len(),
            !send_is_host(old(fs)@, self.fd(fd as int)),
        ensures
            self.inv(final(fs)),
            ({
                let o = send_outcome(old(fs)@, self.fd(fd as int), buf@.subrange(0, buflen as int));
                ret == o.0 && final(fs)@ == o.1
            }),
    {
        let ghost fs_old = *fs;
        let bytes = &buf[0..buflen];
        assert(bytes@ =~= buf@.subrange(0, buflen as int));
        match self.get_fd(fd) {
            None => syscall_error(EBADF),
            Some(FileDescriptor::Socket(s)) => {
                proof {
                    assert(desc_ok(self.fd(fd as int), fs@.locks.len(), fs@.pipes.len(), fs@.sockets.len(), self.epoll_table@.len()));
                    assert(socket_pipes_ok(fs@.sockets[s.handle as int], fs@.pipes.len()));
                }
                let h = fs.sockets[s.handle];
                if h.domain == AF_UNIX {
                    if h.protocol != IPPROTO_TCP {
                        return syscall_error(EOPNOTSUPP);
                    }
                    match h.state {
                        ConnState::CONNECTED => {},
                        ConnState::CONNWRONLY => {},
                        _ => {
                            return syscall_error(ENOTCONN);
                        },
                    }
                    let sp = match h.unix_info {
                        Some(ui) => ui.sendpipe,
                        None => None,
                    };
                    match sp {
                        None => syscall_error(EAGAIN),
                        Some(p) => {
                            let r = fs.pipe_write(p, bytes);
                            proof {
                                lemma_refs_ok_update(self, self, &fs_old, fs, 0, self.fd(0));
                            }
                            r
                        },
                    }
                } else if h.domain == AF_INET || h.domain == AF_INET6 {
                    if h.protocol == IPPROTO_TCP || h.protocol == IPPROTO_UDP {
                        syscall_error(ENOTCONN)
                    } else {
                        syscall_error(EOPNOTSUPP)
                    }
                } else {
                    syscall_error(EINVAL)
                }
            },
            Some(_) => syscall_error(ENOTSOCK),
        }
    }

    /// Sends to `dest_addr` on the socket at `fd`; a destination with no host and port is a
    /// plain `send`. A unix socket is connection-oriented; sending a datagram to a named inet
    /// destination is the host's work.
    pub fn sendto_syscall(&self, fs: &mut FilesystemMetadata, fd: i32, buf: &[u8], buflen: usize, flags: i32, dest_addr: &GenSockaddr) -> (ret: i32)
        requires
            self.inv(old(fs)),
            0 <= fd < MAXFD,
            buflen <= buf@.len(),
            dest_addr.family == AF_INET as u16 || dest_addr.family == AF_INET6 as u16,
            unspecified(*dest_addr) ==> !send_is_host(old(fs)@, self.fd(fd as int)),
            !unspecified(*dest_addr) ==> (sock_of(old(fs)@, self.fd(fd as int)) matches Some((_, h)) ==>
                !(h.domain != AF_UNIX && dest_addr.family == h.domain as u16 && h.state == ConnState::NOTCONNECTED
                    && h.protocol == IPPROTO_UDP)),
        ensures
            self.inv(final(fs)),
            unspecified(*dest_addr) ==> ({
                let o = send_outcome(old(fs)@, self.fd(fd as int), buf@.subrange(0, buflen as int));
                ret == o.0 && final(fs)@ == o.1
            }),
            !unspecified(*dest_addr) ==> final(fs)@ == old(fs)@ && match sock_of(old(fs)@, self.fd(fd as int)) {
                None => ret == (if self.fd(fd as int) is None { err(EBADF) } else { err(ENOTSOCK) }),
                Some((_, h)) => ret == sendto_check(h, *dest_addr),
            },
    {
        if is_unspecified(dest_addr) {
            return self.send_syscall(fs, fd, buf, buflen, flags);
        }
        match self.get_fd(fd) {
            None => syscall_error(EBADF),
            Some(FileDescriptor::Socket(s)) => {
                proof {
                    assert(desc_ok(self.fd(fd as int), fs@.locks.len(), fs@.pipes.len(), fs@.sockets.len(), self.epoll_table@.len()));
                }
                let h = fs.sockets[s.handle];
                if h.domain == AF_UNIX {
                    return syscall_error(EISCONN);
                }
                if dest_addr.family != h.domain as u16 {
                    return syscall_error(EINVAL);
                }
                match h.state {
                    ConnState::NOTCONNECTED => {},
                    _ => {
                        return syscall_error(EISCONN);
                    },
                }
                if h.protocol == IPPROTO_TCP {
                    syscall_error(EISCONN)
                } else {
                    syscall_error(EOPNOTSUPP)
                }
            },
            Some(_) => syscall_error(ENOTSOCK),
        }
    }

    /// Receives up to `buflen` bytes into `buf` from the stream socket of handle `hi`: bytes
    /// kept back by an earlier peek first, then one attempt on the connection's pipe.
    /// `MSG_PEEK` keeps what was read for the next call.
    fn recv_common_inner_tcp(&self, fs: &mut FilesystemMetadata, hi: usize, buf: &mut Vec<u8>, buflen: usize, flags: i32) -> (ret: i32)
        requires
            self.inv(old(fs)),
            hi < old(fs)@.sockets.len(),
        ensures
            self.inv(final(fs)),
            ({
                let o = recv_tcp_outcome(old(fs)@, hi as int, buflen, flags);
                &&& ret == o.0 as i32
                &&& final(fs)@ == o.2
                &&& (o.0 >= 0 ==> final(buf)@ == o.1)
            }),
    {
        let ghost fs_old = *fs;
        proof {
            assert(socket_pipes_ok(fs@.sockets[hi as int], fs@.pipes.len()));
        }
        let h = fs.sockets[hi];
        match h.state {
            ConnState::CONNECTED => {},
            ConnState::CONNRDONLY => {},
            _ => {
                return syscall_error(ENOTCONN);
            },
        }
        let pk = fs.get_peek(hi);
        let count: usize = if pk.len() < buflen { pk.len() } else { buflen };
        let first = vstd::slice::slice_to_vec(pk.as_slice().split_at(count).0);
        assert(first@ =~= pk@.take(count as int));
        if pk.len() > 0 && flags & MSG_PEEK == 0 {
            let rest = vstd::slice::slice_to_vec(pk.as_slice().split_at(count).1);
            assert(rest@ =~= pk@.skip(count as int));
            fs.set_peek(hi, rest);
        }
        let ghost fs1 = *fs;
        proof {
            lemma_refs_ok_update(self, self, &fs_old, fs, 0, self.fd(0));
        }
        if pk.len() > 0 && count == buflen {
            *buf = first;
            return count as i32;
        }
        let rp = match h.unix_info {
            Some(ui) => ui.receivepipe,
            None => None,
        };
        match rp {
            None => {
                if count > 0 {
                    *buf = first;
                    count as i32
                } else {
                    syscall_error(EAGAIN)
                }
            },
            Some(p) => {
                let (r, data) = fs.pipe_read(p, buflen - count);
                proof {
                    lemma_refs_ok_update(self, self, &fs1, fs, 0, self.fd(0));
                }
                if r < 0 {
                    if count > 0 {
                        *buf = first;
                        return count as i32;
                    }
                    return r;
                }
                let ghost fs2 = *fs;
                if flags & MSG_PEEK != 0 {
                    let mut np = fs.get_peek(hi);
                    let mut d2 = vstd::slice::slice_to_vec(data.as_slice());
                    np.append(&mut d2);
                    fs.set_peek(hi, np);
                    proof {
                        lemma_refs_ok_update(self, self, &fs2, fs, 0, self.fd(0));
                    }
                }
                let mut out = first;
                let mut d3 = data;
                out.append(&mut d3);
                *buf = out;
                (count + r as usize) as i32
            },
        }
    }

    /// Receives up to `buflen` bytes into `buf` from the socket at `fd`, as `recv_outcome`
    /// says. `addr` is filled by the host for inet sockets only.
    pub fn recv_common(&self, fs: &mut FilesystemMetadata, fd: i32, buf: &mut Vec<u8>, buflen: usize, flags: i32, addr: &mut Option<GenSockaddr>) -> (ret: i32)
        requires
            self.inv(old(fs)),
            0 <= fd < MAXFD,
            !recv_is_host(old(fs)@, self.fd(fd as int)),
        ensures
            self.inv(final(fs)),
            *final(addr) == *old(addr),
            ({
                let o = recv_outcome(old(fs)@, self.fd(fd as int), buflen, flags);
                &&& ret == o.0 as i32
                &&& final(fs)@ == o.2
                &&& (o.0 >= 0 ==> final(buf)@ == o.1)
            }),
    {
        match self.get_fd(fd) {
            None => syscall_error(EBADF),
            Some(FileDescriptor::Socket(s)) => {
                proof {
                    assert(desc_ok(self.fd(fd as int), fs@.locks.len(), fs@.pipes.len(), fs@.sockets.len(), self.epoll_table@.len()));
                }
                let h = fs.sockets[s.handle];
                if h.protocol != IPPROTO_TCP {
                    return syscall_error(EOPNOTSUPP);
                }
                self.recv_common_inner_tcp(fs, s.handle, buf, buflen, flags)
            },
            Some(_) => syscall_error(ENOTSOCK),
        }
    }

    /// Receives on the socket at `fd` as `recv_common` does.
    pub fn recvfrom_syscall(&self, fs: &mut FilesystemMetadata, fd: i32, buf: &mut Vec<u8>, buflen: usize, flags: i32, addr: &mut Option<GenSockaddr>) -> (ret: i32)
        requires
            self.inv(old(fs)),
            0 <= fd < MAXFD,
            !recv_is_host(old(fs)@, self.fd(fd as int)),
        ensures
            self.inv(final(fs)),
            *final(addr) == *old(addr),
            ({
                let o = recv_outcome(old(fs)@, self.fd(fd as int), buflen, flags);
                &&& ret == o.0 as i32
                &&& final(fs)@ == o.2
                &&& (o.0 >= 0 ==> final(buf)@ == o.1)
            }),
    {
        self.recv_common(fs, fd, buf, buflen, flags, addr)
    }

    /// Receives on the socket at `fd` without asking for the sender's address.
    pub fn recv_syscall(&self, fs: &mut FilesystemMetadata, fd: i32, buf: &mut Vec<u8>, buflen: usize, flags: i32) -> (ret: i32)
        requires
            self.inv(old(fs)),
            0 <= fd < MAXFD,
            !recv_is_host(old(fs)@, self.fd(fd as int)),
        ensures
            self.inv(final(fs)),
            ({
                let o = recv_outcome(old(fs)@, self.fd(fd as int), buflen, flags);
                &&& ret == o.0 as i32
                &&& final(fs)@ == o.2
                &&& (o.0 >= 0 ==> final(buf)@ == o.1)
            }),
    {
        let mut none: Option<GenSockaddr> = None;
        self.recv_common(fs, fd, buf, buflen, flags, &mut none)
    }
}

} // verus!
