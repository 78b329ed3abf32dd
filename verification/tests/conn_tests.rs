use safeposix::cage::{Cage, EpollEvent, FileDescriptor};
use safeposix::errno::{EADDRINUSE, EAGAIN, EBADF, EINVAL, EISCONN, ENFILE, ENOENT, ENOTDIR, ENOTSOCK, EOPNOTSUPP};
use safeposix::fd_calls::PipeArray;
use safeposix::filesystem::FilesystemMetadata;
use safeposix::fs_constants::{O_RDONLY, O_CREAT, O_RDWR, S_IRWXA};
use safeposix::net::{
    ConnState, GenSockaddr, AF_INET, AF_UNIX, EPOLLIN, EPOLLOUT, EPOLL_CTL_ADD, SOCK_DGRAM, SOCK_STREAM,
    SO_REUSEADDR, SO_REUSEPORT,
};
use safeposix::readiness::{FdSet, PollStruct, POLLIN, POLLNVAL, POLLOUT, POLLPRI};
use safeposix::sock_io::MSG_PEEK;
use safeposix::unix_net::{new_sockaddr_unix, NetMetadata, SockPair};

fn setup() -> (FilesystemMetadata, NetMetadata, Cage) {
    let mut fs = FilesystemMetadata::blank_fs_init();
    let cage = Cage::new(&mut fs, 1);
    (fs, NetMetadata::new(), cage)
}

fn unix_addr(path: &str) -> GenSockaddr {
    new_sockaddr_unix(AF_UNIX as u16, &path.as_bytes().to_vec())
}

fn pair(fs: &mut FilesystemMetadata, net: &mut NetMetadata, cage: &mut Cage) -> SockPair {
    let mut sv = SockPair { sock1: -1, sock2: -1 };
    assert_eq!(cage.socketpair_syscall(fs, net, AF_UNIX, SOCK_STREAM, 0, &mut sv), 0);
    sv
}

#[test]
fn test_socketpair_send_recv() {
    let (mut fs, mut net, mut cage) = setup();
    let sv = pair(&mut fs, &mut net, &mut cage);
    assert_eq!((sv.sock1, sv.sock2), (3, 4));
    assert_eq!(cage.send_syscall(&mut fs, sv.sock1, b"hello", 5, 0), 5);
    let mut buf = Vec::new();
    assert_eq!(cage.recv_syscall(&mut fs, sv.sock2, &mut buf, 10, 0), 5);
    assert_eq!(buf, b"hello".to_vec());
    // nothing left, and the other side is still open
    assert_eq!(cage.recv_syscall(&mut fs, sv.sock2, &mut buf, 10, 0), -EAGAIN);
    // the other direction has its own pipe
    assert_eq!(cage.send_syscall(&mut fs, sv.sock2, b"back", 4, 0), 4);
    assert_eq!(cage.recv_syscall(&mut fs, sv.sock1, &mut buf, 2, 0), 2);
    assert_eq!(buf, b"ba".to_vec());
}

#[test]
fn test_recv_peek_keeps_bytes() {
    let (mut fs, mut net, mut cage) = setup();
    let sv = pair(&mut fs, &mut net, &mut cage);
    assert_eq!(cage.send_syscall(&mut fs, sv.sock1, b"abcdef", 6, 0), 6);
    let mut buf = Vec::new();
    assert_eq!(cage.recv_syscall(&mut fs, sv.sock2, &mut buf, 3, MSG_PEEK), 3);
    assert_eq!(buf, b"abc".to_vec());
    assert_eq!(cage.recv_syscall(&mut fs, sv.sock2, &mut buf, 3, MSG_PEEK), 3);
    assert_eq!(buf, b"abc".to_vec());
    assert_eq!(cage.recv_syscall(&mut fs, sv.sock2, &mut buf, 4, 0), 4);
    assert_eq!(buf, b"abcd".to_vec());
    assert_eq!(cage.recv_syscall(&mut fs, sv.sock2, &mut buf, 10, 0), 2);
    assert_eq!(buf, b"ef".to_vec());
}

#[test]
fn test_read_write_on_sockets() {
    let (mut fs, mut net, mut cage) = setup();
    let sv = pair(&mut fs, &mut net, &mut cage);
    assert_eq!(cage.write_syscall(&mut fs, sv.sock1, b"xyz!", 3), 3);
    let mut buf = Vec::new();
    assert_eq!(cage.read_syscall(&mut fs, sv.sock2, &mut buf, 8), 3);
    assert_eq!(buf, b"xyz".to_vec());
}

#[test]
fn test_send_errors() {
    let (mut fs, mut net, mut cage) = setup();
    let fd = cage.socket_syscall(&mut fs, AF_UNIX, SOCK_STREAM, 0);
    let mut buf = Vec::new();
    assert_eq!(cage.send_syscall(&mut fs, fd, b"a", 1, 0), -safeposix::errno::ENOTCONN);
    assert_eq!(cage.recv_syscall(&mut fs, fd, &mut buf, 1, 0), -safeposix::errno::ENOTCONN);
    let dg = cage.socket_syscall(&mut fs, AF_UNIX, SOCK_DGRAM, 0);
    assert_eq!(cage.send_syscall(&mut fs, dg, b"a", 1, 0), -EOPNOTSUPP);
    assert_eq!(cage.send_syscall(&mut fs, 40, b"a", 1, 0), -EBADF);
    assert_eq!(cage.send_syscall(&mut fs, 0, b"a", 1, 0), -ENOTSOCK);
    // a named inet destination on a unix socket
    let mut dest = GenSockaddr { family: AF_INET as u16, port: 80, addr: [0u8; 16], path: [0u8; 108] };
    assert_eq!(cage.sendto_syscall(&mut fs, fd, b"a", 1, 0, &dest), -EISCONN);
    // an unspecified destination is a plain send
    dest.port = 0;
    assert_eq!(cage.sendto_syscall(&mut fs, fd, b"a", 1, 0, &dest), -safeposix::errno::ENOTCONN);
    let _ = &mut net;
}

#[test]
fn test_bind_unix_path() {
    let (mut fs, mut net, mut cage) = setup();
    let fd = cage.socket_syscall(&mut fs, AF_UNIX, SOCK_STREAM, 0);
    assert_eq!(cage.bind_syscall(&mut fs, &mut net, fd, &unix_addr("/mysock")), 0);
    let mut sb = safeposix::fs_constants::StatData::zeroed();
    assert_eq!(cage.stat_syscall(&fs, "/mysock", &mut sb), 0);
    assert_eq!(sb.st_mode & 0o170000, 0o140000);
    // a socket binds once
    assert_eq!(cage.bind_syscall(&mut fs, &mut net, fd, &unix_addr("/other")), -EINVAL);
    let fd2 = cage.socket_syscall(&mut fs, AF_UNIX, SOCK_STREAM, 0);
    assert_eq!(cage.bind_syscall(&mut fs, &mut net, fd2, &unix_addr("/mysock")), -EADDRINUSE);
    // a refused bind leaves the socket unbound: it can still bind to a free path
    assert_eq!(cage.bind_syscall(&mut fs, &mut net, fd2, &unix_addr("/free")), 0);
    let fd3 = cage.socket_syscall(&mut fs, AF_UNIX, SOCK_STREAM, 0);
    assert_eq!(cage.bind_syscall(&mut fs, &mut net, fd3, &unix_addr("/no/where")), -ENOENT);
    let fd4 = cage.socket_syscall(&mut fs, AF_UNIX, SOCK_STREAM, 0);
    assert_eq!(cage.bind_syscall(&mut fs, &mut net, fd4, &GenSockaddr { family: AF_INET as u16, ..unix_addr("/x") }), -EINVAL);
}

#[test]
fn test_connect_and_accept_unix() {
    let (mut fs, mut net, mut cage) = setup();
    let srv = cage.socket_syscall(&mut fs, AF_UNIX, SOCK_STREAM, 0);
    assert_eq!(cage.bind_syscall(&mut fs, &mut net, srv, &unix_addr("/srv")), 0);
    assert_eq!(cage.listen_syscall(&mut fs, srv, 5), 0);
    let mut peer = unix_addr("/unused");
    // nobody has connected yet
    assert_eq!(cage.accept_syscall(&mut fs, &mut net, srv, &mut peer), -EAGAIN);
    let cli = cage.socket_syscall(&mut fs, AF_UNIX, SOCK_STREAM, 0);
    assert_eq!(cage.connect_syscall(&mut fs, &mut net, cli, &unix_addr("/nothing")), -ENOENT);
    let cli2 = cage.socket_syscall(&mut fs, AF_UNIX, SOCK_STREAM, 0);
    assert_eq!(cage.connect_syscall(&mut fs, &mut net, cli2, &unix_addr("/srv")), 0);
    assert_eq!(cage.connect_syscall(&mut fs, &mut net, cli2, &unix_addr("/srv")), -EISCONN);
    let newfd = cage.accept_syscall(&mut fs, &mut net, srv, &mut peer);
    assert_eq!(newfd, 6);
    // the client was given a generated path on connecting (the failed attempt took the first)
    assert_eq!(peer.path[..6].to_vec(), b"/sock1".to_vec());
    match cage.filedescriptortable[6] {
        Some(FileDescriptor::Socket(s)) => assert_eq!(fs.sockets[s.handle].state, ConnState::CONNECTED),
        _ => panic!("socket expected"),
    }
    // the pending connection is gone
    assert_eq!(cage.accept_syscall(&mut fs, &mut net, srv, &mut peer), -EAGAIN);
    // bytes flow both ways
    assert_eq!(cage.send_syscall(&mut fs, cli2, b"ping", 4, 0), 4);
    let mut buf = Vec::new();
    assert_eq!(cage.recv_syscall(&mut fs, newfd, &mut buf, 4, 0), 4);
    assert_eq!(buf, b"ping".to_vec());
    assert_eq!(cage.send_syscall(&mut fs, newfd, b"pong", 4, 0), 4);
    assert_eq!(cage.recv_syscall(&mut fs, cli2, &mut buf, 4, 0), 4);
    assert_eq!(buf, b"pong".to_vec());
    // accepting on something that is not listening
    assert_eq!(cage.accept_syscall(&mut fs, &mut net, cli, &mut peer), -EINVAL);
    assert_eq!(cage.accept_syscall(&mut fs, &mut net, 0, &mut peer), -ENOTSOCK);
    assert_eq!(cage.accept_syscall(&mut fs, &mut net, 50, &mut peer), -EBADF);
}

#[test]
fn test_connect_datagram_records_peer() {
    let (mut fs, mut net, mut cage) = setup();
    let dg = cage.socket_syscall(&mut fs, AF_UNIX, SOCK_DGRAM, 0);
    assert_eq!(cage.bind_syscall(&mut fs, &mut net, dg, &unix_addr("/dg")), 0);
    assert_eq!(cage.connect_syscall(&mut fs, &mut net, dg, &unix_addr("/peer")), 0);
    let mut a = unix_addr("/x");
    assert_eq!(cage.getpeername_syscall(&fs, dg, &mut a), 0);
    assert_eq!(a.path[..5].to_vec(), b"/peer".to_vec());
    let bad = GenSockaddr { family: AF_INET as u16, ..unix_addr("/peer") };
    assert_eq!(cage.connect_syscall(&mut fs, &mut net, dg, &bad), -EINVAL);
}

#[test]
fn test_select_on_pipes() {
    let (mut fs, net, mut cage) = setup();
    let mut pa = PipeArray { readfd: -1, writefd: -1 };
    assert_eq!(cage.pipe_syscall(&mut fs, &mut pa), 0);
    let mut rd = FdSet::new();
    rd.set(pa.readfd);
    let mut wr = FdSet::new();
    wr.set(pa.writefd);
    let mut rdo = Some(rd);
    let mut wro = Some(wr);
    // the pipe has room but nothing to read
    assert_eq!(cage.select_syscall(&mut fs, &net, &Vec::new(), 10, &mut rdo, &mut wro, &None), 1);
    assert!(rdo.as_ref().unwrap().is_empty());
    assert!(wro.as_ref().unwrap().is_set(pa.writefd));
    assert_eq!(cage.write_syscall(&mut fs, pa.writefd, b"data", 4), 4);
    let mut rd = FdSet::new();
    rd.set(pa.readfd);
    let mut rdo = Some(rd);
    assert_eq!(cage.select_syscall(&mut fs, &net, &Vec::new(), 10, &mut rdo, &mut None, &None), 1);
    assert!(rdo.as_ref().unwrap().is_set(pa.readfd));
    // descriptors at or above nfds are not looked at
    let mut rd = FdSet::new();
    rd.set(pa.readfd);
    let mut rdo = Some(rd);
    assert_eq!(cage.select_syscall(&mut fs, &net, &Vec::new(), pa.readfd, &mut rdo, &mut None, &None), 0);
    // a closed descriptor is an error, and the sets are left alone
    let mut rd = FdSet::new();
    rd.set(20);
    let mut rdo = Some(rd);
    assert_eq!(cage.select_syscall(&mut fs, &net, &Vec::new(), 30, &mut rdo, &mut None, &None), -EBADF);
    assert!(rdo.as_ref().unwrap().is_set(20));
    let mut ex = FdSet::new();
    ex.set(21);
    assert_eq!(cage.select_syscall(&mut fs, &net, &Vec::new(), 30, &mut None, &mut None, &Some(ex)), -EBADF);
    assert_eq!(cage.select_syscall(&mut fs, &net, &Vec::new(), 1024, &mut None, &mut None, &None), 0);
    assert_eq!(cage.select_syscall(&mut fs, &net, &Vec::new(), 1025, &mut None, &mut None, &None), -EINVAL);
    assert_eq!(cage.select_syscall(&mut fs, &net, &Vec::new(), -1, &mut None, &mut None, &None), -EINVAL);
}

#[test]
fn test_select_on_listening_socket() {
    let (mut fs, mut net, mut cage) = setup();
    let srv = cage.socket_syscall(&mut fs, AF_UNIX, SOCK_STREAM, 0);
    assert_eq!(cage.bind_syscall(&mut fs, &mut net, srv, &unix_addr("/l")), 0);
    assert_eq!(cage.listen_syscall(&mut fs, srv, 5), 0);
    let mut rd = FdSet::new();
    rd.set(srv);
    let mut rdo = Some(rd);
    assert_eq!(cage.select_syscall(&mut fs, &net, &Vec::new(), srv + 1, &mut rdo, &mut None, &None), 0);
    let cli = cage.socket_syscall(&mut fs, AF_UNIX, SOCK_STREAM, 0);
    assert_eq!(cage.connect_syscall(&mut fs, &mut net, cli, &unix_addr("/l")), 0);
    let mut rd = FdSet::new();
    rd.set(srv);
    let mut rdo = Some(rd);
    assert_eq!(cage.select_syscall(&mut fs, &net, &Vec::new(), srv + 1, &mut rdo, &mut None, &None), 1);
    assert!(rdo.as_ref().unwrap().is_set(srv));
}

#[test]
fn test_poll_on_pipes() {
    let (mut fs, net, mut cage) = setup();
    let mut pa = PipeArray { readfd: -1, writefd: -1 };
    assert_eq!(cage.pipe_syscall(&mut fs, &mut pa), 0);
    let mut fds = vec![
        PollStruct { fd: pa.readfd, events: POLLIN, revents: 7 },
        PollStruct { fd: pa.writefd, events: POLLOUT, revents: 7 },
        PollStruct { fd: -1, events: POLLIN, revents: 7 },
        PollStruct { fd: 30, events: POLLIN, revents: 7 },
    ];
    assert_eq!(cage.poll_syscall(&mut fs, &net, &Vec::new(), &mut fds), 2);
    assert_eq!(fds[0].revents, 0);
    assert_eq!(fds[1].revents, POLLOUT);
    assert_eq!(fds[2].revents, 0);
    assert_eq!(fds[3].revents, POLLNVAL);
    assert_eq!(cage.write_syscall(&mut fs, pa.writefd, b"x", 1), 1);
    assert_eq!(cage.poll_syscall(&mut fs, &net, &Vec::new(), &mut fds), 3);
    assert_eq!(fds[0].revents, POLLIN);
}

#[test]
fn test_epoll_wait_reports_ready() {
    let (mut fs, net, mut cage) = setup();
    let mut pa = PipeArray { readfd: -1, writefd: -1 };
    assert_eq!(cage.pipe_syscall(&mut fs, &mut pa), 0);
    let ep = cage.epoll_create_syscall(&mut fs, 1);
    assert!(ep > 0);
    let ev = EpollEvent { events: EPOLLIN as u32, fd: 77 };
    assert_eq!(cage.epoll_ctl_syscall(ep, EPOLL_CTL_ADD, pa.readfd, ev), 0);
    let ev2 = EpollEvent { events: EPOLLOUT as u32, fd: 88 };
    assert_eq!(cage.epoll_ctl_syscall(ep, EPOLL_CTL_ADD, pa.writefd, ev2), 0);
    let mut out = vec![EpollEvent { events: 0, fd: 0 }; 4];
    assert_eq!(cage.epoll_wait_syscall(&mut fs, &net, &Vec::new(), ep, &mut out, 4), 1);
    assert_eq!(out[0].events, EPOLLOUT as u32);
    assert_eq!(out[0].fd, 88);
    assert_eq!(cage.write_syscall(&mut fs, pa.writefd, b"x", 1), 1);
    assert_eq!(cage.epoll_wait_syscall(&mut fs, &net, &Vec::new(), ep, &mut out, 4), 2);
    assert_eq!((out[0].events, out[0].fd), (EPOLLIN as u32, 77));
    assert_eq!((out[1].events, out[1].fd), (EPOLLOUT as u32, 88));
    // at most maxevents
    assert_eq!(cage.epoll_wait_syscall(&mut fs, &net, &Vec::new(), ep, &mut out, 1), 1);
    assert_eq!(cage.epoll_wait_syscall(&mut fs, &net, &Vec::new(), ep, &mut out, 0), -EINVAL);
    assert_eq!(cage.epoll_wait_syscall(&mut fs, &net, &Vec::new(), pa.readfd, &mut out, 4), -EINVAL);
    assert_eq!(cage.epoll_wait_syscall(&mut fs, &net, &Vec::new(), 2000, &mut out, 4), -EBADF);
    // a closed descriptor's registration is dropped
    assert_eq!(cage.close_syscall(&mut fs, &mut NetMetadata::new(), pa.readfd), 0);
    assert_eq!(cage.epoll_wait_syscall(&mut fs, &net, &Vec::new(), ep, &mut out, 4), 1);
    match cage.filedescriptortable[ep as usize] {
        Some(FileDescriptor::Epoll(e)) => assert_eq!(cage.epoll_table[e.registered].len(), 1),
        _ => panic!("epoll expected"),
    }
}

#[test]
fn test_fchdir() {
    let (mut fs, _net, mut cage) = setup();
    assert_eq!(cage.mkdir_syscall(&mut fs, "/a", S_IRWXA), 0);
    assert_eq!(cage.mkdir_syscall(&mut fs, "/a/b", S_IRWXA), 0);
    let d = cage.open_syscall(&mut fs, "/a/b", O_RDONLY, 0);
    assert!(d >= 0);
    assert_eq!(cage.fchdir_syscall(&fs, d), 0);
    let mut buf = Vec::new();
    assert_eq!(cage.getcwd_syscall(&mut buf, 100), 0);
    assert_eq!(buf, b"/a/b\0".to_vec());
    let f = cage.open_syscall(&mut fs, "/a/f", O_CREAT | O_RDWR, S_IRWXA);
    assert_eq!(cage.fchdir_syscall(&fs, f), -ENOTDIR);
    assert_eq!(cage.fchdir_syscall(&fs, 0), -ENOTDIR);
    assert_eq!(cage.fchdir_syscall(&fs, 40), -EBADF);
    let root = cage.open_syscall(&mut fs, "/", O_RDONLY, 0);
    assert_eq!(cage.fchdir_syscall(&fs, root), 0);
    assert_eq!(cage.getcwd_syscall(&mut buf, 100), 0);
    // only the start of the buffer is written
    assert_eq!(buf, b"/\0/b\0".to_vec());
}

#[test]
fn test_getifaddrs() {
    let (_fs, _net, cage) = setup();
    let mut buf = vec![9u8; 10];
    assert_eq!(cage.getifaddrs_syscall(b"lo 1", &mut buf, 10), 0);
    assert_eq!(buf, vec![b'l', b'o', b' ', b'1', 9, 9, 9, 9, 9, 9]);
    assert_eq!(cage.getifaddrs_syscall(b"0123456789", &mut buf, 10), -EOPNOTSUPP);
}

#[test]
fn test_force_innersocket_options() {
    let (mut fs, _net, mut cage) = setup();
    let fd = cage.socket_syscall(&mut fs, AF_INET, SOCK_STREAM, 0);
    let h = match cage.filedescriptortable[fd as usize] {
        Some(FileDescriptor::Socket(s)) => fs.sockets[s.handle],
        _ => panic!("socket expected"),
    };
    assert_eq!(Cage::force_innersocket(&h), Vec::<i32>::new());
    let h2 = safeposix::net::SocketHandle { socket_options: 1 << (SO_REUSEPORT & 31) | 1 << SO_REUSEADDR, ..h };
    assert_eq!(Cage::force_innersocket(&h2), vec![SO_REUSEPORT, SO_REUSEADDR]);
}

#[test]
fn test_unlink_and_rename_move_socket_paths() {
    let (mut fs, mut net, mut cage) = setup();
    let srv = cage.socket_syscall(&mut fs, AF_UNIX, SOCK_STREAM, 0);
    assert_eq!(cage.bind_syscall(&mut fs, &mut net, srv, &unix_addr("/s")), 0);
    assert_eq!(cage.listen_syscall(&mut fs, srv, 5), 0);
    assert_eq!(cage.rename_syscall(&mut fs, &mut net, "/s", "/t"), 0);
    let c1 = cage.socket_syscall(&mut fs, AF_UNIX, SOCK_STREAM | safeposix::net::SOCK_NONBLOCK, 0);
    assert_eq!(cage.connect_syscall(&mut fs, &mut net, c1, &unix_addr("/s")), -ENOENT);
    let c2 = cage.socket_syscall(&mut fs, AF_UNIX, SOCK_STREAM | safeposix::net::SOCK_NONBLOCK, 0);
    assert_eq!(cage.connect_syscall(&mut fs, &mut net, c2, &unix_addr("/t")), 0);
    assert_eq!(cage.unlink_syscall(&mut fs, &mut net, "/t"), 0);
    let c3 = cage.socket_syscall(&mut fs, AF_UNIX, SOCK_STREAM | safeposix::net::SOCK_NONBLOCK, 0);
    assert_eq!(cage.connect_syscall(&mut fs, &mut net, c3, &unix_addr("/t")), -ENOENT);
}

#[test]
fn test_closing_unnamed_socket_forgets_path() {
    let (mut fs, mut net, mut cage) = setup();
    let a = cage.socket_syscall(&mut fs, AF_UNIX, SOCK_STREAM, 0);
    assert_eq!(cage.bind_syscall(&mut fs, &mut net, a, &unix_addr("/gone")), 0);
    // the file keeps its name, so closing leaves the path bound
    let b = cage.socket_syscall(&mut fs, AF_UNIX, SOCK_STREAM, 0);
    assert_eq!(cage.bind_syscall(&mut fs, &mut net, b, &unix_addr("/kept")), 0);
    assert_eq!(cage.close_syscall(&mut fs, &mut net, b), 0);
    let c = cage.socket_syscall(&mut fs, AF_UNIX, SOCK_STREAM | safeposix::net::SOCK_NONBLOCK, 0);
    assert_eq!(cage.connect_syscall(&mut fs, &mut net, c, &unix_addr("/kept")), 0);
    // unlinked while open: unlink forgets the path already
    assert_eq!(cage.unlink_syscall(&mut fs, &mut net, "/gone"), 0);
    assert_eq!(cage.close_syscall(&mut fs, &mut net, a), 0);
    let d = cage.socket_syscall(&mut fs, AF_UNIX, SOCK_STREAM | safeposix::net::SOCK_NONBLOCK, 0);
    assert_eq!(cage.connect_syscall(&mut fs, &mut net, d, &unix_addr("/gone")), -ENOENT);
}

#[test]
fn test_poll_never_reports_priority_events() {
    let (mut fs, net, mut cage) = setup();
    let mut pa = PipeArray { readfd: -1, writefd: -1 };
    assert_eq!(cage.pipe_syscall(&mut fs, &mut pa), 0);
    assert_eq!(cage.write_syscall(&mut fs, pa.writefd, b"x", 1), 1);
    let mut fds = vec![
        PollStruct { fd: pa.readfd, events: POLLIN | POLLPRI, revents: 0 },
        PollStruct { fd: pa.writefd, events: POLLPRI, revents: 0 },
    ];
    assert_eq!(cage.poll_syscall(&mut fs, &net, &Vec::new(), &mut fds), 1);
    assert_eq!(fds[0].revents, POLLIN);
    assert_eq!(fds[1].revents, 0);
}

#[test]
fn test_socketpair_needs_two_free_descriptors() {
    let (mut fs, mut net, mut cage) = setup();
    let mut last = 0;
    loop {
        let r = cage.dup_syscall(&mut fs, 0, Some(1));
        if r < 0 {
            break;
        }
        last = r;
    }
    // one free descriptor is not enough: nothing is made
    assert_eq!(cage.close_syscall(&mut fs, &mut net, last), 0);
    let sockets = fs.sockets.len();
    let pipes = fs.pipes.len();
    let mut sv = SockPair { sock1: -7, sock2: -7 };
    assert_eq!(cage.socketpair_syscall(&mut fs, &mut net, AF_UNIX, SOCK_STREAM, 0, &mut sv), -ENFILE);
    assert_eq!((sv.sock1, sv.sock2), (-7, -7));
    assert_eq!(fs.sockets.len(), sockets);
    assert_eq!(fs.pipes.len(), pipes);
    assert!(cage.filedescriptortable[last as usize].is_none());
    // two are
    assert_eq!(cage.close_syscall(&mut fs, &mut net, last - 1), 0);
    assert_eq!(cage.socketpair_syscall(&mut fs, &mut net, AF_UNIX, SOCK_STREAM, 0, &mut sv), 0);
    assert_eq!((sv.sock1, sv.sock2), (last - 1, last));
}

#[test]
fn test_pipe_needs_two_free_descriptors() {
    let (mut fs, mut net, mut cage) = setup();
    let mut last = 0;
    loop {
        let r = cage.dup_syscall(&mut fs, 0, Some(1));
        if r < 0 {
            break;
        }
        last = r;
    }
    assert_eq!(cage.close_syscall(&mut fs, &mut net, last), 0);
    let pipes = fs.pipes.len();
    let mut pa = PipeArray { readfd: -5, writefd: -5 };
    assert_eq!(cage.pipe_syscall(&mut fs, &mut pa), -ENFILE);
    assert_eq!((pa.readfd, pa.writefd), (-5, -5));
    assert_eq!(fs.pipes.len(), pipes);
    assert!(cage.filedescriptortable[last as usize].is_none());
}

#[test]
fn test_socketpair_paths_free_check() {
    let (mut fs, mut net, mut cage) = setup();
    assert!(cage.socketpair_paths_free(&fs, &net));
    // a file at the next generated path stops the check
    let name = format!("/sock{}", net.next_ud_id + 1);
    let fd = cage.open_syscall(&mut fs, &name, O_CREAT | O_RDWR, 0o777);
    assert!(fd >= 0);
    assert!(!cage.socketpair_paths_free(&fs, &net));
    // once that path is used up the generated ones are free again
    let _ = net.gen_ud_path();
    let _ = net.gen_ud_path();
    assert!(cage.socketpair_paths_free(&fs, &net));
    let mut sv = SockPair { sock1: -1, sock2: -1 };
    assert_eq!(cage.socketpair_syscall(&mut fs, &mut net, AF_UNIX, SOCK_STREAM, 0, &mut sv), 0);
}
