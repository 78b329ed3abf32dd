use safeposix::cage::{Cage, EpollEvent, FileDescriptor};
use safeposix::errno::{
    EBADF, EEXIST, EINVAL, ENOENT, ENOPROTOOPT, ENOTCONN, ENOTSOCK, EOPNOTSUPP, EPERM,
};
use safeposix::filesystem::FilesystemMetadata;
use safeposix::fs_constants::{O_CLOEXEC, O_CREAT, O_NONBLOCK, O_RDWR, S_IRWXA};
use safeposix::net::{
    ConnState, GenSockaddr, AF_INET, AF_UNIX, EPOLLIN, EPOLLOUT, EPOLL_CTL_ADD, EPOLL_CTL_DEL,
    EPOLL_CTL_MOD, SHUT_RD, SHUT_RDWR, SHUT_WR, SOCK_CLOEXEC, SOCK_DGRAM, SOCK_NONBLOCK, SOCK_STREAM,
    SOL_SOCKET, SOL_TCP, SOL_UDP, SO_ACCEPTCONN, SO_ERROR, SO_KEEPALIVE, SO_OOBINLINE, SO_RCVBUF,
    SO_REUSEADDR, SO_SNDBUF, SO_TYPE, TCP_NODELAY, IPPROTO_UDP,
};

fn setup() -> (FilesystemMetadata, Cage) {
    let mut fs = FilesystemMetadata::blank_fs_init();
    let cage = Cage::new(&mut fs, 1);
    (fs, cage)
}

fn blank_addr() -> GenSockaddr {
    GenSockaddr { family: 0, port: 7, addr: [1u8; 16], path: [2u8; 108] }
}

#[test]
fn test_socket_creation() {
    let (mut fs, mut cage) = setup();
    let fd = cage.socket_syscall(&mut fs, AF_INET, SOCK_STREAM, 0);
    assert_eq!(fd, 3);
    match cage.filedescriptortable[3] {
        Some(FileDescriptor::Socket(s)) => {
            assert_eq!(s.domain, AF_INET);
            assert_eq!(s.flags, 0);
            let h = fs.sockets[s.handle];
            assert_eq!(h.protocol, 6);
            assert_eq!(h.state, ConnState::NOTCONNECTED);
            assert_eq!(h.sndbuf, 131070);
            assert_eq!(h.rcvbuf, 262140);
        },
        _ => panic!("socket expected"),
    }
    let fd2 = cage.socket_syscall(&mut fs, AF_UNIX, SOCK_DGRAM | SOCK_NONBLOCK | SOCK_CLOEXEC, 0);
    assert_eq!(fd2, 4);
    match cage.filedescriptortable[4] {
        Some(FileDescriptor::Socket(s)) => assert_eq!(s.flags, O_NONBLOCK | O_CLOEXEC),
        _ => panic!("socket expected"),
    }
    assert_eq!(cage.socket_syscall(&mut fs, AF_INET, 3, 0), -EOPNOTSUPP);
    assert_eq!(cage.socket_syscall(&mut fs, AF_INET, SOCK_STREAM, IPPROTO_UDP), -EOPNOTSUPP);
    assert_eq!(cage.socket_syscall(&mut fs, 40, SOCK_STREAM, 0), -EOPNOTSUPP);
    assert_eq!(cage.socket_syscall(&mut fs, AF_INET, SOCK_STREAM | 0x100, 0), -EINVAL);
    assert_eq!(cage.socket_syscall(&mut fs, AF_INET, SOCK_STREAM | 0x8, 0), -EINVAL);
}

#[test]
fn test_sockopts() {
    let (mut fs, mut cage) = setup();
    let fd = cage.socket_syscall(&mut fs, AF_INET, SOCK_STREAM, 0);
    let mut v = -5;
    assert_eq!(cage.setsockopt_syscall(&mut fs, fd, SOL_SOCKET, SO_SNDBUF, 1000, 0), 0);
    assert_eq!(cage.getsockopt_syscall(&mut fs, fd, SOL_SOCKET, SO_SNDBUF, &mut v), 0);
    assert_eq!(v, 1000);
    assert_eq!(cage.setsockopt_syscall(&mut fs, fd, SOL_SOCKET, SO_RCVBUF, 2000, 0), 0);
    assert_eq!(cage.getsockopt_syscall(&mut fs, fd, SOL_SOCKET, SO_RCVBUF, &mut v), 0);
    assert_eq!(v, 2000);
    assert_eq!(cage.getsockopt_syscall(&mut fs, fd, SOL_SOCKET, SO_KEEPALIVE, &mut v), 0);
    assert_eq!(v, 0);
    assert_eq!(cage.setsockopt_syscall(&mut fs, fd, SOL_SOCKET, SO_KEEPALIVE, 1, 0), 0);
    assert_eq!(cage.getsockopt_syscall(&mut fs, fd, SOL_SOCKET, SO_KEEPALIVE, &mut v), 0);
    assert_eq!(v, 1);
    assert_eq!(cage.setsockopt_syscall(&mut fs, fd, SOL_SOCKET, SO_REUSEADDR, 1, 0), 0);
    assert_eq!(cage.setsockopt_syscall(&mut fs, fd, SOL_SOCKET, SO_REUSEADDR, 0, 0), 0);
    assert_eq!(cage.getsockopt_syscall(&mut fs, fd, SOL_SOCKET, SO_REUSEADDR, &mut v), 0);
    assert_eq!(v, 0);
    assert_eq!(cage.setsockopt_syscall(&mut fs, fd, SOL_TCP, TCP_NODELAY, 1, 0), 0);
    assert_eq!(cage.getsockopt_syscall(&mut fs, fd, SOL_TCP, TCP_NODELAY, &mut v), 0);
    assert_eq!(v, 1);
    assert_eq!(cage.getsockopt_syscall(&mut fs, fd, SOL_SOCKET, SO_TYPE, &mut v), 0);
    assert_eq!(v, SOCK_STREAM);
    assert_eq!(cage.getsockopt_syscall(&mut fs, fd, SOL_SOCKET, SO_OOBINLINE, &mut v), 0);
    assert_eq!(v, 1);
    assert_eq!(cage.setsockopt_syscall(&mut fs, fd, SOL_SOCKET, SO_OOBINLINE, 0, 0), -EOPNOTSUPP);
    assert_eq!(cage.setsockopt_syscall(&mut fs, fd, SOL_SOCKET, SO_TYPE, 1, 0), -ENOPROTOOPT);
    assert_eq!(cage.setsockopt_syscall(&mut fs, fd, SOL_UDP, 1, 1, 0), -EOPNOTSUPP);
    assert_eq!(cage.getsockopt_syscall(&mut fs, fd, SOL_TCP, 2, &mut v), -EOPNOTSUPP);
    assert_eq!(cage.getsockopt_syscall(&mut fs, fd, 99, 1, &mut v), -EOPNOTSUPP);
    assert_eq!(cage.getsockopt_syscall(&mut fs, 0, SOL_SOCKET, SO_TYPE, &mut v), -ENOTSOCK);
    assert_eq!(cage.getsockopt_syscall(&mut fs, 50, SOL_SOCKET, SO_TYPE, &mut v), -EBADF);
    // a change that the host socket refuses leaves the option as it was
    assert!(cage.setsockopt_asks_host_at(&fs, fd, SOL_TCP, TCP_NODELAY, 0));
    assert_eq!(cage.setsockopt_syscall(&mut fs, fd, SOL_TCP, TCP_NODELAY, 0, 22), -22);
    assert_eq!(cage.getsockopt_syscall(&mut fs, fd, SOL_TCP, TCP_NODELAY, &mut v), 0);
    assert_eq!(v, 1);
    // setting what is already set, or an option the host is not told of, asks nothing
    assert!(!cage.setsockopt_asks_host_at(&fs, fd, SOL_TCP, TCP_NODELAY, 1));
    assert!(!cage.setsockopt_asks_host_at(&fs, fd, SOL_SOCKET, SO_SNDBUF, 7));
    assert_eq!(cage.setsockopt_syscall(&mut fs, fd, SOL_SOCKET, SO_SNDBUF, 7, 22), 0);
}

#[test]
fn test_so_error_is_cleared_on_read() {
    let (mut fs, mut cage) = setup();
    let fd = cage.socket_syscall(&mut fs, AF_INET, SOCK_STREAM, 0);
    let handle = match cage.filedescriptortable[fd as usize] {
        Some(FileDescriptor::Socket(s)) => s.handle,
        _ => panic!("socket expected"),
    };
    fs.sockets[handle].errno = 111;
    let mut v = 0;
    assert_eq!(cage.getsockopt_syscall(&mut fs, fd, SOL_SOCKET, SO_ERROR, &mut v), 0);
    assert_eq!(v, 111);
    assert_eq!(cage.getsockopt_syscall(&mut fs, fd, SOL_SOCKET, SO_ERROR, &mut v), 0);
    assert_eq!(v, 0);
}

#[test]
fn test_socket_names() {
    let (mut fs, mut cage) = setup();
    let fd = cage.socket_syscall(&mut fs, AF_INET, SOCK_STREAM, 0);
    let mut a = blank_addr();
    assert_eq!(cage.getpeername_syscall(&fs, fd, &mut a), -ENOTCONN);
    assert_eq!(cage.getsockname_syscall(&fs, fd, &mut a), 0);
    assert_eq!(a.family, AF_INET as u16);
    assert_eq!(a.port, 0);
    assert_eq!(a.addr, [0u8; 16]);
    assert_eq!(a.path, [2u8; 108]);
    let ufd = cage.socket_syscall(&mut fs, AF_UNIX, SOCK_STREAM, 0);
    let mut u = blank_addr();
    assert_eq!(cage.getsockname_syscall(&fs, ufd, &mut u), 0);
    assert_eq!(u.family, AF_UNIX as u16);
    assert_eq!(u.path, [0u8; 108]);
    assert_eq!(cage.getsockname_syscall(&fs, 1, &mut u), -ENOTSOCK);
    assert_eq!(cage.getpeername_syscall(&fs, 60, &mut u), -EBADF);
}

#[test]
fn test_gethostname() {
    let (_fs, cage) = setup();
    let mut buf = vec![7u8; 10];
    assert_eq!(cage.gethostname_syscall(&mut buf, 10), 0);
    assert_eq!(buf, vec![b'L', b'i', b'n', b'd', 0, 7, 7, 7, 7, 7]);
    let mut short = vec![7u8; 3];
    assert_eq!(cage.gethostname_syscall(&mut short, 2), 0);
    assert_eq!(short, vec![b'L', b'i', 7]);
    assert_eq!(cage.gethostname_syscall(&mut short, -1), -EINVAL);
}

#[test]
fn test_listen_and_shutdown() {
    let (mut fs, mut cage) = setup();
    let fd = cage.socket_syscall(&mut fs, AF_UNIX, SOCK_STREAM, 0);
    let mut v = 0;
    assert_eq!(cage.listen_syscall(&mut fs, fd, 5), 0);
    assert_eq!(cage.getsockopt_syscall(&mut fs, fd, SOL_SOCKET, SO_ACCEPTCONN, &mut v), 0);
    assert_eq!(v, 1);
    assert_eq!(cage.listen_syscall(&mut fs, fd, 5), 0);
    let udp = cage.socket_syscall(&mut fs, AF_INET, SOCK_DGRAM, 0);
    assert_eq!(cage.listen_syscall(&mut fs, udp, 5), -EOPNOTSUPP);
    let f = cage.open_syscall(&mut fs, "/f", O_CREAT | O_RDWR, S_IRWXA);
    assert_eq!(cage.listen_syscall(&mut fs, f, 5), -ENOTSOCK);
    assert_eq!(cage.netshutdown_syscall(&mut fs, fd, 9, false, 0, 0), -EINVAL);
    assert_eq!(cage.netshutdown_syscall(&mut fs, fd, SHUT_RD, false, 0, 0), 0);
    assert_eq!(cage.netshutdown_syscall(&mut fs, fd, SHUT_WR, false, 0, 0), 0);
    let handle = match cage.filedescriptortable[fd as usize] {
        Some(FileDescriptor::Socket(s)) => s.handle,
        _ => panic!("socket expected"),
    };
    assert_eq!(fs.sockets[handle].state, ConnState::CONNRDONLY);
    assert_eq!(cage.netshutdown_syscall(&mut fs, fd, SHUT_RDWR, false, 0, 0), 0);
    assert!(cage.filedescriptortable[fd as usize].is_none());
    assert_eq!(fs.sockets[handle].state, ConnState::NOTCONNECTED);
    assert_eq!(cage.netshutdown_syscall(&mut fs, fd, SHUT_RDWR, false, 0, 0), -EBADF);
}

#[test]
fn test_epoll_registrations() {
    let (mut fs, mut cage) = setup();
    assert_eq!(cage.epoll_create_syscall(&mut fs, 0), -EINVAL);
    let ep = cage.epoll_create_syscall(&mut fs, 1);
    assert_eq!(ep, 3);
    let s = cage.socket_syscall(&mut fs, AF_INET, SOCK_STREAM, 0);
    let ev = EpollEvent { events: EPOLLIN as u32, fd: s };
    assert_eq!(cage.epoll_ctl_syscall(ep, EPOLL_CTL_DEL, s, ev), -ENOENT);
    assert_eq!(cage.epoll_ctl_syscall(ep, EPOLL_CTL_ADD, s, ev), 0);
    assert_eq!(cage.epoll_ctl_syscall(ep, EPOLL_CTL_ADD, s, ev), -EEXIST);
    let ev2 = EpollEvent { events: EPOLLOUT as u32, fd: s };
    assert_eq!(cage.epoll_ctl_syscall(ep, EPOLL_CTL_MOD, s, ev2), 0);
    assert_eq!(cage.epoll_table[0][0].1.events, EPOLLOUT as u32);
    assert_eq!(cage.epoll_ctl_syscall(ep, 9, s, ev2), -EINVAL);
    assert_eq!(cage.epoll_ctl_syscall(ep, EPOLL_CTL_DEL, s, ev2), 0);
    assert_eq!(cage.epoll_table[0].len(), 0);
    assert_eq!(cage.epoll_ctl_syscall(ep, EPOLL_CTL_ADD, ep, ev), -EINVAL);
    let f = cage.open_syscall(&mut fs, "/f", O_CREAT | O_RDWR, S_IRWXA);
    assert_eq!(cage.epoll_ctl_syscall(ep, EPOLL_CTL_ADD, f, ev), -EPERM);
    assert_eq!(cage.epoll_ctl_syscall(ep, EPOLL_CTL_ADD, 40, ev), -EBADF);
    assert_eq!(cage.epoll_ctl_syscall(ep, EPOLL_CTL_ADD, 2000, ev), -EBADF);
    assert_eq!(cage.epoll_ctl_syscall(s, EPOLL_CTL_ADD, 1, ev), -EINVAL);
    assert_eq!(cage.epoll_ctl_syscall(ep, EPOLL_CTL_ADD, 1, ev), 0);
}
