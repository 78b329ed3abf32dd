use safeposix::cage::{Cage, FileDescriptor, SocketDesc};
use safeposix::readiness::{FdSet, PollStruct, POLLIN, POLLOUT};
use safeposix::errno::{EADDRINUSE, EAGAIN, EINPROGRESS, EINVAL, ENFILE, ENOTCONN, EOPNOTSUPP};
use safeposix::filesystem::FilesystemMetadata;
use safeposix::net::{ConnState, GenSockaddr, SocketHandle, AF_INET, SOCK_DGRAM, SOCK_STREAM};
use safeposix::unix_net::NetMetadata;

fn setup() -> (FilesystemMetadata, NetMetadata, Cage) {
    let mut fs = FilesystemMetadata::blank_fs_init();
    let cage = Cage::new(&mut fs, 1);
    (fs, NetMetadata::new(), cage)
}

fn v4(port: u16) -> GenSockaddr {
    let mut addr = [0u8; 16];
    addr[0] = 127;
    addr[3] = 1;
    GenSockaddr { family: AF_INET as u16, port, addr, path: [0u8; 108] }
}

fn desc(cage: &Cage, fd: i32) -> SocketDesc {
    match cage.filedescriptortable[fd as usize] {
        Some(FileDescriptor::Socket(s)) => s,
        _ => panic!("socket expected"),
    }
}

fn handle(fs: &FilesystemMetadata, cage: &Cage, fd: i32) -> SocketHandle {
    fs.sockets[desc(cage, fd).handle]
}

#[test]
fn test_inet_bind_records_address() {
    let (mut fs, mut net, mut cage) = setup();
    let fd = cage.socket_syscall(&mut fs, AF_INET, SOCK_STREAM, 0);
    assert_eq!(cage.bind_inner_socket_inet(&mut fs, fd, &v4(0), false, Ok(5000), 0), 0);
    assert_eq!(handle(&fs, &cage, fd).localaddr.unwrap().port, 5000);
    // bound once: the library refuses a second bind itself
    assert_eq!(cage.bind_syscall(&mut fs, &mut net, fd, &v4(80)), -EINVAL);
    // a refused reservation leaves the socket unbound, free to bind again
    let fd2 = cage.socket_syscall(&mut fs, AF_INET, SOCK_STREAM, 0);
    assert_eq!(cage.bind_inner_socket_inet(&mut fs, fd2, &v4(80), false, Err(-EADDRINUSE), 0), -EADDRINUSE);
    assert!(handle(&fs, &cage, fd2).localaddr.is_none());
    assert_eq!(cage.bind_inner_socket_inet(&mut fs, fd2, &v4(82), false, Ok(82), 0), 0);
    assert_eq!(handle(&fs, &cage, fd2).localaddr.unwrap().port, 82);
    // a failed host bind reports the host's error
    let fd3 = cage.socket_syscall(&mut fs, AF_INET, SOCK_STREAM, 0);
    assert_eq!(cage.bind_inner_socket_inet(&mut fs, fd3, &v4(81), true, Err(-1), 13), -13);
    assert!(handle(&fs, &cage, fd3).localaddr.is_none());
}

#[test]
fn test_inet_connect_outcomes() {
    let (mut fs, _net, mut cage) = setup();
    let fd = cage.socket_syscall(&mut fs, AF_INET, SOCK_STREAM, 0);
    assert_eq!(cage.connect_tcp_inet(&mut fs, fd, &v4(80), Ok(v4(6000)), 0, 0, 42), 0);
    let h = handle(&fs, &cage, fd);
    assert_eq!(h.state, ConnState::CONNECTED);
    assert_eq!(h.remoteaddr.unwrap().port, 80);
    assert_eq!(desc(&cage, fd).rawfd, 42);
    let fd2 = cage.socket_syscall(&mut fs, AF_INET, SOCK_STREAM, 0);
    assert_eq!(cage.connect_tcp_inet(&mut fs, fd2, &v4(80), Ok(v4(6001)), 0, EINPROGRESS, 43), -EINPROGRESS);
    assert_eq!(handle(&fs, &cage, fd2).state, ConnState::INPROGRESS);
    let fd3 = cage.socket_syscall(&mut fs, AF_INET, SOCK_STREAM, 0);
    assert_eq!(cage.connect_tcp_inet(&mut fs, fd3, &v4(80), Ok(v4(6002)), 0, 111, 44), -111);
    assert_eq!(handle(&fs, &cage, fd3).state, ConnState::NOTCONNECTED);
    assert_eq!(desc(&cage, fd3).rawfd, -1);
    let fd4 = cage.socket_syscall(&mut fs, AF_INET, SOCK_STREAM, 0);
    assert_eq!(cage.connect_tcp_inet(&mut fs, fd4, &v4(80), Ok(v4(6003)), 98, 0, 45), -98);
    assert_eq!(handle(&fs, &cage, fd4).localaddr.unwrap().port, 6003);
    let udp = cage.socket_syscall(&mut fs, AF_INET, SOCK_DGRAM, 0);
    assert_eq!(cage.connect_udp(&mut fs, udp, &v4(53), Ok(v4(7000)), 0, 46), 0);
    let hu = handle(&fs, &cage, udp);
    assert_eq!(hu.remoteaddr.unwrap().port, 53);
    assert_eq!(hu.localaddr.unwrap().port, 7000);
    assert_eq!(desc(&cage, udp).rawfd, 46);
}

#[test]
fn test_inet_listen_and_accept() {
    let (mut fs, _net, mut cage) = setup();
    let fd = cage.socket_syscall(&mut fs, AF_INET, SOCK_STREAM, 0);
    assert_eq!(cage.listen_inet(&mut fs, fd, Ok(v4(8080)), 0, 98, 50), -98);
    assert_eq!(handle(&fs, &cage, fd).state, ConnState::NOTCONNECTED);
    assert_eq!(cage.listen_inet(&mut fs, fd, Ok(v4(9999)), 0, 0, 50), 0);
    let h = handle(&fs, &cage, fd);
    assert_eq!(h.state, ConnState::LISTEN);
    // the address taken on the first attempt stays
    assert_eq!(h.localaddr.unwrap().port, 8080);
    let mut peer = v4(0);
    assert_eq!(cage.accept_inet(&mut fs, fd, Err(EAGAIN), Ok(1), &mut peer), -EAGAIN);
    let newfd = cage.accept_inet(&mut fs, fd, Ok((60, v4(4242))), Ok(8081), &mut peer);
    assert_eq!(newfd, 4);
    assert_eq!(peer.port, 4242);
    let nh = handle(&fs, &cage, newfd);
    assert_eq!(nh.state, ConnState::CONNECTED);
    assert_eq!(nh.localaddr.unwrap().port, 8081);
    assert_eq!(nh.remoteaddr.unwrap().port, 4242);
    assert_eq!(desc(&cage, newfd).rawfd, 60);
    assert_eq!(cage.accept_inet(&mut fs, fd, Ok((61, v4(4243))), Err(-EADDRINUSE), &mut peer), -EADDRINUSE);
    // with no descriptor free
    for i in 0..1024usize {
        if cage.filedescriptortable[i].is_none() {
            cage.filedescriptortable[i] = cage.filedescriptortable[0];
        }
    }
    assert_eq!(cage.accept_inet(&mut fs, fd, Ok((62, v4(4244))), Ok(1), &mut peer), -ENFILE);
}

#[test]
fn test_inet_shutdown_lets_address_go() {
    let (mut fs, _net, mut cage) = setup();
    let fd = cage.socket_syscall(&mut fs, AF_INET, SOCK_STREAM, 0);
    assert_eq!(cage.connect_tcp_inet(&mut fs, fd, &v4(80), Ok(v4(6000)), 0, 0, 42), 0);
    let b = cage.socket_syscall(&mut fs, AF_INET, SOCK_STREAM, 0);
    assert_eq!(b, 4);
    assert_eq!(cage.bind_inner_socket_inet(&mut fs, b, &v4(0), false, Ok(1), 0), 0);
    // the connected socket got no address from connecting (its bind went to the host only)
    assert!(handle(&fs, &cage, fd).localaddr.is_none());
    assert!(handle(&fs, &cage, b).localaddr.is_some());
    // a failing host shutdown changes nothing
    assert_eq!(cage.netshutdown_syscall(&mut fs, b, safeposix::net::SHUT_RD, true, 107, 0), -107);
    assert!(handle(&fs, &cage, b).localaddr.is_some());
    // shutting the reading side of a socket that still writes keeps the address
    assert_eq!(cage.netshutdown_syscall(&mut fs, b, safeposix::net::SHUT_RD, true, 0, 0), 0);
    assert!(handle(&fs, &cage, b).localaddr.is_some());
    assert_eq!(handle(&fs, &cage, b).state, ConnState::CONNWRONLY);
    // both ways: the address goes, and so does the descriptor
    assert_eq!(cage.netshutdown_syscall(&mut fs, b, safeposix::net::SHUT_RDWR, true, 0, 0), 0);
    assert!(cage.filedescriptortable[b as usize].is_none());
    let mut h = handle(&fs, &cage, fd);
    h.localaddr = Some(v4(9));
    assert_eq!(Cage::_cleanup_socket_inner_helper(&mut h, safeposix::net::SHUT_RDWR, true, false, 0, -22), -22);
    assert!(h.localaddr.is_none());
    assert_eq!(h.state, ConnState::CONNECTED);
}

#[test]
fn test_select_and_poll_follow_host_answers() {
    let (mut fs, net, mut cage) = setup();
    let fd = cage.socket_syscall(&mut fs, AF_INET, SOCK_STREAM, 0);
    assert_eq!(cage.connect_tcp_inet(&mut fs, fd, &v4(80), Ok(v4(6000)), 0, 0, 42), 0);
    // the host says there is data to read
    let mut rd = FdSet::new();
    rd.set(fd);
    let mut rdo = Some(rd);
    assert_eq!(cage.select_syscall(&mut fs, &net, &vec![(fd, (true, false))], fd + 1, &mut rdo, &mut None, &None), 1);
    assert!(rdo.as_ref().unwrap().is_set(fd));
    // with no answer the socket is not readable
    let mut rd = FdSet::new();
    rd.set(fd);
    let mut rdo = Some(rd);
    assert_eq!(cage.select_syscall(&mut fs, &net, &Vec::new(), fd + 1, &mut rdo, &mut None, &None), 0);
    assert!(rdo.as_ref().unwrap().is_empty());
    // a connection in progress completes once the host says it can be written
    let fd2 = cage.socket_syscall(&mut fs, AF_INET, SOCK_STREAM, 0);
    assert_eq!(cage.connect_tcp_inet(&mut fs, fd2, &v4(80), Ok(v4(6001)), 0, EINPROGRESS, 43), -EINPROGRESS);
    let mut wr = FdSet::new();
    wr.set(fd2);
    let mut wro = Some(wr);
    assert_eq!(cage.select_syscall(&mut fs, &net, &vec![(fd2, (false, true))], fd2 + 1, &mut None, &mut wro, &None), 1);
    assert_eq!(handle(&fs, &cage, fd2).state, ConnState::CONNECTED);
    // poll reads the same answers
    let mut fds = vec![PollStruct { fd, events: POLLIN | POLLOUT, revents: 0 }];
    assert_eq!(cage.poll_syscall(&mut fs, &net, &vec![(fd, (true, false))], &mut fds), 1);
    assert_eq!(fds[0].revents, POLLIN | POLLOUT);
}

#[test]
fn test_writev_on_inet_sockets_decided_here() {
    let (mut fs, _net, mut cage) = setup();
    let tcp = cage.socket_syscall(&mut fs, AF_INET, SOCK_STREAM, 0);
    let udp = cage.socket_syscall(&mut fs, AF_INET, SOCK_DGRAM, 0);
    let iov = vec![b"ab".to_vec()];
    assert_eq!(cage.writev_syscall(&mut fs, tcp, &iov, 1), -ENOTCONN);
    assert_eq!(cage.writev_syscall(&mut fs, udp, &iov, 1), -EOPNOTSUPP);
}
