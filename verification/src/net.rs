//! Socket handles and the network constants that the system calls use.
use vstd::prelude::*;

verus! {

pub const AF_UNSPEC: i32 = 0;
pub const AF_UNIX: i32 = 1;
pub const AF_INET: i32 = 2;
pub const AF_INET6: i32 = 30;
pub const PF_UNIX: i32 = 1;
pub const PF_INET: i32 = 2;
pub const PF_INET6: i32 = 30;

pub const SOCK_STREAM: i32 = 1;
pub const SOCK_DGRAM: i32 = 2;
pub const SOCK_CLOEXEC: i32 = 0o2000000;
pub const SOCK_NONBLOCK: i32 = 0x4000;

pub const IPPROTO_TCP: i32 = 6;
pub const IPPROTO_UDP: i32 = 17;

pub const SHUT_RD: i32 = 0;
pub const SHUT_WR: i32 = 1;
pub const SHUT_RDWR: i32 = 2;

pub const SOL_SOCKET: i32 = 1;
pub const SOL_TCP: i32 = 6;
pub const SOL_UDP: i32 = 17;
pub const TCP_NODELAY: i32 = 0x01;

pub const SO_DEBUG: i32 = 0x0001;
pub const SO_ACCEPTCONN: i32 = 0x0002;
pub const SO_REUSEADDR: i32 = 0x0004;
pub const SO_KEEPALIVE: i32 = 0x0008;
pub const SO_LINGER: i32 = 0x0080;
pub const SO_OOBINLINE: i32 = 0x0100;
pub const SO_REUSEPORT: i32 = 0x0200;
pub const SO_SNDBUF: i32 = 0x1001;
pub const SO_RCVBUF: i32 = 0x1002;
pub const SO_SNDLOWAT: i32 = 0x1003;
pub const SO_RCVLOWAT: i32 = 0x1004;
pub const SO_ERROR: i32 = 0x1007;
pub const SO_TYPE: i32 = 0x1008;

pub const MSG_NOSIGNAL: i32 = 0x0400;

pub const EPOLLIN: i32 = 0x001;
pub const EPOLLPRI: i32 = 0x002;
pub const EPOLLOUT: i32 = 0x004;
pub const EPOLL_CTL_ADD: i32 = 1;
pub const EPOLL_CTL_DEL: i32 = 2;
pub const EPOLL_CTL_MOD: i32 = 3;

/// Connection state of a socket.
#[derive(Clone, Copy, Debug, PartialEq, Eq, Structural)]
pub enum ConnState {
    NOTCONNECTED,
    CONNECTED,
    CONNRDONLY,
    CONNWRONLY,
    LISTEN,
    INPROGRESS,
}

/// A socket address of any family: the port and address bytes serve the inet families, the
/// path the unix family.
#[derive(Clone, Copy, Debug)]
pub struct GenSockaddr {
    pub family: u16,
    pub port: u16,
    pub addr: [u8; 16],
    pub path: [u8; 108],
}

/// What a unix domain socket adds: the pipes of its connection and its inode.
#[derive(Clone, Copy, Debug)]
pub struct UnixSocketInfo {
    pub mode: i32,
    pub sendpipe: Option<usize>,
    pub receivepipe: Option<usize>,
    pub inode: usize,
}

/// The shared state of a socket, common to all descriptors that refer to it.
#[derive(Clone, Copy, Debug)]
pub struct SocketHandle {
    pub socket_options: i32,
    pub tcp_options: i32,
    pub state: ConnState,
    pub protocol: i32,
    pub domain: i32,
    pub localaddr: Option<GenSockaddr>,
    pub remoteaddr: Option<GenSockaddr>,
    pub unix_info: Option<UnixSocketInfo>,
    pub socktype: i32,
    pub sndbuf: i32,
    pub rcvbuf: i32,
    pub errno: i32,
}

} // verus!
