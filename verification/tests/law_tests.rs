use safeposix::unix_net::NetMetadata;
use safeposix::cage::{Cage, EpollEvent};
use safeposix::errno::{EAGAIN, EINTR, ENOENT};
use safeposix::readiness::{wait_step, WaitStep};
use safeposix::sync::WaitTime;
use safeposix::fd_calls::PipeArray;
use safeposix::filesystem::FilesystemMetadata;
use safeposix::fs_constants::{
    devtuple, is_chr, is_dir, is_rdonly, is_reg, is_wronly, major, makedev, minor, DevNo, StatData,
    LOCK_EX, LOCK_NB, LOCK_SH, LOCK_UN, O_CREAT, O_RDONLY, O_RDWR, O_WRONLY, S_IFDIR, S_IFREG,
    S_IRWXA,
};
use safeposix::net::{AF_INET, EPOLLIN, EPOLL_CTL_ADD, EPOLL_CTL_DEL, SOCK_STREAM, SOL_SOCKET, SO_LINGER};
use safeposix::path::{normpath, path_to_bytes};
use safeposix::shm::{IpcPermStruct, ShmMetadata, ShmidsStruct, IPC_CREAT, IPC_STAT};

fn setup() -> (FilesystemMetadata, Cage) {
    let mut fs = FilesystemMetadata::blank_fs_init();
    let cage = Cage::new(&mut fs, 1);
    (fs, cage)
}

fn stat_of(cage: &Cage, fs: &FilesystemMetadata, path: &str) -> (i32, StatData) {
    let mut sb = StatData::zeroed();
    let r = cage.stat_syscall(fs, path, &mut sb);
    (r, sb)
}

#[test]
fn test_read_after_write_in_the_middle() {
    let (mut fs, mut cage) = setup();
    let fd = cage.open_syscall(&mut fs, "/f", O_CREAT | O_RDWR, S_IRWXA);
    assert_eq!(cage.write_syscall(&mut fs, fd, b"0123456789", 10), 10);
    assert_eq!(cage.pwrite_syscall(&mut fs, fd, b"abc", 3, 4), 3);
    let mut buf = Vec::new();
    assert_eq!(cage.pread_syscall(&fs, fd, &mut buf, 3, 4), 3);
    assert_eq!(buf, b"abc".to_vec());
    assert_eq!(cage.pread_syscall(&fs, fd, &mut buf, 10, 0), 10);
    assert_eq!(buf, b"0123abc789".to_vec());
}

#[test]
fn test_pipe_keeps_order() {
    let (mut fs, mut cage) = setup();
    let mut pa = PipeArray { readfd: -1, writefd: -1 };
    assert_eq!(cage.pipe_syscall(&mut fs, &mut pa), 0);
    assert_eq!(cage.write_syscall(&mut fs, pa.writefd, b"first ", 6), 6);
    assert_eq!(cage.write_syscall(&mut fs, pa.writefd, b"second", 6), 6);
    let mut a = Vec::new();
    assert_eq!(cage.read_syscall(&mut fs, pa.readfd, &mut a, 4), 4);
    assert_eq!(a, b"firs".to_vec());
    let mut b = Vec::new();
    assert_eq!(cage.read_syscall(&mut fs, pa.readfd, &mut b, 100), 8);
    assert_eq!(b, b"t second".to_vec());
    assert_eq!(cage.read_syscall(&mut fs, pa.readfd, &mut b, 100), -EAGAIN);
}

#[test]
fn test_chmod_keeps_directory_type() {
    let (mut fs, cage) = setup();
    assert_eq!(cage.mkdir_syscall(&mut fs, "/d", S_IRWXA), 0);
    assert_eq!(cage.chmod_syscall(&mut fs, "/d", 0o500), 0);
    let (_, sb) = stat_of(&cage, &fs, "/d");
    assert!(is_dir(sb.st_mode));
    assert_eq!(sb.st_mode & 0o777, 0o500);
}

#[test]
fn test_truncate_then_read() {
    let (mut fs, mut cage) = setup();
    let fd = cage.open_syscall(&mut fs, "/t", O_CREAT | O_RDWR, S_IRWXA);
    assert_eq!(cage.write_syscall(&mut fs, fd, b"xyz", 3), 3);
    assert_eq!(cage.ftruncate_syscall(&mut fs, fd, 6), 0);
    let mut buf = Vec::new();
    assert_eq!(cage.pread_syscall(&fs, fd, &mut buf, 6, 0), 6);
    assert_eq!(buf, vec![b'x', b'y', b'z', 0, 0, 0]);
}

#[test]
fn test_link_then_unlink_restores_count() {
    let (mut fs, mut cage) = setup();
    let _ = cage.open_syscall(&mut fs, "/f", O_CREAT | O_RDWR, S_IRWXA);
    let (_, before) = stat_of(&cage, &fs, "/f");
    assert_eq!(cage.link_syscall(&mut fs, "/f", "/g"), 0);
    assert_eq!(cage.unlink_syscall(&mut fs, &mut NetMetadata::new(), "/g"), 0);
    let (_, after) = stat_of(&cage, &fs, "/f");
    assert_eq!(before.st_nlink, after.st_nlink);
}

#[test]
fn test_rename_keeps_other_names() {
    let (mut fs, mut cage) = setup();
    let _ = cage.open_syscall(&mut fs, "/a", O_CREAT | O_RDWR, S_IRWXA);
    let _ = cage.open_syscall(&mut fs, "/c", O_CREAT | O_RDWR, S_IRWXA);
    let (_, c_before) = stat_of(&cage, &fs, "/c");
    assert_eq!(cage.rename_syscall(&mut fs, &mut NetMetadata::new(), "/a", "/b"), 0);
    let (rc, c_after) = stat_of(&cage, &fs, "/c");
    assert_eq!(rc, 0);
    assert_eq!(c_before.st_ino, c_after.st_ino);
    assert_eq!(stat_of(&cage, &fs, "/a").0, -ENOENT);
}

#[test]
fn test_mkdir_then_stat_finds_directory() {
    let (mut fs, cage) = setup();
    assert_eq!(cage.mkdir_syscall(&mut fs, "/new", 0o755), 0);
    let (r, sb) = stat_of(&cage, &fs, "/new");
    assert_eq!(r, 0);
    assert_eq!(sb.st_mode, (S_IFDIR as u32) | 0o755);
    assert_eq!(cage.mkdir_syscall(&mut fs, "/new/inner", 0o700), 0);
    assert_eq!(stat_of(&cage, &fs, "/new/inner").0, 0);
}

#[test]
fn test_create_then_stat_finds_empty_file() {
    let (mut fs, mut cage) = setup();
    let fd = cage.open_syscall(&mut fs, "/made", O_CREAT | O_WRONLY, 0o644);
    assert_eq!(fd, 3);
    let (r, sb) = stat_of(&cage, &fs, "/made");
    assert_eq!(r, 0);
    assert!(is_reg(sb.st_mode));
    assert_eq!(sb.st_mode, (S_IFREG as u32) | 0o644);
    assert_eq!(sb.st_size, 0);
}

#[test]
fn test_flock_exclusive_shuts_out_then_frees() {
    let (mut fs, mut cage) = setup();
    let fd = cage.open_syscall(&mut fs, "/l", O_CREAT | O_RDWR, S_IRWXA);
    assert_eq!(cage.flock_syscall(&mut fs, fd, LOCK_EX), 0);
    assert_eq!(cage.flock_syscall(&mut fs, fd, LOCK_EX | LOCK_NB), -EAGAIN);
    assert_eq!(cage.flock_syscall(&mut fs, fd, LOCK_UN), 0);
    assert_eq!(cage.flock_syscall(&mut fs, fd, LOCK_EX), 0);
    assert_eq!(cage.flock_syscall(&mut fs, fd, LOCK_UN), 0);
    assert_eq!(cage.flock_syscall(&mut fs, fd, LOCK_SH), 0);
}

#[test]
fn test_sem_post_then_wait_restores() {
    let (_fs, mut cage) = setup();
    let mut shm = ShmMetadata::new();
    assert_eq!(cage.sem_init_syscall(&mut shm, 1, 0, 3), 0);
    assert_eq!(cage.sem_post_syscall(&mut shm, 1), 0);
    assert_eq!(cage.sem_wait_syscall(&mut shm, 1), 0);
    assert_eq!(cage.sem_getvalue_syscall(&shm, 1), 3);
}

#[test]
fn test_mutex_create_destroy() {
    let (_fs, mut cage) = setup();
    let h = cage.mutex_create_syscall();
    assert_eq!(cage.mutex_lock_syscall(h), 0);
    assert_eq!(cage.mutex_destroy_syscall(h), 0);
    assert!(cage.mutex_lock_syscall(h) < 0);
}

#[test]
fn test_shmget_twice_same_id() {
    let (_fs, cage) = setup();
    let mut shm = ShmMetadata::new();
    let a = cage.shmget_syscall(&mut shm, 77, 128, IPC_CREAT);
    let b = cage.shmget_syscall(&mut shm, 77, 128, IPC_CREAT);
    assert_eq!(a, b);
    assert_eq!(shm.shmtable.len(), 1);
}

#[test]
fn test_shm_attach_then_detach_restores() {
    let (_fs, mut cage) = setup();
    let mut shm = ShmMetadata::new();
    let id = cage.shmget_syscall(&mut shm, 1, 64, IPC_CREAT);
    let before = shm.attached.len();
    assert_eq!(cage.shmat_syscall(&mut shm, id, 0x9000, 0), 0x9000);
    assert_eq!(cage.shmdt_syscall(&mut shm, 0x9000), id);
    let mut info = ShmidsStruct {
        shm_perm: IpcPermStruct { key: 0, uid: 0, gid: 0, cuid: 0, cgid: 0, mode: 0 },
        shm_segsz: 0, shm_cpid: 0, shm_lpid: 0, shm_nattch: 9,
    };
    assert_eq!(cage.shmctl_syscall(&mut shm, id, IPC_STAT, &mut info), 0);
    assert_eq!(info.shm_nattch, 0);
    assert_eq!(shm.attached.len(), before);
    assert!(cage.rev_shm.is_empty());
}

#[test]
fn test_sockopt_roundtrip_linger() {
    let (mut fs, mut cage) = setup();
    let fd = cage.socket_syscall(&mut fs, AF_INET, SOCK_STREAM, 0);
    let mut v = 0;
    assert_eq!(cage.setsockopt_syscall(&mut fs, fd, SOL_SOCKET, SO_LINGER, 5, 0), 0);
    assert_eq!(cage.getsockopt_syscall(&mut fs, fd, SOL_SOCKET, SO_LINGER, &mut v), 0);
    assert_eq!(v, 1);
}

#[test]
fn test_sigmask_block_then_unblock() {
    let (_fs, mut cage) = setup();
    let mut old = 0u64;
    cage.sigset = 0b0001;
    assert_eq!(cage.sigprocmask_syscall(safeposix::sys_calls::SIG_BLOCK, Some(0b0110), &mut old), 0);
    assert_eq!(cage.sigprocmask_syscall(safeposix::sys_calls::SIG_UNBLOCK, Some(0b0110), &mut old), 0);
    assert_eq!(cage.sigset, 0b0001);
}

#[test]
fn test_epoll_add_then_del() {
    let (mut fs, mut cage) = setup();
    let ep = cage.epoll_create_syscall(&mut fs, 4);
    let ev = EpollEvent { events: EPOLLIN as u32, fd: 1 };
    assert_eq!(cage.epoll_ctl_syscall(ep, EPOLL_CTL_ADD, 1, ev), 0);
    assert_eq!(cage.epoll_ctl_syscall(ep, EPOLL_CTL_DEL, 1, ev), 0);
    assert!(cage.epoll_table[0].is_empty());
}

#[test]
fn test_devtuple_undoes_makedev() {
    let d = DevNo { major: 0x12345, minor: 0xabcdef };
    let packed = makedev(&d);
    assert_eq!(major(packed), 0x12345);
    assert_eq!(minor(packed), 0xabcdef);
    let t = devtuple(packed);
    assert_eq!(t, d);
    assert_eq!(makedev(&DevNo { major: 1, minor: 3 }), 0x103);
}

#[test]
fn test_mode_and_flag_predicates() {
    assert!(is_reg(0o100644));
    assert!(!is_reg(0o040755));
    assert!(is_dir(0o040755));
    assert!(is_chr(0o020666));
    assert!(is_rdonly(O_RDONLY));
    assert!(!is_rdonly(O_RDWR));
    assert!(is_wronly(O_WRONLY));
    assert!(!is_wronly(O_RDWR));
}

#[test]
fn test_normpath_resolves_dots() {
    let cwd = vec![b"home".to_vec(), b"user".to_vec()];
    let p = normpath(&cwd, b"../other/./x//y/..");
    assert_eq!(p, vec![b"home".to_vec(), b"other".to_vec(), b"x".to_vec()]);
    assert_eq!(path_to_bytes(&p), b"/home/other/x".to_vec());
    let root = normpath(&cwd, b"/../..");
    assert!(root.is_empty());
    assert_eq!(path_to_bytes(&root), b"/".to_vec());
    // normalizing a normalized path changes nothing
    assert_eq!(normpath(&cwd, &path_to_bytes(&p)), p);
}

fn socket_pair(fs: &mut FilesystemMetadata, net: &mut safeposix::unix_net::NetMetadata, cage: &mut Cage) -> (i32, i32) {
    let mut sv = safeposix::unix_net::SockPair { sock1: -1, sock2: -1 };
    assert_eq!(cage.socketpair_syscall(fs, net, safeposix::net::AF_UNIX, SOCK_STREAM, 0, &mut sv), 0);
    (sv.sock1, sv.sock2)
}

#[test]
fn test_socket_send_then_recv_gives_bytes() {
    let (mut fs, mut cage) = setup();
    let mut net = safeposix::unix_net::NetMetadata::new();
    let (a, b) = socket_pair(&mut fs, &mut net, &mut cage);
    assert_eq!(cage.send_syscall(&mut fs, a, b"law", 3, 0), 3);
    let mut buf = Vec::new();
    assert_eq!(cage.recv_syscall(&mut fs, b, &mut buf, 3, 0), 3);
    assert_eq!(buf, b"law".to_vec());
}

#[test]
fn test_peek_then_recv_same_bytes() {
    let (mut fs, mut cage) = setup();
    let mut net = safeposix::unix_net::NetMetadata::new();
    let (a, b) = socket_pair(&mut fs, &mut net, &mut cage);
    assert_eq!(cage.send_syscall(&mut fs, a, b"12345", 5, 0), 5);
    let mut peeked = Vec::new();
    assert_eq!(cage.recv_syscall(&mut fs, b, &mut peeked, 8, safeposix::sock_io::MSG_PEEK), 5);
    let mut got = Vec::new();
    assert_eq!(cage.recv_syscall(&mut fs, b, &mut got, 8, 0), 5);
    assert_eq!(peeked, got);
}

#[test]
fn test_connect_then_accept_crosses_pipes() {
    let (mut fs, mut cage) = setup();
    let mut net = safeposix::unix_net::NetMetadata::new();
    let u = safeposix::net::AF_UNIX;
    let addr = safeposix::unix_net::new_sockaddr_unix(u as u16, &b"/law".to_vec());
    let srv = cage.socket_syscall(&mut fs, u, SOCK_STREAM, 0);
    assert_eq!(cage.bind_syscall(&mut fs, &mut net, srv, &addr), 0);
    assert_eq!(cage.listen_syscall(&mut fs, srv, 1), 0);
    let cli = cage.socket_syscall(&mut fs, u, SOCK_STREAM, 0);
    let own = safeposix::unix_net::new_sockaddr_unix(u as u16, &b"/me".to_vec());
    assert_eq!(cage.bind_syscall(&mut fs, &mut net, cli, &own), 0);
    assert_eq!(cage.connect_syscall(&mut fs, &mut net, cli, &addr), 0);
    let mut peer = addr;
    let acc = cage.accept_syscall(&mut fs, &mut net, srv, &mut peer);
    assert!(acc > 0);
    assert_eq!(peer.path[..3].to_vec(), b"/me".to_vec());
    let mut buf = Vec::new();
    assert_eq!(cage.send_syscall(&mut fs, cli, b"there", 5, 0), 5);
    assert_eq!(cage.recv_syscall(&mut fs, acc, &mut buf, 5, 0), 5);
    assert_eq!(buf, b"there".to_vec());
    assert_eq!(cage.send_syscall(&mut fs, acc, b"back", 4, 0), 4);
    assert_eq!(cage.recv_syscall(&mut fs, cli, &mut buf, 4, 0), 4);
    assert_eq!(buf, b"back".to_vec());
}

#[test]
fn test_readable_exactly_when_read_proceeds() {
    let (mut fs, mut cage) = setup();
    let net = safeposix::unix_net::NetMetadata::new();
    let mut pa = PipeArray { readfd: -1, writefd: -1 };
    assert_eq!(cage.pipe_syscall(&mut fs, &mut pa), 0);
    let ready = |cage: &Cage, fs: &mut FilesystemMetadata| {
        let mut s = safeposix::readiness::FdSet::new();
        s.set(pa.readfd);
        let mut o = Some(s);
        cage.select_syscall(fs, &net, &Vec::new(), pa.readfd + 1, &mut o, &mut None, &None)
    };
    let mut buf = Vec::new();
    assert_eq!(ready(&cage, &mut fs), 0);
    assert_eq!(cage.read_syscall(&mut fs, pa.readfd, &mut buf, 4), -EAGAIN);
    assert_eq!(cage.write_syscall(&mut fs, pa.writefd, b"ab", 2), 2);
    assert_eq!(ready(&cage, &mut fs), 1);
    assert_eq!(cage.read_syscall(&mut fs, pa.readfd, &mut buf, 4), 2);
    assert_eq!(cage.close_syscall(&mut fs, &mut NetMetadata::new(), pa.writefd), 0);
    assert_eq!(ready(&cage, &mut fs), 1);
    assert_eq!(cage.read_syscall(&mut fs, pa.readfd, &mut buf, 4), 0);
}

#[test]
fn test_writable_exactly_when_write_proceeds() {
    let (mut fs, mut cage) = setup();
    let net = safeposix::unix_net::NetMetadata::new();
    let mut pa = PipeArray { readfd: -1, writefd: -1 };
    assert_eq!(cage.pipe_syscall(&mut fs, &mut pa), 0);
    let big = vec![7u8; 65536];
    assert_eq!(cage.write_syscall(&mut fs, pa.writefd, &big, 65536), 65536);
    let mut s = safeposix::readiness::FdSet::new();
    s.set(pa.writefd);
    let mut o = Some(s);
    assert_eq!(cage.select_syscall(&mut fs, &net, &Vec::new(), pa.writefd + 1, &mut None, &mut o, &None), 0);
    assert_eq!(cage.write_syscall(&mut fs, pa.writefd, b"x", 1), -EAGAIN);
    let mut buf = Vec::new();
    assert_eq!(cage.read_syscall(&mut fs, pa.readfd, &mut buf, 1), 1);
    let mut s = safeposix::readiness::FdSet::new();
    s.set(pa.writefd);
    let mut o = Some(s);
    assert_eq!(cage.select_syscall(&mut fs, &net, &Vec::new(), pa.writefd + 1, &mut None, &mut o, &None), 1);
    assert_eq!(cage.write_syscall(&mut fs, pa.writefd, b"x", 1), 1);
}

#[test]
fn test_fstat_agrees_with_stat() {
    let (mut fs, mut cage) = setup();
    let fd = cage.open_syscall(&mut fs, "/same", O_CREAT | O_RDWR, S_IRWXA);
    assert_eq!(cage.write_syscall(&mut fs, fd, b"12345", 5), 5);
    let mut a = StatData::zeroed();
    let mut b = StatData::zeroed();
    assert_eq!(cage.fstat_syscall(&fs, fd, &mut a), 0);
    assert_eq!(cage.stat_syscall(&fs, "/same", &mut b), 0);
    assert_eq!((a.st_dev, a.st_ino, a.st_mode, a.st_nlink, a.st_uid, a.st_gid, a.st_rdev, a.st_size),
        (b.st_dev, b.st_ino, b.st_mode, b.st_nlink, b.st_uid, b.st_gid, b.st_rdev, b.st_size));
    assert_eq!(a.st_size, 5);
}

#[test]
fn test_wait_step_decides_the_next_pass() {
    let zero = WaitTime { secs: 0, nanos: 0 };
    let later = WaitTime { secs: 2, nanos: 0 };
    let limit = Some(WaitTime { secs: 1, nanos: 500 });
    assert_eq!(wait_step(3, zero, limit, true), WaitStep::Done(3));
    assert_eq!(wait_step(-9, zero, None, false), WaitStep::Done(-9));
    assert_eq!(wait_step(0, later, limit, true), WaitStep::Done(0));
    assert_eq!(wait_step(0, zero, limit, true), WaitStep::Done(-EINTR));
    assert_eq!(wait_step(0, zero, limit, false), WaitStep::Again);
    assert_eq!(wait_step(0, later, None, false), WaitStep::Again);
}
