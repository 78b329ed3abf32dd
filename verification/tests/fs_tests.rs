use safeposix::unix_net::NetMetadata;
use safeposix::cage::Cage;
use safeposix::errno::{
    EACCES, EAGAIN, EBADF, EEXIST, EINVAL, EISDIR, ENOENT, ENOTEMPTY, EPERM, ESPIPE,
};
use safeposix::fd_calls::{ClippedDirent, PipeArray};
use safeposix::filesystem::{FilesystemMetadata, Inode};
use safeposix::fs_constants::{
    makedev, DevNo, StatData, F_GETFD, F_SETFD, F_GETFL, F_OK, LOCK_EX, LOCK_NB, LOCK_SH, LOCK_UN,
    MAP_ANONYMOUS, MAP_PRIVATE, MAP_SHARED, O_CLOEXEC, O_CREAT, O_EXCL, O_RDONLY, O_RDWR, O_TRUNC,
    O_WRONLY, PROT_READ, R_OK, SEEK_CUR, SEEK_END, SEEK_SET, S_IFBLK, S_IFCHR, S_IFDIR, S_IFREG, S_IRWXA,
};
use safeposix::fs_stat::FSData;

fn setup() -> (FilesystemMetadata, Cage) {
    let mut fs = FilesystemMetadata::blank_fs_init();
    let cage = Cage::new(&mut fs, 1);
    (fs, cage)
}

fn stat_of(cage: &Cage, fs: &FilesystemMetadata, path: &str) -> (i32, StatData) {
    let mut sb = StatData::zeroed();
    let r = cage.stat_syscall(fs, path, &mut sb);
    (r, sb)
}

#[test]
fn test_open_write_seek_read() {
    let (mut fs, mut cage) = setup();
    let fd = cage.open_syscall(&mut fs, "/foo", O_CREAT | O_RDWR, S_IRWXA);
    assert_eq!(fd, 3);
    assert_eq!(cage.write_syscall(&mut fs, fd, b"hello", 5), 5);
    assert_eq!(cage.lseek_syscall(&fs, fd, 0, SEEK_SET), 0);
    let mut buf = Vec::new();
    assert_eq!(cage.read_syscall(&mut fs, fd, &mut buf, 5), 5);
    assert_eq!(buf, b"hello".to_vec());
    assert_eq!(cage.read_syscall(&mut fs, fd, &mut buf, 5), 0);
    assert_eq!(cage.close_syscall(&mut fs, &mut NetMetadata::new(), fd), 0);
    assert_eq!(cage.read_syscall(&mut fs, fd, &mut buf, 5), -EBADF);
    assert_eq!(cage.close_syscall(&mut fs, &mut NetMetadata::new(), fd), -EBADF);
}

#[test]
fn test_open_errors() {
    let (mut fs, mut cage) = setup();
    assert_eq!(cage.open_syscall(&mut fs, "/missing", O_RDONLY, 0), -ENOENT);
    assert_eq!(cage.open_syscall(&mut fs, "", O_CREAT | O_RDWR, S_IRWXA), -ENOENT);
    let fd = cage.open_syscall(&mut fs, "/f", O_CREAT | O_RDWR, S_IRWXA);
    assert_eq!(fd, 3);
    assert_eq!(cage.open_syscall(&mut fs, "/f", O_CREAT | O_EXCL | O_RDWR, S_IRWXA), -EEXIST);
    assert_eq!(cage.open_syscall(&mut fs, "/nodir/f", O_CREAT | O_RDWR, S_IRWXA), -ENOENT);
    assert_eq!(cage.open_syscall(&mut fs, "/g", O_CREAT | O_RDWR | S_IFCHR, S_IRWXA), -EINVAL);
}

#[test]
fn test_open_truncate_and_creat() {
    let (mut fs, mut cage) = setup();
    let fd = cage.creat_syscall(&mut fs, "/t", S_IRWXA);
    assert_eq!(fd, 3);
    assert_eq!(cage.write_syscall(&mut fs, fd, b"abcdef", 6), 6);
    let fd2 = cage.open_syscall(&mut fs, "/t", O_RDWR | O_TRUNC, 0);
    assert_eq!(fd2, 4);
    let (r, sb) = stat_of(&cage, &fs, "/t");
    assert_eq!(r, 0);
    assert_eq!(sb.st_size, 0);
    // a descriptor opened write only cannot be read
    let mut buf = Vec::new();
    assert_eq!(cage.read_syscall(&mut fs, fd, &mut buf, 1), -EBADF);
}

#[test]
fn test_pwrite_pread_gap_is_zero() {
    let (mut fs, mut cage) = setup();
    let fd = cage.open_syscall(&mut fs, "/p", O_CREAT | O_RDWR, S_IRWXA);
    assert_eq!(cage.pwrite_syscall(&mut fs, fd, b"abc", 3, 2), 3);
    let mut buf = Vec::new();
    assert_eq!(cage.pread_syscall(&fs, fd, &mut buf, 10, 0), 5);
    assert_eq!(buf, vec![0u8, 0u8, b'a', b'b', b'c']);
    // the position did not move
    assert_eq!(cage.lseek_syscall(&fs, fd, 0, SEEK_CUR), 0);
    assert_eq!(cage.lseek_syscall(&fs, fd, 0, SEEK_END), 5);
    assert_eq!(cage.lseek_syscall(&fs, fd, -1, SEEK_SET), -EINVAL);
}

#[test]
fn test_lseek_on_pipe_is_espipe() {
    let (mut fs, mut cage) = setup();
    let mut pa = PipeArray { readfd: -1, writefd: -1 };
    assert_eq!(cage.pipe_syscall(&mut fs, &mut pa), 0);
    assert_eq!(cage.lseek_syscall(&fs, pa.readfd, 0, SEEK_SET), -ESPIPE);
}

#[test]
fn test_mkdir_rmdir() {
    let (mut fs, mut cage) = setup();
    assert_eq!(cage.mkdir_syscall(&mut fs, "/d", S_IRWXA), 0);
    assert_eq!(cage.mkdir_syscall(&mut fs, "/d", S_IRWXA), -EEXIST);
    assert_eq!(cage.mkdir_syscall(&mut fs, "/x/y", S_IRWXA), -ENOENT);
    let (r, sb) = stat_of(&cage, &fs, "/d");
    assert_eq!(r, 0);
    assert_eq!(sb.st_mode, (S_IFDIR as u32) | S_IRWXA);
    assert_eq!(cage.mkdir_syscall(&mut fs, "/d/e", S_IRWXA), 0);
    assert_eq!(cage.rmdir_syscall(&mut fs, "/d"), -ENOTEMPTY);
    assert_eq!(cage.rmdir_syscall(&mut fs, "/d/e"), 0);
    assert_eq!(cage.rmdir_syscall(&mut fs, "/d"), 0);
    let (r2, _) = stat_of(&cage, &fs, "/d");
    assert_eq!(r2, -ENOENT);
    let _ = cage.open_syscall(&mut fs, "/file", O_CREAT | O_RDWR, S_IRWXA);
}

#[test]
fn test_link_unlink() {
    let (mut fs, mut cage) = setup();
    let fd = cage.open_syscall(&mut fs, "/f", O_CREAT | O_RDWR, S_IRWXA);
    assert_eq!(cage.write_syscall(&mut fs, fd, b"data", 4), 4);
    assert_eq!(cage.link_syscall(&mut fs, "/f", "/g"), 0);
    assert_eq!(cage.link_syscall(&mut fs, "/f", "/g"), -EEXIST);
    let (_, sb) = stat_of(&cage, &fs, "/g");
    assert_eq!(sb.st_nlink, 2);
    assert_eq!(cage.unlink_syscall(&mut fs, &mut NetMetadata::new(), "/f"), 0);
    assert_eq!(cage.unlink_syscall(&mut fs, &mut NetMetadata::new(), "/f"), -ENOENT);
    let (r, sb2) = stat_of(&cage, &fs, "/g");
    assert_eq!(r, 0);
    assert_eq!(sb2.st_nlink, 1);
    assert_eq!(sb2.st_size, 4);
    assert_eq!(cage.mkdir_syscall(&mut fs, "/dir", S_IRWXA), 0);
    assert_eq!(cage.unlink_syscall(&mut fs, &mut NetMetadata::new(), "/dir"), -EISDIR);
}

#[test]
fn test_rename_moves_name() {
    let (mut fs, mut cage) = setup();
    let _ = cage.open_syscall(&mut fs, "/a", O_CREAT | O_RDWR, S_IRWXA);
    let (_, before) = stat_of(&cage, &fs, "/a");
    assert_eq!(cage.rename_syscall(&mut fs, &mut NetMetadata::new(), "/a", "/b"), 0);
    let (ra, _) = stat_of(&cage, &fs, "/a");
    assert_eq!(ra, -ENOENT);
    let (rb, after) = stat_of(&cage, &fs, "/b");
    assert_eq!(rb, 0);
    assert_eq!(after.st_ino, before.st_ino);
}

#[test]
fn test_chmod_keeps_file_type() {
    let (mut fs, mut cage) = setup();
    let fd = cage.open_syscall(&mut fs, "/m", O_CREAT | O_RDWR, S_IRWXA);
    assert_eq!(cage.chmod_syscall(&mut fs, "/m", 0o640), 0);
    let (_, sb) = stat_of(&cage, &fs, "/m");
    assert_eq!(sb.st_mode, (S_IFREG as u32) | 0o640);
    assert_eq!(cage.chmod_syscall(&mut fs, "/m", 0o1000), -EINVAL);
    assert_eq!(cage.fchmod_syscall(&mut fs, fd, 0o600), 0);
    let mut sb2 = StatData::zeroed();
    assert_eq!(cage.fstat_syscall(&fs, fd, &mut sb2), 0);
    assert_eq!(sb2.st_mode, (S_IFREG as u32) | 0o600);
    assert_eq!(cage.chmod_syscall(&mut fs, "/nothing", 0o600), -ENOENT);
}

#[test]
fn test_truncate_cuts_and_pads() {
    let (mut fs, mut cage) = setup();
    let fd = cage.open_syscall(&mut fs, "/t", O_CREAT | O_RDWR, S_IRWXA);
    assert_eq!(cage.write_syscall(&mut fs, fd, b"hello", 5), 5);
    assert_eq!(cage.truncate_syscall(&mut fs, "/t", 2), 0);
    assert_eq!(cage.ftruncate_syscall(&mut fs, fd, 4), 0);
    let mut buf = Vec::new();
    assert_eq!(cage.pread_syscall(&fs, fd, &mut buf, 10, 0), 4);
    assert_eq!(buf, vec![b'h', b'e', 0u8, 0u8]);
    assert_eq!(cage.truncate_syscall(&mut fs, "/t", -1), -EINVAL);
    assert_eq!(cage.mkdir_syscall(&mut fs, "/dd", S_IRWXA), 0);
    assert_eq!(cage.truncate_syscall(&mut fs, "/dd", 0), -EISDIR);
}

#[test]
fn test_access_and_statfs() {
    let (mut fs, mut cage) = setup();
    let _ = cage.open_syscall(&mut fs, "/f", O_CREAT | O_RDWR, S_IRWXA);
    assert_eq!(cage.access_syscall(&fs, "/f", F_OK), 0);
    assert_eq!(cage.access_syscall(&fs, "/f", R_OK), 0);
    assert_eq!(cage.access_syscall(&fs, "/none", F_OK), -ENOENT);
    let mut d = FSData {
        f_type: 0, f_bsize: 0, f_blocks: 0, f_bfree: 0, f_bavail: 0, f_files: 0, f_ffiles: 0,
        f_fsid: 0, f_namelen: 0, f_frsize: 0, f_spare: [1u8; 32],
    };
    assert_eq!(cage.statfs_syscall(&fs, "/", &mut d), 0);
    assert_eq!(d.f_bsize, 4096);
    assert_eq!(d.f_namelen, 254);
    assert_eq!(d.f_spare, [0u8; 32]);
    assert_eq!(cage.statfs_syscall(&fs, "/none", &mut d), -ENOENT);
}

#[test]
fn test_chdir_getcwd() {
    let (mut fs, mut cage) = setup();
    assert_eq!(cage.mkdir_syscall(&mut fs, "/d", S_IRWXA), 0);
    assert_eq!(cage.chdir_syscall(&fs, "/d"), 0);
    let mut buf = Vec::new();
    assert_eq!(cage.getcwd_syscall(&mut buf, 100), 0);
    assert_eq!(buf, b"/d\0".to_vec());
    assert_eq!(cage.getcwd_syscall(&mut buf, 2), -safeposix::errno::ERANGE);
    assert_eq!(cage.getcwd_syscall(&mut buf, 0), -EINVAL);
    // the bytes past the text and its zero byte stay as they were
    let mut big = vec![b'x'; 6];
    assert_eq!(cage.getcwd_syscall(&mut big, 6), 0);
    assert_eq!(big, b"/d\0xxx".to_vec());
    // relative paths resolve from the working directory
    assert_eq!(cage.mkdir_syscall(&mut fs, "e", S_IRWXA), 0);
    let (r, _) = stat_of(&cage, &fs, "/d/e");
    assert_eq!(r, 0);
    assert_eq!(cage.chdir_syscall(&fs, "/nope"), -ENOENT);
}

#[test]
fn test_dup_dup2_fcntl() {
    let (mut fs, mut cage) = setup();
    let fd = cage.open_syscall(&mut fs, "/f", O_CREAT | O_RDWR | O_CLOEXEC, S_IRWXA);
    assert_eq!(fd, 3);
    assert_eq!(cage.dup_syscall(&mut fs, fd, None), 4);
    assert_eq!(cage.dup_syscall(&mut fs, fd, Some(10)), 10);
    assert_eq!(cage.dup2_syscall(&mut fs, &mut NetMetadata::new(), fd, 20), 20);
    assert_eq!(cage.dup2_syscall(&mut fs, &mut NetMetadata::new(), fd, fd), fd);
    assert_eq!(cage.dup_syscall(&mut fs, 30, None), -EBADF);
    assert_eq!(cage.fcntl_syscall(&mut fs, fd, F_GETFD, 0), O_CLOEXEC);
    assert_eq!(cage.fcntl_syscall(&mut fs, 4, F_GETFD, 0), 0);
    assert_eq!(cage.fcntl_syscall(&mut fs, fd, F_SETFD, 0), 0);
    assert_eq!(cage.fcntl_syscall(&mut fs, fd, F_GETFD, 0), 0);
    assert_eq!(cage.fcntl_syscall(&mut fs, fd, F_GETFL, 0), O_RDWR);
}

#[test]
fn test_pipe_fifo_and_eof() {
    let (mut fs, mut cage) = setup();
    let mut pa = PipeArray { readfd: -1, writefd: -1 };
    assert_eq!(cage.pipe_syscall(&mut fs, &mut pa), 0);
    assert_eq!(pa.readfd, 3);
    assert_eq!(pa.writefd, 4);
    assert_eq!(cage.write_syscall(&mut fs, pa.writefd, b"xy", 2), 2);
    assert_eq!(cage.write_syscall(&mut fs, pa.writefd, b"z", 1), 1);
    let mut buf = Vec::new();
    assert_eq!(cage.read_syscall(&mut fs, pa.readfd, &mut buf, 10), 3);
    assert_eq!(buf, b"xyz".to_vec());
    assert_eq!(cage.read_syscall(&mut fs, pa.readfd, &mut buf, 10), -EAGAIN);
    assert_eq!(cage.write_syscall(&mut fs, pa.readfd, b"q", 1), -EBADF);
    assert_eq!(cage.close_syscall(&mut fs, &mut NetMetadata::new(), pa.writefd), 0);
    assert_eq!(cage.read_syscall(&mut fs, pa.readfd, &mut buf, 10), 0);
}

#[test]
fn test_pipe_write_without_reader_is_epipe() {
    let (mut fs, mut cage) = setup();
    let mut pa = PipeArray { readfd: -1, writefd: -1 };
    assert_eq!(cage.pipe2_syscall(&mut fs, &mut pa, O_CLOEXEC), 0);
    assert_eq!(cage.close_syscall(&mut fs, &mut NetMetadata::new(), pa.readfd), 0);
    assert_eq!(cage.write_syscall(&mut fs, pa.writefd, b"a", 1), -safeposix::errno::EPIPE);
}

#[test]
fn test_writev_to_pipe() {
    let (mut fs, mut cage) = setup();
    let mut pa = PipeArray { readfd: -1, writefd: -1 };
    assert_eq!(cage.pipe_syscall(&mut fs, &mut pa), 0);
    let iov = vec![b"ab".to_vec(), b"cd".to_vec(), b"ef".to_vec()];
    assert_eq!(cage.writev_syscall(&mut fs, pa.writefd, &iov, 2), 4);
    let mut buf = Vec::new();
    assert_eq!(cage.read_syscall(&mut fs, pa.readfd, &mut buf, 10), 4);
    assert_eq!(buf, b"abcd".to_vec());
    assert_eq!(cage.writev_syscall(&mut fs, 50, &iov, 1), -EBADF);
}

#[test]
fn test_getdents_lists_entries() {
    let (mut fs, mut cage) = setup();
    assert_eq!(cage.mkdir_syscall(&mut fs, "/d", S_IRWXA), 0);
    let _ = cage.open_syscall(&mut fs, "/d/file", O_CREAT | O_RDWR, S_IRWXA);
    let fd = cage.open_syscall(&mut fs, "/d", O_RDONLY, 0);
    let mut out: Vec<(ClippedDirent, Vec<u8>)> = Vec::new();
    let r = cage.getdents_syscall(&fs, fd, &mut out, 1000);
    assert_eq!(out.len(), 3);
    let total: usize = out.iter().map(|e| e.0.d_reclen as usize).sum();
    assert_eq!(r as usize, total);
    assert_eq!(&out[0].1[..2], b".\0");
    assert_eq!(&out[2].1[..5], b"file\0");
    for e in out.iter() {
        assert_eq!(e.0.d_reclen as usize % 8, 0);
    }
    // everything was read: the next call lists nothing
    let mut rest: Vec<(ClippedDirent, Vec<u8>)> = Vec::new();
    assert_eq!(cage.getdents_syscall(&fs, fd, &mut rest, 1000), 0);
    assert_eq!(rest.len(), 0);
    assert_eq!(cage.getdents_syscall(&fs, fd, &mut rest, 10), -EINVAL);
}

#[test]
fn test_flock_exclusive_then_shared() {
    let (mut fs, mut cage) = setup();
    let fd = cage.open_syscall(&mut fs, "/l", O_CREAT | O_RDWR, S_IRWXA);
    assert_eq!(cage.flock_syscall(&mut fs, fd, LOCK_EX), 0);
    assert_eq!(cage.flock_syscall(&mut fs, fd, LOCK_SH | LOCK_NB), -EAGAIN);
    assert_eq!(cage.flock_syscall(&mut fs, fd, LOCK_UN), 0);
    assert_eq!(cage.flock_syscall(&mut fs, fd, LOCK_SH), 0);
    assert_eq!(cage.flock_syscall(&mut fs, fd, LOCK_SH), 0);
    assert_eq!(cage.flock_syscall(&mut fs, fd, LOCK_EX | LOCK_NB), -EAGAIN);
}

#[test]
fn test_null_and_zero_devices() {
    let (mut fs, mut cage) = setup();
    let null = DevNo { major: 1, minor: 3 };
    let zero = DevNo { major: 1, minor: 5 };
    let urandom = DevNo { major: 1, minor: 9 };
    assert_eq!(cage.mknod_syscall(&mut fs, "/null", (S_IFCHR as u32) | 0o666, makedev(&null)), 0);
    assert_eq!(cage.mknod_syscall(&mut fs, "/zero", (S_IFCHR as u32) | 0o666, makedev(&zero)), 0);
    assert_eq!(cage.mknod_syscall(&mut fs, "/urandom", (S_IFCHR as u32) | 0o666, makedev(&urandom)), 0);
    assert_eq!(cage.mknod_syscall(&mut fs, "/plain", 0o666, 0), -EINVAL);
    assert_eq!(cage.mknod_syscall(&mut fs, "/blk", (S_IFBLK as u32) | 0o666, 0), -EINVAL);
    let n = cage.open_syscall(&mut fs, "/null", O_RDWR, 0);
    assert_eq!(cage.write_syscall(&mut fs, n, b"discard", 7), 7);
    let mut buf = vec![9u8];
    assert_eq!(cage.read_syscall(&mut fs, n, &mut buf, 4), 0);
    let z = cage.open_syscall(&mut fs, "/zero", O_RDONLY, 0);
    assert_eq!(cage.read_syscall(&mut fs, z, &mut buf, 4), 4);
    assert_eq!(buf, vec![0u8; 4]);
    let u = cage.open_syscall(&mut fs, "/urandom", O_RDONLY, 0);
    let mut rb = Vec::new();
    assert_eq!(cage.read_syscall(&mut fs, u, &mut rb, 64), 64);
    assert_eq!(rb.len(), 64);
    let (_, sb) = stat_of(&cage, &fs, "/zero");
    assert_eq!(sb.st_rdev, makedev(&zero));
}

#[test]
fn test_stdout_collects_output() {
    let (mut fs, mut cage) = setup();
    assert_eq!(cage.write_syscall(&mut fs, 1, b"hi ", 3), 3);
    assert_eq!(cage.write_syscall(&mut fs, 2, b"there", 5), 5);
    assert_eq!(fs.stream_output, b"hi there".to_vec());
    assert_eq!(cage.write_syscall(&mut fs, 0, b"x", 1), -EBADF);
}

#[test]
fn test_mmap_checks() {
    let (mut fs, mut cage) = setup();
    assert_eq!(cage.mmap_syscall(&fs, 0, 4096, PROT_READ, MAP_PRIVATE | MAP_ANONYMOUS, -1, 0), 0);
    assert_eq!(cage.mmap_syscall(&fs, 0, 0, PROT_READ, MAP_PRIVATE | MAP_ANONYMOUS, -1, 0), -EINVAL);
    assert_eq!(cage.mmap_syscall(&fs, 0, 10, PROT_READ, MAP_ANONYMOUS, -1, 0), -EINVAL);
    // the request is checked before the descriptor is looked at
    assert_eq!(cage.mmap_syscall(&fs, 0, 0, PROT_READ, MAP_PRIVATE, 5000, 0), -EINVAL);
    assert_eq!(cage.mmap_syscall(&fs, 0, 10, PROT_READ, 0, -3, 0), -EINVAL);
    assert_eq!(cage.mmap_syscall(&fs, 0, 10, PROT_READ, MAP_PRIVATE | MAP_SHARED, 5000, 0), -EINVAL);
    assert_eq!(cage.mmap_syscall(&fs, 0, 10, PROT_READ, MAP_PRIVATE | MAP_SHARED, -1, 0), -EINVAL);
    let w = cage.open_syscall(&mut fs, "/w", O_CREAT | O_WRONLY, S_IRWXA);
    assert_eq!(cage.mmap_syscall(&fs, 0, 10, PROT_READ, MAP_SHARED, w, 0), -EACCES);
    let r = cage.open_syscall(&mut fs, "/w", O_RDONLY, 0);
    assert_eq!(cage.mmap_syscall(&fs, 0, 10, PROT_READ, MAP_PRIVATE, r, 0), 0);
    assert_eq!(cage.mmap_syscall(&fs, 0, 10, PROT_READ, MAP_PRIVATE, r, 1), -safeposix::errno::ENXIO);
    assert_eq!(cage.mmap_syscall(&fs, 0, 10, PROT_READ, MAP_PRIVATE, 40, 0), -EBADF);
    assert_eq!(cage.munmap_syscall(0, 0), -EINVAL);
    assert_eq!(cage.munmap_syscall(4096, 4096), 0);
}

#[test]
fn test_fsync_calls() {
    let (mut fs, mut cage) = setup();
    let fd = cage.open_syscall(&mut fs, "/s", O_CREAT | O_RDWR, S_IRWXA);
    assert_eq!(cage.fsync_syscall(&fs, fd), 0);
    assert_eq!(cage.fdatasync_syscall(&fs, fd), 0);
    assert_eq!(cage.fsync_syscall(&fs, 99), -EBADF);
    assert_eq!(cage.fsync_syscall(&fs, 1), -EINVAL);
}

#[test]
fn test_rmdir_of_open_directory_waits_for_close() {
    let (mut fs, mut cage) = setup();
    assert_eq!(cage.mkdir_syscall(&mut fs, "/o", S_IRWXA), 0);
    let fd = cage.open_syscall(&mut fs, "/o", O_RDONLY, 0);
    assert!(fd >= 0);
    let (_, sb) = stat_of(&cage, &fs, "/o");
    let ino = sb.st_ino as usize;
    assert_eq!(cage.rmdir_syscall(&mut fs, "/o"), 0);
    assert_eq!(stat_of(&cage, &fs, "/o").0, -ENOENT);
    match &fs.inodetable[ino] {
        Some(Inode::Dir(d)) => assert_eq!(d.linkcount, 2),
        _ => panic!("the open directory stays until closed"),
    }
    assert_eq!(cage.close_syscall(&mut fs, &mut NetMetadata::new(), fd), 0);
    assert!(fs.inodetable[ino].is_none());
}

#[test]
fn test_unlink_in_read_only_directory_changes_nothing() {
    let (mut fs, mut cage) = setup();
    assert_eq!(cage.mkdir_syscall(&mut fs, "/ro", S_IRWXA), 0);
    let fd = cage.open_syscall(&mut fs, "/ro/f", O_CREAT | O_RDWR, S_IRWXA);
    assert!(fd >= 0);
    assert_eq!(cage.close_syscall(&mut fs, &mut NetMetadata::new(), fd), 0);
    assert_eq!(cage.chmod_syscall(&mut fs, "/ro", 0o555), 0);
    assert_eq!(cage.unlink_syscall(&mut fs, &mut NetMetadata::new(), "/ro/f"), -EPERM);
    let (r, sb) = stat_of(&cage, &fs, "/ro/f");
    assert_eq!(r, 0);
    assert_eq!(sb.st_nlink, 1);
    // the file is still there to open after the failed unlink
    let fd2 = cage.open_syscall(&mut fs, "/ro/f", O_RDONLY, 0);
    assert!(fd2 >= 0);
    assert_eq!(cage.close_syscall(&mut fs, &mut NetMetadata::new(), fd2), 0);
    let (r2, _) = stat_of(&cage, &fs, "/ro/f");
    assert_eq!(r2, 0);
}

fn times_of(fs: &FilesystemMetadata, n: usize) -> (u64, u64, u64) {
    match &fs.inodetable[n] {
        Some(Inode::File(f)) => (f.atime, f.ctime, f.mtime),
        Some(Inode::Dir(d)) => (d.atime, d.ctime, d.mtime),
        Some(Inode::CharDev(d)) => (d.atime, d.ctime, d.mtime),
        Some(Inode::Socket(s)) => (s.atime, s.ctime, s.mtime),
        None => panic!("no inode"),
    }
}

#[test]
fn test_times_of_new_entries() {
    let (mut fs, mut cage) = setup();
    assert_eq!(cage.mkdir_syscall(&mut fs, "/t", S_IRWXA), 0);
    let (_, sb) = stat_of(&cage, &fs, "/t");
    let d = times_of(&fs, sb.st_ino as usize);
    assert_eq!(d.0, d.1);
    assert_eq!(d.1, d.2);
    let root = times_of(&fs, 1);
    assert_eq!((root.1, root.2), (d.1, d.1));
    let fd = cage.open_syscall(&mut fs, "/t/f", O_CREAT | O_RDWR, S_IRWXA);
    let (_, fsb) = stat_of(&cage, &fs, "/t/f");
    let f = times_of(&fs, fsb.st_ino as usize);
    assert_eq!((f.0, f.1), (f.2, f.2));
    let dir = times_of(&fs, sb.st_ino as usize);
    assert_eq!((dir.1, dir.2), (f.1, f.1));
    // a write sets only the modification time
    assert_eq!(cage.write_syscall(&mut fs, fd, b"x", 1), 1);
    let f2 = times_of(&fs, fsb.st_ino as usize);
    assert_eq!((f2.0, f2.1), (f.0, f.1));
    assert!(f2.2 >= f.2);
    // unlink sets the directory's change and modification times to one moment
    assert_eq!(cage.unlink_syscall(&mut fs, &mut NetMetadata::new(), "/t/f"), 0);
    let dir2 = times_of(&fs, sb.st_ino as usize);
    assert_eq!(dir2.0, dir.0);
    assert_eq!(dir2.1, dir2.2);
    assert!(dir2.1 >= dir.1);
}
