use safeposix::unix_net::NetMetadata;
use safeposix::cage::{Cage, FileDescriptor, ITimerVal, SigactionStruct, TimeVal};
use safeposix::errno::{EBADF, EINVAL, ESRCH};
use safeposix::filesystem::FilesystemMetadata;
use safeposix::fs_constants::{O_CLOEXEC, O_CREAT, O_RDWR, S_IRWXA, STARTINGFD};
use safeposix::shm::ShmMetadata;
use safeposix::sys_calls::{
    Rlimit, ITIMER_REAL, RLIMIT_NOFILE, RLIMIT_STACK, SIGKILL, SIGSTOP, SIG_BLOCK, SIG_SETMASK,
    SIG_UNBLOCK,
};

fn setup() -> (FilesystemMetadata, Cage) {
    let mut fs = FilesystemMetadata::blank_fs_init();
    let cage = Cage::new(&mut fs, 1);
    (fs, cage)
}

#[test]
fn test_new_cage_has_standard_streams() {
    let (_fs, cage) = setup();
    assert_eq!(cage.filedescriptortable.len(), 1024);
    for i in 0..3 {
        match cage.filedescriptortable[i] {
            Some(FileDescriptor::Stream(s)) => assert_eq!(s.stream, i as i32),
            _ => panic!("stream expected"),
        }
    }
    assert!(cage.filedescriptortable[3].is_none());
    assert_eq!(cage.get_next_fd(STARTINGFD), Some(3));
}

#[test]
fn test_pids() {
    let (_fs, cage) = setup();
    assert_eq!(cage.getpid_syscall(), 1);
    assert_eq!(cage.getppid_syscall(), 1);
}

#[test]
fn test_ids_first_call_is_minus_one() {
    let (_fs, mut cage) = setup();
    assert_eq!(cage.getgid_syscall(), -1);
    assert_eq!(cage.getgid_syscall(), 1000);
    assert_eq!(cage.getegid_syscall(), -1);
    assert_eq!(cage.getegid_syscall(), 1000);
    assert_eq!(cage.getuid_syscall(), -1);
    assert_eq!(cage.getuid_syscall(), 1000);
    assert_eq!(cage.geteuid_syscall(), -1);
    assert_eq!(cage.geteuid_syscall(), 1000);
}

#[test]
fn test_sigaction_installs_and_reports() {
    let (_fs, mut cage) = setup();
    let act = SigactionStruct { sa_handler: 77, sa_mask: 3, sa_flags: 1 };
    let mut oact = SigactionStruct { sa_handler: 5, sa_mask: 5, sa_flags: 5 };
    assert_eq!(cage.sigaction_syscall(10, Some(act), &mut oact), 0);
    assert_eq!(oact.sa_handler, 0);
    assert_eq!(oact.sa_mask, 0);
    assert_eq!(cage.sigaction_syscall(10, None, &mut oact), 0);
    assert_eq!(oact.sa_handler, 77);
    assert_eq!(oact.sa_mask, 3);
    assert_eq!(cage.sigaction_syscall(SIGKILL, Some(act), &mut oact), -EINVAL);
    assert_eq!(cage.sigaction_syscall(SIGSTOP, Some(act), &mut oact), -EINVAL);
    let act2 = SigactionStruct { sa_handler: 88, sa_mask: 0, sa_flags: 0 };
    assert_eq!(cage.sigaction_syscall(10, Some(act2), &mut oact), 0);
    assert_eq!(oact.sa_handler, 77);
    assert_eq!(cage.signalhandler.len(), 1);
}

#[test]
fn test_kill_checks_target() {
    let (_fs, cage) = setup();
    let live = vec![1u64, 4u64];
    assert_eq!(cage.kill_syscall(&live, -1, 9), -EINVAL);
    assert_eq!(cage.kill_syscall(&live, 1024, 9), -EINVAL);
    assert_eq!(cage.kill_syscall(&live, 4, 9), 0);
    assert_eq!(cage.kill_syscall(&live, 2, 9), -ESRCH);
}

#[test]
fn test_sigprocmask() {
    let (_fs, mut cage) = setup();
    let mut old = 99u64;
    assert_eq!(cage.sigprocmask_syscall(SIG_BLOCK, Some(0b1010), &mut old), 0);
    assert_eq!(old, 0);
    assert_eq!(cage.sigset, 0b1010);
    assert_eq!(cage.sigprocmask_syscall(SIG_UNBLOCK, Some(0b0010), &mut old), 0);
    assert_eq!(old, 0b1010);
    assert_eq!(cage.sigset, 0b1000);
    assert_eq!(cage.sigprocmask_syscall(SIG_SETMASK, Some(0b1), &mut old), 0);
    assert_eq!(cage.sigset, 0b1);
    assert_eq!(cage.sigprocmask_syscall(7, Some(0b111), &mut old), -EINVAL);
    assert_eq!(cage.sigset, 0b1);
    assert_eq!(cage.sigprocmask_syscall(7, None, &mut old), 0);
}

#[test]
fn test_sigprocmask_unblock_releases_pending() {
    let (_fs, mut cage) = setup();
    let mut old = 0u64;
    cage.sigset = 0b110;
    cage.pendingsigset = 0b111;
    assert_eq!(cage.sigprocmask_syscall(SIG_UNBLOCK, Some(0b010), &mut old), 0);
    assert_eq!(cage.pendingsigset, 0b101);
    assert_eq!(cage.sigset, 0b100);
}

#[test]
fn test_setitimer_stores_and_reports() {
    let (_fs, mut cage) = setup();
    let mut old = ITimerVal { it_interval: TimeVal { tv_sec: 9, tv_usec: 9 }, it_value: TimeVal { tv_sec: 9, tv_usec: 9 } };
    let newv = ITimerVal {
        it_interval: TimeVal { tv_sec: 1, tv_usec: 2_000_000 },
        it_value: TimeVal { tv_sec: 5, tv_usec: 250_000_000 },
    };
    assert_eq!(cage.setitimer_syscall(ITIMER_REAL, Some(newv), &mut old), 0);
    assert_eq!(old.it_value.tv_sec, 0);
    assert_eq!(old.it_interval.tv_usec, 0);
    assert_eq!(cage.setitimer_syscall(ITIMER_REAL, None, &mut old), 0);
    assert_eq!(old.it_value.tv_sec, 5);
    assert_eq!(old.it_value.tv_usec, 250);
    assert_eq!(old.it_interval.tv_sec, 1);
    assert_eq!(old.it_interval.tv_usec, 2);
    // other timers are not kept
    let mut other = old;
    assert_eq!(cage.setitimer_syscall(1, Some(newv), &mut other), 0);
    assert_eq!(other.it_value.tv_sec, old.it_value.tv_sec);
}

#[test]
fn test_rlimits() {
    let (_fs, cage) = setup();
    let mut rl = Rlimit { rlim_cur: 0, rlim_max: 0 };
    assert_eq!(cage.getrlimit(RLIMIT_NOFILE, &mut rl), 0);
    assert_eq!(rl.rlim_cur, 1024);
    assert_eq!(rl.rlim_max, 4096);
    assert_eq!(cage.getrlimit(RLIMIT_STACK, &mut rl), 0);
    assert_eq!(rl.rlim_cur, 8192 * 1024);
    assert_eq!(rl.rlim_max, 1u64 << 32);
    assert_eq!(cage.getrlimit(5, &mut rl), -1);
    assert_eq!(rl.rlim_cur, 8192 * 1024);
    assert_eq!(cage.setrlimit(RLIMIT_NOFILE, 5), 0);
    assert_eq!(cage.setrlimit(RLIMIT_STACK, 5), -1);
}

#[test]
fn test_fork_copies_descriptors_and_counts_refs() {
    let (mut fs, mut cage) = setup();
    let mut shm = ShmMetadata::new();
    let fd = cage.open_syscall(&mut fs, "/f", O_CREAT | O_RDWR, S_IRWXA);
    assert_eq!(cage.write_syscall(&mut fs, fd, b"abc", 3), 3);
    let mut child = cage.fork_syscall(&mut fs, &mut shm, 2);
    assert_eq!(child.getpid_syscall(), 2);
    assert_eq!(child.getppid_syscall(), 1);
    assert!(child.filedescriptortable[fd as usize].is_some());
    // the parent closing its descriptor leaves the child's working
    assert_eq!(cage.close_syscall(&mut fs, &mut NetMetadata::new(), fd), 0);
    let mut buf = Vec::new();
    assert_eq!(child.pread_syscall(&fs, fd, &mut buf, 3, 0), 3);
    assert_eq!(buf, b"abc".to_vec());
    assert_eq!(child.close_syscall(&mut fs, &mut NetMetadata::new(), fd), 0);
}

#[test]
fn test_exec_closes_cloexec() {
    let (mut fs, mut cage) = setup();
    let mut shm = ShmMetadata::new();
    let keep = cage.open_syscall(&mut fs, "/k", O_CREAT | O_RDWR, S_IRWXA);
    let gone = cage.open_syscall(&mut fs, "/g", O_CREAT | O_RDWR | O_CLOEXEC, S_IRWXA);
    let _ = cage.getgid_syscall();
    let newcage = cage.exec_syscall(&mut fs, &mut shm, &mut NetMetadata::new(), 7);
    assert_eq!(newcage.cageid, 7);
    assert!(newcage.filedescriptortable[keep as usize].is_some());
    assert!(newcage.filedescriptortable[gone as usize].is_none());
    assert_eq!(newcage.getgid, -1);
}

#[test]
fn test_exit_closes_everything() {
    let (mut fs, mut cage) = setup();
    let mut shm = ShmMetadata::new();
    let fd = cage.open_syscall(&mut fs, "/f", O_CREAT | O_RDWR, S_IRWXA);
    assert_eq!(cage.exit_syscall(&mut fs, &mut shm, &mut NetMetadata::new(), 3), 3);
    assert!(cage.filedescriptortable.iter().all(|d| d.is_none()));
    let mut buf = Vec::new();
    assert_eq!(cage.read_syscall(&mut fs, fd, &mut buf, 1), -EBADF);
}
