use safeposix::cage::Cage;
use safeposix::errno::{EAGAIN, EBADF, EINVAL, EOVERFLOW, ETIMEDOUT};
use safeposix::filesystem::FilesystemMetadata;
use safeposix::shm::{ShmMetadata, IPC_CREAT};
use safeposix::sync::{WaitTime, SEM_VALUE_MAX};

fn setup() -> Cage {
    let mut fs = FilesystemMetadata::blank_fs_init();
    Cage::new(&mut fs, 1)
}

#[test]
fn test_mutex_slots_are_reused() {
    let mut cage = setup();
    assert_eq!(cage.mutex_create_syscall(), 0);
    assert_eq!(cage.mutex_create_syscall(), 1);
    assert_eq!(cage.mutex_create_syscall(), 2);
    assert_eq!(cage.mutex_destroy_syscall(1), 0);
    assert_eq!(cage.mutex_destroy_syscall(1), -EBADF);
    assert_eq!(cage.mutex_lock_syscall(1), -EBADF);
    assert_eq!(cage.mutex_create_syscall(), 1);
    assert_eq!(cage.mutex_lock_syscall(1), 0);
    assert_eq!(cage.mutex_trylock_syscall(2), 0);
    assert_eq!(cage.mutex_unlock_syscall(0), 0);
    assert_eq!(cage.mutex_unlock_syscall(-1), -EBADF);
    assert_eq!(cage.mutex_trylock_syscall(3), -EBADF);
    assert_eq!(cage.mutex_table.len(), 3);
}

#[test]
fn test_condvar_handles() {
    let mut cage = setup();
    let m = cage.mutex_create_syscall();
    let cv = cage.cond_create_syscall();
    assert_eq!(cv, 0);
    assert_eq!(cage.cond_signal_syscall(cv), 0);
    assert_eq!(cage.cond_broadcast_syscall(cv), 0);
    assert_eq!(cage.cond_wait_syscall(cv, m), 0);
    assert_eq!(cage.cond_wait_syscall(cv, 5), -EBADF);
    assert_eq!(cage.cond_wait_syscall(5, m), -EBADF);
    assert_eq!(cage.cond_timedwait_syscall(cv, m, WaitTime { secs: 1, nanos: 0 }), 0);
    assert_eq!(cage.cond_destroy_syscall(cv), 0);
    assert_eq!(cage.cond_signal_syscall(cv), -EBADF);
    assert_eq!(cage.cond_destroy_syscall(cv), -EBADF);
}

#[test]
fn test_semaphore_counts() {
    let mut cage = setup();
    let mut shm = ShmMetadata::new();
    assert_eq!(cage.sem_init_syscall(&mut shm, 100, 0, 2), 0);
    assert_eq!(cage.sem_init_syscall(&mut shm, 100, 0, 2), -EBADF);
    assert_eq!(cage.sem_init_syscall(&mut shm, 101, 0, SEM_VALUE_MAX + 1), -EINVAL);
    assert_eq!(cage.sem_getvalue_syscall(&shm, 100), 2);
    assert_eq!(cage.sem_wait_syscall(&mut shm, 100), 0);
    assert_eq!(cage.sem_trywait_syscall(&mut shm, 100), 0);
    assert_eq!(cage.sem_getvalue_syscall(&shm, 100), 0);
    assert_eq!(cage.sem_trywait_syscall(&mut shm, 100), -EAGAIN);
    assert_eq!(cage.sem_wait_syscall(&mut shm, 100), -EAGAIN);
    assert_eq!(cage.sem_timedwait_syscall(&mut shm, 100, WaitTime { secs: 0, nanos: 0 }), -ETIMEDOUT);
    assert_eq!(cage.sem_timedwait_syscall(&mut shm, 100, WaitTime { secs: 0, nanos: 5 }), -EAGAIN);
    assert_eq!(cage.sem_post_syscall(&mut shm, 100), 0);
    assert_eq!(cage.sem_timedwait_syscall(&mut shm, 100, WaitTime { secs: 0, nanos: 0 }), 0);
    assert_eq!(cage.sem_destroy_syscall(&mut shm, 100), 0);
    assert_eq!(cage.sem_destroy_syscall(&mut shm, 100), -EINVAL);
    assert_eq!(cage.sem_getvalue_syscall(&shm, 100), -EINVAL);
    assert_eq!(cage.sem_post_syscall(&mut shm, 100), -EINVAL);
    assert_eq!(cage.sem_wait_syscall(&mut shm, 100), -EINVAL);
}

#[test]
fn test_semaphore_post_overflow() {
    let mut cage = setup();
    let mut shm = ShmMetadata::new();
    assert_eq!(cage.sem_init_syscall(&mut shm, 7, 1, SEM_VALUE_MAX), 0);
    assert_eq!(cage.sem_post_syscall(&mut shm, 7), -EOVERFLOW);
    assert_eq!(cage.sem_getvalue_syscall(&shm, 7), SEM_VALUE_MAX as i32);
    assert!(cage.sem_table[0].1.is_shared);
}

#[test]
fn test_shared_semaphore_is_seen_by_every_attached_cage() {
    let mut fs = FilesystemMetadata::blank_fs_init();
    let mut shm = ShmMetadata::new();
    let mut a = Cage::new(&mut fs, 1);
    let mut b = Cage::new(&mut fs, 2);
    let id = a.shmget_syscall(&mut shm, 9, 4096, IPC_CREAT | 0o600);
    assert!(a.shmat_syscall(&mut shm, id, 0x10000, 0) >= 0);
    assert!(b.shmat_syscall(&mut shm, id, 0x40000, 0) >= 0);
    // a shared semaphore 16 bytes into the segment
    assert_eq!(a.sem_init_syscall(&mut shm, 0x10010, 1, 1), 0);
    assert!(a.sem_table.is_empty());
    // the other cage finds it at the same offset of its own mapping
    assert_eq!(b.sem_getvalue_syscall(&shm, 0x40010), 1);
    assert_eq!(b.sem_wait_syscall(&mut shm, 0x40010), 0);
    assert_eq!(a.sem_getvalue_syscall(&shm, 0x10010), 0);
    assert_eq!(a.sem_trywait_syscall(&mut shm, 0x10010), -EAGAIN);
    assert_eq!(a.sem_post_syscall(&mut shm, 0x10010), 0);
    assert_eq!(b.sem_getvalue_syscall(&shm, 0x40010), 1);
    // a second one at the same place is refused in either cage
    assert_eq!(b.sem_init_syscall(&mut shm, 0x40010, 1, 5), -EBADF);
    // a cage that detaches no longer sees it
    assert_eq!(b.shmdt_syscall(&mut shm, 0x40000), id);
    assert_eq!(b.sem_getvalue_syscall(&shm, 0x40010), -EINVAL);
    // destroying it removes it for every cage
    assert_eq!(a.sem_destroy_syscall(&mut shm, 0x10010), 0);
    assert_eq!(a.sem_getvalue_syscall(&shm, 0x10010), -EINVAL);
    // one that is not shared stays with its cage
    assert_eq!(a.sem_init_syscall(&mut shm, 0x10020, 0, 4), 0);
    assert_eq!(a.sem_table.len(), 1);
    assert!(b.shmat_syscall(&mut shm, id, 0x10000, 0) >= 0);
    assert_eq!(b.sem_getvalue_syscall(&shm, 0x10020), -EINVAL);
}

#[test]
fn test_forked_child_sees_parent_semaphores() {
    let mut fs = FilesystemMetadata::blank_fs_init();
    let mut shm = ShmMetadata::new();
    let mut parent = Cage::new(&mut fs, 1);
    let id = parent.shmget_syscall(&mut shm, 5, 4096, IPC_CREAT | 0o600);
    assert!(parent.shmat_syscall(&mut shm, id, 0x20000, 0) >= 0);
    assert_eq!(parent.sem_init_syscall(&mut shm, 0x20000, 1, 2), 0);
    assert_eq!(parent.sem_init_syscall(&mut shm, 77, 0, 6), 0);
    let mut child = parent.fork_syscall(&mut fs, &mut shm, 2);
    assert_eq!(child.sem_getvalue_syscall(&shm, 0x20000), 2);
    assert_eq!(child.sem_getvalue_syscall(&shm, 77), 6);
    // the shared one is one semaphore for both; the cage's own one is a copy
    assert_eq!(child.sem_wait_syscall(&mut shm, 0x20000), 0);
    assert_eq!(parent.sem_getvalue_syscall(&shm, 0x20000), 1);
    assert_eq!(child.sem_wait_syscall(&mut shm, 77), 0);
    assert_eq!(parent.sem_getvalue_syscall(&shm, 77), 6);
}
