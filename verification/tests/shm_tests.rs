use safeposix::unix_net::NetMetadata;
use safeposix::cage::Cage;
use safeposix::errno::{EEXIST, EINVAL, ENOENT};
use safeposix::filesystem::FilesystemMetadata;
use safeposix::fs_constants::{PROT_READ, PROT_WRITE};
use safeposix::shm::{
    shm_prot,
    IpcPermStruct, ShmMetadata, ShmidsStruct, IPC_CREAT, IPC_EXCL, IPC_PRIVATE, IPC_RMID, IPC_STAT,
    SHM_DEST, SHM_RDONLY,
};

fn setup() -> (FilesystemMetadata, Cage, ShmMetadata) {
    let mut fs = FilesystemMetadata::blank_fs_init();
    let cage = Cage::new(&mut fs, 1);
    (fs, cage, ShmMetadata::new())
}

fn blank_info() -> ShmidsStruct {
    ShmidsStruct {
        shm_perm: IpcPermStruct { key: 0, uid: 0, gid: 0, cuid: 0, cgid: 0, mode: 0 },
        shm_segsz: 0,
        shm_cpid: 0,
        shm_lpid: 0,
        shm_nattch: 0,
    }
}

#[test]
fn test_shmget_rules() {
    let (_fs, cage, mut shm) = setup();
    assert_eq!(cage.shmget_syscall(&mut shm, IPC_PRIVATE, 4096, IPC_CREAT), -ENOENT);
    assert_eq!(cage.shmget_syscall(&mut shm, 33, 4096, 0), -ENOENT);
    assert_eq!(cage.shmget_syscall(&mut shm, 33, 0, IPC_CREAT), -EINVAL);
    let id = cage.shmget_syscall(&mut shm, 33, 4096, IPC_CREAT | 0o600);
    assert_eq!(id, 1);
    assert_eq!(cage.shmget_syscall(&mut shm, 33, 10, 0), id);
    assert_eq!(cage.shmget_syscall(&mut shm, 33, 4096, IPC_CREAT | IPC_EXCL), -EEXIST);
    assert_eq!(cage.shmget_syscall(&mut shm, 34, 4096, IPC_CREAT), 2);
    let mut info = blank_info();
    assert_eq!(cage.shmctl_syscall(&mut shm, id, IPC_STAT, &mut info), 0);
    assert_eq!(info.shm_segsz, 4096);
    assert_eq!(info.shm_perm.mode, 0o600);
    assert_eq!(info.shm_perm.key, 33);
    assert_eq!(info.shm_cpid, 1);
    assert_eq!(info.shm_nattch, 0);
}

#[test]
fn test_attach_detach_and_remove() {
    let (_fs, mut cage, mut shm) = setup();
    let id = cage.shmget_syscall(&mut shm, 5, 8192, IPC_CREAT | 0o666);
    assert_eq!(cage.shmat_syscall(&mut shm, id, 0x10000, 0), 0x10000);
    assert_eq!(cage.shmat_syscall(&mut shm, 99, 0x20000, 0), -EINVAL);
    let mut info = blank_info();
    assert_eq!(cage.shmctl_syscall(&mut shm, id, IPC_STAT, &mut info), 0);
    assert_eq!(info.shm_nattch, 1);
    assert_eq!(cage.rev_shm, vec![(0x10000u32, id)]);
    // marked for removal, it stays while attached
    assert_eq!(cage.shmctl_syscall(&mut shm, id, IPC_RMID, &mut info), 0);
    assert_eq!(cage.shmctl_syscall(&mut shm, id, IPC_STAT, &mut info), 0);
    assert_eq!(info.shm_perm.mode & SHM_DEST, SHM_DEST);
    assert_eq!(cage.shmdt_syscall(&mut shm, 0x10000), id);
    assert_eq!(cage.shmdt_syscall(&mut shm, 0x10000), -EINVAL);
    // the last detach removed it, and its key
    assert_eq!(cage.shmctl_syscall(&mut shm, id, IPC_STAT, &mut info), -EINVAL);
    assert_eq!(cage.shmget_syscall(&mut shm, 5, 8192, 0), -ENOENT);
    assert_eq!(cage.shmctl_syscall(&mut shm, id, 77, &mut info), -EINVAL);
}

#[test]
fn test_rmid_without_attach_removes_at_once() {
    let (_fs, cage, mut shm) = setup();
    let id = cage.shmget_syscall(&mut shm, 8, 100, IPC_CREAT);
    let mut info = blank_info();
    assert_eq!(cage.shmctl_syscall(&mut shm, id, IPC_RMID, &mut info), 0);
    assert_eq!(cage.shmctl_syscall(&mut shm, id, IPC_STAT, &mut info), -EINVAL);
}

#[test]
fn test_rev_shm_helpers() {
    let rev: Vec<(u32, i32)> = vec![(100, 1), (200, 2), (300, 1), (200, 3)];
    assert_eq!(Cage::rev_shm_find_index_by_addr(&rev, 200), Some(1));
    assert_eq!(Cage::rev_shm_find_index_by_addr(&rev, 400), None);
    assert_eq!(Cage::rev_shm_find_addrs_by_shmid(&rev, 1), vec![100u32, 300u32]);
    assert_eq!(Cage::rev_shm_find_addrs_by_shmid(&rev, 9), Vec::<u32>::new());
}

#[test]
fn test_search_for_addr_in_region() {
    let (_fs, mut cage, mut shm) = setup();
    let a = cage.shmget_syscall(&mut shm, 1, 0x1000, IPC_CREAT);
    let b = cage.shmget_syscall(&mut shm, 2, 0x2000, IPC_CREAT);
    assert_eq!(cage.shmat_syscall(&mut shm, a, 0x10000, 0), 0x10000);
    assert_eq!(cage.shmat_syscall(&mut shm, b, 0x20000, 0), 0x20000);
    assert_eq!(Cage::search_for_addr_in_region(&shm, &cage.rev_shm, 0x10fff), Some((0x10000, a)));
    assert_eq!(Cage::search_for_addr_in_region(&shm, &cage.rev_shm, 0x11000), None);
    assert_eq!(Cage::search_for_addr_in_region(&shm, &cage.rev_shm, 0x21000), Some((0x20000, b)));
}

#[test]
fn test_shm_prot() {
    assert_eq!(shm_prot(SHM_RDONLY), PROT_READ);
    assert_eq!(shm_prot(0), PROT_READ | PROT_WRITE);
}

#[test]
fn test_fork_and_exit_count_attaches() {
    let (mut fs, mut cage, mut shm) = setup();
    let id = cage.shmget_syscall(&mut shm, 5, 64, IPC_CREAT);
    assert_eq!(cage.shmat_syscall(&mut shm, id, 0x4000, 0), 0x4000);
    let mut child = cage.fork_syscall(&mut fs, &mut shm, 2);
    let mut info = blank_info();
    assert_eq!(cage.shmctl_syscall(&mut shm, id, IPC_STAT, &mut info), 0);
    assert_eq!(info.shm_nattch, 2);
    assert_eq!(child.exit_syscall(&mut fs, &mut shm, &mut NetMetadata::new(), 0), 0);
    assert_eq!(cage.shmctl_syscall(&mut shm, id, IPC_STAT, &mut info), 0);
    assert_eq!(info.shm_nattch, 1);
}
