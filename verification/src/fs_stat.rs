//! The calls that report or change what the file system records of a file: `stat`,
//! `statfs`, `access`, `chdir`, `chmod` and `truncate`, with their descriptor variants.
use vstd::prelude::*;
use vstd::string::StringSliceAdditionalSpecFns;
use crate::errno::{err, syscall_error, ENOENT, EBADF, EOPNOTSUPP, EACCES, ENOTDIR, EINVAL, EISDIR};
use crate::fs_constants::{
    StatData, MAXFD, STREAMINODE, DEFAULT_UID, DEFAULT_GID, S_IXUSR, S_IWUSR, S_IRUSR, X_OK,
    W_OK, R_OK, S_IRWXA, spec_makedev, makedev, spec_is_rdonly, is_rdonly,
};
use crate::filesystem::{
    FilesystemMetadata, FsView, Inode, InodeView, InodeMeta, GenericInode, DeviceInode,
    SocketInode, DirectoryInode, DirEntry, spec_walk, fits, entries_view, dir_lookup, names_unique,
    find_entry, lemma_found_is_chosen, opt_inode_view,
};
use crate::fs_constants::ROOTDIRECTORYINODE;
use crate::cage::{Cage, FileDescriptor, same_but_fds};
use crate::path::{normpath, comps_view, spec_normpath, lemma_normpath_is_normal, DOT, SLASH};

verus! {

/// The first entry from index `i` on, other than `.` and `..`, that names inode `n`.
pub open spec fn name_from(entries: Seq<(Seq<u8>, usize)>, n: usize, i: int) -> Option<Seq<u8>>
    decreases entries.len() - i,
{
    if i < 0 || i >= entries.len() {
        None
    } else if entries[i].1 == n && entries[i].0 != seq![DOT] && entries[i].0 != seq![DOT, DOT] {
        Some(entries[i].0)
    } else {
        name_from(entries, n, i + 1)
    }
}

/// The absolute path of directory `n`, ending in `/`, found by following `..` entries up to
/// the root directory and naming each directory by its entry in its parent. `None` where a
/// step is missing or not a directory, or where the chain is longer than `fuel`.
pub open spec fn path_of_dir(fs: FsView, n: usize, fuel: nat) -> Option<Seq<u8>>
    decreases fuel,
{
    if n == ROOTDIRECTORYINODE {
        Some(seq![SLASH])
    } else if fuel == 0 || !fs.has(n as int) {
        None
    } else {
        match fs.get(n as int) {
            InodeView::Dir(_, e) => match dir_lookup(e, seq![DOT, DOT]) {
                None => None,
                Some(p) => if !fs.has(p as int) {
                    None
                } else {
                    match fs.get(p as int) {
                        InodeView::Dir(_, pe) => match path_of_dir(fs, p, (fuel - 1) as nat) {
                            None => None,
                            Some(pp) => match name_from(pe, n, 0) {
                                None => None,
                                Some(nm) => Some(pp + nm + seq![SLASH]),
                            },
                        },
                        _ => None,
                    }
                },
            },
            _ => None,
        }
    }
}

/// Whether `name` is `.` or `..`.
fn is_dot_name(name: &[u8]) -> (r: bool)
    ensures
        r == (name@ == seq![DOT] || name@ == seq![DOT, DOT]),
{
    if name.len() == 1 && name[0] == DOT {
        assert(name@ =~= seq![DOT]);
        true
    } else if name.len() == 2 && name[0] == DOT && name[1] == DOT {
        assert(name@ =~= seq![DOT, DOT]);
        true
    } else {
        assert(name@ != seq![DOT] && name@ != seq![DOT, DOT]) by {
            if name@ == seq![DOT] {
                assert(name@.len() == 1 && name@[0] == DOT);
            }
            if name@ == seq![DOT, DOT] {
                assert(name@.len() == 2 && name@[0] == DOT && name@[1] == DOT);
            }
        }
        false
    }
}

/// Finds the name under which `entries` lists inode `n`.
fn find_name_of(entries: &Vec<DirEntry>, n: usize) -> (r: Option<Vec<u8>>)
    ensures
        match r {
            Some(v) => name_from(entries_view(entries@), n, 0) == Some(v@),
            None => name_from(entries_view(entries@), n, 0) is None,
        },
{
    let ghost ev = entries_view(entries@);
    let mut i: usize = 0;
    while i < entries.len()
        invariant
            i <= entries@.len(),
            ev == entries_view(entries@),
            name_from(ev, n, 0) == name_from(ev, n, i as int),
        decreases entries@.len() - i,
    {
        assert(ev[i as int] == (entries@[i as int].name@, entries@[i as int].inode));
        if entries[i].inode == n && !is_dot_name(entries[i].name.as_slice()) {
            return Some(vstd::slice::slice_to_vec(entries[i].name.as_slice()));
        }
        i = i + 1;
    }
    None
}

/// Computes `path_of_dir`.
fn dir_path(fs: &FilesystemMetadata, n: usize, fuel: usize) -> (r: Option<Vec<u8>>)
    requires
        fs.wf(),
    ensures
        match r {
            Some(v) => path_of_dir(fs@, n, fuel as nat) == Some(v@),
            None => path_of_dir(fs@, n, fuel as nat) is None,
        },
    decreases fuel,
{
    if n == ROOTDIRECTORYINODE {
        let mut v: Vec<u8> = Vec::new();
        v.push(SLASH);
        assert(v@ =~= seq![SLASH]);
        return Some(v);
    }
    if fuel == 0 || n >= fs.inodetable.len() || fs.inodetable[n].is_none() {
        return None;
    }
    proof {
        assert(fs@.inodes[n as int] == opt_inode_view(fs.inodetable@[n as int]));
        assert(fs@.wf());
        assert(fits(fs@.inodes[n as int], fs@.contents[n as int]));
    }
    match &fs.inodetable[n] {
        Some(Inode::Dir(d)) => {
            let dd: [u8; 2] = [DOT, DOT];
            assert(dd@ =~= seq![DOT, DOT]);
            match find_entry(&d.filename_to_inode_dict, dd.as_slice()) {
                None => None,
                Some(k) => {
                    proof {
                        lemma_found_is_chosen(d.entries(), seq![DOT, DOT], k as int);
                    }
                    let p = d.filename_to_inode_dict[k].inode;
                    if p >= fs.inodetable.len() || fs.inodetable[p].is_none() {
                        return None;
                    }
                    proof {
                        assert(fs@.inodes[p as int] == opt_inode_view(fs.inodetable@[p as int]));
                    }
                    match &fs.inodetable[p] {
                        Some(Inode::Dir(pd)) => {
                            match dir_path(fs, p, fuel - 1) {
                                None => None,
                                Some(pp) => match find_name_of(&pd.filename_to_inode_dict, n) {
                                    None => None,
                                    Some(nm) => {
                                        let mut out = pp;
                                        let mut nm2 = nm;
                                        out.append(&mut nm2);
                                        out.push(SLASH);
                                        Some(out)
                                    },
                                },
                            }
                        },
                        _ => None,
                    }
                },
            }
        },
        _ => None,
    }
}

/// What the common stat helpers write for an inode.
pub open spec fn stat_generic(sb: StatData, m: InodeMeta) -> StatData {
    StatData {
        st_mode: m.mode,
        st_nlink: m.linkcount,
        st_uid: m.uid,
        st_gid: m.gid,
        st_rdev: 0,
        st_size: m.size,
        st_blksize: 0,
        st_blocks: 0,
        ..sb
    }
}

/// What the stat helper writes for a character device.
pub open spec fn stat_chr(sb: StatData, m: InodeMeta, major: u32, minor: u32) -> StatData {
    StatData {
        st_dev: 5,
        st_mode: m.mode,
        st_nlink: m.linkcount,
        st_uid: m.uid,
        st_gid: m.gid,
        st_rdev: spec_makedev(major, minor),
        st_size: m.size,
        ..sb
    }
}

/// What `stat` and `fstat` write for inode `n`.
pub open spec fn stat_inode(sb: StatData, dev_id: u64, n: usize, iv: InodeView) -> StatData {
    let sb1 = StatData { st_dev: dev_id, st_ino: n, ..sb };
    match iv {
        InodeView::CharDev(m, d) => stat_chr(sb1, m, d.major, d.minor),
        _ => stat_generic(sb1, iv.meta()),
    }
}

/// What `stat` of the path `comps` returns and writes over `sb`.
pub open spec fn stat_outcome(fs: FsView, dev_id: u64, comps: Seq<Seq<u8>>, sb: StatData) -> (int, StatData) {
    match spec_walk(fs, comps).0 {
        Some(n) => if fs.has(n as int) {
            (0, stat_inode(sb, dev_id, n, fs.get(n as int)))
        } else {
            (err(ENOENT), sb)
        },
        None => (err(ENOENT), sb),
    }
}

/// What `fstat` of descriptor `d` returns and writes over `sb`.
pub open spec fn fstat_outcome(fs: FsView, dev_id: u64, d: Option<FileDescriptor>, sb: StatData) -> (int, StatData) {
    match d {
        None => (err(EBADF), sb),
        Some(FileDescriptor::File(f)) => if fs.has(f.inode as int) {
            (0, stat_inode(sb, dev_id, f.inode, fs.get(f.inode as int)))
        } else {
            (err(EBADF), sb)
        },
        Some(FileDescriptor::Socket(_)) => (err(EOPNOTSUPP), sb),
        Some(FileDescriptor::Stream(_)) => (0, stat_alt(sb, dev_id, STREAMINODE)),
        Some(_) => (0, stat_alt(sb, dev_id, 0xfeef0000)),
    }
}

/// What `fstat` writes for descriptors that have no inode.
pub open spec fn stat_alt(sb: StatData, dev_id: u64, n: usize) -> StatData {
    StatData {
        st_dev: dev_id,
        st_ino: n,
        st_mode: 49590,
        st_nlink: 1,
        st_uid: DEFAULT_UID,
        st_gid: DEFAULT_GID,
        st_rdev: 0,
        st_size: 0,
        st_blksize: 0,
        st_blocks: 0,
        ..sb
    }
}

/// What `statfs` and `fstatfs` report of the file system.
#[derive(Clone, Copy, Debug)]
pub struct FSData {
    pub f_type: u64,
    pub f_bsize: u64,
    pub f_blocks: u64,
    pub f_bfree: u64,
    pub f_bavail: u64,
    pub f_files: u64,
    pub f_ffiles: u64,
    pub f_fsid: u64,
    pub f_namelen: u64,
    pub f_frsize: u64,
    pub f_spare: [u8; 32],
}

/// The fixed figures that `statfs` reports.
pub open spec fn statfs_filled(d: FSData) -> bool {
    &&& d.f_type == 0xBEEFC0DE
    &&& d.f_bsize == 4096
    &&& d.f_blocks == 0
    &&& d.f_bfree == 1024 * 1024 * 1024
    &&& d.f_bavail == 1024 * 1024 * 1024
    &&& d.f_files == 1024 * 1024 * 1024
    &&& d.f_ffiles == 1024 * 1024 * 515
    &&& d.f_namelen == 254
    &&& d.f_frsize == 4096
    &&& forall|i: int| 0 <= i < 32 ==> d.f_spare@[i] == 0
}

/// The permission bits that an `access` mode asks for.
pub open spec fn access_bits(amode: u32) -> u32 {
    (if amode & X_OK == X_OK { S_IXUSR } else { 0u32 }) | (if amode & W_OK == W_OK { S_IWUSR } else { 0u32 }) | (
    if amode & R_OK == R_OK { S_IRUSR } else { 0u32 })
}

/// What `access` answers for the path `comps` and the mode `amode`.
pub open spec fn access_outcome(fs: FsView, comps: Seq<Seq<u8>>, amode: u32) -> int {
    match spec_walk(fs, comps).0 {
        Some(n) => if !fs.has(n as int) {
            err(ENOENT)
        } else if fs.get(n as int).meta().mode & access_bits(amode) == access_bits(amode) {
            0
        } else {
            err(EACCES)
        },
        None => err(ENOENT),
    }
}

/// The mode of an inode after `chmod` to `mode`: the file type stays, the permissions change.
pub open spec fn chmod_mode(old: u32, mode: u32) -> u32 {
    (old & !S_IRWXA) | mode
}

/// The same inode with another mode.
pub open spec fn with_mode(iv: InodeView, mode: u32) -> InodeView {
    match iv {
        InodeView::File(m) => InodeView::File(InodeMeta { mode, ..m }),
        InodeView::CharDev(m, d) => InodeView::CharDev(InodeMeta { mode, ..m }, d),
        InodeView::Socket(m) => InodeView::Socket(InodeMeta { mode, ..m }),
        InodeView::Dir(m, e) => InodeView::Dir(InodeMeta { mode, ..m }, e),
    }
}

/// `data` cut or padded with zero bytes to length `len`.
pub open spec fn zero_extend(data: Seq<u8>, len: int) -> Seq<u8> {
    if len <= data.len() {
        data.subrange(0, len)
    } else {
        data + Seq::new((len - data.len()) as nat, |i: int| 0u8)
    }
}

/// What truncating inode `n` to `length` returns and leaves behind.
pub open spec fn truncate_outcome(fs: FsView, n: int, length: isize) -> (int, FsView) {
    if length < 0 {
        (err(EINVAL), fs)
    } else {
        match fs.get(n) {
            InodeView::File(m) => (
                0,
                FsView {
                    inodes: fs.inodes.update(n, Some(InodeView::File(InodeMeta { size: length as usize, ..m }))),
                    contents: fs.contents.update(n, zero_extend(fs.contents[n], length as int)),
                    ..fs
                },
            ),
            InodeView::CharDev(..) => (err(EINVAL), fs),
            InodeView::Socket(..) => (err(EINVAL), fs),
            InodeView::Dir(..) => (err(EISDIR), fs),
        }
    }
}

/// Cuts or pads `v` with zero bytes to length `len`.
fn resize_zero(v: &mut Vec<u8>, len: usize)
    ensures
        final(v)@ == zero_extend(old(v)@, len as int),
{
    let ghost v0 = v@;
    v.resize(len, 0u8);
    proof {
        if len > v0.len() {
            assert forall|i: int| v0.len() <= i < len implies v@[i] == 0u8 by {
                assert(vstd::pervasive::cloned::<u8>(0u8, v@[i]));
            }
            assert(v@ =~= zero_extend(v0, len as int)) by {
                assert forall|i: int| 0 <= i < len implies v@[i] == zero_extend(v0, len as int)[i] by {
                    if i < v0.len() {
                        assert(v@.subrange(0, v0.len() as int)[i] == v0[i]);
                    }
                }
            }
        }
    }
}

impl Cage {
    fn _istat_helper(inodeobj: &GenericInode, statbuf: &mut StatData)
        ensures
            *final(statbuf) == stat_generic(*old(statbuf), inodeobj.meta()),
    {
        statbuf.st_mode = inodeobj.mode;
        statbuf.st_nlink = inodeobj.linkcount;
        statbuf.st_uid = inodeobj.uid;
        statbuf.st_gid = inodeobj.gid;
        statbuf.st_rdev = 0;
        statbuf.st_size = inodeobj.size;
        statbuf.st_blksize = 0;
        statbuf.st_blocks = 0;
    }

    fn _istat_helper_sock(inodeobj: &SocketInode, statbuf: &mut StatData)
        ensures
            *final(statbuf) == stat_generic(*old(statbuf), inodeobj.meta()),
    {
        statbuf.st_mode = inodeobj.mode;
        statbuf.st_nlink = inodeobj.linkcount;
        statbuf.st_uid = inodeobj.uid;
        statbuf.st_gid = inodeobj.gid;
        statbuf.st_rdev = 0;
        statbuf.st_size = inodeobj.size;
        statbuf.st_blksize = 0;
        statbuf.st_blocks = 0;
    }

    fn _istat_helper_dir(inodeobj: &DirectoryInode, statbuf: &mut StatData)
        ensures
            *final(statbuf) == stat_generic(*old(statbuf), inodeobj.meta()),
    {
        statbuf.st_mode = inodeobj.mode;
        statbuf.st_nlink = inodeobj.linkcount;
        statbuf.st_uid = inodeobj.uid;
        statbuf.st_gid = inodeobj.gid;
        statbuf.st_rdev = 0;
        statbuf.st_size = inodeobj.size;
        statbuf.st_blksize = 0;
        statbuf.st_blocks = 0;
    }

    fn _istat_helper_chr_file(inodeobj: &DeviceInode, statbuf: &mut StatData)
        ensures
            *final(statbuf) == stat_chr(*old(statbuf), inodeobj.meta(), inodeobj.dev.major, inodeobj.dev.minor),
    {
        statbuf.st_dev = 5;
        statbuf.st_mode = inodeobj.mode;
        statbuf.st_nlink = inodeobj.linkcount;
        statbuf.st_uid = inodeobj.uid;
        statbuf.st_gid = inodeobj.gid;
        statbuf.st_rdev = makedev(&inodeobj.dev);
        statbuf.st_size = inodeobj.size;
    }

    fn _stat_alt_helper(&self, fs: &FilesystemMetadata, statbuf: &mut StatData, inodenum: usize)
        ensures
            *final(statbuf) == stat_alt(*old(statbuf), fs.dev_id, inodenum),
    {
        statbuf.st_dev = fs.dev_id;
        statbuf.st_ino = inodenum;
        statbuf.st_mode = 49590;
        statbuf.st_nlink = 1;
        statbuf.st_uid = DEFAULT_UID;
        statbuf.st_gid = DEFAULT_GID;
        statbuf.st_rdev = 0;
        statbuf.st_size = 0;
        statbuf.st_blksize = 0;
        statbuf.st_blocks = 0;
    }

    /// Fills `statbuf` for inode `inodenum`, which exists.
    fn stat_existing(fs: &FilesystemMetadata, inodenum: usize, statbuf: &mut StatData)
        requires
            fs.wf(),
            fs@.has(inodenum as int),
        ensures
            *final(statbuf) == stat_inode(*old(statbuf), fs.dev_id, inodenum, fs@.get(inodenum as int)),
    {
        statbuf.st_dev = fs.dev_id;
        statbuf.st_ino = inodenum;
        match &fs.inodetable[inodenum] {
            Some(Inode::File(f)) => Self::_istat_helper(f, statbuf),
            Some(Inode::CharDev(f)) => Self::_istat_helper_chr_file(f, statbuf),
            Some(Inode::Socket(f)) => Self::_istat_helper_sock(f, statbuf),
            Some(Inode::Dir(f)) => Self::_istat_helper_dir(f, statbuf),
            None => {},
        }
    }

    /// Fills `statbuf` with what the file system records of the file at `path`.
    pub fn stat_syscall(&self, fs: &FilesystemMetadata, path: &str, statbuf: &mut StatData) -> (ret: i32)
        requires
            self.inv(fs),
        ensures
            ({
                let o = stat_outcome(fs@, fs.dev_id, spec_normpath(self.cwd_view(), path.spec_bytes()), *old(statbuf));
                ret == o.0 && *final(statbuf) == o.1
            }),
    {
        let truepath = normpath(&self.cwd, path.as_bytes());
        match fs.metawalkandparent(&truepath).0 {
            Some(inodenum) => {
                if inodenum >= fs.inodetable.len() || fs.inodetable[inodenum].is_none() {
                    return syscall_error(ENOENT);
                }
                Self::stat_existing(fs, inodenum, statbuf);
                0
            },
            None => syscall_error(ENOENT),
        }
    }

    /// Fills `statbuf` for the file open at descriptor `fd`.
    pub fn fstat_syscall(&self, fs: &FilesystemMetadata, fd: i32, statbuf: &mut StatData) -> (ret: i32)
        requires
            self.inv(fs),
            0 <= fd < MAXFD,
        ensures
            ({
                let o = fstat_outcome(fs@, fs.dev_id, self.fd(fd as int), *old(statbuf));
                ret == o.0 && *final(statbuf) == o.1
            }),
    {
        match self.get_fd(fd) {
            None => syscall_error(EBADF),
            Some(FileDescriptor::File(f)) => {
                if f.inode >= fs.inodetable.len() || fs.inodetable[f.inode].is_none() {
                    return syscall_error(EBADF);
                }
                Self::stat_existing(fs, f.inode, statbuf);
                0
            },
            Some(FileDescriptor::Socket(_)) => syscall_error(EOPNOTSUPP),
            Some(FileDescriptor::Stream(_)) => {
                self._stat_alt_helper(fs, statbuf, STREAMINODE);
                0
            },
            Some(FileDescriptor::Pipe(_)) => {
                self._stat_alt_helper(fs, statbuf, 0xfeef0000);
                0
            },
            Some(FileDescriptor::Epoll(_)) => {
                self._stat_alt_helper(fs, statbuf, 0xfeef0000);
                0
            },
        }
    }

    /// Fills `databuf` with the fixed figures of the file system.
    pub fn _istatfs_helper(&self, databuf: &mut FSData) -> (ret: i32)
        ensures
            ret == 0,
            statfs_filled(*final(databuf)),
            final(databuf).f_fsid == old(databuf).f_fsid,
    {
        databuf.f_type = 0xBEEFC0DE;
        databuf.f_bsize = 4096;
        databuf.f_blocks = 0;
        databuf.f_bfree = 1024 * 1024 * 1024;
        databuf.f_bavail = 1024 * 1024 * 1024;
        databuf.f_files = 1024 * 1024 * 1024;
        databuf.f_ffiles = 1024 * 1024 * 515;
        databuf.f_namelen = 254;
        databuf.f_frsize = 4096;
        databuf.f_spare = [0u8; 32];
        assert(forall|i: int| 0 <= i < 32 ==> databuf.f_spare@[i] == 0);
        0
    }

    /// Reports the file system that holds the file at `path`.
    pub fn statfs_syscall(&self, fs: &FilesystemMetadata, path: &str, databuf: &mut FSData) -> (ret: i32)
        requires
            self.inv(fs),
        ensures
            match spec_walk(fs@, spec_normpath(self.cwd_view(), path.spec_bytes())).0 {
                Some(n) => ret == 0 && statfs_filled(*final(databuf)) && final(databuf).f_fsid == fs.dev_id,
                None => ret == err(ENOENT) && *final(databuf) == *old(databuf),
            },
    {
        let truepath = normpath(&self.cwd, path.as_bytes());
        match fs.metawalkandparent(&truepath).0 {
            Some(_) => {
                databuf.f_fsid = fs.dev_id;
                self._istatfs_helper(databuf)
            },
            None => syscall_error(ENOENT),
        }
    }

    /// Reports the file system that holds the file open at `fd`.
    pub fn fstatfs_syscall(&self, fs: &FilesystemMetadata, fd: i32, databuf: &mut FSData) -> (ret: i32)
        requires
            self.inv(fs),
            0 <= fd < MAXFD,
        ensures
            match self.fd(fd as int) {
                None => ret == err(EBADF) && *final(databuf) == *old(databuf),
                Some(FileDescriptor::File(_)) => ret == 0 && statfs_filled(*final(databuf)) && final(databuf).f_fsid == fs.dev_id,
                Some(_) => ret == err(EBADF) && *final(databuf) == FSData { f_fsid: fs.dev_id, ..*old(databuf) },
            },
    {
        match self.get_fd(fd) {
            None => syscall_error(EBADF),
            Some(d) => {
                databuf.f_fsid = fs.dev_id;
                match d {
                    FileDescriptor::File(_) => self._istatfs_helper(databuf),
                    _ => syscall_error(EBADF),
                }
            },
        }
    }

    /// Checks whether the owner may access the file at `path` as `amode` asks.
    pub fn access_syscall(&self, fs: &FilesystemMetadata, path: &str, amode: u32) -> (ret: i32)
        requires
            self.inv(fs),
        ensures
            ret == access_outcome(fs@, spec_normpath(self.cwd_view(), path.spec_bytes()), amode),
    {
        let truepath = normpath(&self.cwd, path.as_bytes());
        match fs.metawalkandparent(&truepath).0 {
            Some(inodenum) => {
                if inodenum >= fs.inodetable.len() {
                    return syscall_error(ENOENT);
                }
                let mode = match &fs.inodetable[inodenum] {
                    Some(Inode::File(f)) => f.mode,
                    Some(Inode::CharDev(f)) => f.mode,
                    Some(Inode::Socket(f)) => f.mode,
                    Some(Inode::Dir(f)) => f.mode,
                    None => {
                        return syscall_error(ENOENT);
                    },
                };
                let xb: u32 = if amode & X_OK == X_OK { S_IXUSR } else { 0u32 };
                let wb: u32 = if amode & W_OK == W_OK { S_IWUSR } else { 0u32 };
                let rb: u32 = if amode & R_OK == R_OK { S_IRUSR } else { 0u32 };
                let newmode: u32 = xb | wb | rb;
                if mode & newmode == newmode {
                    0
                } else {
                    syscall_error(EACCES)
                }
            },
            None => syscall_error(ENOENT),
        }
    }

    /// Makes the directory open at `fd` the working directory: its absolute path is found by
    /// following `..` entries up to the root.
    pub fn fchdir_syscall(&mut self, fs: &FilesystemMetadata, fd: i32) -> (ret: i32)
        requires
            old(self).inv(fs),
            0 <= fd < MAXFD,
        ensures
            final(self).inv(fs),
            final(self).filedescriptortable == old(self).filedescriptortable,
            final(self).epoll_table == old(self).epoll_table,
            match old(self).fd(fd as int) {
                None => ret == err(EBADF) && final(self).cwd == old(self).cwd,
                Some(FileDescriptor::File(f)) => match path_of_dir(fs@, f.inode, fs@.inodes.len()) {
                    Some(p) => ret == 0 && final(self).cwd_view() == spec_normpath(old(self).cwd_view(), p),
                    None => ret == err(ENOTDIR) && final(self).cwd == old(self).cwd,
                },
                Some(_) => ret == err(ENOTDIR) && final(self).cwd == old(self).cwd,
            },
    {
        match self.get_fd(fd) {
            None => syscall_error(EBADF),
            Some(FileDescriptor::File(f)) => {
                match dir_path(fs, f.inode, fs.inodetable.len()) {
                    Some(p) => {
                        let truepath = normpath(&self.cwd, p.as_slice());
                        proof {
                            lemma_normpath_is_normal(self.cwd_view(), p@);
                        }
                        self.cwd = truepath;
                        0
                    },
                    None => syscall_error(ENOTDIR),
                }
            },
            Some(_) => syscall_error(ENOTDIR),
        }
    }

    /// Makes the directory at `path` the working directory.
    pub fn chdir_syscall(&mut self, fs: &FilesystemMetadata, path: &str) -> (ret: i32)
        requires
            old(self).inv(fs),
        ensures
            final(self).inv(fs),
            final(self).filedescriptortable == old(self).filedescriptortable,
            final(self).epoll_table == old(self).epoll_table,
            match spec_walk(fs@, spec_normpath(old(self).cwd_view(), path.spec_bytes())).0 {
                Some(n) => if fs@.has(n as int) && fs@.get(n as int).is_dir() {
                    ret == 0 && final(self).cwd_view() == spec_normpath(old(self).cwd_view(), path.spec_bytes())
                } else if fs@.has(n as int) {
                    ret == err(ENOTDIR) && final(self).cwd == old(self).cwd
                } else {
                    ret == err(ENOENT) && final(self).cwd == old(self).cwd
                },
                None => ret == err(ENOENT) && final(self).cwd == old(self).cwd,
            },
    {
        let truepath = normpath(&self.cwd, path.as_bytes());
        proof {
            lemma_normpath_is_normal(self.cwd_view(), path.spec_bytes());
        }
        match fs.metawalkandparent(&truepath).0 {
            Some(inodenum) => {
                if inodenum >= fs.inodetable.len() || fs.inodetable[inodenum].is_none() {
                    return syscall_error(ENOENT);
                }
                match &fs.inodetable[inodenum] {
                    Some(Inode::Dir(_)) => {
                        self.cwd = truepath;
                        0
                    },
                    _ => syscall_error(ENOTDIR),
                }
            },
            None => syscall_error(ENOENT),
        }
    }

    /// Changes the permission bits of inode `inodenum`.
    pub fn _chmod_helper(fs: &mut FilesystemMetadata, inodenum: usize, mode: u32) -> (ret: i32)
        requires
            old(fs).wf(),
            old(fs)@.has(inodenum as int),
        ensures
            final(fs).wf(),
            if (mode & S_IRWXA) == mode {
                ret == 0 && final(fs)@ == old(fs)@.set(
                    inodenum as int,
                    with_mode(old(fs)@.get(inodenum as int), chmod_mode(old(fs)@.get(inodenum as int).meta().mode, mode)),
                )
            } else {
                ret == err(EINVAL) && final(fs)@ == old(fs)@
            },
    {
        if (mode & S_IRWXA) != mode {
            return syscall_error(EINVAL);
        }
        let ghost fs0 = fs@;
        let node = fs.take_inode(inodenum);
        let newnode = match node {
            Some(Inode::File(mut f)) => {
                f.mode = (f.mode & !S_IRWXA) | mode;
                Some(Inode::File(f))
            },
            Some(Inode::CharDev(mut f)) => {
                f.mode = (f.mode & !S_IRWXA) | mode;
                Some(Inode::CharDev(f))
            },
            Some(Inode::Socket(mut f)) => {
                f.mode = (f.mode & !S_IRWXA) | mode;
                Some(Inode::Socket(f))
            },
            Some(Inode::Dir(mut f)) => {
                f.mode = (f.mode & !S_IRWXA) | mode;
                Some(Inode::Dir(f))
            },
            None => None,
        };
        proof {
            assert(fits(fs0.inodes[inodenum as int], fs0.contents[inodenum as int]));
        }
        fs.put_inode(inodenum, newnode);
        assert(fs@ =~= fs0.set(
            inodenum as int,
            with_mode(fs0.get(inodenum as int), chmod_mode(fs0.get(inodenum as int).meta().mode, mode)),
        ));
        0
    }

    /// Changes the permission bits of the file at `path`.
    pub fn chmod_syscall(&self, fs: &mut FilesystemMetadata, path: &str, mode: u32) -> (ret: i32)
        requires
            self.inv(old(fs)),
        ensures
            self.inv(final(fs)),
            match spec_walk(old(fs)@, spec_normpath(self.cwd_view(), path.spec_bytes())).0 {
                Some(n) => if !old(fs)@.has(n as int) {
                    ret == err(ENOENT) && final(fs)@ == old(fs)@
                } else if (mode & S_IRWXA) == mode {
                    ret == 0 && final(fs)@ == old(fs)@.set(
                        n as int,
                        with_mode(old(fs)@.get(n as int), chmod_mode(old(fs)@.get(n as int).meta().mode, mode)),
                    )
                } else {
                    ret == err(EINVAL) && final(fs)@ == old(fs)@
                },
                None => ret == err(ENOENT) && final(fs)@ == old(fs)@,
            },
    {
        let truepath = normpath(&self.cwd, path.as_bytes());
        match fs.metawalkandparent(&truepath).0 {
            Some(inodenum) => {
                if inodenum >= fs.inodetable.len() || fs.inodetable[inodenum].is_none() {
                    return syscall_error(ENOENT);
                }
                Self::_chmod_helper(fs, inodenum, mode)
            },
            None => syscall_error(ENOENT),
        }
    }

    /// Changes the permission bits of the file open at `fd`.
    pub fn fchmod_syscall(&self, fs: &mut FilesystemMetadata, fd: i32, mode: u32) -> (ret: i32)
        requires
            self.inv(old(fs)),
            0 <= fd < MAXFD,
        ensures
            self.inv(final(fs)),
            match self.fd(fd as int) {
                None => ret == err(EBADF) && final(fs)@ == old(fs)@,
                Some(FileDescriptor::File(f)) => if !old(fs)@.has(f.inode as int) {
                    ret == err(EBADF) && final(fs)@ == old(fs)@
                } else if (mode & S_IRWXA) == mode {
                    ret == 0 && final(fs)@ == old(fs)@.set(
                        f.inode as int,
                        with_mode(old(fs)@.get(f.inode as int), chmod_mode(old(fs)@.get(f.inode as int).meta().mode, mode)),
                    )
                } else {
                    ret == err(EINVAL) && final(fs)@ == old(fs)@
                },
                Some(_) => ret == err(EINVAL) && final(fs)@ == old(fs)@,
            },
    {
        match self.get_fd(fd) {
            None => syscall_error(EBADF),
            Some(FileDescriptor::File(f)) => {
                if f.inode >= fs.inodetable.len() || fs.inodetable[f.inode].is_none() {
                    return syscall_error(EBADF);
                }
                Self::_chmod_helper(fs, f.inode, mode)
            },
            Some(_) => syscall_error(EINVAL),
        }
    }

    /// Cuts or zero-pads inode `inodenum`, which exists, to `length` bytes.
    pub fn _truncate_helper(&self, fs: &mut FilesystemMetadata, inodenum: usize, length: isize) -> (ret: i32)
        requires
            old(fs).wf(),
            old(fs)@.has(inodenum as int),
        ensures
            final(fs).wf(),
            ({
                let o = truncate_outcome(old(fs)@, inodenum as int, length);
                ret == o.0 && final(fs)@ == o.1
            }),
    {
        if length < 0 {
            return syscall_error(EINVAL);
        }
        let ghost fs0 = fs@;
        match &fs.inodetable[inodenum] {
            Some(Inode::File(_)) => {},
            Some(Inode::CharDev(_)) => {
                return syscall_error(EINVAL);
            },
            Some(Inode::Socket(_)) => {
                return syscall_error(EINVAL);
            },
            _ => {
                return syscall_error(EISDIR);
            },
        }
        let ulength = length as usize;
        let node = fs.take_inode(inodenum);
        let mut data: Vec<u8> = Vec::new();
        fs.filecontents.set_and_swap(inodenum, &mut data);
        resize_zero(&mut data, ulength);
        fs.filecontents.set(inodenum, data);
        match node {
            Some(Inode::File(mut f)) => {
                f.size = ulength;
                fs.put_inode(inodenum, Some(Inode::File(f)));
            },
            other => {
                proof {
                    assert(false);
                }
                fs.put_inode(inodenum, other);
            },
        }
        proof {
            let o = truncate_outcome(fs0, inodenum as int, length);
            assert(fs@.inodes =~= o.1.inodes);
            assert(fs@.contents =~= o.1.contents);
            assert(fs@ =~= o.1);
        }
        0
    }

    /// Cuts or zero-pads the file at `path` to `length` bytes.
    pub fn truncate_syscall(&self, fs: &mut FilesystemMetadata, path: &str, length: isize) -> (ret: i32)
        requires
            self.inv(old(fs)),
        ensures
            self.inv(final(fs)),
            match spec_walk(old(fs)@, spec_normpath(self.cwd_view(), path.spec_bytes())).0 {
                Some(n) => if !old(fs)@.has(n as int) {
                    ret == err(ENOENT) && final(fs)@ == old(fs)@
                } else {
                    let o = truncate_outcome(old(fs)@, n as int, length);
                    ret == o.0 && final(fs)@ == o.1
                },
                None => ret == err(ENOENT) && final(fs)@ == old(fs)@,
            },
    {
        let truepath = normpath(&self.cwd, path.as_bytes());
        match fs.metawalkandparent(&truepath).0 {
            Some(inodenum) => {
                if inodenum >= fs.inodetable.len() || fs.inodetable[inodenum].is_none() {
                    return syscall_error(ENOENT);
                }
                self._truncate_helper(fs, inodenum, length)
            },
            None => syscall_error(ENOENT),
        }
    }

    /// Cuts or zero-pads the file open for writing at `fd` to `length` bytes.
    pub fn ftruncate_syscall(&self, fs: &mut FilesystemMetadata, fd: i32, length: isize) -> (ret: i32)
        requires
            self.inv(old(fs)),
            0 <= fd < MAXFD,
        ensures
            self.inv(final(fs)),
            match self.fd(fd as int) {
                None => ret == err(EBADF) && final(fs)@ == old(fs)@,
                Some(FileDescriptor::File(f)) => if spec_is_rdonly(f.flags) {
                    ret == err(EBADF) && final(fs)@ == old(fs)@
                } else if !old(fs)@.has(f.inode as int) {
                    ret == err(EBADF) && final(fs)@ == old(fs)@
                } else {
                    let o = truncate_outcome(old(fs)@, f.inode as int, length);
                    ret == o.0 && final(fs)@ == o.1
                },
                Some(_) => ret == err(EINVAL) && final(fs)@ == old(fs)@,
            },
    {
        match self.get_fd(fd) {
            None => syscall_error(EBADF),
            Some(FileDescriptor::File(f)) => {
                if is_rdonly(f.flags) {
                    return syscall_error(EBADF);
                }
                if f.inode >= fs.inodetable.len() || fs.inodetable[f.inode].is_none() {
                    return syscall_error(EBADF);
                }
                self._truncate_helper(fs, f.inode, length)
            },
            Some(_) => syscall_error(EINVAL),
        }
    }
}

} // verus!
