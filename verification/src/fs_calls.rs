//! The file system calls of a cage.
use vstd::prelude::*;
use crate::errno::{
    err, syscall_error, ENOENT, ENFILE, EINVAL, EPERM, ENOTDIR, EEXIST, ENXIO, EISDIR, EBUSY,
    ENOTEMPTY, EOPNOTSUPP,
};
use crate::fs_constants::{
    STARTINGFD, MAXFD, O_APPEND, O_RDWRFLAGS, O_CLOEXEC, O_CREAT, O_EXCL, O_TRUNC, O_WRONLY,
    S_IFCHR, S_IRWXA, S_FILETYPEFLAGS, S_IFREG, DEFAULT_UID, DEFAULT_GID, S_IFDIR, S_IWOTH,
    S_IWGRP, S_IWUSR, DevNo, devtuple, spec_major, spec_minor, file_type, is_dir,
};
use crate::filesystem::{
    FilesystemMetadata, FsView, Inode, InodeView, InodeMeta, GenericInode, DirEntry,
    spec_walk, dir_insert, dir_insert_exec, sat_inc, sat_dec, opt_inode_view, timestamp, AdvisoryLock,
    lemma_dir_insert_lookup, lemma_dir_remove_lookup, dir_remove, dir_remove_exec, DirectoryInode,
    DeviceInode, fits,
};
use crate::cage::{Cage, FileDescriptor, FileDesc, same_but_fds, lemma_refs_ok_update};
use crate::path::{normpath, comps_view, spec_normpath, lemma_normpath_is_normal, DOT, path_text, path_to_bytes};
use vstd::slice::slice_to_vec;
use vstd::string::StringSliceAdditionalSpecFns;

use crate::unix_net::{NetMetadata, NetView};

verus! {

/// The open file description that `open` creates for inode `inodenum` of size `size`.
pub open spec fn spec_file_desc(inodenum: usize, flags: i32, size: usize, lock: usize) -> FileDesc {
    FileDesc {
        position: if flags & O_APPEND != 0 {
            size
        } else {
            0
        },
        inode: inodenum,
        flags: flags & (O_RDWRFLAGS | O_CLOEXEC),
        advlock: lock,
    }
}

/// Whether mode bits hold nothing but permission and file type bits.
pub open spec fn mode_sane(mode: u32) -> bool {
    mode & (S_IRWXA | (S_FILETYPEFLAGS as u32)) == mode
}

/// The inode of a new regular file.
pub open spec fn new_file_meta(mode: u32) -> InodeMeta {
    InodeMeta {
        size: 0,
        uid: DEFAULT_UID,
        gid: DEFAULT_GID,
        mode: (S_IFREG as u32) | mode,
        linkcount: 1,
        refcount: 1,
    }
}

/// The same view with `n` bound to `name` in directory `p`, whose link count grows by one.
pub open spec fn link_in_dir(fs: FsView, p: int, name: Seq<u8>, n: usize) -> FsView {
    match fs.get(p) {
        InodeView::Dir(m, e) => fs.set(
            p,
            InodeView::Dir(InodeMeta { linkcount: sat_inc(m.linkcount), ..m }, dir_insert(e, name, n)),
        ),
        _ => fs,
    }
}

/// What `open` returns and leaves behind: the result, the file system and the descriptor table.
pub open spec fn open_outcome(
    fs: FsView,
    fds: Seq<Option<FileDescriptor>>,
    lowest: Option<i32>,
    comps: Seq<Seq<u8>>,
    pathlen: nat,
    flags: i32,
    mode: u32,
) -> (int, FsView, Seq<Option<FileDescriptor>>) {
    let lock = fs.locks.len() as usize;
    let fs_l = FsView { locks: fs.locks.push(AdvisoryLock { state: 0 }), ..fs };
    if pathlen == 0 {
        (err(ENOENT), fs, fds)
    } else if lowest is None {
        (err(ENFILE), fs, fds)
    } else {
        let fd = lowest->Some_0;
        match spec_walk(fs, comps) {
            (None, Some(p)) => {
                if flags & O_CREAT == 0 {
                    (err(ENOENT), fs, fds)
                } else if S_IFCHR == (S_IFCHR & flags) {
                    (err(EINVAL), fs, fds)
                } else if !mode_sane(mode) {
                    (err(EPERM), fs, fds)
                } else {
                    let n = fs.inodes.len() as usize;
                    let fs1 = FsView {
                        inodes: fs_l.inodes.push(Some(InodeView::File(new_file_meta(mode)))),
                        contents: fs_l.contents.push(Seq::empty()),
                        ..fs_l
                    };
                    (
                        fd as int,
                        link_in_dir(fs1, p as int, comps.last(), n),
                        fds.update(fd as int, Some(FileDescriptor::File(spec_file_desc(n, flags, 0, lock)))),
                    )
                }
            },
            (Some(n), _) => {
                if (O_CREAT | O_EXCL) == (flags & (O_CREAT | O_EXCL)) {
                    (err(EEXIST), fs, fds)
                } else if !fs.has(n as int) {
                    (err(ENOENT), fs, fds)
                } else {
                    match fs.get(n as int) {
                        InodeView::File(m) => {
                            let trunc = O_TRUNC == (flags & O_TRUNC);
                            let size: usize = if trunc { 0 } else { m.size };
                            let fs1 = FsView {
                                inodes: fs_l.inodes.update(
                                    n as int,
                                    Some(InodeView::File(InodeMeta { size, refcount: sat_inc(m.refcount), ..m })),
                                ),
                                contents: if trunc { fs_l.contents.update(n as int, Seq::empty()) } else { fs_l.contents },
                                ..fs_l
                            };
                            (fd as int, fs1, fds.update(fd as int, Some(FileDescriptor::File(spec_file_desc(n, flags, size, lock)))))
                        },
                        InodeView::Dir(m, e) => (
                            fd as int,
                            fs_l.set(n as int, InodeView::Dir(InodeMeta { refcount: sat_inc(m.refcount), ..m }, e)),
                            fds.update(fd as int, Some(FileDescriptor::File(spec_file_desc(n, flags, m.size, lock)))),
                        ),
                        InodeView::CharDev(m, d) => (
                            fd as int,
                            fs_l.set(n as int, InodeView::CharDev(InodeMeta { refcount: sat_inc(m.refcount), ..m }, d)),
                            fds.update(fd as int, Some(FileDescriptor::File(spec_file_desc(n, flags, m.size, lock)))),
                        ),
                        InodeView::Socket(_) => (err(ENXIO), fs, fds),
                    }
                }
            },
            (None, None) => (err(ENOENT), fs, fds),
        }
    }
}

impl Cage {
    /// The open file description for inode `inodenum` of size `size`, with a fresh advisory lock.
    pub fn _file_initializer(&self, fs: &mut FilesystemMetadata, inodenum: usize, flags: i32, size: usize) -> (r: FileDesc)
        requires
            old(fs).wf(),
        ensures
            r == spec_file_desc(inodenum, flags, size, old(fs)@.locks.len() as usize),
            final(fs).wf(),
            final(fs).inodetable == old(fs).inodetable,
            final(fs)@ == (FsView { locks: old(fs)@.locks.push(AdvisoryLock { state: 0 }), ..old(fs)@ }),
    {
        let position = if 0 != flags & O_APPEND {
            size
        } else {
            0
        };
        let allowmask = O_RDWRFLAGS | O_CLOEXEC;
        let advlock = fs.new_advlock();
        FileDesc { position: position, inode: inodenum, flags: flags & allowmask, advlock }
    }

    /// Opens (and, with `O_CREAT`, creates) the file at `path` and gives the lowest free
    /// descriptor for it.
    pub fn open_syscall(&mut self, fs: &mut FilesystemMetadata, path: &str, flags: i32, mode: u32) -> (ret: i32)
        requires
            old(self).inv(old(fs)),
        ensures
            final(self).inv(final(fs)),
            same_but_fds(*old(self), *final(self)),
            ({
                let o = open_outcome(
                    old(fs)@,
                    old(self).filedescriptortable@,
                    old(self).lowest_free(0),
                    spec_normpath(old(self).cwd_view(), path.spec_bytes()),
                    path.spec_bytes().len(),
                    flags,
                    mode,
                );
                &&& ret == o.0
                &&& final(fs)@ == o.1
                &&& final(self).filedescriptortable@ == o.2
            }),
            ret >= 0 && spec_walk(old(fs)@, spec_normpath(old(self).cwd_view(), path.spec_bytes())).0 is None
                ==> made_now(old(fs), final(fs),
                    spec_walk(old(fs)@, spec_normpath(old(self).cwd_view(), path.spec_bytes())).1->Some_0 as int,
                    old(fs)@.inodes.len() as int),
            ret >= 0 && flags & O_TRUNC != 0
                && spec_walk(old(fs)@, spec_normpath(old(self).cwd_view(), path.spec_bytes())).0 is Some
                && old(fs)@.get(spec_walk(old(fs)@, spec_normpath(old(self).cwd_view(), path.spec_bytes())).0->Some_0 as int) is File
                ==> changed_now(old(fs), final(fs),
                    spec_walk(old(fs)@, spec_normpath(old(self).cwd_view(), path.spec_bytes())).0->Some_0 as int),
    {
        let ghost cv = self.cwd_view();
        let ghost fsv = fs@;
        let ghost fds0 = self.filedescriptortable@;
        let ghost low = self.lowest_free(0);
        let ghost fs_old = *fs;
        let ghost self_old = *self;
        let bytes = path.as_bytes();
        if bytes.len() == 0 {
            return syscall_error(ENOENT);
        }
        let truepath = normpath(&self.cwd, bytes);
        let ghost comps = comps_view(truepath@);
        proof {
            lemma_normpath_is_normal(cv, path.spec_bytes());
        }
        let fd = match self.get_next_fd(STARTINGFD) {
            None => return syscall_error(ENFILE),
            Some(f) => f,
        };
        let walked = fs.metawalkandparent(&truepath);
        match walked {
            (None, Some(pardirinode)) => {
                if 0 == (flags & O_CREAT) {
                    return syscall_error(ENOENT);
                }
                if S_IFCHR == (S_IFCHR & flags) {
                    return syscall_error(EINVAL);
                }
                if mode & (S_IRWXA | S_FILETYPEFLAGS as u32) != mode {
                    return syscall_error(EPERM);
                }
                let last = truepath.len() - 1;
                let filename = slice_to_vec(truepath[last].as_slice());
                let time = timestamp();
                let effective_mode = S_IFREG as u32 | mode;
                let newinode = Inode::File(
                    GenericInode {
                        size: 0,
                        uid: DEFAULT_UID,
                        gid: DEFAULT_GID,
                        mode: effective_mode,
                        linkcount: 1,
                        refcount: 1,
                        atime: time,
                        ctime: time,
                        mtime: time,
                    },
                );
                let desc = self._file_initializer(fs, 0, flags, 0);
                let ghost fs_l = fs@;
                let newinodenum = fs.alloc_inode(newinode);
                let ghost fs1 = fs@;
                let pnode = fs.take_inode(pardirinode);
                match pnode {
                    Some(Inode::Dir(mut ind)) => {
                        let ghost e0 = ind.entries();
                        dir_insert_exec(&mut ind.filename_to_inode_dict, filename, newinodenum);
                        ind.linkcount = ind.linkcount.saturating_add(1);
                        ind.ctime = time;
                        ind.mtime = time;
                        proof {
                            assert(fs1.inodes[pardirinode as int] == fsv.inodes[pardirinode as int]);
                            assert(fs1.wf());
                            assert(crate::filesystem::fits(fs1.inodes[pardirinode as int], fs1.contents[pardirinode as int]));
                            lemma_dir_insert_lookup(e0, comps.last(), newinodenum, comps.last());
                        }
                        fs.put_inode(pardirinode, Some(Inode::Dir(ind)));
                    },
                    _ => {
                        proof {
                            assert(fs1.inodes[pardirinode as int] == fsv.inodes[pardirinode as int]);
                        }
                        return syscall_error(ENOTDIR);
                    },
                }
                let desc2 = FileDesc { inode: newinodenum, ..desc };
                self.set_fd(fd, Some(FileDescriptor::File(desc2)));
                proof {
                    assert(fs.pipes@.len() == fs@.pipes.len());
                    assert(fs_old.pipes@.len() == fs_old@.pipes.len());
                    assert(fs@.pipes == fsv.pipes);
                    lemma_refs_ok_update(&self_old, self, &fs_old, fs, fd as int, Some(FileDescriptor::File(desc2)));
                    let o = open_outcome(fsv, fds0, low, comps, path.spec_bytes().len(), flags, mode);
                    assert(fs@.locks =~= o.1.locks);
                    assert(fs@.inodes =~= o.1.inodes);
                    assert(fs@.contents =~= o.1.contents);
                    assert(fs@ =~= o.1);
                    assert(self.filedescriptortable@ =~= o.2);
                }
                fd
            },
            (Some(inodenum), _) => {
                if (O_CREAT | O_EXCL) == (flags & (O_CREAT | O_EXCL)) {
                    return syscall_error(EEXIST);
                }
                if inodenum >= fs.inodetable.len() || fs.inodetable[inodenum].is_none() {
                    return syscall_error(ENOENT);
                }
                let node = fs.take_inode(inodenum);
                let size: usize;
                match node {
                    Some(Inode::File(mut f)) => {
                        proof {
                            let t = O_TRUNC;
                            assert(flags & t != 0 ==> t == (flags & t)) by (bit_vector)
                                requires
                                    t == 0o1000,
                            ;
                        }
                        if O_TRUNC == (flags & O_TRUNC) {
                            f.size = 0;
                            let latest_time = timestamp();
                            f.ctime = latest_time;
                            f.mtime = latest_time;
                            fs.set_contents(inodenum, Vec::new());
                        }
                        size = f.size;
                        f.refcount = f.refcount.saturating_add(1);
                        fs.put_inode(inodenum, Some(Inode::File(f)));
                    },
                    Some(Inode::Dir(mut d)) => {
                        size = d.size;
                        d.refcount = d.refcount.saturating_add(1);
                        fs.put_inode(inodenum, Some(Inode::Dir(d)));
                    },
                    Some(Inode::CharDev(mut d)) => {
                        size = d.size;
                        d.refcount = d.refcount.saturating_add(1);
                        fs.put_inode(inodenum, Some(Inode::CharDev(d)));
                    },
                    Some(Inode::Socket(s)) => {
                        fs.put_inode(inodenum, Some(Inode::Socket(s)));
                        assert(fs@.inodes =~= fsv.inodes);
                        assert(fs@ =~= fsv);
                        proof {
                            assert(fs.pipes@.len() == fs@.pipes.len());
                            assert(fs_old.pipes@.len() == fs_old@.pipes.len());
                            lemma_refs_ok_update(&self_old, self, &fs_old, fs, 0, self_old.fd(0));
                        }
                        return syscall_error(ENXIO);
                    },
                    None => {
                        proof {
                            assert(fsv.inodes[inodenum as int] == opt_inode_view(fs.inodetable@[inodenum as int]) || true);
                            assert(false);
                        }
                        return syscall_error(ENXIO);
                    },
                }
                let desc = self._file_initializer(fs, inodenum, flags, size);
                self.set_fd(fd, Some(FileDescriptor::File(desc)));
                proof {
                    lemma_refs_ok_update(&self_old, self, &fs_old, fs, fd as int, Some(FileDescriptor::File(desc)));
                    let o = open_outcome(fsv, fds0, low, comps, path.spec_bytes().len(), flags, mode);
                    assert(fs@.locks =~= o.1.locks);
                    assert(fs@.inodes =~= o.1.inodes);
                    assert(fs@.contents =~= o.1.contents);
                    assert(fs@ =~= o.1);
                    assert(self.filedescriptortable@ =~= o.2);
                }
                fd
            },
            (None, None) => {
                syscall_error(ENOENT)
            },
        }
    }

    /// Creates (or truncates) the file at `path` and opens it write-only.
    pub fn creat_syscall(&mut self, fs: &mut FilesystemMetadata, path: &str, mode: u32) -> (ret: i32)
        requires
            old(self).inv(old(fs)),
        ensures
            final(self).inv(final(fs)),
            same_but_fds(*old(self), *final(self)),
            ({
                let o = open_outcome(
                    old(fs)@,
                    old(self).filedescriptortable@,
                    old(self).lowest_free(0),
                    spec_normpath(old(self).cwd_view(), path.spec_bytes()),
                    path.spec_bytes().len(),
                    O_CREAT | O_TRUNC | O_WRONLY,
                    mode,
                );
                &&& ret == o.0
                &&& final(fs)@ == o.1
                &&& final(self).filedescriptortable@ == o.2
            }),
            ret >= 0 && spec_walk(old(fs)@, spec_normpath(old(self).cwd_view(), path.spec_bytes())).0 is None
                ==> made_now(old(fs), final(fs),
                    spec_walk(old(fs)@, spec_normpath(old(self).cwd_view(), path.spec_bytes())).1->Some_0 as int,
                    old(fs)@.inodes.len() as int),
            ret >= 0 && spec_walk(old(fs)@, spec_normpath(old(self).cwd_view(), path.spec_bytes())).0 is Some
                && old(fs)@.get(spec_walk(old(fs)@, spec_normpath(old(self).cwd_view(), path.spec_bytes())).0->Some_0 as int) is File
                ==> changed_now(old(fs), final(fs),
                    spec_walk(old(fs)@, spec_normpath(old(self).cwd_view(), path.spec_bytes())).0->Some_0 as int),
    {
        proof {
            let fl: i32 = O_CREAT | O_TRUNC | O_WRONLY;
            let t: i32 = O_TRUNC;
            assert(fl & t != 0) by (bit_vector)
                requires
                    fl == (0o100i32 | 0o1000i32 | 0o1i32),
                    t == 0o1000i32,
            ;
        }
        self.open_syscall(fs, path, O_CREAT | O_TRUNC | O_WRONLY, mode)
    }
}


/// Whether a directory's mode lets anyone write to it.
pub open spec fn dir_writable(mode: u32) -> bool {
    mode & (S_IWOTH | S_IWGRP | S_IWUSR) != 0
}

/// The same view with the entry `name` removed from directory `p`, whose link count drops by one.
pub open spec fn unlink_from_dir(fs: FsView, p: int, name: Seq<u8>) -> FsView {
    match fs.get(p) {
        InodeView::Dir(m, e) => fs.set(
            p,
            InodeView::Dir(InodeMeta { linkcount: sat_dec(m.linkcount), ..m }, dir_remove(e, name)),
        ),
        _ => fs,
    }
}

/// The same view with inode `n` (and its data) gone.
pub open spec fn drop_inode(fs: FsView, n: int) -> FsView {
    FsView { inodes: fs.inodes.update(n, None), contents: fs.contents.update(n, Seq::empty()), ..fs }
}

/// The same view with one more inode at the end, with empty data.
pub open spec fn push_inode(fs: FsView, iv: InodeView) -> FsView {
    FsView { inodes: fs.inodes.push(Some(iv)), contents: fs.contents.push(Seq::empty()), ..fs }
}

/// The inode of a new directory `n` inside directory `p`.
pub open spec fn new_dir_view(mode: u32, n: usize, p: usize) -> InodeView {
    InodeView::Dir(
        InodeMeta {
            size: 0,
            uid: DEFAULT_UID,
            gid: DEFAULT_GID,
            mode: (S_IFDIR as u32) | mode,
            linkcount: 3,
            refcount: 0,
        },
        seq![(seq![DOT], n), (seq![DOT, DOT], p)],
    )
}

/// What `mkdir` returns and leaves behind.
pub open spec fn mkdir_outcome(fs: FsView, comps: Seq<Seq<u8>>, pathlen: nat, mode: u32) -> (int, FsView) {
    if pathlen == 0 {
        (err(ENOENT), fs)
    } else {
        match spec_walk(fs, comps) {
            (None, None) => (err(ENOENT), fs),
            (None, Some(p)) => if !mode_sane(mode) {
                (err(EPERM), fs)
            } else {
                let n = fs.inodes.len() as usize;
                (0, link_in_dir(push_inode(fs, new_dir_view(mode, n, p)), p as int, comps.last(), n))
            },
            (Some(_), _) => (err(EEXIST), fs),
        }
    }
}

/// The times after a call that made inode `n` in directory `p`: the new inode's three times
/// are one moment (the host clock's), the directory's change and modification times are set
/// to it, and no other inode's times change.
pub open spec fn made_now(before: &FilesystemMetadata, after: &FilesystemMetadata, p: int, n: int) -> bool {
    &&& after.times(n) is Some
    &&& after.times(p) is Some && before.times(p) is Some
    &&& ({
        let x = after.times(n)->Some_0;
        let y = after.times(p)->Some_0;
        x.0 == x.1 && x.1 == x.2 && y.0 == before.times(p)->Some_0.0 && y.1 == x.1 && y.2 == x.1
    })
    &&& forall|k: int| 0 <= k < before.inodetable@.len() && k != p ==> #[trigger] after.times(k) == before.times(k)
}

/// The times after a call that changed the data of inode `n` and its state: its change and
/// modification times are one moment (the host clock's), its access time stays, and no
/// other inode's times change.
pub open spec fn changed_now(before: &FilesystemMetadata, after: &FilesystemMetadata, n: int) -> bool {
    &&& after.times(n) is Some && before.times(n) is Some
    &&& after.times(n)->Some_0.0 == before.times(n)->Some_0.0
    &&& after.times(n)->Some_0.1 == after.times(n)->Some_0.2
    &&& forall|k: int| 0 <= k < before.inodetable@.len() && k != n ==> #[trigger] after.times(k) == before.times(k)
}

/// The inode of a new character device.
pub open spec fn new_chardev_view(mode: u32, dev: u64) -> InodeView {
    InodeView::CharDev(
        InodeMeta { size: 0, uid: DEFAULT_UID, gid: DEFAULT_GID, mode, linkcount: 1, refcount: 0 },
        DevNo { major: spec_major(dev), minor: spec_minor(dev) },
    )
}

/// What `mknod` returns and leaves behind.
pub open spec fn mknod_outcome(fs: FsView, comps: Seq<Seq<u8>>, pathlen: nat, mode: u32, dev: u64) -> (int, FsView) {
    if pathlen == 0 {
        (err(ENOENT), fs)
    } else {
        match spec_walk(fs, comps) {
            (None, Some(p)) => if !mode_sane(mode) {
                (err(EPERM), fs)
            } else if (mode as i32) & S_FILETYPEFLAGS != S_IFCHR {
                (err(EINVAL), fs)
            } else {
                let n = fs.inodes.len() as usize;
                (0, link_in_dir(push_inode(fs, new_chardev_view(mode, dev)), p as int, comps.last(), n))
            },
            (Some(_), _) => (err(EEXIST), fs),
            (None, None) => (err(ENOENT), fs),
        }
    }
}

/// The same inode with one more link.
pub open spec fn with_link_inc(iv: InodeView) -> InodeView {
    match iv {
        InodeView::File(m) => InodeView::File(InodeMeta { linkcount: sat_inc(m.linkcount), ..m }),
        InodeView::CharDev(m, d) => InodeView::CharDev(InodeMeta { linkcount: sat_inc(m.linkcount), ..m }, d),
        InodeView::Socket(m) => InodeView::Socket(InodeMeta { linkcount: sat_inc(m.linkcount), ..m }),
        InodeView::Dir(m, e) => InodeView::Dir(m, e),
    }
}

/// The same inode with one link fewer.
pub open spec fn with_link_dec(iv: InodeView) -> InodeView {
    match iv {
        InodeView::File(m) => InodeView::File(InodeMeta { linkcount: sat_dec(m.linkcount), ..m }),
        InodeView::CharDev(m, d) => InodeView::CharDev(InodeMeta { linkcount: sat_dec(m.linkcount), ..m }, d),
        InodeView::Socket(m) => InodeView::Socket(InodeMeta { linkcount: sat_dec(m.linkcount), ..m }),
        InodeView::Dir(m, e) => InodeView::Dir(m, e),
    }
}

/// What `link` returns and leaves behind.
pub open spec fn link_outcome(fs: FsView, oldc: Seq<Seq<u8>>, newc: Seq<Seq<u8>>, oldlen: nat, newlen: nat) -> (int, FsView) {
    if oldlen == 0 || newlen == 0 {
        (err(ENOENT), fs)
    } else {
        match spec_walk(fs, oldc).0 {
            None => (err(ENOENT), fs),
            Some(n) => if !fs.has(n as int) {
                (err(ENOENT), fs)
            } else if fs.get(n as int).is_dir() {
                (err(EPERM), fs)
            } else {
                match spec_walk(fs, newc) {
                    (None, Some(p)) => (
                        0,
                        link_in_dir(fs.set(n as int, with_link_inc(fs.get(n as int))), p as int, newc.last(), n),
                    ),
                    (Some(_), _) => (err(EEXIST), fs),
                    (None, None) => (err(ENOENT), fs),
                }
            },
        }
    }
}

/// What `unlink` returns and leaves behind (where it succeeds, the directory's change and
/// modification times are also set to the host clock's time). A directory that may not be written keeps its
/// entries: the call fails with `EPERM` and changes nothing.
pub open spec fn unlink_outcome(fs: FsView, comps: Seq<Seq<u8>>, pathlen: nat) -> (int, FsView) {
    if pathlen == 0 {
        (err(ENOENT), fs)
    } else {
        match spec_walk(fs, comps) {
            (None, _) => (err(ENOENT), fs),
            (Some(_), None) => (err(EISDIR), fs),
            (Some(n), Some(p)) => if !fs.has(n as int) {
                (err(ENOENT), fs)
            } else if fs.get(n as int).is_dir() {
                (err(EISDIR), fs)
            } else if !dir_writable(fs.get(p as int).meta().mode) {
                (err(EPERM), fs)
            } else {
                let iv = with_link_dec(fs.get(n as int));
                let fs1 = fs.set(n as int, iv);
                let fs2 = unlink_from_dir(fs1, p as int, comps.last());
                if iv.meta().linkcount == 0 && iv.meta().refcount == 0 {
                    (0, drop_inode(fs2, n as int))
                } else {
                    (0, fs2)
                }
            },
        }
    }
}

/// What `rmdir` returns and leaves behind.
pub open spec fn rmdir_outcome(fs: FsView, comps: Seq<Seq<u8>>, pathlen: nat) -> (int, FsView) {
    if pathlen == 0 {
        (err(ENOENT), fs)
    } else {
        match spec_walk(fs, comps) {
            (None, _) => (err(ENOENT), fs),
            (Some(_), None) => (err(EBUSY), fs),
            (Some(n), Some(p)) => if !dir_writable(fs.get(p as int).meta().mode) {
                (err(EPERM), fs)
            } else if !fs.has(n as int) {
                (err(ENOENT), fs)
            } else {
                match fs.get(n as int) {
                    InodeView::Dir(m, e) => if m.linkcount > 3 {
                        (err(ENOTEMPTY), fs)
                    } else if !dir_writable(m.mode) {
                        (err(EPERM), fs)
                    } else {
                        let fs1 = unlink_from_dir(fs, p as int, comps.last());
                        if m.refcount == 0 {
                            (0, FsView { inodes: fs1.inodes.update(n as int, None), ..fs1 })
                        } else {
                            (0, mark_removed_dir(fs1, n as int))
                        }
                    },
                    _ => (err(ENOTDIR), fs),
                }
            },
        }
    }
}

/// A directory removed while still open keeps its inode with link count 2, which tells the
/// last close of it to free it.
pub open spec fn mark_removed_dir(fs: FsView, n: int) -> FsView {
    match fs.get(n) {
        InodeView::Dir(m, e) => fs.set(n, InodeView::Dir(InodeMeta { linkcount: 2, ..m }, e)),
        _ => fs,
    }
}

/// Whether `rmdir` would reach a directory whose mode does not say it is a directory (the
/// call cannot go on there).
pub open spec fn rmdir_reaches_bad_mode(fs: FsView, comps: Seq<Seq<u8>>) -> bool {
    match spec_walk(fs, comps) {
        (Some(n), Some(p)) => fs.has(n as int) && dir_writable(fs.get(p as int).meta().mode) && match fs.get(n as int) {
            InodeView::Dir(m, _) => m.linkcount <= 3 && file_type(m.mode) != S_IFDIR,
            _ => false,
        },
        _ => false,
    }
}

/// What `rename` returns and leaves behind.
pub open spec fn rename_outcome(fs: FsView, oldc: Seq<Seq<u8>>, newc: Seq<Seq<u8>>, oldlen: nat, newlen: nat) -> (int, FsView) {
    if oldlen == 0 || newlen == 0 {
        (err(ENOENT), fs)
    } else {
        match spec_walk(fs, oldc) {
            (None, _) => (err(EEXIST), fs),
            (Some(_), None) => (err(EBUSY), fs),
            (Some(n), Some(p)) => if spec_walk(fs, newc).1 != Some(p) {
                (err(EOPNOTSUPP), fs)
            } else {
                match fs.get(p as int) {
                    InodeView::Dir(m, e) => (
                        0,
                        fs.set(p as int, InodeView::Dir(m, dir_remove(dir_insert(e, newc.last(), n), oldc.last()))),
                    ),
                    _ => (0, fs),
                }
            },
        }
    }
}

/// Binds `name` to `n` in directory `p` and counts one more link there.
pub(crate) fn link_into_dir(fs: &mut FilesystemMetadata, p: usize, name: Vec<u8>, n: usize, time: Option<u64>) -> (ok: bool)
    requires
        old(fs).wf(),
        p < old(fs)@.inodes.len(),
    ensures
        final(fs).wf(),
        ok == (old(fs)@.has(p as int) && old(fs)@.get(p as int).is_dir()),
        final(fs)@ == if ok { link_in_dir(old(fs)@, p as int, name@, n) } else { old(fs)@ },
        final(fs).inodetable@.len() == old(fs).inodetable@.len(),
        forall|k: int| 0 <= k < old(fs).inodetable@.len() && k != p ==> #[trigger] final(fs).inodetable@[k] == old(fs).inodetable@[k],
        ok ==> final(fs).times(p as int) == (match time {
            Some(t) => Some((old(fs).times(p as int)->Some_0.0, t, t)),
            None => old(fs).times(p as int),
        }),
{
    let ghost fs0 = fs@;
    let node = fs.take_inode(p);
    match node {
        Some(Inode::Dir(mut d)) => {
            let ghost e0 = d.entries();
            proof {
                assert(fits(fs0.inodes[p as int], fs0.contents[p as int]));
                lemma_dir_insert_lookup(e0, name@, n, name@);
            }
            dir_insert_exec(&mut d.filename_to_inode_dict, name, n);
            d.linkcount = d.linkcount.saturating_add(1);
            match time {
                Some(t) => {
                    d.ctime = t;
                    d.mtime = t;
                },
                None => {},
            }
            fs.put_inode(p, Some(Inode::Dir(d)));
            assert(fs@ =~= link_in_dir(fs0, p as int, name@, n));
            true
        },
        other => {
            fs.put_inode(p, other);
            assert(fs@ =~= fs0);
            false
        },
    }
}

/// Sets the change and modification times of directory `p` to `t`; nothing else changes.
fn touch_dir(fs: &mut FilesystemMetadata, p: usize, t: u64)
    requires
        old(fs).wf(),
        p < old(fs)@.inodes.len(),
    ensures
        final(fs).wf(),
        final(fs)@ == old(fs)@,
        final(fs).inodetable@.len() == old(fs).inodetable@.len(),
        forall|k: int| 0 <= k < old(fs).inodetable@.len() && k != p ==> #[trigger] final(fs).inodetable@[k] == old(fs).inodetable@[k],
        old(fs).times(p as int) is Some && old(fs)@.get(p as int) is Dir ==> final(fs).times(p as int) == Some((old(fs).times(p as int)->Some_0.0, t, t)),
        !(old(fs)@.get(p as int) is Dir) ==> final(fs).times(p as int) == old(fs).times(p as int),
{
    let ghost fs0 = fs@;
    let node = fs.take_inode(p);
    match node {
        Some(Inode::Dir(mut d)) => {
            d.ctime = t;
            d.mtime = t;
            proof {
                assert(fits(fs0.inodes[p as int], fs0.contents[p as int]));
            }
            fs.put_inode(p, Some(Inode::Dir(d)));
        },
        other => {
            fs.put_inode(p, other);
        },
    }
    assert(fs@.inodes =~= fs0.inodes);
    assert(fs@ =~= fs0);
}

/// Applies `f` to the link count of inode `n` (up or down by one, saturating).
fn change_linkcount(fs: &mut FilesystemMetadata, n: usize, up: bool)
    requires
        old(fs).wf(),
        n < old(fs)@.inodes.len(),
        old(fs)@.has(n as int),
    ensures
        final(fs).wf(),
        final(fs)@ == old(fs)@.set(
            n as int,
            if up { with_link_inc(old(fs)@.get(n as int)) } else { with_link_dec(old(fs)@.get(n as int)) },
        ),
        final(fs).inodetable@.len() == old(fs).inodetable@.len(),
        forall|k: int| 0 <= k < old(fs).inodetable@.len() && k != n ==> #[trigger] final(fs).inodetable@[k] == old(fs).inodetable@[k],
{
    let ghost fs0 = fs@;
    let node = fs.take_inode(n);
    let newnode = match node {
        Some(Inode::File(mut f)) => {
            f.linkcount = if up { f.linkcount.saturating_add(1) } else { f.linkcount.saturating_sub(1) };
            Some(Inode::File(f))
        },
        Some(Inode::CharDev(mut f)) => {
            f.linkcount = if up { f.linkcount.saturating_add(1) } else { f.linkcount.saturating_sub(1) };
            Some(Inode::CharDev(f))
        },
        Some(Inode::Socket(mut f)) => {
            f.linkcount = if up { f.linkcount.saturating_add(1) } else { f.linkcount.saturating_sub(1) };
            Some(Inode::Socket(f))
        },
        other => other,
    };
    proof {
        assert(fits(fs0.inodes[n as int], fs0.contents[n as int]));
    }
    fs.put_inode(n, newnode);
    assert(fs@.inodes =~= fs0.inodes.update(n as int, Some(if up { with_link_inc(fs0.get(n as int)) } else { with_link_dec(fs0.get(n as int)) })));
    assert(fs@ =~= fs0.set(n as int, if up { with_link_inc(fs0.get(n as int)) } else { with_link_dec(fs0.get(n as int)) }));
}

/// Removes inode `n` and its data.
fn remove_inode(fs: &mut FilesystemMetadata, n: usize)
    requires
        old(fs).wf(),
        n < old(fs)@.inodes.len(),
    ensures
        final(fs).wf(),
        final(fs)@ == drop_inode(old(fs)@, n as int),
        final(fs).inodetable@.len() == old(fs).inodetable@.len(),
        forall|k: int| 0 <= k < old(fs).inodetable@.len() && k != n ==> #[trigger] final(fs).inodetable@[k] == old(fs).inodetable@[k],
{
    let ghost fs0 = fs@;
    let _gone = fs.take_inode(n);
    fs.set_contents(n, Vec::new());
    assert(fs@ =~= drop_inode(fs0, n as int));
}

impl Cage {
    /// Creates the directory `path`.
    pub fn mkdir_syscall(&self, fs: &mut FilesystemMetadata, path: &str, mode: u32) -> (ret: i32)
        requires
            self.inv(old(fs)),
        ensures
            self.inv(final(fs)),
            ({
                let o = mkdir_outcome(old(fs)@, spec_normpath(self.cwd_view(), path.spec_bytes()), path.spec_bytes().len(), mode);
                ret == o.0 && final(fs)@ == o.1
            }),
            ret == 0 ==> made_now(old(fs), final(fs),
                spec_walk(old(fs)@, spec_normpath(self.cwd_view(), path.spec_bytes())).1->Some_0 as int,
                old(fs)@.inodes.len() as int),
    {
        let ghost fs_old = *fs;
        let ghost fsv = fs@;
        let bytes = path.as_bytes();
        if bytes.len() == 0 {
            return syscall_error(ENOENT);
        }
        let truepath = normpath(&self.cwd, bytes);
        let ghost comps = comps_view(truepath@);
        match fs.metawalkandparent(&truepath) {
            (None, None) => syscall_error(ENOENT),
            (None, Some(pardirinode)) => {
                let last = truepath.len() - 1;
                let filename = slice_to_vec(truepath[last].as_slice());
                let effective_mode = S_IFDIR as u32 | mode;
                if mode & (S_IRWXA | S_FILETYPEFLAGS as u32) != mode {
                    return syscall_error(EPERM);
                }
                let newinodenum = fs.inodetable.len();
                let time = timestamp();
                let mut dict: Vec<DirEntry> = Vec::new();
                let mut dot: Vec<u8> = Vec::new();
                dot.push(DOT);
                let mut dotdot: Vec<u8> = Vec::new();
                dotdot.push(DOT);
                dotdot.push(DOT);
                assert(dot@ =~= seq![DOT]);
                assert(dotdot@ =~= seq![DOT, DOT]);
                dict.push(DirEntry { name: dot, inode: newinodenum });
                dict.push(DirEntry { name: dotdot, inode: pardirinode });
                let newinode = DirectoryInode {
                    size: 0,
                    uid: DEFAULT_UID,
                    gid: DEFAULT_GID,
                    mode: effective_mode,
                    linkcount: 3,
                    refcount: 0,
                    atime: time,
                    ctime: time,
                    mtime: time,
                    filename_to_inode_dict: dict,
                };
                proof {
                    let e = newinode.entries();
                    assert(e =~= seq![(seq![DOT], newinodenum), (seq![DOT, DOT], pardirinode)]);
                    assert(e[0].0.len() != e[1].0.len());
                }
                let n = fs.alloc_inode(Inode::Dir(newinode));
                let ok = link_into_dir(fs, pardirinode, filename, n, Some(time));
                proof {
                    assert(fs@.inodes.len() > pardirinode);
                    if !ok {
                        assert(fsv.inodes[pardirinode as int] == push_inode(fsv, new_dir_view(mode, n, pardirinode)).inodes[pardirinode as int]);
                        assert(false);
                    }
                    assert(push_inode(fsv, new_dir_view(mode, n, pardirinode)) =~= FsView {
                        inodes: fsv.inodes.push(Some(new_dir_view(mode, n, pardirinode))),
                        contents: fsv.contents.push(Seq::empty()),
                        ..fsv
                    });
                }
                0
            },
            (Some(_), _) => syscall_error(EEXIST),
        }
    }

    /// Creates the character device node `path` with device number `dev`. Only character
    /// devices are made: a mode of any other file type is refused with `EINVAL`.
    pub fn mknod_syscall(&self, fs: &mut FilesystemMetadata, path: &str, mode: u32, dev: u64) -> (ret: i32)
        requires
            self.inv(old(fs)),
        ensures
            self.inv(final(fs)),
            ({
                let o = mknod_outcome(old(fs)@, spec_normpath(self.cwd_view(), path.spec_bytes()), path.spec_bytes().len(), mode, dev);
                ret == o.0 && final(fs)@ == o.1
            }),
            ret == 0 ==> made_now(old(fs), final(fs),
                spec_walk(old(fs)@, spec_normpath(self.cwd_view(), path.spec_bytes())).1->Some_0 as int,
                old(fs)@.inodes.len() as int),
    {
        let ghost fsv = fs@;
        let bytes = path.as_bytes();
        if bytes.len() == 0 {
            return syscall_error(ENOENT);
        }
        let truepath = normpath(&self.cwd, bytes);
        match fs.metawalkandparent(&truepath) {
            (None, Some(pardirinode)) => {
                let last = truepath.len() - 1;
                let filename = slice_to_vec(truepath[last].as_slice());
                if mode & (S_IRWXA | S_FILETYPEFLAGS as u32) != mode {
                    return syscall_error(EPERM);
                }
                if mode as i32 & S_FILETYPEFLAGS != S_IFCHR {
                    return syscall_error(EINVAL);
                }
                let time = timestamp();
                let newinode = Inode::CharDev(
                    DeviceInode {
                        size: 0,
                        uid: DEFAULT_UID,
                        gid: DEFAULT_GID,
                        mode: mode,
                        linkcount: 1,
                        refcount: 0,
                        atime: time,
                        ctime: time,
                        mtime: time,
                        dev: devtuple(dev),
                    },
                );
                let n = fs.alloc_inode(newinode);
                let ok = link_into_dir(fs, pardirinode, filename, n, Some(time));
                proof {
                    if !ok {
                        assert(fsv.inodes[pardirinode as int] == push_inode(fsv, new_chardev_view(mode, dev)).inodes[pardirinode as int]);
                        assert(false);
                    }
                    assert(push_inode(fsv, new_chardev_view(mode, dev)) =~= FsView {
                        inodes: fsv.inodes.push(Some(new_chardev_view(mode, dev))),
                        contents: fsv.contents.push(Seq::empty()),
                        ..fsv
                    });
                }
                0
            },
            (Some(_), _) => syscall_error(EEXIST),
            (None, None) => syscall_error(ENOENT),
        }
    }

    /// Makes `newpath` a second name of the (non-directory) file at `oldpath`.
    pub fn link_syscall(&self, fs: &mut FilesystemMetadata, oldpath: &str, newpath: &str) -> (ret: i32)
        requires
            self.inv(old(fs)),
            newpath.spec_bytes().len() > 0 ==> spec_normpath(self.cwd_view(), newpath.spec_bytes()).len() > 0,
        ensures
            self.inv(final(fs)),
            ({
                let o = link_outcome(
                    old(fs)@,
                    spec_normpath(self.cwd_view(), oldpath.spec_bytes()),
                    spec_normpath(self.cwd_view(), newpath.spec_bytes()),
                    oldpath.spec_bytes().len(),
                    newpath.spec_bytes().len(),
                );
                ret == o.0 && final(fs)@ == o.1
            }),
    {
        let ghost fsv = fs@;
        let oldbytes = oldpath.as_bytes();
        let newbytes = newpath.as_bytes();
        if oldbytes.len() == 0 {
            return syscall_error(ENOENT);
        }
        if newbytes.len() == 0 {
            return syscall_error(ENOENT);
        }
        let trueoldpath = normpath(&self.cwd, oldbytes);
        let truenewpath = normpath(&self.cwd, newbytes);
        let last = truenewpath.len() - 1;
        let filename = slice_to_vec(truenewpath[last].as_slice());
        match fs.metawalkandparent(&trueoldpath).0 {
            None => syscall_error(ENOENT),
            Some(inodenum) => {
                if inodenum >= fs.inodetable.len() || fs.inodetable[inodenum].is_none() {
                    return syscall_error(ENOENT);
                }
                match &fs.inodetable[inodenum] {
                    Some(Inode::Dir(_)) => {
                        return syscall_error(EPERM);
                    },
                    _ => {},
                }
                match fs.metawalkandparent(&truenewpath) {
                    (None, None) => syscall_error(ENOENT),
                    (Some(_), _) => syscall_error(EEXIST),
                    (None, Some(pardirinode)) => {
                        change_linkcount(fs, inodenum, true);
                        let ghost fs1 = fs@;
                        let ok = link_into_dir(fs, pardirinode, filename, inodenum, None);
                        proof {
                            if !ok {
                                if pardirinode != inodenum {
                                    assert(fs1.inodes[pardirinode as int] == fsv.inodes[pardirinode as int]);
                                }
                                assert(false);
                            }
                        }
                        0
                    },
                }
            },
        }
    }

    /// Removes the entry at the end of `truepath` from directory `parent_inodenum`, which must
    /// let someone write to it.
    pub fn remove_from_parent_dir(fs: &mut FilesystemMetadata, parent_inodenum: usize, truepath: &Vec<Vec<u8>>) -> (ret: i32)
        requires
            old(fs).wf(),
            old(fs)@.has(parent_inodenum as int),
            old(fs)@.get(parent_inodenum as int).is_dir(),
            truepath@.len() > 0,
        ensures
            final(fs).wf(),
            if dir_writable(old(fs)@.get(parent_inodenum as int).meta().mode) {
                ret == 0 && final(fs)@ == unlink_from_dir(old(fs)@, parent_inodenum as int, truepath@.last()@)
            } else {
                ret == err(EPERM) && final(fs)@ == old(fs)@
            },
            final(fs).inodetable@.len() == old(fs).inodetable@.len(),
            forall|k: int| 0 <= k < old(fs).inodetable@.len() && k != parent_inodenum ==> #[trigger] final(fs).inodetable@[k] == old(fs).inodetable@[k],
            final(fs).times(parent_inodenum as int) == old(fs).times(parent_inodenum as int),
    {
        let ghost fs0 = fs@;
        let node = fs.take_inode(parent_inodenum);
        match node {
            Some(Inode::Dir(mut parent_dir)) => {
                if parent_dir.mode & (S_IWOTH | S_IWGRP | S_IWUSR) == 0 {
                    fs.put_inode(parent_inodenum, Some(Inode::Dir(parent_dir)));
                    assert(fs@ =~= fs0);
                    return syscall_error(EPERM);
                }
                let last = truepath.len() - 1;
                let ghost e0 = parent_dir.entries();
                proof {
                    assert(fits(fs0.inodes[parent_inodenum as int], fs0.contents[parent_inodenum as int]));
                    lemma_dir_remove_lookup(e0, truepath@[last as int]@, truepath@[last as int]@);
                }
                dir_remove_exec(&mut parent_dir.filename_to_inode_dict, truepath[last].as_slice());
                parent_dir.linkcount = parent_dir.linkcount.saturating_sub(1);
                fs.put_inode(parent_inodenum, Some(Inode::Dir(parent_dir)));
                assert(fs@ =~= unlink_from_dir(fs0, parent_inodenum as int, truepath@.last()@));
                0
            },
            other => {
                proof {
                    assert(false);
                }
                fs.put_inode(parent_inodenum, other);
                0
            },
        }
    }

    /// Removes the name `path`; the file goes when its last name and last descriptor are gone,
    /// and no socket is bound to the path any more.
    pub fn unlink_syscall(&self, fs: &mut FilesystemMetadata, net: &mut NetMetadata, path: &str) -> (ret: i32)
        requires
            self.inv(old(fs)),
            old(net).wf(),
        ensures
            self.inv(final(fs)),
            final(net).wf(),
            final(net)@ == if ret == 0 {
                NetView { paths: old(net)@.paths.remove(path_text(spec_normpath(self.cwd_view(), path.spec_bytes()))), ..old(net)@ }
            } else {
                old(net)@
            },
            ({
                let o = unlink_outcome(old(fs)@, spec_normpath(self.cwd_view(), path.spec_bytes()), path.spec_bytes().len());
                ret == o.0 && final(fs)@ == o.1
            }),
            ret == 0 ==> ({
                let p = spec_walk(old(fs)@, spec_normpath(self.cwd_view(), path.spec_bytes())).1->Some_0 as int;
                &&& final(fs).times(p) is Some && old(fs).times(p) is Some
                &&& final(fs).times(p)->Some_0.0 == old(fs).times(p)->Some_0.0
                &&& final(fs).times(p)->Some_0.1 == final(fs).times(p)->Some_0.2
            }),
    {
        let ghost fsv = fs@;
        let bytes = path.as_bytes();
        if bytes.len() == 0 {
            return syscall_error(ENOENT);
        }
        let truepath = normpath(&self.cwd, bytes);
        match fs.metawalkandparent(&truepath) {
            (None, _) => syscall_error(ENOENT),
            (Some(_), None) => syscall_error(EISDIR),
            (Some(inodenum), Some(parentinodenum)) => {
                if inodenum >= fs.inodetable.len() || fs.inodetable[inodenum].is_none() {
                    return syscall_error(ENOENT);
                }
                match &fs.inodetable[inodenum] {
                    Some(Inode::Dir(_)) => {
                        return syscall_error(EISDIR);
                    },
                    _ => {},
                }
                let parent_writable = match &fs.inodetable[parentinodenum] {
                    Some(Inode::Dir(d)) => d.mode & (S_IWOTH | S_IWGRP | S_IWUSR) != 0,
                    _ => true,
                };
                if !parent_writable {
                    return syscall_error(EPERM);
                }
                change_linkcount(fs, inodenum, false);
                let (currefcount, curlinkcount) = match &fs.inodetable[inodenum] {
                    Some(Inode::File(f)) => (f.refcount, f.linkcount),
                    Some(Inode::CharDev(f)) => (f.refcount, f.linkcount),
                    Some(Inode::Socket(f)) => (f.refcount, f.linkcount),
                    _ => (1, 1),
                };
                let ghost fs1 = fs@;
                proof {
                    assert(fs1.inodes[inodenum as int] == opt_inode_view(fs.inodetable@[inodenum as int]));
                    if parentinodenum != inodenum {
                        assert(fs1.inodes[parentinodenum as int] == fsv.inodes[parentinodenum as int]);
                    }
                }
                let removal_result = Self::remove_from_parent_dir(fs, parentinodenum, &truepath);
                if removal_result != 0 {
                    return removal_result;
                }
                let time = timestamp();
                touch_dir(fs, parentinodenum, time);
                if curlinkcount == 0 && currefcount == 0 {
                    remove_inode(fs, inodenum);
                }
                let key = path_to_bytes(&truepath);
                net.remove_path(&key);
                0
            },
        }
    }

    /// Removes the empty directory `path`. One that is still open stays, with link count 2,
    /// until its last close frees it.
    pub fn rmdir_syscall(&self, fs: &mut FilesystemMetadata, path: &str) -> (ret: i32)
        requires
            self.inv(old(fs)),
            !rmdir_reaches_bad_mode(old(fs)@, spec_normpath(self.cwd_view(), path.spec_bytes())),
        ensures
            self.inv(final(fs)),
            ({
                let o = rmdir_outcome(old(fs)@, spec_normpath(self.cwd_view(), path.spec_bytes()), path.spec_bytes().len());
                ret == o.0 && final(fs)@ == o.1
            }),
    {
        let ghost fsv = fs@;
        let bytes = path.as_bytes();
        if bytes.len() == 0 {
            return syscall_error(ENOENT);
        }
        let truepath = normpath(&self.cwd, bytes);
        match fs.metawalkandparent(&truepath) {
            (None, _) => syscall_error(ENOENT),
            (Some(_), None) => syscall_error(EBUSY),
            (Some(inodenum), Some(parent_inodenum)) => {
                match &fs.inodetable[parent_inodenum] {
                    Some(Inode::Dir(parent_dir)) => {
                        if parent_dir.mode & (S_IWOTH | S_IWGRP | S_IWUSR) == 0 {
                            return syscall_error(EPERM);
                        }
                    },
                    _ => {
                        proof {
                            assert(false);
                        }
                    },
                }
                if inodenum >= fs.inodetable.len() || fs.inodetable[inodenum].is_none() {
                    return syscall_error(ENOENT);
                }
                let (linkcount, mode, refcount) = match &fs.inodetable[inodenum] {
                    Some(Inode::Dir(d)) => (d.linkcount, d.mode, d.refcount),
                    _ => {
                        return syscall_error(ENOTDIR);
                    },
                };
                if linkcount > 3 {
                    return syscall_error(ENOTEMPTY);
                }
                if !is_dir(mode) {
                    proof {
                        assert(false);
                    }
                    return syscall_error(ENOTDIR);
                }
                if mode & (S_IWOTH | S_IWGRP | S_IWUSR) == 0 {
                    return syscall_error(EPERM);
                }
                let remove_inode_now = refcount == 0;
                let removal_result = Self::remove_from_parent_dir(fs, parent_inodenum, &truepath);
                if removal_result != 0 {
                    return removal_result;
                }
                let ghost fs1 = fs@;
                if remove_inode_now {
                    let _gone = fs.take_inode(inodenum);
                    assert(fs@ =~= FsView { inodes: fs1.inodes.update(inodenum as int, None), ..fs1 });
                } else {
                    let t = fs.take_inode(inodenum);
                    match t {
                        Some(Inode::Dir(mut d)) => {
                            d.linkcount = 2;
                            fs.put_inode(inodenum, Some(Inode::Dir(d)));
                        },
                        other => {
                            fs.put_inode(inodenum, other);
                        },
                    }
                    assert(fs@ =~= mark_removed_dir(fs1, inodenum as int));
                }
                0
            },
        }
    }

    /// Renames `oldpath` to `newpath` inside the same directory; the new path is recorded as
    /// a bound socket path in place of the old one.
    pub fn rename_syscall(&self, fs: &mut FilesystemMetadata, net: &mut NetMetadata, oldpath: &str, newpath: &str) -> (ret: i32)
        requires
            self.inv(old(fs)),
            old(net).wf(),
        ensures
            self.inv(final(fs)),
            final(net).wf(),
            final(net)@ == if ret == 0 {
                NetView {
                    paths: old(net)@.paths.insert(path_text(spec_normpath(self.cwd_view(), newpath.spec_bytes())))
                        .remove(path_text(spec_normpath(self.cwd_view(), oldpath.spec_bytes()))),
                    ..old(net)@
                }
            } else {
                old(net)@
            },
            ({
                let o = rename_outcome(
                    old(fs)@,
                    spec_normpath(self.cwd_view(), oldpath.spec_bytes()),
                    spec_normpath(self.cwd_view(), newpath.spec_bytes()),
                    oldpath.spec_bytes().len(),
                    newpath.spec_bytes().len(),
                );
                ret == o.0 && final(fs)@ == o.1
            }),
    {
        let ghost fsv = fs@;
        let oldbytes = oldpath.as_bytes();
        let newbytes = newpath.as_bytes();
        if oldbytes.len() == 0 {
            return syscall_error(ENOENT);
        }
        if newbytes.len() == 0 {
            return syscall_error(ENOENT);
        }
        let true_oldpath = normpath(&self.cwd, oldbytes);
        let true_newpath = normpath(&self.cwd, newbytes);
        match fs.metawalkandparent(&true_oldpath) {
            (None, _) => syscall_error(EEXIST),
            (Some(_), None) => syscall_error(EBUSY),
            (Some(inodenum), Some(parent_inodenum)) => {
                let (_, new_par_inodenum) = fs.metawalkandparent(&true_newpath);
                if new_par_inodenum != Some(parent_inodenum) {
                    return syscall_error(EOPNOTSUPP);
                }
                let newlast = true_newpath.len() - 1;
                let oldlast = true_oldpath.len() - 1;
                let newname = slice_to_vec(true_newpath[newlast].as_slice());
                let node = fs.take_inode(parent_inodenum);
                match node {
                    Some(Inode::Dir(mut parent_dir)) => {
                        let ghost e0 = parent_dir.entries();
                        let ghost nn = newname@;
                        proof {
                            assert(fits(fsv.inodes[parent_inodenum as int], fsv.contents[parent_inodenum as int]));
                            lemma_dir_insert_lookup(e0, nn, inodenum, nn);
                            lemma_dir_remove_lookup(dir_insert(e0, nn, inodenum), true_oldpath@[oldlast as int]@, nn);
                        }
                        dir_insert_exec(&mut parent_dir.filename_to_inode_dict, newname, inodenum);
                        dir_remove_exec(&mut parent_dir.filename_to_inode_dict, true_oldpath[oldlast].as_slice());
                        fs.put_inode(parent_inodenum, Some(Inode::Dir(parent_dir)));
                    },
                    other => {
                        fs.put_inode(parent_inodenum, other);
                    },
                }
                proof {
                    let o = rename_outcome(
                        fsv,
                        comps_view(true_oldpath@),
                        comps_view(true_newpath@),
                        oldpath.spec_bytes().len(),
                        newpath.spec_bytes().len(),
                    );
                    assert(fs@.inodes =~= o.1.inodes);
                    assert(fs@ =~= o.1);
                }
                let newkey = path_to_bytes(&true_newpath);
                let oldkey = path_to_bytes(&true_oldpath);
                net.add_path(newkey);
                net.remove_path(&oldkey);
                0
            },
        }
    }
}

} // verus!
