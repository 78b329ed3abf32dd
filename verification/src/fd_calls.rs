//! Calls on the descriptor table: `close`, `dup`, `dup2`, `fcntl`, `ioctl`, `flock`, the
//! sync calls, `pipe`, `getdents` and `getcwd`.
use vstd::prelude::*;
use crate::errno::{
    err, syscall_error, EBADF, EACCES, ENFILE, EINVAL, ENOTTY, EAGAIN, EROFS, ESPIPE, ENOTDIR, ERANGE,
    EFAULT,
};
use crate::fs_constants::{
    MAXFD, STARTINGFD, O_CLOEXEC, O_RDWRFLAGS, O_CREAT, O_EXCL, O_NOCTTY, O_TRUNC, O_NONBLOCK,
    O_RDONLY, O_WRONLY, F_DUPFD, F_GETFD, F_SETFD, F_GETFL, F_SETFL, F_GETOWN, F_SETOWN, LOCK_SH,
    LOCK_EX, LOCK_UN, LOCK_NB, spec_is_rdonly, is_rdonly,
};
use crate::filesystem::{
    FilesystemMetadata, FsView, Inode, InodeView, InodeMeta, AdvisoryLock, PipeView, sat_dec,
    sat_inc, fits, socket_pipes_ok,
};
use crate::cage::{Cage, FileDescriptor, FileDesc, PipeDesc, same_but_fds, lemma_refs_ok_update, desc_ok, seq_lowest_free};
use crate::path::comps_view;
use crate::pipe::{pipe_decr, pipe_incr, new_pipe_view};
use crate::net::{SocketHandle, UnixSocketInfo, AF_UNIX};
use crate::path::{path_to_bytes, path_text};
use crate::filesystem::DirEntry;
use crate::fs_io::zeros;
use crate::path::spec_normpath;
use crate::unix_net::{NetMetadata, NetView, sun_path, sun_path_exec};

verus! {

/// What closing an open regular file, directory or device does to inode `n`.
pub open spec fn close_file_effect(fs: FsView, n: int) -> FsView {
    if !fs.has(n) {
        fs
    } else {
        match fs.get(n) {
            InodeView::File(m) => {
                let m2 = InodeMeta { refcount: sat_dec(m.refcount), ..m };
                if m2.refcount == 0 && m.linkcount == 0 {
                    FsView { inodes: fs.inodes.update(n, None), contents: fs.contents.update(n, Seq::empty()), ..fs }
                } else {
                    fs.set(n, InodeView::File(m2))
                }
            },
            InodeView::Dir(m, e) => {
                let m2 = InodeMeta { refcount: sat_dec(m.refcount), ..m };
                if m.linkcount == 2 && m2.refcount == 0 {
                    FsView { inodes: fs.inodes.update(n, None), ..fs }
                } else {
                    fs.set(n, InodeView::Dir(m2, e))
                }
            },
            InodeView::CharDev(m, d) => {
                let m2 = InodeMeta { refcount: sat_dec(m.refcount), ..m };
                if m.linkcount == 0 && m2.refcount == 0 {
                    FsView { inodes: fs.inodes.update(n, None), ..fs }
                } else {
                    fs.set(n, InodeView::CharDev(m2, d))
                }
            },
            InodeView::Socket(_) => fs,
        }
    }
}

/// A pipe end let go of: the pipe loses an end of that kind, and a pipe with no end left is
/// dropped from the socket.
pub open spec fn release_pipe(fs: FsView, p: Option<usize>, flags: i32) -> (FsView, Option<usize>) {
    match p {
        None => (fs, None),
        Some(i) => {
            let pv = pipe_decr(fs.pipes[i as int], flags);
            let fs1 = FilesystemMetadata::with_pipe(fs, i as int, pv);
            (fs1, if pv.refcount_read == 0 && pv.refcount_write == 0 { None } else { Some(i) })
        },
    }
}

/// What closing a descriptor of socket handle `h` does.
pub open spec fn close_socket_effect(fs: FsView, h: int) -> FsView {
    let sh = fs.sockets[h];
    match sh.unix_info {
        None => fs,
        Some(ui) => {
            let (fs1, sp) = release_pipe(fs, ui.sendpipe, O_WRONLY);
            let (fs2, rp) = release_pipe(fs1, ui.receivepipe, O_RDONLY);
            let fs3 = FsView {
                sockets: fs2.sockets.update(
                    h,
                    SocketHandle { unix_info: Some(UnixSocketInfo { sendpipe: sp, receivepipe: rp, ..ui }), ..sh },
                ),
                ..fs2
            };
            if fs3.has(ui.inode as int) {
                match fs3.get(ui.inode as int) {
                    InodeView::Socket(m) => {
                        let m2 = InodeMeta { refcount: sat_dec(m.refcount), ..m };
                        if m2.refcount == 0 && m.linkcount == 0 {
                            FsView { inodes: fs3.inodes.update(ui.inode as int, None), ..fs3 }
                        } else {
                            fs3.set(ui.inode as int, InodeView::Socket(m2))
                        }
                    },
                    _ => fs3,
                }
            } else {
                fs3
            }
        },
    }
}

/// What closing descriptor `d` does to the bound socket paths: closing the last descriptor of
/// a unix socket whose file has no name left lets go of its path (normalized against `cwd`).
pub open spec fn close_net_effect(fs: FsView, net: NetView, cwd: Seq<Seq<u8>>, d: Option<FileDescriptor>) -> NetView {
    match d {
        Some(FileDescriptor::Socket(s)) => {
            let sh = fs.sockets[s.handle as int];
            match sh.unix_info {
                Some(ui) => if fs.has(ui.inode as int) && (fs.get(ui.inode as int) matches InodeView::Socket(m)
                    && sat_dec(m.refcount) == 0 && m.linkcount == 0) {
                    NetView { paths: net.paths.remove(path_text(spec_normpath(cwd, sun_path(sh.localaddr->Some_0)))), ..net }
                } else {
                    net
                },
                None => net,
            }
        },
        _ => net,
    }
}

/// What letting go of descriptor `d` returns and does to the shared state.
pub open spec fn close_inner_outcome(fs: FsView, d: Option<FileDescriptor>) -> (int, FsView) {
    match d {
        None => (err(EBADF), fs),
        Some(FileDescriptor::Stream(_)) => (0, fs),
        Some(FileDescriptor::Epoll(_)) => (0, fs),
        Some(FileDescriptor::Pipe(p)) => (
            0,
            FilesystemMetadata::with_pipe(fs, p.pipe as int, pipe_decr(fs.pipes[p.pipe as int], p.flags)),
        ),
        Some(FileDescriptor::Socket(s)) => (0, close_socket_effect(fs, s.handle as int)),
        Some(FileDescriptor::File(f)) => (0, close_file_effect(fs, f.inode as int)),
    }
}

/// Lets go of pipe end `p` of a socket.
fn release_pipe_exec(fs: &mut FilesystemMetadata, p: Option<usize>, flags: i32) -> (r: Option<usize>)
    requires
        old(fs).wf(),
        p matches Some(i) ==> i < old(fs)@.pipes.len(),
    ensures
        final(fs).wf(),
        (final(fs)@, r) == release_pipe(old(fs)@, p, flags),
        r matches Some(i) ==> i < final(fs)@.pipes.len(),
{
    match p {
        None => None,
        Some(i) => {
            fs.pipe_decr_ref(i, flags);
            if fs.is_pipe_closed(i) {
                None
            } else {
                Some(i)
            }
        },
    }
}

/// Closes the open file behind inode `n`.
fn close_file_exec(fs: &mut FilesystemMetadata, n: usize)
    requires
        old(fs).wf(),
    ensures
        final(fs).wf(),
        final(fs)@ == close_file_effect(old(fs)@, n as int),
{
    let ghost fs0 = fs@;
    if n >= fs.inodetable.len() || fs.inodetable[n].is_none() {
        return;
    }
    let node = fs.take_inode(n);
    proof {
        assert(fits(fs0.inodes[n as int], fs0.contents[n as int]));
    }
    match node {
        Some(Inode::File(mut f)) => {
            f.refcount = f.refcount.saturating_sub(1);
            if f.refcount == 0 && f.linkcount == 0 {
                fs.set_contents(n, Vec::new());
            } else {
                fs.put_inode(n, Some(Inode::File(f)));
            }
        },
        Some(Inode::Dir(mut d)) => {
            d.refcount = d.refcount.saturating_sub(1);
            if d.linkcount == 2 && d.refcount == 0 {
            } else {
                fs.put_inode(n, Some(Inode::Dir(d)));
            }
        },
        Some(Inode::CharDev(mut d)) => {
            d.refcount = d.refcount.saturating_sub(1);
            if d.linkcount == 0 && d.refcount == 0 {
            } else {
                fs.put_inode(n, Some(Inode::CharDev(d)));
            }
        },
        other => {
            fs.put_inode(n, other);
        },
    }
    proof {
        let o = close_file_effect(fs0, n as int);
        assert(fs@.inodes =~= o.inodes);
        assert(fs@.contents =~= o.contents);
        assert(fs@ =~= o);
    }
}

/// Closes one descriptor of socket handle `h`.
fn close_socket_exec(fs: &mut FilesystemMetadata, h: usize)
    requires
        old(fs).wf(),
        h < old(fs)@.sockets.len(),
    ensures
        final(fs).wf(),
        final(fs)@ == close_socket_effect(old(fs)@, h as int),
{
    let ghost fs0 = fs@;
    let sh = fs.sockets[h];
    match sh.unix_info {
        None => {},
        Some(ui) => {
            proof {
                assert(socket_pipes_ok(fs0.sockets[h as int], fs0.pipes.len()));
            }
            let sp = release_pipe_exec(fs, ui.sendpipe, O_WRONLY);
            let rp = release_pipe_exec(fs, ui.receivepipe, O_RDONLY);
            fs.set_socket(h, SocketHandle { unix_info: Some(UnixSocketInfo { sendpipe: sp, receivepipe: rp, ..ui }), ..sh });
            let n = ui.inode;
            if n < fs.inodetable.len() && fs.inodetable[n].is_some() {
                let ghost fs3 = fs@;
                let node = fs.take_inode(n);
                match node {
                    Some(Inode::Socket(mut s)) => {
                        let linkcount = s.linkcount;
                        s.refcount = s.refcount.saturating_sub(1);
                        if s.refcount == 0 && linkcount == 0 {
                        } else {
                            fs.put_inode(n, Some(Inode::Socket(s)));
                        }
                    },
                    other => {
                        proof {
                            assert(fits(fs3.inodes[n as int], fs3.contents[n as int]));
                        }
                        fs.put_inode(n, other);
                    },
                }
                proof {
                    assert(fs@.inodes =~= close_socket_effect(fs0, h as int).inodes);
                }
            }
        },
    }
    assert(fs@ =~= close_socket_effect(fs0, h as int));
}

impl Cage {
    /// Lets go of what the descriptor at `fd` holds, leaving the descriptor itself in place.
    pub fn _close_helper_inner(&self, fs: &mut FilesystemMetadata, fd: i32) -> (ret: i32)
        requires
            self.inv(old(fs)),
            0 <= fd < MAXFD,
        ensures
            self.inv(final(fs)),
            ({
                let o = close_inner_outcome(old(fs)@, self.fd(fd as int));
                ret == o.0 && final(fs)@ == o.1
            }),
    {
        let ghost fs_old = *fs;
        proof {
            assert(desc_ok(self.fd(fd as int), fs@.locks.len(), fs@.pipes.len(), fs@.sockets.len(), self.epoll_table@.len()));
        }
        let r = match self.get_fd(fd) {
            None => syscall_error(EBADF),
            Some(FileDescriptor::Stream(_)) => 0,
            Some(FileDescriptor::Epoll(_)) => 0,
            Some(FileDescriptor::Pipe(p)) => {
                fs.pipe_decr_ref(p.pipe, p.flags);
                0
            },
            Some(FileDescriptor::Socket(s)) => {
                close_socket_exec(fs, s.handle);
                0
            },
            Some(FileDescriptor::File(f)) => {
                close_file_exec(fs, f.inode);
                0
            },
        };
        proof {
            lemma_refs_ok_update(self, self, &fs_old, fs, 0, self.fd(0));
        }
        r
    }

    /// Closes descriptor `fd`: lets go of what it holds and frees the number.
    pub fn _close_helper(&mut self, fs: &mut FilesystemMetadata, fd: i32) -> (ret: i32)
        requires
            old(self).inv(old(fs)),
            0 <= fd < MAXFD,
        ensures
            final(self).inv(final(fs)),
            same_but_fds(*old(self), *final(self)),
            ({
                let o = close_inner_outcome(old(fs)@, old(self).fd(fd as int));
                &&& ret == o.0
                &&& final(fs)@ == o.1
                &&& final(self).filedescriptortable@ == if o.0 < 0 {
                    old(self).filedescriptortable@
                } else {
                    old(self).filedescriptortable@.update(fd as int, None)
                }
            }),
    {
        let ghost fs_old = *fs;
        let ghost self_old = *self;
        let inner_result = self._close_helper_inner(fs, fd);
        if inner_result < 0 {
            return inner_result;
        }
        self.set_fd(fd, None);
        proof {
            lemma_refs_ok_update(&self_old, self, fs, fs, fd as int, None);
        }
        0
    }

    /// Lets go of the bound path of the unix socket at `fd` where closing the descriptor
    /// lets go of its socket file.
    pub(crate) fn release_socket_path(&self, fs: &FilesystemMetadata, net: &mut NetMetadata, fd: i32)
        requires
            self.inv(fs),
            old(net).wf(),
            0 <= fd < MAXFD,
        ensures
            final(net).wf(),
            final(net)@ == close_net_effect(fs@, old(net)@, self.cwd_view(), self.fd(fd as int)),
    {
        match self.get_fd(fd) {
            Some(FileDescriptor::Socket(s)) => {
                proof {
                    assert(desc_ok(self.fd(fd as int), fs@.locks.len(), fs@.pipes.len(), fs@.sockets.len(), self.epoll_table@.len()));
                    assert(socket_pipes_ok(fs@.sockets[s.handle as int], fs@.pipes.len()));
                }
                let sh = fs.sockets[s.handle];
                match sh.unix_info {
                    Some(ui) => {
                        let n = ui.inode;
                        if n < fs.inodetable.len() {
                            proof {
                                assert(fs@.inodes[n as int] == crate::filesystem::opt_inode_view(fs.inodetable@[n as int]));
                            }
                            match &fs.inodetable[n] {
                                Some(Inode::Socket(si)) => {
                                    if si.refcount <= 1 && si.linkcount == 0 {
                                        let la = match sh.localaddr {
                                            Some(a) => a,
                                            None => {
                                                proof {
                                                    assert(false);
                                                }
                                                return;
                                            },
                                        };
                                        let p = sun_path_exec(&la);
                                        let t = crate::path::normpath(&self.cwd, p.as_slice());
                                        let key = path_to_bytes(&t);
                                        net.remove_path(&key);
                                    }
                                },
                                _ => {},
                            }
                        }
                    },
                    None => {},
                }
            },
            _ => {},
        }
    }

    /// Closes descriptor `fd`; the last descriptor of a unix socket whose file has no name
    /// left lets go of its bound path.
    pub fn close_syscall(&mut self, fs: &mut FilesystemMetadata, net: &mut NetMetadata, fd: i32) -> (ret: i32)
        requires
            old(self).inv(old(fs)),
            old(net).wf(),
            0 <= fd < MAXFD,
        ensures
            final(self).inv(final(fs)),
            final(net).wf(),
            same_but_fds(*old(self), *final(self)),
            final(net)@ == close_net_effect(old(fs)@, old(net)@, old(self).cwd_view(), old(self).fd(fd as int)),
            ({
                let o = close_inner_outcome(old(fs)@, old(self).fd(fd as int));
                &&& ret == o.0
                &&& final(fs)@ == o.1
                &&& final(self).filedescriptortable@ == if o.0 < 0 {
                    old(self).filedescriptortable@
                } else {
                    old(self).filedescriptortable@.update(fd as int, None)
                }
            }),
    {
        self.release_socket_path(fs, net, fd);
        self._close_helper(fs, fd)
    }
}


/// A pipe end of a socket taken once more.
pub open spec fn hold_pipe(fs: FsView, p: Option<usize>, flags: i32) -> FsView {
    match p {
        None => fs,
        Some(i) => FilesystemMetadata::with_pipe(fs, i as int, pipe_incr(fs.pipes[i as int], flags)),
    }
}

/// What duplicating descriptor `d` does to the shared state; `None` for a descriptor that
/// cannot be duplicated.
pub open spec fn dup_effect(fs: FsView, d: FileDescriptor) -> Option<FsView> {
    match d {
        FileDescriptor::File(f) => Some(
            if !fs.has(f.inode as int) {
                fs
            } else {
                match fs.get(f.inode as int) {
                    InodeView::File(m) => fs.set(f.inode as int, InodeView::File(InodeMeta { refcount: sat_inc(m.refcount), ..m })),
                    InodeView::Dir(m, e) => fs.set(f.inode as int, InodeView::Dir(InodeMeta { refcount: sat_inc(m.refcount), ..m }, e)),
                    InodeView::CharDev(m, dv) => fs.set(f.inode as int, InodeView::CharDev(InodeMeta { refcount: sat_inc(m.refcount), ..m }, dv)),
                    InodeView::Socket(_) => fs,
                }
            },
        ),
        FileDescriptor::Pipe(p) => Some(FilesystemMetadata::with_pipe(fs, p.pipe as int, pipe_incr(fs.pipes[p.pipe as int], p.flags))),
        FileDescriptor::Socket(s) => {
            let h = fs.sockets[s.handle as int];
            Some(
                if h.domain == AF_UNIX {
                    match h.unix_info {
                        Some(ui) => hold_pipe(hold_pipe(fs, ui.sendpipe, O_WRONLY), ui.receivepipe, O_RDONLY),
                        None => fs,
                    }
                } else {
                    fs
                },
            )
        },
        FileDescriptor::Stream(_) => Some(fs),
        FileDescriptor::Epoll(_) => None,
    }
}

/// What `_dup2_helper` returns and leaves behind.
pub open spec fn dup_outcome(
    fs: FsView,
    fds: Seq<Option<FileDescriptor>>,
    lowest: Option<i32>,
    d: FileDescriptor,
    newfd: i32,
    fromdup2: bool,
) -> (int, FsView, Seq<Option<FileDescriptor>>) {
    let fs1 = if fromdup2 && fds[newfd as int] is Some {
        close_inner_outcome(fs, fds[newfd as int]).1
    } else {
        fs
    };
    if !fromdup2 && lowest is None {
        (err(ENFILE), fs, fds)
    } else {
        let dupfd = if fromdup2 { newfd } else { lowest->Some_0 };
        match dup_effect(fs1, d) {
            None => (err(EACCES), fs1, fds),
            Some(fs2) => (dupfd as int, fs2, fds.update(dupfd as int, Some(d.with_flags(d.flags() & !O_CLOEXEC)))),
        }
    }
}

/// Takes pipe end `p` of a socket once more.
pub(crate) fn hold_pipe_exec(fs: &mut FilesystemMetadata, p: Option<usize>, flags: i32)
    requires
        old(fs).wf(),
        p matches Some(i) ==> i < old(fs)@.pipes.len(),
    ensures
        final(fs).wf(),
        final(fs)@ == hold_pipe(old(fs)@, p, flags),
        final(fs)@.pipes.len() == old(fs)@.pipes.len(),
{
    match p {
        None => {},
        Some(i) => {
            fs.pipe_incr_ref(i, flags);
        },
    }
}

/// Applies the effect of duplicating `d`.
pub(crate) fn dup_effect_exec(fs: &mut FilesystemMetadata, d: FileDescriptor) -> (ok: bool)
    requires
        old(fs).wf(),
        d matches FileDescriptor::Pipe(p) ==> p.pipe < old(fs)@.pipes.len(),
        d matches FileDescriptor::Socket(s) ==> s.handle < old(fs)@.sockets.len(),
    ensures
        final(fs).wf(),
        match dup_effect(old(fs)@, d) {
            None => !ok && final(fs)@ == old(fs)@,
            Some(v) => ok && final(fs)@ == v,
        },
{
    let ghost fs0 = fs@;
    match d {
        FileDescriptor::File(f) => {
            let n = f.inode;
            if n < fs.inodetable.len() && fs.inodetable[n].is_some() {
                let node = fs.take_inode(n);
                proof {
                    assert(fits(fs0.inodes[n as int], fs0.contents[n as int]));
                }
                let newnode = match node {
                    Some(Inode::File(mut x)) => {
                        x.refcount = x.refcount.saturating_add(1);
                        Some(Inode::File(x))
                    },
                    Some(Inode::Dir(mut x)) => {
                        x.refcount = x.refcount.saturating_add(1);
                        Some(Inode::Dir(x))
                    },
                    Some(Inode::CharDev(mut x)) => {
                        x.refcount = x.refcount.saturating_add(1);
                        Some(Inode::CharDev(x))
                    },
                    other => other,
                };
                fs.put_inode(n, newnode);
                proof {
                    let v = dup_effect(fs0, d)->Some_0;
                    assert(fs@.inodes =~= v.inodes);
                    assert(fs@ =~= v);
                }
            }
            true
        },
        FileDescriptor::Pipe(p) => {
            fs.pipe_incr_ref(p.pipe, p.flags);
            true
        },
        FileDescriptor::Socket(s) => {
            let h = fs.sockets[s.handle];
            proof {
                assert(socket_pipes_ok(fs0.sockets[s.handle as int], fs0.pipes.len()));
            }
            if h.domain == AF_UNIX {
                match h.unix_info {
                    Some(ui) => {
                        hold_pipe_exec(fs, ui.sendpipe, O_WRONLY);
                        hold_pipe_exec(fs, ui.receivepipe, O_RDONLY);
                    },
                    None => {},
                }
            }
            true
        },
        FileDescriptor::Stream(_) => true,
        FileDescriptor::Epoll(_) => false,
    }
}

/// Clears the close-on-exec flag of a descriptor.
fn clear_cloexec(d: FileDescriptor) -> (r: FileDescriptor)
    ensures
        r == d.with_flags(d.flags() & !O_CLOEXEC),
{
    let fl = d.get_flags();
    d.set_flags(fl & !O_CLOEXEC)
}

impl Cage {
    /// Puts a duplicate of `filedesc_enum` at `newfd` (closing what was there) when called
    /// for `dup2`, else at the lowest free number at or above `newfd`.
    #[verifier::rlimit(40)]
    pub fn _dup2_helper(&mut self, fs: &mut FilesystemMetadata, filedesc_enum: FileDescriptor, newfd: i32, fromdup2: bool) -> (ret: i32)
        requires
            old(self).inv(old(fs)),
            0 <= newfd,
            fromdup2 ==> newfd < MAXFD,
            desc_ok(Some(filedesc_enum), old(fs)@.locks.len(), old(fs)@.pipes.len(), old(fs)@.sockets.len(), old(self).epoll_table@.len()),
        ensures
            final(self).inv(final(fs)),
            same_but_fds(*old(self), *final(self)),
            ({
                let o = dup_outcome(old(fs)@, old(self).filedescriptortable@, old(self).lowest_free(newfd as int), filedesc_enum, newfd, fromdup2);
                &&& ret == o.0
                &&& final(fs)@ == o.1
                &&& final(self).filedescriptortable@ == o.2
            }),
    {
        let ghost fs_old = *fs;
        let ghost self_old = *self;
        let dupfd: i32;
        if fromdup2 {
            if self.filedescriptortable[newfd as usize].is_some() {
                let _close_result = self._close_helper_inner(fs, newfd);
            }
            dupfd = newfd;
        } else {
            match self.get_next_fd(newfd) {
                None => {
                    return syscall_error(ENFILE);
                },
                Some(f) => {
                    dupfd = f;
                },
            }
        }
        let ghost fs1 = *fs;
        let ok = dup_effect_exec(fs, filedesc_enum);
        if !ok {
            return syscall_error(EACCES);
        }
        let dupd = clear_cloexec(filedesc_enum);
        self.set_fd(dupfd, Some(dupd));
        proof {
            lemma_refs_ok_update(&self_old, self, &fs_old, fs, dupfd as int, Some(dupd));
        }
        dupfd
    }

    /// Duplicates `fd` onto the lowest free number at or above `start_desc` (0 when absent).
    pub fn dup_syscall(&mut self, fs: &mut FilesystemMetadata, fd: i32, start_desc: Option<i32>) -> (ret: i32)
        requires
            old(self).inv(old(fs)),
            start_desc matches Some(s) ==> s >= 0,
        ensures
            final(self).inv(final(fs)),
            same_but_fds(*old(self), *final(self)),
            ({
                let start = match start_desc { Some(s) => s, None => STARTINGFD };
                if start == fd {
                    ret == start && final(fs)@ == old(fs)@ && *final(self) == *old(self)
                } else if fd < 0 || fd >= MAXFD || old(self).fd(fd as int) is None {
                    ret == err(EBADF) && final(fs)@ == old(fs)@ && *final(self) == *old(self)
                } else {
                    let o = dup_outcome(old(fs)@, old(self).filedescriptortable@, old(self).lowest_free(start as int),
                        old(self).fd(fd as int)->Some_0, start, false);
                    &&& ret == o.0
                    &&& final(fs)@ == o.1
                    &&& final(self).filedescriptortable@ == o.2
                }
            }),
    {
        let start_fd = match start_desc {
            Some(s) => s,
            None => STARTINGFD,
        };
        if start_fd == fd {
            return start_fd;
        }
        if fd < 0 || fd >= MAXFD {
            return syscall_error(EBADF);
        }
        match self.get_fd(fd) {
            None => syscall_error(EBADF),
            Some(d) => {
                proof {
                    assert(desc_ok(self.fd(fd as int), fs@.locks.len(), fs@.pipes.len(), fs@.sockets.len(), self.epoll_table@.len()));
                }
                self._dup2_helper(fs, d, start_fd, false)
            },
        }
    }

    /// Makes `newfd` a duplicate of `oldfd`, closing what `newfd` held (with what closing does
    /// to a unix socket's bound path).
    pub fn dup2_syscall(&mut self, fs: &mut FilesystemMetadata, net: &mut NetMetadata, oldfd: i32, newfd: i32) -> (ret: i32)
        requires
            old(self).inv(old(fs)),
            old(net).wf(),
        ensures
            final(self).inv(final(fs)),
            final(net).wf(),
            same_but_fds(*old(self), *final(self)),
            final(net)@ == if 0 <= newfd < MAXFD && newfd != oldfd && 0 <= oldfd < MAXFD && old(self).fd(oldfd as int) is Some {
                close_net_effect(old(fs)@, old(net)@, old(self).cwd_view(), old(self).fd(newfd as int))
            } else {
                old(net)@
            },
            if newfd >= MAXFD || newfd < 0 {
                ret == err(EBADF) && final(fs)@ == old(fs)@ && *final(self) == *old(self)
            } else if newfd == oldfd {
                ret == newfd && final(fs)@ == old(fs)@ && *final(self) == *old(self)
            } else if oldfd < 0 || oldfd >= MAXFD || old(self).fd(oldfd as int) is None {
                ret == err(EBADF) && final(fs)@ == old(fs)@ && *final(self) == *old(self)
            } else {
                let o = dup_outcome(old(fs)@, old(self).filedescriptortable@, old(self).lowest_free(newfd as int),
                    old(self).fd(oldfd as int)->Some_0, newfd, true);
                &&& ret == o.0
                &&& final(fs)@ == o.1
                &&& final(self).filedescriptortable@ == o.2
            },
    {
        if newfd >= MAXFD || newfd < 0 {
            return syscall_error(EBADF);
        }
        if newfd == oldfd {
            return newfd;
        }
        if oldfd < 0 || oldfd >= MAXFD {
            return syscall_error(EBADF);
        }
        match self.get_fd(oldfd) {
            None => syscall_error(EBADF),
            Some(d) => {
                proof {
                    assert(desc_ok(self.fd(oldfd as int), fs@.locks.len(), fs@.pipes.len(), fs@.sockets.len(), self.epoll_table@.len()));
                }
                self.release_socket_path(fs, net, newfd);
                self._dup2_helper(fs, d, newfd, true)
            },
        }
    }
}


pub const FIONBIO: u32 = 0x5421;
pub const FIOASYNC: u32 = 0x5452;

/// The bits of the creation and access flags that `F_SETFL` keeps.
pub open spec fn setfl_kept() -> i32 {
    O_RDWRFLAGS | O_CREAT | O_EXCL | O_NOCTTY | O_TRUNC
}

/// What `fcntl` returns and leaves behind.
pub open spec fn fcntl_outcome(
    fs: FsView,
    fds: Seq<Option<FileDescriptor>>,
    fd: i32,
    cmd: i32,
    arg: i32,
) -> (int, FsView, Seq<Option<FileDescriptor>>) {
    match fds[fd as int] {
        None => (err(EBADF), fs, fds),
        Some(d) => {
            let fl = d.flags();
            if cmd == F_GETFD {
                ((fl & O_CLOEXEC) as int, fs, fds)
            } else if cmd == F_SETFD && arg >= 0 {
                let nf = if arg & O_CLOEXEC != 0 { fl | O_CLOEXEC } else { fl & !O_CLOEXEC };
                (0, fs, fds.update(fd as int, Some(d.with_flags(nf))))
            } else if cmd == F_GETFL {
                ((fl & !(O_CREAT | O_EXCL | O_NOCTTY | O_TRUNC)) as int, fs, fds)
            } else if cmd == F_SETFL && arg >= 0 {
                let nf = (arg & !setfl_kept()) | (fl & setfl_kept());
                (0, fs, fds.update(fd as int, Some(d.with_flags(nf))))
            } else if cmd == F_DUPFD && arg >= 0 {
                dup_outcome(fs, fds, seq_lowest_free(fds, arg as int), d, arg, false)
            } else if cmd == F_GETOWN {
                (0, fs, fds)
            } else if cmd == F_SETOWN && arg >= 0 {
                (0, fs, fds)
            } else {
                (err(EINVAL), fs, fds)
            }
        },
    }
}

/// A lock taken shared: it fails while the lock is held exclusively.
pub open spec fn lock_sh(l: AdvisoryLock) -> Option<AdvisoryLock> {
    if l.state >= 0 && l.state < i32::MAX {
        Some(AdvisoryLock { state: (l.state + 1) as i32 })
    } else {
        None
    }
}

/// A lock taken exclusively: it fails while anyone holds it.
pub open spec fn lock_ex(l: AdvisoryLock) -> Option<AdvisoryLock> {
    if l.state == 0 {
        Some(AdvisoryLock { state: -1i32 })
    } else {
        None
    }
}

/// A lock let go of once.
pub open spec fn lock_un(l: AdvisoryLock) -> AdvisoryLock {
    if l.state > 0 {
        AdvisoryLock { state: (l.state - 1) as i32 }
    } else {
        AdvisoryLock { state: 0 }
    }
}

/// What `flock` returns and does to the lock.
pub open spec fn flock_outcome(l: AdvisoryLock, operation: i32) -> (int, AdvisoryLock) {
    let op = operation & (LOCK_SH | LOCK_EX | LOCK_UN);
    if op == LOCK_SH {
        match lock_sh(l) {
            Some(n) => (0, n),
            None => (err(EAGAIN), l),
        }
    } else if op == LOCK_EX {
        match lock_ex(l) {
            Some(n) => (0, n),
            None => (err(EAGAIN), l),
        }
    } else if op == LOCK_UN {
        (0, lock_un(l))
    } else {
        (err(EINVAL), l)
    }
}

/// Ends of a pipe: the descriptor numbers of its read and write ends.
#[derive(Clone, Copy, Debug)]
pub struct PipeArray {
    pub readfd: i32,
    pub writefd: i32,
}

/// A pipe end as `pipe2` makes it.
pub open spec fn pipe_end(p: usize, acc: i32, flags: i32, lock: usize) -> FileDescriptor {
    FileDescriptor::Pipe(PipeDesc { pipe: p, flags: acc | (flags & (O_CLOEXEC | O_NONBLOCK)), advlock: lock })
}

/// A pipe end put on the lowest free descriptor with a new advisory lock, if one is free.
pub open spec fn install_end(fs: FsView, fds: Seq<Option<FileDescriptor>>, p: usize, acc: i32, flags: i32) -> Option<(i32, FsView, Seq<Option<FileDescriptor>>)> {
    match seq_lowest_free(fds, 0) {
        None => None,
        Some(r) => Some((
            r,
            FsView { locks: fs.locks.push(AdvisoryLock { state: 0 }), ..fs },
            fds.update(r as int, Some(pipe_end(p, acc, flags, fs.locks.len() as usize))),
        )),
    }
}

/// What `pipe2` returns and leaves behind: a new pipe, then a read end and a write end on the
/// lowest free numbers. With fewer than two free descriptors it is `ENFILE`, and nothing is
/// made.
pub open spec fn pipe2_outcome(
    fs: FsView,
    fds: Seq<Option<FileDescriptor>>,
    pa: PipeArray,
    flags: i32,
) -> (int, FsView, Seq<Option<FileDescriptor>>, PipeArray) {
    let p = fs.pipes.len() as usize;
    let fs1 = FsView { pipes: fs.pipes.push(new_pipe_view()), ..fs };
    if !crate::unix_net::two_free(fds) {
        (err(ENFILE), fs, fds, pa)
    } else {
        match install_end(fs1, fds, p, O_RDONLY, flags) {
            None => (err(ENFILE), fs1, fds, pa),
            Some((r, fs2, fds2)) => {
                let pa2 = PipeArray { readfd: r, ..pa };
                match install_end(fs2, fds2, p, O_WRONLY, flags) {
                    None => (err(ENFILE), fs2, fds2, pa2),
                    Some((w, fs3, fds3)) => (0, fs3, fds3, PipeArray { writefd: w, ..pa2 }),
                }
            },
        }
    }
}

impl Cage {
    /// Puts an end of pipe `p` on the lowest free descriptor.
    fn install_pipe_end(&mut self, fs: &mut FilesystemMetadata, p: usize, acc: i32, flags: i32) -> (r: Option<i32>)
        requires
            old(self).inv(old(fs)),
            p < old(fs)@.pipes.len(),
        ensures
            final(self).inv(final(fs)),
            same_but_fds(*old(self), *final(self)),
            match install_end(old(fs)@, old(self).filedescriptortable@, p, acc, flags) {
                None => r is None && final(fs)@ == old(fs)@ && *final(self) == *old(self),
                Some((f, v, fds)) => r == Some(f) && final(fs)@ == v && final(self).filedescriptortable@ == fds,
            },
    {
        let ghost self_old = *self;
        let ghost fs_old = *fs;
        let f = match self.get_next_fd(STARTINGFD) {
            None => {
                return None;
            },
            Some(f) => f,
        };
        let l = fs.new_advlock();
        let d = FileDescriptor::Pipe(PipeDesc { pipe: p, flags: acc | (flags & (O_CLOEXEC | O_NONBLOCK)), advlock: l });
        self.set_fd(f, Some(d));
        proof {
            lemma_refs_ok_update(&self_old, self, &fs_old, fs, f as int, Some(d));
        }
        Some(f)
    }
}

impl Cage {
    /// Reads or changes the flags of `fd`, or duplicates it.
    pub fn fcntl_syscall(&mut self, fs: &mut FilesystemMetadata, fd: i32, cmd: i32, arg: i32) -> (ret: i32)
        requires
            old(self).inv(old(fs)),
            0 <= fd < MAXFD,
        ensures
            final(self).inv(final(fs)),
            same_but_fds(*old(self), *final(self)),
            ({
                let o = fcntl_outcome(old(fs)@, old(self).filedescriptortable@, fd, cmd, arg);
                &&& ret == o.0
                &&& final(fs)@ == o.1
                &&& final(self).filedescriptortable@ == o.2
            }),
    {
        let ghost self_old = *self;
        let ghost fs_old = *fs;
        match self.get_fd(fd) {
            None => syscall_error(EBADF),
            Some(d) => {
                proof {
                    assert(desc_ok(self.fd(fd as int), fs@.locks.len(), fs@.pipes.len(), fs@.sockets.len(), self.epoll_table@.len()));
                }
                let fl = d.get_flags();
                if cmd == F_GETFD {
                    fl & O_CLOEXEC
                } else if cmd == F_SETFD && arg >= 0 {
                    let nf = if arg & O_CLOEXEC != 0 { fl | O_CLOEXEC } else { fl & !O_CLOEXEC };
                    let nd = d.set_flags(nf);
                    self.set_fd(fd, Some(nd));
                    proof {
                        lemma_refs_ok_update(&self_old, self, &fs_old, fs, fd as int, Some(nd));
                    }
                    0
                } else if cmd == F_GETFL {
                    fl & !(O_CREAT | O_EXCL | O_NOCTTY | O_TRUNC)
                } else if cmd == F_SETFL && arg >= 0 {
                    let kept = O_RDWRFLAGS | O_CREAT | O_EXCL | O_NOCTTY | O_TRUNC;
                    let nf = (arg & !kept) | (fl & kept);
                    let nd = d.set_flags(nf);
                    self.set_fd(fd, Some(nd));
                    proof {
                        lemma_refs_ok_update(&self_old, self, &fs_old, fs, fd as int, Some(nd));
                    }
                    0
                } else if cmd == F_DUPFD && arg >= 0 {
                    self._dup2_helper(fs, d, arg, false)
                } else if cmd == F_GETOWN {
                    0
                } else if cmd == F_SETOWN && arg >= 0 {
                    0
                } else {
                    syscall_error(EINVAL)
                }
            },
        }
    }

    /// Device control: `FIONBIO` sets or clears non-blocking mode of a socket from the integer
    /// that `arg` points to (`None` for a pointer that cannot be read); `FIOASYNC` does nothing.
    pub fn ioctl_syscall(&mut self, fd: i32, request: u32, arg: Option<i32>) -> (ret: i32)
        requires
            old(self).wf(),
            0 <= fd < MAXFD,
        ensures
            final(self).wf(),
            same_but_fds(*old(self), *final(self)),
            match old(self).fd(fd as int) {
                None => ret == err(EBADF) && *final(self) == *old(self),
                Some(d) => if request == FIONBIO {
                    match arg {
                        None => ret == err(EFAULT) && *final(self) == *old(self),
                        Some(a) => match d {
                            FileDescriptor::Socket(_) => ret == 0 && final(self).filedescriptortable@
                                == old(self).filedescriptortable@.update(
                                fd as int,
                                Some(d.with_flags(if a == 0 { d.flags() & !O_NONBLOCK } else { d.flags() | O_NONBLOCK })),
                            ),
                            _ => ret == err(ENOTTY) && *final(self) == *old(self),
                        },
                    }
                } else if request == FIOASYNC {
                    ret == 0 && *final(self) == *old(self)
                } else {
                    ret == err(EINVAL) && *final(self) == *old(self)
                },
            },
    {
        match self.get_fd(fd) {
            None => syscall_error(EBADF),
            Some(d) => {
                if request == FIONBIO {
                    match arg {
                        None => syscall_error(EFAULT),
                        Some(a) => match d {
                            FileDescriptor::Socket(_) => {
                                let fl = d.get_flags();
                                let nf = if a == 0 { fl & !O_NONBLOCK } else { fl | O_NONBLOCK };
                                self.set_fd(fd, Some(d.set_flags(nf)));
                                0
                            },
                            _ => syscall_error(ENOTTY),
                        },
                    }
                } else if request == FIOASYNC {
                    0
                } else {
                    syscall_error(EINVAL)
                }
            },
        }
    }

    /// Takes or lets go of the advisory lock of `fd`. A lock that is not free enough gives
    /// `EAGAIN`, with `LOCK_NB` or without (a blocking caller waits and calls again).
    pub fn flock_syscall(&self, fs: &mut FilesystemMetadata, fd: i32, operation: i32) -> (ret: i32)
        requires
            self.inv(old(fs)),
            0 <= fd < MAXFD,
        ensures
            self.inv(final(fs)),
            match self.fd(fd as int) {
                None => ret == err(EBADF) && final(fs)@ == old(fs)@,
                Some(d) => {
                    let o = flock_outcome(old(fs)@.locks[d.advlock() as int], operation);
                    ret == o.0 && final(fs)@ == (FsView { locks: old(fs)@.locks.update(d.advlock() as int, o.1), ..old(fs)@ })
                },
            },
    {
        let ghost fs_old = *fs;
        match self.get_fd(fd) {
            None => syscall_error(EBADF),
            Some(d) => {
                proof {
                    assert(desc_ok(self.fd(fd as int), fs@.locks.len(), fs@.pipes.len(), fs@.sockets.len(), self.epoll_table@.len()));
                }
                let li = d.get_advlock();
                let l = fs.advlocks[li];
                let op = operation & (LOCK_SH | LOCK_EX | LOCK_UN);
                let (r, nl) = if op == LOCK_SH {
                    if l.state >= 0 && l.state < i32::MAX {
                        (0, AdvisoryLock { state: l.state + 1 })
                    } else {
                        (-EAGAIN, l)
                    }
                } else if op == LOCK_EX {
                    if l.state == 0 {
                        (0, AdvisoryLock { state: -1 })
                    } else {
                        (-EAGAIN, l)
                    }
                } else if op == LOCK_UN {
                    if l.state > 0 {
                        (0, AdvisoryLock { state: l.state - 1 })
                    } else {
                        (0, AdvisoryLock { state: 0 })
                    }
                } else {
                    (-EINVAL, l)
                };
                fs.set_advlock(li, nl);
                proof {
                    assert(fs@.locks =~= fs_old@.locks.update(li as int, nl));
                    lemma_refs_ok_update(self, self, &fs_old, fs, 0, self.fd(0));
                }
                r
            },
        }
    }

    /// Flushes the file open at `fd` (the data here is always current).
    pub fn fsync_syscall(&self, fs: &FilesystemMetadata, fd: i32) -> (ret: i32)
        requires
            self.inv(fs),
            0 <= fd < MAXFD,
        ensures
            match self.fd(fd as int) {
                None => ret == err(EBADF),
                Some(FileDescriptor::File(f)) => if spec_is_rdonly(f.flags) || !fs@.has(f.inode as int) {
                    ret == err(EBADF)
                } else if fs@.get(f.inode as int) is File {
                    ret == 0
                } else {
                    ret == err(EROFS)
                },
                Some(_) => ret == err(EINVAL),
            },
    {
        match self.get_fd(fd) {
            None => syscall_error(EBADF),
            Some(FileDescriptor::File(f)) => {
                if is_rdonly(f.flags) {
                    return syscall_error(EBADF);
                }
                if f.inode >= fs.inodetable.len() || fs.inodetable[f.inode].is_none() {
                    return syscall_error(EBADF);
                }
                match &fs.inodetable[f.inode] {
                    Some(Inode::File(_)) => 0,
                    _ => syscall_error(EROFS),
                }
            },
            Some(_) => syscall_error(EINVAL),
        }
    }

    /// Flushes the data of the file open at `fd` (the data here is always current).
    pub fn fdatasync_syscall(&self, fs: &FilesystemMetadata, fd: i32) -> (ret: i32)
        requires
            self.inv(fs),
            0 <= fd < MAXFD,
        ensures
            match self.fd(fd as int) {
                None => ret == err(EBADF),
                Some(FileDescriptor::File(f)) => if spec_is_rdonly(f.flags) || !fs@.has(f.inode as int) {
                    ret == err(EBADF)
                } else if fs@.get(f.inode as int) is File {
                    ret == 0
                } else {
                    ret == err(EROFS)
                },
                Some(_) => ret == err(EINVAL),
            },
    {
        self.fsync_syscall(fs, fd)
    }

    /// Flushes a range of the file open at `fd`; the range and flags are checked as the host
    /// checks them.
    pub fn sync_file_range_syscall(&self, fs: &FilesystemMetadata, fd: i32, offset: isize, nbytes: isize, flags: u32) -> (ret: i32)
        requires
            self.inv(fs),
            0 <= fd < MAXFD,
        ensures
            match self.fd(fd as int) {
                None => ret == err(EBADF),
                Some(FileDescriptor::File(f)) => if !fs@.has(f.inode as int) {
                    ret == err(EBADF)
                } else if fs@.get(f.inode as int) is File {
                    if flags & !7u32 != 0 || offset < 0 || nbytes < 0 || offset + nbytes > isize::MAX {
                        ret == err(EINVAL)
                    } else {
                        ret == 0
                    }
                } else {
                    ret == err(ESPIPE)
                },
                Some(_) => ret == err(EBADF),
            },
    {
        match self.get_fd(fd) {
            None => syscall_error(EBADF),
            Some(FileDescriptor::File(f)) => {
                if f.inode >= fs.inodetable.len() || fs.inodetable[f.inode].is_none() {
                    return syscall_error(EBADF);
                }
                match &fs.inodetable[f.inode] {
                    Some(Inode::File(_)) => {
                        if flags & !7u32 != 0 || offset < 0 || nbytes < 0 || offset > isize::MAX - nbytes {
                            syscall_error(EINVAL)
                        } else {
                            0
                        }
                    },
                    _ => syscall_error(ESPIPE),
                }
            },
            Some(_) => syscall_error(EBADF),
        }
    }

    /// Makes a pipe and puts its read and write ends on the lowest free descriptors.
    pub fn pipe2_syscall(&mut self, fs: &mut FilesystemMetadata, pipefd: &mut PipeArray, flags: i32) -> (ret: i32)
        requires
            old(self).inv(old(fs)),
        ensures
            final(self).inv(final(fs)),
            same_but_fds(*old(self), *final(self)),
            ({
                let o = pipe2_outcome(old(fs)@, old(self).filedescriptortable@, *old(pipefd), flags);
                &&& ret == o.0
                &&& final(fs)@ == o.1
                &&& final(self).filedescriptortable@ == o.2
                &&& *final(pipefd) == o.3
            }),
    {
        if self.free_pair().is_none() {
            return syscall_error(ENFILE);
        }
        let ghost self_old = *self;
        let ghost fs_old = *fs;
        let p = fs.new_pipe();
        proof {
            lemma_refs_ok_update(&self_old, self, &fs_old, fs, 0, self_old.fd(0));
        }
        let r = match self.install_pipe_end(fs, p, O_RDONLY, flags) {
            None => {
                return syscall_error(ENFILE);
            },
            Some(r) => r,
        };
        pipefd.readfd = r;
        let w = match self.install_pipe_end(fs, p, O_WRONLY, flags) {
            None => {
                return syscall_error(ENFILE);
            },
            Some(w) => w,
        };
        pipefd.writefd = w;
        0
    }

    /// Makes a pipe with no flags.
    pub fn pipe_syscall(&mut self, fs: &mut FilesystemMetadata, pipefd: &mut PipeArray) -> (ret: i32)
        requires
            old(self).inv(old(fs)),
        ensures
            final(self).inv(final(fs)),
            same_but_fds(*old(self), *final(self)),
            ({
                let o = pipe2_outcome(old(fs)@, old(self).filedescriptortable@, *old(pipefd), 0);
                &&& ret == o.0
                &&& final(fs)@ == o.1
                &&& final(self).filedescriptortable@ == o.2
                &&& *final(pipefd) == o.3
            }),
    {
        self.pipe2_syscall(fs, pipefd, 0)
    }

    /// Gives the working directory as text with a closing zero byte, if it fits in `bufsize`.
    /// The text is written over the start of `buf`; bytes past it stay (a buffer shorter than
    /// the text is extended to hold it).
    pub fn getcwd_syscall(&self, buf: &mut Vec<u8>, bufsize: u32) -> (ret: i32)
        ensures
            ({
                let text = path_text(self.cwd_view()).push(0u8);
                if bufsize == 0 {
                    ret == err(EINVAL) && final(buf)@ == old(buf)@
                } else if bufsize < text.len() {
                    ret == err(ERANGE) && final(buf)@ == old(buf)@
                } else {
                    ret == 0 && final(buf)@ == write_prefix(old(buf)@, text)
                }
            }),
    {
        if bufsize == 0 {
            return syscall_error(EINVAL);
        }
        let mut bytes = path_to_bytes(&self.cwd);
        bytes.push(0u8);
        if (bufsize as usize) < bytes.len() {
            return syscall_error(ERANGE);
        }
        let ghost b0 = buf@;
        let mut i: usize = 0;
        while i < bytes.len()
            invariant
                i <= bytes@.len(),
                buf@.len() == (if b0.len() >= i { b0.len() as int } else { i as int }),
                forall|j: int| 0 <= j < i ==> buf@[j] == bytes@[j],
                forall|j: int| i <= j < b0.len() ==> buf@[j] == b0[j],
            decreases bytes@.len() - i,
        {
            if i < buf.len() {
                buf.set(i, bytes[i]);
            } else {
                buf.push(bytes[i]);
            }
            i = i + 1;
        }
        assert(buf@ =~= write_prefix(b0, bytes@));
        0
    }
}

/// `buf` with `text` written over its start; past the end of `buf` the text extends it.
pub open spec fn write_prefix(buf: Seq<u8>, text: Seq<u8>) -> Seq<u8> {
    if buf.len() >= text.len() { text + buf.skip(text.len() as int) } else { text }
}


/// Size in bytes of the fixed part of a directory record.
pub const CLIPPED_DIRENT_SIZE: u32 = 24;
/// File type reported for every directory entry.
pub const DT_UNKNOWN: u8 = 0;

/// The fixed part of a directory record.
#[derive(Clone, Copy, Debug)]
pub struct ClippedDirent {
    pub d_ino: u64,
    pub d_off: u64,
    pub d_reclen: u16,
}

/// The name part of a directory record: the name, a zero byte, the file type, and zero bytes
/// up to a multiple of eight.
pub open spec fn dirent_name(name: Seq<u8>) -> Seq<u8> {
    let base = name + seq![0u8, DT_UNKNOWN];
    let t = CLIPPED_DIRENT_SIZE + base.len();
    base + zeros((t + 7) / 8 * 8 - t)
}

/// The records of the entries from `i` on that fit in `bufsize` bytes after `acc` bytes, and
/// the number of bytes used in the end.
pub open spec fn dents(e: Seq<(Seq<u8>, usize)>, i: int, acc: int, bufsize: int) -> (Seq<(ClippedDirent, Seq<u8>)>, int)
    decreases e.len() - i,
{
    if i < 0 || i >= e.len() {
        (Seq::empty(), acc)
    } else {
        let rec = dirent_name(e[i].0);
        let size = CLIPPED_DIRENT_SIZE + rec.len();
        if acc + size > bufsize {
            (Seq::empty(), acc)
        } else {
            let rest = dents(e, i + 1, acc + size, bufsize);
            (
                seq![(ClippedDirent { d_ino: e[i].1 as u64, d_off: (acc + size) as u64, d_reclen: size as u16 }, rec)] + rest.0,
                rest.1,
            )
        }
    }
}

/// Directory records as plain values.
pub open spec fn dirents_view(v: Seq<(ClippedDirent, Vec<u8>)>) -> Seq<(ClippedDirent, Seq<u8>)> {
    Seq::new(v.len(), |i: int| (v[i].0, v[i].1@))
}

/// What `getdents` returns (before the cast to `i32`), gives and does to the descriptor table.
pub open spec fn getdents_outcome(fs: FsView, fds: Seq<Option<FileDescriptor>>, fd: i32, bufsize: u32)
    -> (int, Seq<(ClippedDirent, Seq<u8>)>, Seq<Option<FileDescriptor>>)
{
    if bufsize <= CLIPPED_DIRENT_SIZE {
        (err(EINVAL), Seq::empty(), fds)
    } else if fd < 0 || fd >= MAXFD {
        (err(EBADF), Seq::empty(), fds)
    } else {
        match fds[fd as int] {
            None => (err(EBADF), Seq::empty(), fds),
            Some(FileDescriptor::File(f)) => if !fs.has(f.inode as int) {
                (err(EBADF), Seq::empty(), fds)
            } else {
                match fs.get(f.inode as int) {
                    InodeView::Dir(_, e) => {
                        let d = dents(e, f.position as int, 0, bufsize as int);
                        let np = if f.position + d.0.len() < e.len() { f.position + d.0.len() } else { e.len() as int };
                        (d.1, d.0, fds.update(fd as int, Some(FileDescriptor::File(FileDesc { position: np as usize, ..f }))))
                    },
                    _ => (err(ENOTDIR), Seq::empty(), fds),
                }
            },
            Some(_) => (err(ESPIPE), Seq::empty(), fds),
        }
    }
}

/// The name part of the record for `name`.
fn make_dirent_name(name: &Vec<u8>) -> (r: Vec<u8>)
    ensures
        r@ == dirent_name(name@),
{
    let mut v = vstd::slice::slice_to_vec(name.as_slice());
    v.push(0u8);
    v.push(DT_UNKNOWN);
    let ghost base = v@;
    assert(base =~= name@ + seq![0u8, DT_UNKNOWN]);
    let t: u128 = CLIPPED_DIRENT_SIZE as u128 + v.len() as u128;
    let pad: u128 = (t + 7) / 8 * 8 - t;
    assert(pad < 8) by (nonlinear_arith)
        requires
            pad == (t + 7) / 8 * 8 - t,
            t >= 0,
    ;
    let mut k: u128 = 0;
    while k < pad
        invariant
            k <= pad,
            pad < 8,
            v@ == base + zeros(k as int),
        decreases pad - k,
    {
        v.push(0u8);
        assert(v@ =~= base + zeros(k + 1));
        k = k + 1;
    }
    v
}

impl Cage {
    /// Lists the entries of the directory open at `fd` from its position on, as many records
    /// as fit in `bufsize` bytes, and moves the position past them.
    pub fn getdents_syscall(&mut self, fs: &FilesystemMetadata, fd: i32, dirp: &mut Vec<(ClippedDirent, Vec<u8>)>, bufsize: u32) -> (ret: i32)
        requires
            old(self).inv(fs),
        ensures
            final(self).inv(fs),
            same_but_fds(*old(self), *final(self)),
            ({
                let o = getdents_outcome(fs@, old(self).filedescriptortable@, fd, bufsize);
                &&& ret == o.0 as i32
                &&& (o.0 >= 0 ==> dirents_view(final(dirp)@) == o.1)
                &&& (o.0 < 0 ==> final(dirp)@ == old(dirp)@)
                &&& final(self).filedescriptortable@ == o.2
            }),
    {
        let ghost self_old = *self;
        if bufsize <= CLIPPED_DIRENT_SIZE {
            return syscall_error(EINVAL);
        }
        if fd < 0 || fd >= MAXFD {
            return syscall_error(EBADF);
        }
        match self.get_fd(fd) {
            None => syscall_error(EBADF),
            Some(FileDescriptor::File(f)) => {
                if f.inode >= fs.inodetable.len() || fs.inodetable[f.inode].is_none() {
                    return syscall_error(EBADF);
                }
                match &fs.inodetable[f.inode] {
                    Some(Inode::Dir(d)) => {
                        let ghost e = d.entries();
                        let entries = &d.filename_to_inode_dict;
                        let position = f.position;
                        let mut out: Vec<(ClippedDirent, Vec<u8>)> = Vec::new();
                        let mut acc: u128 = 0;
                        let mut i: usize = position;
                        let ghost total = dents(e, position as int, 0, bufsize as int);
                        let mut done = false;
                        while i < entries.len() && !done
                            invariant
                                done ==> dents(e, i as int, acc as int, bufsize as int).0.len() == 0,
                                done ==> dents(e, i as int, acc as int, bufsize as int).1 == acc,
                                position <= i,
                                e == crate::filesystem::entries_view(entries@),
                                acc <= bufsize,
                                total.0 == dirents_view(out@) + dents(e, i as int, acc as int, bufsize as int).0,
                                total.1 == dents(e, i as int, acc as int, bufsize as int).1,
                                out@.len() == i - position,
                                i <= entries@.len() || i == position,
                            decreases (entries@.len() - i) * 2 + (if done { 0int } else { 1int }),
                        {
                            let rec = make_dirent_name(&entries[i].name);
                            let size: u128 = CLIPPED_DIRENT_SIZE as u128 + rec.len() as u128;
                            if acc + size > bufsize as u128 {
                                done = true;
                                assert(dents(e, i as int, acc as int, bufsize as int).0.len() == 0);
                                assert(dents(e, i as int, acc as int, bufsize as int).1 == acc);
                            } else {
                            acc = acc + size;
                            let ghost ov = dirents_view(out@);
                            let ghost recv = rec@;
                            out.push((ClippedDirent { d_ino: entries[i].inode as u64, d_off: acc as u64, d_reclen: size as u16 }, rec));
                            proof {
                                assert(dirents_view(out@) =~= ov.push((ClippedDirent { d_ino: e[i as int].1 as u64, d_off: acc as u64, d_reclen: size as u16 }, recv)));
                                let rest = dents(e, i + 1, acc as int, bufsize as int);
                                assert(dents(e, i as int, (acc - size) as int, bufsize as int).0 =~= seq![(ClippedDirent { d_ino: e[i as int].1 as u64, d_off: acc as u64, d_reclen: size as u16 }, recv)] + rest.0);
                                assert(dirents_view(out@) + rest.0 =~= ov + (seq![(ClippedDirent { d_ino: e[i as int].1 as u64, d_off: acc as u64, d_reclen: size as u16 }, recv)] + rest.0));
                            }
                            i = i + 1;
                            }
                        }
                        assert(dents(e, i as int, acc as int, bufsize as int).0 =~= Seq::<(ClippedDirent, Seq<u8>)>::empty());
                        assert(dents(e, i as int, acc as int, bufsize as int).1 == acc);
                        assert(dirents_view(out@) =~= total.0);
                        let count = out.len();
                        let np = if position + count < entries.len() { position + count } else { entries.len() };
                        *dirp = out;
                        self.set_fd(fd, Some(FileDescriptor::File(FileDesc { position: np, ..f })));
                        proof {
                            lemma_refs_ok_update(&self_old, self, fs, fs, fd as int, Some(FileDescriptor::File(FileDesc { position: np, ..f })));
                        }
                        acc as i32
                    },
                    _ => syscall_error(ENOTDIR),
                }
            },
            Some(_) => syscall_error(ESPIPE),
        }
    }
}

} // verus!
