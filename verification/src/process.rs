//! `fork`, `exec` and `exit`: making, replacing and ending cages. Entering the new cage in the
//! table of cages, removing the old one and signalling the parent are left to the caller.
use vstd::prelude::*;
use crate::cage::{Cage, FileDescriptor, IntervalTimer, Span, same_but_fds, desc_ok, lemma_refs_ok_update};
use crate::filesystem::{FilesystemMetadata, FsView, Inode, InodeView, InodeMeta, fits, sat_inc, sat_dec, spec_walk, socket_pipes_ok};
use crate::fd_calls::{close_net_effect, close_inner_outcome, dup_effect, hold_pipe, dup_effect_exec, hold_pipe_exec};
use crate::fs_constants::{MAXFD, O_CLOEXEC, O_RDONLY, O_WRONLY};
use crate::net::AF_UNIX;
use crate::path::{clone_comps, comps_view};
use crate::shm::{ShmMetadata, release_all, inherit_mappings};
use crate::unix_net::{NetMetadata, NetView};

verus! {

/// Socket inode `n` held once more.
pub open spec fn hold_socket_inode(fs: FsView, n: int) -> FsView {
    if fs.has(n) {
        match fs.get(n) {
            InodeView::Socket(m) => fs.set(n, InodeView::Socket(InodeMeta { refcount: sat_inc(m.refcount), ..m })),
            _ => fs,
        }
    } else {
        fs
    }
}

/// What a fork does to the shared state for one descriptor of the parent: the child holds
/// the file, pipe end or Unix socket (its pipes and its inode) once more.
pub open spec fn fork_effect(fs: FsView, d: Option<FileDescriptor>) -> FsView {
    match d {
        Some(FileDescriptor::File(f)) => dup_effect(fs, FileDescriptor::File(f))->Some_0,
        Some(FileDescriptor::Pipe(p)) => dup_effect(fs, FileDescriptor::Pipe(p))->Some_0,
        Some(FileDescriptor::Socket(s)) => {
            let h = fs.sockets[s.handle as int];
            if h.domain == AF_UNIX {
                match h.unix_info {
                    Some(ui) => hold_socket_inode(
                        hold_pipe(hold_pipe(fs, ui.sendpipe, O_WRONLY), ui.receivepipe, O_RDONLY),
                        ui.inode as int,
                    ),
                    None => fs,
                }
            } else {
                fs
            }
        },
        _ => fs,
    }
}

/// The fork effects of descriptors `fds[i..]`, in order.
pub open spec fn fork_all(fs: FsView, fds: Seq<Option<FileDescriptor>>, i: int) -> FsView
    decreases fds.len() - i,
{
    if i < 0 || i >= fds.len() {
        fs
    } else {
        fork_all(fork_effect(fs, fds[i]), fds, i + 1)
    }
}

/// Directory `n` (if it is one) held once more as a working directory.
pub open spec fn hold_dir(fs: FsView, n: Option<usize>) -> FsView {
    match n {
        Some(n) => if fs.has(n as int) {
            match fs.get(n as int) {
                InodeView::Dir(m, e) => fs.set(n as int, InodeView::Dir(InodeMeta { refcount: sat_inc(m.refcount), ..m }, e)),
                _ => fs,
            }
        } else {
            fs
        },
        None => fs,
    }
}

/// Directory `n` (if it is one) let go of as a working directory; a directory already
/// removed goes when its last holder does.
pub open spec fn release_dir(fs: FsView, n: Option<usize>) -> FsView {
    match n {
        Some(n) => if fs.has(n as int) {
            match fs.get(n as int) {
                InodeView::Dir(m, e) => {
                    let m2 = InodeMeta { refcount: sat_dec(m.refcount), ..m };
                    if m2.refcount == 0 && m.linkcount == 0 {
                        FsView { inodes: fs.inodes.update(n as int, None), ..fs }
                    } else {
                        fs.set(n as int, InodeView::Dir(m2, e))
                    }
                },
                _ => fs,
            }
        } else {
            fs
        },
        None => fs,
    }
}

/// The state after closing the descriptors `fds[i..]` for which `all` holds or which are
/// marked close-on-exec, in order.
pub open spec fn close_from(fs: FsView, fds: Seq<Option<FileDescriptor>>, i: int, all: bool) -> FsView
    decreases fds.len() - i,
{
    if i < 0 || i >= fds.len() {
        fs
    } else {
        let fs1 = if all || (fds[i] matches Some(d) && d.flags() & O_CLOEXEC != 0) {
            close_inner_outcome(fs, fds[i]).1
        } else {
            fs
        };
        close_from(fs1, fds, i + 1, all)
    }
}

/// What closing the descriptors `fds[i..]` that `close_from` closes does to the bound socket
/// paths.
pub open spec fn close_from_net(fs: FsView, net: NetView, cwd: Seq<Seq<u8>>, fds: Seq<Option<FileDescriptor>>, i: int, all: bool) -> NetView
    decreases fds.len() - i,
{
    if i < 0 || i >= fds.len() {
        net
    } else {
        let sel = all || (fds[i] matches Some(d) && d.flags() & O_CLOEXEC != 0);
        let fs1 = if sel { close_inner_outcome(fs, fds[i]).1 } else { fs };
        let net1 = if sel { close_net_effect(fs, net, cwd, fds[i]) } else { net };
        close_from_net(fs1, net1, cwd, fds, i + 1, all)
    }
}

/// A descriptor table with the close-on-exec descriptors gone.
pub open spec fn without_cloexec(fds: Seq<Option<FileDescriptor>>) -> Seq<Option<FileDescriptor>> {
    Seq::new(fds.len(), |i: int| if fds[i] matches Some(d) && d.flags() & O_CLOEXEC != 0 { None } else { fds[i] })
}

proof fn lemma_fork_effect_lens(fs: FsView, d: Option<FileDescriptor>)
    requires
        fs.wf(),
        d matches Some(FileDescriptor::Pipe(p)) ==> p.pipe < fs.pipes.len(),
        d matches Some(FileDescriptor::Socket(s)) ==> s.handle < fs.sockets.len(),
    ensures
        fork_effect(fs, d).locks.len() == fs.locks.len(),
        fork_effect(fs, d).pipes.len() == fs.pipes.len(),
        fork_effect(fs, d).sockets.len() == fs.sockets.len(),
{
    if let Some(FileDescriptor::Socket(s)) = d {
        assert(socket_pipes_ok(fs.sockets[s.handle as int], fs.pipes.len()));
    }
}

/// Holds socket inode `n` once more.
pub(crate) fn hold_socket_inode_exec(fs: &mut FilesystemMetadata, n: usize)
    requires
        old(fs).wf(),
    ensures
        final(fs).wf(),
        final(fs)@ == hold_socket_inode(old(fs)@, n as int),
{
    if n < fs.inodetable.len() && fs.inodetable[n].is_some() {
        let ghost fs2 = fs@;
        let node = fs.take_inode(n);
        proof {
            assert(fits(fs2.inodes[n as int], fs2.contents[n as int]));
        }
        let newnode = match node {
            Some(Inode::Socket(mut x)) => {
                x.refcount = x.refcount.saturating_add(1);
                Some(Inode::Socket(x))
            },
            other => other,
        };
        fs.put_inode(n, newnode);
        proof {
            assert(fs@.inodes =~= hold_socket_inode(fs2, n as int).inodes);
            assert(fs@ =~= hold_socket_inode(fs2, n as int));
        }
    }
}

/// Applies the fork effect of one descriptor.
fn fork_effect_exec(fs: &mut FilesystemMetadata, d: Option<FileDescriptor>)
    requires
        old(fs).wf(),
        d matches Some(FileDescriptor::Pipe(p)) ==> p.pipe < old(fs)@.pipes.len(),
        d matches Some(FileDescriptor::Socket(s)) ==> s.handle < old(fs)@.sockets.len(),
    ensures
        final(fs).wf(),
        final(fs)@ == fork_effect(old(fs)@, d),
{
    let ghost fs0 = fs@;
    match d {
        Some(FileDescriptor::File(f)) => {
            dup_effect_exec(fs, FileDescriptor::File(f));
        },
        Some(FileDescriptor::Pipe(p)) => {
            dup_effect_exec(fs, FileDescriptor::Pipe(p));
        },
        Some(FileDescriptor::Socket(s)) => {
            let h = fs.sockets[s.handle];
            proof {
                assert(socket_pipes_ok(fs0.sockets[s.handle as int], fs0.pipes.len()));
            }
            if h.domain == AF_UNIX {
                match h.unix_info {
                    Some(ui) => {
                        hold_pipe_exec(fs, ui.sendpipe, O_WRONLY);
                        hold_pipe_exec(fs, ui.receivepipe, O_RDONLY);
                        hold_socket_inode_exec(fs, ui.inode);
                    },
                    None => {},
                }
            }
        },
        _ => {},
    }
}

/// Holds the working directory's inode once more.
fn hold_dir_exec(fs: &mut FilesystemMetadata, n: Option<usize>)
    requires
        old(fs).wf(),
    ensures
        final(fs).wf(),
        final(fs)@ == hold_dir(old(fs)@, n),
{
    match n {
        None => {},
        Some(n) => {
            if n < fs.inodetable.len() && fs.inodetable[n].is_some() {
                let ghost fs0 = fs@;
                let node = fs.take_inode(n);
                proof {
                    assert(fits(fs0.inodes[n as int], fs0.contents[n as int]));
                }
                let newnode = match node {
                    Some(Inode::Dir(mut x)) => {
                        x.refcount = x.refcount.saturating_add(1);
                        Some(Inode::Dir(x))
                    },
                    other => other,
                };
                fs.put_inode(n, newnode);
                proof {
                    assert(fs@.inodes =~= hold_dir(fs0, Some(n)).inodes);
                    assert(fs@ =~= hold_dir(fs0, Some(n)));
                }
            }
        },
    }
}

/// Lets go of the working directory's inode.
fn release_dir_exec(fs: &mut FilesystemMetadata, n: Option<usize>)
    requires
        old(fs).wf(),
    ensures
        final(fs).wf(),
        final(fs)@ == release_dir(old(fs)@, n),
{
    match n {
        None => {},
        Some(n) => {
            if n < fs.inodetable.len() && fs.inodetable[n].is_some() {
                let ghost fs0 = fs@;
                let node = fs.take_inode(n);
                proof {
                    assert(fits(fs0.inodes[n as int], fs0.contents[n as int]));
                }
                match node {
                    Some(Inode::Dir(mut x)) => {
                        let linkcount = x.linkcount;
                        x.refcount = x.refcount.saturating_sub(1);
                        if !(x.refcount == 0 && linkcount == 0) {
                            fs.put_inode(n, Some(Inode::Dir(x)));
                        }
                    },
                    other => {
                        fs.put_inode(n, other);
                    },
                }
                proof {
                    assert(fs@.inodes =~= release_dir(fs0, Some(n)).inodes);
                    assert(fs@ =~= release_dir(fs0, Some(n)));
                }
            }
        },
    }
}

/// Copies the epoll registration lists.
fn copy_epolls(t: &Vec<Vec<(i32, crate::cage::EpollEvent)>>) -> (r: Vec<Vec<(i32, crate::cage::EpollEvent)>>)
    ensures
        r@.len() == t@.len(),
        forall|i: int| 0 <= i < t@.len() ==> (#[trigger] r@[i])@ == t@[i]@,
{
    let mut r: Vec<Vec<(i32, crate::cage::EpollEvent)>> = Vec::new();
    let mut i: usize = 0;
    while i < t.len()
        invariant
            i <= t@.len(),
            r@.len() == i,
            forall|j: int| 0 <= j < i ==> (#[trigger] r@[j])@ == t@[j]@,
        decreases t@.len() - i,
    {
        r.push(vstd::slice::slice_to_vec(t[i].as_slice()));
        i = i + 1;
    }
    r
}

impl Cage {
    /// Makes the child of a fork: the same descriptors (each held once more), working
    /// directory, ids, signal actions and mask, semaphores, shared memory mappings (each
    /// attached once more) and table shapes, with a fresh timer.
    pub fn fork_syscall(&self, fs: &mut FilesystemMetadata, shm: &mut ShmMetadata, child_cageid: u64) -> (child: Cage)
        requires
            self.inv(old(fs)),
            old(shm).wf(),
        ensures
            self.inv(final(fs)),
            child.inv(final(fs)),
            final(shm).wf(),
            final(fs)@ == hold_dir(
                fork_all(old(fs)@, self.filedescriptortable@, 0),
                spec_walk(fork_all(old(fs)@, self.filedescriptortable@, 0), self.cwd_view()).0,
            ),
            final(shm)@ == inherit_mappings(old(shm)@, self.rev_shm@, 0, self.cageid, child_cageid),
            child.cageid == child_cageid,
            child.parent == self.cageid,
            child.filedescriptortable@ == self.filedescriptortable@,
            child.cwd_view() == self.cwd_view(),
            !child.cancelstatus,
            child.getgid == self.getgid && child.getuid == self.getuid,
            child.getegid == self.getegid && child.geteuid == self.geteuid,
            child.rev_shm@ == self.rev_shm@,
            child.mutex_table@ == self.mutex_table@,
            child.cv_table@ == self.cv_table@,
            child.sem_table@ == self.sem_table@,
            child.signalhandler@ == self.signalhandler@,
            child.sigset == self.sigset,
            child.pendingsigset == 0,
            child.main_threadid == 0,
            child.interval_timer == (IntervalTimer { curr: Span { secs: 0, nanos: 0 }, next: Span { secs: 0, nanos: 0 } }),
            child.epoll_table@.len() == self.epoll_table@.len(),
            forall|i: int| 0 <= i < self.epoll_table@.len() ==> (#[trigger] child.epoll_table@[i])@ == self.epoll_table@[i]@,
    {
        let ghost fds = self.filedescriptortable@;
        let mut fd: usize = 0;
        while fd < MAXFD as usize
            invariant
                self.inv(fs),
                fds == self.filedescriptortable@,
                fd <= MAXFD,
                fork_all(old(fs)@, fds, 0) == fork_all(fs@, fds, fd as int),
            decreases MAXFD - fd,
        {
            let ghost fs0 = *fs;
            let d = self.filedescriptortable[fd];
            proof {
                assert(desc_ok(fds[fd as int], fs@.locks.len(), fs@.pipes.len(), fs@.sockets.len(), self.epoll_table@.len()));
            }
            fork_effect_exec(fs, d);
            proof {
                lemma_fork_effect_lens(fs0@, d);
                lemma_refs_ok_update(self, self, &fs0, fs, 0, self.fd(0));
            }
            fd = fd + 1;
        }
        let ghost fs_mid = *fs;
        let (cwdino, _) = fs.metawalkandparent(&self.cwd);
        hold_dir_exec(fs, cwdino);
        proof {
            lemma_refs_ok_update(self, self, &fs_mid, fs, 0, self.fd(0));
        }
        shm.inherit(&self.rev_shm, self.cageid, child_cageid);
        let child = Cage {
            cageid: child_cageid,
            cwd: clone_comps(&self.cwd),
            parent: self.cageid,
            filedescriptortable: vstd::slice::slice_to_vec(self.filedescriptortable.as_slice()),
            cancelstatus: false,
            getgid: self.getgid,
            getuid: self.getuid,
            getegid: self.getegid,
            geteuid: self.geteuid,
            rev_shm: vstd::slice::slice_to_vec(self.rev_shm.as_slice()),
            mutex_table: vstd::slice::slice_to_vec(self.mutex_table.as_slice()),
            cv_table: vstd::slice::slice_to_vec(self.cv_table.as_slice()),
            sem_table: vstd::slice::slice_to_vec(self.sem_table.as_slice()),
            signalhandler: vstd::slice::slice_to_vec(self.signalhandler.as_slice()),
            sigset: self.sigset,
            pendingsigset: 0,
            main_threadid: 0,
            interval_timer: IntervalTimer { curr: Span { secs: 0, nanos: 0 }, next: Span { secs: 0, nanos: 0 } },
            epoll_table: copy_epolls(&self.epoll_table),
        };
        proof {
            assert(child.cwd_view() =~= self.cwd_view());
            assert forall|i: int| 0 <= i < child.filedescriptortable@.len() implies desc_ok(
                #[trigger] child.filedescriptortable@[i],
                fs@.locks.len(),
                fs@.pipes.len(),
                fs@.sockets.len(),
                child.epoll_table@.len(),
            ) by {
                assert(child.filedescriptortable@[i] == self.filedescriptortable@[i]);
                assert(desc_ok(self.filedescriptortable@[i], fs@.locks.len(), fs@.pipes.len(), fs@.sockets.len(), self.epoll_table@.len()));
            }
        }
        child
    }

    /// Closes the descriptors for which `all` holds or which are marked close-on-exec.
    fn close_marked(&mut self, fs: &mut FilesystemMetadata, net: &mut NetMetadata, all: bool)
        requires
            old(self).inv(old(fs)),
            old(net).wf(),
        ensures
            final(self).inv(final(fs)),
            final(net).wf(),
            same_but_fds(*old(self), *final(self)),
            final(fs)@ == close_from(old(fs)@, old(self).filedescriptortable@, 0, all),
            final(net)@ == close_from_net(old(fs)@, old(net)@, old(self).cwd_view(), old(self).filedescriptortable@, 0, all),
            final(self).filedescriptortable@ == (if all {
                Seq::new(MAXFD as nat, |i: int| None::<FileDescriptor>)
            } else {
                without_cloexec(old(self).filedescriptortable@)
            }),
    {
        let ghost fds = self.filedescriptortable@;
        let ghost c0 = *self;
        let mut fd: i32 = 0;
        while fd < MAXFD
            invariant
                self.inv(fs),
                same_but_fds(c0, *self),
                fds.len() == MAXFD,
                0 <= fd <= MAXFD,
                close_from(old(fs)@, fds, 0, all) == close_from(fs@, fds, fd as int, all),
                net.wf(),
                close_from_net(old(fs)@, old(net)@, c0.cwd_view(), fds, 0, all) == close_from_net(fs@, net@, c0.cwd_view(), fds, fd as int, all),
                forall|j: int| fd <= j < MAXFD ==> self.filedescriptortable@[j] == fds[j],
                forall|j: int| 0 <= j < fd ==> self.filedescriptortable@[j] == (if all {
                    None::<FileDescriptor>
                } else {
                    without_cloexec(fds)[j]
                }),
            decreases MAXFD - fd,
        {
            let d = self.get_fd(fd);
            let close_it = match d {
                None => false,
                Some(x) => all || x.get_flags() & O_CLOEXEC != 0,
            };
            if close_it {
                self.release_socket_path(fs, net, fd);
                self._close_helper(fs, fd);
            } else {
                proof {
                    if all {
                        assert(close_inner_outcome(fs@, fds[fd as int]).1 == fs@);
                        assert(close_net_effect(fs@, net@, c0.cwd_view(), fds[fd as int]) == net@);
                    }
                }
            }
            fd = fd + 1;
        }
        proof {
            if all {
                assert(self.filedescriptortable@ =~= Seq::new(MAXFD as nat, |i: int| None::<FileDescriptor>));
            } else {
                assert(self.filedescriptortable@ =~= without_cloexec(fds));
            }
        }
    }

    /// Replaces the cage by a fresh one with id `child_cageid` after an exec: its shared
    /// memory mappings are dropped and its close-on-exec descriptors closed; the new cage keeps
    /// the other descriptors, the working directory, the parent, the signal mask and the
    /// timer, and starts with fresh ids and empty tables.
    pub fn exec_syscall(self, fs: &mut FilesystemMetadata, shm: &mut ShmMetadata, net: &mut NetMetadata, child_cageid: u64) -> (newcage: Cage)
        requires
            self.inv(old(fs)),
            old(shm).wf(),
            old(net).wf(),
        ensures
            newcage.inv(final(fs)),
            final(net).wf(),
            final(net)@ == close_from_net(old(fs)@, old(net)@, self.cwd_view(), self.filedescriptortable@, 0, false),
            final(shm).wf(),
            final(shm)@ == release_all(old(shm)@, self.rev_shm@, 0, self.cageid),
            final(fs)@ == close_from(old(fs)@, self.filedescriptortable@, 0, false),
            newcage.cageid == child_cageid,
            newcage.parent == self.parent,
            newcage.filedescriptortable@ == without_cloexec(self.filedescriptortable@),
            newcage.cwd_view() == self.cwd_view(),
            !newcage.cancelstatus,
            newcage.getgid == -1 && newcage.getuid == -1 && newcage.getegid == -1 && newcage.geteuid == -1,
            newcage.rev_shm@.len() == 0,
            newcage.mutex_table@.len() == 0,
            newcage.cv_table@.len() == 0,
            newcage.sem_table@.len() == 0,
            newcage.signalhandler@.len() == 0,
            newcage.sigset == self.sigset,
            newcage.pendingsigset == 0,
            newcage.main_threadid == 0,
            newcage.interval_timer == self.interval_timer,
            newcage.epoll_table == self.epoll_table,
    {
        let mut me = self;
        me.unmap_shm_mappings(shm);
        me.close_marked(fs, net, false);
        Cage {
            cageid: child_cageid,
            cwd: me.cwd,
            parent: me.parent,
            filedescriptortable: me.filedescriptortable,
            cancelstatus: false,
            getgid: -1,
            getuid: -1,
            getegid: -1,
            geteuid: -1,
            rev_shm: Vec::new(),
            mutex_table: Vec::new(),
            cv_table: Vec::new(),
            sem_table: Vec::new(),
            signalhandler: Vec::new(),
            sigset: me.sigset,
            pendingsigset: 0,
            main_threadid: 0,
            interval_timer: me.interval_timer,
            epoll_table: me.epoll_table,
        }
    }

    /// Ends the cage: drops its shared memory mappings, closes every descriptor, lets go of
    /// the working directory, and returns `status`.
    pub fn exit_syscall(&mut self, fs: &mut FilesystemMetadata, shm: &mut ShmMetadata, net: &mut NetMetadata, status: i32) -> (ret: i32)
        requires
            old(self).inv(old(fs)),
            old(shm).wf(),
            old(net).wf(),
        ensures
            ret == status,
            final(net).wf(),
            final(net)@ == close_from_net(old(fs)@, old(net)@, old(self).cwd_view(), old(self).filedescriptortable@, 0, true),
            final(self).inv(final(fs)),
            same_but_fds(*old(self), *final(self)),
            final(self).filedescriptortable@ == Seq::new(MAXFD as nat, |i: int| None::<FileDescriptor>),
            final(shm).wf(),
            final(shm)@ == release_all(old(shm)@, old(self).rev_shm@, 0, old(self).cageid),
            ({
                let closed = close_from(old(fs)@, old(self).filedescriptortable@, 0, true);
                final(fs)@ == release_dir(closed, spec_walk(closed, old(self).cwd_view()).0)
            }),
    {
        self.unmap_shm_mappings(shm);
        self.close_marked(fs, net, true);
        let ghost fs_mid = *fs;
        let (cwdino, _) = fs.metawalkandparent(&self.cwd);
        release_dir_exec(fs, cwdino);
        proof {
            lemma_refs_ok_update(self, self, &fs_mid, fs, 0, self.fd(0));
        }
        status
    }
}

} // verus!
