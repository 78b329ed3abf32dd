//! Properties that hold across calls, stated over the same spec functions the calls' own
//! contracts use.
use vstd::prelude::*;
use crate::errno::{err, EAGAIN};
use crate::fs_constants::{LOCK_SH, LOCK_EX, LOCK_UN, S_FILETYPEFLAGS, S_IRWXA};
use crate::filesystem::{FsView, spec_walk, fits, AdvisoryLock, PipeView, PIPE_CAPACITY, InodeView, InodeMeta, dir_lookup, dir_insert, dir_remove, names_unique, lemma_dir_insert_lookup, lemma_dir_remove_lookup};
use crate::fs_io::{read_range, write_range};
use crate::fs_stat::{chmod_mode, zero_extend, stat_outcome, fstat_outcome};
use crate::fs_constants::StatData;
use crate::cage::FileDesc;
use crate::fs_calls::{with_link_inc, with_link_dec, mkdir_outcome, push_inode, new_dir_view, link_in_dir, open_outcome, new_file_meta};
use crate::cage::FileDescriptor;
use crate::fs_constants::O_APPEND;
use crate::fd_calls::flock_outcome;
use crate::pipe::{pipe_read_outcome, pipe_write_outcome};
use crate::sync::{sem_wait_outcome, sem_post_outcome, first_free, put_first_free, valid_handle, SEM_VALUE_MAX, sem_view, put_sem, shared_at, lemma_shared_from_same_places, lemma_shared_from_held};
use crate::cage::{Semaphore, EpollEvent};
use crate::shm::{ShmView, inherit_mappings, with_nattch, shmget_outcome, attach_one, detach_one, IPC_PRIVATE, IPC_CREAT, IPC_EXCL, SHMMIN, SHMMAX};
use crate::net::SocketHandle;
use crate::net_calls::{getsockopt_outcome, setsockopt_outcome, opt_bit, set_bit};
use crate::net::{SOL_SOCKET, SOL_TCP, TCP_NODELAY, SO_SNDBUF, SO_RCVBUF, SO_LINGER, SO_KEEPALIVE, SO_REUSEPORT, SO_REUSEADDR};
use crate::filesystem::sat_inc;
use crate::filesystem::peek_of;
use crate::net::{ConnState, GenSockaddr, AF_UNIX, IPPROTO_TCP};
use crate::net_calls::sock_of;
use crate::sock_io::{send_outcome, recv_outcome, send_pipe, recv_pipe, MSG_PEEK};
use crate::sock_conn::{connect_unix_outcome, accept_unix_handle, accept_key};
use crate::unix_net::NetView;
use crate::readiness::{pipe_readable, pipe_writable};
use crate::path::{path_text, spec_normpath};
use crate::unix_net::sun_path;

use crate::fs_stat::{access_outcome, access_bits};
use crate::fs_constants::{R_OK, W_OK, X_OK, S_IRUSR, S_IWUSR, S_IXUSR, SEEK_SET, SEEK_CUR, SEEK_END, O_RDWRFLAGS, F_SETFL, F_GETFL, O_TRUNC, O_CREAT, O_EXCL, O_NOCTTY};
use crate::fs_io::lseek_outcome;
use crate::fd_calls::{fcntl_outcome, setfl_kept, getdents_outcome, dents, CLIPPED_DIRENT_SIZE};
use crate::fs_constants::MAXFD;
use crate::errno::EACCES;

verus! {

/// Reading a file where bytes were just written gives those bytes back; the bytes before
/// the write stay, and the file is as long as the longer of its old end and the write's end.
pub proof fn law_read_after_write(data: Seq<u8>, pos: int, bytes: Seq<u8>)
    requires
        pos >= 0,
    ensures
        read_range(write_range(data, pos, bytes), pos, bytes.len() as int) == bytes,
        write_range(data, pos, bytes).len() == (if pos + bytes.len() > data.len() { pos + bytes.len() } else { data.len() as int }),
        forall|i: int| 0 <= i < pos && i < data.len() ==> #[trigger] write_range(data, pos, bytes)[i] == data[i],
        forall|i: int| pos + bytes.len() <= i < data.len() ==> #[trigger] write_range(data, pos, bytes)[i] == data[i],
{
    let w = write_range(data, pos, bytes);
    if bytes.len() > 0 {
        assert(read_range(w, pos, bytes.len() as int) =~= bytes);
    } else {
        assert(read_range(w, pos, 0) =~= bytes);
    }
}

/// A pipe hands bytes out in the order they went in: after one write that fits into the free
/// space of a pipe with a reader, reading everything gives the old contents followed by the
/// written bytes, and leaves the pipe empty.
pub proof fn law_pipe_fifo(p: PipeView, bytes: Seq<u8>)
    requires
        p.refcount_read > 0,
        bytes.len() > 0,
        p.buffer.len() + bytes.len() <= PIPE_CAPACITY,
    ensures
        pipe_write_outcome(p, bytes).0 == bytes.len(),
        ({
            let q = pipe_write_outcome(p, bytes).1;
            let r = pipe_read_outcome(q, q.buffer.len() as usize);
            &&& r.0 == p.buffer.len() + bytes.len()
            &&& r.1 == p.buffer + bytes
            &&& r.2.buffer.len() == 0
        }),
{
    let q = pipe_write_outcome(p, bytes).1;
    assert(bytes.subrange(0, bytes.len() as int) =~= bytes);
    assert(q.buffer =~= p.buffer + bytes);
    assert(q.buffer.subrange(0, q.buffer.len() as int) =~= q.buffer);
    assert(q.buffer.subrange(q.buffer.len() as int, q.buffer.len() as int) =~= Seq::<u8>::empty());
}

/// Changing permissions never changes the kind of file: the file type bits of the mode stay
/// for every permission argument that `chmod` accepts.
pub proof fn law_chmod_keeps_type(old_mode: u32, mode: u32)
    requires
        mode & S_IRWXA == mode,
    ensures
        chmod_mode(old_mode, mode) & (S_FILETYPEFLAGS as u32) == old_mode & (S_FILETYPEFLAGS as u32),
        chmod_mode(old_mode, mode) & S_IRWXA == mode,
{
    assert((((old_mode & !0o777u32) | mode) & 0o170000u32) == (old_mode & 0o170000u32)) by (bit_vector)
        requires
            mode & 0o777u32 == mode,
    ;
    assert((((old_mode & !0o777u32) | mode) & 0o777u32) == mode) by (bit_vector)
        requires
            mode & 0o777u32 == mode,
    ;
}

/// Truncating to a length keeps the bytes below it and reads zeros above the old end.
pub proof fn law_truncate_keeps_prefix(data: Seq<u8>, len: int)
    requires
        len >= 0,
    ensures
        zero_extend(data, len).len() == len,
        forall|i: int| 0 <= i < len && i < data.len() ==> #[trigger] zero_extend(data, len)[i] == data[i],
        forall|i: int| data.len() <= i < len ==> #[trigger] zero_extend(data, len)[i] == 0,
{
}

/// A link made and then removed leaves the inode's link count as it was.
pub proof fn law_link_unlink_restores(iv: InodeView)
    requires
        iv.meta().linkcount < u32::MAX,
    ensures
        with_link_dec(with_link_inc(iv)) == iv,
{
}

/// Renaming within a directory moves the entry: the new name finds the inode, the old name
/// finds nothing, and every other name finds what it found before.
pub proof fn law_rename_moves_entry(e: Seq<(Seq<u8>, usize)>, oldname: Seq<u8>, newname: Seq<u8>, n: usize, other: Seq<u8>)
    requires
        names_unique(e),
        oldname != newname,
        dir_lookup(e, oldname) == Some(n),
        other != oldname,
        other != newname,
    ensures
        dir_lookup(dir_remove(dir_insert(e, newname, n), oldname), newname) == Some(n),
        dir_lookup(dir_remove(dir_insert(e, newname, n), oldname), oldname) is None,
        dir_lookup(dir_remove(dir_insert(e, newname, n), oldname), other) == dir_lookup(e, other),
{
    lemma_dir_insert_lookup(e, newname, n, newname);
    lemma_dir_insert_lookup(e, newname, n, oldname);
    lemma_dir_insert_lookup(e, newname, n, other);
    let e1 = dir_insert(e, newname, n);
    lemma_dir_remove_lookup(e1, oldname, newname);
    lemma_dir_remove_lookup(e1, oldname, oldname);
    lemma_dir_remove_lookup(e1, oldname, other);
}

/// An exclusive lock shuts out every other lock until it is let go of, and letting go of it
/// frees the lock.
pub proof fn law_flock_exclusive(l: AdvisoryLock)
    requires
        flock_outcome(l, LOCK_EX).0 == 0,
    ensures
        flock_outcome(flock_outcome(l, LOCK_EX).1, LOCK_SH).0 == err(EAGAIN),
        flock_outcome(flock_outcome(l, LOCK_EX).1, LOCK_EX).0 == err(EAGAIN),
        flock_outcome(flock_outcome(l, LOCK_EX).1, LOCK_UN) == (0int, l),
{
    assert(LOCK_EX & (LOCK_SH | LOCK_EX | LOCK_UN) == LOCK_EX) by (bit_vector);
    assert(LOCK_SH & (LOCK_SH | LOCK_EX | LOCK_UN) == LOCK_SH) by (bit_vector);
    assert(LOCK_UN & (LOCK_SH | LOCK_EX | LOCK_UN) == LOCK_UN) by (bit_vector);
}

/// Shared locks do not shut each other out.
pub proof fn law_flock_shared(l: AdvisoryLock)
    requires
        0 <= l.state < i32::MAX - 1,
    ensures
        flock_outcome(l, LOCK_SH).0 == 0,
        flock_outcome(flock_outcome(l, LOCK_SH).1, LOCK_SH).0 == 0,
        flock_outcome(flock_outcome(l, LOCK_SH).1, LOCK_UN).1 == l,
{
    assert(LOCK_SH & (LOCK_SH | LOCK_EX | LOCK_UN) == LOCK_SH) by (bit_vector);
    assert(LOCK_UN & (LOCK_SH | LOCK_EX | LOCK_UN) == LOCK_UN) by (bit_vector);
}

/// Posting to a semaphore and then waiting on it leaves everything as it was: the cage's own
/// semaphores and the shared ones, whichever the semaphore is.
pub proof fn law_sem_post_wait(local: Map<u32, Semaphore>, shm: ShmView, rev: Seq<(u32, i32)>, h: u32)
    requires
        sem_view(local, shm, rev).contains_key(h),
        sem_view(local, shm, rev)[h].value < SEM_VALUE_MAX,
    ensures
        sem_post_outcome(sem_view(local, shm, rev), h).0 == 0,
        ({
            let posted = put_sem(local, shm, rev, h, sem_post_outcome(sem_view(local, shm, rev), h).1[h]);
            let seen = sem_view(posted.0, posted.1, rev);
            &&& sem_wait_outcome(seen, h).0 == 0
            &&& put_sem(posted.0, posted.1, rev, h, sem_wait_outcome(seen, h).1[h]) == (local, shm)
        }),
{
    let m = sem_view(local, shm, rev);
    let up = Semaphore { value: (m[h].value + 1) as u32, ..m[h] };
    let posted = put_sem(local, shm, rev, h, up);
    lemma_shared_from_held(shm, rev, h, 0);
    match shared_at(shm, rev, h) {
        Some(l) => {
            assert(shm.sems.insert(l, up).dom() =~= shm.sems.dom());
            lemma_shared_from_same_places(shm, posted.1, rev, h, 0);
            assert(posted.1.sems.insert(l, m[h]) =~= shm.sems);
        },
        None => {
            assert(posted.0.insert(h, m[h]) =~= local);
        },
    }
}

/// What a child inherits of the shared memory tables keeps every segment's size and every
/// shared semaphore.
proof fn lemma_inherit_keeps_places(s: ShmView, rev: Seq<(u32, i32)>, i: int, parent: u64, child: u64)
    ensures
        inherit_mappings(s, rev, i, parent, child).sems == s.sems,
        inherit_mappings(s, rev, i, parent, child).segs.dom() == s.segs.dom(),
        forall|id: i32| #[trigger] s.segs.contains_key(id)
            ==> inherit_mappings(s, rev, i, parent, child).segs[id].size == s.segs[id].size,
    decreases rev.len() - i,
{
    if 0 <= i < rev.len() {
        let id = rev[i].1;
        let s1 = if s.segs.contains_key(id) {
            let seg = s.segs[id];
            let t = ShmView { segs: s.segs.insert(id, with_nattch(seg, sat_inc(seg.shminfo.shm_nattch))), ..s };
            if s.attached.contains_key((id, parent)) {
                ShmView { attached: t.attached.insert((id, child), s.attached[(id, parent)]), ..t }
            } else {
                t
            }
        } else {
            s
        };
        assert(s1.segs.dom() =~= s.segs.dom());
        lemma_inherit_keeps_places(s1, rev, i + 1, parent, child);
    }
}

/// A forked child sees the same semaphores as its parent did: its own are copies of the
/// parent's, and it finds the shared ones through the same mappings.
pub proof fn law_fork_sees_same_semaphores(local: Map<u32, Semaphore>, s: ShmView, rev: Seq<(u32, i32)>, parent: u64, child: u64)
    ensures
        sem_view(local, inherit_mappings(s, rev, 0, parent, child), rev) == sem_view(local, s, rev),
{
    let t = inherit_mappings(s, rev, 0, parent, child);
    lemma_inherit_keeps_places(s, rev, 0, parent, child);
    assert forall|h: u32| shared_at(t, rev, h) == shared_at(s, rev, h) by {
        lemma_shared_from_same_places(t, s, rev, h, 0);
    }
    assert(sem_view(local, t, rev) =~= sem_view(local, s, rev));
}

/// A wait on a semaphore with no units changes nothing and asks the caller to wait.
pub proof fn law_sem_wait_empty(m: Map<u32, Semaphore>, h: u32)
    requires
        m.contains_key(h),
        m[h].value == 0,
    ensures
        sem_wait_outcome(m, h) == (err(EAGAIN), m),
{
}

/// A created mutex or condition variable names a valid slot, which destroying frees again.
pub proof fn law_create_destroy<T>(t: Seq<Option<T>>, x: T)
    requires
        t.len() < i32::MAX,
    ensures
        valid_handle(put_first_free(t, x), first_free(t) as i32),
        !valid_handle(put_first_free(t, x).update(first_free(t), None), first_free(t) as i32),
        forall|h: i32| h != first_free(t) ==> (valid_handle(put_first_free(t, x), h) == valid_handle(t, h)),
{
    if exists|i: int| 0 <= i < t.len() && #[trigger] t[i] is None {
        let w = choose|i: int| 0 <= i < t.len() && #[trigger] t[i] is None;
        lemma_lowest_none(t, w);
    }
}

proof fn lemma_lowest_none<T>(t: Seq<Option<T>>, w: int)
    requires
        0 <= w < t.len(),
        t[w] is None,
    ensures
        exists|i: int| 0 <= i < t.len() && #[trigger] t[i] is None && forall|j: int| 0 <= j < i ==> t[j] is Some,
    decreases w,
{
    if exists|j: int| 0 <= j < w && #[trigger] t[j] is None {
        let j = choose|j: int| 0 <= j < w && #[trigger] t[j] is None;
        lemma_lowest_none(t, j);
    } else {
        assert(forall|j: int| 0 <= j < w ==> t[j] is Some);
    }
}

/// Asking again for the segment of a key that the first call found or made gives the same id
/// and changes nothing, unless the second call insists on a new segment.
pub proof fn law_shmget_again(s: ShmView, c1: u64, c2: u64, key: i32, size1: usize, size2: usize, flg1: i32, flg2: i32)
    requires
        key != IPC_PRIVATE,
        s.keys.contains_key(key) ==> (IPC_CREAT | IPC_EXCL) != (flg1 & (IPC_CREAT | IPC_EXCL)),
        !s.keys.contains_key(key) ==> flg1 & IPC_CREAT != 0 && SHMMIN <= size1 as u32 <= SHMMAX,
        (IPC_CREAT | IPC_EXCL) != (flg2 & (IPC_CREAT | IPC_EXCL)),
    ensures
        ({
            let (r1, s1) = shmget_outcome(s, c1, key, size1, flg1);
            shmget_outcome(s1, c2, key, size2, flg2) == (r1, s1)
        }),
{
}

/// An option value set with `setsockopt` is what `getsockopt` reads back: the number itself
/// for the buffer sizes, and 1 or 0 for the on/off options.
pub proof fn law_sockopt_roundtrip(h: SocketHandle, level: i32, optname: i32, optval: i32)
    requires
        (level == SOL_SOCKET && (optname == SO_SNDBUF || optname == SO_RCVBUF || optname == SO_LINGER
            || optname == SO_KEEPALIVE || optname == SO_REUSEPORT || optname == SO_REUSEADDR))
        || (level == SOL_TCP && optname == TCP_NODELAY),
    ensures
        setsockopt_outcome(h, level, optname, optval).0 == 0,
        getsockopt_outcome(setsockopt_outcome(h, level, optname, optval).1, level, optname).0 == 0,
        getsockopt_outcome(setsockopt_outcome(h, level, optname, optval).1, level, optname).1 == Some(
            if optname == SO_SNDBUF || optname == SO_RCVBUF { optval } else if optval != 0 { 1i32 } else { 0i32 },
        ),
{
    let bit = opt_bit(optname);
    let k = (optname & 31) as u32;
    assert(k < 32) by (bit_vector)
        requires
            k == (optname & 31) as u32,
    ;
    assert(((1u32 << k) as i32) != 0) by (bit_vector)
        requires
            k < 32,
    ;
    assert forall|w: i32, on: bool|
        (#[trigger] set_bit(w, bit, on) & bit == bit) == on && (bit & set_bit(w, bit, on) == bit) == on by {
        assert((w | bit) & bit == bit) by (bit_vector);
        assert((w & !bit) & bit == 0) by (bit_vector);
        assert(bit & (w | bit) == bit) by (bit_vector);
        assert(bit & (w & !bit) == 0) by (bit_vector);
    }
}


/// Attaching a segment that is not marked for removal and then detaching it once leaves the
/// shared memory tables as they were.
pub proof fn law_shm_attach_detach(s: ShmView, shmid: i32, cageid: u64)
    requires
        s.segs.contains_key(shmid),
        !s.segs[shmid].rmid,
        s.segs[shmid].shminfo.shm_nattch < u32::MAX,
        s.attached.contains_key((shmid, cageid)) ==> 0 < s.attached[(shmid, cageid)] < u32::MAX,
    ensures
        detach_one(attach_one(s, shmid, cageid), shmid, cageid) == s,
{
    let t = detach_one(attach_one(s, shmid, cageid), shmid, cageid);
    assert(t.segs[shmid] == s.segs[shmid]);
    assert(t.segs =~= s.segs);
    assert(t.attached =~= s.attached);
    assert(t.keys =~= s.keys);
}

/// Blocking signals that were not blocked and then unblocking them gives the mask back.
pub proof fn law_sigmask_block_unblock(mask: u64, set: u64)
    requires
        mask & set == 0,
    ensures
        (mask | set) & !set == mask,
{
    assert((mask | set) & !set == mask) by (bit_vector)
        requires
            mask & set == 0,
    ;
}

/// Registering a descriptor with an epoll instance and then removing it gives the
/// registrations back.
pub proof fn law_epoll_add_del(m: Map<i32, EpollEvent>, fd: i32, e: EpollEvent)
    requires
        !m.contains_key(fd),
    ensures
        m.insert(fd, e).contains_key(fd),
        m.insert(fd, e).remove(fd) == m,
{
    assert(m.insert(fd, e).remove(fd) =~= m);
}


proof fn lemma_walk_failure_sticks(fs: FsView, c: Seq<Seq<u8>>, k: int)
    requires
        0 <= k <= c.len(),
        spec_walk(fs, c.take(k)).0 is None,
    ensures
        spec_walk(fs, c).0 is None,
    decreases c.len() - k,
{
    if k == c.len() {
        assert(c.take(k) =~= c);
    } else {
        assert(c.take(k + 1).drop_last() =~= c.take(k));
        lemma_walk_failure_sticks(fs, c, k + 1);
    }
}

proof fn lemma_walk_prefix_kept(fs: FsView, fs2: FsView, path: Seq<Seq<u8>>, p: usize, last: Seq<u8>, n: usize, k: int)
    requires
        fs.wf(),
        0 <= k <= path.len(),
        spec_walk(fs, path).0 == Some(p),
        fs.has(p as int),
        fs.get(p as int) matches InodeView::Dir(_, e) && dir_lookup(e, last) is None,
        n == fs.inodes.len(),
        fs2.inodes.len() == fs.inodes.len() + 1,
        forall|i: int| 0 <= i < fs.inodes.len() && i != p ==> fs2.inodes[i] == fs.inodes[i],
        fs2.inodes[p as int] == Some(match fs.get(p as int) {
            InodeView::Dir(m, e) => InodeView::Dir(InodeMeta { linkcount: sat_inc(m.linkcount), ..m }, dir_insert(e, last, n)),
            other => other,
        }),
    ensures
        spec_walk(fs2, path.take(k)) == spec_walk(fs, path.take(k)),
        spec_walk(fs, path.take(k)).0 is Some,
    decreases k,
{
    if spec_walk(fs, path.take(k)).0 is None {
        lemma_walk_failure_sticks(fs, path, k);
    }
    if k == 0 {
        assert(path.take(0) =~= Seq::<Seq<u8>>::empty());
    } else {
        lemma_walk_prefix_kept(fs, fs2, path, p, last, n, k - 1);
        let c = path.take(k);
        assert(c.drop_last() =~= path.take(k - 1));
        let m = spec_walk(fs, path.take(k - 1)).0->Some_0;
        assert(fs.has(m as int));
        if m != p {
            assert(fs2.inodes[m as int] == fs.inodes[m as int]);
        } else {
            match fs.get(p as int) {
                InodeView::Dir(md, e) => {
                    assert(fits(fs.inodes[p as int], fs.contents[p as int]));
                    lemma_dir_insert_lookup(e, last, n, c.last());
                },
                _ => {},
            }
        }
    }
}

/// A directory made by `mkdir` is found at its path: the path names the new inode, a
/// directory whose entries are "." for itself and ".." for the directory that holds it.
pub proof fn law_mkdir_then_walk(fs: FsView, comps: Seq<Seq<u8>>, pathlen: nat, mode: u32)
    requires
        fs.wf(),
        fs.inodes.len() < usize::MAX,
        mkdir_outcome(fs, comps, pathlen, mode).0 == 0,
    ensures
        ({
            let fs2 = mkdir_outcome(fs, comps, pathlen, mode).1;
            let n = fs.inodes.len() as usize;
            let p = spec_walk(fs, comps).1->Some_0;
            &&& spec_walk(fs2, comps) == (Some(n), Some(p))
            &&& fs2.has(n as int)
            &&& fs2.get(n as int) == new_dir_view(mode, n, p)
        }),
{
    let fs2 = mkdir_outcome(fs, comps, pathlen, mode).1;
    let n = fs.inodes.len() as usize;
    let p = spec_walk(fs, comps).1->Some_0;
    assert(comps.len() > 0);
    let path = comps.drop_last();
    let last = comps.last();
    let fs1 = push_inode(fs, new_dir_view(mode, n, p));
    assert(fs1.get(p as int) == fs.get(p as int));
    lemma_walk_prefix_kept(fs, fs2, path, p, last, n, path.len() as int);
    assert(path.take(path.len() as int) =~= path);
    match fs.get(p as int) {
        InodeView::Dir(md, e) => {
            assert(fits(fs.inodes[p as int], fs.contents[p as int]));
            lemma_dir_insert_lookup(e, last, n, last);
        },
        _ => {},
    }
}


/// A file made by `open` with `O_CREAT` is found at its path: the path names the new inode,
/// an empty regular file, and the returned descriptor refers to it from its start.
pub proof fn law_create_then_walk(
    fs: FsView,
    fds: Seq<Option<FileDescriptor>>,
    lowest: Option<i32>,
    comps: Seq<Seq<u8>>,
    pathlen: nat,
    flags: i32,
    mode: u32,
)
    requires
        fs.wf(),
        fs.inodes.len() < usize::MAX,
        spec_walk(fs, comps).0 is None,
        lowest matches Some(f) ==> 0 <= f < fds.len(),
        open_outcome(fs, fds, lowest, comps, pathlen, flags, mode).0 >= 0,
    ensures
        ({
            let o = open_outcome(fs, fds, lowest, comps, pathlen, flags, mode);
            let n = fs.inodes.len() as usize;
            let fd = o.0;
            &&& spec_walk(o.1, comps).0 == Some(n)
            &&& o.1.has(n as int)
            &&& o.1.get(n as int) == InodeView::File(new_file_meta(mode))
            &&& o.1.contents[n as int] == Seq::<u8>::empty()
            &&& o.2[fd] matches Some(FileDescriptor::File(f)) && f.inode == n && (flags & O_APPEND == 0 ==> f.position == 0)
        }),
{
    let o = open_outcome(fs, fds, lowest, comps, pathlen, flags, mode);
    let n = fs.inodes.len() as usize;
    let p = spec_walk(fs, comps).1->Some_0;
    assert(comps.len() > 0);
    let path = comps.drop_last();
    let last = comps.last();
    lemma_walk_prefix_kept(fs, o.1, path, p, last, n, path.len() as int);
    assert(path.take(path.len() as int) =~= path);
    match fs.get(p as int) {
        InodeView::Dir(md, e) => {
            assert(fits(fs.inodes[p as int], fs.contents[p as int]));
            lemma_dir_insert_lookup(e, last, n, last);
        },
        _ => {},
    }
}

/// What one unix stream socket sends, the socket at the other end of its pipe receives: with
/// nothing held back by a peek and an empty pipe with a reader, a send that fits is taken
/// whole, and a receive of that many bytes gives them back in order.
pub proof fn law_socket_send_recv(fs: FsView, da: Option<FileDescriptor>, db: Option<FileDescriptor>, bytes: Seq<u8>, n: usize)
    requires
        fs.wf(),
        sock_of(fs, da) matches Some((_, ha)) && ha.domain == AF_UNIX && ha.protocol == IPPROTO_TCP
            && ha.state == ConnState::CONNECTED,
        sock_of(fs, db) matches Some((ib, hb)) && hb.protocol == IPPROTO_TCP && hb.state == ConnState::CONNECTED
            && peek_of(fs, ib).len() == 0,
        send_pipe(sock_of(fs, da)->Some_0.1) is Some,
        recv_pipe(sock_of(fs, db)->Some_0.1) == send_pipe(sock_of(fs, da)->Some_0.1),
        0 <= send_pipe(sock_of(fs, da)->Some_0.1)->Some_0 < fs.pipes.len(),
        fs.pipes[send_pipe(sock_of(fs, da)->Some_0.1)->Some_0 as int].refcount_read > 0,
        fs.pipes[send_pipe(sock_of(fs, da)->Some_0.1)->Some_0 as int].buffer.len() == 0,
        0 < bytes.len() <= PIPE_CAPACITY,
        n == bytes.len(),
    ensures
        send_outcome(fs, da, bytes).0 == bytes.len(),
        recv_outcome(send_outcome(fs, da, bytes).1, db, n, 0).0 == bytes.len(),
        recv_outcome(send_outcome(fs, da, bytes).1, db, n, 0).1 == bytes,
{
    let p = send_pipe(sock_of(fs, da)->Some_0.1)->Some_0;
    let s = send_outcome(fs, da, bytes);
    let q = pipe_write_outcome(fs.pipes[p as int], bytes).1;
    assert(bytes.subrange(0, bytes.len() as int) =~= bytes);
    assert(q.buffer =~= bytes);
    assert(s.1.pipes[p as int] == q);
    let ib = sock_of(fs, db)->Some_0.0;
    assert(s.1.sockets == fs.sockets);
    assert(peek_of(s.1, ib) == peek_of(fs, ib));
    assert(0i32 & 2 == 0) by (bit_vector);
    assert(peek_of(fs, ib).take(0) =~= Seq::<u8>::empty());
    assert(q.buffer.subrange(0, n as int) =~= bytes);
    assert(Seq::<u8>::empty() + bytes =~= bytes);
}

/// Peeking takes nothing away: after a peek that succeeds, a plain receive of the same size
/// gives the same bytes.
pub proof fn law_peek_then_recv(fs: FsView, d: Option<FileDescriptor>, n: usize)
    requires
        fs.wf(),
        sock_of(fs, d) matches Some((i, h)) && 0 <= i < fs.sockets.len() && h.protocol == IPPROTO_TCP
            && (h.state == ConnState::CONNECTED || h.state == ConnState::CONNRDONLY),
    ensures
        recv_outcome(fs, d, n, MSG_PEEK).0 >= 0 ==> {
            let a = recv_outcome(fs, d, n, MSG_PEEK);
            let b = recv_outcome(a.2, d, n, 0);
            b.0 == a.0 && b.1 == a.1
        },
{
    let (i, h) = sock_of(fs, d)->Some_0;
    assert(2i32 & 2 != 0) by (bit_vector);
    assert(0i32 & 2 == 0) by (bit_vector);
    let a = recv_outcome(fs, d, n, MSG_PEEK);
    if a.0 >= 0 {
        let pk = peek_of(fs, i);
        let count = if pk.len() < n { pk.len() as int } else { n as int };
        assert(sock_of(a.2, d) == Some((i, h)));
        if pk.len() > 0 && count == n {
            assert(a.2 == fs);
        } else {
            match recv_pipe(h) {
                None => {
                    assert(a.2 == fs);
                    assert(pk.skip(count) =~= Seq::<u8>::empty());
                },
                Some(p) => {
                    assert(crate::filesystem::socket_pipes_ok(fs.sockets[i], fs.pipes.len()));
                    let o = pipe_read_outcome(fs.pipes[p as int], (n - count) as usize);
                    if o.0 < 0 {
                        assert(a.2 == fs);
                        assert(pk.skip(count) =~= Seq::<u8>::empty());
                        assert(pk.take(count) =~= pk);
                    } else {
                        let pk2 = peek_of(a.2, i);
                        assert(pk2 =~= pk + o.1);
                        assert(pk.take(count) =~= pk);
                        assert(a.1 =~= pk + o.1);
                        let fs2 = crate::filesystem::FilesystemMetadata::with_pipe(fs, p as int, o.2);
                        assert(a.2.pipes == fs2.pipes);
                        if pk2.len() >= n {
                            assert(pk2.take(n as int) =~= pk2);
                        } else {
                            assert(pk2.take(pk2.len() as int) =~= pk2);
                            assert(pk2.skip(pk2.len() as int) =~= Seq::<u8>::empty());
                            assert(o.2.buffer.len() == 0);
                            assert(pk2 + Seq::<u8>::empty() =~= pk2);
                        }
                    }
                },
            }
        }
    }
}

/// Connecting and accepting join two unix stream sockets crosswise: the connection a
/// successful connect announces on the listening path carries the connecting socket's pipes,
/// and the socket accepted from it receives on the pipe the connecting socket sends on, and
/// sends on the one it receives from. Both ends are connected, and the accepted one has the
/// connecting socket's address as its peer.
pub proof fn law_connect_then_accept(fs: FsView, net: NetView, cwd: Seq<Seq<u8>>, hi: int, remote: GenSockaddr,
    blocking: bool, fs2: FsView, cwd2: Seq<Seq<u8>>, lh: SocketHandle, flags: i32)
    requires
        0 <= hi < fs.sockets.len(),
        fs.sockets[hi].localaddr is Some,
        fs.sockets[hi].unix_info is Some,
        connect_unix_outcome(fs, net, cwd, hi, remote, blocking).0 == 0,
        lh.localaddr is Some,
        accept_key(cwd2, lh) == path_text(spec_normpath(cwd, sun_path(remote))),
        ({
            let c = connect_unix_outcome(fs, net, cwd, hi, remote, blocking);
            let e = c.2.pending[accept_key(cwd2, lh)];
            spec_walk(fs2, spec_normpath(cwd2, sun_path(e.sockaddr))).0 is Some
        }),
    ensures
        ({
            let c = connect_unix_outcome(fs, net, cwd, hi, remote, blocking);
            let key = accept_key(cwd2, lh);
            let e = c.2.pending[key];
            let ch = c.1.sockets[hi];
            let nh = accept_unix_handle(fs2, cwd2, lh, flags, e);
            &&& c.2.pending.contains_key(key)
            &&& ch.state == ConnState::CONNECTED
            &&& ch.remoteaddr == Some(remote)
            &&& nh.state == ConnState::CONNECTED
            &&& nh.remoteaddr == ch.localaddr
            &&& send_pipe(ch) is Some && recv_pipe(ch) is Some
            &&& recv_pipe(nh) == send_pipe(ch)
            &&& send_pipe(nh) == recv_pipe(ch)
        }),
{
}

/// Readiness tells the truth about pipes: `select` and `poll` report a pipe readable exactly
/// when a read of any positive size would not have to wait (it gives data, or end of file).
pub proof fn law_readable_iff_read_proceeds(p: PipeView, count: usize)
    requires
        count > 0,
    ensures
        pipe_readable(p) <==> pipe_read_outcome(p, count).0 != err(EAGAIN),
{
}

/// And writable exactly when a write of some bytes, with a reader open, would not have to
/// wait.
pub proof fn law_writable_iff_write_proceeds(p: PipeView, bytes: Seq<u8>)
    requires
        p.refcount_read > 0,
        bytes.len() > 0,
    ensures
        pipe_writable(p) <==> pipe_write_outcome(p, bytes).0 != err(EAGAIN),
{
}


/// A file open at a descriptor and a path that names it report the same: `fstat` on the
/// descriptor and `stat` on the path both succeed or both fail, and where they succeed they
/// write the same data.
pub proof fn law_fstat_agrees_with_stat(fs: FsView, dev_id: u64, f: FileDesc, comps: Seq<Seq<u8>>, sb: StatData)
    requires
        spec_walk(fs, comps).0 == Some(f.inode),
    ensures
        (fstat_outcome(fs, dev_id, Some(FileDescriptor::File(f)), sb).0 == 0) == (stat_outcome(fs, dev_id, comps, sb).0 == 0),
        fstat_outcome(fs, dev_id, Some(FileDescriptor::File(f)), sb).0 == 0
            ==> fstat_outcome(fs, dev_id, Some(FileDescriptor::File(f)), sb).1 == stat_outcome(fs, dev_id, comps, sb).1,
{
}


/// `access` answers from the owner's permission bits: it grants `amode` when every bit it
/// asks for is set (reading needs `S_IRUSR`, writing `S_IWUSR`, running `S_IXUSR`) and
/// refuses an existing file that lacks one of them with `EACCES`.
pub proof fn law_access_checks_owner_bits(fs: FsView, comps: Seq<Seq<u8>>, amode: u32)
    requires
        spec_walk(fs, comps).0 matches Some(n) && fs.has(n as int),
    ensures
        ({
            let mode = fs.get(spec_walk(fs, comps).0->Some_0 as int).meta().mode;
            let granted = (amode & R_OK == R_OK ==> mode & S_IRUSR != 0)
                && (amode & W_OK == W_OK ==> mode & S_IWUSR != 0)
                && (amode & X_OK == X_OK ==> mode & S_IXUSR != 0);
            access_outcome(fs, comps, amode) == if granted { 0 } else { err(EACCES) }
        }),
{
    let mode = fs.get(spec_walk(fs, comps).0->Some_0 as int).meta().mode;
    let xb: u32 = if amode & X_OK == X_OK { S_IXUSR } else { 0u32 };
    let wb: u32 = if amode & W_OK == W_OK { S_IWUSR } else { 0u32 };
    let rb: u32 = if amode & R_OK == R_OK { S_IRUSR } else { 0u32 };
    assert(access_bits(amode) == xb | wb | rb);
    assert((mode & (xb | wb | rb) == (xb | wb | rb)) <==> (
        (amode & 4u32 == 4u32 ==> mode & 0o400u32 != 0)
        && (amode & 2u32 == 2u32 ==> mode & 0o200u32 != 0)
        && (amode & 1u32 == 1u32 ==> mode & 0o100u32 != 0))) by (bit_vector)
        requires
            xb == (if amode & 1u32 == 1u32 { 0o100u32 } else { 0u32 }),
            wb == (if amode & 2u32 == 2u32 { 0o200u32 } else { 0u32 }),
            rb == (if amode & 4u32 == 4u32 { 0o400u32 } else { 0u32 }),
    ;
}

/// `lseek` on a regular file moves its descriptor to the position it names and returns that
/// position: `SEEK_SET` counts from the start, `SEEK_CUR` from the current position and
/// `SEEK_END` from the end of the file, wherever the target lies between zero and `isize::MAX`.
pub proof fn law_lseek_moves_to_target(fs: FsView, f: FileDesc, offset: isize, whence: i32)
    requires
        fs.has(f.inode as int),
        fs.get(f.inode as int) is File,
        f.position <= isize::MAX,
        fs.get(f.inode as int).meta().size <= isize::MAX,
        whence == SEEK_SET || whence == SEEK_CUR || whence == SEEK_END,
        ({
            let base: int = if whence == SEEK_SET { 0 } else if whence == SEEK_CUR { f.position as int } else {
                fs.get(f.inode as int).meta().size as int };
            0 <= base + offset <= isize::MAX
        }),
    ensures
        ({
            let base: int = if whence == SEEK_SET { 0 } else if whence == SEEK_CUR { f.position as int } else {
                fs.get(f.inode as int).meta().size as int };
            let o = lseek_outcome(fs, Some(FileDescriptor::File(f)), offset, whence);
            &&& o.1 == Some((base + offset) as usize)
            &&& o.0 == (base + offset) as i32 as int
        }),
{
}

/// `F_SETFL` replaces the status flags of a descriptor by those of its argument and keeps
/// its access mode and creation bits; `F_GETFL` afterwards reports the new status flags
/// together with the old access mode.
pub proof fn law_setfl_then_getfl(fs: FsView, fds: Seq<Option<FileDescriptor>>, fd: i32, arg: i32, x: i32)
    requires
        0 <= fd < fds.len(),
        fds[fd as int] is Some,
        arg >= 0,
    ensures
        ({
            let o = fcntl_outcome(fs, fds, fd, F_SETFL, arg);
            let old_fl = fds[fd as int]->Some_0.flags();
            let new_fl = o.2[fd as int]->Some_0.flags();
            &&& o.0 == 0
            &&& o.2[fd as int] is Some
            &&& new_fl & !setfl_kept() == arg & !setfl_kept()
            &&& new_fl & setfl_kept() == old_fl & setfl_kept()
            &&& fcntl_outcome(fs, o.2, fd, F_GETFL, x).0 == ((arg & !setfl_kept()) | (old_fl & O_RDWRFLAGS)) as int
        }),
{
    let d = fds[fd as int]->Some_0;
    let fl = d.flags();
    let nf = (arg & !setfl_kept()) | (fl & setfl_kept());
    let nd = d.with_flags(nf);
    assert(nd.flags() == nf);
    let o = fcntl_outcome(fs, fds, fd, F_SETFL, arg);
    assert(o.2[fd as int] == Some(nd));
    assert(setfl_kept() == 0o1703i32) by (bit_vector);
    assert(O_CREAT | O_EXCL | O_NOCTTY | O_TRUNC == 0o1700i32) by (bit_vector);
    assert(nf & !0o1703i32 == arg & !0o1703i32) by (bit_vector)
        requires nf == (arg & !0o1703i32) | (fl & 0o1703i32);
    assert(nf & 0o1703i32 == fl & 0o1703i32) by (bit_vector)
        requires nf == (arg & !0o1703i32) | (fl & 0o1703i32);
    assert(nf & !0o1700i32 == (arg & !0o1703i32) | (fl & 3i32)) by (bit_vector)
        requires nf == (arg & !0o1703i32) | (fl & 0o1703i32);
}


/// The descriptor that `open` hands out starts at the end of the file when `O_APPEND` is
/// set and at its start otherwise, the end being the file's size once opened: an existing
/// regular file keeps its size unless `O_TRUNC` empties it, and a new file is empty.
pub proof fn law_open_append_starts_at_end(
    fs: FsView,
    fds: Seq<Option<FileDescriptor>>,
    lowest: Option<i32>,
    comps: Seq<Seq<u8>>,
    pathlen: nat,
    flags: i32,
    mode: u32,
)
    requires
        fs.wf(),
        fs.inodes.len() < usize::MAX,
        lowest matches Some(f) ==> 0 <= f < fds.len(),
        open_outcome(fs, fds, lowest, comps, pathlen, flags, mode).0 >= 0,
    ensures
        ({
            let o = open_outcome(fs, fds, lowest, comps, pathlen, flags, mode);
            &&& o.2[o.0] matches Some(FileDescriptor::File(f))
            &&& o.1.has(f.inode as int)
            &&& f.position == (if flags & O_APPEND != 0 { o.1.get(f.inode as int).meta().size as int } else { 0 })
        }),
        ({
            let o = open_outcome(fs, fds, lowest, comps, pathlen, flags, mode);
            spec_walk(fs, comps).0 matches Some(n) ==> (fs.get(n as int) is File && flags & O_TRUNC == 0
                ==> o.1.get(n as int).meta().size == fs.get(n as int).meta().size)
        }),
{
    let o = open_outcome(fs, fds, lowest, comps, pathlen, flags, mode);
    match spec_walk(fs, comps) {
        (None, Some(p)) => {
            let n = fs.inodes.len() as usize;
            assert(fs.has(p as int) || comps.len() == 0);
            assert(p != n);
        },
        _ => {},
    }
}


/// The records that `dents` gives from entry `i` on name the entries from `i` on, in order,
/// and there are no more of them than entries left.
proof fn lemma_dents_follow_entries(e: Seq<(Seq<u8>, usize)>, i: int, acc: int, bufsize: int)
    requires
        0 <= i <= e.len(),
    ensures
        dents(e, i, acc, bufsize).0.len() <= e.len() - i,
        dents(e, i, acc, bufsize).1 >= acc,
        forall|k: int| 0 <= k < dents(e, i, acc, bufsize).0.len()
            ==> (#[trigger] dents(e, i, acc, bufsize).0[k]).0.d_ino == e[i + k].1 as u64,
    decreases e.len() - i,
{
    if i < e.len() {
        let rec = crate::fd_calls::dirent_name(e[i].0);
        let size = CLIPPED_DIRENT_SIZE + rec.len();
        if acc + size <= bufsize {
            lemma_dents_follow_entries(e, i + 1, acc + size, bufsize);
            let d = dents(e, i, acc, bufsize).0;
            let rest = dents(e, i + 1, acc + size, bufsize).0;
            assert forall|k: int| 0 <= k < d.len() implies (#[trigger] d[k]).0.d_ino == e[i + k].1 as u64 by {
                if k > 0 {
                    assert(d[k] == rest[k - 1]);
                }
            }
        }
    }
}

/// `getdents` moves a directory descriptor forward by exactly the number of records it
/// returns, never past the last entry, and its k-th record names the entry at the old
/// position plus k.
pub proof fn law_getdents_advances_by_records(fs: FsView, fds: Seq<Option<FileDescriptor>>, fd: i32, bufsize: u32)
    requires
        bufsize > CLIPPED_DIRENT_SIZE,
        0 <= fd < MAXFD,
        fd < fds.len(),
        fds[fd as int] matches Some(FileDescriptor::File(f)) && fs.has(f.inode as int) && fs.get(f.inode as int) is Dir
            && fs.get(f.inode as int)->Dir_1.len() <= usize::MAX,
    ensures
        ({
            let f = fds[fd as int]->Some_0->File_0;
            let e = fs.get(f.inode as int)->Dir_1;
            let o = getdents_outcome(fs, fds, fd, bufsize);
            &&& o.0 >= 0
            &&& o.2[fd as int] matches Some(FileDescriptor::File(g))
            &&& g == FileDesc { position: g.position, ..f }
            &&& f.position <= e.len() ==> g.position == f.position + o.1.len()
            &&& f.position > e.len() ==> o.1.len() == 0 && g.position == e.len()
            &&& forall|k: int| 0 <= k < o.1.len() ==> (#[trigger] o.1[k]).0.d_ino == e[f.position + k].1 as u64
        }),
{
    let f = fds[fd as int]->Some_0->File_0;
    let e = fs.get(f.inode as int)->Dir_1;
    if f.position <= e.len() {
        lemma_dents_follow_entries(e, f.position as int, 0, bufsize as int);
    } else {
        assert(dents(e, f.position as int, 0, bufsize as int).0.len() == 0);
    }
}

/// Two `getdents` calls in a row on the same directory list its entries on from where the
/// first began, in order, none twice and none left out between them: the second call's
/// records continue where the first call's records end.
pub proof fn law_getdents_twice_continues(fs: FsView, fds: Seq<Option<FileDescriptor>>, fd: i32, b1: u32, b2: u32)
    requires
        b1 > CLIPPED_DIRENT_SIZE,
        b2 > CLIPPED_DIRENT_SIZE,
        0 <= fd < MAXFD,
        fd < fds.len(),
        fds[fd as int] matches Some(FileDescriptor::File(f)) && fs.has(f.inode as int) && fs.get(f.inode as int) is Dir
            && f.position <= fs.get(f.inode as int)->Dir_1.len() <= usize::MAX,
    ensures
        ({
            let f = fds[fd as int]->Some_0->File_0;
            let e = fs.get(f.inode as int)->Dir_1;
            let o1 = getdents_outcome(fs, fds, fd, b1);
            let o2 = getdents_outcome(fs, o1.2, fd, b2);
            &&& forall|k: int| 0 <= k < o1.1.len() ==> (#[trigger] o1.1[k]).0.d_ino == e[f.position + k].1 as u64
            &&& forall|k: int| 0 <= k < o2.1.len() ==> (#[trigger] o2.1[k]).0.d_ino == e[f.position + o1.1.len() + k].1 as u64
            &&& f.position + o1.1.len() + o2.1.len() <= e.len()
        }),
{
    law_getdents_advances_by_records(fs, fds, fd, b1);
    let o1 = getdents_outcome(fs, fds, fd, b1);
    law_getdents_advances_by_records(fs, o1.2, fd, b2);
}

} // verus!
