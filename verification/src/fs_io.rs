//! Reading, writing and seeking through file descriptors.
use vstd::prelude::*;
use crate::errno::{err, syscall_error, EBADF, EISDIR, EOPNOTSUPP, EINVAL, ESPIPE, EFBIG};
use crate::fs_constants::{
    O_NONBLOCK,
    MAXFD, DevNo, spec_is_wronly, spec_is_rdonly, is_wronly, is_rdonly, SEEK_SET, SEEK_CUR, SEEK_END,
    nulldevno, zerodevno, randomdevno, urandomdevno,
};
use crate::filesystem::{FilesystemMetadata, FsView, Inode, InodeView, InodeMeta, DeviceInode, GenericInode, fits};
use crate::cage::{Cage, FileDescriptor, FileDesc, same_but_fds, lemma_refs_ok_update};
use crate::pipe::{pipe_read_outcome, pipe_write_outcome, min};
use vstd::slice::slice_to_vec;

verus! {

/// The bytes that reading `count` bytes at `pos` finds in `data`: none at or past the end.
pub open spec fn read_range(data: Seq<u8>, pos: int, count: int) -> Seq<u8> {
    if pos >= data.len() {
        Seq::empty()
    } else {
        data.subrange(pos, min(pos + count, data.len() as int))
    }
}

/// `n` zero bytes.
pub open spec fn zeros(n: int) -> Seq<u8> {
    Seq::new(n as nat, |i: int| 0u8)
}

/// `data` after writing `bytes` at `pos`, with any gap before `pos` filled with zeros.
pub open spec fn write_range(data: Seq<u8>, pos: int, bytes: Seq<u8>) -> Seq<u8> {
    let padded = if pos > data.len() {
        data + zeros(pos - data.len())
    } else {
        data
    };
    let end = pos + bytes.len();
    padded.subrange(0, pos) + bytes + if end < padded.len() {
        padded.subrange(end, padded.len() as int)
    } else {
        Seq::empty()
    }
}

/// Whether a device is one that reads and writes are implemented for.
pub open spec fn known_device(d: DevNo) -> bool {
    d == nulldevno() || d == zerodevno() || d == randomdevno() || d == urandomdevno()
}

/// What reading `count` bytes from a character device returns: nothing from `/dev/null`,
/// zeros from `/dev/zero`, `count` bytes of chance from the random devices.
pub open spec fn chr_read_ok(d: DevNo, count: usize, ret: i32, bytes: Seq<u8>) -> bool {
    if d == nulldevno() {
        ret == 0 && bytes.len() == 0
    } else if d == zerodevno() {
        ret == count as i32 && bytes == zeros(count as int)
    } else if d == randomdevno() || d == urandomdevno() {
        ret == count as i32 && bytes.len() == count
    } else {
        ret == err(EOPNOTSUPP) && bytes.len() == 0
    }
}

/// The same descriptor table with a file descriptor moved to `pos`.
pub open spec fn with_position(fds: Seq<Option<FileDescriptor>>, fd: int, f: FileDesc, pos: usize) -> Seq<Option<FileDescriptor>> {
    fds.update(fd, Some(FileDescriptor::File(FileDesc { position: pos, ..f })))
}

/// The file data after a write of `bytes` at `pos`, and the file's new metadata.
pub open spec fn file_after_write(fs: FsView, n: int, m: InodeMeta, pos: int, bytes: Seq<u8>) -> FsView {
    let data = write_range(fs.contents[n], pos, bytes);
    FsView {
        inodes: fs.inodes.update(n, Some(InodeView::File(InodeMeta { size: data.len() as usize, ..m }))),
        contents: fs.contents.update(n, data),
        ..fs
    }
}

/// std's `RandomState::new`: a hasher state whose keys std picks at random. Nothing is
/// promised of it.
#[verifier::external_body]
fn random_state() -> std::collections::hash_map::RandomState {
    std::collections::hash_map::RandomState::new()
}

/// std's `BuildHasher::hash_one` of one fixed byte under `state`. The result depends on the
/// state's random keys, so nothing is promised of it.
#[verifier::external_body]
fn hash_byte(state: &std::collections::hash_map::RandomState) -> u64 {
    std::hash::BuildHasher::hash_one(state, 0u8)
}

/// A random number: a fixed byte hashed under freshly seeded keys.
fn random_u64() -> u64 {
    let state = random_state();
    hash_byte(&state)
}

/// `count` zero bytes.
fn fill_zero(count: usize) -> (r: Vec<u8>)
    ensures
        r@ == zeros(count as int),
{
    let mut r: Vec<u8> = Vec::new();
    let mut k: usize = 0;
    while k < count
        invariant
            k <= count,
            r@ == zeros(k as int),
        decreases count - k,
    {
        r.push(0u8);
        assert(r@ =~= zeros(k + 1));
        k = k + 1;
    }
    r
}

/// `count` bytes of chance.
fn fill_random(count: usize) -> (r: Vec<u8>)
    ensures
        r@.len() == count,
{
    let mut r: Vec<u8> = Vec::new();
    let mut k: usize = 0;
    while k < count
        invariant
            k <= count,
            r@.len() == k,
        decreases count - k,
    {
        let x = random_u64();
        r.push((x & 0xff) as u8);
        k = k + 1;
    }
    r
}

/// Copies the bytes of `data` from `pos` on, at most `count` of them.
fn copy_range(data: &Vec<u8>, pos: usize, count: usize) -> (r: Vec<u8>)
    ensures
        r@ == read_range(data@, pos as int, count as int),
{
    let mut r: Vec<u8> = Vec::new();
    if pos >= data.len() {
        return r;
    }
    let avail = data.len() - pos;
    let n = if count < avail { count } else { avail };
    let end = pos + n;
    let mut k: usize = 0;
    while k < n
        invariant
            k <= n,
            end == pos + n,
            end <= data@.len(),
            n <= data@.len() - pos,
            pos < data@.len(),
            r@ == data@.subrange(pos as int, pos + k),
        decreases n - k,
    {
        r.push(data[pos + k]);
        assert(data@.subrange(pos as int, pos + k + 1) =~= data@.subrange(pos as int, pos + k).push(data@[pos + k]));
        k = k + 1;
    }
    assert(pos + n == min(pos + count, data@.len() as int));
    r
}

/// Writes `bytes` into `data` at `pos`, zero-filling any gap.
fn write_into(data: &Vec<u8>, pos: usize, bytes: &[u8]) -> (r: Vec<u8>)
    requires
        pos + bytes@.len() <= usize::MAX,
    ensures
        r@ == write_range(data@, pos as int, bytes@),
{
    let ghost padded = if pos > data@.len() { data@ + zeros(pos - data@.len()) } else { data@ };
    let mut r: Vec<u8> = Vec::new();
    let mut k: usize = 0;
    while k < pos
        invariant
            k <= pos,
            padded.len() >= pos,
            padded == (if pos > data@.len() { data@ + zeros(pos - data@.len()) } else { data@ }),
            r@ == padded.subrange(0, k as int),
        decreases pos - k,
    {
        let b = if k < data.len() { data[k] } else { 0u8 };
        r.push(b);
        assert(padded.subrange(0, k + 1) =~= padded.subrange(0, k as int).push(padded[k as int]));
        k = k + 1;
    }
    let mut j: usize = 0;
    while j < bytes.len()
        invariant
            j <= bytes@.len(),
            pos + bytes@.len() <= usize::MAX,
            padded.len() >= pos,
            r@ == padded.subrange(0, pos as int) + bytes@.subrange(0, j as int),
        decreases bytes@.len() - j,
    {
        r.push(bytes[j]);
        assert(bytes@.subrange(0, j + 1) =~= bytes@.subrange(0, j as int).push(bytes@[j as int]));
        assert(r@ =~= padded.subrange(0, pos as int) + bytes@.subrange(0, j + 1));
        j = j + 1;
    }
    assert(bytes@.subrange(0, bytes@.len() as int) =~= bytes@);
    let end = pos + bytes.len();
    let ghost head = r@;
    if end < data.len() {
        let mut t: usize = end;
        while t < data.len()
            invariant
                end <= t <= data@.len(),
                r@ == head + data@.subrange(end as int, t as int),
            decreases data@.len() - t,
        {
            r.push(data[t]);
            assert(data@.subrange(end as int, t + 1) =~= data@.subrange(end as int, t as int).push(data@[t as int]));
            assert(r@ =~= head + data@.subrange(end as int, t + 1));
            t = t + 1;
        }
        assert(padded == data@);
    } else {
        assert(r@ =~= head + Seq::<u8>::empty());
    }
    assert(r@ =~= write_range(data@, pos as int, bytes@));
    r
}

impl Cage {
    /// Reads up to `count` bytes from a character device.
    pub fn _read_chr_file(&self, inodeobj: &DeviceInode, buf: &mut Vec<u8>, count: usize) -> (ret: i32)
        ensures
            chr_read_ok(inodeobj.dev, count, ret, final(buf)@),
    {
        let d = inodeobj.dev;
        if d.major == 1 && d.minor == 3 {
            *buf = Vec::new();
            0
        } else if d.major == 1 && d.minor == 5 {
            *buf = fill_zero(count);
            count as i32
        } else if d.major == 1 && (d.minor == 8 || d.minor == 9) {
            *buf = fill_random(count);
            count as i32
        } else {
            *buf = Vec::new();
            syscall_error(EOPNOTSUPP)
        }
    }

    /// Writes `count` bytes to a character device.
    pub fn _write_chr_file(&self, inodeobj: &DeviceInode, count: usize) -> (ret: i32)
        ensures
            ret == if known_device(inodeobj.dev) { count as i32 as int } else { err(EOPNOTSUPP) },
    {
        let d = inodeobj.dev;
        if d.major == 1 && (d.minor == 3 || d.minor == 5 || d.minor == 8 || d.minor == 9) {
            count as i32
        } else {
            syscall_error(EOPNOTSUPP)
        }
    }

    /// Reads up to `count` bytes at `offset` from the file behind `fd` (a file descriptor) into `buf`.
    fn read_file_at(&self, fs: &FilesystemMetadata, f: FileDesc, offset: usize, buf: &mut Vec<u8>, count: usize) -> (ret: i32)
        requires
            fs.wf(),
            fs@.has(f.inode as int),
        ensures
            match fs@.get(f.inode as int) {
                InodeView::File(_) => {
                    let bytes = read_range(fs@.contents[f.inode as int], offset as int, count as int);
                    ret == bytes.len() as i32 && final(buf)@ == bytes
                },
                InodeView::CharDev(_, d) => chr_read_ok(d, count, ret, final(buf)@),
                InodeView::Socket(_) => ret == err(EBADF) && final(buf)@ == old(buf)@,
                InodeView::Dir(..) => ret == err(EISDIR) && final(buf)@ == old(buf)@,
            },
    {
        match &fs.inodetable[f.inode] {
            Some(Inode::File(_)) => {
                let bytes = copy_range(&fs.filecontents[f.inode], offset, count);
                let n = bytes.len();
                *buf = bytes;
                n as i32
            },
            Some(Inode::CharDev(d)) => self._read_chr_file(d, buf, count),
            Some(Inode::Socket(_)) => syscall_error(EBADF),
            _ => syscall_error(EISDIR),
        }
    }

    /// Reads up to `count` bytes from `fd` into `buf`, from the descriptor's position on.
    /// A pipe is read once: when it is empty and a writer is open the result is `EAGAIN`, and a
    /// blocking reader waits and calls again.
    pub fn read_syscall(&mut self, fs: &mut FilesystemMetadata, fd: i32, buf: &mut Vec<u8>, count: usize) -> (ret: i32)
        requires
            old(self).inv(old(fs)),
            0 <= fd < MAXFD,
            !crate::sock_io::recv_is_host(old(fs)@, old(self).fd(fd as int)),
        ensures
            final(self).inv(final(fs)),
            same_but_fds(*old(self), *final(self)),
            match old(self).fd(fd as int) {
                None => ret == err(EBADF) && final(fs)@ == old(fs)@ && *final(self) == *old(self),
                Some(FileDescriptor::File(f)) => if spec_is_wronly(f.flags) || !old(fs)@.has(f.inode as int) {
                    ret == err(EBADF) && final(fs)@ == old(fs)@ && *final(self) == *old(self)
                } else {
                    &&& final(fs)@ == old(fs)@
                    &&& match old(fs)@.get(f.inode as int) {
                        InodeView::File(_) => {
                            let bytes = read_range(old(fs)@.contents[f.inode as int], f.position as int, count as int);
                            &&& ret == bytes.len() as i32
                            &&& final(buf)@ == bytes
                            &&& final(self).filedescriptortable@ == with_position(
                                old(self).filedescriptortable@, fd as int, f, (f.position + bytes.len()) as usize)
                        },
                        InodeView::CharDev(_, d) => chr_read_ok(d, count, ret, final(buf)@) && *final(self) == *old(self),
                        InodeView::Socket(_) => ret == err(EBADF) && *final(self) == *old(self),
                        InodeView::Dir(..) => ret == err(EISDIR) && *final(self) == *old(self),
                    }
                },
                Some(FileDescriptor::Stream(_)) => ret == err(EOPNOTSUPP) && final(fs)@ == old(fs)@ && *final(self) == *old(self),
                Some(FileDescriptor::Epoll(_)) => ret == err(EINVAL) && final(fs)@ == old(fs)@ && *final(self) == *old(self),
                Some(FileDescriptor::Pipe(p)) => *final(self) == *old(self) && if spec_is_wronly(p.flags) {
                    ret == err(EBADF) && final(fs)@ == old(fs)@
                } else {
                    let o = pipe_read_outcome(old(fs)@.pipes[p.pipe as int], count);
                    &&& ret == o.0
                    &&& final(buf)@ == o.1
                    &&& final(fs)@ == FilesystemMetadata::with_pipe(old(fs)@, p.pipe as int, o.2)
                },
                Some(FileDescriptor::Socket(_)) => *final(self) == *old(self) && {
                    let o = crate::sock_io::recv_outcome(old(fs)@, old(self).fd(fd as int), count, 0);
                    &&& ret == o.0 as i32
                    &&& final(fs)@ == o.2
                    &&& (o.0 >= 0 ==> final(buf)@ == o.1)
                },
            },
    {
        let ghost fs_old = *fs;
        let ghost self_old = *self;
        match self.get_fd(fd) {
            None => syscall_error(EBADF),
            Some(FileDescriptor::File(f)) => {
                if is_wronly(f.flags) {
                    return syscall_error(EBADF);
                }
                if f.inode >= fs.inodetable.len() || fs.inodetable[f.inode].is_none() {
                    return syscall_error(EBADF);
                }
                let ret = self.read_file_at(fs, f, f.position, buf, count);
                match &fs.inodetable[f.inode] {
                    Some(Inode::File(_)) => {
                        let n = buf.len();
                        let newpos = f.position + n;
                        self.set_fd(fd, Some(FileDescriptor::File(FileDesc { position: newpos, ..f })));
                        proof {
                            lemma_refs_ok_update(&self_old, self, &fs_old, fs, fd as int, Some(FileDescriptor::File(FileDesc { position: newpos, ..f })));
                        }
                    },
                    _ => {},
                }
                ret
            },
            Some(FileDescriptor::Stream(_)) => syscall_error(EOPNOTSUPP),
            Some(FileDescriptor::Epoll(_)) => syscall_error(EINVAL),
            Some(FileDescriptor::Pipe(p)) => {
                if is_wronly(p.flags) {
                    return syscall_error(EBADF);
                }
                let (r, bytes) = fs.pipe_read(p.pipe, count);
                *buf = bytes;
                proof {
                    lemma_refs_ok_update(&self_old, self, &fs_old, fs, 0, self_old.fd(0));
                }
                r
            },
            Some(FileDescriptor::Socket(_)) => {
                let mut none: Option<crate::net::GenSockaddr> = None;
                self.recv_common(fs, fd, buf, count, 0, &mut none)
            },
        }
    }

    /// Reads up to `count` bytes at `offset` from `fd` into `buf`, leaving the position alone.
    pub fn pread_syscall(&self, fs: &FilesystemMetadata, fd: i32, buf: &mut Vec<u8>, count: usize, offset: isize) -> (ret: i32)
        requires
            self.inv(fs),
            0 <= fd < MAXFD,
        ensures
            match self.fd(fd as int) {
                None => ret == err(EBADF) && final(buf)@ == old(buf)@,
                Some(FileDescriptor::File(f)) => if spec_is_wronly(f.flags) || !fs@.has(f.inode as int) {
                    ret == err(EBADF) && final(buf)@ == old(buf)@
                } else {
                    match fs@.get(f.inode as int) {
                        InodeView::File(_) => {
                            let bytes = read_range(fs@.contents[f.inode as int], offset as usize as int, count as int);
                            ret == bytes.len() as i32 && final(buf)@ == bytes
                        },
                        InodeView::CharDev(_, d) => chr_read_ok(d, count, ret, final(buf)@),
                        InodeView::Socket(_) => ret == err(EBADF) && final(buf)@ == old(buf)@,
                        InodeView::Dir(..) => ret == err(EISDIR) && final(buf)@ == old(buf)@,
                    }
                },
                Some(_) => ret == err(ESPIPE) && final(buf)@ == old(buf)@,
            },
    {
        match self.get_fd(fd) {
            None => syscall_error(EBADF),
            Some(FileDescriptor::File(f)) => {
                if is_wronly(f.flags) {
                    return syscall_error(EBADF);
                }
                if f.inode >= fs.inodetable.len() || fs.inodetable[f.inode].is_none() {
                    return syscall_error(EBADF);
                }
                self.read_file_at(fs, f, offset as usize, buf, count)
            },
            Some(_) => syscall_error(ESPIPE),
        }
    }

    /// Writes `bytes` into the regular file `n` at `pos`.
    fn write_file_at(fs: &mut FilesystemMetadata, n: usize, pos: usize, bytes: &[u8])
        requires
            old(fs).wf(),
            old(fs)@.has(n as int),
            old(fs)@.get(n as int) is File,
            pos + bytes@.len() <= usize::MAX,
        ensures
            final(fs).wf(),
            final(fs)@ == file_after_write(old(fs)@, n as int, old(fs)@.get(n as int).meta(), pos as int, bytes@),
            written_now(old(fs), final(fs), n as int),
    {
        let ghost fs0 = fs@;
        let data = write_into(&fs.filecontents[n], pos, bytes);
        let newsize = data.len();
        let node = fs.take_inode(n);
        match node {
            Some(Inode::File(mut f)) => {
                f.size = newsize;
                f.mtime = crate::filesystem::timestamp();
                let ghost fs1 = fs@;
                fs.set_contents(n, data);
                fs.put_inode(n, Some(Inode::File(f)));
            },
            other => {
                proof {
                    assert(false);
                }
                fs.put_inode(n, other);
            },
        }
        proof {
            let o = file_after_write(fs0, n as int, fs0.get(n as int).meta(), pos as int, bytes@);
            assert(fs@.inodes =~= o.inodes);
            assert(fs@.contents =~= o.contents);
            assert(fs@ =~= o);
        }
    }

    /// Writes the first `count` bytes of `buf` to `fd` at the descriptor's position. Output to
    /// the standard output and error streams is collected in the file system's stream output.
    /// A pipe is written once: as much as fits, or `EAGAIN` when it is full (a blocking writer
    /// waits and calls again with what is left).
    pub fn write_syscall(&mut self, fs: &mut FilesystemMetadata, fd: i32, buf: &[u8], count: usize) -> (ret: i32)
        requires
            old(self).inv(old(fs)),
            0 <= fd < MAXFD,
            count <= buf@.len(),
            !crate::sock_io::send_is_host(old(fs)@, old(self).fd(fd as int)),
        ensures
            final(self).inv(final(fs)),
            same_but_fds(*old(self), *final(self)),
            ({
                let bytes = buf@.subrange(0, count as int);
                match old(self).fd(fd as int) {
                    None => ret == err(EBADF) && final(fs)@ == old(fs)@ && *final(self) == *old(self),
                    Some(FileDescriptor::File(f)) => if spec_is_rdonly(f.flags) || !old(fs)@.has(f.inode as int) {
                        ret == err(EBADF) && final(fs)@ == old(fs)@ && *final(self) == *old(self)
                    } else {
                        match old(fs)@.get(f.inode as int) {
                            InodeView::File(m) => if f.position + count > usize::MAX {
                                ret == err(EFBIG) && final(fs)@ == old(fs)@ && *final(self) == *old(self)
                            } else {
                                &&& ret == count as i32
                                &&& final(fs)@ == file_after_write(old(fs)@, f.inode as int, m, f.position as int, bytes)
                                &&& final(self).filedescriptortable@ == with_position(
                                    old(self).filedescriptortable@, fd as int, f, (f.position + count) as usize)
                            },
                            InodeView::CharDev(_, d) => final(fs)@ == old(fs)@ && *final(self) == *old(self)
                                && ret == if known_device(d) { count as i32 as int } else { err(EOPNOTSUPP) },
                            InodeView::Socket(_) => ret == err(EBADF) && final(fs)@ == old(fs)@ && *final(self) == *old(self),
                            InodeView::Dir(..) => ret == err(EISDIR) && final(fs)@ == old(fs)@ && *final(self) == *old(self),
                        }
                    },
                    Some(FileDescriptor::Stream(st)) => *final(self) == *old(self) && if st.stream == 1 || st.stream == 2 {
                        ret == count as i32 && final(fs)@ == (FsView { output: old(fs)@.output + bytes, ..old(fs)@ })
                    } else {
                        ret == err(EBADF) && final(fs)@ == old(fs)@
                    },
                    Some(FileDescriptor::Pipe(p)) => *final(self) == *old(self) && if spec_is_rdonly(p.flags) {
                        ret == err(EBADF) && final(fs)@ == old(fs)@
                    } else {
                        let o = pipe_write_outcome(old(fs)@.pipes[p.pipe as int], bytes);
                        ret == o.0 && final(fs)@ == FilesystemMetadata::with_pipe(old(fs)@, p.pipe as int, o.1)
                    },
                    Some(FileDescriptor::Epoll(_)) => ret == err(EINVAL) && final(fs)@ == old(fs)@ && *final(self) == *old(self),
                    Some(FileDescriptor::Socket(_)) => *final(self) == *old(self) && {
                        let o = crate::sock_io::send_outcome(old(fs)@, old(self).fd(fd as int), bytes);
                        ret == o.0 && final(fs)@ == o.1
                    },
                }
            }),
            old(self).fd(fd as int) matches Some(FileDescriptor::File(f)) ==> (ret >= 0 && old(fs)@.has(f.inode as int)
                && old(fs)@.get(f.inode as int) is File ==> written_now(old(fs), final(fs), f.inode as int)),
    {
        let ghost fs_old = *fs;
        let ghost self_old = *self;
        let bytes = &buf[0..count];
        assert(bytes@ =~= buf@.subrange(0, count as int));
        match self.get_fd(fd) {
            None => syscall_error(EBADF),
            Some(FileDescriptor::File(f)) => {
                if is_rdonly(f.flags) {
                    return syscall_error(EBADF);
                }
                if f.inode >= fs.inodetable.len() || fs.inodetable[f.inode].is_none() {
                    return syscall_error(EBADF);
                }
                match &fs.inodetable[f.inode] {
                    Some(Inode::File(_)) => {
                        if f.position > usize::MAX - count {
                            return syscall_error(EFBIG);
                        }
                        Self::write_file_at(fs, f.inode, f.position, bytes);
                        let newpos = f.position + count;
                        self.set_fd(fd, Some(FileDescriptor::File(FileDesc { position: newpos, ..f })));
                        proof {
                            lemma_refs_ok_update(&self_old, self, &fs_old, fs, fd as int, Some(FileDescriptor::File(FileDesc { position: newpos, ..f })));
                        }
                        count as i32
                    },
                    Some(Inode::CharDev(d)) => self._write_chr_file(d, count),
                    Some(Inode::Socket(_)) => syscall_error(EBADF),
                    _ => syscall_error(EISDIR),
                }
            },
            Some(FileDescriptor::Stream(st)) => {
                if st.stream == 1 || st.stream == 2 {
                    fs.append_output(bytes);
                    proof {
                        lemma_refs_ok_update(&self_old, self, &fs_old, fs, 0, self_old.fd(0));
                    }
                    count as i32
                } else {
                    syscall_error(EBADF)
                }
            },
            Some(FileDescriptor::Pipe(p)) => {
                if is_rdonly(p.flags) {
                    return syscall_error(EBADF);
                }
                let r = fs.pipe_write(p.pipe, bytes);
                proof {
                    lemma_refs_ok_update(&self_old, self, &fs_old, fs, 0, self_old.fd(0));
                }
                r
            },
            Some(FileDescriptor::Epoll(_)) => syscall_error(EINVAL),
            Some(FileDescriptor::Socket(_)) => self.send_syscall(fs, fd, buf, count, 0),
        }
    }

    /// Writes the first `count` bytes of `buf` to the file at `fd` at `offset`, leaving the
    /// position alone.
    pub fn pwrite_syscall(&self, fs: &mut FilesystemMetadata, fd: i32, buf: &[u8], count: usize, offset: isize) -> (ret: i32)
        requires
            self.inv(old(fs)),
            0 <= fd < MAXFD,
            count <= buf@.len(),
            offset >= 0,
        ensures
            self.inv(final(fs)),
            ({
                let bytes = buf@.subrange(0, count as int);
                match self.fd(fd as int) {
                    None => ret == err(EBADF) && final(fs)@ == old(fs)@,
                    Some(FileDescriptor::File(f)) => if spec_is_rdonly(f.flags) || !old(fs)@.has(f.inode as int) {
                        ret == err(EBADF) && final(fs)@ == old(fs)@
                    } else {
                        match old(fs)@.get(f.inode as int) {
                            InodeView::File(m) => if offset + count > usize::MAX {
                                ret == err(EFBIG) && final(fs)@ == old(fs)@
                            } else {
                                ret == count as i32 && final(fs)@ == file_after_write(old(fs)@, f.inode as int, m, offset as int, bytes)
                            },
                            InodeView::CharDev(_, d) => final(fs)@ == old(fs)@
                                && ret == if known_device(d) { count as i32 as int } else { err(EOPNOTSUPP) },
                            InodeView::Socket(_) => ret == err(EBADF) && final(fs)@ == old(fs)@,
                            InodeView::Dir(..) => ret == err(EISDIR) && final(fs)@ == old(fs)@,
                        }
                    },
                    Some(_) => ret == err(ESPIPE) && final(fs)@ == old(fs)@,
                }
            }),
            self.fd(fd as int) matches Some(FileDescriptor::File(f)) ==> (ret >= 0 && old(fs)@.has(f.inode as int)
                && old(fs)@.get(f.inode as int) is File ==> written_now(old(fs), final(fs), f.inode as int)),
    {
        let ghost fs_old = *fs;
        let bytes = &buf[0..count];
        assert(bytes@ =~= buf@.subrange(0, count as int));
        match self.get_fd(fd) {
            None => syscall_error(EBADF),
            Some(FileDescriptor::File(f)) => {
                if is_rdonly(f.flags) {
                    return syscall_error(EBADF);
                }
                if f.inode >= fs.inodetable.len() || fs.inodetable[f.inode].is_none() {
                    return syscall_error(EBADF);
                }
                match &fs.inodetable[f.inode] {
                    Some(Inode::File(_)) => {
                        let position = offset as usize;
                        if position > usize::MAX - count {
                            return syscall_error(EFBIG);
                        }
                        Self::write_file_at(fs, f.inode, position, bytes);
                        proof {
                            lemma_refs_ok_update(self, self, &fs_old, fs, 0, self.fd(0));
                        }
                        count as i32
                    },
                    Some(Inode::CharDev(d)) => self._write_chr_file(d, count),
                    Some(Inode::Socket(_)) => syscall_error(EBADF),
                    _ => syscall_error(EISDIR),
                }
            },
            Some(_) => syscall_error(ESPIPE),
        }
    }
}

/// Where a seek lands: from the start, the current position or the end, if `whence` is known.
pub open spec fn seek_target(whence: i32, offset: isize, pos: usize, end: int) -> Option<int> {
    if whence == SEEK_SET {
        Some(offset as int)
    } else if whence == SEEK_CUR {
        Some((pos as isize) + offset)
    } else if whence == SEEK_END {
        Some(end + offset)
    } else {
        None
    }
}

/// What `lseek` returns and the position it leaves: `None` when the descriptor is left alone.
pub open spec fn lseek_outcome(fs: FsView, d: Option<FileDescriptor>, offset: isize, whence: i32) -> (int, Option<usize>) {
    match d {
        None => (err(EBADF), None),
        Some(FileDescriptor::File(f)) => if !fs.has(f.inode as int) {
            (err(EBADF), None)
        } else {
            match fs.get(f.inode as int) {
                InodeView::File(m) => match seek_target(whence, offset, f.position, m.size as isize as int) {
                    None => (err(EINVAL), None),
                    Some(t) => if t < 0 || t > isize::MAX {
                        (err(EINVAL), None)
                    } else {
                        (t as i32 as int, Some(t as usize))
                    },
                },
                InodeView::CharDev(..) => (0, None),
                InodeView::Socket(_) => (err(EBADF), None),
                InodeView::Dir(_, e) => match seek_target(whence, offset, f.position, e.len() as isize as int) {
                    None => (err(EINVAL), None),
                    Some(t) => if t < 0 || t > e.len() as isize {
                        (err(EINVAL), None)
                    } else {
                        (t as i32 as int, Some(t as usize))
                    },
                },
            }
        },
        Some(_) => (err(ESPIPE), None),
    }
}

/// `a + b` unless it leaves the range of `isize`.
fn add_isize(a: isize, b: isize) -> (r: Option<isize>)
    ensures
        match r {
            Some(x) => x == a + b,
            None => a + b < isize::MIN || a + b > isize::MAX,
        },
{
    a.checked_add(b)
}

impl Cage {
    /// Moves the position of `fd`.
    pub fn lseek_syscall(&mut self, fs: &FilesystemMetadata, fd: i32, offset: isize, whence: i32) -> (ret: i32)
        requires
            old(self).inv(fs),
            0 <= fd < MAXFD,
        ensures
            final(self).inv(fs),
            same_but_fds(*old(self), *final(self)),
            ({
                let o = lseek_outcome(fs@, old(self).fd(fd as int), offset, whence);
                &&& ret == o.0
                &&& match o.1 {
                    None => *final(self) == *old(self),
                    Some(p) => match old(self).fd(fd as int) {
                        Some(FileDescriptor::File(f)) => final(self).filedescriptortable@ == with_position(old(self).filedescriptortable@, fd as int, f, p),
                        _ => false,
                    },
                }
            }),
    {
        let ghost self_old = *self;
        match self.get_fd(fd) {
            None => syscall_error(EBADF),
            Some(FileDescriptor::File(f)) => {
                if f.inode >= fs.inodetable.len() || fs.inodetable[f.inode].is_none() {
                    return syscall_error(EBADF);
                }
                let (end, is_dir): (isize, bool) = match &fs.inodetable[f.inode] {
                    Some(Inode::File(m)) => (m.size as isize, false),
                    Some(Inode::Dir(d)) => (d.filename_to_inode_dict.len() as isize, true),
                    Some(Inode::CharDev(_)) => {
                        return 0;
                    },
                    _ => {
                        return syscall_error(EBADF);
                    },
                };
                let target = if whence == SEEK_SET {
                    Some(offset)
                } else if whence == SEEK_CUR {
                    add_isize(f.position as isize, offset)
                } else if whence == SEEK_END {
                    add_isize(end, offset)
                } else {
                    return syscall_error(EINVAL);
                };
                match target {
                    None => syscall_error(EINVAL),
                    Some(t) => {
                        if t < 0 || (is_dir && t > end) {
                            return syscall_error(EINVAL);
                        }
                        let newpos = t as usize;
                        self.set_fd(fd, Some(FileDescriptor::File(FileDesc { position: newpos, ..f })));
                        proof {
                            lemma_refs_ok_update(&self_old, self, fs, fs, fd as int, Some(FileDescriptor::File(FileDesc { position: newpos, ..f })));
                        }
                        t as i32
                    },
                }
            },
            Some(_) => syscall_error(ESPIPE),
        }
    }
}


/// The bytes of the first `n` buffers of `iov`, one after another.
pub open spec fn iov_bytes(iov: Seq<Vec<u8>>, n: int) -> Seq<u8>
    decreases n,
{
    if n <= 0 || n > iov.len() {
        Seq::empty()
    } else {
        iov_bytes(iov, n - 1) + iov[n - 1]@
    }
}

/// Joins the first `n` buffers of `iov`.
fn join_iov(iov: &Vec<Vec<u8>>, n: usize) -> (r: Vec<u8>)
    requires
        n <= iov@.len(),
    ensures
        r@ == iov_bytes(iov@, n as int),
{
    let mut out: Vec<u8> = Vec::new();
    let mut i: usize = 0;
    while i < n
        invariant
            i <= n <= iov@.len(),
            out@ == iov_bytes(iov@, i as int),
        decreases n - i,
    {
        let mut part = slice_to_vec(iov[i].as_slice());
        out.append(&mut part);
        i = i + 1;
    }
    out
}


/// The times after data was written to inode `n`: its modification time is set (to the host
/// clock's time), its access and change times stay, and no other inode's times change.
pub open spec fn written_now(before: &FilesystemMetadata, after: &FilesystemMetadata, n: int) -> bool {
    &&& after.times(n) is Some && before.times(n) is Some
    &&& after.times(n)->Some_0.0 == before.times(n)->Some_0.0
    &&& after.times(n)->Some_0.1 == before.times(n)->Some_0.1
    &&& forall|k: int| 0 <= k < before.inodetable@.len() && k != n ==> #[trigger] after.times(k) == before.times(k)
}

/// Whether writing a vector to the socket of handle `h` is the host's work: a connected inet
/// stream socket, which has a host socket.
pub open spec fn writev_is_host(h: crate::net::SocketHandle) -> bool {
    &&& (h.domain == crate::net::AF_INET || h.domain == crate::net::AF_INET6)
    &&& h.protocol == crate::net::IPPROTO_TCP
    &&& (h.state == crate::net::ConnState::CONNECTED || h.state == crate::net::ConnState::CONNWRONLY)
}

impl Cage {
    /// Writes the first `iovcnt` buffers of `iovec`, one after another, to the pipe or
    /// connected unix socket at `fd`: one attempt, as `write` makes on a pipe. A socket that
    /// is not a stream socket gets `EOPNOTSUPP`, one not connected `ENOTCONN`; a connected
    /// inet stream socket moves its data through the host.
    pub fn writev_syscall(&self, fs: &mut FilesystemMetadata, fd: i32, iovec: &Vec<Vec<u8>>, iovcnt: i32) -> (ret: i32)
        requires
            self.inv(old(fs)),
            0 <= fd < MAXFD,
            0 <= iovcnt <= iovec@.len(),
            self.fd(fd as int) matches Some(FileDescriptor::Socket(s)) ==> !writev_is_host(old(fs)@.sockets[s.handle as int]),
        ensures
            self.inv(final(fs)),
            ({
                let bytes = iov_bytes(iovec@, iovcnt as int);
                match self.fd(fd as int) {
                    None => ret == err(EBADF) && final(fs)@ == old(fs)@,
                    Some(FileDescriptor::Pipe(p)) => if spec_is_rdonly(p.flags) {
                        ret == err(EBADF) && final(fs)@ == old(fs)@
                    } else {
                        let o = pipe_write_outcome(old(fs)@.pipes[p.pipe as int], bytes);
                        ret == o.0 && final(fs)@ == FilesystemMetadata::with_pipe(old(fs)@, p.pipe as int, o.1)
                    },
                    Some(FileDescriptor::Socket(s)) => {
                        let h = old(fs)@.sockets[s.handle as int];
                        if h.domain != crate::net::AF_UNIX && h.domain != crate::net::AF_INET && h.domain != crate::net::AF_INET6 {
                            ret == err(EOPNOTSUPP) && final(fs)@ == old(fs)@
                        } else if h.protocol != crate::net::IPPROTO_TCP {
                            ret == err(EOPNOTSUPP) && final(fs)@ == old(fs)@
                        } else if h.state != crate::net::ConnState::CONNECTED && h.state != crate::net::ConnState::CONNWRONLY {
                            ret == err(crate::errno::ENOTCONN) && final(fs)@ == old(fs)@
                        } else {
                            match (if h.unix_info is Some { h.unix_info->Some_0.sendpipe } else { None }) {
                                None => ret == err(crate::errno::EAGAIN) && final(fs)@ == old(fs)@,
                                Some(i) => {
                                    let o = pipe_write_outcome(old(fs)@.pipes[i as int], bytes);
                                    ret == o.0 && final(fs)@ == FilesystemMetadata::with_pipe(old(fs)@, i as int, o.1)
                                },
                            }
                        }
                    },
                    Some(_) => ret == err(EOPNOTSUPP) && final(fs)@ == old(fs)@,
                }
            }),
    {
        let ghost fs_old = *fs;
        match self.get_fd(fd) {
            None => syscall_error(EBADF),
            Some(FileDescriptor::Pipe(p)) => {
                if is_rdonly(p.flags) {
                    return syscall_error(EBADF);
                }
                proof {
                    assert(crate::cage::desc_ok(self.fd(fd as int), fs@.locks.len(), fs@.pipes.len(), fs@.sockets.len(), self.epoll_table@.len()));
                }
                let bytes = join_iov(iovec, iovcnt as usize);
                let r = fs.pipe_write(p.pipe, bytes.as_slice());
                proof {
                    lemma_refs_ok_update(self, self, &fs_old, fs, 0, self.fd(0));
                }
                r
            },
            Some(FileDescriptor::Socket(s)) => {
                proof {
                    assert(crate::cage::desc_ok(self.fd(fd as int), fs@.locks.len(), fs@.pipes.len(), fs@.sockets.len(), self.epoll_table@.len()));
                    assert(crate::filesystem::socket_pipes_ok(fs@.sockets[s.handle as int], fs@.pipes.len()));
                }
                let h = fs.sockets[s.handle];
                if h.domain != crate::net::AF_UNIX && h.domain != crate::net::AF_INET && h.domain != crate::net::AF_INET6 {
                    return syscall_error(EOPNOTSUPP);
                }
                if h.protocol != crate::net::IPPROTO_TCP {
                    return syscall_error(EOPNOTSUPP);
                }
                match h.state {
                    crate::net::ConnState::CONNECTED => {},
                    crate::net::ConnState::CONNWRONLY => {},
                    _ => {
                        return syscall_error(crate::errno::ENOTCONN);
                    },
                }
                let sp = match h.unix_info {
                    Some(ui) => ui.sendpipe,
                    None => None,
                };
                match sp {
                    None => syscall_error(crate::errno::EAGAIN),
                    Some(i) => {
                        let bytes = join_iov(iovec, iovcnt as usize);
                        let r = fs.pipe_write(i, bytes.as_slice());
                        proof {
                            lemma_refs_ok_update(self, self, &fs_old, fs, 0, self.fd(0));
                        }
                        r
                    },
                }
            },
            Some(_) => syscall_error(EOPNOTSUPP),
        }
    }
}

} // verus!
