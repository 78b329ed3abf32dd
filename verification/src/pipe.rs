//! Pipes: a bounded byte queue with counts of open read and write ends.
use vstd::prelude::*;
use crate::errno::{err, EAGAIN, EPIPE};
use crate::fs_constants::{O_RDWRFLAGS, O_RDONLY, O_WRONLY};
use crate::filesystem::{FilesystemMetadata, FsView, EmulatedPipe, PipeView, PIPE_CAPACITY, sat_inc, sat_dec};

verus! {

pub open spec fn min(a: int, b: int) -> int {
    if a < b { a } else { b }
}

/// One attempt to read `count` bytes: the result, the bytes read and the pipe afterwards.
/// An empty pipe gives end of file once no write end is open, else `EAGAIN` (a blocking
/// reader waits for data and tries again).
pub open spec fn pipe_read_outcome(p: PipeView, count: usize) -> (int, Seq<u8>, PipeView) {
    if count == 0 {
        (0, Seq::empty(), p)
    } else if p.buffer.len() > 0 {
        let n = min(count as int, p.buffer.len() as int);
        (n, p.buffer.subrange(0, n), PipeView { buffer: p.buffer.subrange(n, p.buffer.len() as int), ..p })
    } else if p.refcount_write == 0 {
        (0, Seq::empty(), p)
    } else {
        (err(EAGAIN), Seq::empty(), p)
    }
}

/// One attempt to write `bytes`: `EPIPE` once no read end is open, else as many bytes as the
/// free space holds, and `EAGAIN` when there is none (a blocking writer waits and tries again).
pub open spec fn pipe_write_outcome(p: PipeView, bytes: Seq<u8>) -> (int, PipeView) {
    if p.refcount_read == 0 {
        (err(EPIPE), p)
    } else if bytes.len() == 0 {
        (0, p)
    } else if p.buffer.len() >= PIPE_CAPACITY {
        (err(EAGAIN), p)
    } else {
        let n = min(bytes.len() as int, PIPE_CAPACITY - p.buffer.len());
        (n, PipeView { buffer: p.buffer + bytes.subrange(0, n), ..p })
    }
}

/// The pipe with one more open end of the kind that `flags` names.
pub open spec fn pipe_incr(p: PipeView, flags: i32) -> PipeView {
    if flags & O_RDWRFLAGS == O_RDONLY {
        PipeView { refcount_read: sat_inc(p.refcount_read), ..p }
    } else if flags & O_RDWRFLAGS == O_WRONLY {
        PipeView { refcount_write: sat_inc(p.refcount_write), ..p }
    } else {
        p
    }
}

/// The pipe with one open end fewer of the kind that `flags` names.
pub open spec fn pipe_decr(p: PipeView, flags: i32) -> PipeView {
    if flags & O_RDWRFLAGS == O_RDONLY {
        PipeView { refcount_read: sat_dec(p.refcount_read), ..p }
    } else if flags & O_RDWRFLAGS == O_WRONLY {
        PipeView { refcount_write: sat_dec(p.refcount_write), ..p }
    } else {
        p
    }
}

/// A new pipe with one read end, one write end and nothing in it.
pub open spec fn new_pipe_view() -> PipeView {
    PipeView { buffer: Seq::empty(), refcount_read: 1, refcount_write: 1 }
}

impl FilesystemMetadata {
    /// The same file system with pipe `i` replaced.
    pub open spec fn with_pipe(v: FsView, i: int, p: PipeView) -> FsView {
        FsView { pipes: v.pipes.update(i, p), ..v }
    }

    fn swap_pipe(&mut self, i: usize, p: &mut EmulatedPipe)
        requires
            old(self).wf(),
            i < old(self)@.pipes.len(),
            old(p)@.buffer.len() <= PIPE_CAPACITY,
        ensures
            final(self).wf(),
            final(self)@ == Self::with_pipe(old(self)@, i as int, old(p)@),
            final(p)@ == old(self)@.pipes[i as int],
    {
        let ghost v0 = self@;
        let ghost pv = p@;
        self.pipes.set_and_swap(i, p);
        proof {
            assert(self@.inodes =~= v0.inodes);
            assert(self@.contents =~= v0.contents);
            assert(self@.pipes =~= v0.pipes.update(i as int, pv));
            assert(self@ =~= Self::with_pipe(v0, i as int, pv));
            assert forall|k: int| 0 <= k < self@.pipes.len() implies (#[trigger] self@.pipes[k]).buffer.len() <= PIPE_CAPACITY by {
                if k != i {
                    assert(self@.pipes[k] == v0.pipes[k]);
                }
            }
        }
    }

    /// Adds a new empty pipe and gives its index.
    pub fn new_pipe(&mut self) -> (i: usize)
        requires
            old(self).wf(),
        ensures
            i == old(self)@.pipes.len(),
            final(self).wf(),
            final(self)@ == (FsView { pipes: old(self)@.pipes.push(new_pipe_view()), ..old(self)@ }),
    {
        let ghost v0 = self@;
        let i = self.pipes.len();
        self.pipes.push(EmulatedPipe { buffer: Vec::new(), refcount_read: 1, refcount_write: 1 });
        proof {
            assert(self@.inodes =~= v0.inodes);
            assert(self@.contents =~= v0.contents);
            assert(self@.pipes[i as int].buffer =~= Seq::<u8>::empty());
            assert(self@.pipes =~= v0.pipes.push(new_pipe_view()));
            assert(self@ =~= FsView { pipes: v0.pipes.push(new_pipe_view()), ..v0 });
            assert forall|k: int| 0 <= k < self@.sockets.len() implies crate::filesystem::socket_pipes_ok(#[trigger] self@.sockets[k], self@.pipes.len()) by {
                assert(crate::filesystem::socket_pipes_ok(v0.sockets[k], v0.pipes.len()));
            }
        }
        i
    }

    /// One attempt to read up to `count` bytes from pipe `i`.
    pub fn pipe_read(&mut self, i: usize, count: usize) -> (r: (i32, Vec<u8>))
        requires
            old(self).wf(),
            i < old(self)@.pipes.len(),
        ensures
            final(self).wf(),
            ({
                let o = pipe_read_outcome(old(self)@.pipes[i as int], count);
                &&& r.0 == o.0
                &&& r.1@ == o.1
                &&& final(self)@ == Self::with_pipe(old(self)@, i as int, o.2)
            }),
    {
        let ghost v0 = self@;
        let mut p = EmulatedPipe { buffer: Vec::new(), refcount_read: 0, refcount_write: 0 };
        self.swap_pipe(i, &mut p);
        let ghost v1 = self@;
        let ghost pv = p@;
        let mut out: Vec<u8> = Vec::new();
        let r: i32;
        if count == 0 {
            r = 0;
        } else if p.buffer.len() > 0 {
            let n = if count < p.buffer.len() { count } else { p.buffer.len() };
            let rest = p.buffer.split_off(n);
            out = p.buffer;
            p.buffer = rest;
            r = n as i32;
        } else if p.refcount_write == 0 {
            r = 0;
        } else {
            r = -EAGAIN;
        }
        self.swap_pipe(i, &mut p);
        proof {
            let o = pipe_read_outcome(pv, count);
            assert(self@.pipes =~= v0.pipes.update(i as int, o.2));
            assert(self@ =~= Self::with_pipe(v0, i as int, o.2));
        }
        (r, out)
    }

    /// One attempt to write `bytes` into pipe `i`.
    pub fn pipe_write(&mut self, i: usize, bytes: &[u8]) -> (r: i32)
        requires
            old(self).wf(),
            i < old(self)@.pipes.len(),
        ensures
            final(self).wf(),
            ({
                let o = pipe_write_outcome(old(self)@.pipes[i as int], bytes@);
                &&& r == o.0
                &&& final(self)@ == Self::with_pipe(old(self)@, i as int, o.1)
            }),
    {
        let ghost v0 = self@;
        let mut p = EmulatedPipe { buffer: Vec::new(), refcount_read: 0, refcount_write: 0 };
        self.swap_pipe(i, &mut p);
        let ghost pv = p@;
        let r: i32;
        if p.refcount_read == 0 {
            r = -EPIPE;
        } else if bytes.len() == 0 {
            r = 0;
        } else if p.buffer.len() >= PIPE_CAPACITY {
            r = -EAGAIN;
        } else {
            let space = PIPE_CAPACITY - p.buffer.len();
            let n = if bytes.len() < space { bytes.len() } else { space };
            let mut k: usize = 0;
            while k < n
                invariant
                    k <= n,
                    n <= bytes@.len(),
                    p.buffer@ == pv.buffer + bytes@.subrange(0, k as int),
                    p.refcount_read == pv.refcount_read,
                    p.refcount_write == pv.refcount_write,
                decreases n - k,
            {
                p.buffer.push(bytes[k]);
                assert(bytes@.subrange(0, k + 1) =~= bytes@.subrange(0, k as int).push(bytes@[k as int]));
                assert(p.buffer@ =~= pv.buffer + bytes@.subrange(0, k + 1));
                k = k + 1;
            }
            r = n as i32;
            assert(p@ =~= pipe_write_outcome(pv, bytes@).1);
        }
        assert(p@ =~= pipe_write_outcome(pv, bytes@).1);
        self.swap_pipe(i, &mut p);
        proof {
            let o = pipe_write_outcome(pv, bytes@);
            assert(self@.pipes =~= v0.pipes.update(i as int, o.1));
            assert(self@ =~= Self::with_pipe(v0, i as int, o.1));
        }
        r
    }

    /// Counts one more open end of pipe `i`, of the kind that `flags` names.
    pub fn pipe_incr_ref(&mut self, i: usize, flags: i32)
        requires
            old(self).wf(),
            i < old(self)@.pipes.len(),
        ensures
            final(self).wf(),
            final(self)@ == Self::with_pipe(old(self)@, i as int, pipe_incr(old(self)@.pipes[i as int], flags)),
    {
        let ghost v0 = self@;
        let mut p = EmulatedPipe { buffer: Vec::new(), refcount_read: 0, refcount_write: 0 };
        self.swap_pipe(i, &mut p);
        if flags & O_RDWRFLAGS == O_RDONLY {
            p.refcount_read = p.refcount_read.saturating_add(1);
        } else if flags & O_RDWRFLAGS == O_WRONLY {
            p.refcount_write = p.refcount_write.saturating_add(1);
        }
        self.swap_pipe(i, &mut p);
        proof {
            assert(self@.pipes =~= v0.pipes.update(i as int, pipe_incr(v0.pipes[i as int], flags)));
            assert(self@ =~= Self::with_pipe(v0, i as int, pipe_incr(v0.pipes[i as int], flags)));
        }
    }

    /// Counts one open end of pipe `i` fewer, of the kind that `flags` names.
    pub fn pipe_decr_ref(&mut self, i: usize, flags: i32)
        requires
            old(self).wf(),
            i < old(self)@.pipes.len(),
        ensures
            final(self).wf(),
            final(self)@ == Self::with_pipe(old(self)@, i as int, pipe_decr(old(self)@.pipes[i as int], flags)),
    {
        let ghost v0 = self@;
        let mut p = EmulatedPipe { buffer: Vec::new(), refcount_read: 0, refcount_write: 0 };
        self.swap_pipe(i, &mut p);
        if flags & O_RDWRFLAGS == O_RDONLY {
            p.refcount_read = p.refcount_read.saturating_sub(1);
        } else if flags & O_RDWRFLAGS == O_WRONLY {
            p.refcount_write = p.refcount_write.saturating_sub(1);
        }
        self.swap_pipe(i, &mut p);
        proof {
            assert(self@.pipes =~= v0.pipes.update(i as int, pipe_decr(v0.pipes[i as int], flags)));
            assert(self@ =~= Self::with_pipe(v0, i as int, pipe_decr(v0.pipes[i as int], flags)));
        }
    }

    /// Whether both ends of pipe `i` are closed.
    pub fn is_pipe_closed(&self, i: usize) -> (r: bool)
        requires
            i < self@.pipes.len(),
        ensures
            r == (self@.pipes[i as int].refcount_read == 0 && self@.pipes[i as int].refcount_write == 0),
    {
        self.pipes[i].refcount_read == 0 && self.pipes[i].refcount_write == 0
    }
}

} // verus!
