//! Mutexes, condition variables and semaphores of a cage.
//!
//! Mutex and condition variable handles index tables of slots; blocking and waking happen in
//! the host, which keeps one host object per occupied slot, so the calls here decide whether
//! a handle is valid. Semaphores are counters kept here; a wait that would block is reported
//! as `EAGAIN` and retried by the caller. A semaphore shared between processes that is made
//! inside a mapped shared memory segment lives in the shared memory tables, keyed by the
//! segment and its offset there, and every cage that maps the segment sees it at that offset
//! of each of its mappings.
use vstd::prelude::*;
use crate::errno::{err, syscall_error, EAGAIN, EBADF, EINVAL, EOVERFLOW, ETIMEDOUT};
use crate::cage::{Cage, RawMutex, RawCondvar, Semaphore, sems_unique};
use crate::assoc::{assoc_map, lemma_assoc_at, lemma_assoc_absent, lemma_assoc_update, lemma_assoc_push, lemma_assoc_remove};
use crate::shm::{ShmMetadata, ShmView, covers, first_covering};

verus! {

/// The largest value a semaphore may hold.
pub const SEM_VALUE_MAX: u32 = 2147483647;

/// A length of time.
#[derive(Clone, Copy, Debug)]
pub struct WaitTime {
    pub secs: u64,
    pub nanos: u32,
}

/// The lowest free slot of a table, or its length when every slot is taken.
pub open spec fn first_free<T>(t: Seq<Option<T>>) -> int {
    if exists|i: int| 0 <= i < t.len() && #[trigger] t[i] is None {
        choose|i: int| 0 <= i < t.len() && #[trigger] t[i] is None && forall|j: int| 0 <= j < i ==> t[j] is Some
    } else {
        t.len() as int
    }
}

/// The table after an object is put into its lowest free slot.
pub open spec fn put_first_free<T>(t: Seq<Option<T>>, x: T) -> Seq<Option<T>> {
    if first_free(t) < t.len() {
        t.update(first_free(t), Some(x))
    } else {
        t.push(Some(x))
    }
}

/// Whether `h` names an occupied slot.
pub open spec fn valid_handle<T>(t: Seq<Option<T>>, h: i32) -> bool {
    0 <= h < t.len() && t[h as int] is Some
}

/// Finds the lowest free slot of a table, or its length.
fn find_free<T>(t: &Vec<Option<T>>) -> (r: usize)
    ensures
        r == first_free(t@),
        r <= t@.len(),
{
    let mut i: usize = 0;
    while i < t.len()
        invariant
            i <= t@.len(),
            forall|j: int| 0 <= j < i ==> t@[j] is Some,
        decreases t@.len() - i,
    {
        if t[i].is_none() {
            proof {
                let c = choose|k: int| 0 <= k < t@.len() && #[trigger] t@[k] is None && forall|j: int| 0 <= j < k ==> t@[j] is Some;
                if c < i {
                    assert(t@[c] is Some);
                }
                if i < c {
                    assert(t@[i as int] is Some);
                }
            }
            return i;
        }
        i = i + 1;
    }
    proof {
        if exists|k: int| 0 <= k < t@.len() && #[trigger] t@[k] is None {
            let k = choose|k: int| 0 <= k < t@.len() && #[trigger] t@[k] is None;
            assert(t@[k] is Some);
        }
    }
    i
}

/// Puts an object into the lowest free slot of a table and returns the slot.
fn put_free<T>(t: &mut Vec<Option<T>>, x: T) -> (r: usize)
    ensures
        r == first_free(old(t)@),
        r <= old(t)@.len(),
        final(t)@ == put_first_free(old(t)@, x),
{
    let i = find_free(t);
    if i < t.len() {
        t.set(i, Some(x));
    } else {
        t.push(Some(x));
    }
    i
}

/// Whether `h` names an occupied slot.
fn check_handle<T>(t: &Vec<Option<T>>, h: i32) -> (r: bool)
    ensures
        r == valid_handle(t@, h),
{
    if h < 0 {
        return false;
    }
    if h as usize >= t.len() {
        return false;
    }
    t[h as usize].is_some()
}

/// The semaphores of a table by handle.
pub open spec fn sem_map(t: Seq<(u32, Semaphore)>) -> Map<u32, Semaphore> {
    assoc_map(t)
}

/// The semaphores of a cage by handle.
pub open spec fn sems(c: &Cage) -> Map<u32, Semaphore> {
    sem_map(c.sem_table@)
}

/// Finds the position of a semaphore handle in a table.
fn find_sem(t: &Vec<(u32, Semaphore)>, h: u32) -> (r: Option<usize>)
    requires
        sems_unique(t@),
    ensures
        match r {
            Some(i) => i < t@.len() && t@[i as int].0 == h && sem_map(t@).contains_key(h)
                && sem_map(t@)[h] == t@[i as int].1,
            None => !sem_map(t@).contains_key(h),
        },
{
    let mut i: usize = 0;
    while i < t.len()
        invariant
            i <= t@.len(),
            sems_unique(t@),
            forall|j: int| 0 <= j < i ==> t@[j].0 != h,
        decreases t@.len() - i,
    {
        if t[i].0 == h {
            proof {
                lemma_assoc_at(t@, i as int);
            }
            return Some(i);
        }
        i = i + 1;
    }
    proof {
        lemma_assoc_absent(t@, h);
    }
    None
}

/// Whether mapping `e` covers `h` and its segment holds a shared semaphore at the offset of
/// `h` in it.
pub open spec fn holds_at(shm: ShmView, e: (u32, i32), h: u32) -> bool {
    &&& covers(shm.segs, e, h)
    &&& shm.sems.contains_key((e.1, (h - e.0) as u32))
}

/// Where, for a cage with mappings `rev[i..]`, the shared semaphore named by `h` lives: at
/// the first of those mappings that holds one at `h`.
pub open spec fn shared_from(shm: ShmView, rev: Seq<(u32, i32)>, h: u32, i: int) -> Option<(i32, u32)>
    decreases rev.len() - i,
{
    if i < 0 || i >= rev.len() {
        None
    } else if holds_at(shm, rev[i], h) {
        Some((rev[i].1, (h - rev[i].0) as u32))
    } else {
        shared_from(shm, rev, h, i + 1)
    }
}

/// Where the shared semaphore named by `h` lives for a cage with mappings `rev`, if any.
pub open spec fn shared_at(shm: ShmView, rev: Seq<(u32, i32)>, h: u32) -> Option<(i32, u32)> {
    shared_from(shm, rev, h, 0)
}

/// The semaphores a cage sees: a handle names the shared semaphore of its segments that it
/// falls on, else the cage's own.
pub open spec fn sem_view(local: Map<u32, Semaphore>, shm: ShmView, rev: Seq<(u32, i32)>) -> Map<u32, Semaphore> {
    Map::new(
        |h: u32| shared_at(shm, rev, h) is Some || local.contains_key(h),
        |h: u32| match shared_at(shm, rev, h) {
            Some(l) => shm.sems[l],
            None => local[h],
        },
    )
}

/// The semaphores cage `c` sees.
pub open spec fn cage_sems(c: &Cage, shm: ShmView) -> Map<u32, Semaphore> {
    sem_view(sems(c), shm, c.rev_shm@)
}

/// The cage's own semaphores and the shared tables after semaphore `h` is set to `s` where
/// it lives.
pub open spec fn put_sem(local: Map<u32, Semaphore>, shm: ShmView, rev: Seq<(u32, i32)>, h: u32, s: Semaphore)
    -> (Map<u32, Semaphore>, ShmView)
{
    match shared_at(shm, rev, h) {
        Some(l) => (local, ShmView { sems: shm.sems.insert(l, s), ..shm }),
        None => (local.insert(h, s), shm),
    }
}

/// The cage's own semaphores and the shared tables after semaphore `h` is removed where it
/// lives.
pub open spec fn drop_sem(local: Map<u32, Semaphore>, shm: ShmView, rev: Seq<(u32, i32)>, h: u32)
    -> (Map<u32, Semaphore>, ShmView)
{
    match shared_at(shm, rev, h) {
        Some(l) => (local, ShmView { sems: shm.sems.remove(l), ..shm }),
        None => (local.remove(h), shm),
    }
}

/// The cage's own semaphores and the shared tables after a new semaphore `s` is made at `h`:
/// one shared between processes that falls in a mapped segment lives in that segment (the
/// first mapping that covers `h`), at its offset there; any other is the cage's own.
pub open spec fn init_sem(local: Map<u32, Semaphore>, shm: ShmView, rev: Seq<(u32, i32)>, h: u32, pshared: i32, s: Semaphore)
    -> (Map<u32, Semaphore>, ShmView)
{
    if pshared != 0 && first_covering(shm.segs, rev, h) is Some {
        let e = first_covering(shm.segs, rev, h)->Some_0;
        (local, ShmView { sems: shm.sems.insert((e.1, (h - e.0) as u32), s), ..shm })
    } else {
        (local.insert(h, s), shm)
    }
}

/// Two shared tables with the same segments (by id and size) and the same places holding
/// semaphores give every handle the same place.
pub(crate) proof fn lemma_shared_from_same_places(s1: ShmView, s2: ShmView, rev: Seq<(u32, i32)>, h: u32, i: int)
    requires
        s1.segs.dom() == s2.segs.dom(),
        forall|id: i32| #[trigger] s1.segs.contains_key(id) ==> s1.segs[id].size == s2.segs[id].size,
        s1.sems.dom() == s2.sems.dom(),
    ensures
        shared_from(s1, rev, h, i) == shared_from(s2, rev, h, i),
    decreases rev.len() - i,
{
    if 0 <= i < rev.len() {
        assert(s1.sems.contains_key((rev[i].1, (h - rev[i].0) as u32)) == s2.sems.contains_key((rev[i].1, (h - rev[i].0) as u32)));
        assert(s1.segs.contains_key(rev[i].1) == s2.segs.contains_key(rev[i].1));
        lemma_shared_from_same_places(s1, s2, rev, h, i + 1);
    }
}

/// A place that a handle names holds a semaphore.
pub(crate) proof fn lemma_shared_from_held(shm: ShmView, rev: Seq<(u32, i32)>, h: u32, i: int)
    ensures
        shared_from(shm, rev, h, i) matches Some(l) ==> shm.sems.contains_key(l),
    decreases rev.len() - i,
{
    if 0 <= i < rev.len() && !holds_at(shm, rev[i], h) {
        lemma_shared_from_held(shm, rev, h, i + 1);
    }
}

/// Where mapping `c` is the first from `i` on that holds a semaphore at `h`, that is where
/// `h` names one.
proof fn lemma_shared_from_first(shm: ShmView, rev: Seq<(u32, i32)>, h: u32, i: int, c: int)
    requires
        0 <= i <= c < rev.len(),
        holds_at(shm, rev[c], h),
        forall|j: int| i <= j < c ==> !holds_at(shm, #[trigger] rev[j], h),
    ensures
        shared_from(shm, rev, h, i) == Some((rev[c].1, (h - rev[c].0) as u32)),
    decreases c - i,
{
    if i < c {
        assert(!holds_at(shm, rev[i], h));
        lemma_shared_from_first(shm, rev, h, i + 1, c);
    }
}

/// Where the shared semaphore named by `h` lives for a cage with mappings `rev`.
fn locate_shared(shm: &ShmMetadata, rev: &Vec<(u32, i32)>, h: u32) -> (r: Option<(i32, u32)>)
    requires
        shm.wf(),
    ensures
        r == shared_at(shm@, rev@, h),
        r matches Some(l) ==> shm@.sems.contains_key(l),
{
    let mut i: usize = 0;
    while i < rev.len()
        invariant
            shm.wf(),
            i <= rev@.len(),
            shared_from(shm@, rev@, h, 0) == shared_from(shm@, rev@, h, i as int),
        decreases rev@.len() - i,
    {
        let (addr, shmid) = rev[i];
        if let Some(k) = shm.find_seg(shmid) {
            let size = shm.shmtable[k].1.size as u32;
            if addr <= h && (h as u64) < addr as u64 + size as u64 {
                let off = h - addr;
                if shm.find_shared_sem(shmid, off).is_some() {
                    assert(holds_at(shm@, rev@[i as int], h));
                    return Some((shmid, off));
                }
                assert(!holds_at(shm@, rev@[i as int], h));
            }
        }
        i = i + 1;
    }
    None
}

/// The first mapping of `rev` that covers `h`, by position.
fn covering_index(shm: &ShmMetadata, rev: &Vec<(u32, i32)>, h: u32) -> (r: Option<usize>)
    requires
        shm.wf(),
    ensures
        match r {
            Some(c) => c < rev@.len() && covers(shm@.segs, rev@[c as int], h)
                && (forall|j: int| 0 <= j < c ==> !covers(shm@.segs, #[trigger] rev@[j], h))
                && first_covering(shm@.segs, rev@, h) == Some(rev@[c as int]),
            None => first_covering(shm@.segs, rev@, h) is None,
        },
{
    let mut i: usize = 0;
    while i < rev.len()
        invariant
            shm.wf(),
            i <= rev@.len(),
            forall|j: int| 0 <= j < i ==> !covers(shm@.segs, #[trigger] rev@[j], h),
        decreases rev@.len() - i,
    {
        let (addr, shmid) = rev[i];
        if let Some(k) = shm.find_seg(shmid) {
            let size = shm.shmtable[k].1.size as u32;
            if addr <= h && (h as u64) < addr as u64 + size as u64 {
                proof {
                    assert(covers(shm@.segs, rev@[i as int], h));
                    let c = choose|c: int| 0 <= c < rev@.len() && covers(shm@.segs, #[trigger] rev@[c], h)
                        && forall|j: int| 0 <= j < c ==> !covers(shm@.segs, rev@[j], h);
                    if c < i {
                        assert(!covers(shm@.segs, rev@[c], h));
                    }
                    if i < c {
                        assert(!covers(shm@.segs, rev@[i as int], h));
                    }
                }
                return Some(i);
            }
        }
        i = i + 1;
    }
    proof {
        if exists|c: int| 0 <= c < rev@.len() && covers(shm@.segs, #[trigger] rev@[c], h) {
            let c = choose|c: int| 0 <= c < rev@.len() && covers(shm@.segs, #[trigger] rev@[c], h);
            assert(!covers(shm@.segs, rev@[c], h));
        }
    }
    None
}

/// Two cages that differ at most in their semaphore tables.
pub open spec fn same_but_sems(a: Cage, b: Cage) -> bool {
    &&& a.cageid == b.cageid
    &&& a.cwd == b.cwd
    &&& a.parent == b.parent
    &&& a.filedescriptortable == b.filedescriptortable
    &&& a.cancelstatus == b.cancelstatus
    &&& a.getgid == b.getgid
    &&& a.getuid == b.getuid
    &&& a.getegid == b.getegid
    &&& a.geteuid == b.geteuid
    &&& a.rev_shm == b.rev_shm
    &&& a.mutex_table == b.mutex_table
    &&& a.cv_table == b.cv_table
    &&& a.signalhandler == b.signalhandler
    &&& a.sigset == b.sigset
    &&& a.pendingsigset == b.pendingsigset
    &&& a.main_threadid == b.main_threadid
    &&& a.interval_timer == b.interval_timer
    &&& a.epoll_table == b.epoll_table
}

/// What a semaphore wait that may block does: takes one unit if there is one, else reports
/// that the caller has to wait.
pub open spec fn sem_wait_outcome(m: Map<u32, Semaphore>, h: u32) -> (int, Map<u32, Semaphore>) {
    if !m.contains_key(h) {
        (err(EINVAL), m)
    } else if m[h].value > 0 {
        (0, m.insert(h, Semaphore { value: (m[h].value - 1) as u32, ..m[h] }))
    } else {
        (err(EAGAIN), m)
    }
}

/// What posting to a semaphore does: one unit more, unless that would pass `SEM_VALUE_MAX`.
pub open spec fn sem_post_outcome(m: Map<u32, Semaphore>, h: u32) -> (int, Map<u32, Semaphore>) {
    if !m.contains_key(h) {
        (err(EINVAL), m)
    } else if m[h].value >= SEM_VALUE_MAX {
        (err(EOVERFLOW), m)
    } else {
        (0, m.insert(h, Semaphore { value: (m[h].value + 1) as u32, ..m[h] }))
    }
}

impl Cage {
    /// Creates a mutex in the lowest free slot of the mutex table and returns the slot.
    pub fn mutex_create_syscall(&mut self) -> (ret: i32)
        requires
            old(self).mutex_table@.len() < i32::MAX,
        ensures
            ret == first_free(old(self).mutex_table@),
            final(self).mutex_table@ == put_first_free(old(self).mutex_table@, RawMutex {}),
            final(self).mutex_table@.len() <= old(self).mutex_table@.len() + 1,
            *final(self) == (Cage { mutex_table: final(self).mutex_table, ..*old(self) }),
    {
        let i = put_free(&mut self.mutex_table, RawMutex {});
        i as i32
    }

    /// Frees the mutex slot `mutex_handle`.
    pub fn mutex_destroy_syscall(&mut self, mutex_handle: i32) -> (ret: i32)
        ensures
            valid_handle(old(self).mutex_table@, mutex_handle) ==> ret == 0
                && final(self).mutex_table@ == old(self).mutex_table@.update(mutex_handle as int, None),
            !valid_handle(old(self).mutex_table@, mutex_handle) ==> ret == err(EBADF)
                && final(self).mutex_table@ == old(self).mutex_table@,
            *final(self) == (Cage { mutex_table: final(self).mutex_table, ..*old(self) }),
    {
        if check_handle(&self.mutex_table, mutex_handle) {
            self.mutex_table.set(mutex_handle as usize, None);
            0
        } else {
            syscall_error(EBADF)
        }
    }

    /// Checks the handle of a mutex to be locked: 0 lets the host lock it.
    pub fn mutex_lock_syscall(&self, mutex_handle: i32) -> (ret: i32)
        ensures
            ret == (if valid_handle(self.mutex_table@, mutex_handle) { 0 } else { err(EBADF) }),
    {
        if check_handle(&self.mutex_table, mutex_handle) { 0 } else { syscall_error(EBADF) }
    }

    /// Checks the handle of a mutex to be tried: 0 lets the host try it.
    pub fn mutex_trylock_syscall(&self, mutex_handle: i32) -> (ret: i32)
        ensures
            ret == (if valid_handle(self.mutex_table@, mutex_handle) { 0 } else { err(EBADF) }),
    {
        if check_handle(&self.mutex_table, mutex_handle) { 0 } else { syscall_error(EBADF) }
    }

    /// Checks the handle of a mutex to be unlocked: 0 lets the host unlock it.
    pub fn mutex_unlock_syscall(&self, mutex_handle: i32) -> (ret: i32)
        ensures
            ret == (if valid_handle(self.mutex_table@, mutex_handle) { 0 } else { err(EBADF) }),
    {
        if check_handle(&self.mutex_table, mutex_handle) { 0 } else { syscall_error(EBADF) }
    }

    /// Creates a condition variable in the lowest free slot of its table and returns the slot.
    pub fn cond_create_syscall(&mut self) -> (ret: i32)
        requires
            old(self).cv_table@.len() < i32::MAX,
        ensures
            ret == first_free(old(self).cv_table@),
            final(self).cv_table@ == put_first_free(old(self).cv_table@, RawCondvar {}),
            final(self).cv_table@.len() <= old(self).cv_table@.len() + 1,
            *final(self) == (Cage { cv_table: final(self).cv_table, ..*old(self) }),
    {
        let i = put_free(&mut self.cv_table, RawCondvar {});
        i as i32
    }

    /// Frees the condition variable slot `cv_handle`.
    pub fn cond_destroy_syscall(&mut self, cv_handle: i32) -> (ret: i32)
        ensures
            valid_handle(old(self).cv_table@, cv_handle) ==> ret == 0
                && final(self).cv_table@ == old(self).cv_table@.update(cv_handle as int, None),
            !valid_handle(old(self).cv_table@, cv_handle) ==> ret == err(EBADF)
                && final(self).cv_table@ == old(self).cv_table@,
            *final(self) == (Cage { cv_table: final(self).cv_table, ..*old(self) }),
    {
        if check_handle(&self.cv_table, cv_handle) {
            self.cv_table.set(cv_handle as usize, None);
            0
        } else {
            syscall_error(EBADF)
        }
    }

    /// Checks the handle of a condition variable to be signalled: 0 lets the host signal it.
    pub fn cond_signal_syscall(&self, cv_handle: i32) -> (ret: i32)
        ensures
            ret == (if valid_handle(self.cv_table@, cv_handle) { 0 } else { err(EBADF) }),
    {
        if check_handle(&self.cv_table, cv_handle) { 0 } else { syscall_error(EBADF) }
    }

    /// Checks the handle of a condition variable to be broadcast: 0 lets the host wake all
    /// its waiters.
    pub fn cond_broadcast_syscall(&self, cv_handle: i32) -> (ret: i32)
        ensures
            ret == (if valid_handle(self.cv_table@, cv_handle) { 0 } else { err(EBADF) }),
    {
        if check_handle(&self.cv_table, cv_handle) { 0 } else { syscall_error(EBADF) }
    }

    /// Checks the handles of a wait: the condition variable first, then the mutex; 0 lets
    /// the host wait.
    pub fn cond_wait_syscall(&self, cv_handle: i32, mutex_handle: i32) -> (ret: i32)
        ensures
            ret == (if !valid_handle(self.cv_table@, cv_handle) {
                err(EBADF)
            } else if !valid_handle(self.mutex_table@, mutex_handle) {
                err(EBADF)
            } else {
                0
            }),
    {
        if !check_handle(&self.cv_table, cv_handle) {
            return syscall_error(EBADF);
        }
        if !check_handle(&self.mutex_table, mutex_handle) {
            return syscall_error(EBADF);
        }
        0
    }

    /// Checks the handles of a timed wait as `cond_wait_syscall` does; 0 lets the host wait
    /// for at most `time`.
    pub fn cond_timedwait_syscall(&self, cv_handle: i32, mutex_handle: i32, time: WaitTime) -> (ret: i32)
        ensures
            ret == (if !valid_handle(self.cv_table@, cv_handle) {
                err(EBADF)
            } else if !valid_handle(self.mutex_table@, mutex_handle) {
                err(EBADF)
            } else {
                0
            }),
    {
        self.cond_wait_syscall(cv_handle, mutex_handle)
    }

    /// Semaphore `h` as the cage sees it: where it lives if it is shared, and its value.
    fn fetch_sem(&self, shm: &ShmMetadata, h: u32) -> (r: (Option<(i32, u32)>, Option<Semaphore>))
        requires
            self.wf(),
            shm.wf(),
        ensures
            r.0 == shared_at(shm@, self.rev_shm@, h),
            r.1 == (if cage_sems(self, shm@).contains_key(h) { Some(cage_sems(self, shm@)[h]) } else { None }),
    {
        match locate_shared(shm, &self.rev_shm, h) {
            Some((id, off)) => match shm.find_shared_sem(id, off) {
                Some(i) => (Some((id, off)), Some(shm.semaphores[i].1)),
                None => (Some((id, off)), None),
            },
            None => match find_sem(&self.sem_table, h) {
                Some(i) => (None, Some(self.sem_table[i].1)),
                None => (None, None),
            },
        }
    }

    /// Sets semaphore `h`, which the cage sees, to `sem` where it lives.
    fn store_sem(&mut self, shm: &mut ShmMetadata, loc: Option<(i32, u32)>, h: u32, sem: Semaphore)
        requires
            old(self).wf(),
            old(shm).wf(),
            loc == shared_at(old(shm)@, old(self).rev_shm@, h),
            cage_sems(old(self), old(shm)@).contains_key(h),
        ensures
            final(self).wf(),
            final(shm).wf(),
            same_but_sems(*old(self), *final(self)),
            sems(final(self)) == put_sem(sems(old(self)), old(shm)@, old(self).rev_shm@, h, sem).0,
            final(shm)@ == put_sem(sems(old(self)), old(shm)@, old(self).rev_shm@, h, sem).1,
            cage_sems(final(self), final(shm)@).contains_key(h),
            cage_sems(final(self), final(shm)@)[h] == sem,
    {
        match loc {
            Some((id, off)) => {
                shm.put_shared_sem(id, off, sem);
                proof {
                    lemma_shared_from_held(old(shm)@, self.rev_shm@, h, 0);
                    assert(old(shm)@.sems.insert((id, off), sem).dom() =~= old(shm)@.sems.dom());
                    lemma_shared_from_same_places(old(shm)@, shm@, self.rev_shm@, h, 0);
                }
            },
            None => {
                match find_sem(&self.sem_table, h) {
                    Some(i) => {
                        proof {
                            lemma_assoc_update(self.sem_table@, i as int, sem);
                        }
                        self.sem_table.set(i, (h, sem));
                    },
                    None => {},
                }
            },
        }
    }

    /// Creates the semaphore `sem_handle` with the given value. One shared between processes
    /// (`pshared` not 0) that falls in a mapped segment lives in the segment, where every
    /// cage that maps it sees it; any other belongs to this cage.
    pub fn sem_init_syscall(&mut self, shm: &mut ShmMetadata, sem_handle: u32, pshared: i32, value: u32) -> (ret: i32)
        requires
            old(self).wf(),
            old(shm).wf(),
        ensures
            final(self).wf(),
            final(shm).wf(),
            same_but_sems(*old(self), *final(self)),
            ret == (if value > SEM_VALUE_MAX {
                err(EINVAL)
            } else if cage_sems(old(self), old(shm)@).contains_key(sem_handle) {
                err(EBADF)
            } else {
                0
            }),
            ret == 0 ==> sems(final(self)) == init_sem(sems(old(self)), old(shm)@, old(self).rev_shm@, sem_handle, pshared,
                Semaphore { value, is_shared: pshared != 0 }).0,
            ret == 0 ==> final(shm)@ == init_sem(sems(old(self)), old(shm)@, old(self).rev_shm@, sem_handle, pshared,
                Semaphore { value, is_shared: pshared != 0 }).1,
            ret == 0 ==> cage_sems(final(self), final(shm)@).contains_key(sem_handle)
                && cage_sems(final(self), final(shm)@)[sem_handle] == (Semaphore { value, is_shared: pshared != 0 }),
            ret != 0 ==> sems(final(self)) == sems(old(self)) && final(shm)@ == old(shm)@,
    {
        if value > SEM_VALUE_MAX {
            return syscall_error(EINVAL);
        }
        let (_, cur) = self.fetch_sem(shm, sem_handle);
        if cur.is_some() {
            return syscall_error(EBADF);
        }
        let sem = Semaphore { value, is_shared: pshared != 0 };
        let place = if pshared != 0 { covering_index(shm, &self.rev_shm, sem_handle) } else { None };
        match place {
            Some(c) => {
                let (addr, shmid) = self.rev_shm[c];
                let off = sem_handle - addr;
                let ghost s0 = shm@;
                shm.put_shared_sem(shmid, off, sem);
                proof {
                    let rev = self.rev_shm@;
                    assert forall|j: int| 0 <= j < c implies !holds_at(shm@, #[trigger] rev[j], sem_handle) by {
                        assert(!covers(s0.segs, rev[j], sem_handle));
                    }
                    lemma_shared_from_first(shm@, rev, sem_handle, 0, c as int);
                }
            },
            None => {
                match find_sem(&self.sem_table, sem_handle) {
                    Some(_) => {},
                    None => {
                        proof {
                            lemma_assoc_push(self.sem_table@, sem_handle, sem);
                        }
                        self.sem_table.push((sem_handle, sem));
                    },
                }
            },
        }
        0
    }

    /// Takes one unit of the semaphore; where it has none, returns `EAGAIN` and the caller
    /// waits and calls again. A shared semaphore changes for every cage that sees it.
    pub fn sem_wait_syscall(&mut self, shm: &mut ShmMetadata, sem_handle: u32) -> (ret: i32)
        requires
            old(self).wf(),
            old(shm).wf(),
        ensures
            final(self).wf(),
            final(shm).wf(),
            same_but_sems(*old(self), *final(self)),
            ret == sem_wait_outcome(cage_sems(old(self), old(shm)@), sem_handle).0,
            ret == 0 ==> sems(final(self)) == put_sem(sems(old(self)), old(shm)@, old(self).rev_shm@, sem_handle,
                sem_wait_outcome(cage_sems(old(self), old(shm)@), sem_handle).1[sem_handle]).0,
            ret == 0 ==> final(shm)@ == put_sem(sems(old(self)), old(shm)@, old(self).rev_shm@, sem_handle,
                sem_wait_outcome(cage_sems(old(self), old(shm)@), sem_handle).1[sem_handle]).1,
            ret == 0 ==> cage_sems(final(self), final(shm)@)[sem_handle]
                == sem_wait_outcome(cage_sems(old(self), old(shm)@), sem_handle).1[sem_handle],
            ret != 0 ==> sems(final(self)) == sems(old(self)) && final(shm)@ == old(shm)@,
    {
        let (loc, cur) = self.fetch_sem(shm, sem_handle);
        match cur {
            None => syscall_error(EINVAL),
            Some(s) => {
                if s.value > 0 {
                    self.store_sem(shm, loc, sem_handle, Semaphore { value: s.value - 1, ..s });
                    0
                } else {
                    syscall_error(EAGAIN)
                }
            },
        }
    }

    /// Takes one unit of the semaphore if it has one, else fails with `EAGAIN`.
    pub fn sem_trywait_syscall(&mut self, shm: &mut ShmMetadata, sem_handle: u32) -> (ret: i32)
        requires
            old(self).wf(),
            old(shm).wf(),
        ensures
            final(self).wf(),
            final(shm).wf(),
            same_but_sems(*old(self), *final(self)),
            ret == sem_wait_outcome(cage_sems(old(self), old(shm)@), sem_handle).0,
            ret == 0 ==> sems(final(self)) == put_sem(sems(old(self)), old(shm)@, old(self).rev_shm@, sem_handle,
                sem_wait_outcome(cage_sems(old(self), old(shm)@), sem_handle).1[sem_handle]).0,
            ret == 0 ==> final(shm)@ == put_sem(sems(old(self)), old(shm)@, old(self).rev_shm@, sem_handle,
                sem_wait_outcome(cage_sems(old(self), old(shm)@), sem_handle).1[sem_handle]).1,
            ret != 0 ==> sems(final(self)) == sems(old(self)) && final(shm)@ == old(shm)@,
    {
        self.sem_wait_syscall(shm, sem_handle)
    }

    /// Takes one unit of the semaphore if it has one; otherwise returns `ETIMEDOUT` when no
    /// time is left and `EAGAIN` when the caller may wait up to `time` and call again with
    /// the time then left.
    pub fn sem_timedwait_syscall(&mut self, shm: &mut ShmMetadata, sem_handle: u32, time: WaitTime) -> (ret: i32)
        requires
            old(self).wf(),
            old(shm).wf(),
        ensures
            final(self).wf(),
            final(shm).wf(),
            same_but_sems(*old(self), *final(self)),
            ret == (if sem_wait_outcome(cage_sems(old(self), old(shm)@), sem_handle).0 == err(EAGAIN) && time.secs == 0
                && time.nanos == 0 {
                err(ETIMEDOUT)
            } else {
                sem_wait_outcome(cage_sems(old(self), old(shm)@), sem_handle).0
            }),
            ret == 0 ==> sems(final(self)) == put_sem(sems(old(self)), old(shm)@, old(self).rev_shm@, sem_handle,
                sem_wait_outcome(cage_sems(old(self), old(shm)@), sem_handle).1[sem_handle]).0,
            ret == 0 ==> final(shm)@ == put_sem(sems(old(self)), old(shm)@, old(self).rev_shm@, sem_handle,
                sem_wait_outcome(cage_sems(old(self), old(shm)@), sem_handle).1[sem_handle]).1,
            ret != 0 ==> sems(final(self)) == sems(old(self)) && final(shm)@ == old(shm)@,
    {
        let r = self.sem_wait_syscall(shm, sem_handle);
        if r == -EAGAIN && time.secs == 0 && time.nanos == 0 {
            return syscall_error(ETIMEDOUT);
        }
        r
    }

    /// Adds one unit to the semaphore, unless that would pass `SEM_VALUE_MAX`. A shared
    /// semaphore changes for every cage that sees it.
    pub fn sem_post_syscall(&mut self, shm: &mut ShmMetadata, sem_handle: u32) -> (ret: i32)
        requires
            old(self).wf(),
            old(shm).wf(),
        ensures
            final(self).wf(),
            final(shm).wf(),
            same_but_sems(*old(self), *final(self)),
            ret == sem_post_outcome(cage_sems(old(self), old(shm)@), sem_handle).0,
            ret == 0 ==> sems(final(self)) == put_sem(sems(old(self)), old(shm)@, old(self).rev_shm@, sem_handle,
                sem_post_outcome(cage_sems(old(self), old(shm)@), sem_handle).1[sem_handle]).0,
            ret == 0 ==> final(shm)@ == put_sem(sems(old(self)), old(shm)@, old(self).rev_shm@, sem_handle,
                sem_post_outcome(cage_sems(old(self), old(shm)@), sem_handle).1[sem_handle]).1,
            ret == 0 ==> cage_sems(final(self), final(shm)@)[sem_handle]
                == sem_post_outcome(cage_sems(old(self), old(shm)@), sem_handle).1[sem_handle],
            ret != 0 ==> sems(final(self)) == sems(old(self)) && final(shm)@ == old(shm)@,
    {
        let (loc, cur) = self.fetch_sem(shm, sem_handle);
        match cur {
            None => syscall_error(EINVAL),
            Some(s) => {
                if s.value >= SEM_VALUE_MAX {
                    syscall_error(EOVERFLOW)
                } else {
                    self.store_sem(shm, loc, sem_handle, Semaphore { value: s.value + 1, ..s });
                    0
                }
            },
        }
    }

    /// Removes the semaphore `sem_handle`; a shared one goes for every cage that sees it.
    pub fn sem_destroy_syscall(&mut self, shm: &mut ShmMetadata, sem_handle: u32) -> (ret: i32)
        requires
            old(self).wf(),
            old(shm).wf(),
        ensures
            final(self).wf(),
            final(shm).wf(),
            same_but_sems(*old(self), *final(self)),
            ret == (if cage_sems(old(self), old(shm)@).contains_key(sem_handle) { 0 } else { err(EINVAL) }),
            ret == 0 ==> sems(final(self)) == drop_sem(sems(old(self)), old(shm)@, old(self).rev_shm@, sem_handle).0,
            ret == 0 ==> final(shm)@ == drop_sem(sems(old(self)), old(shm)@, old(self).rev_shm@, sem_handle).1,
            ret != 0 ==> sems(final(self)) == sems(old(self)) && final(shm)@ == old(shm)@,
    {
        let (loc, cur) = self.fetch_sem(shm, sem_handle);
        if cur.is_none() {
            return syscall_error(EINVAL);
        }
        match loc {
            Some((id, off)) => {
                shm.del_shared_sem(id, off);
            },
            None => {
                match find_sem(&self.sem_table, sem_handle) {
                    Some(i) => {
                        proof {
                            lemma_assoc_remove(self.sem_table@, i as int);
                        }
                        self.sem_table.remove(i);
                    },
                    None => {},
                }
            },
        }
        0
    }

    /// The value of the semaphore `sem_handle` as the cage sees it.
    pub fn sem_getvalue_syscall(&self, shm: &ShmMetadata, sem_handle: u32) -> (ret: i32)
        requires
            self.wf(),
            shm.wf(),
        ensures
            cage_sems(self, shm@).contains_key(sem_handle) ==> ret == cage_sems(self, shm@)[sem_handle].value as i32,
            !cage_sems(self, shm@).contains_key(sem_handle) ==> ret == err(EINVAL),
    {
        let (_, cur) = self.fetch_sem(shm, sem_handle);
        match cur {
            None => syscall_error(EINVAL),
            Some(s) => s.value as i32,
        }
    }
}

} // verus!
