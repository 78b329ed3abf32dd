//! System V shared memory: the segment table shared by all cages, and each cage's list of
//! the addresses at which it attached segments. Mapping and unmapping the memory itself is
//! the host's work; the calls here keep the tables and say where to map.
use vstd::prelude::*;
use crate::errno::{err, syscall_error, EEXIST, EINVAL, ENOENT};
use crate::assoc::{assoc_map, keys_unique, lemma_assoc_at, lemma_assoc_absent, lemma_assoc_update, lemma_assoc_push, lemma_assoc_remove};
use crate::cage::{Cage, Semaphore};
use crate::fs_constants::{DEFAULT_UID, DEFAULT_GID, PROT_READ, PROT_WRITE};
use crate::filesystem::{sat_inc, sat_dec};

verus! {

pub const IPC_PRIVATE: i32 = 0;
pub const IPC_CREAT: i32 = 0o1000;
pub const IPC_EXCL: i32 = 0o2000;
pub const IPC_RMID: i32 = 0;
pub const IPC_SET: i32 = 1;
pub const IPC_STAT: i32 = 2;
pub const SHM_RDONLY: i32 = 0o10000;
pub const SHM_DEST: u16 = 0o1000;
pub const SHMMIN: u32 = 1;
pub const SHMMAX: u32 = 4278190079;

/// Owner and permissions of a segment.
#[derive(Clone, Copy, Debug)]
pub struct IpcPermStruct {
    pub key: i32,
    pub uid: u32,
    pub gid: u32,
    pub cuid: u32,
    pub cgid: u32,
    pub mode: u16,
}

/// What `IPC_STAT` reports of a segment.
#[derive(Clone, Copy, Debug)]
pub struct ShmidsStruct {
    pub shm_perm: IpcPermStruct,
    pub shm_segsz: u32,
    pub shm_cpid: u32,
    pub shm_lpid: u32,
    pub shm_nattch: u32,
}

/// A shared memory segment.
#[derive(Clone, Copy, Debug)]
pub struct ShmSegment {
    pub shminfo: ShmidsStruct,
    pub key: i32,
    pub size: usize,
    pub rmid: bool,
}

/// The segments by id, the ids by key, how many times each cage attached each segment
/// (keyed by segment id and cage id), and the semaphores shared between processes that live
/// in segments (keyed by segment id and offset in the segment).
pub struct ShmMetadata {
    pub nextid: i32,
    pub shmtable: Vec<(i32, ShmSegment)>,
    pub shmkeyidtable: Vec<(i32, i32)>,
    pub attached: Vec<((i32, u64), u32)>,
    pub semaphores: Vec<((i32, u32), Semaphore)>,
}

/// The shared memory tables as maps.
#[verifier::ext_equal]
pub struct ShmView {
    pub nextid: i32,
    pub segs: Map<i32, ShmSegment>,
    pub keys: Map<i32, i32>,
    pub attached: Map<(i32, u64), u32>,
    pub sems: Map<(i32, u32), Semaphore>,
}

impl View for ShmMetadata {
    type V = ShmView;

    open spec fn view(&self) -> ShmView {
        ShmView {
            nextid: self.nextid,
            segs: assoc_map(self.shmtable@),
            keys: assoc_map(self.shmkeyidtable@),
            attached: assoc_map(self.attached@),
            sems: assoc_map(self.semaphores@),
        }
    }
}

/// The id handed out after `x`, wrapping around.
pub open spec fn next_id(x: i32) -> i32 {
    if x == i32::MAX { i32::MIN } else { (x + 1) as i32 }
}

/// A new segment made by `shmget`.
pub open spec fn new_segment(key: i32, size: usize, cageid: u64, mode: u16) -> ShmSegment {
    ShmSegment {
        shminfo: ShmidsStruct {
            shm_perm: IpcPermStruct { key, uid: DEFAULT_UID, gid: DEFAULT_GID, cuid: DEFAULT_UID, cgid: DEFAULT_GID, mode },
            shm_segsz: size as u32,
            shm_cpid: cageid as u32,
            shm_lpid: 0,
            shm_nattch: 0,
        },
        key,
        size,
        rmid: false,
    }
}

/// A segment with one attach more or less.
pub open spec fn with_nattch(seg: ShmSegment, n: u32) -> ShmSegment {
    ShmSegment { shminfo: ShmidsStruct { shm_nattch: n, ..seg.shminfo }, ..seg }
}

/// What `shmget` returns and does to the tables.
pub open spec fn shmget_outcome(s: ShmView, cageid: u64, key: i32, size: usize, shmflg: i32) -> (int, ShmView) {
    if key == IPC_PRIVATE {
        (err(ENOENT), s)
    } else if s.keys.contains_key(key) {
        if (IPC_CREAT | IPC_EXCL) == (shmflg & (IPC_CREAT | IPC_EXCL)) {
            (err(EEXIST), s)
        } else {
            (s.keys[key] as int, s)
        }
    } else if shmflg & IPC_CREAT == 0 {
        (err(ENOENT), s)
    } else if (size as u32) < SHMMIN || (size as u32) > SHMMAX {
        (err(EINVAL), s)
    } else {
        let id = s.nextid;
        (
            id as int,
            ShmView {
                nextid: next_id(id),
                segs: s.segs.insert(id, new_segment(key, size, cageid, (shmflg & 0x1FF) as u16)),
                keys: s.keys.insert(key, id),
                ..s
            },
        )
    }
}

/// The tables after cage `cageid` attaches segment `shmid` once more.
pub open spec fn attach_one(s: ShmView, shmid: i32, cageid: u64) -> ShmView {
    let seg = s.segs[shmid];
    ShmView {
        segs: s.segs.insert(shmid, with_nattch(seg, sat_inc(seg.shminfo.shm_nattch))),
        attached: s.attached.insert(
            (shmid, cageid),
            if s.attached.contains_key((shmid, cageid)) { sat_inc(s.attached[(shmid, cageid)]) } else { 1 },
        ),
        ..s
    }
}

/// The shared semaphores that do not live in segment `shmid`.
pub open spec fn sems_without(m: Map<(i32, u32), Semaphore>, shmid: i32) -> Map<(i32, u32), Semaphore> {
    m.restrict(m.dom().filter(|k: (i32, u32)| k.0 != shmid))
}

/// The tables after segment `shmid` is dropped, with its key and its semaphores.
pub open spec fn drop_segment(s: ShmView, shmid: i32) -> ShmView {
    ShmView {
        segs: s.segs.remove(shmid),
        keys: s.keys.remove(s.segs[shmid].key),
        sems: sems_without(s.sems, shmid),
        ..s
    }
}

/// The tables after cage `cageid` detaches segment `shmid` once.
pub open spec fn detach_one(s: ShmView, shmid: i32, cageid: u64) -> ShmView {
    let seg = s.segs[shmid];
    let n = sat_dec(seg.shminfo.shm_nattch);
    let cnt = if s.attached.contains_key((shmid, cageid)) { sat_dec(s.attached[(shmid, cageid)]) } else { 0 };
    let t = ShmView {
        segs: s.segs.insert(shmid, with_nattch(seg, n)),
        attached: if cnt == 0 { s.attached.remove((shmid, cageid)) } else { s.attached.insert((shmid, cageid), cnt) },
        ..s
    };
    if seg.rmid && n == 0 { drop_segment(t, shmid) } else { t }
}

/// The tables after a cage that goes away drops one of its mappings of segment `shmid`.
pub open spec fn release_one(s: ShmView, shmid: i32, cageid: u64) -> ShmView {
    if !s.segs.contains_key(shmid) {
        s
    } else {
        let seg = s.segs[shmid];
        let n = sat_dec(seg.shminfo.shm_nattch);
        let t = ShmView {
            segs: s.segs.insert(shmid, with_nattch(seg, n)),
            attached: s.attached.remove((shmid, cageid)),
            ..s
        };
        if seg.rmid && n == 0 { drop_segment(t, shmid) } else { t }
    }
}

/// The tables after a cage that goes away drops its mappings `rev[i..]`.
pub open spec fn release_all(s: ShmView, rev: Seq<(u32, i32)>, i: int, cageid: u64) -> ShmView
    decreases rev.len() - i,
{
    if i < 0 || i >= rev.len() {
        s
    } else {
        release_all(release_one(s, rev[i].1, cageid), rev, i + 1, cageid)
    }
}

/// The first position of a mapping at `addr`.
pub open spec fn first_at_addr(rev: Seq<(u32, i32)>, addr: u32) -> Option<int> {
    if exists|i: int| 0 <= i < rev.len() && #[trigger] rev[i].0 == addr {
        Some(choose|i: int| 0 <= i < rev.len() && #[trigger] rev[i].0 == addr && forall|j: int| 0 <= j < i ==> rev[j].0 != addr)
    } else {
        None
    }
}

/// Whether mapping `e` covers `addr` (the end of the region is computed without wrapping).
pub open spec fn covers(segs: Map<i32, ShmSegment>, e: (u32, i32), addr: u32) -> bool {
    &&& segs.contains_key(e.1)
    &&& e.0 <= addr
    &&& (addr as int) < e.0 as int + segs[e.1].size as u32 as int
}

/// The first mapping that covers `addr`.
pub open spec fn first_covering(segs: Map<i32, ShmSegment>, rev: Seq<(u32, i32)>, addr: u32) -> Option<(u32, i32)> {
    if exists|i: int| 0 <= i < rev.len() && covers(segs, #[trigger] rev[i], addr) {
        Some(rev[choose|i: int| 0 <= i < rev.len() && covers(segs, #[trigger] rev[i], addr)
            && forall|j: int| 0 <= j < i ==> !covers(segs, rev[j], addr)])
    } else {
        None
    }
}

impl ShmMetadata {
    /// The tables keep each key once.
    pub open spec fn wf(&self) -> bool {
        &&& keys_unique(self.shmtable@)
        &&& keys_unique(self.shmkeyidtable@)
        &&& keys_unique(self.attached@)
        &&& keys_unique(self.semaphores@)
    }

    /// Empty tables; ids start at 1.
    pub fn new() -> (r: ShmMetadata)
        ensures
            r.wf(),
            r@ == (ShmView { nextid: 1, segs: Map::empty(), keys: Map::empty(), attached: Map::empty(), sems: Map::empty() }),
    {
        let r = ShmMetadata {
            nextid: 1,
            shmtable: Vec::new(),
            shmkeyidtable: Vec::new(),
            attached: Vec::new(),
            semaphores: Vec::new(),
        };
        proof {
            lemma_assoc_absent(r.shmtable@, 0);
            assert(r@.segs =~= Map::empty());
            assert(r@.keys =~= Map::empty());
            assert(r@.attached =~= Map::empty());
            assert(r@.sems =~= Map::empty());
        }
        r
    }

    pub(crate) fn find_seg(&self, shmid: i32) -> (r: Option<usize>)
        requires
            self.wf(),
        ensures
            match r {
                Some(i) => i < self.shmtable@.len() && self.shmtable@[i as int].0 == shmid
                    && self@.segs.contains_key(shmid) && self@.segs[shmid] == self.shmtable@[i as int].1,
                None => !self@.segs.contains_key(shmid),
            },
    {
        let mut i: usize = 0;
        while i < self.shmtable.len()
            invariant
                i <= self.shmtable@.len(),
                forall|j: int| 0 <= j < i ==> self.shmtable@[j].0 != shmid,
                self.wf(),
            decreases self.shmtable@.len() - i,
        {
            if self.shmtable[i].0 == shmid {
                proof {
                    lemma_assoc_at(self.shmtable@, i as int);
                }
                return Some(i);
            }
            i = i + 1;
        }
        proof {
            lemma_assoc_absent(self.shmtable@, shmid);
        }
        None
    }

    fn find_key(&self, key: i32) -> (r: Option<usize>)
        requires
            self.wf(),
        ensures
            match r {
                Some(i) => i < self.shmkeyidtable@.len() && self.shmkeyidtable@[i as int].0 == key
                    && self@.keys.contains_key(key) && self@.keys[key] == self.shmkeyidtable@[i as int].1,
                None => !self@.keys.contains_key(key),
            },
    {
        let mut i: usize = 0;
        while i < self.shmkeyidtable.len()
            invariant
                i <= self.shmkeyidtable@.len(),
                forall|j: int| 0 <= j < i ==> self.shmkeyidtable@[j].0 != key,
                self.wf(),
            decreases self.shmkeyidtable@.len() - i,
        {
            if self.shmkeyidtable[i].0 == key {
                proof {
                    lemma_assoc_at(self.shmkeyidtable@, i as int);
                }
                return Some(i);
            }
            i = i + 1;
        }
        proof {
            lemma_assoc_absent(self.shmkeyidtable@, key);
        }
        None
    }

    fn find_attached(&self, shmid: i32, cageid: u64) -> (r: Option<usize>)
        requires
            self.wf(),
        ensures
            match r {
                Some(i) => i < self.attached@.len() && self.attached@[i as int].0 == (shmid, cageid)
                    && self@.attached.contains_key((shmid, cageid)) && self@.attached[(shmid, cageid)]
                    == self.attached@[i as int].1,
                None => !self@.attached.contains_key((shmid, cageid)),
            },
    {
        let mut i: usize = 0;
        while i < self.attached.len()
            invariant
                i <= self.attached@.len(),
                forall|j: int| 0 <= j < i ==> self.attached@[j].0 != (shmid, cageid),
                self.wf(),
            decreases self.attached@.len() - i,
        {
            let (k, _) = self.attached[i];
            if k.0 == shmid && k.1 == cageid {
                proof {
                    lemma_assoc_at(self.attached@, i as int);
                }
                return Some(i);
            }
            i = i + 1;
        }
        proof {
            lemma_assoc_absent(self.attached@, (shmid, cageid));
        }
        None
    }

    /// The position of the shared semaphore at offset `off` of segment `shmid`.
    pub(crate) fn find_shared_sem(&self, shmid: i32, off: u32) -> (r: Option<usize>)
        requires
            self.wf(),
        ensures
            match r {
                Some(i) => i < self.semaphores@.len() && self.semaphores@[i as int].0 == (shmid, off)
                    && self@.sems.contains_key((shmid, off)) && self@.sems[(shmid, off)]
                    == self.semaphores@[i as int].1,
                None => !self@.sems.contains_key((shmid, off)),
            },
    {
        let mut i: usize = 0;
        while i < self.semaphores.len()
            invariant
                i <= self.semaphores@.len(),
                forall|j: int| 0 <= j < i ==> self.semaphores@[j].0 != (shmid, off),
                self.wf(),
            decreases self.semaphores@.len() - i,
        {
            let (k, _) = self.semaphores[i];
            if k.0 == shmid && k.1 == off {
                proof {
                    lemma_assoc_at(self.semaphores@, i as int);
                }
                return Some(i);
            }
            i = i + 1;
        }
        proof {
            lemma_assoc_absent(self.semaphores@, (shmid, off));
        }
        None
    }

    /// Sets the shared semaphore at offset `off` of segment `shmid`, adding it if it is new.
    pub(crate) fn put_shared_sem(&mut self, shmid: i32, off: u32, sem: Semaphore)
        requires
            old(self).wf(),
        ensures
            final(self).wf(),
            final(self)@ == (ShmView { sems: old(self)@.sems.insert((shmid, off), sem), ..old(self)@ }),
    {
        match self.find_shared_sem(shmid, off) {
            Some(i) => {
                proof {
                    lemma_assoc_update(self.semaphores@, i as int, sem);
                }
                self.semaphores.set(i, ((shmid, off), sem));
            },
            None => {
                proof {
                    lemma_assoc_push(self.semaphores@, (shmid, off), sem);
                }
                self.semaphores.push(((shmid, off), sem));
            },
        }
    }

    /// Removes the shared semaphore at offset `off` of segment `shmid` if it is there.
    pub(crate) fn del_shared_sem(&mut self, shmid: i32, off: u32)
        requires
            old(self).wf(),
        ensures
            final(self).wf(),
            final(self)@ == (ShmView { sems: old(self)@.sems.remove((shmid, off)), ..old(self)@ }),
    {
        match self.find_shared_sem(shmid, off) {
            Some(i) => {
                proof {
                    lemma_assoc_remove(self.semaphores@, i as int);
                }
                self.semaphores.remove(i);
            },
            None => {
                assert(self@.sems.remove((shmid, off)) =~= self@.sems);
            },
        }
    }

    /// Sets segment `shmid`, adding it if it is new.
    fn put_seg(&mut self, shmid: i32, seg: ShmSegment)
        requires
            old(self).wf(),
        ensures
            final(self).wf(),
            final(self)@ == (ShmView { segs: old(self)@.segs.insert(shmid, seg), ..old(self)@ }),
    {
        match self.find_seg(shmid) {
            Some(i) => {
                proof {
                    lemma_assoc_update(self.shmtable@, i as int, seg);
                }
                self.shmtable.set(i, (shmid, seg));
            },
            None => {
                proof {
                    lemma_assoc_push(self.shmtable@, shmid, seg);
                }
                self.shmtable.push((shmid, seg));
            },
        }
    }

    /// Sets the id of `key`, adding it if it is new.
    fn put_key(&mut self, key: i32, shmid: i32)
        requires
            old(self).wf(),
        ensures
            final(self).wf(),
            final(self)@ == (ShmView { keys: old(self)@.keys.insert(key, shmid), ..old(self)@ }),
    {
        match self.find_key(key) {
            Some(i) => {
                proof {
                    lemma_assoc_update(self.shmkeyidtable@, i as int, shmid);
                }
                self.shmkeyidtable.set(i, (key, shmid));
            },
            None => {
                proof {
                    lemma_assoc_push(self.shmkeyidtable@, key, shmid);
                }
                self.shmkeyidtable.push((key, shmid));
            },
        }
    }

    /// Sets the attach count of (`shmid`, `cageid`), adding it if it is new.
    fn put_attached(&mut self, shmid: i32, cageid: u64, n: u32)
        requires
            old(self).wf(),
        ensures
            final(self).wf(),
            final(self)@ == (ShmView { attached: old(self)@.attached.insert((shmid, cageid), n), ..old(self)@ }),
    {
        match self.find_attached(shmid, cageid) {
            Some(i) => {
                proof {
                    lemma_assoc_update(self.attached@, i as int, n);
                }
                self.attached.set(i, ((shmid, cageid), n));
            },
            None => {
                proof {
                    lemma_assoc_push(self.attached@, (shmid, cageid), n);
                }
                self.attached.push(((shmid, cageid), n));
            },
        }
    }

    /// Removes segment `shmid` if it is there.
    fn del_seg(&mut self, shmid: i32)
        requires
            old(self).wf(),
        ensures
            final(self).wf(),
            final(self)@ == (ShmView { segs: old(self)@.segs.remove(shmid), ..old(self)@ }),
    {
        match self.find_seg(shmid) {
            Some(i) => {
                proof {
                    lemma_assoc_remove(self.shmtable@, i as int);
                }
                self.shmtable.remove(i);
            },
            None => {
                assert(self@.segs.remove(shmid) =~= self@.segs);
            },
        }
    }

    /// Removes `key` if it is there.
    fn del_key(&mut self, key: i32)
        requires
            old(self).wf(),
        ensures
            final(self).wf(),
            final(self)@ == (ShmView { keys: old(self)@.keys.remove(key), ..old(self)@ }),
    {
        match self.find_key(key) {
            Some(i) => {
                proof {
                    lemma_assoc_remove(self.shmkeyidtable@, i as int);
                }
                self.shmkeyidtable.remove(i);
            },
            None => {
                assert(self@.keys.remove(key) =~= self@.keys);
            },
        }
    }

    /// Removes the attach count of (`shmid`, `cageid`) if it is there.
    fn del_attached(&mut self, shmid: i32, cageid: u64)
        requires
            old(self).wf(),
        ensures
            final(self).wf(),
            final(self)@ == (ShmView { attached: old(self)@.attached.remove((shmid, cageid)), ..old(self)@ }),
    {
        match self.find_attached(shmid, cageid) {
            Some(i) => {
                proof {
                    lemma_assoc_remove(self.attached@, i as int);
                }
                self.attached.remove(i);
            },
            None => {
                assert(self@.attached.remove((shmid, cageid)) =~= self@.attached);
            },
        }
    }

    /// Drops segment `shmid` and its key.
    fn drop_seg(&mut self, shmid: i32, key: i32)
        requires
            old(self).wf(),
            old(self)@.segs.contains_key(shmid),
            old(self)@.segs[shmid].key == key,
        ensures
            final(self).wf(),
            final(self)@ == drop_segment(old(self)@, shmid),
    {
        self.del_seg(shmid);
        self.del_key(key);
        self.del_sems_of(shmid);
    }

    /// Removes the semaphores that live in segment `shmid`.
    fn del_sems_of(&mut self, shmid: i32)
        requires
            old(self).wf(),
        ensures
            final(self).wf(),
            final(self)@ == (ShmView { sems: sems_without(old(self)@.sems, shmid), ..old(self)@ }),
    {
        let ghost m0 = self@.sems;
        let mut i: usize = 0;
        while i < self.semaphores.len()
            invariant
                self.wf(),
                i <= self.semaphores@.len(),
                forall|j: int| 0 <= j < i ==> (#[trigger] self.semaphores@[j]).0.0 != shmid,
                forall|k: (i32, u32)| #[trigger] self@.sems.contains_key(k) ==> m0.contains_key(k) && self@.sems[k] == m0[k],
                forall|k: (i32, u32)| #[trigger] m0.contains_key(k) && k.0 != shmid ==> self@.sems.contains_key(k),
                self@ == (ShmView { sems: self@.sems, ..old(self)@ }),
            decreases self.semaphores@.len() - i,
        {
            if self.semaphores[i].0.0 == shmid {
                proof {
                    lemma_assoc_remove(self.semaphores@, i as int);
                }
                self.semaphores.remove(i);
            } else {
                i = i + 1;
            }
        }
        proof {
            let m = self@.sems;
            let want = sems_without(m0, shmid);
            assert forall|k: (i32, u32)| #[trigger] m.contains_key(k) implies k.0 != shmid by {
                let j = choose|j: int| 0 <= j < self.semaphores@.len() && #[trigger] self.semaphores@[j].0 == k;
                assert(self.semaphores@[j].0.0 != shmid);
            }
            assert(m =~= want);
        }
    }

    /// Drops one mapping of segment `shmid` held by a cage that goes away.
    fn release_mapping(&mut self, shmid: i32, cageid: u64)
        requires
            old(self).wf(),
        ensures
            final(self).wf(),
            final(self)@ == release_one(old(self)@, shmid, cageid),
    {
        match self.find_seg(shmid) {
            None => {},
            Some(i) => {
                let seg = self.shmtable[i].1;
                let n = if seg.shminfo.shm_nattch > 0 { seg.shminfo.shm_nattch - 1 } else { 0 };
                let nseg = ShmSegment { shminfo: ShmidsStruct { shm_nattch: n, ..seg.shminfo }, ..seg };
                self.put_seg(shmid, nseg);
                self.del_attached(shmid, cageid);
                if seg.rmid && n == 0 {
                    self.drop_seg(shmid, seg.key);
                }
                assert(self@ =~= release_one(old(self)@, shmid, cageid));
            },
        }
    }
}

/// The shared memory tables after a child cage inherits the mappings `rev[i..]`: each segment
/// counts one attach more, and the child gets the parent's attach count.
pub open spec fn inherit_mappings(s: ShmView, rev: Seq<(u32, i32)>, i: int, parent: u64, child: u64) -> ShmView
    decreases rev.len() - i,
{
    if i < 0 || i >= rev.len() {
        s
    } else {
        let id = rev[i].1;
        let s1 = if s.segs.contains_key(id) {
            let seg = s.segs[id];
            let t = ShmView { segs: s.segs.insert(id, with_nattch(seg, sat_inc(seg.shminfo.shm_nattch))), ..s };
            if s.attached.contains_key((id, parent)) {
                ShmView { attached: t.attached.insert((id, child), s.attached[(id, parent)]), ..t }
            } else {
                t
            }
        } else {
            s
        };
        inherit_mappings(s1, rev, i + 1, parent, child)
    }
}

impl ShmMetadata {
    /// Gives a child cage the parent's mappings `rev`.
    pub(crate) fn inherit(&mut self, rev: &Vec<(u32, i32)>, parent: u64, child: u64)
        requires
            old(self).wf(),
        ensures
            final(self).wf(),
            final(self)@ == inherit_mappings(old(self)@, rev@, 0, parent, child),
    {
        let mut i: usize = 0;
        while i < rev.len()
            invariant
                self.wf(),
                i <= rev@.len(),
                inherit_mappings(old(self)@, rev@, 0, parent, child) == inherit_mappings(self@, rev@, i as int, parent, child),
            decreases rev@.len() - i,
        {
            let id = rev[i].1;
            let ghost s = self@;
            match self.find_seg(id) {
                None => {},
                Some(k) => {
                    let seg = self.shmtable[k].1;
                    let n = if seg.shminfo.shm_nattch < u32::MAX { seg.shminfo.shm_nattch + 1 } else { seg.shminfo.shm_nattch };
                    self.put_seg(id, with_nattch_exec(seg, n));
                    match self.find_attached(id, parent) {
                        Some(j) => {
                            let c = self.attached[j].1;
                            self.put_attached(id, child, c);
                        },
                        None => {},
                    }
                },
            }
            i = i + 1;
        }
    }
}

fn with_nattch_exec(seg: ShmSegment, n: u32) -> (r: ShmSegment)
    ensures
        r == with_nattch(seg, n),
{
    ShmSegment { shminfo: ShmidsStruct { shm_nattch: n, ..seg.shminfo }, ..seg }
}

impl Cage {
    /// The position of the first mapping at `shmaddr`.
    pub fn rev_shm_find_index_by_addr(rev_shm: &Vec<(u32, i32)>, shmaddr: u32) -> (r: Option<usize>)
        ensures
            match r {
                Some(i) => i < rev_shm@.len() && rev_shm@[i as int].0 == shmaddr
                    && first_at_addr(rev_shm@, shmaddr) == Some(i as int),
                None => first_at_addr(rev_shm@, shmaddr) is None,
            },
    {
        let mut i: usize = 0;
        while i < rev_shm.len()
            invariant
                i <= rev_shm@.len(),
                forall|j: int| 0 <= j < i ==> rev_shm@[j].0 != shmaddr,
            decreases rev_shm@.len() - i,
        {
            if rev_shm[i].0 == shmaddr {
                proof {
                    let c = choose|k: int| 0 <= k < rev_shm@.len() && #[trigger] rev_shm@[k].0 == shmaddr
                        && forall|j: int| 0 <= j < k ==> rev_shm@[j].0 != shmaddr;
                    assert(rev_shm@[i as int].0 == shmaddr);
                    if c < i {
                        assert(rev_shm@[c].0 != shmaddr);
                    }
                    if i < c {
                        assert(rev_shm@[i as int].0 != shmaddr);
                    }
                }
                return Some(i);
            }
            i = i + 1;
        }
        proof {
            if exists|k: int| 0 <= k < rev_shm@.len() && #[trigger] rev_shm@[k].0 == shmaddr {
                let k = choose|k: int| 0 <= k < rev_shm@.len() && #[trigger] rev_shm@[k].0 == shmaddr;
                assert(rev_shm@[k].0 != shmaddr);
            }
        }
        None
    }

    /// The addresses, in order, at which segment `shmid` is mapped.
    pub fn rev_shm_find_addrs_by_shmid(rev_shm: &Vec<(u32, i32)>, shmid: i32) -> (r: Vec<u32>)
        ensures
            r@ == rev_shm@.filter(|e: (u32, i32)| e.1 == shmid).map_values(|e: (u32, i32)| e.0),
    {
        let mut out: Vec<u32> = Vec::new();
        let mut i: usize = 0;
        while i < rev_shm.len()
            invariant
                i <= rev_shm@.len(),
                out@ == rev_shm@.take(i as int).filter(|e: (u32, i32)| e.1 == shmid).map_values(|e: (u32, i32)| e.0),
            decreases rev_shm@.len() - i,
        {
            let e = rev_shm[i];
            proof {
                let f = |e: (u32, i32)| e.1 == shmid;
                assert(rev_shm@.take(i + 1) =~= rev_shm@.take(i as int).push(e));
                rev_shm@.take(i as int).lemma_filter_push(e, f);
            }
            if e.1 == shmid {
                out.push(e.0);
            }
            proof {
                let f = |e: (u32, i32)| e.1 == shmid;
                let g = |e: (u32, i32)| e.0;
                let before = rev_shm@.take(i as int).filter(f);
                if e.1 == shmid {
                    assert(rev_shm@.take(i + 1).filter(f) == before.push(e));
                    assert(before.push(e).map_values(g) =~= before.map_values(g).push(e.0));
                } else {
                    assert(rev_shm@.take(i + 1).filter(f) == before);
                }
            }
            i = i + 1;
        }
        assert(rev_shm@.take(rev_shm@.len() as int) =~= rev_shm@);
        out
    }

    /// The first mapping of `rev_shm` whose segment covers `search_addr`.
    pub fn search_for_addr_in_region(shm: &ShmMetadata, rev_shm: &Vec<(u32, i32)>, search_addr: u32) -> (r: Option<(u32, i32)>)
        requires
            shm.wf(),
        ensures
            r == first_covering(shm@.segs, rev_shm@, search_addr),
    {
        let mut i: usize = 0;
        while i < rev_shm.len()
            invariant
                shm.wf(),
                i <= rev_shm@.len(),
                forall|j: int| 0 <= j < i ==> !covers(shm@.segs, rev_shm@[j], search_addr),
            decreases rev_shm@.len() - i,
        {
            let (addr, shmid) = rev_shm[i];
            if let Some(k) = shm.find_seg(shmid) {
                let size = shm.shmtable[k].1.size as u32;
                if addr <= search_addr && (search_addr as u64) < addr as u64 + size as u64 {
                    proof {
                        assert(covers(shm@.segs, rev_shm@[i as int], search_addr));
                        let c = choose|c: int| 0 <= c < rev_shm@.len() && covers(shm@.segs, #[trigger] rev_shm@[c], search_addr)
                            && forall|j: int| 0 <= j < c ==> !covers(shm@.segs, rev_shm@[j], search_addr);
                        if c < i {
                            assert(!covers(shm@.segs, rev_shm@[c], search_addr));
                        }
                        if i < c {
                            assert(!covers(shm@.segs, rev_shm@[i as int], search_addr));
                        }
                    }
                    return Some((addr, shmid));
                }
            }
            i = i + 1;
        }
        proof {
            if exists|c: int| 0 <= c < rev_shm@.len() && covers(shm@.segs, #[trigger] rev_shm@[c], search_addr) {
                let c = choose|c: int| 0 <= c < rev_shm@.len() && covers(shm@.segs, #[trigger] rev_shm@[c], search_addr);
                assert(!covers(shm@.segs, rev_shm@[c], search_addr));
            }
        }
        None
    }
}

/// The protection with which a segment is mapped: read only under `SHM_RDONLY`, else read
/// and write.
pub fn shm_prot(shmflg: i32) -> (r: i32)
    ensures
        r == (if shmflg & SHM_RDONLY != 0 { PROT_READ } else { PROT_READ | PROT_WRITE }),
{
    if shmflg & SHM_RDONLY != 0 { PROT_READ } else { PROT_READ | PROT_WRITE }
}

impl Cage {
    /// Looks up or creates the segment of `key` and returns its id.
    pub fn shmget_syscall(&self, shm: &mut ShmMetadata, key: i32, size: usize, shmflg: i32) -> (ret: i32)
        requires
            old(shm).wf(),
        ensures
            final(shm).wf(),
            ret as int == shmget_outcome(old(shm)@, self.cageid, key, size, shmflg).0,
            final(shm)@ == shmget_outcome(old(shm)@, self.cageid, key, size, shmflg).1,
    {
        if key == IPC_PRIVATE {
            return syscall_error(ENOENT);
        }
        match shm.find_key(key) {
            Some(i) => {
                if (IPC_CREAT | IPC_EXCL) == (shmflg & (IPC_CREAT | IPC_EXCL)) {
                    return syscall_error(EEXIST);
                }
                shm.shmkeyidtable[i].1
            },
            None => {
                if shmflg & IPC_CREAT == 0 {
                    return syscall_error(ENOENT);
                }
                if (size as u32) < SHMMIN || (size as u32) > SHMMAX {
                    return syscall_error(EINVAL);
                }
                let shmid = shm.nextid;
                shm.nextid = if shmid == i32::MAX { i32::MIN } else { shmid + 1 };
                shm.put_key(key, shmid);
                let mode = (shmflg & 0x1FF) as u16;
                let seg = ShmSegment {
                    shminfo: ShmidsStruct {
                        shm_perm: IpcPermStruct {
                            key,
                            uid: DEFAULT_UID,
                            gid: DEFAULT_GID,
                            cuid: DEFAULT_UID,
                            cgid: DEFAULT_GID,
                            mode,
                        },
                        shm_segsz: size as u32,
                        shm_cpid: self.cageid as u32,
                        shm_lpid: 0,
                        shm_nattch: 0,
                    },
                    key,
                    size,
                    rmid: false,
                };
                shm.put_seg(shmid, seg);
                assert(shm@ =~= shmget_outcome(old(shm)@, self.cageid, key, size, shmflg).1);
                shmid
            },
        }
    }

    /// Attaches segment `shmid` at `shmaddr`: records the mapping and the attach, and returns
    /// the address, at which the host then maps the segment with `shm_prot(shmflg)`.
    pub fn shmat_syscall(&mut self, shm: &mut ShmMetadata, shmid: i32, shmaddr: u32, shmflg: i32) -> (ret: i32)
        requires
            old(shm).wf(),
        ensures
            final(shm).wf(),
            old(shm)@.segs.contains_key(shmid) ==> {
                &&& ret == shmaddr as i32
                &&& final(shm)@ == attach_one(old(shm)@, shmid, old(self).cageid)
                &&& final(self).rev_shm@ == old(self).rev_shm@.push((shmaddr, shmid))
            },
            !old(shm)@.segs.contains_key(shmid) ==> {
                &&& ret == err(EINVAL)
                &&& final(shm)@ == old(shm)@
                &&& final(self).rev_shm@ == old(self).rev_shm@
            },
            *final(self) == (Cage { rev_shm: final(self).rev_shm, ..*old(self) }),
    {
        match shm.find_seg(shmid) {
            None => syscall_error(EINVAL),
            Some(i) => {
                self.rev_shm.push((shmaddr, shmid));
                let seg = shm.shmtable[i].1;
                let n = if seg.shminfo.shm_nattch < u32::MAX { seg.shminfo.shm_nattch + 1 } else { seg.shminfo.shm_nattch };
                shm.put_seg(shmid, ShmSegment { shminfo: ShmidsStruct { shm_nattch: n, ..seg.shminfo }, ..seg });
                let cnt = match shm.find_attached(shmid, self.cageid) {
                    Some(k) => {
                        let c = shm.attached[k].1;
                        if c < u32::MAX { c + 1 } else { c }
                    },
                    None => 1,
                };
                shm.put_attached(shmid, self.cageid, cnt);
                assert(shm@ =~= attach_one(old(shm)@, shmid, self.cageid));
                shmaddr as i32
            },
        }
    }

    /// Detaches the first mapping at `shmaddr` and returns its segment's id; a segment marked
    /// for removal goes when its last attach does. The host then unmaps the memory.
    pub fn shmdt_syscall(&mut self, shm: &mut ShmMetadata, shmaddr: u32) -> (ret: i32)
        requires
            old(shm).wf(),
            first_at_addr(old(self).rev_shm@, shmaddr) matches Some(i)
                ==> old(shm)@.segs.contains_key(old(self).rev_shm@[i].1),
        ensures
            final(shm).wf(),
            *final(self) == (Cage { rev_shm: final(self).rev_shm, ..*old(self) }),
            ({
                match first_at_addr(old(self).rev_shm@, shmaddr) {
                    None => ret == err(EINVAL) && final(shm)@ == old(shm)@ && final(self).rev_shm@ == old(self).rev_shm@,
                    Some(i) => {
                        let shmid = old(self).rev_shm@[i].1;
                        &&& ret == shmid
                        &&& final(shm)@ == detach_one(old(shm)@, shmid, old(self).cageid)
                        &&& final(self).rev_shm@ == old(self).rev_shm@.update(i, old(self).rev_shm@.last()).drop_last()
                    },
                }
            }),
    {
        match Cage::rev_shm_find_index_by_addr(&self.rev_shm, shmaddr) {
            None => syscall_error(EINVAL),
            Some(index) => {
                let shmid = self.rev_shm[index].1;
                match shm.find_seg(shmid) {
                    None => {
                        proof {
                            assert(false);
                        }
                        syscall_error(EINVAL)
                    },
                    Some(k) => {
                        let seg = shm.shmtable[k].1;
                        let n = if seg.shminfo.shm_nattch > 0 { seg.shminfo.shm_nattch - 1 } else { 0 };
                        shm.put_seg(shmid, ShmSegment { shminfo: ShmidsStruct { shm_nattch: n, ..seg.shminfo }, ..seg });
                        let cnt = match shm.find_attached(shmid, self.cageid) {
                            Some(j) => {
                                let c = shm.attached[j].1;
                                if c > 0 { c - 1 } else { 0 }
                            },
                            None => 0,
                        };
                        if cnt == 0 {
                            shm.del_attached(shmid, self.cageid);
                        } else {
                            shm.put_attached(shmid, self.cageid, cnt);
                        }
                        self.rev_shm.swap_remove(index);
                        if seg.rmid && n == 0 {
                            shm.drop_seg(shmid, seg.key);
                        }
                        assert(shm@ =~= detach_one(old(shm)@, shmid, self.cageid));
                        shmid
                    },
                }
            },
        }
    }

    /// Reads (`IPC_STAT`) or marks for removal (`IPC_RMID`) segment `shmid`; a marked segment
    /// with no attach goes at once.
    pub fn shmctl_syscall(&self, shm: &mut ShmMetadata, shmid: i32, cmd: i32, buf: &mut ShmidsStruct) -> (ret: i32)
        requires
            old(shm).wf(),
        ensures
            final(shm).wf(),
            !old(shm)@.segs.contains_key(shmid) ==> ret == err(EINVAL) && final(shm)@ == old(shm)@ && *final(buf) == *old(buf),
            old(shm)@.segs.contains_key(shmid) ==> ({
                let seg = old(shm)@.segs[shmid];
                if cmd == IPC_STAT {
                    ret == 0 && final(shm)@ == old(shm)@ && *final(buf) == seg.shminfo
                } else if cmd == IPC_RMID {
                    let marked = ShmSegment {
                        rmid: true,
                        shminfo: ShmidsStruct {
                            shm_perm: IpcPermStruct { mode: seg.shminfo.shm_perm.mode | SHM_DEST, ..seg.shminfo.shm_perm },
                            ..seg.shminfo
                        },
                        ..seg
                    };
                    let t = ShmView { segs: old(shm)@.segs.insert(shmid, marked), ..old(shm)@ };
                    &&& ret == 0
                    &&& *final(buf) == *old(buf)
                    &&& final(shm)@ == (if seg.shminfo.shm_nattch == 0 { drop_segment(t, shmid) } else { t })
                } else {
                    ret == err(EINVAL) && final(shm)@ == old(shm)@ && *final(buf) == *old(buf)
                }
            }),
    {
        match shm.find_seg(shmid) {
            None => syscall_error(EINVAL),
            Some(k) => {
                let seg = shm.shmtable[k].1;
                if cmd == IPC_STAT {
                    *buf = seg.shminfo;
                    0
                } else if cmd == IPC_RMID {
                    let marked = ShmSegment {
                        rmid: true,
                        shminfo: ShmidsStruct {
                            shm_perm: IpcPermStruct { mode: seg.shminfo.shm_perm.mode | SHM_DEST, ..seg.shminfo.shm_perm },
                            ..seg.shminfo
                        },
                        ..seg
                    };
                    shm.put_seg(shmid, marked);
                    if seg.shminfo.shm_nattch == 0 {
                        shm.drop_seg(shmid, seg.key);
                    }
                    0
                } else {
                    syscall_error(EINVAL)
                }
            },
        }
    }

    /// Drops every mapping of a cage that goes away.
    pub(crate) fn unmap_shm_mappings(&self, shm: &mut ShmMetadata)
        requires
            old(shm).wf(),
        ensures
            final(shm).wf(),
            final(shm)@ == release_all(old(shm)@, self.rev_shm@, 0, self.cageid),
    {
        let mut i: usize = 0;
        while i < self.rev_shm.len()
            invariant
                shm.wf(),
                i <= self.rev_shm@.len(),
                release_all(old(shm)@, self.rev_shm@, 0, self.cageid) == release_all(shm@, self.rev_shm@, i as int, self.cageid),
            decreases self.rev_shm@.len() - i,
        {
            let shmid = self.rev_shm[i].1;
            shm.release_mapping(shmid, self.cageid);
            i = i + 1;
        }
    }
}

} // verus!
