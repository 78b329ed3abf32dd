//! The file system's metadata: inodes, directory entries and the data of regular files.
use vstd::prelude::*;
use crate::fs_constants::{
    DevNo, ROOTDIRECTORYINODE, STREAMINODE, DEFAULT_UID, DEFAULT_GID, S_IFDIR, S_IRWXA, DEFAULTTIME,
};
use crate::path::{comps_view, bytes_eq, DOT};
use crate::net::SocketHandle;

verus! {

/// The metadata that every kind of inode keeps, as the contracts see it (times left out:
/// no system call here reports them).
#[derive(Clone, Copy)]
pub struct InodeMeta {
    pub size: usize,
    pub uid: u32,
    pub gid: u32,
    pub mode: u32,
    pub linkcount: u32,
    pub refcount: u32,
}

/// Inode of a regular file.
#[derive(Clone, Copy, Debug)]
pub struct GenericInode {
    pub size: usize,
    pub uid: u32,
    pub gid: u32,
    pub mode: u32,
    pub linkcount: u32,
    pub refcount: u32,
    pub atime: u64,
    pub ctime: u64,
    pub mtime: u64,
}

/// Inode of a character device.
#[derive(Clone, Copy, Debug)]
pub struct DeviceInode {
    pub size: usize,
    pub uid: u32,
    pub gid: u32,
    pub mode: u32,
    pub linkcount: u32,
    pub refcount: u32,
    pub atime: u64,
    pub ctime: u64,
    pub mtime: u64,
    pub dev: DevNo,
}

/// Inode of a unix domain socket.
#[derive(Clone, Copy, Debug)]
pub struct SocketInode {
    pub size: usize,
    pub uid: u32,
    pub gid: u32,
    pub mode: u32,
    pub linkcount: u32,
    pub refcount: u32,
    pub atime: u64,
    pub ctime: u64,
    pub mtime: u64,
}

/// One entry of a directory: a file name and the inode it names.
#[derive(Debug)]
pub struct DirEntry {
    pub name: Vec<u8>,
    pub inode: usize,
}

/// Inode of a directory.
#[derive(Debug)]
pub struct DirectoryInode {
    pub size: usize,
    pub uid: u32,
    pub gid: u32,
    pub mode: u32,
    pub linkcount: u32,
    pub refcount: u32,
    pub atime: u64,
    pub ctime: u64,
    pub mtime: u64,
    pub filename_to_inode_dict: Vec<DirEntry>,
}

#[derive(Debug)]
pub enum Inode {
    File(GenericInode),
    CharDev(DeviceInode),
    Socket(SocketInode),
    Dir(DirectoryInode),
}

/// An inode as the contracts see it.
pub enum InodeView {
    File(InodeMeta),
    CharDev(InodeMeta, DevNo),
    Socket(InodeMeta),
    Dir(InodeMeta, Seq<(Seq<u8>, usize)>),
}

impl InodeView {
    pub open spec fn meta(self) -> InodeMeta {
        match self {
            InodeView::File(m) => m,
            InodeView::CharDev(m, _) => m,
            InodeView::Socket(m) => m,
            InodeView::Dir(m, _) => m,
        }
    }

    pub open spec fn is_dir(self) -> bool {
        self is Dir
    }
}

impl GenericInode {
    pub open spec fn meta(self) -> InodeMeta {
        InodeMeta {
            size: self.size,
            uid: self.uid,
            gid: self.gid,
            mode: self.mode,
            linkcount: self.linkcount,
            refcount: self.refcount,
        }
    }
}

impl DeviceInode {
    pub open spec fn meta(self) -> InodeMeta {
        InodeMeta {
            size: self.size,
            uid: self.uid,
            gid: self.gid,
            mode: self.mode,
            linkcount: self.linkcount,
            refcount: self.refcount,
        }
    }
}

impl SocketInode {
    pub open spec fn meta(self) -> InodeMeta {
        InodeMeta {
            size: self.size,
            uid: self.uid,
            gid: self.gid,
            mode: self.mode,
            linkcount: self.linkcount,
            refcount: self.refcount,
        }
    }
}

/// The entries of a directory as pairs of name and inode number.
pub open spec fn entries_view(d: Seq<DirEntry>) -> Seq<(Seq<u8>, usize)> {
    Seq::new(d.len(), |i: int| (d[i].name@, d[i].inode))
}

impl DirectoryInode {
    pub open spec fn meta(self) -> InodeMeta {
        InodeMeta {
            size: self.size,
            uid: self.uid,
            gid: self.gid,
            mode: self.mode,
            linkcount: self.linkcount,
            refcount: self.refcount,
        }
    }

    pub open spec fn entries(self) -> Seq<(Seq<u8>, usize)> {
        entries_view(self.filename_to_inode_dict@)
    }
}

impl View for Inode {
    type V = InodeView;

    open spec fn view(&self) -> InodeView {
        match self {
            Inode::File(f) => InodeView::File(f.meta()),
            Inode::CharDev(d) => InodeView::CharDev(d.meta(), d.dev),
            Inode::Socket(s) => InodeView::Socket(s.meta()),
            Inode::Dir(d) => InodeView::Dir(d.meta(), d.entries()),
        }
    }
}

/// Whether a directory holds an entry named `name`.
pub open spec fn dir_has(entries: Seq<(Seq<u8>, usize)>, name: Seq<u8>) -> bool {
    exists|i: int| 0 <= i < entries.len() && (#[trigger] entries[i]).0 == name
}

/// The inode that the entry `name` of a directory names, if there is one.
pub open spec fn dir_lookup(entries: Seq<(Seq<u8>, usize)>, name: Seq<u8>) -> Option<usize> {
    if dir_has(entries, name) {
        Some(entries[choose|i: int| 0 <= i < entries.len() && (#[trigger] entries[i]).0 == name].1)
    } else {
        None
    }
}

/// No two entries of a directory carry the same name.
pub open spec fn names_unique(entries: Seq<(Seq<u8>, usize)>) -> bool {
    forall|i: int, j: int|
        0 <= i < entries.len() && 0 <= j < entries.len() && i != j ==> (#[trigger] entries[i]).0
            != (#[trigger] entries[j]).0
}

/// The entries after `name` is bound to `ino`: the entry is replaced where it exists, else added.
pub open spec fn dir_insert(entries: Seq<(Seq<u8>, usize)>, name: Seq<u8>, ino: usize) -> Seq<
    (Seq<u8>, usize),
> {
    if dir_has(entries, name) {
        entries.update(
            choose|i: int| 0 <= i < entries.len() && (#[trigger] entries[i]).0 == name,
            (name, ino),
        )
    } else {
        entries.push((name, ino))
    }
}

/// The entries after the one named `name`, if any, is removed.
pub open spec fn dir_remove(entries: Seq<(Seq<u8>, usize)>, name: Seq<u8>) -> Seq<(Seq<u8>, usize)> {
    if dir_has(entries, name) {
        entries.remove(choose|i: int| 0 <= i < entries.len() && (#[trigger] entries[i]).0 == name)
    } else {
        entries
    }
}

/// Looking up after an insert gives the inserted inode for that name and the old answer for
/// every other name.
pub proof fn lemma_dir_insert_lookup(entries: Seq<(Seq<u8>, usize)>, name: Seq<u8>, ino: usize, other: Seq<u8>)
    requires
        names_unique(entries),
    ensures
        names_unique(dir_insert(entries, name, ino)),
        dir_lookup(dir_insert(entries, name, ino), name) == Some(ino),
        other != name ==> dir_lookup(dir_insert(entries, name, ino), other) == dir_lookup(entries, other),
{
    let r = dir_insert(entries, name, ino);
    if dir_has(entries, name) {
        let k = choose|i: int| 0 <= i < entries.len() && (#[trigger] entries[i]).0 == name;
        assert(r[k].0 == name);
        assert(dir_has(r, name));
        if dir_has(r, other) && other != name {
            let j = choose|i: int| 0 <= i < r.len() && (#[trigger] r[i]).0 == other;
            assert(entries[j].0 == other);
        }
        if dir_has(entries, other) && other != name {
            let j = choose|i: int| 0 <= i < entries.len() && (#[trigger] entries[i]).0 == other;
            assert(r[j].0 == other);
        }
    } else {
        let k = entries.len() as int;
        assert(r[k].0 == name);
        assert(dir_has(r, name));
        if dir_has(r, other) && other != name {
            let j = choose|i: int| 0 <= i < r.len() && (#[trigger] r[i]).0 == other;
            assert(entries[j].0 == other);
        }
        if dir_has(entries, other) && other != name {
            let j = choose|i: int| 0 <= i < entries.len() && (#[trigger] entries[i]).0 == other;
            assert(r[j].0 == other);
        }
    }
}

/// After a removal the name is gone and every other name keeps its answer.
pub proof fn lemma_dir_remove_lookup(entries: Seq<(Seq<u8>, usize)>, name: Seq<u8>, other: Seq<u8>)
    requires
        names_unique(entries),
    ensures
        names_unique(dir_remove(entries, name)),
        dir_lookup(dir_remove(entries, name), name) == None::<usize>,
        other != name ==> dir_lookup(dir_remove(entries, name), other) == dir_lookup(entries, other),
        dir_remove(entries, name).len() == if dir_has(entries, name) { entries.len() - 1 } else { entries.len() as int },
{
    let r = dir_remove(entries, name);
    if dir_has(entries, name) {
        let k = choose|i: int| 0 <= i < entries.len() && (#[trigger] entries[i]).0 == name;
        assert forall|i: int, j: int|
            0 <= i < r.len() && 0 <= j < r.len() && i != j implies (#[trigger] r[i]).0 != (#[trigger] r[j]).0 by {
            let i2 = if i < k { i } else { i + 1 };
            let j2 = if j < k { j } else { j + 1 };
            assert(r[i] == entries[i2]);
            assert(r[j] == entries[j2]);
        }
        if dir_has(r, name) {
            let j = choose|i: int| 0 <= i < r.len() && (#[trigger] r[i]).0 == name;
            let j2 = if j < k { j } else { j + 1 };
            assert(r[j] == entries[j2]);
        }
        if dir_has(r, other) && other != name {
            let j = choose|i: int| 0 <= i < r.len() && (#[trigger] r[i]).0 == other;
            let j2 = if j < k { j } else { j + 1 };
            assert(r[j] == entries[j2]);
        }
        if dir_has(entries, other) && other != name {
            let j = choose|i: int| 0 <= i < entries.len() && (#[trigger] entries[i]).0 == other;
            assert(j != k);
            let j2 = if j < k { j } else { j - 1 };
            assert(r[j2] == entries[j]);
        }
    }
}

/// Finds the index of the entry named `name`.
pub fn find_entry(entries: &Vec<DirEntry>, name: &[u8]) -> (r: Option<usize>)
    ensures
        match r {
            Some(i) => i < entries@.len() && entries@[i as int].name@ == name@,
            None => !dir_has(entries_view(entries@), name@),
        },
{
    let mut i: usize = 0;
    while i < entries.len()
        invariant
            i <= entries@.len(),
            forall|j: int| 0 <= j < i ==> (#[trigger] entries@[j]).name@ != name@,
        decreases entries@.len() - i,
    {
        if bytes_eq(entries[i].name.as_slice(), name) {
            return Some(i);
        }
        i = i + 1;
    }
    proof {
        let ev = entries_view(entries@);
        if dir_has(ev, name@) {
            let j = choose|k: int| 0 <= k < ev.len() && (#[trigger] ev[k]).0 == name@;
            assert(entries@[j].name@ == name@);
        }
    }
    None
}

/// The index found by a search is the one the contracts choose.
pub proof fn lemma_found_is_chosen(entries: Seq<(Seq<u8>, usize)>, name: Seq<u8>, i: int)
    requires
        names_unique(entries),
        0 <= i < entries.len(),
        entries[i].0 == name,
    ensures
        dir_has(entries, name),
        (choose|k: int| 0 <= k < entries.len() && (#[trigger] entries[k]).0 == name) == i,
        dir_lookup(entries, name) == Some(entries[i].1),
{
    assert(dir_has(entries, name));
}

/// Capacity in bytes of a pipe.
pub const PIPE_CAPACITY: usize = 65536;

/// An advisory lock shared by the duplicates of an open file description: 0 when free,
/// the number of shared holders when positive, -1 when held exclusively.
#[derive(Clone, Copy, Debug)]
pub struct AdvisoryLock {
    pub state: i32,
}

/// A pipe: the bytes written and not yet read, and how many read and write ends are open.
#[derive(Debug)]
pub struct EmulatedPipe {
    pub buffer: Vec<u8>,
    pub refcount_read: u32,
    pub refcount_write: u32,
}

/// A pipe as the contracts see it.
#[verifier::ext_equal]
pub struct PipeView {
    pub buffer: Seq<u8>,
    pub refcount_read: u32,
    pub refcount_write: u32,
}

impl View for EmulatedPipe {
    type V = PipeView;

    open spec fn view(&self) -> PipeView {
        PipeView {
            buffer: self.buffer@,
            refcount_read: self.refcount_read,
            refcount_write: self.refcount_write,
        }
    }
}

/// The global metadata of the file system, including the bytes of every regular file,
/// the pipes and the advisory locks of open file descriptions.
pub struct FilesystemMetadata {
    pub nextinode: usize,
    pub dev_id: u64,
    pub inodetable: Vec<Option<Inode>>,
    pub filecontents: Vec<Vec<u8>>,
    pub pipes: Vec<EmulatedPipe>,
    pub advlocks: Vec<AdvisoryLock>,
    pub stream_output: Vec<u8>,
    pub sockets: Vec<SocketHandle>,
    pub peeks: Vec<Vec<u8>>,
}

/// The file system as the contracts see it.
#[verifier::ext_equal]
pub struct FsView {
    pub dev_id: u64,
    pub inodes: Seq<Option<InodeView>>,
    pub contents: Seq<Seq<u8>>,
    pub pipes: Seq<PipeView>,
    pub locks: Seq<AdvisoryLock>,
    pub output: Seq<u8>,
    pub sockets: Seq<SocketHandle>,
    pub peeks: Seq<Seq<u8>>,
}

pub open spec fn opt_inode_view(o: Option<Inode>) -> Option<InodeView> {
    match o {
        Some(i) => Some(i@),
        None => None,
    }
}

impl View for FilesystemMetadata {
    type V = FsView;

    open spec fn view(&self) -> FsView {
        FsView {
            dev_id: self.dev_id,
            inodes: Seq::new(self.inodetable@.len(), |i: int| opt_inode_view(self.inodetable@[i])),
            contents: Seq::new(self.filecontents@.len(), |i: int| self.filecontents@[i]@),
            pipes: Seq::new(self.pipes@.len(), |i: int| self.pipes@[i]@),
            locks: self.advlocks@,
            output: self.stream_output@,
            sockets: self.sockets@,
            peeks: Seq::new(self.peeks@.len(), |i: int| self.peeks@[i]@),
        }
    }
}

/// An inode fits its data slot: a regular file is as long as its data, and a directory
/// has unique names.
pub open spec fn fits(iv: Option<InodeView>, data: Seq<u8>) -> bool {
    match iv {
        Some(InodeView::File(m)) => m.size == data.len(),
        Some(InodeView::Dir(_, e)) => names_unique(e),
        _ => true,
    }
}

/// A socket with unix information is a bound unix socket, and the pipes of its connection
/// exist.
pub open spec fn socket_pipes_ok(h: SocketHandle, npipes: nat) -> bool {
    match h.unix_info {
        Some(ui) => {
            &&& h.domain == crate::net::AF_UNIX
            &&& h.localaddr is Some
            &&& (ui.sendpipe matches Some(p) ==> p < npipes)
            &&& (ui.receivepipe matches Some(p) ==> p < npipes)
        },
        None => true,
    }
}

/// `x + 1`, staying at the maximum.
pub open spec fn sat_inc(x: u32) -> u32 {
    if x < u32::MAX {
        (x + 1) as u32
    } else {
        x
    }
}

/// `x - 1`, staying at zero.
pub open spec fn sat_dec(x: u32) -> u32 {
    if x > 0 {
        (x - 1) as u32
    } else {
        x
    }
}

impl FsView {
    /// Whether inode `n` exists.
    pub open spec fn has(self, n: int) -> bool {
        0 <= n < self.inodes.len() && self.inodes[n] is Some
    }

    /// Inode `n` (meaningful where it exists).
    pub open spec fn get(self, n: int) -> InodeView {
        self.inodes[n]->Some_0
    }

    /// Internal consistency: one data slot per inode number, and every inode fits its slot.
    pub open spec fn wf(self) -> bool {
        &&& self.contents.len() == self.inodes.len()
        &&& forall|n: int| 0 <= n < self.inodes.len() ==> fits(#[trigger] self.inodes[n], self.contents[n])
        &&& forall|i: int| 0 <= i < self.pipes.len() ==> (#[trigger] self.pipes[i]).buffer.len() <= PIPE_CAPACITY
        &&& forall|i: int| 0 <= i < self.sockets.len() ==> socket_pipes_ok(#[trigger] self.sockets[i], self.pipes.len())
    }

    /// The same file system with inode `n` replaced.
    pub open spec fn set(self, n: int, iv: InodeView) -> FsView {
        FsView { inodes: self.inodes.update(n, Some(iv)), ..self }
    }
}

/// Walks the normalized components `comps` from the root directory: the inode named by the
/// path and the directory that holds it. A missing or non-directory component on the way
/// gives `(None, None)`; the root has no parent.
pub open spec fn spec_walk(fs: FsView, comps: Seq<Seq<u8>>) -> (Option<usize>, Option<usize>)
    decreases comps.len(),
{
    if comps.len() == 0 {
        if fs.has(ROOTDIRECTORYINODE as int) {
            (Some(ROOTDIRECTORYINODE), None)
        } else {
            (None, None)
        }
    } else {
        match spec_walk(fs, comps.drop_last()).0 {
            None => (None, None),
            Some(n) => if fs.has(n as int) {
                match fs.get(n as int) {
                    InodeView::Dir(_, e) => (dir_lookup(e, comps.last()), Some(n)),
                    _ => (None, None),
                }
            } else {
                (None, None)
            },
        }
    }
}

/// The access, change and modification times of an inode slot, where it holds an inode.
pub open spec fn inode_times(slot: Option<Inode>) -> Option<(u64, u64, u64)> {
    match slot {
        Some(Inode::File(f)) => Some((f.atime, f.ctime, f.mtime)),
        Some(Inode::CharDev(d)) => Some((d.atime, d.ctime, d.mtime)),
        Some(Inode::Socket(k)) => Some((k.atime, k.ctime, k.mtime)),
        Some(Inode::Dir(d)) => Some((d.atime, d.ctime, d.mtime)),
        None => None,
    }
}

impl FilesystemMetadata {
    /// The access, change and modification times of inode slot `n`, where it holds an
    /// inode.
    pub open spec fn times(&self, n: int) -> Option<(u64, u64, u64)> {
        inode_times(self.inodetable@[n])
    }

    pub open spec fn wf(&self) -> bool {
        &&& self@.wf()
        &&& self.nextinode == self.inodetable@.len()
        &&& self.filecontents@.len() == self.inodetable@.len()
    }

    /// A fresh file system with an empty root directory.
    pub fn blank_fs_init() -> (fs: FilesystemMetadata)
        ensures
            fs.wf(),
            fs@.dev_id == 20,
            fs@.pipes.len() == 0,
            fs@.locks.len() == 0,
            fs@.output.len() == 0,
            fs@.sockets.len() == 0,
            fs@.inodes.len() == STREAMINODE + 1,
            forall|n: int| 0 <= n < fs@.inodes.len() && n != ROOTDIRECTORYINODE ==> fs@.inodes[n] is None,
            fs@.inodes[ROOTDIRECTORYINODE as int] == Some(
                InodeView::Dir(
                    InodeMeta {
                        size: 0,
                        uid: DEFAULT_UID,
                        gid: DEFAULT_GID,
                        mode: (S_IFDIR as u32) | S_IRWXA,
                        linkcount: 3,
                        refcount: 0,
                    },
                    seq![(seq![DOT], ROOTDIRECTORYINODE), (seq![DOT, DOT], ROOTDIRECTORYINODE)],
                ),
            ),
    {
        let mut inodetable: Vec<Option<Inode>> = Vec::new();
        inodetable.push(None);
        let mut dict: Vec<DirEntry> = Vec::new();
        let mut dot: Vec<u8> = Vec::new();
        dot.push(DOT);
        let mut dotdot: Vec<u8> = Vec::new();
        dotdot.push(DOT);
        dotdot.push(DOT);
        assert(dot@ =~= seq![DOT]);
        assert(dotdot@ =~= seq![DOT, DOT]);
        dict.push(DirEntry { name: dot, inode: ROOTDIRECTORYINODE });
        dict.push(DirEntry { name: dotdot, inode: ROOTDIRECTORYINODE });
        let root = DirectoryInode {
            size: 0,
            uid: DEFAULT_UID,
            gid: DEFAULT_GID,
            mode: (S_IFDIR as u32) | S_IRWXA,
            linkcount: 3,
            refcount: 0,
            atime: DEFAULTTIME,
            ctime: DEFAULTTIME,
            mtime: DEFAULTTIME,
            filename_to_inode_dict: dict,
        };
        inodetable.push(Some(Inode::Dir(root)));
        inodetable.push(None);
        let mut filecontents: Vec<Vec<u8>> = Vec::new();
        filecontents.push(Vec::new());
        filecontents.push(Vec::new());
        filecontents.push(Vec::new());
        let fs = FilesystemMetadata {
            nextinode: 3,
            dev_id: 20,
            inodetable,
            filecontents,
            pipes: Vec::new(),
            advlocks: Vec::new(),
            stream_output: Vec::new(),
            sockets: Vec::new(),
            peeks: Vec::new(),
        };
        proof {
            let e = seq![(seq![DOT], ROOTDIRECTORYINODE), (seq![DOT, DOT], ROOTDIRECTORYINODE)];
            match fs.inodetable@[1].unwrap() {
                Inode::Dir(d) => {
                    assert(d.entries() =~= e);
                },
                _ => {},
            }
            assert(e[0].0 != e[1].0) by {
                assert(e[0].0.len() != e[1].0.len());
            }
        }
        fs
    }

    /// Walks a normalized path from the root: the inode it names and its parent directory.
    pub fn metawalkandparent(&self, comps: &Vec<Vec<u8>>) -> (r: (Option<usize>, Option<usize>))
        requires
            self.wf(),
        ensures
            r == spec_walk(self@, comps_view(comps@)),
    {
        let ghost cv = comps_view(comps@);
        let mut cur: Option<usize> = if ROOTDIRECTORYINODE < self.inodetable.len()
            && self.inodetable[ROOTDIRECTORYINODE].is_some() {
            Some(ROOTDIRECTORYINODE)
        } else {
            None
        };
        let mut par: Option<usize> = None;
        let mut i: usize = 0;
        assert(cv.subrange(0, 0) =~= Seq::<Seq<u8>>::empty());
        while i < comps.len()
            invariant
                i <= comps@.len(),
                cv == comps_view(comps@),
                self.wf(),
                (cur, par) == spec_walk(self@, cv.subrange(0, i as int)),
            decreases comps@.len() - i,
        {
            assert(cv.subrange(0, i + 1).drop_last() =~= cv.subrange(0, i as int));
            assert(cv.subrange(0, i + 1).last() == comps@[i as int]@);
            match cur {
                None => {
                    par = None;
                },
                Some(n) => {
                    if n < self.inodetable.len() {
                        match &self.inodetable[n] {
                            Some(Inode::Dir(d)) => {
                                let found = find_entry(&d.filename_to_inode_dict, comps[i].as_slice());
                                par = Some(n);
                                match found {
                                    Some(k) => {
                                        proof {
                                            assert(self@.inodes[n as int] == opt_inode_view(self.inodetable@[n as int]));
                                            assert(self@.wf());
                                        }
                                        cur = Some(d.filename_to_inode_dict[k].inode);
                                        proof {
                                            assert(self@.inodes[n as int] matches Some(InodeView::Dir(_, e)) && names_unique(e));
                                            lemma_found_is_chosen(d.entries(), comps@[i as int]@, k as int);
                                        }
                                    },
                                    None => {
                                        cur = None;
                                    },
                                }
                            },
                            _ => {
                                cur = None;
                                par = None;
                            },
                        }
                    } else {
                        cur = None;
                        par = None;
                    }
                },
            }
            i = i + 1;
        }
        assert(cv.subrange(0, comps@.len() as int) =~= cv);
        (cur, par)
    }
}


impl FilesystemMetadata {
    /// Adds a new inode under the next inode number, with empty data.
    pub fn alloc_inode(&mut self, node: Inode) -> (n: usize)
        requires
            old(self).wf(),
            fits(Some(node@), Seq::empty()),
        ensures
            n == old(self)@.inodes.len(),
            final(self).wf(),
            final(self).inodetable@ == old(self).inodetable@.push(Some(node)),
            final(self)@ == (FsView {
                inodes: old(self)@.inodes.push(Some(node@)),
                contents: old(self)@.contents.push(Seq::empty()),
                ..old(self)@
            }),
    {
        let n = self.inodetable.len();
        let ghost iv = node@;
        self.inodetable.push(Some(node));
        self.filecontents.push(Vec::new());
        self.nextinode = self.inodetable.len();
        proof {
            let nv = self@;
            let ov = old(self)@;
            assert(nv.inodes =~= ov.inodes.push(Some(iv)));
            assert(nv.contents =~= ov.contents.push(Seq::empty()));
            assert(nv.pipes =~= ov.pipes);
            assert forall|k: int| 0 <= k < nv.inodes.len() implies fits(#[trigger] nv.inodes[k], nv.contents[k]) by {
                if k < ov.inodes.len() {
                    assert(nv.inodes[k] == ov.inodes[k]);
                    assert(ov.inodes[k] == ov.inodes[k] && fits(ov.inodes[k], ov.contents[k]));
                }
            }
        }
        n
    }

    /// Takes inode `n` out of the table, leaving the slot empty.
    pub fn take_inode(&mut self, n: usize) -> (r: Option<Inode>)
        requires
            old(self).wf(),
            n < old(self)@.inodes.len(),
        ensures
            opt_inode_view(r) == old(self)@.inodes[n as int],
            r == old(self).inodetable@[n as int],
            final(self).wf(),
            final(self).inodetable@ == old(self).inodetable@.update(n as int, None),
            final(self)@ == (FsView { inodes: old(self)@.inodes.update(n as int, None), ..old(self)@ }),
    {
        let mut tmp: Option<Inode> = None;
        self.inodetable.set_and_swap(n, &mut tmp);
        proof {
            let nv = self@;
            let ov = old(self)@;
            assert(nv.inodes =~= ov.inodes.update(n as int, None));
            assert(nv.contents =~= ov.contents);
            assert(nv.pipes =~= ov.pipes);
            assert forall|k: int| 0 <= k < nv.inodes.len() implies fits(#[trigger] nv.inodes[k], nv.contents[k]) by {
                if k != n {
                    assert(nv.inodes[k] == ov.inodes[k]);
                    assert(fits(ov.inodes[k], ov.contents[k]));
                }
            }
        }
        tmp
    }

    /// Puts an inode (or nothing) into slot `n`.
    pub fn put_inode(&mut self, n: usize, node: Option<Inode>)
        requires
            old(self).wf(),
            n < old(self)@.inodes.len(),
            fits(opt_inode_view(node), old(self)@.contents[n as int]),
        ensures
            final(self).wf(),
            final(self).inodetable@ == old(self).inodetable@.update(n as int, node),
            final(self)@ == (FsView {
                inodes: old(self)@.inodes.update(n as int, opt_inode_view(node)),
                ..old(self)@
            }),
    {
        let ghost iv = opt_inode_view(node);
        self.inodetable.set(n, node);
        proof {
            let nv = self@;
            let ov = old(self)@;
            assert(nv.inodes =~= ov.inodes.update(n as int, iv));
            assert(nv.contents =~= ov.contents);
            assert(nv.pipes =~= ov.pipes);
            assert forall|k: int| 0 <= k < nv.inodes.len() implies fits(#[trigger] nv.inodes[k], nv.contents[k]) by {
                if k != n {
                    assert(nv.inodes[k] == ov.inodes[k]);
                    assert(fits(ov.inodes[k], ov.contents[k]));
                }
            }
        }
    }

    /// Replaces the data of slot `n`.
    pub fn set_contents(&mut self, n: usize, data: Vec<u8>)
        requires
            old(self).wf(),
            n < old(self)@.inodes.len(),
            fits(old(self)@.inodes[n as int], data@),
        ensures
            final(self).wf(),
            final(self).inodetable == old(self).inodetable,
            final(self)@ == (FsView { contents: old(self)@.contents.update(n as int, data@), ..old(self)@ }),
    {
        let ghost d = data@;
        self.filecontents.set(n, data);
        proof {
            let nv = self@;
            let ov = old(self)@;
            assert(nv.inodes =~= ov.inodes);
            assert(nv.contents =~= ov.contents.update(n as int, d));
            assert(nv.pipes =~= ov.pipes);
            assert forall|k: int| 0 <= k < nv.inodes.len() implies fits(#[trigger] nv.inodes[k], nv.contents[k]) by {
                if k != n {
                    assert(nv.contents[k] == ov.contents[k]);
                    assert(fits(ov.inodes[k], ov.contents[k]));
                }
            }
        }
    }

    /// Appends bytes written to the standard output or error stream.
    pub fn append_output(&mut self, bytes: &[u8])
        requires
            old(self).wf(),
        ensures
            final(self).wf(),
            final(self)@ == (FsView { output: old(self)@.output + bytes@, ..old(self)@ }),
    {
        let ghost v0 = self@;
        let mut k: usize = 0;
        while k < bytes.len()
            invariant
                k <= bytes@.len(),
                self.wf(),
                self@ == (FsView { output: v0.output + bytes@.subrange(0, k as int), ..v0 }),
            decreases bytes@.len() - k,
        {
            let ghost before = self@;
            self.stream_output.push(bytes[k]);
            proof {
                assert(self@.inodes =~= before.inodes);
                assert(self@.contents =~= before.contents);
                assert(self@.pipes =~= before.pipes);
                assert(self@.sockets =~= before.sockets);
                assert(bytes@.subrange(0, k + 1) =~= bytes@.subrange(0, k as int).push(bytes@[k as int]));
                assert(self@ =~= FsView { output: v0.output + bytes@.subrange(0, k + 1), ..v0 });
            }
            k = k + 1;
        }
        assert(bytes@.subrange(0, bytes@.len() as int) =~= bytes@);
    }

    /// Replaces socket handle `i`.
    pub fn set_socket(&mut self, i: usize, h: SocketHandle)
        requires
            old(self).wf(),
            i < old(self)@.sockets.len(),
            socket_pipes_ok(h, old(self)@.pipes.len()),
        ensures
            final(self).wf(),
            final(self).inodetable == old(self).inodetable,
            final(self)@ == (FsView { sockets: old(self)@.sockets.update(i as int, h), ..old(self)@ }),
    {
        let ghost v0 = self@;
        self.sockets.set(i, h);
        proof {
            assert(self@.inodes =~= v0.inodes);
            assert(self@.contents =~= v0.contents);
            assert(self@.pipes =~= v0.pipes);
            assert(self@ =~= FsView { sockets: v0.sockets.update(i as int, h), ..v0 });
            assert forall|k: int| 0 <= k < self@.sockets.len() implies socket_pipes_ok(#[trigger] self@.sockets[k], self@.pipes.len()) by {
                if k != i {
                    assert(self@.sockets[k] == v0.sockets[k]);
                }
            }
        }
    }

    /// Adds a socket handle and gives its index.
    pub fn new_socket(&mut self, h: SocketHandle) -> (i: usize)
        requires
            old(self).wf(),
            socket_pipes_ok(h, old(self)@.pipes.len()),
        ensures
            i == old(self)@.sockets.len(),
            final(self).wf(),
            final(self)@ == (FsView { sockets: old(self)@.sockets.push(h), ..old(self)@ }),
    {
        let ghost v0 = self@;
        let i = self.sockets.len();
        self.sockets.push(h);
        proof {
            assert(self@.inodes =~= v0.inodes);
            assert(self@.contents =~= v0.contents);
            assert(self@.pipes =~= v0.pipes);
            assert(self@ =~= FsView { sockets: v0.sockets.push(h), ..v0 });
            assert forall|k: int| 0 <= k < self@.sockets.len() implies socket_pipes_ok(#[trigger] self@.sockets[k], self@.pipes.len()) by {
                if k < v0.sockets.len() {
                    assert(self@.sockets[k] == v0.sockets[k]);
                }
            }
        }
        i
    }

    /// Replaces advisory lock `i`.
    pub fn set_advlock(&mut self, i: usize, l: AdvisoryLock)
        requires
            old(self).wf(),
            i < old(self)@.locks.len(),
        ensures
            final(self).wf(),
            final(self)@ == (FsView { locks: old(self)@.locks.update(i as int, l), ..old(self)@ }),
    {
        let ghost v0 = self@;
        self.advlocks.set(i, l);
        proof {
            assert(self@.inodes =~= v0.inodes);
            assert(self@.contents =~= v0.contents);
            assert(self@.pipes =~= v0.pipes);
            assert(self@ =~= FsView { locks: v0.locks.update(i as int, l), ..v0 });
        }
    }

    /// Adds a free advisory lock and gives its index.
    pub fn new_advlock(&mut self) -> (l: usize)
        requires
            old(self).wf(),
        ensures
            l == old(self)@.locks.len(),
            final(self).wf(),
            final(self).inodetable == old(self).inodetable,
            final(self)@ == (FsView { locks: old(self)@.locks.push(AdvisoryLock { state: 0 }), ..old(self)@ }),
    {
        let l = self.advlocks.len();
        self.advlocks.push(AdvisoryLock { state: 0 });
        proof {
            let nv = self@;
            let ov = old(self)@;
            assert(nv.inodes =~= ov.inodes);
            assert(nv.contents =~= ov.contents);
            assert(nv.pipes =~= ov.pipes);
            assert(nv.locks =~= ov.locks.push(AdvisoryLock { state: 0 }));
        }
        l
    }
}

/// The bytes a socket handle holds back after a peek (none where it never peeked).
pub open spec fn peek_of(fs: FsView, i: int) -> Seq<u8> {
    if 0 <= i < fs.peeks.len() { fs.peeks[i] } else { Seq::empty() }
}

/// The peek buffers with buffer `i` replaced, adding empty ones up to it where needed.
pub open spec fn peeks_set(p: Seq<Seq<u8>>, i: int, b: Seq<u8>) -> Seq<Seq<u8>> {
    if i < p.len() {
        p.update(i, b)
    } else {
        (p + Seq::new((i - p.len()) as nat, |k: int| Seq::<u8>::empty())).push(b)
    }
}

impl FilesystemMetadata {
    /// A copy of the peek buffer of socket handle `i`.
    pub fn get_peek(&self, i: usize) -> (r: Vec<u8>)
        ensures
            r@ == peek_of(self@, i as int),
    {
        if i < self.peeks.len() {
            vstd::slice::slice_to_vec(self.peeks[i].as_slice())
        } else {
            Vec::new()
        }
    }

    /// Replaces the peek buffer of socket handle `i`.
    pub fn set_peek(&mut self, i: usize, b: Vec<u8>)
        requires
            old(self).wf(),
        ensures
            final(self).wf(),
            final(self)@ == (FsView { peeks: peeks_set(old(self)@.peeks, i as int, b@), ..old(self)@ }),
            peek_of(final(self)@, i as int) == b@,
    {
        let ghost v0 = self@;
        let ghost bv = b@;
        while self.peeks.len() <= i
            invariant
                self@.peeks.len() <= i + 1 || self@.peeks.len() == v0.peeks.len(),
                self@.peeks == v0.peeks + Seq::new((self@.peeks.len() - v0.peeks.len()) as nat, |k: int| Seq::<u8>::empty()),
                self@.peeks.len() >= v0.peeks.len(),
                self@ == (FsView { peeks: self@.peeks, ..v0 }),
                self.wf(),
                b@ == bv,
            decreases i + 1 - self@.peeks.len(),
        {
            let ghost before = self@.peeks;
            let ghost bv0 = self@;
            self.peeks.push(Vec::new());
            proof {
                assert(self@.inodes == bv0.inodes && self@.contents == bv0.contents);
                assert(self@.pipes == bv0.pipes && self@.sockets == bv0.sockets);
                assert(self@.peeks =~= before.push(Seq::<u8>::empty()));
                assert(self@.peeks =~= v0.peeks + Seq::new((self@.peeks.len() - v0.peeks.len()) as nat, |k: int| Seq::<u8>::empty()));
                assert(self@ =~= FsView { peeks: self@.peeks, ..v0 });
                assert(self@.wf());
            }
        }
        let ghost mid = self@.peeks;
        let ghost mv = self@;
        let mut b2 = b;
        self.peeks.set_and_swap(i, &mut b2);
        proof {
            assert(self@.inodes == mv.inodes && self@.contents == mv.contents);
            assert(self@.pipes == mv.pipes && self@.sockets == mv.sockets);
            assert(self@.peeks =~= mid.update(i as int, bv));
            if i < v0.peeks.len() {
                assert(mid =~= v0.peeks);
            } else {
                assert(mid =~= (v0.peeks + Seq::new((i - v0.peeks.len()) as nat, |k: int| Seq::<u8>::empty())).push(Seq::<u8>::empty()));
                assert(mid.update(i as int, bv) =~= (v0.peeks + Seq::new((i - v0.peeks.len()) as nat, |k: int| Seq::<u8>::empty())).push(bv));
            }
            assert(self@ =~= FsView { peeks: peeks_set(v0.peeks, i as int, bv), ..v0 });
            assert(self@.wf());
        }
    }
}

/// Inserts or replaces the entry `name` of a directory.
pub fn dir_insert_exec(entries: &mut Vec<DirEntry>, name: Vec<u8>, ino: usize)
    requires
        names_unique(entries_view(old(entries)@)),
    ensures
        entries_view(final(entries)@) == dir_insert(entries_view(old(entries)@), name@, ino),
{
    let ghost ev = entries_view(entries@);
    let found = find_entry(entries, name.as_slice());
    let ghost nm = name@;
    match found {
        Some(i) => {
            proof {
                lemma_found_is_chosen(ev, nm, i as int);
            }
            entries.set(i, DirEntry { name, inode: ino });
            assert(entries_view(entries@) =~= ev.update(i as int, (nm, ino)));
        },
        None => {
            entries.push(DirEntry { name, inode: ino });
            assert(entries_view(entries@) =~= ev.push((nm, ino)));
        },
    }
}

/// Removes the entry `name` of a directory, if there is one.
pub fn dir_remove_exec(entries: &mut Vec<DirEntry>, name: &[u8])
    requires
        names_unique(entries_view(old(entries)@)),
    ensures
        entries_view(final(entries)@) == dir_remove(entries_view(old(entries)@), name@),
{
    let ghost ev = entries_view(entries@);
    let found = find_entry(entries, name);
    match found {
        Some(i) => {
            proof {
                lemma_found_is_chosen(ev, name@, i as int);
            }
            entries.remove(i);
            assert(entries_view(entries@) =~= ev.remove(i as int));
        },
        None => {
        },
    }
}

/// std's `SystemTime::elapsed` on `UNIX_EPOCH`: how long ago the epoch was by the host
/// clock, or `None` where the clock reads before it. The result depends on the time, so
/// nothing is promised of it.
#[verifier::external_body]
fn since_epoch() -> Option<std::time::Duration> {
    std::time::UNIX_EPOCH.elapsed().ok()
}

/// std's `Duration::as_secs`: the whole seconds of `d`. A `Duration` is opaque here, so
/// nothing is promised of the result.
#[verifier::external_body]
fn whole_secs(d: std::time::Duration) -> u64 {
    d.as_secs()
}

/// The current time in whole seconds since the epoch, or 0 where the host clock reads before
/// it.
pub(crate) fn timestamp() -> (t: u64) {
    match since_epoch() {
        Some(d) => whole_secs(d),
        None => 0,
    }
}

} // verus!
