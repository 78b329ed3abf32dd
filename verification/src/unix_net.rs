//! Unix domain sockets: binding to a path in the file system, and the table of bound paths
//! and pending connections that `connect`, `accept` and `socketpair` use.
use vstd::prelude::*;
use crate::errno::{err, syscall_error, EADDRINUSE, EBADF, EINVAL, ENFILE, ENOENT, ENOTDIR, ENOTSOCK, EOPNOTSUPP};
use crate::assoc::{assoc_map, keys_unique, lemma_assoc_at, lemma_assoc_absent, lemma_assoc_update, lemma_assoc_push, lemma_assoc_remove};
use crate::cage::{Cage, FileDescriptor, SocketDesc, same_but_fds, desc_ok, lemma_refs_ok_update, seq_lowest_free};
use crate::pipe::new_pipe_view;
use crate::process::{hold_socket_inode, hold_socket_inode_exec};
use crate::filesystem::{
    FilesystemMetadata, FsView, Inode, InodeView, InodeMeta, SocketInode, fits, spec_walk, dir_lookup, names_unique, lemma_dir_insert_lookup, socket_pipes_ok, timestamp,
};
use crate::fs_calls::{link_in_dir, link_into_dir, made_now};
use crate::fs_constants::{MAXFD, ROOTDIRECTORYINODE, DEFAULT_UID, DEFAULT_GID, S_IFSOCK, S_FILETYPEFLAGS, S_IRWXA, O_NONBLOCK, O_CLOEXEC};
use crate::net::{GenSockaddr, SocketHandle, UnixSocketInfo, ConnState, AF_UNIX, AF_INET, AF_INET6, SOCK_STREAM, SOCK_NONBLOCK, SOCK_CLOEXEC, IPPROTO_TCP};
use crate::net_calls::{sock_of, with_socket, socket_flags, new_handle, install_socket, DEFAULT_SNDBUF, DEFAULT_RCVBUF};
use crate::path::{comps_view, normpath, path_to_bytes, path_text, spec_normpath, bytes_eq};

verus! {

/// A connection waiting to be accepted: the connecting socket's address and the pipes of the
/// connection, named from the accepting side.
#[derive(Clone, Copy, Debug)]
pub struct DomsockTableEntry {
    pub sockaddr: GenSockaddr,
    pub receive_pipe: usize,
    pub send_pipe: usize,
    pub waiting: bool,
}

/// The paths unix sockets are bound to, the pending connection of each listening path, and
/// the number of the next generated socket path.
pub struct NetMetadata {
    pub domsock_paths: Vec<Vec<u8>>,
    pub domsock_accept_table: Vec<(Vec<u8>, DomsockTableEntry)>,
    pub next_ud_id: u64,
}

/// Whether one of the first `n` paths of `v` is `q`.
pub open spec fn listed(v: Seq<Vec<u8>>, n: int, q: Seq<u8>) -> bool {
    exists|j: int| 0 <= j < n && #[trigger] v[j]@ == q
}

/// The accept table with its keys seen as byte sequences.
pub open spec fn keyed_view(t: Seq<(Vec<u8>, DomsockTableEntry)>) -> Seq<(Seq<u8>, DomsockTableEntry)> {
    Seq::new(t.len(), |i: int| (t[i].0@, t[i].1))
}

/// The shared unix socket tables as sets and maps.
#[verifier::ext_equal]
pub struct NetView {
    pub paths: Set<Seq<u8>>,
    pub pending: Map<Seq<u8>, DomsockTableEntry>,
    pub next_ud_id: u64,
}

impl View for NetMetadata {
    type V = NetView;

    open spec fn view(&self) -> NetView {
        NetView {
            paths: Set::new(|p: Seq<u8>| exists|i: int| 0 <= i < self.domsock_paths@.len() && #[trigger] self.domsock_paths@[i]@ == p),
            pending: assoc_map(keyed_view(self.domsock_accept_table@)),
            next_ud_id: self.next_ud_id,
        }
    }
}

/// The decimal digits of `n`.
pub open spec fn decimal(n: nat) -> Seq<u8>
    decreases n,
{
    if n < 10 {
        seq![(48 + n) as u8]
    } else {
        decimal(n / 10) + seq![(48 + n % 10) as u8]
    }
}

/// The path generated for the `id`-th socket that needs one: `/sock` and the number.
pub open spec fn ud_path(id: u64) -> Seq<u8> {
    seq![47u8, 115u8, 111u8, 99u8, 107u8] + decimal(id as nat)
}

/// The path bytes of a unix socket address: those before the first zero byte.
pub open spec fn sun_path(a: GenSockaddr) -> Seq<u8> {
    if exists|i: int| 0 <= i < 108 && a.path@[i] == 0 {
        a.path@.take(choose|i: int| 0 <= i < 108 && a.path@[i] == 0 && forall|j: int| 0 <= j < i ==> a.path@[j] != 0)
    } else {
        a.path@
    }
}

/// Whether `a` is the unix address `new_sockaddr_unix` makes for `path`.
pub open spec fn is_unix_addr(a: GenSockaddr, family: u16, path: Seq<u8>) -> bool {
    &&& a.family == family
    &&& a.port == 0
    &&& a.addr@ == Seq::new(16, |i: int| 0u8)
    &&& a.path@ == path + Seq::new((108 - path.len()) as nat, |i: int| 0u8)
}

/// The mode of a socket bound in a directory of mode `dirmode`.
pub open spec fn socket_mode(dirmode: u32) -> u32 {
    (S_IFSOCK as u32) | ((dirmode | (S_FILETYPEFLAGS as u32)) & S_IRWXA)
}

/// What binding the unix socket of handle `h` to `addr` returns and leaves behind. Only a
/// bind that succeeds gives the handle the address; a refused one changes nothing.
pub open spec fn bind_unix_outcome(fs: FsView, net: NetView, cwd: Seq<Seq<u8>>, hi: int, addr: GenSockaddr) -> (int, FsView, NetView) {
    let h = fs.sockets[hi];
    let path = sun_path(addr);
    if path.len() == 0 {
        (err(ENOENT), fs, net)
    } else {
        let comps = spec_normpath(cwd, path);
        match spec_walk(fs, comps) {
            (None, None) => (err(ENOENT), fs, net),
            (Some(_), _) => (err(EADDRINUSE), fs, net),
            (None, Some(p)) => match fs.get(p as int) {
                InodeView::Dir(m, _) => {
                    let n = fs.inodes.len() as usize;
                    let sock = InodeView::Socket(InodeMeta {
                        size: 0,
                        uid: DEFAULT_UID,
                        gid: DEFAULT_GID,
                        mode: socket_mode(m.mode),
                        linkcount: 1,
                        refcount: 1,
                    });
                    let fs1 = FsView { inodes: fs.inodes.push(Some(sock)), contents: fs.contents.push(Seq::empty()), ..fs };
                    let fs2 = link_in_dir(fs1, p as int, comps.last(), n);
                    let ui = UnixSocketInfo { mode: S_IFSOCK | 0o666, sendpipe: None, receivepipe: None, inode: n };
                    (
                        0,
                        with_socket(fs2, hi, SocketHandle { localaddr: Some(addr), unix_info: Some(ui), ..h }),
                        NetView { paths: net.paths.insert(path_text(comps)), ..net },
                    )
                },
                _ => (err(ENOTDIR), fs, net),
            },
        }
    }
}

/// What `bind` returns and leaves behind for the socket at `fd` (where it is not the host's
/// work).
pub open spec fn bind_outcome(fs: FsView, net: NetView, cwd: Seq<Seq<u8>>, d: Option<FileDescriptor>, addr: GenSockaddr) -> (int, FsView, NetView) {
    match sock_of(fs, d) {
        None => (if d is None { err(EBADF) } else { err(ENOTSOCK) }, fs, net),
        Some((hi, h)) => if addr.family != h.domain as u16 {
            (err(EINVAL), fs, net)
        } else if h.localaddr is Some {
            (err(EINVAL), fs, net)
        } else if h.domain == AF_UNIX {
            bind_unix_outcome(fs, net, cwd, hi, addr)
        } else {
            (err(EINVAL), fs, net)
        },
    }
}

/// Writes the decimal digits of `n`.
fn decimal_exec(n: u64) -> (r: Vec<u8>)
    ensures
        r@ == decimal(n as nat),
    decreases n,
{
    if n < 10 {
        let mut v: Vec<u8> = Vec::new();
        v.push(48 + n as u8);
        assert(v@ =~= decimal(n as nat));
        v
    } else {
        let mut v = decimal_exec(n / 10);
        v.push(48 + (n % 10) as u8);
        assert(v@ =~= decimal(n as nat));
        v
    }
}

/// The path bytes of a unix socket address.
pub fn sun_path_exec(a: &GenSockaddr) -> (r: Vec<u8>)
    ensures
        r@ == sun_path(*a),
{
    let mut i: usize = 0;
    while i < 108
        invariant
            i <= 108,
            forall|j: int| 0 <= j < i ==> a.path@[j] != 0,
        decreases 108 - i,
    {
        if a.path[i] == 0 {
            proof {
                let c = choose|k: int| 0 <= k < 108 && a.path@[k] == 0 && forall|j: int| 0 <= j < k ==> a.path@[j] != 0;
                assert(a.path@[i as int] == 0);
                if c < i {
                    assert(a.path@[c] != 0);
                }
                if i < c {
                    assert(a.path@[i as int] != 0);
                }
            }
            let r = vstd::slice::slice_to_vec(a.path.as_slice().split_at(i).0);
            assert(r@ =~= a.path@.take(i as int));
            return r;
        }
        i = i + 1;
    }
    proof {
        if exists|k: int| 0 <= k < 108 && a.path@[k] == 0 {
            let k = choose|k: int| 0 <= k < 108 && a.path@[k] == 0;
            assert(a.path@[k] != 0);
        }
    }
    vstd::slice::slice_to_vec(a.path.as_slice())
}

/// The unix socket address of `path` (at most 108 bytes).
pub fn new_sockaddr_unix(family: u16, path: &Vec<u8>) -> (a: GenSockaddr)
    requires
        path@.len() <= 108,
    ensures
        is_unix_addr(a, family, path@),
{
    let mut p = [0u8; 108];
    let mut i: usize = 0;
    while i < path.len()
        invariant
            i <= path@.len() <= 108,
            forall|j: int| 0 <= j < i ==> p@[j] == path@[j],
            forall|j: int| i <= j < 108 ==> p@[j] == 0,
        decreases path@.len() - i,
    {
        p[i] = path[i];
        i = i + 1;
    }
    let a = GenSockaddr { family, port: 0, addr: [0u8; 16], path: p };
    assert(a.addr@ =~= Seq::new(16, |i: int| 0u8));
    assert(a.path@ =~= path@ + Seq::new((108 - path@.len()) as nat, |i: int| 0u8));
    a
}

impl NetMetadata {
    /// No pending connection twice for one path.
    pub open spec fn wf(&self) -> bool {
        keys_unique(keyed_view(self.domsock_accept_table@))
    }

    /// Empty tables.
    pub fn new() -> (r: NetMetadata)
        ensures
            r.wf(),
            r@.paths == Set::<Seq<u8>>::empty(),
            r@.pending == Map::<Seq<u8>, DomsockTableEntry>::empty(),
            r@.next_ud_id == 0,
    {
        let r = NetMetadata { domsock_paths: Vec::new(), domsock_accept_table: Vec::new(), next_ud_id: 0 };
        assert(r@.paths =~= Set::<Seq<u8>>::empty());
        assert(keyed_view(r.domsock_accept_table@) =~= Seq::<(Seq<u8>, DomsockTableEntry)>::empty());
        assert(r@.pending =~= Map::<Seq<u8>, DomsockTableEntry>::empty());
        r
    }

    /// Generates the next socket path.
    pub fn gen_ud_path(&mut self) -> (r: Vec<u8>)
        ensures
            r@ == ud_path(old(self).next_ud_id),
            final(self).domsock_paths == old(self).domsock_paths,
            final(self).domsock_accept_table == old(self).domsock_accept_table,
            final(self).next_ud_id == (if old(self).next_ud_id == u64::MAX { 0 } else { old(self).next_ud_id + 1 }),
    {
        let id = self.next_ud_id;
        self.next_ud_id = if id == u64::MAX { 0 } else { id + 1 };
        ud_path_exec(id)
    }

    /// Whether `path` is a bound socket path.
    pub fn has_path(&self, path: &Vec<u8>) -> (r: bool)
        ensures
            r == self@.paths.contains(path@),
    {
        let mut i: usize = 0;
        while i < self.domsock_paths.len()
            invariant
                i <= self.domsock_paths@.len(),
                forall|j: int| 0 <= j < i ==> self.domsock_paths@[j]@ != path@,
            decreases self.domsock_paths@.len() - i,
        {
            if bytes_eq(self.domsock_paths[i].as_slice(), path.as_slice()) {
                assert(self.domsock_paths@[i as int]@ == path@);
                return true;
            }
            i = i + 1;
        }
        false
    }

    /// Records `path` as bound.
    pub fn add_path(&mut self, path: Vec<u8>)
        requires
            old(self).wf(),
        ensures
            final(self).wf(),
            final(self)@ == (NetView { paths: old(self)@.paths.insert(path@), ..old(self)@ }),
    {
        let ghost v0 = self@;
        if !self.has_path(&path) {
            let ghost p = path@;
            self.domsock_paths.push(path);
            proof {
                assert(self.domsock_paths@[self.domsock_paths@.len() - 1]@ == p);
                assert forall|q: Seq<u8>| #[trigger] self@.paths.contains(q) == v0.paths.insert(p).contains(q) by {
                    if self@.paths.contains(q) && q != p {
                        let j = choose|j: int| 0 <= j < self.domsock_paths@.len() && #[trigger] self.domsock_paths@[j]@ == q;
                        assert(old(self).domsock_paths@[j]@ == q);
                    }
                    if v0.paths.contains(q) {
                        let j = choose|j: int| 0 <= j < old(self).domsock_paths@.len() && #[trigger] old(self).domsock_paths@[j]@ == q;
                        assert(self.domsock_paths@[j]@ == q);
                    }
                }
            }
        }
        assert(self@ =~= NetView { paths: v0.paths.insert(path@), ..v0 });
    }
}

impl NetMetadata {
    /// Records that no socket is bound to `path` any more.
    pub fn remove_path(&mut self, path: &Vec<u8>)
        requires
            old(self).wf(),
        ensures
            final(self).wf(),
            final(self)@ == (NetView { paths: old(self)@.paths.remove(path@), ..old(self)@ }),
    {
        let ghost v0 = self@;
        let mut kept: Vec<Vec<u8>> = Vec::new();
        let mut i: usize = 0;
        while i < self.domsock_paths.len()
            invariant
                i <= self.domsock_paths@.len(),
                self.domsock_paths@ == old(self).domsock_paths@,
                forall|j: int| 0 <= j < kept@.len() ==> (#[trigger] kept@[j])@ != path@,
                forall|q: Seq<u8>|
                    #![trigger listed(kept@, kept@.len() as int, q)]
                    #![trigger listed(self.domsock_paths@, i as int, q)]
                    q != path@ ==> (listed(kept@, kept@.len() as int, q) <==> listed(self.domsock_paths@, i as int, q)),
            decreases self.domsock_paths@.len() - i,
        {
            let ghost k0 = kept@;
            let ghost d = self.domsock_paths@;
            if !bytes_eq(self.domsock_paths[i].as_slice(), path.as_slice()) {
                kept.push(vstd::slice::slice_to_vec(self.domsock_paths[i].as_slice()));
                proof {
                    assert forall|q: Seq<u8>| q != path@ implies (listed(kept@, kept@.len() as int, q) <==> listed(d, i + 1, q)) by {
                        if listed(kept@, kept@.len() as int, q) {
                            let j = choose|j: int| 0 <= j < kept@.len() && #[trigger] kept@[j]@ == q;
                            if j < k0.len() {
                                assert(k0[j]@ == q);
                                assert(listed(k0, k0.len() as int, q));
                            } else {
                                assert(d[i as int]@ == q);
                            }
                        }
                        if listed(d, i + 1, q) {
                            let j = choose|j: int| 0 <= j < i + 1 && #[trigger] d[j]@ == q;
                            if j < i {
                                assert(listed(d, i as int, q));
                                let jj = choose|jj: int| 0 <= jj < k0.len() && #[trigger] k0[jj]@ == q;
                                assert(kept@[jj]@ == q);
                            } else {
                                assert(kept@[k0.len() as int]@ == q);
                            }
                        }
                    }
                }
            } else {
                proof {
                    assert forall|q: Seq<u8>| q != path@ implies (listed(kept@, kept@.len() as int, q) <==> listed(d, i + 1, q)) by {
                        if listed(d, i + 1, q) {
                            let j = choose|j: int| 0 <= j < i + 1 && #[trigger] d[j]@ == q;
                            if j == i {
                                assert(d[i as int]@ == path@);
                            } else {
                                assert(listed(d, i as int, q));
                            }
                        }
                        if listed(d, i as int, q) {
                            let j = choose|j: int| 0 <= j < i && #[trigger] d[j]@ == q;
                            assert(listed(d, i + 1, q));
                        }
                    }
                }
            }
            i = i + 1;
        }
        self.domsock_paths = kept;
        proof {
            assert forall|q: Seq<u8>| #[trigger] self@.paths.contains(q) == v0.paths.remove(path@).contains(q) by {
                if q == path@ {
                    if self@.paths.contains(q) {
                        let j = choose|j: int| 0 <= j < self.domsock_paths@.len() && #[trigger] self.domsock_paths@[j]@ == q;
                        assert(self.domsock_paths@[j]@ != path@);
                    }
                } else {
                    if self@.paths.contains(q) {
                        let j = choose|j: int| 0 <= j < self.domsock_paths@.len() && #[trigger] self.domsock_paths@[j]@ == q;
                        assert(listed(self.domsock_paths@, self.domsock_paths@.len() as int, q));
                    }
                    if v0.paths.contains(q) {
                        let j = choose|j: int| 0 <= j < old(self).domsock_paths@.len() && #[trigger] old(self).domsock_paths@[j]@ == q;
                        assert(listed(old(self).domsock_paths@, old(self).domsock_paths@.len() as int, q));
                    }
                }
            }
        }
        assert(self@ =~= NetView { paths: v0.paths.remove(path@), ..v0 });
    }

    /// The index of the pending connection for `key`.
    fn find_pending(&self, key: &Vec<u8>) -> (r: Option<usize>)
        ensures
            match r {
                Some(i) => i < self.domsock_accept_table@.len() && keyed_view(self.domsock_accept_table@)[i as int].0 == key@,
                None => forall|j: int| 0 <= j < self.domsock_accept_table@.len() ==> #[trigger] keyed_view(self.domsock_accept_table@)[j].0 != key@,
            },
    {
        let mut i: usize = 0;
        while i < self.domsock_accept_table.len()
            invariant
                i <= self.domsock_accept_table@.len(),
                forall|j: int| 0 <= j < i ==> #[trigger] keyed_view(self.domsock_accept_table@)[j].0 != key@,
            decreases self.domsock_accept_table@.len() - i,
        {
            if bytes_eq(self.domsock_accept_table[i].0.as_slice(), key.as_slice()) {
                return Some(i);
            }
            i = i + 1;
        }
        None
    }

    /// The connection waiting on the path `key`, if any.
    pub fn get_pending(&self, key: &Vec<u8>) -> (r: Option<DomsockTableEntry>)
        requires
            self.wf(),
        ensures
            match r {
                Some(e) => self@.pending.contains_key(key@) && self@.pending[key@] == e,
                None => !self@.pending.contains_key(key@),
            },
    {
        match self.find_pending(key) {
            Some(i) => {
                proof {
                    lemma_assoc_at(keyed_view(self.domsock_accept_table@), i as int);
                }
                Some(self.domsock_accept_table[i].1)
            },
            None => {
                proof {
                    lemma_assoc_absent(keyed_view(self.domsock_accept_table@), key@);
                }
                None
            },
        }
    }

    /// Records `e` as the connection waiting on the path `key`, in place of any earlier one.
    pub fn set_pending(&mut self, key: Vec<u8>, e: DomsockTableEntry)
        requires
            old(self).wf(),
        ensures
            final(self).wf(),
            final(self)@ == (NetView { pending: old(self)@.pending.insert(key@, e), ..old(self)@ }),
    {
        let ghost t0 = self.domsock_accept_table@;
        let ghost k = key@;
        match self.find_pending(&key) {
            Some(i) => {
                proof {
                    lemma_assoc_update(keyed_view(t0), i as int, e);
                }
                let kk = vstd::slice::slice_to_vec(self.domsock_accept_table[i].0.as_slice());
                self.domsock_accept_table.set(i, (kk, e));
                proof {
                    assert(keyed_view(self.domsock_accept_table@) =~= keyed_view(t0).update(i as int, (keyed_view(t0)[i as int].0, e)));
                }
            },
            None => {
                proof {
                    lemma_assoc_absent(keyed_view(t0), k);
                    lemma_assoc_push(keyed_view(t0), k, e);
                }
                self.domsock_accept_table.push((key, e));
                proof {
                    assert(keyed_view(self.domsock_accept_table@) =~= keyed_view(t0).push((k, e)));
                }
            },
        }
        assert(self@ =~= NetView { pending: old(self)@.pending.insert(k, e), ..old(self)@ });
    }

    /// Drops the connection waiting on the path `key`, if any.
    pub fn remove_pending(&mut self, key: &Vec<u8>)
        requires
            old(self).wf(),
        ensures
            final(self).wf(),
            final(self)@ == (NetView { pending: old(self)@.pending.remove(key@), ..old(self)@ }),
    {
        let ghost t0 = self.domsock_accept_table@;
        match self.find_pending(key) {
            Some(i) => {
                proof {
                    lemma_assoc_remove(keyed_view(t0), i as int);
                }
                self.domsock_accept_table.remove(i);
                proof {
                    assert(keyed_view(self.domsock_accept_table@) =~= keyed_view(t0).remove(i as int));
                }
            },
            None => {
                proof {
                    lemma_assoc_absent(keyed_view(t0), key@);
                    assert(old(self)@.pending.remove(key@) =~= old(self)@.pending);
                }
            },
        }
        assert(self@ =~= NetView { pending: old(self)@.pending.remove(key@), ..old(self)@ });
    }
}

impl Cage {
    /// Binds the unix socket of handle `hi` to `addr`.
    pub(crate) fn bind_inner_socket_unix(&self, fs: &mut FilesystemMetadata, net: &mut NetMetadata, hi: usize, addr: &GenSockaddr) -> (ret: i32)
        requires
            self.inv(old(fs)),
            old(net).wf(),
            hi < old(fs)@.sockets.len(),
            old(fs)@.sockets[hi as int].domain == AF_UNIX,
        ensures
            self.inv(final(fs)),
            final(net).wf(),
            ({
                let o = bind_unix_outcome(old(fs)@, old(net)@, self.cwd_view(), hi as int, *addr);
                ret == o.0 && final(fs)@ == o.1 && final(net)@ == o.2
            }),
            ret == 0 ==> made_now(old(fs), final(fs),
                spec_walk(old(fs)@, spec_normpath(self.cwd_view(), sun_path(*addr))).1->Some_0 as int,
                old(fs)@.inodes.len() as int),
    {
        let ghost fs0 = *fs;
        let h = fs.sockets[hi];
        proof {
            assert(socket_pipes_ok(fs@.sockets[hi as int], fs@.pipes.len()));
        }
        let path = sun_path_exec(addr);
        if path.len() == 0 {
            return syscall_error(ENOENT);
        }
        let truepath = normpath(&self.cwd, path.as_slice());
        match fs.metawalkandparent(&truepath) {
            (None, None) => syscall_error(ENOENT),
            (Some(_), _) => syscall_error(EADDRINUSE),
            (None, Some(p)) => {
                let dirmode = match &fs.inodetable[p] {
                    Some(Inode::Dir(d)) => d.mode,
                    _ => {
                        return syscall_error(ENOTDIR);
                    },
                };
                let ghost fsv = fs@;
                let last = truepath.len() - 1;
                let filename = vstd::slice::slice_to_vec(truepath[last].as_slice());
                let time = timestamp();
                let node = Inode::Socket(SocketInode {
                    size: 0,
                    uid: DEFAULT_UID,
                    gid: DEFAULT_GID,
                    mode: (S_IFSOCK as u32) | ((dirmode | (S_FILETYPEFLAGS as u32)) & S_IRWXA),
                    linkcount: 1,
                    refcount: 1,
                    atime: time,
                    ctime: time,
                    mtime: time,
                });
                let n = fs.alloc_inode(node);
                let ok = link_into_dir(fs, p, filename, n, Some(time));
                proof {
                    if !ok {
                        assert(fsv.inodes[p as int] == FsView { inodes: fsv.inodes.push(Some(node@)), contents: fsv.contents.push(Seq::empty()), ..fsv }.inodes[p as int]);
                        assert(false);
                    }
                }
                let ui = UnixSocketInfo { mode: S_IFSOCK | 0o666, sendpipe: None, receivepipe: None, inode: n };
                fs.set_socket(hi, SocketHandle { localaddr: Some(*addr), unix_info: Some(ui), ..h });
                let text = path_to_bytes(&truepath);
                net.add_path(text);
                proof {
                    lemma_refs_ok_update(self, self, &fs0, fs, 0, self.fd(0));
                }
                0
            },
        }
    }

    /// Binds the socket at `fd` to `localaddr`. A unix socket gets a socket file at the
    /// address's path; binding an inet socket is the host's (see `bind_inner_socket_inet`).
    pub fn bind_syscall(&self, fs: &mut FilesystemMetadata, net: &mut NetMetadata, fd: i32, localaddr: &GenSockaddr) -> (ret: i32)
        requires
            self.inv(old(fs)),
            old(net).wf(),
            0 <= fd < MAXFD,
            !crate::inet::bind_is_host(old(fs)@, self.fd(fd as int), *localaddr),
        ensures
            self.inv(final(fs)),
            final(net).wf(),
            ({
                let o = bind_outcome(old(fs)@, old(net)@, self.cwd_view(), self.fd(fd as int), *localaddr);
                ret == o.0 && final(fs)@ == o.1 && final(net)@ == o.2
            }),
            ret == 0 ==> made_now(old(fs), final(fs),
                spec_walk(old(fs)@, spec_normpath(self.cwd_view(), sun_path(*localaddr))).1->Some_0 as int,
                old(fs)@.inodes.len() as int),
    {
        self.bind_inner(fs, net, fd, localaddr, false)
    }

    /// Binds the socket at `fd` to `localaddr`; `prereserved` concerns inet ports only.
    pub fn bind_inner(&self, fs: &mut FilesystemMetadata, net: &mut NetMetadata, fd: i32, localaddr: &GenSockaddr, prereserved: bool) -> (ret: i32)
        requires
            self.inv(old(fs)),
            old(net).wf(),
            0 <= fd < MAXFD,
            !crate::inet::bind_is_host(old(fs)@, self.fd(fd as int), *localaddr),
        ensures
            self.inv(final(fs)),
            final(net).wf(),
            ({
                let o = bind_outcome(old(fs)@, old(net)@, self.cwd_view(), self.fd(fd as int), *localaddr);
                ret == o.0 && final(fs)@ == o.1 && final(net)@ == o.2
            }),
            ret == 0 ==> made_now(old(fs), final(fs),
                spec_walk(old(fs)@, spec_normpath(self.cwd_view(), sun_path(*localaddr))).1->Some_0 as int,
                old(fs)@.inodes.len() as int),
    {
        match self.get_fd(fd) {
            None => syscall_error(EBADF),
            Some(FileDescriptor::Socket(s)) => {
                proof {
                    assert(desc_ok(self.fd(fd as int), fs@.locks.len(), fs@.pipes.len(), fs@.sockets.len(), self.epoll_table@.len()));
                }
                let h = fs.sockets[s.handle];
                if localaddr.family != h.domain as u16 {
                    return syscall_error(EINVAL);
                }
                if h.localaddr.is_some() {
                    return syscall_error(EINVAL);
                }
                if h.domain == AF_UNIX {
                    self.bind_inner_socket_unix(fs, net, s.handle, localaddr)
                } else {
                    syscall_error(EINVAL)
                }
            },
            Some(_) => syscall_error(ENOTSOCK),
        }
    }
}


/// The socket numbers `socketpair` gives: the first and the second socket.
#[derive(Clone, Copy, Debug)]
pub struct SockPair {
    pub sock1: i32,
    pub sock2: i32,
}

/// The id generated after `x`, wrapping around.
pub open spec fn next_ud(x: u64) -> u64 {
    if x == u64::MAX { 0 } else { (x + 1) as u64 }
}

/// The unix address of `path`.
pub open spec fn unix_addr(family: u16, path: Seq<u8>) -> GenSockaddr {
    choose|a: GenSockaddr| is_unix_addr(a, family, path)
}

/// `10` to the power `k`.
pub open spec fn pow10(k: nat) -> nat
    decreases k,
{
    if k == 0 { 1 } else { 10 * pow10((k - 1) as nat) }
}

proof fn lemma_decimal_len(n: nat, k: nat)
    requires
        k >= 1,
        n < pow10(k),
    ensures
        decimal(n).len() <= k,
    decreases k,
{
    if n >= 10 {
        assert(k >= 2) by {
            if k == 1 {
                assert(pow10(1) == 10 * pow10(0));
            }
        }
        let p = pow10((k - 1) as nat);
        assert(pow10(k) == 10 * p);
        assert(n / 10 < p) by (nonlinear_arith)
            requires
                n < 10 * p,
        ;
        lemma_decimal_len(n / 10, (k - 1) as nat);
    }
}

pub(crate) proof fn lemma_ud_path_short(id: u64)
    ensures
        ud_path(id).len() <= 25,
{
    reveal_with_fuel(pow10, 21);
    assert(pow10(20) == 100000000000000000000nat);
    lemma_decimal_len(id as nat, 20);
}

pub(crate) proof fn lemma_unix_addr_unique(a: GenSockaddr, family: u16, path: Seq<u8>)
    requires
        is_unix_addr(a, family, path),
    ensures
        a == unix_addr(family, path),
{
    let b = unix_addr(family, path);
    assert(is_unix_addr(b, family, path));
    assert(a.addr =~= b.addr);
    assert(a.path =~= b.path);
}

/// A socket handle connected to `peer` through the pipes `send` and `recv` (a handle without
/// unix information gets no pipes).
pub open spec fn pair_up(h: SocketHandle, peer: GenSockaddr, send: usize, recv: usize) -> SocketHandle {
    SocketHandle {
        remoteaddr: Some(peer),
        unix_info: match h.unix_info {
            Some(ui) => Some(UnixSocketInfo { sendpipe: Some(send), receivepipe: Some(recv), ..ui }),
            None => None,
        },
        state: ConnState::CONNECTED,
        ..h
    }
}

/// The socket inode of a unix handle held once more.
pub open spec fn hold_unix_inode(fs: FsView, h: SocketHandle) -> FsView {
    match h.unix_info {
        Some(ui) => hold_socket_inode(fs, ui.inode as int),
        None => fs,
    }
}

/// Whether both sockets a `socketpair` makes can be bound to their generated paths (a path
/// that names a file already, or a missing root, leaves a socket without its file).
pub open spec fn socketpair_binds_ok(fs0: FsView, net0: NetView, cwd: Seq<Seq<u8>>, fds0: Seq<Option<FileDescriptor>>, socktype: i32) -> bool {
    let flags = socket_flags(socktype);
    let h = new_handle(AF_UNIX, socktype, IPPROTO_TCP, flags);
    let o1 = install_socket(fs0, fds0, seq_lowest_free(fds0, 0), h, flags);
    let o2 = install_socket(o1.1, o1.2, seq_lowest_free(o1.2, 0), h, flags);
    let i1 = fs0.sockets.len() as int;
    let id1 = net0.next_ud_id;
    let id2 = next_ud(id1);
    let b1 = bind_unix_outcome(o2.1, NetView { next_ud_id: next_ud(id2), ..net0 }, cwd, i1, unix_addr(AF_UNIX as u16, ud_path(id1)));
    let b2 = bind_unix_outcome(b1.1, b1.2, cwd, i1 + 1, unix_addr(AF_UNIX as u16, ud_path(id2)));
    b1.0 == 0 && b2.0 == 0
}

/// Whether the descriptor table has two free descriptors.
#[verifier::opaque]
pub open spec fn two_free(fds: Seq<Option<FileDescriptor>>) -> bool {
    exists|a: int, b: int| 0 <= a < b < MAXFD && #[trigger] fds[a] is None && #[trigger] fds[b] is None
}

/// A table in which only `f` may be free has no two free descriptors.
proof fn lemma_no_pair(fds: Seq<Option<FileDescriptor>>, f: int)
    requires
        forall|g: int| 0 <= g < MAXFD && g != f ==> #[trigger] fds[g] is Some,
    ensures
        !two_free(fds),
{
    reveal(two_free);
    if two_free(fds) {
        let (a, b) = choose|a: int, b: int| 0 <= a < b < MAXFD && #[trigger] fds[a] is None && #[trigger] fds[b] is None;
        if a != f {
            assert(fds[a] is Some);
        } else {
            assert(fds[b] is Some);
        }
    }
}

/// Two free descriptors make two free descriptors.
proof fn lemma_pair_free(fds: Seq<Option<FileDescriptor>>, a: int, b: int)
    requires
        0 <= a < b < MAXFD,
        fds[a] is None,
        fds[b] is None,
    ensures
        two_free(fds),
{
    reveal(two_free);
    assert(fds[a] is None && fds[b] is None);
}

/// Once the lowest free descriptor `f1` is taken, the lowest free one is `f2`, the lowest
/// free one above `f1`.
proof fn lemma_next_lowest_free(fds0: Seq<Option<FileDescriptor>>, f1: i32, f2: i32, d: FileDescriptor)
    requires
        fds0.len() == MAXFD,
        0 <= f1 < f2 < MAXFD,
        fds0[f1 as int] is None,
        fds0[f2 as int] is None,
        forall|g: int| 0 <= g < f1 ==> #[trigger] fds0[g] is Some,
        forall|g: int| f1 < g < f2 ==> #[trigger] fds0[g] is Some,
    ensures
        seq_lowest_free(fds0, 0) == Some(f1),
        seq_lowest_free(fds0.update(f1 as int, Some(d)), 0) == Some(f2),
{
    let c0 = choose|h: int| 0 <= h < MAXFD && #[trigger] fds0[h] is None && forall|g: int| 0 <= g < h ==> fds0[g] is Some;
    assert(fds0[f1 as int] is None);
    if c0 < f1 {
        assert(fds0[c0] is Some);
    }
    if f1 < c0 {
        assert(fds0[f1 as int] is Some);
    }
    assert(c0 == f1);
    let u = fds0.update(f1 as int, Some(d));
    assert(u[f2 as int] is None);
    let c = choose|h: int| 0 <= h < MAXFD && #[trigger] u[h] is None && forall|g: int| 0 <= g < h ==> u[g] is Some;
    assert forall|g: int| 0 <= g < f2 implies u[g] is Some by {
        if g != f1 {
            assert(u[g] == fds0[g]);
        }
    }
    if c < f2 {
        assert(u[c] is Some);
    }
    if f2 < c {
        assert(u[f2 as int] is Some);
    }
    assert(c == f2);
}

/// A single-component path whose walk ends in the root directory without finding the name.
pub open spec fn free_in_root(fs: FsView, c: Seq<Seq<u8>>) -> bool {
    &&& c.len() == 1
    &&& spec_walk(fs, c) == (None::<usize>, Some(ROOTDIRECTORYINODE))
    &&& fs.get(ROOTDIRECTORYINODE as int) is Dir
}

/// Walking a single-component path reads only the root directory.
proof fn lemma_walk_one(fs: FsView, c: Seq<Seq<u8>>)
    requires
        c.len() == 1,
    ensures
        spec_walk(fs, c) == (if !fs.has(ROOTDIRECTORYINODE as int) {
            (None, None)
        } else {
            match fs.get(ROOTDIRECTORYINODE as int) {
                InodeView::Dir(_, e) => (dir_lookup(e, c[0]), Some(ROOTDIRECTORYINODE)),
                _ => (None, None),
            }
        }),
{
    assert(c.drop_last() =~= Seq::<Seq<u8>>::empty());
    assert(c.last() == c[0]);
    assert(spec_walk(fs, Seq::<Seq<u8>>::empty()) == (if fs.has(ROOTDIRECTORYINODE as int) {
        (Some(ROOTDIRECTORYINODE), None::<usize>)
    } else {
        (None, None)
    }));
}

/// Where both generated paths name different free places in the root directory, both binds
/// of `socketpair` succeed.
proof fn lemma_socketpair_binds(fs0: FsView, net0: NetView, cwd: Seq<Seq<u8>>, fds0: Seq<Option<FileDescriptor>>, socktype: i32)
    requires
        fs0.wf(),
        ({
            let id1 = net0.next_ud_id;
            let id2 = next_ud(id1);
            let c1 = spec_normpath(cwd, sun_path(unix_addr(AF_UNIX as u16, ud_path(id1))));
            let c2 = spec_normpath(cwd, sun_path(unix_addr(AF_UNIX as u16, ud_path(id2))));
            &&& sun_path(unix_addr(AF_UNIX as u16, ud_path(id1))).len() > 0
            &&& sun_path(unix_addr(AF_UNIX as u16, ud_path(id2))).len() > 0
            &&& free_in_root(fs0, c1)
            &&& free_in_root(fs0, c2)
            &&& c1[0] != c2[0]
        }),
    ensures
        socketpair_binds_ok(fs0, net0, cwd, fds0, socktype),
{
    let flags = socket_flags(socktype);
    let h = new_handle(AF_UNIX, socktype, IPPROTO_TCP, flags);
    let o1 = install_socket(fs0, fds0, seq_lowest_free(fds0, 0), h, flags);
    let o2 = install_socket(o1.1, o1.2, seq_lowest_free(o1.2, 0), h, flags);
    let i1 = fs0.sockets.len() as int;
    let id1 = net0.next_ud_id;
    let id2 = next_ud(id1);
    let a1 = unix_addr(AF_UNIX as u16, ud_path(id1));
    let a2 = unix_addr(AF_UNIX as u16, ud_path(id2));
    let c1 = spec_normpath(cwd, sun_path(a1));
    let c2 = spec_normpath(cwd, sun_path(a2));
    let g = o2.1;
    assert(g.inodes == fs0.inodes);
    lemma_walk_one(fs0, c1);
    lemma_walk_one(fs0, c2);
    lemma_walk_one(g, c1);
    lemma_walk_one(g, c2);
    let b1 = bind_unix_outcome(g, NetView { next_ud_id: next_ud(id2), ..net0 }, cwd, i1, a1);
    assert(b1.0 == 0);
    let e = match fs0.get(ROOTDIRECTORYINODE as int) {
        InodeView::Dir(_, e) => e,
        _ => Seq::empty(),
    };
    assert(fits(fs0.inodes[ROOTDIRECTORYINODE as int], fs0.contents[ROOTDIRECTORYINODE as int]));
    assert(names_unique(e));
    lemma_dir_insert_lookup(e, c1.last(), g.inodes.len() as usize, c2[0]);
    assert(c1.last() == c1[0]);
    lemma_walk_one(b1.1, c2);
}

/// The socket path generated for `id`.
pub fn ud_path_exec(id: u64) -> (r: Vec<u8>)
    ensures
        r@ == ud_path(id),
{
    let mut r: Vec<u8> = Vec::new();
    r.push(47u8);
    r.push(115u8);
    r.push(111u8);
    r.push(99u8);
    r.push(107u8);
    let mut d = decimal_exec(id);
    r.append(&mut d);
    assert(r@ =~= ud_path(id));
    r
}

/// Whether `c` is one name that the root directory does not hold, as `free_in_root` says.
fn root_free(fs: &FilesystemMetadata, c: &Vec<Vec<u8>>) -> (r: bool)
    requires
        fs.wf(),
    ensures
        r == free_in_root(fs@, comps_view(c@)),
{
    if c.len() != 1 {
        return false;
    }
    match fs.metawalkandparent(c) {
        (None, Some(p)) => {
            if p != ROOTDIRECTORYINODE || p >= fs.inodetable.len() {
                return false;
            }
            match &fs.inodetable[p] {
                Some(Inode::Dir(_)) => true,
                _ => false,
            }
        },
        _ => false,
    }
}

impl Cage {
    /// Whether the two socket paths that a `socketpair` now would generate are single names
    /// that the root directory does not hold, and differ; then both binds of `socketpair`
    /// succeed, and it may be called. (The generated paths have that form.)
    pub fn socketpair_paths_free(&self, fs: &FilesystemMetadata, net: &NetMetadata) -> (r: bool)
        requires
            self.inv(fs),
        ensures
            r ==> forall|socktype: i32| #[trigger] socketpair_binds_ok(fs@, net@, self.cwd_view(), self.filedescriptortable@, socktype),
    {
        let id1 = net.next_ud_id;
        let id2 = if id1 == u64::MAX { 0 } else { id1 + 1 };
        let path1 = ud_path_exec(id1);
        let path2 = ud_path_exec(id2);
        proof {
            lemma_ud_path_short(id1);
            lemma_ud_path_short(id2);
        }
        let a1 = new_sockaddr_unix(AF_UNIX as u16, &path1);
        let a2 = new_sockaddr_unix(AF_UNIX as u16, &path2);
        proof {
            lemma_unix_addr_unique(a1, AF_UNIX as u16, path1@);
            lemma_unix_addr_unique(a2, AF_UNIX as u16, path2@);
        }
        let s1 = sun_path_exec(&a1);
        let s2 = sun_path_exec(&a2);
        if s1.len() == 0 || s2.len() == 0 {
            return false;
        }
        let c1 = normpath(&self.cwd, s1.as_slice());
        let c2 = normpath(&self.cwd, s2.as_slice());
        if c1.len() != 1 || c2.len() != 1 {
            return false;
        }
        if bytes_eq(c1[0].as_slice(), c2[0].as_slice()) {
            return false;
        }
        if !root_free(fs, &c1) || !root_free(fs, &c2) {
            return false;
        }
        proof {
            assert(comps_view(c1@)[0] == c1@[0]@);
            assert(comps_view(c2@)[0] == c2@[0]@);
            assert forall|socktype: i32| #[trigger] socketpair_binds_ok(fs@, net@, self.cwd_view(), self.filedescriptortable@, socktype) by {
                lemma_socketpair_binds(fs@, net@, self.cwd_view(), self.filedescriptortable@, socktype);
            }
        }
        true
    }
}

/// What a successful `socketpair` does: two new unix stream sockets at the lowest free
/// descriptors, bound to generated paths, connected to each other by two new pipes, each
/// socket file held once more. Gives the file system, the unix socket tables, the
/// descriptor table and the two descriptor numbers (or `ENFILE` for one that found none).
pub open spec fn socketpair_outcome(fs0: FsView, net0: NetView, cwd: Seq<Seq<u8>>, fds0: Seq<Option<FileDescriptor>>, socktype: i32)
    -> (FsView, NetView, Seq<Option<FileDescriptor>>, int, int)
{
    let flags = socket_flags(socktype);
    let h = new_handle(AF_UNIX, socktype, IPPROTO_TCP, flags);
    let o1 = install_socket(fs0, fds0, seq_lowest_free(fds0, 0), h, flags);
    let o2 = install_socket(o1.1, o1.2, seq_lowest_free(o1.2, 0), h, flags);
    let i1 = fs0.sockets.len() as int;
    let i2 = i1 + 1;
    let id1 = net0.next_ud_id;
    let id2 = next_ud(id1);
    let a1 = unix_addr(AF_UNIX as u16, ud_path(id1));
    let a2 = unix_addr(AF_UNIX as u16, ud_path(id2));
    let b1 = bind_unix_outcome(o2.1, NetView { next_ud_id: next_ud(id2), ..net0 }, cwd, i1, a1);
    let b2 = bind_unix_outcome(b1.1, b1.2, cwd, i2, a2);
    let p1 = b2.1.pipes.len() as usize;
    let p2 = (p1 + 1) as usize;
    let fs3 = FsView { pipes: b2.1.pipes.push(new_pipe_view()).push(new_pipe_view()), ..b2.1 };
    let fs4 = with_socket(fs3, i1, pair_up(fs3.sockets[i1], a2, p1, p2));
    let fs5 = with_socket(fs4, i2, pair_up(fs4.sockets[i2], a1, p2, p1));
    let fs6 = hold_unix_inode(fs5, fs5.sockets[i1]);
    let fs7 = hold_unix_inode(fs6, fs6.sockets[i2]);
    (fs7, b2.2, o2.2, o1.0, o2.0)
}

impl Cage {
    /// The two lowest free descriptors, if there are two.
    pub(crate) fn free_pair(&self) -> (r: Option<(i32, i32)>)
        requires
            self.wf(),
        ensures
            r is None <==> !two_free(self.filedescriptortable@),
            r matches Some((f1, f2)) ==> {
                let fds = self.filedescriptortable@;
                &&& 0 <= f1 < f2 < MAXFD
                &&& fds[f1 as int] is None
                &&& fds[f2 as int] is None
                &&& forall|g: int| 0 <= g < f1 ==> #[trigger] fds[g] is Some
                &&& forall|g: int| f1 < g < f2 ==> #[trigger] fds[g] is Some
            },
    {
        let ghost fds = self.filedescriptortable@;
        let mut first: Option<i32> = None;
        let mut i: i32 = 0;
        while i < MAXFD
            invariant
                0 <= i <= MAXFD,
                fds == self.filedescriptortable@,
                fds.len() == MAXFD,
                first is None ==> forall|g: int| 0 <= g < i ==> #[trigger] fds[g] is Some,
                first matches Some(f) ==> {
                    &&& 0 <= f < i
                    &&& fds[f as int] is None
                    &&& forall|g: int| 0 <= g < f ==> #[trigger] fds[g] is Some
                    &&& forall|g: int| f < g < i ==> #[trigger] fds[g] is Some
                },
            decreases MAXFD - i,
        {
            if self.filedescriptortable[i as usize].is_none() {
                match first {
                    None => {
                        first = Some(i);
                    },
                    Some(f) => {
                        proof {
                            lemma_pair_free(fds, f as int, i as int);
                        }
                        return Some((f, i));
                    },
                }
            }
            i = i + 1;
        }
        proof {
            let f: int = match first {
                Some(f) => f as int,
                None => -1,
            };
            assert forall|g: int| 0 <= g < MAXFD && g != f implies #[trigger] fds[g] is Some by {
                match first {
                    Some(ff) => {
                        if g < ff {
                        } else {
                        }
                    },
                    None => {},
                }
            }
            lemma_no_pair(fds, f);
        }
        None
    }

    /// Makes two unix stream sockets connected to each other, and gives their descriptors in
    /// `sv`. With fewer than two free descriptors it fails with `ENFILE` and makes nothing.
    #[verifier::rlimit(100)]
    #[verifier::spinoff_prover]
    pub fn socketpair_syscall(&mut self, fs: &mut FilesystemMetadata, net: &mut NetMetadata, domain: i32, socktype: i32, protocol: i32, sv: &mut SockPair) -> (ret: i32)
        requires
            old(self).inv(old(fs)),
            old(net).wf(),
            domain == AF_UNIX && socktype & 0x7 == SOCK_STREAM && (protocol == 0 || protocol == IPPROTO_TCP)
                && socktype & !(SOCK_NONBLOCK | SOCK_CLOEXEC | 0x7) == 0 && two_free(old(self).filedescriptortable@)
                ==> socketpair_binds_ok(old(fs)@, old(net)@, old(self).cwd_view(), old(self).filedescriptortable@, socktype),
        ensures
            final(self).inv(final(fs)),
            final(net).wf(),
            same_but_fds(*old(self), *final(self)),
            ({
                let newprotocol = if protocol == 0 { IPPROTO_TCP } else { protocol };
                if domain != AF_UNIX || socktype & 0x7 != SOCK_STREAM || newprotocol != IPPROTO_TCP {
                    ret == err(EOPNOTSUPP) && final(fs)@ == old(fs)@ && final(net)@ == old(net)@ && *final(self) == *old(self)
                        && *final(sv) == *old(sv)
                } else if socktype & !(SOCK_NONBLOCK | SOCK_CLOEXEC | 0x7) != 0 {
                    ret == err(EINVAL) && final(fs)@ == old(fs)@ && final(net)@ == old(net)@ && *final(self) == *old(self)
                        && *final(sv) == *old(sv)
                } else if !two_free(old(self).filedescriptortable@) {
                    ret == err(ENFILE) && final(fs)@ == old(fs)@ && final(net)@ == old(net)@ && *final(self) == *old(self)
                        && *final(sv) == *old(sv)
                } else {
                    let o = socketpair_outcome(old(fs)@, old(net)@, old(self).cwd_view(), old(self).filedescriptortable@, socktype);
                    &&& ret == 0
                    &&& o.3 >= 0 && o.4 >= 0
                    &&& final(fs)@ == o.0
                    &&& final(net)@ == o.1
                    &&& final(self).filedescriptortable@ == o.2
                    &&& final(sv).sock1 == o.3
                    &&& final(sv).sock2 == o.4
                }
            }),
    {
        let newprotocol = if protocol == 0 { IPPROTO_TCP } else { protocol };
        if domain != AF_UNIX || socktype & 0x7 != SOCK_STREAM || newprotocol != IPPROTO_TCP {
            return syscall_error(EOPNOTSUPP);
        }
        if socktype & !(SOCK_NONBLOCK | SOCK_CLOEXEC | 0x7) != 0 {
            return syscall_error(EINVAL);
        }
        let (f1, f2) = match self.free_pair() {
            Some(p) => p,
            None => {
                return syscall_error(ENFILE);
            },
        };
        let ghost self0 = *self;
        let ghost fs0 = fs@;
        let ghost net0 = net@;
        let flags = (if socktype & SOCK_NONBLOCK != 0 { O_NONBLOCK } else { 0 }) | (if socktype & SOCK_CLOEXEC != 0 { O_CLOEXEC } else { 0 });
        let h = SocketHandle {
            socket_options: flags,
            tcp_options: 0,
            state: ConnState::NOTCONNECTED,
            protocol: IPPROTO_TCP,
            domain: AF_UNIX,
            localaddr: None,
            remoteaddr: None,
            unix_info: None,
            socktype,
            sndbuf: DEFAULT_SNDBUF,
            rcvbuf: DEFAULT_RCVBUF,
            errno: 0,
        };
        proof {
            lemma_next_lowest_free(self.filedescriptortable@, f1, f2, FileDescriptor::Socket(SocketDesc {
                flags,
                domain: h.domain,
                rawfd: -1i32,
                handle: fs@.sockets.len() as usize,
                advlock: fs@.locks.len() as usize,
            }));
        }
        let i1 = fs.sockets.len();
        let fd1 = self.new_socket_fd(fs, h, flags);
        let i2 = fs.sockets.len();
        let fd2 = self.new_socket_fd(fs, h, flags);
        let ghost fs_b = fs@;
        let path1 = net.gen_ud_path();
        let path2 = net.gen_ud_path();
        proof {
            lemma_ud_path_short(net0.next_ud_id);
            lemma_ud_path_short(next_ud(net0.next_ud_id));
            assert(net@ =~= NetView { next_ud_id: next_ud(next_ud(net0.next_ud_id)), ..net0 });
        }
        let a1 = new_sockaddr_unix(AF_UNIX as u16, &path1);
        let a2 = new_sockaddr_unix(AF_UNIX as u16, &path2);
        proof {
            lemma_unix_addr_unique(a1, AF_UNIX as u16, path1@);
            lemma_unix_addr_unique(a2, AF_UNIX as u16, path2@);
        }
        let r1 = self.bind_inner_socket_unix(fs, net, i1, &a1);
        let r2 = self.bind_inner_socket_unix(fs, net, i2, &a2);
        proof {
            assert(r1 == 0 && r2 == 0);
        }
        let ghost fs_c = *fs;
        let p1 = fs.new_pipe();
        let p2 = fs.new_pipe();
        let hh1 = fs.sockets[i1];
        let nh1 = SocketHandle {
            remoteaddr: Some(a2),
            unix_info: match hh1.unix_info {
                Some(ui) => Some(UnixSocketInfo { sendpipe: Some(p1), receivepipe: Some(p2), ..ui }),
                None => None,
            },
            state: ConnState::CONNECTED,
            ..hh1
        };
        fs.set_socket(i1, nh1);
        let hh2 = fs.sockets[i2];
        let nh2 = SocketHandle {
            remoteaddr: Some(a1),
            unix_info: match hh2.unix_info {
                Some(ui) => Some(UnixSocketInfo { sendpipe: Some(p2), receivepipe: Some(p1), ..ui }),
                None => None,
            },
            state: ConnState::CONNECTED,
            ..hh2
        };
        fs.set_socket(i2, nh2);
        match nh1.unix_info {
            Some(ui) => hold_socket_inode_exec(fs, ui.inode),
            None => {},
        }
        match nh2.unix_info {
            Some(ui) => hold_socket_inode_exec(fs, ui.inode),
            None => {},
        }
        sv.sock1 = fd1;
        sv.sock2 = fd2;
        proof {
            assert(fs_c@.pipes.push(new_pipe_view()).push(new_pipe_view()) =~= FsView { pipes: fs_c@.pipes.push(new_pipe_view()).push(new_pipe_view()), ..fs_c@ }.pipes);
            lemma_refs_ok_update(self, self, &fs_c, fs, 0, self.fd(0));
        }
        0
    }
}

} // verus!
