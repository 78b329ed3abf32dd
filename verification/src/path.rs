//! Lexical normalization of path names, as done before every walk of the file tree.
use vstd::prelude::*;
use vstd::slice::slice_to_vec;

verus! {

/// The byte `/`.
pub const SLASH: u8 = 47;

/// The byte `.`.
pub const DOT: u8 = 46;

/// The components of a list of byte strings, as plain sequences.
pub open spec fn comps_view(v: Seq<Vec<u8>>) -> Seq<Seq<u8>> {
    Seq::new(v.len(), |i: int| v[i]@)
}

/// Applies one path component to an already normalized path: empty components and `.`
/// change nothing, `..` drops the last component (the root stays the root), and any
/// other component is appended.
pub open spec fn apply_component(acc: Seq<Seq<u8>>, c: Seq<u8>) -> Seq<Seq<u8>> {
    if c.len() == 0 || c == seq![DOT] {
        acc
    } else if c == seq![DOT, DOT] {
        if acc.len() > 0 {
            acc.drop_last()
        } else {
            acc
        }
    } else {
        acc.push(c)
    }
}

/// Scans `bytes` from `start`: the components finished so far and the pending one.
pub open spec fn scan(start: Seq<Seq<u8>>, bytes: Seq<u8>) -> (Seq<Seq<u8>>, Seq<u8>)
    decreases bytes.len(),
{
    if bytes.len() == 0 {
        (start, Seq::empty())
    } else {
        let prev = scan(start, bytes.drop_last());
        let b = bytes.last();
        if b == SLASH {
            (apply_component(prev.0, prev.1), Seq::empty())
        } else {
            (prev.0, prev.1.push(b))
        }
    }
}

/// Whether a path name is absolute.
pub open spec fn is_absolute(path: Seq<u8>) -> bool {
    path.len() > 0 && path[0] == SLASH
}

/// The normalized components of `path`, taken relative to `cwd` unless it is absolute.
pub open spec fn spec_normpath(cwd: Seq<Seq<u8>>, path: Seq<u8>) -> Seq<Seq<u8>> {
    let start = if is_absolute(path) {
        Seq::<Seq<u8>>::empty()
    } else {
        cwd
    };
    let st = scan(start, path);
    apply_component(st.0, st.1)
}

/// A normalized path holds no empty component and no `.` or `..`.
pub open spec fn is_normal(comps: Seq<Seq<u8>>) -> bool {
    forall|i: int|
        0 <= i < comps.len() ==> {
            &&& (#[trigger] comps[i]).len() > 0
            &&& comps[i] != seq![DOT]
            &&& comps[i] != seq![DOT, DOT]
        }
}

pub proof fn lemma_apply_keeps_normal(acc: Seq<Seq<u8>>, c: Seq<u8>)
    requires
        is_normal(acc),
    ensures
        is_normal(apply_component(acc, c)),
{
    let r = apply_component(acc, c);
    if c.len() == 0 || c == seq![DOT] {
    } else if c == seq![DOT, DOT] {
        if acc.len() > 0 {
            assert forall|i: int| 0 <= i < r.len() implies (#[trigger] r[i]).len() > 0 && r[i] != seq![DOT] && r[i] != seq![DOT, DOT] by {
                assert(r[i] == acc[i]);
            }
        }
    } else {
        assert forall|i: int| 0 <= i < r.len() implies (#[trigger] r[i]).len() > 0 && r[i] != seq![DOT] && r[i] != seq![DOT, DOT] by {
            if i < acc.len() {
                assert(r[i] == acc[i]);
            }
        }
    }
}

pub proof fn lemma_scan_keeps_normal(start: Seq<Seq<u8>>, bytes: Seq<u8>)
    requires
        is_normal(start),
    ensures
        is_normal(scan(start, bytes).0),
    decreases bytes.len(),
{
    if bytes.len() > 0 {
        lemma_scan_keeps_normal(start, bytes.drop_last());
        let prev = scan(start, bytes.drop_last());
        lemma_apply_keeps_normal(prev.0, prev.1);
    }
}

/// A normalized path is normal whenever the working directory is.
pub proof fn lemma_normpath_is_normal(cwd: Seq<Seq<u8>>, path: Seq<u8>)
    requires
        is_normal(cwd),
    ensures
        is_normal(spec_normpath(cwd, path)),
{
    let start = if is_absolute(path) {
        Seq::<Seq<u8>>::empty()
    } else {
        cwd
    };
    lemma_scan_keeps_normal(start, path);
    let st = scan(start, path);
    lemma_apply_keeps_normal(st.0, st.1);
}

/// Whether two byte strings are equal.
pub fn bytes_eq(a: &[u8], b: &[u8]) -> (r: bool)
    ensures
        r == (a@ == b@),
{
    if a.len() != b.len() {
        return false;
    }
    let mut i: usize = 0;
    while i < a.len()
        invariant
            a@.len() == b@.len(),
            i <= a@.len(),
            forall|j: int| 0 <= j < i ==> a@[j] == b@[j],
        decreases a@.len() - i,
    {
        if a[i] != b[i] {
            return false;
        }
        i = i + 1;
    }
    assert(a@ =~= b@);
    true
}

/// Copies a list of components.
pub fn clone_comps(v: &Vec<Vec<u8>>) -> (r: Vec<Vec<u8>>)
    ensures
        comps_view(r@) == comps_view(v@),
{
    let mut r: Vec<Vec<u8>> = Vec::new();
    let mut i: usize = 0;
    while i < v.len()
        invariant
            i <= v@.len(),
            r@.len() == i,
            forall|j: int| 0 <= j < i ==> (#[trigger] r@[j])@ == v@[j]@,
        decreases v@.len() - i,
    {
        let c = slice_to_vec(v[i].as_slice());
        r.push(c);
        i = i + 1;
    }
    assert(comps_view(r@) =~= comps_view(v@));
    r
}

fn apply_component_exec(acc: &mut Vec<Vec<u8>>, c: Vec<u8>)
    ensures
        comps_view(final(acc)@) == apply_component(comps_view(old(acc)@), c@),
{
    let ghost a0 = comps_view(acc@);
    let len = c.len();
    if len == 0 || (len == 1 && c[0] == DOT) {
        if len == 1 {
            assert(c@ =~= seq![DOT]);
        }
    } else if len == 2 && c[0] == DOT && c[1] == DOT {
        assert(c@ =~= seq![DOT, DOT]);
        if acc.len() > 0 {
            acc.pop();
            assert(comps_view(acc@) =~= a0.drop_last());
        }
    } else {
        assert(c@ != seq![DOT]);
        assert(c@ != seq![DOT, DOT]);
        acc.push(c);
        assert(comps_view(acc@) =~= a0.push(c@));
    }
}

/// Normalizes `path` against the working directory `cwd`.
pub fn normpath(cwd: &Vec<Vec<u8>>, path: &[u8]) -> (r: Vec<Vec<u8>>)
    ensures
        comps_view(r@) == spec_normpath(comps_view(cwd@), path@),
{
    let absolute = path.len() > 0 && path[0] == SLASH;
    let mut acc: Vec<Vec<u8>> = if absolute {
        Vec::new()
    } else {
        clone_comps(cwd)
    };
    let ghost start = if is_absolute(path@) {
        Seq::<Seq<u8>>::empty()
    } else {
        comps_view(cwd@)
    };
    assert(comps_view(acc@) =~= start);
    let mut cur: Vec<u8> = Vec::new();
    let mut i: usize = 0;
    while i < path.len()
        invariant
            i <= path@.len(),
            (comps_view(acc@), cur@) == scan(start, path@.subrange(0, i as int)),
        decreases path@.len() - i,
    {
        let b = path[i];
        assert(path@.subrange(0, i + 1).drop_last() =~= path@.subrange(0, i as int));
        if b == SLASH {
            let c = cur;
            apply_component_exec(&mut acc, c);
            cur = Vec::new();
            assert(cur@ =~= Seq::<u8>::empty());
        } else {
            cur.push(b);
        }
        i = i + 1;
    }
    assert(path@.subrange(0, path@.len() as int) =~= path@);
    apply_component_exec(&mut acc, cur);
    acc
}

/// The bytes `/c1/c2/.../cn` of a list of components (empty for the root).
pub open spec fn join(comps: Seq<Seq<u8>>) -> Seq<u8>
    decreases comps.len(),
{
    if comps.len() == 0 {
        Seq::empty()
    } else {
        join(comps.drop_last()) + seq![SLASH] + comps.last()
    }
}

/// The text of a normalized path: `/` for the root, else the joined components.
pub open spec fn path_text(comps: Seq<Seq<u8>>) -> Seq<u8> {
    if comps.len() == 0 {
        seq![SLASH]
    } else {
        join(comps)
    }
}

/// Writes the text of a list of components.
pub fn path_to_bytes(comps: &Vec<Vec<u8>>) -> (r: Vec<u8>)
    ensures
        r@ == path_text(comps_view(comps@)),
{
    let mut r: Vec<u8> = Vec::new();
    if comps.len() == 0 {
        r.push(SLASH);
        assert(r@ =~= seq![SLASH]);
        return r;
    }
    let mut i: usize = 0;
    while i < comps.len()
        invariant
            i <= comps@.len(),
            r@ == join(comps_view(comps@).subrange(0, i as int)),
        decreases comps@.len() - i,
    {
        let ghost before = r@;
        r.push(SLASH);
        let mut k: usize = 0;
        while k < comps[i].len()
            invariant
                i < comps@.len(),
                k <= comps@[i as int]@.len(),
                r@ == before + seq![SLASH] + comps@[i as int]@.subrange(0, k as int),
            decreases comps@[i as int]@.len() - k,
        {
            r.push(comps[i][k]);
            assert(comps@[i as int]@.subrange(0, k + 1) =~= comps@[i as int]@.subrange(0, k as int).push(comps@[i as int]@[k as int]));
            assert(r@ =~= before + seq![SLASH] + comps@[i as int]@.subrange(0, k + 1));
            k = k + 1;
        }
        assert(comps@[i as int]@.subrange(0, comps@[i as int]@.len() as int) =~= comps@[i as int]@);
        let ghost cv = comps_view(comps@);
        assert(cv.subrange(0, i + 1).drop_last() =~= cv.subrange(0, i as int));
        assert(cv.subrange(0, i + 1).last() == comps@[i as int]@);
        i = i + 1;
    }
    assert(comps_view(comps@).subrange(0, comps@.len() as int) =~= comps_view(comps@));
    r
}

} // verus!
