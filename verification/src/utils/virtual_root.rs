//! The virtual root: maps a package's `/`-rooted inner paths onto a real
//! filesystem prefix.
//!
//! The mapping is a pure prefix strip/join bijection over raw byte paths.
//! Component-wise symlink resolution is modelled as a step machine: the
//! caller probes each accumulated real path for a link and hands the
//! target back, and an absolute target resets resolution to the real root,
//! so in-root absolute symlinks cannot escape the virtual root.  Relative
//! targets fall through to ordinary filesystem resolution — an
//! acknowledged simplification.

use vstd::prelude::*;

use crate::contents::bytes_eq;
use crate::contents::clone_bytes;

verus! {

/// An absolute byte path: non-empty, rooted at one separator.
pub open spec fn is_abs(p: Seq<u8>) -> bool {
    p.len() > 0 && p[0] == 47
}

/// An absolute path in canonical textual form: no trailing separator
/// (except the root itself).
pub open spec fn wf_abs_path(p: Seq<u8>) -> bool {
    is_abs(p) && (p.len() == 1 || p.last() != 47)
}

/// The real path of an inner path under a real root: a pure prefix join.
pub open spec fn real_of(root: Seq<u8>, inner: Seq<u8>) -> Seq<u8> {
    if root == seq![47u8] {
        inner
    } else if inner == seq![47u8] {
        root
    } else {
        root + inner
    }
}

/// The inner path of a real path under a real root: the inverse prefix
/// strip.  `None` when the real path does not fall under the root.
pub open spec fn inner_of(root: Seq<u8>, rpath: Seq<u8>) -> Option<Seq<u8>> {
    if root == seq![47u8] {
        Some(rpath)
    } else if rpath == root {
        Some(seq![47u8])
    } else if rpath.len() > root.len() && rpath.take(root.len() as int) == root && rpath[root.len() as int]
        == 47 {
        Some(rpath.skip(root.len() as int))
    } else {
        None
    }
}

/// Strip after join: mapping an inner path to its real location and back
/// gives the inner path again.
pub proof fn lemma_prefix_bijection_inner(root: Seq<u8>, inner: Seq<u8>)
    requires
        wf_abs_path(root),
        is_abs(inner),
    ensures
        inner_of(root, real_of(root, inner)) == Some(inner),
{
    if root == seq![47u8] {
    } else if inner == seq![47u8] {
    } else {
        let rpath = root + inner;
        assert(rpath.len() > root.len());
        assert(rpath.take(root.len() as int) =~= root);
        assert(rpath[root.len() as int] == inner[0]);
        assert(rpath != root) by {
            assert(rpath.len() != root.len());
        }
        assert(rpath.skip(root.len() as int) =~= inner);
    }
}

/// Join after strip: mapping a real path under the root to its inner form
/// and back gives the real path again.
pub proof fn lemma_prefix_bijection_real(root: Seq<u8>, rpath: Seq<u8>)
    requires
        wf_abs_path(root),
        wf_abs_path(rpath),
        inner_of(root, rpath) is Some,
    ensures
        real_of(root, inner_of(root, rpath).unwrap()) == rpath,
{
    if root == seq![47u8] {
    } else if rpath == root {
    } else {
        let inner = rpath.skip(root.len() as int);
        assert(inner[0] == rpath[root.len() as int]);
        assert(inner.len() > 0);
        if inner == seq![47u8] {
            // the real path would end in a separator, which canonical
            // textual form rules out
            assert(rpath.last() == 47);
            assert(false);
        }
        assert(root + inner =~= rpath);
    }
}

/// Why a path cannot be mapped.
#[derive(Clone, Copy, PartialEq, Eq, Structural, Debug)]
pub enum PathError {
    /// The path is not in absolute inner form.
    NotAbsolute,
    /// The real path does not fall under the real root.
    OutsideRoot,
}

/// Represents a path mapping between an inner filesystem view and a real
/// location.
pub trait RootPath {
    /// The real prefix that the inner root stands for.
    spec fn real_root_view(&self) -> Seq<u8>;

    /// The real prefix is in canonical textual form.
    spec fn wf(&self) -> bool;

    /// Returns the real root prefix.
    fn real_root(&self) -> (r: Vec<u8>)
        ensures
            r@ == self.real_root_view(),
    ;

    /// The inner representation of the root itself.
    fn inner_root(&self) -> (r: Vec<u8>)
        ensures
            r@ == seq![47u8],
    ;

    /// Resolves an inner path to the real one used outside the root.
    fn real_path(&self, inner: &Vec<u8>) -> (r: Result<Vec<u8>, PathError>)
        ensures
            match r {
                Ok(p) => p@ == real_of(self.real_root_view(), inner@) && (self.real_root_view()
                    == seq![47u8] || is_abs(inner@)),
                Err(_) => self.real_root_view() != seq![47u8] && !is_abs(inner@),
            },
    ;

    /// Identifies how a real path looks inside the root.
    fn inner_path(&self, rpath: &Vec<u8>) -> (r: Result<Vec<u8>, PathError>)
        ensures
            match r {
                Ok(p) => inner_of(self.real_root_view(), rpath@) == Some(p@),
                Err(_) => inner_of(self.real_root_view(), rpath@) is None,
            },
    ;

    /// The inner path relative to the inner root: the leading separator
    /// stripped.
    fn relative_from_inner(&self, inner: &Vec<u8>) -> (r: Result<Vec<u8>, PathError>)
        ensures
            match r {
                Ok(p) => is_abs(inner@) && p@ == inner@.skip(1),
                Err(_) => !is_abs(inner@),
            },
    ;
}

/// Either the host filesystem root itself, or a root placed at a real
/// prefix.
#[derive(Debug)]
pub enum AnyRoot {
    RealRoot,
    RootAtBuf(Vec<u8>),
}

/// Does `a` start with `b`?
fn starts_with(a: &Vec<u8>, b: &Vec<u8>) -> (r: bool)
    ensures
        r == (a@.len() >= b@.len() && a@.take(b@.len() as int) == b@),
{
    let m: usize = b.len();
    if a.len() < m {
        return false;
    }
    let mut i: usize = 0;
    while i < m
        invariant
            m == b@.len(),
            m <= a@.len(),
            0 <= i <= m,
            forall|j: int| 0 <= j < i ==> a@[j] == b@[j],
        decreases m - i,
    {
        if a[i] != b[i] {
            assert(a@.take(m as int)[i as int] != b@[i as int]);
            return false;
        }
        i = i + 1;
    }
    assert(a@.take(m as int) =~= b@);
    true
}

/// The one-byte path `/`.
fn slash() -> (r: Vec<u8>)
    ensures
        r@ == seq![47u8],
{
    let mut v: Vec<u8> = Vec::new();
    v.push(47);
    assert(v@ =~= seq![47u8]);
    v
}

/// Appends all bytes of `src` to `dst`.
fn append_bytes(dst: &mut Vec<u8>, src: &Vec<u8>)
    ensures
        final(dst)@ == old(dst)@ + src@,
{
    let n: usize = src.len();
    let mut i: usize = 0;
    while i < n
        invariant
            n == src@.len(),
            0 <= i <= n,
            dst@ == old(dst)@ + src@.take(i as int),
        decreases n - i,
    {
        dst.push(src[i]);
        assert(dst@ =~= old(dst)@ + src@.take(i + 1));
        i = i + 1;
    }
    assert(dst@ =~= old(dst)@ + src@);
}

impl AnyRoot {
    /// Is this root placed at `/` itself?
    fn is_host_root(&self) -> (r: bool)
        ensures
            r == (self.real_root_view() == seq![47u8]),
    {
        match self {
            AnyRoot::RealRoot => true,
            AnyRoot::RootAtBuf(root) => {
                let r = root.len() == 1 && root[0] == 47;
                proof {
                    if r {
                        assert(root@ =~= seq![47u8]);
                    } else {
                        if root@ == seq![47u8] {
                            assert(root@.len() == 1 && root@[0] == 47);
                        }
                    }
                }
                r
            },
        }
    }
}

impl RootPath for AnyRoot {
    open spec fn real_root_view(&self) -> Seq<u8> {
        match self {
            AnyRoot::RealRoot => seq![47u8],
            AnyRoot::RootAtBuf(root) => root@,
        }
    }

    open spec fn wf(&self) -> bool {
        wf_abs_path(self.real_root_view())
    }

    fn real_root(&self) -> (r: Vec<u8>) {
        match self {
            AnyRoot::RealRoot => slash(),
            AnyRoot::RootAtBuf(root) => clone_bytes(root),
        }
    }

    fn inner_root(&self) -> (r: Vec<u8>) {
        slash()
    }

    fn real_path(&self, inner: &Vec<u8>) -> (r: Result<Vec<u8>, PathError>) {
        if self.is_host_root() {
            return Ok(clone_bytes(inner));
        }
        if inner.len() == 0 || inner[0] != 47 {
            return Err(PathError::NotAbsolute);
        }
        let root = self.real_root();
        if inner.len() == 1 {
            assert(inner@ =~= seq![47u8]);
            return Ok(root);
        }
        let mut out = root;
        append_bytes(&mut out, inner);
        proof {
            assert(inner@ != seq![47u8]) by {
                assert(inner@.len() != 1);
            }
        }
        Ok(out)
    }

    fn inner_path(&self, rpath: &Vec<u8>) -> (r: Result<Vec<u8>, PathError>) {
        if self.is_host_root() {
            return Ok(clone_bytes(rpath));
        }
        let root = self.real_root();
        if bytes_eq(rpath, &root) {
            return Ok(slash());
        }
        if rpath.len() > root.len() && starts_with(rpath, &root) && rpath[root.len()] == 47 {
            let n: usize = rpath.len();
            let m: usize = root.len();
            let mut out: Vec<u8> = Vec::new();
            let mut i: usize = m;
            while i < n
                invariant
                    n == rpath@.len(),
                    m <= i <= n,
                    out@ == rpath@.subrange(m as int, i as int),
                decreases n - i,
            {
                out.push(rpath[i]);
                assert(out@ =~= rpath@.subrange(m as int, i + 1));
                i = i + 1;
            }
            assert(out@ =~= rpath@.skip(m as int));
            Ok(out)
        } else {
            Err(PathError::OutsideRoot)
        }
    }

    fn relative_from_inner(&self, inner: &Vec<u8>) -> (r: Result<Vec<u8>, PathError>) {
        if inner.len() == 0 || inner[0] != 47 {
            return Err(PathError::NotAbsolute);
        }
        let n: usize = inner.len();
        let mut out: Vec<u8> = Vec::new();
        let mut i: usize = 1;
        while i < n
            invariant
                n == inner@.len(),
                1 <= i <= n,
                out@ == inner@.subrange(1, i as int),
            decreases n - i,
        {
            out.push(inner[i]);
            assert(out@ =~= inner@.subrange(1, i + 1));
            i = i + 1;
        }
        assert(out@ =~= inner@.skip(1));
        Ok(out)
    }
}

/// Model of a component list.
pub open spec fn comps_view(cs: Seq<Vec<u8>>) -> Seq<Seq<u8>> {
    cs.map(|i: int, c: Vec<u8>| c@)
}

/// Closes the component being collected: empty components and `.` are
/// dropped.
pub open spec fn push_comp(acc: Seq<Seq<u8>>, cur: Seq<u8>) -> Seq<Seq<u8>> {
    if cur.len() == 0 || cur == seq![46u8] {
        acc
    } else {
        acc.push(cur)
    }
}

/// Splits a relative path at separators, from the given scan state on.
pub open spec fn split_from(p: Seq<u8>, cur: Seq<u8>, acc: Seq<Seq<u8>>) -> Seq<Seq<u8>>
    decreases p.len(),
{
    if p.len() == 0 {
        push_comp(acc, cur)
    } else if p[0] == 47 {
        split_from(p.skip(1), Seq::empty(), push_comp(acc, cur))
    } else {
        split_from(p.skip(1), cur.push(p[0]), acc)
    }
}

/// The components of a relative path: split at separators, empty and `.`
/// components dropped.
pub open spec fn spec_components(p: Seq<u8>) -> Seq<Seq<u8>> {
    split_from(p, Seq::empty(), Seq::empty())
}

/// Splits a relative byte path into its components.
pub fn split_components(p: &Vec<u8>) -> (r: Vec<Vec<u8>>)
    ensures
        comps_view(r@) == spec_components(p@),
{
    let n: usize = p.len();
    let mut acc: Vec<Vec<u8>> = Vec::new();
    let mut cur: Vec<u8> = Vec::new();
    let mut i: usize = 0;
    proof {
        assert(p@.skip(0) =~= p@);
        assert(comps_view(acc@) =~= Seq::<Seq<u8>>::empty());
    }
    while i < n
        invariant
            n == p@.len(),
            0 <= i <= n,
            split_from(p@.skip(i as int), cur@, comps_view(acc@)) == spec_components(p@),
        decreases n - i,
    {
        let ghost rest = p@.skip(i as int);
        let ghost acc0 = comps_view(acc@);
        let ghost cur0 = cur@;
        proof {
            assert(rest[0] == p@[i as int]);
            assert(rest.skip(1) =~= p@.skip(i + 1));
        }
        let b = p[i];
        if b == 47 {
            let closed = is_kept_component(&cur);
            proof {
                assert(split_from(rest, cur0, acc0) == split_from(
                    rest.skip(1),
                    Seq::empty(),
                    push_comp(acc0, cur0),
                ));
            }
            if closed {
                acc.push(cur);
                assert(comps_view(acc@) =~= push_comp(acc0, cur0));
            } else {
                assert(comps_view(acc@) == push_comp(acc0, cur0));
            }
            cur = Vec::new();
            assert(cur@ =~= Seq::<u8>::empty());
        } else {
            proof {
                assert(split_from(rest, cur0, acc0) == split_from(rest.skip(1), cur0.push(b), acc0));
            }
            cur.push(b);
        }
        i = i + 1;
    }
    proof {
        assert(p@.skip(n as int) =~= Seq::<u8>::empty());
    }
    let closed = is_kept_component(&cur);
    let ghost acc0 = comps_view(acc@);
    let ghost cur0 = cur@;
    if closed {
        acc.push(cur);
        assert(comps_view(acc@) =~= push_comp(acc0, cur0));
    }
    acc
}

/// Does the collected component survive: non-empty and not `.`?
fn is_kept_component(cur: &Vec<u8>) -> (r: bool)
    ensures
        r == !(cur@.len() == 0 || cur@ == seq![46u8]),
{
    if cur.len() == 0 {
        return false;
    }
    if cur.len() == 1 && cur[0] == 46 {
        assert(cur@ =~= seq![46u8]);
        return false;
    }
    proof {
        if cur@ == seq![46u8] {
            assert(cur@.len() == 1 && cur@[0] == 46);
        }
    }
    true
}

/// Joining one component onto an absolute base path.
pub open spec fn path_join(base: Seq<u8>, comp: Seq<u8>) -> Seq<u8> {
    if base == seq![47u8] {
        base + comp
    } else {
        base + seq![47u8] + comp
    }
}

/// Component-wise symlink resolution confined to a virtual root.
///
/// The caller walks the inner path: `advance` appends the next component
/// to the accumulated real path and hands that path out to be probed for
/// a symlink; `apply_link` folds the probe's answer back in.  An absolute
/// target discards the accumulated suffix back to the real root and
/// substitutes the target, so in-root absolute symlinks cannot escape the
/// virtual root; a relative target is left to ordinary filesystem
/// resolution.  Final resolution of the accumulated path is the host's
/// business.
pub struct Canonicalizer {
    root: Vec<u8>,
    result: Vec<u8>,
    comps: Vec<Vec<u8>>,
    idx: usize,
}

impl Canonicalizer {
    /// The real root that resolution is confined to.
    pub closed spec fn root_view(&self) -> Seq<u8> {
        self.root@
    }

    /// The accumulated real path.
    pub closed spec fn result_view(&self) -> Seq<u8> {
        self.result@
    }

    /// The components not yet walked.
    pub closed spec fn remaining(&self) -> Seq<Seq<u8>> {
        comps_view(self.comps@).skip(self.idx as int)
    }

    /// The cursor stays within the component list.
    pub closed spec fn wf(&self) -> bool {
        self.idx <= self.comps@.len()
    }

    /// Starts resolving `inner` under `root`.
    pub fn start(root: &AnyRoot, inner: &Vec<u8>) -> (r: Result<Canonicalizer, PathError>)
        ensures
            match r {
                Ok(c) => is_abs(inner@) && c.wf() && c.root_view() == root.real_root_view()
                    && c.result_view() == root.real_root_view() && c.remaining()
                    == spec_components(inner@.skip(1)),
                Err(_) => !is_abs(inner@),
            },
    {
        let rel = match root.relative_from_inner(inner) {
            Ok(rel) => rel,
            Err(e) => {
                return Err(e);
            },
        };
        let comps = split_components(&rel);
        let c = Canonicalizer { root: root.real_root(), result: root.real_root(), comps, idx: 0 };
        proof {
            assert(c.remaining() =~= spec_components(inner@.skip(1)));
        }
        Ok(c)
    }

    /// Is the walk over?
    pub fn done(&self) -> (r: bool)
        requires
            self.wf(),
        ensures
            r == (self.remaining().len() == 0),
    {
        self.idx >= self.comps.len()
    }

    /// Appends the next component to the accumulated real path and returns
    /// the path to probe for a symlink.
    pub fn advance(&mut self) -> (r: Vec<u8>)
        requires
            old(self).wf(),
            old(self).remaining().len() > 0,
        ensures
            final(self).wf(),
            final(self).root_view() == old(self).root_view(),
            final(self).result_view() == path_join(
                old(self).result_view(),
                old(self).remaining()[0],
            ),
            final(self).remaining() == old(self).remaining().skip(1),
            r@ == final(self).result_view(),
    {
        proof {
            assert(comps_view(self.comps@).len() == self.comps@.len());
            assert(self.idx < self.comps@.len());
        }
        let comp = clone_bytes(&self.comps[self.idx]);
        assert(comp@ == old(self).remaining()[0]);
        if !(self.result.len() == 1 && self.result[0] == 47) {
            proof {
                if self.result@ == seq![47u8] {
                    assert(self.result@.len() == 1 && self.result@[0] == 47);
                }
            }
            self.result.push(47);
            assert(self.result@ =~= old(self).result_view() + seq![47u8]);
        } else {
            assert(self.result@ =~= seq![47u8]);
        }
        append_bytes(&mut self.result, &comp);
        let n_comps: usize = self.comps.len();
        assert(self.idx < n_comps);
        self.idx = self.idx + 1;
        proof {
            assert(self.result@ =~= path_join(old(self).result_view(), comp@));
            assert(self.remaining() =~= old(self).remaining().skip(1));
        }
        clone_bytes(&self.result)
    }

    /// Folds a probe's answer in: an absolute symlink target resets the
    /// accumulated path back to the real root and substitutes the target;
    /// a relative target, or none, changes nothing.
    pub fn apply_link(&mut self, target: Option<&Vec<u8>>)
        requires
            old(self).wf(),
        ensures
            final(self).wf(),
            final(self).root_view() == old(self).root_view(),
            final(self).remaining() == old(self).remaining(),
            final(self).result_view() == (match target {
                Some(t) => if is_abs(t@) {
                    real_of(old(self).root_view(), t@)
                } else {
                    old(self).result_view()
                },
                None => old(self).result_view(),
            }),
    {
        match target {
            Some(t) => {
                if t.len() > 0 && t[0] == 47 {
                    let host = self.root.len() == 1 && self.root[0] == 47;
                    proof {
                        if host {
                            assert(self.root@ =~= seq![47u8]);
                        } else if self.root@ == seq![47u8] {
                            assert(self.root@.len() == 1 && self.root@[0] == 47);
                        }
                    }
                    if host {
                        self.result = clone_bytes(t);
                    } else if t.len() == 1 {
                        assert(t@ =~= seq![47u8]);
                        self.result = clone_bytes(&self.root);
                    } else {
                        proof {
                            assert(t@ != seq![47u8]) by {
                                assert(t@.len() != 1);
                            }
                        }
                        let mut out = clone_bytes(&self.root);
                        append_bytes(&mut out, t);
                        self.result = out;
                    }
                }
            },
            None => {},
        }
    }

    /// The accumulated real path so far.
    pub fn current(&self) -> (r: Vec<u8>)
        ensures
            r@ == self.result_view(),
    {
        clone_bytes(&self.result)
    }

    /// Hands the fully walked real path out for host canonicalization.
    pub fn into_result(self) -> (r: Vec<u8>)
        ensures
            r@ == self.result_view(),
    {
        self.result
    }
}

/// Places a virtual root at the given real prefix.
pub fn root_at_buf(root: Vec<u8>) -> (r: AnyRoot)
    requires
        wf_abs_path(root@),
    ensures
        r.real_root_view() == root@,
        r.wf(),
{
    AnyRoot::RootAtBuf(root)
}

} // verus!
