//! The manifest entry model.
//!
//! An [`Entry`] describes one filesystem object owned by a package.  Paths
//! are kept as raw bytes in *inner* form: absolute, rooted at one `/`,
//! independent of the real install location.  Arbitrary, possibly
//! non-UTF-8, file names are representable.

use vstd::prelude::*;

pub mod laws;
pub mod parser;
pub mod writer;

verus! {

/// Represents one NDBAM/VDB contents entry.
#[derive(Debug)]
pub enum Entry {
    /// A directory.
    Dir { path: Vec<u8> },
    /// A regular file with its content digest and modification time.
    File { path: Vec<u8>, md5: Vec<u8>, mtime: u64, extra: Vec<(Vec<u8>, Vec<u8>)> },
    /// A symbolic link with its target and modification time.
    Sym { path: Vec<u8>, target: Vec<u8>, mtime: u64, extra: Vec<(Vec<u8>, Vec<u8>)> },
}

/// Mathematical model of an [`Entry`]: every byte vector becomes a sequence.
pub enum EntryV {
    Dir { path: Seq<u8> },
    File { path: Seq<u8>, md5: Seq<u8>, mtime: u64, extra: Seq<(Seq<u8>, Seq<u8>)> },
    Sym { path: Seq<u8>, target: Seq<u8>, mtime: u64, extra: Seq<(Seq<u8>, Seq<u8>)> },
}

/// Model of a key/value list: each pair of byte vectors becomes a pair of
/// sequences, in order.
pub open spec fn pairs_view(extra: Seq<(Vec<u8>, Vec<u8>)>) -> Seq<(Seq<u8>, Seq<u8>)> {
    extra.map(|i: int, p: (Vec<u8>, Vec<u8>)| (p.0@, p.1@))
}

impl View for Entry {
    type V = EntryV;

    open spec fn view(&self) -> EntryV {
        match self {
            Entry::Dir { path } => EntryV::Dir { path: path@ },
            Entry::File { path, md5, mtime, extra } => EntryV::File {
                path: path@,
                md5: md5@,
                mtime: *mtime,
                extra: pairs_view(extra@),
            },
            Entry::Sym { path, target, mtime, extra } => EntryV::Sym {
                path: path@,
                target: target@,
                mtime: *mtime,
                extra: pairs_view(extra@),
            },
        }
    }
}

impl EntryV {
    /// The inner path of the described object.
    pub open spec fn path(self) -> Seq<u8> {
        match self {
            EntryV::Dir { path } => path,
            EntryV::File { path, .. } => path,
            EntryV::Sym { path, .. } => path,
        }
    }

    /// The recorded modification time, if the entry kind carries one.
    pub open spec fn mtime(self) -> Option<u64> {
        match self {
            EntryV::Dir { .. } => None,
            EntryV::File { mtime, .. } => Some(mtime),
            EntryV::Sym { mtime, .. } => Some(mtime),
        }
    }

    /// The unrecognized key/value pairs preserved by the codec.
    pub open spec fn extra(self) -> Seq<(Seq<u8>, Seq<u8>)> {
        match self {
            EntryV::Dir { .. } => Seq::empty(),
            EntryV::File { extra, .. } => extra,
            EntryV::Sym { extra, .. } => extra,
        }
    }
}

/// The record key `type`, as bytes.
pub open spec fn lit_type() -> Seq<u8> {
    seq![116u8, 121u8, 112u8, 101u8]
}

/// The record key `path`, as bytes.
pub open spec fn lit_path() -> Seq<u8> {
    seq![112u8, 97u8, 116u8, 104u8]
}

/// The record key `md5`, as bytes.
pub open spec fn lit_md5() -> Seq<u8> {
    seq![109u8, 100u8, 53u8]
}

/// The record key `mtime`, as bytes.
pub open spec fn lit_mtime() -> Seq<u8> {
    seq![109u8, 116u8, 105u8, 109u8, 101u8]
}

/// The record key `target`, as bytes.
pub open spec fn lit_target() -> Seq<u8> {
    seq![116u8, 97u8, 114u8, 103u8, 101u8, 116u8]
}

/// The type tag `dir`, as bytes.
pub open spec fn lit_dir() -> Seq<u8> {
    seq![100u8, 105u8, 114u8]
}

/// The type tag `file`, as bytes.
pub open spec fn lit_file() -> Seq<u8> {
    seq![102u8, 105u8, 108u8, 101u8]
}

/// The type tag `sym`, as bytes.
pub open spec fn lit_sym() -> Seq<u8> {
    seq![115u8, 121u8, 109u8]
}

/// The required keys of a record of the given type tag.
pub open spec fn required_keys(tag: Seq<u8>) -> Seq<Seq<u8>> {
    if tag == lit_dir() {
        seq![lit_type(), lit_path()]
    } else if tag == lit_file() {
        seq![lit_type(), lit_path(), lit_md5(), lit_mtime()]
    } else {
        seq![lit_type(), lit_path(), lit_target(), lit_mtime()]
    }
}

/// An inner path is non-empty and absolute.
pub open spec fn wf_path(p: Seq<u8>) -> bool {
    p.len() > 0 && p[0] == 47
}

/// Preserved keys must be non-empty, pairwise distinct and distinct from
/// the record's required keys.
pub open spec fn wf_extra(extra: Seq<(Seq<u8>, Seq<u8>)>, required: Seq<Seq<u8>>) -> bool {
    &&& forall|i: int|
        0 <= i < extra.len() ==> (#[trigger] extra[i]).0.len() > 0 && !required.contains(
            extra[i].0,
        )
    &&& forall|i: int, j: int| 0 <= i < j < extra.len() ==> extra[i].0 != extra[j].0
}

/// A representable entry: its path is inner-form and its preserved keys
/// cannot collide with the record structure.
pub open spec fn wf_entry(v: EntryV) -> bool {
    match v {
        EntryV::Dir { path } => wf_path(path),
        EntryV::File { path, md5, mtime, extra } => wf_path(path) && wf_extra(
            extra,
            required_keys(lit_file()),
        ),
        EntryV::Sym { path, target, mtime, extra } => wf_path(path) && wf_extra(
            extra,
            required_keys(lit_sym()),
        ),
    }
}

impl Entry {
    /// The inner path of the described object.
    pub fn path(&self) -> (r: &Vec<u8>)
        ensures
            r@ == self@.path(),
    {
        match self {
            Entry::Dir { path } => path,
            Entry::File { path, .. } => path,
            Entry::Sym { path, .. } => path,
        }
    }

    /// The recorded modification time in seconds since the epoch, if any.
    pub fn mtime(&self) -> (r: Option<u64>)
        ensures
            r == self@.mtime(),
    {
        match self {
            Entry::Dir { .. } => None,
            Entry::File { mtime, .. } => Some(*mtime),
            Entry::Sym { mtime, .. } => Some(*mtime),
        }
    }
}

/// The record key `type`.
pub fn key_type() -> (r: Vec<u8>)
    ensures
        r@ == lit_type(),
{
    let mut v: Vec<u8> = Vec::new();
    v.push(116);
    v.push(121);
    v.push(112);
    v.push(101);
    assert(v@ =~= lit_type());
    v
}

/// The record key `path`.
pub fn key_path() -> (r: Vec<u8>)
    ensures
        r@ == lit_path(),
{
    let mut v: Vec<u8> = Vec::new();
    v.push(112);
    v.push(97);
    v.push(116);
    v.push(104);
    assert(v@ =~= lit_path());
    v
}

/// The record key `md5`.
pub fn key_md5() -> (r: Vec<u8>)
    ensures
        r@ == lit_md5(),
{
    let mut v: Vec<u8> = Vec::new();
    v.push(109);
    v.push(100);
    v.push(53);
    assert(v@ =~= lit_md5());
    v
}

/// The record key `mtime`.
pub fn key_mtime() -> (r: Vec<u8>)
    ensures
        r@ == lit_mtime(),
{
    let mut v: Vec<u8> = Vec::new();
    v.push(109);
    v.push(116);
    v.push(105);
    v.push(109);
    v.push(101);
    assert(v@ =~= lit_mtime());
    v
}

/// The record key `target`.
pub fn key_target() -> (r: Vec<u8>)
    ensures
        r@ == lit_target(),
{
    let mut v: Vec<u8> = Vec::new();
    v.push(116);
    v.push(97);
    v.push(114);
    v.push(103);
    v.push(101);
    v.push(116);
    assert(v@ =~= lit_target());
    v
}

/// The type tag `dir`.
pub fn tag_dir() -> (r: Vec<u8>)
    ensures
        r@ == lit_dir(),
{
    let mut v: Vec<u8> = Vec::new();
    v.push(100);
    v.push(105);
    v.push(114);
    assert(v@ =~= lit_dir());
    v
}

/// The type tag `file`.
pub fn tag_file() -> (r: Vec<u8>)
    ensures
        r@ == lit_file(),
{
    let mut v: Vec<u8> = Vec::new();
    v.push(102);
    v.push(105);
    v.push(108);
    v.push(101);
    assert(v@ =~= lit_file());
    v
}

/// The type tag `sym`.
pub fn tag_sym() -> (r: Vec<u8>)
    ensures
        r@ == lit_sym(),
{
    let mut v: Vec<u8> = Vec::new();
    v.push(115);
    v.push(121);
    v.push(109);
    assert(v@ =~= lit_sym());
    v
}

/// Copies a byte vector.
pub fn clone_bytes(a: &Vec<u8>) -> (r: Vec<u8>)
    ensures
        r@ == a@,
{
    let n: usize = a.len();
    let mut r: Vec<u8> = Vec::new();
    let mut i: usize = 0;
    while i < n
        invariant
            n == a@.len(),
            0 <= i <= n,
            r@ == a@.take(i as int),
        decreases n - i,
    {
        r.push(a[i]);
        assert(r@ =~= a@.take(i + 1));
        i = i + 1;
    }
    assert(r@ =~= a@);
    r
}

/// Compares two byte vectors for equality of contents.
pub fn bytes_eq(a: &Vec<u8>, b: &Vec<u8>) -> (r: bool)
    ensures
        r == (a@ == b@),
{
    if a.len() != b.len() {
        assert(a@ != b@) by {
            assert(a@.len() != b@.len());
        }
        return false;
    }
    let n: usize = a.len();
    let mut i: usize = 0;
    while i < n
        invariant
            n == a@.len() && n == b@.len(),
            0 <= i <= n,
            forall|j: int| 0 <= j < i ==> a@[j] == b@[j],
        decreases n - i,
    {
        if a[i] != b[i] {
            return false;
        }
        i = i + 1;
    }
    assert(a@ =~= b@);
    true
}

/// Compares two key/value lists for equality of contents.
pub fn pairs_eq(a: &Vec<(Vec<u8>, Vec<u8>)>, b: &Vec<(Vec<u8>, Vec<u8>)>) -> (r: bool)
    ensures
        r == (pairs_view(a@) == pairs_view(b@)),
{
    if a.len() != b.len() {
        assert(pairs_view(a@).len() != pairs_view(b@).len());
        return false;
    }
    let n: usize = a.len();
    let mut i: usize = 0;
    while i < n
        invariant
            n == a@.len() && n == b@.len(),
            0 <= i <= n,
            forall|j: int| 0 <= j < i ==> pairs_view(a@)[j] == pairs_view(b@)[j],
        decreases n - i,
    {
        if !bytes_eq(&a[i].0, &b[i].0) || !bytes_eq(&a[i].1, &b[i].1) {
            assert(pairs_view(a@)[i as int] != pairs_view(b@)[i as int]);
            return false;
        }
        assert(pairs_view(a@)[i as int] == pairs_view(b@)[i as int]);
        i = i + 1;
    }
    assert(pairs_view(a@) =~= pairs_view(b@));
    true
}

impl PartialEq for Entry {
    /// Entries are equal when their models are equal.
    fn eq(&self, other: &Entry) -> (r: bool)
    {
        match (self, other) {
            (Entry::Dir { path: p1 }, Entry::Dir { path: p2 }) => bytes_eq(p1, p2),
            (
                Entry::File { path: p1, md5: m1, mtime: t1, extra: e1 },
                Entry::File { path: p2, md5: m2, mtime: t2, extra: e2 },
            ) => bytes_eq(p1, p2) && bytes_eq(m1, m2) && *t1 == *t2 && pairs_eq(e1, e2),
            (
                Entry::Sym { path: p1, target: g1, mtime: t1, extra: e1 },
                Entry::Sym { path: p2, target: g2, mtime: t2, extra: e2 },
            ) => bytes_eq(p1, p2) && bytes_eq(g1, g2) && *t1 == *t2 && pairs_eq(e1, e2),
            _ => false,
        }
    }
}

impl vstd::std_specs::cmp::PartialEqSpecImpl for Entry {
    open spec fn obeys_eq_spec() -> bool {
        true
    }

    open spec fn eq_spec(&self, other: &Entry) -> bool {
        self@ == other@
    }
}

} // verus!
