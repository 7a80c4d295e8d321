//! NDBAM: a content-manifest database for installed software packages.
//!
//! The crate models manifests as sequences of [`contents::Entry`] values,
//! provides a binary-safe line codec for them, a virtual-root path layer,
//! and the decision logic of the merge and verification engines.  All
//! paths are raw bytes; directory probing, file reading and renaming are
//! the caller's business.

use vstd::prelude::*;

pub mod checker;
pub mod contents;
pub mod merger;
pub mod utils;

use crate::contents::writer::ContentsWriter;
use crate::contents::clone_bytes;
use crate::merger::after_last_sep;
use crate::merger::find_after_last_sep;
use crate::merger::parent_of;

verus! {

/// Handle of an NDBAM database rooted at a filesystem location.
///
/// The location is kept as a raw byte path; all directory probing is left
/// to the caller.
pub struct NDBAM {
    location: Vec<u8>,
}

/// The path infix between a database location and its package name
/// directories.
pub open spec fn lit_data_infix() -> Seq<u8> {
    seq![47u8, 100u8, 97u8, 116u8, 97u8, 47u8]
}

/// A package name with every `/` written as `---`, the form used for its
/// directory name.
pub open spec fn spec_escape_name(n: Seq<u8>) -> Seq<u8>
    decreases n.len(),
{
    if n.len() == 0 {
        Seq::empty()
    } else if n[0] == 47 {
        seq![45u8, 45u8, 45u8] + spec_escape_name(n.skip(1))
    } else {
        seq![n[0]] + spec_escape_name(n.skip(1))
    }
}

/// A directory name read back as a package name: every `---` becomes `/`.
pub open spec fn spec_unescape_name(n: Seq<u8>) -> Seq<u8>
    decreases n.len(),
{
    if n.len() == 0 {
        Seq::empty()
    } else if n.len() >= 3 && n[0] == 45 && n[1] == 45 && n[2] == 45 {
        seq![47u8] + spec_unescape_name(n.skip(3))
    } else {
        seq![n[0]] + spec_unescape_name(n.skip(1))
    }
}

/// The directory that holds a package's versions.
pub open spec fn spec_versions_path(location: Seq<u8>, name: Seq<u8>) -> Seq<u8> {
    location + lit_data_infix() + spec_escape_name(name)
}

impl NDBAM {
    /// Spec view of the database location.
    pub closed spec fn location_view(&self) -> Seq<u8> {
        self.location@
    }

    /// Opens a database at `location`.  Callers are expected to have
    /// checked that the location holds an `ndbam.conf` marker file.
    pub fn new(location: Vec<u8>) -> (r: NDBAM)
        ensures
            r.location_view() == location@,
    {
        NDBAM { location }
    }

    /// The directory that holds the named package's versions.
    pub fn versions_path(&self, name: &Vec<u8>) -> (r: Vec<u8>)
        ensures
            r@ == spec_versions_path(self.location_view(), name@),
    {
        let mut out = clone_bytes(&self.location);
        out.push(47);
        out.push(100);
        out.push(97);
        out.push(116);
        out.push(97);
        out.push(47);
        proof {
            assert(out@ =~= self.location@ + lit_data_infix());
        }
        let ghost mid = out@;
        let n: usize = name.len();
        let mut i: usize = 0;
        proof {
            assert(name@.skip(0) =~= name@);
        }
        while i < n
            invariant
                n == name@.len(),
                0 <= i <= n,
                out@ + spec_escape_name(name@.skip(i as int)) == mid + spec_escape_name(name@),
            decreases n - i,
        {
            let ghost rest = name@.skip(i as int);
            proof {
                assert(rest[0] == name@[i as int]);
                assert(rest.skip(1) =~= name@.skip(i + 1));
            }
            let b = name[i];
            if b == 47 {
                out.push(45);
                out.push(45);
                out.push(45);
                proof {
                    assert(spec_escape_name(rest) == seq![45u8, 45u8, 45u8] + spec_escape_name(
                        rest.skip(1),
                    ));
                    assert(out@ + spec_escape_name(name@.skip(i + 1)) =~= mid + spec_escape_name(
                        name@,
                    ));
                }
            } else {
                out.push(b);
                proof {
                    assert(spec_escape_name(rest) == seq![rest[0]] + spec_escape_name(
                        rest.skip(1),
                    ));
                    assert(out@ + spec_escape_name(name@.skip(i + 1)) =~= mid + spec_escape_name(
                        name@,
                    ));
                }
            }
            i = i + 1;
        }
        proof {
            assert(name@.skip(n as int) =~= Seq::<u8>::empty());
            assert(spec_escape_name(Seq::<u8>::empty()) =~= Seq::<u8>::empty());
            assert(out@ =~= spec_versions_path(self.location@, name@));
        }
        out
    }
}

/// One installed package version: the directory that holds its manifest
/// and scalar metadata, named `<version>:<slot>:<cookie>` under the
/// escaped package name.
pub struct PackageView {
    location: Vec<u8>,
}

/// The file name of a path: everything after its last separator.
pub open spec fn spec_file_name(p: Seq<u8>) -> Seq<u8> {
    p.skip(after_last_sep(p))
}

/// The index of the first `:` at or after `i`, or the length when none.
pub open spec fn colon_from(p: Seq<u8>, i: int) -> int
    decreases p.len() - i,
{
    if i < 0 || i >= p.len() {
        p.len() as int
    } else if p[i] == 58 {
        i
    } else {
        colon_from(p, i + 1)
    }
}

/// The package name a version directory belongs to.
pub open spec fn spec_package_name(location: Seq<u8>) -> Seq<u8> {
    spec_unescape_name(spec_file_name(parent_of(location)))
}

/// The version field of a version directory's name: up to the first `:`.
pub open spec fn spec_package_version(location: Seq<u8>) -> Seq<u8> {
    spec_file_name(location).subrange(0, colon_from(spec_file_name(location), 0))
}

/// The slot field of a version directory's name: between the first and
/// second `:`, absent when the name holds no `:` at all.
pub open spec fn spec_package_slot(location: Seq<u8>) -> Option<Seq<u8>> {
    let f = spec_file_name(location);
    let c1 = colon_from(f, 0);
    if c1 == f.len() {
        None
    } else {
        Some(f.subrange(c1 + 1, colon_from(f, c1 + 1)))
    }
}

/// The first colon is within the string.
proof fn lemma_colon_from_bounds(p: Seq<u8>, i: int)
    requires
        0 <= i <= p.len(),
    ensures
        i <= colon_from(p, i) <= p.len(),
    decreases p.len() - i,
{
    if i < p.len() && p[i] != 58 {
        lemma_colon_from_bounds(p, i + 1);
    }
}

/// Finds the first `:` at or after `from`, or the length when none.
fn find_colon(p: &Vec<u8>, from: usize) -> (r: usize)
    requires
        from <= p@.len(),
    ensures
        r == colon_from(p@, from as int),
        from <= r <= p@.len(),
{
    let n: usize = p.len();
    let mut i: usize = from;
    while i < n && p[i] != 58
        invariant
            n == p@.len(),
            from <= i <= n,
            colon_from(p@, from as int) == colon_from(p@, i as int),
        decreases n - i,
    {
        i = i + 1;
    }
    proof {
        lemma_colon_from_bounds(p@, i as int);
    }
    i
}

/// Copies `p[from..to]`.
fn copy_range(p: &Vec<u8>, from: usize, to: usize) -> (r: Vec<u8>)
    requires
        from <= to <= p@.len(),
    ensures
        r@ == p@.subrange(from as int, to as int),
{
    let mut out: Vec<u8> = Vec::new();
    let mut i: usize = from;
    while i < to
        invariant
            from <= i <= to <= p@.len(),
            out@ == p@.subrange(from as int, i as int),
        decreases to - i,
    {
        out.push(p[i]);
        assert(out@ =~= p@.subrange(from as int, i + 1));
        i = i + 1;
    }
    out
}

impl PackageView {
    /// Spec view of the version directory.
    pub closed spec fn location_view(&self) -> Seq<u8> {
        self.location@
    }

    /// Wraps the version directory at `location`.
    pub fn from_location(location: Vec<u8>) -> (r: PackageView)
        ensures
            r.location_view() == location@,
    {
        PackageView { location }
    }

    /// The version directory this view stands for.
    pub fn location(&self) -> (r: &Vec<u8>)
        ensures
            r@ == self.location_view(),
    {
        &self.location
    }

    /// The package name this version belongs to.
    pub fn name(&self) -> (r: Vec<u8>)
        ensures
            r@ == spec_package_name(self.location_view()),
    {
        let cut = find_after_last_sep(&self.location);
        proof {
            crate::merger::lemma_after_last_sep_bounds(self.location@);
        }
        let parent: Vec<u8> = if cut <= 1 {
            let mut v: Vec<u8> = Vec::new();
            v.push(47);
            assert(v@ =~= seq![47u8]);
            v
        } else {
            let p = copy_range(&self.location, 0, cut - 1);
            assert(p@ =~= self.location@.take(cut - 1));
            p
        };
        assert(parent@ == parent_of(self.location@));
        let cut2 = find_after_last_sep(&parent);
        proof {
            crate::merger::lemma_after_last_sep_bounds(parent@);
        }
        let parent_len: usize = parent.len();
        let dirname = copy_range(&parent, cut2, parent_len);
        proof {
            assert(dirname@ =~= spec_file_name(parent@));
        }
        // read `---` back as `/`
        let n: usize = dirname.len();
        let mut out: Vec<u8> = Vec::new();
        let mut i: usize = 0;
        proof {
            assert(dirname@.skip(0) =~= dirname@);
            assert(out@ =~= Seq::<u8>::empty());
        }
        while i < n
            invariant
                n == dirname@.len(),
                0 <= i <= n,
                out@ + spec_unescape_name(dirname@.skip(i as int)) == spec_unescape_name(dirname@),
            decreases n - i,
        {
            let ghost rest = dirname@.skip(i as int);
            proof {
                assert(rest[0] == dirname@[i as int]);
                assert(rest.skip(1) =~= dirname@.skip(i + 1));
            }
            if n - i >= 3 && dirname[i] == 45 && dirname[i + 1] == 45 && dirname[i + 2] == 45 {
                proof {
                    assert(rest[1] == dirname@[i + 1] && rest[2] == dirname@[i + 2]);
                    assert(rest.skip(3) =~= dirname@.skip(i + 3));
                    assert(spec_unescape_name(rest) == seq![47u8] + spec_unescape_name(
                        rest.skip(3),
                    ));
                }
                out.push(47);
                proof {
                    assert(out@ + spec_unescape_name(dirname@.skip(i + 3)) =~= spec_unescape_name(
                        dirname@,
                    ));
                }
                i = i + 3;
            } else {
                proof {
                    assert(spec_unescape_name(rest) == seq![rest[0]] + spec_unescape_name(
                        rest.skip(1),
                    ));
                }
                out.push(dirname[i]);
                proof {
                    assert(out@ + spec_unescape_name(dirname@.skip(i + 1)) =~= spec_unescape_name(
                        dirname@,
                    ));
                }
                i = i + 1;
            }
        }
        proof {
            assert(dirname@.skip(n as int) =~= Seq::<u8>::empty());
            assert(out@ =~= spec_unescape_name(dirname@));
        }
        out
    }

    /// The version field of this version directory.
    pub fn version(&self) -> (r: Vec<u8>)
        ensures
            r@ == spec_package_version(self.location_view()),
    {
        let cut = find_after_last_sep(&self.location);
        proof {
            crate::merger::lemma_after_last_sep_bounds(self.location@);
        }
        let loc_len: usize = self.location.len();
        let fname = copy_range(&self.location, cut, loc_len);
        proof {
            assert(fname@ =~= spec_file_name(self.location@));
        }
        let c1 = find_colon(&fname, 0);
        copy_range(&fname, 0, c1)
    }

    /// The slot field of this version directory, absent when its name
    /// holds no `:`.
    pub fn slot(&self) -> (r: Option<Vec<u8>>)
        ensures
            match r {
                Some(s) => spec_package_slot(self.location_view()) == Some(s@),
                None => spec_package_slot(self.location_view()) is None,
            },
    {
        let cut = find_after_last_sep(&self.location);
        proof {
            crate::merger::lemma_after_last_sep_bounds(self.location@);
        }
        let loc_len: usize = self.location.len();
        let fname = copy_range(&self.location, cut, loc_len);
        proof {
            assert(fname@ =~= spec_file_name(self.location@));
        }
        let c1 = find_colon(&fname, 0);
        if c1 == fname.len() {
            return None;
        }
        let c2 = find_colon(&fname, c1 + 1);
        Some(copy_range(&fname, c1 + 1, c2))
    }

    /// `name-version`, the form reports print.
    pub fn full_name(&self) -> (r: Vec<u8>)
        ensures
            r@ == spec_package_name(self.location_view()) + seq![45u8] + spec_package_version(
                self.location_view(),
            ),
    {
        let mut out = self.name();
        let ghost nm = out@;
        out.push(45);
        let v = self.version();
        let m: usize = v.len();
        let mut i: usize = 0;
        proof {
            assert(out@ =~= nm + seq![45u8]);
        }
        let ghost mid = out@;
        while i < m
            invariant
                m == v@.len(),
                0 <= i <= m,
                out@ == mid + v@.take(i as int),
            decreases m - i,
        {
            out.push(v[i]);
            assert(out@ =~= mid + v@.take(i + 1));
            i = i + 1;
        }
        proof {
            assert(out@ =~= nm + seq![45u8] + v@);
        }
        out
    }

    /// The manifest file of this version directory.
    pub fn contents_path(&self) -> (r: Vec<u8>)
        ensures
            r@ == self.location_view() + seq![
                47u8,
                99u8,
                111u8,
                110u8,
                116u8,
                101u8,
                110u8,
                116u8,
                115u8,
            ],
    {
        let mut out = clone_bytes(&self.location);
        out.push(47);
        out.push(99);
        out.push(111);
        out.push(110);
        out.push(116);
        out.push(101);
        out.push(110);
        out.push(116);
        out.push(115);
        proof {
            assert(out@ =~= self.location@ + seq![
                47u8,
                99u8,
                111u8,
                110u8,
                116u8,
                101u8,
                110u8,
                116u8,
                115u8,
            ]);
        }
        out
    }

    /// A fresh manifest writer for this package version.  The caller
    /// commits the accumulated bytes onto [`Self::contents_path`]
    /// atomically.
    pub fn content_writer(&self) -> (r: ContentsWriter)
        ensures
            r.buf_view() == Seq::<u8>::empty(),
    {
        ContentsWriter::new()
    }
}

} // verus!
