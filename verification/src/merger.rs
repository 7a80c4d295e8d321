//! The merge engine's decision core: building manifest entries for staged
//! nodes, validating symlink targets, and ruling on collisions.
//!
//! The engine walks a staged image tree depth-first.  The walking, the
//! renames and the permission changes are filesystem work left to the
//! caller; every decision about them is taken here.  Conflicts are fatal
//! by design: no reconciliation policy exists yet.

use vstd::prelude::*;

use crate::contents::Entry;
use crate::contents::EntryV;
use crate::utils::hashing::file_hash;
use crate::utils::hashing::spec_file_hash;
use crate::utils::virtual_root::PathError;
use crate::utils::virtual_root::RootPath;
use crate::utils::virtual_root::inner_of;
use crate::utils::virtual_root::is_abs;
use crate::utils::virtual_root::path_join;

verus! {

/// What the caller observed about one staged filesystem node.
#[derive(Debug)]
pub enum NodeKind {
    /// A directory.
    Dir,
    /// A regular file and its content bytes.
    File { content: Vec<u8> },
    /// A symbolic link and its target.
    Sym { target: Vec<u8> },
}

/// Model of a [`NodeKind`].
pub enum NodeKindV {
    Dir,
    File { content: Seq<u8> },
    Sym { target: Seq<u8> },
}

impl View for NodeKind {
    type V = NodeKindV;

    open spec fn view(&self) -> NodeKindV {
        match self {
            NodeKind::Dir => NodeKindV::Dir,
            NodeKind::File { content } => NodeKindV::File { content: content@ },
            NodeKind::Sym { target } => NodeKindV::Sym { target: target@ },
        }
    }
}

/// A staged node: its kind and its modification time in seconds.
#[derive(Debug)]
pub struct NodeInfo {
    pub kind: NodeKind,
    pub mtime: u64,
}

/// The entry that describes a staged node at the given inner path: files
/// get their content digest, nothing gets preserved keys yet.
pub open spec fn spec_entry_from(inner: Seq<u8>, kind: NodeKindV, mtime: u64) -> EntryV {
    match kind {
        NodeKindV::Dir => EntryV::Dir { path: inner },
        NodeKindV::File { content } => EntryV::File {
            path: inner,
            md5: spec_file_hash(content),
            mtime,
            extra: Seq::empty(),
        },
        NodeKindV::Sym { target } => EntryV::Sym { path: inner, target, mtime, extra: Seq::empty() },
    }
}

impl Entry {
    /// Synthesizes the manifest entry for the staged node at `real_path`,
    /// in inner-path form relative to `root`.  Fails when the real path
    /// does not fall under the root.
    pub fn from_path<R: RootPath>(real_path: &Vec<u8>, root: &R, node: NodeInfo) -> (r: Result<
        Entry,
        PathError,
    >)
        ensures
            match r {
                Ok(e) => inner_of(root.real_root_view(), real_path@) is Some && e@
                    == spec_entry_from(
                    inner_of(root.real_root_view(), real_path@).unwrap(),
                    node.kind@,
                    node.mtime,
                ),
                Err(_) => inner_of(root.real_root_view(), real_path@) is None,
            },
    {
        let path = match root.inner_path(real_path) {
            Ok(p) => p,
            Err(e) => {
                return Err(e);
            },
        };
        let mtime = node.mtime;
        match node.kind {
            NodeKind::Dir => Ok(Entry::Dir { path }),
            NodeKind::File { content } => {
                let md5 = file_hash(&content);
                proof {
                    assert(crate::contents::pairs_view(Seq::<(Vec<u8>, Vec<u8>)>::empty()) =~= Seq::<
                        (Seq<u8>, Seq<u8>),
                    >::empty());
                }
                Ok(Entry::File { path, md5, mtime, extra: Vec::new() })
            },
            NodeKind::Sym { target } => {
                proof {
                    assert(crate::contents::pairs_view(Seq::<(Vec<u8>, Vec<u8>)>::empty()) =~= Seq::<
                        (Seq<u8>, Seq<u8>),
                    >::empty());
                }
                Ok(Entry::Sym { path, target, mtime, extra: Vec::new() })
            },
        }
    }
}

/// The index just past the last separator of `p`, or 0 when none.
pub open spec fn after_last_sep(p: Seq<u8>) -> int
    decreases p.len(),
{
    if p.len() == 0 {
        0
    } else if p.last() == 47 {
        p.len() as int
    } else {
        after_last_sep(p.drop_last())
    }
}

/// An absolute path holds a separator, so the index past the last one is
/// positive.
proof fn lemma_after_last_sep_pos(p: Seq<u8>)
    requires
        p.len() > 0,
        p[0] == 47,
    ensures
        after_last_sep(p) >= 1,
    decreases p.len(),
{
    if p.last() != 47 {
        assert(p.len() > 1);
        assert(p.drop_last()[0] == 47);
        lemma_after_last_sep_pos(p.drop_last());
    }
}

/// The index past the last separator never leaves the string.
pub proof fn lemma_after_last_sep_bounds(p: Seq<u8>)
    ensures
        0 <= after_last_sep(p) <= p.len(),
    decreases p.len(),
{
    if p.len() > 0 && p.last() != 47 {
        lemma_after_last_sep_bounds(p.drop_last());
    }
}

/// Finds the index just past the last separator of `p`, or 0 when none.
pub fn find_after_last_sep(p: &Vec<u8>) -> (r: usize)
    ensures
        r == after_last_sep(p@),
{
    let n: usize = p.len();
    let mut cut: usize = n;
    proof {
        assert(p@.take(n as int) =~= p@);
    }
    while cut > 0 && p[cut - 1] != 47
        invariant
            n == p@.len(),
            0 <= cut <= n,
            after_last_sep(p@) == after_last_sep(p@.take(cut as int)),
        decreases cut,
    {
        proof {
            assert(p@.take(cut as int).last() != 47);
            assert(p@.take(cut as int).drop_last() =~= p@.take(cut - 1));
        }
        cut = cut - 1;
    }
    proof {
        if cut > 0 {
            assert(p@.take(cut as int).last() == 47);
            assert(after_last_sep(p@.take(cut as int)) == cut);
        } else {
            assert(p@.take(0) =~= Seq::<u8>::empty());
        }
    }
    cut
}

/// The parent of an absolute inner path: everything before its last
/// separator, the root itself at least.
pub open spec fn parent_of(p: Seq<u8>) -> Seq<u8> {
    if after_last_sep(p) <= 1 {
        seq![47u8]
    } else {
        p.take(after_last_sep(p) - 1)
    }
}

/// The absolute inner form of a symlink's target: an absolute target
/// stands as it is, a relative one is joined against the symlink's parent
/// inner path.
pub open spec fn spec_resolve_target(path: Seq<u8>, target: Seq<u8>) -> Seq<u8> {
    if is_abs(target) {
        target
    } else {
        path_join(parent_of(path), target)
    }
}

/// Resolves a symlink target to absolute inner form.  The root itself
/// cannot be a symlink, so the path has a parent.
pub fn resolve_target(path: &Vec<u8>, target: &Vec<u8>) -> (r: Vec<u8>)
    requires
        is_abs(path@),
    ensures
        r@ == spec_resolve_target(path@, target@),
{
    if target.len() > 0 && target[0] == 47 {
        return crate::contents::clone_bytes(target);
    }
    // find the parent: everything before the last separator
    let n: usize = path.len();
    let mut cut: usize = n;
    proof {
        assert(path@.take(n as int) =~= path@);
    }
    while cut > 0 && path[cut - 1] != 47
        invariant
            n == path@.len(),
            0 <= cut <= n,
            after_last_sep(path@) == after_last_sep(path@.take(cut as int)),
        decreases cut,
    {
        proof {
            assert(path@.take(cut as int).last() != 47);
            assert(path@.take(cut as int).drop_last() =~= path@.take(cut - 1));
        }
        cut = cut - 1;
    }
    proof {
        if cut > 0 {
            assert(path@.take(cut as int).last() == 47);
            assert(after_last_sep(path@.take(cut as int)) == cut);
        } else {
            assert(path@.take(0) =~= Seq::<u8>::empty());
            assert(after_last_sep(path@) == 0);
            lemma_after_last_sep_pos(path@);
            assert(false);
        }
    }
    let mut out: Vec<u8> = Vec::new();
    if cut == 1 {
        out.push(47);
        assert(out@ =~= seq![47u8]);
        assert(parent_of(path@) == seq![47u8]);
    } else {
        let mut i: usize = 0;
        while i < cut - 1
            invariant
                cut <= path@.len(),
                cut >= 2,
                0 <= i <= cut - 1,
                out@ == path@.take(i as int),
            decreases cut - i,
        {
            out.push(path[i]);
            assert(out@ =~= path@.take(i + 1));
            i = i + 1;
        }
        assert(out@ == parent_of(path@));
    }
    // join the relative target onto the parent
    let parent_is_root = out.len() == 1;
    proof {
        if parent_is_root {
            assert(out@ =~= seq![47u8]);
        } else {
            if out@ == seq![47u8] {
                assert(out@.len() == 1);
            }
        }
    }
    if !parent_is_root {
        out.push(47);
    }
    let m: usize = target.len();
    let ghost mid = out@;
    let mut j: usize = 0;
    while j < m
        invariant
            m == target@.len(),
            0 <= j <= m,
            out@ == mid + target@.take(j as int),
        decreases m - j,
    {
        out.push(target[j]);
        assert(out@ =~= mid + target@.take(j + 1));
        j = j + 1;
    }
    proof {
        assert(out@ =~= path_join(parent_of(path@), target@));
    }
    out
}

/// Why a merge aborts: conflicts are fatal by design.
#[derive(Clone, Copy, PartialEq, Eq, Structural, Debug)]
pub enum MergeError {
    /// The target exists but is no directory.
    TypeConflict,
    /// The target directory's permission bits differ from the staged
    /// directory's.
    PermissionConflict,
    /// The file or symlink destination already exists.
    DestinationExists,
    /// A symlink target resolvable under the root points back into the
    /// staging image it is leaving.
    SymlinkIntoImage,
    /// A symlink target resolves neither under the root nor inside the
    /// image.
    UnresolvableSymlink,
}

/// What to do for a staged directory at its merge destination.
#[derive(Clone, Copy, PartialEq, Eq, Structural, Debug)]
pub enum DirAction {
    /// The destination already is a matching directory: descend normally.
    UseExisting,
    /// The destination is absent: attempt one whole-subtree rename; on
    /// success record every descendant in the manifest and skip
    /// descending, on failure create the directory, copy its permission
    /// bits and descend.
    TryRename,
}

/// What a stat of the merge destination showed: whether it is a
/// directory, and its permission bits.
#[derive(Clone, Copy, Debug)]
pub struct DestStat {
    pub is_dir: bool,
    pub mode: u32,
}

/// Rules on a staged directory: an existing destination must already be a
/// directory with identical permission bits, an absent one invites the
/// whole-subtree rename.
pub fn dir_merge_action(dest: Option<&DestStat>, source_mode: u32) -> (r: Result<
    DirAction,
    MergeError,
>)
    ensures
        r == (match dest {
            Some(d) => if !d.is_dir {
                Err::<DirAction, MergeError>(MergeError::TypeConflict)
            } else if d.mode != source_mode {
                Err::<DirAction, MergeError>(MergeError::PermissionConflict)
            } else {
                Ok::<DirAction, MergeError>(DirAction::UseExisting)
            },
            None => Ok::<DirAction, MergeError>(DirAction::TryRename),
        }),
{
    match dest {
        Some(d) => {
            if !d.is_dir {
                Err(MergeError::TypeConflict)
            } else if d.mode != source_mode {
                Err(MergeError::PermissionConflict)
            } else {
                Ok(DirAction::UseExisting)
            }
        },
        None => Ok(DirAction::TryRename),
    }
}

/// Rules on a staged symlink's target legitimacy.  When the target
/// canonicalizes under the root it must not fall back inside the image it
/// is leaving; when it does not, it must point to a still-staged,
/// existing object inside the image.
pub fn symlink_target_check(
    canon_under_root_ok: bool,
    merged_target_in_image: bool,
    exists_in_image: bool,
) -> (r: Result<(), MergeError>)
    ensures
        r == (if canon_under_root_ok {
            if merged_target_in_image {
                Err::<(), MergeError>(MergeError::SymlinkIntoImage)
            } else {
                Ok::<(), MergeError>(())
            }
        } else {
            if exists_in_image {
                Ok::<(), MergeError>(())
            } else {
                Err::<(), MergeError>(MergeError::UnresolvableSymlink)
            }
        }),
{
    if canon_under_root_ok {
        if merged_target_in_image {
            Err(MergeError::SymlinkIntoImage)
        } else {
            Ok(())
        }
    } else {
        if exists_in_image {
            Ok(())
        } else {
            Err(MergeError::UnresolvableSymlink)
        }
    }
}

/// Rules on a staged file or symlink destination: a pre-existing
/// destination is an unresolved collision, fatal by design.
pub fn file_merge_action(dest_exists: bool) -> (r: Result<(), MergeError>)
    ensures
        r == (if dest_exists {
            Err::<(), MergeError>(MergeError::DestinationExists)
        } else {
            Ok::<(), MergeError>(())
        }),
{
    if dest_exists {
        Err(MergeError::DestinationExists)
    } else {
        Ok(())
    }
}

} // verus!
