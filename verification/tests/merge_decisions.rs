//! The merge engine's decision core, driven over a simulated image.

use ndbam::contents::parser::parse_entry;
use ndbam::contents::writer::ContentsWriter;
use ndbam::contents::Entry;
use ndbam::merger::dir_merge_action;
use ndbam::merger::file_merge_action;
use ndbam::merger::resolve_target;
use ndbam::merger::symlink_target_check;
use ndbam::merger::DestStat;
use ndbam::merger::DirAction;
use ndbam::merger::MergeError;
use ndbam::merger::NodeInfo;
use ndbam::merger::NodeKind;
use ndbam::utils::hashing::file_hash;
use ndbam::utils::virtual_root::root_at_buf;

const HELLO_MD5: &[u8] = b"5d41402abc4b2a76b9719d911017c592";

#[test]
fn md5_digest_has_known_values() {
    // the digest is computed, never echoed back
    assert_eq!(file_hash(&Vec::new()), b"d41d8cd98f00b204e9800998ecf8427e".to_vec());
    assert_eq!(file_hash(&b"hello".to_vec()), HELLO_MD5.to_vec());
}

#[test]
fn merge_of_directory_and_file_records_two_entries() {
    // an image holding the directory /etc and the file /etc/app.conf,
    // merged into an empty root
    let image = root_at_buf(b"/stage/img".to_vec());
    let mut manifest = ContentsWriter::new();

    let dir_entry = Entry::from_path(
        &b"/stage/img/etc".to_vec(),
        &image,
        NodeInfo { kind: NodeKind::Dir, mtime: 100 },
    )
    .unwrap();
    manifest.write_entry(&dir_entry);
    // the destination is absent in an empty root: one whole-subtree
    // rename is attempted
    assert_eq!(dir_merge_action(None, 0o755), Ok(DirAction::TryRename));

    let file_entry = Entry::from_path(
        &b"/stage/img/etc/app.conf".to_vec(),
        &image,
        NodeInfo { kind: NodeKind::File { content: b"hello".to_vec() }, mtime: 200 },
    )
    .unwrap();
    manifest.write_entry(&file_entry);
    assert_eq!(file_merge_action(false), Ok(()));

    let bytes = manifest.into_inner();
    let lines: Vec<&[u8]> = bytes.split(|b| *b == b'\n').filter(|l| !l.is_empty()).collect();
    assert_eq!(lines.len(), 2);
    assert!(parse_entry(&lines[0].to_vec()).unwrap() == Entry::Dir { path: b"/etc".to_vec() });
    let parsed = parse_entry(&lines[1].to_vec()).unwrap();
    assert!(
        parsed == Entry::File {
            path: b"/etc/app.conf".to_vec(),
            md5: HELLO_MD5.to_vec(),
            mtime: 200,
            extra: Vec::new(),
        }
    );
}

#[test]
fn from_path_rejects_nodes_outside_the_root() {
    let image = root_at_buf(b"/stage/img".to_vec());
    assert!(Entry::from_path(
        &b"/elsewhere/etc".to_vec(),
        &image,
        NodeInfo { kind: NodeKind::Dir, mtime: 0 },
    )
    .is_err());
}

#[test]
fn from_path_records_symlinks_with_their_target() {
    let image = root_at_buf(b"/stage/img".to_vec());
    let entry = Entry::from_path(
        &b"/stage/img/usr/lib/libam.so".to_vec(),
        &image,
        NodeInfo { kind: NodeKind::Sym { target: b"libam.so.1".to_vec() }, mtime: 3 },
    )
    .unwrap();
    assert!(
        entry == Entry::Sym {
            path: b"/usr/lib/libam.so".to_vec(),
            target: b"libam.so.1".to_vec(),
            mtime: 3,
            extra: Vec::new(),
        }
    );
}

#[test]
fn existing_directory_destinations_must_match() {
    let same = DestStat { is_dir: true, mode: 0o755 };
    assert_eq!(dir_merge_action(Some(&same), 0o755), Ok(DirAction::UseExisting));

    let not_dir = DestStat { is_dir: false, mode: 0o755 };
    assert_eq!(dir_merge_action(Some(&not_dir), 0o755), Err(MergeError::TypeConflict));

    let other_mode = DestStat { is_dir: true, mode: 0o700 };
    assert_eq!(dir_merge_action(Some(&other_mode), 0o755), Err(MergeError::PermissionConflict));
}

#[test]
fn file_collisions_are_fatal() {
    assert_eq!(file_merge_action(true), Err(MergeError::DestinationExists));
}

#[test]
fn symlink_targets_resolve_against_their_parent() {
    assert_eq!(
        resolve_target(&b"/usr/lib/libam.so".to_vec(), &b"libam.so.1".to_vec()),
        b"/usr/lib/libam.so.1".to_vec()
    );
    assert_eq!(
        resolve_target(&b"/usr/lib/libam.so".to_vec(), &b"/abs/target".to_vec()),
        b"/abs/target".to_vec()
    );
    assert_eq!(resolve_target(&b"/top".to_vec(), &b"rel".to_vec()), b"/rel".to_vec());
}

#[test]
fn symlink_legitimacy_rules() {
    // resolvable under the root, not into the image: fine
    assert_eq!(symlink_target_check(true, false, false), Ok(()));
    // resolvable under the root but back into the image: fatal
    assert_eq!(symlink_target_check(true, true, false), Err(MergeError::SymlinkIntoImage));
    // unresolvable under the root but still staged in the image: fine
    assert_eq!(symlink_target_check(false, false, true), Ok(()));
    // pointing nowhere at all: fatal
    assert_eq!(
        symlink_target_check(false, false, false),
        Err(MergeError::UnresolvableSymlink)
    );
}
