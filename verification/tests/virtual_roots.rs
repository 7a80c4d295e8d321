//! The virtual-root path layer and package naming.

use ndbam::utils::virtual_root::root_at_buf;
use ndbam::utils::virtual_root::AnyRoot;
use ndbam::utils::virtual_root::Canonicalizer;
use ndbam::utils::virtual_root::PathError;
use ndbam::utils::virtual_root::RootPath;
use ndbam::NDBAM;
use ndbam::PackageView;

#[test]
fn prefix_join_and_strip_are_inverses() {
    let root = root_at_buf(b"/mnt/image".to_vec());
    let real = root.real_path(&b"/etc/app.conf".to_vec()).unwrap();
    assert_eq!(real, b"/mnt/image/etc/app.conf".to_vec());
    let inner = root.inner_path(&real).unwrap();
    assert_eq!(inner, b"/etc/app.conf".to_vec());

    assert_eq!(root.real_path(&b"/".to_vec()).unwrap(), b"/mnt/image".to_vec());
    assert_eq!(root.inner_path(&b"/mnt/image".to_vec()).unwrap(), b"/".to_vec());

    assert_eq!(root.real_path(&b"relative".to_vec()), Err(PathError::NotAbsolute));
    assert_eq!(root.inner_path(&b"/elsewhere/x".to_vec()), Err(PathError::OutsideRoot));
    // a sibling whose name extends the prefix is still outside
    assert_eq!(root.inner_path(&b"/mnt/imagery/x".to_vec()), Err(PathError::OutsideRoot));
}

#[test]
fn host_root_maps_paths_to_themselves() {
    let root = AnyRoot::RealRoot;
    assert_eq!(root.real_path(&b"/etc".to_vec()).unwrap(), b"/etc".to_vec());
    assert_eq!(root.inner_path(&b"/etc".to_vec()).unwrap(), b"/etc".to_vec());
    assert_eq!(root.real_root(), b"/".to_vec());
    assert_eq!(root.inner_root(), b"/".to_vec());
}

#[test]
fn relative_from_inner_strips_the_anchor() {
    let root = root_at_buf(b"/r".to_vec());
    assert_eq!(root.relative_from_inner(&b"/a/b".to_vec()).unwrap(), b"a/b".to_vec());
    assert_eq!(root.relative_from_inner(&b"x".to_vec()), Err(PathError::NotAbsolute));
}

#[test]
fn canonicalize_walks_component_by_component() {
    let root = root_at_buf(b"/r".to_vec());
    let mut canon = Canonicalizer::start(&root, &b"/a/b/c".to_vec()).unwrap();
    assert!(!canon.done());
    assert_eq!(canon.advance(), b"/r/a".to_vec());
    canon.apply_link(None);
    assert_eq!(canon.advance(), b"/r/a/b".to_vec());
    canon.apply_link(None);
    assert_eq!(canon.advance(), b"/r/a/b/c".to_vec());
    canon.apply_link(None);
    assert!(canon.done());
    assert_eq!(canon.into_result(), b"/r/a/b/c".to_vec());
}

#[test]
fn absolute_link_resets_to_the_virtual_root() {
    // /a is a symlink to /x: resolution restarts from the real root, so
    // the link cannot escape to the host root
    let root = root_at_buf(b"/r".to_vec());
    let mut canon = Canonicalizer::start(&root, &b"/a/b".to_vec()).unwrap();
    assert_eq!(canon.advance(), b"/r/a".to_vec());
    canon.apply_link(Some(&b"/x".to_vec()));
    assert_eq!(canon.current(), b"/r/x".to_vec());
    assert_eq!(canon.advance(), b"/r/x/b".to_vec());
    canon.apply_link(None);
    assert!(canon.done());
    assert_eq!(canon.into_result(), b"/r/x/b".to_vec());
}

#[test]
fn relative_link_falls_through_to_host_resolution() {
    let root = root_at_buf(b"/r".to_vec());
    let mut canon = Canonicalizer::start(&root, &b"/a/b".to_vec()).unwrap();
    assert_eq!(canon.advance(), b"/r/a".to_vec());
    canon.apply_link(Some(&b"../sideways".to_vec()));
    // the accumulated path is untouched; the host's canonicalization
    // resolves the relative target later
    assert_eq!(canon.current(), b"/r/a".to_vec());
}

#[test]
fn versions_path_escapes_category_separators() {
    let db = NDBAM::new(b"/var/db/ndbam".to_vec());
    assert_eq!(
        db.versions_path(&b"dev-libs/glib".to_vec()),
        b"/var/db/ndbam/data/dev-libs---glib".to_vec()
    );
}

#[test]
fn package_view_fields_come_from_its_location() {
    let pkg = PackageView::from_location(
        b"/var/db/ndbam/data/dev-libs---glib/2.0:1:C.11.22.33.C".to_vec(),
    );
    assert_eq!(pkg.name(), b"dev-libs/glib".to_vec());
    assert_eq!(pkg.version(), b"2.0".to_vec());
    assert_eq!(pkg.slot(), Some(b"1".to_vec()));
    assert_eq!(pkg.full_name(), b"dev-libs/glib-2.0".to_vec());
    assert_eq!(
        pkg.contents_path(),
        b"/var/db/ndbam/data/dev-libs---glib/2.0:1:C.11.22.33.C/contents".to_vec()
    );
}

#[test]
fn slot_is_absent_without_a_colon() {
    let pkg = PackageView::from_location(b"/db/data/hello/0".to_vec());
    assert_eq!(pkg.version(), b"0".to_vec());
    assert_eq!(pkg.slot(), None);
}
