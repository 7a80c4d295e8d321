//! The verification engine against simulated filesystem observations.

use ndbam::checker::check_contents;
use ndbam::checker::check_entry;
use ndbam::checker::CanonOutcome;
use ndbam::checker::CheckOpts;
use ndbam::checker::Finding;
use ndbam::checker::LiveNode;
use ndbam::checker::LiveType;
use ndbam::checker::Observation;
use ndbam::checker::PathFilter;
use ndbam::checker::RunSummary;
use ndbam::checker::Stat;
use ndbam::contents::Entry;

const EMPTY_MD5: &[u8] = b"d41d8cd98f00b204e9800998ecf8427e";

fn opts_everything() -> CheckOpts {
    CheckOpts { allow_mtime: false, skip_integrity: false, filter: PathFilter::Everything }
}

fn found(kind: LiveType, mtime: u64, size: u64) -> Stat {
    Stat::Found(LiveNode { kind, mtime: Some(mtime), size })
}

fn empty_file_entry() -> Entry {
    Entry::File { path: b"/empty".to_vec(), md5: EMPTY_MD5.to_vec(), mtime: 5, extra: Vec::new() }
}

#[test]
fn zero_byte_file_counts_zero_and_no_problems() {
    let entry = empty_file_entry();
    let obs = Observation {
        stat: found(LiveType::RegularFile, 5, 0),
        content: Some(Ok(Vec::new())),
        link_target: None,
        canon: None,
    };
    let report = check_contents(&vec![entry], &vec![obs], &opts_everything());
    assert_eq!(report.size, 0);
    assert!(!report.any_problems);
    assert!(report.reports[0].findings.is_empty());
}

#[test]
fn changed_content_is_exactly_one_problem() {
    let entry = empty_file_entry();
    let obs = Observation {
        stat: found(LiveType::RegularFile, 5, 8),
        content: Some(Ok(b"tampered".to_vec())),
        link_target: None,
        canon: None,
    };
    let report = check_contents(&vec![entry], &vec![obs], &opts_everything());
    assert!(report.any_problems);
    assert_eq!(report.reports[0].findings.len(), 1);
    assert!(matches!(report.reports[0].findings[0], Finding::ContentChanged));
    assert_eq!(report.size, 0);
}

#[test]
fn mtime_only_change_passes_with_drift_allowed() {
    let entry = empty_file_entry();
    let obs = Observation {
        stat: found(LiveType::RegularFile, 99, 0),
        content: Some(Ok(Vec::new())),
        link_target: None,
        canon: None,
    };
    let opts = CheckOpts {
        allow_mtime: true,
        skip_integrity: false,
        filter: PathFilter::Everything,
    };
    let report = check_contents(&vec![entry], &vec![obs], &opts);
    assert!(!report.any_problems);
    assert!(report.reports[0].findings.is_empty());
}

#[test]
fn mtime_change_reported_before_content() {
    let entry = empty_file_entry();
    let obs = Observation {
        stat: found(LiveType::RegularFile, 99, 0),
        content: Some(Ok(b"x".to_vec())),
        link_target: None,
        canon: None,
    };
    let report = check_entry(&entry, &obs, &opts_everything());
    assert_eq!(report.findings.len(), 1);
    assert!(matches!(report.findings[0], Finding::MtimeChanged));
}

#[test]
fn verification_is_idempotent() {
    let entries = vec![
        Entry::Dir { path: b"/etc".to_vec() },
        empty_file_entry(),
    ];
    let make_obs = || {
        vec![
            Observation {
                stat: found(LiveType::Directory, 1, 0),
                content: None,
                link_target: None,
                canon: None,
            },
            Observation {
                stat: found(LiveType::RegularFile, 5, 0),
                content: Some(Ok(Vec::new())),
                link_target: None,
                canon: None,
            },
        ]
    };
    let first = check_contents(&entries, &make_obs(), &opts_everything());
    let second = check_contents(&entries, &make_obs(), &opts_everything());
    assert!(!first.any_problems && !second.any_problems);
    assert_eq!(first.size, second.size);
    assert_eq!(first.reports.len(), second.reports.len());
    for (a, b) in first.reports.iter().zip(second.reports.iter()) {
        assert_eq!(a.findings.len(), b.findings.len());
        assert_eq!(a.size, b.size);
    }
}

#[test]
fn dangling_symlink_is_informational() {
    let entry = Entry::Sym {
        path: b"/link".to_vec(),
        target: b"/gone".to_vec(),
        mtime: 3,
        extra: Vec::new(),
    };
    let obs = Observation {
        stat: found(LiveType::Symlink, 3, 0),
        content: None,
        link_target: Some(Ok(b"/gone".to_vec())),
        canon: Some(CanonOutcome::NotFound),
    };
    let report = check_entry(&entry, &obs, &opts_everything());
    assert_eq!(report.findings.len(), 1);
    assert!(matches!(report.findings[0], Finding::DanglingSymlink));
    assert!(!report.findings[0].is_problem());

    // a different canonicalization failure is reported verbatim instead
    let obs = Observation {
        stat: found(LiveType::Symlink, 3, 0),
        content: None,
        link_target: Some(Ok(b"/gone".to_vec())),
        canon: Some(CanonOutcome::Failed(b"loop detected".to_vec())),
    };
    let report = check_entry(&entry, &obs, &opts_everything());
    assert!(matches!(report.findings[0], Finding::CanonFailed(ref m) if m == b"loop detected"));
    assert!(report.findings[0].is_problem());
}

#[test]
fn changed_symlink_target_is_a_problem() {
    let entry = Entry::Sym {
        path: b"/link".to_vec(),
        target: b"/old".to_vec(),
        mtime: 3,
        extra: Vec::new(),
    };
    let obs = Observation {
        stat: found(LiveType::Symlink, 3, 0),
        content: None,
        link_target: Some(Ok(b"/new".to_vec())),
        canon: None,
    };
    let report = check_entry(&entry, &obs, &opts_everything());
    assert!(matches!(report.findings[0], Finding::SymlinkChanged));
}

#[test]
fn missing_and_mistyped_objects() {
    let dir = Entry::Dir { path: b"/d".to_vec() };
    let gone = Observation { stat: Stat::Missing, content: None, link_target: None, canon: None };
    let report = check_entry(&dir, &gone, &opts_everything());
    assert!(matches!(report.findings[0], Finding::DoesNotExist));
    assert_eq!(report.findings[0].class(), b'X');

    let as_file = Observation {
        stat: found(LiveType::RegularFile, 1, 4),
        content: None,
        link_target: None,
        canon: None,
    };
    let report = check_entry(&dir, &as_file, &opts_everything());
    assert!(matches!(report.findings[0], Finding::NotADirectory));
    assert_eq!(report.findings[0].class(), b'T');

    let errored = Observation {
        stat: Stat::Error(b"permission denied".to_vec()),
        content: None,
        link_target: None,
        canon: None,
    };
    let report = check_entry(&dir, &errored, &opts_everything());
    assert!(matches!(report.findings[0], Finding::StatFailed(ref m) if m == b"permission denied"));
}

#[test]
fn include_filter_reports_matches_and_skips_the_rest() {
    let entries = vec![
        Entry::Dir { path: b"/kept".to_vec() },
        Entry::Dir { path: b"/skipped".to_vec() },
    ];
    let obs = || Observation {
        stat: found(LiveType::Directory, 1, 0),
        content: None,
        link_target: None,
        canon: None,
    };
    let opts = CheckOpts {
        allow_mtime: false,
        skip_integrity: false,
        filter: PathFilter::Include(vec![b"/kept".to_vec()]),
    };
    let report = check_contents(&entries, &vec![obs(), obs()], &opts);
    assert!(!report.any_problems);
    assert_eq!(report.reports[0].findings.len(), 1);
    assert!(matches!(report.reports[0].findings[0], Finding::MatchNote));
    assert!(report.reports[1].findings.is_empty());

    let opts = CheckOpts {
        allow_mtime: false,
        skip_integrity: false,
        filter: PathFilter::Exclude(vec![b"/kept".to_vec()]),
    };
    let report = check_contents(&entries, &vec![obs(), obs()], &opts);
    assert!(report.reports[0].findings.is_empty());
}

#[test]
fn sizes_accumulate_only_for_passing_files() {
    let entries = vec![
        Entry::File {
            path: b"/a".to_vec(),
            md5: b"5d41402abc4b2a76b9719d911017c592".to_vec(),
            mtime: 1,
            extra: Vec::new(),
        },
        Entry::File {
            path: b"/b".to_vec(),
            md5: EMPTY_MD5.to_vec(),
            mtime: 1,
            extra: Vec::new(),
        },
    ];
    let observations = vec![
        Observation {
            stat: found(LiveType::RegularFile, 1, 5),
            content: Some(Ok(b"hello".to_vec())),
            link_target: None,
            canon: None,
        },
        Observation {
            stat: found(LiveType::RegularFile, 1, 9),
            content: Some(Ok(b"different".to_vec())),
            link_target: None,
            canon: None,
        },
    ];
    let report = check_contents(&entries, &observations, &opts_everything());
    // only the intact file's bytes count
    assert_eq!(report.size, 5);
    assert!(report.any_problems);
}

#[test]
fn missing_package_signal_is_independent() {
    let mut run = RunSummary::new();
    let note = run.record_missing();
    assert_eq!(note, b"Not found".to_vec());
    assert!(run.missing_packages);
    assert!(!run.any_problems);
    assert_eq!(run.exit_code(), 2);

    let mut run = RunSummary::new();
    assert_eq!(run.exit_code(), 0);
    let entry = empty_file_entry();
    let obs = Observation {
        stat: found(LiveType::RegularFile, 5, 0),
        content: Some(Ok(b"x".to_vec())),
        link_target: None,
        canon: None,
    };
    let package = check_contents(&vec![entry], &vec![obs], &opts_everything());
    run.record_package(&package);
    run.record_missing();
    // problems weigh more than missing packages
    assert!(run.any_problems && run.missing_packages);
    assert_eq!(run.exit_code(), 1);
}
