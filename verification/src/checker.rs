//! The verification engine: reconciles a manifest's entries against live
//! filesystem state.
//!
//! The engine itself never touches the filesystem.  The caller stats each
//! recorded path, reads file content and link targets where integrity is
//! to be checked, and hands the observations in; the engine classifies
//! each entry and accounts sizes.  Per-entry errors become findings, so a
//! scan continues across the remaining entries.

use vstd::prelude::*;

use crate::contents::Entry;
use crate::contents::EntryV;
use crate::contents::bytes_eq;
use crate::utils::hashing::file_hash;
use crate::utils::hashing::spec_file_hash;

verus! {

/// The kind of a live filesystem node.
#[derive(Clone, Copy, PartialEq, Eq, Structural, Debug)]
pub enum LiveType {
    Directory,
    RegularFile,
    Symlink,
    Other,
}

/// What a stat of a live node reports: its kind, its modification time in
/// seconds (when the filesystem offers one) and its size in bytes.
#[derive(Clone, Copy, Debug)]
pub struct LiveNode {
    pub kind: LiveType,
    pub mtime: Option<u64>,
    pub size: u64,
}

/// The outcome of stating a recorded path.
#[derive(Debug)]
pub enum Stat {
    /// The path does not exist.
    Missing,
    /// The stat failed for another reason; its message is reported
    /// verbatim.
    Error(Vec<u8>),
    /// The node exists.
    Found(LiveNode),
}

/// Model of a [`Stat`].
pub enum StatV {
    Missing,
    Error(Seq<u8>),
    Found(LiveNode),
}

impl View for Stat {
    type V = StatV;

    open spec fn view(&self) -> StatV {
        match self {
            Stat::Missing => StatV::Missing,
            Stat::Error(m) => StatV::Error(m@),
            Stat::Found(n) => StatV::Found(*n),
        }
    }
}

/// The outcome of fully canonicalizing a symlink's recorded path.
#[derive(Debug)]
pub enum CanonOutcome {
    /// The path resolves to an existing object.
    Resolved,
    /// Resolution ends nowhere: the link dangles.
    NotFound,
    /// Resolution failed for another reason; its message is reported
    /// verbatim.
    Failed(Vec<u8>),
}

/// Model of a [`CanonOutcome`].
pub enum CanonOutcomeV {
    Resolved,
    NotFound,
    Failed(Seq<u8>),
}

impl View for CanonOutcome {
    type V = CanonOutcomeV;

    open spec fn view(&self) -> CanonOutcomeV {
        match self {
            CanonOutcome::Resolved => CanonOutcomeV::Resolved,
            CanonOutcome::NotFound => CanonOutcomeV::NotFound,
            CanonOutcome::Failed(m) => CanonOutcomeV::Failed(m@),
        }
    }
}

/// Everything the caller observed about one recorded path.
///
/// `content` carries the file's bytes (or the read error) when integrity
/// is to be checked; `link_target` the link's actual target (or the read
/// error); `canon` the canonicalization outcome for a matching symlink.
#[derive(Debug)]
pub struct Observation {
    pub stat: Stat,
    pub content: Option<Result<Vec<u8>, Vec<u8>>>,
    pub link_target: Option<Result<Vec<u8>, Vec<u8>>>,
    pub canon: Option<CanonOutcome>,
}

/// Model of an [`Observation`].
pub struct ObservationV {
    pub stat: StatV,
    pub content: Option<Result<Seq<u8>, Seq<u8>>>,
    pub link_target: Option<Result<Seq<u8>, Seq<u8>>>,
    pub canon: Option<CanonOutcomeV>,
}

/// Model of an optional byte-vector result.
pub open spec fn opt_res_view(o: Option<Result<Vec<u8>, Vec<u8>>>) -> Option<
    Result<Seq<u8>, Seq<u8>>,
> {
    match o {
        Option::None => None,
        Option::Some(Result::Ok(v)) => Some(Ok(v@)),
        Option::Some(Result::Err(v)) => Some(Err(v@)),
    }
}

impl View for Observation {
    type V = ObservationV;

    open spec fn view(&self) -> ObservationV {
        ObservationV {
            stat: self.stat@,
            content: opt_res_view(self.content),
            link_target: opt_res_view(self.link_target),
            canon: match self.canon {
                Option::None => None,
                Option::Some(c) => Some(c@),
            },
        }
    }
}

/// Which recorded paths a verification run looks at.
#[derive(Debug)]
pub enum PathFilter {
    /// Check every entry.
    Everything,
    /// Check only the listed paths, and report each match.
    Include(Vec<Vec<u8>>),
    /// Skip the listed paths.
    Exclude(Vec<Vec<u8>>),
}

/// Model of a [`PathFilter`].
pub enum PathFilterV {
    Everything,
    Include(Seq<Seq<u8>>),
    Exclude(Seq<Seq<u8>>),
}

/// Model of a path list.
pub open spec fn paths_view(ps: Seq<Vec<u8>>) -> Seq<Seq<u8>> {
    ps.map(|i: int, p: Vec<u8>| p@)
}

impl View for PathFilter {
    type V = PathFilterV;

    open spec fn view(&self) -> PathFilterV {
        match self {
            PathFilter::Everything => PathFilterV::Everything,
            PathFilter::Include(ps) => PathFilterV::Include(paths_view(ps@)),
            PathFilter::Exclude(ps) => PathFilterV::Exclude(paths_view(ps@)),
        }
    }
}

/// The options of a verification run.
#[derive(Debug)]
pub struct CheckOpts {
    pub allow_mtime: bool,
    pub skip_integrity: bool,
    pub filter: PathFilter,
}

/// Model of [`CheckOpts`].
pub struct CheckOptsV {
    pub allow_mtime: bool,
    pub skip_integrity: bool,
    pub filter: PathFilterV,
}

impl View for CheckOpts {
    type V = CheckOptsV;

    open spec fn view(&self) -> CheckOptsV {
        CheckOptsV {
            allow_mtime: self.allow_mtime,
            skip_integrity: self.skip_integrity,
            filter: self.filter@,
        }
    }
}

/// One classified finding about one recorded path.
#[derive(Debug)]
pub enum Finding {
    /// The path matches an include filter; informational.
    MatchNote,
    /// The recorded object does not exist.
    DoesNotExist,
    /// Stating the path failed; the message is reported verbatim.
    StatFailed(Vec<u8>),
    /// The modification time differs at second granularity.
    MtimeChanged,
    /// The recorded directory is no directory on disk.
    NotADirectory,
    /// The recorded file is no regular file on disk.
    NotARegularFile,
    /// The recorded symlink is no symlink on disk.
    NotASymlink,
    /// The file's content digest differs from the recorded one.
    ContentChanged,
    /// Reading the file for hashing failed; the scan continues.
    HashFailed(Vec<u8>),
    /// The symlink points elsewhere than recorded.
    SymlinkChanged,
    /// Reading the link target failed.
    ReadlinkFailed(Vec<u8>),
    /// The symlink's target no longer resolves anywhere; informational.
    DanglingSymlink,
    /// Canonicalizing the symlink failed for another reason.
    CanonFailed(Vec<u8>),
}

/// Model of a [`Finding`].
pub enum FindingV {
    MatchNote,
    DoesNotExist,
    StatFailed(Seq<u8>),
    MtimeChanged,
    NotADirectory,
    NotARegularFile,
    NotASymlink,
    ContentChanged,
    HashFailed(Seq<u8>),
    SymlinkChanged,
    ReadlinkFailed(Seq<u8>),
    DanglingSymlink,
    CanonFailed(Seq<u8>),
}

impl View for Finding {
    type V = FindingV;

    open spec fn view(&self) -> FindingV {
        match self {
            Finding::MatchNote => FindingV::MatchNote,
            Finding::DoesNotExist => FindingV::DoesNotExist,
            Finding::StatFailed(m) => FindingV::StatFailed(m@),
            Finding::MtimeChanged => FindingV::MtimeChanged,
            Finding::NotADirectory => FindingV::NotADirectory,
            Finding::NotARegularFile => FindingV::NotARegularFile,
            Finding::NotASymlink => FindingV::NotASymlink,
            Finding::ContentChanged => FindingV::ContentChanged,
            Finding::HashFailed(m) => FindingV::HashFailed(m@),
            Finding::SymlinkChanged => FindingV::SymlinkChanged,
            Finding::ReadlinkFailed(m) => FindingV::ReadlinkFailed(m@),
            Finding::DanglingSymlink => FindingV::DanglingSymlink,
            Finding::CanonFailed(m) => FindingV::CanonFailed(m@),
        }
    }
}

/// Does a finding raise the problems flag?  Filter matches and dangling
/// symlinks are informational; everything else is a problem.
pub open spec fn spec_is_problem(f: FindingV) -> bool {
    match f {
        FindingV::MatchNote => false,
        FindingV::DanglingSymlink => false,
        _ => true,
    }
}

/// The classification character of a finding, as the console reporter
/// prints it.
pub open spec fn spec_class(f: FindingV) -> u8 {
    match f {
        FindingV::MatchNote => 35,  // '#'
        FindingV::DoesNotExist => 88,  // 'X'
        FindingV::StatFailed(_) => 88,
        FindingV::MtimeChanged => 77,  // 'M'
        FindingV::NotADirectory => 84,  // 'T'
        FindingV::NotARegularFile => 84,
        FindingV::NotASymlink => 84,
        FindingV::ContentChanged => 67,  // 'C'
        FindingV::HashFailed(_) => 88,
        FindingV::SymlinkChanged => 67,
        FindingV::ReadlinkFailed(_) => 88,
        FindingV::DanglingSymlink => 88,
        FindingV::CanonFailed(_) => 88,
    }
}

impl Finding {
    /// Does this finding raise the problems flag?
    pub fn is_problem(&self) -> (r: bool)
        ensures
            r == spec_is_problem(self@),
    {
        match self {
            Finding::MatchNote => false,
            Finding::DanglingSymlink => false,
            _ => true,
        }
    }

    /// The classification character of this finding.
    pub fn class(&self) -> (r: u8)
        ensures
            r == spec_class(self@),
    {
        match self {
            Finding::MatchNote => 35,
            Finding::DoesNotExist => 88,
            Finding::StatFailed(_) => 88,
            Finding::MtimeChanged => 77,
            Finding::NotADirectory => 84,
            Finding::NotARegularFile => 84,
            Finding::NotASymlink => 84,
            Finding::ContentChanged => 67,
            Finding::HashFailed(_) => 88,
            Finding::SymlinkChanged => 67,
            Finding::ReadlinkFailed(_) => 88,
            Finding::DanglingSymlink => 88,
            Finding::CanonFailed(_) => 88,
        }
    }
}

/// What one entry's verification produced: its findings and the bytes
/// that count toward the package size.
#[derive(Debug)]
pub struct EntryReport {
    pub findings: Vec<Finding>,
    pub size: u64,
}

/// Model of an [`EntryReport`].
pub struct EntryReportV {
    pub findings: Seq<FindingV>,
    pub size: u64,
}

/// Model of a finding list.
pub open spec fn findings_view(fs: Seq<Finding>) -> Seq<FindingV> {
    fs.map(|i: int, f: Finding| f@)
}

impl View for EntryReport {
    type V = EntryReportV;

    open spec fn view(&self) -> EntryReportV {
        EntryReportV { findings: findings_view(self.findings@), size: self.size }
    }
}

/// Does the filter skip this path?
pub open spec fn spec_skip(f: PathFilterV, path: Seq<u8>) -> bool {
    match f {
        PathFilterV::Everything => false,
        PathFilterV::Include(set) => !set.contains(path),
        PathFilterV::Exclude(set) => set.contains(path),
    }
}

/// Does the filter ask for matches to be reported?
pub open spec fn spec_report_matches(f: PathFilterV) -> bool {
    f is Include
}

/// Is there a modification-time mismatch to report: drift not allowed,
/// a time recorded, a time observed, and the seconds differ.
pub open spec fn spec_mtime_mismatch(e: EntryV, node: LiveNode, opts: CheckOptsV) -> bool {
    !opts.allow_mtime && e.mtime() is Some && node.mtime is Some && e.mtime() != node.mtime
}

/// The live kind an entry kind must match.
pub open spec fn spec_expected_kind(e: EntryV) -> LiveType {
    match e {
        EntryV::Dir { .. } => LiveType::Directory,
        EntryV::File { .. } => LiveType::RegularFile,
        EntryV::Sym { .. } => LiveType::Symlink,
    }
}

/// The findings the entry gets before its own checks: a match note when
/// an include filter asked for one.
pub open spec fn spec_pre_findings(opts: CheckOptsV) -> Seq<FindingV> {
    if spec_report_matches(opts.filter) {
        seq![FindingV::MatchNote]
    } else {
        Seq::empty()
    }
}

/// The verification of one entry against one observation: the original
/// check order is kept — existence, then modification time, then type,
/// then content or link target, then size accounting.  Only bytes of
/// files passing every check (or whose hashing failed) count toward the
/// size.
pub open spec fn spec_check_entry(e: EntryV, o: ObservationV, opts: CheckOptsV) -> EntryReportV {
    if spec_skip(opts.filter, e.path()) {
        EntryReportV { findings: Seq::empty(), size: 0 }
    } else {
        let pre = spec_pre_findings(opts);
        match o.stat {
            StatV::Missing => EntryReportV { findings: pre.push(FindingV::DoesNotExist), size: 0 },
            StatV::Error(m) => EntryReportV { findings: pre.push(FindingV::StatFailed(m)), size: 0 },
            StatV::Found(node) => {
                if spec_mtime_mismatch(e, node, opts) {
                    EntryReportV { findings: pre.push(FindingV::MtimeChanged), size: 0 }
                } else if node.kind != spec_expected_kind(e) {
                    let f = match e {
                        EntryV::Dir { .. } => FindingV::NotADirectory,
                        EntryV::File { .. } => FindingV::NotARegularFile,
                        EntryV::Sym { .. } => FindingV::NotASymlink,
                    };
                    EntryReportV { findings: pre.push(f), size: 0 }
                } else {
                    match e {
                        EntryV::Dir { .. } => EntryReportV { findings: pre, size: 0 },
                        EntryV::File { md5, .. } => {
                            if opts.skip_integrity {
                                EntryReportV { findings: pre, size: node.size }
                            } else {
                                match o.content {
                                    Option::Some(Result::Ok(bytes)) => {
                                        if spec_file_hash(bytes) != md5 {
                                            EntryReportV {
                                                findings: pre.push(FindingV::ContentChanged),
                                                size: 0,
                                            }
                                        } else {
                                            EntryReportV { findings: pre, size: node.size }
                                        }
                                    },
                                    Option::Some(Result::Err(m)) => EntryReportV {
                                        findings: pre.push(FindingV::HashFailed(m)),
                                        size: node.size,
                                    },
                                    Option::None => EntryReportV { findings: pre, size: node.size },
                                }
                            }
                        },
                        EntryV::Sym { target, .. } => {
                            match o.link_target {
                                Option::Some(Result::Ok(t)) => {
                                    if t != target {
                                        EntryReportV {
                                            findings: pre.push(FindingV::SymlinkChanged),
                                            size: 0,
                                        }
                                    } else {
                                        match o.canon {
                                            Option::Some(CanonOutcomeV::Resolved) => EntryReportV {
                                                findings: pre,
                                                size: 0,
                                            },
                                            Option::Some(CanonOutcomeV::NotFound) => EntryReportV {
                                                findings: pre.push(FindingV::DanglingSymlink),
                                                size: 0,
                                            },
                                            Option::Some(CanonOutcomeV::Failed(m)) => EntryReportV {
                                                findings: pre.push(FindingV::CanonFailed(m)),
                                                size: 0,
                                            },
                                            Option::None => EntryReportV {
                                                findings: pre,
                                                size: 0,
                                            },
                                        }
                                    }
                                },
                                Option::Some(Result::Err(m)) => EntryReportV {
                                    findings: pre.push(FindingV::ReadlinkFailed(m)),
                                    size: 0,
                                },
                                Option::None => EntryReportV { findings: pre, size: 0 },
                            }
                        },
                    }
                }
            },
        }
    }
}

/// When the caller must have read the file's content: the entry is a
/// file that exists as one, the time check passed, and integrity is on.
pub open spec fn spec_needs_content(e: EntryV, o: ObservationV, opts: CheckOptsV) -> bool {
    &&& e is File
    &&& !opts.skip_integrity
    &&& !spec_skip(opts.filter, e.path())
    &&& match o.stat {
        StatV::Found(node) => node.kind == LiveType::RegularFile && !spec_mtime_mismatch(
            e,
            node,
            opts,
        ),
        _ => false,
    }
}

/// When the caller must have read the link's target: the entry is a
/// symlink that exists as one and the time check passed.
pub open spec fn spec_needs_link(e: EntryV, o: ObservationV, opts: CheckOptsV) -> bool {
    &&& e is Sym
    &&& !spec_skip(opts.filter, e.path())
    &&& match o.stat {
        StatV::Found(node) => node.kind == LiveType::Symlink && !spec_mtime_mismatch(
            e,
            node,
            opts,
        ),
        _ => false,
    }
}

/// When the caller must have canonicalized the path: the link also
/// matches its recorded target.
pub open spec fn spec_needs_canon(e: EntryV, o: ObservationV, opts: CheckOptsV) -> bool {
    spec_needs_link(e, o, opts) && (match (o.link_target, e) {
        (Option::Some(Result::Ok(t)), EntryV::Sym { target, .. }) => t == target,
        _ => false,
    })
}

/// The observation answers everything the options ask of this entry.
pub open spec fn spec_obs_adequate(e: EntryV, o: ObservationV, opts: CheckOptsV) -> bool {
    &&& (spec_needs_content(e, o, opts) ==> o.content is Some)
    &&& (spec_needs_link(e, o, opts) ==> o.link_target is Some)
    &&& (spec_needs_canon(e, o, opts) ==> o.canon is Some)
}

/// Does the path list contain `p`?
fn paths_contain(ps: &Vec<Vec<u8>>, p: &Vec<u8>) -> (r: bool)
    ensures
        r == paths_view(ps@).contains(p@),
{
    let n: usize = ps.len();
    let mut i: usize = 0;
    while i < n
        invariant
            n == ps@.len(),
            0 <= i <= n,
            forall|j: int| 0 <= j < i ==> paths_view(ps@)[j] != p@,
        decreases n - i,
    {
        if bytes_eq(&ps[i], p) {
            assert(paths_view(ps@)[i as int] == p@);
            return true;
        }
        assert(paths_view(ps@)[i as int] != p@);
        i = i + 1;
    }
    assert(!paths_view(ps@).contains(p@)) by {
        if paths_view(ps@).contains(p@) {
            let j = choose|j: int| 0 <= j < paths_view(ps@).len() && paths_view(ps@)[j] == p@;
            assert(paths_view(ps@)[j] != p@);
        }
    }
    false
}

impl PathFilter {
    /// Does this filter skip the entry at `path`?
    pub fn skip_entry(&self, path: &Vec<u8>) -> (r: bool)
        ensures
            r == spec_skip(self@, path@),
    {
        match self {
            PathFilter::Everything => false,
            PathFilter::Include(set) => !paths_contain(set, path),
            PathFilter::Exclude(set) => paths_contain(set, path),
        }
    }

    /// Does this filter ask for matches to be reported?
    pub fn should_report_matches(&self) -> (r: bool)
        ensures
            r == spec_report_matches(self@),
    {
        match self {
            PathFilter::Everything => false,
            PathFilter::Include(_) => true,
            PathFilter::Exclude(_) => false,
        }
    }
}

/// Verifies one entry against what was observed at its real location.
pub fn check_entry(entry: &Entry, obs: &Observation, opts: &CheckOpts) -> (r: EntryReport)
    requires
        spec_obs_adequate(entry@, obs@, opts@),
    ensures
        r@ == spec_check_entry(entry@, obs@, opts@),
{
    let mut findings: Vec<Finding> = Vec::new();
    proof {
        assert(findings_view(findings@) =~= Seq::<FindingV>::empty());
    }
    if opts.filter.skip_entry(entry.path()) {
        return EntryReport { findings, size: 0 };
    }
    if opts.filter.should_report_matches() {
        findings.push(Finding::MatchNote);
        assert(findings_view(findings@) =~= spec_pre_findings(opts@));
    } else {
        assert(findings_view(findings@) =~= spec_pre_findings(opts@));
    }
    let ghost pre = spec_pre_findings(opts@);
    let node: LiveNode = match &obs.stat {
        Stat::Missing => {
            findings.push(Finding::DoesNotExist);
            assert(findings_view(findings@) =~= pre.push(FindingV::DoesNotExist));
            return EntryReport { findings, size: 0 };
        },
        Stat::Error(m) => {
            let msg = crate::contents::clone_bytes(m);
            findings.push(Finding::StatFailed(msg));
            assert(findings_view(findings@) =~= pre.push(FindingV::StatFailed(m@)));
            return EntryReport { findings, size: 0 };
        },
        Stat::Found(node) => *node,
    };
    // second-granularity modification time, before type and content
    let mtime_mismatch = !opts.allow_mtime && (match (entry.mtime(), node.mtime) {
        (Option::Some(expect), Option::Some(actual)) => expect != actual,
        _ => false,
    });
    assert(mtime_mismatch == spec_mtime_mismatch(entry@, node, opts@));
    if mtime_mismatch {
        findings.push(Finding::MtimeChanged);
        assert(findings_view(findings@) =~= pre.push(FindingV::MtimeChanged));
        return EntryReport { findings, size: 0 };
    }
    match entry {
        Entry::Dir { .. } => {
            if !matches!(node.kind, LiveType::Directory) {
                findings.push(Finding::NotADirectory);
                assert(findings_view(findings@) =~= pre.push(FindingV::NotADirectory));
                return EntryReport { findings, size: 0 };
            }
            EntryReport { findings, size: 0 }
        },
        Entry::File { md5, .. } => {
            if !matches!(node.kind, LiveType::RegularFile) {
                findings.push(Finding::NotARegularFile);
                assert(findings_view(findings@) =~= pre.push(FindingV::NotARegularFile));
                return EntryReport { findings, size: 0 };
            }
            if opts.skip_integrity {
                return EntryReport { findings, size: node.size };
            }
            match &obs.content {
                Option::Some(Result::Ok(bytes)) => {
                    let actual = file_hash(bytes);
                    if !bytes_eq(&actual, md5) {
                        findings.push(Finding::ContentChanged);
                        assert(findings_view(findings@) =~= pre.push(FindingV::ContentChanged));
                        EntryReport { findings, size: 0 }
                    } else {
                        EntryReport { findings, size: node.size }
                    }
                },
                Option::Some(Result::Err(m)) => {
                    // the error is reported, but the bytes still count
                    let msg = crate::contents::clone_bytes(m);
                    findings.push(Finding::HashFailed(msg));
                    assert(findings_view(findings@) =~= pre.push(FindingV::HashFailed(m@)));
                    EntryReport { findings, size: node.size }
                },
                Option::None => EntryReport { findings, size: node.size },
            }
        },
        Entry::Sym { target, .. } => {
            if !matches!(node.kind, LiveType::Symlink) {
                findings.push(Finding::NotASymlink);
                assert(findings_view(findings@) =~= pre.push(FindingV::NotASymlink));
                return EntryReport { findings, size: 0 };
            }
            match &obs.link_target {
                Option::Some(Result::Ok(t)) => {
                    if !bytes_eq(t, target) {
                        findings.push(Finding::SymlinkChanged);
                        assert(findings_view(findings@) =~= pre.push(FindingV::SymlinkChanged));
                        return EntryReport { findings, size: 0 };
                    }
                    match &obs.canon {
                        Option::Some(CanonOutcome::Resolved) => EntryReport { findings, size: 0 },
                        Option::Some(CanonOutcome::NotFound) => {
                            findings.push(Finding::DanglingSymlink);
                            assert(findings_view(findings@) =~= pre.push(
                                FindingV::DanglingSymlink,
                            ));
                            EntryReport { findings, size: 0 }
                        },
                        Option::Some(CanonOutcome::Failed(m)) => {
                            let msg = crate::contents::clone_bytes(m);
                            findings.push(Finding::CanonFailed(msg));
                            assert(findings_view(findings@) =~= pre.push(FindingV::CanonFailed(m@)));
                            EntryReport { findings, size: 0 }
                        },
                        Option::None => EntryReport { findings, size: 0 },
                    }
                },
                Option::Some(Result::Err(m)) => {
                    let msg = crate::contents::clone_bytes(m);
                    findings.push(Finding::ReadlinkFailed(msg));
                    assert(findings_view(findings@) =~= pre.push(FindingV::ReadlinkFailed(m@)));
                    EntryReport { findings, size: 0 }
                },
                Option::None => EntryReport { findings, size: 0 },
            }
        },
    }
}

/// Model of an entry list.
pub open spec fn entries_view(es: Seq<Entry>) -> Seq<EntryV> {
    es.map(|i: int, e: Entry| e@)
}

/// Model of an observation list.
pub open spec fn obs_view(os: Seq<Observation>) -> Seq<ObservationV> {
    os.map(|i: int, o: Observation| o@)
}

/// Model of a report list.
pub open spec fn reports_view(rs: Seq<EntryReport>) -> Seq<EntryReportV> {
    rs.map(|i: int, r: EntryReport| r@)
}

/// The reports of a whole manifest: one per entry, in order.
pub open spec fn spec_reports(es: Seq<EntryV>, os: Seq<ObservationV>, opts: CheckOptsV) -> Seq<
    EntryReportV,
> {
    Seq::new(es.len(), |i: int| spec_check_entry(es[i], os[i], opts))
}

/// Saturating addition of byte counts.
pub open spec fn sat_add(a: u64, b: u64) -> u64 {
    if a + b > u64::MAX {
        u64::MAX
    } else {
        (a + b) as u64
    }
}

/// The bytes counted by the first `i` reports.
pub open spec fn total_upto(rs: Seq<EntryReportV>, i: int) -> u64
    decreases i,
{
    if i <= 0 {
        0
    } else {
        sat_add(total_upto(rs, i - 1), rs[i - 1].size)
    }
}

/// The bytes counted by a report list.
pub open spec fn spec_total_size(rs: Seq<EntryReportV>) -> u64 {
    total_upto(rs, rs.len() as int)
}

/// Does one report hold a problem finding?
pub open spec fn spec_has_problem(r: EntryReportV) -> bool {
    exists|j: int| 0 <= j < r.findings.len() && spec_is_problem(#[trigger] r.findings[j])
}

/// Does any report hold a problem finding?
pub open spec fn spec_any_problems(rs: Seq<EntryReportV>) -> bool {
    exists|i: int| 0 <= i < rs.len() && spec_has_problem(#[trigger] rs[i])
}

/// Saturating addition of byte counts.
fn sat_add_u64(a: u64, b: u64) -> (r: u64)
    ensures
        r == sat_add(a, b),
{
    if a > u64::MAX - b {
        u64::MAX
    } else {
        a + b
    }
}

/// Does this report hold a problem finding?
pub fn report_has_problem(r: &EntryReport) -> (res: bool)
    ensures
        res == spec_has_problem(r@),
{
    let n: usize = r.findings.len();
    let mut i: usize = 0;
    while i < n
        invariant
            n == r.findings@.len(),
            0 <= i <= n,
            forall|j: int| 0 <= j < i ==> !spec_is_problem(#[trigger] r@.findings[j]),
        decreases n - i,
    {
        if r.findings[i].is_problem() {
            assert(spec_is_problem(r@.findings[i as int]));
            return true;
        }
        assert(!spec_is_problem(r@.findings[i as int]));
        i = i + 1;
    }
    false
}

/// What a whole manifest's verification produced: the per-entry reports,
/// the package size and the aggregate problems flag.
#[derive(Debug)]
pub struct PackageReport {
    pub reports: Vec<EntryReport>,
    pub size: u64,
    pub any_problems: bool,
}

/// Verifies a manifest's entries against what was observed at each of its
/// recorded paths.  Per-entry failures become findings, never aborts.
pub fn check_contents(entries: &Vec<Entry>, observations: &Vec<Observation>, opts: &CheckOpts) -> (r:
    PackageReport)
    requires
        entries@.len() == observations@.len(),
        forall|i: int|
            0 <= i < entries@.len() ==> spec_obs_adequate(
                (#[trigger] entries@[i])@,
                observations@[i]@,
                opts@,
            ),
    ensures
        reports_view(r.reports@) == spec_reports(entries_view(entries@), obs_view(observations@), opts@),
        r.size == spec_total_size(spec_reports(entries_view(entries@), obs_view(observations@), opts@)),
        r.any_problems == spec_any_problems(spec_reports(entries_view(entries@), obs_view(observations@), opts@)),
{
    let ghost es = entries_view(entries@);
    let ghost os = obs_view(observations@);
    let ghost rs = spec_reports(es, os, opts@);
    let n: usize = entries.len();
    let mut reports: Vec<EntryReport> = Vec::new();
    let mut size: u64 = 0;
    let mut any_problems: bool = false;
    let mut i: usize = 0;
    #[verifier::loop_isolation(false)]
    while i < n
        invariant
            0 <= i <= n,
            reports@.len() == i,
            forall|k: int| 0 <= k < i ==> reports_view(reports@)[k] == rs[k],
            size == total_upto(rs, i as int),
            any_problems == (exists|k: int| 0 <= k < i && spec_has_problem(#[trigger] rs[k])),
        decreases n - i,
    {
        proof {
            assert(es[i as int] == entries@[i as int]@);
            assert(os[i as int] == observations@[i as int]@);
        }
        let report = check_entry(&entries[i], &observations[i], opts);
        let problem_here = report_has_problem(&report);
        proof {
            assert(report@ == rs[i as int]);
        }
        size = sat_add_u64(size, report.size);
        let ghost before = any_problems;
        if problem_here {
            any_problems = true;
        }
        proof {
            if problem_here {
                assert(spec_has_problem(rs[i as int]));
            }
            assert(any_problems == (exists|k: int|
                0 <= k < i + 1 && spec_has_problem(#[trigger] rs[k]))) by {
                if any_problems {
                    if problem_here {
                        assert(spec_has_problem(rs[i as int]));
                    } else {
                        let w = choose|k: int| 0 <= k < i && spec_has_problem(#[trigger] rs[k]);
                        assert(spec_has_problem(rs[w]));
                    }
                } else {
                    if exists|k: int| 0 <= k < i + 1 && spec_has_problem(#[trigger] rs[k]) {
                        let w = choose|k: int|
                            0 <= k < i + 1 && spec_has_problem(#[trigger] rs[k]);
                        if w < i {
                            assert(before == (exists|k: int|
                                0 <= k < i && spec_has_problem(#[trigger] rs[k])));
                        }
                    }
                }
            }
        }
        reports.push(report);
        proof {
            assert(forall|k: int|
                0 <= k < i + 1 ==> reports_view(reports@)[k] == #[trigger] rs[k]);
        }
        i = i + 1;
    }
    proof {
        assert(reports_view(reports@) =~= rs);
    }
    PackageReport { reports, size, any_problems }
}

/// The aggregate signals of a whole verification run: the run total, the
/// problems flag and the independent missing-packages signal.
#[derive(Debug)]
pub struct RunSummary {
    pub total_size: u64,
    pub any_problems: bool,
    pub missing_packages: bool,
}

/// The note printed for a package name that the database does not hold.
pub open spec fn spec_not_found_note() -> Seq<u8> {
    seq![78u8, 111u8, 116u8, 32u8, 102u8, 111u8, 117u8, 110u8, 100u8]
}

impl RunSummary {
    /// An empty run: nothing counted, no signals raised.
    pub fn new() -> (r: RunSummary)
        ensures
            r.total_size == 0,
            !r.any_problems,
            !r.missing_packages,
    {
        RunSummary { total_size: 0, any_problems: false, missing_packages: false }
    }

    /// Folds one package's verification in: its size joins the run total
    /// and its problems raise the problems flag.  The missing-packages
    /// signal is untouched.
    pub fn record_package(&mut self, report: &PackageReport)
        ensures
            final(self).total_size == sat_add(old(self).total_size, report.size),
            final(self).any_problems == (old(self).any_problems || report.any_problems),
            final(self).missing_packages == old(self).missing_packages,
    {
        self.total_size = sat_add_u64(self.total_size, report.size);
        if report.any_problems {
            self.any_problems = true;
        }
    }

    /// Records a requested package name that the database does not hold,
    /// and hands back the note to report.  The problems flag is untouched:
    /// the two signals are independent.
    pub fn record_missing(&mut self) -> (note: Vec<u8>)
        ensures
            final(self).missing_packages,
            final(self).any_problems == old(self).any_problems,
            final(self).total_size == old(self).total_size,
            note@ == spec_not_found_note(),
    {
        self.missing_packages = true;
        let mut v: Vec<u8> = Vec::new();
        v.push(78);
        v.push(111);
        v.push(116);
        v.push(32);
        v.push(102);
        v.push(111);
        v.push(117);
        v.push(110);
        v.push(100);
        assert(v@ =~= spec_not_found_note());
        v
    }

    /// The process exit status of the run: problems weigh more than
    /// missing packages.
    pub fn exit_code(&self) -> (r: u8)
        ensures
            r == (if self.any_problems {
                1u8
            } else if self.missing_packages {
                2u8
            } else {
                0u8
            }),
    {
        if self.any_problems {
            1
        } else if self.missing_packages {
            2
        } else {
            0
        }
    }
}

/// A live node that still agrees with its manifest entry: same kind,
/// same recorded time, same content digest, same link target, and its
/// path resolves (or merely dangles).
pub open spec fn spec_obs_consistent(e: EntryV, o: ObservationV) -> bool {
    match o.stat {
        StatV::Found(node) => {
            &&& node.kind == spec_expected_kind(e)
            &&& (e.mtime() is Some ==> node.mtime == e.mtime())
            &&& (match (e, o.content) {
                (EntryV::File { md5, .. }, Option::Some(Result::Ok(b))) => spec_file_hash(b)
                    == md5,
                (_, Option::Some(Result::Err(_))) => false,
                _ => true,
            })
            &&& (match (e, o.link_target) {
                (EntryV::Sym { target, .. }, Option::Some(Result::Ok(t))) => t == target,
                (_, Option::Some(Result::Err(_))) => false,
                _ => true,
            })
            &&& (match o.canon {
                Option::Some(CanonOutcomeV::Failed(_)) => false,
                _ => true,
            })
        },
        _ => false,
    }
}

/// Verification of an unchanged filesystem raises no problem: every
/// finding of an entry whose live node still agrees with the manifest is
/// informational.
pub proof fn lemma_clean_verification(e: EntryV, o: ObservationV, opts: CheckOptsV)
    requires
        spec_obs_consistent(e, o),
    ensures
        !spec_has_problem(spec_check_entry(e, o, opts)),
{
    let r = spec_check_entry(e, o, opts);
    let pre = spec_pre_findings(opts);
    assert(forall|j: int| 0 <= j < pre.len() ==> pre[j] == FindingV::MatchNote);
    assert forall|j: int| 0 <= j < r.findings.len() implies !spec_is_problem(
        #[trigger] r.findings[j],
    ) by {
        if j < pre.len() {
            assert(r.findings[j] == pre[j]);
        } else {
            assert(r.findings[j] == FindingV::DanglingSymlink);
        }
    }
}

/// Idempotence: verification is a pure function of the manifest and of
/// what the filesystem shows, so two successive runs against an unchanged
/// filesystem yield identical findings.
pub proof fn lemma_verification_idempotent(
    es: Seq<EntryV>,
    os1: Seq<ObservationV>,
    os2: Seq<ObservationV>,
    opts: CheckOptsV,
)
    requires
        os1 == os2,
    ensures
        spec_reports(es, os1, opts) == spec_reports(es, os2, opts),
        spec_any_problems(spec_reports(es, os1, opts)) == spec_any_problems(
            spec_reports(es, os2, opts),
        ),
{
}

/// A stored symlink whose target no longer resolves anywhere is reported
/// as a dangling symbolic link — an informational finding, never a
/// generic error.
pub proof fn lemma_dangling_reported(e: EntryV, o: ObservationV, opts: CheckOptsV)
    requires
        !spec_skip(opts.filter, e.path()),
        (match o.stat {
            StatV::Found(node) => node.kind == LiveType::Symlink && !spec_mtime_mismatch(
                e,
                node,
                opts,
            ),
            _ => false,
        }),
        (match (o.link_target, e) {
            (Option::Some(Result::Ok(t)), EntryV::Sym { target, .. }) => t == target,
            _ => false,
        }),
        o.canon == Some(CanonOutcomeV::NotFound),
    ensures
        spec_check_entry(e, o, opts).findings == spec_pre_findings(opts).push(
            FindingV::DanglingSymlink,
        ),
        !spec_is_problem(FindingV::DanglingSymlink),
{
}

} // verus!
