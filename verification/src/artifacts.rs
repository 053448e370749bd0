//! Where the files of a run are stored, and how they are mirrored to an object
//! store without holding the run up.

use crate::name_map::NameMap;
use crate::text::{
    ascii_lower, begins_with, ends_with, has_suffix, nat_text, replace, replaced, starts_with,
    strip_back, strip_front, text_eq, texts, to_ascii_lowercase, trim, trim_matches, trimmed,
    u64_to_text,
};
use crate::time::Duration;
use vstd::prelude::*;
use vstd::string::*;

verus! {

/// Seconds between two uploads of one file during a backtest, at least.
pub const CHECKPOINT_INTERVAL_SECS: u64 = 60;

/// Number of distinct files that may be uploading at once during a live run.
pub const LIVE_QUEUE_CAPACITY: usize = 256;

/// Seconds after which an upload is given up.
pub const UPLOAD_TIMEOUT_SECS: u64 = 60;

/// Seconds between two summaries of the uploads of a live run, at least.
pub const LIVE_SUMMARY_INTERVAL_SECS: u64 = 300;

/// Address of an S3-compatible object store.
#[derive(Debug, Clone, Default)]
pub struct S3Settings {
    pub bucket: String,
    /// Key prefix of all runs; may be empty.
    pub prefix: String,
    pub region: Option<String>,
    pub endpoint: Option<String>,
    pub access_key: Option<String>,
    pub secret_key: Option<String>,
}

/// Kind of a run.
#[derive(Debug, Clone, Copy, PartialEq, Eq, Structural)]
pub enum RunKind {
    Backtest,
    Live,
}

impl RunKind {
    pub open spec fn name(self) -> Seq<char> {
        match self {
            RunKind::Backtest => "backtests"@,
            RunKind::Live => "live"@,
        }
    }

    /// Segment of the key under which runs of this kind are stored.
    pub fn segment(self) -> (res: &'static str)
        ensures
            res@ == self.name(),
    {
        match self {
            RunKind::Backtest => "backtests",
            RunKind::Live => "live",
        }
    }
}

/// Where the files of a run are kept.
#[derive(Debug, Clone, Copy, PartialEq, Eq, Structural)]
pub enum ArtifactStoreMode {
    Local,
    S3,
    Mirror,
}

/// The mode that a text names.
pub open spec fn mode_named(text: Seq<char>) -> Option<ArtifactStoreMode> {
    if text == "local"@ {
        Some(ArtifactStoreMode::Local)
    } else if text == "s3"@ {
        Some(ArtifactStoreMode::S3)
    } else if text == "mirror"@ {
        Some(ArtifactStoreMode::Mirror)
    } else {
        None
    }
}

impl ArtifactStoreMode {
    /// Parses `local`, `s3` or `mirror`, in any case and within any white space.
    /// Anything else is refused.
    pub fn parse(value: &str) -> (res: Option<ArtifactStoreMode>)
        ensures
            res == mode_named(ascii_lower(trimmed(value@))),
    {
        let bare = trim(value);
        let lower = to_ascii_lowercase(bare.as_str());
        if text_eq(lower.as_str(), "local") {
            Some(ArtifactStoreMode::Local)
        } else if text_eq(lower.as_str(), "s3") {
            Some(ArtifactStoreMode::S3)
        } else if text_eq(lower.as_str(), "mirror") {
            Some(ArtifactStoreMode::Mirror)
        } else {
            None
        }
    }

    pub fn uses_s3(self) -> (res: bool)
        ensures
            res == (self == ArtifactStoreMode::S3 || self == ArtifactStoreMode::Mirror),
    {
        match self {
            ArtifactStoreMode::Local => false,
            ArtifactStoreMode::S3 => true,
            ArtifactStoreMode::Mirror => true,
        }
    }
}

/// The key under which the files of a run are stored: prefix, project, kind and
/// run, without slashes around the prefix and without empty prefix or project.
pub open spec fn key_base(prefix: Seq<char>, project: Seq<char>, kind: RunKind, run_id: Seq<char>) -> Seq<
    char,
> {
    let bare = strip_back(strip_front(prefix, |c: char| c == '/'), |c: char| c == '/');
    (if bare.len() > 0 {
        bare + "/"@
    } else {
        ""@
    }) + (if project.len() > 0 {
        project + "/"@
    } else {
        ""@
    }) + kind.name() + "/"@ + run_id
}

pub fn build_key_base(prefix: &str, project: &str, kind: RunKind, run_id: &str) -> (res: String)
    ensures
        res@ == key_base(prefix@, project@, kind, run_id@),
{
    proof {
        reveal_strlit("");
    }
    let bare = trim_matches(prefix, '/');
    let head = if bare.as_str().is_empty() {
        "".to_owned()
    } else {
        bare.concat("/")
    };
    let middle = if project.is_empty() {
        head.concat("")
    } else {
        let with_slash = project.to_owned().concat("/");
        head.concat(with_slash.as_str())
    };
    middle.concat(kind.segment()).concat("/").concat(run_id)
}

/// Key of one file of a run.
pub fn file_key(base: &str, file_name: &str) -> (res: String)
    ensures
        res@ == base@ + "/"@ + file_name@,
{
    base.to_owned().concat("/").concat(file_name)
}

/// How requests go to an object store.
#[derive(Debug, Clone, Copy, PartialEq, Eq, Structural)]
pub struct EndpointStyle {
    /// Whether the bucket is part of the path.
    pub path_style: bool,
    /// Whether plain HTTP is allowed.
    pub allow_http: bool,
}

/// A custom endpoint is addressed by path; only one that says so uses plain HTTP.
pub fn endpoint_style(settings: &S3Settings) -> (res: EndpointStyle)
    ensures
        res.path_style == (settings.endpoint is Some),
        res.allow_http == (settings.endpoint matches Some(endpoint) && begins_with(
            endpoint@,
            "http://"@,
        )),
{
    match &settings.endpoint {
        Some(endpoint) => EndpointStyle {
            path_style: true,
            allow_http: starts_with(endpoint.as_str(), "http://"),
        },
        None => EndpointStyle { path_style: false, allow_http: false },
    }
}

/// Whether a run is mirrored to an object store: its mode asks for it, a bucket
/// is named and the store could be set up. Otherwise its files stay local.
pub fn mirrors_to_store(mode: ArtifactStoreMode, s3: Option<&S3Settings>, store_available: bool) -> (res:
    bool)
    ensures
        res == ((mode == ArtifactStoreMode::S3 || mode == ArtifactStoreMode::Mirror) && (s3
            matches Some(settings) && settings.bucket@.len() > 0) && store_available),
{
    if !mode.uses_s3() {
        return false;
    }
    match s3 {
        Some(settings) => !settings.bucket.as_str().is_empty() && store_available,
        None => false,
    }
}

/// The name under which a file of the working directory is uploaded, with
/// slashes forward. Temporary files of atomic writes are not uploaded.
pub fn upload_name(name: &str) -> (res: Option<String>)
    ensures
        match res {
            Some(text) => !ends_with(name@, ".tmp"@) && text@ == replaced(name@, '\\', "/"@),
            None => ends_with(name@, ".tmp"@),
        },
{
    if has_suffix(name, ".tmp") {
        return None;
    }
    Some(replace(name, '\\', "/"))
}

// ---------------------------------------------------------------------------
// Checkpoints of a backtest
// ---------------------------------------------------------------------------

/// When each file was last uploaded, in nanoseconds.
pub struct CheckpointThrottle {
    pub last_upload: NameMap<u128>,
}

impl CheckpointThrottle {
    pub fn new() -> (res: CheckpointThrottle)
        ensures
            res.last_upload.wf(),
            res.last_upload@ == Map::<Seq<char>, u128>::empty(),
    {
        CheckpointThrottle { last_upload: NameMap::new() }
    }

    /// Whether a file was uploaded within the checkpoint interval.
    pub open spec fn recent(&self, file: Seq<char>, now: u128) -> bool {
        self.last_upload@.dom().contains(file) && now - self.last_upload@[file] < 60_000_000_000
    }

    /// Decides whether a file is uploaded now: not if it was within the
    /// checkpoint interval. An upload is noted.
    pub fn due(&mut self, file: &str, now: u128) -> (res: bool)
        requires
            old(self).last_upload.wf(),
        ensures
            final(self).last_upload.wf(),
            res == !old(self).recent(file@, now),
            final(self).last_upload@ == (if res {
                old(self).last_upload@.insert(file@, now)
            } else {
                old(self).last_upload@
            }),
    {
        if let Some(when) = self.last_upload.get(file) {
            let interval: u128 = Duration::from_secs(CHECKPOINT_INTERVAL_SECS).nanos;
            if now < *when || now - *when < interval {
                return false;
            }
        }
        self.last_upload.insert(file.to_owned(), now);
        true
    }
}

// ---------------------------------------------------------------------------
// Uploads of a live run
// ---------------------------------------------------------------------------

/// Upload state of one file.
#[derive(Debug, Clone, Copy, PartialEq, Eq, Structural)]
pub struct FileUploadState {
    /// An upload is running.
    pub in_flight: bool,
    /// The file changed while the upload was running.
    pub dirty: bool,
}

/// Counts since the last summary.
#[derive(Debug, Clone, Copy, PartialEq, Eq, Structural)]
pub struct LiveStats {
    pub succeeded: u64,
    pub failed: u64,
    pub timed_out: u64,
    pub coalesced: u64,
    pub dropped: u64,
}

impl LiveStats {
    pub open spec fn spec_zero() -> LiveStats {
        LiveStats { succeeded: 0, failed: 0, timed_out: 0, coalesced: 0, dropped: 0 }
    }

    pub fn zero() -> (res: LiveStats)
        ensures
            res == LiveStats::spec_zero(),
    {
        LiveStats { succeeded: 0, failed: 0, timed_out: 0, coalesced: 0, dropped: 0 }
    }

    /// Whether anything was counted.
    pub fn any_activity(&self) -> (res: bool)
        ensures
            res == (*self != LiveStats::spec_zero()),
    {
        self.succeeded != 0 || self.failed != 0 || self.timed_out != 0 || self.coalesced != 0
            || self.dropped != 0
    }

    pub open spec fn trouble(self) -> bool {
        self.failed != 0 || self.timed_out != 0 || self.dropped != 0
    }

    /// Whether anything went wrong.
    pub fn any_trouble(&self) -> (res: bool)
        ensures
            res == self.trouble(),
    {
        self.failed != 0 || self.timed_out != 0 || self.dropped != 0
    }

    /// Whether every count can go up.
    pub open spec fn has_room(self) -> bool {
        &&& self.succeeded < u64::MAX
        &&& self.failed < u64::MAX
        &&& self.timed_out < u64::MAX
        &&& self.coalesced < u64::MAX
        &&& self.dropped < u64::MAX
    }
}

/// How an upload ended.
#[derive(Debug, Clone, Copy, PartialEq, Eq, Structural)]
pub enum UploadOutcome {
    Succeeded,
    Failed,
    TimedOut,
}

/// What follows the end of an upload.
pub struct FinishReport {
    /// Upload the file again, with its newest contents.
    pub requeue: bool,
    /// Line to log when uploads work again.
    pub recovery: Option<String>,
    /// Line to log when a summary is due.
    pub summary: Option<String>,
}

/// Keeps at most one upload running per file, and one more due when the file
/// changed meanwhile. The latest contents win.
pub struct LiveMirror {
    pub files: NameMap<FileUploadState>,
    /// Number of files that are being uploaded.
    pub inflight_files: usize,
    pub stats: LiveStats,
    /// Failures since the last success.
    pub failures_since_success: u64,
    /// Instant of the last summary, in nanoseconds.
    pub last_summary: u128,
}

/// Number of files that are being uploaded.
pub open spec fn uploading(entries: Seq<(String, FileUploadState)>) -> int
    decreases entries.len(),
{
    if entries.len() == 0 {
        0
    } else {
        uploading(entries.drop_last()) + if entries.last().1.in_flight {
            1int
        } else {
            0int
        }
    }
}

proof fn lemma_uploading_update(
    entries: Seq<(String, FileUploadState)>,
    i: int,
    new: (String, FileUploadState),
)
    requires
        0 <= i < entries.len(),
    ensures
        uploading(entries.update(i, new)) == uploading(entries) + (if new.1.in_flight {
            1int
        } else {
            0int
        }) - (if entries[i].1.in_flight {
            1int
        } else {
            0int
        }),
    decreases entries.len(),
{
    let out = entries.update(i, new);
    if i < entries.len() - 1 {
        lemma_uploading_update(entries.drop_last(), i, new);
        assert(out.drop_last() =~= entries.drop_last().update(i, new));
    } else {
        assert(out.drop_last() =~= entries.drop_last());
    }
}

/// Line that sums up the uploads.
pub open spec fn summary_line(stats: LiveStats, degraded: bool) -> Seq<char> {
    "live artifact S3 mirror: "@ + nat_text(stats.succeeded as nat) + " succeeded, "@ + nat_text(
        stats.failed as nat,
    ) + " failed, "@ + nat_text(stats.timed_out as nat) + " timed out, "@ + nat_text(
        stats.coalesced as nat,
    ) + " coalesced, "@ + nat_text(stats.dropped as nat) + " dropped in the last 300s"@ + (
    if degraded {
        " (endpoint still degraded)"@
    } else {
        ""@
    })
}

/// Line that reports that uploads work again.
pub open spec fn recovery_line(failures: u64) -> Seq<char> {
    "live artifact S3 mirror recovered after "@ + nat_text(failures as nat) + " failed upload(s)"@
}

impl LiveMirror {
    /// Only uploading files can be waiting for another upload, and the count of
    /// uploading files stays within the capacity.
    pub open spec fn wf(&self) -> bool {
        &&& self.files.wf()
        &&& self.inflight_files <= LIVE_QUEUE_CAPACITY
        &&& forall|k: Seq<char>|
            self.files@.dom().contains(k) && (#[trigger] self.files@[k]).dirty
                ==> self.files@[k].in_flight
    }

    /// Whether the count of uploading files is right. It stays so as long as only
    /// uploads end that began.
    pub open spec fn counts_uploads(&self) -> bool {
        self.inflight_files == uploading(self.files.entries@)
    }

    /// State of a file; one never seen is idle.
    pub open spec fn state_of(&self, file: Seq<char>) -> FileUploadState {
        if self.files@.dom().contains(file) {
            self.files@[file]
        } else {
            FileUploadState { in_flight: false, dirty: false }
        }
    }

    pub fn new(now: u128) -> (res: LiveMirror)
        ensures
            res.wf(),
            res.counts_uploads(),
            res.files@ == Map::<Seq<char>, FileUploadState>::empty(),
            res.inflight_files == 0,
            res.stats == LiveStats::spec_zero(),
            res.failures_since_success == 0,
            res.last_summary == now,
    {
        LiveMirror {
            files: NameMap::new(),
            inflight_files: 0,
            stats: LiveStats::zero(),
            failures_since_success: 0,
            last_summary: now,
        }
    }

    /// Whether no upload is running.
    pub fn is_idle(&self) -> (res: bool)
        ensures
            res == (self.inflight_files == 0),
    {
        self.inflight_files == 0
    }

    fn lookup(&self, file_name: &str) -> (res: FileUploadState)
        requires
            self.files.wf(),
        ensures
            res == self.state_of(file_name@),
    {
        match self.files.get(file_name) {
            Some(state) => *state,
            None => FileUploadState { in_flight: false, dirty: false },
        }
    }

    /// Sets the state of a file.
    fn set_state(&mut self, file_name: &str, state: FileUploadState)
        requires
            old(self).files.wf(),
        ensures
            final(self).files.wf(),
            final(self).files@ == old(self).files@.insert(file_name@, state),
            *final(self) == (LiveMirror { files: final(self).files, ..*old(self) }),
            uploading(final(self).files.entries@) == uploading(old(self).files.entries@) + (
            if state.in_flight {
                1int
            } else {
                0int
            }) - (if old(self).state_of(file_name@).in_flight {
                1int
            } else {
                0int
            }),
    {
        let ghost before = self.files;
        let ghost key = file_name@;
        proof {
            if before@.dom().contains(key) {
                assert(before.has(key));
                let i = before.index_of(key);
                assert(before.entries@[i].0@ == key);
                before.lemma_entry(i);
            }
        }
        let name = file_name.to_owned();
        self.files.insert(name, state);
        proof {
            if before@.dom().contains(key) {
                lemma_uploading_update(before.entries@, before.index_of(key), (name, state));
            } else {
                assert(self.files.entries@.drop_last() =~= before.entries@);
            }
        }
    }

    /// Asks to upload a file. True means that the caller now uploads it. A file
    /// that is being uploaded is marked to be uploaded again; where too many
    /// files are being uploaded, the request is dropped.
    pub fn begin(&mut self, file_name: &str) -> (res: bool)
        requires
            old(self).wf(),
            old(self).stats.has_room(),
        ensures
            final(self).wf(),
            begun(*old(self), file_name@, *final(self), res),
            old(self).counts_uploads() ==> final(self).counts_uploads(),
    {
        let state = self.lookup(file_name);
        if state.in_flight {
            self.set_state(file_name, FileUploadState { in_flight: true, dirty: true });
            self.stats.coalesced = self.stats.coalesced + 1;
            return false;
        }
        if self.inflight_files >= LIVE_QUEUE_CAPACITY {
            self.stats.dropped = self.stats.dropped + 1;
            return false;
        }
        self.set_state(file_name, FileUploadState { in_flight: true, dirty: false });
        self.inflight_files = self.inflight_files + 1;
        true
    }

    /// Counts after an upload ended.
    pub open spec fn counted(stats: LiveStats, outcome: UploadOutcome) -> LiveStats {
        match outcome {
            UploadOutcome::Succeeded => LiveStats { succeeded: (stats.succeeded + 1) as u64, ..stats },
            UploadOutcome::Failed => LiveStats { failed: (stats.failed + 1) as u64, ..stats },
            UploadOutcome::TimedOut => LiveStats {
                timed_out: (stats.timed_out + 1) as u64,
                ..stats
            },
        }
    }

    /// Whether a summary is due.
    pub open spec fn summary_due(last_summary: u128, now: u128) -> bool {
        now - last_summary >= 300_000_000_000
    }

    /// Takes note of the end of an upload. A file that changed meanwhile keeps
    /// its place and is uploaded again; any other is done, and gives up one
    /// place. The first success after failures is reported, and a summary when
    /// one is due and there was something to count.
    pub fn finish(&mut self, file_name: &str, outcome: UploadOutcome, now: u128) -> (res: FinishReport)
        requires
            old(self).wf(),
            old(self).stats.has_room(),
            old(self).failures_since_success < u64::MAX,
        ensures
            final(self).wf(),
            finished(*old(self), file_name@, outcome, now, *final(self), res),
            old(self).counts_uploads() && old(self).state_of(file_name@).in_flight
                ==> final(self).counts_uploads(),
    {
        let mut recovery: Option<String> = None;
        match outcome {
            UploadOutcome::Succeeded => {
                self.stats.succeeded = self.stats.succeeded + 1;
                if self.failures_since_success != 0 {
                    let count = u64_to_text(self.failures_since_success);
                    recovery = Some(
                        "live artifact S3 mirror recovered after ".to_owned().concat(
                            count.as_str(),
                        ).concat(" failed upload(s)"),
                    );
                    self.failures_since_success = 0;
                }
            },
            UploadOutcome::Failed => {
                self.stats.failed = self.stats.failed + 1;
                self.failures_since_success = self.failures_since_success + 1;
            },
            UploadOutcome::TimedOut => {
                self.stats.timed_out = self.stats.timed_out + 1;
                self.failures_since_success = self.failures_since_success + 1;
            },
        }
        let requeue = self.lookup(file_name).dirty;
        assert(self.state_of(file_name@) == old(self).state_of(file_name@));
        if self.files.contains_key(file_name) {
            self.set_state(file_name, FileUploadState { in_flight: requeue, dirty: false });
        }
        proof {
            lemma_uploading_nonnegative(self.files.entries@);
        }
        if !requeue && self.inflight_files > 0 {
            self.inflight_files = self.inflight_files - 1;
        }
        let summary = self.maybe_take_summary(now);
        FinishReport { requeue, recovery, summary }
    }

    /// Takes the summary if one is due, and starts counting anew. Nothing to
    /// count is no summary.
    pub fn maybe_take_summary(&mut self, now: u128) -> (res: Option<String>)
        ensures
            final(self).files == old(self).files,
            final(self).inflight_files == old(self).inflight_files,
            final(self).failures_since_success == old(self).failures_since_success,
            ({
                let due = Self::summary_due(old(self).last_summary, now);
                &&& match res {
                    Some(line) => due && old(self).stats != LiveStats::spec_zero() && line@
                        == summary_line(
                        old(self).stats,
                        old(self).stats.trouble() && old(self).failures_since_success != 0,
                    ),
                    None => !due || old(self).stats == LiveStats::spec_zero(),
                }
                &&& final(self).stats == (if due {
                    LiveStats::spec_zero()
                } else {
                    old(self).stats
                })
                &&& final(self).last_summary == (if due {
                    now
                } else {
                    old(self).last_summary
                })
            }),
    {
        let interval: u128 = Duration::from_secs(LIVE_SUMMARY_INTERVAL_SECS).nanos;
        if now < self.last_summary || now - self.last_summary < interval {
            return None;
        }
        if !self.stats.any_activity() {
            self.last_summary = now;
            return None;
        }
        let succeeded = u64_to_text(self.stats.succeeded);
        let failed = u64_to_text(self.stats.failed);
        let timed_out = u64_to_text(self.stats.timed_out);
        let coalesced = u64_to_text(self.stats.coalesced);
        let dropped = u64_to_text(self.stats.dropped);
        let suffix = if self.stats.any_trouble() && self.failures_since_success != 0 {
            " (endpoint still degraded)"
        } else {
            ""
        };
        let line = "live artifact S3 mirror: ".to_owned().concat(succeeded.as_str()).concat(
            " succeeded, ",
        ).concat(failed.as_str()).concat(" failed, ").concat(timed_out.as_str()).concat(
            " timed out, ",
        ).concat(coalesced.as_str()).concat(" coalesced, ").concat(dropped.as_str()).concat(
            " dropped in the last 300s",
        ).concat(suffix);
        self.stats = LiveStats::zero();
        self.last_summary = now;
        Some(line)
    }
}

proof fn lemma_uploading_nonnegative(entries: Seq<(String, FileUploadState)>)
    ensures
        uploading(entries) >= 0,
    decreases entries.len(),
{
    if entries.len() > 0 {
        lemma_uploading_nonnegative(entries.drop_last());
    }
}

/// What a request to upload a file leads to. A file that is being uploaded is
/// marked to be uploaded again; where too many files are being uploaded, the
/// request is dropped; otherwise the upload begins.
pub open spec fn begun(before: LiveMirror, file: Seq<char>, after: LiveMirror, started: bool) -> bool {
    let state = before.state_of(file);
    let full = before.inflight_files >= LIVE_QUEUE_CAPACITY;
    &&& after.failures_since_success == before.failures_since_success
    &&& after.last_summary == before.last_summary
    &&& started == (!state.in_flight && !full)
    &&& after.files@ == (if !state.in_flight && full {
        before.files@
    } else {
        before.files@.insert(file, requested(state))
    })
    &&& after.inflight_files == before.inflight_files + (if started {
        1int
    } else {
        0int
    })
    &&& after.stats == (if state.in_flight {
        LiveStats { coalesced: (before.stats.coalesced + 1) as u64, ..before.stats }
    } else if full {
        LiveStats { dropped: (before.stats.dropped + 1) as u64, ..before.stats }
    } else {
        before.stats
    })
}

/// What the end of an upload leads to. A file that changed meanwhile keeps its
/// place and is uploaded again; any other is done. The first success after
/// failures is reported, and a summary when one is due.
pub open spec fn finished(
    before: LiveMirror,
    file: Seq<char>,
    outcome: UploadOutcome,
    now: u128,
    after: LiveMirror,
    report: FinishReport,
) -> bool {
    let stats = LiveMirror::counted(before.stats, outcome);
    let due = LiveMirror::summary_due(before.last_summary, now);
    &&& report.requeue == before.state_of(file).dirty
    &&& after.files@ == (if before.files@.dom().contains(file) {
        before.files@.insert(file, ended(before.files@[file]))
    } else {
        before.files@
    })
    &&& after.inflight_files == (if report.requeue || before.inflight_files == 0 {
        before.inflight_files as int
    } else {
        before.inflight_files - 1
    })
    &&& after.failures_since_success == (if outcome == UploadOutcome::Succeeded {
        0
    } else {
        (before.failures_since_success + 1) as u64
    })
    &&& match report.recovery {
        Some(line) => outcome == UploadOutcome::Succeeded && before.failures_since_success != 0
            && line@ == recovery_line(before.failures_since_success),
        None => outcome != UploadOutcome::Succeeded || before.failures_since_success == 0,
    }
    &&& match report.summary {
        Some(line) => due && line@ == summary_line(
            stats,
            stats.trouble() && after.failures_since_success != 0,
        ),
        None => !due,
    }
    &&& after.stats == (if due {
        LiveStats::spec_zero()
    } else {
        stats
    })
    &&& after.last_summary == (if due {
        now
    } else {
        before.last_summary
    })
}

/// State of a file after a request to upload it, where it is not dropped.
pub open spec fn requested(state: FileUploadState) -> FileUploadState {
    if state.in_flight {
        FileUploadState { in_flight: true, dirty: true }
    } else {
        FileUploadState { in_flight: true, dirty: false }
    }
}

/// State of a file after its upload ended.
pub open spec fn ended(state: FileUploadState) -> FileUploadState {
    FileUploadState { in_flight: state.dirty, dirty: false }
}

/// A file is asked for again and again. `mirrors[i]` is the mirror before
/// request `i`, and `started[i]` tells whether the request begins an upload.
pub open spec fn requested_in_turn(
    mirrors: Seq<LiveMirror>,
    file: Seq<char>,
    started: Seq<bool>,
) -> bool {
    &&& mirrors.len() == started.len() + 1
    &&& forall|i: int|
        0 <= i < started.len() ==> begun(
            mirrors[i],
            file,
            mirrors[i + 1],
            #[trigger] started[i],
        )
}

proof fn lemma_requested_in_turn(
    mirrors: Seq<LiveMirror>,
    file: Seq<char>,
    started: Seq<bool>,
    n: int,
)
    requires
        requested_in_turn(mirrors, file, started),
        1 <= n <= started.len(),
        started[0],
    ensures
        mirrors[n].state_of(file) == (FileUploadState { in_flight: true, dirty: n > 1 }),
        mirrors[n].inflight_files == mirrors[0].inflight_files + 1,
    decreases n,
{
    assert(begun(mirrors[n - 1], file, mirrors[n - 1 + 1], started[n - 1]));
    if n > 1 {
        lemma_requested_in_turn(mirrors, file, started, n - 1);
    }
}

/// The latest contents win, and requests for one file do not pile up: however
/// often a file changes while it is being uploaded, no request begins a second
/// upload meanwhile, exactly one more upload follows in the same place, and
/// after that one the file is done. A file that did not change is done at once.
pub proof fn law_changes_coalesce_into_one_upload(
    mirrors: Seq<LiveMirror>,
    file: Seq<char>,
    started: Seq<bool>,
    first_outcome: UploadOutcome,
    first_now: u128,
    between: LiveMirror,
    first: FinishReport,
    second_outcome: UploadOutcome,
    second_now: u128,
    after: LiveMirror,
    second: FinishReport,
)
    requires
        requested_in_turn(mirrors, file, started),
        started.len() > 0,
        started[0],
        finished(mirrors.last(), file, first_outcome, first_now, between, first),
        finished(between, file, second_outcome, second_now, after, second),
    ensures
        forall|i: int| 1 <= i < started.len() ==> !#[trigger] started[i],
        first.requeue == (started.len() > 1),
        first.requeue ==> {
            &&& between.state_of(file) == (FileUploadState { in_flight: true, dirty: false })
            &&& between.inflight_files == mirrors[0].inflight_files + 1
            &&& !second.requeue
            &&& after.state_of(file) == (FileUploadState { in_flight: false, dirty: false })
            &&& after.inflight_files == mirrors[0].inflight_files
        },
        !first.requeue ==> {
            &&& between.state_of(file) == (FileUploadState { in_flight: false, dirty: false })
            &&& between.inflight_files == mirrors[0].inflight_files
        },
{
    assert forall|i: int| 1 <= i < started.len() implies !#[trigger] started[i] by {
        lemma_requested_in_turn(mirrors, file, started, i);
        assert(begun(mirrors[i], file, mirrors[i + 1], started[i]));
    }
    lemma_requested_in_turn(mirrors, file, started, started.len() as int);
}

// ---------------------------------------------------------------------------
// The sink of a run
// ---------------------------------------------------------------------------

/// Seconds that the end of a run waits for running uploads beyond their timeout.
pub const FLUSH_MARGIN_SECS: u64 = 1;

/// What follows the change of a file.
pub enum MirrorAction {
    /// Nothing is uploaded now.
    Nothing,
    /// The file is uploaded under this key before the run goes on.
    UploadNow(String),
    /// The file is uploaded under this key in the background; its end goes to
    /// [`RunArtifactSink::finish_upload`].
    UploadInBackground(String),
}

/// Where the files of one run go. `D` is how a directory is named.
pub struct RunArtifactSink<D> {
    pub mode: ArtifactStoreMode,
    /// Directory that the files are written into.
    pub working_dir: D,
    /// Key under which the files are mirrored, if they are.
    pub key_base: Option<String>,
    /// Uploads of a live run.
    pub live: Option<LiveMirror>,
    /// Whether the working directory is a temporary one.
    pub owns_working_dir: bool,
    pub checkpoints: CheckpointThrottle,
}

impl<D> RunArtifactSink<D> {
    pub open spec fn wf(&self) -> bool {
        &&& self.checkpoints.last_upload.wf()
        &&& self.live matches Some(live) ==> live.wf() && live.counts_uploads()
        &&& self.key_base is None ==> self.mode == ArtifactStoreMode::Local && self.live is None
            && !self.owns_working_dir
    }

    /// Whether every count of the uploads can go up.
    pub open spec fn has_room(&self) -> bool {
        self.live matches Some(live) ==> live.stats.has_room() && live.failures_since_success
            < u64::MAX
    }

    /// The sink of a run whose files stay in its own directory.
    pub fn local(dir: D) -> (res: RunArtifactSink<D>)
        ensures
            res.wf(),
            res.mode == ArtifactStoreMode::Local,
            res.working_dir == dir,
            res.key_base is None,
            res.live is None,
            !res.owns_working_dir,
            res.checkpoints.last_upload@ == Map::<Seq<char>, u128>::empty(),
    {
        RunArtifactSink {
            mode: ArtifactStoreMode::Local,
            working_dir: dir,
            key_base: None,
            live: None,
            owns_working_dir: false,
            checkpoints: CheckpointThrottle::new(),
        }
    }

    /// The sink of a run. Its files are mirrored where the mode asks for it, a
    /// bucket is named and the store could be set up; otherwise they stay in the
    /// directory of the run.
    pub fn new(
        mode: ArtifactStoreMode,
        kind: RunKind,
        local_dir: D,
        project: &str,
        run_id: &str,
        s3: Option<&S3Settings>,
        store_available: bool,
        temp_dir: Option<D>,
        now: u128,
    ) -> (res: RunArtifactSink<D>)
        ensures
            res.wf(),
            ({
                let mirrored = (mode == ArtifactStoreMode::S3 || mode == ArtifactStoreMode::Mirror)
                    && store_available && (s3 matches Some(settings) && settings.bucket@.len() > 0);
                &&& res.mode == (if mirrored {
                    mode
                } else {
                    ArtifactStoreMode::Local
                })
                &&& match res.key_base {
                    Some(key) => mirrored && (s3 matches Some(settings) && key@ == key_base(
                        settings.prefix@,
                        project@,
                        kind,
                        run_id@,
                    )),
                    None => !mirrored,
                }
                &&& res.live is Some <==> mirrored && kind == RunKind::Live
                &&& res.live matches Some(live) ==> live.files@ == Map::<
                    Seq<char>,
                    FileUploadState,
                >::empty() && live.inflight_files == 0 && live.stats == LiveStats::spec_zero()
                    && live.failures_since_success == 0 && live.last_summary == now
                &&& res.working_dir == (match temp_dir {
                    Some(dir) if mirrored && mode == ArtifactStoreMode::S3 => dir,
                    _ => local_dir,
                })
                &&& res.owns_working_dir == (mirrored && mode == ArtifactStoreMode::S3
                    && temp_dir is Some)
                &&& res.checkpoints.last_upload@ == Map::<Seq<char>, u128>::empty()
            }),
    {
        if !mirrors_to_store(mode, s3, store_available) {
            return RunArtifactSink::local(local_dir);
        }
        match s3 {
            Some(settings) => RunArtifactSink::with_store(
                mode,
                kind,
                local_dir,
                project,
                run_id,
                settings.prefix.as_str(),
                temp_dir,
                now,
            ),
            None => RunArtifactSink::local(local_dir),
        }
    }

    /// The sink of a run that is mirrored to a store. Files that are kept in the
    /// store alone go through a temporary directory, where one could be made.
    pub fn with_store(
        mode: ArtifactStoreMode,
        kind: RunKind,
        local_dir: D,
        project: &str,
        run_id: &str,
        prefix: &str,
        temp_dir: Option<D>,
        now: u128,
    ) -> (res: RunArtifactSink<D>)
        ensures
            res.wf(),
            res.mode == mode,
            res.working_dir == (match temp_dir {
                Some(dir) if mode == ArtifactStoreMode::S3 => dir,
                _ => local_dir,
            }),
            res.key_base matches Some(key) && key@ == key_base(prefix@, project@, kind, run_id@),
            res.live is Some <==> kind == RunKind::Live,
            res.live matches Some(live) ==> live.files@ == Map::<
                Seq<char>,
                FileUploadState,
            >::empty() && live.inflight_files == 0 && live.stats == LiveStats::spec_zero()
                && live.failures_since_success == 0 && live.last_summary == now,
            res.owns_working_dir == (mode == ArtifactStoreMode::S3 && temp_dir is Some),
            res.checkpoints.last_upload@ == Map::<Seq<char>, u128>::empty(),
    {
        let live = if kind == RunKind::Live {
            Some(LiveMirror::new(now))
        } else {
            None
        };
        let (working_dir, owns_working_dir) = match temp_dir {
            Some(dir) => if mode == ArtifactStoreMode::S3 {
                (dir, true)
            } else {
                (local_dir, false)
            },
            None => (local_dir, false),
        };
        RunArtifactSink {
            mode,
            working_dir,
            key_base: Some(build_key_base(prefix, project, kind, run_id)),
            live,
            owns_working_dir,
            checkpoints: CheckpointThrottle::new(),
        }
    }

    /// The directory that the files are written into.
    pub fn working_dir(&self) -> (res: &D)
        ensures
            *res == self.working_dir,
    {
        &self.working_dir
    }

    /// Key under which the files of the run are mirrored, if they are.
    pub fn s3_key_base(&self) -> (res: Option<&str>)
        ensures
            match res {
                Some(key) => self.key_base matches Some(base) && key@ == base@,
                None => self.key_base is None,
            },
    {
        match &self.key_base {
            Some(base) => Some(base.as_str()),
            None => None,
        }
    }

    pub fn mode(&self) -> (res: ArtifactStoreMode)
        ensures
            res == self.mode,
    {
        self.mode
    }

    /// Whether the files of the run lie in its own directory.
    pub fn writes_local_run_dir(&self) -> (res: bool)
        ensures
            res == (self.mode != ArtifactStoreMode::S3),
    {
        self.mode != ArtifactStoreMode::S3
    }

    /// Whether the working directory is deleted at the end.
    pub fn removes_working_dir(&self) -> (res: bool)
        ensures
            res == (self.owns_working_dir && self.mode == ArtifactStoreMode::S3),
    {
        self.owns_working_dir && self.mode == ArtifactStoreMode::S3
    }

    /// Key of one file of the run.
    pub fn key_for(&self, file_name: &str) -> (res: Option<String>)
        ensures
            match res {
                Some(key) => self.key_base matches Some(base) && key@ == base@ + "/"@ + file_name@,
                None => self.key_base is None,
            },
    {
        match &self.key_base {
            Some(base) => Some(file_key(base.as_str(), file_name)),
            None => None,
        }
    }

    /// Takes note of the change of a file. A local run uploads nothing. A
    /// backtest uploads a file at most once per checkpoint interval. A live run
    /// uploads it in the background, unless it is being uploaded already or too
    /// many files are.
    pub fn mirror(&mut self, file_name: &str, now: u128) -> (res: MirrorAction)
        requires
            old(self).wf(),
            old(self).has_room(),
        ensures
            final(self).wf(),
            final(self).mode == old(self).mode,
            final(self).working_dir == old(self).working_dir,
            final(self).key_base == old(self).key_base,
            final(self).owns_working_dir == old(self).owns_working_dir,
            match old(self).key_base {
                None => res is Nothing && *final(self) == *old(self),
                Some(base) => {
                    let key = base@ + "/"@ + file_name@;
                    match old(self).live {
                        Some(before) => {
                            &&& final(self).checkpoints == old(self).checkpoints
                            &&& final(self).live matches Some(after) && begun(
                                before,
                                file_name@,
                                after,
                                res is UploadInBackground,
                            )
                            &&& match res {
                                MirrorAction::UploadInBackground(k) => k@ == key,
                                MirrorAction::Nothing => true,
                                MirrorAction::UploadNow(_) => false,
                            }
                        },
                        None => {
                            let recent = old(self).checkpoints.recent(file_name@, now);
                            &&& final(self).live is None
                            &&& match res {
                                MirrorAction::UploadNow(k) => !recent && k@ == key,
                                MirrorAction::Nothing => recent,
                                MirrorAction::UploadInBackground(_) => false,
                            }
                            &&& final(self).checkpoints.last_upload@ == (if recent {
                                old(self).checkpoints.last_upload@
                            } else {
                                old(self).checkpoints.last_upload@.insert(file_name@, now)
                            })
                        },
                    }
                },
            },
    {
        let key = match self.key_for(file_name) {
            Some(key) => key,
            None => {
                return MirrorAction::Nothing;
            },
        };
        match self.live.take() {
            Some(live) => {
                let mut live = live;
                let begun = live.begin(file_name);
                self.live = Some(live);
                if begun {
                    MirrorAction::UploadInBackground(key)
                } else {
                    MirrorAction::Nothing
                }
            },
            None => {
                self.live = None;
                if self.checkpoints.due(file_name, now) {
                    MirrorAction::UploadNow(key)
                } else {
                    MirrorAction::Nothing
                }
            },
        }
    }

    /// Takes note of the end of an upload in the background. There is a report
    /// where such an upload was running.
    pub fn finish_upload(&mut self, file_name: &str, outcome: UploadOutcome, now: u128) -> (res: Option<
        FinishReport,
    >)
        requires
            old(self).wf(),
            old(self).has_room(),
        ensures
            final(self).wf(),
            final(self).mode == old(self).mode,
            final(self).working_dir == old(self).working_dir,
            final(self).key_base == old(self).key_base,
            final(self).owns_working_dir == old(self).owns_working_dir,
            final(self).checkpoints == old(self).checkpoints,
            match old(self).live {
                Some(before) if before.state_of(file_name@).in_flight => {
                    &&& final(self).live matches Some(after) && res matches Some(report)
                        && finished(before, file_name@, outcome, now, after, report)
                },
                _ => res is None && *final(self) == *old(self),
            },
    {
        match self.live.take() {
            Some(live) => {
                let mut live = live;
                if !live.lookup(file_name).in_flight {
                    self.live = Some(live);
                    return None;
                }
                let report = live.finish(file_name, outcome, now);
                self.live = Some(live);
                Some(report)
            },
            None => {
                self.live = None;
                None
            },
        }
    }

    /// Whether the end of the run goes on waiting for running uploads: while
    /// there are any, and not longer than an upload may take.
    pub fn waits_for_uploads(&self, waited: Duration) -> (res: bool)
        ensures
            res == ((self.live matches Some(live) && live.inflight_files != 0) && waited.nanos
                < 61_000_000_000),
    {
        match &self.live {
            Some(live) => !live.is_idle() && waited.nanos < Duration::from_secs(
                UPLOAD_TIMEOUT_SECS + FLUSH_MARGIN_SECS,
            ).nanos,
            None => false,
        }
    }

    /// The uploads that end a run: every file of the working directory but
    /// temporary ones, each with its key. A local run has none.
    pub fn flush_all(&self, files: &Vec<String>) -> (res: Vec<(usize, String)>)
        ensures
            match self.key_base {
                Some(base) => flushed(base@, texts(files@)) == flush_view(res@),
                None => res@.len() == 0,
            },
    {
        let mut out: Vec<(usize, String)> = Vec::new();
        let base = match &self.key_base {
            Some(base) => base,
            None => {
                return out;
            },
        };
        let ghost names = texts(files@);
        let mut i: usize = 0;
        assert(names.take(0) =~= Seq::<Seq<char>>::empty());
        assert(flush_view(out@) =~= Seq::empty());
        while i < files.len()
            invariant
                i <= files@.len(),
                names == texts(files@),
                self.key_base == Some(*base),
                flushed(base@, names.take(i as int)) == flush_view(out@),
            decreases files.len() - i,
        {
            let ghost before = out@;
            proof {
                assert(names.take(i + 1).drop_last() =~= names.take(i as int));
                assert(names.take(i + 1).last() == files@[i as int]@);
            }
            if let Some(name) = upload_name(files[i].as_str()) {
                let key = file_key(base.as_str(), name.as_str());
                out.push((i, key));
                assert(flush_view(out@) =~= flush_view(before).push((i as int, key@)));
            }
            i = i + 1;
        }
        assert(names.take(i as int) =~= names);
        out
    }
}

/// Positions and keys as values.
pub open spec fn flush_view(uploads: Seq<(usize, String)>) -> Seq<(int, Seq<char>)> {
    uploads.map_values(|upload: (usize, String)| (upload.0 as int, upload.1@))
}

/// Positions and keys of the files that are uploaded at the end of a run.
pub open spec fn flushed(base: Seq<char>, names: Seq<Seq<char>>) -> Seq<(int, Seq<char>)>
    decreases names.len(),
{
    if names.len() == 0 {
        Seq::empty()
    } else {
        let head = flushed(base, names.drop_last());
        if ends_with(names.last(), ".tmp"@) {
            head
        } else {
            head.push(
                (names.len() - 1, base + "/"@ + replaced(names.last(), '\\', "/"@)),
            )
        }
    }
}

/// A mode is known by its name, whatever the case and the white space around it;
/// nothing else names one.
pub proof fn law_modes_are_named(text: Seq<char>)
    ensures
        mode_named(text) == Some(ArtifactStoreMode::Local) <==> text == "local"@,
        mode_named(text) == Some(ArtifactStoreMode::S3) <==> text == "s3"@,
        mode_named(text) == Some(ArtifactStoreMode::Mirror) <==> text == "mirror"@,
{
    reveal_strlit("local");
    reveal_strlit("s3");
    reveal_strlit("mirror");
    assert("local"@.len() == 5 && "s3"@.len() == 2 && "mirror"@.len() == 6);
}

/// The key of a run ends with the run, behind the kind of run; in front of it stands
/// the project, and the prefix in front of that, each with one slash and only where
/// there is one. Slashes around the prefix make no difference.
pub proof fn law_keys_name_their_run(
    prefix: Seq<char>,
    project: Seq<char>,
    kind: RunKind,
    run_id: Seq<char>,
)
    ensures
        ({
            let key = key_base(prefix, project, kind, run_id);
            let tail = kind.name() + "/"@ + run_id;
            let bare = strip_back(strip_front(prefix, |c: char| c == '/'), |c: char| c == '/');
            &&& key.len() >= tail.len()
            &&& key.subrange(key.len() - tail.len(), key.len() as int) == tail
            &&& bare.len() == 0 && project.len() == 0 ==> key == tail
            &&& bare.len() == 0 && project.len() > 0 ==> key == project + "/"@ + tail
            &&& bare.len() > 0 && project.len() == 0 ==> key == bare + "/"@ + tail
            &&& bare.len() > 0 && project.len() > 0 ==> key == bare + "/"@ + project + "/"@ + tail
        }),
        RunKind::Backtest.name() != RunKind::Live.name(),
{
    reveal_strlit("");
    reveal_strlit("/");
    reveal_strlit("backtests");
    reveal_strlit("live");
    let key = key_base(prefix, project, kind, run_id);
    let tail = kind.name() + "/"@ + run_id;
    let bare = strip_back(strip_front(prefix, |c: char| c == '/'), |c: char| c == '/');
    assert(key.subrange(key.len() - tail.len(), key.len() as int) =~= tail);
    if bare.len() == 0 && project.len() == 0 {
        assert(key =~= tail);
    }
    if bare.len() == 0 && project.len() > 0 {
        assert(key =~= project + "/"@ + tail);
    }
    if bare.len() > 0 && project.len() == 0 {
        assert(key =~= bare + "/"@ + tail);
    }
    if bare.len() > 0 && project.len() > 0 {
        assert(key =~= bare + "/"@ + project + "/"@ + tail);
    }
    assert(RunKind::Backtest.name().len() != RunKind::Live.name().len());
}

/// At the end of a run every file is uploaded under its own key, in order; only
/// temporary files are left out.
pub proof fn law_every_file_is_flushed(base: Seq<char>, names: Seq<Seq<char>>, name: Seq<char>)
    ensures
        flushed(base, names.push(name)) == (if ends_with(name, ".tmp"@) {
            flushed(base, names)
        } else {
            flushed(base, names).push(
                (names.len() as int, base + "/"@ + replaced(name, '\\', "/"@)),
            )
        }),
        flushed(base, Seq::empty()).len() == 0,
{
    assert(names.push(name).drop_last() =~= names);
}

/// Each end of an upload is counted once, under what it was.
pub proof fn law_each_upload_is_counted_once(stats: LiveStats, outcome: UploadOutcome)
    requires
        stats.has_room(),
    ensures
        ({
            let after = LiveMirror::counted(stats, outcome);
            &&& after.succeeded + after.failed + after.timed_out == stats.succeeded + stats.failed
                + stats.timed_out + 1
            &&& after.succeeded == stats.succeeded + (if outcome == UploadOutcome::Succeeded {
                1int
            } else {
                0int
            })
            &&& after.failed == stats.failed + (if outcome == UploadOutcome::Failed {
                1int
            } else {
                0int
            })
            &&& after.coalesced == stats.coalesced
            &&& after.dropped == stats.dropped
        }),
{
}

/// A request to upload a file either begins an upload, is joined to the one that runs,
/// or is dropped where too many files are being uploaded. It never touches another
/// file, and places are given out only up to their number.
pub proof fn law_requests_for_uploads(
    before: LiveMirror,
    file: Seq<char>,
    after: LiveMirror,
    started: bool,
    other: Seq<char>,
)
    requires
        begun(before, file, after, started),
        before.stats.has_room(),
    ensures
        other != file ==> after.state_of(other) == before.state_of(other),
        before.state_of(file).in_flight ==> !started && after.state_of(file).dirty
            && after.state_of(file).in_flight && after.inflight_files == before.inflight_files
            && after.stats.coalesced == before.stats.coalesced + 1,
        !before.state_of(file).in_flight && before.inflight_files < LIVE_QUEUE_CAPACITY ==> started
            && after.state_of(file).in_flight && !after.state_of(file).dirty
            && after.inflight_files == before.inflight_files + 1 && after.stats == before.stats,
        !before.state_of(file).in_flight && before.inflight_files >= LIVE_QUEUE_CAPACITY ==> !started
            && after.files@ == before.files@ && after.inflight_files == before.inflight_files
            && after.stats.dropped == before.stats.dropped + 1,
{
}

/// The end of an upload frees the place of its file, unless the file changed meanwhile;
/// it never touches another file. Failures are counted until the next success, which
/// reports how many there were.
pub proof fn law_ends_of_uploads(
    before: LiveMirror,
    file: Seq<char>,
    outcome: UploadOutcome,
    now: u128,
    after: LiveMirror,
    report: FinishReport,
    other: Seq<char>,
)
    requires
        finished(before, file, outcome, now, after, report),
        before.failures_since_success < u64::MAX,
    ensures
        other != file ==> after.state_of(other) == before.state_of(other),
        !after.state_of(file).dirty,
        report.requeue == before.state_of(file).dirty,
        after.state_of(file).in_flight == before.state_of(file).dirty,
        outcome == UploadOutcome::Succeeded ==> after.failures_since_success == 0,
        outcome != UploadOutcome::Succeeded ==> after.failures_since_success
            == before.failures_since_success + 1,
        report.recovery is Some <==> outcome == UploadOutcome::Succeeded
            && before.failures_since_success > 0,
        report.summary is Some <==> now >= before.last_summary + 300_000_000_000,
        report.summary is Some ==> after.last_summary == now && after.stats.succeeded == 0
            && after.stats.failed == 0 && after.stats.timed_out == 0 && after.stats.coalesced == 0
            && after.stats.dropped == 0,
        report.summary is None ==> after.last_summary == before.last_summary,
{
}

/// A file of a backtest was uploaded recently if that was less than a minute ago; one that
/// was never uploaded was not.
pub proof fn law_recent_uploads(throttle: CheckpointThrottle, file: Seq<char>, now: u128)
    ensures
        !throttle.last_upload@.dom().contains(file) ==> !throttle.recent(file, now),
        throttle.last_upload@.dom().contains(file) ==> (throttle.recent(file, now) <==> now
            < throttle.last_upload@[file] + 60_000_000_000),
{
}

/// A file that was never asked for is idle.
pub proof fn law_unknown_files_are_idle(mirror: LiveMirror, file: Seq<char>)
    ensures
        !mirror.files@.dom().contains(file) ==> !mirror.state_of(file).in_flight
            && !mirror.state_of(file).dirty,
        mirror.files@.dom().contains(file) ==> mirror.state_of(file) == mirror.files@[file],
        mirror.wf() && mirror.state_of(file).dirty ==> mirror.state_of(file).in_flight,
{
}

/// The count of uploading files goes up by one with each that is added while it is
/// uploaded, and not otherwise.
pub proof fn law_uploading_files_are_counted(
    entries: Seq<(String, FileUploadState)>,
    entry: (String, FileUploadState),
)
    ensures
        uploading(entries.push(entry)) == uploading(entries) + (if entry.1.in_flight {
            1int
        } else {
            0int
        }),
        uploading(Seq::empty()) == 0,
        0 <= uploading(entries) <= entries.len(),
    decreases entries.len(),
{
    assert(entries.push(entry).drop_last() =~= entries);
    if entries.len() > 0 {
        law_uploading_files_are_counted(entries.drop_last(), entries.last());
    }
}

/// Uploads were troubled if any failed, timed out or was dropped.
pub proof fn law_troubled_uploads(stats: LiveStats)
    ensures
        stats.trouble() <==> stats.failed > 0 || stats.timed_out > 0 || stats.dropped > 0,
        !LiveStats::spec_zero().trouble(),
        stats == LiveStats::spec_zero() <==> stats.succeeded == 0 && stats.failed == 0
            && stats.timed_out == 0 && stats.coalesced == 0 && stats.dropped == 0,
{
}

/// A summary is due five minutes after the last one.
pub proof fn law_summaries_come_every_five_minutes(last: u128, now: u128)
    ensures
        LiveMirror::summary_due(last, now) <==> now >= last + 5 * 60 * 1_000_000_000,
{
}

} // verus!
