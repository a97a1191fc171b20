//! Clipping jobs of the desktop app: what a job clips, its status and progress, and the table
//! of jobs that the app starts, cancels, updates and lists.
use vstd::prelude::*;
use crate::domain::opt_view;
use crate::config::{config_error_message, config_problem, join_path, join_path_exec, Config};
use crate::pipeline::{new_uuid, RunSummary};
use crate::text::{chars_of, extend_str, str_starts_with, string_of};

verus! {

/// What a clipping job clips.
#[derive(Debug)]
pub enum JobSource {
    /// A live Twitch channel.
    Channel { channel: String },
    /// A whole Twitch VOD.
    Vod { url: String },
    /// A slice of a Twitch VOD.
    VodSlice { url: String, start_ms: i64, end_ms: i64 },
}

/// The content of a [`JobSource`].
pub enum SourceView {
    Channel { channel: Seq<char> },
    Vod { url: Seq<char> },
    VodSlice { url: Seq<char>, start_ms: i64, end_ms: i64 },
}

impl View for JobSource {
    type V = SourceView;

    open spec fn view(&self) -> SourceView {
        match self {
            JobSource::Channel { channel } => SourceView::Channel { channel: channel@ },
            JobSource::Vod { url } => SourceView::Vod { url: url@ },
            JobSource::VodSlice { url, start_ms, end_ms } => SourceView::VodSlice {
                url: url@,
                start_ms: *start_ms,
                end_ms: *end_ms,
            },
        }
    }
}

impl JobSource {
    /// A copy of the source.
    pub fn duplicate(&self) -> (out: JobSource)
        ensures
            out@ == self@,
    {
        match self {
            JobSource::Channel { channel } => JobSource::Channel { channel: channel.clone() },
            JobSource::Vod { url } => JobSource::Vod { url: url.clone() },
            JobSource::VodSlice { url, start_ms, end_ms } => JobSource::VodSlice {
                url: url.clone(),
                start_ms: *start_ms,
                end_ms: *end_ms,
            },
        }
    }
}

/// Whether `c` is an ASCII letter, digit or underscore.
pub open spec fn channel_char(c: char) -> bool {
    ('a' <= c && c <= 'z') || ('A' <= c && c <= 'Z') || ('0' <= c && c <= '9') || c == '_'
}

/// Whether a URL points at a Twitch VOD page.
pub open spec fn twitch_vod_url(url: Seq<char>) -> bool {
    crate::text::spec_starts_with(url, "https://www.twitch.tv/videos/"@) || crate::text::spec_starts_with(
        url,
        "https://twitch.tv/videos/"@,
    )
}

/// Why a source is refused, if it is.
pub open spec fn source_error(s: SourceView) -> Option<Seq<char>> {
    match s {
        SourceView::Channel { channel } => if channel.len() > 0 && forall|i: int|
            0 <= i < channel.len() ==> channel_char(#[trigger] channel[i]) {
            None
        } else {
            Some("invalid Twitch channel login"@)
        },
        SourceView::Vod { url } => if twitch_vod_url(url) { None } else { Some("invalid Twitch VOD URL"@) },
        SourceView::VodSlice { url, start_ms, end_ms } => if twitch_vod_url(url) && start_ms >= 0 && end_ms > start_ms
            && end_ms - start_ms >= 5_000 {
            None
        } else {
            Some("invalid Twitch VOD slice"@)
        },
    }
}

fn is_vod_url(url: &str) -> (b: bool)
    ensures
        b == twitch_vod_url(url@),
{
    str_starts_with(url, "https://www.twitch.tv/videos/") || str_starts_with(url, "https://twitch.tv/videos/")
}

/// Checks what a job is asked to clip.
pub fn validate_source(source: &JobSource) -> (r: Result<(), String>)
    ensures
        match source_error(source@) {
            None => r is Ok,
            Some(m) => r matches Err(e) && e@ == m,
        },
{
    match source {
        JobSource::Channel { channel } => {
            let chars = chars_of(channel.as_str());
            let mut ok = chars.len() > 0;
            let mut i: usize = 0;
            while i < chars.len()
                invariant
                    i <= chars@.len(),
                    chars@ == channel@,
                    ok == (chars@.len() > 0 && forall|j: int| 0 <= j < i ==> channel_char(#[trigger] chars@[j])),
                decreases chars.len() - i,
            {
                let c = chars[i];
                let good = ('a' <= c && c <= 'z') || ('A' <= c && c <= 'Z') || ('0' <= c && c <= '9') || c == '_';
                if !good {
                    ok = false;
                }
                i = i + 1;
            }
            if ok { Ok(()) } else { Err("invalid Twitch channel login".to_owned()) }
        },
        JobSource::Vod { url } => {
            if is_vod_url(url.as_str()) { Ok(()) } else { Err("invalid Twitch VOD URL".to_owned()) }
        },
        JobSource::VodSlice { url, start_ms, end_ms } => {
            if is_vod_url(url.as_str()) && *start_ms >= 0 && *end_ms > *start_ms && *end_ms - *start_ms >= 5_000 {
                Ok(())
            } else {
                Err("invalid Twitch VOD slice".to_owned())
            }
        },
    }
}

/// Where a job is in its life.
#[derive(Debug, Clone, Copy, PartialEq, Eq, Structural)]
pub enum JobStatus {
    Queued,
    Running,
    Cancelling,
    Completed,
    Cancelled,
    Failed,
}

/// What a running job reports.
#[derive(Debug)]
pub struct JobProgress {
    pub phase: String,
    pub message: String,
    pub elapsed_ms: u64,
    pub captured_ms: Option<i64>,
    pub completed_units: Option<usize>,
    pub total_units: Option<usize>,
    pub transferred_bytes: Option<u64>,
    pub summary: Option<RunSummary>,
}

/// The content of a [`JobProgress`].
pub struct ProgressView {
    pub phase: Seq<char>,
    pub message: Seq<char>,
    pub elapsed_ms: u64,
    pub captured_ms: Option<i64>,
    pub completed_units: Option<usize>,
    pub total_units: Option<usize>,
    pub transferred_bytes: Option<u64>,
    pub summary: Option<RunSummary>,
}

impl View for JobProgress {
    type V = ProgressView;

    open spec fn view(&self) -> ProgressView {
        ProgressView {
            phase: self.phase@,
            message: self.message@,
            elapsed_ms: self.elapsed_ms,
            captured_ms: self.captured_ms,
            completed_units: self.completed_units,
            total_units: self.total_units,
            transferred_bytes: self.transferred_bytes,
            summary: self.summary,
        }
    }
}

impl JobProgress {
    /// A copy of the progress report.
    pub fn duplicate(&self) -> (out: JobProgress)
        ensures
            out@ == self@,
    {
        JobProgress {
            phase: self.phase.clone(),
            message: self.message.clone(),
            elapsed_ms: self.elapsed_ms,
            captured_ms: self.captured_ms,
            completed_units: self.completed_units,
            total_units: self.total_units,
            transferred_bytes: self.transferred_bytes,
            summary: self.summary,
        }
    }
}

/// The app's view of one job.
#[derive(Debug)]
pub struct JobSnapshot {
    pub id: String,
    pub source: JobSource,
    pub channel: Option<String>,
    pub output_dir: String,
    pub status: JobStatus,
    pub progress: JobProgress,
    pub summary: Option<RunSummary>,
    pub error: Option<String>,
    pub created_at_ms: u64,
    pub finished_at_ms: Option<u64>,
}

/// The content of a [`JobSnapshot`].
pub struct JobView {
    pub id: Seq<char>,
    pub source: SourceView,
    pub channel: Option<Seq<char>>,
    pub output_dir: Seq<char>,
    pub status: JobStatus,
    pub progress: ProgressView,
    pub summary: Option<RunSummary>,
    pub error: Option<Seq<char>>,
    pub created_at_ms: u64,
    pub finished_at_ms: Option<u64>,
}

impl View for JobSnapshot {
    type V = JobView;

    open spec fn view(&self) -> JobView {
        JobView {
            id: self.id@,
            source: self.source@,
            channel: opt_view(self.channel),
            output_dir: self.output_dir@,
            status: self.status,
            progress: self.progress@,
            summary: self.summary,
            error: opt_view(self.error),
            created_at_ms: self.created_at_ms,
            finished_at_ms: self.finished_at_ms,
        }
    }
}

impl JobSnapshot {
    /// A copy of the snapshot.
    pub fn duplicate(&self) -> (out: JobSnapshot)
        ensures
            out@ == self@,
    {
        JobSnapshot {
            id: self.id.clone(),
            source: self.source.duplicate(),
            channel: crate::domain::copy_opt_string(&self.channel),
            output_dir: self.output_dir.clone(),
            status: self.status,
            progress: self.progress.duplicate(),
            summary: self.summary,
            error: crate::domain::copy_opt_string(&self.error),
            created_at_ms: self.created_at_ms,
            finished_at_ms: self.finished_at_ms,
        }
    }
}

/// The snapshot of a job just started.
pub open spec fn queued_job(id: Seq<char>, source: SourceView, output_dir: Seq<char>, now_ms: u64) -> JobView {
    JobView {
        id,
        source,
        channel: match source {
            SourceView::Channel { channel } => Some(channel),
            _ => None,
        },
        output_dir,
        status: JobStatus::Queued,
        progress: ProgressView {
            phase: "queued"@,
            message: "Job queued"@,
            elapsed_ms: 0,
            captured_ms: None,
            completed_units: None,
            total_units: None,
            transferred_bytes: None,
            summary: None,
        },
        summary: None,
        error: None,
        created_at_ms: now_ms,
        finished_at_ms: None,
    }
}

/// The snapshot of a new job: queued, with the channel named when the source is a channel.
pub fn queued_snapshot(id: String, source: JobSource, output_dir: String, now_ms: u64) -> (s: JobSnapshot)
    ensures
        s@ == queued_job(id@, source@, output_dir@, now_ms),
{
    let channel = match &source {
        JobSource::Channel { channel } => Some(channel.clone()),
        _ => None,
    };
    JobSnapshot {
        id,
        source,
        channel,
        output_dir,
        status: JobStatus::Queued,
        progress: JobProgress {
            phase: "queued".to_owned(),
            message: "Job queued".to_owned(),
            elapsed_ms: 0,
            captured_ms: None,
            completed_units: None,
            total_units: None,
            transferred_bytes: None,
            summary: None,
        },
        summary: None,
        error: None,
        created_at_ms: now_ms,
        finished_at_ms: None,
    }
}

/// The bundled transcription and voice-activity models.
#[derive(Debug, Clone)]
pub struct ModelPaths {
    pub large_turbo_transcription: String,
    pub tiny_transcription: String,
    pub voice_activity_detection: String,
}

/// Whether no two jobs share an id.
pub open spec fn ids_unique(s: Seq<JobView>) -> bool {
    forall|i: int, j: int| 0 <= i < j < s.len() ==> (#[trigger] s[i]).id != (#[trigger] s[j]).id
}

/// Where the job with `id` sits, if anywhere.
pub open spec fn job_index(s: Seq<JobView>, id: Seq<char>) -> Option<int> {
    if exists|i: int| 0 <= i < s.len() && (#[trigger] s[i]).id == id {
        Some(choose|i: int| 0 <= i < s.len() && (#[trigger] s[i]).id == id)
    } else {
        None
    }
}

/// Where a job's outputs go: `<jobs root>/<id>/outputs`.
pub open spec fn job_output_dir(root: Seq<char>, id: Seq<char>) -> Seq<char> {
    join_path(join_path(root, id), "outputs"@)
}

/// Why a job cannot be started, if it cannot: its source is refused, or else its configuration.
pub open spec fn start_error(source: SourceView, config: &Config) -> Option<Seq<char>> {
    match source_error(source) {
        Some(m) => Some(m),
        None => match config_problem(config) {
            Some(c) => Some("invalid clipping configuration: "@ + config_error_message(c)),
            None => None,
        },
    }
}

/// The table with job `j` added, taking the place of any job with the same id.
pub open spec fn with_job(s: Seq<JobView>, j: JobView) -> Seq<JobView> {
    match job_index(s, j.id) {
        Some(i) => s.update(i, j),
        None => s.push(j),
    }
}

/// The message for an unknown job.
pub open spec fn unknown_job(id: Seq<char>) -> Seq<char> {
    "unknown clipping job "@ + id
}

/// The jobs of the app and where their outputs go.
pub struct JobManager {
    jobs_root: String,
    model_paths: ModelPaths,
    jobs: Vec<JobSnapshot>,
}

/// The contents of job snapshots.
pub open spec fn snapshot_views(v: Seq<JobSnapshot>) -> Seq<JobView> {
    Seq::new(v.len(), |i: int| v[i]@)
}

impl View for JobManager {
    type V = Seq<JobView>;

    closed spec fn view(&self) -> Seq<JobView> {
        snapshot_views(self.jobs@)
    }
}

impl JobManager {
    /// The directory under which jobs keep their outputs.
    pub closed spec fn root(&self) -> Seq<char> {
        self.jobs_root@
    }

    /// The well-formedness of the table: ids are unique.
    #[verifier::type_invariant]
    spec fn wf(&self) -> bool {
        ids_unique(snapshot_views(self.jobs@))
    }

    /// The directory under which jobs keep their outputs.
    pub fn jobs_root(&self) -> (r: &str)
        ensures
            r@ == self.root(),
    {
        self.jobs_root.as_str()
    }

    /// The bundled models the jobs use.
    pub closed spec fn models(&self) -> ModelPaths {
        self.model_paths
    }

    /// The bundled models the jobs use.
    pub fn model_paths(&self) -> (m: &ModelPaths)
        ensures
            *m == self.models(),
    {
        &self.model_paths
    }

    /// An empty table of jobs.
    pub fn new(jobs_root: String, model_paths: ModelPaths) -> (m: JobManager)
        ensures
            m@ == Seq::<JobView>::empty(),
            m.root() == jobs_root@,
            m.models() == model_paths,
    {
        let m = JobManager { jobs_root, model_paths, jobs: Vec::new() };
        assert(m@ =~= Seq::<JobView>::empty());
        m
    }

    fn find(&self, id: &str) -> (r: Option<usize>)
        ensures
            match r {
                Some(i) => i < self@.len() && self@[i as int].id == id@ && job_index(self@, id@) == Some(i as int),
                None => forall|i: int| 0 <= i < self@.len() ==> (#[trigger] self@[i]).id != id@,
            },
            r is None <==> job_index(self@, id@) is None,
    {
        proof {
            use_type_invariant(self);
        }
        let mut i: usize = 0;
        while i < self.jobs.len()
            invariant
                i <= self.jobs@.len(),
                self@.len() == self.jobs@.len(),
                ids_unique(self@),
                forall|k: int| 0 <= k < i ==> (#[trigger] self@[k]).id != id@,
            decreases self.jobs.len() - i,
        {
            assert(self@[i as int] == self.jobs@[i as int]@);
            if crate::text::str_eq(self.jobs[i].id.as_str(), id) {
                proof {
                    let k = choose|k: int| 0 <= k < self@.len() && (#[trigger] self@[k]).id == id@;
                    assert(k == i);
                }
                return Some(i);
            }
            i = i + 1;
        }
        None
    }

    /// Adds a new job; a job with the same id is replaced.
    pub fn insert(&mut self, snapshot: JobSnapshot)
        ensures
            final(self).root() == old(self).root(),
            final(self).models() == old(self).models(),
            final(self)@ == with_job(old(self)@, snapshot@),
    {
        proof {
            use_type_invariant(&*self);
        }
        let ghost before = self@;
        let ghost sv = snapshot@;
        let found = self.find(snapshot.id.as_str());
        let mut jobs: Vec<JobSnapshot> = Vec::new();
        std::mem::swap(&mut jobs, &mut self.jobs);
        assert(snapshot_views(self.jobs@) =~= Seq::<JobView>::empty());
        match found {
            Some(i) => {
                jobs.set(i, snapshot);
                assert(snapshot_views(jobs@) =~= before.update(i as int, sv));
            },
            None => {
                jobs.push(snapshot);
                assert(snapshot_views(jobs@) =~= before.push(sv));
            },
        }
        proof {
            law_inserted_job_reads_back(before, sv);
        }
        self.jobs = jobs;
    }

    /// Starts a job clipping `source` under `config` at `now_ms` under a fresh random id: see
    /// [`JobManager::start_with_id`].
    pub fn start(&mut self, source: JobSource, config: &Config, now_ms: u64) -> (r: Result<JobSnapshot, String>)
        ensures
            final(self).root() == old(self).root(),
            final(self).models() == old(self).models(),
            match start_error(source@, config) {
                Some(m) => r matches Err(e) && e@ == m && final(self)@ == old(self)@,
                None => r matches Ok(s) && crate::pipeline::hyphenated_uuid(s@.id)
                    && s@ == queued_job(s@.id, source@, job_output_dir(old(self).root(), s@.id), now_ms)
                    && final(self)@ == with_job(old(self)@, s@),
            },
    {
        let id = new_uuid();
        self.start_with_id(id, source, config, now_ms)
    }

    /// Starts a job with id `id` clipping `source` under `config` at `now_ms`: the source and the
    /// configuration are checked first (nothing changes when either is refused), then the job is
    /// queued with its outputs under `<jobs root>/<id>/outputs`, taking the place of any job that
    /// held the same id.
    pub fn start_with_id(&mut self, id: String, source: JobSource, config: &Config, now_ms: u64) -> (r: Result<
        JobSnapshot,
        String,
    >)
        ensures
            final(self).root() == old(self).root(),
            final(self).models() == old(self).models(),
            match start_error(source@, config) {
                Some(m) => r matches Err(e) && e@ == m && final(self)@ == old(self)@,
                None => r matches Ok(s) && s@ == queued_job(id@, source@, job_output_dir(old(self).root(), id@), now_ms)
                    && final(self)@ == with_job(old(self)@, s@),
            },
    {
        let checked = validate_source(&source);
        if let Err(e) = checked {
            return Err(e);
        }
        if let Err(problem) = config.validate() {
            let mut text: Vec<char> = Vec::new();
            extend_str(&mut text, "invalid clipping configuration: ");
            extend_str(&mut text, problem.message());
            return Err(string_of(&text));
        }
        let job_root = join_path_exec(self.jobs_root.as_str(), id.as_str());
        let output_dir = join_path_exec(job_root.as_str(), "outputs");
        let snapshot = queued_snapshot(id, source, output_dir, now_ms);
        let out = snapshot.duplicate();
        self.insert(snapshot);
        Ok(out)
    }

    /// The snapshot of the job with `id`.
    pub fn get(&self, id: &str) -> (r: Result<JobSnapshot, String>)
        ensures
            match job_index(self@, id@) {
                Some(i) => r matches Ok(s) && s@ == self@[i],
                None => r matches Err(e) && e@ == unknown_job(id@),
            },
    {
        match self.find(id) {
            Some(i) => {
                assert(self@[i as int] == self.jobs@[i as int]@);
                Ok(self.jobs[i].duplicate())
            },
            None => {
                let mut text: Vec<char> = Vec::new();
                extend_str(&mut text, "unknown clipping job ");
                extend_str(&mut text, id);
                Err(string_of(&text))
            },
        }
    }

    /// Applies `change` to the job with `id`, if there is one; says whether there was.
    fn update_at(&mut self, i: usize, snapshot: JobSnapshot)
        requires
            i < old(self)@.len(),
            snapshot@.id == old(self)@[i as int].id,
        ensures
            final(self).root() == old(self).root(),
            final(self).models() == old(self).models(),
            final(self)@ == old(self)@.update(i as int, snapshot@),
    {
        proof {
            use_type_invariant(&*self);
        }
        let ghost before = self@;
        let ghost sv = snapshot@;
        let mut jobs: Vec<JobSnapshot> = Vec::new();
        std::mem::swap(&mut jobs, &mut self.jobs);
        assert(snapshot_views(self.jobs@) =~= Seq::<JobView>::empty());
        jobs.set(i, snapshot);
        proof {
            let t = snapshot_views(jobs@);
            assert(t =~= before.update(i as int, sv));
            assert forall|a: int, b: int| 0 <= a < b < t.len() implies (#[trigger] t[a]).id != (#[trigger] t[b]).id by {
                assert(t[a].id == before[a].id && t[b].id == before[b].id);
            }
        }
        self.jobs = jobs;
    }

    /// Asks the job with `id` to stop: a queued or running job becomes cancelling; any other
    /// job is left as it is. Gives the job's snapshot afterwards.
    pub fn cancel(&mut self, id: &str) -> (r: Result<JobSnapshot, String>)
        ensures
            final(self).root() == old(self).root(),
            final(self).models() == old(self).models(),
            match job_index(old(self)@, id@) {
                Some(i) => r matches Ok(s) && s@ == final(self)@[i] && final(self)@ == old(self)@.update(i, cancelled_view(old(self)@[i])),
                None => r matches Err(e) && e@ == unknown_job(id@) && final(self)@ == old(self)@,
            },
    {
        match self.find(id) {
            Some(i) => {
                assert(self@[i as int] == self.jobs@[i as int]@);
                let mut s = self.jobs[i].duplicate();
                if s.status == JobStatus::Queued || s.status == JobStatus::Running {
                    s.status = JobStatus::Cancelling;
                    s.progress.phase = "cancelling".to_owned();
                    s.progress.message = "Stopping clipping job".to_owned();
                }
                let out = s.duplicate();
                self.update_at(i, s);
                Ok(out)
            },
            None => {
                let mut text: Vec<char> = Vec::new();
                extend_str(&mut text, "unknown clipping job ");
                extend_str(&mut text, id);
                Err(string_of(&text))
            },
        }
    }

    /// Marks a queued job as running.
    pub fn mark_running(&mut self, id: &str)
        ensures
            final(self).root() == old(self).root(),
            final(self).models() == old(self).models(),
            match job_index(old(self)@, id@) {
                Some(i) => final(self)@ == old(self)@.update(i, running_view(old(self)@[i])),
                None => final(self)@ == old(self)@,
            },
    {
        match self.find(id) {
            Some(i) => {
                assert(self@[i as int] == self.jobs@[i as int]@);
                let mut s = self.jobs[i].duplicate();
                if s.status == JobStatus::Queued {
                    s.status = JobStatus::Running;
                    s.progress.phase = "starting".to_owned();
                    s.progress.message = "Initializing ClipFarmer".to_owned();
                }
                self.update_at(i, s);
            },
            None => {},
        }
    }

    /// Replaces a job's progress report.
    pub fn report_progress(&mut self, id: &str, progress: JobProgress)
        ensures
            final(self).root() == old(self).root(),
            final(self).models() == old(self).models(),
            match job_index(old(self)@, id@) {
                Some(i) => final(self)@ == old(self)@.update(i, JobView { progress: progress@, ..old(self)@[i] }),
                None => final(self)@ == old(self)@,
            },
    {
        match self.find(id) {
            Some(i) => {
                assert(self@[i as int] == self.jobs@[i as int]@);
                let mut s = self.jobs[i].duplicate();
                s.progress = progress;
                self.update_at(i, s);
            },
            None => {},
        }
    }

    /// Records how a job ended.
    pub fn finish(&mut self, id: &str, ending: JobEnding, now_ms: u64)
        ensures
            final(self).root() == old(self).root(),
            final(self).models() == old(self).models(),
            match job_index(old(self)@, id@) {
                Some(i) => final(self)@ == old(self)@.update(i, ended_view(old(self)@[i], ending@, now_ms)),
                None => final(self)@ == old(self)@,
            },
    {
        match self.find(id) {
            Some(i) => {
                assert(self@[i as int] == self.jobs@[i as int]@);
                let mut s = self.jobs[i].duplicate();
                match ending {
                    JobEnding::Completed { channel, summary } => {
                        s.status = JobStatus::Completed;
                        s.channel = Some(channel);
                        s.summary = Some(summary);
                        s.progress.phase = "completed".to_owned();
                        s.progress.message = "Clipping job completed".to_owned();
                        s.progress.summary = Some(summary);
                    },
                    JobEnding::Cancelled => {
                        s.status = JobStatus::Cancelled;
                        s.progress.phase = "cancelled".to_owned();
                        s.progress.message = "Clipping job cancelled".to_owned();
                    },
                    JobEnding::Failed { error } => {
                        s.status = JobStatus::Failed;
                        s.progress.phase = "failed".to_owned();
                        s.progress.message = "Clipping job failed".to_owned();
                        s.error = Some(error);
                    },
                }
                s.finished_at_ms = Some(now_ms);
                self.update_at(i, s);
            },
            None => {},
        }
    }

    /// Every job, newest first.
    pub fn list(&self) -> (out: Vec<JobSnapshot>)
        ensures
            out@.len() == self@.len(),
            forall|i: int| 0 <= i < out@.len() ==> self@.contains(#[trigger] out@[i]@),
            forall|i: int, j: int| 0 <= i < j < out@.len() ==> (#[trigger] out@[i]).created_at_ms >= (#[trigger] out@[j]).created_at_ms,
            forall|i: int, j: int| 0 <= i < j < out@.len() ==> (#[trigger] out@[i])@.id != (#[trigger] out@[j])@.id,
    {
        proof {
            use_type_invariant(self);
        }
        let mut out: Vec<JobSnapshot> = Vec::new();
        let mut k: usize = 0;
        while k < self.jobs.len()
            invariant
                k <= self.jobs@.len(),
                self@.len() == self.jobs@.len(),
                ids_unique(self@),
                out@.len() == k,
                forall|i: int| 0 <= i < out@.len() ==> exists|q: int| 0 <= q < k && (#[trigger] out@[i])@ == self@[q],
                forall|i: int, j: int| 0 <= i < j < out@.len() ==> (#[trigger] out@[i]).created_at_ms >= (#[trigger] out@[j]).created_at_ms,
                forall|i: int, j: int| 0 <= i < j < out@.len() ==> (#[trigger] out@[i])@.id != (#[trigger] out@[j])@.id,
            decreases self.jobs.len() - k,
        {
            assert(self@[k as int] == self.jobs@[k as int]@);
            let c = self.jobs[k].duplicate();
            let mut j = out.len();
            while j > 0 && out[j - 1].created_at_ms < c.created_at_ms
                invariant
                    j <= out@.len(),
                    forall|q: int| j <= q < out@.len() ==> (#[trigger] out@[q]).created_at_ms < c.created_at_ms,
                decreases j,
            {
                j = j - 1;
            }
            let ghost before = out@;
            proof {
                assert forall|i: int| 0 <= i < before.len() implies (#[trigger] before[i])@.id != c@.id by {
                    let q = choose|q: int| 0 <= q < k && before[i]@ == self@[q];
                    assert(self@[q].id != self@[k as int].id);
                }
            }
            out.insert(j, c);
            proof {
                assert forall|i: int| 0 <= i < out@.len() implies exists|q: int| 0 <= q < k + 1 && (#[trigger] out@[i])@ == self@[q] by {
                    if i < j {
                        assert(out@[i] == before[i]);
                    } else if i > j {
                        assert(out@[i] == before[i - 1]);
                    } else {
                        assert(out@[i]@ == self@[k as int]);
                    }
                }
                assert forall|a: int, b: int| 0 <= a < b < out@.len() implies (#[trigger] out@[a]).created_at_ms >= (#[trigger] out@[b]).created_at_ms by {
                    if a < j && b < j {
                        assert(out@[a] == before[a] && out@[b] == before[b]);
                    } else if a < j && b == j {
                        assert(out@[a] == before[a]);
                    } else if a < j {
                        assert(out@[a] == before[a] && out@[b] == before[b - 1]);
                    } else if a == j {
                        assert(out@[b] == before[b - 1]);
                    } else {
                        assert(out@[a] == before[a - 1] && out@[b] == before[b - 1]);
                    }
                }
                assert forall|a: int, b: int| 0 <= a < b < out@.len() implies (#[trigger] out@[a])@.id != (#[trigger] out@[b])@.id by {
                    if a < j && b < j {
                        assert(out@[a] == before[a] && out@[b] == before[b]);
                    } else if a < j && b == j {
                        assert(out@[a] == before[a]);
                    } else if a < j {
                        assert(out@[a] == before[a] && out@[b] == before[b - 1]);
                    } else if a == j {
                        assert(out@[b] == before[b - 1]);
                    } else {
                        assert(out@[a] == before[a - 1] && out@[b] == before[b - 1]);
                    }
                }
            }
            k = k + 1;
        }
        proof {
            assert forall|i: int| 0 <= i < out@.len() implies self@.contains(#[trigger] out@[i]@) by {
                let q = choose|q: int| 0 <= q < self.jobs@.len() && out@[i]@ == self@[q];
                assert(self@[q] == out@[i]@);
            }
        }
        out
    }
}

/// How a job ended.
#[derive(Debug)]
pub enum JobEnding {
    /// The run finished, on this channel, with this summary.
    Completed { channel: String, summary: RunSummary },
    /// The run was cancelled.
    Cancelled,
    /// The run failed with this error.
    Failed { error: String },
}

/// The content of a [`JobEnding`].
pub enum EndingView {
    Completed { channel: Seq<char>, summary: RunSummary },
    Cancelled,
    Failed { error: Seq<char> },
}

impl View for JobEnding {
    type V = EndingView;

    open spec fn view(&self) -> EndingView {
        match self {
            JobEnding::Completed { channel, summary } => EndingView::Completed { channel: channel@, summary: *summary },
            JobEnding::Cancelled => EndingView::Cancelled,
            JobEnding::Failed { error } => EndingView::Failed { error: error@ },
        }
    }
}

/// A job after a request to stop it.
pub open spec fn cancelled_view(j: JobView) -> JobView {
    if j.status == JobStatus::Queued || j.status == JobStatus::Running {
        JobView {
            status: JobStatus::Cancelling,
            progress: ProgressView { phase: "cancelling"@, message: "Stopping clipping job"@, ..j.progress },
            ..j
        }
    } else {
        j
    }
}

/// A job once its worker has started.
pub open spec fn running_view(j: JobView) -> JobView {
    if j.status == JobStatus::Queued {
        JobView {
            status: JobStatus::Running,
            progress: ProgressView { phase: "starting"@, message: "Initializing ClipFarmer"@, ..j.progress },
            ..j
        }
    } else {
        j
    }
}

/// A job after its run ended at `now_ms`.
pub open spec fn ended_view(j: JobView, e: EndingView, now_ms: u64) -> JobView {
    match e {
        EndingView::Completed { channel, summary } => JobView {
            status: JobStatus::Completed,
            channel: Some(channel),
            summary: Some(summary),
            progress: ProgressView {
                phase: "completed"@,
                message: "Clipping job completed"@,
                summary: Some(summary),
                ..j.progress
            },
            finished_at_ms: Some(now_ms),
            ..j
        },
        EndingView::Cancelled => JobView {
            status: JobStatus::Cancelled,
            progress: ProgressView { phase: "cancelled"@, message: "Clipping job cancelled"@, ..j.progress },
            finished_at_ms: Some(now_ms),
            ..j
        },
        EndingView::Failed { error } => JobView {
            status: JobStatus::Failed,
            progress: ProgressView { phase: "failed"@, message: "Clipping job failed"@, ..j.progress },
            error: Some(error),
            finished_at_ms: Some(now_ms),
            ..j
        },
    }
}

/// A job that was inserted can be read back as it was inserted.
pub proof fn law_inserted_job_reads_back(s: Seq<JobView>, j: JobView)
    requires
        ids_unique(s),
    ensures
        ({
            let t = match job_index(s, j.id) {
                Some(i) => s.update(i, j),
                None => s.push(j),
            };
            &&& ids_unique(t)
            &&& job_index(t, j.id) matches Some(k) && t[k] == j
        }),
{
    let t = match job_index(s, j.id) {
        Some(i) => s.update(i, j),
        None => s.push(j),
    };
    match job_index(s, j.id) {
        Some(i) => {
            assert(t[i] == j);
        },
        None => {
            assert(t[s.len() as int] == j);
        },
    }
    assert forall|a: int, b: int| 0 <= a < b < t.len() implies (#[trigger] t[a]).id != (#[trigger] t[b]).id by {
        match job_index(s, j.id) {
            Some(i) => {
                if a != i && b != i {
                    assert(t[a] == s[a] && t[b] == s[b]);
                } else if a == i {
                    assert(t[b] == s[b]);
                    assert(s[i].id == j.id);
                } else {
                    assert(t[a] == s[a]);
                    assert(s[i].id == j.id);
                }
            },
            None => {
                if b < s.len() {
                    assert(t[a] == s[a] && t[b] == s[b]);
                } else {
                    assert(t[a] == s[a]);
                }
            },
        }
    }
    let k = choose|k: int| 0 <= k < t.len() && (#[trigger] t[k]).id == j.id;
    assert(t[k] == j);
}

/// Cancelling moves only queued or running jobs, and only to cancelling; finished jobs stay as
/// they are.
pub proof fn law_cancel_stops_only_live_jobs(j: JobView)
    ensures
        (j.status == JobStatus::Queued || j.status == JobStatus::Running) ==> cancelled_view(j).status == JobStatus::Cancelling,
        !(j.status == JobStatus::Queued || j.status == JobStatus::Running) ==> cancelled_view(j) == j,
        cancelled_view(j).id == j.id,
{
}

/// Starting a job adds exactly that job: afterwards its id reads back the started job (which
/// takes the place of any job that held the id), and every other id reads back what it did before.
pub proof fn law_started_job_reads_back(s: Seq<JobView>, j: JobView, other: Seq<char>)
    requires
        ids_unique(s),
    ensures
        ids_unique(with_job(s, j)),
        job_index(with_job(s, j), j.id) matches Some(k) && with_job(s, j)[k] == j,
        other != j.id ==> match job_index(s, other) {
            Some(i) => job_index(with_job(s, j), other) matches Some(k) && with_job(s, j)[k] == s[i],
            None => job_index(with_job(s, j), other) is None,
        },
{
    law_inserted_job_reads_back(s, j);
    let t = with_job(s, j);
    if other != j.id {
        match job_index(s, other) {
            Some(i) => {
                assert(s[i].id == other);
                match job_index(s, j.id) {
                    Some(q) => {
                        assert(q != i);
                        assert(t[i] == s[i]);
                    },
                    None => {
                        assert(t[i] == s[i]);
                    },
                }
                let m = choose|m: int| 0 <= m < t.len() && (#[trigger] t[m]).id == other;
                assert(t[m].id == t[i].id);
                assert(m == i);
            },
            None => {
                if exists|m: int| 0 <= m < t.len() && (#[trigger] t[m]).id == other {
                    let m = choose|m: int| 0 <= m < t.len() && (#[trigger] t[m]).id == other;
                    match job_index(s, j.id) {
                        Some(q) => {
                            if m != q {
                                assert(t[m] == s[m]);
                            }
                        },
                        None => {
                            if m < s.len() {
                                assert(t[m] == s[m]);
                            }
                        },
                    }
                }
            },
        }
    }
}

} // verus!
