//! The crawl: which resource is fetched next, and what is written where.
//!
//! A `Mirror` holds the ledger of a run and the manifests that are being
//! worked on, the innermost last. It never reads or writes anything
//! itself. Each call asks its driver for one `Action`; the driver performs
//! it and answers with an `Event`, until the mirror says `Finished` or
//! `Failed`.

use vstd::prelude::*;
use crate::dash::{task_views, manifest_tasks, plan_manifest, Task, TaskView};
use crate::error::{ErrorView, MirrorError};
use crate::hls::{
    find_reference, find_uri_attr, is_hls_manifest, is_playlist, lines_of, playlist_text,
    reference_in, render_playlist, rewrite_line, rewritten, split_lines, uri_attribute,
    LineReference, ReferenceView,
};
use crate::ledger::{
    after_mark, after_path_for, lemma_held_path_stays, lookup, path_for, Ledger, LedgerView,
};
use crate::local_path::{
    is_name, lemma_original_copy_stays_below_root, original_copy, parent_of, relative_reference,
    stays_below_root, to_posix_relative, LocalPath,
};
use crate::resource::{
    dialect_of, extension_of, is_playlist_path, names_playlist, path_components, path_extension,
    path_segments, resolved, select_dialect, url_parse, Dialect, ResourceUrl, UrlParts,
};
use crate::text::{
    decimal_digits, decimal_string, replace_all, replaced, texts, trim, trimmed,
};
use crate::xml::{parse_xml, xml_nodes};

verus! {

// ---------------------------------------------------------------------
// Actions and events
// ---------------------------------------------------------------------

/// What the driver is asked to do next.
pub enum Action {
    /// Fetch the manifest at `url` as text, after making the directory of
    /// `path`, and answer with `Event::Text`.
    FetchManifest { url: String, path: LocalPath, dialect: Dialect },
    /// Fetch the resource at `url` and store it at `path`, after making
    /// the directory of `path`; then answer with `Event::Done`.
    FetchBinary { url: String, path: LocalPath },
    /// Store `content` at `path`; then answer with `Event::Done`.
    Write { path: LocalPath, content: String },
    /// Tell the operator that the media segments of `representation` are
    /// left out; then answer with `Event::Done`.
    Report { representation: String },
    /// Nothing to do; answer with `Event::Done`.
    Proceed,
    /// The run is complete.
    Finished,
    /// The run has failed.
    Failed(MirrorError),
}

pub enum ActionView {
    FetchManifest { url: Seq<char>, path: Seq<Seq<char>>, dialect: Dialect },
    FetchBinary { url: Seq<char>, path: Seq<Seq<char>> },
    Write { path: Seq<Seq<char>>, content: Seq<char> },
    Report { representation: Seq<char> },
    Proceed,
    Finished,
    Failed(ErrorView),
}

impl View for Action {
    type V = ActionView;

    open spec fn view(&self) -> ActionView {
        match self {
            Action::FetchManifest { url, path, dialect } => ActionView::FetchManifest {
                url: url@,
                path: path@,
                dialect: *dialect,
            },
            Action::FetchBinary { url, path } => ActionView::FetchBinary { url: url@, path: path@ },
            Action::Write { path, content } => ActionView::Write {
                path: path@,
                content: content@,
            },
            Action::Report { representation } => ActionView::Report {
                representation: representation@,
            },
            Action::Proceed => ActionView::Proceed,
            Action::Finished => ActionView::Finished,
            Action::Failed(e) => ActionView::Failed(e@),
        }
    }
}

/// The driver's answer to an action.
pub enum Event {
    /// The text of the manifest that was asked for.
    Text(String),
    /// The action is done.
    Done,
    /// The action could not be carried out: a fetch was refused or a file
    /// could not be written.
    Failed(String),
}

pub enum EventView {
    Text(Seq<char>),
    Done,
    Failed(Seq<char>),
}

impl View for Event {
    type V = EventView;

    open spec fn view(&self) -> EventView {
        match self {
            Event::Text(t) => EventView::Text(t@),
            Event::Done => EventView::Done,
            Event::Failed(reason) => EventView::Failed(reason@),
        }
    }
}

// ---------------------------------------------------------------------
// Jobs
// ---------------------------------------------------------------------

/// The reference of a playlist line whose resource is being mirrored.
pub struct Pending {
    pub url: ResourceUrl,
    pub is_manifest: bool,
    pub reference: LineReference,
}

pub struct PendingView {
    pub url: UrlParts,
    pub is_manifest: bool,
    pub reference: ReferenceView,
}

impl View for Pending {
    type V = PendingView;

    open spec fn view(&self) -> PendingView {
        PendingView { url: self.url@, is_manifest: self.is_manifest, reference: self.reference@ }
    }
}

/// How far the work on a playlist has come.
pub enum PlaylistStage {
    /// Its text has been asked for.
    Fetching,
    /// Its unchanged text is being stored.
    Original,
    /// Its next line is to be read.
    Lines,
    /// The resource that its next line refers to is being mirrored.
    Child(Pending),
    /// Its rewritten text is being stored.
    Final,
}

pub enum PlaylistStageView {
    Fetching,
    Original,
    Lines,
    Child(PendingView),
    Final,
}

impl View for PlaylistStage {
    type V = PlaylistStageView;

    open spec fn view(&self) -> PlaylistStageView {
        match self {
            PlaylistStage::Fetching => PlaylistStageView::Fetching,
            PlaylistStage::Original => PlaylistStageView::Original,
            PlaylistStage::Lines => PlaylistStageView::Lines,
            PlaylistStage::Child(p) => PlaylistStageView::Child(p@),
            PlaylistStage::Final => PlaylistStageView::Final,
        }
    }
}

/// A playlist that is being mirrored.
pub struct Playlist {
    pub url: ResourceUrl,
    pub path: LocalPath,
    pub stage: PlaylistStage,
    /// The lines of the playlist as it was fetched.
    pub lines: Vec<String>,
    /// The index of the next line to read.
    pub next: usize,
    /// The lines read so far, as they are written anew.
    pub output: Vec<String>,
}

pub struct PlaylistView {
    pub url: UrlParts,
    pub path: Seq<Seq<char>>,
    pub stage: PlaylistStageView,
    pub lines: Seq<Seq<char>>,
    pub next: nat,
    pub output: Seq<Seq<char>>,
}

impl View for Playlist {
    type V = PlaylistView;

    open spec fn view(&self) -> PlaylistView {
        PlaylistView {
            url: self.url@,
            path: self.path@,
            stage: self.stage@,
            lines: texts(self.lines@),
            next: self.next as nat,
            output: texts(self.output@),
        }
    }
}

/// How far the work on a DASH manifest has come.
#[derive(Clone, Copy, PartialEq, Eq, Debug)]
pub enum ManifestStage {
    /// Its text has been asked for.
    Fetching,
    /// Its unchanged text is being stored beside it.
    Original,
    /// Its text is being stored in its place.
    Copy,
    /// Its tasks are being carried out.
    Tasks,
}

/// A DASH manifest that is being mirrored.
pub struct Manifest {
    pub url: ResourceUrl,
    pub path: LocalPath,
    pub stage: ManifestStage,
    /// The text of the manifest as it was fetched.
    pub text: String,
    pub tasks: Vec<Task>,
    /// The index of the next task.
    pub next: usize,
    /// Within a task of segments, how many of them have been taken on.
    pub offset: u64,
}

pub struct ManifestView {
    pub url: UrlParts,
    pub path: Seq<Seq<char>>,
    pub stage: ManifestStage,
    pub text: Seq<char>,
    pub tasks: Seq<TaskView>,
    pub next: nat,
    pub offset: u64,
}

impl View for Manifest {
    type V = ManifestView;

    open spec fn view(&self) -> ManifestView {
        ManifestView {
            url: self.url@,
            path: self.path@,
            stage: self.stage,
            text: self.text@,
            tasks: task_views(self.tasks@),
            next: self.next as nat,
            offset: self.offset,
        }
    }
}

/// A manifest that is being mirrored.
pub enum Job {
    Playlist(Playlist),
    Manifest(Manifest),
}

pub enum JobView {
    Playlist(PlaylistView),
    Manifest(ManifestView),
}

impl View for Job {
    type V = JobView;

    open spec fn view(&self) -> JobView {
        match self {
            Job::Playlist(p) => JobView::Playlist(p@),
            Job::Manifest(m) => JobView::Manifest(m@),
        }
    }
}

impl Job {
    /// The invariant of a job: its path stays below the output root, and a
    /// playlist that waits for the resource of a line has that line.
    pub open spec fn wf(&self) -> bool {
        match self {
            Job::Playlist(p) => stays_below_root(p.path@) && (p.stage is Child ==> p.next
                < p.lines@.len()),
            Job::Manifest(m) => stays_below_root(m.path@),
        }
    }
}

/// Whether the path that an action names, if it names one, stays below the
/// output root.
pub open spec fn names_below_root(action: ActionView) -> bool {
    match action {
        ActionView::FetchManifest { path, .. } => stays_below_root(path),
        ActionView::FetchBinary { path, .. } => stays_below_root(path),
        ActionView::Write { path, .. } => stays_below_root(path),
        _ => true,
    }
}

proof fn lemma_fallback_names()
    ensures
        is_name("manifest.m3u8.orig"@),
        is_name("manifest.mpd.orig"@),
{
    reveal_strlit("manifest.m3u8.orig");
    reveal_strlit("manifest.mpd.orig");
}

pub open spec fn option_job_wf(job: Option<Job>) -> bool {
    match job {
        Some(j) => j.wf(),
        None => true,
    }
}

pub open spec fn job_views(jobs: Seq<Job>) -> Seq<JobView> {
    Seq::new(jobs.len(), |i: int| jobs[i]@)
}

pub open spec fn option_job(job: Option<Job>) -> Option<JobView> {
    match job {
        Some(j) => Some(j@),
        None => None,
    }
}

// ---------------------------------------------------------------------
// Taking a resource on
// ---------------------------------------------------------------------

/// What a URL is taken on as.
#[derive(Clone, Copy, PartialEq, Eq, Debug)]
pub enum Kind {
    Binary,
    Playlist,
    Manifest,
}

/// The outcome of taking a resource on.
pub struct BegunView {
    pub ledger: LedgerView,
    pub job: Option<JobView>,
    pub action: ActionView,
}

/// The job that starts for a manifest of the given kind.
pub open spec fn opened(url: UrlParts, path: Seq<Seq<char>>, kind: Kind) -> Option<JobView> {
    match kind {
        Kind::Binary => None,
        Kind::Playlist => Some(
            JobView::Playlist(
                PlaylistView {
                    url,
                    path,
                    stage: PlaylistStageView::Fetching,
                    lines: Seq::empty(),
                    next: 0,
                    output: Seq::empty(),
                },
            ),
        ),
        Kind::Manifest => Some(
            JobView::Manifest(
                ManifestView {
                    url,
                    path,
                    stage: ManifestStage::Fetching,
                    text: Seq::empty(),
                    tasks: Seq::empty(),
                    next: 0,
                    offset: 0,
                },
            ),
        ),
    }
}

/// The fetch that is asked for a resource of the given kind.
pub open spec fn fetch_of(url: UrlParts, path: Seq<Seq<char>>, kind: Kind) -> ActionView {
    match kind {
        Kind::Binary => ActionView::FetchBinary { url: url.text, path },
        Kind::Playlist => ActionView::FetchManifest { url: url.text, path, dialect: Dialect::Hls },
        Kind::Manifest => ActionView::FetchManifest { url: url.text, path, dialect: Dialect::Dash },
    }
}

/// Taking the resource at `url` on. One that the ledger knows is passed
/// over: nothing changes and nothing is fetched. A new one is marked in
/// the ledger first, then given its local path, and its fetch is asked
/// for; a manifest becomes a job.
pub open spec fn begun(ledger: LedgerView, url: UrlParts, kind: Kind) -> BegunView {
    if ledger.visited.contains(url.text) {
        BegunView { ledger, job: None, action: ActionView::Proceed }
    } else {
        let marked = after_mark(ledger, url.text);
        let path = path_for(marked, url, kind != Kind::Binary);
        BegunView {
            ledger: after_path_for(marked, url, kind != Kind::Binary),
            job: opened(url, path, kind),
            action: fetch_of(url, path, kind),
        }
    }
}

// ---------------------------------------------------------------------
// One turn of a job
// ---------------------------------------------------------------------

/// The outcome of one turn of the innermost job.
pub struct TurnView {
    pub ledger: LedgerView,
    /// The job after the turn; `None` where it has come to its end.
    pub keep: Option<JobView>,
    /// A job that starts inside it.
    pub push: Option<JobView>,
    pub action: ActionView,
}

/// A turn that fails: nothing changes.
pub open spec fn failing(ledger: LedgerView, job: JobView, error: ErrorView) -> TurnView {
    TurnView { ledger, keep: Some(job), push: None, action: ActionView::Failed(error) }
}

/// A turn that ends the job.
pub open spec fn leaving(ledger: LedgerView) -> TurnView {
    TurnView { ledger, keep: None, push: None, action: ActionView::Proceed }
}

/// The kind that a playlist's reference is taken on as.
pub open spec fn kind_of(is_manifest: bool) -> Kind {
    if is_manifest {
        Kind::Playlist
    } else {
        Kind::Binary
    }
}

/// The turn of a playlist whose next line is to be read. After the last
/// line the rewritten playlist is stored. A line without a reference is
/// kept as it is. A reference is resolved against the playlist's URL, and
/// the resource it leads to is taken on before the line is written; a
/// reference that does not resolve fails the run.
pub open spec fn line_turn(ledger: LedgerView, job: PlaylistView) -> TurnView {
    if job.next >= job.lines.len() {
        TurnView {
            ledger,
            keep: Some(JobView::Playlist(PlaylistView { stage: PlaylistStageView::Final, ..job })),
            push: None,
            action: ActionView::Write { path: job.path, content: playlist_text(job.output) },
        }
    } else {
        let line = job.lines[job.next as int];
        match reference_in(line) {
            None => TurnView {
                ledger,
                keep: Some(
                    JobView::Playlist(
                        PlaylistView {
                            output: job.output.push(line),
                            next: job.next + 1,
                            ..job
                        },
                    ),
                ),
                push: None,
                action: ActionView::Proceed,
            },
            Some(r) => match resolved(job.url, r.uri) {
                Err(e) => failing(ledger, JobView::Playlist(job), e),
                Ok(child) => {
                    let is_manifest = is_playlist_path(child.path);
                    let b = begun(ledger, child, kind_of(is_manifest));
                    TurnView {
                        ledger: b.ledger,
                        keep: Some(
                            JobView::Playlist(
                                PlaylistView {
                                    stage: PlaylistStageView::Child(
                                        PendingView { url: child, is_manifest, reference: r },
                                    ),
                                    ..job
                                },
                            ),
                        ),
                        push: b.job,
                        action: b.action,
                    }
                },
            },
        }
    }
}

/// The reference that a playlist stored at `path` writes for a resource
/// stored at `target`: the way from the playlist's directory to it.
pub open spec fn local_reference(path: Seq<Seq<char>>, target: Seq<Seq<char>>) -> Seq<char> {
    relative_reference(target, parent_of(path))
}

/// The turn of a playlist whose pending resource has been dealt with: the
/// line is written with the way to the resource's local path in place of
/// its reference.
pub open spec fn child_turn(ledger: LedgerView, job: PlaylistView, pending: PendingView) -> TurnView {
    let target = path_for(ledger, pending.url, pending.is_manifest);
    TurnView {
        ledger: after_path_for(ledger, pending.url, pending.is_manifest),
        keep: Some(
            JobView::Playlist(
                PlaylistView {
                    stage: PlaylistStageView::Lines,
                    output: job.output.push(
                        rewritten(pending.reference, local_reference(job.path, target)),
                    ),
                    next: job.next + 1,
                    ..job
                },
            ),
        ),
        push: None,
        action: ActionView::Proceed,
    }
}

/// One turn of a playlist. Text that is no playlist is kept as it came, as
/// an opaque resource at the path of the playlist; the job ends once it is
/// stored.
pub open spec fn playlist_turn(ledger: LedgerView, job: PlaylistView, event: EventView) -> TurnView {
    match (job.stage, event) {
        (PlaylistStageView::Fetching, EventView::Text(t)) => if is_playlist(t) {
            TurnView {
                ledger,
                keep: Some(
                    JobView::Playlist(
                        PlaylistView {
                            stage: PlaylistStageView::Original,
                            lines: lines_of(t),
                            ..job
                        },
                    ),
                ),
                push: None,
                action: ActionView::Write {
                    path: original_copy(job.path, "manifest.m3u8.orig"@),
                    content: t,
                },
            }
        } else {
            TurnView {
                ledger,
                keep: Some(
                    JobView::Playlist(PlaylistView { stage: PlaylistStageView::Final, ..job }),
                ),
                push: None,
                action: ActionView::Write { path: job.path, content: t },
            }
        },
        (PlaylistStageView::Original, EventView::Done) => TurnView {
            ledger,
            keep: Some(JobView::Playlist(PlaylistView { stage: PlaylistStageView::Lines, ..job })),
            push: None,
            action: ActionView::Proceed,
        },
        (PlaylistStageView::Lines, EventView::Done) => line_turn(ledger, job),
        (PlaylistStageView::Child(pending), EventView::Done) => child_turn(ledger, job, pending),
        (PlaylistStageView::Final, EventView::Done) => leaving(ledger),
        _ => failing(ledger, JobView::Playlist(job), ErrorView::OutOfTurn),
    }
}

/// The manifest job with its next task in turn.
pub open spec fn next_task(job: ManifestView) -> ManifestView {
    ManifestView { next: job.next + 1, offset: 0, ..job }
}

/// The path that the template of a task of segments names for `number`.
pub open spec fn segment_reference(template: Seq<char>, number: u64) -> Seq<char> {
    trim(replace_all(template, "$Number$"@, decimal_digits(number as nat)))
}

/// The turn of a DASH manifest whose tasks are being carried out. After
/// the last task the job ends. A resource to fetch is taken on as a
/// binary. Of a task of segments one segment is taken on in each turn, in
/// the order of their numbers.
pub open spec fn task_turn(ledger: LedgerView, job: ManifestView) -> TurnView {
    if job.next >= job.tasks.len() {
        leaving(ledger)
    } else {
        match job.tasks[job.next as int] {
            TaskView::Fetch(u) => {
                let b = begun(ledger, u, Kind::Binary);
                TurnView {
                    ledger: b.ledger,
                    keep: Some(JobView::Manifest(next_task(job))),
                    push: None,
                    action: b.action,
                }
            },
            TaskView::Segments { base, template, first, last } => if first > last || job.offset
                > last - first {
                TurnView {
                    ledger,
                    keep: Some(JobView::Manifest(next_task(job))),
                    push: None,
                    action: ActionView::Proceed,
                }
            } else {
                let number = (first + job.offset) as u64;
                match resolved(base, segment_reference(template, number)) {
                    Err(e) => failing(ledger, JobView::Manifest(job), e),
                    Ok(u) => {
                        let b = begun(ledger, u, Kind::Binary);
                        TurnView {
                            ledger: b.ledger,
                            keep: Some(
                                JobView::Manifest(
                                    if number == last {
                                        next_task(job)
                                    } else {
                                        ManifestView { offset: (job.offset + 1) as u64, ..job }
                                    },
                                ),
                            ),
                            push: None,
                            action: b.action,
                        }
                    },
                }
            },
            TaskView::Unnumbered { representation } => TurnView {
                ledger,
                keep: Some(JobView::Manifest(next_task(job))),
                push: None,
                action: ActionView::Report { representation },
            },
            TaskView::Abort(e) => failing(ledger, JobView::Manifest(job), e),
        }
    }
}

/// One turn of a DASH manifest. Its text is stored twice, unchanged: once
/// as the original and once in its place. Then it is parsed; text that is
/// no XML and a document that is no manifest end the job, the text staying
/// as it was stored.
pub open spec fn manifest_turn(ledger: LedgerView, job: ManifestView, event: EventView) -> TurnView {
    match (job.stage, event) {
        (ManifestStage::Fetching, EventView::Text(t)) => TurnView {
            ledger,
            keep: Some(
                JobView::Manifest(ManifestView { stage: ManifestStage::Original, text: t, ..job }),
            ),
            push: None,
            action: ActionView::Write {
                path: original_copy(job.path, "manifest.mpd.orig"@),
                content: t,
            },
        },
        (ManifestStage::Original, EventView::Done) => TurnView {
            ledger,
            keep: Some(JobView::Manifest(ManifestView { stage: ManifestStage::Copy, ..job })),
            push: None,
            action: ActionView::Write { path: job.path, content: job.text },
        },
        (ManifestStage::Copy, EventView::Done) => match xml_nodes(job.text) {
            None => leaving(ledger),
            Some(nodes) => match manifest_tasks(nodes, job.url) {
                None => leaving(ledger),
                Some(tasks) => TurnView {
                    ledger,
                    keep: Some(
                        JobView::Manifest(
                            ManifestView {
                                stage: ManifestStage::Tasks,
                                tasks,
                                next: 0,
                                offset: 0,
                                ..job
                            },
                        ),
                    ),
                    push: None,
                    action: ActionView::Proceed,
                },
            },
        },
        (ManifestStage::Tasks, EventView::Done) => task_turn(ledger, job),
        _ => failing(ledger, JobView::Manifest(job), ErrorView::OutOfTurn),
    }
}

/// One turn of a job.
pub open spec fn turn(ledger: LedgerView, job: JobView, event: EventView) -> TurnView {
    match job {
        JobView::Playlist(p) => playlist_turn(ledger, p, event),
        JobView::Manifest(m) => manifest_turn(ledger, m, event),
    }
}

// ---------------------------------------------------------------------
// The mirror
// ---------------------------------------------------------------------

/// The state of a run.
pub struct Mirror {
    pub ledger: Ledger,
    /// The manifests being worked on, the innermost last.
    pub jobs: Vec<Job>,
}

pub struct MirrorView {
    pub ledger: LedgerView,
    pub jobs: Seq<JobView>,
}

impl View for Mirror {
    type V = MirrorView;

    open spec fn view(&self) -> MirrorView {
        MirrorView { ledger: self.ledger@, jobs: job_views(self.jobs@) }
    }
}

pub open spec fn with_job(jobs: Seq<JobView>, job: Option<JobView>) -> Seq<JobView> {
    match job {
        Some(j) => jobs.push(j),
        None => jobs,
    }
}

/// What the driver is told once the jobs are `jobs`: a mirror that has
/// nothing left to do after a turn without an action is finished.
pub open spec fn told(jobs: Seq<JobView>, action: ActionView) -> ActionView {
    if jobs.len() == 0 && action is Proceed {
        ActionView::Finished
    } else {
        action
    }
}

/// The mirror and its next action after the resource at `url` has been
/// taken on.
pub open spec fn started(mirror: MirrorView, url: UrlParts, kind: Kind) -> (MirrorView, ActionView) {
    let b = begun(mirror.ledger, url, kind);
    (MirrorView { ledger: b.ledger, jobs: with_job(mirror.jobs, b.job) }, b.action)
}

/// The mirror and its next action after the event `event`. An action that
/// could not be carried out fails the run, whatever it was. With no job at
/// hand there is nothing left to do. Otherwise the innermost job takes its
/// turn.
pub open spec fn resumed(mirror: MirrorView, event: EventView) -> (MirrorView, ActionView) {
    if event is Failed {
        (mirror, ActionView::Failed(ErrorView::ActionFailed { reason: event->Failed_0 }))
    } else if mirror.jobs.len() == 0 {
        (
            mirror,
            match event {
                EventView::Done => ActionView::Finished,
                _ => ActionView::Failed(ErrorView::OutOfTurn),
            },
        )
    } else {
        let t = turn(mirror.ledger, mirror.jobs.last(), event);
        let jobs = with_job(with_job(mirror.jobs.drop_last(), t.keep), t.push);
        (MirrorView { ledger: t.ledger, jobs }, told(jobs, t.action))
    }
}

/// The outcome of one turn of the innermost job.
pub struct Turn {
    pub keep: Option<Job>,
    pub push: Option<Job>,
    pub action: Action,
}

pub open spec fn turn_view(ledger: LedgerView, t: Turn) -> TurnView {
    TurnView { ledger, keep: option_job(t.keep), push: option_job(t.push), action: t.action@ }
}

pub open spec fn begun_view(ledger: LedgerView, job: Option<Job>, action: Action) -> BegunView {
    BegunView { ledger, job: option_job(job), action: action@ }
}

/// Takes the resource at `url` on.
fn begin(ledger: &mut Ledger, url: ResourceUrl, kind: Kind) -> (r: (Option<Job>, Action))
    requires
        old(ledger).wf(),
    ensures
        final(ledger).wf(),
        option_job_wf(r.0),
        names_below_root(r.1@),
        begun_view(final(ledger)@, r.0, r.1) == begun(old(ledger)@, url@, kind),
{
    if !ledger.mark_if_new(&url) {
        return (None, Action::Proceed);
    }
    let is_manifest = match kind {
        Kind::Binary => false,
        _ => true,
    };
    let path = ledger.path_for_url(&url, is_manifest);
    let text = url.text.clone();
    match kind {
        Kind::Binary => (None, Action::FetchBinary { url: text, path }),
        Kind::Playlist => {
            let job = Playlist {
                url,
                path: path.clone(),
                stage: PlaylistStage::Fetching,
                lines: Vec::new(),
                next: 0,
                output: Vec::new(),
            };
            assert(texts(job.lines@) =~= Seq::<Seq<char>>::empty());
            assert(texts(job.output@) =~= Seq::<Seq<char>>::empty());
            (
                Some(Job::Playlist(job)),
                Action::FetchManifest { url: text, path, dialect: Dialect::Hls },
            )
        },
        Kind::Manifest => {
            let job = Manifest {
                url,
                path: path.clone(),
                stage: ManifestStage::Fetching,
                text: String::new(),
                tasks: Vec::new(),
                next: 0,
                offset: 0,
            };
            assert(task_views(job.tasks@) =~= Seq::<TaskView>::empty());
            (
                Some(Job::Manifest(job)),
                Action::FetchManifest { url: text, path, dialect: Dialect::Dash },
            )
        },
    }
}

/// The turn of a playlist whose next line is to be read.
fn take_line_turn(ledger: &mut Ledger, job: Playlist) -> (t: Turn)
    requires
        old(ledger).wf(),
        job.stage is Lines,
        stays_below_root(job.path@),
    ensures
        final(ledger).wf(),
        option_job_wf(t.keep),
        option_job_wf(t.push),
        names_below_root(t.action@),
        turn_view(final(ledger)@, t) == line_turn(old(ledger)@, job@),
{
    let Playlist { url, path, stage, lines, next, output } = job;
    if next >= lines.len() {
        let content = render_playlist(&output);
        let target = path.clone();
        let kept = Playlist { url, path, stage: PlaylistStage::Final, lines, next, output };
        return Turn {
            keep: Some(Job::Playlist(kept)),
            push: None,
            action: Action::Write { path: target, content },
        };
    }
    let line = lines[next].clone();
    assert(line@ == texts(lines@)[next as int]);
    match find_reference(line.as_str()) {
        None => {
            let mut output = output;
            let ghost before = texts(output@);
            output.push(line);
            assert(texts(output@) =~= before.push(line@));
            let kept = Playlist { url, path, stage, lines, next: next + 1, output };
            Turn { keep: Some(Job::Playlist(kept)), push: None, action: Action::Proceed }
        },
        Some(r) => match url.resolve(r.uri.as_str()) {
            Err(e) => {
                let kept = Playlist { url, path, stage, lines, next, output };
                Turn { keep: Some(Job::Playlist(kept)), push: None, action: Action::Failed(e) }
            },
            Ok(child) => {
                let is_manifest = names_playlist(child.path.as_str());
                let kind = if is_manifest {
                    Kind::Playlist
                } else {
                    Kind::Binary
                };
                let (pushed, action) = begin(ledger, child.clone(), kind);
                let pending = Pending { url: child, is_manifest, reference: r };
                let kept = Playlist {
                    url,
                    path,
                    stage: PlaylistStage::Child(pending),
                    lines,
                    next,
                    output,
                };
                Turn { keep: Some(Job::Playlist(kept)), push: pushed, action }
            },
        },
    }
}

/// The turn that answers an event out of turn.
fn out_of_turn(job: Job) -> (t: Turn)
    requires
        job.wf(),
    ensures
        option_job_wf(t.keep),
        option_job_wf(t.push),
        t.keep == Some(job),
        t.push.is_none(),
        names_below_root(t.action@),
        t.action@ == ActionView::Failed(ErrorView::OutOfTurn),
{
    Turn { keep: Some(job), push: None, action: Action::Failed(MirrorError::OutOfTurn) }
}

/// The turn of a playlist whose text has come.
fn take_text_turn(job: Playlist, text: String) -> (t: Turn)
    requires
        job.stage is Fetching,
        stays_below_root(job.path@),
    ensures
        option_job_wf(t.keep),
        t.push.is_none(),
        names_below_root(t.action@),
        forall|ledger: LedgerView|
            turn_view(ledger, t) == playlist_turn(ledger, job@, EventView::Text(text@)),
{
    let Playlist { url, path, stage, lines, next, output } = job;
    if !is_hls_manifest(text.as_str()) {
        let target = path.clone();
        let kept = Playlist { url, path, stage: PlaylistStage::Final, lines, next, output };
        return Turn {
            keep: Some(Job::Playlist(kept)),
            push: None,
            action: Action::Write { path: target, content: text },
        };
    }
    let lines = split_lines(text.as_str());
    let original = path.original_copy("manifest.m3u8.orig");
    proof {
        lemma_fallback_names();
        lemma_original_copy_stays_below_root(path@, "manifest.m3u8.orig"@);
    }
    let kept = Playlist { url, path, stage: PlaylistStage::Original, lines, next, output };
    Turn {
        keep: Some(Job::Playlist(kept)),
        push: None,
        action: Action::Write { path: original, content: text },
    }
}

/// The turn of a playlist whose pending resource has been dealt with.
fn take_child_turn(ledger: &mut Ledger, job: Playlist, pending: Pending) -> (t: Turn)
    requires
        old(ledger).wf(),
        job.next < job.lines@.len(),
        stays_below_root(job.path@),
    ensures
        final(ledger).wf(),
        option_job_wf(t.keep),
        t.push.is_none(),
        names_below_root(t.action@),
        turn_view(final(ledger)@, t) == child_turn(old(ledger)@, job@, pending@),
{
    let Playlist { url, path, stage, lines, next, output } = job;
    let target = ledger.path_for_url(&pending.url, pending.is_manifest);
    let directory = path.parent();
    let reference = to_posix_relative(&target, &directory);
    let line = rewrite_line(&pending.reference, reference.as_str());
    let mut output = output;
    let ghost before = texts(output@);
    output.push(line);
    assert(texts(output@) =~= before.push(line@));
    let count = lines.len();
    assert(next < count);
    let kept = Playlist { url, path, stage: PlaylistStage::Lines, lines, next: next + 1, output };
    Turn { keep: Some(Job::Playlist(kept)), push: None, action: Action::Proceed }
}

/// One turn of a playlist.
fn take_playlist_turn(ledger: &mut Ledger, job: Playlist, event: Event) -> (t: Turn)
    requires
        old(ledger).wf(),
        Job::Playlist(job).wf(),
    ensures
        final(ledger).wf(),
        option_job_wf(t.keep),
        option_job_wf(t.push),
        names_below_root(t.action@),
        turn_view(final(ledger)@, t) == playlist_turn(old(ledger)@, job@, event@),
{
    match event {
        Event::Failed(_) => out_of_turn(Job::Playlist(job)),
        Event::Text(text) => match &job.stage {
            PlaylistStage::Fetching => take_text_turn(job, text),
            _ => out_of_turn(Job::Playlist(job)),
        },
        Event::Done => {
            let Playlist { url, path, stage, lines, next, output } = job;
            match stage {
                PlaylistStage::Fetching => out_of_turn(
                    Job::Playlist(Playlist { url, path, stage, lines, next, output }),
                ),
                PlaylistStage::Original => {
                    let kept = Playlist {
                        url,
                        path,
                        stage: PlaylistStage::Lines,
                        lines,
                        next,
                        output,
                    };
                    Turn { keep: Some(Job::Playlist(kept)), push: None, action: Action::Proceed }
                },
                PlaylistStage::Lines => take_line_turn(
                    ledger,
                    Playlist { url, path, stage, lines, next, output },
                ),
                PlaylistStage::Child(pending) => take_child_turn(
                    ledger,
                    Playlist { url, path, stage: PlaylistStage::Lines, lines, next, output },
                    pending,
                ),
                PlaylistStage::Final => Turn { keep: None, push: None, action: Action::Proceed },
            }
        },
    }
}

/// The turn of a DASH manifest whose tasks are being carried out.
fn take_task_turn(ledger: &mut Ledger, job: Manifest) -> (t: Turn)
    requires
        old(ledger).wf(),
        stays_below_root(job.path@),
    ensures
        final(ledger).wf(),
        option_job_wf(t.keep),
        option_job_wf(t.push),
        names_below_root(t.action@),
        turn_view(final(ledger)@, t) == task_turn(old(ledger)@, job@),
{
    let Manifest { url, path, stage, text, tasks, next, offset } = job;
    if next >= tasks.len() {
        return Turn { keep: None, push: None, action: Action::Proceed };
    }
    assert(task_views(tasks@)[next as int] == tasks@[next as int]@);
    match &tasks[next] {
        Task::Fetch(u) => {
            let (_, action) = begin(ledger, u.clone(), Kind::Binary);
            let kept = Manifest { url, path, stage, text, tasks, next: next + 1, offset: 0 };
            Turn { keep: Some(Job::Manifest(kept)), push: None, action }
        },
        Task::Segments { base, template, first, last } => {
            let first = *first;
            let last = *last;
            if first > last || offset > last - first {
                let kept = Manifest { url, path, stage, text, tasks, next: next + 1, offset: 0 };
                return Turn {
                    keep: Some(Job::Manifest(kept)),
                    push: None,
                    action: Action::Proceed,
                };
            }
            let number = first + offset;
            let digits = decimal_string(number);
            let named = replaced(template.as_str(), "$Number$", digits.as_str());
            let reference = trimmed(named.as_str());
            match base.resolve(reference.as_str()) {
                Err(e) => {
                    let kept = Manifest { url, path, stage, text, tasks, next, offset };
                    Turn { keep: Some(Job::Manifest(kept)), push: None, action: Action::Failed(e) }
                },
                Ok(u) => {
                    let (_, action) = begin(ledger, u, Kind::Binary);
                    let kept = if number == last {
                        Manifest { url, path, stage, text, tasks, next: next + 1, offset: 0 }
                    } else {
                        Manifest { url, path, stage, text, tasks, next, offset: offset + 1 }
                    };
                    Turn { keep: Some(Job::Manifest(kept)), push: None, action }
                },
            }
        },
        Task::Unnumbered { representation } => {
            let action = Action::Report { representation: representation.clone() };
            let kept = Manifest { url, path, stage, text, tasks, next: next + 1, offset: 0 };
            Turn { keep: Some(Job::Manifest(kept)), push: None, action }
        },
        Task::Abort(e) => {
            let action = Action::Failed(e.clone());
            let kept = Manifest { url, path, stage, text, tasks, next, offset };
            Turn { keep: Some(Job::Manifest(kept)), push: None, action }
        },
    }
}

/// One turn of a DASH manifest.
fn take_manifest_turn(ledger: &mut Ledger, job: Manifest, event: Event) -> (t: Turn)
    requires
        old(ledger).wf(),
        Job::Manifest(job).wf(),
    ensures
        final(ledger).wf(),
        option_job_wf(t.keep),
        option_job_wf(t.push),
        names_below_root(t.action@),
        turn_view(final(ledger)@, t) == manifest_turn(old(ledger)@, job@, event@),
{
    match event {
        Event::Failed(_) => out_of_turn(Job::Manifest(job)),
        Event::Text(fetched) => match job.stage {
            ManifestStage::Fetching => {
                let Manifest { url, path, stage, text, tasks, next, offset } = job;
                let original = path.original_copy("manifest.mpd.orig");
                proof {
                    lemma_fallback_names();
                    lemma_original_copy_stays_below_root(path@, "manifest.mpd.orig"@);
                }
                let kept = Manifest {
                    url,
                    path,
                    stage: ManifestStage::Original,
                    text: fetched.clone(),
                    tasks,
                    next,
                    offset,
                };
                Turn {
                    keep: Some(Job::Manifest(kept)),
                    push: None,
                    action: Action::Write { path: original, content: fetched },
                }
            },
            _ => out_of_turn(Job::Manifest(job)),
        },
        Event::Done => match job.stage {
            ManifestStage::Fetching => out_of_turn(Job::Manifest(job)),
            ManifestStage::Original => {
                let Manifest { url, path, stage, text, tasks, next, offset } = job;
                let action = Action::Write { path: path.clone(), content: text.clone() };
                let kept = Manifest {
                    url,
                    path,
                    stage: ManifestStage::Copy,
                    text,
                    tasks,
                    next,
                    offset,
                };
                Turn { keep: Some(Job::Manifest(kept)), push: None, action }
            },
            ManifestStage::Copy => {
                let nodes = match parse_xml(job.text.as_str()) {
                    Some(nodes) => nodes,
                    None => {
                        return Turn { keep: None, push: None, action: Action::Proceed };
                    },
                };
                match plan_manifest(&nodes, &job.url) {
                    None => Turn { keep: None, push: None, action: Action::Proceed },
                    Some(plan) => {
                        let Manifest { url, path, stage, text, tasks, next, offset } = job;
                        let kept = Manifest {
                            url,
                            path,
                            stage: ManifestStage::Tasks,
                            text,
                            tasks: plan,
                            next: 0,
                            offset: 0,
                        };
                        Turn {
                            keep: Some(Job::Manifest(kept)),
                            push: None,
                            action: Action::Proceed,
                        }
                    },
                }
            },
            ManifestStage::Tasks => take_task_turn(ledger, job),
        },
    }
}

impl Mirror {
    /// The invariant of a mirror: that of its ledger and of each of its
    /// jobs.
    pub open spec fn wf(&self) -> bool {
        &&& self.ledger.wf()
        &&& forall|i: int| 0 <= i < self.jobs@.len() ==> (#[trigger] self.jobs@[i]).wf()
    }

    /// A mirror that has seen nothing, for a first manifest whose URL path
    /// has the given segments.
    pub fn new(master_url_path_components: Vec<String>) -> (mirror: Mirror)
        ensures
            mirror.wf(),
            mirror@.ledger.master == texts(master_url_path_components@),
            mirror@.ledger.visited.len() == 0,
            mirror@.ledger.paths.len() == 0,
            mirror@.jobs.len() == 0,
    {
        Mirror { ledger: Ledger::new(master_url_path_components), jobs: Vec::new() }
    }

    /// The local path for `url`. A URL keeps the path that it was first
    /// given for the whole run.
    pub fn path_for_url(&mut self, url: &ResourceUrl, is_manifest: bool) -> (path: LocalPath)
        requires
            old(self).wf(),
        ensures
            final(self).wf(),
            path@ == path_for(old(self)@.ledger, url@, is_manifest),
            stays_below_root(path@),
            final(self)@.ledger == after_path_for(old(self)@.ledger, url@, is_manifest),
            final(self)@.jobs == old(self)@.jobs,
    {
        self.ledger.path_for_url(url, is_manifest)
    }

    /// The reference, with `/` as its separator, that leads from the
    /// directory `base` to `target`.
    pub fn to_posix_relative(target: &LocalPath, base: &LocalPath) -> (r: String)
        ensures
            r@ == relative_reference(target@, base@),
    {
        to_posix_relative(target, base)
    }

    /// The bounds, in characters, of the value of the first URI attribute
    /// in `line`.
    pub fn find_uri_attr(line: &str) -> (r: Option<(usize, usize)>)
        ensures
            match r {
                Some((start, end)) => uri_attribute(line@) == Some((start as int, end as int))
                    && start <= end < line@.len(),
                None => uri_attribute(line@).is_none(),
            },
    {
        find_uri_attr(line)
    }

    /// Takes the resource at `url` on as the given kind.
    fn start(&mut self, url: ResourceUrl, kind: Kind) -> (action: Action)
        requires
            old(self).wf(),
        ensures
            final(self).wf(),
            names_below_root(action@),
            (final(self)@, action@) == started(old(self)@, url@, kind),
    {
        let (job, action) = begin(&mut self.ledger, url, kind);
        let ghost before = self@.jobs;
        match job {
            Some(j) => {
                self.jobs.push(j);
                assert(self@.jobs =~= before.push(j@));
            },
            None => {},
        }
        action
    }

    /// Takes the resource at `url` on as a binary: one that is new is to
    /// be fetched and stored, one that is known is passed over.
    pub fn mirror_binary(&mut self, url: ResourceUrl) -> (action: Action)
        requires
            old(self).wf(),
        ensures
            final(self).wf(),
            names_below_root(action@),
            (final(self)@, action@) == started(old(self)@, url@, Kind::Binary),
    {
        self.start(url, Kind::Binary)
    }

    /// Takes the playlist at `url` on: one that is new is to be fetched,
    /// and becomes the innermost job.
    pub fn mirror_manifest(&mut self, url: ResourceUrl) -> (action: Action)
        requires
            old(self).wf(),
        ensures
            final(self).wf(),
            names_below_root(action@),
            (final(self)@, action@) == started(old(self)@, url@, Kind::Playlist),
    {
        self.start(url, Kind::Playlist)
    }

    /// Takes the DASH manifest at `url` on: one that is new is to be
    /// fetched, and becomes the innermost job.
    pub fn mirror_mpd(&mut self, url: ResourceUrl) -> (action: Action)
        requires
            old(self).wf(),
        ensures
            final(self).wf(),
            names_below_root(action@),
            (final(self)@, action@) == started(old(self)@, url@, Kind::Manifest),
    {
        self.start(url, Kind::Manifest)
    }

    /// Takes the driver's answer to the last action and says what is to
    /// be done next.
    pub fn resume(&mut self, event: Event) -> (action: Action)
        requires
            old(self).wf(),
        ensures
            final(self).wf(),
            names_below_root(action@),
            (final(self)@, action@) == resumed(old(self)@, event@),
    {
        let event = match event {
            Event::Failed(reason) => {
                return Action::Failed(MirrorError::ActionFailed { reason });
            },
            other => other,
        };
        let ghost before = self@.jobs;
        let job = match self.jobs.pop() {
            Some(job) => job,
            None => {
                assert(self@.jobs =~= before);
                return match event {
                    Event::Done => Action::Finished,
                    _ => Action::Failed(MirrorError::OutOfTurn),
                };
            },
        };
        assert(job@ == before.last());
        assert(self@.jobs =~= before.drop_last());
        let Turn { keep, push, action } = match job {
            Job::Playlist(p) => take_playlist_turn(&mut self.ledger, p, event),
            Job::Manifest(m) => take_manifest_turn(&mut self.ledger, m, event),
        };
        match keep {
            Some(j) => {
                let ghost jobs = self@.jobs;
                self.jobs.push(j);
                assert(self@.jobs =~= jobs.push(j@));
            },
            None => {},
        }
        match push {
            Some(j) => {
                let ghost jobs = self@.jobs;
                self.jobs.push(j);
                assert(self@.jobs =~= jobs.push(j@));
            },
            None => {},
        }
        if self.jobs.len() == 0 {
            match action {
                Action::Proceed => Action::Finished,
                other => other,
            }
        } else {
            action
        }
    }
}

// ---------------------------------------------------------------------
// The start of a run
// ---------------------------------------------------------------------

/// A mirror that has seen nothing.
pub open spec fn fresh(master: Seq<Seq<char>>) -> MirrorView {
    MirrorView {
        ledger: LedgerView { master, visited: Seq::empty(), paths: Seq::empty() },
        jobs: Seq::empty(),
    }
}

/// The kind that the first manifest of a dialect is taken on as.
pub open spec fn kind_for(dialect: Dialect) -> Kind {
    match dialect {
        Dialect::Hls => Kind::Playlist,
        Dialect::Dash => Kind::Manifest,
    }
}

/// The start of a run on the URL written `input`: the mirror, anchored at
/// the URL's path, and its first action. The extension of the path decides
/// between the two kinds of manifest. A text that is no URL and an
/// extension that names no manifest are errors.
pub open spec fn run_from(input: Seq<char>) -> Result<(MirrorView, ActionView), ErrorView> {
    match url_parse(input) {
        None => Err(ErrorView::InvalidUrl { input }),
        Some(url) => match dialect_of(extension_of(url.path)) {
            None => Err(ErrorView::UnsupportedExtension { extension: extension_of(url.path) }),
            Some(dialect) => Ok(started(fresh(path_segments(url.path)), url, kind_for(dialect))),
        },
    }
}

pub open spec fn run_view(r: Result<(Mirror, Action), MirrorError>) -> Result<
    (MirrorView, ActionView),
    ErrorView,
> {
    match r {
        Ok((mirror, action)) => Ok((mirror@, action@)),
        Err(e) => Err(e@),
    }
}

/// Starts a run on the manifest at `start_url`.
pub fn open_run(start_url: &str) -> (r: Result<(Mirror, Action), MirrorError>)
    ensures
        run_view(r) == run_from(start_url@),
        r matches Ok((mirror, action)) ==> mirror.wf() && names_below_root(action@),
{
    let url = match ResourceUrl::parse(start_url) {
        Some(url) => url,
        None => {
            return Err(MirrorError::InvalidUrl { input: start_url.to_owned() });
        },
    };
    let extension = path_extension(url.path.as_str());
    let dialect = match select_dialect(extension.as_str()) {
        Some(dialect) => dialect,
        None => {
            return Err(MirrorError::UnsupportedExtension { extension });
        },
    };
    let mut mirror = Mirror::new(path_components(url.path.as_str()));
    assert(mirror@ == fresh(path_segments(url@.path))) by {
        assert(mirror@.ledger.visited =~= Seq::<Seq<char>>::empty());
        assert(mirror@.ledger.paths =~= Seq::<crate::ledger::EntryView>::empty());
        assert(mirror@.jobs =~= Seq::<JobView>::empty());
    }
    let action = match dialect {
        Dialect::Hls => mirror.mirror_manifest(url),
        Dialect::Dash => mirror.mirror_mpd(url),
    };
    Ok((mirror, action))
}

// ---------------------------------------------------------------------
// Laws
// ---------------------------------------------------------------------

/// The URL that an action asks to fetch, if it asks for a fetch.
pub open spec fn fetched(action: ActionView) -> Option<Seq<char>> {
    match action {
        ActionView::FetchManifest { url, .. } => Some(url),
        ActionView::FetchBinary { url, .. } => Some(url),
        _ => None,
    }
}

/// Every URL that `before` holds is held by `after`.
pub open spec fn grown(before: LedgerView, after: LedgerView) -> bool {
    forall|key: Seq<char>| before.visited.contains(key) ==> after.visited.contains(key)
}

proof fn lemma_mark_grows(ledger: LedgerView, key: Seq<char>)
    ensures
        grown(ledger, after_mark(ledger, key)),
        after_mark(ledger, key).visited.contains(key),
{
    let after = after_mark(ledger, key);
    assert forall|k: Seq<char>| ledger.visited.contains(k) implies after.visited.contains(k) by {
        let i = choose|i: int| 0 <= i < ledger.visited.len() && ledger.visited[i] == k;
        assert(after.visited[i] == k);
    }
    if !ledger.visited.contains(key) {
        assert(after.visited[ledger.visited.len() as int] == key);
    }
}

/// A resource is fetched only when it is taken on for the first time, and
/// it is marked in the ledger before its fetch is asked for.
pub proof fn lemma_begun_fetches_new(ledger: LedgerView, url: UrlParts, kind: Kind)
    ensures
        grown(ledger, begun(ledger, url, kind).ledger),
        fetched(begun(ledger, url, kind).action) matches Some(key) ==> key == url.text
            && !ledger.visited.contains(key) && begun(ledger, url, kind).ledger.visited.contains(
            key,
        ),
{
    lemma_mark_grows(ledger, url.text);
}

/// Whatever the event, a turn of the mirror forgets no URL, and it asks
/// for the fetch of a URL only if the URL was new before the turn and is
/// marked after it.
pub proof fn lemma_resumed_fetches_new(mirror: MirrorView, event: EventView)
    ensures
        grown(mirror.ledger, resumed(mirror, event).0.ledger),
        fetched(resumed(mirror, event).1) matches Some(key) ==> !mirror.ledger.visited.contains(
            key,
        ) && resumed(mirror, event).0.ledger.visited.contains(key),
{
    if mirror.jobs.len() > 0 {
        let ledger = mirror.ledger;
        match mirror.jobs.last() {
            JobView::Playlist(job) => {
                match (job.stage, event) {
                    (PlaylistStageView::Lines, EventView::Done) => {
                        if job.next < job.lines.len() {
                            match reference_in(job.lines[job.next as int]) {
                                Some(r) => match resolved(job.url, r.uri) {
                                    Ok(child) => {
                                        lemma_begun_fetches_new(
                                            ledger,
                                            child,
                                            kind_of(is_playlist_path(child.path)),
                                        );
                                    },
                                    Err(_) => {},
                                },
                                None => {},
                            }
                        }
                    },
                    _ => {},
                }
            },
            JobView::Manifest(job) => {
                match (job.stage, event) {
                    (ManifestStage::Tasks, EventView::Done) => {
                        if job.next < job.tasks.len() {
                            match job.tasks[job.next as int] {
                                TaskView::Fetch(u) => {
                                    lemma_begun_fetches_new(ledger, u, Kind::Binary);
                                },
                                TaskView::Segments { base, template, first, last } => {
                                    if !(first > last || job.offset > last - first) {
                                        let number = (first + job.offset) as u64;
                                        match resolved(base, segment_reference(template, number)) {
                                            Ok(u) => {
                                                lemma_begun_fetches_new(ledger, u, Kind::Binary);
                                            },
                                            Err(_) => {},
                                        }
                                    }
                                },
                                _ => {},
                            }
                        }
                    },
                    _ => {},
                }
            },
        }
    }
}

/// The URL that a run starts with is fetched at most once: no later
/// action asks for it again.
pub proof fn lemma_first_url_is_not_fetched_again(
    mirror: MirrorView,
    url: UrlParts,
    kind: Kind,
    events: Seq<EventView>,
)
    requires
        events.len() > 0,
    ensures
        fetched(started(mirror, url, kind).1) matches Some(key) ==> fetched(
            action_after(started(mirror, url, kind).0, events),
        ) != Some(key),
{
    lemma_begun_fetches_new(mirror.ledger, url, kind);
    let first = started(mirror, url, kind).0;
    let earlier = events.drop_last();
    assert(earlier.take(0) =~= Seq::empty());
    lemma_state_grows(first, earlier, 0);
    lemma_resumed_fetches_new(state_after(first, earlier), events.last());
}

/// A turn of the mirror leaves the segments that it is anchored at as
/// they are.
pub proof fn lemma_anchor_is_kept(mirror: MirrorView, event: EventView)
    ensures
        resumed(mirror, event).0.ledger.master == mirror.ledger.master,
{
}

proof fn lemma_begun_keeps_paths(ledger: LedgerView, url: UrlParts, kind: Kind, key: Seq<char>)
    ensures
        lookup(ledger.paths, key) matches Some(p) ==> lookup(
            begun(ledger, url, kind).ledger.paths,
            key,
        ) == Some(p),
{
    lemma_held_path_stays(after_mark(ledger, url.text), key, url, kind != Kind::Binary);
}

/// A turn of the mirror changes the path of no URL that has one: the path
/// that a URL was first given is its path for the whole run.
pub proof fn lemma_resumed_keeps_paths(mirror: MirrorView, event: EventView, key: Seq<char>)
    ensures
        lookup(mirror.ledger.paths, key) matches Some(p) ==> lookup(
            resumed(mirror, event).0.ledger.paths,
            key,
        ) == Some(p),
{
    if mirror.jobs.len() > 0 {
        let ledger = mirror.ledger;
        match mirror.jobs.last() {
            JobView::Playlist(job) => {
                match (job.stage, event) {
                    (PlaylistStageView::Lines, EventView::Done) => {
                        if job.next < job.lines.len() {
                            match reference_in(job.lines[job.next as int]) {
                                Some(r) => match resolved(job.url, r.uri) {
                                    Ok(child) => {
                                        lemma_begun_keeps_paths(
                                            ledger,
                                            child,
                                            kind_of(is_playlist_path(child.path)),
                                            key,
                                        );
                                    },
                                    Err(_) => {},
                                },
                                None => {},
                            }
                        }
                    },
                    (PlaylistStageView::Child(pending), EventView::Done) => {
                        lemma_held_path_stays(ledger, key, pending.url, pending.is_manifest);
                    },
                    _ => {},
                }
            },
            JobView::Manifest(job) => {
                match (job.stage, event) {
                    (ManifestStage::Tasks, EventView::Done) => {
                        if job.next < job.tasks.len() {
                            match job.tasks[job.next as int] {
                                TaskView::Fetch(u) => {
                                    lemma_begun_keeps_paths(ledger, u, Kind::Binary, key);
                                },
                                TaskView::Segments { base, template, first, last } => {
                                    if !(first > last || job.offset > last - first) {
                                        let number = (first + job.offset) as u64;
                                        match resolved(base, segment_reference(template, number)) {
                                            Ok(u) => {
                                                lemma_begun_keeps_paths(
                                                    ledger,
                                                    u,
                                                    Kind::Binary,
                                                    key,
                                                );
                                            },
                                            Err(_) => {},
                                        }
                                    }
                                },
                                _ => {},
                            }
                        }
                    },
                    _ => {},
                }
            },
        }
    }
}

/// The mirror after the events `events`, answered one by one.
pub open spec fn state_after(mirror: MirrorView, events: Seq<EventView>) -> MirrorView
    decreases events.len(),
{
    if events.len() == 0 {
        mirror
    } else {
        resumed(state_after(mirror, events.drop_last()), events.last()).0
    }
}

/// The action that the mirror asks for in answer to the last of `events`.
pub open spec fn action_after(mirror: MirrorView, events: Seq<EventView>) -> ActionView
    recommends
        events.len() > 0,
{
    resumed(state_after(mirror, events.drop_last()), events.last()).1
}

proof fn lemma_state_grows(mirror: MirrorView, events: Seq<EventView>, n: int)
    requires
        0 <= n <= events.len(),
    ensures
        grown(state_after(mirror, events.take(n)).ledger, state_after(mirror, events).ledger),
    decreases events.len() - n,
{
    if n < events.len() {
        let shorter = events.drop_last();
        assert(shorter.take(n) == events.take(n));
        lemma_state_grows(mirror, shorter, n);
        lemma_resumed_fetches_new(state_after(mirror, shorter), events.last());
    } else {
        assert(events.take(n) == events);
    }
}

/// In a run no URL is fetched twice: whatever events the driver answers
/// with, two of the mirror's actions never ask for the same URL.
pub proof fn lemma_no_url_is_fetched_twice(
    mirror: MirrorView,
    events: Seq<EventView>,
    i: int,
    j: int,
)
    requires
        0 < i < j <= events.len(),
    ensures
        fetched(action_after(mirror, events.take(i))) matches Some(key) ==> fetched(
            action_after(mirror, events.take(j)),
        ) != Some(key),
{
    let early = events.take(i);
    let late = events.take(j);
    let before_late = late.drop_last();
    match fetched(action_after(mirror, early)) {
        Some(key) => {
            lemma_resumed_fetches_new(state_after(mirror, early.drop_last()), early.last());
            assert(state_after(mirror, early).ledger.visited.contains(key));
            assert(before_late.take(i) == early);
            lemma_state_grows(mirror, before_late, i);
            assert(state_after(mirror, before_late).ledger.visited.contains(key));
            lemma_resumed_fetches_new(state_after(mirror, before_late), late.last());
        },
        None => {},
    }
}

} // verus!
