//! What a run stores. Every resource that a run takes on is stored before
//! the run is finished, at the path that the ledger holds for it; and every
//! reference that is written into a playlist names such a path. So no
//! reference of a finished run names a file that is missing.

use vstd::prelude::*;
use crate::hls::rewritten;
use crate::ledger::{
    after_mark, after_path_for, lemma_held_path_stays, lemma_path_lasts_the_run, lookup,
    LedgerView, Question,
};
use crate::local_path::{parent_of, relative_reference};
use crate::mirror::{
    begun, fresh, resumed, started, state_after, turn, with_job, ActionView, EventView, JobView,
    Kind, ManifestStage, MirrorView, PlaylistStageView, TurnView,
};
use crate::resource::UrlParts;

verus! {

/// The path at which an action asks to store something.
pub open spec fn stored_by(action: ActionView) -> Option<Seq<Seq<char>>> {
    match action {
        ActionView::FetchBinary { path, .. } => Some(path),
        ActionView::Write { path, .. } => Some(path),
        _ => None,
    }
}

/// The paths stored at once `action` has been carried out.
pub open spec fn with_stored(stored: Set<Seq<Seq<char>>>, action: ActionView) -> Set<
    Seq<Seq<char>>,
> {
    match stored_by(action) {
        Some(path) => stored.insert(path),
        None => stored,
    }
}

pub open spec fn job_url(job: JobView) -> UrlParts {
    match job {
        JobView::Playlist(p) => p.url,
        JobView::Manifest(m) => m.url,
    }
}

pub open spec fn job_path(job: JobView) -> Seq<Seq<char>> {
    match job {
        JobView::Playlist(p) => p.path,
        JobView::Manifest(m) => m.path,
    }
}

/// Whether the storing of a job's own manifest is still to be asked for.
pub open spec fn owes(job: JobView) -> bool {
    match job {
        JobView::Playlist(p) => !(p.stage is Final),
        JobView::Manifest(m) => m.stage is Fetching || m.stage is Original,
    }
}

/// A job is in order: its URL is marked and has the job's path, its
/// manifest is stored unless that is still owed, and the resource that it
/// waits for is marked.
pub open spec fn job_in_order(ledger: LedgerView, stored: Set<Seq<Seq<char>>>, job: JobView) -> bool {
    &&& ledger.visited.contains(job_url(job).text)
    &&& lookup(ledger.paths, job_url(job).text) == Some(job_path(job))
    &&& !owes(job) ==> stored.contains(job_path(job))
    &&& match job {
        JobView::Playlist(p) => match p.stage {
            PlaylistStageView::Child(pending) => ledger.visited.contains(pending.url.text),
            _ => true,
        },
        JobView::Manifest(_) => true,
    }
}

/// Whether a job still owes the storing of the resource at `key`.
pub open spec fn owed(jobs: Seq<JobView>, key: Seq<char>) -> bool {
    exists|i: int| 0 <= i < jobs.len() && owes(#[trigger] jobs[i]) && job_url(jobs[i]).text == key
}

/// The resource at `key` is accounted for: it has a path, and it is stored
/// there or a job owes it.
pub open spec fn accounted(mirror: MirrorView, stored: Set<Seq<Seq<char>>>, key: Seq<char>) -> bool {
    match lookup(mirror.ledger.paths, key) {
        Some(p) => stored.contains(p) || owed(mirror.jobs, key),
        None => false,
    }
}

/// The mirror and the paths stored at so far are in balance: every job is
/// in order, and every resource that is marked is accounted for.
pub open spec fn balanced(mirror: MirrorView, stored: Set<Seq<Seq<char>>>) -> bool {
    &&& forall|i: int|
        0 <= i < mirror.jobs.len() ==> job_in_order(mirror.ledger, stored, #[trigger] mirror.jobs[i])
    &&& forall|key: Seq<char>| #[trigger]
        mirror.ledger.visited.contains(key) ==> accounted(mirror, stored, key)
}

/// The later ledger holds what the earlier one holds.
pub open spec fn extends(before: LedgerView, after: LedgerView) -> bool {
    &&& forall|key: Seq<char>| #[trigger]
        before.visited.contains(key) ==> after.visited.contains(key)
    &&& forall|key: Seq<char>|
        (#[trigger] lookup(before.paths, key)) is Some ==> lookup(after.paths, key) == lookup(
            before.paths,
            key,
        )
}

proof fn lemma_answer_extends(ledger: LedgerView, url: UrlParts, is_manifest: bool)
    ensures
        extends(ledger, after_path_for(ledger, url, is_manifest)),
        after_path_for(ledger, url, is_manifest).visited == ledger.visited,
        lookup(after_path_for(ledger, url, is_manifest).paths, url.text) is Some,
{
    let after = after_path_for(ledger, url, is_manifest);
    assert forall|key: Seq<char>| (#[trigger] lookup(ledger.paths, key)) is Some implies lookup(
        after.paths,
        key,
    ) == lookup(ledger.paths, key) by {
        lemma_held_path_stays(ledger, key, url, is_manifest);
    }
    lemma_path_lasts_the_run(ledger, url, is_manifest, Seq::<Question>::empty(), is_manifest);
}

proof fn lemma_mark_extends(ledger: LedgerView, key: Seq<char>)
    ensures
        extends(ledger, after_mark(ledger, key)),
        after_mark(ledger, key).visited.contains(key),
        forall|k: Seq<char>| #[trigger]
            after_mark(ledger, key).visited.contains(k) ==> ledger.visited.contains(k) || k == key,
{
    let after = after_mark(ledger, key);
    assert forall|k: Seq<char>| #[trigger] ledger.visited.contains(k) implies after.visited.contains(
        k,
    ) by {
        let i = choose|i: int| 0 <= i < ledger.visited.len() && ledger.visited[i] == k;
        assert(after.visited[i] == k);
    }
    if !ledger.visited.contains(key) {
        assert(after.visited[ledger.visited.len() as int] == key);
    }
    assert forall|k: Seq<char>| #[trigger] after.visited.contains(k) implies ledger.visited.contains(
        k,
    ) || k == key by {
        let i = choose|i: int| 0 <= i < after.visited.len() && after.visited[i] == k;
        if i < ledger.visited.len() {
            assert(ledger.visited[i] == k);
        }
    }
}

/// What taking a resource on does to the balance.
pub open spec fn begun_accounts(ledger: LedgerView, url: UrlParts, kind: Kind) -> bool {
    let b = begun(ledger, url, kind);
    &&& extends(ledger, b.ledger)
    &&& b.ledger.visited.contains(url.text)
    &&& forall|k: Seq<char>| #[trigger]
        b.ledger.visited.contains(k) ==> ledger.visited.contains(k) || k == url.text
    &&& ledger.visited.contains(url.text) ==> b.ledger == ledger && b.job is None && b.action
        is Proceed
    &&& !ledger.visited.contains(url.text) ==> {
        &&& lookup(b.ledger.paths, url.text) is Some
        &&& match b.job {
            Some(j) => owes(j) && job_url(j) == url && Some(job_path(j)) == lookup(
                b.ledger.paths,
                url.text,
            ) && stored_by(b.action) is None && !(j is Playlist && j->Playlist_0.stage is Child),
            None => stored_by(b.action) == lookup(b.ledger.paths, url.text),
        }
    }
}

proof fn lemma_begun_accounts(ledger: LedgerView, url: UrlParts, kind: Kind)
    ensures
        begun_accounts(ledger, url, kind),
{
    let marked = after_mark(ledger, url.text);
    lemma_mark_extends(ledger, url.text);
    lemma_answer_extends(marked, url, kind != Kind::Binary);
    lemma_path_lasts_the_run(
        marked,
        url,
        kind != Kind::Binary,
        Seq::<Question>::empty(),
        kind != Kind::Binary,
    );
}

proof fn lemma_job_stays_in_order(
    before: LedgerView,
    after: LedgerView,
    stored: Set<Seq<Seq<char>>>,
    more: Set<Seq<Seq<char>>>,
    job: JobView,
)
    requires
        job_in_order(before, stored, job),
        extends(before, after),
        stored.subset_of(more),
    ensures
        job_in_order(after, more, job),
{
    assert(lookup(before.paths, job_url(job).text) is Some);
}

/// Whether a resource that a turn has newly marked is accounted for.
pub open spec fn newly_accounted(t: TurnView, more: Set<Seq<Seq<char>>>, key: Seq<char>) -> bool {
    match lookup(t.ledger.paths, key) {
        Some(p) => more.contains(p) || match t.push {
            Some(j) => owes(j) && job_url(j).text == key,
            None => false,
        },
        None => false,
    }
}

/// What a turn of the job `top` does to the balance.
pub open spec fn turn_accounts(
    ledger: LedgerView,
    stored: Set<Seq<Seq<char>>>,
    top: JobView,
    t: TurnView,
) -> bool {
    let more = with_stored(stored, t.action);
    &&& extends(ledger, t.ledger)
    &&& forall|key: Seq<char>| #[trigger]
        t.ledger.visited.contains(key) ==> ledger.visited.contains(key) || newly_accounted(
            t,
            more,
            key,
        )
    &&& match t.keep {
        Some(j) => job_url(j) == job_url(top) && job_path(j) == job_path(top) && job_in_order(
            t.ledger,
            more,
            j,
        ),
        None => more.contains(job_path(top)),
    }
    &&& match t.push {
        Some(j) => owes(j) && job_in_order(t.ledger, more, j),
        None => true,
    }
}

proof fn lemma_turn_with_begun(
    ledger: LedgerView,
    stored: Set<Seq<Seq<char>>>,
    top: JobView,
    kept: JobView,
    url: UrlParts,
    kind: Kind,
)
    requires
        job_in_order(ledger, stored, top),
        job_url(kept) == job_url(top),
        job_path(kept) == job_path(top),
        owes(kept) == owes(top),
        match kept {
            JobView::Playlist(p) => match p.stage {
                PlaylistStageView::Child(pending) => pending.url == url,
                _ => true,
            },
            JobView::Manifest(_) => true,
        },
    ensures
        turn_accounts(
            ledger,
            stored,
            top,
            TurnView {
                ledger: begun(ledger, url, kind).ledger,
                keep: Some(kept),
                push: begun(ledger, url, kind).job,
                action: begun(ledger, url, kind).action,
            },
        ),
{
    lemma_begun_accounts(ledger, url, kind);
    let b = begun(ledger, url, kind);
    let more = with_stored(stored, b.action);
    assert(lookup(ledger.paths, job_url(top).text) is Some);
    let t = TurnView { ledger: b.ledger, keep: Some(kept), push: b.job, action: b.action };
    assert forall|key: Seq<char>| #[trigger] t.ledger.visited.contains(key) implies ledger.visited.contains(
        key,
    ) || newly_accounted(t, more, key) by {
        if !ledger.visited.contains(key) {
            assert(key == url.text);
        }
    }
}

proof fn lemma_turn_accounts(
    ledger: LedgerView,
    stored: Set<Seq<Seq<char>>>,
    top: JobView,
    event: EventView,
)
    requires
        job_in_order(ledger, stored, top),
    ensures
        turn_accounts(ledger, stored, top, turn(ledger, top, event)),
{
    let t = turn(ledger, top, event);
    assert(lookup(ledger.paths, job_url(top).text) is Some);
    match top {
        JobView::Playlist(job) => {
            match (job.stage, event) {
                (PlaylistStageView::Lines, EventView::Done) => {
                    if job.next < job.lines.len() {
                        match crate::hls::reference_in(job.lines[job.next as int]) {
                            Some(r) => match crate::resource::resolved(job.url, r.uri) {
                                Ok(child) => {
                                    lemma_turn_with_begun(
                                        ledger,
                                        stored,
                                        top,
                                        t.keep->0,
                                        child,
                                        crate::mirror::kind_of(
                                            crate::resource::is_playlist_path(child.path),
                                        ),
                                    );
                                },
                                Err(_) => {},
                            },
                            None => {},
                        }
                    }
                },
                (PlaylistStageView::Child(pending), EventView::Done) => {
                    lemma_answer_extends(ledger, pending.url, pending.is_manifest);
                },
                _ => {},
            }
        },
        JobView::Manifest(job) => {
            match (job.stage, event) {
                (ManifestStage::Tasks, EventView::Done) => {
                    if job.next < job.tasks.len() {
                        match job.tasks[job.next as int] {
                            crate::dash::TaskView::Fetch(u) => {
                                lemma_turn_with_begun(
                                    ledger,
                                    stored,
                                    top,
                                    t.keep->0,
                                    u,
                                    Kind::Binary,
                                );
                            },
                            crate::dash::TaskView::Segments { base, template, first, last } => {
                                if !(first > last || job.offset > last - first) {
                                    let number = (first + job.offset) as u64;
                                    match crate::resource::resolved(
                                        base,
                                        crate::mirror::segment_reference(template, number),
                                    ) {
                                        Ok(u) => {
                                            lemma_turn_with_begun(
                                                ledger,
                                                stored,
                                                top,
                                                t.keep->0,
                                                u,
                                                Kind::Binary,
                                            );
                                        },
                                        Err(_) => {},
                                    }
                                }
                            },
                            _ => {},
                        }
                    }
                },
                _ => {},
            }
        },
    }
}

proof fn lemma_jobs_stay_balanced(
    mirror: MirrorView,
    stored: Set<Seq<Seq<char>>>,
    rest: Seq<JobView>,
    top: Option<JobView>,
    t: TurnView,
)
    requires
        balanced(mirror, stored),
        match top {
            Some(j) => mirror.jobs == rest.push(j) && turn_accounts(mirror.ledger, stored, j, t),
            None => mirror.jobs == rest && t.keep is None && extends(mirror.ledger, t.ledger)
                && (forall|key: Seq<char>| #[trigger]
                t.ledger.visited.contains(key) ==> mirror.ledger.visited.contains(key)
                    || newly_accounted(t, with_stored(stored, t.action), key)) && match t.push {
                Some(j) => owes(j) && job_in_order(t.ledger, with_stored(stored, t.action), j),
                None => true,
            },
        },
    ensures
        balanced(
            MirrorView { ledger: t.ledger, jobs: with_job(with_job(rest, t.keep), t.push) },
            with_stored(stored, t.action),
        ),
{
    let more = with_stored(stored, t.action);
    let jobs = with_job(with_job(rest, t.keep), t.push);
    let after = MirrorView { ledger: t.ledger, jobs };
    assert(stored.subset_of(more));
    assert forall|i: int| 0 <= i < jobs.len() implies job_in_order(t.ledger, more, #[trigger] jobs[i]) by {
        if i < rest.len() {
            assert(jobs[i] == mirror.jobs[i]);
            lemma_job_stays_in_order(mirror.ledger, t.ledger, stored, more, mirror.jobs[i]);
        }
    }
    assert forall|key: Seq<char>| #[trigger] t.ledger.visited.contains(key) implies accounted(
        after,
        more,
        key,
    ) by {
        if mirror.ledger.visited.contains(key) {
            assert(accounted(mirror, stored, key));
            let p = lookup(mirror.ledger.paths, key)->0;
            assert(lookup(t.ledger.paths, key) == Some(p));
            if !stored.contains(p) {
                let i = choose|i: int|
                    0 <= i < mirror.jobs.len() && owes(#[trigger] mirror.jobs[i]) && job_url(
                        mirror.jobs[i],
                    ).text == key;
                if i < rest.len() {
                    assert(jobs[i] == mirror.jobs[i]);
                } else {
                    let j = top->0;
                    assert(mirror.jobs[i] == j);
                    assert(job_in_order(mirror.ledger, stored, mirror.jobs[i]));
                    match t.keep {
                        Some(k) => {
                            assert(jobs[rest.len() as int] == k);
                            if !owes(k) {
                                assert(more.contains(p));
                            }
                        },
                        None => {},
                    }
                }
            }
        } else {
            assert(newly_accounted(t, more, key));
            let p = lookup(t.ledger.paths, key)->0;
            if !more.contains(p) {
                assert(jobs[jobs.len() - 1] == t.push->0);
            }
        }
    }
}

/// A turn of the mirror keeps the balance, whatever the event.
pub proof fn lemma_resumed_stays_balanced(
    mirror: MirrorView,
    stored: Set<Seq<Seq<char>>>,
    event: EventView,
)
    requires
        balanced(mirror, stored),
    ensures
        balanced(resumed(mirror, event).0, with_stored(stored, resumed(mirror, event).1)),
{
    if !(event is Failed) && mirror.jobs.len() > 0 {
        let top = mirror.jobs.last();
        let rest = mirror.jobs.drop_last();
        assert(mirror.jobs =~= rest.push(top));
        lemma_turn_accounts(mirror.ledger, stored, top, event);
        lemma_jobs_stay_balanced(
            mirror,
            stored,
            rest,
            Some(top),
            turn(mirror.ledger, top, event),
        );
    }
}

/// Taking a resource on keeps the balance.
pub proof fn lemma_started_stays_balanced(
    mirror: MirrorView,
    stored: Set<Seq<Seq<char>>>,
    url: UrlParts,
    kind: Kind,
)
    requires
        balanced(mirror, stored),
    ensures
        balanced(started(mirror, url, kind).0, with_stored(stored, started(mirror, url, kind).1)),
{
    lemma_begun_accounts(mirror.ledger, url, kind);
    let b = begun(mirror.ledger, url, kind);
    let t = TurnView { ledger: b.ledger, keep: None, push: b.job, action: b.action };
    let more = with_stored(stored, b.action);
    assert forall|key: Seq<char>| #[trigger] t.ledger.visited.contains(key) implies mirror.ledger.visited.contains(
        key,
    ) || newly_accounted(t, more, key) by {
        if !mirror.ledger.visited.contains(key) {
            assert(key == url.text);
        }
    }
    lemma_jobs_stay_balanced(mirror, stored, mirror.jobs, None, t);
}

/// A mirror that has seen nothing is in balance with nothing stored.
pub proof fn lemma_fresh_is_balanced(master: Seq<Seq<char>>)
    ensures
        balanced(fresh(master), Set::empty()),
{
}

/// The paths stored at after the events `events` have been answered, each
/// action carried out.
pub open spec fn stored_after(
    mirror: MirrorView,
    stored: Set<Seq<Seq<char>>>,
    events: Seq<EventView>,
) -> Set<Seq<Seq<char>>>
    decreases events.len(),
{
    if events.len() == 0 {
        stored
    } else {
        with_stored(
            stored_after(mirror, stored, events.drop_last()),
            resumed(state_after(mirror, events.drop_last()), events.last()).1,
        )
    }
}

/// A run stays in balance from its first action to its last.
pub proof fn lemma_run_stays_balanced(
    mirror: MirrorView,
    stored: Set<Seq<Seq<char>>>,
    events: Seq<EventView>,
)
    requires
        balanced(mirror, stored),
    ensures
        balanced(state_after(mirror, events), stored_after(mirror, stored, events)),
    decreases events.len(),
{
    if events.len() > 0 {
        lemma_run_stays_balanced(mirror, stored, events.drop_last());
        lemma_resumed_stays_balanced(
            state_after(mirror, events.drop_last()),
            stored_after(mirror, stored, events.drop_last()),
            events.last(),
        );
    }
}

/// Once no job is left, every resource that the run has taken on is
/// stored at the path that the ledger holds for it.
pub proof fn lemma_all_is_stored_at_the_end(mirror: MirrorView, stored: Set<Seq<Seq<char>>>)
    requires
        balanced(mirror, stored),
        mirror.jobs.len() == 0,
    ensures
        forall|key: Seq<char>| #[trigger]
            mirror.ledger.visited.contains(key) ==> lookup(mirror.ledger.paths, key) is Some
                && stored.contains(lookup(mirror.ledger.paths, key)->0),
{
    assert forall|key: Seq<char>| #[trigger] mirror.ledger.visited.contains(key) implies lookup(
        mirror.ledger.paths,
        key,
    ) is Some && stored.contains(lookup(mirror.ledger.paths, key)->0) by {
        assert(accounted(mirror, stored, key));
    }
}

/// A run that starts on a mirror that has seen nothing, and that has come
/// to its end, has stored every resource that it has taken on.
pub proof fn lemma_finished_run_has_stored_all(
    master: Seq<Seq<char>>,
    url: UrlParts,
    kind: Kind,
    events: Seq<EventView>,
)
    requires
        state_after(started(fresh(master), url, kind).0, events).jobs.len() == 0,
    ensures
        ({
            let first = started(fresh(master), url, kind);
            let last = state_after(first.0, events);
            let stored = stored_after(
                first.0,
                with_stored(Set::empty(), first.1),
                events,
            );
            forall|key: Seq<char>| #[trigger]
                last.ledger.visited.contains(key) ==> lookup(last.ledger.paths, key) is Some
                    && stored.contains(lookup(last.ledger.paths, key)->0)
        }),
{
    let first = started(fresh(master), url, kind);
    let begin = with_stored(Set::empty(), first.1);
    lemma_fresh_is_balanced(master);
    lemma_started_stays_balanced(fresh(master), Set::empty(), url, kind);
    lemma_run_stays_balanced(first.0, begin, events);
    lemma_all_is_stored_at_the_end(
        state_after(first.0, events),
        stored_after(first.0, begin, events),
    );
}

/// The line that a playlist writes for a reference names the path that
/// the ledger holds for the resource, which is one that the run has taken
/// on: the reference is the way from the playlist's directory to that
/// path.
pub proof fn lemma_written_line_names_a_held_path(mirror: MirrorView, stored: Set<Seq<Seq<char>>>)
    requires
        balanced(mirror, stored),
        mirror.jobs.len() > 0,
        mirror.jobs.last() is Playlist,
        mirror.jobs.last()->Playlist_0.stage is Child,
    ensures
        ({
            let job = mirror.jobs.last()->Playlist_0;
            let pending = job.stage->Child_0;
            let after = resumed(mirror, EventView::Done).0;
            &&& mirror.ledger.visited.contains(pending.url.text)
            &&& lookup(mirror.ledger.paths, pending.url.text) matches Some(p) && after.jobs.last()
                == JobView::Playlist(
                crate::mirror::PlaylistView {
                    stage: PlaylistStageView::Lines,
                    output: job.output.push(
                        rewritten(pending.reference, relative_reference(p, parent_of(job.path))),
                    ),
                    next: job.next + 1,
                    ..job
                },
            )
        }),
{
    let top = mirror.jobs.last();
    assert(job_in_order(mirror.ledger, stored, top));
    let pending = top->Playlist_0.stage->Child_0;
    assert(accounted(mirror, stored, pending.url.text));
}

} // verus!
