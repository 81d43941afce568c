//! What a run remembers: the URLs that it has taken on, each once, and the
//! local path that each URL was first given.

use vstd::prelude::*;
use crate::local_path::{local_path, stays_below_root, LocalPath};
use crate::resource::{ResourceUrl, UrlParts};
use crate::text::texts;

verus! {

/// A URL's text with the local path that it was given.
pub struct PathEntry {
    pub key: String,
    pub path: LocalPath,
}

pub struct EntryView {
    pub key: Seq<char>,
    pub path: Seq<Seq<char>>,
}

impl View for PathEntry {
    type V = EntryView;

    open spec fn view(&self) -> EntryView {
        EntryView { key: self.key@, path: self.path@ }
    }
}

/// The memory of a run.
pub struct Ledger {
    /// The path segments of the first manifest's URL.
    pub master: Vec<String>,
    /// The texts of the URLs taken on so far, in the order they came.
    pub visited: Vec<String>,
    /// The local path of every URL that has been given one.
    pub paths: Vec<PathEntry>,
}

pub struct LedgerView {
    pub master: Seq<Seq<char>>,
    pub visited: Seq<Seq<char>>,
    pub paths: Seq<EntryView>,
}

pub open spec fn entry_views(entries: Seq<PathEntry>) -> Seq<EntryView> {
    Seq::new(entries.len(), |i: int| entries[i]@)
}

impl View for Ledger {
    type V = LedgerView;

    open spec fn view(&self) -> LedgerView {
        LedgerView {
            master: texts(self.master@),
            visited: texts(self.visited@),
            paths: entry_views(self.paths@),
        }
    }
}

/// The path that the first entry for `key` at or after index `from` gives.
pub open spec fn lookup_from(paths: Seq<EntryView>, key: Seq<char>, from: int) -> Option<
    Seq<Seq<char>>,
>
    decreases paths.len() - from,
{
    if from < 0 || from >= paths.len() {
        None
    } else if paths[from].key == key {
        Some(paths[from].path)
    } else {
        lookup_from(paths, key, from + 1)
    }
}

/// The path that `key` has been given, if any.
pub open spec fn lookup(paths: Seq<EntryView>, key: Seq<char>) -> Option<Seq<Seq<char>>> {
    lookup_from(paths, key, 0)
}

/// The local path that a ledger answers for `url`: the one that the URL
/// was given before, whatever kind it was then taken for; else the one
/// that its path, its query and its kind give now.
pub open spec fn path_for(ledger: LedgerView, url: UrlParts, is_manifest: bool) -> Seq<Seq<char>> {
    match lookup(ledger.paths, url.text) {
        Some(p) => p,
        None => local_path(ledger.master, url, is_manifest),
    }
}

/// The ledger after it has answered for `url`: a URL that had no path is
/// entered with the one it was given.
pub open spec fn after_path_for(ledger: LedgerView, url: UrlParts, is_manifest: bool) -> LedgerView {
    match lookup(ledger.paths, url.text) {
        Some(_) => ledger,
        None => LedgerView {
            paths: ledger.paths.push(
                EntryView { key: url.text, path: local_path(ledger.master, url, is_manifest) },
            ),
            ..ledger
        },
    }
}

/// The ledger after `key` has been taken on: a key that is new is added at
/// the end.
pub open spec fn after_mark(ledger: LedgerView, key: Seq<char>) -> LedgerView {
    if ledger.visited.contains(key) {
        ledger
    } else {
        LedgerView { visited: ledger.visited.push(key), ..ledger }
    }
}

/// No URL is held twice.
pub open spec fn no_repeats(visited: Seq<Seq<char>>) -> bool {
    forall|i: int, j: int| 0 <= i < j < visited.len() ==> visited[i] != visited[j]
}

/// Every path that is held stays below the output root.
pub open spec fn all_below_root(paths: Seq<EntryView>) -> bool {
    forall|i: int| 0 <= i < paths.len() ==> stays_below_root(#[trigger] paths[i].path)
}

proof fn lemma_lookup_below_root(paths: Seq<EntryView>, key: Seq<char>, from: int)
    requires
        0 <= from,
        all_below_root(paths),
    ensures
        lookup_from(paths, key, from) matches Some(p) ==> stays_below_root(p),
    decreases paths.len() - from,
{
    if from < paths.len() && paths[from].key != key {
        lemma_lookup_below_root(paths, key, from + 1);
    }
}

/// No URL has two paths.
pub open spec fn one_path_each(paths: Seq<EntryView>) -> bool {
    forall|i: int, j: int| 0 <= i < j < paths.len() ==> paths[i].key != paths[j].key
}

proof fn lemma_lookup_none(paths: Seq<EntryView>, key: Seq<char>, from: int)
    requires
        0 <= from,
        lookup_from(paths, key, from).is_none(),
    ensures
        forall|i: int| from <= i < paths.len() ==> paths[i].key != key,
    decreases paths.len() - from,
{
    if from < paths.len() {
        lemma_lookup_none(paths, key, from + 1);
    }
}

impl Ledger {
    /// The invariant of a ledger: no URL is held twice, none has two
    /// paths, and no path leaves the output root.
    pub open spec fn wf(&self) -> bool {
        &&& no_repeats(self@.visited)
        &&& one_path_each(self@.paths)
        &&& all_below_root(self@.paths)
    }

    /// A ledger that has seen nothing.
    pub fn new(master: Vec<String>) -> (ledger: Ledger)
        ensures
            ledger@.master == texts(master@),
            ledger@.visited.len() == 0,
            ledger@.paths.len() == 0,
            ledger.wf(),
    {
        Ledger { master, visited: Vec::new(), paths: Vec::new() }
    }

    /// Whether the URL written `key` has been taken on.
    pub fn is_visited(&self, key: &str) -> (b: bool)
        ensures
            b == self@.visited.contains(key@),
    {
        let wanted = key.to_owned();
        let mut i: usize = 0;
        while i < self.visited.len()
            invariant
                i <= self.visited.len(),
                wanted@ == key@,
                forall|j: int| 0 <= j < i ==> self@.visited[j] != key@,
            decreases self.visited.len() - i,
        {
            if self.visited[i] == wanted {
                assert(self@.visited[i as int] == key@);
                return true;
            }
            i += 1;
        }
        false
    }

    /// Takes the URL on if it is new, and says whether it was. What is not
    /// new must not be processed again.
    pub fn mark_if_new(&mut self, url: &ResourceUrl) -> (fresh: bool)
        requires
            old(self).wf(),
        ensures
            fresh == !old(self)@.visited.contains(url@.text),
            final(self)@ == after_mark(old(self)@, url@.text),
            final(self)@.visited.contains(url@.text),
            final(self).wf(),
    {
        if self.is_visited(url.text.as_str()) {
            return false;
        }
        let ghost before = self@.visited;
        self.visited.push(url.text.clone());
        assert(self@.visited =~= before.push(url@.text));
        assert(self@.visited[before.len() as int] == url@.text);
        true
    }

    /// The local path for `url`. A URL keeps the path that it was first
    /// given for the whole run.
    pub fn path_for_url(&mut self, url: &ResourceUrl, is_manifest: bool) -> (path: LocalPath)
        requires
            old(self).wf(),
        ensures
            final(self).wf(),
            path@ == path_for(old(self)@, url@, is_manifest),
            stays_below_root(path@),
            final(self)@ == after_path_for(old(self)@, url@, is_manifest),
    {
        proof {
            lemma_lookup_below_root(self@.paths, url@.text, 0);
        }
        let mut i: usize = 0;
        while i < self.paths.len()
            invariant
                i <= self.paths.len(),
                self.wf(),
                lookup(self@.paths, url@.text) == lookup_from(self@.paths, url@.text, i as int),
            decreases self.paths.len() - i,
        {
            if self.paths[i].key == url.text {
                return self.paths[i].path.clone();
            }
            i += 1;
        }
        let path = LocalPath::for_url(&self.master, url, is_manifest);
        let ghost before = self@.paths;
        proof {
            lemma_lookup_none(before, url@.text, 0);
        }
        self.paths.push(PathEntry { key: url.text.clone(), path: path.clone() });
        assert(self@.paths =~= before.push(EntryView { key: url@.text, path: path@ }));
        path
    }
}

// ---------------------------------------------------------------------
// Laws
// ---------------------------------------------------------------------

proof fn lemma_lookup_push(paths: Seq<EntryView>, entry: EntryView, key: Seq<char>, from: int)
    requires
        0 <= from <= paths.len(),
    ensures
        lookup_from(paths.push(entry), key, from) == match lookup_from(paths, key, from) {
            Some(p) => Some(p),
            None => if entry.key == key {
                Some(entry.path)
            } else {
                None
            },
        },
    decreases paths.len() - from,
{
    let more = paths.push(entry);
    if from < paths.len() {
        assert(more[from] == paths[from]);
        if paths[from].key != key {
            lemma_lookup_push(paths, entry, key, from + 1);
        }
    } else {
        assert(more[from] == entry);
        assert(lookup_from(more, key, from + 1).is_none());
    }
}

/// Asked twice for the same URL, a ledger gives the same path both times,
/// whatever kind the URL is taken for the second time, and the second
/// answer leaves the ledger as it is.
pub proof fn lemma_path_is_stable(ledger: LedgerView, url: UrlParts, first: bool, second: bool)
    ensures
        path_for(after_path_for(ledger, url, first), url, second) == path_for(ledger, url, first),
        after_path_for(after_path_for(ledger, url, first), url, second) == after_path_for(
            ledger,
            url,
            first,
        ),
{
    if lookup(ledger.paths, url.text).is_none() {
        let entry = EntryView { key: url.text, path: local_path(ledger.master, url, first) };
        lemma_lookup_push(ledger.paths, entry, url.text, 0);
    }
}

/// An answer for one URL changes the answer for no other.
pub proof fn lemma_path_is_kept(
    ledger: LedgerView,
    url: UrlParts,
    is_manifest: bool,
    other: UrlParts,
    other_is_manifest: bool,
)
    requires
        other.text != url.text,
    ensures
        path_for(after_path_for(ledger, url, is_manifest), other, other_is_manifest) == path_for(
            ledger,
            other,
            other_is_manifest,
        ),
{
    if lookup(ledger.paths, url.text).is_none() {
        let entry = EntryView { key: url.text, path: local_path(ledger.master, url, is_manifest) };
        lemma_lookup_push(ledger.paths, entry, other.text, 0);
    }
}

/// A path that is held stays held, whatever URL the ledger answers for
/// next.
pub proof fn lemma_held_path_stays(
    ledger: LedgerView,
    key: Seq<char>,
    url: UrlParts,
    is_manifest: bool,
)
    ensures
        lookup(ledger.paths, key) matches Some(p) ==> lookup(
            after_path_for(ledger, url, is_manifest).paths,
            key,
        ) == Some(p),
{
    if lookup(ledger.paths, url.text).is_none() {
        let entry = EntryView { key: url.text, path: local_path(ledger.master, url, is_manifest) };
        lemma_lookup_push(ledger.paths, entry, key, 0);
    }
}

/// One question to a ledger: the local path of a URL, taken for a manifest
/// or not.
pub struct Question {
    pub url: UrlParts,
    pub is_manifest: bool,
}

/// The ledger after it has answered the questions `asked`, one by one.
pub open spec fn after_questions(ledger: LedgerView, asked: Seq<Question>) -> LedgerView
    decreases asked.len(),
{
    if asked.len() == 0 {
        ledger
    } else {
        after_path_for(
            after_questions(ledger, asked.drop_last()),
            asked.last().url,
            asked.last().is_manifest,
        )
    }
}

/// The path of a URL is settled by the first answer for the whole run:
/// after any number of further questions, for this URL or for others, the
/// ledger still answers with the first path, whatever kind the URL is then
/// taken for, and that answer leaves the ledger as it is.
pub proof fn lemma_path_lasts_the_run(
    ledger: LedgerView,
    url: UrlParts,
    first: bool,
    asked: Seq<Question>,
    second: bool,
)
    ensures
        ({
            let later = after_questions(after_path_for(ledger, url, first), asked);
            &&& lookup(later.paths, url.text) == Some(path_for(ledger, url, first))
            &&& path_for(later, url, second) == path_for(ledger, url, first)
            &&& after_path_for(later, url, second) == later
        }),
    decreases asked.len(),
{
    if asked.len() == 0 {
        lemma_path_is_stable(ledger, url, first, second);
        if lookup(ledger.paths, url.text).is_none() {
            let entry = EntryView { key: url.text, path: local_path(ledger.master, url, first) };
            lemma_lookup_push(ledger.paths, entry, url.text, 0);
        }
    } else {
        lemma_path_lasts_the_run(ledger, url, first, asked.drop_last(), second);
        let before = after_questions(after_path_for(ledger, url, first), asked.drop_last());
        lemma_held_path_stays(before, url.text, asked.last().url, asked.last().is_manifest);
    }
}

/// A URL is new to a ledger at most once: after it has been taken on, it
/// is never new again.
pub proof fn lemma_marked_once(ledger: LedgerView, key: Seq<char>, later: Seq<char>)
    ensures
        after_mark(ledger, key).visited.contains(key),
        after_mark(after_mark(ledger, key), later).visited.contains(key),
        after_mark(after_mark(ledger, key), key) == after_mark(ledger, key),
{
    let once = after_mark(ledger, key);
    if !ledger.visited.contains(key) {
        assert(once.visited[ledger.visited.len() as int] == key);
    }
    assert(once.visited.contains(key));
    let i = choose|i: int| 0 <= i < once.visited.len() && once.visited[i] == key;
    let twice = after_mark(once, later);
    assert(twice.visited[i] == key);
}

} // verus!
