//! Where a remote resource is stored: a path below the output root, laid
//! out as the resource lies relative to the first manifest.

use vstd::prelude::*;
use crate::resource::{path_components, path_segments, playlist_suffix, ResourceUrl, UrlParts};
use crate::text::{
    append, char_is_alphanumeric, chars_of, is_alphanumeric, join, join_text, lemma_split_nonempty, lemma_split_pieces,
    slice_of, string_of, texts,
};

verus! {

/// A path below the output root, as its segments from the root down. The
/// last segment is the file name; a path without segments has none.
pub struct LocalPath {
    pub segments: Vec<String>,
}

impl View for LocalPath {
    type V = Seq<Seq<char>>;

    open spec fn view(&self) -> Seq<Seq<char>> {
        texts(self.segments@)
    }
}

/// A segment that the file system takes as a name of its own: not empty,
/// and neither `.` nor `..`.
pub open spec fn is_clean(seg: Seq<char>) -> bool {
    &&& seg.len() > 0
    &&& !(seg.len() == 1 && seg[0] == '.')
    &&& !(seg.len() == 2 && seg[0] == '.' && seg[1] == '.')
}

/// A clean segment without a `/` in it.
pub open spec fn is_name(seg: Seq<char>) -> bool {
    is_clean(seg) && forall|i: int| 0 <= i < seg.len() ==> seg[i] != '/'
}

/// Every segment is a name, so the path stays below the root that it is
/// appended to.
pub open spec fn stays_below_root(path: Seq<Seq<char>>) -> bool {
    forall|i: int| 0 <= i < path.len() ==> is_name(#[trigger] path[i])
}

/// The number of segments that `segs` shares with `master` from index `idx`
/// on, plus `idx`. The last segment of either never counts as shared.
pub open spec fn shared_from(master: Seq<Seq<char>>, segs: Seq<Seq<char>>, idx: int) -> int
    decreases segs.len() - idx,
{
    if 0 <= idx && idx + 1 < master.len() && idx + 1 < segs.len() && master[idx] == segs[idx] {
        shared_from(master, segs, idx + 1)
    } else {
        idx
    }
}

/// The clean segments of `segs`, in order.
pub open spec fn keep_clean(segs: Seq<Seq<char>>) -> Seq<Seq<char>>
    decreases segs.len(),
{
    if segs.len() == 0 {
        segs
    } else if is_clean(segs.last()) {
        keep_clean(segs.drop_last()).push(segs.last())
    } else {
        keep_clean(segs.drop_last())
    }
}

/// Whether a file name has an extension: a `.` that is not its first
/// character.
pub open spec fn has_extension(name: Seq<char>) -> bool {
    exists|i: int| 0 < i < name.len() && name[i] == '.'
}

/// `path` with `.m3u8` appended to its file name, where that has no
/// extension.
pub open spec fn as_playlist(path: Seq<Seq<char>>) -> Seq<Seq<char>> {
    if path.len() > 0 && !has_extension(path.last()) {
        path.drop_last().push(path.last() + playlist_suffix())
    } else {
        path
    }
}

pub open spec fn safe_char(c: char) -> char {
    if is_alphanumeric(c) {
        c
    } else {
        '_'
    }
}

/// The first 32 characters of a query, each that is not an ASCII letter or
/// digit replaced by `_`.
pub open spec fn safe_query(q: Seq<char>) -> Seq<char> {
    Seq::new(
        if q.len() > 32 {
            32
        } else {
            q.len()
        },
        |i: int| safe_char(q[i]),
    )
}

/// The index of the last `.` in `name`.
pub open spec fn last_dot(name: Seq<char>) -> Option<int>
    decreases name.len(),
{
    if name.len() == 0 {
        None
    } else if name.last() == '.' {
        Some(name.len() - 1)
    } else {
        last_dot(name.drop_last())
    }
}

pub open spec fn query_marker() -> Seq<char> {
    seq!['_', '_', 'q', '_']
}

/// `name` with `__q_` and the safe form of `q` put in before its last `.`,
/// or at its end where it has none.
pub open spec fn name_with_query(name: Seq<char>, q: Seq<char>) -> Seq<char> {
    match last_dot(name) {
        Some(d) => name.take(d) + query_marker() + safe_query(q) + name.skip(d),
        None => name + query_marker() + safe_query(q),
    }
}

/// `path` with its file name marked by the query `q`.
pub open spec fn with_query(path: Seq<Seq<char>>, q: Seq<char>) -> Seq<Seq<char>> {
    if path.len() > 0 {
        path.drop_last().push(name_with_query(path.last(), q))
    } else {
        seq![name_with_query(Seq::empty(), q)]
    }
}

/// The local path of the resource at `url`, when the first manifest's path
/// has the segments `master`: the segments of the URL's path without the
/// directories that it shares with the first manifest, and of those the
/// clean ones. The file name of a manifest gets the extension `.m3u8` where
/// it has none, and a query marks the file name, so that URLs which differ
/// in their queries are stored apart.
pub open spec fn local_path(master: Seq<Seq<char>>, url: UrlParts, is_manifest: bool) -> Seq<
    Seq<char>,
> {
    let segs = path_segments(url.path);
    let kept = keep_clean(segs.skip(shared_from(master, segs, 0)));
    let named = if is_manifest {
        as_playlist(kept)
    } else {
        kept
    };
    match url.query {
        Some(q) => with_query(named, q),
        None => named,
    }
}

fn segment_is_clean(seg: &[char]) -> (b: bool)
    ensures
        b == is_clean(seg@),
{
    seg.len() > 0 && !(seg.len() == 1 && seg[0] == '.') && !(seg.len() == 2 && seg[0] == '.'
        && seg[1] == '.')
}

fn name_has_extension(name: &[char]) -> (b: bool)
    ensures
        b == has_extension(name@),
{
    let mut i: usize = 1;
    while i < name.len()
        invariant
            1 <= i,
            forall|j: int| 0 < j < i && j < name.len() ==> name@[j] != '.',
        decreases name.len() - i,
    {
        if name[i] == '.' {
            return true;
        }
        i += 1;
    }
    false
}

fn find_last_dot(name: &[char]) -> (r: Option<usize>)
    ensures
        match r {
            Some(d) => last_dot(name@) == Some(d as int) && d < name.len(),
            None => last_dot(name@).is_none(),
        },
{
    let mut n: usize = name.len();
    assert(name@.take(n as int) == name@);
    while n > 0
        invariant
            n <= name.len(),
            last_dot(name@) == last_dot(name@.take(n as int)),
        decreases n,
    {
        let ghost t = name@.take(n as int);
        assert(t.drop_last() == name@.take(n - 1));
        if name[n - 1] == '.' {
            return Some(n - 1);
        }
        n -= 1;
    }
    None
}

fn marked_name(name: &[char], q: &[char]) -> (out: Vec<char>)
    ensures
        out@ == name_with_query(name@, q@),
{
    let mut safe: Vec<char> = Vec::new();
    let mut i: usize = 0;
    while i < q.len() && i < 32
        invariant
            i <= q.len(),
            i <= 32,
            safe@.len() == i,
            forall|j: int| 0 <= j < i ==> safe@[j] == safe_char(q@[j]),
        decreases q.len() - i,
    {
        let c = q[i];
        safe.push(
            if char_is_alphanumeric(c) {
                c
            } else {
                '_'
            },
        );
        i += 1;
    }
    assert(safe@ =~= safe_query(q@));
    let marker: Vec<char> = vec!['_', '_', 'q', '_'];
    assert(marker@ == query_marker());
    let cut: usize = match find_last_dot(name) {
        Some(d) => d,
        None => name.len(),
    };
    let mut out = slice_of(name, 0, cut);
    append(&mut out, marker.as_slice());
    append(&mut out, safe.as_slice());
    let tail = slice_of(name, cut, name.len());
    append(&mut out, tail.as_slice());
    proof {
        assert(name@.subrange(0, cut as int) == name@.take(cut as int));
        assert(name@.subrange(cut as int, name.len() as int) == name@.skip(cut as int));
        if last_dot(name@).is_none() {
            assert(name@.take(cut as int) == name@);
            assert(name@.skip(cut as int) == Seq::<char>::empty());
            assert(out@ == name@ + query_marker() + safe_query(q@));
        }
    }
    out
}

impl LocalPath {
    pub fn clone(&self) -> (c: LocalPath)
        ensures
            c@ == self@,
    {
        let mut segments: Vec<String> = Vec::new();
        let mut i: usize = 0;
        while i < self.segments.len()
            invariant
                i <= self.segments.len(),
                texts(segments@) == self@.take(i as int),
            decreases self.segments.len() - i,
        {
            let ghost before = texts(segments@);
            let seg = self.segments[i].clone();
            assert(seg@ == self@[i as int]);
            segments.push(seg);
            assert(texts(segments@) =~= before.push(seg@));
            assert(self@.take(i + 1) =~= self@.take(i as int).push(self@[i as int]));
            i += 1;
        }
        assert(self@.take(self.segments.len() as int) == self@);
        LocalPath { segments }
    }

    /// The path as text, with `/` between its segments.
    pub fn render(&self) -> (s: String)
        ensures
            s@ == join(self@, seq!['/']),
    {
        let sep: Vec<char> = vec!['/'];
        assert(sep@ == seq!['/']);
        let out = join_text(&self.segments, sep.as_slice());
        string_of(out.as_slice())
    }

    /// The path of the directory that holds this path. The root is its own
    /// directory.
    pub fn parent(&self) -> (dir: LocalPath)
        ensures
            dir@ == parent_of(self@),
    {
        let mut dir = self.clone();
        if dir.segments.len() > 0 {
            dir.segments.pop();
        }
        dir
    }

    /// The local path of the resource at `url`, anchored at the segments
    /// `master` of the first manifest's path.
    pub fn for_url(master: &Vec<String>, url: &ResourceUrl, is_manifest: bool) -> (p: LocalPath)
        ensures
            p@ == local_path(texts(master@), url@, is_manifest),
            stays_below_root(p@),
    {
        proof {
            lemma_local_path_stays_below_root(texts(master@), url@, is_manifest);
        }
        let segs = path_components(url.path.as_str());
        let ghost m = texts(master@);
        let ghost s = texts(segs@);
        proof {
            lemma_split_nonempty(crate::resource::strip_slashes(url.path@), '/');
        }
        let mut idx: usize = 0;
        while idx + 1 < master.len() && idx + 1 < segs.len() && master[idx] == segs[idx]
            invariant
                m == texts(master@),
                s == texts(segs@),
                idx < segs.len(),
                shared_from(m, s, 0) == shared_from(m, s, idx as int),
            decreases segs.len() - idx,
        {
            idx += 1;
        }
        let ghost rest = s.skip(idx as int);
        let mut segments: Vec<String> = Vec::new();
        let mut i: usize = idx;
        while i < segs.len()
            invariant
                idx <= i <= segs.len(),
                s == texts(segs@),
                rest == s.skip(idx as int),
                texts(segments@) == keep_clean(rest.take(i - idx)),
            decreases segs.len() - i,
        {
            let ghost upto = rest.take(i + 1 - idx);
            assert(upto.drop_last() == rest.take(i - idx));
            assert(upto.last() == segs@[i as int]@);
            let seg = chars_of(segs[i].as_str());
            if segment_is_clean(seg.as_slice()) {
                let ghost before = texts(segments@);
                segments.push(segs[i].clone());
                assert(texts(segments@) == before.push(segs@[i as int]@));
            }
            i += 1;
        }
        assert(rest.take(segs.len() - idx) == rest);
        let ghost kept = texts(segments@);
        if is_manifest && segments.len() > 0 {
            let last = segments.len() - 1;
            let name = chars_of(segments[last].as_str());
            if !name_has_extension(name.as_slice()) {
                let suffix: Vec<char> = vec!['.', 'm', '3', 'u', '8'];
                assert(suffix@ == playlist_suffix());
                let mut named = name;
                append(&mut named, suffix.as_slice());
                segments.pop();
                let renamed = string_of(named.as_slice());
                segments.push(renamed);
                assert(texts(segments@) == kept.drop_last().push(kept.last() + playlist_suffix()));
            }
        }
        let ghost named = texts(segments@);
        match &url.query {
            Some(q) => {
                let query = chars_of(q.as_str());
                if segments.len() > 0 {
                    let last = segments.len() - 1;
                    let name = chars_of(segments[last].as_str());
                    let marked = marked_name(name.as_slice(), query.as_slice());
                    segments.pop();
                    segments.push(string_of(marked.as_slice()));
                    assert(texts(segments@) == named.drop_last().push(
                        name_with_query(named.last(), q@),
                    ));
                } else {
                    let name: Vec<char> = Vec::new();
                    let marked = marked_name(name.as_slice(), query.as_slice());
                    segments.push(string_of(marked.as_slice()));
                    assert(name@ == Seq::<char>::empty());
                    assert(texts(segments@) == seq![name_with_query(Seq::empty(), q@)]);
                }
            },
            None => {},
        }
        LocalPath { segments }
    }
}

/// `path` without its last segment; the empty path is its own parent.
pub open spec fn parent_of(path: Seq<Seq<char>>) -> Seq<Seq<char>> {
    if path.len() > 0 {
        path.drop_last()
    } else {
        path
    }
}

/// The file name of a path, if it has one.
pub open spec fn file_name(path: Seq<Seq<char>>) -> Option<Seq<char>> {
    if path.len() > 0 {
        Some(path.last())
    } else {
        None
    }
}

pub open spec fn original_suffix() -> Seq<char> {
    seq!['.', 'o', 'r', 'i', 'g']
}

/// Where the unchanged text of the manifest stored at `path` is kept: beside
/// it, under its file name with `.orig` appended. A path without a file
/// name gets the name `fallback`.
pub open spec fn original_copy(path: Seq<Seq<char>>, fallback: Seq<char>) -> Seq<Seq<char>> {
    if path.len() > 0 {
        path.drop_last().push(path.last() + original_suffix())
    } else {
        seq![fallback]
    }
}

/// The copy of the original lies below the root where the manifest does.
pub proof fn lemma_original_copy_stays_below_root(path: Seq<Seq<char>>, fallback: Seq<char>)
    requires
        stays_below_root(path),
        is_name(fallback),
    ensures
        stays_below_root(original_copy(path, fallback)),
{
    if path.len() > 0 {
        let name = path.last() + original_suffix();
        assert(is_name(path.last()));
        assert forall|j: int| 0 <= j < name.len() implies name[j] != '/' by {
            if j < path.last().len() {
                assert(name[j] == path.last()[j]);
            } else {
                assert(name[j] == original_suffix()[j - path.last().len()]);
            }
        }
        assert(is_name(name));
    }
}

impl LocalPath {
    /// The path under which the unchanged text of the manifest stored at
    /// this path is kept.
    pub fn original_copy(&self, fallback: &str) -> (p: LocalPath)
        ensures
            p@ == original_copy(self@, fallback@),
    {
        let mut p = self.clone();
        if p.segments.len() > 0 {
            let last = p.segments.len() - 1;
            let mut name = chars_of(p.segments[last].as_str());
            let suffix: Vec<char> = vec!['.', 'o', 'r', 'i', 'g'];
            assert(suffix@ == original_suffix());
            append(&mut name, suffix.as_slice());
            p.segments.pop();
            p.segments.push(string_of(name.as_slice()));
            assert(p@ == self@.drop_last().push(self@.last() + original_suffix()));
        } else {
            p.segments.push(fallback.to_owned());
            assert(p@ == seq![fallback@]);
        }
        p
    }
}

// ---------------------------------------------------------------------
// Relative references
// ---------------------------------------------------------------------

/// A name that every platform reads as one path component: it holds
/// neither `\` nor `:`.
pub open spec fn is_portable(seg: Seq<char>) -> bool {
    is_name(seg) && forall|i: int| 0 <= i < seg.len() ==> seg[i] != '\\' && seg[i] != ':'
}

/// Every segment is a portable name.
pub open spec fn all_portable(path: Seq<Seq<char>>) -> bool {
    forall|i: int| 0 <= i < path.len() ==> is_portable(#[trigger] path[i])
}

/// The number of segments that two paths share at their start.
pub open spec fn shared_len(a: Seq<Seq<char>>, b: Seq<Seq<char>>) -> nat
    decreases a.len(),
{
    if a.len() > 0 && b.len() > 0 && a[0] == b[0] {
        1 + shared_len(a.skip(1), b.skip(1))
    } else {
        0
    }
}

/// The segment that leads to the directory above.
pub open spec fn up() -> Seq<char> {
    seq!['.', '.']
}

/// The way from the directory `base` to `target`: one step up for every
/// segment of `base` that `target` does not share, then the segments of
/// `target` that `base` does not share.
pub open spec fn route(target: Seq<Seq<char>>, base: Seq<Seq<char>>) -> Seq<Seq<char>> {
    let n = shared_len(target, base);
    Seq::new((base.len() - n) as nat, |i: int| up()) + target.skip(n as int)
}

pub open spec fn option_texts(parts: Option<Vec<String>>) -> Option<Seq<Seq<char>>> {
    match parts {
        Some(p) => Some(texts(p@)),
        None => None,
    }
}

/// What `pathdiff::diff_paths` gives for the path with the segments
/// `target` relative to the directory with the segments `base`, as the
/// components of the path it returns; `None` where it returns none. Segments
/// that are no portable names are read by `std::path` in the syntax of the
/// platform that the library is built for.
pub uninterp spec fn path_difference(target: Seq<Seq<char>>, base: Seq<Seq<char>>) -> Option<Seq<Seq<char>>>;

/// Calls `pathdiff::diff_paths` on the two paths made of the given
/// segments, and copies out the components of the path that it returns.
/// Where every segment is a portable name, each is one component of its
/// path on every platform, and `diff_paths` compares the two paths
/// component by component: it skips what they share at their start, steps
/// up once for each component left of `base`, and goes on with what is
/// left of `target`. Of other paths nothing is claimed beyond the name
/// `path_difference`.
#[verifier::external_body]
fn crate_diff_paths(target: &Vec<String>, base: &Vec<String>) -> (r: Option<Vec<String>>)
    ensures
        option_texts(r) == path_difference(texts(target@), texts(base@)),
        all_portable(texts(target@)) && all_portable(texts(base@)) ==> option_texts(r) == Some(
            route(texts(target@), texts(base@)),
        ),
{
    let target: std::path::PathBuf = target.iter().collect();
    let base: std::path::PathBuf = base.iter().collect();
    pathdiff::diff_paths(target, base).map(
        |p| p.components().map(|c| c.as_os_str().to_string_lossy().into_owned()).collect(),
    )
}

/// The reference written for `target` when its difference from the
/// referring directory is `difference`: the components of the difference
/// with `/` between them, or those of `target` itself where there is no
/// difference to be had.
pub open spec fn posix_reference(difference: Option<Seq<Seq<char>>>, target: Seq<Seq<char>>) -> Seq<
    char,
> {
    match difference {
        Some(parts) => join(parts, seq!['/']),
        None => join(target, seq!['/']),
    }
}

/// The reference to write for `target`, given what the path difference came
/// to.
pub fn reference_from_difference(difference: Option<Vec<String>>, target: &LocalPath) -> (r: String)
    ensures
        r@ == posix_reference(option_texts(difference), target@),
{
    match difference {
        Some(parts) => {
            let sep: Vec<char> = vec!['/'];
            assert(sep@ == seq!['/']);
            let out = join_text(&parts, sep.as_slice());
            string_of(out.as_slice())
        },
        None => target.render(),
    }
}

/// The reference that leads from the directory `base` to `target`, with
/// `/` as its separator on every platform. Between paths of portable names
/// it is the route from one to the other; between other paths it is what
/// the path difference comes to.
pub open spec fn relative_reference(target: Seq<Seq<char>>, base: Seq<Seq<char>>) -> Seq<char> {
    if all_portable(target) && all_portable(base) {
        join(route(target, base), seq!['/'])
    } else {
        posix_reference(path_difference(target, base), target)
    }
}

/// The reference, with `/` as its separator on every platform, that leads
/// from the directory `base` to `target`.
pub fn to_posix_relative(target: &LocalPath, base: &LocalPath) -> (r: String)
    ensures
        r@ == relative_reference(target@, base@),
{
    let difference = crate_diff_paths(&target.segments, &base.segments);
    reference_from_difference(difference, target)
}

/// Where a way leads from the directory `dir`: `..` leads up, any other
/// segment leads down.
pub open spec fn followed(dir: Seq<Seq<char>>, way: Seq<Seq<char>>) -> Seq<Seq<char>>
    decreases way.len(),
{
    if way.len() == 0 {
        dir
    } else if way.last() == up() {
        parent_of(followed(dir, way.drop_last()))
    } else {
        followed(dir, way.drop_last()).push(way.last())
    }
}

proof fn lemma_shared_len(a: Seq<Seq<char>>, b: Seq<Seq<char>>)
    ensures
        shared_len(a, b) <= a.len(),
        shared_len(a, b) <= b.len(),
        a.take(shared_len(a, b) as int) == b.take(shared_len(a, b) as int),
    decreases a.len(),
{
    if a.len() > 0 && b.len() > 0 && a[0] == b[0] {
        lemma_shared_len(a.skip(1), b.skip(1));
        let n = shared_len(a.skip(1), b.skip(1)) as int;
        assert(a.take(n + 1) =~= seq![a[0]] + a.skip(1).take(n));
        assert(b.take(n + 1) =~= seq![b[0]] + b.skip(1).take(n));
    } else {
        assert(a.take(0) =~= b.take(0));
    }
}

proof fn lemma_followed_up(dir: Seq<Seq<char>>, k: nat)
    requires
        k <= dir.len(),
    ensures
        followed(dir, Seq::new(k, |i: int| up())) == dir.take(dir.len() - k),
    decreases k,
{
    let way = Seq::new(k, |i: int| up());
    if k == 0 {
        assert(dir.take(dir.len() as int) == dir);
    } else {
        assert(way.drop_last() =~= Seq::new((k - 1) as nat, |i: int| up()));
        lemma_followed_up(dir, (k - 1) as nat);
        assert(dir.take(dir.len() - k + 1).drop_last() == dir.take(dir.len() - k));
    }
}

proof fn lemma_followed_down(dir: Seq<Seq<char>>, way: Seq<Seq<char>>)
    requires
        forall|i: int| 0 <= i < way.len() ==> way[i] != up(),
    ensures
        followed(dir, way) == dir + way,
    decreases way.len(),
{
    if way.len() == 0 {
        assert(dir + way =~= dir);
    } else {
        lemma_followed_down(dir, way.drop_last());
        assert(dir + way =~= (dir + way.drop_last()).push(way.last()));
    }
}

proof fn lemma_followed_in_turn(dir: Seq<Seq<char>>, first: Seq<Seq<char>>, then: Seq<Seq<char>>)
    ensures
        followed(dir, first + then) == followed(followed(dir, first), then),
    decreases then.len(),
{
    if then.len() == 0 {
        assert(first + then =~= first);
    } else {
        assert((first + then).drop_last() =~= first + then.drop_last());
        lemma_followed_in_turn(dir, first, then.drop_last());
    }
}

/// The route from a directory to a path of names leads there: followed
/// from the directory, step by step, it ends at the path.
pub proof fn lemma_route_leads_to_target(target: Seq<Seq<char>>, base: Seq<Seq<char>>)
    requires
        stays_below_root(target),
    ensures
        followed(base, route(target, base)) == target,
{
    lemma_shared_len(target, base);
    let n = shared_len(target, base);
    let ups = Seq::new((base.len() - n) as nat, |i: int| up());
    let rest = target.skip(n as int);
    lemma_followed_in_turn(base, ups, rest);
    lemma_followed_up(base, (base.len() - n) as nat);
    assert forall|i: int| 0 <= i < rest.len() implies rest[i] != up() by {
        assert(is_name(target[i + n]));
        assert(up().len() == 2 && up()[0] == '.' && up()[1] == '.');
    }
    lemma_followed_down(base.take(n as int), rest);
    assert(target.take(n as int) + rest =~= target);
}

/// Between paths of portable names, the reference from a directory to a
/// target is the route between them, and that route, followed from the
/// directory, ends at the target: a reference that is written leads to
/// the file that it stands for.
pub proof fn lemma_reference_leads_to_target(target: Seq<Seq<char>>, base: Seq<Seq<char>>)
    requires
        all_portable(target),
        all_portable(base),
    ensures
        relative_reference(target, base) == join(route(target, base), seq!['/']),
        followed(base, route(target, base)) == target,
{
    assert forall|i: int| 0 <= i < target.len() implies is_name(#[trigger] target[i]) by {
        assert(is_portable(target[i]));
    }
    lemma_route_leads_to_target(target, base);
}

// ---------------------------------------------------------------------
// Laws
// ---------------------------------------------------------------------

proof fn lemma_keep_clean_names(segs: Seq<Seq<char>>)
    requires
        forall|k: int, j: int| 0 <= k < segs.len() && 0 <= j < segs[k].len() ==> segs[k][j] != '/',
    ensures
        stays_below_root(keep_clean(segs)),
    decreases segs.len(),
{
    if segs.len() > 0 {
        lemma_keep_clean_names(segs.drop_last());
    }
}

proof fn lemma_last_dot_range(name: Seq<char>)
    ensures
        last_dot(name) matches Some(d) ==> 0 <= d < name.len() && name[d] == '.',
    decreases name.len(),
{
    if name.len() > 0 && name.last() != '.' {
        lemma_last_dot_range(name.drop_last());
    }
}

proof fn lemma_marked_name(name: Seq<char>, q: Seq<char>)
    requires
        forall|j: int| 0 <= j < name.len() ==> name[j] != '/',
    ensures
        is_name(name_with_query(name, q)),
        name_with_query(name, q).len() == name.len() + 4 + safe_query(q).len(),
{
    lemma_last_dot_range(name);
    let marked = name_with_query(name, q);
    let safe = safe_query(q);
    assert(marked.len() >= 4);
    match last_dot(name) {
        Some(d) => {
            assert forall|j: int| 0 <= j < marked.len() implies marked[j] != '/' by {
                if j < d {
                    assert(marked[j] == name[j]);
                } else if j < d + 4 {
                    assert(marked[j] == query_marker()[j - d]);
                } else if j < d + 4 + safe.len() {
                    assert(marked[j] == safe[j - d - 4]);
                } else {
                    assert(marked[j] == name[j - 4 - safe.len()]);
                }
            }
        },
        None => {
            assert forall|j: int| 0 <= j < marked.len() implies marked[j] != '/' by {
                if j < name.len() {
                    assert(marked[j] == name[j]);
                } else if j < name.len() + 4 {
                    assert(marked[j] == query_marker()[j - name.len()]);
                } else {
                    assert(marked[j] == safe[j - name.len() - 4]);
                }
            }
        },
    }
}

/// A local path holds names only, so it never leaves the output root: no
/// segment of it is empty, `.` or `..`, and none holds a `/`.
pub proof fn lemma_local_path_stays_below_root(
    master: Seq<Seq<char>>,
    url: UrlParts,
    is_manifest: bool,
)
    ensures
        stays_below_root(local_path(master, url, is_manifest)),
{
    let segs = path_segments(url.path);
    lemma_split_pieces(crate::resource::strip_slashes(url.path), '/');
    let rest = segs.skip(shared_from(master, segs, 0));
    assert forall|k: int, j: int| 0 <= k < rest.len() && 0 <= j < rest[k].len() implies rest[k][j]
        != '/' by {
        lemma_shared_from_range(master, segs, 0);
        assert(rest[k] == segs[k + shared_from(master, segs, 0)]);
    }
    lemma_keep_clean_names(rest);
    let kept = keep_clean(rest);
    let named = if is_manifest {
        as_playlist(kept)
    } else {
        kept
    };
    if is_manifest && kept.len() > 0 && !has_extension(kept.last()) {
        let name = kept.last() + playlist_suffix();
        assert(is_name(kept.last()));
        assert forall|j: int| 0 <= j < name.len() implies name[j] != '/' by {
            if j < kept.last().len() {
                assert(name[j] == kept.last()[j]);
            } else {
                assert(name[j] == playlist_suffix()[j - kept.last().len()]);
            }
        }
        assert(is_name(name));
    }
    assert(stays_below_root(named));
    match url.query {
        Some(q) => {
            if named.len() > 0 {
                assert(is_name(named.last()));
                lemma_marked_name(named.last(), q);
            } else {
                lemma_marked_name(Seq::empty(), q);
            }
        },
        None => {},
    }
}

proof fn lemma_shared_from_range(master: Seq<Seq<char>>, segs: Seq<Seq<char>>, idx: int)
    requires
        0 <= idx,
    ensures
        idx <= shared_from(master, segs, idx),
        shared_from(master, segs, idx) <= idx || shared_from(master, segs, idx) < segs.len(),
    decreases segs.len() - idx,
{
    if idx + 1 < master.len() && idx + 1 < segs.len() && master[idx] == segs[idx] {
        lemma_shared_from_range(master, segs, idx + 1);
    }
}

proof fn lemma_middle_decides(before: Seq<char>, a: Seq<char>, b: Seq<char>, after: Seq<char>)
    requires
        before + a + after == before + b + after,
    ensures
        a == b,
{
    let x = before + a + after;
    let y = before + b + after;
    assert(x.len() == y.len());
    assert(a.len() == b.len());
    assert forall|k: int| 0 <= k < a.len() implies a[k] == b[k] by {
        assert(x[before.len() + k] == a[k]);
        assert(y[before.len() + k] == b[k]);
    }
    assert(a =~= b);
}

/// Whether two URLs of one path can be told apart by their queries: one has
/// a query and the other has none, or the safe forms of their queries
/// differ.
pub open spec fn queries_tell_apart(a: Option<Seq<char>>, b: Option<Seq<char>>) -> bool {
    match (a, b) {
        (Some(p), Some(q)) => safe_query(p) != safe_query(q),
        (None, None) => false,
        _ => true,
    }
}

/// Two URLs that differ only in their query are stored under different
/// file names, wherever their queries tell them apart.
pub proof fn lemma_queries_keep_files_apart(
    master: Seq<Seq<char>>,
    a: UrlParts,
    b: UrlParts,
    is_manifest: bool,
)
    requires
        a.path == b.path,
        queries_tell_apart(a.query, b.query),
    ensures
        file_name(local_path(master, a, is_manifest)) != file_name(
            local_path(master, b, is_manifest),
        ),
{
    let segs = path_segments(a.path);
    let kept = keep_clean(segs.skip(shared_from(master, segs, 0)));
    let named = if is_manifest {
        as_playlist(kept)
    } else {
        kept
    };
    lemma_local_path_stays_below_root(master, UrlParts { query: None, ..a }, is_manifest);
    let name = if named.len() > 0 {
        named.last()
    } else {
        Seq::empty()
    };
    assert(forall|j: int| 0 <= j < name.len() ==> name[j] != '/') by {
        if named.len() > 0 {
            assert(is_name(named.last()));
        }
    }
    lemma_last_dot_range(name);
    match (a.query, b.query) {
        (Some(p), Some(q)) => {
            let x = name_with_query(name, p);
            let y = name_with_query(name, q);
            if x == y {
                match last_dot(name) {
                    Some(d) => {
                        lemma_middle_decides(
                            name.take(d) + query_marker(),
                            safe_query(p),
                            safe_query(q),
                            name.skip(d),
                        );
                    },
                    None => {
                        lemma_middle_decides(
                            name + query_marker(),
                            safe_query(p),
                            safe_query(q),
                            Seq::empty(),
                        );
                    },
                }
            }
        },
        (Some(p), None) => {
            lemma_marked_name(name, p);
        },
        (None, Some(q)) => {
            lemma_marked_name(name, q);
        },
        (None, None) => {},
    }
}

} // verus!
