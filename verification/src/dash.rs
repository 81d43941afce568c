//! DASH manifests: the resources that a manifest names, found by walking
//! its periods, adaptation sets and representations and expanding their
//! segment templates.

use vstd::prelude::*;
use crate::duration::{
    count_segments, parse_duration, parse_iso8601_duration_seconds, segment_count, Duration,
};
use crate::error::{ErrorView, MirrorError};
use crate::resource::{resolved, ResourceUrl, UrlParts};
use crate::text::{
    chars_of, ends_with, parse_number, parse_u64, replace_all, replaced, trim, trim_end,
    trim_end_index, trimmed,
};
use crate::xml::{
    attribute, attribute_of, child_elements, children_named, first_child, first_child_element,
    first_child_text, first_child_text_of, indices, node_views, root_element, root_element_of,
    NodeView, XmlNode,
};

verus! {

// ---------------------------------------------------------------------
// Segment numbers
// ---------------------------------------------------------------------

/// The numbers of the media segments of a template.
#[derive(Clone, Copy, PartialEq, Eq, Debug)]
pub enum Numbers {
    /// Neither an end number nor the lengths to derive one from are known.
    Unknown,
    /// There are no segments.
    Nothing,
    /// The segments `first` to `last`, both included.
    Through { first: u64, last: u64 },
}

/// The segment numbers of a template that starts at `start`. An end number
/// given in the template decides. Without one, the segments are as many as
/// it takes to fill `total`, each `units / timescale` seconds long; this
/// cannot be told where either length is missing, where a segment has no
/// length, and where the last number would exceed 64 bits.
pub open spec fn numbers_of(
    start: u64,
    end: Option<u64>,
    units: Option<u64>,
    timescale: u64,
    total: Option<Duration>,
) -> Numbers {
    match end {
        Some(last) => if start <= last {
            Numbers::Through { first: start, last }
        } else {
            Numbers::Nothing
        },
        None => match (units, total) {
            (Some(u), Some(t)) => if u == 0 || timescale == 0 {
                Numbers::Unknown
            } else {
                let count = segment_count(t, u, timescale);
                if count == 0 {
                    Numbers::Nothing
                } else if start + count - 1 <= u64::MAX {
                    Numbers::Through { first: start, last: (start + count - 1) as u64 }
                } else {
                    Numbers::Unknown
                }
            },
            _ => Numbers::Unknown,
        },
    }
}

pub open spec fn option_wf(total: Option<Duration>) -> bool {
    match total {
        Some(t) => t.wf(),
        None => true,
    }
}

/// Works out the segment numbers of a template.
pub fn segment_numbers(
    start: u64,
    end: Option<u64>,
    units: Option<u64>,
    timescale: u64,
    total: Option<Duration>,
) -> (r: Numbers)
    requires
        option_wf(total),
    ensures
        r == numbers_of(start, end, units, timescale, total),
{
    match end {
        Some(last) => {
            if start <= last {
                Numbers::Through { first: start, last }
            } else {
                Numbers::Nothing
            }
        },
        None => match (units, total) {
            (Some(u), Some(t)) => {
                if u == 0 || timescale == 0 {
                    return Numbers::Unknown;
                }
                let count = count_segments(t, u, timescale);
                if count == 0 {
                    Numbers::Nothing
                } else if count - 1 <= (u64::MAX - start) as u128 {
                    Numbers::Through { first: start, last: start + ((count - 1) as u64) }
                } else {
                    Numbers::Unknown
                }
            },
            _ => Numbers::Unknown,
        },
    }
}

// ---------------------------------------------------------------------
// Tasks
// ---------------------------------------------------------------------

/// One step of mirroring what a manifest names.
pub enum Task {
    /// Mirror the resource at this URL.
    Fetch(ResourceUrl),
    /// Mirror the media segments `first` to `last`: for each number, the
    /// resource that `template` names once `$Number$` is replaced by it,
    /// resolved against `base`.
    Segments { base: ResourceUrl, template: String, first: u64, last: u64 },
    /// Tell the operator that the media segments of a representation are
    /// left out, their numbers being unknown.
    Unnumbered { representation: String },
    /// Stop with this error.
    Abort(MirrorError),
}

pub enum TaskView {
    Fetch(UrlParts),
    Segments { base: UrlParts, template: Seq<char>, first: u64, last: u64 },
    Unnumbered { representation: Seq<char> },
    Abort(ErrorView),
}

impl View for Task {
    type V = TaskView;

    open spec fn view(&self) -> TaskView {
        match self {
            Task::Fetch(u) => TaskView::Fetch(u@),
            Task::Segments { base, template, first, last } => TaskView::Segments {
                base: base@,
                template: template@,
                first: *first,
                last: *last,
            },
            Task::Unnumbered { representation } => TaskView::Unnumbered {
                representation: representation@,
            },
            Task::Abort(e) => TaskView::Abort(e@),
        }
    }
}

pub open spec fn task_views(tasks: Seq<Task>) -> Seq<TaskView> {
    Seq::new(tasks.len(), |i: int| tasks[i]@)
}

/// Whether a list of tasks ends in an abort.
pub open spec fn aborted(tasks: Seq<TaskView>) -> bool {
    tasks.len() > 0 && tasks.last() is Abort
}

/// `first`, then `rest` unless `first` ends in an abort.
pub open spec fn chain(first: Seq<TaskView>, rest: Seq<TaskView>) -> Seq<TaskView> {
    if aborted(first) {
        first
    } else {
        first + rest
    }
}

// ---------------------------------------------------------------------
// Segment templates
// ---------------------------------------------------------------------

/// The number that the attribute `name` of a node writes.
pub open spec fn number_attribute(node: NodeView, name: Seq<char>) -> Option<u64> {
    match attribute_of(node, name) {
        Some(v) => parse_u64(v),
        None => None,
    }
}

pub open spec fn or_one(n: Option<u64>) -> u64 {
    match n {
        Some(x) => x,
        None => 1,
    }
}

/// The segment numbers that a template element declares.
pub open spec fn template_numbers(st: NodeView, total: Option<Duration>) -> Numbers {
    numbers_of(
        or_one(number_attribute(st, "startNumber"@)),
        number_attribute(st, "endNumber"@),
        number_attribute(st, "duration"@),
        or_one(number_attribute(st, "timescale"@)),
        total,
    )
}

/// The task for the initialization segment of a template, if it names one.
pub open spec fn init_tasks(st: NodeView, base: UrlParts, id: Seq<char>) -> Seq<TaskView> {
    match attribute_of(st, "initialization"@) {
        Some(t) => match resolved(base, trim(replace_all(t, "$RepresentationID$"@, id))) {
            Ok(u) => seq![TaskView::Fetch(u)],
            Err(e) => seq![TaskView::Abort(e)],
        },
        None => Seq::empty(),
    }
}

/// The task for the media segments of a template, if it names any.
pub open spec fn media_tasks(
    st: NodeView,
    base: UrlParts,
    id: Seq<char>,
    total: Option<Duration>,
) -> Seq<TaskView> {
    match attribute_of(st, "media"@) {
        Some(m) => if m.len() == 0 {
            Seq::empty()
        } else {
            match template_numbers(st, total) {
                Numbers::Unknown => seq![TaskView::Unnumbered { representation: id }],
                Numbers::Nothing => Seq::empty(),
                Numbers::Through { first, last } => seq![
                    TaskView::Segments {
                        base,
                        template: replace_all(m, "$RepresentationID$"@, id),
                        first,
                        last,
                    },
                ],
            }
        },
        None => Seq::empty(),
    }
}

/// The tasks of a segment template for the representation `id`, whose
/// references resolve against `base`.
pub open spec fn template_tasks(
    st: NodeView,
    base: UrlParts,
    id: Seq<char>,
    total: Option<Duration>,
) -> Seq<TaskView> {
    chain(init_tasks(st, base, id), media_tasks(st, base, id, total))
}

fn read_number_attribute(nodes: &Vec<XmlNode>, i: usize, name: &str) -> (r: Option<u64>)
    requires
        i < nodes.len(),
    ensures
        r == number_attribute(node_views(nodes@)[i as int], name@),
{
    match attribute(nodes, i, name) {
        Some(v) => parse_number(v.as_str()),
        None => None,
    }
}

fn one_if_missing(n: Option<u64>) -> (r: u64)
    ensures
        r == or_one(n),
{
    match n {
        Some(x) => x,
        None => 1,
    }
}

/// The tasks of the segment template at node `st` for a representation.
pub fn handle_segment_template(
    nodes: &Vec<XmlNode>,
    st: usize,
    base_url: &ResourceUrl,
    representation_id: &str,
    mpd_duration: Option<Duration>,
) -> (tasks: Vec<Task>)
    requires
        st < nodes.len(),
        option_wf(mpd_duration),
    ensures
        task_views(tasks@) == template_tasks(
            node_views(nodes@)[st as int],
            base_url@,
            representation_id@,
            mpd_duration,
        ),
{
    let ghost node = node_views(nodes@)[st as int];
    let mut tasks: Vec<Task> = Vec::new();
    match attribute(nodes, st, "initialization") {
        Some(template) => {
            let path = replaced(template.as_str(), "$RepresentationID$", representation_id);
            let reference = trimmed(path.as_str());
            match base_url.resolve(reference.as_str()) {
                Ok(u) => {
                    tasks.push(Task::Fetch(u));
                    assert(task_views(tasks@) =~= seq![TaskView::Fetch(u@)]);
                },
                Err(e) => {
                    tasks.push(Task::Abort(e));
                    assert(task_views(tasks@) =~= seq![TaskView::Abort(e@)]);
                    return tasks;
                },
            }
        },
        None => {
            assert(task_views(tasks@) =~= Seq::<TaskView>::empty());
        },
    }
    let ghost first_part = task_views(tasks@);
    assert(first_part == init_tasks(node, base_url@, representation_id@));
    assert(!aborted(first_part));
    let media = match attribute(nodes, st, "media") {
        Some(m) => m,
        None => {
            assert(first_part + Seq::<TaskView>::empty() =~= first_part);
            return tasks;
        },
    };
    if media.as_str().is_empty() {
        assert(first_part + Seq::<TaskView>::empty() =~= first_part);
        return tasks;
    }
    let timescale = one_if_missing(read_number_attribute(nodes, st, "timescale"));
    let units = read_number_attribute(nodes, st, "duration");
    let start = one_if_missing(read_number_attribute(nodes, st, "startNumber"));
    let end = read_number_attribute(nodes, st, "endNumber");
    match segment_numbers(start, end, units, timescale, mpd_duration) {
        Numbers::Unknown => {
            tasks.push(Task::Unnumbered { representation: representation_id.to_owned() });
            assert(task_views(tasks@) =~= first_part + seq![
                TaskView::Unnumbered { representation: representation_id@ },
            ]);
        },
        Numbers::Nothing => {
            assert(first_part + Seq::<TaskView>::empty() =~= first_part);
        },
        Numbers::Through { first, last } => {
            let template = replaced(media.as_str(), "$RepresentationID$", representation_id);
            tasks.push(Task::Segments { base: base_url.clone(), template, first, last });
            assert(task_views(tasks@) =~= first_part + seq![
                TaskView::Segments { base: base_url@, template: template@, first, last },
            ]);
        },
    }
    tasks
}

// ---------------------------------------------------------------------
// The walk
// ---------------------------------------------------------------------

/// The base URL in force below `node`: its own `BaseURL`, resolved against
/// the one it inherits, where it declares one; else the inherited one.
pub open spec fn narrowed(nodes: Seq<NodeView>, node: int, inherited: UrlParts) -> Result<
    UrlParts,
    ErrorView,
> {
    match first_child_text_of(nodes, node, "BaseURL"@) {
        Some(b) => resolved(inherited, trim(b)),
        None => Ok(inherited),
    }
}

/// Whether a declared base URL names a file rather than a directory: it
/// does not end, before trailing white space, in `/`.
pub open spec fn names_file(declared: Option<Seq<char>>) -> bool {
    match declared {
        Some(b) => !ends_with(trim_end(b), seq!['/']),
        None => false,
    }
}

pub open spec fn or_else(first: Option<int>, second: Option<int>) -> Option<int> {
    match first {
        Some(x) => Some(x),
        None => second,
    }
}

/// The tasks of the segment template in force for a representation, if
/// there is one.
pub open spec fn template_part(
    nodes: Seq<NodeView>,
    st: Option<int>,
    base: UrlParts,
    id: Seq<char>,
    total: Option<Duration>,
) -> Seq<TaskView> {
    match st {
        Some(s) => template_tasks(nodes[s], base, id, total),
        None => Seq::empty(),
    }
}

/// The tasks of the representation at node `rep`. Its segment template is
/// its own or else that of its adaptation set, `inherited`; one without an
/// `id` has no use for a template. A base URL of its own that names a file
/// is mirrored too, after the segments, whether it has an `id` or not.
pub open spec fn representation_tasks(
    nodes: Seq<NodeView>,
    rep: int,
    set_base: UrlParts,
    inherited: Option<int>,
    total: Option<Duration>,
) -> Seq<TaskView> {
    match narrowed(nodes, rep, set_base) {
        Err(e) => seq![TaskView::Abort(e)],
        Ok(base) => {
            let part = match attribute_of(nodes[rep], "id"@) {
                Some(id) => template_part(
                    nodes,
                    or_else(first_child(nodes, rep, "SegmentTemplate"@), inherited),
                    base,
                    id,
                    total,
                ),
                None => Seq::empty(),
            };
            if names_file(first_child_text_of(nodes, rep, "BaseURL"@)) {
                chain(part, seq![TaskView::Fetch(base)])
            } else {
                part
            }
        },
    }
}

/// The tasks of the representations `reps`, in order.
pub open spec fn representations_tasks(
    nodes: Seq<NodeView>,
    reps: Seq<int>,
    set_base: UrlParts,
    inherited: Option<int>,
    total: Option<Duration>,
) -> Seq<TaskView>
    decreases reps.len(),
{
    if reps.len() == 0 {
        Seq::empty()
    } else {
        chain(
            representation_tasks(nodes, reps[0], set_base, inherited, total),
            representations_tasks(nodes, reps.skip(1), set_base, inherited, total),
        )
    }
}

/// The tasks of the adaptation set at node `set`.
pub open spec fn set_tasks(
    nodes: Seq<NodeView>,
    set: int,
    period_base: UrlParts,
    total: Option<Duration>,
) -> Seq<TaskView> {
    match narrowed(nodes, set, period_base) {
        Err(e) => seq![TaskView::Abort(e)],
        Ok(base) => representations_tasks(
            nodes,
            children_named(nodes, set, "Representation"@),
            base,
            first_child(nodes, set, "SegmentTemplate"@),
            total,
        ),
    }
}

/// The tasks of the adaptation sets `sets`, in order.
pub open spec fn sets_tasks(
    nodes: Seq<NodeView>,
    sets: Seq<int>,
    period_base: UrlParts,
    total: Option<Duration>,
) -> Seq<TaskView>
    decreases sets.len(),
{
    if sets.len() == 0 {
        Seq::empty()
    } else {
        chain(
            set_tasks(nodes, sets[0], period_base, total),
            sets_tasks(nodes, sets.skip(1), period_base, total),
        )
    }
}

/// The tasks of the period at node `period`.
pub open spec fn period_tasks(
    nodes: Seq<NodeView>,
    period: int,
    manifest: UrlParts,
    total: Option<Duration>,
) -> Seq<TaskView> {
    match narrowed(nodes, period, manifest) {
        Err(e) => seq![TaskView::Abort(e)],
        Ok(base) => sets_tasks(nodes, children_named(nodes, period, "AdaptationSet"@), base, total),
    }
}

/// The tasks of the periods `periods`, in order.
pub open spec fn periods_tasks(
    nodes: Seq<NodeView>,
    periods: Seq<int>,
    manifest: UrlParts,
    total: Option<Duration>,
) -> Seq<TaskView>
    decreases periods.len(),
{
    if periods.len() == 0 {
        Seq::empty()
    } else {
        chain(
            period_tasks(nodes, periods[0], manifest, total),
            periods_tasks(nodes, periods.skip(1), manifest, total),
        )
    }
}

/// The length of the whole presentation, where the root element states one
/// that can be read.
pub open spec fn presentation_duration(root: NodeView) -> Option<Duration> {
    match attribute_of(root, "mediaPresentationDuration"@) {
        Some(v) => parse_duration(v),
        None => None,
    }
}

/// The tasks of the manifest fetched from `manifest` whose nodes are
/// `nodes`: those of its periods, in order, up to the first that aborts.
/// `None` where the root element is not `MPD`: the document is no manifest.
pub open spec fn manifest_tasks(nodes: Seq<NodeView>, manifest: UrlParts) -> Option<Seq<TaskView>> {
    match root_element_of(nodes) {
        Some(root) => if nodes[root].name == "MPD"@ {
            Some(
                periods_tasks(
                    nodes,
                    children_named(nodes, root, "Period"@),
                    manifest,
                    presentation_duration(nodes[root]),
                ),
            )
        } else {
            None
        },
        None => None,
    }
}

proof fn lemma_chain_step(done: Seq<TaskView>, head: Seq<TaskView>, rest: Seq<TaskView>)
    requires
        !aborted(done),
    ensures
        chain(done, chain(head, rest)) == chain(done + head, rest),
        aborted(done + head) == aborted(head),
{
    if head.len() == 0 {
        assert(done + head =~= done);
        assert(head + rest =~= rest);
    } else {
        assert((done + head).last() == head.last());
        assert(done + (head + rest) =~= (done + head) + rest);
    }
}

fn narrow(nodes: &Vec<XmlNode>, node: usize, inherited: &ResourceUrl) -> (r: Result<
    ResourceUrl,
    MirrorError,
>)
    ensures
        crate::resource::result_view(r) == narrowed(
            node_views(nodes@),
            node as int,
            inherited@,
        ),
{
    match first_child_text(nodes, node, "BaseURL") {
        Some(b) => {
            let reference = trimmed(b.as_str());
            inherited.resolve(reference.as_str())
        },
        None => Ok(inherited.clone()),
    }
}

fn declares_file(nodes: &Vec<XmlNode>, node: usize) -> (b: bool)
    ensures
        b == names_file(first_child_text_of(node_views(nodes@), node as int, "BaseURL"@)),
{
    match first_child_text(nodes, node, "BaseURL") {
        Some(text) => {
            let v = chars_of(text.as_str());
            let hi = trim_end_index(v.as_slice());
            let ghost t = trim_end(v@);
            assert(t == v@.take(hi as int));
            if hi > 0 && v[hi - 1] == '/' {
                assert(t.subrange(t.len() - 1, t.len() as int) =~= seq!['/']);
                false
            } else {
                if hi > 0 {
                    assert(t.subrange(t.len() - 1, t.len() as int)[0] == v@[hi - 1]);
                }
                true
            }
        },
        None => false,
    }
}

fn append_tasks(out: &mut Vec<Task>, more: Vec<Task>)
    ensures
        task_views(final(out)@) == task_views(old(out)@) + task_views(more@),
{
    let mut more = more;
    let ghost added = task_views(more@);
    let ghost before = task_views(out@);
    out.append(&mut more);
    assert(task_views(out@) =~= before + added);
}

fn ends_in_abort(tasks: &Vec<Task>) -> (b: bool)
    ensures
        b == aborted(task_views(tasks@)),
{
    if tasks.len() == 0 {
        return false;
    }
    match &tasks[tasks.len() - 1] {
        Task::Abort(_) => true,
        _ => false,
    }
}

fn plan_representation(
    nodes: &Vec<XmlNode>,
    rep: usize,
    set_base: &ResourceUrl,
    inherited: Option<usize>,
    total: Option<Duration>,
) -> (tasks: Vec<Task>)
    requires
        rep < nodes.len(),
        inherited matches Some(s) ==> s < nodes.len(),
        option_wf(total),
    ensures
        task_views(tasks@) == representation_tasks(
            node_views(nodes@),
            rep as int,
            set_base@,
            crate::xml::option_index(inherited),
            total,
        ),
{
    let mut tasks: Vec<Task> = Vec::new();
    let base = match narrow(nodes, rep, set_base) {
        Ok(base) => base,
        Err(e) => {
            tasks.push(Task::Abort(e));
            assert(task_views(tasks@) =~= seq![TaskView::Abort(e@)]);
            return tasks;
        },
    };
    assert(task_views(tasks@) =~= Seq::<TaskView>::empty());
    match attribute(nodes, rep, "id") {
        Some(id) => {
            let st = match first_child_element(nodes, rep, "SegmentTemplate") {
                Some(s) => Some(s),
                None => inherited,
            };
            match st {
                Some(s) => {
                    tasks = handle_segment_template(nodes, s, &base, id.as_str(), total);
                },
                None => {},
            }
        },
        None => {},
    }
    let ghost part = task_views(tasks@);
    if declares_file(nodes, rep) && !ends_in_abort(&tasks) {
        tasks.push(Task::Fetch(base));
        assert(task_views(tasks@) =~= part + seq![TaskView::Fetch(base@)]);
    }
    tasks
}

fn plan_set(nodes: &Vec<XmlNode>, set: usize, period_base: &ResourceUrl, total: Option<Duration>) -> (tasks:
    Vec<Task>)
    requires
        set < nodes.len(),
        option_wf(total),
    ensures
        task_views(tasks@) == set_tasks(node_views(nodes@), set as int, period_base@, total),
{
    let mut tasks: Vec<Task> = Vec::new();
    let base = match narrow(nodes, set, period_base) {
        Ok(base) => base,
        Err(e) => {
            tasks.push(Task::Abort(e));
            assert(task_views(tasks@) =~= seq![TaskView::Abort(e@)]);
            return tasks;
        },
    };
    let inherited = first_child_element(nodes, set, "SegmentTemplate");
    let reps = child_elements(nodes, set, "Representation");
    let ghost views = node_views(nodes@);
    let ghost all = indices(reps@);
    let ghost st = crate::xml::option_index(inherited);
    let mut i: usize = 0;
    assert(all.skip(0) == all);
    assert(task_views(tasks@) =~= Seq::<TaskView>::empty());
    assert(Seq::<TaskView>::empty() + representations_tasks(views, all, base@, st, total)
        =~= representations_tasks(views, all, base@, st, total));
    while i < reps.len()
        invariant
            i <= reps.len(),
            views == node_views(nodes@),
            all == indices(reps@),
            st == crate::xml::option_index(inherited),
            set_tasks(views, set as int, period_base@, total) == representations_tasks(
                views,
                all,
                base@,
                st,
                total,
            ),
            inherited matches Some(s) ==> s < nodes.len(),
            forall|k: int| 0 <= k < reps@.len() ==> reps@[k] < nodes.len(),
            option_wf(total),
            !aborted(task_views(tasks@)),
            representations_tasks(views, all, base@, st, total) == chain(
                task_views(tasks@),
                representations_tasks(views, all.skip(i as int), base@, st, total),
            ),
        decreases reps.len() - i,
    {
        let ghost done = task_views(tasks@);
        let ghost rest = all.skip(i as int);
        assert(rest[0] == reps@[i as int]);
        assert(rest.skip(1) == all.skip(i + 1));
        let more = plan_representation(nodes, reps[i], &base, inherited, total);
        proof {
            lemma_chain_step(
                done,
                task_views(more@),
                representations_tasks(views, all.skip(i + 1), base@, st, total),
            );
        }
        append_tasks(&mut tasks, more);
        if ends_in_abort(&tasks) {
            return tasks;
        }
        i += 1;
    }
    assert(all.skip(reps.len() as int).len() == 0);
    assert(task_views(tasks@) + Seq::<TaskView>::empty() =~= task_views(tasks@));
    tasks
}

fn plan_period(nodes: &Vec<XmlNode>, period: usize, manifest: &ResourceUrl, total: Option<Duration>) -> (tasks:
    Vec<Task>)
    requires
        period < nodes.len(),
        option_wf(total),
    ensures
        task_views(tasks@) == period_tasks(node_views(nodes@), period as int, manifest@, total),
{
    let mut tasks: Vec<Task> = Vec::new();
    let base = match narrow(nodes, period, manifest) {
        Ok(base) => base,
        Err(e) => {
            tasks.push(Task::Abort(e));
            assert(task_views(tasks@) =~= seq![TaskView::Abort(e@)]);
            return tasks;
        },
    };
    let sets = child_elements(nodes, period, "AdaptationSet");
    let ghost views = node_views(nodes@);
    let ghost all = indices(sets@);
    let mut i: usize = 0;
    assert(all.skip(0) == all);
    assert(task_views(tasks@) =~= Seq::<TaskView>::empty());
    assert(Seq::<TaskView>::empty() + sets_tasks(views, all, base@, total) =~= sets_tasks(
        views,
        all,
        base@,
        total,
    ));
    while i < sets.len()
        invariant
            i <= sets.len(),
            views == node_views(nodes@),
            all == indices(sets@),
            period_tasks(views, period as int, manifest@, total) == sets_tasks(
                views,
                all,
                base@,
                total,
            ),
            forall|k: int| 0 <= k < sets@.len() ==> sets@[k] < nodes.len(),
            option_wf(total),
            !aborted(task_views(tasks@)),
            sets_tasks(views, all, base@, total) == chain(
                task_views(tasks@),
                sets_tasks(views, all.skip(i as int), base@, total),
            ),
        decreases sets.len() - i,
    {
        let ghost done = task_views(tasks@);
        let ghost rest = all.skip(i as int);
        assert(rest[0] == sets@[i as int]);
        assert(rest.skip(1) == all.skip(i + 1));
        let more = plan_set(nodes, sets[i], &base, total);
        proof {
            lemma_chain_step(
                done,
                task_views(more@),
                sets_tasks(views, all.skip(i + 1), base@, total),
            );
        }
        append_tasks(&mut tasks, more);
        if ends_in_abort(&tasks) {
            return tasks;
        }
        i += 1;
    }
    assert(all.skip(sets.len() as int).len() == 0);
    assert(task_views(tasks@) + Seq::<TaskView>::empty() =~= task_views(tasks@));
    tasks
}

pub open spec fn option_tasks(plan: Option<Vec<Task>>) -> Option<Seq<TaskView>> {
    match plan {
        Some(tasks) => Some(task_views(tasks@)),
        None => None,
    }
}

/// The tasks of the manifest fetched from `manifest` whose nodes are
/// `nodes`, or `None` where the document is no manifest.
pub fn plan_manifest(nodes: &Vec<XmlNode>, manifest: &ResourceUrl) -> (plan: Option<Vec<Task>>)
    ensures
        option_tasks(plan) == manifest_tasks(node_views(nodes@), manifest@),
{
    let root = match root_element(nodes) {
        Some(root) => root,
        None => {
            return None;
        },
    };
    let name = chars_of(nodes[root].name.as_str());
    let expected = chars_of("MPD");
    if !crate::text::same_text(name.as_slice(), expected.as_slice()) {
        return None;
    }
    let total = match attribute(nodes, root, "mediaPresentationDuration") {
        Some(v) => parse_iso8601_duration_seconds(v.as_str()),
        None => None,
    };
    let mut tasks: Vec<Task> = Vec::new();
    let periods = child_elements(nodes, root, "Period");
    let ghost views = node_views(nodes@);
    let ghost all = indices(periods@);
    let mut i: usize = 0;
    assert(all.skip(0) == all);
    assert(task_views(tasks@) =~= Seq::<TaskView>::empty());
    assert(Seq::<TaskView>::empty() + periods_tasks(views, all, manifest@, total)
        =~= periods_tasks(views, all, manifest@, total));
    while i < periods.len()
        invariant
            i <= periods.len(),
            views == node_views(nodes@),
            all == indices(periods@),
            manifest_tasks(views, manifest@) == Some(
                periods_tasks(views, all, manifest@, total),
            ),
            forall|k: int| 0 <= k < periods@.len() ==> periods@[k] < nodes.len(),
            option_wf(total),
            !aborted(task_views(tasks@)),
            periods_tasks(views, all, manifest@, total) == chain(
                task_views(tasks@),
                periods_tasks(views, all.skip(i as int), manifest@, total),
            ),
        decreases periods.len() - i,
    {
        let ghost done = task_views(tasks@);
        let ghost rest = all.skip(i as int);
        assert(rest[0] == periods@[i as int]);
        assert(rest.skip(1) == all.skip(i + 1));
        let more = plan_period(nodes, periods[i], manifest, total);
        proof {
            lemma_chain_step(
                done,
                task_views(more@),
                periods_tasks(views, all.skip(i + 1), manifest@, total),
            );
        }
        append_tasks(&mut tasks, more);
        if ends_in_abort(&tasks) {
            return Some(tasks);
        }
        i += 1;
    }
    assert(all.skip(periods.len() as int).len() == 0);
    assert(task_views(tasks@) + Seq::<TaskView>::empty() =~= task_views(tasks@));
    Some(tasks)
}

} // verus!
