//! A model of the folders and files the transfer's actions work on: what each
//! action does to them when it succeeds, and what a run of a state machine
//! does when every action it asks for succeeds.
use vstd::prelude::*;
use crate::entries::ListedEntryView;
use crate::paths::DataPathView;
use crate::transfer::{ActionView, EventView};

verus! {

/// What a path holds.
pub enum NodeView {
    Folder,
    File(Seq<u8>),
}

/// The paths on a disk and what each holds.
pub type DiskView = Map<DataPathView, NodeView>;

/// The path `root` with the relative components `rel` below it.
pub open spec fn under(root: DataPathView, rel: Seq<Seq<char>>) -> DataPathView {
    DataPathView { root: root.root, sep: root.sep, parts: root.parts + rel }
}

/// The folder holding `p`.
pub open spec fn parent_of(p: DataPathView) -> DataPathView {
    DataPathView { root: p.root, sep: p.sep, parts: p.parts.drop_last() }
}

/// Every path that a path on the disk lies below is a folder on the disk.
pub open spec fn disk_wf(d: DiskView) -> bool {
    forall|p: DataPathView, q: DataPathView|
        #![trigger d.contains_key(p), p.is_within(q)]
        d.contains_key(p) && p.is_within(q) && q.parts.len() < p.parts.len() ==> d.contains_key(q)
            && d[q] is Folder
}

/// The name of a listed entry (empty for an entry that could not be read).
pub open spec fn entry_name(e: ListedEntryView) -> Seq<char> {
    match e {
        ListedEntryView::Read { name, .. } => name,
        ListedEntryView::Unreadable(_) => Seq::empty(),
    }
}

/// `es` is a full listing of the folder `p` on `d`: each entry was read and
/// names a child of `p` with its kind, no child is listed twice, and every
/// child is listed.
pub open spec fn lists_folder(d: DiskView, p: DataPathView, es: Seq<ListedEntryView>) -> bool {
    &&& forall|j: int|
        0 <= j < es.len() ==> (#[trigger] es[j] matches ListedEntryView::Read { name, is_dir: Ok(b), is_file }
            && d.contains_key(p.join(name)) && b == (d[p.join(name)] is Folder) && is_file == (
        d[p.join(name)] is File))
    &&& forall|j1: int, j2: int|
        0 <= j1 < j2 < es.len() ==> entry_name(#[trigger] es[j1]) != entry_name(#[trigger] es[j2])
    &&& forall|name: Seq<char>|
        #[trigger] d.contains_key(p.join(name)) ==> exists|j: int|
            0 <= j < es.len() && entry_name(#[trigger] es[j]) == name
}

/// `d` with a folder at `p` and at every path above it that was missing.
pub open spec fn with_folders_to(d: DiskView, p: DataPathView) -> DiskView {
    Map::new(
        |q: DataPathView| d.contains_key(q) || p.is_within(q),
        |q: DataPathView|
            if d.contains_key(q) {
                d[q]
            } else {
                NodeView::Folder
            },
    )
}

/// `d` without `p` and everything below it.
pub open spec fn without_tree(d: DiskView, p: DataPathView) -> DiskView {
    Map::new(|q: DataPathView| d.contains_key(q) && !q.is_within(p), |q: DataPathView| d[q])
}

/// The path below `from` that `q`, a path below `to`, came from.
pub open spec fn moved_source(q: DataPathView, from: DataPathView, to: DataPathView) -> DataPathView {
    under(from, q.parts.subrange(to.parts.len() as int, q.parts.len() as int))
}

/// `d` with `from` and everything below it moved to `to`.
pub open spec fn with_tree_moved(d: DiskView, from: DataPathView, to: DataPathView) -> DiskView {
    Map::new(
        |q: DataPathView|
            if q.is_within(to) {
                d.contains_key(moved_source(q, from, to))
            } else {
                d.contains_key(q) && !q.is_within(from)
            },
        |q: DataPathView|
            if q.is_within(to) {
                d[moved_source(q, from, to)]
            } else {
                d[q]
            },
    )
}

/// The folder that holds `p` is a folder on `d`.
pub open spec fn parent_is_folder(d: DiskView, p: DataPathView) -> bool {
    &&& p.parts.len() > 0
    &&& d.contains_key(parent_of(p))
    &&& d[parent_of(p)] is Folder
}

/// Performing the single operation `a` on `d` succeeds, reports `e` and leaves
/// `d2`. A probe reports whether the path is there; a save is only found in a
/// folder; a listing is a full listing of a folder, no longer than a vector
/// can be; creating a folder finds no file on its way; a file is copied or
/// written into an existing folder over no folder; removing takes away the
/// path and all below it; a move goes to a free path in an existing folder,
/// neither path below the other (the machines only move to a path they have
/// just found free or cleared). The two actions that run a machine of their
/// own are not single operations.
pub open spec fn disk_performs(d: DiskView, a: ActionView, e: EventView, d2: DiskView) -> bool {
    match a {
        ActionView::Probe(p) => e == EventView::Answer(d.contains_key(p)) && d2 == d,
        ActionView::InspectSave(p) => d2 == d && match e {
            EventView::Answer(found) => found ==> d.contains_key(p) && d[p] is Folder,
            _ => false,
        },
        ActionView::ListDir(p) => d2 == d && d.contains_key(p) && d[p] is Folder && match e {
            EventView::Listed(Ok(es)) => es.len() <= usize::MAX && lists_folder(d, p, es),
            _ => false,
        },
        ActionView::CreateDirAll(p) => e == EventView::Finished(Ok(())) && (forall|q: DataPathView|
            #[trigger] p.is_within(q) && d.contains_key(q) ==> d[q] is Folder) && d2 == with_folders_to(d, p),
        ActionView::CopyFile { from, to } => e == EventView::Finished(Ok(())) && d.contains_key(from)
            && d[from] is File && parent_is_folder(d, to) && !(d.contains_key(to) && d[to] is Folder) && d2
            == d.insert(to, d[from]),
        ActionView::WriteFile { path, contents } => e == EventView::Finished(Ok(())) && parent_is_folder(
            d,
            path,
        ) && !(d.contains_key(path) && d[path] is Folder) && exists|data: Seq<u8>|
            d2 == d.insert(path, NodeView::File(data)),
        ActionView::RemoveFile(p) => e == EventView::Finished(Ok(())) && d.contains_key(p) && d[p] is File
            && d2 == without_tree(d, p),
        ActionView::RemoveDirAll(p) => e == EventView::Finished(Ok(())) && d.contains_key(p) && d[p] is Folder
            && d2 == without_tree(d, p),
        ActionView::Rename { from, to } => e == EventView::Finished(Ok(())) && d.contains_key(from)
            && !d.contains_key(to) && parent_is_folder(d, to) && !from.is_within(to) && !to.is_within(from)
            && d2 == with_tree_moved(d, from, to),
        _ => false,
    }
}

/// Performing a single operation, as a function.
pub open spec fn single_ops() -> spec_fn(DiskView, ActionView, EventView, DiskView) -> bool {
    |d: DiskView, a: ActionView, e: EventView, d2: DiskView| disk_performs(d, a, e, d2)
}

/// `tr` is a run of a machine from state `s`, whose last output was `n`, on
/// the disk `d`: each entry is the report of the action then asked for and the
/// disk it left, as `performs` allows.
pub open spec fn run_ok<S, N>(
    performs: spec_fn(DiskView, ActionView, EventView, DiskView) -> bool,
    step: spec_fn(S, EventView) -> (S, N),
    asks: spec_fn(N) -> Option<ActionView>,
    s: S,
    n: N,
    d: DiskView,
    tr: Seq<(EventView, DiskView)>,
) -> bool
    decreases tr.len(),
{
    if tr.len() == 0 {
        true
    } else {
        match asks(n) {
            Some(a) => performs(d, a, tr[0].0, tr[0].1) && run_ok(
                performs,
                step,
                asks,
                step(s, tr[0].0).0,
                step(s, tr[0].0).1,
                tr[0].1,
                tr.drop_first(),
            ),
            None => false,
        }
    }
}

/// The state, last output and disk at the end of the run `tr`.
pub open spec fn run_end<S, N>(
    step: spec_fn(S, EventView) -> (S, N),
    s: S,
    n: N,
    d: DiskView,
    tr: Seq<(EventView, DiskView)>,
) -> (S, N, DiskView)
    decreases tr.len(),
{
    if tr.len() == 0 {
        (s, n, d)
    } else {
        run_end(step, step(s, tr[0].0).0, step(s, tr[0].0).1, tr[0].1, tr.drop_first())
    }
}

/// A property of a machine's state, last output and disk that every performed
/// step keeps holds at the end of every run.
pub proof fn lemma_run_keeps<S, N>(
    performs: spec_fn(DiskView, ActionView, EventView, DiskView) -> bool,
    step: spec_fn(S, EventView) -> (S, N),
    asks: spec_fn(N) -> Option<ActionView>,
    inv: spec_fn(S, N, DiskView) -> bool,
    s: S,
    n: N,
    d: DiskView,
    tr: Seq<(EventView, DiskView)>,
)
    requires
        run_ok(performs, step, asks, s, n, d, tr),
        inv(s, n, d),
        forall|s1: S, n1: N, d1: DiskView, a: ActionView, e: EventView, d2: DiskView|
            #![trigger inv(s1, n1, d1), performs(d1, a, e, d2)]
            inv(s1, n1, d1) && asks(n1) == Some(a) && performs(d1, a, e, d2) ==> inv(
                step(s1, e).0,
                step(s1, e).1,
                d2,
            ),
    ensures
        inv(run_end(step, s, n, d, tr).0, run_end(step, s, n, d, tr).1, run_end(step, s, n, d, tr).2),
    decreases tr.len(),
{
    if tr.len() > 0 {
        let a = asks(n)->Some_0;
        assert(performs(d, a, tr[0].0, tr[0].1));
        lemma_run_keeps(
            performs,
            step,
            asks,
            inv,
            step(s, tr[0].0).0,
            step(s, tr[0].0).1,
            tr[0].1,
            tr.drop_first(),
        );
    }
}

} // verus!
