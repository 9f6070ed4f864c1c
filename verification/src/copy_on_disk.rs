//! What a run of the copy does to a disk when every action succeeds: the
//! destination ends up holding the source, entry for entry, without the
//! entries a copy leaves out.
use vstd::prelude::*;
use crate::copy_tree::{
    CopyNextView, CopyPhase, CopyTreeView, FrameView, copy_advance, copy_start, copy_step, kept_entries,
    pop_exhausted, pushed_listing, relative, lemma_pop_exhausted_prefix,
};
use crate::disk::{
    DiskView, disk_performs, single_ops, entry_name, lists_folder, run_end, run_ok, under,
    with_folders_to, lemma_run_keeps,
};
use crate::entries::{ListedEntryView, skipped};
use crate::paths::DataPathView;
use crate::transfer::{ActionView, EventView};

verus! {

/// The copy's step, as a function.
pub open spec fn copy_machine() -> spec_fn(CopyTreeView, EventView) -> (CopyTreeView, CopyNextView) {
    |s: CopyTreeView, e: EventView| copy_step(s, e)
}

/// The action a copy's output asks for.
pub open spec fn copy_asks() -> spec_fn(CopyNextView) -> Option<ActionView> {
    |n: CopyNextView|
        match n {
            CopyNextView::Perform(a) => Some(a),
            CopyNextView::Done(_) => None,
        }
}

/// No component of `r` is one a copy leaves out.
pub open spec fn clean_rel(r: Seq<Seq<char>>) -> bool {
    forall|k: int| 0 <= k < r.len() ==> !skipped(#[trigger] r[k])
}

/// The copy of the folder `src` on `d0` holds the relative path `r`: it is on
/// the disk and none of its components is left out.
pub open spec fn copied_has(d0: DiskView, src: DataPathView, r: Seq<Seq<char>>) -> bool {
    clean_rel(r) && d0.contains_key(under(src, r))
}

/// Every path below `src` on `d0` has folders above it, up to `src`.
pub open spec fn tree_wf(d0: DiskView, src: DataPathView) -> bool {
    forall|r: Seq<Seq<char>>, m: int|
        #![trigger d0.contains_key(under(src, r)), r.take(m)]
        d0.contains_key(under(src, r)) && 0 <= m < r.len() ==> d0.contains_key(under(src, r.take(m)))
            && d0[under(src, r.take(m))] is Folder
}

/// `es` lists, without the entries a copy leaves out, the folder `p` on `d0`:
/// each entry was read and names a kept child of `p` with its kind, no child
/// twice, and every kept child is listed.
pub open spec fn kept_listing(d0: DiskView, p: DataPathView, es: Seq<ListedEntryView>) -> bool {
    &&& forall|j: int|
        0 <= j < es.len() ==> (#[trigger] es[j] matches ListedEntryView::Read { name, is_dir: Ok(b), .. }
            && !skipped(name) && d0.contains_key(p.join(name)) && b == (d0[p.join(name)] is Folder))
    &&& forall|j1: int, j2: int|
        0 <= j1 < j2 < es.len() ==> entry_name(#[trigger] es[j1]) != entry_name(#[trigger] es[j2])
    &&& forall|name: Seq<char>|
        #[trigger] d0.contains_key(p.join(name)) && !skipped(name) ==> exists|j: int|
            0 <= j < es.len() && entry_name(#[trigger] es[j]) == name
}

/// The setting a copy runs in: `src` is a folder on `d0` with folders above
/// every path below it, and the source and the destination do not overlap.
pub open spec fn copy_setting(d0: DiskView, src: DataPathView, dst: DataPathView) -> bool {
    &&& tree_wf(d0, src)
    &&& d0.contains_key(src)
    &&& d0[src] is Folder
    &&& !src.is_within(dst)
    &&& !dst.is_within(src)
}

/// `d` holds at every path below `src` what `d0` holds there.
pub open spec fn same_below(d: DiskView, d0: DiskView, src: DataPathView) -> bool {
    forall|p: DataPathView|
        #[trigger] p.is_within(src) ==> d.contains_key(p) == d0.contains_key(p) && (d.contains_key(p) ==> d[p]
            == d0[p])
}

/// The copy's destination on `d` holds, at each relative path `r`, what the
/// source holds on `d0` where `visited(r)` and the copy keeps `r`, and nothing
/// else; the source is as on `d0`.
pub open spec fn dest_holds(
    d: DiskView,
    d0: DiskView,
    src: DataPathView,
    dst: DataPathView,
    visited: spec_fn(Seq<Seq<char>>) -> bool,
) -> bool {
    &&& forall|r: Seq<Seq<char>>|
        #[trigger] d.contains_key(under(dst, r)) == (visited(r) && copied_has(d0, src, r))
    &&& forall|r: Seq<Seq<char>>|
        #[trigger] d.contains_key(under(dst, r)) ==> d[under(dst, r)] == d0[under(src, r)]
    &&& same_below(d, d0, src)
}

/// The relative paths a copy between steps has finished, or is inside of: the
/// folders above the current item, the current folder once created, and all
/// below every entry already passed in a folder being copied.
pub open spec fn copy_visited(s: CopyTreeView, r: Seq<Seq<char>>) -> bool {
    let c = relative(s.cur_from, s.root_from);
    let k = s.frames.len();
    if s.phase == CopyPhase::Done {
        true
    } else {
        ||| r.len() < k && r == c.take(r.len() as int)
        ||| s.phase == CopyPhase::List && r == c
        ||| exists|i: int, j: int|
            0 <= i < k && 0 <= j < s.frames[i].pos - 1 && i < r.len() && r.take(i) == c.take(i) && r[i]
                == entry_name(#[trigger] s.frames[i].entries[j])
    }
}

/// The relative paths finished while the copy moves on from the folders `fs`:
/// the folders being copied, and all below every entry already passed (all of
/// the innermost folder's passed entries are done). With no folder left,
/// everything is done.
pub open spec fn frames_visited(fs: Seq<FrameView>, src: DataPathView, r: Seq<Seq<char>>) -> bool {
    let k = fs.len();
    let st = relative(fs.last().from, src);
    if k == 0 {
        true
    } else {
        ||| r.len() < k && r == st.take(r.len() as int)
        ||| exists|i: int, j: int|
            0 <= i < k && 0 <= j < fs[i].pos - (if i == k - 1 {
                0int
            } else {
                1int
            }) && i < r.len() && r.take(i) == st.take(i) && r[i] == entry_name(#[trigger] fs[i].entries[j])
    }
}

/// The folders being copied sit one inside the other along `st`, each entered
/// through the entry before its parent's position, and each holds the kept
/// listing of its folder on `d0`.
pub open spec fn frames_chain(
    fs: Seq<FrameView>,
    d0: DiskView,
    src: DataPathView,
    dst: DataPathView,
    st: Seq<Seq<char>>,
) -> bool {
    &&& st.len() == fs.len() - 1
    &&& forall|i: int|
        0 <= i < fs.len() ==> {
            &&& (#[trigger] fs[i]).from == under(src, st.take(i))
            &&& fs[i].to == under(dst, st.take(i))
            &&& kept_listing(d0, fs[i].from, fs[i].entries)
            &&& 0 <= fs[i].pos <= fs[i].entries.len()
        }
    &&& forall|i: int|
        0 <= i < fs.len() - 1 ==> 1 <= (#[trigger] fs[i]).pos && entry_name(fs[i].entries[fs[i].pos - 1])
            == st[i]
    &&& copied_has(d0, src, st)
    &&& d0[under(src, st)] is Folder
}

/// The shape of a copy between steps: the current item `c` lies below the
/// folders being copied, entered through the entry before each one's position,
/// and is a kept folder (while it is created or listed) or a kept file (while
/// it is copied) of the source.
pub open spec fn copy_chain(s: CopyTreeView, d0: DiskView) -> bool {
    let c = relative(s.cur_from, s.root_from);
    let fs = s.frames;
    &&& c.len() == fs.len()
    &&& s.cur_from == under(s.root_from, c)
    &&& s.cur_to == under(s.root_to, c)
    &&& forall|i: int|
        0 <= i < fs.len() ==> {
            &&& (#[trigger] fs[i]).from == under(s.root_from, c.take(i))
            &&& fs[i].to == under(s.root_to, c.take(i))
            &&& kept_listing(d0, fs[i].from, fs[i].entries)
            &&& 1 <= fs[i].pos <= fs[i].entries.len()
            &&& entry_name(fs[i].entries[fs[i].pos - 1]) == c[i]
        }
    &&& copied_has(d0, s.root_from, c)
    &&& (s.phase == CopyPhase::CreateDir || s.phase == CopyPhase::List) ==> d0[under(s.root_from, c)] is Folder
    &&& (s.phase == CopyPhase::CreateParent || s.phase == CopyPhase::CopyFile) ==> d0[under(
        s.root_from,
        c,
    )] is File
}

/// The action a copy in `s` has asked for.
pub open spec fn copy_asked(s: CopyTreeView) -> ActionView {
    match s.phase {
        CopyPhase::CreateDir => ActionView::CreateDirAll(s.cur_to),
        CopyPhase::List => ActionView::ListDir(s.cur_from),
        CopyPhase::CreateParent => ActionView::CreateDirAll(s.frames.last().to),
        _ => ActionView::CopyFile { from: s.cur_from, to: s.cur_to },
    }
}

/// A copy of `src` on `d0` into `dst` whose actions all succeeded: between
/// steps it asks for the action its phase calls for, and the destination holds
/// what it has visited; once done it has succeeded.
pub open spec fn copy_on_disk(
    d0: DiskView,
    src: DataPathView,
    dst: DataPathView,
    s: CopyTreeView,
    n: CopyNextView,
    d: DiskView,
) -> bool {
    &&& s.root_from == src
    &&& s.root_to == dst
    &&& dest_holds(d, d0, src, dst, |r: Seq<Seq<char>>| copy_visited(s, r))
    &&& s.phase != CopyPhase::Done ==> copy_chain(s, d0) && n == CopyNextView::Perform(copy_asked(s))
    &&& s.phase == CopyPhase::Done ==> n == CopyNextView::Done(Ok(()))
}

// ---------------------------------------------------------------------------
// Paths
// ---------------------------------------------------------------------------

proof fn lemma_under_join(root: DataPathView, r: Seq<Seq<char>>, name: Seq<char>)
    ensures
        under(root, r).join(name) == under(root, r.push(name)),
{
    assert(under(root, r).join(name).parts =~= under(root, r.push(name)).parts);
}

proof fn lemma_relative_under(root: DataPathView, r: Seq<Seq<char>>)
    ensures
        relative(under(root, r), root) == r,
{
    assert(relative(under(root, r), root) =~= r);
}

proof fn lemma_under_within(root: DataPathView, r1: Seq<Seq<char>>, r2: Seq<Seq<char>>)
    ensures
        under(root, r2).is_within(under(root, r1)) <==> (r1.len() <= r2.len() && r2.take(r1.len() as int)
            == r1),
{
    let a = under(root, r1);
    let b = under(root, r2);
    let n = root.parts.len();
    if r1.len() <= r2.len() {
        if r2.take(r1.len() as int) == r1 {
            assert(b.parts.subrange(0, a.parts.len() as int) =~= a.parts);
        }
        if b.parts.subrange(0, a.parts.len() as int) == a.parts {
            assert forall|i: int| 0 <= i < r1.len() implies r2.take(r1.len() as int)[i] == r1[i] by {
                assert(b.parts.subrange(0, a.parts.len() as int)[n + i] == a.parts[n + i]);
            }
            assert(r2.take(r1.len() as int) =~= r1);
        }
    }
}

/// A path below the destination never lies below the source.
proof fn lemma_dest_apart(src: DataPathView, dst: DataPathView, r: Seq<Seq<char>>)
    requires
        !src.is_within(dst),
        !dst.is_within(src),
    ensures
        !under(dst, r).is_within(src),
{
    let q = under(dst, r);
    if q.is_within(src) {
        if src.parts.len() <= dst.parts.len() {
            assert forall|i: int| 0 <= i < src.parts.len() implies dst.parts.subrange(0, src.parts.len() as int)[i]
                == src.parts[i] by {
                assert(q.parts.subrange(0, src.parts.len() as int)[i] == src.parts[i]);
            }
            assert(dst.parts.subrange(0, src.parts.len() as int) =~= src.parts);
        } else {
            assert forall|i: int| 0 <= i < dst.parts.len() implies src.parts.subrange(0, dst.parts.len() as int)[i]
                == dst.parts[i] by {
                assert(q.parts.subrange(0, src.parts.len() as int)[i] == src.parts[i]);
            }
            assert(src.parts.subrange(0, dst.parts.len() as int) =~= dst.parts);
        }
    }
}

proof fn lemma_within_trans(a: DataPathView, b: DataPathView, c: DataPathView)
    requires
        a.is_within(b),
        b.is_within(c),
    ensures
        a.is_within(c),
{
    assert forall|i: int| 0 <= i < c.parts.len() implies a.parts.subrange(0, c.parts.len() as int)[i]
        == c.parts[i] by {
        assert(a.parts.subrange(0, b.parts.len() as int)[i] == b.parts[i]);
        assert(b.parts.subrange(0, c.parts.len() as int)[i] == c.parts[i]);
    }
    assert(a.parts.subrange(0, c.parts.len() as int) =~= c.parts);
}

/// A path that a path below the destination lies within is either below the
/// destination or not below the source.
proof fn lemma_above_dest_apart(src: DataPathView, dst: DataPathView, r: Seq<Seq<char>>, q: DataPathView)
    requires
        !src.is_within(dst),
        !dst.is_within(src),
        under(dst, r).is_within(q),
    ensures
        !q.is_within(src),
{
    if q.is_within(src) {
        lemma_within_trans(under(dst, r), q, src);
        lemma_dest_apart(src, dst, r);
    }
}

// ---------------------------------------------------------------------------
// Listings
// ---------------------------------------------------------------------------

proof fn lemma_kept_members(es: Seq<ListedEntryView>)
    ensures
        forall|j: int|
            0 <= j < kept_entries(es).len() ==> exists|j2: int|
                0 <= j2 < es.len() && #[trigger] kept_entries(es)[j] == es[j2],
        forall|j2: int|
            0 <= j2 < es.len() ==> ((#[trigger] es[j2] matches ListedEntryView::Read { name, .. } && !skipped(
                name,
            )) ==> exists|j: int| 0 <= j < kept_entries(es).len() && kept_entries(es)[j] == es[j2]),
        forall|j: int|
            0 <= j < kept_entries(es).len() ==> (#[trigger] kept_entries(es)[j] matches ListedEntryView::Read {
                name,
                ..
            } ==> !skipped(name)),
    decreases es.len(),
{
    if es.len() > 0 {
        let pre = es.drop_last();
        lemma_kept_members(pre);
        let k0 = kept_entries(pre);
        let k1 = kept_entries(es);
        assert forall|j: int| 0 <= j < k1.len() implies exists|j2: int|
            0 <= j2 < es.len() && #[trigger] k1[j] == es[j2] by {
            if j < k0.len() {
                assert(k1[j] == k0[j]);
                let j2 = choose|j2: int| 0 <= j2 < pre.len() && k0[j] == pre[j2];
                assert(es[j2] == pre[j2]);
            } else {
                assert(k1[j] == es[es.len() - 1]);
            }
        }
        assert forall|j2: int|
            0 <= j2 < es.len() && (#[trigger] es[j2] matches ListedEntryView::Read { name, .. } && !skipped(
                name,
            )) implies exists|j: int| 0 <= j < k1.len() && k1[j] == es[j2] by {
            if j2 < pre.len() {
                assert(pre[j2] == es[j2]);
                let j = choose|j: int| 0 <= j < k0.len() && k0[j] == pre[j2];
                assert(k1[j] == k0[j]);
            } else {
                assert(k1[k1.len() - 1] == es[j2]);
            }
        }
        assert forall|j: int| 0 <= j < k1.len() implies (#[trigger] k1[j] matches ListedEntryView::Read {
            name,
            ..
        } ==> !skipped(name)) by {
            if j < k0.len() {
                assert(k1[j] == k0[j]);
            }
        }
    }
}

proof fn lemma_kept_distinct(es: Seq<ListedEntryView>)
    requires
        forall|j1: int, j2: int|
            0 <= j1 < j2 < es.len() ==> entry_name(#[trigger] es[j1]) != entry_name(#[trigger] es[j2]),
    ensures
        forall|j1: int, j2: int|
            0 <= j1 < j2 < kept_entries(es).len() ==> entry_name(#[trigger] kept_entries(es)[j1]) != entry_name(
                #[trigger] kept_entries(es)[j2],
            ),
    decreases es.len(),
{
    if es.len() > 0 {
        let pre = es.drop_last();
        assert forall|j1: int, j2: int| 0 <= j1 < j2 < pre.len() implies entry_name(#[trigger] pre[j1])
            != entry_name(#[trigger] pre[j2]) by {
            assert(pre[j1] == es[j1] && pre[j2] == es[j2]);
        }
        lemma_kept_distinct(pre);
        lemma_kept_members(pre);
        let k0 = kept_entries(pre);
        let k1 = kept_entries(es);
        assert forall|j1: int, j2: int| 0 <= j1 < j2 < k1.len() implies entry_name(#[trigger] k1[j1])
            != entry_name(#[trigger] k1[j2]) by {
            if j2 < k0.len() {
                assert(k1[j1] == k0[j1] && k1[j2] == k0[j2]);
            } else {
                assert(k1[j1] == k0[j1]);
                assert(k1[j2] == es[es.len() - 1]);
                let i1 = choose|i1: int| 0 <= i1 < pre.len() && k0[j1] == pre[i1];
                assert(pre[i1] == es[i1]);
            }
        }
    }
}

/// The kept part of a full listing of a folder below the source is a kept
/// listing of that folder on the starting disk.
proof fn lemma_kept_listing(d: DiskView, d0: DiskView, src: DataPathView, p: DataPathView, es: Seq<ListedEntryView>)
    requires
        lists_folder(d, p, es),
        same_below(d, d0, src),
        p.is_within(src),
    ensures
        kept_listing(d0, p, kept_entries(es)),
{
    lemma_kept_members(es);
    lemma_kept_distinct(es);
    let ks = kept_entries(es);
    assert forall|name: Seq<char>| #[trigger] d0.contains_key(p.join(name)) && !skipped(name) implies exists|
        j: int,
    | 0 <= j < ks.len() && entry_name(#[trigger] ks[j]) == name by {
        assert(p.join(name).is_within(p)) by {
            assert(p.join(name).parts.subrange(0, p.parts.len() as int) =~= p.parts);
        }
        lemma_within_trans(p.join(name), p, src);
        assert(d.contains_key(p.join(name)));
        let j2 = choose|j2: int| 0 <= j2 < es.len() && entry_name(#[trigger] es[j2]) == name;
        assert(es[j2] matches ListedEntryView::Read { .. });
        let j = choose|j: int| 0 <= j < ks.len() && ks[j] == es[j2];
        assert(entry_name(ks[j]) == name);
    }
    assert forall|j: int| 0 <= j < ks.len() implies (#[trigger] ks[j] matches ListedEntryView::Read {
        name,
        is_dir: Ok(b),
        ..
    } && !skipped(name) && d0.contains_key(p.join(name)) && b == (d0[p.join(name)] is Folder)) by {
        let j2 = choose|j2: int| 0 <= j2 < es.len() && ks[j] == es[j2];
        assert(es[j2] == ks[j]);
        match es[j2] {
            ListedEntryView::Read { name, .. } => {
                assert(p.join(name).is_within(p)) by {
                    assert(p.join(name).parts.subrange(0, p.parts.len() as int) =~= p.parts);
                }
                lemma_within_trans(p.join(name), p, src);
            },
            _ => {},
        }
    }
}

// ---------------------------------------------------------------------------
// Moving on
// ---------------------------------------------------------------------------

/// Two ways of telling visited paths apart that agree on the paths the copy
/// keeps describe the same destination.
proof fn lemma_dest_holds_transfer(
    d: DiskView,
    d0: DiskView,
    src: DataPathView,
    dst: DataPathView,
    v1: spec_fn(Seq<Seq<char>>) -> bool,
    v2: spec_fn(Seq<Seq<char>>) -> bool,
)
    requires
        dest_holds(d, d0, src, dst, v1),
        forall|r: Seq<Seq<char>>| #[trigger] copied_has(d0, src, r) ==> (v1(r) <==> v2(r)),
    ensures
        dest_holds(d, d0, src, dst, v2),
{
    assert forall|r: Seq<Seq<char>>| #[trigger] d.contains_key(under(dst, r)) == (v2(r) && copied_has(d0, src, r)) by {
        assert(d.contains_key(under(dst, r)) == (v1(r) && copied_has(d0, src, r)));
    }
}

/// A kept child of the folder at `st` that some kept path below it passes
/// through is listed in that folder's frame.
proof fn lemma_child_listed(
    f: FrameView,
    d0: DiskView,
    src: DataPathView,
    st: Seq<Seq<char>>,
    r: Seq<Seq<char>>,
) -> (j: int)
    requires
        tree_wf(d0, src),
        f.from == under(src, st),
        kept_listing(d0, f.from, f.entries),
        copied_has(d0, src, r),
        st.len() < r.len(),
        r.take(st.len() as int) == st,
    ensures
        0 <= j < f.entries.len(),
        entry_name(f.entries[j]) == r[st.len() as int],
{
    let m = st.len() as int;
    let x = r[m];
    let r1 = r.take(m + 1);
    assert(r1 =~= st.push(x));
    if m + 1 < r.len() {
        assert(d0.contains_key(under(src, r.take(m + 1))));
    } else {
        assert(r1 =~= r);
    }
    lemma_under_join(src, st, x);
    assert(d0.contains_key(f.from.join(x)));
    assert(!skipped(r[m]));
    choose|j: int| 0 <= j < f.entries.len() && entry_name(#[trigger] f.entries[j]) == x
}

/// Closing an innermost folder whose entries are all done keeps the same
/// paths done, and the folders left keep their shape.
proof fn lemma_pop_one(fs: Seq<FrameView>, d0: DiskView, src: DataPathView, dst: DataPathView)
    requires
        fs.len() > 0,
        tree_wf(d0, src),
        frames_chain(fs, d0, src, dst, relative(fs.last().from, src)),
        fs.last().pos >= fs.last().entries.len(),
    ensures
        forall|r: Seq<Seq<char>>|
            #[trigger] copied_has(d0, src, r) ==> (frames_visited(fs, src, r) <==> frames_visited(
                fs.drop_last(),
                src,
                r,
            )),
        fs.len() > 1 ==> frames_chain(
            fs.drop_last(),
            d0,
            src,
            dst,
            relative(fs.drop_last().last().from, src),
        ),
{
    let k = fs.len() as int;
    let st = relative(fs.last().from, src);
    let top = fs[k - 1];
    assert(st.take(k - 1) =~= st);
    let fs1 = fs.drop_last();
    if k == 1 {
        assert forall|r: Seq<Seq<char>>| #[trigger] copied_has(d0, src, r) implies frames_visited(fs, src, r) by {
            if r.len() == 0 {
                assert(r =~= st.take(0));
            } else {
                assert(r.take(0) =~= st);
                let j = lemma_child_listed(top, d0, src, st, r);
                assert(r.take(0) == st.take(0));
                assert(r[0] == entry_name(fs[0].entries[j]));
            }
        }
    } else {
        let st1 = relative(fs1.last().from, src);
        assert(fs1.last() == fs[k - 2]);
        lemma_relative_under(src, st.take(k - 2));
        assert(st1 == st.take(k - 2));
        let p = fs[k - 2].pos;
        assert(1 <= p && entry_name(fs[k - 2].entries[p - 1]) == st[k - 2]);
        assert forall|r: Seq<Seq<char>>| #[trigger] copied_has(d0, src, r) implies (frames_visited(fs, src, r)
            <==> frames_visited(fs1, src, r)) by {
            if frames_visited(fs, src, r) {
                if r.len() < k && r == st.take(r.len() as int) {
                    if r.len() < k - 1 {
                        assert(st1.take(r.len() as int) =~= st.take(r.len() as int));
                    } else {
                        assert(r.take(k - 2) =~= st1.take(k - 2));
                        assert(r[k - 2] == entry_name(fs1[k - 2].entries[p - 1]));
                    }
                } else {
                    let (i, j) = choose|i: int, j: int|
                        0 <= i < k && 0 <= j < fs[i].pos - (if i == k - 1 {
                            0int
                        } else {
                            1int
                        }) && i < r.len() && r.take(i) == st.take(i) && r[i] == entry_name(
                            #[trigger] fs[i].entries[j],
                        );
                    if i < k - 1 {
                        assert(fs1[i] == fs[i]);
                        assert(st1.take(i) =~= st.take(i));
                        assert(r[i] == entry_name(fs1[i].entries[j]));
                    } else {
                        assert(r.take(k - 2) =~= st1.take(k - 2)) by {
                            assert(r.take(k - 2) =~= r.take(k - 1).take(k - 2));
                        }
                        assert(r[k - 2] == r.take(k - 1)[k - 2]);
                        assert(r[k - 2] == entry_name(fs1[k - 2].entries[p - 1]));
                    }
                }
            }
            if frames_visited(fs1, src, r) {
                if r.len() < k - 1 && r == st1.take(r.len() as int) {
                    assert(st1.take(r.len() as int) =~= st.take(r.len() as int));
                } else {
                    let (i, j) = choose|i: int, j: int|
                        0 <= i < k - 1 && 0 <= j < fs1[i].pos - (if i == k - 2 {
                            0int
                        } else {
                            1int
                        }) && i < r.len() && r.take(i) == st1.take(i) && r[i] == entry_name(
                            #[trigger] fs1[i].entries[j],
                        );
                    assert(fs1[i] == fs[i]);
                    assert(st1.take(i) =~= st.take(i));
                    if i < k - 2 || j < p - 1 {
                        assert(r[i] == entry_name(fs[i].entries[j]));
                    } else {
                        assert(r.take(k - 1) =~= st) by {
                            assert forall|t: int| 0 <= t < k - 1 implies r.take(k - 1)[t] == st[t] by {
                                if t < k - 2 {
                                    assert(r.take(k - 2)[t] == st.take(k - 2)[t]);
                                }
                            }
                        }
                        if r.len() == k - 1 {
                            assert(r =~= st.take(k - 1));
                        } else {
                            let j2 = lemma_child_listed(top, d0, src, st, r);
                            assert(r.take(k - 1) == st.take(k - 1));
                            assert(r[k - 1] == entry_name(fs[k - 1].entries[j2]));
                        }
                    }
                }
            }
        }
        assert forall|i: int| 0 <= i < fs1.len() implies st1.take(i) == st.take(i) by {
            assert(st1.take(i) =~= st.take(i));
        }
        assert forall|i: int| 0 <= i < fs1.len() - 1 implies st1[i] == st[i] by {}
        assert(st1 =~= st.take(k - 2));
        assert(clean_rel(st1));
        assert(st.take(k - 2) == st1);
        assert(d0.contains_key(under(src, st.take(k - 2))));
        assert forall|i: int| 0 <= i < fs1.len() implies {
            &&& (#[trigger] fs1[i]).from == under(src, st1.take(i))
            &&& fs1[i].to == under(dst, st1.take(i))
            &&& kept_listing(d0, fs1[i].from, fs1[i].entries)
            &&& 0 <= fs1[i].pos <= fs1[i].entries.len()
        } by {
            assert(fs1[i] == fs[i]);
        }
        assert forall|i: int| 0 <= i < fs1.len() - 1 implies 1 <= (#[trigger] fs1[i]).pos && entry_name(
            fs1[i].entries[fs1[i].pos - 1],
        ) == st1[i] by {
            assert(fs1[i] == fs[i]);
        }
    }
}

proof fn lemma_pop_all(fs: Seq<FrameView>, d0: DiskView, src: DataPathView, dst: DataPathView)
    requires
        fs.len() > 0,
        tree_wf(d0, src),
        frames_chain(fs, d0, src, dst, relative(fs.last().from, src)),
    ensures
        forall|r: Seq<Seq<char>>|
            #[trigger] copied_has(d0, src, r) ==> (frames_visited(fs, src, r) <==> frames_visited(
                pop_exhausted(fs),
                src,
                r,
            )),
        pop_exhausted(fs).len() > 0 ==> frames_chain(
            pop_exhausted(fs),
            d0,
            src,
            dst,
            relative(pop_exhausted(fs).last().from, src),
        ),
    decreases fs.len(),
{
    if fs.last().pos >= fs.last().entries.len() {
        lemma_pop_one(fs, d0, src, dst);
        assert(pop_exhausted(fs) == pop_exhausted(fs.drop_last()));
        if fs.len() > 1 {
            lemma_pop_all(fs.drop_last(), d0, src, dst);
        }
    }
}

/// Moving on from a settled copy, whose destination holds what its folders
/// have finished, leaves the copy between steps with its destination holding
/// what it has visited, or done when nothing is left.
proof fn lemma_advance_on_disk(t: CopyTreeView, d0: DiskView, d: DiskView)
    requires
        tree_wf(d0, t.root_from),
        t.frames.len() > 0,
        frames_chain(t.frames, d0, t.root_from, t.root_to, relative(t.frames.last().from, t.root_from)),
        dest_holds(d, d0, t.root_from, t.root_to, |r: Seq<Seq<char>>| frames_visited(t.frames, t.root_from, r)),
    ensures
        copy_on_disk(d0, t.root_from, t.root_to, copy_advance(t).0, copy_advance(t).1, d),
{
    let src = t.root_from;
    let dst = t.root_to;
    let fs = pop_exhausted(t.frames);
    lemma_pop_all(t.frames, d0, src, dst);
    lemma_pop_exhausted_prefix(t.frames);
    let s2 = copy_advance(t).0;
    if fs.len() == 0 {
        lemma_dest_holds_transfer(
            d,
            d0,
            src,
            dst,
            |r: Seq<Seq<char>>| frames_visited(t.frames, src, r),
            |r: Seq<Seq<char>>| copy_visited(s2, r),
        );
    } else {
        let k = fs.len() as int;
        let top = fs.last();
        let st = relative(top.from, src);
        assert(st.take(k - 1) =~= st);
        let pos = top.pos;
        let fs2 = s2.frames;
        assert(fs2 == fs.update(k - 1, FrameView { pos: pos + 1, ..top }));
        match top.entries[pos] {
            ListedEntryView::Read { name, is_dir: Ok(b), .. } => {
                let c = st.push(name);
                lemma_under_join(src, st, name);
                lemma_under_join(dst, st, name);
                lemma_relative_under(src, c);
                assert(s2.cur_from == under(src, c));
                assert(relative(s2.cur_from, src) == c);
                assert(forall|m: int| 0 <= m < k ==> #[trigger] c.take(m) == st.take(m)) by {
                    assert forall|m: int| 0 <= m < k implies #[trigger] c.take(m) == st.take(m) by {
                        assert(c.take(m) =~= st.take(m));
                    }
                }
                assert(c.take(k - 1) == st);
                assert(clean_rel(c)) by {
                    assert forall|q: int| 0 <= q < c.len() implies !skipped(#[trigger] c[q]) by {
                        if q < k - 1 {
                            assert(c[q] == st[q]);
                        }
                    }
                }
                assert forall|i: int| 0 <= i < fs2.len() implies {
                    &&& (#[trigger] fs2[i]).from == under(src, c.take(i))
                    &&& fs2[i].to == under(dst, c.take(i))
                    &&& kept_listing(d0, fs2[i].from, fs2[i].entries)
                    &&& 1 <= fs2[i].pos <= fs2[i].entries.len()
                    &&& entry_name(fs2[i].entries[fs2[i].pos - 1]) == c[i]
                } by {
                    assert(c.take(i) == st.take(i));
                    if i < k - 1 {
                        assert(fs2[i] == fs[i]);
                        assert(c[i] == st[i]);
                    }
                }
                assert forall|r: Seq<Seq<char>>| #[trigger] copied_has(d0, src, r) implies (frames_visited(
                    t.frames,
                    src,
                    r,
                ) <==> copy_visited(s2, r)) by {
                    assert(frames_visited(t.frames, src, r) == frames_visited(fs, src, r));
                    if r.len() < k {
                        assert(c.take(r.len() as int) == st.take(r.len() as int));
                    }
                    if frames_visited(fs, src, r) && !(r.len() < k && r == st.take(r.len() as int)) {
                        let (i, j) = choose|i: int, j: int|
                            0 <= i < k && 0 <= j < fs[i].pos - (if i == k - 1 {
                                0int
                            } else {
                                1int
                            }) && i < r.len() && r.take(i) == st.take(i) && r[i] == entry_name(
                                #[trigger] fs[i].entries[j],
                            );
                        assert(fs2[i].entries == fs[i].entries);
                        assert(r[i] == entry_name(fs2[i].entries[j]));
                    }
                    if copy_visited(s2, r) && !(r.len() < k && r == c.take(r.len() as int)) {
                        let (i, j) = choose|i: int, j: int|
                            0 <= i < k && 0 <= j < s2.frames[i].pos - 1 && i < r.len() && r.take(i) == c.take(i)
                                && r[i] == entry_name(#[trigger] s2.frames[i].entries[j]);
                        assert(fs2[i].entries == fs[i].entries);
                        assert(r[i] == entry_name(fs[i].entries[j]));
                    }
                }
                lemma_dest_holds_transfer(
                    d,
                    d0,
                    src,
                    dst,
                    |r: Seq<Seq<char>>| frames_visited(t.frames, src, r),
                    |r: Seq<Seq<char>>| copy_visited(s2, r),
                );
            },
            _ => {},
        }
    }
}

proof fn lemma_under_inj(root: DataPathView, r1: Seq<Seq<char>>, r2: Seq<Seq<char>>)
    ensures
        under(root, r1) == under(root, r2) <==> r1 == r2,
{
    if under(root, r1) == under(root, r2) {
        let n = root.parts.len() as int;
        assert(r1 =~= under(root, r1).parts.subrange(n, under(root, r1).parts.len() as int));
        assert(r2 =~= under(root, r2).parts.subrange(n, under(root, r2).parts.len() as int));
    }
}

proof fn lemma_within_root(root: DataPathView, r: Seq<Seq<char>>)
    ensures
        under(root, r).is_within(root),
{
    assert(under(root, r).parts.subrange(0, root.parts.len() as int) =~= root.parts);
}

/// Creating the folders down to `under(dst, c)`, when the folders above it
/// below `dst` are there already, adds `c` alone below `dst` and changes
/// nothing below `src`.
proof fn lemma_create_folders(
    d: DiskView,
    d0: DiskView,
    src: DataPathView,
    dst: DataPathView,
    c: Seq<Seq<char>>,
    r: Seq<Seq<char>>,
)
    requires
        !src.is_within(dst),
        !dst.is_within(src),
    ensures
        with_folders_to(d, under(dst, c)).contains_key(under(dst, r)) == (d.contains_key(under(dst, r)) || (
        r.len() <= c.len() && c.take(r.len() as int) == r)),
        d.contains_key(under(dst, r)) ==> with_folders_to(d, under(dst, c))[under(dst, r)] == d[under(dst, r)],
        same_below(d, d0, src) ==> same_below(with_folders_to(d, under(dst, c)), d0, src),
{
    lemma_under_within(dst, r, c);
    if same_below(d, d0, src) {
        let d2 = with_folders_to(d, under(dst, c));
        assert forall|p: DataPathView| #[trigger] p.is_within(src) implies d2.contains_key(p) == d0.contains_key(p)
            && (d2.contains_key(p) ==> d2[p] == d0[p]) by {
            if under(dst, c).is_within(p) {
                lemma_above_dest_apart(src, dst, c, p);
            }
        }
    }
}

/// Each step of a copy whose action succeeded keeps its destination holding
/// what it has visited.
proof fn lemma_copy_step_on_disk(
    d0: DiskView,
    src: DataPathView,
    dst: DataPathView,
    s: CopyTreeView,
    n: CopyNextView,
    d: DiskView,
    a: ActionView,
    e: EventView,
    d2: DiskView,
)
    requires
        copy_setting(d0, src, dst),
        copy_on_disk(d0, src, dst, s, n, d),
        n == CopyNextView::Perform(a),
        disk_performs(d, a, e, d2),
    ensures
        copy_on_disk(d0, src, dst, copy_step(s, e).0, copy_step(s, e).1, d2),
{
    let c = relative(s.cur_from, src);
    let k = s.frames.len() as int;
    let fs = s.frames;
    assert(s.phase != CopyPhase::Done);
    assert(c.take(k) =~= c);
    match s.phase {
        CopyPhase::CreateDir => {
            let s2 = copy_step(s, e).0;
            let vis2 = |r: Seq<Seq<char>>| copy_visited(s2, r);
            assert forall|r: Seq<Seq<char>>| #[trigger] d2.contains_key(under(dst, r)) == (vis2(r) && copied_has(
                d0,
                src,
                r,
            )) by {
                lemma_create_folders(d, d0, src, dst, c, r);
                if r.len() < c.len() && c.take(r.len() as int) == r {
                    assert(d0.contains_key(under(src, c.take(r.len() as int))));
                    assert(clean_rel(r)) by {
                        assert forall|q: int| 0 <= q < r.len() implies !skipped(#[trigger] r[q]) by {
                            assert(r[q] == c[q]);
                        }
                    }
                }
                if r.len() == c.len() && c.take(r.len() as int) == r {
                    assert(r == c);
                }
            }
            assert forall|r: Seq<Seq<char>>| #[trigger] d2.contains_key(under(dst, r)) implies d2[under(dst, r)]
                == d0[under(src, r)] by {
                lemma_create_folders(d, d0, src, dst, c, r);
                if !d.contains_key(under(dst, r)) {
                    if r.len() < c.len() && c.take(r.len() as int) == r {
                        assert(copy_visited(s, r));
                        assert(d0.contains_key(under(src, c.take(r.len() as int))));
                        assert(clean_rel(r)) by {
                            assert forall|q: int| 0 <= q < r.len() implies !skipped(#[trigger] r[q]) by {
                                assert(r[q] == c[q]);
                            }
                        }
                    }
                    assert(r == c);
                }
            }
            lemma_create_folders(d, d0, src, dst, c, c);
        },
        CopyPhase::List => {
            let es = match e {
                EventView::Listed(Ok(es)) => es,
                _ => Seq::empty(),
            };
            lemma_within_root(src, c);
            lemma_kept_listing(d, d0, src, s.cur_from, es);
            let t = pushed_listing(s, es);
            lemma_relative_under(src, c);
            assert(t.frames.last().from == s.cur_from);
            assert forall|i: int| 0 <= i < t.frames.len() implies {
                &&& (#[trigger] t.frames[i]).from == under(src, c.take(i))
                &&& t.frames[i].to == under(dst, c.take(i))
                &&& kept_listing(d0, t.frames[i].from, t.frames[i].entries)
                &&& 0 <= t.frames[i].pos <= t.frames[i].entries.len()
            } by {
                if i < k {
                    assert(t.frames[i] == fs[i]);
                }
            }
            assert forall|i: int| 0 <= i < t.frames.len() - 1 implies 1 <= (#[trigger] t.frames[i]).pos
                && entry_name(t.frames[i].entries[t.frames[i].pos - 1]) == c[i] by {
                assert(t.frames[i] == fs[i]);
            }
            assert forall|r: Seq<Seq<char>>| #[trigger] copied_has(d0, src, r) implies (copy_visited(s, r)
                <==> frames_visited(t.frames, src, r)) by {
                if copy_visited(s, r) && !(r.len() < k && r == c.take(r.len() as int)) && r != c {
                    let (i, j) = choose|i: int, j: int|
                        0 <= i < k && 0 <= j < fs[i].pos - 1 && i < r.len() && r.take(i) == c.take(i) && r[i]
                            == entry_name(#[trigger] fs[i].entries[j]);
                    assert(t.frames[i] == fs[i]);
                    assert(r[i] == entry_name(t.frames[i].entries[j]));
                }
                if frames_visited(t.frames, src, r) && !(r.len() < k + 1 && r == c.take(r.len() as int)) {
                    let (i, j) = choose|i: int, j: int|
                        0 <= i < k + 1 && 0 <= j < t.frames[i].pos - (if i == k {
                            0int
                        } else {
                            1int
                        }) && i < r.len() && r.take(i) == c.take(i) && r[i] == entry_name(
                            #[trigger] t.frames[i].entries[j],
                        );
                    assert(t.frames[i] == fs[i]);
                    assert(r[i] == entry_name(fs[i].entries[j]));
                }
            }
            lemma_dest_holds_transfer(
                d,
                d0,
                src,
                dst,
                |r: Seq<Seq<char>>| copy_visited(s, r),
                |r: Seq<Seq<char>>| frames_visited(t.frames, src, r),
            );
            lemma_advance_on_disk(t, d0, d);
        },
        CopyPhase::CreateParent => {
            if k == 0 {
                assert(c =~= Seq::<Seq<char>>::empty());
                assert(under(src, c) == src) by {
                    assert(under(src, c).parts =~= src.parts);
                }
            }
            let ct = c.take(k - 1);
            assert(fs.last().to == under(dst, ct));
            let s2 = copy_step(s, e).0;
            assert forall|r: Seq<Seq<char>>| #[trigger] d2.contains_key(under(dst, r)) == d.contains_key(under(dst, r))
                && (d.contains_key(under(dst, r)) ==> d2[under(dst, r)] == d[under(dst, r)]) by {
                lemma_create_folders(d, d0, src, dst, ct, r);
                if r.len() <= ct.len() && ct.take(r.len() as int) == r {
                    assert(c.take(r.len() as int) =~= ct.take(r.len() as int));
                    assert(copy_visited(s, r));
                    if r.len() < c.len() {
                        assert(d0.contains_key(under(src, c.take(r.len() as int))));
                    }
                    assert(clean_rel(r)) by {
                        assert forall|q: int| 0 <= q < r.len() implies !skipped(#[trigger] r[q]) by {
                            assert(r[q] == c[q]);
                        }
                    }
                }
            }
            assert(e == EventView::Finished(Ok(())));
            assert(s2 == CopyTreeView { phase: CopyPhase::CopyFile, ..s });
            assert forall|r: Seq<Seq<char>>| copy_visited(s2, r) == copy_visited(s, r) by {}
            lemma_create_folders(d, d0, src, dst, ct, ct);
        },
        _ => {
            if k == 0 {
                assert(c =~= Seq::<Seq<char>>::empty());
                assert(under(src, c) == src) by {
                    assert(under(src, c).parts =~= src.parts);
                }
            }
            lemma_within_root(src, c);
            lemma_dest_apart(src, dst, c);
            let st = c.take(k - 1);
            let top = fs.last();
            lemma_relative_under(src, st);
            assert(relative(top.from, src) == st);
            assert(forall|i: int| 0 <= i < k ==> #[trigger] st.take(i) == c.take(i)) by {
                assert forall|i: int| 0 <= i < k implies #[trigger] st.take(i) == c.take(i) by {
                    assert(st.take(i) =~= c.take(i));
                }
            }
            assert(d0.contains_key(under(src, c.take(k - 1))));
            assert(clean_rel(st)) by {
                assert forall|q: int| 0 <= q < st.len() implies !skipped(#[trigger] st[q]) by {
                    assert(st[q] == c[q]);
                }
            }
            assert forall|i: int| 0 <= i < fs.len() - 1 implies 1 <= (#[trigger] fs[i]).pos && entry_name(
                fs[i].entries[fs[i].pos - 1],
            ) == st[i] by {}
            assert(frames_chain(fs, d0, src, dst, st));
            let vis = |r: Seq<Seq<char>>| frames_visited(fs, src, r);
            assert forall|r: Seq<Seq<char>>| #[trigger] d2.contains_key(under(dst, r)) == (vis(r) && copied_has(
                d0,
                src,
                r,
            )) && (d2.contains_key(under(dst, r)) ==> d2[under(dst, r)] == d0[under(src, r)]) by {
                lemma_under_inj(dst, r, c);
                if r.len() < k {
                    assert(st.take(r.len() as int) == c.take(r.len() as int));
                }
                if r == c {
                    assert(r.take(k - 1) == st.take(k - 1));
                    assert(r[k - 1] == entry_name(fs[k - 1].entries[top.pos - 1]));
                } else {
                    if copy_visited(s, r) && !(r.len() < k && r == c.take(r.len() as int)) {
                        let (i, j) = choose|i: int, j: int|
                            0 <= i < k && 0 <= j < fs[i].pos - 1 && i < r.len() && r.take(i) == c.take(i) && r[i]
                                == entry_name(#[trigger] fs[i].entries[j]);
                        assert(r[i] == entry_name(fs[i].entries[j]));
                    }
                    if vis(r) && copied_has(d0, src, r) && !(r.len() < k && r == st.take(r.len() as int)) {
                        let (i, j) = choose|i: int, j: int|
                            0 <= i < k && 0 <= j < fs[i].pos - (if i == k - 1 {
                                0int
                            } else {
                                1int
                            }) && i < r.len() && r.take(i) == st.take(i) && r[i] == entry_name(
                                #[trigger] fs[i].entries[j],
                            );
                        if i == k - 1 && j == fs[i].pos - 1 {
                            assert(r.take(k) =~= c) by {
                                assert forall|q: int| 0 <= q < k implies r.take(k)[q] == c[q] by {
                                    if q < k - 1 {
                                        assert(r.take(k - 1)[q] == st[q]);
                                    }
                                }
                            }
                            if r.len() == k {
                                assert(r =~= c);
                            } else {
                                assert(d0[under(src, r.take(k))] is Folder);
                            }
                        }
                        assert(copy_visited(s, r));
                    }
                }
            }
            lemma_advance_on_disk(s, d0, d2);
        },
    }
}

/// The copy of a folder, run on a disk where its destination is free and
/// every action succeeds, ends with the destination holding, at each relative
/// path, what the source holds there, except below the entries it leaves out,
/// and nothing else; the source is left as it was.
pub proof fn law_copy_reproduces_source(
    d0: DiskView,
    src: DataPathView,
    dst: DataPathView,
    tr: Seq<(EventView, DiskView)>,
)
    requires
        copy_setting(d0, src, dst),
        forall|r: Seq<Seq<char>>| !d0.contains_key(#[trigger] under(dst, r)),
        run_ok(single_ops(), copy_machine(), copy_asks(), copy_start(src, dst).0, copy_start(src, dst).1, d0, tr),
        run_end(copy_machine(), copy_start(src, dst).0, copy_start(src, dst).1, d0, tr).1 is Done,
    ensures
        ({
            let d = run_end(copy_machine(), copy_start(src, dst).0, copy_start(src, dst).1, d0, tr).2;
            &&& run_end(copy_machine(), copy_start(src, dst).0, copy_start(src, dst).1, d0, tr).1
                == CopyNextView::Done(Ok(()))
            &&& forall|r: Seq<Seq<char>>| #[trigger] d.contains_key(under(dst, r)) == copied_has(d0, src, r)
            &&& forall|r: Seq<Seq<char>>| #[trigger] d.contains_key(under(dst, r)) ==> d[under(dst, r)]
                == d0[under(src, r)]
            &&& same_below(d, d0, src)
        }),
{
    let (s0, n0) = copy_start(src, dst);
    assert(relative(src, src) =~= Seq::<Seq<char>>::empty());
    assert(under(src, Seq::<Seq<char>>::empty()) == src) by {
        assert(under(src, Seq::<Seq<char>>::empty()).parts =~= src.parts);
    }
    assert(under(dst, Seq::<Seq<char>>::empty()) == dst) by {
        assert(under(dst, Seq::<Seq<char>>::empty()).parts =~= dst.parts);
    }
    assert(clean_rel(Seq::<Seq<char>>::empty()));
    assert(copy_on_disk(d0, src, dst, s0, n0, d0));
    let inv = |s: CopyTreeView, n: CopyNextView, d: DiskView| copy_on_disk(d0, src, dst, s, n, d);
    assert forall|s1: CopyTreeView, n1: CopyNextView, d1: DiskView, a: ActionView, e: EventView, d2: DiskView|
        #![trigger inv(s1, n1, d1), single_ops()(d1, a, e, d2)]
        inv(s1, n1, d1) && copy_asks()(n1) == Some(a) && single_ops()(d1, a, e, d2) implies inv(
            copy_machine()(s1, e).0,
            copy_machine()(s1, e).1,
            d2,
        ) by {
        lemma_copy_step_on_disk(d0, src, dst, s1, n1, d1, a, e, d2);
    }
    lemma_run_keeps(single_ops(), copy_machine(), copy_asks(), inv, s0, n0, d0, tr);
}

} // verus!
