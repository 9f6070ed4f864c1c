//! What staging and then applying an import do to a disk when every action
//! succeeds: the Kuantframe folder ends up holding the Quantframe folder,
//! without the embedded browser's data, with the database files renamed.
use vstd::prelude::*;
use crate::copy_on_disk::{
    copy_asks, copy_machine, copied_has, law_copy_reproduces_source, same_below, tree_wf, copy_setting,
};
use crate::copy_tree::{CopyNextView, copy_start};
use crate::db_rename::{DbRenameNextView, db_rename_start};
use crate::disk::{
    DiskView, NodeView, disk_performs, disk_wf, run_end, run_ok, single_ops, under, lemma_run_keeps,
    moved_source,
};
use crate::paths::{DataPathView, PENDING_IMPORT_DIR, KUANTFRAME_APP_PATH, PENDING_IMPORT_FLAG, QUANTFRAME_APP_PATH, backup_name};
use crate::rename_on_disk::{
    db_asks, db_machine, is_kuantframe_db_name, law_db_rename_on_disk, quantframe_name_of, renamed_has,
    renamed_node, db_file_at,
};
use crate::entries::is_quantframe_db_name;
use crate::transfer::{
    ActionView, ApplyImportView, ApplyNextView, ApplyPhaseView, EventView, SaveErrorView, StageImportView,
    StageNextView, StagePhase, apply_start, apply_step, dest_of, flag_of, law_backup_is_apart,
    lemma_names_differ, source_of, stage_start, stage_step, staging_of,
};

verus! {

/// A run of the copy from `from` into `to` on `d` ends with `r` and leaves `d2`.
pub open spec fn copy_run_ends(
    d: DiskView,
    from: DataPathView,
    to: DataPathView,
    r: Result<(), SaveErrorView>,
    d2: DiskView,
) -> bool {
    exists|tr: Seq<(EventView, DiskView)>|
        #[trigger] run_ok(single_ops(), copy_machine(), copy_asks(), copy_start(from, to).0, copy_start(from, to).1, d, tr)
            && run_end(copy_machine(), copy_start(from, to).0, copy_start(from, to).1, d, tr).1
            == CopyNextView::Done(r) && run_end(copy_machine(), copy_start(from, to).0, copy_start(from, to).1, d, tr).2
            == d2
}

/// A run of the database renaming in `dir` on `d` ends with `r` and leaves `d2`.
pub open spec fn db_run_ends(d: DiskView, dir: DataPathView, r: Result<(), SaveErrorView>, d2: DiskView) -> bool {
    exists|tr: Seq<(EventView, DiskView)>|
        #[trigger] run_ok(single_ops(), db_machine(), db_asks(), db_rename_start(dir).0, db_rename_start(dir).1, d, tr)
            && run_end(db_machine(), db_rename_start(dir).0, db_rename_start(dir).1, d, tr).1
            == DbRenameNextView::Done(r) && run_end(db_machine(), db_rename_start(dir).0, db_rename_start(dir).1, d, tr).2
            == d2
}

/// Performing an action of staging: a single operation succeeds, or the copy
/// or the renaming runs with every one of its own actions succeeding.
pub open spec fn stage_performs(d: DiskView, a: ActionView, e: EventView, d2: DiskView) -> bool {
    match a {
        ActionView::CopyTree { from, to } => match e {
            EventView::SubtaskFinished(r) => copy_run_ends(d, from, to, r, d2),
            _ => false,
        },
        ActionView::RenameDbFiles(dir) => match e {
            EventView::SubtaskFinished(r) => db_run_ends(d, dir, r, d2),
            _ => false,
        },
        _ => disk_performs(d, a, e, d2),
    }
}

/// Performing an action of staging, as a function.
pub open spec fn stage_ops() -> spec_fn(DiskView, ActionView, EventView, DiskView) -> bool {
    |d: DiskView, a: ActionView, e: EventView, d2: DiskView| stage_performs(d, a, e, d2)
}

/// Staging's step, as a function.
pub open spec fn stage_machine() -> spec_fn(StageImportView, EventView) -> (StageImportView, StageNextView) {
    |s: StageImportView, e: EventView| stage_step(s, e)
}

/// The action a staging output asks for.
pub open spec fn stage_asks() -> spec_fn(StageNextView) -> Option<ActionView> {
    |n: StageNextView|
        match n {
            StageNextView::Perform(a) => Some(a),
            StageNextView::Done(_) => None,
        }
}

/// `name` in the folder `src` on `d0` is a Quantframe database file the copy
/// keeps.
pub open spec fn source_db_file(d0: DiskView, src: DataPathView, name: Seq<char>) -> bool {
    &&& is_quantframe_db_name(name)
    &&& copied_has(d0, src, seq![name])
    &&& d0[under(src, seq![name])] is File
}

/// What an import of the folder `src` on `d0` holds at the relative path `r`:
/// the copy of `src` without the entries a copy leaves out, where each
/// Quantframe database file of the top folder holds its Kuantframe name (in
/// place of what held it) and no longer its own.
pub open spec fn imported_has(d0: DiskView, src: DataPathView, r: Seq<Seq<char>>) -> bool {
    if r.len() >= 1 && is_kuantframe_db_name(r[0]) && source_db_file(d0, src, quantframe_name_of(r[0])) {
        r.len() == 1
    } else if r.len() >= 1 && source_db_file(d0, src, r[0]) {
        false
    } else {
        copied_has(d0, src, r)
    }
}

/// What an import of the folder `src` on `d0` holds at `r`, where it holds it.
pub open spec fn imported_node(d0: DiskView, src: DataPathView, r: Seq<Seq<char>>) -> NodeView {
    if r.len() >= 1 && is_kuantframe_db_name(r[0]) && source_db_file(d0, src, quantframe_name_of(r[0])) {
        d0[under(src, seq![quantframe_name_of(r[0])])]
    } else {
        d0[under(src, r)]
    }
}

/// The folder `dir` on `d` holds the import of `src` on `d0`.
pub open spec fn holds_import(d: DiskView, dir: DataPathView, d0: DiskView, src: DataPathView) -> bool {
    &&& forall|r: Seq<Seq<char>>| #[trigger] d.contains_key(under(dir, r)) == imported_has(d0, src, r)
    &&& forall|r: Seq<Seq<char>>|
        #[trigger] d.contains_key(under(dir, r)) ==> d[under(dir, r)] == imported_node(d0, src, r)
}

/// The folder `dir` on `d` holds the copy of `src` on `d0`.
pub open spec fn holds_copy(d: DiskView, dir: DataPathView, d0: DiskView, src: DataPathView) -> bool {
    &&& forall|r: Seq<Seq<char>>| #[trigger] d.contains_key(under(dir, r)) == copied_has(d0, src, r)
    &&& forall|r: Seq<Seq<char>>|
        #[trigger] d.contains_key(under(dir, r)) ==> d[under(dir, r)] == d0[under(src, r)]
}

/// Staging of `local` on the disk `d0` whose actions all succeeded: each
/// phase asks for its action; the disk is `d0` until the staging folder is
/// cleared, the source stays as on `d0`, the staging folder holds the copy once
/// copied and the import once renamed, and staging that succeeds has also set
/// the flag.
pub open spec fn stage_on_disk(
    d0: DiskView,
    local: DataPathView,
    s: StageImportView,
    n: StageNextView,
    d: DiskView,
) -> bool {
    let src = source_of(local);
    let stg = staging_of(local);
    &&& s.local == local
    &&& match s.phase {
        StagePhase::SourceExists => d == d0 && n == StageNextView::Perform(ActionView::Probe(src)),
        StagePhase::SaveCheck => d == d0 && n == StageNextView::Perform(ActionView::InspectSave(src)),
        StagePhase::StagingExists => d == d0 && d0.contains_key(src) && d0[src] is Folder && n
            == StageNextView::Perform(ActionView::Probe(stg)),
        StagePhase::ClearStaging => d == d0 && d0.contains_key(src) && d0[src] is Folder && n
            == StageNextView::Perform(ActionView::RemoveDirAll(stg)),
        StagePhase::Copy => d0.contains_key(src) && d0[src] is Folder && same_below(d, d0, src) && (forall|
            r: Seq<Seq<char>>,
        | !d.contains_key(#[trigger] under(stg, r))) && n == StageNextView::Perform(
            ActionView::CopyTree { from: src, to: stg },
        ),
        StagePhase::RenameDb => d0.contains_key(src) && holds_copy(d, stg, d0, src) && n == StageNextView::Perform(
            ActionView::RenameDbFiles(stg),
        ),
        StagePhase::WriteFlag => d0.contains_key(src) && holds_import(d, stg, d0, src) && n == StageNextView::Perform(
            ActionView::WriteFile { path: flag_of(local), contents: crate::paths::PENDING_FLAG_CONTENTS@ },
        ),
        StagePhase::Done => n is Done && (n matches StageNextView::Done(Ok(p)) ==> d0.contains_key(src)
            && holds_import(d, stg, d0, src) && d.contains_key(flag_of(local))),
    }
}

// ---------------------------------------------------------------------------
// Paths of the local data folder
// ---------------------------------------------------------------------------

/// No path lies below two different entries of the same folder.
proof fn lemma_entries_apart(local: DataPathView, x: Seq<char>, y: Seq<char>, p: DataPathView)
    requires
        x != y,
    ensures
        !(p.is_within(local.join(x)) && p.is_within(local.join(y))),
{
    if p.is_within(local.join(x)) && p.is_within(local.join(y)) {
        let n = local.parts.len() as int;
        assert(p.parts.subrange(0, n + 1)[n] == local.join(x).parts[n]);
        assert(p.parts.subrange(0, n + 1)[n] == local.join(y).parts[n]);
    }
}

proof fn lemma_within_self(p: DataPathView)
    ensures
        p.is_within(p),
{
    assert(p.parts.subrange(0, p.parts.len() as int) =~= p.parts);
}

proof fn lemma_under_within_root(root: DataPathView, r: Seq<Seq<char>>)
    ensures
        under(root, r).is_within(root),
        r.len() == 0 ==> under(root, r) == root,
{
    assert(under(root, r).parts.subrange(0, root.parts.len() as int) =~= root.parts);
    if r.len() == 0 {
        assert(under(root, r).parts =~= root.parts);
    }
}

/// Two different entries of a folder do not lie one within the other.
proof fn lemma_entries_disjoint(local: DataPathView, x: Seq<char>, y: Seq<char>)
    requires
        x != y,
    ensures
        !local.join(x).is_within(local.join(y)),
        !local.join(y).is_within(local.join(x)),
{
    lemma_within_self(local.join(x));
    lemma_within_self(local.join(y));
    lemma_entries_apart(local, x, y, local.join(x));
    lemma_entries_apart(local, x, y, local.join(y));
}

/// A disk whose paths have folders above them has them below any folder.
proof fn lemma_tree_wf(d: DiskView, root: DataPathView)
    requires
        disk_wf(d),
    ensures
        tree_wf(d, root),
{
    assert forall|r: Seq<Seq<char>>, m: int|
        #![trigger d.contains_key(under(root, r)), r.take(m)]
        d.contains_key(under(root, r)) && 0 <= m < r.len() implies d.contains_key(under(root, r.take(m)))
            && d[under(root, r.take(m))] is Folder by {
        let p = under(root, r);
        let q = under(root, r.take(m));
        assert(p.parts.subrange(0, q.parts.len() as int) =~= q.parts);
        assert(p.is_within(q));
    }
}

/// Nothing lies below a path missing from a disk whose paths have folders
/// above them.
proof fn lemma_nothing_below_missing(d: DiskView, p: DataPathView)
    requires
        disk_wf(d),
        !d.contains_key(p),
    ensures
        forall|r: Seq<Seq<char>>| !d.contains_key(#[trigger] under(p, r)),
{
    assert forall|r: Seq<Seq<char>>| !d.contains_key(#[trigger] under(p, r)) by {
        lemma_under_within_root(p, r);
    }
}

/// The copy of a folder has folders above every path in it.
proof fn lemma_copy_tree_wf(d: DiskView, dir: DataPathView, d0: DiskView, src: DataPathView)
    requires
        holds_copy(d, dir, d0, src),
        tree_wf(d0, src),
    ensures
        tree_wf(d, dir),
{
    assert forall|r: Seq<Seq<char>>, m: int|
        #![trigger d.contains_key(under(dir, r)), r.take(m)]
        d.contains_key(under(dir, r)) && 0 <= m < r.len() implies d.contains_key(under(dir, r.take(m)))
            && d[under(dir, r.take(m))] is Folder by {
        assert(copied_has(d0, src, r));
        assert(d0.contains_key(under(src, r.take(m))));
        assert(crate::copy_on_disk::clean_rel(r.take(m))) by {
            assert forall|q: int| 0 <= q < r.take(m).len() implies !crate::entries::skipped(#[trigger] r.take(m)[q]) by {
                assert(r.take(m)[q] == r[q]);
            }
        }
        assert(d.contains_key(under(dir, r.take(m))));
    }
}

/// Renaming the database files of the copy of a folder gives the import.
proof fn lemma_renamed_copy(d: DiskView, dir: DataPathView, d0: DiskView, src: DataPathView, r: Seq<Seq<char>>)
    requires
        holds_copy(d, dir, d0, src),
    ensures
        renamed_has(d, dir, r) == imported_has(d0, src, r),
        renamed_has(d, dir, r) ==> renamed_node(d, dir, r) == imported_node(d0, src, r),
{
    assert forall|name: Seq<char>| #[trigger] db_file_at(d, dir, name) == source_db_file(d0, src, name) by {
        crate::rename_on_disk::lemma_join_under(dir, name);
        assert(d.contains_key(under(dir, seq![name])) == copied_has(d0, src, seq![name]));
    }
    if r.len() >= 1 {
        crate::rename_on_disk::lemma_join_under(dir, quantframe_name_of(r[0]));
    }
}

/// Below the source, a disk that agrees with one whose paths have folders
/// above them has them too.
proof fn lemma_tree_wf_same_below(d: DiskView, d0: DiskView, src: DataPathView)
    requires
        tree_wf(d0, src),
        same_below(d, d0, src),
    ensures
        tree_wf(d, src),
{
    assert forall|r: Seq<Seq<char>>, m: int|
        #![trigger d.contains_key(under(src, r)), r.take(m)]
        d.contains_key(under(src, r)) && 0 <= m < r.len() implies d.contains_key(under(src, r.take(m)))
            && d[under(src, r.take(m))] is Folder by {
        lemma_under_within_root(src, r);
        lemma_under_within_root(src, r.take(m));
    }
}

/// Each step of staging whose action succeeded keeps what staging of `local`
/// on `d0` holds.
proof fn lemma_stage_step_on_disk(
    d0: DiskView,
    local: DataPathView,
    s: StageImportView,
    n: StageNextView,
    d: DiskView,
    a: ActionView,
    e: EventView,
    d2: DiskView,
)
    requires
        disk_wf(d0),
        stage_on_disk(d0, local, s, n, d),
        n == StageNextView::Perform(a),
        stage_performs(d, a, e, d2),
    ensures
        stage_on_disk(d0, local, stage_step(s, e).0, stage_step(s, e).1, d2),
{
    let src = source_of(local);
    let stg = staging_of(local);
    let flag = flag_of(local);
    lemma_names_differ();
    lemma_tree_wf(d0, src);
    match s.phase {
        StagePhase::StagingExists => {
            if !d0.contains_key(stg) {
                lemma_nothing_below_missing(d0, stg);
            }
            assert forall|p: DataPathView| #[trigger] p.is_within(src) implies d0.contains_key(p)
                == d0.contains_key(p) && (d0.contains_key(p) ==> d0[p] == d0[p]) by {}
        },
        StagePhase::ClearStaging => {
            assert forall|r: Seq<Seq<char>>| !d2.contains_key(#[trigger] under(stg, r)) by {
                lemma_under_within_root(stg, r);
            }
            assert forall|p: DataPathView| #[trigger] p.is_within(src) implies d2.contains_key(p)
                == d0.contains_key(p) && (d2.contains_key(p) ==> d2[p] == d0[p]) by {
                lemma_entries_apart(local, QUANTFRAME_APP_PATH@, PENDING_IMPORT_DIR@, p);
            }
        },
        StagePhase::Copy => {
            let r = e->SubtaskFinished_0;
            if r is Ok {
                let (c0, m0) = copy_start(src, stg);
                let tr = choose|tr: Seq<(EventView, DiskView)>|
                    #[trigger] run_ok(single_ops(), copy_machine(), copy_asks(), c0, m0, d, tr) && run_end(
                        copy_machine(),
                        c0,
                        m0,
                        d,
                        tr,
                    ).1 == CopyNextView::Done(r) && run_end(copy_machine(), c0, m0, d, tr).2 == d2;
                lemma_tree_wf_same_below(d, d0, src);
                lemma_within_self(src);
                lemma_entries_disjoint(local, QUANTFRAME_APP_PATH@, PENDING_IMPORT_DIR@);
                assert(copy_setting(d, src, stg));
                law_copy_reproduces_source(d, src, stg, tr);
                assert forall|q: Seq<Seq<char>>| #[trigger] d2.contains_key(under(stg, q)) == copied_has(d0, src, q)
                    && (d2.contains_key(under(stg, q)) ==> d2[under(stg, q)] == d0[under(src, q)]) by {
                    lemma_under_within_root(src, q);
                    assert(d2.contains_key(under(stg, q)) == copied_has(d, src, q));
                }
            }
        },
        StagePhase::RenameDb => {
            let r = e->SubtaskFinished_0;
            if r is Ok {
                let (b0, m0) = db_rename_start(stg);
                let tr = choose|tr: Seq<(EventView, DiskView)>|
                    #[trigger] run_ok(single_ops(), db_machine(), db_asks(), b0, m0, d, tr) && run_end(
                        db_machine(),
                        b0,
                        m0,
                        d,
                        tr,
                    ).1 == DbRenameNextView::Done(r) && run_end(db_machine(), b0, m0, d, tr).2 == d2;
                lemma_copy_tree_wf(d, stg, d0, src);
                law_db_rename_on_disk(d, stg, tr);
                assert forall|q: Seq<Seq<char>>| #[trigger] d2.contains_key(under(stg, q)) == imported_has(d0, src, q)
                    && (d2.contains_key(under(stg, q)) ==> d2[under(stg, q)] == imported_node(d0, src, q)) by {
                    lemma_renamed_copy(d, stg, d0, src, q);
                }
            }
        },
        StagePhase::WriteFlag => {
            let data = choose|data: Seq<u8>| d2 == d.insert(flag, NodeView::File(data));
            lemma_within_self(flag);
            assert forall|q: Seq<Seq<char>>| #[trigger] d2.contains_key(under(stg, q)) == d.contains_key(
                under(stg, q),
            ) && (d2.contains_key(under(stg, q)) ==> d2[under(stg, q)] == d[under(stg, q)]) by {
                lemma_under_within_root(stg, q);
                lemma_entries_apart(local, PENDING_IMPORT_DIR@, PENDING_IMPORT_FLAG@, under(stg, q));
            }
        },
        _ => {},
    }
}

/// Staging, run on a disk whose paths have folders above them, when every
/// action succeeds and staging succeeds, leaves the staging folder holding the
/// import of the Quantframe folder, and the flag set.
pub proof fn law_stage_on_disk(d0: DiskView, local: DataPathView, tr: Seq<(EventView, DiskView)>)
    requires
        disk_wf(d0),
        run_ok(stage_ops(), stage_machine(), stage_asks(), stage_start(local).0, stage_start(local).1, d0, tr),
        run_end(stage_machine(), stage_start(local).0, stage_start(local).1, d0, tr).1 matches StageNextView::Done(
            Ok(_),
        ),
    ensures
        holds_import(
            run_end(stage_machine(), stage_start(local).0, stage_start(local).1, d0, tr).2,
            staging_of(local),
            d0,
            source_of(local),
        ),
        run_end(stage_machine(), stage_start(local).0, stage_start(local).1, d0, tr).2.contains_key(flag_of(local)),
        d0.contains_key(source_of(local)),
{
    let (s0, n0) = stage_start(local);
    let inv = |s: StageImportView, n: StageNextView, d: DiskView| stage_on_disk(d0, local, s, n, d);
    assert forall|s1: StageImportView, n1: StageNextView, dd: DiskView, a: ActionView, e: EventView, d2: DiskView|
        #![trigger inv(s1, n1, dd), stage_ops()(dd, a, e, d2)]
        inv(s1, n1, dd) && stage_asks()(n1) == Some(a) && stage_ops()(dd, a, e, d2) implies inv(
            stage_machine()(s1, e).0,
            stage_machine()(s1, e).1,
            d2,
        ) by {
        lemma_stage_step_on_disk(d0, local, s1, n1, dd, a, e, d2);
    }
    lemma_run_keeps(stage_ops(), stage_machine(), stage_asks(), inv, s0, n0, d0, tr);
}

// ---------------------------------------------------------------------------
// Applying
// ---------------------------------------------------------------------------

/// Applying's step with the clock reading `stamp`, as a function.
pub open spec fn apply_machine(stamp: Seq<char>) -> spec_fn(ApplyImportView, EventView) -> (ApplyImportView, ApplyNextView) {
    |s: ApplyImportView, e: EventView| apply_step(s, e, stamp)
}

/// The action an applying output asks for.
pub open spec fn apply_asks() -> spec_fn(ApplyNextView) -> Option<ActionView> {
    |n: ApplyNextView|
        match n {
            ApplyNextView::Perform(a) => Some(a),
            ApplyNextView::Done(_) => None,
        }
}

/// No path lies both at or below `a` and at or below `b`.
pub open spec fn lies_apart(a: DataPathView, b: DataPathView) -> bool {
    forall|q: DataPathView| #![trigger q.is_within(a), q.is_within(b)] !(q.is_within(a) && q.is_within(b))
}

/// The folder `b` lies apart from the staging folder, the Kuantframe folder
/// and the flag of `local`.
pub open spec fn backup_apart(b: DataPathView, local: DataPathView) -> bool {
    &&& lies_apart(b, staging_of(local))
    &&& lies_apart(b, dest_of(local))
    &&& lies_apart(b, flag_of(local))
}

/// The folder `b` on `d` holds what `dst` held on `ds`.
pub open spec fn holds_old(d: DiskView, b: DataPathView, ds: DiskView, dst: DataPathView) -> bool {
    &&& forall|r: Seq<Seq<char>>| #[trigger] d.contains_key(under(b, r)) == ds.contains_key(under(dst, r))
    &&& forall|r: Seq<Seq<char>>| #[trigger] d.contains_key(under(b, r)) ==> d[under(b, r)] == ds[under(dst, r)]
}

/// The Kuantframe data of `ds` is kept: in the backup folder `made` when there
/// is one, and there was none when there is none.
pub open spec fn keeps_old(d: DiskView, ds: DiskView, local: DataPathView, made: Option<DataPathView>) -> bool {
    match made {
        None => !ds.contains_key(dest_of(local)),
        Some(b) => backup_apart(b, local) && holds_old(d, b, ds, dest_of(local)),
    }
}

/// Nothing is left at or below the staging folder of `local` on `d`.
pub open spec fn staging_gone(d: DiskView, local: DataPathView) -> bool {
    forall|r: Seq<Seq<char>>| !d.contains_key(#[trigger] under(staging_of(local), r))
}

/// Applying in `local`, started on `ds` where the staging folder holds the
/// import of the source on `d0`, with every action succeeding: until the
/// Kuantframe data is moved, the disk is `ds` and the backup folder lies apart
/// from the folders and the flag; before the swap the staging folder, after
/// it the Kuantframe folder, holds the import; the old Kuantframe data is
/// kept; applying ends in success with the staging folder and the flag gone.
pub open spec fn apply_on_disk(
    ds: DiskView,
    d0: DiskView,
    local: DataPathView,
    s: ApplyImportView,
    n: ApplyNextView,
    d: DiskView,
) -> bool {
    let src = source_of(local);
    let stg = staging_of(local);
    let dst = dest_of(local);
    &&& s.local == local
    &&& match s.phase {
        ApplyPhaseView::FlagExists => d == ds && n == ApplyNextView::Perform(ActionView::Probe(flag_of(local))),
        ApplyPhaseView::StagingExists => d == ds && n == ApplyNextView::Perform(ActionView::Probe(stg)),
        ApplyPhaseView::DestExists => d == ds && n == ApplyNextView::Perform(ActionView::Probe(dst)),
        ApplyPhaseView::BackupNameFree { stamp, candidate, next } => d == ds && ds.contains_key(dst) && n
            == ApplyNextView::Perform(ActionView::Probe(candidate)) && backup_apart(candidate, local),
        ApplyPhaseView::MoveToBackup { backup } => d == ds && ds.contains_key(dst) && n == ApplyNextView::Perform(
            ActionView::Rename { from: dst, to: backup },
        ) && backup_apart(backup, local),
        ApplyPhaseView::Swap { made } => holds_import(d, stg, d0, src) && keeps_old(d, ds, local, made) && n
            == ApplyNextView::Perform(ActionView::Rename { from: stg, to: dst }),
        ApplyPhaseView::DropFlagThenSucceed { made } => holds_import(d, dst, d0, src) && keeps_old(
            d,
            ds,
            local,
            made,
        ) && staging_gone(d, local) && n == ApplyNextView::Perform(ActionView::RemoveFile(flag_of(local))),
        ApplyPhaseView::Done => match n {
            ApplyNextView::Done(Ok(made)) => holds_import(d, dst, d0, src) && keeps_old(d, ds, local, made)
                && staging_gone(d, local) && !d.contains_key(flag_of(local)),
            _ => false,
        },
        _ => false,
    }
}

/// Two different entries of a folder lie apart.
proof fn lemma_entries_lie_apart(local: DataPathView, x: Seq<char>, y: Seq<char>)
    requires
        x != y,
    ensures
        lies_apart(local.join(x), local.join(y)),
{
    assert forall|q: DataPathView| #![trigger q.is_within(local.join(x)), q.is_within(local.join(y))] !(q.is_within(
        local.join(x),
    ) && q.is_within(local.join(y))) by {
        lemma_entries_apart(local, x, y, q);
    }
}

/// A backup folder lies apart from the staging folder, the Kuantframe folder
/// and the flag.
proof fn lemma_backup_apart(local: DataPathView, stamp: Seq<char>, numbered: bool, k: nat)
    ensures
        backup_apart(local.join(backup_name(stamp, numbered, k)), local),
{
    law_backup_is_apart(local, stamp, numbered, k);
    let x = backup_name(stamp, numbered, k);
    lemma_entries_lie_apart(local, x, PENDING_IMPORT_DIR@);
    lemma_entries_lie_apart(local, x, KUANTFRAME_APP_PATH@);
    lemma_entries_lie_apart(local, x, PENDING_IMPORT_FLAG@);
}

/// Each step of applying whose action succeeded keeps what applying holds.
proof fn lemma_apply_step_on_disk(
    ds: DiskView,
    d0: DiskView,
    local: DataPathView,
    stamp: Seq<char>,
    s: ApplyImportView,
    n: ApplyNextView,
    d: DiskView,
    a: ActionView,
    e: EventView,
    d2: DiskView,
)
    requires
        holds_import(ds, staging_of(local), d0, source_of(local)),
        ds.contains_key(flag_of(local)),
        d0.contains_key(source_of(local)),
        apply_on_disk(ds, d0, local, s, n, d),
        n == ApplyNextView::Perform(a),
        disk_performs(d, a, e, d2),
    ensures
        apply_on_disk(ds, d0, local, apply_step(s, e, stamp).0, apply_step(s, e, stamp).1, d2),
{
    let src = source_of(local);
    let stg = staging_of(local);
    let dst = dest_of(local);
    let flag = flag_of(local);
    lemma_names_differ();
    match s.phase {
        ApplyPhaseView::StagingExists => {
            lemma_under_within_root(stg, Seq::empty());
            lemma_under_within_root(src, Seq::empty());
            assert(ds.contains_key(under(stg, Seq::empty())));
        },
        ApplyPhaseView::DestExists => {
            lemma_backup_apart(local, stamp, false, 0);
        },
        ApplyPhaseView::BackupNameFree { stamp: st, candidate, next } => {
            lemma_backup_apart(local, st, true, next as nat);
        },
        ApplyPhaseView::MoveToBackup { backup } => {
            assert forall|r: Seq<Seq<char>>| #[trigger] d2.contains_key(under(stg, r)) == d.contains_key(
                under(stg, r),
            ) && (d2.contains_key(under(stg, r)) ==> d2[under(stg, r)] == d[under(stg, r)]) by {
                lemma_under_within_root(stg, r);
                lemma_entries_apart(local, PENDING_IMPORT_DIR@, KUANTFRAME_APP_PATH@, under(stg, r));
            }
            assert forall|r: Seq<Seq<char>>| #[trigger] d2.contains_key(under(backup, r)) == ds.contains_key(
                under(dst, r),
            ) && (d2.contains_key(under(backup, r)) ==> d2[under(backup, r)] == ds[under(dst, r)]) by {
                lemma_under_within_root(backup, r);
                assert(moved_source(under(backup, r), dst, backup) == under(dst, r)) by {
                    assert(moved_source(under(backup, r), dst, backup).parts =~= under(dst, r).parts);
                }
            }
        },
        ApplyPhaseView::Swap { made } => {
            assert forall|r: Seq<Seq<char>>| #[trigger] d2.contains_key(under(dst, r)) == d.contains_key(
                under(stg, r),
            ) && (d2.contains_key(under(dst, r)) ==> d2[under(dst, r)] == d[under(stg, r)]) by {
                lemma_under_within_root(dst, r);
                assert(moved_source(under(dst, r), stg, dst) == under(stg, r)) by {
                    assert(moved_source(under(dst, r), stg, dst).parts =~= under(stg, r).parts);
                }
            }
            assert forall|r: Seq<Seq<char>>| !d2.contains_key(#[trigger] under(stg, r)) by {
                lemma_under_within_root(stg, r);
                lemma_entries_apart(local, PENDING_IMPORT_DIR@, KUANTFRAME_APP_PATH@, under(stg, r));
            }
            if let Some(b) = made {
                assert forall|r: Seq<Seq<char>>| #[trigger] d2.contains_key(under(b, r)) == d.contains_key(
                    under(b, r),
                ) && (d2.contains_key(under(b, r)) ==> d2[under(b, r)] == d[under(b, r)]) by {
                    lemma_under_within_root(b, r);
                }
            }
        },
        ApplyPhaseView::DropFlagThenSucceed { made } => {
            lemma_within_self(flag);
            assert forall|r: Seq<Seq<char>>| #[trigger] d2.contains_key(under(dst, r)) == d.contains_key(
                under(dst, r),
            ) && (d2.contains_key(under(dst, r)) ==> d2[under(dst, r)] == d[under(dst, r)]) by {
                lemma_under_within_root(dst, r);
                lemma_entries_apart(local, KUANTFRAME_APP_PATH@, PENDING_IMPORT_FLAG@, under(dst, r));
            }
            if let Some(b) = made {
                assert forall|r: Seq<Seq<char>>| #[trigger] d2.contains_key(under(b, r)) == d.contains_key(
                    under(b, r),
                ) && (d2.contains_key(under(b, r)) ==> d2[under(b, r)] == d[under(b, r)]) by {
                    lemma_under_within_root(b, r);
                }
            }
        },
        _ => {},
    }
}

/// Staging an import and then applying it reproduces the Quantframe data in
/// the Kuantframe folder. On a disk whose paths have folders above them, when
/// staging succeeds, nothing else touches the disk, and every action of
/// applying succeeds (whatever the clock reads), applying succeeds and leaves
/// the Kuantframe folder holding, at each relative path, what the Quantframe
/// folder holds there, except below the embedded browser's data (in any ASCII
/// case, at any depth), with each Quantframe database file of its top folder
/// under its Kuantframe name in place of whatever held that name. The
/// Kuantframe data found when applying began is in the backup folder it
/// returns (it returns none only when there was none), and the staging folder
/// and the flag are gone.
pub proof fn law_import_reproduces_quantframe_data(
    local: DataPathView,
    d0: DiskView,
    stamp: Seq<char>,
    stage_tr: Seq<(EventView, DiskView)>,
    apply_tr: Seq<(EventView, DiskView)>,
)
    requires
        disk_wf(d0),
        run_ok(stage_ops(), stage_machine(), stage_asks(), stage_start(local).0, stage_start(local).1, d0, stage_tr),
        run_end(stage_machine(), stage_start(local).0, stage_start(local).1, d0, stage_tr).1 matches StageNextView::Done(
            Ok(_),
        ),
        run_ok(
            single_ops(),
            apply_machine(stamp),
            apply_asks(),
            apply_start(local).0,
            apply_start(local).1,
            run_end(stage_machine(), stage_start(local).0, stage_start(local).1, d0, stage_tr).2,
            apply_tr,
        ),
        run_end(
            apply_machine(stamp),
            apply_start(local).0,
            apply_start(local).1,
            run_end(stage_machine(), stage_start(local).0, stage_start(local).1, d0, stage_tr).2,
            apply_tr,
        ).1 is Done,
    ensures
        ({
            let ds = run_end(stage_machine(), stage_start(local).0, stage_start(local).1, d0, stage_tr).2;
            let end = run_end(apply_machine(stamp), apply_start(local).0, apply_start(local).1, ds, apply_tr);
            &&& match end.1 {
                ApplyNextView::Done(Ok(made)) => keeps_old(end.2, ds, local, made),
                _ => false,
            }
            &&& holds_import(end.2, dest_of(local), d0, source_of(local))
            &&& staging_gone(end.2, local)
            &&& !end.2.contains_key(flag_of(local))
        }),
{
    law_stage_on_disk(d0, local, stage_tr);
    let ds = run_end(stage_machine(), stage_start(local).0, stage_start(local).1, d0, stage_tr).2;
    let (s0, n0) = apply_start(local);
    let inv = |s: ApplyImportView, n: ApplyNextView, d: DiskView| apply_on_disk(ds, d0, local, s, n, d);
    assert forall|s1: ApplyImportView, n1: ApplyNextView, dd: DiskView, a: ActionView, e: EventView, d2: DiskView|
        #![trigger inv(s1, n1, dd), single_ops()(dd, a, e, d2)]
        inv(s1, n1, dd) && apply_asks()(n1) == Some(a) && single_ops()(dd, a, e, d2) implies inv(
            apply_machine(stamp)(s1, e).0,
            apply_machine(stamp)(s1, e).1,
            d2,
        ) by {
        lemma_apply_step_on_disk(ds, d0, local, stamp, s1, n1, dd, a, e, d2);
    }
    lemma_run_keeps(single_ops(), apply_machine(stamp), apply_asks(), inv, s0, n0, ds, apply_tr);
}

} // verus!
