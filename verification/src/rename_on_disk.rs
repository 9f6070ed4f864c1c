//! What a run of the database renaming does to a disk when every action
//! succeeds: each Quantframe database file of the folder ends up under its
//! Kuantframe name, replacing what held that name, and nothing else changes.
use vstd::prelude::*;
use crate::copy_on_disk::tree_wf;
use crate::db_rename::{
    DbRenameNextView, DbRenamePhase, DbRenameView, db_rename_start, db_rename_step, law_db_plan_renames_db_files,
    lemma_plan_covers, rename_from, rename_to,
};
use crate::disk::{DiskView, NodeView, disk_performs, entry_name, lists_folder, run_end, run_ok, single_ops, under, lemma_run_keeps};
use crate::entries::{ListedEntryView, db_renames, is_quantframe_db_name, renamed_db_name};
use crate::paths::{DataPathView, KUANTFRAME_DB_STEM, QUANTFRAME_DB_STEM};
use crate::text::has_prefix;
use crate::transfer::{ActionView, EventView};

verus! {

/// The renaming's step, as a function.
pub open spec fn db_machine() -> spec_fn(DbRenameView, EventView) -> (DbRenameView, DbRenameNextView) {
    |s: DbRenameView, e: EventView| db_rename_step(s, e)
}

/// The action a renaming's output asks for.
pub open spec fn db_asks() -> spec_fn(DbRenameNextView) -> Option<ActionView> {
    |n: DbRenameNextView|
        match n {
            DbRenameNextView::Perform(a) => Some(a),
            DbRenameNextView::Done(_) => None,
        }
}

/// A name that starts with the Kuantframe stem.
pub open spec fn is_kuantframe_db_name(name: Seq<char>) -> bool {
    has_prefix(name, KUANTFRAME_DB_STEM@)
}

/// The Quantframe name whose Kuantframe name is `name`.
pub open spec fn quantframe_name_of(name: Seq<char>) -> Seq<char> {
    QUANTFRAME_DB_STEM@ + name.subrange(KUANTFRAME_DB_STEM@.len() as int, name.len() as int)
}

/// `name` in the folder `dir` on `d` is a Quantframe database file.
pub open spec fn db_file_at(d: DiskView, dir: DataPathView, name: Seq<char>) -> bool {
    &&& is_quantframe_db_name(name)
    &&& d.contains_key(dir.join(name))
    &&& d[dir.join(name)] is File
}

/// The folder `dir` of `d1` holds the relative path `r` once its database
/// files are renamed: a Kuantframe name of a database file holds that file
/// alone, a database file's own name holds nothing, the rest is as on `d1`.
pub open spec fn renamed_has(d1: DiskView, dir: DataPathView, r: Seq<Seq<char>>) -> bool {
    if r.len() >= 1 && is_kuantframe_db_name(r[0]) && db_file_at(d1, dir, quantframe_name_of(r[0])) {
        r.len() == 1
    } else if r.len() >= 1 && db_file_at(d1, dir, r[0]) {
        false
    } else {
        d1.contains_key(under(dir, r))
    }
}

/// What the folder `dir` of `d1` holds at `r` once its database files are
/// renamed.
pub open spec fn renamed_node(d1: DiskView, dir: DataPathView, r: Seq<Seq<char>>) -> NodeView {
    if r.len() >= 1 && is_kuantframe_db_name(r[0]) && db_file_at(d1, dir, quantframe_name_of(r[0])) {
        d1[dir.join(quantframe_name_of(r[0]))]
    } else {
        d1[under(dir, r)]
    }
}

/// One of the first `k` renames of `plan` gives the name `name`.
pub open spec fn renamed_to(plan: Seq<(Seq<char>, Seq<char>)>, k: int, name: Seq<char>) -> bool {
    exists|i: int| 0 <= i < k && (#[trigger] plan[i]).1 == name
}

/// One of the first `k` renames of `plan` takes the name `name` away.
pub open spec fn renamed_from(plan: Seq<(Seq<char>, Seq<char>)>, k: int, name: Seq<char>) -> bool {
    exists|i: int| 0 <= i < k && (#[trigger] plan[i]).0 == name
}

/// What `dir` holds at `r` after the first `k` renames of `plan`.
pub open spec fn partly_has(
    d1: DiskView,
    dir: DataPathView,
    plan: Seq<(Seq<char>, Seq<char>)>,
    k: int,
    r: Seq<Seq<char>>,
) -> bool {
    if r.len() >= 1 && renamed_to(plan, k, r[0]) {
        r.len() == 1
    } else if r.len() >= 1 && renamed_from(plan, k, r[0]) {
        false
    } else {
        d1.contains_key(under(dir, r))
    }
}

/// The plan renames, in some order, each database file of `dir` on `d1` once,
/// to its Kuantframe name.
pub open spec fn plan_ok(d1: DiskView, dir: DataPathView, plan: Seq<(Seq<char>, Seq<char>)>) -> bool {
    &&& plan.len() <= usize::MAX
    &&& forall|i: int|
        0 <= i < plan.len() ==> db_file_at(d1, dir, (#[trigger] plan[i]).0) && plan[i].1 == renamed_db_name(
            plan[i].0,
        )
    &&& forall|i1: int, i2: int| 0 <= i1 < i2 < plan.len() ==> (#[trigger] plan[i1]).0 != (#[trigger] plan[i2]).0
    &&& forall|m: Seq<char>|
        #[trigger] db_file_at(d1, dir, m) ==> exists|i: int| 0 <= i < plan.len() && (#[trigger] plan[i]).0 == m
}

/// The folder `dir` on `d` holds what it holds after the first `k` renames,
/// leaving aside (when `except` holds) what lies at the new name of rename `k`.
pub open spec fn holds_after(
    d: DiskView,
    d1: DiskView,
    dir: DataPathView,
    plan: Seq<(Seq<char>, Seq<char>)>,
    k: int,
    except: bool,
) -> bool {
    forall|r: Seq<Seq<char>>|
        (except && r.len() >= 1 && r[0] == plan[k].1) || {
            &&& #[trigger] d.contains_key(under(dir, r)) == partly_has(d1, dir, plan, k, r)
            &&& d.contains_key(under(dir, r)) ==> d[under(dir, r)] == (if r.len() >= 1 && renamed_to(
                plan,
                k,
                r[0],
            ) {
                d1[dir.join(quantframe_name_of(r[0]))]
            } else {
                d1[under(dir, r)]
            })
        }
}

/// A renaming of the folder `dir` of `d1` whose actions all succeeded: each
/// phase asks for its action and the folder holds the renames done so far.
pub open spec fn db_on_disk(
    d1: DiskView,
    dir: DataPathView,
    s: DbRenameView,
    n: DbRenameNextView,
    d: DiskView,
) -> bool {
    &&& s.dir == dir
    &&& match s.phase {
        DbRenamePhase::List => d == d1 && n == DbRenameNextView::Perform(ActionView::ListDir(dir)),
        DbRenamePhase::ProbeTarget { k } => plan_ok(d1, dir, s.plan) && k < s.plan.len() && n
            == DbRenameNextView::Perform(ActionView::Probe(rename_to(s, k as int))) && holds_after(
            d,
            d1,
            dir,
            s.plan,
            k as int,
            false,
        ),
        DbRenamePhase::RemoveTarget { k } => plan_ok(d1, dir, s.plan) && k < s.plan.len() && n
            == DbRenameNextView::Perform(ActionView::RemoveFile(rename_to(s, k as int))) && holds_after(
            d,
            d1,
            dir,
            s.plan,
            k as int,
            false,
        ),
        DbRenamePhase::Move { k } => plan_ok(d1, dir, s.plan) && k < s.plan.len() && n
            == DbRenameNextView::Perform(
            ActionView::Rename { from: rename_from(s, k as int), to: rename_to(s, k as int) },
        ) && holds_after(d, d1, dir, s.plan, k as int, true),
        DbRenamePhase::Done => plan_ok(d1, dir, s.plan) && n == DbRenameNextView::Done(Ok(())) && holds_after(
            d,
            d1,
            dir,
            s.plan,
            s.plan.len() as int,
            false,
        ),
    }
}

/// The Quantframe and Kuantframe database names map onto each other.
proof fn lemma_db_names(m: Seq<char>, n: Seq<char>)
    ensures
        is_quantframe_db_name(m) ==> is_kuantframe_db_name(renamed_db_name(m)) && quantframe_name_of(
            renamed_db_name(m),
        ) == m,
        is_kuantframe_db_name(n) ==> is_quantframe_db_name(quantframe_name_of(n)) && renamed_db_name(
            quantframe_name_of(n),
        ) == n,
        is_kuantframe_db_name(n) ==> !is_quantframe_db_name(n),
{
    assert(QUANTFRAME_DB_STEM == "quantframeV2");
    assert(KUANTFRAME_DB_STEM == "kuantframeV2");
    reveal_strlit("quantframeV2");
    reveal_strlit("kuantframeV2");
    let q = QUANTFRAME_DB_STEM@;
    let k = KUANTFRAME_DB_STEM@;
    assert(q.len() == k.len());
    if is_quantframe_db_name(m) {
        let r = renamed_db_name(m);
        assert(r.subrange(0, k.len() as int) =~= k);
        assert(quantframe_name_of(r) =~= q + m.subrange(q.len() as int, m.len() as int));
        assert(m =~= m.subrange(0, q.len() as int) + m.subrange(q.len() as int, m.len() as int));
    }
    if is_kuantframe_db_name(n) {
        let o = quantframe_name_of(n);
        assert(o.subrange(0, q.len() as int) =~= q);
        assert(renamed_db_name(o) =~= k + n.subrange(k.len() as int, n.len() as int));
        assert(n =~= n.subrange(0, k.len() as int) + n.subrange(k.len() as int, n.len() as int));
        if is_quantframe_db_name(n) {
            assert(n.subrange(0, k.len() as int)[0] == n[0]);
            assert(n.subrange(0, q.len() as int)[0] == n[0]);
        }
    }
}

/// A plan made from a listing whose entries were all read succeeds; each file
/// it renames is a listed regular file; with distinct names, it renames each
/// file once.
proof fn lemma_plan_facts(es: Seq<ListedEntryView>)
    ensures
        (forall|j: int| 0 <= j < es.len() ==> #[trigger] es[j] is Read) ==> db_renames(es) is Ok,
        db_renames(es) matches Ok(plan) ==> plan.len() <= es.len(),
        db_renames(es) matches Ok(plan) ==> forall|i: int|
            0 <= i < plan.len() ==> exists|j: int|
                0 <= j < es.len() && (#[trigger] es[j] matches ListedEntryView::Read { name, is_file, .. }
                    && is_file && name == (#[trigger] plan[i]).0),
        (forall|j1: int, j2: int|
            0 <= j1 < j2 < es.len() ==> entry_name(#[trigger] es[j1]) != entry_name(#[trigger] es[j2]))
            ==> (db_renames(es) matches Ok(plan) ==> forall|i1: int, i2: int|
            0 <= i1 < i2 < plan.len() ==> (#[trigger] plan[i1]).0 != (#[trigger] plan[i2]).0),
    decreases es.len(),
{
    if es.len() > 0 {
        let pre = es.drop_last();
        lemma_plan_facts(pre);
        if forall|j: int| 0 <= j < es.len() ==> #[trigger] es[j] is Read {
            assert forall|j: int| 0 <= j < pre.len() implies #[trigger] pre[j] is Read by {
                assert(pre[j] == es[j]);
            }
        }
        if let Ok(plan) = db_renames(es) {
            let rest = db_renames(pre)->Ok_0;
            assert forall|i: int| 0 <= i < plan.len() implies exists|j: int|
                0 <= j < es.len() && (#[trigger] es[j] matches ListedEntryView::Read { name, is_file, .. }
                    && is_file && name == (#[trigger] plan[i]).0) by {
                if i < rest.len() {
                    assert(plan[i] == rest[i]);
                    let j = choose|j: int|
                        0 <= j < pre.len() && (#[trigger] pre[j] matches ListedEntryView::Read { name, is_file, .. }
                            && is_file && name == rest[i].0);
                    assert(es[j] == pre[j]);
                } else {
                    assert(es[es.len() - 1] == es.last());
                }
            }
            if forall|j1: int, j2: int|
                0 <= j1 < j2 < es.len() ==> entry_name(#[trigger] es[j1]) != entry_name(#[trigger] es[j2]) {
                assert forall|j1: int, j2: int| 0 <= j1 < j2 < pre.len() implies entry_name(#[trigger] pre[j1])
                    != entry_name(#[trigger] pre[j2]) by {
                    assert(pre[j1] == es[j1] && pre[j2] == es[j2]);
                }
                assert forall|i1: int, i2: int| 0 <= i1 < i2 < plan.len() implies (#[trigger] plan[i1]).0
                    != (#[trigger] plan[i2]).0 by {
                    if i2 < rest.len() {
                        assert(plan[i1] == rest[i1] && plan[i2] == rest[i2]);
                    } else {
                        assert(plan[i1] == rest[i1]);
                        let j = choose|j: int|
                            0 <= j < pre.len() && (#[trigger] pre[j] matches ListedEntryView::Read {
                                name,
                                is_file,
                                ..
                            } && is_file && name == rest[i1].0);
                        assert(pre[j] == es[j]);
                        assert(entry_name(es[j]) != entry_name(es[es.len() - 1]));
                    }
                }
            }
        }
    }
}

pub(crate) proof fn lemma_join_under(dir: DataPathView, x: Seq<char>)
    ensures
        dir.join(x) == under(dir, seq![x]),
{
    assert(dir.join(x).parts =~= under(dir, seq![x]).parts);
}

/// A path below `dir` lies within `dir`'s entry `x` exactly when its first
/// component is `x`; what it came from when `x` was moved there from `y`.
proof fn lemma_entry_within(dir: DataPathView, r: Seq<Seq<char>>, x: Seq<char>, y: Seq<char>)
    ensures
        under(dir, r).is_within(dir.join(x)) <==> (r.len() >= 1 && r[0] == x),
        r.len() >= 1 ==> crate::disk::moved_source(under(dir, r), dir.join(y), dir.join(x)) == under(
            dir,
            seq![y] + r.subrange(1, r.len() as int),
        ),
{
    let q = under(dir, r);
    let n = dir.parts.len() as int;
    if r.len() >= 1 && r[0] == x {
        assert(q.parts.subrange(0, n + 1) =~= dir.join(x).parts);
    }
    if q.is_within(dir.join(x)) {
        assert(q.parts.subrange(0, n + 1)[n] == dir.join(x).parts[n]);
    }
    if r.len() >= 1 {
        assert(crate::disk::moved_source(q, dir.join(y), dir.join(x)).parts =~= under(
            dir,
            seq![y] + r.subrange(1, r.len() as int),
        ).parts);
    }
}

/// Facts of a plan's rename `k`: its old name is a database name, its new
/// name a Kuantframe one, and no other rename uses either.
proof fn lemma_plan_entry(d1: DiskView, dir: DataPathView, plan: Seq<(Seq<char>, Seq<char>)>, k: int)
    requires
        plan_ok(d1, dir, plan),
        0 <= k < plan.len(),
    ensures
        is_quantframe_db_name(plan[k].0),
        is_kuantframe_db_name(plan[k].1),
        !is_quantframe_db_name(plan[k].1),
        quantframe_name_of(plan[k].1) == plan[k].0,
        plan[k].0 != plan[k].1,
        forall|i: int| 0 <= i < plan.len() && i != k ==> (#[trigger] plan[i]).0 != plan[k].0 && plan[i].1
            != plan[k].1,
        forall|i: int| 0 <= i < plan.len() ==> (#[trigger] plan[i]).1 != plan[k].0 && plan[i].0 != plan[k].1,
{
    let (m, t) = plan[k];
    lemma_db_names(m, t);
    assert forall|i: int| 0 <= i < plan.len() && i != k implies (#[trigger] plan[i]).0 != plan[k].0 && plan[i].1
        != plan[k].1 by {
        lemma_db_names(plan[i].0, plan[i].1);
        if i < k {
            assert(plan[i].0 != plan[k].0);
        } else {
            assert(plan[k].0 != plan[i].0);
        }
    }
    assert forall|i: int| 0 <= i < plan.len() implies (#[trigger] plan[i]).1 != plan[k].0 && plan[i].0
        != plan[k].1 by {
        lemma_db_names(plan[i].0, plan[i].1);
        lemma_db_names(m, plan[i].1);
    }
}

proof fn lemma_db_list_on_disk(d1: DiskView, dir: DataPathView, s: DbRenameView, e: EventView)
    requires
        s.phase == DbRenamePhase::List,
        s.dir == dir,
        disk_performs(d1, ActionView::ListDir(dir), e, d1),
    ensures
        db_on_disk(d1, dir, db_rename_step(s, e).0, db_rename_step(s, e).1, d1),
{
    let es = e->Listed_0->Ok_0;
    assert(lists_folder(d1, dir, es));
    lemma_plan_facts(es);
    law_db_plan_renames_db_files(es);
    lemma_plan_covers(es);
    assert forall|j: int| 0 <= j < es.len() implies #[trigger] es[j] is Read by {}
    let plan = db_renames(es)->Ok_0;
    let s2 = db_rename_step(s, e).0;
    assert(s2.plan == plan);
    assert forall|m: Seq<char>| #[trigger] db_file_at(d1, dir, m) implies exists|i: int|
        0 <= i < plan.len() && (#[trigger] plan[i]).0 == m by {
        let j = choose|j: int| 0 <= j < es.len() && entry_name(#[trigger] es[j]) == m;
        assert(es[j] matches ListedEntryView::Read { name, is_file, .. } && is_file && is_quantframe_db_name(
            name,
        ));
    }
    assert forall|i: int| 0 <= i < plan.len() implies db_file_at(d1, dir, (#[trigger] plan[i]).0) && plan[i].1
        == renamed_db_name(plan[i].0) by {
        let j = choose|j: int|
            0 <= j < es.len() && (#[trigger] es[j] matches ListedEntryView::Read { name, is_file, .. } && is_file
                && name == plan[i].0);
    }
    assert(plan_ok(d1, dir, plan));
    assert forall|x: Seq<char>| !renamed_to(plan, 0, x) && !renamed_from(plan, 0, x) by {}
    assert(holds_after(d1, d1, dir, plan, 0, false));
}

proof fn lemma_db_move_on_disk(
    d1: DiskView,
    dir: DataPathView,
    s: DbRenameView,
    d: DiskView,
    e: EventView,
    d2: DiskView,
    k: int,
)
    requires
        tree_wf(d1, dir),
        s.dir == dir,
        plan_ok(d1, dir, s.plan),
        0 <= k < s.plan.len(),
        holds_after(d, d1, dir, s.plan, k, true),
        disk_performs(d, ActionView::Rename { from: rename_from(s, k), to: rename_to(s, k) }, e, d2),
    ensures
        holds_after(d2, d1, dir, s.plan, k + 1, false),
{
    let plan = s.plan;
    let (m, t) = plan[k];
    lemma_plan_entry(d1, dir, plan, k);
    lemma_join_under(dir, t);
    lemma_join_under(dir, m);
    assert forall|x: Seq<char>| #[trigger] renamed_to(plan, k + 1, x) == (renamed_to(plan, k, x) || x == t) by {
        if renamed_to(plan, k + 1, x) && !renamed_to(plan, k, x) {
            let i = choose|i: int| 0 <= i < k + 1 && (#[trigger] plan[i]).1 == x;
        }
    }
    assert forall|x: Seq<char>| #[trigger] renamed_from(plan, k + 1, x) == (renamed_from(plan, k, x) || x == m) by {
        if renamed_from(plan, k + 1, x) && !renamed_from(plan, k, x) {
            let i = choose|i: int| 0 <= i < k + 1 && (#[trigger] plan[i]).0 == x;
        }
    }
    assert(!renamed_to(plan, k, t) && !renamed_from(plan, k, m) && !renamed_to(plan, k, m) && !renamed_from(
        plan,
        k,
        t,
    ));
    assert forall|r: Seq<Seq<char>>|
        {
            &&& #[trigger] d2.contains_key(under(dir, r)) == partly_has(d1, dir, plan, k + 1, r)
            &&& d2.contains_key(under(dir, r)) ==> d2[under(dir, r)] == (if r.len() >= 1 && renamed_to(
                plan,
                k + 1,
                r[0],
            ) {
                d1[dir.join(quantframe_name_of(r[0]))]
            } else {
                d1[under(dir, r)]
            })
        } by {
        lemma_entry_within(dir, r, t, m);
        lemma_entry_within(dir, r, m, m);
        if r.len() >= 1 && r[0] == t {
            let r2 = seq![m] + r.subrange(1, r.len() as int);
            assert(r2[0] == m);
            assert(d.contains_key(under(dir, r2)) == d1.contains_key(under(dir, r2)));
            if r.len() == 1 {
                assert(r2 =~= seq![m]);
            } else {
                assert(r2.take(1) =~= seq![m]);
                if d1.contains_key(under(dir, r2)) {
                    assert(d1[under(dir, r2.take(1))] is Folder);
                }
            }
        }
    }
}

/// Each step of a renaming whose action succeeded keeps the folder holding
/// the renames done so far.
proof fn lemma_db_step_on_disk(
    d1: DiskView,
    dir: DataPathView,
    s: DbRenameView,
    n: DbRenameNextView,
    d: DiskView,
    a: ActionView,
    e: EventView,
    d2: DiskView,
)
    requires
        tree_wf(d1, dir),
        db_on_disk(d1, dir, s, n, d),
        n == DbRenameNextView::Perform(a),
        disk_performs(d, a, e, d2),
    ensures
        db_on_disk(d1, dir, db_rename_step(s, e).0, db_rename_step(s, e).1, d2),
{
    match s.phase {
        DbRenamePhase::List => {
            lemma_db_list_on_disk(d1, dir, s, e);
        },
        DbRenamePhase::ProbeTarget { k } => {
            assert(d2 == d);
            assert(holds_after(d2, d1, dir, s.plan, k as int, true)) by {
                assert forall|r: Seq<Seq<char>>| #[trigger] d2.contains_key(under(dir, r)) == d.contains_key(
                    under(dir, r),
                ) by {}
            }
        },
        DbRenamePhase::RemoveTarget { k } => {
            let t = s.plan[k as int].1;
            assert(holds_after(d2, d1, dir, s.plan, k as int, true)) by {
                assert forall|r: Seq<Seq<char>>|
                    (r.len() >= 1 && r[0] == t) || {
                        &&& #[trigger] d2.contains_key(under(dir, r)) == d.contains_key(under(dir, r))
                        &&& d2.contains_key(under(dir, r)) ==> d2[under(dir, r)] == d[under(dir, r)]
                    } by {
                    lemma_entry_within(dir, r, t, t);
                }
            }
        },
        DbRenamePhase::Move { k } => {
            lemma_db_move_on_disk(d1, dir, s, d, e, d2, k as int);
        },
        DbRenamePhase::Done => {},
    }
}

/// Renaming the database files of a folder whose paths below it have folders
/// above them, when every action succeeds, leaves the folder holding each
/// Quantframe database file's contents under its Kuantframe name (in place of
/// what held that name), the old names gone, and everything else as it was.
pub proof fn law_db_rename_on_disk(d1: DiskView, dir: DataPathView, tr: Seq<(EventView, DiskView)>)
    requires
        tree_wf(d1, dir),
        run_ok(single_ops(), db_machine(), db_asks(), db_rename_start(dir).0, db_rename_start(dir).1, d1, tr),
        run_end(db_machine(), db_rename_start(dir).0, db_rename_start(dir).1, d1, tr).1 is Done,
    ensures
        ({
            let d = run_end(db_machine(), db_rename_start(dir).0, db_rename_start(dir).1, d1, tr).2;
            &&& run_end(db_machine(), db_rename_start(dir).0, db_rename_start(dir).1, d1, tr).1
                == DbRenameNextView::Done(Ok(()))
            &&& forall|r: Seq<Seq<char>>| #[trigger] d.contains_key(under(dir, r)) == renamed_has(d1, dir, r)
            &&& forall|r: Seq<Seq<char>>| #[trigger] d.contains_key(under(dir, r)) ==> d[under(dir, r)]
                == renamed_node(d1, dir, r)
        }),
{
    let (s0, n0) = db_rename_start(dir);
    let inv = |s: DbRenameView, n: DbRenameNextView, d: DiskView| db_on_disk(d1, dir, s, n, d);
    assert forall|s1: DbRenameView, n1: DbRenameNextView, dd: DiskView, a: ActionView, e: EventView, d2: DiskView|
        #![trigger inv(s1, n1, dd), single_ops()(dd, a, e, d2)]
        inv(s1, n1, dd) && db_asks()(n1) == Some(a) && single_ops()(dd, a, e, d2) implies inv(
            db_machine()(s1, e).0,
            db_machine()(s1, e).1,
            d2,
        ) by {
        lemma_db_step_on_disk(d1, dir, s1, n1, dd, a, e, d2);
    }
    lemma_run_keeps(single_ops(), db_machine(), db_asks(), inv, s0, n0, d1, tr);
    let (s, n, d) = run_end(db_machine(), s0, n0, d1, tr);
    let plan = s.plan;
    let len = plan.len() as int;
    assert forall|x: Seq<char>| #[trigger] renamed_to(plan, len, x) == (is_kuantframe_db_name(x) && db_file_at(
        d1,
        dir,
        quantframe_name_of(x),
    )) by {
        if renamed_to(plan, len, x) {
            let i = choose|i: int| 0 <= i < len && (#[trigger] plan[i]).1 == x;
            lemma_plan_entry(d1, dir, plan, i);
        }
        if is_kuantframe_db_name(x) && db_file_at(d1, dir, quantframe_name_of(x)) {
            lemma_db_names(quantframe_name_of(x), x);
            let i = choose|i: int| 0 <= i < len && (#[trigger] plan[i]).0 == quantframe_name_of(x);
        }
    }
    assert forall|x: Seq<char>| #[trigger] renamed_from(plan, len, x) == db_file_at(d1, dir, x) by {
        if renamed_from(plan, len, x) {
            let i = choose|i: int| 0 <= i < len && (#[trigger] plan[i]).0 == x;
        }
        if db_file_at(d1, dir, x) {
            let i = choose|i: int| 0 <= i < len && (#[trigger] plan[i]).0 == x;
        }
    }
}

} // verus!
