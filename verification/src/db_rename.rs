//! Renaming the `quantframeV2*` database files of a folder to `kuantframeV2*`.
use vstd::prelude::*;
use crate::entries::{db_renames, plan_db_renames, rename_views, ListedEntryView, is_quantframe_db_name, renamed_db_name};
use crate::paths::{KUANTFRAME_DB_STEM, QUANTFRAME_DB_STEM};
use crate::paths::{DataPath, DataPathView};
use crate::text::owned;
use crate::transfer::{Action, ActionView, Event, EventView, SaveError, SaveErrorView, action_targets};

verus! {

/// Where the renaming stands.
#[derive(PartialEq, Eq, Structural, Clone, Copy, Debug)]
pub enum DbRenamePhase {
    /// Waits for the folder's listing.
    List,
    /// Waits for whether the new name of rename `k` is taken.
    ProbeTarget { k: usize },
    /// Waits for the file holding the new name of rename `k` to be removed.
    RemoveTarget { k: usize },
    /// Waits for rename `k` to be done.
    Move { k: usize },
    /// Finished.
    Done,
}

/// What the renaming does next.
#[derive(Debug)]
pub enum DbRenameNext {
    /// Perform the action and report its outcome.
    Perform(Action),
    /// The renaming is over.
    Done(Result<(), SaveError>),
}

/// What a [`DbRenameNext`] holds.
pub enum DbRenameNextView {
    Perform(ActionView),
    Done(Result<(), SaveErrorView>),
}

impl View for DbRenameNext {
    type V = DbRenameNextView;

    open spec fn view(&self) -> DbRenameNextView {
        match self {
            DbRenameNext::Perform(a) => DbRenameNextView::Perform(a@),
            DbRenameNext::Done(r) => DbRenameNextView::Done(
                match r {
                    Ok(()) => Ok(()),
                    Err(e) => Err(e@),
                },
            ),
        }
    }
}

/// Renames the Quantframe database files in a folder (the database and its
/// side files) to Kuantframe names, replacing files that already hold those
/// names. All renames are planned from the listing before the first is made.
pub struct DbRename {
    dir: DataPath,
    plan: Vec<(String, String)>,
    phase: DbRenamePhase,
}

/// What a [`DbRename`] holds.
pub struct DbRenameView {
    pub dir: DataPathView,
    pub plan: Seq<(Seq<char>, Seq<char>)>,
    pub phase: DbRenamePhase,
}

impl View for DbRename {
    type V = DbRenameView;

    closed spec fn view(&self) -> DbRenameView {
        DbRenameView { dir: self.dir@, plan: rename_views(self.plan@), phase: self.phase }
    }
}

/// The file renamed by rename `k`.
pub open spec fn rename_from(s: DbRenameView, k: int) -> DataPathView {
    s.dir.join(s.plan[k].0)
}

/// The new name of rename `k`.
pub open spec fn rename_to(s: DbRenameView, k: int) -> DataPathView {
    s.dir.join(s.plan[k].1)
}

/// The step number of each phase lies within the plan.
pub open spec fn db_rename_inv(s: DbRenameView) -> bool {
    match s.phase {
        DbRenamePhase::ProbeTarget { k } => k < s.plan.len(),
        DbRenamePhase::RemoveTarget { k } => k < s.plan.len(),
        DbRenamePhase::Move { k } => k < s.plan.len(),
        _ => true,
    }
}

/// The event kinds the renaming accepts in each phase.
pub open spec fn db_rename_expects(phase: DbRenamePhase, e: EventView) -> bool {
    match phase {
        DbRenamePhase::List => e is Listed,
        DbRenamePhase::ProbeTarget { .. } => e is Answer,
        DbRenamePhase::RemoveTarget { .. } | DbRenamePhase::Move { .. } => e is Finished,
        DbRenamePhase::Done => false,
    }
}

/// The first action of the renaming.
pub open spec fn db_rename_start(dir: DataPathView) -> (DbRenameView, DbRenameNextView) {
    (
        DbRenameView { dir, plan: Seq::empty(), phase: DbRenamePhase::List },
        DbRenameNextView::Perform(ActionView::ListDir(dir)),
    )
}

/// One step of the renaming.
pub open spec fn db_rename_step(s: DbRenameView, e: EventView) -> (DbRenameView, DbRenameNextView) {
    let listing_failed = |d: Seq<char>| (
        DbRenameView { phase: DbRenamePhase::Done, ..s },
        DbRenameNextView::Done(Err(SaveErrorView::Io { path: s.dir, action: "listing database files"@, detail: d })),
    );
    match (s.phase, e) {
        (DbRenamePhase::List, EventView::Listed(Err(d))) => listing_failed(d),
        (DbRenamePhase::List, EventView::Listed(Ok(entries))) => match db_renames(entries) {
            Err(d) => listing_failed(d),
            Ok(plan) => if plan.len() == 0 {
                (DbRenameView { plan, phase: DbRenamePhase::Done, ..s }, DbRenameNextView::Done(Ok(())))
            } else {
                let t = DbRenameView { plan, phase: DbRenamePhase::ProbeTarget { k: 0 }, ..s };
                (t, DbRenameNextView::Perform(ActionView::Probe(rename_to(t, 0))))
            },
        },
        (DbRenamePhase::ProbeTarget { k }, EventView::Answer(true)) => (
            DbRenameView { phase: DbRenamePhase::RemoveTarget { k }, ..s },
            DbRenameNextView::Perform(ActionView::RemoveFile(rename_to(s, k as int))),
        ),
        (DbRenamePhase::ProbeTarget { k }, EventView::Answer(false)) => (
            DbRenameView { phase: DbRenamePhase::Move { k }, ..s },
            DbRenameNextView::Perform(ActionView::Rename { from: rename_from(s, k as int), to: rename_to(s, k as int) }),
        ),
        (DbRenamePhase::RemoveTarget { k }, EventView::Finished(Err(d))) => (
            DbRenameView { phase: DbRenamePhase::Done, ..s },
            DbRenameNextView::Done(Err(SaveErrorView::Io {
                path: rename_to(s, k as int),
                action: "removing existing database file"@,
                detail: d,
            })),
        ),
        (DbRenamePhase::RemoveTarget { k }, EventView::Finished(Ok(()))) => (
            DbRenameView { phase: DbRenamePhase::Move { k }, ..s },
            DbRenameNextView::Perform(ActionView::Rename { from: rename_from(s, k as int), to: rename_to(s, k as int) }),
        ),
        (DbRenamePhase::Move { k }, EventView::Finished(Err(d))) => (
            DbRenameView { phase: DbRenamePhase::Done, ..s },
            DbRenameNextView::Done(Err(SaveErrorView::Io {
                path: rename_from(s, k as int),
                action: "renaming database file"@,
                detail: d,
            })),
        ),
        (DbRenamePhase::Move { k }, EventView::Finished(Ok(()))) => if k + 1 < s.plan.len() {
            (
                DbRenameView { phase: DbRenamePhase::ProbeTarget { k: (k + 1) as usize }, ..s },
                DbRenameNextView::Perform(ActionView::Probe(rename_to(s, k + 1))),
            )
        } else {
            (DbRenameView { phase: DbRenamePhase::Done, ..s }, DbRenameNextView::Done(Ok(())))
        },
        _ => (s, DbRenameNextView::Done(Ok(()))),
    }
}

impl DbRename {
    #[verifier::type_invariant]
    spec fn steps_in_plan(self) -> bool {
        db_rename_inv(self@)
    }

    /// Starts renaming the database files in `dir`; the first action lists it.
    pub fn start(dir: &DataPath) -> (r: (DbRename, DbRenameNext))
        ensures
            (r.0@, r.1@) == db_rename_start(dir@),
    {
        let plan: Vec<(String, String)> = Vec::new();
        let m = DbRename { dir: dir.duplicate(), plan, phase: DbRenamePhase::List };
        assert(rename_views(m.plan@) =~= Seq::<(Seq<char>, Seq<char>)>::empty());
        (m, DbRenameNext::Perform(Action::ListDir(dir.duplicate())))
    }

    /// Whether the renaming has finished.
    pub fn is_done(&self) -> (r: bool)
        ensures
            r == (self@.phase == DbRenamePhase::Done),
    {
        self.phase == DbRenamePhase::Done
    }

    /// Whether `e` is the kind of report the renaming waits for now.
    pub fn accepts(&self, e: &Event) -> (r: bool)
        ensures
            r == db_rename_expects(self@.phase, e@),
    {
        match (self.phase, e) {
            (DbRenamePhase::List, Event::Listed(_)) => true,
            (DbRenamePhase::ProbeTarget { .. }, Event::Answer(_)) => true,
            (DbRenamePhase::RemoveTarget { .. }, Event::Finished(_)) => true,
            (DbRenamePhase::Move { .. }, Event::Finished(_)) => true,
            _ => false,
        }
    }

    fn target(&self, k: usize) -> (r: DataPath)
        requires
            k < self@.plan.len(),
        ensures
            r@ == rename_to(self@, k as int),
    {
        self.dir.join(self.plan[k].1.as_str())
    }

    fn source(&self, k: usize) -> (r: DataPath)
        requires
            k < self@.plan.len(),
        ensures
            r@ == rename_from(self@, k as int),
    {
        self.dir.join(self.plan[k].0.as_str())
    }

    /// Takes the outcome of the last action and decides what comes next.
    pub fn step(&mut self, e: Event) -> (r: DbRenameNext)
        requires
            db_rename_expects(old(self)@.phase, e@),
        ensures
            (final(self)@, r@) == db_rename_step(old(self)@, e@),
    {
        proof {
            use_type_invariant(&*self);
        }
        match (self.phase, e) {
            (DbRenamePhase::List, Event::Listed(Err(d))) => {
                self.phase = DbRenamePhase::Done;
                DbRenameNext::Done(
                    Err(SaveError::Io { path: self.dir.duplicate(), action: owned("listing database files"), detail: d }),
                )
            },
            (DbRenamePhase::List, Event::Listed(Ok(entries))) => {
                match plan_db_renames(&entries) {
                    Err(d) => {
                        self.phase = DbRenamePhase::Done;
                        DbRenameNext::Done(
                            Err(SaveError::Io {
                                path: self.dir.duplicate(),
                                action: owned("listing database files"),
                                detail: d,
                            }),
                        )
                    },
                    Ok(plan) => {
                        if plan.len() == 0 {
                            self.plan = plan;
                            self.phase = DbRenamePhase::Done;
                            DbRenameNext::Done(Ok(()))
                        } else {
                            self.plan = plan;
                            self.phase = DbRenamePhase::ProbeTarget { k: 0 };
                            DbRenameNext::Perform(Action::Probe(self.target(0)))
                        }
                    },
                }
            },
            (DbRenamePhase::ProbeTarget { k }, Event::Answer(true)) => {
                self.phase = DbRenamePhase::RemoveTarget { k };
                DbRenameNext::Perform(Action::RemoveFile(self.target(k)))
            },
            (DbRenamePhase::ProbeTarget { k }, Event::Answer(false)) => {
                self.phase = DbRenamePhase::Move { k };
                DbRenameNext::Perform(Action::Rename { from: self.source(k), to: self.target(k) })
            },
            (DbRenamePhase::RemoveTarget { k }, Event::Finished(Err(d))) => {
                let path = self.target(k);
                self.phase = DbRenamePhase::Done;
                DbRenameNext::Done(Err(SaveError::Io { path, action: owned("removing existing database file"), detail: d }))
            },
            (DbRenamePhase::RemoveTarget { k }, Event::Finished(Ok(()))) => {
                self.phase = DbRenamePhase::Move { k };
                DbRenameNext::Perform(Action::Rename { from: self.source(k), to: self.target(k) })
            },
            (DbRenamePhase::Move { k }, Event::Finished(Err(d))) => {
                let path = self.source(k);
                self.phase = DbRenamePhase::Done;
                DbRenameNext::Done(Err(SaveError::Io { path, action: owned("renaming database file"), detail: d }))
            },
            (DbRenamePhase::Move { k }, Event::Finished(Ok(()))) => {
                assert(k < rename_views(self.plan@).len());
                if k < self.plan.len() - 1 {
                    self.phase = DbRenamePhase::ProbeTarget { k: k + 1 };
                    DbRenameNext::Perform(Action::Probe(self.target(k + 1)))
                } else {
                    self.phase = DbRenamePhase::Done;
                    DbRenameNext::Done(Ok(()))
                }
            },
            _ => {
                assert(false);
                DbRenameNext::Done(Ok(()))
            },
        }
    }
}

/// Renaming only touches the folder's own database files: every file it
/// removes or moves, and every new name, is a direct entry of the folder; the
/// files moved are Quantframe database files and each gets its Kuantframe name.
pub proof fn law_db_rename_stays_in_folder(s: DbRenameView, e: EventView)
    requires
        db_rename_inv(s),
        db_rename_expects(s.phase, e),
        forall|k: int| 0 <= k < s.plan.len() ==> {
            &&& crate::entries::is_quantframe_db_name((#[trigger] s.plan[k]).0)
            &&& s.plan[k].1 == crate::entries::renamed_db_name(s.plan[k].0)
        },
    ensures
        db_rename_inv(db_rename_step(s, e).0),
        match db_rename_step(s, e).1 {
            DbRenameNextView::Perform(a) => {
                &&& forall|i: int| 0 <= i < action_targets(a).len() ==> exists|name: Seq<char>|
                    #[trigger] action_targets(a)[i] == s.dir.join(name)
                &&& a matches ActionView::Rename { from, to } ==> exists|k: int| 0 <= k < s.plan.len()
                    && from == s.dir.join(#[trigger] s.plan[k].0) && to == s.dir.join(s.plan[k].1)
            },
            DbRenameNextView::Done(_) => true,
        },
{
    match (s.phase, e) {
        (DbRenamePhase::ProbeTarget { k }, EventView::Answer(b)) => {
            let _ = s.plan[k as int];
        },
        (DbRenamePhase::RemoveTarget { k }, EventView::Finished(_)) => {
            let _ = s.plan[k as int];
        },
        _ => {},
    }
}

/// Every rename the plan holds moves a Quantframe database file to its
/// Kuantframe name.
pub proof fn law_db_plan_renames_db_files(entries: Seq<ListedEntryView>)
    ensures
        db_renames(entries) matches Ok(plan) ==> forall|k: int| 0 <= k < plan.len() ==> {
            &&& crate::entries::is_quantframe_db_name((#[trigger] plan[k]).0)
            &&& plan[k].1 == crate::entries::renamed_db_name(plan[k].0)
        },
    decreases entries.len(),
{
    if entries.len() > 0 {
        law_db_plan_renames_db_files(entries.drop_last());
    }
}


/// A folder's direct entries: each name, and whether it is a regular file.
pub type FolderView = Map<Seq<char>, bool>;

/// `es` is a complete listing of the folder `f`: every entry could be read,
/// names an entry of `f` and says rightly whether it is a regular file, and
/// every entry of `f` is listed.
pub open spec fn lists(es: Seq<ListedEntryView>, f: FolderView) -> bool {
    &&& forall|j: int| 0 <= j < es.len() ==> (#[trigger] es[j] matches ListedEntryView::Read { name, is_file, .. }
        && f.contains_key(name) && f[name] == is_file)
    &&& forall|n: Seq<char>| f.contains_key(n) ==> exists|j: int| 0 <= j < es.len()
        && (#[trigger] es[j] matches ListedEntryView::Read { name, .. } && name == n)
}

/// The folder `f` after the renames of `plan` were made in order: the new name
/// is a regular file (replacing what held it) and the old name is gone.
pub open spec fn after_renames(f: FolderView, plan: Seq<(Seq<char>, Seq<char>)>) -> FolderView
    decreases plan.len(),
{
    if plan.len() == 0 {
        f
    } else {
        after_renames(f, plan.drop_last()).remove(plan.last().0).insert(plan.last().1, true)
    }
}

/// A Kuantframe name never starts with the Quantframe stem.
proof fn lemma_renamed_is_not_db_name(name: Seq<char>)
    ensures
        !is_quantframe_db_name(renamed_db_name(name)),
{
    assert(QUANTFRAME_DB_STEM == "quantframeV2");
    assert(KUANTFRAME_DB_STEM == "kuantframeV2");
    reveal_strlit("quantframeV2");
    reveal_strlit("kuantframeV2");
    let r = renamed_db_name(name);
    if is_quantframe_db_name(r) {
        assert(r.subrange(0, QUANTFRAME_DB_STEM@.len() as int)[0] == r[0]);
        assert(r[0] == 'k');
    }
}

/// Every Quantframe database file a listing shows is renamed by the plan.
pub(crate) proof fn lemma_plan_covers(es: Seq<ListedEntryView>)
    ensures
        db_renames(es) matches Ok(plan) ==> forall|j: int| 0 <= j < es.len()
            && (#[trigger] es[j] matches ListedEntryView::Read { name, is_file, .. } && is_file
            && is_quantframe_db_name(name)) ==> exists|k: int| 0 <= k < plan.len() && (#[trigger] plan[k]).0
            == es[j]->Read_name,
    decreases es.len(),
{
    if es.len() > 0 {
        lemma_plan_covers(es.drop_last());
        if let Ok(plan) = db_renames(es) {
            let rest = db_renames(es.drop_last())->Ok_0;
            assert forall|j: int| 0 <= j < es.len()
                && (#[trigger] es[j] matches ListedEntryView::Read { name, is_file, .. } && is_file
                && is_quantframe_db_name(name)) implies exists|k: int| 0 <= k < plan.len() && (#[trigger] plan[k]).0
                == es[j]->Read_name by {
                if j < es.len() - 1 {
                    assert(es.drop_last()[j] == es[j]);
                    let k = choose|k: int| 0 <= k < rest.len() && (#[trigger] rest[k]).0 == es.drop_last()[j]->Read_name;
                    assert(plan[k] == rest[k]);
                } else {
                    assert(plan[plan.len() - 1].0 == es[j]->Read_name);
                }
            }
        }
    }
}

/// After the renames, a regular file named like a Quantframe database file was
/// already one before and was not renamed.
proof fn lemma_after_renames_keeps_only_unplanned(f: FolderView, plan: Seq<(Seq<char>, Seq<char>)>, n: Seq<char>)
    requires
        forall|k: int| 0 <= k < plan.len() ==> (#[trigger] plan[k]).1 == renamed_db_name(plan[k].0),
        after_renames(f, plan).contains_key(n),
        after_renames(f, plan)[n],
        is_quantframe_db_name(n),
    ensures
        f.contains_key(n),
        f[n],
        forall|k: int| 0 <= k < plan.len() ==> (#[trigger] plan[k]).0 != n,
    decreases plan.len(),
{
    if plan.len() > 0 {
        let last = plan.last();
        lemma_renamed_is_not_db_name(last.0);
        assert(last.1 != n);
        assert forall|k: int| 0 <= k < plan.drop_last().len() implies (#[trigger] plan.drop_last()[k]).1
            == renamed_db_name(plan.drop_last()[k].0) by {
            assert(plan.drop_last()[k] == plan[k]);
        }
        lemma_after_renames_keeps_only_unplanned(f, plan.drop_last(), n);
        assert forall|k: int| 0 <= k < plan.len() implies (#[trigger] plan[k]).0 != n by {
            if k < plan.len() - 1 {
                assert(plan.drop_last()[k] == plan[k]);
            }
        }
    }
}

/// A complete listing with no Quantframe database file plans nothing.
proof fn lemma_no_db_files_plans_nothing(es: Seq<ListedEntryView>)
    requires
        forall|j: int| 0 <= j < es.len() ==> (#[trigger] es[j] matches ListedEntryView::Read { name, is_file, .. }
            && !(is_file && is_quantframe_db_name(name))),
    ensures
        db_renames(es) == Ok::<Seq<(Seq<char>, Seq<char>)>, Seq<char>>(Seq::empty()),
    decreases es.len(),
{
    if es.len() > 0 {
        assert forall|j: int| 0 <= j < es.drop_last().len() implies (#[trigger] es.drop_last()[j]
            matches ListedEntryView::Read { name, is_file, .. } && !(is_file && is_quantframe_db_name(name))) by {
            assert(es.drop_last()[j] == es[j]);
        }
        lemma_no_db_files_plans_nothing(es.drop_last());
        assert(es.last() == es[es.len() - 1]);
    }
}

/// Renaming twice changes nothing the second time: once the renames planned
/// from a complete listing of a folder were made, a complete listing of the
/// folder shows no Quantframe database file, so a second renaming plans
/// nothing and ends with success right after the listing, without any action.
pub proof fn law_db_rename_second_run_changes_nothing(
    f: FolderView,
    es: Seq<ListedEntryView>,
    es2: Seq<ListedEntryView>,
    dir: DataPathView,
)
    requires
        lists(es, f),
        db_renames(es) is Ok,
        lists(es2, after_renames(f, db_renames(es)->Ok_0)),
    ensures
        db_renames(es2) == Ok::<Seq<(Seq<char>, Seq<char>)>, Seq<char>>(Seq::empty()),
        db_rename_step(db_rename_start(dir).0, EventView::Listed(Ok(es2))).1 == DbRenameNextView::Done(Ok(())),
{
    let plan = db_renames(es)->Ok_0;
    let g = after_renames(f, plan);
    law_db_plan_renames_db_files(es);
    lemma_plan_covers(es);
    assert forall|j: int| 0 <= j < es2.len() implies (#[trigger] es2[j]
        matches ListedEntryView::Read { name, is_file, .. } && !(is_file && is_quantframe_db_name(name))) by {
        if let ListedEntryView::Read { name, is_file, .. } = es2[j] {
            if is_file && is_quantframe_db_name(name) {
                lemma_after_renames_keeps_only_unplanned(f, plan, name);
                let i = choose|i: int| 0 <= i < es.len()
                    && (#[trigger] es[i] matches ListedEntryView::Read { name: m, .. } && m == name);
                assert(es[i] matches ListedEntryView::Read { is_file: true, .. });
                let k = choose|k: int| 0 <= k < plan.len() && (#[trigger] plan[k]).0 == es[i]->Read_name;
                assert(plan[k].0 != name);
            }
        }
    }
    lemma_no_db_files_plans_nothing(es2);
}

} // verus!
