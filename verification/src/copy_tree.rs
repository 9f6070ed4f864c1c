//! Copying a folder and everything below it, leaving out the embedded
//! browser's data folder at any depth.
use vstd::prelude::*;
use crate::entries::{ListedEntry, ListedEntryView, listed_views, should_skip, skipped};
use crate::paths::{DataPath, DataPathView};
use crate::text::owned;
use crate::transfer::{Action, ActionView, Event, EventView, SaveError, SaveErrorView, action_targets};

verus! {

/// A folder being copied: its entries still to visit start at `pos`.
pub struct CopyFrame {
    from: DataPath,
    to: DataPath,
    entries: Vec<ListedEntry>,
    pos: usize,
}

/// What a [`CopyFrame`] holds.
pub struct FrameView {
    pub from: DataPathView,
    pub to: DataPathView,
    pub entries: Seq<ListedEntryView>,
    pub pos: int,
}

impl View for CopyFrame {
    type V = FrameView;

    closed spec fn view(&self) -> FrameView {
        FrameView { from: self.from@, to: self.to@, entries: listed_views(self.entries@), pos: self.pos as int }
    }
}

/// The views of the folders being copied, outermost first.
pub open spec fn frame_views(v: Seq<CopyFrame>) -> Seq<FrameView> {
    v.map_values(|f: CopyFrame| f@)
}

/// Where the copy stands.
#[derive(PartialEq, Eq, Structural, Clone, Copy, Debug)]
pub enum CopyPhase {
    /// Waits for the folder `cur_to` to be created.
    CreateDir,
    /// Waits for the listing of the folder `cur_from`.
    List,
    /// Waits for the folder that will hold the file `cur_to` to be created.
    CreateParent,
    /// Waits for the file `cur_from` to be copied to `cur_to`.
    CopyFile,
    /// Finished.
    Done,
}

/// What the copy does next.
#[derive(Debug)]
pub enum CopyNext {
    /// Perform the action and report its outcome.
    Perform(Action),
    /// The copy is over.
    Done(Result<(), SaveError>),
}

/// What a [`CopyNext`] holds.
pub enum CopyNextView {
    Perform(ActionView),
    Done(Result<(), SaveErrorView>),
}

impl View for CopyNext {
    type V = CopyNextView;

    open spec fn view(&self) -> CopyNextView {
        match self {
            CopyNext::Perform(a) => CopyNextView::Perform(a@),
            CopyNext::Done(r) => CopyNextView::Done(
                match r {
                    Ok(()) => Ok(()),
                    Err(e) => Err(e@),
                },
            ),
        }
    }
}

/// Copies a folder and everything below it, depth first in listing order,
/// leaving out every entry named like the embedded browser's data folder.
pub struct CopyTree {
    root_from: DataPath,
    root_to: DataPath,
    frames: Vec<CopyFrame>,
    cur_from: DataPath,
    cur_to: DataPath,
    phase: CopyPhase,
}

/// What a [`CopyTree`] holds.
pub struct CopyTreeView {
    pub root_from: DataPathView,
    pub root_to: DataPathView,
    pub frames: Seq<FrameView>,
    pub cur_from: DataPathView,
    pub cur_to: DataPathView,
    pub phase: CopyPhase,
}

impl View for CopyTree {
    type V = CopyTreeView;

    closed spec fn view(&self) -> CopyTreeView {
        CopyTreeView {
            root_from: self.root_from@,
            root_to: self.root_to@,
            frames: frame_views(self.frames@),
            cur_from: self.cur_from@,
            cur_to: self.cur_to@,
            phase: self.phase,
        }
    }
}

/// The listing without the entries a copy leaves out.
pub open spec fn kept_entries(es: Seq<ListedEntryView>) -> Seq<ListedEntryView>
    decreases es.len(),
{
    if es.len() == 0 {
        Seq::empty()
    } else {
        let rest = kept_entries(es.drop_last());
        match es.last() {
            ListedEntryView::Read { name, .. } => if skipped(name) {
                rest
            } else {
                rest.push(es.last())
            },
            ListedEntryView::Unreadable(_) => rest.push(es.last()),
        }
    }
}

/// The folders still being copied, once those with nothing left to visit are
/// closed.
pub open spec fn pop_exhausted(fs: Seq<FrameView>) -> Seq<FrameView>
    decreases fs.len(),
{
    if fs.len() > 0 && fs.last().pos >= fs.last().entries.len() {
        pop_exhausted(fs.drop_last())
    } else {
        fs
    }
}

/// Moves on to the next entry to copy, or finishes when none is left.
pub open spec fn copy_advance(s: CopyTreeView) -> (CopyTreeView, CopyNextView) {
    let fs = pop_exhausted(s.frames);
    if fs.len() == 0 {
        (CopyTreeView { frames: fs, phase: CopyPhase::Done, ..s }, CopyNextView::Done(Ok(())))
    } else {
        let top = fs.last();
        let fs2 = fs.update(fs.len() - 1, FrameView { pos: top.pos + 1, ..top });
        match top.entries[top.pos] {
            ListedEntryView::Unreadable(d) => (
                CopyTreeView { frames: fs2, phase: CopyPhase::Done, ..s },
                CopyNextView::Done(Err(SaveErrorView::Io { path: top.from, action: "reading Quantframe data"@, detail: d })),
            ),
            ListedEntryView::Read { name, is_dir: Err(d), .. } => (
                CopyTreeView { frames: fs2, phase: CopyPhase::Done, ..s },
                CopyNextView::Done(Err(SaveErrorView::Io {
                    path: top.from.join(name),
                    action: "reading Quantframe entry type"@,
                    detail: d,
                })),
            ),
            ListedEntryView::Read { name, is_dir: Ok(true), .. } => (
                CopyTreeView {
                    frames: fs2,
                    cur_from: top.from.join(name),
                    cur_to: top.to.join(name),
                    phase: CopyPhase::CreateDir,
                    ..s
                },
                CopyNextView::Perform(ActionView::CreateDirAll(top.to.join(name))),
            ),
            ListedEntryView::Read { name, is_dir: Ok(false), .. } => (
                CopyTreeView {
                    frames: fs2,
                    cur_from: top.from.join(name),
                    cur_to: top.to.join(name),
                    phase: CopyPhase::CreateParent,
                    ..s
                },
                CopyNextView::Perform(ActionView::CreateDirAll(top.to)),
            ),
        }
    }
}

/// The first action of the copy.
pub open spec fn copy_start(from: DataPathView, to: DataPathView) -> (CopyTreeView, CopyNextView) {
    (
        CopyTreeView {
            root_from: from,
            root_to: to,
            frames: Seq::empty(),
            cur_from: from,
            cur_to: to,
            phase: CopyPhase::CreateDir,
        },
        CopyNextView::Perform(ActionView::CreateDirAll(to)),
    )
}

/// One step of the copy.
pub open spec fn copy_step(s: CopyTreeView, e: EventView) -> (CopyTreeView, CopyNextView) {
    let fail = |err: SaveErrorView| (CopyTreeView { phase: CopyPhase::Done, ..s }, CopyNextView::Done(Err(err)));
    match (s.phase, e) {
        (CopyPhase::CreateDir, EventView::Finished(Err(d))) => fail(
            SaveErrorView::Io { path: s.cur_to, action: "creating destination folder"@, detail: d },
        ),
        (CopyPhase::CreateDir, EventView::Finished(Ok(()))) => (
            CopyTreeView { phase: CopyPhase::List, ..s },
            CopyNextView::Perform(ActionView::ListDir(s.cur_from)),
        ),
        (CopyPhase::List, EventView::Listed(Err(d))) => fail(
            SaveErrorView::Io {
                path: s.cur_from,
                action: "reading Quantframe data (close Quantframe if it is running)"@,
                detail: d,
            },
        ),
        (CopyPhase::List, EventView::Listed(Ok(es))) => copy_advance(
            CopyTreeView {
                frames: s.frames.push(FrameView { from: s.cur_from, to: s.cur_to, entries: kept_entries(es), pos: 0 }),
                ..s
            },
        ),
        (CopyPhase::CreateParent, EventView::Finished(Err(d))) => fail(
            SaveErrorView::Io { path: s.frames.last().to, action: "creating destination folder"@, detail: d },
        ),
        (CopyPhase::CreateParent, EventView::Finished(Ok(()))) => (
            CopyTreeView { phase: CopyPhase::CopyFile, ..s },
            CopyNextView::Perform(ActionView::CopyFile { from: s.cur_from, to: s.cur_to }),
        ),
        (CopyPhase::CopyFile, EventView::Finished(Err(d))) => fail(
            SaveErrorView::CopyFailed { from: s.cur_from, detail: d },
        ),
        (CopyPhase::CopyFile, EventView::Finished(Ok(()))) => copy_advance(s),
        _ => (s, CopyNextView::Done(Ok(()))),
    }
}

/// The event kinds the copy accepts in each phase.
pub open spec fn copy_expects(phase: CopyPhase, e: EventView) -> bool {
    match phase {
        CopyPhase::List => e is Listed,
        CopyPhase::Done => false,
        _ => e is Finished,
    }
}

/// The shape the copy keeps: every folder being copied has at most its entries
/// visited, and a file is only handled while its folder is open.
pub open spec fn copy_inv(s: CopyTreeView) -> bool {
    &&& forall|i: int| 0 <= i < s.frames.len() ==> 0 <= (#[trigger] s.frames[i]).pos <= s.frames[i].entries.len()
    &&& (s.phase == CopyPhase::CreateParent || s.phase == CopyPhase::CopyFile) ==> s.frames.len() > 0
}

fn duplicate_entry(e: &ListedEntry) -> (r: ListedEntry)
    ensures
        r@ == e@,
{
    match e {
        ListedEntry::Read { name, is_dir, is_file } => ListedEntry::Read {
            name: name.clone(),
            is_dir: match is_dir {
                Ok(b) => Ok(*b),
                Err(d) => Err(d.clone()),
            },
            is_file: *is_file,
        },
        ListedEntry::Unreadable(d) => ListedEntry::Unreadable(d.clone()),
    }
}

fn keep_entries(es: &Vec<ListedEntry>) -> (r: Vec<ListedEntry>)
    ensures
        listed_views(r@) == kept_entries(listed_views(es@)),
{
    let mut r: Vec<ListedEntry> = Vec::new();
    let mut i: usize = 0;
    assert(listed_views(r@) =~= Seq::<ListedEntryView>::empty());
    assert(listed_views(es@).take(0) =~= Seq::<ListedEntryView>::empty());
    while i < es.len()
        invariant
            i <= es.len(),
            listed_views(r@) == kept_entries(listed_views(es@).take(i as int)),
        decreases es.len() - i,
    {
        let ghost before = r@;
        let ghost vs = listed_views(es@);
        proof {
            assert(vs.take(i + 1).drop_last() =~= vs.take(i as int));
            assert(vs.take(i + 1).last() == es@[i as int]@);
        }
        let keep = match &es[i] {
            ListedEntry::Read { name, .. } => !should_skip(name.as_str()),
            ListedEntry::Unreadable(_) => true,
        };
        if keep {
            let d = duplicate_entry(&es[i]);
            r.push(d);
            assert(listed_views(r@) =~= listed_views(before).push(es@[i as int]@));
        }
        i = i + 1;
    }
    assert(listed_views(es@).take(es.len() as int) =~= listed_views(es@));
    r
}

impl CopyTree {
    /// Every folder being copied has at most its entries visited, and a file is
    /// only handled while its folder is open.
    #[verifier::type_invariant]
    spec fn keeps_shape(self) -> bool {
        &&& forall|i: int| 0 <= i < self.frames@.len()
            ==> (#[trigger] self.frames@[i]).pos <= self.frames@[i].entries@.len()
        &&& (self.phase == CopyPhase::CreateParent || self.phase == CopyPhase::CopyFile) ==> self.frames@.len() > 0
    }

    /// Starts copying the folder `from` into `to`; the first action creates `to`.
    pub fn start(from: &DataPath, to: &DataPath) -> (r: (CopyTree, CopyNext))
        ensures
            (r.0@, r.1@) == copy_start(from@, to@),
    {
        let frames: Vec<CopyFrame> = Vec::new();
        let m = CopyTree {
            root_from: from.duplicate(),
            root_to: to.duplicate(),
            frames,
            cur_from: from.duplicate(),
            cur_to: to.duplicate(),
            phase: CopyPhase::CreateDir,
        };
        assert(frame_views(m.frames@) =~= Seq::<FrameView>::empty());
        (m, CopyNext::Perform(Action::CreateDirAll(to.duplicate())))
    }

    /// Whether the copy has finished.
    pub fn is_done(&self) -> (r: bool)
        ensures
            r == (self@.phase == CopyPhase::Done),
    {
        self.phase == CopyPhase::Done
    }

    /// Whether `e` is the kind of report the copy waits for now.
    pub fn accepts(&self, e: &Event) -> (r: bool)
        ensures
            r == copy_expects(self@.phase, e@),
    {
        match (self.phase, e) {
            (CopyPhase::List, Event::Listed(_)) => true,
            (CopyPhase::List, _) => false,
            (CopyPhase::Done, _) => false,
            (_, Event::Finished(_)) => true,
            _ => false,
        }
    }

    /// Moves on from the folders `frames` (this copy's, with `frame` pushed
    /// when it is given) to the next entry to copy.
    fn advance(&mut self, frame: Option<CopyFrame>) -> (r: CopyNext)
        requires
            frame matches Some(f) ==> f@.pos == 0,
        ensures
            (final(self)@, r@) == copy_advance(
                match frame {
                    Some(f) => CopyTreeView { frames: old(self)@.frames.push(f@), ..old(self)@ },
                    None => old(self)@,
                },
            ),
    {
        proof {
            use_type_invariant(&*self);
            assert forall|i: int| 0 <= i < self@.frames.len() implies 0 <= (#[trigger] self@.frames[i]).pos
                <= self@.frames[i].entries.len() by {
                assert(self@.frames[i] == self.frames@[i]@);
            }
        }
        let ghost s0 = match &frame {
            Some(f) => CopyTreeView { frames: self@.frames.push(f@), ..self@ },
            None => self@,
        };
        self.phase = CopyPhase::Done;
        let mut frames: Vec<CopyFrame> = Vec::new();
        std::mem::swap(&mut frames, &mut self.frames);
        assert(frame_views(self.frames@) =~= Seq::<FrameView>::empty());
        match frame {
            Some(f) => {
                let ghost before = frames@;
                frames.push(f);
                assert(frame_views(frames@) =~= frame_views(before).push(f@));
            },
            None => {},
        }
        assert(frame_views(frames@) == s0.frames);
        assert forall|i: int| 0 <= i < s0.frames.len() implies 0 <= (#[trigger] s0.frames[i]).pos
            <= s0.frames[i].entries.len() by {
            if i < old(self)@.frames.len() {
                assert(s0.frames[i] == old(self)@.frames[i]);
            }
        }
        while frames.len() > 0 && frames[frames.len() - 1].pos >= frames[frames.len() - 1].entries.len()
            invariant
                pop_exhausted(frame_views(frames@)) == pop_exhausted(s0.frames),
                self@ == (CopyTreeView { frames: Seq::empty(), phase: CopyPhase::Done, ..s0 }),
                forall|i: int| 0 <= i < s0.frames.len() ==> 0 <= (#[trigger] s0.frames[i]).pos <= s0.frames[i].entries.len(),
                forall|i: int| 0 <= i < frames@.len() ==> frame_views(frames@)[i] == s0.frames[i],
                frames@.len() <= s0.frames.len(),
            decreases frames@.len(),
        {
            let ghost before = frames@;
            let _ = frames.pop();
            proof {
                assert(frame_views(frames@) =~= frame_views(before).drop_last());
            }
        }
        assert(pop_exhausted(frame_views(frames@)) == frame_views(frames@));
        if frames.len() == 0 {
            self.frames = frames;
            return CopyNext::Done(Ok(()));
        }
        let ghost fs = frame_views(frames@);
        let mut top = frames.pop().unwrap();
        assert(fs.last() == top@);
        assert(0 <= fs.len() - 1 < s0.frames.len());
        assert(fs[fs.len() - 1] == s0.frames[fs.len() - 1]);
        let pos = top.pos;
        // Read what is needed of the entry before the frame goes back on the stack.
        let (unreadable, name, kind): (Option<String>, String, Result<bool, String>) = match &top.entries[pos] {
            ListedEntry::Unreadable(d) => (Some(d.clone()), owned(""), Ok(false)),
            ListedEntry::Read { name, is_dir, .. } => (
                None,
                name.clone(),
                match is_dir {
                    Ok(b) => Ok(*b),
                    Err(d) => Err(d.clone()),
                },
            ),
        };
        let from = top.from.duplicate();
        let to = top.to.duplicate();
        top.pos = pos + 1;
        frames.push(top);
        proof {
            assert(frame_views(frames@) =~= fs.update(fs.len() - 1, FrameView { pos: pos + 1, ..fs.last() }));
            assert forall|i: int| 0 <= i < frames@.len() implies
                (#[trigger] frames@[i]).pos <= frames@[i].entries@.len() by {
                assert(frame_views(frames@)[i] == frames@[i]@);
                if i < fs.len() - 1 {
                    assert(frame_views(frames@)[i] == s0.frames[i]);
                }
            }
        }
        self.frames = frames;
        match unreadable {
            Some(d) => {
                CopyNext::Done(Err(SaveError::Io { path: from, action: owned("reading Quantframe data"), detail: d }))
            },
            None => {
                match kind {
                    Err(d) => {
                        let path = from.join(name.as_str());
                        CopyNext::Done(
                            Err(SaveError::Io { path, action: owned("reading Quantframe entry type"), detail: d }),
                        )
                    },
                    Ok(true) => {
                        self.cur_from = from.join(name.as_str());
                        self.cur_to = to.join(name.as_str());
                        self.phase = CopyPhase::CreateDir;
                        CopyNext::Perform(Action::CreateDirAll(to.join(name.as_str())))
                    },
                    Ok(false) => {
                        self.cur_from = from.join(name.as_str());
                        self.cur_to = to.join(name.as_str());
                        self.phase = CopyPhase::CreateParent;
                        CopyNext::Perform(Action::CreateDirAll(to))
                    },
                }
            },
        }
    }

    /// Takes the outcome of the last action and decides what comes next.
    pub fn step(&mut self, e: Event) -> (r: CopyNext)
        requires
            copy_expects(old(self)@.phase, e@),
        ensures
            (final(self)@, r@) == copy_step(old(self)@, e@),
    {
        proof {
            use_type_invariant(&*self);
        }
        match (self.phase, e) {
            (CopyPhase::CreateDir, Event::Finished(Err(d))) => {
                self.phase = CopyPhase::Done;
                CopyNext::Done(
                    Err(SaveError::Io { path: self.cur_to.duplicate(), action: owned("creating destination folder"), detail: d }),
                )
            },
            (CopyPhase::CreateDir, Event::Finished(Ok(()))) => {
                self.phase = CopyPhase::List;
                CopyNext::Perform(Action::ListDir(self.cur_from.duplicate()))
            },
            (CopyPhase::List, Event::Listed(Err(d))) => {
                self.phase = CopyPhase::Done;
                CopyNext::Done(
                    Err(SaveError::Io {
                        path: self.cur_from.duplicate(),
                        action: owned("reading Quantframe data (close Quantframe if it is running)"),
                        detail: d,
                    }),
                )
            },
            (CopyPhase::List, Event::Listed(Ok(es))) => {
                let entries = keep_entries(&es);
                let frame = CopyFrame {
                    from: self.cur_from.duplicate(),
                    to: self.cur_to.duplicate(),
                    entries,
                    pos: 0,
                };
                self.advance(Some(frame))
            },
            (CopyPhase::CreateParent, Event::Finished(Err(d))) => {
                let last = self.frames.len() - 1;
                let path = self.frames[last].to.duplicate();
                assert(frame_views(self.frames@)[last as int] == self.frames@[last as int]@);
                self.phase = CopyPhase::Done;
                CopyNext::Done(Err(SaveError::Io { path, action: owned("creating destination folder"), detail: d }))
            },
            (CopyPhase::CreateParent, Event::Finished(Ok(()))) => {
                self.phase = CopyPhase::CopyFile;
                CopyNext::Perform(Action::CopyFile { from: self.cur_from.duplicate(), to: self.cur_to.duplicate() })
            },
            (CopyPhase::CopyFile, Event::Finished(Err(d))) => {
                self.phase = CopyPhase::Done;
                CopyNext::Done(Err(SaveError::CopyFailed { from: self.cur_from.duplicate(), detail: d }))
            },
            (CopyPhase::CopyFile, Event::Finished(Ok(()))) => self.advance(None),
            _ => {
                assert(false);
                CopyNext::Done(Ok(()))
            },
        }
    }
}


/// `p` lies at or below `root`, and none of the components below `root` is
/// one a copy leaves out.
pub open spec fn clean_below(p: DataPathView, root: DataPathView) -> bool {
    &&& p.is_within(root)
    &&& forall|k: int| root.parts.len() <= k < p.parts.len() ==> !skipped(#[trigger] p.parts[k])
}

/// The copy reads only clean paths below the source and writes only clean paths
/// below the destination: every folder it holds is such a path, and no entry
/// still to visit is one it leaves out.
pub open spec fn copy_safe(s: CopyTreeView) -> bool {
    &&& copy_inv(s)
    &&& forall|i: int| 0 <= i < s.frames.len() ==> {
        &&& clean_below((#[trigger] s.frames[i]).from, s.root_from)
        &&& clean_below(s.frames[i].to, s.root_to)
        &&& forall|j: int| 0 <= j < s.frames[i].entries.len() ==>
            (#[trigger] s.frames[i].entries[j] matches ListedEntryView::Read { name, .. } ==> !skipped(name))
    }
    &&& s.phase != CopyPhase::Done ==> clean_below(s.cur_from, s.root_from) && clean_below(s.cur_to, s.root_to)
}

proof fn lemma_clean_root(root: DataPathView)
    ensures
        clean_below(root, root),
{
    assert(root.parts.subrange(0, root.parts.len() as int) =~= root.parts);
}

proof fn lemma_clean_join(p: DataPathView, root: DataPathView, name: Seq<char>)
    requires
        clean_below(p, root),
        !skipped(name),
    ensures
        clean_below(p.join(name), root),
{
    let q = p.join(name);
    assert(q.parts.subrange(0, root.parts.len() as int) =~= p.parts.subrange(0, root.parts.len() as int));
    assert forall|k: int| root.parts.len() <= k < q.parts.len() implies !skipped(#[trigger] q.parts[k]) by {
        if k < p.parts.len() {
            assert(q.parts[k] == p.parts[k]);
        }
    }
}

pub(crate) proof fn lemma_pop_exhausted_prefix(fs: Seq<FrameView>)
    ensures
        pop_exhausted(fs).len() <= fs.len(),
        forall|i: int| 0 <= i < pop_exhausted(fs).len() ==> #[trigger] pop_exhausted(fs)[i] == fs[i],
        pop_exhausted(fs).len() > 0 ==> pop_exhausted(fs).last().pos < pop_exhausted(fs).last().entries.len(),
    decreases fs.len(),
{
    if fs.len() > 0 && fs.last().pos >= fs.last().entries.len() {
        lemma_pop_exhausted_prefix(fs.drop_last());
    }
}

proof fn lemma_kept_not_skipped(es: Seq<ListedEntryView>)
    ensures
        forall|j: int| 0 <= j < kept_entries(es).len() ==>
            (#[trigger] kept_entries(es)[j] matches ListedEntryView::Read { name, .. } ==> !skipped(name)),
    decreases es.len(),
{
    if es.len() > 0 {
        lemma_kept_not_skipped(es.drop_last());
    }
}

proof fn lemma_advance_safe(s: CopyTreeView)
    requires
        copy_safe(s),
    ensures
        copy_safe(copy_advance(s).0),
        copy_advance(s).0.root_from == s.root_from,
        copy_advance(s).0.root_to == s.root_to,
        match copy_advance(s).1 {
            CopyNextView::Perform(a) => a matches ActionView::CreateDirAll(p) && clean_below(p, s.root_to),
            CopyNextView::Done(_) => true,
        },
{
    let fs = pop_exhausted(s.frames);
    lemma_pop_exhausted_prefix(s.frames);
    if fs.len() > 0 {
        let top = fs.last();
        let n = fs.len() - 1;
        assert(top == s.frames[n]);
        let fs2 = fs.update(n, FrameView { pos: top.pos + 1, ..top });
        let t = copy_advance(s).0;
        assert forall|i: int| 0 <= i < fs2.len() implies fs2[i].entries == s.frames[i].entries
            && fs2[i].from == s.frames[i].from && fs2[i].to == s.frames[i].to by {
            if i < n {
                assert(fs[i] == s.frames[i]);
            }
        }
        match top.entries[top.pos] {
            ListedEntryView::Read { name, is_dir: Ok(_), .. } => {
                assert(!skipped(name));
                lemma_clean_join(top.from, s.root_from, name);
                lemma_clean_join(top.to, s.root_to, name);
            },
            _ => {},
        }
        assert forall|i: int| 0 <= i < t.frames.len() implies 0 <= (#[trigger] t.frames[i]).pos
            <= t.frames[i].entries.len() by {
            if i < n {
                assert(fs[i] == s.frames[i]);
            }
        }
    }
}

/// The copy once the listing `es` of the current folder is pushed as a new
/// folder to visit.
pub open spec fn pushed_listing(s: CopyTreeView, es: Seq<ListedEntryView>) -> CopyTreeView {
    CopyTreeView {
        frames: s.frames.push(FrameView { from: s.cur_from, to: s.cur_to, entries: kept_entries(es), pos: 0 }),
        ..s
    }
}

proof fn lemma_push_listing(s: CopyTreeView, es: Seq<ListedEntryView>)
    requires
        copy_safe(s),
        s.phase == CopyPhase::List,
    ensures
        copy_safe(pushed_listing(s, es)),
        copy_mirrored(s) ==> copy_mirrored(pushed_listing(s, es)),
{
    lemma_kept_not_skipped(es);
    let t = pushed_listing(s, es);
    assert forall|i: int| 0 <= i < s.frames.len() implies t.frames[i] == s.frames[i] by {}
}

/// The copy starts in a safe state, and every step keeps it safe.
pub proof fn law_copy_stays_safe(s: CopyTreeView, e: EventView)
    requires
        copy_safe(s),
        copy_expects(s.phase, e),
    ensures
        copy_safe(copy_step(s, e).0),
        copy_step(s, e).0.root_from == s.root_from,
        copy_step(s, e).0.root_to == s.root_to,
{
    match (s.phase, e) {
        (CopyPhase::List, EventView::Listed(Ok(es))) => {
            lemma_push_listing(s, es);
            lemma_advance_safe(pushed_listing(s, es));
        },
        (CopyPhase::CopyFile, EventView::Finished(Ok(()))) => {
            lemma_advance_safe(s);
        },
        _ => {},
    }
}

/// The start of a copy is safe.
pub proof fn law_copy_start_safe(from: DataPathView, to: DataPathView)
    ensures
        copy_safe(copy_start(from, to).0),
{
    lemma_clean_root(from);
    lemma_clean_root(to);
}

/// A safe copy leaves out the embedded browser's data at any depth and writes
/// only below the destination: every path an action creates, changes or
/// removes is a clean path below the destination, and every folder listed or
/// file copied from is a clean path below the source.
pub proof fn law_copy_skips_and_stays_inside(s: CopyTreeView, e: EventView)
    requires
        copy_safe(s),
        copy_expects(s.phase, e),
    ensures
        match copy_step(s, e).1 {
            CopyNextView::Perform(a) => {
                &&& forall|i: int| 0 <= i < action_targets(a).len()
                    ==> clean_below(#[trigger] action_targets(a)[i], s.root_to)
                &&& a matches ActionView::ListDir(p) ==> clean_below(p, s.root_from)
                &&& a matches ActionView::CopyFile { from, to } ==> clean_below(from, s.root_from)
            },
            CopyNextView::Done(_) => true,
        },
{
    match (s.phase, e) {
        (CopyPhase::List, EventView::Listed(Ok(es))) => {
            lemma_push_listing(s, es);
            lemma_advance_safe(pushed_listing(s, es));
        },
        (CopyPhase::CopyFile, EventView::Finished(Ok(()))) => {
            lemma_advance_safe(s);
        },
        _ => {},
    }
}


/// The components of `p` below `root`.
pub open spec fn relative(p: DataPathView, root: DataPathView) -> Seq<Seq<char>> {
    p.parts.subrange(root.parts.len() as int, p.parts.len() as int)
}

/// `from` below the source and `to` below the destination name the same
/// relative place.
pub open spec fn mirrors(s: CopyTreeView, from: DataPathView, to: DataPathView) -> bool {
    &&& clean_below(from, s.root_from)
    &&& clean_below(to, s.root_to)
    &&& relative(from, s.root_from) == relative(to, s.root_to)
}

/// A safe copy in which every folder being copied, and the current item, sits
/// at the same relative place below the source and the destination.
pub open spec fn copy_mirrored(s: CopyTreeView) -> bool {
    &&& copy_safe(s)
    &&& forall|i: int| 0 <= i < s.frames.len() ==> mirrors(s, (#[trigger] s.frames[i]).from, s.frames[i].to)
    &&& s.phase != CopyPhase::Done ==> mirrors(s, s.cur_from, s.cur_to)
}

proof fn lemma_mirror_join(s: CopyTreeView, from: DataPathView, to: DataPathView, name: Seq<char>)
    requires
        mirrors(s, from, to),
        !skipped(name),
    ensures
        mirrors(s, from.join(name), to.join(name)),
{
    lemma_clean_join(from, s.root_from, name);
    lemma_clean_join(to, s.root_to, name);
    assert(relative(from.join(name), s.root_from) =~= relative(from, s.root_from).push(name));
    assert(relative(to.join(name), s.root_to) =~= relative(to, s.root_to).push(name));
}

proof fn lemma_pop_exhausted_all(fs: Seq<FrameView>)
    ensures
        pop_exhausted(fs).len() == 0 ==> forall|i: int| 0 <= i < fs.len() ==> (#[trigger] fs[i]).pos
            >= fs[i].entries.len(),
    decreases fs.len(),
{
    if fs.len() > 0 && fs.last().pos >= fs.last().entries.len() {
        lemma_pop_exhausted_all(fs.drop_last());
        assert forall|i: int| 0 <= i < fs.len() - 1 implies fs[i] == fs.drop_last()[i] by {}
    }
}

proof fn lemma_advance_mirrored(s: CopyTreeView)
    requires
        copy_mirrored(s),
    ensures
        copy_mirrored(copy_advance(s).0),
        copy_advance(s).1 == CopyNextView::Done(Ok(())) ==> forall|i: int| 0 <= i < s.frames.len()
            ==> (#[trigger] s.frames[i]).pos >= s.frames[i].entries.len(),
{
    lemma_advance_safe(s);
    lemma_pop_exhausted_prefix(s.frames);
    lemma_pop_exhausted_all(s.frames);
    let fs = pop_exhausted(s.frames);
    if fs.len() > 0 {
        let top = fs.last();
        let n = fs.len() - 1;
        assert(top == s.frames[n]);
        let t = copy_advance(s).0;
        assert forall|i: int| 0 <= i < t.frames.len() implies mirrors(t, (#[trigger] t.frames[i]).from, t.frames[i].to) by {
            if i < n {
                assert(fs[i] == s.frames[i]);
            }
        }
        match top.entries[top.pos] {
            ListedEntryView::Read { name, is_dir: Ok(_), .. } => {
                assert(!skipped(name));
                lemma_mirror_join(s, top.from, top.to, name);
            },
            _ => {},
        }
    }
}

/// The copy mirrors the source: every step keeps each folder being copied at
/// the same relative place below the source and the destination, every file
/// copy writes to the relative place it reads from, and success is reported
/// only when every entry of every listed folder has been visited (folders are
/// closed only when all their entries are done, and a new listing is done only
/// when it holds nothing to copy).
pub proof fn law_copy_mirrors_source(s: CopyTreeView, e: EventView)
    requires
        copy_mirrored(s),
        copy_expects(s.phase, e),
    ensures
        copy_mirrored(copy_step(s, e).0),
        copy_step(s, e).0.root_from == s.root_from,
        copy_step(s, e).0.root_to == s.root_to,
        copy_step(s, e).1 matches CopyNextView::Perform(ActionView::CopyFile { from, to }) ==> mirrors(s, from, to),
        copy_step(s, e).1 == CopyNextView::Done(Ok(())) ==> {
            &&& forall|i: int| 0 <= i < s.frames.len() ==> (#[trigger] s.frames[i]).pos >= s.frames[i].entries.len()
            &&& e matches EventView::Listed(Ok(es)) ==> kept_entries(es).len() == 0
        },
{
    law_copy_stays_safe(s, e);
    match (s.phase, e) {
        (CopyPhase::List, EventView::Listed(Ok(es))) => {
            lemma_push_listing(s, es);
            let t = pushed_listing(s, es);
            lemma_advance_mirrored(t);
            if copy_step(s, e).1 == CopyNextView::Done(Ok(())) {
                assert forall|i: int| 0 <= i < s.frames.len() implies (#[trigger] s.frames[i]).pos
                    >= s.frames[i].entries.len() by {
                    assert(t.frames[i] == s.frames[i]);
                }
                assert(t.frames[s.frames.len() as int].pos >= t.frames[s.frames.len() as int].entries.len());
            }
        },
        (CopyPhase::CopyFile, EventView::Finished(Ok(()))) => {
            lemma_advance_mirrored(s);
        },
        _ => {},
    }
}

/// The start of a copy is mirrored.
pub proof fn law_copy_start_mirrored(from: DataPathView, to: DataPathView)
    ensures
        copy_mirrored(copy_start(from, to).0),
{
    law_copy_start_safe(from, to);
    assert(relative(from, from) =~= Seq::<Seq<char>>::empty());
    assert(relative(to, to) =~= Seq::<Seq<char>>::empty());
}

} // verus!
