//! The workspace: an ordered row of splits, each an ordered row of tabs,
//! and the selection that tracks which tab holds input focus.

use crate::buffer::{
    buffer_newline, buffer_offset, buffer_sub_row_offset, buffer_text, cursor_of,
    enable_replay, offset_of, pending_log, replay_into, replay_on, replay_outcome,
    sub_row_offset_of, take_replay_log, undo_count,
};
use crate::editor_file::MDFileState;
use crate::paths::{path_eq, paths_equal};
use rat_widget::text::undo_buffer::UndoEntry;
use vstd::prelude::*;

verus! {

/// The state of a workspace as its contracts see it.
pub ghost struct WorkspaceView {
    /// The views, split by split, tab by tab.
    pub tabs: Seq<Seq<MDFileState>>,
    /// The tab each split shows.
    pub active: Seq<Option<usize>>,
    pub sel_split: Option<usize>,
    pub sel_tab: Option<usize>,
}

/// Which index survives a removal: an index at or after the removed one
/// stays where it is, moved back onto the last entry if it falls off the
/// end; `None` when nothing is left.
pub open spec fn kept_index(old: usize, removed: usize, new_len: nat) -> Option<usize> {
    if old >= removed {
        if old < new_len {
            Some(old)
        } else if new_len > 0 {
            Some((new_len - 1) as usize)
        } else {
            None
        }
    } else {
        Some(old)
    }
}

/// The active tab of a split after a tab is inserted at `at`: it moves
/// with the tab it showed; a split that showed nothing shows the first.
pub open spec fn shifted_active(act: Option<usize>, at: usize) -> Option<usize> {
    match act {
        Some(a) => if a >= at {
            Some((a + 1) as usize)
        } else {
            Some(a)
        },
        None => Some(0),
    }
}

/// Two views agree in everything the workspace reads: path, flags and
/// text.
pub open spec fn same_content(a: MDFileState, b: MDFileState) -> bool {
    &&& a.path@ == b.path@
    &&& a.changed == b.changed
    &&& a.doc_type == b.doc_type
    &&& a.show_linenr == b.show_linenr
    &&& buffer_text(a.edit) == buffer_text(b.edit)
}

/// The plan of a sync pass: the source view, the edits it made since the
/// last pass, and the other views of its file that must replay them.
pub struct ReplayPlan {
    pub source: (usize, usize),
    pub log: Vec<UndoEntry>,
    pub targets: Vec<(usize, usize)>,
}

/// `b` is `a` after a replay of `log`: the same view with the replayed
/// text.
pub open spec fn replayed_view(a: MDFileState, b: MDFileState, log: Seq<UndoEntry>) -> bool {
    &&& b.path == a.path
    &&& b.changed == a.changed
    &&& b.doc_type == a.doc_type
    &&& b.show_linenr == a.show_linenr
    &&& replay_outcome(a.edit, log) == Some(buffer_text(b.edit))
    &&& buffer_newline(b.edit) == buffer_newline(a.edit)
}

/// What a stored session keeps of one tab.
pub struct TabState {
    pub pos: (usize, usize),
    pub path: String,
    /// Column and row of the cursor, which a view shares with its copies.
    pub cursor: (u32, u32),
    /// Horizontal and vertical scroll offset, and the offset into the
    /// first row.
    pub offset: (u32, u32, u32),
}

/// The positions a session records.
pub open spec fn positions(rs: Seq<TabState>) -> Seq<(usize, usize)> {
    rs.map_values(|r: TabState| r.pos)
}

/// `r` records its tab as a session keeps it.
pub open spec fn records_tab(w: WorkspaceView, r: TabState) -> bool {
    let v = w.view_at(r.pos);
    &&& w.valid(r.pos)
    &&& r.path@ == v.path@
    &&& r.offset == (buffer_offset(v.edit).0, buffer_offset(v.edit).1, buffer_sub_row_offset(v.edit))
}

/// Position order: split first, then tab.
pub open spec fn pos_before(a: (usize, usize), b: (usize, usize)) -> bool {
    a.0 < b.0 || (a.0 == b.0 && a.1 < b.1)
}

impl WorkspaceView {
    /// `p` names an existing tab.
    pub open spec fn valid(self, p: (usize, usize)) -> bool {
        p.0 < self.tabs.len() && p.1 < self.tabs[p.0 as int].len()
    }

    /// A view can be inserted at `p`: into an existing split at one of its
    /// positions or at its end, or as the first tab of a new last split.
    pub open spec fn insertable(self, p: (usize, usize)) -> bool {
        (p.0 < self.tabs.len() && p.1 <= self.tabs[p.0 as int].len()) || (p.0 == self.tabs.len()
            && p.1 == 0)
    }

    /// The workspace invariant: no split is empty, every split shows one of
    /// its tabs, and a selection names the tab its split shows.
    pub open spec fn wf(self) -> bool {
        &&& self.active.len() == self.tabs.len()
        &&& forall|i: int|
            0 <= i < self.tabs.len() ==> #[trigger] self.tabs[i].len() > 0 && (self.active[i] matches Some(
                a,
            ) && (a as int) < self.tabs[i].len())
        &&& (self.sel_split is Some) == (self.sel_tab is Some)
        &&& (self.sel_split matches Some(s) ==> (s as int) < self.tabs.len() && self.active[s as int]
            == self.sel_tab)
    }

    /// Every count fits a machine word, as it does for any workspace held
    /// in memory.
    pub open spec fn fits(self) -> bool {
        &&& self.tabs.len() <= usize::MAX
        &&& forall|i: int| 0 <= i < self.tabs.len() ==> #[trigger] self.tabs[i].len() <= usize::MAX
    }

    /// The selected position, if any.
    pub open spec fn selection(self) -> Option<(usize, usize)> {
        match (self.sel_split, self.sel_tab) {
            (Some(s), Some(t)) => Some((s, t)),
            _ => None,
        }
    }

    /// The view at `p`.
    pub open spec fn view_at(self, p: (usize, usize)) -> MDFileState {
        self.tabs[p.0 as int][p.1 as int]
    }

    /// The workspace with the view at `p` replaced.
    pub open spec fn with_view(self, p: (usize, usize), v: MDFileState) -> WorkspaceView {
        WorkspaceView {
            tabs: self.tabs.update(p.0 as int, self.tabs[p.0 as int].update(p.1 as int, v)),
            ..self
        }
    }

    /// The workspace after `v` is inserted at `pos`.
    pub open spec fn opened(self, pos: (usize, usize), v: MDFileState) -> WorkspaceView {
        if pos.0 == self.tabs.len() {
            let act = shifted_active(None, pos.1);
            WorkspaceView {
                tabs: self.tabs.push(seq![v]),
                active: self.active.push(act),
                sel_split: self.sel_split,
                sel_tab: self.sel_tab,
            }
        } else {
            let act = shifted_active(self.active[pos.0 as int], pos.1);
            WorkspaceView {
                tabs: self.tabs.update(pos.0 as int, self.tabs[pos.0 as int].insert(pos.1 as int, v)),
                active: self.active.update(pos.0 as int, act),
                sel_split: self.sel_split,
                sel_tab: if self.sel_split == Some(pos.0) {
                    act
                } else {
                    self.sel_tab
                },
            }
        }
    }

    /// The workspace after the tab at `pos` is removed. A split left empty
    /// goes too; the selection then moves to the first tab of the nearest
    /// surviving split.
    pub open spec fn closed(self, pos: (usize, usize)) -> WorkspaceView {
        let row = self.tabs[pos.0 as int].remove(pos.1 as int);
        if row.len() > 0 {
            let act = match self.active[pos.0 as int] {
                Some(a) => kept_index(a, pos.1, row.len()),
                None => None,
            };
            WorkspaceView {
                tabs: self.tabs.update(pos.0 as int, row),
                active: self.active.update(pos.0 as int, act),
                sel_split: self.sel_split,
                sel_tab: if self.sel_split == Some(pos.0) {
                    act
                } else {
                    self.sel_tab
                },
            }
        } else {
            let tabs = self.tabs.remove(pos.0 as int);
            let active = self.active.remove(pos.0 as int);
            match self.sel_split {
                Some(s) => match kept_index(s, pos.0, tabs.len()) {
                    Some(ns) => WorkspaceView {
                        tabs,
                        active: active.update(ns as int, Some(0)),
                        sel_split: Some(ns),
                        sel_tab: Some(0),
                    },
                    None => WorkspaceView { tabs, active, sel_split: None, sel_tab: None },
                },
                None => WorkspaceView { tabs, active, sel_split: None, sel_tab: self.sel_tab },
            }
        }
    }

    /// The workspace with `pos` selected and shown by its split; unchanged
    /// where `pos` names no tab.
    pub open spec fn selected(self, pos: (usize, usize)) -> WorkspaceView {
        if self.valid(pos) {
            WorkspaceView {
                active: self.active.update(pos.0 as int, Some(pos.1)),
                sel_split: Some(pos.0),
                sel_tab: Some(pos.1),
                ..self
            }
        } else {
            self
        }
    }

    /// The split that a step to the neighbour reaches, if there is one:
    /// the next split when `forward`, else the previous.
    pub open spec fn neighbour(self, forward: bool) -> Option<usize> {
        match self.sel_split {
            Some(s) => if forward {
                if s + 1 < self.tabs.len() {
                    Some((s + 1) as usize)
                } else {
                    None
                }
            } else {
                if s > 0 {
                    Some((s - 1) as usize)
                } else {
                    None
                }
            },
            None => None,
        }
    }

    /// The workspace after a step to the neighbouring split, which keeps
    /// showing its own tab.
    pub open spec fn stepped(self, forward: bool) -> WorkspaceView {
        match self.neighbour(forward) {
            Some(n) => self.selected(
                (
                    n,
                    match self.active[n as int] {
                        Some(t) => t,
                        None => 0,
                    },
                ),
            ),
            None => self,
        }
    }

    /// Where `split` puts the copy of the selected view: at the end of the
    /// next split, or as the first tab of a new one.
    pub open spec fn clone_pos(self, s: usize) -> (usize, usize) {
        if s + 1 < self.tabs.len() {
            ((s + 1) as usize, self.tabs[s + 1].len() as usize)
        } else {
            ((s + 1) as usize, 0)
        }
    }

    /// `p` gets the log of the view at `id`: another view of `path`, the
    /// paths compared as `Path`s.
    pub open spec fn is_target(self, id: (usize, usize), path: Seq<char>, p: (usize, usize)) -> bool {
        self.valid(p) && p != id && path_eq(self.view_at(p).path@, path)
    }

    /// The workspace after the whole split `s` is closed: the selection,
    /// if any, moves to the first tab of the nearest surviving split.
    pub open spec fn split_closed(self, s: usize) -> WorkspaceView {
        let tabs = self.tabs.remove(s as int);
        let active = self.active.remove(s as int);
        match self.sel_split {
            Some(x) => match kept_index(x, s, tabs.len()) {
                Some(ns) => WorkspaceView {
                    tabs,
                    active: active.update(ns as int, Some(0)),
                    sel_split: Some(ns),
                    sel_tab: Some(0),
                },
                None => WorkspaceView { tabs, active, sel_split: None, sel_tab: None },
            },
            None => WorkspaceView { tabs, active, sel_split: None, sel_tab: self.sel_tab },
        }
    }

    /// Whether the selection agrees with input focus. `focused[i]` tells
    /// whether the tab that split `i` shows holds input focus; the first
    /// split where it does must be the selected one.
    pub open spec fn focus_agrees(self, focused: Seq<bool>) -> bool {
        forall|i: int|
            0 <= i < focused.len() && #[trigger] focused[i] && (forall|j: int| 0 <= j < i ==> !focused[j])
                ==> self.sel_split == Some(i as usize) && self.sel_tab == self.active[i]
    }

    /// `ts` lists the targets of a replay from `id`, each once, in
    /// split-then-tab order.
    pub open spec fn targets_exact(self, id: (usize, usize), path: Seq<char>, ts: Seq<(usize, usize)>) -> bool {
        &&& forall|k: int| 0 <= k < ts.len() ==> self.is_target(id, path, #[trigger] ts[k])
        &&& forall|k: int, l: int| 0 <= k < l < ts.len() ==> pos_before(#[trigger] ts[k], #[trigger] ts[l])
        &&& forall|q: (usize, usize)| self.is_target(id, path, q) ==> #[trigger] ts.contains(q)
    }

    /// `new` is this workspace after `log` is replayed into every target of
    /// a replay from `id` for `path`: the targets hold the replayed text,
    /// every other view and all indices stay as they were.
    pub open spec fn replay_done(self, new: WorkspaceView, id: (usize, usize), path: Seq<char>, log: Seq<UndoEntry>) -> bool {
        &&& new.tabs.len() == self.tabs.len()
        &&& forall|i: int| 0 <= i < self.tabs.len() ==> #[trigger] new.tabs[i].len() == self.tabs[i].len()
        &&& new.active == self.active
        &&& new.sel_split == self.sel_split
        &&& new.sel_tab == self.sel_tab
        &&& forall|q: (usize, usize)|
            #![trigger new.view_at(q)]
            self.valid(q) ==> if self.is_target(id, path, q) {
                replayed_view(self.view_at(q), new.view_at(q), log)
            } else {
                new.view_at(q) == self.view_at(q)
            }
    }

    /// `new` is this workspace after one sync pass: the selected view hands
    /// out its pending edits, keeping its text, and where there were any,
    /// they are replayed into the other views of its file.
    pub open spec fn synced(self, new: WorkspaceView) -> bool {
        match self.selection() {
            None => new == self,
            Some(p) => {
                let log = pending_log(self.view_at(p).edit);
                let src = new.view_at(p);
                let mid = self.with_view(p, src);
                &&& same_content(src, self.view_at(p))
                &&& pending_log(src.edit) == Seq::<UndoEntry>::empty()
                &&& (log.len() == 0 ==> new == mid)
                &&& (log.len() > 0 ==> mid.replay_done(new, p, self.view_at(p).path@, log))
            },
        }
    }

    /// Every other view of the selected view's file can replay the edits
    /// the selected view has pending, where it has any.
    pub open spec fn replay_fits(self) -> bool {
        self.selection() matches Some(p) ==> pending_log(self.view_at(p).edit).len() > 0 ==> forall|q: (usize, usize)|
            #![trigger self.view_at(q)]
            self.is_target(p, self.view_at(p).path@, q) ==> replay_outcome(
                self.view_at(q).edit,
                pending_log(self.view_at(p).edit),
            ) is Some
    }

    /// `rs` records every tab once, in split-then-tab order.
    pub open spec fn session_exact(self, rs: Seq<TabState>) -> bool {
        &&& forall|k: int| 0 <= k < rs.len() ==> records_tab(self, #[trigger] rs[k])
        &&& forall|k: int, l: int| 0 <= k < l < rs.len() ==> pos_before(#[trigger] rs[k].pos, #[trigger] rs[l].pos)
        &&& forall|q: (usize, usize)| self.valid(q) ==> #[trigger] positions(rs).contains(q)
    }

    /// `flags` holds one flag per tab.
    pub open spec fn flags_fit(self, flags: Seq<Vec<bool>>) -> bool {
        &&& flags.len() == self.tabs.len()
        &&& forall|i: int| 0 <= i < flags.len() ==> #[trigger] flags[i]@.len() == self.tabs[i].len()
    }

    /// `p` is the first position, in split-then-tab order, whose flag is
    /// set.
    pub open spec fn first_flagged(self, flags: Seq<Vec<bool>>, p: (usize, usize)) -> bool {
        &&& self.valid(p)
        &&& flags[p.0 as int]@[p.1 as int]
        &&& forall|q: (usize, usize)|
            self.valid(q) && pos_before(q, p) ==> !#[trigger] flags[q.0 as int]@[q.1 as int]
    }

    /// The first position, in split-then-tab order, that shows `path`.
    pub open spec fn first_with_path(self, path: Seq<char>, p: (usize, usize)) -> bool {
        &&& self.valid(p)
        &&& path_eq(self.view_at(p).path@, path)
        &&& forall|q: (usize, usize)|
            #![trigger self.view_at(q)]
            self.valid(q) && pos_before(q, p) ==> !path_eq(self.view_at(q).path@, path)
    }
}

/// The workspace.
pub struct SplitTabState {
    /// The selected split.
    pub sel_split: Option<usize>,
    /// The selected tab of the selected split.
    pub sel_tab: Option<usize>,
    /// The tab each split shows.
    pub active_tab: Vec<Option<usize>>,
    /// The views, split by split.
    pub split_tab_file: Vec<Vec<MDFileState>>,
}

impl View for SplitTabState {
    type V = WorkspaceView;

    open spec fn view(&self) -> WorkspaceView {
        WorkspaceView {
            tabs: self.split_tab_file@.map_values(|r: Vec<MDFileState>| r@),
            active: self.active_tab@,
            sel_split: self.sel_split,
            sel_tab: self.sel_tab,
        }
    }
}

/// The index that survives a removal; see [`kept_index`].
fn kept(old: usize, removed: usize, new_len: usize) -> (r: Option<usize>)
    ensures
        r == kept_index(old, removed, new_len as nat),
{
    if old >= removed {
        if old < new_len {
            Some(old)
        } else if new_len > 0 {
            Some(new_len - 1)
        } else {
            None
        }
    } else {
        Some(old)
    }
}

impl SplitTabState {
    /// An empty workspace.
    pub fn new() -> (r: SplitTabState)
        ensures
            r@.wf(),
            r@.tabs.len() == 0,
            r@.selection() is None,
    {
        let r = SplitTabState {
            sel_split: None,
            sel_tab: None,
            active_tab: Vec::new(),
            split_tab_file: Vec::new(),
        };
        proof {
            assert(r@.tabs =~= Seq::<Seq<MDFileState>>::empty());
        }
        r
    }

    /// The number of splits.
    pub fn split_count(&self) -> (r: usize)
        ensures
            r == self@.tabs.len(),
    {
        self.split_tab_file.len()
    }

    /// The number of tabs of split `s`, zero where there is no such split.
    pub fn tab_count(&self, s: usize) -> (r: usize)
        ensures
            s < self@.tabs.len() ==> r == self@.tabs[s as int].len(),
            s >= self@.tabs.len() ==> r == 0,
    {
        if s < self.split_tab_file.len() {
            self.split_tab_file[s].len()
        } else {
            0
        }
    }

    /// The tab split `s` shows.
    pub fn active(&self, s: usize) -> (r: Option<usize>)
        requires
            self@.wf(),
        ensures
            s < self@.tabs.len() ==> r == self@.active[s as int],
            s >= self@.tabs.len() ==> r is None,
    {
        if s < self.active_tab.len() {
            self.active_tab[s]
        } else {
            None
        }
    }

    /// Inserts `new` at `pos`, creating the split where `pos.0` is one past
    /// the last. The split's shown tab moves with the tab it showed.
    pub fn open(&mut self, pos: (usize, usize), new: MDFileState)
        requires
            old(self)@.wf(),
            old(self)@.insertable(pos),
        ensures
            final(self)@ == old(self)@.opened(pos, new),
            final(self)@.wf(),
    {
        let ghost v0 = self@;
        if pos.0 == self.split_tab_file.len() {
            self.split_tab_file.push(Vec::new());
            self.active_tab.push(None);
        } else {
            proof {
                assert(v0.tabs[pos.0 as int].len() > 0);
            }
        }
        let ghost rows1 = self.split_tab_file@;
        let n = self.split_tab_file[pos.0].len();
        assert(self.active_tab@[pos.0 as int] matches Some(a) ==> a < n);
        let act = match self.active_tab[pos.0] {
            Some(a) => if a >= pos.1 {
                Some(a + 1)
            } else {
                Some(a)
            },
            None => Some(0),
        };
        self.active_tab.set(pos.0, act);
        self.split_tab_file[pos.0].insert(pos.1, new);
        match self.sel_split {
            Some(s) => if s == pos.0 {
                self.sel_tab = act;
            },
            None => {},
        }
        proof {
            let want = v0.opened(pos, new);
            assert(self.split_tab_file@[pos.0 as int]@ == rows1[pos.0 as int]@.insert(pos.1 as int, new));
            assert forall|i: int| 0 <= i < want.tabs.len() implies #[trigger] self@.tabs[i] == want.tabs[i] by {
                if i != pos.0 {
                    assert(self.split_tab_file@[i] == rows1[i]);
                }
            }
            assert(self@.tabs =~= want.tabs);
            assert(self@.active =~= want.active);
            lemma_opened_wf(v0, pos, new);
        }
    }
    /// Removes the tab at `pos`; does nothing where `pos` names no tab. The
    /// split's shown tab keeps its index, moved onto the last tab if it fell
    /// off the end. A split left empty is removed, and the selection moves
    /// to the first tab of the nearest surviving split.
    ///
    /// The view is dropped as it is: saving it first is up to the caller.
    pub fn close(&mut self, pos: (usize, usize))
        requires
            old(self)@.wf(),
        ensures
            old(self)@.valid(pos) ==> final(self)@ == old(self)@.closed(pos),
            !old(self)@.valid(pos) ==> final(self)@ == old(self)@,
            final(self)@.wf(),
    {
        let ghost v0 = self@;
        if pos.0 < self.split_tab_file.len() && pos.1 < self.split_tab_file[pos.0].len() {
            let ghost rows0 = self.split_tab_file@;
            let _ = self.split_tab_file[pos.0].remove(pos.1);
            let n = self.split_tab_file[pos.0].len();
            proof {
                assert(self.split_tab_file@[pos.0 as int]@ == rows0[pos.0 as int]@.remove(pos.1 as int));
            }
            if n > 0 {
                let act = match self.active_tab[pos.0] {
                    Some(a) => kept(a, pos.1, n),
                    None => None,
                };
                self.active_tab.set(pos.0, act);
                match self.sel_split {
                    Some(s) => if s == pos.0 {
                        self.sel_tab = act;
                    },
                    None => {},
                }
                proof {
                    let want = v0.closed(pos);
                    assert forall|i: int| 0 <= i < want.tabs.len() implies #[trigger] self@.tabs[i] == want.tabs[i] by {
                        if i != pos.0 {
                            assert(self.split_tab_file@[i] == rows0[i]);
                        }
                    }
                    assert(self@.tabs =~= want.tabs);
                    assert(self@.active =~= want.active);
                }
            } else {
                let ghost rows1 = self.split_tab_file@;
                let _ = self.split_tab_file.remove(pos.0);
                self.active_tab.remove(pos.0);
                let m = self.split_tab_file.len();
                match self.sel_split {
                    Some(s) => {
                        let ns = kept(s, pos.0, m);
                        self.sel_split = ns;
                        match ns {
                            Some(x) => {
                                self.sel_tab = Some(0);
                                self.active_tab.set(x, Some(0));
                            },
                            None => {
                                self.sel_tab = None;
                            },
                        }
                    },
                    None => {},
                }
                proof {
                    let want = v0.closed(pos);
                    assert forall|i: int| 0 <= i < want.tabs.len() implies #[trigger] self@.tabs[i] == want.tabs[i] by {
                        if i < pos.0 {
                            assert(self.split_tab_file@[i] == rows0[i]);
                        } else {
                            assert(self.split_tab_file@[i] == rows0[i + 1]);
                        }
                    }
                    assert(self@.tabs =~= want.tabs);
                    assert(self@.active =~= want.active);
                }
            }
            proof {
                lemma_closed_wf(v0, pos);
            }
        }
    }

    /// Selects `pos` and lets its split show it; does nothing where `pos`
    /// names no tab. Moving input focus there is up to the caller.
    pub fn select(&mut self, pos: (usize, usize))
        requires
            old(self)@.wf(),
        ensures
            final(self)@ == old(self)@.selected(pos),
            final(self)@.wf(),
    {
        if pos.0 < self.split_tab_file.len() && pos.1 < self.split_tab_file[pos.0].len() {
            self.sel_split = Some(pos.0);
            self.sel_tab = Some(pos.1);
            self.active_tab.set(pos.0, Some(pos.1));
            proof {
                assert(self@.active =~= old(self)@.selected(pos).active);
                lemma_selected_wf(old(self)@, pos);
            }
        }
    }
    /// Selects the next split, which keeps showing its own tab. False, and
    /// nothing changes, where there is no selection or no next split.
    pub fn select_next(&mut self) -> (r: bool)
        requires
            old(self)@.wf(),
        ensures
            r == (old(self)@.neighbour(true) is Some),
            final(self)@ == old(self)@.stepped(true),
            final(self)@.wf(),
    {
        match self.sel_split {
            Some(s) => if s < self.split_tab_file.len() - 1 {
                let n = s + 1;
                let t = match self.active_tab[n] {
                    Some(t) => t,
                    None => 0,
                };
                self.select((n, t));
                true
            } else {
                false
            },
            None => false,
        }
    }

    /// Selects the previous split, which keeps showing its own tab. False,
    /// and nothing changes, where there is no selection or no previous
    /// split.
    pub fn select_prev(&mut self) -> (r: bool)
        requires
            old(self)@.wf(),
        ensures
            r == (old(self)@.neighbour(false) is Some),
            final(self)@ == old(self)@.stepped(false),
            final(self)@.wf(),
    {
        match self.sel_split {
            Some(s) => if s > 0 {
                let n = s - 1;
                let t = match self.active_tab[n] {
                    Some(t) => t,
                    None => 0,
                };
                self.select((n, t));
                true
            } else {
                false
            },
            None => false,
        }
    }

    /// The selected position: the selected split and the tab it shows.
    pub fn selected_pos(&self) -> (r: Option<(usize, usize)>)
        requires
            self@.wf(),
        ensures
            r == self@.selection(),
            r matches Some(p) ==> self@.valid(p),
    {
        match self.sel_split {
            Some(s) => match self.active_tab[s] {
                Some(t) => Some((s, t)),
                None => None,
            },
            None => None,
        }
    }

    /// The view at `pos`, to be changed in place.
    pub fn editor_at(&mut self, idx_split: usize, idx_tab: usize) -> (r: Option<&mut MDFileState>)
        ensures
            old(self)@.valid((idx_split, idx_tab)) ==> (r matches Some(v) && *v == old(self)@.view_at(
                (idx_split, idx_tab),
            ) && final(self)@ == old(self)@.with_view((idx_split, idx_tab), *final(v))),
            !old(self)@.valid((idx_split, idx_tab)) ==> r is None && final(self)@ == old(self)@,
    {
        if idx_split < self.split_tab_file.len() && idx_tab < self.split_tab_file[idx_split].len() {
            let r = &mut self.split_tab_file[idx_split][idx_tab];
            proof {
                let fin = after_borrow(*self);
                let want = old(self)@.with_view((idx_split, idx_tab), *final(r));
                assert(fin@.tabs =~= want.tabs);
            }
            Some(r)
        } else {
            None
        }
    }
    /// The first position, in split-then-tab order, whose view shows
    /// `path`.
    pub fn for_path(&self, path: &String) -> (r: Option<(usize, usize)>)
        ensures
            r matches Some(p) ==> self@.first_with_path(path@, p),
            r is None ==> forall|q: (usize, usize)|
                #![trigger self@.view_at(q)]
                self@.valid(q) ==> !path_eq(self@.view_at(q).path@, path@),
    {
        let mut i: usize = 0;
        while i < self.split_tab_file.len()
            invariant
                0 <= i <= self@.tabs.len(),
                forall|q: (usize, usize)|
                    #![trigger self@.view_at(q)]
                    self@.valid(q) && q.0 < i ==> !path_eq(self@.view_at(q).path@, path@),
            decreases self@.tabs.len() - i,
        {
            let mut j: usize = 0;
            while j < self.split_tab_file[i].len()
                invariant
                    0 <= i < self@.tabs.len(),
                    0 <= j <= self@.tabs[i as int].len(),
                    forall|q: (usize, usize)|
                        #![trigger self@.view_at(q)]
                        self@.valid(q) && pos_before(q, (i, j)) ==> !path_eq(self@.view_at(q).path@, path@),
                decreases self@.tabs[i as int].len() - j,
            {
                if paths_equal(self.split_tab_file[i][j].path.as_str(), path.as_str()) {
                    return Some((i, j));
                }
                j = j + 1;
            }
            i = i + 1;
        }
        None
    }

    /// The views other than the one at `id` that show `path`, in
    /// split-then-tab order: those that must replay the edits made at `id`.
    pub fn replay_targets(&self, id: (usize, usize), path: &String) -> (r: Vec<(usize, usize)>)
        ensures
            self@.targets_exact(id, path@, r@),
    {
        let mut r: Vec<(usize, usize)> = Vec::new();
        let mut i: usize = 0;
        while i < self.split_tab_file.len()
            invariant
                0 <= i <= self@.tabs.len(),
                forall|k: int| 0 <= k < r@.len() ==> self@.is_target(id, path@, #[trigger] r@[k]),
                forall|k: int| 0 <= k < r@.len() ==> (#[trigger] r@[k]).0 < i,
                forall|k: int, l: int| 0 <= k < l < r@.len() ==> pos_before(#[trigger] r@[k], #[trigger] r@[l]),
                forall|q: (usize, usize)| self@.is_target(id, path@, q) && q.0 < i ==> #[trigger] r@.contains(q),
            decreases self@.tabs.len() - i,
        {
            let mut j: usize = 0;
            while j < self.split_tab_file[i].len()
                invariant
                    0 <= i < self@.tabs.len(),
                    0 <= j <= self@.tabs[i as int].len(),
                    forall|k: int| 0 <= k < r@.len() ==> self@.is_target(id, path@, #[trigger] r@[k]),
                    forall|k: int| 0 <= k < r@.len() ==> pos_before(#[trigger] r@[k], (i, j)),
                    forall|k: int, l: int| 0 <= k < l < r@.len() ==> pos_before(#[trigger] r@[k], #[trigger] r@[l]),
                    forall|q: (usize, usize)| self@.is_target(id, path@, q) && pos_before(q, (i, j)) ==> #[trigger] r@.contains(q),
                decreases self@.tabs[i as int].len() - j,
            {
                if (i != id.0 || j != id.1) && paths_equal(self.split_tab_file[i][j].path.as_str(), path.as_str()) {
                    let ghost r0 = r@;
                    r.push((i, j));
                    proof {
                        assert forall|q: (usize, usize)| self@.is_target(id, path@, q) && pos_before(q, (i, (j + 1) as usize)) implies #[trigger] r@.contains(q) by {
                            if q == (i, j) {
                                assert(r@[r0.len() as int] == q);
                            } else {
                                assert(r0.contains(q));
                                let k = choose|k: int| 0 <= k < r0.len() && r0[k] == q;
                                assert(r@[k] == q);
                            }
                        }
                    }
                } else {
                    proof {
                        assert forall|q: (usize, usize)| self@.is_target(id, path@, q) && pos_before(q, (i, (j + 1) as usize)) implies #[trigger] r@.contains(q) by {
                            if q == (i, j) {
                            } else {
                                assert(pos_before(q, (i, j)));
                            }
                        }
                    }
                }
                j = j + 1;
            }
            i = i + 1;
        }
        r
    }
    /// A copy of the view at `from` for another tab. Recording of edits for
    /// replay is switched on in the source first, so that what is edited
    /// in one of the two can be replayed into the other.
    pub fn share_view(&mut self, from: (usize, usize)) -> (r: MDFileState)
        requires
            old(self)@.wf(),
            old(self)@.valid(from),
        ensures
            final(self)@ == old(self)@.with_view(from, final(self)@.view_at(from)),
            same_content(final(self)@.view_at(from), old(self)@.view_at(from)),
            same_content(r, old(self)@.view_at(from)),
            undo_count(old(self)@.view_at(from).edit) is Some ==> replay_on(final(self)@.view_at(from).edit)
                && replay_on(r.edit),
            final(self)@.wf(),
    {
        let ghost v0 = self@;
        enable_replay(&mut self.split_tab_file[from.0][from.1].edit);
        proof {
            let want = v0.with_view(from, self@.view_at(from));
            assert(self@.tabs =~= want.tabs);
            assert(self@.active =~= want.active);
            assert forall|i: int| 0 <= i < self@.tabs.len() implies #[trigger] self@.tabs[i].len() > 0 && (
            self@.active[i] matches Some(a) && (a as int) < self@.tabs[i].len()) by {
                assert(v0.tabs[i].len() > 0);
            }
        }
        self.split_tab_file[from.0][from.1].clone_view()
    }

    /// Inserts `new` at `pos` and selects it.
    pub fn open_in(&mut self, pos: (usize, usize), new: MDFileState)
        requires
            old(self)@.wf(),
            old(self)@.insertable(pos),
        ensures
            final(self)@ == old(self)@.opened(pos, new).selected(pos),
            final(self)@.selection() == Some(pos),
            final(self)@.wf(),
    {
        self.open(pos, new);
        self.select(pos);
    }

    /// Where a new tab goes: after the selected one, or first of all where
    /// nothing is selected.
    pub fn next_tab_pos(&self) -> (r: (usize, usize))
        requires
            self@.wf(),
        ensures
            self@.selection() matches Some(p) ==> r == (p.0, (p.1 + 1) as usize),
            self@.selection() is None ==> r == (0usize, 0usize),
            self@.insertable(r),
    {
        match self.selected_pos() {
            Some(p) => {
                let len = self.split_tab_file[p.0].len();
                assert(p.1 < len);
                (p.0, p.1 + 1)
            },
            None => (0, 0),
        }
    }

    /// Where a tab for the next split goes: after the tab that split shows,
    /// or first in a new split after the selected one; first of all where
    /// nothing is selected.
    pub fn next_split_pos(&self) -> (r: (usize, usize))
        requires
            self@.wf(),
        ensures
            self@.selection() matches Some(p) ==> r == (if p.0 + 1 < self@.tabs.len() {
                ((p.0 + 1) as usize, (self@.active[p.0 + 1]->Some_0 + 1) as usize)
            } else {
                ((p.0 + 1) as usize, 0usize)
            }),
            self@.selection() is None ==> r == (0usize, 0usize),
            self@.insertable(r),
    {
        match self.selected_pos() {
            Some(p) => if p.0 < self.split_tab_file.len() - 1 {
                let n = p.0 + 1;
                assert(self@.tabs[n as int].len() > 0);
                match self.active_tab[n] {
                    Some(t) => {
                        let len = self.split_tab_file[n].len();
                        assert(t < len);
                        (n, t + 1)
                    },
                    None => (n, 0),
                }
            } else {
                (p.0 + 1, 0)
            },
            None => (0, 0),
        }
    }

    /// Opens a copy of the selected view at the end of the next split,
    /// or as the first tab of a new split after it. The selection stays
    /// where it was. False, and nothing changes, where nothing is selected.
    pub fn split(&mut self) -> (r: bool)
        requires
            old(self)@.wf(),
        ensures
            old(self)@.selection() is None ==> !r && final(self)@ == old(self)@,
            old(self)@.selection() matches Some(p) ==> {
                let c = old(self)@.clone_pos(p.0);
                &&& r
                &&& final(self)@ == old(self)@.with_view(p, final(self)@.view_at(p)).opened(
                    c,
                    final(self)@.view_at(c),
                )
                &&& same_content(final(self)@.view_at(p), old(self)@.view_at(p))
                &&& same_content(final(self)@.view_at(c), old(self)@.view_at(p))
                &&& (undo_count(old(self)@.view_at(p).edit) is Some ==> replay_on(final(self)@.view_at(p).edit)
                    && replay_on(final(self)@.view_at(c).edit))
                &&& final(self)@.selection() == Some(p)
            },
            final(self)@.wf(),
    {
        let ghost v0 = self@;
        match self.selected_pos() {
            None => false,
            Some(p) => {
                let new = self.share_view(p);
                let ghost v1 = self@;
                let nsplits = self.split_tab_file.len();
                assert(p.0 < nsplits);
                let n = p.0 + 1;
                let k = if n < self.split_tab_file.len() {
                    self.split_tab_file[n].len()
                } else {
                    0
                };
                proof {
                    assert(v1.view_at(p) == self@.view_at(p));
                }
                self.open((n, k), new);
                proof {
                    let c = v0.clone_pos(p.0);
                    assert(c == (n, k));
                    assert(self@.view_at(c) == new);
                    assert(self@.view_at(p) == v1.view_at(p));
                }
                true
            },
        }
    }

    /// A sync pass, first half: takes the edits the selected view made
    /// since the last pass and names the other views of its file that must
    /// replay them. `None` where nothing is selected or nothing was edited.
    pub fn roll_forward_edit(&mut self) -> (r: Option<ReplayPlan>)
        requires
            old(self)@.wf(),
        ensures
            old(self)@.selection() is None ==> r is None && final(self)@ == old(self)@,
            old(self)@.selection() matches Some(p) ==> {
                &&& final(self)@ == old(self)@.with_view(p, final(self)@.view_at(p))
                &&& same_content(final(self)@.view_at(p), old(self)@.view_at(p))
                &&& pending_log(final(self)@.view_at(p).edit) == Seq::<UndoEntry>::empty()
                &&& (r is Some <==> pending_log(old(self)@.view_at(p).edit).len() > 0)
                &&& (r matches Some(plan) ==> {
                    &&& plan.source == p
                    &&& plan.log@ == pending_log(old(self)@.view_at(p).edit)
                    &&& final(self)@.targets_exact(p, old(self)@.view_at(p).path@, plan.targets@)
                })
            },
            final(self)@.wf(),
    {
        match self.selected_pos() {
            None => None,
            Some(p) => {
                let ghost v0 = self@;
                let log = take_replay_log(&mut self.split_tab_file[p.0][p.1].edit);
                proof {
                    let want = v0.with_view(p, self@.view_at(p));
                    assert(self@.tabs =~= want.tabs);
                    assert forall|i: int| 0 <= i < self@.tabs.len() implies #[trigger] self@.tabs[i].len() > 0 && (
                    self@.active[i] matches Some(a) && (a as int) < self@.tabs[i].len()) by {
                        assert(v0.tabs[i].len() > 0);
                    }
                }
                if log.len() == 0 {
                    None
                } else {
                    let path = self.split_tab_file[p.0][p.1].path.clone();
                    let targets = self.replay_targets(p, &path);
                    Some(ReplayPlan { source: p, log, targets })
                }
            },
        }
    }
    /// Checks the selection against input focus; see
    /// [`WorkspaceView::focus_agrees`]. A disagreement means focus was
    /// routed past the workspace.
    pub fn selection_agrees(&self, focused: &Vec<bool>) -> (r: bool)
        requires
            self@.wf(),
            focused@.len() == self@.tabs.len(),
        ensures
            r == self@.focus_agrees(focused@),
    {
        let mut i: usize = 0;
        while i < focused.len()
            invariant
                0 <= i <= focused@.len(),
                focused@.len() == self@.tabs.len(),
                self@.active.len() == self@.tabs.len(),
                forall|j: int| 0 <= j < i ==> !focused@[j],
            decreases focused@.len() - i,
        {
            if focused[i] {
                let agrees = match self.sel_split {
                    Some(s) => s == i && self.sel_tab == self.active_tab[i],
                    None => false,
                };
                proof {
                    if !agrees {
                        assert(!self@.focus_agrees(focused@));
                    } else {
                        assert forall|k: int|
                            0 <= k < focused@.len() && #[trigger] focused@[k] && (forall|j: int| 0 <= j < k ==> !focused@[j])
                            implies self@.sel_split == Some(k as usize) && self@.sel_tab == self@.active[k] by {
                            if k < i {
                            } else if k > i {
                                assert(!focused@[i as int]);
                            }
                        }
                    }
                }
                return agrees;
            }
            i = i + 1;
        }
        true
    }

    /// Closes every tab of the selected split, last first, and with them
    /// the split. False, and nothing changes, where nothing is selected.
    /// The views are dropped as they are: saving them first is up to the
    /// caller.
    pub fn close_all(&mut self) -> (r: bool)
        requires
            old(self)@.wf(),
        ensures
            old(self)@.selection() is None ==> !r && final(self)@ == old(self)@,
            old(self)@.selection() matches Some(p) ==> r && final(self)@ == old(self)@.split_closed(p.0),
            final(self)@.wf(),
    {
        match self.selected_pos() {
            None => false,
            Some(p) => {
                let ghost v0 = self@;
                let s = p.0;
                let mut i = self.split_tab_file[s].len();
                proof {
                    assert(v0.tabs[s as int].subrange(0, i as int) =~= v0.tabs[s as int]);
                    assert(self@.tabs =~= v0.tabs.update(s as int, v0.tabs[s as int].subrange(0, i as int)));
                }
                while i > 1
                    invariant
                        self@.wf(),
                        v0.wf(),
                        (s as int) < v0.tabs.len(),
                        1 <= i <= v0.tabs[s as int].len(),
                        self@.tabs == v0.tabs.update(s as int, v0.tabs[s as int].subrange(0, i as int)),
                        self@.active.len() == v0.active.len(),
                        forall|k: int| 0 <= k < v0.active.len() && k != s ==> self@.active[k] == v0.active[k],
                        self@.sel_split == Some(s),
                        v0.sel_split == Some(s),
                    decreases i,
                {
                    let ghost w = self@;
                    self.close((s, i - 1));
                    proof {
                        assert(w.valid((s, (i - 1) as usize)));
                        assert(w.tabs[s as int].remove(i - 1) =~= v0.tabs[s as int].subrange(0, i - 1));
                        assert(self@.tabs =~= v0.tabs.update(s as int, v0.tabs[s as int].subrange(0, i - 1)));
                    }
                    i = i - 1;
                }
                let ghost w = self@;
                self.close((s, 0));
                proof {
                    assert(w.valid((s, 0usize)));
                    assert(w.tabs[s as int].remove(0) =~= Seq::<MDFileState>::empty());
                    let want = v0.split_closed(s);
                    assert(w.tabs.remove(s as int) =~= v0.tabs.remove(s as int));
                    assert(w.active.remove(s as int) =~= v0.active.remove(s as int));
                    assert(self@.active =~= want.active);
                }
                true
            },
        }
    }
    /// Whether a view can be inserted at `pos`; see
    /// [`WorkspaceView::insertable`].
    pub fn can_open_at(&self, pos: (usize, usize)) -> (r: bool)
        ensures
            r == self@.insertable(pos),
    {
        if pos.0 < self.split_tab_file.len() {
            pos.1 <= self.split_tab_file[pos.0].len()
        } else {
            pos.0 == self.split_tab_file.len() && pos.1 == 0
        }
    }

    /// What a stored session keeps of each tab, in split-then-tab order.
    pub fn file_state(&self) -> (r: Vec<TabState>)
        ensures
            self@.session_exact(r@),
    {
        let mut r: Vec<TabState> = Vec::new();
        let mut i: usize = 0;
        while i < self.split_tab_file.len()
            invariant
                0 <= i <= self@.tabs.len(),
                forall|k: int| 0 <= k < r@.len() ==> records_tab(self@, #[trigger] r@[k]),
                forall|k: int| 0 <= k < r@.len() ==> (#[trigger] r@[k]).pos.0 < i,
                forall|k: int, l: int| 0 <= k < l < r@.len() ==> pos_before(#[trigger] r@[k].pos, #[trigger] r@[l].pos),
                forall|q: (usize, usize)| self@.valid(q) && q.0 < i ==> #[trigger] positions(r@).contains(q),
            decreases self@.tabs.len() - i,
        {
            let mut j: usize = 0;
            while j < self.split_tab_file[i].len()
                invariant
                    0 <= i < self@.tabs.len(),
                    0 <= j <= self@.tabs[i as int].len(),
                    forall|k: int| 0 <= k < r@.len() ==> records_tab(self@, #[trigger] r@[k]),
                    forall|k: int| 0 <= k < r@.len() ==> pos_before(#[trigger] r@[k].pos, (i, j)),
                    forall|k: int, l: int| 0 <= k < l < r@.len() ==> pos_before(#[trigger] r@[k].pos, #[trigger] r@[l].pos),
                    forall|q: (usize, usize)| self@.valid(q) && pos_before(q, (i, j)) ==> #[trigger] positions(r@).contains(q),
                decreases self@.tabs[i as int].len() - j,
            {
                let v = &self.split_tab_file[i][j];
                let o = offset_of(&v.edit);
                let rec = TabState {
                    pos: (i, j),
                    path: v.path.clone(),
                    cursor: cursor_of(&v.edit),
                    offset: (o.0, o.1, sub_row_offset_of(&v.edit)),
                };
                let ghost r0 = r@;
                r.push(rec);
                proof {
                    let ps0 = positions(r0);
                    let ps = positions(r@);
                    assert(ps =~= ps0.push((i, j)));
                    assert forall|q: (usize, usize)| self@.valid(q) && pos_before(q, (i, (j + 1) as usize)) implies #[trigger] positions(r@).contains(q) by {
                        if q == (i, j) {
                            assert(ps[r0.len() as int] == q);
                        } else {
                            assert(ps0.contains(q));
                            let k = choose|k: int| 0 <= k < ps0.len() && ps0[k] == q;
                            assert(ps[k] == q);
                        }
                    }
                }
                j = j + 1;
            }
            i = i + 1;
        }
        r
    }
    /// Follows input focus: `gained[s][t]` tells whether the view at
    /// `(s, t)` has just gained focus; the first such view is selected.
    /// Nothing changes where no view gained focus, so this can run on every
    /// event.
    pub fn establish_focus(&mut self, gained: &Vec<Vec<bool>>) -> (r: Option<(usize, usize)>)
        requires
            old(self)@.wf(),
            old(self)@.flags_fit(gained@),
        ensures
            r matches Some(p) ==> old(self)@.first_flagged(gained@, p) && final(self)@ == old(self)@.selected(p),
            r is None ==> final(self)@ == old(self)@ && forall|q: (usize, usize)|
                old(self)@.valid(q) ==> !#[trigger] gained@[q.0 as int]@[q.1 as int],
            final(self)@.wf(),
    {
        let mut i: usize = 0;
        while i < gained.len()
            invariant
                self@ == old(self)@,
                self@.wf(),
                self@.flags_fit(gained@),
                0 <= i <= gained@.len(),
                forall|q: (usize, usize)|
                    self@.valid(q) && q.0 < i ==> !#[trigger] gained@[q.0 as int]@[q.1 as int],
            decreases gained@.len() - i,
        {
            let mut j: usize = 0;
            while j < gained[i].len()
                invariant
                    self@ == old(self)@,
                    self@.wf(),
                    self@.flags_fit(gained@),
                    0 <= i < gained@.len(),
                    0 <= j <= gained@[i as int]@.len(),
                    forall|q: (usize, usize)|
                        self@.valid(q) && pos_before(q, (i, j)) ==> !#[trigger] gained@[q.0 as int]@[q.1 as int],
                decreases gained@[i as int]@.len() - j,
            {
                if gained[i][j] {
                    self.select((i, j));
                    return Some((i, j));
                }
                j = j + 1;
            }
            i = i + 1;
        }
        None
    }
    /// The selected position and its view.
    pub fn selected(&self) -> (r: Option<((usize, usize), &MDFileState)>)
        requires
            self@.wf(),
        ensures
            r is None <==> self@.selection() is None,
            r matches Some(sv) ==> self@.selection() == Some(sv.0) && *sv.1 == self@.view_at(sv.0),
    {
        match self.selected_pos() {
            Some(p) => Some((p, &self.split_tab_file[p.0][p.1])),
            None => None,
        }
    }

    /// The selected position and its view, to be changed in place.
    pub fn selected_mut(&mut self) -> (r: Option<((usize, usize), &mut MDFileState)>)
        requires
            old(self)@.wf(),
        ensures
            r is None <==> old(self)@.selection() is None,
            r is None ==> final(self)@ == old(self)@,
            r matches Some(sv) ==> old(self)@.selection() == Some(sv.0) && *sv.1 == old(self)@.view_at(sv.0)
                && final(self)@ == old(self)@.with_view(sv.0, *final(sv.1)),
    {
        match self.selected_pos() {
            Some(p) => match self.editor_at(p.0, p.1) {
                Some(v) => Some((p, v)),
                None => None,
            },
            None => None,
        }
    }
}

impl Default for SplitTabState {
    /// An empty workspace.
    fn default() -> (r: SplitTabState)
        ensures
            r@.wf(),
            r@.tabs.len() == 0,
            r@.selection() is None,
    {
        SplitTabState::new()
    }
}

impl SplitTabState {
    /// Replays `log` into every view other than the one at `id` that shows
    /// `path`; see [`WorkspaceView::replay_done`].
    pub fn replay(&mut self, id: (usize, usize), path: &String, log: &Vec<UndoEntry>)
        requires
            old(self)@.wf(),
            forall|q: (usize, usize)|
                #![trigger old(self)@.view_at(q)]
                old(self)@.is_target(id, path@, q) ==> replay_outcome(old(self)@.view_at(q).edit, log@) is Some,
        ensures
            old(self)@.replay_done(final(self)@, id, path@, log@),
            final(self)@.wf(),
    {
        let ghost w0 = self@;
        let mut i: usize = 0;
        while i < self.split_tab_file.len()
            invariant
                w0.wf(),
                forall|q: (usize, usize)|
                    #![trigger w0.view_at(q)]
                    w0.is_target(id, path@, q) ==> replay_outcome(w0.view_at(q).edit, log@) is Some,
                self@.tabs.len() == w0.tabs.len(),
                forall|k: int| 0 <= k < w0.tabs.len() ==> #[trigger] self@.tabs[k].len() == w0.tabs[k].len(),
                self@.active == w0.active,
                self@.sel_split == w0.sel_split,
                self@.sel_tab == w0.sel_tab,
                0 <= i <= w0.tabs.len(),
                forall|q: (usize, usize)|
                    #![trigger self@.view_at(q)]
                    w0.valid(q) ==> if q.0 < i && w0.is_target(id, path@, q) {
                        replayed_view(w0.view_at(q), self@.view_at(q), log@)
                    } else {
                        self@.view_at(q) == w0.view_at(q)
                    },
            decreases w0.tabs.len() - i,
        {
            let mut j: usize = 0;
            while j < self.split_tab_file[i].len()
                invariant
                    w0.wf(),
                    forall|q: (usize, usize)|
                        #![trigger w0.view_at(q)]
                        w0.is_target(id, path@, q) ==> replay_outcome(w0.view_at(q).edit, log@) is Some,
                    self@.tabs.len() == w0.tabs.len(),
                    forall|k: int| 0 <= k < w0.tabs.len() ==> #[trigger] self@.tabs[k].len() == w0.tabs[k].len(),
                    self@.active == w0.active,
                    self@.sel_split == w0.sel_split,
                    self@.sel_tab == w0.sel_tab,
                    0 <= i < w0.tabs.len(),
                    0 <= j <= w0.tabs[i as int].len(),
                    forall|q: (usize, usize)|
                        #![trigger self@.view_at(q)]
                        w0.valid(q) ==> if pos_before(q, (i, j)) && w0.is_target(id, path@, q) {
                            replayed_view(w0.view_at(q), self@.view_at(q), log@)
                        } else {
                            self@.view_at(q) == w0.view_at(q)
                        },
                decreases w0.tabs[i as int].len() - j,
            {
                proof {
                    assert(self@.tabs[i as int].len() == w0.tabs[i as int].len());
                }
                let ghost w1 = self@;
                if (i != id.0 || j != id.1) && paths_equal(self.split_tab_file[i][j].path.as_str(), path.as_str()) {
                    proof {
                        assert(w0.is_target(id, path@, (i, j)));
                        assert(self@.view_at((i, j)) == w0.view_at((i, j)));
                    }
                    replay_into(&mut self.split_tab_file[i][j].edit, log);
                    proof {
                        assert(self@.tabs =~= w1.tabs.update(i as int, w1.tabs[i as int].update(j as int, self@.view_at((i, j)))));
                        assert(replayed_view(w0.view_at((i, j)), self@.view_at((i, j)), log@));
                    }
                } else {
                    proof {
                        assert(!w0.is_target(id, path@, (i, j)));
                    }
                }
                proof {
                    assert forall|q: (usize, usize)|
                        #![trigger self@.view_at(q)]
                        w0.valid(q) implies if pos_before(q, (i, (j + 1) as usize)) && w0.is_target(id, path@, q) {
                            replayed_view(w0.view_at(q), self@.view_at(q), log@)
                        } else {
                            self@.view_at(q) == w0.view_at(q)
                        } by {
                        if q != (i, j) {
                            assert(self@.view_at(q) == w1.view_at(q));
                        }
                    }
                }
                j = j + 1;
            }
            i = i + 1;
        }
        proof {
            assert forall|k: int| 0 <= k < self@.tabs.len() implies #[trigger] self@.tabs[k].len() > 0 && (
            self@.active[k] matches Some(a) && (a as int) < self@.tabs[k].len()) by {
                assert(w0.tabs[k].len() > 0);
                assert(self@.tabs[k].len() == w0.tabs[k].len());
            }
        }
    }

    /// One sync pass: the selected view hands out the edits it made since
    /// the last pass, and every other view of its file replays them. The
    /// positions that replayed are returned; their markdown needs parsing
    /// again. See [`WorkspaceView::synced`].
    ///
    /// The other views must be able to replay the edits: they must be in
    /// step with the selected one, as they are while only one view of a
    /// file is edited between passes.
    pub fn sync_edit(&mut self) -> (r: Vec<(usize, usize)>)
        requires
            old(self)@.wf(),
            old(self)@.replay_fits(),
        ensures
            old(self)@.synced(final(self)@),
            old(self)@.selection() is None ==> r@.len() == 0,
            old(self)@.selection() matches Some(p) ==> if pending_log(old(self)@.view_at(p).edit).len() > 0 {
                old(self)@.targets_exact(p, old(self)@.view_at(p).path@, r@)
            } else {
                r@.len() == 0
            },
            final(self)@.wf(),
    {
        let ghost w0 = self@;
        match self.selected_pos() {
            None => Vec::new(),
            Some(p) => {
                let path = self.split_tab_file[p.0][p.1].path.clone();
                match self.roll_forward_edit() {
                    None => Vec::new(),
                    Some(plan) => {
                        let ghost w1 = self@;
                        proof {
                            assert forall|q: (usize, usize)| w1.is_target(p, path@, q) <==> w0.is_target(p, path@, q) by {
                                if w1.valid(q) && q != p {
                                    assert(w1.view_at(q) == w0.view_at(q));
                                }
                            }
                            assert forall|q: (usize, usize)|
                                #![trigger w1.view_at(q)]
                                w1.is_target(p, path@, q) implies replay_outcome(w1.view_at(q).edit, plan.log@) is Some by {
                                assert(w0.is_target(p, path@, q));
                                assert(w1.view_at(q) == w0.view_at(q));
                            }
                        }
                        self.replay(p, &path, &plan.log);
                        proof {
                            assert(w1 == w0.with_view(p, w1.view_at(p)));
                            assert(self@.view_at(p) == w1.view_at(p));
                            assert(w0.with_view(p, self@.view_at(p)) == w1);
                            assert forall|k: int| 0 <= k < plan.targets@.len() implies w0.is_target(p, path@, #[trigger] plan.targets@[k]) by {
                                assert(w1.is_target(p, path@, plan.targets@[k]));
                            }
                            assert forall|q: (usize, usize)| w0.is_target(p, path@, q) implies #[trigger] plan.targets@.contains(q) by {
                                assert(w1.is_target(p, path@, q));
                            }
                        }
                        plan.targets
                    },
                }
            },
        }
    }

    /// Selects the first view that shows `path`. False, and nothing
    /// changes, where no view shows it.
    pub fn select_path(&mut self, path: &String) -> (r: bool)
        requires
            old(self)@.wf(),
        ensures
            r ==> exists|p: (usize, usize)| old(self)@.first_with_path(path@, p) && final(self)@ == old(self)@.selected(p),
            !r ==> final(self)@ == old(self)@ && forall|q: (usize, usize)|
                #![trigger old(self)@.view_at(q)]
                old(self)@.valid(q) ==> !path_eq(old(self)@.view_at(q).path@, path@),
            final(self)@.wf(),
    {
        match self.for_path(path) {
            Some(p) => {
                self.select(p);
                true
            },
            None => false,
        }
    }

    /// Opens a copy of the first view that shows `path` at `pos` and selects
    /// it; see [`SplitTabState::share_view`]. False, and nothing changes,
    /// where no view shows `path`: the file is then read and opened anew.
    pub fn open_copy_at(&mut self, pos: (usize, usize), path: &String) -> (r: bool)
        requires
            old(self)@.wf(),
            old(self)@.insertable(pos),
        ensures
            r ==> exists|from: (usize, usize), src: MDFileState, copy: MDFileState| {
                &&& old(self)@.first_with_path(path@, from)
                &&& same_content(src, old(self)@.view_at(from))
                &&& same_content(copy, old(self)@.view_at(from))
                &&& (undo_count(old(self)@.view_at(from).edit) is Some ==> replay_on(src.edit) && replay_on(copy.edit))
                &&& final(self)@ == old(self)@.with_view(from, src).opened(pos, copy).selected(pos)
            },
            !r ==> final(self)@ == old(self)@ && forall|q: (usize, usize)|
                #![trigger old(self)@.view_at(q)]
                old(self)@.valid(q) ==> !path_eq(old(self)@.view_at(q).path@, path@),
            final(self)@.wf(),
    {
        let ghost w0 = self@;
        match self.for_path(path) {
            Some(from) => {
                let copy = self.share_view(from);
                let ghost src = self@.view_at(from);
                proof {
                    assert(self@.insertable(pos));
                }
                self.open_in(pos, copy);
                proof {
                    assert(w0.first_with_path(path@, from));
                    assert(self@ == w0.with_view(from, src).opened(pos, copy).selected(pos));
                }
                true
            },
            None => false,
        }
    }
}

/// Opening keeps the workspace invariant.
pub proof fn lemma_opened_wf(w: WorkspaceView, pos: (usize, usize), v: MDFileState)
    requires
        w.wf(),
        w.insertable(pos),
    ensures
        w.opened(pos, v).wf(),
{
    let o = w.opened(pos, v);
    assert forall|i: int| 0 <= i < o.tabs.len() implies #[trigger] o.tabs[i].len() > 0 && (
    o.active[i] matches Some(a) && (a as int) < o.tabs[i].len()) by {
        if i != pos.0 {
            assert(w.tabs[i].len() > 0);
        }
    }
}


/// Closing keeps the workspace invariant.
pub proof fn lemma_closed_wf(w: WorkspaceView, pos: (usize, usize))
    requires
        w.wf(),
        w.valid(pos),
    ensures
        w.closed(pos).wf(),
{
    let c = w.closed(pos);
    let row = w.tabs[pos.0 as int].remove(pos.1 as int);
    if row.len() > 0 {
        assert forall|i: int| 0 <= i < c.tabs.len() implies #[trigger] c.tabs[i].len() > 0 && (
        c.active[i] matches Some(a) && (a as int) < c.tabs[i].len()) by {
            if i != pos.0 {
                assert(w.tabs[i].len() > 0);
            }
        }
    } else {
        assert forall|i: int| 0 <= i < c.tabs.len() implies #[trigger] c.tabs[i].len() > 0 && (
        c.active[i] matches Some(a) && (a as int) < c.tabs[i].len()) by {
            if i < pos.0 {
                assert(w.tabs[i].len() > 0);
            } else {
                assert(w.tabs[i + 1].len() > 0);
            }
        }
    }
}

/// Selecting keeps the workspace invariant.
pub proof fn lemma_selected_wf(w: WorkspaceView, pos: (usize, usize))
    requires
        w.wf(),
    ensures
        w.selected(pos).wf(),
{
    let c = w.selected(pos);
    if w.valid(pos) {
        assert forall|i: int| 0 <= i < c.tabs.len() implies #[trigger] c.tabs[i].len() > 0 && (
        c.active[i] matches Some(a) && (a as int) < c.tabs[i].len()) by {
            assert(w.tabs[i].len() > 0);
        }
    }
}

} // verus!
