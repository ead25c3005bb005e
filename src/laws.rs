//! What holds of the workspace across operations.

use crate::buffer::{buffer_text, pending_log, replay_outcome};
use crate::editor_file::MDFileState;
use crate::paths::path_eq;
use crate::split_tab::{
    lemma_closed_wf, lemma_opened_wf, lemma_selected_wf, shifted_active, WorkspaceView,
};
use vstd::prelude::*;

verus! {

/// One structural command on the workspace, as the contracts see it.
pub ghost enum WorkspaceOp {
    /// `open` of a view at a position.
    Open((usize, usize), MDFileState),
    /// `close` of a position.
    Close((usize, usize)),
    /// `select` of a position.
    Select((usize, usize)),
    /// `select_next`.
    SelectNext,
    /// `select_prev`.
    SelectPrev,
    /// `split`: the source view as it is afterwards, and its copy.
    Split(MDFileState, MDFileState),
}

/// The workspace after one command. An `open` at a position where no view
/// can go is refused by its contract and leaves the workspace alone here,
/// as does a `split` of a workspace no machine could hold.
pub open spec fn apply(w: WorkspaceView, op: WorkspaceOp) -> WorkspaceView {
    match op {
        WorkspaceOp::Open(pos, v) => if w.insertable(pos) {
            w.opened(pos, v)
        } else {
            w
        },
        WorkspaceOp::Close(pos) => if w.valid(pos) {
            w.closed(pos)
        } else {
            w
        },
        WorkspaceOp::Select(pos) => w.selected(pos),
        WorkspaceOp::SelectNext => w.stepped(true),
        WorkspaceOp::SelectPrev => w.stepped(false),
        WorkspaceOp::Split(src, copy) => match w.selection() {
            Some(p) => if w.fits() {
                w.with_view(p, src).opened(w.clone_pos(p.0), copy)
            } else {
                w
            },
            None => w,
        },
    }
}

/// The workspace after a run of commands, first to last.
pub open spec fn apply_all(w: WorkspaceView, ops: Seq<WorkspaceOp>) -> WorkspaceView
    decreases ops.len(),
{
    if ops.len() == 0 {
        w
    } else {
        apply_all(apply(w, ops[0]), ops.drop_first())
    }
}

/// Opening a view in an empty workspace and closing it again leaves an
/// empty workspace.
pub proof fn lemma_open_close_inverse(w: WorkspaceView, v: MDFileState)
    requires
        w.wf(),
        w.tabs.len() == 0,
    ensures
        w.opened((0, 0), v).closed((0, 0)) == w,
{
    let c = w.opened((0, 0), v).closed((0, 0));
    assert(c.tabs =~= w.tabs);
    assert(c.active =~= w.active);
}

/// Opening at a tab index up to the length of an existing split adds
/// exactly one tab to it, and its shown tab moves up by one where it stood
/// at or after that index.
pub proof fn lemma_open_shifts_active(w: WorkspaceView, pos: (usize, usize), v: MDFileState)
    requires
        w.wf(),
        pos.0 < w.tabs.len(),
        pos.1 <= w.tabs[pos.0 as int].len(),
    ensures
        w.opened(pos, v).tabs[pos.0 as int].len() == w.tabs[pos.0 as int].len() + 1,
        w.opened(pos, v).view_at(pos) == v,
        w.active[pos.0 as int] matches Some(a) && (a >= pos.1 ==> w.opened(pos, v).active[pos.0 as int]
            == Some((a + 1) as usize)) && (a < pos.1 ==> w.opened(pos, v).active[pos.0 as int]
            == Some(a)),
        forall|i: int| 0 <= i < w.tabs.len() && i != pos.0 ==> #[trigger] w.opened(pos, v).tabs[i] == w.tabs[i],
{
    assert(w.opened(pos, v).active[pos.0 as int] == shifted_active(w.active[pos.0 as int], pos.1));
}

/// Under the invariant a selection names an existing tab.
pub proof fn lemma_selection_valid(w: WorkspaceView)
    requires
        w.wf(),
    ensures
        w.selection() is None || w.valid(w.selection()->Some_0),
{
    if let Some(s) = w.sel_split {
        assert(w.tabs[s as int].len() > 0);
    }
}

/// Replacing one view keeps the invariant.
pub proof fn lemma_with_view_wf(w: WorkspaceView, p: (usize, usize), v: MDFileState)
    requires
        w.wf(),
        w.valid(p),
    ensures
        w.with_view(p, v).wf(),
{
    let c = w.with_view(p, v);
    assert forall|i: int| 0 <= i < c.tabs.len() implies #[trigger] c.tabs[i].len() > 0 && (
    c.active[i] matches Some(a) && (a as int) < c.tabs[i].len()) by {
        assert(w.tabs[i].len() > 0);
    }
}

/// Every single command keeps the invariant.
pub proof fn lemma_apply_wf(w: WorkspaceView, op: WorkspaceOp)
    requires
        w.wf(),
    ensures
        apply(w, op).wf(),
{
    match op {
        WorkspaceOp::Open(pos, v) => {
            if w.insertable(pos) {
                lemma_opened_wf(w, pos, v);
            }
        },
        WorkspaceOp::Close(pos) => {
            if w.valid(pos) {
                lemma_closed_wf(w, pos);
            }
        },
        WorkspaceOp::Select(pos) => {
            lemma_selected_wf(w, pos);
        },
        WorkspaceOp::SelectNext => {
            if let Some(n) = w.neighbour(true) {
                lemma_selected_wf(w, (n, match w.active[n as int] { Some(t) => t, None => 0 }));
            }
        },
        WorkspaceOp::SelectPrev => {
            if let Some(n) = w.neighbour(false) {
                lemma_selected_wf(w, (n, match w.active[n as int] { Some(t) => t, None => 0 }));
            }
        },
        WorkspaceOp::Split(src, copy) => {
            if let Some(p) = w.selection() {
                lemma_selection_valid(w);
                lemma_with_view_wf(w, p, src);
                if w.fits() {
                    let w1 = w.with_view(p, src);
                    lemma_opened_wf(w1, w.clone_pos(p.0), copy);
                }
            }
        },
    }
}

/// After any run of open, close, select, select_next, select_prev and
/// split commands the selection is either absent or names an existing
/// tab, and the workspace invariant still holds.
pub proof fn lemma_single_active_selection(w: WorkspaceView, ops: Seq<WorkspaceOp>)
    requires
        w.wf(),
    ensures
        apply_all(w, ops).wf(),
        apply_all(w, ops).selection() is None || apply_all(w, ops).valid(
            apply_all(w, ops).selection()->Some_0,
        ),
    decreases ops.len(),
{
    if ops.len() == 0 {
        lemma_selection_valid(w);
    } else {
        lemma_apply_wf(w, ops[0]);
        lemma_single_active_selection(apply(w, ops[0]), ops.drop_first());
    }
}

/// After `split`, changing the copy leaves the source view as it was:
/// the two share no state until a sync pass replays edits between them.
pub proof fn lemma_split_copy_is_independent(
    w: WorkspaceView,
    src: MDFileState,
    copy: MDFileState,
    changed: MDFileState,
)
    requires
        w.wf(),
        w.fits(),
        w.selection() is Some,
    ensures
        ({
            let p = w.selection()->Some_0;
            let c = w.clone_pos(p.0);
            let after = w.with_view(p, src).opened(c, copy);
            &&& after.valid(c)
            &&& after.view_at(c) == copy
            &&& after.with_view(c, changed).view_at(p) == after.view_at(p)
            &&& after.view_at(p) == src
        }),
{
    lemma_selection_valid(w);
}

/// A sync pass from the selected view reaches every other view of the same
/// file, in whatever split it stands, and no view of another file.
pub proof fn lemma_sync_reaches_copies(w: WorkspaceView, ts: Seq<(usize, usize)>, q: (usize, usize))
    requires
        w.wf(),
        w.selection() is Some,
        w.targets_exact(w.selection()->Some_0, w.view_at(w.selection()->Some_0).path@, ts),
        w.valid(q),
    ensures
        ({
            let p = w.selection()->Some_0;
            (ts.contains(q) <==> (q != p && path_eq(w.view_at(q).path@, w.view_at(p).path@)))
        }),
{
    let p = w.selection()->Some_0;
    if ts.contains(q) {
        let k = choose|k: int| 0 <= k < ts.len() && ts[k] == q;
        assert(w.is_target(p, w.view_at(p).path@, ts[k]));
    } else {
        if q != p && path_eq(w.view_at(q).path@, w.view_at(p).path@) {
            assert(w.is_target(p, w.view_at(p).path@, q));
        }
    }
}

/// Following focus to the same tab again changes nothing, so it can run on
/// every event.
pub proof fn lemma_select_idempotent(w: WorkspaceView, p: (usize, usize))
    requires
        w.wf(),
    ensures
        w.selected(p).selected(p) == w.selected(p),
{
    if w.valid(p) {
        assert(w.selected(p).selected(p).active =~= w.selected(p).active);
    }
}

/// After a sync pass, every other view of the selected view's file that
/// was in step with it (replaying its pending edits gives its text) holds
/// the same text as the selected view.
pub proof fn lemma_replication_consistency(w: WorkspaceView, after: WorkspaceView, q: (usize, usize))
    requires
        w.wf(),
        w.synced(after),
        w.selection() is Some,
        ({
            let p = w.selection()->Some_0;
            &&& w.valid(q)
            &&& q != p
            &&& path_eq(w.view_at(q).path@, w.view_at(p).path@)
            &&& pending_log(w.view_at(p).edit).len() > 0
            &&& replay_outcome(w.view_at(q).edit, pending_log(w.view_at(p).edit)) == Some(
                buffer_text(w.view_at(p).edit),
            )
        }),
    ensures
        buffer_text(after.view_at(q).edit) == buffer_text(after.view_at(w.selection()->Some_0).edit),
{
    let p = w.selection()->Some_0;
    lemma_selection_valid(w);
    let mid = w.with_view(p, after.view_at(p));
    assert(mid.view_at(q) == w.view_at(q));
    assert(mid.valid(q));
    assert(mid.is_target(p, w.view_at(p).path@, q));
}

/// A sync pass may always run where the selected view has nothing
/// pending, for instance right after a pass.
pub proof fn lemma_fits_without_pending_edits(w: WorkspaceView)
    requires
        w.selection() is Some ==> pending_log(w.view_at(w.selection()->Some_0).edit).len() == 0,
    ensures
        w.replay_fits(),
{
}

} // verus!
