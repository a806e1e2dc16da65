//! The per-output window collection: ingests window upserts and deletes
//! and workspace changes, and reconciles the visual container with the
//! minimal structural diff.

use vstd::prelude::*;
use crate::model::Window;
use crate::model::WindowView;
use crate::model::Workspace;
use crate::model::WorkspaceView;
use crate::order::lemma_visible_order_members;
use crate::order::spec_on_workspace;
use crate::order::spec_visible_order;
use crate::order::visible_indices;
use crate::order::widget_views;
use crate::order::windows_of;
use crate::window_widget::entry_wf;
use crate::window_widget::spec_initial_node;
use crate::window_widget::spec_refreshed;
use crate::window_widget::WindowWidget;
use crate::window_widget::WindowWidgetView;

verus! {

/// Mathematical image of a [`WindowContainer`].
#[verifier::ext_equal]
pub struct WindowContainerView {
    pub workspace_id: u64,
    pub widgets: Seq<WindowWidgetView>,
    pub holder: Seq<u64>,
    pub focused_id: Option<u64>,
    pub dirty: bool,
    pub output_name: Seq<char>,
}

/// Does some entry own the window with this id?
pub open spec fn spec_has_id(es: Seq<WindowWidgetView>, id: u64) -> bool {
    exists|k: int| 0 <= k < es.len() && (#[trigger] es[k]).window.id == id
}

/// The index of the entry owning the window with this id (unique in a
/// well-formed collection).
pub open spec fn spec_idx_of(es: Seq<WindowWidgetView>, id: u64) -> int {
    choose|k: int| 0 <= k < es.len() && (#[trigger] es[k]).window.id == id
}

/// Well-formed collection: entry ids are pairwise distinct and every
/// entry is well-formed.
pub open spec fn spec_container_wf(c: WindowContainerView) -> bool {
    &&& forall|i: int, j: int|
        0 <= i < j < c.widgets.len() ==> (#[trigger] c.widgets[i]).window.id
            != (#[trigger] c.widgets[j]).window.id
    &&& forall|i: int| 0 <= i < c.widgets.len() ==> entry_wf(#[trigger] c.widgets[i])
}

/// The ids of the entries in visible order: the desired children of the
/// visual container.
pub open spec fn spec_visible_ids(c: WindowContainerView) -> Seq<u64> {
    spec_visible_order(windows_of(c.widgets), c.workspace_id).map_values(
        |k: usize| c.widgets[k as int].window.id,
    )
}

/// Effect of ingesting a window upsert. An unknown id appends a fresh
/// entry and marks the collection dirty; the entry's node becomes a
/// child of the container only at the next reconciliation, and only if
/// its workspace is the displayed one. A known id delegates to the
/// entry's data update; the collection becomes dirty if the entry
/// changed, or already when the incoming window sits on the displayed
/// workspace.
pub open spec fn spec_upsert(c: WindowContainerView, w: WindowView) -> WindowContainerView {
    if spec_has_id(c.widgets, w.id) {
        let i = spec_idx_of(c.widgets, w.id);
        let e = c.widgets[i];
        let changed = e.window != w;
        let e2 = if changed {
            WindowWidgetView { window: w, widget: e.widget, dirty: true }
        } else {
            e
        };
        WindowContainerView {
            widgets: c.widgets.update(i, e2),
            dirty: c.dirty || spec_on_workspace(w, c.workspace_id) || changed,
            ..c
        }
    } else {
        WindowContainerView {
            widgets: c.widgets.push(
                WindowWidgetView { window: w, widget: spec_initial_node(w), dirty: true },
            ),
            dirty: true,
            ..c
        }
    }
}

/// Effect of ingesting a window delete: a present id loses exactly its
/// entry and marks the collection dirty; an absent id changes nothing.
pub open spec fn spec_delete(c: WindowContainerView, id: u64) -> WindowContainerView {
    if spec_has_id(c.widgets, id) {
        WindowContainerView {
            widgets: c.widgets.remove(spec_idx_of(c.widgets, id)),
            dirty: true,
            ..c
        }
    } else {
        c
    }
}

/// Effect of a workspace change: a focused workspace of this collection's
/// output is adopted as the displayed workspace; any other is ignored.
pub open spec fn spec_adopt_workspace(
    c: WindowContainerView,
    ws: WorkspaceView,
) -> WindowContainerView {
    if ws.focused && ws.output == Some(c.output_name) {
        WindowContainerView { workspace_id: ws.id, dirty: true, ..c }
    } else {
        c
    }
}

/// Every entry on the displayed workspace refreshed, the others untouched.
pub open spec fn spec_refresh_visible(
    es: Seq<WindowWidgetView>,
    workspace_id: u64,
) -> Seq<WindowWidgetView> {
    es.map_values(
        |e: WindowWidgetView|
            if spec_on_workspace(e.window, workspace_id) {
                spec_refreshed(e)
            } else {
                e
            },
    )
}

/// Effect of reconciliation: nothing happens unless the collection is
/// dirty. A dirty collection refreshes the entries on the displayed
/// workspace, makes their ids, in visible order, the container's exact
/// children, and comes out clean.
pub open spec fn spec_reconcile(c: WindowContainerView) -> WindowContainerView {
    if !c.dirty {
        c
    } else {
        WindowContainerView {
            widgets: spec_refresh_visible(c.widgets, c.workspace_id),
            holder: spec_visible_ids(c),
            dirty: false,
            ..c
        }
    }
}

/// One reconciled window collection for one output.
#[derive(Debug)]
pub struct WindowContainer {
    pub workspace_id: u64,
    pub widgets: Vec<WindowWidget>,
    pub holder: Vec<u64>,
    pub focused_id: Option<u64>,
    pub dirty: bool,
    pub output_name: String,
}

impl View for WindowContainer {
    type V = WindowContainerView;

    open spec fn view(&self) -> WindowContainerView {
        WindowContainerView {
            workspace_id: self.workspace_id,
            widgets: widget_views(self.widgets@),
            holder: self.holder@,
            focused_id: self.focused_id,
            dirty: self.dirty,
            output_name: self.output_name@,
        }
    }
}

impl WindowContainer {
    /// Creates the empty collection for one output: no entries, no
    /// children, no displayed workspace yet, and dirty so that the first
    /// reconciliation runs.
    pub fn new(output_name: String) -> (r: WindowContainer)
        ensures
            r@ == (WindowContainerView {
                workspace_id: 0,
                widgets: Seq::<WindowWidgetView>::empty(),
                holder: Seq::<u64>::empty(),
                focused_id: None,
                dirty: true,
                output_name: output_name@,
            }),
            spec_container_wf(r@),
    {
        let r = WindowContainer {
            workspace_id: 0,
            widgets: Vec::new(),
            holder: Vec::new(),
            focused_id: None,
            dirty: true,
            output_name,
        };
        proof {
            assert(widget_views(r.widgets@) =~= Seq::<WindowWidgetView>::empty());
        }
        r
    }

    /// Finds the entry owning this window id, if any.
    fn find_index(&self, id: u64) -> (r: Option<usize>)
        ensures
            match r {
                Some(i) => i < self@.widgets.len() && self@.widgets[i as int].window.id == id,
                None => !spec_has_id(self@.widgets, id),
            },
    {
        let mut i: usize = 0;
        while i < self.widgets.len()
            invariant
                i <= self@.widgets.len(),
                self@.widgets.len() == self.widgets@.len(),
                forall|k: int| 0 <= k < i ==> (#[trigger] self@.widgets[k]).window.id != id,
            decreases self.widgets@.len() - i,
        {
            if self.widgets[i].window.id == id {
                proof {
                    assert(self@.widgets[i as int] == self.widgets@[i as int]@);
                }
                return Some(i);
            }
            proof {
                assert(self@.widgets[i as int] == self.widgets@[i as int]@);
            }
            i += 1;
        }
        None
    }

    /// Ingests a window upsert, as [`spec_upsert`] describes.
    pub fn on_window_overwrite(&mut self, window: &Window)
        requires
            spec_container_wf(old(self)@),
        ensures
            final(self)@ == spec_upsert(old(self)@, window@),
            spec_container_wf(final(self)@),
    {
        match self.find_index(window.id) {
            Some(i) => {
                proof {
                    let j = spec_idx_of(old(self)@.widgets, window@.id);
                    assert(spec_has_id(old(self)@.widgets, window@.id));
                    if j != i as int {
                        assert(old(self)@.widgets[j].window.id
                            == old(self)@.widgets[i as int].window.id);
                        assert(false);
                    }
                }
                let relevant = match window.workspace_id {
                    Some(w) => w == self.workspace_id,
                    None => false,
                };
                if relevant {
                    self.dirty = true;
                }
                let changed = self.widgets[i].update_data(window.duplicate());
                if changed {
                    self.dirty = true;
                }
                proof {
                    assert(widget_views(self.widgets@) =~= old(self)@.widgets.update(
                        i as int,
                        widget_views(self.widgets@)[i as int],
                    ));
                    assert(self@ =~= spec_upsert(old(self)@, window@));
                }
            },
            None => {
                let entry = WindowWidget::new(window.duplicate());
                self.widgets.push(entry);
                self.dirty = true;
                proof {
                    assert(widget_views(self.widgets@) =~= widget_views(old(self).widgets@).push(
                        entry@,
                    ));
                    assert(self@ =~= spec_upsert(old(self)@, window@));
                    assert forall|a: int, b: int|
                        0 <= a < b < self@.widgets.len() implies (#[trigger] self@.widgets[a]).window.id
                        != (#[trigger] self@.widgets[b]).window.id by {
                        if b == self@.widgets.len() - 1 {
                            assert(!spec_has_id(old(self)@.widgets, window@.id));
                            assert(old(self)@.widgets[a].window.id != window@.id);
                        }
                    }
                }
            },
        }
    }

    /// Ingests a window delete, as [`spec_delete`] describes.
    pub fn on_window_delete(&mut self, window_id: u64)
        requires
            spec_container_wf(old(self)@),
        ensures
            final(self)@ == spec_delete(old(self)@, window_id),
            spec_container_wf(final(self)@),
    {
        match self.find_index(window_id) {
            Some(i) => {
                proof {
                    let j = spec_idx_of(old(self)@.widgets, window_id);
                    assert(spec_has_id(old(self)@.widgets, window_id));
                    if j != i as int {
                        assert(old(self)@.widgets[j].window.id
                            == old(self)@.widgets[i as int].window.id);
                        assert(false);
                    }
                }
                self.widgets.remove(i);
                self.dirty = true;
                proof {
                    assert(widget_views(self.widgets@) =~= old(self)@.widgets.remove(i as int));
                    assert(self@ =~= spec_delete(old(self)@, window_id));
                }
            },
            None => {},
        }
    }

    /// Adopts a focused workspace of this output as the displayed
    /// workspace, as [`spec_adopt_workspace`] describes.
    pub fn on_workspace_change(&mut self, workspace: &Workspace)
        ensures
            final(self)@ == spec_adopt_workspace(old(self)@, workspace@),
    {
        let of_this_output = match &workspace.output {
            Some(o) => *o == self.output_name,
            None => false,
        };
        if workspace.focused && of_this_output {
            self.workspace_id = workspace.id;
            self.dirty = true;
        }
        proof {
            assert(self@ =~= spec_adopt_workspace(old(self)@, workspace@));
        }
    }

    /// Reconciles the visual container, as [`spec_reconcile`] describes:
    /// a no-op unless dirty; otherwise the entries on the displayed
    /// workspace are refreshed and become, in visible order, the exact
    /// children of the container.
    pub fn update_view(&mut self)
        ensures
            final(self)@ == spec_reconcile(old(self)@),
    {
        if !self.dirty {
            return;
        }
        let ghost c0 = self@;
        let ghost ws = windows_of(c0.widgets);
        let nw = self.widgets.len();
        let ord = visible_indices(&self.widgets, self.workspace_id);
        proof {
            assert(ws.len() == c0.widgets.len());
            assert(c0.widgets.len() == self.widgets@.len());
            assert(ws.len() == nw as int);
            lemma_visible_order_members(ws, self.workspace_id);
        }
        let mut ids: Vec<u64> = Vec::new();
        let mut k: usize = 0;
        while k < ord.len()
            invariant
                k <= ord@.len(),
                ws.len() <= usize::MAX,
                ord@ == spec_visible_order(ws, c0.workspace_id),
                c0.workspace_id == self.workspace_id,
                c0.holder == self.holder@,
                c0.focused_id == self.focused_id,
                c0.output_name == self.output_name@,
                self.dirty,
                ws == windows_of(c0.widgets),
                c0.widgets.len() == self.widgets@.len(),
                forall|j: int|
                    0 <= j < ord@.len() ==> (#[trigger] ord@[j]) < self.widgets@.len(),
                forall|j: int|
                    0 <= j < self.widgets@.len() ==> #[trigger] widget_views(self.widgets@)[j]
                        == (if ord@.take(k as int).contains(j as usize) {
                            spec_refreshed(c0.widgets[j])
                        } else {
                            c0.widgets[j]
                        }),
                ids@ == ord@.take(k as int).map_values(
                    |q: usize| c0.widgets[q as int].window.id,
                ),
            decreases ord@.len() - k,
        {
            let i = ord[k];
            let ghost prev = self.widgets@;
            proof {
                lemma_visible_order_members(ws, c0.workspace_id);
                assert(widget_views(prev)[i as int] == prev[i as int]@);
                if ord@.take(k as int).contains(i) {
                    let q = choose|q: int|
                        0 <= q < ord@.take(k as int).len() && ord@.take(k as int)[q] == i;
                    assert(ord@.take(k as int)[q] == ord@[q]);
                    assert(ord@[q] == ord@[k as int]);
                    assert(false);
                }
                assert(prev[i as int]@ == c0.widgets[i as int]);
            }
            self.widgets[i].update_view();
            ids.push(self.widgets[i].window.id);
            proof {
                lemma_visible_order_members(ws, c0.workspace_id);
                assert(ord@.take(k + 1) =~= ord@.take(k as int).push(ord@[k as int]));
                assert(ord@.no_duplicates());
                assert(self.widgets@ =~= prev.update(i as int, self.widgets@[i as int]));
                assert(self.widgets@[i as int]@ == spec_refreshed(c0.widgets[i as int]));
                assert forall|j: int|
                    0 <= j < self.widgets@.len() implies #[trigger] widget_views(self.widgets@)[j]
                    == (if ord@.take(k + 1).contains(j as usize) {
                        spec_refreshed(c0.widgets[j])
                    } else {
                        c0.widgets[j]
                    }) by {
                    assert(widget_views(self.widgets@)[j] == self.widgets@[j]@);
                    assert(widget_views(prev)[j] == prev[j]@);
                    if j == i as int {
                        assert(ord@.take(k + 1)[k as int] == i);
                        assert(ord@.take(k + 1).contains(i));
                    } else {
                        assert(self.widgets@[j]@ == prev[j]@);
                        assert(ord@.take(k + 1).contains(j as usize) == ord@.take(
                            k as int,
                        ).contains(j as usize));
                    }
                }
                assert(ids@ =~= ord@.take(k + 1).map_values(
                    |q: usize| c0.widgets[q as int].window.id,
                ));
            }
            k += 1;
        }
        self.holder = ids;
        self.dirty = false;
        proof {
            lemma_visible_order_members(ws, c0.workspace_id);
            assert(ord@.take(ord@.len() as int) =~= ord@);
            assert forall|j: int| 0 <= j < self.widgets@.len() implies #[trigger] widget_views(
                self.widgets@,
            )[j] == spec_refresh_visible(c0.widgets, c0.workspace_id)[j] by {
                assert(ws[j] == c0.widgets[j].window);
                if spec_on_workspace(c0.widgets[j].window, c0.workspace_id) {
                    assert(ord@.contains(j as usize));
                } else {
                    if ord@.contains(j as usize) {
                        let q = choose|q: int| 0 <= q < ord@.len() && ord@[q] == j as usize;
                        assert(spec_on_workspace(ws[ord@[q] as int], c0.workspace_id));
                        assert(false);
                    }
                }
            }
            assert(widget_views(self.widgets@) =~= spec_refresh_visible(
                c0.widgets,
                c0.workspace_id,
            ));
            assert(self@ =~= spec_reconcile(c0));
        }
    }
}

} // verus!
