//! The per-output workspace collection: ingests workspace upserts and
//! deletes, tracks the current workspace, and reconciles the summary
//! label `<name> / <count>`.

use vstd::prelude::*;
use crate::model::Workspace;
use crate::model::WorkspaceView;
use crate::text::format_label;
use crate::text::spec_label;
use crate::workspace_widget::WorkspaceWidget;
use crate::workspace_widget::WorkspaceWidgetView;

verus! {

/// Mathematical image of a [`WorkspaceContainer`].
#[verifier::ext_equal]
pub struct WorkspaceContainerView {
    pub entries: Seq<WorkspaceWidgetView>,
    pub indicator: Seq<char>,
    pub output_name: Seq<char>,
    pub current_workspace_id: Option<u64>,
    pub dirty: bool,
}

/// Does some entry hold the workspace with this id?
pub open spec fn spec_ws_has_id(es: Seq<WorkspaceWidgetView>, id: u64) -> bool {
    exists|k: int| 0 <= k < es.len() && (#[trigger] es[k]).workspace.id == id
}

/// The index of the entry holding the workspace with this id (unique in
/// a well-formed collection).
pub open spec fn spec_ws_idx_of(es: Seq<WorkspaceWidgetView>, id: u64) -> int {
    choose|k: int| 0 <= k < es.len() && (#[trigger] es[k]).workspace.id == id
}

/// Well-formed collection: entry ids are pairwise distinct.
pub open spec fn spec_ws_wf(c: WorkspaceContainerView) -> bool {
    forall|i: int, j: int|
        0 <= i < j < c.entries.len() ==> (#[trigger] c.entries[i]).workspace.id
            != (#[trigger] c.entries[j]).workspace.id
}

/// Effect of ingesting a workspace upsert. A workspace owned by another
/// output is silently ignored. One of this output overwrites or creates
/// its entry, becomes the current workspace when it is active, and marks
/// the collection dirty.
pub open spec fn spec_ws_upsert(
    c: WorkspaceContainerView,
    w: WorkspaceView,
) -> WorkspaceContainerView {
    if w.output != Some(c.output_name) {
        c
    } else {
        let cur = if w.active {
            Some(w.id)
        } else {
            c.current_workspace_id
        };
        let e = WorkspaceWidgetView { workspace: w };
        let entries = if spec_ws_has_id(c.entries, w.id) {
            c.entries.update(spec_ws_idx_of(c.entries, w.id), e)
        } else {
            c.entries.push(e)
        };
        WorkspaceContainerView { entries, current_workspace_id: cur, dirty: true, ..c }
    }
}

/// Effect of ingesting a workspace delete: a present id loses its entry,
/// an absent id changes nothing. No output filter applies and the dirty
/// flag is left alone — a deliberate asymmetry with the window
/// collection, kept as the applet behaves.
pub open spec fn spec_ws_delete(c: WorkspaceContainerView, id: u64) -> WorkspaceContainerView {
    if spec_ws_has_id(c.entries, id) {
        WorkspaceContainerView { entries: c.entries.remove(spec_ws_idx_of(c.entries, id)), ..c }
    } else {
        c
    }
}

/// Number of entries below `n` whose workspace is owned by this output.
pub open spec fn spec_count_upto(es: Seq<WorkspaceWidgetView>, output: Seq<char>, n: int) -> int
    decreases n,
{
    if n <= 0 {
        0
    } else {
        spec_count_upto(es, output, n - 1) + (if es[n - 1].workspace.output == Some(output) {
            1int
        } else {
            0int
        })
    }
}

/// Number of entries whose workspace is owned by this output.
pub open spec fn spec_output_count(es: Seq<WorkspaceWidgetView>, output: Seq<char>) -> int {
    spec_count_upto(es, output, es.len() as int)
}

/// The name part of the summary: the current workspace's name when its
/// entry exists and is owned by this output, else a placeholder.
pub open spec fn spec_current_name(c: WorkspaceContainerView) -> Seq<char> {
    match c.current_workspace_id {
        Some(id) => if spec_ws_has_id(c.entries, id) && c.entries[spec_ws_idx_of(
            c.entries,
            id,
        )].workspace.output == Some(c.output_name) {
            c.entries[spec_ws_idx_of(c.entries, id)].workspace.name
        } else {
            "?"@
        },
        None => "?"@,
    }
}

/// Effect of reconciliation: nothing happens unless the collection is
/// dirty. A dirty collection recomputes the summary label
/// `<name> / <count>` and comes out clean.
pub open spec fn spec_ws_reconcile(c: WorkspaceContainerView) -> WorkspaceContainerView {
    if !c.dirty {
        c
    } else {
        WorkspaceContainerView {
            indicator: spec_label(
                spec_current_name(c),
                spec_output_count(c.entries, c.output_name),
            ),
            dirty: false,
            ..c
        }
    }
}

/// The views of a sequence of workspace entries.
pub open spec fn ws_entry_views(es: Seq<WorkspaceWidget>) -> Seq<WorkspaceWidgetView> {
    es.map_values(|e: WorkspaceWidget| e@)
}

/// One reconciled workspace collection for one output.
#[derive(Debug)]
pub struct WorkspaceContainer {
    pub workspace_widget_map: Vec<WorkspaceWidget>,
    pub indicator: String,
    pub output_name: String,
    pub current_workspace_id: Option<u64>,
    pub dirty: bool,
}

impl View for WorkspaceContainer {
    type V = WorkspaceContainerView;

    open spec fn view(&self) -> WorkspaceContainerView {
        WorkspaceContainerView {
            entries: ws_entry_views(self.workspace_widget_map@),
            indicator: self.indicator@,
            output_name: self.output_name@,
            current_workspace_id: self.current_workspace_id,
            dirty: self.dirty,
        }
    }
}

impl WorkspaceContainer {
    /// Creates the empty collection for one output: no entries, an empty
    /// label, no current workspace, and dirty so that the first
    /// reconciliation runs.
    pub fn new(output_name: String) -> (r: WorkspaceContainer)
        ensures
            r@ == (WorkspaceContainerView {
                entries: Seq::<WorkspaceWidgetView>::empty(),
                indicator: Seq::<char>::empty(),
                output_name: output_name@,
                current_workspace_id: None,
                dirty: true,
            }),
            spec_ws_wf(r@),
    {
        let r = WorkspaceContainer {
            workspace_widget_map: Vec::new(),
            indicator: String::new(),
            output_name,
            current_workspace_id: None,
            dirty: true,
        };
        proof {
            assert(ws_entry_views(r.workspace_widget_map@) =~= Seq::<WorkspaceWidgetView>::empty());
        }
        r
    }

    /// Finds the entry holding this workspace id, if any.
    fn find_index(&self, id: u64) -> (r: Option<usize>)
        ensures
            match r {
                Some(i) => i < self@.entries.len() && self@.entries[i as int].workspace.id == id,
                None => !spec_ws_has_id(self@.entries, id),
            },
    {
        let mut i: usize = 0;
        while i < self.workspace_widget_map.len()
            invariant
                i <= self@.entries.len(),
                self@.entries.len() == self.workspace_widget_map@.len(),
                forall|k: int| 0 <= k < i ==> (#[trigger] self@.entries[k]).workspace.id != id,
            decreases self.workspace_widget_map@.len() - i,
        {
            proof {
                assert(self@.entries[i as int] == self.workspace_widget_map@[i as int]@);
            }
            if self.workspace_widget_map[i].workspace.id == id {
                return Some(i);
            }
            i += 1;
        }
        None
    }

    /// Ingests a workspace upsert, as [`spec_ws_upsert`] describes.
    pub fn on_workspace_overwrite(&mut self, workspace: &Workspace)
        requires
            spec_ws_wf(old(self)@),
        ensures
            final(self)@ == spec_ws_upsert(old(self)@, workspace@),
            spec_ws_wf(final(self)@),
    {
        let of_this_output = match &workspace.output {
            Some(o) => *o == self.output_name,
            None => false,
        };
        if !of_this_output {
            proof {
                assert(self@ =~= spec_ws_upsert(old(self)@, workspace@));
            }
            return;
        }
        if workspace.active {
            self.current_workspace_id = Some(workspace.id);
        }
        let entry = WorkspaceWidget::new(workspace.duplicate());
        match self.find_index(workspace.id) {
            Some(i) => {
                proof {
                    let j = spec_ws_idx_of(old(self)@.entries, workspace@.id);
                    assert(spec_ws_has_id(old(self)@.entries, workspace@.id));
                    if j != i as int {
                        assert(old(self)@.entries[j].workspace.id
                            == old(self)@.entries[i as int].workspace.id);
                        assert(false);
                    }
                }
                self.workspace_widget_map[i] = entry;
                self.dirty = true;
                proof {
                    assert(ws_entry_views(self.workspace_widget_map@) =~= old(
                        self,
                    )@.entries.update(i as int, WorkspaceWidgetView { workspace: workspace@ }));
                    assert(self@ =~= spec_ws_upsert(old(self)@, workspace@));
                }
            },
            None => {
                self.workspace_widget_map.push(entry);
                self.dirty = true;
                proof {
                    assert(ws_entry_views(self.workspace_widget_map@) =~= old(
                        self,
                    )@.entries.push(WorkspaceWidgetView { workspace: workspace@ }));
                    assert(self@ =~= spec_ws_upsert(old(self)@, workspace@));
                    assert forall|a: int, b: int|
                        0 <= a < b < self@.entries.len() implies (#[trigger] self@.entries[a]).workspace.id
                        != (#[trigger] self@.entries[b]).workspace.id by {
                        if b == self@.entries.len() - 1 {
                            assert(!spec_ws_has_id(old(self)@.entries, workspace@.id));
                            assert(old(self)@.entries[a].workspace.id != workspace@.id);
                        }
                    }
                }
            },
        }
    }

    /// Ingests a workspace delete, as [`spec_ws_delete`] describes: the
    /// entry goes, the dirty flag is deliberately left alone.
    pub fn on_workspace_delete(&mut self, id: u64)
        requires
            spec_ws_wf(old(self)@),
        ensures
            final(self)@ == spec_ws_delete(old(self)@, id),
            spec_ws_wf(final(self)@),
    {
        match self.find_index(id) {
            Some(i) => {
                proof {
                    let j = spec_ws_idx_of(old(self)@.entries, id);
                    assert(spec_ws_has_id(old(self)@.entries, id));
                    if j != i as int {
                        assert(old(self)@.entries[j].workspace.id
                            == old(self)@.entries[i as int].workspace.id);
                        assert(false);
                    }
                }
                self.workspace_widget_map.remove(i);
                proof {
                    assert(ws_entry_views(self.workspace_widget_map@) =~= old(
                        self,
                    )@.entries.remove(i as int));
                    assert(self@ =~= spec_ws_delete(old(self)@, id));
                }
            },
            None => {},
        }
    }

    /// Reconciles the summary label, as [`spec_ws_reconcile`] describes:
    /// a no-op unless dirty; otherwise the label becomes
    /// `<name> / <count>` and the collection comes out clean.
    pub fn update_view(&mut self)
        requires
            spec_ws_wf(old(self)@),
        ensures
            final(self)@ == spec_ws_reconcile(old(self)@),
            spec_ws_wf(final(self)@),
    {
        if !self.dirty {
            return;
        }
        let ghost c0 = self@;
        let mut count: u64 = 0;
        let mut i: usize = 0;
        proof {
            lemma_count_upto_bounds(c0.entries, c0.output_name, c0.entries.len() as int);
        }
        while i < self.workspace_widget_map.len()
            invariant
                i <= c0.entries.len(),
                c0 == self@,
                c0.entries.len() == self.workspace_widget_map@.len(),
                count == spec_count_upto(c0.entries, c0.output_name, i as int),
                count <= i,
            decreases self.workspace_widget_map@.len() - i,
        {
            proof {
                assert(c0.entries[i as int] == self.workspace_widget_map@[i as int]@);
            }
            let owned = match &self.workspace_widget_map[i].workspace.output {
                Some(o) => *o == self.output_name,
                None => false,
            };
            if owned {
                count = count + 1;
            }
            i += 1;
        }
        let label = match self.current_workspace_id {
            Some(id) => match self.find_index(id) {
                Some(idx) => {
                    proof {
                        let j = spec_ws_idx_of(c0.entries, id);
                        assert(spec_ws_has_id(c0.entries, id));
                        if j != idx as int {
                            assert(c0.entries[j].workspace.id
                                == c0.entries[idx as int].workspace.id);
                            assert(false);
                        }
                        assert(c0.entries[idx as int] == self.workspace_widget_map@[idx as int]@);
                    }
                    let owned = match &self.workspace_widget_map[idx].workspace.output {
                        Some(o) => *o == self.output_name,
                        None => false,
                    };
                    if owned {
                        format_label(self.workspace_widget_map[idx].workspace.name.as_str(), count)
                    } else {
                        format_label("?", count)
                    }
                },
                None => format_label("?", count),
            },
            None => format_label("?", count),
        };
        self.indicator = label;
        self.dirty = false;
        proof {
            assert(self@ =~= spec_ws_reconcile(c0));
        }
    }
}

/// The per-output count never exceeds the number of entries looked at.
proof fn lemma_count_upto_bounds(es: Seq<WorkspaceWidgetView>, output: Seq<char>, n: int)
    ensures
        0 <= spec_count_upto(es, output, n) <= (if n >= 0 {
            n
        } else {
            0
        }),
    decreases n,
{
    if n > 0 {
        lemma_count_upto_bounds(es, output, n - 1);
    }
}

} // verus!
