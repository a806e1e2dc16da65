//! Collection-level laws: reconciliation is idempotent, coalesces any
//! burst of ingested events into one visual update, and leaves the
//! container's children filtered by workspace and stably ordered by
//! position.

use vstd::prelude::*;
use crate::model::WindowView;
use crate::model::WorkspaceView;
use crate::order::lemma_visible_order_members;
use crate::order::lemma_visible_order_sorted;
use crate::order::spec_on_workspace;
use crate::order::spec_visible_order;
use crate::order::windows_of;
use crate::window_container::spec_adopt_workspace;
use crate::window_container::spec_container_wf;
use crate::window_container::spec_delete;
use crate::window_container::spec_has_id;
use crate::window_container::spec_idx_of;
use crate::window_container::spec_reconcile;
use crate::window_container::spec_refresh_visible;
use crate::window_container::spec_upsert;
use crate::window_container::spec_visible_ids;
use crate::window_container::WindowContainerView;
use crate::window_widget::entry_wf;
use crate::window_widget::spec_rendered;
use crate::window_widget::NodeView;
use crate::text::spec_label;
use crate::workspace_container::spec_current_name;
use crate::workspace_container::spec_output_count;
use crate::workspace_container::spec_ws_delete;
use crate::workspace_container::spec_ws_reconcile;
use crate::workspace_container::spec_ws_upsert;
use crate::workspace_container::WorkspaceContainerView;

verus! {

/// In step with the renderer: whenever the collection is clean, its
/// children are exactly the reconciled ids and every visible entry is
/// clean too. Reconciliation establishes this, every ingest keeps it.
pub open spec fn spec_in_step(c: WindowContainerView) -> bool {
    !c.dirty ==> {
        &&& c.holder == spec_visible_ids(c)
        &&& forall|j: int|
            0 <= j < c.widgets.len() && spec_on_workspace(
                (#[trigger] c.widgets[j]).window,
                c.workspace_id,
            ) ==> !c.widgets[j].dirty
    }
}

/// The whole collection invariant: well-formed and in step.
pub open spec fn spec_inv(c: WindowContainerView) -> bool {
    spec_container_wf(c) && spec_in_step(c)
}

/// A fresh collection satisfies the invariant: it has no entries and is
/// dirty. Every ingest ([`lemma_apply_inv`]) and every reconciliation
/// ([`lemma_reconcile_inv`]) preserves the invariant, so it holds of
/// every reachable collection; the order and filter invariants below
/// rest on nothing more.
pub proof fn lemma_initial_inv(c: WindowContainerView)
    requires
        c.widgets.len() == 0,
        c.dirty,
    ensures
        spec_inv(c),
{
}

/// Reconciliation touches no window snapshot, nor the displayed
/// workspace, the output, or the focus reference.
pub proof fn lemma_reconcile_preserves_model(c: WindowContainerView)
    ensures
        windows_of(spec_reconcile(c).widgets) == windows_of(c.widgets),
        spec_reconcile(c).workspace_id == c.workspace_id,
        spec_reconcile(c).output_name == c.output_name,
        spec_reconcile(c).focused_id == c.focused_id,
        spec_reconcile(c).widgets.len() == c.widgets.len(),
{
    if c.dirty {
        assert(windows_of(spec_refresh_visible(c.widgets, c.workspace_id)) =~= windows_of(
            c.widgets,
        ));
    }
}

/// Reconciliation leaves the same visible ids behind.
pub proof fn lemma_reconcile_preserves_visible_ids(c: WindowContainerView)
    requires
        c.widgets.len() <= usize::MAX,
    ensures
        spec_visible_ids(spec_reconcile(c)) == spec_visible_ids(c),
{
    lemma_reconcile_preserves_model(c);
    lemma_visible_order_members(windows_of(c.widgets), c.workspace_id);
    let d = spec_reconcile(c);
    assert(spec_visible_order(windows_of(d.widgets), d.workspace_id) == spec_visible_order(
        windows_of(c.widgets),
        c.workspace_id,
    ));
    assert(spec_visible_ids(d) =~= spec_visible_ids(c));
}

/// Reconciliation establishes (and keeps) the invariant.
pub proof fn lemma_reconcile_inv(c: WindowContainerView)
    requires
        spec_inv(c),
        c.widgets.len() <= usize::MAX,
    ensures
        spec_inv(spec_reconcile(c)),
{
    let d = spec_reconcile(c);
    if c.dirty {
        assert forall|i: int| 0 <= i < d.widgets.len() implies entry_wf(#[trigger] d.widgets[i]) by {
            assert(d.widgets[i] == spec_refresh_visible(c.widgets, c.workspace_id)[i]);
        }
        assert forall|i: int, j: int| 0 <= i < j < d.widgets.len() implies (#[trigger] d.widgets[i]).window.id
            != (#[trigger] d.widgets[j]).window.id by {
            assert(d.widgets[i].window == c.widgets[i].window);
            assert(d.widgets[j].window == c.widgets[j].window);
        }
        lemma_reconcile_preserves_visible_ids(c);
        assert(d.holder == spec_visible_ids(d));
        assert forall|j: int|
            0 <= j < d.widgets.len() && spec_on_workspace(
                (#[trigger] d.widgets[j]).window,
                d.workspace_id,
            ) implies !d.widgets[j].dirty by {
            assert(d.widgets[j] == spec_refresh_visible(c.widgets, c.workspace_id)[j]);
            assert(d.widgets[j].window == c.widgets[j].window);
        }
    }
}

/// Idempotent reconciliation: with no ingest in between, a second
/// reconciliation is a complete no-op — the state, and with it the
/// visual container, stays exactly as the first reconciliation left it.
pub proof fn lemma_reconcile_idempotent(c: WindowContainerView)
    ensures
        spec_reconcile(spec_reconcile(c)) == spec_reconcile(c),
{
}

/// Idempotent reconciliation for the workspace collection.
pub proof fn lemma_ws_reconcile_idempotent(c: WorkspaceContainerView)
    ensures
        spec_ws_reconcile(spec_ws_reconcile(c)) == spec_ws_reconcile(c),
{
}

/// Order invariant: after reconciliation the children are exactly the
/// ids of the entries on the displayed workspace, placed in
/// non-decreasing horizontal position; entries at equal positions keep
/// their insertion order.
pub proof fn lemma_order_invariant(c: WindowContainerView)
    requires
        spec_in_step(c),
        c.widgets.len() <= usize::MAX,
    ensures
        ({
            let d = spec_reconcile(c);
            let ws = windows_of(c.widgets);
            let ord = spec_visible_order(ws, c.workspace_id);
            &&& d.holder == ord.map_values(|q: usize| ws[q as int].id)
            &&& forall|a: int, b: int|
                0 <= a < b < ord.len() ==> ws[(#[trigger] ord[a]) as int].x
                    <= ws[(#[trigger] ord[b]) as int].x && (ws[ord[a] as int].x
                    == ws[ord[b] as int].x ==> ord[a] < ord[b])
        }),
{
    let d = spec_reconcile(c);
    let ws = windows_of(c.widgets);
    let ord = spec_visible_order(ws, c.workspace_id);
    lemma_visible_order_sorted(ws, c.workspace_id);
    lemma_visible_order_members(ws, c.workspace_id);
    assert(d.holder == spec_visible_ids(c));
    assert(spec_visible_ids(c) =~= ord.map_values(|q: usize| ws[q as int].id));
}

/// Filter invariant: after reconciliation, every child of the container
/// is the id of an entry on the displayed workspace, and every entry on
/// the displayed workspace has its id among the children.
pub proof fn lemma_filter_invariant(c: WindowContainerView)
    requires
        spec_in_step(c),
        c.widgets.len() <= usize::MAX,
    ensures
        ({
            let d = spec_reconcile(c);
            let ws = windows_of(c.widgets);
            let ord = spec_visible_order(ws, c.workspace_id);
            &&& d.holder.len() == ord.len()
            &&& forall|k: int|
                0 <= k < ord.len() ==> spec_on_workspace(
                    ws[(#[trigger] ord[k]) as int],
                    c.workspace_id,
                ) && d.holder[k] == ws[ord[k] as int].id
            &&& forall|i: usize|
                i < ws.len() && spec_on_workspace(ws[i as int], c.workspace_id) ==> ord.contains(i)
        }),
{
    let d = spec_reconcile(c);
    let ws = windows_of(c.widgets);
    let ord = spec_visible_order(ws, c.workspace_id);
    lemma_visible_order_members(ws, c.workspace_id);
    assert(d.holder == spec_visible_ids(c));
    assert(spec_visible_ids(c) =~= ord.map_values(|q: usize| ws[q as int].id));
}

/// No ingest attaches or detaches a node: the container's children are
/// written by reconciliation alone. In particular a freshly created
/// entry's node is not a child, so a node whose workspace is not the
/// displayed one never becomes one: reconciliation only ever attaches
/// entries of the displayed workspace.
pub proof fn lemma_ingest_leaves_children_alone(
    c: WindowContainerView,
    w: WindowView,
    ws: WorkspaceView,
    id: u64,
)
    ensures
        spec_upsert(c, w).holder == c.holder,
        spec_delete(c, id).holder == c.holder,
        spec_adopt_workspace(c, ws).holder == c.holder,
{
}

/// Deletion correctness: deleting an absent id changes nothing at all;
/// deleting a present id removes exactly that entry — the survivors keep
/// their order — and marks the collection dirty.
pub proof fn lemma_deletion_correct(c: WindowContainerView, id: u64)
    requires
        spec_container_wf(c),
    ensures
        !spec_has_id(c.widgets, id) ==> spec_delete(c, id) == c,
        spec_has_id(c.widgets, id) ==> ({
            let i = spec_idx_of(c.widgets, id);
            let d = spec_delete(c, id);
            &&& 0 <= i < c.widgets.len() && c.widgets[i].window.id == id
            &&& d.widgets.len() == c.widgets.len() - 1
            &&& !spec_has_id(d.widgets, id)
            &&& forall|k: int|
                0 <= k < d.widgets.len() ==> (#[trigger] d.widgets[k]) == (if k < i {
                    c.widgets[k]
                } else {
                    c.widgets[k + 1]
                })
            &&& d.dirty
        }),
{
    if spec_has_id(c.widgets, id) {
        let i = spec_idx_of(c.widgets, id);
        assert(0 <= i < c.widgets.len() && c.widgets[i].window.id == id);
        let d = spec_delete(c, id);
        c.widgets.remove_ensures(i);
        assert forall|k: int| 0 <= k < d.widgets.len() implies (#[trigger] d.widgets[k]).window.id
            != id by {
            assert(d.widgets[k] == (if k < i {
                c.widgets[k]
            } else {
                c.widgets[k + 1]
            }));
        }
    }
}

/// One ingest event a window collection can receive.
pub enum ContainerEvent {
    WindowUpsert { window: WindowView },
    WindowDelete { id: u64 },
    WorkspaceChange { workspace: WorkspaceView },
}

/// The effect of one ingested event.
pub open spec fn spec_apply(c: WindowContainerView, e: ContainerEvent) -> WindowContainerView {
    match e {
        ContainerEvent::WindowUpsert { window } => spec_upsert(c, window),
        ContainerEvent::WindowDelete { id } => spec_delete(c, id),
        ContainerEvent::WorkspaceChange { workspace } => spec_adopt_workspace(c, workspace),
    }
}

/// A burst of events, ingested in order with no reconciliation between.
pub open spec fn spec_apply_all(c: WindowContainerView, es: Seq<ContainerEvent>) -> WindowContainerView
    decreases es.len(),
{
    if es.len() == 0 {
        c
    } else {
        spec_apply(spec_apply_all(c, es.drop_last()), es.last())
    }
}

/// The same events, reconciling after every single one.
pub open spec fn spec_apply_all_reconciling(
    c: WindowContainerView,
    es: Seq<ContainerEvent>,
) -> WindowContainerView
    decreases es.len(),
{
    if es.len() == 0 {
        c
    } else {
        spec_reconcile(spec_apply(spec_apply_all_reconciling(c, es.drop_last()), es.last()))
    }
}

/// Two states agree on the model: the window snapshots in insertion
/// order, the displayed workspace, and the output. Ingestion reads and
/// writes nothing else.
pub open spec fn spec_same_model(a: WindowContainerView, b: WindowContainerView) -> bool {
    &&& windows_of(a.widgets) == windows_of(b.widgets)
    &&& a.workspace_id == b.workspace_id
    &&& a.output_name == b.output_name
}

/// The visible state: for each child of the container in order, its id
/// and the visual node it shows.
pub open spec fn spec_visible_nodes(c: WindowContainerView) -> Seq<(u64, NodeView)> {
    spec_visible_order(windows_of(c.widgets), c.workspace_id).map_values(
        |q: usize| (c.widgets[q as int].window.id, c.widgets[q as int].widget),
    )
}

/// One event grows the collection by at most one entry.
pub proof fn lemma_apply_len(c: WindowContainerView, e: ContainerEvent)
    ensures
        spec_apply(c, e).widgets.len() <= c.widgets.len() + 1,
{
}

/// Every ingested event keeps the collection invariant.
pub proof fn lemma_apply_inv(c: WindowContainerView, e: ContainerEvent)
    requires
        spec_inv(c),
    ensures
        spec_inv(spec_apply(c, e)),
{
    let d = spec_apply(c, e);
    match e {
        ContainerEvent::WindowUpsert { window } => {
            if spec_has_id(c.widgets, window.id) {
                let i = spec_idx_of(c.widgets, window.id);
                assert(0 <= i < c.widgets.len() && c.widgets[i].window.id == window.id);
                let changed = c.widgets[i].window != window;
                assert forall|a: int| 0 <= a < d.widgets.len() implies (#[trigger] d.widgets[a]).window.id
                    == c.widgets[a].window.id && entry_wf(d.widgets[a]) by {
                    if a != i {
                        assert(d.widgets[a] == c.widgets[a]);
                    }
                }
                if !changed && !spec_on_workspace(window, c.workspace_id) {
                    assert(d =~= c);
                }
            } else {
                assert forall|a: int, b: int| 0 <= a < b < d.widgets.len() implies (
                #[trigger] d.widgets[a]).window.id != (#[trigger] d.widgets[b]).window.id by {
                    if b == d.widgets.len() - 1 {
                        assert(c.widgets[a].window.id != window.id);
                    }
                }
                assert forall|a: int| 0 <= a < d.widgets.len() implies entry_wf(
                    #[trigger] d.widgets[a],
                ) by {
                    if a < c.widgets.len() {
                        assert(d.widgets[a] == c.widgets[a]);
                    }
                }
            }
        },
        ContainerEvent::WindowDelete { id } => {
            if spec_has_id(c.widgets, id) {
                let i = spec_idx_of(c.widgets, id);
                assert(0 <= i < c.widgets.len() && c.widgets[i].window.id == id);
                c.widgets.remove_ensures(i);
                assert forall|a: int, b: int| 0 <= a < b < d.widgets.len() implies (
                #[trigger] d.widgets[a]).window.id != (#[trigger] d.widgets[b]).window.id by {
                    assert(d.widgets[a] == (if a < i {
                        c.widgets[a]
                    } else {
                        c.widgets[a + 1]
                    }));
                    assert(d.widgets[b] == (if b < i {
                        c.widgets[b]
                    } else {
                        c.widgets[b + 1]
                    }));
                }
                assert forall|a: int| 0 <= a < d.widgets.len() implies entry_wf(
                    #[trigger] d.widgets[a],
                ) by {
                    assert(d.widgets[a] == (if a < i {
                        c.widgets[a]
                    } else {
                        c.widgets[a + 1]
                    }));
                }
            }
        },
        ContainerEvent::WorkspaceChange { workspace } => {},
    }
}

/// Two states with one model take one event to states with one model.
pub proof fn lemma_apply_model_congruence(
    a: WindowContainerView,
    b: WindowContainerView,
    e: ContainerEvent,
)
    requires
        spec_same_model(a, b),
        spec_container_wf(a),
        spec_container_wf(b),
    ensures
        spec_same_model(spec_apply(a, e), spec_apply(b, e)),
{
    let wsa = windows_of(a.widgets);
    let wsb = windows_of(b.widgets);
    assert(a.widgets.len() == wsa.len() && b.widgets.len() == wsb.len());
    assert forall|k: int| 0 <= k < a.widgets.len() implies (#[trigger] a.widgets[k]).window
        == b.widgets[k].window by {
        assert(wsa[k] == a.widgets[k].window && wsb[k] == b.widgets[k].window);
    }
    match e {
        ContainerEvent::WindowUpsert { window } => {
            let id = window.id;
            lemma_has_id_congruent(a, b, id);
            if spec_has_id(a.widgets, id) {
                let ia = spec_idx_of(a.widgets, id);
                let ib = spec_idx_of(b.widgets, id);
                assert(0 <= ia < a.widgets.len() && a.widgets[ia].window.id == id);
                assert(0 <= ib < b.widgets.len() && b.widgets[ib].window.id == id);
                assert(a.widgets[ib].window.id == id);
                if ia != ib {
                    assert(a.widgets[ia].window.id != a.widgets[ib].window.id);
                    assert(false);
                }
                assert(windows_of(spec_apply(a, e).widgets) =~= windows_of(
                    spec_apply(b, e).widgets,
                ));
            } else {
                assert(windows_of(spec_apply(a, e).widgets) =~= windows_of(
                    spec_apply(b, e).widgets,
                ));
            }
        },
        ContainerEvent::WindowDelete { id } => {
            lemma_has_id_congruent(a, b, id);
            if spec_has_id(a.widgets, id) {
                let ia = spec_idx_of(a.widgets, id);
                let ib = spec_idx_of(b.widgets, id);
                assert(0 <= ia < a.widgets.len() && a.widgets[ia].window.id == id);
                assert(0 <= ib < b.widgets.len() && b.widgets[ib].window.id == id);
                assert(a.widgets[ib].window.id == id);
                if ia != ib {
                    assert(a.widgets[ia].window.id != a.widgets[ib].window.id);
                    assert(false);
                }
                a.widgets.remove_ensures(ia);
                b.widgets.remove_ensures(ia);
                assert(windows_of(spec_apply(a, e).widgets) =~= windows_of(
                    spec_apply(b, e).widgets,
                ));
            }
        },
        ContainerEvent::WorkspaceChange { workspace } => {},
    }
}

/// Presence of an id is a fact about the model alone.
proof fn lemma_has_id_congruent(a: WindowContainerView, b: WindowContainerView, id: u64)
    requires
        spec_same_model(a, b),
    ensures
        spec_has_id(a.widgets, id) == spec_has_id(b.widgets, id),
{
    let wsa = windows_of(a.widgets);
    let wsb = windows_of(b.widgets);
    assert(wsa.len() == a.widgets.len() && wsb.len() == b.widgets.len());
    assert(a.widgets.len() == b.widgets.len());
    if spec_has_id(a.widgets, id) {
        assert(exists|k: int|
            0 <= k < a.widgets.len() && (#[trigger] a.widgets[k]).window.id == id);
        let k = choose|k: int| 0 <= k < a.widgets.len() && (#[trigger] a.widgets[k]).window.id == id;
        assert(0 <= k < a.widgets.len() && a.widgets[k].window.id == id);
        assert(wsa[k] == a.widgets[k].window && wsb[k] == b.widgets[k].window);
        assert(b.widgets[k].window.id == id);
    }
    if spec_has_id(b.widgets, id) {
        assert(exists|k: int|
            0 <= k < b.widgets.len() && (#[trigger] b.widgets[k]).window.id == id);
        let k = choose|k: int| 0 <= k < b.widgets.len() && (#[trigger] b.widgets[k]).window.id == id;
        assert(0 <= k < b.widgets.len() && b.widgets[k].window.id == id);
        assert(wsa[k] == a.widgets[k].window && wsb[k] == b.widgets[k].window);
        assert(a.widgets[k].window.id == id);
    }
}

/// After a reconciliation, the visible state is a function of the model
/// alone: any two invariant states with one model show one visible state.
pub proof fn lemma_visible_nodes_determined(a: WindowContainerView, b: WindowContainerView)
    requires
        spec_same_model(a, b),
        spec_inv(a),
        spec_inv(b),
        a.widgets.len() <= usize::MAX,
    ensures
        spec_visible_nodes(spec_reconcile(a)) == spec_visible_nodes(spec_reconcile(b)),
{
    let ws = windows_of(a.widgets);
    let ord = spec_visible_order(ws, a.workspace_id);
    lemma_visible_order_members(ws, a.workspace_id);
    lemma_reconcile_preserves_model(a);
    lemma_reconcile_preserves_model(b);
    let da = spec_reconcile(a);
    let db = spec_reconcile(b);
    lemma_visible_nodes_rendered(a);
    lemma_visible_nodes_rendered(b);
    assert(windows_of(b.widgets) == ws && b.workspace_id == a.workspace_id);
    assert(spec_visible_nodes(da) =~= spec_visible_nodes(db));
}

/// After a reconciliation, every visible node is the rendering of its
/// window snapshot.
proof fn lemma_visible_nodes_rendered(a: WindowContainerView)
    requires
        spec_inv(a),
        a.widgets.len() <= usize::MAX,
    ensures
        ({
            let ws = windows_of(a.widgets);
            let ord = spec_visible_order(ws, a.workspace_id);
            spec_visible_nodes(spec_reconcile(a)) == ord.map_values(
                |q: usize| (ws[q as int].id, spec_rendered(ws[q as int])),
            )
        }),
{
    let ws = windows_of(a.widgets);
    let ord = spec_visible_order(ws, a.workspace_id);
    lemma_visible_order_members(ws, a.workspace_id);
    lemma_reconcile_preserves_model(a);
    let da = spec_reconcile(a);
    assert(windows_of(da.widgets) == ws && da.workspace_id == a.workspace_id);
    assert forall|k: int| 0 <= k < ord.len() implies (#[trigger] spec_visible_nodes(da)[k]) == (
        ws[ord[k] as int].id,
        spec_rendered(ws[ord[k] as int]),
    ) by {
        let q = ord[k] as int;
        assert(0 <= q < a.widgets.len() && spec_on_workspace(ws[q], a.workspace_id));
        assert(ws[q] == a.widgets[q].window);
        assert(windows_of(da.widgets)[q] == da.widgets[q].window);
        if a.dirty {
            assert(da.widgets[q] == spec_refresh_visible(a.widgets, a.workspace_id)[q]);
        } else {
            assert(!a.widgets[q].dirty);
            assert(entry_wf(a.widgets[q]));
        }
        assert(da.widgets[q].widget == spec_rendered(ws[q]));
        assert(da.widgets[q].window.id == ws[q].id);
    }
    assert(spec_visible_nodes(da) =~= ord.map_values(
        |q: usize| (ws[q as int].id, spec_rendered(ws[q as int])),
    ));
}

/// Along both folds — the burst and the step-by-step reconciled one —
/// the invariant holds and the models agree.
proof fn lemma_coalesce_chain(c: WindowContainerView, es: Seq<ContainerEvent>)
    requires
        spec_inv(c),
        c.widgets.len() + es.len() <= usize::MAX,
    ensures
        ({
            let s = spec_apply_all(c, es);
            let t = spec_apply_all_reconciling(c, es);
            &&& spec_inv(s)
            &&& spec_inv(t)
            &&& spec_same_model(s, t)
            &&& s.widgets.len() <= c.widgets.len() + es.len()
            &&& t.widgets.len() <= c.widgets.len() + es.len()
        }),
    decreases es.len(),
{
    if es.len() > 0 {
        let es0 = es.drop_last();
        let e = es.last();
        lemma_coalesce_chain(c, es0);
        let s0 = spec_apply_all(c, es0);
        let t0 = spec_apply_all_reconciling(c, es0);
        lemma_apply_inv(s0, e);
        lemma_apply_inv(t0, e);
        lemma_apply_model_congruence(s0, t0, e);
        lemma_apply_len(s0, e);
        lemma_apply_len(t0, e);
        let t1 = spec_apply(t0, e);
        lemma_reconcile_inv(t1);
        lemma_reconcile_preserves_model(t1);
    }
}

/// Dirty coalescing: a burst of ingested events followed by one
/// reconciliation shows exactly the visible state that reconciling after
/// every single event would have shown. The visible result is a function
/// of the latest ingested state, not of the event sequence.
pub proof fn lemma_dirty_coalescing(c: WindowContainerView, es: Seq<ContainerEvent>)
    requires
        spec_inv(c),
        es.len() > 0,
        c.widgets.len() + es.len() <= usize::MAX,
    ensures
        spec_visible_nodes(spec_reconcile(spec_apply_all(c, es))) == spec_visible_nodes(
            spec_apply_all_reconciling(c, es),
        ),
{
    lemma_coalesce_chain(c, es);
    let s = spec_apply_all(c, es);
    let t = spec_apply_all_reconciling(c, es);
    lemma_visible_nodes_determined(s, t);
    assert(!t.dirty);
    assert(spec_reconcile(t) == t);
}

/// One ingest event a workspace collection can receive.
pub enum WorkspaceEvent {
    WorkspaceUpsert { workspace: WorkspaceView },
    WorkspaceDelete { id: u64 },
}

/// The effect of one ingested workspace event.
pub open spec fn spec_ws_apply(
    c: WorkspaceContainerView,
    e: WorkspaceEvent,
) -> WorkspaceContainerView {
    match e {
        WorkspaceEvent::WorkspaceUpsert { workspace } => spec_ws_upsert(c, workspace),
        WorkspaceEvent::WorkspaceDelete { id } => spec_ws_delete(c, id),
    }
}

/// A burst of workspace events, ingested with no reconciliation between.
pub open spec fn spec_ws_apply_all(
    c: WorkspaceContainerView,
    es: Seq<WorkspaceEvent>,
) -> WorkspaceContainerView
    decreases es.len(),
{
    if es.len() == 0 {
        c
    } else {
        spec_ws_apply(spec_ws_apply_all(c, es.drop_last()), es.last())
    }
}

/// The same workspace events, reconciling after every single one.
pub open spec fn spec_ws_apply_all_reconciling(
    c: WorkspaceContainerView,
    es: Seq<WorkspaceEvent>,
) -> WorkspaceContainerView
    decreases es.len(),
{
    if es.len() == 0 {
        c
    } else {
        spec_ws_reconcile(
            spec_ws_apply(spec_ws_apply_all_reconciling(c, es.drop_last()), es.last()),
        )
    }
}

/// Two workspace-collection states agree on the model: the entries, the
/// current workspace, and the output. Ingestion reads and writes nothing
/// else.
pub open spec fn spec_ws_same_model(a: WorkspaceContainerView, b: WorkspaceContainerView) -> bool {
    &&& a.entries == b.entries
    &&& a.current_workspace_id == b.current_workspace_id
    &&& a.output_name == b.output_name
}

/// The label a clean workspace collection must show.
pub open spec fn spec_ws_label_of(c: WorkspaceContainerView) -> Seq<char> {
    spec_label(spec_current_name(c), spec_output_count(c.entries, c.output_name))
}

/// In step with the renderer: whenever the collection is clean, the
/// indicator shows the label of the current model. Reconciliation
/// establishes this; upserts keep it. Deletes do not: they change the
/// entries without raising the dirty flag, so a delete can leave the
/// label stale until some other event dirties the collection.
pub open spec fn spec_ws_in_step(c: WorkspaceContainerView) -> bool {
    !c.dirty ==> c.indicator == spec_ws_label_of(c)
}

/// Reconciliation puts the workspace collection in step, and an upsert
/// keeps it there.
pub proof fn lemma_ws_in_step(c: WorkspaceContainerView, w: WorkspaceView)
    ensures
        spec_ws_in_step(c) ==> spec_ws_in_step(spec_ws_reconcile(c)),
        spec_ws_in_step(c) ==> spec_ws_in_step(spec_ws_upsert(c, w)),
{
    if spec_ws_in_step(c) {
        let d = spec_ws_reconcile(c);
        if c.dirty {
            assert(d.entries == c.entries && d.current_workspace_id == c.current_workspace_id
                && d.output_name == c.output_name);
            assert(spec_ws_label_of(d) == spec_ws_label_of(c));
        }
        let u = spec_ws_upsert(c, w);
        if w.output == Some(c.output_name) {
            assert(u.dirty);
        } else {
            assert(u == c);
        }
    }
}

/// Along both folds of a burst of upserts, the two states stay in step
/// and agree on the model.
proof fn lemma_ws_coalesce_chain(c: WorkspaceContainerView, es: Seq<WorkspaceEvent>)
    requires
        spec_ws_in_step(c),
        forall|k: int|
            0 <= k < es.len() ==> (#[trigger] es[k]) matches WorkspaceEvent::WorkspaceUpsert {
                ..
            },
    ensures
        ({
            let s = spec_ws_apply_all(c, es);
            let t = spec_ws_apply_all_reconciling(c, es);
            &&& spec_ws_same_model(s, t)
            &&& spec_ws_in_step(s)
            &&& spec_ws_in_step(t)
        }),
    decreases es.len(),
{
    if es.len() > 0 {
        let es0 = es.drop_last();
        let e = es.last();
        assert forall|k: int|
            0 <= k < es0.len() implies (#[trigger] es0[k]) matches WorkspaceEvent::WorkspaceUpsert {
            ..
        } by {
            assert(es0[k] == es[k]);
        }
        lemma_ws_coalesce_chain(c, es0);
        let s0 = spec_ws_apply_all(c, es0);
        let t0 = spec_ws_apply_all_reconciling(c, es0);
        assert(es[es.len() - 1] == e);
        assert(e matches WorkspaceEvent::WorkspaceUpsert { .. });
        let w = (match e {
            WorkspaceEvent::WorkspaceUpsert { workspace } => workspace,
            WorkspaceEvent::WorkspaceDelete { .. } => arbitrary(),
        });
        let s1 = spec_ws_upsert(s0, w);
        let t1 = spec_ws_upsert(t0, w);
        lemma_ws_in_step(s0, w);
        lemma_ws_in_step(t0, w);
        lemma_ws_in_step(t1, w);
        assert(spec_ws_apply_all(c, es) == s1);
        assert(spec_ws_apply_all_reconciling(c, es) == spec_ws_reconcile(t1));
        if w.output == Some(s0.output_name) {
            assert(spec_ws_same_model(s1, spec_ws_reconcile(t1)));
        } else {
            assert(s1 == s0 && t1 == t0);
            assert(spec_ws_same_model(s1, spec_ws_reconcile(t1)));
        }
    }
}

/// Dirty coalescing for the workspace collection, for bursts of upserts:
/// ingesting them all and reconciling once shows the same entries,
/// current workspace and label as reconciling after every single one.
/// Deletes are left out: a delete does not raise the dirty flag, so a
/// reconciliation right after only a delete shows a stale label.
pub proof fn lemma_ws_dirty_coalescing(c: WorkspaceContainerView, es: Seq<WorkspaceEvent>)
    requires
        spec_ws_in_step(c),
        es.len() > 0,
        forall|k: int|
            0 <= k < es.len() ==> (#[trigger] es[k]) matches WorkspaceEvent::WorkspaceUpsert {
                ..
            },
    ensures
        ({
            let s = spec_ws_reconcile(spec_ws_apply_all(c, es));
            let t = spec_ws_apply_all_reconciling(c, es);
            &&& spec_ws_same_model(s, t)
            &&& s.indicator == t.indicator
        }),
{
    lemma_ws_coalesce_chain(c, es);
    let s0 = spec_ws_apply_all(c, es);
    let t = spec_ws_apply_all_reconciling(c, es);
    let s = spec_ws_reconcile(s0);
    lemma_ws_in_step(s0, arbitrary());
    assert(!s.dirty);
    assert(s.indicator == spec_ws_label_of(s));
    assert(!t.dirty);
    assert(t.indicator == spec_ws_label_of(t));
    assert(spec_ws_same_model(s, t));
    assert(spec_ws_label_of(s) == spec_ws_label_of(t));
}

} // verus!
