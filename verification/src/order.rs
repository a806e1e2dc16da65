//! Display ordering of window entries: selecting the entries that sit on
//! the displayed workspace and sorting them stably by horizontal
//! position, with proofs of the order and filter invariants.

use vstd::prelude::*;
use vstd::relations::sorted_by;
use vstd::relations::total_ordering;
use vstd::seq_lib::lemma_sorted_unique;
use vstd::seq_lib::lemma_multiset_commutative;
use vstd::seq_lib::group_to_multiset_ensures;
use crate::model::WindowView;
use crate::window_widget::WindowWidget;
use crate::window_widget::WindowWidgetView;

verus! {

/// The views of a sequence of entries.
pub open spec fn widget_views(ws: Seq<WindowWidget>) -> Seq<WindowWidgetView> {
    ws.map_values(|w: WindowWidget| w@)
}

/// The window snapshots owned by a sequence of entries.
pub open spec fn windows_of(es: Seq<WindowWidgetView>) -> Seq<WindowView> {
    es.map_values(|e: WindowWidgetView| e.window)
}

/// Does this window sit on the displayed workspace?
pub open spec fn spec_on_workspace(w: WindowView, workspace_id: u64) -> bool {
    w.workspace_id == Some(workspace_id)
}

/// The display order on entry indices: ascending horizontal position,
/// ties resolved by the index itself, which is the insertion order.
pub open spec fn display_leq(ws: Seq<WindowView>) -> spec_fn(usize, usize) -> bool {
    |i: usize, j: usize|
        ws[i as int].x < ws[j as int].x || (ws[i as int].x == ws[j as int].x && i <= j)
}

/// The indices below `n` of the windows that sit on the displayed
/// workspace, in insertion order.
pub open spec fn spec_matching_upto(ws: Seq<WindowView>, workspace_id: u64, n: int) -> Seq<usize>
    decreases n,
{
    if n <= 0 {
        Seq::empty()
    } else if spec_on_workspace(ws[n - 1], workspace_id) {
        spec_matching_upto(ws, workspace_id, n - 1).push((n - 1) as usize)
    } else {
        spec_matching_upto(ws, workspace_id, n - 1)
    }
}

/// The indices of all windows sitting on the displayed workspace.
pub open spec fn spec_matching(ws: Seq<WindowView>, workspace_id: u64) -> Seq<usize> {
    spec_matching_upto(ws, workspace_id, ws.len() as int)
}

/// The visible order: the matching indices, stably sorted by position.
pub open spec fn spec_visible_order(ws: Seq<WindowView>, workspace_id: u64) -> Seq<usize> {
    spec_matching(ws, workspace_id).sort_by(display_leq(ws))
}

/// The display order is a total order on indices.
pub proof fn lemma_display_leq_total(ws: Seq<WindowView>)
    ensures
        total_ordering(display_leq(ws)),
{
    let leq = display_leq(ws);
    assert forall|x: usize| #[trigger] leq(x, x) by {}
    assert forall|x: usize, y: usize| #[trigger] leq(x, y) && #[trigger] leq(y, x) implies x == y by {}
    assert forall|x: usize, y: usize, z: usize| #[trigger] leq(x, y) && #[trigger] leq(y, z)
        implies leq(x, z) by {}
    assert forall|x: usize, y: usize| #[trigger] leq(x, y) || #[trigger] leq(y, x) by {}
}

/// What the matching-index selection yields: indices below `n`, strictly
/// increasing, exactly those whose window sits on the workspace.
pub proof fn lemma_matching_upto_props(ws: Seq<WindowView>, workspace_id: u64, n: int)
    requires
        0 <= n <= ws.len(),
        n <= usize::MAX,
    ensures
        ({
            let m = spec_matching_upto(ws, workspace_id, n);
            &&& forall|k: int|
                0 <= k < m.len() ==> (#[trigger] m[k]) < n && spec_on_workspace(
                    ws[m[k] as int],
                    workspace_id,
                )
            &&& forall|k1: int, k2: int|
                0 <= k1 < k2 < m.len() ==> (#[trigger] m[k1]) < (#[trigger] m[k2])
            &&& forall|i: usize|
                i < n && spec_on_workspace(ws[i as int], workspace_id) ==> m.contains(i)
            &&& m.no_duplicates()
        }),
    decreases n,
{
    let m = spec_matching_upto(ws, workspace_id, n);
    if n > 0 {
        lemma_matching_upto_props(ws, workspace_id, n - 1);
        let prev = spec_matching_upto(ws, workspace_id, n - 1);
        assert forall|k: int| 0 <= k < m.len() implies (#[trigger] m[k]) < n && spec_on_workspace(
            ws[m[k] as int],
            workspace_id,
        ) by {
            if k < prev.len() {
                assert(m[k] == prev[k]);
            } else {
                assert(spec_on_workspace(ws[n - 1], workspace_id) && m[k] == (n - 1) as usize);
            }
        }
        assert forall|k1: int, k2: int| 0 <= k1 < k2 < m.len() implies (#[trigger] m[k1])
            < (#[trigger] m[k2]) by {
            if k2 < prev.len() {
                assert(m[k1] == prev[k1] && m[k2] == prev[k2]);
            } else if k2 == prev.len() && m.len() == prev.len() + 1 {
                assert(m[k1] == prev[k1]);
                assert(prev[k1] < n - 1);
                assert(m[k2] == (n - 1) as usize);
            }
        }
        assert(m.no_duplicates()) by {
            assert forall|k1: int, k2: int|
                0 <= k1 < m.len() && 0 <= k2 < m.len() && k1 != k2 implies m[k1] != m[k2] by {
                if k1 < k2 {
                    assert(m[k1] < m[k2]);
                } else {
                    assert(m[k2] < m[k1]);
                }
            }
        }
        assert forall|i: usize|
            i < n && spec_on_workspace(ws[i as int], workspace_id) implies m.contains(i) by {
            if i < n - 1 {
                assert(prev.contains(i));
                let k = choose|k: int| 0 <= k < prev.len() && prev[k] == i;
                if spec_on_workspace(ws[n - 1], workspace_id) {
                    assert(m[k] == i);
                } else {
                    assert(m[k] == i);
                }
            } else {
                assert(spec_on_workspace(ws[n - 1], workspace_id));
                assert(m.last() == (n - 1) as usize);
            }
        }
    }
}

/// Order invariant: along the visible order, horizontal positions never
/// decrease, and entries at equal positions keep their insertion order.
pub proof fn lemma_visible_order_sorted(ws: Seq<WindowView>, workspace_id: u64)
    requires
        ws.len() <= usize::MAX,
    ensures
        ({
            let ord = spec_visible_order(ws, workspace_id);
            forall|a: int, b: int|
                0 <= a < b < ord.len() ==> ws[(#[trigger] ord[a]) as int].x
                    <= ws[(#[trigger] ord[b]) as int].x && (ws[ord[a] as int].x
                    == ws[ord[b] as int].x ==> ord[a] < ord[b])
        }),
{
    let m = spec_matching(ws, workspace_id);
    let leq = display_leq(ws);
    let ord = spec_visible_order(ws, workspace_id);
    lemma_display_leq_total(ws);
    lemma_matching_upto_props(ws, workspace_id, ws.len() as int);
    m.lemma_sort_by_ensures(leq);
    m.lemma_multiset_has_no_duplicates();
    ord.lemma_multiset_has_no_duplicates_conv();
    assert forall|a: int, b: int| 0 <= a < b < ord.len() implies ws[(#[trigger] ord[a]) as int].x
        <= ws[(#[trigger] ord[b]) as int].x && (ws[ord[a] as int].x == ws[ord[b] as int].x
        ==> ord[a] < ord[b]) by {
        assert(leq(ord[a], ord[b]));
        assert(ord[a] != ord[b]);
    }
}

/// Filter invariant: an index stands in the visible order exactly when
/// its window sits on the displayed workspace, and exactly once.
pub proof fn lemma_visible_order_members(ws: Seq<WindowView>, workspace_id: u64)
    requires
        ws.len() <= usize::MAX,
    ensures
        ({
            let ord = spec_visible_order(ws, workspace_id);
            &&& forall|k: int|
                0 <= k < ord.len() ==> (#[trigger] ord[k]) < ws.len() && spec_on_workspace(
                    ws[ord[k] as int],
                    workspace_id,
                )
            &&& forall|i: usize|
                i < ws.len() && spec_on_workspace(ws[i as int], workspace_id) ==> ord.contains(i)
            &&& ord.no_duplicates()
        }),
{
    broadcast use group_to_multiset_ensures;

    let m = spec_matching(ws, workspace_id);
    let leq = display_leq(ws);
    let ord = spec_visible_order(ws, workspace_id);
    lemma_display_leq_total(ws);
    lemma_matching_upto_props(ws, workspace_id, ws.len() as int);
    m.lemma_sort_by_ensures(leq);
    m.lemma_multiset_has_no_duplicates();
    ord.lemma_multiset_has_no_duplicates_conv();
    assert(m.to_multiset() =~= ord.to_multiset());
    assert forall|k: int| 0 <= k < ord.len() implies (#[trigger] ord[k]) < ws.len()
        && spec_on_workspace(ws[ord[k] as int], workspace_id) by {
        assert(ord.contains(ord[k]));
        assert(ord.to_multiset().count(ord[k]) > 0);
        assert(m.to_multiset().count(ord[k]) > 0);
        assert(m.contains(ord[k]));
        let j = choose|j: int| 0 <= j < m.len() && m[j] == ord[k];
        assert(m[j] < ws.len());
    }
    assert forall|i: usize| i < ws.len() && spec_on_workspace(ws[i as int], workspace_id)
        implies ord.contains(i) by {
        assert(m.contains(i));
        assert(m.to_multiset().count(i) > 0);
        assert(ord.to_multiset().count(i) > 0);
    }
}

/// Inserting an element anywhere in a sequence adds it to the multiset.
proof fn lemma_insert_to_multiset<A>(s: Seq<A>, pos: int, v: A)
    requires
        0 <= pos <= s.len(),
    ensures
        s.insert(pos, v).to_multiset() =~= s.to_multiset().insert(v),
{
    broadcast use group_to_multiset_ensures;

    let left = s.subrange(0, pos);
    let right = s.subrange(pos, s.len() as int);
    assert(s.insert(pos, v) =~= left.push(v) + right);
    assert(s =~= left + right);
    lemma_multiset_commutative(left.push(v), right);
    lemma_multiset_commutative(left, right);
    assert(left.push(v).to_multiset() =~= left.to_multiset().insert(v));
}

/// Collects the indices of the entries sitting on the displayed
/// workspace, in insertion order.
fn matching_indices(widgets: &Vec<WindowWidget>, workspace_id: u64) -> (r: Vec<usize>)
    ensures
        r@ == spec_matching(windows_of(widget_views(widgets@)), workspace_id),
{
    let ghost ws = windows_of(widget_views(widgets@));
    let mut r: Vec<usize> = Vec::new();
    let mut i: usize = 0;
    while i < widgets.len()
        invariant
            i <= widgets@.len(),
            ws == windows_of(widget_views(widgets@)),
            ws.len() == widgets@.len(),
            r@ == spec_matching_upto(ws, workspace_id, i as int),
        decreases widgets@.len() - i,
    {
        proof {
            assert(ws[i as int] == widgets@[i as int]@.window);
        }
        let keep = match widgets[i].window.workspace_id {
            Some(wsid) => wsid == workspace_id,
            None => false,
        };
        if keep {
            r.push(i);
        }
        i += 1;
    }
    r
}

/// Stable insertion sort of entry indices in the display order.
fn sort_for_display(widgets: &Vec<WindowWidget>, idxs: &Vec<usize>) -> (r: Vec<usize>)
    requires
        forall|k: int| 0 <= k < idxs@.len() ==> (#[trigger] idxs@[k]) < widgets@.len(),
    ensures
        r@.to_multiset() == idxs@.to_multiset(),
        sorted_by(r@, display_leq(windows_of(widget_views(widgets@)))),
        forall|k: int| 0 <= k < r@.len() ==> (#[trigger] r@[k]) < widgets@.len(),
{
    let ghost ws = windows_of(widget_views(widgets@));
    let ghost leq = display_leq(ws);
    proof {
        lemma_display_leq_total(ws);
        assert(idxs@.take(0) =~= Seq::<usize>::empty());
    }
    let mut r: Vec<usize> = Vec::new();
    let mut i: usize = 0;
    while i < idxs.len()
        invariant
            i <= idxs@.len(),
            ws == windows_of(widget_views(widgets@)),
            leq == display_leq(ws),
            total_ordering(leq),
            forall|k: int| 0 <= k < idxs@.len() ==> (#[trigger] idxs@[k]) < widgets@.len(),
            r@.to_multiset() == idxs@.take(i as int).to_multiset(),
            sorted_by(r@, leq),
            forall|k: int| 0 <= k < r@.len() ==> (#[trigger] r@[k]) < widgets@.len(),
        decreases idxs@.len() - i,
    {
        let e = idxs[i];
        let xe = widgets[e].window.x;
        proof {
            assert(ws[e as int] == widgets@[e as int]@.window);
            assert(ws[e as int].x == xe);
        }
        let mut p: usize = 0;
        while p < r.len()
            invariant
                p <= r@.len(),
                ws == windows_of(widget_views(widgets@)),
                leq == display_leq(ws),
                e < widgets@.len(),
                ws[e as int].x == xe,
                forall|k: int| 0 <= k < r@.len() ==> (#[trigger] r@[k]) < widgets@.len(),
                forall|k: int| 0 <= k < p ==> leq(#[trigger] r@[k], e),
            ensures
                p <= r@.len(),
                forall|k: int| 0 <= k < p ==> leq(#[trigger] r@[k], e),
                p < r@.len() ==> !leq(r@[p as int], e),
            decreases r@.len() - p,
        {
            let a = r[p];
            let xa = widgets[a].window.x;
            proof {
                assert(ws[a as int] == widgets@[a as int]@.window);
            }
            if xa < xe || (xa == xe && a <= e) {
                proof {
                    assert(leq(r@[p as int], e));
                }
                p += 1;
            } else {
                proof {
                    assert(!leq(r@[p as int], e));
                }
                break;
            }
        }
        let ghost prev = r@;
        proof {
            broadcast use group_to_multiset_ensures;

            assert(idxs@.take(i + 1) =~= idxs@.take(i as int).push(e));
            lemma_insert_to_multiset(prev, p as int, e);
        }
        r.insert(p, e);
        proof {
            prev.insert_ensures(p as int, e);
            assert forall|k1: int, k2: int| 0 <= k1 < k2 < r@.len() implies leq(
                #[trigger] r@[k1],
                #[trigger] r@[k2],
            ) by {
                if k2 < p {
                    assert(r@[k1] == prev[k1] && r@[k2] == prev[k2]);
                } else if k2 == p {
                    assert(r@[k2] == e && r@[k1] == prev[k1]);
                } else if k1 < p {
                    assert(r@[k1] == prev[k1] && r@[k2] == prev[k2 - 1]);
                    if k1 < k2 - 1 {
                        assert(leq(prev[k1], prev[k2 - 1]));
                    }
                } else if k1 == p {
                    assert(r@[k1] == e && r@[k2] == prev[k2 - 1]);
                    assert(!leq(prev[p as int], e));
                    assert(leq(e, prev[p as int]));
                    if p < k2 - 1 {
                        assert(leq(prev[p as int], prev[k2 - 1]));
                    }
                } else {
                    assert(r@[k1] == prev[k1 - 1] && r@[k2] == prev[k2 - 1]);
                }
            }
        }
        i += 1;
        proof {
            assert(idxs@.take(i as int) =~= idxs@.take(i - 1).push(e));
        }
    }
    proof {
        assert(idxs@.take(idxs@.len() as int) =~= idxs@);
    }
    r
}

/// Computes the visible order of the entries: those on the displayed
/// workspace, stably sorted by horizontal position.
pub fn visible_indices(widgets: &Vec<WindowWidget>, workspace_id: u64) -> (r: Vec<usize>)
    ensures
        r@ == spec_visible_order(windows_of(widget_views(widgets@)), workspace_id),
        forall|k: int| 0 <= k < r@.len() ==> (#[trigger] r@[k]) < widgets@.len(),
{
    let ghost ws = windows_of(widget_views(widgets@));
    let ghost leq = display_leq(ws);
    let n = widgets.len();
    proof {
        assert(ws.len() == n as int);
    }
    let m = matching_indices(widgets, workspace_id);
    proof {
        lemma_matching_upto_props(ws, workspace_id, ws.len() as int);
    }
    let r = sort_for_display(widgets, &m);
    proof {
        lemma_display_leq_total(ws);
        m@.lemma_sort_by_ensures(leq);
        lemma_sorted_unique(r@, m@.sort_by(leq), leq);
    }
    r
}

} // verus!
