//! Laws of the layout engine, stated and proved against the ghost model.

use vstd::prelude::*;

use crate::geometry::{center_x, center_y, connector_path, line_path};
use crate::graph::{connectors_of, connectors_upto};
use crate::layout::{
    assign_step, color_of, continuation_row, lane_of, layout_after, lemma_state_invariant,
    lowest_free, lowest_free_from, process_row, release_merge_parents,
};
use crate::record::{distinct_ids, lemma_row_of_found, lemma_row_of_unique, row_of, row_of_from, CommitRecord};

verus! {

/// A lane or color, once assigned to a row, never changes during the rest
/// of the pass: later steps only write their own, lower row.
pub proof fn lemma_assignments_persist(commits: Seq<CommitRecord>, k1: nat, k2: nat)
    requires
        k1 <= k2 <= commits.len(),
    ensures
        forall|m: int|
            commits.len() - k1 <= m < commits.len() ==> #[trigger] layout_after(
                commits,
                k2,
            ).lanes[m] == layout_after(commits, k1).lanes[m] && layout_after(commits, k2).colors[m]
                == layout_after(commits, k1).colors[m],
    decreases k2 - k1,
{
    if k1 < k2 {
        lemma_assignments_persist(commits, k1, (k2 - 1) as nat);
        lemma_state_invariant(commits, (k2 - 1) as nat);
        let prev = layout_after(commits, (k2 - 1) as nat);
        let cur = layout_after(commits, k2);
        let i = commits.len() - k2;
        assert(cur == process_row(commits, prev, i));
        assert forall|m: int| commits.len() - k1 <= m < commits.len() implies #[trigger] cur.lanes[m]
            == layout_after(commits, k1).lanes[m] && cur.colors[m] == layout_after(
            commits,
            k1,
        ).colors[m] by {
            let stp = assign_step(commits, prev, i);
            if continuation_row(commits, prev, i) is Some {
                assert(stp.lanes == prev.lanes.update(i, prev.lanes[continuation_row(commits, prev, i)->Some_0]));
            } else if lowest_free(prev.tips) is Some {
                assert(stp.lanes == prev.lanes.update(i, lowest_free(prev.tips)->Some_0));
            } else {
                assert(stp.lanes == prev.lanes.update(i, prev.tips.len() as int));
            }
            assert(cur.lanes[m] == prev.lanes[m]);
            assert(cur.colors[m] == prev.colors[m]);
        }
    }
}

/// A single root commit: one node on lane 0, the first palette index, and
/// no connectors.
pub proof fn lemma_single_root(commits: Seq<CommitRecord>)
    requires
        commits.len() == 1,
        commits[0].parent_ids@.len() == 0,
    ensures
        lane_of(commits, 0) == 0,
        color_of(commits, 0) == 0,
        connectors_of(commits, 0).len() == 0,
{
    assert(layout_after(commits, 1) == process_row(commits, layout_after(commits, 0), 0));
}

/// A root with two children that have no other parents: the two children
/// occupy distinct lanes and carry distinct colors. The older child (the
/// higher row) continues the root's lane and color; the younger one opens
/// a lane and a lineage of its own.
pub proof fn lemma_branch_point(commits: Seq<CommitRecord>)
    requires
        commits.len() == 3,
        distinct_ids(commits),
        commits[0].parent_ids@.len() == 1,
        commits[0].parent_ids@[0]@ == commits[2].id@,
        commits[1].parent_ids@.len() == 1,
        commits[1].parent_ids@[0]@ == commits[2].id@,
        commits[2].parent_ids@.len() == 0,
    ensures
        lane_of(commits, 0) == 1,
        lane_of(commits, 1) == 0,
        lane_of(commits, 2) == 0,
        color_of(commits, 0) == 1,
        color_of(commits, 1) == 0,
        color_of(commits, 2) == 0,
{
    lemma_row_of_unique(commits, 2);
    let st0 = layout_after(commits, 0);
    let st1 = layout_after(commits, 1);
    let st2 = layout_after(commits, 2);
    let st3 = layout_after(commits, 3);
    assert(st1 == process_row(commits, st0, 2));
    assert(st1.tips.len() == 1 && st1.tips[0] == Some(2int) && st1.lanes[2] == 0 && st1.colors[2]
        == 0 && st1.next_color == 1);
    assert(st2 == process_row(commits, st1, 1));
    assert(st2.tips.len() == 1 && st2.tips[0] == Some(1int) && st2.lanes[1] == 0 && st2.lanes[2]
        == 0 && st2.colors[1] == 0 && st2.next_color == 1);
    assert(st3 == process_row(commits, st2, 0));
    assert(continuation_row(commits, st2, 0) is None);
    assert(lowest_free_from(st2.tips, 1) is None);
    assert(lowest_free(st2.tips) is None);
    assert(st3.lanes[0] == 1 && st3.colors[0] == 1);
}

/// A merge commit whose two parents both appear in the window draws
/// exactly two connectors, one per parent, each in the color of the
/// respective parent's branch.
pub proof fn lemma_merge_connectors(commits: Seq<CommitRecord>, i: int, j0: int, j1: int)
    requires
        0 <= i < commits.len(),
        commits[i].parent_ids@.len() == 2,
        row_of(commits, commits[i].parent_ids@[0]@) == Some(j0),
        row_of(commits, commits[i].parent_ids@[1]@) == Some(j1),
        j0 != i,
        j1 != i,
    ensures
        connectors_of(commits, i).len() == 2,
        connectors_of(commits, i)[0] == (
            connector_path(i, lane_of(commits, i), j0, lane_of(commits, j0)),
            color_of(commits, j0),
        ),
        connectors_of(commits, i)[1] == (
            connector_path(i, lane_of(commits, i), j1, lane_of(commits, j1)),
            color_of(commits, j1),
        ),
{
    let c0 = (connector_path(i, lane_of(commits, i), j0, lane_of(commits, j0)), color_of(commits, j0));
    let c1 = (connector_path(i, lane_of(commits, i), j1, lane_of(commits, j1)), color_of(commits, j1));
    assert(connectors_upto(commits, i, 0) =~= Seq::<(Seq<char>, int)>::empty());
    assert(connectors_upto(commits, i, 1) =~= seq![c0]);
    assert(connectors_of(commits, i) =~= seq![c0, c1]);
}

/// When a merge is laid out while both of its parents are live lane tips,
/// it takes over the first parent's lane, and exactly one of the two
/// parents' lanes — the second one's — is released for reuse by lines
/// processed later.
pub proof fn lemma_merge_releases_second_parent(
    commits: Seq<CommitRecord>,
    i: int,
    j0: int,
    j1: int,
)
    requires
        0 <= i < commits.len(),
        commits[i].parent_ids@.len() == 2,
        row_of(commits, commits[i].parent_ids@[0]@) == Some(j0),
        row_of(commits, commits[i].parent_ids@[1]@) == Some(j1),
        i < j0,
        i < j1,
        j0 != j1,
        ({
            let st = layout_after(commits, (commits.len() - 1 - i) as nat);
            &&& 0 <= st.lanes[j0] < st.tips.len()
            &&& 0 <= st.lanes[j1] < st.tips.len()
            &&& st.tips[st.lanes[j0]] == Some(j0)
            &&& st.tips[st.lanes[j1]] == Some(j1)
        }),
    ensures
        ({
            let st = layout_after(commits, (commits.len() - 1 - i) as nat);
            let stn = layout_after(commits, (commits.len() - i) as nat);
            &&& st.lanes[j0] != st.lanes[j1]
            &&& lane_of(commits, i) == st.lanes[j0]
            &&& stn.tips[st.lanes[j0]] == Some(i)
            &&& stn.tips[st.lanes[j1]] is None
        }),
{
    let n = commits.len();
    lemma_state_invariant(commits, (n - 1 - i) as nat);
    lemma_row_of_found(commits, commits[i].parent_ids@[0]@, 0);
    lemma_row_of_found(commits, commits[i].parent_ids@[1]@, 0);
    let st = layout_after(commits, (n - 1 - i) as nat);
    let stn = layout_after(commits, (n - i) as nat);
    let l0 = st.lanes[j0];
    let l1 = st.lanes[j1];
    assert(l0 != l1);
    assert(stn == process_row(commits, st, i));
    assert(continuation_row(commits, st, i) == Some(j0));
    let st1 = assign_step(commits, st, i);
    assert(st1.tips == st.tips.update(l0, Some(i)));
    assert(st1.lanes == st.lanes.update(i, l0));
    assert(st1.lanes[j1] == l1);
    assert(st1.tips[l1] == Some(j1));
    assert(release_merge_parents(commits, st1.tips, st1.lanes, i, 1) == st1.tips);
    assert(release_merge_parents(commits, st1.tips, st1.lanes, i, 2) == st1.tips.update(l1, None));
    assert(stn.tips == st1.tips.update(l1, None));
    assert(stn.tips[l0] == Some(i));
    assert(stn.tips[l1] is None);
    assert(stn.lanes[i] == l0);
    lemma_assignments_persist(commits, (n - i) as nat, n);
    assert(lane_of(commits, i) == l0);
}

/// A strictly linear history: each row's sole parent is the next row, the
/// last row is a root, and ids are distinct.
pub open spec fn linear_history(commits: Seq<CommitRecord>) -> bool {
    &&& distinct_ids(commits)
    &&& commits.len() > 0 ==> commits[commits.len() - 1].parent_ids@.len() == 0
    &&& forall|i: int|
        0 <= i < commits.len() - 1 ==> (#[trigger] commits[i].parent_ids@).len() == 1
            && commits[i].parent_ids@[0]@ == commits[i + 1].id@
}

/// In a linear history, every processed prefix keeps a single lane whose
/// live tip is the newest processed row, and one color for everything.
proof fn lemma_linear_prefix(commits: Seq<CommitRecord>, k: nat)
    requires
        linear_history(commits),
        1 <= k <= commits.len(),
    ensures
        ({
            let st = layout_after(commits, k);
            &&& st.tips.len() == 1
            &&& st.tips[0] == Some(commits.len() - k)
            &&& st.next_color == 1
            &&& forall|m: int|
                commits.len() - k <= m < commits.len() ==> #[trigger] st.lanes[m] == 0
                    && st.colors[m] == 0
        }),
    decreases k,
{
    let n = commits.len();
    let i = n - k;
    if k == 1 {
        assert(layout_after(commits, 1) == process_row(commits, layout_after(commits, 0), i));
    } else {
        lemma_linear_prefix(commits, (k - 1) as nat);
        lemma_state_invariant(commits, (k - 1) as nat);
        let prev = layout_after(commits, (k - 1) as nat);
        lemma_row_of_unique(commits, i + 1);
        assert(row_of(commits, commits[i].parent_ids@[0]@) == Some(i + 1));
        assert(continuation_row(commits, prev, i) == Some(i + 1));
        let stp = assign_step(commits, prev, i);
        assert(stp.tips == prev.tips.update(0, Some(i)));
        assert(stp.lanes == prev.lanes.update(i, 0));
        assert(stp.colors == prev.colors.update(i, 0));
        assert(release_merge_parents(commits, stp.tips, stp.lanes, i, 1) == stp.tips);
        assert(layout_after(commits, k) == process_row(commits, prev, i));
    }
}

/// A strictly linear history of N commits: all N nodes share lane 0 and
/// one color, and the picture holds exactly N − 1 connectors, one per
/// non-root row, each a straight line between two same-lane centers, in
/// the one shared color.
pub proof fn lemma_linear_history(commits: Seq<CommitRecord>)
    requires
        linear_history(commits),
    ensures
        forall|i: int| 0 <= i < commits.len() ==> #[trigger] lane_of(commits, i) == 0,
        forall|i: int| 0 <= i < commits.len() ==> #[trigger] color_of(commits, i) == 0,
        commits.len() > 0 ==> connectors_of(commits, commits.len() - 1).len() == 0,
        forall|i: int|
            0 <= i < commits.len() - 1 ==> #[trigger] connectors_of(commits, i) == seq![
                (line_path(center_x(0), center_y(i), center_x(0), center_y(i + 1)), 0int),
            ],
{
    let n = commits.len();
    if n > 0 {
        lemma_linear_prefix(commits, n as nat);
        assert forall|i: int| 0 <= i < n implies #[trigger] color_of(commits, i) == 0 by {
            assert(layout_after(commits, n as nat).lanes[i] == 0);
        }
        assert forall|i: int| 0 <= i < n - 1 implies #[trigger] connectors_of(commits, i) == seq![
            (line_path(center_x(0), center_y(i), center_x(0), center_y(i + 1)), 0int),
        ] by {
            lemma_row_of_unique(commits, i + 1);
            let c = (
                connector_path(i, lane_of(commits, i), i + 1, lane_of(commits, i + 1)),
                color_of(commits, i + 1),
            );
            assert(connectors_upto(commits, i, 0) =~= Seq::<(Seq<char>, int)>::empty());
            assert(connectors_of(commits, i) =~= seq![c]);
            assert(connector_path(i, 0, i + 1, 0) == line_path(
                center_x(0),
                center_y(i),
                center_x(0),
                center_y(i + 1),
            ));
            assert(connectors_of(commits, i) =~= seq![
                (line_path(center_x(0), center_y(i), center_x(0), center_y(i + 1)), 0int),
            ]);
        }
    }
}

/// The two records carry the same parent ids, position by position.
pub open spec fn parents_eq(x: CommitRecord, y: CommitRecord) -> bool {
    &&& x.parent_ids@.len() == y.parent_ids@.len()
    &&& forall|q: int|
        0 <= q < x.parent_ids@.len() ==> (#[trigger] x.parent_ids@[q])@ == y.parent_ids@[q]@
}

/// Two windows with the same ids resolve every id to the same row.
proof fn lemma_row_of_same(a: Seq<CommitRecord>, b: Seq<CommitRecord>, id: Seq<char>, from: int)
    requires
        a.len() == b.len(),
        forall|m: int| 0 <= m < a.len() ==> (#[trigger] a[m]).id@ == b[m].id@,
    ensures
        row_of_from(a, id, from) == row_of_from(b, id, from),
    decreases a.len() - from,
{
    if 0 <= from < a.len() {
        lemma_row_of_same(a, b, id, from + 1);
    }
}

/// Merge releases act the same in two windows with the same ids and the
/// same parent list on the processed row.
proof fn lemma_release_same(
    a: Seq<CommitRecord>,
    b: Seq<CommitRecord>,
    tips: Seq<Option<int>>,
    lanes: Seq<int>,
    r: int,
    p: int,
)
    requires
        a.len() == b.len(),
        0 <= r < a.len(),
        forall|m: int| 0 <= m < a.len() ==> (#[trigger] a[m]).id@ == b[m].id@,
        parents_eq(a[r], b[r]),
        p <= a[r].parent_ids@.len() || p <= 1,
    ensures
        release_merge_parents(a, tips, lanes, r, p) == release_merge_parents(b, tips, lanes, r, p),
    decreases p,
{
    if p > 1 {
        lemma_release_same(a, b, tips, lanes, r, p - 1);
        lemma_row_of_same(a, b, a[r].parent_ids@[p - 1]@, 0);
        assert(b[r].parent_ids@[p - 1]@ == a[r].parent_ids@[p - 1]@);
    }
}

/// Merge releases do nothing when every parent of the processed row lies
/// outside the window.
proof fn lemma_release_absent(
    a: Seq<CommitRecord>,
    tips: Seq<Option<int>>,
    lanes: Seq<int>,
    r: int,
    p: int,
)
    requires
        0 <= r < a.len(),
        forall|q: int|
            0 <= q < a[r].parent_ids@.len() ==> row_of(a, (#[trigger] a[r].parent_ids@[q])@)
                is None,
        p <= a[r].parent_ids@.len() || p <= 1,
    ensures
        release_merge_parents(a, tips, lanes, r, p) == tips,
    decreases p,
{
    if p > 1 {
        lemma_release_absent(a, tips, lanes, r, p - 1);
    }
}

/// The two windows are laid out identically, step by step.
proof fn lemma_layout_eq_when_pruned(
    commits: Seq<CommitRecord>,
    pruned: Seq<CommitRecord>,
    i: int,
    k: nat,
)
    requires
        0 <= i < commits.len(),
        pruned.len() == commits.len(),
        forall|m: int| 0 <= m < commits.len() ==> (#[trigger] pruned[m]).id@ == commits[m].id@,
        forall|m: int|
            0 <= m < commits.len() && m != i ==> parents_eq(commits[m], #[trigger] pruned[m]),
        pruned[i].parent_ids@.len() == 0,
        forall|q: int|
            0 <= q < commits[i].parent_ids@.len() ==> row_of(
                commits,
                (#[trigger] commits[i].parent_ids@[q])@,
            ) is None,
        k <= commits.len(),
    ensures
        layout_after(commits, k) == layout_after(pruned, k),
    decreases k,
{
    let n = commits.len();
    if k > 0 {
        lemma_layout_eq_when_pruned(commits, pruned, i, (k - 1) as nat);
        let st = layout_after(commits, (k - 1) as nat);
        let r = n - k;
        assert(layout_after(commits, k) == process_row(commits, st, r));
        assert(layout_after(pruned, k) == process_row(pruned, st, r));
        if r == i {
            assert(continuation_row(commits, st, r) is None);
            assert(continuation_row(pruned, st, r) is None);
            let stp = assign_step(commits, st, r);
            assert(assign_step(pruned, st, r) == stp);
            lemma_release_absent(
                commits,
                stp.tips,
                stp.lanes,
                r,
                commits[r].parent_ids@.len() as int,
            );
            assert(release_merge_parents(
                pruned,
                stp.tips,
                stp.lanes,
                r,
                pruned[r].parent_ids@.len() as int,
            ) == stp.tips);
        } else {
            if commits[r].parent_ids@.len() > 0 {
                lemma_row_of_same(commits, pruned, commits[r].parent_ids@[0]@, 0);
                assert(pruned[r].parent_ids@[0]@ == commits[r].parent_ids@[0]@);
            }
            assert(continuation_row(commits, st, r) == continuation_row(pruned, st, r));
            let stp = assign_step(commits, st, r);
            assert(assign_step(pruned, st, r) == stp);
            lemma_release_same(
                commits,
                pruned,
                stp.tips,
                stp.lanes,
                r,
                commits[r].parent_ids@.len() as int,
            );
        }
    }
}

/// No connector comes from parents that lie outside the window.
proof fn lemma_connectors_absent(commits: Seq<CommitRecord>, i: int, p: int)
    requires
        0 <= i < commits.len(),
        forall|q: int|
            0 <= q < commits[i].parent_ids@.len() ==> row_of(
                commits,
                (#[trigger] commits[i].parent_ids@[q])@,
            ) is None,
        p <= commits[i].parent_ids@.len(),
    ensures
        connectors_upto(commits, i, p).len() == 0,
    decreases p,
{
    if p > 0 {
        lemma_connectors_absent(commits, i, p - 1);
    }
}

/// A parent id that is absent from the window draws no connector: the
/// connectors of the row are exactly those of its other parents.
pub proof fn lemma_absent_parent_no_connector(commits: Seq<CommitRecord>, i: int, q: int)
    requires
        0 <= i < commits.len(),
        0 <= q < commits[i].parent_ids@.len(),
        row_of(commits, commits[i].parent_ids@[q]@) is None,
    ensures
        connectors_upto(commits, i, q + 1) == connectors_upto(commits, i, q),
{
}

/// A commit whose parent references all point outside the window draws no
/// connector and is laid out exactly as a root: next to a second window
/// that differs only by dropping those unresolvable ids, every lane and
/// every color is the same.
pub proof fn lemma_absent_parents_inert(
    commits: Seq<CommitRecord>,
    pruned: Seq<CommitRecord>,
    i: int,
)
    requires
        0 <= i < commits.len(),
        pruned.len() == commits.len(),
        forall|m: int| 0 <= m < commits.len() ==> (#[trigger] pruned[m]).id@ == commits[m].id@,
        forall|m: int|
            0 <= m < commits.len() && m != i ==> parents_eq(commits[m], #[trigger] pruned[m]),
        pruned[i].parent_ids@.len() == 0,
        forall|q: int|
            0 <= q < commits[i].parent_ids@.len() ==> row_of(
                commits,
                (#[trigger] commits[i].parent_ids@[q])@,
            ) is None,
    ensures
        forall|m: int|
            0 <= m < commits.len() ==> #[trigger] lane_of(commits, m) == lane_of(pruned, m)
                && color_of(commits, m) == color_of(pruned, m),
        connectors_of(commits, i).len() == 0,
{
    lemma_layout_eq_when_pruned(commits, pruned, i, commits.len());
    lemma_connectors_absent(commits, i, commits[i].parent_ids@.len() as int);
}

} // verus!
