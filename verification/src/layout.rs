//! Lane allocation and color assignment.
//!
//! The allocator walks the history from the oldest row towards row 0, so
//! that a commit's parents are laid out before the commit itself. A commit
//! whose primary parent is still the live tip of its lane continues that
//! lane and inherits the parent's color; any other commit opens the lowest
//! free lane (or a new one) and draws a fresh palette index, so that
//! divergent lines of development are visually distinct. Merge parents
//! beyond the first release their lanes for reuse.

use vstd::prelude::*;

use crate::record::{find_row, row_of, CommitRecord};

verus! {

/// Number of entries in the rendering palette; raw lineage counters are
/// reduced modulo this size.
pub const PALETTE_SIZE: usize = 8;

/// State of the allocator while it walks the history.
pub struct LayoutState {
    /// Per lane, the row index of the commit that is the lane's live tip,
    /// awaiting its continuation, or `None` for a free lane.
    pub tips: Seq<Option<int>>,
    /// Per row, the assigned lane. Rows not yet processed hold 0.
    pub lanes: Seq<int>,
    /// Per row, the assigned palette index. Rows not yet processed hold 0.
    pub colors: Seq<int>,
    /// The raw lineage counter; the palette index of the next fresh line.
    pub next_color: int,
}

/// The row of the primary parent of row `i`, provided that parent has been
/// laid out and is still the live tip of its lane: row `i` then continues
/// that lane.
pub open spec fn continuation_row(commits: Seq<CommitRecord>, st: LayoutState, i: int) -> Option<
    int,
> {
    if commits[i].parent_ids@.len() > 0 {
        match row_of(commits, commits[i].parent_ids@[0]@) {
            Some(j) => if i < j && 0 <= st.lanes[j] < st.tips.len() && st.tips[st.lanes[j]]
                == Some(j) {
                Some(j)
            } else {
                None
            },
            None => None,
        }
    } else {
        None
    }
}

/// The lowest-indexed free lane at or after `from`, if any.
pub open spec fn lowest_free_from(tips: Seq<Option<int>>, from: int) -> Option<int>
    decreases tips.len() - from,
{
    if from < 0 || from >= tips.len() {
        None
    } else if tips[from] is None {
        Some(from)
    } else {
        lowest_free_from(tips, from + 1)
    }
}

/// The lowest-indexed free lane, if any.
pub open spec fn lowest_free(tips: Seq<Option<int>>) -> Option<int> {
    lowest_free_from(tips, 0)
}

/// Releases the lanes whose live tips are merge parents of row `i`, over
/// the parent positions `1 .. p`: the merge absorbs those tracks.
pub open spec fn release_merge_parents(
    commits: Seq<CommitRecord>,
    tips: Seq<Option<int>>,
    lanes: Seq<int>,
    i: int,
    p: int,
) -> Seq<Option<int>>
    decreases p,
{
    if p <= 1 {
        tips
    } else {
        let t = release_merge_parents(commits, tips, lanes, i, p - 1);
        match row_of(commits, commits[i].parent_ids@[p - 1]@) {
            Some(j) => if i < j && 0 <= lanes[j] < t.len() && t[lanes[j]] == Some(j) {
                t.update(lanes[j], None)
            } else {
                t
            },
            None => t,
        }
    }
}

/// The lane and color choice of row `i`: either the continuation of the
/// primary parent's lane with the parent's color, or the lowest free lane
/// (a new one if none is free) with a fresh palette index.
pub open spec fn assign_step(commits: Seq<CommitRecord>, st: LayoutState, i: int) -> LayoutState {
    match continuation_row(commits, st, i) {
        Some(j) => LayoutState {
            tips: st.tips.update(st.lanes[j], Some(i)),
            lanes: st.lanes.update(i, st.lanes[j]),
            colors: st.colors.update(i, st.colors[j]),
            next_color: st.next_color,
        },
        None => {
            let fresh = st.next_color % (PALETTE_SIZE as int);
            match lowest_free(st.tips) {
                Some(l) => LayoutState {
                    tips: st.tips.update(l, Some(i)),
                    lanes: st.lanes.update(i, l),
                    colors: st.colors.update(i, fresh),
                    next_color: st.next_color + 1,
                },
                None => LayoutState {
                    tips: st.tips.push(Some(i)),
                    lanes: st.lanes.update(i, st.tips.len() as int),
                    colors: st.colors.update(i, fresh),
                    next_color: st.next_color + 1,
                },
            }
        },
    }
}

/// One step of the allocator at row `i`: lane choice, color choice, tip
/// update, merge releases.
pub open spec fn process_row(commits: Seq<CommitRecord>, st: LayoutState, i: int) -> LayoutState {
    let st1 = assign_step(commits, st, i);
    LayoutState {
        tips: release_merge_parents(
            commits,
            st1.tips,
            st1.lanes,
            i,
            commits[i].parent_ids@.len() as int,
        ),
        lanes: st1.lanes,
        colors: st1.colors,
        next_color: st1.next_color,
    }
}

/// The allocator state before any row has been processed.
pub open spec fn initial_state(n: nat) -> LayoutState {
    LayoutState {
        tips: Seq::empty(),
        lanes: Seq::new(n, |i: int| 0),
        colors: Seq::new(n, |i: int| 0),
        next_color: 0,
    }
}

/// The allocator state after the `k` oldest rows have been processed.
pub open spec fn layout_after(commits: Seq<CommitRecord>, k: nat) -> LayoutState
    decreases k,
{
    if k == 0 {
        initial_state(commits.len())
    } else {
        process_row(commits, layout_after(commits, (k - 1) as nat), commits.len() - k)
    }
}

/// The allocator state once the whole window has been processed.
pub open spec fn layout(commits: Seq<CommitRecord>) -> LayoutState {
    layout_after(commits, commits.len())
}

/// The lane assigned to row `i`.
pub open spec fn lane_of(commits: Seq<CommitRecord>, i: int) -> int {
    layout(commits).lanes[i]
}

/// The palette index assigned to row `i`.
pub open spec fn color_of(commits: Seq<CommitRecord>, i: int) -> int {
    layout(commits).colors[i]
}

/// Structural facts that hold of the allocator state after `k` rows: the
/// per-row tables keep their length, at most one lane opens per row, the
/// lineage counter grows at most once per row, every processed row sits on
/// a real lane with a palette index in range, and every live tip is a
/// processed row that itself holds the lane it tips (lane-uniqueness).
pub open spec fn state_invariant(commits: Seq<CommitRecord>, st: LayoutState, k: nat) -> bool {
    let n = commits.len();
    &&& st.lanes.len() == n
    &&& st.colors.len() == n
    &&& st.tips.len() <= k
    &&& 0 <= st.next_color <= k
    &&& forall|i: int| n - k <= i < n ==> 0 <= #[trigger] st.lanes[i] < st.tips.len()
    &&& forall|i: int| n - k <= i < n ==> 0 <= #[trigger] st.colors[i] < PALETTE_SIZE
    &&& forall|l: int|
        0 <= l < st.tips.len() ==> match #[trigger] st.tips[l] {
            Some(j) => n - k <= j < n && st.lanes[j] == l,
            None => true,
        }
}

/// Releasing merge-parent lanes keeps the lane table's length and only
/// ever frees entries; every surviving tip was a tip before.
proof fn lemma_release_frames(
    commits: Seq<CommitRecord>,
    tips: Seq<Option<int>>,
    lanes: Seq<int>,
    i: int,
    p: int,
)
    ensures
        ({
            let t = release_merge_parents(commits, tips, lanes, i, p);
            &&& t.len() == tips.len()
            &&& forall|l: int| 0 <= l < t.len() ==> t[l] == tips[l] || #[trigger] t[l] is None
        }),
    decreases p,
{
    if p > 1 {
        lemma_release_frames(commits, tips, lanes, i, p - 1);
    }
}

/// The structural invariant holds of every allocator state.
pub proof fn lemma_state_invariant(commits: Seq<CommitRecord>, k: nat)
    requires
        k <= commits.len(),
    ensures
        state_invariant(commits, layout_after(commits, k), k),
    decreases k,
{
    let n = commits.len();
    if k > 0 {
        lemma_state_invariant(commits, (k - 1) as nat);
        let st = layout_after(commits, (k - 1) as nat);
        let i = n - k;
        let st1 = assign_step(commits, st, i);
        if continuation_row(commits, st, i) is None && lowest_free(st.tips) is Some {
            lemma_lowest_free_is_free(st.tips, 0);
        }
        assert(state_invariant(commits, st1, k));
        lemma_release_frames(commits, st1.tips, st1.lanes, i, commits[i].parent_ids@.len() as int);
        assert(state_invariant(commits, layout_after(commits, k), k));
    }
}

/// The lane that `lowest_free_from` reports is indeed free.
proof fn lemma_lowest_free_is_free(tips: Seq<Option<int>>, from: int)
    requires
        lowest_free_from(tips, from) is Some,
    ensures
        ({
            let l = lowest_free_from(tips, from)->Some_0;
            from <= l < tips.len() && tips[l] is None
        }),
    decreases tips.len() - from,
{
    if 0 <= from < tips.len() && !(tips[from] is None) {
        lemma_lowest_free_is_free(tips, from + 1);
    }
}

/// Lane-uniqueness: at every instant of the allocation pass, two distinct
/// live commits — commits that are each the live tip of some lane — are
/// distinct rows assigned distinct lanes.
pub proof fn lemma_live_lanes_distinct(commits: Seq<CommitRecord>, k: nat)
    requires
        k <= commits.len(),
    ensures
        forall|l1: int, l2: int|
            (0 <= l1 < layout_after(commits, k).tips.len() && 0 <= l2 < layout_after(
                commits,
                k,
            ).tips.len() && l1 != l2 && #[trigger] layout_after(commits, k).tips[l1] is Some
                && #[trigger] layout_after(commits, k).tips[l2] is Some) ==> layout_after(
                commits,
                k,
            ).tips[l1]->Some_0 != layout_after(commits, k).tips[l2]->Some_0 && layout_after(
                commits,
                k,
            ).lanes[layout_after(commits, k).tips[l1]->Some_0] != layout_after(
                commits,
                k,
            ).lanes[layout_after(commits, k).tips[l2]->Some_0],
{
    lemma_state_invariant(commits, k);
}

/// Every row's palette index is a valid index into the palette, and its
/// lane is one of at most as many lanes as there are rows.
pub proof fn lemma_assignment_in_range(commits: Seq<CommitRecord>, i: int)
    requires
        0 <= i < commits.len(),
    ensures
        0 <= color_of(commits, i) < PALETTE_SIZE,
        0 <= lane_of(commits, i) < commits.len(),
{
    lemma_state_invariant(commits, commits.len());
}

/// The ghost image of one executable lane-table entry.
spec fn tip_view(t: Option<usize>) -> Option<int> {
    match t {
        Some(j) => Some(j as int),
        None => None,
    }
}

/// The executable allocator state agrees with the ghost state.
spec fn state_matches(
    tips: Seq<Option<usize>>,
    lanes: Seq<usize>,
    colors: Seq<usize>,
    next_color: usize,
    st: LayoutState,
) -> bool {
    &&& st.tips.len() == tips.len()
    &&& forall|l: int| 0 <= l < tips.len() ==> st.tips[l] == tip_view(#[trigger] tips[l])
    &&& st.lanes.len() == lanes.len()
    &&& forall|i: int| 0 <= i < lanes.len() ==> st.lanes[i] == #[trigger] lanes[i] as int
    &&& st.colors.len() == colors.len()
    &&& forall|i: int| 0 <= i < colors.len() ==> st.colors[i] == #[trigger] colors[i] as int
    &&& st.next_color == next_color as int
}

/// Finds the lowest-indexed free lane of the executable lane table.
fn find_free_lane(tips: &Vec<Option<usize>>, Ghost(mtips): Ghost<Seq<Option<int>>>) -> (r: Option<
    usize,
>)
    requires
        mtips.len() == tips@.len(),
        forall|l: int| 0 <= l < tips@.len() ==> mtips[l] == tip_view(#[trigger] tips@[l]),
    ensures
        match r {
            Some(l) => l < tips@.len() && lowest_free(mtips) == Some(l as int),
            None => lowest_free(mtips) is None,
        },
{
    let n = tips.len();
    let mut l: usize = 0;
    while l < n
        invariant
            l <= n,
            n == tips@.len(),
            mtips.len() == tips@.len(),
            forall|m: int| 0 <= m < tips@.len() ==> mtips[m] == tip_view(#[trigger] tips@[m]),
            lowest_free(mtips) == lowest_free_from(mtips, l as int),
        decreases n - l,
    {
        match tips[l] {
            None => {
                return Some(l);
            },
            Some(_) => {},
        }
        l = l + 1;
    }
    None
}

/// Walks the history oldest-first and assigns each row its lane and its
/// palette index, as the ghost allocator prescribes.
pub fn assign_lanes_and_colors(commits: &Vec<CommitRecord>) -> (r: (Vec<usize>, Vec<usize>))
    ensures
        r.0@.len() == commits@.len(),
        r.1@.len() == commits@.len(),
        forall|i: int| 0 <= i < commits@.len() ==> #[trigger] r.0@[i] as int == lane_of(commits@, i),
        forall|i: int| 0 <= i < commits@.len() ==> #[trigger] r.1@[i] as int == color_of(
            commits@,
            i,
        ),
        forall|i: int| 0 <= i < commits@.len() ==> #[trigger] r.0@[i] < commits@.len(),
        forall|i: int| 0 <= i < commits@.len() ==> #[trigger] r.1@[i] < PALETTE_SIZE,
{
    let n = commits.len();
    let mut tips: Vec<Option<usize>> = Vec::new();
    let mut lanes: Vec<usize> = vec![0; n];
    let mut colors: Vec<usize> = vec![0; n];
    let mut next_color: usize = 0;
    let mut k: usize = 0;
    while k < n
        invariant
            k <= n,
            n == commits@.len(),
            state_matches(tips@, lanes@, colors@, next_color, layout_after(commits@, k as nat)),
        decreases n - k,
    {
        let i = n - 1 - k;
        let ghost st = layout_after(commits@, k as nat);
        proof {
            lemma_state_invariant(commits@, k as nat);
        }
        // Step 1: does this commit continue its primary parent's lane?
        let mut cont: Option<usize> = None;
        if commits[i].parent_ids.len() > 0 {
            match find_row(commits, &commits[i].parent_ids[0]) {
                Some(j) => {
                    if i < j {
                        let lj = lanes[j];
                        if lj < tips.len() {
                            match tips[lj] {
                                Some(t) => {
                                    if t == j {
                                        cont = Some(j);
                                    }
                                },
                                None => {},
                            }
                        }
                    }
                },
                None => {},
            }
        }
        proof {
            assert(continuation_row(commits@, st, i as int) == match cont {
                Some(j) => Some(j as int),
                None => None::<int>,
            });
        }
        // Step 2 and 3: occupy the chosen lane and record lane and color.
        match cont {
            Some(j) => {
                let l = lanes[j];
                tips.set(l, Some(i));
                lanes.set(i, l);
                let cj = colors[j];
                colors.set(i, cj);
            },
            None => {
                let fresh = next_color % PALETTE_SIZE;
                match find_free_lane(&tips, Ghost(st.tips)) {
                    Some(l) => {
                        tips.set(l, Some(i));
                        lanes.set(i, l);
                    },
                    None => {
                        lanes.set(i, tips.len());
                        tips.push(Some(i));
                    },
                }
                colors.set(i, fresh);
                next_color = next_color + 1;
            },
        }
        let ghost st1 = assign_step(commits@, st, i as int);
        proof {
            assert(state_matches(tips@, lanes@, colors@, next_color, st1));
        }
        // Step 4: a merge absorbs the lanes of its further parents.
        let np = commits[i].parent_ids.len();
        let mut p: usize = 1;
        while p < np
            invariant
                1 <= p,
                p <= np || p == 1,
                np == commits@[i as int].parent_ids@.len(),
                i < n == commits@.len(),
                st1 == assign_step(commits@, layout_after(commits@, k as nat), i as int),
                lanes@.len() == n,
                colors@.len() == n,
                next_color == st1.next_color,
                st1.lanes.len() == n,
                forall|m: int| 0 <= m < n ==> st1.lanes[m] == #[trigger] lanes@[m] as int,
                forall|m: int| 0 <= m < n ==> st1.colors[m] == #[trigger] colors@[m] as int,
                tips@.len() == st1.tips.len(),
                forall|l: int|
                    0 <= l < tips@.len() ==> release_merge_parents(
                        commits@,
                        st1.tips,
                        st1.lanes,
                        i as int,
                        p as int,
                    )[l] == tip_view(#[trigger] tips@[l]),
            decreases np - p,
        {
            proof {
                lemma_release_frames(commits@, st1.tips, st1.lanes, i as int, p as int);
            }
            match find_row(commits, &commits[i].parent_ids[p]) {
                Some(j) => {
                    if i < j {
                        let lj = lanes[j];
                        if lj < tips.len() {
                            let release = match tips[lj] {
                                Some(t) => t == j,
                                None => false,
                            };
                            if release {
                                tips.set(lj, None);
                            }
                        }
                    }
                },
                None => {},
            }
            p = p + 1;
        }
        proof {
            lemma_release_frames(commits@, st1.tips, st1.lanes, i as int, np as int);
            assert(release_merge_parents(commits@, st1.tips, st1.lanes, i as int, p as int)
                == release_merge_parents(commits@, st1.tips, st1.lanes, i as int, np as int));
            assert(process_row(commits@, st, i as int) == LayoutState {
                tips: release_merge_parents(commits@, st1.tips, st1.lanes, i as int, np as int),
                lanes: st1.lanes,
                colors: st1.colors,
                next_color: st1.next_color,
            });
        }
        k = k + 1;
        proof {
            assert(layout_after(commits@, k as nat) == process_row(commits@, st, i as int));
            assert(state_matches(
                tips@,
                lanes@,
                colors@,
                next_color,
                layout_after(commits@, k as nat),
            ));
        }
    }
    proof {
        lemma_state_invariant(commits@, n as nat);
    }
    (lanes, colors)
}

} // verus!
