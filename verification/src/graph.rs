//! The commit-graph layout engine: one render-ready node per input row.

use vstd::prelude::*;

use crate::geometry::{
    build_connector_path, center_x, center_y, connector_path, LANE_WIDTH, NODE_RADIUS, ROW_HEIGHT,
};
use crate::layout::{assign_lanes_and_colors, color_of, lane_of};
use crate::record::{find_row, row_of, CommitRecord};

verus! {

/// One drawn edge, linking a commit to one of its parents, in the color
/// of the parent's branch.
#[derive(Clone, Debug)]
pub struct Connector {
    /// SVG-style path commands in the engine's coordinate space.
    pub path_geometry: String,
    /// Palette index of the parent end of the edge.
    pub color: usize,
}

/// One drawable row of the commit graph.
#[derive(Clone, Debug)]
pub struct GraphNode {
    /// The commit this row stands for.
    pub id: String,
    /// The horizontal track of the row's circle.
    pub lane: usize,
    /// Center x of the row's circle.
    pub center_x: u64,
    /// Center y of the row's circle.
    pub center_y: u64,
    /// Radius of the row's circle.
    pub radius: u64,
    /// Palette index of the row's lineage.
    pub color: usize,
    /// The edges towards the row's parents, in parent order. Parents
    /// absent from the window draw no edge.
    pub connectors: Vec<Connector>,
}

/// The connectors of row `i` drawn from its first `p` parents: one per
/// parent that appears in the window on a row other than `i` itself, as a
/// pair of path geometry and color.
pub open spec fn connectors_upto(commits: Seq<CommitRecord>, i: int, p: int) -> Seq<
    (Seq<char>, int),
>
    decreases p,
{
    if p <= 0 {
        Seq::empty()
    } else {
        let rest = connectors_upto(commits, i, p - 1);
        match row_of(commits, commits[i].parent_ids@[p - 1]@) {
            Some(j) => if j != i {
                rest.push(
                    (
                        connector_path(i, lane_of(commits, i), j, lane_of(commits, j)),
                        color_of(commits, j),
                    ),
                )
            } else {
                rest
            },
            None => rest,
        }
    }
}

/// All connectors of row `i`.
pub open spec fn connectors_of(commits: Seq<CommitRecord>, i: int) -> Seq<(Seq<char>, int)> {
    connectors_upto(commits, i, commits[i].parent_ids@.len() as int)
}

/// The node at row `i` is laid out as the ghost model prescribes: it
/// keeps the row's id, sits at its assigned lane and row center, carries
/// its lineage's palette index, and draws exactly the model's connectors.
pub open spec fn node_matches(commits: Seq<CommitRecord>, node: GraphNode, i: int) -> bool {
    &&& node.id@ == commits[i].id@
    &&& node.lane as int == lane_of(commits, i)
    &&& node.center_x as int == center_x(lane_of(commits, i))
    &&& node.center_y as int == center_y(i)
    &&& node.radius == NODE_RADIUS
    &&& node.color as int == color_of(commits, i)
    &&& node.connectors@.len() == connectors_of(commits, i).len()
    &&& forall|k: int|
        0 <= k < node.connectors@.len() ==> {
            &&& (#[trigger] node.connectors@[k]).path_geometry@ == connectors_of(commits, i)[k].0
            &&& node.connectors@[k].color as int == connectors_of(commits, i)[k].1
        }
}

/// Computes the full layout: one node per input row, in input order.
///
/// The bound on the input length only keeps every center coordinate
/// representable in the output type.
pub fn generate_graph(commits: &Vec<CommitRecord>) -> (nodes: Vec<GraphNode>)
    requires
        ROW_HEIGHT * commits@.len() <= u64::MAX,
    ensures
        nodes@.len() == commits@.len(),
        forall|i: int|
            0 <= i < commits@.len() ==> node_matches(commits@, #[trigger] nodes@[i], i),
{
    let n = commits.len();
    let (lanes, colors) = assign_lanes_and_colors(commits);
    let mut nodes: Vec<GraphNode> = Vec::new();
    let mut i: usize = 0;
    while i < n
        invariant
            i <= n,
            n == commits@.len(),
            ROW_HEIGHT * n <= u64::MAX,
            lanes@.len() == n,
            colors@.len() == n,
            forall|m: int| 0 <= m < n ==> #[trigger] lanes@[m] as int == lane_of(commits@, m),
            forall|m: int| 0 <= m < n ==> #[trigger] colors@[m] as int == color_of(commits@, m),
            forall|m: int| 0 <= m < n ==> #[trigger] lanes@[m] < n,
            nodes@.len() == i,
            forall|m: int| 0 <= m < i ==> node_matches(commits@, #[trigger] nodes@[m], m),
        decreases n - i,
    {
        let np = commits[i].parent_ids.len();
        let mut connectors: Vec<Connector> = Vec::new();
        let mut p: usize = 0;
        while p < np
            invariant
                p <= np,
                i < n == commits@.len(),
                ROW_HEIGHT * n <= u64::MAX,
                np == commits@[i as int].parent_ids@.len(),
                lanes@.len() == n,
                colors@.len() == n,
                forall|m: int| 0 <= m < n ==> #[trigger] lanes@[m] as int == lane_of(commits@, m),
                forall|m: int| 0 <= m < n ==> #[trigger] colors@[m] as int == color_of(commits@, m),
                forall|m: int| 0 <= m < n ==> #[trigger] lanes@[m] < n,
                connectors@.len() == connectors_upto(commits@, i as int, p as int).len(),
                forall|k: int|
                    0 <= k < connectors@.len() ==> {
                        &&& (#[trigger] connectors@[k]).path_geometry@ == connectors_upto(
                            commits@,
                            i as int,
                            p as int,
                        )[k].0
                        &&& connectors@[k].color as int == connectors_upto(
                            commits@,
                            i as int,
                            p as int,
                        )[k].1
                    },
            decreases np - p,
        {
            match find_row(commits, &commits[i].parent_ids[p]) {
                Some(j) => {
                    if j != i {
                        let path = build_connector_path(
                            i as u64,
                            lanes[i] as u64,
                            j as u64,
                            lanes[j] as u64,
                        );
                        let color = colors[j];
                        connectors.push(Connector { path_geometry: path, color });
                    }
                },
                None => {},
            }
            p = p + 1;
        }
        let node = GraphNode {
            id: commits[i].id.clone(),
            lane: lanes[i],
            center_x: (lanes[i] as u64) * LANE_WIDTH + LANE_WIDTH / 2,
            center_y: (i as u64) * ROW_HEIGHT + ROW_HEIGHT / 2,
            radius: NODE_RADIUS,
            color: colors[i],
            connectors,
        };
        nodes.push(node);
        i = i + 1;
    }
    nodes
}

} // verus!
