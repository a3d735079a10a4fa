//! Hit-testing against the graph: point-in-node-box and point-near-edge
//! queries, resolved in list order — the first match in the node list, then
//! the first match in the edge list, wins.

use vstd::prelude::*;

use crate::geom::BoxSize;
use crate::geom::EDGE_HIT_DISTANCE;
use crate::geom::Pt;
use crate::geom::hit_box;
use crate::geom::hit_segment;
use crate::geom::in_box;
use crate::geom::near_segment;
use crate::geom::pt_ok;
use crate::geom::size_ok;
use crate::map::MindMap;
use crate::map::Node;
use crate::map::Edge;
use crate::map::node_idx;
use crate::edit::lemma_node_idx_is;
use vstd::pervasive::unreached;

verus! {

/// The world position of a node.
pub open spec fn node_pos(n: Node) -> Pt {
    Pt { x: n.x, y: n.y }
}

/// Whether the box of node `i` (centered at its position, sized by the
/// sizing collaborator's result `sizes[i]`) contains `p`.
pub open spec fn node_hit(nodes: Seq<Node>, sizes: Seq<BoxSize>, i: int, p: Pt) -> bool {
    in_box(p, node_pos(nodes[i]), sizes[i])
}

/// The first index at or after `i` of a node whose box contains `p`, or
/// the list length when there is none.
pub open spec fn first_node_hit_from(nodes: Seq<Node>, sizes: Seq<BoxSize>, p: Pt, i: int) -> int
    decreases nodes.len() - i,
{
    if i < 0 || i >= nodes.len() {
        nodes.len() as int
    } else if node_hit(nodes, sizes, i, p) {
        i
    } else {
        first_node_hit_from(nodes, sizes, p, i + 1)
    }
}

/// The first node (in list order) whose box contains `p`.
pub open spec fn first_node_hit(nodes: Seq<Node>, sizes: Seq<BoxSize>, p: Pt) -> int {
    first_node_hit_from(nodes, sizes, p, 0)
}

/// Whether the edge at index `i` passes within the hit distance of `p`:
/// the segment between its endpoint nodes' positions comes closer than
/// [`EDGE_HIT_DISTANCE`].
pub open spec fn edge_hit(m: MindMap, i: int, p: Pt) -> bool {
    let e = m.edges@[i];
    let f = m.nodes@[node_idx(m.nodes@, e.from)];
    let t = m.nodes@[node_idx(m.nodes@, e.to)];
    near_segment(node_pos(f), node_pos(t), p, EDGE_HIT_DISTANCE as int)
}

/// The first index at or after `i` of an edge within hit distance of `p`,
/// or the list length when there is none.
pub open spec fn first_edge_hit_from(m: MindMap, p: Pt, i: int) -> int
    decreases m.edges@.len() - i,
{
    if i < 0 || i >= m.edges@.len() {
        m.edges@.len() as int
    } else if edge_hit(m, i, p) {
        i
    } else {
        first_edge_hit_from(m, p, i + 1)
    }
}

/// The first edge (in list order) within hit distance of `p`.
pub open spec fn first_edge_hit(m: MindMap, p: Pt) -> int {
    first_edge_hit_from(m, p, 0)
}

/// If nothing hits before `i` and `i` hits (or the end was reached), the
/// search from `j <= i` ends at `i`.
proof fn lemma_first_node_hit_from(nodes: Seq<Node>, sizes: Seq<BoxSize>, p: Pt, j: int, i: int)
    requires
        0 <= j <= i <= nodes.len(),
        forall|k: int| j <= k < i ==> !node_hit(nodes, sizes, k, p),
        i < nodes.len() ==> node_hit(nodes, sizes, i, p),
    ensures
        first_node_hit_from(nodes, sizes, p, j) == i,
    decreases i - j,
{
    if j < i {
        lemma_first_node_hit_from(nodes, sizes, p, j + 1, i);
    }
}

/// The same, for edges.
proof fn lemma_first_edge_hit_from(m: MindMap, p: Pt, j: int, i: int)
    requires
        0 <= j <= i <= m.edges@.len(),
        forall|k: int| j <= k < i ==> !edge_hit(m, k, p),
        i < m.edges@.len() ==> edge_hit(m, i, p),
    ensures
        first_edge_hit_from(m, p, j) == i,
    decreases i - j,
{
    if j < i {
        lemma_first_edge_hit_from(m, p, j + 1, i);
    }
}

/// All the sizing collaborator's boxes are well-formed.
pub open spec fn sizes_ok(sizes: Seq<BoxSize>) -> bool {
    forall|i: int| 0 <= i < sizes.len() ==> size_ok(#[trigger] sizes[i])
}

impl MindMap {
    /// The index of the first node whose box contains `p`, with the boxes
    /// supplied by the sizing collaborator in node-list order.
    pub fn find_node_at(&self, p: Pt, sizes: &Vec<BoxSize>) -> (r: Option<usize>)
        requires
            self.wf(),
            pt_ok(p),
            sizes@.len() == self.nodes@.len(),
            sizes_ok(sizes@),
        ensures
            match r {
                Some(i) => i < self.nodes@.len() && first_node_hit(self.nodes@, sizes@, p)
                    == i as int,
                None => first_node_hit(self.nodes@, sizes@, p) == self.nodes@.len(),
            },
    {
        let mut i: usize = 0;
        while i < self.nodes.len()
            invariant
                i <= self.nodes@.len(),
                sizes@.len() == self.nodes@.len(),
                sizes_ok(sizes@),
                forall|k: int| 0 <= k < self.nodes@.len() ==> pt_ok(node_pos(#[trigger] self.nodes@[k])),
                pt_ok(p),
                forall|k: int| 0 <= k < i ==> !node_hit(self.nodes@, sizes@, k, p),
            decreases self.nodes@.len() - i,
        {
            let n = &self.nodes[i];
            if hit_box(p, Pt { x: n.x, y: n.y }, sizes[i]) {
                proof {
                    lemma_first_node_hit_from(self.nodes@, sizes@, p, 0, i as int);
                }
                return Some(i);
            }
            i = i + 1;
        }
        proof {
            lemma_first_node_hit_from(self.nodes@, sizes@, p, 0, self.nodes@.len() as int);
        }
        None
    }

    /// The index of the first edge within hit distance of `p`.
    pub fn find_edge_at(&self, p: Pt) -> (r: Option<usize>)
        requires
            self.wf(),
            pt_ok(p),
        ensures
            match r {
                Some(i) => i < self.edges@.len() && first_edge_hit(*self, p) == i as int,
                None => first_edge_hit(*self, p) == self.edges@.len(),
            },
    {
        let mut i: usize = 0;
        while i < self.edges.len()
            invariant
                self.wf(),
                pt_ok(p),
                i <= self.edges@.len(),
                forall|k: int| 0 <= k < i ==> !edge_hit(*self, k, p),
            decreases self.edges@.len() - i,
        {
            let from_id = self.edges[i].from;
            let to_id = self.edges[i].to;
            let fi = match self.node_index(from_id) {
                Some(fi) => fi,
                None => {
                    proof {
                        assert(has_node_id_helper(*self, i as int));
                    }
                    unreached()
                },
            };
            let ti = match self.node_index(to_id) {
                Some(ti) => ti,
                None => {
                    proof {
                        assert(has_node_id_helper(*self, i as int));
                    }
                    unreached()
                },
            };
            proof {
                lemma_node_idx_is(*self, fi as int, from_id);
                lemma_node_idx_is(*self, ti as int, to_id);
            }
            let f = &self.nodes[fi];
            let t = &self.nodes[ti];
            if hit_segment(
                Pt { x: f.x, y: f.y },
                Pt { x: t.x, y: t.y },
                p,
                EDGE_HIT_DISTANCE,
            ) {
                proof {
                    lemma_first_edge_hit_from(*self, p, 0, i as int);
                }
                return Some(i);
            }
            i = i + 1;
        }
        proof {
            lemma_first_edge_hit_from(*self, p, 0, self.edges@.len() as int);
        }
        None
    }
}

/// Both endpoints of the edge at `i` name present nodes (a restatement of
/// part of well-formedness, as a trigger aid).
pub open spec fn has_node_id_helper(m: MindMap, i: int) -> bool {
    crate::map::has_node_id(m.nodes@, m.edges@[i].from) && crate::map::has_node_id(
        m.nodes@,
        m.edges@[i].to,
    )
}

} // verus!
