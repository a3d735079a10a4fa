//! The graph data model: nodes, edges, tags, and the mind map that owns them.
//!
//! The central invariant ([`MindMap::wf`]) is that identifiers are unique,
//! that every edge's endpoints name nodes currently present, and that node
//! positions stay within the coordinate bound of the geometry. Removing a
//! node cascades to every edge incident to it, so no dangling edge is ever
//! observable.

use vstd::prelude::*;

use crate::annotation::Annotation;
use crate::annotation::Rgba;
use crate::geom::coord_ok;
use crate::metadata::Metadata;

verus! {

/// The kind of an edge. `References` edges are rendered with an arrowhead.
#[derive(Clone, Copy, Debug, PartialEq, Eq, Structural)]
pub enum EdgeType {
    Normal,
    References,
}

/// A colored label attached to a node.
#[derive(Clone, Debug)]
pub struct Tag {
    pub id: u128,
    pub name: String,
    pub color: Rgba,
}

/// A node of the graph: a titled box at a world position.
#[derive(Clone, Debug)]
pub struct Node {
    pub id: u128,
    pub title: String,
    pub metadata: Option<Metadata>,
    pub x: i64,
    pub y: i64,
    pub collapsed: bool,
    pub path: Option<String>,
    pub annotations: Vec<Annotation>,
    pub tags: Vec<Tag>,
    pub color: Option<Rgba>,
}

/// An edge between two nodes, identified by their ids.
#[derive(Clone, Debug)]
pub struct Edge {
    pub id: u128,
    pub from: u128,
    pub to: u128,
    pub edge_type: EdgeType,
    pub color: Option<Rgba>,
    pub annotations: Vec<Annotation>,
}

/// The graph: an ordered list of nodes and an ordered list of edges.
/// List order is the hit-test precedence order.
#[derive(Clone, Debug)]
pub struct MindMap {
    pub nodes: Vec<Node>,
    pub edges: Vec<Edge>,
}

/// Whether some node of `nodes` has id `id`.
pub open spec fn has_node_id(nodes: Seq<Node>, id: u128) -> bool {
    exists|i: int| 0 <= i < nodes.len() && (#[trigger] nodes[i]).id == id
}

/// Whether some edge of `edges` has id `id`.
pub open spec fn has_edge_id(edges: Seq<Edge>, id: u128) -> bool {
    exists|i: int| 0 <= i < edges.len() && (#[trigger] edges[i]).id == id
}

/// The index of the node with id `id`; meaningful when `id` is present,
/// in which case well-formedness makes it unique.
pub open spec fn node_idx(nodes: Seq<Node>, id: u128) -> int {
    choose|i: int| 0 <= i < nodes.len() && (#[trigger] nodes[i]).id == id
}

/// The index of the edge with id `id`; meaningful when `id` is present.
pub open spec fn edge_idx(edges: Seq<Edge>, id: u128) -> int {
    choose|i: int| 0 <= i < edges.len() && (#[trigger] edges[i]).id == id
}

impl MindMap {
    /// Whether `id` is used by a node or an edge of this map.
    pub open spec fn spec_id_used(self, id: u128) -> bool {
        has_node_id(self.nodes@, id) || has_edge_id(self.edges@, id)
    }

    /// Well-formedness: ids are unique across nodes and edges, every edge
    /// endpoint names a present node, and positions are within the
    /// coordinate bound.
    pub open spec fn wf(self) -> bool {
        &&& forall|i: int, j: int|
            0 <= i < j < self.nodes@.len() ==> (#[trigger] self.nodes@[i]).id != (
            #[trigger] self.nodes@[j]).id
        &&& forall|i: int, j: int|
            0 <= i < j < self.edges@.len() ==> (#[trigger] self.edges@[i]).id != (
            #[trigger] self.edges@[j]).id
        &&& forall|i: int, j: int|
            0 <= i < self.nodes@.len() && 0 <= j < self.edges@.len() ==> (
            #[trigger] self.nodes@[i]).id != (#[trigger] self.edges@[j]).id
        &&& forall|i: int|
            0 <= i < self.edges@.len() ==> has_node_id(self.nodes@, (#[trigger] self.edges@[i]).from)
                && has_node_id(self.nodes@, self.edges@[i].to)
        &&& forall|i: int|
            0 <= i < self.nodes@.len() ==> coord_ok((#[trigger] self.nodes@[i]).x) && coord_ok(
                self.nodes@[i].y,
            )
    }

    /// An empty, well-formed map.
    pub fn new() -> (r: MindMap)
        ensures
            r.wf(),
            r.nodes@.len() == 0,
            r.edges@.len() == 0,
    {
        MindMap { nodes: Vec::new(), edges: Vec::new() }
    }

    /// Whether `id` is used by any node or edge.
    pub fn id_used(&self, id: u128) -> (r: bool)
        ensures
            r == self.spec_id_used(id),
    {
        let mut i: usize = 0;
        while i < self.nodes.len()
            invariant
                i <= self.nodes@.len(),
                forall|j: int| 0 <= j < i ==> (#[trigger] self.nodes@[j]).id != id,
            decreases self.nodes@.len() - i,
        {
            if self.nodes[i].id == id {
                return true;
            }
            i = i + 1;
        }
        let mut j: usize = 0;
        while j < self.edges.len()
            invariant
                j <= self.edges@.len(),
                forall|k: int| 0 <= k < j ==> (#[trigger] self.edges@[k]).id != id,
                forall|k: int| 0 <= k < self.nodes@.len() ==> (#[trigger] self.nodes@[k]).id != id,
            decreases self.edges@.len() - j,
        {
            if self.edges[j].id == id {
                return true;
            }
            j = j + 1;
        }
        false
    }

    /// The index of the first node whose id is `id`, if any.
    pub fn node_index(&self, id: u128) -> (r: Option<usize>)
        ensures
            match r {
                Some(i) => i < self.nodes@.len() && self.nodes@[i as int].id == id && (forall|
                    j: int,
                |
                    0 <= j < i ==> (#[trigger] self.nodes@[j]).id != id),
                None => !has_node_id(self.nodes@, id),
            },
    {
        let mut i: usize = 0;
        while i < self.nodes.len()
            invariant
                i <= self.nodes@.len(),
                forall|j: int| 0 <= j < i ==> (#[trigger] self.nodes@[j]).id != id,
            decreases self.nodes@.len() - i,
        {
            if self.nodes[i].id == id {
                return Some(i);
            }
            i = i + 1;
        }
        None
    }

    /// The index of the first edge whose id is `id`, if any.
    pub fn edge_index(&self, id: u128) -> (r: Option<usize>)
        ensures
            match r {
                Some(i) => i < self.edges@.len() && self.edges@[i as int].id == id && (forall|
                    j: int,
                |
                    0 <= j < i ==> (#[trigger] self.edges@[j]).id != id),
                None => !has_edge_id(self.edges@, id),
            },
    {
        let mut i: usize = 0;
        while i < self.edges.len()
            invariant
                i <= self.edges@.len(),
                forall|j: int| 0 <= j < i ==> (#[trigger] self.edges@[j]).id != id,
            decreases self.edges@.len() - i,
        {
            if self.edges[i].id == id {
                return Some(i);
            }
            i = i + 1;
        }
        None
    }

    /// Insert a fresh empty node with the given id. Succeeds if and only if
    /// the id is not already in use; on failure the map is unchanged.
    pub fn insert_node_with_id(&mut self, id: u128, title: String, x: i64, y: i64) -> (r: bool)
        requires
            old(self).wf(),
            coord_ok(x),
            coord_ok(y),
        ensures
            final(self).wf(),
            r == !old(self).spec_id_used(id),
            r ==> final(self).nodes@.len() == old(self).nodes@.len() + 1 && final(self).nodes@.subrange(
                0,
                old(self).nodes@.len() as int,
            ) == old(self).nodes@ && final(self).edges@ == old(self).edges@ && {
                let n = final(self).nodes@.last();
                n.id == id && n.title == title && n.metadata is None && n.x == x && n.y == y
                    && n.collapsed == true && n.path is None && n.annotations@.len() == 0
                    && n.tags@.len() == 0 && n.color is None
            },
            !r ==> *final(self) == *old(self),
    {
        if self.id_used(id) {
            return false;
        }
        let node = Node {
            id,
            title,
            metadata: None,
            x,
            y,
            collapsed: true,
            path: None,
            annotations: Vec::new(),
            tags: Vec::new(),
            color: None,
        };
        self.nodes.push(node);
        proof {
            assert(self.nodes@.subrange(0, old(self).nodes@.len() as int) =~= old(self).nodes@);
        }
        true
    }

    /// Create a node with a freshly drawn id and a default title, at the
    /// given world position, as the double-click-on-empty-space gesture
    /// does. Returns the new id, or `None` in the vanishingly unlikely case
    /// that the drawn id is already in use (the map is then unchanged).
    pub fn add_node(&mut self, title: String, x: i64, y: i64) -> (r: Option<u128>)
        requires
            old(self).wf(),
            coord_ok(x),
            coord_ok(y),
        ensures
            final(self).wf(),
            match r {
                Some(id) => !old(self).spec_id_used(id) && final(self).nodes@.len() == old(
                    self,
                ).nodes@.len() + 1 && final(self).nodes@.subrange(0, old(self).nodes@.len() as int) == old(
                    self,
                ).nodes@ && final(self).edges@ == old(self).edges@ && {
                    let n = final(self).nodes@.last();
                    n.id == id && n.title == title && n.metadata is None && n.x == x && n.y == y
                        && n.collapsed == true && n.path is None && n.annotations@.len() == 0
                        && n.tags@.len() == 0 && n.color is None
                },
                None => *final(self) == *old(self),
            },
    {
        let id = fresh_id_candidate();
        if self.insert_node_with_id(id, title, x, y) {
            Some(id)
        } else {
            None
        }
    }

    /// Insert a node built from an imported document with the given id:
    /// its title is the metadata title, or the given path when that title is
    /// empty; it stores the metadata and the source path and starts
    /// collapsed. Succeeds if and only if the id is not already in use.
    pub fn insert_pdf_node_with_id(
        &mut self,
        id: u128,
        metadata: Metadata,
        path: String,
        x: i64,
        y: i64,
    ) -> (r: bool)
        requires
            old(self).wf(),
            coord_ok(x),
            coord_ok(y),
        ensures
            final(self).wf(),
            r == !old(self).spec_id_used(id),
            r ==> final(self).nodes@.len() == old(self).nodes@.len() + 1 && final(self).nodes@.subrange(
                0,
                old(self).nodes@.len() as int,
            ) == old(self).nodes@ && final(self).edges@ == old(self).edges@ && {
                let n = final(self).nodes@.last();
                n.id == id && n.title@ == (if metadata.title@.len() == 0 {
                    path@
                } else {
                    metadata.title@
                }) && n.metadata == Some(metadata) && n.x == x && n.y == y && n.collapsed == true
                    && n.path == Some(path) && n.annotations@.len() == 0 && n.tags@.len() == 0
                    && n.color is None
            },
            !r ==> *final(self) == *old(self),
    {
        if self.id_used(id) {
            return false;
        }
        let title: String = if metadata.title.as_str().is_empty() {
            path.clone()
        } else {
            metadata.title.clone()
        };
        let node = Node {
            id,
            title,
            metadata: Some(metadata),
            x,
            y,
            collapsed: true,
            path: Some(path),
            annotations: Vec::new(),
            tags: Vec::new(),
            color: None,
        };
        self.nodes.push(node);
        proof {
            assert(self.nodes@.subrange(0, old(self).nodes@.len() as int) =~= old(self).nodes@);
        }
        true
    }

    /// Create a node from an imported document with a freshly drawn id.
    /// `None` only when the drawn id is already in use (map unchanged).
    pub fn add_pdf_node(&mut self, metadata: Metadata, path: String, x: i64, y: i64) -> (r: Option<
        u128,
    >)
        requires
            old(self).wf(),
            coord_ok(x),
            coord_ok(y),
        ensures
            final(self).wf(),
            match r {
                Some(id) => !old(self).spec_id_used(id) && final(self).nodes@.len() == old(
                    self,
                ).nodes@.len() + 1 && final(self).nodes@.subrange(0, old(self).nodes@.len() as int) == old(
                    self,
                ).nodes@ && final(self).edges@ == old(self).edges@ && {
                    let n = final(self).nodes@.last();
                    n.id == id && n.title@ == (if metadata.title@.len() == 0 {
                        path@
                    } else {
                        metadata.title@
                    }) && n.metadata == Some(metadata) && n.x == x && n.y == y && n.collapsed
                        == true && n.path == Some(path) && n.annotations@.len() == 0
                        && n.tags@.len() == 0 && n.color is None
                },
                None => *final(self) == *old(self),
            },
    {
        let id = fresh_id_candidate();
        if self.insert_pdf_node_with_id(id, metadata, path, x, y) {
            Some(id)
        } else {
            None
        }
    }

    /// Insert an edge with the given id between two present nodes, of the
    /// `Normal` kind and with no color or annotations. Succeeds if and only
    /// if the id is not already in use; on failure the map is unchanged.
    pub fn insert_edge_with_id(&mut self, id: u128, from: u128, to: u128) -> (r: bool)
        requires
            old(self).wf(),
            has_node_id(old(self).nodes@, from),
            has_node_id(old(self).nodes@, to),
        ensures
            final(self).wf(),
            r == !old(self).spec_id_used(id),
            r ==> final(self).edges@.len() == old(self).edges@.len() + 1 && final(self).edges@.subrange(
                0,
                old(self).edges@.len() as int,
            ) == old(self).edges@ && final(self).nodes@ == old(self).nodes@ && {
                let e = final(self).edges@.last();
                e.id == id && e.from == from && e.to == to && e.edge_type == EdgeType::Normal
                    && e.color is None && e.annotations@.len() == 0
            },
            !r ==> *final(self) == *old(self),
    {
        if self.id_used(id) {
            return false;
        }
        let edge = Edge {
            id,
            from,
            to,
            edge_type: EdgeType::Normal,
            color: None,
            annotations: Vec::new(),
        };
        self.edges.push(edge);
        proof {
            assert(self.edges@.subrange(0, old(self).edges@.len() as int) =~= old(self).edges@);
        }
        true
    }

    /// Create an edge between two present nodes with a freshly drawn id.
    /// `None` only when the drawn id is already in use (map unchanged).
    pub fn add_edge(&mut self, from: u128, to: u128) -> (r: Option<u128>)
        requires
            old(self).wf(),
            has_node_id(old(self).nodes@, from),
            has_node_id(old(self).nodes@, to),
        ensures
            final(self).wf(),
            match r {
                Some(id) => !old(self).spec_id_used(id) && final(self).edges@.len() == old(
                    self,
                ).edges@.len() + 1 && final(self).edges@.subrange(0, old(self).edges@.len() as int) == old(
                    self,
                ).edges@ && final(self).nodes@ == old(self).nodes@ && {
                    let e = final(self).edges@.last();
                    e.id == id && e.from == from && e.to == to && e.edge_type == EdgeType::Normal
                        && e.color is None && e.annotations@.len() == 0
                },
                None => *final(self) == *old(self),
            },
    {
        let id = fresh_id_candidate();
        if self.insert_edge_with_id(id, from, to) {
            Some(id)
        } else {
            None
        }
    }

    /// Remove the node with id `node_id`, cascading to every edge that
    /// references it: afterwards no edge of the map names `node_id` at
    /// either endpoint.
    pub fn remove_node(&mut self, node_id: u128)
        requires
            old(self).wf(),
        ensures
            final(self).wf(),
            final(self).nodes@ == old(self).nodes@.filter(|n: Node| n.id != node_id),
            final(self).edges@ == old(self).edges@.filter(
                |e: Edge| e.from != node_id && e.to != node_id,
            ),
            forall|i: int|
                0 <= i < final(self).edges@.len() ==> (#[trigger] final(self).edges@[i]).from != node_id
                    && final(self).edges@[i].to != node_id,
    {
        let ghost orig_nodes = self.nodes@;
        let ghost orig_edges = self.edges@;
        let ghost npred = |n: Node| n.id != node_id;
        let ghost epred = |e: Edge| e.from != node_id && e.to != node_id;

        let mut i: usize = 0;
        let ghost mut k: int = 0;
        while i < self.nodes.len()
            invariant
                0 <= k <= orig_nodes.len(),
                i as int == orig_nodes.subrange(0, k).filter(npred).len(),
                self.nodes@ == orig_nodes.subrange(0, k).filter(npred) + orig_nodes.subrange(
                    k,
                    orig_nodes.len() as int,
                ),
                self.edges@ == orig_edges,
                i <= self.nodes@.len(),
                npred == (|n: Node| n.id != node_id),
            decreases self.nodes@.len() - i,
        {
            proof {
                assert(self.nodes@[i as int] == orig_nodes[k]);
            }
            if self.nodes[i].id != node_id {
                proof {
                    lemma_filter_push(orig_nodes.subrange(0, k), orig_nodes[k], npred);
                    assert(orig_nodes.subrange(0, k + 1) =~= orig_nodes.subrange(0, k).push(
                        orig_nodes[k],
                    ));
                    assert(self.nodes@ =~= orig_nodes.subrange(0, k + 1).filter(npred)
                        + orig_nodes.subrange(k + 1, orig_nodes.len() as int));
                }
                i = i + 1;
                proof {
                    k = k + 1;
                }
            } else {
                let ghost pre = self.nodes@;
                let _removed = self.nodes.remove(i);
                proof {
                    lemma_filter_push(orig_nodes.subrange(0, k), orig_nodes[k], npred);
                    assert(orig_nodes.subrange(0, k + 1) =~= orig_nodes.subrange(0, k).push(
                        orig_nodes[k],
                    ));
                    assert(self.nodes@ =~= orig_nodes.subrange(0, k + 1).filter(npred)
                        + orig_nodes.subrange(k + 1, orig_nodes.len() as int));
                    k = k + 1;
                }
            }
        }
        proof {
            assert(orig_nodes.subrange(0, k) =~= orig_nodes);
            assert(self.nodes@ =~= orig_nodes.filter(npred));
        }

        let mut j: usize = 0;
        let ghost mut m: int = 0;
        while j < self.edges.len()
            invariant
                0 <= m <= orig_edges.len(),
                j as int == orig_edges.subrange(0, m).filter(epred).len(),
                self.edges@ == orig_edges.subrange(0, m).filter(epred) + orig_edges.subrange(
                    m,
                    orig_edges.len() as int,
                ),
                self.nodes@ == orig_nodes.filter(npred),
                j <= self.edges@.len(),
                epred == (|e: Edge| e.from != node_id && e.to != node_id),
            decreases self.edges@.len() - j,
        {
            proof {
                assert(self.edges@[j as int] == orig_edges[m]);
            }
            let keep = self.edges[j].from != node_id && self.edges[j].to != node_id;
            if keep {
                proof {
                    lemma_filter_push(orig_edges.subrange(0, m), orig_edges[m], epred);
                    assert(orig_edges.subrange(0, m + 1) =~= orig_edges.subrange(0, m).push(
                        orig_edges[m],
                    ));
                    assert(self.edges@ =~= orig_edges.subrange(0, m + 1).filter(epred)
                        + orig_edges.subrange(m + 1, orig_edges.len() as int));
                }
                j = j + 1;
                proof {
                    m = m + 1;
                }
            } else {
                let _removed = self.edges.remove(j);
                proof {
                    lemma_filter_push(orig_edges.subrange(0, m), orig_edges[m], epred);
                    assert(orig_edges.subrange(0, m + 1) =~= orig_edges.subrange(0, m).push(
                        orig_edges[m],
                    ));
                    assert(self.edges@ =~= orig_edges.subrange(0, m + 1).filter(epred)
                        + orig_edges.subrange(m + 1, orig_edges.len() as int));
                    m = m + 1;
                }
            }
        }
        proof {
            assert(orig_edges.subrange(0, m) =~= orig_edges);
            assert(self.edges@ =~= orig_edges.filter(epred));
            lemma_filtered_map_wf(*old(self), *self, node_id);
        }
    }

    /// Remove the edge with id `edge_id`, leaving nodes untouched.
    pub fn remove_edge(&mut self, edge_id: u128)
        requires
            old(self).wf(),
        ensures
            final(self).wf(),
            final(self).nodes@ == old(self).nodes@,
            final(self).edges@ == old(self).edges@.filter(|e: Edge| e.id != edge_id),
    {
        let ghost orig_edges = self.edges@;
        let ghost epred = |e: Edge| e.id != edge_id;
        let mut j: usize = 0;
        let ghost mut m: int = 0;
        while j < self.edges.len()
            invariant
                0 <= m <= orig_edges.len(),
                j as int == orig_edges.subrange(0, m).filter(epred).len(),
                self.edges@ == orig_edges.subrange(0, m).filter(epred) + orig_edges.subrange(
                    m,
                    orig_edges.len() as int,
                ),
                self.nodes@ == old(self).nodes@,
                j <= self.edges@.len(),
                epred == (|e: Edge| e.id != edge_id),
            decreases self.edges@.len() - j,
        {
            proof {
                assert(self.edges@[j as int] == orig_edges[m]);
            }
            if self.edges[j].id != edge_id {
                proof {
                    lemma_filter_push(orig_edges.subrange(0, m), orig_edges[m], epred);
                    assert(orig_edges.subrange(0, m + 1) =~= orig_edges.subrange(0, m).push(
                        orig_edges[m],
                    ));
                    assert(self.edges@ =~= orig_edges.subrange(0, m + 1).filter(epred)
                        + orig_edges.subrange(m + 1, orig_edges.len() as int));
                }
                j = j + 1;
                proof {
                    m = m + 1;
                }
            } else {
                let _removed = self.edges.remove(j);
                proof {
                    lemma_filter_push(orig_edges.subrange(0, m), orig_edges[m], epred);
                    assert(orig_edges.subrange(0, m + 1) =~= orig_edges.subrange(0, m).push(
                        orig_edges[m],
                    ));
                    assert(self.edges@ =~= orig_edges.subrange(0, m + 1).filter(epred)
                        + orig_edges.subrange(m + 1, orig_edges.len() as int));
                    m = m + 1;
                }
            }
        }
        proof {
            assert(orig_edges.subrange(0, m) =~= orig_edges);
            assert(self.edges@ =~= orig_edges.filter(epred));
            lemma_edge_filter_wf(*old(self), *self, epred);
        }
    }
}

/// Drawing identifiers. Relies on `uuid::Uuid::new_v4`, a random version-4
/// UUID, taken as 128 bits; nothing is promised of the value drawn, and
/// every caller checks it against the graph before use. Note: the
/// generator aborts if the operating system's random source fails — an
/// environmental failure outside this library's no-panic guarantee.
#[verifier::external_body]
pub(crate) fn fresh_id_candidate() -> u128 {
    uuid::Uuid::new_v4().as_u128()
}

/// Filtering a sequence extended by one element keeps the element exactly
/// when the predicate holds of it.
pub proof fn lemma_filter_push<A>(s: Seq<A>, x: A, pred: spec_fn(A) -> bool)
    ensures
        s.push(x).filter(pred) == (if pred(x) {
            s.filter(pred).push(x)
        } else {
            s.filter(pred)
        }),
{
    reveal(Seq::filter);
    assert(s.push(x).drop_last() =~= s);
    assert(s.push(x).last() == x);
}

/// Every element of a filtered sequence is an element of the original.
pub proof fn lemma_filter_elems<A>(s: Seq<A>, pred: spec_fn(A) -> bool)
    ensures
        forall|i: int|
            0 <= i < s.filter(pred).len() ==> s.contains(#[trigger] s.filter(pred)[i]) && pred(
                s.filter(pred)[i],
            ),
    decreases s.len(),
{
    reveal(Seq::filter);
    if s.len() > 0 {
        lemma_filter_elems(s.drop_last(), pred);
        let f = s.filter(pred);
        let fd = s.drop_last().filter(pred);
        assert forall|i: int| 0 <= i < f.len() implies s.contains(#[trigger] f[i]) && pred(
            f[i],
        ) by {
            if pred(s.last()) && i == f.len() - 1 {
                assert(f[i] == s.last());
                assert(0 <= s.len() - 1 < s.len() && s[s.len() - 1] == f[i]);
            } else {
                assert(f[i] == fd[i]);
                assert(s.drop_last().contains(fd[i]));
                let j = choose|j: int|
                    0 <= j < s.drop_last().len() && s.drop_last()[j] == fd[i];
                assert(0 <= j < s.len() && s[j] == f[i]);
            }
        }
    }
}

/// A map whose node and edge lists are the result of removing node
/// `node_id` by filtering is well-formed again.
proof fn lemma_filtered_map_wf(pre: MindMap, post: MindMap, node_id: u128)
    requires
        pre.wf(),
        post.nodes@ == pre.nodes@.filter(|n: Node| n.id != node_id),
        post.edges@ == pre.edges@.filter(|e: Edge| e.from != node_id && e.to != node_id),
    ensures
        post.wf(),
{
    let npred = |n: Node| n.id != node_id;
    let epred = |e: Edge| e.from != node_id && e.to != node_id;
    let ns = post.nodes@;
    let es = post.edges@;
    lemma_filter_elems(pre.nodes@, npred);
    lemma_filter_elems(pre.edges@, epred);
    lemma_filter_distinct_node_ids(pre.nodes@, npred);
    assert forall|i: int, j: int| 0 <= i < j < es.len() implies (#[trigger] es[i]).id != (
    #[trigger] es[j]).id by {
        lemma_filter_index_increasing(pre.edges@, epred, i, j);
    }
    assert forall|i: int, j: int| 0 <= i < ns.len() && 0 <= j < es.len() implies (
    #[trigger] ns[i]).id != (#[trigger] es[j]).id by {
        let ii = choose|ii: int| 0 <= ii < pre.nodes@.len() && pre.nodes@[ii] == ns[i];
        let jj = choose|jj: int| 0 <= jj < pre.edges@.len() && pre.edges@[jj] == es[j];
        assert(pre.nodes@.contains(ns[i]));
        assert(pre.edges@.contains(es[j]));
        assert(pre.nodes@[ii].id != pre.edges@[jj].id);
    }
    assert forall|i: int| 0 <= i < es.len() implies has_node_id(ns, (#[trigger] es[i]).from)
        && has_node_id(ns, es[i].to) by {
        assert(pre.edges@.contains(es[i]));
        assert(epred(es[i]));
        let fi = choose|fi: int| 0 <= fi < pre.nodes@.len() && (#[trigger] pre.nodes@[fi]).id == es[i].from;
        let ti = choose|ti: int| 0 <= ti < pre.nodes@.len() && (#[trigger] pre.nodes@[ti]).id == es[i].to;
        pre.nodes@.filter_lemma(npred);
        assert(npred(pre.nodes@[fi]));
        assert(ns.contains(pre.nodes@[fi]));
        let fk = choose|fk: int| 0 <= fk < ns.len() && ns[fk] == pre.nodes@[fi];
        assert(ns[fk].id == es[i].from);
        assert(npred(pre.nodes@[ti]));
        assert(ns.contains(pre.nodes@[ti]));
        let tk = choose|tk: int| 0 <= tk < ns.len() && ns[tk] == pre.nodes@[ti];
        assert(ns[tk].id == es[i].to);
    }
    assert forall|i: int| 0 <= i < ns.len() implies coord_ok((#[trigger] ns[i]).x) && coord_ok(
        ns[i].y,
    ) by {
        assert(pre.nodes@.contains(ns[i]));
        let ii = choose|ii: int| 0 <= ii < pre.nodes@.len() && pre.nodes@[ii] == ns[i];
        assert(coord_ok(pre.nodes@[ii].x));
    }
}

/// A map whose edge list alone was filtered is well-formed again.
proof fn lemma_edge_filter_wf(pre: MindMap, post: MindMap, epred: spec_fn(Edge) -> bool)
    requires
        pre.wf(),
        post.nodes@ == pre.nodes@,
        post.edges@ == pre.edges@.filter(epred),
    ensures
        post.wf(),
{
    let es = post.edges@;
    let ns = post.nodes@;
    lemma_filter_elems(pre.edges@, epred);
    assert forall|i: int, j: int| 0 <= i < j < es.len() implies (#[trigger] es[i]).id != (
    #[trigger] es[j]).id by {
        lemma_filter_index_increasing(pre.edges@, epred, i, j);
    }
    assert forall|i: int, j: int| 0 <= i < ns.len() && 0 <= j < es.len() implies (
    #[trigger] ns[i]).id != (#[trigger] es[j]).id by {
        assert(pre.edges@.contains(es[j]));
        let jj = choose|jj: int| 0 <= jj < pre.edges@.len() && pre.edges@[jj] == es[j];
        assert(pre.nodes@[i].id != pre.edges@[jj].id);
    }
    assert forall|i: int| 0 <= i < es.len() implies has_node_id(ns, (#[trigger] es[i]).from)
        && has_node_id(ns, es[i].to) by {
        assert(pre.edges@.contains(es[i]));
        let jj = choose|jj: int| 0 <= jj < pre.edges@.len() && pre.edges@[jj] == es[i];
        assert(has_node_id(pre.nodes@, pre.edges@[jj].from));
        assert(has_node_id(pre.nodes@, pre.edges@[jj].to));
    }
}

/// Two distinct positions of a filtered sequence come from two distinct
/// positions of the original, in the same order; so if ids are distinct in
/// the original they are distinct in the filtered sequence.
pub(crate) proof fn lemma_filter_index_increasing<A>(s: Seq<A>, pred: spec_fn(A) -> bool, i: int, j: int)
    requires
        0 <= i < j < s.filter(pred).len(),
    ensures
        exists|ii: int, jj: int|
            0 <= ii < jj < s.len() && s[ii] == #[trigger] s.filter(pred)[i] && s[jj] == s.filter(
                pred,
            )[j],
    decreases s.len(),
{
    reveal(Seq::filter);
    let f = s.filter(pred);
    let fd = s.drop_last().filter(pred);
    if pred(s.last()) && j == f.len() - 1 {
        // s.filter(pred)[j] is s.last(); find i in the front.
        assert(f[j] == s.last());
        lemma_filter_elems(s.drop_last(), pred);
        assert(f[i] == fd[i]);
        assert(s.drop_last().contains(fd[i]));
        let ii = choose|ii: int| 0 <= ii < s.drop_last().len() && s.drop_last()[ii] == fd[i];
        let jj = s.len() - 1;
        assert(0 <= ii < jj < s.len() && s[ii] == f[i] && s[jj] == f[j]);
    } else {
        // Both positions are inside the filtered front.
        assert(f[i] == fd[i] && f[j] == fd[j]);
        lemma_filter_index_increasing(s.drop_last(), pred, i, j);
        let (ii, jj) = choose|ii: int, jj: int|
            0 <= ii < jj < s.drop_last().len() && s.drop_last()[ii] == #[trigger] fd[i]
                && s.drop_last()[jj] == fd[j];
        assert(0 <= ii < jj < s.len() && s[ii] == f[i] && s[jj] == f[j]);
    }
}

/// Two filters compose into a filter by the conjunction.
pub(crate) proof fn lemma_filter_filter<A>(s: Seq<A>, p: spec_fn(A) -> bool, q: spec_fn(A) -> bool)
    ensures
        s.filter(p).filter(q) == s.filter(|x: A| p(x) && q(x)),
    decreases s.len(),
{
    reveal(Seq::filter);
    if s.len() == 0 {
        assert(s.filter(p).filter(q) =~= s.filter(|x: A| p(x) && q(x)));
    } else {
        lemma_filter_filter(s.drop_last(), p, q);
        let fd = s.drop_last().filter(p);
        if p(s.last()) {
            lemma_filter_push(fd, s.last(), q);
            assert(s.filter(p) == fd.push(s.last()));
        } else {
            assert(s.filter(p) == fd);
        }
    }
}

/// Filters by pointwise-equivalent predicates agree.
pub(crate) proof fn lemma_filter_ext<A>(s: Seq<A>, p: spec_fn(A) -> bool, q: spec_fn(A) -> bool)
    requires
        forall|i: int| 0 <= i < s.len() ==> (p(#[trigger] s[i]) <==> q(s[i])),
    ensures
        s.filter(p) == s.filter(q),
    decreases s.len(),
{
    reveal(Seq::filter);
    if s.len() > 0 {
        assert(forall|i: int|
            0 <= i < s.drop_last().len() ==> (p(#[trigger] s.drop_last()[i]) <==> q(
                s.drop_last()[i],
            ))) by {
            assert(forall|i: int|
                0 <= i < s.drop_last().len() ==> #[trigger] s.drop_last()[i] == s[i]);
        }
        lemma_filter_ext(s.drop_last(), p, q);
        assert(s.last() == s[s.len() - 1]);
    }
}

/// Membership in a one-longer prefix of an id sequence.
pub(crate) proof fn lemma_sub_push_contains(s: Seq<u128>, k: int)
    requires
        0 <= k < s.len(),
    ensures
        forall|y: u128|
            #[trigger] s.subrange(0, k + 1).contains(y) <==> (s.subrange(0, k).contains(y) || y
                == s[k]),
{
    assert(s.subrange(0, k + 1) =~= s.subrange(0, k).push(s[k]));
    assert forall|y: u128| #[trigger] s.subrange(0, k + 1).contains(y) implies (s.subrange(
        0,
        k,
    ).contains(y) || y == s[k]) by {
        let j = choose|j: int|
            0 <= j < s.subrange(0, k + 1).len() && #[trigger] s.subrange(0, k + 1)[j] == y;
        if j < k {
            assert(s.subrange(0, k)[j] == y);
        }
    }
    assert forall|y: u128| (s.subrange(0, k).contains(y) || y == s[k]) implies #[trigger] s.subrange(
        0,
        k + 1,
    ).contains(y) by {
        if s.subrange(0, k).contains(y) {
            let j = choose|j: int|
                0 <= j < s.subrange(0, k).len() && #[trigger] s.subrange(0, k)[j] == y;
            assert(s.subrange(0, k + 1)[j] == y);
        } else {
            assert(s.subrange(0, k + 1)[k] == y);
        }
    }
}

/// Filtering preserves distinctness of edge ids.
pub(crate) proof fn lemma_filter_distinct_edge_ids(s: Seq<Edge>, pred: spec_fn(Edge) -> bool)
    requires
        forall|i: int, j: int| 0 <= i < j < s.len() ==> (#[trigger] s[i]).id != (#[trigger] s[j]).id,
    ensures
        forall|i: int, j: int|
            0 <= i < j < s.filter(pred).len() ==> (#[trigger] s.filter(pred)[i]).id != (
            #[trigger] s.filter(pred)[j]).id,
{
    assert forall|i: int, j: int| 0 <= i < j < s.filter(pred).len() implies (
    #[trigger] s.filter(pred)[i]).id != (#[trigger] s.filter(pred)[j]).id by {
        lemma_filter_index_increasing(s, pred, i, j);
    }
}

/// A filter by a predicate true of every element is the identity.
pub(crate) proof fn lemma_filter_true<A>(s: Seq<A>, p: spec_fn(A) -> bool)
    requires
        forall|i: int| 0 <= i < s.len() ==> p(#[trigger] s[i]),
    ensures
        s.filter(p) == s,
    decreases s.len(),
{
    reveal(Seq::filter);
    if s.len() == 0 {
        assert(s.filter(p) =~= s);
    } else {
        assert(forall|i: int|
            0 <= i < s.drop_last().len() ==> p(#[trigger] s.drop_last()[i])) by {
            assert(forall|i: int|
                0 <= i < s.drop_last().len() ==> #[trigger] s.drop_last()[i] == s[i]);
        }
        lemma_filter_true(s.drop_last(), p);
        assert(s.last() == s[s.len() - 1]);
        assert(s.filter(p) =~= s);
    }
}

/// Filtering a sequence of distinct values keeps the values distinct.
pub(crate) proof fn lemma_filter_distinct_vals<A>(s: Seq<A>, pred: spec_fn(A) -> bool)
    requires
        forall|i: int, j: int| 0 <= i < j < s.len() ==> s[i] != s[j],
    ensures
        forall|i: int, j: int|
            0 <= i < j < s.filter(pred).len() ==> #[trigger] s.filter(pred)[i] != (
            #[trigger] s.filter(pred)[j]),
{
    assert forall|i: int, j: int| 0 <= i < j < s.filter(pred).len() implies #[trigger] s.filter(
        pred,
    )[i] != (#[trigger] s.filter(pred)[j]) by {
        lemma_filter_index_increasing(s, pred, i, j);
    }
}

/// Filtering preserves distinctness of node ids.
pub(crate) proof fn lemma_filter_distinct_node_ids(s: Seq<Node>, pred: spec_fn(Node) -> bool)
    requires
        forall|i: int, j: int| 0 <= i < j < s.len() ==> (#[trigger] s[i]).id != (#[trigger] s[j]).id,
    ensures
        forall|i: int, j: int|
            0 <= i < j < s.filter(pred).len() ==> (#[trigger] s.filter(pred)[i]).id != (
            #[trigger] s.filter(pred)[j]).id,
{
    assert forall|i: int, j: int| 0 <= i < j < s.filter(pred).len() implies (
    #[trigger] s.filter(pred)[i]).id != (#[trigger] s.filter(pred)[j]).id by {
        lemma_filter_index_increasing(s, pred, i, j);
    }
}

impl Default for MindMap {
    /// The empty map.
    fn default() -> (r: MindMap)
        ensures
            r.wf(),
            r.nodes@.len() == 0,
            r.edges@.len() == 0,
    {
        MindMap::new()
    }
}

} // verus!
