//! Single-item edits of the graph: toggling a node's collapse flag, moving
//! a node, recoloring, changing an edge's kind, and maintaining the
//! annotation and tag lists of nodes and edges.

use vstd::prelude::*;

use crate::annotation::Annotation;
use crate::annotation::AnnotationType;
use crate::annotation::Rgba;
use crate::geom::COORD_LIMIT;
use crate::geom::coord_ok;
use crate::map::Edge;
use crate::map::EdgeType;
use crate::map::MindMap;
use crate::map::Node;
use crate::map::Tag;
use crate::map::has_edge_id;
use crate::map::has_node_id;
use crate::map::node_idx;
use crate::map::edge_idx;
use crate::map::lemma_filter_push;
use crate::metadata::Metadata;

verus! {

/// A coordinate saturated into the allowed range.
pub open spec fn clamp_coord(v: int) -> i64 {
    if v < -COORD_LIMIT {
        (-COORD_LIMIT) as i64
    } else if v > COORD_LIMIT {
        COORD_LIMIT
    } else {
        v as i64
    }
}

/// `n` equals `o` on every field except possibly `collapsed`.
pub open spec fn node_same_but_collapsed(o: Node, n: Node) -> bool {
    n.id == o.id && n.title == o.title && n.metadata == o.metadata && n.x == o.x && n.y == o.y
        && n.path == o.path && n.annotations == o.annotations && n.tags == o.tags && n.color
        == o.color
}

/// `n` equals `o` on every field except possibly `color`.
pub open spec fn node_same_but_color(o: Node, n: Node) -> bool {
    n.id == o.id && n.title == o.title && n.metadata == o.metadata && n.x == o.x && n.y == o.y
        && n.collapsed == o.collapsed && n.path == o.path && n.annotations == o.annotations
        && n.tags == o.tags
}

/// `n` equals `o` on every field except possibly position.
pub open spec fn node_same_but_position(o: Node, n: Node) -> bool {
    n.id == o.id && n.title == o.title && n.metadata == o.metadata && n.collapsed == o.collapsed
        && n.path == o.path && n.annotations == o.annotations && n.tags == o.tags && n.color
        == o.color
}

/// `n` equals `o` on every field except possibly `title` and `metadata`.
pub open spec fn node_same_but_metadata(o: Node, n: Node) -> bool {
    n.id == o.id && n.x == o.x && n.y == o.y && n.collapsed == o.collapsed && n.path == o.path
        && n.annotations == o.annotations && n.tags == o.tags && n.color == o.color
}

/// `n` equals `o` on every field except possibly `annotations`.
pub open spec fn node_same_but_annotations(o: Node, n: Node) -> bool {
    n.id == o.id && n.title == o.title && n.metadata == o.metadata && n.x == o.x && n.y == o.y
        && n.collapsed == o.collapsed && n.path == o.path && n.tags == o.tags && n.color == o.color
}

/// `n` equals `o` on every field except possibly `tags`.
pub open spec fn node_same_but_tags(o: Node, n: Node) -> bool {
    n.id == o.id && n.title == o.title && n.metadata == o.metadata && n.x == o.x && n.y == o.y
        && n.collapsed == o.collapsed && n.path == o.path && n.annotations == o.annotations
        && n.color == o.color
}

/// `e` equals `o` on every field except possibly `edge_type`.
pub open spec fn edge_same_but_kind(o: Edge, e: Edge) -> bool {
    e.id == o.id && e.from == o.from && e.to == o.to && e.color == o.color && e.annotations
        == o.annotations
}

/// `e` equals `o` on every field except possibly `color`.
pub open spec fn edge_same_but_color(o: Edge, e: Edge) -> bool {
    e.id == o.id && e.from == o.from && e.to == o.to && e.edge_type == o.edge_type && e.annotations
        == o.annotations
}

/// `e` equals `o` on every field except possibly `annotations`.
pub open spec fn edge_same_but_annotations(o: Edge, e: Edge) -> bool {
    e.id == o.id && e.from == o.from && e.to == o.to && e.edge_type == o.edge_type && e.color
        == o.color
}

/// All nodes other than the one at `i` are unchanged, and the lists keep
/// their lengths; the edges are unchanged.
pub open spec fn nodes_same_except(pre: MindMap, post: MindMap, i: int) -> bool {
    &&& post.nodes@.len() == pre.nodes@.len()
    &&& post.edges@ == pre.edges@
    &&& forall|j: int|
        0 <= j < pre.nodes@.len() && j != i ==> post.nodes@[j] == (#[trigger] pre.nodes@[j])
}

/// All edges other than the one at `i` are unchanged; the nodes are
/// unchanged.
pub open spec fn edges_same_except(pre: MindMap, post: MindMap, i: int) -> bool {
    &&& post.edges@.len() == pre.edges@.len()
    &&& post.nodes@ == pre.nodes@
    &&& forall|j: int|
        0 <= j < pre.edges@.len() && j != i ==> post.edges@[j] == (#[trigger] pre.edges@[j])
}

/// Whether some annotation of `s` has id `id`.
pub open spec fn has_ann_id(s: Seq<Annotation>, id: u128) -> bool {
    exists|i: int| 0 <= i < s.len() && (#[trigger] s[i]).id == id
}

/// The index of the first annotation of `s` with id `id` (meaningful when
/// one is present).
pub open spec fn ann_first_idx(s: Seq<Annotation>, id: u128) -> int
    decreases s.len(),
{
    if s.len() == 0 {
        0
    } else if s[0].id == id {
        0
    } else {
        1 + ann_first_idx(s.drop_first(), id)
    }
}

/// Whether some tag of `s` has id `id`.
pub open spec fn has_tag_id(s: Seq<Tag>, id: u128) -> bool {
    exists|i: int| 0 <= i < s.len() && (#[trigger] s[i]).id == id
}

/// The index of the first tag of `s` with id `id` (meaningful when one is
/// present).
pub open spec fn tag_first_idx(s: Seq<Tag>, id: u128) -> int
    decreases s.len(),
{
    if s.len() == 0 {
        0
    } else if s[0].id == id {
        0
    } else {
        1 + tag_first_idx(s.drop_first(), id)
    }
}

/// The first matching position really is `ann_first_idx`.
proof fn lemma_ann_first_idx(s: Seq<Annotation>, id: u128, i: int)
    requires
        0 <= i < s.len(),
        s[i].id == id,
        forall|j: int| 0 <= j < i ==> (#[trigger] s[j]).id != id,
    ensures
        ann_first_idx(s, id) == i,
    decreases i,
{
    if i > 0 {
        assert(s[0].id != id);
        lemma_ann_first_idx(s.drop_first(), id, i - 1);
    }
}

/// The first matching position really is `tag_first_idx`.
proof fn lemma_tag_first_idx(s: Seq<Tag>, id: u128, i: int)
    requires
        0 <= i < s.len(),
        s[i].id == id,
        forall|j: int| 0 <= j < i ==> (#[trigger] s[j]).id != id,
    ensures
        tag_first_idx(s, id) == i,
    decreases i,
{
    if i > 0 {
        assert(s[0].id != id);
        lemma_tag_first_idx(s.drop_first(), id, i - 1);
    }
}

/// Under well-formedness the index found for a node id is the unique one.
pub proof fn lemma_node_idx_is(m: MindMap, i: int, id: u128)
    requires
        m.wf(),
        0 <= i < m.nodes@.len(),
        m.nodes@[i].id == id,
    ensures
        has_node_id(m.nodes@, id),
        node_idx(m.nodes@, id) == i,
{
    assert(has_node_id(m.nodes@, id));
    let k = node_idx(m.nodes@, id);
    if k < i {
        assert(m.nodes@[k].id != m.nodes@[i].id);
    } else if k > i {
        assert(m.nodes@[i].id != m.nodes@[k].id);
    }
}

/// Under well-formedness the index found for an edge id is the unique one.
pub proof fn lemma_edge_idx_is(m: MindMap, i: int, id: u128)
    requires
        m.wf(),
        0 <= i < m.edges@.len(),
        m.edges@[i].id == id,
    ensures
        has_edge_id(m.edges@, id),
        edge_idx(m.edges@, id) == i,
{
    assert(has_edge_id(m.edges@, id));
    let k = edge_idx(m.edges@, id);
    if k < i {
        assert(m.edges@[k].id != m.edges@[i].id);
    } else if k > i {
        assert(m.edges@[i].id != m.edges@[k].id);
    }
}

/// Replacing one node while keeping its id and position preserves
/// well-formedness.
pub(crate) proof fn lemma_wf_node_update(pre: MindMap, post: MindMap, i: int)
    requires
        pre.wf(),
        0 <= i < pre.nodes@.len(),
        nodes_same_except(pre, post, i),
        post.nodes@[i].id == pre.nodes@[i].id,
        coord_ok(post.nodes@[i].x),
        coord_ok(post.nodes@[i].y),
    ensures
        post.wf(),
{
    assert forall|k: int| 0 <= k < post.nodes@.len() implies (#[trigger] post.nodes@[k]).id
        == pre.nodes@[k].id && coord_ok(post.nodes@[k].x) && coord_ok(post.nodes@[k].y) by {
        if k != i {
            assert(post.nodes@[k] == pre.nodes@[k]);
        }
        assert(coord_ok(pre.nodes@[k].x) && coord_ok(pre.nodes@[k].y));
    }
    assert forall|k: int, l: int| 0 <= k < l < post.nodes@.len() implies (
    #[trigger] post.nodes@[k]).id != (#[trigger] post.nodes@[l]).id by {
        assert(pre.nodes@[k].id != pre.nodes@[l].id);
    }
    assert forall|k: int| 0 <= k < post.edges@.len() implies has_node_id(
        post.nodes@,
        (#[trigger] post.edges@[k]).from,
    ) && has_node_id(post.nodes@, post.edges@[k].to) by {
        assert(post.edges@[k] == pre.edges@[k]);
        assert(has_node_id(pre.nodes@, pre.edges@[k].from));
        assert(has_node_id(pre.nodes@, pre.edges@[k].to));
        let f = choose|f: int|
            0 <= f < pre.nodes@.len() && (#[trigger] pre.nodes@[f]).id == pre.edges@[k].from;
        assert(post.nodes@[f].id == pre.nodes@[f].id);
        let t = choose|t: int|
            0 <= t < pre.nodes@.len() && (#[trigger] pre.nodes@[t]).id == pre.edges@[k].to;
        assert(post.nodes@[t].id == pre.nodes@[t].id);
    }
    assert forall|k: int, l: int| 0 <= k < post.nodes@.len() && 0 <= l < post.edges@.len() implies (
    #[trigger] post.nodes@[k]).id != (#[trigger] post.edges@[l]).id by {
        assert(post.nodes@[k].id == pre.nodes@[k].id);
        assert(post.edges@[l] == pre.edges@[l]);
    }
}

/// Replacing one edge while keeping its id and endpoints preserves
/// well-formedness.
pub(crate) proof fn lemma_wf_edge_update(pre: MindMap, post: MindMap, i: int)
    requires
        pre.wf(),
        0 <= i < pre.edges@.len(),
        edges_same_except(pre, post, i),
        post.edges@[i].id == pre.edges@[i].id,
        post.edges@[i].from == pre.edges@[i].from,
        post.edges@[i].to == pre.edges@[i].to,
    ensures
        post.wf(),
{
    assert forall|k: int| 0 <= k < post.edges@.len() implies has_node_id(
        post.nodes@,
        (#[trigger] post.edges@[k]).from,
    ) && has_node_id(post.nodes@, post.edges@[k].to) by {
        assert(post.edges@[k].from == pre.edges@[k].from);
        assert(post.edges@[k].to == pre.edges@[k].to);
    }
    assert forall|k: int, l: int| 0 <= k < l < post.edges@.len() implies (
    #[trigger] post.edges@[k]).id != (#[trigger] post.edges@[l]).id by {
        assert(post.edges@[k].id == pre.edges@[k].id);
        assert(post.edges@[l].id == pre.edges@[l].id);
    }
    assert forall|k: int, l: int| 0 <= k < post.nodes@.len() && 0 <= l < post.edges@.len() implies (
    #[trigger] post.nodes@[k]).id != (#[trigger] post.edges@[l]).id by {
        assert(post.edges@[l].id == pre.edges@[l].id);
    }
}

impl MindMap {
    /// Toggle the `collapsed` flag of the node with id `node_id`; returns
    /// whether such a node exists (otherwise nothing changes). Toggling is
    /// independent of selection state.
    pub fn toggle_collapsed(&mut self, node_id: u128) -> (r: bool)
        requires
            old(self).wf(),
        ensures
            final(self).wf(),
            r == has_node_id(old(self).nodes@, node_id),
            !r ==> *final(self) == *old(self),
            r ==> {
                let i = node_idx(old(self).nodes@, node_id);
                &&& nodes_same_except(*old(self), *final(self), i)
                &&& node_same_but_collapsed(old(self).nodes@[i], final(self).nodes@[i])
                &&& final(self).nodes@[i].collapsed == !old(self).nodes@[i].collapsed
            },
    {
        let idx = match self.node_index(node_id) {
            Some(i) => i,
            None => {
                return false;
            },
        };
        let mut node = self.nodes.remove(idx);
        proof {
            lemma_node_idx_is(*old(self), idx as int, node_id);
        }
        node.collapsed = !node.collapsed;
        self.nodes.insert(idx, node);
        proof {
            assert(nodes_same_except(*old(self), *self, idx as int));
            lemma_wf_node_update(*old(self), *self, idx as int);
        }
        true
    }

    /// Set or clear the override color of the node with id `node_id`.
    pub fn set_node_color(&mut self, node_id: u128, color: Option<Rgba>) -> (r: bool)
        requires
            old(self).wf(),
        ensures
            final(self).wf(),
            r == has_node_id(old(self).nodes@, node_id),
            !r ==> *final(self) == *old(self),
            r ==> {
                let i = node_idx(old(self).nodes@, node_id);
                &&& nodes_same_except(*old(self), *final(self), i)
                &&& node_same_but_color(old(self).nodes@[i], final(self).nodes@[i])
                &&& final(self).nodes@[i].color == color
            },
    {
        let idx = match self.node_index(node_id) {
            Some(i) => i,
            None => {
                return false;
            },
        };
        let mut node = self.nodes.remove(idx);
        proof {
            lemma_node_idx_is(*old(self), idx as int, node_id);
        }
        node.color = color;
        self.nodes.insert(idx, node);
        proof {
            assert(nodes_same_except(*old(self), *self, idx as int));
            lemma_wf_node_update(*old(self), *self, idx as int);
        }
        true
    }

    /// Replace the title and metadata of the node with id `node_id`: the
    /// node's title becomes the metadata's title.
    pub fn set_node_metadata(&mut self, node_id: u128, metadata: Metadata) -> (r: bool)
        requires
            old(self).wf(),
        ensures
            final(self).wf(),
            r == has_node_id(old(self).nodes@, node_id),
            !r ==> *final(self) == *old(self),
            r ==> {
                let i = node_idx(old(self).nodes@, node_id);
                &&& nodes_same_except(*old(self), *final(self), i)
                &&& node_same_but_metadata(old(self).nodes@[i], final(self).nodes@[i])
                &&& final(self).nodes@[i].title@ == metadata.title@
                &&& final(self).nodes@[i].metadata == Some(metadata)
            },
    {
        let idx = match self.node_index(node_id) {
            Some(i) => i,
            None => {
                return false;
            },
        };
        let mut node = self.nodes.remove(idx);
        proof {
            lemma_node_idx_is(*old(self), idx as int, node_id);
        }
        node.title = metadata.title.clone();
        node.metadata = Some(metadata);
        self.nodes.insert(idx, node);
        proof {
            assert(nodes_same_except(*old(self), *self, idx as int));
            lemma_wf_node_update(*old(self), *self, idx as int);
        }
        true
    }

    /// Move the node with id `node_id` by `(dx, dy)`, saturating at the
    /// coordinate bound, as dragging does.
    pub fn translate_node(&mut self, node_id: u128, dx: i64, dy: i64) -> (r: bool)
        requires
            old(self).wf(),
        ensures
            final(self).wf(),
            r == has_node_id(old(self).nodes@, node_id),
            !r ==> *final(self) == *old(self),
            r ==> {
                let i = node_idx(old(self).nodes@, node_id);
                &&& nodes_same_except(*old(self), *final(self), i)
                &&& node_same_but_position(old(self).nodes@[i], final(self).nodes@[i])
                &&& final(self).nodes@[i].x == clamp_coord(old(self).nodes@[i].x + dx)
                &&& final(self).nodes@[i].y == clamp_coord(old(self).nodes@[i].y + dy)
            },
    {
        let idx = match self.node_index(node_id) {
            Some(i) => i,
            None => {
                return false;
            },
        };
        let mut node = self.nodes.remove(idx);
        proof {
            lemma_node_idx_is(*old(self), idx as int, node_id);
        }
        node.x = clamp_coord_exec(node.x as i128 + dx as i128);
        node.y = clamp_coord_exec(node.y as i128 + dy as i128);
        self.nodes.insert(idx, node);
        proof {
            assert(nodes_same_except(*old(self), *self, idx as int));
            lemma_wf_node_update(*old(self), *self, idx as int);
        }
        true
    }

    /// Change the kind of the edge with id `edge_id`.
    pub fn set_edge_kind(&mut self, edge_id: u128, kind: EdgeType) -> (r: bool)
        requires
            old(self).wf(),
        ensures
            final(self).wf(),
            r == has_edge_id(old(self).edges@, edge_id),
            !r ==> *final(self) == *old(self),
            r ==> {
                let i = edge_idx(old(self).edges@, edge_id);
                &&& edges_same_except(*old(self), *final(self), i)
                &&& edge_same_but_kind(old(self).edges@[i], final(self).edges@[i])
                &&& final(self).edges@[i].edge_type == kind
            },
    {
        let idx = match self.edge_index(edge_id) {
            Some(i) => i,
            None => {
                return false;
            },
        };
        let mut edge = self.edges.remove(idx);
        proof {
            lemma_edge_idx_is(*old(self), idx as int, edge_id);
        }
        edge.edge_type = kind;
        self.edges.insert(idx, edge);
        proof {
            assert(edges_same_except(*old(self), *self, idx as int));
            lemma_wf_edge_update(*old(self), *self, idx as int);
        }
        true
    }

    /// Set or clear the override color of the edge with id `edge_id`.
    pub fn set_edge_color(&mut self, edge_id: u128, color: Option<Rgba>) -> (r: bool)
        requires
            old(self).wf(),
        ensures
            final(self).wf(),
            r == has_edge_id(old(self).edges@, edge_id),
            !r ==> *final(self) == *old(self),
            r ==> {
                let i = edge_idx(old(self).edges@, edge_id);
                &&& edges_same_except(*old(self), *final(self), i)
                &&& edge_same_but_color(old(self).edges@[i], final(self).edges@[i])
                &&& final(self).edges@[i].color == color
            },
    {
        let idx = match self.edge_index(edge_id) {
            Some(i) => i,
            None => {
                return false;
            },
        };
        let mut edge = self.edges.remove(idx);
        proof {
            lemma_edge_idx_is(*old(self), idx as int, edge_id);
        }
        edge.color = color;
        self.edges.insert(idx, edge);
        proof {
            assert(edges_same_except(*old(self), *self, idx as int));
            lemma_wf_edge_update(*old(self), *self, idx as int);
        }
        true
    }
}

/// Saturating clamp of a widened coordinate sum.
fn clamp_coord_exec(v: i128) -> (r: i64)
    requires
        -0x8000_0000_0000_0000_0000 <= v <= 0x8000_0000_0000_0000_0000,
    ensures
        r == clamp_coord(v as int),
{
    if v < -COORD_LIMIT as i128 {
        -COORD_LIMIT
    } else if v > COORD_LIMIT as i128 {
        COORD_LIMIT
    } else {
        v as i64
    }
}


/// The index of the first annotation of `v` with id `id`, if any.
fn ann_index(v: &Vec<Annotation>, id: u128) -> (r: Option<usize>)
    ensures
        match r {
            Some(i) => i < v@.len() && v@[i as int].id == id && (forall|j: int|
                0 <= j < i ==> (#[trigger] v@[j]).id != id),
            None => !has_ann_id(v@, id),
        },
{
    let mut i: usize = 0;
    while i < v.len()
        invariant
            i <= v@.len(),
            forall|j: int| 0 <= j < i ==> (#[trigger] v@[j]).id != id,
        decreases v@.len() - i,
    {
        if v[i].id == id {
            return Some(i);
        }
        i = i + 1;
    }
    None
}

/// The index of the first tag of `v` with id `id`, if any.
fn tag_index(v: &Vec<Tag>, id: u128) -> (r: Option<usize>)
    ensures
        match r {
            Some(i) => i < v@.len() && v@[i as int].id == id && (forall|j: int|
                0 <= j < i ==> (#[trigger] v@[j]).id != id),
            None => !has_tag_id(v@, id),
        },
{
    let mut i: usize = 0;
    while i < v.len()
        invariant
            i <= v@.len(),
            forall|j: int| 0 <= j < i ==> (#[trigger] v@[j]).id != id,
        decreases v@.len() - i,
    {
        if v[i].id == id {
            return Some(i);
        }
        i = i + 1;
    }
    None
}

/// Remove every annotation with id `id` from `v`, keeping the order of the
/// rest.
fn retain_anns(v: &mut Vec<Annotation>, id: u128)
    ensures
        final(v)@ == old(v)@.filter(|a: Annotation| a.id != id),
{
    let ghost orig = v@;
    let ghost pred = |a: Annotation| a.id != id;
    let mut i: usize = 0;
    let ghost mut k: int = 0;
    while i < v.len()
        invariant
            0 <= k <= orig.len(),
            i as int == orig.subrange(0, k).filter(pred).len(),
            v@ == orig.subrange(0, k).filter(pred) + orig.subrange(k, orig.len() as int),
            i <= v@.len(),
            pred == (|a: Annotation| a.id != id),
        decreases v@.len() - i,
    {
        proof {
            assert(v@[i as int] == orig[k]);
        }
        if v[i].id != id {
            proof {
                lemma_filter_push(orig.subrange(0, k), orig[k], pred);
                assert(orig.subrange(0, k + 1) =~= orig.subrange(0, k).push(orig[k]));
                assert(v@ =~= orig.subrange(0, k + 1).filter(pred) + orig.subrange(
                    k + 1,
                    orig.len() as int,
                ));
            }
            i = i + 1;
            proof {
                k = k + 1;
            }
        } else {
            let _removed = v.remove(i);
            proof {
                lemma_filter_push(orig.subrange(0, k), orig[k], pred);
                assert(orig.subrange(0, k + 1) =~= orig.subrange(0, k).push(orig[k]));
                assert(v@ =~= orig.subrange(0, k + 1).filter(pred) + orig.subrange(
                    k + 1,
                    orig.len() as int,
                ));
                k = k + 1;
            }
        }
    }
    proof {
        assert(orig.subrange(0, k) =~= orig);
        assert(v@ =~= orig.filter(pred));
    }
}

/// Remove every tag with id `id` from `v`, keeping the order of the rest.
fn retain_tags(v: &mut Vec<Tag>, id: u128)
    ensures
        final(v)@ == old(v)@.filter(|t: Tag| t.id != id),
{
    let ghost orig = v@;
    let ghost pred = |t: Tag| t.id != id;
    let mut i: usize = 0;
    let ghost mut k: int = 0;
    while i < v.len()
        invariant
            0 <= k <= orig.len(),
            i as int == orig.subrange(0, k).filter(pred).len(),
            v@ == orig.subrange(0, k).filter(pred) + orig.subrange(k, orig.len() as int),
            i <= v@.len(),
            pred == (|t: Tag| t.id != id),
        decreases v@.len() - i,
    {
        proof {
            assert(v@[i as int] == orig[k]);
        }
        if v[i].id != id {
            proof {
                lemma_filter_push(orig.subrange(0, k), orig[k], pred);
                assert(orig.subrange(0, k + 1) =~= orig.subrange(0, k).push(orig[k]));
                assert(v@ =~= orig.subrange(0, k + 1).filter(pred) + orig.subrange(
                    k + 1,
                    orig.len() as int,
                ));
            }
            i = i + 1;
            proof {
                k = k + 1;
            }
        } else {
            let _removed = v.remove(i);
            proof {
                lemma_filter_push(orig.subrange(0, k), orig[k], pred);
                assert(orig.subrange(0, k + 1) =~= orig.subrange(0, k).push(orig[k]));
                assert(v@ =~= orig.subrange(0, k + 1).filter(pred) + orig.subrange(
                    k + 1,
                    orig.len() as int,
                ));
                k = k + 1;
            }
        }
    }
    proof {
        assert(orig.subrange(0, k) =~= orig);
        assert(v@ =~= orig.filter(pred));
    }
}

/// The replacement of an annotation's editable fields: id and creation
/// timestamp are kept, kind, title, content and page number are replaced.
pub open spec fn ann_updated(
    o: Annotation,
    n: Annotation,
    t: AnnotationType,
    title: Seq<char>,
    content: Seq<char>,
    page: Option<u32>,
) -> bool {
    n.id == o.id && n.created_at == o.created_at && n.annotation_type == t && n.title@ == title
        && n.content@ == content && n.page_number == page
}

impl MindMap {
    /// Attach `a` to the node with id `node_id`. Succeeds if and only if
    /// the node exists and no annotation of it carries `a`'s id already;
    /// on failure nothing changes.
    pub fn node_add_annotation(&mut self, node_id: u128, a: Annotation) -> (r: bool)
        requires
            old(self).wf(),
        ensures
            final(self).wf(),
            r == (has_node_id(old(self).nodes@, node_id) && !has_ann_id(
                old(self).nodes@[node_idx(old(self).nodes@, node_id)].annotations@,
                a.id,
            )),
            !r ==> *final(self) == *old(self),
            r ==> {
                let i = node_idx(old(self).nodes@, node_id);
                &&& nodes_same_except(*old(self), *final(self), i)
                &&& node_same_but_annotations(old(self).nodes@[i], final(self).nodes@[i])
                &&& final(self).nodes@[i].annotations@ == old(
                    self,
                ).nodes@[i].annotations@.push(a)
            },
    {
        let idx = match self.node_index(node_id) {
            Some(i) => i,
            None => {
                return false;
            },
        };
        proof {
            lemma_node_idx_is(*old(self), idx as int, node_id);
        }
        if ann_index(&self.nodes[idx].annotations, a.id).is_some() {
            return false;
        }
        let mut node = self.nodes.remove(idx);
        node.annotations.push(a);
        self.nodes.insert(idx, node);
        proof {
            assert(nodes_same_except(*old(self), *self, idx as int));
            lemma_wf_node_update(*old(self), *self, idx as int);
        }
        true
    }

    /// Replace the editable fields of the annotation with id `ann_id` on
    /// the node with id `node_id`, keeping its id and creation timestamp.
    /// Succeeds if and only if both exist.
    pub fn node_update_annotation(
        &mut self,
        node_id: u128,
        ann_id: u128,
        annotation_type: AnnotationType,
        title: String,
        content: String,
        page_number: Option<u32>,
    ) -> (r: bool)
        requires
            old(self).wf(),
        ensures
            final(self).wf(),
            r == (has_node_id(old(self).nodes@, node_id) && has_ann_id(
                old(self).nodes@[node_idx(old(self).nodes@, node_id)].annotations@,
                ann_id,
            )),
            !r ==> *final(self) == *old(self),
            r ==> {
                let i = node_idx(old(self).nodes@, node_id);
                let anns = old(self).nodes@[i].annotations@;
                let k = ann_first_idx(anns, ann_id);
                &&& nodes_same_except(*old(self), *final(self), i)
                &&& node_same_but_annotations(old(self).nodes@[i], final(self).nodes@[i])
                &&& final(self).nodes@[i].annotations@.len() == anns.len()
                &&& forall|j: int|
                    0 <= j < anns.len() && j != k ==> final(self).nodes@[i].annotations@[j] == (
                    #[trigger] anns[j])
                &&& ann_updated(
                    anns[k],
                    final(self).nodes@[i].annotations@[k],
                    annotation_type,
                    title@,
                    content@,
                    page_number,
                )
            },
    {
        let idx = match self.node_index(node_id) {
            Some(i) => i,
            None => {
                return false;
            },
        };
        proof {
            lemma_node_idx_is(*old(self), idx as int, node_id);
        }
        let k = match ann_index(&self.nodes[idx].annotations, ann_id) {
            Some(k) => k,
            None => {
                return false;
            },
        };
        let mut node = self.nodes.remove(idx);
        proof {
            lemma_ann_first_idx(node.annotations@, ann_id, k as int);
        }
        let mut a = node.annotations.remove(k);
        a.annotation_type = annotation_type;
        a.title = title;
        a.content = content;
        a.page_number = page_number;
        node.annotations.insert(k, a);
        self.nodes.insert(idx, node);
        proof {
            assert(nodes_same_except(*old(self), *self, idx as int));
            lemma_wf_node_update(*old(self), *self, idx as int);
        }
        true
    }

    /// Remove every annotation with id `ann_id` from the node with id
    /// `node_id`; returns whether the node exists.
    pub fn node_remove_annotation(&mut self, node_id: u128, ann_id: u128) -> (r: bool)
        requires
            old(self).wf(),
        ensures
            final(self).wf(),
            r == has_node_id(old(self).nodes@, node_id),
            !r ==> *final(self) == *old(self),
            r ==> {
                let i = node_idx(old(self).nodes@, node_id);
                &&& nodes_same_except(*old(self), *final(self), i)
                &&& node_same_but_annotations(old(self).nodes@[i], final(self).nodes@[i])
                &&& final(self).nodes@[i].annotations@ == old(
                    self,
                ).nodes@[i].annotations@.filter(|a: Annotation| a.id != ann_id)
            },
    {
        let idx = match self.node_index(node_id) {
            Some(i) => i,
            None => {
                return false;
            },
        };
        proof {
            lemma_node_idx_is(*old(self), idx as int, node_id);
        }
        let mut node = self.nodes.remove(idx);
        retain_anns(&mut node.annotations, ann_id);
        self.nodes.insert(idx, node);
        proof {
            assert(nodes_same_except(*old(self), *self, idx as int));
            lemma_wf_node_update(*old(self), *self, idx as int);
        }
        true
    }

    /// Attach `a` to the edge with id `edge_id`. Succeeds if and only if
    /// the edge exists and no annotation of it carries `a`'s id already.
    pub fn edge_add_annotation(&mut self, edge_id: u128, a: Annotation) -> (r: bool)
        requires
            old(self).wf(),
        ensures
            final(self).wf(),
            r == (has_edge_id(old(self).edges@, edge_id) && !has_ann_id(
                old(self).edges@[edge_idx(old(self).edges@, edge_id)].annotations@,
                a.id,
            )),
            !r ==> *final(self) == *old(self),
            r ==> {
                let i = edge_idx(old(self).edges@, edge_id);
                &&& edges_same_except(*old(self), *final(self), i)
                &&& edge_same_but_annotations(old(self).edges@[i], final(self).edges@[i])
                &&& final(self).edges@[i].annotations@ == old(
                    self,
                ).edges@[i].annotations@.push(a)
            },
    {
        let idx = match self.edge_index(edge_id) {
            Some(i) => i,
            None => {
                return false;
            },
        };
        proof {
            lemma_edge_idx_is(*old(self), idx as int, edge_id);
        }
        if ann_index(&self.edges[idx].annotations, a.id).is_some() {
            return false;
        }
        let mut edge = self.edges.remove(idx);
        edge.annotations.push(a);
        self.edges.insert(idx, edge);
        proof {
            assert(edges_same_except(*old(self), *self, idx as int));
            lemma_wf_edge_update(*old(self), *self, idx as int);
        }
        true
    }

    /// Replace the editable fields of the annotation with id `ann_id` on
    /// the edge with id `edge_id`. Succeeds if and only if both exist.
    pub fn edge_update_annotation(
        &mut self,
        edge_id: u128,
        ann_id: u128,
        annotation_type: AnnotationType,
        title: String,
        content: String,
        page_number: Option<u32>,
    ) -> (r: bool)
        requires
            old(self).wf(),
        ensures
            final(self).wf(),
            r == (has_edge_id(old(self).edges@, edge_id) && has_ann_id(
                old(self).edges@[edge_idx(old(self).edges@, edge_id)].annotations@,
                ann_id,
            )),
            !r ==> *final(self) == *old(self),
            r ==> {
                let i = edge_idx(old(self).edges@, edge_id);
                let anns = old(self).edges@[i].annotations@;
                let k = ann_first_idx(anns, ann_id);
                &&& edges_same_except(*old(self), *final(self), i)
                &&& edge_same_but_annotations(old(self).edges@[i], final(self).edges@[i])
                &&& final(self).edges@[i].annotations@.len() == anns.len()
                &&& forall|j: int|
                    0 <= j < anns.len() && j != k ==> final(self).edges@[i].annotations@[j] == (
                    #[trigger] anns[j])
                &&& ann_updated(
                    anns[k],
                    final(self).edges@[i].annotations@[k],
                    annotation_type,
                    title@,
                    content@,
                    page_number,
                )
            },
    {
        let idx = match self.edge_index(edge_id) {
            Some(i) => i,
            None => {
                return false;
            },
        };
        proof {
            lemma_edge_idx_is(*old(self), idx as int, edge_id);
        }
        let k = match ann_index(&self.edges[idx].annotations, ann_id) {
            Some(k) => k,
            None => {
                return false;
            },
        };
        let mut edge = self.edges.remove(idx);
        proof {
            lemma_ann_first_idx(edge.annotations@, ann_id, k as int);
        }
        let mut a = edge.annotations.remove(k);
        a.annotation_type = annotation_type;
        a.title = title;
        a.content = content;
        a.page_number = page_number;
        edge.annotations.insert(k, a);
        self.edges.insert(idx, edge);
        proof {
            assert(edges_same_except(*old(self), *self, idx as int));
            lemma_wf_edge_update(*old(self), *self, idx as int);
        }
        true
    }

    /// Remove every annotation with id `ann_id` from the edge with id
    /// `edge_id`; returns whether the edge exists.
    pub fn edge_remove_annotation(&mut self, edge_id: u128, ann_id: u128) -> (r: bool)
        requires
            old(self).wf(),
        ensures
            final(self).wf(),
            r == has_edge_id(old(self).edges@, edge_id),
            !r ==> *final(self) == *old(self),
            r ==> {
                let i = edge_idx(old(self).edges@, edge_id);
                &&& edges_same_except(*old(self), *final(self), i)
                &&& edge_same_but_annotations(old(self).edges@[i], final(self).edges@[i])
                &&& final(self).edges@[i].annotations@ == old(
                    self,
                ).edges@[i].annotations@.filter(|a: Annotation| a.id != ann_id)
            },
    {
        let idx = match self.edge_index(edge_id) {
            Some(i) => i,
            None => {
                return false;
            },
        };
        proof {
            lemma_edge_idx_is(*old(self), idx as int, edge_id);
        }
        let mut edge = self.edges.remove(idx);
        retain_anns(&mut edge.annotations, ann_id);
        self.edges.insert(idx, edge);
        proof {
            assert(edges_same_except(*old(self), *self, idx as int));
            lemma_wf_edge_update(*old(self), *self, idx as int);
        }
        true
    }

    /// Attach tag `t` to the node with id `node_id`. Succeeds if and only
    /// if the node exists and no tag of it carries `t`'s id already.
    pub fn node_add_tag(&mut self, node_id: u128, t: Tag) -> (r: bool)
        requires
            old(self).wf(),
        ensures
            final(self).wf(),
            r == (has_node_id(old(self).nodes@, node_id) && !has_tag_id(
                old(self).nodes@[node_idx(old(self).nodes@, node_id)].tags@,
                t.id,
            )),
            !r ==> *final(self) == *old(self),
            r ==> {
                let i = node_idx(old(self).nodes@, node_id);
                &&& nodes_same_except(*old(self), *final(self), i)
                &&& node_same_but_tags(old(self).nodes@[i], final(self).nodes@[i])
                &&& final(self).nodes@[i].tags@ == old(self).nodes@[i].tags@.push(t)
            },
    {
        let idx = match self.node_index(node_id) {
            Some(i) => i,
            None => {
                return false;
            },
        };
        proof {
            lemma_node_idx_is(*old(self), idx as int, node_id);
        }
        if tag_index(&self.nodes[idx].tags, t.id).is_some() {
            return false;
        }
        let mut node = self.nodes.remove(idx);
        node.tags.push(t);
        self.nodes.insert(idx, node);
        proof {
            assert(nodes_same_except(*old(self), *self, idx as int));
            lemma_wf_node_update(*old(self), *self, idx as int);
        }
        true
    }

    /// Replace the name and color of the tag with id `tag_id` on the node
    /// with id `node_id`. Succeeds if and only if both exist.
    pub fn node_update_tag(&mut self, node_id: u128, tag_id: u128, name: String, color: Rgba) -> (r:
        bool)
        requires
            old(self).wf(),
        ensures
            final(self).wf(),
            r == (has_node_id(old(self).nodes@, node_id) && has_tag_id(
                old(self).nodes@[node_idx(old(self).nodes@, node_id)].tags@,
                tag_id,
            )),
            !r ==> *final(self) == *old(self),
            r ==> {
                let i = node_idx(old(self).nodes@, node_id);
                let tags = old(self).nodes@[i].tags@;
                let k = tag_first_idx(tags, tag_id);
                &&& nodes_same_except(*old(self), *final(self), i)
                &&& node_same_but_tags(old(self).nodes@[i], final(self).nodes@[i])
                &&& final(self).nodes@[i].tags@.len() == tags.len()
                &&& forall|j: int|
                    0 <= j < tags.len() && j != k ==> final(self).nodes@[i].tags@[j] == (
                    #[trigger] tags[j])
                &&& final(self).nodes@[i].tags@[k].id == tag_id
                &&& final(self).nodes@[i].tags@[k].name@ == name@
                &&& final(self).nodes@[i].tags@[k].color == color
            },
    {
        let idx = match self.node_index(node_id) {
            Some(i) => i,
            None => {
                return false;
            },
        };
        proof {
            lemma_node_idx_is(*old(self), idx as int, node_id);
        }
        let k = match tag_index(&self.nodes[idx].tags, tag_id) {
            Some(k) => k,
            None => {
                return false;
            },
        };
        let mut node = self.nodes.remove(idx);
        proof {
            lemma_tag_first_idx(node.tags@, tag_id, k as int);
        }
        let mut t = node.tags.remove(k);
        t.name = name;
        t.color = color;
        node.tags.insert(k, t);
        self.nodes.insert(idx, node);
        proof {
            assert(nodes_same_except(*old(self), *self, idx as int));
            lemma_wf_node_update(*old(self), *self, idx as int);
        }
        true
    }

    /// Remove every tag with id `tag_id` from the node with id `node_id`;
    /// returns whether the node exists.
    pub fn node_remove_tag(&mut self, node_id: u128, tag_id: u128) -> (r: bool)
        requires
            old(self).wf(),
        ensures
            final(self).wf(),
            r == has_node_id(old(self).nodes@, node_id),
            !r ==> *final(self) == *old(self),
            r ==> {
                let i = node_idx(old(self).nodes@, node_id);
                &&& nodes_same_except(*old(self), *final(self), i)
                &&& node_same_but_tags(old(self).nodes@[i], final(self).nodes@[i])
                &&& final(self).nodes@[i].tags@ == old(self).nodes@[i].tags@.filter(
                    |t: Tag| t.id != tag_id,
                )
            },
    {
        let idx = match self.node_index(node_id) {
            Some(i) => i,
            None => {
                return false;
            },
        };
        proof {
            lemma_node_idx_is(*old(self), idx as int, node_id);
        }
        let mut node = self.nodes.remove(idx);
        retain_tags(&mut node.tags, tag_id);
        self.nodes.insert(idx, node);
        proof {
            assert(nodes_same_except(*old(self), *self, idx as int));
            lemma_wf_node_update(*old(self), *self, idx as int);
        }
        true
    }
}

/// Toggling the collapse flag of the same node twice restores the node
/// list — and with it every field the sizing collaborator reads, so the
/// node's bounding box — exactly.
pub proof fn lemma_toggle_twice(pre: MindMap, mid: MindMap, post: MindMap, node_id: u128)
    requires
        pre.wf(),
        has_node_id(pre.nodes@, node_id),
        // the outcome of the first toggle
        nodes_same_except(pre, mid, node_idx(pre.nodes@, node_id)),
        node_same_but_collapsed(
            pre.nodes@[node_idx(pre.nodes@, node_id)],
            mid.nodes@[node_idx(pre.nodes@, node_id)],
        ),
        mid.nodes@[node_idx(pre.nodes@, node_id)].collapsed == !pre.nodes@[node_idx(
            pre.nodes@,
            node_id,
        )].collapsed,
        mid.wf(),
        // the outcome of the second toggle
        nodes_same_except(mid, post, node_idx(mid.nodes@, node_id)),
        node_same_but_collapsed(
            mid.nodes@[node_idx(mid.nodes@, node_id)],
            post.nodes@[node_idx(mid.nodes@, node_id)],
        ),
        post.nodes@[node_idx(mid.nodes@, node_id)].collapsed == !mid.nodes@[node_idx(
            mid.nodes@,
            node_id,
        )].collapsed,
    ensures
        post.nodes@ =~= pre.nodes@,
        post.edges@ == pre.edges@,
{
    let i = node_idx(pre.nodes@, node_id);
    assert(0 <= i < pre.nodes@.len() && pre.nodes@[i].id == node_id);
    assert(mid.nodes@[i].id == node_id);
    lemma_node_idx_is(mid, i, node_id);
    assert(node_idx(mid.nodes@, node_id) == i);
    assert forall|j: int| 0 <= j < pre.nodes@.len() implies post.nodes@[j] == pre.nodes@[j] by {
        if j != i {
            assert(mid.nodes@[j] == pre.nodes@[j]);
        }
    }
}

} // verus!
