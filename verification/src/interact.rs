//! The interactive canvas controller: the selection model and the pointer
//! and keyboard interaction state machine. It consumes plain-value events,
//! consults hit-testing and the viewport transform, mutates the graph and
//! the selection, and emits requests for the external collaborators (file
//! pickers, document opening, saving).

use vstd::prelude::*;

use crate::geom::Pt;
use crate::geom::in_rect;
use crate::map::Edge;
use crate::map::MindMap;
use crate::map::Node;
use crate::map::has_edge_id;
use crate::map::has_node_id;
use crate::map::node_idx;
use crate::map::lemma_filter_push;
use crate::map::lemma_filter_elems;
use crate::hit::node_pos;
use crate::viewport::Viewport;

verus! {

/// What a finished connect gesture is waiting to decide: the kind of a new
/// edge between two nodes, or the new kind of an existing edge.
#[derive(Clone, Copy, Debug, PartialEq, Eq, Structural)]
pub enum PendingEdge {
    NewEdge { from: u128, to: u128 },
    ExistingEdge { id: u128 },
}

/// What a context menu is open for, and where (screen position).
#[derive(Clone, Copy, Debug, PartialEq, Eq, Structural)]
pub enum MenuTarget {
    NodeMenu { id: u128, pos: Pt },
    EdgeMenu { id: u128, pos: Pt },
}

/// The interaction mode: one tagged union instead of a collection of
/// independent flags, so that invalid combinations (two modal overlays at
/// once) cannot be represented.
#[derive(Clone, Debug)]
pub enum Mode {
    Idle,
    DraggingNode { id: u128 },
    Marqueeing { start: Pt },
    ConnectingEdge { from: u128 },
    AwaitingEdgeTypeChoice { pending: PendingEdge, pos: Pt },
    ContextMenuOpen { target: MenuTarget },
    ProjectPrompt { pending_pdf: String },
}

/// A request the controller hands to an external collaborator.
#[derive(Clone, Debug)]
pub enum Request {
    /// Open the document at this path (already resolved against the
    /// project directory).
    OpenDocument { path: String },
    /// Let the user pick a file to import as a node at this world
    /// position.
    PickImportFile { pos: Pt },
    /// Save the open project to this path.
    SaveTo { path: String },
    /// Let the user pick a project directory, then save there.
    PickSaveFolder,
}

/// Distinct ids.
pub open spec fn ids_distinct(s: Seq<u128>) -> bool {
    forall|i: int, j: int| 0 <= i < j < s.len() ==> s[i] != s[j]
}

/// The interactive editor: the graph, the selection, the viewport and the
/// interaction mode.
pub struct MindMapApp {
    pub map: MindMap,
    pub selected_nodes: Vec<u128>,
    pub selected_edges: Vec<u128>,
    pub viewport: Viewport,
    pub mode: Mode,
    pub current_file: Option<String>,
    pub dirty: bool,
}

impl MindMapApp {
    /// The selection sets hold distinct ids of entities currently present
    /// in the graph.
    pub open spec fn sel_wf(self) -> bool {
        &&& forall|i: int|
            0 <= i < self.selected_nodes@.len() ==> has_node_id(
                self.map.nodes@,
                #[trigger] self.selected_nodes@[i],
            )
        &&& forall|i: int|
            0 <= i < self.selected_edges@.len() ==> has_edge_id(
                self.map.edges@,
                #[trigger] self.selected_edges@[i],
            )
        &&& ids_distinct(self.selected_nodes@)
        &&& ids_distinct(self.selected_edges@)
    }

    /// A marquee's stored start point stays within the screen bound, so
    /// that it can be converted back to world coordinates on release.
    pub open spec fn mode_wf(self) -> bool {
        match self.mode {
            Mode::Marqueeing { start } => {
                &&& -crate::viewport::SCREEN_LIMIT <= start.x <= crate::viewport::SCREEN_LIMIT
                &&& -crate::viewport::SCREEN_LIMIT <= start.y <= crate::viewport::SCREEN_LIMIT
            },
            _ => true,
        }
    }

    /// The editor invariant: graph, viewport, selection and mode
    /// well-formed.
    pub open spec fn wf(self) -> bool {
        self.map.wf() && self.viewport.wf() && self.sel_wf() && self.mode_wf()
    }

    /// A fresh editor: empty graph, empty selection, identity viewport,
    /// idle, no project, nothing unsaved.
    pub fn new() -> (r: MindMapApp)
        ensures
            r.wf(),
            r.map.nodes@.len() == 0,
            r.map.edges@.len() == 0,
            r.selected_nodes@.len() == 0,
            r.selected_edges@.len() == 0,
            r.mode == Mode::Idle,
            r.current_file is None,
            r.dirty == false,
            r.viewport.pan_x@ == (crate::viewport::Rat { n: 0, d: 1 }),
            r.viewport.pan_y@ == (crate::viewport::Rat { n: 0, d: 1 }),
            r.viewport.zoom@ == (crate::viewport::Rat { n: 1, d: 1 }),
    {
        MindMapApp {
            map: MindMap::new(),
            selected_nodes: Vec::new(),
            selected_edges: Vec::new(),
            viewport: Viewport::new(),
            mode: Mode::Idle,
            current_file: None,
            dirty: false,
        }
    }

    /// Clear both selection sets, as the Escape key does.
    pub fn handle_esc(&mut self)
        requires
            old(self).wf(),
        ensures
            final(self).wf(),
            final(self).selected_nodes@.len() == 0,
            final(self).selected_edges@.len() == 0,
            final(self).map == old(self).map,
            final(self).viewport == old(self).viewport,
            final(self).mode == old(self).mode,
            final(self).current_file == old(self).current_file,
            final(self).dirty == old(self).dirty,
    {
        self.selected_nodes = Vec::new();
        self.selected_edges = Vec::new();
    }
}

/// Whether a vector of ids contains `id`.
pub(crate) fn id_vec_contains(v: &Vec<u128>, id: u128) -> (r: bool)
    ensures
        r == v@.contains(id),
{
    let mut i: usize = 0;
    while i < v.len()
        invariant
            i <= v@.len(),
            forall|j: int| 0 <= j < i ==> v@[j] != id,
        decreases v@.len() - i,
    {
        if v[i] == id {
            return true;
        }
        i = i + 1;
    }
    false
}

/// Remove every occurrence of `id` from a vector of ids.
pub(crate) fn id_vec_remove(v: &mut Vec<u128>, id: u128)
    ensures
        final(v)@ == old(v)@.filter(|x: u128| x != id),
{
    let ghost orig = v@;
    let ghost pred = |x: u128| x != id;
    let mut i: usize = 0;
    let ghost mut k: int = 0;
    while i < v.len()
        invariant
            0 <= k <= orig.len(),
            i as int == orig.subrange(0, k).filter(pred).len(),
            v@ == orig.subrange(0, k).filter(pred) + orig.subrange(k, orig.len() as int),
            i <= v@.len(),
            pred == (|x: u128| x != id),
        decreases v@.len() - i,
    {
        proof {
            assert(v@[i as int] == orig[k]);
        }
        if v[i] != id {
            proof {
                lemma_filter_push(orig.subrange(0, k), orig[k], pred);
                assert(orig.subrange(0, k + 1) =~= orig.subrange(0, k).push(orig[k]));
                assert(v@ =~= orig.subrange(0, k + 1).filter(pred) + orig.subrange(
                    k + 1,
                    orig.len() as int,
                ));
            }
            i = i + 1;
            proof {
                k = k + 1;
            }
        } else {
            let _removed = v.remove(i);
            proof {
                lemma_filter_push(orig.subrange(0, k), orig[k], pred);
                assert(orig.subrange(0, k + 1) =~= orig.subrange(0, k).push(orig[k]));
                assert(v@ =~= orig.subrange(0, k + 1).filter(pred) + orig.subrange(
                    k + 1,
                    orig.len() as int,
                ));
                k = k + 1;
            }
        }
    }
    proof {
        assert(orig.subrange(0, k) =~= orig);
        assert(v@ =~= orig.filter(pred));
    }
}

/// The node ids selected by a marquee rectangle spanned by world corners
/// `c1` and `c2`: all nodes whose position lies inside, in list order.
pub open spec fn marquee_nodes(m: MindMap, c1: Pt, c2: Pt) -> Seq<u128> {
    m.nodes@.filter(|n: Node| in_rect(node_pos(n), c1, c2)).map_values(|n: Node| n.id)
}

/// Whether both endpoint nodes of `e` lie inside the marquee rectangle.
pub open spec fn edge_in_marquee(m: MindMap, e: Edge, c1: Pt, c2: Pt) -> bool {
    &&& in_rect(node_pos(m.nodes@[node_idx(m.nodes@, e.from)]), c1, c2)
    &&& in_rect(node_pos(m.nodes@[node_idx(m.nodes@, e.to)]), c1, c2)
}

/// The edge ids selected by a marquee rectangle: all edges with both
/// endpoints inside, in list order.
pub open spec fn marquee_edges(m: MindMap, c1: Pt, c2: Pt) -> Seq<u128> {
    m.edges@.filter(|e: Edge| edge_in_marquee(m, e, c1, c2)).map_values(|e: Edge| e.id)
}


impl MindMapApp {
    /// Marquee-select: replace the node selection with all nodes whose
    /// position lies inside the rectangle spanned by world corners `c1`
    /// and `c2`, and the edge selection with all edges whose both
    /// endpoints lie inside. A full replace, not a merge.
    pub fn marquee_select(&mut self, c1: Pt, c2: Pt)
        requires
            old(self).wf(),
        ensures
            final(self).wf(),
            final(self).selected_nodes@ == marquee_nodes(old(self).map, c1, c2),
            final(self).selected_edges@ == marquee_edges(old(self).map, c1, c2),
            final(self).map == old(self).map,
            final(self).viewport == old(self).viewport,
            final(self).mode == old(self).mode,
            final(self).current_file == old(self).current_file,
            final(self).dirty == old(self).dirty,
    {
        let ghost npred = |n: Node| in_rect(node_pos(n), c1, c2);
        let ghost nid = |n: Node| n.id;
        let mut sn: Vec<u128> = Vec::new();
        let mut i: usize = 0;
        while i < self.map.nodes.len()
            invariant
                i <= self.map.nodes@.len(),
                sn@ == self.map.nodes@.subrange(0, i as int).filter(npred).map_values(nid),
                npred == (|n: Node| in_rect(node_pos(n), c1, c2)),
                nid == (|n: Node| n.id),
            decreases self.map.nodes@.len() - i,
        {
            let ghost pre = self.map.nodes@.subrange(0, i as int);
            let n = &self.map.nodes[i];
            if crate::geom::hit_rect(Pt { x: n.x, y: n.y }, c1, c2) {
                sn.push(n.id);
            }
            proof {
                lemma_filter_push(pre, self.map.nodes@[i as int], npred);
                assert(self.map.nodes@.subrange(0, i as int + 1) =~= pre.push(
                    self.map.nodes@[i as int],
                ));
                if npred(self.map.nodes@[i as int]) {
                    assert(sn@ =~= pre.filter(npred).map_values(nid).push(
                        nid(self.map.nodes@[i as int]),
                    ));
                    assert(pre.filter(npred).push(self.map.nodes@[i as int]).map_values(nid)
                        =~= pre.filter(npred).map_values(nid).push(nid(self.map.nodes@[i as int])));
                }
            }
            i = i + 1;
        }
        proof {
            assert(self.map.nodes@.subrange(0, self.map.nodes@.len() as int) =~= self.map.nodes@);
            assert(sn@ == marquee_nodes(self.map, c1, c2));
        }

        let ghost m = self.map;
        let ghost epred = |e: Edge| edge_in_marquee(m, e, c1, c2);
        let ghost eid = |e: Edge| e.id;
        let mut se: Vec<u128> = Vec::new();
        let mut j: usize = 0;
        while j < self.map.edges.len()
            invariant
                self.map == m,
                m.wf(),
                j <= m.edges@.len(),
                se@ == m.edges@.subrange(0, j as int).filter(epred).map_values(eid),
                epred == (|e: Edge| edge_in_marquee(m, e, c1, c2)),
                eid == (|e: Edge| e.id),
            decreases m.edges@.len() - j,
        {
            let ghost pre = m.edges@.subrange(0, j as int);
            let from_id = self.map.edges[j].from;
            let to_id = self.map.edges[j].to;
            let fi = match self.map.node_index(from_id) {
                Some(fi) => fi,
                None => {
                    proof {
                        assert(crate::hit::has_node_id_helper(m, j as int));
                    }
                    vstd::pervasive::unreached()
                },
            };
            let ti = match self.map.node_index(to_id) {
                Some(ti) => ti,
                None => {
                    proof {
                        assert(crate::hit::has_node_id_helper(m, j as int));
                    }
                    vstd::pervasive::unreached()
                },
            };
            proof {
                crate::edit::lemma_node_idx_is(m, fi as int, from_id);
                crate::edit::lemma_node_idx_is(m, ti as int, to_id);
            }
            let f = &self.map.nodes[fi];
            let t = &self.map.nodes[ti];
            let f_in = crate::geom::hit_rect(Pt { x: f.x, y: f.y }, c1, c2);
            let t_in = crate::geom::hit_rect(Pt { x: t.x, y: t.y }, c1, c2);
            if f_in && t_in {
                se.push(self.map.edges[j].id);
            }
            proof {
                lemma_filter_push(pre, m.edges@[j as int], epred);
                assert(m.edges@.subrange(0, j as int + 1) =~= pre.push(m.edges@[j as int]));
                if epred(m.edges@[j as int]) {
                    assert(se@ =~= pre.filter(epred).map_values(eid).push(
                        eid(m.edges@[j as int]),
                    ));
                    assert(pre.filter(epred).push(m.edges@[j as int]).map_values(eid)
                        =~= pre.filter(epred).map_values(eid).push(eid(m.edges@[j as int])));
                }
            }
            j = j + 1;
        }
        proof {
            assert(m.edges@.subrange(0, m.edges@.len() as int) =~= m.edges@);
            assert(se@ == marquee_edges(m, c1, c2));
        }
        self.selected_nodes = sn;
        self.selected_edges = se;
        proof {
            lemma_marquee_sel_wf(*self, c1, c2);
        }
    }

    /// Delete-selected: remove every selected node (cascading to its
    /// edges), remove every selected edge not already removed by the
    /// cascade, then clear both selection sets and mark the graph dirty.
    pub fn handle_delete(&mut self)
        requires
            old(self).wf(),
        ensures
            final(self).wf(),
            final(self).selected_nodes@.len() == 0,
            final(self).selected_edges@.len() == 0,
            final(self).map.nodes@ == old(self).map.nodes@.filter(
                |n: Node| !old(self).selected_nodes@.contains(n.id),
            ),
            final(self).map.edges@ == old(self).map.edges@.filter(
                |e: Edge|
                    !old(self).selected_nodes@.contains(e.from) && !old(self).selected_nodes@.contains(e.to) && !old(self).selected_edges@.contains(e.id),
            ),
            final(self).dirty == true,
            final(self).viewport == old(self).viewport,
            final(self).mode == old(self).mode,
            final(self).current_file == old(self).current_file,
    {
        let ghost m0 = self.map;
        let ghost seln = self.selected_nodes@;
        let ghost sele = self.selected_edges@;
        proof {
            assert(seln.subrange(0, 0) =~= Seq::<u128>::empty());
            crate::map::lemma_filter_true(
                m0.nodes@,
                |n: Node| !seln.subrange(0, 0).contains(n.id),
            );
            crate::map::lemma_filter_true(
                m0.edges@,
                |e: Edge|
                    !seln.subrange(0, 0).contains(e.from) && !seln.subrange(0, 0).contains(e.to),
            );
        }
        let mut k: usize = 0;
        while k < self.selected_nodes.len()
            invariant
                self.map.wf(),
                self.selected_nodes@ == seln,
                self.selected_edges@ == sele,
                k <= seln.len(),
                self.map.nodes@ == m0.nodes@.filter(
                    |n: Node| !seln.subrange(0, k as int).contains(n.id),
                ),
                self.map.edges@ == m0.edges@.filter(
                    |e: Edge|
                        !seln.subrange(0, k as int).contains(e.from) && !seln.subrange(
                            0,
                            k as int,
                        ).contains(e.to),
                ),
                self.viewport == old(self).viewport,
                self.mode == old(self).mode,
                self.current_file == old(self).current_file,
                self.dirty == old(self).dirty,
            decreases seln.len() - k,
        {
            let ghost pren = self.map.nodes@;
            let ghost pree = self.map.edges@;
            let ghost kk = k as int;
            let id = self.selected_nodes[k];
            self.map.remove_node(id);
            proof {
                let pk_n = |n: Node| !seln.subrange(0, kk).contains(n.id);
                let q_n = |n: Node| n.id != id;
                let pk1_n = |n: Node| !seln.subrange(0, kk + 1).contains(n.id);
                crate::map::lemma_filter_filter(m0.nodes@, pk_n, q_n);
                crate::map::lemma_sub_push_contains(seln, kk);
                assert(forall|i: int|
                    0 <= i < m0.nodes@.len() ==> ((pk_n(#[trigger] m0.nodes@[i]) && q_n(
                        m0.nodes@[i],
                    )) <==> pk1_n(m0.nodes@[i])));
                crate::map::lemma_filter_ext(
                    m0.nodes@,
                    |n: Node| pk_n(n) && q_n(n),
                    pk1_n,
                );
                let pk_e = |e: Edge|
                    !seln.subrange(0, kk).contains(e.from) && !seln.subrange(0, kk).contains(e.to);
                let q_e = |e: Edge| e.from != id && e.to != id;
                let pk1_e = |e: Edge|
                    !seln.subrange(0, kk + 1).contains(e.from) && !seln.subrange(
                        0,
                        kk + 1,
                    ).contains(e.to);
                crate::map::lemma_filter_filter(m0.edges@, pk_e, q_e);
                assert(forall|i: int|
                    0 <= i < m0.edges@.len() ==> ((pk_e(#[trigger] m0.edges@[i]) && q_e(
                        m0.edges@[i],
                    )) <==> pk1_e(m0.edges@[i])));
                crate::map::lemma_filter_ext(
                    m0.edges@,
                    |e: Edge| pk_e(e) && q_e(e),
                    pk1_e,
                );
            }
            k = k + 1;
        }
        proof {
            assert(seln.subrange(0, seln.len() as int) =~= seln);
            crate::map::lemma_filter_ext(
                m0.nodes@,
                |n: Node| !seln.subrange(0, seln.len() as int).contains(n.id),
                |n: Node| !seln.contains(n.id),
            );
            crate::map::lemma_filter_ext(
                m0.edges@,
                |e: Edge|
                    !seln.subrange(0, seln.len() as int).contains(e.from) && !seln.subrange(
                        0,
                        seln.len() as int,
                    ).contains(e.to),
                |e: Edge| !seln.contains(e.from) && !seln.contains(e.to),
            );
        }
        let ghost m1_edges = self.map.edges@;
        proof {
            assert(sele.subrange(0, 0) =~= Seq::<u128>::empty());
            crate::map::lemma_filter_true(
                m1_edges,
                |e: Edge| !sele.subrange(0, 0).contains(e.id),
            );
        }
        let mut j: usize = 0;
        while j < self.selected_edges.len()
            invariant
                self.map.wf(),
                self.selected_edges@ == sele,
                j <= sele.len(),
                self.map.nodes@ == m0.nodes@.filter(|n: Node| !seln.contains(n.id)),
                self.map.edges@ == m1_edges.filter(
                    |e: Edge| !sele.subrange(0, j as int).contains(e.id),
                ),
                m1_edges == m0.edges@.filter(
                    |e: Edge| !seln.contains(e.from) && !seln.contains(e.to),
                ),
                self.viewport == old(self).viewport,
                self.mode == old(self).mode,
                self.current_file == old(self).current_file,
                self.dirty == old(self).dirty,
            decreases sele.len() - j,
        {
            let ghost jj = j as int;
            let id = self.selected_edges[j];
            self.map.remove_edge(id);
            proof {
                let pj = |e: Edge| !sele.subrange(0, jj).contains(e.id);
                let q = |e: Edge| e.id != id;
                let pj1 = |e: Edge| !sele.subrange(0, jj + 1).contains(e.id);
                crate::map::lemma_filter_filter(m1_edges, pj, q);
                crate::map::lemma_sub_push_contains(sele, jj);
                assert(forall|i: int|
                    0 <= i < m1_edges.len() ==> ((pj(#[trigger] m1_edges[i]) && q(m1_edges[i]))
                        <==> pj1(m1_edges[i])));
                crate::map::lemma_filter_ext(m1_edges, |e: Edge| pj(e) && q(e), pj1);
            }
            j = j + 1;
        }
        proof {
            assert(sele.subrange(0, sele.len() as int) =~= sele);
            crate::map::lemma_filter_ext(
                m1_edges,
                |e: Edge| !sele.subrange(0, sele.len() as int).contains(e.id),
                |e: Edge| !sele.contains(e.id),
            );
            let pn = |e: Edge| !seln.contains(e.from) && !seln.contains(e.to);
            let pe = |e: Edge| !sele.contains(e.id);
            crate::map::lemma_filter_filter(m0.edges@, pn, pe);
            crate::map::lemma_filter_ext(
                m0.edges@,
                |e: Edge| pn(e) && pe(e),
                |e: Edge| !seln.contains(e.from) && !seln.contains(e.to) && !sele.contains(e.id),
            );
        }
        proof {
            crate::map::lemma_filter_ext(
                m0.nodes@,
                |n: Node| !seln.contains(n.id),
                |n: Node| !old(self).selected_nodes@.contains(n.id),
            );
            crate::map::lemma_filter_ext(
                m0.edges@,
                |e: Edge| !seln.contains(e.from) && !seln.contains(e.to) && !sele.contains(e.id),
                |e: Edge|
                    !old(self).selected_nodes@.contains(e.from) && !old(self).selected_nodes@.contains(e.to) && !old(self).selected_edges@.contains(e.id),
            );
        }
        self.selected_nodes = Vec::new();
        self.selected_edges = Vec::new();
        self.dirty = true;
    }
}

/// A state whose selections are the marquee results over its own graph is
/// selection-well-formed.
proof fn lemma_marquee_sel_wf(app: MindMapApp, c1: Pt, c2: Pt)
    requires
        app.map.wf(),
        app.selected_nodes@ == marquee_nodes(app.map, c1, c2),
        app.selected_edges@ == marquee_edges(app.map, c1, c2),
    ensures
        app.sel_wf(),
{
    let m = app.map;
    let npred = |n: Node| in_rect(node_pos(n), c1, c2);
    let epred = |e: Edge| edge_in_marquee(m, e, c1, c2);
    let fn_ = m.nodes@.filter(npred);
    let fe = m.edges@.filter(epred);
    lemma_filter_elems(m.nodes@, npred);
    lemma_filter_elems(m.edges@, epred);
    crate::map::lemma_filter_distinct_node_ids(m.nodes@, npred);
    crate::map::lemma_filter_distinct_edge_ids(m.edges@, epred);
    assert forall|i: int| 0 <= i < app.selected_nodes@.len() implies has_node_id(
        m.nodes@,
        #[trigger] app.selected_nodes@[i],
    ) by {
        assert(app.selected_nodes@[i] == fn_[i].id);
        assert(m.nodes@.contains(fn_[i]));
        let j = choose|j: int| 0 <= j < m.nodes@.len() && m.nodes@[j] == fn_[i];
        assert(m.nodes@[j].id == app.selected_nodes@[i]);
    }
    assert forall|i: int| 0 <= i < app.selected_edges@.len() implies has_edge_id(
        m.edges@,
        #[trigger] app.selected_edges@[i],
    ) by {
        assert(app.selected_edges@[i] == fe[i].id);
        assert(m.edges@.contains(fe[i]));
        let j = choose|j: int| 0 <= j < m.edges@.len() && m.edges@[j] == fe[i];
        assert(m.edges@[j].id == app.selected_edges@[i]);
    }
    assert forall|i: int, j: int| 0 <= i < j < app.selected_nodes@.len() implies app.selected_nodes@[i]
        != app.selected_nodes@[j] by {
        assert(app.selected_nodes@[i] == fn_[i].id && app.selected_nodes@[j] == fn_[j].id);
    }
    assert forall|i: int, j: int| 0 <= i < j < app.selected_edges@.len() implies app.selected_edges@[i]
        != app.selected_edges@[j] by {
        assert(app.selected_edges@[i] == fe[i].id && app.selected_edges@[j] == fe[j].id);
    }
}

/// Marquee-select is idempotent: applied twice with the same rectangle
/// over the same underlying graph, the second application leaves both
/// selection sets exactly as the first one did.
pub proof fn lemma_marquee_idempotent(
    pre: MindMapApp,
    once: MindMapApp,
    twice: MindMapApp,
    c1: Pt,
    c2: Pt,
)
    requires
        once.map == pre.map,
        once.selected_nodes@ == marquee_nodes(pre.map, c1, c2),
        once.selected_edges@ == marquee_edges(pre.map, c1, c2),
        twice.map == once.map,
        twice.selected_nodes@ == marquee_nodes(once.map, c1, c2),
        twice.selected_edges@ == marquee_edges(once.map, c1, c2),
    ensures
        twice.selected_nodes@ == once.selected_nodes@,
        twice.selected_edges@ == once.selected_edges@,
{
}


/// A pointer event, in screen coordinates relative to the viewport
/// origin, with the button and modifier state the canvas saw.
#[derive(Clone, Copy, Debug)]
pub struct PointerEvent {
    pub pos: Pt,
    pub clicked_primary: bool,
    pub double_clicked: bool,
    pub clicked_secondary: bool,
    pub dragged_primary: bool,
    pub drag_stopped_primary: bool,
    pub drag_started_secondary: bool,
    pub drag_stopped_secondary: bool,
    pub drag_delta: Pt,
    pub shift: bool,
    pub ctrl: bool,
}

/// Event coordinates small enough for the viewport arithmetic.
pub open spec fn ev_ok(ev: PointerEvent) -> bool {
    &&& -crate::viewport::SCREEN_LIMIT <= ev.pos.x <= crate::viewport::SCREEN_LIMIT
    &&& -crate::viewport::SCREEN_LIMIT <= ev.pos.y <= crate::viewport::SCREEN_LIMIT
    &&& -crate::viewport::SCREEN_LIMIT <= ev.drag_delta.x <= crate::viewport::SCREEN_LIMIT
    &&& -crate::viewport::SCREEN_LIMIT <= ev.drag_delta.y <= crate::viewport::SCREEN_LIMIT
}

/// The world point under a screen point, as the controller computes it.
pub open spec fn canvas_of(vp: Viewport, s: Pt) -> Pt {
    Pt {
        x: crate::edit::clamp_coord(
            crate::viewport::world_floor(s.x as int, vp.pan_x@, vp.zoom@),
        ),
        y: crate::edit::clamp_coord(
            crate::viewport::world_floor(s.y as int, vp.pan_y@, vp.zoom@),
        ),
    }
}

/// Everything but the graph is kept.
pub open spec fn keeps_env(a: MindMapApp, b: MindMapApp) -> bool {
    b.viewport == a.viewport && b.current_file == a.current_file
}

/// Both selection sets are kept.
pub open spec fn keeps_sel(a: MindMapApp, b: MindMapApp) -> bool {
    b.selected_nodes@ == a.selected_nodes@ && b.selected_edges@ == a.selected_edges@
}

impl MindMapApp {
    /// Toggle the collapse flag of the first node (in list order) whose
    /// box contains `c`, as a ctrl+click does; pointer events resolve to
    /// the first match, and the toggle is independent of selection state.
    fn toggle_collapsed_at(&mut self, c: Pt, sizes: &Vec<crate::geom::BoxSize>)
        requires
            old(self).wf(),
            crate::geom::pt_ok(c),
            sizes@.len() == old(self).map.nodes@.len(),
            crate::hit::sizes_ok(sizes@),
        ensures
            final(self).wf(),
            ({
                let nh = crate::hit::first_node_hit(old(self).map.nodes@, sizes@, c);
                if nh < old(self).map.nodes@.len() {
                    &&& crate::edit::nodes_same_except(old(self).map, final(self).map, nh)
                    &&& crate::edit::node_same_but_collapsed(
                        old(self).map.nodes@[nh],
                        final(self).map.nodes@[nh],
                    )
                    &&& final(self).map.nodes@[nh].collapsed == !old(
                        self,
                    ).map.nodes@[nh].collapsed
                } else {
                    final(self).map == old(self).map
                }
            }),
            final(self).map.edges@ == old(self).map.edges@,
            keeps_sel(*old(self), *final(self)),
            keeps_env(*old(self), *final(self)),
            final(self).mode == old(self).mode,
            final(self).dirty == old(self).dirty,
    {
        match self.map.find_node_at(c, sizes) {
            Some(i) => {
                let id = self.map.nodes[i].id;
                proof {
                    crate::edit::lemma_node_idx_is(self.map, i as int, id);
                }
                let toggled = self.map.toggle_collapsed(id);
                proof {
                    assert(toggled);
                }
            },
            None => {},
        }
    }

    /// Replace-select the node with id `id` (clears the edge selection).
    fn replace_select_node(&mut self, id: u128)
        requires
            old(self).wf(),
            has_node_id(old(self).map.nodes@, id),
        ensures
            final(self).wf(),
            final(self).selected_nodes@ =~= seq![id],
            final(self).selected_edges@.len() == 0,
            final(self).map == old(self).map,
            keeps_env(*old(self), *final(self)),
            final(self).mode == old(self).mode,
            final(self).dirty == old(self).dirty,
    {
        let mut sn: Vec<u128> = Vec::new();
        sn.push(id);
        self.selected_nodes = sn;
        self.selected_edges = Vec::new();
    }

    /// Replace-select the edge with id `id` (clears the node selection).
    fn replace_select_edge(&mut self, id: u128)
        requires
            old(self).wf(),
            has_edge_id(old(self).map.edges@, id),
        ensures
            final(self).wf(),
            final(self).selected_edges@ =~= seq![id],
            final(self).selected_nodes@.len() == 0,
            final(self).map == old(self).map,
            keeps_env(*old(self), *final(self)),
            final(self).mode == old(self).mode,
            final(self).dirty == old(self).dirty,
    {
        let mut se: Vec<u128> = Vec::new();
        se.push(id);
        self.selected_edges = se;
        self.selected_nodes = Vec::new();
    }

    /// Toggle-select the node with id `id`: remove it from the node
    /// selection if present, add it otherwise; the edge selection is not
    /// touched.
    fn toggle_select_node(&mut self, id: u128)
        requires
            old(self).wf(),
            has_node_id(old(self).map.nodes@, id),
        ensures
            final(self).wf(),
            old(self).selected_nodes@.contains(id) ==> final(self).selected_nodes@ == old(self).selected_nodes@.filter(|x: u128| x != id),
            !old(self).selected_nodes@.contains(id) ==> final(self).selected_nodes@ == old(self).selected_nodes@.push(id),
            final(self).selected_edges@ == old(self).selected_edges@,
            final(self).map == old(self).map,
            keeps_env(*old(self), *final(self)),
            final(self).mode == old(self).mode,
            final(self).dirty == old(self).dirty,
    {
        if id_vec_contains(&self.selected_nodes, id) {
            id_vec_remove(&mut self.selected_nodes, id);
            proof {
                let pred = |x: u128| x != id;
                let f = old(self).selected_nodes@.filter(pred);
                lemma_filter_elems(old(self).selected_nodes@, pred);
                crate::map::lemma_filter_distinct_vals(old(self).selected_nodes@, pred);
                assert forall|i: int| 0 <= i < f.len() implies has_node_id(
                    self.map.nodes@,
                    #[trigger] f[i],
                ) by {
                    assert(old(self).selected_nodes@.contains(f[i]));
                    let j = choose|j: int|
                        0 <= j < old(self).selected_nodes@.len() && old(self).selected_nodes@[j]
                            == f[i];
                    assert(has_node_id(self.map.nodes@, old(self).selected_nodes@[j]));
                }
            }
        } else {
            self.selected_nodes.push(id);
        }
    }

    /// Toggle-select the edge with id `id`; the node selection is not
    /// touched.
    fn toggle_select_edge(&mut self, id: u128)
        requires
            old(self).wf(),
            has_edge_id(old(self).map.edges@, id),
        ensures
            final(self).wf(),
            old(self).selected_edges@.contains(id) ==> final(self).selected_edges@ == old(self).selected_edges@.filter(|x: u128| x != id),
            !old(self).selected_edges@.contains(id) ==> final(self).selected_edges@ == old(self).selected_edges@.push(id),
            final(self).selected_nodes@ == old(self).selected_nodes@,
            final(self).map == old(self).map,
            keeps_env(*old(self), *final(self)),
            final(self).mode == old(self).mode,
            final(self).dirty == old(self).dirty,
    {
        if id_vec_contains(&self.selected_edges, id) {
            id_vec_remove(&mut self.selected_edges, id);
            proof {
                let pred = |x: u128| x != id;
                let f = old(self).selected_edges@.filter(pred);
                lemma_filter_elems(old(self).selected_edges@, pred);
                crate::map::lemma_filter_distinct_vals(old(self).selected_edges@, pred);
                assert forall|i: int| 0 <= i < f.len() implies has_edge_id(
                    self.map.edges@,
                    #[trigger] f[i],
                ) by {
                    assert(old(self).selected_edges@.contains(f[i]));
                    let j = choose|j: int|
                        0 <= j < old(self).selected_edges@.len() && old(self).selected_edges@[j]
                            == f[i];
                    assert(has_edge_id(self.map.edges@, old(self).selected_edges@[j]));
                }
            }
        } else {
            self.selected_edges.push(id);
        }
    }
}


/// Annotation timestamps. Relies on `chrono::Utc::now` and its formatter;
/// the value depends on the clock, so nothing is promised of it. Note:
/// `Utc::now` aborts when the system clock reads before the Unix epoch —
/// an environmental failure outside this library's no-panic guarantee.
#[verifier::external_body]
fn now_string() -> String {
    chrono::Utc::now().format("%Y-%m-%d %H:%M:%S UTC").to_string()
}

impl MindMapApp {
    /// Begin a connect gesture: if a node's box contains `c`, enter
    /// `ConnectingEdge` from that node; otherwise nothing changes.
    fn start_edge(&mut self, c: Pt, sizes: &Vec<crate::geom::BoxSize>)
        requires
            old(self).wf(),
            crate::geom::pt_ok(c),
            sizes@.len() == old(self).map.nodes@.len(),
            crate::hit::sizes_ok(sizes@),
        ensures
            final(self).wf(),
            ({
                let nh = crate::hit::first_node_hit(old(self).map.nodes@, sizes@, c);
                if nh < old(self).map.nodes@.len() {
                    final(self).mode == (Mode::ConnectingEdge {
                        from: old(self).map.nodes@[nh].id,
                    })
                } else {
                    final(self).mode == old(self).mode
                }
            }),
            final(self).map == old(self).map,
            keeps_sel(*old(self), *final(self)),
            keeps_env(*old(self), *final(self)),
            final(self).dirty == old(self).dirty,
    {
        match self.map.find_node_at(c, sizes) {
            Some(i) => {
                self.mode = Mode::ConnectingEdge { from: self.map.nodes[i].id };
            },
            None => {},
        }
    }

    /// Finish a connect gesture at world point `c` (pointer at screen
    /// point `spos`): over a different node, wait for the edge-kind
    /// choice; otherwise abort back to idle with no edge created.
    fn stop_edge(&mut self, c: Pt, spos: Pt, sizes: &Vec<crate::geom::BoxSize>, from: u128)
        requires
            old(self).wf(),
            crate::geom::pt_ok(c),
            sizes@.len() == old(self).map.nodes@.len(),
            crate::hit::sizes_ok(sizes@),
        ensures
            final(self).wf(),
            ({
                let nh = crate::hit::first_node_hit(old(self).map.nodes@, sizes@, c);
                if nh < old(self).map.nodes@.len() && old(self).map.nodes@[nh].id != from {
                    final(self).mode == (Mode::AwaitingEdgeTypeChoice {
                        pending: PendingEdge::NewEdge { from, to: old(self).map.nodes@[nh].id },
                        pos: spos,
                    })
                } else {
                    final(self).mode == Mode::Idle
                }
            }),
            final(self).map == old(self).map,
            keeps_sel(*old(self), *final(self)),
            keeps_env(*old(self), *final(self)),
            final(self).dirty == old(self).dirty,
    {
        let mut to: Option<u128> = None;
        match self.map.find_node_at(c, sizes) {
            Some(i) => {
                if self.map.nodes[i].id != from {
                    to = Some(self.map.nodes[i].id);
                }
            },
            None => {},
        }
        match to {
            Some(to_id) => {
                self.mode = Mode::AwaitingEdgeTypeChoice {
                    pending: PendingEdge::NewEdge { from, to: to_id },
                    pos: spos,
                };
            },
            None => {
                self.mode = Mode::Idle;
            },
        }
    }

    /// Primary-button click handling: dismiss an open context menu, then
    /// resolve the click — double-click opens a node's document or creates
    /// a node on empty space; ctrl+click toggles the collapse flag of the
    /// nodes under the pointer; shift+click toggle-selects, or asks for a
    /// file to import when nothing was hit; a plain click replace-selects
    /// the first hit node, else the first hit edge, else clears the
    /// selection.
    pub fn handle_left_click(
        &mut self,
        ev: &PointerEvent,
        sizes: &Vec<crate::geom::BoxSize>,
    ) -> (r: Option<Request>)
        requires
            old(self).wf(),
            ev_ok(*ev),
            sizes@.len() == old(self).map.nodes@.len(),
            crate::hit::sizes_ok(sizes@),
        ensures
            final(self).wf(),
            keeps_env(*old(self), *final(self)),
            !ev.clicked_primary ==> *final(self) == *old(self) && r is None,
            ev.clicked_primary ==> final(self).mode == (if old(self).mode is ContextMenuOpen {
                Mode::Idle
            } else {
                old(self).mode
            }),
            ev.clicked_primary ==> ({
                let c = canvas_of(old(self).viewport, ev.pos);
                let nodes0 = old(self).map.nodes@;
                let nlen = nodes0.len() as int;
                let nh = crate::hit::first_node_hit(nodes0, sizes@, c);
                let eh = crate::hit::first_edge_hit(old(self).map, c);
                let elen = old(self).map.edges@.len() as int;
                if ev.double_clicked {
                    keeps_sel(*old(self), *final(self)) && (if nh < nlen {
                        final(self).map == old(self).map && final(self).dirty == old(self).dirty
                            && (if nodes0[nh].path is Some && old(self).current_file is Some {
                            &&& r matches Some(req)
                            &&& req matches Request::OpenDocument { path }
                            &&& path@ == old(self).current_file.unwrap()@ + "/"@
                                + nodes0[nh].path.unwrap()@
                        } else {
                            r is None
                        })
                    } else {
                        r is None && final(self).map.edges@ == old(self).map.edges@ && ((
                        final(self).map.nodes@.len() == nlen + 1 && final(self).map.nodes@.subrange(
                            0,
                            nlen,
                        ) == nodes0 && final(self).map.nodes@.last().title@ == "New"@ && final(self).map.nodes@.last().x == c.x && final(self).map.nodes@.last().y == c.y
                            && final(self).map.nodes@.last().collapsed == true && final(self).dirty == true) || (final(self).map == old(self).map && final(self).dirty
                            == old(self).dirty))
                    })
                } else if ev.ctrl {
                    r is None && keeps_sel(*old(self), *final(self)) && final(self).dirty == old(
                        self,
                    ).dirty && final(self).map.edges@ == old(self).map.edges@ && (if nh < nlen {
                        &&& crate::edit::nodes_same_except(old(self).map, final(self).map, nh)
                        &&& crate::edit::node_same_but_collapsed(
                            nodes0[nh],
                            final(self).map.nodes@[nh],
                        )
                        &&& final(self).map.nodes@[nh].collapsed == !nodes0[nh].collapsed
                    } else {
                        final(self).map == old(self).map
                    })
                } else if ev.shift {
                    final(self).map == old(self).map && final(self).dirty == old(self).dirty && (
                    if nh < nlen {
                        let id = nodes0[nh].id;
                        r is None && final(self).selected_edges@ == old(self).selected_edges@ && (
                        if old(self).selected_nodes@.contains(id) {
                            final(self).selected_nodes@ == old(self).selected_nodes@.filter(
                                |x: u128| x != id,
                            )
                        } else {
                            final(self).selected_nodes@ == old(self).selected_nodes@.push(id)
                        })
                    } else if eh < elen {
                        let id = old(self).map.edges@[eh].id;
                        r is None && final(self).selected_nodes@ == old(self).selected_nodes@ && (
                        if old(self).selected_edges@.contains(id) {
                            final(self).selected_edges@ == old(self).selected_edges@.filter(
                                |x: u128| x != id,
                            )
                        } else {
                            final(self).selected_edges@ == old(self).selected_edges@.push(id)
                        })
                    } else {
                        &&& keeps_sel(*old(self), *final(self))
                        &&& r matches Some(req)
                        &&& req matches Request::PickImportFile { pos }
                        &&& pos == c
                    })
                } else {
                    r is None && final(self).map == old(self).map && final(self).dirty == old(self).dirty && (if nh < nlen {
                        final(self).selected_nodes@ =~= seq![nodes0[nh].id] && final(self).selected_edges@.len() == 0
                    } else if eh < elen {
                        final(self).selected_edges@ =~= seq![old(self).map.edges@[eh].id] && final(self).selected_nodes@.len() == 0
                    } else {
                        final(self).selected_nodes@.len() == 0 && final(self).selected_edges@.len() == 0
                    })
                }
            }),
    {
        if !ev.clicked_primary {
            return None;
        }
        if matches!(self.mode, Mode::ContextMenuOpen { .. }) {
            self.mode = Mode::Idle;
        }
        let c = self.viewport.screen_to_world(ev.pos);
        if ev.double_clicked {
            match self.map.find_node_at(c, sizes) {
                Some(i) => {
                    let has_doc = self.map.nodes[i].path.is_some() && self.current_file.is_some();
                    if has_doc {
                        let mut full: String = match &self.current_file {
                            Some(p) => p.clone(),
                            None => vstd::pervasive::unreached(),
                        };
                        full.append("/");
                        let rel: String = match &self.map.nodes[i].path {
                            Some(p) => p.clone(),
                            None => vstd::pervasive::unreached(),
                        };
                        full.append(rel.as_str());
                        return Some(Request::OpenDocument { path: full });
                    }
                    return None;
                },
                None => {
                    let title: String = "New".to_owned();
                    match self.map.add_node(title, c.x, c.y) {
                        Some(_id) => {
                            self.dirty = true;
                        },
                        None => {},
                    }
                    return None;
                },
            }
        }
        if ev.ctrl {
            self.toggle_collapsed_at(c, sizes);
            return None;
        }
        if ev.shift {
            match self.map.find_node_at(c, sizes) {
                Some(i) => {
                    let id = self.map.nodes[i].id;
                    proof {
                        crate::edit::lemma_node_idx_is(self.map, i as int, id);
                    }
                    self.toggle_select_node(id);
                    return None;
                },
                None => {},
            }
            match self.map.find_edge_at(c) {
                Some(i) => {
                    let id = self.map.edges[i].id;
                    proof {
                        crate::edit::lemma_edge_idx_is(self.map, i as int, id);
                    }
                    self.toggle_select_edge(id);
                    return None;
                },
                None => {},
            }
            return Some(Request::PickImportFile { pos: c });
        }
        match self.map.find_node_at(c, sizes) {
            Some(i) => {
                let id = self.map.nodes[i].id;
                proof {
                    crate::edit::lemma_node_idx_is(self.map, i as int, id);
                }
                self.replace_select_node(id);
                return None;
            },
            None => {},
        }
        match self.map.find_edge_at(c) {
            Some(i) => {
                let id = self.map.edges[i].id;
                proof {
                    crate::edit::lemma_edge_idx_is(self.map, i as int, id);
                }
                self.replace_select_edge(id);
                return None;
            },
            None => {},
        }
        self.selected_nodes = Vec::new();
        self.selected_edges = Vec::new();
        None
    }

    /// Primary-button drag handling. While dragging without shift:
    /// ctrl starts a connect gesture from the node under the pointer;
    /// otherwise a drag moves the node picked up at drag start by the
    /// screen delta divided by the zoom, or rubber-bands a marquee from
    /// the drag start over empty space. When the drag stops: a connect
    /// gesture resolves (see [`Self::stop_edge`]), a marquee applies
    /// marquee-selection over the dragged rectangle, and a node drag ends.
    pub fn handle_left_drag(&mut self, ev: &PointerEvent, sizes: &Vec<crate::geom::BoxSize>)
        requires
            old(self).wf(),
            ev_ok(*ev),
            sizes@.len() == old(self).map.nodes@.len(),
            crate::hit::sizes_ok(sizes@),
            !(ev.dragged_primary && ev.drag_stopped_primary),
        ensures
            final(self).wf(),
            keeps_env(*old(self), *final(self)),
            ev.dragged_primary && !ev.shift && ev.ctrl ==> ({
                let c = canvas_of(old(self).viewport, ev.pos);
                let nh = crate::hit::first_node_hit(old(self).map.nodes@, sizes@, c);
                &&& final(self).map == old(self).map
                &&& keeps_sel(*old(self), *final(self))
                &&& final(self).dirty == old(self).dirty
                &&& (if !(old(self).mode is ConnectingEdge) && nh < old(self).map.nodes@.len() {
                    final(self).mode == (Mode::ConnectingEdge {
                        from: old(self).map.nodes@[nh].id,
                    })
                } else {
                    final(self).mode == old(self).mode
                })
            }),
            ev.dragged_primary && !ev.shift && !ev.ctrl ==> ({
                let c = canvas_of(old(self).viewport, ev.pos);
                let nodes0 = old(self).map.nodes@;
                let nh = crate::hit::first_node_hit(nodes0, sizes@, c);
                match old(self).mode {
                    Mode::DraggingNode { id } => {
                        let wdx = crate::edit::clamp_coord(
                            (ev.drag_delta.x * old(self).viewport.zoom@.d) / old(self).viewport.zoom@.n,
                        );
                        let wdy = crate::edit::clamp_coord(
                            (ev.drag_delta.y * old(self).viewport.zoom@.d) / old(self).viewport.zoom@.n,
                        );
                        &&& final(self).mode == old(self).mode
                        &&& keeps_sel(*old(self), *final(self))
                        &&& (if has_node_id(nodes0, id) {
                            let i = node_idx(nodes0, id);
                            &&& crate::edit::nodes_same_except(old(self).map, final(self).map, i)
                            &&& crate::edit::node_same_but_position(
                                nodes0[i],
                                final(self).map.nodes@[i],
                            )
                            &&& final(self).map.nodes@[i].x == crate::edit::clamp_coord(
                                nodes0[i].x + wdx,
                            )
                            &&& final(self).map.nodes@[i].y == crate::edit::clamp_coord(
                                nodes0[i].y + wdy,
                            )
                            &&& final(self).dirty == true
                        } else {
                            final(self).map == old(self).map && final(self).dirty == old(self).dirty
                        })
                    },
                    Mode::Idle => {
                        &&& final(self).map == old(self).map
                        &&& keeps_sel(*old(self), *final(self))
                        &&& final(self).dirty == old(self).dirty
                        &&& (if nh < nodes0.len() {
                            final(self).mode == (Mode::DraggingNode { id: nodes0[nh].id })
                        } else {
                            final(self).mode == (Mode::Marqueeing { start: ev.pos })
                        })
                    },
                    _ => *final(self) == *old(self),
                }
            }),
            ev.drag_stopped_primary ==> ({
                let c = canvas_of(old(self).viewport, ev.pos);
                let nodes0 = old(self).map.nodes@;
                let nh = crate::hit::first_node_hit(nodes0, sizes@, c);
                match old(self).mode {
                    Mode::ConnectingEdge { from } => {
                        &&& final(self).map == old(self).map
                        &&& keeps_sel(*old(self), *final(self))
                        &&& final(self).dirty == old(self).dirty
                        &&& (if nh < nodes0.len() && nodes0[nh].id != from {
                            final(self).mode == (Mode::AwaitingEdgeTypeChoice {
                                pending: PendingEdge::NewEdge { from, to: nodes0[nh].id },
                                pos: ev.pos,
                            })
                        } else {
                            final(self).mode == Mode::Idle
                        })
                    },
                    Mode::Marqueeing { start } => {
                        let c1 = canvas_of(old(self).viewport, start);
                        &&& final(self).map == old(self).map
                        &&& final(self).dirty == old(self).dirty
                        &&& final(self).mode == Mode::Idle
                        &&& final(self).selected_nodes@ == marquee_nodes(old(self).map, c1, c)
                        &&& final(self).selected_edges@ == marquee_edges(old(self).map, c1, c)
                    },
                    Mode::DraggingNode { id } => {
                        &&& final(self).map == old(self).map
                        &&& keeps_sel(*old(self), *final(self))
                        &&& final(self).dirty == old(self).dirty
                        &&& final(self).mode == Mode::Idle
                    },
                    _ => *final(self) == *old(self),
                }
            }),
            !(ev.dragged_primary && !ev.shift) && !ev.drag_stopped_primary ==> *final(self)
                == *old(self),
    {
        let c = self.viewport.screen_to_world(ev.pos);
        if ev.dragged_primary && !ev.shift {
            if ev.ctrl {
                if !matches!(self.mode, Mode::ConnectingEdge { .. }) {
                    self.start_edge(c, sizes);
                }
            } else {
                let dragging: Option<u128> = match &self.mode {
                    Mode::DraggingNode { id } => Some(*id),
                    _ => None,
                };
                let idle = matches!(self.mode, Mode::Idle);
                match dragging {
                    Some(id) => {
                        let wdx = self.viewport.screen_delta_to_world(ev.drag_delta.x);
                        let wdy = self.viewport.screen_delta_to_world(ev.drag_delta.y);
                        if self.map.translate_node(id, wdx, wdy) {
                            self.dirty = true;
                        }
                    },
                    None => {
                        if idle {
                            match self.map.find_node_at(c, sizes) {
                                Some(i) => {
                                    self.mode = Mode::DraggingNode { id: self.map.nodes[i].id };
                                },
                                None => {
                                    self.mode = Mode::Marqueeing { start: ev.pos };
                                },
                            }
                        }
                    },
                }
            }
        }
        if ev.drag_stopped_primary {
            let connecting: Option<u128> = match &self.mode {
                Mode::ConnectingEdge { from } => Some(*from),
                _ => None,
            };
            let marquee: Option<Pt> = match &self.mode {
                Mode::Marqueeing { start } => Some(*start),
                _ => None,
            };
            let was_dragging = matches!(self.mode, Mode::DraggingNode { .. });
            match connecting {
                Some(from) => {
                    self.stop_edge(c, ev.pos, sizes, from);
                },
                None => {
                    match marquee {
                        Some(start) => {
                            let c1 = self.viewport.screen_to_world(start);
                            self.marquee_select(c1, c);
                            self.mode = Mode::Idle;
                        },
                        None => {
                            if was_dragging {
                                self.mode = Mode::Idle;
                            }
                        },
                    }
                },
            }
        }
    }

    /// Secondary-button click handling: open the node context menu over a
    /// node, the edge context menu over an edge, and close any open menu
    /// over empty space. Opening a context menu never changes selection.
    pub fn handle_right_click(&mut self, ev: &PointerEvent, sizes: &Vec<crate::geom::BoxSize>)
        requires
            old(self).wf(),
            ev_ok(*ev),
            sizes@.len() == old(self).map.nodes@.len(),
            crate::hit::sizes_ok(sizes@),
        ensures
            final(self).wf(),
            keeps_env(*old(self), *final(self)),
            final(self).map == old(self).map,
            keeps_sel(*old(self), *final(self)),
            final(self).dirty == old(self).dirty,
            !ev.clicked_secondary ==> final(self).mode == old(self).mode,
            ev.clicked_secondary ==> ({
                let c = canvas_of(old(self).viewport, ev.pos);
                let nodes0 = old(self).map.nodes@;
                let nh = crate::hit::first_node_hit(nodes0, sizes@, c);
                let eh = crate::hit::first_edge_hit(old(self).map, c);
                if nh < nodes0.len() {
                    final(self).mode == (Mode::ContextMenuOpen {
                        target: MenuTarget::NodeMenu { id: nodes0[nh].id, pos: ev.pos },
                    })
                } else if eh < old(self).map.edges@.len() {
                    final(self).mode == (Mode::ContextMenuOpen {
                        target: MenuTarget::EdgeMenu {
                            id: old(self).map.edges@[eh].id,
                            pos: ev.pos,
                        },
                    })
                } else {
                    final(self).mode == (if old(self).mode is ContextMenuOpen {
                        Mode::Idle
                    } else {
                        old(self).mode
                    })
                }
            }),
    {
        if !ev.clicked_secondary {
            return ;
        }
        let c = self.viewport.screen_to_world(ev.pos);
        match self.map.find_node_at(c, sizes) {
            Some(i) => {
                self.mode = Mode::ContextMenuOpen {
                    target: MenuTarget::NodeMenu { id: self.map.nodes[i].id, pos: ev.pos },
                };
                return ;
            },
            None => {},
        }
        match self.map.find_edge_at(c) {
            Some(i) => {
                self.mode = Mode::ContextMenuOpen {
                    target: MenuTarget::EdgeMenu { id: self.map.edges[i].id, pos: ev.pos },
                };
                return ;
            },
            None => {},
        }
        if matches!(self.mode, Mode::ContextMenuOpen { .. }) {
            self.mode = Mode::Idle;
        }
    }

    /// Secondary-button drag handling: starting a drag over a node begins
    /// a connect gesture; stopping one resolves it.
    pub fn handle_right_drag(&mut self, ev: &PointerEvent, sizes: &Vec<crate::geom::BoxSize>)
        requires
            old(self).wf(),
            ev_ok(*ev),
            sizes@.len() == old(self).map.nodes@.len(),
            crate::hit::sizes_ok(sizes@),
            !(ev.drag_started_secondary && ev.drag_stopped_secondary),
        ensures
            final(self).wf(),
            keeps_env(*old(self), *final(self)),
            final(self).map == old(self).map,
            keeps_sel(*old(self), *final(self)),
            final(self).dirty == old(self).dirty,
            ev.drag_started_secondary ==> ({
                let c = canvas_of(old(self).viewport, ev.pos);
                let nh = crate::hit::first_node_hit(old(self).map.nodes@, sizes@, c);
                if nh < old(self).map.nodes@.len() {
                    final(self).mode == (Mode::ConnectingEdge {
                        from: old(self).map.nodes@[nh].id,
                    })
                } else {
                    final(self).mode == old(self).mode
                }
            }),
            ev.drag_stopped_secondary ==> ({
                let c = canvas_of(old(self).viewport, ev.pos);
                let nodes0 = old(self).map.nodes@;
                let nh = crate::hit::first_node_hit(nodes0, sizes@, c);
                match old(self).mode {
                    Mode::ConnectingEdge { from } => {
                        if nh < nodes0.len() && nodes0[nh].id != from {
                            final(self).mode == (Mode::AwaitingEdgeTypeChoice {
                                pending: PendingEdge::NewEdge { from, to: nodes0[nh].id },
                                pos: ev.pos,
                            })
                        } else {
                            final(self).mode == Mode::Idle
                        }
                    },
                    _ => final(self).mode == old(self).mode,
                }
            }),
            !ev.drag_started_secondary && !ev.drag_stopped_secondary ==> final(self).mode == old(self).mode,
    {
        let c = self.viewport.screen_to_world(ev.pos);
        if ev.drag_started_secondary {
            self.start_edge(c, sizes);
        }
        if ev.drag_stopped_secondary {
            let connecting: Option<u128> = match &self.mode {
                Mode::ConnectingEdge { from } => Some(*from),
                _ => None,
            };
            match connecting {
                Some(from) => {
                    self.stop_edge(c, ev.pos, sizes, from);
                },
                None => {},
            }
        }
    }
}


impl MindMapApp {
    /// The user picked an edge kind while one was awaited: create the
    /// pending edge with that kind, or change the pending existing edge's
    /// kind in place; either path returns to idle and marks the graph
    /// dirty on success. Returns whether an edge was created or changed.
    pub fn choose_edge_type(&mut self, kind: crate::map::EdgeType) -> (r: bool)
        requires
            old(self).wf(),
        ensures
            final(self).wf(),
            keeps_env(*old(self), *final(self)),
            keeps_sel(*old(self), *final(self)),
            match old(self).mode {
                Mode::AwaitingEdgeTypeChoice { pending, pos } => final(self).mode == Mode::Idle
                    && (match pending {
                    PendingEdge::NewEdge { from, to } => {
                        if has_node_id(old(self).map.nodes@, from) && has_node_id(
                            old(self).map.nodes@,
                            to,
                        ) {
                            (r && final(self).map.nodes@ == old(self).map.nodes@ && final(self).map.edges@.len() == old(self).map.edges@.len() + 1 && final(self).map.edges@.subrange(0, old(self).map.edges@.len() as int) == old(self).map.edges@ && final(self).map.edges@.last().from == from && final(self).map.edges@.last().to == to && final(self).map.edges@.last().edge_type
                                == kind && final(self).dirty == true) || (!r && final(self).map
                                == old(self).map && final(self).dirty == old(self).dirty)
                        } else {
                            !r && final(self).map == old(self).map && final(self).dirty == old(self).dirty
                        }
                    },
                    PendingEdge::ExistingEdge { id } => {
                        r == has_edge_id(old(self).map.edges@, id) && final(self).map.nodes@
                            == old(self).map.nodes@ && (if r {
                            let i = crate::map::edge_idx(old(self).map.edges@, id);
                            &&& final(self).map.edges@.len() == old(self).map.edges@.len()
                            &&& (forall|j: int|
                                0 <= j < old(self).map.edges@.len() && j != i ==> final(self).map.edges@[j] == (#[trigger] old(self).map.edges@[j]))
                            &&& crate::edit::edge_same_but_kind(
                                old(self).map.edges@[i],
                                final(self).map.edges@[i],
                            )
                            &&& final(self).map.edges@[i].edge_type == kind
                            &&& final(self).dirty == true
                        } else {
                            final(self).map == old(self).map && final(self).dirty == old(self).dirty
                        })
                    },
                }),
                _ => *final(self) == *old(self) && !r,
            },
    {
        let pending: Option<PendingEdge> = match &self.mode {
            Mode::AwaitingEdgeTypeChoice { pending, pos: _ } => Some(*pending),
            _ => None,
        };
        match pending {
            Some(PendingEdge::NewEdge { from, to }) => {
                self.mode = Mode::Idle;
                let from_ok = self.map.node_index(from).is_some();
                let to_ok = self.map.node_index(to).is_some();
                if from_ok && to_ok {
                    match self.map.add_edge(from, to) {
                        Some(new_id) => {
                            proof {
                                crate::edit::lemma_edge_idx_is(
                                    self.map,
                                    self.map.edges@.len() - 1,
                                    new_id,
                                );
                            }
                            let set_ok = self.map.set_edge_kind(new_id, kind);
                            proof {
                                assert(set_ok);
                                assert(self.map.edges@.subrange(
                                    0,
                                    old(self).map.edges@.len() as int,
                                ) =~= old(self).map.edges@);
                            }
                            self.dirty = true;
                            true
                        },
                        None => false,
                    }
                } else {
                    false
                }
            },
            Some(PendingEdge::ExistingEdge { id }) => {
                self.mode = Mode::Idle;
                let r = self.map.set_edge_kind(id, kind);
                if r {
                    self.dirty = true;
                }
                r
            },
            None => false,
        }
    }

    /// The user cancelled the edge-kind choice: return to idle with no
    /// mutation.
    pub fn cancel_edge_type(&mut self)
        requires
            old(self).wf(),
        ensures
            final(self).wf(),
            keeps_env(*old(self), *final(self)),
            keeps_sel(*old(self), *final(self)),
            final(self).map == old(self).map,
            final(self).dirty == old(self).dirty,
            old(self).mode is AwaitingEdgeTypeChoice ==> final(self).mode == Mode::Idle,
            !(old(self).mode is AwaitingEdgeTypeChoice) ==> final(self).mode == old(self).mode,
    {
        if matches!(self.mode, Mode::AwaitingEdgeTypeChoice { .. }) {
            self.mode = Mode::Idle;
        }
    }

    /// Begin changing the kind of an existing edge (the context-menu
    /// path): wait for an edge-kind choice for it.
    pub fn begin_change_edge_type(&mut self, edge_id: u128, pos: Pt) -> (r: bool)
        requires
            old(self).wf(),
        ensures
            final(self).wf(),
            keeps_env(*old(self), *final(self)),
            keeps_sel(*old(self), *final(self)),
            final(self).map == old(self).map,
            final(self).dirty == old(self).dirty,
            r == has_edge_id(old(self).map.edges@, edge_id),
            r ==> final(self).mode == (Mode::AwaitingEdgeTypeChoice {
                pending: PendingEdge::ExistingEdge { id: edge_id },
                pos,
            }),
            !r ==> final(self).mode == old(self).mode,
    {
        if self.map.edge_index(edge_id).is_some() {
            self.mode = Mode::AwaitingEdgeTypeChoice {
                pending: PendingEdge::ExistingEdge { id: edge_id },
                pos,
            };
            true
        } else {
            false
        }
    }

    /// Manual save: save to the open project, or ask for a folder first.
    pub fn handle_save(&self) -> (r: Request)
        ensures
            match self.current_file {
                Some(p) => r matches Request::SaveTo { path } && path@ == p@,
                None => r is PickSaveFolder,
            },
    {
        match &self.current_file {
            Some(p) => Request::SaveTo { path: p.clone() },
            None => Request::PickSaveFolder,
        }
    }

    /// Whether the polled autosave should run now: there are unsaved
    /// changes and more than five seconds have passed since the last save.
    pub fn autosave_due(&self, now_ms: u64, last_save_ms: u64) -> (r: bool)
        requires
            last_save_ms <= now_ms,
        ensures
            r == (self.dirty && now_ms - last_save_ms > 5000),
    {
        self.dirty && now_ms - last_save_ms > 5000
    }

    /// A save was confirmed successful: clear the dirty flag.
    pub fn mark_saved(&mut self)
        requires
            old(self).wf(),
        ensures
            final(self).wf(),
            final(self).dirty == false,
            final(self).map == old(self).map,
            keeps_sel(*old(self), *final(self)),
            keeps_env(*old(self), *final(self)),
            final(self).mode == old(self).mode,
    {
        self.dirty = false;
    }

    /// A file was picked for import. With a project open the import may
    /// proceed (the caller extracts metadata and calls
    /// [`Self::finish_import`]); with none, prompt the user to create or
    /// open a project first and defer the import.
    pub fn begin_import(&mut self, path: String, pos: Pt) -> (proceed: bool)
        requires
            old(self).wf(),
        ensures
            final(self).wf(),
            keeps_env(*old(self), *final(self)),
            keeps_sel(*old(self), *final(self)),
            final(self).map == old(self).map,
            final(self).dirty == old(self).dirty,
            proceed == (old(self).current_file is Some),
            proceed ==> final(self).mode == old(self).mode,
            !proceed ==> ({
                &&& final(self).mode matches Mode::ProjectPrompt { pending_pdf }
                &&& pending_pdf@ == path@
            }),
    {
        if self.current_file.is_some() {
            true
        } else {
            self.mode = Mode::ProjectPrompt { pending_pdf: path };
            false
        }
    }

    /// Create the node for an imported document from the metadata the
    /// extraction collaborator returned. `None` only when the freshly
    /// drawn id is already in use (the graph is then unchanged): a failed
    /// extraction never reaches this point, so a failure there leaves the
    /// graph untouched.
    pub fn finish_import(
        &mut self,
        metadata: crate::metadata::Metadata,
        path: String,
        pos: Pt,
    ) -> (r: Option<u128>)
        requires
            old(self).wf(),
            crate::geom::pt_ok(pos),
        ensures
            final(self).wf(),
            keeps_env(*old(self), *final(self)),
            keeps_sel(*old(self), *final(self)),
            final(self).mode == old(self).mode,
            match r {
                Some(id) => {
                    &&& final(self).map.nodes@.len() == old(self).map.nodes@.len() + 1
                    &&& final(self).map.nodes@.subrange(0, old(self).map.nodes@.len() as int)
                        == old(self).map.nodes@
                    &&& final(self).map.edges@ == old(self).map.edges@
                    &&& final(self).map.nodes@.last().id == id
                    &&& final(self).map.nodes@.last().title@ == (if metadata.title@.len() == 0 {
                        path@
                    } else {
                        metadata.title@
                    })
                    &&& final(self).map.nodes@.last().metadata == Some(metadata)
                    &&& final(self).map.nodes@.last().path == Some(path)
                    &&& final(self).map.nodes@.last().x == pos.x
                    &&& final(self).map.nodes@.last().y == pos.y
                    &&& final(self).dirty == true
                },
                None => final(self).map == old(self).map && final(self).dirty == old(self).dirty,
            },
    {
        let r = self.map.add_pdf_node(metadata, path, pos.x, pos.y);
        if r.is_some() {
            self.dirty = true;
        }
        r
    }

    /// The user cancelled the create-project prompt: the deferred import
    /// is discarded without side effects.
    pub fn cancel_project_prompt(&mut self)
        requires
            old(self).wf(),
        ensures
            final(self).wf(),
            keeps_env(*old(self), *final(self)),
            keeps_sel(*old(self), *final(self)),
            final(self).map == old(self).map,
            final(self).dirty == old(self).dirty,
            old(self).mode is ProjectPrompt ==> final(self).mode == Mode::Idle,
            !(old(self).mode is ProjectPrompt) ==> final(self).mode == old(self).mode,
    {
        if matches!(self.mode, Mode::ProjectPrompt { .. }) {
            self.mode = Mode::Idle;
        }
    }

    /// A project directory was created or chosen: record it as the open
    /// project, and hand back the deferred import path if one was
    /// pending.
    pub fn project_created(&mut self, path: String) -> (r: Option<String>)
        requires
            old(self).wf(),
        ensures
            final(self).wf(),
            final(self).viewport == old(self).viewport,
            keeps_sel(*old(self), *final(self)),
            final(self).map == old(self).map,
            final(self).dirty == old(self).dirty,
            ({
                &&& final(self).current_file matches Some(p)
                &&& p@ == path@
            }),
            match old(self).mode {
                Mode::ProjectPrompt { pending_pdf } => final(self).mode == Mode::Idle && (
                r matches Some(pending) && pending@ == pending_pdf@),
                _ => final(self).mode == old(self).mode && r is None,
            },
    {
        self.current_file = Some(path);
        let pending: Option<String> = match &self.mode {
            Mode::ProjectPrompt { pending_pdf } => Some(pending_pdf.clone()),
            _ => None,
        };
        if pending.is_some() {
            self.mode = Mode::Idle;
        }
        pending
    }

    /// File > New: an empty unsaved graph, with the selection cleared and
    /// the interaction idle.
    pub fn new_map(&mut self)
        requires
            old(self).wf(),
        ensures
            final(self).wf(),
            final(self).map.nodes@.len() == 0,
            final(self).map.edges@.len() == 0,
            final(self).selected_nodes@.len() == 0,
            final(self).selected_edges@.len() == 0,
            final(self).mode == Mode::Idle,
            final(self).current_file is None,
            final(self).dirty == false,
            final(self).viewport == old(self).viewport,
    {
        self.map = MindMap::new();
        self.selected_nodes = Vec::new();
        self.selected_edges = Vec::new();
        self.mode = Mode::Idle;
        self.current_file = None;
        self.dirty = false;
    }

    /// Install a loaded graph as the open project. The selection is
    /// cleared, so it cannot name entities the new graph lacks.
    pub fn open_map(&mut self, map: MindMap, path: String)
        requires
            old(self).wf(),
            map.wf(),
        ensures
            final(self).wf(),
            final(self).map == map,
            final(self).selected_nodes@.len() == 0,
            final(self).selected_edges@.len() == 0,
            final(self).mode == Mode::Idle,
            ({
                &&& final(self).current_file matches Some(p)
                &&& p@ == path@
            }),
            final(self).dirty == false,
            final(self).viewport == old(self).viewport,
    {
        self.map = map;
        self.selected_nodes = Vec::new();
        self.selected_edges = Vec::new();
        self.mode = Mode::Idle;
        self.current_file = Some(path);
        self.dirty = false;
    }

    /// Drop every selected edge id that no longer names an edge of the
    /// graph.
    fn prune_edge_selection(&mut self)
        requires
            old(self).map.wf(),
            old(self).viewport.wf(),
            old(self).mode_wf(),
            ids_distinct(old(self).selected_edges@),
            ids_distinct(old(self).selected_nodes@),
            forall|i: int|
                0 <= i < old(self).selected_nodes@.len() ==> has_node_id(
                    old(self).map.nodes@,
                    #[trigger] old(self).selected_nodes@[i],
                ),
        ensures
            final(self).wf(),
            final(self).selected_edges@ == old(self).selected_edges@.filter(
                |x: u128| has_edge_id(old(self).map.edges@, x),
            ),
            final(self).selected_nodes@ == old(self).selected_nodes@,
            final(self).map == old(self).map,
            keeps_env(*old(self), *final(self)),
            final(self).mode == old(self).mode,
            final(self).dirty == old(self).dirty,
    {
        let ghost m = self.map;
        let ghost orig = self.selected_edges@;
        let ghost pred = |x: u128| has_edge_id(m.edges@, x);
        let mut i: usize = 0;
        let ghost mut k: int = 0;
        while i < self.selected_edges.len()
            invariant
                self.map == m,
                0 <= k <= orig.len(),
                i as int == orig.subrange(0, k).filter(pred).len(),
                self.selected_edges@ == orig.subrange(0, k).filter(pred) + orig.subrange(
                    k,
                    orig.len() as int,
                ),
                i <= self.selected_edges@.len(),
                pred == (|x: u128| has_edge_id(m.edges@, x)),
                self.selected_nodes@ == old(self).selected_nodes@,
                self.viewport == old(self).viewport,
                self.current_file == old(self).current_file,
                self.mode == old(self).mode,
                self.dirty == old(self).dirty,
            decreases self.selected_edges@.len() - i,
        {
            proof {
                assert(self.selected_edges@[i as int] == orig[k]);
            }
            let keep = self.map.edge_index(self.selected_edges[i]).is_some();
            if keep {
                proof {
                    lemma_filter_push(orig.subrange(0, k), orig[k], pred);
                    assert(orig.subrange(0, k + 1) =~= orig.subrange(0, k).push(orig[k]));
                    assert(self.selected_edges@ =~= orig.subrange(0, k + 1).filter(pred)
                        + orig.subrange(k + 1, orig.len() as int));
                }
                i = i + 1;
                proof {
                    k = k + 1;
                }
            } else {
                let _removed = self.selected_edges.remove(i);
                proof {
                    lemma_filter_push(orig.subrange(0, k), orig[k], pred);
                    assert(orig.subrange(0, k + 1) =~= orig.subrange(0, k).push(orig[k]));
                    assert(self.selected_edges@ =~= orig.subrange(0, k + 1).filter(pred)
                        + orig.subrange(k + 1, orig.len() as int));
                    k = k + 1;
                }
            }
        }
        proof {
            assert(orig.subrange(0, k) =~= orig);
            assert(self.selected_edges@ =~= orig.filter(pred));
            lemma_filter_elems(orig, pred);
            crate::map::lemma_filter_distinct_vals(orig, pred);
        }
    }

    /// Dismiss an open context menu (menu items that open a dialog close
    /// the menu before the dialog appears).
    pub fn close_context_menu(&mut self)
        requires
            old(self).wf(),
        ensures
            final(self).wf(),
            final(self).map == old(self).map,
            keeps_sel(*old(self), *final(self)),
            keeps_env(*old(self), *final(self)),
            final(self).dirty == old(self).dirty,
            final(self).mode == (if old(self).mode is ContextMenuOpen {
                Mode::Idle
            } else {
                old(self).mode
            }),
    {
        if matches!(self.mode, Mode::ContextMenuOpen { .. }) {
            self.mode = Mode::Idle;
        }
    }

    /// Delete the node with id `id` (the context-menu path): cascading
    /// edge removal, and the selections are purged of everything removed.
    pub fn delete_node(&mut self, id: u128)
        requires
            old(self).wf(),
        ensures
            final(self).wf(),
            final(self).map.nodes@ == old(self).map.nodes@.filter(|n: Node| n.id != id),
            final(self).map.edges@ == old(self).map.edges@.filter(
                |e: Edge| e.from != id && e.to != id,
            ),
            final(self).selected_nodes@ == old(self).selected_nodes@.filter(|x: u128| x != id),
            final(self).selected_edges@ == old(self).selected_edges@.filter(
                |x: u128| has_edge_id(final(self).map.edges@, x),
            ),
            final(self).dirty == true,
            keeps_env(*old(self), *final(self)),
            final(self).mode == (if old(self).mode is ContextMenuOpen {
                Mode::Idle
            } else {
                old(self).mode
            }),
    {
        if matches!(self.mode, Mode::ContextMenuOpen { .. }) {
            self.mode = Mode::Idle;
        }
        self.map.remove_node(id);
        id_vec_remove(&mut self.selected_nodes, id);
        proof {
            let pred = |x: u128| x != id;
            let f = old(self).selected_nodes@.filter(pred);
            lemma_filter_elems(old(self).selected_nodes@, pred);
            crate::map::lemma_filter_distinct_vals(old(self).selected_nodes@, pred);
            assert forall|i: int| 0 <= i < f.len() implies has_node_id(
                self.map.nodes@,
                #[trigger] f[i],
            ) by {
                assert(old(self).selected_nodes@.contains(f[i]) && f[i] != id);
                let j = choose|j: int|
                    0 <= j < old(self).selected_nodes@.len() && old(self).selected_nodes@[j]
                        == f[i];
                assert(has_node_id(old(self).map.nodes@, f[i]));
                let nj = choose|nj: int|
                    0 <= nj < old(self).map.nodes@.len() && (#[trigger] old(self).map.nodes@[nj]).id == f[i];
                old(self).map.nodes@.filter_lemma(|n: Node| n.id != id);
                assert(self.map.nodes@.contains(old(self).map.nodes@[nj]));
                let fk = choose|fk: int|
                    0 <= fk < self.map.nodes@.len() && self.map.nodes@[fk] == old(self).map.nodes@[nj];
                assert(self.map.nodes@[fk].id == f[i]);
            }
        }
        self.prune_edge_selection();
        self.dirty = true;
    }

    /// Delete the edge with id `id` (the context-menu path); it also
    /// leaves the edge selection.
    pub fn delete_edge(&mut self, id: u128)
        requires
            old(self).wf(),
        ensures
            final(self).wf(),
            final(self).map.nodes@ == old(self).map.nodes@,
            final(self).map.edges@ == old(self).map.edges@.filter(|e: Edge| e.id != id),
            final(self).selected_nodes@ == old(self).selected_nodes@,
            final(self).selected_edges@ == old(self).selected_edges@.filter(|x: u128| x != id),
            final(self).dirty == true,
            keeps_env(*old(self), *final(self)),
            final(self).mode == (if old(self).mode is ContextMenuOpen {
                Mode::Idle
            } else {
                old(self).mode
            }),
    {
        if matches!(self.mode, Mode::ContextMenuOpen { .. }) {
            self.mode = Mode::Idle;
        }
        self.map.remove_edge(id);
        id_vec_remove(&mut self.selected_edges, id);
        proof {
            let pred = |x: u128| x != id;
            let f = old(self).selected_edges@.filter(pred);
            lemma_filter_elems(old(self).selected_edges@, pred);
            crate::map::lemma_filter_distinct_vals(old(self).selected_edges@, pred);
            assert forall|i: int| 0 <= i < f.len() implies has_edge_id(
                self.map.edges@,
                #[trigger] f[i],
            ) by {
                assert(old(self).selected_edges@.contains(f[i]) && f[i] != id);
                let j = choose|j: int|
                    0 <= j < old(self).selected_edges@.len() && old(self).selected_edges@[j]
                        == f[i];
                assert(has_edge_id(old(self).map.edges@, f[i]));
                let nj = choose|nj: int|
                    0 <= nj < old(self).map.edges@.len() && (#[trigger] old(self).map.edges@[nj]).id == f[i];
                old(self).map.edges@.filter_lemma(|e: Edge| e.id != id);
                assert(self.map.edges@.contains(old(self).map.edges@[nj]));
                let fk = choose|fk: int|
                    0 <= fk < self.map.edges@.len() && self.map.edges@[fk] == old(self).map.edges@[nj];
                assert(self.map.edges@[fk].id == f[i]);
            }
        }
        self.dirty = true;
    }

    /// Apply or reset a node's override color (the color-picker path).
    pub fn apply_node_color(&mut self, id: u128, color: Option<crate::annotation::Rgba>) -> (r:
        bool)
        requires
            old(self).wf(),
        ensures
            final(self).wf(),
            r == has_node_id(old(self).map.nodes@, id),
            keeps_env(*old(self), *final(self)),
            keeps_sel(*old(self), *final(self)),
            final(self).mode == old(self).mode,
            r ==> {
                let i = node_idx(old(self).map.nodes@, id);
                &&& crate::edit::nodes_same_except(old(self).map, final(self).map, i)
                &&& crate::edit::node_same_but_color(
                    old(self).map.nodes@[i],
                    final(self).map.nodes@[i],
                )
                &&& final(self).map.nodes@[i].color == color
                &&& final(self).dirty == true
            },
            !r ==> final(self).map == old(self).map && final(self).dirty == old(self).dirty,
    {
        let r = self.map.set_node_color(id, color);
        if r {
            self.dirty = true;
        }
        r
    }

    /// Apply or reset an edge's override color (the color-picker path).
    pub fn apply_edge_color(&mut self, id: u128, color: Option<crate::annotation::Rgba>) -> (r:
        bool)
        requires
            old(self).wf(),
        ensures
            final(self).wf(),
            r == has_edge_id(old(self).map.edges@, id),
            keeps_env(*old(self), *final(self)),
            keeps_sel(*old(self), *final(self)),
            final(self).mode == old(self).mode,
            r ==> {
                let i = crate::map::edge_idx(old(self).map.edges@, id);
                &&& crate::edit::edges_same_except(old(self).map, final(self).map, i)
                &&& crate::edit::edge_same_but_color(
                    old(self).map.edges@[i],
                    final(self).map.edges@[i],
                )
                &&& final(self).map.edges@[i].color == color
                &&& final(self).dirty == true
            },
            !r ==> final(self).map == old(self).map && final(self).dirty == old(self).dirty,
    {
        let r = self.map.set_edge_color(id, color);
        if r {
            self.dirty = true;
        }
        r
    }

    /// Save the metadata-edit dialog's text fields: the node's title
    /// becomes the edited title, and its metadata block is replaced with
    /// that title, the comma-split, trimmed, non-empty author and keyword
    /// entries (order kept), the edited date, and an empty source path.
    pub fn save_edited_metadata_text(
        &mut self,
        node_id: u128,
        title: String,
        authors: &str,
        keywords: &str,
        date: String,
    ) -> (r: bool)
        requires
            old(self).wf(),
        ensures
            final(self).wf(),
            r == has_node_id(old(self).map.nodes@, node_id),
            keeps_env(*old(self), *final(self)),
            keeps_sel(*old(self), *final(self)),
            final(self).mode == old(self).mode,
            r ==> ({
                let i = node_idx(old(self).map.nodes@, node_id);
                &&& crate::edit::nodes_same_except(old(self).map, final(self).map, i)
                &&& crate::edit::node_same_but_metadata(
                    old(self).map.nodes@[i],
                    final(self).map.nodes@[i],
                )
                &&& final(self).map.nodes@[i].title@ == title@
                &&& final(self).map.nodes@[i].metadata matches Some(m)
                &&& ({
                    &&& final(self).map.nodes@[i].metadata.unwrap().title@ == title@
                    &&& crate::metadata::strings_view(
                        final(self).map.nodes@[i].metadata.unwrap().authors@,
                    ) == crate::metadata::comma_fields(authors@)
                    &&& crate::metadata::strings_view(
                        final(self).map.nodes@[i].metadata.unwrap().keywords@,
                    ) == crate::metadata::comma_fields(keywords@)
                    &&& final(self).map.nodes@[i].metadata.unwrap().date@ == date@
                    &&& final(self).map.nodes@[i].metadata.unwrap().path@.len() == 0
                })
                &&& final(self).dirty == true
            }),
            !r ==> final(self).map == old(self).map && final(self).dirty == old(self).dirty,
    {
        let metadata = crate::metadata::Metadata {
            title,
            authors: crate::metadata::parse_name_list(authors),
            keywords: crate::metadata::parse_name_list(keywords),
            date,
            path: String::new(),
        };
        let r = self.map.set_node_metadata(node_id, metadata);
        if r {
            self.dirty = true;
        }
        r
    }

    /// Save edited node metadata: the node's title becomes the metadata's
    /// title, and the metadata block is replaced.
    pub fn save_edited_metadata(&mut self, node_id: u128, metadata: crate::metadata::Metadata) -> (
        r: bool)
        requires
            old(self).wf(),
        ensures
            final(self).wf(),
            r == has_node_id(old(self).map.nodes@, node_id),
            keeps_env(*old(self), *final(self)),
            keeps_sel(*old(self), *final(self)),
            final(self).mode == old(self).mode,
            r ==> {
                let i = node_idx(old(self).map.nodes@, node_id);
                &&& crate::edit::nodes_same_except(old(self).map, final(self).map, i)
                &&& crate::edit::node_same_but_metadata(
                    old(self).map.nodes@[i],
                    final(self).map.nodes@[i],
                )
                &&& final(self).map.nodes@[i].title@ == metadata.title@
                &&& final(self).map.nodes@[i].metadata == Some(metadata)
                &&& final(self).dirty == true
            },
            !r ==> final(self).map == old(self).map && final(self).dirty == old(self).dirty,
    {
        let r = self.map.set_node_metadata(node_id, metadata);
        if r {
            self.dirty = true;
        }
        r
    }
}


impl MindMapApp {
    /// Add or update an annotation on the node or edge with id
    /// `target_id`. With `edit_id` given, that annotation's editable
    /// fields are replaced (id and creation timestamp are kept), and the
    /// call succeeds exactly when the target and that annotation exist;
    /// otherwise a new annotation with a fresh id and the current
    /// timestamp is attached, which fails only when the target is absent
    /// or the freshly drawn id collides with one already on the target's
    /// list. Returns whether anything was written; the graph is then
    /// marked dirty.
    pub fn save_annotation(
        &mut self,
        target_id: u128,
        edit_id: Option<u128>,
        annotation_type: crate::annotation::AnnotationType,
        title: String,
        content: String,
        page_number: Option<u32>,
    ) -> (r: bool)
        requires
            old(self).wf(),
        ensures
            final(self).wf(),
            keeps_env(*old(self), *final(self)),
            keeps_sel(*old(self), *final(self)),
            final(self).mode == old(self).mode,
            final(self).map.nodes@.len() == old(self).map.nodes@.len(),
            final(self).map.edges@.len() == old(self).map.edges@.len(),
            !r ==> final(self).map == old(self).map && final(self).dirty == old(self).dirty,
            r ==> final(self).dirty == true,
            r && has_node_id(old(self).map.nodes@, target_id) ==> ({
                let i = node_idx(old(self).map.nodes@, target_id);
                let anns = old(self).map.nodes@[i].annotations@;
                &&& crate::edit::nodes_same_except(old(self).map, final(self).map, i)
                &&& crate::edit::node_same_but_annotations(
                    old(self).map.nodes@[i],
                    final(self).map.nodes@[i],
                )
                &&& (match edit_id {
                    Some(aid) => {
                        let k = crate::edit::ann_first_idx(anns, aid);
                        &&& final(self).map.nodes@[i].annotations@.len() == anns.len()
                        &&& crate::edit::ann_updated(
                            anns[k],
                            final(self).map.nodes@[i].annotations@[k],
                            annotation_type,
                            title@,
                            content@,
                            page_number,
                        )
                    },
                    None => {
                        let nanns = final(self).map.nodes@[i].annotations@;
                        &&& nanns.len() == anns.len() + 1
                        &&& nanns.subrange(0, anns.len() as int) == anns
                        &&& nanns.last().annotation_type == annotation_type
                        &&& nanns.last().title@ == title@
                        &&& nanns.last().content@ == content@
                        &&& nanns.last().page_number == page_number
                    },
                })
            }),
            r && !has_node_id(old(self).map.nodes@, target_id) && has_edge_id(
                old(self).map.edges@,
                target_id,
            ) ==> ({
                let i = crate::map::edge_idx(old(self).map.edges@, target_id);
                let anns = old(self).map.edges@[i].annotations@;
                &&& crate::edit::edges_same_except(old(self).map, final(self).map, i)
                &&& crate::edit::edge_same_but_annotations(
                    old(self).map.edges@[i],
                    final(self).map.edges@[i],
                )
                &&& (match edit_id {
                    Some(aid) => {
                        let k = crate::edit::ann_first_idx(anns, aid);
                        &&& final(self).map.edges@[i].annotations@.len() == anns.len()
                        &&& crate::edit::ann_updated(
                            anns[k],
                            final(self).map.edges@[i].annotations@[k],
                            annotation_type,
                            title@,
                            content@,
                            page_number,
                        )
                    },
                    None => {
                        let nanns = final(self).map.edges@[i].annotations@;
                        &&& nanns.len() == anns.len() + 1
                        &&& nanns.subrange(0, anns.len() as int) == anns
                        &&& nanns.last().annotation_type == annotation_type
                        &&& nanns.last().title@ == title@
                        &&& nanns.last().content@ == content@
                        &&& nanns.last().page_number == page_number
                    },
                })
            }),
            !has_node_id(old(self).map.nodes@, target_id) && !has_edge_id(
                old(self).map.edges@,
                target_id,
            ) ==> !r,
            edit_id matches Some(aid) ==> r == (if has_node_id(old(self).map.nodes@, target_id) {
                crate::edit::has_ann_id(
                    old(self).map.nodes@[node_idx(old(self).map.nodes@, target_id)].annotations@,
                    aid,
                )
            } else {
                has_edge_id(old(self).map.edges@, target_id) && crate::edit::has_ann_id(
                    old(self).map.edges@[crate::map::edge_idx(
                        old(self).map.edges@,
                        target_id,
                    )].annotations@,
                    aid,
                )
            }),
    {
        let is_node = self.map.node_index(target_id).is_some();
        let r = match edit_id {
            Some(aid) => {
                if is_node {
                    self.map.node_update_annotation(
                        target_id,
                        aid,
                        annotation_type,
                        title,
                        content,
                        page_number,
                    )
                } else {
                    self.map.edge_update_annotation(
                        target_id,
                        aid,
                        annotation_type,
                        title,
                        content,
                        page_number,
                    )
                }
            },
            None => {
                let a = crate::annotation::Annotation {
                    id: crate::map::fresh_id_candidate(),
                    annotation_type,
                    title,
                    content,
                    created_at: now_string(),
                    page_number,
                };
                if is_node {
                    self.map.node_add_annotation(target_id, a)
                } else {
                    self.map.edge_add_annotation(target_id, a)
                }
            },
        };
        if r {
            self.dirty = true;
        }
        r
    }

    /// Add or update a tag on the node with id `node_id`. With `edit_id`
    /// given, that tag's name and color are replaced, and the call
    /// succeeds exactly when the node and that tag exist; otherwise a new
    /// tag with a fresh id is attached, which fails only when the node is
    /// absent or the freshly drawn id collides with one already on its
    /// list. Returns whether anything was written; the graph is then
    /// marked dirty.
    pub fn save_tag(
        &mut self,
        node_id: u128,
        edit_id: Option<u128>,
        name: String,
        color: crate::annotation::Rgba,
    ) -> (r: bool)
        requires
            old(self).wf(),
        ensures
            final(self).wf(),
            keeps_env(*old(self), *final(self)),
            keeps_sel(*old(self), *final(self)),
            final(self).mode == old(self).mode,
            !r ==> final(self).map == old(self).map && final(self).dirty == old(self).dirty,
            r ==> final(self).dirty == true,
            !has_node_id(old(self).map.nodes@, node_id) ==> !r,
            edit_id matches Some(tid) ==> r == (has_node_id(old(self).map.nodes@, node_id)
                && crate::edit::has_tag_id(
                old(self).map.nodes@[node_idx(old(self).map.nodes@, node_id)].tags@,
                tid,
            )),
            r ==> ({
                let i = node_idx(old(self).map.nodes@, node_id);
                let tags = old(self).map.nodes@[i].tags@;
                &&& crate::edit::nodes_same_except(old(self).map, final(self).map, i)
                &&& crate::edit::node_same_but_tags(
                    old(self).map.nodes@[i],
                    final(self).map.nodes@[i],
                )
                &&& (match edit_id {
                    Some(tid) => {
                        let k = crate::edit::tag_first_idx(tags, tid);
                        &&& final(self).map.nodes@[i].tags@.len() == tags.len()
                        &&& final(self).map.nodes@[i].tags@[k].id == tid
                        &&& final(self).map.nodes@[i].tags@[k].name@ == name@
                        &&& final(self).map.nodes@[i].tags@[k].color == color
                    },
                    None => {
                        let ntags = final(self).map.nodes@[i].tags@;
                        &&& ntags.len() == tags.len() + 1
                        &&& ntags.subrange(0, tags.len() as int) == tags
                        &&& ntags.last().name@ == name@
                        &&& ntags.last().color == color
                    },
                })
            }),
    {
        let r = match edit_id {
            Some(tid) => self.map.node_update_tag(node_id, tid, name, color),
            None => {
                let t = crate::map::Tag { id: crate::map::fresh_id_candidate(), name, color };
                self.map.node_add_tag(node_id, t)
            },
        };
        if r {
            self.dirty = true;
        }
        r
    }
}


impl MindMapApp {
    /// Pan and zoom handling: a middle-button drag accumulates its raw
    /// screen delta into the pan (shift+primary drag is reserved for
    /// additive selection, not panning), and a scroll zoom applies its
    /// multiplicative delta, clamped to [1/10, 5], anchored at the
    /// pointer. The contract pins both phases exactly through the
    /// viewport's lowest-terms forms: the result is `true` exactly when
    /// every new pan and zoom fits the fraction bounds, and a failing
    /// phase changes nothing.
    pub fn handle_navigation(
        &mut self,
        middle_drag: Option<Pt>,
        zoom_event: Option<(crate::viewport::Frac, Pt)>,
    ) -> (r: bool)
        requires
            old(self).wf(),
            middle_drag matches Some(d) ==> -crate::viewport::SCREEN_LIMIT <= d.x
                <= crate::viewport::SCREEN_LIMIT && -crate::viewport::SCREEN_LIMIT <= d.y
                <= crate::viewport::SCREEN_LIMIT,
            zoom_event matches Some((delta, p)) ==> crate::viewport::frac_wf(delta) && 0
                < delta.num && delta.num <= crate::viewport::DEN_LIMIT
                && -crate::viewport::SCREEN_LIMIT <= p.x <= crate::viewport::SCREEN_LIMIT
                && -crate::viewport::SCREEN_LIMIT <= p.y <= crate::viewport::SCREEN_LIMIT,
        ensures
            final(self).wf(),
            final(self).map == old(self).map,
            keeps_sel(*old(self), *final(self)),
            final(self).mode == old(self).mode,
            final(self).current_file == old(self).current_file,
            final(self).dirty == old(self).dirty,
            ({
                let vp0 = old(self).viewport;
                let pan_ok = match middle_drag {
                    None => true,
                    Some(d) => nav_pan_fits(vp0, d),
                };
                let px1 = match middle_drag {
                    None => vp0.pan_x@,
                    Some(d) => if nav_pan_fits(vp0, d) {
                        crate::viewport::reduced_frac_of(
                            vp0.pan_x@.n + d.x * vp0.pan_x@.d,
                            vp0.pan_x@.d,
                        )
                    } else {
                        vp0.pan_x@
                    },
                };
                let py1 = match middle_drag {
                    None => vp0.pan_y@,
                    Some(d) => if nav_pan_fits(vp0, d) {
                        crate::viewport::reduced_frac_of(
                            vp0.pan_y@.n + d.y * vp0.pan_y@.d,
                            vp0.pan_y@.d,
                        )
                    } else {
                        vp0.pan_y@
                    },
                };
                let zoom_ok = match zoom_event {
                    None => true,
                    Some((delta, p)) => nav_zoom_fits(px1, py1, vp0.zoom@, delta@, p),
                };
                &&& r == (pan_ok && zoom_ok)
                &&& final(self).viewport.zoom@ == (match zoom_event {
                    None => vp0.zoom@,
                    Some((delta, p)) => if nav_zoom_fits(px1, py1, vp0.zoom@, delta@, p) {
                        let z = crate::viewport::rat_mul(
                            vp0.zoom@,
                            crate::viewport::clamp_delta(delta@),
                        );
                        crate::viewport::reduced_frac_of(z.n, z.d)
                    } else {
                        vp0.zoom@
                    },
                })
                &&& final(self).viewport.pan_x@ == (match zoom_event {
                    None => px1,
                    Some((delta, p)) => if nav_zoom_fits(px1, py1, vp0.zoom@, delta@, p) {
                        let px = crate::viewport::zoom_step_pan(
                            px1,
                            crate::viewport::clamp_delta(delta@),
                            p.x as int,
                        );
                        crate::viewport::reduced_frac_of(px.n, px.d)
                    } else {
                        px1
                    },
                })
                &&& final(self).viewport.pan_y@ == (match zoom_event {
                    None => py1,
                    Some((delta, p)) => if nav_zoom_fits(px1, py1, vp0.zoom@, delta@, p) {
                        let py = crate::viewport::zoom_step_pan(
                            py1,
                            crate::viewport::clamp_delta(delta@),
                            p.y as int,
                        );
                        crate::viewport::reduced_frac_of(py.n, py.d)
                    } else {
                        py1
                    },
                })
            }),
    {
        let mut ok = true;
        match middle_drag {
            Some(d) => {
                ok = self.viewport.pan_by(d.x, d.y) && ok;
            },
            None => {},
        }
        match zoom_event {
            Some((delta, p)) => {
                ok = self.viewport.zoom_at(delta, p) && ok;
            },
            None => {},
        }
        ok
    }
}

/// Whether a pan by `d` keeps both pan fractions within the viewport's
/// bounds in lowest terms.
pub open spec fn nav_pan_fits(vp: crate::viewport::Viewport, d: Pt) -> bool {
    &&& crate::viewport::reduced_fits(vp.pan_x@.n + d.x * vp.pan_x@.d, vp.pan_x@.d)
    &&& crate::viewport::reduced_fits(vp.pan_y@.n + d.y * vp.pan_y@.d, vp.pan_y@.d)
}

/// Whether a zoom by `delta` at pointer `p`, over pans `px`/`py` and zoom
/// `z`, keeps the new zoom within its value range and every new fraction
/// within the bounds in lowest terms.
pub open spec fn nav_zoom_fits(
    px: crate::viewport::Rat,
    py: crate::viewport::Rat,
    z: crate::viewport::Rat,
    delta: crate::viewport::Rat,
    p: Pt,
) -> bool {
    let cd = crate::viewport::clamp_delta(delta);
    let zn = crate::viewport::rat_mul(z, cd);
    let sx = crate::viewport::zoom_step_pan(px, cd, p.x as int);
    let sy = crate::viewport::zoom_step_pan(py, cd, p.y as int);
    &&& zn.n <= crate::viewport::ZOOM_VALUE_LIMIT * zn.d
    &&& zn.d <= crate::viewport::ZOOM_VALUE_LIMIT * zn.n
    &&& crate::viewport::reduced_fits(zn.n, zn.d)
    &&& crate::viewport::reduced_fits(sx.n, sx.d)
    &&& crate::viewport::reduced_fits(sy.n, sy.d)
}

} // verus!
