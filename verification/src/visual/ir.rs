//! Visualisation IR: graphs and charts keyed by visual identity and semantic reference.
//!
//! Geometry is kept as integers: a graph node holds its place on the ring layout
//! (`layout_slot` of `layout_ring` places), an edge its weight and a chart datum
//! its value as the bit pattern of an `f32`. The renderer turns them into floats.
use vstd::prelude::*;

use super::command::VisualObjectId;
use crate::refs::{clone_refs};

verus! {

#[derive(Debug, Clone, PartialEq, Eq)]
pub struct VisualNode {
    pub id: VisualObjectId,
    pub semantic_ref: String,
    pub kind: String,
    pub label: String,
    pub source_refs: Vec<String>,
    pub provenance_refs: Vec<String>,
    pub hidden: bool,
    /// The node's place on the ring layout.
    pub layout_slot: u64,
    /// How many places the ring layout has.
    pub layout_ring: u64,
}

#[derive(Debug, Clone, PartialEq, Eq)]
pub struct VisualEdge {
    pub id: VisualObjectId,
    pub from: VisualObjectId,
    pub to: VisualObjectId,
    pub semantic_ref: String,
    pub kind: String,
    pub source_refs: Vec<String>,
    pub provenance_refs: Vec<String>,
    pub hidden: bool,
    /// The edge weight, as the bit pattern of an `f32`.
    pub weight_bits: u32,
}

#[derive(Debug, Clone, PartialEq, Eq)]
pub struct GraphIr {
    pub graph_ref: String,
    pub derived_only: bool,
    pub challengeable: bool,
    pub nodes: Vec<VisualNode>,
    pub edges: Vec<VisualEdge>,
}

#[derive(Debug, Clone, PartialEq, Eq)]
pub struct ChartDatum {
    pub id: VisualObjectId,
    pub semantic_ref: String,
    pub label: String,
    /// The datum's value, as the bit pattern of an `f32`.
    pub value_bits: u32,
}

#[derive(Debug, Clone, PartialEq, Eq)]
pub struct ChartIr {
    pub data: Vec<ChartDatum>,
}

#[derive(Debug, Clone, PartialEq, Eq)]
pub enum VisualisationIr {
    Graph(GraphIr),
    Chart(ChartIr),
}

/// What a panel shows about one visual object when it is inspected.
#[derive(Debug, Clone, PartialEq, Eq)]
pub struct VisualObjectInspection {
    pub object_id: VisualObjectId,
    pub semantic_ref: String,
    pub kind: String,
    pub label: String,
    pub source_refs: Vec<String>,
    pub provenance_refs: Vec<String>,
    pub hidden: bool,
    pub is_edge: bool,
}

/// Whether an `f32` bit pattern is a NaN: every exponent bit set, a non-zero mantissa.
pub open spec fn f32_bits_nan(b: u32) -> bool {
    b & 0x7f80_0000u32 == 0x7f80_0000u32 && b & 0x007f_ffffu32 != 0
}

/// IEEE equality of two `f32` values given by their bit patterns: zeros of either
/// sign are equal, a NaN equals nothing, any other value only itself.
pub open spec fn f32_bits_eq(a: u32, b: u32) -> bool {
    (a & 0x7fff_ffffu32 == 0 && b & 0x7fff_ffffu32 == 0) || (!f32_bits_nan(a) && !f32_bits_nan(b) && a == b)
}

/// `==` on the two `f32` values whose bit patterns are `a` and `b`.
pub fn f32_bits_equal(a: u32, b: u32) -> (e: bool)
    ensures
        e == f32_bits_eq(a, b),
{
    let a_nan = a & 0x7f80_0000u32 == 0x7f80_0000u32 && a & 0x007f_ffffu32 != 0;
    let b_nan = b & 0x7f80_0000u32 == 0x7f80_0000u32 && b & 0x007f_ffffu32 != 0;
    (a & 0x7fff_ffffu32 == 0 && b & 0x7fff_ffffu32 == 0) || (!a_nan && !b_nan && a == b)
}

/// A node as a mathematical value.
pub struct NodeView {
    pub id: VisualObjectId,
    pub semantic_ref: Seq<char>,
    pub kind: Seq<char>,
    pub label: Seq<char>,
    pub source_refs: Seq<Seq<char>>,
    pub provenance_refs: Seq<Seq<char>>,
    pub hidden: bool,
    pub layout_slot: u64,
    pub layout_ring: u64,
}

/// An edge as a mathematical value.
pub struct EdgeView {
    pub id: VisualObjectId,
    pub from: VisualObjectId,
    pub to: VisualObjectId,
    pub semantic_ref: Seq<char>,
    pub kind: Seq<char>,
    pub source_refs: Seq<Seq<char>>,
    pub provenance_refs: Seq<Seq<char>>,
    pub hidden: bool,
    pub weight_bits: u32,
}

/// A graph as a mathematical value.
pub struct GraphView {
    pub graph_ref: Seq<char>,
    pub derived_only: bool,
    pub challengeable: bool,
    pub nodes: Seq<NodeView>,
    pub edges: Seq<EdgeView>,
}

pub struct InspectionView {
    pub object_id: VisualObjectId,
    pub semantic_ref: Seq<char>,
    pub kind: Seq<char>,
    pub label: Seq<char>,
    pub source_refs: Seq<Seq<char>>,
    pub provenance_refs: Seq<Seq<char>>,
    pub hidden: bool,
    pub is_edge: bool,
}

impl View for VisualNode {
    type V = NodeView;

    open spec fn view(&self) -> NodeView {
        NodeView {
            id: self.id,
            semantic_ref: self.semantic_ref@,
            kind: self.kind@,
            label: self.label@,
            source_refs: self.source_refs.deep_view(),
            provenance_refs: self.provenance_refs.deep_view(),
            hidden: self.hidden,
            layout_slot: self.layout_slot,
            layout_ring: self.layout_ring,
        }
    }
}

impl View for VisualEdge {
    type V = EdgeView;

    open spec fn view(&self) -> EdgeView {
        EdgeView {
            id: self.id,
            from: self.from,
            to: self.to,
            semantic_ref: self.semantic_ref@,
            kind: self.kind@,
            source_refs: self.source_refs.deep_view(),
            provenance_refs: self.provenance_refs.deep_view(),
            hidden: self.hidden,
            weight_bits: self.weight_bits,
        }
    }
}

pub open spec fn node_views(nodes: Seq<VisualNode>) -> Seq<NodeView> {
    nodes.map_values(|n: VisualNode| n@)
}

pub open spec fn edge_views(edges: Seq<VisualEdge>) -> Seq<EdgeView> {
    edges.map_values(|e: VisualEdge| e@)
}

impl View for GraphIr {
    type V = GraphView;

    open spec fn view(&self) -> GraphView {
        GraphView {
            graph_ref: self.graph_ref@,
            derived_only: self.derived_only,
            challengeable: self.challengeable,
            nodes: node_views(self.nodes@),
            edges: edge_views(self.edges@),
        }
    }
}

impl View for VisualObjectInspection {
    type V = InspectionView;

    open spec fn view(&self) -> InspectionView {
        InspectionView {
            object_id: self.object_id,
            semantic_ref: self.semantic_ref@,
            kind: self.kind@,
            label: self.label@,
            source_refs: self.source_refs.deep_view(),
            provenance_refs: self.provenance_refs.deep_view(),
            hidden: self.hidden,
            is_edge: self.is_edge,
        }
    }
}

/// The last node that carries semantic reference `r` (later nodes overwrite earlier ones).
pub open spec fn node_by_ref(nodes: Seq<NodeView>, r: Seq<char>) -> Option<NodeView>
    decreases nodes.len(),
{
    if nodes.len() == 0 {
        None
    } else if nodes.last().semantic_ref == r {
        Some(nodes.last())
    } else {
        node_by_ref(nodes.drop_last(), r)
    }
}

/// The last edge that carries semantic reference `r`.
pub open spec fn edge_by_ref(edges: Seq<EdgeView>, r: Seq<char>) -> Option<EdgeView>
    decreases edges.len(),
{
    if edges.len() == 0 {
        None
    } else if edges.last().semantic_ref == r {
        Some(edges.last())
    } else {
        edge_by_ref(edges.drop_last(), r)
    }
}

/// The first node with visual id `id`.
pub open spec fn node_by_id(nodes: Seq<NodeView>, id: VisualObjectId) -> Option<NodeView>
    decreases nodes.len(),
{
    if nodes.len() == 0 {
        None
    } else if nodes[0].id == id {
        Some(nodes[0])
    } else {
        node_by_id(nodes.drop_first(), id)
    }
}

/// The first edge with visual id `id`.
pub open spec fn edge_by_id(edges: Seq<EdgeView>, id: VisualObjectId) -> Option<EdgeView>
    decreases edges.len(),
{
    if edges.len() == 0 {
        None
    } else if edges[0].id == id {
        Some(edges[0])
    } else {
        edge_by_id(edges.drop_first(), id)
    }
}

/// The last node with visual id `id`.
pub open spec fn last_node_by_id(nodes: Seq<NodeView>, id: VisualObjectId) -> Option<NodeView>
    decreases nodes.len(),
{
    if nodes.len() == 0 {
        None
    } else if nodes.last().id == id {
        Some(nodes.last())
    } else {
        last_node_by_id(nodes.drop_last(), id)
    }
}

/// A node's id finds a node: the last one with that id.
pub proof fn lemma_last_node_by_id_found(nodes: Seq<NodeView>, k: int)
    requires
        0 <= k < nodes.len(),
    ensures
        last_node_by_id(nodes, nodes[k].id) is Some,
    decreases nodes.len(),
{
    if nodes.last().id != nodes[k].id {
        lemma_last_node_by_id_found(nodes.drop_last(), k);
    }
}

pub open spec fn node_inspection(n: NodeView) -> InspectionView {
    InspectionView {
        object_id: n.id,
        semantic_ref: n.semantic_ref,
        kind: n.kind,
        label: n.label,
        source_refs: n.source_refs,
        provenance_refs: n.provenance_refs,
        hidden: n.hidden,
        is_edge: false,
    }
}

pub open spec fn edge_inspection(e: EdgeView) -> InspectionView {
    InspectionView {
        object_id: e.id,
        semantic_ref: e.semantic_ref,
        kind: e.kind,
        label: e.semantic_ref,
        source_refs: e.source_refs,
        provenance_refs: e.provenance_refs,
        hidden: e.hidden,
        is_edge: true,
    }
}

/// What inspecting visual id `id` in graph `g` shows: the first node with that id,
/// else the first edge with it, else nothing.
pub open spec fn inspected(g: GraphView, id: VisualObjectId) -> Option<InspectionView> {
    match node_by_id(g.nodes, id) {
        Some(n) => Some(node_inspection(n)),
        None => match edge_by_id(g.edges, id) {
            Some(e) => Some(edge_inspection(e)),
            None => None,
        },
    }
}

pub fn clone_node(n: &VisualNode) -> (c: VisualNode)
    ensures
        c@ == n@,
{
    VisualNode {
        id: n.id,
        semantic_ref: n.semantic_ref.clone(),
        kind: n.kind.clone(),
        label: n.label.clone(),
        source_refs: clone_refs(&n.source_refs),
        provenance_refs: clone_refs(&n.provenance_refs),
        hidden: n.hidden,
        layout_slot: n.layout_slot,
        layout_ring: n.layout_ring,
    }
}

pub fn clone_edge(e: &VisualEdge) -> (c: VisualEdge)
    ensures
        c@ == e@,
{
    VisualEdge {
        id: e.id,
        from: e.from,
        to: e.to,
        semantic_ref: e.semantic_ref.clone(),
        kind: e.kind.clone(),
        source_refs: clone_refs(&e.source_refs),
        provenance_refs: clone_refs(&e.provenance_refs),
        hidden: e.hidden,
        weight_bits: e.weight_bits,
    }
}

/// Index of the last node whose semantic reference is `r`.
pub fn find_node_by_ref(nodes: &Vec<VisualNode>, r: &str) -> (i: Option<usize>)
    ensures
        match i {
            Some(k) => k < nodes@.len() && node_by_ref(node_views(nodes@), r@) == Some(nodes@[k as int]@),
            None => node_by_ref(node_views(nodes@), r@) is None,
        },
{
    let ghost all = node_views(nodes@);
    let mut i: usize = nodes.len();
    assert(all.subrange(0, i as int) =~= all);
    while i > 0
        invariant
            i <= nodes@.len(),
            all == node_views(nodes@),
            node_by_ref(all, r@) == node_by_ref(all.subrange(0, i as int), r@),
        decreases i,
    {
        let ghost pre = all.subrange(0, i as int);
        if nodes[i - 1].semantic_ref == r.to_owned() {
            assert(pre.last() == nodes@[i - 1]@);
            return Some(i - 1);
        }
        assert(pre.drop_last() =~= all.subrange(0, i - 1));
        i = i - 1;
    }
    assert(all.subrange(0, 0).len() == 0);
    None
}

/// Index of the last edge whose semantic reference is `r`.
pub fn find_edge_by_ref(edges: &Vec<VisualEdge>, r: &str) -> (i: Option<usize>)
    ensures
        match i {
            Some(k) => k < edges@.len() && edge_by_ref(edge_views(edges@), r@) == Some(edges@[k as int]@),
            None => edge_by_ref(edge_views(edges@), r@) is None,
        },
{
    let ghost all = edge_views(edges@);
    let mut i: usize = edges.len();
    assert(all.subrange(0, i as int) =~= all);
    while i > 0
        invariant
            i <= edges@.len(),
            all == edge_views(edges@),
            edge_by_ref(all, r@) == edge_by_ref(all.subrange(0, i as int), r@),
        decreases i,
    {
        let ghost pre = all.subrange(0, i as int);
        if edges[i - 1].semantic_ref == r.to_owned() {
            assert(pre.last() == edges@[i - 1]@);
            return Some(i - 1);
        }
        assert(pre.drop_last() =~= all.subrange(0, i - 1));
        i = i - 1;
    }
    assert(all.subrange(0, 0).len() == 0);
    None
}

/// Index of the first node with visual id `id`.
pub fn find_node_by_id(nodes: &Vec<VisualNode>, id: VisualObjectId) -> (i: Option<usize>)
    ensures
        match i {
            Some(k) => k < nodes@.len() && node_by_id(node_views(nodes@), id) == Some(nodes@[k as int]@),
            None => node_by_id(node_views(nodes@), id) is None,
        },
{
    let ghost all = node_views(nodes@);
    let mut i: usize = 0;
    assert(all.subrange(0, all.len() as int) =~= all);
    while i < nodes.len()
        invariant
            i <= nodes@.len(),
            all == node_views(nodes@),
            node_by_id(all, id) == node_by_id(all.subrange(i as int, all.len() as int), id),
        decreases nodes@.len() - i,
    {
        let ghost rest = all.subrange(i as int, all.len() as int);
        if nodes[i].id == id {
            assert(rest[0] == nodes@[i as int]@);
            return Some(i);
        }
        assert(rest.drop_first() =~= all.subrange(i + 1, all.len() as int));
        i = i + 1;
    }
    assert(all.subrange(i as int, all.len() as int).len() == 0);
    None
}

/// Index of the first edge with visual id `id`.
pub fn find_edge_by_id(edges: &Vec<VisualEdge>, id: VisualObjectId) -> (i: Option<usize>)
    ensures
        match i {
            Some(k) => k < edges@.len() && edge_by_id(edge_views(edges@), id) == Some(edges@[k as int]@),
            None => edge_by_id(edge_views(edges@), id) is None,
        },
{
    let ghost all = edge_views(edges@);
    let mut i: usize = 0;
    assert(all.subrange(0, all.len() as int) =~= all);
    while i < edges.len()
        invariant
            i <= edges@.len(),
            all == edge_views(edges@),
            edge_by_id(all, id) == edge_by_id(all.subrange(i as int, all.len() as int), id),
        decreases edges@.len() - i,
    {
        let ghost rest = all.subrange(i as int, all.len() as int);
        if edges[i].id == id {
            assert(rest[0] == edges@[i as int]@);
            return Some(i);
        }
        assert(rest.drop_first() =~= all.subrange(i + 1, all.len() as int));
        i = i + 1;
    }
    assert(all.subrange(i as int, all.len() as int).len() == 0);
    None
}

/// Index of the last node with visual id `id`.
pub fn find_last_node_by_id(nodes: &Vec<VisualNode>, id: VisualObjectId) -> (i: Option<usize>)
    ensures
        match i {
            Some(k) => k < nodes@.len() && last_node_by_id(node_views(nodes@), id) == Some(nodes@[k as int]@),
            None => last_node_by_id(node_views(nodes@), id) is None,
        },
{
    let ghost all = node_views(nodes@);
    let mut i: usize = nodes.len();
    assert(all.subrange(0, i as int) =~= all);
    while i > 0
        invariant
            i <= nodes@.len(),
            all == node_views(nodes@),
            last_node_by_id(all, id) == last_node_by_id(all.subrange(0, i as int), id),
        decreases i,
    {
        let ghost pre = all.subrange(0, i as int);
        if nodes[i - 1].id == id {
            assert(pre.last() == nodes@[i - 1]@);
            return Some(i - 1);
        }
        assert(pre.drop_last() =~= all.subrange(0, i - 1));
        i = i - 1;
    }
    assert(all.subrange(0, 0).len() == 0);
    None
}

impl GraphIr {
    /// The first node with visual id `id`.
    pub fn node(&self, id: VisualObjectId) -> (n: Option<&VisualNode>)
        ensures
            match n {
                Some(n) => node_by_id(self@.nodes, id) == Some(n@),
                None => node_by_id(self@.nodes, id) is None,
            },
    {
        match find_node_by_id(&self.nodes, id) {
            Some(k) => Some(&self.nodes[k]),
            None => None,
        }
    }

    /// What a panel shows for visual id `id`, if the graph draws such an object.
    pub fn inspect_object(&self, id: VisualObjectId) -> (r: Option<VisualObjectInspection>)
        ensures
            match r {
                Some(r) => inspected(self@, id) == Some(r@),
                None => inspected(self@, id) is None,
            },
    {
        match find_node_by_id(&self.nodes, id) {
            Some(k) => {
                let n = &self.nodes[k];
                Some(VisualObjectInspection {
                    object_id: n.id,
                    semantic_ref: n.semantic_ref.clone(),
                    kind: n.kind.clone(),
                    label: n.label.clone(),
                    source_refs: clone_refs(&n.source_refs),
                    provenance_refs: clone_refs(&n.provenance_refs),
                    hidden: n.hidden,
                    is_edge: false,
                })
            },
            None => match find_edge_by_id(&self.edges, id) {
                Some(k) => {
                    let e = &self.edges[k];
                    Some(VisualObjectInspection {
                        object_id: e.id,
                        semantic_ref: e.semantic_ref.clone(),
                        kind: e.kind.clone(),
                        label: e.semantic_ref.clone(),
                        source_refs: clone_refs(&e.source_refs),
                        provenance_refs: clone_refs(&e.provenance_refs),
                        hidden: e.hidden,
                        is_edge: true,
                    })
                },
                None => None,
            },
        }
    }
}


/// `node_by_ref` picks the last node carrying the reference, and finds nothing
/// only when no node carries it.
pub proof fn lemma_node_by_ref_is_last(nodes: Seq<NodeView>, r: Seq<char>)
    ensures
        match node_by_ref(nodes, r) {
            Some(n) => exists|i: int|
                0 <= i < nodes.len() && #[trigger] nodes[i] == n && n.semantic_ref == r && forall|j: int|
                    i < j < nodes.len() ==> (#[trigger] nodes[j]).semantic_ref != r,
            None => forall|i: int| 0 <= i < nodes.len() ==> (#[trigger] nodes[i]).semantic_ref != r,
        },
    decreases nodes.len(),
{
    if nodes.len() > 0 {
        let p = nodes.drop_last();
        lemma_node_by_ref_is_last(p, r);
        if nodes.last().semantic_ref == r {
            assert(nodes[nodes.len() - 1] == nodes.last());
        } else {
            match node_by_ref(p, r) {
                Some(n) => {
                    let i = choose|i: int|
                        0 <= i < p.len() && #[trigger] p[i] == n && n.semantic_ref == r && forall|j: int|
                            i < j < p.len() ==> (#[trigger] p[j]).semantic_ref != r;
                    assert(nodes[i] == p[i]);
                    assert forall|j: int| i < j < nodes.len() implies (#[trigger] nodes[j]).semantic_ref != r by {
                        if j < p.len() {
                            assert(nodes[j] == p[j]);
                        }
                    }
                },
                None => {
                    assert forall|i: int| 0 <= i < nodes.len() implies (#[trigger] nodes[i]).semantic_ref != r by {
                        if i < p.len() {
                            assert(nodes[i] == p[i]);
                        }
                    }
                },
            }
        }
    }
}

/// `edge_by_ref` picks the last edge carrying the reference, and finds nothing
/// only when no edge carries it.
pub proof fn lemma_edge_by_ref_is_last(edges: Seq<EdgeView>, r: Seq<char>)
    ensures
        match edge_by_ref(edges, r) {
            Some(e) => exists|i: int|
                0 <= i < edges.len() && #[trigger] edges[i] == e && e.semantic_ref == r && forall|j: int|
                    i < j < edges.len() ==> (#[trigger] edges[j]).semantic_ref != r,
            None => forall|i: int| 0 <= i < edges.len() ==> (#[trigger] edges[i]).semantic_ref != r,
        },
    decreases edges.len(),
{
    if edges.len() > 0 {
        let p = edges.drop_last();
        lemma_edge_by_ref_is_last(p, r);
        if edges.last().semantic_ref == r {
            assert(edges[edges.len() - 1] == edges.last());
        } else {
            match edge_by_ref(p, r) {
                Some(e) => {
                    let i = choose|i: int|
                        0 <= i < p.len() && #[trigger] p[i] == e && e.semantic_ref == r && forall|j: int|
                            i < j < p.len() ==> (#[trigger] p[j]).semantic_ref != r;
                    assert(edges[i] == p[i]);
                    assert forall|j: int| i < j < edges.len() implies (#[trigger] edges[j]).semantic_ref != r by {
                        if j < p.len() {
                            assert(edges[j] == p[j]);
                        }
                    }
                },
                None => {
                    assert forall|i: int| 0 <= i < edges.len() implies (#[trigger] edges[i]).semantic_ref != r by {
                        if i < p.len() {
                            assert(edges[i] == p[i]);
                        }
                    }
                },
            }
        }
    }
}

} // verus!
