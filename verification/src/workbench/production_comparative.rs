//! Comparative read models over typed runtime comparisons: the typed projection's
//! graphs become graph IR, its explanation becomes the overlay, and the visual
//! comparison must agree with the typed one, which stays the authority.
//!
//! The typed projections are held here as the plain values the read model reads;
//! they are the ones the typed runtime has already checked to be read-only.
use vstd::prelude::*;

use super::au_fact_review::{collision_message, stable_id, stable_visual_id};
use super::persisted_comparative::{id_space_message, world_selectors};
use super::comparative::{
    comparative_model, comparative_workbench_read_model_with_overlay, three_way_comparative_sequence_with_overlays,
    three_way_sequence, ComparativeExplanationOverlay, ComparativeModelView, ComparativeSelectors,
    ComparativeWorkbenchReadModel, OverlayView, SequenceView, ThreeWayComparativeSequence,
};
use crate::refs::{clone_refs, lemma_sorted_enumeration, sorted_enumeration, RefMap, RefSet};
use crate::visual::command::VisualObjectId;
use crate::visual::comparative::{edges_anchored, pair_fits_ids};
use crate::visual::ir::{last_node_by_id, lemma_last_node_by_id_found, EdgeView, GraphIr, GraphView, NodeView, VisualEdge, VisualNode};

verus! {

/// A node of a persisted typed workbench graph.
#[derive(Debug, Clone, PartialEq, Eq)]
pub struct PersistedWorkbenchNode {
    pub semantic_ref: String,
    pub semantic_kind: String,
    pub label: String,
    pub source_refs: Vec<String>,
    pub provenance_refs: Vec<String>,
}

/// An edge of a persisted typed workbench graph, between node references.
#[derive(Debug, Clone, PartialEq, Eq)]
pub struct PersistedWorkbenchEdge {
    pub semantic_ref: String,
    pub from_ref: String,
    pub to_ref: String,
    pub relation: String,
    pub challengeable: bool,
    pub source_refs: Vec<String>,
    pub provenance_refs: Vec<String>,
}

#[derive(Debug, Clone, PartialEq, Eq)]
pub struct PersistedWorkbenchGraph {
    pub projection_ref: String,
    pub nodes: Vec<PersistedWorkbenchNode>,
    pub edges: Vec<PersistedWorkbenchEdge>,
    pub derived_only: bool,
    pub challengeable: bool,
}

/// One world of a typed comparison.
#[derive(Debug, Clone, PartialEq, Eq)]
pub struct PersistedWorkbenchProjection {
    pub world_ref: String,
    pub legal_follow_graph: PersistedWorkbenchGraph,
}

/// A typed comparison of two worlds, with its explanation and its own sorting of
/// the semantic references into shared, changed, left-only and right-only.
#[derive(Debug, Clone, PartialEq, Eq)]
pub struct ComparativeWorkbenchProjection {
    pub comparison_ref: String,
    pub left_world_ref: String,
    pub right_world_ref: String,
    pub left_graph: PersistedWorkbenchGraph,
    pub right_graph: PersistedWorkbenchGraph,
    pub change_layer_by_semantic_ref: RefMap,
    pub explanation_by_semantic_ref: RefMap,
    pub answer_changing_semantic_refs: Vec<String>,
    pub unresolved_semantic_refs: Vec<String>,
    pub shared_semantic_refs: Vec<String>,
    pub changed_semantic_refs: Vec<String>,
    pub left_only_semantic_refs: Vec<String>,
    pub right_only_semantic_refs: Vec<String>,
}

/// A typed comparison of three worlds as two steps.
#[derive(Debug, Clone, PartialEq, Eq)]
pub struct ThreeWayComparativeWorkbenchProjection {
    pub w0: PersistedWorkbenchProjection,
    pub w1: PersistedWorkbenchProjection,
    pub w2: PersistedWorkbenchProjection,
    pub w0_to_w1: ComparativeWorkbenchProjection,
    pub w1_to_w2: ComparativeWorkbenchProjection,
}

// ---------------------------------------------------------------------------
// Typed graphs as graph IR.
// ---------------------------------------------------------------------------

pub open spec fn bool_text(b: bool) -> Seq<char> {
    if b {
        "true"@
    } else {
        "false"@
    }
}

pub open spec fn typed_node_view(n: PersistedWorkbenchNode, slot: int, ring: int) -> NodeView {
    NodeView {
        id: stable_id(n.semantic_ref@),
        semantic_ref: n.semantic_ref@,
        kind: n.semantic_kind@,
        label: n.label@,
        source_refs: n.source_refs.deep_view(),
        provenance_refs: n.provenance_refs.deep_view(),
        hidden: false,
        layout_slot: slot as u64,
        layout_ring: ring as u64,
    }
}

/// An edge keeps its relation and challengeability in its kind, and weighs 1.0.
pub open spec fn typed_edge_view(e: PersistedWorkbenchEdge) -> EdgeView {
    EdgeView {
        id: stable_id(e.semantic_ref@),
        from: stable_id(e.from_ref@),
        to: stable_id(e.to_ref@),
        semantic_ref: e.semantic_ref@,
        kind: e.relation@ + "|challengeable="@ + bool_text(e.challengeable),
        source_refs: e.source_refs.deep_view(),
        provenance_refs: e.provenance_refs.deep_view(),
        hidden: false,
        weight_bits: 0x3f80_0000u32,
    }
}

/// The reference of the last of `nodes` whose visual id is `id`.
pub open spec fn last_ref_with_id(nodes: Seq<PersistedWorkbenchNode>, id: VisualObjectId) -> Option<Seq<char>>
    decreases nodes.len(),
{
    if nodes.len() == 0 {
        None
    } else if stable_id(nodes.last().semantic_ref@) == id {
        Some(nodes.last().semantic_ref@)
    } else {
        last_ref_with_id(nodes.drop_last(), id)
    }
}

/// The first node, in order, whose visual id was already taken by a different
/// reference: the collision between that reference and the node's.
pub open spec fn typed_node_fault(nodes: Seq<PersistedWorkbenchNode>) -> Option<Seq<char>>
    decreases nodes.len(),
{
    if nodes.len() == 0 {
        None
    } else {
        match typed_node_fault(nodes.drop_last()) {
            Some(e) => Some(e),
            None => {
                let r = nodes.last().semantic_ref@;
                match last_ref_with_id(nodes.drop_last(), stable_id(r)) {
                    Some(x) => if x != r {
                        Some(collision_message(x, r))
                    } else {
                        None
                    },
                    None => None,
                }
            },
        }
    }
}

/// Some node carries reference `r`.
pub open spec fn has_ref(nodes: Seq<PersistedWorkbenchNode>, r: Seq<char>) -> bool {
    exists|i: int| 0 <= i < nodes.len() && (#[trigger] nodes[i]).semantic_ref@ == r
}

/// An edge whose endpoint is no node of the graph.
pub open spec fn typed_edge_fault(nodes: Seq<PersistedWorkbenchNode>, e: PersistedWorkbenchEdge) -> Option<Seq<char>> {
    if !has_ref(nodes, e.from_ref@) {
        Some("typed edge "@ + e.semantic_ref@ + " references missing source node "@ + e.from_ref@)
    } else if !has_ref(nodes, e.to_ref@) {
        Some("typed edge "@ + e.semantic_ref@ + " references missing target node "@ + e.to_ref@)
    } else {
        None
    }
}

/// The fault of the first edge, in order, that has one.
pub open spec fn typed_edges_fault(nodes: Seq<PersistedWorkbenchNode>, edges: Seq<PersistedWorkbenchEdge>) -> Option<Seq<char>>
    decreases edges.len(),
{
    if edges.len() == 0 {
        None
    } else {
        match typed_edge_fault(nodes, edges[0]) {
            Some(e) => Some(e),
            None => typed_edges_fault(nodes, edges.drop_first()),
        }
    }
}

/// The graph IR of a typed graph: every node on the ring layout under its stable
/// visual id, every edge between the ids of its endpoint nodes; refused on a
/// visual-id collision or an edge to a missing node.
pub open spec fn typed_graph_result(g: PersistedWorkbenchGraph) -> Result<GraphView, Seq<char>> {
    let nodes = g.nodes@;
    match typed_node_fault(nodes) {
        Some(e) => Err(e),
        None => match typed_edges_fault(nodes, g.edges@) {
            Some(e) => Err(e),
            None => {
                let ring = if nodes.len() == 0 { 1int } else { nodes.len() as int };
                Ok(
                    GraphView {
                        graph_ref: g.projection_ref@,
                        derived_only: g.derived_only,
                        challengeable: g.challengeable,
                        nodes: Seq::new(nodes.len(), |i: int| typed_node_view(nodes[i], i, ring)),
                        edges: g.edges@.map_values(|e: PersistedWorkbenchEdge| typed_edge_view(e)),
                    },
                )
            },
        },
    }
}

/// The last node before place `n` whose visual id is `id`, from precomputed ids.
fn last_with_id(nodes: &Vec<PersistedWorkbenchNode>, ids: &Vec<VisualObjectId>, n: usize, id: VisualObjectId) -> (k: Option<usize>)
    requires
        n <= nodes@.len(),
        ids@.len() == nodes@.len(),
        forall|j: int| 0 <= j < ids@.len() ==> ids@[j] == stable_id(#[trigger] nodes@[j].semantic_ref@),
    ensures
        match k {
            Some(k) => k < n && last_ref_with_id(nodes@.subrange(0, n as int), id) == Some(nodes@[k as int].semantic_ref@),
            None => last_ref_with_id(nodes@.subrange(0, n as int), id) is None,
        },
{
    let mut i: usize = n;
    while i > 0
        invariant
            i <= n <= nodes@.len(),
            ids@.len() == nodes@.len(),
            forall|j: int| 0 <= j < ids@.len() ==> ids@[j] == stable_id(#[trigger] nodes@[j].semantic_ref@),
            last_ref_with_id(nodes@.subrange(0, n as int), id) == last_ref_with_id(nodes@.subrange(0, i as int), id),
        decreases i,
    {
        let ghost pre = nodes@.subrange(0, i as int);
        assert(pre.last() == nodes@[i - 1]);
        if ids[i - 1] == id {
            return Some(i - 1);
        }
        assert(pre.drop_last() =~= nodes@.subrange(0, i - 1));
        i = i - 1;
    }
    None
}

fn find_ref(nodes: &Vec<PersistedWorkbenchNode>, r: &str) -> (b: bool)
    ensures
        b == has_ref(nodes@, r@),
{
    let mut i: usize = 0;
    while i < nodes.len()
        invariant
            i <= nodes@.len(),
            forall|j: int| 0 <= j < i ==> (#[trigger] nodes@[j]).semantic_ref@ != r@,
        decreases nodes@.len() - i,
    {
        if nodes[i].semantic_ref == r.to_owned() {
            assert(nodes@[i as int].semantic_ref@ == r@);
            return true;
        }
        i = i + 1;
    }
    false
}

fn typed_edge_kind(e: &PersistedWorkbenchEdge) -> (k: String)
    ensures
        k@ == e.relation@ + "|challengeable="@ + bool_text(e.challengeable),
{
    let mut k = e.relation.clone();
    k.append("|challengeable=");
    if e.challengeable {
        k.append("true");
    } else {
        k.append("false");
    }
    k
}

fn missing_node(edge: &str, missing: &str, node: &str) -> (m: String)
    ensures
        m@ == "typed edge "@ + edge@ + missing@ + node@,
{
    let mut m = String::from_str("typed edge ");
    m.append(edge);
    m.append(missing);
    m.append(node);
    m
}

/// The graph IR of a typed graph; see `typed_graph_result`.
pub fn graph_to_ir(graph: &PersistedWorkbenchGraph) -> (r: Result<GraphIr, String>)
    ensures
        match r {
            Ok(ir) => typed_graph_result(*graph) == Ok::<GraphView, Seq<char>>(ir@),
            Err(e) => typed_graph_result(*graph) == Err::<GraphView, Seq<char>>(e@),
        },
{
    let ghost all = graph.nodes@;
    let mut ids: Vec<VisualObjectId> = Vec::new();
    let mut i: usize = 0;
    while i < graph.nodes.len()
        invariant
            i <= all.len(),
            all == graph.nodes@,
            ids@.len() == i,
            forall|j: int| 0 <= j < i ==> ids@[j] == stable_id(#[trigger] all[j].semantic_ref@),
        decreases all.len() - i,
    {
        ids.push(stable_visual_id(graph.nodes[i].semantic_ref.as_str()));
        i = i + 1;
    }
    let mut i: usize = 0;
    assert(all.subrange(0, 0).len() == 0);
    while i < graph.nodes.len()
        invariant
            i <= all.len(),
            all == graph.nodes@,
            ids@.len() == all.len(),
            forall|j: int| 0 <= j < ids@.len() ==> ids@[j] == stable_id(#[trigger] all[j].semantic_ref@),
            typed_node_fault(all.subrange(0, i as int)) is None,
        decreases all.len() - i,
    {
        let ghost p = all.subrange(0, i + 1);
        assert(p.drop_last() =~= all.subrange(0, i as int));
        assert(p.last() == all[i as int]);
        let id = ids[i];
        match last_with_id(&graph.nodes, &ids, i, id) {
            Some(k) => {
                if graph.nodes[k].semantic_ref != graph.nodes[i].semantic_ref {
                    let mut m = String::from_str("stable visual ID collision between ");
                    m.append(graph.nodes[k].semantic_ref.as_str());
                    m.append(" and ");
                    m.append(graph.nodes[i].semantic_ref.as_str());
                    proof {
                        lemma_fault_stays(all, i as int + 1);
                    }
                    return Err(m);
                }
            },
            None => {},
        }
        i = i + 1;
    }
    assert(all.subrange(0, i as int) =~= all);
    let ghost edges = graph.edges@;
    let mut j: usize = 0;
    assert(edges.subrange(0, edges.len() as int) =~= edges);
    while j < graph.edges.len()
        invariant
            j <= edges.len(),
            edges == graph.edges@,
            all == graph.nodes@,
            typed_node_fault(all) is None,
            typed_edges_fault(all, edges) == typed_edges_fault(all, edges.subrange(j as int, edges.len() as int)),
        decreases edges.len() - j,
    {
        let ghost rest = edges.subrange(j as int, edges.len() as int);
        assert(rest[0] == edges[j as int]);
        let e = &graph.edges[j];
        if !find_ref(&graph.nodes, e.from_ref.as_str()) {
            return Err(missing_node(e.semantic_ref.as_str(), " references missing source node ", e.from_ref.as_str()));
        }
        if !find_ref(&graph.nodes, e.to_ref.as_str()) {
            return Err(missing_node(e.semantic_ref.as_str(), " references missing target node ", e.to_ref.as_str()));
        }
        assert(rest.drop_first() =~= edges.subrange(j + 1, edges.len() as int));
        j = j + 1;
    }
    let n = graph.nodes.len();
    let ring: u64 = if n == 0 { 1 } else { n as u64 };
    let mut nodes: Vec<VisualNode> = Vec::new();
    let mut i: usize = 0;
    while i < graph.nodes.len()
        invariant
            i <= all.len(),
            all == graph.nodes@,
            n == all.len(),
            ids@.len() == all.len(),
            forall|k: int| 0 <= k < ids@.len() ==> ids@[k] == stable_id(#[trigger] all[k].semantic_ref@),
            ring == (if n == 0 { 1int } else { n as int }),
            nodes@.len() == i,
            forall|k: int| 0 <= k < i ==> (#[trigger] nodes@[k])@ == typed_node_view(all[k], k, ring as int),
        decreases all.len() - i,
    {
        let t = &graph.nodes[i];
        nodes.push(
            VisualNode {
                id: ids[i],
                semantic_ref: t.semantic_ref.clone(),
                kind: t.semantic_kind.clone(),
                label: t.label.clone(),
                source_refs: clone_refs(&t.source_refs),
                provenance_refs: clone_refs(&t.provenance_refs),
                hidden: false,
                layout_slot: i as u64,
                layout_ring: ring,
            },
        );
        i = i + 1;
    }
    let mut out_edges: Vec<VisualEdge> = Vec::new();
    let mut j: usize = 0;
    while j < graph.edges.len()
        invariant
            j <= edges.len(),
            edges == graph.edges@,
            out_edges@.len() == j,
            forall|k: int| 0 <= k < j ==> (#[trigger] out_edges@[k])@ == typed_edge_view(edges[k]),
        decreases edges.len() - j,
    {
        let e = &graph.edges[j];
        out_edges.push(
            VisualEdge {
                id: stable_visual_id(e.semantic_ref.as_str()),
                from: stable_visual_id(e.from_ref.as_str()),
                to: stable_visual_id(e.to_ref.as_str()),
                semantic_ref: e.semantic_ref.clone(),
                kind: typed_edge_kind(e),
                source_refs: clone_refs(&e.source_refs),
                provenance_refs: clone_refs(&e.provenance_refs),
                hidden: false,
                weight_bits: 0x3f80_0000u32,
            },
        );
        j = j + 1;
    }
    let ir = GraphIr {
        graph_ref: graph.projection_ref.clone(),
        derived_only: graph.derived_only,
        challengeable: graph.challengeable,
        nodes,
        edges: out_edges,
    };
    assert(ir@.nodes =~= Seq::new(all.len(), |k: int| typed_node_view(all[k], k, ring as int)));
    assert(ir@.edges =~= edges.map_values(|e: PersistedWorkbenchEdge| typed_edge_view(e)));
    Ok(ir)
}

/// Once a prefix of the nodes has a fault, every longer prefix has the same one.
proof fn lemma_fault_stays(nodes: Seq<PersistedWorkbenchNode>, n: int)
    requires
        0 <= n <= nodes.len(),
        typed_node_fault(nodes.subrange(0, n)) is Some,
    ensures
        typed_node_fault(nodes) == typed_node_fault(nodes.subrange(0, n)),
    decreases nodes.len() - n,
{
    if n < nodes.len() {
        let p = nodes.subrange(0, n + 1);
        assert(p.drop_last() =~= nodes.subrange(0, n));
        lemma_fault_stays(nodes, n + 1);
    } else {
        assert(nodes.subrange(0, n) =~= nodes);
    }
}

proof fn lemma_edges_fault_free(nodes: Seq<PersistedWorkbenchNode>, edges: Seq<PersistedWorkbenchEdge>)
    requires
        typed_edges_fault(nodes, edges) is None,
    ensures
        forall|i: int|
            0 <= i < edges.len() ==> has_ref(nodes, (#[trigger] edges[i]).from_ref@) && has_ref(nodes, edges[i].to_ref@),
    decreases edges.len(),
{
    if edges.len() > 0 {
        lemma_edges_fault_free(nodes, edges.drop_first());
        assert forall|i: int| 0 <= i < edges.len() implies has_ref(nodes, (#[trigger] edges[i]).from_ref@) && has_ref(
            nodes,
            edges[i].to_ref@,
        ) by {
            if i > 0 {
                assert(edges[i] == edges.drop_first()[i - 1]);
            }
        }
    }
}

/// The graph IR of a typed graph has every edge anchored at its nodes.
pub proof fn lemma_typed_graph_anchored(g: PersistedWorkbenchGraph)
    requires
        typed_graph_result(g) is Ok,
    ensures
        edges_anchored(typed_graph_result(g)->Ok_0),
{
    let v = typed_graph_result(g)->Ok_0;
    lemma_edges_fault_free(g.nodes@, g.edges@);
    assert forall|i: int| 0 <= i < v.edges.len() implies (#[trigger] last_node_by_id(v.nodes, v.edges[i].from)) is Some
        && last_node_by_id(v.nodes, v.edges[i].to) is Some by {
        let e = g.edges@[i];
        assert(has_ref(g.nodes@, e.from_ref@));
        assert(has_ref(g.nodes@, e.to_ref@));
        let a = choose|a: int| 0 <= a < g.nodes@.len() && (#[trigger] g.nodes@[a]).semantic_ref@ == e.from_ref@;
        let b = choose|b: int| 0 <= b < g.nodes@.len() && (#[trigger] g.nodes@[b]).semantic_ref@ == e.to_ref@;
        assert(v.nodes[a].id == v.edges[i].from);
        assert(v.nodes[b].id == v.edges[i].to);
        lemma_last_node_by_id_found(v.nodes, a);
        lemma_last_node_by_id_found(v.nodes, b);
    }
}

// ---------------------------------------------------------------------------
// Typed comparisons as read models.
// ---------------------------------------------------------------------------

/// The overlay of a typed comparison: its explanation, promoting nothing.
pub open spec fn typed_overlay(p: ComparativeWorkbenchProjection) -> OverlayView {
    OverlayView {
        change_layer_by_semantic_ref: p.change_layer_by_semantic_ref@,
        explanation_by_semantic_ref: p.explanation_by_semantic_ref@,
        answer_changing_semantic_refs: sorted_enumeration(p.answer_changing_semantic_refs.deep_view().to_set()),
        unresolved_semantic_refs: sorted_enumeration(p.unresolved_semantic_refs.deep_view().to_set()),
        creates_semantic_authority: false,
        creates_claim_truth: false,
    }
}

/// The visual comparison agrees with the typed one: its shared references are the
/// typed shared ones that did not change, and changed, left-only and right-only agree.
pub open spec fn visual_parity(p: ComparativeWorkbenchProjection, m: ComparativeModelView) -> bool {
    let c = m.topology.comparative;
    &&& c.shared_semantic_refs.to_set() == p.shared_semantic_refs.deep_view().to_set().difference(
        p.changed_semantic_refs.deep_view().to_set(),
    )
    &&& c.changed_semantic_refs.to_set() == p.changed_semantic_refs.deep_view().to_set()
    &&& c.left_only_semantic_refs.to_set() == p.left_only_semantic_refs.deep_view().to_set()
    &&& c.right_only_semantic_refs.to_set() == p.right_only_semantic_refs.deep_view().to_set()
}

pub open spec fn parity_message() -> Seq<char> {
    "Dioxus visual comparison diverged from typed runtime comparative projection"@
}

/// The read model of a typed comparison, or why there is none: a graph that does
/// not project, graphs too large for one id space, or a visual comparison that
/// diverges from the typed one.
pub open spec fn typed_comparison_result(p: ComparativeWorkbenchProjection) -> Result<ComparativeModelView, Seq<char>> {
    match (typed_graph_result(p.left_graph), typed_graph_result(p.right_graph)) {
        (Err(e), _) => Err(e),
        (Ok(_), Err(e)) => Err(e),
        (Ok(l), Ok(r)) => if !pair_fits_ids(l, r) {
            Err(id_space_message())
        } else {
            let m = comparative_model(
                p.comparison_ref@,
                l,
                r,
                world_selectors(p.left_world_ref@, p.right_world_ref@),
                typed_overlay(p),
            );
            if visual_parity(p, m) {
                Ok(m)
            } else {
                Err(parity_message())
            }
        },
    }
}

pub fn overlay_from_typed(projection: &ComparativeWorkbenchProjection) -> (o: ComparativeExplanationOverlay)
    ensures
        o@ == typed_overlay(*projection),
{
    let answer_changing = RefSet::from_refs(&projection.answer_changing_semantic_refs);
    let unresolved = RefSet::from_refs(&projection.unresolved_semantic_refs);
    proof {
        use_type_invariant(&answer_changing);
        use_type_invariant(&unresolved);
        lemma_sorted_enumeration(answer_changing@);
        lemma_sorted_enumeration(unresolved@);
    }
    ComparativeExplanationOverlay {
        change_layer_by_semantic_ref: projection.change_layer_by_semantic_ref.clone(),
        explanation_by_semantic_ref: projection.explanation_by_semantic_ref.clone(),
        answer_changing_semantic_refs: answer_changing,
        unresolved_semantic_refs: unresolved,
        creates_semantic_authority: false,
        creates_claim_truth: false,
    }
}

/// Refuses a visual comparison that diverges from the typed one.
pub fn validate_visual_parity(typed: &ComparativeWorkbenchProjection, visual: &ComparativeWorkbenchReadModel) -> (r: Result<(), String>)
    ensures
        r is Ok <==> visual_parity(*typed, visual@),
        r matches Err(e) ==> e@ == parity_message(),
{
    let changed = RefSet::from_refs(&typed.changed_semantic_refs);
    let unchanged = RefSet::from_refs(&typed.shared_semantic_refs).difference(&changed);
    let left = RefSet::from_refs(&typed.left_only_semantic_refs);
    let right = RefSet::from_refs(&typed.right_only_semantic_refs);
    let c = &visual.topology.comparative;
    if !c.shared_semantic_refs.same_refs(&unchanged) || !c.changed_semantic_refs.same_refs(&changed)
        || !c.left_only_semantic_refs.same_refs(&left) || !c.right_only_semantic_refs.same_refs(&right) {
        return Err(String::from_str("Dioxus visual comparison diverged from typed runtime comparative projection"));
    }
    Ok(())
}

fn fits_id_space(l: &GraphIr, r: &GraphIr) -> (b: bool)
    ensures
        b == pair_fits_ids(l@, r@),
{
    let total: u128 = l.nodes.len() as u128 + r.nodes.len() as u128 + l.edges.len() as u128 + r.edges.len() as u128;
    total < 0xffff_ffff_ffff_ffffu128
}

fn world_pair(left_world: &String, right_world: &String) -> (s: ComparativeSelectors)
    ensures
        s@ == world_selectors(left_world@, right_world@),
{
    ComparativeSelectors {
        left_ref: left_world.clone(),
        right_ref: right_world.clone(),
        query_ref: None,
        consumer_ref: None,
        as_at_ref: None,
        scope_ref: None,
    }
}

/// The comparative read model of a typed comparison; the typed comparison stays
/// the authority, so a visual comparison that diverges from it is refused.
pub fn comparative_read_model_from_typed(projection: &ComparativeWorkbenchProjection) -> (r: Result<
    ComparativeWorkbenchReadModel,
    String,
>)
    ensures
        match r {
            Ok(m) => typed_comparison_result(*projection) == Ok::<ComparativeModelView, Seq<char>>(m@),
            Err(e) => typed_comparison_result(*projection) == Err::<ComparativeModelView, Seq<char>>(e@),
        },
{
    let left = graph_to_ir(&projection.left_graph)?;
    let right = graph_to_ir(&projection.right_graph)?;
    proof {
        lemma_typed_graph_anchored(projection.left_graph);
        lemma_typed_graph_anchored(projection.right_graph);
    }
    if !fits_id_space(&left, &right) {
        return Err(String::from_str("comparative graphs exceed the visual id space"));
    }
    let model = comparative_workbench_read_model_with_overlay(
        projection.comparison_ref.as_str(),
        &left,
        &right,
        world_pair(&projection.left_world_ref, &projection.right_world_ref),
        overlay_from_typed(projection),
    );
    validate_visual_parity(projection, &model)?;
    Ok(model)
}

/// The typed three-way comparison as a read-model sequence, or why there is none:
/// a graph that does not project, graphs too large for one id space, or a step
/// whose visual comparison diverges from the typed one.
pub open spec fn typed_three_way_result(p: ThreeWayComparativeWorkbenchProjection) -> Result<SequenceView, Seq<char>> {
    match (
        typed_graph_result(p.w0.legal_follow_graph),
        typed_graph_result(p.w1.legal_follow_graph),
        typed_graph_result(p.w2.legal_follow_graph),
    ) {
        (Err(e), _, _) => Err(e),
        (Ok(_), Err(e), _) => Err(e),
        (Ok(_), Ok(_), Err(e)) => Err(e),
        (Ok(g0), Ok(g1), Ok(g2)) => if !pair_fits_ids(g0, g1) || !pair_fits_ids(g1, g2) {
            Err(id_space_message())
        } else {
            let s = three_way_sequence(
                "comparison:typed:w0-w1-w2"@,
                g0,
                g1,
                g2,
                world_selectors(p.w0.world_ref@, p.w2.world_ref@),
                typed_overlay(p.w0_to_w1),
                typed_overlay(p.w1_to_w2),
            );
            if !visual_parity(p.w0_to_w1, s.w0_to_w1) || !visual_parity(p.w1_to_w2, s.w1_to_w2) {
                Err(parity_message())
            } else {
                Ok(s)
            }
        },
    }
}

pub fn three_way_read_model_from_typed(projection: &ThreeWayComparativeWorkbenchProjection) -> (r: Result<
    ThreeWayComparativeSequence,
    String,
>)
    ensures
        match r {
            Ok(s) => typed_three_way_result(*projection) == Ok::<SequenceView, Seq<char>>(s@),
            Err(e) => typed_three_way_result(*projection) == Err::<SequenceView, Seq<char>>(e@),
        },
{
    let w0 = graph_to_ir(&projection.w0.legal_follow_graph)?;
    let w1 = graph_to_ir(&projection.w1.legal_follow_graph)?;
    let w2 = graph_to_ir(&projection.w2.legal_follow_graph)?;
    proof {
        lemma_typed_graph_anchored(projection.w0.legal_follow_graph);
        lemma_typed_graph_anchored(projection.w1.legal_follow_graph);
        lemma_typed_graph_anchored(projection.w2.legal_follow_graph);
    }
    if !fits_id_space(&w0, &w1) || !fits_id_space(&w1, &w2) {
        return Err(String::from_str("comparative graphs exceed the visual id space"));
    }
    let sequence = three_way_comparative_sequence_with_overlays(
        "comparison:typed:w0-w1-w2",
        &w0,
        &w1,
        &w2,
        world_pair(&projection.w0.world_ref, &projection.w2.world_ref),
        overlay_from_typed(&projection.w0_to_w1),
        overlay_from_typed(&projection.w1_to_w2),
    );
    validate_visual_parity(&projection.w0_to_w1, &sequence.w0_to_w1)?;
    validate_visual_parity(&projection.w1_to_w2, &sequence.w1_to_w2)?;
    Ok(sequence)
}


/// An accepted typed graph is drawn node for node and edge for edge: each node
/// under its own reference, kind, label, source and provenance references and the
/// stable visual id of its reference, not hidden; each edge under its reference,
/// between the stable visual ids of its endpoints, with the kind
/// `<relation>|challengeable=true` or `<relation>|challengeable=false`, its source
/// and provenance references, and weight 1.0.
pub proof fn lemma_typed_graph_draws_its_objects(g: PersistedWorkbenchGraph)
    ensures
        typed_graph_result(g) matches Ok(v) ==> {
            &&& v.nodes.len() == g.nodes@.len()
            &&& v.edges.len() == g.edges@.len()
            &&& forall|i: int|
                0 <= i < g.nodes@.len() ==> {
                    let n = #[trigger] g.nodes@[i];
                    &&& v.nodes[i].semantic_ref == n.semantic_ref@
                    &&& v.nodes[i].kind == n.semantic_kind@
                    &&& v.nodes[i].label == n.label@
                    &&& v.nodes[i].source_refs == n.source_refs.deep_view()
                    &&& v.nodes[i].provenance_refs == n.provenance_refs.deep_view()
                    &&& v.nodes[i].id == stable_id(n.semantic_ref@)
                    &&& !v.nodes[i].hidden
                }
            &&& forall|i: int|
                0 <= i < g.edges@.len() ==> {
                    let e = #[trigger] g.edges@[i];
                    &&& v.edges[i].semantic_ref == e.semantic_ref@
                    &&& v.edges[i].from == stable_id(e.from_ref@)
                    &&& v.edges[i].to == stable_id(e.to_ref@)
                    &&& v.edges[i].kind == e.relation@ + (if e.challengeable {
                        "|challengeable=true"@
                    } else {
                        "|challengeable=false"@
                    })
                    &&& v.edges[i].source_refs == e.source_refs.deep_view()
                    &&& v.edges[i].provenance_refs == e.provenance_refs.deep_view()
                    &&& v.edges[i].weight_bits == 0x3f80_0000u32
                    &&& !v.edges[i].hidden
                }
        },
{
    reveal_strlit("|challengeable=");
    reveal_strlit("true");
    reveal_strlit("false");
    reveal_strlit("|challengeable=true");
    reveal_strlit("|challengeable=false");
    if typed_graph_result(g) is Ok {
        let v = typed_graph_result(g)->Ok_0;
        assert forall|i: int| 0 <= i < g.edges@.len() implies v.edges[i].kind == (#[trigger] g.edges@[i]).relation@ + (if g.edges@[i].challengeable {
            "|challengeable=true"@
        } else {
            "|challengeable=false"@
        }) by {
            let e = g.edges@[i];
            assert("|challengeable="@ + "true"@ =~= "|challengeable=true"@);
            assert("|challengeable="@ + "false"@ =~= "|challengeable=false"@);
            assert(e.relation@ + "|challengeable="@ + bool_text(e.challengeable) =~= e.relation@ + ("|challengeable="@ + bool_text(e.challengeable)));
        }
    }
}

} // verus!
