//! The AU fact-review projection: a persisted legal-follow graph makes the
//! Matter/Proof stage available and becomes a bounded, provenance-bearing graph IR.
use vstd::prelude::*;

use super::{
    au_legal_bearing, au_legal_bearing_read_model, lemma_stage_availability_follows_persistence, stage_of, AuLegalBearingInput,
    BearingInputView, UnifiedWorkbenchReadModel, WorkbenchStageKind,
};
use crate::json::{
    blank, collect_strings, deref_opt, first_of, first_ref, get_member, get_opt, is_blank, json_get, json_get_opt, member,
    str_member, strings_in, take_fields, JsonValue,
};
use crate::refs::{clone_refs, lemma_sorted_enumeration, lemma_sorted_set_len, sorted_enumeration, RefSet};
use crate::visual::command::VisualObjectId;
use crate::visual::comparative::edges_anchored;
use crate::visual::ir::{edge_views, last_node_by_id, lemma_last_node_by_id_found, node_views, EdgeView, GraphIr, GraphView, NodeView, VisualEdge, VisualNode};

verus! {

#[derive(Debug, PartialEq, Eq)]
pub struct LegalFollowGraphNode {
    pub id: String,
    pub kind: String,
    pub label: String,
    /// The members of the node's metadata object.
    pub metadata: Vec<(String, JsonValue)>,
}

#[derive(Debug, PartialEq, Eq)]
pub struct LegalFollowGraphEdge {
    pub source: String,
    pub target: String,
    pub kind: String,
    /// The members of the edge's metadata object.
    pub metadata: Vec<(String, JsonValue)>,
}

#[derive(Debug, PartialEq, Eq)]
pub struct LegalFollowGraph {
    pub version: Option<String>,
    pub derived_only: Option<bool>,
    pub challengeable: Option<bool>,
    pub nodes: Vec<LegalFollowGraphNode>,
    pub edges: Vec<LegalFollowGraphEdge>,
}

impl Default for LegalFollowGraph {
    fn default() -> (g: Self)
        ensures
            g.version is None,
            g.derived_only is None,
            g.challengeable is None,
            g.nodes@.len() == 0,
            g.edges@.len() == 0,
    {
        LegalFollowGraph {
            version: None,
            derived_only: None,
            challengeable: None,
            nodes: Vec::new(),
            edges: Vec::new(),
        }
    }
}

#[derive(Debug, PartialEq, Eq)]
pub struct AuFactReviewProjectionInput {
    pub world_ref: String,
    pub source_refs: Vec<String>,
    pub event_refs: Vec<String>,
    pub handoff_refs: Vec<String>,
    pub research_residual_refs: Vec<String>,
    pub legal_follow_graph: LegalFollowGraph,
}

/// The semantic reference of a legal-follow edge: `edge:{kind}:{source}->{target}`.
pub open spec fn edge_ref_text(e: LegalFollowGraphEdge) -> Seq<char> {
    "edge:"@ + e.kind@ + ":"@ + e.source@ + "->"@ + e.target@
}

pub fn edge_semantic_ref(edge: &LegalFollowGraphEdge) -> (r: String)
    ensures
        r@ == edge_ref_text(*edge),
{
    let mut r = String::from_str("edge:");
    r.append(edge.kind.as_str());
    r.append(":");
    r.append(edge.source.as_str());
    r.append("->");
    r.append(edge.target.as_str());
    r
}

pub open spec fn node_ids_of(nodes: Seq<LegalFollowGraphNode>) -> Seq<Seq<char>> {
    nodes.map_values(|n: LegalFollowGraphNode| n.id@)
}

pub open spec fn edge_refs_of(edges: Seq<LegalFollowGraphEdge>) -> Seq<Seq<char>> {
    edges.map_values(|e: LegalFollowGraphEdge| edge_ref_text(e))
}

/// What the AU projection hands the stage model: the graph's node ids as the
/// legal nodes and its edges' semantic references as the legal edges.
pub open spec fn au_bearing_input(input: AuFactReviewProjectionInput) -> BearingInputView {
    BearingInputView {
        world_ref: input.world_ref@,
        journal_or_source_refs: input.source_refs.deep_view(),
        timeline_event_refs: input.event_refs.deep_view(),
        handoff_refs: input.handoff_refs.deep_view(),
        legal_node_refs: node_ids_of(input.legal_follow_graph.nodes@),
        legal_edge_refs: edge_refs_of(input.legal_follow_graph.edges@),
        research_residual_refs: input.research_residual_refs.deep_view(),
    }
}

/// Projects a persisted AU fact review onto the stage model: Matter/Proof is
/// available exactly when the persisted legal-follow graph has nodes.
pub fn project_au_fact_review(input: AuFactReviewProjectionInput) -> (m: UnifiedWorkbenchReadModel)
    ensures
        m@ == au_legal_bearing(au_bearing_input(input)),
{
    let ghost iv = input;
    let mut node_refs: Vec<String> = Vec::new();
    let mut i: usize = 0;
    while i < input.legal_follow_graph.nodes.len()
        invariant
            iv == input,
            i <= input.legal_follow_graph.nodes@.len(),
            node_refs.deep_view() == node_ids_of(input.legal_follow_graph.nodes@.subrange(0, i as int)),
        decreases input.legal_follow_graph.nodes@.len() - i,
    {
        let ghost prev = node_refs.deep_view();
        node_refs.push(input.legal_follow_graph.nodes[i].id.clone());
        assert(node_refs.deep_view() =~= prev.push(input.legal_follow_graph.nodes@[i as int].id@));
        assert(node_refs.deep_view() =~= node_ids_of(input.legal_follow_graph.nodes@.subrange(0, i + 1)));
        i = i + 1;
    }
    assert(input.legal_follow_graph.nodes@.subrange(0, i as int) =~= input.legal_follow_graph.nodes@);
    let mut edge_refs: Vec<String> = Vec::new();
    let mut i: usize = 0;
    while i < input.legal_follow_graph.edges.len()
        invariant
            iv == input,
            i <= input.legal_follow_graph.edges@.len(),
            edge_refs.deep_view() == edge_refs_of(input.legal_follow_graph.edges@.subrange(0, i as int)),
        decreases input.legal_follow_graph.edges@.len() - i,
    {
        let r = edge_semantic_ref(&input.legal_follow_graph.edges[i]);
        let ghost prev = edge_refs.deep_view();
        edge_refs.push(r);
        assert(edge_refs.deep_view() =~= prev.push(edge_ref_text(input.legal_follow_graph.edges@[i as int])));
        assert(edge_refs.deep_view() =~= edge_refs_of(input.legal_follow_graph.edges@.subrange(0, i + 1)));
        i = i + 1;
    }
    assert(input.legal_follow_graph.edges@.subrange(0, i as int) =~= input.legal_follow_graph.edges@);
    let AuFactReviewProjectionInput { world_ref, source_refs, event_refs, handoff_refs, research_residual_refs, legal_follow_graph: _ } = input;
    let bearing = AuLegalBearingInput {
        world_ref,
        journal_or_source_refs: source_refs,
        timeline_event_refs: event_refs,
        handoff_refs,
        legal_node_refs: node_refs,
        legal_edge_refs: edge_refs,
        research_residual_refs,
    };
    assert(bearing@ == au_bearing_input(iv));
    au_legal_bearing_read_model(bearing)
}

/// FNV-1a over bytes.
pub open spec fn fnv1a(bytes: Seq<u8>) -> u64
    decreases bytes.len(),
{
    if bytes.len() == 0 {
        0xcbf29ce484222325u64
    } else {
        (fnv1a(bytes.drop_last()) ^ (bytes.last() as u64)).wrapping_mul(0x100000001b3u64)
    }
}

/// The visual id of a semantic reference: FNV-1a of its UTF-8 bytes.
pub open spec fn stable_id(sr: Seq<char>) -> VisualObjectId {
    VisualObjectId(fnv1a(vstd::utf8::encode_utf8(sr)))
}

/// A deterministic visual identity for a semantic reference. This is a visual
/// identity projection only, never a canonical semantic digest or authority identifier.
pub fn stable_visual_id(semantic_ref: &str) -> (id: VisualObjectId)
    ensures
        id == stable_id(semantic_ref@),
{
    let bytes = semantic_ref.as_bytes();
    let mut hash: u64 = 0xcbf29ce484222325u64;
    let mut i: usize = 0;
    while i < bytes.len()
        invariant
            bytes@ == vstd::utf8::encode_utf8(semantic_ref@),
            i <= bytes@.len(),
            hash == fnv1a(bytes@.subrange(0, i as int)),
        decreases bytes@.len() - i,
    {
        let b = bytes[i];
        assert(bytes@.subrange(0, i + 1).drop_last() =~= bytes@.subrange(0, i as int));
        hash = (hash ^ (b as u64)).wrapping_mul(0x100000001b3u64);
        i = i + 1;
    }
    assert(bytes@.subrange(0, i as int) =~= bytes@);
    VisualObjectId(hash)
}

/// Metadata keys whose strings are source references.
pub open spec fn source_ref_keys() -> Seq<Seq<char>> {
    seq![
        "source_ref"@,
        "source_refs"@,
        "source_id"@,
        "source_ids"@,
        "canonical_ref"@,
        "content_refs"@,
        "span_refs"@,
    ]
}

/// Metadata keys whose strings are provenance references.
pub open spec fn provenance_ref_keys() -> Seq<Seq<char>> {
    seq![
        "provenance_ref"@,
        "provenance_refs"@,
        "receipt_ref"@,
        "receipt_refs"@,
        "promoted_record_ref"@,
        "support_phi_ids"@,
        "record_ref"@,
        "fact_node_ref"@,
        "claim_node_ref"@,
    ]
}

pub open spec fn key_views(keys: Seq<&str>) -> Seq<Seq<char>> {
    keys.map_values(|k: &str| k@)
}

fn source_keys() -> (k: Vec<&'static str>)
    ensures
        key_views(k@) == source_ref_keys(),
{
    let k = vec![
        "source_ref",
        "source_refs",
        "source_id",
        "source_ids",
        "canonical_ref",
        "content_refs",
        "span_refs",
    ];
    assert(key_views(k@) =~= source_ref_keys());
    k
}

fn provenance_keys() -> (k: Vec<&'static str>)
    ensures
        key_views(k@) == provenance_ref_keys(),
{
    let k = vec![
        "provenance_ref",
        "provenance_refs",
        "receipt_ref",
        "receipt_refs",
        "promoted_record_ref",
        "support_phi_ids",
        "record_ref",
        "fact_node_ref",
        "claim_node_ref",
    ];
    assert(key_views(k@) =~= provenance_ref_keys());
    k
}

/// The non-blank strings found, at any depth, under any of `keys` in the metadata.
pub open spec fn metadata_strings(metadata: Seq<(String, JsonValue)>, keys: Seq<Seq<char>>) -> Set<Seq<char>>
    decreases keys.len(),
{
    if keys.len() == 0 {
        Set::empty()
    } else {
        metadata_strings(metadata, keys.drop_last()).union(
            match member(metadata, keys.last()) {
                Some(v) => strings_in(v),
                None => Set::empty(),
            },
        )
    }
}

/// Those strings, in order and without repeats.
pub open spec fn metadata_ref_list(metadata: Seq<(String, JsonValue)>, keys: Seq<Seq<char>>) -> Seq<Seq<char>> {
    sorted_enumeration(metadata_strings(metadata, keys))
}

fn metadata_refs(metadata: &Vec<(String, JsonValue)>, keys: &Vec<&str>) -> (r: Vec<String>)
    ensures
        r.deep_view() == metadata_ref_list(metadata@, key_views(keys@)),
{
    let mut out = RefSet::new();
    let mut i: usize = 0;
    while i < keys.len()
        invariant
            i <= keys@.len(),
            out@.to_set() == metadata_strings(metadata@, key_views(keys@).subrange(0, i as int)),
        decreases keys@.len() - i,
    {
        let ghost ks = key_views(keys@).subrange(0, i + 1);
        assert(ks.drop_last() =~= key_views(keys@).subrange(0, i as int));
        assert(ks.last() == keys@[i as int]@);
        match get_member(metadata, keys[i]) {
            Some(v) => collect_strings(v, &mut out),
            None => {},
        }
        assert(out@.to_set() =~= metadata_strings(metadata@, ks));
        i = i + 1;
    }
    assert(key_views(keys@).subrange(0, i as int) =~= key_views(keys@));
    proof {
        use_type_invariant(&out);
        lemma_sorted_enumeration(out@);
    }
    out.to_vec()
}

/// `weight` from the edge's metadata as an `f32` bit pattern; 1.0 when it is not a number.
pub open spec fn edge_weight_bits(e: LegalFollowGraphEdge) -> u32 {
    match member(e.metadata@, "weight"@) {
        Some(JsonValue::Number(bits)) => bits,
        _ => 0x3f80_0000u32,
    }
}

fn edge_weight(edge: &LegalFollowGraphEdge) -> (w: u32)
    ensures
        w == edge_weight_bits(*edge),
{
    match get_member(&edge.metadata, "weight") {
        Some(JsonValue::Number(bits)) => *bits,
        _ => 0x3f80_0000u32,
    }
}

/// The ids known as nodes of the graph.
pub open spec fn known_ids(g: LegalFollowGraph) -> Set<Seq<char>> {
    node_ids_of(g.nodes@).to_set()
}

/// The edges chosen so far, and the node ids they require.
pub struct Retention {
    pub ids: Set<Seq<char>>,
    pub edges: Seq<int>,
}

/// How many of an edge's endpoints are not yet retained.
pub open spec fn endpoints_needed(ids: Set<Seq<char>>, s: Seq<char>, t: Seq<char>) -> int {
    (if ids.contains(s) { 0int } else { 1int }) + (if s == t || ids.contains(t) { 0int } else { 1int })
}

/// Edge retention over the first `n` edges: in source order, an edge is kept when
/// fewer than `max_edges` are kept, both endpoints are known nodes, and its
/// endpoints still fit the node budget.
pub open spec fn edge_retention(g: LegalFollowGraph, max_nodes: usize, max_edges: usize, n: int) -> Retention
    decreases n,
{
    if n <= 0 {
        Retention { ids: Set::empty(), edges: Seq::empty() }
    } else {
        let st = edge_retention(g, max_nodes, max_edges, n - 1);
        let e = g.edges@[n - 1];
        if st.edges.len() >= max_edges || !known_ids(g).contains(e.source@) || !known_ids(g).contains(e.target@)
            || st.ids.len() + endpoints_needed(st.ids, e.source@, e.target@) > max_nodes {
            st
        } else {
            Retention { ids: st.ids.insert(e.source@).insert(e.target@), edges: st.edges.push(n - 1) }
        }
    }
}

/// Node retention over the first `n` nodes: remaining capacity is filled in source order.
pub open spec fn node_retention(g: LegalFollowGraph, max_nodes: usize, start: Set<Seq<char>>, n: int) -> Set<Seq<char>>
    decreases n,
{
    if n <= 0 {
        start
    } else {
        let ids = node_retention(g, max_nodes, start, n - 1);
        if ids.len() >= max_nodes {
            ids
        } else {
            ids.insert(g.nodes@[n - 1].id@)
        }
    }
}

/// The retained node ids: those of the kept edges, then capacity filled from the nodes.
pub open spec fn retained_ids(g: LegalFollowGraph, max_nodes: usize, max_edges: usize) -> Set<Seq<char>> {
    node_retention(g, max_nodes, edge_retention(g, max_nodes, max_edges, g.edges@.len() as int).ids, g.nodes@.len() as int)
}

/// Indexes, among the first `n` nodes, of nodes whose id is in `ids`.
pub open spec fn kept_node_indexes(nodes: Seq<LegalFollowGraphNode>, ids: Set<Seq<char>>, n: int) -> Seq<int>
    decreases n,
{
    if n <= 0 {
        Seq::empty()
    } else {
        let p = kept_node_indexes(nodes, ids, n - 1);
        if ids.contains(nodes[n - 1].id@) {
            p.push(n - 1)
        } else {
            p
        }
    }
}

/// The first `n` of the kept edge indexes whose endpoints are both among `ids`.
pub open spec fn kept_edge_indexes(edges: Seq<LegalFollowGraphEdge>, chosen: Seq<int>, ids: Set<Seq<char>>, n: int) -> Seq<int>
    decreases n,
{
    if n <= 0 {
        Seq::empty()
    } else {
        let p = kept_edge_indexes(edges, chosen, ids, n - 1);
        let e = edges[chosen[n - 1]];
        if ids.contains(e.source@) && ids.contains(e.target@) {
            p.push(chosen[n - 1])
        } else {
            p
        }
    }
}

/// The nodes the bounded projection keeps, in source order.
pub open spec fn kept_nodes(g: LegalFollowGraph, max_nodes: usize, max_edges: usize) -> Seq<LegalFollowGraphNode> {
    let idx = kept_node_indexes(g.nodes@, retained_ids(g, max_nodes, max_edges), g.nodes@.len() as int);
    idx.map_values(|i: int| g.nodes@[i])
}

/// The edges the bounded projection keeps, in source order.
pub open spec fn kept_edges(g: LegalFollowGraph, max_nodes: usize, max_edges: usize) -> Seq<LegalFollowGraphEdge> {
    let chosen = edge_retention(g, max_nodes, max_edges, g.edges@.len() as int).edges;
    let kept_ids = node_ids_of(kept_nodes(g, max_nodes, max_edges)).to_set();
    kept_edge_indexes(g.edges@, chosen, kept_ids, chosen.len() as int).map_values(|i: int| g.edges@[i])
}

/// The id of the last of `nodes` whose visual id is `vid`.
pub open spec fn last_id_with_vid(nodes: Seq<LegalFollowGraphNode>, vid: VisualObjectId) -> Option<Seq<char>>
    decreases nodes.len(),
{
    if nodes.len() == 0 {
        None
    } else if stable_id(nodes.last().id@) == vid {
        Some(nodes.last().id@)
    } else {
        last_id_with_vid(nodes.drop_last(), vid)
    }
}

/// The first kept node, in order, whose visual id the last earlier node with that
/// visual id holds under a different id: the collision between the two.
pub open spec fn kept_node_fault(kept: Seq<LegalFollowGraphNode>) -> Option<Seq<char>>
    decreases kept.len(),
{
    if kept.len() == 0 {
        None
    } else {
        match kept_node_fault(kept.drop_last()) {
            Some(e) => Some(e),
            None => {
                let r = kept.last().id@;
                match last_id_with_vid(kept.drop_last(), stable_id(r)) {
                    Some(x) => if x != r {
                        Some(collision_message(x, r))
                    } else {
                        None
                    },
                    None => None,
                }
            },
        }
    }
}

proof fn lemma_last_id_with_vid(nodes: Seq<LegalFollowGraphNode>, vid: VisualObjectId)
    ensures
        match last_id_with_vid(nodes, vid) {
            Some(x) => exists|k: int| 0 <= k < nodes.len() && stable_id(nodes[k].id@) == vid && #[trigger] nodes[k].id@ == x,
            None => forall|k: int| 0 <= k < nodes.len() ==> stable_id(#[trigger] nodes[k].id@) != vid,
        },
    decreases nodes.len(),
{
    if nodes.len() > 0 {
        let p = nodes.drop_last();
        lemma_last_id_with_vid(p, vid);
        if stable_id(nodes.last().id@) != vid {
            match last_id_with_vid(p, vid) {
                Some(x) => {
                    let k = choose|k: int| 0 <= k < p.len() && stable_id(p[k].id@) == vid && #[trigger] p[k].id@ == x;
                    assert(nodes[k] == p[k]);
                },
                None => {
                    assert forall|k: int| 0 <= k < nodes.len() implies stable_id(#[trigger] nodes[k].id@) != vid by {
                        if k < p.len() {
                            assert(nodes[k] == p[k]);
                        }
                    }
                },
            }
        } else {
            assert(nodes[nodes.len() - 1].id@ == nodes.last().id@);
        }
    }
}

/// Once a prefix of the kept nodes has a fault, every longer prefix has the same one.
proof fn lemma_kept_fault_stays(kept: Seq<LegalFollowGraphNode>, n: int)
    requires
        0 <= n <= kept.len(),
        kept_node_fault(kept.subrange(0, n)) is Some,
    ensures
        kept_node_fault(kept) == kept_node_fault(kept.subrange(0, n)),
    decreases kept.len() - n,
{
    if n < kept.len() {
        let p = kept.subrange(0, n + 1);
        assert(p.drop_last() =~= kept.subrange(0, n));
        lemma_kept_fault_stays(kept, n + 1);
    } else {
        assert(kept.subrange(0, n) =~= kept);
    }
}

pub open spec fn collision_message(a: Seq<char>, b: Seq<char>) -> Seq<char> {
    "stable visual ID collision between "@ + a + " and "@ + b
}

pub open spec fn legal_node_view(n: LegalFollowGraphNode, slot: int, ring: int) -> NodeView {
    NodeView {
        id: stable_id(n.id@),
        semantic_ref: n.id@,
        kind: n.kind@,
        label: n.label@,
        source_refs: metadata_ref_list(n.metadata@, source_ref_keys()),
        provenance_refs: metadata_ref_list(n.metadata@, provenance_ref_keys()),
        hidden: false,
        layout_slot: slot as u64,
        layout_ring: ring as u64,
    }
}

pub open spec fn legal_edge_view(e: LegalFollowGraphEdge) -> EdgeView {
    EdgeView {
        id: stable_id(edge_ref_text(e)),
        from: stable_id(e.source@),
        to: stable_id(e.target@),
        semantic_ref: edge_ref_text(e),
        kind: e.kind@,
        source_refs: metadata_ref_list(e.metadata@, source_ref_keys()),
        provenance_refs: metadata_ref_list(e.metadata@, provenance_ref_keys()),
        hidden: false,
        weight_bits: edge_weight_bits(e),
    }
}

/// The graph reference of the projection: the graph's version, else `au.legal_follow_graph`.
pub open spec fn legal_graph_ref(g: LegalFollowGraph) -> Seq<char> {
    match g.version {
        Some(v) => v@,
        None => "au.legal_follow_graph"@,
    }
}

/// The bounded graph IR of a legal-follow graph: the kept nodes on a ring layout
/// (identified by their stable visual ids) and the kept edges between them.
pub open spec fn legal_graph_ir(g: LegalFollowGraph, max_nodes: usize, max_edges: usize) -> GraphView {
    let kept = kept_nodes(g, max_nodes, max_edges);
    let ring = if kept.len() == 0 { 1int } else { kept.len() as int };
    GraphView {
        graph_ref: legal_graph_ref(g),
        derived_only: match g.derived_only { Some(b) => b, None => true },
        challengeable: match g.challengeable { Some(b) => b, None => true },
        nodes: Seq::new(kept.len(), |i: int| legal_node_view(kept[i], i, ring)),
        edges: kept_edges(g, max_nodes, max_edges).map_values(|e: LegalFollowGraphEdge| legal_edge_view(e)),
    }
}

pub open spec fn usize_ints(v: Seq<usize>) -> Seq<int> {
    v.map_values(|u: usize| u as int)
}

fn node_id_set(nodes: &Vec<LegalFollowGraphNode>) -> (s: RefSet)
    ensures
        s@.to_set() == node_ids_of(nodes@).to_set(),
{
    let mut s = RefSet::new();
    let mut i: usize = 0;
    while i < nodes.len()
        invariant
            i <= nodes@.len(),
            s@.to_set() == node_ids_of(nodes@.subrange(0, i as int)).to_set(),
        decreases nodes@.len() - i,
    {
        s.insert(nodes[i].id.clone());
        proof {
            let p = node_ids_of(nodes@.subrange(0, i as int));
            assert(node_ids_of(nodes@.subrange(0, i + 1)) =~= p.push(nodes@[i as int].id@));
            p.lemma_push_to_set_commute(nodes@[i as int].id@);
        }
        i = i + 1;
    }
    assert(nodes@.subrange(0, i as int) =~= nodes@);
    s
}

/// The size of a retained-id set, read from the sorted set that holds it.
fn retained_len(s: &RefSet) -> (n: usize)
    ensures
        n == s@.to_set().len(),
        s@.to_set().finite(),
{
    proof {
        use_type_invariant(s);
        lemma_sorted_set_len(s@);
        vstd::seq_lib::seq_to_set_is_finite(s@);
    }
    s.len()
}

fn build_message(a: &str, b: &str) -> (m: String)
    ensures
        m@ == collision_message(a@, b@),
{
    let mut m = String::from_str("stable visual ID collision between ");
    m.append(a);
    m.append(" and ");
    m.append(b);
    m
}

/// Projects a legal-follow graph into graph IR within a node and an edge budget.
///
/// A bounded proof view must retain a usable neighbourhood: source-order edges
/// that fit the node budget are kept first, then remaining capacity is filled
/// from source-order nodes. This is a projection choice only; it neither infers
/// nor promotes an omitted relationship.
pub fn legal_follow_graph_to_ir(graph: &LegalFollowGraph, max_nodes: usize, max_edges: usize) -> (r: Result<GraphIr, String>)
    ensures
        match r {
            Ok(ir) => kept_node_fault(kept_nodes(*graph, max_nodes, max_edges)) is None
                && ir@ == legal_graph_ir(*graph, max_nodes, max_edges),
            Err(e) => kept_node_fault(kept_nodes(*graph, max_nodes, max_edges)) == Some(e@),
        },
{
    let ghost g = *graph;
    let known = node_id_set(&graph.nodes);
    // Edges first: source order, within both budgets.
    let mut retained = RefSet::new();
    let mut chosen: Vec<usize> = Vec::new();
    let mut i: usize = 0;
    proof {
        assert(retained@.to_set() =~= Set::<Seq<char>>::empty());
        assert(usize_ints(chosen@) =~= Seq::<int>::empty());
    }
    while i < graph.edges.len()
        invariant
            g == *graph,
            i <= graph.edges@.len(),
            known@.to_set() == known_ids(g),
            retained@.to_set() == edge_retention(g, max_nodes, max_edges, i as int).ids,
            usize_ints(chosen@) == edge_retention(g, max_nodes, max_edges, i as int).edges,
            forall|k: int| 0 <= k < chosen@.len() ==> chosen@[k] < i,
        decreases graph.edges@.len() - i,
    {
        let e = &graph.edges[i];
        let ghost st = edge_retention(g, max_nodes, max_edges, i as int);
        let count = retained_len(&retained);
        if chosen.len() >= max_edges || !known.contains(e.source.as_str()) || !known.contains(e.target.as_str()) {
            i = i + 1;
            continue;
        }
        let mut needed: usize = 0;
        if !retained.contains(e.source.as_str()) {
            needed = needed + 1;
        }
        if e.source != e.target && !retained.contains(e.target.as_str()) {
            needed = needed + 1;
        }
        assert(needed == endpoints_needed(st.ids, e.source@, e.target@));
        if needed > max_nodes || count > max_nodes - needed {
            i = i + 1;
            continue;
        }
        retained.insert(e.source.clone());
        retained.insert(e.target.clone());
        let ghost prev = usize_ints(chosen@);
        chosen.push(i);
        assert(usize_ints(chosen@) =~= prev.push(i as int));
        i = i + 1;
    }
    // Then remaining capacity from the nodes, in source order.
    let ghost after_edges = retained@.to_set();
    let mut i: usize = 0;
    while i < graph.nodes.len()
        invariant
            g == *graph,
            i <= graph.nodes@.len(),
            after_edges == edge_retention(g, max_nodes, max_edges, g.edges@.len() as int).ids,
            retained@.to_set() == node_retention(g, max_nodes, after_edges, i as int),
        decreases graph.nodes@.len() - i,
    {
        let count = retained_len(&retained);
        if count < max_nodes {
            retained.insert(graph.nodes[i].id.clone());
        }
        i = i + 1;
    }
    // The kept nodes, in source order.
    let ghost ids = retained@.to_set();
    assert(ids == retained_ids(g, max_nodes, max_edges));
    let mut kept: Vec<usize> = Vec::new();
    let mut i: usize = 0;
    assert(usize_ints(kept@) =~= Seq::<int>::empty());
    while i < graph.nodes.len()
        invariant
            g == *graph,
            i <= graph.nodes@.len(),
            ids == retained@.to_set(),
            usize_ints(kept@) == kept_node_indexes(g.nodes@, ids, i as int),
            forall|k: int| 0 <= k < kept@.len() ==> kept@[k] < i,
        decreases graph.nodes@.len() - i,
    {
        if retained.contains(graph.nodes[i].id.as_str()) {
            let ghost prev = usize_ints(kept@);
            kept.push(i);
            assert(usize_ints(kept@) =~= prev.push(i as int));
        }
        i = i + 1;
    }
    let ghost kept_spec = kept_nodes(g, max_nodes, max_edges);
    assert(kept_spec =~= usize_ints(kept@).map_values(|k: int| g.nodes@[k]));
    assert forall|k: int| 0 <= k < kept@.len() implies #[trigger] kept_spec[k] == graph.nodes@[kept@[k] as int] by {
        assert(usize_ints(kept@)[k] == kept@[k] as int);
    }
    // Visual ids, refusing a collision between different semantic references.
    let mut vids: Vec<VisualObjectId> = Vec::new();
    let mut j: usize = 0;
    while j < kept.len()
        invariant
            g == *graph,
            kept_spec == kept_nodes(g, max_nodes, max_edges),
            kept_spec.len() == kept@.len(),
            forall|k: int| 0 <= k < kept@.len() ==> kept@[k] < graph.nodes@.len(),
            forall|k: int| 0 <= k < kept@.len() ==> #[trigger] kept_spec[k] == graph.nodes@[kept@[k] as int],
            j <= kept@.len(),
            vids@.len() == j,
            forall|k: int| 0 <= k < j ==> vids@[k] == stable_id(#[trigger] kept_spec[k].id@),
            forall|a: int, b: int|
                0 <= a < b < j ==> !(stable_id(kept_spec[a].id@) == stable_id(kept_spec[b].id@)
                    && kept_spec[a].id@ != kept_spec[b].id@),
            kept_node_fault(kept_spec.subrange(0, j as int)) is None,
        decreases kept@.len() - j,
    {
        let node = &graph.nodes[kept[j]];
        let vid = stable_visual_id(node.id.as_str());
        let ghost prefix = kept_spec.subrange(0, j as int);
        let ghost p = kept_spec.subrange(0, j + 1);
        proof {
            assert(p.drop_last() =~= prefix);
            assert(p.last() == kept_spec[j as int]);
            assert(kept_spec[j as int] == *node);
            lemma_last_id_with_vid(prefix, vid);
        }
        match earlier_collision(graph, &kept, &vids, j, Ghost(kept_spec)) {
            Some(a) => {
                let other = &graph.nodes[kept[a]];
                let msg = build_message(other.id.as_str(), node.id.as_str());
                proof {
                    assert(kept_spec[a as int] == *other);
                    assert(prefix[a as int] == kept_spec[a as int]);
                    let x = last_id_with_vid(prefix, vid)->Some_0;
                    let k = choose|k: int| 0 <= k < prefix.len() && stable_id(prefix[k].id@) == vid && #[trigger] prefix[k].id@ == x;
                    assert(prefix[k] == kept_spec[k]);
                    if k != a as int {
                        if k < a {
                            assert(!(stable_id(kept_spec[k].id@) == stable_id(kept_spec[a as int].id@)
                                && kept_spec[k].id@ != kept_spec[a as int].id@));
                        } else {
                            assert(!(stable_id(kept_spec[a as int].id@) == stable_id(kept_spec[k].id@)
                                && kept_spec[a as int].id@ != kept_spec[k].id@));
                        }
                    }
                    assert(kept_node_fault(p) == Some(msg@));
                    lemma_kept_fault_stays(kept_spec, j + 1);
                }
                return Err(msg);
            },
            None => {
                proof {
                    match last_id_with_vid(prefix, vid) {
                        Some(x) => {
                            let k = choose|k: int| 0 <= k < prefix.len() && stable_id(prefix[k].id@) == vid && #[trigger] prefix[k].id@ == x;
                            assert(prefix[k] == kept_spec[k]);
                        },
                        None => {},
                    }
                    assert(kept_node_fault(p) is None);
                }
            },
        }
        assert(kept_spec[j as int] == *node);
        vids.push(vid);
        j = j + 1;
    }
    assert(kept_spec.subrange(0, j as int) =~= kept_spec);
    // Nodes on a ring layout.
    let sources = source_keys();
    let provenances = provenance_keys();
    let ring: u64 = if kept.len() == 0 { 1 } else { kept.len() as u64 };
    let ghost ring_i: int = if kept_spec.len() == 0 { 1int } else { kept_spec.len() as int };
    let mut nodes: Vec<VisualNode> = Vec::new();
    let mut j: usize = 0;
    while j < kept.len()
        invariant
            g == *graph,
            kept_spec.len() == kept@.len(),
            forall|k: int| 0 <= k < kept@.len() ==> kept@[k] < graph.nodes@.len(),
            forall|k: int| 0 <= k < kept@.len() ==> #[trigger] kept_spec[k] == graph.nodes@[kept@[k] as int],
            forall|k: int| 0 <= k < kept@.len() ==> vids@[k] == stable_id(#[trigger] kept_spec[k].id@),
            vids@.len() == kept@.len(),
            key_views(sources@) == source_ref_keys(),
            key_views(provenances@) == provenance_ref_keys(),
            ring as int == ring_i,
            j <= kept@.len(),
            node_views(nodes@) == Seq::new(j as nat, |k: int| legal_node_view(kept_spec[k], k, ring_i)),
        decreases kept@.len() - j,
    {
        let n = &graph.nodes[kept[j]];
        let v = VisualNode {
            id: vids[j],
            semantic_ref: n.id.clone(),
            kind: n.kind.clone(),
            label: n.label.clone(),
            source_refs: metadata_refs(&n.metadata, &sources),
            provenance_refs: metadata_refs(&n.metadata, &provenances),
            hidden: false,
            layout_slot: j as u64,
            layout_ring: ring,
        };
        let ghost prev = node_views(nodes@);
        nodes.push(v);
        assert(kept_spec[j as int] == *n);
        assert(node_views(nodes@) =~= prev.push(legal_node_view(kept_spec[j as int], j as int, ring_i)));
        assert(node_views(nodes@) =~= Seq::new((j + 1) as nat, |k: int| legal_node_view(kept_spec[k], k, ring_i)));
        j = j + 1;
    }
    // Edges between kept nodes.
    let kept_ids = kept_id_set(graph, &kept, Ghost(kept_spec));
    let ghost kept_id_view = kept_ids@.to_set();
    let ghost chosen_spec = edge_retention(g, max_nodes, max_edges, g.edges@.len() as int).edges;
    let ghost kept_edge_spec = kept_edges(g, max_nodes, max_edges);
    let mut edges: Vec<VisualEdge> = Vec::new();
    let mut c: usize = 0;
    let ghost mut sel: Seq<int> = Seq::empty();
    while c < chosen.len()
        invariant
            g == *graph,
            usize_ints(chosen@) == chosen_spec,
            forall|k: int| 0 <= k < chosen@.len() ==> chosen@[k] < graph.edges@.len(),
            kept_id_view == kept_ids@.to_set(),
            kept_id_view == node_ids_of(kept_spec).to_set(),
            key_views(sources@) == source_ref_keys(),
            key_views(provenances@) == provenance_ref_keys(),
            c <= chosen@.len(),
            sel == kept_edge_indexes(g.edges@, chosen_spec, kept_id_view, c as int),
            edge_views(edges@) == sel.map_values(|k: int| legal_edge_view(g.edges@[k])),
        decreases chosen@.len() - c,
    {
        let e = &graph.edges[chosen[c]];
        assert(chosen_spec[c as int] == chosen@[c as int] as int);
        if kept_ids.contains(e.source.as_str()) && kept_ids.contains(e.target.as_str()) {
            let semantic_ref = edge_semantic_ref(e);
            let v = VisualEdge {
                id: stable_visual_id(semantic_ref.as_str()),
                from: stable_visual_id(e.source.as_str()),
                to: stable_visual_id(e.target.as_str()),
                semantic_ref,
                kind: e.kind.clone(),
                source_refs: metadata_refs(&e.metadata, &sources),
                provenance_refs: metadata_refs(&e.metadata, &provenances),
                hidden: false,
                weight_bits: edge_weight(e),
            };
            let ghost prev = edge_views(edges@);
            edges.push(v);
            proof {
                sel = sel.push(chosen@[c as int] as int);
                assert(edge_views(edges@) =~= prev.push(legal_edge_view(*e)));
                assert(edge_views(edges@) =~= sel.map_values(|k: int| legal_edge_view(g.edges@[k])));
            }
        }
        c = c + 1;
    }
    proof {
        assert(sel == kept_edge_indexes(g.edges@, chosen_spec, kept_id_view, chosen_spec.len() as int));
        assert(edge_views(edges@) =~= kept_edge_spec.map_values(|e: LegalFollowGraphEdge| legal_edge_view(e)));
    }
    let graph_ref = match &graph.version {
        Some(v) => v.clone(),
        None => String::from_str("au.legal_follow_graph"),
    };
    let ir = GraphIr {
        graph_ref,
        derived_only: match graph.derived_only {
            Some(b) => b,
            None => true,
        },
        challengeable: match graph.challengeable {
            Some(b) => b,
            None => true,
        },
        nodes,
        edges,
    };
    assert(ir@.nodes =~= legal_graph_ir(g, max_nodes, max_edges).nodes);
    Ok(ir)
}

/// An earlier kept node whose visual id equals that of kept node `j` under a different id.
fn earlier_collision(
    graph: &LegalFollowGraph,
    kept: &Vec<usize>,
    vids: &Vec<VisualObjectId>,
    j: usize,
    Ghost(kept_spec): Ghost<Seq<LegalFollowGraphNode>>,
) -> (a: Option<usize>)
    requires
        kept_spec.len() == kept@.len(),
        forall|k: int| 0 <= k < kept@.len() ==> kept@[k] < graph.nodes@.len(),
        forall|k: int| 0 <= k < kept@.len() ==> #[trigger] kept_spec[k] == graph.nodes@[kept@[k] as int],
        j < kept@.len(),
        vids@.len() == j,
        forall|k: int| 0 <= k < j ==> vids@[k] == stable_id(#[trigger] kept_spec[k].id@),
    ensures
        match a {
            Some(a) => a < j && stable_id(kept_spec[a as int].id@) == stable_id(kept_spec[j as int].id@)
                && kept_spec[a as int].id@ != kept_spec[j as int].id@,
            None => forall|k: int| 0 <= k < j ==> !(stable_id(kept_spec[k].id@) == stable_id(kept_spec[j as int].id@)
                && kept_spec[k].id@ != kept_spec[j as int].id@),
        },
{
    let node = &graph.nodes[kept[j]];
    let vid = stable_visual_id(node.id.as_str());
    assert(kept_spec[j as int] == *node);
    let mut a: usize = 0;
    while a < j
        invariant
            kept_spec.len() == kept@.len(),
            forall|k: int| 0 <= k < kept@.len() ==> kept@[k] < graph.nodes@.len(),
            forall|k: int| 0 <= k < kept@.len() ==> #[trigger] kept_spec[k] == graph.nodes@[kept@[k] as int],
            j < kept@.len(),
            vids@.len() == j,
            kept_spec[j as int] == *node,
            vid == stable_id(node.id@),
            forall|k: int| 0 <= k < j ==> vids@[k] == stable_id(#[trigger] kept_spec[k].id@),
            a <= j,
            forall|k: int| 0 <= k < a ==> !(stable_id(kept_spec[k].id@) == stable_id(kept_spec[j as int].id@)
                && kept_spec[k].id@ != kept_spec[j as int].id@),
        decreases j - a,
    {
        let other = &graph.nodes[kept[a]];
        assert(kept_spec[a as int] == *other);
        if vids[a] == vid && other.id != node.id {
            return Some(a);
        }
        a = a + 1;
    }
    None
}

fn kept_id_set(graph: &LegalFollowGraph, kept: &Vec<usize>, Ghost(kept_spec): Ghost<Seq<LegalFollowGraphNode>>) -> (s: RefSet)
    requires
        kept_spec.len() == kept@.len(),
        forall|k: int| 0 <= k < kept@.len() ==> kept@[k] < graph.nodes@.len(),
        forall|k: int| 0 <= k < kept@.len() ==> #[trigger] kept_spec[k] == graph.nodes@[kept@[k] as int],
    ensures
        s@.to_set() == node_ids_of(kept_spec).to_set(),
{
    let mut s = RefSet::new();
    let mut i: usize = 0;
    while i < kept.len()
        invariant
            kept_spec.len() == kept@.len(),
            forall|k: int| 0 <= k < kept@.len() ==> kept@[k] < graph.nodes@.len(),
            forall|k: int| 0 <= k < kept@.len() ==> #[trigger] kept_spec[k] == graph.nodes@[kept@[k] as int],
            i <= kept@.len(),
            s@.to_set() == node_ids_of(kept_spec.subrange(0, i as int)).to_set(),
        decreases kept@.len() - i,
    {
        s.insert(graph.nodes[kept[i]].id.clone());
        proof {
            let p = node_ids_of(kept_spec.subrange(0, i as int));
            assert(kept_spec[i as int] == graph.nodes@[kept@[i as int] as int]);
            assert(node_ids_of(kept_spec.subrange(0, i + 1)) =~= p.push(kept_spec[i as int].id@));
            p.lemma_push_to_set_commute(kept_spec[i as int].id@);
        }
        i = i + 1;
    }
    assert(kept_spec.subrange(0, i as int) =~= kept_spec);
    s
}

// ---------------------------------------------------------------------------
// Reading a persisted legal-follow graph out of a JSON document.
// ---------------------------------------------------------------------------

/// An optional string field: absent or null is no string, a string is read.
pub open spec fn opt_str_ok(v: Option<JsonValue>) -> bool {
    match v {
        None => true,
        Some(JsonValue::Null) => true,
        Some(JsonValue::String(_)) => true,
        _ => false,
    }
}

pub open spec fn opt_str(v: Option<JsonValue>) -> Option<Seq<char>> {
    match v {
        Some(JsonValue::String(s)) => Some(s@),
        _ => None,
    }
}

/// An optional boolean field: absent or null is no value, a boolean is read.
pub open spec fn opt_bool_ok(v: Option<JsonValue>) -> bool {
    match v {
        None => true,
        Some(JsonValue::Null) => true,
        Some(JsonValue::Bool(_)) => true,
        _ => false,
    }
}

pub open spec fn opt_bool(v: Option<JsonValue>) -> Option<bool> {
    match v {
        Some(JsonValue::Bool(b)) => Some(b),
        _ => None,
    }
}

pub open spec fn opt_string_view(s: Option<String>) -> Option<Seq<char>> {
    match s {
        Some(s) => Some(s@),
        None => None,
    }
}

/// A metadata field: absent is empty, an object gives its members.
pub open spec fn metadata_ok(v: Option<JsonValue>) -> bool {
    match v {
        None => true,
        Some(JsonValue::Object(_)) => true,
        _ => false,
    }
}

pub open spec fn metadata_of(v: Option<JsonValue>) -> Seq<(String, JsonValue)> {
    match v {
        Some(JsonValue::Object(m)) => m@,
        _ => Seq::empty(),
    }
}

/// A node is an object with string `id`, `kind` and `label`, and optional metadata.
pub open spec fn node_decodable(v: JsonValue) -> bool {
    &&& v is Object
    &&& str_member(v, "id"@) is Some
    &&& str_member(v, "kind"@) is Some
    &&& str_member(v, "label"@) is Some
    &&& metadata_ok(json_get(v, "metadata"@))
}

pub open spec fn node_decodes(v: JsonValue, n: LegalFollowGraphNode) -> bool {
    &&& node_decodable(v)
    &&& str_member(v, "id"@) == Some(n.id@)
    &&& str_member(v, "kind"@) == Some(n.kind@)
    &&& str_member(v, "label"@) == Some(n.label@)
    &&& n.metadata@ == metadata_of(json_get(v, "metadata"@))
}

/// An edge is an object with string `source`, `target` and `kind`, and optional metadata.
pub open spec fn edge_decodable(v: JsonValue) -> bool {
    &&& v is Object
    &&& str_member(v, "source"@) is Some
    &&& str_member(v, "target"@) is Some
    &&& str_member(v, "kind"@) is Some
    &&& metadata_ok(json_get(v, "metadata"@))
}

pub open spec fn edge_decodes(v: JsonValue, e: LegalFollowGraphEdge) -> bool {
    &&& edge_decodable(v)
    &&& str_member(v, "source"@) == Some(e.source@)
    &&& str_member(v, "target"@) == Some(e.target@)
    &&& str_member(v, "kind"@) == Some(e.kind@)
    &&& e.metadata@ == metadata_of(json_get(v, "metadata"@))
}

/// The node list: absent is empty, otherwise an array of nodes.
pub open spec fn nodes_decodable(v: Option<JsonValue>) -> bool {
    match v {
        None => true,
        Some(JsonValue::Array(items)) => forall|i: int| 0 <= i < items@.len() ==> node_decodable(#[trigger] items@[i]),
        _ => false,
    }
}

pub open spec fn nodes_decode(v: Option<JsonValue>, nodes: Seq<LegalFollowGraphNode>) -> bool {
    match v {
        None => nodes.len() == 0,
        Some(JsonValue::Array(items)) => items@.len() == nodes.len()
            && forall|i: int| 0 <= i < nodes.len() ==> node_decodes(#[trigger] items@[i], nodes[i]),
        _ => false,
    }
}

/// The edge list: absent is empty, otherwise an array of edges.
pub open spec fn edges_decodable(v: Option<JsonValue>) -> bool {
    match v {
        None => true,
        Some(JsonValue::Array(items)) => forall|i: int| 0 <= i < items@.len() ==> edge_decodable(#[trigger] items@[i]),
        _ => false,
    }
}

pub open spec fn edges_decode(v: Option<JsonValue>, edges: Seq<LegalFollowGraphEdge>) -> bool {
    match v {
        None => edges.len() == 0,
        Some(JsonValue::Array(items)) => items@.len() == edges.len()
            && forall|i: int| 0 <= i < edges.len() ==> edge_decodes(#[trigger] items@[i], edges[i]),
        _ => false,
    }
}

/// Whether `v` has the shape of a persisted legal-follow graph. Members that the
/// graph does not name are ignored.
pub open spec fn graph_decodable(v: JsonValue) -> bool {
    &&& v is Object
    &&& opt_str_ok(json_get(v, "version"@))
    &&& opt_bool_ok(json_get(v, "derived_only"@))
    &&& opt_bool_ok(json_get(v, "challengeable"@))
    &&& nodes_decodable(json_get(v, "nodes"@))
    &&& edges_decodable(json_get(v, "edges"@))
}

/// `g` is what `v` reads as.
pub open spec fn graph_decodes(v: JsonValue, g: LegalFollowGraph) -> bool {
    &&& graph_decodable(v)
    &&& opt_string_view(g.version) == opt_str(json_get(v, "version"@))
    &&& g.derived_only == opt_bool(json_get(v, "derived_only"@))
    &&& g.challengeable == opt_bool(json_get(v, "challengeable"@))
    &&& nodes_decode(json_get(v, "nodes"@), g.nodes@)
    &&& edges_decode(json_get(v, "edges"@), g.edges@)
}

/// Why `v` does not read as a graph: the first field, in declaration order, that is amiss.
pub open spec fn graph_error(v: JsonValue) -> Seq<char> {
    if !(v is Object) {
        "expected an object"@
    } else if !opt_str_ok(json_get(v, "version"@)) {
        "invalid type for `version`, expected a string"@
    } else if !opt_bool_ok(json_get(v, "derived_only"@)) {
        "invalid type for `derived_only`, expected a boolean"@
    } else if !opt_bool_ok(json_get(v, "challengeable"@)) {
        "invalid type for `challengeable`, expected a boolean"@
    } else if !nodes_decodable(json_get(v, "nodes"@)) {
        "invalid `nodes`, expected an array of nodes with string id, kind and label"@
    } else {
        "invalid `edges`, expected an array of edges with string source, target and kind"@
    }
}

pub open spec fn graph_error_message(v: JsonValue) -> Seq<char> {
    "invalid persisted legal_follow_graph: "@ + graph_error(v)
}

/// The string of an optional field, when it is one.
fn take_str(v: Option<JsonValue>) -> (r: Option<String>)
    ensures
        opt_string_view(r) == opt_str(v),
{
    match v {
        Some(JsonValue::String(s)) => Some(s),
        _ => None,
    }
}

fn take_metadata(v: Option<JsonValue>) -> (r: Option<Vec<(String, JsonValue)>>)
    ensures
        match r {
            Some(m) => metadata_ok(v) && m@ == metadata_of(v),
            None => !metadata_ok(v),
        },
{
    match v {
        None => Some(Vec::new()),
        Some(JsonValue::Object(m)) => Some(m),
        _ => None,
    }
}

fn node_keys() -> (k: Vec<&'static str>)
    ensures
        k@.len() == 4,
        k@[0]@ == "id"@,
        k@[1]@ == "kind"@,
        k@[2]@ == "label"@,
        k@[3]@ == "metadata"@,
        crate::json::distinct_keys(k@),
{
    let k = vec!["id", "kind", "label", "metadata"];
    proof {
        reveal_strlit("id");
        reveal_strlit("kind");
        reveal_strlit("label");
        reveal_strlit("metadata");
        assert forall|a: int, b: int| 0 <= a < b < k@.len() implies k@[a]@ != k@[b]@ by {
            assert(k@[a]@.len() != k@[b]@.len());
        }
    }
    k
}

/// Reads one node, consuming the value.
fn decode_node(v: JsonValue) -> (r: Option<LegalFollowGraphNode>)
    ensures
        match r {
            Some(n) => node_decodes(v, n),
            None => !node_decodable(v),
        },
{
    let ghost gv = v;
    match v {
        JsonValue::Object(members) => {
            let keys = node_keys();
            let mut f = take_fields(members, &keys);
            assert(f@[0] == json_get(gv, "id"@));
            assert(f@[1] == json_get(gv, "kind"@));
            assert(f@[2] == json_get(gv, "label"@));
            assert(f@[3] == json_get(gv, "metadata"@));
            let metadata = f.pop().unwrap();
            let label = f.pop().unwrap();
            let kind = f.pop().unwrap();
            let id = f.pop().unwrap();
            match (take_str(id), take_str(kind), take_str(label), take_metadata(metadata)) {
                (Some(id), Some(kind), Some(label), Some(metadata)) => Some(LegalFollowGraphNode { id, kind, label, metadata }),
                _ => None,
            }
        },
        _ => None,
    }
}

fn edge_keys() -> (k: Vec<&'static str>)
    ensures
        k@.len() == 4,
        k@[0]@ == "source"@,
        k@[1]@ == "target"@,
        k@[2]@ == "kind"@,
        k@[3]@ == "metadata"@,
        crate::json::distinct_keys(k@),
{
    let k = vec!["source", "target", "kind", "metadata"];
    proof {
        reveal_strlit("source");
        reveal_strlit("target");
        reveal_strlit("kind");
        reveal_strlit("metadata");
        assert forall|a: int, b: int| 0 <= a < b < k@.len() implies k@[a]@ != k@[b]@ by {
            if a == 0 && b == 1 {
                assert(k@[a]@[0] != k@[b]@[0]);
            } else {
                assert(k@[a]@.len() != k@[b]@.len());
            }
        }
    }
    k
}

/// Reads one edge, consuming the value.
fn decode_edge(v: JsonValue) -> (r: Option<LegalFollowGraphEdge>)
    ensures
        match r {
            Some(e) => edge_decodes(v, e),
            None => !edge_decodable(v),
        },
{
    let ghost gv = v;
    match v {
        JsonValue::Object(members) => {
            let keys = edge_keys();
            let mut f = take_fields(members, &keys);
            assert(f@[0] == json_get(gv, "source"@));
            assert(f@[1] == json_get(gv, "target"@));
            assert(f@[2] == json_get(gv, "kind"@));
            assert(f@[3] == json_get(gv, "metadata"@));
            let metadata = f.pop().unwrap();
            let kind = f.pop().unwrap();
            let target = f.pop().unwrap();
            let source = f.pop().unwrap();
            match (take_str(source), take_str(target), take_str(kind), take_metadata(metadata)) {
                (Some(source), Some(target), Some(kind), Some(metadata)) => Some(LegalFollowGraphEdge { source, target, kind, metadata }),
                _ => None,
            }
        },
        _ => None,
    }
}

/// Reads the node list, consuming it.
fn decode_nodes(v: Option<JsonValue>) -> (r: Option<Vec<LegalFollowGraphNode>>)
    ensures
        match r {
            Some(ns) => nodes_decodable(v) && nodes_decode(v, ns@),
            None => !nodes_decodable(v),
        },
{
    let ghost gv = v;
    match v {
        None => Some(Vec::new()),
        Some(JsonValue::Array(items)) => {
            let ghost all = items@;
            let mut items = items;
            let mut rev: Vec<LegalFollowGraphNode> = Vec::new();
            while items.len() > 0
                invariant
                    items@.len() <= all.len(),
                    items@ == all.subrange(0, items@.len() as int),
                    rev@.len() + items@.len() == all.len(),
                    forall|k: int| 0 <= k < rev@.len() ==> node_decodes(all[all.len() - 1 - k], #[trigger] rev@[k]),
                    nodes_decodable(gv) == (forall|i: int| 0 <= i < all.len() ==> node_decodable(#[trigger] all[i])),
                    gv == v,
                decreases items@.len(),
            {
                let ghost n = items@.len() as int;
                let it = items.pop().unwrap();
                assert(it == all[n - 1]);
                match decode_node(it) {
                    Some(node) => rev.push(node),
                    None => {
                        assert(!node_decodable(all[n - 1]));
                        return None;
                    },
                }
                assert(items@ =~= all.subrange(0, items@.len() as int));
            }
            let mut out: Vec<LegalFollowGraphNode> = Vec::new();
            while rev.len() > 0
                invariant
                    rev@.len() + out@.len() == all.len(),
                    forall|k: int| 0 <= k < rev@.len() ==> node_decodes(all[all.len() - 1 - k], #[trigger] rev@[k]),
                    forall|j: int| 0 <= j < out@.len() ==> node_decodes(all[j], #[trigger] out@[j]),
                decreases rev@.len(),
            {
                let node = rev.pop().unwrap();
                out.push(node);
            }
            assert forall|i: int| 0 <= i < all.len() implies node_decodable(#[trigger] all[i]) by {
                assert(node_decodes(all[i], out@[i]));
            }
            Some(out)
        },
        _ => None,
    }
}

/// Reads the edge list, consuming it.
fn decode_edges(v: Option<JsonValue>) -> (r: Option<Vec<LegalFollowGraphEdge>>)
    ensures
        match r {
            Some(es) => edges_decodable(v) && edges_decode(v, es@),
            None => !edges_decodable(v),
        },
{
    let ghost gv = v;
    match v {
        None => Some(Vec::new()),
        Some(JsonValue::Array(items)) => {
            let ghost all = items@;
            let mut items = items;
            let mut rev: Vec<LegalFollowGraphEdge> = Vec::new();
            while items.len() > 0
                invariant
                    items@.len() <= all.len(),
                    items@ == all.subrange(0, items@.len() as int),
                    rev@.len() + items@.len() == all.len(),
                    forall|k: int| 0 <= k < rev@.len() ==> edge_decodes(all[all.len() - 1 - k], #[trigger] rev@[k]),
                    edges_decodable(gv) == (forall|i: int| 0 <= i < all.len() ==> edge_decodable(#[trigger] all[i])),
                    gv == v,
                decreases items@.len(),
            {
                let ghost n = items@.len() as int;
                let it = items.pop().unwrap();
                assert(it == all[n - 1]);
                match decode_edge(it) {
                    Some(edge) => rev.push(edge),
                    None => {
                        assert(!edge_decodable(all[n - 1]));
                        return None;
                    },
                }
                assert(items@ =~= all.subrange(0, items@.len() as int));
            }
            let mut out: Vec<LegalFollowGraphEdge> = Vec::new();
            while rev.len() > 0
                invariant
                    rev@.len() + out@.len() == all.len(),
                    forall|k: int| 0 <= k < rev@.len() ==> edge_decodes(all[all.len() - 1 - k], #[trigger] rev@[k]),
                    forall|j: int| 0 <= j < out@.len() ==> edge_decodes(all[j], #[trigger] out@[j]),
                decreases rev@.len(),
            {
                let edge = rev.pop().unwrap();
                out.push(edge);
            }
            assert forall|i: int| 0 <= i < all.len() implies edge_decodable(#[trigger] all[i]) by {
                assert(edge_decodes(all[i], out@[i]));
            }
            Some(out)
        },
        _ => None,
    }
}

fn graph_keys() -> (k: Vec<&'static str>)
    ensures
        k@.len() == 5,
        k@[0]@ == "version"@,
        k@[1]@ == "derived_only"@,
        k@[2]@ == "challengeable"@,
        k@[3]@ == "nodes"@,
        k@[4]@ == "edges"@,
        crate::json::distinct_keys(k@),
{
    let k = vec!["version", "derived_only", "challengeable", "nodes", "edges"];
    proof {
        reveal_strlit("version");
        reveal_strlit("derived_only");
        reveal_strlit("challengeable");
        reveal_strlit("nodes");
        reveal_strlit("edges");
        assert forall|a: int, b: int| 0 <= a < b < k@.len() implies k@[a]@ != k@[b]@ by {
            if a == 3 && b == 4 {
                assert(k@[a]@[0] != k@[b]@[0]);
            } else {
                assert(k@[a]@.len() != k@[b]@.len());
            }
        }
    }
    k
}

fn invalid_graph(reason: &str) -> (e: String)
    ensures
        e@ == "invalid persisted legal_follow_graph: "@ + reason@,
{
    let mut e = String::from_str("invalid persisted legal_follow_graph: ");
    e.append(reason);
    e
}

/// Reads a persisted legal-follow graph out of its JSON value, consuming it.
///
/// The graph is an object; `version` is an optional string, `derived_only` and
/// `challengeable` optional booleans (null reads as absent), `nodes` and `edges`
/// arrays that default to empty. A node needs string `id`, `kind` and `label`, an
/// edge string `source`, `target` and `kind`; either may carry a metadata object.
/// Other members are ignored.
///
/// A refusal keeps the prefix `invalid persisted legal_follow_graph: `; the
/// detail after it is this library's own wording (`graph_error`), naming the
/// first member that does not fit, not a message of a JSON library.
pub fn decode_legal_follow_graph(v: JsonValue) -> (r: Result<LegalFollowGraph, String>)
    ensures
        match r {
            Ok(g) => graph_decodes(v, g),
            Err(e) => !graph_decodable(v) && e@ == graph_error_message(v),
        },
{
    let ghost gv = v;
    match v {
        JsonValue::Object(members) => {
            let keys = graph_keys();
            let mut f = take_fields(members, &keys);
            assert(f@[0] == json_get(gv, "version"@));
            assert(f@[1] == json_get(gv, "derived_only"@));
            assert(f@[2] == json_get(gv, "challengeable"@));
            assert(f@[3] == json_get(gv, "nodes"@));
            assert(f@[4] == json_get(gv, "edges"@));
            let edges = f.pop().unwrap();
            let nodes = f.pop().unwrap();
            let challengeable = f.pop().unwrap();
            let derived_only = f.pop().unwrap();
            let version = f.pop().unwrap();
            let version = match version {
                None => None,
                Some(JsonValue::Null) => None,
                Some(JsonValue::String(s)) => Some(s),
                _ => {
                    return Err(invalid_graph("invalid type for `version`, expected a string"));
                },
            };
            let derived_only = match derived_only {
                None => None,
                Some(JsonValue::Null) => None,
                Some(JsonValue::Bool(b)) => Some(b),
                _ => {
                    return Err(invalid_graph("invalid type for `derived_only`, expected a boolean"));
                },
            };
            let challengeable = match challengeable {
                None => None,
                Some(JsonValue::Null) => None,
                Some(JsonValue::Bool(b)) => Some(b),
                _ => {
                    return Err(invalid_graph("invalid type for `challengeable`, expected a boolean"));
                },
            };
            let nodes = match decode_nodes(nodes) {
                Some(nodes) => nodes,
                None => {
                    return Err(invalid_graph("invalid `nodes`, expected an array of nodes with string id, kind and label"));
                },
            };
            let edges = match decode_edges(edges) {
                Some(edges) => edges,
                None => {
                    return Err(invalid_graph("invalid `edges`, expected an array of edges with string source, target and kind"));
                },
            };
            Ok(LegalFollowGraph { version, derived_only, challengeable, nodes, edges })
        },
        _ => Err(invalid_graph("expected an object")),
    }
}

// ---------------------------------------------------------------------------
// The persisted AU workbench document.
// ---------------------------------------------------------------------------

#[derive(Debug, Clone, PartialEq, Eq)]
pub struct AuFactReviewProjection {
    pub read_model: UnifiedWorkbenchReadModel,
    pub graph_ir: GraphIr,
    pub persisted_source_refs: Vec<String>,
    pub persisted_event_refs: Vec<String>,
    pub persisted_research_refs: Vec<String>,
}

/// The workbench of a persisted document: its `workbench` member, else the document itself.
pub open spec fn workbench_of(d: JsonValue) -> JsonValue {
    match json_get(d, "workbench"@) {
        Some(w) => w,
        None => d,
    }
}

/// Where the persisted graph stands, first found first: under the workbench, under
/// the workbench's semantic context, under the document's semantic context.
pub open spec fn graph_value_of(d: JsonValue) -> Option<JsonValue> {
    let w = workbench_of(d);
    first_of(
        json_get(w, "legal_follow_graph"@),
        first_of(
            json_get_opt(json_get(w, "semantic_context"@), "legal_follow_graph"@),
            json_get_opt(json_get(d, "semantic_context"@), "legal_follow_graph"@),
        ),
    )
}

/// The rows of an optional value: the items of an array, none for anything else.
pub open spec fn array_rows(v: Option<JsonValue>) -> Seq<JsonValue> {
    match v {
        Some(JsonValue::Array(items)) => items@,
        _ => Seq::empty(),
    }
}

/// The strings of one row under any of `keys`; the blank ones are left out when `nonblank`.
pub open spec fn row_strings(row: JsonValue, keys: Seq<Seq<char>>, nonblank: bool) -> Set<Seq<char>>
    decreases keys.len(),
{
    if keys.len() == 0 {
        Set::empty()
    } else {
        row_strings(row, keys.drop_last(), nonblank).union(
            match str_member(row, keys.last()) {
                Some(s) => if nonblank && blank(s) {
                    Set::empty()
                } else {
                    set![s]
                },
                None => Set::empty(),
            },
        )
    }
}

/// The strings of all `rows` under any of `keys`.
pub open spec fn rows_strings(rows: Seq<JsonValue>, keys: Seq<Seq<char>>, nonblank: bool) -> Set<Seq<char>>
    decreases rows.len(),
{
    if rows.len() == 0 {
        Set::empty()
    } else {
        rows_strings(rows.drop_last(), keys, nonblank).union(row_strings(rows.last(), keys, nonblank))
    }
}

/// The non-blank source references of the document's source rows.
pub open spec fn persisted_sources(d: JsonValue) -> Set<Seq<char>> {
    let rows = first_of(json_get(workbench_of(d), "sources"@), json_get(d, "sources"@));
    rows_strings(array_rows(rows), seq!["source_id"@, "source_ref"@], true)
}

/// The non-blank event references of the document's event rows.
pub open spec fn persisted_events(d: JsonValue) -> Set<Seq<char>> {
    let rows = first_of(json_get(workbench_of(d), "events"@), json_get(d, "events"@));
    rows_strings(array_rows(rows), seq!["event_id"@], true)
}

/// The references of the professional-handoff operator view's items.
pub open spec fn persisted_handoffs(d: JsonValue) -> Set<Seq<char>> {
    let views = json_get(workbench_of(d), "operator_views"@);
    let items = json_get_opt(json_get_opt(views, "professional_handoff"@), "items"@);
    rows_strings(array_rows(items), seq!["fact_id"@, "event_id"@, "source_id"@, "claim_id"@], false)
}

pub open spec fn research_row_keys() -> Seq<Seq<char>> {
    seq!["fact_id"@, "claim_id"@, "edge_id"@, "event_id"@, "target_ref"@]
}

/// The rows of a research operator view: its queue, else its items.
pub open spec fn view_rows(views: Option<JsonValue>, name: Seq<char>) -> Seq<JsonValue> {
    let view = json_get_opt(views, name);
    array_rows(first_of(json_get_opt(view, "queue"@), json_get_opt(view, "items"@)))
}

/// The research references: the review queue, and the authority-follow,
/// legal-follow-graph and contested-items operator views.
pub open spec fn persisted_research(d: JsonValue) -> Set<Seq<char>> {
    let w = workbench_of(d);
    let views = json_get(w, "operator_views"@);
    rows_strings(array_rows(json_get(w, "review_queue"@)), seq!["fact_id"@, "claim_id"@, "event_id"@], false)
        .union(rows_strings(view_rows(views, "authority_follow"@), research_row_keys(), false))
        .union(rows_strings(view_rows(views, "legal_follow_graph"@), research_row_keys(), false))
        .union(rows_strings(view_rows(views, "contested_items"@), research_row_keys(), false))
}

/// A non-blank string member.
pub open spec fn nonblank_str(v: JsonValue, key: Seq<char>) -> Option<Seq<char>> {
    match str_member(v, key) {
        Some(s) => if blank(s) {
            None
        } else {
            Some(s)
        },
        None => None,
    }
}

/// The run id of a run record: its fact run id, else its run id, else its semantic run id.
pub open spec fn run_id(run: Option<JsonValue>) -> Option<Seq<char>> {
    match run {
        Some(r) => match nonblank_str(r, "fact_run_id"@) {
            Some(s) => Some(s),
            None => match nonblank_str(r, "run_id"@) {
                Some(s) => Some(s),
                None => nonblank_str(r, "semantic_run_id"@),
            },
        },
        None => None,
    }
}

/// The world of the projection: `world:au:` and the run id of the workbench's run,
/// else of the document's run; `world:au:persisted-fact-review` when neither has one.
pub open spec fn persisted_world_ref(d: JsonValue) -> Seq<char> {
    let id = match run_id(json_get(workbench_of(d), "run"@)) {
        Some(s) => Some(s),
        None => run_id(json_get(d, "run"@)),
    };
    match id {
        Some(r) => "world:au:"@ + r,
        None => "world:au:persisted-fact-review"@,
    }
}

/// What the persisted document hands the stage model, with `g` its decoded graph.
pub open spec fn persisted_bearing_input(d: JsonValue, g: LegalFollowGraph) -> BearingInputView {
    BearingInputView {
        world_ref: persisted_world_ref(d),
        journal_or_source_refs: sorted_enumeration(persisted_sources(d)),
        timeline_event_refs: sorted_enumeration(persisted_events(d)),
        handoff_refs: sorted_enumeration(persisted_handoffs(d)),
        legal_node_refs: node_ids_of(g.nodes@),
        legal_edge_refs: edge_refs_of(g.edges@),
        research_residual_refs: sorted_enumeration(persisted_research(d)),
    }
}

/// The member `key` of an optional object, taken out of it.
fn take_member(v: Option<JsonValue>, key: &str) -> (r: Option<JsonValue>)
    ensures
        r == json_get_opt(v, key@),
{
    match v {
        Some(JsonValue::Object(m)) => {
            let keys = vec![key];
            let mut f = take_fields(m, &keys);
            f.pop().unwrap()
        },
        _ => None,
    }
}

/// Takes the persisted graph's value out of the document.
fn take_graph_value(document: JsonValue) -> (g: Option<JsonValue>)
    ensures
        g == graph_value_of(document),
{
    let ghost d = document;
    match document {
        JsonValue::Object(members) => {
            let keys = vec!["workbench", "semantic_context", "legal_follow_graph"];
            proof {
                reveal_strlit("workbench");
                reveal_strlit("semantic_context");
                reveal_strlit("legal_follow_graph");
                assert forall|a: int, b: int| 0 <= a < b < keys@.len() implies keys@[a]@ != keys@[b]@ by {
                    assert(keys@[a]@.len() != keys@[b]@.len());
                }
            }
            let mut f = take_fields(members, &keys);
            assert(f@[0] == json_get(d, "workbench"@));
            assert(f@[1] == json_get(d, "semantic_context"@));
            assert(f@[2] == json_get(d, "legal_follow_graph"@));
            let top_graph = f.pop().unwrap();
            let top_context = f.pop().unwrap();
            let workbench = f.pop().unwrap();
            match workbench {
                Some(JsonValue::Object(wm)) => {
                    let ghost w = JsonValue::Object(wm);
                    let wkeys = vec!["legal_follow_graph", "semantic_context"];
                    proof {
                        assert(wkeys@[0]@.len() != wkeys@[1]@.len());
                    }
                    let mut wf = take_fields(wm, &wkeys);
                    assert(wf@[0] == json_get(w, "legal_follow_graph"@));
                    assert(wf@[1] == json_get(w, "semantic_context"@));
                    let w_context = wf.pop().unwrap();
                    let w_graph = wf.pop().unwrap();
                    if w_graph.is_some() {
                        return w_graph;
                    }
                    let nested = take_member(w_context, "legal_follow_graph");
                    if nested.is_some() {
                        return nested;
                    }
                    take_member(top_context, "legal_follow_graph")
                },
                Some(_) => take_member(top_context, "legal_follow_graph"),
                None => {
                    if top_graph.is_some() {
                        top_graph
                    } else {
                        take_member(top_context, "legal_follow_graph")
                    }
                },
            }
        },
        _ => None,
    }
}

fn workbench_ref(d: &JsonValue) -> (w: &JsonValue)
    ensures
        *w == workbench_of(*d),
{
    match d.get("workbench") {
        Some(w) => w,
        None => d,
    }
}

/// Adds the strings of the rows of `rows` under any of `keys`, the blank ones left
/// out when `nonblank`.
fn collect_row_strings(rows: Option<&JsonValue>, keys: &Vec<&str>, nonblank: bool, out: &mut RefSet)
    ensures
        final(out)@.to_set() == old(out)@.to_set().union(
            rows_strings(array_rows(deref_opt(rows)), key_views(keys@), nonblank),
        ),
{
    let ghost kv = key_views(keys@);
    match rows {
        Some(JsonValue::Array(items)) => {
            let ghost start = out@.to_set();
            let mut i: usize = 0;
            assert(start.union(rows_strings(items@.subrange(0, 0), kv, nonblank)) =~= start);
            while i < items.len()
                invariant
                    i <= items@.len(),
                    kv == key_views(keys@),
                    out@.to_set() == start.union(rows_strings(items@.subrange(0, i as int), kv, nonblank)),
                decreases items@.len() - i,
            {
                let row = &items[i];
                let ghost before = out@.to_set();
                let mut k: usize = 0;
                assert(before.union(row_strings(*row, kv.subrange(0, 0), nonblank)) =~= before);
                while k < keys.len()
                    invariant
                        k <= keys@.len(),
                        kv == key_views(keys@),
                        out@.to_set() == before.union(row_strings(*row, kv.subrange(0, k as int), nonblank)),
                    decreases keys@.len() - k,
                {
                    let ghost ks = kv.subrange(0, k + 1);
                    assert(ks.drop_last() =~= kv.subrange(0, k as int));
                    assert(ks.last() == keys@[k as int]@);
                    match row.get(keys[k]) {
                        Some(JsonValue::String(s)) => {
                            if !nonblank || !is_blank(s.as_str()) {
                                out.insert(s.clone());
                            }
                        },
                        _ => {},
                    }
                    assert(out@.to_set() =~= before.union(row_strings(*row, ks, nonblank)));
                    k = k + 1;
                }
                assert(kv.subrange(0, k as int) =~= kv);
                proof {
                    let p = items@.subrange(0, i + 1);
                    assert(p.drop_last() =~= items@.subrange(0, i as int));
                    assert(out@.to_set() =~= start.union(rows_strings(p, kv, nonblank)));
                }
                i = i + 1;
            }
            assert(items@.subrange(0, i as int) =~= items@);
        },
        _ => {
            assert(old(out)@.to_set().union(rows_strings(array_rows(deref_opt(rows)), kv, nonblank)) =~= old(out)@.to_set());
        },
    }
}

/// A non-blank string member.
fn nonblank_string(v: &JsonValue, key: &str) -> (r: Option<String>)
    ensures
        opt_string_view(r) == nonblank_str(*v, key@),
{
    match v.get(key) {
        Some(JsonValue::String(s)) => {
            if is_blank(s.as_str()) {
                None
            } else {
                Some(s.clone())
            }
        },
        _ => None,
    }
}

fn run_id_of(run: Option<&JsonValue>) -> (r: Option<String>)
    ensures
        opt_string_view(r) == run_id(deref_opt(run)),
{
    match run {
        Some(run) => match nonblank_string(run, "fact_run_id") {
            Some(s) => Some(s),
            None => match nonblank_string(run, "run_id") {
                Some(s) => Some(s),
                None => nonblank_string(run, "semantic_run_id"),
            },
        },
        None => None,
    }
}

fn world_ref_of(d: &JsonValue) -> (r: String)
    ensures
        r@ == persisted_world_ref(*d),
{
    let w = workbench_ref(d);
    let id = match run_id_of(w.get("run")) {
        Some(s) => Some(s),
        None => run_id_of(d.get("run")),
    };
    match id {
        Some(run) => {
            let mut r = String::from_str("world:au:");
            r.append(run.as_str());
            r
        },
        None => String::from_str("world:au:persisted-fact-review"),
    }
}

fn sorted_refs_of(out: RefSet, Ghost(s): Ghost<Set<Seq<char>>>) -> (r: Vec<String>)
    requires
        out@.to_set() == s,
    ensures
        r.deep_view() == sorted_enumeration(s),
{
    proof {
        use_type_invariant(&out);
        lemma_sorted_enumeration(out@);
    }
    out.to_vec()
}

fn source_refs_of(d: &JsonValue) -> (r: Vec<String>)
    ensures
        r.deep_view() == sorted_enumeration(persisted_sources(*d)),
{
    let w = workbench_ref(d);
    let keys = vec!["source_id", "source_ref"];
    assert(key_views(keys@) =~= seq!["source_id"@, "source_ref"@]);
    let mut out = RefSet::new();
    collect_row_strings(first_ref(w.get("sources"), d.get("sources")), &keys, true, &mut out);
    assert(out@.to_set() =~= persisted_sources(*d));
    sorted_refs_of(out, Ghost(persisted_sources(*d)))
}

fn event_refs_of(d: &JsonValue) -> (r: Vec<String>)
    ensures
        r.deep_view() == sorted_enumeration(persisted_events(*d)),
{
    let w = workbench_ref(d);
    let keys = vec!["event_id"];
    assert(key_views(keys@) =~= seq!["event_id"@]);
    let mut out = RefSet::new();
    collect_row_strings(first_ref(w.get("events"), d.get("events")), &keys, true, &mut out);
    assert(out@.to_set() =~= persisted_events(*d));
    sorted_refs_of(out, Ghost(persisted_events(*d)))
}

fn handoff_refs_of(d: &JsonValue) -> (r: Vec<String>)
    ensures
        r.deep_view() == sorted_enumeration(persisted_handoffs(*d)),
{
    let w = workbench_ref(d);
    let keys = vec!["fact_id", "event_id", "source_id", "claim_id"];
    assert(key_views(keys@) =~= seq!["fact_id"@, "event_id"@, "source_id"@, "claim_id"@]);
    let mut out = RefSet::new();
    let items = get_opt(get_opt(w.get("operator_views"), "professional_handoff"), "items");
    collect_row_strings(items, &keys, false, &mut out);
    assert(out@.to_set() =~= persisted_handoffs(*d));
    sorted_refs_of(out, Ghost(persisted_handoffs(*d)))
}

/// The queue of an operator view, else its items.
fn view_rows_ref<'a>(views: Option<&'a JsonValue>, name: &str) -> (r: Option<&'a JsonValue>)
    ensures
        array_rows(deref_opt(r)) == view_rows(deref_opt(views), name@),
{
    let view = get_opt(views, name);
    first_ref(get_opt(view, "queue"), get_opt(view, "items"))
}

fn research_refs_of(d: &JsonValue) -> (r: Vec<String>)
    ensures
        r.deep_view() == sorted_enumeration(persisted_research(*d)),
{
    let w = workbench_ref(d);
    let queue_keys = vec!["fact_id", "claim_id", "event_id"];
    assert(key_views(queue_keys@) =~= seq!["fact_id"@, "claim_id"@, "event_id"@]);
    let view_keys = vec!["fact_id", "claim_id", "edge_id", "event_id", "target_ref"];
    assert(key_views(view_keys@) =~= research_row_keys());
    let mut out = RefSet::new();
    collect_row_strings(w.get("review_queue"), &queue_keys, false, &mut out);
    let views = w.get("operator_views");
    collect_row_strings(view_rows_ref(views, "authority_follow"), &view_keys, false, &mut out);
    collect_row_strings(view_rows_ref(views, "legal_follow_graph"), &view_keys, false, &mut out);
    collect_row_strings(view_rows_ref(views, "contested_items"), &view_keys, false, &mut out);
    assert(out@.to_set() =~= persisted_research(*d));
    sorted_refs_of(out, Ghost(persisted_research(*d)))
}

/// What a projection of the document with decoded graph `g` comes to: the stage
/// model and the bounded graph IR, or the visual-id collision that stops it.
pub open spec fn persisted_outcome(
    d: JsonValue,
    g: LegalFollowGraph,
    max_nodes: usize,
    max_edges: usize,
    r: Result<AuFactReviewProjection, String>,
) -> bool {
    let kept = kept_nodes(g, max_nodes, max_edges);
    match r {
        Ok(p) => {
            &&& kept_node_fault(kept) is None
            &&& p.read_model@ == au_legal_bearing(persisted_bearing_input(d, g))
            &&& p.graph_ir@ == legal_graph_ir(g, max_nodes, max_edges)
            &&& p.persisted_source_refs.deep_view() == sorted_enumeration(persisted_sources(d))
            &&& p.persisted_event_refs.deep_view() == sorted_enumeration(persisted_events(d))
            &&& p.persisted_research_refs.deep_view() == sorted_enumeration(persisted_research(d))
        },
        Err(e) => kept_node_fault(kept) == Some(e@),
    }
}

/// What projecting the persisted document `d` gives: the refusal of a document
/// without a graph or with one that does not read as a graph, else the outcome for
/// its decoded graph.
pub open spec fn au_projection_result(
    d: JsonValue,
    max_nodes: usize,
    max_edges: usize,
    r: Result<AuFactReviewProjection, String>,
) -> bool {
    match graph_value_of(d) {
        None => r matches Err(e) && e@ == "persisted AU workbench has no legal_follow_graph"@,
        Some(gv) => if !graph_decodable(gv) {
            r matches Err(e) && e@ == graph_error_message(gv)
        } else {
            exists|g: LegalFollowGraph| #[trigger] graph_decodes(gv, g) && persisted_outcome(d, g, max_nodes, max_edges, r)
        },
    }
}

/// The graph IR of a persisted projection has every edge anchored at its nodes.
pub proof fn lemma_projection_edges_anchored(
    doc: Result<JsonValue, String>,
    max_nodes: usize,
    max_edges: usize,
    p: AuFactReviewProjection,
)
    requires
        au_json_result(doc, max_nodes, max_edges, Ok(p)),
    ensures
        edges_anchored(p.graph_ir@),
{
    let d = doc->Ok_0;
    let gv = graph_value_of(d).unwrap();
    let g = choose|g: LegalFollowGraph| #[trigger] graph_decodes(gv, g) && persisted_outcome(d, g, max_nodes, max_edges, Ok(p));
    lemma_legal_graph_ir_edges_anchored(g, max_nodes, max_edges);
}

/// What projecting a persisted document as parsed gives: the refusal of text that
/// is no JSON (`parsed` is the parser's message), else the projection of the document.
pub open spec fn au_json_result(
    parsed: Result<JsonValue, String>,
    max_nodes: usize,
    max_edges: usize,
    r: Result<AuFactReviewProjection, String>,
) -> bool {
    match parsed {
        Err(m) => r matches Err(e) && e@ == "invalid persisted workbench JSON: "@ + m@,
        Ok(d) => au_projection_result(d, max_nodes, max_edges, r),
    }
}

/// Projects a persisted AU workbench document as parsed from its text: text that
/// is no JSON is refused with the parser's message; see `project_persisted_document`.
pub fn project_persisted_au_workbench_json(parsed: Result<JsonValue, String>, max_nodes: usize, max_edges: usize) -> (r: Result<
    AuFactReviewProjection,
    String,
>)
    ensures
        au_json_result(parsed, max_nodes, max_edges, r),
{
    match parsed {
        Ok(document) => project_persisted_document(document, max_nodes, max_edges),
        Err(m) => {
            let mut e = String::from_str("invalid persisted workbench JSON: ");
            e.append(m.as_str());
            Err(e)
        },
    }
}

/// Projects a persisted AU workbench document: the stage model over its sources,
/// events, handoff and research references and its legal-follow graph, and the
/// bounded graph IR of that graph.
///
/// The graph is looked up under the workbench, under the workbench's semantic
/// context, then under the document's semantic context. A document without one,
/// or with one that does not read as a graph, is refused; so is a graph whose kept
/// nodes collide in visual id.
pub fn project_persisted_document(document: JsonValue, max_nodes: usize, max_edges: usize) -> (r: Result<
    AuFactReviewProjection,
    String,
>)
    ensures
        au_projection_result(document, max_nodes, max_edges, r),
{
    let ghost d = document;
    let source_refs = source_refs_of(&document);
    let event_refs = event_refs_of(&document);
    let handoff_refs = handoff_refs_of(&document);
    let research_refs = research_refs_of(&document);
    let world_ref = world_ref_of(&document);
    let graph_value = match take_graph_value(document) {
        Some(v) => v,
        None => {
            return Err(String::from_str("persisted AU workbench has no legal_follow_graph"));
        },
    };
    let graph = match decode_legal_follow_graph(graph_value) {
        Ok(g) => g,
        Err(e) => {
            return Err(e);
        },
    };
    let ghost g = graph;
    let graph_ir = match legal_follow_graph_to_ir(&graph, max_nodes, max_edges) {
        Ok(ir) => ir,
        Err(e) => {
            let r = Err(e);
            assert(persisted_outcome(d, g, max_nodes, max_edges, r));
            return r;
        },
    };
    let input = AuFactReviewProjectionInput {
        world_ref,
        source_refs: clone_refs(&source_refs),
        event_refs: clone_refs(&event_refs),
        handoff_refs,
        research_residual_refs: clone_refs(&research_refs),
        legal_follow_graph: graph,
    };
    assert(au_bearing_input(input) == persisted_bearing_input(d, g));
    let read_model = project_au_fact_review(input);
    let r = Ok(
        AuFactReviewProjection {
            read_model,
            graph_ir,
            persisted_source_refs: source_refs,
            persisted_event_refs: event_refs,
            persisted_research_refs: research_refs,
        },
    );
    assert(persisted_outcome(d, g, max_nodes, max_edges, r));
    r
}

// ---------------------------------------------------------------------------
// What every bounded projection keeps.
// ---------------------------------------------------------------------------

proof fn lemma_kept_edges_within(edges: Seq<LegalFollowGraphEdge>, chosen: Seq<int>, ids: Set<Seq<char>>, n: int)
    ensures
        forall|k: int|
            0 <= k < kept_edge_indexes(edges, chosen, ids, n).len() ==> ids.contains(
                edges[#[trigger] kept_edge_indexes(edges, chosen, ids, n)[k]].source@,
            ) && ids.contains(edges[kept_edge_indexes(edges, chosen, ids, n)[k]].target@),
    decreases n,
{
    if n > 0 {
        lemma_kept_edges_within(edges, chosen, ids, n - 1);
        let p = kept_edge_indexes(edges, chosen, ids, n - 1);
        let q = kept_edge_indexes(edges, chosen, ids, n);
        assert forall|k: int| 0 <= k < q.len() implies ids.contains(edges[#[trigger] q[k]].source@) && ids.contains(
            edges[q[k]].target@,
        ) by {
            if k < p.len() {
                assert(q[k] == p[k]);
            }
        }
    }
}

/// Every edge of a bounded projection runs between nodes of the projection: the
/// projection never keeps an edge whose endpoint it dropped.
pub proof fn lemma_legal_graph_ir_edges_anchored(g: LegalFollowGraph, max_nodes: usize, max_edges: usize)
    ensures
        edges_anchored(legal_graph_ir(g, max_nodes, max_edges)),
{
    let ir = legal_graph_ir(g, max_nodes, max_edges);
    let kept = kept_nodes(g, max_nodes, max_edges);
    let chosen = edge_retention(g, max_nodes, max_edges, g.edges@.len() as int).edges;
    let kept_ids = node_ids_of(kept).to_set();
    let idx = kept_edge_indexes(g.edges@, chosen, kept_ids, chosen.len() as int);
    lemma_kept_edges_within(g.edges@, chosen, kept_ids, chosen.len() as int);
    assert forall|i: int| 0 <= i < ir.edges.len() implies (#[trigger] last_node_by_id(ir.nodes, ir.edges[i].from)) is Some
        && last_node_by_id(ir.nodes, ir.edges[i].to) is Some by {
        let e = g.edges@[idx[i]];
        assert(kept_ids.contains(e.source@));
        assert(kept_ids.contains(e.target@));
        let a = choose|a: int| 0 <= a < node_ids_of(kept).len() && node_ids_of(kept)[a] == e.source@;
        let b = choose|b: int| 0 <= b < node_ids_of(kept).len() && node_ids_of(kept)[b] == e.target@;
        assert(ir.nodes[a].id == ir.edges[i].from);
        assert(ir.nodes[b].id == ir.edges[i].to);
        lemma_last_node_by_id_found(ir.nodes, a);
        lemma_last_node_by_id_found(ir.nodes, b);
    }
}

proof fn lemma_edge_retention_bounded(g: LegalFollowGraph, max_nodes: usize, max_edges: usize, n: int)
    ensures
        edge_retention(g, max_nodes, max_edges, n).ids.finite(),
        edge_retention(g, max_nodes, max_edges, n).ids.len() <= max_nodes,
        edge_retention(g, max_nodes, max_edges, n).edges.len() <= max_edges,
    decreases n,
{
    if n > 0 {
        lemma_edge_retention_bounded(g, max_nodes, max_edges, n - 1);
        let st = edge_retention(g, max_nodes, max_edges, n - 1);
        let e = g.edges@[n - 1];
        let once = st.ids.insert(e.source@);
        assert(once.len() == st.ids.len() + (if st.ids.contains(e.source@) { 0int } else { 1int }));
        assert(once.insert(e.target@).len() == once.len() + (if once.contains(e.target@) { 0int } else { 1int }));
    }
}

proof fn lemma_node_retention_bounded(g: LegalFollowGraph, max_nodes: usize, start: Set<Seq<char>>, n: int)
    requires
        start.finite(),
        start.len() <= max_nodes,
    ensures
        node_retention(g, max_nodes, start, n).finite(),
        node_retention(g, max_nodes, start, n).len() <= max_nodes,
    decreases n,
{
    if n > 0 {
        lemma_node_retention_bounded(g, max_nodes, start, n - 1);
    }
}

proof fn lemma_kept_nodes_within(nodes: Seq<LegalFollowGraphNode>, ids: Set<Seq<char>>, n: int)
    ensures
        forall|k: int|
            0 <= k < kept_node_indexes(nodes, ids, n).len() ==> ids.contains(
                nodes[#[trigger] kept_node_indexes(nodes, ids, n)[k]].id@,
            ),
    decreases n,
{
    if n > 0 {
        lemma_kept_nodes_within(nodes, ids, n - 1);
        let p = kept_node_indexes(nodes, ids, n - 1);
        let q = kept_node_indexes(nodes, ids, n);
        assert forall|k: int| 0 <= k < q.len() implies ids.contains(nodes[#[trigger] q[k]].id@) by {
            if k < p.len() {
                assert(q[k] == p[k]);
            }
        }
    }
}

proof fn lemma_kept_edge_count(edges: Seq<LegalFollowGraphEdge>, chosen: Seq<int>, ids: Set<Seq<char>>, n: int)
    requires
        0 <= n,
    ensures
        kept_edge_indexes(edges, chosen, ids, n).len() <= n,
    decreases n,
{
    if n > 0 {
        lemma_kept_edge_count(edges, chosen, ids, n - 1);
    }
}

/// A bounded projection stays within its budgets: it keeps at most `max_nodes`
/// distinct node ids and at most `max_edges` edges.
pub proof fn lemma_bounded_projection_within_budget(g: LegalFollowGraph, max_nodes: usize, max_edges: usize)
    ensures
        node_ids_of(kept_nodes(g, max_nodes, max_edges)).to_set().len() <= max_nodes,
        kept_edges(g, max_nodes, max_edges).len() <= max_edges,
{
    let retention = edge_retention(g, max_nodes, max_edges, g.edges@.len() as int);
    lemma_edge_retention_bounded(g, max_nodes, max_edges, g.edges@.len() as int);
    lemma_node_retention_bounded(g, max_nodes, retention.ids, g.nodes@.len() as int);
    let ids = retained_ids(g, max_nodes, max_edges);
    let idx = kept_node_indexes(g.nodes@, ids, g.nodes@.len() as int);
    lemma_kept_nodes_within(g.nodes@, ids, g.nodes@.len() as int);
    let kept_ids = node_ids_of(kept_nodes(g, max_nodes, max_edges)).to_set();
    assert forall|x: Seq<char>| kept_ids.contains(x) implies ids.contains(x) by {
        let k = choose|k: int| 0 <= k < node_ids_of(kept_nodes(g, max_nodes, max_edges)).len()
            && node_ids_of(kept_nodes(g, max_nodes, max_edges))[k] == x;
        assert(ids.contains(g.nodes@[idx[k]].id@));
    }
    vstd::set_lib::lemma_len_subset(kept_ids, ids);
    lemma_kept_edge_count(g.edges@, retention.edges, kept_ids, retention.edges.len() as int);
}

/// The AU projection makes Matter/Proof available exactly when the persisted
/// legal-follow graph has nodes, and promotes nothing.
pub proof fn lemma_au_review_proof_available_iff_nodes(input: AuFactReviewProjectionInput)
    ensures
        stage_of(au_legal_bearing(au_bearing_input(input)).stages, WorkbenchStageKind::MatterProof) matches Some(s)
            && ((s.availability is Available) <==> input.legal_follow_graph.nodes@.len() > 0),
        !au_legal_bearing(au_bearing_input(input)).creates_semantic_authority,
        !au_legal_bearing(au_bearing_input(input)).creates_claim_truth,
        !au_legal_bearing(au_bearing_input(input)).pays_residual,
{
    lemma_stage_availability_follows_persistence(au_bearing_input(input));
}


/// Two of `kept`, the first before the second, have different ids and the same
/// stable visual id.
pub open spec fn colliding_pair(kept: Seq<LegalFollowGraphNode>, i: int, j: int) -> bool {
    0 <= i < j < kept.len() && kept[i].id@ != kept[j].id@ && stable_id(kept[i].id@) == stable_id(kept[j].id@)
}

proof fn lemma_fault_is_collision(kept: Seq<LegalFollowGraphNode>)
    ensures
        (kept_node_fault(kept) is Some) <==> exists|i: int, j: int| #[trigger] colliding_pair(kept, i, j),
        kept_node_fault(kept) matches Some(m) ==> exists|i: int, j: int|
            #[trigger] colliding_pair(kept, i, j) && m == collision_message(kept[i].id@, kept[j].id@),
    decreases kept.len(),
{
    if kept.len() > 0 {
        let p = kept.drop_last();
        let n = kept.len() - 1;
        lemma_fault_is_collision(p);
        assert forall|i: int, j: int| #[trigger] colliding_pair(p, i, j) implies colliding_pair(kept, i, j) by {
            assert(p[i] == kept[i] && p[j] == kept[j]);
        }
        match kept_node_fault(p) {
            Some(m) => {
                let (i, j) = choose|i: int, j: int| #[trigger] colliding_pair(p, i, j) && m == collision_message(p[i].id@, p[j].id@);
                assert(colliding_pair(kept, i, j));
            },
            None => {
                let r = kept.last().id@;
                lemma_last_id_with_vid(p, stable_id(r));
                match last_id_with_vid(p, stable_id(r)) {
                    Some(x) => {
                        let k = choose|k: int| 0 <= k < p.len() && stable_id(p[k].id@) == stable_id(r) && #[trigger] p[k].id@ == x;
                        assert(kept[k] == p[k]);
                        if x != r {
                            assert(colliding_pair(kept, k, n));
                        } else {
                            assert forall|i: int, j: int| !#[trigger] colliding_pair(kept, i, j) by {
                                if colliding_pair(kept, i, j) {
                                    if j < n {
                                        assert(colliding_pair(p, i, j));
                                    } else {
                                        assert(kept[i] == p[i]);
                                        if i < k {
                                            assert(colliding_pair(p, i, k));
                                        } else {
                                            assert(colliding_pair(p, k, i));
                                        }
                                    }
                                }
                            }
                        }
                    },
                    None => {
                        assert forall|i: int, j: int| !#[trigger] colliding_pair(kept, i, j) by {
                            if colliding_pair(kept, i, j) {
                                if j < n {
                                    assert(colliding_pair(p, i, j));
                                } else {
                                    assert(kept[i] == p[i]);
                                    assert(stable_id(p[i].id@) != stable_id(r));
                                }
                            }
                        }
                    },
                }
            },
        }
    }
}

/// The bounded projection fails exactly when two kept nodes with different ids
/// share a stable visual id; the refusal then names two such ids, the earlier
/// one first. In particular it succeeds whenever no two kept ids collide.
pub proof fn lemma_projection_fails_iff_collision(g: LegalFollowGraph, max_nodes: usize, max_edges: usize)
    ensures
        (kept_node_fault(kept_nodes(g, max_nodes, max_edges)) is Some) <==> exists|i: int, j: int|
            #[trigger] colliding_pair(kept_nodes(g, max_nodes, max_edges), i, j),
        kept_node_fault(kept_nodes(g, max_nodes, max_edges)) matches Some(m) ==> exists|i: int, j: int|
            #[trigger] colliding_pair(kept_nodes(g, max_nodes, max_edges), i, j) && m == collision_message(
                kept_nodes(g, max_nodes, max_edges)[i].id@,
                kept_nodes(g, max_nodes, max_edges)[j].id@,
            ),
{
    lemma_fault_is_collision(kept_nodes(g, max_nodes, max_edges));
}


proof fn lemma_kept_node_indexes_range(nodes: Seq<LegalFollowGraphNode>, ids: Set<Seq<char>>, n: int)
    ensures
        forall|k: int|
            0 <= k < kept_node_indexes(nodes, ids, n).len() ==> 0 <= #[trigger] kept_node_indexes(nodes, ids, n)[k] < n,
    decreases n,
{
    if n > 0 {
        lemma_kept_node_indexes_range(nodes, ids, n - 1);
        let p = kept_node_indexes(nodes, ids, n - 1);
        let q = kept_node_indexes(nodes, ids, n);
        assert forall|k: int| 0 <= k < q.len() implies 0 <= #[trigger] q[k] < n by {
            if k < p.len() {
                assert(q[k] == p[k]);
            }
        }
    }
}

/// Every node of the projected graph is a node of the legal-follow graph, drawn
/// under that node's id as its reference, with that node's kind and label, under
/// the stable visual id of its id, and not hidden; the kept nodes appear in order.
pub proof fn lemma_projected_nodes_carry_their_source(g: LegalFollowGraph, max_nodes: usize, max_edges: usize)
    ensures
        legal_graph_ir(g, max_nodes, max_edges).nodes.len() == kept_nodes(g, max_nodes, max_edges).len(),
        forall|i: int|
            0 <= i < legal_graph_ir(g, max_nodes, max_edges).nodes.len() ==> {
                let n = #[trigger] legal_graph_ir(g, max_nodes, max_edges).nodes[i];
                let k = kept_nodes(g, max_nodes, max_edges)[i];
                &&& n.semantic_ref == k.id@
                &&& n.kind == k.kind@
                &&& n.label == k.label@
                &&& n.id == stable_id(k.id@)
                &&& !n.hidden
            },
        forall|i: int|
            0 <= i < kept_nodes(g, max_nodes, max_edges).len() ==> exists|j: int|
                0 <= j < g.nodes@.len() && g.nodes@[j] == #[trigger] kept_nodes(g, max_nodes, max_edges)[i],
{
    let ids = retained_ids(g, max_nodes, max_edges);
    let idx = kept_node_indexes(g.nodes@, ids, g.nodes@.len() as int);
    lemma_kept_node_indexes_range(g.nodes@, ids, g.nodes@.len() as int);
    assert forall|i: int| 0 <= i < kept_nodes(g, max_nodes, max_edges).len() implies exists|j: int|
        0 <= j < g.nodes@.len() && g.nodes@[j] == #[trigger] kept_nodes(g, max_nodes, max_edges)[i] by {
        assert(g.nodes@[idx[i]] == kept_nodes(g, max_nodes, max_edges)[i]);
    }
}


proof fn lemma_edge_retention_range(g: LegalFollowGraph, max_nodes: usize, max_edges: usize, n: int)
    requires
        n <= g.edges@.len(),
    ensures
        forall|k: int|
            0 <= k < edge_retention(g, max_nodes, max_edges, n).edges.len() ==> 0 <= #[trigger] edge_retention(
                g,
                max_nodes,
                max_edges,
                n,
            ).edges[k] < n,
    decreases n,
{
    if n > 0 {
        lemma_edge_retention_range(g, max_nodes, max_edges, n - 1);
        let p = edge_retention(g, max_nodes, max_edges, n - 1).edges;
        let q = edge_retention(g, max_nodes, max_edges, n).edges;
        assert forall|k: int| 0 <= k < q.len() implies 0 <= #[trigger] q[k] < n by {
            if k < p.len() {
                assert(q[k] == p[k]);
            }
        }
    }
}

proof fn lemma_kept_edge_indexes_chosen(edges: Seq<LegalFollowGraphEdge>, chosen: Seq<int>, ids: Set<Seq<char>>, n: int)
    requires
        n <= chosen.len(),
    ensures
        forall|k: int|
            0 <= k < kept_edge_indexes(edges, chosen, ids, n).len() ==> exists|c: int|
                0 <= c < n && chosen[c] == #[trigger] kept_edge_indexes(edges, chosen, ids, n)[k],
    decreases n,
{
    if n > 0 {
        lemma_kept_edge_indexes_chosen(edges, chosen, ids, n - 1);
        let p = kept_edge_indexes(edges, chosen, ids, n - 1);
        let q = kept_edge_indexes(edges, chosen, ids, n);
        assert forall|k: int| 0 <= k < q.len() implies exists|c: int| 0 <= c < n && chosen[c] == #[trigger] q[k] by {
            if k < p.len() {
                assert(q[k] == p[k]);
                let c = choose|c: int| 0 <= c < n - 1 && chosen[c] == #[trigger] p[k];
            } else {
                assert(q[k] == chosen[n - 1]);
            }
        }
    }
}

/// Every edge of the projected graph is an edge of the legal-follow graph: it is
/// drawn under the reference `edge:<kind>:<source>-><target>`, with the edge's
/// kind, from the stable visual id of its source to that of its target, under the
/// stable visual id of its reference, and not hidden.
pub proof fn lemma_projected_edges_carry_their_source(g: LegalFollowGraph, max_nodes: usize, max_edges: usize)
    ensures
        legal_graph_ir(g, max_nodes, max_edges).edges.len() == kept_edges(g, max_nodes, max_edges).len(),
        forall|i: int|
            0 <= i < legal_graph_ir(g, max_nodes, max_edges).edges.len() ==> {
                let e = #[trigger] legal_graph_ir(g, max_nodes, max_edges).edges[i];
                let k = kept_edges(g, max_nodes, max_edges)[i];
                &&& e.semantic_ref == "edge:"@ + k.kind@ + ":"@ + k.source@ + "->"@ + k.target@
                &&& e.kind == k.kind@
                &&& e.from == stable_id(k.source@)
                &&& e.to == stable_id(k.target@)
                &&& e.id == stable_id(e.semantic_ref)
                &&& !e.hidden
            },
        forall|i: int|
            0 <= i < kept_edges(g, max_nodes, max_edges).len() ==> exists|j: int|
                0 <= j < g.edges@.len() && g.edges@[j] == #[trigger] kept_edges(g, max_nodes, max_edges)[i],
{
    let chosen = edge_retention(g, max_nodes, max_edges, g.edges@.len() as int).edges;
    let kept_ids = node_ids_of(kept_nodes(g, max_nodes, max_edges)).to_set();
    let idx = kept_edge_indexes(g.edges@, chosen, kept_ids, chosen.len() as int);
    lemma_edge_retention_range(g, max_nodes, max_edges, g.edges@.len() as int);
    lemma_kept_edge_indexes_chosen(g.edges@, chosen, kept_ids, chosen.len() as int);
    assert forall|i: int| 0 <= i < kept_edges(g, max_nodes, max_edges).len() implies exists|j: int|
        0 <= j < g.edges@.len() && g.edges@[j] == #[trigger] kept_edges(g, max_nodes, max_edges)[i] by {
        let c = choose|c: int| 0 <= c < chosen.len() && chosen[c] == #[trigger] idx[i];
        assert(0 <= chosen[c] < g.edges@.len());
        assert(g.edges@[idx[i]] == kept_edges(g, max_nodes, max_edges)[i]);
    }
}

} // verus!
