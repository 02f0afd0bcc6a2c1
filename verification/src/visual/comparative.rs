//! Comparative visual projection.
//!
//! This is a projection over two already-existing graphs. It does not
//! merge, rewrite, or adjudicate the underlying semantic worlds.
use vstd::prelude::*;

use super::command::VisualObjectId;
use super::ir::{
    clone_edge, clone_node, f32_bits_eq, f32_bits_equal, edge_by_ref, edge_views, find_edge_by_ref, find_last_node_by_id,
    find_node_by_ref, last_node_by_id, lemma_edge_by_ref_is_last, lemma_node_by_ref_is_last, node_by_id, node_by_ref, node_views, EdgeView, GraphIr, GraphView, NodeView, VisualEdge, VisualNode,
};
use crate::refs::{
    clone_refs, lemma_sorted_enumeration, lemma_sorted_enumeration_exists, lemma_sorted_len_bound, merged_refs, rank_of,
    refs_equal, sorted_enumeration, sorted_refs, RefSet,
};
use crate::refs::{lemma_ref_lt_irreflexive, ref_lt};

verus! {

#[derive(Debug, Clone, Copy, PartialEq, Eq, Structural)]
pub enum ComparativeVisualClass {
    Shared,
    LeftOnly,
    RightOnly,
    Changed,
}

#[derive(Debug, Clone, PartialEq, Eq)]
pub struct ComparativeVisualObject {
    pub semantic_ref: String,
    pub class: ComparativeVisualClass,
    pub left_object_id: Option<VisualObjectId>,
    pub right_object_id: Option<VisualObjectId>,
    pub kind: String,
    pub source_refs: Vec<String>,
    pub provenance_refs: Vec<String>,
}

#[derive(Debug, Clone, PartialEq, Eq)]
pub struct ComparativeGraphIr {
    pub comparison_ref: String,
    pub left_graph_ref: String,
    pub right_graph_ref: String,
    pub objects: Vec<ComparativeVisualObject>,
    pub shared_semantic_refs: RefSet,
    pub left_only_semantic_refs: RefSet,
    pub right_only_semantic_refs: RefSet,
    pub changed_semantic_refs: RefSet,
    pub derived_only: bool,
    pub challengeable: bool,
    pub creates_semantic_authority: bool,
    pub creates_claim_truth: bool,
}

pub struct ObjectView {
    pub semantic_ref: Seq<char>,
    pub class: ComparativeVisualClass,
    pub left_object_id: Option<VisualObjectId>,
    pub right_object_id: Option<VisualObjectId>,
    pub kind: Seq<char>,
    pub source_refs: Seq<Seq<char>>,
    pub provenance_refs: Seq<Seq<char>>,
}

pub struct ComparisonView {
    pub comparison_ref: Seq<char>,
    pub left_graph_ref: Seq<char>,
    pub right_graph_ref: Seq<char>,
    pub objects: Seq<ObjectView>,
    pub shared_semantic_refs: Seq<Seq<char>>,
    pub left_only_semantic_refs: Seq<Seq<char>>,
    pub right_only_semantic_refs: Seq<Seq<char>>,
    pub changed_semantic_refs: Seq<Seq<char>>,
    pub derived_only: bool,
    pub challengeable: bool,
    pub creates_semantic_authority: bool,
    pub creates_claim_truth: bool,
}

impl View for ComparativeVisualObject {
    type V = ObjectView;

    open spec fn view(&self) -> ObjectView {
        ObjectView {
            semantic_ref: self.semantic_ref@,
            class: self.class,
            left_object_id: self.left_object_id,
            right_object_id: self.right_object_id,
            kind: self.kind@,
            source_refs: self.source_refs.deep_view(),
            provenance_refs: self.provenance_refs.deep_view(),
        }
    }
}

pub open spec fn object_views(objects: Seq<ComparativeVisualObject>) -> Seq<ObjectView> {
    objects.map_values(|o: ComparativeVisualObject| o@)
}

impl View for ComparativeGraphIr {
    type V = ComparisonView;

    open spec fn view(&self) -> ComparisonView {
        ComparisonView {
            comparison_ref: self.comparison_ref@,
            left_graph_ref: self.left_graph_ref@,
            right_graph_ref: self.right_graph_ref@,
            objects: object_views(self.objects@),
            shared_semantic_refs: self.shared_semantic_refs@,
            left_only_semantic_refs: self.left_only_semantic_refs@,
            right_only_semantic_refs: self.right_only_semantic_refs@,
            changed_semantic_refs: self.changed_semantic_refs@,
            derived_only: self.derived_only,
            challengeable: self.challengeable,
            creates_semantic_authority: self.creates_semantic_authority,
            creates_claim_truth: self.creates_claim_truth,
        }
    }
}

pub open spec fn node_refs(g: GraphView) -> Set<Seq<char>> {
    semantic_refs_of_nodes(g.nodes).to_set()
}

pub open spec fn edge_refs(g: GraphView) -> Set<Seq<char>> {
    semantic_refs_of_edges(g.edges).to_set()
}

/// Every semantic reference that either graph draws, as node or as edge.
pub open spec fn drawn_refs(l: GraphView, r: GraphView) -> Set<Seq<char>> {
    node_refs(l).union(node_refs(r)).union(edge_refs(l)).union(edge_refs(r))
}

pub open spec fn merged(a: Seq<Seq<char>>, b: Seq<Seq<char>>) -> Seq<Seq<char>> {
    sorted_enumeration(a.to_set().union(b.to_set()))
}

/// Two drawings of one semantic node differ in what the comparison looks at.
pub open spec fn node_changed(a: NodeView, b: NodeView) -> bool {
    a.kind != b.kind || a.label != b.label || a.source_refs != b.source_refs
        || a.provenance_refs != b.provenance_refs || a.hidden != b.hidden
}

/// Two drawings of one semantic edge differ in what the comparison looks at; the
/// weights are compared as `f32` values.
pub open spec fn edge_changed(a: EdgeView, b: EdgeView) -> bool {
    a.from != b.from || a.to != b.to || a.kind != b.kind || a.source_refs != b.source_refs
        || a.provenance_refs != b.provenance_refs || a.hidden != b.hidden
        || !f32_bits_eq(a.weight_bits, b.weight_bits)
}

/// How semantic reference `sr` compares between the graphs. A node drawing
/// takes precedence over an edge drawing of the same reference; of several
/// drawings in one graph the last counts.
pub open spec fn compared_object(l: GraphView, r: GraphView, sr: Seq<char>) -> ObjectView {
    match (node_by_ref(l.nodes, sr), node_by_ref(r.nodes, sr)) {
        (Some(ln), Some(rn)) => ObjectView {
            semantic_ref: sr,
            class: if node_changed(ln, rn) {
                ComparativeVisualClass::Changed
            } else {
                ComparativeVisualClass::Shared
            },
            left_object_id: Some(ln.id),
            right_object_id: Some(rn.id),
            kind: rn.kind,
            source_refs: merged(ln.source_refs, rn.source_refs),
            provenance_refs: merged(ln.provenance_refs, rn.provenance_refs),
        },
        (Some(ln), None) => ObjectView {
            semantic_ref: sr,
            class: ComparativeVisualClass::LeftOnly,
            left_object_id: Some(ln.id),
            right_object_id: None,
            kind: ln.kind,
            source_refs: ln.source_refs,
            provenance_refs: ln.provenance_refs,
        },
        (None, Some(rn)) => ObjectView {
            semantic_ref: sr,
            class: ComparativeVisualClass::RightOnly,
            left_object_id: None,
            right_object_id: Some(rn.id),
            kind: rn.kind,
            source_refs: rn.source_refs,
            provenance_refs: rn.provenance_refs,
        },
        (None, None) => match (edge_by_ref(l.edges, sr), edge_by_ref(r.edges, sr)) {
            (Some(le), Some(re)) => ObjectView {
                semantic_ref: sr,
                class: if edge_changed(le, re) {
                    ComparativeVisualClass::Changed
                } else {
                    ComparativeVisualClass::Shared
                },
                left_object_id: Some(le.id),
                right_object_id: Some(re.id),
                kind: re.kind,
                source_refs: merged(le.source_refs, re.source_refs),
                provenance_refs: merged(le.provenance_refs, re.provenance_refs),
            },
            (Some(le), None) => ObjectView {
                semantic_ref: sr,
                class: ComparativeVisualClass::LeftOnly,
                left_object_id: Some(le.id),
                right_object_id: None,
                kind: le.kind,
                source_refs: le.source_refs,
                provenance_refs: le.provenance_refs,
            },
            (None, Some(re)) => ObjectView {
                semantic_ref: sr,
                class: ComparativeVisualClass::RightOnly,
                left_object_id: None,
                right_object_id: Some(re.id),
                kind: re.kind,
                source_refs: re.source_refs,
                provenance_refs: re.provenance_refs,
            },
            (None, None) => ObjectView {
                semantic_ref: sr,
                class: ComparativeVisualClass::Shared,
                left_object_id: None,
                right_object_id: None,
                kind: Seq::empty(),
                source_refs: Seq::empty(),
                provenance_refs: Seq::empty(),
            },
        },
    }
}

/// The references of class `c`.
pub open spec fn refs_of_class(l: GraphView, r: GraphView, c: ComparativeVisualClass) -> Set<Seq<char>> {
    drawn_refs(l, r).filter(|sr: Seq<char>| compared_object(l, r, sr).class == c)
}

/// The comparison of two graphs: one object per drawn semantic reference, in
/// reference order, and the references sorted by class.
pub open spec fn compared(comparison_ref: Seq<char>, l: GraphView, r: GraphView) -> ComparisonView {
    ComparisonView {
        comparison_ref,
        left_graph_ref: l.graph_ref,
        right_graph_ref: r.graph_ref,
        objects: sorted_enumeration(drawn_refs(l, r)).map_values(
            |sr: Seq<char>| compared_object(l, r, sr),
        ),
        shared_semantic_refs: sorted_enumeration(refs_of_class(l, r, ComparativeVisualClass::Shared)),
        left_only_semantic_refs: sorted_enumeration(refs_of_class(l, r, ComparativeVisualClass::LeftOnly)),
        right_only_semantic_refs: sorted_enumeration(refs_of_class(l, r, ComparativeVisualClass::RightOnly)),
        changed_semantic_refs: sorted_enumeration(refs_of_class(l, r, ComparativeVisualClass::Changed)),
        derived_only: true,
        challengeable: l.challengeable || r.challengeable,
        creates_semantic_authority: false,
        creates_claim_truth: false,
    }
}

pub open spec fn semantic_refs_of_nodes(nodes: Seq<NodeView>) -> Seq<Seq<char>> {
    nodes.map_values(|n: NodeView| n.semantic_ref)
}

pub open spec fn semantic_refs_of_edges(edges: Seq<EdgeView>) -> Seq<Seq<char>> {
    edges.map_values(|e: EdgeView| e.semantic_ref)
}

fn add_node_refs(s: &mut RefSet, nodes: &Vec<VisualNode>)
    ensures
        final(s)@.to_set() == old(s)@.to_set().union(semantic_refs_of_nodes(node_views(nodes@)).to_set()),
{
    let ghost start = s@.to_set();
    let ghost v = node_views(nodes@);
    let mut i: usize = 0;
    while i < nodes.len()
        invariant
            i <= nodes@.len(),
            v == node_views(nodes@),
            s@.to_set() == start.union(semantic_refs_of_nodes(v.subrange(0, i as int)).to_set()),
        decreases nodes@.len() - i,
    {
        s.insert(nodes[i].semantic_ref.clone());
        proof {
            assert(semantic_refs_of_nodes(v.subrange(0, i + 1)) =~= semantic_refs_of_nodes(v.subrange(0, i as int)).push(v[i as int].semantic_ref));
            semantic_refs_of_nodes(v.subrange(0, i as int)).lemma_push_to_set_commute(v[i as int].semantic_ref);
            assert(s@.to_set() =~= start.union(semantic_refs_of_nodes(v.subrange(0, i + 1)).to_set()));
        }
        i = i + 1;
    }
    assert(v.subrange(0, i as int) =~= v);
}

fn add_edge_refs(s: &mut RefSet, edges: &Vec<VisualEdge>)
    ensures
        final(s)@.to_set() == old(s)@.to_set().union(semantic_refs_of_edges(edge_views(edges@)).to_set()),
{
    let ghost start = s@.to_set();
    let ghost v = edge_views(edges@);
    let mut i: usize = 0;
    while i < edges.len()
        invariant
            i <= edges@.len(),
            v == edge_views(edges@),
            s@.to_set() == start.union(semantic_refs_of_edges(v.subrange(0, i as int)).to_set()),
        decreases edges@.len() - i,
    {
        s.insert(edges[i].semantic_ref.clone());
        proof {
            assert(semantic_refs_of_edges(v.subrange(0, i + 1)) =~= semantic_refs_of_edges(v.subrange(0, i as int)).push(v[i as int].semantic_ref));
            semantic_refs_of_edges(v.subrange(0, i as int)).lemma_push_to_set_commute(v[i as int].semantic_ref);
            assert(s@.to_set() =~= start.union(semantic_refs_of_edges(v.subrange(0, i + 1)).to_set()));
        }
        i = i + 1;
    }
    assert(v.subrange(0, i as int) =~= v);
}

/// Every semantic reference that the two graphs draw, in order.
fn drawn_ref_set(left: &GraphIr, right: &GraphIr) -> (s: RefSet)
    ensures
        s@ == sorted_enumeration(drawn_refs(left@, right@)),
        s@.to_set() == drawn_refs(left@, right@),
{
    let mut s = RefSet::new();
    add_node_refs(&mut s, &left.nodes);
    add_node_refs(&mut s, &right.nodes);
    add_edge_refs(&mut s, &left.edges);
    add_edge_refs(&mut s, &right.edges);
    proof {
        use_type_invariant(&s);
        assert(s@.to_set() =~= drawn_refs(left@, right@));
        lemma_sorted_enumeration(s@);
    }
    s
}

fn merged_of(a: &Vec<String>, b: &Vec<String>) -> (m: Vec<String>)
    ensures
        m.deep_view() == merged(a.deep_view(), b.deep_view()),
{
    merged_refs(a, b)
}

fn nodes_differ(a: &VisualNode, b: &VisualNode) -> (d: bool)
    ensures
        d == node_changed(a@, b@),
{
    a.kind != b.kind || a.label != b.label || !refs_equal(&a.source_refs, &b.source_refs)
        || !refs_equal(&a.provenance_refs, &b.provenance_refs) || a.hidden != b.hidden
}

fn edges_differ(a: &VisualEdge, b: &VisualEdge) -> (d: bool)
    ensures
        d == edge_changed(a@, b@),
{
    a.from != b.from || a.to != b.to || a.kind != b.kind || !refs_equal(&a.source_refs, &b.source_refs)
        || !refs_equal(&a.provenance_refs, &b.provenance_refs) || a.hidden != b.hidden
        || !f32_bits_equal(a.weight_bits, b.weight_bits)
}

/// The comparison object for one semantic reference.
fn compare_object(left: &GraphIr, right: &GraphIr, sr: &String) -> (o: ComparativeVisualObject)
    ensures
        o@ == compared_object(left@, right@, sr@),
{
    let ln = find_node_by_ref(&left.nodes, sr.as_str());
    let rn = find_node_by_ref(&right.nodes, sr.as_str());
    match (ln, rn) {
        (Some(a), Some(b)) => {
            let ln = &left.nodes[a];
            let rn = &right.nodes[b];
            let changed = nodes_differ(ln, rn);
            ComparativeVisualObject {
                semantic_ref: sr.clone(),
                class: if changed {
                    ComparativeVisualClass::Changed
                } else {
                    ComparativeVisualClass::Shared
                },
                left_object_id: Some(ln.id),
                right_object_id: Some(rn.id),
                kind: rn.kind.clone(),
                source_refs: merged_of(&ln.source_refs, &rn.source_refs),
                provenance_refs: merged_of(&ln.provenance_refs, &rn.provenance_refs),
            }
        },
        (Some(a), None) => {
            let ln = &left.nodes[a];
            ComparativeVisualObject {
                semantic_ref: sr.clone(),
                class: ComparativeVisualClass::LeftOnly,
                left_object_id: Some(ln.id),
                right_object_id: None,
                kind: ln.kind.clone(),
                source_refs: clone_refs(&ln.source_refs),
                provenance_refs: clone_refs(&ln.provenance_refs),
            }
        },
        (None, Some(b)) => {
            let rn = &right.nodes[b];
            ComparativeVisualObject {
                semantic_ref: sr.clone(),
                class: ComparativeVisualClass::RightOnly,
                left_object_id: None,
                right_object_id: Some(rn.id),
                kind: rn.kind.clone(),
                source_refs: clone_refs(&rn.source_refs),
                provenance_refs: clone_refs(&rn.provenance_refs),
            }
        },
        (None, None) => {
            let le = find_edge_by_ref(&left.edges, sr.as_str());
            let re = find_edge_by_ref(&right.edges, sr.as_str());
            match (le, re) {
                (Some(a), Some(b)) => {
                    let le = &left.edges[a];
                    let re = &right.edges[b];
                    let changed = edges_differ(le, re);
                    ComparativeVisualObject {
                        semantic_ref: sr.clone(),
                        class: if changed {
                            ComparativeVisualClass::Changed
                        } else {
                            ComparativeVisualClass::Shared
                        },
                        left_object_id: Some(le.id),
                        right_object_id: Some(re.id),
                        kind: re.kind.clone(),
                        source_refs: merged_of(&le.source_refs, &re.source_refs),
                        provenance_refs: merged_of(&le.provenance_refs, &re.provenance_refs),
                    }
                },
                (Some(a), None) => {
                    let le = &left.edges[a];
                    ComparativeVisualObject {
                        semantic_ref: sr.clone(),
                        class: ComparativeVisualClass::LeftOnly,
                        left_object_id: Some(le.id),
                        right_object_id: None,
                        kind: le.kind.clone(),
                        source_refs: clone_refs(&le.source_refs),
                        provenance_refs: clone_refs(&le.provenance_refs),
                    }
                },
                (None, Some(b)) => {
                    let re = &right.edges[b];
                    ComparativeVisualObject {
                        semantic_ref: sr.clone(),
                        class: ComparativeVisualClass::RightOnly,
                        left_object_id: None,
                        right_object_id: Some(re.id),
                        kind: re.kind.clone(),
                        source_refs: clone_refs(&re.source_refs),
                        provenance_refs: clone_refs(&re.provenance_refs),
                    }
                },
                (None, None) => {
                    let o = ComparativeVisualObject {
                        semantic_ref: sr.clone(),
                        class: ComparativeVisualClass::Shared,
                        left_object_id: None,
                        right_object_id: None,
                        kind: String::new(),
                        source_refs: Vec::new(),
                        provenance_refs: Vec::new(),
                    };
                    assert(o@.source_refs =~= Seq::<Seq<char>>::empty());
                    assert(o@.provenance_refs =~= Seq::<Seq<char>>::empty());
                    o
                },
            }
        },
    }
}

/// Compares two graphs over their semantic references: each reference drawn in
/// either graph becomes one object, classified as shared, changed, left-only
/// or right-only. The graphs themselves are left as they are.
pub fn compare_graph_ir(comparison_ref: &str, left: &GraphIr, right: &GraphIr) -> (c: ComparativeGraphIr)
    ensures
        c@ == compared(comparison_ref@, left@, right@),
{
    let refs = drawn_ref_set(left, right);
    let ghost all = refs@;
    let ghost l = left@;
    let ghost r = right@;
    let mut objects: Vec<ComparativeVisualObject> = Vec::new();
    let mut shared = RefSet::new();
    let mut left_only = RefSet::new();
    let mut right_only = RefSet::new();
    let mut changed = RefSet::new();
    let mut i: usize = 0;
    while i < refs.len()
        invariant
            i <= all.len(),
            all == refs@,
            l == left@,
            r == right@,
            object_views(objects@) == all.subrange(0, i as int).map_values(
                |sr: Seq<char>| compared_object(l, r, sr),
            ),
            shared@.to_set() == all.subrange(0, i as int).to_set().filter(
                |sr: Seq<char>| compared_object(l, r, sr).class == ComparativeVisualClass::Shared,
            ),
            left_only@.to_set() == all.subrange(0, i as int).to_set().filter(
                |sr: Seq<char>| compared_object(l, r, sr).class == ComparativeVisualClass::LeftOnly,
            ),
            right_only@.to_set() == all.subrange(0, i as int).to_set().filter(
                |sr: Seq<char>| compared_object(l, r, sr).class == ComparativeVisualClass::RightOnly,
            ),
            changed@.to_set() == all.subrange(0, i as int).to_set().filter(
                |sr: Seq<char>| compared_object(l, r, sr).class == ComparativeVisualClass::Changed,
            ),
        decreases all.len() - i,
    {
        let sr = refs.get(i);
        let o = compare_object(left, right, sr);
        let ghost sv = all[i as int];
        proof {
            all.subrange(0, i as int).lemma_push_to_set_commute(sv);
            assert(all.subrange(0, i + 1) =~= all.subrange(0, i as int).push(sv));
        }
        match o.class {
            ComparativeVisualClass::Shared => shared.insert(sr.clone()),
            ComparativeVisualClass::LeftOnly => left_only.insert(sr.clone()),
            ComparativeVisualClass::RightOnly => right_only.insert(sr.clone()),
            ComparativeVisualClass::Changed => changed.insert(sr.clone()),
        }
        let ghost prev = object_views(objects@);
        objects.push(o);
        proof {
            assert(object_views(objects@) =~= prev.push(compared_object(l, r, sv)));
            assert(object_views(objects@) =~= all.subrange(0, i + 1).map_values(
                |sr: Seq<char>| compared_object(l, r, sr),
            ));
            let p = all.subrange(0, i as int).to_set();
            let q = all.subrange(0, i + 1).to_set();
            assert(shared@.to_set() =~= q.filter(
                |sr: Seq<char>| compared_object(l, r, sr).class == ComparativeVisualClass::Shared,
            ));
            assert(left_only@.to_set() =~= q.filter(
                |sr: Seq<char>| compared_object(l, r, sr).class == ComparativeVisualClass::LeftOnly,
            ));
            assert(right_only@.to_set() =~= q.filter(
                |sr: Seq<char>| compared_object(l, r, sr).class == ComparativeVisualClass::RightOnly,
            ));
            assert(changed@.to_set() =~= q.filter(
                |sr: Seq<char>| compared_object(l, r, sr).class == ComparativeVisualClass::Changed,
            ));
        }
        i = i + 1;
    }
    proof {
        assert(all.subrange(0, i as int) =~= all);
        use_type_invariant(&refs);
        use_type_invariant(&shared);
        use_type_invariant(&left_only);
        use_type_invariant(&right_only);
        use_type_invariant(&changed);
        lemma_sorted_enumeration(all);
        assert(all.to_set() == drawn_refs(l, r));
        assert(shared@.to_set() =~= refs_of_class(l, r, ComparativeVisualClass::Shared));
        assert(left_only@.to_set() =~= refs_of_class(l, r, ComparativeVisualClass::LeftOnly));
        assert(right_only@.to_set() =~= refs_of_class(l, r, ComparativeVisualClass::RightOnly));
        assert(changed@.to_set() =~= refs_of_class(l, r, ComparativeVisualClass::Changed));
        lemma_sorted_enumeration(shared@);
        lemma_sorted_enumeration(left_only@);
        lemma_sorted_enumeration(right_only@);
        lemma_sorted_enumeration(changed@);
    }
    let c = ComparativeGraphIr {
        comparison_ref: comparison_ref.to_owned(),
        left_graph_ref: left.graph_ref.clone(),
        right_graph_ref: right.graph_ref.clone(),
        objects,
        shared_semantic_refs: shared,
        left_only_semantic_refs: left_only,
        right_only_semantic_refs: right_only,
        changed_semantic_refs: changed,
        derived_only: true,
        challengeable: left.challengeable || right.challengeable,
        creates_semantic_authority: false,
        creates_claim_truth: false,
    };
    assert(c@.objects == compared(comparison_ref@, l, r).objects);
    c
}

/// The node references of both graphs, in order: canonical node ids follow it.
pub open spec fn node_order(l: GraphView, r: GraphView) -> Seq<Seq<char>> {
    sorted_enumeration(node_refs(l).union(node_refs(r)))
}

/// The edge references of both graphs, in order: canonical edge ids follow it.
pub open spec fn edge_order(l: GraphView, r: GraphView) -> Seq<Seq<char>> {
    sorted_enumeration(edge_refs(l).union(edge_refs(r)))
}

/// The canonical id of a node reference: its place among all node references, from 1.
pub open spec fn canonical_node_id(l: GraphView, r: GraphView, sr: Seq<char>) -> VisualObjectId {
    VisualObjectId((rank_of(node_order(l, r), sr) + 1) as u64)
}

/// The canonical id of an edge reference: numbered on after all node references.
pub open spec fn canonical_edge_id(l: GraphView, r: GraphView, sr: Seq<char>) -> VisualObjectId {
    VisualObjectId((node_order(l, r).len() + 1 + rank_of(edge_order(l, r), sr)) as u64)
}

/// Every edge of `g` starts and ends at the id of some node of `g`.
pub open spec fn edges_anchored(g: GraphView) -> bool {
    forall|i: int|
        0 <= i < g.edges.len() ==> (#[trigger] last_node_by_id(g.nodes, g.edges[i].from)) is Some
            && last_node_by_id(g.nodes, g.edges[i].to) is Some
}

/// Whether every edge of `g` starts and ends at the id of some node of `g`.
pub fn graph_edges_anchored(g: &GraphIr) -> (b: bool)
    ensures
        b == edges_anchored(g@),
{
    let mut i: usize = 0;
    while i < g.edges.len()
        invariant
            i <= g.edges@.len(),
            forall|k: int|
                0 <= k < i ==> (#[trigger] last_node_by_id(g@.nodes, g@.edges[k].from)) is Some
                    && last_node_by_id(g@.nodes, g@.edges[k].to) is Some,
        decreases g.edges@.len() - i,
    {
        let from = find_last_node_by_id(&g.nodes, g.edges[i].from);
        let to = find_last_node_by_id(&g.nodes, g.edges[i].to);
        if from.is_none() || to.is_none() {
            assert(!((last_node_by_id(g@.nodes, g@.edges[i as int].from)) is Some
                && last_node_by_id(g@.nodes, g@.edges[i as int].to) is Some));
            return false;
        }
        i = i + 1;
    }
    true
}

/// The canonical id of the node that old id `id` names in `g` (the last node with that id).
pub open spec fn canonical_endpoint(l: GraphView, r: GraphView, g: GraphView, id: VisualObjectId) -> VisualObjectId {
    canonical_node_id(l, r, last_node_by_id(g.nodes, id).unwrap().semantic_ref)
}

pub open spec fn reindexed_node(l: GraphView, r: GraphView, n: NodeView) -> NodeView {
    NodeView { id: canonical_node_id(l, r, n.semantic_ref), ..n }
}

pub open spec fn reindexed_edge(l: GraphView, r: GraphView, g: GraphView, e: EdgeView) -> EdgeView {
    EdgeView {
        id: canonical_edge_id(l, r, e.semantic_ref),
        from: canonical_endpoint(l, r, g, e.from),
        to: canonical_endpoint(l, r, g, e.to),
        ..e
    }
}

/// Graph `g` (one of `l` and `r`) with every node and edge given its canonical id.
pub open spec fn reindexed(l: GraphView, r: GraphView, g: GraphView) -> GraphView {
    GraphView {
        nodes: g.nodes.map_values(|n: NodeView| reindexed_node(l, r, n)),
        edges: g.edges.map_values(|e: EdgeView| reindexed_edge(l, r, g, e)),
        ..g
    }
}

/// How many nodes and edges the two graphs have together fits a visual id.
pub open spec fn pair_fits_ids(l: GraphView, r: GraphView) -> bool {
    l.nodes.len() + r.nodes.len() + l.edges.len() + r.edges.len() < u64::MAX
}

fn node_order_set(left: &GraphIr, right: &GraphIr) -> (s: RefSet)
    ensures
        s@ == node_order(left@, right@),
        s@.to_set() == node_refs(left@).union(node_refs(right@)),
        s@.len() <= left.nodes@.len() + right.nodes@.len(),
{
    let mut s = RefSet::new();
    add_node_refs(&mut s, &left.nodes);
    add_node_refs(&mut s, &right.nodes);
    proof {
        use_type_invariant(&s);
        assert(s@.to_set() =~= node_refs(left@).union(node_refs(right@)));
        lemma_sorted_enumeration(s@);
        lemma_sorted_len_bound(s@, semantic_refs_of_nodes(left@.nodes), semantic_refs_of_nodes(right@.nodes));
    }
    s
}

fn edge_order_set(left: &GraphIr, right: &GraphIr) -> (s: RefSet)
    ensures
        s@ == edge_order(left@, right@),
        s@.to_set() == edge_refs(left@).union(edge_refs(right@)),
        s@.len() <= left.edges@.len() + right.edges@.len(),
{
    let mut s = RefSet::new();
    add_edge_refs(&mut s, &left.edges);
    add_edge_refs(&mut s, &right.edges);
    proof {
        use_type_invariant(&s);
        assert(s@.to_set() =~= edge_refs(left@).union(edge_refs(right@)));
        lemma_sorted_enumeration(s@);
        lemma_sorted_len_bound(s@, semantic_refs_of_edges(left@.edges), semantic_refs_of_edges(right@.edges));
    }
    s
}

/// `g` reindexed against the canonical node and edge orders of the pair.
fn reindex(
    g: &GraphIr,
    nodes_in_order: &RefSet,
    edges_in_order: &RefSet,
    Ghost(l): Ghost<GraphView>,
    Ghost(r): Ghost<GraphView>,
) -> (out: GraphIr)
    requires
        nodes_in_order@ == node_order(l, r),
        nodes_in_order@.to_set() == node_refs(l).union(node_refs(r)),
        edges_in_order@ == edge_order(l, r),
        edges_in_order@.to_set() == edge_refs(l).union(edge_refs(r)),
        nodes_in_order@.len() + edges_in_order@.len() < u64::MAX,
        g@ == l || g@ == r,
        edges_anchored(g@),
    ensures
        out@ == reindexed(l, r, g@),
{
    let ghost gv = g@;
    let mut nodes: Vec<VisualNode> = Vec::new();
    let mut i: usize = 0;
    while i < g.nodes.len()
        invariant
            i <= g.nodes@.len(),
            gv == g@,
            g@ == l || g@ == r,
            nodes_in_order@ == node_order(l, r),
            nodes_in_order@.to_set() == node_refs(l).union(node_refs(r)),
            nodes_in_order@.len() + edges_in_order@.len() < u64::MAX,
            node_views(nodes@) == gv.nodes.subrange(0, i as int).map_values(|n: NodeView| reindexed_node(l, r, n)),
        decreases g.nodes@.len() - i,
    {
        let n = &g.nodes[i];
        proof {
            assert(gv.nodes[i as int] == n@);
            assert(semantic_refs_of_nodes(gv.nodes)[i as int] == n.semantic_ref@);
            assert(semantic_refs_of_nodes(gv.nodes).contains(n.semantic_ref@));
            assert(node_refs(gv).contains(n.semantic_ref@));
            assert(node_refs(l).union(node_refs(r)).contains(n.semantic_ref@));
            assert(nodes_in_order@.to_set().contains(n.semantic_ref@));
        }
        let p = nodes_in_order.position(n.semantic_ref.as_str());
        let k = match p {
            Some(k) => k,
            None => {
                assert(false);
                0
            },
        };
        let mut m = clone_node(n);
        m.id = VisualObjectId(k as u64 + 1);
        let ghost prev = node_views(nodes@);
        nodes.push(m);
        proof {
            assert(node_views(nodes@) =~= prev.push(reindexed_node(l, r, gv.nodes[i as int])));
            assert(node_views(nodes@) =~= gv.nodes.subrange(0, i + 1).map_values(|n: NodeView| reindexed_node(l, r, n)));
        }
        i = i + 1;
    }
    let base = nodes_in_order.len() as u64 + 1;
    let mut edges: Vec<VisualEdge> = Vec::new();
    let mut i: usize = 0;
    while i < g.edges.len()
        invariant
            i <= g.edges@.len(),
            gv == g@,
            g@ == l || g@ == r,
            edges_anchored(gv),
            nodes_in_order@ == node_order(l, r),
            nodes_in_order@.to_set() == node_refs(l).union(node_refs(r)),
            edges_in_order@ == edge_order(l, r),
            edges_in_order@.to_set() == edge_refs(l).union(edge_refs(r)),
            nodes_in_order@.len() + edges_in_order@.len() < u64::MAX,
            base == nodes_in_order@.len() + 1,
            edge_views(edges@) == gv.edges.subrange(0, i as int).map_values(|e: EdgeView| reindexed_edge(l, r, gv, e)),
        decreases g.edges@.len() - i,
    {
        let e = &g.edges[i];
        proof {
            assert(gv.edges[i as int] == e@);
            assert(semantic_refs_of_edges(gv.edges)[i as int] == e.semantic_ref@);
            assert(semantic_refs_of_edges(gv.edges).contains(e.semantic_ref@));
            assert(edge_refs(gv).contains(e.semantic_ref@));
            assert(edge_refs(l).union(edge_refs(r)).contains(e.semantic_ref@));
            assert(edges_in_order@.to_set().contains(e.semantic_ref@));
            assert(last_node_by_id(gv.nodes, gv.edges[i as int].from) is Some);
            assert(last_node_by_id(gv.nodes, gv.edges[i as int].to) is Some);
        }
        let k = match edges_in_order.position(e.semantic_ref.as_str()) {
            Some(k) => k,
            None => {
                assert(false);
                0
            },
        };
        let from = canonical_endpoint_of(g, e.from, nodes_in_order, Ghost(l), Ghost(r));
        let to = canonical_endpoint_of(g, e.to, nodes_in_order, Ghost(l), Ghost(r));
        let mut f = clone_edge(e);
        f.id = VisualObjectId(base + k as u64);
        f.from = from;
        f.to = to;
        let ghost prev = edge_views(edges@);
        edges.push(f);
        proof {
            assert(edge_views(edges@) =~= prev.push(reindexed_edge(l, r, gv, gv.edges[i as int])));
            assert(edge_views(edges@) =~= gv.edges.subrange(0, i + 1).map_values(|e: EdgeView| reindexed_edge(l, r, gv, e)));
        }
        i = i + 1;
    }
    let out = GraphIr {
        graph_ref: g.graph_ref.clone(),
        derived_only: g.derived_only,
        challengeable: g.challengeable,
        nodes,
        edges,
    };
    proof {
        assert(gv.nodes.subrange(0, gv.nodes.len() as int) =~= gv.nodes);
        assert(gv.edges.subrange(0, gv.edges.len() as int) =~= gv.edges);
    }
    out
}

fn canonical_endpoint_of(
    g: &GraphIr,
    id: VisualObjectId,
    nodes_in_order: &RefSet,
    Ghost(l): Ghost<GraphView>,
    Ghost(r): Ghost<GraphView>,
) -> (c: VisualObjectId)
    requires
        nodes_in_order@ == node_order(l, r),
        nodes_in_order@.to_set() == node_refs(l).union(node_refs(r)),
        nodes_in_order@.len() < u64::MAX,
        g@ == l || g@ == r,
        last_node_by_id(g@.nodes, id) is Some,
    ensures
        c == canonical_endpoint(l, r, g@, id),
{
    let k = match find_last_node_by_id(&g.nodes, id) {
        Some(k) => k,
        None => {
            assert(false);
            0
        },
    };
    let n = &g.nodes[k];
    proof {
        assert(g@.nodes[k as int] == n@);
        assert(semantic_refs_of_nodes(g@.nodes)[k as int] == n.semantic_ref@);
        assert(semantic_refs_of_nodes(g@.nodes).contains(n.semantic_ref@));
        assert(node_refs(g@).contains(n.semantic_ref@));
        assert(node_refs(l).union(node_refs(r)).contains(n.semantic_ref@));
        assert(nodes_in_order@.to_set().contains(n.semantic_ref@));
    }
    let p = match nodes_in_order.position(n.semantic_ref.as_str()) {
        Some(p) => p,
        None => {
            assert(false);
            0
        },
    };
    VisualObjectId(p as u64 + 1)
}

/// Both graphs with one canonical id space: the same semantic reference gets the
/// same visual id on either side, whatever id either graph had given it.
fn canonicalize_graph_pair(left: &GraphIr, right: &GraphIr) -> (pair: (GraphIr, GraphIr))
    requires
        edges_anchored(left@),
        edges_anchored(right@),
        pair_fits_ids(left@, right@),
    ensures
        pair.0@ == reindexed(left@, right@, left@),
        pair.1@ == reindexed(left@, right@, right@),
{
    let nodes_in_order = node_order_set(left, right);
    let edges_in_order = edge_order_set(left, right);
    let a = reindex(left, &nodes_in_order, &edges_in_order, Ghost(left@), Ghost(right@));
    let b = reindex(right, &nodes_in_order, &edges_in_order, Ghost(left@), Ghost(right@));
    (a, b)
}

/// The text `kind` gets in the delta panel: the comparison class prefixed to the semantic kind.
pub open spec fn class_word(c: ComparativeVisualClass) -> Seq<char> {
    match c {
        ComparativeVisualClass::Shared => "shared"@,
        ComparativeVisualClass::LeftOnly => "left-only"@,
        ComparativeVisualClass::RightOnly => "right-only"@,
        ComparativeVisualClass::Changed => "changed"@,
    }
}

pub open spec fn class_kind_text(c: ComparativeVisualClass, kind: Seq<char>) -> Seq<char> {
    "comparative:"@ + class_word(c) + ":"@ + kind
}

fn class_kind(c: ComparativeVisualClass, kind: &str) -> (s: String)
    ensures
        s@ == class_kind_text(c, kind@),
{
    let mut s = String::from_str("comparative:");
    match c {
        ComparativeVisualClass::Shared => s.append("shared"),
        ComparativeVisualClass::LeftOnly => s.append("left-only"),
        ComparativeVisualClass::RightOnly => s.append("right-only"),
        ComparativeVisualClass::Changed => s.append("changed"),
    }
    s.append(":");
    s.append(kind);
    s
}

/// The delta panel under construction: its nodes and edges, and the delta id of
/// each semantic reference that already has a node there.
pub struct DeltaState {
    pub nodes: Seq<NodeView>,
    pub ids: Map<Seq<char>, VisualObjectId>,
    pub edges: Seq<EdgeView>,
}

pub open spec fn empty_delta() -> DeltaState {
    DeltaState { nodes: Seq::empty(), ids: Map::empty(), edges: Seq::empty() }
}

/// The node the delta panel draws for a reference: the right-hand drawing, else the left.
pub open spec fn delta_source_node(l: GraphView, r: GraphView, sr: Seq<char>) -> Option<NodeView> {
    match node_by_ref(r.nodes, sr) {
        Some(n) => Some(n),
        None => node_by_ref(l.nodes, sr),
    }
}

/// A non-shared object that has a node gets that node, restyled by its class.
pub open spec fn delta_node_step(l: GraphView, r: GraphView, st: DeltaState, o: ObjectView) -> DeltaState {
    if o.class == ComparativeVisualClass::Shared {
        st
    } else {
        match delta_source_node(l, r, o.semantic_ref) {
            None => st,
            Some(n) => DeltaState {
                nodes: st.nodes.push(
                    NodeView {
                        kind: class_kind_text(o.class, n.kind),
                        source_refs: o.source_refs,
                        provenance_refs: o.provenance_refs,
                        ..n
                    },
                ),
                ids: st.ids.insert(o.semantic_ref, n.id),
                edges: st.edges,
            },
        }
    }
}

pub open spec fn delta_nodes_pass(l: GraphView, r: GraphView, objs: Seq<ObjectView>) -> DeltaState
    decreases objs.len(),
{
    if objs.len() == 0 {
        empty_delta()
    } else {
        delta_node_step(l, r, delta_nodes_pass(l, r, objs.drop_last()), objs.last())
    }
}

/// An edge's endpoint not yet in the delta panel is drawn there as shared context.
pub open spec fn with_context(l: GraphView, r: GraphView, st: DeltaState, sr: Seq<char>) -> DeltaState {
    if st.ids.contains_key(sr) {
        st
    } else {
        match delta_source_node(l, r, sr) {
            Some(n) => DeltaState {
                nodes: st.nodes.push(
                    NodeView { kind: class_kind_text(ComparativeVisualClass::Shared, n.kind), ..n },
                ),
                ids: st.ids.insert(sr, n.id),
                edges: st.edges,
            },
            None => st,
        }
    }
}

/// The edge the delta panel draws for a reference, and the graph it comes from:
/// the right-hand drawing, else the left.
pub open spec fn delta_source_edge(l: GraphView, r: GraphView, sr: Seq<char>) -> Option<(EdgeView, GraphView)> {
    match edge_by_ref(r.edges, sr) {
        Some(e) => Some((e, r)),
        None => match edge_by_ref(l.edges, sr) {
            Some(e) => Some((e, l)),
            None => None,
        },
    }
}

/// A non-shared object that has an edge gets that edge, restyled by its class and
/// reattached to the delta nodes of its endpoints (drawn as context if needed).
pub open spec fn delta_edge_step(l: GraphView, r: GraphView, st: DeltaState, o: ObjectView) -> DeltaState {
    if o.class == ComparativeVisualClass::Shared {
        st
    } else {
        match delta_source_edge(l, r, o.semantic_ref) {
            None => st,
            Some((e, g)) => match (node_by_id(g.nodes, e.from), node_by_id(g.nodes, e.to)) {
                (Some(fnode), Some(tnode)) => {
                    let st1 = with_context(l, r, st, fnode.semantic_ref);
                    let st2 = with_context(l, r, st1, tnode.semantic_ref);
                    if st2.ids.contains_key(fnode.semantic_ref) && st2.ids.contains_key(tnode.semantic_ref) {
                        DeltaState {
                            edges: st2.edges.push(
                                EdgeView {
                                    from: st2.ids[fnode.semantic_ref],
                                    to: st2.ids[tnode.semantic_ref],
                                    kind: class_kind_text(o.class, e.kind),
                                    source_refs: o.source_refs,
                                    provenance_refs: o.provenance_refs,
                                    ..e
                                },
                            ),
                            ..st2
                        }
                    } else {
                        st2
                    }
                },
                _ => st,
            },
        }
    }
}

pub open spec fn delta_edges_pass(l: GraphView, r: GraphView, start: DeltaState, objs: Seq<ObjectView>) -> DeltaState
    decreases objs.len(),
{
    if objs.len() == 0 {
        start
    } else {
        delta_edge_step(l, r, delta_edges_pass(l, r, start, objs.drop_last()), objs.last())
    }
}

/// The delta panel: node objects first, then edge objects, in comparison order.
pub open spec fn delta_state(l: GraphView, r: GraphView, objs: Seq<ObjectView>) -> DeltaState {
    delta_edges_pass(l, r, delta_nodes_pass(l, r, objs), objs)
}

/// The delta id of each reference drawn in the delta panel so far.
struct IdTable {
    keys: Vec<String>,
    vals: Vec<VisualObjectId>,
    map: Ghost<Map<Seq<char>, VisualObjectId>>,
}

impl IdTable {
    spec fn wf(&self) -> bool {
        &&& self.keys@.len() == self.vals@.len()
        &&& self.keys.deep_view().no_duplicates()
        &&& forall|k: Seq<char>| self.map@.contains_key(k) <==> self.keys.deep_view().contains(k)
        &&& forall|i: int| 0 <= i < self.keys@.len() ==> #[trigger] self.map@[self.keys.deep_view()[i]] == self.vals@[i]
    }

    fn new() -> (t: IdTable)
        ensures
            t.wf(),
            t.map@ == Map::<Seq<char>, VisualObjectId>::empty(),
    {
        let t = IdTable { keys: Vec::new(), vals: Vec::new(), map: Ghost(Map::empty()) };
        assert(t.keys.deep_view() =~= Seq::<Seq<char>>::empty());
        t
    }

    fn get(&self, sr: &str) -> (v: Option<VisualObjectId>)
        requires
            self.wf(),
        ensures
            match v {
                Some(v) => self.map@.contains_key(sr@) && self.map@[sr@] == v,
                None => !self.map@.contains_key(sr@),
            },
    {
        let mut i: usize = 0;
        while i < self.keys.len()
            invariant
                self.wf(),
                i <= self.keys@.len(),
                forall|k: int| 0 <= k < i ==> self.keys.deep_view()[k] != sr@,
            decreases self.keys@.len() - i,
        {
            if self.keys[i] == sr.to_owned() {
                assert(self.keys.deep_view()[i as int] == sr@);
                assert(self.keys.deep_view().contains(sr@));
                return Some(self.vals[i]);
            }
            i = i + 1;
        }
        None
    }

    fn set(&mut self, sr: String, v: VisualObjectId)
        requires
            old(self).wf(),
        ensures
            final(self).wf(),
            final(self).map@ == old(self).map@.insert(sr@, v),
    {
        let ghost m = self.map@.insert(sr@, v);
        let mut i: usize = 0;
        while i < self.keys.len()
            invariant
                self.wf(),
                self.map@ == old(self).map@,
                self.keys@ == old(self).keys@,
                self.vals@ == old(self).vals@,
                m == old(self).map@.insert(sr@, v),
                i <= self.keys@.len(),
                forall|k: int| 0 <= k < i ==> self.keys.deep_view()[k] != sr@,
            decreases self.keys@.len() - i,
        {
            if self.keys[i] == sr {
                self.vals.set(i, v);
                self.map = Ghost(m);
                proof {
                    assert(self.keys.deep_view()[i as int] == sr@);
                    assert forall|j: int| 0 <= j < self.keys@.len() implies #[trigger] self.map@[self.keys.deep_view()[j]] == self.vals@[j] by {
                        if j != i as int {
                            assert(self.keys.deep_view()[j] != self.keys.deep_view()[i as int]);
                        }
                    }
                    assert forall|k: Seq<char>| self.map@.contains_key(k) <==> self.keys.deep_view().contains(k) by {
                        if k == sr@ {
                            assert(self.keys.deep_view()[i as int] == k);
                        }
                    }
                }
                return;
            }
            i = i + 1;
        }
        let ghost old_keys = self.keys.deep_view();
        self.keys.push(sr);
        self.vals.push(v);
        self.map = Ghost(m);
        proof {
            assert(self.keys.deep_view() =~= old_keys.push(sr@));
            assert(self.keys.deep_view().no_duplicates());
            assert forall|k: Seq<char>| self.map@.contains_key(k) <==> self.keys.deep_view().contains(k) by {
                if k == sr@ {
                    assert(self.keys.deep_view()[old_keys.len() as int] == k);
                } else if self.keys.deep_view().contains(k) {
                    let j = choose|j: int| 0 <= j < self.keys.deep_view().len() && self.keys.deep_view()[j] == k;
                    assert(old_keys[j] == k);
                } else if old_keys.contains(k) {
                    let j = choose|j: int| 0 <= j < old_keys.len() && old_keys[j] == k;
                    assert(self.keys.deep_view()[j] == k);
                }
            }
            assert forall|j: int| 0 <= j < self.keys@.len() implies #[trigger] self.map@[self.keys.deep_view()[j]] == self.vals@[j] by {
                if j < old_keys.len() {
                    assert(old_keys[j] != sr@);
                }
            }
        }
    }
}

struct DeltaBuild {
    nodes: Vec<VisualNode>,
    table: IdTable,
    edges: Vec<VisualEdge>,
}

impl DeltaBuild {
    spec fn wf(&self) -> bool {
        self.table.wf()
    }

    spec fn state(&self) -> DeltaState {
        DeltaState {
            nodes: node_views(self.nodes@),
            ids: self.table.map@,
            edges: edge_views(self.edges@),
        }
    }
}

fn source_node<'a>(left: &'a GraphIr, right: &'a GraphIr, sr: &str) -> (n: Option<&'a VisualNode>)
    ensures
        match n {
            Some(n) => delta_source_node(left@, right@, sr@) == Some(n@),
            None => delta_source_node(left@, right@, sr@) is None,
        },
{
    match find_node_by_ref(&right.nodes, sr) {
        Some(k) => Some(&right.nodes[k]),
        None => match find_node_by_ref(&left.nodes, sr) {
            Some(k) => Some(&left.nodes[k]),
            None => None,
        },
    }
}

fn add_context(st: &mut DeltaBuild, left: &GraphIr, right: &GraphIr, sr: &String)
    requires
        old(st).wf(),
    ensures
        final(st).wf(),
        final(st).state() == with_context(left@, right@, old(st).state(), sr@),
{
    if st.table.get(sr.as_str()).is_some() {
        return;
    }
    match source_node(left, right, sr.as_str()) {
        Some(n) => {
            let mut m = clone_node(n);
            m.kind = class_kind(ComparativeVisualClass::Shared, n.kind.as_str());
            let ghost prev = node_views(st.nodes@);
            st.nodes.push(m);
            st.table.set(sr.clone(), n.id);
            assert(node_views(st.nodes@) =~= prev.push(
                NodeView { kind: class_kind_text(ComparativeVisualClass::Shared, n@.kind), ..n@ },
            ));
        },
        None => {},
    }
}

fn delta_node_step_exec(st: &mut DeltaBuild, left: &GraphIr, right: &GraphIr, o: &ComparativeVisualObject)
    requires
        old(st).wf(),
    ensures
        final(st).wf(),
        final(st).state() == delta_node_step(left@, right@, old(st).state(), o@),
{
    if o.class == ComparativeVisualClass::Shared {
        return;
    }
    match source_node(left, right, o.semantic_ref.as_str()) {
        None => {},
        Some(n) => {
            let mut m = clone_node(n);
            m.kind = class_kind(o.class, n.kind.as_str());
            m.source_refs = clone_refs(&o.source_refs);
            m.provenance_refs = clone_refs(&o.provenance_refs);
            let ghost prev = node_views(st.nodes@);
            st.nodes.push(m);
            st.table.set(o.semantic_ref.clone(), n.id);
            assert(node_views(st.nodes@) =~= prev.push(
                NodeView {
                    kind: class_kind_text(o.class, n@.kind),
                    source_refs: o@.source_refs,
                    provenance_refs: o@.provenance_refs,
                    ..n@
                },
            ));
        },
    }
}

fn delta_edge_step_exec(st: &mut DeltaBuild, left: &GraphIr, right: &GraphIr, o: &ComparativeVisualObject)
    requires
        old(st).wf(),
    ensures
        final(st).wf(),
        final(st).state() == delta_edge_step(left@, right@, old(st).state(), o@),
{
    if o.class == ComparativeVisualClass::Shared {
        return;
    }
    let (edge, graph) = match find_edge_by_ref(&right.edges, o.semantic_ref.as_str()) {
        Some(k) => (&right.edges[k], right),
        None => match find_edge_by_ref(&left.edges, o.semantic_ref.as_str()) {
            Some(k) => (&left.edges[k], left),
            None => {
                return;
            },
        },
    };
    assert(delta_source_edge(left@, right@, o@.semantic_ref) == Some((edge@, graph@)));
    let from_node = graph.node(edge.from);
    let to_node = graph.node(edge.to);
    let (fnode, tnode) = match (from_node, to_node) {
        (Some(a), Some(b)) => (a, b),
        _ => {
            return;
        },
    };
    let ghost s0 = st.state();
    add_context(st, left, right, &fnode.semantic_ref);
    add_context(st, left, right, &tnode.semantic_ref);
    let from = st.table.get(fnode.semantic_ref.as_str());
    let to = st.table.get(tnode.semantic_ref.as_str());
    match (from, to) {
        (Some(from), Some(to)) => {
            let mut f = clone_edge(edge);
            f.from = from;
            f.to = to;
            f.kind = class_kind(o.class, edge.kind.as_str());
            f.source_refs = clone_refs(&o.source_refs);
            f.provenance_refs = clone_refs(&o.provenance_refs);
            let ghost prev = edge_views(st.edges@);
            st.edges.push(f);
            assert(edge_views(st.edges@) =~= prev.push(
                EdgeView {
                    from,
                    to,
                    kind: class_kind_text(o.class, edge@.kind),
                    source_refs: o@.source_refs,
                    provenance_refs: o@.provenance_refs,
                    ..edge@
                },
            ));
        },
        _ => {},
    }
}

#[derive(Debug, Clone, PartialEq, Eq)]
pub struct ComparativeProofTopology {
    pub comparison_ref: String,
    pub before: GraphIr,
    pub after: GraphIr,
    pub delta: GraphIr,
    pub comparative: ComparativeGraphIr,
    pub creates_semantic_authority: bool,
    pub creates_claim_truth: bool,
}

pub struct TopologyView {
    pub comparison_ref: Seq<char>,
    pub before: GraphView,
    pub after: GraphView,
    pub delta: GraphView,
    pub comparative: ComparisonView,
    pub creates_semantic_authority: bool,
    pub creates_claim_truth: bool,
}

impl View for ComparativeProofTopology {
    type V = TopologyView;

    open spec fn view(&self) -> TopologyView {
        TopologyView {
            comparison_ref: self.comparison_ref@,
            before: self.before@,
            after: self.after@,
            delta: self.delta@,
            comparative: self.comparative@,
            creates_semantic_authority: self.creates_semantic_authority,
            creates_claim_truth: self.creates_claim_truth,
        }
    }
}

/// Before, after and delta panels over one canonical id space: the two graphs
/// reindexed, their comparison, and a delta graph of everything not shared
/// (with the endpoints of changed or one-sided edges as shared context).
pub open spec fn topology(comparison_ref: Seq<char>, left: GraphView, right: GraphView) -> TopologyView {
    let l = reindexed(left, right, left);
    let r = reindexed(left, right, right);
    let cmp = compared(comparison_ref, l, r);
    let d = delta_state(l, r, cmp.objects);
    TopologyView {
        comparison_ref,
        before: l,
        after: r,
        delta: GraphView {
            graph_ref: comparison_ref + ":delta"@,
            derived_only: true,
            challengeable: l.challengeable || r.challengeable,
            nodes: d.nodes,
            edges: d.edges,
        },
        comparative: cmp,
        creates_semantic_authority: false,
        creates_claim_truth: false,
    }
}

/// Builds the before / after / delta topology of two graphs. Neither input is
/// changed: the panels are new graphs in one canonical id space.
pub fn comparative_proof_topology(comparison_ref: &str, left: &GraphIr, right: &GraphIr) -> (t: ComparativeProofTopology)
    requires
        edges_anchored(left@),
        edges_anchored(right@),
        pair_fits_ids(left@, right@),
    ensures
        t@ == topology(comparison_ref@, left@, right@),
{
    let (before, after) = canonicalize_graph_pair(left, right);
    let comparative = compare_graph_ir(comparison_ref, &before, &after);
    let ghost l = before@;
    let ghost r = after@;
    let ghost objs = comparative@.objects;
    let mut st = DeltaBuild { nodes: Vec::new(), table: IdTable::new(), edges: Vec::new() };
    proof {
        assert(node_views(st.nodes@) =~= Seq::<NodeView>::empty());
        assert(edge_views(st.edges@) =~= Seq::<EdgeView>::empty());
        assert(st.state() == empty_delta());
    }
    let mut i: usize = 0;
    while i < comparative.objects.len()
        invariant
            st.wf(),
            i <= comparative.objects@.len(),
            l == before@,
            r == after@,
            objs == comparative@.objects,
            objs == object_views(comparative.objects@),
            st.state() == delta_nodes_pass(l, r, objs.subrange(0, i as int)),
        decreases comparative.objects@.len() - i,
    {
        delta_node_step_exec(&mut st, &before, &after, &comparative.objects[i]);
        proof {
            assert(objs.subrange(0, i + 1).drop_last() =~= objs.subrange(0, i as int));
        }
        i = i + 1;
    }
    let ghost start = st.state();
    proof {
        assert(objs.subrange(0, i as int) =~= objs);
        assert(objs.subrange(0, 0) =~= Seq::<ObjectView>::empty());
    }
    let mut i: usize = 0;
    while i < comparative.objects.len()
        invariant
            st.wf(),
            i <= comparative.objects@.len(),
            l == before@,
            r == after@,
            objs == comparative@.objects,
            objs == object_views(comparative.objects@),
            start == delta_nodes_pass(l, r, objs),
            st.state() == delta_edges_pass(l, r, start, objs.subrange(0, i as int)),
        decreases comparative.objects@.len() - i,
    {
        delta_edge_step_exec(&mut st, &before, &after, &comparative.objects[i]);
        proof {
            assert(objs.subrange(0, i + 1).drop_last() =~= objs.subrange(0, i as int));
        }
        i = i + 1;
    }
    proof {
        assert(objs.subrange(0, i as int) =~= objs);
    }
    let mut graph_ref = String::from_str(comparison_ref);
    graph_ref.append(":delta");
    let delta = GraphIr {
        graph_ref,
        derived_only: true,
        challengeable: before.challengeable || after.challengeable,
        nodes: st.nodes,
        edges: st.edges,
    };
    ComparativeProofTopology {
        comparison_ref: comparison_ref.to_owned(),
        before,
        after,
        delta,
        comparative,
        creates_semantic_authority: false,
        creates_claim_truth: false,
    }
}

/// One canonical id space: wherever the two graphs draw the same semantic node,
/// the before and after panels give it the same id, and distinct semantic nodes
/// get distinct ids.
pub proof fn lemma_canonical_ids_shared(left: GraphView, right: GraphView, i: int, j: int, k: int)
    requires
        pair_fits_ids(left, right),
        0 <= i < left.nodes.len(),
        0 <= j < right.nodes.len(),
        0 <= k < left.nodes.len(),
    ensures
        left.nodes[i].semantic_ref == right.nodes[j].semantic_ref ==> reindexed(left, right, left).nodes[i].id
            == reindexed(left, right, right).nodes[j].id,
        left.nodes[i].semantic_ref != left.nodes[k].semantic_ref ==> reindexed(left, right, left).nodes[i].id
            != reindexed(left, right, left).nodes[k].id,
        left.nodes[i].semantic_ref != right.nodes[j].semantic_ref ==> reindexed(left, right, left).nodes[i].id
            != reindexed(left, right, right).nodes[j].id,
{
    let order = node_order(left, right);
    let all = node_refs(left).union(node_refs(right));
    let ghost la = semantic_refs_of_nodes(left.nodes);
    let ghost ra = semantic_refs_of_nodes(right.nodes);
    lemma_node_order(left, right);
    lemma_sorted_len_bound(order, la, ra);
    assert(la[i] == left.nodes[i].semantic_ref);
    assert(la[k] == left.nodes[k].semantic_ref);
    assert(ra[j] == right.nodes[j].semantic_ref);
    assert(all.contains(la[i]));
    assert(all.contains(la[k]));
    assert(all.contains(ra[j]));
    assert(order.contains(la[i]));
    assert(order.contains(la[k]));
    assert(order.contains(ra[j]));
    let a = rank_of(order, la[i]);
    let b = rank_of(order, la[k]);
    let c = rank_of(order, ra[j]);
    assert(0 <= a < order.len() && order[a] == la[i]);
    assert(0 <= b < order.len() && order[b] == la[k]);
    assert(0 <= c < order.len() && order[c] == ra[j]);
}

/// The node order of a pair exists: it is sorted and holds exactly the node references.
pub proof fn lemma_node_order(left: GraphView, right: GraphView)
    ensures
        sorted_refs(node_order(left, right)),
        node_order(left, right).to_set() == node_refs(left).union(node_refs(right)),
{
    let src = semantic_refs_of_nodes(left.nodes) + semantic_refs_of_nodes(right.nodes);
    vstd::seq_lib::seq_to_set_distributes_over_add(semantic_refs_of_nodes(left.nodes), semantic_refs_of_nodes(right.nodes));
    assert(src.to_set() == node_refs(left).union(node_refs(right)));
    lemma_sorted_enumeration_exists(src);
}

/// The comparison classes partition the drawn references: every reference either
/// graph draws is in exactly one of shared, left-only, right-only and changed.
pub proof fn lemma_comparison_classes_partition(l: GraphView, r: GraphView)
    ensures
        refs_of_class(l, r, ComparativeVisualClass::Shared).union(refs_of_class(l, r, ComparativeVisualClass::LeftOnly)).union(
            refs_of_class(l, r, ComparativeVisualClass::RightOnly),
        ).union(refs_of_class(l, r, ComparativeVisualClass::Changed)) == drawn_refs(l, r),
        forall|a: ComparativeVisualClass, b: ComparativeVisualClass|
            a != b ==> #[trigger] refs_of_class(l, r, a).disjoint(#[trigger] refs_of_class(l, r, b)),
{
    assert(refs_of_class(l, r, ComparativeVisualClass::Shared).union(refs_of_class(l, r, ComparativeVisualClass::LeftOnly)).union(
        refs_of_class(l, r, ComparativeVisualClass::RightOnly),
    ).union(refs_of_class(l, r, ComparativeVisualClass::Changed)) =~= drawn_refs(l, r));
}

// ---------------------------------------------------------------------------
// What the delta panel holds.
// ---------------------------------------------------------------------------

/// A kind the comparison gave: it begins with `comparative:`.
pub open spec fn comparative_kind(kind: Seq<char>) -> bool {
    "comparative:"@.is_prefix_of(kind)
}

pub open spec fn has_node_ref(nodes: Seq<NodeView>, sr: Seq<char>) -> bool {
    exists|i: int| 0 <= i < nodes.len() && (#[trigger] nodes[i]).semantic_ref == sr
}

pub open spec fn has_node_id(nodes: Seq<NodeView>, id: VisualObjectId) -> bool {
    exists|i: int| 0 <= i < nodes.len() && (#[trigger] nodes[i]).id == id
}

/// The delta panel under construction is sound: its node references are distinct
/// and exactly the keys of its id table, each key maps to its node's id, every kind
/// is a comparative kind, and every edge runs between its nodes.
pub open spec fn delta_wf(st: DeltaState) -> bool {
    &&& forall|i: int, j: int|
        0 <= i < j < st.nodes.len() ==> #[trigger] st.nodes[i].semantic_ref != #[trigger] st.nodes[j].semantic_ref
    &&& forall|k: Seq<char>| #[trigger] st.ids.contains_key(k) <==> has_node_ref(st.nodes, k)
    &&& forall|i: int| 0 <= i < st.nodes.len() ==> st.ids[#[trigger] st.nodes[i].semantic_ref] == st.nodes[i].id
    &&& forall|i: int| 0 <= i < st.nodes.len() ==> comparative_kind(#[trigger] st.nodes[i].kind)
    &&& forall|i: int|
        0 <= i < st.edges.len() ==> comparative_kind((#[trigger] st.edges[i]).kind) && has_node_id(st.nodes, st.edges[i].from)
            && has_node_id(st.nodes, st.edges[i].to)
}

/// The delta node drawn for object `o`: it carries the object's reference, source
/// and provenance references, and a kind naming the object's class.
pub open spec fn draws_object(nodes: Seq<NodeView>, o: ObjectView) -> bool {
    exists|i: int|
        0 <= i < nodes.len() && (#[trigger] nodes[i]).semantic_ref == o.semantic_ref && nodes[i].source_refs == o.source_refs
            && nodes[i].provenance_refs == o.provenance_refs && exists|k: Seq<char>| nodes[i].kind == class_kind_text(o.class, k)
}

proof fn lemma_class_kind_comparative(c: ComparativeVisualClass, k: Seq<char>)
    ensures
        comparative_kind(class_kind_text(c, k)),
{
    let t = class_kind_text(c, k);
    assert(t =~= "comparative:"@ + (class_word(c) + ":"@ + k));
    assert(t.subrange(0, "comparative:"@.len() as int) =~= "comparative:"@);
}

proof fn lemma_node_by_ref_ref(nodes: Seq<NodeView>, sr: Seq<char>)
    ensures
        node_by_ref(nodes, sr) matches Some(n) ==> n.semantic_ref == sr,
    decreases nodes.len(),
{
    if nodes.len() > 0 && nodes.last().semantic_ref != sr {
        lemma_node_by_ref_ref(nodes.drop_last(), sr);
    }
}

proof fn lemma_delta_source_ref(l: GraphView, r: GraphView, sr: Seq<char>)
    ensures
        delta_source_node(l, r, sr) matches Some(n) ==> n.semantic_ref == sr,
{
    lemma_node_by_ref_ref(r.nodes, sr);
    lemma_node_by_ref_ref(l.nodes, sr);
}

/// Pushing a node under a fresh reference, mapped to its id, keeps the panel sound.
proof fn lemma_push_fresh(st: DeltaState, n: NodeView)
    requires
        delta_wf(st),
        !st.ids.contains_key(n.semantic_ref),
        comparative_kind(n.kind),
    ensures
        delta_wf(DeltaState { nodes: st.nodes.push(n), ids: st.ids.insert(n.semantic_ref, n.id), edges: st.edges }),
        st.nodes.is_prefix_of(st.nodes.push(n)),
{
    let nodes = st.nodes.push(n);
    let ids = st.ids.insert(n.semantic_ref, n.id);
    let st2 = DeltaState { nodes, ids, edges: st.edges };
    assert forall|i: int| 0 <= i < st.nodes.len() implies #[trigger] st.nodes[i].semantic_ref != n.semantic_ref by {
        assert(has_node_ref(st.nodes, st.nodes[i].semantic_ref));
    }
    assert forall|i: int, j: int| 0 <= i < j < nodes.len() implies #[trigger] nodes[i].semantic_ref != #[trigger] nodes[j].semantic_ref by {
        if j == st.nodes.len() {
            assert(nodes[i] == st.nodes[i]);
        } else {
            assert(nodes[i] == st.nodes[i] && nodes[j] == st.nodes[j]);
        }
    }
    assert forall|k: Seq<char>| #[trigger] ids.contains_key(k) <==> has_node_ref(nodes, k) by {
        if has_node_ref(st.nodes, k) {
            let i = choose|i: int| 0 <= i < st.nodes.len() && (#[trigger] st.nodes[i]).semantic_ref == k;
            assert(nodes[i] == st.nodes[i]);
        }
        if has_node_ref(nodes, k) {
            let i = choose|i: int| 0 <= i < nodes.len() && (#[trigger] nodes[i]).semantic_ref == k;
            if i < st.nodes.len() {
                assert(nodes[i] == st.nodes[i]);
                assert(has_node_ref(st.nodes, k));
            }
        }
        if k == n.semantic_ref {
            assert(nodes[st.nodes.len() as int] == n);
        }
    }
    assert forall|i: int| 0 <= i < nodes.len() implies ids[#[trigger] nodes[i].semantic_ref] == nodes[i].id by {
        if i < st.nodes.len() {
            assert(nodes[i] == st.nodes[i]);
        }
    }
    assert forall|i: int| 0 <= i < nodes.len() implies comparative_kind(#[trigger] nodes[i].kind) by {
        if i < st.nodes.len() {
            assert(nodes[i] == st.nodes[i]);
        }
    }
    assert forall|i: int| 0 <= i < st.edges.len() implies comparative_kind((#[trigger] st.edges[i]).kind)
        && has_node_id(nodes, st.edges[i].from) && has_node_id(nodes, st.edges[i].to) by {
        let a = choose|a: int| 0 <= a < st.nodes.len() && (#[trigger] st.nodes[a]).id == st.edges[i].from;
        let b = choose|b: int| 0 <= b < st.nodes.len() && (#[trigger] st.nodes[b]).id == st.edges[i].to;
        assert(nodes[a] == st.nodes[a] && nodes[b] == st.nodes[b]);
    }
    assert(st.nodes.is_prefix_of(nodes)) by {
        assert(nodes.subrange(0, st.nodes.len() as int) =~= st.nodes);
    }
}

proof fn lemma_with_context(l: GraphView, r: GraphView, st: DeltaState, sr: Seq<char>)
    requires
        delta_wf(st),
    ensures
        delta_wf(with_context(l, r, st, sr)),
        st.nodes.is_prefix_of(with_context(l, r, st, sr).nodes),
        with_context(l, r, st, sr).edges == st.edges,
        st.ids.contains_key(sr) || delta_source_node(l, r, sr) is Some ==> with_context(l, r, st, sr).ids.contains_key(sr),
        forall|k: Seq<char>| st.ids.contains_key(k) ==> with_context(l, r, st, sr).ids.contains_key(k),
{
    if !st.ids.contains_key(sr) {
        match delta_source_node(l, r, sr) {
            Some(n) => {
                lemma_delta_source_ref(l, r, sr);
                let m = NodeView { kind: class_kind_text(ComparativeVisualClass::Shared, n.kind), ..n };
                lemma_class_kind_comparative(ComparativeVisualClass::Shared, n.kind);
                lemma_push_fresh(st, m);
                assert(with_context(l, r, st, sr).nodes == st.nodes.push(m));
            },
            None => {
                assert(st.nodes.subrange(0, st.nodes.len() as int) =~= st.nodes);
            },
        }
    } else {
        assert(st.nodes.subrange(0, st.nodes.len() as int) =~= st.nodes);
    }
}

proof fn lemma_prefix_keeps_drawn(a: Seq<NodeView>, b: Seq<NodeView>, o: ObjectView)
    requires
        a.is_prefix_of(b),
        draws_object(a, o),
    ensures
        draws_object(b, o),
{
    let i = choose|i: int|
        0 <= i < a.len() && (#[trigger] a[i]).semantic_ref == o.semantic_ref && a[i].source_refs == o.source_refs
            && a[i].provenance_refs == o.provenance_refs && exists|k: Seq<char>| a[i].kind == class_kind_text(o.class, k);
    assert(b[i] == b.subrange(0, a.len() as int)[i]);
}

proof fn lemma_edge_step(l: GraphView, r: GraphView, st: DeltaState, o: ObjectView)
    requires
        delta_wf(st),
    ensures
        delta_wf(delta_edge_step(l, r, st, o)),
        st.nodes.is_prefix_of(delta_edge_step(l, r, st, o).nodes),
{
    if o.class != ComparativeVisualClass::Shared {
        match delta_source_edge(l, r, o.semantic_ref) {
            None => {
                assert(st.nodes.subrange(0, st.nodes.len() as int) =~= st.nodes);
            },
            Some((e, g)) => match (node_by_id(g.nodes, e.from), node_by_id(g.nodes, e.to)) {
                (Some(fnode), Some(tnode)) => {
                    let st1 = with_context(l, r, st, fnode.semantic_ref);
                    lemma_with_context(l, r, st, fnode.semantic_ref);
                    let st2 = with_context(l, r, st1, tnode.semantic_ref);
                    lemma_with_context(l, r, st1, tnode.semantic_ref);
                    assert(st.nodes.is_prefix_of(st2.nodes)) by {
                        assert(st2.nodes.subrange(0, st.nodes.len() as int) =~= st2.nodes.subrange(0, st1.nodes.len() as int).subrange(0, st.nodes.len() as int));
                    }
                    if st2.ids.contains_key(fnode.semantic_ref) && st2.ids.contains_key(tnode.semantic_ref) {
                        let ne = EdgeView {
                            from: st2.ids[fnode.semantic_ref],
                            to: st2.ids[tnode.semantic_ref],
                            kind: class_kind_text(o.class, e.kind),
                            source_refs: o.source_refs,
                            provenance_refs: o.provenance_refs,
                            ..e
                        };
                        lemma_class_kind_comparative(o.class, e.kind);
                        let a = choose|i: int| 0 <= i < st2.nodes.len() && (#[trigger] st2.nodes[i]).semantic_ref == fnode.semantic_ref;
                        let b = choose|i: int| 0 <= i < st2.nodes.len() && (#[trigger] st2.nodes[i]).semantic_ref == tnode.semantic_ref;
                        assert(has_node_id(st2.nodes, ne.from));
                        assert(has_node_id(st2.nodes, ne.to));
                        let edges = st2.edges.push(ne);
                        assert forall|i: int| 0 <= i < edges.len() implies comparative_kind((#[trigger] edges[i]).kind)
                            && has_node_id(st2.nodes, edges[i].from) && has_node_id(st2.nodes, edges[i].to) by {
                            if i < st2.edges.len() {
                                assert(edges[i] == st2.edges[i]);
                            }
                        }
                    }
                },
                _ => {
                    assert(st.nodes.subrange(0, st.nodes.len() as int) =~= st.nodes);
                },
            },
        }
    } else {
        assert(st.nodes.subrange(0, st.nodes.len() as int) =~= st.nodes);
    }
}

proof fn lemma_edges_pass(l: GraphView, r: GraphView, start: DeltaState, objs: Seq<ObjectView>)
    requires
        delta_wf(start),
    ensures
        delta_wf(delta_edges_pass(l, r, start, objs)),
        start.nodes.is_prefix_of(delta_edges_pass(l, r, start, objs).nodes),
    decreases objs.len(),
{
    if objs.len() == 0 {
        assert(start.nodes.subrange(0, start.nodes.len() as int) =~= start.nodes);
    } else {
        let mid = delta_edges_pass(l, r, start, objs.drop_last());
        lemma_edges_pass(l, r, start, objs.drop_last());
        lemma_edge_step(l, r, mid, objs.last());
        let end = delta_edges_pass(l, r, start, objs);
        assert(end.nodes.subrange(0, start.nodes.len() as int) =~= end.nodes.subrange(0, mid.nodes.len() as int).subrange(0, start.nodes.len() as int));
    }
}

/// Objects whose references are distinct.
pub open spec fn distinct_objects(objs: Seq<ObjectView>) -> bool {
    forall|i: int, j: int| 0 <= i < j < objs.len() ==> #[trigger] objs[i].semantic_ref != #[trigger] objs[j].semantic_ref
}

/// A non-shared object with a node drawing in either graph.
pub open spec fn delta_object(l: GraphView, r: GraphView, o: ObjectView) -> bool {
    o.class != ComparativeVisualClass::Shared && delta_source_node(l, r, o.semantic_ref) is Some
}

proof fn lemma_nodes_pass(l: GraphView, r: GraphView, objs: Seq<ObjectView>)
    requires
        distinct_objects(objs),
    ensures
        delta_wf(delta_nodes_pass(l, r, objs)),
        delta_nodes_pass(l, r, objs).edges.len() == 0,
        forall|k: Seq<char>| #[trigger] delta_nodes_pass(l, r, objs).ids.contains_key(k) ==> exists|m: int|
            0 <= m < objs.len() && objs[m].semantic_ref == k,
        forall|m: int| 0 <= m < objs.len() && delta_object(l, r, #[trigger] objs[m]) ==> draws_object(
            delta_nodes_pass(l, r, objs).nodes,
            objs[m],
        ),
    decreases objs.len(),
{
    let st = delta_nodes_pass(l, r, objs);
    if objs.len() == 0 {
        assert(st.ids =~= Map::<Seq<char>, VisualObjectId>::empty());
    } else {
        let init = objs.drop_last();
        let o = objs.last();
        assert forall|i: int, j: int| 0 <= i < j < init.len() implies #[trigger] init[i].semantic_ref != #[trigger] init[j].semantic_ref by {
            assert(init[i] == objs[i] && init[j] == objs[j]);
        }
        lemma_nodes_pass(l, r, init);
        let prev = delta_nodes_pass(l, r, init);
        assert(!prev.ids.contains_key(o.semantic_ref)) by {
            if prev.ids.contains_key(o.semantic_ref) {
                let m = choose|m: int| 0 <= m < init.len() && init[m].semantic_ref == o.semantic_ref;
                assert(objs[m] == init[m]);
                assert(objs[objs.len() - 1] == o);
            }
        }
        if o.class != ComparativeVisualClass::Shared && delta_source_node(l, r, o.semantic_ref) is Some {
            let n = delta_source_node(l, r, o.semantic_ref)->Some_0;
            lemma_delta_source_ref(l, r, o.semantic_ref);
            let m = NodeView { kind: class_kind_text(o.class, n.kind), source_refs: o.source_refs, provenance_refs: o.provenance_refs, ..n };
            lemma_class_kind_comparative(o.class, n.kind);
            lemma_push_fresh(prev, m);
            assert(st.nodes == prev.nodes.push(m));
            assert(st.nodes[prev.nodes.len() as int] == m);
            assert(draws_object(st.nodes, o));
        } else {
            assert(st == prev);
            assert(prev.nodes.subrange(0, prev.nodes.len() as int) =~= prev.nodes);
        }
        assert(prev.nodes.is_prefix_of(st.nodes)) by {
            if st.nodes.len() > prev.nodes.len() {
                assert(st.nodes.subrange(0, prev.nodes.len() as int) =~= prev.nodes);
            } else {
                assert(st.nodes.subrange(0, prev.nodes.len() as int) =~= prev.nodes);
            }
        }
        assert forall|k: Seq<char>| #[trigger] st.ids.contains_key(k) implies exists|m: int| 0 <= m < objs.len() && objs[m].semantic_ref == k by {
            if prev.ids.contains_key(k) {
                let m = choose|m: int| 0 <= m < init.len() && init[m].semantic_ref == k;
                assert(objs[m] == init[m]);
            } else {
                assert(objs[objs.len() - 1] == o);
            }
        }
        assert forall|m: int| 0 <= m < objs.len() && delta_object(l, r, #[trigger] objs[m]) implies draws_object(st.nodes, objs[m]) by {
            if m < init.len() {
                assert(objs[m] == init[m]);
                lemma_prefix_keeps_drawn(prev.nodes, st.nodes, objs[m]);
            } else {
                assert(objs[m] == o);
            }
        }
    }
}

proof fn lemma_objects_distinct(comparison_ref: Seq<char>, l: GraphView, r: GraphView)
    ensures
        distinct_objects(compared(comparison_ref, l, r).objects),
{
    let a = semantic_refs_of_nodes(l.nodes);
    let b = semantic_refs_of_nodes(r.nodes);
    let c = semantic_refs_of_edges(l.edges);
    let d = semantic_refs_of_edges(r.edges);
    let src = a + b + c + d;
    vstd::seq_lib::seq_to_set_distributes_over_add(a, b);
    vstd::seq_lib::seq_to_set_distributes_over_add(a + b, c);
    vstd::seq_lib::seq_to_set_distributes_over_add(a + b + c, d);
    assert(src.to_set() == drawn_refs(l, r));
    lemma_sorted_enumeration_exists(src);
    let q = sorted_enumeration(drawn_refs(l, r));
    let objs = compared(comparison_ref, l, r).objects;
    assert forall|i: int, j: int| 0 <= i < j < objs.len() implies #[trigger] objs[i].semantic_ref != #[trigger] objs[j].semantic_ref by {
        assert(objs[i].semantic_ref == q[i]);
        assert(objs[j].semantic_ref == q[j]);
        assert(ref_lt(q[i], q[j]));
        lemma_ref_lt_irreflexive(q[i]);
    }
}

/// The delta panel of a proof topology draws each non-shared object that has a node
/// exactly once, under its own reference, with its source and provenance references
/// and a kind naming its class; its node references are distinct; every kind in it
/// begins with `comparative:`; and every delta edge runs between delta nodes.
pub proof fn lemma_delta_panel(comparison_ref: Seq<char>, left: GraphView, right: GraphView)
    ensures
        forall|i: int, j: int|
            0 <= i < j < topology(comparison_ref, left, right).delta.nodes.len() ==> #[trigger] topology(
                comparison_ref,
                left,
                right,
            ).delta.nodes[i].semantic_ref != #[trigger] topology(comparison_ref, left, right).delta.nodes[j].semantic_ref,
        forall|i: int|
            0 <= i < topology(comparison_ref, left, right).delta.nodes.len() ==> comparative_kind(
                (#[trigger] topology(comparison_ref, left, right).delta.nodes[i]).kind,
            ),
        forall|i: int|
            0 <= i < topology(comparison_ref, left, right).delta.edges.len() ==> comparative_kind(
                (#[trigger] topology(comparison_ref, left, right).delta.edges[i]).kind,
            ) && has_node_id(topology(comparison_ref, left, right).delta.nodes, topology(comparison_ref, left, right).delta.edges[i].from)
                && has_node_id(topology(comparison_ref, left, right).delta.nodes, topology(comparison_ref, left, right).delta.edges[i].to),
        forall|m: int|
            0 <= m < topology(comparison_ref, left, right).comparative.objects.len() && delta_object(
                topology(comparison_ref, left, right).before,
                topology(comparison_ref, left, right).after,
                #[trigger] topology(comparison_ref, left, right).comparative.objects[m],
            ) ==> draws_object(topology(comparison_ref, left, right).delta.nodes, topology(comparison_ref, left, right).comparative.objects[m]),
        topology(comparison_ref, left, right).delta.graph_ref == comparison_ref + ":delta"@,
        topology(comparison_ref, left, right).delta.derived_only,
{
    let t = topology(comparison_ref, left, right);
    let l = t.before;
    let r = t.after;
    let objs = t.comparative.objects;
    lemma_objects_distinct(comparison_ref, l, r);
    lemma_nodes_pass(l, r, objs);
    let start = delta_nodes_pass(l, r, objs);
    lemma_edges_pass(l, r, start, objs);
    let end = delta_state(l, r, objs);
    assert(t.delta.nodes == end.nodes);
    assert(t.delta.edges == end.edges);
    assert forall|m: int| 0 <= m < objs.len() && delta_object(l, r, #[trigger] objs[m]) implies draws_object(end.nodes, objs[m]) by {
        lemma_prefix_keeps_drawn(start.nodes, end.nodes, objs[m]);
    }
}


/// The class an object takes when the two graphs trade places.
pub open spec fn mirrored_class(c: ComparativeVisualClass) -> ComparativeVisualClass {
    match c {
        ComparativeVisualClass::LeftOnly => ComparativeVisualClass::RightOnly,
        ComparativeVisualClass::RightOnly => ComparativeVisualClass::LeftOnly,
        _ => c,
    }
}

proof fn lemma_compared_object_swap(l: GraphView, r: GraphView, sr: Seq<char>)
    ensures
        compared_object(r, l, sr).semantic_ref == compared_object(l, r, sr).semantic_ref,
        compared_object(r, l, sr).class == mirrored_class(compared_object(l, r, sr).class),
        compared_object(r, l, sr).left_object_id == compared_object(l, r, sr).right_object_id,
        compared_object(r, l, sr).right_object_id == compared_object(l, r, sr).left_object_id,
{
}

/// Comparing the graphs the other way round yields the same objects in the
/// same order, with left and right traded: left-only and right-only swap,
/// shared and changed stay, and each object's left and right ids swap.
pub proof fn lemma_compare_swap(comparison_ref: Seq<char>, left: GraphView, right: GraphView)
    ensures
        compared(comparison_ref, right, left).left_only_semantic_refs == compared(comparison_ref, left, right).right_only_semantic_refs,
        compared(comparison_ref, right, left).right_only_semantic_refs == compared(comparison_ref, left, right).left_only_semantic_refs,
        compared(comparison_ref, right, left).shared_semantic_refs == compared(comparison_ref, left, right).shared_semantic_refs,
        compared(comparison_ref, right, left).changed_semantic_refs == compared(comparison_ref, left, right).changed_semantic_refs,
        compared(comparison_ref, right, left).objects.len() == compared(comparison_ref, left, right).objects.len(),
        forall|i: int|
            0 <= i < compared(comparison_ref, left, right).objects.len() ==> {
                let a = #[trigger] compared(comparison_ref, left, right).objects[i];
                let b = compared(comparison_ref, right, left).objects[i];
                &&& b.semantic_ref == a.semantic_ref
                &&& b.class == mirrored_class(a.class)
                &&& b.left_object_id == a.right_object_id
                &&& b.right_object_id == a.left_object_id
            },
{
    let l = left;
    let r = right;
    assert(drawn_refs(r, l) =~= drawn_refs(l, r));
    assert forall|sr: Seq<char>| true implies #[trigger] compared_object(r, l, sr).class == mirrored_class(compared_object(l, r, sr).class) by {
        lemma_compared_object_swap(l, r, sr);
    }
    assert(refs_of_class(r, l, ComparativeVisualClass::LeftOnly) =~= refs_of_class(l, r, ComparativeVisualClass::RightOnly));
    assert(refs_of_class(r, l, ComparativeVisualClass::RightOnly) =~= refs_of_class(l, r, ComparativeVisualClass::LeftOnly));
    assert(refs_of_class(r, l, ComparativeVisualClass::Shared) =~= refs_of_class(l, r, ComparativeVisualClass::Shared));
    assert(refs_of_class(r, l, ComparativeVisualClass::Changed) =~= refs_of_class(l, r, ComparativeVisualClass::Changed));
    let q = sorted_enumeration(drawn_refs(l, r));
    assert forall|i: int| 0 <= i < q.len() implies {
        let a = #[trigger] compared(comparison_ref, l, r).objects[i];
        let b = compared(comparison_ref, r, l).objects[i];
        &&& b.semantic_ref == a.semantic_ref
        &&& b.class == mirrored_class(a.class)
        &&& b.left_object_id == a.right_object_id
        &&& b.right_object_id == a.left_object_id
    } by {
        lemma_compared_object_swap(l, r, q[i]);
    }
}


proof fn lemma_drawn_enumerated(l: GraphView, r: GraphView)
    ensures
        sorted_enumeration(drawn_refs(l, r)).to_set() == drawn_refs(l, r),
{
    let a = semantic_refs_of_nodes(l.nodes);
    let b = semantic_refs_of_nodes(r.nodes);
    let c = semantic_refs_of_edges(l.edges);
    let d = semantic_refs_of_edges(r.edges);
    let src = a + b + c + d;
    vstd::seq_lib::seq_to_set_distributes_over_add(a, b);
    vstd::seq_lib::seq_to_set_distributes_over_add(a + b, c);
    vstd::seq_lib::seq_to_set_distributes_over_add(a + b + c, d);
    assert(src.to_set() == drawn_refs(l, r));
    lemma_sorted_enumeration_exists(src);
}

proof fn lemma_class_enumerated(l: GraphView, r: GraphView, c: ComparativeVisualClass)
    ensures
        sorted_enumeration(refs_of_class(l, r, c)).to_set() == refs_of_class(l, r, c),
{
    lemma_drawn_enumerated(l, r);
    let q = sorted_enumeration(drawn_refs(l, r));
    let pred = |sr: Seq<char>| compared_object(l, r, sr).class == c;
    let f = q.filter(pred);
    assert forall|x: Seq<char>| f.to_set().contains(x) <==> refs_of_class(l, r, c).contains(x) by {
        if f.contains(x) {
            q.lemma_filter_contains_rev(pred, x);
            let i = choose|i: int| 0 <= i < f.len() && f[i] == x;
            q.lemma_filter_pred(pred, i);
        }
        if refs_of_class(l, r, c).contains(x) {
            assert(q.to_set().contains(x));
            let i = choose|i: int| 0 <= i < q.len() && q[i] == x;
            q.lemma_filter_contains(pred, i);
        }
    }
    assert(f.to_set() =~= refs_of_class(l, r, c));
    lemma_sorted_enumeration_exists(f);
}

proof fn lemma_drawn_node_ref(g: GraphView, sr: Seq<char>, i: int)
    requires
        0 <= i < g.nodes.len(),
        g.nodes[i].semantic_ref == sr,
    ensures
        node_refs(g).contains(sr),
{
    assert(semantic_refs_of_nodes(g.nodes)[i] == sr);
}

proof fn lemma_drawn_edge_ref(g: GraphView, sr: Seq<char>, i: int)
    requires
        0 <= i < g.edges.len(),
        g.edges[i].semantic_ref == sr,
    ensures
        edge_refs(g).contains(sr),
{
    assert(semantic_refs_of_edges(g.edges)[i] == sr);
}

/// A reference drawn as a node in both graphs is changed exactly when the last
/// such node of each graph differ in kind, label, source references, provenance
/// references or hiddenness, and shared otherwise; it is never one-sided.
pub proof fn lemma_node_comparison_fields(comparison_ref: Seq<char>, l: GraphView, r: GraphView, sr: Seq<char>, i: int, j: int)
    requires
        0 <= i < l.nodes.len(),
        l.nodes[i].semantic_ref == sr,
        forall|k: int| i < k < l.nodes.len() ==> (#[trigger] l.nodes[k]).semantic_ref != sr,
        0 <= j < r.nodes.len(),
        r.nodes[j].semantic_ref == sr,
        forall|k: int| j < k < r.nodes.len() ==> (#[trigger] r.nodes[k]).semantic_ref != sr,
    ensures
        ({
            let a = l.nodes[i];
            let b = r.nodes[j];
            let differ = a.kind != b.kind || a.label != b.label || a.source_refs != b.source_refs || a.provenance_refs
                != b.provenance_refs || a.hidden != b.hidden;
            &&& compared(comparison_ref, l, r).changed_semantic_refs.contains(sr) <==> differ
            &&& compared(comparison_ref, l, r).shared_semantic_refs.contains(sr) <==> !differ
            &&& !compared(comparison_ref, l, r).left_only_semantic_refs.contains(sr)
            &&& !compared(comparison_ref, l, r).right_only_semantic_refs.contains(sr)
        }),
{
    lemma_node_by_ref_is_last(l.nodes, sr);
    lemma_node_by_ref_is_last(r.nodes, sr);
    let a = node_by_ref(l.nodes, sr)->Some_0;
    let b = node_by_ref(r.nodes, sr)->Some_0;
    let ia = choose|x: int|
        0 <= x < l.nodes.len() && #[trigger] l.nodes[x] == a && a.semantic_ref == sr && forall|y: int|
            x < y < l.nodes.len() ==> (#[trigger] l.nodes[y]).semantic_ref != sr;
    let ib = choose|x: int|
        0 <= x < r.nodes.len() && #[trigger] r.nodes[x] == b && b.semantic_ref == sr && forall|y: int|
            x < y < r.nodes.len() ==> (#[trigger] r.nodes[y]).semantic_ref != sr;
    assert(ia == i) by {
        if ia < i {
            assert(l.nodes[i].semantic_ref != sr);
        } else if ia > i {
            assert(l.nodes[ia].semantic_ref != sr);
        }
    }
    assert(ib == j) by {
        if ib < j {
            assert(r.nodes[j].semantic_ref != sr);
        } else if ib > j {
            assert(r.nodes[ib].semantic_ref != sr);
        }
    }
    lemma_drawn_node_ref(l, sr, i);
    assert(drawn_refs(l, r).contains(sr));
    lemma_class_enumerated(l, r, ComparativeVisualClass::Changed);
    lemma_class_enumerated(l, r, ComparativeVisualClass::Shared);
    lemma_class_enumerated(l, r, ComparativeVisualClass::LeftOnly);
    lemma_class_enumerated(l, r, ComparativeVisualClass::RightOnly);
    let cmp = compared(comparison_ref, l, r);
    let o = compared_object(l, r, sr);
    assert(o.class == ComparativeVisualClass::Changed || o.class == ComparativeVisualClass::Shared);
    assert(node_changed(a, b) == (o.class == ComparativeVisualClass::Changed));
    assert(cmp.changed_semantic_refs.to_set().contains(sr) == refs_of_class(l, r, ComparativeVisualClass::Changed).contains(sr));
    assert(cmp.shared_semantic_refs.to_set().contains(sr) == refs_of_class(l, r, ComparativeVisualClass::Shared).contains(sr));
    assert(cmp.left_only_semantic_refs.to_set().contains(sr) == refs_of_class(l, r, ComparativeVisualClass::LeftOnly).contains(sr));
    assert(cmp.right_only_semantic_refs.to_set().contains(sr) == refs_of_class(l, r, ComparativeVisualClass::RightOnly).contains(sr));
}

/// A reference drawn as an edge in both graphs, and as a node in neither, is
/// changed exactly when the last such edge of each graph differ in endpoints,
/// kind, source references, provenance references, hiddenness or weight, the
/// weights compared as `f32` values (zeros of either sign equal, a NaN equal to
/// nothing); and shared otherwise.
pub proof fn lemma_edge_comparison_fields(comparison_ref: Seq<char>, l: GraphView, r: GraphView, sr: Seq<char>, i: int, j: int)
    requires
        forall|k: int| 0 <= k < l.nodes.len() ==> (#[trigger] l.nodes[k]).semantic_ref != sr,
        forall|k: int| 0 <= k < r.nodes.len() ==> (#[trigger] r.nodes[k]).semantic_ref != sr,
        0 <= i < l.edges.len(),
        l.edges[i].semantic_ref == sr,
        forall|k: int| i < k < l.edges.len() ==> (#[trigger] l.edges[k]).semantic_ref != sr,
        0 <= j < r.edges.len(),
        r.edges[j].semantic_ref == sr,
        forall|k: int| j < k < r.edges.len() ==> (#[trigger] r.edges[k]).semantic_ref != sr,
    ensures
        ({
            let a = l.edges[i];
            let b = r.edges[j];
            let a_nan = a.weight_bits & 0x7f80_0000u32 == 0x7f80_0000u32 && a.weight_bits & 0x007f_ffffu32 != 0;
            let b_nan = b.weight_bits & 0x7f80_0000u32 == 0x7f80_0000u32 && b.weight_bits & 0x007f_ffffu32 != 0;
            let same_weight = (a.weight_bits & 0x7fff_ffffu32 == 0 && b.weight_bits & 0x7fff_ffffu32 == 0) || (!a_nan && !b_nan
                && a.weight_bits == b.weight_bits);
            let differ = a.from != b.from || a.to != b.to || a.kind != b.kind || a.source_refs != b.source_refs
                || a.provenance_refs != b.provenance_refs || a.hidden != b.hidden || !same_weight;
            &&& compared(comparison_ref, l, r).changed_semantic_refs.contains(sr) <==> differ
            &&& compared(comparison_ref, l, r).shared_semantic_refs.contains(sr) <==> !differ
        }),
{
    lemma_node_by_ref_is_last(l.nodes, sr);
    lemma_node_by_ref_is_last(r.nodes, sr);
    lemma_edge_by_ref_is_last(l.edges, sr);
    lemma_edge_by_ref_is_last(r.edges, sr);
    assert(node_by_ref(l.nodes, sr) is None) by {
        if node_by_ref(l.nodes, sr) is Some {
            let n = node_by_ref(l.nodes, sr)->Some_0;
            let x = choose|x: int| 0 <= x < l.nodes.len() && #[trigger] l.nodes[x] == n && n.semantic_ref == sr && forall|y: int|
                x < y < l.nodes.len() ==> (#[trigger] l.nodes[y]).semantic_ref != sr;
            assert(l.nodes[x].semantic_ref != sr);
        }
    }
    assert(node_by_ref(r.nodes, sr) is None) by {
        if node_by_ref(r.nodes, sr) is Some {
            let n = node_by_ref(r.nodes, sr)->Some_0;
            let x = choose|x: int| 0 <= x < r.nodes.len() && #[trigger] r.nodes[x] == n && n.semantic_ref == sr && forall|y: int|
                x < y < r.nodes.len() ==> (#[trigger] r.nodes[y]).semantic_ref != sr;
            assert(r.nodes[x].semantic_ref != sr);
        }
    }
    let a = edge_by_ref(l.edges, sr)->Some_0;
    let b = edge_by_ref(r.edges, sr)->Some_0;
    let ia = choose|x: int|
        0 <= x < l.edges.len() && #[trigger] l.edges[x] == a && a.semantic_ref == sr && forall|y: int|
            x < y < l.edges.len() ==> (#[trigger] l.edges[y]).semantic_ref != sr;
    let ib = choose|x: int|
        0 <= x < r.edges.len() && #[trigger] r.edges[x] == b && b.semantic_ref == sr && forall|y: int|
            x < y < r.edges.len() ==> (#[trigger] r.edges[y]).semantic_ref != sr;
    assert(ia == i) by {
        if ia < i {
            assert(l.edges[i].semantic_ref != sr);
        } else if ia > i {
            assert(l.edges[ia].semantic_ref != sr);
        }
    }
    assert(ib == j) by {
        if ib < j {
            assert(r.edges[j].semantic_ref != sr);
        } else if ib > j {
            assert(r.edges[ib].semantic_ref != sr);
        }
    }
    lemma_drawn_edge_ref(l, sr, i);
    assert(drawn_refs(l, r).contains(sr));
    lemma_class_enumerated(l, r, ComparativeVisualClass::Changed);
    lemma_class_enumerated(l, r, ComparativeVisualClass::Shared);
    let cmp = compared(comparison_ref, l, r);
    let o = compared_object(l, r, sr);
    assert(o.class == ComparativeVisualClass::Changed || o.class == ComparativeVisualClass::Shared);
    assert(edge_changed(a, b) == (o.class == ComparativeVisualClass::Changed));
    assert(cmp.changed_semantic_refs.to_set().contains(sr) == refs_of_class(l, r, ComparativeVisualClass::Changed).contains(sr));
    assert(cmp.shared_semantic_refs.to_set().contains(sr) == refs_of_class(l, r, ComparativeVisualClass::Shared).contains(sr));
}


/// Some node of `nodes` carries reference `sr` under kind `kind`.
pub open spec fn draws_kind(nodes: Seq<NodeView>, sr: Seq<char>, kind: Seq<char>) -> bool {
    exists|i: int| 0 <= i < nodes.len() && (#[trigger] nodes[i]).semantic_ref == sr && nodes[i].kind == kind
}

proof fn lemma_prefix_keeps_kind(a: Seq<NodeView>, b: Seq<NodeView>, sr: Seq<char>, kind: Seq<char>)
    requires
        a.is_prefix_of(b),
        draws_kind(a, sr, kind),
    ensures
        draws_kind(b, sr, kind),
{
    let i = choose|i: int| 0 <= i < a.len() && (#[trigger] a[i]).semantic_ref == sr && a[i].kind == kind;
    assert(b[i] == b.subrange(0, a.len() as int)[i]);
}

proof fn lemma_nodes_pass_kinds(l: GraphView, r: GraphView, objs: Seq<ObjectView>)
    ensures
        forall|m: int| 0 <= m < objs.len() && delta_object(l, r, #[trigger] objs[m]) ==> draws_kind(
            delta_nodes_pass(l, r, objs).nodes,
            objs[m].semantic_ref,
            class_kind_text(objs[m].class, delta_source_node(l, r, objs[m].semantic_ref)->Some_0.kind),
        ),
    decreases objs.len(),
{
    if objs.len() > 0 {
        let init = objs.drop_last();
        let o = objs.last();
        lemma_nodes_pass_kinds(l, r, init);
        let prev = delta_nodes_pass(l, r, init);
        let st = delta_nodes_pass(l, r, objs);
        lemma_delta_source_ref(l, r, o.semantic_ref);
        assert(prev.nodes.is_prefix_of(st.nodes)) by {
            assert(st.nodes.subrange(0, prev.nodes.len() as int) =~= prev.nodes);
        }
        assert forall|m: int| 0 <= m < objs.len() && delta_object(l, r, #[trigger] objs[m]) implies draws_kind(
            st.nodes,
            objs[m].semantic_ref,
            class_kind_text(objs[m].class, delta_source_node(l, r, objs[m].semantic_ref)->Some_0.kind),
        ) by {
            if m < init.len() {
                assert(objs[m] == init[m]);
                lemma_prefix_keeps_kind(
                    prev.nodes,
                    st.nodes,
                    objs[m].semantic_ref,
                    class_kind_text(objs[m].class, delta_source_node(l, r, objs[m].semantic_ref)->Some_0.kind),
                );
            } else {
                assert(objs[m] == o);
                assert(st.nodes[prev.nodes.len() as int].semantic_ref == o.semantic_ref);
            }
        }
    }
}

proof fn lemma_class_kind_literal(k: Seq<char>)
    ensures
        class_kind_text(ComparativeVisualClass::Shared, k) == "comparative:shared:"@ + k,
        class_kind_text(ComparativeVisualClass::LeftOnly, k) == "comparative:left-only:"@ + k,
        class_kind_text(ComparativeVisualClass::RightOnly, k) == "comparative:right-only:"@ + k,
        class_kind_text(ComparativeVisualClass::Changed, k) == "comparative:changed:"@ + k,
{
    reveal_strlit("comparative:");
    reveal_strlit(":");
    reveal_strlit("shared");
    reveal_strlit("left-only");
    reveal_strlit("right-only");
    reveal_strlit("changed");
    reveal_strlit("comparative:shared:");
    reveal_strlit("comparative:left-only:");
    reveal_strlit("comparative:right-only:");
    reveal_strlit("comparative:changed:");
    assert(class_kind_text(ComparativeVisualClass::Shared, k) =~= "comparative:shared:"@ + k);
    assert(class_kind_text(ComparativeVisualClass::LeftOnly, k) =~= "comparative:left-only:"@ + k);
    assert(class_kind_text(ComparativeVisualClass::RightOnly, k) =~= "comparative:right-only:"@ + k);
    assert(class_kind_text(ComparativeVisualClass::Changed, k) =~= "comparative:changed:"@ + k);
}

/// The delta panel names each drawn object's class in its kind: a left-only node
/// is drawn as `comparative:left-only:` followed by its left kind, a right-only
/// node as `comparative:right-only:` followed by its right kind, and a node that
/// changed as `comparative:changed:` followed by its right kind.
pub proof fn lemma_delta_kinds(comparison_ref: Seq<char>, left: GraphView, right: GraphView)
    ensures
        forall|m: int|
            #![trigger topology(comparison_ref, left, right).comparative.objects[m]]
            0 <= m < topology(comparison_ref, left, right).comparative.objects.len() ==> {
                let t = topology(comparison_ref, left, right);
                let o = t.comparative.objects[m];
                &&& o.class == ComparativeVisualClass::LeftOnly && node_by_ref(t.before.nodes, o.semantic_ref) is Some
                    ==> draws_kind(
                    t.delta.nodes,
                    o.semantic_ref,
                    "comparative:left-only:"@ + node_by_ref(t.before.nodes, o.semantic_ref)->Some_0.kind,
                )
                &&& o.class == ComparativeVisualClass::RightOnly && node_by_ref(t.after.nodes, o.semantic_ref) is Some
                    ==> draws_kind(
                    t.delta.nodes,
                    o.semantic_ref,
                    "comparative:right-only:"@ + node_by_ref(t.after.nodes, o.semantic_ref)->Some_0.kind,
                )
                &&& o.class == ComparativeVisualClass::Changed && node_by_ref(t.after.nodes, o.semantic_ref) is Some
                    ==> draws_kind(
                    t.delta.nodes,
                    o.semantic_ref,
                    "comparative:changed:"@ + node_by_ref(t.after.nodes, o.semantic_ref)->Some_0.kind,
                )
            },
{
    let t = topology(comparison_ref, left, right);
    let l = t.before;
    let r = t.after;
    let objs = t.comparative.objects;
    lemma_objects_distinct(comparison_ref, l, r);
    lemma_nodes_pass(l, r, objs);
    lemma_nodes_pass_kinds(l, r, objs);
    let start = delta_nodes_pass(l, r, objs);
    lemma_edges_pass(l, r, start, objs);
    let end = delta_state(l, r, objs);
    assert(t.delta.nodes == end.nodes);
    assert forall|m: int| 0 <= m < objs.len() implies {
        let o = #[trigger] objs[m];
        &&& o.class == ComparativeVisualClass::LeftOnly && node_by_ref(l.nodes, o.semantic_ref) is Some ==> draws_kind(
            end.nodes,
            o.semantic_ref,
            "comparative:left-only:"@ + node_by_ref(l.nodes, o.semantic_ref)->Some_0.kind,
        )
        &&& o.class == ComparativeVisualClass::RightOnly && node_by_ref(r.nodes, o.semantic_ref) is Some ==> draws_kind(
            end.nodes,
            o.semantic_ref,
            "comparative:right-only:"@ + node_by_ref(r.nodes, o.semantic_ref)->Some_0.kind,
        )
        &&& o.class == ComparativeVisualClass::Changed && node_by_ref(r.nodes, o.semantic_ref) is Some ==> draws_kind(
            end.nodes,
            o.semantic_ref,
            "comparative:changed:"@ + node_by_ref(r.nodes, o.semantic_ref)->Some_0.kind,
        )
    } by {
        let o = objs[m];
        let sr = o.semantic_ref;
        if delta_object(l, r, o) {
            let n = delta_source_node(l, r, sr)->Some_0;
            lemma_class_kind_literal(n.kind);
            lemma_prefix_keeps_kind(start.nodes, end.nodes, sr, class_kind_text(o.class, n.kind));
        }
    }
}


proof fn lemma_object_at(comparison_ref: Seq<char>, l: GraphView, r: GraphView, sr: Seq<char>)
    requires
        drawn_refs(l, r).contains(sr),
    ensures
        exists|m: int|
            0 <= m < compared(comparison_ref, l, r).objects.len() && #[trigger] compared(comparison_ref, l, r).objects[m]
                == compared_object(l, r, sr),
{
    lemma_drawn_enumerated(l, r);
    let q = sorted_enumeration(drawn_refs(l, r));
    assert(q.to_set().contains(sr));
    let m = choose|m: int| 0 <= m < q.len() && q[m] == sr;
    assert(compared(comparison_ref, l, r).objects[m] == compared_object(l, r, sr));
}

/// A reference drawn as a node in both graphs has one object: it records the
/// last such node's id on each side and takes its kind from the right.
pub proof fn lemma_node_object_fields(comparison_ref: Seq<char>, l: GraphView, r: GraphView, sr: Seq<char>, i: int, j: int)
    requires
        0 <= i < l.nodes.len(),
        l.nodes[i].semantic_ref == sr,
        forall|k: int| i < k < l.nodes.len() ==> (#[trigger] l.nodes[k]).semantic_ref != sr,
        0 <= j < r.nodes.len(),
        r.nodes[j].semantic_ref == sr,
        forall|k: int| j < k < r.nodes.len() ==> (#[trigger] r.nodes[k]).semantic_ref != sr,
    ensures
        exists|m: int|
            0 <= m < compared(comparison_ref, l, r).objects.len() && {
                let o = #[trigger] compared(comparison_ref, l, r).objects[m];
                &&& o.semantic_ref == sr
                &&& o.left_object_id == Some(l.nodes[i].id)
                &&& o.right_object_id == Some(r.nodes[j].id)
                &&& o.kind == r.nodes[j].kind
            },
{
    lemma_node_comparison_fields(comparison_ref, l, r, sr, i, j);
    lemma_node_by_ref_is_last(l.nodes, sr);
    lemma_node_by_ref_is_last(r.nodes, sr);
    let a = node_by_ref(l.nodes, sr)->Some_0;
    let b = node_by_ref(r.nodes, sr)->Some_0;
    let ia = choose|x: int|
        0 <= x < l.nodes.len() && #[trigger] l.nodes[x] == a && a.semantic_ref == sr && forall|y: int|
            x < y < l.nodes.len() ==> (#[trigger] l.nodes[y]).semantic_ref != sr;
    let ib = choose|x: int|
        0 <= x < r.nodes.len() && #[trigger] r.nodes[x] == b && b.semantic_ref == sr && forall|y: int|
            x < y < r.nodes.len() ==> (#[trigger] r.nodes[y]).semantic_ref != sr;
    assert(ia == i) by {
        if ia < i {
            assert(l.nodes[i].semantic_ref != sr);
        } else if ia > i {
            assert(l.nodes[ia].semantic_ref != sr);
        }
    }
    assert(ib == j) by {
        if ib < j {
            assert(r.nodes[j].semantic_ref != sr);
        } else if ib > j {
            assert(r.nodes[ib].semantic_ref != sr);
        }
    }
    lemma_drawn_node_ref(l, sr, i);
    lemma_object_at(comparison_ref, l, r, sr);
}

/// A reference drawn as a node in the left graph and as no node in the right is
/// left-only: its object records the last such left node's id, no right id, and
/// that node's kind. (Mirrored for the right graph by `lemma_compare_swap`.)
pub proof fn lemma_left_only_node(comparison_ref: Seq<char>, l: GraphView, r: GraphView, sr: Seq<char>, i: int)
    requires
        0 <= i < l.nodes.len(),
        l.nodes[i].semantic_ref == sr,
        forall|k: int| i < k < l.nodes.len() ==> (#[trigger] l.nodes[k]).semantic_ref != sr,
        forall|k: int| 0 <= k < r.nodes.len() ==> (#[trigger] r.nodes[k]).semantic_ref != sr,
    ensures
        compared(comparison_ref, l, r).left_only_semantic_refs.contains(sr),
        !compared(comparison_ref, l, r).right_only_semantic_refs.contains(sr),
        !compared(comparison_ref, l, r).shared_semantic_refs.contains(sr),
        !compared(comparison_ref, l, r).changed_semantic_refs.contains(sr),
        exists|m: int|
            0 <= m < compared(comparison_ref, l, r).objects.len() && {
                let o = #[trigger] compared(comparison_ref, l, r).objects[m];
                &&& o.semantic_ref == sr
                &&& o.left_object_id == Some(l.nodes[i].id)
                &&& o.right_object_id is None
                &&& o.kind == l.nodes[i].kind
            },
{
    lemma_node_by_ref_is_last(l.nodes, sr);
    lemma_node_by_ref_is_last(r.nodes, sr);
    assert(node_by_ref(r.nodes, sr) is None) by {
        if node_by_ref(r.nodes, sr) is Some {
            let n = node_by_ref(r.nodes, sr)->Some_0;
            let x = choose|x: int| 0 <= x < r.nodes.len() && #[trigger] r.nodes[x] == n && n.semantic_ref == sr && forall|y: int|
                x < y < r.nodes.len() ==> (#[trigger] r.nodes[y]).semantic_ref != sr;
            assert(r.nodes[x].semantic_ref != sr);
        }
    }
    let a = node_by_ref(l.nodes, sr)->Some_0;
    let ia = choose|x: int|
        0 <= x < l.nodes.len() && #[trigger] l.nodes[x] == a && a.semantic_ref == sr && forall|y: int|
            x < y < l.nodes.len() ==> (#[trigger] l.nodes[y]).semantic_ref != sr;
    assert(ia == i) by {
        if ia < i {
            assert(l.nodes[i].semantic_ref != sr);
        } else if ia > i {
            assert(l.nodes[ia].semantic_ref != sr);
        }
    }
    lemma_drawn_node_ref(l, sr, i);
    assert(drawn_refs(l, r).contains(sr));
    lemma_object_at(comparison_ref, l, r, sr);
    lemma_class_enumerated(l, r, ComparativeVisualClass::Changed);
    lemma_class_enumerated(l, r, ComparativeVisualClass::Shared);
    lemma_class_enumerated(l, r, ComparativeVisualClass::LeftOnly);
    lemma_class_enumerated(l, r, ComparativeVisualClass::RightOnly);
    let cmp = compared(comparison_ref, l, r);
    assert(compared_object(l, r, sr).class == ComparativeVisualClass::LeftOnly);
    assert(cmp.changed_semantic_refs.to_set().contains(sr) == refs_of_class(l, r, ComparativeVisualClass::Changed).contains(sr));
    assert(cmp.shared_semantic_refs.to_set().contains(sr) == refs_of_class(l, r, ComparativeVisualClass::Shared).contains(sr));
    assert(cmp.left_only_semantic_refs.to_set().contains(sr) == refs_of_class(l, r, ComparativeVisualClass::LeftOnly).contains(sr));
    assert(cmp.right_only_semantic_refs.to_set().contains(sr) == refs_of_class(l, r, ComparativeVisualClass::RightOnly).contains(sr));
}

} // verus!
