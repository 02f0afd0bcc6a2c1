use itir_dioxus::refs::RefMap;
use itir_dioxus::visual::command::VisualObjectId;
use itir_dioxus::workbench::au_fact_review::stable_visual_id;
use itir_dioxus::workbench::production_comparative::{
    comparative_read_model_from_typed, graph_to_ir, overlay_from_typed, three_way_read_model_from_typed,
    ComparativeWorkbenchProjection, PersistedWorkbenchEdge, PersistedWorkbenchGraph, PersistedWorkbenchNode,
    PersistedWorkbenchProjection, ThreeWayComparativeWorkbenchProjection,
};

fn refs(values: &[&str]) -> Vec<String> {
    values.iter().map(|value| value.to_string()).collect()
}

fn typed_node(semantic_ref: &str, receipt: &str) -> PersistedWorkbenchNode {
    PersistedWorkbenchNode {
        semantic_ref: semantic_ref.into(),
        semantic_kind: "proposition".into(),
        label: "shared".into(),
        source_refs: refs(&["source:shared"]),
        provenance_refs: refs(&[receipt]),
    }
}

fn typed_graph(world: &str, nodes: Vec<PersistedWorkbenchNode>, edges: Vec<PersistedWorkbenchEdge>) -> PersistedWorkbenchGraph {
    PersistedWorkbenchGraph { projection_ref: format!("projection:{world}"), nodes, edges, derived_only: true, challengeable: true }
}

fn comparison(left: PersistedWorkbenchGraph, right: PersistedWorkbenchGraph, changed: &[&str], shared: &[&str]) -> ComparativeWorkbenchProjection {
    ComparativeWorkbenchProjection {
        comparison_ref: "comparison:typed".into(),
        left_world_ref: "w0".into(),
        right_world_ref: "w1".into(),
        left_graph: left,
        right_graph: right,
        change_layer_by_semantic_ref: RefMap::new(),
        explanation_by_semantic_ref: RefMap::new(),
        answer_changing_semantic_refs: refs(changed),
        unresolved_semantic_refs: vec![],
        shared_semantic_refs: refs(shared),
        changed_semantic_refs: refs(changed),
        left_only_semantic_refs: vec![],
        right_only_semantic_refs: vec![],
    }
}

#[test]
fn typed_projection_with_changed_provenance_keeps_visual_parity() {
    let typed = comparison(
        typed_graph("w0", vec![typed_node("semantic:shared", "receipt:old")], vec![]),
        typed_graph("w1", vec![typed_node("semantic:shared", "receipt:new")], vec![]),
        &["semantic:shared"],
        &["semantic:shared"],
    );
    let visual = comparative_read_model_from_typed(&typed).unwrap();
    assert!(visual.topology.comparative.changed_semantic_refs.contains("semantic:shared"));
    assert!(visual.answer_changing_semantic_refs.contains("semantic:shared"));
    assert_eq!(visual.selectors.left_ref, "w0");
}

#[test]
fn typed_and_visual_comparisons_must_agree() {
    let typed = comparison(
        typed_graph("w0", vec![typed_node("semantic:shared", "receipt:same")], vec![]),
        typed_graph("w1", vec![typed_node("semantic:shared", "receipt:same")], vec![]),
        &["semantic:shared"],
        &["semantic:shared"],
    );
    assert_eq!(
        comparative_read_model_from_typed(&typed).err(),
        Some("Dioxus visual comparison diverged from typed runtime comparative projection".to_string())
    );
    let overlay = overlay_from_typed(&typed);
    assert!(overlay.answer_changing_semantic_refs.contains("semantic:shared"));
    assert!(!overlay.creates_semantic_authority);
}

#[test]
fn typed_graph_projects_on_the_ring_with_stable_ids() {
    let graph = typed_graph(
        "w0",
        vec![typed_node("semantic:a", "receipt:a"), typed_node("semantic:b", "receipt:b")],
        vec![PersistedWorkbenchEdge {
            semantic_ref: "edge:a-b".into(),
            from_ref: "semantic:a".into(),
            to_ref: "semantic:b".into(),
            relation: "supports".into(),
            challengeable: false,
            source_refs: vec![],
            provenance_refs: vec![],
        }],
    );
    let ir = graph_to_ir(&graph).unwrap();
    assert_eq!(ir.graph_ref, "projection:w0");
    assert_eq!(ir.nodes[1].id, stable_visual_id("semantic:b"));
    assert_eq!((ir.nodes[1].layout_slot, ir.nodes[1].layout_ring), (1, 2));
    assert_eq!(ir.edges[0].kind, "supports|challengeable=false");
    assert_eq!(ir.edges[0].from, ir.nodes[0].id);
    assert_eq!(ir.edges[0].to, ir.nodes[1].id);
    assert_eq!(f32::from_bits(ir.edges[0].weight_bits), 1.0);
    assert_ne!(ir.edges[0].id, VisualObjectId(0));
}

#[test]
fn typed_edges_must_reach_typed_nodes() {
    let edge = |from: &str, to: &str| PersistedWorkbenchEdge {
        semantic_ref: "edge:x".into(),
        from_ref: from.into(),
        to_ref: to.into(),
        relation: "supports".into(),
        challengeable: true,
        source_refs: vec![],
        provenance_refs: vec![],
    };
    let missing_source = typed_graph("w0", vec![typed_node("semantic:a", "r")], vec![edge("semantic:z", "semantic:a")]);
    assert_eq!(
        graph_to_ir(&missing_source).err(),
        Some("typed edge edge:x references missing source node semantic:z".to_string())
    );
    let missing_target = typed_graph("w0", vec![typed_node("semantic:a", "r")], vec![edge("semantic:a", "semantic:z")]);
    assert_eq!(
        graph_to_ir(&missing_target).err(),
        Some("typed edge edge:x references missing target node semantic:z".to_string())
    );
}

#[test]
fn typed_three_way_sequence_is_checked_step_by_step() {
    let world = |name: &str, receipt: &str| PersistedWorkbenchProjection {
        world_ref: name.into(),
        legal_follow_graph: typed_graph(name, vec![typed_node("semantic:shared", receipt)], vec![]),
    };
    let step = |l: &PersistedWorkbenchProjection, r: &PersistedWorkbenchProjection, changed: &[&str]| {
        comparison(l.legal_follow_graph.clone(), r.legal_follow_graph.clone(), changed, &["semantic:shared"])
    };
    let (w0, w1, w2) = (world("w0", "receipt:a"), world("w1", "receipt:b"), world("w2", "receipt:b"));
    let projection = ThreeWayComparativeWorkbenchProjection {
        w0_to_w1: step(&w0, &w1, &["semantic:shared"]),
        w1_to_w2: step(&w1, &w2, &[]),
        w0,
        w1,
        w2,
    };
    let sequence = three_way_read_model_from_typed(&projection).unwrap();
    assert_eq!(sequence.w0_to_w1.topology.comparison_ref, "comparison:typed:w0-w1-w2:w0-w1");
    assert!(sequence.w1_to_w2.topology.comparative.shared_semantic_refs.contains("semantic:shared"));
    assert_eq!(sequence.w1_to_w2.selectors.right_ref, "w2");
    assert!(!sequence.predicts_outcome);
}
