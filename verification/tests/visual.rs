use itir_dioxus::visual::command::{decode_gpu, decode_shell, DomainCommand, GpuPickInput, ShellInput, VisualObjectId};
use itir_dioxus::visual::comparative::{compare_graph_ir, comparative_proof_topology, ComparativeVisualClass};
use itir_dioxus::visual::gpu::decode_pick_id;
use itir_dioxus::visual::interaction_ir::{
    intent_to_domain_command, ActionKind, InteractionIntent, InteractionTarget, TargetKind, ZoomLevel,
};
use itir_dioxus::visual::ir::{ChartDatum, ChartIr, GraphIr, VisualEdge, VisualNode, VisualisationIr};
use itir_dioxus::visual::selection::{reduce_selection, SelectionState};

fn node(id: u64, semantic_ref: &str, kind: &str) -> VisualNode {
    VisualNode {
        id: VisualObjectId(id),
        semantic_ref: semantic_ref.into(),
        kind: kind.into(),
        label: semantic_ref.into(),
        source_refs: vec![format!("source:{semantic_ref}")],
        provenance_refs: vec![format!("receipt:{semantic_ref}")],
        hidden: false,
        layout_slot: 0,
        layout_ring: 1,
    }
}

fn graph(reference: &str, nodes: Vec<VisualNode>, edges: Vec<VisualEdge>) -> GraphIr {
    GraphIr { graph_ref: reference.into(), derived_only: true, challengeable: true, nodes, edges }
}

fn target() -> InteractionTarget {
    InteractionTarget {
        object_id: VisualObjectId(42),
        target_kind: TargetKind::Semantic,
        semantic_ref: "semantic:au:node:42".into(),
        source_ref: Some("source:au:judgment".into()),
    }
}

#[test]
fn shell_and_gpu_pick_decode_to_same_command() {
    let id = VisualObjectId(42);
    assert_eq!(decode_shell(ShellInput::Select(id)), decode_gpu(GpuPickInput::Hit(id)));
}

#[test]
fn richer_interaction_intents_preserve_shell_gpu_parity() {
    let id = VisualObjectId(7);
    assert_eq!(
        decode_shell(ShellInput::FocusProvenance(id)),
        decode_gpu(GpuPickInput::FocusProvenance(id))
    );
    assert_eq!(decode_shell(ShellInput::FollowTarget(id)), decode_gpu(GpuPickInput::FollowTarget(id)));
    assert_eq!(decode_shell(ShellInput::OpenSource(id)), decode_gpu(GpuPickInput::OpenSource(id)));
}

#[test]
fn pick_id_remains_a_proposal_not_state_mutation() {
    assert_eq!(decode_pick_id(Some(42)), GpuPickInput::Hit(VisualObjectId(42)));
}

#[test]
fn intent_ir_maps_only_semantic_actions_into_domain_commands() {
    let select = InteractionIntent { action: ActionKind::Select, target: target(), zoom: None };
    let source = InteractionIntent { action: ActionKind::OpenSource, target: target(), zoom: None };
    let zoom = InteractionIntent { action: ActionKind::Zoom, target: target(), zoom: Some(ZoomLevel::Fit) };

    assert_eq!(intent_to_domain_command(&select), Some(DomainCommand::SelectObject(VisualObjectId(42))));
    assert_eq!(intent_to_domain_command(&source), Some(DomainCommand::OpenSource(VisualObjectId(42))));
    assert_eq!(intent_to_domain_command(&zoom), None);
}

#[test]
fn physical_gesture_is_not_part_of_intent_identity() {
    let a = InteractionIntent { action: ActionKind::Select, target: target(), zoom: None };
    let b = a.clone();
    assert_eq!(a, b);
}

#[test]
fn chart_and_graph_can_share_selection_identity_without_geometry_collapse() {
    let id = VisualObjectId(7);
    let mut x = node(7, "semantic:x", "proposition");
    x.label = "X".into();
    let graph = graph("graph:x", vec![x], vec![]);
    let chart = ChartIr {
        data: vec![ChartDatum { id, semantic_ref: "semantic:x".into(), label: "X".into(), value_bits: 1.0f32.to_bits() }],
    };
    assert_eq!(graph.nodes[0].id, chart.data[0].id);
    let both = [VisualisationIr::Graph(graph), VisualisationIr::Chart(chart)];
    assert_ne!(both[0], both[1]);
}

#[test]
fn shell_and_gpu_inputs_produce_identical_selection_state() {
    let id = VisualObjectId(42);
    let start = SelectionState::default();
    let shell = reduce_selection(decode_shell(ShellInput::Select(id)), start);
    let gpu = reduce_selection(decode_gpu(GpuPickInput::Hit(id)), start);
    assert_eq!(shell, gpu);
}

#[test]
fn shell_and_gpu_provenance_follow_and_source_intents_share_reducer() {
    let id = VisualObjectId(7);
    let start = SelectionState::default();

    assert_eq!(
        reduce_selection(decode_shell(ShellInput::FocusProvenance(id)), start),
        reduce_selection(decode_gpu(GpuPickInput::FocusProvenance(id)), start)
    );
    assert_eq!(
        reduce_selection(decode_shell(ShellInput::FollowTarget(id)), start),
        reduce_selection(decode_gpu(GpuPickInput::FollowTarget(id)), start)
    );
    assert_eq!(
        reduce_selection(decode_shell(ShellInput::OpenSource(id)), start),
        reduce_selection(decode_gpu(GpuPickInput::OpenSource(id)), start)
    );
}

#[test]
fn shared_semantic_objects_use_one_canonical_id_space_across_panels() {
    let left = graph("graph:left-id-space", vec![node(90, "semantic:shared", "proposition")], vec![]);
    let right = graph("graph:right-id-space", vec![node(900, "semantic:shared", "proposition")], vec![]);

    let topology = comparative_proof_topology("comparison:id-space", &left, &right);
    let before_id = topology.before.nodes.iter().find(|node| node.semantic_ref == "semantic:shared").unwrap().id;
    let after_id = topology.after.nodes.iter().find(|node| node.semantic_ref == "semantic:shared").unwrap().id;

    assert_eq!(before_id, after_id);
    assert_eq!(topology.comparative.objects[0].left_object_id, topology.comparative.objects[0].right_object_id);
}

#[test]
fn changed_edge_keeps_shared_endpoint_context_in_delta_panel() {
    let left_a = node(1, "semantic:a", "proposition");
    let left_b = node(2, "semantic:b", "proposition");
    let right_a = node(10, "semantic:a", "proposition");
    let right_b = node(20, "semantic:b", "proposition");
    let edge = |id: u64, from: VisualObjectId, to: VisualObjectId, receipt: &str| VisualEdge {
        id: VisualObjectId(id),
        from,
        to,
        semantic_ref: "edge:a-b".into(),
        kind: "supports".into(),
        source_refs: vec![],
        provenance_refs: vec![receipt.into()],
        hidden: false,
        weight_bits: 1.0f32.to_bits(),
    };

    let left = graph(
        "graph:left-edge",
        vec![left_a.clone(), left_b.clone()],
        vec![edge(3, left_a.id, left_b.id, "receipt:old")],
    );
    let right = graph(
        "graph:right-edge",
        vec![right_a.clone(), right_b.clone()],
        vec![edge(30, right_a.id, right_b.id, "receipt:new")],
    );

    let topology = comparative_proof_topology("comparison:edge", &left, &right);

    assert_eq!(topology.delta.edges.len(), 1);
    assert_eq!(topology.delta.nodes.len(), 2);
    assert!(topology.delta.nodes.iter().all(|node| node.kind.starts_with("comparative:shared:")));
    assert!(topology.delta.edges[0].kind.starts_with("comparative:changed:"));
}

#[test]
fn proof_topology_exposes_before_after_and_delta_without_rewriting_inputs() {
    let left = graph(
        "graph:left",
        vec![node(1, "semantic:shared", "proposition"), node(2, "semantic:defeater", "defeater")],
        vec![],
    );
    let right = graph(
        "graph:right",
        vec![node(10, "semantic:shared", "proposition"), node(20, "semantic:counter", "counter-defeater")],
        vec![],
    );

    let left_input = left.clone();
    let right_input = right.clone();
    let topology = comparative_proof_topology("comparison:pabai", &left, &right);

    assert_eq!(left, left_input);
    assert_eq!(right, right_input);
    let before_shared = topology.before.nodes.iter().find(|node| node.semantic_ref == "semantic:shared").unwrap();
    let after_shared = topology.after.nodes.iter().find(|node| node.semantic_ref == "semantic:shared").unwrap();
    assert_eq!(before_shared.id, after_shared.id);
    assert_eq!(topology.delta.nodes.len(), 2);
    assert!(topology.delta.nodes.iter().all(|node| node.kind.starts_with("comparative:")));
    assert!(!topology.creates_semantic_authority);
    assert!(!topology.creates_claim_truth);
}

#[test]
fn comparative_ir_separates_shared_left_right_and_changed_without_merging_worlds() {
    let left = graph(
        "graph:left",
        vec![
            node(1, "semantic:shared", "proposition"),
            node(2, "semantic:left", "defeater"),
            node(3, "semantic:changed", "authority"),
        ],
        vec![],
    );
    let mut changed_right = node(30, "semantic:changed", "authority");
    changed_right.provenance_refs = vec!["receipt:new".into()];
    let right = graph(
        "graph:right",
        vec![node(10, "semantic:shared", "proposition"), node(20, "semantic:right", "counter-defeater"), changed_right],
        vec![],
    );

    let comparison = compare_graph_ir("comparison:test", &left, &right);

    assert!(comparison.shared_semantic_refs.contains("semantic:shared"));
    assert!(comparison.left_only_semantic_refs.contains("semantic:left"));
    assert!(comparison.right_only_semantic_refs.contains("semantic:right"));
    assert!(comparison.changed_semantic_refs.contains("semantic:changed"));
    assert_eq!(comparison.left_graph_ref, "graph:left");
    assert_eq!(comparison.right_graph_ref, "graph:right");
    assert!(!comparison.creates_claim_truth);
}

#[test]
fn comparison_classes_partition_the_semantic_references() {
    let left = graph(
        "graph:left",
        vec![node(1, "semantic:shared", "proposition"), node(2, "semantic:left", "defeater")],
        vec![],
    );
    let right = graph(
        "graph:right",
        vec![node(10, "semantic:shared", "proposition"), node(20, "semantic:right", "counter-defeater")],
        vec![],
    );
    let comparison = compare_graph_ir("comparison:partition", &left, &right);
    let classes: Vec<(String, ComparativeVisualClass)> =
        comparison.objects.iter().map(|o| (o.semantic_ref.clone(), o.class)).collect();
    assert_eq!(
        classes,
        vec![
            ("semantic:left".to_string(), ComparativeVisualClass::LeftOnly),
            ("semantic:right".to_string(), ComparativeVisualClass::RightOnly),
            ("semantic:shared".to_string(), ComparativeVisualClass::Shared),
        ]
    );
    assert_eq!(comparison.objects[2].left_object_id, Some(VisualObjectId(1)));
    assert_eq!(comparison.objects[2].right_object_id, Some(VisualObjectId(10)));
}
