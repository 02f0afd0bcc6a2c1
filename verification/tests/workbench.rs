use itir_dioxus::refs::RefSet;
use itir_dioxus::visual::command::{DomainCommand, VisualObjectId};
use itir_dioxus::visual::ir::{GraphIr, VisualNode};
use itir_dioxus::workbench::comparative::{
    comparative_workbench_read_model, three_way_comparative_sequence, ComparativePanel, ComparativeSelectors,
};
use itir_dioxus::workbench::{
    au_legal_bearing_read_model, wave5_personal_handoff_read_model, AuLegalBearingInput, StageAvailability,
    WorkbenchStageKind,
};

fn node(id: u64, semantic_ref: &str, kind: &str) -> VisualNode {
    VisualNode {
        id: VisualObjectId(id),
        semantic_ref: semantic_ref.into(),
        kind: kind.into(),
        label: semantic_ref.into(),
        source_refs: vec![format!("source:{semantic_ref}")],
        provenance_refs: vec![format!("receipt:{semantic_ref}")],
        hidden: false,
        layout_slot: 0,
        layout_ring: 1,
    }
}

fn graph(reference: &str, nodes: Vec<VisualNode>) -> GraphIr {
    GraphIr { graph_ref: reference.into(), derived_only: true, challengeable: true, nodes, edges: vec![] }
}

fn refs(values: &[&str]) -> Vec<String> {
    values.iter().map(|value| value.to_string()).collect()
}

#[test]
fn wave5_does_not_fabricate_timeline_or_proof() {
    let model = wave5_personal_handoff_read_model();
    assert!(matches!(
        model.stage(WorkbenchStageKind::Timeline).unwrap().availability,
        StageAvailability::Unavailable { .. }
    ));
    assert!(matches!(
        model.stage(WorkbenchStageKind::MatterProof).unwrap().availability,
        StageAvailability::Unavailable { .. }
    ));
    assert!(!model.creates_semantic_authority);
    assert!(!model.creates_claim_truth);
    assert!(!model.pays_residual);
}

#[test]
fn au_legal_graph_makes_proof_available_only_when_persisted_nodes_exist() {
    let absent = au_legal_bearing_read_model(AuLegalBearingInput {
        world_ref: "world:au".into(),
        journal_or_source_refs: vec!["source:au:1".into()],
        timeline_event_refs: vec![],
        handoff_refs: vec![],
        legal_node_refs: vec![],
        legal_edge_refs: vec![],
        research_residual_refs: vec![],
    });
    assert!(matches!(
        absent.stage(WorkbenchStageKind::MatterProof).unwrap().availability,
        StageAvailability::Unavailable { .. }
    ));

    let present = au_legal_bearing_read_model(AuLegalBearingInput {
        world_ref: "world:au".into(),
        journal_or_source_refs: vec!["source:au:1".into()],
        timeline_event_refs: vec!["event:au:1".into()],
        handoff_refs: vec![],
        legal_node_refs: vec!["legal-node:1".into()],
        legal_edge_refs: vec!["legal-edge:1".into()],
        research_residual_refs: vec!["residual:1".into()],
    });
    assert_eq!(present.stage(WorkbenchStageKind::MatterProof).unwrap().availability, StageAvailability::Available);
    assert_eq!(present.stage(WorkbenchStageKind::Timeline).unwrap().availability, StageAvailability::Available);
}

#[test]
fn same_semantic_selection_uses_same_existing_domain_command_in_all_panels() {
    let left = graph(
        "graph:left",
        vec![node(71, "semantic:shared", "proposition"), node(72, "semantic:left-only", "defeater")],
    );
    let right = graph(
        "graph:right",
        vec![node(701, "semantic:shared", "proposition"), node(702, "semantic:right-only", "counter-defeater")],
    );
    let model = comparative_workbench_read_model(
        "comparison:test",
        &left,
        &right,
        ComparativeSelectors {
            left_ref: "left".into(),
            right_ref: "right".into(),
            query_ref: Some("query:test".into()),
            consumer_ref: Some("consumer:test".into()),
            as_at_ref: None,
            scope_ref: None,
        },
        RefSet::new(),
        RefSet::new(),
    );

    let before_id = model.topology.before.nodes.iter().find(|node| node.semantic_ref == "semantic:shared").unwrap().id;
    let after_id = model.topology.after.nodes.iter().find(|node| node.semantic_ref == "semantic:shared").unwrap().id;
    assert_eq!(before_id, after_id);
    assert_eq!(
        model.select_command(ComparativePanel::Before, before_id),
        model.select_command(ComparativePanel::After, after_id)
    );
}

#[test]
#[allow(non_snake_case)]
fn three_way_pabai_shape_preserves_D_then_C_without_prediction() {
    let w0 = graph("graph:pabai:w0", vec![node(1, "semantic:support", "support")]);
    let w1 = graph("graph:pabai:w1", vec![node(10, "semantic:support", "support"), node(11, "semantic:D", "defeater")]);
    let w2 = graph(
        "graph:pabai:w2",
        vec![
            node(20, "semantic:support", "support"),
            node(21, "semantic:D", "defeater"),
            node(22, "semantic:C", "counter-defeater"),
        ],
    );
    let sequence = three_way_comparative_sequence(
        "comparison:pabai",
        &w0,
        &w1,
        &w2,
        ComparativeSelectors {
            left_ref: "w0".into(),
            right_ref: "w2".into(),
            query_ref: Some("query:pabai:duty-route".into()),
            consumer_ref: Some("consumer:pabai-climate-duty".into()),
            as_at_ref: None,
            scope_ref: None,
        },
        RefSet::from_refs(&refs(&["semantic:D"])),
        RefSet::from_refs(&refs(&["semantic:C"])),
    );

    assert!(sequence.w0_to_w1.answer_changing_semantic_refs.contains("semantic:D"));
    assert!(sequence.w1_to_w2.answer_changing_semantic_refs.contains("semantic:C"));
    assert!(!sequence.predicts_outcome);
    assert!(!sequence.creates_claim_truth);
}

#[test]
fn stage_labels_and_reasons_follow_availability() {
    let model = wave5_personal_handoff_read_model();
    let handoff = &model.stage(WorkbenchStageKind::Handoff).unwrap().availability;
    assert_eq!(handoff.label(), "blocked");
    assert_eq!(handoff.reason(), Some("reviewed-therapist-note-awaits-real-share-scope-receipt"));
    let journal = &model.stage(WorkbenchStageKind::Journal).unwrap().availability;
    assert_eq!(journal.label(), "available");
    assert_eq!(journal.reason(), None);
    let timeline = &model.stage(WorkbenchStageKind::Timeline).unwrap().availability;
    assert_eq!(timeline.label(), "unavailable");
    assert_eq!(timeline.reason(), Some("no-assembled-event-coordinate"));
}

#[test]
fn each_stage_is_backed_by_its_own_persisted_refs() {
    let model = au_legal_bearing_read_model(AuLegalBearingInput {
        world_ref: "world:au".into(),
        journal_or_source_refs: refs(&["source:1"]),
        timeline_event_refs: refs(&[]),
        handoff_refs: refs(&["handoff:1"]),
        legal_node_refs: refs(&["node:1", "node:2"]),
        legal_edge_refs: refs(&["edge:1"]),
        research_residual_refs: refs(&[]),
    });
    assert_eq!(model.world_ref, "world:au");
    assert_eq!(model.stages.len(), 5);
    let proof = model.stage(WorkbenchStageKind::MatterProof).unwrap();
    assert_eq!(proof.semantic_refs, refs(&["node:1", "node:2", "edge:1"]));
    assert_eq!(
        model.stage(WorkbenchStageKind::Timeline).unwrap().availability,
        StageAvailability::Unavailable { reason: "no-persisted-timeline-event".into() }
    );
    assert_eq!(model.stage(WorkbenchStageKind::Handoff).unwrap().availability, StageAvailability::Available);
    assert_eq!(
        model.stage(WorkbenchStageKind::Research).unwrap().availability,
        StageAvailability::Blocked { reason: "no-live-research-residual".into() }
    );
    assert!(model.candidate_only);
}

#[test]
fn comparative_panels_inspect_the_same_object_by_one_id() {
    let left = graph("graph:left", vec![node(5, "semantic:shared", "proposition")]);
    let right = graph("graph:right", vec![node(6, "semantic:shared", "proposition")]);
    let model = comparative_workbench_read_model(
        "comparison:inspect",
        &left,
        &right,
        ComparativeSelectors {
            left_ref: "left".into(),
            right_ref: "right".into(),
            query_ref: None,
            consumer_ref: None,
            as_at_ref: None,
            scope_ref: None,
        },
        RefSet::new(),
        RefSet::new(),
    );
    let id = model.topology.before.nodes[0].id;
    let before = model.inspect(ComparativePanel::Before, id).unwrap();
    let after = model.inspect(ComparativePanel::After, id).unwrap();
    assert_eq!(before.semantic_ref, "semantic:shared");
    assert_eq!(after.semantic_ref, "semantic:shared");
    assert_eq!(model.select_command(ComparativePanel::Delta, id), DomainCommand::SelectObject(id));
    assert!(model.inspect(ComparativePanel::Before, VisualObjectId(999)).is_none());
    assert!(!model.predicts_outcome);
}
