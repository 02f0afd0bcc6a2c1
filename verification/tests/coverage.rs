use itir_dioxus::json::trim_text;
use itir_dioxus::visual::command::VisualObjectId;
use itir_dioxus::visual::comparative::{comparative_proof_topology, compare_graph_ir};
use itir_dioxus::visual::ir::{f32_bits_equal, GraphIr, VisualEdge, VisualNode};
use itir_dioxus::workbench::review::review_action_notes;
use itir_dioxus::workbench::source_ingest::{
    long_document_ingest_read_model, source_ingest_coverage_from_bulk, LosslessBulkSourceCompilation,
    PlainTextSegmentationReceipt,
};
use itir_dioxus::workbench::work_product_coverage::{
    coverage_workspace_from_projection, ForwardCoverageStatus, MatterOmissionJudgment, ReverseCoverageStatus,
    WorkProductCoverageJudgment, WorkProductCoverageProjection,
};

fn node(id: u64, semantic_ref: &str) -> VisualNode {
    VisualNode {
        id: VisualObjectId(id),
        semantic_ref: semantic_ref.into(),
        kind: "proposition".into(),
        label: semantic_ref.into(),
        source_refs: vec![],
        provenance_refs: vec![],
        hidden: false,
        layout_slot: 0,
        layout_ring: 1,
    }
}

fn one_edge(graph_ref: &str, weight: f32) -> GraphIr {
    GraphIr {
        graph_ref: graph_ref.into(),
        derived_only: true,
        challengeable: true,
        nodes: vec![node(1, "semantic:a"), node(2, "semantic:b")],
        edges: vec![VisualEdge {
            id: VisualObjectId(3),
            from: VisualObjectId(1),
            to: VisualObjectId(2),
            semantic_ref: "edge:a-b".into(),
            kind: "supports".into(),
            source_refs: vec![],
            provenance_refs: vec![],
            hidden: false,
            weight_bits: weight.to_bits(),
        }],
    }
}

#[test]
fn edge_weights_compare_as_floats() {
    let zeros = compare_graph_ir("comparison:w", &one_edge("l", 0.0), &one_edge("r", -0.0));
    assert!(zeros.shared_semantic_refs.contains("edge:a-b"));
    let nans = compare_graph_ir("comparison:w", &one_edge("l", f32::NAN), &one_edge("r", f32::NAN));
    assert!(nans.changed_semantic_refs.contains("edge:a-b"));
    let apart = compare_graph_ir("comparison:w", &one_edge("l", 1.0), &one_edge("r", 2.0));
    assert!(apart.changed_semantic_refs.contains("edge:a-b"));
    assert!(f32_bits_equal(0.0f32.to_bits(), (-0.0f32).to_bits()));
    assert!(!f32_bits_equal(f32::NAN.to_bits(), f32::NAN.to_bits()));
    assert!(f32_bits_equal(1.5f32.to_bits(), 1.5f32.to_bits()));
}

#[test]
fn delta_panel_draws_each_changed_object_once_between_its_nodes() {
    let topology = comparative_proof_topology("comparison:d", &one_edge("l", 1.0), &one_edge("r", 2.0));
    let delta = &topology.delta;
    assert_eq!(delta.graph_ref, "comparison:d:delta");
    assert!(delta.nodes.iter().all(|n| n.kind.starts_with("comparative:")));
    assert!(delta.edges.iter().all(|e| e.kind.starts_with("comparative:changed:")));
    for e in &delta.edges {
        assert!(delta.nodes.iter().any(|n| n.id == e.from));
        assert!(delta.nodes.iter().any(|n| n.id == e.to));
    }
    let mut refs: Vec<&String> = delta.nodes.iter().map(|n| &n.semantic_ref).collect();
    refs.dedup();
    assert_eq!(refs.len(), delta.nodes.len());
}

fn projection(forward: &[ForwardCoverageStatus], reverse: &[ReverseCoverageStatus]) -> WorkProductCoverageProjection {
    WorkProductCoverageProjection {
        forward: forward
            .iter()
            .enumerate()
            .map(|(i, s)| WorkProductCoverageJudgment { occurrence_ref: format!("occurrence:{i}"), status: *s })
            .collect(),
        reverse: reverse
            .iter()
            .enumerate()
            .map(|(i, s)| MatterOmissionJudgment { matter_proposition_ref: format!("proposition:{i}"), status: *s })
            .collect(),
        creates_semantic_authority: false,
        applicability_promoted: false,
        claim_truth_promoted: false,
        canonical_world_mutated: false,
        supported_implies_legal_sufficiency: false,
        contradicted_implies_false: false,
        unsupported_implies_false: false,
        omission_implies_should_include: false,
        redaction_deletes_canonical_source: false,
    }
}

#[test]
fn coverage_workspace_tallies_each_status() {
    let workspace = coverage_workspace_from_projection(projection(
        &[ForwardCoverageStatus::Supported, ForwardCoverageStatus::Unsupported, ForwardCoverageStatus::Supported, ForwardCoverageStatus::Qualified],
        &[ReverseCoverageStatus::PossiblyOmitted, ReverseCoverageStatus::Represented, ReverseCoverageStatus::PossiblyOmitted],
    ))
    .unwrap();
    assert_eq!(workspace.forward_supported_count, 2);
    assert_eq!(workspace.forward_qualified_count, 1);
    assert_eq!(workspace.forward_unsupported_count, 1);
    assert_eq!(workspace.forward_contradicted_count, 0);
    assert_eq!(workspace.reverse_possibly_omitted_count, 2);
    assert_eq!(workspace.reverse_represented_count, 1);
    assert_eq!(workspace.forward_for_occurrence("occurrence:1").unwrap().status, ForwardCoverageStatus::Unsupported);
    assert_eq!(workspace.reverse_for_proposition("proposition:1").unwrap().status, ReverseCoverageStatus::Represented);
    assert!(workspace.forward_for_occurrence("occurrence:9").is_none());

    let mut promoting = projection(&[], &[]);
    promoting.unsupported_implies_false = true;
    assert_eq!(
        coverage_workspace_from_projection(promoting),
        Err("work-product coverage crossed semantic/product boundary".to_string())
    );
}

#[test]
fn status_enums_remain_directionally_distinct() {
    assert_ne!(
        format!("{:?}", ForwardCoverageStatus::Unsupported),
        format!("{:?}", ReverseCoverageStatus::PossiblyOmitted),
    );
}

fn bulk() -> LosslessBulkSourceCompilation {
    LosslessBulkSourceCompilation {
        source_ref: "book:1".into(),
        source_revision_ref: "revision:1".into(),
        exact_region_count: 100,
        semantic_candidate_region_count: 80,
        compiled_statement_count: 79,
        residual_region_refs: vec!["sentence:bad".into()],
        candidate_pnf_count: 240,
        source_region_accounted_count: 100,
        source_region_loss_count: 0,
        source_coverage_complete: true,
        candidate_only: true,
        creates_semantic_authority: false,
        claim_truth_promoted: false,
        parse_failure_deletes_source: false,
    }
}

#[test]
fn coverage_read_model_keeps_parse_failure_separate_from_source_loss() {
    let model = source_ingest_coverage_from_bulk(&bulk());
    assert_eq!(model.parser_residual_count, 1);
    assert_eq!(model.source_region_loss_count, 0);
    assert!(model.source_coverage_complete);
    assert!(!model.parse_failure_deletes_source);
}

#[test]
fn long_document_read_model_needs_one_revision_and_no_promotion() {
    let receipt = |revision: &str| PlainTextSegmentationReceipt {
        source_ref: "book:1".into(),
        source_revision_ref: revision.into(),
    };
    let model = long_document_ingest_read_model(receipt("revision:1"), &bulk()).unwrap();
    assert_eq!(model.coverage.structural_region_count, 100);
    assert_eq!(
        long_document_ingest_read_model(receipt("revision:2"), &bulk()).err(),
        Some("structural and semantic compilation receipts refer to different source revisions".to_string())
    );
    let mut deleting = bulk();
    deleting.parse_failure_deletes_source = true;
    assert_eq!(
        long_document_ingest_read_model(receipt("revision:1"), &deleting).err(),
        Some("source ingest crossed non-promotion/lossless boundary".to_string())
    );
}

#[test]
fn review_notes_are_explicit_and_trimmed() {
    assert_eq!(trim_text("  note:1 \n"), "note:1");
    assert_eq!(trim_text(" \t "), "");
    assert_eq!(review_action_notes(true, false, "  note:1 ", ""), Ok((Some("note:1".to_string()), None)));
    assert_eq!(
        review_action_notes(true, false, "   ", ""),
        Err("Qualify requires an explicit qualification ref / note.".to_string())
    );
    assert_eq!(
        review_action_notes(false, true, "", " "),
        Err("RequestEvidence requires an explicit evidence-request ref / note.".to_string())
    );
    assert_eq!(review_action_notes(false, false, "", ""), Ok((None, None)));
}

#[test]
fn comparing_the_other_way_round_trades_sides() {
    let mut left = one_edge("l", 1.0);
    left.nodes.push(node(5, "semantic:left"));
    let mut right = one_edge("r", 2.0);
    right.nodes.push(node(7, "semantic:right"));
    let a = compare_graph_ir("comparison:s", &left, &right);
    let b = compare_graph_ir("comparison:s", &right, &left);
    assert_eq!(b.left_only_semantic_refs, a.right_only_semantic_refs);
    assert_eq!(b.right_only_semantic_refs, a.left_only_semantic_refs);
    assert_eq!(b.shared_semantic_refs, a.shared_semantic_refs);
    assert_eq!(b.changed_semantic_refs, a.changed_semantic_refs);
    assert!(a.left_only_semantic_refs.contains("semantic:left"));
    assert!(b.right_only_semantic_refs.contains("semantic:left"));
    assert_eq!(a.objects.len(), b.objects.len());
    for (x, y) in a.objects.iter().zip(b.objects.iter()) {
        assert_eq!(x.semantic_ref, y.semantic_ref);
        assert_eq!(x.left_object_id, y.right_object_id);
        assert_eq!(x.right_object_id, y.left_object_id);
    }
}
