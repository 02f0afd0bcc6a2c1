use itir_dioxus::json::JsonValue;
use itir_dioxus::refs::{RefMap, RefSet};
use itir_dioxus::workbench::persisted_comparative::{
    decode_persisted_overlay, project_persisted_comparative_workbench_json, project_persisted_three_way_comparative_json,
    PersistedComparativeOverlay,
};

fn s(value: &str) -> JsonValue {
    JsonValue::String(value.into())
}

fn obj(members: Vec<(&str, JsonValue)>) -> JsonValue {
    JsonValue::Object(members.into_iter().map(|(k, v)| (k.to_string(), v)).collect())
}

fn arr(items: Vec<JsonValue>) -> JsonValue {
    JsonValue::Array(items)
}

fn document(world: &str, nodes: Vec<JsonValue>) -> Result<JsonValue, String> {
    Ok(obj(vec![(
        "workbench",
        obj(vec![
            ("run", obj(vec![("fact_run_id", s(world))])),
            ("sources", arr(vec![obj(vec![("source_id", s(&format!("source:{world}")))])])),
            (
                "semantic_context",
                obj(vec![(
                    "legal_follow_graph",
                    obj(vec![
                        ("version", s(&format!("graph:{world}"))),
                        ("derived_only", JsonValue::Bool(true)),
                        ("challengeable", JsonValue::Bool(true)),
                        ("nodes", arr(nodes)),
                        ("edges", arr(vec![])),
                    ]),
                )]),
            ),
        ]),
    )]))
}

fn persisted(world: &str, semantic: &str, receipt: &str) -> Result<JsonValue, String> {
    document(
        world,
        vec![obj(vec![
            ("id", s(semantic)),
            ("kind", s("proposition")),
            ("label", s(semantic)),
            ("metadata", obj(vec![("source_ref", s(&format!("source:{semantic}"))), ("receipt_ref", s(receipt))])),
        ])],
    )
}

#[test]
fn persisted_pair_uses_real_projection_boundary_not_reconstructed_semantics() {
    let left = persisted("w0", "semantic:shared", "receipt:w0");
    let right = persisted("w1", "semantic:shared", "receipt:w1");
    let specimen =
        project_persisted_comparative_workbench_json("comparison:persisted", left, right, None, 20, 30).unwrap();

    assert!(specimen.source_backed_left);
    assert!(specimen.source_backed_right);
    assert!(specimen.provenance_backed_left);
    assert!(specimen.provenance_backed_right);
    let before = specimen.read_model.topology.before.nodes[0].id;
    let after = specimen.read_model.topology.after.nodes[0].id;
    assert_eq!(before, after);
    assert!(!specimen.creates_claim_truth);
}

#[test]
fn overlay_must_reference_persisted_semantic_objects() {
    let left = persisted("w0", "semantic:present", "receipt:w0");
    let right = persisted("w1", "semantic:present", "receipt:w1");
    let overlay = obj(vec![
        ("change_layer_by_semantic_ref", obj(vec![("semantic:missing", s("Applicability"))])),
        ("answer_changing_semantic_refs", arr(vec![s("semantic:missing")])),
    ]);

    assert!(project_persisted_comparative_workbench_json(
        "comparison:missing-overlay-object",
        left,
        right,
        Some(Ok(overlay)),
        20,
        30,
    )
    .is_err());
}

#[test]
fn answer_changing_overlay_requires_source_and_provenance_closure() {
    let unbacked = || -> Result<JsonValue, String> {
        Ok(obj(vec![(
            "workbench",
            obj(vec![
                ("run", obj(vec![("fact_run_id", s("w0"))])),
                (
                    "semantic_context",
                    obj(vec![(
                        "legal_follow_graph",
                        obj(vec![
                            ("version", s("graph:w0")),
                            ("derived_only", JsonValue::Bool(true)),
                            ("challengeable", JsonValue::Bool(true)),
                            (
                                "nodes",
                                arr(vec![obj(vec![
                                    ("id", s("semantic:D")),
                                    ("kind", s("defeater")),
                                    ("label", s("D")),
                                    ("metadata", obj(vec![])),
                                ])]),
                            ),
                            ("edges", arr(vec![])),
                        ]),
                    )]),
                ),
            ]),
        )]))
    };
    let overlay = obj(vec![
        ("change_layer_by_semantic_ref", obj(vec![("semantic:D", s("Applicability"))])),
        ("explanation_by_semantic_ref", obj(vec![("semantic:D", s("defeater blocks route"))])),
        ("answer_changing_semantic_refs", arr(vec![s("semantic:D")])),
    ]);

    assert!(project_persisted_comparative_workbench_json(
        "comparison:unbacked-answer-change",
        unbacked(),
        unbacked(),
        Some(Ok(overlay)),
        20,
        30,
    )
    .is_err());
}

#[test]
fn persisted_overlay_cannot_create_authority_or_truth() {
    let left = persisted("w0", "semantic:D", "receipt:w0");
    let right = persisted("w1", "semantic:D", "receipt:w1");
    let overlay = obj(vec![
        ("change_layer_by_semantic_ref", obj(vec![("semantic:D", s("Applicability"))])),
        ("explanation_by_semantic_ref", obj(vec![("semantic:D", s("reviewed defeater blocks route"))])),
        ("answer_changing_semantic_refs", arr(vec![s("semantic:D")])),
        ("creates_semantic_authority", JsonValue::Bool(true)),
    ]);

    assert!(project_persisted_comparative_workbench_json("comparison:bad-overlay", left, right, Some(Ok(overlay)), 20, 30)
        .is_err());
}

#[test]
fn comparison_refusals_say_what_was_refused() {
    let pair = || (persisted("w0", "semantic:D", "receipt:w0"), persisted("w1", "semantic:D", "receipt:w1"));

    let (l, r) = pair();
    assert_eq!(
        project_persisted_comparative_workbench_json("  ", l, r, None, 20, 30).err(),
        Some("persisted comparative workbench requires comparison_ref".to_string())
    );

    let (l, _) = pair();
    assert_eq!(
        project_persisted_comparative_workbench_json("comparison:x", l, document("w1", vec![]), None, 20, 30).err(),
        Some("persisted comparative specimen requires non-empty legal-follow graphs".to_string())
    );

    let (l, _) = pair();
    assert_eq!(
        project_persisted_comparative_workbench_json("comparison:x", l, Ok(obj(vec![])), None, 20, 30).err(),
        Some("persisted AU workbench has no legal_follow_graph".to_string())
    );

    let (l, r) = pair();
    let missing = obj(vec![("unresolved_semantic_refs", arr(vec![s("semantic:b\"q"), s("semantic:a")]))]);
    assert_eq!(
        project_persisted_comparative_workbench_json("comparison:x", l, r, Some(Ok(missing)), 20, 30).err(),
        Some(
            "comparative overlay references semantic objects absent from persisted graphs: {\"semantic:a\", \"semantic:b\\\"q\"}"
                .to_string()
        )
    );

    let (l, r) = pair();
    let promoting = obj(vec![("creates_claim_truth", JsonValue::Bool(true))]);
    assert_eq!(
        project_persisted_comparative_workbench_json("comparison:x", l, r, Some(Ok(promoting)), 20, 30).err(),
        Some("persisted comparative overlay crossed non-promotion boundary".to_string())
    );

    let (l, r) = pair();
    let malformed = obj(vec![("answer_changing_semantic_refs", s("semantic:D"))]);
    assert_eq!(
        project_persisted_comparative_workbench_json("comparison:x", l, r, Some(Ok(malformed)), 20, 30).err(),
        Some("invalid comparative overlay JSON: invalid `answer_changing_semantic_refs`, expected an array of strings".to_string())
    );
}

#[test]
fn unbacked_answer_change_names_the_object() {
    let bare = || {
        document(
            "w0",
            vec![obj(vec![("id", s("semantic:D")), ("kind", s("defeater")), ("label", s("D"))])],
        )
    };
    let overlay = obj(vec![("answer_changing_semantic_refs", arr(vec![s("semantic:D")]))]);
    assert_eq!(
        project_persisted_comparative_workbench_json("comparison:x", bare(), bare(), Some(Ok(overlay)), 20, 30).err(),
        Some("answer-changing semantic object lacks source/provenance closure: semantic:D".to_string())
    );
}

#[test]
fn accepted_overlay_is_carried_into_the_read_model() {
    let left = persisted("w0", "semantic:D", "receipt:w0");
    let right = persisted("w1", "semantic:D", "receipt:w1");
    let overlay = obj(vec![
        ("change_layer_by_semantic_ref", obj(vec![("semantic:D", s("Applicability"))])),
        ("answer_changing_semantic_refs", arr(vec![s("semantic:D")])),
    ]);
    let specimen =
        project_persisted_comparative_workbench_json("comparison:ok", left, right, Some(Ok(overlay)), 20, 30).unwrap();
    assert!(specimen.read_model.answer_changing_semantic_refs.contains("semantic:D"));
    assert_eq!(
        specimen.read_model.explanation_overlay.change_layer_by_semantic_ref.get("semantic:D"),
        Some(&"Applicability".to_string())
    );
    assert_eq!(specimen.read_model.selectors.left_ref, "world:au:w0");
    assert_eq!(specimen.read_model.selectors.right_ref, "world:au:w1");
    assert!(specimen.candidate_only);
    assert!(!specimen.predicts_outcome);
}

#[test]
fn three_way_specimen_steps_through_three_persisted_worlds() {
    let w0 = persisted("w0", "semantic:D", "receipt:w0");
    let w1 = persisted("w1", "semantic:D", "receipt:w1");
    let w2 = persisted("w2", "semantic:D", "receipt:w2");
    let d = obj(vec![("answer_changing_semantic_refs", arr(vec![s("semantic:D")]))]);
    let specimen =
        project_persisted_three_way_comparative_json("comparison:three", w0, w1, w2, Some(Ok(d)), None, 20, 30).unwrap();
    assert_eq!(specimen.sequence.w0_to_w1.topology.comparison_ref, "comparison:three:w0-w1");
    assert_eq!(specimen.sequence.w1_to_w2.topology.comparison_ref, "comparison:three:w1-w2");
    assert!(specimen.sequence.w0_to_w1.answer_changing_semantic_refs.contains("semantic:D"));
    assert!(specimen.sequence.w1_to_w2.answer_changing_semantic_refs.is_empty());
    assert_eq!(specimen.sequence.w0_to_w1.selectors.right_ref, "world:au:w2");
    assert!(!specimen.predicts_outcome);

    let empty = project_persisted_three_way_comparative_json(
        "comparison:three",
        persisted("w0", "semantic:D", "receipt:w0"),
        document("w1", vec![]),
        persisted("w2", "semantic:D", "receipt:w2"),
        None,
        None,
        20,
        30,
    );
    assert_eq!(
        empty.err(),
        Some("three-way comparative specimen requires three non-empty persisted legal-follow graphs".to_string())
    );
}

#[test]
fn overlay_validation_guards_the_non_promotion_boundary() {
    let mut overlay = PersistedComparativeOverlay::default();
    assert_eq!(overlay.validate(), Ok(()));
    overlay.creates_semantic_authority = true;
    assert_eq!(
        overlay.validate(),
        Err("persisted comparative overlay crossed non-promotion boundary".to_string())
    );
    assert!(overlay.into_read_model_overlay().is_err());

    let mut layers = RefMap::new();
    layers.insert("semantic:D".into(), "Applicability".into());
    let accepted = PersistedComparativeOverlay {
        change_layer_by_semantic_ref: layers,
        explanation_by_semantic_ref: RefMap::new(),
        answer_changing_semantic_refs: RefSet::from_refs(&vec!["semantic:D".to_string()]),
        unresolved_semantic_refs: RefSet::new(),
        creates_semantic_authority: false,
        creates_claim_truth: false,
    };
    let read = accepted.into_read_model_overlay().unwrap();
    assert!(read.answer_changing_semantic_refs.contains("semantic:D"));
    assert!(!read.creates_semantic_authority && !read.creates_claim_truth);
}

#[test]
fn persisted_overlay_reads_maps_sets_and_flags() {
    let overlay = decode_persisted_overlay(&obj(vec![
        ("change_layer_by_semantic_ref", obj(vec![("semantic:a", s("first")), ("semantic:a", s("second"))])),
        ("unresolved_semantic_refs", arr(vec![s("semantic:z"), s("semantic:y"), s("semantic:z")])),
        ("creates_claim_truth", JsonValue::Bool(false)),
    ]))
    .unwrap();
    assert_eq!(overlay.change_layer_by_semantic_ref.get("semantic:a"), Some(&"second".to_string()));
    assert_eq!(overlay.unresolved_semantic_refs.to_vec(), vec!["semantic:y", "semantic:z"]);
    assert!(!overlay.creates_semantic_authority);
    assert_eq!(
        decode_persisted_overlay(&arr(vec![])),
        Err("invalid comparative overlay JSON: expected an object".to_string())
    );
    assert_eq!(
        decode_persisted_overlay(&obj(vec![("explanation_by_semantic_ref", obj(vec![("semantic:a", JsonValue::Null)]))])),
        Err("invalid comparative overlay JSON: invalid `explanation_by_semantic_ref`, expected a map of strings".to_string())
    );
    assert_eq!(
        decode_persisted_overlay(&obj(vec![("creates_semantic_authority", JsonValue::Null)])),
        Err("invalid comparative overlay JSON: invalid type for `creates_semantic_authority`, expected a boolean".to_string())
    );
}

#[test]
fn text_that_is_no_json_is_refused_with_the_parser_message() {
    assert_eq!(
        project_persisted_comparative_workbench_json("comparison:x", Err("EOF while parsing".into()), Ok(obj(vec![])), None, 20, 30)
            .err(),
        Some("invalid persisted workbench JSON: EOF while parsing".to_string())
    );
    let specimen = project_persisted_comparative_workbench_json(
        "comparison:x",
        persisted("w0", "semantic:D", "receipt:w0"),
        persisted("w1", "semantic:D", "receipt:w1"),
        Some(Err("expected value".into())),
        20,
        30,
    );
    assert_eq!(specimen.err(), Some("invalid comparative overlay JSON: expected value".to_string()));
}
