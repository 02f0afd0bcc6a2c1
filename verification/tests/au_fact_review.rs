use itir_dioxus::json::JsonValue;
use itir_dioxus::workbench::au_fact_review::{
    decode_legal_follow_graph, legal_follow_graph_to_ir, project_au_fact_review, project_persisted_au_workbench_json,
    stable_visual_id, AuFactReviewProjectionInput, LegalFollowGraph, LegalFollowGraphEdge, LegalFollowGraphNode,
};
use itir_dioxus::workbench::{StageAvailability, WorkbenchStageKind};

fn s(value: &str) -> JsonValue {
    JsonValue::String(value.into())
}

fn obj(members: Vec<(&str, JsonValue)>) -> JsonValue {
    JsonValue::Object(members.into_iter().map(|(k, v)| (k.to_string(), v)).collect())
}

fn arr(items: Vec<JsonValue>) -> JsonValue {
    JsonValue::Array(items)
}

fn graph_fixture() -> LegalFollowGraph {
    LegalFollowGraph {
        version: Some("au.legal_follow_graph.v1".into()),
        derived_only: Some(true),
        challengeable: Some(true),
        nodes: vec![
            LegalFollowGraphNode {
                id: "node:authority:1".into(),
                kind: "authority".into(),
                label: "Authority".into(),
                metadata: vec![
                    ("receipt_ref".into(), s("receipt:authority:1")),
                    ("source_ref".into(), s("source:judgment")),
                ],
            },
            LegalFollowGraphNode {
                id: "node:proposition:1".into(),
                kind: "proposition".into(),
                label: "Proposition".into(),
                metadata: vec![],
            },
        ],
        edges: vec![LegalFollowGraphEdge {
            source: "node:authority:1".into(),
            target: "node:proposition:1".into(),
            kind: "supports".into(),
            metadata: vec![],
        }],
    }
}

/// The fixture graph as its persisted JSON value.
fn graph_fixture_json() -> JsonValue {
    obj(vec![
        ("version", s("au.legal_follow_graph.v1")),
        ("derived_only", JsonValue::Bool(true)),
        ("challengeable", JsonValue::Bool(true)),
        (
            "nodes",
            arr(vec![
                obj(vec![
                    ("id", s("node:authority:1")),
                    ("kind", s("authority")),
                    ("label", s("Authority")),
                    ("metadata", obj(vec![("receipt_ref", s("receipt:authority:1")), ("source_ref", s("source:judgment"))])),
                ]),
                obj(vec![
                    ("id", s("node:proposition:1")),
                    ("kind", s("proposition")),
                    ("label", s("Proposition")),
                    ("metadata", obj(vec![])),
                ]),
            ]),
        ),
        (
            "edges",
            arr(vec![obj(vec![
                ("source", s("node:authority:1")),
                ("target", s("node:proposition:1")),
                ("kind", s("supports")),
                ("metadata", obj(vec![])),
            ])]),
        ),
    ])
}

#[test]
fn persisted_legal_follow_graph_makes_proof_stage_available() {
    let model = project_au_fact_review(AuFactReviewProjectionInput {
        world_ref: "world:au:fixture".into(),
        source_refs: vec!["source:au:judgment".into()],
        event_refs: vec!["event:au:hearing".into()],
        handoff_refs: vec![],
        research_residual_refs: vec!["residual:authority-follow".into()],
        legal_follow_graph: graph_fixture(),
    });

    assert_eq!(model.stage(WorkbenchStageKind::MatterProof).unwrap().availability, StageAvailability::Available);
    assert!(!model.creates_semantic_authority);
    assert!(!model.creates_claim_truth);
    assert!(!model.pays_residual);
}

#[test]
fn empty_graph_does_not_fabricate_proof_availability() {
    let model = project_au_fact_review(AuFactReviewProjectionInput {
        world_ref: "world:au:empty".into(),
        source_refs: vec!["source:au:1".into()],
        event_refs: vec![],
        handoff_refs: vec![],
        research_residual_refs: vec![],
        legal_follow_graph: LegalFollowGraph::default(),
    });

    assert!(matches!(
        model.stage(WorkbenchStageKind::MatterProof).unwrap().availability,
        StageAvailability::Unavailable { .. }
    ));
}

#[test]
fn legal_graph_projects_to_stable_provenance_bearing_visual_ir() {
    let graph = graph_fixture();
    let first = legal_follow_graph_to_ir(&graph, 20, 30).unwrap();
    let second = legal_follow_graph_to_ir(&graph, 20, 30).unwrap();

    assert_eq!(first, second);
    assert_eq!(first.nodes.len(), 2);
    assert_eq!(first.edges.len(), 1);
    assert_eq!(first.nodes[0].source_refs, vec!["source:judgment"]);
    assert_eq!(first.nodes[0].provenance_refs, vec!["receipt:authority:1"]);
    assert!(first.derived_only);
    assert!(first.challengeable);
}

#[test]
fn bounded_graph_projection_prefers_a_connected_neighbourhood() {
    let mut graph = graph_fixture();
    graph.nodes.insert(
        0,
        LegalFollowGraphNode {
            id: "node:unconnected:1".into(),
            kind: "event".into(),
            label: "Unconnected first node".into(),
            metadata: vec![],
        },
    );
    graph.nodes.insert(
        1,
        LegalFollowGraphNode {
            id: "node:unconnected:2".into(),
            kind: "event".into(),
            label: "Unconnected second node".into(),
            metadata: vec![],
        },
    );

    let projection = legal_follow_graph_to_ir(&graph, 2, 1).unwrap();

    assert_eq!(projection.nodes.len(), 2);
    assert_eq!(projection.edges.len(), 1);
    assert_eq!(projection.edges[0].semantic_ref, "edge:supports:node:authority:1->node:proposition:1");
}

#[test]
fn real_shape_json_adapter_reads_semantic_context_graph_without_fabrication() {
    let raw = obj(vec![
        ("run", obj(vec![("fact_run_id", s("factrun:au-real"))])),
        ("sources", arr(vec![obj(vec![("source_id", s("src:1"))])])),
        ("events", arr(vec![obj(vec![("event_id", s("event:1"))])])),
        ("review_queue", arr(vec![obj(vec![("fact_id", s("fact:needs-review"))])])),
        (
            "operator_views",
            obj(vec![
                ("professional_handoff", obj(vec![("items", arr(vec![]))])),
                ("authority_follow", obj(vec![("queue", arr(vec![obj(vec![("fact_id", s("fact:authority-follow"))])]))])),
            ]),
        ),
        ("semantic_context", obj(vec![("legal_follow_graph", graph_fixture_json())])),
    ]);

    let projection = project_persisted_au_workbench_json(Ok(raw), 20, 30).unwrap();

    assert_eq!(projection.persisted_source_refs, vec!["src:1"]);
    assert_eq!(projection.persisted_event_refs, vec!["event:1"]);
    assert_eq!(
        projection.read_model.stage(WorkbenchStageKind::MatterProof).unwrap().availability,
        StageAvailability::Available
    );
    assert!(projection.persisted_research_refs.contains(&"fact:needs-review".to_string()));
    assert!(projection.persisted_research_refs.contains(&"fact:authority-follow".to_string()));
}

#[test]
fn visual_ids_are_stable_but_not_semantic_authority() {
    assert_eq!(stable_visual_id("node:authority:1"), stable_visual_id("node:authority:1"));
    assert_ne!(stable_visual_id("node:authority:1"), stable_visual_id("node:authority:2"));
}

#[test]
fn stable_visual_id_is_fnv1a_of_the_reference() {
    assert_eq!(stable_visual_id("").0, 0xcbf29ce484222325);
    assert_eq!(stable_visual_id("a").0, 0xaf63dc4c8601ec8c);
}

#[test]
fn decoded_fixture_graph_is_the_fixture() {
    assert_eq!(decode_legal_follow_graph(graph_fixture_json()), Ok(graph_fixture()));
}

#[test]
fn graph_defaults_apply_to_absent_members() {
    let graph = decode_legal_follow_graph(obj(vec![("version", JsonValue::Null), ("unknown", s("ignored"))])).unwrap();
    assert_eq!(graph, LegalFollowGraph::default());
    let ir = legal_follow_graph_to_ir(&graph, 20, 30).unwrap();
    assert_eq!(ir.graph_ref, "au.legal_follow_graph");
    assert!(ir.derived_only);
    assert!(ir.challengeable);
    assert!(ir.nodes.is_empty());
}

#[test]
fn malformed_graphs_are_refused_with_the_first_fault() {
    assert_eq!(
        decode_legal_follow_graph(arr(vec![])),
        Err("invalid persisted legal_follow_graph: expected an object".to_string())
    );
    assert_eq!(
        decode_legal_follow_graph(obj(vec![("version", JsonValue::Bool(true))])),
        Err("invalid persisted legal_follow_graph: invalid type for `version`, expected a string".to_string())
    );
    assert_eq!(
        decode_legal_follow_graph(obj(vec![("derived_only", s("yes"))])),
        Err("invalid persisted legal_follow_graph: invalid type for `derived_only`, expected a boolean".to_string())
    );
    assert_eq!(
        decode_legal_follow_graph(obj(vec![("challengeable", JsonValue::Number(0))])),
        Err("invalid persisted legal_follow_graph: invalid type for `challengeable`, expected a boolean".to_string())
    );
    assert_eq!(
        decode_legal_follow_graph(obj(vec![("nodes", arr(vec![obj(vec![("id", s("node:1"))])]))])),
        Err(
            "invalid persisted legal_follow_graph: invalid `nodes`, expected an array of nodes with string id, kind and label"
                .to_string()
        )
    );
    assert_eq!(
        decode_legal_follow_graph(obj(vec![("edges", JsonValue::Null)])),
        Err(
            "invalid persisted legal_follow_graph: invalid `edges`, expected an array of edges with string source, target and kind"
                .to_string()
        )
    );
}

#[test]
fn documents_without_a_readable_graph_are_refused() {
    let missing = project_persisted_au_workbench_json(Ok(obj(vec![("workbench", obj(vec![]))])), 20, 30);
    assert_eq!(missing, Err("persisted AU workbench has no legal_follow_graph".to_string()));
    let malformed = project_persisted_au_workbench_json(Ok(obj(vec![("legal_follow_graph", s("graph"))])), 20, 30);
    assert_eq!(malformed, Err("invalid persisted legal_follow_graph: expected an object".to_string()));
}

#[test]
fn workbench_graph_wins_and_world_falls_back_to_the_document_run() {
    let document = obj(vec![
        ("run", obj(vec![("fact_run_id", s("   ")), ("run_id", s("run:document"))])),
        (
            "workbench",
            obj(vec![
                ("legal_follow_graph", graph_fixture_json()),
                ("sources", arr(vec![obj(vec![("source_ref", s("src:b")), ("source_id", s(" "))]), obj(vec![("source_id", s("src:a"))])])),
                ("operator_views", obj(vec![("professional_handoff", obj(vec![("items", arr(vec![obj(vec![("claim_id", s("claim:1"))])]))]))])),
            ]),
        ),
        ("semantic_context", obj(vec![("legal_follow_graph", obj(vec![]))])),
        ("events", arr(vec![obj(vec![("event_id", s("event:document"))])])),
    ]);
    let projection = project_persisted_au_workbench_json(Ok(document), 20, 30).unwrap();
    assert_eq!(projection.read_model.world_ref, "world:au:run:document");
    assert_eq!(projection.persisted_source_refs, vec!["src:a", "src:b"]);
    assert_eq!(projection.persisted_event_refs, vec!["event:document"]);
    assert_eq!(projection.graph_ir.nodes.len(), 2);
    assert_eq!(projection.read_model.stage(WorkbenchStageKind::Handoff).unwrap().semantic_refs, vec!["claim:1"]);

    let anonymous = project_persisted_au_workbench_json(Ok(obj(vec![("legal_follow_graph", obj(vec![]))])), 20, 30).unwrap();
    assert_eq!(anonymous.read_model.world_ref, "world:au:persisted-fact-review");
}
