use itir_dioxus::json::JsonValue;
use itir_dioxus::visual::command::{decode_gpu, decode_shell, DomainCommand, GpuPickInput, ShellInput, VisualObjectId};
use itir_dioxus::visual::comparative::graph_edges_anchored;
use itir_dioxus::visual::selection::{reduce_selection, SelectionState};
use itir_dioxus::workbench::au_fact_review::{legal_follow_graph_to_ir, LegalFollowGraph, LegalFollowGraphEdge, LegalFollowGraphNode};

fn node(id: &str) -> LegalFollowGraphNode {
    LegalFollowGraphNode { id: id.into(), kind: "proposition".into(), label: id.into(), metadata: vec![] }
}

fn edge(source: &str, target: &str) -> LegalFollowGraphEdge {
    LegalFollowGraphEdge {
        source: source.into(),
        target: target.into(),
        kind: "supports".into(),
        metadata: vec![("weight".into(), JsonValue::Number(0.5f32.to_bits()))],
    }
}

#[test]
fn reducing_a_command_twice_changes_nothing_more() {
    let id = VisualObjectId(3);
    let start = SelectionState::default();
    for command in [
        DomainCommand::SelectObject(id),
        DomainCommand::FocusProvenance(id),
        DomainCommand::FollowTarget(id),
        DomainCommand::OpenSource(id),
        DomainCommand::ClearSelection,
    ] {
        let once = reduce_selection(command, start);
        assert_eq!(reduce_selection(command, once), once);
    }
    let busy = reduce_selection(DomainCommand::FollowTarget(id), reduce_selection(DomainCommand::SelectObject(id), start));
    assert_eq!(reduce_selection(DomainCommand::ClearSelection, busy), SelectionState::default());
}

#[test]
fn selection_slots_do_not_interfere() {
    let start = SelectionState::default();
    let a = DomainCommand::SelectObject(VisualObjectId(1));
    let b = DomainCommand::OpenSource(VisualObjectId(2));
    assert_eq!(reduce_selection(b, reduce_selection(a, start)), reduce_selection(a, reduce_selection(b, start)));
}

#[test]
fn distinct_inputs_decode_to_distinct_commands() {
    let id = VisualObjectId(9);
    assert_ne!(decode_shell(ShellInput::Select(id)), decode_shell(ShellInput::FocusProvenance(id)));
    assert_ne!(decode_gpu(GpuPickInput::Hit(id)), decode_gpu(GpuPickInput::Hit(VisualObjectId(10))));
    assert_eq!(decode_gpu(GpuPickInput::Miss), DomainCommand::ClearSelection);
}

#[test]
fn bounded_projection_keeps_budgets_and_anchors_its_edges() {
    let graph = LegalFollowGraph {
        version: None,
        derived_only: None,
        challengeable: Some(false),
        nodes: vec![node("a"), node("b"), node("c"), node("d")],
        edges: vec![edge("a", "b"), edge("c", "d"), edge("b", "c")],
    };
    let ir = legal_follow_graph_to_ir(&graph, 3, 2).unwrap();
    assert!(ir.nodes.len() <= 3);
    assert!(ir.edges.len() <= 2);
    assert!(graph_edges_anchored(&ir));
    assert_eq!(ir.edges[0].weight_bits, 0.5f32.to_bits());
    assert!(!ir.challengeable);
    for e in &ir.edges {
        assert!(ir.nodes.iter().any(|n| n.id == e.from));
        assert!(ir.nodes.iter().any(|n| n.id == e.to));
    }
}
