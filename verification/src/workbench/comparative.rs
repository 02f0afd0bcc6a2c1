//! The comparative workbench read model: before / after / delta panels over one
//! canonical id space, with answer-changing and unresolved references declared
//! beside them. Candidate only: it selects no winner and predicts no outcome.
use vstd::prelude::*;

use crate::refs::{RefMap, RefSet};
use crate::visual::command::{DomainCommand, VisualObjectId};
use crate::visual::comparative::{
    comparative_proof_topology, edges_anchored, pair_fits_ids, topology, ComparativeProofTopology,
    TopologyView,
};
use crate::visual::ir::{inspected, GraphIr, VisualObjectInspection};

verus! {

#[derive(Debug, Clone, Copy, PartialEq, Eq, Structural)]
pub enum ComparativePanel {
    Before,
    After,
    Delta,
}

#[derive(Debug, Clone, PartialEq, Eq)]
pub struct ComparativeSelectors {
    pub left_ref: String,
    pub right_ref: String,
    pub query_ref: Option<String>,
    pub consumer_ref: Option<String>,
    pub as_at_ref: Option<String>,
    pub scope_ref: Option<String>,
}

/// Typed explanations of a comparison: the change layer and explanation of each
/// semantic reference, which references change the answer and which stay unresolved.
#[derive(Debug, Clone, PartialEq, Eq)]
pub struct ComparativeExplanationOverlay {
    pub change_layer_by_semantic_ref: RefMap,
    pub explanation_by_semantic_ref: RefMap,
    pub answer_changing_semantic_refs: RefSet,
    pub unresolved_semantic_refs: RefSet,
    pub creates_semantic_authority: bool,
    pub creates_claim_truth: bool,
}

#[derive(Debug, Clone, PartialEq, Eq)]
pub struct ComparativeWorkbenchReadModel {
    pub topology: ComparativeProofTopology,
    pub selectors: ComparativeSelectors,
    pub explanation_overlay: ComparativeExplanationOverlay,
    pub answer_changing_semantic_refs: RefSet,
    pub unresolved_semantic_refs: RefSet,
    pub candidate_only: bool,
    pub creates_semantic_authority: bool,
    pub creates_claim_truth: bool,
    pub predicts_outcome: bool,
}

#[derive(Debug, Clone, PartialEq, Eq)]
pub struct ThreeWayComparativeSequence {
    pub w0_to_w1: ComparativeWorkbenchReadModel,
    pub w1_to_w2: ComparativeWorkbenchReadModel,
    pub candidate_only: bool,
    pub creates_semantic_authority: bool,
    pub creates_claim_truth: bool,
    pub predicts_outcome: bool,
}

pub struct SelectorsView {
    pub left_ref: Seq<char>,
    pub right_ref: Seq<char>,
    pub query_ref: Option<Seq<char>>,
    pub consumer_ref: Option<Seq<char>>,
    pub as_at_ref: Option<Seq<char>>,
    pub scope_ref: Option<Seq<char>>,
}

pub struct OverlayView {
    pub change_layer_by_semantic_ref: Map<Seq<char>, Seq<char>>,
    pub explanation_by_semantic_ref: Map<Seq<char>, Seq<char>>,
    pub answer_changing_semantic_refs: Seq<Seq<char>>,
    pub unresolved_semantic_refs: Seq<Seq<char>>,
    pub creates_semantic_authority: bool,
    pub creates_claim_truth: bool,
}

pub struct ComparativeModelView {
    pub topology: TopologyView,
    pub selectors: SelectorsView,
    pub explanation_overlay: OverlayView,
    pub answer_changing_semantic_refs: Seq<Seq<char>>,
    pub unresolved_semantic_refs: Seq<Seq<char>>,
    pub candidate_only: bool,
    pub creates_semantic_authority: bool,
    pub creates_claim_truth: bool,
    pub predicts_outcome: bool,
}

pub struct SequenceView {
    pub w0_to_w1: ComparativeModelView,
    pub w1_to_w2: ComparativeModelView,
    pub candidate_only: bool,
    pub creates_semantic_authority: bool,
    pub creates_claim_truth: bool,
    pub predicts_outcome: bool,
}

pub open spec fn opt_view(o: Option<String>) -> Option<Seq<char>> {
    match o {
        Some(s) => Some(s@),
        None => None,
    }
}

impl View for ComparativeSelectors {
    type V = SelectorsView;

    open spec fn view(&self) -> SelectorsView {
        SelectorsView {
            left_ref: self.left_ref@,
            right_ref: self.right_ref@,
            query_ref: opt_view(self.query_ref),
            consumer_ref: opt_view(self.consumer_ref),
            as_at_ref: opt_view(self.as_at_ref),
            scope_ref: opt_view(self.scope_ref),
        }
    }
}

impl View for ComparativeExplanationOverlay {
    type V = OverlayView;

    open spec fn view(&self) -> OverlayView {
        OverlayView {
            change_layer_by_semantic_ref: self.change_layer_by_semantic_ref@,
            explanation_by_semantic_ref: self.explanation_by_semantic_ref@,
            answer_changing_semantic_refs: self.answer_changing_semantic_refs@,
            unresolved_semantic_refs: self.unresolved_semantic_refs@,
            creates_semantic_authority: self.creates_semantic_authority,
            creates_claim_truth: self.creates_claim_truth,
        }
    }
}

impl View for ComparativeWorkbenchReadModel {
    type V = ComparativeModelView;

    open spec fn view(&self) -> ComparativeModelView {
        ComparativeModelView {
            topology: self.topology@,
            selectors: self.selectors@,
            explanation_overlay: self.explanation_overlay@,
            answer_changing_semantic_refs: self.answer_changing_semantic_refs@,
            unresolved_semantic_refs: self.unresolved_semantic_refs@,
            candidate_only: self.candidate_only,
            creates_semantic_authority: self.creates_semantic_authority,
            creates_claim_truth: self.creates_claim_truth,
            predicts_outcome: self.predicts_outcome,
        }
    }
}

impl View for ThreeWayComparativeSequence {
    type V = SequenceView;

    open spec fn view(&self) -> SequenceView {
        SequenceView {
            w0_to_w1: self.w0_to_w1@,
            w1_to_w2: self.w1_to_w2@,
            candidate_only: self.candidate_only,
            creates_semantic_authority: self.creates_semantic_authority,
            creates_claim_truth: self.creates_claim_truth,
            predicts_outcome: self.predicts_outcome,
        }
    }
}

impl ComparativeExplanationOverlay {
    /// An overlay that explains nothing and promotes nothing.
    pub fn empty() -> (o: ComparativeExplanationOverlay)
        ensures
            o@.change_layer_by_semantic_ref == Map::<Seq<char>, Seq<char>>::empty(),
            o@.explanation_by_semantic_ref == Map::<Seq<char>, Seq<char>>::empty(),
            o@.answer_changing_semantic_refs.len() == 0,
            o@.unresolved_semantic_refs.len() == 0,
            !o@.creates_semantic_authority,
            !o@.creates_claim_truth,
    {
        ComparativeExplanationOverlay {
            change_layer_by_semantic_ref: RefMap::new(),
            explanation_by_semantic_ref: RefMap::new(),
            answer_changing_semantic_refs: RefSet::new(),
            unresolved_semantic_refs: RefSet::new(),
            creates_semantic_authority: false,
            creates_claim_truth: false,
        }
    }
}

/// The read model of a comparison under an overlay: the proof topology, the
/// overlay as given, its answer-changing and unresolved references, and no promotion.
pub open spec fn comparative_model(
    comparison_ref: Seq<char>,
    left: crate::visual::ir::GraphView,
    right: crate::visual::ir::GraphView,
    selectors: SelectorsView,
    overlay: OverlayView,
) -> ComparativeModelView {
    ComparativeModelView {
        topology: topology(comparison_ref, left, right),
        selectors,
        explanation_overlay: overlay,
        answer_changing_semantic_refs: overlay.answer_changing_semantic_refs,
        unresolved_semantic_refs: overlay.unresolved_semantic_refs,
        candidate_only: true,
        creates_semantic_authority: false,
        creates_claim_truth: false,
        predicts_outcome: false,
    }
}

/// What a panel of the model shows for a visual id.
pub open spec fn panel_inspection(
    m: ComparativeModelView,
    panel: ComparativePanel,
    id: VisualObjectId,
) -> Option<crate::visual::ir::InspectionView> {
    match panel {
        ComparativePanel::Before => inspected(m.topology.before, id),
        ComparativePanel::After => inspected(m.topology.after, id),
        ComparativePanel::Delta => inspected(m.topology.delta, id),
    }
}

impl ComparativeWorkbenchReadModel {
    /// Selecting an object in any panel is the one existing select command: the
    /// topology gives a semantic object the same id in every panel.
    pub fn select_command(&self, panel: ComparativePanel, object_id: VisualObjectId) -> (c: DomainCommand)
        ensures
            c == DomainCommand::SelectObject(object_id),
    {
        let _ = panel;
        DomainCommand::SelectObject(object_id)
    }

    pub fn inspect(&self, panel: ComparativePanel, object_id: VisualObjectId) -> (r: Option<VisualObjectInspection>)
        ensures
            match r {
                Some(r) => panel_inspection(self@, panel, object_id) == Some(r@),
                None => panel_inspection(self@, panel, object_id) is None,
            },
    {
        match panel {
            ComparativePanel::Before => self.topology.before.inspect_object(object_id),
            ComparativePanel::After => self.topology.after.inspect_object(object_id),
            ComparativePanel::Delta => self.topology.delta.inspect_object(object_id),
        }
    }
}

/// The comparative read model of two graphs under an overlay.
pub fn comparative_workbench_read_model_with_overlay(
    comparison_ref: &str,
    left: &GraphIr,
    right: &GraphIr,
    selectors: ComparativeSelectors,
    overlay: ComparativeExplanationOverlay,
) -> (m: ComparativeWorkbenchReadModel)
    requires
        edges_anchored(left@),
        edges_anchored(right@),
        pair_fits_ids(left@, right@),
    ensures
        m@ == comparative_model(comparison_ref@, left@, right@, selectors@, overlay@),
{
    let answer_changing = overlay.answer_changing_semantic_refs.clone();
    let unresolved = overlay.unresolved_semantic_refs.clone();
    ComparativeWorkbenchReadModel {
        topology: comparative_proof_topology(comparison_ref, left, right),
        selectors,
        explanation_overlay: overlay,
        answer_changing_semantic_refs: answer_changing,
        unresolved_semantic_refs: unresolved,
        candidate_only: true,
        creates_semantic_authority: false,
        creates_claim_truth: false,
        predicts_outcome: false,
    }
}

/// The comparative read model of two graphs with declared answer-changing and
/// unresolved references (and no change layers or explanations).
pub fn comparative_workbench_read_model(
    comparison_ref: &str,
    left: &GraphIr,
    right: &GraphIr,
    selectors: ComparativeSelectors,
    answer_changing_semantic_refs: RefSet,
    unresolved_semantic_refs: RefSet,
) -> (m: ComparativeWorkbenchReadModel)
    requires
        edges_anchored(left@),
        edges_anchored(right@),
        pair_fits_ids(left@, right@),
    ensures
        m@ == comparative_model(
            comparison_ref@,
            left@,
            right@,
            selectors@,
            OverlayView {
                change_layer_by_semantic_ref: Map::empty(),
                explanation_by_semantic_ref: Map::empty(),
                answer_changing_semantic_refs: answer_changing_semantic_refs@,
                unresolved_semantic_refs: unresolved_semantic_refs@,
                creates_semantic_authority: false,
                creates_claim_truth: false,
            },
        ),
{
    let overlay = ComparativeExplanationOverlay {
        change_layer_by_semantic_ref: RefMap::new(),
        explanation_by_semantic_ref: RefMap::new(),
        answer_changing_semantic_refs,
        unresolved_semantic_refs,
        creates_semantic_authority: false,
        creates_claim_truth: false,
    };
    comparative_workbench_read_model_with_overlay(comparison_ref, left, right, selectors, overlay)
}

fn clone_selectors(s: &ComparativeSelectors) -> (c: ComparativeSelectors)
    ensures
        c@ == s@,
{
    ComparativeSelectors {
        left_ref: s.left_ref.clone(),
        right_ref: s.right_ref.clone(),
        query_ref: clone_opt(&s.query_ref),
        consumer_ref: clone_opt(&s.consumer_ref),
        as_at_ref: clone_opt(&s.as_at_ref),
        scope_ref: clone_opt(&s.scope_ref),
    }
}

fn clone_opt(o: &Option<String>) -> (c: Option<String>)
    ensures
        opt_view(c) == opt_view(*o),
{
    match o {
        Some(s) => Some(s.clone()),
        None => None,
    }
}

/// `comparison_ref` followed by `suffix`.
fn suffixed(comparison_ref: &str, suffix: &str) -> (s: String)
    ensures
        s@ == comparison_ref@ + suffix@,
{
    let mut s = String::from_str(comparison_ref);
    s.append(suffix);
    s
}

/// Three worlds compared as two steps, W0 to W1 and W1 to W2, each with its own
/// overlay; the sequence predicts no outcome.
pub open spec fn three_way_sequence(
    comparison_ref: Seq<char>,
    w0: crate::visual::ir::GraphView,
    w1: crate::visual::ir::GraphView,
    w2: crate::visual::ir::GraphView,
    selectors: SelectorsView,
    w0_w1: OverlayView,
    w1_w2: OverlayView,
) -> SequenceView {
    SequenceView {
        w0_to_w1: comparative_model(comparison_ref + ":w0-w1"@, w0, w1, selectors, w0_w1),
        w1_to_w2: comparative_model(comparison_ref + ":w1-w2"@, w1, w2, selectors, w1_w2),
        candidate_only: true,
        creates_semantic_authority: false,
        creates_claim_truth: false,
        predicts_outcome: false,
    }
}

pub fn three_way_comparative_sequence_with_overlays(
    comparison_ref: &str,
    w0: &GraphIr,
    w1: &GraphIr,
    w2: &GraphIr,
    selectors: ComparativeSelectors,
    w0_w1_overlay: ComparativeExplanationOverlay,
    w1_w2_overlay: ComparativeExplanationOverlay,
) -> (s: ThreeWayComparativeSequence)
    requires
        edges_anchored(w0@),
        edges_anchored(w1@),
        edges_anchored(w2@),
        pair_fits_ids(w0@, w1@),
        pair_fits_ids(w1@, w2@),
    ensures
        s@ == three_way_sequence(comparison_ref@, w0@, w1@, w2@, selectors@, w0_w1_overlay@, w1_w2_overlay@),
{
    let first_ref = suffixed(comparison_ref, ":w0-w1");
    let second_ref = suffixed(comparison_ref, ":w1-w2");
    let first = comparative_workbench_read_model_with_overlay(
        first_ref.as_str(),
        w0,
        w1,
        clone_selectors(&selectors),
        w0_w1_overlay,
    );
    let second = comparative_workbench_read_model_with_overlay(
        second_ref.as_str(),
        w1,
        w2,
        selectors,
        w1_w2_overlay,
    );
    ThreeWayComparativeSequence {
        w0_to_w1: first,
        w1_to_w2: second,
        candidate_only: true,
        creates_semantic_authority: false,
        creates_claim_truth: false,
        predicts_outcome: false,
    }
}

/// Three worlds compared as two steps with declared answer-changing references
/// for each step and nothing unresolved.
pub fn three_way_comparative_sequence(
    comparison_ref: &str,
    w0: &GraphIr,
    w1: &GraphIr,
    w2: &GraphIr,
    selectors: ComparativeSelectors,
    w0_w1_answer_changing: RefSet,
    w1_w2_answer_changing: RefSet,
) -> (s: ThreeWayComparativeSequence)
    requires
        edges_anchored(w0@),
        edges_anchored(w1@),
        edges_anchored(w2@),
        pair_fits_ids(w0@, w1@),
        pair_fits_ids(w1@, w2@),
    ensures
        s@ == three_way_sequence(
            comparison_ref@,
            w0@,
            w1@,
            w2@,
            selectors@,
            OverlayView {
                change_layer_by_semantic_ref: Map::empty(),
                explanation_by_semantic_ref: Map::empty(),
                answer_changing_semantic_refs: w0_w1_answer_changing@,
                unresolved_semantic_refs: Seq::empty(),
                creates_semantic_authority: false,
                creates_claim_truth: false,
            },
            OverlayView {
                change_layer_by_semantic_ref: Map::empty(),
                explanation_by_semantic_ref: Map::empty(),
                answer_changing_semantic_refs: w1_w2_answer_changing@,
                unresolved_semantic_refs: Seq::empty(),
                creates_semantic_authority: false,
                creates_claim_truth: false,
            },
        ),
{
    let first = ComparativeExplanationOverlay {
        change_layer_by_semantic_ref: RefMap::new(),
        explanation_by_semantic_ref: RefMap::new(),
        answer_changing_semantic_refs: w0_w1_answer_changing,
        unresolved_semantic_refs: RefSet::new(),
        creates_semantic_authority: false,
        creates_claim_truth: false,
    };
    let second = ComparativeExplanationOverlay {
        change_layer_by_semantic_ref: RefMap::new(),
        explanation_by_semantic_ref: RefMap::new(),
        answer_changing_semantic_refs: w1_w2_answer_changing,
        unresolved_semantic_refs: RefSet::new(),
        creates_semantic_authority: false,
        creates_claim_truth: false,
    };
    three_way_comparative_sequence_with_overlays(comparison_ref, w0, w1, w2, selectors, first, second)
}

} // verus!
