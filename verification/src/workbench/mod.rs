//! The unified workbench read model: Journal, Timeline, Handoff, Matter/Proof and
//! Research stages, each available, blocked or unavailable.
//!
//! Unavailable is not false and hidden is not discarded: a stage is available
//! only when persisted material backs it.
pub mod au_fact_review;
pub mod comparative;
pub mod matter_scope;
pub mod operational;
pub mod persisted_comparative;
pub mod production_comparative;
pub mod review;
pub mod source_ingest;
pub mod work_product_coverage;

use vstd::prelude::*;


verus! {

#[derive(Debug, Clone, Copy, PartialEq, Eq, Structural)]
pub enum WorkbenchStageKind {
    Journal,
    Timeline,
    Handoff,
    MatterProof,
    Research,
}

#[derive(Debug, Clone, PartialEq, Eq)]
pub enum StageAvailability {
    Available,
    Blocked { reason: String },
    Unavailable { reason: String },
}

#[derive(Debug, Clone, PartialEq, Eq)]
pub struct WorkbenchStage {
    pub kind: WorkbenchStageKind,
    pub availability: StageAvailability,
    pub semantic_refs: Vec<String>,
}

#[derive(Debug, Clone, PartialEq, Eq)]
pub struct UnifiedWorkbenchReadModel {
    pub world_ref: String,
    pub stages: Vec<WorkbenchStage>,
    pub candidate_only: bool,
    pub creates_semantic_authority: bool,
    pub creates_claim_truth: bool,
    pub pays_residual: bool,
}

#[derive(Debug, Clone, PartialEq, Eq)]
pub struct AuLegalBearingInput {
    pub world_ref: String,
    pub journal_or_source_refs: Vec<String>,
    pub timeline_event_refs: Vec<String>,
    pub handoff_refs: Vec<String>,
    pub legal_node_refs: Vec<String>,
    pub legal_edge_refs: Vec<String>,
    pub research_residual_refs: Vec<String>,
}

pub enum AvailabilityView {
    Available,
    Blocked(Seq<char>),
    Unavailable(Seq<char>),
}

pub struct StageView {
    pub kind: WorkbenchStageKind,
    pub availability: AvailabilityView,
    pub semantic_refs: Seq<Seq<char>>,
}

pub struct ReadModelView {
    pub world_ref: Seq<char>,
    pub stages: Seq<StageView>,
    pub candidate_only: bool,
    pub creates_semantic_authority: bool,
    pub creates_claim_truth: bool,
    pub pays_residual: bool,
}

pub struct BearingInputView {
    pub world_ref: Seq<char>,
    pub journal_or_source_refs: Seq<Seq<char>>,
    pub timeline_event_refs: Seq<Seq<char>>,
    pub handoff_refs: Seq<Seq<char>>,
    pub legal_node_refs: Seq<Seq<char>>,
    pub legal_edge_refs: Seq<Seq<char>>,
    pub research_residual_refs: Seq<Seq<char>>,
}

impl View for StageAvailability {
    type V = AvailabilityView;

    open spec fn view(&self) -> AvailabilityView {
        match self {
            StageAvailability::Available => AvailabilityView::Available,
            StageAvailability::Blocked { reason } => AvailabilityView::Blocked(reason@),
            StageAvailability::Unavailable { reason } => AvailabilityView::Unavailable(reason@),
        }
    }
}

impl View for WorkbenchStage {
    type V = StageView;

    open spec fn view(&self) -> StageView {
        StageView {
            kind: self.kind,
            availability: self.availability@,
            semantic_refs: self.semantic_refs.deep_view(),
        }
    }
}

pub open spec fn stage_views(stages: Seq<WorkbenchStage>) -> Seq<StageView> {
    stages.map_values(|s: WorkbenchStage| s@)
}

impl View for UnifiedWorkbenchReadModel {
    type V = ReadModelView;

    open spec fn view(&self) -> ReadModelView {
        ReadModelView {
            world_ref: self.world_ref@,
            stages: stage_views(self.stages@),
            candidate_only: self.candidate_only,
            creates_semantic_authority: self.creates_semantic_authority,
            creates_claim_truth: self.creates_claim_truth,
            pays_residual: self.pays_residual,
        }
    }
}

impl View for AuLegalBearingInput {
    type V = BearingInputView;

    open spec fn view(&self) -> BearingInputView {
        BearingInputView {
            world_ref: self.world_ref@,
            journal_or_source_refs: self.journal_or_source_refs.deep_view(),
            timeline_event_refs: self.timeline_event_refs.deep_view(),
            handoff_refs: self.handoff_refs.deep_view(),
            legal_node_refs: self.legal_node_refs.deep_view(),
            legal_edge_refs: self.legal_edge_refs.deep_view(),
            research_residual_refs: self.research_residual_refs.deep_view(),
        }
    }
}

pub open spec fn availability_label(a: AvailabilityView) -> Seq<char> {
    match a {
        AvailabilityView::Available => "available"@,
        AvailabilityView::Blocked(_) => "blocked"@,
        AvailabilityView::Unavailable(_) => "unavailable"@,
    }
}

pub open spec fn availability_reason(a: AvailabilityView) -> Option<Seq<char>> {
    match a {
        AvailabilityView::Available => None,
        AvailabilityView::Blocked(r) => Some(r),
        AvailabilityView::Unavailable(r) => Some(r),
    }
}

impl StageAvailability {
    pub fn label(&self) -> (l: &'static str)
        ensures
            l@ == availability_label(self@),
    {
        match self {
            StageAvailability::Available => "available",
            StageAvailability::Blocked { .. } => "blocked",
            StageAvailability::Unavailable { .. } => "unavailable",
        }
    }

    pub fn reason(&self) -> (r: Option<&str>)
        ensures
            match r {
                Some(s) => availability_reason(self@) == Some(s@),
                None => availability_reason(self@) is None,
            },
    {
        match self {
            StageAvailability::Available => None,
            StageAvailability::Blocked { reason } => Some(reason.as_str()),
            StageAvailability::Unavailable { reason } => Some(reason.as_str()),
        }
    }
}

/// The first stage of kind `kind`.
pub open spec fn stage_of(stages: Seq<StageView>, kind: WorkbenchStageKind) -> Option<StageView>
    decreases stages.len(),
{
    if stages.len() == 0 {
        None
    } else if stages[0].kind == kind {
        Some(stages[0])
    } else {
        stage_of(stages.drop_first(), kind)
    }
}

impl UnifiedWorkbenchReadModel {
    pub fn stage(&self, kind: WorkbenchStageKind) -> (s: Option<&WorkbenchStage>)
        ensures
            match s {
                Some(s) => stage_of(self@.stages, kind) == Some(s@),
                None => stage_of(self@.stages, kind) is None,
            },
    {
        let ghost all = self@.stages;
        let mut i: usize = 0;
        assert(all.subrange(0, all.len() as int) =~= all);
        while i < self.stages.len()
            invariant
                i <= self.stages@.len(),
                all == self@.stages,
                stage_of(all, kind) == stage_of(all.subrange(i as int, all.len() as int), kind),
            decreases self.stages@.len() - i,
        {
            let ghost rest = all.subrange(i as int, all.len() as int);
            if self.stages[i].kind == kind {
                assert(rest[0] == self.stages@[i as int]@);
                return Some(&self.stages[i]);
            }
            assert(rest.drop_first() =~= all.subrange(i + 1, all.len() as int));
            i = i + 1;
        }
        None
    }
}

/// A read model with the five stages in progression order and no promotion:
/// candidate only, no semantic authority, no claim truth, no residual payment.
pub open spec fn progression(
    world_ref: Seq<char>,
    journal: StageView,
    timeline: StageView,
    handoff: StageView,
    proof: StageView,
    research: StageView,
) -> ReadModelView {
    ReadModelView {
        world_ref,
        stages: seq![journal, timeline, handoff, proof, research],
        candidate_only: true,
        creates_semantic_authority: false,
        creates_claim_truth: false,
        pays_residual: false,
    }
}

/// Available when `refs` is non-empty, else unavailable or blocked with `reason`.
pub open spec fn backed_by(refs: Seq<Seq<char>>, blocked: bool, reason: Seq<char>) -> AvailabilityView {
    if refs.len() == 0 {
        if blocked {
            AvailabilityView::Blocked(reason)
        } else {
            AvailabilityView::Unavailable(reason)
        }
    } else {
        AvailabilityView::Available
    }
}

/// The read model of an AU legal-bearing world: each stage is available exactly
/// when persisted references back it, and Matter/Proof carries the legal nodes
/// then the legal edges.
pub open spec fn au_legal_bearing(input: BearingInputView) -> ReadModelView {
    progression(
        input.world_ref,
        StageView {
            kind: WorkbenchStageKind::Journal,
            availability: AvailabilityView::Available,
            semantic_refs: input.journal_or_source_refs,
        },
        StageView {
            kind: WorkbenchStageKind::Timeline,
            availability: backed_by(input.timeline_event_refs, false, "no-persisted-timeline-event"@),
            semantic_refs: input.timeline_event_refs,
        },
        StageView {
            kind: WorkbenchStageKind::Handoff,
            availability: backed_by(input.handoff_refs, false, "no-persisted-handoff-fibre"@),
            semantic_refs: input.handoff_refs,
        },
        StageView {
            kind: WorkbenchStageKind::MatterProof,
            availability: backed_by(input.legal_node_refs, false, "no-persisted-legal-follow-graph"@),
            semantic_refs: input.legal_node_refs + input.legal_edge_refs,
        },
        StageView {
            kind: WorkbenchStageKind::Research,
            availability: backed_by(input.research_residual_refs, true, "no-live-research-residual"@),
            semantic_refs: input.research_residual_refs,
        },
    )
}

fn backing(refs: &Vec<String>, blocked: bool, reason: &str) -> (a: StageAvailability)
    ensures
        a@ == backed_by(refs.deep_view(), blocked, reason@),
{
    if refs.len() == 0 {
        if blocked {
            StageAvailability::Blocked { reason: reason.to_owned() }
        } else {
            StageAvailability::Unavailable { reason: reason.to_owned() }
        }
    } else {
        StageAvailability::Available
    }
}

pub fn au_legal_bearing_read_model(input: AuLegalBearingInput) -> (m: UnifiedWorkbenchReadModel)
    ensures
        m@ == au_legal_bearing(input@),
{
    let ghost iv = input@;
    let timeline = backing(&input.timeline_event_refs, false, "no-persisted-timeline-event");
    let proof = backing(&input.legal_node_refs, false, "no-persisted-legal-follow-graph");
    let handoff = backing(&input.handoff_refs, false, "no-persisted-handoff-fibre");
    let research = backing(&input.research_residual_refs, true, "no-live-research-residual");
    let AuLegalBearingInput {
        world_ref,
        journal_or_source_refs,
        timeline_event_refs,
        handoff_refs,
        legal_node_refs,
        mut legal_edge_refs,
        research_residual_refs,
    } = input;
    let mut proof_refs = legal_node_refs;
    proof_refs.append(&mut legal_edge_refs);
    assert(proof_refs.deep_view() =~= iv.legal_node_refs + iv.legal_edge_refs);
    let stages = vec![
        WorkbenchStage {
            kind: WorkbenchStageKind::Journal,
            availability: StageAvailability::Available,
            semantic_refs: journal_or_source_refs,
        },
        WorkbenchStage {
            kind: WorkbenchStageKind::Timeline,
            availability: timeline,
            semantic_refs: timeline_event_refs,
        },
        WorkbenchStage {
            kind: WorkbenchStageKind::Handoff,
            availability: handoff,
            semantic_refs: handoff_refs,
        },
        WorkbenchStage {
            kind: WorkbenchStageKind::MatterProof,
            availability: proof,
            semantic_refs: proof_refs,
        },
        WorkbenchStage {
            kind: WorkbenchStageKind::Research,
            availability: research,
            semantic_refs: research_residual_refs,
        },
    ];
    let m = UnifiedWorkbenchReadModel {
        world_ref,
        stages,
        candidate_only: true,
        creates_semantic_authority: false,
        creates_claim_truth: false,
        pays_residual: false,
    };
    assert(m@.stages =~= au_legal_bearing(iv).stages);
    m
}

/// Matter/Proof is available exactly when persisted legal-follow nodes exist, the
/// Timeline exactly when persisted events exist, and no stage is ever promoted to
/// authority, truth or payment.
pub proof fn lemma_stage_availability_follows_persistence(input: BearingInputView)
    ensures
        stage_of(au_legal_bearing(input).stages, WorkbenchStageKind::MatterProof) matches Some(s)
            && ((s.availability is Available) <==> input.legal_node_refs.len() > 0),
        stage_of(au_legal_bearing(input).stages, WorkbenchStageKind::Timeline) matches Some(s)
            && ((s.availability is Available) <==> input.timeline_event_refs.len() > 0),
        stage_of(au_legal_bearing(input).stages, WorkbenchStageKind::Handoff) matches Some(s)
            && ((s.availability is Available) <==> input.handoff_refs.len() > 0),
        stage_of(au_legal_bearing(input).stages, WorkbenchStageKind::Research) matches Some(s)
            && ((s.availability is Available) <==> input.research_residual_refs.len() > 0),
        stage_of(au_legal_bearing(input).stages, WorkbenchStageKind::Journal) matches Some(s)
            && s.availability is Available,
        au_legal_bearing(input).candidate_only,
        !au_legal_bearing(input).creates_semantic_authority,
        !au_legal_bearing(input).creates_claim_truth,
        !au_legal_bearing(input).pays_residual,
{
    reveal_with_fuel(stage_of, 5);
    let st = au_legal_bearing(input).stages;
    assert(st.drop_first()[0] == st[1]);
    assert(st.drop_first().drop_first()[0] == st[2]);
    assert(st.drop_first().drop_first().drop_first()[0] == st[3]);
    assert(st.drop_first().drop_first().drop_first().drop_first()[0] == st[4]);
}

/// The calibrated Wave-5 personal handoff world: the journal carries exact
/// fact/source/statement lineage; there is no assembled event coordinate and no
/// attached legal proof graph; the therapist note awaits a real share-scope receipt.
pub open spec fn wave5_model() -> ReadModelView {
    progression(
        "world:wave5:professional-handoff"@,
        StageView {
            kind: WorkbenchStageKind::Journal,
            availability: AvailabilityView::Available,
            semantic_refs: seq!["fact:f5b42c5d8feb0ec6"@, "src:aae9767bfc03c41a"@, "statement:0b109faaec28961a"@, "fact:e0667b55061037f4"@, "src:816003715d9b4ab0"@, "statement:9d022f16a280c923"@, "fact:2499c1b666ccd133"@, "src:5e78e41d87374808"@, "statement:6a76d26b680c03e9"@],
        },
        StageView {
            kind: WorkbenchStageKind::Timeline,
            availability: AvailabilityView::Unavailable("no-assembled-event-coordinate"@),
            semantic_refs: Seq::empty(),
        },
        StageView {
            kind: WorkbenchStageKind::Handoff,
            availability: AvailabilityView::Blocked("reviewed-therapist-note-awaits-real-share-scope-receipt"@),
            semantic_refs: seq!["coordinate:wave5:therapist-note"@],
        },
        StageView {
            kind: WorkbenchStageKind::MatterProof,
            availability: AvailabilityView::Unavailable("no-attached-legal-proof-graph"@),
            semantic_refs: Seq::empty(),
        },
        StageView {
            kind: WorkbenchStageKind::Research,
            availability: AvailabilityView::Available,
            semantic_refs: seq!["coordinate:wave5:clinic-letter"@, "coordinate:wave5:user-journal-account"@, "coordinate:wave5:therapist-note"@],
        },
    )
}

pub fn wave5_personal_handoff_read_model() -> (m: UnifiedWorkbenchReadModel)
    ensures
        m@ == wave5_model(),
{
    let journal: Vec<String> = vec![String::from_str("fact:f5b42c5d8feb0ec6"), String::from_str("src:aae9767bfc03c41a"), String::from_str("statement:0b109faaec28961a"), String::from_str("fact:e0667b55061037f4"), String::from_str("src:816003715d9b4ab0"), String::from_str("statement:9d022f16a280c923"), String::from_str("fact:2499c1b666ccd133"), String::from_str("src:5e78e41d87374808"), String::from_str("statement:6a76d26b680c03e9")];
    let research: Vec<String> = vec![String::from_str("coordinate:wave5:clinic-letter"), String::from_str("coordinate:wave5:user-journal-account"), String::from_str("coordinate:wave5:therapist-note")];
    let handoff: Vec<String> = vec![String::from_str("coordinate:wave5:therapist-note")];
    let empty_timeline: Vec<String> = Vec::new();
    let empty_proof: Vec<String> = Vec::new();
    assert(journal.deep_view() =~= seq!["fact:f5b42c5d8feb0ec6"@, "src:aae9767bfc03c41a"@, "statement:0b109faaec28961a"@, "fact:e0667b55061037f4"@, "src:816003715d9b4ab0"@, "statement:9d022f16a280c923"@, "fact:2499c1b666ccd133"@, "src:5e78e41d87374808"@, "statement:6a76d26b680c03e9"@]);
    assert(research.deep_view() =~= seq!["coordinate:wave5:clinic-letter"@, "coordinate:wave5:user-journal-account"@, "coordinate:wave5:therapist-note"@]);
    assert(handoff.deep_view() =~= seq!["coordinate:wave5:therapist-note"@]);
    assert(empty_timeline.deep_view() =~= Seq::<Seq<char>>::empty());
    assert(empty_proof.deep_view() =~= Seq::<Seq<char>>::empty());
    let m = UnifiedWorkbenchReadModel {
        world_ref: String::from_str("world:wave5:professional-handoff"),
        stages: vec![
            WorkbenchStage {
                kind: WorkbenchStageKind::Journal,
                availability: StageAvailability::Available,
                semantic_refs: journal,
            },
            WorkbenchStage {
                kind: WorkbenchStageKind::Timeline,
                availability: StageAvailability::Unavailable {
                    reason: String::from_str("no-assembled-event-coordinate"),
                },
                semantic_refs: empty_timeline,
            },
            WorkbenchStage {
                kind: WorkbenchStageKind::Handoff,
                availability: StageAvailability::Blocked {
                    reason: String::from_str("reviewed-therapist-note-awaits-real-share-scope-receipt"),
                },
                semantic_refs: handoff,
            },
            WorkbenchStage {
                kind: WorkbenchStageKind::MatterProof,
                availability: StageAvailability::Unavailable {
                    reason: String::from_str("no-attached-legal-proof-graph"),
                },
                semantic_refs: empty_proof,
            },
            WorkbenchStage {
                kind: WorkbenchStageKind::Research,
                availability: StageAvailability::Available,
                semantic_refs: research,
            },
        ],
        candidate_only: true,
        creates_semantic_authority: false,
        creates_claim_truth: false,
        pays_residual: false,
    };
    assert(m@.stages =~= wave5_model().stages);
    m
}

/// The Wave-5 world fabricates neither a timeline nor a proof: both stages are
/// unavailable, and nothing is promoted.
pub proof fn lemma_wave5_does_not_fabricate()
    ensures
        stage_of(wave5_model().stages, WorkbenchStageKind::Timeline) matches Some(s) && s.availability is Unavailable,
        stage_of(wave5_model().stages, WorkbenchStageKind::MatterProof) matches Some(s) && s.availability is Unavailable,
        !wave5_model().creates_semantic_authority,
        !wave5_model().creates_claim_truth,
        !wave5_model().pays_residual,
{
    reveal_with_fuel(stage_of, 5);
    let st = wave5_model().stages;
    assert(st.drop_first()[0] == st[1]);
    assert(st.drop_first().drop_first()[0] == st[2]);
    assert(st.drop_first().drop_first().drop_first()[0] == st[3]);
}


/// A stage's label names its availability: `available`, `blocked` or
/// `unavailable`, and no two availabilities share a label.
pub proof fn lemma_availability_labels(a: AvailabilityView)
    ensures
        (availability_label(a) == "available"@) <==> a is Available,
        (availability_label(a) == "blocked"@) <==> a is Blocked,
        (availability_label(a) == "unavailable"@) <==> a is Unavailable,
{
    reveal_strlit("available");
    reveal_strlit("blocked");
    reveal_strlit("unavailable");
    assert("available"@.len() != "blocked"@.len());
    assert("available"@.len() != "unavailable"@.len());
    assert("blocked"@.len() != "unavailable"@.len());
}

} // verus!
