use itir_dioxus::workbench::matter_scope::{
    default_true, known_at_cut, matter_workspace_refs, DisclosureBoundary, GenericMatterRequest, MatterContext, KnowledgeCutMembership, MatterAcceptanceSemanticRole,
    MatterConsumerRole, MatterPurpose, MatterScopeAcceptanceRole, MatterScopeContext, MatterScopeKnowledge,
    MatterScopeManifest, MatterScopeVisibility, MATTER_SCOPE_SCHEMA,
};

fn manifest() -> MatterScopeManifest {
    MatterScopeManifest {
        schema: MATTER_SCOPE_SCHEMA.into(),
        matter_ref: "matter:1".into(),
        event_refs: vec![],
        operational_dates: vec![],
        context: MatterScopeContext {
            purpose: "legal-advocacy".into(),
            role: "lawyer".into(),
            disclosure_boundary: "role-scoped".into(),
            knowledge_time_cut_ref: Some("cut:1".into()),
            sealed_refs: vec![],
        },
        visibility: vec![MatterScopeVisibility {
            semantic_ref: "source:later".into(),
            allowed_roles: vec!["lawyer".into()],
            allowed_purposes: vec!["legal-advocacy".into()],
            knowledge_membership: "known-after-cut".into(),
            explicitly_selected: true,
            sealed: false,
        }],
        knowledge_timeline: vec![],
        legal_proof_refs: vec![],
        research_refs: vec![],
        work_product_refs: vec![],
        handoff_refs: vec![],
        no_event_refs: vec![],
        acceptance_roles: vec![],
        procedural_significance_review_refs: vec![],
    }
}

#[test]
fn manifest_requires_explicit_known_after_cut_instead_of_inference() {
    let request = manifest().into_request().unwrap();
    assert_eq!(request.context_coordinates[0].knowledge_membership, KnowledgeCutMembership::KnownAfterCut);
}

#[test]
fn manifest_context_is_minimum_necessary_and_non_promoting() {
    let request = manifest().into_request().unwrap();
    let context = &request.context;
    assert_eq!(context.matter_ref, "matter:1");
    assert_eq!(context.active_consumer_role, MatterConsumerRole::Lawyer);
    assert_eq!(context.purpose_ref, MatterPurpose::LegalAdvocacy);
    assert_eq!(context.disclosure_boundary, DisclosureBoundary::RoleScoped);
    assert_eq!(context.knowledge_time_cut_ref, Some("cut:1".to_string()));
    assert!(context.minimum_necessary && context.purpose_limited && context.access_logged && context.revocable);
    assert!(!context.mutates_canonical_world && !context.creates_semantic_authority && !context.claim_truth_promoted);
    assert_eq!(request.context_coordinates[0].matter_ref, "matter:1");
    assert_eq!(request.context_coordinates[0].allowed_roles, vec![MatterConsumerRole::Lawyer]);
}

#[test]
fn manifest_refusals_name_the_first_fault() {
    let mut wrong_schema = manifest();
    wrong_schema.schema = "other.schema".into();
    assert_eq!(
        wrong_schema.into_request().err(),
        Some("matter scope schema mismatch: expected sensiblaw.matter-scope.v0_1, got other.schema".to_string())
    );

    let mut unnamed = manifest();
    unnamed.matter_ref = " ".into();
    assert_eq!(unnamed.into_request().err(), Some("matter_ref is required".to_string()));

    let mut role = manifest();
    role.context.role = "judge".into();
    role.context.purpose = "gossip".into();
    assert_eq!(role.into_request().err(), Some("unknown Matter consumer role: judge".to_string()));

    let mut purpose = manifest();
    purpose.context.purpose = "gossip".into();
    assert_eq!(purpose.into_request().err(), Some("unknown Matter purpose: gossip".to_string()));

    let mut boundary = manifest();
    boundary.context.disclosure_boundary = "everyone".into();
    assert_eq!(boundary.into_request().err(), Some("unknown disclosure boundary: everyone".to_string()));

    let mut membership = manifest();
    membership.visibility[0].knowledge_membership = "guessed".into();
    assert_eq!(membership.into_request().err(), Some("unknown knowledge-cut membership: guessed".to_string()));

    let mut acceptance = manifest();
    acceptance.acceptance_roles = vec![MatterScopeAcceptanceRole {
        semantic_ref: "claim:1".into(),
        role: "party-assertion".into(),
        review_ref: "".into(),
    }];
    assert_eq!(
        acceptance.into_request().err(),
        Some("acceptance role requires semantic_ref and review_ref".to_string())
    );

    let mut acceptance_role = manifest();
    acceptance_role.acceptance_roles = vec![MatterScopeAcceptanceRole {
        semantic_ref: "claim:1".into(),
        role: "verdict".into(),
        review_ref: "review:1".into(),
    }];
    assert_eq!(acceptance_role.into_request().err(), Some("unknown Matter acceptance role: verdict".to_string()));
}

#[test]
fn manifest_carries_timeline_and_acceptance_as_candidates() {
    let mut full = manifest();
    full.knowledge_timeline = vec![MatterScopeKnowledge {
        semantic_ref: "source:1".into(),
        source_revision_ref: "revision:1".into(),
        knowledge_time_ref: "time:1".into(),
        knowledge_membership: known_at_cut(),
        source_role_ref: None,
    }];
    full.acceptance_roles = vec![MatterScopeAcceptanceRole {
        semantic_ref: "claim:1".into(),
        role: "procedural-outcome".into(),
        review_ref: "review:1".into(),
    }];
    full.visibility[0].explicitly_selected = default_true();
    full.no_event_refs = vec!["event:none".into()];
    let request = full.into_request().unwrap();
    assert_eq!(request.knowledge_timeline[0].knowledge_membership, KnowledgeCutMembership::KnownAtCut);
    assert_eq!(request.acceptance_roles[0].role, MatterAcceptanceSemanticRole::ProceduralOutcome);
    assert!(request.acceptance_roles[0].candidate_only);
    assert!(!request.acceptance_roles[0].creates_semantic_authority);
    assert!(request.context_coordinates[0].explicitly_selected);
    assert_eq!(request.no_event_refs, vec!["event:none"]);
    assert_eq!(known_at_cut(), "known-at-cut");
    assert!(default_true());
}

fn request(matter_ref: &str, context_matter_ref: &str) -> GenericMatterRequest {
    GenericMatterRequest {
        matter_ref: matter_ref.into(),
        event_refs: vec![],
        operational_dates: vec![],
        context: MatterContext {
            matter_ref: context_matter_ref.into(),
            purpose_ref: MatterPurpose::PersonalReview,
            active_consumer_role: MatterConsumerRole::ProtectedSubject,
            disclosure_boundary: DisclosureBoundary::MatterInternal,
            knowledge_time_cut_ref: None,
            sealed_refs: vec![],
            minimum_necessary: true,
            purpose_limited: true,
            access_logged: true,
            revocable: true,
            mutates_canonical_world: false,
            creates_semantic_authority: false,
            claim_truth_promoted: false,
        },
        context_coordinates: vec![],
        knowledge_timeline: vec![],
        legal_proof_refs: vec![],
        research_refs: vec![],
        work_product_refs: vec![],
        handoff_refs: vec![],
        no_event_refs: vec![],
        acceptance_roles: vec![],
        procedural_significance_review_refs: vec![],
    }
}

#[test]
fn request_rejects_context_for_a_different_matter_before_database_access() {
    assert_eq!(
        matter_workspace_refs(&request("matter:a", "matter:b")),
        Err("MatterContext matter_ref does not match request".into())
    );
}

#[test]
fn matter_workspace_loads_each_nonblank_ref_once_in_order() {
    let mut q = request("matter:a", "matter:a");
    q.event_refs = vec!["event:2".into(), " ".into(), "event:1".into(), "event:2".into()];
    q.operational_dates = vec!["2026-09-24".into(), "".into(), "2026-09-23".into()];
    let (events, dates) = matter_workspace_refs(&q).unwrap();
    assert_eq!(events, vec!["event:1", "event:2"]);
    assert_eq!(dates, vec!["2026-09-23", "2026-09-24"]);
    assert_eq!(matter_workspace_refs(&request(" ", " ")), Err("matter ref is required".into()));
}
