//! A matter-scope manifest: the declared scope of a generic matter (its context,
//! the visibility of each semantic object, the knowledge timeline and the
//! acceptance roles), read into a typed matter request. Nothing is inferred: every
//! role, purpose, boundary and knowledge-cut membership is spelled out or refused.
use vstd::prelude::*;

use crate::json::{blank, is_blank};
use crate::refs::{compare_refs, lemma_sorted_enumeration, sorted_enumeration, RefOrder, RefSet};

verus! {

pub const MATTER_SCOPE_SCHEMA: &'static str = "sensiblaw.matter-scope.v0_1";

/// Who consumes a matter projection.
#[derive(Debug, Clone, Copy, PartialEq, Eq, Structural)]
pub enum MatterConsumerRole {
    ProtectedSubject,
    SupportOperator,
    Clinician,
    Advocate,
    Lawyer,
    Journalist,
    PublicOfficial,
    PublicAudience,
    Regulator,
    Researcher,
    Other,
}

/// What a matter projection is for.
#[derive(Debug, Clone, Copy, PartialEq, Eq, Structural)]
pub enum MatterPurpose {
    PersonalReview,
    CarePlanning,
    LegalAdvocacy,
    AffidavitPreparation,
    LegalResearch,
    JournalisticVerification,
    PublicAdministrationReview,
    RegulatoryReview,
    ResearchPublication,
    HandoffPreparation,
    Other,
}

/// How far a matter projection may travel.
#[derive(Debug, Clone, Copy, PartialEq, Eq, Structural)]
pub enum DisclosureBoundary {
    MatterInternal,
    RoleScoped,
    RecipientScoped,
    MetadataOnly,
    PublicProjection,
    ProtectedDisclosure,
}

/// Whether a semantic object was known at the matter's knowledge-time cut.
#[derive(Debug, Clone, Copy, PartialEq, Eq, Structural)]
pub enum KnowledgeCutMembership {
    KnownAtCut,
    KnownAfterCut,
    UnknownAtCut,
    NotApplicable,
}

/// The role a semantic object plays in a matter's acceptance.
#[derive(Debug, Clone, Copy, PartialEq, Eq, Structural)]
pub enum MatterAcceptanceSemanticRole {
    PartyAssertion,
    ProceduralOutcome,
    LaterAnnotation,
}

/// The context a matter is projected under.
#[derive(Debug, Clone, PartialEq, Eq)]
pub struct MatterContext {
    pub matter_ref: String,
    pub purpose_ref: MatterPurpose,
    pub active_consumer_role: MatterConsumerRole,
    pub disclosure_boundary: DisclosureBoundary,
    pub knowledge_time_cut_ref: Option<String>,
    pub sealed_refs: Vec<String>,
    pub minimum_necessary: bool,
    pub purpose_limited: bool,
    pub access_logged: bool,
    pub revocable: bool,
    pub mutates_canonical_world: bool,
    pub creates_semantic_authority: bool,
    pub claim_truth_promoted: bool,
}

/// Who may see one semantic object of a matter, and for what.
#[derive(Debug, Clone, PartialEq, Eq)]
pub struct ContextProjectionCoordinate {
    pub semantic_ref: String,
    pub matter_ref: String,
    pub allowed_roles: Vec<MatterConsumerRole>,
    pub allowed_purposes: Vec<MatterPurpose>,
    pub knowledge_membership: KnowledgeCutMembership,
    pub explicitly_selected: bool,
    pub sealed: bool,
}

/// When a revision of a source became known.
#[derive(Debug, Clone, PartialEq, Eq)]
pub struct KnowledgeTimelineEntry {
    pub semantic_ref: String,
    pub source_revision_ref: String,
    pub knowledge_time_ref: String,
    pub knowledge_membership: KnowledgeCutMembership,
    pub source_role_ref: Option<String>,
}

/// A reviewed acceptance role of a semantic object; a candidate only.
#[derive(Debug, Clone, PartialEq, Eq)]
pub struct MatterAcceptanceRoleCoordinate {
    pub semantic_ref: String,
    pub role: MatterAcceptanceSemanticRole,
    pub review_ref: String,
    pub candidate_only: bool,
    pub creates_semantic_authority: bool,
    pub claim_truth_promoted: bool,
}

/// A generic matter, as a request for its workspace.
#[derive(Debug, Clone, PartialEq, Eq)]
pub struct GenericMatterRequest {
    pub matter_ref: String,
    pub event_refs: Vec<String>,
    pub operational_dates: Vec<String>,
    pub context: MatterContext,
    pub context_coordinates: Vec<ContextProjectionCoordinate>,
    pub knowledge_timeline: Vec<KnowledgeTimelineEntry>,
    pub legal_proof_refs: Vec<String>,
    pub research_refs: Vec<String>,
    pub work_product_refs: Vec<String>,
    pub handoff_refs: Vec<String>,
    pub no_event_refs: Vec<String>,
    pub acceptance_roles: Vec<MatterAcceptanceRoleCoordinate>,
    pub procedural_significance_review_refs: Vec<String>,
}

/// A matter-scope manifest as written.
#[derive(Debug, Clone, PartialEq, Eq)]
pub struct MatterScopeManifest {
    pub schema: String,
    pub matter_ref: String,
    pub event_refs: Vec<String>,
    pub operational_dates: Vec<String>,
    pub context: MatterScopeContext,
    pub visibility: Vec<MatterScopeVisibility>,
    pub knowledge_timeline: Vec<MatterScopeKnowledge>,
    pub legal_proof_refs: Vec<String>,
    pub research_refs: Vec<String>,
    pub work_product_refs: Vec<String>,
    pub handoff_refs: Vec<String>,
    pub no_event_refs: Vec<String>,
    pub acceptance_roles: Vec<MatterScopeAcceptanceRole>,
    pub procedural_significance_review_refs: Vec<String>,
}

#[derive(Debug, Clone, PartialEq, Eq)]
pub struct MatterScopeContext {
    pub purpose: String,
    pub role: String,
    pub disclosure_boundary: String,
    pub knowledge_time_cut_ref: Option<String>,
    pub sealed_refs: Vec<String>,
}

#[derive(Debug, Clone, PartialEq, Eq)]
pub struct MatterScopeVisibility {
    pub semantic_ref: String,
    pub allowed_roles: Vec<String>,
    pub allowed_purposes: Vec<String>,
    pub knowledge_membership: String,
    pub explicitly_selected: bool,
    pub sealed: bool,
}

#[derive(Debug, Clone, PartialEq, Eq)]
pub struct MatterScopeKnowledge {
    pub semantic_ref: String,
    pub source_revision_ref: String,
    pub knowledge_time_ref: String,
    pub knowledge_membership: String,
    pub source_role_ref: Option<String>,
}

#[derive(Debug, Clone, PartialEq, Eq)]
pub struct MatterScopeAcceptanceRole {
    pub semantic_ref: String,
    pub role: String,
    pub review_ref: String,
}

/// What an item that omits it is selected as: explicitly selected.
pub fn default_true() -> (b: bool)
    ensures
        b,
{
    true
}

/// The knowledge-cut membership of an item that omits it: known at the cut.
pub fn known_at_cut() -> (s: String)
    ensures
        s@ == "known-at-cut"@,
{
    String::from_str("known-at-cut")
}

fn same_text(a: &str, b: &str) -> (r: bool)
    ensures
        r == (a@ == b@),
{
    compare_refs(a, b) == RefOrder::Same
}

// ---------------------------------------------------------------------------
// The words of a manifest.
// ---------------------------------------------------------------------------

pub open spec fn role_of(s: Seq<char>) -> Option<MatterConsumerRole> {
    if s == "protected-subject"@ {
        Some(MatterConsumerRole::ProtectedSubject)
    } else if s == "support-operator"@ {
        Some(MatterConsumerRole::SupportOperator)
    } else if s == "clinician"@ {
        Some(MatterConsumerRole::Clinician)
    } else if s == "advocate"@ {
        Some(MatterConsumerRole::Advocate)
    } else if s == "lawyer"@ {
        Some(MatterConsumerRole::Lawyer)
    } else if s == "journalist"@ {
        Some(MatterConsumerRole::Journalist)
    } else if s == "public-official"@ {
        Some(MatterConsumerRole::PublicOfficial)
    } else if s == "public-audience"@ {
        Some(MatterConsumerRole::PublicAudience)
    } else if s == "regulator"@ {
        Some(MatterConsumerRole::Regulator)
    } else if s == "researcher"@ {
        Some(MatterConsumerRole::Researcher)
    } else if s == "other"@ {
        Some(MatterConsumerRole::Other)
    } else {
        None
    }
}

pub open spec fn purpose_of(s: Seq<char>) -> Option<MatterPurpose> {
    if s == "personal-review"@ {
        Some(MatterPurpose::PersonalReview)
    } else if s == "care-planning"@ {
        Some(MatterPurpose::CarePlanning)
    } else if s == "legal-advocacy"@ {
        Some(MatterPurpose::LegalAdvocacy)
    } else if s == "affidavit-preparation"@ {
        Some(MatterPurpose::AffidavitPreparation)
    } else if s == "legal-research"@ {
        Some(MatterPurpose::LegalResearch)
    } else if s == "journalistic-verification"@ {
        Some(MatterPurpose::JournalisticVerification)
    } else if s == "public-administration-review"@ {
        Some(MatterPurpose::PublicAdministrationReview)
    } else if s == "regulatory-review"@ {
        Some(MatterPurpose::RegulatoryReview)
    } else if s == "research-publication"@ {
        Some(MatterPurpose::ResearchPublication)
    } else if s == "handoff-preparation"@ {
        Some(MatterPurpose::HandoffPreparation)
    } else if s == "other"@ {
        Some(MatterPurpose::Other)
    } else {
        None
    }
}

pub open spec fn boundary_of(s: Seq<char>) -> Option<DisclosureBoundary> {
    if s == "matter-internal"@ {
        Some(DisclosureBoundary::MatterInternal)
    } else if s == "role-scoped"@ {
        Some(DisclosureBoundary::RoleScoped)
    } else if s == "recipient-scoped"@ {
        Some(DisclosureBoundary::RecipientScoped)
    } else if s == "metadata-only"@ {
        Some(DisclosureBoundary::MetadataOnly)
    } else if s == "public-projection"@ {
        Some(DisclosureBoundary::PublicProjection)
    } else if s == "protected-disclosure"@ {
        Some(DisclosureBoundary::ProtectedDisclosure)
    } else {
        None
    }
}

pub open spec fn acceptance_role_of(s: Seq<char>) -> Option<MatterAcceptanceSemanticRole> {
    if s == "party-assertion"@ {
        Some(MatterAcceptanceSemanticRole::PartyAssertion)
    } else if s == "procedural-outcome"@ {
        Some(MatterAcceptanceSemanticRole::ProceduralOutcome)
    } else if s == "later-annotation"@ {
        Some(MatterAcceptanceSemanticRole::LaterAnnotation)
    } else {
        None
    }
}

pub open spec fn membership_of(s: Seq<char>) -> Option<KnowledgeCutMembership> {
    if s == "known-at-cut"@ {
        Some(KnowledgeCutMembership::KnownAtCut)
    } else if s == "known-after-cut"@ {
        Some(KnowledgeCutMembership::KnownAfterCut)
    } else if s == "unknown-at-cut"@ {
        Some(KnowledgeCutMembership::UnknownAtCut)
    } else if s == "not-applicable"@ {
        Some(KnowledgeCutMembership::NotApplicable)
    } else {
        None
    }
}

/// `s` read by `word_of`, or the refusal `prefix` followed by `s`.
pub open spec fn word_result<T>(word: Option<T>, prefix: Seq<char>, s: Seq<char>) -> Result<T, Seq<char>> {
    match word {
        Some(w) => Ok(w),
        None => Err(prefix + s),
    }
}

pub open spec fn role_result(s: Seq<char>) -> Result<MatterConsumerRole, Seq<char>> {
    word_result(role_of(s), "unknown Matter consumer role: "@, s)
}

pub open spec fn purpose_result(s: Seq<char>) -> Result<MatterPurpose, Seq<char>> {
    word_result(purpose_of(s), "unknown Matter purpose: "@, s)
}

pub open spec fn boundary_result(s: Seq<char>) -> Result<DisclosureBoundary, Seq<char>> {
    word_result(boundary_of(s), "unknown disclosure boundary: "@, s)
}

pub open spec fn acceptance_role_result(s: Seq<char>) -> Result<MatterAcceptanceSemanticRole, Seq<char>> {
    word_result(acceptance_role_of(s), "unknown Matter acceptance role: "@, s)
}

pub open spec fn membership_result(s: Seq<char>) -> Result<KnowledgeCutMembership, Seq<char>> {
    word_result(membership_of(s), "unknown knowledge-cut membership: "@, s)
}

fn refused(prefix: &str, value: &str) -> (e: String)
    ensures
        e@ == prefix@ + value@,
{
    let mut e = String::from_str(prefix);
    e.append(value);
    e
}

pub fn parse_role(value: &str) -> (r: Result<MatterConsumerRole, String>)
    ensures
        match r {
            Ok(w) => role_result(value@) == Ok::<MatterConsumerRole, Seq<char>>(w),
            Err(e) => role_result(value@) == Err::<MatterConsumerRole, Seq<char>>(e@),
        },
{
    if same_text(value, "protected-subject") {
        Ok(MatterConsumerRole::ProtectedSubject)
    } else if same_text(value, "support-operator") {
        Ok(MatterConsumerRole::SupportOperator)
    } else if same_text(value, "clinician") {
        Ok(MatterConsumerRole::Clinician)
    } else if same_text(value, "advocate") {
        Ok(MatterConsumerRole::Advocate)
    } else if same_text(value, "lawyer") {
        Ok(MatterConsumerRole::Lawyer)
    } else if same_text(value, "journalist") {
        Ok(MatterConsumerRole::Journalist)
    } else if same_text(value, "public-official") {
        Ok(MatterConsumerRole::PublicOfficial)
    } else if same_text(value, "public-audience") {
        Ok(MatterConsumerRole::PublicAudience)
    } else if same_text(value, "regulator") {
        Ok(MatterConsumerRole::Regulator)
    } else if same_text(value, "researcher") {
        Ok(MatterConsumerRole::Researcher)
    } else if same_text(value, "other") {
        Ok(MatterConsumerRole::Other)
    } else {
        Err(refused("unknown Matter consumer role: ", value))
    }
}

pub fn parse_purpose(value: &str) -> (r: Result<MatterPurpose, String>)
    ensures
        match r {
            Ok(w) => purpose_result(value@) == Ok::<MatterPurpose, Seq<char>>(w),
            Err(e) => purpose_result(value@) == Err::<MatterPurpose, Seq<char>>(e@),
        },
{
    if same_text(value, "personal-review") {
        Ok(MatterPurpose::PersonalReview)
    } else if same_text(value, "care-planning") {
        Ok(MatterPurpose::CarePlanning)
    } else if same_text(value, "legal-advocacy") {
        Ok(MatterPurpose::LegalAdvocacy)
    } else if same_text(value, "affidavit-preparation") {
        Ok(MatterPurpose::AffidavitPreparation)
    } else if same_text(value, "legal-research") {
        Ok(MatterPurpose::LegalResearch)
    } else if same_text(value, "journalistic-verification") {
        Ok(MatterPurpose::JournalisticVerification)
    } else if same_text(value, "public-administration-review") {
        Ok(MatterPurpose::PublicAdministrationReview)
    } else if same_text(value, "regulatory-review") {
        Ok(MatterPurpose::RegulatoryReview)
    } else if same_text(value, "research-publication") {
        Ok(MatterPurpose::ResearchPublication)
    } else if same_text(value, "handoff-preparation") {
        Ok(MatterPurpose::HandoffPreparation)
    } else if same_text(value, "other") {
        Ok(MatterPurpose::Other)
    } else {
        Err(refused("unknown Matter purpose: ", value))
    }
}

pub fn parse_disclosure_boundary(value: &str) -> (r: Result<DisclosureBoundary, String>)
    ensures
        match r {
            Ok(w) => boundary_result(value@) == Ok::<DisclosureBoundary, Seq<char>>(w),
            Err(e) => boundary_result(value@) == Err::<DisclosureBoundary, Seq<char>>(e@),
        },
{
    if same_text(value, "matter-internal") {
        Ok(DisclosureBoundary::MatterInternal)
    } else if same_text(value, "role-scoped") {
        Ok(DisclosureBoundary::RoleScoped)
    } else if same_text(value, "recipient-scoped") {
        Ok(DisclosureBoundary::RecipientScoped)
    } else if same_text(value, "metadata-only") {
        Ok(DisclosureBoundary::MetadataOnly)
    } else if same_text(value, "public-projection") {
        Ok(DisclosureBoundary::PublicProjection)
    } else if same_text(value, "protected-disclosure") {
        Ok(DisclosureBoundary::ProtectedDisclosure)
    } else {
        Err(refused("unknown disclosure boundary: ", value))
    }
}

pub fn parse_acceptance_role(value: &str) -> (r: Result<MatterAcceptanceSemanticRole, String>)
    ensures
        match r {
            Ok(w) => acceptance_role_result(value@) == Ok::<MatterAcceptanceSemanticRole, Seq<char>>(w),
            Err(e) => acceptance_role_result(value@) == Err::<MatterAcceptanceSemanticRole, Seq<char>>(e@),
        },
{
    if same_text(value, "party-assertion") {
        Ok(MatterAcceptanceSemanticRole::PartyAssertion)
    } else if same_text(value, "procedural-outcome") {
        Ok(MatterAcceptanceSemanticRole::ProceduralOutcome)
    } else if same_text(value, "later-annotation") {
        Ok(MatterAcceptanceSemanticRole::LaterAnnotation)
    } else {
        Err(refused("unknown Matter acceptance role: ", value))
    }
}

pub fn parse_knowledge_membership(value: &str) -> (r: Result<KnowledgeCutMembership, String>)
    ensures
        match r {
            Ok(w) => membership_result(value@) == Ok::<KnowledgeCutMembership, Seq<char>>(w),
            Err(e) => membership_result(value@) == Err::<KnowledgeCutMembership, Seq<char>>(e@),
        },
{
    if same_text(value, "known-at-cut") {
        Ok(KnowledgeCutMembership::KnownAtCut)
    } else if same_text(value, "known-after-cut") {
        Ok(KnowledgeCutMembership::KnownAfterCut)
    } else if same_text(value, "unknown-at-cut") {
        Ok(KnowledgeCutMembership::UnknownAtCut)
    } else if same_text(value, "not-applicable") {
        Ok(KnowledgeCutMembership::NotApplicable)
    } else {
        Err(refused("unknown knowledge-cut membership: ", value))
    }
}

// ---------------------------------------------------------------------------
// The typed request a manifest reads as.
// ---------------------------------------------------------------------------

pub struct ContextView {
    pub matter_ref: Seq<char>,
    pub purpose_ref: MatterPurpose,
    pub active_consumer_role: MatterConsumerRole,
    pub disclosure_boundary: DisclosureBoundary,
    pub knowledge_time_cut_ref: Option<Seq<char>>,
    pub sealed_refs: Seq<Seq<char>>,
    pub minimum_necessary: bool,
    pub purpose_limited: bool,
    pub access_logged: bool,
    pub revocable: bool,
    pub mutates_canonical_world: bool,
    pub creates_semantic_authority: bool,
    pub claim_truth_promoted: bool,
}

pub struct CoordinateView {
    pub semantic_ref: Seq<char>,
    pub matter_ref: Seq<char>,
    pub allowed_roles: Seq<MatterConsumerRole>,
    pub allowed_purposes: Seq<MatterPurpose>,
    pub knowledge_membership: KnowledgeCutMembership,
    pub explicitly_selected: bool,
    pub sealed: bool,
}

pub struct EntryView {
    pub semantic_ref: Seq<char>,
    pub source_revision_ref: Seq<char>,
    pub knowledge_time_ref: Seq<char>,
    pub knowledge_membership: KnowledgeCutMembership,
    pub source_role_ref: Option<Seq<char>>,
}

pub struct AcceptanceView {
    pub semantic_ref: Seq<char>,
    pub role: MatterAcceptanceSemanticRole,
    pub review_ref: Seq<char>,
    pub candidate_only: bool,
    pub creates_semantic_authority: bool,
    pub claim_truth_promoted: bool,
}

pub struct RequestView {
    pub matter_ref: Seq<char>,
    pub event_refs: Seq<Seq<char>>,
    pub operational_dates: Seq<Seq<char>>,
    pub context: ContextView,
    pub context_coordinates: Seq<CoordinateView>,
    pub knowledge_timeline: Seq<EntryView>,
    pub legal_proof_refs: Seq<Seq<char>>,
    pub research_refs: Seq<Seq<char>>,
    pub work_product_refs: Seq<Seq<char>>,
    pub handoff_refs: Seq<Seq<char>>,
    pub no_event_refs: Seq<Seq<char>>,
    pub acceptance_roles: Seq<AcceptanceView>,
    pub procedural_significance_review_refs: Seq<Seq<char>>,
}

pub open spec fn opt_text(o: Option<String>) -> Option<Seq<char>> {
    match o {
        Some(s) => Some(s@),
        None => None,
    }
}

impl View for MatterContext {
    type V = ContextView;

    open spec fn view(&self) -> ContextView {
        ContextView {
            matter_ref: self.matter_ref@,
            purpose_ref: self.purpose_ref,
            active_consumer_role: self.active_consumer_role,
            disclosure_boundary: self.disclosure_boundary,
            knowledge_time_cut_ref: opt_text(self.knowledge_time_cut_ref),
            sealed_refs: self.sealed_refs.deep_view(),
            minimum_necessary: self.minimum_necessary,
            purpose_limited: self.purpose_limited,
            access_logged: self.access_logged,
            revocable: self.revocable,
            mutates_canonical_world: self.mutates_canonical_world,
            creates_semantic_authority: self.creates_semantic_authority,
            claim_truth_promoted: self.claim_truth_promoted,
        }
    }
}

impl View for ContextProjectionCoordinate {
    type V = CoordinateView;

    open spec fn view(&self) -> CoordinateView {
        CoordinateView {
            semantic_ref: self.semantic_ref@,
            matter_ref: self.matter_ref@,
            allowed_roles: self.allowed_roles@,
            allowed_purposes: self.allowed_purposes@,
            knowledge_membership: self.knowledge_membership,
            explicitly_selected: self.explicitly_selected,
            sealed: self.sealed,
        }
    }
}

impl View for KnowledgeTimelineEntry {
    type V = EntryView;

    open spec fn view(&self) -> EntryView {
        EntryView {
            semantic_ref: self.semantic_ref@,
            source_revision_ref: self.source_revision_ref@,
            knowledge_time_ref: self.knowledge_time_ref@,
            knowledge_membership: self.knowledge_membership,
            source_role_ref: opt_text(self.source_role_ref),
        }
    }
}

impl View for MatterAcceptanceRoleCoordinate {
    type V = AcceptanceView;

    open spec fn view(&self) -> AcceptanceView {
        AcceptanceView {
            semantic_ref: self.semantic_ref@,
            role: self.role,
            review_ref: self.review_ref@,
            candidate_only: self.candidate_only,
            creates_semantic_authority: self.creates_semantic_authority,
            claim_truth_promoted: self.claim_truth_promoted,
        }
    }
}

impl View for GenericMatterRequest {
    type V = RequestView;

    open spec fn view(&self) -> RequestView {
        RequestView {
            matter_ref: self.matter_ref@,
            event_refs: self.event_refs.deep_view(),
            operational_dates: self.operational_dates.deep_view(),
            context: self.context@,
            context_coordinates: self.context_coordinates@.map_values(|c: ContextProjectionCoordinate| c@),
            knowledge_timeline: self.knowledge_timeline@.map_values(|e: KnowledgeTimelineEntry| e@),
            legal_proof_refs: self.legal_proof_refs.deep_view(),
            research_refs: self.research_refs.deep_view(),
            work_product_refs: self.work_product_refs.deep_view(),
            handoff_refs: self.handoff_refs.deep_view(),
            no_event_refs: self.no_event_refs.deep_view(),
            acceptance_roles: self.acceptance_roles@.map_values(|a: MatterAcceptanceRoleCoordinate| a@),
            procedural_significance_review_refs: self.procedural_significance_review_refs.deep_view(),
        }
    }
}

/// `prefix` in front of a list that was read, or the refusal that stopped it.
pub open spec fn prepend_ok<T>(prefix: Seq<T>, r: Result<Seq<T>, Seq<char>>) -> Result<Seq<T>, Seq<char>> {
    match r {
        Ok(rest) => Ok(prefix + rest),
        Err(e) => Err(e),
    }
}

/// The roles of `v`, or the refusal of the first that is not one.
pub open spec fn roles_result(v: Seq<Seq<char>>) -> Result<Seq<MatterConsumerRole>, Seq<char>>
    decreases v.len(),
{
    if v.len() == 0 {
        Ok(Seq::empty())
    } else {
        match role_result(v[0]) {
            Err(e) => Err(e),
            Ok(r) => prepend_ok(seq![r], roles_result(v.drop_first())),
        }
    }
}

/// The purposes of `v`, or the refusal of the first that is not one.
pub open spec fn purposes_result(v: Seq<Seq<char>>) -> Result<Seq<MatterPurpose>, Seq<char>>
    decreases v.len(),
{
    if v.len() == 0 {
        Ok(Seq::empty())
    } else {
        match purpose_result(v[0]) {
            Err(e) => Err(e),
            Ok(r) => prepend_ok(seq![r], purposes_result(v.drop_first())),
        }
    }
}

/// A visibility item of the matter: its roles, then its purposes, then its
/// knowledge-cut membership must read.
pub open spec fn coordinate_result(item: MatterScopeVisibility, matter_ref: Seq<char>) -> Result<CoordinateView, Seq<char>> {
    match roles_result(item.allowed_roles.deep_view()) {
        Err(e) => Err(e),
        Ok(roles) => match purposes_result(item.allowed_purposes.deep_view()) {
            Err(e) => Err(e),
            Ok(purposes) => match membership_result(item.knowledge_membership@) {
                Err(e) => Err(e),
                Ok(m) => Ok(
                    CoordinateView {
                        semantic_ref: item.semantic_ref@,
                        matter_ref,
                        allowed_roles: roles,
                        allowed_purposes: purposes,
                        knowledge_membership: m,
                        explicitly_selected: item.explicitly_selected,
                        sealed: item.sealed,
                    },
                ),
            },
        },
    }
}

pub open spec fn coordinates_result(items: Seq<MatterScopeVisibility>, matter_ref: Seq<char>) -> Result<Seq<CoordinateView>, Seq<char>>
    decreases items.len(),
{
    if items.len() == 0 {
        Ok(Seq::empty())
    } else {
        match coordinate_result(items[0], matter_ref) {
            Err(e) => Err(e),
            Ok(c) => prepend_ok(seq![c], coordinates_result(items.drop_first(), matter_ref)),
        }
    }
}

pub open spec fn entry_result(k: MatterScopeKnowledge) -> Result<EntryView, Seq<char>> {
    match membership_result(k.knowledge_membership@) {
        Err(e) => Err(e),
        Ok(m) => Ok(
            EntryView {
                semantic_ref: k.semantic_ref@,
                source_revision_ref: k.source_revision_ref@,
                knowledge_time_ref: k.knowledge_time_ref@,
                knowledge_membership: m,
                source_role_ref: opt_text(k.source_role_ref),
            },
        ),
    }
}

pub open spec fn entries_result(items: Seq<MatterScopeKnowledge>) -> Result<Seq<EntryView>, Seq<char>>
    decreases items.len(),
{
    if items.len() == 0 {
        Ok(Seq::empty())
    } else {
        match entry_result(items[0]) {
            Err(e) => Err(e),
            Ok(x) => prepend_ok(seq![x], entries_result(items.drop_first())),
        }
    }
}

pub open spec fn acceptance_refs_message() -> Seq<char> {
    "acceptance role requires semantic_ref and review_ref"@
}

/// An acceptance role needs both references and a known role; it stays a candidate.
pub open spec fn acceptance_result(a: MatterScopeAcceptanceRole) -> Result<AcceptanceView, Seq<char>> {
    if blank(a.semantic_ref@) || blank(a.review_ref@) {
        Err(acceptance_refs_message())
    } else {
        match acceptance_role_result(a.role@) {
            Err(e) => Err(e),
            Ok(role) => Ok(
                AcceptanceView {
                    semantic_ref: a.semantic_ref@,
                    role,
                    review_ref: a.review_ref@,
                    candidate_only: true,
                    creates_semantic_authority: false,
                    claim_truth_promoted: false,
                },
            ),
        }
    }
}

pub open spec fn acceptances_result(items: Seq<MatterScopeAcceptanceRole>) -> Result<Seq<AcceptanceView>, Seq<char>>
    decreases items.len(),
{
    if items.len() == 0 {
        Ok(Seq::empty())
    } else {
        match acceptance_result(items[0]) {
            Err(e) => Err(e),
            Ok(x) => prepend_ok(seq![x], acceptances_result(items.drop_first())),
        }
    }
}

pub open spec fn schema_message(schema: Seq<char>) -> Seq<char> {
    "matter scope schema mismatch: expected "@ + MATTER_SCOPE_SCHEMA@ + ", got "@ + schema
}

/// The matter context a manifest declares: minimum-necessary, purpose-limited,
/// logged and revocable, and promoting nothing.
pub open spec fn declared_context(
    m: MatterScopeManifest,
    role: MatterConsumerRole,
    purpose: MatterPurpose,
    boundary: DisclosureBoundary,
) -> ContextView {
    ContextView {
        matter_ref: m.matter_ref@,
        purpose_ref: purpose,
        active_consumer_role: role,
        disclosure_boundary: boundary,
        knowledge_time_cut_ref: opt_text(m.context.knowledge_time_cut_ref),
        sealed_refs: m.context.sealed_refs.deep_view(),
        minimum_necessary: true,
        purpose_limited: true,
        access_logged: true,
        revocable: true,
        mutates_canonical_world: false,
        creates_semantic_authority: false,
        claim_truth_promoted: false,
    }
}

/// What a manifest reads as: its schema must be the matter-scope schema and its
/// matter named; then the context role, purpose and boundary, the visibility
/// items, the knowledge timeline and the acceptance roles must read, in that order.
pub open spec fn request_result(m: MatterScopeManifest) -> Result<RequestView, Seq<char>> {
    if m.schema@ != MATTER_SCOPE_SCHEMA@ {
        Err(schema_message(m.schema@))
    } else if blank(m.matter_ref@) {
        Err("matter_ref is required"@)
    } else {
        match (role_result(m.context.role@), purpose_result(m.context.purpose@), boundary_result(m.context.disclosure_boundary@)) {
            (Err(e), _, _) => Err(e),
            (Ok(_), Err(e), _) => Err(e),
            (Ok(_), Ok(_), Err(e)) => Err(e),
            (Ok(role), Ok(purpose), Ok(boundary)) => match (
                coordinates_result(m.visibility@, m.matter_ref@),
                entries_result(m.knowledge_timeline@),
                acceptances_result(m.acceptance_roles@),
            ) {
                (Err(e), _, _) => Err(e),
                (Ok(_), Err(e), _) => Err(e),
                (Ok(_), Ok(_), Err(e)) => Err(e),
                (Ok(coordinates), Ok(entries), Ok(acceptances)) => Ok(
                    RequestView {
                        matter_ref: m.matter_ref@,
                        event_refs: m.event_refs.deep_view(),
                        operational_dates: m.operational_dates.deep_view(),
                        context: declared_context(m, role, purpose, boundary),
                        context_coordinates: coordinates,
                        knowledge_timeline: entries,
                        legal_proof_refs: m.legal_proof_refs.deep_view(),
                        research_refs: m.research_refs.deep_view(),
                        work_product_refs: m.work_product_refs.deep_view(),
                        handoff_refs: m.handoff_refs.deep_view(),
                        no_event_refs: m.no_event_refs.deep_view(),
                        acceptance_roles: acceptances,
                        procedural_significance_review_refs: m.procedural_significance_review_refs.deep_view(),
                    },
                ),
            },
        }
    }
}

fn parse_roles(v: &Vec<String>) -> (r: Result<Vec<MatterConsumerRole>, String>)
    ensures
        match r {
            Ok(roles) => roles_result(v.deep_view()) == Ok::<Seq<MatterConsumerRole>, Seq<char>>(roles@),
            Err(e) => roles_result(v.deep_view()) == Err::<Seq<MatterConsumerRole>, Seq<char>>(e@),
        },
{
    let ghost all = v.deep_view();
    let mut out: Vec<MatterConsumerRole> = Vec::new();
    let mut i: usize = 0;
    assert(all.subrange(0, all.len() as int) =~= all);
    assert forall|q: Seq<MatterConsumerRole>| #[trigger] (out@ + q) =~= q by {}
    while i < v.len()
        invariant
            i <= all.len(),
            all == v.deep_view(),
            roles_result(all) == prepend_ok(out@, roles_result(all.subrange(i as int, all.len() as int))),
        decreases all.len() - i,
    {
        let ghost rest = all.subrange(i as int, all.len() as int);
        assert(rest[0] == v[i as int]@);
        assert(rest.drop_first() =~= all.subrange(i + 1, all.len() as int));
        let ghost before = out@;
        match parse_role(v[i].as_str()) {
            Ok(role) => {
                out.push(role);
                assert forall|q: Seq<MatterConsumerRole>| #[trigger] (before + (seq![role] + q)) =~= out@ + q by {}
            },
            Err(e) => {
                return Err(e);
            },
        }
        i = i + 1;
    }
    assert(out@ + Seq::<MatterConsumerRole>::empty() =~= out@);
    Ok(out)
}

fn parse_purposes(v: &Vec<String>) -> (r: Result<Vec<MatterPurpose>, String>)
    ensures
        match r {
            Ok(ps) => purposes_result(v.deep_view()) == Ok::<Seq<MatterPurpose>, Seq<char>>(ps@),
            Err(e) => purposes_result(v.deep_view()) == Err::<Seq<MatterPurpose>, Seq<char>>(e@),
        },
{
    let ghost all = v.deep_view();
    let mut out: Vec<MatterPurpose> = Vec::new();
    let mut i: usize = 0;
    assert(all.subrange(0, all.len() as int) =~= all);
    assert forall|q: Seq<MatterPurpose>| #[trigger] (out@ + q) =~= q by {}
    while i < v.len()
        invariant
            i <= all.len(),
            all == v.deep_view(),
            purposes_result(all) == prepend_ok(out@, purposes_result(all.subrange(i as int, all.len() as int))),
        decreases all.len() - i,
    {
        let ghost rest = all.subrange(i as int, all.len() as int);
        assert(rest[0] == v[i as int]@);
        assert(rest.drop_first() =~= all.subrange(i + 1, all.len() as int));
        let ghost before = out@;
        match parse_purpose(v[i].as_str()) {
            Ok(p) => {
                out.push(p);
                assert forall|q: Seq<MatterPurpose>| #[trigger] (before + (seq![p] + q)) =~= out@ + q by {}
            },
            Err(e) => {
                return Err(e);
            },
        }
        i = i + 1;
    }
    assert(out@ + Seq::<MatterPurpose>::empty() =~= out@);
    Ok(out)
}

fn clone_opt_text(o: &Option<String>) -> (c: Option<String>)
    ensures
        opt_text(c) == opt_text(*o),
{
    match o {
        Some(s) => Some(s.clone()),
        None => None,
    }
}

fn read_coordinate(item: &MatterScopeVisibility, matter_ref: &String) -> (r: Result<ContextProjectionCoordinate, String>)
    ensures
        match r {
            Ok(c) => coordinate_result(*item, matter_ref@) == Ok::<CoordinateView, Seq<char>>(c@),
            Err(e) => coordinate_result(*item, matter_ref@) == Err::<CoordinateView, Seq<char>>(e@),
        },
{
    let allowed_roles = parse_roles(&item.allowed_roles)?;
    let allowed_purposes = parse_purposes(&item.allowed_purposes)?;
    let knowledge_membership = parse_knowledge_membership(item.knowledge_membership.as_str())?;
    Ok(
        ContextProjectionCoordinate {
            semantic_ref: item.semantic_ref.clone(),
            matter_ref: matter_ref.clone(),
            allowed_roles,
            allowed_purposes,
            knowledge_membership,
            explicitly_selected: item.explicitly_selected,
            sealed: item.sealed,
        },
    )
}

pub open spec fn coordinate_views(v: Seq<ContextProjectionCoordinate>) -> Seq<CoordinateView> {
    v.map_values(|c: ContextProjectionCoordinate| c@)
}

pub open spec fn entry_views(v: Seq<KnowledgeTimelineEntry>) -> Seq<EntryView> {
    v.map_values(|e: KnowledgeTimelineEntry| e@)
}

pub open spec fn acceptance_views(v: Seq<MatterAcceptanceRoleCoordinate>) -> Seq<AcceptanceView> {
    v.map_values(|a: MatterAcceptanceRoleCoordinate| a@)
}

fn read_coordinates(items: &Vec<MatterScopeVisibility>, matter_ref: &String) -> (r: Result<Vec<ContextProjectionCoordinate>, String>)
    ensures
        match r {
            Ok(cs) => coordinates_result(items@, matter_ref@) == Ok::<Seq<CoordinateView>, Seq<char>>(coordinate_views(cs@)),
            Err(e) => coordinates_result(items@, matter_ref@) == Err::<Seq<CoordinateView>, Seq<char>>(e@),
        },
{
    let ghost all = items@;
    let ghost mr = matter_ref@;
    let mut out: Vec<ContextProjectionCoordinate> = Vec::new();
    let mut i: usize = 0;
    assert(all.subrange(0, all.len() as int) =~= all);
    assert forall|q: Seq<CoordinateView>| #[trigger] (coordinate_views(out@) + q) =~= q by {}
    while i < items.len()
        invariant
            i <= all.len(),
            all == items@,
            mr == matter_ref@,
            coordinates_result(all, mr) == prepend_ok(coordinate_views(out@), coordinates_result(all.subrange(i as int, all.len() as int), mr)),
        decreases all.len() - i,
    {
        let ghost rest = all.subrange(i as int, all.len() as int);
        assert(rest[0] == items@[i as int]);
        assert(rest.drop_first() =~= all.subrange(i + 1, all.len() as int));
        let ghost before = coordinate_views(out@);
        let c = read_coordinate(&items[i], matter_ref)?;
        let ghost cv = c@;
        out.push(c);
        assert(coordinate_views(out@) =~= before.push(cv));
        assert forall|q: Seq<CoordinateView>| #[trigger] (before + (seq![cv] + q)) =~= coordinate_views(out@) + q by {}
        i = i + 1;
    }
    assert(coordinate_views(out@) + Seq::<CoordinateView>::empty() =~= coordinate_views(out@));
    Ok(out)
}

fn read_entry(k: &MatterScopeKnowledge) -> (r: Result<KnowledgeTimelineEntry, String>)
    ensures
        match r {
            Ok(e) => entry_result(*k) == Ok::<EntryView, Seq<char>>(e@),
            Err(e) => entry_result(*k) == Err::<EntryView, Seq<char>>(e@),
        },
{
    let knowledge_membership = parse_knowledge_membership(k.knowledge_membership.as_str())?;
    Ok(
        KnowledgeTimelineEntry {
            semantic_ref: k.semantic_ref.clone(),
            source_revision_ref: k.source_revision_ref.clone(),
            knowledge_time_ref: k.knowledge_time_ref.clone(),
            knowledge_membership,
            source_role_ref: clone_opt_text(&k.source_role_ref),
        },
    )
}

fn read_entries(items: &Vec<MatterScopeKnowledge>) -> (r: Result<Vec<KnowledgeTimelineEntry>, String>)
    ensures
        match r {
            Ok(es) => entries_result(items@) == Ok::<Seq<EntryView>, Seq<char>>(entry_views(es@)),
            Err(e) => entries_result(items@) == Err::<Seq<EntryView>, Seq<char>>(e@),
        },
{
    let ghost all = items@;
    let mut out: Vec<KnowledgeTimelineEntry> = Vec::new();
    let mut i: usize = 0;
    assert(all.subrange(0, all.len() as int) =~= all);
    assert forall|q: Seq<EntryView>| #[trigger] (entry_views(out@) + q) =~= q by {}
    while i < items.len()
        invariant
            i <= all.len(),
            all == items@,
            entries_result(all) == prepend_ok(entry_views(out@), entries_result(all.subrange(i as int, all.len() as int))),
        decreases all.len() - i,
    {
        let ghost rest = all.subrange(i as int, all.len() as int);
        assert(rest[0] == items@[i as int]);
        assert(rest.drop_first() =~= all.subrange(i + 1, all.len() as int));
        let ghost before = entry_views(out@);
        let e = read_entry(&items[i])?;
        let ghost ev = e@;
        out.push(e);
        assert(entry_views(out@) =~= before.push(ev));
        assert forall|q: Seq<EntryView>| #[trigger] (before + (seq![ev] + q)) =~= entry_views(out@) + q by {}
        i = i + 1;
    }
    assert(entry_views(out@) + Seq::<EntryView>::empty() =~= entry_views(out@));
    Ok(out)
}

fn read_acceptance(a: &MatterScopeAcceptanceRole) -> (r: Result<MatterAcceptanceRoleCoordinate, String>)
    ensures
        match r {
            Ok(c) => acceptance_result(*a) == Ok::<AcceptanceView, Seq<char>>(c@),
            Err(e) => acceptance_result(*a) == Err::<AcceptanceView, Seq<char>>(e@),
        },
{
    if is_blank(a.semantic_ref.as_str()) || is_blank(a.review_ref.as_str()) {
        return Err(String::from_str("acceptance role requires semantic_ref and review_ref"));
    }
    let role = parse_acceptance_role(a.role.as_str())?;
    Ok(
        MatterAcceptanceRoleCoordinate {
            semantic_ref: a.semantic_ref.clone(),
            role,
            review_ref: a.review_ref.clone(),
            candidate_only: true,
            creates_semantic_authority: false,
            claim_truth_promoted: false,
        },
    )
}

fn read_acceptances(items: &Vec<MatterScopeAcceptanceRole>) -> (r: Result<Vec<MatterAcceptanceRoleCoordinate>, String>)
    ensures
        match r {
            Ok(cs) => acceptances_result(items@) == Ok::<Seq<AcceptanceView>, Seq<char>>(acceptance_views(cs@)),
            Err(e) => acceptances_result(items@) == Err::<Seq<AcceptanceView>, Seq<char>>(e@),
        },
{
    let ghost all = items@;
    let mut out: Vec<MatterAcceptanceRoleCoordinate> = Vec::new();
    let mut i: usize = 0;
    assert(all.subrange(0, all.len() as int) =~= all);
    assert forall|q: Seq<AcceptanceView>| #[trigger] (acceptance_views(out@) + q) =~= q by {}
    while i < items.len()
        invariant
            i <= all.len(),
            all == items@,
            acceptances_result(all) == prepend_ok(acceptance_views(out@), acceptances_result(all.subrange(i as int, all.len() as int))),
        decreases all.len() - i,
    {
        let ghost rest = all.subrange(i as int, all.len() as int);
        assert(rest[0] == items@[i as int]);
        assert(rest.drop_first() =~= all.subrange(i + 1, all.len() as int));
        let ghost before = acceptance_views(out@);
        let c = read_acceptance(&items[i])?;
        let ghost cv = c@;
        out.push(c);
        assert(acceptance_views(out@) =~= before.push(cv));
        assert forall|q: Seq<AcceptanceView>| #[trigger] (before + (seq![cv] + q)) =~= acceptance_views(out@) + q by {}
        i = i + 1;
    }
    assert(acceptance_views(out@) + Seq::<AcceptanceView>::empty() =~= acceptance_views(out@));
    Ok(out)
}

impl MatterScopeManifest {
    /// Reads the manifest into a matter request; see `request_result` for what is
    /// refused, and in which order.
    pub fn into_request(self) -> (r: Result<GenericMatterRequest, String>)
        ensures
            match r {
                Ok(q) => request_result(self) == Ok::<RequestView, Seq<char>>(q@),
                Err(e) => request_result(self) == Err::<RequestView, Seq<char>>(e@),
            },
    {
        if !same_text(self.schema.as_str(), MATTER_SCOPE_SCHEMA) {
            let mut e = String::from_str("matter scope schema mismatch: expected ");
            e.append(MATTER_SCOPE_SCHEMA);
            e.append(", got ");
            e.append(self.schema.as_str());
            return Err(e);
        }
        if is_blank(self.matter_ref.as_str()) {
            return Err(String::from_str("matter_ref is required"));
        }
        let role = parse_role(self.context.role.as_str())?;
        let purpose = parse_purpose(self.context.purpose.as_str())?;
        let disclosure_boundary = parse_disclosure_boundary(self.context.disclosure_boundary.as_str())?;
        let context_coordinates = read_coordinates(&self.visibility, &self.matter_ref)?;
        let knowledge_timeline = read_entries(&self.knowledge_timeline)?;
        let acceptance_roles = read_acceptances(&self.acceptance_roles)?;
        let ghost m = self;
        let context = MatterContext {
            matter_ref: self.matter_ref.clone(),
            purpose_ref: purpose,
            active_consumer_role: role,
            disclosure_boundary,
            knowledge_time_cut_ref: self.context.knowledge_time_cut_ref,
            sealed_refs: self.context.sealed_refs,
            minimum_necessary: true,
            purpose_limited: true,
            access_logged: true,
            revocable: true,
            mutates_canonical_world: false,
            creates_semantic_authority: false,
            claim_truth_promoted: false,
        };
        let q = GenericMatterRequest {
            matter_ref: self.matter_ref,
            event_refs: self.event_refs,
            operational_dates: self.operational_dates,
            context,
            context_coordinates,
            knowledge_timeline,
            legal_proof_refs: self.legal_proof_refs,
            research_refs: self.research_refs,
            work_product_refs: self.work_product_refs,
            handoff_refs: self.handoff_refs,
            no_event_refs: self.no_event_refs,
            acceptance_roles,
            procedural_significance_review_refs: self.procedural_significance_review_refs,
        };
        assert(q@.context == declared_context(m, role, purpose, disclosure_boundary));
        Ok(q)
    }
}

// ---------------------------------------------------------------------------
// What a matter workspace loads.
// ---------------------------------------------------------------------------

/// The non-blank references of `v`.
pub open spec fn nonblank_refs(v: Seq<Seq<char>>) -> Set<Seq<char>> {
    v.to_set().filter(|s: Seq<char>| !blank(s))
}

/// Why a matter request is refused before anything is loaded: it names no matter,
/// or its context belongs to another matter.
pub open spec fn request_fault(q: GenericMatterRequest) -> Option<Seq<char>> {
    if blank(q.matter_ref@) {
        Some("matter ref is required"@)
    } else if q.context.matter_ref@ != q.matter_ref@ {
        Some("MatterContext matter_ref does not match request"@)
    } else {
        None
    }
}

/// The non-blank references of `v`, in order and without repeats.
fn ordered_nonblank(v: &Vec<String>) -> (r: Vec<String>)
    ensures
        r.deep_view() == sorted_enumeration(nonblank_refs(v.deep_view())),
{
    let ghost all = v.deep_view();
    let mut set = RefSet::new();
    let mut i: usize = 0;
    while i < v.len()
        invariant
            i <= all.len(),
            all == v.deep_view(),
            set@.to_set() == nonblank_refs(all.subrange(0, i as int)),
        decreases all.len() - i,
    {
        if !is_blank(v[i].as_str()) {
            set.insert(v[i].clone());
        }
        proof {
            let q = all.subrange(0, i as int);
            assert(all.subrange(0, i + 1) =~= q.push(all[i as int]));
            q.lemma_push_to_set_commute(all[i as int]);
            assert(set@.to_set() =~= nonblank_refs(all.subrange(0, i + 1)));
        }
        i = i + 1;
    }
    assert(all.subrange(0, i as int) =~= all);
    proof {
        use_type_invariant(&set);
        lemma_sorted_enumeration(set@);
    }
    set.to_vec()
}

/// Checks a matter request before anything is loaded for it, and gives the event
/// references and operational dates to load: the non-blank ones, sorted, once each.
pub fn matter_workspace_refs(request: &GenericMatterRequest) -> (r: Result<(Vec<String>, Vec<String>), String>)
    ensures
        match r {
            Ok((events, dates)) => {
                &&& request_fault(*request) is None
                &&& events.deep_view() == sorted_enumeration(nonblank_refs(request.event_refs.deep_view()))
                &&& dates.deep_view() == sorted_enumeration(nonblank_refs(request.operational_dates.deep_view()))
            },
            Err(e) => request_fault(*request) == Some(e@),
        },
{
    if is_blank(request.matter_ref.as_str()) {
        return Err(String::from_str("matter ref is required"));
    }
    if !same_text(request.context.matter_ref.as_str(), request.matter_ref.as_str()) {
        return Err(String::from_str("MatterContext matter_ref does not match request"));
    }
    Ok((ordered_nonblank(&request.event_refs), ordered_nonblank(&request.operational_dates)))
}


/// The manifest word of each consumer role, in kebab case.
pub open spec fn role_name(w: MatterConsumerRole) -> Seq<char> {
    match w {
        MatterConsumerRole::ProtectedSubject => "protected-subject"@,
        MatterConsumerRole::SupportOperator => "support-operator"@,
        MatterConsumerRole::Clinician => "clinician"@,
        MatterConsumerRole::Advocate => "advocate"@,
        MatterConsumerRole::Lawyer => "lawyer"@,
        MatterConsumerRole::Journalist => "journalist"@,
        MatterConsumerRole::PublicOfficial => "public-official"@,
        MatterConsumerRole::PublicAudience => "public-audience"@,
        MatterConsumerRole::Regulator => "regulator"@,
        MatterConsumerRole::Researcher => "researcher"@,
        MatterConsumerRole::Other => "other"@,
    }
}

/// A manifest names a consumer role by its word and by nothing else: reading a text
/// gives a consumer role exactly when the text is that consumer role's word.
pub proof fn lemma_role_words(s: Seq<char>, w: MatterConsumerRole)
    ensures
        role_of(s) == Some(w) <==> s == role_name(w),
        role_of(s) is None <==> forall|v: MatterConsumerRole| s != #[trigger] role_name(v),
{
    reveal_strlit("protected-subject");
    reveal_strlit("support-operator");
    reveal_strlit("clinician");
    reveal_strlit("advocate");
    reveal_strlit("lawyer");
    reveal_strlit("journalist");
    reveal_strlit("public-official");
    reveal_strlit("public-audience");
    reveal_strlit("regulator");
    reveal_strlit("researcher");
    reveal_strlit("other");
    assert("protected-subject"@.len() != "support-operator"@.len());
    assert("protected-subject"@.len() != "clinician"@.len());
    assert("protected-subject"@.len() != "advocate"@.len());
    assert("protected-subject"@.len() != "lawyer"@.len());
    assert("protected-subject"@.len() != "journalist"@.len());
    assert("protected-subject"@.len() != "public-official"@.len());
    assert("protected-subject"@.len() != "public-audience"@.len());
    assert("protected-subject"@.len() != "regulator"@.len());
    assert("protected-subject"@.len() != "researcher"@.len());
    assert("protected-subject"@.len() != "other"@.len());
    assert("support-operator"@.len() != "clinician"@.len());
    assert("support-operator"@.len() != "advocate"@.len());
    assert("support-operator"@.len() != "lawyer"@.len());
    assert("support-operator"@.len() != "journalist"@.len());
    assert("support-operator"@.len() != "public-official"@.len());
    assert("support-operator"@.len() != "public-audience"@.len());
    assert("support-operator"@.len() != "regulator"@.len());
    assert("support-operator"@.len() != "researcher"@.len());
    assert("support-operator"@.len() != "other"@.len());
    assert("clinician"@.len() != "advocate"@.len());
    assert("clinician"@.len() != "lawyer"@.len());
    assert("clinician"@.len() != "journalist"@.len());
    assert("clinician"@.len() != "public-official"@.len());
    assert("clinician"@.len() != "public-audience"@.len());
    assert("clinician"@[0] != "regulator"@[0]);
    assert("clinician"@.len() != "researcher"@.len());
    assert("clinician"@.len() != "other"@.len());
    assert("advocate"@.len() != "lawyer"@.len());
    assert("advocate"@.len() != "journalist"@.len());
    assert("advocate"@.len() != "public-official"@.len());
    assert("advocate"@.len() != "public-audience"@.len());
    assert("advocate"@.len() != "regulator"@.len());
    assert("advocate"@.len() != "researcher"@.len());
    assert("advocate"@.len() != "other"@.len());
    assert("lawyer"@.len() != "journalist"@.len());
    assert("lawyer"@.len() != "public-official"@.len());
    assert("lawyer"@.len() != "public-audience"@.len());
    assert("lawyer"@.len() != "regulator"@.len());
    assert("lawyer"@.len() != "researcher"@.len());
    assert("lawyer"@.len() != "other"@.len());
    assert("journalist"@.len() != "public-official"@.len());
    assert("journalist"@.len() != "public-audience"@.len());
    assert("journalist"@.len() != "regulator"@.len());
    assert("journalist"@[0] != "researcher"@[0]);
    assert("journalist"@.len() != "other"@.len());
    assert("public-official"@[7] != "public-audience"@[7]);
    assert("public-official"@.len() != "regulator"@.len());
    assert("public-official"@.len() != "researcher"@.len());
    assert("public-official"@.len() != "other"@.len());
    assert("public-audience"@.len() != "regulator"@.len());
    assert("public-audience"@.len() != "researcher"@.len());
    assert("public-audience"@.len() != "other"@.len());
    assert("regulator"@.len() != "researcher"@.len());
    assert("regulator"@.len() != "other"@.len());
    assert("researcher"@.len() != "other"@.len());
    if role_of(s) is Some {
        let v = role_of(s)->Some_0;
        assert(s == role_name(v));
    } else {
        assert forall|v: MatterConsumerRole| s != #[trigger] role_name(v) by {
            if s == role_name(v) {
                assert(role_of(role_name(v)) is Some);
            }
        }
    }
    match w {
        MatterConsumerRole::ProtectedSubject => assert(role_of(role_name(MatterConsumerRole::ProtectedSubject)) == Some(MatterConsumerRole::ProtectedSubject)),
        MatterConsumerRole::SupportOperator => assert(role_of(role_name(MatterConsumerRole::SupportOperator)) == Some(MatterConsumerRole::SupportOperator)),
        MatterConsumerRole::Clinician => assert(role_of(role_name(MatterConsumerRole::Clinician)) == Some(MatterConsumerRole::Clinician)),
        MatterConsumerRole::Advocate => assert(role_of(role_name(MatterConsumerRole::Advocate)) == Some(MatterConsumerRole::Advocate)),
        MatterConsumerRole::Lawyer => assert(role_of(role_name(MatterConsumerRole::Lawyer)) == Some(MatterConsumerRole::Lawyer)),
        MatterConsumerRole::Journalist => assert(role_of(role_name(MatterConsumerRole::Journalist)) == Some(MatterConsumerRole::Journalist)),
        MatterConsumerRole::PublicOfficial => assert(role_of(role_name(MatterConsumerRole::PublicOfficial)) == Some(MatterConsumerRole::PublicOfficial)),
        MatterConsumerRole::PublicAudience => assert(role_of(role_name(MatterConsumerRole::PublicAudience)) == Some(MatterConsumerRole::PublicAudience)),
        MatterConsumerRole::Regulator => assert(role_of(role_name(MatterConsumerRole::Regulator)) == Some(MatterConsumerRole::Regulator)),
        MatterConsumerRole::Researcher => assert(role_of(role_name(MatterConsumerRole::Researcher)) == Some(MatterConsumerRole::Researcher)),
        MatterConsumerRole::Other => assert(role_of(role_name(MatterConsumerRole::Other)) == Some(MatterConsumerRole::Other)),
    }
}

/// The manifest word of each purpose, in kebab case.
pub open spec fn purpose_name(w: MatterPurpose) -> Seq<char> {
    match w {
        MatterPurpose::PersonalReview => "personal-review"@,
        MatterPurpose::CarePlanning => "care-planning"@,
        MatterPurpose::LegalAdvocacy => "legal-advocacy"@,
        MatterPurpose::AffidavitPreparation => "affidavit-preparation"@,
        MatterPurpose::LegalResearch => "legal-research"@,
        MatterPurpose::JournalisticVerification => "journalistic-verification"@,
        MatterPurpose::PublicAdministrationReview => "public-administration-review"@,
        MatterPurpose::RegulatoryReview => "regulatory-review"@,
        MatterPurpose::ResearchPublication => "research-publication"@,
        MatterPurpose::HandoffPreparation => "handoff-preparation"@,
        MatterPurpose::Other => "other"@,
    }
}

/// A manifest names a purpose by its word and by nothing else: reading a text
/// gives a purpose exactly when the text is that purpose's word.
pub proof fn lemma_purpose_words(s: Seq<char>, w: MatterPurpose)
    ensures
        purpose_of(s) == Some(w) <==> s == purpose_name(w),
        purpose_of(s) is None <==> forall|v: MatterPurpose| s != #[trigger] purpose_name(v),
{
    reveal_strlit("personal-review");
    reveal_strlit("care-planning");
    reveal_strlit("legal-advocacy");
    reveal_strlit("affidavit-preparation");
    reveal_strlit("legal-research");
    reveal_strlit("journalistic-verification");
    reveal_strlit("public-administration-review");
    reveal_strlit("regulatory-review");
    reveal_strlit("research-publication");
    reveal_strlit("handoff-preparation");
    reveal_strlit("other");
    assert("personal-review"@.len() != "care-planning"@.len());
    assert("personal-review"@.len() != "legal-advocacy"@.len());
    assert("personal-review"@.len() != "affidavit-preparation"@.len());
    assert("personal-review"@.len() != "legal-research"@.len());
    assert("personal-review"@.len() != "journalistic-verification"@.len());
    assert("personal-review"@.len() != "public-administration-review"@.len());
    assert("personal-review"@.len() != "regulatory-review"@.len());
    assert("personal-review"@.len() != "research-publication"@.len());
    assert("personal-review"@.len() != "handoff-preparation"@.len());
    assert("personal-review"@.len() != "other"@.len());
    assert("care-planning"@.len() != "legal-advocacy"@.len());
    assert("care-planning"@.len() != "affidavit-preparation"@.len());
    assert("care-planning"@.len() != "legal-research"@.len());
    assert("care-planning"@.len() != "journalistic-verification"@.len());
    assert("care-planning"@.len() != "public-administration-review"@.len());
    assert("care-planning"@.len() != "regulatory-review"@.len());
    assert("care-planning"@.len() != "research-publication"@.len());
    assert("care-planning"@.len() != "handoff-preparation"@.len());
    assert("care-planning"@.len() != "other"@.len());
    assert("legal-advocacy"@.len() != "affidavit-preparation"@.len());
    assert("legal-advocacy"@[6] != "legal-research"@[6]);
    assert("legal-advocacy"@.len() != "journalistic-verification"@.len());
    assert("legal-advocacy"@.len() != "public-administration-review"@.len());
    assert("legal-advocacy"@.len() != "regulatory-review"@.len());
    assert("legal-advocacy"@.len() != "research-publication"@.len());
    assert("legal-advocacy"@.len() != "handoff-preparation"@.len());
    assert("legal-advocacy"@.len() != "other"@.len());
    assert("affidavit-preparation"@.len() != "legal-research"@.len());
    assert("affidavit-preparation"@.len() != "journalistic-verification"@.len());
    assert("affidavit-preparation"@.len() != "public-administration-review"@.len());
    assert("affidavit-preparation"@.len() != "regulatory-review"@.len());
    assert("affidavit-preparation"@.len() != "research-publication"@.len());
    assert("affidavit-preparation"@.len() != "handoff-preparation"@.len());
    assert("affidavit-preparation"@.len() != "other"@.len());
    assert("legal-research"@.len() != "journalistic-verification"@.len());
    assert("legal-research"@.len() != "public-administration-review"@.len());
    assert("legal-research"@.len() != "regulatory-review"@.len());
    assert("legal-research"@.len() != "research-publication"@.len());
    assert("legal-research"@.len() != "handoff-preparation"@.len());
    assert("legal-research"@.len() != "other"@.len());
    assert("journalistic-verification"@.len() != "public-administration-review"@.len());
    assert("journalistic-verification"@.len() != "regulatory-review"@.len());
    assert("journalistic-verification"@.len() != "research-publication"@.len());
    assert("journalistic-verification"@.len() != "handoff-preparation"@.len());
    assert("journalistic-verification"@.len() != "other"@.len());
    assert("public-administration-review"@.len() != "regulatory-review"@.len());
    assert("public-administration-review"@.len() != "research-publication"@.len());
    assert("public-administration-review"@.len() != "handoff-preparation"@.len());
    assert("public-administration-review"@.len() != "other"@.len());
    assert("regulatory-review"@.len() != "research-publication"@.len());
    assert("regulatory-review"@.len() != "handoff-preparation"@.len());
    assert("regulatory-review"@.len() != "other"@.len());
    assert("research-publication"@.len() != "handoff-preparation"@.len());
    assert("research-publication"@.len() != "other"@.len());
    assert("handoff-preparation"@.len() != "other"@.len());
    if purpose_of(s) is Some {
        let v = purpose_of(s)->Some_0;
        assert(s == purpose_name(v));
    } else {
        assert forall|v: MatterPurpose| s != #[trigger] purpose_name(v) by {
            if s == purpose_name(v) {
                assert(purpose_of(purpose_name(v)) is Some);
            }
        }
    }
    match w {
        MatterPurpose::PersonalReview => assert(purpose_of(purpose_name(MatterPurpose::PersonalReview)) == Some(MatterPurpose::PersonalReview)),
        MatterPurpose::CarePlanning => assert(purpose_of(purpose_name(MatterPurpose::CarePlanning)) == Some(MatterPurpose::CarePlanning)),
        MatterPurpose::LegalAdvocacy => assert(purpose_of(purpose_name(MatterPurpose::LegalAdvocacy)) == Some(MatterPurpose::LegalAdvocacy)),
        MatterPurpose::AffidavitPreparation => assert(purpose_of(purpose_name(MatterPurpose::AffidavitPreparation)) == Some(MatterPurpose::AffidavitPreparation)),
        MatterPurpose::LegalResearch => assert(purpose_of(purpose_name(MatterPurpose::LegalResearch)) == Some(MatterPurpose::LegalResearch)),
        MatterPurpose::JournalisticVerification => assert(purpose_of(purpose_name(MatterPurpose::JournalisticVerification)) == Some(MatterPurpose::JournalisticVerification)),
        MatterPurpose::PublicAdministrationReview => assert(purpose_of(purpose_name(MatterPurpose::PublicAdministrationReview)) == Some(MatterPurpose::PublicAdministrationReview)),
        MatterPurpose::RegulatoryReview => assert(purpose_of(purpose_name(MatterPurpose::RegulatoryReview)) == Some(MatterPurpose::RegulatoryReview)),
        MatterPurpose::ResearchPublication => assert(purpose_of(purpose_name(MatterPurpose::ResearchPublication)) == Some(MatterPurpose::ResearchPublication)),
        MatterPurpose::HandoffPreparation => assert(purpose_of(purpose_name(MatterPurpose::HandoffPreparation)) == Some(MatterPurpose::HandoffPreparation)),
        MatterPurpose::Other => assert(purpose_of(purpose_name(MatterPurpose::Other)) == Some(MatterPurpose::Other)),
    }
}

/// The manifest word of each disclosure boundary, in kebab case.
pub open spec fn boundary_name(w: DisclosureBoundary) -> Seq<char> {
    match w {
        DisclosureBoundary::MatterInternal => "matter-internal"@,
        DisclosureBoundary::RoleScoped => "role-scoped"@,
        DisclosureBoundary::RecipientScoped => "recipient-scoped"@,
        DisclosureBoundary::MetadataOnly => "metadata-only"@,
        DisclosureBoundary::PublicProjection => "public-projection"@,
        DisclosureBoundary::ProtectedDisclosure => "protected-disclosure"@,
    }
}

/// A manifest names a disclosure boundary by its word and by nothing else: reading a text
/// gives a disclosure boundary exactly when the text is that disclosure boundary's word.
pub proof fn lemma_boundary_words(s: Seq<char>, w: DisclosureBoundary)
    ensures
        boundary_of(s) == Some(w) <==> s == boundary_name(w),
        boundary_of(s) is None <==> forall|v: DisclosureBoundary| s != #[trigger] boundary_name(v),
{
    reveal_strlit("matter-internal");
    reveal_strlit("role-scoped");
    reveal_strlit("recipient-scoped");
    reveal_strlit("metadata-only");
    reveal_strlit("public-projection");
    reveal_strlit("protected-disclosure");
    assert("matter-internal"@.len() != "role-scoped"@.len());
    assert("matter-internal"@.len() != "recipient-scoped"@.len());
    assert("matter-internal"@.len() != "metadata-only"@.len());
    assert("matter-internal"@.len() != "public-projection"@.len());
    assert("matter-internal"@.len() != "protected-disclosure"@.len());
    assert("role-scoped"@.len() != "recipient-scoped"@.len());
    assert("role-scoped"@.len() != "metadata-only"@.len());
    assert("role-scoped"@.len() != "public-projection"@.len());
    assert("role-scoped"@.len() != "protected-disclosure"@.len());
    assert("recipient-scoped"@.len() != "metadata-only"@.len());
    assert("recipient-scoped"@.len() != "public-projection"@.len());
    assert("recipient-scoped"@.len() != "protected-disclosure"@.len());
    assert("metadata-only"@.len() != "public-projection"@.len());
    assert("metadata-only"@.len() != "protected-disclosure"@.len());
    assert("public-projection"@.len() != "protected-disclosure"@.len());
    if boundary_of(s) is Some {
        let v = boundary_of(s)->Some_0;
        assert(s == boundary_name(v));
    } else {
        assert forall|v: DisclosureBoundary| s != #[trigger] boundary_name(v) by {
            if s == boundary_name(v) {
                assert(boundary_of(boundary_name(v)) is Some);
            }
        }
    }
    match w {
        DisclosureBoundary::MatterInternal => assert(boundary_of(boundary_name(DisclosureBoundary::MatterInternal)) == Some(DisclosureBoundary::MatterInternal)),
        DisclosureBoundary::RoleScoped => assert(boundary_of(boundary_name(DisclosureBoundary::RoleScoped)) == Some(DisclosureBoundary::RoleScoped)),
        DisclosureBoundary::RecipientScoped => assert(boundary_of(boundary_name(DisclosureBoundary::RecipientScoped)) == Some(DisclosureBoundary::RecipientScoped)),
        DisclosureBoundary::MetadataOnly => assert(boundary_of(boundary_name(DisclosureBoundary::MetadataOnly)) == Some(DisclosureBoundary::MetadataOnly)),
        DisclosureBoundary::PublicProjection => assert(boundary_of(boundary_name(DisclosureBoundary::PublicProjection)) == Some(DisclosureBoundary::PublicProjection)),
        DisclosureBoundary::ProtectedDisclosure => assert(boundary_of(boundary_name(DisclosureBoundary::ProtectedDisclosure)) == Some(DisclosureBoundary::ProtectedDisclosure)),
    }
}

/// The manifest word of each acceptance role, in kebab case.
pub open spec fn acceptance_role_name(w: MatterAcceptanceSemanticRole) -> Seq<char> {
    match w {
        MatterAcceptanceSemanticRole::PartyAssertion => "party-assertion"@,
        MatterAcceptanceSemanticRole::ProceduralOutcome => "procedural-outcome"@,
        MatterAcceptanceSemanticRole::LaterAnnotation => "later-annotation"@,
    }
}

/// A manifest names a acceptance role by its word and by nothing else: reading a text
/// gives a acceptance role exactly when the text is that acceptance role's word.
pub proof fn lemma_acceptance_role_words(s: Seq<char>, w: MatterAcceptanceSemanticRole)
    ensures
        acceptance_role_of(s) == Some(w) <==> s == acceptance_role_name(w),
        acceptance_role_of(s) is None <==> forall|v: MatterAcceptanceSemanticRole| s != #[trigger] acceptance_role_name(v),
{
    reveal_strlit("party-assertion");
    reveal_strlit("procedural-outcome");
    reveal_strlit("later-annotation");
    assert("party-assertion"@.len() != "procedural-outcome"@.len());
    assert("party-assertion"@.len() != "later-annotation"@.len());
    assert("procedural-outcome"@.len() != "later-annotation"@.len());
    if acceptance_role_of(s) is Some {
        let v = acceptance_role_of(s)->Some_0;
        assert(s == acceptance_role_name(v));
    } else {
        assert forall|v: MatterAcceptanceSemanticRole| s != #[trigger] acceptance_role_name(v) by {
            if s == acceptance_role_name(v) {
                assert(acceptance_role_of(acceptance_role_name(v)) is Some);
            }
        }
    }
    match w {
        MatterAcceptanceSemanticRole::PartyAssertion => assert(acceptance_role_of(acceptance_role_name(MatterAcceptanceSemanticRole::PartyAssertion)) == Some(MatterAcceptanceSemanticRole::PartyAssertion)),
        MatterAcceptanceSemanticRole::ProceduralOutcome => assert(acceptance_role_of(acceptance_role_name(MatterAcceptanceSemanticRole::ProceduralOutcome)) == Some(MatterAcceptanceSemanticRole::ProceduralOutcome)),
        MatterAcceptanceSemanticRole::LaterAnnotation => assert(acceptance_role_of(acceptance_role_name(MatterAcceptanceSemanticRole::LaterAnnotation)) == Some(MatterAcceptanceSemanticRole::LaterAnnotation)),
    }
}

/// The manifest word of each knowledge-cut membership, in kebab case.
pub open spec fn membership_name(w: KnowledgeCutMembership) -> Seq<char> {
    match w {
        KnowledgeCutMembership::KnownAtCut => "known-at-cut"@,
        KnowledgeCutMembership::KnownAfterCut => "known-after-cut"@,
        KnowledgeCutMembership::UnknownAtCut => "unknown-at-cut"@,
        KnowledgeCutMembership::NotApplicable => "not-applicable"@,
    }
}

/// A manifest names a knowledge-cut membership by its word and by nothing else: reading a text
/// gives a knowledge-cut membership exactly when the text is that knowledge-cut membership's word.
pub proof fn lemma_membership_words(s: Seq<char>, w: KnowledgeCutMembership)
    ensures
        membership_of(s) == Some(w) <==> s == membership_name(w),
        membership_of(s) is None <==> forall|v: KnowledgeCutMembership| s != #[trigger] membership_name(v),
{
    reveal_strlit("known-at-cut");
    reveal_strlit("known-after-cut");
    reveal_strlit("unknown-at-cut");
    reveal_strlit("not-applicable");
    assert("known-at-cut"@.len() != "known-after-cut"@.len());
    assert("known-at-cut"@.len() != "unknown-at-cut"@.len());
    assert("known-at-cut"@.len() != "not-applicable"@.len());
    assert("known-after-cut"@.len() != "unknown-at-cut"@.len());
    assert("known-after-cut"@.len() != "not-applicable"@.len());
    assert("unknown-at-cut"@[0] != "not-applicable"@[0]);
    if membership_of(s) is Some {
        let v = membership_of(s)->Some_0;
        assert(s == membership_name(v));
    } else {
        assert forall|v: KnowledgeCutMembership| s != #[trigger] membership_name(v) by {
            if s == membership_name(v) {
                assert(membership_of(membership_name(v)) is Some);
            }
        }
    }
    match w {
        KnowledgeCutMembership::KnownAtCut => assert(membership_of(membership_name(KnowledgeCutMembership::KnownAtCut)) == Some(KnowledgeCutMembership::KnownAtCut)),
        KnowledgeCutMembership::KnownAfterCut => assert(membership_of(membership_name(KnowledgeCutMembership::KnownAfterCut)) == Some(KnowledgeCutMembership::KnownAfterCut)),
        KnowledgeCutMembership::UnknownAtCut => assert(membership_of(membership_name(KnowledgeCutMembership::UnknownAtCut)) == Some(KnowledgeCutMembership::UnknownAtCut)),
        KnowledgeCutMembership::NotApplicable => assert(membership_of(membership_name(KnowledgeCutMembership::NotApplicable)) == Some(KnowledgeCutMembership::NotApplicable)),
    }
}

} // verus!
