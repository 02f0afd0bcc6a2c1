//! Work-product coverage: the matter runtime's forward judgments (is each
//! proposition of a work product supported by the matter?) and reverse judgments
//! (is each matter proposition represented in the product?), refused if they cross
//! the semantic or product boundary, and tallied by status.
//!
//! The judgments are held as the plain values the workspace reads.
use vstd::prelude::*;

use crate::refs::{compare_refs, RefOrder};

verus! {

#[derive(Debug, Clone, Copy, PartialEq, Eq, Structural)]
pub enum ForwardCoverageStatus {
    Supported,
    Qualified,
    Contradicted,
    Unreviewed,
    Unsupported,
}

#[derive(Debug, Clone, Copy, PartialEq, Eq, Structural)]
pub enum ReverseCoverageStatus {
    Represented,
    PossiblyOmitted,
    ExcludedByScope,
    NotExpectedForProduct,
    UnreviewedForOmission,
}

/// How one proposition occurrence of the work product is covered by the matter.
#[derive(Debug, Clone, PartialEq, Eq)]
pub struct WorkProductCoverageJudgment {
    pub occurrence_ref: String,
    pub status: ForwardCoverageStatus,
}

/// Whether one matter proposition is represented in the work product.
#[derive(Debug, Clone, PartialEq, Eq)]
pub struct MatterOmissionJudgment {
    pub matter_proposition_ref: String,
    pub status: ReverseCoverageStatus,
}

/// The runtime's coverage projection, with the boundary flags it declares.
#[derive(Debug, Clone, PartialEq, Eq)]
pub struct WorkProductCoverageProjection {
    pub forward: Vec<WorkProductCoverageJudgment>,
    pub reverse: Vec<MatterOmissionJudgment>,
    pub creates_semantic_authority: bool,
    pub applicability_promoted: bool,
    pub claim_truth_promoted: bool,
    pub canonical_world_mutated: bool,
    pub supported_implies_legal_sufficiency: bool,
    pub contradicted_implies_false: bool,
    pub unsupported_implies_false: bool,
    pub omission_implies_should_include: bool,
    pub redaction_deletes_canonical_source: bool,
}

#[derive(Debug, Clone, PartialEq, Eq)]
pub struct WorkProductCoverageWorkspace {
    pub projection: WorkProductCoverageProjection,
    pub forward_supported_count: usize,
    pub forward_qualified_count: usize,
    pub forward_contradicted_count: usize,
    pub forward_unreviewed_count: usize,
    pub forward_unsupported_count: usize,
    pub reverse_represented_count: usize,
    pub reverse_possibly_omitted_count: usize,
    pub reverse_excluded_by_scope_count: usize,
    pub reverse_not_expected_count: usize,
    pub reverse_unreviewed_count: usize,
}

/// A projection that claims authority, truth, applicability or sufficiency, reads
/// a status as falsity or as a duty to include, mutates the world or deletes a source.
pub open spec fn crosses_boundary(p: WorkProductCoverageProjection) -> bool {
    p.creates_semantic_authority || p.applicability_promoted || p.claim_truth_promoted || p.canonical_world_mutated
        || p.supported_implies_legal_sufficiency || p.contradicted_implies_false || p.unsupported_implies_false
        || p.omission_implies_should_include || p.redaction_deletes_canonical_source
}

pub open spec fn boundary_message() -> Seq<char> {
    "work-product coverage crossed semantic/product boundary"@
}

/// How many forward judgments have status `s`.
pub open spec fn forward_count(items: Seq<WorkProductCoverageJudgment>, s: ForwardCoverageStatus) -> nat
    decreases items.len(),
{
    if items.len() == 0 {
        0
    } else {
        forward_count(items.drop_last(), s) + if items.last().status == s { 1nat } else { 0nat }
    }
}

/// How many reverse judgments have status `s`.
pub open spec fn reverse_count(items: Seq<MatterOmissionJudgment>, s: ReverseCoverageStatus) -> nat
    decreases items.len(),
{
    if items.len() == 0 {
        0
    } else {
        reverse_count(items.drop_last(), s) + if items.last().status == s { 1nat } else { 0nat }
    }
}

proof fn lemma_forward_count_bound(items: Seq<WorkProductCoverageJudgment>, s: ForwardCoverageStatus)
    ensures
        forward_count(items, s) <= items.len(),
    decreases items.len(),
{
    if items.len() > 0 {
        lemma_forward_count_bound(items.drop_last(), s);
    }
}

proof fn lemma_reverse_count_bound(items: Seq<MatterOmissionJudgment>, s: ReverseCoverageStatus)
    ensures
        reverse_count(items, s) <= items.len(),
    decreases items.len(),
{
    if items.len() > 0 {
        lemma_reverse_count_bound(items.drop_last(), s);
    }
}

/// The tallies of a workspace are the status counts of its own judgments.
pub open spec fn tallied(w: WorkProductCoverageWorkspace) -> bool {
    let f = w.projection.forward@;
    let r = w.projection.reverse@;
    &&& w.forward_supported_count == forward_count(f, ForwardCoverageStatus::Supported)
    &&& w.forward_qualified_count == forward_count(f, ForwardCoverageStatus::Qualified)
    &&& w.forward_contradicted_count == forward_count(f, ForwardCoverageStatus::Contradicted)
    &&& w.forward_unreviewed_count == forward_count(f, ForwardCoverageStatus::Unreviewed)
    &&& w.forward_unsupported_count == forward_count(f, ForwardCoverageStatus::Unsupported)
    &&& w.reverse_represented_count == reverse_count(r, ReverseCoverageStatus::Represented)
    &&& w.reverse_possibly_omitted_count == reverse_count(r, ReverseCoverageStatus::PossiblyOmitted)
    &&& w.reverse_excluded_by_scope_count == reverse_count(r, ReverseCoverageStatus::ExcludedByScope)
    &&& w.reverse_not_expected_count == reverse_count(r, ReverseCoverageStatus::NotExpectedForProduct)
    &&& w.reverse_unreviewed_count == reverse_count(r, ReverseCoverageStatus::UnreviewedForOmission)
}

/// The coverage workspace over a runtime projection: refused if the projection
/// crosses the boundary, else the projection with its judgments tallied by status.
pub fn coverage_workspace_from_projection(projection: WorkProductCoverageProjection) -> (r: Result<
    WorkProductCoverageWorkspace,
    String,
>)
    ensures
        match r {
            Ok(w) => !crosses_boundary(projection) && w.projection == projection && tallied(w),
            Err(e) => crosses_boundary(projection) && e@ == boundary_message(),
        },
{
    if projection.creates_semantic_authority || projection.applicability_promoted || projection.claim_truth_promoted
        || projection.canonical_world_mutated || projection.supported_implies_legal_sufficiency
        || projection.contradicted_implies_false || projection.unsupported_implies_false
        || projection.omission_implies_should_include || projection.redaction_deletes_canonical_source {
        return Err(String::from_str("work-product coverage crossed semantic/product boundary"));
    }
    let ghost f = projection.forward@;
    let ghost rv = projection.reverse@;
    let mut counts: [usize; 5] = [0, 0, 0, 0, 0];
    let mut i: usize = 0;
    while i < projection.forward.len()
        invariant
            i <= f.len(),
            f == projection.forward@,
            counts@[0] == forward_count(f.subrange(0, i as int), ForwardCoverageStatus::Supported),
            counts@[1] == forward_count(f.subrange(0, i as int), ForwardCoverageStatus::Qualified),
            counts@[2] == forward_count(f.subrange(0, i as int), ForwardCoverageStatus::Contradicted),
            counts@[3] == forward_count(f.subrange(0, i as int), ForwardCoverageStatus::Unreviewed),
            counts@[4] == forward_count(f.subrange(0, i as int), ForwardCoverageStatus::Unsupported),
            counts@.len() == 5,
        decreases f.len() - i,
    {
        let ghost p = f.subrange(0, i + 1);
        assert(p.drop_last() =~= f.subrange(0, i as int));
        proof {
            lemma_forward_count_bound(f.subrange(0, i as int), ForwardCoverageStatus::Supported);
            lemma_forward_count_bound(f.subrange(0, i as int), ForwardCoverageStatus::Qualified);
            lemma_forward_count_bound(f.subrange(0, i as int), ForwardCoverageStatus::Contradicted);
            lemma_forward_count_bound(f.subrange(0, i as int), ForwardCoverageStatus::Unreviewed);
            lemma_forward_count_bound(f.subrange(0, i as int), ForwardCoverageStatus::Unsupported);
        }
        let k: usize = match projection.forward[i].status {
            ForwardCoverageStatus::Supported => 0,
            ForwardCoverageStatus::Qualified => 1,
            ForwardCoverageStatus::Contradicted => 2,
            ForwardCoverageStatus::Unreviewed => 3,
            ForwardCoverageStatus::Unsupported => 4,
        };
        counts.set(k, counts[k] + 1);
        i = i + 1;
    }
    assert(f.subrange(0, i as int) =~= f);
    let mut back: [usize; 5] = [0, 0, 0, 0, 0];
    let mut j: usize = 0;
    while j < projection.reverse.len()
        invariant
            j <= rv.len(),
            rv == projection.reverse@,
            back@[0] == reverse_count(rv.subrange(0, j as int), ReverseCoverageStatus::Represented),
            back@[1] == reverse_count(rv.subrange(0, j as int), ReverseCoverageStatus::PossiblyOmitted),
            back@[2] == reverse_count(rv.subrange(0, j as int), ReverseCoverageStatus::ExcludedByScope),
            back@[3] == reverse_count(rv.subrange(0, j as int), ReverseCoverageStatus::NotExpectedForProduct),
            back@[4] == reverse_count(rv.subrange(0, j as int), ReverseCoverageStatus::UnreviewedForOmission),
            back@.len() == 5,
        decreases rv.len() - j,
    {
        let ghost p = rv.subrange(0, j + 1);
        assert(p.drop_last() =~= rv.subrange(0, j as int));
        proof {
            lemma_reverse_count_bound(rv.subrange(0, j as int), ReverseCoverageStatus::Represented);
            lemma_reverse_count_bound(rv.subrange(0, j as int), ReverseCoverageStatus::PossiblyOmitted);
            lemma_reverse_count_bound(rv.subrange(0, j as int), ReverseCoverageStatus::ExcludedByScope);
            lemma_reverse_count_bound(rv.subrange(0, j as int), ReverseCoverageStatus::NotExpectedForProduct);
            lemma_reverse_count_bound(rv.subrange(0, j as int), ReverseCoverageStatus::UnreviewedForOmission);
        }
        let k: usize = match projection.reverse[j].status {
            ReverseCoverageStatus::Represented => 0,
            ReverseCoverageStatus::PossiblyOmitted => 1,
            ReverseCoverageStatus::ExcludedByScope => 2,
            ReverseCoverageStatus::NotExpectedForProduct => 3,
            ReverseCoverageStatus::UnreviewedForOmission => 4,
        };
        back.set(k, back[k] + 1);
        j = j + 1;
    }
    assert(rv.subrange(0, j as int) =~= rv);
    Ok(
        WorkProductCoverageWorkspace {
            projection,
            forward_supported_count: counts[0],
            forward_qualified_count: counts[1],
            forward_contradicted_count: counts[2],
            forward_unreviewed_count: counts[3],
            forward_unsupported_count: counts[4],
            reverse_represented_count: back[0],
            reverse_possibly_omitted_count: back[1],
            reverse_excluded_by_scope_count: back[2],
            reverse_not_expected_count: back[3],
            reverse_unreviewed_count: back[4],
        },
    )
}

/// The first forward judgment of `items` about occurrence `r`.
pub open spec fn first_forward(items: Seq<WorkProductCoverageJudgment>, r: Seq<char>) -> Option<WorkProductCoverageJudgment>
    decreases items.len(),
{
    if items.len() == 0 {
        None
    } else if items[0].occurrence_ref@ == r {
        Some(items[0])
    } else {
        first_forward(items.drop_first(), r)
    }
}

/// The first reverse judgment of `items` about matter proposition `r`.
pub open spec fn first_reverse(items: Seq<MatterOmissionJudgment>, r: Seq<char>) -> Option<MatterOmissionJudgment>
    decreases items.len(),
{
    if items.len() == 0 {
        None
    } else if items[0].matter_proposition_ref@ == r {
        Some(items[0])
    } else {
        first_reverse(items.drop_first(), r)
    }
}

impl WorkProductCoverageWorkspace {
    /// The forward judgment about an occurrence of the work product.
    pub fn forward_for_occurrence(&self, occurrence_ref: &str) -> (j: Option<&WorkProductCoverageJudgment>)
        ensures
            match j {
                Some(j) => first_forward(self.projection.forward@, occurrence_ref@) == Some(*j),
                None => first_forward(self.projection.forward@, occurrence_ref@) is None,
            },
    {
        let items = &self.projection.forward;
        let ghost all = items@;
        let mut i: usize = 0;
        assert(all.subrange(0, all.len() as int) =~= all);
        while i < items.len()
            invariant
                i <= all.len(),
                all == items@,
                all == self.projection.forward@,
                first_forward(all, occurrence_ref@) == first_forward(all.subrange(i as int, all.len() as int), occurrence_ref@),
            decreases all.len() - i,
        {
            let ghost rest = all.subrange(i as int, all.len() as int);
            assert(rest[0] == all[i as int]);
            if compare_refs(items[i].occurrence_ref.as_str(), occurrence_ref) == RefOrder::Same {
                return Some(&items[i]);
            }
            assert(rest.drop_first() =~= all.subrange(i + 1, all.len() as int));
            i = i + 1;
        }
        None
    }

    /// The reverse judgment about a matter proposition.
    pub fn reverse_for_proposition(&self, proposition_ref: &str) -> (j: Option<&MatterOmissionJudgment>)
        ensures
            match j {
                Some(j) => first_reverse(self.projection.reverse@, proposition_ref@) == Some(*j),
                None => first_reverse(self.projection.reverse@, proposition_ref@) is None,
            },
    {
        let items = &self.projection.reverse;
        let ghost all = items@;
        let mut i: usize = 0;
        assert(all.subrange(0, all.len() as int) =~= all);
        while i < items.len()
            invariant
                i <= all.len(),
                all == items@,
                all == self.projection.reverse@,
                first_reverse(all, proposition_ref@) == first_reverse(all.subrange(i as int, all.len() as int), proposition_ref@),
            decreases all.len() - i,
        {
            let ghost rest = all.subrange(i as int, all.len() as int);
            assert(rest[0] == all[i as int]);
            if compare_refs(items[i].matter_proposition_ref.as_str(), proposition_ref) == RefOrder::Same {
                return Some(&items[i]);
            }
            assert(rest.drop_first() =~= all.subrange(i + 1, all.len() as int));
            i = i + 1;
        }
        None
    }
}

} // verus!
