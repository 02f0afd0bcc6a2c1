//! Source-ingest coverage: how a lossless bulk compilation of a source revision
//! accounts for its regions, and the long-document read model that pairs it with
//! the structural segmentation of the same revision.
//!
//! The compilation and the segmentation receipt are held as the plain values the
//! read models read; whether the compilation covers its source completely is the
//! compiler's own verdict, carried as a value.
use vstd::prelude::*;

use crate::refs::{compare_refs, RefOrder};

verus! {

/// A lossless bulk compilation of one source revision.
#[derive(Debug, Clone, PartialEq, Eq)]
pub struct LosslessBulkSourceCompilation {
    pub source_ref: String,
    pub source_revision_ref: String,
    pub exact_region_count: usize,
    pub semantic_candidate_region_count: usize,
    pub compiled_statement_count: usize,
    /// The regions the parser could not compile, by their references.
    pub residual_region_refs: Vec<String>,
    pub candidate_pnf_count: usize,
    pub source_region_accounted_count: usize,
    pub source_region_loss_count: usize,
    /// The compiler's verdict that every source region is accounted for.
    pub source_coverage_complete: bool,
    pub candidate_only: bool,
    pub creates_semantic_authority: bool,
    pub claim_truth_promoted: bool,
    pub parse_failure_deletes_source: bool,
}

/// The structural segmentation receipt of one source revision.
#[derive(Debug, Clone, PartialEq, Eq)]
pub struct PlainTextSegmentationReceipt {
    pub source_ref: String,
    pub source_revision_ref: String,
}

#[derive(Debug, Clone, PartialEq, Eq)]
pub struct SourceIngestCoverageReadModel {
    pub source_ref: String,
    pub source_revision_ref: String,
    pub structural_region_count: usize,
    pub semantic_candidate_region_count: usize,
    pub compiled_statement_count: usize,
    pub parser_residual_count: usize,
    pub candidate_pnf_count: usize,
    pub source_region_accounted_count: usize,
    pub source_region_loss_count: usize,
    pub source_coverage_complete: bool,
    pub candidate_only: bool,
    pub creates_semantic_authority: bool,
    pub claim_truth_promoted: bool,
    pub parse_failure_deletes_source: bool,
}

#[derive(Debug, Clone, PartialEq, Eq)]
pub struct LongDocumentIngestReadModel {
    pub structural: PlainTextSegmentationReceipt,
    pub coverage: SourceIngestCoverageReadModel,
}

/// The coverage read model carries the compilation's counts and flags as they are;
/// a parse failure counts as a residual, apart from source loss.
pub open spec fn coverage_of(b: LosslessBulkSourceCompilation, m: SourceIngestCoverageReadModel) -> bool {
    &&& m.source_ref@ == b.source_ref@
    &&& m.source_revision_ref@ == b.source_revision_ref@
    &&& m.structural_region_count == b.exact_region_count
    &&& m.semantic_candidate_region_count == b.semantic_candidate_region_count
    &&& m.compiled_statement_count == b.compiled_statement_count
    &&& m.parser_residual_count == b.residual_region_refs@.len()
    &&& m.candidate_pnf_count == b.candidate_pnf_count
    &&& m.source_region_accounted_count == b.source_region_accounted_count
    &&& m.source_region_loss_count == b.source_region_loss_count
    &&& m.source_coverage_complete == b.source_coverage_complete
    &&& m.candidate_only == b.candidate_only
    &&& m.creates_semantic_authority == b.creates_semantic_authority
    &&& m.claim_truth_promoted == b.claim_truth_promoted
    &&& m.parse_failure_deletes_source == b.parse_failure_deletes_source
}

pub fn source_ingest_coverage_from_bulk(bulk: &LosslessBulkSourceCompilation) -> (m: SourceIngestCoverageReadModel)
    ensures
        coverage_of(*bulk, m),
{
    SourceIngestCoverageReadModel {
        source_ref: bulk.source_ref.clone(),
        source_revision_ref: bulk.source_revision_ref.clone(),
        structural_region_count: bulk.exact_region_count,
        semantic_candidate_region_count: bulk.semantic_candidate_region_count,
        compiled_statement_count: bulk.compiled_statement_count,
        parser_residual_count: bulk.residual_region_refs.len(),
        candidate_pnf_count: bulk.candidate_pnf_count,
        source_region_accounted_count: bulk.source_region_accounted_count,
        source_region_loss_count: bulk.source_region_loss_count,
        source_coverage_complete: bulk.source_coverage_complete,
        candidate_only: bulk.candidate_only,
        creates_semantic_authority: bulk.creates_semantic_authority,
        claim_truth_promoted: bulk.claim_truth_promoted,
        parse_failure_deletes_source: bulk.parse_failure_deletes_source,
    }
}

pub open spec fn revision_mismatch_message() -> Seq<char> {
    "structural and semantic compilation receipts refer to different source revisions"@
}

pub open spec fn ingest_boundary_message() -> Seq<char> {
    "source ingest crossed non-promotion/lossless boundary"@
}

/// Pairs the structural segmentation with the coverage of the same source revision:
/// receipts of different revisions are refused, and so is a compilation that claims
/// authority or truth or deletes source on a parse failure.
pub fn long_document_ingest_read_model(structural: PlainTextSegmentationReceipt, bulk: &LosslessBulkSourceCompilation) -> (r: Result<
    LongDocumentIngestReadModel,
    String,
>)
    ensures
        match r {
            Ok(m) => {
                &&& structural.source_ref@ == bulk.source_ref@
                &&& structural.source_revision_ref@ == bulk.source_revision_ref@
                &&& !bulk.creates_semantic_authority && !bulk.claim_truth_promoted && !bulk.parse_failure_deletes_source
                &&& m.structural == structural
                &&& coverage_of(*bulk, m.coverage)
            },
            Err(e) => if structural.source_ref@ != bulk.source_ref@ || structural.source_revision_ref@
                != bulk.source_revision_ref@ {
                e@ == revision_mismatch_message()
            } else {
                (bulk.creates_semantic_authority || bulk.claim_truth_promoted || bulk.parse_failure_deletes_source)
                    && e@ == ingest_boundary_message()
            },
        },
{
    if compare_refs(structural.source_ref.as_str(), bulk.source_ref.as_str()) != RefOrder::Same
        || compare_refs(structural.source_revision_ref.as_str(), bulk.source_revision_ref.as_str()) != RefOrder::Same {
        return Err(String::from_str("structural and semantic compilation receipts refer to different source revisions"));
    }
    let coverage = source_ingest_coverage_from_bulk(bulk);
    if coverage.creates_semantic_authority || coverage.claim_truth_promoted || coverage.parse_failure_deletes_source {
        return Err(String::from_str("source ingest crossed non-promotion/lossless boundary"));
    }
    Ok(LongDocumentIngestReadModel { structural, coverage })
}

} // verus!
