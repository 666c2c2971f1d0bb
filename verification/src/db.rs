//! The two rows a verdict is stored as: the permanent classification row and
//! its evidence row, written together.

use crate::classifier::{Confidence, Verdict, VerdictView, source_label};
use vstd::prelude::*;

verus! {

/// A classification row to insert (never overwritten once written).
pub struct NewClassification {
    pub artist_id: String,
    pub artist_name: String,
    pub is_flagged: bool,
    pub classified_at: String,
    pub method: String,
    pub confidence: Option<Confidence>,
    pub earliest_release_date: Option<String>,
}

/// An evidence row to insert alongside a classification row.
pub struct NewEvidence {
    pub artist_id: String,
    pub source: String,
    /// The evidence JSON.
    pub result: String,
    pub supports_ai: bool,
    pub recorded_at: String,
}

/// The classification row of a verdict holds the flagged state, method, confidence and
/// earliest release date (as `YYYY-MM-DD`) as the verdict has them.
pub open spec fn classification_row_matches(row: NewClassification, v: VerdictView, classified_at: Seq<char>) -> bool {
    &&& row.artist_id@ == v.artist_id
    &&& row.artist_name@ == v.artist_name
    &&& row.is_flagged == v.is_flagged
    &&& row.classified_at@ == classified_at
    &&& row.method@ == source_label(v.source)
    &&& row.confidence == Some(v.confidence)
    &&& match (row.earliest_release_date, v.earliest) {
        (Some(t), Some(d)) => t@ == d.iso,
        (None, None) => true,
        _ => false,
    }
}

/// The evidence row of a verdict counts as evidence for a generated artist exactly when the verdict is
/// flagged, and comes from the verdict's source.
pub open spec fn evidence_row_matches(row: NewEvidence, v: VerdictView, result: Seq<char>, recorded_at: Seq<char>) -> bool {
    &&& row.artist_id@ == v.artist_id
    &&& row.source@ == source_label(v.source)
    &&& row.result@ == result
    &&& row.supports_ai == v.is_flagged
    &&& row.recorded_at@ == recorded_at
}

pub fn classification_row(v: &Verdict, classified_at: &str) -> (row: NewClassification)
    ensures
        classification_row_matches(row, v@, classified_at@),
{
    NewClassification {
        artist_id: v.artist_id.clone(),
        artist_name: v.artist_name.clone(),
        is_flagged: v.is_flagged,
        classified_at: classified_at.to_owned(),
        method: v.source.as_str().to_owned(),
        confidence: Some(v.confidence),
        earliest_release_date: match &v.earliest {
            Some(d) => Some(d.iso.clone()),
            None => None,
        },
    }
}

pub fn evidence_row(v: &Verdict, result: String, recorded_at: &str) -> (row: NewEvidence)
    ensures
        evidence_row_matches(row, v@, result@, recorded_at@),
{
    NewEvidence {
        artist_id: v.artist_id.clone(),
        source: v.source.as_str().to_owned(),
        result,
        supports_ai: v.is_flagged,
        recorded_at: recorded_at.to_owned(),
    }
}

} // verus!
