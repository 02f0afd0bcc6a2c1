//! Review actions: a qualification or an evidence request is only ever sent with
//! an explicit reference or note.
use vstd::prelude::*;

use crate::json::{trim_text, trimmed};

verus! {

pub open spec fn qualify_note_message() -> Seq<char> {
    "Qualify requires an explicit qualification ref / note."@
}

pub open spec fn evidence_note_message() -> Seq<char> {
    "RequestEvidence requires an explicit evidence-request ref / note."@
}

/// The notes a review action sends: the trimmed qualification for a Qualify
/// action and the trimmed evidence request for a RequestEvidence action, each
/// refused when it is empty; nothing for any other action.
pub fn review_action_notes(
    qualify: bool,
    request_evidence: bool,
    qualification: &str,
    evidence_request: &str,
) -> (r: Result<(Option<String>, Option<String>), String>)
    ensures
        match r {
            Ok((q, e)) => {
                &&& (qualify ==> trimmed(qualification@).len() > 0 && (q matches Some(q) && q@ == trimmed(qualification@)))
                &&& (!qualify ==> q is None)
                &&& (request_evidence ==> trimmed(evidence_request@).len() > 0 && (e matches Some(e) && e@ == trimmed(
                    evidence_request@,
                )))
                &&& (!request_evidence ==> e is None)
            },
            Err(m) => if qualify && trimmed(qualification@).len() == 0 {
                m@ == qualify_note_message()
            } else {
                request_evidence && trimmed(evidence_request@).len() == 0 && m@ == evidence_note_message()
            },
        },
{
    let q = if qualify {
        let note = trim_text(qualification);
        if note.unicode_len() == 0 {
            return Err(String::from_str("Qualify requires an explicit qualification ref / note."));
        }
        Some(note)
    } else {
        None
    };
    let e = if request_evidence {
        let note = trim_text(evidence_request);
        if note.unicode_len() == 0 {
            return Err(String::from_str("RequestEvidence requires an explicit evidence-request ref / note."));
        }
        Some(note)
    } else {
        None
    };
    Ok((q, e))
}

} // verus!
