//! Acceptance of a decoded run summary.
use vstd::prelude::*;
use crate::error::Error;
use crate::model::RunSummary;
use crate::text::owned;

verus! {

/// The decoded summary labelled `label`, accepted only when it lists at
/// least one task.
pub fn accept_summary(summary: RunSummary, label: &str) -> (r: Result<RunSummary, Error>)
    ensures
        summary.tasks.len() > 0 <==> r is Ok,
        r matches Ok(s) ==> s == summary,
        r matches Err(e) ==> e matches Error::EmptySummary(l) && l@ == label@,
{
    if summary.tasks.len() == 0 {
        return Err(Error::EmptySummary(owned(label)));
    }
    Ok(summary)
}

} // verus!
