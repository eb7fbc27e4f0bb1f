//! The decisions of the discovery loop: what a verification's result does to
//! the registry document, and whether a new fetch of the feed calls for a new
//! pass over the candidates.

use crate::feed::{FeedError, FeedSnapshot};
use crate::mediawiki::{
    doc_view, holds_ip, reconcile, reconciled, wf_doc, IPDataEntry, ReconcileKind,
};
use crate::pipeline::VerifyError;
use vstd::prelude::*;

verus! {

/// What the loop does after a new fetch of the feed.
#[derive(Clone, Copy, Debug, PartialEq, Eq, Structural)]
pub enum PollAction {
    /// The fingerprint changed: run the whole pass again from a fresh fetch.
    Rerun,
    /// The fingerprint is the same: log that nothing changed and keep polling.
    NoChange,
    /// The fetch failed: log it and keep polling.
    FetchFailed,
}

/// The time that a pass spends on all candidates together, in seconds.
pub const PASS_BUDGET_SECS: u64 = 3600;

/// The deadline of each stage of a verification, in seconds, for a pass over
/// `n` candidates: the pass budget shared evenly among them, rounded down.
/// `None` where there is no candidate to share it.
pub fn stage_timeout_secs(n: usize) -> (r: Option<u64>)
    ensures
        n == 0 ==> r is None,
        n > 0 ==> r == Some((PASS_BUDGET_SECS / (n as u64)) as u64),
{
    if n == 0 {
        None
    } else {
        Some(PASS_BUDGET_SECS / (n as u64))
    }
}

/// Decides, from the fingerprint of the last pass and a new fetch, whether to
/// run the pass again.
pub fn poll_decision(known: &String, fetched: &Result<FeedSnapshot, FeedError>) -> (r: PollAction)
    ensures
        r == match fetched {
            Ok(snap) => if snap.fingerprint@ == known@ {
                PollAction::NoChange
            } else {
                PollAction::Rerun
            },
            Err(_) => PollAction::FetchFailed,
        },
{
    match fetched {
        Ok(snap) => if snap.fingerprint == *known {
            PollAction::NoChange
        } else {
            PollAction::Rerun
        },
        Err(_) => PollAction::FetchFailed,
    }
}

/// Applies the result of one verification to the registry document: a
/// verified address is reconciled in at Unix time `now`; a failure leaves the
/// document as it was. Says what was done to the document, if anything, so
/// that the caller knows whether to persist it.
pub fn record_outcome(
    doc: &mut Vec<IPDataEntry>,
    outcome: &Result<String, VerifyError>,
    now: u64,
) -> (r: Option<ReconcileKind>)
    ensures
        match outcome {
            Ok(ip) => {
                &&& doc_view(final(doc)@) == reconciled(doc_view(old(doc)@), ip@, now)
                &&& r == Some(
                    if holds_ip(doc_view(old(doc)@), ip@) {
                        ReconcileKind::Updated
                    } else {
                        ReconcileKind::Created
                    },
                )
            },
            Err(_) => final(doc)@ == old(doc)@ && r is None,
        },
        wf_doc(doc_view(old(doc)@)) ==> wf_doc(doc_view(final(doc)@)),
{
    match outcome {
        Ok(ip) => Some(reconcile(doc, ip, now)),
        Err(_) => None,
    }
}

} // verus!
