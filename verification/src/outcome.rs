use vstd::prelude::*;
use crate::endpoint::Endpoint;

verus! {

/// What one send attempt to one destination came to.
///
/// `ConnectError` stands for a connection that could not be established,
/// `SendTimeout` for an attempt that the deadline cut off. Both are
/// per-destination and non-fatal: a broadcast fails as a whole only when no
/// destination succeeds.
#[derive(Clone, Copy, PartialEq, Eq, Structural, Debug)]
pub enum SendOutcome {
    Success,
    ConnectError,
    SendTimeout,
}

/// The outcome recorded for one destination of a broadcast.
#[derive(Clone, Copy, PartialEq, Eq, Structural, Debug)]
pub struct DestinationOutcome {
    pub destination: Endpoint,
    pub outcome: SendOutcome,
}

/// The result of one broadcast call: every per-destination outcome, and
/// whether at least one destination accepted the transaction.
pub struct SubmissionResult {
    pub outcomes: Vec<DestinationOutcome>,
    pub overall_success: bool,
}

/// Whether at least one recorded outcome is a success.
pub open spec fn any_success(s: Seq<DestinationOutcome>) -> bool {
    exists|i: int| 0 <= i < s.len() && s[i].outcome is Success
}

impl SubmissionResult {
    /// A well-formed result reports overall success exactly when some
    /// destination succeeded.
    pub open spec fn wf(&self) -> bool {
        self.overall_success == any_success(self.outcomes@)
    }
}

/// Computes the submission result for a set of per-destination outcomes:
/// the broadcast succeeded overall if and only if at least one destination
/// reported success. Pure; deterministic in its input.
pub fn aggregate(outcomes: Vec<DestinationOutcome>) -> (r: SubmissionResult)
    ensures
        r.outcomes@ == outcomes@,
        r.overall_success == any_success(outcomes@),
        r.wf(),
{
    let mut ok = false;
    let mut i: usize = 0;
    while i < outcomes.len()
        invariant
            0 <= i <= outcomes.len(),
            ok == exists|j: int| 0 <= j < i && outcomes@[j].outcome is Success,
        decreases outcomes.len() - i,
    {
        if outcomes[i].outcome == SendOutcome::Success {
            ok = true;
        }
        i = i + 1;
    }
    SubmissionResult { outcomes, overall_success: ok }
}

/// Law: a set of outcomes that contains at least one success aggregates to
/// overall success, whatever the other entries hold.
pub proof fn lemma_some_success_is_overall_success(s: Seq<DestinationOutcome>)
    requires
        exists|i: int| 0 <= i < s.len() && s[i].outcome is Success,
    ensures
        any_success(s),
{
}

/// Law: a set of outcomes with zero success entries aggregates to overall
/// failure, the empty set included.
pub proof fn lemma_no_success_is_overall_failure(s: Seq<DestinationOutcome>)
    requires
        forall|i: int| 0 <= i < s.len() ==> !(s[i].outcome is Success),
    ensures
        !any_success(s),
{
}

} // verus!
