use vstd::prelude::*;
use crate::endpoint::{Endpoint, LeaderSlotEntry};
use crate::outcome::{any_success, DestinationOutcome, SendOutcome, SubmissionResult, aggregate};
use crate::schedule::LeaderScheduleTracker;

verus! {

/// A signed, serialized transaction, ready for transmission. The library
/// treats the payload as an opaque byte sequence and never reads into it; it
/// is handed in once, by value, and the caller gets the bytes back only to
/// transmit them.
pub struct WireTransaction {
    bytes: Vec<u8>,
}

impl View for WireTransaction {
    type V = Seq<u8>;

    closed spec fn view(&self) -> Seq<u8> {
        self.bytes@
    }
}

impl WireTransaction {
    /// Wraps an owned, already-signed byte sequence.
    pub fn new(bytes: Vec<u8>) -> (t: WireTransaction)
        ensures
            t@ == bytes@,
    {
        WireTransaction { bytes }
    }

    /// The payload length in bytes.
    pub fn len(&self) -> (n: usize)
        ensures
            n == self@.len(),
    {
        self.bytes.len()
    }

    /// The payload, for transmission.
    pub fn bytes(&self) -> (b: &Vec<u8>)
        ensures
            b@ == self@,
    {
        &self.bytes
    }
}

/// The distinct leader endpoints of a schedule, in first-occurrence order:
/// an entry whose leader already stands in the list adds nothing.
pub open spec fn dedup_leaders(s: Seq<LeaderSlotEntry>) -> Seq<Endpoint>
    decreases s.len(),
{
    if s.len() == 0 {
        Seq::empty()
    } else {
        let rest = dedup_leaders(s.drop_last());
        if rest.contains(s.last().leader) {
            rest
        } else {
            rest.push(s.last().leader)
        }
    }
}

/// Law: the planned destinations are duplicate-free, so within one
/// broadcast call each destination receives at most one send attempt — no
/// automatic retry, and no duplicate send to a leader that holds several of
/// the upcoming slots.
pub proof fn lemma_dedup_leaders_no_duplicates(s: Seq<LeaderSlotEntry>)
    ensures
        forall|i: int, j: int|
            0 <= i < j < dedup_leaders(s).len() ==> dedup_leaders(s)[i] != dedup_leaders(s)[j],
    decreases s.len(),
{
    if s.len() > 0 {
        lemma_dedup_leaders_no_duplicates(s.drop_last());
        let rest = dedup_leaders(s.drop_last());
        let f = dedup_leaders(s);
        if !rest.contains(s.last().leader) {
            assert forall|i: int, j: int| 0 <= i < j < f.len() implies f[i] != f[j] by {
                if j == f.len() - 1 {
                    assert(f[i] == rest[i]);
                    assert(rest.contains(rest[i]));
                } else {
                    assert(f[i] == rest[i] && f[j] == rest[j]);
                }
            }
        }
    }
}

/// Law: an endpoint is a planned destination if and only if it leads one of
/// the schedule entries handed in — nothing beyond the planned prefix is
/// ever touched.
pub proof fn lemma_dedup_leaders_exactly_the_leaders(s: Seq<LeaderSlotEntry>)
    ensures
        forall|e: Endpoint|
            dedup_leaders(s).contains(e) <==> exists|i: int|
                0 <= i < s.len() && s[i].leader == e,
    decreases s.len(),
{
    if s.len() > 0 {
        lemma_dedup_leaders_exactly_the_leaders(s.drop_last());
        let rest = dedup_leaders(s.drop_last());
        let f = dedup_leaders(s);
        assert forall|e: Endpoint| #[trigger]
            f.contains(e) implies exists|i: int| 0 <= i < s.len() && s[i].leader == e by {
            if rest.contains(e) {
                let i = choose|i: int| 0 <= i < s.drop_last().len() && s.drop_last()[i].leader
                    == e;
                assert(s[i].leader == e);
            } else {
                let k = choose|k: int| 0 <= k < f.len() && f[k] == e;
                assert(k == rest.len());
                assert(s[s.len() - 1].leader == e);
            }
        }
        assert forall|e: Endpoint| exists|i: int|
            0 <= i < s.len() && s[i].leader == e implies #[trigger] f.contains(e) by {
            let i = choose|i: int| 0 <= i < s.len() && s[i].leader == e;
            if i < s.len() - 1 {
                assert(s.drop_last()[i].leader == e);
                assert(rest.contains(e));
                let k = choose|k: int| 0 <= k < rest.len() && rest[k] == e;
                assert(f[k] == e);
            } else {
                if rest.contains(e) {
                    let k = choose|k: int| 0 <= k < rest.len() && rest[k] == e;
                    assert(f[k] == e);
                } else {
                    assert(f[f.len() - 1] == e);
                }
            }
        }
    }
}

/// Whether `v` holds endpoint `e`.
fn contains_endpoint(v: &Vec<Endpoint>, e: Endpoint) -> (r: bool)
    ensures
        r == v@.contains(e),
{
    let mut i: usize = 0;
    while i < v.len()
        invariant
            0 <= i <= v@.len(),
            forall|k: int| 0 <= k < i ==> v@[k] != e,
        decreases v@.len() - i,
    {
        if v[i] == e {
            assert(v@[i as int] == e);
            return true;
        }
        i = i + 1;
    }
    false
}

/// Plans the fan-out of one broadcast: the destinations are the distinct
/// endpoints among the current leader and the next upcoming ones, in slot
/// order, drawn from the first `fan_out` entries of the published schedule
/// and from nothing beyond them. A leader that holds several of those slots
/// stands in the list once, so each destination receives at most one send
/// attempt per call.
pub fn plan_broadcast(tracker: &LeaderScheduleTracker, fan_out: usize) -> (dests: Vec<Endpoint>)
    requires
        tracker.wf(),
    ensures
        dests@ == dedup_leaders(
            tracker.schedule_view().take(
                if fan_out as int <= tracker.schedule_view().len() {
                    fan_out as int
                } else {
                    tracker.schedule_view().len() as int
                },
            ),
        ),
{
    let leaders = tracker.current_leaders(fan_out);
    let ghost prefix = tracker.schedule_view().take(
        if fan_out as int <= tracker.schedule_view().len() {
            fan_out as int
        } else {
            tracker.schedule_view().len() as int
        },
    );
    proof {
        assert(leaders@ =~= prefix);
    }
    let mut dests: Vec<Endpoint> = Vec::new();
    let mut i: usize = 0;
    while i < leaders.len()
        invariant
            0 <= i <= leaders@.len(),
            dests@ == dedup_leaders(leaders@.take(i as int)),
        decreases leaders@.len() - i,
    {
        let leader = leaders[i].leader;
        if !contains_endpoint(&dests, leader) {
            dests.push(leader);
        }
        proof {
            assert(leaders@.take(i + 1).drop_last() =~= leaders@.take(i as int));
            assert(leaders@.take(i + 1).last() == leaders@[i as int]);
        }
        i = i + 1;
    }
    proof {
        assert(leaders@.take(leaders@.len() as int) =~= leaders@);
    }
    dests
}

/// What one reported send comes to: an attempt that the deadline left
/// unresolved counts as a timeout.
pub open spec fn resolve_outcome(o: Option<SendOutcome>) -> SendOutcome {
    match o {
        Some(x) => x,
        None => SendOutcome::SendTimeout,
    }
}

/// Closes one broadcast call: pairs each destination with what its send
/// attempt reported — `None` for an attempt still unresolved when the
/// deadline elapsed, recorded as a timeout — and aggregates the outcomes.
/// The broadcast succeeded overall if and only if at least one destination
/// reported success.
pub fn finish_broadcast(destinations: &Vec<Endpoint>, reported: &Vec<Option<SendOutcome>>) -> (r:
    SubmissionResult)
    requires
        reported@.len() == destinations@.len(),
    ensures
        r.outcomes@.len() == destinations@.len(),
        forall|i: int| 0 <= i < r.outcomes@.len() ==> r.outcomes@[i] == (DestinationOutcome {
            destination: destinations@[i],
            outcome: resolve_outcome(reported@[i]),
        }),
        r.overall_success == any_success(r.outcomes@),
        r.wf(),
{
    let mut outcomes: Vec<DestinationOutcome> = Vec::new();
    let mut i: usize = 0;
    while i < destinations.len()
        invariant
            0 <= i <= destinations@.len(),
            reported@.len() == destinations@.len(),
            outcomes@.len() == i as int,
            forall|k: int| 0 <= k < i ==> outcomes@[k] == (DestinationOutcome {
                destination: destinations@[k],
                outcome: resolve_outcome(reported@[k]),
            }),
        decreases destinations@.len() - i,
    {
        let outcome = match reported[i] {
            Some(x) => x,
            None => SendOutcome::SendTimeout,
        };
        outcomes.push(DestinationOutcome { destination: destinations[i], outcome });
        i = i + 1;
    }
    aggregate(outcomes)
}

/// What closing a broadcast does to a destination's pooled connection.
/// `Demote` maps to `ConnectionPool::mark_unhealthy`, `Retire` to
/// `ConnectionPool::mark_dead`; `Keep` leaves the connection as it is.
#[derive(Clone, Copy, PartialEq, Eq, Structural, Debug)]
pub enum HealthAction {
    Keep,
    Demote,
    Retire,
}

/// The connection-health consequence of one send attempt: an attempt still
/// unresolved when the deadline elapsed was canceled, and a canceled attempt
/// must not leave its connection in a corrupted state, so the connection is
/// demoted to degraded rather than discarded; a failed connect leaves the
/// connection dead; a resolved attempt, success or transport timeout, leaves
/// it untouched.
pub open spec fn health_action(reported: Option<SendOutcome>) -> HealthAction {
    match reported {
        None => HealthAction::Demote,
        Some(SendOutcome::ConnectError) => HealthAction::Retire,
        Some(_) => HealthAction::Keep,
    }
}

/// Decides what one destination's reported attempt does to its pooled
/// connection; the caller performs the action it names.
pub fn health_action_for(reported: Option<SendOutcome>) -> (a: HealthAction)
    ensures
        a == health_action(reported),
{
    match reported {
        None => HealthAction::Demote,
        Some(SendOutcome::ConnectError) => HealthAction::Retire,
        Some(_) => HealthAction::Keep,
    }
}

/// Law: a broadcast whose deadline elapses before any destination responds —
/// every reported entry still unresolved — records a timeout for every
/// destination and fails overall.
pub proof fn lemma_deadline_before_any_response(
    reported: Seq<Option<SendOutcome>>,
    outcomes: Seq<DestinationOutcome>,
)
    requires
        outcomes.len() == reported.len(),
        forall|i: int| 0 <= i < reported.len() ==> reported[i] is None,
        forall|i: int| 0 <= i < outcomes.len() ==> outcomes[i].outcome == resolve_outcome(
            reported[i],
        ),
    ensures
        forall|i: int| 0 <= i < outcomes.len() ==> outcomes[i].outcome is SendTimeout,
        !any_success(outcomes),
{
}

} // verus!
