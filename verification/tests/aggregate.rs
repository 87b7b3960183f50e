use leader_broadcast::endpoint::Endpoint;
use leader_broadcast::outcome::{aggregate, DestinationOutcome, SendOutcome};

fn ep(ip: u32, port: u16) -> Endpoint {
    Endpoint { ip, port }
}

fn outcome(ip: u32, outcome: SendOutcome) -> DestinationOutcome {
    DestinationOutcome { destination: ep(ip, 8000), outcome }
}

#[test]
fn one_success_means_overall_success() {
    let outcomes = vec![
        outcome(1, SendOutcome::SendTimeout),
        outcome(2, SendOutcome::Success),
        outcome(3, SendOutcome::ConnectError),
    ];
    let r = aggregate(outcomes);
    assert!(r.overall_success);
    assert_eq!(r.outcomes.len(), 3);
    assert_eq!(r.outcomes[1].outcome, SendOutcome::Success);
}

#[test]
fn all_successes_means_overall_success() {
    let outcomes = vec![outcome(1, SendOutcome::Success), outcome(2, SendOutcome::Success)];
    let r = aggregate(outcomes);
    assert!(r.overall_success);
}

#[test]
fn zero_successes_means_overall_failure() {
    let outcomes = vec![
        outcome(1, SendOutcome::ConnectError),
        outcome(2, SendOutcome::SendTimeout),
        outcome(3, SendOutcome::ConnectError),
    ];
    let r = aggregate(outcomes);
    assert!(!r.overall_success);
    assert_eq!(r.outcomes.len(), 3);
}

#[test]
fn empty_outcome_set_means_overall_failure() {
    let r = aggregate(Vec::new());
    assert!(!r.overall_success);
    assert!(r.outcomes.is_empty());
}

#[test]
fn success_beside_connect_error_means_overall_success() {
    let a = outcome(1, SendOutcome::Success);
    let b = outcome(2, SendOutcome::ConnectError);
    let r = aggregate(vec![a, b]);
    assert!(r.overall_success);
    assert_eq!(r.outcomes[0].outcome, SendOutcome::Success);
    assert_eq!(r.outcomes[1].outcome, SendOutcome::ConnectError);
}

#[test]
fn outcomes_are_kept_in_order() {
    let outcomes = vec![
        outcome(9, SendOutcome::SendTimeout),
        outcome(4, SendOutcome::Success),
    ];
    let r = aggregate(outcomes.clone());
    assert_eq!(r.outcomes, outcomes);
}
