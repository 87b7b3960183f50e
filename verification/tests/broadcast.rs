use leader_broadcast::broadcast::{finish_broadcast, health_action_for, HealthAction, WireTransaction};
use leader_broadcast::endpoint::Endpoint;
use leader_broadcast::outcome::SendOutcome;

fn ep(ip: u32) -> Endpoint {
    Endpoint { ip, port: 8000 }
}

#[test]
fn deadline_before_any_response_times_every_destination_out() {
    let dests = vec![ep(1), ep(2), ep(3)];
    let reported: Vec<Option<SendOutcome>> = vec![None, None, None];
    let r = finish_broadcast(&dests, &reported);
    assert!(!r.overall_success);
    assert_eq!(r.outcomes.len(), 3);
    for o in &r.outcomes {
        assert_eq!(o.outcome, SendOutcome::SendTimeout);
    }
}

#[test]
fn one_resolved_success_carries_the_broadcast() {
    let dests = vec![ep(1), ep(2)];
    let reported = vec![Some(SendOutcome::Success), None];
    let r = finish_broadcast(&dests, &reported);
    assert!(r.overall_success);
    assert_eq!(r.outcomes[0].outcome, SendOutcome::Success);
    assert_eq!(r.outcomes[0].destination, ep(1));
    assert_eq!(r.outcomes[1].outcome, SendOutcome::SendTimeout);
    assert_eq!(r.outcomes[1].destination, ep(2));
}

#[test]
fn resolved_failures_alone_fail_the_broadcast() {
    let dests = vec![ep(1), ep(2)];
    let reported = vec![Some(SendOutcome::ConnectError), Some(SendOutcome::SendTimeout)];
    let r = finish_broadcast(&dests, &reported);
    assert!(!r.overall_success);
    assert_eq!(r.outcomes[0].outcome, SendOutcome::ConnectError);
    assert_eq!(r.outcomes[1].outcome, SendOutcome::SendTimeout);
}

#[test]
fn an_unresolved_attempt_demotes_its_connection() {
    assert_eq!(health_action_for(None), HealthAction::Demote);
}

#[test]
fn a_failed_connect_retires_its_connection() {
    assert_eq!(health_action_for(Some(SendOutcome::ConnectError)), HealthAction::Retire);
}

#[test]
fn a_resolved_attempt_keeps_its_connection() {
    assert_eq!(health_action_for(Some(SendOutcome::Success)), HealthAction::Keep);
    assert_eq!(health_action_for(Some(SendOutcome::SendTimeout)), HealthAction::Keep);
}

#[test]
fn wire_transaction_keeps_its_bytes() {
    let payload = vec![1u8, 2, 3, 255, 0];
    let tx = WireTransaction::new(payload.clone());
    assert_eq!(tx.len(), 5);
    assert_eq!(tx.bytes(), &payload);
}

#[test]
fn empty_wire_transaction_has_no_bytes() {
    let tx = WireTransaction::new(Vec::new());
    assert_eq!(tx.len(), 0);
    assert!(tx.bytes().is_empty());
}
