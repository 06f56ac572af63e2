use linkchecker::orchestrate::Orchestrator;
use linkchecker::request::{classify_response, RequestResponse};

fn three_urls() -> Vec<String> {
    vec![
        "https://a.test".to_string(),
        "https://b.test".to_string(),
        "https://c.test".to_string(),
    ]
}

#[test]
fn permit_ceiling_is_never_exceeded() {
    let mut orch = Orchestrator::new(three_urls(), 2);
    assert_eq!(orch.permits_in_use(), 0);
    assert!(orch.try_acquire_permit(0));
    assert!(orch.try_acquire_permit(1));
    assert_eq!(orch.permits_in_use(), 2);
    // Third task must wait: every permit is in use.
    assert!(!orch.try_acquire_permit(2));
    assert_eq!(orch.permits_in_use(), 2);

    orch.mark_response_received(0);
    orch.complete_classified(0, classify_response(200, "<title>Hi</title>"));
    assert_eq!(orch.permits_in_use(), 1);
    // A released permit frees a slot for the waiting task.
    assert!(orch.try_acquire_permit(2));
    assert_eq!(orch.permits_in_use(), 2);
}

#[test]
fn transport_failure_drops_entry_and_logs_once() {
    let mut orch = Orchestrator::new(three_urls(), 2);
    assert!(orch.try_acquire_permit(0));
    orch.mark_response_received(0);
    orch.complete_classified(0, classify_response(200, "<title>Hi</title>"));

    assert!(orch.try_acquire_permit(1));
    orch.mark_response_received(1);
    orch.complete_classified(1, classify_response(404, ""));

    // c.test is unreachable: the task fails at the transport level while
    // holding its permit, and the run still completes.
    assert!(orch.try_acquire_permit(2));
    orch.complete_transport_failed(2, "Unexpected error".to_string());

    assert!(orch.is_complete());
    assert_eq!(orch.permits_in_use(), 0);
    let (entries, diagnostics) = orch.into_report();

    assert_eq!(entries.len(), 2);
    assert_eq!(entries[0].0, "https://a.test");
    match &entries[0].1 {
        RequestResponse::Success { label } => assert_eq!(label, "Hi"),
        _ => panic!("expected Success outcome for a.test"),
    }
    assert_eq!(entries[1].0, "https://b.test");
    match &entries[1].1 {
        RequestResponse::HttpFailure { reason } => assert_eq!(reason, "Not Found"),
        _ => panic!("expected HttpFailure outcome for b.test"),
    }

    assert_eq!(diagnostics.len(), 1);
    assert_eq!(diagnostics[0].0, "https://c.test");
    assert_eq!(diagnostics[0].1, "Unexpected error");
}

#[test]
fn pending_task_can_be_abandoned_without_permit_movement() {
    let mut orch = Orchestrator::new(three_urls(), 1);
    assert!(orch.try_acquire_permit(0));
    assert_eq!(orch.permits_in_use(), 1);
    orch.abandon_pending(1, "Unexpected error".to_string());
    assert_eq!(orch.permits_in_use(), 1);
    orch.mark_response_received(0);
    orch.complete_transport_failed(0, "Unexpected error".to_string());
    orch.abandon_pending(2, "Unexpected error".to_string());
    assert!(orch.is_complete());
    let (entries, diagnostics) = orch.into_report();
    assert!(entries.is_empty());
    assert_eq!(diagnostics.len(), 3);
}

#[test]
fn report_pairs_every_url_with_its_own_outcome() {
    let urls = three_urls();
    let mut orch = Orchestrator::new(urls.clone(), 3);
    // Completion order differs from input order; the pairing must not.
    assert!(orch.try_acquire_permit(2));
    assert!(orch.try_acquire_permit(0));
    assert!(orch.try_acquire_permit(1));
    orch.mark_response_received(2);
    orch.complete_classified(2, classify_response(503, ""));
    orch.mark_response_received(0);
    orch.complete_classified(0, classify_response(200, "<title>A</title>"));
    orch.mark_response_received(1);
    orch.complete_classified(1, classify_response(200, "<title>B</title>"));
    assert!(orch.is_complete());
    let (entries, diagnostics) = orch.into_report();
    assert!(diagnostics.is_empty());
    assert_eq!(entries.len(), 3);
    assert_eq!(entries[0].0, "https://c.test");
    match &entries[0].1 {
        RequestResponse::HttpFailure { reason } => assert_eq!(reason, "Service Unavailable"),
        _ => panic!("expected HttpFailure outcome for c.test"),
    }
    assert_eq!(entries[1].0, "https://a.test");
    assert_eq!(entries[2].0, "https://b.test");
}
