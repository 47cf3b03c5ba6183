use ssh_probe::probe::{probe_step, ProbeOutcome, ProbeStep, ATTEMPT_TIMEOUT_SECS, RETRY_INTERVAL_SECS};

fn message(step: ProbeStep) -> Option<String> {
    match step {
        ProbeStep::Ready => None,
        ProbeStep::Retry { message } => Some(message),
    }
}

#[test]
fn connected_is_ready_at_once() {
    assert!(matches!(probe_step(ProbeOutcome::Connected), ProbeStep::Ready));
}

#[test]
fn timeout_retries_with_diagnostic() {
    assert_eq!(message(probe_step(ProbeOutcome::TimedOut)), Some("waiting for ssh: timeout".to_string()));
}

#[test]
fn failure_retries_with_reason() {
    let outcome = ProbeOutcome::Failed { reason: "Connection refused (os error 111)".to_string() };
    assert_eq!(
        message(probe_step(outcome)),
        Some("waiting for ssh: Connection refused (os error 111)".to_string())
    );
}

#[test]
fn unreachable_port_gives_one_line_per_attempt() {
    let mut lines = Vec::new();
    let mut ready = false;
    for tick in 0..6 {
        let outcome = if tick % 2 == 0 {
            ProbeOutcome::TimedOut
        } else {
            ProbeOutcome::Failed { reason: "refused".to_string() }
        };
        match probe_step(outcome) {
            ProbeStep::Ready => ready = true,
            ProbeStep::Retry { message } => lines.push(message),
        }
    }
    assert!(!ready);
    assert_eq!(lines.len(), 6);
}

#[test]
fn timings_are_five_and_ten_seconds() {
    assert_eq!(ATTEMPT_TIMEOUT_SECS, 5);
    assert_eq!(RETRY_INTERVAL_SECS, 10);
}
