use axon::pipeline::{normalize_output, NormalizedOutput};

fn senior(raw: &str) -> NormalizedOutput {
    normalize_output(raw, true)
}

#[test]
fn json_review_with_unknown_decision_fails_closed() {
    let r = senior("{\"decision\":\"MAYBE\",\"feedback\":\"hmm\"}");
    assert_eq!(r.decision.as_deref(), Some("REJECT"));
    assert_eq!(r.feedback.as_deref(), Some("hmm"));
    assert!(r.code.is_none());
    assert!(!r.is_approve());
}

#[test]
fn json_review_with_lowercase_approve_is_rejected() {
    let r = senior("{\"decision\":\"approve\"}");
    assert_eq!(r.decision.as_deref(), Some("REJECT"));
    assert!(r.feedback.is_none());
}

#[test]
fn json_review_with_approve_decision_approves() {
    let r = senior("{\"decision\":\"APPROVE\",\"feedback\":\"fine\"}");
    assert_eq!(r.decision.as_deref(), Some("APPROVE"));
    assert_eq!(r.feedback.as_deref(), Some("fine"));
    assert!(r.is_approve());
}

#[test]
fn json_review_without_decision_rejects_with_response_as_feedback() {
    let r = senior("{\"response\":\"missing include\"}");
    assert_eq!(r.decision.as_deref(), Some("REJECT"));
    assert_eq!(r.feedback.as_deref(), Some("missing include"));
}

#[test]
fn json_review_with_non_string_decision_rejects() {
    let r = senior("{\"decision\":true}");
    assert_eq!(r.decision.as_deref(), Some("REJECT"));
}

#[test]
fn bracket_reject_takes_the_rest_of_the_line_as_feedback() {
    let r = senior("[REJECT] bad pointer arithmetic");
    assert_eq!(r.decision.as_deref(), Some("REJECT"));
    assert_eq!(r.feedback.as_deref(), Some("bad pointer arithmetic"));
}

#[test]
fn bracket_approve_approves() {
    let r = senior("[APPROVE]\nLooks correct.");
    assert_eq!(r.decision.as_deref(), Some("APPROVE"));
    assert_eq!(r.feedback.as_deref(), Some("Looks correct."));
}

#[test]
fn empty_review_is_rejected_as_truncated() {
    let r = senior("   ");
    assert_eq!(r.decision.as_deref(), Some("REJECT"));
    assert!(r.feedback.as_deref().unwrap().starts_with("[PATCH_TRUNCATED]"));
}

#[test]
fn free_text_review_is_rejected_with_the_whole_text() {
    let r = senior("I am not sure about this patch");
    assert_eq!(r.decision.as_deref(), Some("REJECT"));
    assert_eq!(r.feedback.as_deref(), Some("I am not sure about this patch"));
}
