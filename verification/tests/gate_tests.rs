use axon::board::{awaits_boss_review, recovered_feedback, TaskRecord, ThreadStatus};
use axon::gates::{gate_step, GateAction, GateEvent, GateStage, GateState};
use axon::model::{ollama_next, ModelResponse, OllamaNext};
use axon::phases::{TaskLifecycleState, TaskStatus};
use axon::schema::{EntrypointType, Language};
use axon::task_flow::{RejectionCounters, RejectionSource};

fn step(s: &GateState, ev: GateEvent) -> (GateState, GateAction) {
    gate_step(s, &ev)
}

#[test]
fn clean_attempt_runs_every_gate_then_the_senior_then_the_boss() {
    let s = GateState::start("Implement a.c", Some("src/a.c"), None);
    let (s, a) = step(&s, GateEvent::Begin { paused: false });
    assert!(matches!(a, GateAction::AskJunior));
    let (s, a) = step(&s, GateEvent::Harness(None));
    assert!(matches!(a, GateAction::RunLsp(Language::C)));
    let (s, a) = step(&s, GateEvent::LspChecked(vec![]));
    assert!(matches!(a, GateAction::Compile));
    let (s, a) = step(&s, GateEvent::Compiled(None));
    assert!(matches!(a, GateAction::AskSenior));
    let (s, a) = step(&s, GateEvent::Reviewed("looks fine".to_string()));
    match a {
        GateAction::WaitBoss(r) => assert_eq!(r, "looks fine"),
        _ => panic!("the Boss must be asked"),
    }
    let (s, a) = step(&s, GateEvent::BossAnswered(true));
    assert!(matches!(a, GateAction::Promote));
    assert_eq!(s.stage, GateStage::Done);
}

#[test]
fn harness_rejection_skips_the_senior_and_is_recorded_under_the_validator() {
    let s = GateState::start("Implement a.c", Some("src/a.c"), None);
    let (s, _) = step(&s, GateEvent::Begin { paused: false });
    let (s, a) = step(&s, GateEvent::Harness(Some("bad".to_string())));
    match a {
        GateAction::WaitBoss(r) => assert_eq!(r, "[REJECT]\nbad"),
        _ => panic!("the Boss must see the rejection"),
    }
    let (s, a) = step(&s, GateEvent::BossAnswered(false));
    match a {
        GateAction::KeepFailed { source, gatekeeper, feedback, error_line, message } => {
            assert_eq!(source, RejectionSource::Validator);
            assert_eq!(gatekeeper, "validator (global_harness)");
            assert_eq!(feedback, "[BOSS_REJECTED] Boss overridden rejection for task: Implement a.c");
            assert_eq!(error_line, None);
            assert_eq!(message, feedback);
        }
        _ => panic!("the rejection must be kept"),
    }
    assert_eq!(s.retries, 1);
    assert_eq!(s.stage, GateStage::Begin);
    assert_eq!(s.feedback.as_deref(), Some("[BOSS_REJECTED] Boss overridden rejection for task: Implement a.c"));
}

#[test]
fn boss_approval_cannot_promote_a_gate_rejection() {
    let s = GateState::start("Implement a.c", Some("src/a.c"), None);
    let (s, _) = step(&s, GateEvent::Begin { paused: false });
    let (s, _) = step(&s, GateEvent::Harness(None));
    let (s, a) = step(&s, GateEvent::LspChecked(vec![(3, "expected ;".to_string())]));
    assert!(matches!(a, GateAction::WaitBoss(_)));
    let (_, a) = step(&s, GateEvent::BossAnswered(true));
    match a {
        GateAction::KeepFailed { source, .. } => assert_eq!(source, RejectionSource::Lsp),
        _ => panic!("an LSP rejection is never promoted"),
    }
}

#[test]
fn compiler_rejection_and_patch_check_on_retry() {
    let s = GateState::start("Implement a.c", Some("src/a.c"), None);
    let (s, _) = step(&s, GateEvent::Begin { paused: false });
    let (s, _) = step(&s, GateEvent::Harness(None));
    let (s, _) = step(&s, GateEvent::LspChecked(vec![]));
    let (s, a) = step(&s, GateEvent::Compiled(Some(("a.c:1: error".to_string(), None))));
    assert!(matches!(a, GateAction::WaitBoss(_)));
    let (s, a) = step(&s, GateEvent::BossAnswered(false));
    assert!(matches!(a, GateAction::KeepFailed { source: RejectionSource::Compiler, .. }));
    let (s, _) = step(&s, GateEvent::Begin { paused: false });
    let (s, _) = step(&s, GateEvent::Harness(None));
    let (s, _) = step(&s, GateEvent::LspChecked(vec![]));
    let (s, a) = step(&s, GateEvent::Compiled(None));
    assert!(matches!(a, GateAction::CheckPatchRadius));
    let (_, a) = step(&s, GateEvent::PatchChecked);
    assert!(matches!(a, GateAction::AskSenior));
}

#[test]
fn target_without_gates_goes_straight_to_the_senior() {
    let s = GateState::start("Write notes", Some("docs/notes.md"), None);
    let (s, _) = step(&s, GateEvent::Begin { paused: false });
    let (_, a) = step(&s, GateEvent::Harness(None));
    assert!(matches!(a, GateAction::AskSenior));
}

#[test]
fn budget_pause_and_agent_failure() {
    let s = GateState::start("T", None, Some("fix it".to_string()));
    let (s0, a) = step(&s, GateEvent::Begin { paused: true });
    assert!(matches!(a, GateAction::Stop));
    let mut s = s0;
    for _ in 0..3 {
        let (n, a) = step(&s, GateEvent::Begin { paused: false });
        assert!(matches!(a, GateAction::AskJunior));
        let (n, a) = step(&n, GateEvent::JuniorFailed);
        assert!(matches!(a, GateAction::Retry));
        s = n;
    }
    assert_eq!(s.retries, 3);
    let (s, a) = step(&s, GateEvent::Begin { paused: false });
    assert!(matches!(a, GateAction::Escalate));
    let (_, a) = step(&s, GateEvent::BossAnswered(true));
    assert!(matches!(a, GateAction::Ignore));
}

#[test]
fn pending_reviews_recovered_on_start() {
    let counters = RejectionCounters { validator: 0, lsp: 0, cargo: 0, senior: 3, boss_interventions: 1 };
    let rec = TaskRecord {
        status: TaskStatus::Failed,
        lifecycle: TaskLifecycleState::Aborted,
        error_feedback: Some("fix".to_string()),
        rework_count: 3,
        counters,
    };
    assert!(awaits_boss_review(&rec, ThreadStatus::BossApproval));
    assert!(!awaits_boss_review(&rec, ThreadStatus::Working));
    let no_boss = TaskRecord { counters: RejectionCounters { boss_interventions: 0, ..counters }, ..rec };
    assert!(!awaits_boss_review(&no_boss, ThreadStatus::BossApproval));
    assert_eq!(recovered_feedback(Some("review text"), Some("fix")), "review text");
    assert_eq!(recovered_feedback(Some(""), Some("fix")), "fix");
    assert_eq!(recovered_feedback(None, None), "");
}

fn reply(t: &str) -> ModelResponse {
    ModelResponse { text: t.to_string(), thought: None, total_duration: None, eval_count: None, eval_duration: None }
}

#[test]
fn ollama_gets_three_attempts() {
    assert!(matches!(ollama_next(1, true, Some(reply("hi"))), OllamaNext::Done(m) if m.text == "hi"));
    assert!(matches!(ollama_next(1, false, Some(reply("hi"))), OllamaNext::Retry));
    assert!(matches!(ollama_next(2, true, None), OllamaNext::Retry));
    assert!(matches!(ollama_next(3, true, None), OllamaNext::GiveUp));
}

#[test]
fn entry_point_names_ignore_case() {
    assert_eq!(EntrypointType::from_str("WINMAIN"), EntrypointType::WinMain);
    assert_eq!(EntrypointType::from_str("wWinMain"), EntrypointType::WWinMain);
    assert_eq!(EntrypointType::from_str("MAIN"), EntrypointType::Main);
    assert_eq!(EntrypointType::from_str("foo"), EntrypointType::Main);
    for e in [EntrypointType::Main, EntrypointType::WinMain, EntrypointType::WWinMain] {
        assert_eq!(EntrypointType::from_str(e.canonical_name()), e);
    }
}
