use axon::board::{AgentConfig, AgentPool, AgentRole, BoardAction, BootstrapStatus, FireOutcome, TaskRecord, ThreadStatus};
use axon::dispatcher::Dispatcher;
use axon::harness::{
    check_allowed_includes, check_forbidden_symbols, diagnostic_to_regions, forbidden_patterns_from,
    is_empty_or_comments_only, resolve_target, validate_patch_radius,
};
use axon::phases::{after_phase, dispatch_plan, plan_phases, PhaseVerdict, PlannedTask, TaskLifecycleState, TaskStatus};
use axon::rewrite::{RewriteDetector, RewriteFinding};
use axon::slicer::autonomous_header_slicer;
use axon::spec_ir::TransitionKind;
use axon::spec_parser::parse_mermaid_transitions;
use axon::task_flow::{
    approval_verdict, boss_feedback, compile_rejection, diagnostic_message, error_line_of, harness_gate,
    is_compilable, lsp_language, lsp_rejection, parse_decimal, promotion_decision, usable_existing_code,
    AfterRejection, AttemptStart, RejectionCounters, RejectionSource, TaskRun,
};
use axon::schema::Language;

#[test]
fn test_parse_mermaid() {
    let mermaid = "graph TD\nSTART --> INPUT_NAME\nDB_CHECK -->|HIT| BYPASS\nVALID_YEAR -->|FAIL| INPUT_YEAR";
    let mut transitions = vec![];
    let mut retry = vec![];
    parse_mermaid_transitions(mermaid, &mut transitions, &mut retry);

    assert_eq!(transitions.len(), 3);
    assert_eq!(transitions[0].from, "START");
    assert_eq!(transitions[0].to, "INPUT_NAME");

    assert_eq!(transitions[2].kind, TransitionKind::Rollback);
    assert_eq!(retry.len(), 1);
    assert_eq!(retry[0].trigger_node, "VALID_YEAR");
}

#[test]
fn test_entire_file_replaced() {
    let old = "pub fn init() { }\npub fn process() { }\npub fn cleanup() { }\npub fn render() { }\npub fn update() { }\npub fn draw() { }\npub fn handle() { }\npub fn execute() { }\npub fn dispatch() { }\npub fn process_event() { }";
    let new = "pub fn start() { }\npub fn execute() { }\npub fn terminate() { }\npub fn draw_now() { }\npub fn refresh() { }\npub fn display() { }\npub fn manage() { }\npub fn run() { }\npub fn send() { }\npub fn handle_event() { }";

    let result = RewriteDetector::detect(old, new);
    assert!(result.is_rewrite);
    assert!(result.violations.contains(&RewriteFinding::EntireFileReplaced));
}

#[test]
fn test_function_deletion() {
    let old = "fn get_year() -> i32 { 2023 }\nfn get_name() -> String { \"Original\".to_string() }\nfn get_month() -> u8 { 1 }\nfn get_day() -> u8 { 1 }";
    let new = "fn get_year() -> i32 { 2025 }";

    let result = RewriteDetector::detect(old, new);
    assert!(result.is_rewrite);
    assert!(result.violations.contains(&RewriteFinding::FunctionDeleted));
}

#[test]
fn test_normal_modification() {
    let old = "fn get_year() -> i32 { 2023 }\nfn get_name() -> String { \"Original\".to_string() }";
    let new = "fn get_year() -> i32 { 2025 }\nfn get_name() -> String { \"Updated\".to_string() }";

    let result = RewriteDetector::detect(old, new);
    assert!(!result.is_rewrite);
}

#[test]
fn rewrite_of_nothing_finds_nothing() {
    let text = "#include <stdio.h>\nstruct point;\nint main (void) {\n  return 0;\n}\n";
    let r = RewriteDetector::detect_checked(text, text).unwrap();
    assert!(!r.is_rewrite);
    assert!(r.violations.is_empty());
}

#[test]
fn rewrite_findings_on_wiped_imports_types_and_lines() {
    let old = "#include <stdio.h>\n#include <string.h>\nstruct a;\nstruct b;\nclass c;\nline 6\nline 7\n";
    let new = "x\ny\nz\nw\nv\nu\nt\n";
    let r = RewriteDetector::detect(old, new);
    assert!(r.violations.contains(&RewriteFinding::ImportWipe));
    assert!(r.violations.contains(&RewriteFinding::InterfaceCollapse));
    assert!(r.violations.contains(&RewriteFinding::ComponentDeletion));
    assert!(r.violations.contains(&RewriteFinding::HighMutationRatio { changed: 7, total: 7 }));
    assert_eq!(RewriteDetector::calculate_mutation_ratio("a\nb", "c"), (0, 1));
    assert_eq!(RewriteDetector::calculate_mutation_ratio("", "c"), (1, 1));
    assert_eq!(RewriteDetector::extract_namespaces("namespace app\nmodule core\npackage a.b\n"), vec!["app", "core", "a.b"]);
}

#[test]
fn header_slicer_moves_bodies_out() {
    let code = "#include <stdio.h>\nint add(int a, int b) {\n    return a + b;\n}\nint sub(int a, int b);\n";
    let (header, cpp, path) = autonomous_header_slicer("include/math.h", code).unwrap();
    assert_eq!(header, "#include <stdio.h>\nint add(int a, int b);\nint sub(int a, int b);");
    assert_eq!(path, "src/math.cpp");
    assert_eq!(
        cpp,
        "#include \"math.h\"\n#include <stdio.h>\n#include <stdlib.h>\n#include <string.h>\n\nint add(int a, int b) {\nint add(int a, int b) {\n    return a + b;\n}\n}\n"
    );
    assert!(autonomous_header_slicer("src/math.c", code).is_none());
    assert!(autonomous_header_slicer("include/decl.h", "int f(void);\n").is_none());
}

#[test]
fn header_slicer_handles_one_line_bodies() {
    let (header, cpp, path) = autonomous_header_slicer("lib/util.hpp", "int one() { return 1; }").unwrap();
    assert_eq!(header, "int one();");
    assert_eq!(path, "lib/util.cpp");
    assert!(cpp.ends_with("\nint one() {\n    return 1;\n}\n"));
}

#[test]
fn harness_checks() {
    assert!(is_empty_or_comments_only("   ", "c"));
    assert!(is_empty_or_comments_only("// nothing\n/* here */", "c"));
    assert!(is_empty_or_comments_only("# only\n# comments", "py"));
    assert!(!is_empty_or_comments_only("#include <a.h>", "c"));
    assert!(!is_empty_or_comments_only("*ptr = 10;", "c"));
    let global = vec!["system(".to_string()];
    let custom = vec!["printf".to_string()];
    assert_eq!(check_forbidden_symbols("printf(\"x\"); system(\"ls\");", &custom, &global), Some("system(".to_string()));
    assert_eq!(check_forbidden_symbols("printf(\"x\");", &custom, &global), Some("printf".to_string()));
    assert_eq!(check_forbidden_symbols("puts(\"x\");", &custom, &global), None);
    let allowed = vec!["<mylib.h>".to_string()];
    assert_eq!(check_allowed_includes("#include <mylib.h>\n#include <stdio.h>\n#include \"evil.h\"", &allowed), Some("\"evil.h\"".to_string()));
    assert_eq!(check_allowed_includes("#include \"evil.h\"", &[]), None);
    assert_eq!(forbidden_patterns_from(Some("{\"forbidden_patterns\": [\"gets(\", 3, \"exec\"]}")), vec!["gets(", "exec"]);
    assert!(forbidden_patterns_from(Some("not json")).is_empty());
    assert!(forbidden_patterns_from(None).is_empty());
    assert_eq!(resolve_target(None, "Implement [src/main.c]"), Some("src/main.c".to_string()));
    assert_eq!(resolve_target(Some("a.c"), "ignored"), Some("a.c".to_string()));
    assert_eq!(resolve_target(None, "Do unknown"), None);
}

#[test]
fn patch_radius_regions_and_reports() {
    let regions = diagnostic_to_regions(&[Some(10), None, Some(2)]);
    assert_eq!(regions, vec![(7, 13), (0, 5)]);
    assert!(validate_patch_radius("a\nb\nc", "a\nB\nc", &[(1, 3)]).is_ok());
    let err = validate_patch_radius("a\nb\nc\nd\ne\nf", "a\nb\nc\nd\ne\nF", &[(1, 3)]).unwrap_err();
    assert_eq!(err, "🚨 [PATCH_RADIUS] Line 6 modified outside allowed regions [(1, 3)]:\n  old: f\n  new: F");
}

#[test]
fn task_run_escalates_after_three_rejections() {
    let mut run = TaskRun::start(None);
    assert_eq!(run.begin_attempt(true), AttemptStart::Paused);
    assert_eq!(run.begin_attempt(false), AttemptStart::Proceed);
    assert_eq!(run.rejected("first".to_string()), AfterRejection::Retry);
    run.agent_failed();
    assert_eq!(run.retries, 2);
    assert_eq!(run.begin_attempt(false), AttemptStart::Proceed);
    assert_eq!(run.rejected("last".to_string()), AfterRejection::Escalate);
    assert_eq!(run.error_feedback.as_deref(), Some("last"));
    assert_eq!(run.begin_attempt(false), AttemptStart::Exhausted);
}

#[test]
fn rejection_counters_and_gatekeepers() {
    let mut c = RejectionCounters { validator: 0, lsp: 0, cargo: 0, senior: 0, boss_interventions: 0 };
    c.record(RejectionSource::Compiler);
    c.record(RejectionSource::Senior);
    c.escalate();
    assert_eq!((c.validator, c.lsp, c.cargo, c.senior, c.boss_interventions), (0, 0, 1, 1, 1));
    assert_eq!(RejectionSource::Lsp.gatekeeper(), "lsp (semantic_gate)");
    assert_eq!(RejectionSource::Senior.gatekeeper(), "senior");
}

#[test]
fn harness_gate_rejections() {
    let none = harness_gate(None, Some("a.c"), &[], &[], &[]).unwrap();
    assert_eq!(none.classification, "empty_code");
    let empty = harness_gate(Some("// todo"), Some("a.c"), &[], &[], &[]).unwrap();
    assert_eq!(empty.message, "Proposed code is empty or contains only comments.");
    let sym = harness_gate(Some("int x = gets(b);"), Some("a.c"), &[], &["gets".to_string()], &[]).unwrap();
    assert_eq!(sym.reason, "🚨 [GLOBAL_HARNESS] Auto-rejected: Code contains forbidden symbol/function 'gets'.");
    let inc = harness_gate(Some("#include <x.h>\nint a;"), Some("a.c"), &[], &[], &["y.h".to_string()]).unwrap();
    assert_eq!(inc.classification, "non_conforming_include");
    assert!(harness_gate(Some("int a;"), Some("a.c"), &[], &[], &[]).is_none());
}

#[test]
fn promotion_needs_every_gate() {
    assert!(promotion_decision(None, RejectionSource::Senior, true, true, "ok").eligible());
    assert!(!promotion_decision(None, RejectionSource::Senior, false, false, "no").eligible());
    assert!(!promotion_decision(Some("bad"), RejectionSource::Validator, true, true, "ok").eligible());
    assert!(!promotion_decision(Some("bad"), RejectionSource::Lsp, true, true, "ok").eligible());
    assert_eq!(boss_feedback(false, "x".to_string(), "T"), "[BOSS_REJECTED] Boss overridden rejection for task: T");
    assert_eq!(boss_feedback(true, "x".to_string(), "T"), "x");
}

#[test]
fn diagnostics_of_rejections() {
    assert_eq!(error_line_of("Error at line 42: missing ;"), Some(42));
    assert_eq!(error_line_of("Line 7 is wrong"), Some(7));
    assert_eq!(error_line_of("no number here"), None);
    assert_eq!(error_line_of("line 99999999999999999999999"), None);
    assert_eq!(parse_decimal("+12"), Some(12));
    assert_eq!(parse_decimal("+"), None);
    assert_eq!(parse_decimal(""), None);
    assert_eq!(parse_decimal("18446744073709551615"), Some(usize::MAX));
    assert_eq!(diagnostic_message(&"x".repeat(600)).len(), 500);
    assert_eq!(usable_existing_code("  // Empty file \n"), "");
    assert_eq!(usable_existing_code("int a;"), "int a;");
    assert_eq!(lsp_language("src/A.CPP"), Some(Language::C));
    assert_eq!(lsp_language("x.lua"), None);
    assert!(is_compilable("main.rs"));
    assert!(!is_compilable("main.h"));
    assert_eq!(
        lsp_rejection(&[(3, "bad".to_string()), (9, "worse".to_string())]),
        "🚨 [LSP_GATEKEEPER] Auto-rejected: Static analysis found 2 error(s):\n[Line 3] bad\n[Line 9] worse"
    );
    let (reason, line, message) = compile_rejection("e1\ne2\ne3\ne4", None);
    assert_eq!(reason, " [COMPILATION_GATE] Build failed:\ne1\ne2\ne3\ne4");
    assert_eq!(line, None);
    assert_eq!(message, "e1\ne2\ne3");
    assert_eq!(approval_verdict("{\"approved\": true}"), Some(true));
    assert_eq!(approval_verdict("{\"approved\": false, \"status\": \"REJECTED\"}"), Some(false));
    assert_eq!(approval_verdict("{\"status\": \"PENDING\"}"), None);
    assert_eq!(approval_verdict("garbage"), None);
}

fn planned(target: Option<&str>, title: &str, status: TaskStatus, integrator: bool) -> PlannedTask {
    PlannedTask {
        project_id: "p".to_string(),
        title: title.to_string(),
        target_file: target.map(|t| t.to_string()),
        status,
        lifecycle: TaskLifecycleState::Queued,
        integrator,
    }
}

#[test]
fn phases_split_headers_sources_and_integrators() {
    let tasks = vec![
        planned(Some("a.h"), "A", TaskStatus::Pending, false),
        planned(None, "Write [b.c]", TaskStatus::Pending, false),
        planned(Some("main.c"), "M", TaskStatus::Pending, true),
        planned(Some("done.c"), "D", TaskStatus::Completed, false),
    ];
    let plan = plan_phases(&tasks, "p");
    assert_eq!(plan.headers, vec![0]);
    assert_eq!(plan.sources, vec![1]);
    assert_eq!(plan.integrators, vec![2]);
    assert_eq!(after_phase(1, &[TaskStatus::Completed, TaskStatus::Failed]), PhaseVerdict::Halt);
    assert_eq!(after_phase(2, &[TaskStatus::Completed]), PhaseVerdict::Continue);
    assert_eq!(after_phase(3, &[TaskStatus::Failed]), PhaseVerdict::Continue);
    assert_eq!(dispatch_plan(&[TaskStatus::Pending, TaskStatus::Completed, TaskStatus::Pending], 2), vec![(0, 0), (2, 0)]);
}

#[test]
fn dispatcher_queue_is_bounded_and_fifo() {
    let mut d = Dispatcher::new().with_limit(2);
    assert_eq!(d.enqueue_task(planned(None, "one", TaskStatus::Pending, false)), Ok(1));
    assert_eq!(d.enqueue_task(planned(None, "two", TaskStatus::Pending, false)), Ok(2));
    assert_eq!(d.enqueue_task(planned(None, "three", TaskStatus::Pending, false)), Err("QUEUE_FULL".to_string()));
    let ready = d.pop_ready_task(|t: &PlannedTask| t.title == "two").unwrap();
    assert_eq!(ready.title, "two");
    let out = d.schedule(vec!["agent-a".to_string(), "agent-b".to_string()]);
    assert_eq!(out.len(), 1);
    assert_eq!(out[0].task.title, "one");
    assert_eq!(out[0].task.status, TaskStatus::InProgress);
    assert_eq!(out[0].agent_id, "agent-a");
    assert!(d.pop_task().is_none());
}

fn agent(id: &str) -> AgentConfig {
    AgentConfig {
        id: Some(id.to_string()),
        runtime: "local".to_string(),
        provider: None,
        endpoint: None,
        model: "m".to_string(),
        provider_type: None,
    }
}

#[test]
fn board_and_agents() {
    let mut rec = TaskRecord {
        status: TaskStatus::Failed,
        lifecycle: TaskLifecycleState::Aborted,
        error_feedback: None,
        rework_count: 3,
        counters: RejectionCounters { validator: 1, lsp: 0, cargo: 0, senior: 2, boss_interventions: 1 },
    };
    assert_eq!(rec.apply(BoardAction::Retry, None, "fix it".to_string()), ThreadStatus::Draft);
    assert_eq!(rec.status, TaskStatus::Pending);
    assert_eq!(rec.rework_count, 0);
    assert_eq!(rec.counters.senior, 0);
    assert_eq!(rec.counters.boss_interventions, 2);
    assert_eq!(rec.error_feedback.as_deref(), Some("fix it"));
    assert_eq!(rec.apply(BoardAction::Approve, None, String::new()), ThreadStatus::Completed);
    assert_eq!(rec.lifecycle, TaskLifecycleState::Completed);

    let mut pool = AgentPool { juniors: vec![agent("j1")], seniors: vec![agent("s1")], architect: agent("a1") };
    assert_eq!(pool.fire(None, "j1"), FireOutcome::LastJunior);
    pool.hire(AgentRole::Junior, agent("j2"));
    assert_eq!(pool.fire(Some("junior"), "j1"), FireOutcome::FiredJunior);
    assert_eq!(pool.juniors.len(), 1);
    assert_eq!(pool.fire(Some("Senior"), "nobody"), FireOutcome::NotFound);
    assert_eq!(pool.fire(Some("boss"), "j2"), FireOutcome::InvalidRole);
    assert!(pool.swap_provider("a1", "cloud".to_string(), "p".to_string(), "big".to_string()));
    assert_eq!(pool.architect.model, "big");
    assert!(!pool.swap_provider("zz", "cloud".to_string(), "p".to_string(), "big".to_string()));

    let mut bs = BootstrapStatus::default();
    assert_eq!(bs.bootstrap_stage(), "idle");
    assert!(bs.start("spec-1".to_string()));
    assert!(!bs.start("spec-2".to_string()));
    assert_eq!(bs.bootstrap_stage(), "Running: queued");
    bs.complete();
    assert_eq!(bs.bootstrap_stage(), "Complete");
    assert_eq!(bs.state_label(), "Completed");
}

#[test]
fn header_slicer_companion_of_include_hpp_is_a_cpp_source() {
    let (header, cpp, path) = autonomous_header_slicer("include/foo.hpp", "int add(int a, int b) { return a + b; }").unwrap();
    assert_eq!(header, "int add(int a, int b);");
    assert_eq!(path, "src/foo.cpp");
    assert!(cpp.contains("int add(int a, int b) {\n    return a + b;\n}"));
    let (_, _, hpath) = autonomous_header_slicer("include/bar.h", "int two() { return 2; }").unwrap();
    assert_eq!(hpath, "src/bar.cpp");
}
