//! The attempts of one task as a state machine: from the state and the
//! answer of the last outside step (the Junior's proposal checked by the
//! global harness, the language server, the compiler, the Senior, the Boss),
//! the next state and the next outside step.
//!
//! The physical gates come first (harness, then the language server where
//! the target has one, then the compiler where the target builds); the
//! Senior is asked only when all of them passed; the Boss answers every
//! attempt; and an attempt is promoted only when no gate failed it.
use vstd::prelude::*;
use crate::pipeline::{normalize_output, senior_view, stripped_reasoning};
use crate::json::json_of;
use crate::schema::Language;
use crate::task_flow::{
    boss_feedback, build_failure, compilable, compile_rejection, decision_of, diagnostic_message,
    error_line_of, feedback_after_boss, feedback_line, first_chars, is_compilable, lsp_language,
    lsp_language_of, lsp_reason, lsp_rejection, promotion_decision, view_eligible,
    RejectionSource, MAX_TASK_RETRIES,
};
use crate::text::{concat_strs, owned, trim};

verus! {

/// Where an attempt stands: which answer is awaited.
#[derive(Clone, Copy, Debug, PartialEq, Eq, Structural)]
pub enum GateStage {
    /// A new attempt may begin.
    Begin,
    /// The Junior's proposal, checked by the global harness.
    Proposal,
    /// The language server's errors.
    Lsp,
    /// The compiler's verdict.
    Compile,
    /// The patch-radius check of a retry.
    PatchCheck,
    /// The Senior's review.
    Senior,
    /// The Boss's answer.
    Boss,
    /// The task is promoted or sent to the Boss Board.
    Done,
}

/// The state of a task's attempts.
pub struct GateState {
    pub stage: GateStage,
    pub title: String,
    /// The target file the task declares.
    pub target: Option<String>,
    pub retries: u32,
    pub max_retries: u32,
    /// The feedback of the last rejection, for the next proposal.
    pub feedback: Option<String>,
    /// Why a physical gate rejected this attempt.
    pub auto_reject: Option<String>,
    /// Which check rejected it (the Senior where none did).
    pub source: RejectionSource,
    /// The review the Boss sees.
    pub review: String,
}

/// A state as plain values.
#[verifier::ext_equal]
pub struct GateStateView {
    pub stage: GateStage,
    pub title: Seq<char>,
    pub target: Option<Seq<char>>,
    pub retries: u32,
    pub max_retries: u32,
    pub feedback: Option<Seq<char>>,
    pub auto_reject: Option<Seq<char>>,
    pub source: RejectionSource,
    pub review: Seq<char>,
}

/// The answer of an outside step.
pub enum GateEvent {
    /// An attempt may begin, unless the pipeline is paused.
    Begin { paused: bool },
    /// The Junior gave no proposal.
    JuniorFailed,
    /// The proposal was written and checked by the global harness: the
    /// rejection's text, if it was rejected.
    Harness(Option<String>),
    /// The language server's errors (line, message).
    LspChecked(Vec<(usize, String)>),
    /// The compiler's diagnostic and its first located error, if the build failed.
    Compiled(Option<(String, Option<(usize, String)>)>),
    /// The patch-radius check ran (it only warns).
    PatchChecked,
    /// The Senior gave no review.
    SeniorFailed,
    /// The Senior's review.
    Reviewed(String),
    /// The Boss's answer.
    BossAnswered(bool),
}

/// An event as plain values.
#[verifier::ext_equal]
pub enum GateEventView {
    Begin { paused: bool },
    JuniorFailed,
    Harness(Option<Seq<char>>),
    LspChecked(Seq<(usize, Seq<char>)>),
    Compiled(Option<(Seq<char>, Option<(usize, Seq<char>)>)>),
    PatchChecked,
    SeniorFailed,
    Reviewed(Seq<char>),
    BossAnswered(bool),
}

/// The next outside step.
pub enum GateAction {
    /// The pipeline is paused: stop here.
    Stop,
    /// The retries are spent: send the task to the Boss Board.
    Escalate,
    /// Ask the Junior for a proposal (with the state's feedback), write it,
    /// and run the global harness on it.
    AskJunior,
    /// Run the language server on the target.
    RunLsp(Language),
    /// Build the target.
    Compile,
    /// Check that a retry's changes stay near the last failures.
    CheckPatchRadius,
    /// Ask the Senior for a review.
    AskSenior,
    /// Show the review to the Boss and wait for the answer.
    WaitBoss(String),
    /// Promote the proposal.
    Promote,
    /// The attempt failed (the agent gave nothing): begin again.
    Retry,
    /// The attempt was rejected: keep the rejected source and this
    /// diagnostic, count the rejection against `source`, and begin again.
    KeepFailed {
        source: RejectionSource,
        gatekeeper: String,
        feedback: String,
        error_line: Option<usize>,
        message: String,
    },
    /// The answer does not fit the stage: nothing to do.
    Ignore,
}

/// An action as plain values.
#[verifier::ext_equal]
pub enum GateActionView {
    Stop,
    Escalate,
    AskJunior,
    RunLsp(Language),
    Compile,
    CheckPatchRadius,
    AskSenior,
    WaitBoss(Seq<char>),
    Promote,
    Retry,
    KeepFailed {
        source: RejectionSource,
        gatekeeper: Seq<char>,
        feedback: Seq<char>,
        error_line: Option<usize>,
        message: Seq<char>,
    },
    Ignore,
}

pub open spec fn opt_str(o: Option<String>) -> Option<Seq<char>> {
    match o {
        Some(s) => Some(s@),
        None => None,
    }
}

impl GateState {
    pub open spec fn view(&self) -> GateStateView {
        GateStateView {
            stage: self.stage,
            title: self.title@,
            target: opt_str(self.target),
            retries: self.retries,
            max_retries: self.max_retries,
            feedback: opt_str(self.feedback),
            auto_reject: opt_str(self.auto_reject),
            source: self.source,
            review: self.review@,
        }
    }
}

impl GateEvent {
    pub open spec fn view(&self) -> GateEventView {
        match self {
            GateEvent::Begin { paused } => GateEventView::Begin { paused: *paused },
            GateEvent::JuniorFailed => GateEventView::JuniorFailed,
            GateEvent::Harness(r) => GateEventView::Harness(opt_str(*r)),
            GateEvent::LspChecked(es) => GateEventView::LspChecked(es@.map_values(|e: (usize, String)| (e.0, e.1@))),
            GateEvent::Compiled(c) => GateEventView::Compiled(
                match c {
                    Some(d) => Some(
                        (
                            d.0@,
                            match d.1 {
                                Some(f) => Some((f.0, f.1@)),
                                None => None,
                            },
                        ),
                    ),
                    None => None,
                },
            ),
            GateEvent::PatchChecked => GateEventView::PatchChecked,
            GateEvent::SeniorFailed => GateEventView::SeniorFailed,
            GateEvent::Reviewed(r) => GateEventView::Reviewed(r@),
            GateEvent::BossAnswered(b) => GateEventView::BossAnswered(*b),
        }
    }
}

impl GateAction {
    pub open spec fn view(&self) -> GateActionView {
        match self {
            GateAction::Stop => GateActionView::Stop,
            GateAction::Escalate => GateActionView::Escalate,
            GateAction::AskJunior => GateActionView::AskJunior,
            GateAction::RunLsp(l) => GateActionView::RunLsp(*l),
            GateAction::Compile => GateActionView::Compile,
            GateAction::CheckPatchRadius => GateActionView::CheckPatchRadius,
            GateAction::AskSenior => GateActionView::AskSenior,
            GateAction::WaitBoss(r) => GateActionView::WaitBoss(r@),
            GateAction::Promote => GateActionView::Promote,
            GateAction::Retry => GateActionView::Retry,
            GateAction::KeepFailed { source, gatekeeper, feedback, error_line, message } => GateActionView::KeepFailed {
                source: *source,
                gatekeeper: gatekeeper@,
                feedback: feedback@,
                error_line: *error_line,
                message: message@,
            },
            GateAction::Ignore => GateActionView::Ignore,
        }
    }
}

// ---------------------------------------------------------------------------
// The model
// ---------------------------------------------------------------------------

/// One more attempt counted (within the counter's range).
pub open spec fn bumped(retries: u32) -> u32 {
    if retries < u32::MAX {
        (retries + 1) as u32
    } else {
        retries
    }
}

/// The review an automatic rejection shows the Boss.
pub open spec fn reject_review(reason: Seq<char>) -> Seq<char> {
    "[REJECT]\n"@ + reason
}

/// A physical gate rejected the attempt: the Senior is skipped and the Boss
/// is shown the rejection.
pub open spec fn gate_rejects(s: GateStateView, reason: Seq<char>, source: RejectionSource) -> (GateStateView, GateActionView) {
    (
        GateStateView { stage: GateStage::Boss, auto_reject: Some(reason), source, review: reject_review(reason), ..s },
        GateActionView::WaitBoss(reject_review(reason)),
    )
}

/// After the compiler (or where the target does not build): a retry's
/// patch radius is checked, else the Senior is asked.
pub open spec fn after_compile(s: GateStateView) -> (GateStateView, GateActionView) {
    if s.retries > 0 {
        (GateStateView { stage: GateStage::PatchCheck, ..s }, GateActionView::CheckPatchRadius)
    } else {
        (GateStateView { stage: GateStage::Senior, ..s }, GateActionView::AskSenior)
    }
}

/// After the language server (or where the target has none): the target
/// is built where it can be.
pub open spec fn after_lsp(s: GateStateView) -> (GateStateView, GateActionView) {
    match s.target {
        Some(t) => if compilable(t) {
            (GateStateView { stage: GateStage::Compile, ..s }, GateActionView::Compile)
        } else {
            after_compile(s)
        },
        None => after_compile(s),
    }
}

/// After the global harness passed: the language server runs where the
/// target has a language for it.
pub open spec fn after_harness(s: GateStateView) -> (GateStateView, GateActionView) {
    match s.target {
        Some(t) => match lsp_language_of(t) {
            Some(l) => (GateStateView { stage: GateStage::Lsp, ..s }, GateActionView::RunLsp(l)),
            None => after_lsp(s),
        },
        None => after_lsp(s),
    }
}

/// The Senior's feedback in a review.
pub open spec fn review_feedback(review: Seq<char>) -> Seq<char> {
    match senior_view(trim(review), json_of(trim(stripped_reasoning(trim(review))))).1 {
        Some(f) => f,
        None => seq![],
    }
}

/// The Boss answered: promote where no gate failed the attempt, else count
/// the rejection and keep its diagnostic for the next attempt.
pub open spec fn boss_answer(s: GateStateView, approved: bool) -> (GateStateView, GateActionView) {
    let fb = feedback_after_boss(approved, review_feedback(s.review), s.title);
    if view_eligible(decision_of(s.auto_reject, s.source, approved, approved, fb)) {
        (GateStateView { stage: GateStage::Done, ..s }, GateActionView::Promote)
    } else {
        (
            GateStateView { stage: GateStage::Begin, retries: bumped(s.retries), feedback: Some(fb), ..s },
            GateActionView::KeepFailed {
                source: s.source,
                gatekeeper: s.source.spec_gatekeeper(),
                feedback: fb,
                error_line: feedback_line(fb),
                message: first_chars(fb, 500),
            },
        )
    }
}

/// The next state and step of a task's attempts.
pub open spec fn gate_step_spec(s: GateStateView, ev: GateEventView) -> (GateStateView, GateActionView) {
    match (s.stage, ev) {
        (GateStage::Begin, GateEventView::Begin { paused }) => if paused {
            (s, GateActionView::Stop)
        } else if s.retries >= s.max_retries {
            (GateStateView { stage: GateStage::Done, ..s }, GateActionView::Escalate)
        } else {
            (
                GateStateView {
                    stage: GateStage::Proposal,
                    auto_reject: None,
                    source: RejectionSource::Senior,
                    review: seq![],
                    ..s
                },
                GateActionView::AskJunior,
            )
        },
        (GateStage::Proposal, GateEventView::JuniorFailed) => (
            GateStateView { stage: GateStage::Begin, retries: bumped(s.retries), ..s },
            GateActionView::Retry,
        ),
        (GateStage::Proposal, GateEventView::Harness(r)) => match r {
            Some(reason) => gate_rejects(s, reason, RejectionSource::Validator),
            None => after_harness(s),
        },
        (GateStage::Lsp, GateEventView::LspChecked(es)) => if es.len() > 0 {
            gate_rejects(s, lsp_reason(es), RejectionSource::Lsp)
        } else {
            after_lsp(s)
        },
        (GateStage::Compile, GateEventView::Compiled(c)) => match c {
            Some(d) => gate_rejects(s, build_failure(d.0, d.1).0, RejectionSource::Compiler),
            None => after_compile(s),
        },
        (GateStage::PatchCheck, GateEventView::PatchChecked) => (
            GateStateView { stage: GateStage::Senior, ..s },
            GateActionView::AskSenior,
        ),
        (GateStage::Senior, GateEventView::SeniorFailed) => (
            GateStateView { stage: GateStage::Begin, retries: bumped(s.retries), ..s },
            GateActionView::Retry,
        ),
        (GateStage::Senior, GateEventView::Reviewed(r)) => (
            GateStateView { stage: GateStage::Boss, review: r, ..s },
            GateActionView::WaitBoss(r),
        ),
        (GateStage::Boss, GateEventView::BossAnswered(b)) => boss_answer(s, b),
        _ => (s, GateActionView::Ignore),
    }
}

// ---------------------------------------------------------------------------
// Laws
// ---------------------------------------------------------------------------

/// A state of an attempt in progress carries no automatic rejection before
/// the Boss is asked.
pub open spec fn clean_before_boss(s: GateStateView) -> bool {
    (s.stage == GateStage::Proposal || s.stage == GateStage::Lsp || s.stage == GateStage::Compile
        || s.stage == GateStage::PatchCheck || s.stage == GateStage::Senior) ==> s.auto_reject is None
}

/// Every step keeps the states where no rejection is pending before the
/// Boss.
pub proof fn lemma_steps_keep_clean(s: GateStateView, ev: GateEventView)
    requires
        clean_before_boss(s),
    ensures
        clean_before_boss(gate_step_spec(s, ev).0),
{
}

/// The Senior is asked only once every physical gate passed: from a state
/// reached by the steps (so one where no rejection is pending), a step that
/// asks for a review leaves no automatic rejection and awaits the review.
pub proof fn lemma_senior_after_physical_gates(s: GateStateView, ev: GateEventView)
    requires
        clean_before_boss(s),
        gate_step_spec(s, ev).1 is AskSenior,
    ensures
        gate_step_spec(s, ev).0.auto_reject is None,
        gate_step_spec(s, ev).0.stage == GateStage::Senior,
{
}

/// An automatic rejection is recorded under the check that made it, and the
/// attempt it ends is never promoted.
pub proof fn lemma_rejection_recorded_under_source(s: GateStateView, reason: Seq<char>, source: RejectionSource, approved: bool)
    requires
        source != RejectionSource::Senior,
    ensures
        gate_rejects(s, reason, source).0.source == source,
        gate_rejects(s, reason, source).0.auto_reject == Some(reason),
        boss_answer(gate_rejects(s, reason, source).0, approved).1 matches GateActionView::KeepFailed { source: src, .. } && src == source,
{
}

// ---------------------------------------------------------------------------
// Executable parts
// ---------------------------------------------------------------------------

fn opt_copy(o: &Option<String>) -> (r: Option<String>)
    ensures
        opt_str(r) == opt_str(*o),
{
    match o {
        Some(x) => Some(owned(x.as_str())),
        None => None,
    }
}

impl GateState {
    /// The first state of a task: no attempt made yet, the budget of
    /// `MAX_TASK_RETRIES`, and the feedback the task carries.
    pub fn start(title: &str, target: Option<&str>, feedback: Option<String>) -> (s: GateState)
        ensures
            s@ == (GateStateView {
                stage: GateStage::Begin,
                title: title@,
                target: match target { Some(t) => Some(t@), None => None },
                retries: 0,
                max_retries: MAX_TASK_RETRIES,
                feedback: opt_str(feedback),
                auto_reject: None,
                source: RejectionSource::Senior,
                review: seq![],
            }),
    {
        proof {
            reveal_strlit("");
        }
        GateState {
            stage: GateStage::Begin,
            title: owned(title),
            target: match target {
                Some(t) => Some(owned(t)),
                None => None,
            },
            retries: 0,
            max_retries: MAX_TASK_RETRIES,
            feedback,
            auto_reject: None,
            source: RejectionSource::Senior,
            review: owned(""),
        }
    }

    fn copy_state(&self) -> (r: GateState)
        ensures
            r@ == self@,
    {
        GateState {
            stage: self.stage,
            title: owned(self.title.as_str()),
            target: opt_copy(&self.target),
            retries: self.retries,
            max_retries: self.max_retries,
            feedback: opt_copy(&self.feedback),
            auto_reject: opt_copy(&self.auto_reject),
            source: self.source,
            review: owned(self.review.as_str()),
        }
    }
}

fn bump(retries: u32) -> (r: u32)
    ensures
        r == bumped(retries),
{
    if retries < u32::MAX {
        retries + 1
    } else {
        retries
    }
}

fn rejects(s: &GateState, reason: String, source: RejectionSource) -> (r: (GateState, GateAction))
    ensures
        (r.0@, r.1@) == gate_rejects(s@, reason@, source),
{
    let review = concat_strs("[REJECT]\n", reason.as_str());
    let shown = owned(review.as_str());
    let mut n = s.copy_state();
    n.stage = GateStage::Boss;
    n.auto_reject = Some(reason);
    n.source = source;
    n.review = review;
    (n, GateAction::WaitBoss(shown))
}

fn compile_step(s: &GateState) -> (r: (GateState, GateAction))
    ensures
        (r.0@, r.1@) == after_compile(s@),
{
    let mut n = s.copy_state();
    if s.retries > 0 {
        n.stage = GateStage::PatchCheck;
        (n, GateAction::CheckPatchRadius)
    } else {
        n.stage = GateStage::Senior;
        (n, GateAction::AskSenior)
    }
}

fn lsp_step(s: &GateState) -> (r: (GateState, GateAction))
    ensures
        (r.0@, r.1@) == after_lsp(s@),
{
    match &s.target {
        Some(t) => {
            if is_compilable(t.as_str()) {
                let mut n = s.copy_state();
                n.stage = GateStage::Compile;
                (n, GateAction::Compile)
            } else {
                compile_step(s)
            }
        },
        None => compile_step(s),
    }
}

fn harness_step(s: &GateState) -> (r: (GateState, GateAction))
    ensures
        (r.0@, r.1@) == after_harness(s@),
{
    match &s.target {
        Some(t) => match lsp_language(t.as_str()) {
            Some(l) => {
                let mut n = s.copy_state();
                n.stage = GateStage::Lsp;
                (n, GateAction::RunLsp(l))
            },
            None => lsp_step(s),
        },
        None => lsp_step(s),
    }
}

fn boss_step(s: &GateState, approved: bool) -> (r: (GateState, GateAction))
    ensures
        (r.0@, r.1@) == boss_answer(s@, approved),
{
    proof {
        reveal_strlit("");
    }
    let normalized = normalize_output(s.review.as_str(), true);
    let senior_feedback = match normalized.feedback {
        Some(f) => f,
        None => owned(""),
    };
    let fb = boss_feedback(approved, senior_feedback, s.title.as_str());
    let decision = promotion_decision(
        match &s.auto_reject {
            Some(a) => Some(a.as_str()),
            None => None,
        },
        s.source,
        approved,
        approved,
        fb.as_str(),
    );
    let mut n = s.copy_state();
    if decision.eligible() {
        n.stage = GateStage::Done;
        (n, GateAction::Promote)
    } else {
        let error_line = error_line_of(fb.as_str());
        let message = diagnostic_message(fb.as_str());
        n.stage = GateStage::Begin;
        n.retries = bump(s.retries);
        n.feedback = Some(owned(fb.as_str()));
        (
            n,
            GateAction::KeepFailed {
                source: s.source,
                gatekeeper: owned(s.source.gatekeeper()),
                feedback: fb,
                error_line,
                message,
            },
        )
    }
}

/// One step of a task's attempts (see `gate_step_spec`).
pub fn gate_step(s: &GateState, ev: &GateEvent) -> (r: (GateState, GateAction))
    ensures
        (r.0@, r.1@) == gate_step_spec(s@, ev@),
{
    proof {
        reveal_strlit("");
    }
    match (s.stage, ev) {
        (GateStage::Begin, GateEvent::Begin { paused }) => {
            if *paused {
                (s.copy_state(), GateAction::Stop)
            } else if s.retries >= s.max_retries {
                let mut n = s.copy_state();
                n.stage = GateStage::Done;
                (n, GateAction::Escalate)
            } else {
                let mut n = s.copy_state();
                n.stage = GateStage::Proposal;
                n.auto_reject = None;
                n.source = RejectionSource::Senior;
                n.review = owned("");
                (n, GateAction::AskJunior)
            }
        },
        (GateStage::Proposal, GateEvent::JuniorFailed) => {
            let mut n = s.copy_state();
            n.stage = GateStage::Begin;
            n.retries = bump(s.retries);
            (n, GateAction::Retry)
        },
        (GateStage::Proposal, GateEvent::Harness(r)) => match r {
            Some(reason) => rejects(s, owned(reason.as_str()), RejectionSource::Validator),
            None => harness_step(s),
        },
        (GateStage::Lsp, GateEvent::LspChecked(es)) => {
            if es.len() > 0 {
                rejects(s, lsp_rejection(es.as_slice()), RejectionSource::Lsp)
            } else {
                lsp_step(s)
            }
        },
        (GateStage::Compile, GateEvent::Compiled(c)) => match c {
            Some(d) => {
                let first = match &d.1 {
                    Some(f) => Some((f.0, owned(f.1.as_str()))),
                    None => None,
                };
                let (reason, _line, _message) = compile_rejection(d.0.as_str(), first);
                rejects(s, reason, RejectionSource::Compiler)
            },
            None => compile_step(s),
        },
        (GateStage::PatchCheck, GateEvent::PatchChecked) => {
            let mut n = s.copy_state();
            n.stage = GateStage::Senior;
            (n, GateAction::AskSenior)
        },
        (GateStage::Senior, GateEvent::SeniorFailed) => {
            let mut n = s.copy_state();
            n.stage = GateStage::Begin;
            n.retries = bump(s.retries);
            (n, GateAction::Retry)
        },
        (GateStage::Senior, GateEvent::Reviewed(r)) => {
            let mut n = s.copy_state();
            n.stage = GateStage::Boss;
            n.review = owned(r.as_str());
            (n, GateAction::WaitBoss(owned(r.as_str())))
        },
        (GateStage::Boss, GateEvent::BossAnswered(b)) => boss_step(s, *b),
        _ => (s.copy_state(), GateAction::Ignore),
    }
}

} // verus!
