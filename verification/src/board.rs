//! The Boss Board and the HR board: what an approval, rejection or retry
//! does to a task, when the pipeline resumes, the bootstrap status shown,
//! and hiring, firing and re-providing agents.
use vstd::prelude::*;
use crate::ordmap::{str_eq, StrMap};
use crate::phases::{PlannedTask, TaskLifecycleState, TaskStatus};
use crate::task_flow::{opt_view, RejectionCounters, RejectionSource};
use crate::text::{chars_of, ends_with, lowercase, owned, push_str, str_ends_with, string_of, to_lower};

verus! {

// ---------------------------------------------------------------------------
// Board decisions on a task
// ---------------------------------------------------------------------------

/// What the Boss decides on a task waiting for review.
#[derive(Clone, Copy, Debug, PartialEq, Eq, Structural)]
pub enum BoardAction {
    Approve,
    Reject,
    Retry,
}

/// The status of a task's thread.
#[derive(Clone, Copy, Debug, PartialEq, Eq, Structural)]
pub enum ThreadStatus {
    Draft,
    Working,
    BossApproval,
    Completed,
}

/// What the Board changes on a task.
pub struct TaskRecord {
    pub status: TaskStatus,
    pub lifecycle: TaskLifecycleState,
    pub error_feedback: Option<String>,
    pub rework_count: u32,
    pub counters: RejectionCounters,
}

/// The thread status after a Board action.
pub open spec fn thread_after(a: BoardAction) -> ThreadStatus {
    match a {
        BoardAction::Retry => ThreadStatus::Draft,
        _ => ThreadStatus::Completed,
    }
}

impl TaskRecord {
    /// Applies a Board action: an approval completes the task, a rejection
    /// fails it, a retry queues it again from scratch with the Boss's
    /// feedback (else the Senior's); each counts as a Boss intervention.
    /// Returns the thread's new status.
    pub fn apply(&mut self, action: BoardAction, feedback: Option<String>, senior_feedback: String) -> (t: ThreadStatus)
        requires
            old(self).counters.boss_interventions < u32::MAX,
        ensures
            t == thread_after(action),
            final(self).counters.boss_interventions == old(self).counters.boss_interventions + 1,
            final(self).counters.validator == old(self).counters.validator,
            final(self).counters.lsp == old(self).counters.lsp,
            final(self).counters.cargo == old(self).counters.cargo,
            action == BoardAction::Approve ==> final(self).status == TaskStatus::Completed
                && final(self).lifecycle == TaskLifecycleState::Completed
                && final(self).counters.senior == old(self).counters.senior
                && final(self).rework_count == old(self).rework_count
                && opt_view(final(self).error_feedback) == opt_view(old(self).error_feedback),
            action == BoardAction::Reject ==> final(self).status == TaskStatus::Failed
                && final(self).lifecycle == TaskLifecycleState::Rejected
                && final(self).counters.senior == old(self).counters.senior
                && final(self).rework_count == old(self).rework_count
                && opt_view(final(self).error_feedback) == opt_view(old(self).error_feedback),
            action == BoardAction::Retry ==> final(self).status == TaskStatus::Pending
                && final(self).lifecycle == TaskLifecycleState::Queued
                && final(self).counters.senior == 0
                && final(self).rework_count == 0
                && opt_view(final(self).error_feedback) == Some(match feedback {
                    Some(f) => f@,
                    None => senior_feedback@,
                }),
    {
        match action {
            BoardAction::Approve => {
                self.status = TaskStatus::Completed;
                self.lifecycle = TaskLifecycleState::Completed;
            },
            BoardAction::Reject => {
                self.status = TaskStatus::Failed;
                self.lifecycle = TaskLifecycleState::Rejected;
            },
            BoardAction::Retry => {
                let f = match feedback {
                    Some(f) => f,
                    None => senior_feedback,
                };
                self.status = TaskStatus::Pending;
                self.lifecycle = TaskLifecycleState::Queued;
                self.error_feedback = Some(f);
                self.rework_count = 0;
                self.counters.senior = 0;
            },
        }
        self.counters.boss_interventions = self.counters.boss_interventions + 1;
        match action {
            BoardAction::Retry => ThreadStatus::Draft,
            _ => ThreadStatus::Completed,
        }
    }
}

// ---------------------------------------------------------------------------
// Resuming the pipeline
// ---------------------------------------------------------------------------

/// A task of the project that a Board decision leaves to run: not
/// completed, and not rejected, fatal or superseded.
pub open spec fn left_to_run(t: PlannedTask, project: Seq<char>) -> bool {
    &&& t.project_id@ == project
    &&& t.status != TaskStatus::Completed
    &&& t.lifecycle != TaskLifecycleState::Rejected
    &&& t.lifecycle != TaskLifecycleState::Fatal
    &&& t.lifecycle != TaskLifecycleState::Superseded
}

/// After a Board decision the pipeline resumes where the project has a task left to run.
pub fn has_pending(tasks: &[PlannedTask], project_id: &str) -> (b: bool)
    ensures
        b == exists|i: int| 0 <= i < tasks@.len() && left_to_run(#[trigger] tasks@[i], project_id@),
{
    let mut i: usize = 0;
    while i < tasks.len()
        invariant
            i <= tasks@.len(),
            forall|k: int| 0 <= k < i ==> !left_to_run(#[trigger] tasks@[k], project_id@),
        decreases tasks.len() - i,
    {
        let t = &tasks[i];
        if str_eq(t.project_id.as_str(), project_id) && t.status != TaskStatus::Completed
            && t.lifecycle != TaskLifecycleState::Rejected && t.lifecycle != TaskLifecycleState::Fatal
            && t.lifecycle != TaskLifecycleState::Superseded {
            return true;
        }
        i += 1;
    }
    false
}

/// A task a resumed pipeline runs: not completed, and not rejected,
/// superseded, fatal or aborted (of any project).
pub open spec fn resumable(t: PlannedTask) -> bool {
    &&& t.status != TaskStatus::Completed
    &&& t.lifecycle != TaskLifecycleState::Rejected
    &&& t.lifecycle != TaskLifecycleState::Superseded
    &&& t.lifecycle != TaskLifecycleState::Fatal
    &&& t.lifecycle != TaskLifecycleState::Aborted
}

/// How many tasks among the first `n` are resumable.
pub open spec fn resumable_count(ts: Seq<PlannedTask>, n: int) -> nat
    decreases n,
{
    if n <= 0 {
        0
    } else {
        resumable_count(ts, n - 1) + if resumable(ts[n - 1]) { 1nat } else { 0nat }
    }
}

proof fn lemma_none_resumable(ts: Seq<PlannedTask>, n: int)
    requires
        0 <= n <= ts.len(),
        forall|j: int| 0 <= j < n ==> !resumable(#[trigger] ts[j]),
    ensures
        resumable_count(ts, n) == 0,
    decreases n,
{
    if n > 0 {
        lemma_none_resumable(ts, n - 1);
    }
}

/// Resuming the pipeline: the project of the first resumable task and how
/// many tasks are resumable, or nothing where none is.
pub fn resume_target(tasks: &[PlannedTask]) -> (r: Option<(String, usize)>)
    ensures
        r matches Some(x) ==> x.1 == resumable_count(tasks@, tasks@.len() as int) && exists|i: int|
            0 <= i < tasks@.len() && resumable(#[trigger] tasks@[i]) && x.0@ == tasks@[i].project_id@ && (forall|j: int|
                0 <= j < i ==> !resumable(#[trigger] tasks@[j])),
        r is None ==> resumable_count(tasks@, tasks@.len() as int) == 0 && forall|j: int|
            0 <= j < tasks@.len() ==> !resumable(#[trigger] tasks@[j]),
{
    let mut first: Option<usize> = None;
    let mut count: usize = 0;
    let mut i: usize = 0;
    while i < tasks.len()
        invariant
            i <= tasks@.len(),
            count == resumable_count(tasks@, i as int),
            count <= i,
            match first {
                Some(f) => f < i && resumable(tasks@[f as int]) && forall|j: int| 0 <= j < f ==> !resumable(#[trigger] tasks@[j]),
                None => forall|j: int| 0 <= j < i ==> !resumable(#[trigger] tasks@[j]),
            },
        decreases tasks.len() - i,
    {
        let t = &tasks[i];
        if t.status != TaskStatus::Completed && t.lifecycle != TaskLifecycleState::Rejected
            && t.lifecycle != TaskLifecycleState::Superseded && t.lifecycle != TaskLifecycleState::Fatal
            && t.lifecycle != TaskLifecycleState::Aborted {
            count += 1;
            if first.is_none() {
                first = Some(i);
            }
        }
        i += 1;
    }
    match first {
        Some(f) => Some({
            let p = owned(tasks[f].project_id.as_str());
            assert(count == resumable_count(tasks@, tasks@.len() as int));
            assert(forall|j: int| 0 <= j < f ==> !resumable(#[trigger] tasks@[j]));
            assert(0 <= f < tasks@.len() && resumable(tasks@[f as int]) && p@ == tasks@[f as int].project_id@);
            assert(exists|i: int|
                0 <= i < tasks@.len() && resumable(#[trigger] tasks@[i]) && p@ == tasks@[i].project_id@ && (forall|j: int|
                    0 <= j < i ==> !resumable(#[trigger] tasks@[j])));
            let r = (p, count);
            r
        }),
        None => {
            proof {
                lemma_none_resumable(tasks@, tasks@.len() as int);
            }
            None
        },
    }
}

/// A task whose declared target is a header.
pub open spec fn declared_header(t: PlannedTask) -> bool {
    match t.target_file {
        Some(f) => ends_with(f@, ".h"@) || ends_with(f@, ".hpp"@),
        None => false,
    }
}

/// After a thread's approval the pipeline restarts for phase 2 when the
/// project has header tasks, all completed, and a source task still open,
/// and no pipeline runs.
pub open spec fn phase2_restart(ts: Seq<PlannedTask>, project: Seq<char>, running: bool) -> bool {
    &&& exists|i: int| 0 <= i < ts.len() && #[trigger] ts[i].project_id@ == project && declared_header(ts[i])
    &&& forall|i: int| 0 <= i < ts.len() && #[trigger] ts[i].project_id@ == project && declared_header(ts[i]) ==> ts[i].status
        == TaskStatus::Completed
    &&& exists|i: int|
        0 <= i < ts.len() && #[trigger] ts[i].project_id@ == project && ts[i].status != TaskStatus::Completed
            && ts[i].lifecycle != TaskLifecycleState::Rejected && ts[i].lifecycle != TaskLifecycleState::Fatal
            && !declared_header(ts[i])
    &&& !running
}

fn is_declared_header(t: &PlannedTask) -> (b: bool)
    ensures
        b == declared_header(*t),
{
    match &t.target_file {
        Some(f) => str_ends_with(f.as_str(), ".h") || str_ends_with(f.as_str(), ".hpp"),
        None => false,
    }
}

pub fn should_restart_phase2(tasks: &[PlannedTask], project_id: &str, running: bool) -> (b: bool)
    ensures
        b == phase2_restart(tasks@, project_id@, running),
{
    let ts = tasks;
    let mut any_header = false;
    let mut all_done = true;
    let mut any_source = false;
    let mut i: usize = 0;
    while i < ts.len()
        invariant
            i <= ts@.len(),
            any_header == exists|k: int| 0 <= k < i && #[trigger] ts@[k].project_id@ == project_id@ && declared_header(ts@[k]),
            all_done == forall|k: int|
                0 <= k < i && #[trigger] ts@[k].project_id@ == project_id@ && declared_header(ts@[k]) ==> ts@[k].status
                    == TaskStatus::Completed,
            any_source == exists|k: int|
                0 <= k < i && #[trigger] ts@[k].project_id@ == project_id@ && ts@[k].status != TaskStatus::Completed
                    && ts@[k].lifecycle != TaskLifecycleState::Rejected && ts@[k].lifecycle != TaskLifecycleState::Fatal
                    && !declared_header(ts@[k]),
        decreases ts.len() - i,
    {
        let t = &ts[i];
        let same = str_eq(t.project_id.as_str(), project_id);
        let h = is_declared_header(t);
        if same && h {
            any_header = true;
            if t.status != TaskStatus::Completed {
                all_done = false;
            }
        }
        if same && t.status != TaskStatus::Completed && t.lifecycle != TaskLifecycleState::Rejected
            && t.lifecycle != TaskLifecycleState::Fatal && !h {
            any_source = true;
        }
        i += 1;
    }
    any_header && all_done && any_source && !running
}

// ---------------------------------------------------------------------------
// The bootstrap status
// ---------------------------------------------------------------------------

/// Where the bootstrap of a specification stands.
pub struct BootstrapStatus {
    pub stage: String,
    pub message: String,
    pub is_running: bool,
    pub is_complete: bool,
    pub error: Option<String>,
    pub project_id: Option<String>,
}

impl Default for BootstrapStatus {
    fn default() -> (r: Self)
        ensures
            r.stage@ == "idle"@,
            r.message@ == "Awaiting specification submission."@,
            !r.is_running,
            !r.is_complete,
            r.error is None,
            r.project_id is None,
    {
        BootstrapStatus {
            stage: owned("idle"),
            message: owned("Awaiting specification submission."),
            is_running: false,
            is_complete: false,
            error: None,
            project_id: None,
        }
    }
}

impl BootstrapStatus {
    /// The stage shown: `Complete`, the running stage, or the stage.
    pub open spec fn shown_stage(&self) -> Seq<char> {
        if self.is_complete {
            "Complete"@
        } else if self.is_running {
            "Running: "@ + self.stage@
        } else {
            self.stage@
        }
    }

    pub fn bootstrap_stage(&self) -> (s: String)
        ensures
            s@ == self.shown_stage(),
    {
        if self.is_complete {
            owned("Complete")
        } else if self.is_running {
            crate::text::concat_strs("Running: ", self.stage.as_str())
        } else {
            owned(self.stage.as_str())
        }
    }

    /// The state shown for a project's specification.
    pub fn state_label(&self) -> (s: &'static str)
        ensures
            s@ == if self.is_complete {
                "Completed"@
            } else if self.error is Some {
                "Failed"@
            } else {
                "Running"@
            },
    {
        if self.is_complete {
            "Completed"
        } else if self.error.is_some() {
            "Failed"
        } else {
            "Running"
        }
    }

    /// A submitted specification starts the bootstrap unless one is
    /// running; `false` (and nothing changed) where one is.
    pub fn start(&mut self, project_id: String) -> (started: bool)
        ensures
            started == !old(self).is_running,
            !started ==> final(self).stage@ == old(self).stage@ && final(self).message@ == old(self).message@
                && final(self).is_running == old(self).is_running && final(self).is_complete == old(self).is_complete
                && opt_view(final(self).error) == opt_view(old(self).error)
                && opt_view(final(self).project_id) == opt_view(old(self).project_id),
            started ==> final(self).is_running && !final(self).is_complete && final(self).stage@ == "queued"@
                && final(self).message@ == "Spec received. Starting bootstrap pipeline..."@
                && final(self).error is None && opt_view(final(self).project_id) == Some(project_id@),
    {
        if self.is_running {
            return false;
        }
        self.is_running = true;
        self.stage = owned("queued");
        self.message = owned("Spec received. Starting bootstrap pipeline...");
        self.is_complete = false;
        self.error = None;
        self.project_id = Some(project_id);
        true
    }

    /// The analysis of the specification has begun.
    pub fn analysing(&mut self)
        ensures
            final(self).stage@ == "SpecAnalysis"@,
            final(self).message@ == "Running specification analysis..."@,
            final(self).is_running == old(self).is_running,
            final(self).is_complete == old(self).is_complete,
    {
        self.stage = owned("SpecAnalysis");
        self.message = owned("Running specification analysis...");
    }

    /// The bootstrap finished.
    pub fn complete(&mut self)
        ensures
            final(self).stage@ == "complete"@,
            final(self).message@ == "Bootstrap completed successfully."@,
            !final(self).is_running,
            final(self).is_complete,
    {
        self.stage = owned("complete");
        self.message = owned("Bootstrap completed successfully.");
        self.is_running = false;
        self.is_complete = true;
    }

    /// The bootstrap failed with an error.
    pub fn fail(&mut self, error: String)
        ensures
            final(self).stage@ == "failed"@,
            final(self).message@ == "Bootstrap failed."@,
            !final(self).is_running,
            opt_view(final(self).error) == Some(error@),
    {
        self.stage = owned("failed");
        self.message = owned("Bootstrap failed.");
        self.is_running = false;
        self.error = Some(error);
    }

    /// The bootstrap stopped before its stages with an error.
    pub fn abort(&mut self, error: String)
        ensures
            final(self).stage@ == old(self).stage@,
            !final(self).is_running,
            opt_view(final(self).error) == Some(error@),
    {
        self.is_running = false;
        self.error = Some(error);
    }
}

// ---------------------------------------------------------------------------
// Agents
// ---------------------------------------------------------------------------

/// How an agent is run.
pub struct AgentConfig {
    pub id: Option<String>,
    pub runtime: String,
    pub provider: Option<String>,
    pub endpoint: Option<String>,
    pub model: String,
    pub provider_type: Option<String>,
}

/// The agents of a project: Juniors write, Seniors review, one Architect designs.
pub struct AgentPool {
    pub juniors: Vec<AgentConfig>,
    pub seniors: Vec<AgentConfig>,
    pub architect: AgentConfig,
}

/// The personas of agents, by agent id.
pub struct PersonaRegistry<P> {
    pub personas: StrMap<P>,
}

/// The roles an agent is hired into.
#[derive(Clone, Copy, Debug, PartialEq, Eq, Structural)]
pub enum AgentRole {
    Junior,
    Senior,
    Architect,
}

/// The role a request names (`Junior`/`junior`, and so on).
pub open spec fn role_named(r: Seq<char>) -> Option<AgentRole> {
    if r == "Junior"@ || r == "junior"@ {
        Some(AgentRole::Junior)
    } else if r == "Senior"@ || r == "senior"@ {
        Some(AgentRole::Senior)
    } else if r == "Architect"@ || r == "architect"@ {
        Some(AgentRole::Architect)
    } else {
        None
    }
}

pub fn parse_role(r: &str) -> (a: Option<AgentRole>)
    ensures
        a == role_named(r@),
{
    if str_eq(r, "Junior") || str_eq(r, "junior") {
        Some(AgentRole::Junior)
    } else if str_eq(r, "Senior") || str_eq(r, "senior") {
        Some(AgentRole::Senior)
    } else if str_eq(r, "Architect") || str_eq(r, "architect") {
        Some(AgentRole::Architect)
    } else {
        None
    }
}

/// A new agent's id: the role lowercased, `-agent-`, and a unique suffix.
pub fn new_agent_id(role: &str, suffix: &str) -> (r: String)
    ensures
        r@ == lowercase(role@) + "-agent-"@ + suffix@,
{
    let l = to_lower(role);
    crate::text::cat3(l.as_str(), "-agent-", suffix)
}

/// The agent carries the id.
pub open spec fn has_id(a: AgentConfig, id: Seq<char>) -> bool {
    match a.id {
        Some(s) => s@ == id,
        None => false,
    }
}

/// The agents other than those carrying the id, in order.
pub open spec fn without_id(s: Seq<AgentConfig>, id: Seq<char>) -> Seq<AgentConfig>
    decreases s.len(),
{
    if s.len() == 0 {
        seq![]
    } else {
        without_id(s.drop_last(), id) + if has_id(s.last(), id) { seq![] } else { seq![s.last()] }
    }
}

fn carries_id(a: &AgentConfig, id: &str) -> (b: bool)
    ensures
        b == has_id(*a, id@),
{
    match &a.id {
        Some(s) => str_eq(s.as_str(), id),
        None => false,
    }
}

fn remove_id(v: &mut Vec<AgentConfig>, id: &str)
    ensures
        final(v)@ == without_id(old(v)@, id@),
{
    let ghost s = v@;
    let n0 = v.len();
    assert(s.len() == n0);
    let mut i: usize = 0;
    let mut consumed: usize = 0;
    assert(s.take(0) =~= Seq::<AgentConfig>::empty());
    assert(v@ =~= without_id(s.take(0), id@) + s.skip(0));
    while i < v.len()
        invariant
            s.len() <= usize::MAX,
            consumed <= s.len(),
            i == without_id(s.take(consumed as int), id@).len(),
            v@ == without_id(s.take(consumed as int), id@) + s.skip(consumed as int),
        decreases v.len() - i,
    {
        let ghost kept = without_id(s.take(consumed as int), id@);
        assert(v@.len() == kept.len() + s.skip(consumed as int).len());
        assert(consumed < s.len());
        assert(v@[i as int] == s[consumed as int]);
        assert(s.take(consumed + 1).drop_last() =~= s.take(consumed as int));
        assert(s.take(consumed + 1).last() == s[consumed as int]);
        if carries_id(&v[i], id) {
            v.remove(i);
            assert(v@ =~= without_id(s.take(consumed + 1), id@) + s.skip(consumed + 1));
        } else {
            assert(v@ =~= without_id(s.take(consumed + 1), id@) + s.skip(consumed + 1));
            i += 1;
        }
        consumed += 1;
    }
    assert(s.take(s.len() as int) =~= s);
    assert(s.skip(s.len() as int) =~= Seq::<AgentConfig>::empty());
    assert(v@ =~= without_id(s, id@));
}

/// What firing an agent came to.
#[derive(Clone, Copy, Debug, PartialEq, Eq, Structural)]
pub enum FireOutcome {
    /// A Junior was let go (its task slot goes with it).
    FiredJunior,
    /// A Senior was let go.
    FiredSenior,
    /// No agent of the role carries the id.
    NotFound,
    /// The last Junior stays.
    LastJunior,
    /// The last Senior stays.
    LastSenior,
    /// The role is neither Junior nor Senior.
    InvalidRole,
}

impl AgentPool {
    /// Hires an agent into a role: Juniors and Seniors join their list,
    /// an Architect replaces the Architect.
    pub fn hire(&mut self, role: AgentRole, config: AgentConfig)
        ensures
            role == AgentRole::Junior ==> final(self).juniors@ == old(self).juniors@.push(config)
                && final(self).seniors@ == old(self).seniors@ && final(self).architect == old(self).architect,
            role == AgentRole::Senior ==> final(self).seniors@ == old(self).seniors@.push(config)
                && final(self).juniors@ == old(self).juniors@ && final(self).architect == old(self).architect,
            role == AgentRole::Architect ==> final(self).architect == config && final(self).juniors@ == old(self).juniors@
                && final(self).seniors@ == old(self).seniors@,
    {
        match role {
            AgentRole::Junior => self.juniors.push(config),
            AgentRole::Senior => self.seniors.push(config),
            AgentRole::Architect => self.architect = config,
        }
    }

    /// Fires the agents of a role carrying an id (the role named `junior`
    /// where the request names none). The last Junior and an empty Senior
    /// list are kept as they are.
    pub fn fire(&mut self, role: Option<&str>, agent_id: &str) -> (r: FireOutcome)
        ensures
            final(self).architect == old(self).architect,
            ({
                let rn = match role {
                    Some(x) => x@,
                    None => "junior"@,
                };
                if rn == "Junior"@ || rn == "junior"@ {
                    (if old(self).juniors@.len() <= 1 {
                        r == FireOutcome::LastJunior && final(self).juniors@ == old(self).juniors@
                    } else {
                        final(self).juniors@ == without_id(old(self).juniors@, agent_id@) && r == if final(self).juniors@.len()
                            < old(self).juniors@.len() {
                            FireOutcome::FiredJunior
                        } else {
                            FireOutcome::NotFound
                        }
                    }) && final(self).seniors@ == old(self).seniors@
                } else if rn == "Senior"@ || rn == "senior"@ {
                    (if old(self).seniors@.len() == 0 {
                        r == FireOutcome::LastSenior && final(self).seniors@ == old(self).seniors@
                    } else {
                        final(self).seniors@ == without_id(old(self).seniors@, agent_id@) && r == if final(self).seniors@.len()
                            < old(self).seniors@.len() {
                            FireOutcome::FiredSenior
                        } else {
                            FireOutcome::NotFound
                        }
                    }) && final(self).juniors@ == old(self).juniors@
                } else {
                    r == FireOutcome::InvalidRole && final(self).juniors@ == old(self).juniors@ && final(self).seniors@
                        == old(self).seniors@
                }
            }),
    {
        let rn: &str = match role {
            Some(x) => x,
            None => "junior",
        };
        if str_eq(rn, "Junior") || str_eq(rn, "junior") {
            if self.juniors.len() <= 1 {
                return FireOutcome::LastJunior;
            }
            let before = self.juniors.len();
            remove_id(&mut self.juniors, agent_id);
            if self.juniors.len() < before {
                FireOutcome::FiredJunior
            } else {
                FireOutcome::NotFound
            }
        } else if str_eq(rn, "Senior") || str_eq(rn, "senior") {
            if self.seniors.len() == 0 {
                return FireOutcome::LastSenior;
            }
            let before = self.seniors.len();
            remove_id(&mut self.seniors, agent_id);
            if self.seniors.len() < before {
                FireOutcome::FiredSenior
            } else {
                FireOutcome::NotFound
            }
        } else {
            FireOutcome::InvalidRole
        }
    }
}

/// How many agents carry the id.
pub open spec fn id_count(s: Seq<AgentConfig>, id: Seq<char>) -> nat
    decreases s.len(),
{
    if s.len() == 0 {
        0
    } else {
        id_count(s.drop_last(), id) + if has_id(s.last(), id) { 1nat } else { 0nat }
    }
}

/// No two agents carry the same id.
pub open spec fn distinct_ids(s: Seq<AgentConfig>) -> bool {
    forall|i: int, j: int|
        0 <= i < j < s.len() ==> !(#[trigger] s[i].id is Some && #[trigger] s[j].id is Some && s[i].id->0@ == s[j].id->0@)
}

proof fn lemma_without_len(s: Seq<AgentConfig>, id: Seq<char>)
    ensures
        without_id(s, id).len() + id_count(s, id) == s.len(),
    decreases s.len(),
{
    if s.len() > 0 {
        lemma_without_len(s.drop_last(), id);
    }
}

proof fn lemma_id_count_distinct(s: Seq<AgentConfig>, id: Seq<char>)
    requires
        distinct_ids(s),
    ensures
        id_count(s, id) <= 1,
        id_count(s, id) == 1 ==> exists|k: int| 0 <= k < s.len() && has_id(#[trigger] s[k], id),
    decreases s.len(),
{
    if s.len() > 0 {
        let d = s.drop_last();
        assert forall|i: int, j: int| 0 <= i < j < d.len() implies !(#[trigger] d[i].id is Some && #[trigger] d[j].id is Some
            && d[i].id->0@ == d[j].id->0@) by {
            assert(d[i] == s[i] && d[j] == s[j]);
        }
        lemma_id_count_distinct(d, id);
        if has_id(s.last(), id) && id_count(d, id) == 1 {
            let k = choose|k: int| 0 <= k < d.len() && has_id(#[trigger] d[k], id);
            assert(d[k] == s[k]);
            assert(s[k].id is Some && s[s.len() - 1].id is Some);
            assert(false);
        }
        if id_count(s, id) == 1 && !has_id(s.last(), id) {
            let k = choose|k: int| 0 <= k < d.len() && has_id(#[trigger] d[k], id);
            assert(d[k] == s[k]);
        }
    }
}

/// Where agents carry distinct ids, firing one of two or more leaves at
/// least one: the last Junior is never fired.
pub proof fn lemma_firing_keeps_one(s: Seq<AgentConfig>, id: Seq<char>)
    requires
        s.len() >= 2,
        distinct_ids(s),
    ensures
        without_id(s, id).len() >= 1,
{
    lemma_without_len(s, id);
    lemma_id_count_distinct(s, id);
}

/// The first agent carrying the id, from position `k` on.
pub open spec fn first_with_id(s: Seq<AgentConfig>, id: Seq<char>, k: int) -> Option<int>
    decreases s.len() - k,
{
    if k < 0 || k >= s.len() {
        None
    } else if has_id(s[k], id) {
        Some(k)
    } else {
        first_with_id(s, id, k + 1)
    }
}

proof fn lemma_first_with_id(s: Seq<AgentConfig>, id: Seq<char>, k: int)
    requires
        0 <= k,
    ensures
        first_with_id(s, id, k) matches Some(i) ==> k <= i < s.len(),
    decreases s.len() - k,
{
    if k < s.len() && !has_id(s[k], id) {
        lemma_first_with_id(s, id, k + 1);
    }
}

fn find_id(v: &Vec<AgentConfig>, id: &str) -> (r: Option<usize>)
    ensures
        match r {
            Some(i) => first_with_id(v@, id@, 0) == Some(i as int) && i < v@.len(),
            None => first_with_id(v@, id@, 0) is None,
        },
{
    let mut k: usize = 0;
    while k < v.len()
        invariant
            k <= v@.len(),
            first_with_id(v@, id@, 0) == first_with_id(v@, id@, k as int),
        decreases v.len() - k,
    {
        if carries_id(&v[k], id) {
            return Some(k);
        }
        k += 1;
    }
    None
}

/// An agent moved to another runtime, provider and model.
pub open spec fn reprovided(a: AgentConfig, runtime: String, provider: String, model: String) -> AgentConfig {
    AgentConfig { runtime, provider: Some(provider), model, ..a }
}

fn reprovide(a: AgentConfig, runtime: String, provider: String, model: String) -> (r: AgentConfig)
    ensures
        r == reprovided(a, runtime, provider, model),
{
    AgentConfig { runtime, provider: Some(provider), model, ..a }
}

impl AgentPool {
    /// Moves the agent with the id to another runtime, provider and model:
    /// the first Junior carrying it, else the first Senior, else the
    /// Architect; `false` where no agent carries it.
    pub fn swap_provider(&mut self, agent_id: &str, runtime: String, provider: String, model: String) -> (found: bool)
        ensures
            match first_with_id(old(self).juniors@, agent_id@, 0) {
                Some(i) => found && final(self).juniors@ == old(self).juniors@.update(i, reprovided(old(self).juniors@[i], runtime, provider, model))
                    && final(self).seniors@ == old(self).seniors@ && final(self).architect == old(self).architect,
                None => final(self).juniors@ == old(self).juniors@ && match first_with_id(old(self).seniors@, agent_id@, 0) {
                    Some(i) => found && final(self).seniors@ == old(self).seniors@.update(i, reprovided(old(self).seniors@[i], runtime, provider, model))
                        && final(self).architect == old(self).architect,
                    None => final(self).seniors@ == old(self).seniors@ && if has_id(old(self).architect, agent_id@) {
                        found && final(self).architect == reprovided(old(self).architect, runtime, provider, model)
                    } else {
                        !found && final(self).architect == old(self).architect
                    },
                },
            },
    {
        match find_id(&self.juniors, agent_id) {
            Some(i) => {
                let a = self.juniors.remove(i);
                self.juniors.insert(i, reprovide(a, runtime, provider, model));
                assert(self.juniors@ =~= old(self).juniors@.update(i as int, reprovided(old(self).juniors@[i as int], runtime, provider, model)));
                return true;
            },
            None => {},
        }
        match find_id(&self.seniors, agent_id) {
            Some(i) => {
                let a = self.seniors.remove(i);
                self.seniors.insert(i, reprovide(a, runtime, provider, model));
                assert(self.seniors@ =~= old(self).seniors@.update(i as int, reprovided(old(self).seniors@[i as int], runtime, provider, model)));
                return true;
            },
            None => {},
        }
        if carries_id(&self.architect, agent_id) {
            self.architect.runtime = runtime;
            self.architect.provider = Some(provider);
            self.architect.model = model;
            return true;
        }
        false
    }
}


/// After a restart, a task still awaits the Boss Board's review: it failed
/// and was aborted after the Boss was called in, and its thread waits for
/// the Boss.
pub open spec fn awaiting_review(r: TaskRecord, thread: ThreadStatus) -> bool {
    &&& r.status == TaskStatus::Failed
    &&& r.lifecycle == TaskLifecycleState::Aborted
    &&& r.counters.boss_interventions > 0
    &&& thread == ThreadStatus::BossApproval
}

/// Whether a stored task is recovered as a pending review on start-up.
pub fn awaits_boss_review(record: &TaskRecord, thread: ThreadStatus) -> (b: bool)
    ensures
        b == awaiting_review(*record, thread),
{
    record.status == TaskStatus::Failed && record.lifecycle == TaskLifecycleState::Aborted
        && record.counters.boss_interventions > 0 && thread == ThreadStatus::BossApproval
}

/// The Senior feedback of a recovered review: the stored review's text
/// where it is not empty, else the task's feedback, else nothing.
pub open spec fn recovered_feedback_of(review: Option<Seq<char>>, error_feedback: Option<Seq<char>>) -> Seq<char> {
    match review {
        Some(c) if c.len() > 0 => c,
        _ => match error_feedback {
            Some(f) => f,
            None => seq![],
        },
    }
}

pub fn recovered_feedback(review: Option<&str>, error_feedback: Option<&str>) -> (r: String)
    ensures
        r@ == recovered_feedback_of(
            match review { Some(c) => Some(c@), None => None },
            match error_feedback { Some(f) => Some(f@), None => None },
        ),
{
    proof {
        reveal_strlit("");
    }
    match review {
        Some(c) => {
            if !c.is_empty() {
                return owned(c);
            }
        },
        None => {},
    }
    match error_feedback {
        Some(f) => owned(f),
        None => owned(""),
    }
}
} // verus!
