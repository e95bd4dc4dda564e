//! The plan of a pipeline run: which tasks are pending, the three phases
//! they run in (headers, then sources, then integrators), the check between
//! phases, and which Junior takes which task.
use vstd::prelude::*;
use crate::harness::{resolve_target, target_of};
use crate::text::{ends_with, str_ends_with};

verus! {

/// Where a task stands.
#[derive(Clone, Copy, Debug, PartialEq, Eq, Structural)]
pub enum TaskStatus {
    Pending,
    InProgress,
    Completed,
    Failed,
}

/// The lifecycle of a task.
#[derive(Clone, Copy, Debug, PartialEq, Eq, Structural)]
pub enum TaskLifecycleState {
    Queued,
    Running,
    Completed,
    Rejected,
    Superseded,
    Fatal,
    Aborted,
}

/// What the plan reads of a task.
pub struct PlannedTask {
    pub project_id: String,
    pub title: String,
    pub target_file: Option<String>,
    pub status: TaskStatus,
    pub lifecycle: TaskLifecycleState,
    /// The task integrates the project (a C integrator task).
    pub integrator: bool,
}

/// A task of the project that is still to be done: not completed, and not
/// rejected, superseded, fatal or aborted.
pub open spec fn pending(t: PlannedTask, project: Seq<char>) -> bool {
    &&& t.project_id@ == project
    &&& t.status != TaskStatus::Completed
    &&& t.lifecycle != TaskLifecycleState::Rejected
    &&& t.lifecycle != TaskLifecycleState::Superseded
    &&& t.lifecycle != TaskLifecycleState::Fatal
    &&& t.lifecycle != TaskLifecycleState::Aborted
}

/// The task's target, declared or taken from its title.
pub open spec fn task_target(t: PlannedTask) -> Option<Seq<char>> {
    target_of(
        match t.target_file {
            Some(f) => Some(f@),
            None => None,
        },
        t.title@,
    )
}

/// The task targets a header.
pub open spec fn targets_header(t: PlannedTask) -> bool {
    match task_target(t) {
        Some(f) => ends_with(f, ".h"@) || ends_with(f, ".hpp"@),
        None => false,
    }
}

/// Phase 1 holds the header tasks, phase 2 the tasks that are neither
/// header nor integrator tasks, phase 3 the integrator tasks (a header
/// integrator runs in phases 1 and 3).
pub open spec fn in_phase(t: PlannedTask, phase: int) -> bool {
    if phase == 1 {
        targets_header(t)
    } else if phase == 2 {
        !targets_header(t) && !t.integrator
    } else {
        t.integrator
    }
}

/// The positions, among the first `n` tasks, of the pending tasks of a phase, in order.
pub open spec fn phase_tasks(ts: Seq<PlannedTask>, project: Seq<char>, phase: int, n: int) -> Seq<usize>
    decreases n,
{
    if n <= 0 {
        seq![]
    } else {
        phase_tasks(ts, project, phase, n - 1) + if pending(ts[n - 1], project) && in_phase(ts[n - 1], phase) {
            seq![(n - 1) as usize]
        } else {
            seq![]
        }
    }
}

/// The three phases of a run, as positions in the task list.
pub struct PhasePlan {
    pub headers: Vec<usize>,
    pub sources: Vec<usize>,
    pub integrators: Vec<usize>,
}

fn is_pending(t: &PlannedTask, project: &str) -> (b: bool)
    ensures
        b == pending(*t, project@),
{
    crate::ordmap::str_eq(t.project_id.as_str(), project) && t.status != TaskStatus::Completed
        && t.lifecycle != TaskLifecycleState::Rejected && t.lifecycle != TaskLifecycleState::Superseded
        && t.lifecycle != TaskLifecycleState::Fatal && t.lifecycle != TaskLifecycleState::Aborted
}

fn header_task(t: &PlannedTask) -> (b: bool)
    ensures
        b == targets_header(*t),
{
    let declared = match &t.target_file {
        Some(f) => Some(f.as_str()),
        None => None,
    };
    match resolve_target(declared, t.title.as_str()) {
        Some(f) => str_ends_with(f.as_str(), ".h") || str_ends_with(f.as_str(), ".hpp"),
        None => false,
    }
}

/// Splits the pending tasks of a project into its three phases.
pub fn plan_phases(tasks: &[PlannedTask], project_id: &str) -> (p: PhasePlan)
    ensures
        p.headers@ == phase_tasks(tasks@, project_id@, 1, tasks@.len() as int),
        p.sources@ == phase_tasks(tasks@, project_id@, 2, tasks@.len() as int),
        p.integrators@ == phase_tasks(tasks@, project_id@, 3, tasks@.len() as int),
{
    let mut headers: Vec<usize> = Vec::new();
    let mut sources: Vec<usize> = Vec::new();
    let mut integrators: Vec<usize> = Vec::new();
    let mut i: usize = 0;
    while i < tasks.len()
        invariant
            i <= tasks@.len(),
            headers@ == phase_tasks(tasks@, project_id@, 1, i as int),
            sources@ == phase_tasks(tasks@, project_id@, 2, i as int),
            integrators@ == phase_tasks(tasks@, project_id@, 3, i as int),
        decreases tasks.len() - i,
    {
        let t = &tasks[i];
        if is_pending(t, project_id) {
            let h = header_task(t);
            if h {
                headers.push(i);
            }
            if !h && !t.integrator {
                sources.push(i);
            }
            if t.integrator {
                integrators.push(i);
            }
        }
        assert(headers@ =~= phase_tasks(tasks@, project_id@, 1, i + 1));
        assert(sources@ =~= phase_tasks(tasks@, project_id@, 2, i + 1));
        assert(integrators@ =~= phase_tasks(tasks@, project_id@, 3, i + 1));
        i += 1;
    }
    PhasePlan { headers, sources, integrators }
}

/// A pending task runs in exactly one of phases 1 and 2 unless it is an
/// integrator of a source file, which waits for phase 3; an integrator task
/// always runs in phase 3.
pub proof fn lemma_phases_cover(t: PlannedTask)
    ensures
        in_phase(t, 1) || in_phase(t, 2) || in_phase(t, 3),
        !(in_phase(t, 1) && in_phase(t, 2)),
        !(in_phase(t, 2) && in_phase(t, 3)),
        t.integrator ==> in_phase(t, 3),
{
}

// ---------------------------------------------------------------------------
// Between phases
// ---------------------------------------------------------------------------

/// Every task of a phase is completed.
pub open spec fn all_completed(statuses: Seq<TaskStatus>) -> bool {
    forall|i: int| 0 <= i < statuses.len() ==> #[trigger] statuses[i] == TaskStatus::Completed
}

/// What the run does after a phase.
#[derive(Clone, Copy, Debug, PartialEq, Eq, Structural)]
pub enum PhaseVerdict {
    /// Record the phase as completed and go on.
    Continue,
    /// Stop the run until the Boss resolves the phase's open tasks.
    Halt,
}

/// After phase 1 or 2, the run goes on only when every task of the phase
/// is completed; phase 3 closes the run.
pub open spec fn verdict_after(phase: u8, statuses: Seq<TaskStatus>) -> PhaseVerdict {
    if phase < 3 && !all_completed(statuses) {
        PhaseVerdict::Halt
    } else {
        PhaseVerdict::Continue
    }
}

fn every_completed(statuses: &[TaskStatus]) -> (b: bool)
    ensures
        b == all_completed(statuses@),
{
    let mut i: usize = 0;
    while i < statuses.len()
        invariant
            i <= statuses@.len(),
            forall|k: int| 0 <= k < i ==> #[trigger] statuses@[k] == TaskStatus::Completed,
        decreases statuses.len() - i,
    {
        if statuses[i] != TaskStatus::Completed {
            return false;
        }
        i += 1;
    }
    true
}

/// The check after a phase, from the current status of each of its tasks
/// (a task that can no longer be read counts as not completed).
pub fn after_phase(phase: u8, statuses: &[TaskStatus]) -> (v: PhaseVerdict)
    ensures
        v == verdict_after(phase, statuses@),
{
    if phase < 3 && !every_completed(statuses) {
        PhaseVerdict::Halt
    } else {
        PhaseVerdict::Continue
    }
}

/// The project-state key recording that a phase completed.
pub open spec fn phase_key(phase: u8) -> Seq<char> {
    if phase == 1 {
        "Phase1_Completed"@
    } else if phase == 2 {
        "Phase2_Completed"@
    } else {
        "Phase3_Completed"@
    }
}

pub fn phase_state_key(phase: u8) -> (s: &'static str)
    requires
        1 <= phase <= 3,
    ensures
        s@ == phase_key(phase),
{
    if phase == 1 {
        "Phase1_Completed"
    } else if phase == 2 {
        "Phase2_Completed"
    } else {
        "Phase3_Completed"
    }
}

/// The run completed when every header and source task did.
pub fn run_completed(headers: &[TaskStatus], sources: &[TaskStatus]) -> (b: bool)
    ensures
        b == (all_completed(headers@) && all_completed(sources@)),
{
    every_completed(headers) && every_completed(sources)
}

// ---------------------------------------------------------------------------
// Dispatching a phase
// ---------------------------------------------------------------------------

/// The tasks of a phase that are dispatched, each with the Junior that
/// takes it: the tasks not yet completed, the `i`-th of the phase going to
/// Junior `i` modulo the number of Juniors.
pub open spec fn dispatch_of(statuses: Seq<TaskStatus>, juniors: nat, n: int) -> Seq<(usize, usize)>
    decreases n,
{
    if n <= 0 {
        seq![]
    } else {
        dispatch_of(statuses, juniors, n - 1) + if statuses[n - 1] != TaskStatus::Completed {
            seq![((n - 1) as usize, ((n - 1) % (juniors as int)) as usize)]
        } else {
            seq![]
        }
    }
}

/// Who takes which task of a phase. There must be a Junior where a task
/// is to be dispatched.
pub fn dispatch_plan(statuses: &[TaskStatus], juniors: usize) -> (r: Vec<(usize, usize)>)
    requires
        juniors > 0 || all_completed(statuses@),
    ensures
        r@ == dispatch_of(statuses@, juniors as nat, statuses@.len() as int),
        forall|k: int| 0 <= k < r@.len() ==> #[trigger] r@[k].1 < juniors,
{
    let mut r: Vec<(usize, usize)> = Vec::new();
    let mut i: usize = 0;
    while i < statuses.len()
        invariant
            i <= statuses@.len(),
            juniors > 0 || all_completed(statuses@),
            r@ == dispatch_of(statuses@, juniors as nat, i as int),
            forall|k: int| 0 <= k < r@.len() ==> #[trigger] r@[k].1 < juniors,
        decreases statuses.len() - i,
    {
        if statuses[i] != TaskStatus::Completed {
            assert(juniors > 0);
            r.push((i, i % juniors));
        }
        assert(r@ =~= dispatch_of(statuses@, juniors as nat, i + 1));
        i += 1;
    }
    r
}

} // verus!
