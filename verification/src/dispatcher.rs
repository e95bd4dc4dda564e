//! The task queue that hands work to agents: bounded, first in first out,
//! with a pop that skips tasks whose dependencies are not met.
use vstd::prelude::*;
use std::collections::VecDeque;
use crate::phases::{PlannedTask, TaskStatus};
use crate::text::owned;

verus! {

/// The agents that take assignments.
pub struct WorkerPool {}

/// A task given to an agent.
pub struct Assignment {
    pub task: PlannedTask,
    pub agent_id: String,
}

/// A bounded queue of tasks.
pub struct Dispatcher {
    task_queue: VecDeque<PlannedTask>,
    queue_limit: usize,
}

/// How many tasks a dispatcher queues unless told otherwise.
pub const DEFAULT_QUEUE_LIMIT: usize = 10;

impl Dispatcher {
    /// The queued tasks, oldest first.
    pub closed spec fn queue(&self) -> Seq<PlannedTask> {
        self.task_queue@
    }

    /// The most tasks the queue accepts.
    pub closed spec fn spec_limit(&self) -> usize {
        self.queue_limit
    }

    /// An empty queue with the default limit.
    pub fn new() -> (d: Self)
        ensures
            d.queue() == Seq::<PlannedTask>::empty(),
            d.spec_limit() == DEFAULT_QUEUE_LIMIT,
    {
        Dispatcher { task_queue: VecDeque::new(), queue_limit: DEFAULT_QUEUE_LIMIT }
    }

    /// The same queue with another limit.
    pub fn with_limit(self, limit: usize) -> (d: Self)
        ensures
            d.queue() == self.queue(),
            d.spec_limit() == limit,
    {
        Dispatcher { task_queue: self.task_queue, queue_limit: limit }
    }

    /// Queues a task behind the others, unless the queue is full; the new
    /// length on success.
    pub fn enqueue_task(&mut self, task: PlannedTask) -> (r: Result<usize, String>)
        ensures
            final(self).spec_limit() == old(self).spec_limit(),
            match r {
                Ok(n) => old(self).queue().len() < old(self).spec_limit() && final(self).queue() == old(self).queue().push(task)
                    && n == final(self).queue().len(),
                Err(e) => old(self).queue().len() >= old(self).spec_limit() && final(self).queue() == old(self).queue()
                    && e@ == "QUEUE_FULL"@,
            },
    {
        if self.task_queue.len() >= self.queue_limit {
            return Err(owned("QUEUE_FULL"));
        }
        self.task_queue.push_back(task);
        Ok(self.task_queue.len())
    }

    /// How many tasks are queued.
    pub fn len(&self) -> (n: usize)
        ensures
            n == self.queue().len(),
    {
        self.task_queue.len()
    }

    /// The limit.
    pub fn limit(&self) -> (n: usize)
        ensures
            n == self.spec_limit(),
    {
        self.queue_limit
    }

    /// Takes the oldest task.
    pub fn pop_task(&mut self) -> (r: Option<PlannedTask>)
        ensures
            final(self).spec_limit() == old(self).spec_limit(),
            match r {
                Some(t) => old(self).queue().len() > 0 && t == old(self).queue()[0] && final(self).queue()
                    == old(self).queue().subrange(1, old(self).queue().len() as int),
                None => old(self).queue().len() == 0 && final(self).queue() == old(self).queue(),
            },
    {
        self.task_queue.pop_front()
    }

    /// Takes the oldest task that `check_ready` accepts, leaving the others
    /// in their order.
    pub fn pop_ready_task<F: Fn(&PlannedTask) -> bool>(&mut self, check_ready: F) -> (r: Option<PlannedTask>)
        requires
            forall|t: &PlannedTask| #[trigger] check_ready.requires((t,)),
        ensures
            final(self).spec_limit() == old(self).spec_limit(),
            match r {
                Some(t) => exists|i: int|
                    0 <= i < old(self).queue().len() && t == old(self).queue()[i] && check_ready.ensures((&old(self).queue()[i],), true)
                        && final(self).queue() == old(self).queue().remove(i) && forall|j: int|
                        0 <= j < i ==> check_ready.ensures((&#[trigger] old(self).queue()[j],), false),
                None => final(self).queue() == old(self).queue() && forall|j: int|
                    0 <= j < old(self).queue().len() ==> check_ready.ensures((&#[trigger] old(self).queue()[j],), false),
            },
    {
        let mut idx: usize = 0;
        let n = self.task_queue.len();
        while idx < n
            invariant
                n == self.task_queue@.len(),
                self.task_queue@ == old(self).task_queue@,
                self.queue_limit == old(self).queue_limit,
                idx <= n,
                forall|t: &PlannedTask| #[trigger] check_ready.requires((t,)),
                forall|j: int| 0 <= j < idx ==> check_ready.ensures((&#[trigger] self.task_queue@[j],), false),
            decreases n - idx,
        {
            let tref = &self.task_queue[idx];
            let ready = check_ready(tref);
            if ready {
                let ghost q = self.task_queue@;
                proof {
                    assert(*tref == q[idx as int]);
                }
                let t = self.task_queue.remove(idx);
                proof {
                    assert(check_ready.ensures((&q[idx as int],), true));
                    assert(0 <= idx < q.len() && t == Some(q[idx as int]));
                    assert(q == old(self).queue());
                    assert(forall|j: int| 0 <= j < idx ==> check_ready.ensures((&#[trigger] old(self).queue()[j],), false));
                    assert(self.queue() == old(self).queue().remove(idx as int));
                    let i = idx as int;
                    assert(0 <= i < old(self).queue().len() && t->0 == old(self).queue()[i] && check_ready.ensures((&old(self).queue()[i],), true)
                        && self.queue() == old(self).queue().remove(i) && forall|j: int|
                        0 <= j < i ==> check_ready.ensures((&#[trigger] old(self).queue()[j],), false));
                }
                return t;
            }
            idx += 1;
        }
        None
    }

    /// Gives each available agent, in order, the oldest task left, marked
    /// in progress; stops when the queue runs out.
    pub fn schedule(&mut self, available_agents: Vec<String>) -> (r: Vec<Assignment>)
        ensures
            final(self).spec_limit() == old(self).spec_limit(),
            r@.len() == if available_agents@.len() < old(self).queue().len() {
                available_agents@.len()
            } else {
                old(self).queue().len()
            },
            final(self).queue() == old(self).queue().subrange(r@.len() as int, old(self).queue().len() as int),
            forall|k: int| 0 <= k < r@.len() ==> {
                let a = #[trigger] r@[k];
                &&& a.agent_id@ == available_agents@[k]@
                &&& a.task == (PlannedTask { status: TaskStatus::InProgress, ..old(self).queue()[k] })
            },
    {
        let mut out: Vec<Assignment> = Vec::new();
        let mut agents = available_agents;
        let ghost all = agents@;
        let ghost q0 = self.task_queue@;
        assert(all == available_agents@);
        let mut k: usize = 0;
        let n = agents.len();
        while k < n
            invariant
                n == all.len(),
                agents@ == all,
                all == available_agents@,
                self.queue_limit == old(self).queue_limit,
                q0 == old(self).task_queue@,
                k <= n,
                k <= q0.len(),
                out@.len() == k,
                self.task_queue@ == q0.subrange(k as int, q0.len() as int),
                forall|j: int| 0 <= j < k ==> {
                    let a = #[trigger] out@[j];
                    &&& a.agent_id@ == all[j]@
                    &&& a.task == (PlannedTask { status: TaskStatus::InProgress, ..q0[j] })
                },
            decreases n - k,
        {
            match self.task_queue.pop_front() {
                Some(task) => {
                    let mut t = task;
                    t.status = TaskStatus::InProgress;
                    let agent_id = owned(agents[k].as_str());
                    out.push(Assignment { task: t, agent_id });
                },
                None => {
                    return out;
                },
            }
            k += 1;
        }
        out
    }
}

} // verus!
