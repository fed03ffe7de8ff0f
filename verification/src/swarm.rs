//! The swarm orchestrator: a named collection of supervisors, aggregated
//! metrics, scaling, rebalancing, and health-check driven recovery.
//!
//! The orchestrator owns its supervisors. All derived data (`SwarmMetrics`,
//! `SwarmInfo`) is recomputed on demand, never stored.

use vstd::prelude::*;

use crate::config::Config;
use crate::error::SupervisionError;
use crate::supervisor::{
    count_active, count_busy, count_failed, count_idle, count_pred, is_active_status,
    spec_branch_name, spec_scale_down, AgentStatus, AgentSupervisor, AgentView, PersonaValidator,
    StatusView, SupervisorView,
};
use crate::text::{sat_add_usize, spec_decimal, str_eq, usize_to_string};

verus! {

/// Overall state of the swarm, derived from its membership and load.
#[derive(Debug, Clone, Copy, PartialEq, Eq, Structural)]
pub enum SwarmStatus {
    Initializing,
    Active,
    Scaling,
    Degraded,
    Shutdown,
}

/// On-demand summary of the swarm's shape.
#[derive(Debug)]
pub struct SwarmInfo {
    pub id: String,
    pub supervisor_count: usize,
    pub total_agents: usize,
    pub active_agents: usize,
    pub status: SwarmStatus,
}

/// On-demand aggregation of every supervisor's health snapshot.
#[derive(Debug, Clone, Copy)]
pub struct SwarmMetrics {
    pub total_supervisors: usize,
    pub total_agents: usize,
    pub active_agents: usize,
    pub failed_agents: usize,
    pub tasks_processed: usize,
}

/// One supervisor with the name the orchestrator knows it by.
pub struct SupervisorEntry<V: PersonaValidator> {
    pub id: String,
    pub supervisor: AgentSupervisor<V>,
}

/// Mathematical image of a `SupervisorEntry`.
pub ghost struct EntryView {
    pub id: Seq<char>,
    pub sup: SupervisorView,
}

impl<V: PersonaValidator> View for SupervisorEntry<V> {
    type V = EntryView;

    open spec fn view(&self) -> EntryView {
        EntryView { id: self.id@, sup: self.supervisor@ }
    }
}

/// Supervisor ids are unique and every supervisor is well-formed.
pub open spec fn swarm_wf(s: Seq<EntryView>) -> bool {
    &&& forall|i: int, j: int| 0 <= i < j < s.len() ==> s[i].id != s[j].id
    &&& forall|k: int| 0 <= k < s.len() ==> (#[trigger] s[k].sup).wf()
}

/// Is some supervisor named `id` registered?
pub open spec fn swarm_has(s: Seq<EntryView>, id: Seq<char>) -> bool {
    exists|k: int| 0 <= k < s.len() && s[k].id == id
}

/// Sum of `f` over the supervisors of `s`.
pub open spec fn sum_by(s: Seq<EntryView>, f: spec_fn(SupervisorView) -> int) -> int
    decreases s.len(),
{
    if s.len() == 0 {
        0
    } else {
        sum_by(s.drop_last(), f) + f(s.last().sup)
    }
}

pub proof fn lemma_sum_by_nonneg(s: Seq<EntryView>, f: spec_fn(SupervisorView) -> int)
    requires
        forall|k: int| 0 <= k < s.len() ==> f(#[trigger] s[k].sup) >= 0,
    ensures
        sum_by(s, f) >= 0,
    decreases s.len(),
{
    if s.len() > 0 {
        assert(forall|k: int| 0 <= k < s.len() - 1 ==> s.drop_last()[k] == s[k]);
        lemma_sum_by_nonneg(s.drop_last(), f);
    }
}

/// The elements of actual swarm views make every summed quantity
/// non-negative.
proof fn lemma_swarm_sums_nonneg(s: Seq<EntryView>)
    requires
        forall|k: int| 0 <= k < s.len() ==> (#[trigger] s[k].sup).total_tasks >= 0,
    ensures
        sum_agents(s) >= 0,
        sum_active(s) >= 0,
        sum_failed(s) >= 0,
        sum_tasks(s) >= 0,
        sum_engaged(s) >= 0,
{
    assert forall|k: int| 0 <= k < s.len() implies count_active((#[trigger] s[k].sup).agents) >= 0
        && count_failed(s[k].sup.agents) >= 0 && count_pred(
        s[k].sup.agents,
        |st: StatusView| is_engaged_status(st),
    ) >= 0 by {
        crate::supervisor::lemma_count_pred_bounds(
            s[k].sup.agents,
            |st: StatusView| is_active_status(st),
        );
        crate::supervisor::lemma_count_pred_bounds(s[k].sup.agents, |st: StatusView| st is Failed);
        crate::supervisor::lemma_count_pred_bounds(
            s[k].sup.agents,
            |st: StatusView| is_engaged_status(st),
        );
    }
    lemma_sum_by_nonneg(s, |v: SupervisorView| v.agents.len() as int);
    lemma_sum_by_nonneg(s, |v: SupervisorView| count_active(v.agents));
    lemma_sum_by_nonneg(s, |v: SupervisorView| count_failed(v.agents));
    lemma_sum_by_nonneg(s, |v: SupervisorView| v.total_tasks);
    lemma_sum_by_nonneg(
        s,
        |v: SupervisorView| count_pred(v.agents, |st: StatusView| is_engaged_status(st)),
    );
}

/// Replacing one entry under the same id with a well-formed supervisor
/// keeps the swarm well-formed.
pub proof fn lemma_swarm_update_wf(pre: Seq<EntryView>, post: Seq<EntryView>, at: int)
    requires
        swarm_wf(pre),
        0 <= at < pre.len(),
        post == pre.update(at, post[at]),
        post[at].id == pre[at].id,
        post[at].sup.wf(),
    ensures
        swarm_wf(post),
{
    assert forall|i: int, j: int| 0 <= i < j < post.len() implies post[i].id != post[j].id by {
        assert(pre[i].id != pre[j].id);
    }
    assert forall|k: int| 0 <= k < post.len() implies (#[trigger] post[k].sup).wf() by {
        if k != at {
            assert(post[k] == pre[k]);
        }
    }
}

/// Total number of agents across the swarm.
pub open spec fn sum_agents(s: Seq<EntryView>) -> int {
    sum_by(s, |v: SupervisorView| v.agents.len() as int)
}

/// Total number of actively executing agents across the swarm.
pub open spec fn sum_active(s: Seq<EntryView>) -> int {
    sum_by(s, |v: SupervisorView| count_active(v.agents))
}

/// Total number of failed agents across the swarm.
pub open spec fn sum_failed(s: Seq<EntryView>) -> int {
    sum_by(s, |v: SupervisorView| count_failed(v.agents))
}

/// Total number of tasks processed across the swarm.
pub open spec fn sum_tasks(s: Seq<EntryView>) -> int {
    sum_by(s, |v: SupervisorView| v.total_tasks)
}

/// Agents the scheduling layer counts as carrying load right now.
pub open spec fn is_engaged_status(st: StatusView) -> bool {
    st == StatusView::Running || st == StatusView::Busy
}

/// Total number of `Running`/`Busy` agents across the swarm.
pub open spec fn sum_engaged(s: Seq<EntryView>) -> int {
    sum_by(s, |v: SupervisorView| count_pred(v.agents, |st: StatusView| is_engaged_status(st)))
}

/// An integer capped at the largest `usize` value.
pub open spec fn clamp_usize(x: int) -> int {
    vstd::math::min(x, usize::MAX as int)
}

/// `post` is `pre` with every agent stopped and every handle released.
pub open spec fn all_stopped(pre: SupervisorView, post: SupervisorView) -> bool {
    &&& post.agents.len() == pre.agents.len()
    &&& forall|j: int|
        0 <= j < pre.agents.len() ==> post.agents[j] == (AgentView {
            status: StatusView::Stopped,
            ..pre.agents[j]
        })
    &&& post.handles.len() == 0
}

/// Coordinates a fleet of supervisors: membership, aggregate metrics,
/// scaling, rebalancing and recovery.
pub struct SwarmOrchestrator<V: PersonaValidator> {
    config: Config,
    supervisors: Vec<SupervisorEntry<V>>,
}

impl<V: PersonaValidator> View for SwarmOrchestrator<V> {
    type V = Seq<EntryView>;

    closed spec fn view(&self) -> Seq<EntryView> {
        self.supervisors@.map_values(|e: SupervisorEntry<V>| e@)
    }
}

impl<V: PersonaValidator> SwarmOrchestrator<V> {
    /// A fresh orchestrator with no supervisors.
    pub fn new(config: Config) -> (r: SwarmOrchestrator<V>)
        ensures
            r@.len() == 0,
            swarm_wf(r@),
    {
        let r = SwarmOrchestrator { config, supervisors: Vec::new() };
        proof {
            assert(r@ =~= Seq::<EntryView>::empty());
        }
        r
    }

    /// Index of the supervisor named `id`, if any.
    fn find_supervisor(&self, id: &str) -> (r: Option<usize>)
        ensures
            r matches Some(k) ==> 0 <= k < self@.len() && self@[k as int].id == id@,
            r is None ==> !swarm_has(self@, id@),
    {
        let mut k: usize = 0;
        while k < self.supervisors.len()
            invariant
                k <= self.supervisors.len(),
                forall|j: int| 0 <= j < k ==> self@[j].id != id@,
            decreases self.supervisors.len() - k,
        {
            if str_eq(self.supervisors[k].id.as_str(), id) {
                return Some(k);
            }
            k += 1;
        }
        None
    }

    /// True when at least one supervisor reports a healthy snapshot; false
    /// in particular when no supervisors are registered.
    pub fn is_healthy(&self) -> (r: bool)
        ensures
            r <==> exists|k: int| 0 <= k < self@.len() && count_failed(self@[k].sup.agents) == 0,
    {
        let mut k: usize = 0;
        while k < self.supervisors.len()
            invariant
                k <= self.supervisors.len(),
                forall|j: int| 0 <= j < k ==> count_failed(self@[j].sup.agents) != 0,
            decreases self.supervisors.len() - k,
        {
            let health = self.supervisors[k].supervisor.health_check();
            if health.is_healthy {
                proof {
                    assert(count_failed(self@[k as int].sup.agents) == 0);
                }
                return true;
            }
            k += 1;
        }
        false
    }

    /// Adds a supervisor under a fresh id; fails with `AlreadyExists` (and
    /// changes nothing) when the id is taken.
    pub fn add_supervisor(&mut self, supervisor_id: String, supervisor: AgentSupervisor<V>) -> (r:
        Result<(), SupervisionError>)
        requires
            swarm_wf(old(self)@),
            supervisor@.wf(),
        ensures
            swarm_wf(final(self)@),
            r is Ok <==> !swarm_has(old(self)@, supervisor_id@),
            swarm_has(old(self)@, supervisor_id@) ==> (r matches Err(e) && e is AlreadyExists
                && final(self)@ == old(self)@),
            r is Ok ==> final(self)@ == old(self)@.push(
                EntryView { id: supervisor_id@, sup: supervisor@ },
            ),
    {
        if let Some(_) = self.find_supervisor(supervisor_id.as_str()) {
            let msg = String::from_str("Supervisor ").concat(supervisor_id.as_str()).concat(
                " already exists",
            );
            return Err(SupervisionError::AlreadyExists(msg));
        }
        let ghost pre = self@;
        self.supervisors.push(SupervisorEntry { id: supervisor_id, supervisor });
        proof {
            assert(self@ =~= pre.push(self@.last()));
        }
        Ok(())
    }

    /// Shuts a supervisor down (stopping all its agents) and removes it.
    /// Fails with `NotFound` (and changes nothing) for an unknown id.
    pub fn remove_supervisor(&mut self, supervisor_id: &str) -> (r: Result<(), SupervisionError>)
        requires
            swarm_wf(old(self)@),
        ensures
            swarm_wf(final(self)@),
            r is Ok <==> swarm_has(old(self)@, supervisor_id@),
            !swarm_has(old(self)@, supervisor_id@) ==> (r matches Err(e) && e is NotFound && final(self)@ == old(self)@),
            r is Ok ==> exists|k: int|
                0 <= k < old(self)@.len() && old(self)@[k].id == supervisor_id@ && final(self)@
                    == old(self)@.remove(k),
    {
        let at = match self.find_supervisor(supervisor_id) {
            Some(k) => k,
            None => {
                let msg = String::from_str("Supervisor ").concat(supervisor_id).concat(
                    " not found",
                );
                return Err(SupervisionError::NotFound(msg));
            },
        };
        let ghost pre = self@;
        let mut entry = self.supervisors.remove(at);
        proof {
            assert(pre[at as int].sup.wf());
            assert(entry.supervisor@ == pre[at as int].sup);
        }
        let _ = entry.supervisor.shutdown();
        proof {
            assert(self@ =~= pre.remove(at as int));
            assert(0 <= (at as int) && (at as int) < pre.len() && pre[at as int].id
                == supervisor_id@ && self@ == pre.remove(at as int));
            lemma_swarm_remove_wf(pre, self@, at as int);
        }
        Ok(())
    }

    /// The supervisor named `id`.
    pub fn get_supervisor(&self, supervisor_id: &str) -> (r: Result<
        &AgentSupervisor<V>,
        SupervisionError,
    >)
        ensures
            r is Ok <==> swarm_has(self@, supervisor_id@),
            r matches Ok(s) ==> exists|k: int|
                0 <= k < self@.len() && self@[k].id == supervisor_id@ && self@[k].sup == s@,
            r matches Err(e) ==> e is NotFound,
    {
        match self.find_supervisor(supervisor_id) {
            Some(k) => {
                let entry = &self.supervisors[k];
                proof {
                    assert(self@[k as int].sup == entry.supervisor@);
                }
                Ok(&entry.supervisor)
            },
            None => {
                let msg = String::from_str("Supervisor ").concat(supervisor_id).concat(
                    " not found",
                );
                Err(SupervisionError::NotFound(msg))
            },
        }
    }

    /// The registered supervisor ids, in registration order.
    pub fn list_supervisors(&self) -> (r: Vec<String>)
        ensures
            r@.map_values(|t: String| t@) == self@.map_values(|e: EntryView| e.id),
    {
        let mut r: Vec<String> = Vec::new();
        let mut k: usize = 0;
        while k < self.supervisors.len()
            invariant
                k <= self.supervisors.len(),
                r@.map_values(|t: String| t@) =~= self@.map_values(|e: EntryView| e.id).subrange(
                    0,
                    k as int,
                ),
            decreases self.supervisors.len() - k,
        {
            let ghost prev = r@;
            let id = self.supervisors[k].id.clone();
            r.push(id);
            proof {
                assert(r@ == prev.push(id));
                assert(r@.map_values(|t: String| t@) =~= prev.map_values(|t: String| t@).push(id@));
                assert(r@.map_values(|t: String| t@) =~= self@.map_values(
                    |e: EntryView| e.id,
                ).subrange(0, k as int + 1));
            }
            k += 1;
        }
        proof {
            assert(r@.map_values(|t: String| t@) =~= self@.map_values(|e: EntryView| e.id));
        }
        r
    }

    /// Aggregates every supervisor's health snapshot. Each counter is the
    /// swarm-wide sum, capped at the largest `usize` value.
    pub fn get_metrics(&self) -> (r: SwarmMetrics)
        requires
            swarm_wf(self@),
        ensures
            r.total_supervisors == self@.len(),
            r.total_agents == clamp_usize(sum_agents(self@)),
            r.active_agents == clamp_usize(sum_active(self@)),
            r.failed_agents == clamp_usize(sum_failed(self@)),
            r.tasks_processed == clamp_usize(sum_tasks(self@)),
    {
        let mut total: usize = 0;
        let mut active: usize = 0;
        let mut failed: usize = 0;
        let mut tasks: usize = 0;
        let mut k: usize = 0;
        while k < self.supervisors.len()
            invariant
                swarm_wf(self@),
                k <= self.supervisors.len(),
                total == clamp_usize(sum_agents(self@.subrange(0, k as int))),
                active == clamp_usize(sum_active(self@.subrange(0, k as int))),
                failed == clamp_usize(sum_failed(self@.subrange(0, k as int))),
                tasks == clamp_usize(sum_tasks(self@.subrange(0, k as int))),
            decreases self.supervisors.len() - k,
        {
            let ghost prefix = self@.subrange(0, k as int);
            let ghost next = self@.subrange(0, k as int + 1);
            proof {
                assert(next.drop_last() =~= prefix);
                assert(next.last() == self@[k as int]);
                assert forall|j: int|
                    0 <= j < prefix.len() implies (#[trigger] prefix[j].sup).total_tasks >= 0 by {
                    assert(prefix[j] == self@[j]);
                    assert(self@[j].sup.wf());
                }
                lemma_swarm_sums_nonneg(prefix);
                crate::supervisor::lemma_count_pred_bounds(
                    self@[k as int].sup.agents,
                    |st: StatusView| is_active_status(st),
                );
                crate::supervisor::lemma_count_pred_bounds(
                    self@[k as int].sup.agents,
                    |st: StatusView| st is Failed,
                );
            }
            let health = self.supervisors[k].supervisor.health_check();
            let stats = self.supervisors[k].supervisor.get_stats();
            total = sat_add_usize(total, health.total_agents);
            active = sat_add_usize(active, health.running_agents);
            failed = sat_add_usize(failed, health.failed_agents);
            tasks = sat_add_usize(tasks, stats.total_tasks);
            k += 1;
        }
        proof {
            assert(self@.subrange(0, self@.len() as int) =~= self@);
        }
        SwarmMetrics {
            total_supervisors: self.supervisors.len(),
            total_agents: total,
            active_agents: active,
            failed_agents: failed,
            tasks_processed: tasks,
        }
    }

    /// Derives the swarm summary: `Shutdown` with no supervisors, `Degraded`
    /// when supervisors exist but no agent is `Running` or `Busy`, `Active`
    /// otherwise.
    pub fn get_swarm_info(&self) -> (r: SwarmInfo)
        requires
            swarm_wf(self@),
        ensures
            r.supervisor_count == self@.len(),
            r.total_agents == clamp_usize(sum_agents(self@)),
            r.active_agents == clamp_usize(sum_engaged(self@)),
            self@.len() == 0 ==> r.status == SwarmStatus::Shutdown,
            self@.len() > 0 && sum_engaged(self@) == 0 ==> r.status == SwarmStatus::Degraded,
            self@.len() > 0 && sum_engaged(self@) != 0 ==> r.status == SwarmStatus::Active,
            r.id@ == "main-swarm"@,
    {
        let mut total: usize = 0;
        let mut engaged: usize = 0;
        let mut k: usize = 0;
        while k < self.supervisors.len()
            invariant
                swarm_wf(self@),
                k <= self.supervisors.len(),
                total == clamp_usize(sum_agents(self@.subrange(0, k as int))),
                engaged == clamp_usize(sum_engaged(self@.subrange(0, k as int))),
            decreases self.supervisors.len() - k,
        {
            let ghost prefix = self@.subrange(0, k as int);
            let ghost next = self@.subrange(0, k as int + 1);
            proof {
                assert(next.drop_last() =~= prefix);
                assert(next.last() == self@[k as int]);
                assert forall|j: int|
                    0 <= j < prefix.len() implies (#[trigger] prefix[j].sup).total_tasks >= 0 by {
                    assert(prefix[j] == self@[j]);
                    assert(self@[j].sup.wf());
                }
                lemma_swarm_sums_nonneg(prefix);
                crate::supervisor::lemma_count_pred_bounds(
                    self@[k as int].sup.agents,
                    |st: StatusView| is_engaged_status(st),
                );
            }
            total = sat_add_usize(total, self.supervisors[k].supervisor.agent_count());
            let e = self.engaged_count(k);
            engaged = sat_add_usize(engaged, e);
            k += 1;
        }
        proof {
            assert(self@.subrange(0, self@.len() as int) =~= self@);
            assert forall|j: int|
                0 <= j < self@.len() implies (#[trigger] self@[j].sup).total_tasks >= 0 by {
                assert(self@[j].sup.wf());
            }
            lemma_swarm_sums_nonneg(self@);
        }
        let status = if self.supervisors.len() == 0 {
            SwarmStatus::Shutdown
        } else if engaged == 0 {
            SwarmStatus::Degraded
        } else {
            SwarmStatus::Active
        };
        SwarmInfo {
            id: String::from_str("main-swarm"),
            supervisor_count: self.supervisors.len(),
            total_agents: total,
            active_agents: engaged,
            status,
        }
    }

    /// How many agents of supervisor `k` are `Running` or `Busy`.
    fn engaged_count(&self, k: usize) -> (r: usize)
        requires
            k < self@.len(),
        ensures
            r == count_pred(self@[k as int].sup.agents, |st: StatusView| is_engaged_status(st)),
    {
        let agents = self.supervisors[k].supervisor.list();
        let ghost aview = self@[k as int].sup.agents;
        let mut r: usize = 0;
        let mut j: usize = 0;
        while j < agents.len()
            invariant
                j <= agents.len(),
                r <= j,
                agents@.map_values(|a: crate::supervisor::Agent| a@) == aview,
                r == count_pred(
                    aview.subrange(0, j as int),
                    |st: StatusView| is_engaged_status(st),
                ),
            decreases agents.len() - j,
        {
            proof {
                assert(aview.subrange(0, j as int + 1).drop_last() =~= aview.subrange(0, j as int));
                assert(aview.subrange(0, j as int + 1).last() == aview[j as int]);
            }
            let engaged = match &agents[j].status {
                AgentStatus::Running => true,
                AgentStatus::Busy => true,
                _ => false,
            };
            if engaged {
                r += 1;
            }
            j += 1;
        }
        proof {
            assert(aview.subrange(0, aview.len() as int) =~= aview);
        }
        r
    }

    /// Shuts every supervisor down, stopping all agents; errors of single
    /// supervisors would be collected rather than aborting the pass, and the
    /// per-supervisor shutdown here always succeeds.
    pub fn shutdown(&mut self) -> (r: Result<(), SupervisionError>)
        requires
            swarm_wf(old(self)@),
        ensures
            swarm_wf(final(self)@),
            r is Ok,
            final(self)@.len() == old(self)@.len(),
            forall|k: int| 0 <= k < old(self)@.len() ==> final(self)@[k].id == old(self)@[k].id,
            forall|k: int|
                0 <= k < old(self)@.len() ==> all_stopped(
                    old(self)@[k].sup,
                    #[trigger] final(self)@[k].sup,
                ),
    {
        let ghost pre = self@;
        let mut k: usize = 0;
        while k < self.supervisors.len()
            invariant
                swarm_wf(self@),
                k <= self.supervisors.len(),
                self@.len() == pre.len(),
                forall|j: int| 0 <= j < pre.len() ==> self@[j].id == pre[j].id,
                forall|j: int| k <= j < pre.len() ==> self@[j] == pre[j],
                forall|j: int| 0 <= j < k ==> all_stopped(pre[j].sup, #[trigger] self@[j].sup),
            decreases self.supervisors.len() - k,
        {
            let ghost mid = self@;
            let mut entry = self.supervisors.remove(k);
            proof {
                assert(mid[k as int].sup.wf());
                assert(entry.supervisor@ == mid[k as int].sup);
            }
            let _ = entry.supervisor.shutdown();
            let ghost newv = entry@;
            self.supervisors.insert(k, entry);
            proof {
                assert(self@ =~= mid.update(k as int, newv));
                lemma_swarm_update_wf(mid, self@, k as int);
                assert(mid[k as int] == pre[k as int]);
                assert(all_stopped(pre[k as int].sup, self@[k as int].sup));
            }
            k += 1;
        }
        Ok(())
    }
}

/// The view of an agent that `register_agent` creates for `id`.
pub open spec fn reg_agent_view(id: Seq<char>) -> AgentView {
    AgentView {
        id: id,
        persona: "default"@,
        status: StatusView::Starting,
        branch_name: spec_branch_name(id),
    }
}

/// The deterministic name of the `n`-th scaled agent of a supervisor.
pub open spec fn spec_scale_name(sup_id: Seq<char>, n: int) -> Seq<char> {
    sup_id + "-agent-"@ + spec_decimal(n)
}

/// Computes `{sup_id}-agent-{n}`.
fn scale_agent_name(sup_id: &str, n: usize) -> (r: String)
    ensures
        r@ == spec_scale_name(sup_id@, n as int),
{
    let num = usize_to_string(n);
    let r = String::from_str(sup_id).concat("-agent-").concat(num.as_str());
    proof {
        assert(r@ =~= spec_scale_name(sup_id@, n as int));
    }
    r
}

/// Dropping a common prefix of equal sequences leaves equal sequences.
proof fn lemma_prefix_cancel(a: Seq<char>, b: Seq<char>, c: Seq<char>)
    requires
        a + b == a + c,
    ensures
        b == c,
{
    assert((a + b).len() == a.len() + b.len());
    assert((a + c).len() == a.len() + c.len());
    assert(b.len() == c.len());
    assert forall|i: int| 0 <= i < b.len() implies b[i] == c[i] by {
        assert((a + b)[a.len() + i] == b[i]);
        assert((a + c)[a.len() + i] == c[i]);
    }
    assert(b =~= c);
}

/// Scaled-agent names of one supervisor are distinct for distinct numbers.
pub proof fn lemma_scale_name_injective(sup_id: Seq<char>, m: int, n: int)
    requires
        m >= 0,
        n >= 0,
        spec_scale_name(sup_id, m) == spec_scale_name(sup_id, n),
    ensures
        m == n,
{
    let p = sup_id + "-agent-"@;
    assert(p + spec_decimal(m) =~= spec_scale_name(sup_id, m));
    assert(p + spec_decimal(n) =~= spec_scale_name(sup_id, n));
    lemma_prefix_cancel(p, spec_decimal(m), spec_decimal(n));
    crate::text::lemma_decimal_injective(m, n);
}

/// The agents `scale_up` appends for numbers `from+1 ..= to`.
pub open spec fn spec_scale_batch(sup_id: Seq<char>, from: int, to: int) -> Seq<AgentView>
    decreases to - from,
{
    if to <= from {
        Seq::empty()
    } else {
        spec_scale_batch(sup_id, from, to - 1).push(reg_agent_view(spec_scale_name(sup_id, to)))
    }
}

pub proof fn lemma_scale_batch_props(sup_id: Seq<char>, from: int, to: int)
    requires
        from <= to,
    ensures
        spec_scale_batch(sup_id, from, to).len() == to - from,
        forall|j: int|
            0 <= j < to - from ==> spec_scale_batch(sup_id, from, to)[j] == reg_agent_view(
                spec_scale_name(sup_id, from + 1 + j),
            ),
    decreases to - from,
{
    if from < to {
        lemma_scale_batch_props(sup_id, from, to - 1);
    }
}

/// Scaling an empty supervisor up always reaches the target: every
/// candidate name is fresh there, and the scaled result holds exactly
/// `target` agents.
pub proof fn lemma_scale_up_fills_empty(v: SupervisorView, sup_id: Seq<char>, target: int)
    requires
        v.agents.len() == 0,
        target >= 0,
    ensures
        names_fresh(v, sup_id, target),
        scale_up_result(v.agents, sup_id, target).len() == target,
{
    if target > 0 {
        lemma_scale_batch_props(sup_id, 0, target);
        assert(scale_up_result(v.agents, sup_id, target).len() == v.agents.len()
            + spec_scale_batch(sup_id, 0, target).len());
    }
}

/// None of the names `scale_up` would assign up to `target` is taken.
pub open spec fn names_fresh(v: SupervisorView, sup_id: Seq<char>, target: int) -> bool {
    forall|n: int|
        v.agents.len() < n <= target ==> !v.has_agent(#[trigger] spec_scale_name(sup_id, n))
}

/// What `scale_up` makes of one supervisor's agents.
pub open spec fn scale_up_result(a: Seq<AgentView>, sup_id: Seq<char>, target: int) -> Seq<
    AgentView,
> {
    if a.len() >= target {
        a
    } else {
        a + spec_scale_batch(sup_id, a.len() as int, target)
    }
}

/// Registers agents named `{sup_id}-agent-{n}` until `sup` holds `target`
/// agents. Succeeds exactly when none of those names is already taken.
fn scale_one_up<V: PersonaValidator>(
    sup: &mut AgentSupervisor<V>,
    sup_id: &str,
    target: usize,
) -> (r: Result<(), SupervisionError>)
    requires
        old(sup)@.wf(),
    ensures
        final(sup)@.wf(),
        r is Ok <==> names_fresh(old(sup)@, sup_id@, target as int),
        r is Ok ==> final(sup)@.agents == scale_up_result(
            old(sup)@.agents,
            sup_id@,
            target as int,
        ) && final(sup)@.handles == old(sup)@.handles && final(sup)@.total_tasks == old(
            sup,
        )@.total_tasks,
        r matches Err(e) ==> e is AlreadyExists,
{
    let ghost pre = sup@;
    let current = sup.agent_count();
    if current >= target {
        proof {
            assert forall|n: int|
                pre.agents.len() < n <= target as int implies !pre.has_agent(
                #[trigger] spec_scale_name(sup_id@, n),
            ) by {}
        }
        return Ok(());
    }
    let mut m = current;
    proof {
        assert(pre.agents + spec_scale_batch(sup_id@, current as int, current as int)
            =~= pre.agents);
    }
    while m < target
        invariant
            pre == old(sup)@,
            pre.wf(),
            sup@.wf(),
            current == pre.agents.len(),
            current <= m <= target,
            names_fresh(pre, sup_id@, m as int),
            sup@.agents == pre.agents + spec_scale_batch(sup_id@, current as int, m as int),
            sup@.handles == pre.handles,
            sup@.total_tasks == pre.total_tasks,
        decreases target - m,
    {
        let ghost mid = sup@;
        let ghost batch = spec_scale_batch(sup_id@, current as int, m as int);
        let n = m + 1;
        let name = scale_agent_name(sup_id, n);
        let ghost namev = name@;
        match sup.register_agent(name) {
            Ok(()) => {
                proof {
                    // the fresh name was nowhere in the old agents either
                    assert(!mid.has_agent(namev));
                    assert forall|k: int|
                        0 <= k < pre.agents.len() implies pre.agents[k].id != namev by {
                        assert(mid.agents[k] == pre.agents[k]);
                    }
                    assert(!pre.has_agent(namev));
                    assert(names_fresh(pre, sup_id@, n as int));
                    assert(spec_scale_batch(sup_id@, current as int, n as int) == batch.push(
                        reg_agent_view(namev),
                    ));
                    assert(sup@.agents =~= pre.agents + spec_scale_batch(
                        sup_id@,
                        current as int,
                        n as int,
                    ));
                }
                m = n;
            },
            Err(e) => {
                proof {
                    // the taken name lay among the original agents: the batch
                    // names added so far all carry smaller numbers
                    assert(mid.has_agent(namev));
                    let k = choose|k: int|
                        0 <= k < mid.agents.len() && mid.agents[k].id == namev;
                    lemma_scale_batch_props(sup_id@, current as int, m as int);
                    if k >= pre.agents.len() {
                        let j = k - pre.agents.len();
                        assert(mid.agents[k] == batch[j]);
                        assert(batch[j].id == spec_scale_name(sup_id@, current + 1 + j));
                        lemma_scale_name_injective(sup_id@, current + 1 + j, n as int);
                        assert(false);
                    }
                    assert(pre.agents[k].id == namev);
                    assert(pre.has_agent(spec_scale_name(sup_id@, n as int)));
                    assert(!names_fresh(old(sup)@, sup_id@, target as int));
                }
                return Err(e);
            },
        }
    }
    proof {
        assert(names_fresh(pre, sup_id@, target as int));
        assert(sup@.agents == scale_up_result(pre.agents, sup_id@, target as int));
    }
    Ok(())
}

/// `post` is `pre` with up to `excess` idle agents removed from the front
/// and their handles released.
pub open spec fn idle_trimmed(pre: SupervisorView, post: SupervisorView, excess: int) -> bool {
    &&& post.agents == spec_scale_down(pre.agents, excess)
    &&& forall|h: Seq<char>| post.has_handle(h) ==> pre.has_handle(h)
    &&& forall|h: Seq<char>| pre.has_handle(h) && post.has_agent(h) ==> post.has_handle(h)
    &&& post.total_tasks == pre.total_tasks
}

/// The target agent count rebalancing assigns to the supervisor at `k`:
/// an even share of the total, with the remainder going one-each to the
/// first supervisors in registration order.
pub open spec fn spec_rebalance_target(s: Seq<EntryView>, k: int) -> int {
    let t = clamp_usize(sum_agents(s));
    if k < t % (s.len() as int) {
        t / (s.len() as int) + 1
    } else {
        t / (s.len() as int)
    }
}

/// What one auto-scaling pass does to a supervisor: one agent is added on
/// high load (over 80% busy, below the ceiling), one idle agent is removed
/// on low load (under 20% busy, above the floor), nothing happens otherwise.
pub open spec fn auto_scaled(pre: SupervisorView, post: SupervisorView, lo: int, hi: int) -> bool {
    let len = pre.agents.len() as int;
    let busy = count_busy(pre.agents);
    if len > 0 && busy * 10 > len * 8 && len < hi {
        &&& post.agents == pre.agents.push(reg_agent_view(spec_auto_name(len + 1)))
        &&& post.handles == pre.handles
        &&& post.total_tasks == pre.total_tasks
    } else if len > lo && busy * 10 < len * 2 {
        idle_trimmed(pre, post, 1)
    } else {
        post == pre
    }
}

/// The name auto-scaling gives the agent it adds.
pub open spec fn spec_auto_name(n: int) -> Seq<char> {
    "auto-scale-agent-"@ + spec_decimal(n)
}

/// One auto-scaling step, sized: over the busy threshold and under the
/// ceiling it grows the supervisor by exactly one agent; under the busy
/// threshold and over the floor it removes exactly one idle agent when one
/// exists, and no agent otherwise; in between it changes nothing.
pub proof fn lemma_auto_scale_effect(pre: SupervisorView, post: SupervisorView, lo: int, hi: int)
    requires
        auto_scaled(pre, post, lo, hi),
    ensures
        auto_add_applies(pre, lo, hi) ==> post.agents.len() == pre.agents.len() + 1,
        !auto_add_applies(pre, lo, hi) && pre.agents.len() > lo && count_busy(pre.agents) * 10
            < pre.agents.len() * 2 ==> post.agents.len() == pre.agents.len() - vstd::math::min(
            1,
            count_idle(pre.agents),
        ),
        !auto_add_applies(pre, lo, hi) && !(pre.agents.len() > lo && count_busy(pre.agents) * 10
            < pre.agents.len() * 2) ==> post == pre,
{
    if auto_add_applies(pre, lo, hi) {
    } else if pre.agents.len() > lo && count_busy(pre.agents) * 10 < pre.agents.len() * 2 {
        crate::supervisor::lemma_scale_down_len(pre.agents, 1);
    }
}

/// Does the add-branch of auto-scaling go through for this supervisor?
pub open spec fn auto_add_applies(v: SupervisorView, lo: int, hi: int) -> bool {
    let len = v.agents.len() as int;
    v.agents.len() > 0 && count_busy(v.agents) * 10 > len * 8 && len < hi
}

/// Auto-scaling succeeds on this supervisor: where it would add an agent,
/// the generated name is free.
pub open spec fn auto_add_ok(v: SupervisorView, lo: int, hi: int) -> bool {
    auto_add_applies(v, lo, hi) ==> !v.has_agent(spec_auto_name(v.agents.len() as int + 1))
}

impl<V: PersonaValidator> SwarmOrchestrator<V> {
    /// Brings every supervisor that is below `target_agents_per_supervisor`
    /// up to the target by registering deterministically named agents.
    /// Fails with `AlreadyExists`, mid-pass, exactly when one of the
    /// generated names is already registered on its supervisor.
    pub fn scale_up(&mut self, target_agents_per_supervisor: usize) -> (r: Result<
        (),
        SupervisionError,
    >)
        requires
            swarm_wf(old(self)@),
        ensures
            swarm_wf(final(self)@),
            r is Ok ==> (forall|k: int|
                0 <= k < old(self)@.len() ==> names_fresh(
                    (#[trigger] old(self)@[k]).sup,
                    old(self)@[k].id,
                    target_agents_per_supervisor as int,
                )),
            r is Err ==> (exists|k: int|
                0 <= k < old(self)@.len() && !names_fresh(
                    (#[trigger] old(self)@[k]).sup,
                    old(self)@[k].id,
                    target_agents_per_supervisor as int,
                )),
            r is Ok ==> {
                &&& final(self)@.len() == old(self)@.len()
                &&& forall|k: int|
                    0 <= k < old(self)@.len() ==> (#[trigger] final(self)@[k]).id == old(self)@[k].id
                &&& forall|k: int|
                    0 <= k < old(self)@.len() ==> (#[trigger] final(self)@[k]).sup.agents
                        == scale_up_result(
                        old(self)@[k].sup.agents,
                        old(self)@[k].id,
                        target_agents_per_supervisor as int,
                    ) && final(self)@[k].sup.handles == old(self)@[k].sup.handles && final(self)@[k].sup.total_tasks == old(self)@[k].sup.total_tasks
            },
            r matches Err(e) ==> e is AlreadyExists,
    {
        let ghost pre = self@;
        let target = target_agents_per_supervisor;
        let mut k: usize = 0;
        while k < self.supervisors.len()
            invariant
                pre == old(self)@,
                target == target_agents_per_supervisor,
                swarm_wf(self@),
                k <= self.supervisors.len(),
                self@.len() == pre.len(),
                swarm_wf(pre),
                forall|j: int| k <= j < pre.len() ==> self@[j] == pre[j],
                forall|j: int| 0 <= j < pre.len() ==> (#[trigger] self@[j]).id == pre[j].id,
                forall|j: int|
                    0 <= j < k ==> names_fresh(
                        (#[trigger] pre[j]).sup,
                        pre[j].id,
                        target as int,
                    ),
                forall|j: int|
                    0 <= j < k ==> (#[trigger] self@[j]).sup.agents == scale_up_result(
                        pre[j].sup.agents,
                        pre[j].id,
                        target as int,
                    ) && self@[j].sup.handles == pre[j].sup.handles && self@[j].sup.total_tasks
                        == pre[j].sup.total_tasks,
            decreases self.supervisors.len() - k,
        {
            let ghost mid = self@;
            let mut entry = self.supervisors.remove(k);
            proof {
                assert(mid[k as int].sup.wf());
                assert(entry.supervisor@ == mid[k as int].sup);
                assert(mid[k as int] == pre[k as int]);
            }
            let res = scale_one_up(&mut entry.supervisor, entry.id.as_str(), target);
            let ghost newv = entry@;
            self.supervisors.insert(k, entry);
            proof {
                assert(self@ =~= mid.update(k as int, newv));
                lemma_swarm_update_wf(mid, self@, k as int);
            }
            if let Err(e) = res {
                proof {
                    assert(0 <= k as int && (k as int) < old(self)@.len() && !names_fresh(
                        (old(self)@[k as int]).sup,
                        old(self)@[k as int].id,
                        target_agents_per_supervisor as int,
                    ));
                }
                return Err(e);
            }
            k += 1;
        }
        Ok(())
    }

    /// Removes idle agents from every supervisor above
    /// `target_agents_per_supervisor`, down to the target where enough idle
    /// agents exist. Never removes a non-idle agent, so the target is a
    /// soft bound. Always succeeds.
    pub fn scale_down(&mut self, target_agents_per_supervisor: usize) -> (r: Result<
        (),
        SupervisionError,
    >)
        requires
            swarm_wf(old(self)@),
        ensures
            swarm_wf(final(self)@),
            r is Ok,
            final(self)@.len() == old(self)@.len(),
            forall|k: int|
                0 <= k < old(self)@.len() ==> (#[trigger] final(self)@[k]).id == old(self)@[k].id,
            forall|k: int|
                0 <= k < old(self)@.len() ==> idle_trimmed(
                    old(self)@[k].sup,
                    (#[trigger] final(self)@[k]).sup,
                    old(self)@[k].sup.agents.len() - target_agents_per_supervisor as int,
                ),
    {
        let ghost pre = self@;
        let target = target_agents_per_supervisor;
        let mut k: usize = 0;
        while k < self.supervisors.len()
            invariant
                swarm_wf(self@),
                swarm_wf(pre),
                k <= self.supervisors.len(),
                self@.len() == pre.len(),
                forall|j: int| k <= j < pre.len() ==> self@[j] == pre[j],
                forall|j: int| 0 <= j < pre.len() ==> (#[trigger] self@[j]).id == pre[j].id,
                forall|j: int|
                    0 <= j < k ==> idle_trimmed(
                        pre[j].sup,
                        (#[trigger] self@[j]).sup,
                        pre[j].sup.agents.len() - target as int,
                    ),
            decreases self.supervisors.len() - k,
        {
            let ghost mid = self@;
            let mut entry = self.supervisors.remove(k);
            proof {
                assert(mid[k as int].sup.wf());
                assert(entry.supervisor@ == mid[k as int].sup);
                assert(mid[k as int] == pre[k as int]);
            }
            let count = entry.supervisor.agent_count();
            if count > target {
                entry.supervisor.remove_idle_excess(count - target);
            } else {
                proof {
                    assert(spec_scale_down(
                        entry.supervisor@.agents,
                        pre[k as int].sup.agents.len() - target as int,
                    ) == entry.supervisor@.agents);
                }
            }
            let ghost newv = entry@;
            self.supervisors.insert(k, entry);
            proof {
                assert(self@ =~= mid.update(k as int, newv));
                lemma_swarm_update_wf(mid, self@, k as int);
                assert(idle_trimmed(
                    pre[k as int].sup,
                    self@[k as int].sup,
                    pre[k as int].sup.agents.len() - target as int,
                ));
            }
            k += 1;
        }
        Ok(())
    }

    /// Evens agent counts out across supervisors: each gets a target of the
    /// total divided by the member count, the remainder spread one-each over
    /// the first supervisors, and supervisors above their target have idle
    /// agents removed down to it. Capacity is redistributed by shrinking;
    /// agents are never migrated. A swarm of fewer than two supervisors is
    /// left untouched.
    pub fn rebalance(&mut self) -> (r: Result<(), SupervisionError>)
        requires
            swarm_wf(old(self)@),
        ensures
            swarm_wf(final(self)@),
            r is Ok,
            old(self)@.len() < 2 ==> final(self)@ == old(self)@,
            final(self)@.len() == old(self)@.len(),
            forall|k: int|
                0 <= k < old(self)@.len() ==> (#[trigger] final(self)@[k]).id == old(self)@[k].id,
            old(self)@.len() >= 2 ==> forall|k: int|
                0 <= k < old(self)@.len() ==> idle_trimmed(
                    old(self)@[k].sup,
                    (#[trigger] final(self)@[k]).sup,
                    old(self)@[k].sup.agents.len() - spec_rebalance_target(old(self)@, k),
                ),
    {
        let ghost pre = self@;
        if self.supervisors.len() < 2 {
            return Ok(());
        }
        let n = self.supervisors.len();
        let mut total: usize = 0;
        let mut k: usize = 0;
        while k < self.supervisors.len()
            invariant
                swarm_wf(self@),
                k <= self.supervisors.len(),
                self@ == pre,
                total == clamp_usize(sum_agents(self@.subrange(0, k as int))),
            decreases self.supervisors.len() - k,
        {
            let ghost prefix = self@.subrange(0, k as int);
            let ghost next = self@.subrange(0, k as int + 1);
            proof {
                assert(next.drop_last() =~= prefix);
                assert(next.last() == self@[k as int]);
                assert forall|j: int|
                    0 <= j < prefix.len() implies (#[trigger] prefix[j].sup).total_tasks >= 0 by {
                    assert(prefix[j] == self@[j]);
                    assert(self@[j].sup.wf());
                }
                lemma_swarm_sums_nonneg(prefix);
            }
            total = sat_add_usize(total, self.supervisors[k].supervisor.agent_count());
            k += 1;
        }
        proof {
            assert(self@.subrange(0, self@.len() as int) =~= self@);
        }
        let base = total / n;
        let rem = total % n;
        proof {
            vstd::arithmetic::div_mod::lemma_div_is_ordered_by_denominator(
                total as int,
                2,
                n as int,
            );
            vstd::arithmetic::div_mod::lemma_div_is_ordered(
                total as int,
                usize::MAX as int,
                2,
            );
            assert(base + 1 <= usize::MAX);
        }
        let mut k: usize = 0;
        while k < self.supervisors.len()
            invariant
                swarm_wf(self@),
                swarm_wf(pre),
                pre.len() >= 2,
                n == pre.len(),
                k <= self.supervisors.len(),
                self@.len() == pre.len(),
                total == clamp_usize(sum_agents(pre)),
                base == total as int / n as int,
                rem == total as int % n as int,
                base + 1 <= usize::MAX,
                forall|j: int| k <= j < pre.len() ==> self@[j] == pre[j],
                forall|j: int| 0 <= j < pre.len() ==> (#[trigger] self@[j]).id == pre[j].id,
                forall|j: int|
                    0 <= j < k ==> idle_trimmed(
                        pre[j].sup,
                        (#[trigger] self@[j]).sup,
                        pre[j].sup.agents.len() - spec_rebalance_target(pre, j),
                    ),
            decreases self.supervisors.len() - k,
        {
            let ghost mid = self@;
            let tgt = if k < rem {
                base + 1
            } else {
                base
            };
            proof {
                assert(tgt == spec_rebalance_target(pre, k as int));
            }
            let mut entry = self.supervisors.remove(k);
            proof {
                assert(mid[k as int].sup.wf());
                assert(entry.supervisor@ == mid[k as int].sup);
                assert(mid[k as int] == pre[k as int]);
            }
            let count = entry.supervisor.agent_count();
            if count > tgt {
                entry.supervisor.remove_idle_excess(count - tgt);
            } else {
                proof {
                    assert(spec_scale_down(
                        entry.supervisor@.agents,
                        pre[k as int].sup.agents.len() - tgt as int,
                    ) == entry.supervisor@.agents);
                }
            }
            let ghost newv = entry@;
            self.supervisors.insert(k, entry);
            proof {
                assert(self@ =~= mid.update(k as int, newv));
                lemma_swarm_update_wf(mid, self@, k as int);
                assert(idle_trimmed(
                    pre[k as int].sup,
                    self@[k as int].sup,
                    pre[k as int].sup.agents.len() - spec_rebalance_target(pre, k as int),
                ));
            }
            k += 1;
        }
        Ok(())
    }

    /// Per supervisor: adds one agent when more than 80% of its agents are
    /// busy and it is below `max_agents_per_supervisor`; removes one idle
    /// agent when fewer than 20% are busy and it is above
    /// `min_agents_per_supervisor`. Fails with `AlreadyExists`, mid-pass,
    /// exactly when an added agent's generated name is already taken.
    pub fn auto_scale(&mut self, min_agents_per_supervisor: usize, max_agents_per_supervisor: usize)
        -> (r: Result<(), SupervisionError>)
        requires
            swarm_wf(old(self)@),
        ensures
            swarm_wf(final(self)@),
            r is Ok ==> (forall|k: int|
                0 <= k < old(self)@.len() ==> auto_add_ok(
                    (#[trigger] old(self)@[k]).sup,
                    min_agents_per_supervisor as int,
                    max_agents_per_supervisor as int,
                )),
            r is Err ==> (exists|k: int|
                0 <= k < old(self)@.len() && !auto_add_ok(
                    (#[trigger] old(self)@[k]).sup,
                    min_agents_per_supervisor as int,
                    max_agents_per_supervisor as int,
                )),
            r is Ok ==> {
                &&& final(self)@.len() == old(self)@.len()
                &&& forall|k: int|
                    0 <= k < old(self)@.len() ==> (#[trigger] final(self)@[k]).id == old(self)@[k].id
                &&& forall|k: int|
                    0 <= k < old(self)@.len() ==> auto_scaled(
                        old(self)@[k].sup,
                        (#[trigger] final(self)@[k]).sup,
                        min_agents_per_supervisor as int,
                        max_agents_per_supervisor as int,
                    )
            },
            r matches Err(e) ==> e is AlreadyExists,
    {
        let ghost pre = self@;
        let lo = min_agents_per_supervisor;
        let hi = max_agents_per_supervisor;
        let mut k: usize = 0;
        while k < self.supervisors.len()
            invariant
                pre == old(self)@,
                lo == min_agents_per_supervisor,
                hi == max_agents_per_supervisor,
                swarm_wf(self@),
                swarm_wf(pre),
                k <= self.supervisors.len(),
                self@.len() == pre.len(),
                forall|j: int| k <= j < pre.len() ==> self@[j] == pre[j],
                forall|j: int| 0 <= j < pre.len() ==> (#[trigger] self@[j]).id == pre[j].id,
                forall|j: int|
                    0 <= j < k ==> auto_add_ok((#[trigger] pre[j]).sup, lo as int, hi as int),
                forall|j: int|
                    0 <= j < k ==> auto_scaled(
                        pre[j].sup,
                        (#[trigger] self@[j]).sup,
                        lo as int,
                        hi as int,
                    ),
            decreases self.supervisors.len() - k,
        {
            let ghost mid = self@;
            let mut entry = self.supervisors.remove(k);
            proof {
                assert(mid[k as int].sup.wf());
                assert(entry.supervisor@ == mid[k as int].sup);
                assert(mid[k as int] == pre[k as int]);
            }
            let total = entry.supervisor.agent_count();
            let busy = entry.supervisor.busy_count();
            proof {
                crate::supervisor::lemma_count_pred_bounds(
                    entry.supervisor@.agents,
                    |st: StatusView| st is Busy,
                );
            }
            let mut failed: Option<SupervisionError> = None;
            if total > 0 && (busy as u128) * 10 > (total as u128) * 8 && total < hi {
                let name = auto_agent_name(total + 1);
                let ghost namev = name@;
                match entry.supervisor.register_agent(name) {
                    Ok(()) => {
                        proof {
                            assert(auto_add_ok(pre[k as int].sup, lo as int, hi as int));
                        }
                    },
                    Err(e) => {
                        proof {
                            assert(pre[k as int].sup.has_agent(
                                spec_auto_name(pre[k as int].sup.agents.len() as int + 1),
                            ));
                            assert(!auto_add_ok(pre[k as int].sup, lo as int, hi as int));
                        }
                        failed = Some(e);
                    },
                }
            } else if total > lo && (busy as u128) * 10 < (total as u128) * 2 {
                entry.supervisor.remove_idle_excess(1);
                proof {
                    assert(auto_add_ok(pre[k as int].sup, lo as int, hi as int));
                }
            } else {
                proof {
                    assert(auto_add_ok(pre[k as int].sup, lo as int, hi as int));
                }
            }
            let ghost newv = entry@;
            self.supervisors.insert(k, entry);
            proof {
                assert(self@ =~= mid.update(k as int, newv));
                lemma_swarm_update_wf(mid, self@, k as int);
            }
            if let Some(e) = failed {
                proof {
                    assert(0 <= k as int && (k as int) < old(self)@.len() && !auto_add_ok(
                        (old(self)@[k as int]).sup,
                        min_agents_per_supervisor as int,
                        max_agents_per_supervisor as int,
                    ));
                }
                return Err(e);
            }
            proof {
                assert(auto_scaled(pre[k as int].sup, self@[k as int].sup, lo as int, hi as int));
            }
            k += 1;
        }
        Ok(())
    }

    /// Checks every supervisor and recovers the unhealthy ones: each
    /// `Failed` agent is transitioned to `Starting`, and the supervisor's id
    /// is reported so the caller knows where intervention happened. Returns
    /// the recovered ids in registration order.
    pub fn health_check_and_recover(&mut self) -> (r: Result<Vec<String>, SupervisionError>)
        requires
            swarm_wf(old(self)@),
        ensures
            swarm_wf(final(self)@),
            r is Ok,
            r matches Ok(ids) ==> ids@.map_values(|t: String| t@) == recovered_ids(old(self)@),
            final(self)@.len() == old(self)@.len(),
            forall|k: int|
                0 <= k < old(self)@.len() ==> (#[trigger] final(self)@[k]).id == old(self)@[k].id,
            forall|k: int|
                0 <= k < old(self)@.len() ==> recovered_entry(
                    old(self)@[k].sup,
                    (#[trigger] final(self)@[k]).sup,
                ),
    {
        let ghost pre = self@;
        let mut out: Vec<String> = Vec::new();
        let mut k: usize = 0;
        while k < self.supervisors.len()
            invariant
                swarm_wf(self@),
                swarm_wf(pre),
                k <= self.supervisors.len(),
                self@.len() == pre.len(),
                forall|j: int| k <= j < pre.len() ==> self@[j] == pre[j],
                forall|j: int| 0 <= j < pre.len() ==> (#[trigger] self@[j]).id == pre[j].id,
                forall|j: int|
                    0 <= j < k ==> recovered_entry(pre[j].sup, (#[trigger] self@[j]).sup),
                out@.map_values(|t: String| t@) == recovered_ids(pre.subrange(0, k as int)),
            decreases self.supervisors.len() - k,
        {
            let ghost mid = self@;
            let ghost rprefix = recovered_ids(pre.subrange(0, k as int));
            let mut entry = self.supervisors.remove(k);
            proof {
                assert(mid[k as int].sup.wf());
                assert(entry.supervisor@ == mid[k as int].sup);
                assert(mid[k as int] == pre[k as int]);
            }
            let health = entry.supervisor.health_check();
            if !health.is_healthy && health.failed_agents > 0 {
                entry.supervisor.recover_failed_agents();
                let ghost prevout = out@;
                out.push(entry.id.clone());
                proof {
                    assert(out@.map_values(|t: String| t@) =~= prevout.map_values(
                        |t: String| t@,
                    ).push(pre[k as int].id));
                }
            }
            let ghost newv = entry@;
            self.supervisors.insert(k, entry);
            proof {
                assert(self@ =~= mid.update(k as int, newv));
                lemma_swarm_update_wf(mid, self@, k as int);
                assert(recovered_entry(pre[k as int].sup, self@[k as int].sup));
                assert(pre.subrange(0, k as int + 1).drop_last() =~= pre.subrange(0, k as int));
                assert(pre.subrange(0, k as int + 1).last() == pre[k as int]);
                assert(out@.map_values(|t: String| t@) =~= recovered_ids(
                    pre.subrange(0, k as int + 1),
                ));
            }
            k += 1;
        }
        proof {
            assert(pre.subrange(0, pre.len() as int) =~= pre);
        }
        Ok(out)
    }
}

/// The supervisor ids that a recovery pass reports, in registration order:
/// those with at least one failed agent.
pub open spec fn recovered_ids(s: Seq<EntryView>) -> Seq<Seq<char>>
    decreases s.len(),
{
    if s.len() == 0 {
        Seq::empty()
    } else {
        recovered_ids(s.drop_last()) + if count_failed(s.last().sup.agents) > 0 {
            seq![s.last().id]
        } else {
            Seq::empty()
        }
    }
}

/// What a recovery pass makes of one supervisor: with failed agents, each
/// of them moves to `Starting`; otherwise nothing changes.
pub open spec fn recovered_entry(pre: SupervisorView, post: SupervisorView) -> bool {
    if count_failed(pre.agents) > 0 {
        &&& post.agents.len() == pre.agents.len()
        &&& forall|j: int|
            0 <= j < pre.agents.len() ==> post.agents[j] == (if pre.agents[j].status is Failed {
                AgentView { status: StatusView::Starting, ..pre.agents[j] }
            } else {
                pre.agents[j]
            })
        &&& post.handles == pre.handles
        &&& post.total_tasks == pre.total_tasks
    } else {
        post == pre
    }
}

/// Computes `auto-scale-agent-{n}`.
fn auto_agent_name(n: usize) -> (r: String)
    ensures
        r@ == spec_auto_name(n as int),
{
    let num = usize_to_string(n);
    let r = String::from_str("auto-scale-agent-").concat(num.as_str());
    proof {
        assert(r@ =~= spec_auto_name(n as int));
    }
    r
}

/// Removing an entry keeps the swarm well-formed.
proof fn lemma_swarm_remove_wf(pre: Seq<EntryView>, post: Seq<EntryView>, at: int)
    requires
        swarm_wf(pre),
        0 <= at < pre.len(),
        post == pre.remove(at),
    ensures
        swarm_wf(post),
{
    assert forall|i: int, j: int| 0 <= i < j < post.len() implies post[i].id != post[j].id by {
        let pi = if i < at {
            i
        } else {
            i + 1
        };
        let pj = if j < at {
            j
        } else {
            j + 1
        };
        assert(post[i] == pre[pi]);
        assert(post[j] == pre[pj]);
    }
    assert forall|k: int| 0 <= k < post.len() implies (#[trigger] post[k].sup).wf() by {
        let pk = if k < at {
            k
        } else {
            k + 1
        };
        assert(post[k] == pre[pk]);
    }
}

} // verus!
