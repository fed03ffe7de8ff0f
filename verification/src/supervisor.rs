//! The supervision core: agent registration, lifecycle transitions,
//! cancellation bookkeeping, and the per-supervisor health snapshot.
//!
//! A supervisor owns its agents and a record of which agents still have a
//! live background execution handle. The background units themselves (the
//! sandboxed processes and the tasks awaiting them) run outside the library;
//! the supervisor decides every transition and the surrounding runtime
//! performs launches and cancellations when the corresponding operation
//! returns successfully.

use vstd::prelude::*;

use crate::error::SupervisionError;
use crate::text::str_eq;

verus! {

/// Lifecycle state of one agent.
///
/// `Busy` and `Idle` are refinements of "actively executing" used by the
/// scheduling layer; a supervisor that does not track task-level load may
/// leave all running agents in `Running`. `Failed` carries the reason the
/// background unit reported.
#[derive(Debug)]
pub enum AgentStatus {
    Starting,
    Running,
    Busy,
    Idle,
    Stopped,
    Failed(String),
}

/// Mathematical image of an `AgentStatus`.
pub ghost enum StatusView {
    Starting,
    Running,
    Busy,
    Idle,
    Stopped,
    Failed(Seq<char>),
}

impl View for AgentStatus {
    type V = StatusView;

    open spec fn view(&self) -> StatusView {
        match self {
            AgentStatus::Starting => StatusView::Starting,
            AgentStatus::Running => StatusView::Running,
            AgentStatus::Busy => StatusView::Busy,
            AgentStatus::Idle => StatusView::Idle,
            AgentStatus::Stopped => StatusView::Stopped,
            AgentStatus::Failed(m) => StatusView::Failed(m@),
        }
    }
}

impl Clone for AgentStatus {
    fn clone(&self) -> (r: Self)
        ensures
            r@ == self@,
    {
        match self {
            AgentStatus::Starting => AgentStatus::Starting,
            AgentStatus::Running => AgentStatus::Running,
            AgentStatus::Busy => AgentStatus::Busy,
            AgentStatus::Idle => AgentStatus::Idle,
            AgentStatus::Stopped => AgentStatus::Stopped,
            AgentStatus::Failed(m) => AgentStatus::Failed(m.clone()),
        }
    }
}

impl AgentStatus {
    /// Is this agent actively executing (holding sandbox resources)?
    pub fn is_active(&self) -> (r: bool)
        ensures
            r == is_active_status(self@),
    {
        match self {
            AgentStatus::Starting => true,
            AgentStatus::Running => true,
            AgentStatus::Busy => true,
            _ => false,
        }
    }
}

/// The "actively executing" subset of the state machine.
pub open spec fn is_active_status(s: StatusView) -> bool {
    s == StatusView::Starting || s == StatusView::Running || s == StatusView::Busy
}

/// One supervised unit of work bound to an isolated workspace branch.
#[derive(Debug)]
pub struct Agent {
    pub id: String,
    pub persona: String,
    pub status: AgentStatus,
    pub branch_name: String,
}

/// Mathematical image of an `Agent`.
pub ghost struct AgentView {
    pub id: Seq<char>,
    pub persona: Seq<char>,
    pub status: StatusView,
    pub branch_name: Seq<char>,
}

impl View for Agent {
    type V = AgentView;

    open spec fn view(&self) -> AgentView {
        AgentView {
            id: self.id@,
            persona: self.persona@,
            status: self.status@,
            branch_name: self.branch_name@,
        }
    }
}

impl Clone for Agent {
    fn clone(&self) -> (r: Self)
        ensures
            r@ == self@,
    {
        Agent {
            id: self.id.clone(),
            persona: self.persona.clone(),
            status: self.status.clone(),
            branch_name: self.branch_name.clone(),
        }
    }
}

/// The isolated-workspace identifier derived from an agent id.
pub open spec fn spec_branch_name(id: Seq<char>) -> Seq<char> {
    "agent/"@ + id
}

/// Computes `agent/{id}`, the branch an agent works on.
pub fn branch_name_for(id: &str) -> (r: String)
    ensures
        r@ == spec_branch_name(id@),
{
    String::from_str("agent/").concat(id)
}

/// Confirms that a named persona is known before an agent may use it.
pub trait PersonaValidator {
    /// Which persona names this validator accepts.
    spec fn spec_valid(&self, name: Seq<char>) -> bool;

    /// Checks a persona name, failing with `InvalidPersona` on unknown names.
    fn validate_persona(&self, persona_name: &str) -> (r: Result<(), SupervisionError>)
        ensures
            r is Ok <==> self.spec_valid(persona_name@),
            r matches Err(e) ==> e is InvalidPersona,
    ;
}

/// Accepts the persona names shipped with the default configuration.
pub struct DefaultPersonaValidator;

impl PersonaValidator for DefaultPersonaValidator {
    open spec fn spec_valid(&self, name: Seq<char>) -> bool {
        ||| name == "rusty"@
        ||| name == "security-expert"@
        ||| name == "architect"@
        ||| name == "frontend"@
    }

    fn validate_persona(&self, persona_name: &str) -> (r: Result<(), SupervisionError>) {
        if persona_name.unicode_len() == 0 {
            proof {
                reveal_strlit("rusty");
                reveal_strlit("security-expert");
                reveal_strlit("architect");
                reveal_strlit("frontend");
            }
            return Err(
                SupervisionError::InvalidPersona(
                    String::from_str("Persona name cannot be empty"),
                ),
            );
        }
        if str_eq(persona_name, "rusty") || str_eq(persona_name, "security-expert") || str_eq(
            persona_name,
            "architect",
        ) || str_eq(persona_name, "frontend") {
            Ok(())
        } else {
            let msg = String::from_str("Persona '").concat(persona_name).concat(
                "' not found in personas.yml",
            );
            Err(SupervisionError::InvalidPersona(msg))
        }
    }
}

/// Snapshot a supervisor reports on a health check.
#[derive(Debug, Clone, Copy)]
pub struct HealthStatus {
    pub is_healthy: bool,
    pub total_agents: usize,
    pub running_agents: usize,
    pub failed_agents: usize,
}

/// Mathematical image of an `AgentSupervisor`.
pub ghost struct SupervisorView {
    pub agents: Seq<AgentView>,
    pub handles: Seq<Seq<char>>,
    pub total_tasks: int,
}

/// Number of agents in `s` whose status satisfies `p`.
pub open spec fn count_pred(s: Seq<AgentView>, p: spec_fn(StatusView) -> bool) -> int
    decreases s.len(),
{
    if s.len() == 0 {
        0
    } else {
        count_pred(s.drop_last(), p) + if p(s.last().status) {
            1int
        } else {
            0int
        }
    }
}

/// Number of agents in `s` that are actively executing.
pub open spec fn count_active(s: Seq<AgentView>) -> int {
    count_pred(s, |st: StatusView| is_active_status(st))
}

/// Number of agents in `s` whose status is `Failed`.
pub open spec fn count_failed(s: Seq<AgentView>) -> int {
    count_pred(s, |st: StatusView| st is Failed)
}

/// Number of agents in `s` whose status is `Busy`.
pub open spec fn count_busy(s: Seq<AgentView>) -> int {
    count_pred(s, |st: StatusView| st is Busy)
}

/// Number of agents in `s` whose status is `Idle`.
pub open spec fn count_idle(s: Seq<AgentView>) -> int {
    count_pred(s, |st: StatusView| st is Idle)
}

pub proof fn lemma_count_pred_bounds(s: Seq<AgentView>, p: spec_fn(StatusView) -> bool)
    ensures
        0 <= count_pred(s, p) <= s.len(),
    decreases s.len(),
{
    if s.len() > 0 {
        lemma_count_pred_bounds(s.drop_last(), p);
    }
}

/// `count_pred` seen from the front instead of the back.
pub proof fn lemma_count_pred_front(s: Seq<AgentView>, p: spec_fn(StatusView) -> bool)
    requires
        s.len() > 0,
    ensures
        count_pred(s, p) == count_pred(s.skip(1), p) + if p(s[0].status) {
            1int
        } else {
            0int
        },
    decreases s.len(),
{
    if s.len() == 1 {
        assert(s.drop_last() =~= s.skip(1));
    } else {
        assert(s.drop_last().skip(1) =~= s.skip(1).drop_last());
        assert(s.skip(1).last() == s.last());
        lemma_count_pred_front(s.drop_last(), p);
    }
}

impl SupervisorView {
    /// Is `id` registered?
    pub open spec fn has_agent(self, id: Seq<char>) -> bool {
        exists|k: int| 0 <= k < self.agents.len() && self.agents[k].id == id
    }

    /// Does `id` hold a live background handle?
    pub open spec fn has_handle(self, id: Seq<char>) -> bool {
        self.handles.contains(id)
    }

    /// Agent ids are unique, every live handle belongs to an agent, and the
    /// task counter is a machine number.
    pub open spec fn wf(self) -> bool {
        &&& forall|i: int, j: int|
            0 <= i < j < self.agents.len() ==> self.agents[i].id != self.agents[j].id
        &&& forall|i: int, j: int|
            0 <= i < j < self.handles.len() ==> self.handles[i] != self.handles[j]
        &&& forall|i: int|
            0 <= i < self.handles.len() ==> self.has_agent(#[trigger] self.handles[i])
        &&& 0 <= self.total_tasks <= usize::MAX
    }
}

/// Owns the set of agents for one execution domain and the cancellation
/// record of their background executions.
pub struct AgentSupervisor<V: PersonaValidator> {
    agents: Vec<Agent>,
    handles: Vec<String>,
    validator: V,
    total_tasks: usize,
}

impl<V: PersonaValidator> View for AgentSupervisor<V> {
    type V = SupervisorView;

    closed spec fn view(&self) -> SupervisorView {
        SupervisorView {
            agents: self.agents@.map_values(|a: Agent| a@),
            handles: self.handles@.map_values(|h: String| h@),
            total_tasks: self.total_tasks as int,
        }
    }
}

impl<V: PersonaValidator> AgentSupervisor<V> {
    /// Which persona names this supervisor accepts for `spawn`.
    pub closed spec fn spec_valid_persona(&self, name: Seq<char>) -> bool {
        self.validator.spec_valid(name)
    }

    /// A fresh supervisor with no agents, accepting the personas its
    /// validator accepts.
    pub fn new(validator: V) -> (r: AgentSupervisor<V>)
        ensures
            r@.agents.len() == 0,
            r@.handles.len() == 0,
            r@.total_tasks == 0,
            r@.wf(),
            forall|n: Seq<char>| #[trigger] r.spec_valid_persona(n) == validator.spec_valid(n),
    {
        let r = AgentSupervisor { agents: Vec::new(), handles: Vec::new(), validator, total_tasks: 0 };
        proof {
            assert(r@.agents =~= Seq::<AgentView>::empty());
            assert(r@.handles =~= Seq::<Seq<char>>::empty());
        }
        r
    }

    /// Index of the agent named `id`, if any.
    fn find_agent(&self, id: &str) -> (r: Option<usize>)
        ensures
            r matches Some(k) ==> 0 <= k < self@.agents.len() && self@.agents[k as int].id == id@,
            r is None ==> !self@.has_agent(id@),
    {
        let mut k: usize = 0;
        while k < self.agents.len()
            invariant
                k <= self.agents.len(),
                forall|j: int| 0 <= j < k ==> self@.agents[j].id != id@,
            decreases self.agents.len() - k,
        {
            if str_eq(self.agents[k].id.as_str(), id) {
                return Some(k);
            }
            k += 1;
        }
        None
    }

    /// Index of the live handle for `id`, if any.
    fn find_handle(&self, id: &str) -> (r: Option<usize>)
        ensures
            r matches Some(k) ==> 0 <= k < self@.handles.len() && self@.handles[k as int] == id@,
            r is None ==> !self@.has_handle(id@),
    {
        let mut k: usize = 0;
        while k < self.handles.len()
            invariant
                k <= self.handles.len(),
                forall|j: int| 0 <= j < k ==> self@.handles[j] != id@,
            decreases self.handles.len() - k,
        {
            if str_eq(self.handles[k].as_str(), id) {
                return Some(k);
            }
            k += 1;
        }
        None
    }

    /// Registers a new agent and records that its background execution was
    /// accepted for launch.
    ///
    /// Fails with `AlreadyExists` if `id` is registered, with
    /// `InvalidPersona` if the validator rejects `persona_name`; in both
    /// cases nothing changes. On success the agent starts `Running` on branch
    /// `agent/{id}` and holds a live handle; the caller launches the actual
    /// background unit.
    pub fn spawn(&mut self, id: &str, persona_name: &str) -> (r: Result<(), SupervisionError>)
        requires
            old(self)@.wf(),
        ensures
            final(self)@.wf(),
            old(self)@.has_agent(id@) ==> (r matches Err(e) && e is AlreadyExists && final(self)@
                == old(self)@),
            !old(self)@.has_agent(id@) && !old(self).spec_valid_persona(persona_name@) ==> (r
                matches Err(e) && e is InvalidPersona && final(self)@ == old(self)@),
            !old(self)@.has_agent(id@) && old(self).spec_valid_persona(persona_name@) ==> {
                &&& r is Ok
                &&& final(self)@.agents == old(self)@.agents.push(
                    AgentView {
                        id: id@,
                        persona: persona_name@,
                        status: StatusView::Running,
                        branch_name: spec_branch_name(id@),
                    },
                )
                &&& final(self)@.handles == old(self)@.handles.push(id@)
                &&& final(self)@.total_tasks == old(self)@.total_tasks
            },
            r is Ok <==> !old(self)@.has_agent(id@) && old(self).spec_valid_persona(persona_name@),
    {
        if let Some(_) = self.find_agent(id) {
            let msg = String::from_str("Agent with ID '").concat(id).concat("' already exists.");
            return Err(SupervisionError::AlreadyExists(msg));
        }
        if let Err(e) = self.validator.validate_persona(persona_name) {
            return Err(e);
        }
        let agent = Agent {
            id: id.to_owned(),
            persona: persona_name.to_owned(),
            status: AgentStatus::Running,
            branch_name: branch_name_for(id),
        };
        let ghost pre = self@;
        self.agents.push(agent);
        self.handles.push(id.to_owned());
        proof {
            assert(self@.agents =~= pre.agents.push(
                AgentView {
                    id: id@,
                    persona: persona_name@,
                    status: StatusView::Running,
                    branch_name: spec_branch_name(id@),
                },
            ));
            assert(self@.handles =~= pre.handles.push(id@));
            assert forall|i: int|
                0 <= i < self@.handles.len() implies self@.has_agent(
                #[trigger] self@.handles[i],
            ) by {
                if i < pre.handles.len() {
                    assert(pre.has_agent(pre.handles[i]));
                    let k = choose|k: int|
                        0 <= k < pre.agents.len() && pre.agents[k].id == pre.handles[i];
                    assert(self@.agents[k].id == self@.handles[i]);
                } else {
                    assert(self@.agents[pre.agents.len() as int].id == id@);
                }
            }
        }
        Ok(())
    }

    /// Cancels an agent's background execution and marks it `Stopped`.
    ///
    /// Fails with `NotFound` for an unknown id and with `NotRunning` when no
    /// live handle exists (in particular on a second `stop`); in both cases
    /// nothing changes. On success the handle is released and the caller must
    /// terminate the background unit before relying on the agent being idle.
    pub fn stop(&mut self, id: &str) -> (r: Result<(), SupervisionError>)
        requires
            old(self)@.wf(),
        ensures
            final(self)@.wf(),
            !old(self)@.has_agent(id@) ==> (r matches Err(e) && e is NotFound && final(self)@ == old(self)@),
            old(self)@.has_agent(id@) && !old(self)@.has_handle(id@) ==> (r matches Err(e) && e
                is NotRunning && final(self)@ == old(self)@),
            r is Ok <==> old(self)@.has_agent(id@) && old(self)@.has_handle(id@),
            r is Ok ==> {
                &&& final(self)@.agents.len() == old(self)@.agents.len()
                &&& forall|k: int|
                    0 <= k < old(self)@.agents.len() && old(self)@.agents[k].id != id@ ==> final(self)@.agents[k] == old(self)@.agents[k]
                &&& forall|k: int|
                    0 <= k < old(self)@.agents.len() && old(self)@.agents[k].id == id@ ==> final(self)@.agents[k] == AgentView { status: StatusView::Stopped, ..old(self)@.agents[k] }
                &&& !final(self)@.has_handle(id@)
                &&& forall|h: Seq<char>|
                    h != id@ ==> (final(self)@.has_handle(h) <==> old(self)@.has_handle(h))
                &&& final(self)@.total_tasks == old(self)@.total_tasks
            },
    {
        let at = match self.find_agent(id) {
            Some(k) => k,
            None => {
                let msg = String::from_str("Agent '").concat(id).concat("' not found.");
                return Err(SupervisionError::NotFound(msg));
            },
        };
        let ht = match self.find_handle(id) {
            Some(k) => k,
            None => {
                let msg = String::from_str("Agent '").concat(id).concat("' was not running.");
                return Err(SupervisionError::NotRunning(msg));
            },
        };
        let ghost pre = self@;
        self.handles.remove(ht);
        let mut agent = self.agents.remove(at);
        agent.status = AgentStatus::Stopped;
        self.agents.insert(at, agent);
        proof {
            assert(self@.agents =~= pre.agents.update(
                at as int,
                AgentView { status: StatusView::Stopped, ..pre.agents[at as int] },
            ));
            assert(self@.handles =~= pre.handles.remove(ht as int));
            lemma_remove_keeps_unique_and_members(pre, self@, ht as int);
            assert forall|h: Seq<char>| h != id@ implies (self@.has_handle(h) <==> pre.has_handle(
                h,
            )) by {
                lemma_handle_membership(pre.handles, self@.handles, ht as int, h);
            }
            assert(!self@.has_handle(id@)) by {
                lemma_removed_handle_gone(pre.handles, self@.handles, ht as int, id@);
            }
        }
        Ok(())
    }

    /// Snapshot copy of all agents, in registration order.
    pub fn list(&self) -> (r: Vec<Agent>)
        ensures
            r@.map_values(|a: Agent| a@) == self@.agents,
    {
        let mut r: Vec<Agent> = Vec::new();
        let mut k: usize = 0;
        while k < self.agents.len()
            invariant
                k <= self.agents.len(),
                r@.map_values(|a: Agent| a@) =~= self@.agents.subrange(0, k as int),
            decreases self.agents.len() - k,
        {
            let ghost prev = r@;
            let a = self.agents[k].clone();
            proof {
                assert(a@ == self@.agents[k as int]);
            }
            r.push(a);
            proof {
                assert(r@ == prev.push(a));
                assert(r@.map_values(|a: Agent| a@) =~= prev.map_values(|a: Agent| a@).push(a@));
                assert(r@.map_values(|a: Agent| a@) =~= self@.agents.subrange(0, k as int + 1));
            }
            k += 1;
        }
        proof {
            assert(r@.map_values(|a: Agent| a@) =~= self@.agents);
        }
        r
    }

    /// The agent named `id`, if registered.
    pub fn get(&self, id: &str) -> (r: Option<&Agent>)
        ensures
            r is Some <==> self@.has_agent(id@),
            r matches Some(a) ==> exists|k: int|
                0 <= k < self@.agents.len() && self@.agents[k] == a@ && a@.id == id@,
    {
        match self.find_agent(id) {
            Some(k) => Some(&self.agents[k]),
            None => None,
        }
    }

    /// Replaces the status of agent `id`; used by recovery and by the
    /// background unit reporting its outcome. Fails with `NotFound` if `id`
    /// is unknown, and then changes nothing.
    pub fn update_agent_status(&mut self, id: &str, status: AgentStatus) -> (r: Result<
        (),
        SupervisionError,
    >)
        requires
            old(self)@.wf(),
        ensures
            final(self)@.wf(),
            r is Ok <==> old(self)@.has_agent(id@),
            !old(self)@.has_agent(id@) ==> (r matches Err(e) && e is NotFound && final(self)@ == old(self)@),
            r is Ok ==> {
                &&& final(self)@.agents.len() == old(self)@.agents.len()
                &&& forall|k: int|
                    0 <= k < old(self)@.agents.len() && old(self)@.agents[k].id != id@ ==> final(self)@.agents[k] == old(self)@.agents[k]
                &&& forall|k: int|
                    0 <= k < old(self)@.agents.len() && old(self)@.agents[k].id == id@ ==> final(self)@.agents[k] == AgentView { status: status@, ..old(self)@.agents[k] }
                &&& final(self)@.handles == old(self)@.handles
                &&& final(self)@.total_tasks == old(self)@.total_tasks
            },
    {
        let at = match self.find_agent(id) {
            Some(k) => k,
            None => {
                let msg = String::from_str("Agent '").concat(id).concat("' not found.");
                return Err(SupervisionError::NotFound(msg));
            },
        };
        let ghost pre = self@;
        let mut agent = self.agents.remove(at);
        agent.status = status;
        self.agents.insert(at, agent);
        proof {
            assert(self@.agents =~= pre.agents.update(
                at as int,
                AgentView { status: status@, ..pre.agents[at as int] },
            ));
            assert(self@.handles =~= pre.handles);
            lemma_wf_same_ids(pre, self@);
        }
        Ok(())
    }

    /// Number of agents currently in the actively executing subset
    /// (`Starting`, `Running` or `Busy`).
    pub fn running_count(&self) -> (r: usize)
        ensures
            r == count_active(self@.agents),
    {
        let mut r: usize = 0;
        let mut k: usize = 0;
        while k < self.agents.len()
            invariant
                k <= self.agents.len(),
                r <= k,
                r == count_active(self@.agents.subrange(0, k as int)),
            decreases self.agents.len() - k,
        {
            proof {
                assert(self@.agents.subrange(0, k as int + 1).drop_last() =~= self@.agents.subrange(
                    0,
                    k as int,
                ));
                assert(self@.agents.subrange(0, k as int + 1).last() == self@.agents[k as int]);
            }
            if self.agents[k].status.is_active() {
                r += 1;
            }
            k += 1;
        }
        proof {
            assert(self@.agents.subrange(0, self@.agents.len() as int) =~= self@.agents);
        }
        r
    }
}

/// Well-formedness survives any change that keeps ids and handles in place.
proof fn lemma_wf_same_ids(pre: SupervisorView, post: SupervisorView)
    requires
        pre.wf(),
        post.handles == pre.handles,
        post.agents.len() == pre.agents.len(),
        forall|k: int| 0 <= k < pre.agents.len() ==> post.agents[k].id == pre.agents[k].id,
        post.total_tasks == pre.total_tasks,
    ensures
        post.wf(),
{
    assert forall|i: int| 0 <= i < post.handles.len() implies post.has_agent(
        #[trigger] post.handles[i],
    ) by {
        assert(pre.has_agent(pre.handles[i]));
        let k = choose|k: int| 0 <= k < pre.agents.len() && pre.agents[k].id == pre.handles[i];
        assert(post.agents[k].id == post.handles[i]);
    }
}

/// Removing one handle keeps the rest unique and still backed by agents.
proof fn lemma_remove_keeps_unique_and_members(pre: SupervisorView, post: SupervisorView, ht: int)
    requires
        pre.wf(),
        0 <= ht < pre.handles.len(),
        post.handles == pre.handles.remove(ht),
        post.agents.len() == pre.agents.len(),
        forall|k: int| 0 <= k < pre.agents.len() ==> post.agents[k].id == pre.agents[k].id,
        post.total_tasks == pre.total_tasks,
    ensures
        post.wf(),
{
    assert forall|i: int, j: int|
        0 <= i < j < post.handles.len() implies post.handles[i] != post.handles[j] by {
        let pi = if i < ht {
            i
        } else {
            i + 1
        };
        let pj = if j < ht {
            j
        } else {
            j + 1
        };
        assert(post.handles[i] == pre.handles[pi]);
        assert(post.handles[j] == pre.handles[pj]);
    }
    assert forall|i: int| 0 <= i < post.handles.len() implies post.has_agent(
        #[trigger] post.handles[i],
    ) by {
        let pi = if i < ht {
            i
        } else {
            i + 1
        };
        assert(post.handles[i] == pre.handles[pi]);
        assert(pre.has_agent(pre.handles[pi]));
        let k = choose|k: int| 0 <= k < pre.agents.len() && pre.agents[k].id == pre.handles[pi];
        assert(post.agents[k].id == post.handles[i]);
    }
}

/// After removing index `ht`, membership of other values is unchanged.
proof fn lemma_handle_membership(pre: Seq<Seq<char>>, post: Seq<Seq<char>>, ht: int, h: Seq<char>)
    requires
        0 <= ht < pre.len(),
        post == pre.remove(ht),
        h != pre[ht],
    ensures
        post.contains(h) <==> pre.contains(h),
{
    if pre.contains(h) {
        let k = choose|k: int| 0 <= k < pre.len() && pre[k] == h;
        if k < ht {
            assert(post[k] == h);
        } else {
            assert(post[k - 1] == h);
        }
    }
    if post.contains(h) {
        let k = choose|k: int| 0 <= k < post.len() && post[k] == h;
        if k < ht {
            assert(pre[k] == h);
        } else {
            assert(pre[k + 1] == h);
        }
    }
}

/// A unique handle list no longer contains the removed id.
proof fn lemma_removed_handle_gone(
    pre: Seq<Seq<char>>,
    post: Seq<Seq<char>>,
    ht: int,
    id: Seq<char>,
)
    requires
        0 <= ht < pre.len(),
        post == pre.remove(ht),
        pre[ht] == id,
        forall|i: int, j: int| 0 <= i < j < pre.len() ==> pre[i] != pre[j],
    ensures
        !post.contains(id),
{
    if post.contains(id) {
        let k = choose|k: int| 0 <= k < post.len() && post[k] == id;
        if k < ht {
            assert(pre[k] == id);
        } else {
            assert(pre[k + 1] == id);
        }
    }
}

/// Cumulative work counters of one supervisor.
#[derive(Debug, Clone, Copy)]
pub struct SupervisorStats {
    pub total_tasks: usize,
}

/// What one pass of idle-removal leaves of `s`: scanning from the front,
/// up to `excess` agents whose status is `Idle` are dropped, every other
/// agent is kept in order.
pub open spec fn spec_scale_down(s: Seq<AgentView>, excess: int) -> Seq<AgentView>
    decreases s.len(),
{
    if excess <= 0 || s.len() == 0 {
        s
    } else if s[0].status is Idle {
        spec_scale_down(s.skip(1), excess - 1)
    } else {
        seq![s[0]] + spec_scale_down(s.skip(1), excess)
    }
}

/// The non-idle agents of `s`, in order.
pub open spec fn keep_nonidle(s: Seq<AgentView>) -> Seq<AgentView>
    decreases s.len(),
{
    if s.len() == 0 {
        s
    } else if s[0].status is Idle {
        keep_nonidle(s.skip(1))
    } else {
        seq![s[0]] + keep_nonidle(s.skip(1))
    }
}

/// Idle-removal never touches a non-idle agent: what remains of the
/// non-idle population is exactly what was there before, in order.
pub proof fn lemma_scale_down_keeps_nonidle(s: Seq<AgentView>, excess: int)
    ensures
        keep_nonidle(spec_scale_down(s, excess)) == keep_nonidle(s),
    decreases s.len(),
{
    if excess <= 0 || s.len() == 0 {
    } else if s[0].status is Idle {
        lemma_scale_down_keeps_nonidle(s.skip(1), excess - 1);
    } else {
        lemma_scale_down_keeps_nonidle(s.skip(1), excess);
        let t = seq![s[0]] + spec_scale_down(s.skip(1), excess);
        assert(t[0] == s[0]);
        assert(t.skip(1) =~= spec_scale_down(s.skip(1), excess));
    }
}

/// Counts of any status other than `Idle` survive idle-removal.
pub proof fn lemma_scale_down_count(s: Seq<AgentView>, excess: int, p: spec_fn(StatusView) -> bool)
    requires
        forall|st: StatusView| #[trigger] p(st) ==> !(st is Idle),
    ensures
        count_pred(spec_scale_down(s, excess), p) == count_pred(s, p),
    decreases s.len(),
{
    if excess <= 0 || s.len() == 0 {
    } else if s[0].status is Idle {
        lemma_scale_down_count(s.skip(1), excess - 1, p);
        lemma_count_pred_front(s, p);
    } else {
        lemma_scale_down_count(s.skip(1), excess, p);
        lemma_count_pred_front(s, p);
        let t = seq![s[0]] + spec_scale_down(s.skip(1), excess);
        if t.len() > 0 {
            lemma_count_pred_front(t, p);
            assert(t.skip(1) =~= spec_scale_down(s.skip(1), excess));
        }
    }
}

/// How many agents idle-removal leaves.
pub proof fn lemma_scale_down_len(s: Seq<AgentView>, excess: int)
    requires
        excess >= 0,
    ensures
        spec_scale_down(s, excess).len() == s.len() - vstd::math::min(excess, count_idle(s)),
    decreases s.len(),
{
    lemma_count_pred_bounds(s, |st: StatusView| st is Idle);
    if excess <= 0 || s.len() == 0 {
    } else if s[0].status is Idle {
        lemma_scale_down_len(s.skip(1), excess - 1);
        lemma_count_pred_front(s, |st: StatusView| st is Idle);
    } else {
        lemma_scale_down_len(s.skip(1), excess);
        lemma_count_pred_front(s, |st: StatusView| st is Idle);
        assert((seq![s[0]] + spec_scale_down(s.skip(1), excess)).len() == 1 + spec_scale_down(
            s.skip(1),
            excess,
        ).len());
    }
}

impl<V: PersonaValidator> AgentSupervisor<V> {
    /// Registers an agent by id alone, as the scaling layer does. The agent
    /// starts in `Starting` with the default persona and no background
    /// handle. Fails with `AlreadyExists` when `id` is taken; nothing
    /// changes then.
    pub fn register_agent(&mut self, agent_id: String) -> (r: Result<(), SupervisionError>)
        requires
            old(self)@.wf(),
        ensures
            final(self)@.wf(),
            r is Ok <==> !old(self)@.has_agent(agent_id@),
            old(self)@.has_agent(agent_id@) ==> (r matches Err(e) && e is AlreadyExists && final(self)@ == old(self)@),
            r is Ok ==> {
                &&& final(self)@.agents == old(self)@.agents.push(
                    AgentView {
                        id: agent_id@,
                        persona: "default"@,
                        status: StatusView::Starting,
                        branch_name: spec_branch_name(agent_id@),
                    },
                )
                &&& final(self)@.handles == old(self)@.handles
                &&& final(self)@.total_tasks == old(self)@.total_tasks
            },
    {
        if let Some(_) = self.find_agent(agent_id.as_str()) {
            let msg = String::from_str("Agent with ID '").concat(agent_id.as_str()).concat(
                "' already exists.",
            );
            return Err(SupervisionError::AlreadyExists(msg));
        }
        let branch = branch_name_for(agent_id.as_str());
        let agent = Agent {
            id: agent_id,
            persona: String::from_str("default"),
            status: AgentStatus::Starting,
            branch_name: branch,
        };
        let ghost pre = self@;
        self.agents.push(agent);
        proof {
            assert(self@.agents =~= pre.agents.push(self.agents@.last()@));
            assert(self@.handles =~= pre.handles);
            lemma_push_wf(pre, self@);
        }
        Ok(())
    }

    /// Removes the agent named `id` and releases its handle if one is still
    /// live. Fails with `NotFound` when `id` is unknown; nothing changes
    /// then. This is the one operation that forgets an agent's history.
    pub fn unregister_agent(&mut self, id: &str) -> (r: Result<(), SupervisionError>)
        requires
            old(self)@.wf(),
        ensures
            final(self)@.wf(),
            r is Ok <==> old(self)@.has_agent(id@),
            !old(self)@.has_agent(id@) ==> (r matches Err(e) && e is NotFound && final(self)@
                == old(self)@),
            r is Ok ==> exists|k: int|
                0 <= k < old(self)@.agents.len() && old(self)@.agents[k].id == id@ && final(self)@.agents == old(self)@.agents.remove(k),
            r is Ok ==> !final(self)@.has_handle(id@) && forall|h: Seq<char>|
                h != id@ ==> (final(self)@.has_handle(h) <==> old(self)@.has_handle(h)),
            final(self)@.total_tasks == old(self)@.total_tasks,
    {
        let at = match self.find_agent(id) {
            Some(k) => k,
            None => {
                let msg = String::from_str("Agent '").concat(id).concat("' not found.");
                return Err(SupervisionError::NotFound(msg));
            },
        };
        let ghost pre = self@;
        let _removed = self.agents.remove(at);
        match self.find_handle(id) {
            Some(ht) => {
                let ghost mid_handles = self@.handles;
                self.handles.remove(ht);
                proof {
                    assert(self@.handles =~= pre.handles.remove(ht as int));
                    lemma_removed_handle_gone(pre.handles, self@.handles, ht as int, id@);
                    assert forall|h: Seq<char>| h != id@ implies (self@.has_handle(h)
                        <==> pre.has_handle(h)) by {
                        lemma_handle_membership(pre.handles, self@.handles, ht as int, h);
                    }
                }
            },
            None => {
                proof {
                    assert(self@.handles =~= pre.handles);
                }
            },
        }
        proof {
            assert(self@.agents =~= pre.agents.remove(at as int));
            lemma_unregister_wf(pre, self@, at as int, id@);
        }
        Ok(())
    }

    /// Stops every agent and releases every handle; the graceful shutdown
    /// the orchestrator runs before removing a supervisor. Always succeeds.
    pub fn shutdown(&mut self) -> (r: Result<(), SupervisionError>)
        requires
            old(self)@.wf(),
        ensures
            final(self)@.wf(),
            r is Ok,
            final(self)@.agents.len() == old(self)@.agents.len(),
            forall|k: int|
                0 <= k < old(self)@.agents.len() ==> final(self)@.agents[k] == (AgentView {
                    status: StatusView::Stopped,
                    ..old(self)@.agents[k]
                }),
            final(self)@.handles.len() == 0,
            final(self)@.total_tasks == old(self)@.total_tasks,
    {
        let ghost pre = self@;
        self.handles.clear();
        let mut k: usize = 0;
        while k < self.agents.len()
            invariant
                k <= self.agents.len(),
                self@.agents.len() == pre.agents.len(),
                self@.handles.len() == 0,
                self@.total_tasks == pre.total_tasks,
                forall|j: int|
                    0 <= j < k ==> self@.agents[j] == (AgentView {
                        status: StatusView::Stopped,
                        ..pre.agents[j]
                    }),
                forall|j: int| k <= j < pre.agents.len() ==> self@.agents[j] == pre.agents[j],
            decreases self.agents.len() - k,
        {
            let ghost mid = self@;
            let mut agent = self.agents.remove(k);
            agent.status = AgentStatus::Stopped;
            self.agents.insert(k, agent);
            proof {
                assert(self@.agents =~= mid.agents.update(
                    k as int,
                    AgentView { status: StatusView::Stopped, ..mid.agents[k as int] },
                ));
            }
            k += 1;
        }
        proof {
            assert(self@.handles =~= Seq::<Seq<char>>::empty());
        }
        Ok(())
    }

    /// How many agents this supervisor holds.
    pub fn agent_count(&self) -> (r: usize)
        ensures
            r == self@.agents.len(),
    {
        self.agents.len()
    }

    /// How many agents report `Busy`.
    pub fn busy_count(&self) -> (r: usize)
        ensures
            r == count_busy(self@.agents),
    {
        let mut r: usize = 0;
        let mut k: usize = 0;
        while k < self.agents.len()
            invariant
                k <= self.agents.len(),
                r <= k,
                r == count_busy(self@.agents.subrange(0, k as int)),
            decreases self.agents.len() - k,
        {
            proof {
                assert(self@.agents.subrange(0, k as int + 1).drop_last() =~= self@.agents.subrange(
                    0,
                    k as int,
                ));
                assert(self@.agents.subrange(0, k as int + 1).last() == self@.agents[k as int]);
            }
            if let AgentStatus::Busy = &self.agents[k].status {
                r += 1;
            }
            k += 1;
        }
        proof {
            assert(self@.agents.subrange(0, self@.agents.len() as int) =~= self@.agents);
        }
        r
    }

    /// The health snapshot: totals, the actively executing count, the failed
    /// count, and an overall verdict that holds exactly when nothing failed.
    pub fn health_check(&self) -> (r: HealthStatus)
        ensures
            r.total_agents == self@.agents.len(),
            r.running_agents == count_active(self@.agents),
            r.failed_agents == count_failed(self@.agents),
            r.is_healthy <==> count_failed(self@.agents) == 0,
    {
        let mut running: usize = 0;
        let mut failed: usize = 0;
        let mut k: usize = 0;
        while k < self.agents.len()
            invariant
                k <= self.agents.len(),
                running <= k,
                failed <= k,
                running == count_active(self@.agents.subrange(0, k as int)),
                failed == count_failed(self@.agents.subrange(0, k as int)),
            decreases self.agents.len() - k,
        {
            proof {
                assert(self@.agents.subrange(0, k as int + 1).drop_last() =~= self@.agents.subrange(
                    0,
                    k as int,
                ));
                assert(self@.agents.subrange(0, k as int + 1).last() == self@.agents[k as int]);
            }
            if self.agents[k].status.is_active() {
                running += 1;
            }
            if let AgentStatus::Failed(_) = &self.agents[k].status {
                failed += 1;
            }
            k += 1;
        }
        proof {
            assert(self@.agents.subrange(0, self@.agents.len() as int) =~= self@.agents);
        }
        HealthStatus {
            is_healthy: failed == 0,
            total_agents: self.agents.len(),
            running_agents: running,
            failed_agents: failed,
        }
    }

    /// Records that one unit of agent work finished; feeds the swarm metrics.
    pub fn record_task_completion(&mut self)
        ensures
            final(self)@.agents == old(self)@.agents,
            final(self)@.handles == old(self)@.handles,
            final(self)@.total_tasks == vstd::math::min(
                old(self)@.total_tasks + 1,
                usize::MAX as int,
            ),
    {
        self.total_tasks = crate::text::sat_add_usize(self.total_tasks, 1);
    }

    /// The cumulative work counters.
    pub fn get_stats(&self) -> (r: SupervisorStats)
        ensures
            r.total_tasks == self@.total_tasks,
    {
        SupervisorStats { total_tasks: self.total_tasks }
    }

    /// Transitions every `Failed` agent to `Starting`, the best-effort
    /// restart signal recovery sends; relaunching the background unit is the
    /// caller's responsibility, triggered by this transition.
    pub fn recover_failed_agents(&mut self)
        requires
            old(self)@.wf(),
        ensures
            final(self)@.wf(),
            final(self)@.agents.len() == old(self)@.agents.len(),
            forall|j: int|
                0 <= j < old(self)@.agents.len() ==> final(self)@.agents[j] == (
                if old(self)@.agents[j].status is Failed {
                    AgentView { status: StatusView::Starting, ..old(self)@.agents[j] }
                } else {
                    old(self)@.agents[j]
                }),
            final(self)@.handles == old(self)@.handles,
            final(self)@.total_tasks == old(self)@.total_tasks,
    {
        let ghost pre = self@;
        let mut k: usize = 0;
        while k < self.agents.len()
            invariant
                pre.wf(),
                k <= self.agents.len(),
                self@.agents.len() == pre.agents.len(),
                self@.handles == pre.handles,
                self@.total_tasks == pre.total_tasks,
                forall|j: int|
                    0 <= j < k ==> self@.agents[j] == (if pre.agents[j].status is Failed {
                        AgentView { status: StatusView::Starting, ..pre.agents[j] }
                    } else {
                        pre.agents[j]
                    }),
                forall|j: int| k <= j < pre.agents.len() ==> self@.agents[j] == pre.agents[j],
            decreases self.agents.len() - k,
        {
            let ghost mid = self@;
            let failed = match &self.agents[k].status {
                AgentStatus::Failed(_) => true,
                _ => false,
            };
            if failed {
                let mut agent = self.agents.remove(k);
                agent.status = AgentStatus::Starting;
                self.agents.insert(k, agent);
                proof {
                    assert(self@.agents =~= mid.agents.update(
                        k as int,
                        AgentView { status: StatusView::Starting, ..mid.agents[k as int] },
                    ));
                    assert(self@.handles =~= mid.handles);
                }
            }
            k += 1;
        }
        proof {
            lemma_wf_same_ids(pre, self@);
        }
    }

    /// Removes up to `excess` idle agents, scanning in registration order,
    /// and releases their handles. Never touches a non-idle agent.
    pub fn remove_idle_excess(&mut self, excess: usize)
        requires
            old(self)@.wf(),
        ensures
            final(self)@.wf(),
            final(self)@.agents == spec_scale_down(old(self)@.agents, excess as int),
            forall|h: Seq<char>| final(self)@.has_handle(h) ==> old(self)@.has_handle(h),
            forall|h: Seq<char>|
                old(self)@.has_handle(h) && final(self)@.has_agent(h) ==> final(self)@.has_handle(
                    h,
                ),
            final(self)@.total_tasks == old(self)@.total_tasks,
    {
        let ghost pre = self@;
        proof {
            assert(pre.agents.subrange(0, 0) =~= Seq::<AgentView>::empty());
            assert(pre.agents.subrange(0, pre.agents.len() as int) =~= pre.agents);
            assert(Seq::<AgentView>::empty() + spec_scale_down(pre.agents, excess as int)
                =~= spec_scale_down(pre.agents, excess as int));
        }
        let mut i: usize = 0;
        let mut removed: usize = 0;
        while i < self.agents.len()
            invariant
                self@.wf(),
                i <= self@.agents.len(),
                removed <= excess,
                spec_scale_down(pre.agents, excess as int) == self@.agents.subrange(0, i as int)
                    + spec_scale_down(
                    self@.agents.subrange(i as int, self@.agents.len() as int),
                    excess as int - removed,
                ),
                forall|h: Seq<char>| self@.has_handle(h) ==> pre.has_handle(h),
                forall|h: Seq<char>|
                    pre.has_handle(h) && self@.has_agent(h) ==> self@.has_handle(h),
                self@.total_tasks == pre.total_tasks,
            decreases self@.agents.len() - i,
        {
            let ghost mid = self@;
            let ghost rest = mid.agents.subrange(i as int, mid.agents.len() as int);
            let ghost er = excess as int - removed;
            let is_idle = match &self.agents[i].status {
                AgentStatus::Idle => true,
                _ => false,
            };
            if is_idle && removed < excess {
                let agent = self.agents.remove(i);
                proof {
                    assert(self@.agents =~= mid.agents.remove(i as int));
                }
                match self.find_handle(agent.id.as_str()) {
                    Some(ht) => {
                        let ghost hpre = self@.handles;
                        proof {
                            assert(hpre == mid.handles);
                        }
                        self.handles.remove(ht);
                        proof {
                            assert(self@.handles =~= hpre.remove(ht as int));
                            lemma_remove_unique(hpre, self@.handles, ht as int);
                            lemma_removed_handle_gone(hpre, self@.handles, ht as int, agent.id@);
                            assert forall|h: Seq<char>| h != agent.id@ implies (
                            self@.handles.contains(h) <==> hpre.contains(h)) by {
                                lemma_handle_membership(hpre, self@.handles, ht as int, h);
                            }
                        }
                    },
                    None => {
                        proof {
                            assert(self@.handles =~= mid.handles);
                        }
                    },
                }
                removed += 1;
                proof {
                    // the removed agent was the head of the unprocessed rest
                    assert(rest[0] == mid.agents[i as int]);
                    assert(rest[0].status is Idle);
                    assert(spec_scale_down(rest, er) == spec_scale_down(rest.skip(1), er - 1));
                    assert(rest.skip(1) =~= self@.agents.subrange(
                        i as int,
                        self@.agents.len() as int,
                    ));
                    assert(self@.agents.subrange(0, i as int) =~= mid.agents.subrange(0, i as int));
                    // the remaining handles are unique, shrank, and avoid the removed id
                    assert(!self@.handles.contains(agent.id@));
                    lemma_unregister_keeps_wf_weak(mid, self@, i as int, agent.id@);
                }
            } else {
                i += 1;
                proof {
                    assert(rest[0] == mid.agents[i as int - 1]);
                    if er <= 0 {
                        assert(spec_scale_down(rest, er) == rest);
                        assert(rest =~= seq![rest[0]] + rest.skip(1));
                        assert(spec_scale_down(rest.skip(1), er) == rest.skip(1));
                    }
                    assert(spec_scale_down(rest, er) == seq![rest[0]] + spec_scale_down(
                        rest.skip(1),
                        er,
                    ));
                    assert(rest.skip(1) =~= self@.agents.subrange(
                        i as int,
                        self@.agents.len() as int,
                    ));
                    assert(mid.agents.subrange(0, i as int - 1) + spec_scale_down(rest, er)
                        =~= self@.agents.subrange(0, i as int) + spec_scale_down(
                        rest.skip(1),
                        er,
                    ));
                }
            }
        }
        proof {
            assert(self@.agents.subrange(i as int, self@.agents.len() as int) =~= Seq::<
                AgentView,
            >::empty());
            assert(spec_scale_down(
                self@.agents.subrange(i as int, self@.agents.len() as int),
                excess as int - removed,
            ) =~= Seq::<AgentView>::empty());
            assert(self@.agents.subrange(0, i as int) + Seq::<AgentView>::empty()
                =~= self@.agents);
        }
    }
}

/// Removing an element of a duplicate-free sequence keeps it duplicate-free.
proof fn lemma_remove_unique(pre: Seq<Seq<char>>, post: Seq<Seq<char>>, ht: int)
    requires
        0 <= ht < pre.len(),
        post == pre.remove(ht),
        forall|i: int, j: int| 0 <= i < j < pre.len() ==> pre[i] != pre[j],
    ensures
        forall|i: int, j: int| 0 <= i < j < post.len() ==> post[i] != post[j],
{
    assert forall|i: int, j: int| 0 <= i < j < post.len() implies post[i] != post[j] by {
        let pi = if i < ht {
            i
        } else {
            i + 1
        };
        let pj = if j < ht {
            j
        } else {
            j + 1
        };
        assert(post[i] == pre[pi]);
        assert(post[j] == pre[pj]);
    }
}

/// Pushing a fresh agent keeps the supervisor well-formed.
proof fn lemma_push_wf(pre: SupervisorView, post: SupervisorView)
    requires
        pre.wf(),
        post.handles == pre.handles,
        post.agents.len() == pre.agents.len() + 1,
        forall|k: int| 0 <= k < pre.agents.len() ==> post.agents[k] == pre.agents[k],
        !pre.has_agent(post.agents.last().id),
        post.total_tasks == pre.total_tasks,
    ensures
        post.wf(),
{
    assert forall|i: int, j: int|
        0 <= i < j < post.agents.len() implies post.agents[i].id != post.agents[j].id by {
        if j == post.agents.len() - 1 {
            if post.agents[i].id == post.agents[j].id {
                assert(pre.agents[i].id == post.agents.last().id);
                assert(pre.has_agent(post.agents.last().id));
            }
        }
    }
    assert forall|i: int| 0 <= i < post.handles.len() implies post.has_agent(
        #[trigger] post.handles[i],
    ) by {
        assert(pre.has_agent(pre.handles[i]));
        let k = choose|k: int| 0 <= k < pre.agents.len() && pre.agents[k].id == pre.handles[i];
        assert(post.agents[k].id == post.handles[i]);
    }
}

/// Removing one agent (and its handle, if the caller removed it) keeps the
/// supervisor well-formed, when the handles that remain avoid the removed id.
proof fn lemma_unregister_keeps_wf_weak(mid: SupervisorView, post: SupervisorView, at: int, id: Seq<char>)
    requires
        mid.wf(),
        0 <= at < mid.agents.len(),
        mid.agents[at].id == id,
        post.agents == mid.agents.remove(at),
        forall|i: int, j: int| 0 <= i < j < post.handles.len() ==> post.handles[i] != post.handles[j],
        forall|h: Seq<char>| post.handles.contains(h) ==> mid.handles.contains(h),
        !post.handles.contains(id),
        post.total_tasks == mid.total_tasks,
    ensures
        post.wf(),
{
    assert forall|i: int, j: int|
        0 <= i < j < post.agents.len() implies post.agents[i].id != post.agents[j].id by {
        let pi = if i < at {
            i
        } else {
            i + 1
        };
        let pj = if j < at {
            j
        } else {
            j + 1
        };
        assert(post.agents[i] == mid.agents[pi]);
        assert(post.agents[j] == mid.agents[pj]);
    }
    assert forall|i: int| 0 <= i < post.handles.len() implies post.has_agent(
        #[trigger] post.handles[i],
    ) by {
        let h = post.handles[i];
        assert(mid.handles.contains(h));
        let hi = choose|hi: int| 0 <= hi < mid.handles.len() && mid.handles[hi] == h;
        assert(mid.has_agent(mid.handles[hi]));
        let k = choose|k: int| 0 <= k < mid.agents.len() && mid.agents[k].id == h;
        assert(h != id);
        assert(k != at);
        if k < at {
            assert(post.agents[k].id == h);
        } else {
            assert(post.agents[k - 1].id == h);
        }
    }
}

/// Like `lemma_unregister_keeps_wf_weak`, packaged for `unregister_agent`.
proof fn lemma_unregister_wf(pre: SupervisorView, post: SupervisorView, at: int, id: Seq<char>)
    requires
        pre.wf(),
        0 <= at < pre.agents.len(),
        pre.agents[at].id == id,
        post.agents == pre.agents.remove(at),
        forall|i: int, j: int| 0 <= i < j < post.handles.len() ==> post.handles[i] != post.handles[j],
        forall|h: Seq<char>| post.handles.contains(h) ==> pre.handles.contains(h),
        !post.handles.contains(id),
        post.total_tasks == pre.total_tasks,
    ensures
        post.wf(),
{
    lemma_unregister_keeps_wf_weak(pre, post, at, id);
}

/// Number of agents in `s` named `id`.
pub open spec fn count_id(s: Seq<AgentView>, id: Seq<char>) -> int
    decreases s.len(),
{
    if s.len() == 0 {
        0
    } else {
        count_id(s.drop_last(), id) + if s.last().id == id {
            1int
        } else {
            0int
        }
    }
}

/// In a well-formed supervisor, a registered id names exactly one agent.
pub proof fn lemma_unique_id_count(v: SupervisorView, id: Seq<char>)
    requires
        v.wf(),
        v.has_agent(id),
    ensures
        count_id(v.agents, id) == 1,
{
    let k = choose|k: int| 0 <= k < v.agents.len() && v.agents[k].id == id;
    lemma_count_id_single(v.agents, id, k);
}

proof fn lemma_count_id_single(s: Seq<AgentView>, id: Seq<char>, k: int)
    requires
        0 <= k < s.len(),
        s[k].id == id,
        forall|i: int, j: int| 0 <= i < j < s.len() ==> s[i].id != s[j].id,
    ensures
        count_id(s, id) == 1,
    decreases s.len(),
{
    if k == s.len() - 1 {
        lemma_count_id_zero(s.drop_last(), id);
        assert(forall|i: int| 0 <= i < s.len() - 1 ==> s.drop_last()[i] == s[i]);
    } else {
        assert(s.last().id != id);
        assert(forall|i: int| 0 <= i < s.len() - 1 ==> s.drop_last()[i] == s[i]);
        lemma_count_id_single(s.drop_last(), id, k);
    }
}

proof fn lemma_count_id_zero(s: Seq<AgentView>, id: Seq<char>)
    requires
        forall|i: int| 0 <= i < s.len() ==> s[i].id != id,
    ensures
        count_id(s, id) == 0,
    decreases s.len(),
{
    if s.len() > 0 {
        assert(forall|i: int| 0 <= i < s.len() - 1 ==> s.drop_last()[i] == s[i]);
        lemma_count_id_zero(s.drop_last(), id);
    }
}

/// Spawning the same id twice cannot duplicate it: after one successful
/// spawn of `id`, the id is registered, so by `spawn`'s contract a second
/// `spawn(id, ..)` is rejected with `AlreadyExists` and changes nothing —
/// and the supervisor holds exactly one agent named `id`.
pub proof fn lemma_spawn_twice(
    pre: SupervisorView,
    mid: SupervisorView,
    id: Seq<char>,
    persona: Seq<char>,
)
    requires
        pre.wf(),
        !pre.has_agent(id),
        mid.agents == pre.agents.push(
            AgentView {
                id: id,
                persona: persona,
                status: StatusView::Running,
                branch_name: spec_branch_name(id),
            },
        ),
    ensures
        mid.has_agent(id),
        count_id(mid.agents, id) == 1,
{
    assert(mid.agents[pre.agents.len() as int].id == id);
    lemma_count_id_zero(pre.agents, id);
    assert(mid.agents.drop_last() =~= pre.agents);
}

/// After `spawn(id, ..)` on an empty supervisor and a successful
/// `stop(id)`, the agent reads `Stopped` and the running count is zero.
pub proof fn lemma_spawn_stop_quiesces(
    pre: SupervisorView,
    mid: SupervisorView,
    post: SupervisorView,
    id: Seq<char>,
    persona: Seq<char>,
)
    requires
        pre.agents.len() == 0,
        mid.agents == pre.agents.push(
            AgentView {
                id: id,
                persona: persona,
                status: StatusView::Running,
                branch_name: spec_branch_name(id),
            },
        ),
        post.agents.len() == mid.agents.len(),
        forall|k: int|
            0 <= k < mid.agents.len() && mid.agents[k].id == id ==> post.agents[k] == (AgentView {
                status: StatusView::Stopped,
                ..mid.agents[k]
            }),
        forall|k: int|
            0 <= k < mid.agents.len() && mid.agents[k].id != id ==> post.agents[k]
                == mid.agents[k],
    ensures
        forall|k: int| 0 <= k < post.agents.len() ==> post.agents[k].status == StatusView::Stopped,
        count_active(post.agents) == 0,
{
    assert(post.agents.len() == 1);
    assert(mid.agents[0].id == id);
    assert(post.agents[0].status == StatusView::Stopped);
    assert(count_active(post.agents.drop_last()) == 0) by {
        assert(post.agents.drop_last() =~= Seq::<AgentView>::empty());
    }
    assert(post.agents.last() == post.agents[0]);
}

/// A supervisor over the default persona catalogue.
pub fn create_supervisor() -> (r: AgentSupervisor<DefaultPersonaValidator>)
    ensures
        r@.agents.len() == 0,
        r@.handles.len() == 0,
        r@.total_tasks == 0,
        r@.wf(),
        forall|n: Seq<char>| #[trigger] r.spec_valid_persona(n) <==> (n == "rusty"@ || n
            == "security-expert"@ || n == "architect"@ || n == "frontend"@),
{
    AgentSupervisor::new(DefaultPersonaValidator)
}

} // verus!
