//! Checkpoints of an agent's workspace: naming, saving, listing and
//! restoring, over a pluggable store.
//!
//! A checkpoint tag is `cp/{agentId}/{uniqueSuffix}`: unique and globally
//! unambiguous, scoped to the agent. The suffix is a fresh UUID, so two
//! checkpoints of the same agent never collide. The store itself (the
//! version-control backend) is an external collaborator reached through the
//! `GitOperations` trait; this module owns the naming scheme and the
//! derivation of an agent id from its branch.

use vstd::prelude::*;

use crate::error::SupervisionError;
use crate::supervisor::spec_branch_name;
use crate::text::{str_starts_with, spec_starts_with};

verus! {

/// The checkpoint store: saves, lists and restores named snapshots keyed by
/// agent identity. Implementations wrap a version-control backend; tests
/// substitute in-memory fakes. The contracts pin the naming scheme every
/// store must follow; the library's tag builders make them easy to meet.
pub trait GitOperations {
    /// Commits the branch's pending work and tags it; returns the tag name:
    /// `cp/{agentId}/{uniqueSuffix}` with a 36-character suffix.
    fn save_checkpoint(&self, repo_path: &str, branch_name: &str, message: &str) -> (r: Result<
        String,
        SupervisionError,
    >)
        ensures
            r matches Ok(t) ==> exists|suffix: Seq<char>|
                t@ == #[trigger] spec_checkpoint_tag(spec_agent_id_of_branch(branch_name@), suffix)
                    && suffix.len() == 36,
    ;

    /// The checkpoint tags recorded for one agent: each starts with
    /// `cp/{agentId}/`.
    fn list_checkpoints(&self, repo_path: &str, agent_id: &str) -> (r: Result<
        Vec<String>,
        SupervisionError,
    >)
        ensures
            r matches Ok(v) ==> forall|i: int|
                0 <= i < v@.len() ==> spec_starts_with(
                    #[trigger] v@[i]@,
                    "cp/"@ + agent_id@ + "/"@,
                ),
    ;

    /// Materializes a new branch for `new_agent_id` from a checkpoint tag;
    /// fails with `CheckpointNotFound` when the tag resolves to nothing.
    fn restore_checkpoint(&self, repo_path: &str, checkpoint_tag: &str, new_agent_id: &str) -> (r:
        Result<String, SupervisionError>)
        ensures
            r matches Ok(b) ==> b@ == spec_branch_name(new_agent_id@),
    ;
}

/// The checkpoint tag for an agent and a unique suffix.
pub open spec fn spec_checkpoint_tag(agent_id: Seq<char>, suffix: Seq<char>) -> Seq<char> {
    "cp/"@ + agent_id + "/"@ + suffix
}

/// Computes `cp/{agent_id}/{suffix}`.
pub fn make_checkpoint_tag(agent_id: &str, suffix: &str) -> (r: String)
    ensures
        r@ == spec_checkpoint_tag(agent_id@, suffix@),
{
    let r = String::from_str("cp/").concat(agent_id).concat("/").concat(suffix);
    proof {
        assert(r@ =~= spec_checkpoint_tag(agent_id@, suffix@));
    }
    r
}

/// The agent id a branch belongs to: the branch name with the `agent/`
/// prefix removed, or the branch name itself where that prefix is missing.
pub open spec fn spec_agent_id_of_branch(branch: Seq<char>) -> Seq<char> {
    if spec_starts_with(branch, "agent/"@) {
        branch.skip("agent/"@.len() as int)
    } else {
        branch
    }
}

/// Derives the agent id from its branch name.
pub fn agent_id_of_branch(branch_name: &str) -> (r: String)
    ensures
        r@ == spec_agent_id_of_branch(branch_name@),
{
    if str_starts_with(branch_name, "agent/") {
        let plen = "agent/".unicode_len();
        let n = branch_name.unicode_len();
        let r = String::from_str(branch_name.substring_char(plen, n));
        proof {
            assert(r@ =~= branch_name@.skip("agent/"@.len() as int));
        }
        r
    } else {
        String::from_str(branch_name)
    }
}

/// Deriving the id from a derived branch gives the id back: the branch
/// naming scheme and the tag naming scheme are inverse on agent ids.
pub proof fn lemma_branch_id_round_trip(id: Seq<char>)
    ensures
        spec_agent_id_of_branch(spec_branch_name(id)) == id,
{
    let b = spec_branch_name(id);
    assert(b.subrange(0, "agent/"@.len() as int) =~= "agent/"@);
    assert(b.skip("agent/"@.len() as int) =~= id);
}

#[verifier::external_type_specification]
#[verifier::external_body]
pub struct ExUuid(uuid::Uuid);

/// Relies on uuid's Uuid::new_v4 for a fresh version-4 identifier drawn
/// from the system's randomness; nothing can be promised of its value.
#[verifier::external_body]
fn fresh_uuid() -> uuid::Uuid {
    uuid::Uuid::new_v4()
}

/// Relies on uuid's Display implementation: the hyphenated form, 36 ASCII
/// characters with `-` exactly at offsets 8, 13, 18 and 23 and a lowercase
/// hexadecimal digit everywhere else.
#[verifier::external_body]
fn uuid_string(u: &uuid::Uuid) -> (r: String)
    ensures
        r@.len() == 36,
        forall|i: int|
            0 <= i < 36 ==> (r@[i] == '-' <==> (i == 8 || i == 13 || i == 18 || i == 23)),
{
    format!("{}", u)
}

/// A fresh, collision-resistant checkpoint suffix: a hyphenated UUID.
pub fn fresh_checkpoint_suffix() -> (r: String)
    ensures
        r@.len() == 36,
        forall|i: int|
            0 <= i < 36 ==> (r@[i] == '-' <==> (i == 8 || i == 13 || i == 18 || i == 23)),
{
    let u = fresh_uuid();
    uuid_string(&u)
}

/// A fresh checkpoint tag for the agent working on `branch_name`: always
/// `cp/{agentId}/{suffix}` with a 36-character UUID suffix.
pub fn fresh_checkpoint_tag(branch_name: &str) -> (r: String)
    ensures
        exists|suffix: Seq<char>|
            r@ == #[trigger] spec_checkpoint_tag(spec_agent_id_of_branch(branch_name@), suffix)
                && suffix.len() == 36 && (forall|i: int|
                0 <= i < 36 ==> (suffix[i] == '-' <==> (i == 8 || i == 13 || i == 18 || i
                    == 23))),
{
    let id = agent_id_of_branch(branch_name);
    let suffix = fresh_checkpoint_suffix();
    let r = make_checkpoint_tag(id.as_str(), suffix.as_str());
    proof {
        assert(r@ == spec_checkpoint_tag(spec_agent_id_of_branch(branch_name@), suffix@)
            && suffix@.len() == 36);
    }
    r
}

/// Git checkpoint manager: binds a store to one repository path.
pub struct GitCheckpointManager<G: GitOperations> {
    git_ops: G,
    repo_path: String,
}

impl<G: GitOperations> GitCheckpointManager<G> {
    /// A manager over `git_ops`, working in the repository at `repo_path`.
    pub fn new(git_ops: G, repo_path: String) -> (r: GitCheckpointManager<G>)
        ensures
            r.repo() == repo_path@,
    {
        GitCheckpointManager { git_ops, repo_path }
    }

    /// The repository this manager works in.
    pub closed spec fn repo(&self) -> Seq<char> {
        self.repo_path@
    }

    /// Saves a checkpoint for a given agent's branch: commits all current
    /// changes and tags them in this manager's repository. A returned tag is
    /// always `cp/{agentId}/{suffix}` with a 36-character suffix.
    pub fn save_checkpoint(&self, branch_name: &str, message: &str) -> (r: Result<
        String,
        SupervisionError,
    >)
        ensures
            r matches Ok(t) ==> exists|suffix: Seq<char>|
                t@ == #[trigger] spec_checkpoint_tag(spec_agent_id_of_branch(branch_name@), suffix)
                    && suffix.len() == 36,
    {
        self.git_ops.save_checkpoint(self.repo_path.as_str(), branch_name, message)
    }

    /// Lists all checkpoints recorded for a specific agent; each carries the
    /// agent's own `cp/{agentId}/` prefix.
    pub fn list_checkpoints(&self, agent_id: &str) -> (r: Result<Vec<String>, SupervisionError>)
        ensures
            r matches Ok(v) ==> forall|i: int|
                0 <= i < v@.len() ==> spec_starts_with(
                    #[trigger] v@[i]@,
                    "cp/"@ + agent_id@ + "/"@,
                ),
    {
        self.git_ops.list_checkpoints(self.repo_path.as_str(), agent_id)
    }

    /// Restores a checkpoint by creating a new branch for a fresh agent
    /// identity from it; the new branch is `agent/{new_agent_id}`.
    pub fn restore_checkpoint(&self, checkpoint_tag: &str, new_agent_id: &str) -> (r: Result<
        String,
        SupervisionError,
    >)
        ensures
            r matches Ok(b) ==> b@ == spec_branch_name(new_agent_id@),
    {
        self.git_ops.restore_checkpoint(self.repo_path.as_str(), checkpoint_tag, new_agent_id)
    }
}

} // verus!
