//! The contents of a task file.

use vstd::prelude::*;
use vstd::string::*;

use crate::error::worded;
use crate::strmap::StrMap;
use crate::text::opt_view;
use crate::text::same_text;
use crate::text::views;

verus! {

/// A task file: the objective, the agents that work on it and the tasks they are given.
#[derive(Debug)]
pub struct TaskFile {
    pub version: String,
    pub objective: String,
    pub agents: Vec<AgentSpec>,
    pub tasks: Vec<TaskSpec>,
    pub concurrency: Option<usize>,
}

/// How one kind of sub-agent is run.
#[derive(Debug)]
pub struct AgentSpec {
    pub id: String,
    pub model: Option<String>,
    pub profile: Option<String>,
    pub env: StrMap<String>,
    pub sandbox: Option<String>,
    /// One of `never`, `on-request` and `always`.
    pub ask_for_approval: Option<String>,
}

/// One task and the agent that it is given to.
#[derive(Debug)]
pub struct TaskSpec {
    pub id: String,
    pub title: Option<String>,
    pub agent: String,
    pub instructions: String,
    pub depends_on: Vec<String>,
    pub env: StrMap<String>,
    pub retries: Option<u32>,
    pub timeout_secs: Option<u64>,
    pub cwd: Option<String>,
}

/// The model of an `AgentSpec`.
#[verifier::ext_equal]
pub struct AgentView {
    pub id: Seq<char>,
    pub model: Option<Seq<char>>,
    pub profile: Option<Seq<char>>,
    pub env: Map<Seq<char>, Seq<char>>,
    pub sandbox: Option<Seq<char>>,
    pub ask_for_approval: Option<Seq<char>>,
}

/// The model of a `TaskSpec`.
#[verifier::ext_equal]
pub struct TaskView {
    pub id: Seq<char>,
    pub title: Option<Seq<char>>,
    pub agent: Seq<char>,
    pub instructions: Seq<char>,
    pub depends_on: Seq<Seq<char>>,
    pub env: Map<Seq<char>, Seq<char>>,
    pub retries: Option<u32>,
    pub timeout_secs: Option<u64>,
    pub cwd: Option<Seq<char>>,
}

/// The model of environment variables.
pub open spec fn env_view(env: Map<Seq<char>, String>) -> Map<Seq<char>, Seq<char>> {
    env.map_values(|v: String| v@)
}

impl View for AgentSpec {
    type V = AgentView;

    open spec fn view(&self) -> AgentView {
        AgentView {
            id: self.id@,
            model: opt_view(self.model),
            profile: opt_view(self.profile),
            env: env_view(self.env@),
            sandbox: opt_view(self.sandbox),
            ask_for_approval: opt_view(self.ask_for_approval),
        }
    }
}

impl View for TaskSpec {
    type V = TaskView;

    open spec fn view(&self) -> TaskView {
        TaskView {
            id: self.id@,
            title: opt_view(self.title),
            agent: self.agent@,
            instructions: self.instructions@,
            depends_on: views(self.depends_on@),
            env: env_view(self.env@),
            retries: self.retries,
            timeout_secs: self.timeout_secs,
            cwd: opt_view(self.cwd),
        }
    }
}

/// A copy of optional text.
pub(crate) fn copy_opt(o: &Option<String>) -> (r: Option<String>)
    ensures
        opt_view(r) == opt_view(*o),
{
    match o {
        Some(s) => Some(s.clone()),
        None => None,
    }
}

/// A copy of a list of texts.
pub(crate) fn copy_texts(v: &Vec<String>) -> (r: Vec<String>)
    ensures
        views(r@) == views(v@),
{
    let mut r: Vec<String> = Vec::new();
    let mut i: usize = 0;
    while i < v.len()
        invariant
            i <= v@.len(),
            r@.len() == i,
            forall|j: int| 0 <= j < i ==> (#[trigger] r@[j])@ == v@[j]@,
        decreases v@.len() - i,
    {
        r.push(v[i].clone());
        i += 1;
    }
    assert(views(r@) =~= views(v@));
    r
}

/// A copy of environment variables.
pub(crate) fn copy_env(env: &StrMap<String>) -> (r: StrMap<String>)
    ensures
        env_view(r@) == env_view(env@),
{
    let r = env.clone();
    assert(env_view(r@) =~= env_view(env@));
    r
}

impl Clone for AgentSpec {
    fn clone(&self) -> (r: Self)
        ensures
            r@ == self@,
    {
        AgentSpec {
            id: self.id.clone(),
            model: copy_opt(&self.model),
            profile: copy_opt(&self.profile),
            env: copy_env(&self.env),
            sandbox: copy_opt(&self.sandbox),
            ask_for_approval: copy_opt(&self.ask_for_approval),
        }
    }
}

impl Clone for TaskSpec {
    fn clone(&self) -> (r: Self)
        ensures
            r@ == self@,
    {
        TaskSpec {
            id: self.id.clone(),
            title: copy_opt(&self.title),
            agent: self.agent.clone(),
            instructions: self.instructions.clone(),
            depends_on: copy_texts(&self.depends_on),
            env: copy_env(&self.env),
            retries: self.retries,
            timeout_secs: self.timeout_secs,
            cwd: copy_opt(&self.cwd),
        }
    }
}

/// A copy of a list of tasks.
pub(crate) fn copy_tasks(v: &Vec<TaskSpec>) -> (r: Vec<TaskSpec>)
    ensures
        views(r@) == views(v@),
{
    let mut r: Vec<TaskSpec> = Vec::new();
    let mut i: usize = 0;
    while i < v.len()
        invariant
            i <= v@.len(),
            r@.len() == i,
            forall|j: int| 0 <= j < i ==> (#[trigger] r@[j])@ == v@[j]@,
        decreases v@.len() - i,
    {
        r.push(v[i].clone());
        i += 1;
    }
    assert(views(r@) =~= views(v@));
    r
}

/// A copy of a list of agents.
pub(crate) fn copy_agents(v: &Vec<AgentSpec>) -> (r: Vec<AgentSpec>)
    ensures
        views(r@) == views(v@),
{
    let mut r: Vec<AgentSpec> = Vec::new();
    let mut i: usize = 0;
    while i < v.len()
        invariant
            i <= v@.len(),
            r@.len() == i,
            forall|j: int| 0 <= j < i ==> (#[trigger] r@[j])@ == v@[j]@,
        decreases v@.len() - i,
    {
        r.push(v[i].clone());
        i += 1;
    }
    assert(views(r@) =~= views(v@));
    r
}

impl Clone for TaskFile {
    fn clone(&self) -> (r: Self)
        ensures
            r.version@ == self.version@,
            r.objective@ == self.objective@,
            views(r.agents@) == views(self.agents@),
            views(r.tasks@) == views(self.tasks@),
            r.concurrency == self.concurrency,
    {
        TaskFile {
            version: self.version.clone(),
            objective: self.objective.clone(),
            agents: copy_agents(&self.agents),
            tasks: copy_tasks(&self.tasks),
            concurrency: self.concurrency,
        }
    }
}

/// The ids of the tasks, in order.
pub open spec fn task_ids(tasks: Seq<TaskSpec>) -> Seq<Seq<char>> {
    Seq::new(tasks.len(), |i: int| tasks[i].id@)
}

/// Whether the id at position `i` occurs before that position already.
pub open spec fn repeats_at(ids: Seq<Seq<char>>, i: int) -> bool {
    &&& 0 <= i < ids.len()
    &&& exists|j: int| 0 <= j < i && ids[j] == ids[i]
}

/// Whether `i` is the first position whose id occurred before.
pub open spec fn first_repeat(ids: Seq<Seq<char>>, i: int) -> bool {
    &&& repeats_at(ids, i)
    &&& forall|k: int| 0 <= k < i ==> !repeats_at(ids, k)
}

/// Whether no id occurs twice.
pub open spec fn all_distinct(ids: Seq<Seq<char>>) -> bool {
    forall|k: int| !repeats_at(ids, k)
}

/// Tells whether the id of task `i` occurs among the tasks before it.
pub(crate) fn repeats(tasks: &Vec<TaskSpec>, i: usize) -> (r: bool)
    requires
        i < tasks@.len(),
    ensures
        r == repeats_at(task_ids(tasks@), i as int),
{
    let ghost ids = task_ids(tasks@);
    let mut j: usize = 0;
    while j < i
        invariant
            j <= i < tasks@.len(),
            ids == task_ids(tasks@),
            forall|k: int| 0 <= k < j ==> ids[k] != ids[i as int],
        decreases i - j,
    {
        if tasks[j].id == tasks[i].id {
            assert(ids[j as int] == ids[i as int]);
            return true;
        }
        j += 1;
    }
    false
}

impl TaskFile {
    /// Whether `validate` accepts the file.
    pub open spec fn valid(&self) -> bool {
        self.version@ == "1"@ && all_distinct(task_ids(self.tasks@))
    }

    /// Checks the version and that no two tasks have the same id.
    pub fn validate(&self) -> (r: Result<(), String>)
        ensures
            r is Ok <==> self.valid(),
            r matches Err(e) ==> {
                if self.version@ != "1"@ {
                    e@ == "unsupported version: "@ + self.version@
                } else {
                    exists|i: int| #[trigger]
                        first_repeat(task_ids(self.tasks@), i) && e@ == "duplicate task id: "@
                            + self.tasks@[i].id@
                }
            },
    {
        if !same_text(self.version.as_str(), "1") {
            return Err(worded("unsupported version: ", self.version.as_str()));
        }
        let ghost ids = task_ids(self.tasks@);
        let mut i: usize = 0;
        while i < self.tasks.len()
            invariant
                i <= self.tasks@.len(),
                self.version@ == "1"@,
                ids == task_ids(self.tasks@),
                forall|k: int| 0 <= k < i ==> !repeats_at(ids, k),
            decreases self.tasks@.len() - i,
        {
            if repeats(&self.tasks, i) {
                assert(first_repeat(ids, i as int));
                return Err(worded("duplicate task id: ", self.tasks[i].id.as_str()));
            }
            i += 1;
        }
        Ok(())
    }

    /// The first agent with the given id.
    pub fn agent_by_id(&self, id: &str) -> (r: Option<&AgentSpec>)
        ensures
            match r {
                Some(a) => exists|i: int|
                    {
                        &&& 0 <= i < self.agents@.len()
                        &&& *a == #[trigger] self.agents@[i]
                        &&& a.id@ == id@
                        &&& forall|j: int| 0 <= j < i ==> (#[trigger] self.agents@[j]).id@ != id@
                    },
                None => forall|j: int|
                    0 <= j < self.agents@.len() ==> (#[trigger] self.agents@[j]).id@ != id@,
            },
    {
        let mut i: usize = 0;
        while i < self.agents.len()
            invariant
                i <= self.agents@.len(),
                forall|j: int| 0 <= j < i ==> (#[trigger] self.agents@[j]).id@ != id@,
            decreases self.agents@.len() - i,
        {
            if same_text(self.agents[i].id.as_str(), id) {
                return Some(&self.agents[i]);
            }
            i += 1;
        }
        None
    }
}

/// No two ids are the same exactly where none occurs before already.
pub proof fn lemma_distinct_ids(tasks: Seq<TaskSpec>)
    ensures
        all_distinct(task_ids(tasks)) <==> forall|i: int, j: int|
            0 <= i < j < tasks.len() ==> (#[trigger] tasks[i]).id@ != (#[trigger] tasks[j]).id@,
{
    let ids = task_ids(tasks);
    if all_distinct(ids) {
        assert forall|i: int, j: int| 0 <= i < j < tasks.len() implies (#[trigger] tasks[i]).id@ != (
        #[trigger] tasks[j]).id@ by {
            assert(!repeats_at(ids, j));
            assert(ids[i] != ids[j]);
        }
    }
    if forall|i: int, j: int|
        0 <= i < j < tasks.len() ==> (#[trigger] tasks[i]).id@ != (#[trigger] tasks[j]).id@ {
        assert forall|k: int| !repeats_at(ids, k) by {
            if repeats_at(ids, k) {
                let j = choose|j: int| 0 <= j < k && ids[j] == ids[k];
                assert(tasks[j].id@ != tasks[k].id@);
            }
        }
    }
}

/// Law: a task file is accepted if it has version 1 and no two tasks with one id. The complaint about
/// another version names it, and else one names an id that two tasks have.
pub proof fn law_validate(tf: &TaskFile, r: Result<(), String>)
    requires
        call_ensures(TaskFile::validate, (tf,), r),
    ensures
        r is Ok <==> tf.version@ == seq!['1'] && forall|i: int, j: int|
            0 <= i < j < tf.tasks@.len() ==> (#[trigger] tf.tasks@[i]).id@ != (
            #[trigger] tf.tasks@[j]).id@,
        r matches Err(e) ==> {
            &&& tf.version@ != seq!['1'] ==> e@ == "unsupported version: "@ + tf.version@
            &&& tf.version@ == seq!['1'] ==> exists|i: int, j: int|
                0 <= i < j < tf.tasks@.len() && (#[trigger] tf.tasks@[i]).id@ == (
                #[trigger] tf.tasks@[j]).id@ && e@ == "duplicate task id: "@ + tf.tasks@[i].id@
        },
{
    reveal_strlit("1");
    assert("1"@ =~= seq!['1']);
    lemma_distinct_ids(tf.tasks@);
    match r {
        Err(e) => {
            if tf.version@ == "1"@ {
                let ids = task_ids(tf.tasks@);
                let j = choose|j: int| #[trigger]
                    first_repeat(ids, j) && e@ == "duplicate task id: "@ + tf.tasks@[j].id@;
                let i = choose|i: int| 0 <= i < j && ids[i] == ids[j];
                assert(tf.tasks@[i].id@ == tf.tasks@[j].id@);
            }
        },
        Ok(_) => {},
    }
}

/// Law: an agent is looked up by its id, and the first one that has it is found.
pub proof fn law_agent_by_id(tf: &TaskFile, id: &str, r: Option<&AgentSpec>, i: int)
    requires
        call_ensures(TaskFile::agent_by_id, (tf, id), r),
        0 <= i < tf.agents@.len(),
        tf.agents@[i].id@ == id@,
    ensures
        r is Some,
        r->0.id@ == id@,
        (forall|j: int| 0 <= j < i ==> (#[trigger] tf.agents@[j]).id@ != id@) ==> *r->0
            == tf.agents@[i],
{
    assert(tf.agents@[i].id@ == id@);
}

} // verus!
