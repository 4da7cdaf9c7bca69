//! Running a task file: its plan, its waves, and what they come to.

use vstd::prelude::*;
use vstd::string::*;

use crate::dag::is_levels;
use crate::dag::level_views;
use crate::dag::Dag;
use crate::error::worded;
use crate::error::TaskError;
use crate::graph::graph_arcs;
use crate::graph::graph_labels;
use crate::paths::join_path;
use crate::paths::path_join;
use crate::schema::AgentSpec;
use crate::schema::TaskFile;
use crate::schema::TaskSpec;
use crate::strmap::StrMap;
use crate::text::contains_text;
use crate::text::debug_list;
use crate::text::debug_texts;
use crate::text::decimal;
use crate::text::occurs_at;
use crate::text::pad_right;
use crate::text::padded;
use crate::text::push_decimal;
use crate::text::starts_with;
use crate::text::views;

pub use crate::options::RunEnv;
pub use crate::options::RunnerOptions;

verus! {

/// A run of a task file.
pub struct Runner<'a> {
    pub tf: &'a TaskFile,
    pub dag: Dag,
    pub opts: RunnerOptions,
    pub agents: StrMap<AgentSpec>,
}

/// Whether agent `i` is the last one with its id.
pub open spec fn last_with_id(agents: Seq<AgentSpec>, i: int) -> bool {
    &&& 0 <= i < agents.len()
    &&& forall|j: int| i < j < agents.len() ==> (#[trigger] agents[j]).id@ != agents[i].id@
}

/// Whether the map takes each agent id to the last agent with that id.
pub open spec fn maps_agents(map: Map<Seq<char>, AgentSpec>, agents: Seq<AgentSpec>) -> bool {
    &&& forall|id: Seq<char>| #[trigger]
        map.dom().contains(id) <==> exists|i: int|
            0 <= i < agents.len() && (#[trigger] agents[i]).id@ == id
    &&& forall|i: int| #[trigger]
        last_with_id(agents, i) ==> map[agents[i].id@]@ == agents[i]@
}

/// The heading of a plan.
pub open spec fn plan_head(run_id: Seq<char>, objective: Seq<char>, concurrency: nat) -> Seq<char> {
    "# Run Plan\n"@ + "run_id: "@ + run_id + "\n"@ + "objective: "@ + objective + "\n"@
        + "concurrency: "@ + decimal(concurrency) + "\n"@ + "\n## DAG levels\n"@
}

/// The lines for the first `n` levels of a plan.
pub open spec fn plan_levels(levels: Seq<Seq<Seq<char>>>, n: int) -> Seq<char>
    decreases n,
{
    if n <= 0 {
        seq![]
    } else {
        plan_levels(levels, n - 1) + "level "@ + decimal((n - 1) as nat) + ": "@ + debug_list(
            levels[n - 1],
        ) + "\n"@
    }
}

/// The lines for the first `n` tasks of a plan.
pub open spec fn plan_tasks(tasks: Seq<TaskSpec>, n: int) -> Seq<char>
    decreases n,
{
    if n <= 0 {
        seq![]
    } else {
        let t = tasks[n - 1];
        plan_tasks(tasks, n - 1) + "- id: "@ + padded(t.id@, 12) + " agent: "@ + padded(
            t.agent@,
            12,
        ) + " depends_on: "@ + debug_list(views(t.depends_on@)) + "\n"@
    }
}

/// A plan in words.
pub open spec fn plan_text(runner: Runner, levels: Seq<Seq<Seq<char>>>) -> Seq<char> {
    plan_head(runner.opts.run_id@, runner.tf.objective@, runner.opts.concurrency as nat)
        + plan_levels(levels, levels.len() as int) + "\n## Tasks\n"@ + plan_tasks(
        runner.tf.tasks@,
        runner.tf.tasks@.len() as int,
    )
}

/// A task of a wave: what is needed to run it.
#[derive(Debug)]
pub struct TaskLaunch {
    pub run_dir: String,
    pub task: TaskSpec,
    pub agent: AgentSpec,
}

/// A wave: the tasks to start, and what keeps the others from starting, if anything does.
#[derive(Debug)]
pub struct WavePlan {
    pub launches: Vec<TaskLaunch>,
    pub failure: Option<TaskError>,
}

/// The position of the first task with an id, if there is one.
pub open spec fn task_at(tasks: Seq<TaskSpec>, id: Seq<char>, i: int) -> bool {
    &&& 0 <= i < tasks.len()
    &&& tasks[i].id@ == id
    &&& forall|j: int| 0 <= j < i ==> (#[trigger] tasks[j]).id@ != id
}

impl<'a> Runner<'a> {
    /// Whether the dependency graph is well-formed and the agents are those of the task file.
    pub open spec fn wf(&self) -> bool {
        &&& self.dag.wf()
        &&& maps_agents(self.agents@, self.tf.agents@)
    }

    /// Makes a runner. Of several agents with an id, the last one counts.
    pub fn new(tf: &'a TaskFile, dag: Dag, opts: RunnerOptions) -> (r: Result<Self, TaskError>)
        requires
            dag.wf(),
        ensures
            r is Ok,
            r->Ok_0.wf(),
            r->Ok_0.tf == tf,
            r->Ok_0.dag == dag,
            r->Ok_0.opts == opts,
    {
        let mut agents: StrMap<AgentSpec> = StrMap::new();
        let mut i: usize = 0;
        while i < tf.agents.len()
            invariant
                i <= tf.agents@.len(),
                maps_agents(agents@, tf.agents@.take(i as int)),
            decreases tf.agents@.len() - i,
        {
            let ghost before = agents@;
            let ghost seen = tf.agents@.take(i as int);
            let a = tf.agents[i].clone();
            agents.insert(tf.agents[i].id.clone(), a);
            proof {
                let more = tf.agents@.take(i + 1);
                let id = tf.agents@[i as int].id@;
                assert(agents@ == before.insert(id, a));
                assert forall|q: Seq<char>| #[trigger] agents@.dom().contains(q) <==> exists|k: int|
                    0 <= k < more.len() && (#[trigger] more[k]).id@ == q by {
                    if before.dom().contains(q) {
                        let k = choose|k: int| 0 <= k < seen.len() && (#[trigger] seen[k]).id@ == q;
                        assert(more[k].id@ == q);
                    }
                    if q == id {
                        assert(more[i as int].id@ == q);
                    }
                    if exists|k: int| 0 <= k < more.len() && (#[trigger] more[k]).id@ == q {
                        let k = choose|k: int| 0 <= k < more.len() && (#[trigger] more[k]).id@ == q;
                        if k < i {
                            assert(seen[k].id@ == q);
                        }
                    }
                }
                assert forall|k: int| #[trigger] last_with_id(more, k) implies agents@[more[k].id@]@
                    == more[k]@ by {
                    if k < i {
                        assert(more[i as int].id@ != more[k].id@);
                        assert(last_with_id(seen, k)) by {
                            assert forall|j: int| k < j < seen.len() implies (#[trigger] seen[j]).id@
                                != seen[k].id@ by {
                                assert(more[j] == seen[j]);
                            }
                        }
                    }
                }
            }
            i += 1;
        }
        proof {
            assert(tf.agents@.take(i as int) =~= tf.agents@);
        }
        Ok(Runner { tf, dag, opts, agents })
    }

    /// The directory of a task in this run.
    pub fn task_run_dir(&self, task_id: &str) -> (r: String)
        ensures
            r@ == join_path(self.opts.base_run_dir@, task_id@),
    {
        path_join(self.opts.base_run_dir.as_str(), task_id)
    }

    /// The plan in words: the waves, and the tasks with their agents and dependencies.
    pub fn render_plan(&self) -> (r: String)
        requires
            self.wf(),
        ensures
            exists|levels: Seq<Seq<Seq<char>>>| #[trigger]
                is_levels(graph_labels(self.dag.graph), graph_arcs(self.dag.graph), levels) && r@
                    == plan_text(*self, levels),
    {
        let mut out = "# Run Plan\n".to_owned();
        out.append("run_id: ");
        out.append(self.opts.run_id.as_str());
        out.append("\n");
        out.append("objective: ");
        out.append(self.tf.objective.as_str());
        out.append("\n");
        out.append("concurrency: ");
        push_decimal(&mut out, self.opts.concurrency as u64);
        out.append("\n");
        out.append("\n## DAG levels\n");
        let ghost head = out@;
        let levels = self.dag.levels();
        let ghost lv = level_views(levels@);
        let mut i: usize = 0;
        proof {
            assert(head + plan_levels(lv, 0) =~= head);
        }
        while i < levels.len()
            invariant
                i <= levels@.len(),
                lv == level_views(levels@),
                out@ == head + plan_levels(lv, i as int),
            decreases levels@.len() - i,
        {
            out.append("level ");
            push_decimal(&mut out, i as u64);
            out.append(": ");
            out.append(debug_texts(&levels[i]).as_str());
            out.append("\n");
            i += 1;
            proof {
                assert(lv[i - 1] == views(levels@[i - 1]@));
                assert(out@ =~= head + plan_levels(lv, i as int));
            }
        }
        out.append("\n## Tasks\n");
        let ghost before = out@;
        let mut k: usize = 0;
        proof {
            assert(before + plan_tasks(self.tf.tasks@, 0) =~= before);
        }
        while k < self.tf.tasks.len()
            invariant
                k <= self.tf.tasks@.len(),
                out@ == before + plan_tasks(self.tf.tasks@, k as int),
            decreases self.tf.tasks@.len() - k,
        {
            let t = &self.tf.tasks[k];
            out.append("- id: ");
            out.append(pad_right(t.id.as_str(), 12).as_str());
            out.append(" agent: ");
            out.append(pad_right(t.agent.as_str(), 12).as_str());
            out.append(" depends_on: ");
            out.append(debug_texts(&t.depends_on).as_str());
            out.append("\n");
            k += 1;
            assert(out@ =~= before + plan_tasks(self.tf.tasks@, k as int));
        }
        proof {
            assert(out@ =~= plan_text(*self, lv));
        }
        out
    }

    /// Whether task `id` can be started: it is a task of the file and its agent is configured.
    pub open spec fn startable(&self, id: Seq<char>) -> bool {
        exists|i: int| #[trigger]
            task_at(self.tf.tasks@, id, i) && self.agents@.dom().contains(
                self.tf.tasks@[i].agent@,
            )
    }

    /// Whether `launch` starts task `id`.
    pub open spec fn launches(&self, id: Seq<char>, launch: TaskLaunch) -> bool {
        &&& launch.run_dir@ == join_path(self.opts.base_run_dir@, id)
        &&& exists|i: int| #[trigger]
            task_at(self.tf.tasks@, id, i) && launch.task@ == self.tf.tasks@[i]@
                && self.agents@.dom().contains(self.tf.tasks@[i].agent@) && launch.agent@
                == self.agents@[self.tf.tasks@[i].agent@]@
    }

    /// Whether `e` tells why task `id` cannot be started.
    pub open spec fn refuses(&self, id: Seq<char>, e: TaskError) -> bool {
        match e {
            TaskError::InvalidTaskFile(m) => {
                &&& forall|i: int| !task_at(self.tf.tasks@, id, i)
                &&& m@ == "missing task: "@ + id
            },
            TaskError::UnknownAgent(agent) => exists|i: int| #[trigger]
                task_at(self.tf.tasks@, id, i) && agent@ == self.tf.tasks@[i].agent@
                    && !self.agents@.dom().contains(agent@),
            _ => false,
        }
    }

    /// Looks up what a task needs to run.
    fn prepare(&self, id: &String) -> (r: Result<TaskLaunch, TaskError>)
        ensures
            match r {
                Ok(launch) => self.launches(id@, launch) && self.startable(id@),
                Err(e) => self.refuses(id@, e) && !self.startable(id@),
            },
    {
        let task = match self.dag.task_by_id(self.tf, id.as_str()) {
            Some(t) => t,
            None => {
                proof {
                    assert forall|i: int| !task_at(self.tf.tasks@, id@, i) by {
                        if task_at(self.tf.tasks@, id@, i) {
                            assert(self.tf.tasks@[i].id@ != id@);
                        }
                    }
                }
                return Err(TaskError::InvalidTaskFile(worded("missing task: ", id.as_str())));
            },
        };
        let ghost at = choose|i: int|
            {
                &&& 0 <= i < self.tf.tasks@.len()
                &&& *task == #[trigger] self.tf.tasks@[i]
                &&& task.id@ == id@
                &&& forall|j: int| 0 <= j < i ==> (#[trigger] self.tf.tasks@[j]).id@ != id@
            };
        proof {
            assert(task_at(self.tf.tasks@, id@, at));
            assert forall|i: int| task_at(self.tf.tasks@, id@, i) implies i == at by {
                if i < at {
                    assert(self.tf.tasks@[i].id@ != id@);
                } else if at < i {
                    assert(self.tf.tasks@[at].id@ != id@);
                }
            }
        }
        let agent = match self.agents.get(task.agent.as_str()) {
            Some(a) => a,
            None => {
                return Err(TaskError::UnknownAgent(task.agent.clone()));
            },
        };
        Ok(
            TaskLaunch {
                run_dir: self.task_run_dir(id.as_str()),
                task: task.clone(),
                agent: agent.clone(),
            },
        )
    }

    /// Whether a wave with these tasks comes to `launches` and `failure`: its tasks are started one
    /// after another, up to the first one that cannot be started.
    pub open spec fn is_plan(
        &self,
        level: Seq<Seq<char>>,
        launches: Seq<TaskLaunch>,
        failure: Option<TaskError>,
    ) -> bool {
        &&& launches.len() <= level.len()
        &&& forall|k: int|
            0 <= k < launches.len() ==> self.launches(level[k], #[trigger] launches[k])
        &&& match failure {
            None => launches.len() == level.len(),
            Some(e) => {
                &&& launches.len() < level.len()
                &&& self.refuses(level[launches.len() as int], e)
            },
        }
        &&& failure is None <==> forall|k: int|
            0 <= k < level.len() ==> self.startable(#[trigger] level[k])
    }

    /// Plans a wave.
    pub fn plan_wave(&self, level: &Vec<String>) -> (r: WavePlan)
        ensures
            self.is_plan(views(level@), r.launches@, r.failure),
    {
        let mut launches: Vec<TaskLaunch> = Vec::new();
        let mut k: usize = 0;
        while k < level.len()
            invariant
                k <= level@.len(),
                launches@.len() == k,
                forall|j: int|
                    0 <= j < k ==> self.launches(level@[j]@, #[trigger] launches@[j]),
                forall|j: int| 0 <= j < k ==> self.startable((#[trigger] level@[j])@),
            decreases level@.len() - k,
        {
            match self.prepare(&level[k]) {
                Ok(launch) => {
                    launches.push(launch);
                },
                Err(e) => {
                    assert(!self.startable(views(level@)[k as int]));
                    return WavePlan { launches, failure: Some(e) };
                },
            }
            k += 1;
        }
        WavePlan { launches, failure: None }
    }
}

/// What is printed before a wave.
pub open spec fn wave_text(level: Seq<Seq<char>>) -> Seq<char> {
    "starting wave with tasks: "@ + debug_list(level)
}

/// What is printed before a wave.
pub fn wave_started(level: &Vec<String>) -> (r: String)
    ensures
        r@ == wave_text(views(level@)),
{
    worded("starting wave with tasks: ", debug_texts(level).as_str())
}

/// What is printed when a task is started.
pub open spec fn launch_text(launch: TaskLaunch) -> Seq<char> {
    "launching task: "@ + launch.task.id@ + " (agent: "@ + launch.agent.id@ + ") in "@
        + launch.run_dir@
}

/// What is printed when a task is started.
pub fn task_started(launch: &TaskLaunch) -> (r: String)
    ensures
        r@ == launch_text(*launch),
{
    let mut r = worded("launching task: ", launch.task.id.as_str());
    r.append(" (agent: ");
    r.append(launch.agent.id.as_str());
    r.append(") in ");
    r.append(launch.run_dir.as_str());
    r
}

/// What a wave comes to: the run goes on unless a task failed and it is not to go on after errors.
pub fn wave_verdict(all_ok: bool, continue_on_error: bool) -> (r: Result<(), TaskError>)
    ensures
        if all_ok || continue_on_error {
            r is Ok
        } else {
            r matches Err(TaskError::InvalidTaskFile(m)) && m@ == "one or more tasks failed"@
        },
{
    if all_ok || continue_on_error {
        Ok(())
    } else {
        Err(TaskError::InvalidTaskFile("one or more tasks failed".to_owned()))
    }
}

/// The text of a plan from the line for a task on holds that line.
proof fn lemma_task_line(tasks: Seq<TaskSpec>, n: int, i: int)
    requires
        0 <= i < n <= tasks.len(),
    ensures
        contains_text(
            plan_tasks(tasks, n),
            "- id: "@ + padded(tasks[i].id@, 12) + " agent: "@ + padded(tasks[i].agent@, 12)
                + " depends_on: "@ + debug_list(views(tasks[i].depends_on@)) + "\n"@,
        ),
    decreases n,
{
    let line = "- id: "@ + padded(tasks[i].id@, 12) + " agent: "@ + padded(tasks[i].agent@, 12)
        + " depends_on: "@ + debug_list(views(tasks[i].depends_on@)) + "\n"@;
    let before = plan_tasks(tasks, n - 1);
    let all = plan_tasks(tasks, n);
    if i < n - 1 {
        lemma_task_line(tasks, n - 1, i);
        let tail = all.skip(before.len() as int);
        assert(all =~= seq![] + before + tail);
        lemma_contains_within(before, line, seq![], tail);
    } else {
        assert(all =~= before + line + seq![]);
        lemma_contains_self(line, before, seq![]);
    }
}

/// The text of the levels holds the line of each.
proof fn lemma_level_line(levels: Seq<Seq<Seq<char>>>, n: int, i: int)
    requires
        0 <= i < n <= levels.len(),
    ensures
        contains_text(
            plan_levels(levels, n),
            "level "@ + decimal(i as nat) + ": "@ + debug_list(levels[i]) + "\n"@,
        ),
    decreases n,
{
    let line = "level "@ + decimal(i as nat) + ": "@ + debug_list(levels[i]) + "\n"@;
    let before = plan_levels(levels, n - 1);
    let all = plan_levels(levels, n);
    if i < n - 1 {
        lemma_level_line(levels, n - 1, i);
        let tail = all.skip(before.len() as int);
        assert(all =~= seq![] + before + tail);
        lemma_contains_within(before, line, seq![], tail);
    } else {
        assert(all =~= before + line + seq![]);
        lemma_contains_self(line, before, seq![]);
    }
}

/// A text is found between two others.
proof fn lemma_contains_self(p: Seq<char>, a: Seq<char>, b: Seq<char>)
    ensures
        contains_text(a + p + b, p),
{
    let s = a + p + b;
    assert(s.subrange(a.len() as int, (a.len() + p.len()) as int) =~= p);
    assert(occurs_at(s, p, a.len() as int));
}

/// What is found in a text is found with others around it.
proof fn lemma_contains_within(t: Seq<char>, p: Seq<char>, a: Seq<char>, b: Seq<char>)
    requires
        contains_text(t, p),
    ensures
        contains_text(a + t + b, p),
{
    let s = a + t + b;
    let i = choose|i: int| #[trigger] occurs_at(t, p, i);
    assert(s.subrange(a.len() + i, a.len() + i + p.len()) =~= t.subrange(i, i + p.len()));
    assert(occurs_at(s, p, a.len() + i));
}

/// Law: the plan begins with the run's id, its objective and its concurrency, and has a line for each
/// wave with its tasks and a line for each task with its agent and what it depends on.
pub proof fn law_plan_lists(runner: &Runner, r: String, i: int)
    requires
        call_ensures(Runner::render_plan, (runner,), r),
        0 <= i < runner.tf.tasks@.len(),
    ensures
        starts_with(
            r@,
            "# Run Plan\n"@ + "run_id: "@ + runner.opts.run_id@ + "\n"@ + "objective: "@
                + runner.tf.objective@ + "\n"@ + "concurrency: "@ + decimal(
                runner.opts.concurrency as nat,
            ) + "\n"@ + "\n## DAG levels\n"@,
        ),
        contains_text(
            r@,
            "- id: "@ + padded(runner.tf.tasks@[i].id@, 12) + " agent: "@ + padded(
                runner.tf.tasks@[i].agent@,
                12,
            ) + " depends_on: "@ + debug_list(views(runner.tf.tasks@[i].depends_on@)) + "\n"@,
        ),
        exists|levels: Seq<Seq<Seq<char>>>| #[trigger]
            is_levels(graph_labels(runner.dag.graph), graph_arcs(runner.dag.graph), levels)
                && forall|k: int|
                0 <= k < levels.len() ==> contains_text(
                    r@,
                    "level "@ + decimal(k as nat) + ": "@ + debug_list(#[trigger] levels[k])
                        + "\n"@,
                ),
{
    let levels = choose|levels: Seq<Seq<Seq<char>>>| #[trigger]
        is_levels(graph_labels(runner.dag.graph), graph_arcs(runner.dag.graph), levels) && r@
            == plan_text(*runner, levels);
    let head = "# Run Plan\n"@ + "run_id: "@ + runner.opts.run_id@ + "\n"@ + "objective: "@
        + runner.tf.objective@ + "\n"@ + "concurrency: "@ + decimal(runner.opts.concurrency as nat)
        + "\n"@ + "\n## DAG levels\n"@;
    assert(r@.take(head.len() as int) =~= head);
    let tasks = runner.tf.tasks@;
    let n = tasks.len() as int;
    let most = plan_head(
        runner.opts.run_id@,
        runner.tf.objective@,
        runner.opts.concurrency as nat,
    );
    let waves = plan_levels(levels, levels.len() as int);
    let rest = "\n## Tasks\n"@ + plan_tasks(tasks, n);
    assert(r@ =~= most + waves + rest);
    assert(r@ =~= (most + waves + "\n## Tasks\n"@) + plan_tasks(tasks, n) + seq![]);
    lemma_task_line(tasks, n, i);
    lemma_contains_within(
        plan_tasks(tasks, n),
        "- id: "@ + padded(tasks[i].id@, 12) + " agent: "@ + padded(tasks[i].agent@, 12)
            + " depends_on: "@ + debug_list(views(tasks[i].depends_on@)) + "\n"@,
        most + waves + "\n## Tasks\n"@,
        seq![],
    );
    assert forall|k: int| 0 <= k < levels.len() implies contains_text(
        r@,
        "level "@ + decimal(k as nat) + ": "@ + debug_list(#[trigger] levels[k]) + "\n"@,
    ) by {
        lemma_level_line(levels, levels.len() as int, k);
        lemma_contains_within(
            waves,
            "level "@ + decimal(k as nat) + ": "@ + debug_list(levels[k]) + "\n"@,
            most,
            rest,
        );
    }
}

/// Law: a runner keeps the task file, the graph and the options, and of several agents with one id
/// the last one counts.
pub proof fn law_last_agent_counts(
    tf: &TaskFile,
    dag: Dag,
    opts: RunnerOptions,
    runner: Runner,
    i: int,
)
    requires
        call_ensures(Runner::new, (tf, dag, opts), Ok(runner)),
        0 <= i < tf.agents@.len(),
    ensures
        runner.tf == tf,
        runner.opts == opts,
        runner.dag == dag,
        runner.agents@.dom().contains(tf.agents@[i].id@),
        (forall|j: int| i < j < tf.agents@.len() ==> (#[trigger] tf.agents@[j]).id@ != tf.agents@[i].id@)
            ==> runner.agents@[tf.agents@[i].id@]@ == tf.agents@[i]@,
{
    assert(tf.agents@[i].id@ == tf.agents@[i].id@);
    if forall|j: int|
        i < j < tf.agents@.len() ==> (#[trigger] tf.agents@[j]).id@ != tf.agents@[i].id@ {
        assert(last_with_id(tf.agents@, i));
    }
}

/// Law: the tasks of a wave are started in its order, each in its directory, up to the first that has
/// no task or no agent.
pub proof fn law_wave_planned(runner: &Runner, level: Vec<String>, r: WavePlan, k: int)
    requires
        runner.wf(),
        call_ensures(Runner::plan_wave, (runner, &level), r),
    ensures
        r.launches@.len() <= level@.len(),
        r.failure is None <==> r.launches@.len() == level@.len(),
        0 <= k < r.launches@.len() ==> {
            &&& r.launches@[k].task.id@ == level@[k]@
            &&& r.launches@[k].run_dir@ == join_path(runner.opts.base_run_dir@, level@[k]@)
            &&& exists|i: int|
                0 <= i < runner.tf.tasks@.len() && r.launches@[k].task@ == (
                #[trigger] runner.tf.tasks@[i])@
        },
        r.failure matches Some(TaskError::InvalidTaskFile(m)) ==> m@ == "missing task: "@
            + level@[r.launches@.len() as int]@ && forall|i: int|
            0 <= i < runner.tf.tasks@.len() ==> (#[trigger] runner.tf.tasks@[i]).id@
                != level@[r.launches@.len() as int]@,
        r.failure matches Some(TaskError::UnknownAgent(a)) ==> forall|i: int|
            0 <= i < runner.tf.agents@.len() ==> (#[trigger] runner.tf.agents@[i]).id@ != a@,
{
    let lv = views(level@);
    if 0 <= k < r.launches@.len() {
        assert(runner.launches(lv[k], r.launches@[k]));
        let i = choose|i: int| #[trigger]
            task_at(runner.tf.tasks@, lv[k], i) && r.launches@[k].task@ == runner.tf.tasks@[i]@;
        assert(r.launches@[k].task@.id == runner.tf.tasks@[i]@.id);
        assert(r.launches@[k].task@ == runner.tf.tasks@[i]@);
    }
    match r.failure {
        Some(TaskError::InvalidTaskFile(m)) => {
            let id = lv[r.launches@.len() as int];
            assert forall|i: int| 0 <= i < runner.tf.tasks@.len() implies (
            #[trigger] runner.tf.tasks@[i]).id@ != id by {
                lemma_no_task(runner.tf.tasks@, id, i);
            }
        },
        _ => {},
    }
}

/// Where no task is the first with an id, none has it.
proof fn lemma_no_task(tasks: Seq<TaskSpec>, id: Seq<char>, i: int)
    requires
        forall|k: int| !task_at(tasks, id, k),
        0 <= i < tasks.len(),
    ensures
        tasks[i].id@ != id,
    decreases i,
{
    if tasks[i].id@ == id {
        assert forall|j: int| 0 <= j < i implies (#[trigger] tasks[j]).id@ != id by {
            lemma_no_task(tasks, id, j);
        }
        assert(task_at(tasks, id, i));
    }
}

/// Law: a wave fails only if one of its tasks failed and the run is not to go on after errors.
pub proof fn law_verdict(all_ok: bool, continue_on_error: bool, r: Result<(), TaskError>)
    requires
        call_ensures(wave_verdict, (all_ok, continue_on_error), r),
    ensures
        r is Err <==> !all_ok && !continue_on_error,
        r matches Err(e) ==> (e matches TaskError::InvalidTaskFile(m) && m@
            == "one or more tasks failed"@),
{
}

/// Law: a task has a directory of its own below that of the run, named after it.
pub proof fn law_task_dir(runner: &Runner, id: &str, r: String)
    requires
        call_ensures(Runner::task_run_dir, (runner, id), r),
    ensures
        r@ == join_path(runner.opts.base_run_dir@, id@),
{
}

/// Law: the agent that is complained of is the one that the task names which cannot be started.
pub proof fn law_unknown_agent_named(runner: &Runner, level: Vec<String>, r: WavePlan, a: String)
    requires
        runner.wf(),
        call_ensures(Runner::plan_wave, (runner, &level), r),
        r.failure == Some(TaskError::UnknownAgent(a)),
    ensures
        r.launches@.len() < level@.len(),
        exists|i: int|
            0 <= i < runner.tf.tasks@.len() && (#[trigger] runner.tf.tasks@[i]).id@
                == level@[r.launches@.len() as int]@ && runner.tf.tasks@[i].agent@ == a@,
{
    let id = views(level@)[r.launches@.len() as int];
    let i = choose|i: int| #[trigger]
        task_at(runner.tf.tasks@, id, i) && a@ == runner.tf.tasks@[i].agent@;
    assert(runner.tf.tasks@[i].id@ == id);
}

/// Law: a task is started by the agent that it names, the last one with that id.
pub proof fn law_agent_of_task(runner: &Runner, level: Vec<String>, r: WavePlan, k: int, j: int)
    requires
        runner.wf(),
        call_ensures(Runner::plan_wave, (runner, &level), r),
        0 <= k < r.launches@.len(),
        0 <= j < runner.tf.agents@.len(),
        runner.tf.agents@[j].id@ == r.launches@[k].task.agent@,
        forall|m: int|
            j < m < runner.tf.agents@.len() ==> (#[trigger] runner.tf.agents@[m]).id@
                != runner.tf.agents@[j].id@,
    ensures
        r.launches@[k].agent@ == runner.tf.agents@[j]@,
{
    let id = views(level@)[k];
    assert(runner.launches(id, r.launches@[k]));
    let i = choose|i: int| #[trigger]
        task_at(runner.tf.tasks@, id, i) && r.launches@[k].task@ == runner.tf.tasks@[i]@
            && runner.agents@.dom().contains(runner.tf.tasks@[i].agent@) && r.launches@[k].agent@
            == runner.agents@[runner.tf.tasks@[i].agent@]@;
    assert(r.launches@[k].task@.agent == runner.tf.tasks@[i]@.agent);
    assert(last_with_id(runner.tf.agents@, j));
}

} // verus!
