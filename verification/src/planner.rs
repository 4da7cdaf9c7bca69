//! Planning: asking the primary agent for a list of tasks, and finding that list in its output.

use vstd::prelude::*;
use vstd::string::*;

use crate::candidates::candidate_texts;
use crate::candidates::candidates_in;
use crate::candidates::extract_yaml_candidates;
use crate::candidates::texts_of;
use crate::candidates::ANY_FENCE;
use crate::candidates::FRONT_MATTER;
use crate::candidates::YAML_FENCE;
use crate::dag::first_missing;
use crate::dag::missing_at;
use crate::dag::none_missing;
use crate::error::TaskError;
use crate::paths::join_path;
use crate::paths::path_join;
use crate::patterns::captured;
use crate::schema::all_distinct;
use crate::schema::copy_tasks;
use crate::schema::first_repeat;
use crate::schema::lemma_distinct_ids;
use crate::schema::repeats;
use crate::schema::repeats_at;
use crate::schema::task_ids;
use crate::schema::AgentSpec;
use crate::schema::TaskFile;
use crate::schema::TaskSpec;
use crate::schema::TaskView;
use crate::strmap::StrMap;
use crate::text::chars_of;
use crate::text::contains_text;
use crate::text::debug_list;
use crate::text::debug_texts;
use crate::text::decimal;
use crate::text::is_white;
use crate::text::lemma_trim;
use crate::text::lemma_views_push;
use crate::text::occurs_at;
use crate::text::opt_view;
use crate::text::push_decimal;
use crate::text::same_text;
use crate::text::text_of;
use crate::text::trim;
use crate::text::trim_range;
use crate::text::views;

verus! {

/// The position of the primary agent: the first one with the id `primary`, or else the first.
pub open spec fn primary_index(agents: Seq<AgentSpec>) -> int {
    if exists|i: int| is_primary(agents, i) {
        choose|i: int| is_primary(agents, i)
    } else {
        0
    }
}

/// Whether position `i` holds the first agent with the id `primary`.
pub open spec fn is_primary(agents: Seq<AgentSpec>, i: int) -> bool {
    &&& 0 <= i < agents.len()
    &&& agents[i].id@ == "primary"@
    &&& forall|j: int| 0 <= j < i ==> (#[trigger] agents[j]).id@ != "primary"@
}

/// Selects the primary agent.
pub fn select_primary_agent(agents: &Vec<AgentSpec>) -> (r: Option<&AgentSpec>)
    ensures
        r is None <==> agents@.len() == 0,
        r matches Some(a) ==> *a == agents@[primary_index(agents@)],
{
    let mut i: usize = 0;
    while i < agents.len()
        invariant
            i <= agents@.len(),
            forall|j: int| 0 <= j < i ==> (#[trigger] agents@[j]).id@ != "primary"@,
        decreases agents@.len() - i,
    {
        if same_text(agents[i].id.as_str(), "primary") {
            proof {
                assert(is_primary(agents@, i as int));
                let c = primary_index(agents@);
                assert(is_primary(agents@, c));
                if c < i {
                    assert(agents@[c].id@ != "primary"@);
                } else if i < c {
                    assert(agents@[i as int].id@ != "primary"@);
                }
            }
            return Some(&agents[i]);
        }
        i += 1;
    }
    if agents.len() == 0 {
        return None;
    }
    Some(&agents[0])
}

/// The ids of the agents, in order.
pub open spec fn agent_ids(agents: Seq<AgentSpec>) -> Seq<Seq<char>> {
    Seq::new(agents.len(), |i: int| agents[i].id@)
}

/// What the planner is asked for.
pub open spec fn planner_shape() -> Seq<char> {
    "\n\nPlease propose a task plan as pure YAML wrapped in a fenced code block labeled yaml, with this exact shape (no prose):\n\n```yaml\ntasks:\n  - id: <kebab-case-id>\n    agent: <one-of: "@
}

/// What the planner has to heed.
pub open spec fn planner_rules() -> Seq<char> {
    ">\n    instructions: <fully scoped instruction with role-specific primer and explicit scope>\n    depends_on: [<ids>]\n```\n\nAgent roles and priming:\n- Prefer specialized agents when available (e.g., backend, frontend, docs, qa, research, devops, tooling).\n- If a specialized agent is not present in the allowed set, select 'primary' and include a short role primer inside instructions to prime the subagent (e.g., \"You are a backend engineer ...\").\n\nInstruction quality bar for each task:\n- Provide a brief role primer appropriate to the selected agent.\n- Explicitly outline IN-SCOPE and OUT-OF-SCOPE boundaries; avoid vague goals.\n- State concrete deliverables and success/acceptance criteria.\n- Include any key constraints (files/dirs to touch, dependency boundaries, style or test requirements).\n- Keep wording concise but complete; use imperative voice.\n\nConstraints:\n- Use at most "@
}

/// What the planner is asked, up to its end.
pub open spec fn planner_end() -> Seq<char> {
    " tasks, but optimize total task number to the problem at hand.\n- Avoid cycles.\n        - Only output the YAML block with 'tasks:' as shown. No extra commentary."@
}

/// What the planner is asked.
pub open spec fn planner_text(
    objective: Seq<char>,
    body: Seq<char>,
    ids: Seq<Seq<char>>,
    max_tasks: nat,
) -> Seq<char> {
    "\n        \"You are the lead orchestrator for a multi-agent team.\n\nObjective:\n"@ + objective
        + "\n\nContext (from task.md body):\n"@ + body + planner_shape() + debug_list(ids) + planner_rules()
        + decimal(max_tasks) + planner_end()
}

/// The number of tasks that the planner may propose.
pub open spec fn max_tasks(concurrency: Option<usize>) -> nat {
    match concurrency {
        Some(n) => n as nat,
        None => 6,
    }
}

/// What the planner is asked.
fn planner_instructions(tf: &TaskFile, task_body: &str) -> (r: String)
    ensures
        r@ == planner_text(
            tf.objective@,
            task_body@,
            agent_ids(tf.agents@),
            max_tasks(tf.concurrency),
        ),
{
    broadcast use lemma_views_push;

    let mut ids: Vec<String> = Vec::new();
    let mut i: usize = 0;
    while i < tf.agents.len()
        invariant
            i <= tf.agents@.len(),
            ids@.len() == i,
            forall|j: int| 0 <= j < i ==> (#[trigger] ids@[j])@ == tf.agents@[j].id@,
        decreases tf.agents@.len() - i,
    {
        ids.push(tf.agents[i].id.clone());
        i += 1;
    }
    proof {
        assert(views(ids@) =~= agent_ids(tf.agents@));
    }
    let max: usize = match tf.concurrency {
        Some(n) => n,
        None => 6,
    };
    let mut r =
        "\n        \"You are the lead orchestrator for a multi-agent team.\n\nObjective:\n".to_owned();
    r.append(tf.objective.as_str());
    r.append("\n\nContext (from task.md body):\n");
    r.append(task_body);
    r.append(
        "\n\nPlease propose a task plan as pure YAML wrapped in a fenced code block labeled yaml, with this exact shape (no prose):\n\n```yaml\ntasks:\n  - id: <kebab-case-id>\n    agent: <one-of: ",
    );
    r.append(debug_texts(&ids).as_str());
    r.append(
        ">\n    instructions: <fully scoped instruction with role-specific primer and explicit scope>\n    depends_on: [<ids>]\n```\n\nAgent roles and priming:\n- Prefer specialized agents when available (e.g., backend, frontend, docs, qa, research, devops, tooling).\n- If a specialized agent is not present in the allowed set, select 'primary' and include a short role primer inside instructions to prime the subagent (e.g., \"You are a backend engineer ...\").\n\nInstruction quality bar for each task:\n- Provide a brief role primer appropriate to the selected agent.\n- Explicitly outline IN-SCOPE and OUT-OF-SCOPE boundaries; avoid vague goals.\n- State concrete deliverables and success/acceptance criteria.\n- Include any key constraints (files/dirs to touch, dependency boundaries, style or test requirements).\n- Keep wording concise but complete; use imperative voice.\n\nConstraints:\n- Use at most ",
    );
    push_decimal(&mut r, max as u64);
    r.append(
        " tasks, but optimize total task number to the problem at hand.\n- Avoid cycles.\n        - Only output the YAML block with 'tasks:' as shown. No extra commentary.",
    );
    r
}

/// What planning needs to be run: the agent, its task, and where its output is logged.
#[derive(Debug)]
pub struct PlanRequest {
    pub agent: AgentSpec,
    pub task: TaskSpec,
    pub log_dir: String,
}

/// Where the planner's output is logged: below the home directory, or below the working directory
/// where there is none.
pub open spec fn planner_logs(home: Option<Seq<char>>, workdir: Seq<char>) -> Seq<char> {
    let base = match home {
        Some(h) => h,
        None => workdir,
    };
    join_path(join_path(base, ".codex"@), "planner-logs"@)
}

/// The task that the planner is given.
pub open spec fn planner_task(tf: TaskFile, body: Seq<char>, workdir: Seq<char>) -> TaskView {
    TaskView {
        id: "auto-plan"@,
        title: Some("Auto plan tasks"@),
        agent: tf.agents@[primary_index(tf.agents@)].id@,
        instructions: planner_text(
            tf.objective@,
            body,
            agent_ids(tf.agents@),
            max_tasks(tf.concurrency),
        ),
        depends_on: seq![],
        env: Map::empty(),
        retries: Some(0u32),
        timeout_secs: Some(1200u64),
        cwd: Some(workdir),
    }
}

/// Begins planning: the primary agent is asked for a list of tasks. Its output goes through
/// `plan_texts`, `pick_plan` and `plan_outcome`.
pub fn auto_plan_tasks(
    tf: &TaskFile,
    task_body: &str,
    workdir: &str,
    home: Option<&str>,
) -> (r: Result<PlanRequest, TaskError>)
    ensures
        match r {
            Ok(req) => {
                &&& tf.agents@.len() > 0
                &&& req.agent@ == tf.agents@[primary_index(tf.agents@)]@
                &&& req.task@ == planner_task(*tf, task_body@, workdir@)
                &&& req.log_dir@ == planner_logs(
                    match home {
                        Some(h) => Some(h@),
                        None => None,
                    },
                    workdir@,
                )
            },
            Err(TaskError::InvalidTaskFile(m)) => tf.agents@.len() == 0 && m@
                == "no agents defined"@,
            Err(_) => false,
        },
{
    let primary = match select_primary_agent(&tf.agents) {
        Some(a) => a,
        None => {
            return Err(TaskError::InvalidTaskFile("no agents defined".to_owned()));
        },
    };
    let base = match home {
        Some(h) => h,
        None => workdir,
    };
    let log_dir = path_join(path_join(base, ".codex").as_str(), "planner-logs");
    let task = TaskSpec {
        id: "auto-plan".to_owned(),
        title: Some("Auto plan tasks".to_owned()),
        agent: primary.id.clone(),
        instructions: planner_instructions(tf, task_body),
        depends_on: Vec::new(),
        env: StrMap::new(),
        retries: Some(0),
        timeout_secs: Some(1200),
        cwd: Some(workdir.to_owned()),
    };
    proof {
        assert(task@ =~= planner_task(*tf, task_body@, workdir@));
    }
    Ok(PlanRequest { agent: primary.clone(), task, log_dir })
}

/// Concludes planning by the list of tasks that was found in the planner's output, if any.
pub fn plan_outcome(plan: Option<Vec<TaskSpec>>, log_dir: &str) -> (r: Result<
    Vec<TaskSpec>,
    TaskError,
>)
    ensures
        match plan {
            Some(tasks) => r == Ok::<Vec<TaskSpec>, TaskError>(tasks),
            None => r matches Err(TaskError::InvalidTaskFile(m)) && m@
                == "planner did not return a valid YAML tasks list (see "@ + join_path(
                log_dir@,
                "stdout.log"@,
            ) + " for output)"@,
        },
{
    match plan {
        Some(tasks) => Ok(tasks),
        None => {
            let mut m = "planner did not return a valid YAML tasks list (see ".to_owned();
            m.append(path_join(log_dir, "stdout.log").as_str());
            m.append(" for output)");
            Err(TaskError::InvalidTaskFile(m))
        },
    }
}

/// `s` with two spaces in place of each tab.
pub open spec fn expand_tabs(s: Seq<char>) -> Seq<char>
    decreases s.len(),
{
    if s.len() == 0 {
        s
    } else if s.last() == '\t' {
        expand_tabs(s.drop_last()) + seq![' ', ' ']
    } else {
        expand_tabs(s.drop_last()).push(s.last())
    }
}

/// `s` without the byte order marks at its start.
pub open spec fn skip_marks(s: Seq<char>) -> Seq<char>
    decreases s.len(),
{
    if s.len() > 0 && s[0] == '\u{feff}' {
        skip_marks(s.drop_first())
    } else {
        s
    }
}

/// A candidate made ready to be parsed.
pub open spec fn sanitized(s: Seq<char>) -> Seq<char> {
    trim(skip_marks(expand_tabs(s)))
}

/// Makes a candidate ready to be parsed: tabs become spaces, byte order marks at the start and
/// whitespace at both ends go.
pub fn sanitize_yaml_candidate(s: &str) -> (r: String)
    ensures
        r@ == sanitized(s@),
{
    let v = chars_of(s);
    let mut w: Vec<char> = Vec::new();
    let mut i: usize = 0;
    proof {
        assert(v@.take(0) =~= seq![]);
    }
    while i < v.len()
        invariant
            i <= v@.len(),
            w@ == expand_tabs(v@.take(i as int)),
        decreases v@.len() - i,
    {
        proof {
            assert(v@.take(i + 1).drop_last() =~= v@.take(i as int));
            assert(v@.take(i + 1).last() == v@[i as int]);
        }
        let ghost before = w@;
        if v[i] == '\t' {
            w.push(' ');
            w.push(' ');
            assert(w@ =~= before + seq![' ', ' ']);
        } else {
            w.push(v[i]);
        }
        i += 1;
    }
    proof {
        assert(v@.take(i as int) =~= v@);
        assert(w@.subrange(0, w@.len() as int) =~= w@);
    }
    let mut from: usize = 0;
    while from < w.len() && w[from] == '\u{feff}'
        invariant
            from <= w@.len(),
            skip_marks(w@) == skip_marks(w@.subrange(from as int, w@.len() as int)),
        decreases w@.len() - from,
    {
        proof {
            let t = w@.subrange(from as int, w@.len() as int);
            assert(t[0] == w@[from as int]);
            assert(t.drop_first() =~= w@.subrange(from + 1, w@.len() as int));
        }
        from += 1;
    }
    proof {
        let t = w@.subrange(from as int, w@.len() as int);
        if from < w@.len() {
            assert(t[0] == w@[from as int]);
        }
    }
    let (a, b) = trim_range(&w, from, w.len());
    text_of(&w, a, b)
}

/// Whether a list of tasks can be a plan: no id occurs twice, and each dependency names a task.
pub open spec fn valid_plan(tasks: Seq<TaskSpec>) -> bool {
    all_distinct(task_ids(tasks)) && none_missing(tasks)
}

/// Tells whether some task has the given id.
fn has_task(tasks: &Vec<TaskSpec>, id: &str) -> (r: bool)
    ensures
        r == task_ids(tasks@).contains(id@),
{
    let mut i: usize = 0;
    while i < tasks.len()
        invariant
            i <= tasks@.len(),
            forall|j: int| 0 <= j < i ==> (#[trigger] tasks@[j]).id@ != id@,
        decreases tasks@.len() - i,
    {
        if same_text(tasks[i].id.as_str(), id) {
            assert(task_ids(tasks@)[i as int] == id@);
            return true;
        }
        i += 1;
    }
    proof {
        if task_ids(tasks@).contains(id@) {
            let j = task_ids(tasks@).index_of(id@);
            assert(tasks@[j].id@ == id@);
        }
    }
    false
}

/// Checks that no id occurs twice and that each dependency names a task.
pub fn validate_tasks(tasks: &Vec<TaskSpec>) -> (r: Result<(), TaskError>)
    ensures
        r is Ok <==> valid_plan(tasks@),
        match r {
            Ok(()) => true,
            Err(TaskError::DuplicateTask(id)) => exists|i: int| #[trigger]
                first_repeat(task_ids(tasks@), i) && id@ == tasks@[i].id@,
            Err(TaskError::MissingDependency(id)) => {
                &&& all_distinct(task_ids(tasks@))
                &&& exists|i: int, k: int| #[trigger]
                    first_missing(tasks@, i, k) && id@ == tasks@[i].depends_on@[k]@
            },
            Err(_) => false,
        },
{
    let ghost ids = task_ids(tasks@);
    let mut i: usize = 0;
    while i < tasks.len()
        invariant
            i <= tasks@.len(),
            ids == task_ids(tasks@),
            forall|k: int| 0 <= k < i ==> !repeats_at(ids, k),
        decreases tasks@.len() - i,
    {
        if repeats(tasks, i) {
            assert(first_repeat(ids, i as int));
            return Err(TaskError::DuplicateTask(tasks[i].id.clone()));
        }
        i += 1;
    }
    let mut t: usize = 0;
    while t < tasks.len()
        invariant
            t <= tasks@.len(),
            all_distinct(task_ids(tasks@)),
            forall|a: int, b: int| a < t ==> !missing_at(tasks@, a, b),
        decreases tasks@.len() - t,
    {
        let task = &tasks[t];
        let mut k: usize = 0;
        while k < task.depends_on.len()
            invariant
                t < tasks@.len(),
                *task == tasks@[t as int],
                k <= task.depends_on@.len(),
                all_distinct(task_ids(tasks@)),
                forall|a: int, b: int| a < t || (a == t && b < k) ==> !missing_at(tasks@, a, b),
            decreases task.depends_on@.len() - k,
        {
            if !has_task(tasks, task.depends_on[k].as_str()) {
                assert(first_missing(tasks@, t as int, k as int));
                return Err(TaskError::MissingDependency(task.depends_on[k].clone()));
            }
            k += 1;
        }
        t += 1;
    }
    Ok(())
}

/// What parsing a candidate gave: the tasks of a document with a `tasks` key, those of a whole task
/// file, and a plain list of tasks.
#[derive(Debug)]
pub struct ParsedCandidate {
    pub document: Option<Vec<TaskSpec>>,
    pub task_file: Option<Vec<TaskSpec>>,
    pub list: Option<Vec<TaskSpec>>,
}

impl ParsedCandidate {
    /// The reading that counts in pass `pass`.
    pub open spec fn reading(&self, pass: int) -> Option<Vec<TaskSpec>> {
        if pass == 0 {
            self.document
        } else if pass == 1 {
            self.task_file
        } else {
            self.list
        }
    }
}

/// Whether the reading of candidate `i` in pass `pass` is a valid plan.
pub open spec fn usable(parsed: Seq<ParsedCandidate>, pass: int, i: int) -> bool {
    &&& 0 <= i < parsed.len()
    &&& parsed[i].reading(pass) is Some
    &&& valid_plan(parsed[i].reading(pass)->0@)
}

/// Whether candidate `i` in pass `pass` is chosen: it is the last usable one of the first pass that
/// has any.
pub open spec fn chosen(parsed: Seq<ParsedCandidate>, pass: int, i: int) -> bool {
    &&& 0 <= pass < 3
    &&& usable(parsed, pass, i)
    &&& forall|j: int| i < j ==> !usable(parsed, pass, j)
    &&& forall|q: int, j: int| 0 <= q < pass ==> !usable(parsed, q, j)
}

/// The last candidate whose reading in a pass is a valid plan.
fn last_usable(parsed: &Vec<ParsedCandidate>, pass: u8) -> (r: Option<usize>)
    requires
        pass < 3,
    ensures
        match r {
            Some(i) => usable(parsed@, pass as int, i as int) && forall|j: int|
                i < j ==> !usable(parsed@, pass as int, j),
            None => forall|j: int| !usable(parsed@, pass as int, j),
        },
{
    let mut i: usize = parsed.len();
    while i > 0
        invariant
            pass < 3,
            i <= parsed@.len(),
            forall|j: int| i <= j ==> !usable(parsed@, pass as int, j),
        decreases i,
    {
        i -= 1;
        let reading = if pass == 0 {
            &parsed[i].document
        } else if pass == 1 {
            &parsed[i].task_file
        } else {
            &parsed[i].list
        };
        if let Some(tasks) = reading {
            if validate_tasks(tasks).is_ok() {
                return Some(i);
            }
        }
    }
    None
}

/// Picks the plan from what parsing the candidates gave. Documents with a `tasks` key win over
/// whole task files, and these over plain lists; of several valid ones the last one wins.
pub fn pick_plan(parsed: &Vec<ParsedCandidate>) -> (r: Option<Vec<TaskSpec>>)
    ensures
        match r {
            Some(tasks) => {
                &&& valid_plan(tasks@)
                &&& exists|pass: int, i: int| #[trigger]
                    chosen(parsed@, pass, i) && views(tasks@) == views(
                        parsed@[i].reading(pass)->0@,
                    )
            },
            None => forall|pass: int, i: int| 0 <= pass < 3 ==> !usable(parsed@, pass, i),
        },
{
    if let Some(i) = last_usable(parsed, 0) {
        if let Some(tasks) = &parsed[i].document {
            assert(chosen(parsed@, 0, i as int));
            let plan = copy_tasks(tasks);
            proof {
                lemma_valid_views(tasks@, plan@);
            }
            return Some(plan);
        }
    }
    if let Some(i) = last_usable(parsed, 1) {
        if let Some(tasks) = &parsed[i].task_file {
            assert(chosen(parsed@, 1, i as int));
            let plan = copy_tasks(tasks);
            proof {
                lemma_valid_views(tasks@, plan@);
            }
            return Some(plan);
        }
    }
    if let Some(i) = last_usable(parsed, 2) {
        if let Some(tasks) = &parsed[i].list {
            assert(chosen(parsed@, 2, i as int));
            let plan = copy_tasks(tasks);
            proof {
                lemma_valid_views(tasks@, plan@);
            }
            return Some(plan);
        }
    }
    None
}

/// The texts that are parsed to find the plan in a planner's output.
pub fn plan_texts(output: &str) -> (r: Vec<String>)
    ensures
        views(r@) == sanitized_all(
            candidate_texts(
                candidates_in(
                    output@,
                    captured(YAML_FENCE@, output@),
                    captured(FRONT_MATTER@, output@),
                    captured(ANY_FENCE@, output@),
                ),
            ),
        ),
{
    let candidates = extract_yaml_candidates(output);
    let mut r: Vec<String> = Vec::new();
    let mut i: usize = 0;
    while i < candidates.len()
        invariant
            i <= candidates@.len(),
            r@.len() == i,
            forall|j: int| 0 <= j < i ==> (#[trigger] r@[j])@ == sanitized(candidates@[j]@),
        decreases candidates@.len() - i,
    {
        r.push(sanitize_yaml_candidate(candidates[i]));
        i += 1;
    }
    proof {
        let texts = texts_of(candidates@);
        assert(views(r@) =~= sanitized_all(texts)) by {
            assert forall|j: int| 0 <= j < r@.len() implies views(r@)[j] == sanitized(texts[j]) by {
                assert(texts[j] == candidates@[j]@);
            }
        }
    }
    r
}

/// Candidates made ready to be parsed.
pub open spec fn sanitized_all(texts: Seq<Seq<char>>) -> Seq<Seq<char>> {
    Seq::new(texts.len(), |i: int| sanitized(texts[i]))
}

/// Law: the choice of a plan is unambiguous.
pub proof fn law_choice_unique(parsed: Seq<ParsedCandidate>, p: int, i: int, q: int, j: int)
    requires
        chosen(parsed, p, i),
        chosen(parsed, q, j),
    ensures
        p == q,
        i == j,
{
    if p < q {
        assert(!usable(parsed, p, i));
    } else if q < p {
        assert(!usable(parsed, q, j));
    } else if i < j {
        assert(!usable(parsed, p, j));
    } else if j < i {
        assert(!usable(parsed, p, i));
    }
}

/// Lists of tasks that say the same are valid together.
proof fn lemma_valid_views(a: Seq<TaskSpec>, b: Seq<TaskSpec>)
    requires
        views(a) == views(b),
        valid_plan(a),
    ensures
        valid_plan(b),
{
    assert(a.len() == views(a).len() && b.len() == views(b).len());
    assert forall|i: int| 0 <= i < a.len() implies (#[trigger] a[i])@ == b[i]@ by {
        assert(views(a)[i] == views(b)[i]);
    }
    assert(task_ids(a) =~= task_ids(b)) by {
        assert forall|i: int| 0 <= i < a.len() implies task_ids(a)[i] == task_ids(b)[i] by {
            assert(a[i]@.id == b[i]@.id);
        }
    }
    assert forall|i: int, k: int| !missing_at(b, i, k) by {
        if missing_at(b, i, k) {
            assert(a[i]@.depends_on == b[i]@.depends_on);
            assert(a[i].depends_on@.len() == a[i]@.depends_on.len());
            assert(b[i].depends_on@.len() == b[i]@.depends_on.len());
            assert(a[i]@.depends_on[k] == b[i]@.depends_on[k]);
            assert(missing_at(a, i, k));
        }
    }
}

/// Whether each two of the tasks have different ids and each dependency is the id of one of them.
pub open spec fn sound(tasks: Seq<TaskSpec>) -> bool {
    &&& forall|i: int, j: int|
        0 <= i < j < tasks.len() ==> (#[trigger] tasks[i]).id@ != (#[trigger] tasks[j]).id@
    &&& forall|i: int, k: int|
        0 <= i < tasks.len() && 0 <= k < tasks[i].depends_on@.len() ==> exists|j: int|
            0 <= j < tasks.len() && (#[trigger] tasks[j]).id@ == (
            #[trigger] tasks[i].depends_on@[k])@
}

/// A plan is valid exactly where its ids differ and its dependencies name tasks.
proof fn lemma_sound(tasks: Seq<TaskSpec>)
    ensures
        valid_plan(tasks) <==> sound(tasks),
{
    let ids = task_ids(tasks);
    lemma_distinct_ids(tasks);
    if none_missing(tasks) {
        assert forall|i: int, k: int|
            0 <= i < tasks.len() && 0 <= k < tasks[i].depends_on@.len() implies exists|j: int|
            0 <= j < tasks.len() && (#[trigger] tasks[j]).id@ == (
            #[trigger] tasks[i].depends_on@[k])@ by {
            assert(!missing_at(tasks, i, k));
            let j = choose|j: int| 0 <= j < ids.len() && ids[j] == tasks[i].depends_on@[k]@;
            assert(tasks[j].id@ == tasks[i].depends_on@[k]@);
        }
    }
    if sound(tasks) {
        assert forall|i: int, k: int| !missing_at(tasks, i, k) by {
            if missing_at(tasks, i, k) {
                let d = tasks[i].depends_on@[k];
                let j = choose|j: int| 0 <= j < tasks.len() && (#[trigger] tasks[j]).id@ == d@;
                assert(ids[j] == d@);
            }
        }
    }
}

/// Law: a list of tasks is accepted if each two have different ids and each dependency is the id of a
/// task. Else the complaint names an id that two tasks have, or a dependency that no task has.
pub proof fn law_validate_tasks(tasks: Vec<TaskSpec>, r: Result<(), TaskError>)
    requires
        call_ensures(validate_tasks, (&tasks,), r),
    ensures
        r is Ok <==> sound(tasks@),
        r matches Err(TaskError::DuplicateTask(id)) ==> exists|i: int, j: int|
            0 <= i < j < tasks@.len() && (#[trigger] tasks@[i]).id@ == id@ && (
            #[trigger] tasks@[j]).id@ == id@,
        r matches Err(TaskError::MissingDependency(id)) ==> {
            &&& forall|j: int| 0 <= j < tasks@.len() ==> (#[trigger] tasks@[j]).id@ != id@
            &&& exists|i: int, k: int|
                0 <= i < tasks@.len() && 0 <= k < tasks@[i].depends_on@.len() && (
                #[trigger] tasks@[i].depends_on@[k])@ == id@
        },
        r matches Err(e) ==> e is DuplicateTask || e is MissingDependency,
{
    lemma_sound(tasks@);
    let ids = task_ids(tasks@);
    match r {
        Err(TaskError::DuplicateTask(id)) => {
            let j = choose|j: int| #[trigger] first_repeat(ids, j) && id@ == tasks@[j].id@;
            let i = choose|i: int| 0 <= i < j && ids[i] == ids[j];
            assert(tasks@[i].id@ == id@ && tasks@[j].id@ == id@);
        },
        Err(TaskError::MissingDependency(id)) => {
            let (i, k) = choose|i: int, k: int| #[trigger]
                first_missing(tasks@, i, k) && id@ == tasks@[i].depends_on@[k]@;
            assert forall|j: int| 0 <= j < tasks@.len() implies (#[trigger] tasks@[j]).id@ != id@ by {
                assert(ids[j] == tasks@[j].id@);
            }
            assert(tasks@[i].depends_on@[k]@ == id@);
        },
        _ => {},
    }
}

/// Law: a sound document with a `tasks` key is the plan, the last one where there are several. What
/// other candidates say as task files or lists does not matter then.
pub proof fn law_documents_win(
    parsed: Vec<ParsedCandidate>,
    r: Option<Vec<TaskSpec>>,
    i: int,
    tasks: Vec<TaskSpec>,
)
    requires
        call_ensures(pick_plan, (&parsed,), r),
        0 <= i < parsed@.len(),
        parsed@[i].document == Some(tasks),
        sound(tasks@),
    ensures
        r is Some,
        sound(r->0@),
        (forall|j: int|
            i < j < parsed@.len() ==> ((#[trigger] parsed@[j]).document matches Some(t) ==> !sound(
                t@,
            ))) ==> views(r->0@) == views(tasks@),
{
    lemma_sound(tasks@);
    assert(parsed@[i].reading(0) == Some(tasks));
    assert(usable(parsed@, 0, i));
    let (pass, k) = choose|pass: int, k: int| #[trigger]
        chosen(parsed@, pass, k) && views(r->0@) == views(parsed@[k].reading(pass)->0@);
    lemma_sound(r->0@);
    lemma_sound(parsed@[k].reading(pass)->0@);
    assert(pass == 0) by {
        if pass > 0 {
            assert(!usable(parsed@, 0, i));
        }
    }
    if k < i {
        assert(!usable(parsed@, 0, i));
    }
    if forall|j: int|
        i < j < parsed@.len() ==> ((#[trigger] parsed@[j]).document matches Some(t) ==> !sound(t@)) {
        if k > i {
            assert(parsed@[k].document is Some);
            assert(!sound(parsed@[k].document->0@));
        }
        assert(k == i);
    }
}

/// Law: where no candidate is a sound document, a sound task file is the plan, the last one where
/// there are several; and where there is none of these either, a sound list.
pub proof fn law_task_files_before_lists(
    parsed: Vec<ParsedCandidate>,
    r: Option<Vec<TaskSpec>>,
    i: int,
    tasks: Vec<TaskSpec>,
)
    requires
        call_ensures(pick_plan, (&parsed,), r),
        0 <= i < parsed@.len(),
        sound(tasks@),
        forall|j: int|
            0 <= j < parsed@.len() ==> ((#[trigger] parsed@[j]).document matches Some(t) ==> !sound(
                t@,
            )),
    ensures
        parsed@[i].task_file == Some(tasks) && (forall|j: int|
            i < j < parsed@.len() ==> ((#[trigger] parsed@[j]).task_file matches Some(t) ==> !sound(
                t@,
            ))) ==> r is Some && views(r->0@) == views(tasks@),
        parsed@[i].list == Some(tasks) && (forall|j: int|
            0 <= j < parsed@.len() ==> ((#[trigger] parsed@[j]).task_file matches Some(t) ==> !sound(
                t@,
            ))) && (forall|j: int|
            i < j < parsed@.len() ==> ((#[trigger] parsed@[j]).list matches Some(t) ==> !sound(t@)))
            ==> r is Some && views(r->0@) == views(tasks@),
{
    lemma_sound(tasks@);
    assert forall|j: int| !usable(parsed@, 0, j) by {
        if usable(parsed@, 0, j) {
            lemma_sound(parsed@[j].document->0@);
        }
    }
    if parsed@[i].task_file == Some(tasks) {
        assert(parsed@[i].reading(1) == Some(tasks));
        assert(usable(parsed@, 1, i));
        let (pass, k) = choose|pass: int, k: int| #[trigger]
            chosen(parsed@, pass, k) && views(r->0@) == views(parsed@[k].reading(pass)->0@);
        if pass > 1 {
            assert(!usable(parsed@, 1, i));
        }
        assert(pass == 1);
        if k < i {
            assert(!usable(parsed@, 1, i));
        }
        lemma_sound(parsed@[k].reading(1)->0@);
        if k > i {
            assert(parsed@[k].task_file is Some);
        }
    }
    if parsed@[i].list == Some(tasks) && (forall|j: int|
        0 <= j < parsed@.len() ==> ((#[trigger] parsed@[j]).task_file matches Some(t) ==> !sound(
            t@,
        ))) {
        assert forall|j: int| !usable(parsed@, 1, j) by {
            if usable(parsed@, 1, j) {
                lemma_sound(parsed@[j].task_file->0@);
            }
        }
        assert(parsed@[i].reading(2) == Some(tasks));
        assert(usable(parsed@, 2, i));
        let (pass, k) = choose|pass: int, k: int| #[trigger]
            chosen(parsed@, pass, k) && views(r->0@) == views(parsed@[k].reading(pass)->0@);
        assert(pass == 2);
        if k < i {
            assert(!usable(parsed@, 2, i));
        }
        lemma_sound(parsed@[k].reading(2)->0@);
        if k > i {
            assert(parsed@[k].list is Some);
        }
    }
}

/// Law: there is no plan where nothing that was parsed is sound.
pub proof fn law_no_plan(parsed: Vec<ParsedCandidate>, r: Option<Vec<TaskSpec>>)
    requires
        call_ensures(pick_plan, (&parsed,), r),
        forall|j: int|
            0 <= j < parsed@.len() ==> {
                &&& (#[trigger] parsed@[j]).document matches Some(t) ==> !sound(t@)
                &&& parsed@[j].task_file matches Some(t) ==> !sound(t@)
                &&& parsed@[j].list matches Some(t) ==> !sound(t@)
            },
    ensures
        r is None,
{
    if r is Some {
        let (pass, k) = choose|pass: int, k: int| #[trigger]
            chosen(parsed@, pass, k) && views(r->0@) == views(parsed@[k].reading(pass)->0@);
        lemma_sound(parsed@[k].reading(pass)->0@);
    }
}

/// Law: the primary agent is the first one with the id `primary`, or else the first of all.
pub proof fn law_primary_agent(agents: Vec<AgentSpec>, r: Option<&AgentSpec>, i: int)
    requires
        call_ensures(select_primary_agent, (&agents,), r),
        0 <= i < agents@.len(),
    ensures
        r is Some,
        agents@[i].id@ == "primary"@ ==> r->0.id@ == "primary"@,
        agents@[i].id@ == "primary"@ && (forall|j: int|
            0 <= j < i ==> (#[trigger] agents@[j]).id@ != "primary"@) ==> *r->0 == agents@[i],
        (forall|j: int| 0 <= j < agents@.len() ==> (#[trigger] agents@[j]).id@ != "primary"@)
            ==> *r->0 == agents@[0],
{
    if agents@[i].id@ == "primary"@ {
        let f = lemma_first_primary(agents@, i);
        let c = primary_index(agents@);
        assert(is_primary(agents@, c));
        if c < f {
            assert(agents@[c].id@ != "primary"@);
        } else if f < c {
            assert(agents@[f].id@ != "primary"@);
        }
    }
}

/// The first of the agents with the id `primary`, where there is one.
proof fn lemma_first_primary(agents: Seq<AgentSpec>, i: int) -> (f: int)
    requires
        0 <= i < agents.len(),
        agents[i].id@ == "primary"@,
    ensures
        f <= i,
        is_primary(agents, f),
    decreases i,
{
    if is_primary(agents, i) {
        i
    } else {
        let j = choose|j: int| 0 <= j < i && (#[trigger] agents[j]).id@ == "primary"@;
        lemma_first_primary(agents, j)
    }
}

/// What stands between two texts is found in them.
proof fn lemma_between(p: Seq<char>, a: Seq<char>, b: Seq<char>)
    ensures
        contains_text(a + p + b, p),
{
    let s = a + p + b;
    assert(s.subrange(a.len() as int, (a.len() + p.len()) as int) =~= p);
    assert(occurs_at(s, p, a.len() as int));
}

/// Law: the primary agent is asked for the plan. It is told the objective, the body of the task file,
/// the ids of all agents and how many tasks it may propose, works in the working directory, has
/// twenty minutes and one attempt, and its output is logged below the home directory, or below the
/// working directory where there is none.
pub proof fn law_plan_request(
    tf: &TaskFile,
    body: &str,
    workdir: &str,
    home: Option<&str>,
    r: Result<PlanRequest, TaskError>,
    primary: Option<&AgentSpec>,
)
    requires
        call_ensures(auto_plan_tasks, (tf, body, workdir, home), r),
        call_ensures(select_primary_agent, (&tf.agents,), primary),
    ensures
        r is Ok <==> tf.agents@.len() > 0,
        r matches Ok(req) ==> {
            &&& primary is Some
            &&& req.agent@ == primary->0@
            &&& req.task.agent@ == primary->0.id@
            &&& req.task.id@ == "auto-plan"@
            &&& opt_view(req.task.title) == Some("Auto plan tasks"@)
            &&& req.task@.env.dom().is_empty()
            &&& req.task.retries == Some(0u32)
            &&& req.task.timeout_secs == Some((20 * 60) as u64)
            &&& opt_view(req.task.cwd) == Some(workdir@)
            &&& req.task.depends_on@.len() == 0
            &&& contains_text(req.task.instructions@, tf.objective@)
            &&& contains_text(req.task.instructions@, body@)
            &&& contains_text(
                req.task.instructions@,
                debug_list(Seq::new(tf.agents@.len(), |i: int| tf.agents@[i].id@)),
            )
            &&& tf.concurrency matches Some(n) ==> contains_text(
                req.task.instructions@,
                decimal(n as nat) + planner_end(),
            )
            &&& tf.concurrency is None ==> contains_text(
                req.task.instructions@,
                decimal(6) + planner_end(),
            )
            &&& home matches Some(h) ==> req.log_dir@ == join_path(
                join_path(h@, ".codex"@),
                "planner-logs"@,
            )
            &&& home is None ==> req.log_dir@ == join_path(
                join_path(workdir@, ".codex"@),
                "planner-logs"@,
            )
        },
{
    match r {
        Ok(req) => {
            let t = req.task@;
            assert(t.id == req.task.id@ && t.agent == req.task.agent@ && t.instructions
                == req.task.instructions@);
            assert(t.depends_on.len() == req.task.depends_on@.len());
            let ids = agent_ids(tf.agents@);
            assert(ids =~= Seq::new(tf.agents@.len(), |i: int| tf.agents@[i].id@));
            lemma_planner_text(tf.objective@, body@, ids, max_tasks(tf.concurrency));
        },
        Err(_) => {},
    }
}

/// What the planner is told.
proof fn lemma_planner_text(objective: Seq<char>, body: Seq<char>, ids: Seq<Seq<char>>, max: nat)
    ensures
        contains_text(planner_text(objective, body, ids, max), objective),
        contains_text(planner_text(objective, body, ids, max), body),
        contains_text(planner_text(objective, body, ids, max), debug_list(ids)),
        contains_text(planner_text(objective, body, ids, max), decimal(max) + planner_end()),
{
    let s = planner_text(objective, body, ids, max);
    let a = "\n        \"You are the lead orchestrator for a multi-agent team.\n\nObjective:\n"@;
    let b = "\n\nContext (from task.md body):\n"@;
    let end = planner_rules() + decimal(max) + planner_end();
    let most = planner_shape() + debug_list(ids) + end;
    assert(s =~= a + objective + (b + body + most));
    lemma_between(objective, a, b + body + most);
    assert(s =~= (a + objective + b) + body + most);
    lemma_between(body, a + objective + b, most);
    let before = a + objective + b + body + planner_shape();
    assert(s =~= before + debug_list(ids) + end);
    lemma_between(debug_list(ids), before, end);
    let last = decimal(max) + planner_end();
    let front = before + debug_list(ids) + planner_rules();
    assert(s =~= front + last + Seq::empty());
    lemma_between(last, front, Seq::empty());
}

/// Law: planning succeeds with the list of tasks that was found; else the complaint names the log.
pub proof fn law_plan_outcome(
    plan: Option<Vec<TaskSpec>>,
    log_dir: &str,
    r: Result<Vec<TaskSpec>, TaskError>,
)
    requires
        call_ensures(plan_outcome, (plan, log_dir), r),
    ensures
        plan matches Some(tasks) ==> r == Ok::<Vec<TaskSpec>, TaskError>(tasks),
        plan is None ==> (r matches Err(TaskError::InvalidTaskFile(m)) && contains_text(
            m@,
            join_path(log_dir@, "stdout.log"@),
        )),
{
    match r {
        Err(TaskError::InvalidTaskFile(m)) => {
            lemma_between(
                join_path(log_dir@, "stdout.log"@),
                "planner did not return a valid YAML tasks list (see "@,
                " for output)"@,
            );
        },
        _ => {},
    }
}

/// Tabs are replaced one by one.
proof fn lemma_expand(a: Seq<char>, b: Seq<char>)
    ensures
        expand_tabs(a + b) == expand_tabs(a) + expand_tabs(b),
    decreases b.len(),
{
    let s = a + b;
    if b.len() == 0 {
        assert(s =~= a);
        assert(expand_tabs(a) + expand_tabs(b) =~= expand_tabs(a));
    } else {
        lemma_expand(a, b.drop_last());
        assert(s.drop_last() =~= a + b.drop_last());
        assert(expand_tabs(s) =~= expand_tabs(a) + expand_tabs(b));
    }
}

/// Text without tabs stays, and no tab is left of others.
proof fn lemma_expanded(s: Seq<char>)
    ensures
        !s.contains('\t') ==> expand_tabs(s) == s,
        forall|i: int| 0 <= i < expand_tabs(s).len() ==> #[trigger] expand_tabs(s)[i] != '\t',
    decreases s.len(),
{
    if s.len() > 0 {
        let t = s.drop_last();
        lemma_expanded(t);
        if !s.contains('\t') {
            assert forall|i: int| 0 <= i < t.len() implies t[i] != '\t' by {
                assert(s[i] == t[i]);
            }
            assert(s[s.len() - 1] != '\t');
            assert(expand_tabs(s) =~= s);
        }
        assert forall|i: int| 0 <= i < expand_tabs(s).len() implies #[trigger] expand_tabs(s)[i]
            != '\t' by {
            if i < expand_tabs(t).len() {
                assert(expand_tabs(s)[i] == expand_tabs(t)[i]);
            }
        }
    }
}

/// What is left without marks is the end of a text.
proof fn lemma_skip_marks(s: Seq<char>)
    ensures
        forall|i: int| 0 <= i < skip_marks(s).len() ==> s.contains(#[trigger] skip_marks(s)[i]),
    decreases s.len(),
{
    if s.len() > 0 && s[0] == '\u{feff}' {
        let t = s.drop_first();
        lemma_skip_marks(t);
        assert forall|i: int| 0 <= i < skip_marks(s).len() implies s.contains(
            #[trigger] skip_marks(s)[i],
        ) by {
            let c = skip_marks(t)[i];
            let k = choose|k: int| 0 <= k < t.len() && t[k] == c;
            assert(s[k + 1] == c);
        }
    }
}

/// Law: a candidate that is made ready has no tabs and no whitespace at its ends. One that has none
/// of these, and no byte order mark in front, stays as it is.
pub proof fn law_sanitized(s: &str, r: String)
    requires
        call_ensures(sanitize_yaml_candidate, (s,), r),
    ensures
        !r@.contains('\t'),
        r@.len() > 0 ==> !is_white(r@[0]) && !is_white(r@.last()),
        !s@.contains('\t') && (s@.len() > 0 ==> !is_white(s@[0]) && !is_white(s@.last()) && s@[0]
            != '\u{feff}') ==> r@ == s@,
{
    let e = expand_tabs(s@);
    let m = skip_marks(e);
    lemma_expanded(s@);
    lemma_skip_marks(e);
    lemma_trim(m);
    let (i, j) = choose|i: int, j: int|
        0 <= i <= j <= m.len() && trim(m) == #[trigger] m.subrange(i, j);
    assert forall|k: int| 0 <= k < r@.len() implies r@[k] != '\t' by {
        assert(r@[k] == m[i + k]);
        assert(e.contains(m[i + k]));
    }
}

/// Law: a tab counts as two spaces, and a byte order mark in front as nothing.
pub proof fn law_tabs_and_marks(a: Seq<char>, b: Seq<char>)
    ensures
        sanitized(a + seq!['\t'] + b) == sanitized(a + seq![' ', ' '] + b),
        sanitized(seq!['\u{feff}'] + a) == sanitized(a),
{
    let tab = seq!['\t'];
    let two = seq![' ', ' '];
    let mark = seq!['\u{feff}'];
    assert(tab.drop_last() =~= Seq::empty());
    assert(expand_tabs(Seq::<char>::empty()) =~= Seq::empty());
    assert(expand_tabs(tab) =~= two);
    lemma_expanded(two);
    lemma_expanded(mark);
    lemma_expand(a + tab, b);
    lemma_expand(a, tab);
    lemma_expand(a + two, b);
    lemma_expand(a, two);
    lemma_expand(mark, a);
    let s = mark + expand_tabs(a);
    assert(s.drop_first() =~= expand_tabs(a));
    assert(skip_marks(s) == skip_marks(s.drop_first()));
}

/// Law: what is parsed are the candidates in their order, each made ready.
pub proof fn law_plan_texts(
    output: &str,
    r: Vec<String>,
    candidates: Vec<&str>,
    k: int,
    ready: String,
)
    requires
        call_ensures(plan_texts, (output,), r),
        call_ensures(extract_yaml_candidates, (output,), candidates),
        0 <= k < candidates@.len(),
        call_ensures(sanitize_yaml_candidate, (candidates@[k],), ready),
    ensures
        r@.len() == candidates@.len(),
        r@[k]@ == ready@,
{
    let texts = texts_of(candidates@);
    assert(views(r@).len() == texts.len());
    assert(views(r@)[k] == sanitized(texts[k]));
}

} // verus!
