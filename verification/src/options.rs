//! The options of a run: defaults, and what the command line says.

use uuid::Uuid;
use vstd::prelude::*;
use vstd::string::*;

use crate::command::default_options;
use crate::command::OptionsEnv;
use crate::command::OptionsView;
use crate::command::SubAgentOptions;
use crate::paths::join_path;
use crate::paths::path_join;
use crate::planner::primary_index;
use crate::planner::select_primary_agent;
use crate::schema::AgentSpec;
use crate::schema::copy_opt;
use crate::schema::copy_texts;
use crate::schema::AgentView;
use crate::schema::TaskFile;
use crate::text::lemma_views_push;
use crate::text::opt_view;
use crate::text::same_text;
use crate::text::views;

verus! {

/// The options of a run.
#[derive(Debug)]
pub struct RunnerOptions {
    pub run_id: String,
    pub base_run_dir: String,
    pub concurrency: usize,
    pub continue_on_error: bool,
    pub retries: u32,
    pub subagent: SubAgentOptions,
    pub dry_run: bool,
    pub default_cwd: Option<String>,
    /// Whether the dashboard is shown in place of progress messages.
    pub ui: bool,
    /// The layout of the dashboard: `tabbed` or `grid`. It is handed on to the dashboard.
    pub ui_layout: String,
}

/// The model of `RunnerOptions`.
#[verifier::ext_equal]
pub struct RunnerView {
    pub run_id: Seq<char>,
    pub base_run_dir: Seq<char>,
    pub concurrency: usize,
    pub continue_on_error: bool,
    pub retries: u32,
    pub subagent: OptionsView,
    pub dry_run: bool,
    pub default_cwd: Option<Seq<char>>,
    pub ui: bool,
    pub ui_layout: Seq<char>,
}

impl View for RunnerOptions {
    type V = RunnerView;

    open spec fn view(&self) -> RunnerView {
        RunnerView {
            run_id: self.run_id@,
            base_run_dir: self.base_run_dir@,
            concurrency: self.concurrency,
            continue_on_error: self.continue_on_error,
            retries: self.retries,
            subagent: self.subagent@,
            dry_run: self.dry_run,
            default_cwd: opt_view(self.default_cwd),
            ui: self.ui,
            ui_layout: self.ui_layout@,
        }
    }
}

impl Clone for RunnerOptions {
    fn clone(&self) -> (r: Self)
        ensures
            r@ == self@,
    {
        RunnerOptions {
            run_id: self.run_id.clone(),
            base_run_dir: self.base_run_dir.clone(),
            concurrency: self.concurrency,
            continue_on_error: self.continue_on_error,
            retries: self.retries,
            subagent: self.subagent.clone(),
            dry_run: self.dry_run,
            default_cwd: copy_opt(&self.default_cwd),
            ui: self.ui,
            ui_layout: self.ui_layout.clone(),
        }
    }
}

/// What a run takes from its surroundings.
#[derive(Debug)]
pub struct RunEnv {
    /// The home directory, where there is one.
    pub home: Option<String>,
    /// The current directory, where it is known.
    pub cwd: Option<String>,
    /// `CODEX_TASK_DEFAULT_CWD`
    pub default_cwd: Option<String>,
    pub options: OptionsEnv,
}

/// The directory of all runs.
pub open spec fn runs_dir(home: Option<Seq<char>>) -> Seq<char> {
    match home {
        Some(h) => join_path(join_path(h, ".codex"@), "task-runs"@),
        None => ".codex/task-runs"@,
    }
}

/// The directory of all runs.
pub fn default_base_run_dir(home: &Option<String>) -> (r: String)
    ensures
        r@ == runs_dir(opt_view(*home)),
{
    match home {
        Some(h) => path_join(path_join(h.as_str(), ".codex").as_str(), "task-runs"),
        None => ".codex/task-runs".to_owned(),
    }
}

/// Whether a text is a random UUID in its usual form: 36 characters, with hyphens between groups of
/// lower-case hexadecimal digits.
pub open spec fn is_run_id(s: Seq<char>) -> bool {
    &&& s.len() == 36
    &&& forall|i: int|
        0 <= i < 36 ==> if i == 8 || i == 13 || i == 18 || i == 23 {
            #[trigger] s[i] == '-'
        } else {
            ('0' <= s[i] <= '9') || ('a' <= s[i] <= 'f')
        }
    &&& s[14] == '4'
}

/// Trusted: `Uuid::new_v4` makes a random UUID, and its `to_string` writes it in hyphenated form
/// with lower-case digits. Which one comes is up to chance.
#[verifier::external_body]
fn fresh_run_id() -> (r: String)
    ensures
        is_run_id(r@),
{
    Uuid::new_v4().to_string()
}

/// The default options of a run with a given id.
pub open spec fn default_run(tf: TaskFile, run_id: Seq<char>, env: RunEnv) -> RunnerView {
    RunnerView {
        run_id,
        base_run_dir: join_path(runs_dir(opt_view(env.home)), run_id),
        concurrency: match tf.concurrency {
            Some(n) => n,
            None => 2,
        },
        continue_on_error: false,
        retries: 0,
        subagent: default_options(env.options),
        dry_run: false,
        default_cwd: Some(
            match env.cwd {
                Some(cwd) => cwd@,
                None => "."@,
            },
        ),
        ui: false,
        ui_layout: "tabbed"@,
    }
}

impl RunnerOptions {
    /// The default options of a run with a given id.
    pub fn with_run_id(tf: &TaskFile, run_id: String, env: &RunEnv) -> (r: Self)
        ensures
            r@ == default_run(*tf, run_id@, *env),
    {
        let base_run_dir = path_join(default_base_run_dir(&env.home).as_str(), run_id.as_str());
        RunnerOptions {
            run_id,
            base_run_dir,
            concurrency: match tf.concurrency {
                Some(n) => n,
                None => 2,
            },
            continue_on_error: false,
            retries: 0,
            subagent: SubAgentOptions::from_env(&env.options),
            dry_run: false,
            default_cwd: Some(
                match &env.cwd {
                    Some(cwd) => cwd.clone(),
                    None => ".".to_owned(),
                },
            ),
            ui: false,
            ui_layout: "tabbed".to_owned(),
        }
    }

    /// The default options of a run, with a fresh id.
    pub fn with_defaults_from_taskfile(tf: &TaskFile, env: &RunEnv) -> (r: Self)
        ensures
            is_run_id(r.run_id@),
            r@ == default_run(*tf, r.run_id@, *env),
    {
        RunnerOptions::with_run_id(tf, fresh_run_id(), env)
    }
}

/// What the command line says about a run.
#[derive(Debug)]
pub struct RunArgs {
    pub concurrency: usize,
    pub continue_on_error: bool,
    pub retries: u32,
    pub model: Option<String>,
    pub profile: Option<String>,
    pub sandbox: Option<String>,
    pub ask_for_approval: Option<String>,
    pub extra_args: Vec<String>,
    pub dry_run: bool,
    pub run_dir: Option<String>,
    pub time_budget_secs: Option<u64>,
    pub default_cwd: Option<String>,
    pub show_output: bool,
    pub skip_git_repo_check: bool,
    pub ui: bool,
    pub ui_layout: String,
}

/// The first one that is there.
pub open spec fn first_of(a: Option<Seq<char>>, b: Option<Seq<char>>) -> Option<Seq<char>> {
    if a is Some {
        a
    } else {
        b
    }
}

/// Sub-agent options with what the command line says put over them.
pub open spec fn overridden(base: OptionsView, args: RunArgs, task_md: Seq<char>) -> OptionsView {
    OptionsView {
        model: opt_view(args.model),
        profile: opt_view(args.profile),
        sandbox: opt_view(args.sandbox),
        ask_for_approval: opt_view(args.ask_for_approval),
        extra_args: base.extra_args + views(args.extra_args@) + (if args.skip_git_repo_check {
            seq!["--skip-git-repo-check"@]
        } else {
            seq![]
        }),
        time_budget_secs: args.time_budget_secs,
        show_output: base.show_output || args.show_output,
        task_md_full_text: Some(task_md),
        ..base
    }
}

/// Puts what the command line says over sub-agent options. `task_md` is the whole task file.
pub fn override_options(base: SubAgentOptions, args: &RunArgs, task_md: &str) -> (r: SubAgentOptions)
    ensures
        r@ == overridden(base@, *args, task_md@),
{
    let mut extra_args = copy_texts(&base.extra_args);
    let ghost given = views(extra_args@);
    let mut i: usize = 0;
    proof {
        assert(given + views(args.extra_args@).take(0) =~= given);
    }
    while i < args.extra_args.len()
        invariant
            i <= args.extra_args@.len(),
            views(extra_args@) == given + views(args.extra_args@).take(i as int),
        decreases args.extra_args@.len() - i,
    {
        broadcast use lemma_views_push;

        extra_args.push(args.extra_args[i].clone());
        proof {
            assert(views(args.extra_args@).take(i + 1) =~= views(args.extra_args@).take(
                i as int,
            ).push(args.extra_args@[i as int]@));
            assert(views(extra_args@) =~= given + views(args.extra_args@).take(i + 1));
        }
        i += 1;
    }
    let ghost most = extra_args@;
    if args.skip_git_repo_check {
        extra_args.push("--skip-git-repo-check".to_owned());
        proof {
            lemma_views_push(most, extra_args@.last());
            assert(extra_args@ =~= most.push(extra_args@.last()));
        }
    }
    let r = SubAgentOptions {
        codex_bin: base.codex_bin,
        model: copy_opt(&args.model),
        profile: copy_opt(&args.profile),
        sandbox: copy_opt(&args.sandbox),
        ask_for_approval: copy_opt(&args.ask_for_approval),
        extra_args,
        time_budget_secs: args.time_budget_secs,
        supports_approval_flag: base.supports_approval_flag,
        show_output: base.show_output || args.show_output,
        task_md_full_text: Some(task_md.to_owned()),
    };
    proof {
        assert(views(args.extra_args@).take(i as int) =~= views(args.extra_args@));
        assert(r@.extra_args =~= overridden(base@, *args, task_md@).extra_args);
    }
    r
}

/// The options for planning.
pub fn planning_options(args: &RunArgs, env: &RunEnv, task_md: &str) -> (r: SubAgentOptions)
    ensures
        r@ == overridden(default_options(env.options), *args, task_md@),
{
    override_options(SubAgentOptions::from_env(&env.options), args, task_md)
}

/// The working directory for planning: that of the command line or the environment, or else the
/// current one.
pub open spec fn planning_cwd_of(args: RunArgs, env: RunEnv) -> Seq<char> {
    match first_of(first_of(opt_view(args.default_cwd), opt_view(env.default_cwd)), opt_view(env.cwd)) {
        Some(cwd) => cwd,
        None => "."@,
    }
}

/// The working directory for planning.
pub fn planning_cwd(args: &RunArgs, env: &RunEnv) -> (r: String)
    ensures
        r@ == planning_cwd_of(*args, *env),
{
    match &args.default_cwd {
        Some(cwd) => cwd.clone(),
        None => match &env.default_cwd {
            Some(cwd) => cwd.clone(),
            None => match &env.cwd {
                Some(cwd) => cwd.clone(),
                None => ".".to_owned(),
            },
        },
    }
}

/// How many tasks the planner may propose: as many as the task file says, or else as many as may
/// run at a time.
pub fn planning_concurrency(tf: &TaskFile, args: &RunArgs) -> (r: Option<usize>)
    ensures
        r == (match tf.concurrency {
            Some(n) => Some(n),
            None => Some(args.concurrency),
        }),
{
    match tf.concurrency {
        Some(n) => Some(n),
        None => Some(args.concurrency),
    }
}

/// The options of a run with what the command line says put over the defaults. A directory given
/// for runs holds one directory for each run id; a working directory given on the command line or in
/// the environment takes the place of the current one.
pub open spec fn configured(base: RunnerView, args: RunArgs, env: RunEnv, task_md: Seq<char>) -> RunnerView {
    RunnerView {
        concurrency: args.concurrency,
        continue_on_error: args.continue_on_error,
        retries: args.retries,
        dry_run: args.dry_run,
        base_run_dir: match args.run_dir {
            Some(dir) => join_path(dir@, base.run_id),
            None => base.base_run_dir,
        },
        default_cwd: first_of(
            first_of(opt_view(args.default_cwd), opt_view(env.default_cwd)),
            base.default_cwd,
        ),
        subagent: overridden(base.subagent, args, task_md),
        ui: args.ui,
        ui_layout: args.ui_layout@,
        ..base
    }
}

/// Puts what the command line says over the options of a run.
pub fn configure(base: RunnerOptions, args: &RunArgs, env: &RunEnv, task_md: &str) -> (r:
    RunnerOptions)
    ensures
        r@ == configured(base@, *args, *env, task_md@),
        r.dry_run == args.dry_run,
        r.concurrency == args.concurrency,
        r.continue_on_error == args.continue_on_error,
        r.retries == args.retries,
        r.ui == args.ui,
        r.ui_layout@ == args.ui_layout@,
        r.run_id@ == base.run_id@,
        r.subagent.time_budget_secs == args.time_budget_secs,
        r.subagent.show_output == (base.subagent.show_output || args.show_output),
{
    let base_run_dir = match &args.run_dir {
        Some(dir) => path_join(dir.as_str(), base.run_id.as_str()),
        None => base.base_run_dir,
    };
    let default_cwd = match &args.default_cwd {
        Some(cwd) => Some(cwd.clone()),
        None => match &env.default_cwd {
            Some(cwd) => Some(cwd.clone()),
            None => base.default_cwd,
        },
    };
    RunnerOptions {
        run_id: base.run_id,
        base_run_dir,
        concurrency: args.concurrency,
        continue_on_error: args.continue_on_error,
        retries: args.retries,
        subagent: override_options(base.subagent, args, task_md),
        dry_run: args.dry_run,
        default_cwd,
        ui: args.ui,
        ui_layout: args.ui_layout.clone(),
    }
}

/// The roles for which agents are added.
pub open spec fn default_roles() -> Seq<Seq<char>> {
    seq!["backend"@, "frontend"@, "docs"@, "qa"@, "research"@, "devops"@, "tooling"@]
}

/// Whether an agent has an id.
pub open spec fn has_agent(agents: Seq<AgentView>, id: Seq<char>) -> bool {
    exists|i: int| 0 <= i < agents.len() && (#[trigger] agents[i]).id == id
}

/// The agents that are added for the first `n` roles: copies of a template, for each role that no
/// agent has.
pub open spec fn added_agents(agents: Seq<AgentView>, template: AgentView, n: int) -> Seq<AgentView>
    decreases n,
{
    if n <= 0 {
        seq![]
    } else {
        let before = added_agents(agents, template, n - 1);
        let id = default_roles()[n - 1];
        if has_agent(agents, id) {
            before
        } else {
            before.push(AgentView { id, ..template })
        }
    }
}

/// Adds an agent for each of the usual roles that the task file has none for, made after its primary
/// agent. A task file without agents stays as it is.
pub fn ensure_default_specialized_agents(tf: &mut TaskFile)
    ensures
        final(tf).version == old(tf).version,
        final(tf).objective == old(tf).objective,
        final(tf).tasks == old(tf).tasks,
        final(tf).concurrency == old(tf).concurrency,
        views(final(tf).agents@) == (if old(tf).agents@.len() == 0 {
            seq![]
        } else {
            views(old(tf).agents@) + added_agents(
                views(old(tf).agents@),
                old(tf).agents@[primary_index(old(tf).agents@)]@,
                7,
            )
        }),
{
    let base = match select_primary_agent(&tf.agents) {
        Some(a) => a.clone(),
        None => {
            assert(views(tf.agents@) =~= seq![]);
            return;
        },
    };
    let ghost given = views(tf.agents@);
    let ghost template = base@;
    let n: usize = tf.agents.len();
    let mut k: usize = 0;
    proof {
        assert(given + added_agents(given, template, 0) =~= given);
    }
    while k < 7
        invariant
            k <= 7,
            n == given.len(),
            n <= tf.agents@.len(),
            forall|i: int| 0 <= i < n ==> (#[trigger] tf.agents@[i])@ == given[i],
            template == base@,
            views(tf.agents@) == given + added_agents(given, template, k as int),
            tf.version == old(tf).version,
            tf.objective == old(tf).objective,
            tf.tasks == old(tf).tasks,
            tf.concurrency == old(tf).concurrency,
        decreases 7 - k,
    {
        let id = role(k);
        let mut present = false;
        let mut i: usize = 0;
        while i < n
            invariant
                i <= n,
                n == given.len(),
                n <= tf.agents@.len(),
                forall|j: int| 0 <= j < n ==> (#[trigger] tf.agents@[j])@ == given[j],
                present == exists|j: int| 0 <= j < i && (#[trigger] given[j]).id == id@,
            decreases n - i,
        {
            proof {
                assert(tf.agents@[i as int]@ == given[i as int]);
            }
            if same_text(tf.agents[i].id.as_str(), id) {
                assert(given[i as int].id == id@);
                present = true;
            }
            i += 1;
        }
        if !present {
            let ghost before = tf.agents@;
            let mut a = base.clone();
            a.id = id.to_owned();
            let ghost added = a@;
            tf.agents.push(a);
            proof {
                lemma_views_push(before, tf.agents@.last());
                assert(tf.agents@ =~= before.push(tf.agents@.last()));
                assert(added =~= AgentView { id: id@, ..template });
                assert(views(tf.agents@) =~= given + added_agents(given, template, k + 1));
            }
        }
        k += 1;
    }
}

/// The role at position `k`.
fn role(k: usize) -> (r: &'static str)
    requires
        k < 7,
    ensures
        r@ == default_roles()[k as int],
{
    if k == 0 {
        "backend"
    } else if k == 1 {
        "frontend"
    } else if k == 2 {
        "docs"
    } else if k == 3 {
        "qa"
    } else if k == 4 {
        "research"
    } else if k == 5 {
        "devops"
    } else {
        "tooling"
    }
}

proof fn lemma_added_has(agents: Seq<AgentView>, template: AgentView, n: int, k: int)
    requires
        0 <= k < n <= 7,
        !has_agent(agents, default_roles()[k]),
    ensures
        has_agent(added_agents(agents, template, n), default_roles()[k]),
    decreases n,
{
    let before = added_agents(agents, template, n - 1);
    let after = added_agents(agents, template, n);
    let id = default_roles()[k];
    if k < n - 1 {
        lemma_added_has(agents, template, n - 1, k);
        let i = choose|i: int| 0 <= i < before.len() && (#[trigger] before[i]).id == id;
        assert(after[i].id == id);
    } else {
        assert(after[before.len() as int].id == id);
    }
}

/// Law: a task file with agents has one for each of the usual roles once they were added.
pub proof fn law_roles_present(agents: Seq<AgentView>, template: AgentView, k: int)
    requires
        0 <= k < 7,
    ensures
        has_agent(agents + added_agents(agents, template, 7), default_roles()[k]),
{
    let added = added_agents(agents, template, 7);
    let all = agents + added;
    let id = default_roles()[k];
    if has_agent(agents, id) {
        let i = choose|i: int| 0 <= i < agents.len() && (#[trigger] agents[i]).id == id;
        assert(all[i].id == id);
    } else {
        lemma_added_has(agents, template, 7, k);
        let i = choose|i: int| 0 <= i < added.len() && (#[trigger] added[i]).id == id;
        assert(all[agents.len() + i].id == id);
    }
}

/// Law: adding agents for the usual roles a second time adds none.
pub proof fn law_roles_once(agents: Seq<AgentView>, template: AgentView, again: AgentView, n: int)
    requires
        0 <= n <= 7,
    ensures
        added_agents(agents + added_agents(agents, template, 7), again, n) == Seq::<
            AgentView,
        >::empty(),
    decreases n,
{
    if n > 0 {
        law_roles_once(agents, template, again, n - 1);
        law_roles_present(agents, template, n - 1);
    }
}

/// Law: what the command line says holds of the configured run, whatever the defaults were: whether
/// it is a dry run, how many tasks run at a time, whether it goes on after errors, how often tasks
/// are tried again, whether there is a dashboard, and which overrides and time limit sub-agents get.
pub proof fn law_command_line_counts(
    base: RunnerOptions,
    args: &RunArgs,
    env: &RunEnv,
    task_md: &str,
    r: RunnerOptions,
)
    requires
        call_ensures(configure, (base, args, env, task_md), r),
    ensures
        r.dry_run == args.dry_run,
        r.concurrency == args.concurrency,
        r.continue_on_error == args.continue_on_error,
        r.retries == args.retries,
        r.ui == args.ui,
        r.ui_layout@ == args.ui_layout@,
        r.run_id@ == base.run_id@,
        opt_view(r.subagent.model) == opt_view(args.model),
        opt_view(r.subagent.profile) == opt_view(args.profile),
        opt_view(r.subagent.sandbox) == opt_view(args.sandbox),
        opt_view(r.subagent.ask_for_approval) == opt_view(args.ask_for_approval),
        r.subagent.time_budget_secs == args.time_budget_secs,
        opt_view(r.subagent.task_md_full_text) == Some(task_md@),
        args.show_output ==> r.subagent.show_output,
        base.subagent.show_output ==> r.subagent.show_output,
        r.subagent.show_output ==> args.show_output || base.subagent.show_output,
{
}

/// Law: a directory for runs given on the command line holds one directory for each run id; else the
/// directory stays.
pub proof fn law_run_dir(
    base: RunnerOptions,
    args: &RunArgs,
    env: &RunEnv,
    task_md: &str,
    r: RunnerOptions,
)
    requires
        call_ensures(configure, (base, args, env, task_md), r),
    ensures
        args.run_dir matches Some(dir) ==> r.base_run_dir@ == join_path(dir@, base.run_id@),
        args.run_dir is None ==> r.base_run_dir@ == base.base_run_dir@,
{
    assert(r@.base_run_dir == r.base_run_dir@);
    assert(base@.run_id == base.run_id@);
}

/// Law: the working directory is that of the command line, or else that of the environment, or else
/// the one there was; for planning, the current one.
pub proof fn law_working_dir(
    base: RunnerOptions,
    args: &RunArgs,
    env: &RunEnv,
    task_md: &str,
    r: RunnerOptions,
    planning: String,
)
    requires
        call_ensures(configure, (base, args, env, task_md), r),
        call_ensures(planning_cwd, (args, env), planning),
    ensures
        args.default_cwd matches Some(d) ==> opt_view(r.default_cwd) == Some(d@) && planning@ == d@,
        args.default_cwd is None ==> (env.default_cwd matches Some(d) ==> opt_view(r.default_cwd)
            == Some(d@) && planning@ == d@),
        args.default_cwd is None && env.default_cwd is None ==> {
            &&& opt_view(r.default_cwd) == opt_view(base.default_cwd)
            &&& env.cwd matches Some(d) ==> planning@ == d@
            &&& env.cwd is None ==> planning@ == "."@
        },
{
    assert(r@.default_cwd == opt_view(r.default_cwd));
}

/// Law: the extra arguments are those from before, then those of the command line, then the one that
/// skips the check for a repository, where it is asked for.
pub proof fn law_extra_args(
    base: SubAgentOptions,
    args: &RunArgs,
    task_md: &str,
    r: SubAgentOptions,
    i: int,
)
    requires
        call_ensures(override_options, (base, args, task_md), r),
    ensures
        r.extra_args@.len() == base.extra_args@.len() + args.extra_args@.len() + (
        if args.skip_git_repo_check {
            1int
        } else {
            0int
        }),
        0 <= i < base.extra_args@.len() ==> r.extra_args@[i]@ == base.extra_args@[i]@,
        0 <= i < args.extra_args@.len() ==> r.extra_args@[base.extra_args@.len() + i]@
            == args.extra_args@[i]@,
        args.skip_git_repo_check ==> r.extra_args@.last()@ == "--skip-git-repo-check"@,
        opt_view(r.model) == opt_view(args.model),
        opt_view(r.profile) == opt_view(args.profile),
        opt_view(r.sandbox) == opt_view(args.sandbox),
        opt_view(r.ask_for_approval) == opt_view(args.ask_for_approval),
        r.time_budget_secs == args.time_budget_secs,
        r.codex_bin@ == base.codex_bin@,
        r.supports_approval_flag == base.supports_approval_flag,
        opt_view(r.task_md_full_text) == Some(task_md@),
        r.show_output == (args.show_output || base.show_output),
{
    let v = views(r.extra_args@);
    let a = views(base.extra_args@);
    let b = views(args.extra_args@);
    assert(r@.extra_args == v && base@.extra_args == a);
    assert(v.len() == r.extra_args@.len());
    if 0 <= i < a.len() {
        assert(v[i] == a[i]);
    }
    if 0 <= i < b.len() {
        assert(v[a.len() + i] == b[i]);
    }
    if args.skip_git_repo_check {
        assert(v[(a.len() + b.len()) as int] == "--skip-git-repo-check"@);
    }
}

/// Law: planning takes the options of the environment, with what the command line says put over
/// them, as a run does.
pub proof fn law_planning_options(
    args: &RunArgs,
    env: &RunEnv,
    task_md: &str,
    plain: SubAgentOptions,
    over: SubAgentOptions,
    r: SubAgentOptions,
)
    requires
        call_ensures(planning_options, (args, env, task_md), r),
        call_ensures(SubAgentOptions::from_env, (&env.options,), plain),
        call_ensures(override_options, (plain, args, task_md), over),
    ensures
        r@ == over@,
        opt_view(r.model) == opt_view(args.model),
        opt_view(r.profile) == opt_view(args.profile),
        opt_view(r.sandbox) == opt_view(args.sandbox),
        opt_view(r.ask_for_approval) == opt_view(args.ask_for_approval),
        r.time_budget_secs == args.time_budget_secs,
        r.codex_bin@ == plain.codex_bin@,
{
    assert(r@.model == opt_view(r.model) && r@.codex_bin == plain@.codex_bin);
}

/// Law: what the task file says of concurrency counts for planning, and else the command line.
pub proof fn law_planning_concurrency(tf: &TaskFile, args: &RunArgs, r: Option<usize>)
    requires
        call_ensures(planning_concurrency, (tf, args), r),
    ensures
        r is Some,
        tf.concurrency is Some ==> r == tf.concurrency,
        tf.concurrency is None ==> r == Some(args.concurrency),
{
}

/// Law: by default a run has its own directory below `.codex/task-runs` in the home directory, takes
/// its concurrency from the task file, tries no task again, stops after errors, is no dry run and
/// shows no dashboard; two tasks run at a time where the file says nothing.
pub proof fn law_default_run(
    tf: &TaskFile,
    run_id: String,
    env: &RunEnv,
    r: RunnerOptions,
    plain: SubAgentOptions,
)
    requires
        call_ensures(RunnerOptions::with_run_id, (tf, run_id, env), r),
        call_ensures(SubAgentOptions::from_env, (&env.options,), plain),
    ensures
        r.run_id@ == run_id@,
        env.home matches Some(h) ==> r.base_run_dir@ == join_path(
            join_path(join_path(h@, ".codex"@), "task-runs"@),
            run_id@,
        ),
        env.home is None ==> r.base_run_dir@ == join_path(".codex/task-runs"@, run_id@),
        tf.concurrency matches Some(n) ==> r.concurrency == n,
        tf.concurrency is None ==> r.concurrency == 2,
        !r.continue_on_error,
        r.retries == 0,
        !r.dry_run,
        !r.ui,
        r.ui_layout@ == "tabbed"@,
        env.cwd matches Some(d) ==> opt_view(r.default_cwd) == Some(d@),
        env.cwd is None ==> opt_view(r.default_cwd) == Some("."@),
        r.subagent@ == plain@,
{
    assert(r@.run_id == r.run_id@ && r@.base_run_dir == r.base_run_dir@ && r@.default_cwd
        == opt_view(r.default_cwd) && r@.ui_layout == r.ui_layout@);
    assert(r@.concurrency == r.concurrency && r@.retries == r.retries && r@.dry_run == r.dry_run);
}

/// Law: the directory of all runs is `.codex/task-runs` below the home directory, or below the
/// current one where there is none.
pub proof fn law_runs_dir(home: Option<String>, r: String)
    requires
        call_ensures(default_base_run_dir, (&home,), r),
    ensures
        home is None ==> r@ == ".codex/task-runs"@,
        home matches Some(h) ==> (h@.len() > 0 && h@.last() != '/' ==> r@ == h@ + "/.codex/task-runs"@),
{
    reveal_strlit(".codex/task-runs");
    reveal_strlit("/.codex/task-runs");
    reveal_strlit(".codex");
    reveal_strlit("task-runs");
    reveal_strlit("/");
    match home {
        Some(h) => {
            if h@.len() > 0 && h@.last() != '/' {
                assert(".codex"@.take(1)[0] == '.');
                assert("task-runs"@.take(1)[0] == 't');
                assert("/"@[0] == '/');
                let inner = join_path(h@, ".codex"@);
                assert(inner =~= h@ + "/"@ + ".codex"@);
                assert(inner.last() == 'x');
                assert(r@ =~= h@ + "/.codex/task-runs"@);
            }
        },
        None => {},
    }
}

/// Law: an agent that is added has a usual role that no agent had, and is else the template; no role
/// is added twice.
pub proof fn law_added_agents(agents: Seq<AgentView>, template: AgentView, n: int, i: int, j: int)
    requires
        0 <= n <= 7,
        0 <= i < j < added_agents(agents, template, n).len(),
    ensures
        added_agents(agents, template, n)[i].id != added_agents(agents, template, n)[j].id,
{
    let (a, b) = lemma_added(agents, template, n, i, j);
    lemma_roles(a, b);
}

/// Law: an agent that is added is the template but for its id, which is a usual role that no agent
/// had.
pub proof fn law_added_agent(agents: Seq<AgentView>, template: AgentView, n: int, i: int)
    requires
        0 <= n <= 7,
        0 <= i < added_agents(agents, template, n).len(),
    ensures
        ({
            let a = added_agents(agents, template, n)[i];
            &&& a == AgentView { id: a.id, ..template }
            &&& a.id == "backend"@ || a.id == "frontend"@ || a.id == "docs"@ || a.id == "qa"@
                || a.id == "research"@ || a.id == "devops"@ || a.id == "tooling"@
            &&& forall|k: int| 0 <= k < agents.len() ==> (#[trigger] agents[k]).id != a.id
        }),
    decreases n,
{
    if n > 0 {
        let before = added_agents(agents, template, n - 1);
        if i < before.len() {
            law_added_agent(agents, template, n - 1, i);
        } else {
            assert(!has_agent(agents, default_roles()[n - 1]));
            assert(0 <= n - 1 < 7);
        }
    }
}

/// Which roles two added agents have.
proof fn lemma_added(agents: Seq<AgentView>, template: AgentView, n: int, i: int, j: int) -> (r: (
    int,
    int,
))
    requires
        0 <= n <= 7,
        0 <= i < j < added_agents(agents, template, n).len(),
    ensures
        0 <= r.0 < r.1 < n,
        added_agents(agents, template, n)[i].id == default_roles()[r.0],
        added_agents(agents, template, n)[j].id == default_roles()[r.1],
    decreases n,
{
    let before = added_agents(agents, template, n - 1);
    if j < before.len() {
        lemma_added(agents, template, n - 1, i, j)
    } else {
        let a = lemma_added_role(agents, template, n - 1, i);
        (a, n - 1)
    }
}

/// Which role an added agent has.
proof fn lemma_added_role(agents: Seq<AgentView>, template: AgentView, n: int, i: int) -> (a: int)
    requires
        0 <= n <= 7,
        0 <= i < added_agents(agents, template, n).len(),
    ensures
        0 <= a < n,
        added_agents(agents, template, n)[i].id == default_roles()[a],
    decreases n,
{
    if i < added_agents(agents, template, n - 1).len() {
        lemma_added_role(agents, template, n - 1, i)
    } else {
        n - 1
    }
}

/// The usual roles differ.
proof fn lemma_roles(a: int, b: int)
    requires
        0 <= a < b < 7,
    ensures
        default_roles()[a] != default_roles()[b],
{
    reveal_strlit("backend");
    reveal_strlit("frontend");
    reveal_strlit("docs");
    reveal_strlit("qa");
    reveal_strlit("research");
    reveal_strlit("devops");
    reveal_strlit("tooling");
    let r = default_roles();
    assert(r[0].len() == 7 && r[1].len() == 8 && r[2].len() == 4 && r[3].len() == 2 && r[4].len()
        == 8 && r[5].len() == 6 && r[6].len() == 7);
    assert(r[0][0] == 'b' && r[6][0] == 't' && r[1][0] == 'f' && r[4][0] == 'r');
}

/// Law: a task file keeps its agents as they are, and gets one more for each usual role that it has none
/// for, like its primary agent but for the id. One without agents stays as it is. Nothing else changes.
pub proof fn law_agents_added(tf: &mut TaskFile, r: (), primary: Option<&AgentSpec>, i: int, k: int)
    requires
        call_ensures(ensure_default_specialized_agents, (tf,), r),
        call_ensures(select_primary_agent, (&old(tf).agents,), primary),
    ensures
        final(tf).tasks == old(tf).tasks,
        final(tf).objective == old(tf).objective,
        final(tf).version == old(tf).version,
        final(tf).concurrency == old(tf).concurrency,
        old(tf).agents@.len() == 0 ==> final(tf).agents@.len() == 0,
        0 <= i < old(tf).agents@.len() ==> i < final(tf).agents@.len() && final(tf).agents@[i]@
            == old(tf).agents@[i]@,
        old(tf).agents@.len() > 0 && 0 <= k < 7 ==> has_agent(
            views(final(tf).agents@),
            default_roles()[k],
        ),
        0 < old(tf).agents@.len() <= i < final(tf).agents@.len() ==> primary is Some
            && final(tf).agents@[i]@ == (AgentView {
            id: final(tf).agents@[i]@.id,
            ..primary->0@
        }),
{
    let given = views(old(tf).agents@);
    let all = views(final(tf).agents@);
    assert(given.len() == old(tf).agents@.len() && all.len() == final(tf).agents@.len());
    if given.len() > 0 {
        let template = old(tf).agents@[primary_index(old(tf).agents@)]@;
        let added = added_agents(given, template, 7);
        if 0 <= i < given.len() {
            assert(all[i] == given[i]);
            assert(final(tf).agents@[i]@ == all[i]);
        }
        if 0 <= k < 7 {
            law_roles_present(given, template, k);
        }
        if given.len() <= i < all.len() {
            law_added_agent(given, template, 7, i - given.len());
            assert(all[i] == added[i - given.len()]);
            assert(final(tf).agents@[i]@ == all[i]);
        }
    }
}

} // verus!
