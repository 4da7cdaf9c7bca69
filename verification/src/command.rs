//! The command line that starts a sub-agent.

use vstd::prelude::*;
use vstd::string::*;

use crate::interagent::PROTOCOL_PRIMER;
use crate::schema::copy_env;
use crate::schema::copy_opt;
use crate::schema::copy_texts;
use crate::schema::env_view;
use crate::schema::AgentSpec;
use crate::schema::AgentView;
use crate::schema::TaskSpec;
use crate::schema::TaskView;
use crate::strmap::StrMap;
use crate::text::ascii_lower;
use crate::text::join;
use crate::text::joined;
use crate::text::lemma_views_push;
use crate::text::opt_view;
use crate::text::same_but_case;
use crate::text::same_ignoring_case;
use crate::text::same_text;
use crate::text::starts_with;
use crate::text::views;
use crate::text::words;
use crate::text::words_of;

verus! {

/// How sub-agents are run.
#[derive(Debug)]
pub struct SubAgentOptions {
    /// The program that is run as a sub-agent.
    pub codex_bin: String,
    /// Taken in place of the agent's model.
    pub model: Option<String>,
    /// Taken in place of the agent's profile.
    pub profile: Option<String>,
    /// Taken in place of the agent's sandbox.
    pub sandbox: Option<String>,
    /// Taken in place of the agent's approval mode.
    pub ask_for_approval: Option<String>,
    /// Further arguments for every sub-agent.
    pub extra_args: Vec<String>,
    /// The time limit of tasks that have none of their own.
    pub time_budget_secs: Option<u64>,
    /// Whether the program knows `--ask-for-approval`, where that was found out.
    pub supports_approval_flag: Option<bool>,
    /// Whether the output of sub-agents is printed as it comes.
    pub show_output: bool,
    /// The whole task file, which sub-agents are given as context.
    pub task_md_full_text: Option<String>,
}

/// The model of `SubAgentOptions`.
#[verifier::ext_equal]
pub struct OptionsView {
    pub codex_bin: Seq<char>,
    pub model: Option<Seq<char>>,
    pub profile: Option<Seq<char>>,
    pub sandbox: Option<Seq<char>>,
    pub ask_for_approval: Option<Seq<char>>,
    pub extra_args: Seq<Seq<char>>,
    pub time_budget_secs: Option<u64>,
    pub supports_approval_flag: Option<bool>,
    pub show_output: bool,
    pub task_md_full_text: Option<Seq<char>>,
}

impl View for SubAgentOptions {
    type V = OptionsView;

    open spec fn view(&self) -> OptionsView {
        OptionsView {
            codex_bin: self.codex_bin@,
            model: opt_view(self.model),
            profile: opt_view(self.profile),
            sandbox: opt_view(self.sandbox),
            ask_for_approval: opt_view(self.ask_for_approval),
            extra_args: views(self.extra_args@),
            time_budget_secs: self.time_budget_secs,
            supports_approval_flag: self.supports_approval_flag,
            show_output: self.show_output,
            task_md_full_text: opt_view(self.task_md_full_text),
        }
    }
}

impl Clone for SubAgentOptions {
    fn clone(&self) -> (r: Self)
        ensures
            r@ == self@,
    {
        SubAgentOptions {
            codex_bin: self.codex_bin.clone(),
            model: copy_opt(&self.model),
            profile: copy_opt(&self.profile),
            sandbox: copy_opt(&self.sandbox),
            ask_for_approval: copy_opt(&self.ask_for_approval),
            extra_args: copy_texts(&self.extra_args),
            time_budget_secs: self.time_budget_secs,
            supports_approval_flag: self.supports_approval_flag,
            show_output: self.show_output,
            task_md_full_text: copy_opt(&self.task_md_full_text),
        }
    }
}

/// The values of the environment variables that set the default options.
#[derive(Debug)]
pub struct OptionsEnv {
    /// `CODEX_TASK_EXTRA_ARGS`
    pub extra_args: Option<String>,
    /// `CODEX_TASK_SUBAGENT_BIN`
    pub subagent_bin: Option<String>,
    /// `CODEX_TASK_SHOW_OUTPUT`
    pub show_output: Option<String>,
}

/// The default options: sub-agents write to their workspace only, may use the network, ask for no
/// approval, and need no trusted git repository.
pub open spec fn default_options(env: OptionsEnv) -> OptionsView {
    OptionsView {
        codex_bin: match env.subagent_bin {
            Some(bin) => bin@,
            None => "codex"@,
        },
        model: None,
        profile: None,
        sandbox: Some("workspace-write"@),
        ask_for_approval: Some("never"@),
        extra_args: (match env.extra_args {
            Some(args) => words(args@),
            None => seq![],
        }) + seq![
            "--skip-git-repo-check"@,
            "-c"@,
            "sandbox_workspace_write.network_access=true"@,
        ],
        time_budget_secs: None,
        supports_approval_flag: None,
        show_output: match env.show_output {
            Some(v) => v@ == "1"@ || same_but_case(v@, "true"@),
            None => false,
        },
        task_md_full_text: None,
    }
}

impl SubAgentOptions {
    /// The default options, as the environment sets them.
    pub fn from_env(env: &OptionsEnv) -> (r: Self)
        ensures
            r@ == default_options(*env),
    {
        broadcast use lemma_views_push;

        let mut extra_args: Vec<String> = match &env.extra_args {
            Some(args) => words_of(args.as_str()),
            None => Vec::new(),
        };
        let ghost given = views(extra_args@);
        extra_args.push("--skip-git-repo-check".to_owned());
        extra_args.push("-c".to_owned());
        extra_args.push("sandbox_workspace_write.network_access=true".to_owned());
        let r = SubAgentOptions {
            codex_bin: match &env.subagent_bin {
                Some(bin) => bin.clone(),
                None => "codex".to_owned(),
            },
            model: None,
            profile: None,
            sandbox: Some("workspace-write".to_owned()),
            ask_for_approval: Some("never".to_owned()),
            extra_args,
            time_budget_secs: None,
            supports_approval_flag: None,
            show_output: match &env.show_output {
                Some(v) => same_text(v.as_str(), "1") || same_ignoring_case(v.as_str(), "true"),
                None => false,
            },
            task_md_full_text: None,
        };
        proof {
            assert(r@ =~= default_options(*env));
        }
        r
    }
}

/// A process to start: a program, its arguments, its working directory and the environment
/// variables that are set for it. Its standard streams are pipes.
#[derive(Debug)]
pub struct CommandSpec {
    pub program: String,
    pub args: Vec<String>,
    pub cwd: String,
    pub env: StrMap<String>,
}

/// The model of a `CommandSpec`.
#[verifier::ext_equal]
pub struct CommandView {
    pub program: Seq<char>,
    pub args: Seq<Seq<char>>,
    pub cwd: Seq<char>,
    pub env: Map<Seq<char>, Seq<char>>,
}

impl View for CommandSpec {
    type V = CommandView;

    open spec fn view(&self) -> CommandView {
        CommandView {
            program: self.program@,
            args: views(self.args@),
            cwd: self.cwd@,
            env: env_view(self.env@),
        }
    }
}

/// The environment variables of a sub-agent: those of the task win over those of the agent.
pub open spec fn merged_env(agent: AgentView, task: TaskView) -> Map<Seq<char>, Seq<char>> {
    agent.env.union_prefer_right(task.env)
}

/// Merges the environment variables of a task over those of its agent.
pub fn merge_envs(agent: &AgentSpec, task: &TaskSpec) -> (r: StrMap<String>)
    ensures
        env_view(r@) == merged_env(agent@, task@),
{
    let mut envs = copy_env(&agent.env);
    let n: usize = task.env.len();
    let mut i: usize = 0;
    let ghost keys = task.env.keys();
    let ghost base = env_view(agent.env@);
    let ghost over = env_view(task.env@);
    proof {
        assert(base.union_prefer_right(over.restrict(keys.take(0).to_set())) =~= base);
    }
    while i < n
        invariant
            i <= n,
            n == keys.len(),
            keys == task.env.keys(),
            task.env@.dom() == keys.to_set(),
            over == env_view(task.env@),
            base == env_view(agent.env@),
            env_view(envs@) == base.union_prefer_right(over.restrict(keys.take(i as int).to_set())),
        decreases n - i,
    {
        let k = task.env.key_at(i);
        let v = task.env.value_at(i);
        let ghost before = env_view(envs@);
        envs.insert(k.clone(), v.clone());
        proof {
            let a = keys.take(i as int);
            let b = keys.take(i + 1);
            assert(b =~= a.push(k@));
            assert(b.to_set() =~= a.to_set().insert(k@)) by {
                assert(b[i as int] == k@);
                assert forall|q: Seq<char>| a.to_set().contains(q) implies b.to_set().contains(q) by {
                    let j = a.index_of(q);
                    assert(b[j] == q);
                }
                assert forall|q: Seq<char>| b.to_set().contains(q) implies a.to_set().insert(
                    k@,
                ).contains(q) by {
                    let j = b.index_of(q);
                    if j < i {
                        assert(a[j] == q);
                    }
                }
            }
            assert(env_view(envs@) =~= before.insert(k@, v@));
            assert(over[k@] == v@);
            assert(env_view(envs@) =~= base.union_prefer_right(over.restrict(b.to_set())));
        }
        i += 1;
    }
    proof {
        assert(keys.take(i as int) =~= keys);
        assert(over.restrict(keys.to_set()) =~= over);
    }
    envs
}

/// What an agent is told about its role.
pub open spec fn role_text(agent_id: Seq<char>) -> Seq<char> {
    if agent_id == "backend"@ {
        "You are an expert backend engineer. Design, implement, and test server-side logic and APIs. Follow repo conventions, keep changes minimally scoped, and respect boundaries defined in the task. Prefer reliability, tests, and clear docs."@
    } else if agent_id == "frontend"@ {
        "You are an expert frontend engineer. Implement UI with accessibility, responsiveness, and clean state management. Follow the code style and component patterns in this repo. Keep changes scoped to the task."@
    } else if agent_id == "docs"@ {
        "You are a technical writer. Produce clear, concise documentation with accurate examples. Maintain consistent tone and structure. Update any relevant README or docs sections coherently."@
    } else if agent_id == "qa"@ {
        "You are a quality engineer. Design and implement tests that validate behavior and guard against regressions. Prefer fast, deterministic tests and meaningful assertions."@
    } else if agent_id == "research"@ {
        "You are a research engineer. Investigate, compare options, and summarize trade-offs concisely. Provide actionable recommendations and next steps grounded in evidence."@
    } else if agent_id == "devops"@ {
        "You are a DevOps/SRE engineer. Improve build, CI/CD, and runtime reliability with minimal, safe changes. Favor observability, repeatability, and principle of least privilege."@
    } else if agent_id == "tooling"@ {
        "You are a tooling engineer. Enhance developer experience with safe, incremental changes to build scripts, linters, and CLIs. Keep the toolchain simple and well-documented."@
    } else if agent_id == "primary"@ {
        "You are a lead full-stack engineer. Break down work, make pragmatic choices, and deliver incremental value. Keep changes scoped and well-tested."@
    } else {
        "You are an expert software engineer. Work pragmatically, keep changes scoped, and adhere to repo conventions and tests."@
    }
}

/// What an agent is told before its task.
pub open spec fn primer_text(agent_id: Seq<char>) -> Seq<char> {
    role_text(agent_id) + "\n\n"@ + PROTOCOL_PRIMER@
}

/// What an agent is told before its task.
pub fn agent_primer(agent_id: &str) -> (r: String)
    ensures
        r@ == primer_text(agent_id@),
{
    let role = if same_text(agent_id, "backend") {
        "You are an expert backend engineer. Design, implement, and test server-side logic and APIs. Follow repo conventions, keep changes minimally scoped, and respect boundaries defined in the task. Prefer reliability, tests, and clear docs."
    } else if same_text(agent_id, "frontend") {
        "You are an expert frontend engineer. Implement UI with accessibility, responsiveness, and clean state management. Follow the code style and component patterns in this repo. Keep changes scoped to the task."
    } else if same_text(agent_id, "docs") {
        "You are a technical writer. Produce clear, concise documentation with accurate examples. Maintain consistent tone and structure. Update any relevant README or docs sections coherently."
    } else if same_text(agent_id, "qa") {
        "You are a quality engineer. Design and implement tests that validate behavior and guard against regressions. Prefer fast, deterministic tests and meaningful assertions."
    } else if same_text(agent_id, "research") {
        "You are a research engineer. Investigate, compare options, and summarize trade-offs concisely. Provide actionable recommendations and next steps grounded in evidence."
    } else if same_text(agent_id, "devops") {
        "You are a DevOps/SRE engineer. Improve build, CI/CD, and runtime reliability with minimal, safe changes. Favor observability, repeatability, and principle of least privilege."
    } else if same_text(agent_id, "tooling") {
        "You are a tooling engineer. Enhance developer experience with safe, incremental changes to build scripts, linters, and CLIs. Keep the toolchain simple and well-documented."
    } else if same_text(agent_id, "primary") {
        "You are a lead full-stack engineer. Break down work, make pragmatic choices, and deliver incremental value. Keep changes scoped and well-tested."
    } else {
        "You are an expert software engineer. Work pragmatically, keep changes scoped, and adhere to repo conventions and tests."
    };
    let mut r = role.to_owned();
    r.append("\n\n");
    r.append(PROTOCOL_PRIMER);
    r
}

/// All that a sub-agent is told: its role, the task file as context, its task, and the guidance
/// given to it since.
pub open spec fn full_instructions(
    agent_id: Seq<char>,
    task_md: Option<Seq<char>>,
    instructions: Seq<char>,
    guidance: Seq<Seq<char>>,
) -> Seq<char> {
    let context = match task_md {
        Some(md) => "\n\nProject context (task.md):\n```md\n"@ + md + "\n```"@,
        None => seq![],
    };
    let base = primer_text(agent_id) + context + "\n\nYour task:\n"@ + instructions;
    if guidance.len() == 0 {
        base
    } else {
        base + "\n\nAdditional guidance (prior attempts preserved):\n"@ + join(guidance, "\n\n"@)
    }
}

/// All that a sub-agent is told.
pub fn final_instructions(
    agent_id: &str,
    task_md: &Option<String>,
    instructions: &str,
    guidance: &Vec<String>,
) -> (r: String)
    ensures
        r@ == full_instructions(agent_id@, opt_view(*task_md), instructions@, views(guidance@)),
{
    let mut r = agent_primer(agent_id);
    let ghost primer = r@;
    match task_md {
        Some(md) => {
            r.append("\n\nProject context (task.md):\n```md\n");
            r.append(md.as_str());
            r.append("\n```");
            proof {
                assert(r@ =~= primer + ("\n\nProject context (task.md):\n```md\n"@ + md@
                    + "\n```"@));
            }
        },
        None => {
            proof {
                assert(r@ =~= primer + Seq::<char>::empty());
            }
        },
    }
    r.append("\n\nYour task:\n");
    r.append(instructions);
    if guidance.len() > 0 {
        r.append("\n\nAdditional guidance (prior attempts preserved):\n");
        r.append(joined(guidance, "\n\n").as_str());
    }
    r
}

/// The first choice where there is one, else the second.
pub open spec fn either(a: Option<Seq<char>>, b: Option<Seq<char>>) -> Option<Seq<char>> {
    if a is Some {
        a
    } else {
        b
    }
}

/// The arguments for a flag that may have a value.
pub open spec fn flag_args(flag: Seq<char>, value: Option<Seq<char>>) -> Seq<Seq<char>> {
    match value {
        Some(v) => seq![flag, v],
        None => seq![],
    }
}

/// The arguments of a sub-agent.
pub open spec fn command_args(
    agent: AgentView,
    task: TaskView,
    opts: OptionsView,
    guidance: Seq<Seq<char>>,
) -> Seq<Seq<char>> {
    seq!["exec"@, "--full-auto"@] + flag_args("--model"@, either(opts.model, agent.model))
        + flag_args("--profile"@, either(opts.profile, agent.profile)) + flag_args(
        "--sandbox"@,
        either(opts.sandbox, agent.sandbox),
    ) + (if opts.supports_approval_flag == Some(true) {
        flag_args(
            "--ask-for-approval"@,
            either(opts.ask_for_approval, agent.ask_for_approval),
        )
    } else {
        seq![]
    }) + opts.extra_args + seq![
        full_instructions(agent.id, opts.task_md_full_text, task.instructions, guidance),
    ]
}

/// The command that starts a sub-agent for a task.
pub open spec fn command_for(
    workdir: Seq<char>,
    agent: AgentView,
    task: TaskView,
    opts: OptionsView,
    guidance: Seq<Seq<char>>,
) -> CommandView {
    CommandView {
        program: opts.codex_bin,
        args: command_args(agent, task, opts, guidance),
        cwd: workdir,
        env: merged_env(agent, task),
    }
}

/// Appends a flag and its value, where the options or the agent give one.
fn push_flag(
    args: &mut Vec<String>,
    flag: &str,
    first: &Option<String>,
    second: &Option<String>,
)
    ensures
        views(final(args)@) == views(old(args)@) + flag_args(
            flag@,
            either(opt_view(*first), opt_view(*second)),
        ),
{
    broadcast use lemma_views_push;

    let ghost before = views(args@);
    let value = match first {
        Some(v) => Some(v),
        None => match second {
            Some(v) => Some(v),
            None => None,
        },
    };
    if let Some(v) = value {
        args.push(flag.to_owned());
        args.push(v.clone());
        proof {
            assert(views(args@) =~= before + seq![flag@, v@]);
        }
    } else {
        proof {
            assert(views(args@) =~= before + Seq::<Seq<char>>::empty());
        }
    }
}

/// Builds the command that starts a sub-agent for a task. `guidance` is what the sub-agent is told
/// on top of its instructions.
pub fn build_command(
    workdir: &str,
    agent: &AgentSpec,
    task: &TaskSpec,
    opts: &SubAgentOptions,
    guidance: &Vec<String>,
) -> (r: CommandSpec)
    ensures
        r@ == command_for(workdir@, agent@, task@, opts@, views(guidance@)),
{
    broadcast use lemma_views_push;

    let mut args: Vec<String> = Vec::new();
    args.push("exec".to_owned());
    args.push("--full-auto".to_owned());
    proof {
        assert(views(args@) =~= seq!["exec"@, "--full-auto"@]);
    }
    push_flag(&mut args, "--model", &opts.model, &agent.model);
    push_flag(&mut args, "--profile", &opts.profile, &agent.profile);
    push_flag(&mut args, "--sandbox", &opts.sandbox, &agent.sandbox);
    let ghost before = views(args@);
    if opts.supports_approval_flag == Some(true) {
        push_flag(
            &mut args,
            "--ask-for-approval",
            &opts.ask_for_approval,
            &agent.ask_for_approval,
        );
    } else {
        proof {
            assert(before =~= before + Seq::<Seq<char>>::empty());
        }
    }
    let ghost flags = views(args@);
    let mut i: usize = 0;
    proof {
        assert(flags + views(opts.extra_args@).take(0) =~= flags);
    }
    while i < opts.extra_args.len()
        invariant
            i <= opts.extra_args@.len(),
            views(args@) == flags + views(opts.extra_args@).take(i as int),
        decreases opts.extra_args@.len() - i,
    {
        let ghost had = args@;
        args.push(opts.extra_args[i].clone());
        proof {
            lemma_views_push(had, args@.last());
            assert(args@ =~= had.push(args@.last()));
            assert(views(opts.extra_args@).take(i + 1) =~= views(opts.extra_args@).take(
                i as int,
            ).push(opts.extra_args@[i as int]@));
            assert(views(args@) =~= flags + views(opts.extra_args@).take(i + 1));
        }
        i += 1;
    }
    proof {
        assert(views(opts.extra_args@).take(i as int) =~= views(opts.extra_args@));
    }
    let ghost most = views(args@);
    args.push(
        final_instructions(
            agent.id.as_str(),
            &opts.task_md_full_text,
            task.instructions.as_str(),
            guidance,
        ),
    );
    proof {
        assert(views(args@) =~= command_args(agent@, task@, opts@, views(guidance@)));
    }
    CommandSpec {
        program: opts.codex_bin.clone(),
        args,
        cwd: workdir.to_owned(),
        env: merge_envs(agent, task),
    }
}

/// Whether the first `n` arguments hold a flag with a value, after the two fixed ones.
pub open spec fn gives(args: Seq<Seq<char>>, n: int, flag: Seq<char>, value: Seq<char>) -> bool {
    exists|i: int| 2 <= i && i + 1 < n && i % 2 == 0 && #[trigger] args[i] == flag && args[i + 1] == value
}

proof fn lemma_gives(args: Seq<Seq<char>>, n: int, flag: Seq<char>, value: Seq<char>, i: int)
    requires
        2 <= i,
        i + 1 < n,
        i % 2 == 0,
        args[i] == flag,
        args[i + 1] == value,
    ensures
        gives(args, n, flag, value),
{
}

/// Law: a model, profile, sandbox or approval mode of the options wins over that of the agent, and
/// the agent's counts where the options have none; the approval mode is given only to a program that
/// knows it. No other flags stand between the fixed arguments and the extra ones, which come as they
/// are, and the instructions come last.
pub proof fn law_overrides_win(
    workdir: &str,
    agent: &AgentSpec,
    task: &TaskSpec,
    opts: &SubAgentOptions,
    guidance: &Vec<String>,
    r: CommandSpec,
)
    requires
        call_ensures(build_command, (workdir, agent, task, opts, guidance), r),
    ensures
        ({
            let args = views(r.args@);
            let n = args.len() - 1 - opts.extra_args@.len();
            let approvals = opts.supports_approval_flag == Some(true);
            &&& r.program@ == opts.codex_bin@
            &&& r.cwd@ == workdir@
            &&& n >= 2
            &&& args[0] == "exec"@
            &&& args[1] == "--full-auto"@
            &&& opts.model matches Some(v) ==> gives(args, n, "--model"@, v@)
            &&& opts.model is None ==> (agent.model matches Some(v) ==> gives(
                args,
                n,
                "--model"@,
                v@,
            ))
            &&& opts.profile matches Some(v) ==> gives(args, n, "--profile"@, v@)
            &&& opts.profile is None ==> (agent.profile matches Some(v) ==> gives(
                args,
                n,
                "--profile"@,
                v@,
            ))
            &&& opts.sandbox matches Some(v) ==> gives(args, n, "--sandbox"@, v@)
            &&& opts.sandbox is None ==> (agent.sandbox matches Some(v) ==> gives(
                args,
                n,
                "--sandbox"@,
                v@,
            ))
            &&& approvals ==> (opts.ask_for_approval matches Some(v) ==> gives(
                args,
                n,
                "--ask-for-approval"@,
                v@,
            ))
            &&& approvals && opts.ask_for_approval is None ==> (
            agent.ask_for_approval matches Some(v) ==> gives(args, n, "--ask-for-approval"@, v@))
            &&& n == 2 + (if opts.model is Some || agent.model is Some { 2int } else { 0 }) + (
            if opts.profile is Some || agent.profile is Some { 2int } else { 0 }) + (
            if opts.sandbox is Some || agent.sandbox is Some { 2int } else { 0 }) + (
            if approvals && (opts.ask_for_approval is Some || agent.ask_for_approval is Some) {
                2int
            } else {
                0
            })
            &&& forall|k: int|
                0 <= k < opts.extra_args@.len() ==> #[trigger] args[n + k] == opts.extra_args@[k]@
        }),
{
    let args = views(r.args@);
    let model = either(opt_view(opts.model), opt_view(agent.model));
    let profile = either(opt_view(opts.profile), opt_view(agent.profile));
    let sandbox = either(opt_view(opts.sandbox), opt_view(agent.sandbox));
    let approval = either(opt_view(opts.ask_for_approval), opt_view(agent.ask_for_approval));
    let approvals = opts.supports_approval_flag == Some(true);
    let n = args.len() - 1 - opts.extra_args@.len();
    let a = 2int;
    let b = a + flag_args("--model"@, model).len();
    let c = b + flag_args("--profile"@, profile).len();
    let d = c + flag_args("--sandbox"@, sandbox).len();
    assert(args == command_args(agent@, task@, opts@, views(guidance@)));
    assert(views(opts.extra_args@).len() == opts.extra_args@.len());
    if model is Some {
        assert(args[a] == "--model"@ && args[a + 1] == model->0);
        lemma_gives(args, n, "--model"@, model->0, a);
    }
    if profile is Some {
        assert(args[b] == "--profile"@ && args[b + 1] == profile->0);
        lemma_gives(args, n, "--profile"@, profile->0, b);
    }
    if sandbox is Some {
        assert(args[c] == "--sandbox"@ && args[c + 1] == sandbox->0);
        lemma_gives(args, n, "--sandbox"@, sandbox->0, c);
    }
    if approvals && approval is Some {
        assert(args[d] == "--ask-for-approval"@ && args[d + 1] == approval->0);
        lemma_gives(args, n, "--ask-for-approval"@, approval->0, d);
    }
    assert forall|k: int| 0 <= k < opts.extra_args@.len() implies #[trigger] args[n + k]
        == opts.extra_args@[k]@ by {
        assert(views(opts.extra_args@)[k] == opts.extra_args@[k]@);
    }
}

/// Law: a sub-agent gets every environment variable of its task and its agent, with the task's value
/// where both have one, and no other.
pub proof fn law_task_env_wins(agent: &AgentSpec, task: &TaskSpec, r: StrMap<String>, name: Seq<char>)
    requires
        call_ensures(merge_envs, (agent, task), r),
    ensures
        task.env@.dom().contains(name) ==> r@.dom().contains(name) && r@[name]@
            == task.env@[name]@,
        !task.env@.dom().contains(name) && agent.env@.dom().contains(name) ==> r@.dom().contains(
            name,
        ) && r@[name]@ == agent.env@[name]@,
        !task.env@.dom().contains(name) && !agent.env@.dom().contains(name)
            ==> !r@.dom().contains(name),
{
    let all = env_view(r@);
    let own = env_view(task.env@);
    let shared = env_view(agent.env@);
    assert(all.dom().contains(name) <==> r@.dom().contains(name));
    assert(own.dom().contains(name) <==> task.env@.dom().contains(name));
    assert(shared.dom().contains(name) <==> agent.env@.dom().contains(name));
    if own.dom().contains(name) {
        assert(all[name] == own[name]);
    } else if shared.dom().contains(name) {
        assert(all[name] == shared[name]);
    }
}

/// Law: the command of a sub-agent sets the environment variables of its task and its agent, with the
/// task's value where both have one, and no other.
pub proof fn law_command_env(
    workdir: &str,
    agent: &AgentSpec,
    task: &TaskSpec,
    opts: &SubAgentOptions,
    guidance: &Vec<String>,
    r: CommandSpec,
    name: Seq<char>,
)
    requires
        call_ensures(build_command, (workdir, agent, task, opts, guidance), r),
    ensures
        task.env@.dom().contains(name) ==> r.env@.dom().contains(name) && r.env@[name]@
            == task.env@[name]@,
        !task.env@.dom().contains(name) && agent.env@.dom().contains(name)
            ==> r.env@.dom().contains(name) && r.env@[name]@ == agent.env@[name]@,
        !task.env@.dom().contains(name) && !agent.env@.dom().contains(name)
            ==> !r.env@.dom().contains(name),
{
    let all = env_view(r.env@);
    let own = env_view(task.env@);
    let shared = env_view(agent.env@);
    assert(r@.env == all);
    assert(all.dom().contains(name) <==> r.env@.dom().contains(name));
    assert(own.dom().contains(name) <==> task.env@.dom().contains(name));
    assert(shared.dom().contains(name) <==> agent.env@.dom().contains(name));
    if own.dom().contains(name) {
        assert(all[name] == own[name]);
    } else if shared.dom().contains(name) {
        assert(all[name] == shared[name]);
    }
}

/// Law: a sub-agent is told its role first, then the task file where there is one, then its task, and
/// last the guidance given to it since, all of it in order.
pub proof fn law_told_in_order(
    workdir: &str,
    agent: &AgentSpec,
    task: &TaskSpec,
    opts: &SubAgentOptions,
    guidance: &Vec<String>,
    r: CommandSpec,
    agent_id: &str,
    primer: String,
)
    requires
        call_ensures(build_command, (workdir, agent, task, opts, guidance), r),
        agent_id@ == agent.id@,
        call_ensures(agent_primer, (agent_id,), primer),
    ensures
        ({
            let told = views(r.args@).last();
            let context = match opts.task_md_full_text {
                Some(md) => "\n\nProject context (task.md):\n```md\n"@ + md@ + "\n```"@,
                None => Seq::empty(),
            };
            let asked = primer@ + context + "\n\nYour task:\n"@ + task.instructions@;
            &&& guidance@.len() == 0 ==> told == asked
            &&& guidance@.len() > 0 ==> told == asked
                + "\n\nAdditional guidance (prior attempts preserved):\n"@ + join(
                views(guidance@),
                "\n\n"@,
            )
        }),
{
    let args = views(r.args@);
    assert(args == command_args(agent@, task@, opts@, views(guidance@)));
    assert(views(guidance@).len() == guidance@.len());
    assert(args.last() == full_instructions(
        agent@.id,
        opts@.task_md_full_text,
        task@.instructions,
        views(guidance@),
    ));
}

/// Law: whatever its role, an agent is told how to send messages to its peers.
pub proof fn law_primer_ends_with_protocol(agent_id: &str, r: String)
    requires
        call_ensures(agent_primer, (agent_id,), r),
    ensures
        r@.len() >= PROTOCOL_PRIMER@.len() + 2,
        r@.skip(r@.len() - PROTOCOL_PRIMER@.len()) == PROTOCOL_PRIMER@,
        r@[r@.len() - PROTOCOL_PRIMER@.len() - 1] == '\n',
        r@[r@.len() - PROTOCOL_PRIMER@.len() - 2] == '\n',
{
    reveal_strlit("\n\n");
    assert(r@.skip(r@.len() - PROTOCOL_PRIMER@.len()) =~= PROTOCOL_PRIMER@);
}

/// Law: unless the environment says otherwise, sub-agents run `codex`, write to their workspace only,
/// ask for no approval, may use the network, need no trusted repository, and print nothing. What the
/// environment gives as arguments comes before the usual ones.
pub proof fn law_default_options(env: &OptionsEnv, r: SubAgentOptions)
    requires
        call_ensures(SubAgentOptions::from_env, (env,), r),
    ensures
        env.subagent_bin is None ==> r.codex_bin@ == "codex"@,
        env.subagent_bin matches Some(bin) ==> r.codex_bin@ == bin@,
        r.model is None,
        r.profile is None,
        r.sandbox matches Some(v) && v@ == "workspace-write"@,
        r.ask_for_approval matches Some(v) && v@ == "never"@,
        r.time_budget_secs is None,
        r.supports_approval_flag is None,
        r.task_md_full_text is None,
        env.show_output is None ==> !r.show_output,
        env.show_output matches Some(v) ==> (r.show_output <==> v@ == seq!['1'] || (v@.len() == 4
            && (v@[0] == 't' || v@[0] == 'T') && (v@[1] == 'r' || v@[1] == 'R') && (v@[2] == 'u'
            || v@[2] == 'U') && (v@[3] == 'e' || v@[3] == 'E'))),
        env.extra_args is None ==> r.extra_args@.len() == 3,
        ({
            let n = r.extra_args@.len();
            &&& n >= 3
            &&& r.extra_args@[n - 3]@ == "--skip-git-repo-check"@
            &&& r.extra_args@[n - 2]@ == "-c"@
            &&& r.extra_args@[n - 1]@ == "sandbox_workspace_write.network_access=true"@
            &&& env.extra_args matches Some(given) ==> views(r.extra_args@).take(n - 3) == words(
                given@,
            )
        }),
{
    let n = r.extra_args@.len();
    let all = views(r.extra_args@);
    assert(all.len() == n);
    assert(all == r@.extra_args);
    assert(all[n - 3] == r.extra_args@[n - 3]@);
    assert(all[n - 2] == r.extra_args@[n - 2]@);
    assert(all[n - 1] == r.extra_args@[n - 1]@);
    reveal_strlit("true");
    reveal_strlit("1");
    assert("1"@ =~= seq!['1']);
    match env.show_output {
        Some(v) => {
            let t = v@;
            if t.len() == 4 {
                assert(ascii_lower(t[0]) == 't' <==> t[0] == 't' || t[0] == 'T');
                assert(ascii_lower(t[1]) == 'r' <==> t[1] == 'r' || t[1] == 'R');
                assert(ascii_lower(t[2]) == 'u' <==> t[2] == 'u' || t[2] == 'U');
                assert(ascii_lower(t[3]) == 'e' <==> t[3] == 'e' || t[3] == 'E');
            }
            assert(same_but_case(t, "true"@) <==> t.len() == 4 && ascii_lower(t[0]) == 't'
                && ascii_lower(t[1]) == 'r' && ascii_lower(t[2]) == 'u' && ascii_lower(t[3])
                == 'e');
        },
        None => {},
    }
    match env.extra_args {
        Some(given) => {
            assert(all.take(n - 3) =~= words(given@));
        },
        None => {},
    }
}

/// Law: each agent is told its own role first: those with one of the usual ids that of their id, the
/// primary agent that of a lead, and any other that of an engineer.
pub proof fn law_roles_told(agent_id: &str, r: String)
    requires
        call_ensures(agent_primer, (agent_id,), r),
    ensures
        agent_id@ == "backend"@ ==> starts_with(
            r@,
            "You are an expert backend engineer. Design, implement, and test server-side logic and APIs. Follow repo conventions, keep changes minimally scoped, and respect boundaries defined in the task. Prefer reliability, tests, and clear docs."@,
        ),
        agent_id@ == "frontend"@ ==> starts_with(
            r@,
            "You are an expert frontend engineer. Implement UI with accessibility, responsiveness, and clean state management. Follow the code style and component patterns in this repo. Keep changes scoped to the task."@,
        ),
        agent_id@ == "docs"@ ==> starts_with(
            r@,
            "You are a technical writer. Produce clear, concise documentation with accurate examples. Maintain consistent tone and structure. Update any relevant README or docs sections coherently."@,
        ),
        agent_id@ == "qa"@ ==> starts_with(
            r@,
            "You are a quality engineer. Design and implement tests that validate behavior and guard against regressions. Prefer fast, deterministic tests and meaningful assertions."@,
        ),
        agent_id@ == "research"@ ==> starts_with(
            r@,
            "You are a research engineer. Investigate, compare options, and summarize trade-offs concisely. Provide actionable recommendations and next steps grounded in evidence."@,
        ),
        agent_id@ == "devops"@ ==> starts_with(
            r@,
            "You are a DevOps/SRE engineer. Improve build, CI/CD, and runtime reliability with minimal, safe changes. Favor observability, repeatability, and principle of least privilege."@,
        ),
        agent_id@ == "tooling"@ ==> starts_with(
            r@,
            "You are a tooling engineer. Enhance developer experience with safe, incremental changes to build scripts, linters, and CLIs. Keep the toolchain simple and well-documented."@,
        ),
        agent_id@ == "primary"@ ==> starts_with(
            r@,
            "You are a lead full-stack engineer. Break down work, make pragmatic choices, and deliver incremental value. Keep changes scoped and well-tested."@,
        ),
        agent_id@ != "backend"@ && agent_id@ != "frontend"@ && agent_id@ != "docs"@ && agent_id@ != "qa"@ && agent_id@ != "research"@ && agent_id@ != "devops"@ && agent_id@ != "tooling"@ && agent_id@ != "primary"@ ==> starts_with(
            r@,
            "You are an expert software engineer. Work pragmatically, keep changes scoped, and adhere to repo conventions and tests."@,
        ),
{
    reveal_strlit("backend");
    reveal_strlit("frontend");
    reveal_strlit("docs");
    reveal_strlit("qa");
    reveal_strlit("research");
    reveal_strlit("devops");
    reveal_strlit("tooling");
    reveal_strlit("primary");
    assert("backend"@.len() == 7 && "backend"@[0] == 'b' && "frontend"@.len() == 8 && "frontend"@[0] == 'f' && "docs"@.len() == 4 && "docs"@[0] == 'd' && "qa"@.len() == 2 && "qa"@[0] == 'q' && "research"@.len() == 8 && "research"@[0] == 'r' && "devops"@.len() == 6 && "devops"@[0] == 'd' && "tooling"@.len() == 7 && "tooling"@[0] == 't' && "primary"@.len() == 7 && "primary"@[0] == 'p');
    let role = role_text(agent_id@);
    assert(r@.take(role.len() as int) =~= role);
}

} // verus!
