//! Sub-agents: controlling a running one, and running one to its end.

use vstd::prelude::*;
use vstd::string::*;
use vstd::utf8::*;

use crate::command::build_command;
use crate::command::command_for;
use crate::command::full_instructions;
use crate::error::TaskError;
use crate::events::event_record;
use crate::events::event_write;
use crate::events::Event;
use crate::events::EventView;
use crate::events::EventWrite;
use crate::output::after_pushes;
use crate::output::last_items;
use crate::output::AgentStream;
use crate::output::ItemView;
use crate::output::OutputItem;
use crate::output::StreamKind;
use crate::paths::join_path;
use crate::paths::path_join;
use crate::raw_output::law_printed_line;
use crate::raw_output::line_text;
use crate::raw_output::logged_line;
use crate::raw_output::logged_text;
use crate::raw_output::raw_lines;
use crate::raw_output::without_newline;
use crate::schema::AgentSpec;
use crate::schema::TaskSpec;
use crate::text::contains_text;
use crate::text::decoded;
use crate::text::has_text;
use crate::text::join;
use crate::text::lemma_views_push;
use crate::text::lossy_text;
use crate::text::opt_view;
use crate::text::views;

use crate::signals::can_come_of;
use crate::signals::tells;
use crate::signals::tells_of_stop;
use crate::signals::ControlSignal;

pub use crate::command::agent_primer;
pub use crate::command::merge_envs;
pub use crate::command::CommandSpec;
pub use crate::command::OptionsEnv;
pub use crate::command::SubAgentOptions;
pub use crate::events::SubAgentEventCtx;
pub use crate::signals::console_event_result;
pub use crate::signals::pause_process;
pub use crate::signals::resume_process;

verus! {

/// What a sub-agent that ran to its end left behind.
#[derive(Debug)]
pub struct SubAgentResult {
    pub status_code: i32,
    pub stdout: String,
    pub stderr: String,
}

/// A started process: its id, and whether its standard input can be written to.
#[derive(Clone, Copy, Debug)]
pub struct Launch {
    pub pid: Option<u32>,
    pub stdin: bool,
}

/// The control state of a running sub-agent.
#[derive(Debug)]
pub struct SubAgentController {
    pid: u32,
    stdin_open: bool,
    event: Option<SubAgentEventCtx>,
    workdir: String,
    agent: AgentSpec,
    task: TaskSpec,
    opts: SubAgentOptions,
    appended_guidance: Vec<String>,
}

/// The model of a `SubAgentController`.
#[verifier::ext_equal]
pub struct ControllerView {
    pub pid: u32,
    pub stdin_open: bool,
    pub event: Option<crate::events::EventCtxView>,
    pub workdir: Seq<char>,
    pub agent: crate::schema::AgentView,
    pub task: crate::schema::TaskView,
    pub opts: crate::command::OptionsView,
    pub guidance: Seq<Seq<char>>,
}

impl View for SubAgentController {
    type V = ControllerView;

    closed spec fn view(&self) -> ControllerView {
        ControllerView {
            pid: self.pid,
            stdin_open: self.stdin_open,
            event: opt_view(self.event),
            workdir: self.workdir@,
            agent: self.agent@,
            task: self.task@,
            opts: self.opts@,
            guidance: views(self.appended_guidance@),
        }
    }
}

impl ControllerView {
    /// The command that starts the sub-agent, with the guidance given to it so far.
    pub open spec fn command(self) -> crate::command::CommandView {
        command_for(self.workdir, self.agent, self.task, self.opts, self.guidance)
    }

    /// The event line that is owed where the sub-agent's events are recorded.
    pub open spec fn owes(self, now: Seq<char>, event: EventView, w: Option<EventWrite>) -> bool {
        match self.event {
            Some(ctx) => w is Some && w->0@ == event_record(ctx, now, event),
            None => w is None,
        }
    }
}

/// What a control operation comes to: its result, and the event line to append.
pub type Controlled = (Result<(), TaskError>, Option<EventWrite>);

impl SubAgentController {
    /// Prepares to control a sub-agent and tells the command that starts it. What came of starting
    /// it is reported to `launched`.
    pub fn spawn(
        workdir: &str,
        agent: &AgentSpec,
        task: &TaskSpec,
        opts: &SubAgentOptions,
        event: Option<SubAgentEventCtx>,
    ) -> (r: (Self, CommandSpec))
        ensures
            r.0@ == (ControllerView {
                pid: 0,
                stdin_open: false,
                event: opt_view(event),
                workdir: workdir@,
                agent: agent@,
                task: task@,
                opts: opts@,
                guidance: seq![],
            }),
            r.1@ == r.0@.command(),
    {
        let appended_guidance: Vec<String> = Vec::new();
        proof {
            assert(views(appended_guidance@) =~= seq![]);
        }
        let command = build_command(workdir, agent, task, opts, &appended_guidance);
        let controller = SubAgentController {
            pid: 0,
            stdin_open: false,
            event,
            workdir: workdir.to_owned(),
            agent: agent.clone(),
            task: task.clone(),
            opts: opts.clone(),
            appended_guidance,
        };
        (controller, command)
    }

    /// Takes note of what came of starting the sub-agent.
    pub fn launched(&mut self, launch: Result<Launch, String>) -> (r: Result<(), TaskError>)
        ensures
            match launch {
                Ok(l) => r is Ok && final(self)@ == (ControllerView {
                    pid: (match l.pid {
                        Some(pid) => pid,
                        None => 0,
                    }),
                    stdin_open: l.stdin,
                    ..old(self)@
                }),
                Err(e) => {
                    &&& r matches Err(TaskError::Spawn(m)) && m@ == e@
                    &&& final(self)@ == old(self)@
                },
            },
    {
        match launch {
            Ok(l) => {
                self.pid = match l.pid {
                    Some(pid) => pid,
                    None => 0,
                };
                self.stdin_open = l.stdin;
                Ok(())
            },
            Err(e) => Err(TaskError::Spawn(e)),
        }
    }

    /// The event line that a control operation owes: none where it failed or events are not
    /// recorded.
    fn record(&self, ok: bool, now: &str, event: Event) -> (w: Option<EventWrite>)
        ensures
            if ok {
                self@.owes(now@, event@, w)
            } else {
                w is None
            },
    {
        if !ok {
            return None;
        }
        match &self.event {
            Some(ctx) => Some(event_write(ctx, now, &event)),
            None => None,
        }
    }

    /// Concludes a pause by what came of the signal.
    pub fn paused(&self, sent: Result<(), TaskError>, now: &str) -> (r: Controlled)
        ensures
            r.0 == sent,
            sent is Ok ==> self@.owes(now@, EventView::Pause, r.1),
            sent is Err ==> r.1 is None,
    {
        let w = self.record(sent.is_ok(), now, Event::Pause);
        (sent, w)
    }

    /// Pauses the sub-agent: its process is asked to pause by itself, and stopped where that fails.
    pub fn pause(&self, now: &str) -> (r: Controlled)
        ensures
            exists|asked: Result<(), String>| #[trigger]
                can_come_of(self@.pid, ControlSignal::Interrupt, asked) && (if asked is Ok {
                    r.0 is Ok
                } else {
                    tells_of_stop(self@.pid, r.0)
                }),
            r.0 is Ok ==> self@.owes(now@, EventView::Pause, r.1),
            r.0 is Err ==> r.1 is None,
    {
        assert(self@.pid == self.pid);
        self.paused(pause_process(self.pid), now)
    }

    /// Concludes a resumption by what came of the signal.
    pub fn resumed(&self, sent: Result<(), TaskError>, now: &str) -> (r: Controlled)
        ensures
            r.0 == sent,
            sent is Ok ==> self@.owes(now@, EventView::Resume, r.1),
            sent is Err ==> r.1 is None,
    {
        let w = self.record(sent.is_ok(), now, Event::Resume);
        (sent, w)
    }

    /// Resumes the sub-agent, where it was stopped.
    pub fn resume(&self, now: &str) -> (r: Controlled)
        ensures
            exists|sent: Result<(), String>| #[trigger]
                can_come_of(self@.pid, ControlSignal::Continue, sent) && tells(
                    "SIGCONT"@,
                    sent,
                    r.0,
                ),
            r.0 is Ok ==> self@.owes(now@, EventView::Resume, r.1),
            r.0 is Err ==> r.1 is None,
    {
        assert(self@.pid == self.pid);
        self.resumed(resume_process(self.pid), now)
    }

    /// The text that is to be written to the sub-agent's standard input to give it guidance: the
    /// guidance and a newline. What came of writing it is reported to `injected`.
    pub fn inject(&self, guidance: &str) -> (r: Result<String, TaskError>)
        ensures
            if self@.stdin_open {
                r matches Ok(text) && text@ == guidance@.push('\n')
            } else {
                r matches Err(TaskError::StdinClosed)
            },
    {
        if !self.stdin_open {
            return Err(TaskError::StdinClosed);
        }
        let mut text = guidance.to_owned();
        text.push('\n');
        Ok(text)
    }

    /// Concludes an injection by what came of the write.
    pub fn injected(&self, guidance: &str, written: Result<(), String>, now: &str) -> (r: Controlled)
        ensures
            match written {
                Ok(()) => r.0 is Ok && self@.owes(
                    now@,
                    EventView::Inject { guidance: guidance@ },
                    r.1,
                ),
                Err(e) => {
                    &&& r.0 matches Err(TaskError::Injection(m)) && m@ == e@
                    &&& r.1 is None
                },
            },
    {
        match written {
            Ok(()) => {
                let w = self.record(true, now, Event::Inject { guidance: guidance.to_owned() });
                (Ok(()), w)
            },
            Err(e) => (Err(TaskError::Injection(e)), None),
        }
    }

    /// Resumes the sub-agent after an injection that succeeded. Whether the resumption succeeds
    /// does not matter to the result.
    pub fn inject_then_resume(&self, injected: Result<(), TaskError>, now: &str) -> (r: Controlled)
        ensures
            r.0 == injected,
            injected is Err ==> r.1 is None,
            injected is Ok ==> exists|sent: Result<(), String>| #[trigger]
                can_come_of(self@.pid, ControlSignal::Continue, sent) && (if sent is Ok {
                    self@.owes(now@, EventView::Resume, r.1)
                } else {
                    r.1 is None
                }),
    {
        if injected.is_err() {
            return (injected, None);
        }
        let (_, w) = self.resume(now);
        (injected, w)
    }

    /// Adds guidance to the instructions and tells the command that starts the sub-agent anew. What
    /// came of that is reported to `restarted`.
    pub fn restart_with_appended_guidance(&mut self, guidance: &str) -> (r: CommandSpec)
        ensures
            final(self)@ == (ControllerView {
                guidance: old(self)@.guidance.push(guidance@),
                ..old(self)@
            }),
            r@ == final(self)@.command(),
    {
        broadcast use lemma_views_push;

        self.appended_guidance.push(guidance.to_owned());
        build_command(
            self.workdir.as_str(),
            &self.agent,
            &self.task,
            &self.opts,
            &self.appended_guidance,
        )
    }

    /// Takes note of what came of starting the sub-agent anew.
    pub fn restarted(&mut self, guidance: &str, launch: Result<Launch, String>, now: &str) -> (r:
        Controlled)
        ensures
            match launch {
                Ok(l) => {
                    &&& r.0 is Ok
                    &&& final(self)@.owes(now@, EventView::Restart { guidance: guidance@ }, r.1)
                    &&& final(self)@ == (ControllerView {
                        pid: (match l.pid {
                            Some(pid) => pid,
                            None => 0,
                        }),
                        stdin_open: l.stdin,
                        ..old(self)@
                    })
                },
                Err(e) => {
                    &&& r.0 matches Err(TaskError::Spawn(m)) && m@ == e@
                    &&& r.1 is None
                    &&& final(self)@ == old(self)@
                },
            },
    {
        match self.launched(launch) {
            Ok(()) => {
                let w = self.record(true, now, Event::Restart { guidance: guidance.to_owned() });
                (Ok(()), w)
            },
            Err(e) => (Err(e), None),
        }
    }

    /// Where the sub-agent's events are recorded, where they are.
    pub fn event_ctx(&self) -> (r: Option<&SubAgentEventCtx>)
        ensures
            match r {
                Some(ctx) => self@.event == Some(ctx@),
                None => self@.event is None,
            },
    {
        self.event.as_ref()
    }

    /// The process id of the sub-agent.
    pub fn pid(&self) -> (r: u32)
        ensures
            r == self@.pid,
    {
        self.pid
    }
}

/// Law: guidance is never lost. The instructions of a restarted sub-agent begin with those it had
/// before, and end with the new guidance.
pub proof fn law_guidance_preserved(
    agent_id: Seq<char>,
    task_md: Option<Seq<char>>,
    instructions: Seq<char>,
    guidance: Seq<Seq<char>>,
    new: Seq<char>,
)
    ensures
        ({
            let before = full_instructions(agent_id, task_md, instructions, guidance);
            let after = full_instructions(agent_id, task_md, instructions, guidance.push(new));
            let between = if guidance.len() == 0 {
                "\n\nAdditional guidance (prior attempts preserved):\n"@
            } else {
                "\n\n"@
            };
            after == before + between + new
        }),
{
    let more = guidance.push(new);
    assert(more.drop_last() =~= guidance);
    let before = full_instructions(agent_id, task_md, instructions, guidance);
    let after = full_instructions(agent_id, task_md, instructions, more);
    if guidance.len() == 0 {
        assert(join(more, "\n\n"@) == new);
    } else {
        assert(join(more, "\n\n"@) == join(guidance, "\n\n"@) + "\n\n"@ + new);
        assert(after =~= before + "\n\n"@ + new);
    }
}

/// Tells from the help text of the program whether it knows `--ask-for-approval`.
pub fn detect_supports_approval_flag(help: Option<&Vec<u8>>) -> (r: bool)
    ensures
        r == (match help {
            Some(bytes) => contains_text(decoded(bytes@), "ask-for-approval"@),
            None => false,
        }),
{
    match help {
        Some(bytes) => has_text(lossy_text(bytes).as_str(), "ask-for-approval"),
        None => false,
    }
}

/// Begins to run a sub-agent to its end, within the time limit of the task or the options where there
/// is one.
pub fn run_subagent(
    workdir: &str,
    agent: &AgentSpec,
    task: &TaskSpec,
    opts: &SubAgentOptions,
    log_dir: &str,
) -> (r: (SubAgentRun, RunAction))
    ensures
        r.0.begun(log_dir@, false, opts.show_output, r.1),
        r.0.stream is None,
        r.0.command->0@ == command_for(workdir@, agent@, task@, opts@, seq![]),
        r.0.limit_secs == limit_of(task.timeout_secs, opts.time_budget_secs),
{
    SubAgentRun::begin(workdir, agent, task, opts, log_dir, false, None)
}

/// Begins to run a sub-agent to its end, without a time limit. Its output is logged line by line as
/// it comes, and kept in a stream where one is given.
pub fn run_subagent_streaming(
    workdir: &str,
    agent: &AgentSpec,
    task: &TaskSpec,
    opts: &SubAgentOptions,
    log_dir: &str,
    stream: Option<AgentStream>,
) -> (r: (SubAgentRun, RunAction))
    requires
        stream matches Some(s) ==> s.wf(),
    ensures
        r.0.begun(log_dir@, true, opts.show_output, r.1),
        r.0.stream == stream,
        r.0.command->0@ == command_for(workdir@, agent@, task@, opts@, seq![]),
        r.0.limit_secs is None,
{
    SubAgentRun::begin(workdir, agent, task, opts, log_dir, true, stream)
}

/// Where a run of a sub-agent stands: what it waits for.
#[derive(Clone, Copy, Debug, PartialEq, Eq, Structural)]
pub enum RunPhase {
    CreatingDir,
    Spawning,
    OpeningLogs,
    Collecting,
    Killing,
    Waiting,
    WritingLogs,
    Finished,
}

/// What is to be done next in a run of a sub-agent.
#[derive(Debug)]
pub enum RunAction {
    /// Create a directory and those above it.
    CreateDir(String),
    /// Start a process.
    Spawn(CommandSpec),
    /// Open the two log files anew, to be written as the output comes.
    OpenLogs { stdout: String, stderr: String },
    /// Read both streams to their end, within the time limit where there is one. The limit counts
    /// from here.
    Collect { limit_secs: Option<u64> },
    /// Read both streams line by line.
    Follow,
    /// Put a line where it belongs, and go on reading.
    Log(StreamedLine),
    /// Kill the process.
    Kill,
    /// Wait for the process to end, within what is left of the time limit where there is one.
    Wait { limit_secs: Option<u64> },
    /// Write what was read to the two log files.
    WriteLogs { stdout: String, stderr: String },
    /// The run is over.
    Done(Result<SubAgentResult, TaskError>),
}

/// What came of the last action.
#[derive(Debug)]
pub enum RunEvent {
    DirReady(Result<(), String>),
    /// Whether the process started, and whether its two output streams could be taken.
    Spawned(Result<(bool, bool), String>),
    LogsOpen(Result<(), String>),
    Collected { stdout: Vec<u8>, stderr: Vec<u8> },
    /// A line of one of the streams, with its newline where it has one.
    Line { kind: StreamKind, raw: Vec<u8> },
    /// Both streams have ended.
    Drained,
    TimedOut,
    Killed,
    /// The exit code, where the process has one.
    Exited(Result<Option<i32>, String>),
    LogsWritten(Result<(), String>),
}

/// Where a line of a streaming run goes.
#[derive(Debug)]
pub struct StreamedLine {
    pub kind: StreamKind,
    /// What is written to the log file of its stream.
    pub log_text: String,
    /// What is printed, where output is shown.
    pub shown: Option<String>,
    /// What those who listen to the stream are told, where one is kept.
    pub published: Option<OutputItem>,
}

/// A run of a sub-agent to its end. A streaming run writes its logs as the output comes and has no
/// time limit.
#[derive(Debug)]
pub struct SubAgentRun {
    pub phase: RunPhase,
    pub streaming: bool,
    pub log_dir: String,
    pub command: Option<CommandSpec>,
    pub limit_secs: Option<u64>,
    pub code: i32,
    /// What was read of the two streams at once.
    pub stdout: Vec<u8>,
    pub stderr: Vec<u8>,
    /// What was logged of the two streams as it came.
    pub stdout_text: String,
    pub stderr_text: String,
    pub stream: Option<AgentStream>,
    pub show_output: bool,
}

/// The time limit of a task: its own, or that of the options.
pub open spec fn limit_of(task: Option<u64>, budget: Option<u64>) -> Option<u64> {
    if task is Some {
        task
    } else {
        budget
    }
}

/// The exit code that a process without one is given.
pub open spec fn code_of(code: Option<i32>) -> i32 {
    match code {
        Some(c) => c,
        None => -1i32,
    }
}

/// Whether a run with this exit code and output ends in `r`.
pub open spec fn ends_in(
    code: i32,
    stdout: Seq<char>,
    stderr: Seq<char>,
    r: Result<SubAgentResult, TaskError>,
) -> bool {
    if code == 0 {
        r matches Ok(res) && res.status_code == 0 && res.stdout@ == stdout && res.stderr@ == stderr
    } else {
        r matches Err(TaskError::SubAgentFailed { code: c, message }) && c == code && message@
            == stderr
    }
}

/// Whether a stream received an item: nothing changes where there is none.
pub open spec fn received(
    before: Option<AgentStream>,
    item: ItemView,
    after: Option<AgentStream>,
) -> bool {
    match (before, after) {
        (Some(a), Some(b)) => {
            &&& b.capacity() == a.capacity()
            &&& b@ == last_items(a@.push(item), a.capacity())
        },
        (None, None) => true,
        _ => false,
    }
}

impl SubAgentRun {
    /// Whether the run has what its phase needs.
    pub open spec fn wf(&self) -> bool {
        &&& self.phase == RunPhase::CreatingDir ==> self.command is Some
        &&& self.phase == RunPhase::Killing ==> self.limit_secs is Some
        &&& self.streaming ==> self.limit_secs is None
        &&& self.stream matches Some(s) ==> s.wf()
    }

    /// What was logged of a stream as it came.
    pub open spec fn logged(&self, kind: StreamKind) -> Seq<char> {
        match kind {
            StreamKind::Stdout => self.stdout_text@,
            StreamKind::Stderr => self.stderr_text@,
        }
    }

    /// The output of a stream that the run ends with: what was logged as it came, or what was read.
    pub open spec fn output(&self, kind: StreamKind) -> Seq<char> {
        if self.streaming {
            self.logged(kind)
        } else {
            match kind {
                StreamKind::Stdout => decoded(self.stdout@),
                StreamKind::Stderr => decoded(self.stderr@),
            }
        }
    }

    /// Whether the run waits for this event.
    pub open spec fn awaits(&self, event: RunEvent) -> bool {
        match event {
            RunEvent::DirReady(_) => self.phase == RunPhase::CreatingDir,
            RunEvent::Spawned(_) => self.phase == RunPhase::Spawning,
            RunEvent::LogsOpen(_) => self.phase == RunPhase::OpeningLogs,
            RunEvent::Collected { .. } => self.phase == RunPhase::Collecting && !self.streaming,
            RunEvent::Line { .. } => self.phase == RunPhase::Collecting && self.streaming,
            RunEvent::Drained => self.phase == RunPhase::Collecting && self.streaming,
            RunEvent::TimedOut => (self.phase == RunPhase::Collecting || self.phase
                == RunPhase::Waiting) && self.limit_secs is Some,
            RunEvent::Killed => self.phase == RunPhase::Killing,
            RunEvent::Exited(_) => self.phase == RunPhase::Waiting,
            RunEvent::LogsWritten(_) => self.phase == RunPhase::WritingLogs,
        }
    }

    /// Whether `after` is this run with another phase.
    pub open spec fn moves(&self, after: &SubAgentRun, phase: RunPhase) -> bool {
        &&& after.phase == phase
        &&& after.streaming == self.streaming
        &&& after.log_dir == self.log_dir
        &&& after.limit_secs == self.limit_secs
        &&& after.show_output == self.show_output
    }

    /// Whether `after` has logged and kept what this run has.
    pub open spec fn same_logs(&self, after: &SubAgentRun) -> bool {
        &&& after.stdout_text == self.stdout_text
        &&& after.stderr_text == self.stderr_text
        &&& after.stream == self.stream
    }

    /// Whether `after` and `line` are what a line of a stream leads to: it is logged with a newline,
    /// printed where output is shown, and kept without its newline where there is a stream.
    pub open spec fn follows(
        &self,
        kind: StreamKind,
        raw: Seq<u8>,
        after: &SubAgentRun,
        line: StreamedLine,
    ) -> bool {
        let item = ItemView { kind, text: decoded(without_newline(raw)) };
        &&& after.logged(kind) == self.logged(kind) + logged_line(raw)
        &&& forall|other: StreamKind|
            other != kind ==> #[trigger] after.logged(other) == self.logged(other)
        &&& received(self.stream, item, after.stream)
        &&& line.kind == kind
        &&& line.log_text@ == logged_line(raw)
        &&& opt_view(line.shown) == (if self.show_output {
            Some(logged_line(raw))
        } else {
            None
        })
        &&& opt_view(line.published) == (if self.stream is Some {
            Some(item)
        } else {
            None
        })
    }

    /// How the run goes on from an event: its state after it and the action that is due.
    pub open spec fn goes_on(&self, event: RunEvent, after: &SubAgentRun, action: RunAction) -> bool {
        let out = join_path(self.log_dir@, "stdout.log"@);
        let err = join_path(self.log_dir@, "stderr.log"@);
        &&& event !is Line ==> self.same_logs(after)
        &&& match event {
            RunEvent::DirReady(Ok(())) => {
                &&& self.moves(after, RunPhase::Spawning)
                &&& action == RunAction::Spawn(self.command->0)
            },
            RunEvent::DirReady(Err(e)) => {
                &&& self.moves(after, RunPhase::Finished)
                &&& action matches RunAction::Done(Err(TaskError::Io(m))) && m@ == e@
            },
            RunEvent::Spawned(Err(e)) => {
                &&& self.moves(after, RunPhase::Finished)
                &&& action matches RunAction::Done(Err(TaskError::Spawn(m))) && m@ == e@
            },
            RunEvent::Spawned(Ok((has_out, has_err))) => {
                if !has_out {
                    &&& self.moves(after, RunPhase::Finished)
                    &&& action matches RunAction::Done(Err(TaskError::Spawn(m))) && m@
                        == "failed to capture stdout"@
                } else if !has_err {
                    &&& self.moves(after, RunPhase::Finished)
                    &&& action matches RunAction::Done(Err(TaskError::Spawn(m))) && m@
                        == "failed to capture stderr"@
                } else if self.streaming {
                    &&& self.moves(after, RunPhase::OpeningLogs)
                    &&& action matches RunAction::OpenLogs { stdout, stderr } && stdout@ == out
                        && stderr@ == err
                } else {
                    &&& self.moves(after, RunPhase::Collecting)
                    &&& action == RunAction::Collect { limit_secs: self.limit_secs }
                }
            },
            RunEvent::LogsOpen(Ok(())) => {
                &&& self.moves(after, RunPhase::Collecting)
                &&& action == RunAction::Follow
            },
            RunEvent::LogsOpen(Err(e)) => {
                &&& self.moves(after, RunPhase::Finished)
                &&& action matches RunAction::Done(Err(TaskError::Io(m))) && m@ == e@
            },
            RunEvent::Collected { stdout, stderr } => {
                &&& self.moves(after, RunPhase::Waiting)
                &&& after.stdout == stdout
                &&& after.stderr == stderr
                &&& action == RunAction::Wait { limit_secs: self.limit_secs }
            },
            RunEvent::Line { kind, raw } => {
                &&& self.moves(after, RunPhase::Collecting)
                &&& action matches RunAction::Log(line) && self.follows(kind, raw@, after, line)
            },
            RunEvent::Drained => {
                &&& self.moves(after, RunPhase::Waiting)
                &&& action == RunAction::Wait { limit_secs: self.limit_secs }
            },
            RunEvent::TimedOut => {
                &&& self.moves(after, RunPhase::Killing)
                &&& action == RunAction::Kill
            },
            RunEvent::Killed => {
                &&& self.moves(after, RunPhase::Finished)
                &&& action == RunAction::Done(Err(TaskError::Timeout(self.limit_secs->0)))
            },
            RunEvent::Exited(Err(e)) => {
                &&& self.moves(after, RunPhase::Finished)
                &&& action matches RunAction::Done(Err(TaskError::Spawn(m))) && m@ == e@
            },
            RunEvent::Exited(Ok(code)) => {
                if self.streaming {
                    &&& self.moves(after, RunPhase::Finished)
                    &&& action matches RunAction::Done(r) && ends_in(
                        code_of(code),
                        self.output(StreamKind::Stdout),
                        self.output(StreamKind::Stderr),
                        r,
                    )
                } else {
                    &&& self.moves(after, RunPhase::WritingLogs)
                    &&& after.code == code_of(code)
                    &&& after.stdout == self.stdout
                    &&& after.stderr == self.stderr
                    &&& action matches RunAction::WriteLogs { stdout, stderr } && stdout@ == out
                        && stderr@ == err
                }
            },
            RunEvent::LogsWritten(Ok(())) => {
                &&& self.moves(after, RunPhase::Finished)
                &&& action matches RunAction::Done(r) && ends_in(
                    self.code,
                    self.output(StreamKind::Stdout),
                    self.output(StreamKind::Stderr),
                    r,
                )
            },
            RunEvent::LogsWritten(Err(e)) => {
                &&& self.moves(after, RunPhase::Finished)
                &&& action matches RunAction::Done(Err(TaskError::Io(m))) && m@ == e@
            },
        }
    }

    /// Whether the run has just begun: the log directory is created first.
    pub open spec fn begun(
        &self,
        log_dir: Seq<char>,
        streaming: bool,
        show_output: bool,
        action: RunAction,
    ) -> bool {
        &&& self.wf()
        &&& self.show_output == show_output
        &&& self.logged(StreamKind::Stdout) == Seq::<char>::empty()
        &&& self.logged(StreamKind::Stderr) == Seq::<char>::empty()
        &&& self.phase == RunPhase::CreatingDir
        &&& self.streaming == streaming
        &&& self.log_dir@ == log_dir
        &&& action matches RunAction::CreateDir(dir) && dir@ == log_dir
    }

    /// Begins a run: the log directory is created first.
    fn begin(
        workdir: &str,
        agent: &AgentSpec,
        task: &TaskSpec,
        opts: &SubAgentOptions,
        log_dir: &str,
        streaming: bool,
        stream: Option<AgentStream>,
    ) -> (r: (Self, RunAction))
        requires
            stream matches Some(s) ==> s.wf(),
        ensures
            r.0.begun(log_dir@, streaming, opts.show_output, r.1),
            r.0.stream == stream,
            r.0.command->0@ == command_for(workdir@, agent@, task@, opts@, seq![]),
            r.0.limit_secs == (if streaming {
                None
            } else {
                limit_of(task.timeout_secs, opts.time_budget_secs)
            }),
    {
        let guidance: Vec<String> = Vec::new();
        proof {
            assert(views(guidance@) =~= seq![]);
        }
        let limit_secs: Option<u64> = if streaming {
            None
        } else if task.timeout_secs.is_some() {
            task.timeout_secs
        } else {
            opts.time_budget_secs
        };
        let run = SubAgentRun {
            phase: RunPhase::CreatingDir,
            streaming,
            log_dir: log_dir.to_owned(),
            command: Some(build_command(workdir, agent, task, opts, &guidance)),
            limit_secs,
            code: 0,
            stdout: Vec::new(),
            stderr: Vec::new(),
            stdout_text: String::new(),
            stderr_text: String::new(),
            stream,
            show_output: opts.show_output,
        };
        (run, RunAction::CreateDir(log_dir.to_owned()))
    }

    /// Goes on with what came of the last action.
    pub fn step(&mut self, event: RunEvent) -> (action: RunAction)
        requires
            old(self).wf(),
            old(self).awaits(event),
        ensures
            final(self).wf(),
            old(self).goes_on(event, final(self), action),
    {
        match event {
            RunEvent::DirReady(Ok(())) => {
                self.phase = RunPhase::Spawning;
                match self.command.take() {
                    Some(command) => RunAction::Spawn(command),
                    None => RunAction::Kill,
                }
            },
            RunEvent::DirReady(Err(e)) => self.fail(TaskError::Io(e)),
            RunEvent::Spawned(Err(e)) => self.fail(TaskError::Spawn(e)),
            RunEvent::Spawned(Ok((has_out, has_err))) => {
                if !has_out {
                    self.fail(TaskError::Spawn("failed to capture stdout".to_owned()))
                } else if !has_err {
                    self.fail(TaskError::Spawn("failed to capture stderr".to_owned()))
                } else if self.streaming {
                    self.phase = RunPhase::OpeningLogs;
                    RunAction::OpenLogs {
                        stdout: path_join(self.log_dir.as_str(), "stdout.log"),
                        stderr: path_join(self.log_dir.as_str(), "stderr.log"),
                    }
                } else {
                    self.phase = RunPhase::Collecting;
                    RunAction::Collect { limit_secs: self.limit_secs }
                }
            },
            RunEvent::LogsOpen(Ok(())) => {
                self.phase = RunPhase::Collecting;
                RunAction::Follow
            },
            RunEvent::LogsOpen(Err(e)) => self.fail(TaskError::Io(e)),
            RunEvent::Collected { stdout, stderr } => {
                self.phase = RunPhase::Waiting;
                self.stdout = stdout;
                self.stderr = stderr;
                RunAction::Wait { limit_secs: self.limit_secs }
            },
            RunEvent::Line { kind, raw } => RunAction::Log(self.follow(kind, &raw)),
            RunEvent::Drained => {
                self.phase = RunPhase::Waiting;
                RunAction::Wait { limit_secs: self.limit_secs }
            },
            RunEvent::TimedOut => {
                self.phase = RunPhase::Killing;
                RunAction::Kill
            },
            RunEvent::Killed => {
                let secs: u64 = match self.limit_secs {
                    Some(secs) => secs,
                    None => 0,
                };
                self.fail(TaskError::Timeout(secs))
            },
            RunEvent::Exited(Err(e)) => self.fail(TaskError::Spawn(e)),
            RunEvent::Exited(Ok(code)) => {
                self.code = match code {
                    Some(c) => c,
                    None => -1,
                };
                if self.streaming {
                    self.finish()
                } else {
                    self.phase = RunPhase::WritingLogs;
                    RunAction::WriteLogs {
                        stdout: path_join(self.log_dir.as_str(), "stdout.log"),
                        stderr: path_join(self.log_dir.as_str(), "stderr.log"),
                    }
                }
            },
            RunEvent::LogsWritten(Ok(())) => self.finish(),
            RunEvent::LogsWritten(Err(e)) => self.fail(TaskError::Io(e)),
        }
    }

    /// Follows a line of a stream.
    fn follow(&mut self, kind: StreamKind, raw: &Vec<u8>) -> (line: StreamedLine)
        requires
            old(self).wf(),
        ensures
            final(self).wf(),
            old(self).moves(final(self), old(self).phase),
            old(self).follows(kind, raw@, final(self), line),
    {
        let text = line_text(raw);
        let mut log_text = text.clone();
        log_text.push('\n');
        match kind {
            StreamKind::Stdout => {
                self.stdout_text.append(log_text.as_str());
            },
            StreamKind::Stderr => {
                self.stderr_text.append(log_text.as_str());
            },
        }
        let published = match self.stream.take() {
            Some(mut stream) => {
                let item = stream.push_line(kind, text.as_str());
                self.stream = Some(stream);
                Some(item)
            },
            None => None,
        };
        let shown = if self.show_output {
            Some(log_text.clone())
        } else {
            None
        };
        StreamedLine { kind, log_text, shown, published }
    }

    /// Ends the run with an error.
    fn fail(&mut self, e: TaskError) -> (action: RunAction)
        requires
            old(self).streaming ==> old(self).limit_secs is None,
            old(self).stream matches Some(s) ==> s.wf(),
        ensures
            final(self).wf(),
            old(self).same_logs(final(self)),
            old(self).moves(final(self), RunPhase::Finished),
            action == RunAction::Done(Err(e)),
    {
        self.phase = RunPhase::Finished;
        RunAction::Done(Err(e))
    }

    /// Ends the run by its exit code.
    fn finish(&mut self) -> (action: RunAction)
        requires
            old(self).streaming ==> old(self).limit_secs is None,
            old(self).stream matches Some(s) ==> s.wf(),
        ensures
            final(self).wf(),
            old(self).same_logs(final(self)),
            old(self).moves(final(self), RunPhase::Finished),
            action matches RunAction::Done(r) && ends_in(
                old(self).code,
                old(self).output(StreamKind::Stdout),
                old(self).output(StreamKind::Stderr),
                r,
            ),
    {
        self.phase = RunPhase::Finished;
        let (stdout, stderr) = if self.streaming {
            (self.stdout_text.clone(), self.stderr_text.clone())
        } else {
            (lossy_text(&self.stdout), lossy_text(&self.stderr))
        };
        if self.code != 0 {
            RunAction::Done(
                Err(TaskError::SubAgentFailed { code: self.code, message: stderr }),
            )
        } else {
            RunAction::Done(Ok(SubAgentResult { status_code: self.code, stdout, stderr }))
        }
    }
}

/// How many events a run may still see in a phase, at most.
pub open spec fn events_left(phase: RunPhase) -> int {
    match phase {
        RunPhase::CreatingDir => 6,
        RunPhase::Spawning => 5,
        RunPhase::OpeningLogs => 4,
        RunPhase::Collecting => 3,
        RunPhase::Killing => 1,
        RunPhase::Waiting => 2,
        RunPhase::WritingLogs => 1,
        RunPhase::Finished => 0,
    }
}

/// Law: a run of a sub-agent comes to an end once its output does. With each event but a line of
/// output fewer are left to wait for, and it is over when it says so.
pub proof fn law_run_ends(run: SubAgentRun, event: RunEvent, after: SubAgentRun, action: RunAction)
    requires
        run.awaits(event),
        run.goes_on(event, &after, action),
    ensures
        if event is Line {
            events_left(after.phase) == events_left(run.phase)
        } else {
            0 <= events_left(after.phase) < events_left(run.phase)
        },
        events_left(after.phase) == 0 <==> action is Done,
{
}

/// The lines of one stream among events.
pub open spec fn lines_from(events: Seq<RunEvent>, kind: StreamKind) -> Seq<Seq<u8>>
    decreases events.len(),
{
    if events.len() == 0 {
        seq![]
    } else {
        let before = lines_from(events.drop_last(), kind);
        match events.last() {
            RunEvent::Line { kind: k, raw } => if k == kind {
                before.push(raw@)
            } else {
                before
            },
            _ => before,
        }
    }
}

/// The lines among events as a stream keeps them.
pub open spec fn items_from(events: Seq<RunEvent>) -> Seq<ItemView>
    decreases events.len(),
{
    if events.len() == 0 {
        seq![]
    } else {
        let before = items_from(events.drop_last());
        match events.last() {
            RunEvent::Line { kind, raw } => before.push(
                ItemView { kind, text: decoded(without_newline(raw@)) },
            ),
            _ => before,
        }
    }
}

/// Whether the runs follow one upon another by lines of output.
pub open spec fn followed(
    runs: Seq<SubAgentRun>,
    events: Seq<RunEvent>,
    actions: Seq<RunAction>,
) -> bool {
    &&& runs.len() == events.len() + 1
    &&& actions.len() == events.len()
    &&& forall|i: int|
        0 <= i < events.len() ==> {
            &&& (#[trigger] events[i]) is Line
            &&& runs[i].goes_on(events[i], &runs[i + 1], actions[i])
        }
}

/// Law: a streaming run logs of each stream its lines in order, each decoded and with a newline, and
/// a stream that is kept receives all lines in the order in which they came, without newlines.
pub proof fn law_streamed_lines(
    runs: Seq<SubAgentRun>,
    events: Seq<RunEvent>,
    actions: Seq<RunAction>,
    kind: StreamKind,
)
    requires
        followed(runs, events, actions),
    ensures
        runs.last().logged(kind) == runs[0].logged(kind) + logged_text(lines_from(events, kind)),
        runs.last().streaming == runs[0].streaming,
        runs[0].stream matches Some(first) ==> {
            &&& runs.last().stream matches Some(last)
            &&& last.capacity() == first.capacity()
            &&& last@ == after_pushes(first@, first.capacity(), items_from(events))
        },
    decreases events.len(),
{
    if events.len() == 0 {
        assert(runs[0].logged(kind) + Seq::<char>::empty() =~= runs[0].logged(kind));
    } else {
        let n = events.len() - 1;
        let before = events.drop_last();
        assert forall|i: int| 0 <= i < before.len() implies {
            &&& (#[trigger] before[i]) is Line
            &&& runs.drop_last()[i].goes_on(
                before[i],
                &runs.drop_last()[i + 1],
                actions.drop_last()[i],
            )
        } by {
            assert(before[i] == events[i]);
        }
        law_streamed_lines(runs.drop_last(), before, actions.drop_last(), kind);
        assert(events[n] is Line);
        match events[n] {
            RunEvent::Line { kind: k, raw } => {
                let all = lines_from(events, kind);
                if k == kind {
                    assert(all.drop_last() =~= lines_from(before, kind));
                    assert(runs[0].logged(kind) + logged_text(all) =~= runs[n].logged(kind)
                        + logged_line(raw@));
                }
                assert(items_from(events).drop_last() =~= items_from(before));
            },
            _ => {},
        }
    }
}

/// Law: a streaming run that begins with nothing logged ends with the text that it logged: of the
/// output of each stream the decoded lines, each with a newline, the last one too.
pub proof fn law_streamed_result(
    runs: Seq<SubAgentRun>,
    events: Seq<RunEvent>,
    actions: Seq<RunAction>,
    out: Seq<u8>,
    err: Seq<u8>,
    waiting: SubAgentRun,
    wait: RunAction,
    code: Option<i32>,
    finished: SubAgentRun,
    done: RunAction,
)
    requires
        followed(runs, events, actions),
        runs[0].streaming,
        runs[0].logged(StreamKind::Stdout) == Seq::<char>::empty(),
        runs[0].logged(StreamKind::Stderr) == Seq::<char>::empty(),
        lines_from(events, StreamKind::Stdout) == raw_lines(out),
        lines_from(events, StreamKind::Stderr) == raw_lines(err),
        runs.last().goes_on(RunEvent::Drained, &waiting, wait),
        waiting.goes_on(RunEvent::Exited(Ok(code)), &finished, done),
    ensures
        done matches RunAction::Done(r) && ends_in(
            code_of(code),
            logged_text(raw_lines(out)),
            logged_text(raw_lines(err)),
            r,
        ),
{
    law_streamed_lines(runs, events, actions, StreamKind::Stdout);
    law_streamed_lines(runs, events, actions, StreamKind::Stderr);
    let o = logged_text(raw_lines(out));
    let e = logged_text(raw_lines(err));
    assert(runs[0].logged(StreamKind::Stdout) + o =~= o);
    assert(runs[0].logged(StreamKind::Stderr) + e =~= e);
}

/// Law: the time limit of a task counts, and else that of the options; a streaming run has none.
/// Either run begins with its log directory and starts the command for the task without guidance.
pub proof fn law_run_begins(
    workdir: &str,
    agent: &AgentSpec,
    task: &TaskSpec,
    opts: &SubAgentOptions,
    log_dir: &str,
    r: (SubAgentRun, RunAction),
    stream: Option<AgentStream>,
    s: (SubAgentRun, RunAction),
    none: Vec<String>,
    command: CommandSpec,
)
    requires
        call_ensures(run_subagent, (workdir, agent, task, opts, log_dir), r),
        call_ensures(run_subagent_streaming, (workdir, agent, task, opts, log_dir, stream), s),
        none@.len() == 0,
        call_ensures(build_command, (workdir, agent, task, opts, &none), command),
    ensures
        task.timeout_secs matches Some(n) ==> r.0.limit_secs == Some(n),
        task.timeout_secs is None ==> r.0.limit_secs == opts.time_budget_secs,
        s.0.limit_secs is None,
        !r.0.streaming,
        s.0.streaming,
        r.0.show_output == opts.show_output,
        s.0.show_output == opts.show_output,
        r.0.stream is None,
        s.0.stream == stream,
        r.1 matches RunAction::CreateDir(dir) && dir@ == log_dir@,
        s.1 matches RunAction::CreateDir(dir) && dir@ == log_dir@,
        r.0.command is Some && r.0.command->0@ == command@,
        s.0.command is Some && s.0.command->0@ == command@,
{
    assert(views(none@) =~= seq![]);
}

/// Law: a run goes through its steps in order: the directory, the process, its logs where they are
/// written as the output comes, its output, its end, and its logs where they are written at the end.
pub proof fn law_steps(run: SubAgentRun, event: RunEvent, after: SubAgentRun, action: RunAction)
    requires
        run.awaits(event),
        run.goes_on(event, &after, action),
    ensures
        event matches RunEvent::DirReady(Ok(_)) ==> action == RunAction::Spawn(run.command->0),
        event matches RunEvent::Spawned(Ok(got)) ==> (got == (true, true) ==> {
            &&& run.streaming ==> (action matches RunAction::OpenLogs { stdout, stderr } && stdout@
                == join_path(run.log_dir@, "stdout.log"@) && stderr@ == join_path(
                run.log_dir@,
                "stderr.log"@,
            ))
            &&& !run.streaming ==> action == (RunAction::Collect { limit_secs: run.limit_secs })
        }),
        event matches RunEvent::LogsOpen(Ok(_)) ==> action == RunAction::Follow,
        event is Collected || event is Drained ==> action == (RunAction::Wait {
            limit_secs: run.limit_secs,
        }),
        event matches RunEvent::Exited(Ok(_)) ==> (!run.streaming ==> (
        action matches RunAction::WriteLogs { stdout, stderr } && stdout@ == join_path(
            run.log_dir@,
            "stdout.log"@,
        ) && stderr@ == join_path(run.log_dir@, "stderr.log"@))),
        event is TimedOut ==> action == RunAction::Kill,
        after.limit_secs == run.limit_secs,
        after.streaming == run.streaming,
        after.log_dir == run.log_dir,
        after.show_output == run.show_output,
{
}

/// Law: what goes wrong on the way ends the run with that reason: the directory or the logs, the start
/// of the process or its streams, or waiting for it.
pub proof fn law_failed_steps(
    run: SubAgentRun,
    event: RunEvent,
    after: SubAgentRun,
    action: RunAction,
)
    requires
        run.awaits(event),
        run.goes_on(event, &after, action),
    ensures
        event matches RunEvent::DirReady(Err(e)) ==> (action matches RunAction::Done(
            Err(TaskError::Io(m)),
        ) && m@ == e@),
        event matches RunEvent::LogsOpen(Err(e)) ==> (action matches RunAction::Done(
            Err(TaskError::Io(m)),
        ) && m@ == e@),
        event matches RunEvent::LogsWritten(Err(e)) ==> (action matches RunAction::Done(
            Err(TaskError::Io(m)),
        ) && m@ == e@),
        event matches RunEvent::Spawned(Err(e)) ==> (action matches RunAction::Done(
            Err(TaskError::Spawn(m)),
        ) && m@ == e@),
        event matches RunEvent::Exited(Err(e)) ==> (action matches RunAction::Done(
            Err(TaskError::Spawn(m)),
        ) && m@ == e@),
        event matches RunEvent::Spawned(Ok(got)) ==> (got == (false, false) || got == (false, true)
            ==> (action matches RunAction::Done(Err(TaskError::Spawn(m))) && m@
            == "failed to capture stdout"@)),
        event matches RunEvent::Spawned(Ok(got)) ==> (got == (true, false) ==> (
        action matches RunAction::Done(Err(TaskError::Spawn(m))) && m@
            == "failed to capture stderr"@)),
        event is Killed ==> action == RunAction::Done(Err(TaskError::Timeout(run.limit_secs->0))),
        action is Done ==> after.phase == RunPhase::Finished,
{
}

/// Law: a run whose limit runs out kills the process and fails with that limit.
pub proof fn law_limit_runs_out(
    run: SubAgentRun,
    mid: SubAgentRun,
    first: RunAction,
    after: SubAgentRun,
    last: RunAction,
    secs: u64,
)
    requires
        run.limit_secs == Some(secs),
        run.awaits(RunEvent::TimedOut),
        run.goes_on(RunEvent::TimedOut, &mid, first),
        mid.goes_on(RunEvent::Killed, &after, last),
    ensures
        first == RunAction::Kill,
        mid.awaits(RunEvent::Killed),
        last == RunAction::Done(Err(TaskError::Timeout(secs))),
{
}

/// Law: exit code zero is a success with the output that was read; any other, and none, is a failure
/// with standard error as its message. A process without an exit code counts as one with code -1.
pub proof fn law_exit_decides(
    run: SubAgentRun,
    stdout: Vec<u8>,
    stderr: Vec<u8>,
    collected: SubAgentRun,
    a: RunAction,
    code: Option<i32>,
    exited: SubAgentRun,
    b: RunAction,
    after: SubAgentRun,
    r: Result<SubAgentResult, TaskError>,
)
    requires
        !run.streaming,
        run.goes_on(RunEvent::Collected { stdout, stderr }, &collected, a),
        collected.goes_on(RunEvent::Exited(Ok(code)), &exited, b),
        exited.goes_on(RunEvent::LogsWritten(Ok(())), &after, RunAction::Done(r)),
    ensures
        r is Ok <==> code == Some(0i32),
        r matches Ok(res) ==> res.status_code == 0 && res.stdout@ == decoded(stdout@) && res.stderr@
            == decoded(stderr@),
        code matches Some(c) ==> (c != 0 ==> (r matches Err(
            TaskError::SubAgentFailed { code: n, message },
        ) && n == c && message@ == decoded(stderr@))),
        code is None ==> (r matches Err(TaskError::SubAgentFailed { code: n, message }) && n == -1
            && message@ == decoded(stderr@)),
        exited.stdout == stdout,
        exited.stderr == stderr,
{
}

/// Law: a streaming run ends by its exit code as well, with the output that was logged.
pub proof fn law_streaming_exit(
    run: SubAgentRun,
    code: Option<i32>,
    after: SubAgentRun,
    action: RunAction,
)
    requires
        run.streaming,
        run.goes_on(RunEvent::Exited(Ok(code)), &after, action),
    ensures
        code == Some(0i32) ==> (action matches RunAction::Done(Ok(res)) && res.status_code == 0
            && res.stdout@ == run.stdout_text@ && res.stderr@ == run.stderr_text@),
        code matches Some(c) ==> (c != 0 ==> (action matches RunAction::Done(
            Err(TaskError::SubAgentFailed { code: n, message }),
        ) && n == c && message@ == run.stderr_text@)),
        code is None ==> (action matches RunAction::Done(
            Err(TaskError::SubAgentFailed { code: n, message }),
        ) && n == -1 && message@ == run.stderr_text@),
{
}

/// Law: a line that a streaming run reads is logged as it was printed, in the log of its stream alone,
/// printed where output is shown, and published where there is a stream.
pub proof fn law_streamed_line(
    run: SubAgentRun,
    kind: StreamKind,
    text: Seq<char>,
    raw: Vec<u8>,
    after: SubAgentRun,
    line: StreamedLine,
)
    requires
        raw@ == encode_utf8(text).push(10),
        run.goes_on(RunEvent::Line { kind, raw }, &after, RunAction::Log(line)),
    ensures
        line.kind == kind,
        line.log_text@ == text + seq!['\n'],
        line.shown is Some <==> run.show_output,
        line.shown matches Some(t) ==> t@ == text + seq!['\n'],
        line.published is Some <==> run.stream is Some,
        line.published matches Some(item) ==> item.kind == kind && item.text@ == text,
        kind == StreamKind::Stdout ==> after.stdout_text@ == run.stdout_text@ + text + seq!['\n']
            && after.stderr_text@ == run.stderr_text@,
        kind == StreamKind::Stderr ==> after.stderr_text@ == run.stderr_text@ + text + seq!['\n']
            && after.stdout_text@ == run.stdout_text@,
{
    law_printed_line(text);
    assert(logged_line(raw@) =~= text + seq!['\n']);
    assert(after.logged(StreamKind::Stdout) == after.stdout_text@);
    assert(after.logged(StreamKind::Stderr) == after.stderr_text@);
    assert(run.stdout_text@ + (text + seq!['\n']) =~= run.stdout_text@ + text + seq!['\n']);
    assert(run.stderr_text@ + (text + seq!['\n']) =~= run.stderr_text@ + text + seq!['\n']);
    match line.published {
        Some(item) => {
            assert(item@.text == item.text@ && item@.kind == item.kind);
        },
        None => {},
    }
}

/// Law: a control operation is recorded where it succeeded and the sub-agent's events are recorded:
/// as a pause, a resumption, or guidance that was given.
pub proof fn law_controls_recorded(
    c: &SubAgentController,
    sent: Result<(), TaskError>,
    now: &str,
    p: Controlled,
    q: Controlled,
    guidance: &str,
    written: Result<(), String>,
    i: Controlled,
)
    requires
        call_ensures(SubAgentController::paused, (c, sent, now), p),
        call_ensures(SubAgentController::resumed, (c, sent, now), q),
        call_ensures(SubAgentController::injected, (c, guidance, written, now), i),
    ensures
        p.0 == sent,
        q.0 == sent,
        p.1 is Some <==> sent is Ok && c@.event is Some,
        q.1 is Some <==> sent is Ok && c@.event is Some,
        i.1 is Some <==> written is Ok && c@.event is Some,
        c@.event matches Some(ctx) ==> {
            &&& p.1 matches Some(w) ==> w@ == event_record(ctx, now@, EventView::Pause)
            &&& q.1 matches Some(w) ==> w@ == event_record(ctx, now@, EventView::Resume)
            &&& i.1 matches Some(w) ==> w@ == event_record(
                ctx,
                now@,
                EventView::Inject { guidance: guidance@ },
            )
        },
        i.0 is Ok <==> written is Ok,
        written matches Err(e) ==> (i.0 matches Err(TaskError::Injection(m)) && m@ == e@),
{
}

/// Law: guidance is written to the sub-agent's standard input as a line, where that is open.
pub proof fn law_injected_text(
    c: &SubAgentController,
    guidance: &str,
    r: Result<String, TaskError>,
)
    requires
        call_ensures(SubAgentController::inject, (c, guidance), r),
    ensures
        r is Ok <==> c@.stdin_open,
        r matches Ok(text) ==> text@ == guidance@ + seq!['\n'],
        r matches Err(e) ==> e is StdinClosed,
{
    assert(guidance@.push('\n') =~= guidance@ + seq!['\n']);
}

/// Law: a controller starts the command for its task, with the guidance that it was given so far.
pub proof fn law_controlled_command(
    c: ControllerView,
    workdir: &str,
    agent: &AgentSpec,
    task: &TaskSpec,
    opts: &SubAgentOptions,
    guidance: Vec<String>,
    command: CommandSpec,
    event: Option<SubAgentEventCtx>,
    spawned: (SubAgentController, CommandSpec),
)
    requires
        c.workdir == workdir@,
        c.agent == agent@,
        c.task == task@,
        c.opts == opts@,
        c.guidance == views(guidance@),
        call_ensures(build_command, (workdir, agent, task, opts, &guidance), command),
        call_ensures(SubAgentController::spawn, (workdir, agent, task, opts, event), spawned),
    ensures
        c.command() == command@,
        guidance@.len() == 0 ==> spawned.1@ == command@,
        spawned.0@.workdir == workdir@,
        spawned.0@.agent == agent@,
        spawned.0@.task == task@,
        spawned.0@.opts == opts@,
        spawned.0@.guidance.len() == 0,
        spawned.0@.event == opt_view(event),
        !spawned.0@.stdin_open,
{
    if guidance@.len() == 0 {
        assert(views(guidance@) =~= seq![]);
    }
}

/// Law: the program knows the flag for approvals exactly where its help text names it.
pub proof fn law_flag_detected(bytes: &Vec<u8>, r: bool, s: bool)
    requires
        call_ensures(detect_supports_approval_flag, (Some(bytes),), r),
        call_ensures(detect_supports_approval_flag, (None,), s),
    ensures
        r <==> contains_text(decoded(bytes@), "ask-for-approval"@),
        !s,
{
}

/// Law: a run waits for what its last action leads to: for lines of output only as long as it streams,
/// and for its limit to run out only where it has one.
pub proof fn law_awaited(run: SubAgentRun, event: RunEvent)
    ensures
        run.phase == RunPhase::CreatingDir ==> (run.awaits(event) <==> event is DirReady),
        run.phase == RunPhase::Spawning ==> (run.awaits(event) <==> event is Spawned),
        run.phase == RunPhase::OpeningLogs ==> (run.awaits(event) <==> event is LogsOpen),
        run.phase == RunPhase::Collecting && run.streaming && run.limit_secs is None ==> (
        run.awaits(event) <==> event is Line || event is Drained),
        run.phase == RunPhase::Collecting && !run.streaming ==> (run.awaits(event)
            <==> event is Collected || (event is TimedOut && run.limit_secs is Some)),
        run.phase == RunPhase::Waiting ==> (run.awaits(event) <==> event is Exited || (
        event is TimedOut && run.limit_secs is Some)),
        run.phase == RunPhase::Killing ==> (run.awaits(event) <==> event is Killed),
        run.phase == RunPhase::WritingLogs ==> (run.awaits(event) <==> event is LogsWritten),
        run.phase == RunPhase::Finished ==> !run.awaits(event),
{
}

/// Law: after each event a run waits for what its next action leads to.
pub proof fn law_phases(run: SubAgentRun, event: RunEvent, after: SubAgentRun, action: RunAction)
    requires
        run.awaits(event),
        run.goes_on(event, &after, action),
    ensures
        action is Spawn ==> after.phase == RunPhase::Spawning,
        action is OpenLogs ==> after.phase == RunPhase::OpeningLogs,
        action is Collect || action is Follow || action is Log ==> after.phase
            == RunPhase::Collecting,
        action is Wait ==> after.phase == RunPhase::Waiting,
        action is Kill ==> after.phase == RunPhase::Killing,
        action is WriteLogs ==> after.phase == RunPhase::WritingLogs,
        action is Done <==> after.phase == RunPhase::Finished,
        event matches RunEvent::Exited(Ok(Some(c))) ==> (!run.streaming ==> after.code == c),
        event matches RunEvent::Exited(Ok(None)) ==> (!run.streaming ==> after.code == -1),
        event !is Line ==> after.stdout_text == run.stdout_text && after.stderr_text
            == run.stderr_text && after.stream == run.stream,
{
}

/// Law: a run of a sub-agent goes on from each event as its state and the event say.
pub proof fn law_stepped(run: &mut SubAgentRun, event: RunEvent, action: RunAction)
    requires
        call_ensures(SubAgentRun::step, (run, event), action),
    ensures
        old(run).goes_on(event, final(run), action),
        final(run).wf(),
{
}

/// Law: a started sub-agent is controlled by its process, and guidance can be written to it where its
/// standard input is open. One that could not be started leaves everything as it was.
pub proof fn law_launched(
    c: &mut SubAgentController,
    launch: Result<Launch, String>,
    r: Result<(), TaskError>,
)
    requires
        call_ensures(SubAgentController::launched, (c, launch), r),
    ensures
        r is Ok <==> launch is Ok,
        launch matches Ok(l) ==> {
            &&& l.pid matches Some(pid) ==> final(c)@.pid == pid
            &&& l.pid is None ==> final(c)@.pid == 0
            &&& final(c)@.stdin_open == l.stdin
            &&& final(c)@.guidance == old(c)@.guidance
            &&& final(c)@.event == old(c)@.event
        },
        launch matches Err(e) ==> (r matches Err(TaskError::Spawn(m)) && m@ == e@) && final(c)@
            == old(c)@,
        final(c)@.task == old(c)@.task,
        final(c)@.agent == old(c)@.agent,
        final(c)@.workdir == old(c)@.workdir,
{
}

/// Law: a sub-agent that is started anew has all the guidance that it was given before, and the new one
/// behind it. What came of it is recorded as a restart with that guidance, where it succeeded.
pub proof fn law_restarted(
    c: &mut SubAgentController,
    guidance: &str,
    command: CommandSpec,
    d: &mut SubAgentController,
    launch: Result<Launch, String>,
    now: &str,
    r: Controlled,
)
    requires
        call_ensures(SubAgentController::restart_with_appended_guidance, (c, guidance), command),
        call_ensures(SubAgentController::restarted, (d, guidance, launch, now), r),
    ensures
        final(c)@.guidance == old(c)@.guidance + seq![guidance@],
        final(c)@.task == old(c)@.task,
        final(c)@.agent == old(c)@.agent,
        final(c)@.opts == old(c)@.opts,
        final(c)@.workdir == old(c)@.workdir,
        final(c)@.event == old(c)@.event,
        command@ == final(c)@.command(),
        r.0 is Ok <==> launch is Ok,
        r.1 is Some <==> launch is Ok && old(d)@.event is Some,
        old(d)@.event matches Some(ctx) ==> (r.1 matches Some(w) ==> w@ == event_record(
            ctx,
            now@,
            EventView::Restart { guidance: guidance@ },
        )),
        launch matches Ok(l) ==> final(d)@.stdin_open == l.stdin,
        final(d)@.guidance == old(d)@.guidance,
{
    assert(old(c)@.guidance.push(guidance@) =~= old(c)@.guidance + seq![guidance@]);
}

} // verus!
