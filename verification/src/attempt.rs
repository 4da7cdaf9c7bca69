//! Running one task: its attempts, each with its logs, events and updates, until one succeeds or no
//! retry is left.

use vstd::prelude::*;
use vstd::string::*;

use crate::command::build_command;
use crate::command::CommandSpec;
use crate::command::SubAgentOptions;
use crate::dashboard::AgentStatus;
use crate::error::TaskError;
use crate::events::event_record;
use crate::events::event_write;
use crate::events::Event;
use crate::events::EventCtxView;
use crate::events::EventView;
use crate::events::EventWrite;
use crate::events::SubAgentEventCtx;
use crate::multi_agent_dashboard::MultiAgentUpdate;
use crate::multi_agent_dashboard::UpdateView;
use crate::options::RunnerOptions;
use crate::options::RunnerView;
use crate::paths::join_path;
use crate::paths::path_join;
use crate::runner::TaskLaunch;
use crate::schema::AgentSpec;
use crate::schema::AgentView;
use crate::schema::TaskSpec;
use crate::schema::TaskView;
use crate::screen::plain_line;
use crate::screen::Line;
use crate::subagent::code_of;
use crate::subagent::limit_of;
use crate::subagent::ControllerView;
use crate::subagent::SubAgentController;
use crate::text::decimal;
use crate::text::join;
use crate::text::joined;
use crate::text::lemma_views_push;
use crate::text::opt_view;
use crate::text::push_decimal;
use crate::text::views;

verus! {

/// How many lines of output are kept in memory for a task.
pub const STREAM_CAPACITY: usize = 5000;

/// What a task waits for.
#[derive(Clone, Copy, Debug, PartialEq, Eq, Structural)]
pub enum AttemptPhase {
    CreatingWorkdir,
    CreatingLogDir,
    Spawning,
    OpeningLogs,
    TakingSpool,
    Injecting,
    Streaming,
    Killing,
    Waiting,
    Sleeping,
    Finished,
}

/// What is to be done next for a task.
#[derive(Debug)]
pub enum AttemptAction {
    /// Create a directory and those above it.
    CreateDir(String),
    /// Keep the output of the task in a new stream of this capacity, and start the process.
    Spawn { capacity: usize, controller: SubAgentController, command: CommandSpec },
    /// Let the controller be found under the id of the task, and open the two log files anew.
    OpenLogs { stdout: String, stderr: String },
    /// Take the messages that wait for the task.
    TakeSpool,
    /// Give guidance to the sub-agent and resume it.
    Inject(String),
    /// Follow both output streams to their end, within the time limit where there is one. The limit
    /// counts from here.
    Stream { limit_secs: Option<u64> },
    /// Kill the process. Then its controller is found under the id of the task no longer.
    Kill,
    /// Wait for the process to end, within what is left of the time limit where there is one. Once it
    /// has ended, its controller is found under the id of the task no longer.
    Wait { limit_secs: Option<u64> },
    /// Let so many milliseconds pass.
    Sleep(u64),
    /// The task is over.
    Done(Result<(), TaskError>),
}

/// What came of the last action.
#[derive(Debug)]
pub enum AttemptEvent {
    DirReady(Result<(), String>),
    /// Whether the process started, and whether its two output streams could be taken.
    Spawned(Result<(bool, bool), TaskError>),
    LogsOpen(Result<(), String>),
    /// The messages that waited, where they could be taken.
    Queued(Option<Vec<String>>),
    Injected,
    Streamed,
    TimedOut,
    Killed,
    /// The exit code, where the process has one.
    Exited(Result<Option<i32>, String>),
    Slept,
}

/// What is to be done: first an event is recorded, then the dashboard is told, then comes the action.
#[derive(Debug)]
pub struct AttemptStep {
    pub event: Option<EventWrite>,
    pub updates: Vec<MultiAgentUpdate>,
    pub action: AttemptAction,
}

/// A run of one task.
#[derive(Debug)]
pub struct TaskRun {
    pub phase: AttemptPhase,
    /// The number of the attempt, from one.
    pub attempt: u32,
    /// How many messages waited for this attempt.
    pub delivered: usize,
    pub launch: TaskLaunch,
    pub opts: RunnerOptions,
}

/// The model of a `TaskRun`.
#[verifier::ext_equal]
pub struct TaskRunView {
    pub phase: AttemptPhase,
    pub attempt: u32,
    pub delivered: nat,
    pub run_dir: Seq<char>,
    pub task: TaskView,
    pub agent: AgentView,
    pub opts: RunnerView,
}

impl View for TaskRun {
    type V = TaskRunView;

    open spec fn view(&self) -> TaskRunView {
        TaskRunView {
            phase: self.phase,
            attempt: self.attempt,
            delivered: self.delivered as nat,
            run_dir: self.launch.run_dir@,
            task: self.launch.task@,
            agent: self.launch.agent@,
            opts: self.opts@,
        }
    }
}

/// The banner that tells of delivered messages.
pub open spec fn delivery_text(count: nat) -> Seq<char> {
    " Delivered "@ + decimal(count) + " spooled message(s)"@
}

/// Whether `error` tells that a process ended with an exit code other than zero.
pub open spec fn exit_error(code: i32, error: TaskError) -> bool {
    match error {
        TaskError::SubAgentFailed { code: c, message } => c == code && message@ == ""@,
        _ => false,
    }
}

impl TaskRunView {
    /// How often the task is tried again.
    pub open spec fn retries(self) -> u32 {
        match self.task.retries {
            Some(n) => n,
            None => self.opts.retries,
        }
    }

    /// The time limit of an attempt.
    pub open spec fn limit(self) -> Option<u64> {
        limit_of(self.task.timeout_secs, self.opts.subagent.time_budget_secs)
    }

    /// The working directory of the task.
    pub open spec fn cwd(self) -> Seq<char> {
        match self.task.cwd {
            Some(cwd) => cwd,
            None => match self.opts.default_cwd {
                Some(cwd) => cwd,
                None => join_path(self.run_dir, "work"@),
            },
        }
    }

    /// The directory for the logs of this attempt.
    pub open spec fn log_dir(self) -> Seq<char> {
        join_path(self.run_dir, "attempt-"@ + decimal(self.attempt as nat))
    }

    /// Where the events of this attempt go.
    pub open spec fn ctx(self) -> EventCtxView {
        EventCtxView { run_dir: self.run_dir, task_id: self.task.id, attempt: self.attempt }
    }

    /// The controller that is made for this attempt.
    pub open spec fn controller(self) -> ControllerView {
        ControllerView {
            pid: 0,
            stdin_open: false,
            event: Some(self.ctx()),
            workdir: self.cwd(),
            agent: self.agent,
            task: self.task,
            opts: self.opts.subagent,
            guidance: seq![],
        }
    }

    /// Whether the task waits for this event.
    pub open spec fn awaits(self, event: AttemptEvent) -> bool {
        match event {
            AttemptEvent::DirReady(_) => self.phase == AttemptPhase::CreatingWorkdir || self.phase
                == AttemptPhase::CreatingLogDir,
            AttemptEvent::Spawned(_) => self.phase == AttemptPhase::Spawning,
            AttemptEvent::LogsOpen(_) => self.phase == AttemptPhase::OpeningLogs,
            AttemptEvent::Queued(_) => self.phase == AttemptPhase::TakingSpool,
            AttemptEvent::Injected => self.phase == AttemptPhase::Injecting,
            AttemptEvent::Streamed => self.phase == AttemptPhase::Streaming,
            AttemptEvent::TimedOut => (self.phase == AttemptPhase::Streaming || self.phase
                == AttemptPhase::Waiting) && self.limit() is Some,
            AttemptEvent::Killed => self.phase == AttemptPhase::Killing && self.limit() is Some,
            AttemptEvent::Exited(_) => self.phase == AttemptPhase::Waiting,
            AttemptEvent::Slept => self.phase == AttemptPhase::Sleeping && self.attempt
                < u32::MAX,
        }
    }

    /// The phase that a failed attempt leads to.
    pub open spec fn phase_after_failure(self) -> AttemptPhase {
        if self.attempt > self.retries() {
            AttemptPhase::Finished
        } else {
            AttemptPhase::Sleeping
        }
    }

    /// Whether `step` is what is to be done after a failed attempt: the event is recorded, and the
    /// task ends with `error`, or is tried again later.
    pub open spec fn fails(
        self,
        now: Seq<char>,
        event: EventView,
        error: TaskError,
        step: AttemptStep,
    ) -> bool {
        &&& step.event is Some
        &&& step.event->0@ == event_record(self.ctx(), now, event)
        &&& views(step.updates@) == self.shown(
            seq![UpdateView::SetStatus { task_id: self.task.id, status: AgentStatus::Error }],
        )
        &&& if self.attempt > self.retries() {
            step.action == AttemptAction::Done(Err(error))
        } else {
            step.action matches AttemptAction::Sleep(ms) && ms == 500 * self.attempt
        }
    }

    /// The phase that an event leads to.
    pub open spec fn next_phase(self, event: AttemptEvent) -> AttemptPhase {
        match event {
            AttemptEvent::DirReady(Ok(())) => if self.phase == AttemptPhase::CreatingWorkdir {
                AttemptPhase::CreatingLogDir
            } else {
                AttemptPhase::Spawning
            },
            AttemptEvent::DirReady(Err(_)) => AttemptPhase::Finished,
            AttemptEvent::Spawned(Ok((has_out, has_err))) => if has_out && has_err {
                AttemptPhase::OpeningLogs
            } else {
                AttemptPhase::Finished
            },
            AttemptEvent::Spawned(Err(_)) => AttemptPhase::Finished,
            AttemptEvent::LogsOpen(Ok(())) => AttemptPhase::TakingSpool,
            AttemptEvent::LogsOpen(Err(_)) => AttemptPhase::Finished,
            AttemptEvent::Queued(Some(messages)) => if messages@.len() > 0 {
                AttemptPhase::Injecting
            } else {
                AttemptPhase::Streaming
            },
            AttemptEvent::Queued(None) => AttemptPhase::Streaming,
            AttemptEvent::Injected => AttemptPhase::Streaming,
            AttemptEvent::Streamed => AttemptPhase::Waiting,
            AttemptEvent::TimedOut => AttemptPhase::Killing,
            AttemptEvent::Killed => self.phase_after_failure(),
            AttemptEvent::Exited(Ok(code)) => if code_of(code) != 0 {
                self.phase_after_failure()
            } else {
                AttemptPhase::Finished
            },
            AttemptEvent::Exited(Err(_)) => AttemptPhase::Finished,
            AttemptEvent::Slept => AttemptPhase::CreatingWorkdir,
        }
    }

    /// The state after an event.
    pub open spec fn after(self, event: AttemptEvent) -> TaskRunView {
        TaskRunView {
            phase: self.next_phase(event),
            attempt: if event is Slept {
                (self.attempt + 1) as u32
            } else {
                self.attempt
            },
            delivered: match event {
                AttemptEvent::Queued(Some(messages)) => messages@.len(),
                AttemptEvent::Queued(None) => 0,
                _ => self.delivered,
            },
            ..self
        }
    }

    /// The updates for the dashboard, where there is one.
    pub open spec fn shown(self, updates: Seq<UpdateView>) -> Seq<UpdateView> {
        if self.opts.ui {
            updates
        } else {
            seq![]
        }
    }

    /// Whether a step records nothing and tells nothing.
    pub open spec fn silent(self, step: AttemptStep) -> bool {
        step.event is None && views(step.updates@) == Seq::<UpdateView>::empty()
    }

    /// Whether `step` is what is to be done upon an event.
    pub open spec fn due(self, event: AttemptEvent, now: Seq<char>, step: AttemptStep) -> bool {
        let id = self.task.id;
        match event {
            AttemptEvent::DirReady(Ok(())) => if self.phase == AttemptPhase::CreatingWorkdir {
                &&& self.silent(step)
                &&& step.action matches AttemptAction::CreateDir(dir) && dir@ == self.log_dir()
            } else {
                &&& step.event is Some
                &&& step.event->0@ == event_record(
                    self.ctx(),
                    now,
                    EventView::Start { cwd: self.cwd() },
                )
                &&& views(step.updates@) == self.shown(
                    seq![
                        UpdateView::SetStatus { task_id: id, status: AgentStatus::Running },
                        UpdateView::Snapshot {
                            task_id: id,
                            log: seq![],
                            status: AgentStatus::Running,
                            banner: None,
                        },
                    ],
                )
                &&& step.action matches AttemptAction::Spawn { capacity, controller, command }
                    && capacity == STREAM_CAPACITY && controller@ == self.controller() && command@
                    == self.controller().command()
            },
            AttemptEvent::DirReady(Err(e)) => {
                &&& self.silent(step)
                &&& step.action matches AttemptAction::Done(Err(TaskError::Io(m))) && m@ == e@
            },
            AttemptEvent::Spawned(Err(e)) => {
                &&& self.silent(step)
                &&& step.action == AttemptAction::Done(Err(e))
            },
            AttemptEvent::Spawned(Ok((has_out, has_err))) => {
                &&& self.silent(step)
                &&& if !has_out {
                    step.action matches AttemptAction::Done(Err(TaskError::Spawn(m))) && m@
                        == "failed to capture stdout"@
                } else if !has_err {
                    step.action matches AttemptAction::Done(Err(TaskError::Spawn(m))) && m@
                        == "failed to capture stderr"@
                } else {
                    step.action matches AttemptAction::OpenLogs { stdout, stderr } && stdout@
                        == join_path(self.log_dir(), "stdout.log"@) && stderr@ == join_path(
                        self.log_dir(),
                        "stderr.log"@,
                    )
                }
            },
            AttemptEvent::LogsOpen(Err(e)) => {
                &&& self.silent(step)
                &&& step.action matches AttemptAction::Done(Err(TaskError::Io(m))) && m@ == e@
            },
            AttemptEvent::LogsOpen(Ok(())) => {
                &&& step.event is None
                &&& views(step.updates@) == self.shown(
                    seq![
                        UpdateView::SetLogFiles {
                            task_id: id,
                            stdout: join_path(self.log_dir(), "stdout.log"@),
                            stderr: join_path(self.log_dir(), "stderr.log"@),
                        },
                    ],
                )
                &&& step.action is TakeSpool
            },
            AttemptEvent::Queued(None) => {
                &&& self.silent(step)
                &&& step.action == AttemptAction::Stream { limit_secs: self.limit() }
            },
            AttemptEvent::Queued(Some(messages)) => {
                &&& self.silent(step)
                &&& if messages@.len() > 0 {
                    step.action matches AttemptAction::Inject(text) && text@ == join(
                        views(messages@),
                        "\n"@,
                    )
                } else {
                    step.action == AttemptAction::Stream { limit_secs: self.limit() }
                }
            },
            AttemptEvent::Injected => {
                &&& step.event is None
                &&& views(step.updates@) == self.shown(
                    seq![
                        UpdateView::SetBanner {
                            task_id: id,
                            banner: Some(plain_line(delivery_text(self.delivered))),
                        },
                    ],
                )
                &&& step.action == AttemptAction::Stream { limit_secs: self.limit() }
            },
            AttemptEvent::Streamed => self.silent(step) && step.action == (AttemptAction::Wait {
                limit_secs: self.limit(),
            }),
            AttemptEvent::TimedOut => self.silent(step) && step.action is Kill,
            AttemptEvent::Killed => {
                let error = TaskError::Timeout(self.limit()->0);
                self.fails(now, EventView::Fault { error: error.message_text() }, error, step)
            },
            AttemptEvent::Exited(Err(e)) => {
                &&& self.silent(step)
                &&& step.action matches AttemptAction::Done(Err(TaskError::Spawn(m))) && m@ == e@
            },
            AttemptEvent::Exited(Ok(code)) => if code_of(code) == 0 {
                &&& step.event is Some
                &&& step.event->0@ == event_record(self.ctx(), now, EventView::Success)
                &&& views(step.updates@) == self.shown(
                    seq![
                        UpdateView::SetStatus { task_id: id, status: AgentStatus::Done },
                        UpdateView::SetBanner { task_id: id, banner: None },
                    ],
                )
                &&& step.action == AttemptAction::Done(Ok(()))
            } else {
                exists|error: TaskError| #[trigger]
                    exit_error(code_of(code), error) && self.fails(
                        now,
                        EventView::Error { code: code_of(code) },
                        error,
                        step,
                    )
            },
            AttemptEvent::Slept => {
                &&& self.silent(step)
                &&& step.action matches AttemptAction::CreateDir(dir) && dir@ == self.cwd()
            },
        }
    }
}

impl TaskRun {
    /// Begins to run a task: its working directory is created first.
    pub fn begin(launch: TaskLaunch, opts: RunnerOptions) -> (r: (Self, AttemptStep))
        ensures
            r.0@ == (TaskRunView {
                phase: AttemptPhase::CreatingWorkdir,
                attempt: 1,
                delivered: 0,
                run_dir: launch.run_dir@,
                task: launch.task@,
                agent: launch.agent@,
                opts: opts@,
            }),
            r.0@.silent(r.1),
            r.1.action matches AttemptAction::CreateDir(dir) && dir@ == r.0@.cwd(),
    {
        let run = TaskRun {
            phase: AttemptPhase::CreatingWorkdir,
            attempt: 1,
            delivered: 0,
            launch,
            opts,
        };
        let step = quiet(AttemptAction::CreateDir(run.workdir()));
        (run, step)
    }

    /// The working directory of the task.
    fn workdir(&self) -> (r: String)
        ensures
            r@ == self@.cwd(),
    {
        match &self.launch.task.cwd {
            Some(cwd) => cwd.clone(),
            None => match &self.opts.default_cwd {
                Some(cwd) => cwd.clone(),
                None => path_join(self.launch.run_dir.as_str(), "work"),
            },
        }
    }

    /// The directory for the logs of this attempt.
    fn log_dir(&self) -> (r: String)
        ensures
            r@ == self@.log_dir(),
    {
        let mut name = "attempt-".to_owned();
        push_decimal(&mut name, self.attempt as u64);
        path_join(self.launch.run_dir.as_str(), name.as_str())
    }

    /// The line for an event of this attempt.
    fn record(&self, now: &str, event: Event) -> (r: Option<EventWrite>)
        ensures
            r is Some,
            r->0@ == event_record(self@.ctx(), now@, event@),
    {
        Some(event_write(&self.event_ctx(), now, &event))
    }

    /// Where the events of this attempt go.
    pub fn event_ctx(&self) -> (r: SubAgentEventCtx)
        ensures
            r@ == self@.ctx(),
    {
        SubAgentEventCtx {
            run_dir: self.launch.run_dir.clone(),
            task_id: self.launch.task.id.clone(),
            attempt: self.attempt,
        }
    }

    /// The update that sets the status of the task.
    fn status(&self, status: AgentStatus) -> (r: MultiAgentUpdate)
        ensures
            r@ == (UpdateView::SetStatus { task_id: self@.task.id, status }),
    {
        MultiAgentUpdate::SetStatus { task_id: self.launch.task.id.clone(), status }
    }

    /// Starts the process of this attempt.
    fn start(&self, now: &str) -> (step: AttemptStep)
        requires
            self.phase == AttemptPhase::CreatingLogDir,
        ensures
            self@.due(AttemptEvent::DirReady(Ok(())), now@, step),
    {
        broadcast use lemma_views_push;

        let cwd = self.workdir();
        let event = self.record(now, Event::Start { cwd: cwd.clone() });
        let mut updates: Vec<MultiAgentUpdate> = Vec::new();
        if self.opts.ui {
            updates.push(self.status(AgentStatus::Running));
            let log: Vec<Line> = Vec::new();
            assert(views(log@) =~= seq![]);
            updates.push(
                MultiAgentUpdate::Snapshot {
                    task_id: self.launch.task.id.clone(),
                    log,
                    status: AgentStatus::Running,
                    banner: None,
                },
            );
        }
        proof {
            assert(views(updates@) =~= self@.shown(
                seq![
                    UpdateView::SetStatus {
                        task_id: self@.task.id,
                        status: AgentStatus::Running,
                    },
                    UpdateView::Snapshot {
                        task_id: self@.task.id,
                        log: seq![],
                        status: AgentStatus::Running,
                        banner: None,
                    },
                ],
            ));
        }
        let (controller, command) = SubAgentController::spawn(
            cwd.as_str(),
            &self.launch.agent,
            &self.launch.task,
            &self.opts.subagent,
            Some(self.event_ctx()),
        );
        AttemptStep {
            event,
            updates,
            action: AttemptAction::Spawn { capacity: STREAM_CAPACITY, controller, command },
        }
    }

    /// Concludes an attempt by its exit code.
    fn conclude(&self, code: Option<i32>, now: &str) -> (step: AttemptStep)
        ensures
            self@.due(AttemptEvent::Exited(Ok(code)), now@, step),
            step.action is Sleep <==> code_of(code) != 0 && self@.phase_after_failure()
                == AttemptPhase::Sleeping,
    {
        broadcast use lemma_views_push;

        let code: i32 = match code {
            Some(c) => c,
            None => -1,
        };
        if code != 0 {
            let error = TaskError::SubAgentFailed { code, message: "".to_owned() };
            assert(exit_error(code, error));
            return self.failed(now, Event::Error { code }, error);
        }
        let mut updates: Vec<MultiAgentUpdate> = Vec::new();
        let event = self.record(now, Event::Success);
        if self.opts.ui {
            updates.push(self.status(AgentStatus::Done));
            updates.push(
                MultiAgentUpdate::SetBanner {
                    task_id: self.launch.task.id.clone(),
                    banner: None,
                },
            );
        }
        proof {
            assert(views(updates@) =~= self@.shown(
                seq![
                    UpdateView::SetStatus { task_id: self@.task.id, status: AgentStatus::Done },
                    UpdateView::SetBanner { task_id: self@.task.id, banner: None },
                ],
            ));
        }
        AttemptStep { event, updates, action: AttemptAction::Done(Ok(())) }
    }

    /// Concludes an attempt that failed.
    fn failed(&self, now: &str, event: Event, error: TaskError) -> (step: AttemptStep)
        ensures
            self@.fails(now@, event@, error, step),
            step.action is Sleep <==> self@.phase_after_failure() == AttemptPhase::Sleeping,
    {
        broadcast use lemma_views_push;

        let event = self.record(now, event);
        let mut updates: Vec<MultiAgentUpdate> = Vec::new();
        if self.opts.ui {
            updates.push(self.status(AgentStatus::Error));
        }
        proof {
            assert(views(updates@) =~= self@.shown(
                seq![
                    UpdateView::SetStatus { task_id: self@.task.id, status: AgentStatus::Error },
                ],
            ));
        }
        let retries: u32 = match self.launch.task.retries {
            Some(n) => n,
            None => self.opts.retries,
        };
        let action = if self.attempt > retries {
            AttemptAction::Done(Err(error))
        } else {
            AttemptAction::Sleep(500 * self.attempt as u64)
        };
        AttemptStep { event, updates, action }
    }

    /// The time limit of an attempt.
    fn limit_secs(&self) -> (r: Option<u64>)
        ensures
            r == self@.limit(),
    {
        if self.launch.task.timeout_secs.is_some() {
            self.launch.task.timeout_secs
        } else {
            self.opts.subagent.time_budget_secs
        }
    }

    /// Takes note of whether the task is to be tried again.
    fn settle(&mut self, step: &AttemptStep)
        ensures
            final(self)@ == (TaskRunView {
                phase: (if step.action is Sleep {
                    AttemptPhase::Sleeping
                } else {
                    AttemptPhase::Finished
                }),
                ..old(self)@
            }),
    {
        self.phase = match step.action {
            AttemptAction::Sleep(_) => AttemptPhase::Sleeping,
            _ => AttemptPhase::Finished,
        };
    }

    /// Goes on with what came of the last action, at time `now`.
    pub fn step(&mut self, event: AttemptEvent, now: &str) -> (step: AttemptStep)
        requires
            old(self)@.awaits(event),
        ensures
            final(self)@ == old(self)@.after(event),
            old(self)@.due(event, now@, step),
    {
        broadcast use lemma_views_push;

        match event {
            AttemptEvent::DirReady(Ok(())) => {
                if self.phase == AttemptPhase::CreatingWorkdir {
                    self.phase = AttemptPhase::CreatingLogDir;
                    quiet(AttemptAction::CreateDir(self.log_dir()))
                } else {
                    let step = self.start(now);
                    self.phase = AttemptPhase::Spawning;
                    step
                }
            },
            AttemptEvent::DirReady(Err(e)) => self.fail(TaskError::Io(e)),
            AttemptEvent::Spawned(Err(e)) => self.fail(e),
            AttemptEvent::Spawned(Ok((has_out, has_err))) => {
                if !has_out {
                    self.fail(TaskError::Spawn("failed to capture stdout".to_owned()))
                } else if !has_err {
                    self.fail(TaskError::Spawn("failed to capture stderr".to_owned()))
                } else {
                    self.phase = AttemptPhase::OpeningLogs;
                    let dir = self.log_dir();
                    quiet(
                        AttemptAction::OpenLogs {
                            stdout: path_join(dir.as_str(), "stdout.log"),
                            stderr: path_join(dir.as_str(), "stderr.log"),
                        },
                    )
                }
            },
            AttemptEvent::LogsOpen(Err(e)) => self.fail(TaskError::Io(e)),
            AttemptEvent::LogsOpen(Ok(())) => {
                self.phase = AttemptPhase::TakingSpool;
                let mut updates: Vec<MultiAgentUpdate> = Vec::new();
                if self.opts.ui {
                    let dir = self.log_dir();
                    updates.push(
                        MultiAgentUpdate::SetLogFiles {
                            task_id: self.launch.task.id.clone(),
                            stdout: path_join(dir.as_str(), "stdout.log"),
                            stderr: path_join(dir.as_str(), "stderr.log"),
                        },
                    );
                }
                proof {
                    assert(views(updates@) =~= self@.shown(
                        seq![
                            UpdateView::SetLogFiles {
                                task_id: self@.task.id,
                                stdout: join_path(self@.log_dir(), "stdout.log"@),
                                stderr: join_path(self@.log_dir(), "stderr.log"@),
                            },
                        ],
                    ));
                }
                AttemptStep { event: None, updates, action: AttemptAction::TakeSpool }
            },
            AttemptEvent::Queued(None) => {
                self.delivered = 0;
                self.phase = AttemptPhase::Streaming;
                quiet(AttemptAction::Stream { limit_secs: self.limit_secs() })
            },
            AttemptEvent::Queued(Some(messages)) => {
                self.delivered = messages.len();
                if messages.len() > 0 {
                    self.phase = AttemptPhase::Injecting;
                    quiet(AttemptAction::Inject(joined(&messages, "\n")))
                } else {
                    self.phase = AttemptPhase::Streaming;
                    quiet(AttemptAction::Stream { limit_secs: self.limit_secs() })
                }
            },
            AttemptEvent::Injected => {
                self.phase = AttemptPhase::Streaming;
                let mut updates: Vec<MultiAgentUpdate> = Vec::new();
                if self.opts.ui {
                    let mut text = " Delivered ".to_owned();
                    push_decimal(&mut text, self.delivered as u64);
                    text.append(" spooled message(s)");
                    updates.push(
                        MultiAgentUpdate::SetBanner {
                            task_id: self.launch.task.id.clone(),
                            banner: Some(Line::raw(text.as_str())),
                        },
                    );
                }
                proof {
                    assert(views(updates@) =~= self@.shown(
                        seq![
                            UpdateView::SetBanner {
                                task_id: self@.task.id,
                                banner: Some(plain_line(delivery_text(self@.delivered))),
                            },
                        ],
                    ));
                }
                AttemptStep {
                    event: None,
                    updates,
                    action: AttemptAction::Stream { limit_secs: self.limit_secs() },
                }
            },
            AttemptEvent::Streamed => {
                self.phase = AttemptPhase::Waiting;
                quiet(AttemptAction::Wait { limit_secs: self.limit_secs() })
            },
            AttemptEvent::TimedOut => {
                self.phase = AttemptPhase::Killing;
                quiet(AttemptAction::Kill)
            },
            AttemptEvent::Killed => {
                let secs: u64 = match self.limit_secs() {
                    Some(secs) => secs,
                    None => 0,
                };
                let error = TaskError::Timeout(secs);
                let step = self.failed(now, Event::Fault { error: error.message() }, error);
                self.settle(&step);
                step
            },
            AttemptEvent::Exited(Err(e)) => self.fail(TaskError::Spawn(e)),
            AttemptEvent::Exited(Ok(code)) => {
                let step = self.conclude(code, now);
                self.settle(&step);
                step
            },
            AttemptEvent::Slept => {
                self.attempt = self.attempt + 1;
                self.phase = AttemptPhase::CreatingWorkdir;
                quiet(AttemptAction::CreateDir(self.workdir()))
            },
        }
    }

    /// Ends the task with an error.
    fn fail(&mut self, e: TaskError) -> (step: AttemptStep)
        ensures
            final(self)@ == (TaskRunView { phase: AttemptPhase::Finished, ..old(self)@ }),
            old(self)@.silent(step),
            step.action == AttemptAction::Done(Err(e)),
    {
        self.phase = AttemptPhase::Finished;
        quiet(AttemptAction::Done(Err(e)))
    }
}

/// A step that records nothing and tells nothing.
fn quiet(action: AttemptAction) -> (step: AttemptStep)
    ensures
        step.event is None,
        views(step.updates@) == Seq::<UpdateView>::empty(),
        step.action == action,
{
    let updates: Vec<MultiAgentUpdate> = Vec::new();
    assert(views(updates@) =~= Seq::<UpdateView>::empty());
    AttemptStep { event: None, updates, action }
}

/// The state after several events, one after another.
pub open spec fn after_all(run: TaskRunView, events: Seq<AttemptEvent>) -> TaskRunView
    decreases events.len(),
{
    if events.len() == 0 {
        run
    } else {
        after_all(run, events.drop_last()).after(events.last())
    }
}

/// Whether each of the events is waited for when it comes.
pub open spec fn all_awaited(run: TaskRunView, events: Seq<AttemptEvent>) -> bool
    decreases events.len(),
{
    events.len() > 0 ==> {
        &&& all_awaited(run, events.drop_last())
        &&& after_all(run, events.drop_last()).awaits(events.last())
    }
}

/// Whether a task has just begun.
pub open spec fn begun(run: TaskRunView) -> bool {
    run.phase == AttemptPhase::CreatingWorkdir && run.attempt == 1
}

/// How many events an attempt may still see in a phase, at most.
spec fn phase_rank(phase: AttemptPhase) -> int {
    match phase {
        AttemptPhase::CreatingWorkdir => 9,
        AttemptPhase::CreatingLogDir => 8,
        AttemptPhase::Spawning => 7,
        AttemptPhase::OpeningLogs => 6,
        AttemptPhase::TakingSpool => 5,
        AttemptPhase::Injecting => 4,
        AttemptPhase::Streaming => 3,
        AttemptPhase::Waiting => 2,
        AttemptPhase::Killing => 1,
        AttemptPhase::Sleeping => 0,
        AttemptPhase::Finished => 0,
    }
}

/// How many events a task may still see, at most.
spec fn events_left(run: TaskRunView) -> int {
    10 * (run.retries() + 1 - run.attempt) + phase_rank(run.phase)
}

proof fn lemma_progress(run: TaskRunView, events: Seq<AttemptEvent>)
    requires
        begun(run),
        all_awaited(run, events),
    ensures
        ({
            let now = after_all(run, events);
            &&& now.retries() == run.retries()
            &&& 1 <= now.attempt <= run.retries() + 1
            &&& now.phase == AttemptPhase::Sleeping ==> now.attempt <= run.retries()
            &&& events_left(now) + events.len() <= 10 * run.retries() + 9
        }),
    decreases events.len(),
{
    if events.len() > 0 {
        lemma_progress(run, events.drop_last());
    }
}

/// Law: a task is tried no more often than once and as many times again as it has retries.
pub proof fn law_attempts_bounded(run: TaskRunView, events: Seq<AttemptEvent>)
    requires
        begun(run),
        all_awaited(run, events),
    ensures
        1 <= after_all(run, events).attempt <= run.retries() + 1,
{
    lemma_progress(run, events);
}

/// Law: a task comes to an end. There is a bound on the events that it waits for.
pub proof fn law_task_ends(run: TaskRunView, events: Seq<AttemptEvent>)
    requires
        begun(run),
        all_awaited(run, events),
    ensures
        events.len() <= 10 * run.retries() + 9,
{
    lemma_progress(run, events);
}

/// Whether an event tells that an attempt failed: its process ended with an exit code other than
/// zero, or was killed at its time limit.
pub open spec fn attempt_failed(event: AttemptEvent) -> bool {
    match event {
        AttemptEvent::Exited(Ok(code)) => code_of(code) != 0,
        AttemptEvent::Killed => true,
        _ => false,
    }
}

/// Law: wherever a sub-agent is waited for, there is a time limit where the task or the options set
/// one: its output and its end are waited for within it, and at the limit its process is killed.
pub proof fn law_within_limit(run: TaskRunView, event: AttemptEvent, now: Seq<char>, step: AttemptStep)
    requires
        run.limit() is Some,
        run.awaits(event),
        run.due(event, now, step),
    ensures
        step.action matches AttemptAction::Stream { limit_secs } ==> limit_secs == run.limit(),
        step.action matches AttemptAction::Wait { limit_secs } ==> limit_secs == run.limit(),
        run.after(event).phase == AttemptPhase::Streaming || run.after(event).phase
            == AttemptPhase::Waiting ==> run.after(event).awaits(AttemptEvent::TimedOut),
        event is TimedOut ==> step.action is Kill,
{
}

/// Law: a task whose attempts fail is given up only once all its retries are used.
pub proof fn law_retries_used(run: TaskRunView, events: Seq<AttemptEvent>, event: AttemptEvent)
    requires
        begun(run),
        all_awaited(run, events),
        attempt_failed(event),
        after_all(run, events).awaits(event),
    ensures
        after_all(run, events).after(event).phase == AttemptPhase::Finished <==> after_all(
            run,
            events,
        ).attempt == run.retries() + 1,
{
    lemma_progress(run, events);
}

/// Law: a task's own number of retries counts, whatever the options say; only a task without one is
/// tried again as often as the options say. An attempt that failed is followed by another after a
/// pause that grows by half a second with each attempt, until the retries are used; then the task is
/// given up.
pub proof fn law_own_retries(run: TaskRunView, event: AttemptEvent, now: Seq<char>, step: AttemptStep)
    requires
        event is Killed || (event matches AttemptEvent::Exited(Ok(code)) && code != Some(0i32)),
        run.due(event, now, step),
    ensures
        run.after(event).task.retries == run.task.retries,
        run.task.retries matches Some(n) ==> if run.attempt <= n {
            &&& run.after(event).phase == AttemptPhase::Sleeping
            &&& step.action matches AttemptAction::Sleep(ms) && ms == 500 * run.attempt
        } else {
            &&& run.after(event).phase == AttemptPhase::Finished
            &&& step.action matches AttemptAction::Done(Err(_))
        },
        run.task.retries is None ==> if run.attempt <= run.opts.retries {
            &&& run.after(event).phase == AttemptPhase::Sleeping
            &&& step.action matches AttemptAction::Sleep(ms) && ms == 500 * run.attempt
        } else {
            &&& run.after(event).phase == AttemptPhase::Finished
            &&& step.action matches AttemptAction::Done(Err(_))
        },
{
}

/// Law: a task with `n` retries of its own is given up by a failed attempt only at attempt `n + 1`,
/// and one without at the attempt after the retries of the options.
pub proof fn law_given_up_last(run: TaskRunView, events: Seq<AttemptEvent>, event: AttemptEvent)
    requires
        run.phase == AttemptPhase::CreatingWorkdir,
        run.attempt == 1,
        all_awaited(run, events),
        event is Killed || (event matches AttemptEvent::Exited(Ok(code)) && code != Some(0i32)),
        after_all(run, events).awaits(event),
    ensures
        ({
            let at = after_all(run, events);
            let allowed = match run.task.retries {
                Some(n) => n as int,
                None => run.opts.retries as int,
            };
            &&& 1 <= at.attempt <= allowed + 1
            &&& at.after(event).phase == AttemptPhase::Finished <==> at.attempt == allowed + 1
            &&& at.after(event).phase == AttemptPhase::Sleeping <==> at.attempt <= allowed
        }),
{
    lemma_progress(run, events);
    lemma_same_task(run, events);
}

proof fn lemma_same_task(run: TaskRunView, events: Seq<AttemptEvent>)
    ensures
        after_all(run, events).task == run.task,
        after_all(run, events).opts == run.opts,
    decreases events.len(),
{
    if events.len() > 0 {
        lemma_same_task(run, events.drop_last());
    }
}

/// Law: after the pause the next attempt begins with the task's directory, and has a log directory of
/// its own.
pub proof fn law_next_attempt(run: TaskRunView, now: Seq<char>, step: AttemptStep)
    requires
        run.attempt < u32::MAX,
        run.due(AttemptEvent::Slept, now, step),
    ensures
        run.after(AttemptEvent::Slept).attempt == run.attempt + 1,
        run.after(AttemptEvent::Slept).phase == AttemptPhase::CreatingWorkdir,
        run.after(AttemptEvent::Slept).log_dir() == join_path(
            run.run_dir,
            "attempt-"@ + decimal((run.attempt + 1) as nat),
        ),
        step.action matches AttemptAction::CreateDir(dir) && dir@ == run.cwd(),
{
}

/// Law: a process that ends with exit code zero makes the task succeed at once: a success is
/// recorded, the dashboard shows the agent as done, and there is no further attempt.
pub proof fn law_success(run: TaskRunView, now: Seq<char>, step: AttemptStep)
    requires
        run.due(AttemptEvent::Exited(Ok(Some(0i32))), now, step),
    ensures
        run.after(AttemptEvent::Exited(Ok(Some(0i32)))).phase == AttemptPhase::Finished,
        step.action == AttemptAction::Done(Ok(())),
        step.event matches Some(w) && w@ == event_record(
            EventCtxView { run_dir: run.run_dir, task_id: run.task.id, attempt: run.attempt },
            now,
            EventView::Success,
        ),
        run.opts.ui ==> views(step.updates@).contains(
            UpdateView::SetStatus { task_id: run.task.id, status: AgentStatus::Done },
        ),
        run.opts.ui ==> views(step.updates@).contains(
            UpdateView::SetBanner { task_id: run.task.id, banner: None },
        ),
        !run.opts.ui ==> step.updates@.len() == 0,
{
    if run.opts.ui {
        assert(views(step.updates@)[0] == (UpdateView::SetStatus {
            task_id: run.task.id,
            status: AgentStatus::Done,
        }));
        assert(views(step.updates@)[1] == (UpdateView::SetBanner {
            task_id: run.task.id,
            banner: None,
        }));
    } else {
        assert(views(step.updates@).len() == 0);
    }
}

/// Law: a process that ends with another exit code, or with none, makes the attempt fail: an error
/// with that code is recorded, minus one where there is none, and the dashboard shows the agent as
/// failed. A task that is given up tells the code.
pub proof fn law_failure(run: TaskRunView, code: Option<i32>, now: Seq<char>, step: AttemptStep)
    requires
        code != Some(0i32),
        run.due(AttemptEvent::Exited(Ok(code)), now, step),
    ensures
        ({
            let told = match code {
                Some(c) => c,
                None => -1i32,
            };
            &&& step.event matches Some(w) && w@ == event_record(
                EventCtxView { run_dir: run.run_dir, task_id: run.task.id, attempt: run.attempt },
                now,
                EventView::Error { code: told },
            )
            &&& step.action matches AttemptAction::Done(Err(e)) ==> (
            e matches TaskError::SubAgentFailed { code: c, message } && c == told && message@.len()
                == 0)
            &&& step.action !is Wait && step.action !is Stream && step.action != (
            AttemptAction::Done(Ok(())))
            &&& run.opts.ui ==> views(step.updates@) == seq![
                UpdateView::SetStatus { task_id: run.task.id, status: AgentStatus::Error },
            ]
            &&& !run.opts.ui ==> step.updates@.len() == 0
        }),
{
    reveal_strlit("");
    assert(step.updates@.len() == views(step.updates@).len());
}

/// Law: a task's own time limit counts, and that of the options only where it has none; its output
/// and its end are waited for within it. At the limit the process is killed and the attempt fails
/// with a timeout that tells the limit, which is recorded in words.
pub proof fn law_time_limit(run: TaskRunView, now: Seq<char>, step: AttemptStep)
    ensures
        ({
            let limit = match run.task.timeout_secs {
                Some(secs) => Some(secs),
                None => run.opts.subagent.time_budget_secs,
            };
            &&& run.due(AttemptEvent::Queued(None), now, step) ==> step.action
                == AttemptAction::Stream { limit_secs: limit }
            &&& run.due(AttemptEvent::Injected, now, step) ==> step.action
                == AttemptAction::Stream { limit_secs: limit }
            &&& run.due(AttemptEvent::Streamed, now, step) ==> step.action
                == AttemptAction::Wait { limit_secs: limit }
            &&& run.due(AttemptEvent::TimedOut, now, step) ==> step.action is Kill
                && step.event is None && step.updates@.len() == 0
            &&& limit matches Some(secs) ==> (run.due(AttemptEvent::Killed, now, step) ==> {
                &&& step.event matches Some(w) && w@ == event_record(
                    EventCtxView {
                        run_dir: run.run_dir,
                        task_id: run.task.id,
                        attempt: run.attempt,
                    },
                    now,
                    EventView::Fault {
                        error: "timeout after "@ + decimal(secs as nat) + " seconds"@,
                    },
                )
                &&& step.action matches AttemptAction::Done(Err(e)) ==> e == TaskError::Timeout(
                    secs,
                )
            })
        }),
{
    assert(step.updates@.len() == views(step.updates@).len());
}

/// Law: a task runs in its own working directory, or else in that of the options, or else in one
/// below its run directory; that directory is made first, then the one for the logs of the attempt.
pub proof fn law_directories(run: TaskRunView, now: Seq<char>, step: AttemptStep)
    requires
        run.due(AttemptEvent::DirReady(Ok(())), now, step),
    ensures
        run.task.cwd matches Some(dir) ==> run.cwd() == dir,
        run.task.cwd is None ==> (run.opts.default_cwd matches Some(dir) ==> run.cwd() == dir),
        run.task.cwd is None && run.opts.default_cwd is None ==> run.cwd() == join_path(
            run.run_dir,
            "work"@,
        ),
        run.phase == AttemptPhase::CreatingWorkdir ==> {
            &&& step.action matches AttemptAction::CreateDir(dir) && dir@ == join_path(
                run.run_dir,
                "attempt-"@ + decimal(run.attempt as nat),
            )
            &&& step.event is None
            &&& run.after(AttemptEvent::DirReady(Ok(()))).phase == AttemptPhase::CreatingLogDir
        },
        run.phase == AttemptPhase::CreatingLogDir ==> {
            &&& step.action matches AttemptAction::Spawn { controller, .. } && controller@.workdir
                == run.cwd() && controller@.task == run.task && controller@.agent == run.agent
                && controller@.opts == run.opts.subagent && controller@.guidance.len() == 0
            &&& step.event matches Some(w) && w@ == event_record(
                EventCtxView { run_dir: run.run_dir, task_id: run.task.id, attempt: run.attempt },
                now,
                EventView::Start { cwd: run.cwd() },
            )
            &&& run.opts.ui ==> views(step.updates@).contains(
                UpdateView::SetStatus { task_id: run.task.id, status: AgentStatus::Running },
            )
            &&& run.after(AttemptEvent::DirReady(Ok(()))).phase == AttemptPhase::Spawning
        },
{
    if run.phase == AttemptPhase::CreatingLogDir && run.opts.ui {
        assert(views(step.updates@)[0] == (UpdateView::SetStatus {
            task_id: run.task.id,
            status: AgentStatus::Running,
        }));
    }
}

/// Law: once a process has started, both its logs are opened in the log directory of the attempt, the
/// dashboard is told where they are, and then the messages that wait for the task are taken.
pub proof fn law_logs_opened(run: TaskRunView, now: Seq<char>, step: AttemptStep)
    ensures
        ({
            let dir = join_path(run.run_dir, "attempt-"@ + decimal(run.attempt as nat));
            let out = join_path(dir, "stdout.log"@);
            let err = join_path(dir, "stderr.log"@);
            &&& run.due(AttemptEvent::Spawned(Ok((true, true))), now, step) ==> {
                &&& step.action matches AttemptAction::OpenLogs { stdout, stderr } && stdout@ == out
                    && stderr@ == err
                &&& run.after(AttemptEvent::Spawned(Ok((true, true)))).phase
                    == AttemptPhase::OpeningLogs
            }
            &&& run.due(AttemptEvent::LogsOpen(Ok(())), now, step) ==> {
                &&& step.action is TakeSpool
                &&& run.after(AttemptEvent::LogsOpen(Ok(()))).phase == AttemptPhase::TakingSpool
                &&& run.opts.ui ==> views(step.updates@) == seq![
                    UpdateView::SetLogFiles { task_id: run.task.id, stdout: out, stderr: err },
                ]
            }
        }),
{
}

/// Law: the messages that waited for a task are given to it before its output is followed, all of
/// them in order with a line break between them; where none waited its output is followed at once.
pub proof fn law_waiting_messages(
    run: TaskRunView,
    messages: Vec<String>,
    now: Seq<char>,
    step: AttemptStep,
)
    requires
        run.due(AttemptEvent::Queued(Some(messages)), now, step),
    ensures
        messages@.len() == 0 ==> step.action is Stream && run.after(
            AttemptEvent::Queued(Some(messages)),
        ).phase == AttemptPhase::Streaming,
        messages@.len() > 0 ==> {
            &&& step.action matches AttemptAction::Inject(text) && text@ == join(
                views(messages@),
                seq!['\n'],
            )
            &&& run.after(AttemptEvent::Queued(Some(messages))).phase == AttemptPhase::Injecting
            &&& run.after(AttemptEvent::Queued(Some(messages))).after(AttemptEvent::Injected).phase
                == AttemptPhase::Streaming
        },
{
    reveal_strlit("\n");
    assert("\n"@ =~= seq!['\n']);
}

/// Law: what keeps an attempt from starting ends the task with that error, without another try.
pub proof fn law_cannot_start(run: TaskRunView, event: AttemptEvent, now: Seq<char>, step: AttemptStep)
    requires
        run.due(event, now, step),
        match event {
            AttemptEvent::DirReady(Err(_)) => true,
            AttemptEvent::Spawned(Err(_)) => true,
            AttemptEvent::Spawned(Ok((out, err))) => !out || !err,
            AttemptEvent::LogsOpen(Err(_)) => true,
            AttemptEvent::Exited(Err(_)) => true,
            _ => false,
        },
    ensures
        run.after(event).phase == AttemptPhase::Finished,
        step.event is None,
        match event {
            AttemptEvent::DirReady(Err(e)) => step.action matches AttemptAction::Done(
                Err(TaskError::Io(m)),
            ) && m@ == e@,
            AttemptEvent::LogsOpen(Err(e)) => step.action matches AttemptAction::Done(
                Err(TaskError::Io(m)),
            ) && m@ == e@,
            AttemptEvent::Spawned(Err(e)) => step.action == AttemptAction::Done(Err(e)),
            AttemptEvent::Exited(Err(e)) => step.action matches AttemptAction::Done(
                Err(TaskError::Spawn(m)),
            ) && m@ == e@,
            _ => step.action matches AttemptAction::Done(Err(TaskError::Spawn(_))),
        },
{
}

/// Law: a task begins with its first attempt and its working directory, and nothing is recorded or told
/// before that.
pub proof fn law_begin(launch: TaskLaunch, opts: RunnerOptions, r: (TaskRun, AttemptStep))
    requires
        call_ensures(TaskRun::begin, (launch, opts), r),
    ensures
        r.0.attempt == 1,
        r.0.phase == AttemptPhase::CreatingWorkdir,
        r.0.delivered == 0,
        r.0@.task == launch.task@,
        r.0@.agent == launch.agent@,
        r.0@.run_dir == launch.run_dir@,
        r.0@.opts == opts@,
        r.1.event is None,
        r.1.updates@.len() == 0,
        launch.task.cwd matches Some(d) ==> (r.1.action matches AttemptAction::CreateDir(dir)
            && dir@ == d@),
        launch.task.cwd is None ==> (opts.default_cwd matches Some(d) ==> (
        r.1.action matches AttemptAction::CreateDir(dir) && dir@ == d@)),
        launch.task.cwd is None && opts.default_cwd is None ==> (
        r.1.action matches AttemptAction::CreateDir(dir) && dir@ == join_path(
            launch.run_dir@,
            "work"@,
        )),
{
    assert(r.0@.attempt == r.0.attempt && r.0@.phase == r.0.phase && r.0@.delivered
        == r.0.delivered);
    assert(r.1.updates@.len() == views(r.1.updates@).len());
    assert(launch.task@.cwd == opt_view(launch.task.cwd));
    assert(opts@.default_cwd == opt_view(opts.default_cwd));
}

/// Law: the process of an attempt is started with the command for its task, without guidance, and its
/// output is kept as far as five thousand lines. Its control operations are recorded as events of the
/// attempt. The dashboard shows the agent as running, with an empty log and no banner.
pub proof fn law_started(
    run: TaskRunView,
    now: Seq<char>,
    step: AttemptStep,
    workdir: &str,
    agent: &AgentSpec,
    task: &TaskSpec,
    opts: &SubAgentOptions,
    none: Vec<String>,
    command: CommandSpec,
)
    requires
        run.phase == AttemptPhase::CreatingLogDir,
        run.due(AttemptEvent::DirReady(Ok(())), now, step),
        workdir@ == run.cwd(),
        agent@ == run.agent,
        task@ == run.task,
        opts@ == run.opts.subagent,
        none@.len() == 0,
        call_ensures(build_command, (workdir, agent, task, opts, &none), command),
    ensures
        step.action matches AttemptAction::Spawn { capacity, controller, command: c } && {
            &&& capacity == 5000
            &&& c@ == command@
            &&& controller@.event == Some(
                EventCtxView { run_dir: run.run_dir, task_id: run.task.id, attempt: run.attempt },
            )
            &&& !controller@.stdin_open
        },
        run.opts.ui ==> {
            &&& step.updates@.len() == 2
            &&& step.updates@[0]@ == (UpdateView::SetStatus {
                task_id: run.task.id,
                status: AgentStatus::Running,
            })
            &&& step.updates@[1]@ matches UpdateView::Snapshot { task_id, log, status, banner }
                && task_id == run.task.id && log.len() == 0 && status == AgentStatus::Running
                && banner is None
        },
        !run.opts.ui ==> step.updates@.len() == 0,
{
    assert(views(none@) =~= seq![]);
    let v = views(step.updates@);
    assert(v.len() == step.updates@.len());
    if run.opts.ui {
        assert(v[0] == step.updates@[0]@);
        assert(v[1] == step.updates@[1]@);
    }
}

/// Law: the dashboard is told how many messages a task was given, once it was given them. Nothing is
/// told of none.
pub proof fn law_delivery_told(
    run: TaskRunView,
    messages: Vec<String>,
    now: Seq<char>,
    first: AttemptStep,
    second: AttemptStep,
)
    requires
        run.due(AttemptEvent::Queued(Some(messages)), now, first),
        run.after(AttemptEvent::Queued(Some(messages))).due(AttemptEvent::Injected, now, second),
    ensures
        first.event is None,
        first.updates@.len() == 0,
        second.event is None,
        run.opts.ui ==> second.updates@.len() == 1 && second.updates@[0]@ == (UpdateView::SetBanner {
            task_id: run.task.id,
            banner: Some(
                plain_line(" Delivered "@ + decimal(messages@.len()) + " spooled message(s)"@),
            ),
        }),
        !run.opts.ui ==> second.updates@.len() == 0,
{
    assert(first.updates@.len() == views(first.updates@).len());
    let v = views(second.updates@);
    assert(v.len() == second.updates@.len());
    if run.opts.ui {
        assert(v[0] == second.updates@[0]@);
    }
}

/// Law: an attempt that was killed is recorded as a fault and shown as an error.
pub proof fn law_killed_shown(run: TaskRunView, now: Seq<char>, step: AttemptStep)
    requires
        run.due(AttemptEvent::Killed, now, step),
    ensures
        run.opts.ui ==> step.updates@.len() == 1 && step.updates@[0]@ == (UpdateView::SetStatus {
            task_id: run.task.id,
            status: AgentStatus::Error,
        }),
        !run.opts.ui ==> step.updates@.len() == 0,
        step.event is Some,
{
    let v = views(step.updates@);
    assert(v.len() == step.updates@.len());
    if run.opts.ui {
        assert(v[0] == step.updates@[0]@);
    }
}

/// Law: a stream that could not be taken ends the task, and the complaint names it.
pub proof fn law_missing_stream(run: TaskRunView, now: Seq<char>, step: AttemptStep, err: bool)
    ensures
        run.due(AttemptEvent::Spawned(Ok((false, err))), now, step) ==> (
        step.action matches AttemptAction::Done(Err(TaskError::Spawn(m))) && m@
            == "failed to capture stdout"@),
        run.due(AttemptEvent::Spawned(Ok((true, false))), now, step) ==> (
        step.action matches AttemptAction::Done(Err(TaskError::Spawn(m))) && m@
            == "failed to capture stderr"@),
{
}

/// Law: only the end of a pause begins another attempt. No event changes the task, its agent, its
/// directory or its options.
pub proof fn law_attempt_counted(run: TaskRunView, event: AttemptEvent)
    requires
        run.awaits(event),
    ensures
        event is Slept ==> run.after(event).attempt == run.attempt + 1,
        event !is Slept ==> run.after(event).attempt == run.attempt,
        run.after(event).task == run.task,
        run.after(event).agent == run.agent,
        run.after(event).run_dir == run.run_dir,
        run.after(event).opts == run.opts,
{
}

/// Law: a task waits for what its last action leads to, and for its limit to run out only while the
/// process runs and where there is a limit.
pub proof fn law_awaited(run: TaskRunView, event: AttemptEvent)
    ensures
        run.phase == AttemptPhase::CreatingWorkdir || run.phase == AttemptPhase::CreatingLogDir ==> (
        run.awaits(event) <==> event is DirReady),
        run.phase == AttemptPhase::Spawning ==> (run.awaits(event) <==> event is Spawned),
        run.phase == AttemptPhase::OpeningLogs ==> (run.awaits(event) <==> event is LogsOpen),
        run.phase == AttemptPhase::TakingSpool ==> (run.awaits(event) <==> event is Queued),
        run.phase == AttemptPhase::Injecting ==> (run.awaits(event) <==> event is Injected),
        run.phase == AttemptPhase::Streaming ==> (run.awaits(event) <==> event is Streamed || (
        event is TimedOut && (run.task.timeout_secs is Some
            || run.opts.subagent.time_budget_secs is Some))),
        run.phase == AttemptPhase::Waiting ==> (run.awaits(event) <==> event is Exited || (
        event is TimedOut && (run.task.timeout_secs is Some
            || run.opts.subagent.time_budget_secs is Some))),
        run.phase == AttemptPhase::Finished ==> !run.awaits(event),
{
}

/// Law: the events of an attempt are those of its task in its directory, with its number.
pub proof fn law_event_ctx(run: &TaskRun, r: SubAgentEventCtx)
    requires
        call_ensures(TaskRun::event_ctx, (run,), r),
    ensures
        r.run_dir@ == run.launch.run_dir@,
        r.task_id@ == run.launch.task.id@,
        r.attempt == run.attempt,
{
    assert(r@.run_dir == r.run_dir@ && r@.task_id == r.task_id@ && r@.attempt == r.attempt);
    assert(run.launch.task@.id == run.launch.task.id@);
}

/// Law: a failed attempt of a task with its own number of retries leads to another as long as there were
/// no more attempts than that, and else ends the task; of a task without one, the number in the options
/// counts.
pub proof fn law_failed_attempt(
    run: &mut TaskRun,
    event: AttemptEvent,
    now: &str,
    step: AttemptStep,
)
    requires
        call_ensures(TaskRun::step, (run, event, now), step),
        old(run)@.awaits(event),
        event is Killed || (event matches AttemptEvent::Exited(Ok(code)) && code != Some(0i32)),
    ensures
        ({
            let allowed = match old(run).launch.task.retries {
                Some(n) => n,
                None => old(run).opts.retries,
            };
            &&& final(run).attempt == old(run).attempt
            &&& old(run).attempt <= allowed ==> {
                &&& final(run).phase == AttemptPhase::Sleeping
                &&& step.action matches AttemptAction::Sleep(ms) && ms == 500 * old(run).attempt
            }
            &&& old(run).attempt > allowed ==> {
                &&& final(run).phase == AttemptPhase::Finished
                &&& step.action matches AttemptAction::Done(Err(_))
            }
        }),
{
    law_own_retries(old(run)@, event, now@, step);
    assert(final(run)@.phase == final(run).phase && final(run)@.attempt == final(run).attempt);
    assert(old(run)@.task.retries == old(run).launch.task.retries);
    assert(old(run)@.opts.retries == old(run).opts.retries);
}

/// Law: a task goes on from each event as its state and the event say.
pub proof fn law_stepped(run: &mut TaskRun, event: AttemptEvent, now: &str, step: AttemptStep)
    requires
        call_ensures(TaskRun::step, (run, event, now), step),
        old(run)@.awaits(event),
    ensures
        final(run)@ == old(run)@.after(event),
        old(run)@.due(event, now@, step),
        event matches AttemptEvent::Exited(Ok(Some(c))) ==> (c == 0 ==> step.action
            == AttemptAction::Done(Ok(())) && final(run).phase == AttemptPhase::Finished),
        event is Slept ==> final(run).attempt == old(run).attempt + 1,
{
    assert(final(run)@.phase == final(run).phase && final(run)@.attempt == final(run).attempt);
}

} // verus!
