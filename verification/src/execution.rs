//! Carrying out a run: the waves one after another, up to the first that fails.

use vstd::prelude::*;
use vstd::string::*;

use crate::dag::all_arcs;
use crate::dag::arcs_into;
use crate::dag::Dag;
use crate::dag::dependency_arcs;
use crate::dag::is_level;
use crate::dag::is_levels;
use crate::dag::law_dependencies_first;
use crate::dag::law_levels_complete;
use crate::dag::law_levels_unique;
use crate::dag::level_views;
use crate::dag::missing_at;
use crate::dag::none_missing;
use crate::dashboard::AgentStatus;
use crate::error::TaskError;
use crate::graph::graph_arcs;
use crate::graph::graph_labels;
use crate::multi_agent_dashboard::CallView;
use crate::multi_agent_dashboard::ControlCall;
use crate::multi_agent_dashboard::MultiAgentUpdate;
use crate::multi_agent_dashboard::UpdateView;
use crate::options::configure;
use crate::options::RunArgs;
use crate::options::RunEnv;
use crate::options::RunnerOptions;
use crate::options::RunnerView;
use crate::paths::join_path;
use crate::runner::last_with_id;
use crate::runner::launch_text;
use crate::runner::plan_text;
use crate::runner::task_at;
use crate::runner::task_started;
use crate::runner::wave_started;
use crate::runner::wave_text;
use crate::runner::wave_verdict;
use crate::runner::Runner;
use crate::runner::TaskLaunch;
use crate::schema::AgentSpec;
use crate::schema::repeats_at;
use crate::schema::task_ids;
use crate::schema::TaskFile;
use crate::schema::TaskSpec;
use crate::screen::color_line;
use crate::screen::Color;
use crate::screen::Line;
use crate::subagent::detect_supports_approval_flag;
use crate::text::contains_text;
use crate::text::debug_list;
use crate::text::decimal;
use crate::text::decoded;
use crate::text::lemma_views_push;
use crate::text::opt_view;
use crate::text::starts_with;
use crate::text::views;
use crate::waves::lemma_wave;
use crate::waves::wave;

verus! {

/// What a run waits for.
#[derive(Clone, Copy, Debug, PartialEq, Eq, Structural)]
pub enum ExecPhase {
    CreatingDir,
    AskingHelp,
    StartingUi,
    RunningWave,
    Closing,
    Finished,
}

/// What is to be done next in a run.
#[derive(Debug)]
pub enum ExecAction {
    /// Create a directory and those above it.
    CreateDir(String),
    /// Ask the program for its help on `exec`.
    AskHelp { program: String },
    /// Show the dashboard for these tasks, with hooks for all calls.
    StartUi { task_ids: Vec<String>, layout: String },
    /// Run these tasks, no more than `limit` of them at a time, and wait for all of them.
    RunWave { launches: Vec<TaskLaunch>, limit: usize },
    /// Start these tasks, no more than `limit` of them at a time, and end the run at once with an
    /// error.
    Abandon { launches: Vec<TaskLaunch>, limit: usize, error: TaskError },
    /// Let messages between tasks and the dashboard come to their end.
    Close,
    /// The run is over.
    Done(Result<(), TaskError>),
}

/// What came of the last action.
#[derive(Debug)]
pub enum ExecEvent {
    DirReady(Result<(), String>),
    /// The help text, where the program gave one.
    Help(Option<Vec<u8>>),
    UiStarted,
    /// For each task of the wave, whether it succeeded.
    WaveDone(Vec<bool>),
    Closed,
}

/// What is to be done: first lines are printed, then the dashboard is told, then comes the action.
#[derive(Debug)]
pub struct ExecStep {
    pub printed: Vec<String>,
    pub updates: Vec<MultiAgentUpdate>,
    pub action: ExecAction,
}

/// The state of a run.
#[derive(Debug)]
pub struct Execution {
    pub phase: ExecPhase,
    /// The options that tasks are run with.
    pub opts: RunnerOptions,
    pub levels: Vec<Vec<String>>,
    /// The wave that is next or running.
    pub wave: usize,
}

/// Whether all tasks of a wave succeeded.
pub open spec fn all_succeeded(outcomes: Seq<bool>) -> bool {
    forall|i: int| 0 <= i < outcomes.len() ==> #[trigger] outcomes[i]
}

/// What is printed when tasks are started.
pub open spec fn launch_texts(launches: Seq<TaskLaunch>) -> Seq<Seq<char>> {
    Seq::new(launches.len(), |i: int| launch_text(launches[i]))
}

/// The updates that show the tasks before any of them starts.
pub open spec fn queued_updates(tasks: Seq<TaskSpec>) -> Seq<UpdateView> {
    Seq::new(
        tasks.len(),
        |i: int|
            UpdateView::SetStatus { task_id: tasks[i].id@, status: AgentStatus::Queued },
    )
}

/// The ids of tasks.
pub open spec fn ids_of(tasks: Seq<TaskSpec>) -> Seq<Seq<char>> {
    Seq::new(tasks.len(), |i: int| tasks[i].id@)
}

impl Execution {
    /// Whether the levels are those of the task file, the wave is one of them while it runs, and all
    /// waves have run when the run closes.
    pub open spec fn wf(&self, runner: &Runner) -> bool {
        &&& is_levels(
            graph_labels(runner.dag.graph),
            graph_arcs(runner.dag.graph),
            level_views(self.levels@),
        )
        &&& self.wave <= self.levels@.len()
        &&& self.phase == ExecPhase::RunningWave ==> self.wave < self.levels@.len()
        &&& self.phase == ExecPhase::Closing ==> self.wave == self.levels@.len()
        &&& self.opts.ui == runner.opts.ui
        &&& self.opts.continue_on_error == runner.opts.continue_on_error
        &&& self.opts.concurrency == runner.opts.concurrency
    }

    /// Whether the run waits for this event.
    pub open spec fn awaits(&self, event: ExecEvent) -> bool {
        match event {
            ExecEvent::DirReady(_) => self.phase == ExecPhase::CreatingDir,
            ExecEvent::Help(_) => self.phase == ExecPhase::AskingHelp,
            ExecEvent::UiStarted => self.phase == ExecPhase::StartingUi,
            ExecEvent::WaveDone(_) => self.phase == ExecPhase::RunningWave,
            ExecEvent::Closed => self.phase == ExecPhase::Closing,
        }
    }

    /// Whether `step` is what is to be done when wave `self.wave` is reached, with lines printed
    /// before it and updates told before it.
    pub open spec fn enters(
        &self,
        runner: &Runner,
        printed: Seq<Seq<char>>,
        updates: Seq<UpdateView>,
        step: ExecStep,
    ) -> bool {
        &&& views(step.updates@) == updates
        &&& if self.wave < self.levels@.len() {
            let level = views(self.levels@[self.wave as int]@);
            match step.action {
                ExecAction::RunWave { launches, limit } => {
                    &&& self.phase == ExecPhase::RunningWave
                    &&& limit == runner.opts.concurrency
                    &&& runner.is_plan(level, launches@, None)
                    &&& views(step.printed@) == printed + self.progress(
                        seq![wave_text(level)] + launch_texts(launches@),
                    )
                },
                ExecAction::Abandon { launches, limit, error } => {
                    &&& self.phase == ExecPhase::Finished
                    &&& limit == runner.opts.concurrency
                    &&& runner.is_plan(level, launches@, Some(error))
                    &&& views(step.printed@) == printed + self.progress(
                        seq![wave_text(level)] + launch_texts(launches@),
                    )
                },
                _ => false,
            }
        } else {
            &&& self.phase == ExecPhase::Closing
            &&& step.action is Close
            &&& views(step.printed@) == printed
        }
    }

    /// The lines that are printed: none where there is a dashboard.
    pub open spec fn progress(&self, lines: Seq<Seq<char>>) -> Seq<Seq<char>> {
        if self.opts.ui {
            seq![]
        } else {
            lines
        }
    }

    /// Whether a step prints nothing and tells nothing.
    pub open spec fn silent(step: ExecStep) -> bool {
        &&& views(step.printed@) == Seq::<Seq<char>>::empty()
        &&& views(step.updates@) == Seq::<UpdateView>::empty()
    }

    /// How the run goes on from an event.
    pub open spec fn goes_on(
        &self,
        runner: &Runner,
        event: ExecEvent,
        after: &Execution,
        step: ExecStep,
    ) -> bool {
        &&& after.levels == self.levels
        &&& match event {
            ExecEvent::DirReady(Err(e)) => {
                &&& after.phase == ExecPhase::Finished
                &&& after.wave == self.wave
                &&& after.opts@ == self.opts@
                &&& Execution::silent(step)
                &&& step.action matches ExecAction::Done(Err(TaskError::Io(m))) && m@ == e@
            },
            ExecEvent::DirReady(Ok(())) => {
                &&& after.phase == ExecPhase::AskingHelp
                &&& after.wave == self.wave
                &&& after.opts@ == self.opts@
                &&& Execution::silent(step)
                &&& step.action matches ExecAction::AskHelp { program } && program@
                    == self.opts@.subagent.codex_bin
            },
            ExecEvent::Help(help) => {
                &&& after.wave == self.wave
                &&& after.opts@ == (RunnerView {
                    subagent: crate::command::OptionsView {
                        supports_approval_flag: Some(
                            help is Some && contains_text(decoded(help->0@), "ask-for-approval"@),
                        ),
                        ..self.opts@.subagent
                    },
                    ..self.opts@
                })
                &&& if self.opts.ui {
                    &&& after.phase == ExecPhase::StartingUi
                    &&& Execution::silent(step)
                    &&& step.action matches ExecAction::StartUi { task_ids, layout } && views(
                        task_ids@,
                    ) == ids_of(runner.tf.tasks@) && layout@ == self.opts@.ui_layout
                } else {
                    after.enters(runner, seq![], seq![], step)
                }
            },
            ExecEvent::UiStarted => {
                &&& after.wave == self.wave
                &&& after.opts@ == self.opts@
                &&& after.enters(runner, seq![], queued_updates(runner.tf.tasks@), step)
            },
            ExecEvent::WaveDone(outcomes) => {
                &&& after.opts@ == self.opts@
                &&& if all_succeeded(outcomes@) || self.opts.continue_on_error {
                    &&& after.wave == self.wave + 1
                    &&& after.enters(
                        runner,
                        self.progress(seq!["completed wave\n"@]),
                        seq![],
                        step,
                    )
                } else {
                    &&& after.phase == ExecPhase::Finished
                    &&& after.wave == self.wave
                    &&& views(step.printed@) == self.progress(seq!["completed wave\n"@])
                    &&& views(step.updates@) == Seq::<UpdateView>::empty()
                    &&& step.action matches ExecAction::Done(Err(TaskError::InvalidTaskFile(m)))
                        && m@ == "one or more tasks failed"@
                }
            },
            ExecEvent::Closed => {
                &&& after.phase == ExecPhase::Finished
                &&& after.wave == self.wave
                &&& after.opts@ == self.opts@
                &&& Execution::silent(step)
                &&& step.action == ExecAction::Done(Ok(()))
            },
        }
    }
}

impl<'a> Runner<'a> {
    /// Begins a run. A dry run prints the plan and is over; else the directory of the run is created
    /// first.
    pub fn execute(&self) -> (r: (Execution, ExecStep))
        requires
            self.wf(),
        ensures
            r.0.wf(self),
            r.0.opts@ == self.opts@,
            r.0.wave == 0,
            views(r.1.updates@) == Seq::<UpdateView>::empty(),
            if self.opts.dry_run {
                &&& r.0.phase == ExecPhase::Finished
                &&& exists|levels: Seq<Seq<Seq<char>>>| #[trigger]
                    is_levels(graph_labels(self.dag.graph), graph_arcs(self.dag.graph), levels)
                        && views(r.1.printed@) == seq![plan_text(*self, levels)]
                &&& r.1.action == ExecAction::Done(Ok(()))
            } else {
                &&& r.0.phase == ExecPhase::CreatingDir
                &&& views(r.1.printed@) == Seq::<Seq<char>>::empty()
                &&& r.1.action matches ExecAction::CreateDir(dir) && dir@
                    == self.opts.base_run_dir@
            },
    {
        let mut exec = Execution {
            phase: ExecPhase::CreatingDir,
            opts: self.opts.clone(),
            levels: self.dag.levels(),
            wave: 0,
        };
        if self.opts.dry_run {
            exec.phase = ExecPhase::Finished;
            let mut step = quiet(ExecAction::Done(Ok(())));
            let plan = self.render_plan();
            let ghost text = plan@;
            step.printed.push(plan);
            assert(views(step.printed@) =~= seq![text]);
            return (exec, step);
        }
        let step = quiet(ExecAction::CreateDir(self.opts.base_run_dir.clone()));
        (exec, step)
    }

    /// Goes on with what came of the last action.
    pub fn go_on(&self, exec: &mut Execution, event: ExecEvent) -> (step: ExecStep)
        requires
            self.wf(),
            old(exec).wf(self),
            old(exec).awaits(event),
        ensures
            final(exec).wf(self),
            old(exec).goes_on(self, event, final(exec), step),
    {
        match event {
            ExecEvent::DirReady(Err(e)) => {
                exec.phase = ExecPhase::Finished;
                quiet(ExecAction::Done(Err(TaskError::Io(e))))
            },
            ExecEvent::DirReady(Ok(())) => {
                exec.phase = ExecPhase::AskingHelp;
                quiet(ExecAction::AskHelp { program: exec.opts.subagent.codex_bin.clone() })
            },
            ExecEvent::Help(help) => {
                let supported = match &help {
                    Some(bytes) => detect_supports_approval_flag(Some(bytes)),
                    None => detect_supports_approval_flag(None),
                };
                exec.opts.subagent.supports_approval_flag = Some(supported);
                if exec.opts.ui {
                    exec.phase = ExecPhase::StartingUi;
                    quiet(
                        ExecAction::StartUi {
                            task_ids: self.task_ids(),
                            layout: exec.opts.ui_layout.clone(),
                        },
                    )
                } else {
                    let printed: Vec<String> = Vec::new();
                    let updates: Vec<MultiAgentUpdate> = Vec::new();
                    proof {
                        assert(views(printed@) =~= seq![]);
                        assert(views(updates@) =~= seq![]);
                    }
                    self.enter_wave(exec, printed, updates)
                }
            },
            ExecEvent::UiStarted => {
                let printed: Vec<String> = Vec::new();
                assert(views(printed@) =~= seq![]);
                let updates = self.queued();
                self.enter_wave(exec, printed, updates)
            },
            ExecEvent::WaveDone(outcomes) => {
                let mut printed: Vec<String> = Vec::new();
                if !exec.opts.ui {
                    printed.push("completed wave\n".to_owned());
                }
                assert(views(printed@) =~= exec.progress(seq!["completed wave\n"@]));
                match wave_verdict(succeeded(&outcomes), exec.opts.continue_on_error) {
                    Ok(()) => {
                        let updates: Vec<MultiAgentUpdate> = Vec::new();
                        assert(views(updates@) =~= seq![]);
                        assert(exec.wave < exec.levels.len());
                        exec.wave = exec.wave + 1;
                        self.enter_wave(exec, printed, updates)
                    },
                    Err(e) => {
                        exec.phase = ExecPhase::Finished;
                        let mut step = quiet(ExecAction::Done(Err(e)));
                        step.printed = printed;
                        step
                    },
                }
            },
            ExecEvent::Closed => {
                exec.phase = ExecPhase::Finished;
                quiet(ExecAction::Done(Ok(())))
            },
        }
    }

    /// Reaches a wave, or the end of the run.
    fn enter_wave(
        &self,
        exec: &mut Execution,
        printed: Vec<String>,
        updates: Vec<MultiAgentUpdate>,
    ) -> (step: ExecStep)
        requires
            is_levels(
                graph_labels(self.dag.graph),
                graph_arcs(self.dag.graph),
                level_views(old(exec).levels@),
            ),
            old(exec).wave <= old(exec).levels@.len(),
            old(exec).opts.ui == self.opts.ui,
            old(exec).opts.continue_on_error == self.opts.continue_on_error,
            old(exec).opts.concurrency == self.opts.concurrency,
        ensures
            final(exec).wf(self),
            final(exec).wave == old(exec).wave,
            final(exec).levels == old(exec).levels,
            final(exec).opts == old(exec).opts,
            final(exec).enters(self, views(printed@), views(updates@), step),
    {
        let mut printed = printed;
        let ghost before = views(printed@);
        if exec.wave >= exec.levels.len() {
            exec.phase = ExecPhase::Closing;
            return ExecStep { printed, updates, action: ExecAction::Close };
        }
        let level = &exec.levels[exec.wave];
        let plan = self.plan_wave(level);
        if !exec.opts.ui {
            let ghost had = printed@;
            printed.push(wave_started(level));
            proof {
                lemma_views_push(had, printed@.last());
                assert(printed@ =~= had.push(printed@.last()));
            }
            let ghost start = views(printed@);
            let mut i: usize = 0;
            proof {
                assert(start =~= before.push(wave_text(views(level@))));
                assert(start + launch_texts(plan.launches@).take(0) =~= start);
            }
            while i < plan.launches.len()
                invariant
                    i <= plan.launches@.len(),
                    views(printed@) == start + launch_texts(plan.launches@).take(i as int),
                decreases plan.launches@.len() - i,
            {
                let ghost had = printed@;
                printed.push(task_started(&plan.launches[i]));
                proof {
                    lemma_views_push(had, printed@.last());
                    assert(printed@ =~= had.push(printed@.last()));
                    assert(launch_texts(plan.launches@).take(i + 1) =~= launch_texts(
                        plan.launches@,
                    ).take(i as int).push(launch_text(plan.launches@[i as int])));
                    assert(views(printed@) =~= start + launch_texts(plan.launches@).take(i + 1));
                }
                i += 1;
            }
            proof {
                assert(launch_texts(plan.launches@).take(i as int) =~= launch_texts(
                    plan.launches@,
                ));
            }
        }
        proof {
            assert(views(printed@) =~= before + exec.progress(
                seq![wave_text(views(level@))] + launch_texts(plan.launches@),
            ));
        }
        match plan.failure {
            Some(error) => {
                exec.phase = ExecPhase::Finished;
                ExecStep {
                    printed,
                    updates,
                    action: ExecAction::Abandon {
                        launches: plan.launches,
                        limit: exec.opts.concurrency,
                        error,
                    },
                }
            },
            None => {
                exec.phase = ExecPhase::RunningWave;
                ExecStep {
                    printed,
                    updates,
                    action: ExecAction::RunWave {
                        launches: plan.launches,
                        limit: exec.opts.concurrency,
                    },
                }
            },
        }
    }

    /// The ids of the tasks.
    fn task_ids(&self) -> (r: Vec<String>)
        ensures
            views(r@) == ids_of(self.tf.tasks@),
    {
        let mut r: Vec<String> = Vec::new();
        let mut i: usize = 0;
        while i < self.tf.tasks.len()
            invariant
                i <= self.tf.tasks@.len(),
                r@.len() == i,
                forall|j: int| 0 <= j < i ==> (#[trigger] r@[j])@ == self.tf.tasks@[j].id@,
            decreases self.tf.tasks@.len() - i,
        {
            r.push(self.tf.tasks[i].id.clone());
            i += 1;
        }
        assert(views(r@) =~= ids_of(self.tf.tasks@));
        r
    }

    /// The updates that show the tasks before any of them starts.
    fn queued(&self) -> (r: Vec<MultiAgentUpdate>)
        ensures
            views(r@) == queued_updates(self.tf.tasks@),
    {
        let mut r: Vec<MultiAgentUpdate> = Vec::new();
        let mut i: usize = 0;
        while i < self.tf.tasks.len()
            invariant
                i <= self.tf.tasks@.len(),
                r@.len() == i,
                forall|j: int|
                    0 <= j < i ==> (#[trigger] r@[j])@ == (UpdateView::SetStatus {
                        task_id: self.tf.tasks@[j].id@,
                        status: AgentStatus::Queued,
                    }),
            decreases self.tf.tasks@.len() - i,
        {
            r.push(
                MultiAgentUpdate::SetStatus {
                    task_id: self.tf.tasks[i].id.clone(),
                    status: AgentStatus::Queued,
                },
            );
            i += 1;
        }
        assert(views(r@) =~= queued_updates(self.tf.tasks@));
        r
    }
}

/// A step that prints nothing and tells nothing.
fn quiet(action: ExecAction) -> (step: ExecStep)
    ensures
        Execution::silent(step),
        step.action == action,
{
    let printed: Vec<String> = Vec::new();
    let updates: Vec<MultiAgentUpdate> = Vec::new();
    proof {
        assert(views(printed@) =~= Seq::<Seq<char>>::empty());
        assert(views(updates@) =~= Seq::<UpdateView>::empty());
    }
    ExecStep { printed, updates, action }
}

/// Tells whether all tasks of a wave succeeded.
fn succeeded(outcomes: &Vec<bool>) -> (r: bool)
    ensures
        r == all_succeeded(outcomes@),
{
    let mut i: usize = 0;
    while i < outcomes.len()
        invariant
            i <= outcomes@.len(),
            forall|j: int| 0 <= j < i ==> #[trigger] outcomes@[j],
        decreases outcomes@.len() - i,
    {
        if !outcomes[i] {
            return false;
        }
        i += 1;
    }
    true
}

/// The tasks of a wave while they run: each is started once there is a place for it, in order.
#[derive(Clone, Copy, Debug)]
pub struct WaveRun {
    /// How many tasks may run at a time.
    pub limit: usize,
    /// How many tasks the wave has.
    pub total: usize,
    /// How many of them were started.
    pub started: usize,
    /// How many of those have not ended.
    pub running: usize,
}

/// What happens to a task of a wave.
#[derive(Clone, Copy, Debug, PartialEq, Eq, Structural)]
pub enum WaveMove {
    /// The next task is started.
    Start,
    /// A running task ends.
    End,
}

impl WaveRun {
    /// Whether no more tasks run than may, nor than were started.
    pub open spec fn wf(self) -> bool {
        &&& self.running <= self.limit
        &&& self.running <= self.started <= self.total
    }

    /// A wave of which no task was started.
    pub open spec fn fresh(total: usize, limit: usize) -> WaveRun {
        WaveRun { limit, total, started: 0, running: 0 }
    }

    /// Whether a move can be made.
    pub open spec fn allows(self, m: WaveMove) -> bool {
        match m {
            WaveMove::Start => self.started < self.total && self.running < self.limit,
            WaveMove::End => self.running > 0,
        }
    }

    /// The wave after a move.
    pub open spec fn after(self, m: WaveMove) -> WaveRun {
        match m {
            WaveMove::Start => WaveRun {
                started: (self.started + 1) as usize,
                running: (self.running + 1) as usize,
                ..self
            },
            WaveMove::End => WaveRun { running: (self.running - 1) as usize, ..self },
        }
    }

    /// The wave after several moves, one after another.
    pub open spec fn after_all(self, moves: Seq<WaveMove>) -> WaveRun
        decreases moves.len(),
    {
        if moves.len() == 0 {
            self
        } else {
            self.after_all(moves.drop_last()).after(moves.last())
        }
    }

    /// Whether each of the moves can be made when it comes.
    pub open spec fn allows_all(self, moves: Seq<WaveMove>) -> bool
        decreases moves.len(),
    {
        moves.len() > 0 ==> {
            &&& self.allows_all(moves.drop_last())
            &&& self.after_all(moves.drop_last()).allows(moves.last())
        }
    }

    /// Begins a wave.
    pub fn begin(total: usize, limit: usize) -> (r: Self)
        ensures
            r == WaveRun::fresh(total, limit),
            r.wf(),
    {
        WaveRun { limit, total, started: 0, running: 0 }
    }

    /// The position of the task that is to be started now. There is none where all places are taken
    /// or all tasks were started.
    pub fn start_next(&mut self) -> (r: Option<usize>)
        requires
            old(self).wf(),
        ensures
            final(self).wf(),
            if old(self).allows(WaveMove::Start) {
                &&& r == Some(old(self).started)
                &&& *final(self) == old(self).after(WaveMove::Start)
            } else {
                &&& r is None
                &&& *final(self) == *old(self)
            },
    {
        if self.started >= self.total || self.running >= self.limit {
            return None;
        }
        let next: usize = self.started;
        self.started = self.started + 1;
        self.running = self.running + 1;
        Some(next)
    }

    /// Takes note that a running task has ended.
    pub fn one_ended(&mut self)
        requires
            old(self).wf(),
            old(self).allows(WaveMove::End),
        ensures
            final(self).wf(),
            *final(self) == old(self).after(WaveMove::End),
    {
        self.running = self.running - 1;
    }

    /// Tells whether all tasks of the wave were started and have ended.
    pub fn over(&self) -> (r: bool)
        ensures
            r == (self.started == self.total && self.running == 0),
    {
        self.started == self.total && self.running == 0
    }
}

proof fn lemma_wave_moves(wave: WaveRun, moves: Seq<WaveMove>)
    requires
        wave.wf(),
        wave.allows_all(moves),
    ensures
        wave.after_all(moves).wf(),
        wave.after_all(moves).limit == wave.limit,
        wave.after_all(moves).total == wave.total,
    decreases moves.len(),
{
    if moves.len() > 0 {
        lemma_wave_moves(wave, moves.drop_last());
    }
}

/// Whether an action starts these tasks with this limit.
pub open spec fn starts(action: ExecAction, launches: Vec<TaskLaunch>, limit: usize) -> bool {
    match action {
        ExecAction::RunWave { launches: l, limit: n } => l == launches && n == limit,
        ExecAction::Abandon { launches: l, limit: n, error: _ } => l == launches && n == limit,
        _ => false,
    }
}

/// Law: at every moment of a run no more tasks run than it may run at a time, however its tasks start
/// and end.
pub proof fn law_concurrency(
    runner: Runner,
    exec: Execution,
    event: ExecEvent,
    after: Execution,
    step: ExecStep,
    launches: Vec<TaskLaunch>,
    limit: usize,
    moves: Seq<WaveMove>,
)
    requires
        exec.goes_on(&runner, event, &after, step),
        starts(step.action, launches, limit),
        WaveRun::fresh(launches.len(), limit).allows_all(moves),
    ensures
        limit == runner.opts.concurrency,
        WaveRun::fresh(launches.len(), limit).after_all(moves).running <= runner.opts.concurrency,
        WaveRun::fresh(launches.len(), limit).after_all(moves).started <= launches@.len(),
{
    lemma_wave_moves(WaveRun::fresh(launches.len(), limit), moves);
}

proof fn lemma_arc_of_dependency(tasks: Seq<TaskSpec>, n: nat, i: int, d: int)
    requires
        0 <= i < n <= tasks.len(),
        0 <= d < tasks[i].depends_on@.len(),
    ensures
        dependency_arcs(tasks, n).contains(
            (task_ids(tasks).index_of(tasks[i].depends_on@[d]@), i),
        ),
    decreases n,
{
    let arc = (task_ids(tasks).index_of(tasks[i].depends_on@[d]@), i);
    let before = dependency_arcs(tasks, (n - 1) as nat);
    let last = arcs_into(tasks, n - 1, tasks[n - 1].depends_on@.len() as int);
    if i < n - 1 {
        lemma_arc_of_dependency(tasks, (n - 1) as nat, i, d);
        let k = before.index_of(arc);
        assert((before + last)[k] == arc);
    } else {
        assert(last[d] == arc);
        assert((before + last)[before.len() + d] == arc);
    }
}

/// Law: a task runs only after all tasks that it depends on. When its wave is reached, each of them
/// stands in a wave that has run.
pub proof fn law_runs_after_dependencies(runner: Runner, exec: Execution, i: int, d: int)
    requires
        runner.wf(),
        exec.wf(&runner),
        graph_labels(runner.dag.graph) == task_ids(runner.tf.tasks@),
        graph_arcs(runner.dag.graph) == all_arcs(runner.tf.tasks@),
        none_missing(runner.tf.tasks@),
        exec.wave < exec.levels@.len(),
        0 <= i < runner.tf.tasks@.len(),
        level_views(exec.levels@)[exec.wave as int].contains(runner.tf.tasks@[i].id@),
        0 <= d < runner.tf.tasks@[i].depends_on@.len(),
    ensures
        exists|j: int|
            0 <= j < exec.wave && (#[trigger] level_views(exec.levels@)[j]).contains(
                runner.tf.tasks@[i].depends_on@[d]@,
            ),
{
    let tasks = runner.tf.tasks@;
    let levels = level_views(exec.levels@);
    let dep = tasks[i].depends_on@[d]@;
    assert(!missing_at(tasks, i, d));
    let from = task_ids(tasks).index_of(dep);
    assert(task_ids(tasks)[from] == dep);
    lemma_arc_of_dependency(tasks, tasks.len(), i, d);
    law_levels_complete(runner.dag, levels, from);
    let j = choose|j: int| 0 <= j < levels.len() && (#[trigger] levels[j]).contains(dep);
    law_dependencies_first(runner.dag, levels, from, i, j, exec.wave as int);
}

/// Law: where the agents of all tasks are configured, every wave starts all its tasks.
pub proof fn law_known_agents_start(runner: Runner, exec: Execution, w: int, k: int)
    requires
        runner.wf(),
        exec.wf(&runner),
        graph_labels(runner.dag.graph) == task_ids(runner.tf.tasks@),
        forall|i: int|
            0 <= i < runner.tf.tasks@.len() ==> runner.agents@.dom().contains(
                (#[trigger] runner.tf.tasks@[i]).agent@,
            ),
        0 <= w < exec.levels@.len(),
        0 <= k < exec.levels@[w]@.len(),
    ensures
        runner.startable(exec.levels@[w]@[k]@),
{
    let labels = graph_labels(runner.dag.graph);
    let arcs = graph_arcs(runner.dag.graph);
    let levels = level_views(exec.levels@);
    let id = exec.levels@[w]@[k]@;
    assert(is_level(labels, arcs, w as nat, levels[w]));
    assert(levels[w][k] == id);
    assert(levels[w].contains(id));
    let n = choose|n: int| #[trigger] wave(arcs, labels.len(), w as nat).contains(n) && labels[n]
        == id;
    lemma_wave(arcs, labels.len(), w as nat, n);
    assert(task_at(runner.tf.tasks@, id, n)) by {
        assert forall|j: int| 0 <= j < n implies (#[trigger] runner.tf.tasks@[j]).id@ != id by {
            assert(!repeats_at(labels, n));
            assert(labels[j] != labels[n]);
        }
    }
}

/// Law: a failed task stops the run after its wave, unless it is to go on after errors.
pub proof fn law_failure_stops(
    runner: Runner,
    exec: Execution,
    outcomes: Vec<bool>,
    after: Execution,
    step: ExecStep,
    i: int,
)
    requires
        exec.goes_on(&runner, ExecEvent::WaveDone(outcomes), &after, step),
        0 <= i < outcomes@.len(),
        !outcomes@[i],
        !exec.opts.continue_on_error,
    ensures
        after.phase == ExecPhase::Finished,
        step.action matches ExecAction::Done(Err(TaskError::InvalidTaskFile(m))) && m@
            == "one or more tasks failed"@,
        step.updates@.len() == 0,
        exec.opts.ui ==> step.printed@.len() == 0,
        !exec.opts.ui ==> step.printed@.len() == 1 && step.printed@[0]@ == "completed wave\n"@,
{
    assert(!all_succeeded(outcomes@));
    let v = views(step.printed@);
    assert(v.len() == step.printed@.len());
    assert(views(step.updates@).len() == step.updates@.len());
    if !exec.opts.ui {
        assert(v[0] == step.printed@[0]@);
    }
}

/// How many events a run may still see, at most.
pub open spec fn events_left(exec: Execution) -> int {
    let waves = exec.levels@.len() - exec.wave;
    match exec.phase {
        ExecPhase::CreatingDir => waves + 4,
        ExecPhase::AskingHelp => waves + 3,
        ExecPhase::StartingUi => waves + 2,
        ExecPhase::RunningWave => waves + 1,
        ExecPhase::Closing => 1,
        ExecPhase::Finished => 0,
    }
}

/// Law: a run comes to an end. With each event fewer are left to wait for.
pub proof fn law_run_ends(
    runner: Runner,
    exec: Execution,
    event: ExecEvent,
    after: Execution,
    step: ExecStep,
)
    requires
        exec.wf(&runner),
        after.wf(&runner),
        exec.awaits(event),
        exec.goes_on(&runner, event, &after, step),
    ensures
        0 <= events_left(after) < events_left(exec),
{
}

/// Law: a run succeeds only once all its waves have run.
pub proof fn law_all_waves_run(
    runner: Runner,
    exec: Execution,
    event: ExecEvent,
    after: Execution,
    step: ExecStep,
)
    requires
        exec.wf(&runner),
        exec.awaits(event),
        exec.goes_on(&runner, event, &after, step),
        step.action == ExecAction::Done(Ok(())),
    ensures
        exec.wave == exec.levels@.len(),
{
}

/// The task that a call is about.
pub open spec fn call_task(call: CallView) -> Option<Seq<char>> {
    match call {
        CallView::Pause(id) => Some(id),
        CallView::Inject { task_id, .. } => Some(task_id),
        CallView::Resume(id) => Some(id),
        CallView::AbortAll => None,
    }
}

/// What the dashboard is told after a call: that it failed, where it did, and the status that was
/// asked for.
pub open spec fn told_after(call: CallView, outcome: Result<(), TaskError>) -> Seq<UpdateView> {
    (match (call_task(call), outcome) {
        (Some(task_id), Err(e)) => seq![
            UpdateView::SetBanner {
                task_id,
                banner: Some(color_line(e.message_text(), Color::Red)),
            },
        ],
        _ => seq![],
    }) + (match call {
        CallView::Pause(task_id) => seq![
            UpdateView::SetStatus { task_id, status: AgentStatus::Paused },
        ],
        CallView::Resume(task_id) => seq![
            UpdateView::SetStatus { task_id, status: AgentStatus::Running },
        ],
        _ => seq![],
    })
}

/// Tells what the dashboard is told after a call.
pub fn call_updates(call: &ControlCall, outcome: &Result<(), TaskError>) -> (r: Vec<
    MultiAgentUpdate,
>)
    ensures
        views(r@) == told_after(call@, *outcome),
{
    broadcast use lemma_views_push;

    let mut r: Vec<MultiAgentUpdate> = Vec::new();
    let task = match call {
        ControlCall::Pause(id) => Some(id),
        ControlCall::Inject { task_id, .. } => Some(task_id),
        ControlCall::Resume(id) => Some(id),
        ControlCall::AbortAll => None,
    };
    if let Some(task_id) = task {
        if let Err(e) = outcome {
            r.push(
                MultiAgentUpdate::SetBanner {
                    task_id: task_id.clone(),
                    banner: Some(Line::colored(e.message().as_str(), Color::Red)),
                },
            );
        }
    }
    match call {
        ControlCall::Pause(id) => {
            r.push(
                MultiAgentUpdate::SetStatus { task_id: id.clone(), status: AgentStatus::Paused },
            );
        },
        ControlCall::Resume(id) => {
            r.push(
                MultiAgentUpdate::SetStatus { task_id: id.clone(), status: AgentStatus::Running },
            );
        },
        _ => {},
    }
    assert(views(r@) =~= told_after(call@, *outcome));
    r
}

/// Law: a runner made with the configured options makes a dry run exactly where the command line asks
/// for one. It prints one text, the plan of this run, and is over with success; else nothing is
/// printed and the directory of the run is created first.
pub proof fn law_dry_run(
    base: RunnerOptions,
    args: &RunArgs,
    env: &RunEnv,
    task_md: &str,
    opts: RunnerOptions,
    tf: &TaskFile,
    dag: Dag,
    runner: Runner,
    r: (Execution, ExecStep),
    plan: String,
)
    requires
        call_ensures(configure, (base, args, env, task_md), opts),
        call_ensures(Runner::new, (tf, dag, opts), Ok(runner)),
        call_ensures(Runner::execute, (&runner,), r),
        call_ensures(Runner::render_plan, (&runner,), plan),
    ensures
        args.dry_run ==> {
            &&& r.1.action == ExecAction::Done(Ok(()))
            &&& r.0.phase == ExecPhase::Finished
            &&& r.1.printed@.len() == 1
            &&& r.1.printed@[0]@ == plan@
            &&& starts_with(
                r.1.printed@[0]@,
                "# Run Plan\n"@ + "run_id: "@ + base.run_id@ + "\n"@ + "objective: "@ + tf.objective@
                    + "\n"@ + "concurrency: "@ + decimal(args.concurrency as nat) + "\n"@,
            )
        },
        !args.dry_run ==> {
            &&& r.0.phase == ExecPhase::CreatingDir
            &&& r.1.printed@.len() == 0
            &&& r.1.action matches ExecAction::CreateDir(dir) && dir@ == opts.base_run_dir@
        },
        r.1.updates@.len() == 0,
{
    assert(views(r.1.updates@).len() == 0);
    if args.dry_run {
        let levels = choose|levels: Seq<Seq<Seq<char>>>| #[trigger]
            is_levels(graph_labels(runner.dag.graph), graph_arcs(runner.dag.graph), levels)
                && views(r.1.printed@) == seq![plan_text(runner, levels)];
        assert(views(r.1.printed@).len() == 1);
        assert(r.1.printed@[0]@ == views(r.1.printed@)[0]);
        let head = "# Run Plan\n"@ + "run_id: "@ + base.run_id@ + "\n"@ + "objective: "@
            + tf.objective@ + "\n"@ + "concurrency: "@ + decimal(args.concurrency as nat) + "\n"@;
        let text = plan_text(runner, levels);
        assert(text.take(head.len() as int) =~= head);
        let others = choose|others: Seq<Seq<Seq<char>>>| #[trigger]
            is_levels(graph_labels(runner.dag.graph), graph_arcs(runner.dag.graph), others) && plan@
                == plan_text(runner, others);
        law_levels_unique(
            graph_labels(runner.dag.graph),
            graph_arcs(runner.dag.graph),
            levels,
            others,
        );
    } else {
        assert(views(r.1.printed@).len() == 0);
    }
}

/// Whether an action starts tasks of a level: all of them in order, each with the first task of that
/// id and in its own directory, or those before one that cannot be started, with the error.
pub open spec fn starts_level(runner: Runner, level: Seq<String>, action: ExecAction) -> bool {
    match action {
        ExecAction::RunWave { launches, limit } => {
            &&& limit == runner.opts.concurrency
            &&& launches@.len() == level.len()
            &&& forall|k: int|
                0 <= k < level.len() ==> (#[trigger] launches@[k]).task.id@ == level[k]@
            &&& forall|k: int|
                0 <= k < level.len() ==> (#[trigger] launches@[k]).run_dir@ == join_path(
                    runner.opts.base_run_dir@,
                    level[k]@,
                )
            &&& forall|k: int|
                0 <= k < level.len() ==> (#[trigger] launches@[k]).agent.id@
                    == launches@[k].task.agent@
        },
        ExecAction::Abandon { launches, limit, error } => {
            &&& limit == runner.opts.concurrency
            &&& launches@.len() < level.len()
            &&& forall|k: int|
                0 <= k < launches@.len() ==> (#[trigger] launches@[k]).task.id@ == level[k]@
            &&& error is UnknownAgent || error is InvalidTaskFile
            &&& error matches TaskError::UnknownAgent(a) ==> forall|i: int|
                0 <= i < runner.tf.agents@.len() ==> (#[trigger] runner.tf.agents@[i]).id@ != a@
        },
        _ => false,
    }
}

/// The last agent that has the id of another.
proof fn lemma_last_with_id(agents: Seq<AgentSpec>, i: int) -> (j: int)
    requires
        0 <= i < agents.len(),
    ensures
        last_with_id(agents, j),
        agents[j].id@ == agents[i].id@,
    decreases agents.len() - i,
{
    if last_with_id(agents, i) {
        i
    } else {
        let k = choose|k: int| i < k < agents.len() && (#[trigger] agents[k]).id@ == agents[i].id@;
        lemma_last_with_id(agents, k)
    }
}

/// A launch is one of the task asked for, by an agent with the id that the task names.
proof fn lemma_launch(runner: Runner, id: Seq<char>, launch: TaskLaunch)
    requires
        runner.wf(),
        runner.launches(id, launch),
    ensures
        launch.task.id@ == id,
        launch.run_dir@ == join_path(runner.opts.base_run_dir@, id),
        launch.agent.id@ == launch.task.agent@,
{
    let i = choose|i: int| #[trigger]
        task_at(runner.tf.tasks@, id, i) && launch.task@ == runner.tf.tasks@[i]@
            && runner.agents@.dom().contains(runner.tf.tasks@[i].agent@) && launch.agent@
            == runner.agents@[runner.tf.tasks@[i].agent@]@;
    let a = runner.tf.tasks@[i].agent@;
    assert(launch.task@.id == id);
    assert(launch.task@.agent == a);
    let agents = runner.tf.agents@;
    let k = choose|k: int| 0 <= k < agents.len() && (#[trigger] agents[k]).id@ == a;
    let j = lemma_last_with_id(agents, k);
    assert(launch.agent@ == agents[j]@);
    assert(launch.agent@.id == agents[j]@.id);
}

/// Entering a wave starts its level.
proof fn lemma_enters(
    runner: Runner,
    exec: Execution,
    printed: Seq<Seq<char>>,
    updates: Seq<UpdateView>,
    step: ExecStep,
)
    requires
        runner.wf(),
        exec.enters(&runner, printed, updates, step),
    ensures
        exec.wave < exec.levels@.len() ==> starts_level(
            runner,
            exec.levels@[exec.wave as int]@,
            step.action,
        ),
        exec.wave >= exec.levels@.len() ==> step.action is Close,
        exec.phase == ExecPhase::RunningWave <==> step.action is RunWave,
        views(step.updates@) == updates,
{
    if exec.wave < exec.levels@.len() {
        let strings = exec.levels@[exec.wave as int]@;
        let level = views(strings);
        match step.action {
            ExecAction::RunWave { launches, limit } => {
                assert forall|k: int| 0 <= k < level.len() implies (
                #[trigger] launches@[k]).task.id@ == strings[k]@ && launches@[k].run_dir@
                    == join_path(runner.opts.base_run_dir@, strings[k]@) && launches@[k].agent.id@
                    == launches@[k].task.agent@ by {
                    lemma_launch(runner, level[k], launches@[k]);
                }
            },
            ExecAction::Abandon { launches, limit, error } => {
                assert forall|k: int| 0 <= k < launches@.len() implies (
                #[trigger] launches@[k]).task.id@ == strings[k]@ by {
                    lemma_launch(runner, level[k], launches@[k]);
                }
            },
            _ => {},
        }
    }
}

/// Law: after a wave all of whose tasks succeeded, or where the run is to go on after errors, the
/// next wave is started, with all its tasks; after the last one the run closes.
pub proof fn law_next_wave(
    runner: Runner,
    exec: Execution,
    outcomes: Vec<bool>,
    after: Execution,
    step: ExecStep,
)
    requires
        runner.wf(),
        exec.wf(&runner),
        exec.awaits(ExecEvent::WaveDone(outcomes)),
        exec.goes_on(&runner, ExecEvent::WaveDone(outcomes), &after, step),
        runner.opts.continue_on_error || forall|i: int|
            0 <= i < outcomes@.len() ==> #[trigger] outcomes@[i],
    ensures
        after.wave == exec.wave + 1,
        after.levels == exec.levels,
        after.wave < exec.levels@.len() ==> starts_level(
            runner,
            exec.levels@[exec.wave + 1]@,
            step.action,
        ),
        after.wave == exec.levels@.len() ==> step.action is Close,
        step.updates@.len() == 0,
{
    if forall|i: int| 0 <= i < outcomes@.len() ==> #[trigger] outcomes@[i] {
        assert(all_succeeded(outcomes@));
    }
    lemma_enters(runner, after, exec.progress(seq!["completed wave\n"@]), seq![], step);
    assert(views(step.updates@).len() == 0);
}

/// Law: the first wave is started as soon as the help text is there, or else the dashboard is shown
/// first with all tasks waiting in it.
pub proof fn law_first_wave(
    runner: Runner,
    exec: Execution,
    event: ExecEvent,
    after: Execution,
    step: ExecStep,
)
    requires
        runner.wf(),
        exec.wf(&runner),
        exec.wave == 0,
        exec.levels@.len() > 0,
        exec.awaits(event),
        exec.goes_on(&runner, event, &after, step),
    ensures
        event is Help && !runner.opts.ui ==> starts_level(runner, exec.levels@[0]@, step.action),
        event is Help && runner.opts.ui ==> {
            &&& after.phase == ExecPhase::StartingUi
            &&& step.action matches ExecAction::StartUi { task_ids, layout } && {
                &&& task_ids@.len() == runner.tf.tasks@.len()
                &&& forall|i: int|
                    0 <= i < task_ids@.len() ==> (#[trigger] task_ids@[i])@
                        == runner.tf.tasks@[i].id@
                &&& layout@ == exec.opts.ui_layout@
            }
        },
        event is UiStarted ==> {
            &&& starts_level(runner, exec.levels@[0]@, step.action)
            &&& step.updates@.len() == runner.tf.tasks@.len()
            &&& forall|i: int|
                0 <= i < step.updates@.len() ==> (#[trigger] step.updates@[i])@
                    == (UpdateView::SetStatus {
                    task_id: runner.tf.tasks@[i].id@,
                    status: AgentStatus::Queued,
                })
        },
{
    match event {
        ExecEvent::Help(help) => {
            if runner.opts.ui {
                match step.action {
                    ExecAction::StartUi { task_ids, layout } => {
                        assert(views(task_ids@).len() == runner.tf.tasks@.len());
                        assert forall|i: int| 0 <= i < task_ids@.len() implies (
                        #[trigger] task_ids@[i])@ == runner.tf.tasks@[i].id@ by {
                            assert(views(task_ids@)[i] == ids_of(runner.tf.tasks@)[i]);
                        }
                    },
                    _ => {},
                }
            } else {
                lemma_enters(runner, after, seq![], seq![], step);
            }
        },
        ExecEvent::UiStarted => {
            let told = queued_updates(runner.tf.tasks@);
            lemma_enters(runner, after, seq![], told, step);
            assert(views(step.updates@).len() == told.len());
            assert forall|i: int| 0 <= i < step.updates@.len() implies (
            #[trigger] step.updates@[i])@ == (UpdateView::SetStatus {
                task_id: runner.tf.tasks@[i].id@,
                status: AgentStatus::Queued,
            }) by {
                assert(views(step.updates@)[i] == told[i]);
            }
        },
        _ => {},
    }
}

/// Law: with a dashboard a run prints nothing. Without one it prints a line for each wave that is
/// done, one for each that begins, and one for each task that is started, in this order.
pub proof fn law_progress(
    runner: Runner,
    exec: Execution,
    event: ExecEvent,
    after: Execution,
    step: ExecStep,
    launches: Vec<TaskLaunch>,
    limit: usize,
)
    requires
        exec.wf(&runner),
        after.wf(&runner),
        exec.awaits(event),
        exec.goes_on(&runner, event, &after, step),
    ensures
        runner.opts.ui ==> step.printed@.len() == 0,
        !runner.opts.ui && event is WaveDone ==> step.printed@.len() > 0 && step.printed@[0]@
            == "completed wave\n"@,
        !runner.opts.ui && starts(step.action, launches, limit) ==> {
            let n = if event is WaveDone {
                1int
            } else {
                0int
            };
            &&& step.printed@.len() == n + 1 + launches@.len()
            &&& step.printed@[n]@ == "starting wave with tasks: "@ + debug_list(
                views(after.levels@[after.wave as int]@),
            )
            &&& forall|k: int|
                0 <= k < launches@.len() ==> #[trigger] step.printed@[n + 1 + k]@
                    == "launching task: "@ + launches@[k].task.id@ + " (agent: "@
                    + launches@[k].agent.id@ + ") in "@ + launches@[k].run_dir@
        },
        event is DirReady || event is Closed ==> step.printed@.len() == 0 && step.updates@.len()
            == 0,
{
    assert(views(step.printed@).len() == step.printed@.len());
    assert(views(step.updates@).len() == step.updates@.len());
    assert(forall|k: int|
        0 <= k < step.printed@.len() ==> #[trigger] step.printed@[k]@ == views(step.printed@)[k]);
    if !runner.opts.ui && starts(step.action, launches, limit) {
        let n = if event is WaveDone {
            1int
        } else {
            0int
        };
        let lines = seq![wave_text(views(after.levels@[after.wave as int]@))] + launch_texts(
            launches@,
        );
        let first = if event is WaveDone {
            seq!["completed wave\n"@]
        } else {
            seq![]
        };
        assert(views(step.printed@) == first + lines);
        assert(step.printed@[n]@ == (first + lines)[n]);
        assert forall|k: int| 0 <= k < launches@.len() implies #[trigger] step.printed@[n + 1 + k]@
            == "launching task: "@ + launches@[k].task.id@ + " (agent: "@ + launches@[k].agent.id@
            + ") in "@ + launches@[k].run_dir@ by {
            assert((first + lines)[n + 1 + k] == launch_texts(launches@)[k]);
        }
    }
    if !runner.opts.ui && event is WaveDone {
        assert(views(step.printed@)[0] == "completed wave\n"@);
    }
}

/// Law: the flag for approvals is passed exactly where the program's help text names it. No other
/// option changes in a run.
pub proof fn law_help_decides(
    runner: Runner,
    exec: Execution,
    event: ExecEvent,
    after: Execution,
    step: ExecStep,
)
    requires
        exec.awaits(event),
        exec.goes_on(&runner, event, &after, step),
    ensures
        event matches ExecEvent::Help(Some(text)) ==> after.opts.subagent.supports_approval_flag
            == Some(contains_text(decoded(text@), "ask-for-approval"@)),
        event matches ExecEvent::Help(None) ==> after.opts.subagent.supports_approval_flag == Some(
            false,
        ),
        !(event is Help) ==> after.opts@ == exec.opts@,
        after.opts.run_id@ == exec.opts.run_id@,
        after.opts.base_run_dir@ == exec.opts.base_run_dir@,
        after.opts.concurrency == exec.opts.concurrency,
        after.opts.retries == exec.opts.retries,
        after.opts.dry_run == exec.opts.dry_run,
        after.opts.continue_on_error == exec.opts.continue_on_error,
        after.opts.ui == exec.opts.ui,
        opt_view(after.opts.default_cwd) == opt_view(exec.opts.default_cwd),
        after.opts.subagent.codex_bin@ == exec.opts.subagent.codex_bin@,
        opt_view(after.opts.subagent.model) == opt_view(exec.opts.subagent.model),
        opt_view(after.opts.subagent.profile) == opt_view(exec.opts.subagent.profile),
        opt_view(after.opts.subagent.sandbox) == opt_view(exec.opts.subagent.sandbox),
        views(after.opts.subagent.extra_args@) == views(exec.opts.subagent.extra_args@),
        after.opts.subagent.time_budget_secs == exec.opts.subagent.time_budget_secs,
{
    let a = after.opts@;
    let b = exec.opts@;
    assert(a.run_id == b.run_id && a.base_run_dir == b.base_run_dir && a.concurrency
        == b.concurrency && a.retries == b.retries && a.dry_run == b.dry_run && a.continue_on_error
        == b.continue_on_error && a.ui == b.ui && a.default_cwd == b.default_cwd);
    let c = a.subagent;
    let d = b.subagent;
    assert(c.codex_bin == d.codex_bin && c.model == d.model && c.profile == d.profile && c.sandbox
        == d.sandbox && c.extra_args == d.extra_args && c.time_budget_secs == d.time_budget_secs);
}

/// Law: a run whose directory cannot be created fails with the reason; else the program is asked for
/// its help. A run that closes has succeeded.
pub proof fn law_ends_of_a_run(
    runner: Runner,
    exec: Execution,
    event: ExecEvent,
    after: Execution,
    step: ExecStep,
)
    requires
        exec.awaits(event),
        exec.goes_on(&runner, event, &after, step),
    ensures
        event matches ExecEvent::DirReady(Err(e)) ==> {
            &&& after.phase == ExecPhase::Finished
            &&& step.action matches ExecAction::Done(Err(TaskError::Io(m))) && m@ == e@
        },
        event matches ExecEvent::DirReady(Ok(_)) ==> {
            &&& after.phase == ExecPhase::AskingHelp
            &&& step.action matches ExecAction::AskHelp { program } && program@
                == exec.opts.subagent.codex_bin@
        },
        event is Closed ==> after.phase == ExecPhase::Finished && step.action == ExecAction::Done(
            Ok(()),
        ),
{
    assert(exec.opts@.subagent.codex_bin == exec.opts.subagent.codex_bin@);
}

/// Law: the dashboard learns of each call that pauses or resumes a task, and of each that failed for
/// a task, in red; a call that failed is told of first.
pub proof fn law_calls_told(
    call: &ControlCall,
    outcome: &Result<(), TaskError>,
    r: Vec<MultiAgentUpdate>,
    id: Seq<char>,
)
    requires
        call_ensures(call_updates, (call, outcome), r),
    ensures
        call@ == CallView::Pause(id) ==> r@.len() > 0 && r@.last()@ == (UpdateView::SetStatus {
            task_id: id,
            status: AgentStatus::Paused,
        }),
        call@ == CallView::Resume(id) ==> r@.len() > 0 && r@.last()@ == (UpdateView::SetStatus {
            task_id: id,
            status: AgentStatus::Running,
        }),
        call@ is AbortAll ==> r@.len() == 0,
        outcome is Ok && (call@ == CallView::Pause(id) || call@ == CallView::Resume(id))
            ==> r@.len() == 1,
        outcome is Ok && call@ is Inject ==> r@.len() == 0,
        *outcome matches Err(e) ==> {
            &&& call@ == CallView::Pause(id) || call@ == CallView::Resume(id) ==> r@.len() == 2
                && r@[0]@ == (UpdateView::SetBanner {
                task_id: id,
                banner: Some(color_line(e.message_text(), Color::Red)),
            })
            &&& call@ matches CallView::Inject { task_id, .. } ==> r@.len() == 1 && r@[0]@
                == (UpdateView::SetBanner {
                task_id,
                banner: Some(color_line(e.message_text(), Color::Red)),
            })
        },
{
    let v = views(r@);
    assert(v.len() == r@.len());
    assert(forall|k: int| 0 <= k < r@.len() ==> #[trigger] r@[k]@ == v[k]);
    assert(v == told_after(call@, *outcome));
    if r@.len() > 0 {
        assert(r@.last()@ == v[v.len() - 1]);
    }
}

/// How many of the moves start a task.
pub open spec fn starts_among(moves: Seq<WaveMove>) -> int
    decreases moves.len(),
{
    if moves.len() == 0 {
        0
    } else {
        starts_among(moves.drop_last()) + (if moves.last() == WaveMove::Start {
            1int
        } else {
            0
        })
    }
}

/// Law: a wave counts its tasks: as many were started as moves started one, and those run that were
/// started and have not ended.
pub proof fn law_wave_counts(total: usize, limit: usize, moves: Seq<WaveMove>)
    requires
        WaveRun::fresh(total, limit).allows_all(moves),
    ensures
        WaveRun::fresh(total, limit).after_all(moves).started == starts_among(moves),
        WaveRun::fresh(total, limit).after_all(moves).running == 2 * starts_among(moves)
            - moves.len(),
    decreases moves.len(),
{
    if moves.len() > 0 {
        law_wave_counts(total, limit, moves.drop_last());
        lemma_wave_moves(WaveRun::fresh(total, limit), moves.drop_last());
    }
}

/// Law: a wave never gets stuck. As long as it is not over and at least one task may run, a task can
/// be started or one that runs can end.
pub proof fn law_wave_moves_on(wave: WaveRun)
    requires
        wave.wf(),
        wave.limit > 0,
        wave.started < wave.total || wave.running > 0,
    ensures
        wave.allows(WaveMove::Start) || wave.allows(WaveMove::End),
        wave.started < wave.total && wave.running < wave.limit ==> wave.allows(WaveMove::Start),
{
}

/// Law: a run waits for what its last action leads to, and after it is over for nothing.
pub proof fn law_awaited(exec: Execution, event: ExecEvent)
    ensures
        exec.phase == ExecPhase::CreatingDir ==> (exec.awaits(event) <==> event is DirReady),
        exec.phase == ExecPhase::AskingHelp ==> (exec.awaits(event) <==> event is Help),
        exec.phase == ExecPhase::StartingUi ==> (exec.awaits(event) <==> event is UiStarted),
        exec.phase == ExecPhase::RunningWave ==> (exec.awaits(event) <==> event is WaveDone),
        exec.phase == ExecPhase::Closing ==> (exec.awaits(event) <==> event is Closed),
        exec.phase == ExecPhase::Finished ==> !exec.awaits(event),
{
}

/// Law: after each event a run waits for what its next action leads to.
pub proof fn law_phases(
    runner: Runner,
    exec: Execution,
    event: ExecEvent,
    after: Execution,
    step: ExecStep,
)
    requires
        exec.awaits(event),
        exec.goes_on(&runner, event, &after, step),
    ensures
        step.action is AskHelp ==> after.phase == ExecPhase::AskingHelp,
        step.action is StartUi ==> after.phase == ExecPhase::StartingUi,
        step.action is RunWave ==> after.phase == ExecPhase::RunningWave,
        step.action is Close ==> after.phase == ExecPhase::Closing,
        step.action is Done || step.action is Abandon ==> after.phase == ExecPhase::Finished,
        after.levels == exec.levels,
        event !is WaveDone ==> after.wave == exec.wave,
{
}

/// Law: a run goes on after a wave all of whose tasks succeeded, or where it is to go on after errors,
/// with the next wave; after a task failed it is over, with an error.
pub proof fn law_wave_done(
    runner: &Runner,
    exec: &mut Execution,
    outcomes: Vec<bool>,
    step: ExecStep,
)
    requires
        call_ensures(Runner::go_on, (runner, exec, ExecEvent::WaveDone(outcomes)), step),
        runner.wf(),
        old(exec).wf(runner),
        old(exec).phase == ExecPhase::RunningWave,
    ensures
        (runner.opts.continue_on_error || forall|i: int|
            0 <= i < outcomes@.len() ==> #[trigger] outcomes@[i]) ==> {
            &&& final(exec).wave == old(exec).wave + 1
            &&& old(exec).wave + 1 < old(exec).levels@.len() ==> starts_level(
                *runner,
                old(exec).levels@[old(exec).wave + 1]@,
                step.action,
            )
            &&& old(exec).wave + 1 == old(exec).levels@.len() ==> step.action is Close
        },
        !runner.opts.continue_on_error && (exists|i: int|
            0 <= i < outcomes@.len() && !#[trigger] outcomes@[i]) ==> {
            &&& final(exec).phase == ExecPhase::Finished
            &&& step.action matches ExecAction::Done(Err(_))
        },
        final(exec).levels == old(exec).levels,
{
    let after = *final(exec);
    if runner.opts.continue_on_error || forall|i: int|
        0 <= i < outcomes@.len() ==> #[trigger] outcomes@[i] {
        law_next_wave(*runner, *old(exec), outcomes, after, step);
    }
    if !runner.opts.continue_on_error && (exists|i: int|
        0 <= i < outcomes@.len() && !#[trigger] outcomes@[i]) {
        let i = choose|i: int| 0 <= i < outcomes@.len() && !#[trigger] outcomes@[i];
        law_failure_stops(*runner, *old(exec), outcomes, after, step, i);
    }
}

/// Law: a run goes on from each event as its state and the event say.
pub proof fn law_gone_on(runner: &Runner, exec: &mut Execution, event: ExecEvent, step: ExecStep)
    requires
        call_ensures(Runner::go_on, (runner, exec, event), step),
    ensures
        old(exec).goes_on(runner, event, final(exec), step),
        final(exec).wf(runner),
        final(exec).levels == old(exec).levels,
{
}

/// Law: the next task of a wave is started only where a place is free and a task is left, in their
/// order, and each that ends makes a place free.
pub proof fn law_wave_places(wave: &mut WaveRun, r: Option<usize>, other: &mut WaveRun, e: ())
    requires
        call_ensures(WaveRun::start_next, (wave,), r),
        call_ensures(WaveRun::one_ended, (other,), e),
        old(wave).wf(),
        old(other).wf(),
        old(other).running > 0,
    ensures
        r is Some <==> old(wave).started < old(wave).total && old(wave).running < old(wave).limit,
        r matches Some(i) ==> i == old(wave).started && final(wave).started == old(wave).started + 1
            && final(wave).running == old(wave).running + 1,
        r is None ==> *final(wave) == *old(wave),
        final(wave).limit == old(wave).limit,
        final(wave).total == old(wave).total,
        final(other).running == old(other).running - 1,
        final(other).started == old(other).started,
        final(other).total == old(other).total,
        final(other).limit == old(other).limit,
{
}

} // verus!
