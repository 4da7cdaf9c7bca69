//! The dashboard of a run: it follows the updates of the runner and turns key presses into calls to
//! the agents.

use vstd::prelude::*;
use vstd::string::*;

use crate::dashboard::ActionView;
use crate::dashboard::AgentPaneState;
use crate::dashboard::AgentStatus;
use crate::dashboard::DashView;
use crate::dashboard::DashboardAction;
use crate::dashboard::DashboardState;
use crate::dashboard::focus_paused;
use crate::dashboard::law_pause_key;
use crate::dashboard::law_send_key;
use crate::dashboard::PaneView;
use crate::keys::KeyCode;
use crate::keys::KeyEvent;
use crate::keys::KeyEventKind;
use crate::logs::LogSource;
use crate::logs::PartView;
use crate::screen::Line;
use crate::screen::LineView;
use crate::strmap::StrMap;
use crate::text::lemma_views_push;
use crate::text::opt_view;
use crate::text::views;

verus! {

/// A change that the dashboard is told about.
#[derive(Debug)]
pub enum MultiAgentUpdate {
    /// Replaces the log, the status and the banner of an agent.
    Snapshot { task_id: String, log: Vec<Line>, status: AgentStatus, banner: Option<Line> },
    /// Appends lines to the log of an agent.
    AppendLines { task_id: String, lines: Vec<Line> },
    SetStatus { task_id: String, status: AgentStatus },
    /// Sets the banner of an agent, or takes it away.
    SetBanner { task_id: String, banner: Option<Line> },
    /// Names the log files that older lines of an agent are paged from.
    SetLogFiles { task_id: String, stdout: String, stderr: String },
    /// Counts one more message sent to or from an agent.
    BumpRouteCount { task_id: String },
}

/// The model of a `MultiAgentUpdate`.
#[verifier::ext_equal]
pub enum UpdateView {
    Snapshot {
        task_id: Seq<char>,
        log: Seq<LineView>,
        status: AgentStatus,
        banner: Option<LineView>,
    },
    AppendLines { task_id: Seq<char>, lines: Seq<LineView> },
    SetStatus { task_id: Seq<char>, status: AgentStatus },
    SetBanner { task_id: Seq<char>, banner: Option<LineView> },
    SetLogFiles { task_id: Seq<char>, stdout: Seq<char>, stderr: Seq<char> },
    BumpRouteCount { task_id: Seq<char> },
}

impl View for MultiAgentUpdate {
    type V = UpdateView;

    open spec fn view(&self) -> UpdateView {
        match self {
            MultiAgentUpdate::Snapshot { task_id, log, status, banner } => UpdateView::Snapshot {
                task_id: task_id@,
                log: views(log@),
                status: *status,
                banner: opt_view(*banner),
            },
            MultiAgentUpdate::AppendLines { task_id, lines } => UpdateView::AppendLines {
                task_id: task_id@,
                lines: views(lines@),
            },
            MultiAgentUpdate::SetStatus { task_id, status } => UpdateView::SetStatus {
                task_id: task_id@,
                status: *status,
            },
            MultiAgentUpdate::SetBanner { task_id, banner } => UpdateView::SetBanner {
                task_id: task_id@,
                banner: opt_view(*banner),
            },
            MultiAgentUpdate::SetLogFiles { task_id, stdout, stderr } => UpdateView::SetLogFiles {
                task_id: task_id@,
                stdout: stdout@,
                stderr: stderr@,
            },
            MultiAgentUpdate::BumpRouteCount { task_id } => UpdateView::BumpRouteCount {
                task_id: task_id@,
            },
        }
    }
}

impl UpdateView {
    /// The task that the update is about.
    pub open spec fn task(self) -> Seq<char> {
        match self {
            UpdateView::Snapshot { task_id, .. } => task_id,
            UpdateView::AppendLines { task_id, .. } => task_id,
            UpdateView::SetStatus { task_id, .. } => task_id,
            UpdateView::SetBanner { task_id, .. } => task_id,
            UpdateView::SetLogFiles { task_id, .. } => task_id,
            UpdateView::BumpRouteCount { task_id } => task_id,
        }
    }
}

/// Whether two logs page from the same files and have the same older lines.
pub open spec fn same_paging(a: LogSource, b: LogSource) -> bool {
    &&& a.older() == b.older()
    &&& a.read() == b.read()
    &&& a.stdout_path == b.stdout_path
    &&& a.stderr_path == b.stderr_path
}

/// Whether an update takes pane `a` to pane `b`.
pub open spec fn updates_pane(update: UpdateView, a: PaneView, b: PaneView) -> bool {
    match update {
        UpdateView::Snapshot { task_id: _, log, status, banner } => {
            &&& b == (PaneView { status, banner, log_src: b.log_src, ..a })
            &&& b.log_src.live() == log
            &&& same_paging(b.log_src, a.log_src)
        },
        UpdateView::AppendLines { task_id: _, lines } => {
            &&& b == (PaneView { log_src: b.log_src, ..a })
            &&& b.log_src.live() == a.log_src.live() + lines
            &&& same_paging(b.log_src, a.log_src)
        },
        UpdateView::SetStatus { task_id: _, status } => b == (PaneView { status, ..a }),
        UpdateView::SetBanner { task_id: _, banner } => b == (PaneView { banner, ..a }),
        UpdateView::SetLogFiles { task_id: _, stdout, stderr } => {
            &&& b == (PaneView { log_src: b.log_src, ..a })
            &&& b.log_src.live() == a.log_src.live()
            &&& b.log_src.older() == Seq::<LineView>::empty()
            &&& b.log_src.read() == Seq::<PartView>::empty()
            &&& opt_view(b.log_src.stdout_path) == Some(stdout)
            &&& opt_view(b.log_src.stderr_path) == Some(stderr)
        },
        UpdateView::BumpRouteCount { .. } => b == (PaneView {
            route_count: crate::dashboard::saturating_sum(a.route_count, 1),
            ..a
        }),
    }
}

/// The hooks that are installed to control agents. Without a hook, the dashboard does not make the
/// call.
#[derive(Clone, Copy, Debug, PartialEq, Eq, Structural)]
pub struct MultiAgentCallbacks {
    pub on_pause: bool,
    pub on_resume: bool,
    pub on_inject: bool,
    pub on_abort_all: bool,
}

impl Default for MultiAgentCallbacks {
    fn default() -> (r: Self)
        ensures
            r == (MultiAgentCallbacks {
                on_pause: false,
                on_resume: false,
                on_inject: false,
                on_abort_all: false,
            }),
    {
        MultiAgentCallbacks {
            on_pause: false,
            on_resume: false,
            on_inject: false,
            on_abort_all: false,
        }
    }
}

impl MultiAgentCallbacks {
    /// Installs the hook that pauses an agent.
    pub fn with_pause(self) -> (r: Self)
        ensures
            r == (MultiAgentCallbacks { on_pause: true, ..self }),
    {
        MultiAgentCallbacks { on_pause: true, ..self }
    }

    /// Installs the hook that resumes an agent.
    pub fn with_resume(self) -> (r: Self)
        ensures
            r == (MultiAgentCallbacks { on_resume: true, ..self }),
    {
        MultiAgentCallbacks { on_resume: true, ..self }
    }

    /// Installs the hook that gives guidance to an agent.
    pub fn with_inject(self) -> (r: Self)
        ensures
            r == (MultiAgentCallbacks { on_inject: true, ..self }),
    {
        MultiAgentCallbacks { on_inject: true, ..self }
    }

    /// Installs the hook that ends the whole run.
    pub fn with_abort(self) -> (r: Self)
        ensures
            r == (MultiAgentCallbacks { on_abort_all: true, ..self }),
    {
        MultiAgentCallbacks { on_abort_all: true, ..self }
    }
}

/// A call of a hook.
#[derive(Debug)]
pub enum ControlCall {
    Pause(String),
    Inject { task_id: String, text: String },
    Resume(String),
    AbortAll,
}

/// The model of a `ControlCall`.
#[verifier::ext_equal]
pub enum CallView {
    Pause(Seq<char>),
    Inject { task_id: Seq<char>, text: Seq<char> },
    Resume(Seq<char>),
    AbortAll,
}

impl View for ControlCall {
    type V = CallView;

    open spec fn view(&self) -> CallView {
        match self {
            ControlCall::Pause(id) => CallView::Pause(id@),
            ControlCall::Inject { task_id, text } => CallView::Inject {
                task_id: task_id@,
                text: text@,
            },
            ControlCall::Resume(id) => CallView::Resume(id@),
            ControlCall::AbortAll => CallView::AbortAll,
        }
    }
}

/// The calls that an action comes to, where its hooks are installed. Guidance is given before the
/// agent is resumed.
pub open spec fn calls_for(
    hooks: MultiAgentCallbacks,
    agents: Seq<PaneView>,
    action: ActionView,
) -> Seq<CallView> {
    match action {
        ActionView::PauseAgent { index } => if hooks.on_pause && index < agents.len() {
            seq![CallView::Pause(agents[index as int].task_id)]
        } else {
            seq![]
        },
        ActionView::ResumeWithGuidance { index, text } => if index < agents.len() {
            let task_id = agents[index as int].task_id;
            (if hooks.on_inject {
                seq![CallView::Inject { task_id, text }]
            } else {
                seq![]
            }) + (if hooks.on_resume {
                seq![CallView::Resume(task_id)]
            } else {
                seq![]
            })
        } else {
            seq![]
        },
        _ => seq![],
    }
}

/// The calls that actions come to, one after another.
pub open spec fn all_calls(
    hooks: MultiAgentCallbacks,
    agents: Seq<PaneView>,
    actions: Seq<ActionView>,
) -> Seq<CallView>
    decreases actions.len(),
{
    if actions.len() == 0 {
        seq![]
    } else {
        all_calls(hooks, agents, actions.drop_last()) + calls_for(hooks, agents, actions.last())
    }
}

/// Whether an agent has ended.
pub open spec fn ended(status: AgentStatus) -> bool {
    status == AgentStatus::Done || status == AgentStatus::Error
}

/// Whether all agents have ended.
pub open spec fn all_ended(agents: Seq<PaneView>) -> bool {
    forall|i: int| 0 <= i < agents.len() ==> ended((#[trigger] agents[i]).status)
}

/// The dashboard of a run.
#[derive(Debug)]
pub struct MultiAgentDashboard {
    pub state: DashboardState,
    pub id_to_index: StrMap<usize>,
    pub callbacks: MultiAgentCallbacks,
    pub exit_requested: bool,
}

/// Whether a key is Ctrl+Q, which ends the run.
pub open spec fn is_abort_key(key: KeyEvent) -> bool {
    key.code == KeyCode::Char('q') && key.modifiers.control
}

/// Whether a key is `q`, which closes the dashboard once all agents have ended.
pub open spec fn is_quit_key(key: KeyEvent) -> bool {
    key.code == KeyCode::Char('q') && key.modifiers.none()
}

impl MultiAgentDashboard {
    /// Whether the state is well-formed, ids lead to agents, and completion is known.
    pub open spec fn wf(&self) -> bool {
        &&& self.state@.wf()
        &&& forall|id: Seq<char>| #[trigger]
            self.id_to_index@.dom().contains(id) ==> self.id_to_index@[id]
                < self.state@.agents.len()
        &&& self.state@.run_complete == all_ended(self.state@.agents)
    }

    /// Makes a dashboard for agents that have not started.
    pub fn new(agent_ids: &Vec<String>, callbacks: MultiAgentCallbacks) -> (r: Self)
        ensures
            r.wf(),
            r.callbacks == callbacks,
            !r.exit_requested,
            r.state@.agents.len() == agent_ids@.len(),
            forall|i: int|
                0 <= i < agent_ids@.len() ==> {
                    &&& (#[trigger] r.state@.agents[i]).task_id == agent_ids@[i]@
                    &&& r.state@.agents[i].status == AgentStatus::Queued
                    &&& r.state@.agents[i].log_src.wf()
                    &&& r.state@.agents[i].log_src.blank()
                    &&& r.state@.agents[i].compose == Seq::<char>::empty()
                    &&& r.state@.agents[i].scrollback == 0
                    &&& r.state@.agents[i].banner is None
                    &&& r.state@.agents[i].route_count == 0
                },
            r.state@ == (DashView {
                agents: r.state@.agents,
                focused: 0,
                watch_open: false,
                watch_target: None,
                last_main_log_height: 0,
                last_main_log_rect: None,
                last_watch_log_rect: None,
                run_complete: agent_ids@.len() == 0,
            }),
            forall|id: Seq<char>| #[trigger]
                r.id_to_index@.dom().contains(id) <==> exists|i: int|
                    0 <= i < agent_ids@.len() && (#[trigger] agent_ids@[i])@ == id,
            forall|i: int|
                0 <= i < agent_ids@.len() && (forall|j: int|
                    i < j < agent_ids@.len() ==> (#[trigger] agent_ids@[j])@ != agent_ids@[i]@)
                    ==> r.id_to_index@[(#[trigger] agent_ids@[i])@] == i,
    {
        let mut agents: Vec<AgentPaneState> = Vec::new();
        let mut id_to_index: StrMap<usize> = StrMap::new();
        let mut i: usize = 0;
        while i < agent_ids.len()
            invariant
                i <= agent_ids@.len(),
                agents@.len() == i,
                forall|k: int|
                    0 <= k < i ==> {
                        &&& (#[trigger] agents@[k]).task_id@ == agent_ids@[k]@
                        &&& agents@[k].status == AgentStatus::Queued
                        &&& agents@[k].log_src.wf()
                        &&& agents@[k].log_src.blank()
                        &&& agents@[k].compose@ == Seq::<char>::empty()
                        &&& agents@[k].scrollback == 0
                        &&& agents@[k].banner is None
                        &&& agents@[k].route_count == 0
                    },
                forall|id: Seq<char>| #[trigger]
                    id_to_index@.dom().contains(id) <==> exists|k: int|
                        0 <= k < i && (#[trigger] agent_ids@[k])@ == id,
                forall|id: Seq<char>| #[trigger]
                    id_to_index@.dom().contains(id) ==> id_to_index@[id] < i,
                forall|k: int|
                    0 <= k < i && (forall|j: int|
                        k < j < i ==> (#[trigger] agent_ids@[j])@ != agent_ids@[k]@)
                        ==> id_to_index@[(#[trigger] agent_ids@[k])@] == k,
            decreases agent_ids@.len() - i,
        {
            let ghost before = id_to_index@;
            id_to_index.insert(agent_ids[i].clone(), i);
            agents.push(AgentPaneState::new(agent_ids[i].as_str()));
            proof {
                let id = agent_ids@[i as int]@;
                assert(id_to_index@ == before.insert(id, i));
                assert forall|q: Seq<char>| #[trigger] id_to_index@.dom().contains(q) <==> exists|
                    k: int,
                |
                    0 <= k < i + 1 && (#[trigger] agent_ids@[k])@ == q by {
                    if before.dom().contains(q) {
                        let k = choose|k: int| 0 <= k < i && (#[trigger] agent_ids@[k])@ == q;
                        assert(0 <= k < i + 1 && agent_ids@[k]@ == q);
                    }
                    if q == id {
                        assert(0 <= i < i + 1 && agent_ids@[i as int]@ == q);
                    }
                }
                assert forall|k: int|
                    0 <= k < i + 1 && (forall|j: int|
                        k < j < i + 1 ==> (#[trigger] agent_ids@[j])@ != agent_ids@[k]@)
                    implies id_to_index@[(#[trigger] agent_ids@[k])@] == k by {
                    if k < i {
                        assert(agent_ids@[i as int]@ != agent_ids@[k]@);
                    }
                }
            }
            i += 1;
        }
        let mut state = DashboardState::new(agents);
        let done = state.agents.len() == 0;
        state.run_complete = done;
        proof {
            assert forall|k: int| 0 <= k < state@.agents.len() implies (#[trigger] state@.agents[k])
                == agents@[k]@ by {}
            if state@.agents.len() > 0 {
                assert(!ended(state@.agents[0].status));
            }
        }
        MultiAgentDashboard { state, id_to_index, callbacks, exit_requested: false }
    }

    /// Tells whether all agents have ended.
    pub fn all_agents_terminal(&self) -> (r: bool)
        ensures
            r == all_ended(self.state@.agents),
    {
        let mut i: usize = 0;
        while i < self.state.agents.len()
            invariant
                i <= self.state.agents@.len(),
                forall|k: int| 0 <= k < i ==> ended((#[trigger] self.state@.agents[k]).status),
            decreases self.state.agents@.len() - i,
        {
            let status = self.state.agents[i].status;
            if status != AgentStatus::Done && status != AgentStatus::Error {
                assert(!ended(self.state@.agents[i as int].status));
                return false;
            }
            i += 1;
        }
        true
    }

    /// Tells whether the dashboard closes by itself once no more updates can come: all agents have
    /// ended, and no guidance is being written.
    pub fn closes_when_updates_end(&self) -> (r: bool)
        ensures
            r == (all_ended(self.state@.agents) && !self.state@.composing()),
    {
        self.all_agents_terminal() && !self.state.focused_is_composing()
    }

    /// Handles a key event and tells which hooks to call, in order.
    pub fn on_key(&mut self, key: KeyEvent) -> (calls: Vec<ControlCall>)
        requires
            old(self).wf(),
        ensures
            final(self).wf(),
            final(self).callbacks == old(self).callbacks,
            final(self).id_to_index == old(self).id_to_index,
            if key.kind != KeyEventKind::Press {
                &&& views(calls@) == Seq::<CallView>::empty()
                &&& final(self).state@ == old(self).state@
                &&& final(self).exit_requested == old(self).exit_requested
            } else if is_abort_key(key) {
                &&& views(calls@) == (if old(self).callbacks.on_abort_all {
                    seq![CallView::AbortAll]
                } else {
                    seq![]
                })
                &&& final(self).state@ == old(self).state@
                &&& final(self).exit_requested
            } else if is_quit_key(key) && old(self).state@.run_complete {
                &&& views(calls@) == Seq::<CallView>::empty()
                &&& final(self).state@ == old(self).state@
                &&& final(self).exit_requested
            } else {
                &&& views(calls@) == all_calls(
                    old(self).callbacks,
                    old(self).state@.after_key(key).agents,
                    old(self).state@.key_actions(key),
                )
                &&& final(self).state@ == (DashView {
                    run_complete: all_ended(old(self).state@.after_key(key).agents),
                    ..old(self).state@.after_key(key)
                })
                &&& final(self).exit_requested == old(self).exit_requested
            },
    {
        broadcast use lemma_views_push;

        let mut calls: Vec<ControlCall> = Vec::new();
        proof {
            assert(views(calls@) =~= Seq::<CallView>::empty());
        }
        if key.kind != KeyEventKind::Press {
            return calls;
        }
        if key.code == KeyCode::Char('q') && key.modifiers.control {
            if self.callbacks.on_abort_all {
                calls.push(ControlCall::AbortAll);
                assert(views(calls@) =~= seq![CallView::AbortAll]);
            }
            self.exit_requested = true;
            return calls;
        }
        if key.code == KeyCode::Char('q') && key.modifiers.is_empty() && self.state.run_complete {
            self.exit_requested = true;
            return calls;
        }
        let actions = self.state.handle_key_event(key);
        let ghost agents = self.state@.agents;
        let done = self.all_agents_terminal();
        self.state.run_complete = done;
        let ghost all = views(actions@);
        let mut i: usize = 0;
        proof {
            assert(all.take(0) =~= Seq::<ActionView>::empty());
        }
        while i < actions.len()
            invariant
                i <= actions@.len(),
                all == views(actions@),
                agents == self.state@.agents,
                views(calls@) == all_calls(self.callbacks, agents, all.take(i as int)),
            decreases actions@.len() - i,
        {
            proof {
                assert(all.take(i + 1).drop_last() =~= all.take(i as int));
                assert(all.take(i + 1).last() == actions@[i as int]@);
            }
            self.push_calls(&actions[i], &mut calls);
            i += 1;
        }
        proof {
            assert(all.take(i as int) =~= all);
            assert(self.id_to_index@.dom() == old(self).id_to_index@.dom());
        }
        calls
    }

    /// Appends the calls that an action comes to.
    fn push_calls(&self, action: &DashboardAction, calls: &mut Vec<ControlCall>)
        ensures
            views(final(calls)@) == views(old(calls)@) + calls_for(
                self.callbacks,
                self.state@.agents,
                action@,
            ),
    {
        broadcast use lemma_views_push;

        let ghost before = views(calls@);
        match action {
            DashboardAction::PauseAgent { index } => {
                if self.callbacks.on_pause && *index < self.state.agents.len() {
                    calls.push(ControlCall::Pause(self.state.agents[*index].task_id.clone()));
                }
            },
            DashboardAction::ResumeWithGuidance { index, text } => {
                if *index < self.state.agents.len() {
                    let id = &self.state.agents[*index].task_id;
                    if self.callbacks.on_inject {
                        calls.push(
                            ControlCall::Inject { task_id: id.clone(), text: text.clone() },
                        );
                    }
                    if self.callbacks.on_resume {
                        calls.push(ControlCall::Resume(id.clone()));
                    }
                }
            },
            _ => {},
        }
        assert(views(calls@) =~= before + calls_for(
            self.callbacks,
            self.state@.agents,
            action@,
        ));
    }

    /// Follows an update. Updates about tasks that the dashboard does not show are passed over.
    pub fn apply_update(&mut self, update: MultiAgentUpdate)
        requires
            old(self).wf(),
        ensures
            final(self).wf(),
            final(self).callbacks == old(self).callbacks,
            final(self).id_to_index == old(self).id_to_index,
            final(self).exit_requested == old(self).exit_requested,
            final(self).state@ == (DashView {
                agents: final(self).state@.agents,
                run_complete: all_ended(final(self).state@.agents),
                ..old(self).state@
            }),
            final(self).state@.agents.len() == old(self).state@.agents.len(),
            forall|i: int|
                0 <= i < old(self).state@.agents.len() ==> (if old(
                    self,
                ).id_to_index@.dom().contains(update@.task())
                    && old(self).id_to_index@[update@.task()] == i {
                    updates_pane(
                        update@,
                        old(self).state@.agents[i],
                        #[trigger] final(self).state@.agents[i],
                    )
                } else {
                    final(self).state@.agents[i] == old(self).state@.agents[i]
                }),
    {
        let found: Option<usize> = match &update {
            MultiAgentUpdate::Snapshot { task_id, .. } => self.index_of(task_id.as_str()),
            MultiAgentUpdate::AppendLines { task_id, .. } => self.index_of(task_id.as_str()),
            MultiAgentUpdate::SetStatus { task_id, .. } => self.index_of(task_id.as_str()),
            MultiAgentUpdate::SetBanner { task_id, .. } => self.index_of(task_id.as_str()),
            MultiAgentUpdate::SetLogFiles { task_id, .. } => self.index_of(task_id.as_str()),
            MultiAgentUpdate::BumpRouteCount { task_id } => self.index_of(task_id.as_str()),
        };
        let i: usize = match found {
            Some(i) => i,
            None => {
                return;
            },
        };
        let ghost before = self.state.agents@;
        update_pane(&mut self.state.agents[i], update);
        proof {
            let k = i as int;
            assert(self.state.agents@ =~= before.update(k, self.state.agents@[k]));
            assert forall|j: int| 0 <= j < before.len() && j != k implies #[trigger] self.state@.agents[j]
                == before[j]@ by {}
            assert(self.state@.agents.len() == before.len());
        }
        let done = self.all_agents_terminal();
        self.state.run_complete = done;
    }

    /// The position of the agent with a task.
    fn index_of(&self, id: &str) -> (r: Option<usize>)
        ensures
            match r {
                Some(i) => self.id_to_index@.dom().contains(id@) && self.id_to_index@[id@] == i,
                None => !self.id_to_index@.dom().contains(id@),
            },
    {
        match self.id_to_index.get(id) {
            Some(i) => Some(*i),
            None => None,
        }
    }
}

/// Changes the pane of an agent by an update about it.
fn update_pane(a: &mut AgentPaneState, update: MultiAgentUpdate)
    ensures
        updates_pane(update@, old(a)@, final(a)@),
{
    match update {
        MultiAgentUpdate::Snapshot { task_id: _, log, status, banner } => {
            a.log_src.replace_live_tail(log);
            a.status = status;
            a.banner = banner;
        },
        MultiAgentUpdate::AppendLines { task_id: _, lines } => {
            a.log_src.append_live(&lines);
        },
        MultiAgentUpdate::SetStatus { task_id: _, status } => {
            a.status = status;
        },
        MultiAgentUpdate::SetBanner { task_id: _, banner } => {
            a.banner = banner;
        },
        MultiAgentUpdate::SetLogFiles { task_id: _, stdout, stderr } => {
            a.log_src.set_log_files(stdout.as_str(), stderr.as_str());
        },
        MultiAgentUpdate::BumpRouteCount { task_id: _ } => {
            if a.route_count < usize::MAX {
                a.route_count = a.route_count + 1;
            }
        },
    }
}

/// Law: Ctrl+Q ends the run, with whatever other modifier; a plain `q` is the key that closes the
/// dashboard.
pub proof fn law_ending_keys(key: KeyEvent)
    ensures
        is_abort_key(key) <==> key.code == KeyCode::Char('q') && key.modifiers.control,
        is_quit_key(key) <==> key.code == KeyCode::Char('q') && !key.modifiers.control
            && !key.modifiers.shift && !key.modifiers.other,
        !(is_abort_key(key) && is_quit_key(key)),
{
}

/// Law: all agents have ended exactly where none waits, runs or is paused.
pub proof fn law_all_ended(agents: Seq<PaneView>)
    ensures
        all_ended(agents) <==> forall|i: int|
            0 <= i < agents.len() ==> (#[trigger] agents[i]).status != AgentStatus::Queued
                && agents[i].status != AgentStatus::Running && agents[i].status
                != AgentStatus::Paused,
{
    if all_ended(agents) {
        assert forall|i: int| 0 <= i < agents.len() implies (#[trigger] agents[i]).status
            != AgentStatus::Queued && agents[i].status != AgentStatus::Running && agents[i].status
            != AgentStatus::Paused by {
            assert(ended(agents[i].status));
        }
    }
}

/// Law: the dashboard closes by itself only once all agents have ended and nothing is being written.
pub proof fn law_closes_by_itself(d: &MultiAgentDashboard, r: bool)
    requires
        call_ensures(MultiAgentDashboard::closes_when_updates_end, (d,), r),
        d.state@.wf(),
    ensures
        r ==> forall|i: int|
            0 <= i < d.state@.agents.len() ==> ((#[trigger] d.state@.agents[i]).status
                == AgentStatus::Done || d.state@.agents[i].status == AgentStatus::Error),
        (forall|i: int|
            0 <= i < d.state@.agents.len() ==> ((#[trigger] d.state@.agents[i]).status
                == AgentStatus::Done || d.state@.agents[i].status == AgentStatus::Error)) ==> r,
{
    let agents = d.state@.agents;
    if forall|i: int|
        0 <= i < agents.len() ==> ((#[trigger] agents[i]).status == AgentStatus::Done
            || agents[i].status == AgentStatus::Error) {
        assert(all_ended(agents));
        assert(!d.state@.composing());
    }
    if r {
        assert forall|i: int| 0 <= i < agents.len() implies ((#[trigger] agents[i]).status
            == AgentStatus::Done || agents[i].status == AgentStatus::Error) by {
            assert(ended(agents[i].status));
        }
    }
}

/// Law: Ctrl+C calls the hook that pauses the focused task, where it is installed, and no other.
pub proof fn law_pause_called(hooks: MultiAgentCallbacks, v: DashView, key: KeyEvent)
    requires
        v.wf(),
        v.agents.len() > 0,
        !focus_paused(v),
        key.kind == KeyEventKind::Press,
        key.code == KeyCode::Char('c'),
        key.modifiers.control,
    ensures
        hooks.on_pause ==> all_calls(hooks, v.after_key(key).agents, v.key_actions(key)) == seq![
            CallView::Pause(v.agents[v.focused as int].task_id),
        ],
        !hooks.on_pause ==> all_calls(hooks, v.after_key(key).agents, v.key_actions(key)).len() == 0,
{
    law_pause_key(v, key);
    lemma_one_action(hooks, v.after_key(key).agents, v.key_actions(key)[0]);
    assert(v.key_actions(key) =~= seq![v.key_actions(key)[0]]);
}

/// Law: Enter in the composer calls the hook that gives the guidance to the focused task, then the
/// one that resumes it, as far as they are installed.
pub proof fn law_send_called(hooks: MultiAgentCallbacks, v: DashView, key: KeyEvent)
    requires
        v.wf(),
        focus_paused(v),
        key.kind == KeyEventKind::Press,
        key.code == KeyCode::Enter,
        !key.modifiers.shift && !key.modifiers.control && !key.modifiers.other,
    ensures
        ({
            let a = v.agents[v.focused as int];
            let calls = all_calls(hooks, v.after_key(key).agents, v.key_actions(key));
            &&& hooks.on_inject && hooks.on_resume ==> calls == seq![
                CallView::Inject { task_id: a.task_id, text: a.compose },
                CallView::Resume(a.task_id),
            ]
            &&& hooks.on_inject && !hooks.on_resume ==> calls == seq![
                CallView::Inject { task_id: a.task_id, text: a.compose },
            ]
            &&& !hooks.on_inject && hooks.on_resume ==> calls == seq![CallView::Resume(a.task_id)]
            &&& !hooks.on_inject && !hooks.on_resume ==> calls.len() == 0
        }),
{
    law_send_key(v, key);
    lemma_one_action(hooks, v.after_key(key).agents, v.key_actions(key)[0]);
    assert(v.key_actions(key) =~= seq![v.key_actions(key)[0]]);
    let a = v.agents[v.focused as int];
    let calls = all_calls(hooks, v.after_key(key).agents, v.key_actions(key));
    assert(hooks.on_inject && hooks.on_resume ==> calls =~= seq![
        CallView::Inject { task_id: a.task_id, text: a.compose },
        CallView::Resume(a.task_id),
    ]);
    assert(hooks.on_inject && !hooks.on_resume ==> calls =~= seq![
        CallView::Inject { task_id: a.task_id, text: a.compose },
    ]);
    assert(!hooks.on_inject && hooks.on_resume ==> calls =~= seq![CallView::Resume(a.task_id)]);
}

/// The calls of one action.
proof fn lemma_one_action(hooks: MultiAgentCallbacks, agents: Seq<PaneView>, action: ActionView)
    ensures
        all_calls(hooks, agents, seq![action]) == calls_for(hooks, agents, action),
{
    let one = seq![action];
    assert(one.drop_last() =~= Seq::<ActionView>::empty());
    assert(all_calls(hooks, agents, one.drop_last()) =~= Seq::<CallView>::empty());
    assert(all_calls(hooks, agents, one) =~= calls_for(hooks, agents, action));
}

/// Law: no hook is called for keys that move the focus or the watch, scroll, or write guidance: only
/// actions that pause or resume come to calls.
pub proof fn law_no_other_calls(
    hooks: MultiAgentCallbacks,
    agents: Seq<PaneView>,
    actions: Seq<ActionView>,
)
    requires
        forall|i: int|
            0 <= i < actions.len() ==> !((#[trigger] actions[i]) is PauseAgent) && !(
            actions[i] is ResumeWithGuidance),
    ensures
        all_calls(hooks, agents, actions) == Seq::<CallView>::empty(),
    decreases actions.len(),
{
    if actions.len() > 0 {
        let before = actions.drop_last();
        assert forall|i: int| 0 <= i < before.len() implies !((#[trigger] before[i]) is PauseAgent)
            && !(before[i] is ResumeWithGuidance) by {
            assert(before[i] == actions[i]);
        }
        law_no_other_calls(hooks, agents, before);
        assert(actions.last() == actions[actions.len() - 1]);
        assert(all_calls(hooks, agents, actions) =~= Seq::<CallView>::empty());
    }
}

/// Law: an update changes what it is about, and nothing else of the pane: the task, the guidance that
/// is being written and the scroll position stay with every update.
pub proof fn law_updates(update: UpdateView, a: PaneView, b: PaneView)
    requires
        updates_pane(update, a, b),
    ensures
        b.task_id == a.task_id,
        b.compose == a.compose,
        b.scrollback == a.scrollback,
        update matches UpdateView::SetStatus { status, .. } ==> b.status == status && b.banner
            == a.banner && b.route_count == a.route_count && b.log_src == a.log_src,
        update matches UpdateView::SetBanner { banner, .. } ==> b.banner == banner && b.status
            == a.status && b.route_count == a.route_count && b.log_src == a.log_src,
        update matches UpdateView::AppendLines { lines, .. } ==> b.log_src.live()
            == a.log_src.live() + lines && b.log_src.older() == a.log_src.older() && b.status
            == a.status && b.banner == a.banner && b.route_count == a.route_count,
        update matches UpdateView::Snapshot { log, status, banner, .. } ==> b.log_src.live() == log
            && b.log_src.older() == a.log_src.older() && b.status == status && b.banner == banner
            && b.route_count == a.route_count,
        update matches UpdateView::SetLogFiles { stdout, stderr, .. } ==> opt_view(
            b.log_src.stdout_path,
        ) == Some(stdout) && opt_view(b.log_src.stderr_path) == Some(stderr) && b.log_src.live()
            == a.log_src.live() && b.log_src.older().len() == 0 && b.status == a.status && b.banner
            == a.banner && b.route_count == a.route_count,
        update is BumpRouteCount ==> b.status == a.status && b.banner == a.banner && b.log_src
            == a.log_src && (a.route_count < usize::MAX ==> b.route_count == a.route_count + 1) && (
        a.route_count == usize::MAX ==> b.route_count == usize::MAX),
{
}

/// Law: an update is about the task that it names.
pub proof fn law_update_task(update: UpdateView)
    ensures
        update matches UpdateView::Snapshot { task_id, .. } ==> update.task() == task_id,
        update matches UpdateView::AppendLines { task_id, .. } ==> update.task() == task_id,
        update matches UpdateView::SetStatus { task_id, .. } ==> update.task() == task_id,
        update matches UpdateView::SetBanner { task_id, .. } ==> update.task() == task_id,
        update matches UpdateView::SetLogFiles { task_id, .. } ==> update.task() == task_id,
        update matches UpdateView::BumpRouteCount { task_id } ==> update.task() == task_id,
{
}

/// Law: Ctrl+Q closes the dashboard and calls the hook that ends the run, where it is installed. A plain
/// `q` closes it only once all agents have ended. Neither changes anything else.
pub proof fn law_ending_keys_handled(
    d: &mut MultiAgentDashboard,
    key: KeyEvent,
    calls: Vec<ControlCall>,
)
    requires
        call_ensures(MultiAgentDashboard::on_key, (d, key), calls),
        old(d).wf(),
        key.kind == KeyEventKind::Press,
        key.code == KeyCode::Char('q'),
    ensures
        key.modifiers.control ==> {
            &&& final(d).exit_requested
            &&& final(d).state@ == old(d).state@
            &&& old(d).callbacks.on_abort_all ==> calls@.len() == 1 && calls@[0]@
                == CallView::AbortAll
            &&& !old(d).callbacks.on_abort_all ==> calls@.len() == 0
        },
        !key.modifiers.control && !key.modifiers.shift && !key.modifiers.other
            && old(d).state@.run_complete ==> final(d).exit_requested && calls@.len() == 0
            && final(d).state@ == old(d).state@,
        !key.modifiers.control && !old(d).state@.run_complete ==> final(d).exit_requested
            == old(d).exit_requested,
{
    let v = views(calls@);
    assert(v.len() == calls@.len());
    if key.modifiers.control && old(d).callbacks.on_abort_all {
        assert(v[0] == calls@[0]@);
    }
}

/// Law: other keys do to the dashboard what they do to its state, and come to the calls of what they
/// ask for. A key that is held or released does nothing.
pub proof fn law_other_keys_handled(
    d: &mut MultiAgentDashboard,
    key: KeyEvent,
    calls: Vec<ControlCall>,
)
    requires
        call_ensures(MultiAgentDashboard::on_key, (d, key), calls),
        old(d).wf(),
        key.code != KeyCode::Char('q') || key.kind != KeyEventKind::Press,
    ensures
        final(d).exit_requested == old(d).exit_requested,
        final(d).callbacks == old(d).callbacks,
        key.kind != KeyEventKind::Press ==> calls@.len() == 0 && final(d).state@ == old(d).state@,
        key.kind == KeyEventKind::Press ==> {
            &&& final(d).state@.agents == old(d).state@.after_key(key).agents
            &&& final(d).state@.focused == old(d).state@.after_key(key).focused
            &&& final(d).state@.watch_open == old(d).state@.after_key(key).watch_open
            &&& final(d).state@.watch_target == old(d).state@.after_key(key).watch_target
            &&& views(calls@) == all_calls(
                old(d).callbacks,
                old(d).state@.after_key(key).agents,
                old(d).state@.key_actions(key),
            )
        },
{
    assert(views(calls@).len() == calls@.len());
}

/// Law: an update changes the pane of its task alone, and one about a task that is not shown changes
/// none. What is focused, watched and asked for stays. The run is complete once all agents have ended.
pub proof fn law_update_applied(
    d: &mut MultiAgentDashboard,
    update: MultiAgentUpdate,
    r: (),
    i: int,
)
    requires
        call_ensures(MultiAgentDashboard::apply_update, (d, update), r),
        old(d).wf(),
        0 <= i < old(d).state@.agents.len(),
    ensures
        final(d).state@.agents.len() == old(d).state@.agents.len(),
        old(d).id_to_index@.dom().contains(update@.task()) && old(d).id_to_index@[update@.task()]
            == i ==> updates_pane(update@, old(d).state@.agents[i], final(d).state@.agents[i]),
        !(old(d).id_to_index@.dom().contains(update@.task())
            && old(d).id_to_index@[update@.task()] == i) ==> final(d).state@.agents[i]
            == old(d).state@.agents[i],
        final(d).state@.focused == old(d).state@.focused,
        final(d).state@.watch_open == old(d).state@.watch_open,
        final(d).state@.watch_target == old(d).state@.watch_target,
        final(d).exit_requested == old(d).exit_requested,
        final(d).state@.run_complete <==> forall|k: int|
            0 <= k < final(d).state@.agents.len() ==> (#[trigger] final(d).state@.agents[k]).status
                == AgentStatus::Done || final(d).state@.agents[k].status == AgentStatus::Error,
{
    let agents = final(d).state@.agents;
    if final(d).state@.run_complete {
        assert forall|k: int| 0 <= k < agents.len() implies (#[trigger] agents[k]).status
            == AgentStatus::Done || agents[k].status == AgentStatus::Error by {
            assert(ended(agents[k].status));
        }
    }
    assert(final(d).state@.agents[i] == agents[i]);
}

/// Law: a dashboard begins with a pane for each task, in their order, all waiting, with the focus on the
/// first and the watch closed. The panes are found by the ids of their tasks, where these differ. A
/// dashboard without tasks is complete from the start.
pub proof fn law_dashboard_begins(
    ids: Vec<String>,
    hooks: MultiAgentCallbacks,
    r: MultiAgentDashboard,
    i: int,
)
    requires
        call_ensures(MultiAgentDashboard::new, (&ids, hooks), r),
        forall|j: int, k: int|
            0 <= j < k < ids@.len() ==> (#[trigger] ids@[j])@ != (#[trigger] ids@[k])@,
    ensures
        r.state@.agents.len() == ids@.len(),
        r.callbacks == hooks,
        !r.exit_requested,
        r.state@.focused == 0,
        !r.state@.watch_open,
        r.state@.watch_target is None,
        r.state@.run_complete <==> ids@.len() == 0,
        0 <= i < ids@.len() ==> {
            &&& r.state@.agents[i].task_id == ids@[i]@
            &&& r.state@.agents[i].status == AgentStatus::Queued
            &&& r.state@.agents[i].compose.len() == 0
            &&& r.state@.agents[i].scrollback == 0
            &&& r.state@.agents[i].banner is None
            &&& r.state@.agents[i].route_count == 0
            &&& r.state@.agents[i].log_src.lines().len() == 0
            &&& r.id_to_index@.dom().contains(ids@[i]@)
            &&& r.id_to_index@[ids@[i]@] == i
        },
{
    if 0 <= i < ids@.len() {
        assert(r.state@.agents[i].task_id == ids@[i]@);
        assert(ids@[i]@ == ids@[i]@);
    }
}

/// Law: a dashboard without hooks has none, and each one that is installed is kept with those before.
pub proof fn law_hooks(
    c: MultiAgentCallbacks,
    none: MultiAgentCallbacks,
    p: MultiAgentCallbacks,
    q: MultiAgentCallbacks,
    i: MultiAgentCallbacks,
    a: MultiAgentCallbacks,
)
    requires
        call_ensures(MultiAgentCallbacks::default, (), none),
        call_ensures(MultiAgentCallbacks::with_pause, (c,), p),
        call_ensures(MultiAgentCallbacks::with_resume, (c,), q),
        call_ensures(MultiAgentCallbacks::with_inject, (c,), i),
        call_ensures(MultiAgentCallbacks::with_abort, (c,), a),
    ensures
        !none.on_pause && !none.on_resume && !none.on_inject && !none.on_abort_all,
        p.on_pause && p.on_resume == c.on_resume && p.on_inject == c.on_inject && p.on_abort_all
            == c.on_abort_all,
        q.on_resume && q.on_pause == c.on_pause && q.on_inject == c.on_inject && q.on_abort_all
            == c.on_abort_all,
        i.on_inject && i.on_pause == c.on_pause && i.on_resume == c.on_resume && i.on_abort_all
            == c.on_abort_all,
        a.on_abort_all && a.on_pause == c.on_pause && a.on_resume == c.on_resume && a.on_inject
            == c.on_inject,
{
}

/// Law: lines that are appended or replaced leave it open to page in what is older: the log files and
/// what was read of them stay.
pub proof fn law_paging_kept(update: UpdateView, a: PaneView, b: PaneView)
    requires
        updates_pane(update, a, b),
        update is AppendLines || update is Snapshot,
    ensures
        b.log_src.read() == a.log_src.read(),
        b.log_src.older() == a.log_src.older(),
        b.log_src.stdout_path == a.log_src.stdout_path,
        b.log_src.stderr_path == a.log_src.stderr_path,
        a.log_src.wf() ==> b.log_src.wf(),
{
}

} // verus!
