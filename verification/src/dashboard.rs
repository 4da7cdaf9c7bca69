//! The dashboard: one pane per agent, of which one has the focus and another may be watched.

use vstd::prelude::*;
use vstd::string::*;

use crate::keys::KeyCode;
use crate::keys::KeyEvent;
use crate::keys::KeyEventKind;
use crate::logs::LogSource;
use crate::screen::Line;
use crate::screen::LineView;
use crate::screen::Rect;
use crate::text::opt_view;
use crate::text::views;

verus! {

/// How an agent is doing.
#[derive(Clone, Copy, Debug, PartialEq, Eq, Structural)]
pub enum AgentStatus {
    /// Not started yet.
    Queued,
    Running,
    Paused,
    Done,
    Error,
}

/// The pane of one agent.
#[derive(Debug)]
pub struct AgentPaneState {
    pub task_id: String,
    pub status: AgentStatus,
    /// The guidance that is being written while the agent is paused.
    pub compose: String,
    pub log_src: LogSource,
    /// How many lines the log is scrolled back from its end.
    pub scrollback: usize,
    /// A notice above the log.
    pub banner: Option<Line>,
    /// How many messages were sent to or from this agent.
    pub route_count: usize,
}

/// The model of an `AgentPaneState`.
#[verifier::ext_equal]
pub struct PaneView {
    pub task_id: Seq<char>,
    pub status: AgentStatus,
    pub compose: Seq<char>,
    pub log_src: LogSource,
    pub scrollback: usize,
    pub banner: Option<LineView>,
    pub route_count: usize,
}

impl View for AgentPaneState {
    type V = PaneView;

    open spec fn view(&self) -> PaneView {
        PaneView {
            task_id: self.task_id@,
            status: self.status,
            compose: self.compose@,
            log_src: self.log_src,
            scrollback: self.scrollback,
            banner: opt_view(self.banner),
            route_count: self.route_count,
        }
    }
}

impl AgentPaneState {
    /// Makes the pane of an agent that has not started.
    pub fn new(task_id: &str) -> (r: Self)
        ensures
            r.task_id@ == task_id@,
            r.status == AgentStatus::Queued,
            r.compose@ == Seq::<char>::empty(),
            r.log_src.wf(),
            r.log_src.blank(),
            r.scrollback == 0,
            r.banner is None,
            r.route_count == 0,
    {
        let r = AgentPaneState {
            task_id: task_id.to_owned(),
            status: AgentStatus::Queued,
            compose: String::new(),
            log_src: LogSource::new(),
            scrollback: 0,
            banner: None,
            route_count: 0,
        };
        r
    }
}

/// What a key press asks of the agents and the layout.
#[derive(Debug, PartialEq, Eq)]
pub enum DashboardAction {
    PauseAgent { index: usize },
    /// Give guidance to an agent and resume it.
    ResumeWithGuidance { index: usize, text: String },
    SelectFocus { index: usize },
    ToggleWatch,
    SelectWatch { index: usize },
}

/// The model of a `DashboardAction`.
#[verifier::ext_equal]
pub enum ActionView {
    PauseAgent { index: usize },
    ResumeWithGuidance { index: usize, text: Seq<char> },
    SelectFocus { index: usize },
    ToggleWatch,
    SelectWatch { index: usize },
}

impl View for DashboardAction {
    type V = ActionView;

    open spec fn view(&self) -> ActionView {
        match self {
            DashboardAction::PauseAgent { index } => ActionView::PauseAgent { index: *index },
            DashboardAction::ResumeWithGuidance { index, text } => ActionView::ResumeWithGuidance {
                index: *index,
                text: text@,
            },
            DashboardAction::SelectFocus { index } => ActionView::SelectFocus { index: *index },
            DashboardAction::ToggleWatch => ActionView::ToggleWatch,
            DashboardAction::SelectWatch { index } => ActionView::SelectWatch { index: *index },
        }
    }
}

/// The state of the dashboard.
#[derive(Debug)]
pub struct DashboardState {
    pub agents: Vec<AgentPaneState>,
    pub focused: usize,
    pub watch_open: bool,
    /// The agent that is watched while `watch_open` is set.
    pub watch_target: Option<usize>,
    /// The height of the log of the focused agent when it was last drawn.
    pub last_main_log_height: usize,
    /// Where the log of the focused agent was last drawn.
    pub last_main_log_rect: Option<Rect>,
    /// Where the log of the watched agent was last drawn.
    pub last_watch_log_rect: Option<Rect>,
    /// Whether all agents have ended.
    pub run_complete: bool,
}

/// The model of a `DashboardState`.
#[verifier::ext_equal]
pub struct DashView {
    pub agents: Seq<PaneView>,
    pub focused: usize,
    pub watch_open: bool,
    pub watch_target: Option<usize>,
    pub last_main_log_height: usize,
    pub last_main_log_rect: Option<Rect>,
    pub last_watch_log_rect: Option<Rect>,
    pub run_complete: bool,
}

impl View for DashboardState {
    type V = DashView;

    open spec fn view(&self) -> DashView {
        DashView {
            agents: views(self.agents@),
            focused: self.focused,
            watch_open: self.watch_open,
            watch_target: self.watch_target,
            last_main_log_height: self.last_main_log_height,
            last_main_log_rect: self.last_main_log_rect,
            last_watch_log_rect: self.last_watch_log_rect,
            run_complete: self.run_complete,
        }
    }
}

/// The index after `i` of `len`, going round.
pub open spec fn next_index(i: int, len: int) -> int {
    if i + 1 >= len {
        0
    } else {
        i + 1
    }
}

/// The index before `i` of `len`, going round.
pub open spec fn prev_index(i: int, len: int) -> int {
    if i <= 0 {
        len - 1
    } else {
        i - 1
    }
}

impl DashView {
    /// Whether the focus and the watch target name agents. Without agents the focus is zero.
    pub open spec fn wf(self) -> bool {
        &&& self.agents.len() <= usize::MAX
        &&& self.focused < self.agents.len() || (self.agents.len() == 0 && self.focused == 0)
        &&& self.watch_target matches Some(w) ==> w < self.agents.len()
    }

    /// Whether guidance is being written for the focused agent.
    pub open spec fn composing(self) -> bool {
        self.focused < self.agents.len() && self.agents[self.focused as int].status
            == AgentStatus::Paused
    }

    /// The pane of the focused agent.
    pub open spec fn pane(self) -> PaneView {
        self.agents[self.focused as int]
    }

    /// The dashboard with another pane for the focused agent. Nothing changes without agents.
    pub open spec fn with_pane(self, pane: PaneView) -> DashView {
        if self.focused < self.agents.len() {
            DashView { agents: self.agents.update(self.focused as int, pane), ..self }
        } else {
            self
        }
    }

    /// The dashboard with the log of the focused agent scrolled.
    pub open spec fn scrolled(self, scrollback: usize) -> DashView {
        self.with_pane(PaneView { scrollback, ..self.pane() })
    }

    /// The dashboard with another text being written for the focused agent.
    pub open spec fn composed(self, compose: Seq<char>) -> DashView {
        self.with_pane(PaneView { compose, ..self.pane() })
    }

    /// The agent that is watched where none was chosen: the one after the focused agent.
    pub open spec fn default_watch(self) -> Option<usize> {
        if self.agents.len() < 2 {
            None
        } else {
            Some(next_index(self.focused as int, self.agents.len() as int) as usize)
        }
    }

    /// The dashboard with the focus on an agent. A watch target that the focus falls on moves on.
    pub open spec fn with_focus(self, index: usize) -> DashView {
        let moved = DashView { focused: index, ..self };
        if self.watch_open && (self.watch_target is None || self.watch_target == Some(index)) {
            DashView { watch_target: moved.default_watch(), ..moved }
        } else {
            moved
        }
    }

    /// The agent that the watch moves to from `i`, forward or back. It passes over the focused
    /// agent, and stays where there is no other.
    pub open spec fn watch_step(self, i: int, forward: bool) -> int {
        let len = self.agents.len() as int;
        let once = if forward {
            next_index(i, len)
        } else {
            prev_index(i, len)
        };
        if once != self.focused {
            once
        } else if len <= 2 {
            i
        } else if forward {
            next_index(once, len)
        } else {
            prev_index(once, len)
        }
    }

    /// The dashboard after the watch was moved.
    pub open spec fn watch_moved(self, forward: bool) -> DashView {
        if !self.watch_open || self.agents.len() < 2 {
            self
        } else {
            let from = match self.watch_target {
                Some(w) => w as int,
                None => match self.default_watch() {
                    Some(w) => w as int,
                    None => 0,
                },
            };
            DashView { watch_target: Some(self.watch_step(from, forward) as usize), ..self }
        }
    }
}

/// `a + b`, or the greatest number there is.
pub open spec fn saturating_sum(a: usize, b: usize) -> usize {
    if a + b > usize::MAX {
        usize::MAX
    } else {
        (a + b) as usize
    }
}

/// `a - b`, or zero.
pub open spec fn saturating_rest(a: usize, b: usize) -> usize {
    if a < b {
        0
    } else {
        (a - b) as usize
    }
}

/// Whether a character is a digit from 1 to 9.
pub open spec fn is_jump(c: char) -> bool {
    '1' <= c <= '9'
}

/// The index that a digit from 1 to 9 names.
pub open spec fn jump_index(c: char) -> int {
    c as int - '1' as int
}

impl DashView {
    /// How far a page key scrolls.
    pub open spec fn page(self) -> usize {
        if self.last_main_log_height == 0 {
            1
        } else {
            self.last_main_log_height
        }
    }

    /// The dashboard after a character key while no guidance is being written.
    pub open spec fn after_command(self, c: char, key: KeyEvent) -> DashView {
        if c == 'c' && key.modifiers.control {
            self.with_pane(PaneView { status: AgentStatus::Paused, ..self.pane() })
        } else if is_jump(c) && key.modifiers.none() && self.agents.len() > 0 {
            let i = jump_index(c);
            if self.watch_open {
                if i < self.agents.len() && i != self.focused {
                    DashView { watch_target: Some(i as usize), ..self }
                } else {
                    self
                }
            } else if i < self.agents.len() {
                self.with_focus(i as usize)
            } else {
                self.with_focus((self.agents.len() - 1) as usize)
            }
        } else if c == 'w' && key.modifiers.none() {
            let toggled = DashView { watch_open: !self.watch_open, ..self };
            if toggled.watch_open && (toggled.watch_target is None || toggled.watch_target == Some(
                toggled.focused,
            )) {
                DashView { watch_target: toggled.default_watch(), ..toggled }
            } else {
                toggled
            }
        } else {
            self
        }
    }

    /// What a character key asks for while no guidance is being written.
    pub open spec fn command_actions(self, c: char, key: KeyEvent) -> Seq<ActionView> {
        if c == 'c' && key.modifiers.control {
            if self.agents.len() > 0 {
                seq![ActionView::PauseAgent { index: self.focused }]
            } else {
                seq![]
            }
        } else if is_jump(c) && key.modifiers.none() && self.agents.len() > 0 {
            let i = jump_index(c);
            if self.watch_open {
                if i < self.agents.len() && i != self.focused {
                    seq![ActionView::SelectWatch { index: i as usize }]
                } else {
                    seq![]
                }
            } else if i < self.agents.len() {
                seq![ActionView::SelectFocus { index: i as usize }]
            } else {
                seq![ActionView::SelectFocus { index: (self.agents.len() - 1) as usize }]
            }
        } else if c == 'w' && key.modifiers.none() {
            seq![ActionView::ToggleWatch]
        } else {
            seq![]
        }
    }

    /// What is being written after a character key.
    pub open spec fn typed(self, c: char, key: KeyEvent) -> Seq<char> {
        let text = self.pane().compose;
        if c == 'c' && key.modifiers.control {
            text
        } else if c == 'j' && key.modifiers.control {
            text.push('\n')
        } else if key.modifiers.none() || (key.modifiers.shift && !key.modifiers.control
            && !key.modifiers.other) {
            text.push(c)
        } else {
            text
        }
    }

    /// The focus that the tab keys move to.
    pub open spec fn tab_target(self, back: bool) -> usize {
        (if back {
            prev_index(self.focused as int, self.agents.len() as int)
        } else {
            next_index(self.focused as int, self.agents.len() as int)
        }) as usize
    }

    /// The dashboard after a key press while guidance is being written: keys are text, but for
    /// those that edit and send it.
    pub open spec fn after_key_composing(self, key: KeyEvent) -> DashView {
        let text = self.pane().compose;
        match key.code {
            KeyCode::Enter => if key.modifiers.none() {
                self.with_pane(
                    PaneView { compose: seq![], status: AgentStatus::Running, ..self.pane() },
                )
            } else {
                self.composed(text.push('\n'))
            },
            KeyCode::Char(c) => self.composed(self.typed(c, key)),
            KeyCode::Backspace => if text.len() > 0 {
                self.composed(text.drop_last())
            } else {
                self
            },
            _ => self,
        }
    }

    /// The dashboard after a key press while no guidance is being written: keys scroll, move the
    /// focus and the watch, and pause.
    pub open spec fn after_key_browsing(self, key: KeyEvent) -> DashView {
        match key.code {
            KeyCode::PageUp => self.scrolled(saturating_sum(self.pane().scrollback, self.page())),
            KeyCode::PageDown => self.scrolled(
                saturating_rest(self.pane().scrollback, self.page()),
            ),
            KeyCode::Home => self.scrolled(usize::MAX),
            KeyCode::End => self.scrolled(0),
            KeyCode::Tab => if self.agents.len() > 0 {
                self.with_focus(self.tab_target(key.modifiers.shift))
            } else {
                self
            },
            KeyCode::BackTab => if self.agents.len() > 0 {
                self.with_focus(self.tab_target(true))
            } else {
                self
            },
            KeyCode::Left => self.watch_moved(false),
            KeyCode::Up => self.watch_moved(false),
            KeyCode::Right => self.watch_moved(true),
            KeyCode::Down => self.watch_moved(true),
            KeyCode::Char(c) => self.after_command(c, key),
            _ => self,
        }
    }

    /// The dashboard after a key event.
    pub open spec fn after_key(self, key: KeyEvent) -> DashView {
        if key.kind != KeyEventKind::Press {
            self
        } else if self.composing() {
            self.after_key_composing(key)
        } else {
            self.after_key_browsing(key)
        }
    }

    /// The watch target that an arrow key selects.
    pub open spec fn arrow_actions(self, forward: bool) -> Seq<ActionView> {
        if self.watch_open {
            match self.watch_moved(forward).watch_target {
                Some(w) => seq![ActionView::SelectWatch { index: w }],
                None => seq![],
            }
        } else {
            seq![]
        }
    }

    /// What a key press asks for while no guidance is being written.
    pub open spec fn browsing_actions(self, key: KeyEvent) -> Seq<ActionView> {
        match key.code {
            KeyCode::Tab => if self.agents.len() > 0 {
                seq![ActionView::SelectFocus { index: self.tab_target(key.modifiers.shift) }]
            } else {
                seq![]
            },
            KeyCode::BackTab => if self.agents.len() > 0 {
                seq![ActionView::SelectFocus { index: self.tab_target(true) }]
            } else {
                seq![]
            },
            KeyCode::Left => self.arrow_actions(false),
            KeyCode::Up => self.arrow_actions(false),
            KeyCode::Right => self.arrow_actions(true),
            KeyCode::Down => self.arrow_actions(true),
            KeyCode::Char(c) => self.command_actions(c, key),
            _ => seq![],
        }
    }

    /// What a key event asks for.
    pub open spec fn key_actions(self, key: KeyEvent) -> Seq<ActionView> {
        if key.kind != KeyEventKind::Press {
            seq![]
        } else if self.composing() {
            if key.code == KeyCode::Enter && key.modifiers.none() {
                seq![
                    ActionView::ResumeWithGuidance {
                        index: self.focused,
                        text: self.pane().compose,
                    },
                ]
            } else {
                seq![]
            }
        } else {
            self.browsing_actions(key)
        }
    }
}

proof fn lemma_views_update(agents: Seq<AgentPaneState>, i: int, pane: AgentPaneState)
    requires
        0 <= i < agents.len(),
    ensures
        views(agents.update(i, pane)) == views(agents).update(i, pane@),
{
    assert(views(agents.update(i, pane)) =~= views(agents).update(i, pane@));
}

impl DashboardState {
    /// Makes a dashboard for agents, with the focus on the first one.
    pub fn new(agents: Vec<AgentPaneState>) -> (r: Self)
        ensures
            r@ == (DashView {
                agents: views(agents@),
                focused: 0,
                watch_open: false,
                watch_target: None,
                last_main_log_height: 0,
                last_main_log_rect: None,
                last_watch_log_rect: None,
                run_complete: false,
            }),
            r@.wf(),
    {
        assert(agents@.len() == agents.len());
        DashboardState {
            agents,
            focused: 0,
            watch_open: false,
            watch_target: None,
            last_main_log_height: 0,
            last_main_log_rect: None,
            last_watch_log_rect: None,
            run_complete: false,
        }
    }

    /// The agent after the focused one.
    fn next_focus(&self) -> (r: usize)
        requires
            self@.wf(),
            self@.agents.len() > 0,
        ensures
            r == next_index(self.focused as int, self@.agents.len() as int),
    {
        if self.focused == self.agents.len() - 1 {
            0
        } else {
            self.focused + 1
        }
    }

    /// The agent before the focused one.
    fn prev_focus(&self) -> (r: usize)
        requires
            self@.wf(),
            self@.agents.len() > 0,
        ensures
            r == prev_index(self.focused as int, self@.agents.len() as int),
    {
        if self.focused == 0 {
            self.agents.len() - 1
        } else {
            self.focused - 1
        }
    }

    /// The agent that is watched where none was chosen.
    fn default_watch_target(&self) -> (r: Option<usize>)
        requires
            self@.wf(),
        ensures
            r == self@.default_watch(),
    {
        if self.agents.len() < 2 {
            None
        } else {
            Some(self.next_focus())
        }
    }

    /// Moves the focus, and the watch target where the focus falls on it.
    fn focus_on(&mut self, index: usize)
        requires
            old(self)@.wf(),
            index < old(self)@.agents.len(),
        ensures
            final(self)@ == old(self)@.with_focus(index),
            final(self)@.wf(),
    {
        self.focused = index;
        if self.watch_open {
            self.watch_another();
        }
    }

    /// Moves the watch on where it has no target, or rests on the focused agent.
    fn watch_another(&mut self)
        requires
            old(self)@.wf(),
        ensures
            final(self)@ == (DashView {
                watch_target: (if old(self)@.watch_target is None || old(self)@.watch_target
                    == Some(old(self)@.focused) {
                    old(self)@.default_watch()
                } else {
                    old(self)@.watch_target
                }),
                ..old(self)@
            }),
            final(self)@.wf(),
    {
        let moves = match self.watch_target {
            Some(w) => w == self.focused,
            None => true,
        };
        if moves {
            self.watch_target = self.default_watch_target();
        }
    }

    /// Moves the watch to another agent.
    fn cycle_watch(&mut self, forward: bool)
        requires
            old(self)@.wf(),
        ensures
            final(self)@ == old(self)@.watch_moved(forward),
            final(self)@.wf(),
    {
        if !self.watch_open || self.agents.len() < 2 {
            return;
        }
        let len: usize = self.agents.len();
        let from: usize = match self.watch_target {
            Some(w) => w,
            None => match self.default_watch_target() {
                Some(w) => w,
                None => 0,
            },
        };
        let once: usize = step(from, len, forward);
        let index: usize = if once != self.focused {
            once
        } else if len <= 2 {
            from
        } else {
            step(once, len, forward)
        };
        self.watch_target = Some(index);
    }

    /// Tells whether guidance is being written for the focused agent.
    pub fn focused_is_composing(&self) -> (r: bool)
        ensures
            r == self@.composing(),
    {
        self.focused < self.agents.len() && self.agents[self.focused].status == AgentStatus::Paused
    }

    /// Scrolls the log of the focused agent.
    fn scroll_to(&mut self, scrollback: usize)
        requires
            old(self)@.wf(),
        ensures
            final(self)@ == old(self)@.scrolled(scrollback),
            final(self)@.wf(),
    {
        if self.focused < self.agents.len() {
            let ghost before = self.agents@;
            self.agents[self.focused].scrollback = scrollback;
            proof {
                let i = self.focused as int;
                assert(self.agents@ =~= before.update(i, self.agents@[i]));
                lemma_views_update(before, i, self.agents@[i]);
            }
        }
    }

    /// Replaces what is being written for the focused agent.
    fn write(&mut self, compose: String)
        requires
            old(self)@.wf(),
        ensures
            final(self)@ == old(self)@.composed(compose@),
            final(self)@.wf(),
    {
        if self.focused < self.agents.len() {
            let ghost before = self.agents@;
            self.agents[self.focused].compose = compose;
            proof {
                let i = self.focused as int;
                assert(self.agents@ =~= before.update(i, self.agents@[i]));
                lemma_views_update(before, i, self.agents@[i]);
            }
        }
    }

    /// Sets the status of the focused agent.
    fn mark(&mut self, status: AgentStatus)
        requires
            old(self)@.wf(),
        ensures
            final(self)@ == old(self)@.with_pane(PaneView { status, ..old(self)@.pane() }),
            final(self)@.wf(),
    {
        if self.focused < self.agents.len() {
            let ghost before = self.agents@;
            self.agents[self.focused].status = status;
            proof {
                let i = self.focused as int;
                assert(self.agents@ =~= before.update(i, self.agents@[i]));
                lemma_views_update(before, i, self.agents@[i]);
            }
        }
    }
}

/// The index after or before `i` of `len`, going round.
fn step(i: usize, len: usize, forward: bool) -> (r: usize)
    requires
        i < len,
    ensures
        r < len,
        r == (if forward {
            next_index(i as int, len as int)
        } else {
            prev_index(i as int, len as int)
        }),
{
    if forward {
        if i == len - 1 {
            0
        } else {
            i + 1
        }
    } else if i == 0 {
        len - 1
    } else {
        i - 1
    }
}

impl DashboardState {
    /// Handles a key event and tells what it asks for.
    ///
    /// While guidance is being written for the focused agent, character keys are text: only Enter
    /// sends it, and Ctrl+J or Enter with a modifier begins a new line in it. Keys that scroll or
    /// move the focus and the watch do nothing then.
    pub fn handle_key_event(&mut self, key: KeyEvent) -> (actions: Vec<DashboardAction>)
        requires
            old(self)@.wf(),
        ensures
            final(self)@ == old(self)@.after_key(key),
            final(self)@.wf(),
            views(actions@) == old(self)@.key_actions(key),
    {
        if key.kind != KeyEventKind::Press {
            return no_actions();
        }
        if self.focused_is_composing() {
            self.compose_key(key)
        } else {
            self.browse_key(key)
        }
    }

    /// Handles a key press while guidance is being written.
    fn compose_key(&mut self, key: KeyEvent) -> (actions: Vec<DashboardAction>)
        requires
            old(self)@.wf(),
            old(self)@.composing(),
            key.kind == KeyEventKind::Press,
        ensures
            final(self)@ == old(self)@.after_key_composing(key),
            final(self)@.wf(),
            views(actions@) == old(self)@.key_actions(key),
    {
        let mut text = self.agents[self.focused].compose.clone();
        match key.code {
            KeyCode::Enter => {
                if key.modifiers.is_empty() {
                    self.write(String::new());
                    self.mark(AgentStatus::Running);
                    proof {
                        let i = self.focused as int;
                        let o = old(self)@;
                        assert(self@.agents =~= o.with_pane(
                            PaneView {
                                compose: seq![],
                                status: AgentStatus::Running,
                                ..o.pane()
                            },
                        ).agents);
                    }
                    return one_action(
                        DashboardAction::ResumeWithGuidance { index: self.focused, text },
                    );
                }
                text.push('\n');
                self.write(text);
            },
            KeyCode::Char(c) => {
                if c == 'c' && key.modifiers.control {
                } else if c == 'j' && key.modifiers.control {
                    text.push('\n');
                } else if key.modifiers.is_empty() || (key.modifiers.shift
                    && !key.modifiers.control && !key.modifiers.other) {
                    text.push(c);
                }
                self.write(text);
            },
            KeyCode::Backspace => {
                if !text.as_str().is_empty() {
                    let _ = text.pop();
                    self.write(text);
                }
            },
            _ => {},
        }
        no_actions()
    }

    /// Handles a key press while no guidance is being written.
    fn browse_key(&mut self, key: KeyEvent) -> (actions: Vec<DashboardAction>)
        requires
            old(self)@.wf(),
            !old(self)@.composing(),
            key.kind == KeyEventKind::Press,
        ensures
            final(self)@ == old(self)@.after_key_browsing(key),
            final(self)@.wf(),
            views(actions@) == old(self)@.key_actions(key),
    {
        let page: usize = if self.last_main_log_height == 0 {
            1
        } else {
            self.last_main_log_height
        };
        match key.code {
            KeyCode::PageUp => {
                if self.focused < self.agents.len() {
                    let back: usize = self.agents[self.focused].scrollback;
                    self.scroll_to(
                        if back > usize::MAX - page {
                            usize::MAX
                        } else {
                            back + page
                        },
                    );
                }
                no_actions()
            },
            KeyCode::PageDown => {
                if self.focused < self.agents.len() {
                    let back: usize = self.agents[self.focused].scrollback;
                    self.scroll_to(
                        if back < page {
                            0
                        } else {
                            back - page
                        },
                    );
                }
                no_actions()
            },
            KeyCode::Home => {
                self.scroll_to(usize::MAX);
                no_actions()
            },
            KeyCode::End => {
                self.scroll_to(0);
                no_actions()
            },
            KeyCode::Tab => self.tab(key.modifiers.shift),
            KeyCode::BackTab => self.tab(true),
            KeyCode::Left => self.arrow(false),
            KeyCode::Up => self.arrow(false),
            KeyCode::Right => self.arrow(true),
            KeyCode::Down => self.arrow(true),
            KeyCode::Char(c) => self.command(c, key),
            _ => no_actions(),
        }
    }

    /// Moves the focus to the next agent or back.
    fn tab(&mut self, back: bool) -> (actions: Vec<DashboardAction>)
        requires
            old(self)@.wf(),
        ensures
            final(self)@.wf(),
            old(self)@.agents.len() == 0 ==> final(self)@ == old(self)@ && views(actions@)
                == Seq::<ActionView>::empty(),
            old(self)@.agents.len() > 0 ==> {
                &&& final(self)@ == old(self)@.with_focus(old(self)@.tab_target(back))
                &&& views(actions@) == seq![
                    ActionView::SelectFocus { index: old(self)@.tab_target(back) },
                ]
            },
    {
        if self.agents.len() == 0 {
            return no_actions();
        }
        let target: usize = if back {
            self.prev_focus()
        } else {
            self.next_focus()
        };
        self.focus_on(target);
        one_action(DashboardAction::SelectFocus { index: target })
    }

    /// Moves the watch by an arrow key.
    fn arrow(&mut self, forward: bool) -> (actions: Vec<DashboardAction>)
        requires
            old(self)@.wf(),
        ensures
            final(self)@ == old(self)@.watch_moved(forward),
            final(self)@.wf(),
            views(actions@) == old(self)@.arrow_actions(forward),
    {
        if !self.watch_open {
            return no_actions();
        }
        self.cycle_watch(forward);
        match self.watch_target {
            Some(w) => one_action(DashboardAction::SelectWatch { index: w }),
            None => no_actions(),
        }
    }

    /// Handles a character key while no guidance is being written.
    fn command(&mut self, c: char, key: KeyEvent) -> (actions: Vec<DashboardAction>)
        requires
            old(self)@.wf(),
        ensures
            final(self)@ == old(self)@.after_command(c, key),
            final(self)@.wf(),
            views(actions@) == old(self)@.command_actions(c, key),
    {
        if c == 'c' && key.modifiers.control {
            if self.agents.len() == 0 {
                return no_actions();
            }
            self.mark(AgentStatus::Paused);
            one_action(DashboardAction::PauseAgent { index: self.focused })
        } else if '1' <= c && c <= '9' && key.modifiers.is_empty() && self.agents.len() > 0 {
            let i: usize = (c as u32 - '1' as u32) as usize;
            if self.watch_open {
                if i < self.agents.len() && i != self.focused {
                    self.watch_target = Some(i);
                    one_action(DashboardAction::SelectWatch { index: i })
                } else {
                    no_actions()
                }
            } else {
                let target: usize = if i < self.agents.len() {
                    i
                } else {
                    self.agents.len() - 1
                };
                self.focus_on(target);
                one_action(DashboardAction::SelectFocus { index: target })
            }
        } else if c == 'w' && key.modifiers.is_empty() {
            self.watch_open = !self.watch_open;
            if self.watch_open {
                self.watch_another();
            }
            one_action(DashboardAction::ToggleWatch)
        } else {
            no_actions()
        }
    }

    /// Scrolls the log under the pointer by a notch of the mouse wheel: that of the watched agent,
    /// or else that of the focused one. Elsewhere nothing happens.
    pub fn mouse_scroll_at(&mut self, col: u16, row: u16, up: bool)
        requires
            old(self)@.wf(),
        ensures
            final(self)@ == old(self)@.wheel(col, row, up),
            final(self)@.wf(),
    {
        let mut target: Option<usize> = None;
        if self.watch_open {
            if let Some(w) = self.watch_target {
                if let Some(area) = self.last_watch_log_rect {
                    if area.contains(col, row) {
                        target = Some(w);
                    }
                }
            }
        }
        if target.is_none() {
            if let Some(area) = self.last_main_log_rect {
                if area.contains(col, row) {
                    target = Some(self.focused);
                }
            }
        }
        if let Some(i) = target {
            if i < self.agents.len() {
                let ghost before = self.agents@;
                let back: usize = self.agents[i].scrollback;
                self.agents[i].scrollback = if up {
                    if back > usize::MAX - 3 {
                        usize::MAX
                    } else {
                        back + 3
                    }
                } else if back < 3 {
                    0
                } else {
                    back - 3
                };
                proof {
                    let k = i as int;
                    assert(self.agents@ =~= before.update(k, self.agents@[k]));
                    lemma_views_update(before, k, self.agents@[k]);
                }
            }
        }
    }
}

impl DashView {
    /// The agent whose log stands under the pointer.
    pub open spec fn wheel_target(self, col: u16, row: u16) -> Option<usize> {
        let over_watch = self.watch_open && self.watch_target is Some && (
        self.last_watch_log_rect matches Some(area) && area.holds(col, row));
        let over_main = self.last_main_log_rect matches Some(area) && area.holds(col, row);
        if over_watch {
            self.watch_target
        } else if over_main {
            Some(self.focused)
        } else {
            None
        }
    }

    /// The dashboard after a notch of the mouse wheel.
    pub open spec fn wheel(self, col: u16, row: u16, up: bool) -> DashView {
        match self.wheel_target(col, row) {
            Some(i) => if i < self.agents.len() {
                let pane = self.agents[i as int];
                let scrollback = if up {
                    saturating_sum(pane.scrollback, 3)
                } else {
                    saturating_rest(pane.scrollback, 3)
                };
                DashView {
                    agents: self.agents.update(i as int, PaneView { scrollback, ..pane }),
                    ..self
                }
            } else {
                self
            },
            None => self,
        }
    }
}

/// No actions.
fn no_actions() -> (r: Vec<DashboardAction>)
    ensures
        views(r@) == Seq::<ActionView>::empty(),
{
    let r: Vec<DashboardAction> = Vec::new();
    assert(views(r@) =~= Seq::<ActionView>::empty());
    r
}

/// One action.
fn one_action(action: DashboardAction) -> (r: Vec<DashboardAction>)
    ensures
        views(r@) == seq![action@],
{
    let mut r: Vec<DashboardAction> = Vec::new();
    r.push(action);
    assert(views(r@) =~= seq![action@]);
    r
}

/// Law: a key event touches no pane but that of the focused agent, and there it leaves the task,
/// the log, the banner and the count of messages as they are.
pub proof fn law_only_focused_pane(v: DashView, key: KeyEvent, i: int)
    requires
        v.wf(),
        0 <= i < v.agents.len(),
    ensures
        v.after_key(key).agents.len() == v.agents.len(),
        i != v.focused ==> v.after_key(key).agents[i] == v.agents[i],
        ({
            let a = v.after_key(key).agents[i];
            &&& a.task_id == v.agents[i].task_id
            &&& a.log_src == v.agents[i].log_src
            &&& a.banner == v.agents[i].banner
            &&& a.route_count == v.agents[i].route_count
        }),
{
}

/// Law: while guidance is being written, no key moves the focus or the watch or scrolls a log.
pub proof fn law_composing_stays(v: DashView, key: KeyEvent, i: int)
    requires
        v.wf(),
        v.composing(),
        0 <= i < v.agents.len(),
    ensures
        v.after_key(key).focused == v.focused,
        v.after_key(key).watch_open == v.watch_open,
        v.after_key(key).watch_target == v.watch_target,
        v.after_key(key).agents[i].scrollback == v.agents[i].scrollback,
{
}

/// Law: only Ctrl+C pauses an agent, and only Enter resumes one; each asks for just that of the
/// focused agent.
pub proof fn law_pause_and_resume(v: DashView, key: KeyEvent, k: int)
    requires
        v.wf(),
        0 <= k < v.key_actions(key).len(),
    ensures
        v.key_actions(key).len() == 1,
        v.key_actions(key)[k] matches ActionView::PauseAgent { index } ==> {
            &&& index == v.focused
            &&& key.code == KeyCode::Char('c')
            &&& key.modifiers.control
            &&& v.after_key(key).composing()
        },
        v.key_actions(key)[k] matches ActionView::ResumeWithGuidance { index, text } ==> {
            &&& index == v.focused
            &&& key.code == KeyCode::Enter
            &&& text == v.pane().compose
            &&& !v.after_key(key).composing()
            &&& v.after_key(key).pane().compose == Seq::<char>::empty()
        },
{
}

/// Law: moving the focus on and back again leads to where it was.
pub proof fn law_tab_back(v: DashView)
    requires
        v.wf(),
        v.agents.len() > 0,
    ensures
        v.with_focus(v.tab_target(false)).tab_target(true) == v.focused,
        v.with_focus(v.tab_target(true)).tab_target(false) == v.focused,
{
}

/// Whether the watch, where it is open, shows an agent other than the focused one.
pub open spec fn watches_another(v: DashView) -> bool {
    v.watch_open ==> (v.watch_target matches Some(w) && w < v.agents.len() && w != v.focused)
}

/// Law: where there are two agents or more, the open watch shows an agent other than the focused
/// one, whatever key comes.
pub proof fn law_watches_another(v: DashView, key: KeyEvent)
    requires
        v.wf(),
        v.agents.len() >= 2,
        watches_another(v),
    ensures
        v.after_key(key).agents.len() == v.agents.len(),
        watches_another(v.after_key(key)),
{
}

/// The dashboard after several key events, one after another.
pub open spec fn after_keys(v: DashView, keys: Seq<KeyEvent>) -> DashView
    decreases keys.len(),
{
    if keys.len() == 0 {
        v
    } else {
        after_keys(v, keys.drop_last()).after_key(keys.last())
    }
}

/// Law: a dashboard whose watch is closed, as that of a new one is, never comes to show the focused
/// agent in the watch, whatever keys are pressed.
pub proof fn law_never_watches_focused(v: DashView, keys: Seq<KeyEvent>)
    requires
        v.wf(),
        v.agents.len() >= 2,
        !v.watch_open,
    ensures
        after_keys(v, keys).wf(),
        after_keys(v, keys).agents.len() == v.agents.len(),
        watches_another(after_keys(v, keys)),
    decreases keys.len(),
{
    if keys.len() > 0 {
        law_never_watches_focused(v, keys.drop_last());
        law_watches_another(after_keys(v, keys.drop_last()), keys.last());
    }
}

/// A press of a character key without modifiers.
pub open spec fn char_key(c: char) -> KeyEvent {
    KeyEvent {
        code: KeyCode::Char(c),
        modifiers: crate::keys::KeyModifiers { shift: false, control: false, other: false },
        kind: KeyEventKind::Press,
    }
}

/// The dashboard after some characters were typed.
pub open spec fn after_typing(v: DashView, text: Seq<char>) -> DashView
    decreases text.len(),
{
    if text.len() == 0 {
        v
    } else {
        after_typing(v, text.drop_last()).after_key(char_key(text.last()))
    }
}

/// Law: what is typed while guidance is being written is what is written, whatever the characters.
pub proof fn law_typing(v: DashView, text: Seq<char>)
    requires
        v.wf(),
        v.composing(),
    ensures
        after_typing(v, text).composing(),
        after_typing(v, text) == v.composed(v.pane().compose + text),
    decreases text.len(),
{
    if text.len() == 0 {
        assert(v.pane().compose + text =~= v.pane().compose);
        assert(v.agents.update(v.focused as int, v.pane()) =~= v.agents);
    } else {
        let before = after_typing(v, text.drop_last());
        law_typing(v, text.drop_last());
        assert(v.pane().compose + text.drop_last() =~= (v.pane().compose + text).drop_last());
        assert((v.pane().compose + text.drop_last()).push(text.last()) =~= v.pane().compose + text);
        let a = before.after_key(char_key(text.last()));
        assert(a.agents =~= v.composed(v.pane().compose + text).agents);
    }
}

/// Whether guidance can be written for the focused agent: it is paused.
pub open spec fn focus_paused(v: DashView) -> bool {
    v.focused < v.agents.len() && v.agents[v.focused as int].status == AgentStatus::Paused
}

/// Law: only the press of a key counts. Nothing happens while it is held or when it goes up.
pub proof fn law_only_presses_count(v: DashView, key: KeyEvent)
    requires
        key.kind == KeyEventKind::Repeat || key.kind == KeyEventKind::Release,
    ensures
        v.after_key(key) == v,
        v.key_actions(key) == Seq::<ActionView>::empty(),
{
}

/// Law: with the watch open on another agent than the focused one, each arrow key moves it and asks
/// for the new target: Right and Down to the next agent other than the focused one, Left and Up to
/// the one before, going round. Nothing else changes.
pub proof fn law_arrow_keys(v: DashView, key: KeyEvent, w: usize)
    requires
        v.wf(),
        v.agents.len() >= 3,
        v.watch_open,
        v.watch_target == Some(w),
        w != v.focused,
        !focus_paused(v),
        key.kind == KeyEventKind::Press,
        key.code == KeyCode::Left || key.code == KeyCode::Right || key.code == KeyCode::Up
            || key.code == KeyCode::Down,
    ensures
        ({
            let last = v.agents.len() - 1;
            let after = v.after_key(key);
            &&& after.watch_target matches Some(t)
            &&& t <= last
            &&& t != w
            &&& t != v.focused
            &&& v.key_actions(key) == seq![ActionView::SelectWatch { index: t }]
            &&& after == (DashView { watch_target: Some(t), ..v })
            &&& (key.code == KeyCode::Right || key.code == KeyCode::Down) ==> {
                let one = if w == last { 0 } else { w + 1 };
                let two = if one == last { 0 } else { one + 1 };
                t == (if one == v.focused { two } else { one })
            }
            &&& (key.code == KeyCode::Left || key.code == KeyCode::Up) ==> {
                let one = if w == 0 { last } else { w - 1 };
                let two = if one == 0 { last } else { one - 1 };
                t == (if one == v.focused { two } else { one })
            }
        }),
{
}

/// Law: an arrow key and the one against it lead the watch back to where it was.
pub proof fn law_arrows_lead_back(v: DashView, there: KeyEvent, back: KeyEvent, w: usize)
    requires
        v.wf(),
        v.agents.len() >= 2,
        v.watch_open,
        v.watch_target == Some(w),
        w != v.focused,
        !focus_paused(v),
        there.kind == KeyEventKind::Press,
        back.kind == KeyEventKind::Press,
        ((there.code == KeyCode::Down || there.code == KeyCode::Right) && (back.code
            == KeyCode::Up || back.code == KeyCode::Left)) || ((there.code == KeyCode::Up
            || there.code == KeyCode::Left) && (back.code == KeyCode::Down || back.code
            == KeyCode::Right)),
    ensures
        v.after_key(there).after_key(back) == v,
{
}

/// Law: without an open watch the arrow keys do nothing.
pub proof fn law_arrows_need_a_watch(v: DashView, key: KeyEvent)
    requires
        v.wf(),
        !v.watch_open,
        !focus_paused(v),
        key.code == KeyCode::Left || key.code == KeyCode::Right || key.code == KeyCode::Up
            || key.code == KeyCode::Down,
    ensures
        v.after_key(key) == v,
        v.key_actions(key) == Seq::<ActionView>::empty(),
{
}

/// Law: Tab moves the focus to the next agent, and Shift+Tab to the one before, going round; the
/// panes stay as they are.
pub proof fn law_tab_keys(v: DashView, key: KeyEvent)
    requires
        v.wf(),
        v.agents.len() > 0,
        !focus_paused(v),
        key.kind == KeyEventKind::Press,
        key.code == KeyCode::Tab || key.code == KeyCode::BackTab,
    ensures
        ({
            let last = v.agents.len() - 1;
            let after = v.after_key(key);
            let back = key.code == KeyCode::BackTab || key.modifiers.shift;
            &&& after.focused <= last
            &&& back && v.focused == 0 ==> after.focused == last
            &&& back && v.focused > 0 ==> after.focused == v.focused - 1
            &&& !back && v.focused == last ==> after.focused == 0
            &&& !back && v.focused < last ==> after.focused == v.focused + 1
            &&& v.key_actions(key) == seq![ActionView::SelectFocus { index: after.focused }]
            &&& after.agents == v.agents
            &&& after.watch_open == v.watch_open
            &&& after.run_complete == v.run_complete
            &&& !v.watch_open ==> after.watch_target == v.watch_target
            &&& v.watch_open && v.watch_target is Some && v.watch_target != Some(after.focused)
                ==> after.watch_target == v.watch_target
        }),
{
}

/// Law: a digit names an agent, counted from one. With the watch closed the focus goes there, or to
/// the last agent where there are fewer; with it open the watch does, unless the agent has the focus
/// or there is none.
pub proof fn law_number_keys(v: DashView, key: KeyEvent, n: int)
    requires
        v.wf(),
        v.agents.len() > 0,
        !focus_paused(v),
        key.kind == KeyEventKind::Press,
        !key.modifiers.shift && !key.modifiers.control && !key.modifiers.other,
        1 <= n <= 9,
        key.code == KeyCode::Char((48 + n) as char),
    ensures
        ({
            let after = v.after_key(key);
            let target = if n <= v.agents.len() { n - 1 } else { v.agents.len() - 1 };
            &&& after.agents == v.agents
            &&& after.watch_open == v.watch_open
            &&& !v.watch_open ==> {
                &&& after.focused == target
                &&& after.watch_target == v.watch_target
                &&& v.key_actions(key) == seq![
                    ActionView::SelectFocus { index: target as usize },
                ]
            }
            &&& v.watch_open && n <= v.agents.len() && n - 1 != v.focused ==> {
                &&& after.focused == v.focused
                &&& after.watch_target == Some((n - 1) as usize)
                &&& v.key_actions(key) == seq![
                    ActionView::SelectWatch { index: (n - 1) as usize },
                ]
            }
            &&& v.watch_open && (n > v.agents.len() || n - 1 == v.focused) ==> {
                &&& after == v
                &&& v.key_actions(key) == Seq::<ActionView>::empty()
            }
        }),
{
}

/// Law: `w` opens the watch and closes it again, and asks for that. The focus and the panes stay.
pub proof fn law_watch_key(v: DashView, key: KeyEvent)
    requires
        v.wf(),
        !focus_paused(v),
        key.kind == KeyEventKind::Press,
        !key.modifiers.shift && !key.modifiers.control && !key.modifiers.other,
        key.code == KeyCode::Char('w'),
    ensures
        v.after_key(key).watch_open == !v.watch_open,
        v.after_key(key).focused == v.focused,
        v.after_key(key).agents == v.agents,
        v.key_actions(key) == seq![ActionView::ToggleWatch],
        v.watch_open ==> v.after_key(key).watch_target == v.watch_target,
        v.watch_target matches Some(w) ==> (w != v.focused ==> v.after_key(key).watch_target
            == v.watch_target),
        !v.watch_open && (v.watch_target is None || v.watch_target == Some(v.focused))
            && v.agents.len() >= 2 ==> v.after_key(key).watch_target == Some(
            if v.focused == v.agents.len() - 1 { 0usize } else { (v.focused + 1) as usize },
        ),
{
}

/// Law: Ctrl+C pauses the focused agent and asks for that; guidance can be written from then on.
/// Nothing else changes.
pub proof fn law_pause_key(v: DashView, key: KeyEvent)
    requires
        v.wf(),
        v.agents.len() > 0,
        !focus_paused(v),
        key.kind == KeyEventKind::Press,
        key.code == KeyCode::Char('c'),
        key.modifiers.control,
    ensures
        v.key_actions(key) == seq![ActionView::PauseAgent { index: v.focused }],
        focus_paused(v.after_key(key)),
        v.after_key(key) == (DashView {
            agents: v.agents.update(
                v.focused as int,
                PaneView { status: AgentStatus::Paused, ..v.agents[v.focused as int] },
            ),
            ..v
        }),
{
}

/// Law: Enter sends the guidance that was written and resumes the agent; the composer is empty then.
pub proof fn law_send_key(v: DashView, key: KeyEvent)
    requires
        v.wf(),
        focus_paused(v),
        key.kind == KeyEventKind::Press,
        key.code == KeyCode::Enter,
        !key.modifiers.shift && !key.modifiers.control && !key.modifiers.other,
    ensures
        v.key_actions(key) == seq![
            ActionView::ResumeWithGuidance {
                index: v.focused,
                text: v.agents[v.focused as int].compose,
            },
        ],
        v.after_key(key) == (DashView {
            agents: v.agents.update(
                v.focused as int,
                PaneView {
                    status: AgentStatus::Running,
                    compose: Seq::empty(),
                    ..v.agents[v.focused as int]
                },
            ),
            ..v
        }),
{
}

/// Law: while guidance is being written, a character typed alone or with Shift is added to it,
/// Ctrl+J and Enter with a modifier add a line break, Backspace takes its last character away, and
/// no key but a plain Enter asks for anything or changes anything else.
pub proof fn law_compose_keys(v: DashView, key: KeyEvent)
    requires
        v.wf(),
        focus_paused(v),
        key.kind == KeyEventKind::Press,
        key.code != KeyCode::Enter || key.modifiers.shift || key.modifiers.control
            || key.modifiers.other,
    ensures
        ({
            let text = v.agents[v.focused as int].compose;
            let after = v.after_key(key);
            let now = after.agents[v.focused as int].compose;
            &&& v.key_actions(key) == Seq::<ActionView>::empty()
            &&& after == (DashView {
                agents: v.agents.update(
                    v.focused as int,
                    PaneView { compose: now, ..v.agents[v.focused as int] },
                ),
                ..v
            })
            &&& key.code == KeyCode::Enter ==> now == text.push('\n')
            &&& key.code == KeyCode::Char('j') && key.modifiers.control ==> now == text.push('\n')
            &&& key.code == KeyCode::Backspace ==> now == (if text.len() > 0 {
                text.take(text.len() - 1)
            } else {
                text
            })
            &&& key.code matches KeyCode::Char(c) ==> (!key.modifiers.control
                && !key.modifiers.other ==> now == text.push(c))
            &&& key.code matches KeyCode::Char(c) ==> (c != 'j' && (key.modifiers.control
                || key.modifiers.other) ==> now == text)
            &&& (key.code == KeyCode::Tab || key.code == KeyCode::BackTab || key.code
                == KeyCode::Left || key.code == KeyCode::Right || key.code == KeyCode::Up
                || key.code == KeyCode::Down || key.code == KeyCode::PageUp || key.code
                == KeyCode::PageDown || key.code == KeyCode::Home || key.code == KeyCode::End
                || key.code == KeyCode::Esc) ==> now == text
        }),
{
    let i = v.focused as int;
    let after = v.after_key(key);
    assert(after.agents =~= v.agents.update(
        i,
        PaneView { compose: after.agents[i].compose, ..v.agents[i] },
    ));
}

/// Law: while no guidance is being written, the page keys scroll the log of the focused agent by the
/// height it was last drawn with, by one line at least, without end or start being passed; Home goes
/// as far back as can be and End to the newest line. They ask for nothing and change nothing else.
pub proof fn law_scroll_keys(v: DashView, key: KeyEvent)
    requires
        v.wf(),
        v.agents.len() > 0,
        !focus_paused(v),
        key.kind == KeyEventKind::Press,
        key.code == KeyCode::PageUp || key.code == KeyCode::PageDown || key.code == KeyCode::Home
            || key.code == KeyCode::End,
    ensures
        ({
            let back = v.agents[v.focused as int].scrollback;
            let after = v.after_key(key);
            let now = after.agents[v.focused as int].scrollback;
            let step = if v.last_main_log_height > 1 { v.last_main_log_height as int } else { 1 };
            &&& v.key_actions(key) == Seq::<ActionView>::empty()
            &&& after == (DashView {
                agents: v.agents.update(
                    v.focused as int,
                    PaneView { scrollback: now, ..v.agents[v.focused as int] },
                ),
                ..v
            })
            &&& key.code == KeyCode::PageUp && back + step <= usize::MAX ==> now == back + step
            &&& key.code == KeyCode::PageUp && back + step > usize::MAX ==> now == usize::MAX
            &&& key.code == KeyCode::PageDown && back >= step ==> now == back - step
            &&& key.code == KeyCode::PageDown && back < step ==> now == 0
            &&& key.code == KeyCode::Home ==> now == usize::MAX
            &&& key.code == KeyCode::End ==> now == 0
        }),
{
}

/// Law: keys without a meaning do nothing while no guidance is being written.
pub proof fn law_other_keys(v: DashView, key: KeyEvent)
    requires
        v.wf(),
        !focus_paused(v),
        key.code == KeyCode::Enter || key.code == KeyCode::Backspace || key.code == KeyCode::Esc
            || key.code == KeyCode::Other || (key.code matches KeyCode::Char(c) && c != 'c' && c
            != 'w' && !('1' <= c <= '9')),
    ensures
        v.after_key(key) == v,
        v.key_actions(key) == Seq::<ActionView>::empty(),
{
}

/// Law: a notch of the wheel scrolls the log under the pointer by three lines, back for up and
/// forward for down: that of the open watch where the pointer is over it, else that of the focused
/// agent. Elsewhere nothing happens.
pub proof fn law_wheel(v: DashView, col: u16, row: u16, up: bool, i: int)
    requires
        v.wf(),
        0 <= i < v.agents.len(),
    ensures
        ({
            let over_watch = v.watch_open && v.watch_target is Some && (
            v.last_watch_log_rect matches Some(a) && a.x <= col < a.x + a.width && a.y <= row < a.y
                + a.height && col < u16::MAX && row < u16::MAX);
            let over_main = v.last_main_log_rect matches Some(a) && a.x <= col < a.x + a.width
                && a.y <= row < a.y + a.height && col < u16::MAX && row < u16::MAX;
            let moved = (over_watch && v.watch_target == Some(i as usize)) || (!over_watch
                && over_main && i == v.focused);
            let back = v.agents[i].scrollback;
            let now = v.wheel(col, row, up).agents[i].scrollback;
            &&& v.wheel(col, row, up).agents.len() == v.agents.len()
            &&& v.wheel(col, row, up).agents[i] == (PaneView { scrollback: now, ..v.agents[i] })
            &&& v.wheel(col, row, up) == (DashView {
                agents: v.wheel(col, row, up).agents,
                ..v
            })
            &&& !moved ==> now == back
            &&& moved && up && back + 3 <= usize::MAX ==> now == back + 3
            &&& moved && !up && back >= 3 ==> now == back - 3
            &&& moved && !up && back < 3 ==> now == 0
        }),
{
}

/// Law: the arrow keys do to the dashboard what they are for: with the watch open on another agent than
/// the focused one, and nothing being written, Right and Down move it on and Left and Up back, and the
/// new target is asked for.
pub proof fn law_arrows_handled(
    d: &mut DashboardState,
    key: KeyEvent,
    actions: Vec<DashboardAction>,
    w: usize,
)
    requires
        call_ensures(DashboardState::handle_key_event, (d, key), actions),
        old(d)@.wf(),
        old(d).agents@.len() >= 3,
        old(d).watch_open,
        old(d).watch_target == Some(w),
        w != old(d).focused,
        old(d).agents@[old(d).focused as int].status != AgentStatus::Paused,
        key.kind == KeyEventKind::Press,
        key.code == KeyCode::Left || key.code == KeyCode::Right || key.code == KeyCode::Up
            || key.code == KeyCode::Down,
    ensures
        ({
            let last = old(d).agents@.len() - 1;
            let focused = old(d).focused;
            &&& final(d).watch_open
            &&& final(d).focused == focused
            &&& final(d).watch_target matches Some(t)
            &&& t <= last
            &&& t != w
            &&& t != focused
            &&& actions@.len() == 1
            &&& actions@[0] == (DashboardAction::SelectWatch { index: t })
            &&& (key.code == KeyCode::Right || key.code == KeyCode::Down) ==> {
                let one = if w == last { 0 } else { w + 1 };
                let two = if one == last { 0 } else { one + 1 };
                t == (if one == focused { two } else { one })
            }
            &&& (key.code == KeyCode::Left || key.code == KeyCode::Up) ==> {
                let one = if w == 0 { last } else { w - 1 };
                let two = if one == 0 { last } else { one - 1 };
                t == (if one == focused { two } else { one })
            }
        }),
{
    let v = old(d)@;
    assert(v.agents.len() == old(d).agents@.len());
    assert(v.agents[v.focused as int] == old(d).agents@[old(d).focused as int]@);
    law_arrow_keys(v, key, w);
    assert(final(d)@.watch_target == final(d).watch_target && final(d)@.focused == final(d).focused
        && final(d)@.watch_open == final(d).watch_open);
    let a = views(actions@);
    assert(a.len() == actions@.len());
    assert(a[0] == actions@[0]@);
}

/// Law: a key event changes the dashboard and asks for what the key is for, whatever the state.
pub proof fn law_keys_handled(d: &mut DashboardState, key: KeyEvent, actions: Vec<DashboardAction>)
    requires
        call_ensures(DashboardState::handle_key_event, (d, key), actions),
        old(d)@.wf(),
    ensures
        final(d)@ == old(d)@.after_key(key),
        views(actions@) == old(d)@.key_actions(key),
        final(d)@.wf(),
        final(d).agents@.len() == old(d).agents@.len(),
{
    assert(final(d)@.agents.len() == final(d).agents@.len());
    assert(old(d)@.agents.len() == old(d).agents@.len());
}

/// Law: the wheel scrolls the dashboard as it says of each notch, and changes nothing but scroll
/// positions.
pub proof fn law_wheel_handled(d: &mut DashboardState, col: u16, row: u16, up: bool, r: ())
    requires
        call_ensures(DashboardState::mouse_scroll_at, (d, col, row, up), r),
        old(d)@.wf(),
    ensures
        final(d)@ == old(d)@.wheel(col, row, up),
        final(d).focused == old(d).focused,
        final(d).watch_open == old(d).watch_open,
        final(d).watch_target == old(d).watch_target,
{
    assert(final(d)@.focused == final(d).focused && final(d)@.watch_open == final(d).watch_open
        && final(d)@.watch_target == final(d).watch_target);
    if old(d)@.agents.len() > 0 {
        law_wheel(old(d)@, col, row, up, 0);
    }
}

/// Law: an arrow key leads an open watch away from the focused agent, and gives it a target where it has
/// none, as long as there is another agent.
pub proof fn law_arrows_leave_focus(v: DashView, key: KeyEvent)
    requires
        v.wf(),
        v.agents.len() >= 2,
        v.watch_open,
        !focus_paused(v),
        key.kind == KeyEventKind::Press,
        key.code == KeyCode::Left || key.code == KeyCode::Right || key.code == KeyCode::Up
            || key.code == KeyCode::Down,
    ensures
        v.after_key(key).watch_target matches Some(t) && t < v.agents.len() && t != v.focused
            && v.key_actions(key) == seq![ActionView::SelectWatch { index: t }],
        v.agents.len() == 2 ==> v.after_key(key).watch_target == Some((1 - v.focused) as usize),
{
}

} // verus!
