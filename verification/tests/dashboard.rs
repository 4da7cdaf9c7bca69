use codex_task::dashboard::AgentPaneState;
use codex_task::dashboard::AgentStatus;
use codex_task::dashboard::DashboardAction;
use codex_task::dashboard::DashboardState;
use codex_task::keys::KeyCode;
use codex_task::keys::KeyEvent;
use codex_task::keys::KeyEventKind;
use codex_task::keys::KeyModifiers;
use codex_task::multi_agent_dashboard::ControlCall;
use codex_task::multi_agent_dashboard::MultiAgentCallbacks;
use codex_task::multi_agent_dashboard::MultiAgentDashboard;
use codex_task::multi_agent_dashboard::MultiAgentUpdate;
use codex_task::planner_panel::PlannerPanelState;
use codex_task::planner_panel::PlannerStatus;
use codex_task::planner_panel::PlannerUpdate;
use codex_task::screen::Line;
use codex_task::screen::Rect;

const NONE: KeyModifiers = KeyModifiers { shift: false, control: false, other: false };
const SHIFT: KeyModifiers = KeyModifiers { shift: true, control: false, other: false };
const CONTROL: KeyModifiers = KeyModifiers { shift: false, control: true, other: false };

fn ev(code: KeyCode) -> KeyEvent {
    KeyEvent::new(code, NONE)
}
fn evm(code: KeyCode, m: KeyModifiers) -> KeyEvent {
    KeyEvent::new(code, m)
}

fn make_dash(n: usize) -> DashboardState {
    let agents = (0..n).map(|i| AgentPaneState::new(&format!("A{i}"))).collect();
    DashboardState::new(agents)
}

#[test]
fn cycles_focus_with_tab_and_backtab() {
    let mut d = make_dash(3);
    assert_eq!(d.focused, 0);
    let acts = d.handle_key_event(ev(KeyCode::Tab));
    assert_eq!(d.focused, 1);
    assert_eq!(acts, vec![DashboardAction::SelectFocus { index: 1 }]);
    let acts = d.handle_key_event(evm(KeyCode::Tab, SHIFT));
    assert_eq!(d.focused, 0);
    assert_eq!(acts, vec![DashboardAction::SelectFocus { index: 0 }]);
    let acts = d.handle_key_event(ev(KeyCode::BackTab));
    assert_eq!(d.focused, 2);
    assert_eq!(acts, vec![DashboardAction::SelectFocus { index: 2 }]);
}

#[test]
fn jump_by_number_keys() {
    let mut d = make_dash(4);
    let acts = d.handle_key_event(ev(KeyCode::Char('3')));
    assert_eq!(d.focused, 2);
    assert_eq!(acts, vec![DashboardAction::SelectFocus { index: 2 }]);
}

#[test]
fn toggle_watch_and_change_target() {
    let mut d = make_dash(3);
    assert!(!d.watch_open);
    let acts = d.handle_key_event(ev(KeyCode::Char('w')));
    assert!(d.watch_open);
    assert_eq!(acts, vec![DashboardAction::ToggleWatch]);
    assert!(d.watch_target.is_some());

    // Move watch with right/left
    let _ = d.handle_key_event(ev(KeyCode::Right));
    let after_right = d.watch_target;
    let _ = d.handle_key_event(ev(KeyCode::Left));
    assert_ne!(after_right, d.watch_target);
}

#[test]
fn pause_compose_and_submit() {
    let mut d = make_dash(2);
    // Ctrl+C pauses
    let acts = d.handle_key_event(evm(KeyCode::Char('c'), CONTROL));
    assert_eq!(d.agents[0].status, AgentStatus::Paused);
    assert_eq!(acts, vec![DashboardAction::PauseAgent { index: 0 }]);

    // Typing goes to compose, digits are not focus jumps
    let _ = d.handle_key_event(ev(KeyCode::Char('H')));
    let _ = d.handle_key_event(ev(KeyCode::Char('i')));
    let _ = d.handle_key_event(ev(KeyCode::Char('1')));
    let _ = d.handle_key_event(evm(KeyCode::Enter, CONTROL)); // newline
    assert_eq!(d.agents[0].compose, "Hi1\n");

    // Plain Enter submits and resumes
    let acts = d.handle_key_event(ev(KeyCode::Enter));
    assert_eq!(d.agents[0].status, AgentStatus::Running);
    assert_eq!(d.agents[0].compose, "");
    assert_eq!(
        acts,
        vec![DashboardAction::ResumeWithGuidance { index: 0, text: "Hi1\n".into() }]
    );
}

#[test]
fn number_selects_watch_when_open_and_not_composing() {
    let mut d = make_dash(4);
    // open watch
    let _ = d.handle_key_event(ev(KeyCode::Char('w')));
    // choose 3rd as watch
    let acts = d.handle_key_event(ev(KeyCode::Char('3')));
    assert!(acts.iter().any(|a| matches!(a, DashboardAction::SelectWatch { index: 2 })));

    // Pause composing; numbers now go to input
    let _ = d.handle_key_event(evm(KeyCode::Char('c'), CONTROL));
    let _ = d.handle_key_event(ev(KeyCode::Char('4')));
    assert_eq!(d.agents[d.focused].compose, "4");
}

#[test]
fn control_j_and_backspace_edit_guidance() {
    let mut d = make_dash(1);
    let _ = d.handle_key_event(evm(KeyCode::Char('c'), CONTROL));
    let _ = d.handle_key_event(ev(KeyCode::Char('a')));
    let _ = d.handle_key_event(evm(KeyCode::Char('j'), CONTROL));
    let _ = d.handle_key_event(evm(KeyCode::Char('B'), SHIFT));
    assert_eq!(d.agents[0].compose, "a\nB");
    let _ = d.handle_key_event(ev(KeyCode::Backspace));
    assert_eq!(d.agents[0].compose, "a\n");
    let _ = d.handle_key_event(ev(KeyCode::Tab));
    assert_eq!(d.focused, 0);
    assert!(d.focused_is_composing());
}

#[test]
fn releases_change_nothing() {
    let mut d = make_dash(2);
    let key = KeyEvent { code: KeyCode::Tab, modifiers: NONE, kind: KeyEventKind::Release };
    assert_eq!(d.handle_key_event(key), vec![]);
    assert_eq!(d.focused, 0);
}

#[test]
fn keys_without_agents_are_passed_over() {
    let mut d = make_dash(0);
    for code in [KeyCode::Tab, KeyCode::BackTab, KeyCode::Char('1'), KeyCode::Enter, KeyCode::Home] {
        assert_eq!(d.handle_key_event(ev(code)), vec![]);
    }
    assert_eq!(d.handle_key_event(evm(KeyCode::Char('c'), CONTROL)), vec![]);
    assert_eq!(d.focused, 0);
}

#[test]
fn tab_back_undoes_tab() {
    for n in 1..5 {
        for start in 0..n {
            let mut d = make_dash(n);
            d.focused = start;
            let _ = d.handle_key_event(ev(KeyCode::Tab));
            let _ = d.handle_key_event(ev(KeyCode::BackTab));
            assert_eq!(d.focused, start);
        }
    }
}

#[test]
fn the_watch_passes_over_the_focus() {
    let mut d = make_dash(3);
    let _ = d.handle_key_event(ev(KeyCode::Char('w')));
    assert_eq!(d.watch_target, Some(1));
    for _ in 0..6 {
        let _ = d.handle_key_event(ev(KeyCode::Right));
        assert_ne!(d.watch_target, Some(d.focused));
    }
    let _ = d.handle_key_event(ev(KeyCode::Char('1')));
    assert_ne!(d.watch_target, Some(0));
}

#[test]
fn a_watch_that_opens_again_is_not_on_the_focus() {
    let mut d = make_dash(3);
    let _ = d.handle_key_event(ev(KeyCode::Char('w')));
    assert_eq!(d.watch_target, Some(1));
    let _ = d.handle_key_event(ev(KeyCode::Char('w')));
    let _ = d.handle_key_event(ev(KeyCode::Tab));
    assert_eq!(d.focused, 1);
    let _ = d.handle_key_event(ev(KeyCode::Char('w')));
    assert!(d.watch_open);
    assert_eq!(d.watch_target, Some(2));
    // one that is on another agent stays there
    let _ = d.handle_key_event(ev(KeyCode::Char('w')));
    let _ = d.handle_key_event(ev(KeyCode::Char('1')));
    let _ = d.handle_key_event(ev(KeyCode::Char('w')));
    assert_eq!((d.focused, d.watch_target), (0, Some(2)));
}

#[test]
fn a_new_dashboard_watches_nobody() {
    let dash = MultiAgentDashboard::new(&ids(2), all_hooks());
    assert_eq!((dash.state.focused, dash.state.watch_open, dash.state.watch_target), (0, false, None));
    assert_eq!(dash.state.last_main_log_height, 0);
    assert!(dash.state.last_main_log_rect.is_none() && dash.state.last_watch_log_rect.is_none());
    assert!(!dash.state.run_complete);
    assert!(dash.state.agents.iter().all(|a| a.log_src.stdout_path.is_none()));
    assert!(MultiAgentDashboard::new(&ids(0), all_hooks()).state.run_complete);
}

#[test]
fn page_keys_scroll_by_the_height_of_the_log() {
    let mut d = make_dash(1);
    d.last_main_log_height = 7;
    let _ = d.handle_key_event(ev(KeyCode::PageUp));
    let _ = d.handle_key_event(ev(KeyCode::PageUp));
    assert_eq!(d.agents[0].scrollback, 14);
    let _ = d.handle_key_event(ev(KeyCode::PageDown));
    assert_eq!(d.agents[0].scrollback, 7);
    let _ = d.handle_key_event(ev(KeyCode::Home));
    assert_eq!(d.agents[0].scrollback, usize::MAX);
    let _ = d.handle_key_event(ev(KeyCode::PageUp));
    assert_eq!(d.agents[0].scrollback, usize::MAX);
    let _ = d.handle_key_event(ev(KeyCode::End));
    assert_eq!(d.agents[0].scrollback, 0);
}

#[test]
fn the_wheel_scrolls_the_pane_under_it() {
    let mut d = make_dash(2);
    d.watch_open = true;
    d.watch_target = Some(1);
    d.last_main_log_rect = Some(Rect::new(0, 0, 10, 5));
    d.last_watch_log_rect = Some(Rect::new(10, 0, 10, 5));
    d.mouse_scroll_at(3, 3, true);
    assert!(d.agents[0].scrollback > 0);
    assert_eq!(d.agents[1].scrollback, 0);
    d.mouse_scroll_at(12, 3, true);
    assert!(d.agents[1].scrollback > 0);
    let before = d.agents[0].scrollback;
    d.mouse_scroll_at(30, 30, true);
    assert_eq!(d.agents[0].scrollback, before);
    d.mouse_scroll_at(3, 3, false);
    assert_eq!(d.agents[0].scrollback, 0);
}

fn ids(n: usize) -> Vec<String> {
    (0..n).map(|i| format!("t{i}")).collect()
}

fn all_hooks() -> MultiAgentCallbacks {
    MultiAgentCallbacks::default().with_pause().with_resume().with_inject().with_abort()
}

#[test]
fn keys_become_calls() {
    let mut dash = MultiAgentDashboard::new(&ids(2), all_hooks());
    let calls = dash.on_key(evm(KeyCode::Char('c'), CONTROL));
    assert_eq!(calls.len(), 1);
    assert!(matches!(&calls[0], ControlCall::Pause(id) if id == "t0"));
    let _ = dash.on_key(ev(KeyCode::Char('x')));
    let calls = dash.on_key(ev(KeyCode::Enter));
    assert_eq!(calls.len(), 2);
    assert!(matches!(&calls[0], ControlCall::Inject { task_id, text } if task_id == "t0" && text == "x"));
    assert!(matches!(&calls[1], ControlCall::Resume(id) if id == "t0"));
}

#[test]
fn without_hooks_no_calls_are_made() {
    let mut dash = MultiAgentDashboard::new(&ids(1), MultiAgentCallbacks::default());
    assert!(dash.on_key(evm(KeyCode::Char('c'), CONTROL)).is_empty());
    assert!(dash.on_key(ev(KeyCode::Enter)).is_empty());
    assert!(dash.on_key(evm(KeyCode::Char('q'), CONTROL)).is_empty());
    assert!(dash.exit_requested);
}

#[test]
fn control_q_ends_the_run() {
    let mut dash = MultiAgentDashboard::new(&ids(1), all_hooks());
    let calls = dash.on_key(evm(KeyCode::Char('q'), CONTROL));
    assert!(matches!(calls[0], ControlCall::AbortAll));
    assert!(dash.exit_requested);
}

#[test]
fn q_closes_a_finished_dashboard() {
    let mut dash = MultiAgentDashboard::new(&ids(2), all_hooks());
    let _ = dash.on_key(ev(KeyCode::Char('q')));
    assert!(!dash.exit_requested);
    for (id, status) in [("t0", AgentStatus::Done), ("t1", AgentStatus::Error)] {
        dash.apply_update(MultiAgentUpdate::SetStatus { task_id: id.to_string(), status });
    }
    assert!(dash.all_agents_terminal());
    assert!(dash.state.run_complete);
    assert!(dash.closes_when_updates_end());
    let _ = dash.on_key(ev(KeyCode::Char('q')));
    assert!(dash.exit_requested);
}

#[test]
fn updates_reach_their_agent_only() {
    let mut dash = MultiAgentDashboard::new(&ids(2), all_hooks());
    assert_eq!(dash.state.agents[0].status, AgentStatus::Queued);
    dash.apply_update(MultiAgentUpdate::Snapshot {
        task_id: "t1".to_string(),
        log: vec![Line::raw("a")],
        status: AgentStatus::Running,
        banner: Some(Line::raw("b")),
    });
    dash.apply_update(MultiAgentUpdate::AppendLines {
        task_id: "t1".to_string(),
        lines: vec![Line::raw("c"), Line::raw("d")],
    });
    dash.apply_update(MultiAgentUpdate::BumpRouteCount { task_id: "t1".to_string() });
    dash.apply_update(MultiAgentUpdate::SetLogFiles {
        task_id: "t1".to_string(),
        stdout: "out".to_string(),
        stderr: "err".to_string(),
    });
    dash.apply_update(MultiAgentUpdate::SetStatus {
        task_id: "nobody".to_string(),
        status: AgentStatus::Error,
    });
    let a = &dash.state.agents[1];
    assert_eq!(a.status, AgentStatus::Running);
    assert_eq!(a.log_src.visible_lines(10, 0).len(), 3);
    assert_eq!(a.route_count, 1);
    assert_eq!(a.log_src.stdout_path.as_deref(), Some("out"));
    assert!(a.banner.is_some());
    assert_eq!(dash.state.agents[0].status, AgentStatus::Queued);
    assert_eq!(dash.state.agents[0].route_count, 0);
    dash.apply_update(MultiAgentUpdate::SetBanner { task_id: "t1".to_string(), banner: None });
    assert!(dash.state.agents[1].banner.is_none());
}

#[test]
fn test_set_logfiles_update_paths() {
    let run_dir = "/tmp/codex_task_test_1/attempt-1";
    let stdout_path = codex_task::paths::path_join(run_dir, "stdout.log");
    let stderr_path = codex_task::paths::path_join(run_dir, "stderr.log");
    let task_id = "t1".to_string();
    let update = MultiAgentUpdate::SetLogFiles {
        task_id: task_id.clone(),
        stdout: stdout_path.clone(),
        stderr: stderr_path.clone(),
    };
    match update {
        MultiAgentUpdate::SetLogFiles { task_id: id, stdout, stderr } => {
            assert_eq!(id, task_id);
            assert_eq!(stdout, stdout_path);
            assert_eq!(stderr, stderr_path);
        }
        other => panic!("unexpected update: {other:?}"),
    }
    assert_eq!(stdout_path, "/tmp/codex_task_test_1/attempt-1/stdout.log");
}

#[test]
fn planner_keys_scroll() {
    let mut p = PlannerPanelState::default();
    p.log = (0..30).map(|i| Line::raw(&format!("{i}"))).collect();
    p.on_key(ev(KeyCode::PageUp), 11);
    assert_eq!(p.scrollback, 10);
    p.on_key(ev(KeyCode::PageDown), 6);
    assert_eq!(p.scrollback, 5);
    p.on_key(ev(KeyCode::Home), 11);
    assert_eq!(p.scrollback, 20);
    p.on_key(ev(KeyCode::Esc), 11);
    assert_eq!(p.scrollback, 20);
    p.on_key(ev(KeyCode::End), 11);
    assert_eq!(p.scrollback, 0);
}

#[test]
fn planner_updates_are_followed() {
    let mut p = PlannerPanelState::default();
    assert_eq!(p.status, PlannerStatus::Running);
    p.apply_update(PlannerUpdate::Snapshot {
        log: vec![Line::raw("a")],
        status: PlannerStatus::Done,
        banner: Some(Line::raw("b")),
    });
    assert_eq!(p.status, PlannerStatus::Done);
    assert_eq!(p.log.len(), 1);
    p.apply_update(PlannerUpdate::SetBanner { banner: None });
    assert!(p.banner.is_none());
    p.apply_update(PlannerUpdate::SetStatus { status: PlannerStatus::Error });
    assert_eq!(p.status, PlannerStatus::Error);
}
