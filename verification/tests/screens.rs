use codex_task::dashboard::AgentPaneState;
use codex_task::dashboard::AgentStatus;
use codex_task::dashboard::DashboardState;
use codex_task::logs::PageTask;
use codex_task::planner_panel::PlannerPanelState;
use codex_task::planner_panel::PlannerStatus;
use codex_task::planner_panel::PlannerUpdate;
use codex_task::screen::Align;
use codex_task::screen::Color;
use codex_task::screen::DrawOp;
use codex_task::screen::Line;
use codex_task::screen::Rect;
use ratatui::buffer::Buffer;
use ratatui::layout::Alignment;
use ratatui::widgets::Clear;
use ratatui::widgets::Paragraph;
use ratatui::widgets::Widget;

fn place(r: &Rect) -> ratatui::layout::Rect {
    ratatui::layout::Rect::new(r.x, r.y, r.width, r.height)
}

fn line_text(line: &Line) -> String {
    line.spans.iter().map(|s| s.text.as_str()).collect()
}

/// What a terminal of the size of `area` shows.
fn shown(ops: &[DrawOp], area: &Rect) -> String {
    let area = place(area);
    let mut buf = Buffer::empty(area);
    for op in ops {
        match op {
            DrawOp::Clear(r) => Clear.render(place(r).intersection(area), &mut buf),
            DrawOp::Text { area: r, lines, align } => {
                let lines: Vec<ratatui::text::Line> =
                    lines.iter().map(|l| ratatui::text::Line::from(line_text(l))).collect();
                let align = match align {
                    Align::Left => Alignment::Left,
                    Align::Right => Alignment::Right,
                };
                Paragraph::new(lines)
                    .alignment(align)
                    .render(place(r).intersection(area), &mut buf);
            }
        }
    }
    let mut s = String::new();
    for y in area.y..area.bottom() {
        for x in area.x..area.right() {
            s.push(buf[(x, y)].symbol().chars().next().unwrap_or(' '));
        }
        s.push('\n');
    }
    s
}

fn screen(d: &mut DashboardState, width: u16, height: u16) -> String {
    let area = Rect::new(0, 0, width, height);
    let ops = d.render(area);
    shown(&ops, &area)
}

fn make_agent(id: &str, status: AgentStatus, lines: &[&str]) -> AgentPaneState {
    let mut a = AgentPaneState::new(id);
    a.status = status;
    a.log_src.replace_live_tail(lines.iter().map(|s| Line::raw(s)).collect());
    a
}

fn planner(state: &PlannerPanelState, width: u16, height: u16) -> String {
    let area = Rect::new(0, 0, width, height);
    shown(&state.render(area), &area)
}

/// The rows of a screen without the blanks at their ends, and without blank rows at the end.
fn rows(screen: &str) -> Vec<String> {
    let mut r: Vec<String> = screen.lines().map(|l| l.trim_end().to_string()).collect();
    while r.last().map(|l| l.is_empty()).unwrap_or(false) {
        r.pop();
    }
    r
}

#[test]
fn snapshot_idle_dashboard() {
    let mut d = DashboardState::new(vec![]);
    let s = screen(&mut d, 52, 12);
    assert_eq!(s.lines().count(), 12);
    assert_eq!(rows(&s), vec![" Agents", " No agents             No agents to display"]);
}

#[test]
fn snapshot_single_running() {
    let lines = ["boot", "starting agent", "doing work", "producing output", "done"];
    let a0 = make_agent("T-1", AgentStatus::Running, &lines);
    let mut d = DashboardState::new(vec![a0]);
    assert_eq!(
        rows(&screen(&mut d, 60, 14)),
        vec![
            " Agents               Task T-1 — Running",
            "  1 [R] T-1           boot",
            "                      starting agent",
            "                      doing work",
            "                      producing output",
            "                      done",
        ]
    );
}

#[test]
fn snapshot_single_queued() {
    let a0 = make_agent("T-1", AgentStatus::Queued, &[]);
    let mut d = DashboardState::new(vec![a0]);
    assert_eq!(
        rows(&screen(&mut d, 60, 10)),
        vec![" Agents               Task T-1 — Queued", "  1 [Q] T-1"]
    );
}

#[test]
fn snapshot_multiple_with_watch() {
    let mut d = DashboardState::new(vec![
        make_agent("A1", AgentStatus::Running, &["a1 line1", "a1 line2", "a1 last"]),
        make_agent("A2", AgentStatus::Running, &["a2: hello", "more text"]),
        make_agent("A3", AgentStatus::Done, &["finished"]),
    ]);
    // focus second agent
    d.focused = 1;
    // open watch on first agent
    d.watch_open = true;
    d.watch_target = Some(0);
    assert_eq!(
        rows(&screen(&mut d, 64, 14)),
        vec![
            " Agents               Task A2 — RunninWatching A1Watch A1",
            "  1 [R] A1 (watch)    a2: hello                  a1 line1",
            "  2 [R] A2            more text                  a1 line2",
            "  3 [D] A3                                       a1 last",
        ]
    );
}

#[test]
fn snapshot_paused_with_input() {
    let mut a0 = make_agent("Agent-X", AgentStatus::Paused, &["log 1", "log 2", "log 3", "log 4"]);
    a0.compose = "Consider edge cases\nAdd tests".into();
    let mut d = DashboardState::new(vec![a0]);
    assert_eq!(
        rows(&screen(&mut d, 60, 14)),
        vec![
            " Agents               Task Agent-X — Paused",
            "  1 [P] Agent-X       log 1",
            "                      log 2",
            "                      log 3",
            "                      log 4",
            "",
            "",
            "",
            "",
            "",
            "",
            "                      Inject to Agent-X: Enter send Ctrl+J n",
            "                       Consider edge cases",
            "                       Add tests",
        ]
    );
}

#[test]
fn snapshot_error_state() {
    let a0 = make_agent("A1", AgentStatus::Error, &["failed to start"]);
    let a1 = make_agent("A2", AgentStatus::Running, &["ok"]);
    let mut d = DashboardState::new(vec![a0, a1]);
    d.focused = 0;
    assert_eq!(
        rows(&screen(&mut d, 56, 10)),
        vec![
            " Agents               Task A1 — Error",
            "  1 [E] A1            failed to start",
            "  2 [R] A2",
        ]
    );
}

#[test]
fn snapshot_route_banners() {
    let mut a0 = make_agent("A1", AgentStatus::Running, &["working", "log 2", "log 3"]);
    a0.banner = Some(Line::colored(" Routed to A2 ", Color::Cyan));
    let mut a1 = make_agent("A2", AgentStatus::Running, &["hello", "world"]);
    a1.banner = Some(Line::colored(" Routed from A1 ", Color::Cyan));
    let mut d = DashboardState::new(vec![a0, a1]);
    d.focused = 0;
    d.watch_open = true;
    d.watch_target = Some(1);
    assert_eq!(
        rows(&screen(&mut d, 64, 12)),
        vec![
            " Agents               Task A1 — RunninWatching A2Watch A2",
            "  1 [R] A1             Routed to A2               Routed from A1",
            "  2 [R] A2 (watch)    working                    hello",
            "                      log 2                      world",
            "                      log 3",
        ]
    );
}

#[test]
fn snapshot_empty_planner() {
    let state = PlannerPanelState::default();
    let s = planner(&state, 48, 8);
    assert_eq!(s.lines().count(), 8);
    assert_eq!(rows(&s), vec!["Planning…"]);
}

#[test]
fn snapshot_streaming_lines() {
    let mut state = PlannerPanelState::default();
    state.banner = Some(Line::colored("Auto-planning…", Color::Cyan));
    // Simulate streaming by appending lines in chunks
    state.apply_update(PlannerUpdate::AppendLines {
        lines: vec![
            Line::raw("boot"),
            Line::raw("resolving repo context"),
            Line::raw("parsing task file"),
        ],
    });
    state.apply_update(PlannerUpdate::AppendLines {
        lines: vec![Line::raw("building plan"), Line::raw("…step 1"), Line::raw("…step 2")],
    });
    assert_eq!(
        rows(&planner(&state, 52, 10)),
        vec![
            "Planning…",
            "Auto-planning…",
            "boot",
            "resolving repo context",
            "parsing task file",
            "building plan",
            "…step 1",
            "…step 2",
        ]
    );
}

#[test]
fn snapshot_error_banner() {
    let mut state = PlannerPanelState::default();
    state.status = PlannerStatus::Error;
    state.banner = Some(Line::colored(" Error: missing prompt file ", Color::Red));
    state.log = vec![Line::raw("starting planner"), Line::raw("failed to read input")];
    assert_eq!(
        rows(&planner(&state, 56, 8)),
        vec![
            "Planning error",
            " Error: missing prompt file",
            "starting planner",
            "failed to read input",
        ]
    );
}

/// Reads what the log needs from the bytes of its file.
fn page_in(d: &mut DashboardState, file: &[u8]) {
    for (agent, wanted) in d.older_wanted() {
        let log = &mut d.agents[agent].log_src;
        for (which, _path) in log.ensure_older_lines(wanted) {
            let task = PageTask::begin(log, which, file.len() as u64, wanted);
            while let Some((start, count)) = task.next(log) {
                let chunk = file[start as usize..(start + count) as usize].to_vec();
                log.prepend_chunk(which, &chunk);
            }
        }
    }
}

#[test]
fn loads_older_from_disk_when_scrolled() {
    // A log file with 200 lines
    let mut file = String::new();
    for i in 1..=200u32 {
        file.push_str(&format!("L{i:03}\n"));
    }

    // Live tail only has the last 5 lines
    let mut a0 = AgentPaneState::new("A1");
    a0.status = AgentStatus::Running;
    let tail: Vec<Line> = (196..=200).map(|i| Line::raw(&format!("L{i:03}"))).collect();
    a0.log_src.replace_live_tail(tail);
    a0.log_src.stdout_path = Some("tmp".to_string());

    let mut d = DashboardState::new(vec![a0]);

    // Default (no scrollback) should show latest lines (e.g., L200)
    let s1 = screen(&mut d, 40, 10);
    assert!(s1.contains("L200"), "expected tail to show L200: {s1}");

    // Increase scrollback to force paging older content (large value)
    d.agents[0].scrollback = 1000;
    let _ = screen(&mut d, 40, 10);
    page_in(&mut d, file.as_bytes());
    let s2 = screen(&mut d, 40, 10);
    // Expect early lines are now visible after paging (e.g., L001 or L010)
    assert!(
        s2.contains("L001") || s2.contains("L010"),
        "expected scrolled view to show early lines, got: {s2}"
    );
    assert_eq!(d.agents[0].log_src.older_len(), 200);
}

#[test]
fn columns_share_the_width() {
    for width in 0..200u16 {
        let mut d = DashboardState::new(vec![
            make_agent("A1", AgentStatus::Running, &[]),
            make_agent("a-rather-long-id", AgentStatus::Running, &[]),
        ]);
        d.watch_open = true;
        d.watch_target = Some(1);
        let area = Rect::new(3, 2, width, 8);
        let ops = d.render(area);
        // sixteen bytes of id and fourteen beside it
        let sidebar = 30u16.min(width.saturating_sub(10));
        let content = width - sidebar;
        let main = ((65 * content as u32 + 50) / 100) as u16;
        let areas: Vec<Rect> = ops
            .iter()
            .filter_map(|op| match op {
                DrawOp::Text { area, .. } => Some(*area),
                DrawOp::Clear(_) => None,
            })
            .collect();
        // the title, two rows of the sidebar, the header and the note of the focused pane, its log,
        // and the header and the log of the watched pane
        assert_eq!(areas.len(), 8);
        assert_eq!((areas[0].x, areas[0].y, areas[0].width, areas[0].height), (3, 2, sidebar, 1));
        assert_eq!((areas[3].x, areas[3].width), (3 + sidebar, main));
        assert_eq!((areas[6].x, areas[6].width), (3 + sidebar + main, content - main));
        assert_eq!((areas[7].y, areas[7].height), (3, 7));
    }
}

#[test]
fn a_finished_run_tells_how_to_quit() {
    let mut d = DashboardState::new(vec![make_agent("T", AgentStatus::Done, &[])]);
    d.run_complete = true;
    let top = rows(&screen(&mut d, 100, 4)).remove(0);
    assert_eq!(
        top,
        " Agents               Task T — Done All agents complete — press q to quit"
    );
}

#[test]
fn message_counts_are_shown() {
    let mut a = make_agent("T", AgentStatus::Running, &[]);
    a.route_count = 12;
    let mut d = DashboardState::new(vec![a]);
    assert_eq!(
        rows(&screen(&mut d, 60, 4)),
        vec![" Agents               Task T — Running  ↔ 12", "  1 [R] T ↔ 12"]
    );
}

#[test]
fn the_planner_log_scrolls() {
    let mut state = PlannerPanelState::default();
    state.log = (0..6).map(|i| Line::raw(&format!("l{i}"))).collect();
    state.scrollback = 2;
    assert_eq!(rows(&planner(&state, 20, 4)), vec!["Planning…", "l1", "l2", "l3"]);
    state.scrollback = 0;
    state.status = PlannerStatus::Done;
    assert_eq!(rows(&planner(&state, 20, 4)), vec!["Planning complete", "l3", "l4", "l5"]);
}
