//! Drawing the dashboard: a sidebar that lists the agents, the pane of the focused agent, and that
//! of the watched one.

use vstd::prelude::*;
use vstd::string::*;
use vstd::utf8::*;

use crate::dashboard::AgentPaneState;
use crate::dashboard::AgentStatus;
use crate::dashboard::DashView;
use crate::dashboard::DashboardState;
use crate::dashboard::PaneView;
use crate::logs::window;
use crate::screen::color_style;
use crate::screen::dim_style;
use crate::screen::left_part;
use crate::screen::line_op;
use crate::screen::plain_line;
use crate::screen::plain_style;
use crate::screen::right_part;
use crate::screen::split_columns;
use crate::screen::styled;
use crate::screen::text_op;
use crate::screen::Align;
use crate::screen::Color;
use crate::screen::DrawOp;
use crate::screen::DrawView;
use crate::screen::Extent;
use crate::screen::Line;
use crate::screen::LineView;
use crate::screen::Rect;
use crate::screen::Span;
use crate::screen::SpanView;
use crate::text::decimal;
use crate::text::decimal_text;
use crate::text::law_decimal;
use crate::text::lemma_views_push;
use crate::text::lines;
use crate::text::lines_of;
use crate::text::spaces;
use crate::text::views;

verus! {

/// A line of spans.
pub open spec fn line_of(spans: Seq<SpanView>) -> LineView {
    LineView { spans, bold: false }
}

/// The letter that stands for a status in the sidebar.
pub open spec fn status_chip(status: AgentStatus) -> SpanView {
    match status {
        AgentStatus::Queued => styled("Q"@, plain_style()),
        AgentStatus::Running => styled("R"@, plain_style()),
        AgentStatus::Paused => styled("P"@, color_style(Color::Cyan)),
        AgentStatus::Done => styled("D"@, color_style(Color::Green)),
        AgentStatus::Error => styled("E"@, color_style(Color::Red)),
    }
}

/// The word for a status in the header.
pub open spec fn status_word(status: AgentStatus) -> SpanView {
    match status {
        AgentStatus::Queued => styled("Queued"@, plain_style()),
        AgentStatus::Running => styled("Running"@, plain_style()),
        AgentStatus::Paused => styled("Paused"@, color_style(Color::Cyan)),
        AgentStatus::Done => styled("Done"@, color_style(Color::Green)),
        AgentStatus::Error => styled("Error"@, color_style(Color::Red)),
    }
}

/// The count of messages sent to and from an agent, where there are any.
pub open spec fn route_spans(count: usize, lead: Seq<char>) -> Seq<SpanView> {
    if count == 0 {
        seq![]
    } else {
        seq![
            styled(lead, plain_style()),
            styled("↔"@, color_style(Color::Magenta)),
            styled(" "@, plain_style()),
            styled(decimal(count as nat), color_style(Color::Cyan)),
        ]
    }
}

/// A number with spaces before it so that it has at least two characters, and a space after it.
pub open spec fn index_text(n: nat) -> Seq<char> {
    let d = decimal(n);
    (if d.len() < 2 {
        spaces((2 - d.len()) as nat) + d
    } else {
        d
    }) + " "@
}

impl DashView {
    /// Whether agent `i` is watched.
    pub open spec fn watches(self, i: int) -> bool {
        self.watch_open && self.watch_target is Some && self.watch_target->0 == i
    }

    /// The line for agent `i` in the sidebar.
    pub open spec fn sidebar_line(self, i: int) -> LineView {
        let a = self.agents[i];
        LineView {
            spans: seq![
                styled(index_text((i + 1) as nat), color_style(Color::Cyan)),
                styled("["@, plain_style()),
                status_chip(a.status),
                styled("] "@, plain_style()),
                styled(a.task_id, plain_style()),
            ] + route_spans(a.route_count, " "@) + (if self.watches(i) {
                seq![styled(" "@, plain_style()), styled("(watch)"@, dim_style())]
            } else {
                seq![]
            }),
            bold: i == self.focused,
        }
    }

    /// How many agents the sidebar has room for.
    pub open spec fn sidebar_rows(self, area: Rect) -> nat {
        let room = area.end_row() - area.y - 1;
        if room < 0 {
            0
        } else if room < self.agents.len() {
            room as nat
        } else {
            self.agents.len()
        }
    }

    /// The row of the sidebar for agent `i`.
    pub open spec fn sidebar_row(self, area: Rect, i: int) -> DrawView {
        line_op(
            Rect::at(area.x + 1, area.y + 1 + i, less(area.width as int, 2), 1),
            self.sidebar_line(i),
        )
    }

    /// The sidebar: a title, and a row for each agent.
    pub open spec fn sidebar_ops(self, area: Rect) -> Seq<DrawView> {
        let title = line_op(
            Rect::at(area.x as int, area.y as int, area.width as int, 1),
            line_of(seq![styled(" Agents "@, crate::screen::bold_style())]),
        );
        if self.agents.len() == 0 {
            seq![
                title,
                line_op(area.inside(1, 1), line_of(seq![styled("No agents"@, dim_style())])),
            ]
        } else {
            seq![title] + Seq::new(self.sidebar_rows(area), |i: int| self.sidebar_row(area, i))
        }
    }

    /// The header of the focused pane.
    pub open spec fn header(self) -> LineView {
        let a = self.pane();
        line_of(
            seq![
                styled("Task "@, plain_style()),
                styled(a.task_id, color_style(Color::Cyan)),
                styled(" — "@, dim_style()),
                status_word(a.status),
            ] + route_spans(a.route_count, "  "@) + (if self.run_complete {
                seq![
                    styled(" "@, plain_style()),
                    styled("All agents complete"@, color_style(Color::Green)),
                    styled(" — "@, dim_style()),
                    styled("press q to quit"@, color_style(Color::Cyan)),
                ]
            } else {
                seq![]
            }),
        )
    }

    /// The note at the right of the header that tells which agent is watched.
    pub open spec fn watch_note(self, area: Rect) -> Seq<DrawView> {
        match self.watch_target {
            Some(w) => if self.watch_open && w < self.agents.len() {
                seq![
                    DrawView::Text {
                        area: top_row(area),
                        lines: seq![
                            line_of(
                                seq![
                                    styled("Watching "@, dim_style()),
                                    styled(
                                        self.agents[w as int].task_id,
                                        color_style(Color::Cyan),
                                    ),
                                ],
                            ),
                        ],
                        align: Align::Right,
                    },
                ]
            } else {
                seq![]
            },
            None => seq![],
        }
    }

    /// The focused pane.
    pub open spec fn main_ops(self, area: Rect) -> Seq<DrawView> {
        let a = self.pane();
        let logs = log_area(a, area, composer_height(a));
        seq![line_op(top_row(area), self.header())] + self.watch_note(area) + banner_ops(a, area)
            + log_ops(a, logs) + composer_ops(a, area, logs)
    }

    /// The watched pane.
    pub open spec fn watch_ops(self, area: Rect) -> Seq<DrawView> {
        match self.watch_target {
            Some(w) => if w < self.agents.len() {
                let a = self.agents[w as int];
                seq![
                    line_op(
                        top_row(area),
                        line_of(
                            seq![
                                styled("Watch "@, plain_style()),
                                styled(a.task_id, dim_style()),
                            ] + route_spans(a.route_count, "  "@),
                        ),
                    ),
                ] + banner_ops(a, area) + log_ops(a, log_area(a, area, 0))
            } else {
                seq![]
            },
            None => seq![],
        }
    }

    /// Everything beside the sidebar: the focused pane, and the watched one where there is one.
    pub open spec fn content_ops(self, content: Rect, main: Rect, watch: Rect) -> Seq<DrawView> {
        if self.agents.len() == 0 {
            seq![
                line_op(
                    content.inside(1, 1),
                    line_of(seq![styled("No agents to display"@, dim_style())]),
                ),
            ]
        } else if self.watch_open {
            self.main_ops(main) + self.watch_ops(watch)
        } else {
            self.main_ops(content)
        }
    }

    /// The whole dashboard.
    pub open spec fn all_ops(
        self,
        area: Rect,
        sidebar: Rect,
        content: Rect,
        main: Rect,
        watch: Rect,
    ) -> Seq<DrawView> {
        seq![DrawView::Clear(area)] + self.sidebar_ops(sidebar) + self.content_ops(
            content,
            main,
            watch,
        )
    }

    /// The dashboard after it was drawn: it knows where the logs stand.
    pub open spec fn after_draw(self, content: Rect, main: Rect, watch: Rect) -> DashView {
        if self.agents.len() == 0 {
            DashView { last_main_log_rect: None, last_watch_log_rect: None, ..self }
        } else {
            let a = self.pane();
            let logs = log_area(
                a,
                if self.watch_open {
                    main
                } else {
                    content
                },
                composer_height(a),
            );
            DashView {
                last_main_log_height: logs.height as usize,
                last_main_log_rect: Some(logs),
                last_watch_log_rect: match self.watch_target {
                    Some(w) => if self.watch_open {
                        Some(log_area(self.agents[w as int], watch, 0))
                    } else {
                        None
                    },
                    None => None,
                },
                ..self
            }
        }
    }

    /// The greatest length in bytes of the ids of the first `n` agents.
    pub open spec fn longest_id(self, n: int) -> nat
        decreases n,
    {
        if n <= 0 {
            0
        } else {
            let before = self.longest_id(n - 1);
            let len = encode_utf8(self.agents[n - 1].task_id).len();
            if len > before {
                len
            } else {
                before
            }
        }
    }

    /// The width of the sidebar: room for the longest id, within bounds. The width that is needed
    /// is counted in sixteen bits.
    pub open spec fn sidebar_width(self) -> int {
        let needed = (self.longest_id(self.agents.len() as int) + 14) % 65536;
        if self.agents.len() == 0 || needed < 22 {
            22
        } else if needed > 40 {
            40
        } else {
            needed as int
        }
    }
}

impl DashView {
    /// The columns of the sidebar: its width, as far as ten columns are left for the content.
    pub open spec fn sidebar_share(self, width: int) -> int {
        let room = less(width, 10);
        if self.sidebar_width() < room {
            self.sidebar_width()
        } else {
            room
        }
    }

    /// Where the sidebar stands.
    pub open spec fn sidebar_part(self, area: Rect) -> Rect {
        left_part(area, self.sidebar_share(area.width as int))
    }

    /// What stands beside the sidebar.
    pub open spec fn content_part(self, area: Rect) -> Rect {
        right_part(area, self.sidebar_share(area.width as int))
    }

    /// Where the focused pane stands while the watch is open: in 65 of a hundred columns.
    pub open spec fn main_part(self, area: Rect) -> Rect {
        let content = self.content_part(area);
        left_part(content, (65 * content.width + 50) / 100)
    }

    /// Where the watched pane stands: beside the focused one.
    pub open spec fn watch_part(self, area: Rect) -> Rect {
        let content = self.content_part(area);
        right_part(content, (65 * content.width + 50) / 100)
    }
}

/// `a - b`, or zero.
pub open spec fn less(a: int, b: int) -> int {
    if a < b {
        0
    } else {
        a - b
    }
}

/// The first row of an area.
pub open spec fn top_row(area: Rect) -> Rect {
    Rect::at(area.x as int, area.y as int, area.width as int, 1)
}

/// The rows that the header and the banner of a pane take.
pub open spec fn head_rows(a: PaneView) -> int {
    if a.banner is Some {
        2
    } else {
        1
    }
}

/// The rows that are taken by the guidance that is being written.
pub open spec fn composer_height(a: PaneView) -> int {
    if a.status == AgentStatus::Paused {
        3
    } else {
        0
    }
}

/// The part of a pane that shows the log.
pub open spec fn log_area(a: PaneView, area: Rect, below: int) -> Rect {
    Rect::at(
        area.x as int,
        area.y + head_rows(a),
        area.width as int,
        less(area.height as int, head_rows(a) + below),
    )
}

/// The banner of a pane.
pub open spec fn banner_ops(a: PaneView, area: Rect) -> Seq<DrawView> {
    match a.banner {
        Some(banner) => seq![
            line_op(Rect::at(area.x as int, area.y + 1, area.width as int, 1), banner),
        ],
        None => seq![],
    }
}

/// The log of a pane.
pub open spec fn log_ops(a: PaneView, logs: Rect) -> Seq<DrawView> {
    if logs.height == 0 {
        seq![]
    } else {
        seq![text_op(logs, window(a.log_src.lines(), logs.height as nat, a.scrollback as nat))]
    }
}

/// The prompt above the guidance that is being written.
pub open spec fn prompt(task_id: Seq<char>) -> LineView {
    line_of(
        seq![
            styled("Inject to "@, plain_style()),
            styled(task_id, color_style(Color::Cyan)),
            styled(": "@, dim_style()),
            styled("Enter"@, color_style(Color::Cyan)),
            styled(" send "@, dim_style()),
            styled("Ctrl+J"@, color_style(Color::Cyan)),
            styled(" newline"@, dim_style()),
        ],
    )
}

/// The lines of the guidance that is being written.
pub open spec fn compose_lines(text: Seq<char>) -> Seq<LineView> {
    if text.len() == 0 {
        seq![plain_line(seq![])]
    } else {
        Seq::new(lines(text).len(), |i: int| plain_line(lines(text)[i]))
    }
}

/// The guidance that is being written, below the log.
pub open spec fn composer_ops(a: PaneView, area: Rect, logs: Rect) -> Seq<DrawView> {
    if a.status == AgentStatus::Paused {
        let place = Rect::at(area.x as int, logs.end_row(), area.width as int, 3);
        let body = Rect::at(
            area.x as int,
            logs.end_row() + 1,
            area.width as int,
            less(place.height as int, 1),
        );
        seq![line_op(top_row(place), prompt(a.task_id))] + if body.height == 0 {
            seq![]
        } else {
            seq![text_op(body.inside(1, 0), compose_lines(a.compose))]
        }
    } else {
        seq![]
    }
}

/// Whether an area ends within the screen and leaves room for the rows that a pane needs below its
/// top.
pub open spec fn drawable(area: Rect) -> bool {
    &&& area.x + area.width <= u16::MAX
    &&& area.y + area.height <= u16::MAX
    &&& area.y + 3 <= u16::MAX
}

/// Appends the count of messages sent to and from an agent, where there are any.
fn push_route(spans: &mut Vec<Span>, count: usize, lead: &str)
    ensures
        views(final(spans)@) == views(old(spans)@) + route_spans(count, lead@),
{
    broadcast use lemma_views_push;

    let ghost before = views(spans@);
    if count > 0 {
        spans.push(Span::raw(lead));
        spans.push(Span::colored("↔", Color::Magenta));
        spans.push(Span::raw(" "));
        spans.push(Span::colored(decimal_text(count as u64).as_str(), Color::Cyan));
    }
    assert(views(spans@) =~= before + route_spans(count, lead@));
}

/// A number with spaces before it so that it has at least two characters, and a space after it.
fn index_label(n: u64) -> (r: String)
    ensures
        r@ == index_text(n as nat),
{
    let d = decimal_text(n);
    let mut r = String::new();
    let mut k: usize = d.as_str().unicode_len();
    let ghost len = d@.len();
    proof {
        assert(r@ =~= spaces(0));
    }
    while k < 2
        invariant
            len <= k,
            len < 2 ==> k <= 2,
            len >= 2 ==> k == len,
            r@ == spaces((k - len) as nat),
        decreases 2 - k,
    {
        r.push(' ');
        k += 1;
        assert(r@ =~= spaces((k - len) as nat));
    }
    r.append(d.as_str());
    r.append(" ");
    proof {
        if len >= 2 {
            assert(spaces(0) + d@ =~= d@);
        }
        assert(r@ =~= index_text(n as nat));
    }
    r
}

/// The letter that stands for a status in the sidebar.
fn chip(status: AgentStatus) -> (r: Span)
    ensures
        r@ == status_chip(status),
{
    match status {
        AgentStatus::Queued => Span::raw("Q"),
        AgentStatus::Running => Span::raw("R"),
        AgentStatus::Paused => Span::colored("P", Color::Cyan),
        AgentStatus::Done => Span::colored("D", Color::Green),
        AgentStatus::Error => Span::colored("E", Color::Red),
    }
}

/// The word for a status in the header.
fn word(status: AgentStatus) -> (r: Span)
    ensures
        r@ == status_word(status),
{
    match status {
        AgentStatus::Queued => Span::raw("Queued"),
        AgentStatus::Running => Span::raw("Running"),
        AgentStatus::Paused => Span::colored("Paused", Color::Cyan),
        AgentStatus::Done => Span::colored("Done", Color::Green),
        AgentStatus::Error => Span::colored("Error", Color::Red),
    }
}

/// A row of an area.
fn row(area: Rect, y: u16) -> (r: Rect)
    ensures
        r == Rect::at(area.x as int, y as int, area.width as int, 1),
{
    Rect::new(area.x, y, area.width, 1)
}

/// Appends one drawing step.
fn push_op(ops: &mut Vec<DrawOp>, op: DrawOp)
    ensures
        views(final(ops)@) == views(old(ops)@) + seq![op@],
{
    broadcast use lemma_views_push;

    let ghost before = views(ops@);
    ops.push(op);
    assert(views(ops@) =~= before + seq![op@]);
}

/// Appends one line of one span.
fn push_note(ops: &mut Vec<DrawOp>, area: Rect, text: &str)
    ensures
        views(final(ops)@) == views(old(ops)@) + seq![
            line_op(area, line_of(seq![styled(text@, dim_style())])),
        ],
{
    push_op(ops, DrawOp::line(area, Line::of(Span::dim(text)), Align::Left));
}

impl DashboardState {
    /// The line for agent `i` in the sidebar.
    fn agent_line(&self, i: usize) -> (r: Line)
        requires
            i < self.agents@.len(),
        ensures
            r@ == self@.sidebar_line(i as int),
    {
        broadcast use lemma_views_push;

        assert(i < self.agents.len());
        let a = &self.agents[i];
        let mut spans: Vec<Span> = Vec::new();
        spans.push(Span::colored(index_label(i as u64 + 1).as_str(), Color::Cyan));
        spans.push(Span::raw("["));
        spans.push(chip(a.status));
        spans.push(Span::raw("] "));
        spans.push(Span::raw(a.task_id.as_str()));
        push_route(&mut spans, a.route_count, " ");
        let watched = match self.watch_target {
            Some(w) => self.watch_open && w == i,
            None => false,
        };
        if watched {
            spans.push(Span::raw(" "));
            spans.push(Span::dim("(watch)"));
        }
        let r = Line { spans, bold: i == self.focused };
        proof {
            assert(self@.agents[i as int] == a@);
            assert(r@.spans =~= self@.sidebar_line(i as int).spans);
        }
        r
    }

    /// Draws the sidebar.
    fn render_sidebar(&self, area: Rect, ops: &mut Vec<DrawOp>)
        requires
            drawable(area),
            area.x < u16::MAX,
        ensures
            views(final(ops)@) == views(old(ops)@) + self@.sidebar_ops(area),
    {
        let ghost before = views(ops@);
        push_op(ops, DrawOp::line(row(area, area.y), Line::of(Span::bold(" Agents ")), Align::Left));
        if self.agents.len() == 0 {
            push_note(ops, area.inner(1, 1), "No agents");
            assert(views(ops@) =~= before + self@.sidebar_ops(area));
            return;
        }
        let ghost titled = views(ops@);
        let bottom: u16 = area.bottom();
        let width: u16 = if area.width < 2 {
            0
        } else {
            area.width - 2
        };
        let mut y: u16 = area.y + 1;
        let mut i: usize = 0;
        let ghost rows = Seq::new(self@.sidebar_rows(area), |k: int| self@.sidebar_row(area, k));
        proof {
            assert(titled + rows.take(0) =~= titled);
        }
        while i < self.agents.len() && y < bottom
            invariant
                drawable(area),
                area.x < u16::MAX,
                bottom == area.end_row(),
                width == less(area.width as int, 2),
                i <= self.agents@.len(),
                self@.agents.len() == self.agents@.len(),
                y == area.y + 1 + i,
                i <= rows.len(),
                rows == Seq::new(self@.sidebar_rows(area), |k: int| self@.sidebar_row(area, k)),
                views(ops@) == titled + rows.take(i as int),
            decreases self.agents@.len() - i,
        {
            let line = self.agent_line(i);
            let ghost had = views(ops@);
            push_op(ops, DrawOp::line(Rect::new(area.x + 1, y, width, 1), line, Align::Left));
            proof {
                assert(i < rows.len());
                assert(rows[i as int] == self@.sidebar_row(area, i as int));
                assert(rows.take(i + 1) =~= rows.take(i as int).push(rows[i as int]));
                assert(views(ops@) =~= titled + rows.take(i + 1));
            }
            y += 1;
            i += 1;
        }
        proof {
            assert(rows.take(i as int) =~= rows);
            assert(views(ops@) =~= before + self@.sidebar_ops(area));
        }
    }

    /// The header of the focused pane.
    fn header_line(&self) -> (r: Line)
        requires
            self@.wf(),
            self@.agents.len() > 0,
        ensures
            r@ == self@.header(),
    {
        broadcast use lemma_views_push;

        let a = &self.agents[self.focused];
        let mut spans: Vec<Span> = Vec::new();
        spans.push(Span::raw("Task "));
        spans.push(Span::colored(a.task_id.as_str(), Color::Cyan));
        spans.push(Span::dim(" — "));
        spans.push(word(a.status));
        push_route(&mut spans, a.route_count, "  ");
        if self.run_complete {
            spans.push(Span::raw(" "));
            spans.push(Span::colored("All agents complete", Color::Green));
            spans.push(Span::dim(" — "));
            spans.push(Span::colored("press q to quit", Color::Cyan));
        }
        let r = Line { spans, bold: false };
        assert(r@.spans =~= self@.header().spans);
        r
    }

    /// Notes at the right of the header which agent is watched.
    fn render_watch_note(&self, area: Rect, ops: &mut Vec<DrawOp>)
        requires
            self@.wf(),
        ensures
            views(final(ops)@) == views(old(ops)@) + self@.watch_note(area),
    {
        broadcast use lemma_views_push;

        let ghost before = views(ops@);
        if let Some(w) = self.watch_target {
            if self.watch_open {
                let mut spans: Vec<Span> = Vec::new();
                spans.push(Span::dim("Watching "));
                spans.push(Span::colored(self.agents[w].task_id.as_str(), Color::Cyan));
                let line = Line { spans, bold: false };
                proof {
                    assert(line@.spans =~= seq![
                        styled("Watching "@, dim_style()),
                        styled(self@.agents[w as int].task_id, color_style(Color::Cyan)),
                    ]);
                }
                push_op(ops, DrawOp::line(row(area, area.y), line, Align::Right));
                return;
            }
        }
        assert(views(ops@) =~= before + Seq::<DrawView>::empty());
    }

    /// Draws the focused pane.
    fn render_main(&mut self, area: Rect, ops: &mut Vec<DrawOp>)
        requires
            old(self)@.wf(),
            old(self)@.agents.len() > 0,
            drawable(area),
        ensures
            views(final(ops)@) == views(old(ops)@) + old(self)@.main_ops(area),
            final(self)@ == (DashView {
                last_main_log_height: log_area(
                    old(self)@.pane(),
                    area,
                    composer_height(old(self)@.pane()),
                ).height as usize,
                last_main_log_rect: Some(
                    log_area(old(self)@.pane(), area, composer_height(old(self)@.pane())),
                ),
                ..old(self)@
            }),
    {
        let ghost before = views(ops@);
        push_op(ops, DrawOp::line(row(area, area.y), self.header_line(), Align::Left));
        self.render_watch_note(area, ops);
        let a = &self.agents[self.focused];
        render_banner(a, area, ops);
        let composer_h: u16 = if a.status == AgentStatus::Paused {
            3
        } else {
            0
        };
        let logs: Rect = logs_rect(a, area, composer_h);
        render_logs(a, logs, ops);
        render_composer(a, area, logs, ops);
        proof {
            assert(views(ops@) =~= before + self@.main_ops(area));
        }
        self.last_main_log_height = logs.height as usize;
        self.last_main_log_rect = Some(logs);
    }

    /// Draws the watched pane.
    fn render_watch(&mut self, area: Rect, ops: &mut Vec<DrawOp>)
        requires
            old(self)@.wf(),
            drawable(area),
        ensures
            views(final(ops)@) == views(old(ops)@) + old(self)@.watch_ops(area),
            final(self)@ == (DashView {
                last_watch_log_rect: match old(self)@.watch_target {
                    Some(w) => Some(log_area(old(self)@.agents[w as int], area, 0)),
                    None => old(self)@.last_watch_log_rect,
                },
                ..old(self)@
            }),
    {
        broadcast use lemma_views_push;

        let ghost before = views(ops@);
        let w: usize = match self.watch_target {
            Some(w) => w,
            None => {
                assert(views(ops@) =~= before + Seq::<DrawView>::empty());
                return;
            },
        };
        let a = &self.agents[w];
        let mut spans: Vec<Span> = Vec::new();
        spans.push(Span::raw("Watch "));
        spans.push(Span::dim(a.task_id.as_str()));
        push_route(&mut spans, a.route_count, "  ");
        let header = Line { spans, bold: false };
        proof {
            assert(header@.spans =~= seq![
                styled("Watch "@, plain_style()),
                styled(a@.task_id, dim_style()),
            ] + route_spans(a@.route_count, "  "@));
        }
        push_op(ops, DrawOp::line(row(area, area.y), header, Align::Left));
        render_banner(a, area, ops);
        let logs: Rect = logs_rect(a, area, 0);
        render_logs(a, logs, ops);
        proof {
            assert(self@.agents[w as int] == a@);
            assert(views(ops@) =~= before + self@.watch_ops(area));
        }
        self.last_watch_log_rect = Some(logs);
    }

    /// Draws the dashboard into given columns: the sidebar, and beside it the content, which is
    /// shared by the focused pane and the watched one where the watch is open.
    pub fn draw(
        &mut self,
        area: Rect,
        sidebar: Rect,
        content: Rect,
        main: Rect,
        watch: Rect,
    ) -> (ops: Vec<DrawOp>)
        requires
            old(self)@.wf(),
            drawable(sidebar),
            sidebar.x < u16::MAX,
            drawable(content),
            drawable(main),
            drawable(watch),
        ensures
            views(ops@) == old(self)@.all_ops(area, sidebar, content, main, watch),
            final(self)@ == old(self)@.after_draw(content, main, watch),
            final(self)@.wf(),
    {
        let mut ops: Vec<DrawOp> = Vec::new();
        let ghost start = old(self)@;
        push_op(&mut ops, DrawOp::Clear(area));
        self.last_main_log_rect = None;
        self.last_watch_log_rect = None;
        proof {
            assert(views(ops@) =~= seq![DrawView::Clear(area)]);
            assert(self@.sidebar_ops(sidebar) =~= start.sidebar_ops(sidebar)) by {
                assert forall|i: int| #[trigger] self@.sidebar_row(sidebar, i) == start.sidebar_row(
                    sidebar,
                    i,
                ) by {
                    assert(self@.sidebar_line(i) == start.sidebar_line(i));
                }
            }
        }
        self.render_sidebar(sidebar, &mut ops);
        if self.agents.len() == 0 {
            push_note(&mut ops, content.inner(1, 1), "No agents to display");
            proof {
                assert(views(ops@) =~= start.all_ops(area, sidebar, content, main, watch));
            }
            return ops;
        }
        if self.watch_open {
            self.render_main(main, &mut ops);
            self.render_watch(watch, &mut ops);
        } else {
            self.render_main(content, &mut ops);
        }
        proof {
            assert(views(ops@) =~= start.all_ops(area, sidebar, content, main, watch));
        }
        ops
    }

    /// The width of the sidebar.
    fn sidebar_columns(&self) -> (r: u16)
        ensures
            r == self@.sidebar_width(),
    {
        let mut longest: usize = 0;
        let mut i: usize = 0;
        while i < self.agents.len()
            invariant
                i <= self.agents@.len(),
                longest == self@.longest_id(i as int),
            decreases self.agents@.len() - i,
        {
            let len: usize = self.agents[i].task_id.as_str().as_bytes().len();
            proof {
                assert(self@.agents[i as int].task_id == self.agents@[i as int].task_id@);
            }
            if len > longest {
                longest = len;
            }
            i += 1;
        }
        let needed: u128 = (longest as u128 + 14) % 65536;
        if self.agents.len() == 0 || needed < 22 {
            22
        } else if needed > 40 {
            40
        } else {
            needed as u16
        }
    }

    /// Draws the dashboard into an area. The sidebar has a width that fits its agents; the focused
    /// pane takes about two thirds of the rest where the watch is open.
    pub fn render(&mut self, area: Rect) -> (ops: Vec<DrawOp>)
        requires
            old(self)@.wf(),
            drawable(area),
            area.x < u16::MAX,
        ensures
            views(ops@) == old(self)@.all_ops(
                area,
                old(self)@.sidebar_part(area),
                old(self)@.content_part(area),
                old(self)@.main_part(area),
                old(self)@.watch_part(area),
            ),
            final(self)@ == old(self)@.after_draw(
                old(self)@.content_part(area),
                old(self)@.main_part(area),
                old(self)@.watch_part(area),
            ),
            final(self)@.wf(),
    {
        let width: u16 = self.sidebar_columns();
        let (sidebar, content) = split_columns(area, Extent::Length(width), Extent::AtLeast(10));
        let (main, watch) = split_columns(
            content,
            Extent::Percentage(65),
            Extent::Percentage(35),
        );
        self.draw(area, sidebar, content, main, watch)
    }

    /// The agents whose logs need older lines to be shown as they are scrolled, each with how many
    /// more: the focused one, and the watched one. They are paged in, and the dashboard is drawn
    /// again.
    pub fn older_wanted(&self) -> (r: Vec<(usize, usize)>)
        ensures
            r@ == self.want_of(Some(self.focused), self.last_main_log_rect) + self.want_of(
                self.watch_target,
                self.last_watch_log_rect,
            ),
    {
        let mut r: Vec<(usize, usize)> = Vec::new();
        self.push_want(Some(self.focused), self.last_main_log_rect, &mut r);
        self.push_want(self.watch_target, self.last_watch_log_rect, &mut r);
        r
    }

    /// How many older lines the log of an agent needs to fill an area as it is scrolled.
    pub open spec fn want_of(&self, agent: Option<usize>, area: Option<Rect>) -> Seq<
        (usize, usize),
    > {
        match (agent, area) {
            (Some(i), Some(r)) => if i < self.agents@.len() && r.height > 0 {
                let a = self.agents@[i as int];
                let beyond = less(a.log_src.lines().len() as int, r.height as int);
                if a.scrollback > beyond {
                    seq![(i, (a.scrollback - beyond) as usize)]
                } else {
                    seq![]
                }
            } else {
                seq![]
            },
            _ => seq![],
        }
    }

    /// Appends how many older lines the log of an agent needs, where it needs any.
    fn push_want(&self, agent: Option<usize>, area: Option<Rect>, r: &mut Vec<(usize, usize)>)
        ensures
            final(r)@ == old(r)@ + self.want_of(agent, area),
    {
        let ghost before = r@;
        if let (Some(i), Some(area)) = (agent, area) {
            if i < self.agents.len() {
                let a = &self.agents[i];
                let n: usize = a.log_src.older_needed(area.height as usize, a.scrollback);
                if n > 0 {
                    r.push((i, n));
                }
            }
        }
        assert(r@ =~= before + self.want_of(agent, area));
    }
}

/// The part of a pane that shows the log.
fn logs_rect(a: &AgentPaneState, area: Rect, below: u16) -> (r: Rect)
    requires
        drawable(area),
        below <= 3,
    ensures
        r == log_area(a@, area, below as int),
{
    let head: u16 = if a.banner.is_some() {
        2
    } else {
        1
    };
    let height: u16 = if area.height < head + below {
        0
    } else {
        area.height - (head + below)
    };
    Rect::new(area.x, area.y + head, area.width, height)
}

/// Draws the banner of a pane.
fn render_banner(a: &AgentPaneState, area: Rect, ops: &mut Vec<DrawOp>)
    requires
        drawable(area),
    ensures
        views(final(ops)@) == views(old(ops)@) + banner_ops(a@, area),
{
    let ghost before = views(ops@);
    match &a.banner {
        Some(line) => {
            push_op(ops, DrawOp::line(row(area, area.y + 1), line.clone(), Align::Left));
        },
        None => {
            assert(views(ops@) =~= before + Seq::<DrawView>::empty());
        },
    }
}

/// Draws the log of a pane.
fn render_logs(a: &AgentPaneState, area: Rect, ops: &mut Vec<DrawOp>)
    ensures
        views(final(ops)@) == views(old(ops)@) + log_ops(a@, area),
{
    let ghost before = views(ops@);
    if area.height == 0 {
        assert(views(ops@) =~= before + Seq::<DrawView>::empty());
        return;
    }
    let page = a.log_src.visible_lines(area.height as usize, a.scrollback);
    push_op(ops, DrawOp::Text { area, lines: page, align: Align::Left });
}

/// Draws the guidance that is being written.
fn render_composer(a: &AgentPaneState, area: Rect, logs: Rect, ops: &mut Vec<DrawOp>)
    requires
        drawable(area),
        logs == log_area(a@, area, composer_height(a@)),
    ensures
        views(final(ops)@) == views(old(ops)@) + composer_ops(a@, area, logs),
{
    broadcast use lemma_views_push;

    let ghost before = views(ops@);
    if a.status != AgentStatus::Paused {
        assert(views(ops@) =~= before + Seq::<DrawView>::empty());
        return;
    }
    let place: Rect = Rect::new(area.x, logs.bottom(), area.width, 3);
    let mut spans: Vec<Span> = Vec::new();
    spans.push(Span::raw("Inject to "));
    spans.push(Span::colored(a.task_id.as_str(), Color::Cyan));
    spans.push(Span::dim(": "));
    spans.push(Span::colored("Enter", Color::Cyan));
    spans.push(Span::dim(" send "));
    spans.push(Span::colored("Ctrl+J", Color::Cyan));
    spans.push(Span::dim(" newline"));
    let header = Line { spans, bold: false };
    proof {
        assert(header@.spans =~= prompt(a@.task_id).spans);
    }
    push_op(ops, DrawOp::line(row(place, place.y), header, Align::Left));
    let height: u16 = if place.height < 1 {
        0
    } else {
        place.height - 1
    };
    let body: Rect = Rect::new(area.x, place.y + 1, area.width, height);
    if body.height > 0 {
        let text = written_lines(a.compose.as_str());
        push_op(ops, DrawOp::Text { area: body.inner(1, 0), lines: text, align: Align::Left });
    }
    assert(views(ops@) =~= before + composer_ops(a@, area, logs));
}

/// The lines of the guidance that is being written.
fn written_lines(text: &str) -> (r: Vec<Line>)
    ensures
        views(r@) == compose_lines(text@),
{
    let mut r: Vec<Line> = Vec::new();
    if text.is_empty() {
        r.push(Line::raw(""));
        proof {
            reveal_strlit("");
            assert(""@ =~= seq![]);
            assert(views(r@) =~= compose_lines(text@));
        }
        return r;
    }
    let ls = lines_of(text);
    let mut i: usize = 0;
    while i < ls.len()
        invariant
            i <= ls@.len(),
            r@.len() == i,
            forall|j: int| 0 <= j < i ==> (#[trigger] r@[j])@ == plain_line(ls@[j]@),
        decreases ls@.len() - i,
    {
        r.push(Line::raw(ls[i].as_str()));
        i += 1;
    }
    proof {
        assert forall|j: int| 0 <= j < r@.len() implies views(r@)[j] == plain_line(
            lines(text@)[j],
        ) by {
            assert(views(ls@)[j] == ls@[j]@);
        }
        assert(views(r@) =~= compose_lines(text@));
    }
    r
}

/// Law: the sidebar has a row for each agent that it has room for, in their order below its title,
/// and each row lies in the sidebar.
pub proof fn law_sidebar_rows(v: DashView, area: Rect, i: int)
    requires
        drawable(area),
        v.agents.len() > 0,
        0 <= i < v.agents.len(),
        i + 1 < area.height,
        area.width >= 2,
    ensures
        v.sidebar_ops(area).len() > i + 1,
        v.sidebar_ops(area)[i + 1] matches DrawView::Text { area: row, lines, .. } && {
            &&& lines.len() == 1
            &&& lines[0] == v.sidebar_line(i)
            &&& row.x == area.x + 1
            &&& row.y == area.y + 1 + i
            &&& row.width == area.width - 2
            &&& row.height == 1
        },
        v.sidebar_ops(area).len() <= v.agents.len() + 1,
        v.sidebar_ops(area).len() <= area.height,
{
    let rows = Seq::new(v.sidebar_rows(area), |k: int| v.sidebar_row(area, k));
    assert(v.sidebar_ops(area)[i + 1] == rows[i]);
}

/// Law: the row of an agent shows its number, the letter for its status, its task, the count of its
/// messages where there are any, and whether it is watched. The row of the focused agent, and no
/// other, is bold.
pub proof fn law_sidebar_line(v: DashView, i: int)
    requires
        0 <= i < v.agents.len(),
    ensures
        ({
            let a = v.agents[i];
            let l = v.sidebar_line(i);
            let watched = v.watch_open && v.watch_target == Some(i as usize) && i <= usize::MAX;
            &&& l.bold <==> v.focused == i
            &&& l.spans[0].text == index_text((i + 1) as nat)
            &&& l.spans[4].text == a.task_id
            &&& a.status == AgentStatus::Queued ==> l.spans[2].text == "Q"@
            &&& a.status == AgentStatus::Running ==> l.spans[2].text == "R"@
            &&& a.status == AgentStatus::Paused ==> l.spans[2].text == "P"@
            &&& a.status == AgentStatus::Done ==> l.spans[2].text == "D"@
            &&& a.status == AgentStatus::Error ==> l.spans[2].text == "E"@
            &&& a.route_count > 0 ==> l.spans[8].text == decimal(a.route_count as nat)
            &&& watched ==> l.spans.last().text == "(watch)"@
            &&& l.spans.len() == 5 + (if a.route_count > 0 {
                4int
            } else {
                0int
            }) + (if watched {
                2int
            } else {
                0int
            })
        }),
{
}

/// Law: the number of an agent in the sidebar is counted from one, right-aligned in two columns.
pub proof fn law_index_text(n: nat)
    ensures
        n < 10 ==> index_text(n) == seq![' '] + decimal(n) + seq![' '],
        n >= 10 ==> index_text(n) == decimal(n) + seq![' '],
{
    reveal_strlit(" ");
    assert(" "@ =~= seq![' ']);
    if n < 10 {
        assert(decimal(n).len() == 1);
        assert(spaces(1) =~= seq![' ']);
    } else {
        law_decimal(n / 10);
        assert(decimal(n).len() >= 2);
    }
}

/// Law: the header names the task of the focused agent and its status, counts its messages where there
/// are any, and tells how to quit once all agents have ended, and only then.
pub proof fn law_header(v: DashView)
    requires
        v.wf(),
        v.agents.len() > 0,
    ensures
        ({
            let a = v.agents[v.focused as int];
            let l = v.header();
            let n = if a.route_count > 0 {
                4int
            } else {
                0int
            };
            &&& l.spans[1].text == a.task_id
            &&& a.status == AgentStatus::Queued ==> l.spans[3].text == "Queued"@
            &&& a.status == AgentStatus::Running ==> l.spans[3].text == "Running"@
            &&& a.status == AgentStatus::Paused ==> l.spans[3].text == "Paused"@
            &&& a.status == AgentStatus::Done ==> l.spans[3].text == "Done"@
            &&& a.status == AgentStatus::Error ==> l.spans[3].text == "Error"@
            &&& a.route_count > 0 ==> l.spans[7].text == decimal(a.route_count as nat)
            &&& v.run_complete ==> l.spans.len() == n + 8 && l.spans[n + 5].text
                == "All agents complete"@ && l.spans[n + 7].text == "press q to quit"@
            &&& !v.run_complete ==> l.spans.len() == n + 4
        }),
{
}

/// Law: the log of a pane stands below its header and its banner, and above the composer, and takes
/// all rows between them.
pub proof fn law_log_area(a: PaneView, area: Rect, below: int)
    requires
        drawable(area),
        0 <= below <= 3,
    ensures
        ({
            let logs = log_area(a, area, below);
            let head = if a.banner is Some {
                2int
            } else {
                1int
            };
            &&& logs.x == area.x
            &&& logs.width == area.width
            &&& logs.y == area.y + head
            &&& area.height >= head + below ==> logs.height + head + below == area.height
            &&& area.height < head + below ==> logs.height == 0
        }),
{
}

/// Law: the composer is shown exactly for a paused agent: a prompt that names it, below the log, and
/// what was written of the guidance.
pub proof fn law_composer(a: PaneView, area: Rect, logs: Rect)
    requires
        drawable(area),
        logs == log_area(a, area, composer_height(a)),
        area.height >= 5,
    ensures
        ({
            let ops = composer_ops(a, area, logs);
            &&& a.status != AgentStatus::Paused ==> ops.len() == 0
            &&& a.status == AgentStatus::Paused ==> {
                &&& ops.len() == 2
                &&& ops[0] matches DrawView::Text { area: r, lines, .. } && {
                    &&& r.y == area.y + area.height - 3
                    &&& r.height == 1
                    &&& lines.len() == 1
                    &&& lines[0].spans[1].text == a.task_id
                }
                &&& ops[1] matches DrawView::Text { area: r, lines: written, .. } && {
                    &&& area.width >= 2 ==> r.y == area.y + area.height - 2 && r.height == 2
                    &&& a.compose.len() == 0 ==> written == seq![plain_line(Seq::empty())]
                    &&& a.compose.len() > 0 ==> written.len() == lines(a.compose).len()
                    &&& forall|k: int|
                        a.compose.len() > 0 && 0 <= k < written.len() ==> #[trigger] written[k]
                            == plain_line(lines(a.compose)[k])
                }
            }
        }),
{
    assert(seq![plain_line(seq![])] =~= seq![plain_line(Seq::empty())]);
}

/// The longest id is at least as long as each of those counted.
proof fn lemma_longest(v: DashView, n: int, i: int)
    requires
        0 <= i < n <= v.agents.len(),
    ensures
        encode_utf8(v.agents[i].task_id).len() <= v.longest_id(n),
        exists|k: int|
            0 <= k < n && v.longest_id(n) == encode_utf8((#[trigger] v.agents[k]).task_id).len(),
    decreases n,
{
    if n == 1 {
        assert(v.longest_id(0) == 0);
        assert(v.longest_id(1) == encode_utf8(v.agents[0].task_id).len());
    } else {
        let j = if i < n - 1 {
            i
        } else {
            0
        };
        lemma_longest(v, n - 1, j);
        let k = choose|k: int|
            0 <= k < n - 1 && v.longest_id(n - 1) == encode_utf8(
                (#[trigger] v.agents[k]).task_id,
            ).len();
        if v.longest_id(n) == v.longest_id(n - 1) {
            assert(v.longest_id(n) == encode_utf8(v.agents[k].task_id).len());
        } else {
            assert(v.longest_id(n) == encode_utf8(v.agents[n - 1].task_id).len());
        }
    }
}

/// Law: the sidebar is between 22 and 40 columns wide, and has room for fourteen columns besides the
/// longest id in between.
pub proof fn law_sidebar_width(v: DashView, i: int)
    requires
        0 <= i < v.agents.len(),
        forall|k: int|
            0 <= k < v.agents.len() ==> encode_utf8((#[trigger] v.agents[k]).task_id).len() <= 60000,
    ensures
        22 <= v.sidebar_width() <= 40,
        v.sidebar_width() == 40 || v.sidebar_width() >= encode_utf8(v.agents[i].task_id).len() + 14,
        v.sidebar_width() == 22 || v.sidebar_width() == 40 || exists|k: int|
            0 <= k < v.agents.len() && v.sidebar_width() == encode_utf8(
                (#[trigger] v.agents[k]).task_id,
            ).len() + 14,
{
    lemma_longest(v, v.agents.len() as int, i);
    let k = choose|k: int|
        0 <= k < v.agents.len() && v.longest_id(v.agents.len() as int) == encode_utf8(
            (#[trigger] v.agents[k]).task_id,
        ).len();
    assert(encode_utf8(v.agents[k].task_id).len() <= 60000);
}

/// Law: the sidebar and what stands beside it share the area without gaps, and ten columns are left
/// beside it where the area has them. So do the focused and the watched pane, of which the focused
/// one has 65 of a hundred columns, rounded.
pub proof fn law_columns(v: DashView, area: Rect)
    requires
        area.x + area.width <= u16::MAX,
    ensures
        ({
            let side = v.sidebar_part(area);
            let content = v.content_part(area);
            let main = v.main_part(area);
            let watch = v.watch_part(area);
            &&& side.x == area.x && side.y == area.y && side.height == area.height
            &&& content.x == side.x + side.width && content.y == area.y && content.height
                == area.height
            &&& side.width + content.width == area.width
            &&& area.width >= 10 ==> content.width >= 10
            &&& area.width >= 50 ==> side.width == v.sidebar_width()
            &&& main.x == content.x && main.y == area.y && main.height == area.height
            &&& watch.x == main.x + main.width && watch.y == area.y && watch.height == area.height
            &&& main.width + watch.width == content.width
            &&& -50 <= 100 * main.width - 65 * content.width <= 50
        }),
{
    let w = v.content_part(area).width as int;
    assert(0 <= (65 * w + 50) / 100 <= w) by (nonlinear_arith)
        requires
            0 <= w <= 65535,
    ;
}

/// Law: the watched pane names the watched agent and shows its log; nothing is drawn for it where no
/// agent is watched.
pub proof fn law_watched_pane(v: DashView, area: Rect)
    requires
        drawable(area),
    ensures
        v.watch_target is None ==> v.watch_ops(area).len() == 0,
        v.watch_target matches Some(w) ==> (w < v.agents.len() ==> {
            let a = v.agents[w as int];
            let ops = v.watch_ops(area);
            let head = if a.banner is Some {
                2int
            } else {
                1int
            };
            &&& ops.len() > 0
            &&& ops[0] matches DrawView::Text { area: r, lines, .. } && r.y == area.y && r.height
                == 1 && lines.len() == 1 && lines[0].spans[0].text == "Watch "@
                && lines[0].spans[1].text == a.task_id
            &&& a.banner matches Some(b) ==> (ops[1] matches DrawView::Text { area: r, lines, .. }
                && r.y == area.y + 1 && lines == seq![b])
            &&& area.height > head ==> ops.len() == head + 1 && (
            ops[head] matches DrawView::Text { area: r, lines, .. } && r.y == area.y + head
                && r.height == area.height - head && lines == window(
                a.log_src.lines(),
                r.height as nat,
                a.scrollback as nat,
            ))
        }),
{
}

/// Law: the focused pane shows the header in its first row, then the watched agent's name where the
/// watch is open, the banner where there is one, and the log; what it remembers as the place of the
/// log is where the log was drawn.
pub proof fn law_focused_pane(v: DashView, content: Rect, main: Rect, watch: Rect)
    requires
        v.wf(),
        v.agents.len() > 0,
        drawable(content),
        drawable(main),
    ensures
        ({
            let a = v.agents[v.focused as int];
            let area = if v.watch_open {
                main
            } else {
                content
            };
            let ops = v.content_ops(content, main, watch);
            let after = v.after_draw(content, main, watch);
            &&& ops.len() > 0
            &&& ops[0] matches DrawView::Text { area: r, lines, .. } && r.y == area.y && lines
                == seq![v.header()]
            &&& after.last_main_log_rect matches Some(logs) && {
                &&& logs.height == after.last_main_log_height
                &&& logs.x == area.x && logs.width == area.width
                &&& logs.height > 0 ==> ops.contains(
                    text_op(
                        logs,
                        window(a.log_src.lines(), logs.height as nat, a.scrollback as nat),
                    ),
                )
            }
            &&& after == (DashView {
                last_main_log_height: after.last_main_log_height,
                last_main_log_rect: after.last_main_log_rect,
                last_watch_log_rect: after.last_watch_log_rect,
                ..v
            })
            &&& after.last_watch_log_rect is Some <==> v.watch_open && v.watch_target is Some
        }),
{
    let a = v.agents[v.focused as int];
    let area = if v.watch_open {
        main
    } else {
        content
    };
    let ops = v.content_ops(content, main, watch);
    let logs = log_area(a, area, composer_height(a));
    let head = seq![line_op(top_row(area), v.header())] + v.watch_note(area) + banner_ops(a, area);
    let mine = head + log_ops(a, logs) + composer_ops(a, area, logs);
    assert(v.main_ops(area) =~= mine);
    assert(ops[0] == mine[0]);
    if logs.height > 0 {
        let op = text_op(
            logs,
            window(a.log_src.lines(), logs.height as nat, a.scrollback as nat),
        );
        assert(log_ops(a, logs)[0] == op);
        assert(mine[head.len() as int] == op);
        assert(ops[head.len() as int] == op);
    }
}

/// Law: the note about the watched agent stands at the right of the header and names that agent, while
/// the watch is open.
pub proof fn law_watch_note(v: DashView, area: Rect)
    requires
        v.wf(),
    ensures
        v.watch_note(area).len() == (if v.watch_open && v.watch_target is Some {
            1int
        } else {
            0int
        }),
        v.watch_open ==> (v.watch_target matches Some(w) ==> (
        v.watch_note(area)[0] matches DrawView::Text { lines, align, .. } && align == Align::Right
            && lines.len() == 1 && lines[0].spans[0].text == "Watching "@ && lines[0].spans[1].text
            == v.agents[w as int].task_id)),
{
}

/// Law: without agents the dashboard says so, beside the sidebar and in it.
pub proof fn law_no_agents(v: DashView, content: Rect, main: Rect, watch: Rect, side: Rect)
    requires
        v.agents.len() == 0,
    ensures
        v.content_ops(content, main, watch).len() == 1,
        v.content_ops(content, main, watch)[0] matches DrawView::Text { lines, .. } && lines.len()
            == 1 && lines[0].spans[0].text == "No agents to display"@,
        v.sidebar_ops(side).len() == 2,
        v.sidebar_ops(side)[1] matches DrawView::Text { lines, .. } && lines.len() == 1
            && lines[0].spans[0].text == "No agents"@,
        v.after_draw(content, main, watch).last_main_log_rect is None,
        v.after_draw(content, main, watch).last_watch_log_rect is None,
{
}

/// Law: older lines are wanted for the focused agent where its log, as it was drawn, has fewer lines
/// than it is scrolled back by and shows: as many as it lacks.
pub proof fn law_older_wanted(
    d: &DashboardState,
    r: Vec<(usize, usize)>,
    logs: Rect,
)
    requires
        call_ensures(DashboardState::older_wanted, (d,), r),
        d.focused < d.agents@.len(),
        d.last_main_log_rect == Some(logs),
        logs.height > 0,
        d.watch_target is None,
    ensures
        ({
            let a = d.agents@[d.focused as int];
            let n = a.log_src.lines().len();
            &&& n >= logs.height + a.scrollback ==> r@.len() == 0
            &&& logs.height <= n < logs.height + a.scrollback ==> r@.len() == 1 && r@[0].0
                == d.focused && n + r@[0].1 == logs.height + a.scrollback
            &&& n < logs.height && a.scrollback > 0 ==> r@.len() == 1 && r@[0] == (
                d.focused,
                a.scrollback,
            )
        }),
{
}

/// Law: the dashboard is drawn from the back to the front: the area is blanked, then comes the sidebar,
/// then what stands beside it. Drawing changes nothing but what is known of the places of the logs.
pub proof fn law_drawn(d: &mut DashboardState, area: Rect, ops: Vec<DrawOp>)
    requires
        call_ensures(DashboardState::render, (d, area), ops),
        old(d)@.wf(),
    ensures
        ({
            let v = old(d)@;
            let side = v.sidebar_ops(v.sidebar_part(area));
            let content = v.content_ops(
                v.content_part(area),
                v.main_part(area),
                v.watch_part(area),
            );
            &&& ops@.len() == 1 + side.len() + content.len()
            &&& ops@[0]@ == DrawView::Clear(area)
            &&& forall|i: int| 0 <= i < side.len() ==> ops@[1 + i]@ == #[trigger] side[i]
            &&& forall|i: int|
                0 <= i < content.len() ==> ops@[1 + side.len() + i]@ == #[trigger] content[i]
        }),
        final(d).focused == old(d).focused,
        final(d).watch_open == old(d).watch_open,
        final(d).watch_target == old(d).watch_target,
        final(d)@.agents == old(d)@.agents,
        final(d).run_complete == old(d).run_complete,
{
    let v = old(d)@;
    let all = views(ops@);
    let side = v.sidebar_ops(v.sidebar_part(area));
    let content = v.content_ops(v.content_part(area), v.main_part(area), v.watch_part(area));
    assert(all.len() == ops@.len());
    assert(all[0] == ops@[0]@);
    assert forall|i: int| 0 <= i < side.len() implies ops@[1 + i]@ == #[trigger] side[i] by {
        assert(all[1 + i] == side[i]);
    }
    assert forall|i: int| 0 <= i < content.len() implies ops@[1 + side.len() + i]@
        == #[trigger] content[i] by {
        assert(all[1 + side.len() + i] == content[i]);
    }
    let w = final(d)@;
    assert(w.focused == final(d).focused && w.watch_open == final(d).watch_open && w.watch_target
        == final(d).watch_target && w.run_complete == final(d).run_complete);
}

/// Law: the prompt of the composer names the task, and tells which keys send and break the line.
pub proof fn law_prompt(task_id: Seq<char>)
    ensures
        prompt(task_id).spans.len() == 7,
        prompt(task_id).spans[0].text == "Inject to "@,
        prompt(task_id).spans[1].text == task_id,
        prompt(task_id).spans[3].text == "Enter"@,
        prompt(task_id).spans[4].text == " send "@,
        prompt(task_id).spans[5].text == "Ctrl+J"@,
        prompt(task_id).spans[6].text == " newline"@,
{
}

/// Law: a paused agent is shown in cyan, one that is done in green and one that failed in red, in the
/// sidebar as in the header; the others are shown without a colour.
pub proof fn law_status_colors(status: AgentStatus)
    ensures
        ({
            let a = status_chip(status).style;
            let b = status_word(status).style;
            &&& a == b
            &&& !a.bold && !a.dim
            &&& status == AgentStatus::Paused ==> a.color == Color::Cyan
            &&& status == AgentStatus::Done ==> a.color == Color::Green
            &&& status == AgentStatus::Error ==> a.color == Color::Red
            &&& status == AgentStatus::Queued || status == AgentStatus::Running ==> a.color
                == Color::Plain
        }),
{
}

/// Law: the count of messages is shown only where there are any: an arrow in magenta and the number in
/// cyan, apart from what stands before.
pub proof fn law_route_spans(count: usize, lead: Seq<char>)
    ensures
        count == 0 ==> route_spans(count, lead).len() == 0,
        count > 0 ==> {
            let s = route_spans(count, lead);
            &&& s.len() == 4
            &&& s[0].text == lead && s[0].style.color == Color::Plain && !s[0].style.bold
                && !s[0].style.dim
            &&& s[1].text == "↔"@ && s[1].style.color == Color::Magenta
            &&& s[2].text == " "@ && s[2].style.color == Color::Plain
            &&& s[3].text == decimal(count as nat) && s[3].style.color == Color::Cyan
        },
{
}

/// Law: the banner of a pane takes the row below its header, where there is a banner.
pub proof fn law_banner(a: PaneView, area: Rect)
    requires
        drawable(area),
    ensures
        a.banner is None ==> banner_ops(a, area).len() == 0,
        a.banner matches Some(b) ==> banner_ops(a, area).len() == 1 && (
        banner_ops(a, area)[0] matches DrawView::Text { area: r, lines, align } && r.x == area.x
            && r.y == area.y + 1 && r.width == area.width && r.height == 1 && lines == seq![b]
            && align == Align::Left),
{
}

/// Law: what stands around the status of an agent in the sidebar and in the header, and in which
/// colours.
pub proof fn law_line_frames(v: DashView, i: int)
    requires
        v.wf(),
        0 <= i < v.agents.len(),
    ensures
        ({
            let l = v.sidebar_line(i);
            let h = v.header();
            &&& l.spans[0].style.color == Color::Cyan
            &&& l.spans[1].text == "["@ && l.spans[3].text == "] "@
            &&& l.spans[2] == status_chip(v.agents[i].status)
            &&& l.spans[4].style.color == Color::Plain
            &&& v.watch_open && v.watch_target == Some(i as usize) ==> l.spans.last().style.dim
            &&& h.spans[0].text == "Task "@
            &&& h.spans[1].style.color == Color::Cyan
            &&& h.spans[2].text == " — "@ && h.spans[2].style.dim
            &&& h.spans[3] == status_word(v.agents[v.focused as int].status)
            &&& v.run_complete ==> h.spans[h.spans.len() - 3].style.color == Color::Green
                && h.spans.last().style.color == Color::Cyan
            &&& !h.bold
        }),
{
}

/// Law: the sidebar has a bold title in its first row.
pub proof fn law_sidebar_title(v: DashView, area: Rect)
    requires
        drawable(area),
    ensures
        v.sidebar_ops(area)[0] matches DrawView::Text { area: r, lines, align } && {
            &&& r.x == area.x && r.y == area.y && r.width == area.width && (area.height >= 1
                ==> r.height == 1)
            &&& lines.len() == 1
            &&& lines[0].spans.len() == 1
            &&& lines[0].spans[0].text == " Agents "@
            &&& lines[0].spans[0].style.bold
            &&& align == Align::Left
        },
{
}

/// Law: older lines are wanted for the watched agent as for the focused one, by where its log was drawn.
pub proof fn law_older_wanted_watch(d: &DashboardState, r: Vec<(usize, usize)>, logs: Rect, w: usize)
    requires
        call_ensures(DashboardState::older_wanted, (d,), r),
        d.last_main_log_rect is None,
        d.watch_target == Some(w),
        w < d.agents@.len(),
        d.last_watch_log_rect == Some(logs),
        logs.height > 0,
    ensures
        ({
            let a = d.agents@[w as int];
            let n = a.log_src.lines().len();
            &&& n >= logs.height + a.scrollback ==> r@.len() == 0
            &&& logs.height <= n < logs.height + a.scrollback ==> r@.len() == 1 && r@[0].0 == w && n
                + r@[0].1 == logs.height + a.scrollback
        }),
{
}

} // verus!
