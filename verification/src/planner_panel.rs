//! The overlay that is shown while the planner runs: a header, a banner and the planner's log.

use vstd::prelude::*;
use vstd::string::*;

use crate::dashboard::saturating_rest;
use crate::dashboard::saturating_sum;
use crate::keys::KeyCode;
use crate::keys::KeyEvent;
use crate::keys::KeyEventKind;
use crate::logs::push_copies;
use crate::logs::window;
use crate::logs::window_end;
use crate::logs::window_start;
use crate::render::less;
use crate::render::top_row;
use crate::screen::color_line;
use crate::screen::line_op;
use crate::screen::text_op;
use crate::screen::Align;
use crate::screen::Color;
use crate::screen::DrawOp;
use crate::screen::DrawView;
use crate::screen::Line;
use crate::screen::LineView;
use crate::screen::Rect;
use crate::text::lemma_views_push;
use crate::text::opt_view;
use crate::text::views;

verus! {

/// How the planner is doing.
#[derive(Clone, Copy, Debug, PartialEq, Eq, Structural)]
pub enum PlannerStatus {
    Running,
    Done,
    Error,
}

/// A change that the overlay is told about.
#[derive(Debug)]
pub enum PlannerUpdate {
    /// Replaces the log, the status and the banner.
    Snapshot { log: Vec<Line>, status: PlannerStatus, banner: Option<Line> },
    /// Appends lines to the log.
    AppendLines { lines: Vec<Line> },
    SetStatus { status: PlannerStatus },
    /// Sets the banner, or takes it away.
    SetBanner { banner: Option<Line> },
}

/// The state of the overlay.
#[derive(Debug)]
pub struct PlannerPanelState {
    pub log: Vec<Line>,
    /// How many lines the log is scrolled back from its end.
    pub scrollback: usize,
    pub banner: Option<Line>,
    pub status: PlannerStatus,
}

/// The model of a `PlannerPanelState`.
#[verifier::ext_equal]
pub struct PanelView {
    pub log: Seq<LineView>,
    pub scrollback: usize,
    pub banner: Option<LineView>,
    pub status: PlannerStatus,
}

impl View for PlannerPanelState {
    type V = PanelView;

    open spec fn view(&self) -> PanelView {
        PanelView {
            log: views(self.log@),
            scrollback: self.scrollback,
            banner: opt_view(self.banner),
            status: self.status,
        }
    }
}

impl PanelView {
    /// The header.
    pub open spec fn header(self) -> LineView {
        match self.status {
            PlannerStatus::Running => color_line("Planning…"@, Color::Cyan),
            PlannerStatus::Done => color_line("Planning complete"@, Color::Green),
            PlannerStatus::Error => color_line("Planning error"@, Color::Red),
        }
    }

    /// The rows that the header and the banner take.
    pub open spec fn head_rows(self) -> int {
        if self.banner is Some {
            2
        } else {
            1
        }
    }

    /// The part of an area that shows the log.
    pub open spec fn log_area(self, area: Rect) -> Rect {
        Rect::at(
            area.x as int,
            area.y + self.head_rows(),
            area.width as int,
            less(area.height as int, self.head_rows()),
        )
    }

    /// The whole overlay.
    pub open spec fn ops(self, area: Rect) -> Seq<DrawView> {
        let logs = self.log_area(area);
        seq![DrawView::Clear(area), line_op(top_row(area), self.header())] + (match self.banner {
            Some(banner) => seq![
                line_op(Rect::at(area.x as int, area.y + 1, area.width as int, 1), banner),
            ],
            None => seq![],
        }) + if logs.height == 0 {
            seq![]
        } else {
            seq![text_op(logs, window(self.log, logs.height as nat, self.scrollback as nat))]
        }
    }

    /// How far a page key scrolls: the height of the screen but for a row.
    pub open spec fn page(viewport_height: u16) -> usize {
        less(viewport_height as int, 1) as usize
    }

    /// The overlay after a key event.
    pub open spec fn after_key(self, key: KeyEvent, viewport_height: u16) -> PanelView {
        let page = PanelView::page(viewport_height);
        if key.kind == KeyEventKind::Release {
            self
        } else {
            match key.code {
                KeyCode::PageUp => PanelView {
                    scrollback: saturating_sum(self.scrollback, page),
                    ..self
                },
                KeyCode::PageDown => PanelView {
                    scrollback: saturating_rest(self.scrollback, page),
                    ..self
                },
                KeyCode::Home => PanelView {
                    scrollback: less(self.log.len() as int, page as int) as usize,
                    ..self
                },
                KeyCode::End => PanelView { scrollback: 0, ..self },
                _ => self,
            }
        }
    }
}

impl Default for PlannerPanelState {
    fn default() -> (r: Self)
        ensures
            r@ == (PanelView {
                log: seq![],
                scrollback: 0,
                banner: None,
                status: PlannerStatus::Running,
            }),
    {
        let r = PlannerPanelState {
            log: Vec::new(),
            scrollback: 0,
            banner: None,
            status: PlannerStatus::Running,
        };
        assert(r@.log =~= seq![]);
        r
    }
}

impl PlannerPanelState {
    /// Draws the overlay into an area.
    pub fn render(&self, area: Rect) -> (ops: Vec<DrawOp>)
        requires
            area.y + 2 <= u16::MAX,
        ensures
            views(ops@) == self@.ops(area),
    {
        broadcast use lemma_views_push;

        let mut ops: Vec<DrawOp> = Vec::new();
        ops.push(DrawOp::Clear(area));
        let header = match self.status {
            PlannerStatus::Running => Line::colored("Planning…", Color::Cyan),
            PlannerStatus::Done => Line::colored("Planning complete", Color::Green),
            PlannerStatus::Error => Line::colored("Planning error", Color::Red),
        };
        ops.push(DrawOp::line(Rect::new(area.x, area.y, area.width, 1), header, Align::Left));
        let mut head: u16 = 1;
        if let Some(line) = &self.banner {
            ops.push(
                DrawOp::line(
                    Rect::new(area.x, area.y + 1, area.width, 1),
                    line.clone(),
                    Align::Left,
                ),
            );
            head = 2;
        }
        let height: u16 = if area.height < head {
            0
        } else {
            area.height - head
        };
        let logs: Rect = Rect::new(area.x, area.y + head, area.width, height);
        if logs.height > 0 {
            let page = self.visible_lines(logs.height as usize);
            ops.push(DrawOp::Text { area: logs, lines: page, align: Align::Left });
        }
        assert(views(ops@) =~= self@.ops(area));
        ops
    }

    /// The lines that a window of `view_h` lines shows.
    fn visible_lines(&self, view_h: usize) -> (r: Vec<Line>)
        ensures
            views(r@) == window(self@.log, view_h as nat, self.scrollback as nat),
    {
        let total: usize = self.log.len();
        let hidden: u128 = view_h as u128 + self.scrollback as u128;
        let start: usize = if (total as u128) < hidden {
            0
        } else {
            total - view_h - self.scrollback
        };
        let end: usize = if view_h > total - start {
            total
        } else {
            start + view_h
        };
        let mut r: Vec<Line> = Vec::new();
        let mut i: usize = start;
        proof {
            assert(start == window_start(self@.log.len(), view_h as nat, self.scrollback as nat));
            assert(end == window_end(self@.log.len(), view_h as nat, self.scrollback as nat));
        }
        while i < end
            invariant
                start <= i <= end <= self.log@.len(),
                r@.len() == i - start,
                forall|j: int| 0 <= j < r@.len() ==> (#[trigger] r@[j])@ == self.log@[start + j]@,
            decreases end - i,
        {
            r.push(self.log[i].clone());
            i += 1;
        }
        assert(views(r@) =~= self@.log.subrange(start as int, end as int));
        r
    }

    /// Follows an update.
    pub fn apply_update(&mut self, update: PlannerUpdate)
        ensures
            match update {
                PlannerUpdate::Snapshot { log, status, banner } => final(self)@ == (PanelView {
                    log: views(log@),
                    status,
                    banner: opt_view(banner),
                    ..old(self)@
                }),
                PlannerUpdate::AppendLines { lines } => final(self)@ == (PanelView {
                    log: old(self)@.log + views(lines@),
                    ..old(self)@
                }),
                PlannerUpdate::SetStatus { status } => final(self)@ == (PanelView {
                    status,
                    ..old(self)@
                }),
                PlannerUpdate::SetBanner { banner } => final(self)@ == (PanelView {
                    banner: opt_view(banner),
                    ..old(self)@
                }),
            },
    {
        match update {
            PlannerUpdate::Snapshot { log, status, banner } => {
                self.log = log;
                self.status = status;
                self.banner = banner;
            },
            PlannerUpdate::AppendLines { lines } => {
                push_copies(&mut self.log, &lines);
            },
            PlannerUpdate::SetStatus { status } => {
                self.status = status;
            },
            PlannerUpdate::SetBanner { banner } => {
                self.banner = banner;
            },
        }
    }

    /// Handles a key event: the page keys, Home and End scroll the log. `viewport_height` is the
    /// height of the screen.
    pub fn on_key(&mut self, key: KeyEvent, viewport_height: u16)
        ensures
            final(self)@ == old(self)@.after_key(key, viewport_height),
    {
        if key.kind == KeyEventKind::Release {
            return;
        }
        let page: usize = if viewport_height < 1 {
            0
        } else {
            (viewport_height - 1) as usize
        };
        match key.code {
            KeyCode::PageUp => {
                self.scrollback = if self.scrollback > usize::MAX - page {
                    usize::MAX
                } else {
                    self.scrollback + page
                };
            },
            KeyCode::PageDown => {
                self.scrollback = if self.scrollback < page {
                    0
                } else {
                    self.scrollback - page
                };
            },
            KeyCode::Home => {
                self.scrollback = if self.log.len() < page {
                    0
                } else {
                    self.log.len() - page
                };
            },
            KeyCode::End => {
                self.scrollback = 0;
            },
            _ => {},
        }
    }
}

/// Law: the page keys scroll by the height of the screen but for a row, no further than zero and the
/// greatest number; Home goes back to the first page and End to the last. A release of a key and all
/// other keys do nothing, and no key changes anything but the scroll position.
pub proof fn law_panel_keys(p: PanelView, key: KeyEvent, viewport_height: u16)
    ensures
        ({
            let q = p.after_key(key, viewport_height);
            let page = if viewport_height == 0 {
                0int
            } else {
                viewport_height - 1
            };
            let held = key.kind == KeyEventKind::Release;
            &&& q == (PanelView { scrollback: q.scrollback, ..p })
            &&& held ==> q == p
            &&& !held && key.code == KeyCode::PageUp ==> (if p.scrollback + page <= usize::MAX {
                q.scrollback == p.scrollback + page
            } else {
                q.scrollback == usize::MAX
            })
            &&& !held && key.code == KeyCode::PageDown ==> (if p.scrollback >= page {
                q.scrollback == p.scrollback - page
            } else {
                q.scrollback == 0
            })
            &&& !held && key.code == KeyCode::End ==> q.scrollback == 0
            &&& !held && key.code == KeyCode::Home && p.log.len() <= usize::MAX ==> (if p.log.len()
                >= page {
                q.scrollback == p.log.len() - page
            } else {
                q.scrollback == 0
            })
            &&& key.code != KeyCode::PageUp && key.code != KeyCode::PageDown && key.code
                != KeyCode::Home && key.code != KeyCode::End ==> q == p
        }),
{
}

/// Law: paging up and then down leads back, as long as the position can be counted.
pub proof fn law_panel_pages_back(p: PanelView, up: KeyEvent, down: KeyEvent, viewport_height: u16)
    requires
        up.kind != KeyEventKind::Release,
        down.kind != KeyEventKind::Release,
        up.code == KeyCode::PageUp,
        down.code == KeyCode::PageDown,
        p.scrollback + viewport_height <= usize::MAX,
    ensures
        p.after_key(up, viewport_height).after_key(down, viewport_height) == p,
{
    assert(p.after_key(up, viewport_height).after_key(down, viewport_height) =~= p);
}

/// Law: the overlay blanks its area, tells in its first row how the planner is doing, shows the banner
/// in the row below, where there is one, and the log in all the rows that are left.
pub proof fn law_panel_drawn(p: &PlannerPanelState, area: Rect, ops: Vec<DrawOp>)
    requires
        call_ensures(PlannerPanelState::render, (p, area), ops),
        area.x + area.width <= u16::MAX,
        area.y + area.height <= u16::MAX,
        area.y + 2 <= u16::MAX,
    ensures
        ({
            let head = if p.banner is Some {
                2int
            } else {
                1int
            };
            &&& ops@.len() == (if area.height > head {
                head + 2
            } else {
                head + 1
            })
            &&& ops@[0]@ == DrawView::Clear(area)
            &&& ops@[1]@ == line_op(
                Rect { x: area.x, y: area.y, width: area.width, height: 1 },
                color_line(
                    match p.status {
                        PlannerStatus::Running => "Planning…"@,
                        PlannerStatus::Done => "Planning complete"@,
                        PlannerStatus::Error => "Planning error"@,
                    },
                    match p.status {
                        PlannerStatus::Running => Color::Cyan,
                        PlannerStatus::Done => Color::Green,
                        PlannerStatus::Error => Color::Red,
                    },
                ),
            )
            &&& p.banner matches Some(b) ==> ops@[2]@ == line_op(
                Rect { x: area.x, y: (area.y + 1) as u16, width: area.width, height: 1 },
                b@,
            )
            &&& area.height > head ==> ops@[head + 1]@ == text_op(
                Rect {
                    x: area.x,
                    y: (area.y + head) as u16,
                    width: area.width,
                    height: (area.height - head) as u16,
                },
                window(views(p.log@), (area.height - head) as nat, p.scrollback as nat),
            )
        }),
{
    let v = views(ops@);
    assert(v.len() == ops@.len());
    assert(forall|i: int| 0 <= i < v.len() ==> ops@[i]@ == #[trigger] v[i]);
    let head = if p.banner is Some {
        2int
    } else {
        1int
    };
    assert(v[0] == ops@[0]@);
    assert(v[1] == ops@[1]@);
    if p.banner is Some {
        assert(v[2] == ops@[2]@);
    }
    if area.height > head {
        assert(v[head + 1] == ops@[head + 1]@);
    }
}

/// Law: an update changes what it is about, and nothing else of the overlay: the scroll position stays
/// with every update.
pub proof fn law_panel_updated(p: &mut PlannerPanelState, update: PlannerUpdate, r: ())
    requires
        call_ensures(PlannerPanelState::apply_update, (p, update), r),
    ensures
        final(p).scrollback == old(p).scrollback,
        update matches PlannerUpdate::AppendLines { lines } ==> final(p)@.log == old(p)@.log + views(
            lines@,
        ) && final(p).status == old(p).status && final(p)@.banner == old(p)@.banner,
        update matches PlannerUpdate::SetStatus { status } ==> final(p).status == status
            && final(p)@.log == old(p)@.log && final(p)@.banner == old(p)@.banner,
        update matches PlannerUpdate::SetBanner { banner } ==> final(p)@.banner == opt_view(banner)
            && final(p)@.log == old(p)@.log && final(p).status == old(p).status,
        update matches PlannerUpdate::Snapshot { log, status, banner } ==> final(p)@.log == views(
            log@,
        ) && final(p).status == status && final(p)@.banner == opt_view(banner),
{
    assert(final(p)@.scrollback == final(p).scrollback && final(p)@.status == final(p).status);
    assert(old(p)@.scrollback == old(p).scrollback && old(p)@.status == old(p).status);
}

/// Law: a key does to the overlay what it is for.
pub proof fn law_panel_key_handled(
    p: &mut PlannerPanelState,
    key: KeyEvent,
    viewport_height: u16,
    r: (),
)
    requires
        call_ensures(PlannerPanelState::on_key, (p, key, viewport_height), r),
    ensures
        final(p)@ == old(p)@.after_key(key, viewport_height),
        final(p)@.log == old(p)@.log,
        final(p).status == old(p).status,
{
    law_panel_keys(old(p)@, key, viewport_height);
    assert(final(p)@.status == final(p).status && old(p)@.status == old(p).status);
}

} // verus!
