//! Messages between tasks: what their delivery comes to, and how the output of a task is followed.

use vstd::prelude::*;
use vstd::string::*;
use vstd::utf8::*;

use crate::events::event_record;
use crate::events::event_write;
use crate::events::Event;
use crate::events::EventCtxView;
use crate::events::EventView;
use crate::events::EventWrite;
use crate::events::SubAgentEventCtx;
use crate::interagent::closes;
use crate::interagent::completed;
use crate::interagent::fed;
use crate::interagent::fed_all;
use crate::interagent::messages;
use crate::interagent::parse_all;
use crate::interagent::InterAgentParser;
use crate::interagent::MessageView;
use crate::interagent::ParserView;
use crate::interagent::RoutedMessage;
use crate::multi_agent_dashboard::MultiAgentUpdate;
use crate::multi_agent_dashboard::UpdateView;
use crate::output::StreamKind;
use crate::raw_output::law_lines_of_text;
use crate::raw_output::law_printed_line;
use crate::raw_output::line_text;
use crate::raw_output::line_texts;
use crate::raw_output::raw_lines;
use crate::raw_output::without_newline;
use crate::screen::color_line;
use crate::screen::color_style;
use crate::screen::dim_style;
use crate::screen::plain_line;
use crate::screen::styled;
use crate::screen::Color;
use crate::screen::Line;
use crate::screen::LineView;
use crate::screen::Span;
use crate::text::decimal;
use crate::text::decoded;
use crate::text::lemma_views_push;
use crate::text::opt_view;
use crate::text::push_decimal;
use crate::text::split_on;
use crate::text::views;

verus! {

/// A message that a task sends to another.
#[derive(Debug)]
pub struct RouteEvent {
    pub from_task_id: String,
    pub from_run_dir: String,
    pub from_attempt: u32,
    pub to_task_id: String,
    pub body: String,
}

/// The model of a `RouteEvent`.
#[verifier::ext_equal]
pub struct RouteView {
    pub from_task_id: Seq<char>,
    pub from_run_dir: Seq<char>,
    pub from_attempt: u32,
    pub to_task_id: Seq<char>,
    pub body: Seq<char>,
}

impl View for RouteEvent {
    type V = RouteView;

    open spec fn view(&self) -> RouteView {
        RouteView {
            from_task_id: self.from_task_id@,
            from_run_dir: self.from_run_dir@,
            from_attempt: self.from_attempt,
            to_task_id: self.to_task_id@,
            body: self.body@,
        }
    }
}

impl RouteView {
    /// The number of bytes of the message.
    pub open spec fn bytes(self) -> nat {
        encode_utf8(self.body).len()
    }

    /// What is shown in the log of the sender.
    pub open spec fn source_text(self) -> Seq<char> {
        "» routed to "@ + self.to_task_id + " ("@ + decimal(self.bytes()) + " bytes)"@
    }

    /// What is shown in the log of the receiver.
    pub open spec fn target_text(self) -> Seq<char> {
        "» routed from "@ + self.from_task_id + " ("@ + decimal(self.bytes()) + " bytes)"@
    }
}

/// A banner that tells of a message.
pub open spec fn route_banner(lead: Seq<char>, peer: Seq<char>, bytes: nat) -> LineView {
    LineView {
        spans: seq![
            styled(lead, color_style(Color::Magenta)),
            styled(peer, color_style(Color::Cyan)),
            styled(" ("@, dim_style()),
            styled(decimal(bytes) + " bytes"@, dim_style()),
            styled(")"@, dim_style()),
        ],
        bold: false,
    }
}

/// The updates that tell the dashboard of a message in the pane of a task.
pub open spec fn route_updates(task_id: Seq<char>, banner: LineView) -> Seq<UpdateView> {
    seq![
        UpdateView::SetBanner { task_id, banner: Some(banner) },
        UpdateView::BumpRouteCount { task_id },
    ]
}

/// What the delivery of a message comes to.
#[derive(Debug)]
pub struct RoutePlan {
    /// The event of the sender.
    pub event: EventWrite,
    /// A line for the log of the sender.
    pub source_line: Option<String>,
    /// A line for the log of the receiver.
    pub target_line: Option<String>,
    pub updates: Vec<MultiAgentUpdate>,
    /// Whether the message is given to the receiver at once. Else it is queued until the receiver
    /// starts.
    pub deliver: bool,
}

/// Decides how a message is delivered. `source_stream` and `target_stream` tell whether the logs of
/// the sender and the receiver are kept, `target_running` whether the receiver can be given
/// guidance, and `ui` whether there is a dashboard.
pub fn plan_route(
    ev: &RouteEvent,
    now: &str,
    source_stream: bool,
    target_running: bool,
    target_stream: bool,
    ui: bool,
) -> (r: RoutePlan)
    ensures
        r.event@ == event_record(
            EventCtxView {
                run_dir: ev@.from_run_dir,
                task_id: ev@.from_task_id,
                attempt: ev@.from_attempt,
            },
            now@,
            EventView::Routed { to: ev@.to_task_id, bytes: ev@.bytes() as u64 },
        ),
        opt_view(r.source_line) == (if source_stream {
            Some(ev@.source_text())
        } else {
            None
        }),
        opt_view(r.target_line) == (if target_running && target_stream {
            Some(ev@.target_text())
        } else {
            None
        }),
        r.deliver == target_running,
        views(r.updates@) == (if !ui {
            seq![]
        } else {
            route_updates(
                ev@.from_task_id,
                route_banner("» routed to "@, ev@.to_task_id, ev@.bytes()),
            ) + (if target_running {
                route_updates(
                    ev@.to_task_id,
                    route_banner("» routed from "@, ev@.from_task_id, ev@.bytes()),
                )
            } else {
                seq![]
            })
        }),
{
    broadcast use lemma_views_push;

    let bytes: u64 = ev.body.as_str().as_bytes().len() as u64;
    let ctx = SubAgentEventCtx {
        run_dir: ev.from_run_dir.clone(),
        task_id: ev.from_task_id.clone(),
        attempt: ev.from_attempt,
    };
    let event = event_write(&ctx, now, &Event::Routed { to: ev.to_task_id.clone(), bytes });
    let source_line = if source_stream {
        Some(route_line("» routed to ", ev.to_task_id.as_str(), bytes))
    } else {
        None
    };
    let target_line = if target_running && target_stream {
        Some(route_line("» routed from ", ev.from_task_id.as_str(), bytes))
    } else {
        None
    };
    let mut updates: Vec<MultiAgentUpdate> = Vec::new();
    if ui {
        push_route_updates(
            &mut updates,
            ev.from_task_id.as_str(),
            banner_line("» routed to ", ev.to_task_id.as_str(), bytes),
        );
        if target_running {
            push_route_updates(
                &mut updates,
                ev.to_task_id.as_str(),
                banner_line("» routed from ", ev.from_task_id.as_str(), bytes),
            );
        }
    }
    proof {
        let from = route_updates(
            ev@.from_task_id,
            route_banner("» routed to "@, ev@.to_task_id, ev@.bytes()),
        );
        assert(ui && !target_running ==> views(updates@) =~= from + seq![]);
        assert(!ui ==> views(updates@) =~= seq![]);
    }
    RoutePlan { event, source_line, target_line, updates, deliver: target_running }
}

/// A line that tells of a message.
fn route_line(lead: &str, peer: &str, bytes: u64) -> (r: String)
    ensures
        r@ == lead@ + peer@ + " ("@ + decimal(bytes as nat) + " bytes)"@,
{
    let mut r = lead.to_owned();
    r.append(peer);
    r.append(" (");
    push_decimal(&mut r, bytes);
    r.append(" bytes)");
    r
}

/// A banner that tells of a message.
fn banner_line(lead: &str, peer: &str, bytes: u64) -> (r: Line)
    ensures
        r@ == route_banner(lead@, peer@, bytes as nat),
{
    broadcast use lemma_views_push;

    let mut count = String::new();
    push_decimal(&mut count, bytes);
    count.append(" bytes");
    let mut spans: Vec<Span> = Vec::new();
    spans.push(Span::colored(lead, Color::Magenta));
    spans.push(Span::colored(peer, Color::Cyan));
    spans.push(Span::dim(" ("));
    spans.push(Span::dim(count.as_str()));
    spans.push(Span::dim(")"));
    let r = Line { spans, bold: false };
    proof {
        assert(count@ =~= decimal(bytes as nat) + " bytes"@);
        assert(r@.spans =~= route_banner(lead@, peer@, bytes as nat).spans);
    }
    r
}

/// Appends the updates that tell the dashboard of a message in the pane of a task.
fn push_route_updates(updates: &mut Vec<MultiAgentUpdate>, task_id: &str, banner: Line)
    ensures
        views(final(updates)@) == views(old(updates)@) + route_updates(task_id@, banner@),
{
    broadcast use lemma_views_push;

    let ghost before = views(updates@);
    updates.push(
        MultiAgentUpdate::SetBanner { task_id: task_id.to_owned(), banner: Some(banner) },
    );
    updates.push(MultiAgentUpdate::BumpRouteCount { task_id: task_id.to_owned() });
    assert(views(updates@) =~= before + route_updates(task_id@, banner@));
}

/// What a line of output comes to.
#[derive(Debug)]
pub struct LineEffects {
    /// The line, without its newline. It goes to the log in memory.
    pub text: String,
    /// The line with its newline. It goes to the log file, and to the console where output is shown.
    pub log_text: String,
    /// The line as the dashboard shows it.
    pub update: Option<MultiAgentUpdate>,
    /// The message that the line completes.
    pub routed: Option<RouteEvent>,
}

/// How a line of a stream looks on the dashboard.
pub open spec fn output_line(kind: StreamKind, text: Seq<char>) -> LineView {
    match kind {
        StreamKind::Stdout => plain_line(text),
        StreamKind::Stderr => color_line(text, Color::Red),
    }
}

/// What a line of a stream comes to, but for messages.
pub open spec fn follows_line(
    kind: StreamKind,
    raw: Seq<u8>,
    task_id: Seq<char>,
    ui: bool,
    e: LineEffects,
) -> bool {
    let text = decoded(without_newline(raw));
    &&& e.text@ == text
    &&& e.log_text@ == text.push('\n')
    &&& opt_view(e.update) == (if ui {
        Some(UpdateView::AppendLines { task_id, lines: seq![output_line(kind, text)] })
    } else {
        None
    })
}

/// Follows a line of a stream.
fn follow_line(kind: StreamKind, raw: &Vec<u8>, task_id: &str, ui: bool) -> (e: LineEffects)
    ensures
        follows_line(kind, raw@, task_id@, ui, e),
        e.routed is None,
{
    let text = line_text(raw);
    let mut log_text = text.clone();
    log_text.push('\n');
    let update = if ui {
        let mut lines: Vec<Line> = Vec::new();
        let line = match kind {
            StreamKind::Stdout => Line::raw(text.as_str()),
            StreamKind::Stderr => Line::colored(text.as_str(), Color::Red),
        };
        lines.push(line);
        assert(views(lines@) =~= seq![output_line(kind, text@)]);
        Some(MultiAgentUpdate::AppendLines { task_id: task_id.to_owned(), lines })
    } else {
        None
    };
    LineEffects { text, log_text, update, routed: None }
}

/// A message as one that a task attempt sends.
pub open spec fn route_of(ctx: EventCtxView, m: MessageView) -> RouteView {
    RouteView {
        from_task_id: ctx.task_id,
        from_run_dir: ctx.run_dir,
        from_attempt: ctx.attempt,
        to_task_id: m.to,
        body: m.body,
    }
}

/// Messages as those that a task attempt sends.
pub open spec fn routes_of(ctx: EventCtxView, messages: Seq<MessageView>) -> Seq<RouteView> {
    Seq::new(messages.len(), |i: int| route_of(ctx, messages[i]))
}

/// A message as one that a task attempt sends.
fn routed_from(ctx: &SubAgentEventCtx, m: RoutedMessage) -> (r: RouteEvent)
    ensures
        r@ == route_of(ctx@, m@),
{
    RouteEvent {
        from_task_id: ctx.task_id.clone(),
        from_run_dir: ctx.run_dir.clone(),
        from_attempt: ctx.attempt,
        to_task_id: m.to,
        body: m.body,
    }
}

/// Follows a line of standard output of a task attempt: it may complete a message.
pub fn follow_stdout(
    parser: &mut InterAgentParser,
    raw: &Vec<u8>,
    ctx: &SubAgentEventCtx,
    ui: bool,
) -> (e: LineEffects)
    ensures
        follows_line(StreamKind::Stdout, raw@, ctx@.task_id, ui, e),
        final(parser)@ == fed(old(parser)@, decoded(without_newline(raw@))),
        opt_view(e.routed) == (match completed(
            old(parser)@,
            decoded(without_newline(raw@)),
        ) {
            Some(m) => Some(route_of(ctx@, m)),
            None => None,
        }),
{
    let e = follow_line(StreamKind::Stdout, raw, ctx.task_id.as_str(), ui);
    let routed = match parser.feed_line(e.text.as_str()) {
        Some(m) => Some(routed_from(ctx, m)),
        None => None,
    };
    LineEffects { text: e.text, log_text: e.log_text, update: e.update, routed }
}

/// Follows a line of standard error of a task.
pub fn follow_stderr(raw: &Vec<u8>, task_id: &str, ui: bool) -> (e: LineEffects)
    ensures
        follows_line(StreamKind::Stderr, raw@, task_id@, ui, e),
        e.routed is None,
{
    follow_line(StreamKind::Stderr, raw, task_id, ui)
}

/// The messages in guidance for a task. They are sent on behalf of the task.
pub fn guidance_routes(guidance: &str, ctx: &SubAgentEventCtx) -> (r: Vec<RouteEvent>)
    ensures
        views(r@) == routes_of(
            ctx@,
            messages(ParserView::Outside, split_on(guidance@, '\n')),
        ),
{
    broadcast use lemma_views_push;

    let found = parse_all(guidance);
    let ghost all = routes_of(ctx@, views(found@));
    let mut r: Vec<RouteEvent> = Vec::new();
    let mut i: usize = 0;
    proof {
        assert(all.take(0) =~= seq![]);
        assert(views(r@) =~= seq![]);
    }
    while i < found.len()
        invariant
            i <= found@.len(),
            all == routes_of(ctx@, views(found@)),
            views(r@) == all.take(i as int),
        decreases found@.len() - i,
    {
        let m = RoutedMessage { to: found[i].to.clone(), body: found[i].body.clone() };
        proof {
            assert(m@ == found@[i as int]@);
            assert(all.take(i + 1) =~= all.take(i as int).push(all[i as int]));
        }
        r.push(routed_from(ctx, m));
        i += 1;
    }
    assert(all.take(i as int) =~= all);
    r
}

/// The messages that a task sends by lines of its standard output, one after another: each line is
/// followed with the parser as the lines before left it.
pub open spec fn routed_by(state: ParserView, ctx: EventCtxView, lines: Seq<Seq<u8>>) -> Seq<
    RouteView,
>
    decreases lines.len(),
{
    if lines.len() == 0 {
        seq![]
    } else {
        let before = routed_by(state, ctx, lines.drop_last());
        let parser = fed_all(state, line_texts(lines.drop_last()));
        match completed(parser, decoded(without_newline(lines.last()))) {
            Some(m) => before.push(route_of(ctx, m)),
            None => before,
        }
    }
}

proof fn lemma_routed_by(state: ParserView, ctx: EventCtxView, lines: Seq<Seq<u8>>)
    ensures
        routed_by(state, ctx, lines) == routes_of(ctx, messages(state, line_texts(lines))),
    decreases lines.len(),
{
    let texts = line_texts(lines);
    if lines.len() == 0 {
        assert(routes_of(ctx, messages(state, texts)) =~= seq![]);
    } else {
        let before = lines.drop_last();
        lemma_routed_by(state, ctx, before);
        assert(texts.drop_last() =~= line_texts(before));
        assert(routed_by(state, ctx, lines) =~= routes_of(ctx, messages(state, texts)));
    }
}

/// Law: the messages that a task sends over the whole of its standard output are those that
/// `parse_all` finds in its text, in order. The output is valid UTF-8.
pub proof fn law_routed_output(ctx: EventCtxView, out: Seq<u8>)
    requires
        valid_utf8(out),
    ensures
        routed_by(ParserView::Outside, ctx, raw_lines(out)) == routes_of(
            ctx,
            messages(ParserView::Outside, split_on(decode_utf8(out), '\n')),
        ),
{
    let texts = line_texts(raw_lines(out));
    lemma_routed_by(ParserView::Outside, ctx, raw_lines(out));
    law_lines_of_text(out);
    if out.len() == 0 || out.last() == 10 {
        let more = texts.push(seq![]);
        let parser = fed_all(ParserView::Outside, texts);
        assert(more.drop_last() =~= texts);
        assert(!closes(seq![])) by {
            reveal_strlit("@@/to");
        }
        assert(completed(parser, seq![]) is None);
    }
}

/// Law: a message is given to its receiver at once exactly where that runs. It is noted as an event of
/// the sender, and in the logs of both as far as they are kept.
pub proof fn law_route_noted(
    ev: &RouteEvent,
    now: &str,
    source_stream: bool,
    target_running: bool,
    target_stream: bool,
    ui: bool,
    r: RoutePlan,
    ctx: &SubAgentEventCtx,
    event: &Event,
    written: EventWrite,
)
    requires
        call_ensures(plan_route, (ev, now, source_stream, target_running, target_stream, ui), r),
        ctx.run_dir@ == ev.from_run_dir@,
        ctx.task_id@ == ev.from_task_id@,
        ctx.attempt == ev.from_attempt,
        event@ == (EventView::Routed {
            to: ev.to_task_id@,
            bytes: encode_utf8(ev.body@).len() as u64,
        }),
        call_ensures(event_write, (ctx, now, event), written),
    ensures
        r.deliver == target_running,
        r.event.file@ == written.file@,
        r.event.text@ == written.text@,
        r.source_line is Some <==> source_stream,
        r.target_line is Some <==> target_running && target_stream,
        r.source_line matches Some(line) ==> line@ == "» routed to "@ + ev.to_task_id@ + " ("@
            + decimal(encode_utf8(ev.body@).len()) + " bytes)"@,
        r.target_line matches Some(line) ==> line@ == "» routed from "@ + ev.from_task_id@ + " ("@
            + decimal(encode_utf8(ev.body@).len()) + " bytes)"@,
{
    assert(ctx@ =~= EventCtxView {
        run_dir: ev@.from_run_dir,
        task_id: ev@.from_task_id,
        attempt: ev@.from_attempt,
    });
    assert(r.event@ == written@);
    assert(r.event@.file == r.event.file@ && r.event@.text == r.event.text@);
}

/// Law: the dashboard tells of a message in the pane of the sender, with a banner that names the
/// receiver and one more in its count, and likewise in that of a receiver that runs.
pub proof fn law_route_shown(
    ev: &RouteEvent,
    now: &str,
    source_stream: bool,
    target_running: bool,
    target_stream: bool,
    ui: bool,
    r: RoutePlan,
)
    requires
        call_ensures(plan_route, (ev, now, source_stream, target_running, target_stream, ui), r),
    ensures
        !ui ==> r.updates@.len() == 0,
        ui && !target_running ==> r.updates@.len() == 2,
        ui && target_running ==> r.updates@.len() == 4,
        ui ==> {
            &&& r.updates@[0]@ matches UpdateView::SetBanner { task_id, banner: Some(b) } && task_id
                == ev.from_task_id@ && b.spans.len() == 5 && b.spans[0].text == "» routed to "@
                && b.spans[1].text == ev.to_task_id@
            &&& r.updates@[1]@ == (UpdateView::BumpRouteCount { task_id: ev.from_task_id@ })
        },
        ui && target_running ==> {
            &&& r.updates@[2]@ matches UpdateView::SetBanner { task_id, banner: Some(b) } && task_id
                == ev.to_task_id@ && b.spans.len() == 5 && b.spans[0].text == "» routed from "@
                && b.spans[1].text == ev.from_task_id@
            &&& r.updates@[3]@ == (UpdateView::BumpRouteCount { task_id: ev.to_task_id@ })
        },
{
    let v = views(r.updates@);
    assert(v.len() == r.updates@.len());
    assert(forall|i: int| 0 <= i < v.len() ==> r.updates@[i]@ == #[trigger] v[i]);
    if ui {
        assert(v[0] == r.updates@[0]@ && v[1] == r.updates@[1]@);
        if target_running {
            assert(v[2] == r.updates@[2]@ && v[3] == r.updates@[3]@);
        }
    }
}

/// Law: a line that a task prints comes out as it was printed: to the log with its newline, and to its
/// pane where there is a dashboard, in red if it is one of standard error.
pub proof fn law_line_followed(
    kind: StreamKind,
    text: Seq<char>,
    raw: Seq<u8>,
    task_id: Seq<char>,
    ui: bool,
    e: LineEffects,
)
    requires
        raw == encode_utf8(text).push(10),
        follows_line(kind, raw, task_id, ui, e),
    ensures
        e.text@ == text,
        e.log_text@ == text + seq!['\n'],
        e.update is Some <==> ui,
        ui && kind == StreamKind::Stdout ==> e.update->0@ == (UpdateView::AppendLines {
            task_id,
            lines: seq![plain_line(text)],
        }),
        ui && kind == StreamKind::Stderr ==> e.update->0@ == (UpdateView::AppendLines {
            task_id,
            lines: seq![color_line(text, Color::Red)],
        }),
{
    law_printed_line(text);
    assert(text.push('\n') =~= text + seq!['\n']);
}

/// Law: standard error is followed in red, and sends no messages.
pub proof fn law_stderr_followed(raw: Vec<u8>, task_id: &str, ui: bool, e: LineEffects)
    requires
        call_ensures(follow_stderr, (&raw, task_id, ui), e),
    ensures
        e.routed is None,
        e.log_text@ == e.text@ + seq!['\n'],
        e.update is Some <==> ui,
        ui ==> e.update->0@ == (UpdateView::AppendLines {
            task_id: task_id@,
            lines: seq![color_line(e.text@, Color::Red)],
        }),
{
    assert(e.text@.push('\n') =~= e.text@ + seq!['\n']);
}

/// Law: messages in guidance are sent on behalf of the task that it was for, each to its own receiver,
/// with its text unchanged.
pub proof fn law_guidance_routed(
    guidance: &str,
    ctx: &SubAgentEventCtx,
    r: Vec<RouteEvent>,
    found: Vec<RoutedMessage>,
    i: int,
)
    requires
        call_ensures(guidance_routes, (guidance, ctx), r),
        call_ensures(parse_all, (guidance,), found),
    ensures
        r@.len() == found@.len(),
        0 <= i < r@.len() ==> {
            &&& r@[i].from_task_id@ == ctx.task_id@
            &&& r@[i].from_run_dir@ == ctx.run_dir@
            &&& r@[i].from_attempt == ctx.attempt
            &&& r@[i].to_task_id@ == found@[i].to@
            &&& r@[i].body@ == found@[i].body@
        },
{
    let v = views(r@);
    let w = views(found@);
    assert(v.len() == w.len());
    if 0 <= i < r@.len() {
        assert(r@[i]@ == v[i]);
        assert(found@[i]@ == w[i]);
        assert(v[i] == route_of(ctx@, w[i]));
        assert(r@[i]@.to_task_id == r@[i].to_task_id@);
    }
}

/// Law: a line of standard output goes through the parser as it was printed, and a message that it
/// completes is sent by the task that printed it.
pub proof fn law_stdout_followed(
    parser: &mut InterAgentParser,
    raw: Vec<u8>,
    ctx: &SubAgentEventCtx,
    ui: bool,
    e: LineEffects,
    text: Seq<char>,
)
    requires
        call_ensures(follow_stdout, (parser, &raw, ctx, ui), e),
        raw@ == encode_utf8(text).push(10),
    ensures
        final(parser)@ == fed(old(parser)@, text),
        e.text@ == text,
        e.log_text@ == text + seq!['\n'],
        e.update is Some <==> ui,
        ui ==> e.update->0@ == (UpdateView::AppendLines {
            task_id: ctx.task_id@,
            lines: seq![plain_line(text)],
        }),
        e.routed is Some <==> completed(old(parser)@, text) is Some,
        e.routed matches Some(m) ==> m.from_task_id@ == ctx.task_id@ && m.from_run_dir@
            == ctx.run_dir@ && m.from_attempt == ctx.attempt && m.to_task_id@ == completed(
            old(parser)@,
            text,
        )->0.to && m.body@ == completed(old(parser)@, text)->0.body,
{
    law_printed_line(text);
    law_line_followed(StreamKind::Stdout, text, raw@, ctx.task_id@, ui, e);
    match e.routed {
        Some(m) => {
            assert(m@.from_task_id == m.from_task_id@ && m@.body == m.body@ && m@.to_task_id
                == m.to_task_id@ && m@.from_run_dir == m.from_run_dir@);
        },
        None => {},
    }
}

/// Law: a banner about a message tells its direction in magenta, the other task in cyan, and how many
/// bytes it has, dimmed and in brackets.
pub proof fn law_route_banner(lead: Seq<char>, peer: Seq<char>, bytes: nat)
    ensures
        ({
            let b = route_banner(lead, peer, bytes);
            &&& b.spans.len() == 5
            &&& b.spans[0].text == lead && b.spans[0].style.color == Color::Magenta
            &&& b.spans[1].text == peer && b.spans[1].style.color == Color::Cyan
            &&& b.spans[2].text == " ("@ && b.spans[2].style.dim
            &&& b.spans[3].text == decimal(bytes) + " bytes"@ && b.spans[3].style.dim
            &&& b.spans[4].text == ")"@ && b.spans[4].style.dim
            &&& !b.bold
        }),
{
}

/// Law: the banners about a message that the dashboard shows count its bytes.
pub proof fn law_route_counted(
    ev: &RouteEvent,
    now: &str,
    source_stream: bool,
    target_running: bool,
    target_stream: bool,
    r: RoutePlan,
)
    requires
        call_ensures(plan_route, (ev, now, source_stream, target_running, target_stream, true), r),
    ensures
        r.updates@.len() > 0,
        r.updates@[0]@ matches UpdateView::SetBanner { banner: Some(b), .. } && b.spans[3].text
            == decimal(encode_utf8(ev.body@).len()) + " bytes"@ && b.spans[0].style.color
            == Color::Magenta && b.spans[1].style.color == Color::Cyan,
        target_running ==> (r.updates@[2]@ matches UpdateView::SetBanner { banner: Some(b), .. }
            && b.spans[3].text == decimal(encode_utf8(ev.body@).len()) + " bytes"@
            && b.spans[0].style.color == Color::Magenta && b.spans[1].style.color == Color::Cyan),
{
    let v = views(r.updates@);
    assert(v.len() == r.updates@.len());
    assert(v[0] == r.updates@[0]@);
    if target_running {
        assert(v[2] == r.updates@[2]@);
    }
}

} // verus!
