//! The structured events of a task: one line of JSON each, appended to `events.ndjson`.

use serde_json::Value;
use vstd::prelude::*;
use vstd::string::*;

use crate::paths::join_path;
use crate::paths::path_join;

verus! {

/// Where the events of a task attempt go.
#[derive(Debug)]
pub struct SubAgentEventCtx {
    pub run_dir: String,
    pub task_id: String,
    pub attempt: u32,
}

/// The model of a `SubAgentEventCtx`.
#[verifier::ext_equal]
pub struct EventCtxView {
    pub run_dir: Seq<char>,
    pub task_id: Seq<char>,
    pub attempt: u32,
}

impl View for SubAgentEventCtx {
    type V = EventCtxView;

    open spec fn view(&self) -> EventCtxView {
        EventCtxView { run_dir: self.run_dir@, task_id: self.task_id@, attempt: self.attempt }
    }
}

impl Clone for SubAgentEventCtx {
    fn clone(&self) -> (r: Self)
        ensures
            r@ == self@,
    {
        SubAgentEventCtx {
            run_dir: self.run_dir.clone(),
            task_id: self.task_id.clone(),
            attempt: self.attempt,
        }
    }
}

/// What an event says besides its time, task and attempt.
#[derive(Debug)]
pub enum Event {
    /// An attempt began in a working directory.
    Start { cwd: String },
    /// An attempt ended with exit code zero.
    Success,
    /// An attempt ended with another exit code.
    Error { code: i32 },
    /// An attempt was ended before it had an exit code.
    Fault { error: String },
    /// A message of so many bytes was sent to another task.
    Routed { to: String, bytes: u64 },
    /// The sub-agent was paused.
    Pause,
    /// The sub-agent was resumed.
    Resume,
    /// Guidance was written to the sub-agent.
    Inject { guidance: String },
    /// The sub-agent was started anew with guidance.
    Restart { guidance: String },
}

/// The model of an `Event`.
#[verifier::ext_equal]
pub enum EventView {
    Start { cwd: Seq<char> },
    Success,
    Error { code: i32 },
    Fault { error: Seq<char> },
    Routed { to: Seq<char>, bytes: u64 },
    Pause,
    Resume,
    Inject { guidance: Seq<char> },
    Restart { guidance: Seq<char> },
}

impl View for Event {
    type V = EventView;

    open spec fn view(&self) -> EventView {
        match self {
            Event::Start { cwd } => EventView::Start { cwd: cwd@ },
            Event::Success => EventView::Success,
            Event::Error { code } => EventView::Error { code: *code },
            Event::Fault { error } => EventView::Fault { error: error@ },
            Event::Routed { to, bytes } => EventView::Routed { to: to@, bytes: *bytes },
            Event::Pause => EventView::Pause,
            Event::Resume => EventView::Resume,
            Event::Inject { guidance } => EventView::Inject { guidance: guidance@ },
            Event::Restart { guidance } => EventView::Restart { guidance: guidance@ },
        }
    }
}

/// A line to append to a file.
#[derive(Debug)]
pub struct EventWrite {
    pub file: String,
    pub text: String,
}

/// The model of an `EventWrite`.
#[verifier::ext_equal]
pub struct EventWriteView {
    pub file: Seq<char>,
    pub text: Seq<char>,
}

impl View for EventWrite {
    type V = EventWriteView;

    open spec fn view(&self) -> EventWriteView {
        EventWriteView { file: self.file@, text: self.text@ }
    }
}

/// The text of a JSON object with the given text fields, counts and codes.
pub uninterp spec fn json_object(
    texts: Seq<(Seq<char>, Seq<char>)>,
    counts: Seq<(Seq<char>, u64)>,
    codes: Seq<(Seq<char>, i32)>,
) -> Seq<char>;

/// The names and values of text fields.
pub open spec fn text_fields(fields: Seq<(String, String)>) -> Seq<(Seq<char>, Seq<char>)> {
    Seq::new(fields.len(), |i: int| (fields[i].0@, fields[i].1@))
}

/// The names and values of count fields.
pub open spec fn count_fields(fields: Seq<(String, u64)>) -> Seq<(Seq<char>, u64)> {
    Seq::new(fields.len(), |i: int| (fields[i].0@, fields[i].1))
}

/// The names and values of code fields.
pub open spec fn code_fields(fields: Seq<(String, i32)>) -> Seq<(Seq<char>, i32)> {
    Seq::new(fields.len(), |i: int| (fields[i].0@, fields[i].1))
}

/// Trusted: collecting pairs into a `serde_json::Value` makes a JSON object with these fields, and
/// its `to_string` writes the object out in compact form. Newlines in texts are escaped and none is
/// written between fields, so that the text is a single line.
#[verifier::external_body]
fn json_line(
    texts: &Vec<(String, String)>,
    counts: &Vec<(String, u64)>,
    codes: &Vec<(String, i32)>,
) -> (r: String)
    ensures
        r@ == json_object(text_fields(texts@), count_fields(counts@), code_fields(codes@)),
        !r@.contains('\n'),
{
    let texts = texts.iter().map(|(k, v)| (k.as_str(), Value::from(v.as_str())));
    let counts = counts.iter().map(|(k, v)| (k.as_str(), Value::from(*v)));
    let codes = codes.iter().map(|(k, v)| (k.as_str(), Value::from(*v)));
    texts.chain(counts).chain(codes).collect::<Value>().to_string()
}

/// The name of an event.
pub open spec fn event_name(event: EventView) -> Seq<char> {
    match event {
        EventView::Start { .. } => "start"@,
        EventView::Success => "success"@,
        EventView::Error { .. } => "error"@,
        EventView::Fault { .. } => "error"@,
        EventView::Routed { .. } => "routed"@,
        EventView::Pause => "pause"@,
        EventView::Resume => "resume"@,
        EventView::Inject { .. } => "inject"@,
        EventView::Restart { .. } => "restart"@,
    }
}

/// The text fields that only this event has.
pub open spec fn own_texts(event: EventView) -> Seq<(Seq<char>, Seq<char>)> {
    match event {
        EventView::Start { cwd } => seq![("cwd"@, cwd)],
        EventView::Fault { error } => seq![("error"@, error)],
        EventView::Routed { to, .. } => seq![("to"@, to)],
        EventView::Inject { guidance } => seq![("guidance"@, guidance)],
        EventView::Restart { guidance } => seq![("guidance"@, guidance)],
        _ => seq![],
    }
}

/// The count fields that only this event has.
pub open spec fn own_counts(event: EventView) -> Seq<(Seq<char>, u64)> {
    match event {
        EventView::Routed { bytes, .. } => seq![("bytes"@, bytes)],
        _ => seq![],
    }
}

/// The code fields that only this event has.
pub open spec fn own_codes(event: EventView) -> Seq<(Seq<char>, i32)> {
    match event {
        EventView::Error { code } => seq![("code"@, code)],
        _ => seq![],
    }
}

/// The line for an event at a time, and the file it goes to.
pub open spec fn event_record(ctx: EventCtxView, now: Seq<char>, event: EventView) -> EventWriteView {
    EventWriteView {
        file: join_path(ctx.run_dir, "events.ndjson"@),
        text: json_object(
            seq![("ts"@, now), ("task_id"@, ctx.task_id), ("event"@, event_name(event))]
                + own_texts(event),
            seq![("attempt"@, ctx.attempt as u64)] + own_counts(event),
            own_codes(event),
        ).push('\n'),
    }
}

/// The line for an event at time `now`, and the file it goes to. It is a single line.
pub fn event_write(ctx: &SubAgentEventCtx, now: &str, event: &Event) -> (r: EventWrite)
    ensures
        r@ == event_record(ctx@, now@, event@),
        r.text@.len() > 0,
        r.text@.last() == '\n',
        !r.text@.drop_last().contains('\n'),
{
    let mut texts: Vec<(String, String)> = Vec::new();
    let mut counts: Vec<(String, u64)> = Vec::new();
    let mut codes: Vec<(String, i32)> = Vec::new();
    let name = match event {
        Event::Start { .. } => "start",
        Event::Success => "success",
        Event::Error { .. } => "error",
        Event::Fault { .. } => "error",
        Event::Routed { .. } => "routed",
        Event::Pause => "pause",
        Event::Resume => "resume",
        Event::Inject { .. } => "inject",
        Event::Restart { .. } => "restart",
    };
    texts.push(("ts".to_owned(), now.to_owned()));
    texts.push(("task_id".to_owned(), ctx.task_id.clone()));
    texts.push(("event".to_owned(), name.to_owned()));
    counts.push(("attempt".to_owned(), ctx.attempt as u64));
    match event {
        Event::Start { cwd } => {
            texts.push(("cwd".to_owned(), cwd.clone()));
        },
        Event::Error { code } => {
            codes.push(("code".to_owned(), *code));
        },
        Event::Fault { error } => {
            texts.push(("error".to_owned(), error.clone()));
        },
        Event::Routed { to, bytes } => {
            texts.push(("to".to_owned(), to.clone()));
            counts.push(("bytes".to_owned(), *bytes));
        },
        Event::Inject { guidance } => {
            texts.push(("guidance".to_owned(), guidance.clone()));
        },
        Event::Restart { guidance } => {
            texts.push(("guidance".to_owned(), guidance.clone()));
        },
        _ => {},
    }
    proof {
        assert(text_fields(texts@) =~= seq![
            ("ts"@, now@),
            ("task_id"@, ctx.task_id@),
            ("event"@, event_name(event@)),
        ] + own_texts(event@));
        assert(count_fields(counts@) =~= seq![("attempt"@, ctx.attempt as u64)] + own_counts(
            event@,
        ));
        assert(code_fields(codes@) =~= own_codes(event@));
    }
    let mut text = json_line(&texts, &counts, &codes);
    let ghost line = text@;
    text.push('\n');
    proof {
        assert(text@.drop_last() =~= line);
    }
    EventWrite { file: path_join(ctx.run_dir.as_str(), "events.ndjson"), text }
}

/// Law: an event is a line of the file `events.ndjson` in the directory of its task. It holds the time,
/// the task, the attempt, the name of the event, and what is told of an event of its kind.
pub proof fn law_event_lines(ctx: &SubAgentEventCtx, now: &str, event: &Event, r: EventWrite)
    requires
        call_ensures(event_write, (ctx, now, event), r),
    ensures
        r.file@ == join_path(ctx.run_dir@, "events.ndjson"@),
        event@ matches EventView::Start { cwd } ==> r.text@ == json_object(
            seq![("ts"@, now@), ("task_id"@, ctx.task_id@), ("event"@, "start"@), ("cwd"@, cwd)],
            seq![("attempt"@, ctx.attempt as u64)],
            Seq::<(Seq<char>, i32)>::empty(),
        ) + seq!['\n'],
        event@ matches EventView::Success ==> r.text@ == json_object(
            seq![("ts"@, now@), ("task_id"@, ctx.task_id@), ("event"@, "success"@)],
            seq![("attempt"@, ctx.attempt as u64)],
            Seq::<(Seq<char>, i32)>::empty(),
        ) + seq!['\n'],
        event@ matches EventView::Error { code } ==> r.text@ == json_object(
            seq![("ts"@, now@), ("task_id"@, ctx.task_id@), ("event"@, "error"@)],
            seq![("attempt"@, ctx.attempt as u64)],
            seq![("code"@, code)],
        ) + seq!['\n'],
        event@ matches EventView::Fault { error } ==> r.text@ == json_object(
            seq![("ts"@, now@), ("task_id"@, ctx.task_id@), ("event"@, "error"@), ("error"@, error)],
            seq![("attempt"@, ctx.attempt as u64)],
            Seq::<(Seq<char>, i32)>::empty(),
        ) + seq!['\n'],
        event@ matches EventView::Routed { to, bytes } ==> r.text@ == json_object(
            seq![("ts"@, now@), ("task_id"@, ctx.task_id@), ("event"@, "routed"@), ("to"@, to)],
            seq![("attempt"@, ctx.attempt as u64), ("bytes"@, bytes)],
            Seq::<(Seq<char>, i32)>::empty(),
        ) + seq!['\n'],
        event@ matches EventView::Pause ==> r.text@ == json_object(
            seq![("ts"@, now@), ("task_id"@, ctx.task_id@), ("event"@, "pause"@)],
            seq![("attempt"@, ctx.attempt as u64)],
            Seq::<(Seq<char>, i32)>::empty(),
        ) + seq!['\n'],
        event@ matches EventView::Resume ==> r.text@ == json_object(
            seq![("ts"@, now@), ("task_id"@, ctx.task_id@), ("event"@, "resume"@)],
            seq![("attempt"@, ctx.attempt as u64)],
            Seq::<(Seq<char>, i32)>::empty(),
        ) + seq!['\n'],
        event@ matches EventView::Inject { guidance } ==> r.text@ == json_object(
            seq![("ts"@, now@), ("task_id"@, ctx.task_id@), ("event"@, "inject"@), ("guidance"@, guidance)],
            seq![("attempt"@, ctx.attempt as u64)],
            Seq::<(Seq<char>, i32)>::empty(),
        ) + seq!['\n'],
        event@ matches EventView::Restart { guidance } ==> r.text@ == json_object(
            seq![("ts"@, now@), ("task_id"@, ctx.task_id@), ("event"@, "restart"@), ("guidance"@, guidance)],
            seq![("attempt"@, ctx.attempt as u64)],
            Seq::<(Seq<char>, i32)>::empty(),
        ) + seq!['\n'],
{
    let t = seq![("ts"@, now@), ("task_id"@, ctx.task_id@), ("event"@, event_name(event@))]
        + own_texts(event@);
    let n = seq![("attempt"@, ctx.attempt as u64)] + own_counts(event@);
    let c = own_codes(event@);
    assert(r@.text == r.text@ && r@.file == r.file@);
    assert(r.text@ =~= json_object(t, n, c) + seq!['\n']);
    match event@ {
        EventView::Start { cwd } => {
            assert(t =~= seq![("ts"@, now@), ("task_id"@, ctx.task_id@), ("event"@, "start"@), ("cwd"@, cwd)]);
            assert(n =~= seq![("attempt"@, ctx.attempt as u64)]);
            assert(c =~= Seq::<(Seq<char>, i32)>::empty());
        },
        EventView::Success => {
            assert(t =~= seq![("ts"@, now@), ("task_id"@, ctx.task_id@), ("event"@, "success"@)]);
            assert(n =~= seq![("attempt"@, ctx.attempt as u64)]);
            assert(c =~= Seq::<(Seq<char>, i32)>::empty());
        },
        EventView::Error { code } => {
            assert(t =~= seq![("ts"@, now@), ("task_id"@, ctx.task_id@), ("event"@, "error"@)]);
            assert(n =~= seq![("attempt"@, ctx.attempt as u64)]);
            assert(c =~= seq![("code"@, code)]);
        },
        EventView::Fault { error } => {
            assert(t =~= seq![("ts"@, now@), ("task_id"@, ctx.task_id@), ("event"@, "error"@), ("error"@, error)]);
            assert(n =~= seq![("attempt"@, ctx.attempt as u64)]);
            assert(c =~= Seq::<(Seq<char>, i32)>::empty());
        },
        EventView::Routed { to, bytes } => {
            assert(t =~= seq![("ts"@, now@), ("task_id"@, ctx.task_id@), ("event"@, "routed"@), ("to"@, to)]);
            assert(n =~= seq![("attempt"@, ctx.attempt as u64), ("bytes"@, bytes)]);
            assert(c =~= Seq::<(Seq<char>, i32)>::empty());
        },
        EventView::Pause => {
            assert(t =~= seq![("ts"@, now@), ("task_id"@, ctx.task_id@), ("event"@, "pause"@)]);
            assert(n =~= seq![("attempt"@, ctx.attempt as u64)]);
            assert(c =~= Seq::<(Seq<char>, i32)>::empty());
        },
        EventView::Resume => {
            assert(t =~= seq![("ts"@, now@), ("task_id"@, ctx.task_id@), ("event"@, "resume"@)]);
            assert(n =~= seq![("attempt"@, ctx.attempt as u64)]);
            assert(c =~= Seq::<(Seq<char>, i32)>::empty());
        },
        EventView::Inject { guidance } => {
            assert(t =~= seq![("ts"@, now@), ("task_id"@, ctx.task_id@), ("event"@, "inject"@), ("guidance"@, guidance)]);
            assert(n =~= seq![("attempt"@, ctx.attempt as u64)]);
            assert(c =~= Seq::<(Seq<char>, i32)>::empty());
        },
        EventView::Restart { guidance } => {
            assert(t =~= seq![("ts"@, now@), ("task_id"@, ctx.task_id@), ("event"@, "restart"@), ("guidance"@, guidance)]);
            assert(n =~= seq![("attempt"@, ctx.attempt as u64)]);
            assert(c =~= Seq::<(Seq<char>, i32)>::empty());
        },
    }
}

} // verus!
