//! Inter-agent message protocol and parser.
//!
//! An agent sends a message to a peer by printing a delimited block to stdout:
//!
//! ```text
//! @@to: <task_id>
//! <message body (any text)>
//! @@/to
//! ```
//!
//! - `<task_id>` is the id of the target task.
//! - The body may span multiple lines. The block ends at a line that is exactly `@@/to`, but for
//!   whitespace around it.
//! - Blocks are not nested: `@@to:` inside a body is plain text.
//! - Any number of blocks can appear in the output.

use vstd::prelude::*;
use vstd::string::*;

use crate::text::blank;
use crate::text::chars_of;
use crate::text::contains_text;
use crate::text::find_char;
use crate::text::is_white;
use crate::text::join;
use crate::text::law_join_split;
use crate::text::law_trim_around;
use crate::text::lemma_trim;
use crate::text::occurs_at;
use crate::text::same_text;
use crate::text::skip_white;
use crate::text::split_on;
use crate::text::split_text;
use crate::text::starts_with;
use crate::text::text_at;
use crate::text::text_of;
use crate::text::trim;
use crate::text::trim_range;
use crate::text::trim_start;
use crate::text::trimmed;
use crate::text::views;

verus! {

/// A message for another task.
#[derive(Debug, PartialEq, Eq)]
pub struct RoutedMessage {
    pub to: String,
    pub body: String,
}

/// The model of a `RoutedMessage`.
#[verifier::ext_equal]
pub struct MessageView {
    pub to: Seq<char>,
    pub body: Seq<char>,
}

impl View for RoutedMessage {
    type V = MessageView;

    open spec fn view(&self) -> MessageView {
        MessageView { to: self.to@, body: self.body@ }
    }
}

impl Clone for RoutedMessage {
    fn clone(&self) -> (r: Self)
        ensures
            r@ == self@,
    {
        RoutedMessage { to: self.to.clone(), body: self.body.clone() }
    }
}

/// Streaming parser for routed message blocks.
#[derive(Debug)]
pub struct InterAgentParser {
    in_block: bool,
    target: String,
    buf: String,
}

/// The model of an `InterAgentParser`: outside a block, or inside one with its target and what was
/// read of its body.
#[verifier::ext_equal]
pub enum ParserView {
    Outside,
    Inside { target: Seq<char>, body: Seq<char> },
}

/// The target that an opening line names: what follows `@@to:`, but for whitespace around it. It
/// is not empty and stays on one line.
pub open spec fn opened(line: Seq<char>) -> Option<Seq<char>> {
    let t = trim_start(line);
    let id = trim(t.skip(5));
    if starts_with(t, "@@to:"@) && id.len() > 0 && !id.contains('\n') {
        Some(id)
    } else {
        None
    }
}

/// Whether a line closes a block.
pub open spec fn closes(line: Seq<char>) -> bool {
    trim(line) == "@@/to"@
}

/// The body after one more line: lines are separated by `\n`, and an empty body takes the line as
/// it is.
pub open spec fn with_line(body: Seq<char>, line: Seq<char>) -> Seq<char> {
    if body.len() == 0 {
        line
    } else {
        body.push('\n') + line
    }
}

/// The state of the parser after a line.
pub open spec fn fed(state: ParserView, line: Seq<char>) -> ParserView {
    match state {
        ParserView::Outside => match opened(line) {
            Some(target) => ParserView::Inside { target, body: seq![] },
            None => ParserView::Outside,
        },
        ParserView::Inside { target, body } => if closes(line) {
            ParserView::Outside
        } else {
            ParserView::Inside { target, body: with_line(body, line) }
        },
    }
}

/// The message that a line completes.
pub open spec fn completed(state: ParserView, line: Seq<char>) -> Option<MessageView> {
    match state {
        ParserView::Outside => None,
        ParserView::Inside { target, body } => if closes(line) {
            Some(MessageView { to: target, body })
        } else {
            None
        },
    }
}

/// The state of the parser after some lines.
pub open spec fn fed_all(state: ParserView, lines: Seq<Seq<char>>) -> ParserView
    decreases lines.len(),
{
    if lines.len() == 0 {
        state
    } else {
        fed(fed_all(state, lines.drop_last()), lines.last())
    }
}

/// The messages that some lines complete.
pub open spec fn messages(state: ParserView, lines: Seq<Seq<char>>) -> Seq<MessageView>
    decreases lines.len(),
{
    if lines.len() == 0 {
        seq![]
    } else {
        let before = messages(state, lines.drop_last());
        match completed(fed_all(state, lines.drop_last()), lines.last()) {
            Some(m) => before.push(m),
            None => before,
        }
    }
}

impl View for InterAgentParser {
    type V = ParserView;

    closed spec fn view(&self) -> ParserView {
        if self.in_block {
            ParserView::Inside { target: self.target@, body: self.buf@ }
        } else {
            ParserView::Outside
        }
    }
}

impl InterAgentParser {
    /// Makes a parser that stands outside a block.
    pub fn new() -> (r: Self)
        ensures
            r@ == ParserView::Outside,
    {
        InterAgentParser { in_block: false, target: String::new(), buf: String::new() }
    }

    /// Feeds one line, without its `\n`. Returns the message that the line completes.
    pub fn feed_line(&mut self, line: &str) -> (r: Option<RoutedMessage>)
        ensures
            final(self)@ == fed(old(self)@, line@),
            match r {
                Some(m) => completed(old(self)@, line@) == Some(m@),
                None => completed(old(self)@, line@) is None,
            },
    {
        if !self.in_block {
            if let Some(target) = parse_open(line) {
                self.in_block = true;
                self.target = target;
                self.buf = String::new();
            }
            return None;
        }
        if is_close(line) {
            let message = RoutedMessage { to: self.target.clone(), body: self.buf.clone() };
            self.in_block = false;
            self.target = String::new();
            self.buf = String::new();
            return Some(message);
        }
        if !self.buf.as_str().is_empty() {
            self.buf.push('\n');
        }
        self.buf.append(line);
        proof {
            let body = old(self).buf@;
            if body.len() == 0 {
                assert(body + line@ =~= line@);
            }
        }
        None
    }
}

impl Default for InterAgentParser {
    fn default() -> (r: Self)
        ensures
            r@ == ParserView::Outside,
    {
        InterAgentParser::new()
    }
}

/// The target that an opening line names.
fn parse_open(line: &str) -> (r: Option<String>)
    ensures
        match r {
            Some(id) => opened(line@) == Some(id@),
            None => opened(line@) is None,
        },
{
    let v = chars_of(line);
    let tag = chars_of("@@to:");
    let i: usize = skip_white(&v, 0, v.len());
    let ghost t = trim_start(line@);
    proof {
        reveal_strlit("@@to:");
        assert(v@.subrange(0, v@.len() as int) =~= v@);
        assert(t =~= v@.skip(i as int));
        assert(occurs_at(v@, tag@, i as int) <==> starts_with(t, tag@)) by {
            if i + 5 <= v@.len() {
                assert(t.take(5) =~= v@.subrange(i as int, i + 5));
            }
        }
    }
    if !text_at(&v, i, &tag) {
        return None;
    }
    let (a, b) = trim_range(&v, i + 5, v.len());
    proof {
        assert(t.skip(5) =~= v@.subrange(i + 5, v@.len() as int));
    }
    let ghost id = trim(t.skip(5));
    let nl: usize = find_char(&v, a, '\n');
    proof {
        assert(id == v@.subrange(a as int, b as int));
        if nl < b {
            assert(id[nl - a] == '\n');
        }
        if id.contains('\n') {
            let k = id.index_of('\n');
            assert(v@[a + k] == '\n');
        }
    }
    if a == b || nl < b {
        return None;
    }
    Some(text_of(&v, a, b))
}

/// Tells whether a line closes a block.
fn is_close(line: &str) -> (r: bool)
    ensures
        r == closes(line@),
{
    same_text(trimmed(line).as_str(), "@@/to")
}

/// Parses all messages in a text.
pub fn parse_all(input: &str) -> (r: Vec<RoutedMessage>)
    ensures
        views(r@) == messages(ParserView::Outside, split_on(input@, '\n')),
{
    let mut parser = InterAgentParser::new();
    let mut out: Vec<RoutedMessage> = Vec::new();
    let lines = split_text(input, '\n');
    let ghost all = views(lines@);
    let mut i: usize = 0;
    proof {
        assert(all.take(0) =~= seq![]);
    }
    while i < lines.len()
        invariant
            i <= lines@.len(),
            all == views(lines@),
            parser@ == fed_all(ParserView::Outside, all.take(i as int)),
            views(out@) == messages(ParserView::Outside, all.take(i as int)),
        decreases lines@.len() - i,
    {
        broadcast use crate::text::lemma_views_push;

        proof {
            let next = all.take(i + 1);
            assert(next.drop_last() =~= all.take(i as int));
            assert(next.last() == lines@[i as int]@);
        }
        if let Some(message) = parser.feed_line(lines[i].as_str()) {
            out.push(message);
        }
        i += 1;
    }
    proof {
        assert(all.take(i as int) =~= all);
    }
    out
}

/// What sub-agents are told about their peers and how to send messages to them.
pub const PROTOCOL_PRIMER: &'static str =
    "Peers and routing: Multiple sub-agents may run concurrently with unique Task IDs. To send guidance to a peer, print a routed block to stdout:\n\n@@to: <task_id>\n<message>\n@@/to\n\nThe runner will deliver the message to the target agent and continue your run.";

/// The lines without the empty ones at the start.
pub open spec fn drop_empty(lines: Seq<Seq<char>>) -> Seq<Seq<char>>
    decreases lines.len(),
{
    if lines.len() > 0 && lines[0].len() == 0 {
        drop_empty(lines.skip(1))
    } else {
        lines
    }
}

proof fn lemma_drop_empty_last(lines: Seq<Seq<char>>)
    requires
        lines.len() > 0,
    ensures
        drop_empty(lines) == (if drop_empty(lines.drop_last()).len() == 0
            && lines.last().len() == 0 {
            seq![]
        } else {
            drop_empty(lines.drop_last()).push(lines.last())
        }),
    decreases lines.len(),
{
    let rest = lines.drop_last();
    if lines.len() == 1 {
        assert(rest =~= seq![]);
        assert(lines.skip(1) =~= seq![]);
        assert(lines =~= seq![lines.last()]);
        assert(drop_empty(rest).push(lines.last()) =~= lines);
    } else if lines[0].len() == 0 {
        assert(rest[0] == lines[0]);
        lemma_drop_empty_last(lines.skip(1));
        assert(lines.skip(1).drop_last() =~= rest.skip(1));
        assert(lines.skip(1).last() == lines.last());
    } else {
        assert(rest[0] == lines[0]);
        assert(rest.push(lines.last()) =~= lines);
    }
}

/// The body that lines build up inside a block.
proof fn lemma_body(target: Seq<char>, lines: Seq<Seq<char>>)
    requires
        forall|i: int| 0 <= i < lines.len() ==> !closes(#[trigger] lines[i]),
    ensures
        fed_all(ParserView::Inside { target, body: seq![] }, lines) == (ParserView::Inside {
            target,
            body: join(drop_empty(lines), seq!['\n']),
        }),
        messages(ParserView::Inside { target, body: seq![] }, lines) == Seq::<
            MessageView,
        >::empty(),
        join(drop_empty(lines), seq!['\n']).len() == 0 <==> drop_empty(lines).len() == 0,
    decreases lines.len(),
{
    if lines.len() > 0 {
        let rest = lines.drop_last();
        assert forall|i: int| 0 <= i < rest.len() implies !closes(#[trigger] rest[i]) by {
            assert(rest[i] == lines[i]);
        }
        lemma_body(target, rest);
        lemma_drop_empty_last(lines);
        let kept = drop_empty(rest);
        let body = join(kept, seq!['\n']);
        let last = lines.last();
        if kept.len() == 0 {
            if last.len() > 0 {
                assert(kept.push(last) =~= seq![last]);
            }
        } else {
            assert(kept.push(last).drop_last() =~= kept);
            assert(body + seq!['\n'] + last =~= body.push('\n') + last);
        }
        assert(with_line(body, last) =~= join(drop_empty(lines), seq!['\n']));
    }
}

/// Law: an opening line, body lines and a closing line make exactly one message, addressed to the
/// named target, whose body is the lines between, and leave the parser outside a block. Opening
/// lines in between are body text; empty lines before the first other line are not kept.
pub proof fn law_block(open: Seq<char>, target: Seq<char>, lines: Seq<Seq<char>>, close: Seq<char>)
    requires
        opened(open) == Some(target),
        forall|i: int| 0 <= i < lines.len() ==> !closes(#[trigger] lines[i]),
        closes(close),
    ensures
        fed_all(ParserView::Outside, seq![open] + lines + seq![close]) == ParserView::Outside,
        messages(ParserView::Outside, seq![open] + lines + seq![close]) == seq![
            MessageView { to: target, body: join(drop_empty(lines), seq!['\n']) },
        ],
{
    let block = seq![open] + lines;
    assert((block + seq![close]).drop_last() =~= block);
    lemma_prefix(open, target, lines);
    lemma_body(target, lines);
    assert(messages(ParserView::Outside, block + seq![close]) =~= seq![
        MessageView { to: target, body: join(drop_empty(lines), seq!['\n']) },
    ]);
}

proof fn lemma_prefix(open: Seq<char>, target: Seq<char>, lines: Seq<Seq<char>>)
    requires
        opened(open) == Some(target),
    ensures
        fed_all(ParserView::Outside, seq![open] + lines) == fed_all(
            ParserView::Inside { target, body: seq![] },
            lines,
        ),
        messages(ParserView::Outside, seq![open] + lines) == messages(
            ParserView::Inside { target, body: seq![] },
            lines,
        ),
    decreases lines.len(),
{
    let all = seq![open] + lines;
    if lines.len() == 0 {
        assert(all =~= seq![open]);
        assert(all.drop_last() =~= seq![]);
        assert(fed_all(ParserView::Outside, all.drop_last()) == ParserView::Outside);
        assert(messages(ParserView::Outside, all.drop_last()) == Seq::<MessageView>::empty());
    } else {
        lemma_prefix(open, target, lines.drop_last());
        assert(all.drop_last() =~= seq![open] + lines.drop_last());
    }
}

/// Law: lines that open no block make no message and leave the parser outside a block, closing
/// lines among them.
pub proof fn law_outside(lines: Seq<Seq<char>>)
    requires
        forall|i: int| 0 <= i < lines.len() ==> opened(#[trigger] lines[i]) is None,
    ensures
        fed_all(ParserView::Outside, lines) == ParserView::Outside,
        messages(ParserView::Outside, lines) == Seq::<MessageView>::empty(),
    decreases lines.len(),
{
    if lines.len() > 0 {
        let rest = lines.drop_last();
        assert forall|i: int| 0 <= i < rest.len() implies opened(#[trigger] rest[i]) is None by {
            assert(rest[i] == lines[i]);
        }
        law_outside(rest);
    }
}

/// Law: feeding lines in two portions gives what feeding them at once gives.
pub proof fn law_portions(state: ParserView, a: Seq<Seq<char>>, b: Seq<Seq<char>>)
    ensures
        fed_all(state, a + b) == fed_all(fed_all(state, a), b),
        messages(state, a + b) == messages(state, a) + messages(fed_all(state, a), b),
    decreases b.len(),
{
    if b.len() == 0 {
        assert(a + b =~= a);
        assert(messages(state, a) + seq![] =~= messages(state, a));
    } else {
        law_portions(state, a, b.drop_last());
        assert((a + b).drop_last() =~= a + b.drop_last());
        assert(messages(state, a + b) =~= messages(state, a) + messages(fed_all(state, a), b));
    }
}

/// `@@to:` between two texts.
pub open spec fn opening(a: Seq<char>, b: Seq<char>) -> Seq<char> {
    a + seq!['@', '@', 't', 'o', ':'] + b
}

/// `@@/to` between two texts.
pub open spec fn closing(a: Seq<char>, b: Seq<char>) -> Seq<char> {
    a + seq!['@', '@', '/', 't', 'o'] + b
}

/// Law: a line with `@@to:` and an id opens a block for that id, whatever whitespace stands before,
/// between and after them.
pub proof fn law_opening_line(a: Seq<char>, b: Seq<char>, id: Seq<char>, c: Seq<char>)
    requires
        blank(a),
        blank(b),
        blank(c),
        id.len() > 0,
        !is_white(id[0]),
        !is_white(id.last()),
        !id.contains('\n'),
    ensures
        opened(a + seq!['@', '@', 't', 'o', ':'] + b + id + c) == Some(id),
{
    reveal_strlit("@@to:");
    let tag = seq!['@', '@', 't', 'o', ':'];
    assert("@@to:"@ =~= tag);
    let line = a + tag + b + id + c;
    let mid = tag + b + id;
    assert(line =~= a + mid + c);
    assert(mid[0] == '@');
    assert(mid.last() == id.last());
    law_trim_around(a, mid, c);
    let t = mid + c;
    assert(trim_start(line) == t);
    assert(t.take(5) =~= tag);
    assert(t.skip(5) =~= b + id + c);
    law_trim_around(b, id, c);
}

/// Law: a line opens a block only if it begins with `@@to:`, but for whitespace, and what follows is
/// more than whitespace.
pub proof fn law_not_opening(line: Seq<char>)
    ensures
        opened(line) matches Some(id) ==> {
            &&& id.len() > 0
            &&& !is_white(id[0])
            &&& !is_white(id.last())
            &&& !id.contains('\n')
            &&& exists|a: Seq<char>, rest: Seq<char>|
                blank(a) && line == #[trigger] opening(a, rest) && id == trim(rest)
        },
{
    match opened(line) {
        Some(id) => {
            reveal_strlit("@@to:");
            let tag = seq!['@', '@', 't', 'o', ':'];
            assert("@@to:"@ =~= tag);
            let t = trim_start(line);
            lemma_trim(t.skip(5));
            lemma_start_of(line);
            let a = line.take(line.len() - t.len());
            let rest = t.skip(5);
            assert(t.take(5) =~= tag);
            assert(line =~= opening(a, rest));
        },
        None => {},
    }
}

/// What is dropped at the start of a line is whitespace.
proof fn lemma_start_of(s: Seq<char>)
    ensures
        trim_start(s).len() <= s.len(),
        blank(s.take(s.len() - trim_start(s).len())),
        s == s.take(s.len() - trim_start(s).len()) + trim_start(s),
    decreases s.len(),
{
    let t = trim_start(s);
    if s.len() > 0 && is_white(s[0]) {
        let u = s.drop_first();
        lemma_start_of(u);
        let a = s.take(s.len() - t.len());
        let b = u.take(u.len() - t.len());
        assert(a =~= seq![s[0]] + b);
        assert forall|i: int| 0 <= i < a.len() implies is_white(#[trigger] a[i]) by {
            if i > 0 {
                assert(a[i] == b[i - 1]);
            }
        }
        assert(s =~= seq![s[0]] + u);
        assert(u == b + t);
        assert(s =~= a + t);
    } else {
        assert(s.take(0) + s =~= s);
    }
}

/// Law: a line closes a block exactly where it is `@@/to` with nothing but whitespace around it.
pub proof fn law_closing_line(line: Seq<char>)
    ensures
        closes(line) <==> exists|a: Seq<char>, b: Seq<char>|
            blank(a) && blank(b) && line == #[trigger] closing(a, b),
{
    reveal_strlit("@@/to");
    let tag = seq!['@', '@', '/', 't', 'o'];
    assert("@@/to"@ =~= tag);
    if closes(line) {
        lemma_trim(line);
        let (i, j) = choose|i: int, j: int|
            {
                &&& 0 <= i <= j <= line.len()
                &&& trim(line) == #[trigger] line.subrange(i, j)
                &&& forall|k: int| 0 <= k < i ==> is_white(#[trigger] line[k])
                &&& forall|k: int| j <= k < line.len() ==> is_white(#[trigger] line[k])
            };
        let a = line.take(i);
        let b = line.skip(j);
        assert(line =~= a + line.subrange(i, j) + b);
        assert(line == closing(a, b));
    }
    if exists|a: Seq<char>, b: Seq<char>|
        blank(a) && blank(b) && line == #[trigger] closing(a, b) {
        let (a, b) = choose|a: Seq<char>, b: Seq<char>|
            blank(a) && blank(b) && line == #[trigger] closing(a, b);
        law_trim_around(a, tag, b);
    }
}

/// Law: a message that an agent prints as a block of its own is the only one that is found, with its
/// target and its text unchanged.
pub proof fn law_message_arrives(
    id: Seq<char>,
    lines: Seq<Seq<char>>,
    input: &str,
    r: Vec<RoutedMessage>,
)
    requires
        call_ensures(parse_all, (input,), r),
        id.len() > 0,
        !is_white(id[0]),
        !is_white(id.last()),
        !id.contains('\n'),
        lines.len() > 0,
        lines[0].len() > 0,
        forall|i: int| 0 <= i < lines.len() ==> !(#[trigger] lines[i]).contains('\n'),
        forall|i: int, a: Seq<char>, b: Seq<char>|
            0 <= i < lines.len() && blank(a) && blank(b) ==> #[trigger] lines[i]
                != #[trigger] closing(a, b),
        input@ == join(
            seq![seq!['@', '@', 't', 'o', ':', ' '] + id] + lines + seq![
                seq!['@', '@', '/', 't', 'o'],
            ],
            seq!['\n'],
        ),
    ensures
        r@.len() == 1,
        r@[0].to@ == id,
        r@[0].body@ == join(lines, seq!['\n']),
{
    let open = seq!['@', '@', 't', 'o', ':', ' '] + id;
    let close = seq!['@', '@', '/', 't', 'o'];
    let all = seq![open] + lines + seq![close];
    let none = Seq::<char>::empty();
    assert forall|i: int| 0 <= i < all.len() implies !(#[trigger] all[i]).contains('\n') by {
        if i == 0 {
            assert forall|k: int| 0 <= k < open.len() implies open[k] != '\n' by {
                if k >= 6 {
                    assert(open[k] == id[k - 6]);
                    assert(id.contains(id[k - 6]));
                }
            }
        } else if i <= lines.len() {
            assert(all[i] == lines[i - 1]);
        }
    }
    law_join_split(all, '\n');
    assert(split_on(input@, '\n') == all);
    law_opening_line(none, seq![' '], id, none);
    assert(open =~= none + seq!['@', '@', 't', 'o', ':'] + seq![' '] + id + none);
    law_closing_line(close);
    assert(close =~= closing(none, none));
    assert forall|i: int| 0 <= i < lines.len() implies !closes(#[trigger] lines[i]) by {
        law_closing_line(lines[i]);
    }
    law_block(open, id, lines, close);
    assert(drop_empty(lines) == lines);
    let v = views(r@);
    assert(v.len() == 1);
    assert(r@[0]@ == v[0]);
}

/// Law: a line is fed as the parser stands: outside a block nothing but an opening line counts; inside,
/// a closing line completes the message, and any other line is added to it.
pub proof fn law_fed(
    parser: &mut InterAgentParser,
    line: &str,
    r: Option<RoutedMessage>,
)
    requires
        call_ensures(InterAgentParser::feed_line, (parser, line), r),
    ensures
        old(parser)@ is Outside ==> r is None,
        old(parser)@ is Outside ==> (opened(line@) matches Some(id) ==> final(parser)@
            == (ParserView::Inside { target: id, body: Seq::empty() })),
        old(parser)@ is Outside && opened(line@) is None ==> final(parser)@ is Outside,
        old(parser)@ matches ParserView::Inside { target, body } ==> {
            &&& closes(line@) ==> final(parser)@ is Outside && (r matches Some(m) && m.to@ == target
                && m.body@ == body)
            &&& !closes(line@) ==> r is None
            &&& !closes(line@) && body.len() == 0 ==> final(parser)@ == (ParserView::Inside {
                target,
                body: line@,
            })
            &&& !closes(line@) && body.len() > 0 ==> final(parser)@ == (ParserView::Inside {
                target,
                body: body + seq!['\n'] + line@,
            })
        },
{
    match r {
        Some(m) => {
            assert(m@.to == m.to@ && m@.body == m.body@);
        },
        None => {},
    }
    match old(parser)@ {
        ParserView::Inside { target, body } => {
            assert(body.push('\n') + line@ =~= body + seq!['\n'] + line@);
        },
        ParserView::Outside => {
            assert(Seq::<char>::empty() =~= seq![]);
        },
    }
}

/// Law: what agents are told of the protocol shows a block as it is parsed, on lines of its own.
pub proof fn law_protocol_shown()
    ensures
        contains_text(PROTOCOL_PRIMER@, "\n@@to: <task_id>\n<message>\n@@/to\n"@),
{
    reveal_strlit(
        "Peers and routing: Multiple sub-agents may run concurrently with unique Task IDs. To send guidance to a peer, print a routed block to stdout:\n\n@@to: <task_id>\n<message>\n@@/to\n\nThe runner will deliver the message to the target agent and continue your run.",
    );
    reveal_strlit("\n@@to: <task_id>\n<message>\n@@/to\n");
    let p = "\n@@to: <task_id>\n<message>\n@@/to\n"@;
    assert(PROTOCOL_PRIMER@.subrange(142, (142 + p.len()) as int) =~= p);
    assert(occurs_at(PROTOCOL_PRIMER@, p, 142));
}

} // verus!
