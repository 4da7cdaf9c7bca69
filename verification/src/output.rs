//! The output of a sub-agent, kept in memory for scrollback.

use std::collections::VecDeque;
use vstd::prelude::*;
use vstd::string::*;

use crate::text::views;

verus! {

/// Which of the output streams a line came from.
#[derive(Clone, Copy, Debug, PartialEq, Eq, Structural)]
pub enum StreamKind {
    Stdout,
    Stderr,
}

/// One line of output, without its newline.
#[derive(Debug)]
pub struct OutputItem {
    pub kind: StreamKind,
    pub text: String,
}

/// The model of an `OutputItem`.
#[verifier::ext_equal]
pub struct ItemView {
    pub kind: StreamKind,
    pub text: Seq<char>,
}

impl View for OutputItem {
    type V = ItemView;

    open spec fn view(&self) -> ItemView {
        ItemView { kind: self.kind, text: self.text@ }
    }
}

impl Clone for OutputItem {
    fn clone(&self) -> (r: Self)
        ensures
            r@ == self@,
    {
        OutputItem { kind: self.kind, text: self.text.clone() }
    }
}

/// A bounded buffer of output lines that drops the oldest line when it is full.
#[derive(Debug)]
pub struct RingBuffer {
    cap: usize,
    buf: VecDeque<OutputItem>,
}

/// The last `n` items, or all of them where there are no more than `n`.
pub open spec fn last_items(items: Seq<ItemView>, n: nat) -> Seq<ItemView> {
    if items.len() <= n {
        items
    } else {
        items.skip(items.len() - n)
    }
}

impl View for RingBuffer {
    type V = Seq<ItemView>;

    closed spec fn view(&self) -> Seq<ItemView> {
        views(self.buf@)
    }
}

impl RingBuffer {
    /// The number of items that the buffer holds at most.
    pub closed spec fn capacity(&self) -> nat {
        self.cap as nat
    }

    /// Whether the buffer holds no more than it may, and may hold something.
    pub open spec fn wf(&self) -> bool {
        1 <= self.capacity() && self@.len() <= self.capacity()
    }

    /// Makes an empty buffer. It holds at least one item, whatever `capacity` says.
    pub fn new(capacity: usize) -> (r: Self)
        ensures
            r.wf(),
            r@ == Seq::<ItemView>::empty(),
            r.capacity() == (if capacity == 0 {
                1
            } else {
                capacity as nat
            }),
    {
        let cap: usize = if capacity == 0 {
            1
        } else {
            capacity
        };
        let r = RingBuffer { cap, buf: VecDeque::new() };
        assert(r@ =~= Seq::<ItemView>::empty());
        r
    }

    /// The number of items held.
    pub fn len(&self) -> (n: usize)
        ensures
            n == self@.len(),
    {
        self.buf.len()
    }

    /// Appends an item; the oldest one gives way where the buffer is full.
    pub fn push(&mut self, item: OutputItem)
        requires
            old(self).wf(),
        ensures
            final(self).wf(),
            final(self).capacity() == old(self).capacity(),
            final(self)@ == last_items(old(self)@.push(item@), old(self).capacity()),
    {
        let ghost before = self.buf@;
        if self.buf.len() == self.cap {
            self.buf.pop_front();
        }
        self.buf.push_back(item);
        proof {
            let all = views(before).push(item@);
            assert(views(self.buf@) =~= last_items(all, self.capacity()));
        }
    }

    /// A copy of the items, the oldest first.
    pub fn snapshot(&self) -> (r: Vec<OutputItem>)
        ensures
            views(r@) == self@,
    {
        let mut r: Vec<OutputItem> = Vec::new();
        let mut i: usize = 0;
        while i < self.buf.len()
            invariant
                i <= self.buf@.len(),
                r@.len() == i,
                forall|j: int| 0 <= j < i ==> (#[trigger] r@[j])@ == self.buf@[j]@,
            decreases self.buf@.len() - i,
        {
            r.push(self.buf[i].clone());
            i += 1;
        }
        assert(views(r@) =~= self@);
        r
    }
}

/// The output of one agent: a buffer for scrollback. What `push_line` hands back goes to whoever
/// listens to the live output.
#[derive(Debug)]
pub struct AgentStream {
    inner: RingBuffer,
}

impl View for AgentStream {
    type V = Seq<ItemView>;

    closed spec fn view(&self) -> Seq<ItemView> {
        self.inner@
    }
}

impl AgentStream {
    /// The number of lines that the stream keeps at most.
    pub closed spec fn capacity(&self) -> nat {
        self.inner.capacity()
    }

    /// Whether the buffer is well-formed.
    pub closed spec fn wf(&self) -> bool {
        self.inner.wf()
    }

    /// Makes a stream that keeps `capacity` lines, at least one.
    pub fn new(capacity: usize) -> (r: Self)
        ensures
            r.wf(),
            r@ == Seq::<ItemView>::empty(),
            r.capacity() == (if capacity == 0 {
                1
            } else {
                capacity as nat
            }),
    {
        AgentStream { inner: RingBuffer::new(capacity) }
    }

    /// Appends a line and hands back the item to publish.
    pub fn push_line(&mut self, kind: StreamKind, line: &str) -> (item: OutputItem)
        requires
            old(self).wf(),
        ensures
            item@ == (ItemView { kind, text: line@ }),
            final(self).wf(),
            final(self).capacity() == old(self).capacity(),
            final(self)@ == last_items(old(self)@.push(item@), old(self).capacity()),
    {
        let item = OutputItem { kind, text: line.to_owned() };
        self.inner.push(item.clone());
        item
    }

    /// A copy of the lines kept, the oldest first.
    pub fn snapshot(&self) -> (r: Vec<OutputItem>)
        ensures
            views(r@) == self@,
    {
        self.inner.snapshot()
    }
}

/// What a buffer holds after `items` were pushed one after another.
pub open spec fn after_pushes(held: Seq<ItemView>, capacity: nat, items: Seq<ItemView>) -> Seq<
    ItemView,
>
    decreases items.len(),
{
    if items.len() == 0 {
        held
    } else {
        last_items(after_pushes(held, capacity, items.drop_last()).push(items.last()), capacity)
    }
}

/// Law: a buffer holds the last items pushed, in the order in which they were pushed, as many as
/// its capacity allows.
pub proof fn law_last_pushed(capacity: nat, items: Seq<ItemView>)
    requires
        capacity >= 1,
    ensures
        after_pushes(seq![], capacity, items) == last_items(items, capacity),
    decreases items.len(),
{
    if items.len() > 0 {
        let rest = items.drop_last();
        law_last_pushed(capacity, rest);
        assert(rest.push(items.last()) =~= items);
        assert(after_pushes(seq![], capacity, items) =~= last_items(items, capacity));
    }
}

/// Law: what a buffer keeps are the newest items in their order, and as many as it can.
pub proof fn law_newest_kept(items: Seq<ItemView>, n: nat, i: int)
    ensures
        last_items(items, n).len() == (if items.len() < n {
            items.len()
        } else {
            n
        }),
        0 <= i < last_items(items, n).len() ==> last_items(items, n)[last_items(items, n).len() - 1
            - i] == items[items.len() - 1 - i],
{
}

/// Law: an item that is pushed is the newest; where the buffer is full the oldest one goes, and else
/// none.
pub proof fn law_pushed(buffer: &mut RingBuffer, item: OutputItem, r: ())
    requires
        call_ensures(RingBuffer::push, (buffer, item), r),
        old(buffer).wf(),
    ensures
        final(buffer)@.len() > 0,
        final(buffer)@.last() == item@,
        old(buffer)@.len() < old(buffer).capacity() ==> final(buffer)@ == old(buffer)@.push(item@),
        old(buffer)@.len() == old(buffer).capacity() ==> final(buffer)@
            == old(buffer)@.skip(1).push(item@),
        final(buffer).capacity() == old(buffer).capacity(),
{
    let all = old(buffer)@.push(item@);
    if old(buffer)@.len() == old(buffer).capacity() {
        assert(all.skip(1) =~= old(buffer)@.skip(1).push(item@));
    }
}

/// Law: a line that is pushed to a stream is published as it is, and kept as the newest.
pub proof fn law_published(stream: &mut AgentStream, kind: StreamKind, line: &str, item: OutputItem)
    requires
        call_ensures(AgentStream::push_line, (stream, kind, line), item),
        old(stream).wf(),
        old(stream)@.len() <= old(stream).capacity(),
        old(stream).capacity() >= 1,
    ensures
        item.kind == kind,
        item.text@ == line@,
        final(stream)@.len() > 0,
        final(stream)@.last() == item@,
        old(stream)@.len() < old(stream).capacity() ==> final(stream)@ == old(stream)@.push(item@),
{
    assert(item@.kind == item.kind && item@.text == item.text@);
}

/// Law: a new buffer is empty and holds as many items as it was made for, at least one.
pub proof fn law_new_buffer(capacity: usize, r: RingBuffer, s: AgentStream)
    requires
        call_ensures(RingBuffer::new, (capacity,), r),
        call_ensures(AgentStream::new, (capacity,), s),
    ensures
        r@.len() == 0,
        s@.len() == 0,
        capacity > 0 ==> r.capacity() == capacity && s.capacity() == capacity,
        capacity == 0 ==> r.capacity() == 1 && s.capacity() == 1,
{
}

/// Law: a snapshot is what the buffer holds, item by item.
pub proof fn law_snapshot(b: &RingBuffer, r: Vec<OutputItem>, s: &AgentStream, q: Vec<OutputItem>, i: int)
    requires
        call_ensures(RingBuffer::snapshot, (b,), r),
        call_ensures(AgentStream::snapshot, (s,), q),
    ensures
        r@.len() == b@.len(),
        q@.len() == s@.len(),
        0 <= i < r@.len() ==> r@[i]@ == b@[i],
        0 <= i < q@.len() ==> q@[i]@ == s@[i],
{
    assert(views(r@).len() == r@.len() && views(q@).len() == q@.len());
    if 0 <= i < r@.len() {
        assert(views(r@)[i] == r@[i]@);
    }
    if 0 <= i < q@.len() {
        assert(views(q@)[i] == q@[i]@);
    }
}

} // verus!
