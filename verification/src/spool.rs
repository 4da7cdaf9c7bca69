//! Messages for tasks that have not started yet.
//!
//! Messages wait in memory, per target task, and in one append-only file per target,
//! `<base_run_dir>/spool/<task-id>.txt`. Delivery takes them from the file, adds those that never
//! reached it, and clears both.

use vstd::prelude::*;
use vstd::string::*;

use crate::error::worded;
use crate::paths::join_path;
use crate::paths::path_join;
use crate::strmap::StrMap;
use crate::text::first_index;
use crate::text::join;
use crate::text::lemma_first_index;
use crate::text::lemma_first_index_unique;
use crate::text::lemma_views_push;
use crate::text::lines;
use crate::text::lines_of;
use crate::text::split_on;
use crate::text::strip_cr;
use crate::text::views;

verus! {

/// The queued messages of a run.
#[derive(Debug)]
pub struct RoutedSpool {
    base_run_dir: String,
    mem: StrMap<Vec<QueuedMessage>>,
}

/// A queued message.
#[derive(Debug)]
pub struct QueuedMessage {
    pub text: String,
    /// Whether the message is on disk as well.
    pub persisted: bool,
}

/// The model of a `QueuedMessage`.
#[verifier::ext_equal]
pub struct QueuedView {
    pub text: Seq<char>,
    pub persisted: bool,
}

impl View for QueuedMessage {
    type V = QueuedView;

    open spec fn view(&self) -> QueuedView {
        QueuedView { text: self.text@, persisted: self.persisted }
    }
}

/// What is to be written to disk for a queued message: `text` at the end of `file`, in `dir`.
#[derive(Debug)]
pub struct SpoolWrite {
    pub dir: String,
    pub file: String,
    pub text: String,
    /// The place of the message among those queued for its task.
    pub place: usize,
}

/// The texts of messages.
pub open spec fn texts_of(messages: Seq<QueuedView>) -> Seq<Seq<char>> {
    Seq::new(messages.len(), |i: int| messages[i].text)
}

/// The texts of the messages that are on disk, or of those that are not, in order.
pub open spec fn chosen(messages: Seq<QueuedView>, persisted: bool) -> Seq<Seq<char>>
    decreases messages.len(),
{
    if messages.len() == 0 {
        seq![]
    } else {
        let before = chosen(messages.drop_last(), persisted);
        if messages.last().persisted == persisted {
            before.push(messages.last().text)
        } else {
            before
        }
    }
}

/// The texts that are not empty.
pub open spec fn non_empty(texts: Seq<Seq<char>>) -> Seq<Seq<char>>
    decreases texts.len(),
{
    if texts.len() == 0 {
        texts
    } else if texts.last().len() == 0 {
        non_empty(texts.drop_last())
    } else {
        non_empty(texts.drop_last()).push(texts.last())
    }
}

/// The messages that a spool file holds: its lines, but for the empty ones.
pub open spec fn spooled(file: Option<Seq<char>>) -> Seq<Seq<char>> {
    match file {
        Some(text) => non_empty(lines(text)),
        None => seq![],
    }
}

impl RoutedSpool {
    /// The directory of the run.
    pub closed spec fn base(&self) -> Seq<char> {
        self.base_run_dir@
    }

    /// The messages held in memory for a task.
    pub closed spec fn queue(&self, id: Seq<char>) -> Seq<QueuedView> {
        if self.mem@.dom().contains(id) {
            views(self.mem@[id]@)
        } else {
            seq![]
        }
    }

    /// The texts of the messages held in memory for a task.
    pub open spec fn queued(&self, id: Seq<char>) -> Seq<Seq<char>> {
        texts_of(self.queue(id))
    }

    /// The texts of those that are on disk as well.
    pub open spec fn persisted(&self, id: Seq<char>) -> Seq<Seq<char>> {
        chosen(self.queue(id), true)
    }

    /// The texts of those that are not on disk.
    pub open spec fn unpersisted(&self, id: Seq<char>) -> Seq<Seq<char>> {
        chosen(self.queue(id), false)
    }

    /// The spool file of a task.
    pub open spec fn file_of(&self, id: Seq<char>) -> Seq<char> {
        join_path(join_path(self.base(), "spool"@), id + ".txt"@)
    }

    /// Makes an empty spool for the run in `base_run_dir`.
    pub fn new(base_run_dir: &str) -> (r: Self)
        ensures
            r.base() == base_run_dir@,
            forall|id: Seq<char>| #[trigger] r.queue(id) == Seq::<QueuedView>::empty(),
    {
        RoutedSpool { base_run_dir: base_run_dir.to_owned(), mem: StrMap::new() }
    }

    /// The directory of the spool files.
    fn spool_dir(&self) -> (r: String)
        ensures
            r@ == join_path(self.base(), "spool"@),
    {
        path_join(self.base_run_dir.as_str(), "spool")
    }

    /// The spool file of a task.
    pub fn file_for(&self, task_id: &str) -> (r: String)
        ensures
            r@ == self.file_of(task_id@),
    {
        path_join(self.spool_dir().as_str(), worded(task_id, ".txt").as_str())
    }

    /// A copy of the messages held in memory for a task.
    fn copy_queue(&self, id: &str) -> (r: Vec<QueuedMessage>)
        ensures
            views(r@) == self.queue(id@),
    {
        let mut r: Vec<QueuedMessage> = Vec::new();
        if let Some(queue) = self.mem.get(id) {
            let mut i: usize = 0;
            while i < queue.len()
                invariant
                    i <= queue@.len(),
                    r@.len() == i,
                    forall|j: int| 0 <= j < i ==> (#[trigger] r@[j])@ == queue@[j]@,
                decreases queue@.len() - i,
            {
                let m = &queue[i];
                r.push(QueuedMessage { text: m.text.clone(), persisted: m.persisted });
                i += 1;
            }
        }
        assert(views(r@) =~= self.queue(id@));
        r
    }

    /// Queues a message for a task and tells what is to be written to disk for it. Once it is
    /// written, `mark_persisted` is owed.
    pub fn append(&mut self, to_task_id: &str, msg: &str) -> (w: SpoolWrite)
        ensures
            w.dir@ == join_path(old(self).base(), "spool"@),
            w.file@ == old(self).file_of(to_task_id@),
            w.text@ == msg@.push('\n'),
            w.place == old(self).queue(to_task_id@).len(),
            final(self).base() == old(self).base(),
            forall|id: Seq<char>| #[trigger]
                final(self).queue(id) == (if id == to_task_id@ {
                    old(self).queue(id).push(QueuedView { text: msg@, persisted: false })
                } else {
                    old(self).queue(id)
                }),
    {
        broadcast use lemma_views_push;

        let mut queue = self.copy_queue(to_task_id);
        let place: usize = queue.len();
        queue.push(QueuedMessage { text: msg.to_owned(), persisted: false });
        self.mem.insert(to_task_id.to_owned(), queue);
        let mut text = msg.to_owned();
        text.push('\n');
        SpoolWrite { dir: self.spool_dir(), file: self.file_for(to_task_id), text, place }
    }

    /// Records that the message for a task at a place is on disk. Nothing changes where there is no
    /// message at that place.
    pub fn mark_persisted(&mut self, to_task_id: &str, place: usize)
        ensures
            final(self).base() == old(self).base(),
            forall|id: Seq<char>| #[trigger]
                final(self).queue(id) == (if id == to_task_id@ && place < old(self).queue(id).len() {
                    let m = old(self).queue(id)[place as int];
                    old(self).queue(id).update(
                        place as int,
                        QueuedView { text: m.text, persisted: true },
                    )
                } else {
                    old(self).queue(id)
                }),
    {
        let mut queue = self.copy_queue(to_task_id);
        if place < queue.len() {
            let ghost before = views(queue@);
            queue[place].persisted = true;
            proof {
                let m = before[place as int];
                assert(views(queue@) =~= before.update(
                    place as int,
                    QueuedView { text: m.text, persisted: true },
                ));
            }
            self.mem.insert(to_task_id.to_owned(), queue);
        }
    }

    /// Takes all messages for a task: those that its file holds and then those that are only in
    /// memory. `file` is the text of the file, where it could be read. Once the messages are taken
    /// the file is to be emptied.
    pub fn take_all(&mut self, to_task_id: &str, file: Option<&str>) -> (r: Vec<String>)
        ensures
            views(r@) == spooled(
                match file {
                    Some(text) => Some(text@),
                    None => None,
                },
            ) + old(self).unpersisted(to_task_id@),
            final(self).base() == old(self).base(),
            forall|id: Seq<char>| #[trigger]
                final(self).queue(id) == (if id == to_task_id@ {
                    seq![]
                } else {
                    old(self).queue(id)
                }),
    {
        broadcast use lemma_views_push;

        let mut out: Vec<String> = match file {
            Some(text) => file_messages(text),
            None => Vec::new(),
        };
        let ghost from_file = views(out@);
        let queue = self.copy_queue(to_task_id);
        let ghost all = views(queue@);
        let mut i: usize = 0;
        proof {
            assert(file is None ==> from_file =~= seq![]);
            assert(all.take(0) =~= seq![]);
            assert(from_file + Seq::<Seq<char>>::empty() =~= from_file);
        }
        while i < queue.len()
            invariant
                i <= queue@.len(),
                all == views(queue@),
                views(out@) == from_file + chosen(all.take(i as int), false),
            decreases queue@.len() - i,
        {
            let ghost had = out@;
            let ghost before = chosen(all.take(i as int), false);
            proof {
                assert(all.take(i + 1).drop_last() =~= all.take(i as int));
                assert(all.take(i + 1).last() == queue@[i as int]@);
            }
            if !queue[i].persisted {
                out.push(queue[i].text.clone());
                proof {
                    lemma_views_push(had, out@.last());
                    assert(out@ =~= had.push(out@.last()));
                    assert(views(out@) =~= from_file + before.push(queue@[i as int].text@));
                }
            }
            i += 1;
        }
        proof {
            assert(all.take(i as int) =~= all);
        }
        self.mem.insert(to_task_id.to_owned(), Vec::new());
        proof {
            assert forall|id: Seq<char>| #[trigger] self.queue(id) == (if id == to_task_id@ {
                seq![]
            } else {
                old(self).queue(id)
            }) by {
                if id == to_task_id@ {
                    assert(self.queue(id) =~= seq![]);
                }
            }
        }
        out
    }
}

/// The messages that the text of a spool file holds.
fn file_messages(text: &str) -> (r: Vec<String>)
    ensures
        views(r@) == non_empty(lines(text@)),
{
    broadcast use lemma_views_push;

    let ls = lines_of(text);
    let mut r: Vec<String> = Vec::new();
    let mut i: usize = 0;
    proof {
        assert(views(ls@).take(0) =~= seq![]);
    }
    while i < ls.len()
        invariant
            i <= ls@.len(),
            views(r@) == non_empty(views(ls@).take(i as int)),
        decreases ls@.len() - i,
    {
        proof {
            let t = views(ls@).take(i + 1);
            assert(t.drop_last() =~= views(ls@).take(i as int));
            assert(t.last() == ls@[i as int]@);
        }
        if !ls[i].as_str().is_empty() {
            r.push(ls[i].clone());
        }
        i += 1;
    }
    proof {
        assert(views(ls@).take(i as int) =~= views(ls@));
    }
    r
}

/// The text of a file to which messages were appended, each followed by `\n`.
pub open spec fn written(messages: Seq<Seq<char>>) -> Seq<char>
    decreases messages.len(),
{
    if messages.len() == 0 {
        seq![]
    } else {
        messages[0].push('\n') + written(messages.skip(1))
    }
}

/// Whether a message is one line that is not empty and does not end in `\r`.
pub open spec fn plain(message: Seq<char>) -> bool {
    &&& message.len() > 0
    &&& !message.contains('\n')
    &&& message.last() != '\r'
}

proof fn lemma_written_lines(messages: Seq<Seq<char>>)
    requires
        forall|i: int| 0 <= i < messages.len() ==> plain(#[trigger] messages[i]),
    ensures
        lines(written(messages)) == messages,
    decreases messages.len(),
{
    if messages.len() > 0 {
        let m = messages[0];
        let rest = messages.skip(1);
        assert forall|i: int| 0 <= i < rest.len() implies plain(#[trigger] rest[i]) by {
            assert(rest[i] == messages[i + 1]);
        }
        lemma_written_lines(rest);
        let text = written(messages);
        assert forall|j: int| 0 <= j < m.len() implies text[j] != '\n' by {
            assert(text[j] == m[j]);
            assert(m.contains(m[j]));
        }
        lemma_first_index_unique(text, '\n', m.len() as int);
        assert(text.take(m.len() as int) =~= m);
        assert(text.skip(m.len() as int + 1) =~= written(rest));
        assert(strip_cr(m) == m);
        assert(lines(text) =~= messages);
    } else {
        assert(lines(written(messages)) =~= messages);
    }
}

proof fn lemma_non_empty_all(texts: Seq<Seq<char>>)
    requires
        forall|i: int| 0 <= i < texts.len() ==> (#[trigger] texts[i]).len() > 0,
    ensures
        non_empty(texts) == texts,
    decreases texts.len(),
{
    if texts.len() > 0 {
        let rest = texts.drop_last();
        assert forall|i: int| 0 <= i < rest.len() implies (#[trigger] rest[i]).len() > 0 by {
            assert(rest[i] == texts[i]);
        }
        lemma_non_empty_all(rest);
        assert(non_empty(texts) =~= texts);
    }
}

/// Law: taking messages gives back those that were written, in order, where each is one line that
/// is not empty and does not end in a carriage return.
pub proof fn law_round_trip(messages: Seq<Seq<char>>)
    requires
        forall|i: int| 0 <= i < messages.len() ==> plain(#[trigger] messages[i]),
    ensures
        spooled(Some(written(messages))) == messages,
{
    lemma_written_lines(messages);
    assert forall|i: int| 0 <= i < messages.len() implies (#[trigger] messages[i]).len() > 0 by {
        assert(plain(messages[i]));
    }
    lemma_non_empty_all(messages);
}

proof fn lemma_chosen_both(messages: Seq<QueuedView>)
    ensures
        (chosen(messages, true) + chosen(messages, false)).to_multiset() == texts_of(
            messages,
        ).to_multiset(),
    decreases messages.len(),
{
    broadcast use vstd::seq_lib::group_to_multiset_ensures;

    let on_disk = chosen(messages, true);
    let rest = chosen(messages, false);
    if messages.len() == 0 {
        assert(on_disk + rest =~= texts_of(messages));
    } else {
        let before = messages.drop_last();
        let text = messages.last().text;
        let a = chosen(before, true);
        let b = chosen(before, false);
        lemma_chosen_both(before);
        assert(texts_of(messages) =~= texts_of(before).push(text));
        vstd::seq_lib::lemma_multiset_commutative(on_disk, rest);
        vstd::seq_lib::lemma_multiset_commutative(a, b);
        assert((on_disk + rest).to_multiset() =~= (a + b).to_multiset().insert(text));
    }
}

proof fn lemma_chosen_from(messages: Seq<QueuedView>, persisted: bool)
    ensures
        forall|i: int|
            0 <= i < chosen(messages, persisted).len() ==> texts_of(messages).contains(
                #[trigger] chosen(messages, persisted)[i],
            ),
    decreases messages.len(),
{
    if messages.len() > 0 {
        let before = messages.drop_last();
        lemma_chosen_from(before, persisted);
        let all = texts_of(messages);
        assert forall|i: int| 0 <= i < chosen(messages, persisted).len() implies all.contains(
            #[trigger] chosen(messages, persisted)[i],
        ) by {
            let m = chosen(messages, persisted)[i];
            if i < chosen(before, persisted).len() {
                assert(m == chosen(before, persisted)[i]);
                let k = texts_of(before).index_of(m);
                assert(all[k] == m);
            } else {
                assert(all[all.len() - 1] == m);
            }
        }
    }
}

proof fn lemma_all_chosen(messages: Seq<QueuedView>, persisted: bool)
    requires
        forall|i: int| 0 <= i < messages.len() ==> (#[trigger] messages[i]).persisted == persisted,
    ensures
        chosen(messages, persisted) == texts_of(messages),
        chosen(messages, !persisted) == Seq::<Seq<char>>::empty(),
    decreases messages.len(),
{
    if messages.len() > 0 {
        let before = messages.drop_last();
        assert forall|i: int| 0 <= i < before.len() implies (#[trigger] before[i]).persisted
            == persisted by {
            assert(before[i] == messages[i]);
        }
        lemma_all_chosen(before, persisted);
        assert(messages.last() == messages[messages.len() - 1]);
    }
    assert(chosen(messages, persisted) =~= texts_of(messages));
}

/// Law: every queued message is delivered once, whichever of them reached the disk: those that did
/// come first, and then those that did not, both in the order in which they were queued. The file
/// holds the messages that were recorded as persisted.
pub proof fn law_delivery(spool: RoutedSpool, id: Seq<char>, file: Seq<char>)
    requires
        file == written(spool.persisted(id)),
        forall|i: int| 0 <= i < spool.queued(id).len() ==> plain(#[trigger] spool.queued(id)[i]),
    ensures
        spooled(Some(file)) + spool.unpersisted(id) == spool.persisted(id) + spool.unpersisted(id),
        (spooled(Some(file)) + spool.unpersisted(id)).to_multiset() == spool.queued(
            id,
        ).to_multiset(),
{
    let on_disk = spool.persisted(id);
    lemma_chosen_from(spool.queue(id), true);
    assert forall|i: int| 0 <= i < on_disk.len() implies plain(#[trigger] on_disk[i]) by {
        let k = spool.queued(id).index_of(on_disk[i]);
        assert(spool.queued(id)[k] == on_disk[i]);
    }
    law_round_trip(on_disk);
    lemma_chosen_both(spool.queue(id));
}

/// Whether no message reached the disk after one that did not.
pub open spec fn persisted_first(messages: Seq<QueuedView>) -> bool {
    forall|i: int, j: int|
        0 <= i < j < messages.len() && (#[trigger] messages[j]).persisted ==> (
        #[trigger] messages[i]).persisted
}

proof fn lemma_chosen_in_order(messages: Seq<QueuedView>)
    requires
        persisted_first(messages),
    ensures
        chosen(messages, true) + chosen(messages, false) == texts_of(messages),
    decreases messages.len(),
{
    if messages.len() > 0 {
        let before = messages.drop_last();
        let last = messages.last();
        assert(last == messages[messages.len() - 1]);
        lemma_chosen_in_order(before);
        assert(texts_of(messages) =~= texts_of(before).push(last.text));
        if last.persisted {
            assert forall|i: int| 0 <= i < before.len() implies (#[trigger] before[i]).persisted by {
                assert(before[i] == messages[i]);
            }
            lemma_all_chosen(before, true);
        }
    }
    assert(chosen(messages, true) + chosen(messages, false) =~= texts_of(messages));
}

/// Law: where no message reached the disk after one that did not, all are delivered in the order in
/// which they were queued.
pub proof fn law_delivery_in_order(spool: RoutedSpool, id: Seq<char>, file: Seq<char>)
    requires
        file == written(spool.persisted(id)),
        forall|i: int| 0 <= i < spool.queued(id).len() ==> plain(#[trigger] spool.queued(id)[i]),
        persisted_first(spool.queue(id)),
    ensures
        spooled(Some(file)) + spool.unpersisted(id) == spool.queued(id),
{
    law_delivery(spool, id, file);
    lemma_chosen_in_order(spool.queue(id));
}

/// The lines of messages, one message after another.
pub open spec fn message_lines(messages: Seq<Seq<char>>) -> Seq<Seq<char>>
    decreases messages.len(),
{
    if messages.len() == 0 {
        seq![]
    } else {
        split_on(messages[0], '\n') + message_lines(messages.skip(1))
    }
}

proof fn lemma_written_two(a: Seq<Seq<char>>, b: Seq<Seq<char>>)
    ensures
        written(a + b) == written(a) + written(b),
    decreases a.len(),
{
    if a.len() == 0 {
        assert(a + b =~= b);
        assert(written(a) + written(b) =~= written(b));
    } else {
        lemma_written_two(a.skip(1), b);
        assert((a + b).skip(1) =~= a.skip(1) + b);
        assert(written(a + b) =~= written(a) + written(b));
    }
}

proof fn lemma_written_joined(parts: Seq<Seq<char>>)
    requires
        parts.len() > 0,
    ensures
        written(parts) == join(parts, "\n"@).push('\n'),
    decreases parts.len(),
{
    reveal_strlit("\n");
    let last = seq![parts.last()];
    assert(last.skip(1) =~= Seq::<Seq<char>>::empty());
    assert(written(last.skip(1)) =~= Seq::<char>::empty());
    assert(written(last) =~= parts.last().push('\n'));
    assert(parts =~= parts.drop_last() + last);
    lemma_written_two(parts.drop_last(), last);
    if parts.len() == 1 {
        assert(written(parts) =~= join(parts, "\n"@).push('\n'));
    } else {
        lemma_written_joined(parts.drop_last());
        assert(written(parts) =~= join(parts, "\n"@).push('\n'));
    }
}

proof fn lemma_written_split(m: Seq<char>)
    ensures
        written(split_on(m, '\n')) == m.push('\n'),
        split_on(m, '\n').len() > 0,
    decreases m.len(),
{
    lemma_first_index(m, '\n');
    let i = first_index(m, '\n');
    if i >= m.len() {
        let one = seq![m];
        assert(one.skip(1) =~= Seq::<Seq<char>>::empty());
        assert(written(one.skip(1)) =~= Seq::<char>::empty());
        assert(written(one) =~= m.push('\n'));
    } else {
        let rest = m.skip(i + 1);
        lemma_written_split(rest);
        let parts = seq![m.take(i)] + split_on(rest, '\n');
        assert(parts.skip(1) =~= split_on(rest, '\n'));
        assert(written(parts) =~= m.push('\n'));
    }
}

proof fn lemma_written_lines_of(messages: Seq<Seq<char>>)
    ensures
        written(message_lines(messages)) == written(messages),
        messages.len() > 0 ==> message_lines(messages).len() > 0,
    decreases messages.len(),
{
    if messages.len() > 0 {
        lemma_written_split(messages[0]);
        lemma_written_lines_of(messages.skip(1));
        lemma_written_two(split_on(messages[0], '\n'), message_lines(messages.skip(1)));
    }
}

/// Law: the text that a task is given when it starts is that of all messages queued for it, each on
/// lines of its own: those that reached the disk, and then those that did not. No line of a message
/// on disk is empty or ends in a carriage return, and the file holds the messages that were recorded
/// as persisted.
pub proof fn law_delivered_text(spool: RoutedSpool, id: Seq<char>, file: Seq<char>)
    requires
        file == written(spool.persisted(id)),
        forall|i: int|
            0 <= i < message_lines(spool.persisted(id)).len() ==> plain(
                #[trigger] message_lines(spool.persisted(id))[i],
            ),
    ensures
        join(spooled(Some(file)) + spool.unpersisted(id), "\n"@) == join(
            spool.persisted(id) + spool.unpersisted(id),
            "\n"@,
        ),
{
    let on_disk = spool.persisted(id);
    let rest = spool.unpersisted(id);
    let all = on_disk + rest;
    let taken = message_lines(on_disk) + rest;
    lemma_written_lines_of(on_disk);
    law_round_trip(message_lines(on_disk));
    lemma_written_two(on_disk, rest);
    lemma_written_two(message_lines(on_disk), rest);
    if all.len() > 0 {
        lemma_written_joined(taken);
        lemma_written_joined(all);
        assert(join(taken, "\n"@) =~= join(taken, "\n"@).push('\n').drop_last());
        assert(join(all, "\n"@) =~= join(all, "\n"@).push('\n').drop_last());
    } else {
        assert(taken =~= all);
    }
}

/// Law: nothing is left where all was taken and the file is empty.
pub proof fn law_taken_once(spool: RoutedSpool, id: Seq<char>)
    requires
        spool.queue(id) == Seq::<QueuedView>::empty(),
    ensures
        spooled(Some(Seq::<char>::empty())) + spool.unpersisted(id) == Seq::<Seq<char>>::empty(),
{
    assert(lines(Seq::<char>::empty()) =~= Seq::<Seq<char>>::empty());
    assert(spooled(Some(Seq::<char>::empty())) + spool.unpersisted(id)
        =~= Seq::<Seq<char>>::empty());
}

/// Law: the messages for a task are spooled in a file of its own, named after it, in the directory
/// `spool` of the run.
pub proof fn law_spool_file(spool: &RoutedSpool, id: &str, r: String)
    requires
        call_ensures(RoutedSpool::file_for, (spool, id), r),
    ensures
        r@ == join_path(join_path(spool.base(), "spool"@), id@ + ".txt"@),
{
}

/// Law: each message is either on disk or not, and is delivered from there or from memory: of messages
/// none of which is on disk all are taken from memory, and of those that all are, none.
pub proof fn law_each_from_one_place(messages: Seq<QueuedView>, persisted: bool)
    requires
        forall|i: int| 0 <= i < messages.len() ==> (#[trigger] messages[i]).persisted == persisted,
    ensures
        chosen(messages, persisted) == texts_of(messages),
        chosen(messages, !persisted) == Seq::<Seq<char>>::empty(),
    decreases messages.len(),
{
    if messages.len() > 0 {
        let before = messages.drop_last();
        assert forall|i: int| 0 <= i < before.len() implies (#[trigger] before[i]).persisted
            == persisted by {
            assert(before[i] == messages[i]);
        }
        law_each_from_one_place(before, persisted);
        assert(messages.last() == messages[messages.len() - 1]);
        assert(chosen(messages, persisted) =~= texts_of(messages));
    } else {
        assert(chosen(messages, persisted) =~= texts_of(messages));
    }
}

/// Law: empty lines of a spool file are no messages, and all others are, in their order.
pub proof fn law_empty_lines_skipped(a: Seq<Seq<char>>, line: Seq<char>, b: Seq<Seq<char>>)
    ensures
        line.len() > 0 ==> non_empty(a + seq![line] + b) == non_empty(a) + seq![line] + non_empty(b),
        line.len() == 0 ==> non_empty(a + seq![line] + b) == non_empty(a) + non_empty(b),
    decreases b.len(),
{
    let all = a + seq![line] + b;
    if b.len() == 0 {
        assert(all.drop_last() =~= a);
        assert(all.last() == line);
        assert(line.len() > 0 ==> non_empty(all) =~= non_empty(a) + seq![line] + non_empty(b));
        assert(line.len() == 0 ==> non_empty(all) =~= non_empty(a) + non_empty(b));
    } else {
        law_empty_lines_skipped(a, line, b.drop_last());
        assert(all.drop_last() =~= a + seq![line] + b.drop_last());
        assert(all.last() == b.last());
        assert(line.len() > 0 ==> non_empty(all) =~= non_empty(a) + seq![line] + non_empty(b));
        assert(line.len() == 0 ==> non_empty(all) =~= non_empty(a) + non_empty(b));
    }
}

/// Law: a message that was queued for a task is held for it until its messages are taken, behind those
/// that were queued before. It is to be written to the file of that task as a line. Those of other
/// tasks stay as they are.
pub proof fn law_queued(spool: &mut RoutedSpool, id: &str, msg: &str, w: SpoolWrite, other: Seq<char>)
    requires
        call_ensures(RoutedSpool::append, (spool, id, msg), w),
        other != id@,
    ensures
        final(spool).queued(id@) == old(spool).queued(id@) + seq![msg@],
        final(spool).queued(other) == old(spool).queued(other),
        final(spool).base() == old(spool).base(),
        !final(spool).queue(id@).last().persisted,
        w.text@ == msg@ + seq!['\n'],
        w.dir@ == join_path(old(spool).base(), "spool"@),
        w.file@ == join_path(join_path(old(spool).base(), "spool"@), id@ + ".txt"@),
        w.place == old(spool).queued(id@).len(),
{
    assert(final(spool).queue(id@) == old(spool).queue(id@).push(
        QueuedView { text: msg@, persisted: false },
    ));
    assert(final(spool).queued(id@) =~= old(spool).queued(id@) + seq![msg@]);
    assert(final(spool).queue(other) == old(spool).queue(other));
    assert(msg@.push('\n') =~= msg@ + seq!['\n']);
}

/// Law: a message that is on disk stays queued in its place, and is marked; no other changes.
pub proof fn law_marked(spool: &mut RoutedSpool, id: &str, place: usize, r: (), i: int, other: Seq<char>)
    requires
        call_ensures(RoutedSpool::mark_persisted, (spool, id, place), r),
        0 <= i < old(spool).queue(id@).len(),
        other != id@,
    ensures
        final(spool).queued(id@) == old(spool).queued(id@),
        i == place ==> final(spool).queue(id@)[i].persisted,
        i != place ==> final(spool).queue(id@)[i] == old(spool).queue(id@)[i],
        final(spool).queue(other) == old(spool).queue(other),
        final(spool).base() == old(spool).base(),
{
    assert(final(spool).queue(other) == old(spool).queue(other));
    let q = final(spool).queue(id@);
    assert(q.len() == old(spool).queue(id@).len());
    assert(final(spool).queued(id@) =~= old(spool).queued(id@));
}

/// Law: when the messages of a task are taken, each comes once: those that the file holds, and then
/// those that are not on disk. None is left for it, and those of other tasks stay. Where nothing is on
/// disk, all that were queued come, in their order.
pub proof fn law_taken(
    spool: &mut RoutedSpool,
    id: &str,
    file: Option<&str>,
    r: Vec<String>,
    other: Seq<char>,
)
    requires
        call_ensures(RoutedSpool::take_all, (spool, id, file), r),
        other != id@,
    ensures
        final(spool).queue(id@).len() == 0,
        final(spool).queue(other) == old(spool).queue(other),
        final(spool).base() == old(spool).base(),
        file is None && (forall|i: int|
            0 <= i < old(spool).queue(id@).len() ==> !(#[trigger] old(spool).queue(
                id@,
            )[i]).persisted) ==> views(r@) == old(spool).queued(id@),
        (forall|i: int|
            0 <= i < old(spool).queue(id@).len() ==> (#[trigger] old(spool).queue(
                id@,
            )[i]).persisted) ==> (file matches Some(text) ==> views(r@) == non_empty(lines(text@))),
{
    assert(final(spool).queue(id@) == Seq::<QueuedView>::empty());
    assert(final(spool).queue(other) == old(spool).queue(other));
    let q = old(spool).queue(id@);
    let none = Seq::<Seq<char>>::empty();
    if file is None && (forall|i: int| 0 <= i < q.len() ==> !(#[trigger] q[i]).persisted) {
        law_each_from_one_place(q, false);
        assert(none + texts_of(q) =~= texts_of(q));
    }
    if file is Some && (forall|i: int| 0 <= i < q.len() ==> (#[trigger] q[i]).persisted) {
        law_each_from_one_place(q, true);
        let held = non_empty(lines(file->0@));
        assert(held + none =~= held);
    }
}

} // verus!
