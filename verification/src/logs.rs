//! The log of an agent: a live tail in memory, and older lines that are paged in from the log files
//! on disk as the reader scrolls back.

use vstd::prelude::*;
use vstd::string::*;
use vstd::utf8::*;

use crate::screen::color_line;
use crate::screen::Color;
use crate::screen::Line;
use crate::screen::LineView;
use crate::spool::plain;
use crate::spool::written;
use crate::text::chars_of;
use crate::text::decoded;
use crate::text::lemma_first_index_unique;
use crate::text::lemma_views_push;
use crate::text::lossy_text;
use crate::text::opt_view;
use crate::text::split_on;
use crate::text::split_text;
use crate::text::text_of;
use crate::text::views;

verus! {

/// How many bytes are read from a log file at a time.
pub const CHUNK: u64 = 65536;

/// Which of the two log files.
#[derive(Clone, Copy, Debug, PartialEq, Eq, Structural)]
pub enum LogFile {
    Stdout,
    Stderr,
}

/// A log with a live tail and pages of older lines.
#[derive(Debug)]
pub struct LogSource {
    /// The newest lines, the newest at the end.
    pub live_tail: Vec<Line>,
    /// The log files that older lines are paged from.
    pub stdout_path: Option<String>,
    pub stderr_path: Option<String>,
    /// The lines paged in so far, the oldest at the start.
    pub older_prefix: Vec<Line>,
    /// What was read of the log files, in the order in which the lines paged in stand.
    pub parts: Vec<LogPart>,
}

/// A part of a log file that was read.
#[derive(Debug)]
pub struct LogPart {
    pub file: LogFile,
    pub bytes: Vec<u8>,
}

/// The model of a `LogPart`.
#[verifier::ext_equal]
pub struct PartView {
    pub file: LogFile,
    pub bytes: Seq<u8>,
}

impl View for LogPart {
    type V = PartView;

    open spec fn view(&self) -> PartView {
        PartView { file: self.file, bytes: self.bytes@ }
    }
}

/// `s` without the carriage returns at its end.
pub open spec fn strip_returns(s: Seq<char>) -> Seq<char>
    decreases s.len(),
{
    if s.len() > 0 && s.last() == '\r' {
        strip_returns(s.drop_last())
    } else {
        s
    }
}

/// The lines of pieces of text, without carriage returns at their ends, in a colour. Empty ones are
/// left out.
pub open spec fn shown_lines(pieces: Seq<Seq<char>>, color: Color) -> Seq<LineView>
    decreases pieces.len(),
{
    if pieces.len() == 0 {
        seq![]
    } else {
        let before = shown_lines(pieces.drop_last(), color);
        let s = strip_returns(pieces.last());
        if s.len() == 0 {
            before
        } else {
            before.push(color_line(s, color))
        }
    }
}

/// The lines of the bytes of a log file.
pub open spec fn log_lines(bytes: Seq<u8>, color: Color) -> Seq<LineView> {
    shown_lines(split_on(decoded(bytes), '\n'), color)
}

/// The colour of the lines of a log file.
pub open spec fn file_color(file: LogFile) -> Color {
    match file {
        LogFile::Stdout => Color::Plain,
        LogFile::Stderr => Color::Red,
    }
}

/// The lines of parts of log files, one part after another.
pub open spec fn part_lines(parts: Seq<PartView>) -> Seq<LineView>
    decreases parts.len(),
{
    if parts.len() == 0 {
        seq![]
    } else {
        log_lines(parts[0].bytes, file_color(parts[0].file)) + part_lines(parts.skip(1))
    }
}

/// The bytes of the parts of one log file.
pub open spec fn bytes_of(parts: Seq<PartView>, file: LogFile) -> Seq<u8>
    decreases parts.len(),
{
    if parts.len() == 0 {
        seq![]
    } else if parts[0].file == file {
        parts[0].bytes + bytes_of(parts.skip(1), file)
    } else {
        bytes_of(parts.skip(1), file)
    }
}

/// The position of the first part of a log file, or the number of parts where there is none.
pub open spec fn part_at(parts: Seq<PartView>, file: LogFile) -> int
    decreases parts.len(),
{
    if parts.len() == 0 || parts[0].file == file {
        0
    } else {
        1 + part_at(parts.skip(1), file)
    }
}

/// Where the last line of some bytes begins.
pub open spec fn line_start(bytes: Seq<u8>) -> int
    decreases bytes.len(),
{
    if bytes.len() == 0 || bytes.last() == 10 {
        bytes.len() as int
    } else {
        line_start(bytes.drop_last())
    }
}

/// The parts with bytes put before those of part `k`.
pub open spec fn with_bytes(parts: Seq<PartView>, k: int, more: Seq<u8>) -> Seq<PartView> {
    parts.update(k, PartView { file: parts[k].file, bytes: more + parts[k].bytes })
}

/// The parts after more was read of a log file, right before what was read of it so far. Its lines
/// come before all others, but for the end of a line of which the rest was read before: that line
/// stays where it is.
pub open spec fn with_chunk(parts: Seq<PartView>, file: LogFile, chunk: Seq<u8>) -> Seq<PartView> {
    let k = part_at(parts, file);
    let cut = line_start(chunk);
    if k == parts.len() {
        seq![PartView { file, bytes: chunk }] + parts
    } else if k == 0 || cut == 0 {
        with_bytes(parts, k, chunk)
    } else {
        seq![PartView { file, bytes: chunk.take(cut) }] + with_bytes(parts, k, chunk.skip(cut))
    }
}

/// The window of `lines` that shows `height` of them, `back` lines up from the end.
pub open spec fn window(lines: Seq<LineView>, height: nat, back: nat) -> Seq<LineView> {
    let start = window_start(lines.len(), height, back);
    lines.subrange(start, window_end(lines.len(), height, back))
}

/// Where the window begins.
pub open spec fn window_start(total: nat, height: nat, back: nat) -> int {
    if total < height + back {
        0
    } else {
        total - height - back
    }
}

/// Where the window ends.
pub open spec fn window_end(total: nat, height: nat, back: nat) -> int {
    let start = window_start(total, height, back);
    if start + height > total {
        total as int
    } else {
        start + height
    }
}

impl LogSource {
    /// The lines paged in so far.
    pub open spec fn older(&self) -> Seq<LineView> {
        views(self.older_prefix@)
    }

    /// What was read of the log files.
    pub open spec fn read(&self) -> Seq<PartView> {
        views(self.parts@)
    }

    /// The bytes read so far from the end of a log file.
    pub open spec fn loaded(&self, file: LogFile) -> Seq<u8> {
        bytes_of(self.read(), file)
    }

    /// The lines of the live tail.
    pub open spec fn live(&self) -> Seq<LineView> {
        views(self.live_tail@)
    }

    /// All lines at hand, the oldest first.
    pub open spec fn lines(&self) -> Seq<LineView> {
        self.older() + self.live()
    }

    /// Whether the lines paged in are those of what was read: standard error in red, standard
    /// output as it is.
    pub open spec fn wf(&self) -> bool {
        self.older() == part_lines(self.read())
    }

    /// Whether nothing was read, and nothing can be.
    pub open spec fn blank(&self) -> bool {
        &&& self.live() == Seq::<LineView>::empty()
        &&& self.older() == Seq::<LineView>::empty()
        &&& self.read() == Seq::<PartView>::empty()
        &&& self.stdout_path is None
        &&& self.stderr_path is None
    }

    /// Makes an empty log.
    pub fn new() -> (r: Self)
        ensures
            r.wf(),
            r.blank(),
    {
        let r = LogSource {
            live_tail: Vec::new(),
            stdout_path: None,
            stderr_path: None,
            older_prefix: Vec::new(),
            parts: Vec::new(),
        };
        proof {
            assert(r.live() =~= Seq::<LineView>::empty());
            assert(r.older() =~= Seq::<LineView>::empty());
            assert(r.read() =~= Seq::<PartView>::empty());
        }
        r
    }

    /// Replaces the live tail.
    pub fn replace_live_tail(&mut self, log: Vec<Line>)
        ensures
            final(self).live() == views(log@),
            final(self).older() == old(self).older(),
            final(self).read() == old(self).read(),
            final(self).stdout_path == old(self).stdout_path,
            final(self).stderr_path == old(self).stderr_path,
    {
        self.live_tail = log;
    }

    /// Appends lines to the live tail.
    pub fn append_live(&mut self, lines: &Vec<Line>)
        ensures
            final(self).live() == old(self).live() + views(lines@),
            final(self).older() == old(self).older(),
            final(self).read() == old(self).read(),
            final(self).stdout_path == old(self).stdout_path,
            final(self).stderr_path == old(self).stderr_path,
    {
        push_copies(&mut self.live_tail, lines);
    }

    /// Sets the log files and forgets what was paged in.
    pub fn set_log_files(&mut self, stdout: &str, stderr: &str)
        ensures
            final(self).wf(),
            opt_view(final(self).stdout_path) == Some(stdout@),
            opt_view(final(self).stderr_path) == Some(stderr@),
            final(self).live() == old(self).live(),
            final(self).older() == Seq::<LineView>::empty(),
            final(self).read() == Seq::<PartView>::empty(),
    {
        self.stdout_path = Some(stdout.to_owned());
        self.stderr_path = Some(stderr.to_owned());
        self.parts = Vec::new();
        self.older_prefix = Vec::new();
        proof {
            assert(self.older() =~= Seq::<LineView>::empty());
            assert(self.read() =~= Seq::<PartView>::empty());
        }
    }

    /// Takes the lines anew from what was read.
    fn reparse(&mut self)
        ensures
            final(self).wf(),
            final(self).live_tail == old(self).live_tail,
            final(self).stdout_path == old(self).stdout_path,
            final(self).stderr_path == old(self).stderr_path,
            final(self).parts == old(self).parts,
    {
        let ghost all = self.read();
        let mut lines: Vec<Line> = Vec::new();
        let mut i: usize = 0;
        proof {
            assert(all.skip(0) =~= all);
            assert(views(lines@) + part_lines(all) =~= part_lines(all));
        }
        while i < self.parts.len()
            invariant
                i <= self.parts@.len(),
                all == views(self.parts@),
                views(lines@) + part_lines(all.skip(i as int)) == part_lines(all),
            decreases self.parts@.len() - i,
        {
            let ghost before = views(lines@);
            let part = &self.parts[i];
            let color = match part.file {
                LogFile::Stdout => Color::Plain,
                LogFile::Stderr => Color::Red,
            };
            push_log_lines(&mut lines, &part.bytes, color);
            proof {
                let rest = all.skip(i as int);
                assert(rest[0] == all[i as int]);
                assert(rest.skip(1) =~= all.skip(i + 1));
                assert(views(lines@) + part_lines(all.skip(i + 1)) =~= before + part_lines(rest));
            }
            i += 1;
        }
        proof {
            assert(all.skip(i as int) =~= Seq::<PartView>::empty());
            assert(views(lines@) + Seq::<LineView>::empty() =~= views(lines@));
        }
        self.older_prefix = lines;
    }

    /// How many more older lines a window needs. They are paged in before it is shown.
    pub fn older_needed(&self, view_h: usize, scrollback: usize) -> (r: usize)
        ensures
            r == (if view_h == 0 {
                0
            } else if self.lines().len() < view_h {
                scrollback as int
            } else if scrollback > self.lines().len() - view_h {
                scrollback - (self.lines().len() - view_h)
            } else {
                0
            }),
    {
        if view_h == 0 {
            return 0;
        }
        let total: u128 = self.older_prefix.len() as u128 + self.live_tail.len() as u128;
        let max_start: u128 = if total < view_h as u128 {
            0
        } else {
            total - view_h as u128
        };
        if scrollback as u128 > max_start {
            (scrollback as u128 - max_start) as usize
        } else {
            0
        }
    }

    /// The log files that are paged to have `wanted` more older lines, in order.
    pub open spec fn paged_files(&self, wanted: int) -> Seq<(LogFile, Seq<char>)> {
        let stdout = match self.stdout_path {
            Some(path) => seq![(LogFile::Stdout, path@)],
            None => seq![],
        };
        let stderr = match self.stderr_path {
            Some(path) => seq![(LogFile::Stderr, path@)],
            None => seq![],
        };
        if wanted == 0 {
            seq![]
        } else {
            stdout + stderr
        }
    }

    /// The log files that are paged to have `wanted` more older lines, in order: standard output
    /// first.
    pub fn ensure_older_lines(&self, wanted: usize) -> (r: Vec<(LogFile, String)>)
        ensures
            r@.len() == self.paged_files(wanted as int).len(),
            forall|i: int|
                0 <= i < r@.len() ==> {
                    &&& (#[trigger] r@[i]).0 == self.paged_files(wanted as int)[i].0
                    &&& r@[i].1@ == self.paged_files(wanted as int)[i].1
                },
    {
        let mut r: Vec<(LogFile, String)> = Vec::new();
        if wanted == 0 {
            return r;
        }
        if let Some(path) = &self.stdout_path {
            r.push((LogFile::Stdout, path.clone()));
        }
        if let Some(path) = &self.stderr_path {
            r.push((LogFile::Stderr, path.clone()));
        }
        r
    }

    /// The number of lines paged in so far.
    pub fn older_len(&self) -> (r: usize)
        ensures
            r == self.older().len(),
    {
        self.older_prefix.len()
    }

    /// The part of a log file of `len` bytes that is read next, as an offset and a number of bytes:
    /// what stands before the part read so far. There is none where all of it was read.
    pub fn next_chunk(&self, file: LogFile, len: u64) -> (r: Option<(u64, u64)>)
        ensures
            match r {
                Some((start, count)) => {
                    &&& 1 <= count <= CHUNK
                    &&& start + count + self.loaded(file).len() == len
                    &&& count < CHUNK ==> start == 0
                },
                None => self.loaded(file).len() >= len,
            },
    {
        let ghost all = self.read();
        let mut loaded: u64 = 0;
        let mut i: usize = 0;
        proof {
            assert(all.skip(0) =~= all);
        }
        while i < self.parts.len()
            invariant
                i <= self.parts@.len(),
                all == views(self.parts@),
                loaded + bytes_of(all.skip(i as int), file).len() == self.loaded(file).len(),
                loaded <= len,
            decreases self.parts@.len() - i,
        {
            let part = &self.parts[i];
            proof {
                let rest = all.skip(i as int);
                assert(rest[0] == all[i as int]);
                assert(rest.skip(1) =~= all.skip(i + 1));
            }
            if part.file == file {
                if part.bytes.len() as u64 >= len - loaded {
                    return None;
                }
                loaded = loaded + part.bytes.len() as u64;
            }
            i += 1;
        }
        proof {
            assert(all.skip(i as int) =~= Seq::<PartView>::empty());
        }
        if loaded >= len {
            return None;
        }
        let remaining: u64 = len - loaded;
        let count: u64 = if remaining < CHUNK {
            remaining
        } else {
            CHUNK
        };
        Some((remaining - count, count))
    }

    /// The position of the first part of a log file, or the number of parts where there is none.
    fn find_part(&self, file: LogFile) -> (r: usize)
        ensures
            r == part_at(self.read(), file),
            r <= self.parts@.len(),
            r < self.parts@.len() ==> self.parts@[r as int].file == file,
            forall|j: int| 0 <= j < r ==> (#[trigger] self.parts@[j]).file != file,
    {
        let ghost all = self.read();
        let mut i: usize = 0;
        proof {
            assert(all.skip(0) =~= all);
        }
        while i < self.parts.len()
            invariant
                i <= self.parts@.len(),
                all == views(self.parts@),
                i + part_at(all.skip(i as int), file) == part_at(all, file),
                forall|j: int| 0 <= j < i ==> (#[trigger] self.parts@[j]).file != file,
            decreases self.parts@.len() - i,
        {
            proof {
                let rest = all.skip(i as int);
                assert(rest[0] == all[i as int]);
                assert(rest.skip(1) =~= all.skip(i + 1));
            }
            if self.parts[i].file == file {
                return i;
            }
            i += 1;
        }
        proof {
            assert(all.skip(i as int) =~= Seq::<PartView>::empty());
        }
        i
    }

    /// Puts a part of a log file before the part read so far. Its lines come before all others, but
    /// for the end of a line of which the rest was read before other lines were: that line stays
    /// where it is.
    pub fn prepend_chunk(&mut self, file: LogFile, chunk: &Vec<u8>)
        ensures
            final(self).wf(),
            final(self).read() == with_chunk(old(self).read(), file, chunk@),
            final(self).loaded(file) == chunk@ + old(self).loaded(file),
            forall|other: LogFile|
                other != file ==> #[trigger] final(self).loaded(other) == old(self).loaded(other),
            final(self).live_tail == old(self).live_tail,
            final(self).stdout_path == old(self).stdout_path,
            final(self).stderr_path == old(self).stderr_path,
    {
        let ghost before = self.read();
        let k: usize = self.find_part(file);
        let n: usize = self.parts.len();
        let cut: usize = if k == n {
            chunk.len()
        } else if k == 0 {
            0
        } else {
            last_line_start(chunk)
        };
        let ghost whole = chunk@;
        if k < n {
            let end = copy_bytes(chunk, cut, chunk.len());
            let bytes = concat_bytes(&end, &self.parts[k].bytes);
            let ghost parts = self.parts@;
            self.parts[k].bytes = bytes;
            proof {
                assert(whole.skip(0) =~= whole);
                assert(end@ =~= whole.skip(cut as int));
                assert(self.read() =~= with_bytes(before, k as int, whole.skip(cut as int)));
            }
        }
        if k == n || cut > 0 {
            let ghost after = self.read();
            let start = copy_bytes(chunk, 0, cut);
            self.parts.insert(0, LogPart { file, bytes: start });
            proof {
                assert(whole.take(whole.len() as int) =~= whole);
                assert(start@ =~= whole.take(cut as int));
                assert(self.read() =~= seq![PartView { file, bytes: start@ }] + after);
            }
        }
        proof {
            assert(self.read() == with_chunk(before, file, chunk@));
            lemma_with_chunk(before, file, chunk@);
        }
        self.reparse();
    }

    /// The lines that a window of `view_h` lines shows, `scrollback` lines up from the end.
    pub fn visible_lines(&self, view_h: usize, scrollback: usize) -> (r: Vec<Line>)
        ensures
            views(r@) == window(self.lines(), view_h as nat, scrollback as nat),
    {
        let older: u128 = self.older_prefix.len() as u128;
        let total: u128 = older + self.live_tail.len() as u128;
        let hidden: u128 = view_h as u128 + scrollback as u128;
        let start: u128 = if total < hidden {
            0
        } else {
            total - hidden
        };
        let end: u128 = if start + view_h as u128 > total {
            total
        } else {
            start + view_h as u128
        };
        let ghost all = self.lines();
        let mut r: Vec<Line> = Vec::new();
        let mut i: u128 = start;
        proof {
            assert(all.subrange(start as int, start as int) =~= views(r@));
        }
        while i < end
            invariant
                start <= i <= end <= total,
                total == self.older_prefix.len() + self.live_tail.len(),
                older == self.older_prefix.len(),
                all == self.lines(),
                views(r@) == all.subrange(start as int, i as int),
            decreases end - i,
        {
            broadcast use lemma_views_push;

            let line = if i < older {
                self.older_prefix[i as usize].clone()
            } else {
                self.live_tail[(i - older) as usize].clone()
            };
            proof {
                assert(line@ == all[i as int]);
                assert(all.subrange(start as int, i + 1) =~= all.subrange(
                    start as int,
                    i as int,
                ).push(all[i as int]));
            }
            r.push(line);
            i += 1;
        }
        r
    }
}

/// Paging in older lines from one log file until so many are at hand or all of it was read.
#[derive(Clone, Copy, Debug)]
pub struct PageTask {
    pub file: LogFile,
    /// The length of the file.
    pub len: u64,
    /// The number of lines at hand when paging began.
    pub before: usize,
    /// How many more lines are wanted.
    pub wanted: usize,
}

impl PageTask {
    /// Begins paging.
    pub fn begin(log: &LogSource, file: LogFile, len: u64, wanted: usize) -> (r: Self)
        ensures
            r == (PageTask { file, len, before: log.older().len() as usize, wanted }),
            r.before == log.older().len(),
    {
        PageTask { file, len, before: log.older_len(), wanted }
    }

    /// Whether as many lines as wanted were added.
    pub open spec fn satisfied(&self, log: &LogSource) -> bool {
        log.older().len() >= self.before + self.wanted
    }

    /// The part of the file that is to be read and prepended next. There is none where enough lines
    /// were added or all of the file was read.
    pub fn next(&self, log: &LogSource) -> (r: Option<(u64, u64)>)
        ensures
            match r {
                Some((start, count)) => {
                    &&& !self.satisfied(log)
                    &&& 1 <= count <= CHUNK
                    &&& start + count + log.loaded(self.file).len() == self.len
                    &&& count < CHUNK ==> start == 0
                },
                None => self.satisfied(log) || log.loaded(self.file).len() >= self.len,
            },
    {
        if log.older_len() as u128 >= self.before as u128 + self.wanted as u128 {
            return None;
        }
        log.next_chunk(self.file, self.len)
    }
}

/// Appends copies of lines.
pub(crate) fn push_copies(out: &mut Vec<Line>, lines: &Vec<Line>)
    ensures
        views(final(out)@) == views(old(out)@) + views(lines@),
{
    let ghost before = views(out@);
    let mut i: usize = 0;
    proof {
        assert(before + views(lines@).take(0) =~= before);
    }
    while i < lines.len()
        invariant
            i <= lines@.len(),
            views(out@) == before + views(lines@).take(i as int),
        decreases lines@.len() - i,
    {
        broadcast use lemma_views_push;

        out.push(lines[i].clone());
        proof {
            assert(views(lines@).take(i + 1) =~= views(lines@).take(i as int).push(
                lines@[i as int]@,
            ));
            assert(views(out@) =~= before + views(lines@).take(i + 1));
        }
        i += 1;
    }
    proof {
        assert(views(lines@).take(i as int) =~= views(lines@));
    }
}

/// Appends the lines of the bytes of a log file.
fn push_log_lines(out: &mut Vec<Line>, bytes: &Vec<u8>, color: Color)
    ensures
        views(final(out)@) == views(old(out)@) + log_lines(bytes@, color),
{
    let ghost before = views(out@);
    let text = lossy_text(bytes);
    let pieces = split_text(text.as_str(), '\n');
    let ghost all = views(pieces@);
    let mut i: usize = 0;
    proof {
        assert(all.take(0) =~= seq![]);
        assert(before + Seq::<LineView>::empty() =~= before);
    }
    while i < pieces.len()
        invariant
            i <= pieces@.len(),
            all == views(pieces@),
            views(out@) == before + shown_lines(all.take(i as int), color),
        decreases pieces@.len() - i,
    {
        broadcast use lemma_views_push;

        proof {
            assert(all.take(i + 1).drop_last() =~= all.take(i as int));
            assert(all.take(i + 1).last() == pieces@[i as int]@);
        }
        let s = without_returns(pieces[i].as_str());
        if !s.as_str().is_empty() {
            out.push(Line::colored(s.as_str(), color));
            proof {
                assert(views(out@) =~= before + shown_lines(all.take(i + 1), color));
            }
        }
        i += 1;
    }
    proof {
        assert(all.take(i as int) =~= all);
    }
}

/// `s` without the carriage returns at its end.
fn without_returns(s: &str) -> (r: String)
    ensures
        r@ == strip_returns(s@),
{
    let v = chars_of(s);
    let mut end: usize = v.len();
    proof {
        assert(v@.subrange(0, end as int) =~= v@);
    }
    while end > 0 && v[end - 1] == '\r'
        invariant
            end <= v@.len(),
            strip_returns(v@) == strip_returns(v@.subrange(0, end as int)),
        decreases end,
    {
        proof {
            let t = v@.subrange(0, end as int);
            assert(t.drop_last() =~= v@.subrange(0, end - 1));
        }
        end -= 1;
    }
    text_of(&v, 0, end)
}

/// Where the last line of some bytes begins.
fn last_line_start(bytes: &Vec<u8>) -> (r: usize)
    ensures
        r == line_start(bytes@),
        r <= bytes@.len(),
{
    let mut end: usize = bytes.len();
    proof {
        assert(bytes@.take(end as int) =~= bytes@);
    }
    while end > 0 && bytes[end - 1] != 10
        invariant
            end <= bytes@.len(),
            line_start(bytes@) == line_start(bytes@.take(end as int)),
        decreases end,
    {
        proof {
            assert(bytes@.take(end as int).drop_last() =~= bytes@.take(end - 1));
        }
        end -= 1;
    }
    end
}

/// The bytes from `a` up to `b`.
fn copy_bytes(bytes: &Vec<u8>, a: usize, b: usize) -> (r: Vec<u8>)
    requires
        a <= b <= bytes@.len(),
    ensures
        r@ == bytes@.subrange(a as int, b as int),
{
    let mut r: Vec<u8> = Vec::new();
    let mut i: usize = a;
    while i < b
        invariant
            a <= i <= b <= bytes@.len(),
            r@ == bytes@.subrange(a as int, i as int),
        decreases b - i,
    {
        r.push(bytes[i]);
        i += 1;
        assert(r@ =~= bytes@.subrange(a as int, i as int));
    }
    r
}

proof fn lemma_part_at(parts: Seq<PartView>, file: LogFile)
    ensures
        0 <= part_at(parts, file) <= parts.len(),
        part_at(parts, file) < parts.len() ==> parts[part_at(parts, file)].file == file,
    decreases parts.len(),
{
    if parts.len() > 0 && parts[0].file != file {
        lemma_part_at(parts.skip(1), file);
    }
}

proof fn lemma_with_bytes(parts: Seq<PartView>, file: LogFile, more: Seq<u8>, other: LogFile)
    requires
        part_at(parts, file) < parts.len(),
        other != file,
    ensures
        bytes_of(with_bytes(parts, part_at(parts, file), more), file) == more + bytes_of(
            parts,
            file,
        ),
        bytes_of(with_bytes(parts, part_at(parts, file), more), other) == bytes_of(parts, other),
    decreases parts.len(),
{
    let k = part_at(parts, file);
    lemma_part_at(parts, file);
    let after = with_bytes(parts, k, more);
    if k == 0 {
        assert(after.skip(1) =~= parts.skip(1));
        assert(bytes_of(after, file) =~= more + bytes_of(parts, file));
    } else {
        lemma_part_at(parts.skip(1), file);
        lemma_with_bytes(parts.skip(1), file, more, other);
        assert(after.skip(1) =~= with_bytes(parts.skip(1), k - 1, more));
        assert(after[0] == parts[0]);
    }
}

proof fn lemma_line_start(bytes: Seq<u8>)
    ensures
        0 <= line_start(bytes) <= bytes.len(),
    decreases bytes.len(),
{
    if bytes.len() > 0 {
        lemma_line_start(bytes.drop_last());
    }
}

proof fn lemma_with_chunk(parts: Seq<PartView>, file: LogFile, chunk: Seq<u8>)
    ensures
        bytes_of(with_chunk(parts, file, chunk), file) == chunk + bytes_of(parts, file),
        forall|other: LogFile|
            other != file ==> #[trigger] bytes_of(with_chunk(parts, file, chunk), other)
                == bytes_of(parts, other),
{
    let k = part_at(parts, file);
    let cut = line_start(chunk);
    let after = with_chunk(parts, file, chunk);
    let other = match file {
        LogFile::Stdout => LogFile::Stderr,
        LogFile::Stderr => LogFile::Stdout,
    };
    lemma_part_at(parts, file);
    lemma_line_start(chunk);
    if k == parts.len() {
        assert(after.skip(1) =~= parts);
    } else if k == 0 || cut == 0 {
        lemma_with_bytes(parts, file, chunk, other);
    } else {
        let more = chunk.skip(cut);
        lemma_with_bytes(parts, file, more, other);
        assert(after.skip(1) =~= with_bytes(parts, k, more));
        assert(chunk.take(cut) + (more + bytes_of(parts, file)) =~= chunk + bytes_of(
            parts,
            file,
        ));
    }
}

/// Law: what is read of a log file comes before the lines that are held already. Where nothing was
/// read of it before, or nothing of the other file since, its lines stand first as a whole; else
/// the new lines stand first, and the line that was begun before is completed where it stands.
pub proof fn law_prepended(parts: Seq<PartView>, file: LogFile, chunk: Seq<u8>)
    ensures
        ({
            let k = part_at(parts, file);
            let cut = line_start(chunk);
            let after = part_lines(with_chunk(parts, file, chunk));
            if k == parts.len() {
                after == log_lines(chunk, file_color(file)) + part_lines(parts)
            } else if k == 0 {
                after == log_lines(chunk + parts[0].bytes, file_color(file)) + part_lines(
                    parts.skip(1),
                )
            } else if cut == 0 {
                after == part_lines(with_bytes(parts, k, chunk))
            } else {
                after == log_lines(chunk.take(cut), file_color(file)) + part_lines(
                    with_bytes(parts, k, chunk.skip(cut)),
                )
            }
        }),
{
    let k = part_at(parts, file);
    let cut = line_start(chunk);
    let after = with_chunk(parts, file, chunk);
    lemma_part_at(parts, file);
    lemma_line_start(chunk);
    if k == parts.len() {
        assert(after.skip(1) =~= parts);
    } else if k == 0 {
        assert(after.skip(1) =~= parts.skip(1));
    } else if cut > 0 {
        assert(after.skip(1) =~= with_bytes(parts, k, chunk.skip(cut)));
    }
}

/// The bytes of `a` and then those of `b`.
fn concat_bytes(a: &Vec<u8>, b: &Vec<u8>) -> (r: Vec<u8>)
    ensures
        r@ == a@ + b@,
{
    let mut r: Vec<u8> = Vec::new();
    let mut i: usize = 0;
    while i < a.len()
        invariant
            i <= a@.len(),
            r@ == a@.take(i as int),
        decreases a@.len() - i,
    {
        r.push(a[i]);
        i += 1;
        assert(r@ =~= a@.take(i as int));
    }
    let mut j: usize = 0;
    assert(r@ =~= a@ + b@.take(0));
    while j < b.len()
        invariant
            j <= b@.len(),
            r@ == a@ + b@.take(j as int),
        decreases b@.len() - j,
    {
        r.push(b[j]);
        j += 1;
        assert(r@ =~= a@ + b@.take(j as int));
    }
    assert(r@ =~= a@ + b@);
    r
}

/// Law: a window shows as many lines as fit, or all of them.
pub proof fn law_window_full(lines: Seq<LineView>, height: nat, back: nat)
    ensures
        window(lines, height, back).len() == (if lines.len() < height {
            lines.len()
        } else {
            height
        }),
{
}

/// Law: a window that is not scrolled back shows the newest lines.
pub proof fn law_window_end(lines: Seq<LineView>, height: nat)
    requires
        height <= lines.len(),
    ensures
        window(lines, height, 0) == lines.skip(lines.len() - height),
{
    assert(window(lines, height, 0) =~= lines.skip(lines.len() - height));
}

/// Law: a window that is scrolled back as far as there are lines, or further, shows the oldest
/// lines.
pub proof fn law_window_start(lines: Seq<LineView>, height: nat, back: nat)
    requires
        height <= lines.len(),
        lines.len() <= height + back,
    ensures
        window(lines, height, back) == lines.take(height as int),
{
    assert(window(lines, height, back) =~= lines.take(height as int));
}

/// Law: appending to the end does not move what older lines stand before it.
pub proof fn law_window_scrolled(lines: Seq<LineView>, more: Seq<LineView>, height: nat, back: nat)
    requires
        height + back <= lines.len(),
    ensures
        window(lines + more, height, back + more.len()) == window(lines, height, back),
{
    assert(window(lines + more, height, back + more.len()) =~= window(lines, height, back));
}

/// Law: reading the parts of a file that `next_chunk` names, one after another, and putting each
/// before the last keeps the end of the file at hand, and ends with all of it.
pub proof fn law_paging(file: Seq<u8>, loaded: Seq<u8>, start: int, count: int)
    requires
        loaded.len() < file.len(),
        loaded == file.skip(file.len() - loaded.len()),
        0 <= start,
        1 <= count,
        start + count + loaded.len() == file.len(),
    ensures
        ({
            let more = file.subrange(start, start + count) + loaded;
            &&& more.len() > loaded.len()
            &&& more == file.skip(file.len() - more.len())
            &&& start == 0 ==> more == file
        }),
{
    let more = file.subrange(start, start + count) + loaded;
    assert(more =~= file.skip(file.len() - more.len()));
    if start == 0 {
        assert(more =~= file);
    }
}

proof fn lemma_written_split(lines: Seq<Seq<char>>)
    requires
        forall|i: int| 0 <= i < lines.len() ==> !(#[trigger] lines[i]).contains('\n'),
    ensures
        split_on(written(lines), '\n') == lines.push(seq![]),
    decreases lines.len(),
{
    let text = written(lines);
    if lines.len() == 0 {
        assert(split_on(text, '\n') =~= lines.push(seq![]));
    } else {
        let first = lines[0];
        let rest = lines.skip(1);
        assert forall|i: int| 0 <= i < rest.len() implies !(#[trigger] rest[i]).contains('\n') by {
            assert(rest[i] == lines[i + 1]);
        }
        lemma_written_split(rest);
        assert forall|j: int| 0 <= j < first.len() implies text[j] != '\n' by {
            assert(first.contains(first[j]));
        }
        lemma_first_index_unique(text, '\n', first.len() as int);
        assert(text.take(first.len() as int) =~= first);
        assert(text.skip(first.len() as int + 1) =~= written(rest));
        assert(split_on(text, '\n') =~= lines.push(seq![]));
    }
}

proof fn lemma_shown(lines: Seq<Seq<char>>, color: Color)
    requires
        forall|i: int| 0 <= i < lines.len() ==> plain(#[trigger] lines[i]),
    ensures
        shown_lines(lines, color) == Seq::new(
            lines.len(),
            |i: int| color_line(lines[i], color),
        ),
    decreases lines.len(),
{
    let all = Seq::new(lines.len(), |i: int| color_line(lines[i], color));
    if lines.len() > 0 {
        let rest = lines.drop_last();
        assert forall|i: int| 0 <= i < rest.len() implies plain(#[trigger] rest[i]) by {
            assert(rest[i] == lines[i]);
        }
        lemma_shown(rest, color);
        assert(plain(lines.last()));
        assert(strip_returns(lines.last()) == lines.last());
        assert(shown_lines(lines, color) =~= all);
    } else {
        assert(shown_lines(lines, color) =~= all);
    }
}

/// Law: a log file that was read whole gives back the lines written to it, in order, where none is
/// empty, holds a line break or ends in a carriage return.
pub proof fn law_paged_back(lines: Seq<Seq<char>>, color: Color)
    requires
        forall|i: int| 0 <= i < lines.len() ==> plain(#[trigger] lines[i]),
    ensures
        log_lines(encode_utf8(written(lines)), color) == Seq::new(
            lines.len(),
            |i: int| color_line(lines[i], color),
        ),
{
    encode_utf8_valid_utf8(written(lines));
    encode_utf8_decode_utf8(written(lines));
    assert forall|i: int| 0 <= i < lines.len() implies !(#[trigger] lines[i]).contains('\n') by {
        assert(plain(lines[i]));
    }
    lemma_written_split(lines);
    assert(lines.push(seq![]).drop_last() =~= lines);
    lemma_shown(lines, color);
}

/// Law: a window shows the lines right above those that it is scrolled back by.
pub proof fn law_window_at(lines: Seq<LineView>, height: nat, back: nat, i: int)
    requires
        height + back <= lines.len(),
        0 <= i < height,
    ensures
        window(lines, height, back).len() == height,
        window(lines, height, back)[i] == lines[lines.len() - back - height + i],
{
}

/// Law: of carriage returns at the end of a line none is left, and nothing else is taken away.
pub proof fn law_returns_stripped(s: Seq<char>)
    ensures
        strip_returns(s).len() <= s.len(),
        strip_returns(s) == s.take(strip_returns(s).len() as int),
        forall|i: int| strip_returns(s).len() <= i < s.len() ==> #[trigger] s[i] == '\r',
        strip_returns(s).len() > 0 ==> strip_returns(s).last() != '\r',
    decreases s.len(),
{
    if s.len() > 0 && s.last() == '\r' {
        let t = s.drop_last();
        law_returns_stripped(t);
        let n = strip_returns(s).len() as int;
        assert(t.take(n) =~= s.take(n));
        assert forall|i: int| n <= i < s.len() implies #[trigger] s[i] == '\r' by {
            if i < t.len() {
                assert(t[i] == s[i]);
            }
        }
    } else {
        assert(s.take(s.len() as int) =~= s);
    }
}

/// Law: the last line begins right after the last newline, or at the start.
pub proof fn law_last_line(bytes: Seq<u8>)
    ensures
        0 <= line_start(bytes) <= bytes.len(),
        line_start(bytes) > 0 ==> bytes[line_start(bytes) - 1] == 10,
        forall|i: int| line_start(bytes) <= i < bytes.len() ==> #[trigger] bytes[i] != 10,
    decreases bytes.len(),
{
    if bytes.len() > 0 && bytes.last() != 10 {
        let t = bytes.drop_last();
        law_last_line(t);
        assert forall|i: int| line_start(bytes) <= i < bytes.len() implies #[trigger] bytes[i]
            != 10 by {
            if i < t.len() {
                assert(t[i] == bytes[i]);
            }
        }
    }
}

/// Law: of what was read, the first part of a file is found, where there is one.
pub proof fn law_first_part(parts: Seq<PartView>, file: LogFile)
    ensures
        0 <= part_at(parts, file) <= parts.len(),
        part_at(parts, file) < parts.len() ==> parts[part_at(parts, file)].file == file,
        forall|j: int| 0 <= j < part_at(parts, file) ==> (#[trigger] parts[j]).file != file,
    decreases parts.len(),
{
    if parts.len() > 0 && parts[0].file != file {
        let t = parts.skip(1);
        law_first_part(t, file);
        assert forall|j: int| 0 <= j < part_at(parts, file) implies (#[trigger] parts[j]).file
            != file by {
            if j > 0 {
                assert(t[j - 1] == parts[j]);
            }
        }
    }
}

/// Law: lines of standard output are shown as they are, lines of standard error in red, and none is
/// empty.
pub proof fn law_log_colors(bytes: Seq<u8>, file: LogFile, i: int)
    requires
        0 <= i < log_lines(bytes, file_color(file)).len(),
    ensures
        ({
            let l = log_lines(bytes, file_color(file))[i];
            &&& l.spans.len() == 1
            &&& l.spans[0].text.len() > 0
            &&& l.spans[0].text.last() != '\r'
            &&& file == LogFile::Stdout ==> l.spans[0].style.color == Color::Plain
            &&& file == LogFile::Stderr ==> l.spans[0].style.color == Color::Red
        }),
{
    lemma_shown_line(split_on(decoded(bytes), '\n'), file_color(file), i);
}

/// A line that is shown.
proof fn lemma_shown_line(pieces: Seq<Seq<char>>, color: Color, i: int)
    requires
        0 <= i < shown_lines(pieces, color).len(),
    ensures
        ({
            let l = shown_lines(pieces, color)[i];
            &&& l.spans.len() == 1
            &&& l.spans[0].text.len() > 0
            &&& l.spans[0].text.last() != '\r'
            &&& l.spans[0].style.color == color
        }),
    decreases pieces.len(),
{
    if pieces.len() > 0 {
        let before = shown_lines(pieces.drop_last(), color);
        if i < before.len() {
            lemma_shown_line(pieces.drop_last(), color, i);
        } else {
            law_returns_stripped(pieces.last());
        }
    }
}

/// Law: all lines with text are shown, in their order.
pub proof fn law_shown_lines(a: Seq<Seq<char>>, line: Seq<char>, b: Seq<Seq<char>>, color: Color)
    requires
        line.len() > 0,
        line.last() != '\r',
    ensures
        shown_lines(a + seq![line] + b, color) == shown_lines(a, color) + seq![
            color_line(line, color),
        ] + shown_lines(b, color),
    decreases b.len(),
{
    let all = a + seq![line] + b;
    if b.len() == 0 {
        assert(all.drop_last() =~= a);
        assert(all.last() == line);
        assert(strip_returns(line) == line);
        assert(shown_lines(all, color) =~= shown_lines(a, color) + seq![color_line(line, color)]
            + shown_lines(b, color));
    } else {
        law_shown_lines(a, line, b.drop_last(), color);
        assert(all.drop_last() =~= a + seq![line] + b.drop_last());
        assert(all.last() == b.last());
        assert(shown_lines(all, color) =~= shown_lines(a, color) + seq![color_line(line, color)]
            + shown_lines(b, color));
    }
}

/// Law: as many older lines are paged in as a window lacks: with them it can be scrolled back as far as
/// it is. A window without height lacks none.
pub proof fn law_older_needed(log: &LogSource, view_h: usize, scrollback: usize, r: usize)
    requires
        call_ensures(LogSource::older_needed, (log, view_h, scrollback), r),
    ensures
        view_h == 0 ==> r == 0,
        view_h > 0 && log.lines().len() >= view_h + scrollback ==> r == 0,
        view_h > 0 && view_h <= log.lines().len() < view_h + scrollback ==> log.lines().len() + r
            == view_h + scrollback,
        view_h > 0 && log.lines().len() < view_h ==> r == scrollback,
{
}

/// Law: older lines are paged from the log files that are known, standard output first, and from none
/// where none are wanted.
pub proof fn law_paged_files(log: &LogSource, wanted: usize, r: Vec<(LogFile, String)>)
    requires
        call_ensures(LogSource::ensure_older_lines, (log, wanted), r),
    ensures
        wanted == 0 ==> r@.len() == 0,
        wanted > 0 ==> {
            &&& log.stdout_path matches Some(p) ==> r@.len() > 0 && r@[0].0 == LogFile::Stdout
                && r@[0].1@ == p@
            &&& log.stderr_path matches Some(p) ==> r@.len() > 0 && r@.last().0 == LogFile::Stderr
                && r@.last().1@ == p@
            &&& r@.len() == (if log.stdout_path is Some {
                1int
            } else {
                0int
            }) + (if log.stderr_path is Some {
                1int
            } else {
                0int
            })
        },
{
    if wanted > 0 && r@.len() > 0 {
        let files = log.paged_files(wanted as int);
        assert(r@[0].0 == files[0].0);
        assert(r@[r@.len() - 1].0 == files[r@.len() - 1].0);
    }
}

/// Law: a log file is read from its end backwards, in parts of 64 KiB, until nothing is left of it or
/// enough lines are there.
pub proof fn law_next_part(task: &PageTask, log: &LogSource, r: Option<(u64, u64)>)
    requires
        call_ensures(PageTask::next, (task, log), r),
    ensures
        r matches Some(part) ==> {
            &&& part.0 + part.1 == task.len - log.loaded(task.file).len()
            &&& 1 <= part.1 <= 64 * 1024
            &&& part.1 == 64 * 1024 || part.0 == 0
            &&& log.older().len() < task.before + task.wanted
        },
        r is None ==> log.older().len() >= task.before + task.wanted || log.loaded(task.file).len()
            >= task.len,
{
}

/// Law: lines of the live tail are appended or replaced without touching what was paged in, and new log
/// files make it be forgotten, but not the live tail.
pub proof fn law_log_changed(
    a: &mut LogSource,
    lines: Vec<Line>,
    x: (),
    b: &mut LogSource,
    y: (),
    c: &mut LogSource,
    stdout: &str,
    stderr: &str,
    z: (),
)
    requires
        call_ensures(LogSource::append_live, (a, &lines), x),
        call_ensures(LogSource::replace_live_tail, (b, lines), y),
        call_ensures(LogSource::set_log_files, (c, stdout, stderr), z),
    ensures
        final(a).live() == old(a).live() + views(lines@),
        final(a).older() == old(a).older(),
        final(a).read() == old(a).read(),
        final(b).live() == views(lines@),
        final(b).older() == old(b).older(),
        final(b).read() == old(b).read(),
        final(c).live() == old(c).live(),
        final(c).older().len() == 0,
        final(c).read().len() == 0,
        opt_view(final(c).stdout_path) == Some(stdout@),
        opt_view(final(c).stderr_path) == Some(stderr@),
{
}

/// Law: what is read of a log file is held before what was read of it, and nothing of the other file or
/// of the live tail changes. The lines paged in are those of what was read.
pub proof fn law_chunk_read(log: &mut LogSource, file: LogFile, chunk: Vec<u8>, r: (), other: LogFile)
    requires
        call_ensures(LogSource::prepend_chunk, (log, file, &chunk), r),
        other != file,
    ensures
        final(log).loaded(file) == chunk@ + old(log).loaded(file),
        final(log).loaded(other) == old(log).loaded(other),
        final(log).live() == old(log).live(),
        final(log).older() == part_lines(final(log).read()),
        final(log).read() == with_chunk(old(log).read(), file, chunk@),
        old(log).read().len() == 0 ==> final(log).older() == log_lines(chunk@, file_color(file)),
{
    assert(final(log).loaded(other) == old(log).loaded(other));
    law_prepended(old(log).read(), file, chunk@);
    if old(log).read().len() == 0 {
        let lines = log_lines(chunk@, file_color(file));
        assert(part_lines(old(log).read()) =~= seq![]);
        assert(lines + seq![] =~= lines);
    }
}

/// Law: what a window shows of a log are its lines, the older ones first.
pub proof fn law_visible(log: &LogSource, view_h: usize, scrollback: usize, r: Vec<Line>, i: int)
    requires
        call_ensures(LogSource::visible_lines, (log, view_h, scrollback), r),
        view_h + scrollback <= log.older().len() + log.live().len(),
        0 <= i < view_h,
    ensures
        r@.len() == view_h,
        ({
            let k = log.older().len() + log.live().len() - scrollback - view_h + i;
            r@[i]@ == (if k < log.older().len() {
                log.older()[k]
            } else {
                log.live()[k - log.older().len()]
            })
        }),
{
    let v = views(r@);
    assert(v.len() == r@.len());
    law_window_at(log.lines(), view_h as nat, scrollback as nat, i);
    assert(v[i] == r@[i]@);
}

} // verus!
