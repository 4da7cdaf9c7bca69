//! The parts of a planner's output that may be the YAML list of tasks.

use vstd::prelude::*;
use vstd::string::*;
use vstd::utf8::*;

use crate::patterns::capture_all;
use crate::patterns::captured;
use crate::patterns::find_first;
use crate::patterns::found;
use crate::patterns::span_view;
use crate::patterns::span_views;
use crate::patterns::spans_fit;
use crate::slices::is_span;
use crate::slices::lemma_boundary;
use crate::slices::lemma_whole_span;
use crate::slices::slice;
use crate::slices::slice_text;
use crate::text::contains_text;
use crate::text::has_text;

verus! {

/// A fenced block that is marked as YAML.
pub const YAML_FENCE: &'static str = "(?s)```ya?ml\\s*(.*?)\\s*```";

/// A block between two lines of three dashes.
pub const FRONT_MATTER: &'static str = "(?ms)^---\\s*\\r?$\\n(.*?)\\n^---\\s*\\r?$";

/// A fenced block.
pub const ANY_FENCE: &'static str = "(?s)```\\s*(.*?)\\s*```";

/// A closing line of three dashes.
pub const END_DASHES: &'static str = "(?m)\\n---\\s*$";

/// A line of a log.
pub const END_LOG: &'static str = "(?m)^\\[.*";

/// A separating line.
pub const END_RULE: &'static str = "(?m)^-{4,}\\s*$";

/// A line that begins with a code fence.
pub const END_FENCE: &'static str = "(?m)^```\\s*";

/// A line that reports an error.
pub const END_ERROR: &'static str = "(?mi)^Error:\\s*";

/// A part of a text: the byte offset at which it begins, and what it says.
pub type Part = (int, Seq<char>);

/// The parts that spans mark out.
pub open spec fn parts_of(text: Seq<char>, spans: Seq<Option<(int, int)>>) -> Seq<Part>
    decreases spans.len(),
{
    if spans.len() == 0 {
        seq![]
    } else {
        let before = parts_of(text, spans.drop_last());
        match spans.last() {
            Some((a, b)) => before.push((a, slice_text(text, a, b))),
            None => before,
        }
    }
}

/// The parts that mention `tasks:`.
pub open spec fn mentioning(parts: Seq<Part>) -> Seq<Part>
    decreases parts.len(),
{
    if parts.len() == 0 {
        seq![]
    } else {
        let before = mentioning(parts.drop_last());
        if contains_text(parts.last().1, "tasks:"@) {
            before.push(parts.last())
        } else {
            before
        }
    }
}

/// The least of the length and the offsets given.
pub open spec fn least(len: int, offsets: Seq<Option<int>>) -> int
    decreases offsets.len(),
{
    if offsets.len() == 0 {
        len
    } else {
        let before = least(len, offsets.drop_last());
        match offsets.last() {
            Some(i) => if i < before {
                i
            } else {
                before
            },
            None => before,
        }
    }
}

/// Where the text after a mention of `tasks:` ends: at the first closing line, log line, separator,
/// fence or error line, or at its end.
pub open spec fn boundary(rest: Seq<char>) -> int {
    least(
        encode_utf8(rest).len() as int,
        seq![
            found(END_DASHES@, rest),
            found(END_LOG@, rest),
            found(END_RULE@, rest),
            found(END_FENCE@, rest),
            found(END_ERROR@, rest),
        ],
    )
}

/// Whether bytes `p` stand at offset `i` of `b`.
pub open spec fn bytes_at(b: Seq<u8>, p: Seq<u8>, i: int) -> bool {
    0 <= i && i + p.len() <= b.len() && b.subrange(i, i + p.len()) == p
}

/// The bytes of `tasks:`.
pub open spec fn mark() -> Seq<u8> {
    seq![116u8, 97, 115, 107, 115, 58]
}

/// The offsets of the mentions of `tasks:` in `b` from offset `from` on.
pub open spec fn marks(b: Seq<u8>, from: int) -> Seq<int>
    decreases b.len() - from,
{
    if from < 0 || from >= b.len() {
        seq![]
    } else if bytes_at(b, mark(), from) {
        seq![from] + marks(b, from + 6)
    } else {
        marks(b, from + 1)
    }
}

/// The part from a mention of `tasks:` to its boundary.
pub open spec fn part_at(text: Seq<char>, i: int) -> Part {
    let rest = slice_text(text, i, encode_utf8(text).len() as int);
    (i, slice_text(rest, 0, boundary(rest)))
}

/// The parts from each of the offsets to its boundary.
pub open spec fn parts_at(text: Seq<char>, offsets: Seq<int>) -> Seq<Part> {
    Seq::new(offsets.len(), |k: int| part_at(text, offsets[k]))
}

/// Whether a part begins where one before it begins.
pub open spec fn begins_again(parts: Seq<Part>, i: int) -> bool {
    exists|j: int| 0 <= j < i && (#[trigger] parts[j]).0 == parts[i].0
}

/// The first `n` parts, without those that begin where one before them begins.
pub open spec fn distinct(parts: Seq<Part>, n: int) -> Seq<Part>
    decreases n,
{
    if n <= 0 {
        seq![]
    } else if begins_again(parts, n - 1) {
        distinct(parts, n - 1)
    } else {
        distinct(parts, n - 1).push(parts[n - 1])
    }
}

/// All parts that may be the list of tasks, by the spans of the fenced blocks and the front-matter
/// blocks: the blocks marked as YAML, the other blocks that mention `tasks:`, what follows each
/// mention, and the whole text.
pub open spec fn all_parts(
    text: Seq<char>,
    yaml: Seq<Option<(int, int)>>,
    front: Seq<Option<(int, int)>>,
    fenced: Seq<Option<(int, int)>>,
) -> Seq<Part> {
    parts_of(text, yaml) + mentioning(parts_of(text, front)) + mentioning(parts_of(text, fenced))
        + parts_at(text, marks(encode_utf8(text), 0)) + seq![(0int, text)]
}

/// The candidates in a planner's output.
pub open spec fn candidates_in(
    text: Seq<char>,
    yaml: Seq<Option<(int, int)>>,
    front: Seq<Option<(int, int)>>,
    fenced: Seq<Option<(int, int)>>,
) -> Seq<Part> {
    let parts = all_parts(text, yaml, front, fenced);
    distinct(parts, parts.len() as int)
}

/// Candidates as pairs of an offset and a text.
pub open spec fn part_views(parts: Seq<(usize, &str)>) -> Seq<Part> {
    Seq::new(parts.len(), |i: int| (parts[i].0 as int, parts[i].1@))
}

/// Appends the parts that spans mark out, all of them or those that mention `tasks:`.
fn push_parts<'a>(
    out: &mut Vec<(usize, &'a str)>,
    text: &'a str,
    spans: &Vec<Option<(usize, usize)>>,
    only_mentioning: bool,
)
    requires
        spans_fit(text@, spans@),
    ensures
        part_views(final(out)@) == part_views(old(out)@) + (if only_mentioning {
            mentioning(parts_of(text@, span_views(spans@)))
        } else {
            parts_of(text@, span_views(spans@))
        }),
{
    let ghost before = part_views(out@);
    let ghost all = span_views(spans@);
    let mut i: usize = 0;
    proof {
        assert(all.take(0) =~= seq![]);
        assert(before + seq![] =~= before);
    }
    while i < spans.len()
        invariant
            i <= spans@.len(),
            spans_fit(text@, spans@),
            all == span_views(spans@),
            part_views(out@) == before + (if only_mentioning {
                mentioning(parts_of(text@, all.take(i as int)))
            } else {
                parts_of(text@, all.take(i as int))
            }),
        decreases spans@.len() - i,
    {
        let ghost had = out@;
        let ghost taken = parts_of(text@, all.take(i as int));
        proof {
            assert(all.take(i + 1).drop_last() =~= all.take(i as int));
            assert(all.take(i + 1).last() == span_view(spans@[i as int]));
        }
        if let Some((a, b)) = spans[i] {
            let part = slice(text, a, b);
            proof {
                assert(taken.push((a as int, part@)).drop_last() =~= taken);
            }
            if !only_mentioning || has_text(part, "tasks:") {
                out.push((a, part));
                proof {
                    assert(part_views(out@) =~= part_views(had).push((a as int, part@)));
                    assert(part_views(out@) =~= before + (if only_mentioning {
                        mentioning(parts_of(text@, all.take(i + 1)))
                    } else {
                        parts_of(text@, all.take(i + 1))
                    }));
                }
            }
        }
        i += 1;
    }
    proof {
        assert(all.take(i as int) =~= all);
    }
}

/// Tells whether `tasks:` stands at offset `i`.
fn mark_at(b: &[u8], i: usize) -> (r: bool)
    ensures
        r == bytes_at(b@, mark(), i as int),
{
    if b.len() < 6 || i > b.len() - 6 {
        return false;
    }
    let r = b[i] == 116 && b[i + 1] == 97 && b[i + 2] == 115 && b[i + 3] == 107 && b[i + 4] == 115
        && b[i + 5] == 58;
    proof {
        let s = b@.subrange(i as int, i + 6);
        assert(forall|k: int| 0 <= k < 6 ==> s[k] == b@[i + k]);
        if r {
            assert(s =~= mark());
        } else if s == mark() {
            assert(s[0] == 116 && s[1] == 97 && s[2] == 115 && s[3] == 107 && s[4] == 115 && s[5]
                == 58);
        }
    }
    r
}

/// The least of the length and the offsets given.
pub fn least_offset(len: usize, offsets: &Vec<Option<usize>>) -> (r: usize)
    ensures
        r == least(len as int, offset_views(offsets@)),
        r == len || exists|i: int| 0 <= i < offsets@.len() && #[trigger] offsets@[i] == Some(r),
{
    let mut r: usize = len;
    let mut i: usize = 0;
    let ghost all = offset_views(offsets@);
    proof {
        assert(all.take(0) =~= seq![]);
    }
    while i < offsets.len()
        invariant
            i <= offsets@.len(),
            all == offset_views(offsets@),
            r == least(len as int, all.take(i as int)),
            r == len || exists|k: int|
                0 <= k < offsets@.len() && #[trigger] offsets@[k] == Some(r),
        decreases offsets@.len() - i,
    {
        proof {
            assert(all.take(i + 1).drop_last() =~= all.take(i as int));
            assert(all.take(i + 1).last() == all[i as int]);
        }
        if let Some(o) = offsets[i] {
            if o < r {
                assert(offsets@[i as int] == Some(o));
                r = o;
            }
        }
        i += 1;
    }
    proof {
        assert(all.take(i as int) =~= all);
    }
    r
}

/// Offsets as integers.
pub open spec fn offset_views(offsets: Seq<Option<usize>>) -> Seq<Option<int>> {
    Seq::new(
        offsets.len(),
        |i: int|
            match offsets[i] {
                Some(o) => Some(o as int),
                None => None,
            },
    )
}

/// Where the text after a mention of `tasks:` ends.
fn boundary_of(rest: &str) -> (r: usize)
    ensures
        r == boundary(rest@),
        cut_at(rest@, r as int),
        is_span(rest@, 0, r as int),
{
    let mut offsets: Vec<Option<usize>> = Vec::new();
    offsets.push(find_first(END_DASHES, rest));
    offsets.push(find_first(END_LOG, rest));
    offsets.push(find_first(END_RULE, rest));
    offsets.push(find_first(END_FENCE, rest));
    offsets.push(find_first(END_ERROR, rest));
    let r: usize = least_offset(rest.as_bytes().len(), &offsets);
    proof {
        assert(offset_views(offsets@) =~= seq![
            found(END_DASHES@, rest@),
            found(END_LOG@, rest@),
            found(END_RULE@, rest@),
            found(END_FENCE@, rest@),
            found(END_ERROR@, rest@),
        ]);
        lemma_whole_span(rest@);
        lemma_cut(rest@);
    }
    r
}

/// Appends the part from each mention of `tasks:` to its boundary.
fn push_marked<'a>(out: &mut Vec<(usize, &'a str)>, text: &'a str)
    ensures
        part_views(final(out)@) == part_views(old(out)@) + parts_at(
            text@,
            marks(encode_utf8(text@), 0),
        ),
{
    let ghost before = part_views(out@);
    let b = text.as_bytes();
    let n: usize = b.len();
    let mut i: usize = 0;
    let ghost mut seen: Seq<int> = seq![];
    proof {
        assert(seen + marks(b@, 0) =~= marks(b@, 0));
        assert(before + parts_at(text@, seen) =~= before);
    }
    while i < n
        invariant
            b@ == encode_utf8(text@),
            n == b@.len(),
            i <= n,
            seen + marks(b@, i as int) == marks(b@, 0),
            part_views(out@) == before + parts_at(text@, seen),
        decreases n - i,
    {
        if mark_at(b, i) {
            proof {
                assert(b@.subrange(i as int, i + 6)[0] == mark()[0]);
                assert(b@[i as int] == 116);
                assert(!is_continuation_byte(116u8));
                lemma_boundary(text@, i as int);
                lemma_whole_span(text@);
            }
            let rest = slice(text, i, n);
            let end: usize = boundary_of(rest);
            let part = slice(rest, 0, end);
            let ghost had = out@;
            out.push((i, part));
            proof {
                assert(part_views(out@) =~= part_views(had).push((i as int, part@)));
                assert(parts_at(text@, seen.push(i as int)) =~= parts_at(text@, seen).push(
                    (i as int, part@),
                ));
                assert(part_views(out@) =~= before + parts_at(text@, seen.push(i as int)));
                assert(seen.push(i as int) + marks(b@, i + 6) =~= seen + marks(b@, i as int));
                seen = seen.push(i as int);
            }
            i += 6;
        } else {
            i += 1;
        }
    }
    proof {
        assert(seen + marks(b@, i as int) =~= seen);
    }
}

/// Drops the parts that begin where one before them begins.
fn keep_distinct<'a>(parts: &Vec<(usize, &'a str)>) -> (r: Vec<&'a str>)
    ensures
        texts_of(r@) == Seq::new(
            distinct(part_views(parts@), parts@.len() as int).len(),
            |i: int| distinct(part_views(parts@), parts@.len() as int)[i].1,
        ),
{
    let ghost all = part_views(parts@);
    let mut r: Vec<&'a str> = Vec::new();
    let mut i: usize = 0;
    while i < parts.len()
        invariant
            i <= parts@.len(),
            all == part_views(parts@),
            r@.len() == distinct(all, i as int).len(),
            forall|k: int| 0 <= k < r@.len() ==> (#[trigger] r@[k])@ == distinct(all, i as int)[k].1,
        decreases parts@.len() - i,
    {
        let mut again = false;
        let mut j: usize = 0;
        while j < i
            invariant
                j <= i < parts@.len(),
                all == part_views(parts@),
                again == exists|k: int| 0 <= k < j && (#[trigger] all[k]).0 == all[i as int].0,
            decreases i - j,
        {
            if parts[j].0 == parts[i].0 {
                assert(all[j as int].0 == all[i as int].0);
                again = true;
            }
            j += 1;
        }
        if !again {
            r.push(parts[i].1);
        }
        i += 1;
    }
    r
}

/// The texts of string slices.
pub open spec fn texts_of(texts: Seq<&str>) -> Seq<Seq<char>> {
    Seq::new(texts.len(), |i: int| texts[i]@)
}

/// The candidates in a planner's output, by the spans of the fenced blocks and the front-matter
/// blocks in it.
pub fn assemble_candidates<'a>(
    output: &'a str,
    yaml: &Vec<Option<(usize, usize)>>,
    front: &Vec<Option<(usize, usize)>>,
    fenced: &Vec<Option<(usize, usize)>>,
) -> (r: Vec<&'a str>)
    requires
        spans_fit(output@, yaml@),
        spans_fit(output@, front@),
        spans_fit(output@, fenced@),
    ensures
        texts_of(r@) == candidate_texts(
            candidates_in(output@, span_views(yaml@), span_views(front@), span_views(fenced@)),
        ),
{
    let mut parts: Vec<(usize, &'a str)> = Vec::new();
    proof {
        assert(part_views(parts@) =~= seq![]);
    }
    push_parts(&mut parts, output, yaml, false);
    push_parts(&mut parts, output, front, true);
    push_parts(&mut parts, output, fenced, true);
    push_marked(&mut parts, output);
    let ghost had = parts@;
    parts.push((0, output));
    proof {
        assert(part_views(parts@) =~= part_views(had).push((0int, output@)));
        assert(part_views(parts@) =~= all_parts(
            output@,
            span_views(yaml@),
            span_views(front@),
            span_views(fenced@),
        ));
    }
    keep_distinct(&parts)
}

/// What candidates say.
pub open spec fn candidate_texts(parts: Seq<Part>) -> Seq<Seq<char>> {
    Seq::new(parts.len(), |i: int| parts[i].1)
}

/// The candidates in a planner's output, those marked most clearly first.
pub fn extract_yaml_candidates(output: &str) -> (r: Vec<&str>)
    ensures
        texts_of(r@) == candidate_texts(
            candidates_in(
                output@,
                captured(YAML_FENCE@, output@),
                captured(FRONT_MATTER@, output@),
                captured(ANY_FENCE@, output@),
            ),
        ),
{
    let yaml = capture_all(YAML_FENCE, output);
    let front = capture_all(FRONT_MATTER, output);
    let fenced = capture_all(ANY_FENCE, output);
    assemble_candidates(output, &yaml, &front, &fenced)
}

/// Whether `tasks:` stands at offset `i` of the bytes of a text.
pub open spec fn mentioned_at(b: Seq<u8>, i: int) -> bool {
    &&& 0 <= i
    &&& i + 6 <= b.len()
    &&& b[i] == 116
    &&& b[i + 1] == 97
    &&& b[i + 2] == 115
    &&& b[i + 3] == 107
    &&& b[i + 4] == 115
    &&& b[i + 5] == 58
}

/// Whether the text after a mention of `tasks:` may be cut at `end`: no match of an ending lies
/// before it, and it is one of these matches or the end of the text.
pub open spec fn cut_at(rest: Seq<char>, end: int) -> bool {
    let dashes = found("(?m)\\n---\\s*$"@, rest);
    let log = found("(?m)^\\[.*"@, rest);
    let rule = found("(?m)^-{4,}\\s*$"@, rest);
    let fence = found("(?m)^```\\s*"@, rest);
    let error = found("(?mi)^Error:\\s*"@, rest);
    &&& dashes matches Some(i) ==> end <= i
    &&& log matches Some(i) ==> end <= i
    &&& rule matches Some(i) ==> end <= i
    &&& fence matches Some(i) ==> end <= i
    &&& error matches Some(i) ==> end <= i
    &&& end <= encode_utf8(rest).len()
    &&& end == encode_utf8(rest).len() || dashes == Some(end) || log == Some(end) || rule == Some(
        end,
    ) || fence == Some(end) || error == Some(end)
}

/// Where a span begins.
pub open spec fn begin_of(span: Option<(int, int)>) -> int {
    match span {
        Some((a, _)) => a,
        None => 0,
    }
}

/// Where a span ends.
pub open spec fn end_of(span: Option<(int, int)>) -> int {
    match span {
        Some((_, b)) => b,
        None => 0,
    }
}

/// Whether a part is what one of the spans encloses.
pub open spec fn enclosed(text: Seq<char>, spans: Seq<Option<(int, int)>>, p: Part) -> bool {
    exists|j: int, b: int|
        0 <= j < spans.len() && #[trigger] spans[j] == Some((p.0, b)) && p.1 == #[trigger] slice_text(
            text,
            p.0,
            b,
        )
}

/// Whether a part goes from a mention of `tasks:` to where it may be cut.
pub open spec fn follows_mention(text: Seq<char>, p: Part) -> bool {
    &&& mentioned_at(encode_utf8(text), p.0)
    &&& exists|end: int|
        #[trigger] cut_at(slice_text(text, p.0, encode_utf8(text).len() as int), end) && p.1
            == slice_text(slice_text(text, p.0, encode_utf8(text).len() as int), 0, end)
}

/// A boundary is a place where the text may be cut.
proof fn lemma_cut(rest: Seq<char>)
    ensures
        cut_at(rest, boundary(rest)),
{
    let len = encode_utf8(rest).len() as int;
    let s = seq![
        found(END_DASHES@, rest),
        found(END_LOG@, rest),
        found(END_RULE@, rest),
        found(END_FENCE@, rest),
        found(END_ERROR@, rest),
    ];
    lemma_least(len, s);
    assert(s[0] == found(END_DASHES@, rest));
    assert(s[1] == found(END_LOG@, rest));
    assert(s[2] == found(END_RULE@, rest));
    assert(s[3] == found(END_FENCE@, rest));
    assert(s[4] == found(END_ERROR@, rest));
}

/// The least of offsets and a length is one of them, and none is less.
proof fn lemma_least(len: int, s: Seq<Option<int>>)
    ensures
        least(len, s) <= len,
        forall|k: int| 0 <= k < s.len() ==> (#[trigger] s[k] matches Some(i) ==> least(len, s) <= i),
        least(len, s) == len || exists|k: int|
            0 <= k < s.len() && #[trigger] s[k] == Some(least(len, s)),
    decreases s.len(),
{
    if s.len() > 0 {
        let t = s.drop_last();
        lemma_least(len, t);
        assert forall|k: int| 0 <= k < s.len() implies (#[trigger] s[k] matches Some(i) ==> least(
            len,
            s,
        ) <= i) by {
            if k < t.len() {
                assert(t[k] == s[k]);
            }
        }
        if least(len, s) != len {
            if s.last() == Some(least(len, s)) {
                assert(s[s.len() - 1] == Some(least(len, s)));
            } else {
                let k = choose|k: int| 0 <= k < t.len() && #[trigger] t[k] == Some(least(len, t));
                assert(s[k] == t[k]);
            }
        }
    }
}

/// The marks are the offsets at which `tasks:` stands.
proof fn lemma_marks(b: Seq<u8>, from: int, i: int)
    requires
        0 <= from,
    ensures
        marks(b, from).contains(i) <==> from <= i && mentioned_at(b, i),
    decreases b.len() - from,
{
    if from < b.len() {
        lemma_mark(b, from);
        lemma_mark(b, i);
        if bytes_at(b, mark(), from) {
            let tail = marks(b, from + 6);
            lemma_marks(b, from + 6, i);
            let all = seq![from] + tail;
            assert(all[0] == from);
            if tail.contains(i) {
                let k = choose|k: int| 0 <= k < tail.len() && tail[k] == i;
                assert(all[k + 1] == i);
            }
            if all.contains(i) && i != from {
                let k = choose|k: int| 0 <= k < all.len() && all[k] == i;
                assert(tail[k - 1] == i);
            }
        } else {
            lemma_marks(b, from + 1, i);
        }
    }
}

/// The bytes of `tasks:`, one by one.
proof fn lemma_mark(b: Seq<u8>, i: int)
    ensures
        bytes_at(b, mark(), i) <==> mentioned_at(b, i),
{
    if 0 <= i && i + 6 <= b.len() {
        let s = b.subrange(i, i + 6);
        assert(forall|k: int| 0 <= k < 6 ==> #[trigger] s[k] == b[i + k]);
        if mentioned_at(b, i) {
            assert(s[0] == 116 && s[1] == 97 && s[2] == 115 && s[3] == 107 && s[4] == 115 && s[5]
                == 58);
            assert(s =~= mark());
        }
        if s == mark() {
            assert(s[0] == 116 && s[1] == 97 && s[2] == 115 && s[3] == 107 && s[4] == 115 && s[5]
                == 58);
        }
    }
}

/// The parts that spans mark out are what they enclose, and begin where they begin.
proof fn lemma_enclosed(text: Seq<char>, spans: Seq<Option<(int, int)>>)
    ensures
        forall|k: int|
            0 <= k < parts_of(text, spans).len() ==> enclosed(
                text,
                spans,
                #[trigger] parts_of(text, spans)[k],
            ),
        forall|j: int|
            0 <= j < spans.len() ==> (#[trigger] spans[j] matches Some((a, b)) ==> parts_of(
                text,
                spans,
            ).contains((a, slice_text(text, a, b)))),
        (forall|j: int| 0 <= j < spans.len() ==> (#[trigger] spans[j]) is Some) ==> parts_of(
            text,
            spans,
        ) == Seq::new(
            spans.len(),
            |j: int| (begin_of(spans[j]), slice_text(text, begin_of(spans[j]), end_of(spans[j]))),
        ),
    decreases spans.len(),
{
    let r = parts_of(text, spans);
    if spans.len() > 0 {
        let t = spans.drop_last();
        let q = parts_of(text, t);
        lemma_enclosed(text, t);
        assert forall|k: int| 0 <= k < r.len() implies enclosed(text, spans, #[trigger] r[k]) by {
            if k < q.len() {
                assert(enclosed(text, t, q[k]));
                let (j, b) = choose|j: int, b: int|
                    0 <= j < t.len() && #[trigger] t[j] == Some((q[k].0, b)) && q[k].1
                        == #[trigger] slice_text(text, q[k].0, b);
                assert(spans[j] == Some((r[k].0, b)));
            } else {
                let j = spans.len() - 1;
                let b = end_of(spans[j]);
                assert(spans[j] == Some((r[k].0, b)) && r[k].1 == slice_text(text, r[k].0, b));
            }
        }
        assert forall|j: int| 0 <= j < spans.len() implies (#[trigger] spans[j] matches Some((a, b))
            ==> r.contains((a, slice_text(text, a, b)))) by {
            match spans[j] {
                Some((a, b)) => {
                    let p = (a, slice_text(text, a, b));
                    if j < t.len() {
                        assert(t[j] == spans[j]);
                        assert(q.contains(p));
                        let k = choose|k: int| 0 <= k < q.len() && q[k] == p;
                        assert(r[k] == p);
                    } else {
                        assert(r[r.len() - 1] == p);
                    }
                },
                None => {},
            }
        }
        if forall|j: int| 0 <= j < spans.len() ==> (#[trigger] spans[j]) is Some {
            assert forall|j: int| 0 <= j < t.len() implies (#[trigger] t[j]) is Some by {
                assert(spans[j] is Some);
            }
            assert(spans[spans.len() - 1] is Some);
            assert(r =~= Seq::new(
                spans.len(),
                |j: int| (begin_of(spans[j]), slice_text(text, begin_of(spans[j]), end_of(spans[j]))),
            ));
        }
    } else {
        assert(r =~= Seq::new(
            spans.len(),
            |j: int| (begin_of(spans[j]), slice_text(text, begin_of(spans[j]), end_of(spans[j]))),
        ));
    }
}

/// Those that mention `tasks:` are those of the parts whose text holds it.
proof fn lemma_mentioning(parts: Seq<Part>, p: Part)
    ensures
        mentioning(parts).contains(p) <==> parts.contains(p) && contains_text(p.1, "tasks:"@),
    decreases parts.len(),
{
    if parts.len() > 0 {
        let t = parts.drop_last();
        let q = mentioning(t);
        let r = mentioning(parts);
        lemma_mentioning(t, p);
        assert(parts[parts.len() - 1] == parts.last());
        if q.contains(p) {
            let k = choose|k: int| 0 <= k < q.len() && q[k] == p;
            assert(r[k] == p);
        }
        if t.contains(p) {
            let k = choose|k: int| 0 <= k < t.len() && t[k] == p;
            assert(parts[k] == p);
        }
        if parts.contains(p) && p != parts.last() {
            let k = choose|k: int| 0 <= k < parts.len() && parts[k] == p;
            assert(t[k] == p);
        }
        if p == parts.last() && contains_text(p.1, "tasks:"@) {
            assert(r[r.len() - 1] == p);
        }
        if r.contains(p) && !q.contains(p) {
            let k = choose|k: int| 0 <= k < r.len() && r[k] == p;
            if k < q.len() {
                assert(q[k] == p);
            }
        }
    }
}

/// Of the first `n` parts, one stays for each offset, the first, and the order stays.
proof fn lemma_distinct(parts: Seq<Part>, n: int)
    requires
        0 <= n <= parts.len(),
    ensures
        forall|k: int|
            0 <= k < distinct(parts, n).len() ==> exists|j: int|
                0 <= j < n && #[trigger] parts[j] == #[trigger] distinct(parts, n)[k]
                    && !begins_again(parts, j),
        forall|j: int|
            0 <= j < n && !begins_again(parts, j) ==> distinct(parts, n).contains(
                #[trigger] parts[j],
            ),
        forall|j: int, k: int|
            0 <= j < k < distinct(parts, n).len() ==> (#[trigger] distinct(parts, n)[j]).0 != (
            #[trigger] distinct(parts, n)[k]).0,
    decreases n,
{
    if n > 0 {
        let q = distinct(parts, n - 1);
        let r = distinct(parts, n);
        lemma_distinct(parts, n - 1);
        assert forall|k: int| 0 <= k < r.len() implies exists|j: int|
            0 <= j < n && #[trigger] parts[j] == #[trigger] r[k] && !begins_again(parts, j) by {
            if k < q.len() {
                assert(r[k] == q[k]);
                let j = choose|j: int|
                    0 <= j < n - 1 && #[trigger] parts[j] == q[k] && !begins_again(parts, j);
                assert(parts[j] == r[k]);
            } else {
                assert(parts[n - 1] == r[k]);
            }
        }
        assert forall|j: int| 0 <= j < n && !begins_again(parts, j) implies r.contains(
            #[trigger] parts[j],
        ) by {
            if j < n - 1 {
                assert(q.contains(parts[j]));
                let k = choose|k: int| 0 <= k < q.len() && q[k] == parts[j];
                assert(r[k] == parts[j]);
            } else {
                assert(r[r.len() - 1] == parts[j]);
            }
        }
        assert forall|j: int, k: int| 0 <= j < k < r.len() implies (#[trigger] r[j]).0 != (
        #[trigger] r[k]).0 by {
            assert(r[j] == q[j]);
            if k < q.len() {
                assert(r[k] == q[k]);
            } else {
                let i = choose|i: int|
                    0 <= i < n - 1 && #[trigger] parts[i] == q[j] && !begins_again(parts, i);
                assert(parts[i].0 == r[j].0);
            }
        }
    }
}

/// Each part has one among the first that begins where it begins and stays.
proof fn lemma_first_stays(parts: Seq<Part>, j: int) -> (i: int)
    requires
        0 <= j < parts.len(),
    ensures
        0 <= i <= j,
        parts[i].0 == parts[j].0,
        !begins_again(parts, i),
    decreases j,
{
    if begins_again(parts, j) {
        let k = choose|k: int| 0 <= k < j && (#[trigger] parts[k]).0 == parts[j].0;
        lemma_first_stays(parts, k)
    } else {
        j
    }
}

/// The parts that stay begin with those that stay of the first `n`.
proof fn lemma_distinct_prefix(parts: Seq<Part>, n: int, m: int)
    requires
        0 <= n <= m <= parts.len(),
    ensures
        distinct(parts, n).len() <= distinct(parts, m).len(),
        distinct(parts, m).take(distinct(parts, n).len() as int) == distinct(parts, n),
    decreases m - n,
{
    let q = distinct(parts, n);
    if n < m {
        lemma_distinct_prefix(parts, n, m - 1);
        let r = distinct(parts, m - 1);
        assert(distinct(parts, m).take(q.len() as int) =~= r.take(q.len() as int));
    } else {
        assert(q.take(q.len() as int) =~= q);
    }
}

/// Where no two of the first `n` parts begin at one offset, all of them stay.
proof fn lemma_all_distinct(parts: Seq<Part>, n: int)
    requires
        0 <= n <= parts.len(),
        forall|i: int, j: int|
            0 <= i < j < n ==> (#[trigger] parts[i]).0 != (#[trigger] parts[j]).0,
    ensures
        distinct(parts, n) == parts.take(n),
    decreases n,
{
    if n > 0 {
        lemma_all_distinct(parts, n - 1);
        assert(!begins_again(parts, n - 1));
    }
    assert(distinct(parts, n) =~= parts.take(n));
}


/// The blocks among all parts.
pub open spec fn blocks(
    text: Seq<char>,
    yaml: Seq<Option<(int, int)>>,
    front: Seq<Option<(int, int)>>,
    fenced: Seq<Option<(int, int)>>,
) -> Seq<Part> {
    parts_of(text, yaml) + mentioning(parts_of(text, front)) + mentioning(parts_of(text, fenced))
}

/// Whether a part is a block marked as YAML, or another block that mentions `tasks:`.
pub open spec fn is_block(
    text: Seq<char>,
    yaml: Seq<Option<(int, int)>>,
    front: Seq<Option<(int, int)>>,
    fenced: Seq<Option<(int, int)>>,
    p: Part,
) -> bool {
    ||| enclosed(text, yaml, p)
    ||| enclosed(text, front, p) && contains_text(p.1, "tasks:"@)
    ||| enclosed(text, fenced, p) && contains_text(p.1, "tasks:"@)
}

/// Which parts stand among the blocks.
proof fn lemma_blocks(
    text: Seq<char>,
    yaml: Seq<Option<(int, int)>>,
    front: Seq<Option<(int, int)>>,
    fenced: Seq<Option<(int, int)>>,
    p: Part,
)
    ensures
        blocks(text, yaml, front, fenced).contains(p) <==> is_block(text, yaml, front, fenced, p),
{
    let a = parts_of(text, yaml);
    let b = mentioning(parts_of(text, front));
    let c = mentioning(parts_of(text, fenced));
    let all = blocks(text, yaml, front, fenced);
    let n1 = a.len() as int;
    let n2 = n1 + b.len();
    lemma_within(text, yaml, p);
    lemma_within(text, front, p);
    lemma_within(text, fenced, p);
    lemma_mentioning(parts_of(text, front), p);
    lemma_mentioning(parts_of(text, fenced), p);
    if a.contains(p) {
        let k = choose|k: int| 0 <= k < a.len() && a[k] == p;
        assert(all[k] == p);
    }
    if b.contains(p) {
        let k = choose|k: int| 0 <= k < b.len() && b[k] == p;
        assert(all[n1 + k] == p);
    }
    if c.contains(p) {
        let k = choose|k: int| 0 <= k < c.len() && c[k] == p;
        assert(all[n2 + k] == p);
    }
    if all.contains(p) {
        let k = choose|k: int| 0 <= k < all.len() && all[k] == p;
        if k < n1 {
            assert(a[k] == p);
        } else if k < n2 {
            assert(b[k - n1] == p);
        } else {
            assert(c[k - n2] == p);
        }
    }
}

/// A part is among those that spans mark out if one of them encloses it.
proof fn lemma_within(text: Seq<char>, spans: Seq<Option<(int, int)>>, p: Part)
    ensures
        parts_of(text, spans).contains(p) <==> enclosed(text, spans, p),
{
    lemma_enclosed(text, spans);
    if enclosed(text, spans, p) {
        let (j, b) = choose|j: int, b: int|
            0 <= j < spans.len() && #[trigger] spans[j] == Some((p.0, b)) && p.1
                == #[trigger] slice_text(text, p.0, b);
        assert(spans[j] == Some((p.0, b)));
    }
    if parts_of(text, spans).contains(p) {
        let k = choose|k: int|
            0 <= k < parts_of(text, spans).len() && parts_of(text, spans)[k] == p;
        assert(enclosed(text, spans, parts_of(text, spans)[k]));
    }
}

/// What follows a mention goes from it to where it may be cut.
proof fn lemma_part_at(text: Seq<char>, i: int)
    requires
        mentioned_at(encode_utf8(text), i),
    ensures
        follows_mention(text, part_at(text, i)),
{
    lemma_cut(slice_text(text, i, encode_utf8(text).len() as int));
}

/// All parts: the blocks, what follows the mentions, and the whole text.
proof fn lemma_all_parts(
    text: Seq<char>,
    yaml: Seq<Option<(int, int)>>,
    front: Seq<Option<(int, int)>>,
    fenced: Seq<Option<(int, int)>>,
)
    ensures
        ({
            let all = all_parts(text, yaml, front, fenced);
            let first = blocks(text, yaml, front, fenced);
            let n = first.len() as int;
            let at = marks(encode_utf8(text), 0);
            &&& all.len() == n + at.len() + 1
            &&& forall|k: int| 0 <= k < n ==> #[trigger] all[k] == first[k]
            &&& forall|k: int|
                n <= k < n + at.len() ==> #[trigger] all[k] == part_at(text, at[k - n])
            &&& forall|k: int|
                n <= k < n + at.len() ==> mentioned_at(encode_utf8(text), (#[trigger] all[k]).0)
            &&& all[n + at.len()] == (0int, text)
        }),
{
    let all = all_parts(text, yaml, front, fenced);
    let first = blocks(text, yaml, front, fenced);
    let n = first.len() as int;
    let at = marks(encode_utf8(text), 0);
    assert forall|k: int| n <= k < n + at.len() implies mentioned_at(
        encode_utf8(text),
        (#[trigger] all[k]).0,
    ) by {
        assert(all[k] == part_at(text, at[k - n]));
        assert(at.contains(at[k - n]));
        lemma_marks(encode_utf8(text), 0, at[k - n]);
    }
}

/// One of the candidates says `t`.
pub open spec fn is_candidate(r: Seq<&str>, t: Seq<char>) -> bool {
    exists|k: int| 0 <= k < r.len() && (#[trigger] r[k])@ == t
}

/// The blocks that are marked as YAML.
pub open spec fn yaml_blocks(text: Seq<char>) -> Seq<Option<(int, int)>> {
    captured("(?s)```ya?ml\\s*(.*?)\\s*```"@, text)
}

/// The blocks between lines of three dashes.
pub open spec fn dashed_blocks(text: Seq<char>) -> Seq<Option<(int, int)>> {
    captured("(?ms)^---\\s*\\r?$\\n(.*?)\\n^---\\s*\\r?$"@, text)
}

/// The fenced blocks.
pub open spec fn fenced_blocks(text: Seq<char>) -> Seq<Option<(int, int)>> {
    captured("(?s)```\\s*(.*?)\\s*```"@, text)
}

/// A candidate that stays is one of the candidates of the result.
proof fn lemma_stays(output: &str, r: Vec<&str>, i: int)
    requires
        call_ensures(extract_yaml_candidates, (output,), r),
        0 <= i < all_parts(
            output@,
            yaml_blocks(output@),
            dashed_blocks(output@),
            fenced_blocks(output@),
        ).len(),
        !begins_again(
            all_parts(
                output@,
                yaml_blocks(output@),
                dashed_blocks(output@),
                fenced_blocks(output@),
            ),
            i,
        ),
    ensures
        is_candidate(
            r@,
            all_parts(
                output@,
                yaml_blocks(output@),
                dashed_blocks(output@),
                fenced_blocks(output@),
            )[i].1,
        ),
{
    let all = all_parts(
        output@,
        yaml_blocks(output@),
        dashed_blocks(output@),
        fenced_blocks(output@),
    );
    let kept = distinct(all, all.len() as int);
    lemma_distinct(all, all.len() as int);
    assert(kept.contains(all[i]));
    let k = choose|k: int| 0 <= k < kept.len() && kept[k] == all[i];
    assert(texts_of(r@)[k] == candidate_texts(kept)[k]);
    assert(texts_of(r@).len() == kept.len());
    assert(r@[k]@ == all[i].1);
}

/// Law: what follows a mention of `tasks:` is a part from the mention to the first closing line, log
/// line, separator, fence or error line after it, or to the end of the text, whichever comes first.
pub proof fn law_mention_is_cut(
    text: Seq<char>,
    yaml: Seq<Option<(int, int)>>,
    front: Seq<Option<(int, int)>>,
    fenced: Seq<Option<(int, int)>>,
    i: int,
)
    requires
        mentioned_at(encode_utf8(text), i),
    ensures
        exists|end: int|
            cut_at(slice_text(text, i, encode_utf8(text).len() as int), end) && #[trigger] all_parts(
                text,
                yaml,
                front,
                fenced,
            ).contains(
                (i, slice_text(slice_text(text, i, encode_utf8(text).len() as int), 0, end)),
            ),
{
    let all = all_parts(text, yaml, front, fenced);
    let n = blocks(text, yaml, front, fenced).len() as int;
    let at = marks(encode_utf8(text), 0);
    let rest = slice_text(text, i, encode_utf8(text).len() as int);
    lemma_all_parts(text, yaml, front, fenced);
    lemma_marks(encode_utf8(text), 0, i);
    let k = choose|k: int| 0 <= k < at.len() && at[k] == i;
    assert(all[n + k] == part_at(text, at[n + k - n]));
    lemma_cut(rest);
    assert(all.contains((i, slice_text(rest, 0, boundary(rest)))));
}

/// Law: at each mention of `tasks:` at which no block begins, what follows it is a candidate, cut
/// where it has to be cut.
pub proof fn law_mention_taken(output: &str, r: Vec<&str>, i: int)
    requires
        call_ensures(extract_yaml_candidates, (output,), r),
        mentioned_at(encode_utf8(output@), i),
        forall|j: int|
            0 <= j < yaml_blocks(output@).len() ==> (#[trigger] yaml_blocks(output@)[j] matches Some(
                s,
            ) ==> s.0 != i),
        forall|j: int|
            0 <= j < dashed_blocks(output@).len() ==> (#[trigger] dashed_blocks(
                output@,
            )[j] matches Some(s) ==> s.0 != i),
        forall|j: int|
            0 <= j < fenced_blocks(output@).len() ==> (#[trigger] fenced_blocks(
                output@,
            )[j] matches Some(s) ==> s.0 != i),
    ensures
        exists|end: int|
            cut_at(slice_text(output@, i, encode_utf8(output@).len() as int), end)
                && #[trigger] is_candidate(
                r@,
                slice_text(slice_text(output@, i, encode_utf8(output@).len() as int), 0, end),
            ),
{
    let text = output@;
    let yaml = yaml_blocks(text);
    let front = dashed_blocks(text);
    let fenced = fenced_blocks(text);
    let all = all_parts(text, yaml, front, fenced);
    let first = blocks(text, yaml, front, fenced);
    let n = first.len() as int;
    let at = marks(encode_utf8(text), 0);
    let rest = slice_text(text, i, encode_utf8(text).len() as int);
    lemma_all_parts(text, yaml, front, fenced);
    lemma_marks(encode_utf8(text), 0, i);
    let k = choose|k: int| 0 <= k < at.len() && at[k] == i;
    assert(all[n + k] == part_at(text, at[n + k - n]));
    let m = lemma_first_stays(all, n + k);
    if m < n {
        assert(all[m] == first[m]);
        assert(first.contains(first[m]));
        lemma_blocks(text, yaml, front, fenced, all[m]);
        assert(false);
    }
    assert(all[m] == part_at(text, at[m - n]));
    lemma_cut(rest);
    lemma_stays(output, r, m);
    assert(is_candidate(r@, slice_text(rest, 0, boundary(rest))));
}

/// Law: a block marked as YAML, and any other block that mentions `tasks:`, is a candidate, unless
/// one that ends elsewhere begins where it begins.
pub proof fn law_block_taken(output: &str, r: Vec<&str>, a: int, b: int)
    requires
        call_ensures(extract_yaml_candidates, (output,), r),
        yaml_blocks(output@).contains(Some((a, b))) || (contains_text(
            slice_text(output@, a, b),
            "tasks:"@,
        ) && (dashed_blocks(output@).contains(Some((a, b))) || fenced_blocks(output@).contains(
            Some((a, b)),
        ))),
        forall|e: int| #[trigger] yaml_blocks(output@).contains(Some((a, e))) ==> e == b,
        forall|e: int| #[trigger] dashed_blocks(output@).contains(Some((a, e))) ==> e == b,
        forall|e: int| #[trigger] fenced_blocks(output@).contains(Some((a, e))) ==> e == b,
    ensures
        is_candidate(r@, slice_text(output@, a, b)),
{
    let text = output@;
    let yaml = yaml_blocks(text);
    let front = dashed_blocks(text);
    let fenced = fenced_blocks(text);
    let all = all_parts(text, yaml, front, fenced);
    let first = blocks(text, yaml, front, fenced);
    let p = (a, slice_text(text, a, b));
    lemma_all_parts(text, yaml, front, fenced);
    lemma_spans(text, yaml, p, b);
    lemma_spans(text, front, p, b);
    lemma_spans(text, fenced, p, b);
    lemma_blocks(text, yaml, front, fenced, p);
    let k = choose|k: int| 0 <= k < first.len() && first[k] == p;
    assert(all[k] == p);
    let m = lemma_first_stays(all, k);
    assert(all[m] == first[m]);
    assert(first.contains(first[m]));
    lemma_blocks(text, yaml, front, fenced, all[m]);
    lemma_spans(text, yaml, all[m], b);
    lemma_spans(text, front, all[m], b);
    lemma_spans(text, fenced, all[m], b);
    assert(all[m].1 == p.1);
    lemma_stays(output, r, m);
}

/// What a span from the start of a part encloses, where all such spans end at `b`.
proof fn lemma_spans(text: Seq<char>, spans: Seq<Option<(int, int)>>, p: Part, b: int)
    requires
        forall|e: int| #[trigger] spans.contains(Some((p.0, e))) ==> e == b,
    ensures
        enclosed(text, spans, p) ==> p.1 == slice_text(text, p.0, b),
        spans.contains(Some((p.0, b))) && p.1 == slice_text(text, p.0, b) ==> enclosed(
            text,
            spans,
            p,
        ),
{
    if enclosed(text, spans, p) {
        let (j, e) = choose|j: int, e: int|
            0 <= j < spans.len() && #[trigger] spans[j] == Some((p.0, e)) && p.1
                == #[trigger] slice_text(text, p.0, e);
        assert(spans.contains(Some((p.0, e))));
    }
    if spans.contains(Some((p.0, b))) && p.1 == slice_text(text, p.0, b) {
        let j = choose|j: int| 0 <= j < spans.len() && spans[j] == Some((p.0, b));
        assert(spans[j] == Some((p.0, b)));
    }
}

/// Law: the blocks marked as YAML are the first candidates, in the order of the text.
pub proof fn law_yaml_first(output: &str, r: Vec<&str>)
    requires
        call_ensures(extract_yaml_candidates, (output,), r),
        forall|j: int|
            0 <= j < yaml_blocks(output@).len() ==> (#[trigger] yaml_blocks(output@)[j]) is Some,
        forall|j: int, k: int|
            0 <= j < k < yaml_blocks(output@).len() ==> begin_of(#[trigger] yaml_blocks(output@)[j]) != begin_of(
                #[trigger] yaml_blocks(output@)[k],
            ),
    ensures
        r@.len() >= yaml_blocks(output@).len(),
        forall|j: int|
            0 <= j < yaml_blocks(output@).len() ==> (#[trigger] r@[j])@ == slice_text(
                output@,
                begin_of(yaml_blocks(output@)[j]),
                end_of(yaml_blocks(output@)[j]),
            ),
{
    let text = output@;
    let yaml = yaml_blocks(text);
    let all = all_parts(text, yaml, dashed_blocks(text), fenced_blocks(text));
    let n = yaml.len() as int;
    lemma_enclosed(text, yaml);
    let made = parts_of(text, yaml);
    assert forall|k: int| 0 <= k < n implies #[trigger] all[k] == made[k] by {}
    assert forall|i: int, j: int| 0 <= i < j < n implies (#[trigger] all[i]).0 != (
    #[trigger] all[j]).0 by {
        assert(begin_of(yaml[i]) != begin_of(yaml[j]));
    }
    lemma_all_distinct(all, n);
    lemma_distinct_prefix(all, n, all.len() as int);
    let kept = distinct(all, all.len() as int);
    assert(texts_of(r@).len() == kept.len());
    assert forall|j: int| 0 <= j < n implies (#[trigger] r@[j])@ == slice_text(
        text,
        begin_of(yaml[j]),
        end_of(yaml[j]),
    ) by {
        assert(texts_of(r@)[j] == candidate_texts(kept)[j]);
        assert(kept.take(n)[j] == all.take(n)[j]);
    }
}

/// Law: there is always a candidate. Where no block begins the text, and no mention of `tasks:`,
/// the last one is the whole text.
pub proof fn law_whole_text_last(output: &str, r: Vec<&str>)
    requires
        call_ensures(extract_yaml_candidates, (output,), r),
    ensures
        r@.len() > 0,
        ({
            &&& !mentioned_at(encode_utf8(output@), 0)
            &&& forall|e: int| !#[trigger] yaml_blocks(output@).contains(Some((0, e)))
            &&& forall|e: int| !#[trigger] dashed_blocks(output@).contains(Some((0, e)))
            &&& forall|e: int| !#[trigger] fenced_blocks(output@).contains(Some((0, e)))
        }) ==> r@.last()@ == output@,
{
    let text = output@;
    let yaml = yaml_blocks(text);
    let front = dashed_blocks(text);
    let fenced = fenced_blocks(text);
    let all = all_parts(text, yaml, front, fenced);
    let first = blocks(text, yaml, front, fenced);
    let n = all.len() as int;
    lemma_all_parts(text, yaml, front, fenced);
    let m = lemma_first_stays(all, n - 1);
    lemma_stays(output, r, m);
    let kept = distinct(all, n);
    assert(texts_of(r@).len() == kept.len());
    if !mentioned_at(encode_utf8(output@), 0) && (forall|e: int|
        !#[trigger] yaml_blocks(output@).contains(Some((0, e)))) && (forall|e: int|
        !#[trigger] dashed_blocks(output@).contains(Some((0, e)))) && (forall|e: int|
        !#[trigger] fenced_blocks(output@).contains(Some((0, e)))) {
        if m < first.len() {
            assert(all[m] == first[m]);
            assert(first.contains(first[m]));
            lemma_blocks(text, yaml, front, fenced, all[m]);
            lemma_starts(text, yaml, all[m]);
            lemma_starts(text, front, all[m]);
            lemma_starts(text, fenced, all[m]);
            assert(false);
        }
        assert(m == n - 1);
        assert(kept.last() == all[n - 1]);
        assert(texts_of(r@)[r@.len() - 1] == candidate_texts(kept)[kept.len() - 1]);
    }
}

/// A part that one of the spans encloses begins where one of them begins.
proof fn lemma_starts(text: Seq<char>, spans: Seq<Option<(int, int)>>, p: Part)
    ensures
        enclosed(text, spans, p) ==> exists|e: int| #[trigger] spans.contains(Some((p.0, e))),
{
    if enclosed(text, spans, p) {
        let (j, e) = choose|j: int, e: int|
            0 <= j < spans.len() && #[trigger] spans[j] == Some((p.0, e)) && p.1
                == #[trigger] slice_text(text, p.0, e);
        assert(spans.contains(Some((p.0, e))));
    }
}

/// Law: each candidate is a block marked as YAML, another block that mentions `tasks:`, what follows
/// a mention, or the whole text.
pub proof fn law_candidate_from(output: &str, r: Vec<&str>, k: int)
    requires
        call_ensures(extract_yaml_candidates, (output,), r),
        0 <= k < r@.len(),
    ensures
        r@[k]@ == output@ || exists|p: Part|
            p.1 == r@[k]@ && {
                ||| #[trigger] enclosed(output@, yaml_blocks(output@), p)
                ||| enclosed(output@, dashed_blocks(output@), p) && contains_text(p.1, "tasks:"@)
                ||| enclosed(output@, fenced_blocks(output@), p) && contains_text(p.1, "tasks:"@)
                ||| follows_mention(output@, p)
            },
{
    let text = output@;
    let yaml = yaml_blocks(text);
    let front = dashed_blocks(text);
    let fenced = fenced_blocks(text);
    let all = all_parts(text, yaml, front, fenced);
    let first = blocks(text, yaml, front, fenced);
    let n = all.len() as int;
    let kept = distinct(all, n);
    lemma_all_parts(text, yaml, front, fenced);
    lemma_distinct(all, n);
    assert(texts_of(r@).len() == kept.len());
    assert(texts_of(r@)[k] == candidate_texts(kept)[k]);
    let p = kept[k];
    let j = choose|j: int| 0 <= j < n && #[trigger] all[j] == p && !begins_again(all, j);
    if j < first.len() {
        assert(all[j] == first[j]);
        assert(first.contains(first[j]));
        lemma_blocks(text, yaml, front, fenced, p);
        assert(enclosed(text, yaml, p) || enclosed(text, front, p) || enclosed(text, fenced, p));
    } else if j < n - 1 {
        let at = marks(encode_utf8(text), 0);
        assert(all[j] == part_at(text, at[j - first.len()]));
        lemma_part_at(text, at[j - first.len()]);
        assert(follows_mention(text, p));
    }
    assert(enclosed(text, yaml, p) || !enclosed(text, yaml, p));
}

/// Law: no two candidates begin at one offset: each is a part of the text, one for each offset at
/// which a part begins.
pub proof fn law_one_per_offset(parts: Seq<Part>)
    ensures
        forall|j: int, k: int|
            0 <= j < k < distinct(parts, parts.len() as int).len() ==> (#[trigger] distinct(
                parts,
                parts.len() as int,
            )[j]).0 != (#[trigger] distinct(parts, parts.len() as int)[k]).0,
        forall|j: int|
            0 <= j < parts.len() ==> exists|k: int|
                0 <= k < distinct(parts, parts.len() as int).len() && (#[trigger] distinct(
                    parts,
                    parts.len() as int,
                )[k]).0 == (#[trigger] parts[j]).0,
{
    let n = parts.len() as int;
    let kept = distinct(parts, n);
    lemma_distinct(parts, n);
    assert forall|j: int| 0 <= j < n implies exists|k: int|
        0 <= k < kept.len() && (#[trigger] kept[k]).0 == (#[trigger] parts[j]).0 by {
        let m = lemma_first_stays(parts, j);
        assert(kept.contains(parts[m]));
        let k = choose|k: int| 0 <= k < kept.len() && kept[k] == parts[m];
        assert(kept[k].0 == parts[j].0);
    }
}

/// Law: the blocks handed to `assemble_candidates` are those that `extract_yaml_candidates` looks
/// for.
pub proof fn law_candidates_by_blocks(
    output: &str,
    yaml: Vec<Option<(usize, usize)>>,
    front: Vec<Option<(usize, usize)>>,
    fenced: Vec<Option<(usize, usize)>>,
    q: Vec<&str>,
    r: Vec<&str>,
    k: int,
)
    requires
        call_ensures(assemble_candidates, (output, &yaml, &front, &fenced), q),
        span_views(yaml@) == yaml_blocks(output@),
        span_views(front@) == dashed_blocks(output@),
        span_views(fenced@) == fenced_blocks(output@),
        call_ensures(extract_yaml_candidates, (output,), r),
        0 <= k < r@.len(),
    ensures
        q@.len() == r@.len(),
        q@[k]@ == r@[k]@,
{
    assert(texts_of(q@).len() == texts_of(r@).len());
    assert(texts_of(q@)[k] == texts_of(r@)[k]);
}


} // verus!
