//! The YAML front-matter of a markdown file.

use vstd::prelude::*;
use vstd::string::*;

use crate::error::TaskError;
use crate::text::chars_of;
use crate::text::find_char;
use crate::text::first_index;
use crate::text::join;
use crate::text::joined;
use crate::text::law_lines;
use crate::text::lemma_first_index;
use crate::text::lemma_first_index_unique;
use crate::text::lines;
use crate::text::lines_of;
use crate::text::occurs_at;
use crate::text::same_text;
use crate::text::skip_white;
use crate::text::starts_with;
use crate::text::text_at;
use crate::text::text_of;
use crate::text::trim;
use crate::text::trim_start;
use crate::text::trimmed;
use crate::text::views;

verus! {

/// Whether the first line of `s` is `---`, but for carriage returns at its end.
pub open spec fn fence(s: Seq<char>) -> bool {
    &&& starts_with(s, "---"@)
    &&& forall|j: int| 3 <= j < first_index(s, '\n') ==> s[j] == '\r'
}

/// Whether `s` begins with a complete fence line.
pub open spec fn opens(s: Seq<char>) -> bool {
    fence(s) && first_index(s, '\n') < s.len()
}

/// What follows the first line of `s`.
pub open spec fn after_first_line(s: Seq<char>) -> Seq<char> {
    s.skip(first_index(s, '\n') + 1)
}

/// Whether a line of `s` that begins at position `p` is a fence.
pub open spec fn fence_at(s: Seq<char>, p: int) -> bool {
    &&& 0 <= p < s.len()
    &&& p == 0 || s[p - 1] == '\n'
    &&& fence(s.skip(p))
}

/// Whether the first fence line of `s` begins at position `p`.
pub open spec fn first_fence_at(s: Seq<char>, p: int) -> bool {
    &&& fence_at(s, p)
    &&& forall|q: int| 0 <= q < p ==> !fence_at(s, q)
}

/// Tells whether the line of `v` that begins at `from` and ends before `end` is a fence.
fn is_fence(v: &Vec<char>, from: usize, end: usize) -> (r: bool)
    requires
        from <= end <= v@.len(),
        end == from + first_index(v@.skip(from as int), '\n'),
    ensures
        r == fence(v@.skip(from as int)),
{
    let dashes = chars_of("---");
    let ghost s = v@.skip(from as int);
    proof {
        reveal_strlit("---");
        assert(occurs_at(v@, "---"@, from as int) <==> starts_with(s, "---"@)) by {
            if from + 3 <= v@.len() {
                assert(s.take(3) =~= v@.subrange(from as int, from + 3));
            }
        }
        lemma_first_index(s, '\n');
    }
    if !text_at(v, from, &dashes) {
        return false;
    }
    proof {
        assert(s.take(3) == "---"@);
        assert(s[0] == s.take(3)[0] && s[1] == s.take(3)[1] && s[2] == s.take(3)[2]);
        if end < from + 3 {
            assert(s[end - from] == '\n');
        }
    }
    let mut i: usize = from + 3;
    while i < end
        invariant
            from + 3 <= i <= end <= v@.len(),
            s == v@.skip(from as int),
            end == from + first_index(s, '\n'),
            forall|j: int| 3 <= j < i - from ==> s[j] == '\r',
        decreases end - i,
    {
        if v[i] != '\r' {
            assert(s[i - from] != '\r');
            return false;
        }
        i += 1;
    }
    true
}

/// Takes the YAML text out of a document that begins with `---`, the YAML text and `---`, each
/// fence on a line of its own.
pub fn extract_yaml_front_matter(input: &str) -> (r: Result<&str, TaskError>)
    ensures
        ({
            let t = trim_start(input@);
            let rest = after_first_line(t);
            match r {
                Ok(yaml) => opens(t) && exists|p: int| #[trigger]
                    first_fence_at(rest, p) && yaml@ == rest.take(p),
                Err(TaskError::InvalidTaskFile(m)) => {
                    if !starts_with(t, "---"@) {
                        m@ == "missing YAML front-matter '---' header"@
                    } else if !opens(t) {
                        m@ == "malformed YAML front-matter"@
                    } else {
                        &&& m@ == "missing closing '---' for YAML front-matter"@
                        &&& forall|p: int| !fence_at(rest, p)
                    }
                },
                Err(_) => false,
            }
        }),
{
    let v = chars_of(input);
    let start: usize = skip_white(&v, 0, v.len());
    let ghost t = trim_start(input@);
    proof {
        assert(v@.subrange(0, v@.len() as int) =~= v@);
        assert(v@.subrange(start as int, v@.len() as int) =~= v@.skip(start as int));
        assert(t == v@.skip(start as int));
    }
    let dashes = chars_of("---");
    proof {
        reveal_strlit("---");
        assert(occurs_at(v@, "---"@, start as int) <==> starts_with(t, "---"@)) by {
            if start + 3 <= v@.len() {
                assert(t.take(3) =~= v@.subrange(start as int, start + 3));
            }
        }
    }
    if !text_at(&v, start, &dashes) {
        return Err(
            TaskError::InvalidTaskFile("missing YAML front-matter '---' header".to_owned()),
        );
    }
    let first_nl: usize = find_char(&v, start, '\n');
    if first_nl == v.len() || !is_fence(&v, start, first_nl) {
        return Err(TaskError::InvalidTaskFile("malformed YAML front-matter".to_owned()));
    }
    let yaml_start: usize = first_nl + 1;
    let ghost rest = after_first_line(t);
    proof {
        assert(rest =~= v@.skip(yaml_start as int));
    }
    let mut pos: usize = yaml_start;
    while pos < v.len()
        invariant
            v@ == input@,
            t == trim_start(input@),
            opens(t),
            rest == after_first_line(t),
            rest == v@.skip(yaml_start as int),
            yaml_start <= pos <= v@.len(),
            pos == yaml_start || v@[pos - 1] == '\n',
            forall|q: int| 0 <= q < pos - yaml_start ==> !fence_at(rest, q),
        ensures
            forall|q: int| 0 <= q < rest.len() ==> !fence_at(rest, q),
        decreases v@.len() - pos,
    {
        let end: usize = find_char(&v, pos, '\n');
        let ghost p = pos - yaml_start;
        proof {
            assert(rest.skip(p) =~= v@.skip(pos as int));
        }
        if is_fence(&v, pos, end) {
            proof {
                assert(first_fence_at(rest, p));
                assert(rest.take(p) =~= v@.subrange(yaml_start as int, pos as int));
            }
            return Ok(input.substring_char(yaml_start, pos));
        }
        proof {
            assert forall|q: int| 0 <= q < end + 1 - yaml_start && q < rest.len() implies !fence_at(
                rest,
                q,
            ) by {
                if q > p {
                    assert(rest[q - 1] == v@[yaml_start + q - 1]);
                }
            }
        }
        if end == v.len() {
            break;
        }
        pos = end + 1;
    }
    Err(TaskError::InvalidTaskFile("missing closing '---' for YAML front-matter".to_owned()))
}

/// The lines that follow the first one that is `---` but for whitespace around it.
pub open spec fn after_fence(ls: Seq<Seq<char>>) -> Seq<Seq<char>>
    decreases ls.len(),
{
    if ls.len() == 0 {
        ls
    } else if trim(ls[0]) == "---"@ {
        ls.skip(1)
    } else {
        after_fence(ls.skip(1))
    }
}

/// The body of a document: the lines after its front-matter. A document whose first line is not
/// `---` has none.
pub open spec fn body_of(document: Seq<char>) -> Seq<char> {
    let ls = lines(trim_start(document));
    if ls.len() == 0 || ls[0] != "---"@ {
        seq![]
    } else {
        join(after_fence(ls.skip(1)), "\n"@)
    }
}

/// Takes the body out of a document with front-matter.
pub fn task_body(raw: &str) -> (r: String)
    ensures
        r@ == body_of(raw@),
{
    let v = chars_of(raw);
    let start: usize = skip_white(&v, 0, v.len());
    proof {
        assert(v@.subrange(0, v@.len() as int) =~= v@);
    }
    let content = text_of(&v, start, v.len());
    let ls = lines_of(content.as_str());
    if ls.len() == 0 || !same_text(ls[0].as_str(), "---") {
        return String::new();
    }
    let mut i: usize = 1;
    proof {
        assert(views(ls@)[0] == ls@[0]@);
    }
    while i < ls.len() && !same_text(trimmed(ls[i].as_str()).as_str(), "---")
        invariant
            1 <= i <= ls@.len(),
            after_fence(views(ls@).skip(1)) == after_fence(views(ls@).skip(i as int)),
        decreases ls@.len() - i,
    {
        proof {
            let s = views(ls@).skip(i as int);
            assert(s[0] == ls@[i as int]@);
            assert(s.skip(1) =~= views(ls@).skip(i + 1));
        }
        i += 1;
    }
    let mut body: Vec<String> = Vec::new();
    let mut j: usize = if i < ls.len() {
        i + 1
    } else {
        i
    };
    let ghost from = j as int;
    proof {
        let s = views(ls@).skip(i as int);
        if i < ls@.len() {
            assert(s[0] == ls@[i as int]@);
            assert(s.skip(1) =~= views(ls@).skip(i + 1));
        }
        assert(after_fence(views(ls@).skip(1)) == views(ls@).skip(from));
    }
    while j < ls.len()
        invariant
            0 <= from <= j <= ls@.len(),
            body@.len() == j - from,
            forall|k: int| 0 <= k < body@.len() ==> (#[trigger] body@[k])@ == ls@[from + k]@,
        decreases ls@.len() - j,
    {
        body.push(ls[j].clone());
        j += 1;
    }
    proof {
        assert(views(body@) =~= views(ls@).skip(from));
    }
    joined(&body, "\n")
}

/// Law: what stands between the two fences of a document is what `extract_yaml_front_matter` takes
/// out of it, whatever follows, as long as no line of it is a fence itself.
pub proof fn law_front_matter(yaml: Seq<char>, body: Seq<char>)
    requires
        forall|q: int| !fence_at(yaml.push('\n'), q),
    ensures
        ({
            let document = "---\n"@ + yaml.push('\n') + "---\n"@ + body;
            let t = trim_start(document);
            &&& opens(t)
            &&& first_fence_at(after_first_line(t), yaml.len() as int + 1)
            &&& after_first_line(t).take(yaml.len() as int + 1) == yaml.push('\n')
        }),
{
    reveal_strlit("---\n");
    reveal_strlit("---");
    let inner = yaml.push('\n');
    let document = "---\n"@ + inner + "---\n"@ + body;
    assert(document[0] == '-');
    let t = trim_start(document);
    assert(t == document);
    lemma_first_index_unique(t, '\n', 3);
    assert(t.take(3) =~= "---"@);
    assert(opens(t));
    let rest = after_first_line(t);
    assert(rest =~= inner + "---\n"@ + body);
    let p = yaml.len() as int + 1;
    let tail = rest.skip(p);
    assert(tail =~= "---\n"@ + body);
    lemma_first_index_unique(tail, '\n', 3);
    assert(tail.take(3) =~= "---"@);
    assert(rest[p - 1] == '\n');
    assert(fence_at(rest, p));
    assert forall|q: int| 0 <= q < p implies !fence_at(rest, q) by {
        let a = rest.skip(q);
        let b = inner.skip(q);
        lemma_first_index(b, '\n');
        assert(b[yaml.len() - q] == '\n');
        let i = first_index(b, '\n');
        assert(forall|j: int| 0 <= j < b.len() ==> a[j] == b[j]);
        lemma_first_index_unique(a, '\n', i);
        if fence_at(rest, q) {
            assert(a.take(3) == "---"@);
            assert(a[0] == a.take(3)[0] && a[1] == a.take(3)[1] && a[2] == a.take(3)[2]);
            assert(i >= 3);
            assert(b.take(3) =~= "---"@);
            assert(q == 0 || inner[q - 1] == rest[q - 1]);
            assert(fence_at(inner, q));
        }
    }
    assert(rest.take(p) =~= inner);
}

/// Lines, each with its newline.
pub open spec fn with_newlines(ls: Seq<Seq<char>>) -> Seq<char>
    decreases ls.len(),
{
    if ls.len() == 0 {
        seq![]
    } else {
        ls[0] + seq!['\n'] + with_newlines(ls.skip(1))
    }
}

/// Law: a fence is three dashes and carriage returns up to the end of the line, and nothing else is.
pub proof fn law_fence(s: Seq<char>)
    ensures
        fence(s) <==> {
            &&& s.len() >= 3
            &&& s[0] == '-' && s[1] == '-' && s[2] == '-'
            &&& forall|j: int| 3 <= j < s.len() && s[j] != '\r' ==> exists|k: int|
                3 <= k <= j && #[trigger] s[k] == '\n'
        },
{
    reveal_strlit("---");
    lemma_first_index(s, '\n');
    let i = first_index(s, '\n');
    if s.len() >= 3 {
        assert(s.take(3) == "---"@ <==> s[0] == '-' && s[1] == '-' && s[2] == '-') by {
            if s.take(3) == "---"@ {
                assert(s.take(3)[0] == '-' && s.take(3)[1] == '-' && s.take(3)[2] == '-');
            }
            if s[0] == '-' && s[1] == '-' && s[2] == '-' {
                assert(s.take(3) =~= "---"@);
            }
        }
        if s[0] == '-' && s[1] == '-' && s[2] == '-' {
            if i < s.len() {
                assert(s[i] == '\n');
                assert(i >= 3);
            }
            if fence(s) {
                assert forall|j: int| 3 <= j < s.len() && s[j] != '\r' implies exists|k: int|
                    3 <= k <= j && #[trigger] s[k] == '\n' by {
                    assert(j >= i);
                    assert(s[i] == '\n');
                }
            }
            if forall|j: int| 3 <= j < s.len() && s[j] != '\r' ==> exists|k: int|
                3 <= k <= j && #[trigger] s[k] == '\n' {
                assert forall|j: int| 3 <= j < i implies s[j] == '\r' by {
                    if s[j] != '\r' {
                        let k = choose|k: int| 3 <= k <= j && #[trigger] s[k] == '\n';
                        assert(s[k] != '\n');
                    }
                }
            }
        }
    }
}

/// Law: the YAML text between two lines of three dashes is taken out of a document as it is, whatever
/// follows, where none of its lines begins with three dashes.
pub proof fn law_yaml_taken_out(
    yaml: Seq<char>,
    body: Seq<char>,
    input: &str,
    r: Result<&str, TaskError>,
)
    requires
        call_ensures(extract_yaml_front_matter, (input,), r),
        input@ == seq!['-', '-', '-', '\n'] + yaml + seq!['\n', '-', '-', '-', '\n'] + body,
        forall|q: int|
            0 <= q && q + 3 <= yaml.len() && (q == 0 || yaml[q - 1] == '\n') ==> !(
            #[trigger] yaml[q] == '-' && yaml[q + 1] == '-' && yaml[q + 2] == '-'),
    ensures
        r is Ok,
        r->Ok_0@ == yaml + seq!['\n'],
{
    reveal_strlit("---\n");
    reveal_strlit("---");
    let inner = yaml.push('\n');
    assert forall|q: int| !fence_at(inner, q) by {
        if fence_at(inner, q) {
            let s = inner.skip(q);
            law_fence(s);
            assert(s[0] == inner[q] && s[1] == inner[q + 1] && s[2] == inner[q + 2]);
            assert(q + 3 <= yaml.len());
            assert(yaml[q] == '-');
        }
    }
    law_front_matter(yaml, body);
    let document = "---\n"@ + inner + "---\n"@ + body;
    assert(document =~= input@);
    let t = trim_start(input@);
    let rest = after_first_line(t);
    let p = yaml.len() as int + 1;
    assert(rest.take(p) =~= yaml + seq!['\n']);
    match r {
        Ok(y) => {
            let k = choose|k: int| #[trigger] first_fence_at(rest, k) && y@ == rest.take(k);
            if k < p {
                assert(!fence_at(rest, k));
            } else if p < k {
                assert(!fence_at(rest, p));
            }
        },
        Err(TaskError::InvalidTaskFile(m)) => {
            assert(!fence_at(rest, p));
        },
        Err(_) => {},
    }
}

/// Law: a document whose text does not begin with three dashes has no front-matter.
pub proof fn law_no_front_matter(input: &str, r: Result<&str, TaskError>)
    requires
        call_ensures(extract_yaml_front_matter, (input,), r),
        ({
            let t = trim_start(input@);
            !(t.len() >= 3 && t[0] == '-' && t[1] == '-' && t[2] == '-')
        }),
    ensures
        r matches Err(TaskError::InvalidTaskFile(m)) && m@
            == "missing YAML front-matter '---' header"@,
{
    reveal_strlit("---");
    let t = trim_start(input@);
    if starts_with(t, "---"@) {
        assert(t.take(3)[0] == '-' && t.take(3)[1] == '-' && t.take(3)[2] == '-');
    }
}

/// The lines of lines with newlines.
proof fn lemma_lines_of(ls: Seq<Seq<char>>, rest: Seq<char>)
    requires
        forall|i: int|
            0 <= i < ls.len() ==> !(#[trigger] ls[i]).contains('\n') && !(ls[i].len() > 0
                && ls[i].last() == '\r'),
    ensures
        lines(with_newlines(ls) + rest) == ls + lines(rest),
    decreases ls.len(),
{
    if ls.len() == 0 {
        assert(with_newlines(ls) + rest =~= rest);
        assert(ls + lines(rest) =~= lines(rest));
    } else {
        let t = ls.skip(1);
        assert forall|i: int| 0 <= i < t.len() implies !(#[trigger] t[i]).contains('\n') && !(
        t[i].len() > 0 && t[i].last() == '\r') by {
            assert(t[i] == ls[i + 1]);
        }
        assert(!ls[0].contains('\n'));
        lemma_lines_of(t, rest);
        let more = with_newlines(t) + rest;
        law_lines(ls[0], more);
        assert(with_newlines(ls) + rest =~= ls[0] + seq!['\n'] + more);
        assert(lines(with_newlines(ls) + rest) =~= ls + lines(rest));
    }
}

/// The lines after the first that is a fence.
proof fn lemma_after_fence(ls: Seq<Seq<char>>, fence: Seq<char>, rest: Seq<Seq<char>>)
    requires
        forall|i: int| 0 <= i < ls.len() ==> trim(#[trigger] ls[i]) != "---"@,
        trim(fence) == "---"@,
    ensures
        after_fence(ls + seq![fence] + rest) == rest,
    decreases ls.len(),
{
    let all = ls + seq![fence] + rest;
    if ls.len() == 0 {
        assert(all[0] == fence);
        assert(all.skip(1) =~= rest);
    } else {
        let t = ls.skip(1);
        assert forall|i: int| 0 <= i < t.len() implies trim(#[trigger] t[i]) != "---"@ by {
            assert(t[i] == ls[i + 1]);
        }
        lemma_after_fence(t, fence, rest);
        assert(all[0] == ls[0]);
        assert(all.skip(1) =~= t + seq![fence] + rest);
    }
}

/// Law: the body of a document are the lines after its front-matter, as they are.
pub proof fn law_body_comes_back(yaml: Seq<Seq<char>>, body: Seq<char>, raw: &str, r: String)
    requires
        call_ensures(task_body, (raw,), r),
        forall|i: int|
            0 <= i < yaml.len() ==> !(#[trigger] yaml[i]).contains('\n') && !(yaml[i].len() > 0
                && yaml[i].last() == '\r') && trim(yaml[i]) != seq!['-', '-', '-'],
        raw@ == seq!['-', '-', '-', '\n'] + with_newlines(yaml) + seq!['-', '-', '-', '\n'] + body,
    ensures
        r@ == join(lines(body), seq!['\n']),
{
    reveal_strlit("---");
    reveal_strlit("\n");
    let dashes = seq!['-', '-', '-'];
    assert("---"@ =~= dashes);
    assert("\n"@ =~= seq!['\n']);
    assert(raw@[0] == '-');
    assert(trim_start(raw@) == raw@);
    let all = seq![dashes] + yaml + seq![dashes];
    assert forall|i: int| 0 <= i < all.len() implies !(#[trigger] all[i]).contains('\n') && !(
    all[i].len() > 0 && all[i].last() == '\r') by {
        if 0 < i <= yaml.len() {
            assert(all[i] == yaml[i - 1]);
        } else {
            assert(all[i] == dashes);
        }
    }
    lemma_newlines(seq![dashes] + yaml, seq![dashes]);
    lemma_newlines(seq![dashes], yaml);
    lemma_one_line(dashes);
    assert(with_newlines(all) + body =~= raw@);
    lemma_lines_of(all, body);
    let ls = lines(raw@);
    assert(ls == all + lines(body));
    assert(ls[0] == dashes);
    assert(ls.skip(1) =~= yaml + seq![dashes] + lines(body));
    assert(trim(dashes) == dashes);
    lemma_after_fence(yaml, dashes, lines(body));
}

/// A line with its newline.
proof fn lemma_one_line(l: Seq<char>)
    ensures
        with_newlines(seq![l]) == l + seq!['\n'],
{
    let one = seq![l];
    assert(one.len() == 1 && one[0] == l);
    assert(with_newlines(one.skip(1)) =~= seq![]);
    assert(with_newlines(one) =~= l + seq!['\n']);
}

/// Lines after lines.
proof fn lemma_newlines(a: Seq<Seq<char>>, b: Seq<Seq<char>>)
    ensures
        with_newlines(a + b) == with_newlines(a) + with_newlines(b),
    decreases a.len(),
{
    if a.len() == 0 {
        assert(a + b =~= b);
        assert(with_newlines(a) + with_newlines(b) =~= with_newlines(b));
    } else {
        lemma_newlines(a.skip(1), b);
        assert((a + b).skip(1) =~= a.skip(1) + b);
        assert(with_newlines(a + b) =~= with_newlines(a) + with_newlines(b));
    }
}

/// Law: a document whose first line is not three dashes has no body, whatever it holds.
pub proof fn law_no_body(raw: &str, r: String)
    requires
        call_ensures(task_body, (raw,), r),
        lines(trim_start(raw@)).len() == 0 || lines(trim_start(raw@))[0] != seq!['-', '-', '-'],
    ensures
        r@.len() == 0,
{
    reveal_strlit("---");
    assert("---"@ =~= seq!['-', '-', '-']);
}

/// Law: a document that ends before its front-matter is closed has no body.
pub proof fn law_unclosed(yaml: Seq<Seq<char>>, raw: &str, r: String)
    requires
        call_ensures(task_body, (raw,), r),
        forall|i: int|
            0 <= i < yaml.len() ==> !(#[trigger] yaml[i]).contains('\n') && !(yaml[i].len() > 0
                && yaml[i].last() == '\r') && trim(yaml[i]) != seq!['-', '-', '-'],
        raw@ == seq!['-', '-', '-', '\n'] + with_newlines(yaml),
    ensures
        r@.len() == 0,
{
    reveal_strlit("---");
    let dashes = seq!['-', '-', '-'];
    assert("---"@ =~= dashes);
    assert(raw@[0] == '-');
    assert(trim_start(raw@) == raw@);
    let all = seq![dashes] + yaml;
    assert forall|i: int| 0 <= i < all.len() implies !(#[trigger] all[i]).contains('\n') && !(
    all[i].len() > 0 && all[i].last() == '\r') by {
        if i > 0 {
            assert(all[i] == yaml[i - 1]);
        } else {
            assert(all[i] == dashes);
        }
    }
    lemma_newlines(seq![dashes], yaml);
    lemma_one_line(dashes);
    let none = Seq::<char>::empty();
    assert(with_newlines(all) + none =~= raw@);
    lemma_lines_of(all, none);
    assert(lines(none) =~= Seq::<Seq<char>>::empty());
    assert(lines(raw@) =~= all);
    assert(all.skip(1) =~= yaml);
    lemma_no_fence(yaml);
}

/// Where no line is a fence nothing follows one.
proof fn lemma_no_fence(ls: Seq<Seq<char>>)
    requires
        forall|i: int| 0 <= i < ls.len() ==> trim(#[trigger] ls[i]) != "---"@,
    ensures
        after_fence(ls).len() == 0,
    decreases ls.len(),
{
    if ls.len() > 0 {
        let t = ls.skip(1);
        assert forall|i: int| 0 <= i < t.len() implies trim(#[trigger] t[i]) != "---"@ by {
            assert(t[i] == ls[i + 1]);
        }
        lemma_no_fence(t);
    }
}

} // verus!
