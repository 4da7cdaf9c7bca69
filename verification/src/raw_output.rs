//! Raw output of a process, line by line.

use vstd::prelude::*;
use vstd::utf8::*;

use crate::text::decoded;
use crate::text::first_index;
use crate::text::lemma_first_index_unique;
use crate::text::lossy_text;
use crate::text::split_on;

verus! {

/// One line of raw output without its newline.
pub open spec fn without_newline(raw: Seq<u8>) -> Seq<u8> {
    if raw.len() > 0 && raw.last() == 10 {
        raw.drop_last()
    } else {
        raw
    }
}

/// The text of one line of raw output, without its newline.
pub fn line_text(raw: &Vec<u8>) -> (r: String)
    ensures
        r@ == decoded(without_newline(raw@)),
{
    let mut line: Vec<u8> = Vec::new();
    let n: usize = if raw.len() > 0 && raw[raw.len() - 1] == 10 {
        raw.len() - 1
    } else {
        raw.len()
    };
    let mut i: usize = 0;
    while i < n
        invariant
            i <= n <= raw@.len(),
            line@ == raw@.take(i as int),
        decreases n - i,
    {
        line.push(raw[i]);
        i += 1;
        assert(line@ =~= raw@.take(i as int));
    }
    assert(line@ =~= without_newline(raw@));
    lossy_text(&line)
}

/// Law: a line that a process prints is read as it was printed.
pub proof fn law_printed_line(text: Seq<char>)
    ensures
        decoded(without_newline(encode_utf8(text).push(10))) == text,
{
    let raw = encode_utf8(text).push(10);
    assert(raw.drop_last() =~= encode_utf8(text));
    encode_utf8_valid_utf8(text);
    encode_utf8_decode_utf8(text);
}

/// The lines of raw output, each with its newline. The last one may have none.
pub open spec fn raw_lines(out: Seq<u8>) -> Seq<Seq<u8>>
    decreases out.len(),
    via raw_lines_decreases
{
    if out.len() == 0 {
        seq![]
    } else {
        seq![out.take(line_len(out))] + raw_lines(out.skip(line_len(out)))
    }
}

/// The length of the first line of raw output, with its newline.
pub open spec fn line_len(out: Seq<u8>) -> int
    decreases out.len(),
{
    if out.len() == 0 {
        0
    } else if out[0] == 10 {
        1
    } else {
        1 + line_len(out.skip(1))
    }
}

#[via_fn]
proof fn raw_lines_decreases(out: Seq<u8>) {
    lemma_line_len(out);
}

proof fn lemma_line_len(out: Seq<u8>)
    ensures
        0 <= line_len(out) <= out.len(),
        out.len() > 0 ==> line_len(out) > 0,
        forall|i: int| 0 <= i < line_len(out) - 1 ==> out[i] != 10,
        line_len(out) < out.len() ==> out[line_len(out) - 1] == 10,
    decreases out.len(),
{
    if out.len() > 0 && out[0] != 10 {
        let rest = out.skip(1);
        lemma_line_len(rest);
        assert forall|i: int| 0 <= i < line_len(out) - 1 implies out[i] != 10 by {
            if i > 0 {
                assert(rest[i - 1] == out[i]);
            }
        }
        if line_len(out) < out.len() {
            assert(rest[line_len(rest) - 1] == out[line_len(out) - 1]);
        }
    }
}

/// The text of a line of raw output, with a newline.
pub open spec fn logged_line(raw: Seq<u8>) -> Seq<char> {
    decoded(without_newline(raw)).push('\n')
}

/// What is logged of lines of raw output: each decoded, and with a newline.
pub open spec fn logged_text(lines: Seq<Seq<u8>>) -> Seq<char>
    decreases lines.len(),
{
    if lines.len() == 0 {
        seq![]
    } else {
        logged_text(lines.drop_last()) + logged_line(lines.last())
    }
}

/// Raw output with a newline at its end, where there is any output.
pub open spec fn line_ended(out: Seq<u8>) -> Seq<u8> {
    if out.len() > 0 && out.last() != 10 {
        out.push(10)
    } else {
        out
    }
}

proof fn lemma_logged_first(first: Seq<u8>, rest: Seq<Seq<u8>>)
    ensures
        logged_text(seq![first] + rest) == logged_line(first) + logged_text(rest),
    decreases rest.len(),
{
    let all = seq![first] + rest;
    if rest.len() == 0 {
        assert(all.drop_last() =~= Seq::<Seq<u8>>::empty());
        assert(logged_text(all.drop_last()) =~= Seq::<char>::empty());
        assert(logged_text(all) =~= logged_line(first) + logged_text(rest));
    } else {
        assert(all.drop_last() =~= seq![first] + rest.drop_last());
        lemma_logged_first(first, rest.drop_last());
        assert(logged_text(all) =~= logged_line(first) + logged_text(rest));
    }
}

proof fn lemma_newline(rest: Seq<u8>)
    requires
        rest.len() > 0,
        rest[0] == 10,
        valid_utf8(rest),
    ensures
        valid_utf8(rest.skip(1)),
        decode_utf8(rest) == seq!['\n'] + decode_utf8(rest.skip(1)),
{
    assert(pop_first_scalar(rest) =~= rest.skip(1));
    assert(decode_first_scalar(rest) == 10u32) by {
        let b = rest[0];
        assert(b & 0x7f == 10u8) by (bit_vector)
            requires
                b == 10u8,
        ;
    }
    assert(10u32 as char == '\n');
}

proof fn lemma_push_newline(text: Seq<u8>)
    requires
        valid_utf8(text),
    ensures
        valid_utf8(text.push(10)),
        decode_utf8(text.push(10)) == decode_utf8(text).push('\n'),
{
    let nl = seq![10u8];
    let all = text.push(10);
    let n = text.len() as int;
    assert(pop_first_scalar(nl) =~= Seq::<u8>::empty());
    assert(valid_utf8(pop_first_scalar(nl)));
    assert(valid_utf8(nl));
    valid_utf8_concat(text, nl);
    assert(text + nl =~= all);
    is_char_boundary_iff_not_is_continuation_byte(all, n);
    decode_utf8_split(all, n);
    assert(all.subrange(0, n) =~= text);
    assert(all.subrange(n, all.len() as int) =~= nl);
    lemma_newline(nl);
    assert(nl.skip(1) =~= Seq::<u8>::empty());
    assert(decode_utf8(all) =~= decode_utf8(text).push('\n'));
}

proof fn lemma_first_line(out: Seq<u8>)
    requires
        valid_utf8(out),
        0 < line_len(out),
        line_len(out) < out.len() || out.last() == 10,
    ensures
        ({
            let body = without_newline(out.take(line_len(out)));
            let rest = out.skip(line_len(out));
            &&& body.len() == line_len(out) - 1
            &&& valid_utf8(body)
            &&& valid_utf8(rest)
            &&& decode_utf8(out) == decode_utf8(body).push('\n') + decode_utf8(rest)
            &&& forall|i: int| 0 <= i < body.len() ==> body[i] != 10
        }),
{
    lemma_line_len(out);
    let n = line_len(out);
    let first = out.take(n);
    let rest = out.skip(n);
    let body = without_newline(first);
    let m = body.len() as int;
    assert(first.last() == out[n - 1]);
    is_char_boundary_iff_not_is_continuation_byte(out, m);
    valid_utf8_split(out, m);
    decode_utf8_split(out, m);
    assert(out.subrange(0, m) =~= body);
    let tail = out.skip(m);
    assert(out.subrange(m, out.len() as int) =~= tail);
    lemma_newline(tail);
    assert(tail.skip(1) =~= rest);
    assert(decode_utf8(out) =~= decode_utf8(body).push('\n') + decode_utf8(rest));
}

/// Law: of output that is valid UTF-8, what is logged line by line is just that, with a newline at
/// its end.
pub proof fn law_logged_output(out: Seq<u8>)
    requires
        valid_utf8(out),
    ensures
        logged_text(raw_lines(out)) == decoded(line_ended(out)),
    decreases out.len(),
{
    lemma_line_len(out);
    if out.len() > 0 {
        let n = line_len(out);
        let first = out.take(n);
        let rest = out.skip(n);
        lemma_logged_first(first, raw_lines(rest));
        if n < out.len() || out.last() == 10 {
            lemma_first_line(out);
            law_logged_output(rest);
            if rest.len() > 0 {
                assert(rest.last() == out.last());
                lemma_push_newline(rest);
                lemma_push_newline(out);
                assert(decode_utf8(out.push(10)) =~= logged_line(first) + decode_utf8(
                    rest.push(10),
                ));
            }
        } else {
            assert(first =~= out);
            assert(rest =~= Seq::<u8>::empty());
            assert(without_newline(first) =~= out);
            lemma_push_newline(out);
            assert(logged_text(raw_lines(rest)) =~= Seq::<char>::empty());
            assert(logged_line(first) + Seq::<char>::empty() =~= logged_line(first));
        }
    }
}

/// The texts of lines of raw output, without their newlines.
pub open spec fn line_texts(lines: Seq<Seq<u8>>) -> Seq<Seq<char>> {
    Seq::new(lines.len(), |i: int| decoded(without_newline(lines[i])))
}

proof fn lemma_no_newline(text: Seq<u8>)
    requires
        valid_utf8(text),
        forall|i: int| 0 <= i < text.len() ==> text[i] != 10,
    ensures
        forall|i: int| 0 <= i < decode_utf8(text).len() ==> decode_utf8(text)[i] != '\n',
    decreases text.len(),
{
    if text.len() > 0 {
        let rest = pop_first_scalar(text);
        assert forall|i: int| 0 <= i < rest.len() implies rest[i] != 10 by {
            assert(rest[i] == text[i + length_of_first_scalar(text)]);
        }
        lemma_no_newline(rest);
        let first = decode_first_scalar(text) as char;
        let all = decode_utf8(text);
        assert(all =~= seq![first] + decode_utf8(rest));
        assert(first != '\n') by {
            decode_utf8_first_scalar(text);
            assert(encode_scalar(10u32) =~= seq![10u8]) by {
                assert((10u32 & 0x7f) as u8 == 10u8) by (bit_vector);
            }
            assert(take_first_scalar(text)[0] == text[0]);
        }
        assert forall|i: int| 0 <= i < all.len() implies all[i] != '\n' by {
            if i > 0 {
                assert(all[i] == decode_utf8(rest)[i - 1]);
            }
        }
    }
}

/// Law: the lines of output that is valid UTF-8 are the pieces of its text between newlines. The
/// empty piece after a newline at its end is no line.
pub proof fn law_lines_of_text(out: Seq<u8>)
    requires
        valid_utf8(out),
    ensures
        split_on(decode_utf8(out), '\n') == (if out.len() == 0 || out.last() == 10 {
            line_texts(raw_lines(out)).push(seq![])
        } else {
            line_texts(raw_lines(out))
        }),
    decreases out.len(),
{
    lemma_line_len(out);
    let text = decode_utf8(out);
    if out.len() == 0 {
        assert(first_index(text, '\n') == 0);
        assert(split_on(text, '\n') =~= line_texts(raw_lines(out)).push(seq![]));
    } else {
        let n = line_len(out);
        let first = out.take(n);
        let rest = out.skip(n);
        let body = without_newline(first);
        if n < out.len() || out.last() == 10 {
            lemma_first_line(out);
            law_lines_of_text(rest);
            lemma_no_newline(body);
            let head = decode_utf8(body);
            assert(text =~= head.push('\n') + decode_utf8(rest));
            lemma_first_index_unique(text, '\n', head.len() as int);
            assert(text.take(head.len() as int) =~= head);
            assert(text.skip(head.len() as int + 1) =~= decode_utf8(rest));
            assert(line_texts(raw_lines(out)) =~= seq![head] + line_texts(raw_lines(rest)));
            if rest.len() > 0 {
                assert(rest.last() == out.last());
            }
            assert(split_on(text, '\n') =~= (if out.last() == 10 {
                line_texts(raw_lines(out)).push(seq![])
            } else {
                line_texts(raw_lines(out))
            }));
        } else {
            assert(first =~= out);
            assert(rest =~= Seq::<u8>::empty());
            assert(body =~= out);
            lemma_no_newline(out);
            lemma_first_index_unique(text, '\n', text.len() as int);
            assert(raw_lines(rest) =~= Seq::<Seq<u8>>::empty());
            assert(raw_lines(out) =~= seq![out]);
            assert(line_texts(raw_lines(out)) =~= seq![text]);
        }
    }
}

/// Lines one after another.
pub open spec fn all_bytes(lines: Seq<Seq<u8>>) -> Seq<u8>
    decreases lines.len(),
{
    if lines.len() == 0 {
        seq![]
    } else {
        lines[0] + all_bytes(lines.skip(1))
    }
}

/// Law: the lines of output are all of it, in order. None is empty, each ends at its only newline, and
/// only the last may have none.
pub proof fn law_raw_lines(out: Seq<u8>)
    ensures
        all_bytes(raw_lines(out)) == out,
        forall|i: int| 0 <= i < raw_lines(out).len() ==> (#[trigger] raw_lines(out)[i]).len() > 0,
        forall|i: int|
            0 <= i < raw_lines(out).len() - 1 ==> (#[trigger] raw_lines(out)[i]).last() == 10,
        forall|i: int, k: int|
            0 <= i < raw_lines(out).len() && 0 <= k < raw_lines(out)[i].len() - 1
                ==> #[trigger] raw_lines(out)[i][k] != 10,
    decreases out.len(),
{
    if out.len() > 0 {
        lemma_line_len(out);
        let n = line_len(out);
        let first = out.take(n);
        let rest = out.skip(n);
        let more = raw_lines(rest);
        let all = seq![first] + more;
        law_raw_lines(rest);
        assert(raw_lines(out) == all);
        assert(all.skip(1) =~= more);
        assert(all_bytes(all) =~= out);
        assert forall|i: int| 0 <= i < all.len() implies (#[trigger] all[i]).len() > 0 by {
            if i > 0 {
                assert(all[i] == more[i - 1]);
            }
        }
        assert forall|i: int| 0 <= i < all.len() - 1 implies (#[trigger] all[i]).last() == 10 by {
            if i > 0 {
                assert(all[i] == more[i - 1]);
            } else {
                assert(more.len() > 0);
                assert(n < out.len());
                assert(first.last() == out[n - 1]);
            }
        }
        assert forall|i: int, k: int|
            0 <= i < all.len() && 0 <= k < all[i].len() - 1 implies #[trigger] all[i][k] != 10 by {
            if i > 0 {
                assert(all[i] == more[i - 1]);
                assert(more[i - 1][k] != 10);
            } else {
                assert(first[k] == out[k]);
            }
        }
    } else {
        assert(all_bytes(raw_lines(out)) =~= out);
    }
}

/// Law: a line is read as it was printed, with a newline at its end or without one.
pub proof fn law_line_read(text: Seq<char>, raw: Vec<u8>, r: String)
    requires
        call_ensures(line_text, (&raw,), r),
        raw@ == encode_utf8(text).push(10) || (raw@ == encode_utf8(text) && raw@.len() > 0
            && raw@.last() != 10),
    ensures
        r@ == text,
{
    law_printed_line(text);
    if raw@ != encode_utf8(text).push(10) {
        encode_utf8_valid_utf8(text);
        encode_utf8_decode_utf8(text);
    }
}

} // verus!
