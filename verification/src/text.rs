//! Text primitives: whitespace trimming, line splitting, joining, ordering and number formatting.
//!
//! A text is modelled by the sequence of its characters, `Seq<char>`, which is the view of both
//! `str` and `String`.

use vstd::prelude::*;
use vstd::string::*;
use vstd::utf8::*;

use crate::order::rank;
use crate::order::Rank;

verus! {

/// Trusted: `String::push` appends the given character to the end of the string.
pub assume_specification[ String::push ](s: &mut String, ch: char)
    ensures
        final(s)@ == old(s)@.push(ch),
;

/// Trusted: `String::pop` removes the last character and returns it, or returns `None` and leaves
/// the string empty if there is none.
pub assume_specification[ String::pop ](s: &mut String) -> (r: Option<char>)
    ensures
        old(s)@.len() == 0 ==> r is None && final(s)@ == old(s)@,
        old(s)@.len() > 0 ==> r == Some(old(s)@.last()) && final(s)@ == old(s)@.drop_last(),
;

/// The element-wise view of a sequence.
pub open spec fn views<T: View>(s: Seq<T>) -> Seq<T::V> {
    Seq::new(s.len(), |i: int| s[i]@)
}

/// The view of what an option holds.
pub open spec fn opt_view<T: View>(o: Option<T>) -> Option<T::V> {
    match o {
        Some(t) => Some(t@),
        None => None,
    }
}

/// Appending one element appends its view.
pub broadcast proof fn lemma_views_push<T: View>(s: Seq<T>, t: T)
    ensures
        #[trigger] views(s.push(t)) == views(s).push(t@),
{
    assert(views(s.push(t)) =~= views(s).push(t@));
}

/// Whether `c` has the Unicode property `White_Space`.
pub open spec fn is_white(c: char) -> bool {
    ||| '\u{9}' <= c <= '\u{d}'
    ||| c == '\u{20}'
    ||| c == '\u{85}'
    ||| c == '\u{a0}'
    ||| c == '\u{1680}'
    ||| '\u{2000}' <= c <= '\u{200a}'
    ||| c == '\u{2028}'
    ||| c == '\u{2029}'
    ||| c == '\u{202f}'
    ||| c == '\u{205f}'
    ||| c == '\u{3000}'
}

/// Tests for the Unicode property `White_Space`.
pub fn white(c: char) -> (r: bool)
    ensures
        r == is_white(c),
{
    ('\u{9}' <= c && c <= '\u{d}') || c == '\u{20}' || c == '\u{85}' || c == '\u{a0}' || c
        == '\u{1680}' || ('\u{2000}' <= c && c <= '\u{200a}') || c == '\u{2028}' || c == '\u{2029}'
        || c == '\u{202f}' || c == '\u{205f}' || c == '\u{3000}'
}

/// `s` without its leading whitespace.
pub open spec fn trim_start(s: Seq<char>) -> Seq<char>
    decreases s.len(),
{
    if s.len() > 0 && is_white(s[0]) {
        trim_start(s.drop_first())
    } else {
        s
    }
}

/// `s` without its trailing whitespace.
pub open spec fn trim_end(s: Seq<char>) -> Seq<char>
    decreases s.len(),
{
    if s.len() > 0 && is_white(s.last()) {
        trim_end(s.drop_last())
    } else {
        s
    }
}

/// `s` without its leading and trailing whitespace.
pub open spec fn trim(s: Seq<char>) -> Seq<char> {
    trim_end(trim_start(s))
}

/// Whether `s` begins with `p`.
pub open spec fn starts_with(s: Seq<char>, p: Seq<char>) -> bool {
    p.len() <= s.len() && s.take(p.len() as int) == p
}

/// Whether `p` occurs in `s` at position `i`.
pub open spec fn occurs_at(s: Seq<char>, p: Seq<char>, i: int) -> bool {
    0 <= i && i + p.len() <= s.len() && s.subrange(i, i + p.len()) == p
}

/// Whether `p` occurs anywhere in `s`.
pub open spec fn contains_text(s: Seq<char>, p: Seq<char>) -> bool {
    exists|i: int| occurs_at(s, p, i)
}

/// The position of the first `c` in `s`, or the length of `s` if there is none.
pub open spec fn first_index(s: Seq<char>, c: char) -> int
    decreases s.len(),
{
    if s.len() == 0 || s[0] == c {
        0
    } else {
        1 + first_index(s.drop_first(), c)
    }
}

/// The pieces of `s` between the occurrences of `c`.
pub open spec fn split_on(s: Seq<char>, c: char) -> Seq<Seq<char>>
    decreases s.len(),
    via split_on_decreases
{
    let i = first_index(s, c);
    if i >= s.len() {
        seq![s]
    } else {
        seq![s.take(i)] + split_on(s.skip(i + 1), c)
    }
}

#[via_fn]
proof fn split_on_decreases(s: Seq<char>, c: char) {
    lemma_first_index(s, c);
}

/// `s` without one trailing carriage return.
pub open spec fn strip_cr(s: Seq<char>) -> Seq<char> {
    if s.len() > 0 && s.last() == '\r' {
        s.drop_last()
    } else {
        s
    }
}

/// The lines of `s`: each ends at `\n` or `\r\n`, which is not part of it, and the last line's
/// terminator is optional.
pub open spec fn lines(s: Seq<char>) -> Seq<Seq<char>>
    decreases s.len(),
    via lines_decreases
{
    if s.len() == 0 {
        seq![]
    } else {
        let i = first_index(s, '\n');
        if i >= s.len() {
            seq![s]
        } else {
            seq![strip_cr(s.take(i))] + lines(s.skip(i + 1))
        }
    }
}

#[via_fn]
proof fn lines_decreases(s: Seq<char>) {
    lemma_first_index(s, '\n');
}

/// The parts one after another with `sep` between them.
pub open spec fn join(parts: Seq<Seq<char>>, sep: Seq<char>) -> Seq<char>
    decreases parts.len(),
{
    if parts.len() == 0 {
        seq![]
    } else if parts.len() == 1 {
        parts[0]
    } else {
        join(parts.drop_last(), sep) + sep + parts.last()
    }
}

/// What `first_index` says of the characters before and at the position it gives.
pub proof fn lemma_first_index(s: Seq<char>, c: char)
    ensures
        0 <= first_index(s, c) <= s.len(),
        forall|j: int| 0 <= j < first_index(s, c) ==> s[j] != c,
        first_index(s, c) < s.len() ==> s[first_index(s, c)] == c,
    decreases s.len(),
{
    if s.len() > 0 && s[0] != c {
        let t = s.drop_first();
        lemma_first_index(t, c);
        assert forall|j: int| 0 <= j < first_index(s, c) implies s[j] != c by {
            if j > 0 {
                assert(s[j] == t[j - 1]);
            }
        }
        if first_index(s, c) < s.len() {
            assert(s[first_index(s, c)] == t[first_index(t, c)]);
        }
    }
}

/// `first_index` is the only position with the properties of `lemma_first_index`.
pub proof fn lemma_first_index_unique(s: Seq<char>, c: char, i: int)
    requires
        0 <= i <= s.len(),
        forall|j: int| 0 <= j < i ==> s[j] != c,
        i < s.len() ==> s[i] == c,
    ensures
        first_index(s, c) == i,
{
    lemma_first_index(s, c);
    let f = first_index(s, c);
    if f < i {
        assert(s[f] != c);
    } else if i < f {
        assert(s[i] != c);
    }
}

/// The digit character for `d`.
pub open spec fn digit(d: int) -> char {
    (48 + d) as char
}

/// `n` in decimal notation.
pub open spec fn decimal(n: nat) -> Seq<char>
    decreases n,
{
    if n < 10 {
        seq![digit(n as int)]
    } else {
        decimal(n / 10).push(digit((n % 10) as int))
    }
}

/// `n` in decimal notation, with a minus sign where it is negative.
pub open spec fn signed_decimal(n: int) -> Seq<char> {
    if n < 0 {
        seq!['-'] + decimal((-n) as nat)
    } else {
        decimal(n as nat)
    }
}

/// The characters of a text.
pub fn chars_of(s: &str) -> (r: Vec<char>)
    ensures
        r@ == s@,
{
    let mut r: Vec<char> = Vec::new();
    for c in it: s.chars()
        invariant
            r@ == s@.take(it.index()),
            it.seq() == s@,
    {
        proof {
            assert(s@.take(it.index() + 1) =~= s@.take(it.index()).push(c));
        }
        r.push(c);
    }
    assert(s@.take(s@.len() as int) =~= s@);
    r
}

/// Appends the characters `v[from..to]`.
pub fn push_range(out: &mut String, v: &Vec<char>, from: usize, to: usize)
    requires
        from <= to <= v@.len(),
    ensures
        final(out)@ == old(out)@ + v@.subrange(from as int, to as int),
{
    let mut i: usize = from;
    assert(out@ =~= old(out)@ + v@.subrange(from as int, from as int));
    while i < to
        invariant
            from <= i <= to <= v@.len(),
            out@ == old(out)@ + v@.subrange(from as int, i as int),
        decreases to - i,
    {
        out.push(v[i]);
        i += 1;
        assert(out@ =~= old(out)@ + v@.subrange(from as int, i as int));
    }
}

/// The text of the characters `v[from..to]`.
pub fn text_of(v: &Vec<char>, from: usize, to: usize) -> (r: String)
    requires
        from <= to <= v@.len(),
    ensures
        r@ == v@.subrange(from as int, to as int),
{
    let mut r = String::new();
    push_range(&mut r, v, from, to);
    assert(r@ =~= v@.subrange(from as int, to as int));
    r
}

/// Tells whether two texts are the same.
pub fn same_text(a: &str, b: &str) -> (r: bool)
    ensures
        r == (a@ == b@),
{
    match rank(a, b) {
        Rank::Same => true,
        _ => false,
    }
}

/// The first position in `v[from..to]` that is not whitespace, or `to`.
pub fn skip_white(v: &Vec<char>, from: usize, to: usize) -> (i: usize)
    requires
        from <= to <= v@.len(),
    ensures
        from <= i <= to,
        trim_start(v@.subrange(from as int, to as int)) == v@.subrange(i as int, to as int),
        i < to ==> !is_white(v@[i as int]),
{
    let mut i: usize = from;
    while i < to && white(v[i])
        invariant
            from <= i <= to <= v@.len(),
            trim_start(v@.subrange(from as int, to as int)) == trim_start(
                v@.subrange(i as int, to as int),
            ),
        decreases to - i,
    {
        proof {
            let s = v@.subrange(i as int, to as int);
            assert(s.drop_first() =~= v@.subrange(i + 1, to as int));
        }
        i += 1;
    }
    i
}

/// The least `j` such that `v[j..to]` is whitespace, but no less than `from`.
pub fn skip_white_back(v: &Vec<char>, from: usize, to: usize) -> (j: usize)
    requires
        from <= to <= v@.len(),
    ensures
        from <= j <= to,
        trim_end(v@.subrange(from as int, to as int)) == v@.subrange(from as int, j as int),
{
    let mut j: usize = to;
    while from < j && white(v[j - 1])
        invariant
            from <= j <= to <= v@.len(),
            trim_end(v@.subrange(from as int, to as int)) == trim_end(
                v@.subrange(from as int, j as int),
            ),
        decreases j,
    {
        proof {
            let s = v@.subrange(from as int, j as int);
            assert(s.drop_last() =~= v@.subrange(from as int, j - 1));
        }
        j -= 1;
    }
    j
}

/// The bounds of `v[from..to]` without the whitespace at both ends.
pub fn trim_range(v: &Vec<char>, from: usize, to: usize) -> (r: (usize, usize))
    requires
        from <= to <= v@.len(),
    ensures
        from <= r.0 <= r.1 <= to,
        v@.subrange(r.0 as int, r.1 as int) == trim(v@.subrange(from as int, to as int)),
{
    let i: usize = skip_white(v, from, to);
    let j: usize = skip_white_back(v, i, to);
    (i, j)
}

/// `s` without the whitespace at both ends.
pub fn trimmed(s: &str) -> (r: String)
    ensures
        r@ == trim(s@),
{
    let v = chars_of(s);
    let (i, j) = trim_range(&v, 0, v.len());
    assert(v@.subrange(0, v@.len() as int) =~= v@);
    text_of(&v, i, j)
}

/// Tells whether `p` occurs in `v` at position `i`.
pub fn text_at(v: &Vec<char>, i: usize, p: &Vec<char>) -> (r: bool)
    ensures
        r == occurs_at(v@, p@, i as int),
{
    if v.len() < p.len() || v.len() - p.len() < i {
        return false;
    }
    let mut k: usize = 0;
    while k < p.len()
        invariant
            i + p@.len() <= v.len(),
            k <= p@.len(),
            forall|j: int| 0 <= j < k ==> v@[i + j] == p@[j],
        decreases p@.len() - k,
    {
        if v[i + k] != p[k] {
            assert(v@.subrange(i as int, i + p@.len())[k as int] == v@[i + k]);
            return false;
        }
        k += 1;
    }
    assert(v@.subrange(i as int, i + p@.len()) =~= p@);
    true
}

/// Tells whether `p` occurs anywhere in `s`.
pub fn has_text(s: &str, p: &str) -> (r: bool)
    ensures
        r == contains_text(s@, p@),
{
    let v = chars_of(s);
    let w = chars_of(p);
    let mut i: usize = 0;
    while i <= v.len()
        invariant
            v@ == s@,
            w@ == p@,
            i <= v@.len() + 1,
            forall|j: int| 0 <= j < i ==> !occurs_at(v@, w@, j),
        decreases v@.len() + 1 - i,
    {
        if text_at(&v, i, &w) {
            return true;
        }
        if i == v.len() {
            return false;
        }
        i += 1;
    }
    false
}

/// Tells whether `s` begins with `p`.
pub fn begins_with(s: &str, p: &str) -> (r: bool)
    ensures
        r == starts_with(s@, p@),
{
    let v = chars_of(s);
    let w = chars_of(p);
    proof {
        if w@.len() <= v@.len() {
            assert(v@.take(w@.len() as int) =~= v@.subrange(0, w@.len() as int));
        }
    }
    text_at(&v, 0, &w)
}

/// The first position of `c` in `v` from `from` on, or the length of `v`.
pub fn find_char(v: &Vec<char>, from: usize, c: char) -> (i: usize)
    requires
        from <= v@.len(),
    ensures
        from <= i <= v@.len(),
        i == from + first_index(v@.skip(from as int), c),
        forall|j: int| from <= j < i ==> v@[j] != c,
        i < v@.len() ==> v@[i as int] == c,
{
    let mut i: usize = from;
    while i < v.len() && v[i] != c
        invariant
            from <= i <= v@.len(),
            forall|j: int| from <= j < i ==> v@[j] != c,
        decreases v@.len() - i,
    {
        i += 1;
    }
    proof {
        lemma_first_index_unique(v@.skip(from as int), c, i - from);
    }
    i
}

/// The pieces of `s` between the occurrences of `c`.
pub fn split_text(s: &str, c: char) -> (r: Vec<String>)
    ensures
        views(r@) == split_on(s@, c),
{
    let v = chars_of(s);
    let mut r: Vec<String> = Vec::new();
    let mut from: usize = 0;
    assert(v@.skip(0) =~= v@);
    assert(views(r@) + split_on(v@, c) =~= split_on(v@, c));
    loop
        invariant_except_break
            views(r@) + split_on(v@.skip(from as int), c) == split_on(s@, c),
        invariant
            v@ == s@,
            from <= v@.len(),
        ensures
            views(r@) == split_on(s@, c),
        decreases v@.len() - from,
    {
        broadcast use lemma_views_push;

        let i: usize = find_char(&v, from, c);
        let ghost rest = v@.skip(from as int);
        let ghost before = views(r@);
        r.push(text_of(&v, from, i));
        if i == v.len() {
            proof {
                assert(v@.subrange(from as int, i as int) =~= rest);
                assert(views(r@) =~= before + split_on(rest, c));
            }
            break;
        }
        proof {
            assert(v@.subrange(from as int, i as int) =~= rest.take(i - from));
            assert(rest.skip(i - from + 1) =~= v@.skip(i + 1));
            assert(views(r@) + split_on(v@.skip(i + 1), c) =~= before + split_on(rest, c));
        }
        from = i + 1;
    }
    r
}

/// The lines of `s`.
pub fn lines_of(s: &str) -> (r: Vec<String>)
    ensures
        views(r@) == lines(s@),
{
    let v = chars_of(s);
    let mut r: Vec<String> = Vec::new();
    let mut from: usize = 0;
    assert(v@.skip(0) =~= v@);
    assert(views(r@) + lines(v@) =~= lines(v@));
    while from < v.len()
        invariant
            v@ == s@,
            from <= v@.len(),
            views(r@) + lines(v@.skip(from as int)) == lines(s@),
        decreases v@.len() - from,
    {
        broadcast use lemma_views_push;

        let i: usize = find_char(&v, from, '\n');
        let ghost rest = v@.skip(from as int);
        let ghost before = views(r@);
        if i == v.len() {
            r.push(text_of(&v, from, i));
            proof {
                assert(v@.subrange(from as int, i as int) =~= rest);
                assert(v@.skip(i as int).len() == 0);
                assert(views(r@) + lines(v@.skip(i as int)) =~= before + lines(rest));
            }
            from = i;
        } else {
            let end: usize = if from < i && v[i - 1] == '\r' {
                i - 1
            } else {
                i
            };
            r.push(text_of(&v, from, end));
            proof {
                assert(v@.subrange(from as int, i as int) =~= rest.take(i - from));
                assert(v@.subrange(from as int, end as int) =~= strip_cr(rest.take(i - from)));
                assert(rest.skip(i - from + 1) =~= v@.skip(i + 1));
                assert(views(r@) + lines(v@.skip(i + 1)) =~= before + lines(rest));
            }
            from = i + 1;
        }
    }
    assert(v@.skip(from as int).len() == 0);
    assert(views(r@) + lines(v@.skip(from as int)) =~= views(r@));
    r
}

/// The parts one after another with `sep` between them.
pub fn joined(parts: &Vec<String>, sep: &str) -> (r: String)
    ensures
        r@ == join(views(parts@), sep@),
{
    let mut r = String::new();
    let mut i: usize = 0;
    assert(views(parts@).take(0) =~= seq![]);
    while i < parts.len()
        invariant
            i <= parts@.len(),
            r@ == join(views(parts@).take(i as int), sep@),
        decreases parts@.len() - i,
    {
        proof {
            let t = views(parts@).take(i + 1);
            assert(t.drop_last() =~= views(parts@).take(i as int));
            assert(t.last() == parts@[i as int]@);
        }
        if i > 0 {
            r.append(sep);
        }
        r.append(parts[i].as_str());
        proof {
            if i == 0 {
                assert(r@ =~= parts@[0]@);
            }
        }
        i += 1;
    }
    assert(views(parts@).take(i as int) =~= views(parts@));
    r
}

/// Appends `n` in decimal notation.
pub fn push_decimal(out: &mut String, n: u64)
    ensures
        final(out)@ == old(out)@ + decimal(n as nat),
    decreases n,
{
    if n >= 10 {
        push_decimal(out, n / 10);
    }
    let d: u8 = (n % 10) as u8;
    out.push((48 + d) as char);
    assert(out@ =~= old(out)@ + decimal(n as nat));
}

/// `n` in decimal notation.
pub fn decimal_text(n: u64) -> (r: String)
    ensures
        r@ == decimal(n as nat),
{
    let mut r = String::new();
    push_decimal(&mut r, n);
    assert(r@ =~= decimal(n as nat));
    r
}

/// `n` in decimal notation, with a minus sign where it is negative.
pub fn signed_decimal_text(n: i32) -> (r: String)
    ensures
        r@ == signed_decimal(n as int),
{
    let mut r = String::new();
    if n < 0 {
        r.push('-');
        push_decimal(&mut r, (-(n as i64)) as u64);
    } else {
        push_decimal(&mut r, n as u64);
    }
    assert(r@ =~= signed_decimal(n as int));
    r
}

/// The length of the run of characters at the start of `s` that are not whitespace.
pub open spec fn word_len(s: Seq<char>) -> int
    decreases s.len(),
{
    if s.len() == 0 || is_white(s[0]) {
        0
    } else {
        1 + word_len(s.drop_first())
    }
}

/// The words of `s`: its longest runs of characters that are not whitespace.
pub open spec fn words(s: Seq<char>) -> Seq<Seq<char>>
    decreases s.len(),
    via words_decreases
{
    let t = trim_start(s);
    if t.len() == 0 {
        seq![]
    } else {
        seq![t.take(word_len(t))] + words(t.skip(word_len(t)))
    }
}

#[via_fn]
proof fn words_decreases(s: Seq<char>) {
    lemma_trim_start_len(s);
    lemma_word_len(trim_start(s));
}

/// Trimming makes no text longer, and leaves no whitespace at the start.
pub proof fn lemma_trim_start_len(s: Seq<char>)
    ensures
        trim_start(s).len() <= s.len(),
        trim_start(s).len() > 0 ==> !is_white(trim_start(s)[0]),
    decreases s.len(),
{
    if s.len() > 0 && is_white(s[0]) {
        lemma_trim_start_len(s.drop_first());
    }
}

/// What `word_len` says of the characters before and at the position it gives.
pub proof fn lemma_word_len(s: Seq<char>)
    ensures
        0 <= word_len(s) <= s.len(),
        s.len() > 0 && !is_white(s[0]) ==> word_len(s) > 0,
        forall|j: int| 0 <= j < word_len(s) ==> !is_white(s[j]),
        word_len(s) < s.len() ==> is_white(s[word_len(s)]),
    decreases s.len(),
{
    if s.len() > 0 && !is_white(s[0]) {
        let t = s.drop_first();
        lemma_word_len(t);
        assert forall|j: int| 0 <= j < word_len(s) implies !is_white(s[j]) by {
            if j > 0 {
                assert(s[j] == t[j - 1]);
            }
        }
        if word_len(s) < s.len() {
            assert(s[word_len(s)] == t[word_len(t)]);
        }
    }
}

/// The words of `s`.
pub fn words_of(s: &str) -> (r: Vec<String>)
    ensures
        views(r@) == words(s@),
{
    let v = chars_of(s);
    let n: usize = v.len();
    let mut r: Vec<String> = Vec::new();
    let mut from: usize = skip_white(&v, 0, n);
    proof {
        assert(v@.subrange(0, n as int) =~= v@);
        lemma_words_trimmed(v@);
        assert(views(r@) + words(v@.subrange(from as int, n as int)) =~= words(s@));
    }
    while from < n
        invariant
            n == v@.len(),
            from <= n,
            from < n ==> !is_white(v@[from as int]),
            views(r@) + words(v@.subrange(from as int, n as int)) == words(s@),
        decreases n - from,
    {
        broadcast use lemma_views_push;

        let ghost t = v@.subrange(from as int, n as int);
        let mut end: usize = from;
        while end < n && !white(v[end])
            invariant
                n == v@.len(),
                from <= end <= n,
                t == v@.subrange(from as int, n as int),
                word_len(t) == end - from + word_len(v@.subrange(end as int, n as int)),
            decreases n - end,
        {
            proof {
                let u = v@.subrange(end as int, n as int);
                assert(u[0] == v@[end as int]);
                assert(u.drop_first() =~= v@.subrange(end + 1, n as int));
            }
            end += 1;
        }
        let next: usize = skip_white(&v, end, n);
        let ghost before = views(r@);
        r.push(text_of(&v, from, end));
        proof {
            let u = v@.subrange(end as int, n as int);
            assert(word_len(u) == 0);
            assert(t[0] == v@[from as int]);
            assert(trim_start(t) == t);
            assert(t.take(end - from) =~= v@.subrange(from as int, end as int));
            assert(t.skip(end - from) =~= u);
            lemma_words_trimmed(u);
            assert(views(r@) + words(v@.subrange(next as int, n as int)) =~= before + words(t));
        }
        from = next;
    }
    proof {
        let t = v@.subrange(from as int, n as int);
        assert(t.len() == 0);
        assert(trim_start(t).len() == 0);
        assert(views(r@) + words(t) =~= views(r@));
    }
    r
}

proof fn lemma_words_trimmed(s: Seq<char>)
    ensures
        words(trim_start(s)) == words(s),
{
    lemma_trim_start_len(s);
    assert(trim_start(trim_start(s)) == trim_start(s));
}

/// `c` in lower case, where it is an ASCII letter.
pub open spec fn ascii_lower(c: char) -> char {
    if 'A' <= c <= 'Z' {
        (c as int + 32) as char
    } else {
        c
    }
}

/// Whether two texts are the same but for the case of ASCII letters.
pub open spec fn same_but_case(a: Seq<char>, b: Seq<char>) -> bool {
    a.len() == b.len() && forall|i: int|
        0 <= i < a.len() ==> ascii_lower(#[trigger] a[i]) == ascii_lower(b[i])
}

/// `c` in lower case, where it is an ASCII letter.
pub fn lower_ascii(c: char) -> (r: char)
    ensures
        r == ascii_lower(c),
{
    if 'A' <= c && c <= 'Z' {
        (c as u8 + 32) as char
    } else {
        c
    }
}

/// Tells whether two texts are the same but for the case of ASCII letters.
pub fn same_ignoring_case(a: &str, b: &str) -> (r: bool)
    ensures
        r == same_but_case(a@, b@),
{
    let x = chars_of(a);
    let y = chars_of(b);
    if x.len() != y.len() {
        return false;
    }
    let mut i: usize = 0;
    while i < x.len()
        invariant
            i <= x@.len(),
            x@ == a@,
            y@ == b@,
            x@.len() == y@.len(),
            forall|j: int| 0 <= j < i ==> ascii_lower(#[trigger] x@[j]) == ascii_lower(y@[j]),
        decreases x@.len() - i,
    {
        if lower_ascii(x[i]) != lower_ascii(y[i]) {
            return false;
        }
        i += 1;
    }
    true
}

/// `n` spaces.
pub open spec fn spaces(n: nat) -> Seq<char> {
    Seq::new(n, |i: int| ' ')
}

/// `s` with spaces at its end so that it has at least `width` characters.
pub open spec fn padded(s: Seq<char>, width: nat) -> Seq<char> {
    if s.len() >= width {
        s
    } else {
        s + spaces((width - s.len()) as nat)
    }
}

/// `s` with spaces at its end so that it has at least `width` characters.
pub fn pad_right(s: &str, width: usize) -> (r: String)
    ensures
        r@ == padded(s@, width as nat),
{
    let mut r = s.to_owned();
    let mut n: usize = s.unicode_len();
    proof {
        assert(s@ + spaces(0) =~= s@);
    }
    while n < width
        invariant
            s@.len() <= n,
            s@.len() < width ==> n <= width,
            s@.len() >= width ==> n == s@.len(),
            r@ == s@ + spaces((n - s@.len()) as nat),
        decreases width - n,
    {
        r.push(' ');
        n += 1;
        assert(r@ =~= s@ + spaces((n - s@.len()) as nat));
    }
    r
}

/// The text for bytes that are not valid UTF-8, with replacement characters in place of what cannot
/// be decoded.
pub uninterp spec fn lossy(bytes: Seq<u8>) -> Seq<char>;

/// The text that bytes stand for.
pub open spec fn decoded(bytes: Seq<u8>) -> Seq<char> {
    if valid_utf8(bytes) {
        decode_utf8(bytes)
    } else {
        lossy(bytes)
    }
}

/// Trusted: `String::from_utf8_lossy` decodes UTF-8, and puts replacement characters in place of
/// what is not valid. Bytes that are valid are decoded as they are.
#[verifier::external_body]
pub(crate) fn lossy_text(bytes: &Vec<u8>) -> (r: String)
    ensures
        valid_utf8(bytes@) ==> r@ == decode_utf8(bytes@),
        !valid_utf8(bytes@) ==> r@ == lossy(bytes@),
{
    String::from_utf8_lossy(bytes).into_owned()
}

/// A list of texts in the notation of Rust: quoted and escaped, in square brackets.
pub uninterp spec fn debug_list(texts: Seq<Seq<char>>) -> Seq<char>;

/// Trusted: `{:?}` writes a list of strings with each string quoted and escaped, in square
/// brackets.
#[verifier::external_body]
pub(crate) fn debug_texts(texts: &Vec<String>) -> (r: String)
    ensures
        r@ == debug_list(views(texts@)),
{
    format!("{:?}", texts)
}

/// Law: the whitespace characters are the controls from tab to carriage return, the spaces of
/// Unicode, and its separators of lines and paragraphs.
pub proof fn law_whitespace(c: char, r: bool)
    requires
        call_ensures(white, (c,), r),
    ensures
        c == '\t' || c == '\n' || c == '\r' || c == ' ' ==> r,
        9 <= c as int <= 13 ==> r,
        0x2000 <= c as int <= 0x200a ==> r,
        c as int == 0x85 || c as int == 0xa0 || c as int == 0x1680 || c as int == 0x2028 || c as int
            == 0x2029 || c as int == 0x202f || c as int == 0x205f || c as int == 0x3000 ==> r,
        '\u{20}' < c <= '\u{7e}' ==> !r,
        c <= '\u{8}' || '\u{d}' < c <= '\u{1f}' ==> !r,
        '\u{3000}' < c ==> !r,
        '\u{a0}' < c <= '\u{1fff}' && c != '\u{1680}' ==> !r,
{
}

/// What stays when whitespace is dropped at the start.
proof fn lemma_trim_start(s: Seq<char>) -> (i: int)
    ensures
        0 <= i <= s.len(),
        trim_start(s) == s.subrange(i, s.len() as int),
        forall|k: int| 0 <= k < i ==> is_white(s[k]),
        i < s.len() ==> !is_white(s[i]),
    decreases s.len(),
{
    if s.len() > 0 && is_white(s[0]) {
        let t = s.drop_first();
        let i = lemma_trim_start(t);
        assert(t.subrange(i, t.len() as int) =~= s.subrange(i + 1, s.len() as int));
        assert forall|k: int| 0 <= k < i + 1 implies is_white(s[k]) by {
            if k > 0 {
                assert(s[k] == t[k - 1]);
            }
        }
        i + 1
    } else {
        assert(s.subrange(0, s.len() as int) =~= s);
        0
    }
}

/// What stays when whitespace is dropped at the end.
proof fn lemma_trim_end(s: Seq<char>) -> (j: int)
    ensures
        0 <= j <= s.len(),
        trim_end(s) == s.subrange(0, j),
        forall|k: int| j <= k < s.len() ==> is_white(s[k]),
        j > 0 ==> !is_white(s[j - 1]),
    decreases s.len(),
{
    if s.len() > 0 && is_white(s.last()) {
        let t = s.drop_last();
        let j = lemma_trim_end(t);
        assert(t.subrange(0, j) =~= s.subrange(0, j));
        assert forall|k: int| j <= k < s.len() implies is_white(s[k]) by {
            if k < t.len() {
                assert(s[k] == t[k]);
            }
        }
        j
    } else {
        assert(s.subrange(0, s.len() as int) =~= s);
        s.len() as int
    }
}

/// Law: trimming takes away whitespace at both ends, all of it and nothing else.
pub proof fn law_trimmed(s: &str, r: String)
    requires
        call_ensures(trimmed, (s,), r),
    ensures
        exists|i: int, j: int|
            {
                &&& 0 <= i <= j <= s@.len()
                &&& r@ == #[trigger] s@.subrange(i, j)
                &&& forall|k: int| 0 <= k < i ==> is_white(#[trigger] s@[k])
                &&& forall|k: int| j <= k < s@.len() ==> is_white(#[trigger] s@[k])
            },
        r@.len() > 0 ==> !is_white(r@[0]) && !is_white(r@.last()),
{
    lemma_trim(s@);
}

/// What trimming takes away.
pub proof fn lemma_trim(s: Seq<char>)
    ensures
        exists|i: int, j: int|
            {
                &&& 0 <= i <= j <= s.len()
                &&& trim(s) == #[trigger] s.subrange(i, j)
                &&& forall|k: int| 0 <= k < i ==> is_white(#[trigger] s[k])
                &&& forall|k: int| j <= k < s.len() ==> is_white(#[trigger] s[k])
            },
        trim(s).len() > 0 ==> !is_white(trim(s)[0]) && !is_white(trim(s).last()),
{
    let i = lemma_trim_start(s);
    let t = trim_start(s);
    let j = lemma_trim_end(t);
    assert(trim(s) =~= s.subrange(i, i + j));
    assert forall|k: int| i + j <= k < s.len() implies is_white(#[trigger] s[k]) by {
        assert(s[k] == t[k - i]);
    }
}

/// Law: a text without whitespace at its ends stays as it is when it is trimmed.
pub proof fn law_trim_keeps(s: Seq<char>)
    requires
        s.len() > 0 ==> !is_white(s[0]) && !is_white(s.last()),
    ensures
        trim(s) == s,
{
}

/// Law: a text is in another if it stands there, character by character, at some place.
pub proof fn law_has_text(s: &str, p: &str, r: bool)
    requires
        call_ensures(has_text, (s, p), r),
    ensures
        r <==> exists|i: int| #[trigger] stands_at(s@, p@, i),
{
    if r {
        let i = choose|i: int| #[trigger] occurs_at(s@, p@, i);
        assert forall|k: int| 0 <= k < p@.len() implies s@[i + k] == #[trigger] p@[k] by {
            assert(s@.subrange(i, i + p@.len())[k] == s@[i + k]);
        }
        assert(stands_at(s@, p@, i));
    }
    if exists|i: int| #[trigger] stands_at(s@, p@, i) {
        let i = choose|i: int| #[trigger] stands_at(s@, p@, i);
        assert(s@.subrange(i, i + p@.len()) =~= p@);
        assert(occurs_at(s@, p@, i));
    }
}

/// Whether `p` stands in `s` from position `i` on, character by character.
pub open spec fn stands_at(s: Seq<char>, p: Seq<char>, i: int) -> bool {
    &&& 0 <= i
    &&& i + p.len() <= s.len()
    &&& forall|k: int| 0 <= k < p.len() ==> s[i + k] == #[trigger] p[k]
}

/// Law: a text begins with another if it stands there at its start.
pub proof fn law_begins_with(s: &str, p: &str, r: bool)
    requires
        call_ensures(begins_with, (s, p), r),
    ensures
        r <==> stands_at(s@, p@, 0),
{
    if r {
        assert forall|k: int| 0 <= k < p@.len() implies s@[0 + k] == #[trigger] p@[k] by {
            assert(s@.take(p@.len() as int)[k] == s@[k]);
        }
    }
    if stands_at(s@, p@, 0) {
        assert forall|k: int| 0 <= k < p@.len() implies s@[k] == #[trigger] p@[k] by {
            assert(s@[0 + k] == p@[k]);
        }
        assert(s@.take(p@.len() as int) =~= p@);
    }
}

/// The number that digits stand for.
pub open spec fn digits_value(s: Seq<char>) -> int
    decreases s.len(),
{
    if s.len() == 0 {
        0
    } else {
        digits_value(s.drop_last()) * 10 + (s.last() as int - '0' as int)
    }
}

/// Law: a number in decimal notation is made of digits that stand for it, without a zero in front.
pub proof fn law_decimal(n: nat)
    ensures
        digits_value(decimal(n)) == n,
        forall|i: int| 0 <= i < decimal(n).len() ==> '0' <= #[trigger] decimal(n)[i] <= '9',
        decimal(n).len() > 0,
        decimal(n).len() > 1 ==> decimal(n)[0] != '0',
        n > 0 ==> decimal(n)[0] != '0',
    decreases n,
{
    if n < 10 {
        assert(decimal(n).drop_last() =~= seq![]);
        assert(digits_value(decimal(n).drop_last()) == 0);
    } else {
        law_decimal(n / 10);
        assert(decimal(n).drop_last() =~= decimal(n / 10));
        assert(decimal(n)[0] == decimal(n / 10)[0]);
        assert forall|i: int| 0 <= i < decimal(n).len() implies '0' <= #[trigger] decimal(n)[i]
            <= '9' by {
            if i < decimal(n / 10).len() {
                assert(decimal(n)[i] == decimal(n / 10)[i]);
            }
        }
    }
}

/// Law: a number is written in decimal notation, with a minus sign in front where it is negative.
pub proof fn law_written_numbers(n: u64, r: String, m: i32, q: String)
    requires
        call_ensures(decimal_text, (n,), r),
        call_ensures(signed_decimal_text, (m,), q),
    ensures
        digits_value(r@) == n,
        m >= 0 ==> digits_value(q@) == m,
        m < 0 ==> q@.len() > 0 && q@[0] == '-' && digits_value(q@.drop_first()) == -m,
{
    law_decimal(n as nat);
    if m >= 0 {
        law_decimal(m as nat);
    } else {
        law_decimal((-m) as nat);
        assert(q@.drop_first() =~= decimal((-m) as nat));
    }
}

/// Law: the pieces between the occurrences of a character do not hold it, and with it between them
/// they are the text again.
pub proof fn law_split(s: Seq<char>, c: char)
    ensures
        join(split_on(s, c), seq![c]) == s,
        split_on(s, c).len() > 0,
        forall|i: int, k: int|
            0 <= i < split_on(s, c).len() && 0 <= k < split_on(s, c)[i].len() ==> #[trigger] split_on(
                s,
                c,
            )[i][k] != c,
    decreases s.len(),
{
    let i = first_index(s, c);
    lemma_first_index(s, c);
    if i < s.len() {
        let t = s.skip(i + 1);
        let rest = split_on(t, c);
        law_split(t, c);
        lemma_join_first(s.take(i), rest, seq![c]);
        assert(s =~= s.take(i) + seq![c] + t);
        let all = seq![s.take(i)] + rest;
        assert(split_on(s, c) == all);
        assert forall|a: int, k: int|
            0 <= a < all.len() && 0 <= k < all[a].len() implies #[trigger] all[a][k] != c by {
            if a > 0 {
                assert(all[a] == rest[a - 1]);
                assert(rest[a - 1][k] != c);
            }
        }
    }
}

/// Joining from the front.
proof fn lemma_join_first(a: Seq<char>, rest: Seq<Seq<char>>, sep: Seq<char>)
    requires
        rest.len() > 0,
    ensures
        join(seq![a] + rest, sep) == a + sep + join(rest, sep),
{
    law_join(seq![a], rest, sep);
}

/// Law: joining puts the separator between each two parts: joining two lists of parts is joining
/// each, with the separator between them.
pub proof fn law_join(a: Seq<Seq<char>>, b: Seq<Seq<char>>, sep: Seq<char>)
    requires
        a.len() > 0,
        b.len() > 0,
    ensures
        join(a + b, sep) == join(a, sep) + sep + join(b, sep),
        a.len() == 1 ==> join(a, sep) == a[0],
    decreases b.len(),
{
    let all = a + b;
    if b.len() == 1 {
        assert(all.drop_last() =~= a);
    } else {
        law_join(a, b.drop_last(), sep);
        assert(all.drop_last() =~= a + b.drop_last());
        assert(join(all, sep) =~= join(a, sep) + sep + join(b, sep));
    }
}

/// Law: a line goes to the next newline, without it and without a carriage return before it; what
/// follows are the other lines. A rest without a newline is a line as it is.
pub proof fn law_lines(line: Seq<char>, rest: Seq<char>)
    requires
        !line.contains('\n'),
    ensures
        lines(line + seq!['\n'] + rest) == seq![
            if line.len() > 0 && line.last() == '\r' {
                line.drop_last()
            } else {
                line
            },
        ] + lines(rest),
        line.len() > 0 ==> lines(line) == seq![line],
        lines(Seq::empty()) == Seq::<Seq<char>>::empty(),
{
    let s = line + seq!['\n'] + rest;
    assert forall|j: int| 0 <= j < line.len() implies s[j] != '\n' by {
        assert(s[j] == line[j]);
    }
    lemma_first_index_unique(s, '\n', line.len() as int);
    assert(s.take(line.len() as int) =~= line);
    assert(s.skip((line.len() + 1) as int) =~= rest);
    lemma_first_index_unique(line, '\n', line.len() as int);
}

/// Law: padding adds spaces at the end up to the width, and changes nothing of a text that is as long
/// already.
pub proof fn law_padded(s: &str, width: usize, r: String)
    requires
        call_ensures(pad_right, (s, width), r),
    ensures
        s@.len() >= width ==> r@ == s@,
        s@.len() < width ==> r@.len() == width,
        r@.take(s@.len() as int) == s@,
        forall|i: int| s@.len() <= i < r@.len() ==> #[trigger] r@[i] == ' ',
{
    assert(r@.take(s@.len() as int) =~= s@);
}

/// Law: two texts are the same but for case if they are as long and at each place have the same
/// character, or an ASCII letter in its two cases.
pub proof fn law_same_but_case(a: &str, b: &str, r: bool)
    requires
        call_ensures(same_ignoring_case, (a, b), r),
    ensures
        r <==> a@.len() == b@.len() && forall|i: int|
            0 <= i < a@.len() ==> {
                ||| #[trigger] a@[i] == b@[i]
                ||| 'a' <= a@[i] <= 'z' && a@[i] as int == b@[i] as int + 32
                ||| 'A' <= a@[i] <= 'Z' && a@[i] as int + 32 == b@[i] as int
            },
{
    if a@.len() == b@.len() {
        assert forall|i: int| 0 <= i < a@.len() implies (ascii_lower(#[trigger] a@[i])
            == ascii_lower(b@[i]) <==> {
            ||| a@[i] == b@[i]
            ||| 'a' <= a@[i] <= 'z' && a@[i] as int == b@[i] as int + 32
            ||| 'A' <= a@[i] <= 'Z' && a@[i] as int + 32 == b@[i] as int
        }) by {
            let x = a@[i];
            let y = b@[i];
            if ascii_lower(x) == ascii_lower(y) {
                assert(ascii_lower(x) as int == ascii_lower(y) as int);
            }
        }
    }
}

/// Law: words stand apart by whitespace: a run of other characters before whitespace or the end is a
/// word, and whitespace at the start is none.
pub proof fn law_words(word: Seq<char>, c: char, rest: Seq<char>)
    requires
        forall|i: int| 0 <= i < word.len() ==> !is_white(#[trigger] word[i]),
        word.len() > 0,
        is_white(c),
    ensures
        words(word + seq![c] + rest) == seq![word] + words(rest),
        words(word) == seq![word],
        words(seq![c] + rest) == words(rest),
        words(Seq::empty()) == Seq::<Seq<char>>::empty(),
{
    let s = word + seq![c] + rest;
    assert(s[0] == word[0]);
    assert(trim_start(s) == s);
    lemma_word_len(s);
    lemma_word_len(word);
    let n = word_len(s);
    let m = word.len() as int;
    if n < m {
        assert(s[n] == word[n]);
    } else if n > m {
        assert(s[m] == c);
    }
    assert(n == m);
    assert(s.take(n) =~= word);
    let after = seq![c] + rest;
    assert(s.skip(n) =~= after);
    assert(after.drop_first() =~= rest);
    assert(trim_start(after) == trim_start(rest));
    assert(words(after) == words(rest));
    if word_len(word) < m {
        assert(is_white(word[word_len(word)]));
    }
    assert(trim_start(word) == word);
    assert(word.take(m) =~= word);
    let none = word.skip(m);
    assert(none =~= Seq::empty());
    assert(trim_start(none).len() == 0);
    assert(trim_start(Seq::<char>::empty()).len() == 0);
    assert(words(none) =~= seq![]);
    assert(words(word) =~= seq![word]);
}

/// Whether a text is nothing but whitespace.
pub open spec fn blank(s: Seq<char>) -> bool {
    forall|i: int| 0 <= i < s.len() ==> is_white(#[trigger] s[i])
}

/// Whitespace in front is dropped.
proof fn lemma_trim_start_blank(a: Seq<char>, s: Seq<char>)
    requires
        blank(a),
    ensures
        trim_start(a + s) == trim_start(s),
    decreases a.len(),
{
    if a.len() == 0 {
        assert(a + s =~= s);
    } else {
        let b = a.drop_first();
        assert((a + s)[0] == a[0]);
        assert((a + s).drop_first() =~= b + s);
        assert forall|i: int| 0 <= i < b.len() implies is_white(#[trigger] b[i]) by {
            assert(b[i] == a[i + 1]);
        }
        lemma_trim_start_blank(b, s);
    }
}

/// Whitespace at the end is dropped.
proof fn lemma_trim_end_blank(s: Seq<char>, b: Seq<char>)
    requires
        blank(b),
    ensures
        trim_end(s + b) == trim_end(s),
    decreases b.len(),
{
    if b.len() == 0 {
        assert(s + b =~= s);
    } else {
        let c = b.drop_last();
        assert((s + b).last() == b.last());
        assert((s + b).drop_last() =~= s + c);
        assert forall|i: int| 0 <= i < c.len() implies is_white(#[trigger] c[i]) by {
            assert(c[i] == b[i]);
        }
        lemma_trim_end_blank(s, c);
    }
}

/// Law: whitespace around a text is trimmed away, and a text of whitespace alone to nothing.
pub proof fn law_trim_around(a: Seq<char>, s: Seq<char>, b: Seq<char>)
    requires
        blank(a),
        blank(b),
        s.len() > 0 ==> !is_white(s[0]) && !is_white(s.last()),
    ensures
        trim(a + s + b) == s,
        s.len() > 0 ==> trim_start(a + s + b) == s + b,
{
    assert(a + s + b =~= a + (s + b));
    lemma_trim_start_blank(a, s + b);
    if s.len() > 0 {
        assert((s + b)[0] == s[0]);
        assert(trim_start(s + b) == s + b);
        lemma_trim_end_blank(s, b);
    } else {
        assert(s + b =~= b);
        assert(b + Seq::<char>::empty() =~= b);
        lemma_trim_start_blank(b, Seq::empty());
        assert(trim_start(Seq::<char>::empty()) =~= Seq::empty());
        assert(trim_end(Seq::<char>::empty()) =~= s);
    }
}

/// Law: parts without a character, joined with it between them, are what the text splits into.
pub proof fn law_join_split(parts: Seq<Seq<char>>, c: char)
    requires
        parts.len() > 0,
        forall|i: int| 0 <= i < parts.len() ==> !(#[trigger] parts[i]).contains(c),
    ensures
        split_on(join(parts, seq![c]), c) == parts,
    decreases parts.len(),
{
    let sep = seq![c];
    let s = join(parts, sep);
    let first = parts[0];
    assert(!first.contains(c));
    if parts.len() == 1 {
        assert forall|j: int| 0 <= j < s.len() implies s[j] != c by {
            assert(first.contains(first[j]));
        }
        lemma_first_index_unique(s, c, s.len() as int);
        assert(split_on(s, c) =~= parts);
    } else {
        let rest = parts.skip(1);
        assert(parts =~= seq![first] + rest);
        lemma_join_first(first, rest, sep);
        assert forall|i: int| 0 <= i < rest.len() implies !(#[trigger] rest[i]).contains(c) by {
            assert(rest[i] == parts[i + 1]);
        }
        law_join_split(rest, c);
        let n = first.len() as int;
        assert forall|j: int| 0 <= j < n implies s[j] != c by {
            assert(s[j] == first[j]);
            assert(first.contains(first[j]));
        }
        assert(s[n] == c);
        lemma_first_index_unique(s, c, n);
        assert(s.take(n) =~= first);
        assert(s.skip(n + 1) =~= join(rest, sep));
        assert(split_on(s, c) =~= parts);
    }
}

} // verus!
