//! The order of texts: byte by byte over their UTF-8 encoding, as `str` and `String` are ordered.

use vstd::prelude::*;
use vstd::string::*;
use vstd::utf8::*;

use crate::text::views;

verus! {

/// How one text stands to another.
#[derive(Clone, Copy, Debug, PartialEq, Eq, Structural)]
pub enum Rank {
    Before,
    Same,
    After,
}

/// Whether `a` comes before `b` in lexicographic order.
pub open spec fn bytes_before(a: Seq<u8>, b: Seq<u8>) -> bool
    decreases a.len(),
{
    if b.len() == 0 {
        false
    } else if a.len() == 0 {
        true
    } else if a[0] != b[0] {
        a[0] < b[0]
    } else {
        bytes_before(a.drop_first(), b.drop_first())
    }
}

/// Whether text `a` comes before text `b`.
pub open spec fn text_before(a: Seq<char>, b: Seq<char>) -> bool {
    bytes_before(encode_utf8(a), encode_utf8(b))
}

/// Whether the texts are in strictly ascending order.
pub open spec fn ascending(texts: Seq<Seq<char>>) -> bool {
    forall|i: int, j: int| 0 <= i < j < texts.len() ==> text_before(texts[i], texts[j])
}

proof fn lemma_bytes_transitive(a: Seq<u8>, b: Seq<u8>, c: Seq<u8>)
    requires
        bytes_before(a, b),
        bytes_before(b, c),
    ensures
        bytes_before(a, c),
    decreases a.len(),
{
    if a.len() > 0 && a[0] == b[0] && b[0] == c[0] {
        lemma_bytes_transitive(a.drop_first(), b.drop_first(), c.drop_first());
    }
}

proof fn lemma_bytes_irreflexive(a: Seq<u8>)
    ensures
        !bytes_before(a, a),
    decreases a.len(),
{
    if a.len() > 0 {
        lemma_bytes_irreflexive(a.drop_first());
    }
}

proof fn lemma_bytes_total(a: Seq<u8>, b: Seq<u8>)
    requires
        a != b,
    ensures
        bytes_before(a, b) || bytes_before(b, a),
    decreases a.len(),
{
    if a.len() == 0 || b.len() == 0 {
        assert(a.len() != b.len()) by {
            if a.len() == b.len() {
                assert(a =~= b);
            }
        }
    } else if a[0] == b[0] {
        if a.drop_first() == b.drop_first() {
            assert(a =~= seq![a[0]] + a.drop_first());
            assert(b =~= seq![b[0]] + b.drop_first());
        }
        lemma_bytes_total(a.drop_first(), b.drop_first());
    }
}

/// The order of texts is transitive.
pub proof fn lemma_before_transitive(a: Seq<char>, b: Seq<char>, c: Seq<char>)
    requires
        text_before(a, b),
        text_before(b, c),
    ensures
        text_before(a, c),
{
    lemma_bytes_transitive(encode_utf8(a), encode_utf8(b), encode_utf8(c));
}

/// No text comes before itself.
pub proof fn lemma_before_irreflexive(a: Seq<char>)
    ensures
        !text_before(a, a),
{
    lemma_bytes_irreflexive(encode_utf8(a));
}

/// Of two different texts exactly one comes before the other.
pub proof fn lemma_before_total(a: Seq<char>, b: Seq<char>)
    requires
        a != b,
    ensures
        text_before(a, b) != text_before(b, a),
{
    encode_utf8_decode_utf8(a);
    encode_utf8_decode_utf8(b);
    lemma_bytes_total(encode_utf8(a), encode_utf8(b));
    if text_before(a, b) && text_before(b, a) {
        lemma_before_transitive(a, b, a);
        lemma_before_irreflexive(a);
    }
}

/// A strictly ascending sequence of texts is determined by the texts that occur in it.
pub proof fn lemma_ascending_unique(a: Seq<Seq<char>>, b: Seq<Seq<char>>)
    requires
        ascending(a),
        ascending(b),
        a.to_set() == b.to_set(),
    ensures
        a == b,
    decreases a.len(),
{
    if a.len() == 0 || b.len() == 0 {
        assert(a.len() == 0 && b.len() == 0) by {
            if a.len() > 0 {
                assert(a.to_set().contains(a[0]));
                assert(b.to_set().contains(a[0]));
            }
            if b.len() > 0 {
                assert(b.to_set().contains(b[0]));
                assert(a.to_set().contains(b[0]));
            }
        }
        assert(a =~= b);
    } else {
        let x = a.last();
        let y = b.last();
        assert(x == y) by {
            assert(b.to_set().contains(x));
            assert(a.to_set().contains(y));
            let i = choose|i: int| 0 <= i < b.len() && b[i] == x;
            let j = choose|j: int| 0 <= j < a.len() && a[j] == y;
            if x != y {
                lemma_before_total(x, y);
                assert(i < b.len() - 1);
                assert(j < a.len() - 1);
                assert(text_before(b[i], b[b.len() - 1]));
                assert(text_before(a[j], a[a.len() - 1]));
            }
        }
        let p = a.drop_last();
        let q = b.drop_last();
        assert(p.to_set() =~= q.to_set()) by {
            assert forall|t: Seq<char>| p.to_set().contains(t) implies q.to_set().contains(t) by {
                let i = choose|i: int| 0 <= i < p.len() && p[i] == t;
                assert(a[i] == t);
                assert(text_before(a[i], a[a.len() - 1]));
                lemma_before_irreflexive(x);
                assert(a.to_set().contains(t));
                assert(b.to_set().contains(t));
                let k = choose|k: int| 0 <= k < b.len() && b[k] == t;
                assert(q[k] == t);
            }
            assert forall|t: Seq<char>| q.to_set().contains(t) implies p.to_set().contains(t) by {
                let i = choose|i: int| 0 <= i < q.len() && q[i] == t;
                assert(b[i] == t);
                assert(text_before(b[i], b[b.len() - 1]));
                lemma_before_irreflexive(x);
                assert(b.to_set().contains(t));
                assert(a.to_set().contains(t));
                let k = choose|k: int| 0 <= k < a.len() && a[k] == t;
                assert(p[k] == t);
            }
        }
        lemma_ascending_unique(p, q);
        assert(a =~= p.push(x));
        assert(b =~= q.push(y));
    }
}

proof fn lemma_bytes_common(a: Seq<u8>, b: Seq<u8>, i: int)
    requires
        0 <= i <= a.len(),
        i <= b.len(),
        a.take(i) == b.take(i),
    ensures
        bytes_before(a, b) == bytes_before(a.skip(i), b.skip(i)),
    decreases i,
{
    if i == 0 {
        assert(a.skip(0) =~= a);
        assert(b.skip(0) =~= b);
    } else {
        assert(a[0] == a.take(i)[0]);
        assert(b[0] == b.take(i)[0]);
        let x = a.drop_first();
        let y = b.drop_first();
        assert(x.take(i - 1) =~= a.take(i).drop_first());
        assert(y.take(i - 1) =~= b.take(i).drop_first());
        lemma_bytes_common(x, y, i - 1);
        assert(x.skip(i - 1) =~= a.skip(i));
        assert(y.skip(i - 1) =~= b.skip(i));
    }
}

/// Tells how text `a` stands to text `b`.
pub fn rank(a: &str, b: &str) -> (r: Rank)
    ensures
        r == Rank::Before <==> text_before(a@, b@),
        r == Rank::Same <==> a@ == b@,
        r == Rank::After <==> text_before(b@, a@),
{
    let x = a.as_bytes();
    let y = b.as_bytes();
    let n: usize = if x.len() < y.len() {
        x.len()
    } else {
        y.len()
    };
    let mut i: usize = 0;
    while i < n && x[i] == y[i]
        invariant
            n <= x@.len(),
            n <= y@.len(),
            i <= n,
            forall|j: int| 0 <= j < i ==> x@[j] == y@[j],
        decreases n - i,
    {
        i += 1;
    }
    proof {
        assert(x@.take(i as int) =~= y@.take(i as int));
        lemma_bytes_common(x@, y@, i as int);
        lemma_bytes_common(y@, x@, i as int);
        lemma_before_irreflexive(a@);
        if a@ != b@ {
            lemma_before_total(a@, b@);
        }
    }
    if i < n {
        if x[i] < y[i] {
            Rank::Before
        } else {
            Rank::After
        }
    } else if x.len() < y.len() {
        Rank::Before
    } else if y.len() < x.len() {
        Rank::After
    } else {
        proof {
            assert(x@ =~= y@);
            encode_utf8_decode_utf8(a@);
            encode_utf8_decode_utf8(b@);
        }
        Rank::Same
    }
}

/// Whether no text stands before one that comes before it.
pub open spec fn in_order(texts: Seq<Seq<char>>) -> bool {
    forall|i: int, j: int| 0 <= i < j < texts.len() ==> !text_before(texts[j], texts[i])
}

/// Different texts in order are in strictly ascending order.
pub proof fn lemma_in_order_distinct(texts: Seq<Seq<char>>)
    requires
        in_order(texts),
        texts.no_duplicates(),
    ensures
        ascending(texts),
{
    assert forall|i: int, j: int| 0 <= i < j < texts.len() implies text_before(
        texts[i],
        texts[j],
    ) by {
        lemma_before_total(texts[i], texts[j]);
    }
}

/// Sorts a list of texts.
pub fn sort_texts(v: &Vec<String>) -> (r: Vec<String>)
    ensures
        in_order(views(r@)),
        views(r@).to_multiset() == views(v@).to_multiset(),
{
    let mut r: Vec<String> = Vec::new();
    let mut n: usize = 0;
    assert(views(v@).take(0) =~= views(r@));
    while n < v.len()
        invariant
            n <= v@.len(),
            in_order(views(r@)),
            views(r@).to_multiset() == views(v@).take(n as int).to_multiset(),
        decreases v@.len() - n,
    {
        broadcast use vstd::seq_lib::group_to_multiset_ensures;

        let ghost ks = views(r@);
        let ghost t = v@[n as int]@;
        let mut i: usize = r.len();
        while i > 0 && rank(v[n].as_str(), r[i - 1].as_str()) == Rank::Before
            invariant
                n < v@.len(),
                t == v@[n as int]@,
                i <= r@.len(),
                ks == views(r@),
                forall|j: int| i <= j < ks.len() ==> text_before(t, #[trigger] ks[j]),
            decreases i,
        {
            i -= 1;
        }
        r.insert(i, v[n].clone());
        proof {
            let s = views(r@);
            assert(s =~= ks.insert(i as int, t));
            assert forall|a: int, b: int| 0 <= a < b < s.len() implies !text_before(s[b], s[a]) by {
                let x = if a < i {
                    a
                } else {
                    a - 1
                };
                let y = if b < i {
                    b
                } else {
                    b - 1
                };
                if a == i {
                    assert(s[b] == ks[y]);
                    assert(text_before(t, ks[y]));
                    if text_before(ks[y], t) {
                        lemma_before_transitive(t, ks[y], t);
                        lemma_before_irreflexive(t);
                    }
                } else if b == i {
                    assert(s[a] == ks[x]);
                    let l = ks[i - 1];
                    if text_before(t, ks[x]) && a < i - 1 {
                        assert(!text_before(l, ks[x]));
                        if l == ks[x] {
                        } else {
                            lemma_before_total(l, ks[x]);
                            lemma_before_transitive(t, ks[x], l);
                        }
                    }
                } else {
                    assert(s[a] == ks[x]);
                    assert(s[b] == ks[y]);
                }
            }
            let before = views(v@).take(n as int);
            assert(views(v@).take(n + 1) =~= before.push(t));
            assert(before.push(t).to_multiset() =~= before.to_multiset().insert(t));
            assert(ks.insert(i as int, t).to_multiset() =~= ks.to_multiset().insert(t));
        }
        n += 1;
    }
    assert(views(v@).take(n as int) =~= views(v@));
    r
}

/// Law: text comes before other text if its bytes do: at the first place where they differ it has the
/// smaller byte, or it ends there.
pub proof fn law_byte_order(a: Seq<u8>, b: Seq<u8>)
    ensures
        bytes_before(a, b) <==> exists|i: int|
            {
                &&& 0 <= i <= a.len()
                &&& i < b.len()
                &&& #[trigger] a.take(i) == b.take(i)
                &&& i == a.len() || a[i] < b[i]
            },
    decreases a.len(),
{
    if b.len() > 0 {
        assert(a.take(0) =~= b.take(0));
        if a.len() > 0 && a[0] == b[0] {
            let x = a.drop_first();
            let y = b.drop_first();
            law_byte_order(x, y);
            if bytes_before(x, y) {
                let i = choose|i: int|
                    {
                        &&& 0 <= i <= x.len()
                        &&& i < y.len()
                        &&& #[trigger] x.take(i) == y.take(i)
                        &&& i == x.len() || x[i] < y[i]
                    };
                assert(a.take(i + 1) =~= seq![a[0]] + x.take(i));
                assert(b.take(i + 1) =~= seq![b[0]] + y.take(i));
                assert(a.take(i + 1) == b.take(i + 1));
            }
            if exists|i: int|
                {
                    &&& 0 <= i <= a.len()
                    &&& i < b.len()
                    &&& #[trigger] a.take(i) == b.take(i)
                    &&& i == a.len() || a[i] < b[i]
                } {
                let i = choose|i: int|
                    {
                        &&& 0 <= i <= a.len()
                        &&& i < b.len()
                        &&& #[trigger] a.take(i) == b.take(i)
                        &&& i == a.len() || a[i] < b[i]
                    };
                assert(i > 0);
                assert(x.take(i - 1) =~= a.take(i).drop_first());
                assert(y.take(i - 1) =~= b.take(i).drop_first());
                assert(x.take(i - 1) == y.take(i - 1));
            }
        } else if a.len() > 0 && a[0] > b[0] {
            assert forall|i: int| 0 < i <= a.len() && i < b.len() implies #[trigger] a.take(i)
                != b.take(i) by {
                if a.take(i) == b.take(i) {
                    assert(a.take(i)[0] == b.take(i)[0]);
                }
            }
        }
    }
}

} // verus!
