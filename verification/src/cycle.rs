//! Cycles in a directed graph, and how a topological walk finds them.

use petgraph::graph::DiGraph;
use vstd::prelude::*;
use vstd::set_lib::*;

use crate::graph::arcs_within;
use crate::graph::graph_arcs;
use crate::graph::graph_labels;
use crate::graph::new_walk;
use crate::graph::next_in_walk;
use crate::graph::node_count;
use crate::graph::predecessors;
use crate::graph::successors;
use crate::graph::unlocked;
use crate::graph::walk_done;
use crate::graph::walk_pending;
use crate::graph::walk_size;
use crate::graph::walk_step;

verus! {

/// Whether the step from position `i` of the path to the next follows an arc.
pub open spec fn follows_arc(arcs: Seq<(int, int)>, path: Seq<int>, i: int) -> bool {
    arcs.contains((path[i], path[i + 1]))
}

/// Whether `path` goes along arcs and ends where it begins.
pub open spec fn is_cycle(arcs: Seq<(int, int)>, path: Seq<int>) -> bool {
    &&& path.len() >= 2
    &&& path[0] == path[path.len() - 1]
    &&& forall|i: int| 0 <= i < path.len() - 1 ==> #[trigger] follows_arc(arcs, path, i)
}

/// Whether there is a cycle among the arcs.
pub open spec fn cyclic(arcs: Seq<(int, int)>) -> bool {
    exists|path: Seq<int>| is_cycle(arcs, path)
}

/// The targets that `successors` lists are those that the arcs lead to.
pub proof fn lemma_successors(arcs: Seq<(int, int)>, n: int)
    ensures
        forall|m: int| #[trigger] successors(arcs, n).contains(m) <==> arcs.contains((n, m)),
    decreases arcs.len(),
{
    if arcs.len() > 0 {
        let rest = arcs.drop_last();
        let last = arcs.last();
        lemma_successors(rest, n);
        let s = successors(arcs, n);
        assert forall|m: int| #[trigger] s.contains(m) <==> arcs.contains((n, m)) by {
            if s.contains(m) {
                let i = s.index_of(m);
                if last.0 == n {
                    if i == 0 {
                        assert(arcs[arcs.len() - 1] == (n, m));
                    } else {
                        assert(successors(rest, n)[i - 1] == m);
                        assert(successors(rest, n).contains(m));
                        let j = rest.index_of((n, m));
                        assert(arcs[j] == (n, m));
                    }
                } else {
                    assert(successors(rest, n).contains(m));
                    let j = rest.index_of((n, m));
                    assert(arcs[j] == (n, m));
                }
            }
            if arcs.contains((n, m)) {
                let j = arcs.index_of((n, m));
                if j == arcs.len() - 1 {
                    assert(s[0] == m);
                } else {
                    assert(rest[j] == (n, m));
                    assert(rest.contains((n, m)));
                    assert(successors(rest, n).contains(m));
                    let i = successors(rest, n).index_of(m);
                    if last.0 == n {
                        assert(s[i + 1] == m);
                    } else {
                        assert(s[i] == m);
                    }
                }
            }
        }
    }
}

/// The sources that `predecessors` lists are those that the arcs come from.
pub proof fn lemma_predecessors(arcs: Seq<(int, int)>, n: int)
    ensures
        forall|m: int| #[trigger] predecessors(arcs, n).contains(m) <==> arcs.contains((m, n)),
    decreases arcs.len(),
{
    if arcs.len() > 0 {
        let rest = arcs.drop_last();
        let last = arcs.last();
        lemma_predecessors(rest, n);
        let s = predecessors(arcs, n);
        assert forall|m: int| #[trigger] s.contains(m) <==> arcs.contains((m, n)) by {
            if s.contains(m) {
                let i = s.index_of(m);
                if last.1 == n {
                    if i == 0 {
                        assert(arcs[arcs.len() - 1] == (m, n));
                    } else {
                        assert(predecessors(rest, n)[i - 1] == m);
                        assert(predecessors(rest, n).contains(m));
                        let j = rest.index_of((m, n));
                        assert(arcs[j] == (m, n));
                    }
                } else {
                    assert(predecessors(rest, n).contains(m));
                    let j = rest.index_of((m, n));
                    assert(arcs[j] == (m, n));
                }
            }
            if arcs.contains((m, n)) {
                let j = arcs.index_of((m, n));
                if j == arcs.len() - 1 {
                    assert(s[0] == m);
                } else {
                    assert(rest[j] == (m, n));
                    assert(rest.contains((m, n)));
                    assert(predecessors(rest, n).contains(m));
                    let i = predecessors(rest, n).index_of(m);
                    if last.1 == n {
                        assert(s[i + 1] == m);
                    } else {
                        assert(s[i] == m);
                    }
                }
            }
        }
    }
}

/// Whether `order` lists every node after all of its predecessors.
pub open spec fn topological(arcs: Seq<(int, int)>, order: Seq<int>) -> bool {
    forall|i: int, p: int|
        0 <= i < order.len() && arcs.contains((p, #[trigger] order[i])) ==> #[trigger] order.take(
            i,
        ).contains(p)
}

proof fn lemma_position_grows(arcs: Seq<(int, int)>, order: Seq<int>, path: Seq<int>, k: int)
    requires
        topological(arcs, order),
        order.no_duplicates(),
        path.len() >= 2,
        forall|i: int| 0 <= i < path.len() - 1 ==> #[trigger] follows_arc(arcs, path, i),
        order.contains(path[path.len() - 1]),
        0 <= k < path.len() - 1,
    ensures
        order.contains(path[k]),
        order.index_of(path[k]) < order.index_of(path[path.len() - 1]),
    decreases path.len() - k,
{
    let last = path.len() - 1;
    assert(follows_arc(arcs, path, k));
    if k + 1 < last {
        lemma_position_grows(arcs, order, path, k + 1);
    }
    let j = order.index_of(path[k + 1]);
    assert(order[j] == path[k + 1]);
    assert(arcs.contains((path[k], order[j])));
    assert(order.take(j).contains(path[k]));
    let i = order.take(j).index_of(path[k]);
    assert(order[i] == path[k]);
    assert(order.index_of(path[k]) == i);
}

/// Where every node can be listed after its predecessors, there is no cycle.
proof fn lemma_listed_acyclic(arcs: Seq<(int, int)>, order: Seq<int>)
    requires
        topological(arcs, order),
        order.no_duplicates(),
        forall|p: int, n: int| arcs.contains((p, n)) ==> order.contains(n),
    ensures
        !cyclic(arcs),
{
    if cyclic(arcs) {
        let path = choose|path: Seq<int>| is_cycle(arcs, path);
        assert(follows_arc(arcs, path, path.len() - 2));
        lemma_position_grows(arcs, order, path, 0);
    }
}

/// Whether every node of `stuck` has a predecessor in `stuck`.
#[verifier::opaque]
pub open spec fn waits_on_itself(arcs: Seq<(int, int)>, stuck: Set<int>) -> bool {
    forall|n: int| #[trigger]
        stuck.contains(n) ==> exists|p: int|
            stuck.contains(p) && #[trigger] arcs.contains((p, n))
}

/// A path of `k` steps within `stuck` that ends in `n`.
spec fn path_back(arcs: Seq<(int, int)>, stuck: Set<int>, n: int, k: nat) -> Seq<int>
    decreases k,
{
    if k == 0 {
        seq![n]
    } else {
        let path = path_back(arcs, stuck, n, (k - 1) as nat);
        let p = choose|p: int| stuck.contains(p) && #[trigger] arcs.contains((p, path[0]));
        seq![p] + path
    }
}

proof fn lemma_path_back(arcs: Seq<(int, int)>, stuck: Set<int>, n: int, k: nat)
    requires
        waits_on_itself(arcs, stuck),
        stuck.contains(n),
    ensures
        path_back(arcs, stuck, n, k).len() == k + 1,
        forall|i: int| 0 <= i <= k ==> stuck.contains(#[trigger] path_back(arcs, stuck, n, k)[i]),
        forall|i: int| 0 <= i < k ==> #[trigger] follows_arc(arcs, path_back(arcs, stuck, n, k), i),
    decreases k,
{
    reveal(waits_on_itself);
    if k > 0 {
        let rest = path_back(arcs, stuck, n, (k - 1) as nat);
        lemma_path_back(arcs, stuck, n, (k - 1) as nat);
        assert(stuck.contains(rest[0]));
        let p = choose|p: int| stuck.contains(p) && #[trigger] arcs.contains((p, rest[0]));
        let path = seq![p] + rest;
        assert(path == path_back(arcs, stuck, n, k));
        assert forall|i: int| 0 <= i <= k implies stuck.contains(#[trigger] path[i]) by {
            if i > 0 {
                assert(path[i] == rest[i - 1]);
            }
        }
        assert forall|i: int| 0 <= i < k implies #[trigger] follows_arc(arcs, path, i) by {
            if i > 0 {
                assert(follows_arc(arcs, rest, i - 1));
                assert(path[i] == rest[i - 1]);
                assert(path[i + 1] == rest[i]);
            } else {
                assert(path[1] == rest[0]);
            }
        }
    }
}

/// Nodes that wait on one another contain a cycle.
pub proof fn lemma_stuck_cyclic(arcs: Seq<(int, int)>, stuck: Set<int>, n: int, count: nat)
    requires
        waits_on_itself(arcs, stuck),
        stuck.contains(n),
        forall|m: int| #[trigger] stuck.contains(m) ==> 0 <= m < count,
    ensures
        cyclic(arcs),
{
    let path = path_back(arcs, stuck, n, count);
    lemma_path_back(arcs, stuck, n, count);
    if path.no_duplicates() {
        path.unique_seq_to_set();
        lemma_int_range(0, count as int);
        assert(path.to_set().subset_of(set_int_range(0, count as int)));
        lemma_len_subset(path.to_set(), set_int_range(0, count as int));
    }
    let (i, j) = choose|i: int, j: int|
        0 <= i < path.len() && 0 <= j < path.len() && i != j && path[i] == path[j];
    let (a, b) = if i < j {
        (i, j)
    } else {
        (j, i)
    };
    let ring = path.subrange(a, b + 1);
    assert forall|k: int| 0 <= k < ring.len() - 1 implies #[trigger] follows_arc(arcs, ring, k) by {
        assert(follows_arc(arcs, path, a + k));
    }
    assert(is_cycle(arcs, ring));
}

/// What a filtered sequence holds.
proof fn lemma_filter(s: Seq<int>, p: spec_fn(int) -> bool)
    ensures
        forall|m: int| #[trigger] s.filter(p).contains(m) <==> s.contains(m) && p(m),
{
    assert forall|m: int| #[trigger] s.filter(p).contains(m) <==> s.contains(m) && p(m) by {
        if s.filter(p).contains(m) {
            let i = s.filter(p).index_of(m);
            s.lemma_filter_pred(p, i);
            s.lemma_filter_contains_rev(p, m);
        }
        if s.contains(m) && p(m) {
            let i = s.index_of(m);
            s.lemma_filter_contains(p, i);
        }
    }
}

/// A step of the walk keeps what stands on its stack unlocked, and all that is unlocked on its
/// stack.
proof fn lemma_walk_step(
    arcs: Seq<(int, int)>,
    pending: Seq<int>,
    done: Set<int>,
    n: int,
    after: Seq<int>,
    count: nat,
)
    requires
        arcs_within(arcs, count),
        exists|k: int| walk_step(pending, done, arcs, n, k, after),
        forall|i: int| 0 <= i < pending.len() ==> 0 <= #[trigger] pending[i] < count,
        forall|i: int| 0 <= i < pending.len() ==> unlocked(arcs, done, #[trigger] pending[i]),
        forall|m: int|
            0 <= m < count && !done.contains(m) && #[trigger] unlocked(arcs, done, m)
                ==> pending.contains(m),
    ensures
        0 <= n < count,
        unlocked(arcs, done, n),
        forall|i: int| 0 <= i < after.len() ==> 0 <= #[trigger] after[i] < count,
        forall|i: int|
            0 <= i < after.len() ==> unlocked(arcs, done.insert(n), #[trigger] after[i]),
        forall|m: int|
            0 <= m < count && !done.insert(n).contains(m) && #[trigger] unlocked(
                arcs,
                done.insert(n),
                m,
            ) ==> after.contains(m),
{
    let k = choose|k: int| walk_step(pending, done, arcs, n, k, after);
    let more = done.insert(n);
    let p = |m: int| unlocked(arcs, more, m);
    let fresh = successors(arcs, n).filter(p);
    assert(after == pending.take(k) + fresh);
    lemma_filter(successors(arcs, n), p);
    lemma_successors(arcs, n);
    assert forall|i: int| 0 <= i < after.len() implies 0 <= #[trigger] after[i] < count && unlocked(
        arcs,
        more,
        after[i],
    ) by {
        if i < k {
            assert(after[i] == pending[i]);
            assert(unlocked(arcs, done, pending[i]));
        } else {
            assert(after[i] == fresh[i - k]);
            assert(fresh.contains(after[i]));
            assert(arcs.contains((n, after[i])));
            let a = arcs.index_of((n, after[i]));
            assert(arcs[a].1 == after[i]);
            assert(p(after[i]));
        }
    }
    assert forall|m: int|
        0 <= m < count && !more.contains(m) && #[trigger] unlocked(arcs, more, m) implies after.contains(
        m,
    ) by {
        if unlocked(arcs, done, m) {
            assert(pending.contains(m));
            let i = pending.index_of(m);
            assert(i < k);
            assert(after[i] == m);
        } else {
            let q = choose|q: int| #[trigger] arcs.contains((q, m)) && !done.contains(q);
            assert(q == n);
            assert(successors(arcs, n).contains(m));
            assert(p(m));
            assert(fresh.contains(m));
            let i = fresh.index_of(m);
            assert(after[k + i] == m);
        }
    }
}

proof fn lemma_order_push(arcs: Seq<(int, int)>, order: Seq<int>, done: Set<int>, n: int)
    requires
        topological(arcs, order),
        order.no_duplicates(),
        order.to_set() == done,
        !done.contains(n),
        unlocked(arcs, done, n),
    ensures
        topological(arcs, order.push(n)),
        order.push(n).no_duplicates(),
        order.push(n).to_set() == done.insert(n),
{
    let more = order.push(n);
    assert(!order.contains(n)) by {
        if order.contains(n) {
            assert(order.to_set().contains(n));
        }
    }
    assert forall|i: int, p: int|
        0 <= i < more.len() && arcs.contains((p, #[trigger] more[i])) implies #[trigger] more.take(
        i,
    ).contains(p) by {
        if i < order.len() {
            assert(more.take(i) =~= order.take(i));
            assert(more[i] == order[i]);
            assert(order.take(i).contains(p));
        } else {
            assert(more.take(i) =~= order);
            assert(done.contains(p));
            assert(order.to_set().contains(p));
        }
    }
    assert(more.to_set() =~= done.insert(n)) by {
        assert forall|m: int| done.insert(n).contains(m) implies more.to_set().contains(m) by {
            if m == n {
                assert(more[order.len() as int] == n);
            } else {
                assert(order.to_set().contains(m));
                let i = order.index_of(m);
                assert(more[i] == m);
            }
        }
        assert forall|m: int| more.to_set().contains(m) implies done.insert(n).contains(m) by {
            let i = more.index_of(m);
            if i < order.len() {
                assert(order[i] == m);
                assert(order.to_set().contains(m));
            }
        }
    }
}

proof fn lemma_order_bounded(order: Seq<int>, count: nat)
    requires
        order.no_duplicates(),
        forall|i: int| 0 <= i < order.len() ==> 0 <= #[trigger] order[i] < count,
    ensures
        order.len() <= count,
{
    order.unique_seq_to_set();
    lemma_int_range(0, count as int);
    assert(order.to_set().subset_of(set_int_range(0, count as int)));
    lemma_len_subset(order.to_set(), set_int_range(0, count as int));
}

proof fn lemma_order_complete(order: Seq<int>, count: nat)
    requires
        order.no_duplicates(),
        forall|i: int| 0 <= i < order.len() ==> 0 <= #[trigger] order[i] < count,
        order.len() == count,
    ensures
        forall|n: int| 0 <= n < count ==> #[trigger] order.contains(n),
{
    order.unique_seq_to_set();
    lemma_int_range(0, count as int);
    assert(order.to_set().subset_of(set_int_range(0, count as int)));
    lemma_subset_equality(order.to_set(), set_int_range(0, count as int));
    assert forall|n: int| 0 <= n < count implies #[trigger] order.contains(n) by {
        assert(set_int_range(0, count as int).contains(n));
    }
}

proof fn lemma_order_incomplete(order: Seq<int>, count: nat)
    requires
        order.no_duplicates(),
        forall|i: int| 0 <= i < order.len() ==> 0 <= #[trigger] order[i] < count,
        order.len() != count,
    ensures
        exists|n: int| 0 <= n < count && !#[trigger] order.contains(n),
{
    if forall|n: int| 0 <= n < count ==> #[trigger] order.contains(n) {
        lemma_int_range(0, count as int);
        order.unique_seq_to_set();
        assert(order.to_set() =~= set_int_range(0, count as int)) by {
            assert forall|n: int| order.to_set().contains(n) implies set_int_range(
                0,
                count as int,
            ).contains(n) by {
                let i = order.index_of(n);
                assert(order[i] == n);
            }
        }
    }
}

/// Tells whether the graph has a cycle: a topological walk then leaves nodes out.
pub(crate) fn has_cycle(graph: &DiGraph<String, ()>) -> (r: bool)
    requires
        arcs_within(graph_arcs(*graph), graph_labels(*graph).len()),
    ensures
        r == cyclic(graph_arcs(*graph)),
{
    let ghost arcs = graph_arcs(*graph);
    let ghost total = graph_labels(*graph).len();
    let mut walk = new_walk(graph);
    let mut count: usize = 0;
    let ghost mut order: Seq<int> = Seq::empty();
    let nodes: usize = node_count(graph);
    proof {
        let all = Seq::new(total, |i: int| i);
        let pred = |n: int| predecessors(arcs, n).len() == 0;
        lemma_filter(all, pred);
        assert forall|n: int| 0 <= n < total && unlocked(arcs, Set::empty(), n) implies walk_pending(
            walk,
        ).contains(n) by {
            lemma_predecessors(arcs, n);
            if predecessors(arcs, n).len() > 0 {
                assert(predecessors(arcs, n).contains(predecessors(arcs, n)[0]));
            }
            assert(all[n] == n);
            assert(all.contains(n));
            assert(pred(n));
        }
        assert forall|i: int| 0 <= i < walk_pending(walk).len() implies 0
            <= #[trigger] walk_pending(walk)[i] < total by {
            assert(walk_pending(walk).contains(walk_pending(walk)[i]));
        }
        assert forall|i: int| 0 <= i < walk_pending(walk).len() implies unlocked(
            arcs,
            Set::empty(),
            #[trigger] walk_pending(walk)[i],
        ) by {
            let n = walk_pending(walk)[i];
            lemma_predecessors(arcs, n);
            assert(walk_pending(walk).contains(n));
            assert(pred(n));
            assert forall|p: int| #[trigger] arcs.contains((p, n)) implies false by {
                assert(predecessors(arcs, n).contains(p));
            }
        }
        lemma_int_range(0, total as int);
        assert(order.to_set() =~= walk_done(walk));
    }
    loop
        invariant_except_break
            forall|n: int|
                0 <= n < total && !walk_done(walk).contains(n) && #[trigger] unlocked(
                    arcs,
                    walk_done(walk),
                    n,
                ) ==> walk_pending(walk).contains(n),
        invariant
            arcs == graph_arcs(*graph),
            total == graph_labels(*graph).len(),
            nodes == total,
            arcs_within(arcs, total),
            walk_size(walk) == total,
            count == order.len(),
            order.no_duplicates(),
            order.to_set() == walk_done(walk),
            topological(arcs, order),
            forall|i: int| 0 <= i < order.len() ==> 0 <= #[trigger] order[i] < total,
            forall|i: int|
                0 <= i < walk_pending(walk).len() ==> 0 <= #[trigger] walk_pending(walk)[i]
                    < total,
            forall|i: int|
                0 <= i < walk_pending(walk).len() ==> unlocked(
                    arcs,
                    walk_done(walk),
                    #[trigger] walk_pending(walk)[i],
                ),
        ensures
            forall|n: int|
                0 <= n < total && #[trigger] unlocked(arcs, walk_done(walk), n) ==> walk_done(
                    walk,
                ).contains(n),
        decreases total - order.len(),
    {
        let ghost pending = walk_pending(walk);
        let ghost done = walk_done(walk);
        proof {
            lemma_order_bounded(order, total);
        }
        match next_in_walk(&mut walk, graph) {
            None => {
                break;
            },
            Some(n) => {
                proof {
                    lemma_walk_step(arcs, pending, done, n as int, walk_pending(walk), total);
                    lemma_order_push(arcs, order, done, n as int);
                    order = order.push(n as int);
                    lemma_order_bounded(order, total);
                }
                count += 1;
            },
        }
    }
    proof {
        let done = walk_done(walk);
        if count == nodes {
            lemma_order_complete(order, total);
            assert forall|p: int, n: int| arcs.contains((p, n)) implies order.contains(n) by {
                let i = arcs.index_of((p, n));
                assert(arcs[i] == (p, n));
            }
            lemma_listed_acyclic(arcs, order);
        } else {
            let stuck = set_int_range(0, total as int).difference(done);
            lemma_order_incomplete(order, total);
            let n = choose|n: int| 0 <= n < total && !order.contains(n);
            assert(stuck.contains(n));
            assert forall|m: int| #[trigger] stuck.contains(m) implies exists|p: int|
                stuck.contains(p) && #[trigger] arcs.contains((p, m)) by {
                assert(!unlocked(arcs, done, m));
                let p = choose|p: int| #[trigger] arcs.contains((p, m)) && !done.contains(p);
                let i = arcs.index_of((p, m));
                assert(arcs[i] == (p, m));
                assert(stuck.contains(p));
            }
            reveal(waits_on_itself);
            lemma_stuck_cyclic(arcs, stuck, n, total);
        }
    }
    count != nodes
}

} // verus!
