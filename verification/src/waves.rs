//! The waves of a dependency graph: each holds the nodes whose predecessors all lie in earlier
//! waves.

use petgraph::graph::DiGraph;
use vstd::prelude::*;
use vstd::set_lib::*;

use crate::cycle::cyclic;
use crate::cycle::lemma_stuck_cyclic;
use crate::cycle::waits_on_itself;
use crate::graph::arcs_within;
use crate::graph::graph_arcs;
use crate::graph::graph_labels;
use crate::graph::neighbors;
use crate::graph::node_count;
use crate::graph::predecessors;
use crate::graph::successors;
use crate::graph::unlocked;
use crate::graph::Along;

verus! {

/// The nodes of the first `k` waves.
pub open spec fn settled(arcs: Seq<(int, int)>, count: nat, k: nat) -> Set<int>
    decreases k,
{
    if k == 0 {
        Set::empty()
    } else {
        Set::new(
            |n: int| 0 <= n < count && unlocked(arcs, settled(arcs, count, (k - 1) as nat), n),
        )
    }
}

/// The nodes of wave `k`.
pub open spec fn wave(arcs: Seq<(int, int)>, count: nat, k: nat) -> Set<int> {
    settled(arcs, count, k + 1).difference(settled(arcs, count, k))
}

/// The waves grow out of one another.
pub proof fn lemma_settled_grows(arcs: Seq<(int, int)>, count: nat, k: nat)
    ensures
        settled(arcs, count, k).subset_of(settled(arcs, count, k + 1)),
    decreases k,
{
    if k > 0 {
        lemma_settled_grows(arcs, count, (k - 1) as nat);
        let a = settled(arcs, count, (k - 1) as nat);
        let b = settled(arcs, count, k);
        assert forall|n: int| b.contains(n) implies settled(arcs, count, k + 1).contains(n) by {
            assert(unlocked(arcs, a, n));
            assert(unlocked(arcs, b, n));
        }
    }
}

/// The nodes of earlier waves are among those of later ones.
pub proof fn lemma_settled_monotone(arcs: Seq<(int, int)>, count: nat, j: nat, k: nat)
    requires
        j <= k,
    ensures
        settled(arcs, count, j).subset_of(settled(arcs, count, k)),
    decreases k - j,
{
    if j < k {
        lemma_settled_monotone(arcs, count, j, (k - 1) as nat);
        lemma_settled_grows(arcs, count, (k - 1) as nat);
    }
}

/// What the waves hold.
pub proof fn lemma_wave(arcs: Seq<(int, int)>, count: nat, k: nat, n: int)
    ensures
        wave(arcs, count, k).contains(n) <==> {
            &&& 0 <= n < count
            &&& !settled(arcs, count, k).contains(n)
            &&& unlocked(arcs, settled(arcs, count, k), n)
        },
        settled(arcs, count, k).contains(n) ==> 0 <= n < count,
{
}

/// Without a cycle, all nodes are settled where the next wave is empty.
pub proof fn lemma_settled_all(arcs: Seq<(int, int)>, count: nat, k: nat, n: int)
    requires
        arcs_within(arcs, count),
        !cyclic(arcs),
        forall|m: int| !#[trigger] wave(arcs, count, k).contains(m),
        0 <= n < count,
    ensures
        settled(arcs, count, k).contains(n),
{
    let done = settled(arcs, count, k);
    let stuck = Set::new(|m: int| 0 <= m < count && !done.contains(m));
    if stuck.contains(n) {
        assert(waits_on_itself(arcs, stuck)) by {
            reveal(waits_on_itself);
            assert forall|m: int| #[trigger] stuck.contains(m) implies exists|p: int|
                stuck.contains(p) && #[trigger] arcs.contains((p, m)) by {
                lemma_wave(arcs, count, k, m);
                assert(!wave(arcs, count, k).contains(m));
                assert(!unlocked(arcs, done, m));
                let p = choose|p: int| #[trigger] arcs.contains((p, m)) && !done.contains(p);
                let i = arcs.index_of((p, m));
                assert(arcs[i] == (p, m));
                assert(stuck.contains(p));
            }
        }
        lemma_stuck_cyclic(arcs, stuck, n, count);
    }
}

/// The number of arcs into `n` from outside `done`.
spec fn waiting(arcs: Seq<(int, int)>, done: Set<int>, n: int) -> nat
    decreases arcs.len(),
{
    if arcs.len() == 0 {
        0
    } else {
        waiting(arcs.drop_last(), done, n) + if arcs.last().1 == n && !done.contains(
            arcs.last().0,
        ) {
            1nat
        } else {
            0
        }
    }
}

/// How often `n` occurs in `s`.
spec fn occurrences(s: Seq<int>, n: int) -> nat
    decreases s.len(),
{
    if s.len() == 0 {
        0
    } else {
        occurrences(s.drop_first(), n) + if s[0] == n {
            1nat
        } else {
            0
        }
    }
}

proof fn lemma_waiting_zero(arcs: Seq<(int, int)>, done: Set<int>, n: int)
    ensures
        waiting(arcs, done, n) == 0 <==> unlocked(arcs, done, n),
    decreases arcs.len(),
{
    if arcs.len() > 0 {
        let rest = arcs.drop_last();
        lemma_waiting_zero(rest, done, n);
        if unlocked(arcs, done, n) {
            assert forall|p: int| #[trigger] rest.contains((p, n)) implies done.contains(p) by {
                let i = rest.index_of((p, n));
                assert(arcs[i] == (p, n));
                assert(arcs.contains((p, n)));
            }
            assert(arcs.contains((arcs.last().0, arcs.last().1)));
        }
        if waiting(arcs, done, n) == 0 {
            assert forall|p: int| #[trigger] arcs.contains((p, n)) implies done.contains(p) by {
                let i = arcs.index_of((p, n));
                if i < rest.len() {
                    assert(rest[i] == (p, n));
                    assert(rest.contains((p, n)));
                }
            }
        }
    }
}

proof fn lemma_waiting_insert(arcs: Seq<(int, int)>, done: Set<int>, p: int, n: int)
    requires
        !done.contains(p),
    ensures
        waiting(arcs, done, n) == waiting(arcs, done.insert(p), n) + occurrences(
            successors(arcs, p),
            n,
        ),
    decreases arcs.len(),
{
    if arcs.len() > 0 {
        let rest = arcs.drop_last();
        lemma_waiting_insert(rest, done, p, n);
        if arcs.last().0 == p {
            assert(successors(arcs, p).drop_first() =~= successors(rest, p));
        }
    }
}

proof fn lemma_waiting_initial(arcs: Seq<(int, int)>, n: int)
    ensures
        waiting(arcs, Set::empty(), n) == predecessors(arcs, n).len(),
    decreases arcs.len(),
{
    if arcs.len() > 0 {
        lemma_waiting_initial(arcs.drop_last(), n);
    }
}

/// The number of arcs into each node.
fn indegrees(graph: &DiGraph<String, ()>) -> (r: Vec<usize>)
    ensures
        r@.len() == graph_labels(*graph).len(),
        forall|n: int|
            0 <= n < r@.len() ==> #[trigger] r@[n] == waiting(
                graph_arcs(*graph),
                Set::empty(),
                n,
            ),
{
    let count: usize = node_count(graph);
    let mut r: Vec<usize> = Vec::new();
    let mut i: usize = 0;
    while i < count
        invariant
            i <= count,
            count == graph_labels(*graph).len(),
            r@.len() == i,
            forall|n: int|
                0 <= n < i ==> #[trigger] r@[n] == waiting(graph_arcs(*graph), Set::empty(), n),
        decreases count - i,
    {
        let incoming = neighbors(graph, i, Along::Incoming);
        proof {
            lemma_waiting_initial(graph_arcs(*graph), i as int);
            assert(incoming@.map_values(|m: usize| m as int).len() == incoming@.len());
        }
        r.push(incoming.len());
        i += 1;
    }
    r
}

/// Whether `ready` lists the nodes that are unlocked by `done` but were not by `earlier`.
spec fn lists_unlocked(
    arcs: Seq<(int, int)>,
    count: nat,
    indegree: Seq<usize>,
    earlier: Set<int>,
    ready: Seq<usize>,
) -> bool {
    &&& ready.no_duplicates()
    &&& forall|i: int| 0 <= i < ready.len() ==> (#[trigger] ready[i]) < count
    &&& forall|n: int|
        0 <= n < count ==> ((#[trigger] indegree[n] == 0 && waiting(arcs, earlier, n) > 0)
            <==> ready.contains(n as usize))
}

/// Takes the arcs out of `n` off the indegrees of its successors, and appends those that reach
/// zero to `ready`.
fn release(
    graph: &DiGraph<String, ()>,
    n: usize,
    indegree: &mut Vec<usize>,
    ready: &mut Vec<usize>,
    Ghost(done): Ghost<Set<int>>,
    Ghost(earlier): Ghost<Set<int>>,
)
    requires
        n < graph_labels(*graph).len(),
        graph_labels(*graph).len() <= usize::MAX,
        arcs_within(graph_arcs(*graph), graph_labels(*graph).len()),
        !done.contains(n as int),
        old(indegree)@.len() == graph_labels(*graph).len(),
        forall|m: int|
            0 <= m < old(indegree)@.len() ==> #[trigger] old(indegree)@[m] == waiting(
                graph_arcs(*graph),
                done,
                m,
            ),
        lists_unlocked(
            graph_arcs(*graph),
            graph_labels(*graph).len(),
            old(indegree)@,
            earlier,
            old(ready)@,
        ),
        earlier.subset_of(done),
    ensures
        final(indegree)@.len() == graph_labels(*graph).len(),
        forall|m: int|
            0 <= m < final(indegree)@.len() ==> #[trigger] final(indegree)@[m] == waiting(
                graph_arcs(*graph),
                done.insert(n as int),
                m,
            ),
        lists_unlocked(
            graph_arcs(*graph),
            graph_labels(*graph).len(),
            final(indegree)@,
            earlier,
            final(ready)@,
        ),
{
    let succs = neighbors(graph, n, Along::Outgoing);
    let ghost arcs = graph_arcs(*graph);
    let ghost count = graph_labels(*graph).len();
    let ghost targets = successors(arcs, n as int);
    let ghost more = done.insert(n as int);
    let mut j: usize = 0;
    proof {
        assert(targets.skip(0) =~= targets);
        assert forall|m: int| 0 <= m < indegree@.len() implies #[trigger] indegree@[m] == waiting(
            arcs,
            more,
            m,
        ) + occurrences(targets.skip(0), m) by {
            lemma_waiting_insert(arcs, done, n as int, m);
        }
    }
    while j < succs.len()
        invariant
            j <= succs@.len(),
            arcs == graph_arcs(*graph),
            count == graph_labels(*graph).len(),
            count <= usize::MAX,
            arcs_within(arcs, count),
            targets == successors(arcs, n as int),
            succs@.map_values(|m: usize| m as int) == targets,
            indegree@.len() == count,
            more == done.insert(n as int),
            !earlier.contains(n as int),
            forall|m: int|
                0 <= m < indegree@.len() ==> #[trigger] indegree@[m] == waiting(arcs, more, m)
                    + occurrences(targets.skip(j as int), m),
            lists_unlocked(arcs, count, indegree@, earlier, ready@),
        decreases succs@.len() - j,
    {
        let s: usize = succs[j];
        let ghost left = targets.skip(j as int);
        proof {
            assert(succs@.map_values(|m: usize| m as int)[j as int] == s);
            assert(left[0] == s as int);
            assert(left.drop_first() =~= targets.skip(j + 1));
            crate::cycle::lemma_successors(arcs, n as int);
            assert(targets.contains(targets[j as int]));
            let a = arcs.index_of((n as int, s as int));
            assert(arcs[a].1 == s);
        }
        let d: usize = indegree[s] - 1;
        let ghost old_ready = ready@;
        let ghost old_degrees = indegree@;
        proof {
            assert(old_degrees[s as int] > 0);
            assert(!old_ready.contains(s));
        }
        indegree.set(s, d);
        if d == 0 {
            ready.push(s);
            proof {
                assert(ready@[old_ready.len() as int] == s);
                assert forall|m: int| 0 <= m < count implies ((#[trigger] indegree@[m] == 0
                    && waiting(arcs, earlier, m) > 0) <==> ready@.contains(m as usize)) by {
                    if m == s {
                        assert(waiting(arcs, earlier, m) > 0) by {
                            lemma_waiting_zero(arcs, earlier, m);
                            assert(arcs.contains((n as int, m)));
                        }
                    } else {
                        assert(indegree@[m] == old_degrees[m]);
                        assert(ready@.contains(m as usize) <==> old_ready.contains(m as usize)) by {
                            if old_ready.contains(m as usize) {
                                let i = old_ready.index_of(m as usize);
                                assert(ready@[i] == m as usize);
                            }
                            if ready@.contains(m as usize) {
                                let i = ready@.index_of(m as usize);
                                assert(old_ready[i] == m as usize);
                            }
                        }
                    }
                }
            }
        } else {
            proof {
                assert forall|m: int| 0 <= m < count implies ((#[trigger] indegree@[m] == 0
                    && waiting(arcs, earlier, m) > 0) <==> ready@.contains(m as usize)) by {
                    if m != s {
                        assert(indegree@[m] == old_degrees[m]);
                    }
                }
            }
        }
        j += 1;
    }
    proof {
        assert(targets.skip(j as int).len() == 0);
    }
}

/// The waves of a graph without cycles, each as a list of its nodes.
pub(crate) fn waves_of(graph: &DiGraph<String, ()>) -> (r: Vec<Vec<usize>>)
    requires
        arcs_within(graph_arcs(*graph), graph_labels(*graph).len()),
    ensures
        forall|k: int|
            0 <= k < r@.len() ==> {
                &&& (#[trigger] r@[k])@.len() > 0
                &&& lists(r@[k]@, wave(graph_arcs(*graph), graph_labels(*graph).len(), k as nat))
            },
        wave(graph_arcs(*graph), graph_labels(*graph).len(), r@.len()) == Set::<int>::empty(),
{
    let ghost arcs = graph_arcs(*graph);
    let count: usize = node_count(graph);
    let mut indegree = indegrees(graph);
    let mut ready: Vec<usize> = Vec::new();
    let mut i: usize = 0;
    while i < count
        invariant
            i <= count,
            count == indegree@.len(),
            ready@.no_duplicates(),
            forall|j: int| 0 <= j < ready@.len() ==> (#[trigger] ready@[j]) < i,
            forall|n: int|
                0 <= n < i ==> (#[trigger] indegree@[n] == 0 <==> ready@.contains(n as usize)),
        decreases count - i,
    {
        let ghost before = ready@;
        if indegree[i] == 0 {
            ready.push(i);
            proof {
                assert(ready@[before.len() as int] == i);
                assert forall|n: int| 0 <= n < i implies (#[trigger] indegree@[n] == 0
                    <==> ready@.contains(n as usize)) by {
                    if ready@.contains(n as usize) {
                        let j = ready@.index_of(n as usize);
                        assert(before[j] == n as usize);
                    }
                    if before.contains(n as usize) {
                        let j = before.index_of(n as usize);
                        assert(ready@[j] == n as usize);
                    }
                }
            }
        }
        i += 1;
    }
    let mut waves: Vec<Vec<usize>> = Vec::new();
    proof {
        assert forall|n: int| 0 <= n < count implies (#[trigger] wave(arcs, count as nat, 0).contains(n)
            <==> ready@.contains(n as usize)) by {
            lemma_waiting_zero(arcs, Set::empty(), n);
            assert(indegree@[n] == waiting(arcs, Set::empty(), n));
        }
        lemma_lists(ready@, wave(arcs, count as nat, 0), count as nat);
    }
    while ready.len() > 0
        invariant
            arcs == graph_arcs(*graph),
            count == graph_labels(*graph).len(),
            arcs_within(arcs, count as nat),
            indegree@.len() == count,
            lists(ready@, wave(arcs, count as nat, waves@.len())),
            forall|k: int|
                0 <= k < waves@.len() ==> {
                    &&& (#[trigger] waves@[k])@.len() > 0
                    &&& lists(waves@[k]@, wave(arcs, count as nat, k as nat))
                },
            forall|n: int|
                0 <= n < count ==> #[trigger] indegree@[n] == waiting(
                    arcs,
                    settled(arcs, count as nat, waves@.len()),
                    n,
                ),
        decreases count - settled(arcs, count as nat, waves@.len()).len(),
    {
        let ghost k = waves@.len();
        let ghost earlier = settled(arcs, count as nat, k);
        let ghost now = wave(arcs, count as nat, k);
        let mut next: Vec<usize> = Vec::new();
        let mut j: usize = 0;
        proof {
            lemma_settled_grows(arcs, count as nat, k);
            assert(taken(earlier, ready@, 0) =~= earlier);
            assert forall|n: int| 0 <= n < count implies ((#[trigger] indegree@[n] == 0 && waiting(
                arcs,
                earlier,
                n,
            ) > 0) <==> next@.contains(n as usize)) by {}
        }
        while j < ready.len()
            invariant
                j <= ready@.len(),
                arcs == graph_arcs(*graph),
                count == graph_labels(*graph).len(),
                arcs_within(arcs, count as nat),
                indegree@.len() == count,
                earlier == settled(arcs, count as nat, k),
                now == wave(arcs, count as nat, k),
                lists(ready@, now),
                forall|n: int|
                    0 <= n < count ==> #[trigger] indegree@[n] == waiting(
                        arcs,
                        taken(earlier, ready@, j as int),
                        n,
                    ),
                lists_unlocked(arcs, count as nat, indegree@, earlier, next@),
            decreases ready@.len() - j,
        {
            let n: usize = ready[j];
            proof {
                assert(ready@.contains(n));
                assert(now.contains(n as int));
                lemma_taken(earlier, now, ready@, j as int);
            }
            release(
                graph,
                n,
                &mut indegree,
                &mut next,
                Ghost(taken(earlier, ready@, j as int)),
                Ghost(earlier),
            );
            j += 1;
        }
        proof {
            assert(taken(earlier, ready@, j as int) =~= settled(arcs, count as nat, k + 1)) by {
                assert forall|n: int| settled(arcs, count as nat, k + 1).contains(n) && !earlier.contains(n)
                    implies taken(earlier, ready@, j as int).contains(n) by {
                    assert(now.contains(n));
                    assert(ready@.contains(n as usize));
                    let a = ready@.index_of(n as usize);
                    assert(ready@[a] == n);
                }
                assert forall|n: int| taken(earlier, ready@, j as int).contains(n)
                    implies settled(arcs, count as nat, k + 1).contains(n) by {
                    if !earlier.contains(n) {
                        let a = choose|a: int| 0 <= a < j && ready@[a] == n;
                        assert(ready@.contains(ready@[a]));
                        assert(now.contains(n));
                    }
                }
            }
            let later = settled(arcs, count as nat, k + 1);
            assert forall|n: int| 0 <= n < count implies (#[trigger] wave(arcs, count as nat, k + 1).contains(n)
                <==> next@.contains(n as usize)) by {
                lemma_waiting_zero(arcs, earlier, n);
                lemma_waiting_zero(arcs, later, n);
                assert(indegree@[n] == waiting(arcs, later, n));
            }
            lemma_lists(next@, wave(arcs, count as nat, k + 1), count as nat);
            assert(ready@.contains(ready@[0]));
            lemma_progress(arcs, count as nat, k, ready@[0] as int);
        }
        waves.push(ready);
        ready = next;
    }
    proof {
        let last = wave(arcs, count as nat, waves@.len());
        assert(last =~= Set::<int>::empty()) by {
            assert forall|n: int| !last.contains(n) by {
                if last.contains(n) {
                    assert(ready@.contains(n as usize));
                }
            }
        }
    }
    waves
}

/// Whether `list` holds each node of `nodes` once and nothing else.
pub open spec fn lists(list: Seq<usize>, nodes: Set<int>) -> bool {
    &&& list.no_duplicates()
    &&& forall|n: usize| #[trigger] list.contains(n) ==> nodes.contains(n as int)
    &&& forall|n: int| #[trigger] nodes.contains(n) ==> 0 <= n <= usize::MAX && list.contains(n as usize)
}

/// `earlier` and the first `j` nodes of the list.
spec fn taken(earlier: Set<int>, list: Seq<usize>, j: int) -> Set<int> {
    Set::new(|n: int| earlier.contains(n) || exists|a: int| 0 <= a < j && list[a] == n)
}

proof fn lemma_lists(list: Seq<usize>, nodes: Set<int>, count: nat)
    requires
        count <= usize::MAX,
        list.no_duplicates(),
        forall|i: int| 0 <= i < list.len() ==> (#[trigger] list[i]) < count,
        forall|n: int| #[trigger] nodes.contains(n) ==> 0 <= n < count,
        forall|n: int|
            0 <= n < count ==> (#[trigger] nodes.contains(n) <==> list.contains(n as usize)),
    ensures
        lists(list, nodes),
{
    assert forall|n: usize| #[trigger] list.contains(n) implies nodes.contains(n as int) by {
        let i = list.index_of(n);
        assert(list[i] < count);
        assert(nodes.contains(n as int) <==> list.contains((n as int) as usize));
    }
}

proof fn lemma_taken(earlier: Set<int>, now: Set<int>, list: Seq<usize>, j: int)
    requires
        lists(list, now),
        now.disjoint(earlier),
        0 <= j < list.len(),
    ensures
        !taken(earlier, list, j).contains(list[j] as int),
        taken(earlier, list, j).insert(list[j] as int) == taken(earlier, list, j + 1),
        earlier.subset_of(taken(earlier, list, j)),
{
    assert(list.contains(list[j]));
    let a = taken(earlier, list, j).insert(list[j] as int);
    let b = taken(earlier, list, j + 1);
    assert forall|n: int| b.contains(n) implies a.contains(n) by {
        if !earlier.contains(n) {
            let i = choose|i: int| 0 <= i < j + 1 && list[i] == n;
            if i < j {
                assert(taken(earlier, list, j).contains(n));
            }
        }
    }
    assert(a =~= b);
}

proof fn lemma_progress(arcs: Seq<(int, int)>, count: nat, k: nat, n: int)
    requires
        wave(arcs, count, k).contains(n),
    ensures
        settled(arcs, count, k).len() < settled(arcs, count, k + 1).len() <= count,
{
    let a = settled(arcs, count, k);
    let b = settled(arcs, count, k + 1);
    lemma_settled_grows(arcs, count, k);
    lemma_int_range(0, count as int);
    assert(b.subset_of(set_int_range(0, count as int)));
    lemma_set_subset_finite(set_int_range(0, count as int), b);
    lemma_len_subset(b, set_int_range(0, count as int));
    lemma_set_subset_finite(b, a);
    assert(a.insert(n).subset_of(b));
    lemma_len_subset(a.insert(n), b);
}

} // verus!
