//! The dependency graph of a task file and the waves in which its tasks can run.

use petgraph::graph::DiGraph;
use vstd::prelude::*;
use vstd::utf8::*;

use crate::cycle::cyclic;
use crate::cycle::follows_arc;
use crate::cycle::has_cycle;
use crate::cycle::is_cycle;
use crate::error::TaskError;
use crate::graph::add_edge;
use crate::graph::add_node;
use crate::graph::arcs_within;
use crate::graph::graph_arcs;
use crate::graph::graph_labels;
use crate::graph::new_graph;
use crate::graph::node_label;
use crate::graph::unlocked;
use crate::order::ascending;
use crate::order::bytes_before;
use crate::order::in_order;
use crate::order::lemma_ascending_unique;
use crate::order::lemma_before_irreflexive;
use crate::order::lemma_in_order_distinct;
use crate::order::sort_texts;
use crate::order::text_before;
use crate::schema::all_distinct;
use crate::schema::first_repeat;
use crate::schema::repeats_at;
use crate::schema::task_ids;
use crate::schema::TaskFile;
use crate::schema::TaskSpec;
use crate::strmap::StrMap;
use crate::text::same_text;
use crate::text::views;
use crate::waves::lemma_settled_all;
use crate::waves::lemma_settled_grows;
use crate::waves::lemma_settled_monotone;
use crate::waves::lemma_wave;
use crate::waves::lists;
use crate::waves::settled;
use crate::waves::wave;
use crate::waves::waves_of;

verus! {

/// The dependency graph of the tasks: an arc leads from each dependency to the task that has it.
pub struct Dag {
    pub graph: DiGraph<String, ()>,
    pub index_by_id: StrMap<usize>,
}

/// Whether dependency `k` of task `i` names no task.
pub open spec fn missing_at(tasks: Seq<TaskSpec>, i: int, k: int) -> bool {
    &&& 0 <= i < tasks.len()
    &&& 0 <= k < tasks[i].depends_on@.len()
    &&& !task_ids(tasks).contains(tasks[i].depends_on@[k]@)
}

/// Whether dependency `k` of task `i` is the first one, task by task, that names no task.
pub open spec fn first_missing(tasks: Seq<TaskSpec>, i: int, k: int) -> bool {
    &&& missing_at(tasks, i, k)
    &&& forall|a: int, b: int| a < i || (a == i && b < k) ==> !missing_at(tasks, a, b)
}

/// Whether every dependency names a task.
pub open spec fn none_missing(tasks: Seq<TaskSpec>) -> bool {
    forall|i: int, k: int| !missing_at(tasks, i, k)
}

/// The arcs from the first `k` dependencies of task `i` to it.
pub open spec fn arcs_into(tasks: Seq<TaskSpec>, i: int, k: int) -> Seq<(int, int)> {
    Seq::new(
        k as nat,
        |j: int| (task_ids(tasks).index_of(tasks[i].depends_on@[j]@), i),
    )
}

/// The dependency arcs of the first `n` tasks, task by task.
pub open spec fn dependency_arcs(tasks: Seq<TaskSpec>, n: nat) -> Seq<(int, int)>
    decreases n,
{
    if n == 0 {
        seq![]
    } else {
        dependency_arcs(tasks, (n - 1) as nat) + arcs_into(
            tasks,
            n - 1,
            tasks[n - 1].depends_on@.len() as int,
        )
    }
}

/// The dependency arcs of all tasks.
pub open spec fn all_arcs(tasks: Seq<TaskSpec>) -> Seq<(int, int)> {
    dependency_arcs(tasks, tasks.len())
}

proof fn lemma_arcs_len(tasks: Seq<TaskSpec>, n: nat, m: nat)
    requires
        n <= m,
    ensures
        dependency_arcs(tasks, n).len() <= dependency_arcs(tasks, m).len(),
    decreases m,
{
    if n < m {
        lemma_arcs_len(tasks, n, (m - 1) as nat);
    }
}

impl Dag {
    /// Whether the graph is that of a list of tasks with different ids and without cycles.
    pub open spec fn wf(&self) -> bool {
        &&& all_distinct(graph_labels(self.graph))
        &&& arcs_within(graph_arcs(self.graph), graph_labels(self.graph).len())
        &&& !cyclic(graph_arcs(self.graph))
        &&& indexes(self.index_by_id@, graph_labels(self.graph))
    }

    /// Builds the graph of the dependencies.
    pub fn build(tf: &TaskFile) -> (r: Result<Self, TaskError>)
        requires
            tf.tasks@.len() <= u32::MAX,
            all_arcs(tf.tasks@).len() <= u32::MAX,
        ensures
            match r {
                Ok(dag) => {
                    &&& all_distinct(task_ids(tf.tasks@))
                    &&& none_missing(tf.tasks@)
                    &&& !cyclic(all_arcs(tf.tasks@))
                    &&& dag.wf()
                    &&& graph_labels(dag.graph) == task_ids(tf.tasks@)
                    &&& graph_arcs(dag.graph) == all_arcs(tf.tasks@)
                },
                Err(TaskError::DuplicateTask(id)) => exists|i: int| #[trigger]
                    first_repeat(task_ids(tf.tasks@), i) && id@ == tf.tasks@[i].id@,
                Err(TaskError::MissingDependency(id)) => {
                    &&& all_distinct(task_ids(tf.tasks@))
                    &&& exists|i: int, k: int| #[trigger]
                        first_missing(tf.tasks@, i, k) && id@ == tf.tasks@[i].depends_on@[k]@
                },
                Err(TaskError::CyclicDag) => {
                    &&& all_distinct(task_ids(tf.tasks@))
                    &&& none_missing(tf.tasks@)
                    &&& cyclic(all_arcs(tf.tasks@))
                },
                Err(_) => false,
            },
    {
        let ghost ids = task_ids(tf.tasks@);
        let ghost tasks = tf.tasks@;
        let mut graph = new_graph();
        let mut index_by_id: StrMap<usize> = StrMap::new();
        let mut i: usize = 0;
        proof {
            assert(ids.take(0) =~= Seq::<Seq<char>>::empty());
        }
        while i < tf.tasks.len()
            invariant
                i <= tf.tasks@.len(),
                tf.tasks@.len() <= u32::MAX,
                ids == task_ids(tf.tasks@),
                graph_labels(graph) == ids.take(i as int),
                graph_arcs(graph) == Seq::<(int, int)>::empty(),
                indexes(index_by_id@, ids.take(i as int)),
                all_distinct(ids.take(i as int)),
                forall|k: int| 0 <= k < i ==> !repeats_at(ids, k),
            decreases tf.tasks@.len() - i,
        {
            let id = &tf.tasks[i].id;
            if index_by_id.contains_key(id.as_str()) {
                proof {
                    let j = ids.take(i as int).index_of(id@);
                    assert(ids[j] == ids[i as int]);
                    assert(first_repeat(ids, i as int));
                }
                return Err(TaskError::DuplicateTask(id.clone()));
            }
            let ghost before = index_by_id@;
            let idx: usize = add_node(&mut graph, id.clone());
            index_by_id.insert(id.clone(), idx);
            proof {
                lemma_indexes_push(before, ids.take(i as int), id@, idx);
                assert(ids.take(i + 1) =~= ids.take(i as int).push(id@));
                assert(!repeats_at(ids, i as int)) by {
                    if repeats_at(ids, i as int) {
                        let j = choose|j: int| 0 <= j < i && ids[j] == ids[i as int];
                        assert(ids.take(i as int)[j] == id@);
                        assert(ids.take(i as int).contains(id@));
                    }
                }
            }
            i += 1;
        }
        proof {
            assert(ids.take(i as int) =~= ids);
        }
        let mut t: usize = 0;
        while t < tf.tasks.len()
            invariant
                t <= tf.tasks@.len(),
                tasks == tf.tasks@,
                ids == task_ids(tasks),
                all_distinct(ids),
                all_arcs(tasks).len() <= u32::MAX,
                graph_labels(graph) == ids,
                graph_arcs(graph) == dependency_arcs(tasks, t as nat),
                arcs_within(graph_arcs(graph), ids.len()),
                indexes(index_by_id@, ids),
                forall|a: int, b: int| a < t ==> !missing_at(tasks, a, b),
            decreases tf.tasks@.len() - t,
        {
            let task = &tf.tasks[t];
            let mut k: usize = 0;
            let ghost done = graph_arcs(graph);
            proof {
                assert(arcs_into(tasks, t as int, 0) =~= Seq::<(int, int)>::empty());
                assert(done + Seq::<(int, int)>::empty() =~= done);
                lemma_arcs_len(tasks, (t + 1) as nat, tasks.len());
            }
            while k < task.depends_on.len()
                invariant
                    t < tf.tasks@.len(),
                    k <= task.depends_on@.len(),
                    tasks == tf.tasks@,
                    *task == tasks[t as int],
                    ids == task_ids(tasks),
                    all_distinct(ids),
                    dependency_arcs(tasks, (t + 1) as nat).len() <= u32::MAX,
                    graph_labels(graph) == ids,
                    done == dependency_arcs(tasks, t as nat),
                    graph_arcs(graph) == done + arcs_into(tasks, t as int, k as int),
                    arcs_within(graph_arcs(graph), ids.len()),
                    indexes(index_by_id@, ids),
                    forall|a: int, b: int|
                        a < t || (a == t && b < k) ==> !missing_at(tasks, a, b),
                decreases task.depends_on@.len() - k,
            {
                let dep = &task.depends_on[k];
                let from: usize = match index_by_id.get(dep.as_str()) {
                    Some(n) => *n,
                    None => {
                        assert(first_missing(tasks, t as int, k as int));
                        return Err(TaskError::MissingDependency(dep.clone()));
                    },
                };
                let to: usize = match index_by_id.get(task.id.as_str()) {
                    Some(n) => *n,
                    None => {
                        assert(ids[t as int] == task.id@);
                        return Err(TaskError::MissingDependency(task.id.clone()));
                    },
                };
                proof {
                    assert(ids[t as int] == task.id@);
                    lemma_index_of(ids, t as int);
                    assert(to == t);
                    assert(from == ids.index_of(dep@));
                }
                let ghost before = graph_arcs(graph);
                add_edge(&mut graph, from, to);
                proof {
                    let arc = (ids.index_of(dep@), t as int);
                    assert(arcs_into(tasks, t as int, k + 1) =~= arcs_into(
                        tasks,
                        t as int,
                        k as int,
                    ).push(arc));
                    assert(graph_arcs(graph) =~= done + arcs_into(tasks, t as int, k + 1));
                }
                k += 1;
            }
            t += 1;
        }
        if has_cycle(&graph) {
            return Err(TaskError::CyclicDag);
        }
        Ok(Dag { graph, index_by_id })
    }

    /// The waves in which the tasks can run: each level lists, in ascending order, the ids of the
    /// tasks whose dependencies all lie in earlier levels.
    pub fn levels(&self) -> (r: Vec<Vec<String>>)
        requires
            self.wf(),
        ensures
            is_levels(graph_labels(self.graph), graph_arcs(self.graph), level_views(r@)),
    {
        let ghost labels = graph_labels(self.graph);
        let ghost arcs = graph_arcs(self.graph);
        let waves = waves_of(&self.graph);
        let mut levels: Vec<Vec<String>> = Vec::new();
        let mut k: usize = 0;
        while k < waves.len()
            invariant
                self.wf(),
                labels == graph_labels(self.graph),
                arcs == graph_arcs(self.graph),
                k <= waves@.len(),
                levels@.len() == k,
                forall|j: int|
                    0 <= j < waves@.len() ==> {
                        &&& (#[trigger] waves@[j])@.len() > 0
                        &&& lists(waves@[j]@, wave(arcs, labels.len(), j as nat))
                    },
                forall|j: int|
                    0 <= j < k ==> is_level(labels, arcs, j as nat, #[trigger] views(levels@[j]@)),
            decreases waves@.len() - k,
        {
            let nodes = &waves[k];
            let mut ids: Vec<String> = Vec::new();
            let mut i: usize = 0;
            while i < nodes.len()
                invariant
                    labels == graph_labels(self.graph),
                    lists(nodes@, wave(arcs, labels.len(), k as nat)),
                    i <= nodes@.len(),
                    ids@.len() == i,
                    forall|j: int|
                        0 <= j < i ==> (#[trigger] ids@[j])@ == labels[nodes@[j] as int],
                decreases nodes@.len() - i,
            {
                proof {
                    assert(nodes@.contains(nodes@[i as int]));
                    lemma_wave(arcs, labels.len(), k as nat, nodes@[i as int] as int);
                }
                ids.push(node_label(&self.graph, nodes[i]).clone());
                i += 1;
            }
            let level = sort_texts(&ids);
            proof {
                lemma_level(labels, arcs, k as nat, nodes@, views(ids@), views(level@));
            }
            levels.push(level);
            k += 1;
        }
        proof {
            let lv = level_views(levels@);
            assert forall|j: int| 0 <= j < lv.len() implies is_level(
                labels,
                arcs,
                j as nat,
                #[trigger] lv[j],
            ) by {
                assert(lv[j] == views(levels@[j]@));
            }
        }
        levels
    }

    /// The task with the given id.
    pub fn task_by_id<'a>(&self, tf: &'a TaskFile, id: &str) -> (r: Option<&'a TaskSpec>)
        ensures
            match r {
                Some(t) => exists|i: int|
                    {
                        &&& 0 <= i < tf.tasks@.len()
                        &&& *t == #[trigger] tf.tasks@[i]
                        &&& t.id@ == id@
                        &&& forall|j: int| 0 <= j < i ==> (#[trigger] tf.tasks@[j]).id@ != id@
                    },
                None => forall|j: int|
                    0 <= j < tf.tasks@.len() ==> (#[trigger] tf.tasks@[j]).id@ != id@,
            },
    {
        let mut i: usize = 0;
        while i < tf.tasks.len()
            invariant
                i <= tf.tasks@.len(),
                forall|j: int| 0 <= j < i ==> (#[trigger] tf.tasks@[j]).id@ != id@,
            decreases tf.tasks@.len() - i,
        {
            if same_text(tf.tasks[i].id.as_str(), id) {
                return Some(&tf.tasks[i]);
            }
            i += 1;
        }
        None
    }
}

/// Whether the map takes each of the ids to its position.
pub open spec fn indexes(map: Map<Seq<char>, usize>, ids: Seq<Seq<char>>) -> bool {
    forall|id: Seq<char>|
        {
            &&& #[trigger] map.dom().contains(id) <==> ids.contains(id)
            &&& ids.contains(id) ==> map[id] < ids.len() && map[id] == ids.index_of(id)
        }
}

proof fn lemma_index_of(ids: Seq<Seq<char>>, i: int)
    requires
        all_distinct(ids),
        0 <= i < ids.len(),
    ensures
        ids.contains(ids[i]),
        ids.index_of(ids[i]) == i,
{
    let j = ids.index_of(ids[i]);
    assert(ids.contains(ids[i]));
    if j < i {
        assert(repeats_at(ids, i));
    } else if i < j {
        assert(repeats_at(ids, j));
    }
}

proof fn lemma_indexes_push(
    map: Map<Seq<char>, usize>,
    ids: Seq<Seq<char>>,
    id: Seq<char>,
    i: usize,
)
    requires
        indexes(map, ids),
        all_distinct(ids),
        !ids.contains(id),
        i == ids.len(),
    ensures
        indexes(map.insert(id, i), ids.push(id)),
        all_distinct(ids.push(id)),
{
    let more = ids.push(id);
    assert(more[ids.len() as int] == id);
    assert forall|k: int| !repeats_at(more, k) by {
        if repeats_at(more, k) {
            let j = choose|j: int| 0 <= j < k && more[j] == more[k];
            if k < ids.len() {
                assert(ids[j] == ids[k]);
                assert(repeats_at(ids, k));
            } else {
                assert(ids[j] == id);
                assert(ids.contains(id));
            }
        }
    }
    assert forall|q: Seq<char>| more.contains(q) implies q == id || ids.contains(q) by {
        let j = more.index_of(q);
        if j < ids.len() {
            assert(ids[j] == q);
        }
    }
    assert forall|q: Seq<char>| ids.contains(q) implies more.contains(q) && more.index_of(q)
        == ids.index_of(q) by {
        let j = ids.index_of(q);
        assert(more[j] == q);
        assert(map.dom().contains(q));
        lemma_index_of(more, j);
    }
    lemma_index_of(more, ids.len() as int);
}

/// The levels as texts.
pub open spec fn level_views(levels: Seq<Vec<String>>) -> Seq<Seq<Seq<char>>> {
    Seq::new(levels.len(), |k: int| views(levels[k]@))
}

/// Whether `level` lists the labels of wave `k` in ascending order, and is not empty.
pub open spec fn is_level(
    labels: Seq<Seq<char>>,
    arcs: Seq<(int, int)>,
    k: nat,
    level: Seq<Seq<char>>,
) -> bool {
    &&& level.len() > 0
    &&& ascending(level)
    &&& forall|id: Seq<char>| #[trigger]
        level.contains(id) <==> exists|n: int| #[trigger]
            wave(arcs, labels.len(), k).contains(n) && labels[n] == id
}

/// Whether `levels` are the waves of the graph with these labels and arcs.
pub open spec fn is_levels(
    labels: Seq<Seq<char>>,
    arcs: Seq<(int, int)>,
    levels: Seq<Seq<Seq<char>>>,
) -> bool {
    &&& forall|k: int|
        0 <= k < levels.len() ==> is_level(labels, arcs, k as nat, #[trigger] levels[k])
    &&& wave(arcs, labels.len(), levels.len()) == Set::<int>::empty()
}

proof fn lemma_level(
    labels: Seq<Seq<char>>,
    arcs: Seq<(int, int)>,
    k: nat,
    nodes: Seq<usize>,
    ids: Seq<Seq<char>>,
    level: Seq<Seq<char>>,
)
    requires
        all_distinct(labels),
        nodes.len() > 0,
        lists(nodes, wave(arcs, labels.len(), k)),
        ids.len() == nodes.len(),
        forall|j: int| 0 <= j < ids.len() ==> #[trigger] ids[j] == labels[nodes[j] as int],
        in_order(level),
        level.to_multiset() == ids.to_multiset(),
    ensures
        is_level(labels, arcs, k, level),
{
    broadcast use vstd::seq_lib::group_to_multiset_ensures;

    let w = wave(arcs, labels.len(), k);
    assert(level.len() == level.to_multiset().len());
    assert(ids.len() == ids.to_multiset().len());
    assert(ids.no_duplicates()) by {
        assert forall|i: int, j: int| 0 <= i < j < ids.len() implies ids[i] != ids[j] by {
            assert(nodes.contains(nodes[i]) && nodes.contains(nodes[j]));
            lemma_wave(arcs, labels.len(), k, nodes[i] as int);
            lemma_wave(arcs, labels.len(), k, nodes[j] as int);
            lemma_index_of(labels, nodes[i] as int);
            lemma_index_of(labels, nodes[j] as int);
        }
    }
    assert(level.no_duplicates()) by {
        lemma_same_multiset_distinct(ids, level);
    }
    lemma_in_order_distinct(level);
    assert forall|id: Seq<char>| #[trigger] level.contains(id) <==> exists|n: int| #[trigger]
        w.contains(n) && labels[n] == id by {
        assert(level.contains(id) <==> level.to_multiset().count(id) > 0);
        assert(ids.contains(id) <==> ids.to_multiset().count(id) > 0);
        if ids.contains(id) {
            let j = ids.index_of(id);
            assert(nodes.contains(nodes[j]));
            assert(w.contains(nodes[j] as int) && labels[nodes[j] as int] == id);
        }
        if exists|n: int| #[trigger] w.contains(n) && labels[n] == id {
            let n = choose|n: int| #[trigger] w.contains(n) && labels[n] == id;
            assert(nodes.contains(n as usize));
            let j = nodes.index_of(n as usize);
            assert(ids[j] == id);
        }
    }
}

/// A rearrangement of different texts has no text twice.
proof fn lemma_same_multiset_distinct(a: Seq<Seq<char>>, b: Seq<Seq<char>>)
    requires
        a.no_duplicates(),
        a.to_multiset() == b.to_multiset(),
    ensures
        b.no_duplicates(),
{
    a.lemma_multiset_has_no_duplicates();
    b.lemma_multiset_has_no_duplicates_conv();
}

/// Law: every task stands in some level.
pub proof fn law_levels_complete(dag: Dag, levels: Seq<Seq<Seq<char>>>, n: int)
    requires
        dag.wf(),
        is_levels(graph_labels(dag.graph), graph_arcs(dag.graph), levels),
        0 <= n < graph_labels(dag.graph).len(),
    ensures
        exists|k: int|
            0 <= k < levels.len() && (#[trigger] levels[k]).contains(graph_labels(dag.graph)[n]),
{
    let labels = graph_labels(dag.graph);
    let arcs = graph_arcs(dag.graph);
    lemma_settled_all(arcs, labels.len(), levels.len(), n);
    lemma_settled_in_wave(arcs, labels.len(), levels.len(), n);
    let k = choose|k: nat| k < levels.len() && #[trigger] wave(arcs, labels.len(), k).contains(n);
    assert(is_level(labels, arcs, k, levels[k as int]));
    assert(levels[k as int].contains(labels[n]));
}

/// Law: no task stands in two levels, and none stands twice in one.
pub proof fn law_levels_disjoint(
    dag: Dag,
    levels: Seq<Seq<Seq<char>>>,
    j: int,
    a: int,
    k: int,
    b: int,
)
    requires
        dag.wf(),
        is_levels(graph_labels(dag.graph), graph_arcs(dag.graph), levels),
        0 <= j < levels.len(),
        0 <= a < levels[j].len(),
        0 <= k < levels.len(),
        0 <= b < levels[k].len(),
        levels[j][a] == levels[k][b],
    ensures
        j == k,
        a == b,
{
    let labels = graph_labels(dag.graph);
    let arcs = graph_arcs(dag.graph);
    let id = levels[j][a];
    assert(is_level(labels, arcs, j as nat, levels[j]));
    assert(is_level(labels, arcs, k as nat, levels[k]));
    assert(levels[j].contains(id));
    assert(levels[k].contains(id));
    let n = choose|n: int| #[trigger]
        wave(arcs, labels.len(), j as nat).contains(n) && labels[n] == id;
    let m = choose|m: int| #[trigger]
        wave(arcs, labels.len(), k as nat).contains(m) && labels[m] == id;
    lemma_wave(arcs, labels.len(), j as nat, n);
    lemma_wave(arcs, labels.len(), k as nat, m);
    lemma_index_of(labels, n);
    lemma_index_of(labels, m);
    assert(n == m);
    if j < k {
        lemma_settled_monotone(arcs, labels.len(), (j + 1) as nat, k as nat);
    } else if k < j {
        lemma_settled_monotone(arcs, labels.len(), (k + 1) as nat, j as nat);
    }
    lemma_before_irreflexive(id);
    if a < b {
        assert(text_before(levels[j][a], levels[j][b]));
    } else if b < a {
        assert(text_before(levels[j][b], levels[j][a]));
    }
}

/// Law: a task stands in a later level than each of its dependencies.
pub proof fn law_dependencies_first(
    dag: Dag,
    levels: Seq<Seq<Seq<char>>>,
    from: int,
    to: int,
    j: int,
    k: int,
)
    requires
        dag.wf(),
        is_levels(graph_labels(dag.graph), graph_arcs(dag.graph), levels),
        graph_arcs(dag.graph).contains((from, to)),
        0 <= j < levels.len(),
        0 <= k < levels.len(),
        levels[j].contains(graph_labels(dag.graph)[from]),
        levels[k].contains(graph_labels(dag.graph)[to]),
    ensures
        j < k,
{
    let labels = graph_labels(dag.graph);
    let arcs = graph_arcs(dag.graph);
    let i = arcs.index_of((from, to));
    assert(arcs[i] == (from, to));
    lemma_level_node(labels, arcs, j as nat, levels[j], from);
    lemma_level_node(labels, arcs, k as nat, levels[k], to);
    lemma_wave(arcs, labels.len(), j as nat, from);
    lemma_wave(arcs, labels.len(), k as nat, to);
    if k <= j {
        lemma_settled_monotone(arcs, labels.len(), k as nat, j as nat);
        assert(settled(arcs, labels.len(), k as nat).contains(from));
    }
}

/// Law: a task waits for no longer than it must. Each task beyond the first level has a dependency
/// in the level just before its own.
pub proof fn law_levels_tight(dag: Dag, levels: Seq<Seq<Seq<char>>>, to: int, k: int)
    requires
        dag.wf(),
        is_levels(graph_labels(dag.graph), graph_arcs(dag.graph), levels),
        0 < k < levels.len(),
        0 <= to < graph_labels(dag.graph).len(),
        levels[k].contains(graph_labels(dag.graph)[to]),
    ensures
        exists|from: int| #[trigger]
            graph_arcs(dag.graph).contains((from, to)) && levels[k - 1].contains(
                graph_labels(dag.graph)[from],
            ),
{
    let labels = graph_labels(dag.graph);
    let arcs = graph_arcs(dag.graph);
    lemma_level_node(labels, arcs, k as nat, levels[k], to);
    lemma_wave(arcs, labels.len(), k as nat, to);
    lemma_wave(arcs, labels.len(), (k - 1) as nat, to);
    let earlier = settled(arcs, labels.len(), (k - 1) as nat);
    lemma_settled_grows(arcs, labels.len(), (k - 1) as nat);
    assert(!unlocked(arcs, earlier, to));
    let from = choose|from: int| #[trigger] arcs.contains((from, to)) && !earlier.contains(from);
    assert(settled(arcs, labels.len(), k as nat).contains(from));
    assert(wave(arcs, labels.len(), (k - 1) as nat).contains(from));
    assert(is_level(labels, arcs, (k - 1) as nat, levels[k - 1]));
}

/// Law: a graph has only one list of levels.
pub proof fn law_levels_unique(
    labels: Seq<Seq<char>>,
    arcs: Seq<(int, int)>,
    a: Seq<Seq<Seq<char>>>,
    b: Seq<Seq<Seq<char>>>,
)
    requires
        is_levels(labels, arcs, a),
        is_levels(labels, arcs, b),
    ensures
        a == b,
{
    if a.len() < b.len() {
        lemma_level_not_empty(labels, arcs, a.len(), b[a.len() as int]);
    }
    if b.len() < a.len() {
        lemma_level_not_empty(labels, arcs, b.len(), a[b.len() as int]);
    }
    assert forall|k: int| 0 <= k < a.len() implies a[k] == b[k] by {
        assert(is_level(labels, arcs, k as nat, a[k]));
        assert(is_level(labels, arcs, k as nat, b[k]));
        assert(a[k].to_set() =~= b[k].to_set()) by {
            assert forall|id: Seq<char>| a[k].to_set().contains(id) <==> b[k].to_set().contains(
                id,
            ) by {
                assert(a[k].contains(id) <==> b[k].contains(id));
            }
        }
        lemma_ascending_unique(a[k], b[k]);
    }
    assert(a =~= b);
}

proof fn lemma_level_not_empty(
    labels: Seq<Seq<char>>,
    arcs: Seq<(int, int)>,
    k: nat,
    level: Seq<Seq<char>>,
)
    requires
        is_level(labels, arcs, k, level),
    ensures
        wave(arcs, labels.len(), k) != Set::<int>::empty(),
{
    assert(level.contains(level[0]));
    let n = choose|n: int| #[trigger] wave(arcs, labels.len(), k).contains(n) && labels[n]
        == level[0];
    assert(wave(arcs, labels.len(), k).contains(n));
}

proof fn lemma_level_node(
    labels: Seq<Seq<char>>,
    arcs: Seq<(int, int)>,
    k: nat,
    level: Seq<Seq<char>>,
    n: int,
)
    requires
        all_distinct(labels),
        is_level(labels, arcs, k, level),
        0 <= n < labels.len(),
        level.contains(labels[n]),
    ensures
        wave(arcs, labels.len(), k).contains(n),
{
    let m = choose|m: int| #[trigger] wave(arcs, labels.len(), k).contains(m) && labels[m]
        == labels[n];
    lemma_wave(arcs, labels.len(), k, m);
    lemma_index_of(labels, n);
    lemma_index_of(labels, m);
}

proof fn lemma_settled_in_wave(arcs: Seq<(int, int)>, count: nat, k: nat, n: int)
    requires
        settled(arcs, count, k).contains(n),
    ensures
        exists|j: nat| j < k && #[trigger] wave(arcs, count, j).contains(n),
    decreases k,
{
    if k > 0 {
        let j = (k - 1) as nat;
        if settled(arcs, count, j).contains(n) {
            lemma_settled_in_wave(arcs, count, j, n);
        } else {
            assert(wave(arcs, count, j).contains(n));
        }
    }
}

/// The arcs of the first `n` tasks, one for each of their dependencies.
proof fn lemma_arcs_of(tasks: Seq<TaskSpec>, n: nat, a: int, b: int)
    requires
        n <= tasks.len(),
    ensures
        dependency_arcs(tasks, n).contains((a, b)) <==> 0 <= b < n && exists|k: int|
            0 <= k < tasks[b].depends_on@.len() && a == task_ids(tasks).index_of(
                #[trigger] tasks[b].depends_on@[k]@,
            ),
    decreases n,
{
    if n > 0 {
        let m = (n - 1) as nat;
        let before = dependency_arcs(tasks, m);
        let last = arcs_into(tasks, n - 1, tasks[n - 1].depends_on@.len() as int);
        let all = before + last;
        lemma_arcs_of(tasks, m, a, b);
        if before.contains((a, b)) {
            let k = before.index_of((a, b));
            assert(all[k] == (a, b));
        }
        if b == n - 1 && exists|k: int|
            0 <= k < tasks[b].depends_on@.len() && a == task_ids(tasks).index_of(
                #[trigger] tasks[b].depends_on@[k]@,
            ) {
            let k = choose|k: int|
                0 <= k < tasks[b].depends_on@.len() && a == task_ids(tasks).index_of(
                    #[trigger] tasks[b].depends_on@[k]@,
                );
            assert(last[k] == (a, b));
            assert(all[before.len() + k] == (a, b));
        }
        if all.contains((a, b)) {
            let k = all.index_of((a, b));
            if k < before.len() {
                assert(before[k] == (a, b));
            } else {
                let j = k - before.len();
                assert(last[j] == (a, b));
                assert(b == n - 1);
                assert(a == task_ids(tasks).index_of(tasks[b].depends_on@[j]@));
            }
        }
    }
}

/// Law: in the graph of a task file the nodes are the ids of its tasks in their order, and there is an
/// arc from one task to another exactly where the other depends on it.
pub proof fn law_arc_iff_dependency(tf: &TaskFile, dag: Dag, a: int, b: int)
    requires
        call_ensures(Dag::build, (tf,), Ok(dag)),
        0 <= a < tf.tasks@.len(),
        0 <= b < tf.tasks@.len(),
    ensures
        graph_labels(dag.graph).len() == tf.tasks@.len(),
        graph_labels(dag.graph)[a] == tf.tasks@[a].id@,
        graph_arcs(dag.graph).contains((a, b)) <==> exists|k: int|
            0 <= k < tf.tasks@[b].depends_on@.len() && (#[trigger] tf.tasks@[b].depends_on@[k])@
                == tf.tasks@[a].id@,
{
    let tasks = tf.tasks@;
    let ids = task_ids(tasks);
    lemma_arcs_of(tasks, tasks.len(), a, b);
    if graph_arcs(dag.graph).contains((a, b)) {
        let k = choose|k: int|
            0 <= k < tasks[b].depends_on@.len() && a == ids.index_of(
                #[trigger] tasks[b].depends_on@[k]@,
            );
        assert(!missing_at(tasks, b, k));
        assert(ids.contains(tasks[b].depends_on@[k]@));
        assert(ids[a] == tasks[b].depends_on@[k]@);
        assert(tasks[b].depends_on@[k]@ == tasks[a].id@);
    }
    if exists|k: int|
        0 <= k < tasks[b].depends_on@.len() && (#[trigger] tasks[b].depends_on@[k])@ == tasks[a].id@ {
        let k = choose|k: int|
            0 <= k < tasks[b].depends_on@.len() && (#[trigger] tasks[b].depends_on@[k])@
                == tasks[a].id@;
        let d = tasks[b].depends_on@[k]@;
        assert(ids[a] == d);
        let f = ids.index_of(d);
        assert(ids.contains(d));
        assert(ids[f] == d);
        if f < a {
            assert(!repeats_at(ids, a));
        } else if a < f {
            assert(!repeats_at(ids, f));
        }
        assert(a == ids.index_of(tasks[b].depends_on@[k]@));
    }
}

/// Law: a task file with two tasks of one id has no graph, and the complaint is about such an id.
pub proof fn law_same_ids_refused(tf: &TaskFile, r: Result<Dag, TaskError>, a: int, b: int)
    requires
        call_ensures(Dag::build, (tf,), r),
        0 <= a < b < tf.tasks@.len(),
        tf.tasks@[a].id@ == tf.tasks@[b].id@,
    ensures
        r matches Err(e) && e is DuplicateTask,
{
    let ids = task_ids(tf.tasks@);
    assert(ids[a] == ids[b]);
    assert(repeats_at(ids, b));
}

/// Law: a task file in which a task depends on itself, on a task that depends on it, or on no task has
/// no graph.
pub proof fn law_no_graph(tf: &TaskFile, r: Result<Dag, TaskError>, a: int, b: int, k: int, j: int)
    requires
        call_ensures(Dag::build, (tf,), r),
        0 <= a < tf.tasks@.len(),
        0 <= b < tf.tasks@.len(),
        0 <= k < tf.tasks@[a].depends_on@.len(),
        0 <= j < tf.tasks@[b].depends_on@.len(),
    ensures
        tf.tasks@[a].depends_on@[k]@ == tf.tasks@[a].id@ ==> r is Err,
        tf.tasks@[a].depends_on@[k]@ == tf.tasks@[b].id@ && tf.tasks@[b].depends_on@[j]@
            == tf.tasks@[a].id@ ==> r is Err,
        (forall|i: int|
            0 <= i < tf.tasks@.len() ==> (#[trigger] tf.tasks@[i]).id@ != tf.tasks@[a].depends_on@[k]@)
            ==> r is Err,
{
    match r {
        Ok(dag) => {
            let tasks = tf.tasks@;
            let ids = task_ids(tasks);
            let arcs = graph_arcs(dag.graph);
            law_arc_iff_dependency(tf, dag, a, a);
            law_arc_iff_dependency(tf, dag, a, b);
            law_arc_iff_dependency(tf, dag, b, a);
            if tasks[a].depends_on@[k]@ == tasks[a].id@ {
                let path = seq![a, a];
                assert(arcs.contains((a, a)));
                assert forall|i: int| 0 <= i < path.len() - 1 implies follows_arc(arcs, path, i) by {}
                assert(is_cycle(arcs, path));
            }
            if tasks[a].depends_on@[k]@ == tasks[b].id@ && tasks[b].depends_on@[j]@ == tasks[a].id@ {
                let path = seq![a, b, a];
                assert(arcs.contains((a, b)));
                assert(arcs.contains((b, a)));
                assert forall|i: int| 0 <= i < path.len() - 1 implies follows_arc(arcs, path, i) by {
                    assert(i == 0 || i == 1);
                }
                assert(is_cycle(arcs, path));
            }
            assert(!missing_at(tasks, a, k));
            let d = tasks[a].depends_on@[k]@;
            let i = choose|i: int| 0 <= i < ids.len() && ids[i] == d;
            assert(tasks[i].id@ == d);
        },
        Err(_) => {},
    }
}

/// Law: why there is no graph: two tasks have the id that is named, or the id that is named is a
/// dependency and no task has it, or the dependencies go round.
pub proof fn law_graph_errors(tf: &TaskFile, e: TaskError)
    requires
        call_ensures(Dag::build, (tf,), Err(e)),
    ensures
        e matches TaskError::DuplicateTask(id) ==> exists|i: int, j: int|
            0 <= i < j < tf.tasks@.len() && (#[trigger] tf.tasks@[i]).id@ == id@ && (
            #[trigger] tf.tasks@[j]).id@ == id@,
        e matches TaskError::MissingDependency(id) ==> {
            &&& forall|j: int| 0 <= j < tf.tasks@.len() ==> (#[trigger] tf.tasks@[j]).id@ != id@
            &&& exists|i: int, k: int|
                0 <= i < tf.tasks@.len() && 0 <= k < tf.tasks@[i].depends_on@.len() && (
                #[trigger] tf.tasks@[i].depends_on@[k])@ == id@
        },
        e is CyclicDag ==> cyclic(all_arcs(tf.tasks@)),
        e is DuplicateTask || e is MissingDependency || e is CyclicDag,
{
    let ids = task_ids(tf.tasks@);
    match e {
        TaskError::DuplicateTask(id) => {
            let j = choose|j: int| #[trigger] first_repeat(ids, j) && id@ == tf.tasks@[j].id@;
            let i = choose|i: int| 0 <= i < j && ids[i] == ids[j];
            assert(tf.tasks@[i].id@ == id@ && tf.tasks@[j].id@ == id@);
        },
        TaskError::MissingDependency(id) => {
            let (i, k) = choose|i: int, k: int| #[trigger]
                first_missing(tf.tasks@, i, k) && id@ == tf.tasks@[i].depends_on@[k]@;
            assert forall|j: int| 0 <= j < tf.tasks@.len() implies (#[trigger] tf.tasks@[j]).id@
                != id@ by {
                assert(ids[j] == tf.tasks@[j].id@);
            }
            assert(tf.tasks@[i].depends_on@[k]@ == id@);
        },
        _ => {},
    }
}

/// Law: a task is looked up by its id, and the first one that has it is found.
pub proof fn law_task_by_id(dag: &Dag, tf: &TaskFile, id: &str, r: Option<&TaskSpec>, i: int)
    requires
        call_ensures(Dag::task_by_id, (dag, tf, id), r),
        0 <= i < tf.tasks@.len(),
        tf.tasks@[i].id@ == id@,
    ensures
        r is Some,
        r->0.id@ == id@,
        (forall|j: int| 0 <= j < i ==> (#[trigger] tf.tasks@[j]).id@ != id@) ==> *r->0
            == tf.tasks@[i],
{
    assert(tf.tasks@[i].id@ == id@);
}

/// Law: the levels of a task file hold each of its tasks exactly once, and nothing else. None is empty,
/// and in each the ids stand in ascending order.
pub proof fn law_schedule(tf: &TaskFile, dag: Dag, r: Vec<Vec<String>>, k: int, a: int)
    requires
        call_ensures(Dag::build, (tf,), Ok(dag)),
        call_ensures(Dag::levels, (&dag,), r),
        0 <= k < r@.len(),
        0 <= a < r@[k]@.len(),
    ensures
        exists|i: int| 0 <= i < tf.tasks@.len() && (#[trigger] tf.tasks@[i]).id@ == r@[k]@[a]@,
        forall|b: int|
            a < b < r@[k]@.len() ==> bytes_before(
                encode_utf8(r@[k]@[a]@),
                encode_utf8((#[trigger] r@[k]@[b])@),
            ),
        forall|j: int, b: int|
            0 <= j < r@.len() && 0 <= b < r@[j]@.len() && (#[trigger] r@[j]@[b])@ == r@[k]@[a]@
                ==> j == k && b == a,
{
    let labels = graph_labels(dag.graph);
    let arcs = graph_arcs(dag.graph);
    let levels = level_views(r@);
    let id = r@[k]@[a]@;
    assert(is_level(labels, arcs, k as nat, levels[k]));
    assert(levels[k][a] == id);
    assert(levels[k].contains(id));
    let n = choose|n: int| #[trigger]
        wave(arcs, labels.len(), k as nat).contains(n) && labels[n] == id;
    lemma_wave(arcs, labels.len(), k as nat, n);
    assert(tf.tasks@[n].id@ == id);
    assert forall|b: int| a < b < r@[k]@.len() implies bytes_before(
        encode_utf8(r@[k]@[a]@),
        encode_utf8((#[trigger] r@[k]@[b])@),
    ) by {
        assert(text_before(levels[k][a], levels[k][b]));
    }
    assert forall|j: int, b: int|
        0 <= j < r@.len() && 0 <= b < r@[j]@.len() && (#[trigger] r@[j]@[b])@ == r@[k]@[a]@ implies j
        == k && b == a by {
        assert(levels[j][b] == id);
        law_levels_disjoint(dag, levels, k, a, j, b);
    }
}

/// Law: each task of a file stands in some level, and all that it depends on in levels before that. A
/// task without dependencies stands in the first level.
pub proof fn law_scheduled_after_dependencies(tf: &TaskFile, dag: Dag, r: Vec<Vec<String>>, i: int)
    requires
        call_ensures(Dag::build, (tf,), Ok(dag)),
        call_ensures(Dag::levels, (&dag,), r),
        0 <= i < tf.tasks@.len(),
    ensures
        exists|k: int|
            {
                &&& 0 <= k < r@.len()
                &&& stands_in(#[trigger] r@[k]@, tf.tasks@[i].id@)
                &&& forall|d: int|
                    0 <= d < tf.tasks@[i].depends_on@.len() ==> exists|j: int|
                        0 <= j < k && stands_in(
                            #[trigger] r@[j]@,
                            (#[trigger] tf.tasks@[i].depends_on@[d])@,
                        )
                &&& tf.tasks@[i].depends_on@.len() == 0 ==> k == 0
            },
{
    let tasks = tf.tasks@;
    let labels = graph_labels(dag.graph);
    let levels = level_views(r@);
    law_levels_complete(dag, levels, i);
    let k = choose|k: int| 0 <= k < levels.len() && (#[trigger] levels[k]).contains(labels[i]);
    lemma_stands_in(r@[k]@, tasks[i].id@);
    assert forall|d: int| 0 <= d < tasks[i].depends_on@.len() implies exists|j: int|
        0 <= j < k && stands_in(#[trigger] r@[j]@, (#[trigger] tasks[i].depends_on@[d])@) by {
        let dep = tasks[i].depends_on@[d]@;
        assert(!missing_at(tasks, i, d));
        let from = choose|from: int| 0 <= from < labels.len() && labels[from] == dep;
        assert(tasks[from].id@ == dep);
        law_arc_iff_dependency(tf, dag, from, i);
        assert(graph_arcs(dag.graph).contains((from, i)));
        law_levels_complete(dag, levels, from);
        let j = choose|j: int| 0 <= j < levels.len() && (#[trigger] levels[j]).contains(dep);
        law_dependencies_first(dag, levels, from, i, j, k);
        lemma_stands_in(r@[j]@, dep);
        assert(stands_in(r@[j]@, dep));
    }
    if tasks[i].depends_on@.len() == 0 && k > 0 {
        law_levels_tight(dag, levels, i, k);
        let from = choose|from: int| #[trigger] graph_arcs(dag.graph).contains((from, i));
        lemma_arcs_of(tasks, tasks.len(), from, i);
    }
    assert(stands_in(r@[k]@, tasks[i].id@));
}

/// Whether an id stands among texts.
pub open spec fn stands_in(level: Seq<String>, id: Seq<char>) -> bool {
    exists|a: int| 0 <= a < level.len() && (#[trigger] level[a])@ == id
}

/// What stands among texts stands among their views.
proof fn lemma_stands_in(level: Seq<String>, id: Seq<char>)
    requires
        views(level).contains(id),
    ensures
        stands_in(level, id),
{
    let a = choose|a: int| 0 <= a < views(level).len() && views(level)[a] == id;
    assert(level[a]@ == id);
}

} // verus!
