//! The file graph of the structural reports: import and call edges between
//! files, neighbours, reachability and weakly connected components.
use crate::order::{sorted_insert, sorted_unique, strictly_sorted, texts_contain};
use crate::snapshot::Snapshot;
use crate::structural::FileFacts;
use crate::text::{push_line, text_eq, Text};
use vstd::prelude::*;

verus! {

/// The file graph: every dependency edge, and the import and call edges
/// separately, each as `(from, to)`.
pub struct StructuralGraph {
    pub edges: Vec<(String, String)>,
    pub import_edges: Vec<(String, String)>,
    pub call_edges: Vec<(String, String)>,
}

/// The edges as pairs of texts.
pub open spec fn edge_view(edges: Seq<(String, String)>) -> Seq<(Text, Text)> {
    edges.map_values(|e: (String, String)| (e.0@, e.1@))
}

/// The files that `p` has an edge to.
pub open spec fn targets_of(edges: Seq<(Text, Text)>, p: Text) -> Set<Text> {
    Set::new(|t: Text| exists|i: int| 0 <= i < edges.len() && (#[trigger] edges[i]).0 == p && edges[i].1 == t)
}

/// The files that have an edge to `p`.
pub open spec fn sources_of(edges: Seq<(Text, Text)>, p: Text) -> Set<Text> {
    Set::new(|s: Text| exists|i: int| 0 <= i < edges.len() && (#[trigger] edges[i]).1 == p && edges[i].0 == s)
}

fn push_edge(edges: &mut Vec<(String, String)>, from: &String, to: &String)
    ensures
        edge_view(final(edges)@) == edge_view(old(edges)@).push((from@, to@)),
{
    edges.push((from.clone(), to.clone()));
    assert(edge_view(edges@) =~= edge_view(old(edges)@).push((from@, to@)));
}

/// The graph holds the snapshot's import edges, its call edges, and both
/// together, imports first.
pub open spec fn graph_of(g: StructuralGraph, snapshot: Snapshot) -> bool {
    &&& edge_view(g.import_edges@) == snapshot.import_graph@.map_values(|e: crate::snapshot::ImportEdge| (e.from_file@, e.to_file@))
    &&& edge_view(g.call_edges@) == snapshot.call_graph@.map_values(|e: crate::snapshot::CallEdge| (e.from_file@, e.to_file@))
    &&& edge_view(g.edges@) == edge_view(g.import_edges@) + edge_view(g.call_edges@)
}

/// The graph of a snapshot: its import edges, then its call edges.
pub fn build_structural_graph(snapshot: &Snapshot) -> (g: StructuralGraph)
    ensures
        graph_of(g, *snapshot),
{
    let ghost imports = snapshot.import_graph@.map_values(|e: crate::snapshot::ImportEdge| (e.from_file@, e.to_file@));
    let ghost calls = snapshot.call_graph@.map_values(|e: crate::snapshot::CallEdge| (e.from_file@, e.to_file@));
    let mut edges: Vec<(String, String)> = Vec::new();
    let mut import_edges: Vec<(String, String)> = Vec::new();
    let mut call_edges: Vec<(String, String)> = Vec::new();
    let mut i: usize = 0;
    while i < snapshot.import_graph.len()
        invariant
            imports == snapshot.import_graph@.map_values(|e: crate::snapshot::ImportEdge| (e.from_file@, e.to_file@)),
            i <= snapshot.import_graph@.len(),
            edge_view(import_edges@) == imports.take(i as int),
            edge_view(edges@) == imports.take(i as int),
        decreases snapshot.import_graph@.len() - i,
    {
        let e = &snapshot.import_graph[i];
        push_edge(&mut import_edges, &e.from_file, &e.to_file);
        push_edge(&mut edges, &e.from_file, &e.to_file);
        i = i + 1;
        assert(imports.take(i as int) =~= imports.take(i - 1).push(imports[i - 1]));
    }
    assert(imports.take(i as int) =~= imports);
    let mut j: usize = 0;
    while j < snapshot.call_graph.len()
        invariant
            calls == snapshot.call_graph@.map_values(|e: crate::snapshot::CallEdge| (e.from_file@, e.to_file@)),
            j <= snapshot.call_graph@.len(),
            edge_view(import_edges@) == imports,
            edge_view(call_edges@) == calls.take(j as int),
            edge_view(edges@) == imports + calls.take(j as int),
        decreases snapshot.call_graph@.len() - j,
    {
        let e = &snapshot.call_graph[j];
        push_edge(&mut call_edges, &e.from_file, &e.to_file);
        push_edge(&mut edges, &e.from_file, &e.to_file);
        j = j + 1;
        assert(calls.take(j as int) =~= calls.take(j - 1).push(calls[j - 1]));
        assert(imports + calls.take(j as int) =~= (imports + calls.take(j - 1)).push(calls[j - 1]));
    }
    assert(calls.take(j as int) =~= calls);
    StructuralGraph { edges, import_edges, call_edges }
}

/// The files `path` has an edge to, in increasing order.
pub fn targets(edges: &Vec<(String, String)>, path: &str) -> (r: Vec<String>)
    ensures
        strictly_sorted(r.deep_view()),
        r.deep_view().to_set() == targets_of(edge_view(edges@), path@),
{
    let ghost ev = edge_view(edges@);
    let mut r: Vec<String> = Vec::new();
    let mut i: usize = 0;
    while i < edges.len()
        invariant
            ev == edge_view(edges@),
            i <= edges@.len(),
            strictly_sorted(r.deep_view()),
            r.deep_view().to_set() == targets_of(ev.take(i as int), path@),
        decreases edges@.len() - i,
    {
        let ghost before = targets_of(ev.take(i as int), path@);
        let ghost after = targets_of(ev.take(i + 1), path@);
        assert forall|t: Text| before.contains(t) implies after.contains(t) by {
            let k = choose|k: int| 0 <= k < i && (#[trigger] ev.take(i as int)[k]).0 == path@ && ev.take(i as int)[k].1 == t;
            assert(ev.take(i + 1)[k] == ev.take(i as int)[k]);
        }
        if text_eq(edges[i].0.as_str(), path) {
            sorted_insert(&mut r, edges[i].1.as_str());
            assert(ev.take(i + 1)[i as int] == ev[i as int]);
            assert(after =~= before.insert(ev[i as int].1)) by {
                assert forall|t: Text| after.contains(t) implies before.insert(ev[i as int].1).contains(t) by {
                    let k = choose|k: int| 0 <= k < i + 1 && (#[trigger] ev.take(i + 1)[k]).0 == path@ && ev.take(i + 1)[k].1 == t;
                    if k < i {
                        assert(ev.take(i as int)[k] == ev.take(i + 1)[k]);
                    }
                }
            }
        } else {
            assert(after =~= before) by {
                assert forall|t: Text| after.contains(t) implies before.contains(t) by {
                    let k = choose|k: int| 0 <= k < i + 1 && (#[trigger] ev.take(i + 1)[k]).0 == path@ && ev.take(i + 1)[k].1 == t;
                    if k < i {
                        assert(ev.take(i as int)[k] == ev.take(i + 1)[k]);
                    } else {
                        assert(ev.take(i + 1)[k] == ev[i as int]);
                    }
                }
            }
        }
        i = i + 1;
    }
    assert(ev.take(edges@.len() as int) =~= ev);
    r
}

/// The edges reversed.
pub open spec fn reversed(edges: Seq<(Text, Text)>) -> Seq<(Text, Text)> {
    edges.map_values(|e: (Text, Text)| (e.1, e.0))
}

/// The edges, reversed.
pub fn reverse_edges(edges: &Vec<(String, String)>) -> (r: Vec<(String, String)>)
    ensures
        edge_view(r@) == reversed(edge_view(edges@)),
{
    let ghost expected = reversed(edge_view(edges@));
    let mut r: Vec<(String, String)> = Vec::new();
    let mut i: usize = 0;
    while i < edges.len()
        invariant
            expected == reversed(edge_view(edges@)),
            i <= edges@.len(),
            edge_view(r@) == expected.take(i as int),
        decreases edges@.len() - i,
    {
        push_edge(&mut r, &edges[i].1, &edges[i].0);
        i = i + 1;
        assert(expected.take(i as int) =~= expected.take(i - 1).push(expected[i - 1]));
    }
    assert(expected.take(edges@.len() as int) =~= expected);
    r
}

/// The files `path` has an edge from, in increasing order.
pub fn sources(edges: &Vec<(String, String)>, path: &str) -> (r: Vec<String>)
    ensures
        strictly_sorted(r.deep_view()),
        r.deep_view().to_set() == sources_of(edge_view(edges@), path@),
{
    let rev = reverse_edges(edges);
    let r = targets(&rev, path);
    let ghost ev = edge_view(edges@);
    let ghost rv = edge_view(rev@);
    assert(targets_of(rv, path@) =~= sources_of(ev, path@)) by {
        assert forall|s: Text| sources_of(ev, path@).contains(s) implies targets_of(rv, path@).contains(s) by {
            let k = choose|k: int| 0 <= k < ev.len() && (#[trigger] ev[k]).1 == path@ && ev[k].0 == s;
            assert(rv[k] == (ev[k].1, ev[k].0));
        }
        assert forall|s: Text| targets_of(rv, path@).contains(s) implies sources_of(ev, path@).contains(s) by {
            let k = choose|k: int| 0 <= k < rv.len() && (#[trigger] rv[k]).0 == path@ && rv[k].1 == s;
            assert(rv[k] == (ev[k].1, ev[k].0));
        }
    }
    r
}

/// The files reachable from `roots` in at most `n` steps.
pub open spec fn reach_within(edges: Seq<(Text, Text)>, roots: Set<Text>, n: nat) -> Set<Text>
    decreases n,
{
    if n == 0 {
        roots
    } else {
        let prev = reach_within(edges, roots, (n - 1) as nat);
        prev.union(step_from(edges, prev))
    }
}

/// The files one edge away from `from`.
pub open spec fn step_from(edges: Seq<(Text, Text)>, from: Set<Text>) -> Set<Text> {
    Set::new(|t: Text| exists|i: int| 0 <= i < edges.len() && from.contains((#[trigger] edges[i]).0) && edges[i].1 == t)
}

/// Once a step adds nothing, no later step does.
pub proof fn lemma_reach_fixpoint(edges: Seq<(Text, Text)>, roots: Set<Text>, n: nat, m: nat)
    requires
        reach_within(edges, roots, n) == reach_within(edges, roots, n + 1),
        n <= m,
    ensures
        reach_within(edges, roots, m) == reach_within(edges, roots, n),
    decreases m - n,
{
    if n < m {
        lemma_reach_fixpoint(edges, roots, n, (m - 1) as nat);
        assert(reach_within(edges, roots, m) == reach_within(edges, roots, (m - 1) as nat).union(
            step_from(edges, reach_within(edges, roots, (m - 1) as nat)),
        ));
    }
}

fn step_once(edges: &Vec<(String, String)>, current: &Vec<String>) -> (r: Vec<String>)
    requires
        strictly_sorted(current.deep_view()),
    ensures
        strictly_sorted(r.deep_view()),
        r.deep_view().to_set() == current.deep_view().to_set().union(
            step_from(edge_view(edges@), current.deep_view().to_set()),
        ),
{
    let ghost ev = edge_view(edges@);
    let ghost from = current.deep_view().to_set();
    let mut r = crate::clone_groups::copy_strings(current);
    assert(r.deep_view() =~= current.deep_view());
    let mut i: usize = 0;
    while i < edges.len()
        invariant
            ev == edge_view(edges@),
            from == current.deep_view().to_set(),
            i <= edges@.len(),
            strictly_sorted(r.deep_view()),
            r.deep_view().to_set() == from.union(step_from(ev.take(i as int), from)),
        decreases edges@.len() - i,
    {
        let ghost before = step_from(ev.take(i as int), from);
        let ghost after = step_from(ev.take(i + 1), from);
        assert forall|t: Text| before.contains(t) implies after.contains(t) by {
            let k = choose|k: int| 0 <= k < i && from.contains((#[trigger] ev.take(i as int)[k]).0) && ev.take(i as int)[k].1 == t;
            assert(ev.take(i + 1)[k] == ev.take(i as int)[k]);
        }
        assert(ev.take(i + 1)[i as int] == ev[i as int]);
        if texts_contain(current, edges[i].0.as_str()) {
            sorted_insert(&mut r, edges[i].1.as_str());
            assert(after =~= before.insert(ev[i as int].1)) by {
                assert forall|t: Text| after.contains(t) implies before.insert(ev[i as int].1).contains(t) by {
                    let k = choose|k: int| 0 <= k < i + 1 && from.contains((#[trigger] ev.take(i + 1)[k]).0) && ev.take(i + 1)[k].1 == t;
                    if k < i {
                        assert(ev.take(i as int)[k] == ev.take(i + 1)[k]);
                    }
                }
            }
            assert(from.union(after) =~= from.union(before).insert(ev[i as int].1));
        } else {
            assert(after =~= before) by {
                assert forall|t: Text| after.contains(t) implies before.contains(t) by {
                    let k = choose|k: int| 0 <= k < i + 1 && from.contains((#[trigger] ev.take(i + 1)[k]).0) && ev.take(i + 1)[k].1 == t;
                    if k < i {
                        assert(ev.take(i as int)[k] == ev.take(i + 1)[k]);
                    } else {
                        assert(ev.take(i + 1)[k] == ev[i as int]);
                        assert(current.deep_view().contains(ev[i as int].0));
                    }
                }
            }
        }
        i = i + 1;
    }
    assert(ev.take(edges@.len() as int) =~= ev);
    r
}

/// The step bound of reachability: every file of a path without repeats is a
/// root or an edge target, so no such path has more steps than this.
pub open spec fn step_bound(roots: Seq<Text>, edges: Seq<(String, String)>) -> nat {
    roots.len() + edges.len()
}

/// The files reachable from `roots` along the edges, in increasing order: the
/// roots and every file within `step_bound` steps of them.
pub fn reachable_files(edges: &Vec<(String, String)>, roots: &Vec<String>) -> (r: Vec<String>)
    requires
        strictly_sorted(roots.deep_view()),
        roots@.len() + edges@.len() < usize::MAX,
    ensures
        strictly_sorted(r.deep_view()),
        r.deep_view().to_set() == reach_within(
            edge_view(edges@),
            roots.deep_view().to_set(),
            step_bound(roots.deep_view(), edges@),
        ),
{
    let ghost ev = edge_view(edges@);
    let ghost rs = roots.deep_view().to_set();
    let bound = roots.len() + edges.len();
    let mut current = crate::clone_groups::copy_strings(roots);
    assert(current.deep_view() =~= roots.deep_view());
    let mut n: usize = 0;
    while n < bound
        invariant
            ev == edge_view(edges@),
            rs == roots.deep_view().to_set(),
            bound == roots@.len() + edges@.len(),
            n <= bound,
            strictly_sorted(current.deep_view()),
            current.deep_view().to_set() == reach_within(ev, rs, n as nat),
        decreases bound - n,
    {
        let next = step_once(edges, &current);
        if next.len() == current.len() {
            proof {
                let a = current.deep_view();
                let b = next.deep_view();
                crate::order::lemma_sorted_no_duplicates(a);
                crate::order::lemma_sorted_no_duplicates(b);
                a.unique_seq_to_set();
                b.unique_seq_to_set();
                assert(a.to_set().subset_of(b.to_set()));
                vstd::set_lib::lemma_subset_equality(a.to_set(), b.to_set());
                assert(reach_within(ev, rs, (n + 1) as nat) == reach_within(ev, rs, n as nat));
                lemma_reach_fixpoint(ev, rs, n as nat, bound as nat);
            }
            return current;
        }
        current = next;
        n = n + 1;
    }
    current
}

/// The position of the first facts entry for `p`.
pub open spec fn fact_index(facts: Seq<FileFacts>, p: Text) -> Option<int>
    decreases facts.len(),
{
    if facts.len() == 0 {
        None
    } else {
        match fact_index(facts.drop_last(), p) {
            Some(i) => Some(i),
            None => if facts.last().path@ == p { Some(facts.len() - 1) } else { None },
        }
    }
}

/// Where `fact_index` points, it points at an entry for `p`.
pub proof fn lemma_fact_index(facts: Seq<FileFacts>, p: Text)
    ensures
        fact_index(facts, p) matches Some(i) ==> 0 <= i < facts.len() && facts[i].path@ == p,
        fact_index(facts, p) is None ==> forall|k: int| 0 <= k < facts.len() ==> (#[trigger] facts[k]).path@ != p,
    decreases facts.len(),
{
    if facts.len() > 0 {
        lemma_fact_index(facts.drop_last(), p);
        assert forall|k: int| 0 <= k < facts.len() - 1 implies facts[k] == facts.drop_last()[k] by {}
    }
}

/// The position of the facts for `path`, if the file was analysed (see `fact_index`).
pub fn find_facts(facts: &Vec<FileFacts>, path: &str) -> (r: Option<usize>)
    ensures
        r matches Some(i) ==> fact_index(facts@, path@) == Some(i as int) && i < facts@.len()
            && facts@[i as int].path@ == path@,
        r is None ==> fact_index(facts@, path@) is None,
{
    let mut i: usize = 0;
    while i < facts.len()
        invariant
            i <= facts@.len(),
            fact_index(facts@.take(i as int), path@) is None,
        decreases facts@.len() - i,
    {
        assert(facts@.take(i + 1).drop_last() =~= facts@.take(i as int));
        if text_eq(facts[i].path.as_str(), path) {
            proof {
                lemma_fact_prefix(facts@, i + 1, path@);
            }
            return Some(i);
        }
        i = i + 1;
    }
    assert(facts@.take(facts@.len() as int) =~= facts@);
    None
}

proof fn lemma_fact_prefix(facts: Seq<FileFacts>, k: int, p: Text)
    requires
        0 < k <= facts.len(),
        fact_index(facts.take(k), p) is Some,
    ensures
        fact_index(facts, p) == fact_index(facts.take(k), p),
    decreases facts.len() - k,
{
    if k < facts.len() {
        assert(facts.drop_last().take(k) =~= facts.take(k));
        lemma_fact_prefix(facts.drop_last(), k, p);
    } else {
        assert(facts.take(k) =~= facts);
    }
}

/// `p` was analysed and is a test file.
pub open spec fn is_test_fact(facts: Seq<FileFacts>, p: Text) -> bool {
    match fact_index(facts, p) {
        Some(i) => facts[i].is_test,
        None => false,
    }
}

/// `p` was analysed and is not a test file.
pub open spec fn is_production_fact(facts: Seq<FileFacts>, p: Text) -> bool {
    match fact_index(facts, p) {
        Some(i) => !facts[i].is_test,
        None => false,
    }
}

fn production_fact(facts: &Vec<FileFacts>, path: &str) -> (r: bool)
    ensures
        r == is_production_fact(facts@, path@),
{
    match find_facts(facts, path) {
        Some(i) => !facts[i].is_test,
        None => false,
    }
}

fn test_fact(facts: &Vec<FileFacts>, path: &str) -> (r: bool)
    ensures
        r == is_test_fact(facts@, path@),
{
    match find_facts(facts, path) {
        Some(i) => facts[i].is_test,
        None => false,
    }
}

/// The analysed files outside `component` that are not tests and have an
/// edge into it.
pub open spec fn outside_production_sources(facts: Seq<FileFacts>, edges: Seq<(Text, Text)>, component: Set<Text>) -> Set<
    Text,
> {
    Set::new(
        |s: Text|
            !component.contains(s) && is_production_fact(facts, s) && exists|i: int|
                0 <= i < edges.len() && (#[trigger] edges[i]).0 == s && component.contains(edges[i].1),
    )
}

/// How many analysed non-test files outside `component` have an edge into it.
pub fn external_non_test_inbound_count(component: &Vec<String>, facts: &Vec<FileFacts>, edges: &Vec<(String, String)>) -> (n:
    usize)
    ensures
        n == outside_production_sources(facts@, edge_view(edges@), component.deep_view().to_set()).len(),
{
    let ghost ev = edge_view(edges@);
    let ghost comp = component.deep_view().to_set();
    let mut found: Vec<String> = Vec::new();
    let mut i: usize = 0;
    while i < edges.len()
        invariant
            ev == edge_view(edges@),
            comp == component.deep_view().to_set(),
            i <= edges@.len(),
            strictly_sorted(found.deep_view()),
            found.deep_view().to_set() == outside_production_sources(facts@, ev.take(i as int), comp),
        decreases edges@.len() - i,
    {
        let ghost before = outside_production_sources(facts@, ev.take(i as int), comp);
        let ghost after = outside_production_sources(facts@, ev.take(i + 1), comp);
        assert(ev.take(i + 1)[i as int] == ev[i as int]);
        assert forall|s: Text| before.contains(s) implies after.contains(s) by {
            let k = choose|k: int| 0 <= k < i && (#[trigger] ev.take(i as int)[k]).0 == s && comp.contains(ev.take(i as int)[k].1);
            assert(ev.take(i + 1)[k] == ev.take(i as int)[k]);
        }
        let source = edges[i].0.as_str();
        if !texts_contain(component, source) && production_fact(facts, source) && texts_contain(component, edges[i].1.as_str()) {
            sorted_insert(&mut found, source);
            assert(after =~= before.insert(ev[i as int].0)) by {
                assert forall|s: Text| after.contains(s) implies before.insert(ev[i as int].0).contains(s) by {
                    let k = choose|k: int| 0 <= k < i + 1 && (#[trigger] ev.take(i + 1)[k]).0 == s && comp.contains(ev.take(i + 1)[k].1);
                    if k < i {
                        assert(ev.take(i as int)[k] == ev.take(i + 1)[k]);
                    }
                }
            }
        } else {
            assert(after =~= before) by {
                assert forall|s: Text| after.contains(s) implies before.contains(s) by {
                    let k = choose|k: int| 0 <= k < i + 1 && (#[trigger] ev.take(i + 1)[k]).0 == s && comp.contains(ev.take(i + 1)[k].1);
                    if k < i {
                        assert(ev.take(i as int)[k] == ev.take(i + 1)[k]);
                    } else {
                        assert(ev.take(i + 1)[k] == ev[i as int]);
                    }
                }
            }
        }
        i = i + 1;
    }
    assert(ev.take(edges@.len() as int) =~= ev);
    proof {
        crate::order::lemma_sorted_no_duplicates(found.deep_view());
        found.deep_view().unique_seq_to_set();
    }
    found.len()
}

/// The largest listed cycle that holds `p`; zero when none does.
pub open spec fn cycle_size_of(cycles: Seq<Seq<Text>>, p: Text) -> nat
    decreases cycles.len(),
{
    if cycles.len() == 0 {
        0
    } else {
        let prev = cycle_size_of(cycles.drop_last(), p);
        let c = cycles.last();
        if c.contains(p) && c.len() > prev { c.len() } else { prev }
    }
}

/// The largest listed cycle that holds `path` (see `cycle_size_of`).
pub fn cycle_size_for(cycles: &Vec<Vec<String>>, path: &str) -> (n: usize)
    ensures
        n == cycle_size_of(cycles.deep_view(), path@),
{
    let ghost cv = cycles.deep_view();
    let mut n: usize = 0;
    let mut i: usize = 0;
    while i < cycles.len()
        invariant
            cv == cycles.deep_view(),
            i <= cv.len(),
            n == cycle_size_of(cv.take(i as int), path@),
        decreases cv.len() - i,
    {
        assert(cv.take(i + 1).drop_last() =~= cv.take(i as int));
        assert(cv.take(i + 1).last() == cycles@[i as int].deep_view());
        if texts_contain(&cycles[i], path) && cycles[i].len() > n {
            n = cycles[i].len();
        }
        i = i + 1;
    }
    assert(cv.take(cv.len() as int) =~= cv);
    n
}

} // verus!
