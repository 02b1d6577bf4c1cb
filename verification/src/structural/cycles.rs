//! Dependency cycles: the import edges whose removal shrinks a cycle, and the
//! cycle reports built on them.
use crate::order::{sorted_unique, strictly_sorted, texts_contain};
use crate::paths::{path_category, path_category_of};
use crate::sorting::{ranked_order, sort_ranked, Ranked};
use crate::structural::facts::contextual_role_tags;
use crate::grouping::sorted_set;
use crate::structural::graph::{edge_view, fact_index, find_facts, reachable_files, targets, StructuralGraph};
use crate::structural::roles::{annotate_structural_leverage, structural_presentation_class};
use crate::structural::scoring::{cycle_cluster_score, cycle_cluster_score_of, severity_of_score, signal_severity};
use crate::structural::utils::{dedupe_strings_preserve_order, has_role_tag, lower_text, to_ascii_lower};
use crate::structural::{
    CycleCutCandidate, FileFacts, HealthReport, StructuralDebtMetrics, StructuralDebtReport, StructuralSignalClass,
    StructuralTrustTier,
};
use crate::text::{contains, dec, decimal, join_texts, push_line, text_eq, Text};
use vstd::prelude::*;

verus! {

impl Ranked for CycleCutCandidate {
    /// Higher score first, then larger reduction, then source and target.
    open spec fn ranks_before(self, other: Self) -> bool {
        ||| self.score_0_10000 > other.score_0_10000
        ||| (self.score_0_10000 == other.score_0_10000 && self.reduction_file_count > other.reduction_file_count)
        ||| (self.score_0_10000 == other.score_0_10000 && self.reduction_file_count == other.reduction_file_count
            && crate::order::lex_lt(self.source@, other.source@))
        ||| (self.score_0_10000 == other.score_0_10000 && self.reduction_file_count == other.reduction_file_count
            && self.source@ == other.source@ && crate::order::lex_lt(self.target@, other.target@))
    }

    fn is_ranked_before(&self, other: &Self) -> (r: bool) {
        if self.score_0_10000 != other.score_0_10000 {
            return self.score_0_10000 > other.score_0_10000;
        }
        if self.reduction_file_count != other.reduction_file_count {
            return self.reduction_file_count > other.reduction_file_count;
        }
        if !text_eq(self.source.as_str(), other.source.as_str()) {
            return crate::order::text_less(self.source.as_str(), other.source.as_str());
        }
        crate::order::text_less(self.target.as_str(), other.target.as_str())
    }

    proof fn lemma_ranking_irreflexive(a: Self) {
        crate::order::lemma_lex_irreflexive(a.source@);
        crate::order::lemma_lex_irreflexive(a.target@);
    }

    proof fn lemma_ranking_transitive(a: Self, b: Self, c: Self) {
        if crate::order::lex_lt(a.source@, b.source@) && crate::order::lex_lt(b.source@, c.source@) {
            crate::order::lemma_lex_transitive(a.source@, b.source@, c.source@);
        }
        if crate::order::lex_lt(a.target@, b.target@) && crate::order::lex_lt(b.target@, c.target@) {
            crate::order::lemma_lex_transitive(a.target@, b.target@, c.target@);
        }
    }

    proof fn lemma_ranking_connected(a: Self, b: Self, c: Self) {
        crate::order::lemma_lex_total(a.source@, b.source@);
        crate::order::lemma_lex_total(b.source@, c.source@);
        crate::order::lemma_lex_total(a.target@, b.target@);
        crate::order::lemma_lex_total(b.target@, c.target@);
        if crate::order::lex_lt(b.source@, a.source@) && crate::order::lex_lt(c.source@, b.source@) {
            crate::order::lemma_lex_transitive(c.source@, b.source@, a.source@);
            crate::order::lemma_lex_asymmetric(c.source@, a.source@);
        }
        if crate::order::lex_lt(b.source@, a.source@) {
            crate::order::lemma_lex_asymmetric(b.source@, a.source@);
        }
        if crate::order::lex_lt(c.source@, b.source@) {
            crate::order::lemma_lex_asymmetric(c.source@, b.source@);
        }
        if crate::order::lex_lt(b.target@, a.target@) && crate::order::lex_lt(c.target@, b.target@) {
            crate::order::lemma_lex_transitive(c.target@, b.target@, a.target@);
            crate::order::lemma_lex_asymmetric(c.target@, a.target@);
        }
        if crate::order::lex_lt(b.target@, a.target@) {
            crate::order::lemma_lex_asymmetric(b.target@, a.target@);
        }
        if crate::order::lex_lt(c.target@, b.target@) {
            crate::order::lemma_lex_asymmetric(c.target@, b.target@);
        }
        if crate::order::lex_lt(a.source@, c.source@) && !crate::order::lex_lt(a.source@, b.source@) && a.source@ != b.source@ {
            crate::order::lemma_lex_transitive(b.source@, a.source@, c.source@);
        }
        if crate::order::lex_lt(a.target@, c.target@) && !crate::order::lex_lt(a.target@, b.target@) && a.target@ != b.target@ {
            crate::order::lemma_lex_transitive(b.target@, a.target@, c.target@);
        }
    }
}

/// The files one edge of the set away from `from`.
pub open spec fn set_step(es: Set<(Text, Text)>, from: Set<Text>) -> Set<Text> {
    Set::new(|t: Text| exists|s: Text| from.contains(s) && es.contains((s, t)))
}

/// The files reachable from `roots` in at most `n` steps along the edge set.
pub open spec fn set_reach_within(es: Set<(Text, Text)>, roots: Set<Text>, n: nat) -> Set<Text>
    decreases n,
{
    if n == 0 {
        roots
    } else {
        let prev = set_reach_within(es, roots, (n - 1) as nat);
        prev.union(set_step(es, prev))
    }
}

/// The files reachable from `x` along the edge set: within one step more
/// than there are edges, which no path without repeats exceeds.
pub open spec fn cycle_reach(es: Set<(Text, Text)>, x: Text) -> Set<Text> {
    set_reach_within(es, Set::<Text>::empty().insert(x), es.len() + 1)
}

proof fn lemma_reach_agrees(ev: Seq<(Text, Text)>, roots: Set<Text>, n: nat)
    ensures
        crate::structural::graph::reach_within(ev, roots, n) == set_reach_within(ev.to_set(), roots, n),
    decreases n,
{
    if n > 0 {
        lemma_reach_agrees(ev, roots, (n - 1) as nat);
        let prev = set_reach_within(ev.to_set(), roots, (n - 1) as nat);
        assert(crate::structural::graph::step_from(ev, prev) =~= set_step(ev.to_set(), prev)) by {
            assert forall|t: Text| crate::structural::graph::step_from(ev, prev).contains(t) implies set_step(
                ev.to_set(),
                prev,
            ).contains(t) by {
                let i = choose|i: int| 0 <= i < ev.len() && prev.contains((#[trigger] ev[i]).0) && ev[i].1 == t;
                assert(ev.to_set().contains(ev[i]));
            }
            assert forall|t: Text| set_step(ev.to_set(), prev).contains(t) implies crate::structural::graph::step_from(
                ev,
                prev,
            ).contains(t) by {
                let s = choose|s: Text| prev.contains(s) && ev.to_set().contains((s, t));
                let i = choose|i: int| 0 <= i < ev.len() && ev[i] == (s, t);
            }
        }
    }
}

/// The import edges of the graph between files of the set, except `removed`.
pub open spec fn internal_edge_set(nodes: Set<Text>, imports: Seq<(Text, Text)>, removed: Option<(Text, Text)>) -> Set<
    (Text, Text),
> {
    Set::new(
        |e: (Text, Text)| imports.contains(e) && nodes.contains(e.0) && nodes.contains(e.1) && removed != Some(e),
    )
}

fn has_edge(edges: &Vec<(String, String)>, s: &str, t: &str) -> (r: bool)
    ensures
        r == edge_view(edges@).contains((s@, t@)),
{
    let ghost ev = edge_view(edges@);
    let mut i: usize = 0;
    while i < edges.len()
        invariant
            i <= edges@.len(),
            ev == edge_view(edges@),
            forall|k: int| 0 <= k < i ==> ev[k] != (s@, t@),
        decreases edges@.len() - i,
    {
        if text_eq(edges[i].0.as_str(), s) && text_eq(edges[i].1.as_str(), t) {
            assert(ev[i as int] == (s@, t@));
            return true;
        }
        i = i + 1;
    }
    false
}

/// The import edges between files of the cycle, except `removed`, each once.
fn cycle_edges(nodes: &Vec<String>, g: &StructuralGraph, removed: Option<(&str, &str)>) -> (r: Vec<(String, String)>)
    ensures
        edge_view(r@).no_duplicates(),
        edge_view(r@).to_set() == internal_edge_set(
            nodes.deep_view().to_set(),
            edge_view(g.import_edges@),
            match removed {
                Some((s, t)) => Some((s@, t@)),
                None => None,
            },
        ),
        r@.len() <= g.import_edges@.len(),
{
    let ghost rm = match removed {
        Some((s, t)) => Some((s@, t@)),
        None => None::<(Text, Text)>,
    };
    let ghost iv = edge_view(g.import_edges@);
    let ghost ns = nodes.deep_view().to_set();
    let mut r: Vec<(String, String)> = Vec::new();
    let mut i: usize = 0;
    assert(edge_view(r@) =~= Seq::<(Text, Text)>::empty());
    while i < g.import_edges.len()
        invariant
            i <= iv.len(),
            iv == edge_view(g.import_edges@),
            ns == nodes.deep_view().to_set(),
            rm == match removed {
                Some((s, t)) => Some((s@, t@)),
                None => None::<(Text, Text)>,
            },
            r@.len() <= i,
            edge_view(r@).no_duplicates(),
            edge_view(r@).to_set() == Set::new(
                |e: (Text, Text)|
                    (exists|q: int| 0 <= q < i && #[trigger] iv[q] == e) && ns.contains(e.0) && ns.contains(e.1) && rm
                        != Some(e),
            ),
        decreases iv.len() - i,
    {
        let e = &g.import_edges[i];
        assert(iv[i as int] == (e.0@, e.1@));
        let skip = match removed {
            Some((s, t)) => {
                let b = text_eq(e.0.as_str(), s) && text_eq(e.1.as_str(), t);
                assert(b == ((s@, t@) == (e.0@, e.1@)));
                b
            },
            None => false,
        };
        assert(skip == (rm == Some((e.0@, e.1@))));
        let ghost before = edge_view(r@);
        if !skip && texts_contain(nodes, e.0.as_str()) && texts_contain(nodes, e.1.as_str()) && !has_edge(
            &r,
            e.0.as_str(),
            e.1.as_str(),
        ) {
            r.push((e.0.clone(), e.1.clone()));
            assert(edge_view(r@) =~= before.push((e.0@, e.1@)));
            proof {
                before.lemma_push_to_set_commute((e.0@, e.1@));
                assert forall|a: int, b: int| 0 <= a < b < edge_view(r@).len() implies edge_view(r@)[a] != edge_view(
                    r@,
                )[b] by {
                    if b == before.len() {
                        assert(before.contains(before[a]));
                    }
                }
            }
        }
        assert(edge_view(r@).to_set() =~= Set::new(
            |x: (Text, Text)|
                (exists|q: int| 0 <= q < i + 1 && #[trigger] iv[q] == x) && ns.contains(x.0) && ns.contains(x.1) && rm
                    != Some(x),
        )) by {
            assert forall|x: (Text, Text)| Set::new(
                |x: (Text, Text)|
                    (exists|q: int| 0 <= q < i + 1 && #[trigger] iv[q] == x) && ns.contains(x.0) && ns.contains(x.1) && rm
                        != Some(x),
            ).contains(x) implies edge_view(r@).to_set().contains(x) by {
                let q = choose|q: int| 0 <= q < i + 1 && #[trigger] iv[q] == x;
                if q == i && !before.to_set().contains(x) {
                    assert(!before.contains(x));
                }
            }
        }
        i = i + 1;
    }
    assert(edge_view(r@).to_set() =~= internal_edge_set(ns, iv, rm)) by {
        assert forall|x: (Text, Text)| internal_edge_set(ns, iv, rm).contains(x) implies edge_view(r@).to_set().contains(x) by {
            let q = choose|q: int| 0 <= q < iv.len() && iv[q] == x;
        }
    }
    r
}

fn single_root(p: &String) -> (r: Vec<String>)
    ensures
        strictly_sorted(r.deep_view()),
        r.deep_view() == seq![p@],
        r@.len() == 1,
{
    let mut r: Vec<String> = Vec::new();
    push_line(&mut r, p.clone());
    assert(r.deep_view() =~= seq![p@]);
    r
}

/// The file `v` is on a cycle: it has an edge to a file of the set that
/// reaches back to it.
pub open spec fn on_cycle(nodes: Seq<Text>, es: Set<(Text, Text)>, v: Text) -> bool {
    exists|w: int| 0 <= w < nodes.len() && es.contains((v, nodes[w])) && cycle_reach(es, #[trigger] nodes[w]).contains(v)
}

/// The files `v` and `w` reach each other.
pub open spec fn linked(es: Set<(Text, Text)>, v: Text, w: Text) -> bool {
    cycle_reach(es, v).contains(w) && cycle_reach(es, w).contains(v)
}

/// How many of the first `upto` files reach `v` and are reached from it.
pub open spec fn count_linked(nodes: Seq<Text>, upto: int, es: Set<(Text, Text)>, v: Text) -> nat
    decreases upto,
{
    if upto <= 0 {
        0
    } else {
        count_linked(nodes, upto - 1, es, v) + if linked(es, v, nodes[upto - 1]) {
            1nat
        } else {
            0nat
        }
    }
}

/// How many of the first `upto` files are on a cycle.
pub open spec fn cyclic_count(nodes: Seq<Text>, upto: int, es: Set<(Text, Text)>) -> nat
    decreases upto,
{
    if upto <= 0 {
        0
    } else {
        cyclic_count(nodes, upto - 1, es) + if on_cycle(nodes, es, nodes[upto - 1]) {
            1nat
        } else {
            0nat
        }
    }
}

/// The largest strongly connected group of files, over the first `upto`
/// files that are on a cycle.
pub open spec fn largest_cycle_upto(nodes: Seq<Text>, upto: int, es: Set<(Text, Text)>) -> nat
    decreases upto,
{
    if upto <= 0 {
        0
    } else {
        let prev = largest_cycle_upto(nodes, upto - 1, es);
        let size = count_linked(nodes, nodes.len() as int, es, nodes[upto - 1]);
        if on_cycle(nodes, es, nodes[upto - 1]) && size > prev {
            size
        } else {
            prev
        }
    }
}

/// The size of the largest remaining cycle and the number of files still on a
/// cycle, once the edges are those given.
fn cyclic_sizes(nodes: &Vec<String>, edges: &Vec<(String, String)>) -> (r: (usize, usize))
    requires
        edges@.len() + 1 < usize::MAX,
        edge_view(edges@).no_duplicates(),
    ensures
        r.0 == largest_cycle_upto(nodes.deep_view(), nodes@.len() as int, edge_view(edges@).to_set()),
        r.1 == cyclic_count(nodes.deep_view(), nodes@.len() as int, edge_view(edges@).to_set()),
        r.1 <= nodes@.len(),
{
    let ghost ev = edge_view(edges@);
    let ghost es = ev.to_set();
    let ghost nv = nodes.deep_view();
    proof {
        ev.unique_seq_to_set();
    }
    let mut reach: Vec<Vec<String>> = Vec::new();
    let mut i: usize = 0;
    while i < nodes.len()
        invariant
            edges@.len() + 1 < usize::MAX,
            ev == edge_view(edges@),
            es == ev.to_set(),
            es.len() == ev.len(),
            nv == nodes.deep_view(),
            i <= nodes@.len(),
            reach@.len() == i,
            forall|k: int| 0 <= k < i ==> (#[trigger] reach@[k]).deep_view().to_set() == cycle_reach(es, nv[k]),
        decreases nodes@.len() - i,
    {
        let root = single_root(&nodes[i]);
        let found = reachable_files(edges, &root);
        proof {
            assert(nv[i as int] == nodes@[i as int]@);
            assert(root.deep_view().to_set() =~= Set::<Text>::empty().insert(nv[i as int])) by {
                assert(root.deep_view()[0] == nv[i as int]);
            }
            lemma_reach_agrees(ev, root.deep_view().to_set(), (1 + edges@.len()) as nat);
        }
        reach.push(found);
        i = i + 1;
    }
    let mut largest: usize = 0;
    let mut cyclic: usize = 0;
    let mut v: usize = 0;
    while v < nodes.len()
        invariant
            ev == edge_view(edges@),
            es == ev.to_set(),
            nv == nodes.deep_view(),
            reach@.len() == nodes@.len(),
            forall|k: int| 0 <= k < nodes@.len() ==> (#[trigger] reach@[k]).deep_view().to_set() == cycle_reach(es, nv[k]),
            v <= nodes@.len(),
            cyclic <= v,
            cyclic == cyclic_count(nv, v as int, es),
            largest == largest_cycle_upto(nv, v as int, es),
        decreases nodes@.len() - v,
    {
        let name = nodes[v].as_str();
        assert(nv[v as int] == name@);
        let succ = targets(edges, name);
        let mut on: bool = false;
        let mut k: usize = 0;
        while k < succ.len()
            invariant
                ev == edge_view(edges@),
                es == ev.to_set(),
                nv == nodes.deep_view(),
                reach@.len() == nodes@.len(),
                forall|q: int| 0 <= q < nodes@.len() ==> (#[trigger] reach@[q]).deep_view().to_set() == cycle_reach(es, nv[q]),
                succ.deep_view().to_set() == crate::structural::graph::targets_of(ev, name@),
                k <= succ@.len(),
                on == exists|w: int|
                    0 <= w < nv.len() && succ.deep_view().take(k as int).contains(nv[w]) && cycle_reach(es, #[trigger] nv[w]).contains(
                        name@,
                    ),
            decreases succ@.len() - k,
        {
            let ghost before_on = on;
            let mut w: usize = 0;
            while w < nodes.len()
                invariant
                    nv == nodes.deep_view(),
                    es == ev.to_set(),
                    reach@.len() == nodes@.len(),
                    forall|q: int| 0 <= q < nodes@.len() ==> (#[trigger] reach@[q]).deep_view().to_set() == cycle_reach(es, nv[q]),
                    k < succ@.len(),
                    w <= nodes@.len(),
                    on == (before_on || exists|x: int|
                        0 <= x < w && nv[x] == succ.deep_view()[k as int] && cycle_reach(es, #[trigger] nv[x]).contains(name@)),
                decreases nodes@.len() - w,
            {
                assert(nv[w as int] == nodes@[w as int]@);
                if text_eq(nodes[w].as_str(), succ[k].as_str()) && texts_contain(&reach[w], name) {
                    on = true;
                }
                w = w + 1;
            }
            assert(succ.deep_view().take(k as int + 1) =~= succ.deep_view().take(k as int).push(succ.deep_view()[k as int]));
            assert(on == exists|x: int|
                0 <= x < nv.len() && succ.deep_view().take(k as int + 1).contains(nv[x]) && cycle_reach(es, #[trigger] nv[x]).contains(
                    name@,
                )) by {
                if on && !before_on {
                    let x = choose|x: int| 0 <= x < nodes@.len() && nv[x] == succ.deep_view()[k as int] && cycle_reach(es, #[trigger] nv[x]).contains(name@);
                    assert(succ.deep_view().take(k as int + 1)[k as int] == nv[x]);
                }
                if before_on {
                    let x = choose|x: int|
                        0 <= x < nv.len() && succ.deep_view().take(k as int).contains(nv[x]) && cycle_reach(es, #[trigger] nv[x]).contains(
                            name@,
                        );
                    let y = choose|y: int| 0 <= y < k && #[trigger] succ.deep_view().take(k as int)[y] == nv[x];
                    assert(succ.deep_view().take(k as int + 1)[y] == nv[x]);
                }
                if (exists|x: int|
                    0 <= x < nv.len() && succ.deep_view().take(k as int + 1).contains(nv[x]) && cycle_reach(es, #[trigger] nv[x]).contains(
                        name@,
                    )) && !before_on {
                    let x = choose|x: int|
                        0 <= x < nv.len() && succ.deep_view().take(k as int + 1).contains(nv[x]) && cycle_reach(es, #[trigger] nv[x]).contains(
                            name@,
                        );
                    let y = choose|y: int| 0 <= y < k + 1 && #[trigger] succ.deep_view().take(k as int + 1)[y] == nv[x];
                    if y < k {
                        assert(succ.deep_view().take(k as int)[y] == nv[x]);
                        assert(succ.deep_view().take(k as int).contains(nv[x]));
                    }
                }
            }
            k = k + 1;
        }
        assert(succ.deep_view().take(succ@.len() as int) =~= succ.deep_view());
        assert(on == on_cycle(nv, es, name@)) by {
            assert forall|w: int| 0 <= w < nv.len() implies (succ.deep_view().contains(nv[w]) == es.contains((name@, nv[w]))) by {
                assert(succ.deep_view().to_set().contains(nv[w]) == succ.deep_view().contains(nv[w]));
                if es.contains((name@, nv[w])) {
                    let q = choose|q: int| 0 <= q < ev.len() && ev[q] == (name@, nv[w]);
                    assert(crate::structural::graph::targets_of(ev, name@).contains(nv[w]));
                }
                if crate::structural::graph::targets_of(ev, name@).contains(nv[w]) {
                    let q = choose|q: int| 0 <= q < ev.len() && (#[trigger] ev[q]).0 == name@ && ev[q].1 == nv[w];
                    assert(ev[q] == (name@, nv[w]));
                    assert(ev.contains((name@, nv[w])));
                }
            }
        }
        if on {
            cyclic = cyclic + 1;
            let mut size: usize = 0;
            let mut w: usize = 0;
            while w < nodes.len()
                invariant
                    nv == nodes.deep_view(),
                    es == ev.to_set(),
                    reach@.len() == nodes@.len(),
                    forall|q: int| 0 <= q < nodes@.len() ==> (#[trigger] reach@[q]).deep_view().to_set() == cycle_reach(es, nv[q]),
                    v < nodes@.len(),
                    nv[v as int] == name@,
                    w <= nodes@.len(),
                    size <= w,
                    size == count_linked(nv, w as int, es, name@),
                decreases nodes@.len() - w,
            {
                assert(nv[w as int] == nodes@[w as int]@);
                if texts_contain(&reach[v], nodes[w].as_str()) && texts_contain(&reach[w], name) {
                    size = size + 1;
                }
                w = w + 1;
            }
            if size > largest {
                largest = size;
            }
        }
        v = v + 1;
    }
    (largest, cyclic)
}

/// Some seam of the path hints at a contract, schema, type, state or model.
pub open spec fn has_contract_hint(lowered: Text) -> bool {
    crate::text::contains_text(lowered, "contract"@) || crate::text::contains_text(lowered, "schema"@)
        || crate::text::contains_text(lowered, "types"@) || crate::text::contains_text(lowered, "state"@)
        || crate::text::contains_text(lowered, "model"@)
}

fn path_has_contract_hint(path: &str) -> (r: bool)
    ensures
        r == has_contract_hint(crate::structural::utils::lower_text(path@)),
{
    let lowered = to_ascii_lower(path);
    let l = lowered.as_str();
    contains(l, "contract") || contains(l, "schema") || contains(l, "types") || contains(l, "state") || contains(l, "model")
}

/// The two categories are the app and the store.
pub open spec fn app_store_pair(a: Text, b: Text) -> bool {
    (a == "app"@ && b == "store"@) || (a == "store"@ && b == "app"@)
}

fn is_app_store_boundary(source: &str, target: &str) -> (r: bool)
    ensures
        r == app_store_pair(source@, target@),
{
    (text_eq(source, "app") && text_eq(target, "store")) || (text_eq(source, "store") && text_eq(target, "app"))
}

/// The facts of `p` carry the role tag.
pub open spec fn role_at(facts: Seq<FileFacts>, p: Text, role: Text) -> bool {
    match fact_index(facts, p) {
        Some(i) => facts[i].role_tags.deep_view().contains(role),
        None => false,
    }
}

fn facts_have_role(facts: &Vec<FileFacts>, path: &str, role: &str) -> (r: bool)
    ensures
        r == role_at(facts@, path@, role@),
{
    match find_facts(facts, path) {
        Some(i) => has_role_tag(&facts[i].role_tags, role),
        None => false,
    }
}

/// The kind of seam an import edge of a cycle crosses.
pub open spec fn seam_kind_of(s: Text, t: Text, facts: Seq<FileFacts>) -> Text {
    let sc = path_category_of(s);
    let tc = path_category_of(t);
    if role_at(facts, s, "guarded_boundary"@) || role_at(facts, t, "guarded_boundary"@) {
        if app_store_pair(sc, tc) {
            "guarded_app_store_boundary"@
        } else {
            "guarded_boundary_cut"@
        }
    } else if role_at(facts, s, "facade_with_extracted_owners"@) || role_at(facts, t, "facade_with_extracted_owners"@) {
        "facade_owner_boundary"@
    } else if app_store_pair(sc, tc) {
        "app_store_boundary"@
    } else if has_contract_hint(lower_text(s)) || has_contract_hint(lower_text(t)) {
        "contract_or_type_extraction"@
    } else if sc != tc {
        "cross_layer_boundary"@
    } else {
        "local_module_split"@
    }
}

fn cycle_seam_kind(source: &str, target: &str, facts: &Vec<FileFacts>) -> (r: &'static str)
    ensures
        r@ == seam_kind_of(source@, target@, facts@),
{
    let sc = path_category(source);
    let tc = path_category(target);
    if facts_have_role(facts, source, "guarded_boundary") || facts_have_role(facts, target, "guarded_boundary") {
        if is_app_store_boundary(sc.as_str(), tc.as_str()) {
            return "guarded_app_store_boundary";
        }
        return "guarded_boundary_cut";
    }
    if facts_have_role(facts, source, "facade_with_extracted_owners") || facts_have_role(
        facts,
        target,
        "facade_with_extracted_owners",
    ) {
        return "facade_owner_boundary";
    }
    if is_app_store_boundary(sc.as_str(), tc.as_str()) {
        return "app_store_boundary";
    }
    if path_has_contract_hint(source) || path_has_contract_hint(target) {
        return "contract_or_type_extraction";
    }
    if !text_eq(sc.as_str(), tc.as_str()) {
        return "cross_layer_boundary";
    }
    "local_module_split"
}

/// How much a seam kind adds to a cut's score.
pub open spec fn seam_points_of(kind: Text) -> int {
    if kind == "guarded_app_store_boundary"@ {
        2200
    } else if kind == "guarded_boundary_cut"@ {
        2000
    } else if kind == "facade_owner_boundary"@ {
        1900
    } else if kind == "app_store_boundary"@ {
        1800
    } else if kind == "contract_or_type_extraction"@ {
        1500
    } else if kind == "cross_layer_boundary"@ {
        1200
    } else {
        700
    }
}

fn seam_points(kind: &str) -> (r: u32)
    ensures
        r == seam_points_of(kind@),
        r <= 2200,
{
    if text_eq(kind, "guarded_app_store_boundary") {
        2200
    } else if text_eq(kind, "guarded_boundary_cut") {
        2000
    } else if text_eq(kind, "facade_owner_boundary") {
        1900
    } else if text_eq(kind, "app_store_boundary") {
        1800
    } else if text_eq(kind, "contract_or_type_extraction") {
        1500
    } else if text_eq(kind, "cross_layer_boundary") {
        1200
    } else {
        700
    }
}

/// How many distinct files `s` imports.
pub open spec fn import_fan_out(imports: Seq<(Text, Text)>, s: Text) -> nat {
    sorted_set(crate::structural::graph::targets_of(imports, s)).len()
}

/// How many distinct files import `t`.
pub open spec fn import_fan_in(imports: Seq<(Text, Text)>, t: Text) -> nat {
    sorted_set(crate::structural::graph::sources_of(imports, t)).len()
}

fn count_edges_from(edges: &Vec<(String, String)>, s: &str) -> (n: usize)
    ensures
        n == import_fan_out(edge_view(edges@), s@),
{
    let t = targets(edges, s);
    proof {
        crate::grouping::lemma_sorted_set_of(t.deep_view());
    }
    t.len()
}

fn count_edges_to(edges: &Vec<(String, String)>, t: &str) -> (n: usize)
    ensures
        n == import_fan_in(edge_view(edges@), t@),
{
    let s = crate::structural::graph::sources(edges, t);
    proof {
        crate::grouping::lemma_sorted_set_of(s.deep_view());
    }
    s.len()
}

/// The score of a cut: a base of 2000, plus the share of cyclic files it
/// removes (up to 4500, rounded), the seam's points, the import pressure on
/// its ends (180 per edge, up to 1800) and how much the largest cycle shrinks
/// (120 per file, up to 1200); capped at 10000.
pub open spec fn cut_score_of(original: int, reduction: int, remaining: int, out: int, inn: int, seam: int) -> u32 {
    let bonus = if original == 0 { 0 } else { (2 * reduction * 4500 + original) / (2 * original) };
    let pressure = if out > 100 || inn > 100 || (out + inn) * 180 > 1800 { 1800 } else { (out + inn) * 180 };
    let shrink = if original > remaining { original - remaining } else { 0 };
    let cleanup = if shrink > 10 { 1200 } else if shrink * 120 > 1200 { 1200 } else { shrink * 120 };
    let total = 2000 + (if bonus > 4500 { 4500 } else { bonus }) + seam + pressure + cleanup;
    if total > 10000 { 10000 } else { total as u32 }
}

fn cut_candidate_score(
    original: usize,
    reduction: usize,
    remaining: usize,
    source: &str,
    target: &str,
    g: &StructuralGraph,
    seam_kind: &str,
) -> (r: u32)
    requires
        reduction <= original,
    ensures
        r == cut_score_of(
            original as int,
            reduction as int,
            remaining as int,
            import_fan_out(edge_view(g.import_edges@), source@) as int,
            import_fan_in(edge_view(g.import_edges@), target@) as int,
            seam_points_of(seam_kind@),
        ),
        r <= 10000,
{
    let reduction_bonus: u64 = if original == 0 {
        0
    } else {
        let num: u128 = 2 * (reduction as u128) * 4500 + original as u128;
        let den: u128 = 2 * original as u128;
        let q: u128 = num / den;
        assert(q <= 4501) by (nonlinear_arith)
            requires
                num == 9000 * reduction + original,
                den == 2 * original,
                reduction <= original,
                original > 0,
                q == num / den,
        {
            assert(num <= 9002 * original);
            assert(num / den <= (9002 * original) / (2 * original));
            assert((9002 * original) / (2 * original) == 4501);
        }
        q as u64
    };
    let seam = seam_points(seam_kind) as u64;
    let out = count_edges_from(&g.import_edges, source) as u64;
    let inn = count_edges_to(&g.import_edges, target) as u64;
    let pressure: u64 = if out > 100 || inn > 100 || (out + inn) * 180 > 1800 {
        1800
    } else {
        (out + inn) * 180
    };
    let shrink: u64 = if original > remaining {
        (original - remaining) as u64
    } else {
        0
    };
    let cleanup: u64 = if shrink > 10 {
        1200
    } else if shrink * 120 > 1200 {
        1200
    } else {
        shrink * 120
    };
    let total = 2000 + (if reduction_bonus > 4500 { 4500 } else { reduction_bonus }) + seam + pressure + cleanup;
    if total > 10000 {
        10000
    } else {
        total as u32
    }
}

/// The lines of the facts of `p`, or none.
pub open spec fn lines_at(facts: Seq<FileFacts>, p: Text) -> usize {
    match fact_index(facts, p) {
        Some(i) => facts[i].lines,
        None => 0,
    }
}

fn lines_of(facts: &Vec<FileFacts>, p: &str) -> (r: usize)
    ensures
        r == lines_at(facts@, p@),
{
    match find_facts(facts, p) {
        Some(k) => facts[k].lines,
        None => 0,
    }
}

/// The import edges of a cycle: those of the graph between its files.
pub open spec fn cycle_edge_set(nodes: Seq<Text>, g: StructuralGraph) -> Set<(Text, Text)> {
    internal_edge_set(nodes.to_set(), edge_view(g.import_edges@), None)
}

/// The import edges of a cycle left once `e` is cut.
pub open spec fn edges_after_cut(nodes: Seq<Text>, g: StructuralGraph, e: (Text, Text)) -> Set<(Text, Text)> {
    internal_edge_set(nodes.to_set(), edge_view(g.import_edges@), Some(e))
}

/// How many files stay off every cycle once `e` is cut.
pub open spec fn cut_reduction(nodes: Seq<Text>, g: StructuralGraph, e: (Text, Text)) -> int {
    nodes.len() - cyclic_count(nodes, nodes.len() as int, edges_after_cut(nodes, g, e))
}

/// `c` is the cut candidate of the edge `e` of the cycle over `nodes`.
pub open spec fn is_cut_candidate(
    c: CycleCutCandidate,
    e: (Text, Text),
    nodes: Seq<Text>,
    facts: Seq<FileFacts>,
    g: StructuralGraph,
) -> bool {
    let reduction = cut_reduction(nodes, g, e);
    let remaining = largest_cycle_upto(nodes, nodes.len() as int, edges_after_cut(nodes, g, e));
    let kind = seam_kind_of(e.0, e.1, facts);
    let iv = edge_view(g.import_edges@);
    &&& c.source@ == e.0
    &&& c.target@ == e.1
    &&& c.seam_kind@ == kind
    &&& c.reduction_file_count == reduction
    &&& c.remaining_cycle_size == remaining
    &&& c.score_0_10000 == cut_score_of(
        nodes.len() as int,
        reduction,
        remaining as int,
        import_fan_out(iv, e.0) as int,
        import_fan_in(iv, e.1) as int,
        seam_points_of(kind),
    )
    &&& c.summary@ == "Inspect import edge '"@ + e.0 + "' -> '"@ + e.1 + "' to reduce the cyclic footprint by "@ + dec(
        reduction as nat,
    ) + " file(s)"@
    &&& c.evidence.deep_view() == seq![
        "seam kind: "@ + kind,
        "remaining largest cycle after cut: "@ + dec(remaining) + ""@,
        "cyclic files removed by cut: "@ + dec(reduction as nat) + ""@,
        "source lines: "@ + dec(lines_at(facts, e.0) as nat) + ""@,
        "target lines: "@ + dec(lines_at(facts, e.1) as nat) + ""@,
        "edge basis: import"@,
    ]
}

/// The cut candidate of an import edge of the cycle, where cutting it takes
/// some file off every cycle.
fn cut_candidate(nodes: &Vec<String>, facts: &Vec<FileFacts>, g: &StructuralGraph, source: &str, target: &str) -> (r:
    Option<CycleCutCandidate>)
    requires
        g.import_edges@.len() + 1 < usize::MAX,
    ensures
        match r {
            Some(c) => cut_reduction(nodes.deep_view(), *g, (source@, target@)) > 0 && is_cut_candidate(
                c,
                (source@, target@),
                nodes.deep_view(),
                facts@,
                *g,
            ),
            None => cut_reduction(nodes.deep_view(), *g, (source@, target@)) <= 0,
        },
{
    let remaining_edges = cycle_edges(nodes, g, Some((source, target)));
    assert(edge_view(remaining_edges@).to_set() == edges_after_cut(nodes.deep_view(), *g, (source@, target@)));
    let (remaining, cyclic) = cyclic_sizes(nodes, &remaining_edges);
    let original = nodes.len();
    assert(nodes.deep_view().len() == original);
    if cyclic >= original {
        return None;
    }
    let reduction = original - cyclic;
    let seam_kind = cycle_seam_kind(source, target, facts);
    let score = cut_candidate_score(original, reduction, remaining, source, target, g, seam_kind);
    let source_lines = lines_of(facts, source);
    let target_lines = lines_of(facts, target);
    let mut summary = "Inspect import edge '".to_string();
    summary.append(source);
    summary.append("' -> '");
    summary.append(target);
    summary.append("' to reduce the cyclic footprint by ");
    let d = decimal(reduction as u64);
    summary.append(d.as_str());
    summary.append(" file(s)");
    let mut evidence: Vec<String> = Vec::new();
    let mut e0 = "seam kind: ".to_string();
    e0.append(seam_kind);
    push_line(&mut evidence, e0);
    push_line(&mut evidence, crate::text::phrase("remaining largest cycle after cut: ", remaining as u64, ""));
    push_line(&mut evidence, crate::text::phrase("cyclic files removed by cut: ", reduction as u64, ""));
    push_line(&mut evidence, crate::text::phrase("source lines: ", source_lines as u64, ""));
    push_line(&mut evidence, crate::text::phrase("target lines: ", target_lines as u64, ""));
    push_line(&mut evidence, "edge basis: import".to_string());
    let c = CycleCutCandidate {
        source: source.to_string(),
        target: target.to_string(),
        seam_kind: seam_kind.to_string(),
        score_0_10000: score,
        summary,
        evidence,
        reduction_file_count: reduction,
        remaining_cycle_size: remaining,
    };
    assert(c.evidence.deep_view() =~= seq![
        "seam kind: "@ + seam_kind_of(source@, target@, facts@),
        "remaining largest cycle after cut: "@ + dec(remaining as nat) + ""@,
        "cyclic files removed by cut: "@ + dec(reduction as nat) + ""@,
        "source lines: "@ + dec(lines_at(facts@, source@) as nat) + ""@,
        "target lines: "@ + dec(lines_at(facts@, target@) as nat) + ""@,
        "edge basis: import"@,
    ]);
    Some(c)
}

/// The cut candidates of a cycle over the files `nodes`: one per import edge
/// of the cycle whose cut takes a file off every cycle, each once.
pub open spec fn cut_candidates_of(
    cs: Seq<CycleCutCandidate>,
    nodes: Seq<Text>,
    facts: Seq<FileFacts>,
    g: StructuralGraph,
) -> bool {
    &&& forall|k: int|
        0 <= k < cs.len() ==> {
            let e = ((#[trigger] cs[k]).source@, cs[k].target@);
            &&& cycle_edge_set(nodes, g).contains(e)
            &&& cut_reduction(nodes, g, e) > 0
            &&& is_cut_candidate(cs[k], e, nodes, facts, g)
        }
    &&& forall|e: (Text, Text)|
        cycle_edge_set(nodes, g).contains(e) && cut_reduction(nodes, g, e) > 0 ==> exists|k: int|
            0 <= k < cs.len() && (#[trigger] cs[k]).source@ == e.0 && cs[k].target@ == e.1
    &&& forall|a: int, b: int|
        0 <= a < b < cs.len() ==> ((#[trigger] cs[a]).source@, cs[a].target@) != ((#[trigger] cs[b]).source@, cs[b].target@)
}

/// The import edges inside a cycle whose cut takes files off every cycle,
/// best first (see `CycleCutCandidate`'s ranking), at most three.
pub fn cycle_cut_candidates(files: &Vec<String>, facts: &Vec<FileFacts>, g: &StructuralGraph) -> (r: Vec<CycleCutCandidate>)
    requires
        g.import_edges@.len() + 1 < usize::MAX,
    ensures
        r@.len() <= 3,
        ranked_order(r@),
        exists|planned: Seq<CycleCutCandidate>, all: Seq<CycleCutCandidate>|
            {
                &&& cut_candidates_of(planned, sorted_set(files.deep_view().to_set()), facts@, *g)
                &&& #[trigger] all.to_multiset() == #[trigger] planned.to_multiset()
                &&& ranked_order(all)
                &&& r@ == all.take(if all.len() < 3 { all.len() as int } else { 3 })
            },
        forall|i: int| 0 <= i < r@.len() ==> (#[trigger] r@[i]).reduction_file_count <= files@.len(),
        forall|i: int|
            0 <= i < r@.len() ==> {
                &&& files.deep_view().contains((#[trigger] r@[i]).source@)
                &&& files.deep_view().contains(r@[i].target@)
                &&& edge_view(g.import_edges@).contains((r@[i].source@, r@[i].target@))
                &&& r@[i].reduction_file_count >= 1
            },
{
    let nodes = sorted_unique(files);
    let ghost nv = nodes.deep_view();
    proof {
        crate::grouping::lemma_sorted_set_of(nv);
        crate::order::lemma_sorted_no_duplicates(nv);
        nv.unique_seq_to_set();
        files.deep_view().lemma_cardinality_of_set();
    }
    assert(nv == sorted_set(files.deep_view().to_set()));
    let original = nodes.len();
    let internal = cycle_edges(&nodes, g, None);
    let ghost ie = edge_view(internal@);
    assert(ie.to_set() == cycle_edge_set(nv, *g));
    let mut candidates: Vec<CycleCutCandidate> = Vec::new();
    let mut i: usize = 0;
    while i < internal.len()
        invariant
            g.import_edges@.len() + 1 < usize::MAX,
            nv == nodes.deep_view(),
            original == nv.len(),
            original <= files@.len(),
            ie == edge_view(internal@),
            ie.no_duplicates(),
            ie.to_set() == cycle_edge_set(nv, *g),
            i <= ie.len(),
            forall|k: int|
                0 <= k < candidates@.len() ==> {
                    let e = ((#[trigger] candidates@[k]).source@, candidates@[k].target@);
                    &&& exists|q: int| 0 <= q < i && ie[q] == e
                    &&& cut_reduction(nv, *g, e) > 0
                    &&& is_cut_candidate(candidates@[k], e, nv, facts@, *g)
                    &&& candidates@[k].reduction_file_count <= files@.len()
                },
            forall|q: int|
                0 <= q < i && cut_reduction(nv, *g, #[trigger] ie[q]) > 0 ==> exists|k: int|
                    0 <= k < candidates@.len() && (#[trigger] candidates@[k]).source@ == ie[q].0 && candidates@[k].target@
                        == ie[q].1,
            forall|a: int, b: int|
                0 <= a < b < candidates@.len() ==> ((#[trigger] candidates@[a]).source@, candidates@[a].target@) != (
                    (#[trigger] candidates@[b]).source@,
                    candidates@[b].target@,
                ),
        decreases ie.len() - i,
    {
        let source = internal[i].0.as_str();
        let target = internal[i].1.as_str();
        assert(ie[i as int] == (source@, target@));
        let ghost before = candidates@;
        match cut_candidate(&nodes, facts, g, source, target) {
            Some(c) => {
                candidates.push(c);
                assert forall|a: int, b: int| 0 <= a < b < candidates@.len() implies ((#[trigger] candidates@[a]).source@,
                    candidates@[a].target@) != ((#[trigger] candidates@[b]).source@, candidates@[b].target@) by {
                    if b == before.len() {
                        let q = choose|q: int| 0 <= q < i && ie[q] == (before[a].source@, before[a].target@);
                        assert(ie[q] != ie[i as int]);
                    } else {
                        assert(candidates@[a] == before[a] && candidates@[b] == before[b]);
                    }
                }
                assert forall|k: int| 0 <= k < candidates@.len() implies {
                    let e = ((#[trigger] candidates@[k]).source@, candidates@[k].target@);
                    &&& exists|q: int| 0 <= q < i + 1 && ie[q] == e
                    &&& cut_reduction(nv, *g, e) > 0
                    &&& is_cut_candidate(candidates@[k], e, nv, facts@, *g)
                    &&& candidates@[k].reduction_file_count <= files@.len()
                } by {
                    if k < before.len() {
                        assert(candidates@[k] == before[k]);
                    } else {
                        assert(candidates@[k] == c);
                        assert(ie[i as int] == (c.source@, c.target@));
                    }
                }
                assert forall|q: int| 0 <= q < i + 1 && cut_reduction(nv, *g, #[trigger] ie[q]) > 0 implies exists|k: int|
                    0 <= k < candidates@.len() && (#[trigger] candidates@[k]).source@ == ie[q].0 && candidates@[k].target@
                        == ie[q].1 by {
                    if q < i {
                        let k = choose|k: int|
                            0 <= k < before.len() && (#[trigger] before[k]).source@ == ie[q].0 && before[k].target@ == ie[q].1;
                        assert(candidates@[k] == before[k]);
                    } else {
                        assert(candidates@[before.len() as int] == c);
                    }
                }
            },
            None => {},
        }
        i = i + 1;
    }
    let ghost planned = candidates@;
    let mut sorted = sort_ranked(candidates);
    let ghost all = sorted@;
    proof {
        assert forall|k: int| 0 <= k < planned.len() implies {
            let e = ((#[trigger] planned[k]).source@, planned[k].target@);
            &&& cycle_edge_set(nv, *g).contains(e)
            &&& cut_reduction(nv, *g, e) > 0
            &&& is_cut_candidate(planned[k], e, nv, facts@, *g)
        } by {
            let q = choose|q: int| 0 <= q < ie.len() && ie[q] == (planned[k].source@, planned[k].target@);
            assert(ie.to_set().contains(ie[q]));
        }
        assert forall|e: (Text, Text)| cycle_edge_set(nv, *g).contains(e) && cut_reduction(nv, *g, e) > 0 implies exists|k: int|
            0 <= k < planned.len() && (#[trigger] planned[k]).source@ == e.0 && planned[k].target@ == e.1 by {
            assert(ie.to_set().contains(e));
            let q = choose|q: int| 0 <= q < ie.len() && ie[q] == e;
        }
        assert forall|k: int| 0 <= k < all.len() implies (#[trigger] all[k]).reduction_file_count <= files@.len() by {
            vstd::seq_lib::to_multiset_contains(all, all[k]);
            assert(all.contains(all[k]));
            vstd::seq_lib::to_multiset_contains(planned, all[k]);
        }
        assert forall|k: int| 0 <= k < all.len() implies {
            &&& files.deep_view().contains((#[trigger] all[k]).source@)
            &&& files.deep_view().contains(all[k].target@)
            &&& edge_view(g.import_edges@).contains((all[k].source@, all[k].target@))
            &&& all[k].reduction_file_count >= 1
        } by {
            vstd::seq_lib::to_multiset_contains(all, all[k]);
            assert(all.contains(all[k]));
            vstd::seq_lib::to_multiset_contains(planned, all[k]);
            let q = choose|q: int| 0 <= q < planned.len() && planned[q] == all[k];
            let e = (planned[q].source@, planned[q].target@);
            assert(cycle_edge_set(nv, *g).contains(e));
            assert(nv.to_set().contains(e.0) && nv.to_set().contains(e.1));
            assert(files.deep_view().to_set().contains(e.0));
            assert(files.deep_view().to_set().contains(e.1));
        }
    }
    sorted.truncate(3);
    assert(sorted@ == all.take(sorted@.len() as int));
    sorted
}

} // verus!
